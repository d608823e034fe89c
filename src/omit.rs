//! The `@omit` annotation of catalog comments: which of create, read,
//! update and delete a table or column withholds.

use crate::text::{chars_of, is_space, same_chars, space};
use vstd::prelude::*;

verus! {

/// The operations that a table or column withholds: `true` means omitted.
#[derive(Clone, Copy, Debug, PartialEq, Eq, Structural)]
pub struct Omit {
    pub create: bool,
    pub read: bool,
    pub update: bool,
    pub delete: bool,
}

/// The marker `@omit` stands at position `i` of `c`.
pub open spec fn marker_at(c: Seq<char>, i: int) -> bool {
    0 <= i && i + 5 <= c.len() && c.subrange(i, i + 5) == "@omit"@
}

pub open spec fn has_marker(c: Seq<char>) -> bool {
    exists|i: int| marker_at(c, i)
}

/// The first position at or after `j` that holds no whitespace (or the end).
pub open spec fn skip_space(c: Seq<char>, j: int) -> int
    decreases c.len() - j,
{
    if j < 0 || j >= c.len() || !is_space(c[j]) {
        j
    } else {
        skip_space(c, j + 1)
    }
}

/// The first position at or after `j` that holds whitespace (or the end).
pub open spec fn token_end(c: Seq<char>, j: int) -> int
    decreases c.len() - j,
{
    if j < 0 || j >= c.len() || is_space(c[j]) {
        j
    } else {
        token_end(c, j + 1)
    }
}

/// At `i` stands `@omit`, then whitespace, then an operand list.
pub open spec fn annotation_at(c: Seq<char>, i: int) -> bool {
    marker_at(c, i) && i + 5 < c.len() && is_space(c[i + 5]) && skip_space(c, i + 5) < c.len()
}

/// The first position at or after `i` where `@omit` stands.
pub open spec fn first_marker(c: Seq<char>, i: int) -> Option<int>
    decreases c.len() - i,
{
    if i < 0 || i >= c.len() {
        None
    } else if marker_at(c, i) {
        Some(i)
    } else {
        first_marker(c, i + 1)
    }
}

/// The operand list of the annotation at `i`: the run of non-whitespace
/// characters after the whitespace that follows `@omit`.
pub open spec fn operands(c: Seq<char>, i: int) -> Seq<char> {
    let k = skip_space(c, i + 5);
    c.subrange(k, token_end(c, k))
}

/// The pieces of `l` between commas, as `str::split(",")` yields them.
pub open spec fn comma_pieces(l: Seq<char>) -> Seq<Seq<char>>
    decreases l.len(),
{
    if l.len() == 0 {
        seq![seq![]]
    } else {
        let p = comma_pieces(l.drop_last());
        if l.last() == ',' {
            p.push(seq![])
        } else {
            p.update(p.len() - 1, p.last().push(l.last()))
        }
    }
}

/// The mask that a comment states, decided by its first `@omit`. Without
/// `@omit` nothing is omitted; where the first `@omit` has no operand list
/// after it everything is; otherwise exactly the operations named in its
/// operand list are. Later occurrences are not read.
pub open spec fn omit_of(c: Seq<char>) -> Omit {
    match first_marker(c, 0) {
        Some(i) => if annotation_at(c, i) {
            let pieces = comma_pieces(operands(c, i));
            Omit {
                create: pieces.contains("create"@),
                read: pieces.contains("read"@),
                update: pieces.contains("update"@),
                delete: pieces.contains("delete"@),
            }
        } else {
            Omit { create: true, read: true, update: true, delete: true }
        },
        None => Omit { create: false, read: false, update: false, delete: false },
    }
}

/// Suppression of `self` or of `other`, operation by operation.
pub open spec fn union_of(a: Omit, b: Omit) -> Omit {
    Omit {
        create: a.create || b.create,
        read: a.read || b.read,
        update: a.update || b.update,
        delete: a.delete || b.delete,
    }
}

fn marker_at_exec(c: &Vec<char>, i: usize) -> (r: bool)
    requires
        i <= c@.len(),
    ensures
        r == marker_at(c@, i as int),
{
    proof {
        reveal_strlit("@omit");
    }
    if c.len() - i < 5 {
        return false;
    }
    let r = c[i] == '@' && c[i + 1] == 'o' && c[i + 2] == 'm' && c[i + 3] == 'i' && c[i + 4] == 't';
    if r {
        assert(c@.subrange(i as int, i + 5) =~= "@omit"@);
    } else {
        proof {
            let sub = c@.subrange(i as int, i + 5);
            if sub == "@omit"@ {
                assert(sub[0] == '@' && sub[1] == 'o' && sub[2] == 'm' && sub[3] == 'i' && sub[4]
                    == 't');
            }
        }
    }
    r
}

fn skip_space_exec(c: &Vec<char>, j: usize) -> (r: usize)
    requires
        j <= c@.len(),
    ensures
        r as int == skip_space(c@, j as int),
        j <= r <= c@.len(),
{
    let mut k = j;
    while k < c.len() && space(c[k])
        invariant
            j <= k <= c@.len(),
            skip_space(c@, k as int) == skip_space(c@, j as int),
        decreases c@.len() - k,
    {
        k = k + 1;
    }
    k
}

fn token_end_exec(c: &Vec<char>, j: usize) -> (r: usize)
    requires
        j <= c@.len(),
    ensures
        r as int == token_end(c@, j as int),
        j <= r <= c@.len(),
{
    let mut k = j;
    while k < c.len() && !space(c[k])
        invariant
            j <= k <= c@.len(),
            token_end(c@, k as int) == token_end(c@, j as int),
        decreases c@.len() - k,
    {
        k = k + 1;
    }
    k
}

fn find_marker(c: &Vec<char>) -> (r: Option<usize>)
    ensures
        match r {
            Some(i) => first_marker(c@, 0) == Some(i as int) && marker_at(c@, i as int),
            None => first_marker(c@, 0) is None,
        },
{
    let n = c.len();
    let mut i: usize = 0;
    while i < n
        invariant
            n == c@.len(),
            i <= n,
            first_marker(c@, 0) == first_marker(c@, i as int),
        decreases n - i,
    {
        if marker_at_exec(c, i) {
            return Some(i);
        }
        i = i + 1;
    }
    None
}

/// The comma-separated pieces of `c[start..end]`.
fn split_commas(c: &Vec<char>, start: usize, end: usize) -> (r: Vec<Vec<char>>)
    requires
        start <= end <= c@.len(),
    ensures
        r@.map_values(|v: Vec<char>| v@) == comma_pieces(c@.subrange(start as int, end as int)),
{
    let mut pieces: Vec<Vec<char>> = Vec::new();
    let mut cur: Vec<char> = Vec::new();
    let mut i = start;
    assert(c@.subrange(start as int, start as int) =~= Seq::<char>::empty());
    assert(pieces@.map_values(|v: Vec<char>| v@).push(cur@) =~= seq![seq![]]);
    while i < end
        invariant
            start <= i <= end <= c@.len(),
            pieces@.map_values(|v: Vec<char>| v@).push(cur@) == comma_pieces(
                c@.subrange(start as int, i as int),
            ),
        decreases end - i,
    {
        let ghost before = pieces@.map_values(|v: Vec<char>| v@).push(cur@);
        let ch = c[i];
        assert(c@.subrange(start as int, i + 1).drop_last() =~= c@.subrange(
            start as int,
            i as int,
        ));
        if ch == ',' {
            let done = cur;
            pieces.push(done);
            cur = Vec::new();
            assert(pieces@.map_values(|v: Vec<char>| v@).push(cur@) =~= before.push(seq![]));
        } else {
            cur.push(ch);
            assert(pieces@.map_values(|v: Vec<char>| v@).push(cur@) =~= before.update(
                before.len() - 1,
                before.last().push(ch),
            ));
        }
        i = i + 1;
    }
    pieces.push(cur);
    assert(pieces@.map_values(|v: Vec<char>| v@) =~= comma_pieces(
        c@.subrange(start as int, end as int),
    ));
    pieces
}

fn lists(pieces: &Vec<Vec<char>>, word: &str) -> (r: bool)
    ensures
        r == pieces@.map_values(|v: Vec<char>| v@).contains(word@),
{
    let w = chars_of(word);
    let ghost views = pieces@.map_values(|v: Vec<char>| v@);
    let mut i: usize = 0;
    while i < pieces.len()
        invariant
            i <= pieces@.len(),
            views == pieces@.map_values(|v: Vec<char>| v@),
            w@ == word@,
            forall|j: int| 0 <= j < i ==> views[j] != word@,
        decreases pieces@.len() - i,
    {
        if same_chars(&pieces[i], &w) {
            assert(views[i as int] == word@);
            return true;
        }
        i = i + 1;
    }
    false
}

proof fn lemma_no_marker_found(c: Seq<char>, i: int)
    requires
        !has_marker(c),
    ensures
        first_marker(c, i) is None,
    decreases c.len() - i,
{
    if 0 <= i < c.len() {
        assert(!marker_at(c, i));
        lemma_no_marker_found(c, i + 1);
    }
}

/// A comment without `@omit` withholds nothing.
pub proof fn lemma_no_marker_omits_nothing(c: Seq<char>)
    requires
        !has_marker(c),
    ensures
        omit_of(c) == (Omit { create: false, read: false, update: false, delete: false }),
{
    lemma_no_marker_found(c, 0);
}

impl Omit {
    /// Reads the mask that a catalog comment states.
    pub fn new(comment: &str) -> (r: Omit)
        ensures
            r == omit_of(comment@),
    {
        let c = chars_of(comment);
        let n = c.len();
        match find_marker(&c) {
            None => Omit { create: false, read: false, update: false, delete: false },
            Some(i) => {
                let listed = n - i > 5 && space(c[i + 5]) && skip_space_exec(&c, i + 5) < n;
                assert(listed == annotation_at(c@, i as int));
                if !listed {
                    return Omit { create: true, read: true, update: true, delete: true };
                }
                let k = skip_space_exec(&c, i + 5);
                let e = token_end_exec(&c, k);
                let pieces = split_commas(&c, k, e);
                Omit {
                    create: lists(&pieces, "create"),
                    read: lists(&pieces, "read"),
                    update: lists(&pieces, "update"),
                    delete: lists(&pieces, "delete"),
                }
            },
        }
    }

    /// The mask that omits an operation where `self` or `other` does.
    pub fn union(&self, other: &Omit) -> (r: Omit)
        ensures
            r == union_of(*self, *other),
    {
        Omit {
            create: self.create || other.create,
            read: self.read || other.read,
            update: self.update || other.update,
            delete: self.delete || other.delete,
        }
    }
}

} // verus!
