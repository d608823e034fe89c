//! Identifier inflection: camelCase, snake_case and singular forms of
//! database identifiers. Word boundaries are ASCII; case mapping follows
//! Unicode.

use crate::text::{
    chars_of, is_cased_upper, is_lower_or_digit, is_space, is_upper, lower, lower_or_digit, lowercase, lowered,
    raised, space, string_of, upper, upper_ascii, uppercase,
};
use vstd::prelude::*;
use vstd::utf8::is_ascii_chars;

verus! {

/// A character that separates words: whitespace, `_` or `-`.
pub open spec fn is_separator(c: char) -> bool {
    is_space(c) || c == '_' || c == '-'
}

/// A word starts at `p` (not the first position): the character before it is
/// a separator, or a lowercase letter or digit followed by an uppercase one.
pub open spec fn word_break_before(s: Seq<char>, p: int) -> bool {
    0 < p < s.len() && (is_separator(s[p - 1]) || (is_lower_or_digit(s[p - 1]) && is_upper(s[p])))
}

/// No word starts at any position in `1..n`.
pub open spec fn no_break_below(s: Seq<char>, n: int) -> bool {
    forall|q: int| 0 < q < n ==> !#[trigger] word_break_before(s, q)
}

/// Position `p` belongs to the first word of `s`.
pub open spec fn in_leading_word(s: Seq<char>, p: int) -> bool {
    no_break_below(s, p + 1)
}

/// The end of the first word: the first position, at or after `i`, that
/// holds a separator or starts a new word (or the end of `s`).
pub open spec fn leading_end_from(s: Seq<char>, i: int) -> int
    decreases s.len() - i,
{
    if i < 0 || i >= s.len() || is_separator(s[i]) || word_break_before(s, i) {
        i
    } else {
        leading_end_from(s, i + 1)
    }
}

pub open spec fn leading_end(s: Seq<char>) -> int {
    leading_end_from(s, 0)
}

/// What the camelCase form makes of position `p` after the first word:
/// nothing for a separator, the uppercase form of a character that starts a
/// word, the character itself elsewhere.
pub open spec fn later_piece(s: Seq<char>, p: int) -> Seq<char> {
    if is_separator(s[p]) {
        seq![]
    } else if word_break_before(s, p) {
        raised(s[p])
    } else {
        seq![s[p]]
    }
}

pub open spec fn later_words(s: Seq<char>, from: int, n: int) -> Seq<char>
    decreases n - from,
{
    if n <= from {
        seq![]
    } else {
        later_words(s, from, n - 1) + later_piece(s, n - 1)
    }
}

/// The camelCase form of `s`: words split at separators and at
/// lowercase-to-uppercase transitions, the first word lowercased, every
/// later word with its first character raised, joined without separators.
pub open spec fn camel_of(s: Seq<char>) -> Seq<char> {
    let l = leading_end(s);
    lowered(s.subrange(0, l)) + later_words(s, l, s.len() as int)
}

/// What the camelCase form makes of the (non-separator) character at `p`,
/// for ASCII text: lowered in the first word, raised at the start of every
/// later word, kept as it is elsewhere.
pub open spec fn camel_char(s: Seq<char>, p: int) -> char {
    if in_leading_word(s, p) {
        lower(s[p])
    } else if word_break_before(s, p) {
        upper(s[p])
    } else {
        s[p]
    }
}

/// The camelCase form of the first `n` characters of ASCII text, character
/// by character.
pub open spec fn camel_prefix(s: Seq<char>, n: int) -> Seq<char>
    decreases n,
{
    if n <= 0 {
        seq![]
    } else {
        camel_prefix(s, n - 1) + if is_separator(s[n - 1]) {
            seq![]
        } else {
            seq![camel_char(s, n - 1)]
        }
    }
}

/// Already in camelCase: no separators, and no uppercase letter in the
/// first word.
pub open spec fn is_camel(s: Seq<char>) -> bool {
    forall|p: int|
        #![trigger s[p]]
        0 <= p < s.len() ==> !is_separator(s[p]) && (in_leading_word(s, p) ==> !is_upper(s[p]))
}

/// An underscore goes before position `p` of the snake_case form: at a
/// lowercase-or-digit to uppercase transition, or before the last letter of
/// an uppercase run that is followed by a lowercase letter or digit.
pub open spec fn snake_break_before(s: Seq<char>, p: int) -> bool {
    0 < p < s.len() && is_upper(s[p]) && (is_lower_or_digit(s[p - 1]) || (is_upper(s[p - 1]) && p
        + 1 < s.len() && is_lower_or_digit(s[p + 1])))
}

/// A character of the snake_case form before lowering: `-` becomes `_`.
pub open spec fn snake_char(c: char) -> char {
    if c == '-' {
        '_'
    } else {
        c
    }
}

pub open spec fn snake_prefix(s: Seq<char>, n: int) -> Seq<char>
    decreases n,
{
    if n <= 0 {
        seq![]
    } else {
        snake_prefix(s, n - 1) + if snake_break_before(s, n - 1) {
            seq!['_', snake_char(s[n - 1])]
        } else {
            seq![snake_char(s[n - 1])]
        }
    }
}

/// The snake_case form of `s`: underscores at word boundaries, `-` as
/// `_`, all of it lowercased.
pub open spec fn snake_of(s: Seq<char>) -> Seq<char> {
    lowered(snake_prefix(s, s.len() as int))
}

/// `s` with its first character raised to uppercase.
pub open spec fn capitalized(s: Seq<char>) -> Seq<char> {
    if s.len() == 0 {
        s
    } else {
        raised(s[0]) + s.drop_first()
    }
}

/// The singular of an English noun under the default rule tables of the
/// `pluralizer` crate. This holds only while nothing in the process adds
/// rules to those tables; this library adds none.
pub uninterp spec fn singular_of(s: Seq<char>) -> Seq<char>;

/// Converts an identifier in PascalCase, snake_case, kebab-case or a mix of
/// them to camelCase ("api_response" and "API_Response" give "apiResponse";
/// "APIResponse" has no lowercase-to-uppercase boundary and gives
/// "apiresponse").
pub fn to_camel_case(text: &str) -> (r: String)
    ensures
        r@ == camel_of(text@),
{
    let s = chars_of(text);
    let n = s.len();
    let mut l: usize = 0;
    while l < n && !is_sep(s[l]) && !(l > 0 && (is_sep(s[l - 1]) || (lower_or_digit(s[l - 1])
        && upper_ascii(s[l]))))
        invariant
            n == s@.len(),
            l <= n,
            leading_end_from(s@, l as int) == leading_end(s@),
        decreases n - l,
    {
        l = l + 1;
    }
    let mut first: Vec<char> = Vec::new();
    let mut i: usize = 0;
    while i < l
        invariant
            l <= n,
            n == s@.len(),
            i <= l,
            first@ == s@.subrange(0, i as int),
        decreases l - i,
    {
        first.push(s[i]);
        i = i + 1;
        assert(first@ =~= s@.subrange(0, i as int));
    }
    let head = lowercase(string_of(&first).as_str());
    let mut out = chars_of(head.as_str());
    assert(out@ == lowered(s@.subrange(0, l as int)));
    let mut i: usize = l;
    while i < n
        invariant
            l <= i <= n,
            n == s@.len(),
            l as int == leading_end(s@),
            out@ == lowered(s@.subrange(0, l as int)) + later_words(s@, l as int, i as int),
        decreases n - i,
    {
        let c = s[i];
        let ghost before = out@;
        if !is_sep(c) {
            let brk = i > 0 && (is_sep(s[i - 1]) || (lower_or_digit(s[i - 1]) && upper_ascii(c)));
            assert(brk == word_break_before(s@, i as int));
            if brk {
                let u = uppercase(c);
                let mut uc = chars_of(u.as_str());
                out.append(&mut uc);
            } else {
                out.push(c);
            }
        }
        i = i + 1;
        assert(out@ =~= before + later_piece(s@, i - 1));
    }
    string_of(&out)
}

fn is_sep(c: char) -> (r: bool)
    ensures
        r == is_separator(c),
{
    space(c) || c == '_' || c == '-'
}

/// Raises the first character of `s` to uppercase and keeps the rest.
pub fn capitalize_first(s: &str) -> (r: String)
    ensures
        r@ == capitalized(s@),
{
    let v = chars_of(s);
    if v.len() == 0 {
        return String::new();
    }
    let u = uppercase(v[0]);
    let mut out = chars_of(u.as_str());
    let mut i: usize = 1;
    while i < v.len()
        invariant
            1 <= i <= v@.len(),
            v@ == s@,
            out@ == raised(s@[0]) + s@.subrange(1, i as int),
        decreases v@.len() - i,
    {
        out.push(v[i]);
        i = i + 1;
        assert(out@ =~= raised(s@[0]) + s@.subrange(1, i as int));
    }
    assert(s@.subrange(1, s@.len() as int) =~= s@.drop_first());
    string_of(&out)
}

/// Converts an identifier in PascalCase, camelCase or kebab-case to
/// snake_case ("APIResponse" gives "api_response").
pub fn to_snake_case(text: &str) -> (r: String)
    ensures
        r@ == snake_of(text@),
{
    let s = chars_of(text);
    let n = s.len();
    let mut out: Vec<char> = Vec::new();
    let mut i: usize = 0;
    while i < n
        invariant
            n == s@.len(),
            i <= n,
            out@ == snake_prefix(s@, i as int),
        decreases n - i,
    {
        let c = s[i];
        let brk = i > 0 && upper_ascii(c) && (lower_or_digit(s[i - 1]) || (upper_ascii(s[i - 1]) && i
            + 1 < n && lower_or_digit(s[i + 1])));
        assert(brk == snake_break_before(s@, i as int));
        if brk {
            out.push('_');
        }
        let d = if c == '-' {
            '_'
        } else {
            c
        };
        out.push(d);
        i = i + 1;
        assert(out@ =~= snake_prefix(s@, i as int));
    }
    lowercase(string_of(&out).as_str())
}

/// Text that `singularize` accepts: ASCII, empty, or starting with a
/// character that is not uppercase.
pub open spec fn singularizable(text: Seq<char>) -> bool {
    is_ascii_chars(text) || text.len() == 0 || !is_cased_upper(text[0])
}

/// Relies on `pluralizer::pluralize` with a count of 1 and no count prefix:
/// the singular form of `text` under the crate's default rules, which this
/// library never changes. Where the text starts with an uppercase character
/// and is not ASCII, the crate may slice inside a multi-byte character and
/// panic, so such text is left out.
#[verifier::external_body]
pub fn singularize(text: &str) -> (r: String)
    requires
        singularizable(text@),
    ensures
        r@ == singular_of(text@),
{
    pluralizer::pluralize(text, 1, false)
}

proof fn lemma_leading_end_from(s: Seq<char>, i: int)
    requires
        0 <= i <= s.len(),
    ensures
        i <= leading_end_from(s, i) <= s.len(),
        forall|p: int|
            i <= p < leading_end_from(s, i) ==> !is_separator(#[trigger] s[p])
                && !word_break_before(s, p),
        leading_end_from(s, i) < s.len() ==> is_separator(s[leading_end_from(s, i)])
            || word_break_before(s, leading_end_from(s, i)),
    decreases s.len() - i,
{
    if i < s.len() && !is_separator(s[i]) && !word_break_before(s, i) {
        lemma_leading_end_from(s, i + 1);
    }
}

proof fn lemma_camel_prefix_head(s: Seq<char>, n: int)
    requires
        0 <= n <= leading_end(s),
    ensures
        camel_prefix(s, n) == s.subrange(0, n).map_values(|c: char| lower(c)),
    decreases n,
{
    lemma_leading_end_from(s, 0);
    if n > 0 {
        lemma_camel_prefix_head(s, n - 1);
        let p = n - 1;
        assert(!is_separator(s[p]));
        assert forall|q: int| 0 < q < p + 1 implies !#[trigger] word_break_before(s, q) by {
            assert(!is_separator(s[q]) && !word_break_before(s, q));
        }
        assert(in_leading_word(s, p));
        assert(s.subrange(0, n).map_values(|c: char| lower(c)) =~= s.subrange(0, n - 1).map_values(
            |c: char| lower(c),
        ).push(lower(s[p])));
    }
}

proof fn lemma_camel_prefix_tail(s: Seq<char>, n: int)
    requires
        is_ascii_chars(s),
        leading_end(s) <= n <= s.len(),
    ensures
        camel_prefix(s, n) == s.subrange(0, leading_end(s)).map_values(|c: char| lower(c))
            + later_words(s, leading_end(s), n),
    decreases n,
{
    let l = leading_end(s);
    lemma_leading_end_from(s, 0);
    if n == l {
        lemma_camel_prefix_head(s, n);
        assert(later_words(s, l, n) =~= Seq::<char>::empty());
        assert(s.subrange(0, l).map_values(|c: char| lower(c)) + Seq::<char>::empty()
            =~= s.subrange(0, l).map_values(|c: char| lower(c)));
    } else {
        lemma_camel_prefix_tail(s, n - 1);
        let p = n - 1;
        if !is_separator(s[p]) {
            let q = if word_break_before(s, l) {
                l
            } else {
                l + 1
            };
            assert(word_break_before(s, q) && 0 < q <= p);
            assert(!in_leading_word(s, p));
            assert(s[p] <= '\u{7f}');
            assert(later_piece(s, p) == seq![camel_char(s, p)]);
        }
        assert(camel_prefix(s, n) =~= s.subrange(0, l).map_values(|c: char| lower(c))
            + later_words(s, l, n));
    }
}

/// On ASCII text the camelCase form goes character by character.
proof fn lemma_camel_ascii(s: Seq<char>)
    requires
        is_ascii_chars(s),
    ensures
        camel_of(s) == camel_prefix(s, s.len() as int),
{
    let l = leading_end(s);
    lemma_leading_end_from(s, 0);
    assert(is_ascii_chars(s.subrange(0, l))) by {
        assert forall|i: int| 0 <= i < s.subrange(0, l).len() implies '\0' <= #[trigger] s.subrange(
            0,
            l,
        )[i] <= '\u{7f}' by {
            assert(s.subrange(0, l)[i] == s[i]);
        }
    }
    lemma_camel_prefix_tail(s, s.len() as int);
}

proof fn lemma_camel_prefix_clean(s: Seq<char>, n: int)
    requires
        is_ascii_chars(s),
        0 <= n <= s.len(),
    ensures
        forall|i: int|
            0 <= i < camel_prefix(s, n).len() ==> !is_separator(#[trigger] camel_prefix(s, n)[i])
                && '\0' <= camel_prefix(s, n)[i] <= '\u{7f}',
    decreases n,
{
    if n > 0 {
        lemma_camel_prefix_clean(s, n - 1);
        let prev = camel_prefix(s, n - 1);
        if !is_separator(s[n - 1]) {
            let c = camel_char(s, n - 1);
            assert(s[n - 1] <= '\u{7f}');
            assert(!is_separator(c) && '\0' <= c <= '\u{7f}');
            assert forall|i: int| 0 <= i < camel_prefix(s, n).len() implies !is_separator(
                #[trigger] camel_prefix(s, n)[i],
            ) && '\0' <= camel_prefix(s, n)[i] <= '\u{7f}' by {
                if i < prev.len() {
                    assert(camel_prefix(s, n)[i] == prev[i]);
                }
            }
        } else {
            assert(camel_prefix(s, n) =~= prev);
        }
    }
}

proof fn lemma_camel_prefix_fixed(y: Seq<char>, n: int)
    requires
        is_camel(y),
        0 <= n <= y.len(),
    ensures
        camel_prefix(y, n) == y.subrange(0, n),
    decreases n,
{
    if n > 0 {
        lemma_camel_prefix_fixed(y, n - 1);
        let p = n - 1;
        assert(!is_separator(y[p]));
        if in_leading_word(y, p) {
            assert(!is_upper(y[p]));
        } else if word_break_before(y, p) {
            assert(!is_separator(y[p - 1]));
        }
        assert(y.subrange(0, n) =~= y.subrange(0, n - 1).push(y[p]));
    }
}

/// ASCII text already in camelCase is its own camelCase form.
#[verifier::spinoff_prover]
pub proof fn lemma_camel_fixpoint(y: Seq<char>)
    requires
        is_ascii_chars(y),
        is_camel(y),
    ensures
        camel_of(y) == y,
{
    lemma_camel_ascii(y);
    lemma_camel_prefix_fixed(y, y.len() as int);
    assert(y.subrange(0, y.len() as int) =~= y);
}

proof fn lemma_camel_prefix_positions(y: Seq<char>, n: int)
    requires
        forall|i: int| 0 <= i < y.len() ==> !is_separator(#[trigger] y[i]),
        0 <= n <= y.len(),
    ensures
        camel_prefix(y, n).len() == n,
        forall|p: int| 0 <= p < n ==> #[trigger] camel_prefix(y, n)[p] == camel_char(y, p),
    decreases n,
{
    if n > 0 {
        lemma_camel_prefix_positions(y, n - 1);
        assert(!is_separator(y[n - 1]));
        assert forall|p: int| 0 <= p < n implies #[trigger] camel_prefix(y, n)[p] == camel_char(
            y,
            p,
        ) by {
            if p < n - 1 {
                assert(camel_prefix(y, n)[p] == camel_prefix(y, n - 1)[p]);
            }
        }
    }
}

/// For ASCII text, converting to camelCase twice gives the same as once
/// exactly when the first conversion yields camelCase.
pub proof fn lemma_camel_idempotent(x: Seq<char>)
    requires
        is_ascii_chars(x),
    ensures
        camel_of(camel_of(x)) == camel_of(x) <==> is_camel(camel_of(x)),
{
    lemma_camel_ascii(x);
    let y = camel_of(x);
    lemma_camel_prefix_clean(x, x.len() as int);
    assert(is_ascii_chars(y));
    if is_camel(y) {
        lemma_camel_fixpoint(y);
    } else {
        lemma_camel_ascii(y);
        assert forall|i: int| 0 <= i < y.len() implies !is_separator(#[trigger] y[i]) by {
            assert(!is_separator(camel_prefix(x, x.len() as int)[i]));
        }
        let p = choose|p: int|
            0 <= p < y.len() && !(!is_separator(y[p]) && (in_leading_word(y, p) ==> !is_upper(
                y[p],
            )));
        lemma_camel_prefix_positions(y, y.len() as int);
        assert(camel_prefix(y, y.len() as int)[p] == lower(y[p]));
        assert(camel_prefix(y, y.len() as int)[p] != y[p]);
    }
}

pub open spec fn is_ascii_alnum(c: char) -> bool {
    is_upper(c) || is_lower_or_digit(c)
}

/// Identifier text: ASCII letters, digits and separators, starting with a
/// letter or digit.
pub open spec fn is_identifier_text(x: Seq<char>) -> bool {
    &&& x.len() > 0
    &&& is_ascii_alnum(x[0])
    &&& is_ascii_chars(x)
    &&& forall|i: int| 0 <= i < x.len() ==> is_ascii_alnum(#[trigger] x[i]) || is_separator(x[i])
}

proof fn lemma_camel_prefix_camel(x: Seq<char>, n: int)
    requires
        is_identifier_text(x),
        0 <= n <= x.len(),
    ensures
        forall|i: int|
            0 <= i < camel_prefix(x, n).len() ==> is_ascii_alnum(#[trigger] camel_prefix(x, n)[i]),
        n >= 1 ==> camel_prefix(x, n).len() >= 1,
        is_camel(camel_prefix(x, n)),
    decreases n,
{
    if n > 0 {
        lemma_camel_prefix_camel(x, n - 1);
        let p = n - 1;
        let y = camel_prefix(x, n - 1);
        let z = camel_prefix(x, n);
        assert(x[p] <= '\u{7f}');
        if is_separator(x[p]) {
            assert(z =~= y);
            assert(p >= 1);
        } else {
            let c = camel_char(x, p);
            assert(is_ascii_alnum(x[p]));
            assert(is_ascii_alnum(c));
            assert(z =~= y.push(c));
            assert forall|i: int| 0 <= i < z.len() implies is_ascii_alnum(#[trigger] z[i]) by {
                if i < y.len() {
                    assert(z[i] == y[i]);
                }
            }
            assert forall|q: int|
                #![trigger z[q]]
                0 <= q < z.len() implies !is_separator(z[q]) && (in_leading_word(z, q)
                    ==> !is_upper(z[q])) by {
                assert(is_ascii_alnum(z[q]));
                if q < y.len() {
                    assert(z[q] == y[q]);
                    if in_leading_word(z, q) {
                        assert forall|r: int| 0 < r < q + 1 implies !#[trigger] word_break_before(
                            y,
                            r,
                        ) by {
                            assert(!word_break_before(z, r));
                            assert(z[r] == y[r] && z[r - 1] == y[r - 1]);
                        }
                        assert(in_leading_word(y, q));
                    }
                } else if in_leading_word(z, q) && is_upper(z[q]) {
                    if q == 0 {
                        assert(p == 0);
                        assert(in_leading_word(x, 0));
                    } else {
                        assert forall|r: int| 0 < r < q implies !#[trigger] word_break_before(
                            y,
                            r,
                        ) by {
                            assert(!word_break_before(z, r));
                            assert(z[r] == y[r] && z[r - 1] == y[r - 1]);
                        }
                        assert(in_leading_word(y, q - 1));
                        assert(!is_upper(y[q - 1]));
                        assert(is_ascii_alnum(y[q - 1]));
                        assert(z[q - 1] == y[q - 1]);
                        assert(word_break_before(z, q));
                    }
                }
            }
        }
    }
}

/// Converting identifier text (ASCII letters, digits and separators,
/// starting with a letter or digit) to camelCase twice gives the same as
/// once.
pub proof fn lemma_identifier_camel_idempotent(x: Seq<char>)
    requires
        is_identifier_text(x),
    ensures
        camel_of(camel_of(x)) == camel_of(x),
{
    lemma_camel_ascii(x);
    lemma_camel_prefix_camel(x, x.len() as int);
    lemma_camel_idempotent(x);
}

} // verus!
