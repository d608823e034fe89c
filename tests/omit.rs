use pg_entities::omit::Omit;

fn mask(create: bool, read: bool, update: bool, delete: bool) -> Omit {
    Omit { create, read, update, delete }
}

#[test]
fn comment_without_marker_omits_nothing() {
    assert_eq!(Omit::new(""), mask(false, false, false, false));
    assert_eq!(Omit::new("the orders of a customer"), mask(false, false, false, false));
    assert_eq!(Omit::new("@omi read"), mask(false, false, false, false));
}

#[test]
fn bare_marker_omits_everything() {
    assert_eq!(Omit::new("@omit"), mask(true, true, true, true));
    assert_eq!(Omit::new("internal @omit   "), mask(true, true, true, true));
    assert_eq!(Omit::new("x@omitread"), mask(true, true, true, true));
}

#[test]
fn operand_list_names_the_omitted_operations() {
    assert_eq!(Omit::new("@omit create,read"), mask(true, true, false, false));
    assert_eq!(Omit::new("@omit read,update"), mask(false, true, true, false));
    assert_eq!(Omit::new("audit log @omit  \t delete trailing"), mask(false, false, false, true));
}

#[test]
fn unknown_operands_are_ignored() {
    assert_eq!(Omit::new("@omit foo,delete,Read"), mask(false, false, false, true));
    assert_eq!(Omit::new("@omit nothing"), mask(false, false, false, false));
    assert_eq!(Omit::new("@omit read, update"), mask(false, true, false, false));
}

#[test]
fn only_the_first_annotation_counts() {
    assert_eq!(Omit::new("@omit read @omit delete"), mask(false, true, false, false));
    assert_eq!(Omit::new("@omit@omit update"), mask(true, true, true, true));
    assert_eq!(Omit::new("@omit, @omit read"), mask(true, true, true, true));
}

#[test]
fn union_omits_what_either_omits() {
    let a = mask(true, false, false, false);
    let b = mask(false, false, true, false);
    assert_eq!(a.union(&b), mask(true, false, true, false));
}
