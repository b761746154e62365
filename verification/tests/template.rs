use cfg_matrix::flags::FlagSpec;
use cfg_matrix::template::{granted_capabilities, Template};

fn strings(items: &[&str]) -> Vec<String> {
    items.iter().map(|s| s.to_string()).collect()
}

fn four_flags() -> Vec<FlagSpec> {
    vec![
        FlagSpec::new("A", "a"),
        FlagSpec::new("B", "b"),
        FlagSpec::new("C", "c"),
        FlagSpec::new("D", "d"),
    ]
}

#[test]
fn mask_five_grants_the_first_and_the_third() {
    assert_eq!(granted_capabilities(0b0101, &four_flags()), strings(&["A", "C"]));
}

#[test]
fn mask_zero_grants_nothing() {
    assert!(granted_capabilities(0, &four_flags()).is_empty());
}

#[test]
fn full_mask_grants_everything_in_flag_order() {
    assert_eq!(granted_capabilities(15, &four_flags()), strings(&["A", "B", "C", "D"]));
}

#[test]
fn a_capability_named_twice_is_granted_twice() {
    let flags = vec![FlagSpec::new("A", "a"), FlagSpec::new("A", "b")];
    assert_eq!(granted_capabilities(3, &flags), strings(&["A", "A"]));
}

#[test]
fn template_keeps_its_parts() {
    let template = Template::new("pub trait Shape", strings(&["Sized"]), "{ fn area(&self) -> u32; }");
    assert_eq!(template.identity, "pub trait Shape");
    assert_eq!(template.extensions, strings(&["Sized"]));
    assert_eq!(template.body, "{ fn area(&self) -> u32; }");
}

#[test]
fn extend_appends_and_keeps_the_order() {
    let mut template = Template::new("trait T", strings(&["X", "Y"]), "{}");
    template.extend(strings(&["Z", "X"]));
    assert_eq!(template.extensions, strings(&["X", "Y", "Z", "X"]));
    assert_eq!(template.identity, "trait T");
    assert_eq!(template.body, "{}");
}

#[test]
fn extend_by_nothing_changes_nothing() {
    let before = Template::new("trait T", strings(&["X"]), "{}");
    let mut after = before.duplicate();
    after.extend(Vec::new());
    assert_eq!(after, before);
}

#[test]
fn a_copy_is_equal_and_independent() {
    let base = Template::new("trait T", strings(&["X"]), "{}");
    let mut copy = base.duplicate();
    assert_eq!(copy, base);
    copy.extend(strings(&["Y"]));
    assert_eq!(base.extensions, strings(&["X"]));
    assert_eq!(copy.extensions, strings(&["X", "Y"]));
}

#[test]
fn text_without_bounds_has_no_colon() {
    let template = Template::new("trait T", Vec::new(), "{}");
    assert_eq!(template.render(), "trait T {}");
}

#[test]
fn text_joins_the_bounds_with_plus() {
    let template = Template::new("pub trait T<U>", strings(&["A", "B<U>", "'static"]), "where U: Copy {}");
    assert_eq!(template.render(), "pub trait T<U>: A + B<U> + 'static where U: Copy {}");
}
