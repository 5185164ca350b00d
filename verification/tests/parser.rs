use factorio_crater::dependency::{Dep, DepPrefix};

fn check(raw: &str, prefix: DepPrefix, name: &str, version: &str) {
    let d = Dep::parse(raw);
    assert_eq!(d.original, raw);
    assert_eq!(d.prefix, prefix);
    assert_eq!(d.name, name);
    assert_eq!(d.version, version);
}

#[test]
fn plain_name_is_required() {
    check("boblibrary", DepPrefix::Required, "boblibrary", "");
}

#[test]
fn plain_name_with_spaces() {
    check("  space age  ", DepPrefix::Required, "space age", "");
}

#[test]
fn hidden_optional_prefix() {
    check("(?) angels-refining", DepPrefix::HiddenOptional, "angels-refining", "");
}

#[test]
fn hidden_optional_beats_optional() {
    // "(?)" must never be read as "?" followed by ")".
    let d = Dep::parse("(?)foo");
    assert_eq!(d.prefix, DepPrefix::HiddenOptional);
    assert_eq!(d.name, "foo");
}

#[test]
fn incompatible_prefix() {
    check("! conflicting-mod", DepPrefix::Incompatible, "conflicting-mod", "");
}

#[test]
fn optional_prefix() {
    check("? nicefill", DepPrefix::Optional, "nicefill", "");
}

#[test]
fn load_order_independent_prefix() {
    check("~ helper", DepPrefix::LoadOrderIndependent, "helper", "");
}

#[test]
fn required_with_lower_bound() {
    check("base >= 1.1", DepPrefix::Required, "base", ">= 1.1");
}

#[test]
fn required_with_exact_bound() {
    check("base = 2.0", DepPrefix::Required, "base", "= 2.0");
}

#[test]
fn required_with_upper_bound() {
    check("base < 2.0", DepPrefix::Required, "base", "< 2.0");
}

#[test]
fn hidden_optional_with_constraint() {
    check("(?) rso-mod >= 6.0.0", DepPrefix::HiddenOptional, "rso-mod", ">= 6.0.0");
}

#[test]
fn incompatible_with_constraint() {
    check("!old-api < 0.5", DepPrefix::Incompatible, "old-api", "< 0.5");
}

#[test]
fn optional_with_constraint() {
    check("?flib = 0.12.9", DepPrefix::Optional, "flib", "= 0.12.9");
}

#[test]
fn load_order_independent_with_constraint() {
    check("~base > 1.0", DepPrefix::LoadOrderIndependent, "base", "> 1.0");
}

#[test]
fn first_constraint_char_wins() {
    // Everything from the first of `<`, `=`, `>` onward is the constraint.
    check("a<b=c", DepPrefix::Required, "a", "<b=c");
    check("mod = 1.0 < 2.0", DepPrefix::Required, "mod", "= 1.0 < 2.0");
}

#[test]
fn original_text_round_trips_verbatim() {
    let raws = ["  (?)  foo  >=  1.0  ", "!x", "? y < 2", "~z", "plain"];
    for raw in raws {
        assert_eq!(Dep::parse(raw).original, raw);
    }
}

#[test]
fn empty_and_whitespace_only() {
    check("", DepPrefix::Required, "", "");
    check("   ", DepPrefix::Required, "", "");
}

#[test]
fn bare_prefix_gives_empty_name() {
    check("(?)", DepPrefix::HiddenOptional, "", "");
    check("!", DepPrefix::Incompatible, "", "");
}

#[test]
fn constraint_without_name() {
    check(">= 1.0", DepPrefix::Required, "", ">= 1.0");
}

#[test]
fn default_relation_is_required() {
    assert_eq!(DepPrefix::default(), DepPrefix::Required);
}

#[test]
fn relation_labels() {
    assert_eq!(DepPrefix::Incompatible.label(), "incompatible");
    assert_eq!(DepPrefix::Optional.label(), "optional");
    assert_eq!(DepPrefix::HiddenOptional.label(), "hidden-optional");
    assert_eq!(DepPrefix::LoadOrderIndependent.label(), "load-order-independent");
    assert_eq!(DepPrefix::Required.label(), "required");
}
