use factorio_crater::dependency::Dep;
use factorio_crater::engine::{classify, ClassificationResult, ClassifyError, ModRecord};

fn record(name: &str, deprecated: bool, version: &str, deps: &[&str]) -> ModRecord {
    ModRecord {
        name: name.to_string(),
        deprecated,
        platform_version: version.to_string(),
        dependencies: deps.iter().map(|raw| Dep::parse(raw)).collect(),
    }
}

fn names(v: &[&str]) -> Vec<String> {
    v.iter().map(|s| s.to_string()).collect()
}

fn run(records: Vec<ModRecord>, baseline: &[&str]) -> ClassificationResult {
    classify(&records, &names(baseline)).unwrap()
}

#[test]
fn baseline_chain_scenario() {
    // base works; X leans on base; Y is deprecated; Z leans on Y.
    let records = vec![
        record("base", false, "2.0", &[]),
        record("X", false, "2.0", &["base"]),
        record("Y", true, "2.0", &["base"]),
        record("Z", false, "2.0", &["Y"]),
    ];
    let r = run(records, &["base"]);
    assert_eq!(r.working, names(&["base", "X"]));
    assert_eq!(r.deprecated, names(&["Y"]));
    assert_eq!(r.broken.len(), 1);
    assert_eq!(r.broken[0].name, "Z");
    assert_eq!(r.broken[0].causes, names(&["Y"]));
    assert!(r.typo.is_empty());
    assert!(r.pending.is_empty());
}

#[test]
fn missing_dependency_is_typo() {
    let records = vec![record("Q", false, "1.1", &["NoSuchMod"])];
    let r = run(records, &[]);
    assert!(r.working.is_empty());
    assert!(r.deprecated.is_empty());
    assert!(r.broken.is_empty());
    assert_eq!(r.typo.len(), 1);
    assert_eq!(r.typo[0].name, "Q");
    assert_eq!(r.typo[0].offending, "NoSuchMod");
    assert!(r.pending.is_empty());
}

#[test]
fn typo_regardless_of_other_dependencies() {
    // M requires a deprecated mod, a working mod, and a missing one: the
    // unresolvable reference decides, and the first one is reported.
    let records = vec![
        record("dead", true, "1.1", &[]),
        record("M", false, "1.1", &["base", "dead", "ghost-one", "ghost-two"]),
    ];
    let r = run(records, &["base"]);
    assert_eq!(r.typo.len(), 1);
    assert_eq!(r.typo[0].name, "M");
    assert_eq!(r.typo[0].offending, "ghost-one");
    assert!(r.broken.is_empty());
}

#[test]
fn two_mod_cycle_ends_pending() {
    let records = vec![
        record("A", false, "1.1", &["B"]),
        record("B", false, "1.1", &["A"]),
    ];
    let r = run(records, &[]);
    assert!(r.working.is_empty());
    assert!(r.deprecated.is_empty());
    assert!(r.broken.is_empty());
    assert!(r.typo.is_empty());
    assert_eq!(r.pending, names(&["A", "B"]));
}

#[test]
fn baseline_name_is_immune() {
    // Even a deprecated record with an unresolvable dependency stays
    // working when its name is in the baseline.
    let records = vec![
        record("quality", true, "2.0", &["no-such-thing"]),
        record("user-mod", false, "2.0", &["quality"]),
    ];
    let r = run(records, &["base", "quality"]);
    assert_eq!(r.working, names(&["base", "quality", "user-mod"]));
    assert!(r.deprecated.is_empty());
    assert!(r.broken.is_empty());
    assert!(r.typo.is_empty());
    assert!(r.pending.is_empty());
}

#[test]
fn chain_needs_several_passes() {
    // Listed in the order that resolves last-first, so each pass settles
    // exactly one mod; nothing already settled ever moves again.
    let records = vec![
        record("a", false, "2.0", &["b"]),
        record("b", false, "2.0", &["c"]),
        record("c", false, "2.0", &["base"]),
    ];
    let r = run(records, &["base"]);
    assert_eq!(r.working, names(&["base", "c", "b", "a"]));
    assert!(r.pending.is_empty());
}

#[test]
fn broken_cause_lists_only_required_culprits() {
    let records = vec![
        record("dead1", true, "1.1", &[]),
        record("dead2", true, "1.1", &[]),
        record("V", false, "1.1", &["dead1", "? dead2", "base", "dead2"]),
    ];
    let r = run(records, &["base"]);
    assert_eq!(r.broken.len(), 1);
    assert_eq!(r.broken[0].name, "V");
    // dead2 counts once, through its required declaration only.
    assert_eq!(r.broken[0].causes, names(&["dead1", "dead2"]));
}

#[test]
fn broken_through_broken_dependency() {
    // W leans on Z which leans on deprecated Y: Z breaks in one pass, W in
    // a later one, with Z as the direct cause.
    let records = vec![
        record("W", false, "1.1", &["Z"]),
        record("Y", true, "1.1", &[]),
        record("Z", false, "1.1", &["Y"]),
    ];
    let r = run(records, &[]);
    assert_eq!(r.broken.len(), 2);
    assert_eq!(r.broken[0].name, "Z");
    assert_eq!(r.broken[0].causes, names(&["Y"]));
    assert_eq!(r.broken[1].name, "W");
    assert_eq!(r.broken[1].causes, names(&["Z"]));
}

#[test]
fn optional_dependencies_never_gate() {
    let records = vec![
        record("solo", false, "2.0", &["? missing-thing", "! enemy", "~ also-missing"]),
    ];
    let r = run(records, &[]);
    assert_eq!(r.working, names(&["solo"]));
    assert!(r.typo.is_empty());
}

#[test]
fn malformed_descriptor_is_invalid_input() {
    // A required dependency with an empty target name aborts the call.
    let records = vec![record("bad", false, "1.1", &[">= 1.0"])];
    let r = classify(&records, &Vec::new());
    assert_eq!(r.unwrap_err(), ClassifyError::InvalidInput);
}

#[test]
fn empty_optional_name_is_not_invalid() {
    // Only the required relation with an empty name is malformed.
    let records = vec![record("odd", false, "1.1", &["? < 1.0"])];
    let r = classify(&records, &Vec::new());
    assert!(r.is_ok());
    assert_eq!(r.unwrap().working, names(&["odd"]));
}

#[test]
fn buckets_partition_the_input() {
    let records = vec![
        record("dead", true, "1.1", &[]),
        record("leaf", false, "1.1", &["dead"]),
        record("lost", false, "1.1", &["nowhere"]),
        record("ok", false, "1.1", &["base"]),
        record("loop1", false, "1.1", &["loop2"]),
        record("loop2", false, "1.1", &["loop1"]),
    ];
    let r = run(records, &["base"]);
    let mut all: Vec<String> = Vec::new();
    all.extend(r.working.iter().cloned());
    all.extend(r.deprecated.iter().cloned());
    all.extend(r.broken.iter().map(|b| b.name.clone()));
    all.extend(r.typo.iter().map(|t| t.name.clone()));
    all.extend(r.pending.iter().cloned());
    // Disjoint: no name twice across (or within) buckets.
    let mut seen = all.clone();
    seen.sort();
    seen.dedup();
    assert_eq!(seen.len(), all.len());
    // Exhaustive: exactly the record names plus the baseline.
    let mut expected = names(&["dead", "leaf", "lost", "ok", "loop1", "loop2", "base"]);
    expected.sort();
    assert_eq!(seen, expected);
}

#[test]
fn empty_catalog_keeps_baseline_working() {
    let r = run(Vec::new(), &["base", "quality"]);
    assert_eq!(r.working, names(&["base", "quality"]));
    assert!(r.deprecated.is_empty());
    assert!(r.broken.is_empty());
    assert!(r.typo.is_empty());
    assert!(r.pending.is_empty());
}
