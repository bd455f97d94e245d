use tembo::stacks::{define_stack, define_stacks};
use tembo::CliError;

#[test]
fn catalog_holds_the_standard_stack() {
    let stacks = define_stacks();
    assert_eq!(stacks.stacks.len(), 1);
    let s = &stacks.stacks[0];
    assert_eq!(s.name, "standard");
    assert_eq!(s.version, "14.1");
    assert_eq!(s.trunk_installs.len(), 1);
    assert_eq!(s.trunk_installs[0].name.as_deref(), Some("pgmq"));
    assert_eq!(s.trunk_installs[0].version.as_deref(), Some("1.0"));
    assert_eq!(s.extensions.len(), 1);
    assert_eq!(s.extensions[0].name.as_deref(), Some("pg_partman"));
    assert_eq!(s.extensions[0].locations.len(), 1);
    assert_eq!(s.extensions[0].locations[0].database, "public");
}

#[test]
fn define_stack_resolves_exact_name() {
    let s = define_stack("standard").unwrap();
    assert_eq!(s.name, "standard");
}

#[test]
fn define_stack_matches_case_insensitively() {
    let s = define_stack("STANDARD").unwrap();
    assert_eq!(s.name, "standard");
    let s2 = define_stack("Standard").unwrap();
    assert_eq!(s2.name, "standard");
}

#[test]
fn define_stack_rejects_unknown_name() {
    let r = define_stack("foo");
    assert_eq!(r.unwrap_err(), CliError::InvalidStackType);
    let r2 = define_stack("");
    assert!(r2.is_err());
}
