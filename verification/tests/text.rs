use egglog_duckdb::rejection::{reject, reject_because, reject_with, Scope};
use egglog_duckdb::text::{
    append_number, copy_strings, decimal_string, join_strings, safe_scratch_name, same_text,
};

#[test]
fn numerals_have_no_leading_zero() {
    assert_eq!(decimal_string(0), "0");
    assert_eq!(decimal_string(9), "9");
    assert_eq!(decimal_string(10), "10");
    assert_eq!(decimal_string(1050), "1050");
    assert_eq!(decimal_string(u64::MAX), u64::MAX.to_string());
    let mut text = "c".to_string();
    append_number(&mut text, 27);
    assert_eq!(text, "c27");
}

#[test]
fn separators_stand_only_between_neighbours() {
    let parts = |texts: &[&str]| texts.iter().map(|text| text.to_string()).collect::<Vec<_>>();
    assert_eq!(join_strings(&parts(&[]), ", "), "");
    assert_eq!(join_strings(&parts(&["a"]), ", "), "a");
    assert_eq!(join_strings(&parts(&["a", "b", "c"]), " AND "), "a AND b AND c");
    assert_eq!(copy_strings(&parts(&["a", ""])), parts(&["a", ""]));
}

#[test]
fn scratch_names_hold_no_sql() {
    assert!(safe_scratch_name("stage_1"));
    assert!(safe_scratch_name("Egglog_Path_09"));
    assert!(!safe_scratch_name("stage 1"));
    assert!(!safe_scratch_name("stage;"));
    assert!(!safe_scratch_name("\"stage\""));
    assert!(!safe_scratch_name("st\u{e4}ge"));
}

#[test]
fn texts_are_compared_character_by_character() {
    assert!(same_text("", ""));
    assert!(same_text("view", "view"));
    assert!(!same_text("view", "view "));
    assert!(!same_text("view", "View"));
}

#[test]
fn every_scope_opens_its_diagnostic() {
    for (scope, opening) in [
        (Scope::FourAction, "DuckDB four-action rule `r` "),
        (Scope::Path, "DuckDB path rule `r` "),
        (Scope::StandardRebuild, "DuckDB standard rebuild rule `r` "),
        (Scope::EqKeyRebuild, "DuckDB eq-key rebuild rule `r` "),
        (Scope::EclassRebuild, "DuckDB eclass-output rebuild rule `r` "),
        (Scope::Marker, "DuckDB marker rekey rule `r` "),
        (Scope::Scalar, "DuckDB scalar rule `r` "),
        (Scope::Bare, ""),
    ] {
        let rejection = reject(scope, "is refused");
        assert_eq!(rejection.message("r"), format!("{opening}is refused"));
        assert_eq!(rejection.report("r"), format!("{opening}is refused"));
    }
}

#[test]
fn a_cause_is_only_in_the_report() {
    let cause = reject_with(Scope::Bare, "the cause".to_string());
    let wrapped = reject_because(Scope::Scalar, "failed".to_string(), cause);
    assert_eq!(wrapped.message("r"), "DuckDB scalar rule `r` failed");
    assert_eq!(wrapped.report("r"), "DuckDB scalar rule `r` failed: the cause");
}
