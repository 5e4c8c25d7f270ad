use ignition_sys::resolve::{
    directive, export_environment, import_environment, inbound_name,
};
use ignition_sys::{AssetEnvironment, Binding, IgnitionError, ResolvedEnvironment, Schema, VarFault};

fn s(x: &str) -> String {
    x.to_string()
}

fn asset(contents: &[&str], environment: &[(&str, &str)]) -> AssetEnvironment {
    AssetEnvironment {
        contents: contents.iter().map(|c| s(c)).collect(),
        environment: environment.iter().map(|(k, v)| (s(k), s(v))).collect(),
    }
}

fn schema(assets: Vec<(&str, AssetEnvironment)>) -> Schema {
    Schema { assets: assets.into_iter().map(|(k, a)| (s(k), a)).collect() }
}

fn binding(content: &str, variable: &str) -> Binding {
    Binding { content: s(content), variable: s(variable) }
}

fn pairs(env: &ResolvedEnvironment) -> Vec<(String, String)> {
    env.entries.clone()
}

fn owned(v: &[(&str, &str)]) -> Vec<(String, String)> {
    v.iter().map(|(a, b)| (s(a), s(b))).collect()
}

fn opencv_schema() -> Schema {
    schema(vec![(
        "opencv",
        asset(&["lib/libopencv.so"], &[("lib/libopencv.so", "OPENCV_LIB")]),
    )])
}

#[test]
fn opencv_export_end_to_end() {
    let sc = opencv_schema();
    let a = sc.lookup_asset("opencv").unwrap();
    let out = a.export("/tmp/a", &vec![true]);
    assert!(out.error.is_none());
    assert_eq!(pairs(&out.environment), owned(&[("OPENCV_LIB", "/tmp/a/lib/libopencv.so")]));
    assert_eq!(out.directives, vec![s("cargo::metadata=OPENCV_LIB=/tmp/a/lib/libopencv.so")]);
    assert!(out.skipped.is_empty());
}

#[test]
fn export_all_present_gives_one_entry_per_content() {
    let a = asset(&["a.so", "inc/b.h"], &[("a.so", "A_LIB"), ("inc/b.h", "B_INC")]);
    let plan = a.plan();
    assert!(plan.unmapped.is_none());
    let b = plan.bindings;
    let out = export_environment("/base", &b, &vec![true, true]);
    assert_eq!(out.environment.len(), 2);
    assert_eq!(out.environment.get(&s("A_LIB")), Some(&s("/base/a.so")));
    assert_eq!(out.environment.get(&s("B_INC")), Some(&s("/base/inc/b.h")));
    assert_eq!(out.directives.len(), 2);
}

#[test]
fn export_skips_missing_contents() {
    let a = asset(
        &["a.so", "b.so", "c.so"],
        &[("a.so", "A"), ("b.so", "B"), ("c.so", "C")],
    );
    let plan = a.plan();
    assert!(plan.unmapped.is_none());
    let b = plan.bindings;
    let out = export_environment("/d", &b, &vec![true, false, true]);
    assert_eq!(pairs(&out.environment), owned(&[("A", "/d/a.so"), ("C", "/d/c.so")]));
    assert_eq!(out.environment.get(&s("B")), None);
    assert_eq!(out.skipped, vec![s("b.so")]);
    assert_eq!(
        out.directives,
        vec![s("cargo::metadata=A=/d/a.so"), s("cargo::metadata=C=/d/c.so")]
    );
}

#[test]
fn export_nothing_present_is_no_error() {
    let b = vec![binding("x", "X")];
    let out = export_environment("/d", &b, &vec![false]);
    assert_eq!(out.environment.len(), 0);
    assert!(out.directives.is_empty());
    assert_eq!(out.skipped, vec![s("x")]);
}

#[test]
fn unknown_asset_is_a_bad_key() {
    let sc = opencv_schema();
    let r = sc.lookup_asset("onnx");
    assert!(matches!(r, Err(IgnitionError::BadHashMapKeyError(k)) if k == "onnx"));
    let sc = opencv_schema();
    let r = sc.lookup_asset("");
    assert!(matches!(r, Err(IgnitionError::BadHashMapKeyError(k)) if k.is_empty()));
}

#[test]
fn unmapped_content_is_a_bad_key() {
    let sc = schema(vec![(
        "x",
        asset(&["a", "b", "c"], &[("a", "A"), ("c", "C")]),
    )]);
    let a = sc.lookup_asset("x").unwrap();
    let plan = a.plan();
    assert_eq!(plan.bindings.len(), 1);
    assert_eq!(plan.unmapped, Some(IgnitionError::BadHashMapKeyError(s("b"))));
    let out = a.export("/d", &vec![true]);
    assert_eq!(out.error, Some(IgnitionError::BadHashMapKeyError(s("b"))));
    assert_eq!(out.directives, vec![s("cargo::metadata=A=/d/a")]);
    let out = a.import(&vec![Ok(s("1"))]);
    assert_eq!(out.error, Some(IgnitionError::BadHashMapKeyError(s("b"))));
    assert_eq!(pairs(&out.applied), owned(&[("A", "1")]));
}

#[test]
fn later_entries_override_earlier_ones() {
    let sc = schema(vec![
        ("x", asset(&["a"], &[("a", "OLD"), ("a", "NEW")])),
        ("y", asset(&[], &[])),
    ]);
    let b = sc.lookup_asset("x").unwrap().plan().bindings;
    assert_eq!(b.len(), 1);
    assert_eq!(b[0].variable, "NEW");
    let sc = schema(vec![("x", asset(&[], &[])), ("x", asset(&["a"], &[("a", "A")]))]);
    assert_eq!(sc.lookup_asset("x").unwrap().contents.len(), 1);
}

#[test]
fn empty_contents_resolve_to_nothing() {
    let a = asset(&[], &[("unused", "U")]);
    let plan = a.plan();
    assert!(plan.unmapped.is_none());
    let b = plan.bindings;
    assert!(b.is_empty());
    let out = import_environment(&b, &vec![]);
    assert!(out.error.is_none());
    assert_eq!(out.applied.len(), 0);
}

#[test]
fn lookup_variable_reports_the_content() {
    let a = asset(&["a"], &[("a", "A")]);
    assert_eq!(a.lookup_variable(&s("a")), Ok(s("A")));
    assert_eq!(a.lookup_variable(&s("z")), Err(IgnitionError::BadHashMapKeyError(s("z"))));
}

#[test]
fn import_sets_variable_from_inbound_value() {
    let b = vec![binding("c", "FOO")];
    assert_eq!(inbound_name("FOO"), "DEP_IGNITION_SYS_FOO");
    let out = import_environment(&b, &vec![Ok(s("/x/y"))]);
    assert!(out.error.is_none());
    assert_eq!(pairs(&out.applied), owned(&[("FOO", "/x/y")]));
    assert_eq!(out.applied.get(&s("FOO")), Some(&s("/x/y")));
}

#[test]
fn import_absent_value_fails_after_earlier_ones() {
    let b = vec![binding("a", "A"), binding("b", "B"), binding("c", "C")];
    let values = vec![Ok(s("1")), Err(VarFault::NotPresent), Ok(s("3"))];
    let out = import_environment(&b, &values);
    assert_eq!(
        out.error,
        Some(IgnitionError::EnvironmentVariableError(VarFault::NotPresent))
    );
    assert_eq!(pairs(&out.applied), owned(&[("A", "1")]));
    let out = import_environment(&b, &vec![Err(VarFault::NotUnicode)]);
    assert_eq!(
        out.error,
        Some(IgnitionError::EnvironmentVariableError(VarFault::NotUnicode))
    );
    assert_eq!(out.applied.len(), 0);
}

#[test]
fn export_order_does_not_change_the_map() {
    let b1 = vec![binding("a", "A"), binding("b", "B"), binding("c", "C")];
    let b2 = vec![binding("c", "C"), binding("a", "A"), binding("b", "B")];
    let o1 = export_environment("/r", &b1, &vec![true, false, true]);
    let o2 = export_environment("/r", &b2, &vec![true, true, false]);
    for v in ["A", "B", "C"] {
        assert_eq!(o1.environment.get(&s(v)), o2.environment.get(&s(v)));
    }
    assert_eq!(o1.environment.len(), o2.environment.len());
}

#[test]
fn import_order_decides_the_first_failure() {
    let b1 = vec![binding("a", "A"), binding("b", "B")];
    let b2 = vec![binding("b", "B"), binding("a", "A")];
    let out1 = import_environment(&b1, &vec![Err(VarFault::NotPresent)]);
    let out2 = import_environment(&b2, &vec![Ok(s("2")), Err(VarFault::NotUnicode)]);
    assert_eq!(out1.applied.len(), 0);
    assert_eq!(
        out1.error,
        Some(IgnitionError::EnvironmentVariableError(VarFault::NotPresent))
    );
    assert_eq!(pairs(&out2.applied), owned(&[("B", "2")]));
    assert_eq!(
        out2.error,
        Some(IgnitionError::EnvironmentVariableError(VarFault::NotUnicode))
    );
}

#[test]
fn import_stops_when_reading_stopped() {
    let b = vec![binding("a", "A"), binding("b", "B")];
    let out = import_environment(&b, &vec![Ok(s("1"))]);
    assert!(out.error.is_none());
    assert_eq!(pairs(&out.applied), owned(&[("A", "1")]));
}

#[test]
fn directive_has_the_fixed_shape() {
    assert_eq!(directive("V", "/p/q"), "cargo::metadata=V=/p/q");
}

#[test]
fn resolved_environment_keeps_the_last_assignment() {
    let mut env = ResolvedEnvironment::new();
    env.insert(s("K"), s("1"));
    env.insert(s("K"), s("2"));
    assert_eq!(env.get(&s("K")), Some(&s("2")));
    assert_eq!(env.get(&s("L")), None);
    assert_eq!(env.len(), 2);
}

#[test]
fn export_joins_paths_under_the_base() {
    let b = vec![binding("lib/x.so", "X"), binding("y", "Y")];
    let out = export_environment("/opt/d", &b, &vec![true, true]);
    assert_eq!(pairs(&out.environment), owned(&[("X", "/opt/d/lib/x.so"), ("Y", "/opt/d/y")]));
    assert_ne!(out.environment.entries[1].1, b[1].content);
}

#[test]
fn import_fails_fast_before_a_later_unmapped_content() {
    let a = asset(&["a", "b", "c"], &[("a", "A"), ("b", "B")]);
    let out = a.import(&vec![Ok(s("1")), Err(VarFault::NotPresent)]);
    assert_eq!(
        out.error,
        Some(IgnitionError::EnvironmentVariableError(VarFault::NotPresent))
    );
    assert_eq!(pairs(&out.applied), owned(&[("A", "1")]));
}

#[test]
fn import_over_a_fully_mapped_asset() {
    let a = asset(&["c"], &[("c", "FOO")]);
    let out = a.import(&vec![Ok(s("/x/y"))]);
    assert!(out.error.is_none());
    assert_eq!(pairs(&out.applied), owned(&[("FOO", "/x/y")]));
}

#[test]
fn unmapped_first_content_stops_before_anything() {
    let a = asset(&["z", "a"], &[("a", "A")]);
    let out = a.import(&vec![]);
    assert_eq!(out.error, Some(IgnitionError::BadHashMapKeyError(s("z"))));
    assert_eq!(out.applied.len(), 0);
    let out = a.export("/d", &vec![]);
    assert_eq!(out.error, Some(IgnitionError::BadHashMapKeyError(s("z"))));
    assert!(out.directives.is_empty());
}

#[test]
fn repeated_content_identifiers_export_one_entry() {
    let a = asset(&["a", "a"], &[("a", "A")]);
    let out = a.export("/d", &vec![true, true]);
    assert_eq!(out.environment.get(&s("A")), Some(&s("/d/a")));
    assert_eq!(out.directives.len(), 2);
}
