use patchwork::runtime::{plan_update, PlanEntry, PlanEntryStatus, PlanUpdate, Runtime};

#[test]
fn test_define_and_get_var() {
    let mut rt: Runtime<f64> = Runtime::default();
    rt.define_var("x", 42.0).unwrap();
    assert_eq!(rt.get_var("x"), Some(&42.0));
}

#[test]
fn test_undefined_var() {
    let rt: Runtime<f64> = Runtime::default();
    assert_eq!(rt.get_var("x"), None);
}

#[test]
fn test_set_var() {
    let mut rt: Runtime<f64> = Runtime::default();
    rt.define_var("x", 1.0).unwrap();
    rt.set_var("x", 2.0).unwrap();
    assert_eq!(rt.get_var("x"), Some(&2.0));
}

#[test]
fn test_set_undefined_var_fails() {
    let mut rt: Runtime<f64> = Runtime::default();
    let result = rt.set_var("x", 1.0);
    assert!(result.is_err());
}

#[test]
fn test_scope_shadowing() {
    let mut rt: Runtime<f64> = Runtime::default();
    rt.define_var("x", 1.0).unwrap();

    rt.push_scope();
    rt.define_var("x", 2.0).unwrap();
    assert_eq!(rt.get_var("x"), Some(&2.0));

    rt.pop_scope();
    assert_eq!(rt.get_var("x"), Some(&1.0));
}

#[test]
fn test_inner_scope_sees_outer() {
    let mut rt: Runtime<f64> = Runtime::default();
    rt.define_var("x", 1.0).unwrap();

    rt.push_scope();
    assert_eq!(rt.get_var("x"), Some(&1.0));
}

#[test]
fn runtime_define_twice_in_one_scope_fails() {
    let mut rt: Runtime<i64> = Runtime::new(String::from("/tmp"));
    rt.define_var("x", 1).unwrap();
    let err = rt.define_var("x", 2).unwrap_err();
    assert_eq!(err, "Variable 'x' already defined in this scope");
    assert_eq!(rt.get_var("x"), Some(&1));
}

#[test]
fn runtime_set_undefined_message() {
    let mut rt: Runtime<i64> = Runtime::new(String::from("/tmp"));
    assert_eq!(rt.set_var("y", 3).unwrap_err(), "Variable 'y' not defined");
}

#[test]
fn runtime_set_updates_innermost_definition() {
    let mut rt: Runtime<i64> = Runtime::new(String::from("/tmp"));
    rt.define_var("x", 1).unwrap();
    rt.push_scope();
    rt.define_var("x", 2).unwrap();
    rt.set_var("x", 3).unwrap();
    assert_eq!(rt.get_var("x"), Some(&3));
    rt.pop_scope();
    assert_eq!(rt.get_var("x"), Some(&1));
}

#[test]
fn runtime_set_reaches_outer_scope() {
    let mut rt: Runtime<i64> = Runtime::new(String::from("/tmp"));
    rt.define_var("x", 1).unwrap();
    rt.push_scope();
    rt.set_var("x", 5).unwrap();
    rt.pop_scope();
    assert_eq!(rt.get_var("x"), Some(&5));
}

#[test]
fn runtime_outermost_scope_is_never_popped() {
    let mut rt: Runtime<i64> = Runtime::new(String::from("/tmp"));
    rt.define_var("x", 1).unwrap();
    rt.pop_scope();
    rt.pop_scope();
    assert_eq!(rt.get_var("x"), Some(&1));
}

#[test]
fn runtime_working_dir() {
    let mut rt: Runtime<i64> = Runtime::new(String::from("/work"));
    assert_eq!(rt.working_dir(), "/work");
    rt.set_working_dir(String::from("/other"));
    assert_eq!(rt.working_dir(), "/other");
    let d: Runtime<i64> = Runtime::default();
    assert_eq!(d.working_dir(), ".");
}

#[test]
fn plan_update_holds_entries() {
    let update = PlanUpdate {
        entries: vec![
            PlanEntry { content: String::from("a"), status: PlanEntryStatus::Completed },
            PlanEntry { content: String::from("b"), status: PlanEntryStatus::InProgress },
        ],
    };
    assert_eq!(update.entries.len(), 2);
    assert_eq!(update.entries[1].status, PlanEntryStatus::InProgress);
}

#[test]
fn plan_update_marks_progress() {
    let items = vec![String::from("a"), String::from("b"), String::from("c")];
    let start = plan_update(&items, 0, false);
    assert!(start.entries.iter().all(|e| e.status == PlanEntryStatus::Pending));
    let mid = plan_update(&items, 1, true);
    assert_eq!(mid.entries[0].status, PlanEntryStatus::Completed);
    assert_eq!(mid.entries[1].status, PlanEntryStatus::InProgress);
    assert_eq!(mid.entries[2].status, PlanEntryStatus::Pending);
    assert_eq!(mid.entries[2].content, "c");
    let end = plan_update(&items, 3, false);
    assert!(end.entries.iter().all(|e| e.status == PlanEntryStatus::Completed));
}
