use update_engine::metadata::Package;
use update_engine::names::{CleanName, CleanPath};
use update_engine::planner::shortest_path;
use update_engine::state::{Failure, State, StateUpdating, UpdatePosition};
use update_engine::workspace::{
    is_up_to_date, plan_update, state_after_check, update_outcome, CheckError, UpdateError,
};

fn name(s: &str) -> CleanName {
    CleanName::new(s.to_string()).unwrap()
}

fn pkg(from: Option<&str>, to: &str, size: u64) -> Package {
    Package { from: from.map(name), to: name(to), size }
}

#[test]
fn planner_chooses_complete_over_long_patch() {
    let packages = vec![pkg(Some("v1"), "v2", 100_000_000), pkg(None, "v2", 10_000_000)];
    let v1 = name("v1");
    let path = shortest_path(Some(&v1), &name("v2"), &packages).unwrap();
    assert_eq!(path, vec![1]);
}

#[test]
fn planner_prefers_cheap_patch_chain() {
    let packages = vec![
        pkg(Some("v1"), "v2", 5),
        pkg(Some("v2"), "v3", 5),
        pkg(None, "v3", 50),
        pkg(Some("v1"), "v3", 20),
    ];
    let v1 = name("v1");
    assert_eq!(shortest_path(Some(&v1), &name("v3"), &packages).unwrap(), vec![0, 1]);
    assert_eq!(shortest_path(None, &name("v3"), &packages).unwrap(), vec![2]);
}

#[test]
fn planner_finds_no_path_from_empty_workspace() {
    let packages = vec![pkg(Some("v1"), "v2", 10)];
    assert!(shortest_path(None, &name("v2"), &packages).is_none());
}

#[test]
fn planner_at_goal_plans_nothing() {
    let packages = vec![pkg(None, "v2", 10)];
    let v2 = name("v2");
    assert_eq!(shortest_path(Some(&v2), &name("v2"), &packages).unwrap(), Vec::<usize>::new());
}

#[test]
fn fresh_install_plans_complete_package() {
    let packages = vec![pkg(None, "v1", 30)];
    let (path, st) = plan_update(State::New, &packages, &name("v1"), false).unwrap().unwrap();
    assert_eq!(path, vec![0]);
    assert!(st.from.is_none());
    assert_eq!(st.to.as_str(), "v1");
    assert!(!st.check_only);
}

#[test]
fn patch_update_plans_patch() {
    let packages = vec![pkg(None, "v1", 30), pkg(Some("v1"), "v2", 17), pkg(None, "v2", 37)];
    let state = State::Stable { version: name("v1") };
    let (path, st) = plan_update(state, &packages, &name("v2"), false).unwrap().unwrap();
    assert_eq!(path, vec![1]);
    assert_eq!(st.from.unwrap().as_str(), "v1");
}

#[test]
fn no_path_from_new_workspace() {
    let packages = vec![pkg(Some("v1"), "v2", 10)];
    let r = plan_update(State::New, &packages, &name("v2"), false);
    assert_eq!(r.err(), Some(UpdateError::NoPath));
}

#[test]
fn rerunning_a_successful_update_is_a_no_op() {
    let state = State::Stable { version: name("v2") };
    assert!(is_up_to_date(&state, &name("v2"), false));
    assert!(!is_up_to_date(&state, &name("v2"), true));
    assert!(!is_up_to_date(&state, &name("v3"), false));
    let packages = vec![pkg(None, "v2", 10)];
    assert!(plan_update(state, &packages, &name("v2"), false).unwrap().is_none());
}

#[test]
fn check_at_goal_plans_check_only_pass() {
    let packages = vec![pkg(Some("v1"), "v2", 10), pkg(None, "v2", 40)];
    let state = State::Stable { version: name("v2") };
    let (path, st) = plan_update(state, &packages, &name("v2"), true).unwrap().unwrap();
    assert_eq!(path, vec![0]);
    assert!(st.check_only);
}

#[test]
fn interrupted_update_resumes_its_package() {
    let packages = vec![pkg(Some("v1"), "v2", 10), pkg(Some("v2"), "v3", 10), pkg(None, "v3", 500)];
    let mut s = StateUpdating::new(Some(name("v1")), name("v2"), Vec::new());
    s.available = UpdatePosition { operation_idx: 2, byte_idx: 30 };
    s.applied = UpdatePosition { operation_idx: 1, byte_idx: 0 };
    let (path, st) = plan_update(State::Updating(s), &packages, &name("v3"), false).unwrap().unwrap();
    assert_eq!(path, vec![0, 1]);
    assert_eq!(st.available, UpdatePosition { operation_idx: 2, byte_idx: 30 });
    assert_eq!(st.applied, UpdatePosition { operation_idx: 1, byte_idx: 0 });
}

#[test]
fn check_with_failure_corrupts_stable_workspace() {
    let failures = vec![Failure::Path { path: CleanPath::new("a".to_string()).unwrap() }];
    let state = State::Stable { version: name("v2") };
    match state_after_check(state, &failures).unwrap() {
        State::Corrupted { version, failures } => {
            assert_eq!(version.as_str(), "v2");
            assert_eq!(failures.len(), 1);
            assert_eq!(failures[0].path().as_str(), "a");
        }
        _ => panic!("expected a corrupted state"),
    }
    let clean = state_after_check(State::Stable { version: name("v2") }, &[]).unwrap();
    assert!(matches!(clean, State::Stable { .. }));
    assert_eq!(state_after_check(State::New, &[]).err(), Some(CheckError::NewWorkspace));
}

#[test]
fn repair_plans_complete_package_from_new() {
    let packages = vec![pkg(Some("v1"), "v2", 10), pkg(None, "v2", 40)];
    let (path, _) = plan_update(State::New, &packages, &name("v2"), false).unwrap().unwrap();
    assert_eq!(path, vec![1]);
}

#[test]
fn update_outcome_counts_failures() {
    assert_eq!(update_outcome(&[]), Ok(()));
    let failures = vec![
        Failure::Path { path: CleanPath::new("a".to_string()).unwrap() },
        Failure::Path { path: CleanPath::new("b".to_string()).unwrap() },
    ];
    assert_eq!(update_outcome(&failures), Err(UpdateError::Failed { files: 2 }));
}
