use update_engine::names::{CleanName, CleanPath};
use update_engine::state::{insert_failure, sorted_failures, Failure, State, StateUpdating, UpdatePosition};
use update_engine::workspace::{
    committed_state, initial_failures, operations_from, package_operations, start_repair, UpdateFilter,
};
use update_engine::metadata::{Check, Common, Operation};
use update_engine::names::Sha1Hash;

fn p(s: &str) -> CleanPath {
    CleanPath::new(s.to_string()).unwrap()
}

fn keys(v: &[Failure]) -> Vec<(String, Option<String>)> {
    v.iter()
        .map(|f| (f.path().as_str().to_string(), f.slice().map(|s| s.as_str().to_string())))
        .collect()
}

#[test]
fn failures_are_sorted_without_duplicates() {
    let v = vec![
        Failure::Path { path: p("b") },
        Failure::Slice { path: p("a"), slice: p("2") },
        Failure::Path { path: p("a") },
        Failure::Path { path: p("b") },
        Failure::Slice { path: p("a"), slice: p("1") },
    ];
    let s = sorted_failures(&v);
    assert_eq!(
        keys(&s),
        vec![
            ("a".to_string(), None),
            ("a".to_string(), Some("1".to_string())),
            ("a".to_string(), Some("2".to_string())),
            ("b".to_string(), None),
        ]
    );
    let mut s = s;
    insert_failure(&mut s, Failure::Path { path: p("ab") });
    assert_eq!(s[3].path().as_str(), "ab");
    assert_eq!(s.len(), 5);
}

#[test]
fn positions_are_ordered_lexicographically() {
    let a = UpdatePosition { operation_idx: 1, byte_idx: 900 };
    let b = UpdatePosition { operation_idx: 2, byte_idx: 0 };
    assert!(a.le(&b));
    assert!(!b.le(&a));
    assert!(a.le(&a));
}

#[test]
fn update_with_merges_failures() {
    let mut a = StateUpdating::new(None, CleanName::new("v1".to_string()).unwrap(), vec![Failure::Path { path: p("x") }]);
    let mut b = StateUpdating::new(Some(CleanName::new("v1".to_string()).unwrap()), CleanName::new("v2".to_string()).unwrap(), vec![Failure::Path { path: p("y") }]);
    b.previous_failures = vec![Failure::Path { path: p("x") }];
    b.available = UpdatePosition { operation_idx: 3, byte_idx: 1 };
    a.update_with(b);
    assert_eq!(a.to.as_str(), "v2");
    assert_eq!(a.available.operation_idx, 3);
    assert_eq!(keys(&a.failures), vec![("x".to_string(), None), ("y".to_string(), None)]);
    a.clear_progress();
    assert_eq!(a.available, UpdatePosition::new());
}

#[test]
fn stable_commit_only_without_failures() {
    let st = StateUpdating::new(None, CleanName::new("v2".to_string()).unwrap(), Vec::new());
    assert!(matches!(committed_state(&st, 1, 1), Some(State::Stable { .. })));
    assert!(matches!(committed_state(&st, 0, 1), Some(State::Updating(_))));
    let failed = StateUpdating::new(None, CleanName::new("v2".to_string()).unwrap(), vec![Failure::Path { path: p("a") }]);
    assert!(matches!(committed_state(&failed, 1, 1), Some(State::Updating(_))));
    let mut check = StateUpdating::new(None, CleanName::new("v2".to_string()).unwrap(), Vec::new());
    check.check_only = true;
    assert!(committed_state(&check, 1, 1).is_none());
}

#[test]
fn corrupted_state_seeds_repair_filter() {
    let state = State::Corrupted {
        version: CleanName::new("v2".to_string()).unwrap(),
        failures: vec![Failure::Path { path: p("a") }],
    };
    let failures = initial_failures(&state);
    assert_eq!(keys(&failures), vec![("a".to_string(), None)]);
    let mut st = StateUpdating::new(None, CleanName::new("v2".to_string()).unwrap(), failures);
    let filter = start_repair(&mut st).unwrap();
    assert!(st.failures.is_empty());
    assert_eq!(st.previous_failures.len(), 1);
    let check = |path: &str| Operation::Check(Check {
        common: Common { path: p(path), slice: None, exe: false, slice_handler: None },
        local_offset: 0,
        local_size: 3,
        local_sha1: Sha1Hash::new([0u8; 20]),
    });
    assert!(filter.filter(&check("a")));
    assert!(!filter.filter(&check("b")));
    assert!(filter.filter_map(&check("a")).is_some());
    assert!(filter.filter_map(&check("b")).is_none());
    assert!(UpdateFilter::allows_all().filter(&check("b")));
}

#[test]
fn nothing_to_repair_without_failures() {
    let mut st = StateUpdating::new(None, CleanName::new("v2".to_string()).unwrap(), Vec::new());
    assert!(start_repair(&mut st).is_none());
}

#[test]
fn pass_operations_follow_filter_and_check() {
    let chk = |path: &str| Operation::Check(Check {
        common: Common { path: p(path), slice: None, exe: false, slice_handler: None },
        local_offset: 0,
        local_size: 3,
        local_sha1: Sha1Hash::new([0u8; 20]),
    });
    let ops = vec![chk("a"), Operation::RmDir { path: p("d") }, chk("b")];
    let only_a = UpdateFilter::new(&[Failure::Path { path: p("a") }]);
    let r = package_operations(&ops, &only_a, false, false);
    assert_eq!(r.iter().map(|x| x.0).collect::<Vec<_>>(), vec![0]);
    let r = package_operations(&ops, &only_a, false, true);
    assert_eq!(r.iter().map(|x| x.0).collect::<Vec<_>>(), vec![0, 2]);
    let r = package_operations(&ops, &UpdateFilter::allows_all(), true, true);
    assert_eq!(r.iter().map(|x| x.0).collect::<Vec<_>>(), vec![0, 2]);
    let all = package_operations(&ops, &UpdateFilter::allows_all(), false, false);
    assert_eq!(all.len(), 3);
    let rest = operations_from(&all, 1);
    assert_eq!(rest.iter().map(|x| x.0).collect::<Vec<_>>(), vec![1, 2]);
}
