use update_engine::metadata::{Add, Common, Operation, OperationKind, Package, PackageMetadata, Rm};
use update_engine::names::{is_zero, val, CleanName, CleanPath, Sha1Hash};

fn name(s: &str) -> CleanName {
    CleanName::new(s.to_string()).unwrap()
}

fn path(s: &str) -> CleanPath {
    CleanPath::new(s.to_string()).unwrap()
}

fn zero_hash() -> Sha1Hash {
    Sha1Hash::new([0u8; 20])
}

#[test]
fn clean_name_accepts_name_characters() {
    let n = CleanName::new("v1.0_beta-2".to_string()).unwrap();
    assert_eq!(n.as_str(), "v1.0_beta-2");
}

#[test]
fn clean_name_rejects_other_characters() {
    assert_eq!(CleanName::new("a/b".to_string()).unwrap_err(), "a/b");
    assert_eq!(CleanName::new("".to_string()).unwrap_err(), "");
    assert!(CleanName::new("é".to_string()).is_err());
}

#[test]
fn clean_path_normalizes_backslashes() {
    let p = CleanPath::new("a\\b\\c.txt".to_string()).unwrap();
    assert_eq!(p.as_str(), "a/b/c.txt");
}

#[test]
fn clean_path_rejects_dot_components() {
    assert_eq!(CleanPath::new("a/../b".to_string()).unwrap_err(), "a/../b");
    assert_eq!(CleanPath::new("./a".to_string()).unwrap_err(), "./a");
    assert_eq!(CleanPath::new("a\\..".to_string()).unwrap_err(), "a/..");
    assert!(CleanPath::new("".to_string()).is_err());
    assert!(CleanPath::new("a/.hidden/..b".to_string()).is_ok());
}

#[test]
fn hex_digits() {
    assert_eq!(val(b'7'), Ok(7));
    assert_eq!(val(b'a'), Ok(10));
    assert_eq!(val(b'F'), Ok(15));
    assert!(val(b'g').is_err());
    assert!(is_zero(&0));
    assert!(!is_zero(&3));
}

#[test]
fn sha1_hex_round_trip() {
    let h = Sha1Hash::from_hex("da39a3ee5e6b4b0d3255bfef95601890afd80709").unwrap();
    assert_eq!(h.bytes()[0], 0xda);
    assert_eq!(h.bytes()[19], 0x09);
    assert_eq!(Sha1Hash::from_hex("da39").unwrap_err(), "invalid string length");
    assert_eq!(
        Sha1Hash::from_hex("zz39a3ee5e6b4b0d3255bfef95601890afd80709").unwrap_err(),
        "invalid hex char"
    );
}

#[test]
fn sha1_of_empty_input_is_well_known() {
    let expected = Sha1Hash::from_hex("da39a3ee5e6b4b0d3255bfef95601890afd80709").unwrap();
    assert!(Sha1Hash::digest(&[]).equals(&expected));
    let abc = Sha1Hash::from_hex("a9993e364706816aba3e25717850c26c9cd0d89d").unwrap();
    assert!(Sha1Hash::digest(b"abc").equals(&abc));
}

#[test]
fn package_names() {
    let patch = Package { from: Some(name("1")), to: name("2"), size: 10 };
    assert_eq!(patch.package_data_name().as_str(), "patch1_2");
    assert_eq!(patch.package_metadata_name().as_str(), "patch1_2.metadata");
    let complete = Package { from: None, to: name("2"), size: 10 };
    assert_eq!(complete.package_data_name().as_str(), "complete_2");
    assert_eq!(complete.package_metadata_name().as_str(), "complete_2.metadata");
    assert!(complete.is_standalone());
}

#[test]
fn add_becomes_check_of_its_final_content() {
    let final_sha1 = Sha1Hash::from_hex("a9993e364706816aba3e25717850c26c9cd0d89d").unwrap();
    let op = Operation::Add(Add {
        common: Common { path: path("a"), slice: None, exe: true, slice_handler: None },
        data_offset: 4,
        data_size: 7,
        data_sha1: zero_hash(),
        data_compression: name("raw"),
        final_offset: 0,
        final_size: 10,
        final_sha1: final_sha1.clone(),
    });
    assert_eq!(op.kind(), OperationKind::Add);
    let r = op.range().unwrap();
    assert_eq!((r.start, r.end), (4, 11));
    match op.as_check_operation().unwrap() {
        Operation::Check(c) => {
            assert_eq!(c.local_size, 10);
            assert!(c.local_sha1.equals(&final_sha1));
            assert!(c.common.exe);
            assert_eq!(c.common.path.as_str(), "a");
        }
        _ => panic!("expected a check"),
    }
    let rm = Operation::RmDir { path: path("b") };
    assert!(rm.as_check_operation().is_none());
    assert!(rm.range().is_none());
}

#[test]
fn patch_package_checks_skip_removals() {
    use_checks();
}

fn use_checks() {
    let add = |p: &str, size: u64| {
        Operation::Add(Add {
            common: Common { path: path(p), slice: None, exe: false, slice_handler: None },
            data_offset: 0,
            data_size: size,
            data_sha1: zero_hash(),
            data_compression: name("raw"),
            final_offset: 0,
            final_size: size,
            final_sha1: zero_hash(),
        })
    };
    let ops = vec![
        add("a", 12),
        Operation::Rm(Rm { path: path("b/c"), slice: None }),
        Operation::RmDir { path: path("b") },
        add("e", 5),
    ];
    let metadata = PackageMetadata::V1 {
        package: Package { from: Some(name("v1")), to: name("v2"), size: 17 },
        operations: ops,
    };
    let checks = metadata.check_operations();
    assert_eq!(checks.len(), 2);
    assert_eq!(checks[0].path().as_str(), "a");
    assert_eq!(checks[0].check_size(), 12);
    assert_eq!(checks[1].path().as_str(), "e");
    assert_eq!(checks[1].kind(), OperationKind::Check);
}

#[test]
fn clean_path_rejects_absolute_paths() {
    assert_eq!(CleanPath::new("/etc/x".to_string()).unwrap_err(), "/etc/x");
    assert_eq!(CleanPath::new("\\etc\\x".to_string()).unwrap_err(), "/etc/x");
    assert!(CleanPath::new("etc/x".to_string()).is_ok());
}

#[test]
fn sha1_hex_encoding_round_trips() {
    let h = Sha1Hash::digest(b"abc");
    let hex = h.to_hex();
    assert_eq!(hex, "a9993e364706816aba3e25717850c26c9cd0d89d");
    assert!(Sha1Hash::from_hex(&hex).unwrap().equals(&h));
    assert_eq!(Sha1Hash::new([0xAB; 20]).to_hex(), "ab".repeat(20));
}
