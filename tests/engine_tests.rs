use update_engine::apply::{handler_for, slice_action, sliced_mode, HandlerError, HandlerKind, SliceAction, SliceError, SlicedMode, bytes_to_apply, check_write, CheckApplier, Mismatch, WriteExpectation, WriteOutcome};
use update_engine::codecs::{
    decoder, encoder, patch_decoder, patch_encoder, CoderError, CoderOptions, Decoder, Encoder,
    OptionError, PatchDecoder, PatchEncoder,
};
use update_engine::download::{ranges, Carrier, Demux, MERGE_DISTANCE};
use update_engine::metadata::{Add, Check, Common, Operation, Package, Packages, Version, Versions};
use update_engine::names::{CleanName, CleanPath, Sha1Hash};
use update_engine::packager::{
    added_file, changed_file, unchanged_file, Encoded,
    assign_offsets, best_candidate, changed_file_kind, pair_listings, plan_entry, BuildError,
    Candidate, CoderLimits, DirEntry, EntryKind, Planned,
};
use update_engine::progress::{CheckProgression, CheckProgress, Histogram, Progression, UpdateProgress, UpdateStepState};
use update_engine::repository::{AutoRepository, Repository, RepositoryError};
use update_engine::state::{Failure, StateUpdating, UpdatePosition};
use update_engine::workspace::{check_failure, failure_of, UpdateFilter};
use update_engine::metadata::OperationKind;

fn name(s: &str) -> CleanName {
    CleanName::new(s.to_string()).unwrap()
}

fn path(s: &str) -> CleanPath {
    CleanPath::new(s.to_string()).unwrap()
}

fn add(p: &str, offset: u64, size: u64) -> Operation {
    Operation::Add(Add {
        common: Common { path: path(p), slice: None, exe: false, slice_handler: None },
        data_offset: offset,
        data_size: size,
        data_sha1: Sha1Hash::new([0u8; 20]),
        data_compression: name("raw"),
        final_offset: 0,
        final_size: size,
        final_sha1: Sha1Hash::new([0u8; 20]),
    })
}

fn add_slice(p: &str, slice: &str) -> Operation {
    Operation::Add(Add {
        common: Common { path: path(p), slice: Some(path(slice)), exe: false, slice_handler: Some(name("sliced")) },
        data_offset: 0,
        data_size: 4,
        data_sha1: Sha1Hash::new([0u8; 20]),
        data_compression: name("raw"),
        final_offset: 0,
        final_size: 4,
        final_sha1: Sha1Hash::new([0u8; 20]),
    })
}

fn check(p: &str, size: u64) -> Operation {
    Operation::Check(Check {
        common: Common { path: path(p), slice: None, exe: false, slice_handler: None },
        local_offset: 0,
        local_size: size,
        local_sha1: Sha1Hash::new([0u8; 20]),
    })
}

#[test]
fn coder_options_parse() {
    let o = CoderOptions::from_str("brotli:9;lgwin=22;;quality=5").unwrap();
    assert_eq!(o.name(), "brotli");
    assert_eq!(o.get(&["lgwin"]), Some("22"));
    assert_eq!(o.get(&["", "quality"]), Some("9"));
    assert_eq!(o.get(&["quality"]), Some("5"));
    assert_eq!(o.get(&["missing"]), None);
    assert_eq!(o.get_u32(&["lgwin"], 20), Ok(22));
    assert_eq!(o.get_u32(&["missing"], 20), Ok(20));
    assert_eq!(o.get_u32_range(&["lgwin"], 20, 10..=21), Err(OptionError::NotInRange));
    let bare = CoderOptions::from_str("raw").unwrap();
    assert_eq!(bare.name(), "raw");
    assert_eq!(bare.get(&[""]), None);
}

#[test]
fn coder_options_numbers() {
    let o = CoderOptions::from_str("lzma:extreme=1;preset=+7;big=4294967296;bad=x1").unwrap();
    assert_eq!(o.get_bool(&["extreme"], 0), Ok(true));
    assert_eq!(o.get_u32(&["preset"], 6), Ok(7));
    assert_eq!(o.get_u32(&["big"], 0), Err(OptionError::NotU32));
    assert_eq!(o.get_u64(&["big"], 0), Ok(4294967296));
    assert_eq!(o.get_u32(&["bad"], 0), Err(OptionError::NotU32));
    assert_eq!(o.get_bool(&["preset"], 0), Err(OptionError::NotInRange));
}

#[test]
fn coder_options_sizes() {
    let o = CoderOptions::from_str("zstd:minsize=10KiB;maxsize=2MB;minratio=90").unwrap();
    assert_eq!(o.min_size(), Ok(10240));
    assert_eq!(o.max_size(), Ok(2_000_000));
    assert_eq!(o.min_ratio(), Ok(90));
    let d = CoderOptions::new("zstd".to_string());
    assert_eq!(d.min_ratio(), Ok(100));
    assert_eq!(d.min_size(), Ok(0));
    assert_eq!(d.max_size(), Ok(u64::MAX));
    let bad = CoderOptions::from_str("zstd:minsize=lots").unwrap();
    assert_eq!(bad.min_size(), Err(OptionError::NotSize));
}

#[test]
fn ranges_merge_close_operations() {
    let ops = vec![add("a", 0, 10), check("b", 5), add("c", 10, 20), add("d", 30 + 600 * 1024, 5)];
    let r = ranges(&ops, 3, MERGE_DISTANCE);
    let r: Vec<(u64, u64)> = r.iter().map(|x| (x.start, x.end)).collect();
    assert_eq!(r, vec![(3, 30), (30 + 600 * 1024, 35 + 600 * 1024)]);
    let r = ranges(&ops, 0, 0);
    assert_eq!(r.len(), 2);
}

#[test]
fn chunk_ending_at_last_byte_adds_no_boundary() {
    let carriers = vec![
        Carrier { operation_idx: 0, start: 0, end: 10 },
        Carrier { operation_idx: 2, start: 10, end: 30 },
    ];
    let mut d = Demux::new(UpdatePosition::new(), &carriers);
    let (w, files, bytes) = d.feed(&carriers, 0, 15);
    assert_eq!(files, 1);
    assert_eq!(bytes, 15);
    assert_eq!(w.len(), 2);
    assert_eq!((w[0].operation_idx, w[0].chunk_offset, w[0].len, w[0].begin), (0, 0, 10, true));
    assert_eq!((w[1].operation_idx, w[1].chunk_offset, w[1].len, w[1].file_offset), (2, 10, 5, 0));
    assert_eq!(d.position, UpdatePosition { operation_idx: 2, byte_idx: 5 });
    let (w, files, bytes) = d.feed(&carriers, 15, 15);
    assert_eq!((files, bytes, w.len()), (1, 15, 1));
    assert_eq!(d.position, UpdatePosition { operation_idx: 3, byte_idx: 0 });
    assert!(d.current.is_none());
    let (w, files, bytes) = d.feed(&carriers, 30, 0);
    assert_eq!((w.len(), files, bytes), (0, 0, 0));
    assert_eq!(d.position, UpdatePosition { operation_idx: 3, byte_idx: 0 });
}

#[test]
fn resumed_download_starts_inside_operation() {
    let carriers = vec![Carrier { operation_idx: 1, start: 100, end: 200 }];
    let start = UpdatePosition { operation_idx: 1, byte_idx: 30 };
    let mut d = Demux::new(start, &carriers);
    let (w, files, bytes) = d.feed(&carriers, 130, 70);
    assert_eq!((files, bytes), (1, 70));
    assert_eq!(w[0].file_offset, 30);
    assert!(w[0].begin);
    assert_eq!(d.position, UpdatePosition { operation_idx: 2, byte_idx: 0 });
}

#[test]
fn step_objectives_follow_filter() {
    let ops = vec![add("a", 0, 10), check("b", 5), add("c", 10, 20)];
    let all = UpdateStepState::objectives(&ops, &UpdateFilter::allows_all(), false);
    assert_eq!((all.download_files, all.download_bytes, all.apply_files), (3, 30, 3));
    assert_eq!((all.apply_input_bytes, all.apply_output_bytes), (35, 35));
    let only_a = UpdateFilter::new(&[Failure::Path { path: path("a") }]);
    let s = UpdateStepState::objectives(&ops, &only_a, false);
    assert_eq!((s.download_files, s.download_bytes, s.apply_files), (1, 10, 1));
    let c = UpdateStepState::objectives(&ops, &UpdateFilter::allows_all(), true);
    assert_eq!((c.download_files, c.download_bytes, c.apply_input_bytes), (0, 0, 35));
    let p = CheckProgress::new(&ops);
    assert_eq!((p.check_files, p.check_bytes), (3, 5));
}

#[test]
fn repair_filter_turns_other_slices_into_checks() {
    let filter = UpdateFilter::new(&[Failure::Slice { path: path("game.pak"), slice: path("1") }]);
    let failed = filter.filter_map(&add_slice("game.pak", "1")).unwrap();
    assert_eq!(failed.kind(), OperationKind::Add);
    let other = filter.filter_map(&add_slice("game.pak", "2")).unwrap();
    assert_eq!(other.kind(), OperationKind::Check);
    assert!(filter.filter_map(&add_slice("other.pak", "1")).is_none());
}

#[test]
fn update_progress_counts_per_package() {
    let mut p = UpdateProgress::new(name("v2"), 0);
    assert!(p.current_step().is_none());
    p.steps.push(UpdateStepState::new());
    let mut delta = Progression::new();
    delta.downloaded_bytes = 42;
    p.inc_progress(&delta, 1_000);
    assert_eq!(p.current_step().unwrap().progression.downloaded_bytes, 42);
    assert_eq!(p.histogram.progress()[1], 42);
    p.inc_package();
    assert_eq!(p.downloading_package_idx, 1);
}

#[test]
fn histogram_rolls_its_window() {
    let mut h = Histogram::new(2, 2_000, 1, 0);
    assert!(h.inc(&[5], 1_000));
    assert!(h.inc(&[7], 2_000));
    assert_eq!(h.speed().delta[0], 12);
    assert!(h.inc(&[1], 3_000));
    assert_eq!(h.speed().delta[0], 8);
    assert_eq!(h.progress()[0], 13);
    h.add(&[20], 3_500);
    assert_eq!(h.progress()[0], 20);
}

#[test]
fn builder_table() {
    assert_eq!(plan_entry(EntryKind::Absent, EntryKind::File, false), Ok(Planned::Add));
    assert_eq!(plan_entry(EntryKind::Absent, EntryKind::Dir, false), Ok(Planned::MkDir));
    assert_eq!(plan_entry(EntryKind::File, EntryKind::File, true), Ok(Planned::Check));
    assert_eq!(plan_entry(EntryKind::File, EntryKind::File, false), Ok(Planned::Patch));
    assert_eq!(plan_entry(EntryKind::Dir, EntryKind::Absent, false), Ok(Planned::RmDir));
    assert_eq!(plan_entry(EntryKind::File, EntryKind::Absent, false), Ok(Planned::Rm));
    assert_eq!(plan_entry(EntryKind::Dir, EntryKind::File, false), Err(BuildError::TypeChange));
    assert_eq!(changed_file_kind(true), OperationKind::Add);
    assert_eq!(changed_file_kind(false), OperationKind::Patch);
}

#[test]
fn best_candidate_is_smallest_kept() {
    let open = CoderLimits { min_ratio: 100, min_size: 0, max_size: u64::MAX };
    let cands = vec![
        Candidate { data_size: 100, final_size: 100 },
        Candidate { data_size: 40, final_size: 100 },
        Candidate { data_size: 40, final_size: 100 },
        Candidate { data_size: 150, final_size: 100 },
    ];
    assert_eq!(best_candidate(&cands, &[open, open, open, open]), Ok(1));
    let strict = CoderLimits { min_ratio: 30, min_size: 0, max_size: u64::MAX };
    assert_eq!(best_candidate(&cands, &[open, strict, strict, open]), Ok(0));
    assert_eq!(best_candidate(&cands[3..], &[open]), Err(BuildError::NoCoder));
    let empty = vec![Candidate { data_size: 0, final_size: 0 }];
    assert_eq!(best_candidate(&empty, &[open]), Ok(0));
}

#[test]
fn offsets_follow_each_other() {
    let mut ops = vec![add("a", 99, 10), check("b", 5), add("c", 99, 20)];
    let size = assign_offsets(&mut ops);
    assert_eq!(size, 30);
    assert_eq!(ops[0].range().unwrap().start, 0);
    assert_eq!(ops[2].range().unwrap().start, 10);
}

#[test]
fn applier_never_passes_downloader() {
    let avail = UpdatePosition { operation_idx: 2, byte_idx: 50 };
    assert_eq!(bytes_to_apply(avail, 2, 10, 100, 1024), 40);
    assert_eq!(bytes_to_apply(avail, 1, 10, 100, 1024), 90);
    assert_eq!(bytes_to_apply(avail, 1, 10, 100, 16), 16);
    assert_eq!(bytes_to_apply(avail, 3, 0, 100, 1024), 0);
}

#[test]
fn written_operation_checks() {
    let h = |b: u8| Sha1Hash::new([b; 20]);
    let expected = WriteExpectation { data_size: 4, data_sha1: h(1), final_size: 8, final_sha1: h(2) };
    let ok = WriteOutcome { data_size: 4, data_sha1: h(1), final_size: 8, final_sha1: h(2) };
    assert_eq!(check_write(&expected, &ok), Ok(()));
    let bad_data = WriteOutcome { data_size: 4, data_sha1: h(9), final_size: 8, final_sha1: h(2) };
    assert_eq!(check_write(&expected, &bad_data), Err(Mismatch::DataSha1));
    let short = WriteOutcome { data_size: 4, data_sha1: h(1), final_size: 7, final_sha1: h(2) };
    assert_eq!(check_write(&expected, &short), Err(Mismatch::FinalSize));
    let c = CheckApplier::new(10, h(3));
    assert_eq!(c.expected_check_bytes(), 10);
    assert_eq!(c.commit(9, &h(3)), Err(Mismatch::FinalSize));
    assert_eq!(c.commit(10, &h(4)), Err(Mismatch::FinalSha1));
    assert_eq!(c.commit(10, &h(3)), Ok(()));
}

#[test]
fn repository_indexes() {
    let repo = Repository::new("repo".to_string());
    assert_eq!(repo.dir(), "repo");
    let (versions, packages) = repo.init();
    assert_eq!((versions.len(), packages.len()), (0, 0));
    let v1 = Version { revision: name("v1"), description: "first".to_string() };
    let versions = repo.register_version(&versions, &v1);
    let v1b = Version { revision: name("v1"), description: "again".to_string() };
    let versions = repo.register_version(&versions, &v1b);
    assert_eq!(versions.len(), 1);
    assert_eq!(versions.as_slice()[0].description(), "again");
    let current = repo.set_current_version(&versions, &name("v1")).unwrap();
    assert_eq!(current.version().as_str(), "v1");
    assert_eq!(repo.set_current_version(&versions, &name("v9")).err(), Some(RepositoryError::UnknownVersion));
    let versions = repo.unregister_version(&versions, &name("v1"));
    assert_eq!(versions.len(), 0);
    let p = Package { from: None, to: name("v1"), size: 3 };
    let packages = repo.register_package(&packages, &p);
    let packages = repo.register_package(&packages, &p);
    assert_eq!(packages.len(), 1);
    let packages = repo.unregister_package(&packages, &p);
    assert_eq!(packages.len(), 0);
    let _unused: Versions = Versions::V1 { versions: Vec::new() };
    let _unused2: Packages = Packages::V1 { packages: Vec::new() };
}

#[test]
fn coder_selection_by_name() {
    assert_eq!(decoder("zstd"), Ok(Decoder::Zstd));
    assert_eq!(decoder("gzip"), Err(CoderError::Unsupported));
    assert_eq!(patch_decoder("lzma", "vcdiff"), Ok(PatchDecoder::Vcdiff(Decoder::Lzma)));
    assert_eq!(patch_decoder("raw", "zstd"), Ok(PatchDecoder::ZstdDictionary));
    assert_eq!(patch_decoder("brotli", "raw"), Ok(PatchDecoder::Raw(Decoder::Brotli)));
    assert_eq!(patch_decoder("raw", "bsdiff"), Err(CoderError::Unsupported));
    let b = CoderOptions::from_str("brotli:9;lgwin=22").unwrap();
    assert_eq!(encoder(&b), Ok(Encoder::Brotli { quality: 9, lgwin: 22 }));
    let l = CoderOptions::from_str("lzma").unwrap();
    assert_eq!(encoder(&l), Ok(Encoder::Lzma { preset: 6, extreme: true }));
    let z = CoderOptions::from_str("zstd:level=30").unwrap();
    assert_eq!(encoder(&z), Err(CoderError::BadOption(OptionError::NotInRange)));
    let zp = CoderOptions::from_str("zstd:19").unwrap();
    assert_eq!(patch_encoder(&zp), Ok(PatchEncoder::ZstdDictionary { level: 19 }));
    assert_eq!(patch_encoder(&CoderOptions::new("vcdiff".to_string())), Err(CoderError::Unsupported));
}

#[test]
fn listings_are_walked_in_tandem() {
    let e = |n: &str, k: EntryKind| DirEntry { name: n.to_string(), kind: k };
    let previous = vec![e("a", EntryKind::File), e("b", EntryKind::Dir), e("d", EntryKind::File)];
    let source = vec![e("a", EntryKind::File), e("c", EntryKind::File), e("d", EntryKind::Dir)];
    let paired = pair_listings(&previous, &source);
    let got: Vec<(String, EntryKind, EntryKind)> =
        paired.iter().map(|p| (p.name.clone(), p.previous, p.source)).collect();
    assert_eq!(
        got,
        vec![
            ("a".to_string(), EntryKind::File, EntryKind::File),
            ("b".to_string(), EntryKind::Dir, EntryKind::Absent),
            ("c".to_string(), EntryKind::Absent, EntryKind::File),
            ("d".to_string(), EntryKind::File, EntryKind::Dir),
        ]
    );
    assert_eq!(plan_entry(got[3].1, got[3].2, false), Err(BuildError::TypeChange));
    let same = pair_listings(&previous, &previous);
    for p in same.iter() {
        let planned = plan_entry(p.previous, p.source, true).unwrap();
        assert!(planned == Planned::Check || planned == Planned::Recurse);
    }
}

#[test]
fn watermarks_keep_applied_behind_available() {
    let mut st = StateUpdating::new(None, name("v1"), Vec::new());
    st.record_available(UpdatePosition { operation_idx: 2, byte_idx: 10 });
    st.record_available(UpdatePosition { operation_idx: 1, byte_idx: 0 });
    assert_eq!(st.available, UpdatePosition { operation_idx: 2, byte_idx: 10 });
    st.record_applied(5);
    assert_eq!(st.applied.operation_idx, 0);
    st.record_applied(2);
    assert_eq!(st.applied, UpdatePosition { operation_idx: 2, byte_idx: 0 });
    st.record_failure(Failure::Path { path: path("z") });
    st.record_failure(Failure::Path { path: path("z") });
    assert_eq!(st.failures.len(), 1);
}

#[test]
fn file_opened_at_chunk_end_is_still_truncated() {
    let carriers = vec![
        Carrier { operation_idx: 0, start: 0, end: 10 },
        Carrier { operation_idx: 1, start: 10, end: 20 },
    ];
    let mut d = Demux::new(UpdatePosition::new(), &carriers);
    let (w, files, bytes) = d.feed(&carriers, 0, 10);
    assert_eq!((files, bytes), (1, 10));
    assert_eq!(w.len(), 2);
    assert_eq!((w[1].operation_idx, w[1].len, w[1].begin, w[1].file_offset), (1, 0, true, 0));
    assert_eq!(d.position, UpdatePosition { operation_idx: 1, byte_idx: 0 });
    let (w, _, _) = d.feed(&carriers, 10, 10);
    assert!(!w[0].begin);
    assert_eq!(d.position, UpdatePosition { operation_idx: 2, byte_idx: 0 });
}

#[test]
fn handler_follows_slice_handler_name() {
    assert_eq!(handler_for(&add("a", 0, 1)), Ok(HandlerKind::Direct));
    assert_eq!(handler_for(&add_slice("game.pak", "1")), Ok(HandlerKind::Sliced));
    let mut odd = add_slice("game.pak", "1");
    if let Operation::Add(a) = &mut odd {
        a.common.slice_handler = Some(name("zip"));
    }
    assert_eq!(handler_for(&odd), Err(HandlerError::UnsupportedHandler));
    assert_eq!(handler_for(&Operation::RmDir { path: path("d") }), Ok(HandlerKind::Direct));
}

#[test]
fn sliced_handler_table() {
    assert_eq!(sliced_mode(&add_slice("p.pak", "0")), Ok(SlicedMode::Add));
    assert_eq!(sliced_mode(&Operation::RmDir { path: path("d") }), Err(SliceError::BadFirstOperation));
    let slice_check = |slice: &str| Operation::Check(Check {
        common: Common { path: path("p.pak"), slice: Some(path(slice)), exe: false, slice_handler: Some(name("sliced")) },
        local_offset: 0,
        local_size: 4,
        local_sha1: Sha1Hash::new([0u8; 20]),
    });
    assert_eq!(slice_action(SlicedMode::Add, &add_slice("p.pak", "1"), false, true), Ok(SliceAction::Write));
    assert_eq!(slice_action(SlicedMode::Patch, &slice_check("1"), false, true), Ok(SliceAction::CopySlice));
    assert_eq!(slice_action(SlicedMode::Check, &slice_check("1"), true, true), Ok(SliceAction::VerifySlice));
    assert_eq!(slice_action(SlicedMode::Check, &slice_check("1"), false, true), Ok(SliceAction::Skip));
    assert_eq!(slice_action(SlicedMode::Check, &add_slice("p.pak", "1"), false, true), Err(SliceError::Meta));
    assert_eq!(slice_action(SlicedMode::Check, &add_slice("p.pak", "1"), false, false), Ok(SliceAction::Skip));
    assert_eq!(slice_action(SlicedMode::Add, &Operation::MkDir { path: path("d") }, false, true), Err(SliceError::Meta));
    assert_eq!(slice_action(SlicedMode::Add, &add("p.pak", 0, 4), false, true), Ok(SliceAction::Skip));
}

#[test]
fn counters_add_and_subtract() {
    let mut a = Progression::new();
    a.applied_files = 3;
    a.downloaded_bytes = u64::MAX - 1;
    let mut b = Progression::new();
    b.applied_files = 5;
    b.downloaded_bytes = 10;
    a.add(&b);
    assert_eq!((a.applied_files, a.downloaded_bytes), (8, u64::MAX));
    a.sub(&b);
    a.sub(&b);
    assert_eq!(a.applied_files, 0);
    let mut c = CheckProgression::new();
    c.add(&CheckProgression { checked_files: 2, checked_bytes: 7, failed_files: 1 });
    c.sub(&CheckProgression { checked_files: 1, checked_bytes: 9, failed_files: 0 });
    assert_eq!((c.checked_files, c.checked_bytes, c.failed_files), (1, 0, 1));
}

#[test]
fn min_ratio_above_hundred_is_refused() {
    let o = CoderOptions::from_str("zstd:minratio=150").unwrap();
    assert_eq!(o.min_ratio(), Err(OptionError::NotInRange));
    let o = CoderOptions::from_str("zstd:minratio=0").unwrap();
    assert_eq!(o.min_ratio(), Ok(0));
}

#[test]
fn histogram_speed_sums_the_window() {
    let mut h = Histogram::new(3, 3_000, 2, 0);
    assert_eq!(h.speed().duration, 0);
    assert!(h.inc(&[1, 10], 500));
    assert!(!h.inc(&[2, 20], 900));
    let s = h.speed();
    assert_eq!((s.duration, s.delta[0], s.delta[1]), (900, 3, 30));
    assert!(!h.inc(&[4, 0], 2_000));
    assert_eq!(h.speed().duration, 2_000);
    assert!(h.inc(&[0, 1], 2_100));
    assert_eq!(h.history.len(), 2);
    assert_eq!(h.progress(), &[7, 31]);
}

#[test]
fn feed_writes_every_byte_up_to_last_carrier() {
    let carriers = vec![
        Carrier { operation_idx: 0, start: 0, end: 4 },
        Carrier { operation_idx: 1, start: 4, end: 6 },
        Carrier { operation_idx: 3, start: 6, end: 9 },
    ];
    let mut d = Demux::new(UpdatePosition::new(), &carriers);
    let (w, files, bytes) = d.feed(&carriers, 0, 20);
    assert_eq!((files, bytes), (3, 9));
    assert_eq!(d.pos, 9);
    assert_eq!(d.position, UpdatePosition { operation_idx: 4, byte_idx: 0 });
    let placed: Vec<(usize, usize, u64)> = w.iter().map(|x| (x.operation_idx, x.chunk_offset, x.file_offset)).collect();
    assert_eq!(placed, vec![(0, 0, 0), (1, 4, 0), (3, 6, 0)]);
}

#[test]
fn failed_check_records_path_and_slice() {
    use_failure();
}

fn use_failure() {
    let f = failure_of(&add_slice("game.pak", "3"));
    assert_eq!((f.path().as_str(), f.slice().map(|s| s.as_str())), ("game.pak", Some("3")));
    assert!(check_failure(&check("a", 1), Ok(())).is_none());
    let f = check_failure(&check("a", 1), Err(Mismatch::FinalSha1)).unwrap();
    assert_eq!((f.path().as_str(), f.slice().is_none()), ("a", true));
}

#[test]
fn registering_a_package_replaces_its_edge() {
    let repo = Repository::new("repo".to_string());
    let (_, packages) = repo.init();
    let old = Package { from: Some(name("v1")), to: name("v2"), size: 100 };
    let other = Package { from: None, to: name("v2"), size: 7 };
    let packages = repo.register_package(&packages, &old);
    let packages = repo.register_package(&packages, &other);
    let rebuilt = Package { from: Some(name("v1")), to: name("v2"), size: 60 };
    let packages = repo.register_package(&packages, &rebuilt);
    let sizes: Vec<u64> = packages.as_slice().iter().map(|p| p.size).collect();
    assert_eq!(sizes, vec![7, 60]);
    let packages = repo.unregister_package(&packages, &old);
    assert_eq!(packages.len(), 1);
}

#[test]
fn built_operations_take_the_kept_outputs() {
    let h = |b: u8| Sha1Hash::new([b; 20]);
    let common = || Common { path: path("a"), slice: None, exe: true, slice_handler: None };
    let compressed = Encoded { coder: name("zstd"), data_size: 40, data_sha1: h(1), final_size: 100, final_sha1: h(2) };
    match added_file(common(), &compressed) {
        Operation::Add(a) => {
            assert_eq!((a.data_size, a.final_size, a.data_compression.as_str()), (40, 100, "zstd"));
            assert!(a.common.exe);
        }
        _ => panic!("expected an addition"),
    }
    let raw_patch = Encoded { coder: name("raw"), data_size: 100, data_sha1: h(2), final_size: 100, final_sha1: h(2) };
    match changed_file(common(), 90, h(5), &raw_patch, &compressed) {
        Operation::Add(a) => {
            assert_eq!((a.data_size, a.data_compression.as_str()), (40, "zstd"));
            assert!(a.final_sha1.equals(&h(2)));
        }
        _ => panic!("expected the addition fallback"),
    }
    let patch = Encoded { coder: name("vcdiff"), data_size: 12, data_sha1: h(3), final_size: 100, final_sha1: h(2) };
    let small = Encoded { coder: name("brotli"), data_size: 9, data_sha1: h(4), final_size: 12, final_sha1: h(3) };
    match changed_file(common(), 90, h(5), &patch, &small) {
        Operation::Patch(p) => {
            assert_eq!((p.data_size, p.local_size, p.final_size), (9, 90, 100));
            assert_eq!((p.patch_type.as_str(), p.data_compression.as_str()), ("vcdiff", "brotli"));
        }
        _ => panic!("expected a patch"),
    }
    let empty = unchanged_file(common(), 0, Sha1Hash::digest(&[]));
    assert_eq!((empty.kind(), empty.check_size()), (OperationKind::Check, 0));
}

#[test]
fn repository_kind_follows_url_scheme() {
    match AutoRepository::new("https://example.org/repo", Some(("u", "p"))).unwrap() {
        AutoRepository::Https { url, auth } => {
            assert_eq!(url, "https://example.org/repo");
            assert_eq!(auth, Some(("u".to_string(), "p".to_string())));
        }
        _ => panic!("expected a remote repository"),
    }
    match AutoRepository::new("file:///srv/repo", None).unwrap() {
        AutoRepository::File { dir } => assert_eq!(dir, "/srv/repo"),
        _ => panic!("expected a local repository"),
    }
    assert!(matches!(AutoRepository::new("ftp://x", None), Err(RepositoryError::UnsupportedScheme)));
}

#[test]
fn histogram_add_records_what_moved() {
    let mut h = Histogram::new(2, 2_000, 2, 0);
    assert!(h.add(&[10, 5], 1_000));
    assert!(h.add(&[15, 3], 2_500));
    assert_eq!(h.history[1].delta, vec![5, 0]);
    assert_eq!(h.progress(), &[15, 5]);
}

#[test]
fn final_size_mismatch_is_reported() {
    let h = |b: u8| Sha1Hash::new([b; 20]);
    let expected = WriteExpectation { data_size: 4, data_sha1: h(1), final_size: 8, final_sha1: h(2) };
    let found = WriteOutcome { data_size: 4, data_sha1: h(1), final_size: 9, final_sha1: h(2) };
    assert_eq!(check_write(&expected, &found), Err(Mismatch::FinalSize));
}
