use diffuzzer::abstract_fs::trace::{Errno, Trace, TraceDiff, TraceRow};
use diffuzzer::dash::{
    calc_entries_hash, calc_fileinfo_hash, get_diff, get_diff_hashed, handle_last_diff, FileDiff, FileInfo,
    HasherOptions, SkipSet,
};
use diffuzzer::fuzzing::objective::hash::HashObjective;
use diffuzzer::fuzzing::objective::trace::TraceObjective;
use diffuzzer::fuzzing::outcome::{diff_runs, harness_verdict, Completed, DiffCompleted, DiffOutcome, Outcome};
use diffuzzer::fuzzing::reducer::{same_diff, Reduction, ReduceAction};
use diffuzzer::abstract_fs::operation::Operation;
use diffuzzer::abstract_fs::pathname::PathName;
use diffuzzer::abstract_fs::workload::Workload;
use diffuzzer::path::LocalPath;

fn info(rel: &str, size: u64) -> FileInfo {
    FileInfo {
        abs_path: format!("/mnt{}", rel),
        rel_path: rel.to_owned(),
        gid: 0,
        uid: 0,
        size,
        nlink: 1,
        mode: 0o644,
        is_dir: false,
    }
}

fn lost_found() -> SkipSet {
    SkipSet::new(vec!["^lost\\+found".to_owned()]).unwrap()
}

fn row(index: u32, command: &str, code: i32) -> TraceRow {
    TraceRow {
        index,
        command: command.to_owned(),
        return_code: code,
        errno: Errno { name: "Success".to_owned(), code: 0 },
        extra: String::new(),
    }
}

fn completed() -> Completed {
    Completed::new(String::new(), String::new(), LocalPath::new("/tmp/out"))
}

#[test]
fn dash_listing_has_no_difference_from_itself() {
    let v = vec![info("", 0), info("a", 1), info("a/b", 2), info("c", 3)];
    let skip = vec![false, false, true, false];
    let hash = vec![1, 2, 3, 4];
    assert!(get_diff_hashed(&v, &v, &skip, &skip, &hash, &hash).is_empty());
}

#[test]
fn dash_differences_by_hash_and_presence() {
    let fst = vec![info("", 0), info("a", 1), info("b", 1)];
    let snd = vec![info("", 0), info("a", 1), info("c", 1)];
    let no_skip = vec![false, false, false];
    let diff = get_diff_hashed(&fst, &snd, &no_skip, &no_skip, &vec![0, 5, 6], &vec![0, 7, 8]);
    assert_eq!(
        vec![
            FileDiff::OnlyOneExists(info("c", 1)),
            FileDiff::OnlyOneExists(info("b", 1)),
            FileDiff::FileIsDifferent { fst: info("a", 1), snd: info("a", 1) },
        ],
        diff
    );
}

#[test]
fn dash_skipped_first_entry_leaves_the_rest_of_the_other_side() {
    let v = vec![info("x", 0), info("y", 0)];
    let skip = vec![true, true];
    let hash = vec![0, 0];
    let diff = get_diff_hashed(&v, &v, &skip, &skip, &hash, &hash);
    assert_eq!(vec![FileDiff::OnlyOneExists(info("y", 0)), FileDiff::OnlyOneExists(info("x", 0))], diff);
}

#[test]
fn dash_last_diff_reports_the_rest() {
    let v = vec![info("", 0), info("a", 1), info("b", 2)];
    let mut res = Vec::new();
    handle_last_diff(0, &v, &mut res);
    assert!(res.is_empty());
    handle_last_diff(2, &v, &mut res);
    assert_eq!(
        vec![FileDiff::OnlyOneExists(info("b", 2)), FileDiff::OnlyOneExists(info("a", 1)), FileDiff::OnlyOneExists(info("", 0))],
        res
    );
}

#[test]
fn dash_get_diff_with_patterns() {
    let fst = vec![info("", 0), info("a", 1), info("lost+found", 0)];
    let snd = vec![info("", 0), info("a", 1), info("lost+found", 0)];
    let skip = lost_found();
    let options = HasherOptions { size: true, file_nlink: false, dir_nlink: false, mode: false };
    assert!(get_diff(&fst, &snd, &skip, &skip, &options).is_empty());
    let other = vec![info("", 0), info("a", 2), info("lost+found", 0)];
    let diff = get_diff(&fst, &other, &skip, &skip, &options);
    assert_eq!(
        vec![
            FileDiff::FileIsDifferent { fst: info("a", 1), snd: info("a", 2) },
            FileDiff::FileIsDifferent { fst: info("", 0), snd: info("", 0) },
        ],
        diff
    );
    let options = HasherOptions::default();
    assert!(get_diff(&fst, &other, &skip, &skip, &options).is_empty());
}

#[test]
fn dash_hashes_follow_the_options() {
    let v = vec![info("a", 1), info("a/b", 2)];
    let w = vec![info("a", 1), info("a/b", 3)];
    let with_size = HasherOptions { size: true, ..HasherOptions::default() };
    assert_ne!(calc_fileinfo_hash(&v, "a", &with_size), calc_fileinfo_hash(&w, "a", &with_size));
    assert_eq!(
        calc_fileinfo_hash(&v, "a", &HasherOptions::default()),
        calc_fileinfo_hash(&w, "a", &HasherOptions::default())
    );
    assert_eq!(calc_fileinfo_hash(&v, "a/b", &with_size), calc_fileinfo_hash(&v, "a/b", &with_size));
}

#[test]
fn dash_entries_hash_drops_skipped() {
    let entries = vec![info("", 0), info("lost+found", 0), info("a", 1)];
    let skip = lost_found();
    let (hash, kept) = calc_entries_hash(entries, &skip, &HasherOptions::default());
    assert_eq!(vec![info("", 0), info("a", 1)], kept);
    let (again, _) = calc_entries_hash(vec![info("", 0), info("a", 1)], &skip, &HasherOptions::default());
    assert_eq!(hash, again);
}

#[test]
fn trace_objective_same_trace_has_no_diff() {
    let t = Trace { rows: vec![row(1, "create", 0), row(2, "mkdir", -1)] };
    let mut objective = TraceObjective::new();
    assert!(objective.get_diff(&t, &t).is_empty());
}

#[test]
fn trace_objective_reports_rows_and_lengths() {
    let a = Trace { rows: vec![row(1, "create", 0), row(2, "mkdir", -1)] };
    let b = Trace { rows: vec![row(7, "create", 0), row(8, "mkdir", 0)] };
    let c = Trace { rows: vec![row(1, "create", 0)] };
    let mut objective = TraceObjective::new();
    assert_eq!(
        vec![TraceDiff::TraceRowIsDifferent { fst: row(2, "mkdir", -1), snd: row(8, "mkdir", 0) }],
        objective.get_diff(&a, &b)
    );
    assert_eq!(vec![TraceDiff::DifferentLength], objective.get_diff(&a, &c));
    assert_eq!(vec![TraceDiff::DifferentLength], objective.get_diff(&c, &a));
}

#[test]
fn outcome_last_diff_row() {
    let a = Trace { rows: vec![row(1, "create", 0), row(2, "mkdir", -1), row(3, "open", 3)] };
    let b = Trace { rows: vec![row(1, "create", 1), row(2, "mkdir", -1), row(3, "open", 4)] };
    let d = diff_runs(completed(), completed(), a, b, vec![]);
    assert!(d.trace_interesting());
    assert!(!d.dash_interesting());
    assert!(d.any_interesting());
    assert_eq!(Some(3), d.get_last_diff_trace_row());
    let same = diff_runs(
        completed(),
        completed(),
        Trace { rows: vec![row(1, "create", 0)] },
        Trace { rows: vec![row(1, "create", 0), row(2, "close", 0)] },
        vec![],
    );
    assert_eq!(None, same.get_last_diff_trace_row());
}

#[test]
fn harness_verdicts() {
    let name = "ext4".to_owned();
    assert!(matches!(harness_verdict(Outcome::Completed(completed()), &name, 10, true), Ok(_)));
    match harness_verdict(Outcome::Panicked, &name, 10, true) {
        Err(DiffOutcome::FirstPanicked { fs_name }) => assert_eq!("ext4", fs_name),
        _ => panic!("expected a panic of the first file system"),
    }
    match harness_verdict(Outcome::TimedOut, &name, 10, false) {
        Err(DiffOutcome::SecondTimedOut { fs_name, timeout }) => {
            assert_eq!("ext4", fs_name);
            assert_eq!(10, timeout);
        }
        _ => panic!("expected a time-out of the second file system"),
    }
}

fn diff_of(rows_a: Vec<TraceRow>, rows_b: Vec<TraceRow>) -> DiffCompleted {
    diff_runs(completed(), completed(), Trace { rows: rows_a }, Trace { rows: rows_b }, vec![])
}

#[test]
fn same_diff_ignores_indices() {
    let x = diff_of(vec![row(1, "a", 0)], vec![row(1, "a", 1)]);
    let y = diff_of(vec![row(5, "a", 0)], vec![row(9, "a", 1)]);
    let z = diff_of(vec![row(1, "a", 0)], vec![row(1, "a", 2)]);
    assert!(same_diff(&x, &x));
    assert!(same_diff(&x, &y));
    assert!(same_diff(&y, &x));
    assert!(!same_diff(&x, &z));
    assert!(!same_diff(&z, &x));
}

fn ops(n: usize) -> Workload {
    let mut w = Workload::new();
    for i in 0..n {
        w.push(Operation::Create { path: PathName::new(&format!("/{}", i)), mode: vec![] });
    }
    w
}

#[test]
fn reduction_steps() {
    let mut r = Reduction::new(ops(3));
    assert_eq!(2, r.idx_to_remove);
    assert_eq!("variation-2", r.variation_name());
    let candidate = r.candidate().unwrap();
    assert_eq!(2, candidate.ops.len());
    let first_run = diff_of(vec![row(1, "a", 0)], vec![row(1, "a", 1)]);
    let alike = DiffOutcome::DiffCompleted(diff_of(vec![row(4, "a", 0)], vec![row(4, "a", 1)]));
    assert!(matches!(r.decide(candidate.clone(), &first_run, &alike), ReduceAction::SaveReduced));
    assert_eq!(candidate, r.bugcase);
    let other = DiffOutcome::DiffCompleted(diff_of(vec![row(1, "a", 0)], vec![row(1, "b", 1)]));
    assert!(matches!(r.decide(ops(1), &first_run, &other), ReduceAction::SaveVariation));
    assert_eq!(candidate, r.bugcase);
    let none = DiffOutcome::DiffCompleted(diff_of(vec![row(1, "a", 0)], vec![row(1, "a", 0)]));
    assert!(matches!(r.decide(ops(1), &first_run, &none), ReduceAction::Nothing));
    match r.decide(ops(1), &first_run, &DiffOutcome::FirstTimedOut { fs_name: "btrfs".to_owned(), timeout: 3 }) {
        ReduceAction::SaveCrash(reason) => assert_eq!("Filesystem 'btrfs' timed out after 3s", reason),
        _ => panic!("expected a crash"),
    }
    match r.decide(ops(1), &first_run, &DiffOutcome::SecondPanicked { fs_name: "xfs".to_owned() }) {
        ReduceAction::SaveCrash(reason) => assert_eq!("Filesystem 'xfs' panicked", reason),
        _ => panic!("expected a crash"),
    }
    assert!(r.advance());
    assert!(r.advance());
    assert!(!r.advance());
    assert_eq!(0, r.idx_to_remove);
}

#[test]
fn reduction_candidate_that_does_not_replay() {
    let w = Workload {
        ops: vec![
            Operation::MkDir { path: PathName::new("/d"), mode: vec![] },
            Operation::Create { path: PathName::new("/d/f"), mode: vec![] },
        ],
    };
    let mut r = Reduction::new(w);
    assert!(r.candidate().is_some());
    assert!(r.advance());
    assert!(r.candidate().is_none());
}

#[test]
fn objectives_on_hashes() {
    use_objectives();
}

fn use_objectives() {
    let skip = lost_found();
    let mut objective = HashObjective::new(
        diffuzzer::path::RemotePath::new("/mnt/a"),
        diffuzzer::path::RemotePath::new("/mnt/b"),
        lost_found(),
        lost_found(),
        true,
    );
    assert!(!objective.is_interesting());
    objective.fst_fs.calc_and_save_hash(vec![info("", 0), info("lost+found", 0), info("a", 1)]);
    objective.snd_fs.calc_and_save_hash(vec![info("", 0), info("a", 1)]);
    assert_eq!(vec![info("", 0), info("a", 1)], objective.fst_fs.fs_content);
    assert!(!objective.is_interesting());
    assert!(objective.get_diff().is_empty());
    objective.snd_fs.calc_and_save_hash(vec![info("", 0), info("b", 1)]);
    assert!(objective.is_interesting());
    assert_eq!(
        vec![FileDiff::OnlyOneExists(info("b", 1)), FileDiff::OnlyOneExists(info("a", 1)), FileDiff::FileIsDifferent { fst: info("", 0), snd: info("", 0) }],
        objective.get_diff()
    );
    let off = HashObjective::new(
        diffuzzer::path::RemotePath::new("/mnt/a"),
        diffuzzer::path::RemotePath::new("/mnt/b"),
        lost_found(),
        skip,
        false,
    );
    assert!(!off.is_interesting());
}

#[test]
fn accidents_need_errors_on_both_sides() {
    let mut failing = row(2, "mkdir", -1);
    failing.errno = Errno { name: "EEXIST".to_owned(), code: 17 };
    let both = diff_of(vec![row(1, "a", 0), failing.clone()], vec![failing.clone()]);
    assert!(both.both_traces_have_errors());
    let one = diff_of(vec![failing.clone()], vec![row(1, "a", 0)]);
    assert!(!one.both_traces_have_errors());
    let none = diff_of(vec![row(1, "a", 0)], vec![row(1, "a", 0)]);
    assert!(!none.both_traces_have_errors());
}

#[test]
fn fileinfo_hash_of_nothing_is_the_empty_hash() {
    let v = vec![info("/a", 1), info("/b", 2)];
    let h = calc_fileinfo_hash(&v, "/zzz", &HasherOptions::default());
    assert_eq!(h, 0xef46db3751d8e999);
}

#[test]
fn fileinfo_hash_feeds_path_owner_and_selected_fields() {
    let mut f = info("/a/x", 7);
    f.gid = 3;
    f.uid = 5;
    let v = vec![info("/b", 1), f];
    let opts = HasherOptions { size: true, file_nlink: false, dir_nlink: true, mode: true };
    let mut bytes: Vec<u8> = Vec::new();
    bytes.extend_from_slice("/a/x".as_bytes());
    bytes.extend_from_slice(&3u32.to_ne_bytes());
    bytes.extend_from_slice(&5u32.to_ne_bytes());
    bytes.extend_from_slice(&7u64.to_ne_bytes());
    bytes.extend_from_slice(&0o644u32.to_ne_bytes());
    let expected = twox_hash::XxHash64::oneshot(0, &bytes);
    assert_eq!(calc_fileinfo_hash(&v, "/a", &opts), expected);
}

#[test]
fn skip_sets_refuse_bad_patterns_and_match_case_sensitively() {
    assert!(SkipSet::new(vec!["(".to_owned()]).is_err());
    let set = SkipSet::new(vec!["a".to_owned()]).unwrap();
    let v = vec![info("", 0), info("A", 1), info("a", 2)];
    let (_, kept) = calc_entries_hash(v, &set, &HasherOptions::default());
    assert_eq!(vec![info("", 0), info("A", 1)], kept);
}
