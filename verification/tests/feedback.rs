use std::collections::hash_map::DefaultHasher;
use std::collections::{HashMap, HashSet};
use std::hash::{Hash, Hasher};

use diffuzzer::fuzzing::greybox::feedback::kcov::{parse_kcov_addrs, KCovCoverageFeedback, KCovFeedback};
use diffuzzer::fuzzing::greybox::feedback::lcov::{LCovCoverageFeedback, LCovLine, LCovTrace};
use diffuzzer::fuzzing::greybox::feedback::{CoverageType, DummyCoverageFeedback};
use diffuzzer::text::IntErrorKind;

fn location(name: &str, line: u32) -> u64 {
    let mut hasher = DefaultHasher::new();
    name.to_owned().hash(&mut hasher);
    let file_hash = hasher.finish();
    let high32 = (file_hash >> 32) as u32;
    let low32 = file_hash as u32;
    ((((high32 ^ low32) as u64) << 32) as u64) + line as u64
}

const TRACEFILE: &str = "TN:\nSF:/src/a.c\nDA:1,5\nDA:2,0\nDA:7,1\nend_of_record\nTN:\nSF:/src/b.c\nDA:3,2\nend_of_record\n";

#[test]
fn kcov_addresses_are_parsed_per_line() {
    let addrs = parse_kcov_addrs("0x10\n0xff\nab\n").unwrap();
    assert_eq!(vec![16, 255, 171], addrs);
}

#[test]
fn kcov_bad_line_is_an_error() {
    let err = parse_kcov_addrs("0x10\nzz\n").unwrap_err();
    assert_eq!(IntErrorKind::InvalidDigit, err.kind);
    let err = parse_kcov_addrs("0x10\n0x1ffffffffffffffff\n").unwrap_err();
    assert_eq!(IntErrorKind::PosOverflow, err.kind);
}

#[test]
fn kcov_coverage_is_interesting_once() {
    let mut feedback = KCovFeedback::new("kcov.dat".to_owned());
    assert_eq!(Ok(true), feedback.is_interesting("0x1\n0x2\n"));
    assert_eq!(Ok(false), feedback.is_interesting("0x2\n0x1\n"));
    assert_eq!(Ok(true), feedback.is_interesting("0x3\n"));
    assert!(feedback.is_interesting("0xg\n").is_err());
    assert_eq!(Ok(false), feedback.is_interesting("0x3\n0x1\n"));
}

#[test]
fn kcov_opinion_counts_runs() {
    let mut feedback = KCovCoverageFeedback::new();
    assert_eq!(CoverageType::KCov, feedback.coverage_type());
    let first = feedback.opinion("0x1\n0x1\n0x2\n").unwrap();
    assert!(first.is_interesting());
    assert_eq!(HashSet::from([1u64, 2u64]), first.coverage());
    assert_eq!(Some(&2), feedback.map.get(&1));
    assert_eq!(Some(&1), feedback.map.get(&2));
    let second = feedback.opinion("0x2\n0x1\n").unwrap();
    assert!(!second.is_interesting());
    assert_eq!(Some(&3), feedback.map.get(&1));
    assert_eq!(Some(&2), feedback.map.get(&2));
}

#[test]
fn dummy_feedback_is_never_interesting() {
    let mut feedback = DummyCoverageFeedback::new();
    assert_eq!(CoverageType::NoCoverage, feedback.coverage_type());
    let opinion = feedback.opinion();
    assert!(!opinion.is_interesting());
    assert!(opinion.coverage().is_empty());
}

#[test]
fn coverage_type_names() {
    assert_eq!("None", CoverageType::NoCoverage.to_string());
    assert_eq!("KCov", CoverageType::KCov.to_string());
    assert_eq!("LCov", CoverageType::LCov.to_string());
}

#[test]
fn lcov_lines() {
    assert!(matches!(LCovLine::parse_from("  end_of_record  "), Some(LCovLine::EndOfRecord())));
    match LCovLine::parse_from("SF:/a/b.c") {
        Some(LCovLine::SourceFileName(f)) => assert_eq!("/a/b.c", f),
        _ => panic!("expected a source file"),
    }
    assert!(matches!(LCovLine::parse_from("DA:12,3"), Some(LCovLine::LineExecutionCount(12, 3))));
    assert!(matches!(LCovLine::parse_from("DA:12,3,abc"), Some(LCovLine::LineExecutionCount(12, 3))));
    assert!(LCovLine::parse_from("DA:12,0").is_none());
    assert!(LCovLine::parse_from("DA:12").is_none());
    assert!(LCovLine::parse_from("DA:x,1").is_none());
    assert!(LCovLine::parse_from("FN:17,lfs_crc").is_none());
    assert!(LCovLine::parse_from("TN:").is_none());
}

#[test]
fn lcov_map_places_lines_by_file() {
    let trace = LCovTrace::parse_from(TRACEFILE);
    let map = trace.map();
    let mut expected = HashMap::new();
    expected.insert(location("/src/a.c", 1), 5u64);
    expected.insert(location("/src/a.c", 7), 1u64);
    expected.insert(location("/src/b.c", 3), 2u64);
    assert_eq!(expected, map);
}

#[test]
fn lcov_opinion_counts_runs() {
    let mut feedback = LCovCoverageFeedback::new();
    assert_eq!(CoverageType::LCov, feedback.coverage_type());
    let first = feedback.opinion(TRACEFILE);
    assert!(first.is_interesting());
    let expected: HashSet<u64> =
        HashSet::from([location("/src/a.c", 1), location("/src/a.c", 7), location("/src/b.c", 3)]);
    assert_eq!(expected, first.coverage());
    let second = feedback.opinion(TRACEFILE);
    assert!(!second.is_interesting());
    assert_eq!(Some(&2), feedback.map.get(&location("/src/b.c", 3)));
    let third = feedback.opinion("SF:/src/c.c\nDA:1,1\nend_of_record\n");
    assert!(third.is_interesting());
}

#[test]
fn lcov_lines_of_a_record_without_file_go_to_the_next_file() {
    let trace = LCovTrace::parse_from("DA:1,1\nend_of_record\nSF:/x.c\nSF:/y.c\nDA:2,4\nend_of_record\n");
    assert_eq!(1, trace.files.len());
    assert_eq!("/x.c", trace.files[0].0);
    assert_eq!(Some(&4), trace.files[0].1.coverage_map.get(&2));
    assert_eq!(Some(&1), trace.files[0].1.coverage_map.get(&1));
}

#[test]
fn lcov_later_record_of_a_file_replaces_the_earlier() {
    let trace = LCovTrace::parse_from("SF:/a.c\nDA:1,1\nend_of_record\nSF:/b.c\nDA:2,2\nend_of_record\nSF:/a.c\nDA:3,3\nend_of_record\n");
    assert_eq!(2, trace.files.len());
    assert_eq!("/a.c", trace.files[0].0);
    assert_eq!(None, trace.files[0].1.coverage_map.get(&1));
    assert_eq!(Some(&3), trace.files[0].1.coverage_map.get(&3));
    assert_eq!("/b.c", trace.files[1].0);
}
