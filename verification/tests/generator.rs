use diffuzzer::abstract_fs::fs::AbstractFS;
use diffuzzer::abstract_fs::generator::{generate_new, NameGen};
use diffuzzer::abstract_fs::mutator::{insert, remove, MutationKind, MutationWeights};
use diffuzzer::abstract_fs::operation::{Operation, OperationKind, OperationWeights};
use diffuzzer::abstract_fs::workload::Workload;
use diffuzzer::fuzzing::greybox::mutator::Mutator;
use rand::rngs::StdRng;
use rand::SeedableRng;

fn weights_without_rename() -> OperationWeights {
    OperationWeights::new(vec![
        (OperationKind::Create, 100),
        (OperationKind::MkDir, 100),
        (OperationKind::Remove, 100),
        (OperationKind::Hardlink, 100),
        (OperationKind::Open, 100),
        (OperationKind::Close, 100),
        (OperationKind::Read, 100),
        (OperationKind::Write, 100),
        (OperationKind::FSync, 100),
    ])
}

fn replays_as_recorded(w: &Workload) -> bool {
    let mut fs = AbstractFS::new();
    fs.replay(w).is_ok() && fs.recording == *w
}

#[test]
fn generated_workloads_replay_as_recorded() {
    for seed in 0..30 {
        let mut rng = StdRng::seed_from_u64(seed);
        let w = generate_new(&mut rng, 60, &weights_without_rename());
        assert_eq!(60, w.ops.len());
        assert!(replays_as_recorded(&w));
    }
}

#[test]
fn generated_workload_of_size_zero_is_empty() {
    let mut rng = StdRng::seed_from_u64(1);
    let w = generate_new(&mut rng, 0, &weights_without_rename());
    assert_eq!(Workload::new(), w);
}

#[test]
fn generation_with_one_kind_only_creates() {
    let mut rng = StdRng::seed_from_u64(7);
    let w = generate_new(&mut rng, 5, &OperationWeights::new(vec![(OperationKind::Create, 1)]));
    assert_eq!(5, w.ops.len());
    for (i, op) in w.ops.iter().enumerate() {
        match op {
            Operation::Create { path, mode } => {
                assert_eq!(format!("/{}", i), path.0);
                assert_eq!(4, mode.len());
            }
            _ => panic!("unexpected operation"),
        }
    }
}

#[test]
fn generated_sizes_are_interesting_numbers() {
    let interesting: Vec<u64> = vec![
        0, 1, 16, 32, 64, 100, 127, 128, 255, 256, 512, 1000, 1024, 4096, 32767, 32768, 65535, 65536, 100000,
    ];
    for seed in 0..10 {
        let mut rng = StdRng::seed_from_u64(seed);
        let w = generate_new(&mut rng, 80, &weights_without_rename());
        for op in w.ops.iter() {
            match op {
                Operation::Read { size, .. } => assert!(interesting.contains(size)),
                Operation::Write { src_offset, size, .. } => {
                    assert!(interesting.contains(src_offset));
                    assert!(interesting.contains(size));
                }
                _ => {}
            }
        }
    }
}

#[test]
fn name_generator_counts_up() {
    let mut names = NameGen::new();
    assert_eq!("0", names.gen_name());
    assert_eq!("1", names.gen_name());
    assert_eq!("2", names.gen_name());
}

#[test]
fn name_generator_skips_used_names() {
    let mut names = NameGen::with_used(vec!["0".to_owned(), "2".to_owned(), "foo".to_owned()]);
    assert_eq!("1", names.gen_name());
    assert_eq!("3", names.gen_name());
    assert_eq!("4", names.gen_name());
}

#[test]
fn mutations_replay_as_recorded() {
    let mut rng = StdRng::seed_from_u64(99);
    let mut w = generate_new(&mut rng, 20, &weights_without_rename());
    for i in 0..40usize {
        if i % 2 == 0 {
            let index = i % (w.ops.len() + 1);
            if let Some(next) = insert(&mut rng, &w, index, &weights_without_rename()) {
                assert_eq!(w.ops.len() + 1, next.ops.len());
                assert!(replays_as_recorded(&next));
                w = next;
            }
        } else if !w.ops.is_empty() {
            let index = i % w.ops.len();
            if let Some(next) = remove(&w, index) {
                assert_eq!(w.ops.len() - 1, next.ops.len());
                assert!(replays_as_recorded(&next));
                w = next;
            }
        }
    }
}

#[test]
fn mutate_once_keeps_workloads_replayable() {
    let mut rng = StdRng::seed_from_u64(5);
    let mut w = generate_new(&mut rng, 10, &weights_without_rename());
    let mut mutator = Mutator::new(
        StdRng::seed_from_u64(6),
        weights_without_rename(),
        MutationWeights::new(vec![(MutationKind::Insert, 60), (MutationKind::Remove, 40)]),
        30,
        4,
    );
    for _ in 0..50 {
        let before = w.clone();
        if mutator.mutate_once(&mut w) {
            assert!(replays_as_recorded(&w));
            assert!(w.ops.len() <= 30);
        } else {
            assert_eq!(before, w);
        }
    }
}

#[test]
fn mutation_counts_stay_in_range() {
    let mut mutator = Mutator::new(
        StdRng::seed_from_u64(3),
        weights_without_rename(),
        MutationWeights::new(vec![(MutationKind::Insert, 1)]),
        10,
        3,
    );
    let mut seen = [false; 4];
    for _ in 0..200 {
        let n = mutator.mutation_count();
        assert!((1..=3).contains(&n));
        seen[n as usize] = true;
    }
    assert!(seen[1] && seen[2] && seen[3]);
}

#[test]
fn kinds_of_operations() {
    use_kind(Operation::Create { path: diffuzzer::abstract_fs::pathname::PathName::new("/a"), mode: vec![] }, OperationKind::Create);
    use_kind(Operation::Close { des: diffuzzer::abstract_fs::node::FileDescriptorIndex(3) }, OperationKind::Close);
    use_kind(
        Operation::Write { des: diffuzzer::abstract_fs::node::FileDescriptorIndex(0), src_offset: 1, size: 2 },
        OperationKind::Write,
    );
}

fn use_kind(op: Operation, kind: OperationKind) {
    assert_eq!(kind, OperationKind::from(&op));
}

#[test]
fn picking_write_appends_a_write_and_read_a_read() {
    for (kind, want_write) in [(OperationKind::Write, true), (OperationKind::Read, false)] {
        let mut fs = AbstractFS::new();
        fs.create(diffuzzer::abstract_fs::pathname::PathName::new("/0"), vec![]).unwrap();
        let d = fs.open(diffuzzer::abstract_fs::pathname::PathName::new("/0")).unwrap();
        let weights = OperationWeights::new(vec![(kind, 100)]);
        let mut names = NameGen { next: 1, used: vec![] };
        let mut rng = StdRng::seed_from_u64(11);
        diffuzzer::abstract_fs::generator::append_one(&mut rng, &mut fs, &weights, &mut names);
        assert_eq!(3, fs.recording.ops.len());
        match &fs.recording.ops[2] {
            Operation::Write { des, .. } => assert!(want_write && *des == d),
            Operation::Read { des, .. } => assert!(!want_write && *des == d),
            _ => panic!("unexpected operation"),
        }
    }
}
