use diffuzzer::abstract_fs::mutator::{insert, remove};
use diffuzzer::abstract_fs::operation::{Operation, OperationKind, OperationWeights};
use diffuzzer::abstract_fs::pathname::PathName;
use diffuzzer::abstract_fs::workload::Workload;
use rand::rngs::StdRng;
use rand::SeedableRng;

#[test]
fn test_remove() {
    let w = Workload {
        ops: vec![
            Operation::MkDir {
                path: PathName::new("/foobar"),
                mode: vec![],
            },
            Operation::Create {
                path: PathName::new("/foobar/boo"),
                mode: vec![],
            },
            Operation::Create {
                path: PathName::new("/foobar/zoo"),
                mode: vec![],
            },
        ],
    };
    assert_eq!(None, remove(&w, 0));
    assert_eq!(
        Some(Workload {
            ops: vec![
                Operation::MkDir {
                    path: PathName::new("/foobar"),
                    mode: vec![],
                },
                Operation::Create {
                    path: PathName::new("/foobar/zoo"),
                    mode: vec![],
                },
            ],
        }),
        remove(&w, 1)
    );
}

#[test]
fn test_append() {
    let mut rng = StdRng::seed_from_u64(123);
    let w = Workload {
        ops: vec![
            Operation::MkDir {
                path: PathName::new("/foobar"),
                mode: vec![],
            },
            Operation::Create {
                path: PathName::new("/foobar/boo"),
                mode: vec![],
            },
            Operation::Remove {
                path: PathName::new("/foobar/boo"),
            },
        ],
    };
    assert_eq!(
        None,
        insert(
            &mut rng,
            &w,
            1,
            &OperationWeights::new(vec![(OperationKind::Remove, 100)])
        )
    );
    assert_eq!(
        Some(Workload {
            ops: vec![
                Operation::MkDir {
                    path: PathName::new("/foobar"),
                    mode: vec![],
                },
                Operation::Create {
                    path: PathName::new("/foobar/boo"),
                    mode: vec![],
                },
                Operation::Remove {
                    path: PathName::new("/foobar/boo"),
                },
                Operation::Remove {
                    path: PathName::new("/foobar"),
                },
            ],
        }),
        insert(
            &mut rng,
            &w,
            3,
            &OperationWeights::new(vec![(OperationKind::Remove, 100)])
        )
    );
}
