use diffuzzer::abstract_fs::alive::AliveNodes;
use diffuzzer::abstract_fs::content::{Content, SourceSlice};
use diffuzzer::abstract_fs::fs::{AbstractFS, FsError};
use diffuzzer::abstract_fs::node::{FileDescriptorIndex, Node};
use diffuzzer::abstract_fs::operation::Operation;
use diffuzzer::abstract_fs::pathname::PathName;
use diffuzzer::abstract_fs::workload::Workload;


#[test]
fn test_init_root() {
    let fs = AbstractFS::new();
    assert_eq!(
        AliveNodes {
            dirs: vec![(AbstractFS::root_index(), PathName::new("/"))],
            files: vec![],
            symlinks: vec![],
        },
        fs.alive()
    )
}

#[test]
fn test_remove_root() {
    let mut fs = AbstractFS::new();
    assert_eq!(Err(FsError::RootRemovalForbidden), fs.remove(PathName::new("/")));
}

#[test]
fn test_mkdir() {
    let mut fs = AbstractFS::new();
    let foo = fs.mkdir(PathName::new("/foobar"), vec![]).unwrap();
    assert_eq!(Node::Dir(foo), fs.root().get("foobar").unwrap());
    assert_eq!(
        Workload {
            ops: vec![Operation::MkDir {
                path: PathName::new("/foobar"),
                mode: vec![],
            }],
        },
        fs.recording
    );
    assert_eq!(
        AliveNodes {
            dirs: vec![
                (AbstractFS::root_index(), PathName::new("/")),
                (foo, PathName::new("/foobar"))
            ],
            files: vec![],
            symlinks: vec![],
        },
        fs.alive()
    );
    test_replay(fs.recording);
}

#[test]
fn test_mkdir_name_exists() {
    let mut fs = AbstractFS::new();
    fs.mkdir(PathName::new("/foobar"), vec![]).unwrap();
    assert_eq!(
        Err(FsError::NameAlreadyExists(PathName::new("/foobar"))),
        fs.mkdir(PathName::new("/foobar"), vec![])
    );
}

#[test]
fn test_create() {
    let mut fs = AbstractFS::new();
    let foo = fs.create(PathName::new("/foobar"), vec![]).unwrap();
    assert_eq!(Node::File(foo), fs.root().get("foobar").unwrap());
    assert_eq!(
        AliveNodes {
            dirs: vec![(AbstractFS::root_index(), PathName::new("/"))],
            files: vec![(foo, PathName::new("/foobar"))],
            symlinks: vec![],
        },
        fs.alive()
    );
    assert_eq!(
        Workload {
            ops: vec![Operation::Create {
                path: PathName::new("/foobar"),
                mode: vec![],
            }]
        },
        fs.recording
    );
    test_replay(fs.recording);
}

#[test]
fn test_create_name_exists() {
    let mut fs = AbstractFS::new();
    fs.create(PathName::new("/foobar"), vec![]).unwrap();
    assert_eq!(
        Err(FsError::NameAlreadyExists(PathName::new("/foobar"))),
        fs.create(PathName::new("/foobar"), vec![])
    );
}

#[test]
fn test_remove_file() {
    let mut fs = AbstractFS::new();
    let foo = fs.create(PathName::new("/foobar"), vec![]).unwrap();
    let boo = fs.create(PathName::new("/boo"), vec![]).unwrap();

    assert_eq!(
        AliveNodes {
            dirs: vec![(AbstractFS::root_index(), PathName::new("/"))],
            files: vec![(foo, PathName::new("/foobar")), (boo, PathName::new("/boo"))],
            symlinks: vec![],
        },
        fs.alive()
    );

    fs.remove(PathName::new("/foobar")).unwrap();

    assert_eq!(1, fs.root().len());
    assert_eq!(Node::File(boo), fs.root().get("boo").unwrap());
    assert_eq!(
        AliveNodes {
            dirs: vec![(AbstractFS::root_index(), PathName::new("/"))],
            files: vec![(boo, PathName::new("/boo"))],
            symlinks: vec![],
        },
        fs.alive()
    );
    assert_eq!(
        Workload {
            ops: vec![
                Operation::Create {
                    path: PathName::new("/foobar"),
                    mode: vec![],
                },
                Operation::Create {
                    path: PathName::new("/boo"),
                    mode: vec![],
                },
                Operation::Remove {
                    path: PathName::new("/foobar"),
                }
            ],
        },
        fs.recording
    );
    test_replay(fs.recording);
}

#[test]
fn test_hardlink() {
    let mut fs = AbstractFS::new();
    let foo = fs.create(PathName::new("/foo"), vec![]).unwrap();
    let bar = fs.mkdir(PathName::new("/bar"), vec![]).unwrap();
    let boo = fs.hardlink(PathName::new("/foo"), PathName::new("/bar/boo")).unwrap();

    assert_eq!(foo, boo);
    assert_eq!(
        AliveNodes {
            dirs: vec![(AbstractFS::root_index(), PathName::new("/")), (bar, PathName::new("/bar"))],
            files: vec![(boo, PathName::new("/bar/boo")), (foo, PathName::new("/foo"))],
            symlinks: vec![],
        },
        fs.alive()
    );

    let root = fs.root();
    let bar_dir = fs.dir(&bar);
    assert_eq!(2, root.len());
    assert_eq!(1, bar_dir.len());
    assert_eq!(
        root.get("foo").unwrap(),
        bar_dir.get("boo").unwrap()
    );

    assert_eq!(
        Workload {
            ops: vec![
                Operation::Create {
                    path: PathName::new("/foo"),
                    mode: vec![],
                },
                Operation::MkDir {
                    path: PathName::new("/bar"),
                    mode: vec![],
                },
                Operation::Hardlink {
                    old_path: PathName::new("/foo"),
                    new_path: PathName::new("/bar/boo"),
                }
            ],
        },
        fs.recording
    );
    test_replay(fs.recording);
}

#[test]
fn test_remove_hardlink() {
    let mut fs = AbstractFS::new();
    let foo = fs.create(PathName::new("/foo"), vec![]).unwrap();
    fs.hardlink(PathName::new("/foo"), PathName::new("/bar")).unwrap();
    fs.remove(PathName::new("/bar")).unwrap();

    assert_eq!(
        AliveNodes {
            dirs: vec![(AbstractFS::root_index(), PathName::new("/"))],
            files: vec![(foo, PathName::new("/foo"))],
            symlinks: vec![],
        },
        fs.alive()
    );

    assert_eq!(1, fs.root().len());

    assert_eq!(
        Workload {
            ops: vec![
                Operation::Create {
                    path: PathName::new("/foo"),
                    mode: vec![],
                },
                Operation::Hardlink {
                    old_path: PathName::new("/foo"),
                    new_path: PathName::new("/bar"),
                },
                Operation::Remove {
                    path: PathName::new("/bar"),
                }
            ],
        },
        fs.recording
    );
    test_replay(fs.recording);
}

#[test]
fn test_remove_hardlink_dir() {
    let mut fs = AbstractFS::new();
    let root = AbstractFS::root_index();
    let zero = fs.create(PathName::new("/0"), vec![]).unwrap();
    let one = fs.mkdir(PathName::new("/1"), vec![]).unwrap();
    let two = fs.mkdir(PathName::new("/1/2"), vec![]).unwrap();
    fs.hardlink(PathName::new("/0"), PathName::new("/1/2/3")).unwrap();
    assert_eq!(
        Ok((vec![root, one, two], zero)),
        fs.resolve_file(PathName::new("/1/2/3"))
    );
    fs.remove(PathName::new("/1")).unwrap();
    assert_eq!(
        Err(FsError::NotFound(PathName::new("/1"))),
        fs.resolve_file(PathName::new("/1/2/3"))
    );
    assert_eq!(Ok((vec![root], zero)), fs.resolve_file(PathName::new("/0")));
}

#[test]
fn test_hardlink_name_exists() {
    let mut fs = AbstractFS::new();
    fs.create(PathName::new("/foo"), vec![]).unwrap();
    fs.create(PathName::new("/bar"), vec![]).unwrap();
    assert_eq!(
        Err(FsError::NameAlreadyExists(PathName::new("/foo"))),
        fs.hardlink(PathName::new("/bar"), PathName::new("/foo"))
    );
}

#[test]
fn test_remove_dir() {
    let mut fs = AbstractFS::new();
    let foo = fs.mkdir(PathName::new("/foobar"), vec![]).unwrap();
    let boo = fs.mkdir(PathName::new("/boo"), vec![]).unwrap();

    assert_eq!(
        AliveNodes {
            dirs: vec![
                (AbstractFS::root_index(), PathName::new("/")),
                (foo, PathName::new("/foobar")),
                (boo, PathName::new("/boo")),
            ],
            files: vec![],
            symlinks: vec![],
        },
        fs.alive()
    );

    fs.remove(PathName::new("/foobar")).unwrap();

    assert_eq!(1, fs.root().len());
    assert_eq!(Node::Dir(boo), fs.root().get("boo").unwrap());
    assert_eq!(
        AliveNodes {
            dirs: vec![(AbstractFS::root_index(), PathName::new("/")), (boo, PathName::new("/boo"))],
            files: vec![],
            symlinks: vec![],
        },
        fs.alive()
    );
    assert_eq!(
        Workload {
            ops: vec![
                Operation::MkDir {
                    path: PathName::new("/foobar"),
                    mode: vec![],
                },
                Operation::MkDir {
                    path: PathName::new("/boo"),
                    mode: vec![],
                },
                Operation::Remove {
                    path: PathName::new("/foobar"),
                }
            ],
        },
        fs.recording
    );
    test_replay(fs.recording);
}

#[test]
fn test_remove_twice() {
    let mut fs = AbstractFS::new();
    fs.create(PathName::new("/0"), vec![]).unwrap();
    fs.remove(PathName::new("/0")).unwrap();
    assert_eq!(Err(FsError::NotFound(PathName::new("/0"))), fs.remove(PathName::new("/0")))
}

#[test]
fn test_rename_file() {
    let mut fs = AbstractFS::new();
    let foo = fs.create(PathName::new("/foo"), vec![]).unwrap();
    fs.rename(PathName::new("/foo"), PathName::new("/bar")).unwrap();
    assert_eq!(
        AliveNodes {
            dirs: vec![(AbstractFS::root_index(), PathName::new("/"))],
            files: vec![(foo, PathName::new("/bar"))],
            symlinks: vec![],
        },
        fs.alive()
    );
    assert_eq!(
        Workload {
            ops: vec![
                Operation::Create {
                    path: PathName::new("/foo"),
                    mode: vec![]
                },
                Operation::Rename {
                    old_path: PathName::new("/foo"),
                    new_path: PathName::new("/bar"),
                }
            ]
        },
        fs.recording
    );
    test_replay(fs.recording);
}

#[test]
fn test_rename_dir() {
    let mut fs = AbstractFS::new();
    let foo = fs.mkdir(PathName::new("/foo"), vec![]).unwrap();
    fs.rename(PathName::new("/foo"), PathName::new("/bar")).unwrap();
    assert_eq!(
        AliveNodes {
            dirs: vec![(AbstractFS::root_index(), PathName::new("/")), (foo, PathName::new("/bar"))],
            files: vec![],
            symlinks: vec![],
        },
        fs.alive()
    );
    assert_eq!(
        Workload {
            ops: vec![
                Operation::MkDir {
                    path: PathName::new("/foo"),
                    mode: vec![]
                },
                Operation::Rename {
                    old_path: PathName::new("/foo"),
                    new_path: PathName::new("/bar"),
                }
            ]
        },
        fs.recording
    );
    test_replay(fs.recording);
}

#[test]
fn test_rename_dir_non_empty() {
    let mut fs = AbstractFS::new();
    fs.mkdir(PathName::new("/foo"), vec![]).unwrap();
    fs.mkdir(PathName::new("/bar"), vec![]).unwrap();
    fs.create(PathName::new("/bar/baz"), vec![]).unwrap();
    assert_eq!(
        Err(FsError::DirNotEmpty(PathName::new("/bar"))),
        fs.rename(PathName::new("/foo"), PathName::new("/bar"))
    );
    fs.remove(PathName::new("/bar/baz")).unwrap();
    fs.rename(PathName::new("/foo"), PathName::new("/bar")).unwrap();
}

#[test]
fn test_rename_to_subdirectory() {
    let mut fs = AbstractFS::new();
    fs.mkdir(PathName::new("/0"), vec![]).unwrap();
    assert_eq!(
        Err(FsError::RenameToSubdirectoryError(
            PathName::new("/0"),
            PathName::new("/0/1")
        )),
        fs.rename(PathName::new("/0"), PathName::new("/0/1"))
    );
}

#[test]
fn test_rename_to_subdirectory_symlink() {
    let mut fs = AbstractFS::new();
    fs.mkdir(PathName::new("/0"), vec![]).unwrap();
    fs.symlink(PathName::new("/0"), PathName::new("/symlink")).unwrap();
    assert_eq!(
        Err(FsError::RenameToSubdirectoryError(
            PathName::new("/0"),
            PathName::new("/symlink/1")
        )),
        fs.rename(PathName::new("/0"), PathName::new("/symlink/1"))
    );
}

#[test]
fn test_open_close_file() {
    let mut fs = AbstractFS::new();
    let foo = fs.create(PathName::new("/foo"), vec![]).unwrap();
    let des = fs.open(PathName::new("/foo")).unwrap();
    let file = fs.file(&foo);
    assert_eq!(Some(des), file.descriptor);
    fs.close(des).unwrap();
    let file = fs.file(&foo);
    assert_eq!(None, file.descriptor);
    assert_eq!(
        Workload {
            ops: vec![
                Operation::Create {
                    path: PathName::new("/foo"),
                    mode: vec![]
                },
                Operation::Open {
                    path: PathName::new("/foo"),
                    des
                },
                Operation::Close { des }
            ]
        },
        fs.recording
    );
    test_replay(fs.recording);
}

#[test]
fn test_close_bad_descriptor() {
    let mut fs = AbstractFS::new();
    let des = FileDescriptorIndex(0);
    assert_eq!(Err(FsError::BadDescriptor(des, 0)), fs.close(des));
}

#[test]
fn test_close_twice() {
    let mut fs = AbstractFS::new();
    fs.create(PathName::new("/foo"), vec![]).unwrap();
    let des = fs.open(PathName::new("/foo")).unwrap();
    fs.close(des).unwrap();
    assert_eq!(Err(FsError::DescriptorWasClosed(des)), fs.close(des));
}

#[test]
fn test_open_twice() {
    let mut fs = AbstractFS::new();
    fs.create(PathName::new("/foo"), vec![]).unwrap();
    fs.open(PathName::new("/foo")).unwrap();
    assert_eq!(
        Err(FsError::FileAlreadyOpened(PathName::new("/foo"))),
        fs.open(PathName::new("/foo"))
    );
}

#[test]
fn test_read_bad_descriptor() {
    let mut fs = AbstractFS::new();
    let des = FileDescriptorIndex(0);
    assert_eq!(Err(FsError::BadDescriptor(des, 0)), fs.read(des, 0));
}

#[test]
fn test_read_closed() {
    let mut fs = AbstractFS::new();
    fs.create(PathName::new("/foo"), vec![]).unwrap();
    let des = fs.open(PathName::new("/foo")).unwrap();
    fs.close(des).unwrap();
    assert_eq!(Err(FsError::DescriptorWasClosed(des)), fs.read(des, 0));
}

#[test]
fn test_read_empty() {
    let mut fs = AbstractFS::new();
    fs.create(PathName::new("/foo"), vec![]).unwrap();
    let des = fs.open(PathName::new("/foo")).unwrap();
    let content = fs.read(des, 1024).unwrap();
    fs.close(des).unwrap();

    assert_eq!(Content::new(), content);
    assert_eq!(
        Workload {
            ops: vec![
                Operation::Create {
                    path: PathName::new("/foo"),
                    mode: vec![]
                },
                Operation::Open {
                    path: PathName::new("/foo"),
                    des
                },
                Operation::Read { des, size: 1024 },
                Operation::Close { des },
            ]
        },
        fs.recording
    );
    test_replay(fs.recording);
}

#[test]
fn test_write_bad_descriptor() {
    let mut fs = AbstractFS::new();
    let des = FileDescriptorIndex(0);
    assert_eq!(Err(FsError::BadDescriptor(des, 0)), fs.write(des, 0, 0));
}

#[test]
fn test_write_closed() {
    let mut fs = AbstractFS::new();
    fs.create(PathName::new("/foo"), vec![]).unwrap();
    let des = fs.open(PathName::new("/foo")).unwrap();
    fs.close(des).unwrap();
    assert_eq!(Err(FsError::DescriptorWasClosed(des)), fs.write(des, 0, 0));
}

#[test]
fn test_write() {
    let mut fs = AbstractFS::new();
    let foo = fs.create(PathName::new("/foo"), vec![]).unwrap();
    let des = fs.open(PathName::new("/foo")).unwrap();
    fs.write(des, 999, 1024).unwrap();
    fs.close(des).unwrap();

    assert_eq!(
        vec![SourceSlice {
            from: 999,
            to: 999 + 1024 - 1
        }],
        fs.file(&foo).content.slices()
    );

    assert_eq!(
        Workload {
            ops: vec![
                Operation::Create {
                    path: PathName::new("/foo"),
                    mode: vec![]
                },
                Operation::Open {
                    path: PathName::new("/foo"),
                    des
                },
                Operation::Write {
                    des,
                    src_offset: 999,
                    size: 1024
                },
                Operation::Close { des },
            ]
        },
        fs.recording
    );
    test_replay(fs.recording);
}

#[test]
fn test_write_rewrite() {
    let mut fs = AbstractFS::new();
    let foo = fs.create(PathName::new("/foo"), vec![]).unwrap();
    let des_1 = fs.open(PathName::new("/foo")).unwrap();
    fs.write(des_1, 13, 100).unwrap();
    fs.close(des_1).unwrap();
    let des_2 = fs.open(PathName::new("/foo")).unwrap();
    fs.write(des_2, 42, 55).unwrap();
    fs.close(des_2).unwrap();

    assert_eq!(
        vec![
            SourceSlice {
                from: 42,
                to: 42 + 55 - 1
            },
            SourceSlice {
                from: 13 + 55,
                to: 13 + 100 - 1
            }
        ],
        fs.file(&foo).content.slices()
    );

    assert_eq!(
        Workload {
            ops: vec![
                Operation::Create {
                    path: PathName::new("/foo"),
                    mode: vec![]
                },
                Operation::Open {
                    path: PathName::new("/foo"),
                    des: des_1
                },
                Operation::Write {
                    des: des_1,
                    src_offset: 13,
                    size: 100
                },
                Operation::Close { des: des_1 },
                Operation::Open {
                    path: PathName::new("/foo"),
                    des: des_2
                },
                Operation::Write {
                    des: des_2,
                    src_offset: 42,
                    size: 55
                },
                Operation::Close { des: des_2 },
            ]
        },
        fs.recording
    );
    test_replay(fs.recording);
}

#[test]
fn test_read() {
    let mut fs = AbstractFS::new();
    fs.create(PathName::new("/foo"), vec![]).unwrap();
    let des_write = fs.open(PathName::new("/foo")).unwrap();
    fs.write(des_write, 13, 100).unwrap();
    fs.write(des_write, 42, 55).unwrap();
    fs.close(des_write).unwrap();
    let des_read = fs.open(PathName::new("/foo")).unwrap();
    assert_eq!(
        Vec::<SourceSlice>::new(),
        fs.read(des_read, 0).unwrap().slices()
    );
    assert_eq!(
        vec![SourceSlice {
            from: 13,
            to: 13 + 10 - 1
        }],
        fs.read(des_read, 10).unwrap().slices()
    );
    assert_eq!(
        vec![SourceSlice {
            from: (13 + 10),
            to: (13 + 10) + 10 - 1
        }],
        fs.read(des_read, 10).unwrap().slices()
    );
    assert_eq!(
        vec![
            SourceSlice {
                from: (13 + 20),
                to: 13 + 100 - 1
            },
            SourceSlice {
                from: 42,
                to: 42 + 55 - 1
            },
        ],
        fs.read(des_read, 1024).unwrap().slices()
    );
    fs.close(des_read).unwrap();

    assert_eq!(
        Workload {
            ops: vec![
                Operation::Create {
                    path: PathName::new("/foo"),
                    mode: vec![]
                },
                Operation::Open {
                    path: PathName::new("/foo"),
                    des: des_write
                },
                Operation::Write {
                    des: des_write,
                    src_offset: 13,
                    size: 100
                },
                Operation::Write {
                    des: des_write,
                    src_offset: 42,
                    size: 55
                },
                Operation::Close { des: des_write },
                Operation::Open {
                    path: PathName::new("/foo"),
                    des: des_read
                },
                Operation::Read {
                    des: des_read,
                    size: 0
                },
                Operation::Read {
                    des: des_read,
                    size: 10
                },
                Operation::Read {
                    des: des_read,
                    size: 10
                },
                Operation::Read {
                    des: des_read,
                    size: 1024
                },
                Operation::Close { des: des_read },
            ]
        },
        fs.recording
    );
    test_replay(fs.recording);
}

#[test]
fn test_fsync_bad_descriptor() {
    let mut fs = AbstractFS::new();
    let des = FileDescriptorIndex(0);
    assert_eq!(Err(FsError::BadDescriptor(des, 0)), fs.fsync(des));
}

#[test]
fn test_fsync_closed() {
    let mut fs = AbstractFS::new();
    fs.create(PathName::new("/foo"), vec![]).unwrap();
    let des = fs.open(PathName::new("/foo")).unwrap();
    fs.close(des).unwrap();
    assert_eq!(Err(FsError::DescriptorWasClosed(des)), fs.fsync(des));
}

#[test]
fn test_fsync() {
    let mut fs = AbstractFS::new();
    fs.create(PathName::new("/foo"), vec![]).unwrap();
    let des = fs.open(PathName::new("/foo")).unwrap();
    fs.fsync(des).unwrap();
    fs.close(des).unwrap();

    assert_eq!(
        Workload {
            ops: vec![
                Operation::Create {
                    path: PathName::new("/foo"),
                    mode: vec![]
                },
                Operation::Open {
                    path: PathName::new("/foo"),
                    des
                },
                Operation::FSync { des },
                Operation::Close { des },
            ]
        },
        fs.recording
    );
    test_replay(fs.recording);
}

#[test]
fn test_symlink() {
    let mut fs = AbstractFS::new();
    let foo = fs.mkdir(PathName::new("/foo"), vec![]).unwrap();
    let bar = fs.create(PathName::new("/foo/bar"), vec![]).unwrap();
    fs.symlink(PathName::new("/foo"), PathName::new("/baz")).unwrap();
    assert_eq!(
        AliveNodes {
            dirs: vec![
                (AbstractFS::root_index(), PathName::new("/")),
                (foo, PathName::new("/baz")),
                (foo, PathName::new("/foo"))
            ],
            files: vec![(bar, PathName::new("/baz/bar")), (bar, PathName::new("/foo/bar"))],
            symlinks: vec![PathName::new("/baz")],
        },
        fs.alive()
    );
    assert_eq!(
        Workload {
            ops: vec![
                Operation::MkDir {
                    path: PathName::new("/foo"),
                    mode: vec![]
                },
                Operation::Create {
                    path: PathName::new("/foo/bar"),
                    mode: vec![]
                },
                Operation::Symlink {
                    target: PathName::new("/foo"),
                    linkpath: PathName::new("/baz"),
                }
            ]
        },
        fs.recording
    );
    test_replay(fs.recording);
}

#[test]
fn test_symlink_name_exists() {
    let mut fs = AbstractFS::new();
    fs.create(PathName::new("/foo"), vec![]).unwrap();
    fs.create(PathName::new("/bar"), vec![]).unwrap();
    assert_eq!(
        Err(FsError::NameAlreadyExists(PathName::new("/bar"))),
        fs.symlink(PathName::new("/foo"), PathName::new("/bar")),
    );
}

#[test]
fn test_symlink_recursion() {
    let mut fs = AbstractFS::new();
    let foo = fs.mkdir(PathName::new("/foo"), vec![]).unwrap();
    fs.symlink(PathName::new("/foo"), PathName::new("/foo/bar")).unwrap();
    assert_eq!(
        AliveNodes {
            dirs: vec![
                (AbstractFS::root_index(), PathName::new("/")),
                (foo, PathName::new("/foo")),
                (foo, PathName::new("/foo/bar")),
                (foo, PathName::new("/foo/bar/bar")),
                (foo, PathName::new("/foo/bar/bar/bar"))
            ],
            files: vec![],
            symlinks: vec![
                PathName::new("/foo/bar"),
                PathName::new("/foo/bar/bar"),
                PathName::new("/foo/bar/bar/bar"),
            ]
        },
        fs.alive()
    );
}

#[test]
fn test_symlink_to_symlink() {
    let mut fs = AbstractFS::new();
    let foo = fs.create(PathName::new("/foo"), vec![]).unwrap();
    fs.symlink(PathName::new("/foo"), PathName::new("/bar")).unwrap();
    fs.symlink(PathName::new("/bar"), PathName::new("/boo")).unwrap();
    assert_eq!(
        AliveNodes {
            dirs: vec![(AbstractFS::root_index(), PathName::new("/")),],
            files: vec![
                (foo, PathName::new("/bar")),
                (foo, PathName::new("/boo")),
                (foo, PathName::new("/foo")),
            ],
            symlinks: vec![PathName::new("/bar"), PathName::new("/boo")]
        },
        fs.alive()
    );
}

#[test]
fn test_symlink_to_symlink_recursive() {
    let mut fs = AbstractFS::new();
    fs.symlink(PathName::new("/foo"), PathName::new("/bar")).unwrap();
    fs.symlink(PathName::new("/bar"), PathName::new("/foo")).unwrap();
    assert_eq!(
        AliveNodes {
            dirs: vec![(AbstractFS::root_index(), PathName::new("/")),],
            files: vec![],
            symlinks: vec![PathName::new("/bar"), PathName::new("/foo")]
        },
        fs.alive()
    );
}

#[test]
fn test_remove_symlink() {
    let mut fs = AbstractFS::new();
    let foo = fs.create(PathName::new("/foo"), vec![]).unwrap();
    fs.symlink(PathName::new("/foo"), PathName::new("/bar")).unwrap();
    fs.remove(PathName::new("/bar")).unwrap();
    assert_eq!(
        AliveNodes {
            dirs: vec![(AbstractFS::root_index(), PathName::new("/"))],
            files: vec![(foo, PathName::new("/foo"))],
            symlinks: vec![],
        },
        fs.alive()
    );
    test_replay(fs.recording);
}

#[test]
fn test_rename_symlink() {
    let mut fs = AbstractFS::new();
    let foo = fs.create(PathName::new("/foo"), vec![]).unwrap();
    fs.symlink(PathName::new("/foo"), PathName::new("/bar")).unwrap();
    fs.rename(PathName::new("/bar"), PathName::new("/baz")).unwrap();
    assert_eq!(
        AliveNodes {
            dirs: vec![(AbstractFS::root_index(), PathName::new("/"))],
            files: vec![(foo, PathName::new("/baz")), (foo, PathName::new("/foo"))],
            symlinks: vec![PathName::new("/baz")],
        },
        fs.alive()
    );
    test_replay(fs.recording);
}

#[test]
fn test_rename_symlink_overwrite() {
    let mut fs = AbstractFS::new();
    let foo = fs.create(PathName::new("/foo"), vec![]).unwrap();
    fs.symlink(PathName::new("/foo"), PathName::new("/bar")).unwrap();
    fs.rename(PathName::new("/foo"), PathName::new("/bar")).unwrap();
    assert_eq!(
        AliveNodes {
            dirs: vec![(AbstractFS::root_index(), PathName::new("/"))],
            files: vec![(foo, PathName::new("/bar"))],
            symlinks: vec![],
        },
        fs.alive()
    );
    test_replay(fs.recording);
}

#[test]
fn test_resolve_node() {
    let mut fs = AbstractFS::new();
    let root = AbstractFS::root_index();
    assert_eq!(
        (vec![], Node::Dir(root)),
        fs.resolve_node(PathName::new("/"), true).unwrap()
    );
    let foo = fs.mkdir(PathName::new("/foo"), vec![]).unwrap();
    let bar = fs.mkdir(PathName::new("/foo/bar"), vec![]).unwrap();
    let boo = fs.create(PathName::new("/foo/bar/boo"), vec![]).unwrap();
    assert_eq!(
        Err(FsError::InvalidPath(PathName::new(""))),
        fs.resolve_node(PathName::new(""), true)
    );
    assert_eq!(
        Err(FsError::InvalidPath(PathName::new("foo"))),
        fs.resolve_node(PathName::new("foo"), true)
    );
    assert_eq!(
        Err(FsError::InvalidPath(PathName::new("/foo/"))),
        fs.resolve_node(PathName::new("/foo/"), true)
    );
    assert_eq!(
        (vec![root], Node::Dir(foo)),
        fs.resolve_node(PathName::new("/foo"), true).unwrap()
    );
    assert_eq!(
        (vec![root, foo], Node::Dir(bar)),
        fs.resolve_node(PathName::new("/foo/bar"), true).unwrap()
    );
    assert_eq!(
        (vec![root, foo, bar], Node::File(boo)),
        fs.resolve_node(PathName::new("/foo/bar/boo"), true).unwrap()
    );
    test_replay(fs.recording);
}

#[test]
fn test_resolve_node_symlinks() {
    let mut fs = AbstractFS::new();
    let root = AbstractFS::root_index();
    let foo = fs.mkdir(PathName::new("/foo"), vec![]).unwrap();
    let bar = fs.create(PathName::new("/foo/bar"), vec![]).unwrap();
    let foos = fs.symlink(PathName::new("/foo"), PathName::new("/foos")).unwrap();
    assert_eq!(
        (vec![root], Node::Dir(foo)),
        fs.resolve_node(PathName::new("/foo"), true).unwrap()
    );
    assert_eq!(
        (vec![root, root], Node::Dir(foo)),
        fs.resolve_node(PathName::new("/foos"), true).unwrap()
    );
    assert_eq!(
        (vec![root], Node::Symlink(foos)),
        fs.resolve_node(PathName::new("/foos"), false).unwrap()
    );
    assert_eq!(
        (vec![root, foo], Node::File(bar)),
        fs.resolve_node(PathName::new("/foo/bar"), true).unwrap()
    );
    assert_eq!(
        (vec![root, root, foo], Node::File(bar)),
        fs.resolve_node(PathName::new("/foos/bar"), true).unwrap()
    );
    // Always follow symlinks in dirname part of the path.
    assert_eq!(
        (vec![root, root, foo], Node::File(bar)),
        fs.resolve_node(PathName::new("/foos/bar"), false).unwrap()
    );
    test_replay(fs.recording);
}

fn test_replay(workload: Workload) {
    let mut fs = AbstractFS::new();
    fs.replay(&workload).unwrap();
    assert_eq!(workload, fs.recording);
}


#[test]
fn names_in_a_directory_stay_distinct() {
    let mut fs = AbstractFS::new();
    fs.mkdir(PathName::new("/a"), vec![]).unwrap();
    fs.create(PathName::new("/f"), vec![]).unwrap();
    assert!(fs.create(PathName::new("/a"), vec![]).is_err());
    assert!(fs.mkdir(PathName::new("/f"), vec![]).is_err());
    fs.rename(PathName::new("/f"), PathName::new("/g")).unwrap();
    fs.hardlink(PathName::new("/g"), PathName::new("/a/g")).unwrap();
    let names: Vec<String> = fs.root().children.iter().map(|(n, _)| n.clone()).collect();
    let mut sorted = names.clone();
    sorted.sort();
    sorted.dedup();
    assert_eq!(names.len(), sorted.len());
    assert_eq!(2, names.len());
}

#[test]
fn content_read_gives_back_the_write() {
    let mut c = Content::new();
    c.write(100, 0, 10).unwrap();
    c.write(500, 4, 3).unwrap();
    assert_eq!(
        vec![SourceSlice { from: 500, to: 502 }],
        c.read(4, 3).unwrap().slices()
    );
    assert_eq!(
        vec![
            SourceSlice { from: 100, to: 103 },
            SourceSlice { from: 500, to: 502 },
            SourceSlice { from: 107, to: 109 }
        ],
        c.slices()
    );
    assert_eq!(10, c.size());
    assert!(c.read(11, 1).is_err());
    assert!(c.write(0, 11, 1).is_err());
    assert!(c.write(u64::MAX, 0, 2).is_err());
}

#[test]
fn rename_onto_itself_leaves_the_file() {
    let mut fs = AbstractFS::new();
    let foo = fs.create(PathName::new("/foo"), vec![]).unwrap();
    assert_eq!(Ok(Node::File(foo)), fs.rename(PathName::new("/foo"), PathName::new("/foo")));
    assert_eq!(Ok((vec![AbstractFS::root_index()], foo)), fs.resolve_file(PathName::new("/foo")));
    assert_eq!(2, fs.recording.ops.len());
    let d = fs.mkdir(PathName::new("/d"), vec![]).unwrap();
    fs.create(PathName::new("/d/x"), vec![]).unwrap();
    assert_eq!(Ok(Node::Dir(d)), fs.rename(PathName::new("/d"), PathName::new("/d")));
    assert_eq!(5, fs.recording.ops.len());
}

#[test]
fn symlink_loop_inside_a_path_is_reported() {
    let mut fs = AbstractFS::new();
    fs.symlink(PathName::new("/a/x"), PathName::new("/a")).unwrap();
    match fs.resolve_node_rec(PathName::new("/a/b"), true, vec![]) {
        Err(FsError::LoopExists(_)) => {}
        other => panic!("unexpected: {:?}", other),
    }
    assert!(matches!(fs.create(PathName::new("/a/b"), vec![]), Err(FsError::LoopExists(_))));
}

#[test]
fn long_symlink_chains_still_resolve() {
    let mut fs = AbstractFS::new();
    let f = fs.create(PathName::new("/f"), vec![]).unwrap();
    fs.symlink(PathName::new("/f"), PathName::new("/s0")).unwrap();
    for i in 1..6 {
        fs.symlink(PathName::new(&format!("/s{}", i - 1)), PathName::new(&format!("/s{}", i))).unwrap();
    }
    assert_eq!(f, fs.resolve_file(PathName::new("/s5")).unwrap().1);
}

#[test]
fn replay_stops_at_the_first_error_and_keeps_what_went_before() {
    let w = Workload {
        ops: vec![
            Operation::MkDir { path: PathName::new("/a"), mode: vec![] },
            Operation::MkDir { path: PathName::new("/a"), mode: vec![] },
            Operation::MkDir { path: PathName::new("/b"), mode: vec![] },
        ],
    };
    let mut fs = AbstractFS::new();
    assert!(matches!(fs.replay(&w), Err(FsError::NameAlreadyExists(_))));
    assert_eq!(1, fs.recording.ops.len());
    assert_eq!(2, fs.alive().dirs.len());
}

#[test]
fn recording_after_calls_replays_to_the_same_state() {
    let mut fs0 = AbstractFS::new();
    fs0.mkdir(PathName::new("/d"), vec![]).unwrap();
    let _ = fs0.mkdir(PathName::new("/d"), vec![]);
    fs0.create(PathName::new("/d/f"), vec![]).unwrap();
    let _ = fs0.remove(PathName::new("/nope"));
    fs0.symlink(PathName::new("/d"), PathName::new("/l")).unwrap();
    let w = fs0.recording.clone();
    let mut fs = AbstractFS::new();
    assert_eq!(Ok(()), fs.replay(&w));
    assert_eq!(w, fs.recording);
    assert_eq!(fs0.alive(), fs.alive());
}
