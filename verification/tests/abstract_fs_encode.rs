use diffuzzer::abstract_fs::flags::ModeFlag;
use diffuzzer::abstract_fs::node::FileDescriptorIndex;
use diffuzzer::abstract_fs::operation::Operation;
use diffuzzer::abstract_fs::pathname::PathName;
use diffuzzer::abstract_fs::workload::Workload;

    #[test]
    fn test_encode_c_empty() {
        let expected = r#"
#include "executor.h"

// no descriptors

void test_workload()
{
}
"#
        .trim();
        let actual = Workload { ops: vec![] }.encode_c();
        assert_eq!(expected, actual);
    }

    #[test]
    fn test_encode_c() {
        let expected = r#"
#include "executor.h"

int fd_0, fd_1;

void test_workload()
{
do_mkdir("/foo", 0);
do_create("/foo/bar", S_IRWXU | S_IRWXG | S_IROTH | S_IXOTH);
fd_0 = do_open("/foo/bar");
do_write(fd_0, 999, 1024);
do_close(fd_0);
do_hardlink("/foo/bar", "/baz");
fd_1 = do_open("/baz");
do_read(fd_1, 1024);
do_fsync(fd_1);
do_close(fd_1);
do_rename("/baz", "/gaz");
do_remove("/foo");
}
"#
        .trim();
        let mode = vec![
            ModeFlag::S_IRWXU,
            ModeFlag::S_IRWXG,
            ModeFlag::S_IROTH,
            ModeFlag::S_IXOTH,
        ];
        let actual = Workload {
            ops: vec![
                Operation::MkDir {
                    path: PathName::new("/foo"),
                    mode: vec![],
                },
                Operation::Create {
                    path: PathName::new("/foo/bar"),
                    mode: mode.clone(),
                },
                Operation::Open {
                    path: PathName::new("/foo/bar"),
                    des: FileDescriptorIndex(0),
                },
                Operation::Write {
                    des: FileDescriptorIndex(0),
                    src_offset: 999,
                    size: 1024,
                },
                Operation::Close {
                    des: FileDescriptorIndex(0),
                },
                Operation::Hardlink {
                    old_path: PathName::new("/foo/bar"),
                    new_path: PathName::new("/baz"),
                },
                Operation::Open {
                    path: PathName::new("/baz"),
                    des: FileDescriptorIndex(1),
                },
                Operation::Read {
                    des: FileDescriptorIndex(1),
                    size: 1024,
                },
                Operation::FSync {
                    des: FileDescriptorIndex(1),
                },
                Operation::Close {
                    des: FileDescriptorIndex(1),
                },
                Operation::Rename {
                    old_path: PathName::new("/baz"),
                    new_path: PathName::new("/gaz"),
                },
                Operation::Remove {
                    path: PathName::new("/foo"),
                },
            ],
        }
        .encode_c();
        assert_eq!(expected, actual);
    }
