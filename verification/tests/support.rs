use base64::prelude::BASE64_URL_SAFE;
use base64::Engine;
use twox_hash::XxHash3_128;

use diffuzzer::abstract_fs::workload::name_from_bytes;
use diffuzzer::command::{exit_kind, local_command, CommandWrapper, ExitKind, RemoteCommandInterface};
use diffuzzer::config::QemuConfig;
use diffuzzer::fuzzing::observer::dash::{dash_command, parse_dash_hash};
use diffuzzer::fuzzing::broker::{BlackBoxStats, GreyBoxStats};
use diffuzzer::fuzzing::greybox::feedback::CoverageType;
use diffuzzer::path::{LocalPath, RemotePath};
use diffuzzer::supervisor::{ChannelClosed, ChannelPoll, EventDrain, NativeSupervisor};
use diffuzzer::filesystems::{filesystem_by_name, filesystems_available};
use diffuzzer::mount::{filesystems, FileSystem};

fn qemu_config() -> QemuConfig {
    QemuConfig {
        launch_script: "./launch.sh".to_owned(),
        ssh_private_key_path: "/keys/id".to_owned(),
        os_image: "./image.qcow2".to_owned(),
        boot_wait_time: 10,
        log_path: "./qemu.log".to_owned(),
        direct_boot: false,
        kernel_image_path: String::new(),
        root_disk_partition: String::new(),
    }
}

fn args_of(c: &CommandWrapper) -> Vec<&str> {
    c.args.iter().map(|a| a.as_str()).collect()
}

#[test]
fn test_case_names_hash_the_bytes() {
    let bytes = b"some workload bytes";
    let expected = BASE64_URL_SAFE.encode(XxHash3_128::oneshot(bytes).to_le_bytes());
    assert_eq!(expected, name_from_bytes(bytes));
    assert_ne!(name_from_bytes(b"a"), name_from_bytes(b"b"));
    assert_eq!(24, name_from_bytes(b"").len());
}

#[test]
fn exit_codes() {
    assert_eq!(ExitKind::Success, exit_kind(Some(0)));
    assert_eq!(ExitKind::TimedOut, exit_kind(Some(124)));
    assert_eq!(ExitKind::Failed, exit_kind(Some(1)));
    assert_eq!(ExitKind::Failed, exit_kind(Some(-1)));
    assert_eq!(ExitKind::Killed, exit_kind(None));
}

#[test]
fn local_commands_with_and_without_time_limit() {
    let mut make = CommandWrapper::new("make");
    make.arg("-C");
    make.arg("/tmp/dir");
    let plain = local_command(&make, None);
    assert_eq!("make", plain.program);
    assert_eq!(vec!["-C", "/tmp/dir"], args_of(&plain));
    let limited = local_command(&make, Some(15));
    assert_eq!("timeout", limited.program);
    assert_eq!(vec!["15", "make", "-C", "/tmp/dir"], args_of(&limited));
}

#[test]
fn ssh_and_scp_command_lines() {
    let remote = RemoteCommandInterface::new(qemu_config(), 2222);
    assert_eq!("/tmp/diffuzzer-ssh-tmp", remote.tmp_file.base);
    let scp = remote.copy_common();
    assert_eq!("scp", scp.program);
    assert_eq!(
        vec![
            "-q",
            "-i",
            "/keys/id",
            "-o",
            "StrictHostKeyChecking no",
            "-o",
            "ControlMaster auto",
            "-o",
            "ControlPath /tmp/diffuzzer-ssh-%r@%h:%p",
            "-o",
            "ControlPersist 1m",
            "-P",
            "2222"
        ],
        args_of(&scp)
    );
    let ssh = remote.exec_common();
    assert_eq!("ssh", ssh.program);
    let args = args_of(&ssh);
    assert_eq!(vec!["-p", "2222", "root@localhost"], args[11..].to_vec());
    assert_eq!(args_of(&scp)[..11], args[..11]);
    assert_eq!(
        "root@localhost:/tmp/diffuzzer-remote",
        RemoteCommandInterface::remote_location(&RemotePath::new_tmp("remote"))
    );
}

#[test]
fn stats_lines() {
    let stats = BlackBoxStats { crashes: 2, executions: 345 };
    assert_eq!(
        "crashes: 2, executions: 345, exec/s: 0.96, time: 00h:05m:59s",
        stats.display(359, "0.96")
    );
    let stats = GreyBoxStats {
        corpus_size: 10,
        fst_coverage_size: 100,
        fst_coverage_type: CoverageType::KCov,
        snd_coverage_size: 7,
        snd_coverage_type: CoverageType::NoCoverage,
        crashes: 0,
        executions: 40000,
    };
    assert_eq!(
        "corpus: 10, coverage: 100 (KCov) + 7 (None), crashes: 0, executions: 40000, exec/s: 1.11, time: 10h:00m:00s",
        stats.display(36000, "1.11")
    );
    assert_eq!(
        "crashes: 0, executions: 0, exec/s: NaN, time: 123h:59m:59s",
        BlackBoxStats { crashes: 0, executions: 0 }.display(123 * 3600 + 3599, "NaN")
    );
}

#[test]
fn draining_events() {
    let mut drain = EventDrain::new();
    assert_eq!(None, drain.step(ChannelPoll::Message));
    assert_eq!(None, drain.step(ChannelPoll::Message));
    assert_eq!(Some(Ok(true)), drain.step(ChannelPoll::Empty));
    let mut quiet = EventDrain::new();
    assert_eq!(Some(Ok(false)), quiet.step(ChannelPoll::Empty));
    let mut gone = EventDrain::new();
    assert_eq!(Some(Err(ChannelClosed)), gone.step(ChannelPoll::Disconnected));
}

#[test]
fn native_supervisor_sees_no_panic() {
    let mut s = NativeSupervisor::new();
    s.save_snapshot();
    s.load_snapshot();
    s.reset_events();
    assert!(!s.had_panic_event());
}

#[test]
fn paths_join_as_on_unix() {
    let base = LocalPath::new("/tmp/work");
    assert_eq!("/tmp/work/a", base.join("a").to_string());
    assert_eq!("/etc", base.join("/etc").to_string());
    assert_eq!("/tmp/work/", LocalPath::new("/tmp/work/").to_string());
    assert_eq!("/tmp/work/x", LocalPath::new("/tmp/work/").join("x").to_string());
    assert_eq!("x", LocalPath::new("").join("x").to_string());
    assert_eq!("/tmp/diffuzzer-ssh-tmp", LocalPath::new_tmp("ssh-tmp").to_string());
    assert_eq!("/tmp/diffuzzer-remote/test.c", RemotePath::new_tmp("remote").join("test.c").to_string());
}

fn step_text(step: &diffuzzer::mount::MountStep) -> String {
    match step {
        diffuzzer::mount::MountStep::CreateDir(p) => format!("mkdir {}", p.to_string()),
        diffuzzer::mount::MountStep::Run(c) => format!("{} {}", c.program, c.args.join(" ")),
        diffuzzer::mount::MountStep::RemoveDir(p) => format!("rmdir {}", p.to_string()),
    }
}

#[test]
fn mount_steps_of_each_file_system() {
    let path = RemotePath::new("/mnt/ext4/fstest");
    let ext4 = filesystem_by_name("ext4").unwrap();
    assert_eq!("Ext4", ext4.name());
    let steps: Vec<String> = ext4.setup(&path).iter().map(step_text).collect();
    assert_eq!(
        vec![
            "mkdir /mnt/ext4/fstest",
            "modprobe brd rd_nr=1 rd_size=1000000",
            "mkfs.ext4 /dev/ram0",
            "mount -t ext4 /dev/ram0 /mnt/ext4/fstest",
        ],
        steps
    );
    let f2fs = filesystem_by_name("f2fs").unwrap();
    let steps: Vec<String> = f2fs.setup(&path).iter().map(step_text).collect();
    assert_eq!("mkfs.f2fs -O extra_attr,inode_checksum,sb_checksum,compression /dev/ram0", steps[2]);
    assert_eq!(
        "mount -t f2fs -o compress_algorithm=zstd:6,compress_chksum,atgc,gc_merge,lazytime /dev/ram0 /mnt/ext4/fstest",
        steps[3]
    );
    let teardown: Vec<String> = f2fs.teardown(&path).iter().map(step_text).collect();
    assert_eq!(vec!["umount -fl /mnt/ext4/fstest", "rmmod brd", "rmdir /mnt/ext4/fstest"], teardown);
    let lfs = FileSystem::LittleFS(diffuzzer::mount::littlefs::LittleFS::new());
    let steps: Vec<String> = lfs.setup(&path).iter().map(step_text).collect();
    assert_eq!("/root/littlefs-fuse/lfs --format /dev/ram0", steps[2]);
    assert_eq!("/root/littlefs-fuse/lfs /dev/ram0 /mnt/ext4/fstest", steps[3]);
    assert_eq!(CoverageType::LCov, lfs.coverage_type());
    assert_eq!(CoverageType::KCov, ext4.coverage_type());
    let bcachefs = FileSystem::BcacheFS(diffuzzer::mount::bcachefs::BcacheFS::new());
    let steps: Vec<String> = bcachefs.setup(&path).iter().map(step_text).collect();
    assert_eq!("bcachefs format /dev/ram0", steps[2]);
    assert_eq!("mount -t bcachefs /dev/ram0 /mnt/ext4/fstest", steps[3]);
    assert_eq!(vec!["^/?lost\\+found($|/)"], ext4.internal_dirs());
    assert!(filesystem_by_name("Btrfs").is_none());
    assert!(filesystem_by_name("zfs").is_none());
    let names: Vec<String> = filesystems().iter().map(|fs| fs.name().to_lowercase()).collect();
    assert_eq!(filesystems_available(), names);
}

#[test]
fn mount_points() {
    let ext4 = filesystem_by_name("ext4").unwrap();
    assert_eq!("/mnt/ext4/fstest", ext4.mount_point("fstest").to_string());
    assert_eq!("/abs", ext4.mount_point("/abs").to_string());
    let lfs = FileSystem::LittleFS(diffuzzer::mount::littlefs::LittleFS::new());
    assert_eq!("littlefs", lfs.dir_name());
    assert_eq!("/mnt/littlefs/x", lfs.mount_point("x").to_string());
    for fs in filesystems() {
        assert_eq!(fs.name().to_lowercase(), fs.dir_name());
    }
}

#[test]
fn state_hasher_command_and_hash() {
    let c = dash_command(
        &RemotePath::new("/tmp/diffuzzer-dash"),
        &RemotePath::new("/mnt/ext4/fstest"),
        &RemotePath::new("/tmp/exec/dash"),
        &vec!["^/?lost\\+found($|/)".to_owned(), "x".to_owned()],
    );
    assert_eq!("/tmp/diffuzzer-dash", c.program);
    assert_eq!(
        vec!["-t", "/mnt/ext4/fstest", "-o", "/tmp/exec/dash", "-e", "^/?lost\\+found($|/)", "-e", "x"],
        args_of(&c)
    );
    assert_eq!(Ok(12345), parse_dash_hash("  12345\n"));
    assert_eq!(Ok(u64::MAX), parse_dash_hash("18446744073709551615"));
    assert!(parse_dash_hash("18446744073709551616").is_err());
    assert!(parse_dash_hash("").is_err());
    assert!(parse_dash_hash("-1").is_err());
}
