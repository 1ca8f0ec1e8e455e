//! The file systems under test: how each is made, mounted and taken down,
//! as the steps that the command interface carries out.

pub mod bcachefs;
pub mod btrfs;
pub mod ext4;
pub mod f2fs;
pub mod littlefs;
pub mod xfs;

use vstd::prelude::*;

use crate::command::{line_view, CommandWrapper};
use crate::fuzzing::greybox::feedback::CoverageType;
use crate::path::{join_spec, RemotePath};
use bcachefs::BcacheFS;
use btrfs::Btrfs;
use ext4::Ext4;
use f2fs::F2FS;
use littlefs::LittleFS;
use xfs::Xfs;

verus! {

/// The RAM disk that holds the file system under test.
pub const DEVICE: &'static str = "/dev/ram0";

/// One step of making or taking down a file system.
pub enum MountStep {
    /// Create a directory with its parents.
    CreateDir(RemotePath),
    /// Run a command.
    Run(CommandWrapper),
    /// Remove a directory and what it holds.
    RemoveDir(RemotePath),
}

/// The model of a step.
pub enum StepModel {
    CreateDir(Seq<char>),
    Run(Seq<char>, Seq<Seq<char>>),
    RemoveDir(Seq<char>),
}

/// The model of a step.
pub open spec fn step_view(s: MountStep) -> StepModel {
    match s {
        MountStep::CreateDir(p) => StepModel::CreateDir(p@),
        MountStep::Run(c) => StepModel::Run(line_view(c).0, line_view(c).1),
        MountStep::RemoveDir(p) => StepModel::RemoveDir(p@),
    }
}

/// The models of a list of steps.
pub open spec fn steps_view(v: Seq<MountStep>) -> Seq<StepModel> {
    v.map_values(|s: MountStep| step_view(s))
}

/// Loads the RAM disk module with one disk of 1000000 KiB.
pub open spec fn modprobe_step() -> StepModel {
    StepModel::Run("modprobe"@, seq!["brd"@, "rd_nr=1"@, "rd_size=1000000"@])
}

/// The steps that make a file system with `mkfs` and mount it at `path`:
/// create the mount point, load the RAM disk module, run `mkfs` (with
/// `-O` options, if any) on the device, and mount it (with `-t` the type and
/// `-o` options, if any).
pub open spec fn default_setup_spec(
    mkfs: Seq<char>,
    mkfs_opts: Option<Seq<char>>,
    mount_t: Seq<char>,
    mount_opts: Option<Seq<char>>,
    path: Seq<char>,
) -> Seq<StepModel> {
    let mkfs_args = match mkfs_opts {
        Some(o) => seq!["-O"@, o, DEVICE@],
        None => seq![DEVICE@],
    };
    let mount_args = match mount_opts {
        Some(o) => seq!["-t"@, mount_t, "-o"@, o, DEVICE@, path],
        None => seq!["-t"@, mount_t, DEVICE@, path],
    };
    seq![
        StepModel::CreateDir(path),
        modprobe_step(),
        StepModel::Run(mkfs, mkfs_args),
        StepModel::Run("mount"@, mount_args),
    ]
}

/// The steps that take a file system down: unmount (forced, lazy), unload
/// the RAM disk module, and remove the mount point.
pub open spec fn teardown_spec(path: Seq<char>) -> Seq<StepModel> {
    seq![
        StepModel::Run("umount"@, seq!["-fl"@, path]),
        StepModel::Run("rmmod"@, seq!["brd"@]),
        StepModel::RemoveDir(path),
    ]
}

fn command(program: &str, args: &[&str]) -> (r: CommandWrapper)
    ensures
        line_view(r).0 == program@,
        line_view(r).1 == args@.map_values(|a: &str| a@),
{
    let mut c = CommandWrapper::new(program);
    let mut i: usize = 0;
    while i < args.len()
        invariant
            i <= args@.len(),
            line_view(c).0 == program@,
            line_view(c).1 == args@.take(i as int).map_values(|a: &str| a@),
        decreases args@.len() - i,
    {
        c.arg(args[i]);
        assert(args@.take(i + 1).map_values(|a: &str| a@) =~= args@.take(i as int).map_values(|a: &str| a@).push(
            args@[i as int]@,
        ));
        i = i + 1;
    }
    assert(args@.take(i as int) =~= args@);
    c
}

fn modprobe() -> (r: MountStep)
    ensures
        step_view(r) == modprobe_step(),
{
    proof {
        reveal_strlit("rd_size=1000000");
    }
    let c = command("modprobe", &["brd", "rd_nr=1", "rd_size=1000000"]);
    assert(line_view(c).1 =~= seq!["brd"@, "rd_nr=1"@, "rd_size=1000000"@]);
    MountStep::Run(c)
}

/// The steps that make a file system with `mkfs` and mount it at `path`.
pub fn default_setup(
    mkfs: &str,
    mkfs_opts: Option<&str>,
    mount_t: &str,
    mount_opts: Option<&str>,
    path: &RemotePath,
) -> (r: Vec<MountStep>)
    ensures
        steps_view(r@) == default_setup_spec(
            mkfs@,
            match mkfs_opts {
                Some(o) => Some(o@),
                None => None,
            },
            mount_t@,
            match mount_opts {
                Some(o) => Some(o@),
                None => None,
            },
            path@,
        ),
{
    let mut steps: Vec<MountStep> = Vec::new();
    steps.push(MountStep::CreateDir(path.clone()));
    steps.push(modprobe());
    let mut mk = CommandWrapper::new(mkfs);
    match mkfs_opts {
        Some(o) => {
            mk.arg("-O");
            mk.arg(o);
        },
        None => {},
    }
    mk.arg(DEVICE);
    assert(line_view(mk).1 =~= match mkfs_opts {
        Some(o) => seq!["-O"@, o@, DEVICE@],
        None => seq![DEVICE@],
    });
    steps.push(MountStep::Run(mk));
    let mut mount = CommandWrapper::new("mount");
    mount.arg("-t");
    mount.arg(mount_t);
    match mount_opts {
        Some(o) => {
            mount.arg("-o");
            mount.arg(o);
        },
        None => {},
    }
    mount.arg(DEVICE);
    mount.arg(path.base.as_str());
    assert(line_view(mount).1 =~= match mount_opts {
        Some(o) => seq!["-t"@, mount_t@, "-o"@, o@, DEVICE@, path@],
        None => seq!["-t"@, mount_t@, DEVICE@, path@],
    });
    steps.push(MountStep::Run(mount));
    assert(steps_view(steps@) =~= default_setup_spec(
        mkfs@,
        match mkfs_opts {
            Some(o) => Some(o@),
            None => None,
        },
        mount_t@,
        match mount_opts {
            Some(o) => Some(o@),
            None => None,
        },
        path@,
    ));
    steps
}

/// The steps that take the file system mounted at `path` down.
pub fn teardown(path: &RemotePath) -> (r: Vec<MountStep>)
    ensures
        steps_view(r@) == teardown_spec(path@),
{
    let mut steps: Vec<MountStep> = Vec::new();
    let mut umount = CommandWrapper::new("umount");
    umount.arg("-fl");
    umount.arg(path.base.as_str());
    assert(line_view(umount).1 =~= seq!["-fl"@, path@]);
    steps.push(MountStep::Run(umount));
    let mut rmmod = CommandWrapper::new("rmmod");
    rmmod.arg("brd");
    assert(line_view(rmmod).1 =~= seq!["brd"@]);
    steps.push(MountStep::Run(rmmod));
    steps.push(MountStep::RemoveDir(path.clone()));
    assert(steps_view(steps@) =~= teardown_spec(path@));
    steps
}

/// A file system that can be tested.
pub enum FileSystem {
    Ext4(Ext4),
    Btrfs(Btrfs),
    F2FS(F2FS),
    Xfs(Xfs),
    BcacheFS(BcacheFS),
    LittleFS(LittleFS),
}

/// How a file system is made and mounted at `path`.
pub open spec fn setup_spec(fs: FileSystem, path: Seq<char>) -> Seq<StepModel> {
    match fs {
        FileSystem::Ext4(_) => default_setup_spec("mkfs.ext4"@, None, "ext4"@, None, path),
        FileSystem::Btrfs(_) => default_setup_spec("mkfs.btrfs"@, None, "btrfs"@, None, path),
        FileSystem::F2FS(_) => default_setup_spec(
            "mkfs.f2fs"@,
            Some("extra_attr,inode_checksum,sb_checksum,compression"@),
            "f2fs"@,
            Some("compress_algorithm=zstd:6,compress_chksum,atgc,gc_merge,lazytime"@),
            path,
        ),
        FileSystem::Xfs(_) => default_setup_spec("mkfs.xfs"@, None, "xfs"@, None, path),
        FileSystem::BcacheFS(_) => seq![
            StepModel::CreateDir(path),
            modprobe_step(),
            StepModel::Run("bcachefs"@, seq!["format"@, DEVICE@]),
            StepModel::Run("mount"@, seq!["-t"@, "bcachefs"@, DEVICE@, path]),
        ],
        FileSystem::LittleFS(_) => seq![
            StepModel::CreateDir(path),
            modprobe_step(),
            StepModel::Run("/root/littlefs-fuse/lfs"@, seq!["--format"@, DEVICE@]),
            StepModel::Run("/root/littlefs-fuse/lfs"@, seq![DEVICE@, path]),
        ],
    }
}

/// The name of a file system in lower case.
pub open spec fn lower_name(fs: FileSystem) -> Seq<char> {
    match fs {
        FileSystem::Ext4(_) => "ext4"@,
        FileSystem::Btrfs(_) => "btrfs"@,
        FileSystem::F2FS(_) => "f2fs"@,
        FileSystem::Xfs(_) => "xfs"@,
        FileSystem::BcacheFS(_) => "bcachefs"@,
        FileSystem::LittleFS(_) => "littlefs"@,
    }
}

impl FileSystem {
    /// The name of the file system.
    pub fn name(&self) -> (r: &'static str)
        ensures
            r@ == match *self {
                FileSystem::Ext4(_) => "Ext4"@,
                FileSystem::Btrfs(_) => "Btrfs"@,
                FileSystem::F2FS(_) => "F2FS"@,
                FileSystem::Xfs(_) => "XFS"@,
                FileSystem::BcacheFS(_) => "BcacheFS"@,
                FileSystem::LittleFS(_) => "LittleFS"@,
            },
    {
        match self {
            FileSystem::Ext4(fs) => fs.name(),
            FileSystem::Btrfs(fs) => fs.name(),
            FileSystem::F2FS(fs) => fs.name(),
            FileSystem::Xfs(fs) => fs.name(),
            FileSystem::BcacheFS(fs) => fs.name(),
            FileSystem::LittleFS(fs) => fs.name(),
        }
    }

    /// The name of the file system in lower case, as file names use it.
    pub fn dir_name(&self) -> (r: &'static str)
        ensures
            r@ == lower_name(*self),
    {
        match self {
            FileSystem::Ext4(_) => "ext4",
            FileSystem::Btrfs(_) => "btrfs",
            FileSystem::F2FS(_) => "f2fs",
            FileSystem::Xfs(_) => "xfs",
            FileSystem::BcacheFS(_) => "bcachefs",
            FileSystem::LittleFS(_) => "littlefs",
        }
    }

    /// Where the file system is mounted for testing: `/mnt`, then its name
    /// in lower case, then `fs_name` (joined as paths are joined).
    pub fn mount_point(&self, fs_name: &str) -> (r: RemotePath)
        ensures
            r@ == join_spec(join_spec("/mnt"@, lower_name(*self)), fs_name@),
    {
        RemotePath::new("/mnt").join(self.dir_name()).join(fs_name)
    }

    /// The kind of coverage measured on the file system: line coverage for
    /// LittleFS (in user space), kernel coverage for the others.
    pub fn coverage_type(&self) -> (r: CoverageType)
        ensures
            r == match *self {
                FileSystem::LittleFS(_) => CoverageType::LCov,
                _ => CoverageType::KCov,
            },
    {
        match self {
            FileSystem::Ext4(fs) => fs.coverage_type(),
            FileSystem::Btrfs(fs) => fs.coverage_type(),
            FileSystem::F2FS(fs) => fs.coverage_type(),
            FileSystem::Xfs(_) => CoverageType::KCov,
            FileSystem::BcacheFS(fs) => fs.coverage_type(),
            FileSystem::LittleFS(fs) => fs.coverage_type(),
        }
    }

    /// Patterns of the paths that the file system keeps for itself.
    pub fn internal_dirs(&self) -> (r: Vec<String>)
        ensures
            r@.map_values(|s: String| s@) == match *self {
                FileSystem::Ext4(_) | FileSystem::F2FS(_) | FileSystem::BcacheFS(_) => seq![
                    "^/?lost\\+found($|/)"@,
                ],
                _ => Seq::<Seq<char>>::empty(),
            },
    {
        let r = match self {
            FileSystem::Ext4(fs) => fs.internal_dirs(),
            FileSystem::F2FS(fs) => fs.internal_dirs(),
            FileSystem::BcacheFS(fs) => fs.internal_dirs(),
            _ => Vec::new(),
        };
        assert(r@.map_values(|s: String| s@) =~= match *self {
            FileSystem::Ext4(_) | FileSystem::F2FS(_) | FileSystem::BcacheFS(_) => seq!["^/?lost\\+found($|/)"@],
            _ => Seq::<Seq<char>>::empty(),
        });
        r
    }

    /// The directory with the file system's sources, if it has one.
    pub fn source_dir(&self) -> (r: Option<RemotePath>)
        ensures
            match *self {
                FileSystem::LittleFS(_) => r matches Some(p) && p@ == "/root/littlefs-fuse"@,
                _ => r is None,
            },
    {
        match self {
            FileSystem::LittleFS(fs) => fs.source_dir(),
            _ => None,
        }
    }

    /// The steps that make the file system and mount it at `path`.
    pub fn setup(&self, path: &RemotePath) -> (r: Vec<MountStep>)
        ensures
            steps_view(r@) == setup_spec(*self, path@),
    {
        match self {
            FileSystem::Ext4(fs) => default_setup(fs.mkfs_cmd().as_str(), None, fs.mount_t().as_str(), None, path),
            FileSystem::Btrfs(fs) => default_setup(fs.mkfs_cmd().as_str(), None, fs.mount_t().as_str(), None, path),
            FileSystem::F2FS(fs) => {
                let mkfs_opts = fs.mkfs_opts();
                let mount_opts = fs.mount_opts();
                let (Some(mo), Some(mto)) = (mkfs_opts, mount_opts) else {
                    return Vec::new();
                };
                default_setup(fs.mkfs_cmd().as_str(), Some(mo.as_str()), fs.mount_t().as_str(), Some(mto.as_str()), path)
            },
            FileSystem::Xfs(fs) => default_setup(fs.mkfs_cmd().as_str(), None, fs.mount_t().as_str(), None, path),
            FileSystem::BcacheFS(_) => {
                let mut steps: Vec<MountStep> = Vec::new();
                steps.push(MountStep::CreateDir(path.clone()));
                steps.push(modprobe());
                let format = command("bcachefs", &["format", DEVICE]);
                assert(line_view(format).1 =~= seq!["format"@, DEVICE@]);
                steps.push(MountStep::Run(format));
                let mut mount = command("mount", &["-t", "bcachefs", DEVICE]);
                mount.arg(path.base.as_str());
                assert(line_view(mount).1 =~= seq!["-t"@, "bcachefs"@, DEVICE@, path@]);
                steps.push(MountStep::Run(mount));
                assert(steps_view(steps@) =~= setup_spec(*self, path@));
                steps
            },
            FileSystem::LittleFS(fs) => {
                let Some(dir) = fs.source_dir() else {
                    return Vec::new();
                };
                let lfs = dir.join("lfs");
                proof {
                    reveal_strlit("lfs");
                    reveal_strlit("/root/littlefs-fuse");
                    reveal_strlit("/root/littlefs-fuse/lfs");
                    assert(lfs@ =~= "/root/littlefs-fuse/lfs"@);
                }
                let mut steps: Vec<MountStep> = Vec::new();
                steps.push(MountStep::CreateDir(path.clone()));
                steps.push(modprobe());
                let format = command(lfs.base.as_str(), &["--format", DEVICE]);
                assert(line_view(format).1 =~= seq!["--format"@, DEVICE@]);
                steps.push(MountStep::Run(format));
                let mut mount = command(lfs.base.as_str(), &[DEVICE]);
                mount.arg(path.base.as_str());
                assert(line_view(mount).1 =~= seq![DEVICE@, path@]);
                steps.push(MountStep::Run(mount));
                assert(steps_view(steps@) =~= setup_spec(*self, path@));
                steps
            },
        }
    }

    /// The steps that take the file system mounted at `path` down.
    pub fn teardown(&self, path: &RemotePath) -> (r: Vec<MountStep>)
        ensures
            steps_view(r@) == teardown_spec(path@),
    {
        teardown(path)
    }
}

/// The file systems offered for testing, in order.
pub fn filesystems() -> (r: Vec<FileSystem>)
    ensures
        r@.len() == 4,
        r@[0] is Ext4,
        r@[1] is Btrfs,
        r@[2] is F2FS,
        r@[3] is Xfs,
{
    let mut r: Vec<FileSystem> = Vec::new();
    r.push(FileSystem::Ext4(Ext4::new()));
    r.push(FileSystem::Btrfs(Btrfs::new()));
    r.push(FileSystem::F2FS(F2FS::new()));
    r.push(FileSystem::Xfs(Xfs::new()));
    r
}

} // verus!
