//! Commands run on the host or, over SSH, on the test machine: how their
//! command lines are built and how their exit codes are read.

use vstd::prelude::*;

use crate::config::QemuConfig;
use crate::path::{LocalPath, RemotePath};
use crate::text::{dec, push_str, u64_to_string};

verus! {

/// A command line: the program and its arguments, in order.
pub struct CommandWrapper {
    pub program: String,
    pub args: Vec<String>,
}

/// The model of a command line: the program and the arguments.
pub open spec fn line_view(c: CommandWrapper) -> (Seq<char>, Seq<Seq<char>>) {
    (c.program@, c.args@.map_values(|a: String| a@))
}

impl CommandWrapper {
    /// The program `cmd` with no arguments.
    pub fn new(cmd: &str) -> (r: Self)
        ensures
            line_view(r) == (cmd@, Seq::<Seq<char>>::empty()),
    {
        let r = Self { program: cmd.to_owned(), args: Vec::new() };
        assert(line_view(r).1 =~= Seq::<Seq<char>>::empty());
        r
    }

    /// Appends one argument.
    pub fn arg(&mut self, arg: &str)
        ensures
            line_view(*final(self)) == (line_view(*old(self)).0, line_view(*old(self)).1.push(arg@)),
    {
        self.args.push(arg.to_owned());
        assert(line_view(*self).1 =~= line_view(*old(self)).1.push(arg@));
    }
}

/// Why a command did not succeed, with a message.
pub enum ExecError {
    /// It could not be run, failed, or was killed.
    IoError(String),
    /// It ran out of time.
    TimedOut(String),
}

/// How a finished command ended, by its exit code (`None`: killed by a signal).
#[derive(Debug, Clone, Copy, PartialEq, Eq, Structural)]
pub enum ExitKind {
    /// Exit code 0.
    Success,
    /// Exit code 124, the code of `timeout` when the time ran out.
    TimedOut,
    /// Any other exit code.
    Failed,
    /// Terminated by a signal.
    Killed,
}

/// How a command with exit code `code` ended.
pub open spec fn exit_kind_spec(code: Option<i32>) -> ExitKind {
    match code {
        Some(0) => ExitKind::Success,
        Some(124) => ExitKind::TimedOut,
        Some(_) => ExitKind::Failed,
        None => ExitKind::Killed,
    }
}

/// How a command with exit code `code` ended.
pub fn exit_kind(code: Option<i32>) -> (r: ExitKind)
    ensures
        r == exit_kind_spec(code),
{
    match code {
        Some(0) => ExitKind::Success,
        Some(124) => ExitKind::TimedOut,
        Some(_) => ExitKind::Failed,
        None => ExitKind::Killed,
    }
}

/// The command line that runs `cmd` locally: as it is without a time
/// limit, else under `timeout` with the limit in seconds.
pub fn local_command(cmd: &CommandWrapper, timeout: Option<u8>) -> (r: CommandWrapper)
    ensures
        line_view(r) == match timeout {
            None => line_view(*cmd),
            Some(secs) => (
                "timeout"@,
                seq![dec(secs as nat), line_view(*cmd).0] + line_view(*cmd).1,
            ),
        },
{
    match timeout {
        None => {
            let mut r = CommandWrapper::new(cmd.program.as_str());
            let mut i: usize = 0;
            while i < cmd.args.len()
                invariant
                    i <= cmd.args@.len(),
                    line_view(r) == (line_view(*cmd).0, line_view(*cmd).1.take(i as int)),
                decreases cmd.args@.len() - i,
            {
                r.arg(cmd.args[i].as_str());
                assert(line_view(*cmd).1.take(i + 1) =~= line_view(*cmd).1.take(i as int).push(cmd.args@[i as int]@));
                i = i + 1;
            }
            assert(line_view(*cmd).1.take(i as int) =~= line_view(*cmd).1);
            r
        },
        Some(secs) => {
            let mut r = CommandWrapper::new("timeout");
            r.arg(u64_to_string(secs as u64).as_str());
            r.arg(cmd.program.as_str());
            let ghost head = seq![dec(secs as nat), line_view(*cmd).0];
            assert(line_view(r).1 =~= head);
            let mut i: usize = 0;
            while i < cmd.args.len()
                invariant
                    i <= cmd.args@.len(),
                    line_view(r) == ("timeout"@, head + line_view(*cmd).1.take(i as int)),
                decreases cmd.args@.len() - i,
            {
                r.arg(cmd.args[i].as_str());
                assert(head + line_view(*cmd).1.take(i + 1) =~= (head + line_view(*cmd).1.take(i as int)).push(
                    cmd.args@[i as int]@,
                ));
                i = i + 1;
            }
            assert(line_view(*cmd).1.take(i as int) =~= line_view(*cmd).1);
            r
        },
    }
}

/// The SSH options shared by `scp` and `ssh`: quiet, the private key, no
/// host key check, and one shared connection kept for a minute.
pub open spec fn ssh_options(key: Seq<char>) -> Seq<Seq<char>> {
    seq![
        "-q"@,
        "-i"@,
        key,
        "-o"@,
        "StrictHostKeyChecking no"@,
        "-o"@,
        "ControlMaster auto"@,
        "-o"@,
        "ControlPath /tmp/diffuzzer-ssh-%r@%h:%p"@,
        "-o"@,
        "ControlPersist 1m"@,
    ]
}

/// Runs commands on the host.
pub struct LocalCommandInterface {}

impl LocalCommandInterface {
    pub fn new() -> Self {
        LocalCommandInterface {}
    }
}

/// Runs commands on the test machine over SSH, as `root@localhost` on the
/// forwarded port.
pub struct RemoteCommandInterface {
    pub config: QemuConfig,
    pub ssh_port: u16,
    pub tmp_file: LocalPath,
}

impl RemoteCommandInterface {
    /// Connects through `ssh_port`; files pass through a temporary host file.
    pub fn new(config: QemuConfig, ssh_port: u16) -> (r: Self)
        ensures
            r.config == config,
            r.ssh_port == ssh_port,
            r.tmp_file@ == "/tmp/diffuzzer-ssh-tmp"@,
    {
        let tmp_file = LocalPath::new_tmp("ssh-tmp");
        proof {
            reveal_strlit("ssh-tmp");
            reveal_strlit("/tmp/diffuzzer-");
            reveal_strlit("/tmp/diffuzzer-ssh-tmp");
            assert(tmp_file@ =~= "/tmp/diffuzzer-ssh-tmp"@);
        }
        RemoteCommandInterface { config, ssh_port, tmp_file }
    }

    fn push_ssh_options(&self, c: &mut CommandWrapper)
        ensures
            line_view(*final(c)) == (
                line_view(*old(c)).0,
                line_view(*old(c)).1 + ssh_options(self.config.ssh_private_key_path@),
            ),
    {
        c.arg("-q");
        c.arg("-i");
        c.arg(self.config.ssh_private_key_path.as_str());
        c.arg("-o");
        c.arg("StrictHostKeyChecking no");
        c.arg("-o");
        c.arg("ControlMaster auto");
        c.arg("-o");
        c.arg("ControlPath /tmp/diffuzzer-ssh-%r@%h:%p");
        c.arg("-o");
        c.arg("ControlPersist 1m");
        assert(line_view(*c).1 =~= line_view(*old(c)).1 + ssh_options(self.config.ssh_private_key_path@));
    }

    /// `scp` with the shared options and the port (`-P`).
    pub fn copy_common(&self) -> (r: CommandWrapper)
        ensures
            line_view(r) == (
                "scp"@,
                ssh_options(self.config.ssh_private_key_path@) + seq!["-P"@, dec(self.ssh_port as nat)],
            ),
    {
        let mut scp = CommandWrapper::new("scp");
        self.push_ssh_options(&mut scp);
        scp.arg("-P");
        scp.arg(u64_to_string(self.ssh_port as u64).as_str());
        assert(line_view(scp).1 =~= ssh_options(self.config.ssh_private_key_path@) + seq![
            "-P"@,
            dec(self.ssh_port as nat),
        ]);
        scp
    }

    /// `ssh` with the shared options, the port (`-p`) and the host.
    pub fn exec_common(&self) -> (r: CommandWrapper)
        ensures
            line_view(r) == (
                "ssh"@,
                ssh_options(self.config.ssh_private_key_path@) + seq![
                    "-p"@,
                    dec(self.ssh_port as nat),
                    "root@localhost"@,
                ],
            ),
    {
        let mut ssh = CommandWrapper::new("ssh");
        self.push_ssh_options(&mut ssh);
        ssh.arg("-p");
        ssh.arg(u64_to_string(self.ssh_port as u64).as_str());
        ssh.arg("root@localhost");
        assert(line_view(ssh).1 =~= ssh_options(self.config.ssh_private_key_path@) + seq![
            "-p"@,
            dec(self.ssh_port as nat),
            "root@localhost"@,
        ]);
        ssh
    }

    /// The `scp` target or source that names `path` on the test machine.
    pub fn remote_location(path: &RemotePath) -> (r: String)
        ensures
            r@ == "root@localhost:"@ + path@,
    {
        let mut r = String::new();
        push_str(&mut r, "root@localhost:");
        push_str(&mut r, path.base.as_str());
        r
    }
}

} // verus!
