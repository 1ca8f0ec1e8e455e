//! The environment in which tests run: a stub for tests run on the host,
//! and the decisions taken while draining the channel of QEMU events.

use vstd::prelude::*;

use crate::path::LocalPath;

verus! {

/// The environment of tests run on the host: there are no snapshots and no
/// panic events.
pub struct NativeSupervisor {}

impl NativeSupervisor {
    pub fn new() -> Self {
        Self {}
    }

    /// There is no snapshot to load.
    pub fn load_snapshot(&self) {
    }

    /// There is no snapshot to save.
    pub fn save_snapshot(&self) {
    }

    /// There are no events to reset.
    pub fn reset_events(&mut self) {
    }

    /// The host reports no panic.
    pub fn had_panic_event(&mut self) -> (r: bool)
        ensures
            !r,
    {
        false
    }
}

/// How to reach a QEMU virtual machine: the forwarded SSH port and the
/// sockets of QMP and of the monitor.
pub struct QemuSupervisorOptions {
    pub ssh_port: u16,
    pub qmp_socket_path: LocalPath,
    pub monitor_socket_path: LocalPath,
}

/// Where tests run: on the host, or in a QEMU virtual machine.
pub enum SupervisorOptions {
    Native,
    Qemu(QemuSupervisorOptions),
}

/// What one poll of the event channel gave.
#[derive(Debug, Clone, Copy, PartialEq, Eq, Structural)]
pub enum ChannelPoll {
    /// An event was waiting.
    Message,
    /// No event is waiting.
    Empty,
    /// The sending side is gone.
    Disconnected,
}

/// The event channel is gone.
#[derive(Debug, Clone, Copy, PartialEq, Eq, Structural)]
pub struct ChannelClosed;

/// Draining the event channel: polls until it is empty, noting whether any
/// event (a kernel panic) arrived.
pub struct EventDrain {
    pub seen: bool,
}

/// One poll: whether an event has been seen since, and the answer if the
/// drain is over (`Ok` with whether an event arrived, or `Err` when the
/// channel is gone).
pub open spec fn drain_step(seen: bool, poll: ChannelPoll) -> (bool, Option<Result<bool, ChannelClosed>>) {
    match poll {
        ChannelPoll::Message => (true, None),
        ChannelPoll::Empty => (seen, Some(Ok(seen))),
        ChannelPoll::Disconnected => (seen, Some(Err(ChannelClosed))),
    }
}

/// The polls `polls` in turn until one ends the drain: what has been seen,
/// and the answer (`None` if no poll ended it).
pub open spec fn drain_spec(seen: bool, polls: Seq<ChannelPoll>) -> (bool, Option<Result<bool, ChannelClosed>>)
    decreases polls.len(),
{
    if polls.len() == 0 {
        (seen, None)
    } else {
        let (seen2, r) = drain_step(seen, polls[0]);
        if r is Some {
            (seen2, r)
        } else {
            drain_spec(seen2, polls.drop_first())
        }
    }
}

/// `k` pending events.
pub open spec fn pending(k: nat) -> Seq<ChannelPoll> {
    Seq::new(k, |i: int| ChannelPoll::Message)
}

/// Draining takes every pending event: with `k` events pending and then an
/// empty channel, the drain ends with whether any event arrived (`k > 0`);
/// if the channel is gone instead, it ends with `ChannelClosed`. A drain
/// started afresh right after an empty one answers `false`.
pub proof fn lemma_drain_all(seen: bool, k: nat, end: ChannelPoll)
    requires
        end != ChannelPoll::Message,
    ensures
        drain_spec(seen, pending(k).push(end)) == (
            seen || k > 0,
            Some(
                if end == ChannelPoll::Empty {
                    Ok::<bool, ChannelClosed>(seen || k > 0)
                } else {
                    Err::<bool, ChannelClosed>(ChannelClosed)
                },
            ),
        ),
        drain_spec(false, seq![ChannelPoll::Empty]) == (false, Some(Ok::<bool, ChannelClosed>(false))),
    decreases k,
{
    let p = pending(k).push(end);
    if k == 0 {
        assert(p[0] == end);
    } else {
        assert(p[0] == ChannelPoll::Message);
        assert(p.drop_first() =~= pending((k - 1) as nat).push(end));
        lemma_drain_all(true, (k - 1) as nat, end);
    }
    let q = seq![ChannelPoll::Empty];
    assert(q[0] == ChannelPoll::Empty);
}

impl EventDrain {
    /// Nothing seen yet.
    pub fn new() -> (r: Self)
        ensures
            !r.seen,
    {
        Self { seen: false }
    }

    /// Takes the result of one poll. `None`: poll again. `Some(Ok(b))`: the
    /// channel is empty, and `b` is whether some event arrived.
    /// `Some(Err(_))`: the channel is gone.
    pub fn step(&mut self, poll: ChannelPoll) -> (r: Option<Result<bool, ChannelClosed>>)
        ensures
            (final(self).seen, r) == drain_step(old(self).seen, poll),
    {
        match poll {
            ChannelPoll::Message => {
                self.seen = true;
                None
            },
            ChannelPoll::Empty => Some(Ok(self.seen)),
            ChannelPoll::Disconnected => Some(Err(ChannelClosed)),
        }
    }
}

} // verus!
