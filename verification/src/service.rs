//! The process as a Windows service: how it starts, and how it answers the
//! service manager.
use vstd::prelude::*;

verus! {

/// The error of the Windows service manager for a process that it did not
/// start.
pub const NOT_A_SERVICE: i32 = 1063;

/// What became of the attempt to run as a service.
pub enum Dispatch {
    /// The service ran to its end.
    Served,
    /// The attempt failed, with an error of the operating system or another.
    Failed { os_error: Option<i32> },
}

/// How the process goes on.
pub enum Startup {
    /// It ends.
    Exit,
    /// It runs the server in the foreground.
    Foreground,
    /// It fails.
    Fail,
}

/// Decides how the process goes on after the attempt to run as a service: only
/// a process that the service manager did not start runs in the foreground.
pub fn after_dispatch(d: &Dispatch) -> (r: Startup)
    ensures
        match r {
            Startup::Exit => d is Served,
            Startup::Foreground => d matches Dispatch::Failed { os_error } && os_error == Some(
                NOT_A_SERVICE,
            ),
            Startup::Fail => d matches Dispatch::Failed { os_error } && os_error != Some(
                NOT_A_SERVICE,
            ),
        },
{
    match d {
        Dispatch::Served => Startup::Exit,
        Dispatch::Failed { os_error } => match os_error {
            Some(code) => if *code == NOT_A_SERVICE {
                Startup::Foreground
            } else {
                Startup::Fail
            },
            None => Startup::Fail,
        },
    }
}

/// A message of the service manager.
pub enum Control {
    Stop,
    Interrogate,
    Other,
}

/// The answer to a message of the service manager.
pub struct ControlReply {
    /// Whether the message is one that the service knows.
    pub known: bool,
    /// Whether the server is now to be told to stop.
    pub signal: bool,
}

/// Whether the server can still be told to stop: it is told so once.
pub struct StopSignal {
    pub pending: bool,
}

/// The signal after a message.
pub open spec fn signal_after(s: StopSignal, c: Control) -> StopSignal {
    StopSignal { pending: s.pending && !(c is Stop) }
}

/// The answer to a message.
pub open spec fn reply_to(s: StopSignal, c: Control) -> ControlReply {
    ControlReply { known: !(c is Other), signal: s.pending && c is Stop }
}

impl StopSignal {
    /// A signal that was not given yet.
    pub fn new() -> (r: StopSignal)
        ensures
            r.pending,
    {
        StopSignal { pending: true }
    }

    /// Answers a message of the service manager.
    pub fn handle(&mut self, c: &Control) -> (r: ControlReply)
        ensures
            r == reply_to(*old(self), *c),
            *final(self) == signal_after(*old(self), *c),
    {
        match c {
            Control::Stop => {
                let signal = self.pending;
                self.pending = false;
                ControlReply { known: true, signal }
            },
            Control::Interrogate => ControlReply { known: true, signal: false },
            Control::Other => ControlReply { known: false, signal: false },
        }
    }
}

/// The signal after a row of messages.
pub open spec fn signal_after_all(s: StopSignal, cs: Seq<Control>) -> StopSignal
    decreases cs.len(),
{
    if cs.len() == 0 {
        s
    } else {
        signal_after(signal_after_all(s, cs.drop_last()), cs.last())
    }
}

/// How often a row of messages makes the service tell the server to stop.
pub open spec fn stops(s: StopSignal, cs: Seq<Control>) -> nat
    decreases cs.len(),
{
    if cs.len() == 0 {
        0
    } else {
        stops(s, cs.drop_last()) + if reply_to(
            signal_after_all(s, cs.drop_last()),
            cs.last(),
        ).signal {
            1nat
        } else {
            0nat
        }
    }
}

/// The server is told to stop at most once, and exactly once if the service
/// manager asks for it at all.
pub proof fn server_is_stopped_once(cs: Seq<Control>)
    ensures
        stops(StopSignal { pending: true }, cs) == (if exists|i: int|
            0 <= i < cs.len() && cs[i] is Stop {
            1nat
        } else {
            0nat
        }),
        signal_after_all(StopSignal { pending: true }, cs).pending == !(exists|i: int|
            0 <= i < cs.len() && cs[i] is Stop),
    decreases cs.len(),
{
    if cs.len() > 0 {
        let rest = cs.drop_last();
        server_is_stopped_once(rest);
        if exists|i: int| 0 <= i < rest.len() && rest[i] is Stop {
            let i = choose|i: int| 0 <= i < rest.len() && rest[i] is Stop;
            assert(cs[i] is Stop);
        } else if cs.last() is Stop {
            assert(cs[cs.len() - 1] is Stop);
        } else {
            assert forall|i: int| 0 <= i < cs.len() implies !(cs[i] is Stop) by {
                if i < rest.len() {
                    assert(rest[i] == cs[i]);
                }
            }
        }
    }
}

// ---------------------------------------------------------------------------
// What holds of every call
// ---------------------------------------------------------------------------

/// A service that ran to its end ends the process; error 1063 makes it run in
/// the foreground, and every other failure makes it fail.
pub proof fn only_error_1063_is_forgiven(d: Dispatch, r: Startup)
    requires
        call_ensures(after_dispatch, (&d,), r),
    ensures
        d is Served <==> r is Exit,
        (d matches Dispatch::Failed { os_error } && os_error == Some(1063i32)) <==> r is Foreground,
        (d matches Dispatch::Failed { os_error } && os_error != Some(1063i32)) <==> r is Fail,
{
}

/// The two messages that the service knows are told apart from all others; the
/// server is told to stop by the first `Stop` alone, and only that one changes
/// anything.
pub proof fn messages_are_answered(s: &mut StopSignal, c: Control, r: ControlReply)
    requires
        call_ensures(StopSignal::handle, (s, &c), r),
    ensures
        r.known <==> c is Stop || c is Interrogate,
        r.signal <==> c is Stop && old(s).pending,
        final(s).pending <==> old(s).pending && !(c is Stop),
{
}

/// A new signal was not given yet.
pub proof fn new_signals_are_pending(r: StopSignal)
    requires
        call_ensures(StopSignal::new, (), r),
    ensures
        r.pending,
{
}

} // verus!
