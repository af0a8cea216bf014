use crate::command::Command;
use vstd::prelude::*;

verus! {

/// How many times each command's frame is transmitted, regardless of the
/// outcome of earlier transmissions.
pub const COMMAND_RUN_TIMES: u8 = 3;

/// How many attempts each of those transmissions gets before it is given up.
pub const COMMAND_RETRY_TIMES: u8 = 3;

/// How long the caller is asked to wait after a failed attempt.
pub const COMMAND_RETRY_INTERVAL_MS: u16 = 30;

/// What the dispatcher asks its caller to do next.
#[derive(Clone, Copy, PartialEq, Eq, Structural, Debug)]
pub enum DispatchAction {
    /// Transmit the current command's frame once.
    Send,
    /// Wait for `COMMAND_RETRY_INTERVAL_MS` milliseconds.
    Sleep,
    /// Every command has been dispatched.
    Done,
}

/// What the caller reports back after performing an action.
#[derive(Clone, Copy, PartialEq, Eq, Structural, Debug)]
pub enum DispatchEvent {
    /// The transmission went through.
    SendOk,
    /// The transmission failed at the transport layer.
    SendFailed,
    /// The wait elapsed.
    Slept,
}

/// Drives the bounded retry-and-repeat policy over a compressed command
/// list. The caller performs each requested action against the transport
/// and reports its outcome; a transmission that exhausts its attempts is
/// absorbed, never surfaced, so a full run always completes.
pub struct Dispatcher {
    /// The compressed commands, dispatched in order.
    pub commands: Vec<Command>,
    /// The command being dispatched.
    pub cmd_idx: usize,
    /// Transmissions of the current command already finished.
    pub rep: u8,
    /// Failed attempts within the current transmission.
    pub attempt: u8,
    /// A failed attempt's wait is still owed.
    pub sleeping: bool,
}

impl Dispatcher {
    /// The counters stay inside the policy's bounds, and come to rest once
    /// the command list is exhausted.
    pub open spec fn inv(&self) -> bool {
        &&& self.commands@.len() <= usize::MAX
        &&& self.cmd_idx <= self.commands@.len()
        &&& self.cmd_idx < self.commands@.len() ==> self.rep < COMMAND_RUN_TIMES
            && self.attempt < COMMAND_RETRY_TIMES
        &&& self.sleeping ==> self.attempt + 1 < COMMAND_RETRY_TIMES
        &&& self.cmd_idx == self.commands@.len() ==> self.rep == 0 && self.attempt == 0
            && !self.sleeping
    }

    /// Every command has been dispatched.
    pub open spec fn done(&self) -> bool {
        self.cmd_idx == self.commands@.len()
    }

    /// The action owed in this state.
    pub open spec fn spec_action(&self) -> DispatchAction {
        if self.done() {
            DispatchAction::Done
        } else if self.sleeping {
            DispatchAction::Sleep
        } else {
            DispatchAction::Send
        }
    }

    /// One transmission of the current command is over (it succeeded, or its
    /// attempts ran out): move to the next transmission, or the next command.
    pub open spec fn spec_finish_repetition(s: Dispatcher) -> Dispatcher {
        if s.rep + 1 < COMMAND_RUN_TIMES {
            Dispatcher { rep: (s.rep + 1) as u8, attempt: 0, sleeping: false, ..s }
        } else {
            Dispatcher {
                cmd_idx: (s.cmd_idx + 1) as usize,
                rep: 0,
                attempt: 0,
                sleeping: false,
                ..s
            }
        }
    }

    /// The transition relation of the retry-and-repeat policy. A failed
    /// attempt owes a wait only where another attempt of the same
    /// transmission follows; the last failed attempt of a transmission gives
    /// it up at once.
    pub open spec fn spec_step(s: Dispatcher, event: DispatchEvent) -> Dispatcher {
        match event {
            DispatchEvent::SendOk => Self::spec_finish_repetition(s),
            DispatchEvent::SendFailed => if s.attempt + 1 < COMMAND_RETRY_TIMES {
                Dispatcher { sleeping: true, ..s }
            } else {
                Self::spec_finish_repetition(s)
            },
            DispatchEvent::Slept => Dispatcher {
                attempt: (s.attempt + 1) as u8,
                sleeping: false,
                ..s
            },
        }
    }

    /// An upper bound on the actions still owed. Each command costs at most
    /// `COMMAND_RUN_TIMES` transmissions of `COMMAND_RETRY_TIMES` attempts,
    /// each attempt a send and possibly a wait.
    pub open spec fn spec_measure(&self) -> int {
        (self.commands@.len() - self.cmd_idx) * 18 - (self.rep * 6 + self.attempt * 2 + if self.sleeping {
            1int
        } else {
            0int
        })
    }

    /// Every step of the policy pays off at least one owed action, so a
    /// dispatch reaches `Done` after finitely many of them.
    pub proof fn lemma_step_progress(s: Dispatcher, event: DispatchEvent)
        requires
            s.inv(),
            !s.done(),
            (event == DispatchEvent::Slept) <==> s.sleeping,
        ensures
            Self::spec_step(s, event).inv(),
            0 <= Self::spec_step(s, event).spec_measure() < s.spec_measure(),
    {
    }

    /// The event an always-failing transport reports for the owed action.
    pub open spec fn all_fail_event(s: Dispatcher) -> DispatchEvent {
        if s.sleeping {
            DispatchEvent::Slept
        } else {
            DispatchEvent::SendFailed
        }
    }

    /// How many sends a dispatch performs from state `s` onward when every
    /// attempt fails.
    pub open spec fn all_fail_sends(s: Dispatcher) -> int
        decreases s.spec_measure(),
        when s.inv()
        via Self::all_fail_sends_decreases
    {
        if s.done() {
            0
        } else {
            (if s.sleeping {
                0int
            } else {
                1int
            }) + Self::all_fail_sends(Self::spec_step(s, Self::all_fail_event(s)))
        }
    }

    #[via_fn]
    proof fn all_fail_sends_decreases(s: Dispatcher) {
        if !s.done() {
            Self::lemma_step_progress(s, Self::all_fail_event(s));
        }
    }

    /// One transmission under an always-failing transport: each of its
    /// `COMMAND_RETRY_TIMES` attempts costs a send, then it is given up.
    proof fn lemma_all_fail_repetition(s: Dispatcher)
        requires
            s.inv(),
            !s.done(),
            !s.sleeping,
            s.attempt == 0,
        ensures
            Self::all_fail_sends(s) == COMMAND_RETRY_TIMES + Self::all_fail_sends(
                Self::spec_finish_repetition(s),
            ),
    {
        let s1 = Self::spec_step(s, DispatchEvent::SendFailed);
        Self::lemma_step_progress(s, DispatchEvent::SendFailed);
        let s2 = Self::spec_step(s1, DispatchEvent::Slept);
        Self::lemma_step_progress(s1, DispatchEvent::Slept);
        let s3 = Self::spec_step(s2, DispatchEvent::SendFailed);
        Self::lemma_step_progress(s2, DispatchEvent::SendFailed);
        let s4 = Self::spec_step(s3, DispatchEvent::Slept);
        Self::lemma_step_progress(s3, DispatchEvent::Slept);
        let s5 = Self::spec_step(s4, DispatchEvent::SendFailed);
        Self::lemma_step_progress(s4, DispatchEvent::SendFailed);
        assert(s5 == Self::spec_finish_repetition(s));
        assert(Self::all_fail_sends(s) == 1 + Self::all_fail_sends(s1));
        assert(Self::all_fail_sends(s1) == Self::all_fail_sends(s2));
        assert(Self::all_fail_sends(s2) == 1 + Self::all_fail_sends(s3));
        assert(Self::all_fail_sends(s3) == Self::all_fail_sends(s4));
        assert(Self::all_fail_sends(s4) == 1 + Self::all_fail_sends(s5));
    }

    /// One command under an always-failing transport: `COMMAND_RUN_TIMES`
    /// transmissions of `COMMAND_RETRY_TIMES` attempts each.
    proof fn lemma_all_fail_command(s: Dispatcher)
        requires
            s.inv(),
            !s.done(),
            !s.sleeping,
            s.attempt == 0,
            s.rep == 0,
        ensures
            Self::all_fail_sends(s) == COMMAND_RUN_TIMES * COMMAND_RETRY_TIMES
                + Self::all_fail_sends(
                (Dispatcher {
                    cmd_idx: (s.cmd_idx + 1) as usize,
                    rep: 0,
                    attempt: 0,
                    sleeping: false,
                    ..s
                }),
            ),
    {
        let r1 = Self::spec_finish_repetition(s);
        Self::lemma_all_fail_repetition(s);
        assert(r1.inv());
        let r2 = Self::spec_finish_repetition(r1);
        Self::lemma_all_fail_repetition(r1);
        assert(r2.inv());
        let r3 = Self::spec_finish_repetition(r2);
        Self::lemma_all_fail_repetition(r2);
        assert(r3 == (Dispatcher {
            cmd_idx: (s.cmd_idx + 1) as usize,
            rep: 0,
            attempt: 0,
            sleeping: false,
            ..s
        }));
    }

    /// Under an always-failing transport, a dispatch standing at the start
    /// of a command performs exactly `COMMAND_RUN_TIMES * COMMAND_RETRY_TIMES`
    /// sends for each command still owed, and nevertheless runs to
    /// completion.
    pub proof fn lemma_all_fail_run(s: Dispatcher)
        requires
            s.inv(),
            !s.sleeping,
            s.attempt == 0,
            s.rep == 0,
        ensures
            Self::all_fail_sends(s) == COMMAND_RUN_TIMES * COMMAND_RETRY_TIMES * (
            s.commands@.len() - s.cmd_idx),
        decreases s.commands@.len() - s.cmd_idx,
    {
        if !s.done() {
            Self::lemma_all_fail_command(s);
            let next = Dispatcher {
                cmd_idx: (s.cmd_idx + 1) as usize,
                rep: 0,
                attempt: 0,
                sleeping: false,
                ..s
            };
            assert(next.inv());
            Self::lemma_all_fail_run(next);
        }
    }

    /// Start a dispatch: the input is compressed to at most one command per
    /// zone, and the counters are zeroed.
    pub fn new(commands: &[Command]) -> (d: Dispatcher)
        ensures
            d.commands@ == Command::compressed_spec(commands@),
            Command::is_compression(commands@, d.commands@),
            d.cmd_idx == 0,
            d.rep == 0,
            d.attempt == 0,
            !d.sleeping,
            d.inv(),
    {
        let compressed = Command::compress(commands);
        proof {
            assert(compressed@.len() <= usize::MAX);
        }
        Dispatcher { commands: compressed, cmd_idx: 0, rep: 0, attempt: 0, sleeping: false }
    }

    /// The action owed in this state.
    pub fn action(&self) -> (a: DispatchAction)
        ensures
            a == self.spec_action(),
    {
        if self.cmd_idx == self.commands.len() {
            DispatchAction::Done
        } else if self.sleeping {
            DispatchAction::Sleep
        } else {
            DispatchAction::Send
        }
    }

    /// The frame to transmit for the command under dispatch.
    pub fn current_frame(&self) -> (f: Vec<u8>)
        requires
            self.inv(),
            !self.done(),
        ensures
            f@ == self.commands@[self.cmd_idx as int].spec_frame(),
            f@.len() == 20,
    {
        self.commands[self.cmd_idx].encode()
    }

    /// Advance the policy by the outcome of the action just performed.
    pub fn step(&mut self, event: DispatchEvent)
        requires
            old(self).inv(),
            !old(self).done(),
            (event == DispatchEvent::Slept) <==> old(self).sleeping,
        ensures
            *final(self) == Self::spec_step(*old(self), event),
            final(self).inv(),
            final(self).commands@ == old(self).commands@,
            0 <= final(self).spec_measure() < old(self).spec_measure(),
    {
        proof {
            Self::lemma_step_progress(*self, event);
        }
        match event {
            DispatchEvent::SendOk => self.finish_repetition(),
            DispatchEvent::SendFailed => {
                if self.attempt + 1 < COMMAND_RETRY_TIMES {
                    self.sleeping = true;
                } else {
                    self.finish_repetition();
                }
            },
            DispatchEvent::Slept => {
                self.attempt = self.attempt + 1;
                self.sleeping = false;
            },
        }
    }

    /// One transmission of the current command is over: move on.
    fn finish_repetition(&mut self)
        requires
            old(self).cmd_idx < old(self).commands@.len(),
            old(self).rep < COMMAND_RUN_TIMES,
        ensures
            *final(self) == Self::spec_finish_repetition(*old(self)),
    {
        if self.rep + 1 < COMMAND_RUN_TIMES {
            self.rep = self.rep + 1;
            self.attempt = 0;
            self.sleeping = false;
        } else {
            let n = self.commands.len();
            proof {
                assert(self.cmd_idx < n);
            }
            self.cmd_idx = self.cmd_idx + 1;
            self.rep = 0;
            self.attempt = 0;
            self.sleeping = false;
        }
    }
}

} // verus!
