//! The execution-control state machine.
//!
//! The session owns the breakpoint table and knows whether an inferior is
//! live. Kernel work — spawning, waiting, continuing, stepping, reading and
//! writing traced memory — happens outside; the surrounding loop calls these
//! transition functions around each kernel call, handing in the statuses the
//! kernel reported. Ghost state tracks which breakpoint addresses are planted
//! and which byte the session last directed to be written at each of them, so
//! that trap coherence is an invariant of every transition.

use vstd::prelude::*;

use crate::table::{Breakpoint, BreakpointTable};
use crate::words::TRAP_OPCODE;

verus! {

/// Signal number of the trace trap, the stop every planted breakpoint and
/// every single step delivers.
pub const SIGTRAP: i32 = 5;

/// Outcome of one wait on the inferior: stopped by a signal at an instruction
/// pointer, exited with a code, or terminated by a signal.
#[derive(Clone, Copy, Debug, PartialEq, Eq, Structural)]
pub enum Status {
    Stopped(i32, usize),
    Exited(i32),
    Signaled(i32),
}

/// The stop that confirms a spawn or a completed single step.
pub open spec fn is_trap_stop(status: Status) -> bool {
    status matches Status::Stopped(sig, _) && sig == SIGTRAP
}

/// Whether a wait outcome leaves the inferior alive.
pub open spec fn leaves_alive(status: Status) -> bool {
    status matches Status::Stopped(_, _)
}

pub struct Session {
    pub table: BreakpointTable,
    pub live: bool,
    /// Addresses whose breakpoints are planted in the live inferior.
    pub planted: Ghost<Set<usize>>,
    /// The byte the session last directed to be written at each planted or
    /// unplanted breakpoint address of the live inferior.
    pub text: Ghost<Map<usize, u8>>,
}

impl Session {
    /// Trap coherence: every planted breakpoint address carries the trap
    /// opcode in the inferior's text.
    pub open spec fn trap_coherent(self) -> bool {
        forall|a: usize|
            self.planted@.contains(a) ==> self.text@.dom().contains(a) && self.text@[a]
                == TRAP_OPCODE
    }

    pub open spec fn wf(self) -> bool {
        &&& self.table.wf()
        &&& self.trap_coherent()
        &&& forall|a: usize| self.planted@.contains(a) ==> self.table.has_addr(a)
        &&& !self.live ==> self.planted@ == Set::<usize>::empty()
    }

    pub fn new() -> (r: Session)
        ensures
            r.wf(),
            !r.live,
            r.table@.len() == 0,
    {
        Session {
            table: BreakpointTable::new(),
            live: false,
            planted: Ghost(Set::empty()),
            text: Ghost(Map::empty()),
        }
    }

    /// Record a user breakpoint at `addr` and return its ordinal. The entry
    /// starts with a cleared original byte; planting in a live inferior is a
    /// separate step recorded by `record_plant`.
    pub fn insert_breakpoint(&mut self, addr: usize) -> (ord: usize)
        requires
            old(self).wf(),
            old(self).table@.len() < usize::MAX,
        ensures
            final(self).wf(),
            final(self).live == old(self).live,
            final(self).planted == old(self).planted,
            final(self).text == old(self).text,
            final(self).table.has_addr(addr),
            final(self).table.entry_at(addr) == (Breakpoint { addr, orig_byte: 0 }),
            ord == final(self).table@.len() - 1,
            forall|a: usize|
                a != addr ==> #[trigger] final(self).table.has_addr(a)
                    == old(self).table.has_addr(a),
            forall|a: usize|
                a != addr && old(self).table.has_addr(a)
                    ==> #[trigger] final(self).table.entry_at(a) == old(self).table.entry_at(a),
    {
        self.table.insert(addr)
    }

    /// Record that the trap opcode has been written at `addr` and that the
    /// write displaced `orig`: the breakpoint is now planted.
    pub fn record_plant(&mut self, addr: usize, orig: u8)
        requires
            old(self).wf(),
            old(self).live,
            old(self).table.has_addr(addr),
        ensures
            final(self).wf(),
            final(self).live,
            final(self).table@.len() == old(self).table@.len(),
            final(self).table.entry_at(addr) == (Breakpoint { addr, orig_byte: orig }),
            final(self).planted@ == old(self).planted@.insert(addr),
            final(self).text@ == old(self).text@.insert(addr, TRAP_OPCODE),
    {
        self.table.set_orig(addr, orig);
        self.planted = Ghost(self.planted@.insert(addr));
        self.text = Ghost(self.text@.insert(addr, TRAP_OPCODE));
    }

    /// A `run` command first discards any live inferior: returns whether the
    /// old one must be killed, and leaves the session with no inferior.
    pub fn begin_run(&mut self) -> (kill_needed: bool)
        requires
            old(self).wf(),
        ensures
            final(self).wf(),
            kill_needed == old(self).live,
            !final(self).live,
            final(self).table == old(self).table,
    {
        let was_live = self.live;
        self.live = false;
        self.planted = Ghost(Set::empty());
        self.text = Ghost(Map::empty());
        was_live
    }

    /// A fresh inferior has been spawned and is assumed stopped; nothing is
    /// planted in it yet.
    pub fn mark_spawned(&mut self)
        requires
            old(self).wf(),
            !old(self).live,
        ensures
            final(self).wf(),
            final(self).live,
            final(self).table == old(self).table,
            final(self).planted@ == Set::<usize>::empty(),
    {
        self.live = true;
        self.planted = Ghost(Set::empty());
        self.text = Ghost(Map::empty());
    }

    /// Apply the first wait after a spawn: the spawn counts only if the child
    /// stopped with the trace trap; any other outcome discards the inferior.
    pub fn confirm_initial_stop(&mut self, status: Status) -> (ok: bool)
        requires
            old(self).wf(),
            old(self).live,
        ensures
            final(self).wf(),
            ok == is_trap_stop(status),
            ok ==> *final(self) == *old(self),
            !ok ==> !final(self).live && final(self).table == old(self).table,
    {
        match status {
            Status::Stopped(sig, _) if sig == SIGTRAP => true,
            _ => {
                self.live = false;
                self.planted = Ghost(Set::empty());
                self.text = Ghost(Map::empty());
                false
            },
        }
    }

    /// Where `continue` or `next` must step over a planted trap: the reported
    /// instruction pointer sits one byte past the trap, so the breakpoint to
    /// step over, if any, is the table entry at `rip - 1`.
    pub fn resume_plan(&self, rip: usize) -> (r: Option<Breakpoint>)
        requires
            self.wf(),
            rip >= 1,
        ensures
            match r {
                Some(bp) => self.table.has_addr((rip - 1) as usize) && bp == self.table.entry_at(
                    (rip - 1) as usize,
                ),
                None => !self.table.has_addr((rip - 1) as usize),
            },
    {
        self.table.get(rip - 1)
    }

    /// Record that the original byte has been written back at `addr`, ahead
    /// of the single step of the step-over dance: the breakpoint is no longer
    /// planted.
    pub fn record_unplant(&mut self, addr: usize, orig: u8)
        requires
            old(self).wf(),
            old(self).live,
        ensures
            final(self).wf(),
            final(self).live,
            final(self).table == old(self).table,
            final(self).planted@ == old(self).planted@.remove(addr),
            final(self).text@ == old(self).text@.insert(addr, orig),
    {
        self.planted = Ghost(self.planted@.remove(addr));
        self.text = Ghost(self.text@.insert(addr, orig));
    }

    /// Apply the wait outcome of the single step inside the step-over dance.
    /// Returns whether the trap must be re-planted at `addr`: exactly when
    /// the step stopped with the trace trap. An exit or termination instead
    /// discards the inferior.
    pub fn step_over_outcome(&mut self, addr: usize, status: Status) -> (replant: bool)
        requires
            old(self).wf(),
            old(self).live,
            old(self).table.has_addr(addr),
        ensures
            final(self).wf(),
            replant == is_trap_stop(status),
            replant ==> final(self).live && final(self).planted@ == old(self).planted@.insert(addr)
                && final(self).text@ == old(self).text@.insert(addr, TRAP_OPCODE)
                && final(self).table == old(self).table,
            !replant ==> final(self).live == leaves_alive(status)
                && final(self).table == old(self).table,
    {
        match status {
            Status::Stopped(sig, _) if sig == SIGTRAP => {
                self.planted = Ghost(self.planted@.insert(addr));
                self.text = Ghost(self.text@.insert(addr, TRAP_OPCODE));
                true
            },
            Status::Stopped(_, _) => false,
            _ => {
                self.live = false;
                self.planted = Ghost(Set::empty());
                self.text = Ghost(Map::empty());
                false
            },
        }
    }

    /// Apply an ordinary wait outcome: a stop keeps the inferior, an exit or
    /// termination discards it.
    pub fn apply_wait(&mut self, status: Status)
        requires
            old(self).wf(),
            old(self).live,
        ensures
            final(self).wf(),
            final(self).live == leaves_alive(status),
            final(self).table == old(self).table,
            leaves_alive(status) ==> *final(self) == *old(self),
    {
        match status {
            Status::Stopped(_, _) => {},
            _ => {
                self.live = false;
                self.planted = Ghost(Set::empty());
                self.text = Ghost(Map::empty());
            },
        }
    }
}

/// Whether `next` accepts a stop: the step landed on a known source line that
/// differs from the line `next` started on.
pub open spec fn spec_next_stop(start_line: Option<usize>, new_line: Option<usize>) -> bool {
    new_line is Some && new_line != start_line
}

/// Decide whether a single step completed a `next`: the new line must be
/// known and different from the starting line.
pub fn next_should_stop(start_line: Option<usize>, new_line: Option<usize>) -> (r: bool)
    ensures
        r == spec_next_stop(start_line, new_line),
{
    match new_line {
        None => false,
        Some(n) => match start_line {
            None => true,
            Some(s) => n != s,
        },
    }
}

/// Trap coherence: in a well-formed session, every planted breakpoint address
/// reads back the trap opcode from the inferior's text.
pub proof fn lemma_trap_coherence(s: Session, a: usize)
    requires
        s.wf(),
        s.planted@.contains(a),
    ensures
        s.text@.dom().contains(a),
        s.text@[a] == TRAP_OPCODE,
{
}

/// A `next` that stopped did advance the source line: the stop resolves to a
/// known line, and either the walk started without a line or the numbers
/// differ.
pub proof fn lemma_next_advances_line(start_line: Option<usize>, new_line: Option<usize>)
    requires
        spec_next_stop(start_line, new_line),
    ensures
        new_line is Some,
        start_line is Some ==> new_line->0 != start_line->0,
{
}

/// Step-over idempotence: after the step-over dance at a breakpoint — the
/// original byte restored, a single step that stopped with the trace trap,
/// the trap re-planted — and any further stop that keeps the inferior alive,
/// the trap opcode still sits at the breakpoint address.
pub proof fn lemma_step_over_rearms(
    s0: Session,
    s1: Session,
    s2: Session,
    s3: Session,
    addr: usize,
    orig: u8,
    step_status: Status,
    later_status: Status,
)
    requires
        s0.wf(),
        s0.live,
        // the unplant ahead of the single step
        s1.planted@ == s0.planted@.remove(addr),
        s1.text@ == s0.text@.insert(addr, orig),
        // the single step stopped with the trace trap and the trap was re-planted
        is_trap_stop(step_status),
        s2.planted@ == s1.planted@.insert(addr),
        s2.text@ == s1.text@.insert(addr, TRAP_OPCODE),
        // a later wait that still reports the inferior stopped changes nothing
        leaves_alive(later_status),
        s3 == s2,
    ensures
        s3.planted@.contains(addr),
        s3.text@.dom().contains(addr),
        s3.text@[addr] == TRAP_OPCODE,
{
}

} // verus!
