//! The stepping rules of the debugger.
//!
//! The debugger drives an interpreter that executes one instruction at a
//! time. This module holds the state of a debugging session and decides,
//! around every instruction, whether execution stops and what is reported.
//! The caller owns the interpreter: it asks `before_step` what to do at the
//! current program counter, executes one instruction when told to, and hands
//! the outcome to `after_step`.

use crate::error::DebuggerError;
use crate::parser::{lemma_to_set_push, LineMap, LineMapView, ROData};
use crate::text::{decimal, hex, push_decimal, push_hex, push_hex16, push_str};
use vstd::std_specs::iter::IteratorSpec;
use std::collections::HashSet;
use vstd::prelude::*;

verus! {

broadcast use vstd::std_specs::hash::group_hash_axioms;

/// Number of registers of the interpreter: r0 to r10 and the instruction
/// index in r11.
pub const REGISTER_COUNT: usize = 12;

/// How `run` proceeds.
#[derive(Debug, Clone, Copy, PartialEq, Eq, Structural)]
pub enum DebugMode {
    /// Stop after one instruction.
    Step,
    /// Run to the next breakpoint or to the end of the program.
    Continue,
}

/// Why execution stopped.
#[derive(Debug, Clone, PartialEq, Eq)]
pub enum DebugEvent {
    /// A breakpoint at this program counter, with its line if known. The
    /// instruction there has not been executed.
    Breakpoint(u64, Option<usize>),
    /// One instruction was executed; program counter and line if known.
    Step(u64, Option<usize>),
    /// The program ended with this code.
    Exit(u64),
    /// The program failed.
    Error(String),
}

/// An event as a plain value.
pub enum DebugEventView {
    Breakpoint(u64, Option<usize>),
    Step(u64, Option<usize>),
    Exit(u64),
    Error(Seq<char>),
}

impl View for DebugEvent {
    type V = DebugEventView;

    open spec fn view(&self) -> DebugEventView {
        match self {
            DebugEvent::Breakpoint(pc, line) => DebugEventView::Breakpoint(*pc, *line),
            DebugEvent::Step(pc, line) => DebugEventView::Step(*pc, *line),
            DebugEvent::Exit(code) => DebugEventView::Exit(*code),
            DebugEvent::Error(message) => DebugEventView::Error(message@),
        }
    }
}

/// What the interpreter did when it was asked to execute one instruction.
#[derive(Debug, Clone, PartialEq, Eq)]
pub enum StepOutcome {
    /// The instruction was executed and the program goes on.
    Advanced,
    /// The program ended with this code.
    Exited(u64),
    /// The program failed; the text describes the failure.
    Failed(String),
}

/// An outcome as a plain value.
pub enum StepOutcomeView {
    Advanced,
    Exited(u64),
    Failed(Seq<char>),
}

impl View for StepOutcome {
    type V = StepOutcomeView;

    open spec fn view(&self) -> StepOutcomeView {
        match self {
            StepOutcome::Advanced => StepOutcomeView::Advanced,
            StepOutcome::Exited(code) => StepOutcomeView::Exited(*code),
            StepOutcome::Failed(detail) => StepOutcomeView::Failed(detail@),
        }
    }
}

/// What the caller does next at the current program counter.
#[derive(Debug, Clone, PartialEq, Eq)]
pub enum Action {
    /// Stop and report the event; no instruction is executed.
    Report(DebugEvent),
    /// Execute one instruction and call `after_step`.
    Execute,
}

/// An action as a plain value.
pub enum ActionView {
    Report(DebugEventView),
    Execute,
}

impl View for Action {
    type V = ActionView;

    open spec fn view(&self) -> ActionView {
        match self {
            Action::Report(event) => ActionView::Report(event@),
            Action::Execute => ActionView::Execute,
        }
    }
}

/// What follows an executed instruction.
#[derive(Debug, Clone, PartialEq, Eq)]
pub struct Verdict {
    /// Whether the compute units of the instruction are to be deducted from
    /// the meter now.
    pub settle: bool,
    /// The event to report, or `None` if execution goes on.
    pub event: Option<DebugEvent>,
}

/// A verdict as a plain value.
pub struct VerdictView {
    pub settle: bool,
    pub event: Option<DebugEventView>,
}

impl View for Verdict {
    type V = VerdictView;

    open spec fn view(&self) -> VerdictView {
        VerdictView {
            settle: self.settle,
            event: match self.event {
                Some(e) => Some(e@),
                None => None,
            },
        }
    }
}

/// The state of a debugging session.
pub struct Debugger {
    /// The program counters at which execution stops.
    pub breakpoints: HashSet<u64>,
    /// The lines for which breakpoints were set.
    pub line_breakpoints: HashSet<usize>,
    /// The line map of the program, if it has debug information.
    pub dwarf_line_map: Option<LineMap>,
    /// The symbols of the read-only data, if they could be read.
    pub rodata: Option<Vec<ROData>>,
    /// How `run` proceeds.
    pub debug_mode: DebugMode,
    /// Whether a breakpoint was just reported and its instruction is still
    /// to be executed.
    pub at_breakpoint: bool,
    /// The program counter of the breakpoint reported last, until execution
    /// has moved past it.
    pub last_breakpoint_pc: Option<u64>,
    /// The compute units that were available when the session began.
    pub initial_compute_budget: u64,
}

/// The state of a session as a plain value.
pub struct EngineView {
    pub breakpoints: Set<u64>,
    pub line_breakpoints: Set<usize>,
    pub lines: Option<LineMapView>,
    pub mode: DebugMode,
    pub at_breakpoint: bool,
    pub last_breakpoint_pc: Option<u64>,
    pub initial_compute_budget: u64,
}

impl View for Debugger {
    type V = EngineView;

    open spec fn view(&self) -> EngineView {
        EngineView {
            breakpoints: self.breakpoints@,
            line_breakpoints: self.line_breakpoints@,
            lines: match self.dwarf_line_map {
                Some(m) => Some(m@),
                None => None,
            },
            mode: self.debug_mode,
            at_breakpoint: self.at_breakpoint,
            last_breakpoint_pc: self.last_breakpoint_pc,
            initial_compute_budget: self.initial_compute_budget,
        }
    }
}

/// The message of a failure of the program at `pc`.
pub open spec fn failure_text(pc: u64, detail: Seq<char>) -> Seq<char> {
    "Program error at PC "@ + crate::text::hex16(pc as nat) + ": "@ + detail
}

impl EngineView {
    /// The line of `pc`, if the session has a line map that knows it.
    pub open spec fn line_of(self, pc: u64) -> Option<usize> {
        match self.lines {
            Some(m) => m.line_for_pc(pc),
            None => None,
        }
    }

    /// The program counters of `line`; none without a line map.
    pub open spec fn pcs_of(self, line: usize) -> Seq<u64> {
        match self.lines {
            Some(m) => m.pcs_for_line(line),
            None => Seq::empty(),
        }
    }

    /// Whether a breakpoint is reported at `pc` before its instruction is
    /// executed: `pc` is a breakpoint, none is pending, and `pc` is not the
    /// one reported last.
    pub open spec fn fires(self, pc: u64) -> bool {
        !self.at_breakpoint && self.breakpoints.contains(pc) && self.last_breakpoint_pc != Some(
            pc,
        )
    }

    /// The state in which a breakpoint at `pc` has just been reported.
    pub open spec fn stopped_at(self, pc: u64) -> EngineView {
        EngineView { at_breakpoint: true, last_breakpoint_pc: Some(pc), ..self }
    }

    /// The state in which no breakpoint is pending.
    pub open spec fn resumed(self) -> EngineView {
        EngineView { at_breakpoint: false, last_breakpoint_pc: None, ..self }
    }

    /// The decision at the program counter `pc`, before its instruction.
    pub open spec fn before_step(self, pc: u64) -> (EngineView, ActionView) {
        if self.fires(pc) {
            (
                self.stopped_at(pc),
                ActionView::Report(DebugEventView::Breakpoint(pc, self.line_of(pc))),
            )
        } else {
            (self, ActionView::Execute)
        }
    }

    /// The decision after the instruction at `old_pc` was asked for, with
    /// `new_pc` the program counter that the interpreter then shows.
    pub open spec fn after_step(self, old_pc: u64, outcome: StepOutcomeView, new_pc: u64) -> (
        EngineView,
        VerdictView,
    ) {
        match outcome {
            StepOutcomeView::Advanced => {
                if self.at_breakpoint {
                    match self.mode {
                        DebugMode::Step => {
                            if self.breakpoints.contains(new_pc) {
                                (
                                    self.stopped_at(new_pc),
                                    VerdictView {
                                        settle: true,
                                        event: Some(
                                            DebugEventView::Breakpoint(new_pc, self.line_of(new_pc)),
                                        ),
                                    },
                                )
                            } else {
                                (
                                    self.resumed(),
                                    VerdictView {
                                        settle: true,
                                        event: Some(
                                            DebugEventView::Step(new_pc, self.line_of(new_pc)),
                                        ),
                                    },
                                )
                            }
                        },
                        DebugMode::Continue => (
                            self.resumed(),
                            VerdictView { settle: true, event: None },
                        ),
                    }
                } else {
                    match self.mode {
                        DebugMode::Step => (
                            self,
                            VerdictView {
                                settle: true,
                                event: Some(DebugEventView::Step(old_pc, self.line_of(old_pc))),
                            },
                        ),
                        DebugMode::Continue => (self, VerdictView { settle: true, event: None }),
                    }
                }
            },
            StepOutcomeView::Exited(code) => (
                self,
                VerdictView { settle: true, event: Some(DebugEventView::Exit(code)) },
            ),
            StepOutcomeView::Failed(detail) => (
                self,
                VerdictView {
                    settle: false,
                    event: Some(DebugEventView::Error(failure_text(old_pc, detail))),
                },
            ),
        }
    }

    /// The state after a breakpoint was set at `line`: nothing changes if the
    /// line has no program counters.
    pub open spec fn set_line(self, line: usize) -> EngineView {
        if self.pcs_of(line).len() > 0 {
            EngineView {
                breakpoints: self.breakpoints.union(self.pcs_of(line).to_set()),
                line_breakpoints: self.line_breakpoints.insert(line),
                ..self
            }
        } else {
            self
        }
    }

    /// The state after the breakpoint of `line` was removed: nothing changes
    /// if the line has no program counters.
    pub open spec fn remove_line(self, line: usize) -> EngineView {
        if self.pcs_of(line).len() > 0 {
            EngineView {
                breakpoints: self.breakpoints.difference(self.pcs_of(line).to_set()),
                line_breakpoints: self.line_breakpoints.remove(line),
                ..self
            }
        } else {
            self
        }
    }

    /// Whether `pc` belongs to a line for which a breakpoint was set.
    pub open spec fn on_breakpoint_line(self, pc: u64) -> bool {
        exists|line: usize| self.line_breakpoints.contains(line) && #[trigger] self.pcs_of(
            line,
        ).contains(pc)
    }

    /// The state after all breakpoints of lines were cleared. With a line
    /// map, the program counters of the lines with a breakpoint leave the
    /// breakpoints; without one, all breakpoints leave.
    pub open spec fn cleared(self) -> EngineView {
        EngineView {
            breakpoints: if self.lines is Some {
                Set::new(|pc: u64| self.breakpoints.contains(pc) && !self.on_breakpoint_line(pc))
            } else {
                Set::empty()
            },
            line_breakpoints: Set::empty(),
            ..self
        }
    }
}

impl Debugger {
    /// Well-formedness: the line map, if any, is well-formed, and while a
    /// breakpoint is pending its program counter is remembered.
    pub open spec fn wf(&self) -> bool {
        &&& self.dwarf_line_map matches Some(m) ==> m.wf()
        &&& self.at_breakpoint ==> self.last_breakpoint_pc is Some
    }

    /// A session without breakpoints, line map or read-only data, in
    /// `Continue` mode, for a program that starts with
    /// `initial_compute_budget` compute units.
    pub fn new(initial_compute_budget: u64) -> (d: Self)
        ensures
            d.wf(),
            d@ == (EngineView {
                breakpoints: Set::empty(),
                line_breakpoints: Set::empty(),
                lines: None,
                mode: DebugMode::Continue,
                at_breakpoint: false,
                last_breakpoint_pc: None,
                initial_compute_budget,
            }),
            d.rodata is None,
    {
        Self {
            breakpoints: HashSet::new(),
            line_breakpoints: HashSet::new(),
            dwarf_line_map: None,
            rodata: None,
            debug_mode: DebugMode::Continue,
            at_breakpoint: false,
            last_breakpoint_pc: None,
            initial_compute_budget,
        }
    }

    /// Gives the session its line map.
    pub fn set_dwarf_line_map(&mut self, dwarf_map: LineMap)
        requires
            old(self).wf(),
            dwarf_map.wf(),
        ensures
            final(self).wf(),
            final(self)@ == (EngineView { lines: Some(dwarf_map@), ..old(self)@ }),
            final(self).dwarf_line_map == Some(dwarf_map),
            final(self).rodata == old(self).rodata,
    {
        self.dwarf_line_map = Some(dwarf_map);
    }

    /// Gives the session the symbols of the read-only data.
    pub fn set_rodata(&mut self, rodata: Vec<ROData>)
        ensures
            final(self).rodata == Some(rodata),
            final(self)@ == old(self)@,
            final(self).dwarf_line_map == old(self).dwarf_line_map,
    {
        self.rodata = Some(rodata);
    }

    /// Sets a breakpoint at the program counter `pc`.
    pub fn set_breakpoint(&mut self, pc: u64)
        ensures
            final(self)@ == (EngineView {
                breakpoints: old(self)@.breakpoints.insert(pc),
                ..old(self)@
            }),
            final(self).dwarf_line_map == old(self).dwarf_line_map,
            final(self).rodata == old(self).rodata,
    {
        self.breakpoints.insert(pc);
    }

    /// Sets a breakpoint at every program counter of `line`. A line without
    /// program counters is left alone; the call succeeds either way.
    #[verifier::rlimit(50)]
    pub fn set_breakpoint_at_line(&mut self, line: usize) -> (r: Result<(), String>)
        requires
            old(self).wf(),
        ensures
            r is Ok,
            final(self)@ == old(self)@.set_line(line),
            final(self).dwarf_line_map == old(self).dwarf_line_map,
            final(self).rodata == old(self).rodata,
    {
        let pcs: Vec<u64> = self.get_pcs_for_line(line);
        if pcs.len() > 0 {
            self.line_breakpoints.insert(line);
            let ghost start = self.breakpoints@;
            let mut i: usize = 0;
            while i < pcs.len()
                invariant
                    i <= pcs.len(),
                    self.breakpoints@ == start.union(pcs@.subrange(0, i as int).to_set()),
                    self.line_breakpoints@ == old(self).line_breakpoints@.insert(line),
                    self.dwarf_line_map == old(self).dwarf_line_map,
                    self.rodata == old(self).rodata,
                    self.debug_mode == old(self).debug_mode,
                    self.at_breakpoint == old(self).at_breakpoint,
                    self.last_breakpoint_pc == old(self).last_breakpoint_pc,
                    self.initial_compute_budget == old(self).initial_compute_budget,
                decreases pcs.len() - i,
            {
                self.breakpoints.insert(pcs[i]);
                i = i + 1;
                proof {
                    lemma_to_set_push(pcs@.subrange(0, i - 1), pcs@[i - 1]);
                    assert(pcs@.subrange(0, i as int) =~= pcs@.subrange(0, i - 1).push(pcs@[i - 1]));
                    assert(self.breakpoints@ =~= start.union(pcs@.subrange(0, i as int).to_set()));
                }
            }
            assert(pcs@.subrange(0, i as int) =~= pcs@);
        }
        Ok(())
    }

    /// Removes the breakpoint at every program counter of `line`. A line
    /// without program counters is left alone; the call succeeds either way.
    #[verifier::rlimit(50)]
    pub fn remove_breakpoint_at_line(&mut self, line: usize) -> (r: Result<(), String>)
        requires
            old(self).wf(),
        ensures
            r is Ok,
            final(self)@ == old(self)@.remove_line(line),
            final(self).dwarf_line_map == old(self).dwarf_line_map,
            final(self).rodata == old(self).rodata,
    {
        let pcs: Vec<u64> = self.get_pcs_for_line(line);
        if pcs.len() > 0 {
            self.line_breakpoints.remove(&line);
            let ghost start = self.breakpoints@;
            let mut i: usize = 0;
            while i < pcs.len()
                invariant
                    i <= pcs.len(),
                    self.breakpoints@ == start.difference(pcs@.subrange(0, i as int).to_set()),
                    self.line_breakpoints@ == old(self).line_breakpoints@.remove(line),
                    self.dwarf_line_map == old(self).dwarf_line_map,
                    self.rodata == old(self).rodata,
                    self.debug_mode == old(self).debug_mode,
                    self.at_breakpoint == old(self).at_breakpoint,
                    self.last_breakpoint_pc == old(self).last_breakpoint_pc,
                    self.initial_compute_budget == old(self).initial_compute_budget,
                decreases pcs.len() - i,
            {
                let pc: u64 = pcs[i];
                self.breakpoints.remove(&pc);
                i = i + 1;
                proof {
                    lemma_to_set_push(pcs@.subrange(0, i - 1), pcs@[i - 1]);
                    assert(pcs@.subrange(0, i as int) =~= pcs@.subrange(0, i - 1).push(pcs@[i - 1]));
                    assert(self.breakpoints@ =~= start.difference(
                        pcs@.subrange(0, i as int).to_set(),
                    ));
                }
            }
            assert(pcs@.subrange(0, i as int) =~= pcs@);
        }
        Ok(())
    }

    /// The line of the program counter `pc`.
    pub fn get_current_line(&self, pc: u64) -> (line: Option<usize>)
        requires
            self.wf(),
        ensures
            line == self@.line_of(pc),
    {
        self.get_line_for_pc(pc)
    }

    /// The line of the program counter `pc`; `None` without a line map or
    /// where the map does not know `pc`.
    pub fn get_line_for_pc(&self, pc: u64) -> (line: Option<usize>)
        requires
            self.wf(),
        ensures
            line == self@.line_of(pc),
    {
        match &self.dwarf_line_map {
            Some(m) => m.get_line_for_pc(pc),
            None => None,
        }
    }

    /// The program counters of `line`; empty without a line map.
    pub fn get_pcs_for_line(&self, line: usize) -> (pcs: Vec<u64>)
        requires
            self.wf(),
        ensures
            pcs@ == self@.pcs_of(line),
    {
        match &self.dwarf_line_map {
            Some(m) => m.get_pcs_for_line(line),
            None => Vec::new(),
        }
    }

    /// Chooses how `run` proceeds.
    pub fn set_debug_mode(&mut self, debug_mode: DebugMode)
        ensures
            final(self)@ == (EngineView { mode: debug_mode, ..old(self)@ }),
            final(self).dwarf_line_map == old(self).dwarf_line_map,
            final(self).rodata == old(self).rodata,
    {
        self.debug_mode = debug_mode;
    }

    /// Whether the session has a line map.
    pub fn has_line_mapping(&self) -> (b: bool)
        ensures
            b == (self@.lines is Some),
    {
        self.dwarf_line_map.is_some()
    }

    /// The symbols of the read-only data.
    pub fn get_rodata(&self) -> (r: Option<&Vec<ROData>>)
        ensures
            match r {
                Some(v) => self.rodata == Some(*v),
                None => self.rodata is None,
            },
    {
        self.rodata.as_ref()
    }

    /// Decides what happens at the program counter `pc` before its
    /// instruction is executed: a breakpoint there is reported, unless it is
    /// pending or was the last one reported; otherwise the instruction is to
    /// be executed.
    pub fn before_step(&mut self, pc: u64) -> (action: Action)
        requires
            old(self).wf(),
        ensures
            final(self).wf(),
            (final(self)@, action@) == old(self)@.before_step(pc),
            final(self).dwarf_line_map == old(self).dwarf_line_map,
            final(self).rodata == old(self).rodata,
    {
        if !self.at_breakpoint && self.breakpoints.contains(&pc) && !is_pc(
            self.last_breakpoint_pc,
            pc,
        ) {
            self.at_breakpoint = true;
            self.last_breakpoint_pc = Some(pc);
            let line: Option<usize> = self.get_line_for_pc(pc);
            Action::Report(DebugEvent::Breakpoint(pc, line))
        } else {
            Action::Execute
        }
    }

    /// Decides what follows the instruction at `old_pc`. `outcome` is what
    /// the interpreter did, `new_pc` the program counter that it shows
    /// afterwards.
    #[verifier::rlimit(50)]
    pub fn after_step(&mut self, old_pc: u64, outcome: StepOutcome, new_pc: u64) -> (verdict: Verdict)
        requires
            old(self).wf(),
        ensures
            final(self).wf(),
            (final(self)@, verdict@) == old(self)@.after_step(old_pc, outcome@, new_pc),
            final(self).dwarf_line_map == old(self).dwarf_line_map,
            final(self).rodata == old(self).rodata,
    {
        match outcome {
            StepOutcome::Advanced => {
                if self.at_breakpoint {
                    self.at_breakpoint = false;
                    self.last_breakpoint_pc = None;
                    match self.debug_mode {
                        DebugMode::Step => {
                            let line: Option<usize> = self.get_line_for_pc(new_pc);
                            if self.breakpoints.contains(&new_pc) {
                                self.at_breakpoint = true;
                                self.last_breakpoint_pc = Some(new_pc);
                                Verdict {
                                    settle: true,
                                    event: Some(DebugEvent::Breakpoint(new_pc, line)),
                                }
                            } else {
                                Verdict { settle: true, event: Some(DebugEvent::Step(new_pc, line)) }
                            }
                        },
                        DebugMode::Continue => Verdict { settle: true, event: None },
                    }
                } else {
                    match self.debug_mode {
                        DebugMode::Step => {
                            let line: Option<usize> = self.get_line_for_pc(old_pc);
                            Verdict { settle: true, event: Some(DebugEvent::Step(old_pc, line)) }
                        },
                        DebugMode::Continue => Verdict { settle: true, event: None },
                    }
                }
            },
            StepOutcome::Exited(code) => Verdict {
                settle: true,
                event: Some(DebugEvent::Exit(code)),
            },
            StepOutcome::Failed(detail) => {
                let mut message: String = String::new();
                push_str(&mut message, "Program error at PC ");
                push_hex16(&mut message, old_pc);
                push_str(&mut message, ": ");
                push_str(&mut message, detail.as_str());
                assert(message@ =~= failure_text(old_pc, detail@));
                Verdict { settle: false, event: Some(DebugEvent::Error(message)) }
            },
        }
    }
}

/// Whether `last` holds `pc`.
fn is_pc(last: Option<u64>, pc: u64) -> (b: bool)
    ensures
        b == (last == Some(pc)),
{
    match last {
        Some(p) => p == pc,
        None => false,
    }
}


/// The members of `set`, each once, in no particular order.
pub fn members<K: Copy>(set: &HashSet<K>) -> (list: Vec<K>)
    requires
        vstd::std_specs::hash::obeys_key_model::<K>(),
    ensures
        list@.to_set() == set@,
        list@.no_duplicates(),
{
    let mut list: Vec<K> = Vec::new();
    let ghost all: Seq<K> = vstd::std_specs::hash::spec_hash_keys_iter(set).remaining().unref();
    for key in it: set.iter()
        invariant
            it.seq().unref() == all,
            list@ == all.subrange(0, it.index() as int),
    {
        list.push(*key);
        assert(list@ =~= all.subrange(0, it.index() + 1));
    }
    assert(list@ =~= all);
    list
}

/// A frame of the call stack for display.
#[derive(Debug, Clone, PartialEq, Eq)]
pub struct StackFrame {
    /// Position in the stack, the outermost frame first.
    pub index: usize,
    /// Name shown for the frame.
    pub name: String,
    /// Source file, `?` if unknown.
    pub file: String,
    /// Source line, 0 if unknown.
    pub line: usize,
    /// Program counter of the frame.
    pub instruction: u64,
}

/// A frame as a plain value.
pub struct StackFrameView {
    pub index: usize,
    pub name: Seq<char>,
    pub file: Seq<char>,
    pub line: usize,
    pub instruction: u64,
}

impl View for StackFrame {
    type V = StackFrameView;

    open spec fn view(&self) -> StackFrameView {
        StackFrameView {
            index: self.index,
            name: self.name@,
            file: self.file@,
            line: self.line,
            instruction: self.instruction,
        }
    }
}

/// The compute units of a session.
#[derive(Debug, Clone, Copy, PartialEq, Eq, Structural)]
pub struct ComputeUnits {
    /// The units that were available when the session began.
    pub total: u64,
    /// The units consumed so far.
    pub used: u64,
    /// The units that are left.
    pub remaining: u64,
}

/// The units consumed when `remaining` of `total` are left.
pub open spec fn used_units(total: u64, remaining: u64) -> u64 {
    if remaining <= total {
        (total - remaining) as u64
    } else {
        0
    }
}

/// The text of a list of program counters: each as `0x` and hexadecimal
/// digits, separated by a comma and a space.
pub open spec fn joined_pcs(pcs: Seq<u64>) -> Seq<char>
    decreases pcs.len(),
{
    if pcs.len() == 0 {
        Seq::empty()
    } else if pcs.len() == 1 {
        "0x"@ + hex(pcs[0] as nat)
    } else {
        joined_pcs(pcs.drop_last()) + ", "@ + "0x"@ + hex(pcs.last() as nat)
    }
}

impl EngineView {
    /// Name, file and line shown for the frame at `pc`.
    pub open spec fn frame_of(self, index: usize, pc: u64) -> StackFrameView {
        match self.lines {
            Some(m) => if m.locations.contains_key(pc) {
                StackFrameView {
                    index,
                    name: m.locations[pc].file,
                    file: m.locations[pc].file,
                    line: m.locations[pc].line as usize,
                    instruction: pc,
                }
            } else if m.pc_line.contains_key(pc) {
                StackFrameView {
                    index,
                    name: "?"@,
                    file: "?"@,
                    line: m.pc_line[pc],
                    instruction: pc,
                }
            } else {
                StackFrameView { index, name: "?"@, file: "?"@, line: 0, instruction: pc }
            },
            None => StackFrameView { index, name: "?"@, file: "?"@, line: 0, instruction: pc },
        }
    }

    /// The line of the breakpoint list for the program counter `pc`.
    pub open spec fn pc_entry(self, pc: u64) -> Seq<char> {
        match self.line_of(pc) {
            Some(line) => "  PC 0x"@ + hex(pc as nat) + " (line "@ + decimal(line as nat) + ")\n"@,
            None => "  PC 0x"@ + hex(pc as nat) + "\n"@,
        }
    }

    /// The lines of the breakpoint list for `pcs`, in order.
    pub open spec fn pc_entries(self, pcs: Seq<u64>) -> Seq<char>
        decreases pcs.len(),
    {
        if pcs.len() == 0 {
            Seq::empty()
        } else {
            self.pc_entries(pcs.drop_last()) + self.pc_entry(pcs.last())
        }
    }

    /// The line of the breakpoint list for the source line `line`; nothing
    /// for a line without program counters.
    pub open spec fn line_entry(self, line: usize) -> Seq<char> {
        if self.pcs_of(line).len() > 0 {
            "  Line "@ + decimal(line as nat) + " (PCs: "@ + joined_pcs(self.pcs_of(line)) + ")\n"@
        } else {
            Seq::empty()
        }
    }

    /// The lines of the breakpoint list for `lines`, in order.
    pub open spec fn line_entries(self, lines: Seq<usize>) -> Seq<char>
        decreases lines.len(),
    {
        if lines.len() == 0 {
            Seq::empty()
        } else {
            self.line_entries(lines.drop_last()) + self.line_entry(lines.last())
        }
    }

    /// The breakpoint list that shows the breakpoints in the order of `pcs`
    /// and `lines`.
    pub open spec fn breakpoints_text(self, pcs: Seq<u64>, lines: Seq<usize>) -> Seq<char> {
        let by_pc = if self.breakpoints.len() > 0 {
            "PC breakpoints:\n"@ + self.pc_entries(pcs)
        } else {
            Seq::empty()
        };
        let by_line = if self.line_breakpoints.len() > 0 {
            "Line breakpoints:\n"@ + self.line_entries(lines)
        } else {
            Seq::empty()
        };
        if (by_pc + by_line).len() == 0 {
            "No breakpoints set\n"@
        } else {
            by_pc + by_line
        }
    }
}

impl Debugger {
    /// Removes the breakpoints of all lines. With a line map, the program
    /// counters of every line with a breakpoint leave the breakpoints and
    /// breakpoints set by program counter alone stay; without a line map all
    /// breakpoints are removed.
    #[verifier::rlimit(50)]
    pub fn clear_breakpoints(&mut self)
        requires
            old(self).wf(),
        ensures
            final(self).wf(),
            final(self)@ == old(self)@.cleared(),
            final(self).dwarf_line_map == old(self).dwarf_line_map,
            final(self).rodata == old(self).rodata,
    {
        let ghost before = self@;
        match &self.dwarf_line_map {
            Some(m) => {
                let lines: Vec<usize> = members(&self.line_breakpoints);
                let ghost start = self.breakpoints@;
                let ghost start_lines = self.line_breakpoints@;
                let mut i: usize = 0;
                while i < lines.len()
                    invariant
                        i <= lines.len(),
                        m.wf(),
                        before.lines == Some(m@),
                        self.dwarf_line_map == old(self).dwarf_line_map,
                        self.rodata == old(self).rodata,
                        self.debug_mode == old(self).debug_mode,
                        self.at_breakpoint == old(self).at_breakpoint,
                        self.last_breakpoint_pc == old(self).last_breakpoint_pc,
                        self.initial_compute_budget == old(self).initial_compute_budget,
                        self.breakpoints@ == Set::new(
                            |pc: u64|
                                start.contains(pc) && !(exists|k: int|
                                    0 <= k < i && #[trigger] m@.pcs_for_line(lines@[k]).contains(pc)),
                        ),
                        self.line_breakpoints@ == start_lines.difference(
                            lines@.subrange(0, i as int).to_set(),
                        ),
                    decreases lines.len() - i,
                {
                    let line: usize = lines[i];
                    let pcs: Vec<u64> = m.get_pcs_for_line(line);
                    let ghost outer = self.breakpoints@;
                    let mut j: usize = 0;
                    while j < pcs.len()
                        invariant
                            j <= pcs.len(),
                            i < lines.len(),
                            self.dwarf_line_map == old(self).dwarf_line_map,
                            self.rodata == old(self).rodata,
                            self.debug_mode == old(self).debug_mode,
                            self.at_breakpoint == old(self).at_breakpoint,
                            self.last_breakpoint_pc == old(self).last_breakpoint_pc,
                            self.initial_compute_budget == old(self).initial_compute_budget,
                            self.breakpoints@ == outer.difference(pcs@.subrange(0, j as int).to_set()),
                            self.line_breakpoints@ == start_lines.difference(
                                lines@.subrange(0, i as int).to_set(),
                            ),
                        decreases pcs.len() - j,
                    {
                        let pc: u64 = pcs[j];
                        self.breakpoints.remove(&pc);
                        j = j + 1;
                        proof {
                            lemma_to_set_push(pcs@.subrange(0, j - 1), pc);
                            assert(pcs@.subrange(0, j as int) =~= pcs@.subrange(0, j - 1).push(pc));
                            assert(self.breakpoints@ =~= outer.difference(
                                pcs@.subrange(0, j as int).to_set(),
                            ));
                        }
                    }
                    self.line_breakpoints.remove(&line);
                    i = i + 1;
                    proof {
                        assert(pcs@.subrange(0, j as int) =~= pcs@);
                        lemma_to_set_push(lines@.subrange(0, i - 1), line);
                        assert(lines@.subrange(0, i as int) =~= lines@.subrange(0, i - 1).push(line));
                        assert(self.line_breakpoints@ =~= start_lines.difference(
                            lines@.subrange(0, i as int).to_set(),
                        ));
                        assert forall|pc: u64| self.breakpoints@.contains(pc) <==> (start.contains(
                            pc,
                        ) && !(exists|k: int|
                            0 <= k < i && #[trigger] m@.pcs_for_line(lines@[k]).contains(pc))) by {
                            if pcs@.contains(pc) {
                                assert(m@.pcs_for_line(lines@[i - 1]).contains(pc));
                            }
                        }
                        assert(self.breakpoints@ =~= Set::new(
                            |pc: u64|
                                start.contains(pc) && !(exists|k: int|
                                    0 <= k < i && #[trigger] m@.pcs_for_line(lines@[k]).contains(pc)),
                        ));
                    }
                }
                proof {
                    assert(lines@.subrange(0, i as int) =~= lines@);
                    assert(self.line_breakpoints@ =~= Set::<usize>::empty());
                    assert forall|pc: u64| self.breakpoints@.contains(pc) <==> (start.contains(pc)
                        && !before.on_breakpoint_line(pc)) by {
                        if before.on_breakpoint_line(pc) {
                            let line = choose|line: usize|
                                before.line_breakpoints.contains(line) && #[trigger] before.pcs_of(
                                    line,
                                ).contains(pc);
                            assert(lines@.to_set().contains(line));
                            let k = choose|k: int| 0 <= k < lines@.len() && lines@[k] == line;
                            assert(m@.pcs_for_line(lines@[k]).contains(pc));
                        }
                        if exists|k: int|
                            0 <= k < i && #[trigger] m@.pcs_for_line(lines@[k]).contains(pc) {
                            let k = choose|k: int|
                                0 <= k < i && #[trigger] m@.pcs_for_line(lines@[k]).contains(pc);
                            assert(lines@.to_set().contains(lines@[k]));
                            assert(before.pcs_of(lines@[k]).contains(pc));
                        }
                    }
                    assert(self.breakpoints@ =~= before.cleared().breakpoints);
                }
            },
            None => {
                self.breakpoints.clear();
                self.line_breakpoints.clear();
            },
        }
    }

    /// The breakpoints as text: the program counters with their lines, then
    /// the lines with their program counters. The order within each list is
    /// not fixed.
    #[verifier::rlimit(50)]
    pub fn get_breakpoints_info(&self) -> (info: String)
        requires
            self.wf(),
        ensures
            exists|pcs: Seq<u64>, lines: Seq<usize>|
                pcs.no_duplicates() && pcs.to_set() == self@.breakpoints && lines.no_duplicates()
                    && lines.to_set() == self@.line_breakpoints && info@
                    == #[trigger] self@.breakpoints_text(pcs, lines),
    {
        let mut info: String = String::new();
        let pcs: Vec<u64> = members(&self.breakpoints);
        let lines: Vec<usize> = members(&self.line_breakpoints);
        if !self.breakpoints.is_empty() {
            push_str(&mut info, "PC breakpoints:\n");
            let ghost head = info@;
            let mut i: usize = 0;
            while i < pcs.len()
                invariant
                    i <= pcs.len(),
                    self.wf(),
                    info@ == head + self@.pc_entries(pcs@.subrange(0, i as int)),
                decreases pcs.len() - i,
            {
                let pc: u64 = pcs[i];
                let ghost so_far = info@;
                proof {
                    assert(pcs@.subrange(0, i + 1).drop_last() =~= pcs@.subrange(0, i as int));
                }
                match self.get_line_for_pc(pc) {
                    Some(line) => {
                        push_str(&mut info, "  PC 0x");
                        push_hex(&mut info, pc);
                        push_str(&mut info, " (line ");
                        push_decimal(&mut info, line as u64);
                        push_str(&mut info, ")\n");
                    },
                    None => {
                        push_str(&mut info, "  PC 0x");
                        push_hex(&mut info, pc);
                        push_str(&mut info, "\n");
                    },
                }
                assert(info@ =~= so_far + self@.pc_entry(pc));
                i = i + 1;
                assert(info@ =~= head + self@.pc_entries(pcs@.subrange(0, i as int)));
            }
            assert(pcs@.subrange(0, i as int) =~= pcs@);
        }
        if !self.line_breakpoints.is_empty() {
            push_str(&mut info, "Line breakpoints:\n");
            let ghost head = info@;
            let mut i: usize = 0;
            while i < lines.len()
                invariant
                    i <= lines.len(),
                    self.wf(),
                    info@ == head + self@.line_entries(lines@.subrange(0, i as int)),
                decreases lines.len() - i,
            {
                let line: usize = lines[i];
                let ghost so_far = info@;
                proof {
                    assert(lines@.subrange(0, i + 1).drop_last() =~= lines@.subrange(0, i as int));
                }
                let line_pcs: Vec<u64> = self.get_pcs_for_line(line);
                if line_pcs.len() > 0 {
                    push_str(&mut info, "  Line ");
                    push_decimal(&mut info, line as u64);
                    push_str(&mut info, " (PCs: ");
                    let ghost open = info@;
                    let mut j: usize = 0;
                    while j < line_pcs.len()
                        invariant
                            j <= line_pcs.len(),
                            info@ == open + joined_pcs(line_pcs@.subrange(0, j as int)),
                        decreases line_pcs.len() - j,
                    {
                        proof {
                            assert(line_pcs@.subrange(0, j + 1).drop_last() =~= line_pcs@.subrange(
                                0,
                                j as int,
                            ));
                        }
                        if j > 0 {
                            push_str(&mut info, ", ");
                        }
                        push_str(&mut info, "0x");
                        push_hex(&mut info, line_pcs[j]);
                        j = j + 1;
                        assert(info@ =~= open + joined_pcs(line_pcs@.subrange(0, j as int)));
                    }
                    assert(line_pcs@.subrange(0, j as int) =~= line_pcs@);
                    push_str(&mut info, ")\n");
                }
                assert(info@ =~= so_far + self@.line_entry(line));
                i = i + 1;
                assert(info@ =~= head + self@.line_entries(lines@.subrange(0, i as int)));
            }
            assert(lines@.subrange(0, i as int) =~= lines@);
        }
        if info.as_str().is_empty() {
            push_str(&mut info, "No breakpoints set\n");
        }
        proof {
            assert(info@ =~= self@.breakpoints_text(pcs@, lines@));
        }
        info
    }

    /// What is known of the line map, as text.
    pub fn get_line_mapping_info(&self) -> (info: String)
        requires
            self.wf(),
        ensures
            self@.lines matches Some(m) ==> exists|sample: Seq<u64>| #[trigger]
                m.is_sample(sample) && info@ == m.debug_text(sample),
            self@.lines is None ==> info@
                == "No DWARF line mapping available. Compile with debug info (-g)"@,
    {
        match &self.dwarf_line_map {
            Some(m) => {
                let info: String = m.debug_info();
                proof {
                    let sample = choose|sample: Seq<u64>| #[trigger]
                        m@.is_sample(sample) && info@ == m@.debug_text(sample);
                    assert(self@.lines == Some(m@));
                    let v = self@.lines->0;
                    assert(v.is_sample(sample) && info@ == v.debug_text(sample));
                }
                info
            },
            None => {
                let mut info: String = String::new();
                push_str(
                    &mut info,
                    "No DWARF line mapping available. Compile with debug info (-g)",
                );
                assert(info@ =~= "No DWARF line mapping available. Compile with debug info (-g)"@);
                info
            },
        }
    }

    /// The frame shown for the program counter `pc` at position `index`: the
    /// file and line of `pc` where the line map has them, `?` and 0 otherwise.
    pub fn frame_at(&self, index: usize, pc: u64) -> (frame: StackFrame)
        requires
            self.wf(),
        ensures
            frame@ == self@.frame_of(index, pc),
    {
        match &self.dwarf_line_map {
            Some(m) => {
                match m.get_source_location(pc) {
                    Some(location) => {
                        return StackFrame {
                            index,
                            name: location.file.clone(),
                            file: location.file.clone(),
                            line: location.line as usize,
                            instruction: pc,
                        };
                    },
                    None => {},
                }
                match m.get_line_for_pc(pc) {
                    Some(line) => {
                        return StackFrame {
                            index,
                            name: unknown_name(),
                            file: unknown_name(),
                            line,
                            instruction: pc,
                        };
                    },
                    None => {},
                }
            },
            None => {},
        }
        StackFrame { index, name: unknown_name(), file: unknown_name(), line: 0, instruction: pc }
    }

    /// The call stack: one frame for each active call, outermost first,
    /// with the program counter that the call frame holds, and a last frame
    /// for the current program counter.
    pub fn get_stack_frames(&self, call_frame_pcs: &[u64], current_pc: u64) -> (frames: Vec<
        StackFrame,
    >)
        requires
            self.wf(),
        ensures
            frames@.len() == call_frame_pcs@.len() + 1,
            forall|i: int|
                0 <= i < call_frame_pcs@.len() ==> (#[trigger] frames@[i])@ == self@.frame_of(
                    i as usize,
                    call_frame_pcs@[i],
                ),
            frames@[call_frame_pcs@.len() as int]@ == self@.frame_of(
                call_frame_pcs@.len() as usize,
                current_pc,
            ),
    {
        let mut frames: Vec<StackFrame> = Vec::new();
        let mut i: usize = 0;
        while i < call_frame_pcs.len()
            invariant
                i <= call_frame_pcs.len(),
                self.wf(),
                frames@.len() == i,
                forall|k: int|
                    0 <= k < i ==> (#[trigger] frames@[k])@ == self@.frame_of(
                        k as usize,
                        call_frame_pcs@[k],
                    ),
            decreases call_frame_pcs.len() - i,
        {
            let frame: StackFrame = self.frame_at(i, call_frame_pcs[i]);
            frames.push(frame);
            i = i + 1;
        }
        let last: StackFrame = self.frame_at(i, current_pc);
        frames.push(last);
        frames
    }

    /// The program counter in bytes: the instruction index in register 11
    /// times the size of an instruction.
    pub fn get_pc(registers: &[u64; 12]) -> (pc: u64)
        requires
            registers@[11] * 8 <= u64::MAX,
        ensures
            pc == registers@[11] * 8,
    {
        registers[11] * crate::elf::insn_size()
    }

    /// The value of register `idx`, if there is such a register.
    pub fn get_register(registers: &[u64; 12], idx: usize) -> (value: Option<u64>)
        ensures
            value == (if idx < 12 {
                Some(registers@[idx as int])
            } else {
                None
            }),
    {
        if idx < REGISTER_COUNT {
            Some(registers[idx])
        } else {
            None
        }
    }

    /// Sets register `idx` to `value`; an index outside the register file is
    /// an error and leaves the registers as they are.
    pub fn set_register(registers: &mut [u64; 12], idx: usize, value: u64) -> (r: Result<
        (),
        DebuggerError,
    >)
        ensures
            idx < 12 ==> r is Ok && final(registers)@ == old(registers)@.update(idx as int, value),
            idx >= 12 ==> r == Err::<(), DebuggerError>(DebuggerError::RegisterOutOfRange(idx))
                && final(registers)@ == old(registers)@,
    {
        if idx < REGISTER_COUNT {
            registers[idx] = value;
            Ok(())
        } else {
            Err(DebuggerError::RegisterOutOfRange(idx))
        }
    }

    /// The compute units of the session when `remaining` units are left.
    pub fn get_compute_units(&self, remaining: u64) -> (units: ComputeUnits)
        ensures
            units.total == self@.initial_compute_budget,
            units.remaining == remaining,
            units.used == used_units(self@.initial_compute_budget, remaining),
    {
        let total: u64 = self.initial_compute_budget;
        let used: u64 = if remaining <= total {
            total - remaining
        } else {
            0
        };
        ComputeUnits { total, used, remaining }
    }
}

/// The text shown where a name or file is unknown.
fn unknown_name() -> (s: String)
    ensures
        s@ == "?"@,
{
    let mut s: String = String::new();
    push_str(&mut s, "?");
    assert(s@ =~= "?"@);
    s
}

/// What the interpreter does at each instruction of a run: the outcome of
/// instruction number `n` of the run and the program counter that the
/// interpreter shows after it.
pub type Script = spec_fn(nat) -> (StepOutcomeView, u64);

/// The end of a run: the state, the event that ended it (`None` if the run
/// was cut off), and the number of instructions that were executed.
pub struct RunView {
    pub state: EngineView,
    pub event: Option<DebugEventView>,
    pub executed: nat,
}

impl EngineView {
    /// A run from the program counter `pc`: ask `before_step`, report or
    /// execute, ask `after_step`, and go on at the new program counter until
    /// there is an event. `executed` counts the instructions so far; `limit`
    /// cuts the run off after that many rounds.
    pub open spec fn run(self, pc: u64, script: Script, executed: nat, limit: nat) -> RunView
        decreases limit,
    {
        if limit == 0 {
            RunView { state: self, event: None, executed }
        } else {
            let (ready, action) = self.before_step(pc);
            match action {
                ActionView::Report(event) => RunView { state: ready, event: Some(event), executed },
                ActionView::Execute => {
                    let (outcome, new_pc) = script(executed);
                    let (next, verdict) = ready.after_step(pc, outcome, new_pc);
                    match verdict.event {
                        Some(event) => RunView {
                            state: next,
                            event: Some(event),
                            executed: executed + 1,
                        },
                        None => next.run(new_pc, script, executed + 1, (limit - 1) as nat),
                    }
                },
            }
        }
    }
}

/// Setting a breakpoint at a line a second time changes nothing.
pub proof fn lemma_set_line_twice(s: EngineView, line: usize)
    ensures
        s.set_line(line).set_line(line) == s.set_line(line),
{
    let once = s.set_line(line);
    let twice = once.set_line(line);
    assert(once.pcs_of(line) == s.pcs_of(line));
    assert(twice.breakpoints =~= once.breakpoints);
    assert(twice.line_breakpoints =~= once.line_breakpoints);
}

/// Removing the breakpoint of a line that was just set gives back the state
/// before it was set, provided that the line had no breakpoint and none of
/// its program counters was a breakpoint.
pub proof fn lemma_remove_line_after_set(s: EngineView, line: usize)
    requires
        !s.line_breakpoints.contains(line),
        forall|pc: u64| s.pcs_of(line).contains(pc) ==> !s.breakpoints.contains(pc),
    ensures
        s.set_line(line).remove_line(line) == s,
{
    let set = s.set_line(line);
    let back = set.remove_line(line);
    assert(set.pcs_of(line) == s.pcs_of(line));
    assert(back.breakpoints =~= s.breakpoints);
    assert(back.line_breakpoints =~= s.line_breakpoints);
}

/// Removing the breakpoint of a line leaves no program counter of the line
/// among the breakpoints and the line without a breakpoint, whatever was set
/// before.
pub proof fn lemma_remove_line_removes(s: EngineView, line: usize, pc: u64)
    requires
        s.pcs_of(line).contains(pc),
    ensures
        !s.remove_line(line).breakpoints.contains(pc),
        !s.remove_line(line).line_breakpoints.contains(line),
{
}

/// In `Step` mode a run that is not cut off executes no instruction if a
/// breakpoint fires at its program counter, and exactly one otherwise; it
/// always ends with an event.
pub proof fn lemma_step_mode_run(s: EngineView, pc: u64, script: Script, limit: nat)
    requires
        s.mode == DebugMode::Step,
        limit > 0,
    ensures
        s.run(pc, script, 0, limit).event is Some,
        s.fires(pc) ==> s.run(pc, script, 0, limit).executed == 0 && s.run(
            pc,
            script,
            0,
            limit,
        ).event == Some(DebugEventView::Breakpoint(pc, s.line_of(pc))),
        !s.fires(pc) ==> s.run(pc, script, 0, limit).executed == 1,
{
}

/// A breakpoint that is reported is pending afterwards: in the state after
/// a run that ended with a breakpoint at `p`, the breakpoint is pending and
/// `p` is remembered.
pub proof fn lemma_breakpoint_pends(
    s: EngineView,
    pc: u64,
    script: Script,
    executed: nat,
    limit: nat,
    p: u64,
    line: Option<usize>,
)
    requires
        s.run(pc, script, executed, limit).event == Some(DebugEventView::Breakpoint(p, line)),
    ensures
        s.run(pc, script, executed, limit).state.at_breakpoint,
        s.run(pc, script, executed, limit).state.last_breakpoint_pc == Some(p),
    decreases limit,
{
    if limit > 0 {
        let (ready, action) = s.before_step(pc);
        match action {
            ActionView::Report(event) => {},
            ActionView::Execute => {
                let (outcome, new_pc) = script(executed);
                let (next, verdict) = ready.after_step(pc, outcome, new_pc);
                match verdict.event {
                    Some(event) => {},
                    None => {
                        lemma_breakpoint_pends(
                            next,
                            new_pc,
                            script,
                            executed + 1,
                            (limit - 1) as nat,
                            p,
                            line,
                        );
                    },
                }
            },
        }
    }
}

/// While a breakpoint is pending, the next run executes its instruction
/// before it reports anything: the breakpoint is not reported a second time
/// without an instruction in between.
pub proof fn lemma_pending_breakpoint_executes(s: EngineView, pc: u64, script: Script, limit: nat)
    requires
        s.at_breakpoint,
        limit > 0,
    ensures
        s.run(pc, script, 0, limit).executed >= 1,
    decreases limit,
{
    let (ready, action) = s.before_step(pc);
    let (outcome, new_pc) = script(0);
    let (next, verdict) = ready.after_step(pc, outcome, new_pc);
    if verdict.event is None {
        lemma_run_counts_up(next, new_pc, script, 1, (limit - 1) as nat);
    }
}

/// A run never lowers the number of executed instructions.
pub proof fn lemma_run_counts_up(s: EngineView, pc: u64, script: Script, executed: nat, limit: nat)
    ensures
        s.run(pc, script, executed, limit).executed >= executed,
    decreases limit,
{
    if limit > 0 {
        let (ready, action) = s.before_step(pc);
        if action is Execute {
            let (outcome, new_pc) = script(executed);
            let (next, verdict) = ready.after_step(pc, outcome, new_pc);
            if verdict.event is None {
                lemma_run_counts_up(next, new_pc, script, executed + 1, (limit - 1) as nat);
            }
        }
    }
}

/// In `Continue` mode a run stops only at a breakpoint, at the end of the
/// program or at a failure: it never ends with a step event.
pub proof fn lemma_continue_mode_run(
    s: EngineView,
    pc: u64,
    script: Script,
    executed: nat,
    limit: nat,
)
    requires
        s.mode == DebugMode::Continue,
    ensures
        !(s.run(pc, script, executed, limit).event matches Some(DebugEventView::Step(_, _))),
    decreases limit,
{
    if limit > 0 {
        let (ready, action) = s.before_step(pc);
        if action is Execute {
            let (outcome, new_pc) = script(executed);
            let (next, verdict) = ready.after_step(pc, outcome, new_pc);
            if verdict.event is None {
                lemma_continue_mode_run(next, new_pc, script, executed + 1, (limit - 1) as nat);
            }
        }
    }
}

} // verus!
