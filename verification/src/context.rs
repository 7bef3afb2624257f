//! The compute meter of a debugged program.
//!
//! A program starts with a budget of compute units. The interpreter counts
//! the instructions it executes; the debugger deducts them from the meter
//! after every instruction, so that the units used and the units left always
//! add up to the budget.

use crate::debugger::used_units;
use crate::error::DebuggerError;
use vstd::prelude::*;

verus! {

/// The context that the interpreter runs a program in: the trace of
/// register states and the meter of compute units.
pub struct DebugContextObject {
    /// The register state at every traced instruction, in order of execution.
    trace_log: Vec<[u64; 12]>,
    /// The units that the program started with.
    compute_unit_limit: u64,
    /// The units that are left; never more than the limit.
    compute_meter: u64,
}

/// A context as a plain value.
pub struct ContextView {
    pub trace: Seq<Seq<u64>>,
    pub limit: u64,
    pub remaining: u64,
}

impl View for DebugContextObject {
    type V = ContextView;

    closed spec fn view(&self) -> ContextView {
        ContextView {
            trace: Seq::new(self.trace_log@.len(), |i: int| self.trace_log@[i]@),
            limit: self.compute_unit_limit,
            remaining: self.compute_meter,
        }
    }
}

/// `remaining` less `amount`, but not below zero.
pub open spec fn deducted(remaining: u64, amount: u64) -> u64 {
    if amount <= remaining {
        (remaining - amount) as u64
    } else {
        0
    }
}

impl DebugContextObject {
    /// Well-formedness: no more units are left than the program started
    /// with.
    pub open spec fn wf(&self) -> bool {
        self@.remaining <= self@.limit
    }

    /// A context with a full meter of `compute_unit_limit` units and an
    /// empty trace.
    pub fn new(compute_unit_limit: u64) -> (c: Self)
        ensures
            c.wf(),
            c@ == (ContextView {
                trace: Seq::empty(),
                limit: compute_unit_limit,
                remaining: compute_unit_limit,
            }),
    {
        let c = Self {
            trace_log: Vec::new(),
            compute_unit_limit,
            compute_meter: compute_unit_limit,
        };
        assert(c@.trace =~= Seq::<Seq<u64>>::empty());
        c
    }

    /// Appends a register state to the trace.
    pub fn trace(&mut self, state: [u64; 12])
        ensures
            final(self)@ == (ContextView { trace: old(self)@.trace.push(state@), ..old(self)@ }),
    {
        self.trace_log.push(state);
        assert(self@.trace =~= old(self)@.trace.push(state@));
    }

    /// Deducts `amount` units from the meter; the meter stops at zero.
    pub fn consume(&mut self, amount: u64)
        ensures
            final(self)@ == (ContextView {
                remaining: deducted(old(self)@.remaining, amount),
                ..old(self)@
            }),
    {
        self.compute_meter = if amount <= self.compute_meter {
            self.compute_meter - amount
        } else {
            0
        };
    }

    /// The units that are left.
    pub fn get_remaining(&self) -> (r: u64)
        ensures
            r == self@.remaining,
    {
        self.compute_meter
    }

    /// The units that the program started with.
    pub fn get_compute_unit_limit(&self) -> (r: u64)
        ensures
            r == self@.limit,
    {
        self.compute_unit_limit
    }

    /// Deducts `amount` units from the meter, as `consume` does, and reports
    /// an error if fewer than `amount` were left.
    pub fn consume_checked(&mut self, amount: u64) -> (r: Result<(), DebuggerError>)
        ensures
            final(self)@ == (ContextView {
                remaining: deducted(old(self)@.remaining, amount),
                ..old(self)@
            }),
            old(self)@.remaining >= amount ==> r is Ok,
            old(self)@.remaining < amount ==> r == Err::<(), DebuggerError>(
                DebuggerError::ComputationalBudgetExceeded,
            ),
    {
        let exceeded: bool = self.compute_meter < amount;
        self.consume(amount);
        if exceeded {
            Err(DebuggerError::ComputationalBudgetExceeded)
        } else {
            Ok(())
        }
    }
}

/// Deducts the instructions that the interpreter has counted since the last
/// call from the meter and resets the count.
pub fn consume_instruction_cost(context: &mut DebugContextObject, due_insn_count: &mut u64)
    ensures
        final(context)@ == (ContextView {
            remaining: deducted(old(context)@.remaining, *old(due_insn_count)),
            ..old(context)@
        }),
        *final(due_insn_count) == 0,
{
    let due: u64 = *due_insn_count;
    if due > 0 {
        context.consume(due);
        *due_insn_count = 0;
    }
}

/// While no more units are left than the session started with, the units
/// used and the units left add up to the budget.
pub proof fn lemma_compute_units_conserved(total: u64, remaining: u64)
    requires
        remaining <= total,
    ensures
        used_units(total, remaining) + remaining == total,
{
}

/// Deducting units from the meter of a well-formed context keeps it
/// well-formed and never lowers the units used: for a session whose budget
/// is the limit of the context, used and left still add up to the budget.
pub proof fn lemma_consume_conserves(c: ContextView, amount: u64)
    requires
        c.remaining <= c.limit,
    ensures
        deducted(c.remaining, amount) <= c.remaining,
        used_units(c.limit, deducted(c.remaining, amount)) + deducted(c.remaining, amount)
            == c.limit,
        used_units(c.limit, c.remaining) <= used_units(c.limit, deducted(c.remaining, amount)),
{
}

} // verus!
