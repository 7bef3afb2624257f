use sbpf_debugger::context::{consume_instruction_cost, DebugContextObject};
use sbpf_debugger::debugger::{
    members, Action, ComputeUnits, DebugEvent, DebugMode, Debugger, StackFrame, StepOutcome,
    REGISTER_COUNT,
};
use sbpf_debugger::error::DebuggerError;
use sbpf_debugger::parser::{LineMap, ROData};
use std::collections::HashSet;

/// A program for the tests: instruction `i` costs one unit and jumps to `next[i]`; reaching
/// `exit_at` ends the program with the given code, reaching `fail_at` makes it fail.
struct Machine {
    pc: u64,
    next: Vec<u64>,
    exit_at: Option<(u64, u64)>,
    fail_at: Option<u64>,
    executed: u64,
    due: u64,
    context: DebugContextObject,
}

impl Machine {
    fn straight(length: u64, budget: u64) -> Machine {
        Machine {
            pc: 0,
            next: (1..=length).map(|i| i * 8).collect(),
            exit_at: Some((length * 8, 0)),
            fail_at: None,
            executed: 0,
            due: 0,
            context: DebugContextObject::new(budget),
        }
    }

    fn step(&mut self) -> StepOutcome {
        self.due += 1;
        if let Some((at, code)) = self.exit_at {
            if self.pc == at {
                return StepOutcome::Exited(code);
            }
        }
        if self.fail_at == Some(self.pc) {
            return StepOutcome::Failed("DivideByZero".to_string());
        }
        self.executed += 1;
        self.pc = self.next[(self.pc / 8) as usize];
        StepOutcome::Advanced
    }
}

/// The loop that a front end runs around the interpreter.
fn run(debugger: &mut Debugger, machine: &mut Machine) -> DebugEvent {
    loop {
        let pc = machine.pc;
        match debugger.before_step(pc) {
            Action::Report(event) => return event,
            Action::Execute => {}
        }
        let outcome = machine.step();
        let verdict = debugger.after_step(pc, outcome, machine.pc);
        if verdict.settle {
            consume_instruction_cost(&mut machine.context, &mut machine.due);
        }
        if let Some(event) = verdict.event {
            return event;
        }
    }
}

fn map_with(rows: &[(u64, u32)]) -> LineMap {
    let mut map = LineMap::new();
    for (address, line) in rows {
        map.record_row(*address, "f.s".to_string(), *line, 0);
    }
    map.build_pc_mapping();
    map
}

fn sets(debugger: &Debugger) -> (Vec<u64>, Vec<usize>) {
    let mut pcs: Vec<u64> = debugger.breakpoints.iter().copied().collect();
    let mut lines: Vec<usize> = debugger.line_breakpoints.iter().copied().collect();
    pcs.sort();
    lines.sort();
    (pcs, lines)
}

#[test]
fn a_new_session_continues_and_has_nothing_set() {
    let debugger = Debugger::new(1000);
    assert_eq!(debugger.debug_mode, DebugMode::Continue);
    assert!(!debugger.at_breakpoint);
    assert_eq!(debugger.last_breakpoint_pc, None);
    assert_eq!(debugger.initial_compute_budget, 1000);
    assert_eq!(sets(&debugger), (vec![], vec![]));
    assert!(!debugger.has_line_mapping());
    assert!(debugger.get_rodata().is_none());
    assert_eq!(debugger.get_line_for_pc(0), None);
    assert_eq!(debugger.get_current_line(0), None);
    assert_eq!(debugger.get_pcs_for_line(1), Vec::<u64>::new());
    assert_eq!(debugger.get_breakpoints_info(), "No breakpoints set\n");
    assert_eq!(
        debugger.get_line_mapping_info(),
        "No DWARF line mapping available. Compile with debug info (-g)"
    );
}

#[test]
fn step_into_breakpoint() {
    let mut debugger = Debugger::new(100);
    debugger.set_dwarf_line_map(map_with(&[(0, 5), (8, 6), (16, 7)]));
    assert_eq!(debugger.set_breakpoint_at_line(5), Ok(()));
    assert_eq!(debugger.get_pcs_for_line(5), vec![0]);
    let mut machine = Machine::straight(3, 100);
    debugger.set_debug_mode(DebugMode::Step);

    assert_eq!(run(&mut debugger, &mut machine), DebugEvent::Breakpoint(0, Some(5)));
    assert_eq!((machine.executed, machine.pc), (0, 0));
    assert!(debugger.at_breakpoint);
    assert_eq!(debugger.last_breakpoint_pc, Some(0));
    assert_eq!(debugger.get_compute_units(machine.context.get_remaining()).used, 0);

    // the pending instruction is executed; the event names the new program counter
    assert_eq!(run(&mut debugger, &mut machine), DebugEvent::Step(8, Some(6)));
    assert_eq!((machine.executed, machine.pc), (1, 8));
    assert!(!debugger.at_breakpoint);
    assert_eq!(debugger.last_breakpoint_pc, None);
    assert_eq!(
        debugger.get_compute_units(machine.context.get_remaining()),
        ComputeUnits { total: 100, used: 1, remaining: 99 }
    );

    // an ordinary step names the program counter of the instruction that was executed
    assert_eq!(run(&mut debugger, &mut machine), DebugEvent::Step(8, Some(6)));
    assert_eq!((machine.executed, machine.pc), (2, 16));
}

#[test]
fn continue_across_breakpoint() {
    let mut debugger = Debugger::new(100);
    debugger.set_dwarf_line_map(map_with(&[(0, 5), (8, 6), (16, 7)]));
    debugger.set_breakpoint(16);
    let mut machine = Machine::straight(4, 100);
    machine.exit_at = Some((32, 3));

    assert_eq!(run(&mut debugger, &mut machine), DebugEvent::Breakpoint(16, Some(7)));
    assert_eq!((machine.executed, machine.pc), (2, 16));
    assert_eq!(machine.context.get_remaining(), 98);

    assert_eq!(run(&mut debugger, &mut machine), DebugEvent::Exit(3));
    assert_eq!(machine.executed, 4);
    // the instruction that ended the program was counted too
    assert_eq!(
        debugger.get_compute_units(machine.context.get_remaining()),
        ComputeUnits { total: 100, used: 5, remaining: 95 }
    );
}

#[test]
fn a_reported_breakpoint_is_not_reported_again_without_a_step() {
    for mode in [DebugMode::Step, DebugMode::Continue] {
        let mut debugger = Debugger::new(100);
        debugger.set_breakpoint(8);
        debugger.set_breakpoint(16);
        let mut machine = Machine::straight(4, 100);
        assert_eq!(run(&mut debugger, &mut machine), DebugEvent::Breakpoint(8, None));
        debugger.set_debug_mode(mode);
        let before = machine.executed;
        let event = run(&mut debugger, &mut machine);
        assert!(machine.executed > before);
        // the next breakpoint stops the run in either mode
        assert_eq!(event, DebugEvent::Breakpoint(16, None));
        assert_eq!(machine.executed, before + 1);
    }
}

#[test]
fn a_breakpoint_in_a_loop_fires_on_every_round() {
    let mut debugger = Debugger::new(100);
    debugger.set_breakpoint(8);
    let mut machine = Machine::straight(3, 100);
    machine.next = vec![8, 16, 8];
    machine.exit_at = None;
    assert_eq!(run(&mut debugger, &mut machine), DebugEvent::Breakpoint(8, None));
    assert_eq!(machine.executed, 1);
    assert_eq!(run(&mut debugger, &mut machine), DebugEvent::Breakpoint(8, None));
    assert_eq!(machine.executed, 3);
    assert_eq!(run(&mut debugger, &mut machine), DebugEvent::Breakpoint(8, None));
    assert_eq!(machine.executed, 5);
}

#[test]
fn a_step_onto_a_breakpoint_reports_the_breakpoint() {
    let mut debugger = Debugger::new(100);
    debugger.set_breakpoint(0);
    debugger.set_breakpoint(8);
    debugger.set_debug_mode(DebugMode::Step);
    let mut machine = Machine::straight(3, 100);
    assert_eq!(run(&mut debugger, &mut machine), DebugEvent::Breakpoint(0, None));
    assert_eq!(run(&mut debugger, &mut machine), DebugEvent::Breakpoint(8, None));
    assert_eq!(machine.executed, 1);
    assert_eq!(debugger.last_breakpoint_pc, Some(8));
    assert_eq!(run(&mut debugger, &mut machine), DebugEvent::Step(16, None));
    assert_eq!(machine.executed, 2);
}

#[test]
fn a_step_executes_one_instruction_unless_a_breakpoint_fires() {
    let mut debugger = Debugger::new(100);
    debugger.set_debug_mode(DebugMode::Step);
    debugger.set_breakpoint(16);
    let mut machine = Machine::straight(5, 100);
    let mut events = Vec::new();
    for _ in 0..5 {
        let before = machine.executed;
        let event = run(&mut debugger, &mut machine);
        let executed = machine.executed - before;
        match event {
            DebugEvent::Breakpoint(..) => assert_eq!(executed, 0),
            _ => assert_eq!(executed, 1),
        }
        events.push(event);
    }
    assert_eq!(
        events,
        vec![
            DebugEvent::Step(0, None),
            DebugEvent::Step(8, None),
            DebugEvent::Breakpoint(16, None),
            DebugEvent::Step(24, None),
            DebugEvent::Step(24, None),
        ]
    );
}

#[test]
fn the_end_and_a_failure_of_the_program_are_reported() {
    let mut debugger = Debugger::new(10);
    let mut machine = Machine::straight(2, 10);
    machine.exit_at = Some((16, 42));
    assert_eq!(run(&mut debugger, &mut machine), DebugEvent::Exit(42));
    assert_eq!(machine.context.get_remaining(), 7);

    let mut debugger = Debugger::new(10);
    let mut machine = Machine::straight(3, 10);
    machine.fail_at = Some(8);
    assert_eq!(
        run(&mut debugger, &mut machine),
        DebugEvent::Error("Program error at PC 0x0000000000000008: DivideByZero".to_string())
    );
    // nothing is deducted for the instruction that failed
    assert_eq!(machine.context.get_remaining(), 9);
    assert_eq!(machine.due, 1);

    let mut debugger = Debugger::new(10);
    debugger.set_debug_mode(DebugMode::Step);
    let mut machine = Machine::straight(0, 10);
    assert_eq!(run(&mut debugger, &mut machine), DebugEvent::Exit(0));
    let mut machine = Machine::straight(1, 10);
    machine.fail_at = Some(0);
    assert_eq!(
        run(&mut debugger, &mut machine),
        DebugEvent::Error("Program error at PC 0x0000000000000000: DivideByZero".to_string())
    );
}

#[test]
fn a_pending_breakpoint_stays_pending_when_the_program_ends() {
    let mut debugger = Debugger::new(10);
    debugger.set_breakpoint(0);
    let mut machine = Machine::straight(0, 10);
    assert_eq!(run(&mut debugger, &mut machine), DebugEvent::Breakpoint(0, None));
    assert_eq!(run(&mut debugger, &mut machine), DebugEvent::Exit(0));
    assert!(debugger.at_breakpoint);
    assert_eq!(debugger.last_breakpoint_pc, Some(0));
}

#[test]
fn used_and_remaining_units_add_up_to_the_budget() {
    let mut debugger = Debugger::new(50);
    debugger.set_debug_mode(DebugMode::Step);
    debugger.set_breakpoint(24);
    let mut machine = Machine::straight(6, 50);
    let mut last_used = 0;
    for _ in 0..8 {
        let _ = run(&mut debugger, &mut machine);
        let units = debugger.get_compute_units(machine.context.get_remaining());
        assert_eq!(units.total, 50);
        assert_eq!(units.used + units.remaining, 50);
        assert!(units.used >= last_used);
        last_used = units.used;
    }
    assert_eq!(last_used, 7);
}

#[test]
fn the_meter_stops_at_zero() {
    let mut context = DebugContextObject::new(5);
    assert_eq!((context.get_remaining(), context.get_compute_unit_limit()), (5, 5));
    context.consume(3);
    assert_eq!(context.get_remaining(), 2);
    assert_eq!(context.consume_checked(2), Ok(()));
    assert_eq!(context.get_remaining(), 0);
    assert_eq!(context.consume_checked(1), Err(DebuggerError::ComputationalBudgetExceeded));
    assert_eq!(context.get_remaining(), 0);
    context.consume(u64::MAX);
    assert_eq!(context.get_remaining(), 0);
    assert_eq!(context.consume_checked(0), Ok(()));

    let mut context = DebugContextObject::new(10);
    assert_eq!(context.consume_checked(11), Err(DebuggerError::ComputationalBudgetExceeded));
    assert_eq!(context.get_remaining(), 0);
    context.trace([7; 12]);

    let mut context = DebugContextObject::new(10);
    let mut due = 4;
    consume_instruction_cost(&mut context, &mut due);
    assert_eq!((context.get_remaining(), due), (6, 0));
    consume_instruction_cost(&mut context, &mut due);
    assert_eq!((context.get_remaining(), due), (6, 0));

    let debugger = Debugger::new(10);
    assert_eq!(
        debugger.get_compute_units(12),
        ComputeUnits { total: 10, used: 0, remaining: 12 }
    );
    assert_eq!(debugger.get_compute_units(0), ComputeUnits { total: 10, used: 10, remaining: 0 });
}

#[test]
fn setting_a_line_twice_is_setting_it_once_and_removing_undoes_it() {
    let mut debugger = Debugger::new(0);
    debugger.set_dwarf_line_map(map_with(&[(0, 5), (8, 5), (16, 7)]));
    debugger.set_breakpoint(16);
    let before = sets(&debugger);

    assert_eq!(debugger.set_breakpoint_at_line(5), Ok(()));
    let once = sets(&debugger);
    assert_eq!(once, (vec![0, 8, 16], vec![5]));
    assert_eq!(debugger.set_breakpoint_at_line(5), Ok(()));
    assert_eq!(sets(&debugger), once);

    assert_eq!(debugger.remove_breakpoint_at_line(5), Ok(()));
    assert_eq!(sets(&debugger), before);
    assert_eq!(debugger.remove_breakpoint_at_line(5), Ok(()));
    assert_eq!(sets(&debugger), before);
}

#[test]
fn a_line_without_program_counters_is_left_alone() {
    let mut debugger = Debugger::new(0);
    assert_eq!(debugger.set_breakpoint_at_line(5), Ok(()));
    assert_eq!(sets(&debugger), (vec![], vec![]));
    debugger.set_dwarf_line_map(map_with(&[(0, 5)]));
    assert_eq!(debugger.set_breakpoint_at_line(6), Ok(()));
    assert_eq!(debugger.remove_breakpoint_at_line(6), Ok(()));
    assert_eq!(sets(&debugger), (vec![], vec![]));
    debugger.line_breakpoints.insert(6);
    assert_eq!(debugger.remove_breakpoint_at_line(6), Ok(()));
    assert_eq!(sets(&debugger), (vec![], vec![6]));
}

#[test]
fn removing_a_line_takes_a_breakpoint_that_was_set_before() {
    let mut debugger = Debugger::new(0);
    debugger.set_dwarf_line_map(map_with(&[(0, 5), (8, 5)]));
    debugger.set_breakpoint(8);
    assert_eq!(debugger.set_breakpoint_at_line(5), Ok(()));
    assert_eq!(debugger.remove_breakpoint_at_line(5), Ok(()));
    assert_eq!(sets(&debugger), (vec![], vec![]));
}

#[test]
fn clearing_removes_the_breakpoints_of_lines() {
    let mut debugger = Debugger::new(0);
    debugger.set_dwarf_line_map(map_with(&[(0, 5), (8, 5), (16, 7), (24, 9)]));
    debugger.set_breakpoint(24);
    debugger.set_breakpoint(800);
    let _ = debugger.set_breakpoint_at_line(5);
    let _ = debugger.set_breakpoint_at_line(7);
    assert_eq!(sets(&debugger), (vec![0, 8, 16, 24, 800], vec![5, 7]));
    debugger.clear_breakpoints();
    assert_eq!(sets(&debugger), (vec![24, 800], vec![]));

    let mut without_map = Debugger::new(0);
    without_map.set_breakpoint(24);
    without_map.line_breakpoints.insert(3);
    without_map.clear_breakpoints();
    assert_eq!(sets(&without_map), (vec![], vec![]));
}

#[test]
fn breakpoints_are_listed_with_lines_and_program_counters() {
    let mut debugger = Debugger::new(0);
    debugger.set_breakpoint(0x1f0);
    assert_eq!(debugger.get_breakpoints_info(), "PC breakpoints:\n  PC 0x1f0\n");

    let mut debugger = Debugger::new(0);
    debugger.set_dwarf_line_map(map_with(&[(0x10, 5), (0x18, 5), (0x20, 5)]));
    debugger.set_breakpoint(0x10);
    assert_eq!(debugger.get_breakpoints_info(), "PC breakpoints:\n  PC 0x10 (line 5)\n");

    debugger.breakpoints.clear();
    debugger.line_breakpoints.insert(5);
    debugger.line_breakpoints.insert(6);
    let info = debugger.get_breakpoints_info();
    assert_eq!(info, "Line breakpoints:\n  Line 5 (PCs: 0x10, 0x18, 0x20)\n");

    let _ = debugger.set_breakpoint_at_line(5);
    let info = debugger.get_breakpoints_info();
    let mut lines: Vec<&str> = info.lines().collect();
    assert_eq!(lines.len(), 6);
    assert_eq!(lines[0], "PC breakpoints:");
    assert_eq!(lines[4], "Line breakpoints:");
    assert_eq!(lines[5], "  Line 5 (PCs: 0x10, 0x18, 0x20)");
    lines[1..4].sort();
    assert_eq!(&lines[1..4], &["  PC 0x10 (line 5)", "  PC 0x18 (line 5)", "  PC 0x20 (line 5)"]);
}

#[test]
fn the_members_of_a_set_are_listed_once_each() {
    let set: HashSet<u64> = [5, 1, 9, 1].into_iter().collect();
    let mut list = members(&set);
    list.sort();
    assert_eq!(list, vec![1, 5, 9]);
    assert_eq!(members(&HashSet::<usize>::new()), Vec::<usize>::new());
}

#[test]
fn stack_frames_name_file_and_line() {
    let mut debugger = Debugger::new(0);
    let unknown = |index: usize, pc: u64| StackFrame {
        index,
        name: "?".to_string(),
        file: "?".to_string(),
        line: 0,
        instruction: pc,
    };
    assert_eq!(debugger.get_stack_frames(&[], 8), vec![unknown(0, 8)]);
    assert_eq!(
        debugger.get_stack_frames(&[16, 24], 8),
        vec![unknown(0, 16), unknown(1, 24), unknown(2, 8)]
    );

    debugger.set_dwarf_line_map(map_with(&[(16, 5), (8, 7)]));
    let known = |index: usize, pc: u64, line: usize| StackFrame {
        index,
        name: "f.s".to_string(),
        file: "f.s".to_string(),
        line,
        instruction: pc,
    };
    assert_eq!(
        debugger.get_stack_frames(&[16, 24], 8),
        vec![known(0, 16, 5), unknown(1, 24), known(2, 8, 7)]
    );
    assert_eq!(debugger.frame_at(3, 16), known(3, 16, 5));
}

#[test]
fn registers_are_read_and_written_by_index() {
    let mut registers: [u64; 12] = [0; 12];
    for i in 0..REGISTER_COUNT {
        assert_eq!(Debugger::set_register(&mut registers, i, 100 + i as u64), Ok(()));
    }
    assert_eq!(registers, [100, 101, 102, 103, 104, 105, 106, 107, 108, 109, 110, 111]);
    assert_eq!(Debugger::get_register(&registers, 0), Some(100));
    assert_eq!(Debugger::get_register(&registers, 11), Some(111));
    assert_eq!(Debugger::get_register(&registers, 12), None);
    assert_eq!(Debugger::get_register(&registers, usize::MAX), None);

    let error = Debugger::set_register(&mut registers, 12, 1).unwrap_err();
    assert_eq!(error, DebuggerError::RegisterOutOfRange(12));
    assert_eq!(error.message(), "Register index 12 out of range");
    assert_eq!(registers[11], 111);

    assert_eq!(solana_sbpf::ebpf::INSN_SIZE, 8);
    assert_eq!(Debugger::get_pc(&registers), 888);
    registers[11] = 0;
    assert_eq!(Debugger::get_pc(&registers), 0);
    registers[11] = u64::MAX / 8;
    assert_eq!(Debugger::get_pc(&registers), u64::MAX - 7);
}

#[test]
fn errors_have_messages() {
    let text = |s: &str| s.to_string();
    assert_eq!(DebuggerError::ReadError(text("x")).message(), "Failed to read DWARF data: x");
    assert_eq!(DebuggerError::UnitError(text("x")).message(), "Failed to parse DWARF unit: x");
    assert_eq!(DebuggerError::FileError(text("x")).message(), "Failed to read file: x");
    assert_eq!(DebuggerError::ObjectError(text("x")).message(), "Failed to parse object: x");
    assert_eq!(
        DebuggerError::ComputationalBudgetExceeded.message(),
        "Computational budget exceeded"
    );
    assert_eq!(DebuggerError::InterpreterError(text("x")).message(), "Program error: x");
}

#[test]
fn the_session_keeps_what_it_is_given() {
    let mut debugger = Debugger::new(0);
    let symbols = vec![ROData { name: "msg".to_string(), address: 0x120, content: "hi".to_string() }];
    debugger.set_rodata(symbols.clone());
    assert_eq!(debugger.get_rodata(), Some(&symbols));
    debugger.set_dwarf_line_map(map_with(&[(8, 2)]));
    assert!(debugger.has_line_mapping());
    assert_eq!(debugger.get_current_line(8), Some(2));
    assert_eq!(debugger.get_line_for_pc(16), None);
    assert_eq!(
        debugger.get_line_mapping_info(),
        "Total DWARF address mappings: 1\nTotal line mappings: 1\nTotal PC mappings: 1\nTotal source locations: 1\nSample DWARF address mappings:\n  DWARF 0x8 -> PC 0x8 -> line 2\n"
    );
}
