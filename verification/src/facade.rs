//! The answers of the debugger to the commands of the adapter protocol.
//!
//! Each function performs one operation on the session and renders the
//! result as the JSON value that the protocol prescribes.

use crate::debugger::{
    ComputeUnits, DebugEvent, DebugEventView, Debugger, StackFrame, StackFrameView,
};
use crate::error::DebuggerError;
use crate::json::{append_item, item_views, member_views, put, Json, JsonView};
use crate::parser::ROData;
use crate::text::{decimal, hex16, push_decimal, push_hex16, push_str};
use vstd::prelude::*;

verus! {

/// A line number, or null where there is none.
pub open spec fn line_value(line: Option<usize>) -> JsonView {
    match line {
        Some(l) => JsonView::Number(l as u64),
        None => JsonView::Null,
    }
}

/// The compute units as an object.
pub open spec fn units_payload(units: ComputeUnits) -> JsonView {
    JsonView::Object(
        seq![
            ("total"@, JsonView::Number(units.total)),
            ("used"@, JsonView::Number(units.used)),
            ("remaining"@, JsonView::Number(units.remaining)),
        ],
    )
}

/// The answer to `step` and `continue`: the event that ended the run. The
/// end of the program carries the compute units where `units` gives them.
pub open spec fn event_payload(event: DebugEventView, units: Option<ComputeUnits>) -> JsonView {
    match event {
        DebugEventView::Step(pc, line) => JsonView::Object(
            seq![
                ("type"@, JsonView::Text("step"@)),
                ("pc"@, JsonView::Number(pc)),
                ("line"@, line_value(line)),
            ],
        ),
        DebugEventView::Breakpoint(pc, line) => JsonView::Object(
            seq![
                ("type"@, JsonView::Text("breakpoint"@)),
                ("pc"@, JsonView::Number(pc)),
                ("line"@, line_value(line)),
            ],
        ),
        DebugEventView::Exit(code) => match units {
            Some(u) => JsonView::Object(
                seq![
                    ("type"@, JsonView::Text("exit"@)),
                    ("code"@, JsonView::Number(code)),
                    ("compute_units"@, units_payload(u)),
                ],
            ),
            None => JsonView::Object(
                seq![("type"@, JsonView::Text("exit"@)), ("code"@, JsonView::Number(code))],
            ),
        },
        DebugEventView::Error(message) => JsonView::Object(
            seq![("type"@, JsonView::Text("error"@)), ("message"@, JsonView::Text(message))],
        ),
    }
}

/// The answer to `setBreakpoint`.
pub open spec fn set_breakpoint_payload(file: Seq<char>, line: usize) -> JsonView {
    JsonView::Object(
        seq![
            ("type"@, JsonView::Text("setBreakpoint"@)),
            ("file"@, JsonView::Text(file)),
            ("line"@, JsonView::Number(line as u64)),
            ("verified"@, JsonView::Bool(true)),
        ],
    )
}

/// The answer to `removeBreakpoint`.
pub open spec fn remove_breakpoint_payload(file: Seq<char>, line: usize) -> JsonView {
    JsonView::Object(
        seq![
            ("type"@, JsonView::Text("removeBreakpoint"@)),
            ("file"@, JsonView::Text(file)),
            ("line"@, JsonView::Number(line as u64)),
            ("success"@, JsonView::Bool(true)),
        ],
    )
}

/// The answer to `clearBreakpoints`.
pub open spec fn clear_breakpoints_payload() -> JsonView {
    JsonView::Object(seq![("result"@, JsonView::Text("ok"@))])
}

/// A frame of the call stack as an object.
pub open spec fn frame_payload(frame: StackFrameView) -> JsonView {
    JsonView::Object(
        seq![
            ("index"@, JsonView::Number(frame.index as u64)),
            ("name"@, JsonView::Text(frame.name)),
            ("file"@, JsonView::Text(frame.file)),
            ("line"@, JsonView::Number(frame.line as u64)),
            ("instruction"@, JsonView::Number(frame.instruction)),
        ],
    )
}

/// The answer to `getStackFrames`.
pub open spec fn frames_payload(frames: Seq<StackFrameView>) -> JsonView {
    JsonView::Object(
        seq![
            (
                "frames"@,
                JsonView::Array(Seq::new(frames.len(), |i: int| frame_payload(frames[i]))),
            ),
        ],
    )
}

/// Register `index` with `value` as an object.
pub open spec fn register_payload(index: int, value: u64) -> JsonView {
    JsonView::Object(
        seq![
            ("name"@, JsonView::Text("r"@ + decimal(index as nat))),
            ("value"@, JsonView::Text(hex16(value as nat))),
            ("type"@, JsonView::Text("u64"@)),
        ],
    )
}

/// The answer to `getRegisters`.
pub open spec fn registers_payload(registers: Seq<u64>) -> JsonView {
    JsonView::Object(
        seq![
            (
                "registers"@,
                JsonView::Array(
                    Seq::new(registers.len(), |i: int| register_payload(i, registers[i])),
                ),
            ),
        ],
    )
}

/// The answer to `getMemory`: no data is read.
pub open spec fn memory_payload(address: u64, size: usize) -> JsonView {
    JsonView::Object(
        seq![
            ("address"@, JsonView::Number(address)),
            ("size"@, JsonView::Number(size as u64)),
            ("data"@, JsonView::Array(Seq::empty())),
        ],
    )
}

/// The answer to `setRegister`.
pub open spec fn set_register_payload(index: usize, value: u64) -> JsonView {
    if index < 12 {
        JsonView::Object(
            seq![
                ("type"@, JsonView::Text("setRegister"@)),
                ("index"@, JsonView::Number(index as u64)),
                ("value"@, JsonView::Number(value)),
                ("success"@, JsonView::Bool(true)),
            ],
        )
    } else {
        JsonView::Object(
            seq![
                ("type"@, JsonView::Text("setRegister"@)),
                ("index"@, JsonView::Number(index as u64)),
                ("value"@, JsonView::Number(value)),
                ("success"@, JsonView::Bool(false)),
                ("error"@, JsonView::Text(DebuggerError::RegisterOutOfRange(index).text())),
            ],
        )
    }
}

/// The answer to `quit`.
pub open spec fn quit_payload() -> JsonView {
    JsonView::Object(seq![("type"@, JsonView::Text("quit"@))])
}

/// A symbol of the read-only data as an object.
pub open spec fn symbol_payload(symbol: ROData) -> JsonView {
    JsonView::Object(
        seq![
            ("name"@, JsonView::Text(symbol.name@)),
            ("address"@, JsonView::Text(hex16(symbol.address as nat))),
            ("value"@, JsonView::Text(symbol.content@)),
        ],
    )
}

/// The answer to `getRodata`: the symbols, none where they are not known.
pub open spec fn rodata_payload(rodata: Option<Vec<ROData>>) -> JsonView {
    JsonView::Object(
        seq![
            (
                "rodata"@,
                JsonView::Array(
                    match rodata {
                        Some(symbols) => Seq::new(
                            symbols@.len(),
                            |i: int| symbol_payload(symbols@[i]),
                        ),
                        None => Seq::empty(),
                    },
                ),
            ),
        ],
    )
}

/// The compute units as an object.
pub fn units_answer(units: ComputeUnits) -> (j: Json)
    ensures
        j@ == units_payload(units),
{
    let mut m: Vec<(String, Json)> = Vec::new();
    put(&mut m, "total", Json::Number(units.total));
    put(&mut m, "used", Json::Number(units.used));
    put(&mut m, "remaining", Json::Number(units.remaining));
    assert(member_views(m@) =~= units_payload(units)->Object_0);
    Json::object(m)
}

/// The answer to `step` and `continue` for the event that ended the run.
#[verifier::rlimit(50)]
pub fn event_answer(event: DebugEvent, units: Option<ComputeUnits>) -> (j: Json)
    ensures
        j@ == event_payload(event@, units),
{
    let mut m: Vec<(String, Json)> = Vec::new();
    let ghost expected = event_payload(event@, units)->Object_0;
    match event {
        DebugEvent::Step(pc, line) => {
            put(&mut m, "type", Json::text("step"));
            put(&mut m, "pc", Json::Number(pc));
            put(&mut m, "line", Json::number_or_null(line));
        },
        DebugEvent::Breakpoint(pc, line) => {
            put(&mut m, "type", Json::text("breakpoint"));
            put(&mut m, "pc", Json::Number(pc));
            put(&mut m, "line", Json::number_or_null(line));
        },
        DebugEvent::Exit(code) => {
            put(&mut m, "type", Json::text("exit"));
            put(&mut m, "code", Json::Number(code));
            match units {
                Some(u) => {
                    put(&mut m, "compute_units", units_answer(u));
                },
                None => {},
            }
        },
        DebugEvent::Error(message) => {
            put(&mut m, "type", Json::text("error"));
            put(&mut m, "message", Json::Text(message));
        },
    }
    assert(member_views(m@) =~= expected);
    Json::object(m)
}

/// Sets a breakpoint at `line` and answers `setBreakpoint`. The file is
/// named in the answer only: the line alone decides.
pub fn set_breakpoint(debugger: &mut Debugger, file: String, line: usize) -> (j: Json)
    requires
        old(debugger).wf(),
    ensures
        final(debugger).wf(),
        final(debugger)@ == old(debugger)@.set_line(line),
        final(debugger).dwarf_line_map == old(debugger).dwarf_line_map,
        final(debugger).rodata == old(debugger).rodata,
        j@ == set_breakpoint_payload(file@, line),
{
    let _ = debugger.set_breakpoint_at_line(line);
    let mut m: Vec<(String, Json)> = Vec::new();
    put(&mut m, "type", Json::text("setBreakpoint"));
    put(&mut m, "file", Json::Text(file));
    put(&mut m, "line", Json::Number(line as u64));
    put(&mut m, "verified", Json::Bool(true));
    assert(member_views(m@) =~= set_breakpoint_payload(file@, line)->Object_0);
    Json::object(m)
}

/// Removes the breakpoint at `line` and answers `removeBreakpoint`.
pub fn remove_breakpoint(debugger: &mut Debugger, file: String, line: usize) -> (j: Json)
    requires
        old(debugger).wf(),
    ensures
        final(debugger).wf(),
        final(debugger)@ == old(debugger)@.remove_line(line),
        final(debugger).dwarf_line_map == old(debugger).dwarf_line_map,
        final(debugger).rodata == old(debugger).rodata,
        j@ == remove_breakpoint_payload(file@, line),
{
    let _ = debugger.remove_breakpoint_at_line(line);
    let mut m: Vec<(String, Json)> = Vec::new();
    put(&mut m, "type", Json::text("removeBreakpoint"));
    put(&mut m, "file", Json::Text(file));
    put(&mut m, "line", Json::Number(line as u64));
    put(&mut m, "success", Json::Bool(true));
    assert(member_views(m@) =~= remove_breakpoint_payload(file@, line)->Object_0);
    Json::object(m)
}

/// Removes the breakpoints of all lines and answers `clearBreakpoints`.
/// The file does not matter: the breakpoints of every file are removed.
pub fn clear_breakpoints(debugger: &mut Debugger, file: String) -> (j: Json)
    requires
        old(debugger).wf(),
    ensures
        final(debugger).wf(),
        final(debugger)@ == old(debugger)@.cleared(),
        final(debugger).dwarf_line_map == old(debugger).dwarf_line_map,
        final(debugger).rodata == old(debugger).rodata,
        j@ == clear_breakpoints_payload(),
{
    debugger.clear_breakpoints();
    let mut m: Vec<(String, Json)> = Vec::new();
    put(&mut m, "result", Json::text("ok"));
    assert(member_views(m@) =~= clear_breakpoints_payload()->Object_0);
    Json::object(m)
}

/// A frame of the call stack as an object.
pub fn frame_answer(frame: &StackFrame) -> (j: Json)
    ensures
        j@ == frame_payload(frame@),
{
    let mut m: Vec<(String, Json)> = Vec::new();
    put(&mut m, "index", Json::Number(frame.index as u64));
    put(&mut m, "name", Json::text(frame.name.as_str()));
    put(&mut m, "file", Json::text(frame.file.as_str()));
    put(&mut m, "line", Json::Number(frame.line as u64));
    put(&mut m, "instruction", Json::Number(frame.instruction));
    assert(member_views(m@) =~= frame_payload(frame@)->Object_0);
    Json::object(m)
}

/// The views of a list of frames.
pub open spec fn frame_views(frames: Seq<StackFrame>) -> Seq<StackFrameView> {
    Seq::new(frames.len(), |i: int| frames[i]@)
}

/// Answers `getStackFrames`: a frame for each active call, whose program
/// counters are `call_frame_pcs`, and one for the current program counter.
#[verifier::rlimit(50)]
pub fn get_stack_frames(debugger: &Debugger, call_frame_pcs: &[u64], current_pc: u64) -> (j: Json)
    requires
        debugger.wf(),
    ensures
        exists|frames: Seq<StackFrameView>|
            #![trigger frames_payload(frames)]
            {
                &&& j@ == frames_payload(frames)
                &&& frames.len() == call_frame_pcs@.len() + 1
                &&& forall|i: int|
                    0 <= i < call_frame_pcs@.len() ==> #[trigger] frames[i] == debugger@.frame_of(
                        i as usize,
                        call_frame_pcs@[i],
                    )
                &&& frames[call_frame_pcs@.len() as int] == debugger@.frame_of(
                    call_frame_pcs@.len() as usize,
                    current_pc,
                )
            },
{
    let frames: Vec<StackFrame> = debugger.get_stack_frames(call_frame_pcs, current_pc);
    let ghost views = frame_views(frames@);
    let mut items: Vec<Json> = Vec::new();
    let mut i: usize = 0;
    while i < frames.len()
        invariant
            i <= frames.len(),
            views == frame_views(frames@),
            item_views(items@) == Seq::new(i as nat, |k: int| frame_payload(views[k])),
        decreases frames.len() - i,
    {
        append_item(&mut items, frame_answer(&frames[i]));
        i = i + 1;
        assert(item_views(items@) =~= Seq::new(i as nat, |k: int| frame_payload(views[k])));
    }
    let mut m: Vec<(String, Json)> = Vec::new();
    put(&mut m, "frames", Json::array(items));
    assert(member_views(m@) =~= frames_payload(views)->Object_0);
    let j = Json::object(m);
    assert(j@ == frames_payload(views));
    j
}

/// Answers `getRegisters`.
#[verifier::rlimit(50)]
pub fn get_registers(registers: &[u64]) -> (j: Json)
    ensures
        j@ == registers_payload(registers@),
{
    let mut items: Vec<Json> = Vec::new();
    let mut i: usize = 0;
    while i < registers.len()
        invariant
            i <= registers.len(),
            item_views(items@) == Seq::new(i as nat, |k: int| register_payload(k, registers@[k])),
        decreases registers.len() - i,
    {
        let mut name: String = String::new();
        push_str(&mut name, "r");
        push_decimal(&mut name, i as u64);
        let mut value: String = String::new();
        push_hex16(&mut value, registers[i]);
        let mut m: Vec<(String, Json)> = Vec::new();
        put(&mut m, "name", Json::Text(name));
        put(&mut m, "value", Json::Text(value));
        put(&mut m, "type", Json::text("u64"));
        assert(member_views(m@) =~= register_payload(i as int, registers@[i as int])->Object_0);
        append_item(&mut items, Json::object(m));
        i = i + 1;
        assert(item_views(items@) =~= Seq::new(
            i as nat,
            |k: int| register_payload(k, registers@[k]),
        ));
    }
    let mut m: Vec<(String, Json)> = Vec::new();
    put(&mut m, "registers", Json::array(items));
    assert(member_views(m@) =~= registers_payload(registers@)->Object_0);
    Json::object(m)
}

/// Answers `getMemory`.
pub fn get_memory(address: u64, size: usize) -> (j: Json)
    ensures
        j@ == memory_payload(address, size),
{
    let mut m: Vec<(String, Json)> = Vec::new();
    put(&mut m, "address", Json::Number(address));
    put(&mut m, "size", Json::Number(size as u64));
    let data: Vec<Json> = Vec::new();
    assert(item_views(data@) =~= Seq::<JsonView>::empty());
    put(&mut m, "data", Json::array(data));
    assert(member_views(m@) =~= memory_payload(address, size)->Object_0);
    Json::object(m)
}

/// Sets register `index` to `value` and answers `setRegister`; an index
/// outside the register file leaves the registers alone and is answered
/// with the error.
pub fn set_register(registers: &mut [u64; 12], index: usize, value: u64) -> (j: Json)
    ensures
        index < 12 ==> final(registers)@ == old(registers)@.update(index as int, value),
        index >= 12 ==> final(registers)@ == old(registers)@,
        j@ == set_register_payload(index, value),
{
    let result: Result<(), DebuggerError> = Debugger::set_register(registers, index, value);
    let mut m: Vec<(String, Json)> = Vec::new();
    put(&mut m, "type", Json::text("setRegister"));
    put(&mut m, "index", Json::Number(index as u64));
    put(&mut m, "value", Json::Number(value));
    match result {
        Ok(_) => {
            put(&mut m, "success", Json::Bool(true));
        },
        Err(e) => {
            put(&mut m, "success", Json::Bool(false));
            put(&mut m, "error", Json::Text(e.message()));
        },
    }
    assert(member_views(m@) =~= set_register_payload(index, value)->Object_0);
    Json::object(m)
}

/// Answers `quit`.
pub fn quit() -> (j: Json)
    ensures
        j@ == quit_payload(),
{
    let mut m: Vec<(String, Json)> = Vec::new();
    put(&mut m, "type", Json::text("quit"));
    assert(member_views(m@) =~= quit_payload()->Object_0);
    Json::object(m)
}

/// Answers `getRodata`.
#[verifier::rlimit(50)]
pub fn get_rodata(debugger: &Debugger) -> (j: Json)
    ensures
        j@ == rodata_payload(debugger.rodata),
{
    let mut items: Vec<Json> = Vec::new();
    assert(item_views(items@) =~= Seq::<JsonView>::empty());
    match debugger.get_rodata() {
        Some(symbols) => {
            let mut i: usize = 0;
            while i < symbols.len()
                invariant
                    i <= symbols.len(),
                    item_views(items@) == Seq::new(i as nat, |k: int| symbol_payload(symbols@[k])),
                decreases symbols.len() - i,
            {
                let symbol: &ROData = &symbols[i];
                let mut address: String = String::new();
                push_hex16(&mut address, symbol.address);
                let mut m: Vec<(String, Json)> = Vec::new();
                put(&mut m, "name", Json::text(symbol.name.as_str()));
                put(&mut m, "address", Json::Text(address));
                put(&mut m, "value", Json::text(symbol.content.as_str()));
                assert(member_views(m@) =~= symbol_payload(symbols@[i as int])->Object_0);
                append_item(&mut items, Json::object(m));
                i = i + 1;
                assert(item_views(items@) =~= Seq::new(
                    i as nat,
                    |k: int| symbol_payload(symbols@[k]),
                ));
            }
        },
        None => {},
    }
    let mut m: Vec<(String, Json)> = Vec::new();
    put(&mut m, "rodata", Json::array(items));
    assert(member_views(m@) =~= rodata_payload(debugger.rodata)->Object_0);
    Json::object(m)
}

/// Answers the compute units of the session when `remaining` are left.
pub fn get_compute_units(debugger: &Debugger, remaining: u64) -> (j: Json)
    ensures
        j@ == units_payload(
            ComputeUnits {
                total: debugger@.initial_compute_budget,
                used: crate::debugger::used_units(debugger@.initial_compute_budget, remaining),
                remaining,
            },
        ),
{
    units_answer(debugger.get_compute_units(remaining))
}

} // verus!
