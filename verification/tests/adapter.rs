use sbpf_debugger::adapter::{
    dispatch, error_answer, handle_command, invalid_command, parse_request,
    request_ends_session, respond, serve_command, AdapterResponse, DebuggerInterface,
    DummyDebugger, Request,
};
use sbpf_debugger::debugger::{ComputeUnits, DebugEvent, Debugger};
use sbpf_debugger::facade::{
    clear_breakpoints, event_answer, frame_answer, get_compute_units, get_memory, get_registers,
    get_rodata, get_stack_frames, quit, remove_breakpoint, set_breakpoint, set_register,
    units_answer,
};
use sbpf_debugger::json::{append_item, put, Json};
use sbpf_debugger::parser::{LineMap, ROData};
use serde_json::Value;

/// The value as the JSON library holds it.
fn to_value(json: &Json) -> Value {
    match json {
        Json::Null | Json::Other => Value::Null,
        Json::Bool(b) => Value::Bool(*b),
        Json::Number(n) => Value::from(*n),
        Json::Text(t) => Value::String(t.clone()),
        Json::Array(items) => Value::Array(items.iter().map(to_value).collect()),
        Json::Object(members) => {
            let mut map = serde_json::Map::new();
            for (name, value) in members {
                map.insert(name.clone(), to_value(value));
            }
            Value::Object(map)
        }
    }
}

/// The value that the JSON library reads from a text.
fn from_value(value: &Value) -> Json {
    match value {
        Value::Null => Json::Null,
        Value::Bool(b) => Json::Bool(*b),
        Value::Number(n) => match n.as_u64() {
            Some(v) => Json::Number(v),
            None => Json::Other,
        },
        Value::String(t) => Json::Text(t.clone()),
        Value::Array(items) => Json::Array(items.iter().map(from_value).collect()),
        Value::Object(map) => {
            Json::Object(map.iter().map(|(k, v)| (k.clone(), from_value(v))).collect())
        }
    }
}

fn parsed(text: &str) -> Value {
    serde_json::from_str(text).unwrap()
}

fn read(text: &str) -> Json {
    from_value(&parsed(text))
}

fn envelope_value(response: &AdapterResponse, request_id: Value) -> Value {
    let mut map = serde_json::Map::new();
    map.insert("success".to_string(), Value::Bool(response.success));
    map.insert(
        "data".to_string(),
        response.data.as_ref().map(to_value).unwrap_or(Value::Null),
    );
    map.insert(
        "error".to_string(),
        response.error.clone().map(Value::String).unwrap_or(Value::Null),
    );
    map.insert("requestId".to_string(), request_id);
    Value::Object(map)
}

fn debugger_with_lines(rows: &[(u64, u32)]) -> Debugger {
    let mut map = LineMap::new();
    for (address, line) in rows {
        map.record_row(*address, "f.s".to_string(), *line, 0);
    }
    map.build_pc_mapping();
    let mut debugger = Debugger::new(1000);
    debugger.set_dwarf_line_map(map);
    debugger
}

/// A debugger that answers the adapter from a session without a program.
struct Session {
    debugger: Debugger,
    registers: [u64; 12],
}

impl DebuggerInterface for Session {
    fn step(&mut self) -> Json {
        event_answer(DebugEvent::Step(0, None), None)
    }
    fn continue_execution(&mut self) -> Json {
        event_answer(DebugEvent::Exit(0), None)
    }
    fn set_breakpoint(&mut self, file: String, line: usize) -> Json {
        set_breakpoint(&mut self.debugger, file, line)
    }
    fn remove_breakpoint(&mut self, file: String, line: usize) -> Json {
        remove_breakpoint(&mut self.debugger, file, line)
    }
    fn get_stack_frames(&self) -> Json {
        get_stack_frames(&self.debugger, &[], 0)
    }
    fn get_registers(&self) -> Json {
        get_registers(&self.registers)
    }
    fn get_memory(&self, address: u64, size: usize) -> Json {
        get_memory(address, size)
    }
    fn set_register(&mut self, index: usize, value: u64) -> Json {
        set_register(&mut self.registers, index, value)
    }
    fn get_rodata(&self) -> Json {
        get_rodata(&self.debugger)
    }
    fn clear_breakpoints(&mut self, file: String) -> Json {
        clear_breakpoints(&mut self.debugger, file)
    }
    fn quit(&mut self) -> Json {
        quit()
    }
}

#[test]
fn adapter_envelope() {
    let request = parsed(r#"{"command":"setBreakpoint","args":["f.s",7],"requestId":42}"#);
    let command = request["command"].as_str().unwrap();
    let args = from_value(&request["args"]);
    let mut session =
        Session { debugger: debugger_with_lines(&[(0x40, 7)]), registers: [0; 12] };

    let response = handle_command(&mut session, command, Some(&args));
    assert_eq!(
        envelope_value(&response, request["requestId"].clone()),
        parsed(
            r#"{"success":true,"data":{"type":"setBreakpoint","file":"f.s","line":7,"verified":true},"error":null,"requestId":42}"#
        )
    );
    assert!(session.debugger.breakpoints.contains(&0x40));
    assert!(session.debugger.line_breakpoints.contains(&7));
}

#[test]
fn requests_are_read_from_command_and_arguments() {
    let none: Option<&Json> = None;
    assert_eq!(parse_request("step", none), Request::Step);
    assert_eq!(parse_request("continue", none), Request::Continue);
    assert_eq!(parse_request("quit", none), Request::Quit);
    assert_eq!(parse_request("getStackFrames", none), Request::GetStackFrames);
    assert_eq!(parse_request("getRegisters", none), Request::GetRegisters);
    assert_eq!(parse_request("getRodata", none), Request::GetRodata);
    assert_eq!(parse_request("Step", none), Request::Unknown);
    assert_eq!(parse_request("", none), Request::Unknown);
    // arguments of a command without arguments do not matter
    assert_eq!(parse_request("step", Some(&read("[1]"))), Request::Step);

    for command in
        ["setBreakpoint", "removeBreakpoint", "clearBreakpoints", "getMemory", "setRegister"]
    {
        assert_eq!(parse_request(command, none), Request::MissingArgs, "{}", command);
    }
    let args = read(r#"["src/a.s", 12]"#);
    assert_eq!(
        parse_request("setBreakpoint", Some(&args)),
        Request::SetBreakpoint("src/a.s".to_string(), 12)
    );
    assert_eq!(
        parse_request("removeBreakpoint", Some(&args)),
        Request::RemoveBreakpoint("src/a.s".to_string(), 12)
    );
    assert_eq!(
        parse_request("clearBreakpoints", Some(&args)),
        Request::ClearBreakpoints("src/a.s".to_string())
    );
    assert_eq!(
        parse_request("getMemory", Some(&read("[4294967296, 16]"))),
        Request::GetMemory(4294967296, 16)
    );
    assert_eq!(
        parse_request("setRegister", Some(&read("[3, 18446744073709551615]"))),
        Request::SetRegister(3, u64::MAX)
    );
}

#[test]
fn arguments_of_the_wrong_kind_count_as_empty_or_zero() {
    for text in ["[]", "{}", "7", r#""f.s""#, "[7, \"f.s\"]", "[null, -1]", "[true, 1.5]", "[[], {}]"] {
        assert_eq!(
            parse_request("setBreakpoint", Some(&read(text))),
            Request::SetBreakpoint(String::new(), 0),
            "{}",
            text
        );
    }
    assert_eq!(
        parse_request("setRegister", Some(&read(r#"["1", 2]"#))),
        Request::SetRegister(0, 2)
    );
    assert_eq!(parse_request("getMemory", Some(&read("[5]"))), Request::GetMemory(5, 0));
}

#[test]
fn an_unknown_command_and_missing_arguments_fail() {
    let mut dummy = DummyDebugger;
    let response = handle_command(&mut dummy, "fly", None);
    assert_eq!(
        envelope_value(&response, Value::Null),
        parsed(
            r#"{"success":false,"data":{"type":"error","message":"Unknown command"},"error":"Unknown command","requestId":null}"#
        )
    );
    let response = handle_command(&mut dummy, "getMemory", None);
    assert_eq!(
        envelope_value(&response, Value::from(7)),
        parsed(
            r#"{"success":false,"data":{"type":"error","message":"Missing args"},"error":"Missing args","requestId":7}"#
        )
    );
    assert_eq!(to_value(&dispatch(&mut dummy, Request::Unknown)), to_value(&error_answer("Unknown command")));
}

#[test]
fn a_request_that_cannot_be_read_fails() {
    let response = invalid_command("expected value at line 1 column 1");
    assert_eq!(
        envelope_value(&response, Value::Null),
        parsed(
            r#"{"success":false,"data":null,"error":"Invalid command: expected value at line 1 column 1","requestId":null}"#
        )
    );
}

#[test]
fn the_envelope_reports_failures_of_the_answer() {
    let cases = [
        (r#"{"type":"step","pc":8,"line":null}"#, true, None),
        (r#"{"type":"error","message":"boom"}"#, false, Some("boom")),
        (r#"{"type":"error"}"#, false, None),
        (r#"{"type":"error","message":3}"#, false, None),
        (r#"{"type":"setRegister","success":false,"error":"bad index"}"#, false, Some("bad index")),
        (r#"{"error":null}"#, false, None),
        (r#"{"error":"e","type":"error","message":"m"}"#, false, Some("e")),
        (r#"{"type":"Error","message":"m"}"#, true, None),
        (r#"{"type":["error"],"message":"m"}"#, true, None),
        (r#"["error"]"#, true, None),
        (r#""error""#, true, None),
        ("null", true, None),
        ("{}", true, None),
    ];
    for (text, success, error) in cases {
        let response = respond(read(text));
        assert_eq!(response.success, success, "{}", text);
        assert_eq!(response.error.as_deref(), error, "{}", text);
        assert_eq!(response.data.as_ref().map(to_value), Some(parsed(text)), "{}", text);
    }
}

#[test]
fn the_later_member_of_a_name_counts() {
    let mut members = Vec::new();
    put(&mut members, "type", Json::text("step"));
    put(&mut members, "type", Json::text("error"));
    put(&mut members, "message", Json::text("first"));
    put(&mut members, "message", Json::text("second"));
    let answer = Json::object(members);
    assert_eq!(answer.get_field("type").and_then(|t| t.as_str()), Some("error"));
    let response = respond(answer);
    assert!(!response.success);
    assert_eq!(response.error.as_deref(), Some("second"));
}

#[test]
fn json_values_give_their_parts() {
    let value = read(r#"{"a":[1,"two",null,-3,2.5,true],"b":{"c":"d"}}"#);
    assert!(value.is_object());
    let a = value.get_field("a").unwrap();
    assert!(!a.is_object());
    assert_eq!(a.get_index(0).and_then(|v| v.as_u64()), Some(1));
    assert_eq!(a.get_index(1).and_then(|v| v.as_str()), Some("two"));
    assert_eq!(a.get_index(1).and_then(|v| v.as_u64()), None);
    assert_eq!(a.get_index(2), Some(&Json::Null));
    assert_eq!(a.get_index(3), Some(&Json::Other));
    assert_eq!(a.get_index(4), Some(&Json::Other));
    assert_eq!(a.get_index(5), Some(&Json::Bool(true)));
    assert_eq!(a.get_index(6), None);
    assert_eq!(a.get_field("a"), None);
    assert_eq!(value.get_index(0), None);
    assert_eq!(value.get_field("b").and_then(|b| b.get_field("c")), Some(&Json::text("d")));
    assert_eq!(value.get_field("c"), None);
    assert_eq!(Json::number_or_null(Some(4)), Json::Number(4));
    assert_eq!(Json::number_or_null(None), Json::Null);
    let mut items = Vec::new();
    append_item(&mut items, Json::Number(1));
    append_item(&mut items, Json::Null);
    assert_eq!(to_value(&Json::array(items)), parsed("[1,null]"));
}

#[test]
fn events_are_answered_with_their_kind() {
    let units = ComputeUnits { total: 10, used: 4, remaining: 6 };
    let cases = [
        (DebugEvent::Step(8, Some(3)), None, r#"{"type":"step","pc":8,"line":3}"#),
        (DebugEvent::Step(8, None), Some(units), r#"{"type":"step","pc":8,"line":null}"#),
        (DebugEvent::Breakpoint(16, Some(0)), None, r#"{"type":"breakpoint","pc":16,"line":0}"#),
        (DebugEvent::Exit(2), None, r#"{"type":"exit","code":2}"#),
        (
            DebugEvent::Exit(2),
            Some(units),
            r#"{"type":"exit","code":2,"compute_units":{"total":10,"used":4,"remaining":6}}"#,
        ),
        (DebugEvent::Error("bad".to_string()), Some(units), r#"{"type":"error","message":"bad"}"#),
    ];
    for (event, units, expected) in cases {
        assert_eq!(to_value(&event_answer(event, units)), parsed(expected), "{}", expected);
    }
    assert_eq!(to_value(&units_answer(units)), parsed(r#"{"total":10,"used":4,"remaining":6}"#));
    let failed = respond(event_answer(DebugEvent::Error("bad".to_string()), None));
    assert_eq!((failed.success, failed.error.as_deref()), (false, Some("bad")));
}

#[test]
fn breakpoint_commands_are_answered_and_carried_out() {
    let mut debugger = debugger_with_lines(&[(0x40, 7), (0x48, 7), (0x50, 9)]);
    debugger.set_breakpoint(0x400);
    assert_eq!(
        to_value(&set_breakpoint(&mut debugger, "f.s".to_string(), 7)),
        parsed(r#"{"type":"setBreakpoint","file":"f.s","line":7,"verified":true}"#)
    );
    assert_eq!(debugger.breakpoints.len(), 3);
    // a line without code is verified all the same
    assert_eq!(
        to_value(&set_breakpoint(&mut debugger, "g.s".to_string(), 8)),
        parsed(r#"{"type":"setBreakpoint","file":"g.s","line":8,"verified":true}"#)
    );
    assert_eq!(debugger.breakpoints.len(), 3);
    assert_eq!(
        to_value(&remove_breakpoint(&mut debugger, "f.s".to_string(), 7)),
        parsed(r#"{"type":"removeBreakpoint","file":"f.s","line":7,"success":true}"#)
    );
    assert_eq!(debugger.breakpoints.len(), 1);
    let _ = set_breakpoint(&mut debugger, "f.s".to_string(), 9);
    assert_eq!(
        to_value(&clear_breakpoints(&mut debugger, "other.s".to_string())),
        parsed(r#"{"result":"ok"}"#)
    );
    assert!(debugger.line_breakpoints.is_empty());
    assert_eq!(debugger.breakpoints.iter().copied().collect::<Vec<u64>>(), vec![0x400]);
}

#[test]
fn state_is_answered_as_lists() {
    let mut debugger = debugger_with_lines(&[(16, 5)]);
    assert_eq!(
        to_value(&get_stack_frames(&debugger, &[16], 24)),
        parsed(
            r#"{"frames":[{"index":0,"name":"f.s","file":"f.s","line":5,"instruction":16},{"index":1,"name":"?","file":"?","line":0,"instruction":24}]}"#
        )
    );
    let frames = debugger.get_stack_frames(&[], 16);
    assert_eq!(
        to_value(&frame_answer(&frames[0])),
        parsed(r#"{"index":0,"name":"f.s","file":"f.s","line":5,"instruction":16}"#)
    );
    assert_eq!(
        to_value(&get_registers(&[1, 0xabc])),
        parsed(
            r#"{"registers":[{"name":"r0","value":"0x0000000000000001","type":"u64"},{"name":"r1","value":"0x0000000000000abc","type":"u64"}]}"#
        )
    );
    let twelve = to_value(&get_registers(&[0; 12]));
    assert_eq!(twelve["registers"].as_array().unwrap().len(), 12);
    assert_eq!(twelve["registers"][11]["name"], Value::from("r11"));
    assert_eq!(
        to_value(&get_memory(0x100, 4)),
        parsed(r#"{"address":256,"size":4,"data":[]}"#)
    );
    assert_eq!(to_value(&quit()), parsed(r#"{"type":"quit"}"#));
    assert_eq!(to_value(&get_rodata(&debugger)), parsed(r#"{"rodata":[]}"#));
    debugger.set_rodata(vec![
        ROData { name: "msg".to_string(), address: 0x120, content: "hi".to_string() },
        ROData { name: "raw".to_string(), address: 0x122, content: "00 ff".to_string() },
    ]);
    assert_eq!(
        to_value(&get_rodata(&debugger)),
        parsed(
            r#"{"rodata":[{"name":"msg","address":"0x0000000000000120","value":"hi"},{"name":"raw","address":"0x0000000000000122","value":"00 ff"}]}"#
        )
    );
    assert_eq!(
        to_value(&get_compute_units(&debugger, 400)),
        parsed(r#"{"total":1000,"used":600,"remaining":400}"#)
    );
}

#[test]
fn setting_a_register_is_answered_with_success_or_the_error() {
    let mut registers = [0u64; 12];
    assert_eq!(
        to_value(&set_register(&mut registers, 2, 77)),
        parsed(r#"{"type":"setRegister","index":2,"value":77,"success":true}"#)
    );
    assert_eq!(registers[2], 77);
    let answer = set_register(&mut registers, 12, 5);
    assert_eq!(
        to_value(&answer),
        parsed(
            r#"{"type":"setRegister","index":12,"value":5,"success":false,"error":"Register index 12 out of range"}"#
        )
    );
    let response = respond(answer);
    assert!(!response.success);
    assert_eq!(response.error.as_deref(), Some("Register index 12 out of range"));
}

#[test]
fn the_dummy_answers_with_fixed_values() {
    let mut dummy = DummyDebugger;
    assert_eq!(to_value(&dummy.step()), parsed(r#"{"event":"step","pc":4096}"#));
    assert_eq!(to_value(&dummy.continue_execution()), parsed(r#"{"event":"continue"}"#));
    assert_eq!(
        to_value(&dummy.set_breakpoint("a.s".to_string(), 3)),
        parsed(r#"{"event":"setBreakpoint","file":"a.s","line":3}"#)
    );
    assert_eq!(
        to_value(&dummy.remove_breakpoint("a.s".to_string(), 3)),
        parsed(r#"{"event":"removeBreakpoint","file":"a.s","line":3}"#)
    );
    assert_eq!(to_value(&dummy.get_stack_frames()), parsed(r#"{"frames":[]}"#));
    assert_eq!(to_value(&dummy.get_registers()), parsed(r#"{"registers":[]}"#));
    assert_eq!(
        to_value(&dummy.get_memory(1, 2)),
        parsed(r#"{"address":1,"size":2,"data":[]}"#)
    );
    assert_eq!(
        to_value(&dummy.set_register(1, 2)),
        parsed(r#"{"event":"setRegister","index":1,"value":2}"#)
    );
    assert_eq!(
        to_value(&dummy.get_rodata()),
        parsed(
            r#"{"rodata":[{"name":".rodata1","address":4096,"content":"deadbeef"},{"name":".rodata2","address":8192,"content":"cafebabe"}]}"#
        )
    );
    assert_eq!(to_value(&dummy.clear_breakpoints("a.s".to_string())), parsed(r#"{"result":"ok"}"#));
    assert_eq!(to_value(&dummy.quit()), parsed(r#"{"event":"quit"}"#));

    let response = handle_command(&mut dummy, "step", None);
    assert_eq!(
        envelope_value(&response, Value::from("id")),
        parsed(r#"{"success":true,"data":{"event":"step","pc":4096},"error":null,"requestId":"id"}"#)
    );
    for (command, args, expected) in [
        ("continue", "null", r#"{"event":"continue"}"#),
        ("setBreakpoint", r#"["a.s",3]"#, r#"{"event":"setBreakpoint","file":"a.s","line":3}"#),
        ("removeBreakpoint", r#"["a.s",3]"#, r#"{"event":"removeBreakpoint","file":"a.s","line":3}"#),
        ("clearBreakpoints", r#"["a.s"]"#, r#"{"result":"ok"}"#),
        ("getStackFrames", "null", r#"{"frames":[]}"#),
        ("getRegisters", "null", r#"{"registers":[]}"#),
        ("getMemory", "[1,2]", r#"{"address":1,"size":2,"data":[]}"#),
        ("setRegister", "[1,2]", r#"{"event":"setRegister","index":1,"value":2}"#),
        ("quit", "null", r#"{"event":"quit"}"#),
    ] {
        let args = match parsed(args) {
            Value::Null => None,
            value => Some(from_value(&value)),
        };
        let response = handle_command(&mut dummy, command, args.as_ref());
        assert!(response.success, "{}", command);
        assert_eq!(response.data.as_ref().map(to_value), Some(parsed(expected)), "{}", command);
    }
}

/// A debugger that notes which operations it was asked for.
struct Recorder {
    calls: std::cell::RefCell<Vec<String>>,
}

impl Recorder {
    fn new() -> Recorder {
        Recorder { calls: std::cell::RefCell::new(Vec::new()) }
    }

    fn note(&self, call: String) -> Json {
        self.calls.borrow_mut().push(call.clone());
        Json::Text(call)
    }
}

impl DebuggerInterface for Recorder {
    fn step(&mut self) -> Json {
        self.note("step".to_string())
    }
    fn continue_execution(&mut self) -> Json {
        self.note("continue".to_string())
    }
    fn set_breakpoint(&mut self, file: String, line: usize) -> Json {
        self.note(format!("set_breakpoint {} {}", file, line))
    }
    fn remove_breakpoint(&mut self, file: String, line: usize) -> Json {
        self.note(format!("remove_breakpoint {} {}", file, line))
    }
    fn get_stack_frames(&self) -> Json {
        self.note("get_stack_frames".to_string())
    }
    fn get_registers(&self) -> Json {
        self.note("get_registers".to_string())
    }
    fn get_memory(&self, address: u64, size: usize) -> Json {
        self.note(format!("get_memory {} {}", address, size))
    }
    fn set_register(&mut self, index: usize, value: u64) -> Json {
        self.note(format!("set_register {} {}", index, value))
    }
    fn get_rodata(&self) -> Json {
        self.note("get_rodata".to_string())
    }
    fn clear_breakpoints(&mut self, file: String) -> Json {
        self.note(format!("clear_breakpoints {}", file))
    }
    fn quit(&mut self) -> Json {
        self.note("quit".to_string())
    }
}

#[test]
fn every_request_reaches_its_operation_and_no_other() {
    let cases = [
        ("step", "null", Some("step")),
        ("continue", "null", Some("continue")),
        ("setBreakpoint", r#"["f.s",7]"#, Some("set_breakpoint f.s 7")),
        ("removeBreakpoint", r#"["f.s",7]"#, Some("remove_breakpoint f.s 7")),
        ("clearBreakpoints", r#"["f.s"]"#, Some("clear_breakpoints f.s")),
        ("getStackFrames", "null", Some("get_stack_frames")),
        ("getRegisters", "null", Some("get_registers")),
        ("getRodata", "null", Some("get_rodata")),
        ("getMemory", "[16,4]", Some("get_memory 16 4")),
        ("setRegister", "[3,9]", Some("set_register 3 9")),
        ("quit", "null", Some("quit")),
        ("setBreakpoint", "null", None),
        ("getMemory", "null", None),
        ("fly", "[1]", None),
    ];
    for (command, args, expected) in cases {
        let args = match parsed(args) {
            Value::Null => None,
            value => Some(from_value(&value)),
        };
        let mut recorder = Recorder::new();
        let response = handle_command(&mut recorder, command, args.as_ref());
        let calls = recorder.calls.borrow().clone();
        match expected {
            Some(call) => {
                assert_eq!(calls, vec![call.to_string()], "{}", command);
                assert_eq!(response.data, Some(Json::Text(call.to_string())), "{}", command);
                assert!(response.success);
            }
            None => {
                assert!(calls.is_empty(), "{}", command);
                assert!(!response.success);
            }
        }
    }
}

#[test]
fn only_quit_ends_the_session() {
    let commands = [
        "step", "continue", "setBreakpoint", "removeBreakpoint", "clearBreakpoints",
        "getStackFrames", "getRegisters", "getRodata", "getMemory", "setRegister", "quit",
        "Quit", "exit", "",
    ];
    let args = read(r#"["f.s",1]"#);
    for command in commands {
        for given in [None, Some(&args)] {
            let mut recorder = Recorder::new();
            let served = serve_command(&mut recorder, command, given);
            assert_eq!(served.ends_session, command == "quit", "{}", command);
            let mut again = Recorder::new();
            assert_eq!(served.response, handle_command(&mut again, command, given));
            assert_eq!(recorder.calls, again.calls);
        }
    }
    assert!(request_ends_session(&Request::Quit));
    assert!(!request_ends_session(&Request::Step));
    assert!(!request_ends_session(&Request::Unknown));
    assert!(!request_ends_session(&Request::MissingArgs));

    let mut dummy = DummyDebugger;
    let served = serve_command(&mut dummy, "quit", None);
    assert!(served.ends_session);
    assert_eq!(
        envelope_value(&served.response, Value::from(1)),
        parsed(r#"{"success":true,"data":{"event":"quit"},"error":null,"requestId":1}"#)
    );
}

#[test]
fn breakpoint_commands_keep_map_and_read_only_data() {
    let mut debugger = debugger_with_lines(&[(0x40, 7)]);
    let symbols = vec![ROData { name: "msg".to_string(), address: 1, content: "hi".to_string() }];
    debugger.set_rodata(symbols.clone());
    let _ = set_breakpoint(&mut debugger, "f.s".to_string(), 7);
    assert_eq!(debugger.get_rodata(), Some(&symbols));
    assert!(debugger.has_line_mapping());
    let _ = remove_breakpoint(&mut debugger, "f.s".to_string(), 7);
    assert_eq!(debugger.get_rodata(), Some(&symbols));
    let _ = clear_breakpoints(&mut debugger, "f.s".to_string());
    assert_eq!(debugger.get_rodata(), Some(&symbols));
    assert_eq!(debugger.get_pcs_for_line(7), vec![0x40]);
}
