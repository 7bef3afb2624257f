//! The adapter protocol: requests of an editor, the operations of the
//! debugger that answer them, and the envelope of every answer.
//!
//! A request names a command and may carry an array of arguments. The
//! answer to a command is a JSON value; the envelope says whether the
//! command succeeded and carries the error text if it did not.

use crate::facade::{clear_breakpoints_payload, memory_payload};
use crate::json::{append_item, item_views, member_views, put, Json, JsonView};
use crate::text::{push_str, str_equal};
use vstd::prelude::*;

verus! {

/// The operations that a front end asks of a debugger. Every operation
/// answers with a JSON value.
pub trait DebuggerInterface {
    /// Executes one instruction.
    fn step(&mut self) -> Json;

    /// Runs to the next breakpoint or to the end of the program.
    fn continue_execution(&mut self) -> Json;

    /// Sets a breakpoint at a line of a file.
    fn set_breakpoint(&mut self, file: String, line: usize) -> Json;

    /// Removes the breakpoint at a line of a file.
    fn remove_breakpoint(&mut self, file: String, line: usize) -> Json;

    /// The call stack.
    fn get_stack_frames(&self) -> Json;

    /// The registers.
    fn get_registers(&self) -> Json;

    /// The memory at an address.
    fn get_memory(&self, address: u64, size: usize) -> Json;

    /// Sets a register.
    fn set_register(&mut self, index: usize, value: u64) -> Json;

    /// The symbols of the read-only data.
    fn get_rodata(&self) -> Json;

    /// Removes the breakpoints of a file.
    fn clear_breakpoints(&mut self, file: String) -> Json;

    /// Ends the session.
    fn quit(&mut self) -> Json;
}

/// A request of the editor, with its arguments.
#[derive(Debug, Clone, PartialEq, Eq)]
pub enum Request {
    Step,
    Continue,
    SetBreakpoint(String, usize),
    RemoveBreakpoint(String, usize),
    GetStackFrames,
    GetRegisters,
    GetRodata,
    ClearBreakpoints(String),
    GetMemory(u64, usize),
    SetRegister(usize, u64),
    Quit,
    /// A command that needs arguments came without any.
    MissingArgs,
    /// No command of that name.
    Unknown,
}

/// A request as a plain value.
pub enum RequestView {
    Step,
    Continue,
    SetBreakpoint(Seq<char>, usize),
    RemoveBreakpoint(Seq<char>, usize),
    GetStackFrames,
    GetRegisters,
    GetRodata,
    ClearBreakpoints(Seq<char>),
    GetMemory(u64, usize),
    SetRegister(usize, u64),
    Quit,
    MissingArgs,
    Unknown,
}

impl View for Request {
    type V = RequestView;

    open spec fn view(&self) -> RequestView {
        match self {
            Request::Step => RequestView::Step,
            Request::Continue => RequestView::Continue,
            Request::SetBreakpoint(f, l) => RequestView::SetBreakpoint(f@, *l),
            Request::RemoveBreakpoint(f, l) => RequestView::RemoveBreakpoint(f@, *l),
            Request::GetStackFrames => RequestView::GetStackFrames,
            Request::GetRegisters => RequestView::GetRegisters,
            Request::GetRodata => RequestView::GetRodata,
            Request::ClearBreakpoints(f) => RequestView::ClearBreakpoints(f@),
            Request::GetMemory(a, s) => RequestView::GetMemory(*a, *s),
            Request::SetRegister(i, v) => RequestView::SetRegister(*i, *v),
            Request::Quit => RequestView::Quit,
            Request::MissingArgs => RequestView::MissingArgs,
            Request::Unknown => RequestView::Unknown,
        }
    }
}

/// Argument `i` as text: the empty text unless the argument is a string.
pub open spec fn text_argument(args: JsonView, i: int) -> Seq<char> {
    match args.item(i) {
        Some(v) => match v.text() {
            Some(t) => t,
            None => Seq::empty(),
        },
        None => Seq::empty(),
    }
}

/// Argument `i` as a number: zero unless the argument is an unsigned
/// integer.
pub open spec fn number_argument(args: JsonView, i: int) -> u64 {
    match args.item(i) {
        Some(v) => match v.number() {
            Some(n) => n,
            None => 0,
        },
        None => 0,
    }
}

/// The request that a command and its arguments denote.
pub open spec fn request_of(command: Seq<char>, args: Option<JsonView>) -> RequestView {
    if command == "step"@ {
        RequestView::Step
    } else if command == "continue"@ {
        RequestView::Continue
    } else if command == "setBreakpoint"@ {
        match args {
            Some(a) => RequestView::SetBreakpoint(
                text_argument(a, 0),
                number_argument(a, 1) as usize,
            ),
            None => RequestView::MissingArgs,
        }
    } else if command == "removeBreakpoint"@ {
        match args {
            Some(a) => RequestView::RemoveBreakpoint(
                text_argument(a, 0),
                number_argument(a, 1) as usize,
            ),
            None => RequestView::MissingArgs,
        }
    } else if command == "getStackFrames"@ {
        RequestView::GetStackFrames
    } else if command == "getRegisters"@ {
        RequestView::GetRegisters
    } else if command == "getRodata"@ {
        RequestView::GetRodata
    } else if command == "clearBreakpoints"@ {
        match args {
            Some(a) => RequestView::ClearBreakpoints(text_argument(a, 0)),
            None => RequestView::MissingArgs,
        }
    } else if command == "getMemory"@ {
        match args {
            Some(a) => RequestView::GetMemory(number_argument(a, 0), number_argument(a, 1) as usize),
            None => RequestView::MissingArgs,
        }
    } else if command == "setRegister"@ {
        match args {
            Some(a) => RequestView::SetRegister(
                number_argument(a, 0) as usize,
                number_argument(a, 1),
            ),
            None => RequestView::MissingArgs,
        }
    } else if command == "quit"@ {
        RequestView::Quit
    } else {
        RequestView::Unknown
    }
}

/// Argument `i` as text.
fn argument_text(args: &Json, i: usize) -> (t: String)
    ensures
        t@ == text_argument(args@, i as int),
{
    let mut t: String = String::new();
    match args.get_index(i) {
        Some(v) => match v.as_str() {
            Some(s) => {
                push_str(&mut t, s);
                assert(t@ =~= s@);
            },
            None => {},
        },
        None => {},
    }
    t
}

/// Argument `i` as a number.
fn argument_number(args: &Json, i: usize) -> (n: u64)
    ensures
        n == number_argument(args@, i as int),
{
    match args.get_index(i) {
        Some(v) => match v.as_u64() {
            Some(n) => n,
            None => 0,
        },
        None => 0,
    }
}

/// Reads a command and its arguments as a request.
pub fn parse_request(command: &str, args: Option<&Json>) -> (request: Request)
    ensures
        request@ == request_of(
            command@,
            match args {
                Some(a) => Some(a@),
                None => None,
            },
        ),
{
    if str_equal(command, "step") {
        Request::Step
    } else if str_equal(command, "continue") {
        Request::Continue
    } else if str_equal(command, "setBreakpoint") {
        match args {
            Some(a) => Request::SetBreakpoint(argument_text(a, 0), argument_number(a, 1) as usize),
            None => Request::MissingArgs,
        }
    } else if str_equal(command, "removeBreakpoint") {
        match args {
            Some(a) => Request::RemoveBreakpoint(
                argument_text(a, 0),
                argument_number(a, 1) as usize,
            ),
            None => Request::MissingArgs,
        }
    } else if str_equal(command, "getStackFrames") {
        Request::GetStackFrames
    } else if str_equal(command, "getRegisters") {
        Request::GetRegisters
    } else if str_equal(command, "getRodata") {
        Request::GetRodata
    } else if str_equal(command, "clearBreakpoints") {
        match args {
            Some(a) => Request::ClearBreakpoints(argument_text(a, 0)),
            None => Request::MissingArgs,
        }
    } else if str_equal(command, "getMemory") {
        match args {
            Some(a) => Request::GetMemory(argument_number(a, 0), argument_number(a, 1) as usize),
            None => Request::MissingArgs,
        }
    } else if str_equal(command, "setRegister") {
        match args {
            Some(a) => Request::SetRegister(argument_number(a, 0) as usize, argument_number(a, 1)),
            None => Request::MissingArgs,
        }
    } else if str_equal(command, "quit") {
        Request::Quit
    } else {
        Request::Unknown
    }
}

/// The answer that reports an error.
pub open spec fn error_payload(message: Seq<char>) -> JsonView {
    JsonView::Object(
        seq![("type"@, JsonView::Text("error"@)), ("message"@, JsonView::Text(message))],
    )
}

/// The answer that reports an error.
pub fn error_answer(message: &str) -> (j: Json)
    ensures
        j@ == error_payload(message@),
{
    let mut m: Vec<(String, Json)> = Vec::new();
    put(&mut m, "type", Json::text("error"));
    put(&mut m, "message", Json::text(message));
    assert(member_views(m@) =~= seq![
        ("type"@, JsonView::Text("error"@)),
        ("message"@, JsonView::Text(message@)),
    ]);
    Json::object(m)
}

/// Whether a request changes nothing: it only reads the state of the
/// debugger, or it does not reach the debugger at all.
pub open spec fn leaves_state(request: RequestView) -> bool {
    request is GetStackFrames || request is GetRegisters || request is GetRodata
        || request is GetMemory || request is MissingArgs || request is Unknown
}

/// Whether a request ends the session: `quit` does, nothing else.
pub open spec fn ends_session(request: RequestView) -> bool {
    request is Quit
}

/// Hands a request to the debugger and returns its answer: the operation
/// that the request names is called once with the arguments of the request,
/// and no other. The clauses say so over the postcondition of each method:
/// the receiver of the call held the state before and left the state after.
/// A command without its arguments and an unknown command are answered with
/// an error and do not reach the debugger.
pub fn dispatch<T: DebuggerInterface>(debugger: &mut T, request: Request) -> (answer: Json)
    ensures
        request is Step ==> exists|d: &mut T|
            *d == *old(debugger) && *final(d) == *final(debugger) && #[trigger] call_ensures(
                T::step,
                (d,),
                answer,
            ),
        request is Continue ==> exists|d: &mut T|
            *d == *old(debugger) && *final(d) == *final(debugger) && #[trigger] call_ensures(
                T::continue_execution,
                (d,),
                answer,
            ),
        request matches Request::SetBreakpoint(file, line) ==> exists|d: &mut T|
            *d == *old(debugger) && *final(d) == *final(debugger) && #[trigger] call_ensures(
                T::set_breakpoint,
                (d, file, line),
                answer,
            ),
        request matches Request::RemoveBreakpoint(file, line) ==> exists|d: &mut T|
            *d == *old(debugger) && *final(d) == *final(debugger) && #[trigger] call_ensures(
                T::remove_breakpoint,
                (d, file, line),
                answer,
            ),
        request matches Request::ClearBreakpoints(file) ==> exists|d: &mut T|
            *d == *old(debugger) && *final(d) == *final(debugger) && #[trigger] call_ensures(
                T::clear_breakpoints,
                (d, file),
                answer,
            ),
        request matches Request::SetRegister(index, value) ==> exists|d: &mut T|
            *d == *old(debugger) && *final(d) == *final(debugger) && #[trigger] call_ensures(
                T::set_register,
                (d, index, value),
                answer,
            ),
        request is Quit ==> exists|d: &mut T|
            *d == *old(debugger) && *final(d) == *final(debugger) && #[trigger] call_ensures(
                T::quit,
                (d,),
                answer,
            ),
        leaves_state(request@) ==> *final(debugger) == *old(debugger),
        request is GetStackFrames ==> call_ensures(
            T::get_stack_frames,
            (&*old(debugger),),
            answer,
        ),
        request is GetRegisters ==> call_ensures(T::get_registers, (&*old(debugger),), answer),
        request is GetRodata ==> call_ensures(T::get_rodata, (&*old(debugger),), answer),
        request matches Request::GetMemory(address, size) ==> call_ensures(
            T::get_memory,
            (&*old(debugger), address, size),
            answer,
        ),
        request is MissingArgs ==> answer@ == error_payload("Missing args"@),
        request is Unknown ==> answer@ == error_payload("Unknown command"@),
{
    match request {
        Request::Step => debugger.step(),
        Request::Continue => debugger.continue_execution(),
        Request::SetBreakpoint(file, line) => debugger.set_breakpoint(file, line),
        Request::RemoveBreakpoint(file, line) => debugger.remove_breakpoint(file, line),
        Request::GetStackFrames => debugger.get_stack_frames(),
        Request::GetRegisters => debugger.get_registers(),
        Request::GetRodata => debugger.get_rodata(),
        Request::ClearBreakpoints(file) => debugger.clear_breakpoints(file),
        Request::GetMemory(address, size) => debugger.get_memory(address, size),
        Request::SetRegister(index, value) => debugger.set_register(index, value),
        Request::Quit => debugger.quit(),
        Request::MissingArgs => error_answer("Missing args"),
        Request::Unknown => error_answer("Unknown command"),
    }
}

/// Whether a request ends the session.
pub fn request_ends_session(request: &Request) -> (ends: bool)
    ensures
        ends == ends_session(request@),
{
    match request {
        Request::Quit => true,
        _ => false,
    }
}

/// The envelope of an answer.
#[derive(Debug, PartialEq, Eq)]
pub struct AdapterResponse {
    /// Whether the command succeeded.
    pub success: bool,
    /// The answer of the debugger.
    pub data: Option<Json>,
    /// The error text, if the command failed and gave one.
    pub error: Option<String>,
}

/// An envelope as a plain value.
pub struct AdapterResponseView {
    pub success: bool,
    pub data: Option<JsonView>,
    pub error: Option<Seq<char>>,
}

impl View for AdapterResponse {
    type V = AdapterResponseView;

    open spec fn view(&self) -> AdapterResponseView {
        AdapterResponseView {
            success: self.success,
            data: match self.data {
                Some(d) => Some(d@),
                None => None,
            },
            error: match self.error {
                Some(e) => Some(e@),
                None => None,
            },
        }
    }
}

/// The text of a member of an answer, if the answer has the member and it
/// is a string.
pub open spec fn member_text(answer: JsonView, name: Seq<char>) -> Option<Seq<char>> {
    match answer.field(name) {
        Some(v) => v.text(),
        None => None,
    }
}

/// Whether an answer reports a failure: it is an object with a member
/// `error`, or an object whose member `type` is the string `error`.
pub open spec fn reports_failure(answer: JsonView) -> bool {
    answer.field("error"@) is Some || member_text(answer, "type"@) == Some("error"@)
}

/// The error text of an answer that reports a failure: its member `error`
/// if it has one, else its member `message`; `None` where that is no string.
pub open spec fn failure_text_of(answer: JsonView) -> Option<Seq<char>> {
    if answer.field("error"@) is Some {
        member_text(answer, "error"@)
    } else {
        member_text(answer, "message"@)
    }
}

/// The envelope of an answer.
pub open spec fn envelope(answer: JsonView) -> AdapterResponseView {
    if reports_failure(answer) {
        AdapterResponseView { success: false, data: Some(answer), error: failure_text_of(answer) }
    } else {
        AdapterResponseView { success: true, data: Some(answer), error: None }
    }
}

/// The envelope for a request that could not be read.
pub open spec fn invalid_envelope(detail: Seq<char>) -> AdapterResponseView {
    AdapterResponseView { success: false, data: None, error: Some("Invalid command: "@ + detail) }
}

/// The text of the member `name` of `answer`.
fn text_of_member(answer: &Json, name: &str) -> (t: Option<String>)
    ensures
        match t {
            Some(s) => member_text(answer@, name@) == Some(s@),
            None => member_text(answer@, name@) is None,
        },
{
    match answer.get_field(name) {
        Some(v) => match v.as_str() {
            Some(s) => {
                let mut t: String = String::new();
                push_str(&mut t, s);
                assert(t@ =~= s@);
                Some(t)
            },
            None => None,
        },
        None => None,
    }
}

/// Puts an answer into its envelope.
pub fn respond(answer: Json) -> (response: AdapterResponse)
    ensures
        response@ == envelope(answer@),
        response.data == Some(answer),
{
    let mut success: bool = true;
    let mut error: Option<String> = None;
    if answer.get_field("error").is_some() {
        success = false;
        error = text_of_member(&answer, "error");
    } else {
        let is_error: bool = match text_of_member(&answer, "type") {
            Some(t) => str_equal(t.as_str(), "error"),
            None => false,
        };
        if is_error {
            success = false;
            error = text_of_member(&answer, "message");
        }
    }
    AdapterResponse { success, data: Some(answer), error }
}

/// The envelope for a request that could not be read; `detail` says why.
pub fn invalid_command(detail: &str) -> (response: AdapterResponse)
    ensures
        response@ == invalid_envelope(detail@),
{
    let mut message: String = String::new();
    push_str(&mut message, "Invalid command: ");
    push_str(&mut message, detail);
    AdapterResponse { success: false, data: None, error: Some(message) }
}

/// The request that a command and its arguments denote.
pub open spec fn request_for(command: Seq<char>, args: Option<&Json>) -> RequestView {
    request_of(
        command,
        match args {
            Some(a) => Some(a@),
            None => None,
        },
    )
}

/// Answers one command: reads it as a request, hands the request to the
/// debugger as `dispatch` does, and puts the answer into its envelope.
pub fn handle_command<T: DebuggerInterface>(
    debugger: &mut T,
    command: &str,
    args: Option<&Json>,
) -> (response: AdapterResponse)
    ensures
        exists|d: &mut T, request: Request, answer: Json|
            *d == *old(debugger) && *final(d) == *final(debugger) && request@ == request_for(
                command@,
                args,
            ) && #[trigger] call_ensures(dispatch::<T>, (d, request), answer) && response.data
                == Some(answer) && response@ == envelope(answer@),
{
    let request: Request = parse_request(command, args);
    let answer: Json = dispatch(debugger, request);
    respond(answer)
}

/// What serving a command gave: the envelope to send, and whether the
/// session ends after it.
#[derive(Debug, PartialEq, Eq)]
pub struct Served {
    /// The envelope of the answer.
    pub response: AdapterResponse,
    /// Whether the loop that reads commands stops after this one.
    pub ends_session: bool,
}

/// Serves one command: answers it as `handle_command` does, and says
/// whether the session ends with it. It ends with `quit` and with nothing
/// else.
pub fn serve_command<T: DebuggerInterface>(
    debugger: &mut T,
    command: &str,
    args: Option<&Json>,
) -> (served: Served)
    ensures
        exists|d: &mut T, request: Request, answer: Json|
            *d == *old(debugger) && *final(d) == *final(debugger) && request@ == request_for(
                command@,
                args,
            ) && #[trigger] call_ensures(dispatch::<T>, (d, request), answer)
                && served.response.data == Some(answer) && served.response@ == envelope(answer@),
        served.ends_session == ends_session(request_for(command@, args)),
{
    let request: Request = parse_request(command, args);
    let ends: bool = request_ends_session(&request);
    let answer: Json = dispatch(debugger, request);
    Served { response: respond(answer), ends_session: ends }
}

/// A debugger without a program: every operation answers with a fixed
/// value that names the operation and repeats its arguments.
pub struct DummyDebugger;

/// The answer of the dummy to an operation without arguments.
pub open spec fn dummy_event(name: Seq<char>) -> JsonView {
    JsonView::Object(seq![("event"@, JsonView::Text(name))])
}

/// The answer of the dummy to `step`.
pub open spec fn dummy_step() -> JsonView {
    JsonView::Object(seq![("event"@, JsonView::Text("step"@)), ("pc"@, JsonView::Number(0x1000))])
}

/// The answer of the dummy to an operation on a line of a file.
pub open spec fn dummy_line_event(name: Seq<char>, file: Seq<char>, line: usize) -> JsonView {
    JsonView::Object(
        seq![
            ("event"@, JsonView::Text(name)),
            ("file"@, JsonView::Text(file)),
            ("line"@, JsonView::Number(line as u64)),
        ],
    )
}

/// The answer of the dummy to `setRegister`.
pub open spec fn dummy_set_register(index: usize, value: u64) -> JsonView {
    JsonView::Object(
        seq![
            ("event"@, JsonView::Text("setRegister"@)),
            ("index"@, JsonView::Number(index as u64)),
            ("value"@, JsonView::Number(value)),
        ],
    )
}

/// An object with one member, an empty array.
pub open spec fn empty_list(name: Seq<char>) -> JsonView {
    JsonView::Object(seq![(name, JsonView::Array(Seq::empty()))])
}

/// A symbol in the answer of the dummy to `getRodata`.
pub open spec fn dummy_symbol(name: Seq<char>, address: u64, content: Seq<char>) -> JsonView {
    JsonView::Object(
        seq![
            ("name"@, JsonView::Text(name)),
            ("address"@, JsonView::Number(address)),
            ("content"@, JsonView::Text(content)),
        ],
    )
}

/// The answer of the dummy to `getRodata`.
pub open spec fn dummy_rodata() -> JsonView {
    JsonView::Object(
        seq![
            (
                "rodata"@,
                JsonView::Array(
                    seq![
                        dummy_symbol(".rodata1"@, 0x1000, "deadbeef"@),
                        dummy_symbol(".rodata2"@, 0x2000, "cafebabe"@),
                    ],
                ),
            ),
        ],
    )
}

fn event_object(name: &str) -> (j: Json)
    ensures
        j@ == dummy_event(name@),
{
    let mut m: Vec<(String, Json)> = Vec::new();
    put(&mut m, "event", Json::text(name));
    assert(member_views(m@) =~= dummy_event(name@)->Object_0);
    Json::object(m)
}

fn line_event_object(name: &str, file: String, line: usize) -> (j: Json)
    ensures
        j@ == dummy_line_event(name@, file@, line),
{
    let mut m: Vec<(String, Json)> = Vec::new();
    put(&mut m, "event", Json::text(name));
    put(&mut m, "file", Json::Text(file));
    put(&mut m, "line", Json::Number(line as u64));
    assert(member_views(m@) =~= dummy_line_event(name@, file@, line)->Object_0);
    Json::object(m)
}

fn empty_list_object(name: &str) -> (j: Json)
    ensures
        j@ == empty_list(name@),
{
    let items: Vec<Json> = Vec::new();
    assert(item_views(items@) =~= Seq::<JsonView>::empty());
    let mut m: Vec<(String, Json)> = Vec::new();
    put(&mut m, name, Json::array(items));
    assert(member_views(m@) =~= empty_list(name@)->Object_0);
    Json::object(m)
}

fn symbol_object(name: &str, address: u64, content: &str) -> (j: Json)
    ensures
        j@ == dummy_symbol(name@, address, content@),
{
    let mut m: Vec<(String, Json)> = Vec::new();
    put(&mut m, "name", Json::text(name));
    put(&mut m, "address", Json::Number(address));
    put(&mut m, "content", Json::text(content));
    assert(member_views(m@) =~= dummy_symbol(name@, address, content@)->Object_0);
    Json::object(m)
}

impl DebuggerInterface for DummyDebugger {
    fn step(&mut self) -> (j: Json)
        ensures
            j@ == dummy_step(),
    {
        let mut m: Vec<(String, Json)> = Vec::new();
        put(&mut m, "event", Json::text("step"));
        put(&mut m, "pc", Json::Number(0x1000));
        assert(member_views(m@) =~= dummy_step()->Object_0);
        Json::object(m)
    }

    fn continue_execution(&mut self) -> (j: Json)
        ensures
            j@ == dummy_event("continue"@),
    {
        event_object("continue")
    }

    fn set_breakpoint(&mut self, file: String, line: usize) -> (j: Json)
        ensures
            j@ == dummy_line_event("setBreakpoint"@, file@, line),
    {
        line_event_object("setBreakpoint", file, line)
    }

    fn remove_breakpoint(&mut self, file: String, line: usize) -> (j: Json)
        ensures
            j@ == dummy_line_event("removeBreakpoint"@, file@, line),
    {
        line_event_object("removeBreakpoint", file, line)
    }

    fn get_stack_frames(&self) -> (j: Json)
        ensures
            j@ == empty_list("frames"@),
    {
        empty_list_object("frames")
    }

    fn get_registers(&self) -> (j: Json)
        ensures
            j@ == empty_list("registers"@),
    {
        empty_list_object("registers")
    }

    fn get_memory(&self, address: u64, size: usize) -> (j: Json)
        ensures
            j@ == memory_payload(address, size),
    {
        crate::facade::get_memory(address, size)
    }

    fn set_register(&mut self, index: usize, value: u64) -> (j: Json)
        ensures
            j@ == dummy_set_register(index, value),
    {
        let mut m: Vec<(String, Json)> = Vec::new();
        put(&mut m, "event", Json::text("setRegister"));
        put(&mut m, "index", Json::Number(index as u64));
        put(&mut m, "value", Json::Number(value));
        assert(member_views(m@) =~= dummy_set_register(index, value)->Object_0);
        Json::object(m)
    }

    fn get_rodata(&self) -> (j: Json)
        ensures
            j@ == dummy_rodata(),
    {
        let mut items: Vec<Json> = Vec::new();
        append_item(&mut items, symbol_object(".rodata1", 0x1000, "deadbeef"));
        append_item(&mut items, symbol_object(".rodata2", 0x2000, "cafebabe"));
        assert(item_views(items@) =~= seq![
            dummy_symbol(".rodata1"@, 0x1000, "deadbeef"@),
            dummy_symbol(".rodata2"@, 0x2000, "cafebabe"@),
        ]);
        let mut m: Vec<(String, Json)> = Vec::new();
        put(&mut m, "rodata", Json::array(items));
        assert(member_views(m@) =~= dummy_rodata()->Object_0);
        Json::object(m)
    }

    fn clear_breakpoints(&mut self, file: String) -> (j: Json)
        ensures
            j@ == clear_breakpoints_payload(),
    {
        let mut m: Vec<(String, Json)> = Vec::new();
        put(&mut m, "result", Json::text("ok"));
        assert(member_views(m@) =~= clear_breakpoints_payload()->Object_0);
        Json::object(m)
    }

    fn quit(&mut self) -> (j: Json)
        ensures
            j@ == dummy_event("quit"@),
    {
        event_object("quit")
    }
}

} // verus!
