//! Grammar of the interactive command line.
//!
//! A line is trimmed and split at white space; the first word selects the
//! command and the following words are its arguments.

use crate::text::{chars_of, parse_u64, parse_unsigned, parse_usize};
use vstd::prelude::*;

verus! {

/// A command of the interactive front end, or the reason why a line is none.
#[derive(Debug, Clone, Copy, PartialEq, Eq, Structural)]
pub enum ReplCommand {
    /// `step` or `s`: execute one instruction.
    Step,
    /// `continue` or `c`: run to the next breakpoint or to the end.
    Continue,
    /// `break <n>` where `n` is a line number.
    BreakLine(usize),
    /// `break <n>` where `n` only fits a program counter.
    BreakPc(u64),
    /// `break` with an argument that is no number.
    BreakInvalid,
    /// `delete <n>`: remove the breakpoint of a line.
    DeleteLine(usize),
    /// `delete` with an argument that is no line number.
    DeleteInvalid,
    /// `info breakpoints` or `info b`.
    InfoBreakpoints,
    /// `info line`.
    InfoLine,
    /// `quit`.
    Quit,
    /// `help`.
    Help,
    /// `regs`: show all registers.
    Regs,
    /// `reg <n>`: show one register.
    Reg(usize),
    /// `reg` with an argument that is no index.
    RegInvalid,
    /// `setreg <n> <value>`, the value in decimal or as `0x` and hexadecimal digits.
    SetReg(usize, u64),
    /// `setreg` with a first argument that is no index.
    SetRegInvalidIndex,
    /// `setreg` with a second argument that is no number.
    SetRegInvalidValue,
    /// `setreg` with fewer than two arguments.
    SetRegUsage,
    /// `rodata`.
    Rodata,
    /// `lines`.
    Lines,
    /// `stack` or `bt`.
    Stack,
    /// `compute`.
    Compute,
    /// Anything else.
    Unknown,
}

/// Whether `c` is white space: the characters with the Unicode property
/// `White_Space`.
pub open spec fn is_space(c: char) -> bool {
    let x = c as nat;
    (0x09 <= x && x <= 0x0d) || x == 0x20 || x == 0x85 || x == 0xa0 || x == 0x1680 || (0x2000 <= x
        && x <= 0x200a) || x == 0x2028 || x == 0x2029 || x == 0x202f || x == 0x205f || x == 0x3000
}

/// The first index at or after `from` that holds no white space, or the
/// length of `s` if there is none.
pub open spec fn skip_spaces(s: Seq<char>, from: int) -> int
    decreases s.len() - from,
{
    if 0 <= from < s.len() && is_space(s[from]) {
        skip_spaces(s, from + 1)
    } else {
        from
    }
}

/// The first index at or after `from` that holds white space, or the length
/// of `s` if there is none.
pub open spec fn skip_word(s: Seq<char>, from: int) -> int
    decreases s.len() - from,
{
    if 0 <= from < s.len() && !is_space(s[from]) {
        skip_word(s, from + 1)
    } else {
        from
    }
}

/// The end of `s` without its trailing white space: the least index `e` at
/// or below `upto` such that everything from `e` to `upto` is white space.
pub open spec fn skip_spaces_back(s: Seq<char>, upto: int) -> int
    decreases upto,
{
    if 0 < upto <= s.len() && is_space(s[upto - 1]) {
        skip_spaces_back(s, upto - 1)
    } else {
        upto
    }
}

/// `s` without leading and trailing white space.
pub open spec fn trimmed(s: Seq<char>) -> Seq<char> {
    let a = skip_spaces(s, 0);
    let b = skip_spaces_back(s, s.len() as int);
    if a < b {
        s.subrange(a, b)
    } else {
        Seq::empty()
    }
}

/// Where word number `n` of `s` begins (words are counted from zero), or the
/// length of `s` if there are not that many.
pub open spec fn word_start(s: Seq<char>, n: nat) -> int
    decreases n,
{
    if n == 0 {
        skip_spaces(s, 0)
    } else {
        skip_spaces(s, skip_word(s, word_start(s, (n - 1) as nat)))
    }
}

/// Word number `n` of `s`, if `s` has that many words.
pub open spec fn word(s: Seq<char>, n: nat) -> Option<Seq<char>> {
    let a = word_start(s, n);
    if 0 <= a < s.len() {
        Some(s.subrange(a, skip_word(s, a)))
    } else {
        None
    }
}

/// Whether `s` begins with `prefix`.
pub open spec fn starts_with(s: Seq<char>, prefix: Seq<char>) -> bool {
    prefix.len() <= s.len() && s.subrange(0, prefix.len() as int) == prefix
}

/// The value of a `setreg` argument: hexadecimal after a leading `0x`,
/// decimal otherwise.
pub open spec fn register_value(arg: Seq<char>) -> Option<nat> {
    if starts_with(arg, seq!['0', 'x']) {
        parse_unsigned(arg.subrange(2, arg.len() as int), 16, u64::MAX as nat)
    } else {
        parse_unsigned(arg, 10, u64::MAX as nat)
    }
}

/// The command that a `break` line with the argument `arg` denotes.
pub open spec fn break_command(arg: Seq<char>) -> ReplCommand {
    match parse_unsigned(arg, 10, usize::MAX as nat) {
        Some(line) => ReplCommand::BreakLine(line as usize),
        None => match parse_unsigned(arg, 10, u64::MAX as nat) {
            Some(pc) => ReplCommand::BreakPc(pc as u64),
            None => ReplCommand::BreakInvalid,
        },
    }
}

/// The command that a `setreg` line with these arguments denotes.
pub open spec fn setreg_command(index: Option<Seq<char>>, value: Option<Seq<char>>) -> ReplCommand {
    match (index, value) {
        (Some(i), Some(v)) => match parse_unsigned(i, 10, usize::MAX as nat) {
            Some(idx) => match register_value(v) {
                Some(val) => ReplCommand::SetReg(idx as usize, val as u64),
                None => ReplCommand::SetRegInvalidValue,
            },
            None => ReplCommand::SetRegInvalidIndex,
        },
        _ => ReplCommand::SetRegUsage,
    }
}

/// The command that a line denotes.
pub open spec fn command_of(line: Seq<char>) -> ReplCommand {
    let t = trimmed(line);
    if t == "step"@ || t == "s"@ {
        ReplCommand::Step
    } else if t == "continue"@ || t == "c"@ {
        ReplCommand::Continue
    } else if starts_with(t, "break "@) {
        match word(t, 1) {
            Some(arg) => break_command(arg),
            None => ReplCommand::Unknown,
        }
    } else if starts_with(t, "delete "@) {
        match word(t, 1) {
            Some(arg) => match parse_unsigned(arg, 10, usize::MAX as nat) {
                Some(line) => ReplCommand::DeleteLine(line as usize),
                None => ReplCommand::DeleteInvalid,
            },
            None => ReplCommand::Unknown,
        }
    } else if t == "info breakpoints"@ || t == "info b"@ {
        ReplCommand::InfoBreakpoints
    } else if t == "info line"@ {
        ReplCommand::InfoLine
    } else if t == "quit"@ {
        ReplCommand::Quit
    } else if t == "help"@ {
        ReplCommand::Help
    } else if t == "regs"@ {
        ReplCommand::Regs
    } else if starts_with(t, "reg "@) {
        match word(t, 1) {
            Some(arg) => match parse_unsigned(arg, 10, usize::MAX as nat) {
                Some(idx) => ReplCommand::Reg(idx as usize),
                None => ReplCommand::RegInvalid,
            },
            None => ReplCommand::Unknown,
        }
    } else if starts_with(t, "setreg "@) {
        setreg_command(word(t, 1), word(t, 2))
    } else if t == "rodata"@ {
        ReplCommand::Rodata
    } else if t == "lines"@ {
        ReplCommand::Lines
    } else if t == "stack"@ || t == "bt"@ {
        ReplCommand::Stack
    } else if t == "compute"@ {
        ReplCommand::Compute
    } else {
        ReplCommand::Unknown
    }
}

/// Whether `c` is white space.
pub fn char_is_space(c: char) -> (b: bool)
    ensures
        b == is_space(c),
{
    let x: u32 = c as u32;
    (0x09 <= x && x <= 0x0d) || x == 0x20 || x == 0x85 || x == 0xa0 || x == 0x1680 || (0x2000 <= x
        && x <= 0x200a) || x == 0x2028 || x == 0x2029 || x == 0x202f || x == 0x205f || x == 0x3000
}

fn skip_spaces_from(s: &[char], from: usize) -> (i: usize)
    requires
        from <= s.len(),
    ensures
        i == skip_spaces(s@, from as int),
        from <= i <= s.len(),
{
    let mut i: usize = from;
    while i < s.len() && char_is_space(s[i])
        invariant
            from <= i <= s.len(),
            skip_spaces(s@, from as int) == skip_spaces(s@, i as int),
        decreases s.len() - i,
    {
        i = i + 1;
    }
    i
}

fn skip_word_from(s: &[char], from: usize) -> (i: usize)
    requires
        from <= s.len(),
    ensures
        i == skip_word(s@, from as int),
        from <= i <= s.len(),
{
    let mut i: usize = from;
    while i < s.len() && !char_is_space(s[i])
        invariant
            from <= i <= s.len(),
            skip_word(s@, from as int) == skip_word(s@, i as int),
        decreases s.len() - i,
    {
        i = i + 1;
    }
    i
}

fn skip_spaces_back_from(s: &[char], upto: usize) -> (i: usize)
    requires
        upto <= s.len(),
    ensures
        i == skip_spaces_back(s@, upto as int),
        i <= upto,
{
    let mut i: usize = upto;
    while i > 0 && char_is_space(s[i - 1])
        invariant
            i <= upto <= s.len(),
            skip_spaces_back(s@, upto as int) == skip_spaces_back(s@, i as int),
        decreases i,
    {
        i = i - 1;
    }
    i
}

/// Copies `s[from..to]`.
fn copy_range(s: &[char], from: usize, to: usize) -> (v: Vec<char>)
    requires
        from <= to <= s.len(),
    ensures
        v@ == s@.subrange(from as int, to as int),
{
    let mut v: Vec<char> = Vec::new();
    let mut i: usize = from;
    while i < to
        invariant
            from <= i <= to <= s.len(),
            v@ == s@.subrange(from as int, i as int),
        decreases to - i,
    {
        v.push(s[i]);
        i = i + 1;
        assert(v@ =~= s@.subrange(from as int, i as int));
    }
    v
}

/// `s` without leading and trailing white space.
pub fn trim(s: &[char]) -> (t: Vec<char>)
    ensures
        t@ == trimmed(s@),
{
    let a: usize = skip_spaces_from(s, 0);
    let b: usize = skip_spaces_back_from(s, s.len());
    if a < b {
        copy_range(s, a, b)
    } else {
        Vec::new()
    }
}

/// Word number `n` of `s`.
pub fn nth_word(s: &[char], n: usize) -> (w: Option<Vec<char>>)
    ensures
        match word(s@, n as nat) {
            Some(x) => w matches Some(v) && v@ == x,
            None => w is None,
        },
{
    let mut a: usize = skip_spaces_from(s, 0);
    let mut k: usize = 0;
    while k < n
        invariant
            k <= n,
            a <= s.len(),
            a == word_start(s@, k as nat),
        decreases n - k,
    {
        let e: usize = skip_word_from(s, a);
        a = skip_spaces_from(s, e);
        k = k + 1;
    }
    if a < s.len() {
        let e: usize = skip_word_from(s, a);
        Some(copy_range(s, a, e))
    } else {
        None
    }
}

/// Whether `s` is the text of `lit`.
fn is_text(s: &[char], lit: &str) -> (b: bool)
    ensures
        b == (s@ == lit@),
{
    let l: Vec<char> = chars_of(lit);
    if s.len() != l.len() {
        return false;
    }
    let mut i: usize = 0;
    while i < s.len()
        invariant
            i <= s.len(),
            s.len() == l.len(),
            l@ == lit@,
            s@.subrange(0, i as int) == l@.subrange(0, i as int),
        decreases s.len() - i,
    {
        if s[i] != l[i] {
            return false;
        }
        i = i + 1;
        assert(s@.subrange(0, i as int) =~= s@.subrange(0, i - 1).push(s@[i - 1]));
        assert(l@.subrange(0, i as int) =~= l@.subrange(0, i - 1).push(l@[i - 1]));
    }
    assert(s@ =~= s@.subrange(0, i as int));
    assert(l@ =~= l@.subrange(0, i as int));
    true
}

/// Whether `s` begins with the text of `lit`.
fn begins_with(s: &[char], lit: &str) -> (b: bool)
    ensures
        b == starts_with(s@, lit@),
{
    let l: Vec<char> = chars_of(lit);
    if s.len() < l.len() {
        return false;
    }
    let mut i: usize = 0;
    while i < l.len()
        invariant
            i <= l.len() <= s.len(),
            l@ == lit@,
            s@.subrange(0, i as int) == l@.subrange(0, i as int),
        decreases l.len() - i,
    {
        if s[i] != l[i] {
            assert(s@.subrange(0, l.len() as int)[i as int] != l@[i as int]);
            return false;
        }
        i = i + 1;
        assert(s@.subrange(0, i as int) =~= s@.subrange(0, i - 1).push(s@[i - 1]));
        assert(l@.subrange(0, i as int) =~= l@.subrange(0, i - 1).push(l@[i - 1]));
    }
    assert(l@ =~= l@.subrange(0, i as int));
    true
}

/// Reads the value argument of `setreg`.
pub fn parse_register_value(arg: &[char]) -> (r: Option<u64>)
    ensures
        match register_value(arg@) {
            Some(v) => r == Some(v as u64),
            None => r is None,
        },
{
    if arg.len() >= 2 && arg[0] == '0' && arg[1] == 'x' {
        assert(arg@.subrange(0, 2) =~= seq!['0', 'x']);
        let rest: Vec<char> = copy_range(arg, 2, arg.len());
        parse_u64(rest.as_slice(), 16)
    } else {
        assert(!starts_with(arg@, seq!['0', 'x'])) by {
            if starts_with(arg@, seq!['0', 'x']) {
                assert(arg@.subrange(0, 2)[0] == '0');
                assert(arg@.subrange(0, 2)[1] == 'x');
            }
        }
        parse_u64(arg, 10)
    }
}

fn parse_break(arg: &[char]) -> (c: ReplCommand)
    ensures
        c == break_command(arg@),
{
    match parse_usize(arg) {
        Some(line) => ReplCommand::BreakLine(line),
        None => match parse_u64(arg, 10) {
            Some(pc) => ReplCommand::BreakPc(pc),
            None => ReplCommand::BreakInvalid,
        },
    }
}

fn parse_setreg(index: Option<Vec<char>>, value: Option<Vec<char>>) -> (c: ReplCommand)
    ensures
        c == setreg_command(
            match index {
                Some(v) => Some(v@),
                None => None,
            },
            match value {
                Some(v) => Some(v@),
                None => None,
            },
        ),
{
    match (index, value) {
        (Some(i), Some(v)) => match parse_usize(i.as_slice()) {
            Some(idx) => match parse_register_value(v.as_slice()) {
                Some(val) => ReplCommand::SetReg(idx, val),
                None => ReplCommand::SetRegInvalidValue,
            },
            None => ReplCommand::SetRegInvalidIndex,
        },
        _ => ReplCommand::SetRegUsage,
    }
}

/// Reads one line of input as a command.
#[verifier::rlimit(50)]
pub fn parse_command(line: &str) -> (cmd: ReplCommand)
    ensures
        cmd == command_of(line@),
{
    let chars: Vec<char> = chars_of(line);
    let tv: Vec<char> = trim(chars.as_slice());
    let t: &[char] = tv.as_slice();
    if is_text(t, "step") || is_text(t, "s") {
        ReplCommand::Step
    } else if is_text(t, "continue") || is_text(t, "c") {
        ReplCommand::Continue
    } else if begins_with(t, "break ") {
        match nth_word(t, 1) {
            Some(arg) => parse_break(arg.as_slice()),
            None => ReplCommand::Unknown,
        }
    } else if begins_with(t, "delete ") {
        match nth_word(t, 1) {
            Some(arg) => match parse_usize(arg.as_slice()) {
                Some(l) => ReplCommand::DeleteLine(l),
                None => ReplCommand::DeleteInvalid,
            },
            None => ReplCommand::Unknown,
        }
    } else if is_text(t, "info breakpoints") || is_text(t, "info b") {
        ReplCommand::InfoBreakpoints
    } else if is_text(t, "info line") {
        ReplCommand::InfoLine
    } else if is_text(t, "quit") {
        ReplCommand::Quit
    } else if is_text(t, "help") {
        ReplCommand::Help
    } else if is_text(t, "regs") {
        ReplCommand::Regs
    } else if begins_with(t, "reg ") {
        match nth_word(t, 1) {
            Some(arg) => match parse_usize(arg.as_slice()) {
                Some(idx) => ReplCommand::Reg(idx),
                None => ReplCommand::RegInvalid,
            },
            None => ReplCommand::Unknown,
        }
    } else if begins_with(t, "setreg ") {
        let index: Option<Vec<char>> = nth_word(t, 1);
        let value: Option<Vec<char>> = nth_word(t, 2);
        parse_setreg(index, value)
    } else if is_text(t, "rodata") {
        ReplCommand::Rodata
    } else if is_text(t, "lines") {
        ReplCommand::Lines
    } else if is_text(t, "stack") || is_text(t, "bt") {
        ReplCommand::Stack
    } else if is_text(t, "compute") {
        ReplCommand::Compute
    } else {
        ReplCommand::Unknown
    }
}

proof fn lemma_skip_spaces(s: Seq<char>, from: int)
    requires
        0 <= from <= s.len(),
    ensures
        from <= skip_spaces(s, from) <= s.len(),
        skip_spaces(s, from) < s.len() ==> !is_space(s[skip_spaces(s, from)]),
        forall|k: int| from <= k < skip_spaces(s, from) ==> is_space(s[k]),
    decreases s.len() - from,
{
    if from < s.len() && is_space(s[from]) {
        lemma_skip_spaces(s, from + 1);
    }
}

proof fn lemma_skip_word(s: Seq<char>, from: int)
    requires
        0 <= from <= s.len(),
    ensures
        from <= skip_word(s, from) <= s.len(),
        skip_word(s, from) < s.len() ==> is_space(s[skip_word(s, from)]),
        forall|k: int| from <= k < skip_word(s, from) ==> !is_space(s[k]),
    decreases s.len() - from,
{
    if from < s.len() && !is_space(s[from]) {
        lemma_skip_word(s, from + 1);
    }
}

proof fn lemma_skip_spaces_back(s: Seq<char>, upto: int)
    requires
        0 <= upto <= s.len(),
    ensures
        0 <= skip_spaces_back(s, upto) <= upto,
        skip_spaces_back(s, upto) > 0 ==> !is_space(s[skip_spaces_back(s, upto) - 1]),
    decreases upto,
{
    if 0 < upto && is_space(s[upto - 1]) {
        lemma_skip_spaces_back(s, upto - 1);
    }
}

/// A trimmed line is empty or begins and ends with a character that is no
/// white space.
pub proof fn lemma_trimmed_ends(s: Seq<char>)
    ensures
        trimmed(s).len() > 0 ==> !is_space(trimmed(s)[0]) && !is_space(trimmed(s).last()),
{
    lemma_skip_spaces(s, 0);
    lemma_skip_spaces_back(s, s.len() as int);
}

/// A text that begins with a word of `n` characters and a white space, and
/// that does not end with white space, has a second word.
pub proof fn lemma_second_word(t: Seq<char>, n: int)
    requires
        0 < n < t.len(),
        forall|i: int| 0 <= i < n ==> !is_space(t[i]),
        is_space(t[n]),
        !is_space(t.last()),
    ensures
        word(t, 1) is Some,
{
    lemma_skip_spaces(t, 0);
    assert(skip_spaces(t, 0) == 0);
    lemma_skip_word(t, 0);
    let end = skip_word(t, 0);
    assert(end == n) by {
        if end < n {
            assert(is_space(t[end]));
        }
        if end > n {
            assert(!is_space(t[n]));
        }
    }
    lemma_skip_spaces(t, n);
    let start = skip_spaces(t, n);
    if start == t.len() {
        assert(is_space(t[t.len() - 1]));
    }
    reveal_with_fuel(word_start, 2);
    assert(word_start(t, 1) == start);
}

/// The commands that take arguments always have a first argument in a
/// trimmed line: what follows `break `, `delete `, `reg ` and `setreg ` is
/// never empty.
#[verifier::rlimit(50)]
pub proof fn lemma_commands_have_an_argument(line: Seq<char>)
    ensures
        starts_with(trimmed(line), "break "@) ==> word(trimmed(line), 1) is Some,
        starts_with(trimmed(line), "delete "@) ==> word(trimmed(line), 1) is Some,
        starts_with(trimmed(line), "reg "@) ==> word(trimmed(line), 1) is Some,
        starts_with(trimmed(line), "setreg "@) ==> word(trimmed(line), 1) is Some,
{
    let t = trimmed(line);
    lemma_trimmed_ends(line);
    reveal_strlit("break ");
    reveal_strlit("delete ");
    reveal_strlit("reg ");
    reveal_strlit("setreg ");
    if starts_with(t, "break "@) {
        let p = "break "@;
        assert forall|i: int| 0 <= i < 6 implies t[i] == p[i] by {
            assert(t.subrange(0, 6)[i] == t[i]);
        }
        lemma_second_word(t, 5);
    }
    if starts_with(t, "delete "@) {
        let p = "delete "@;
        assert forall|i: int| 0 <= i < 7 implies t[i] == p[i] by {
            assert(t.subrange(0, 7)[i] == t[i]);
        }
        lemma_second_word(t, 6);
    }
    if starts_with(t, "reg "@) {
        let p = "reg "@;
        assert forall|i: int| 0 <= i < 4 implies t[i] == p[i] by {
            assert(t.subrange(0, 4)[i] == t[i]);
        }
        lemma_second_word(t, 3);
    }
    if starts_with(t, "setreg "@) {
        let p = "setreg "@;
        assert forall|i: int| 0 <= i < 7 implies t[i] == p[i] by {
            assert(t.subrange(0, 7)[i] == t[i]);
        }
        lemma_second_word(t, 6);
    }
}

} // verus!
