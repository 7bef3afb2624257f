//! Reading the program input from the command line.
//!
//! The input is a list of bytes in decimal, separated by commas.

use crate::repl::{trim, trimmed};
use crate::text::{chars_of, parse_u64, parse_unsigned, string_of};
use vstd::prelude::*;

verus! {

/// The position of the last comma of `s`, or -1 if `s` has none.
pub open spec fn last_comma(s: Seq<char>) -> int
    decreases s.len(),
{
    if s.len() == 0 {
        -1
    } else if s.last() == ',' {
        s.len() - 1
    } else {
        last_comma(s.drop_last())
    }
}

/// The bytes that the parts of `s` between its commas denote, in order:
/// every part is trimmed, an empty part denotes nothing, any other part is
/// a decimal number of at most 255. The first part that is no such number
/// is the error.
pub open spec fn listed_bytes(s: Seq<char>) -> Result<Seq<u8>, Seq<char>>
    decreases s.len(),
{
    let comma = last_comma(s);
    let part = trimmed(s.subrange(comma + 1, s.len() as int));
    let before = if 0 <= comma < s.len() {
        listed_bytes(s.subrange(0, comma))
    } else {
        Ok(Seq::empty())
    };
    match before {
        Err(e) => Err(e),
        Ok(bytes) => if part.len() == 0 {
            Ok(bytes)
        } else {
            match parse_unsigned(part, 10, 255) {
                Some(v) => Ok(bytes.push(v as u8)),
                None => Err(part),
            }
        },
    }
}

/// The program input that the text of the command line denotes: nothing
/// for an empty text, for white space and for `0`; the listed bytes
/// otherwise.
pub open spec fn input_bytes(input: Seq<char>) -> Result<Seq<u8>, Seq<char>> {
    if trimmed(input).len() == 0 || trimmed(input) == seq!['0'] {
        Ok(Seq::empty())
    } else {
        listed_bytes(input)
    }
}

proof fn lemma_last_comma(s: Seq<char>)
    ensures
        -1 <= last_comma(s) < s.len(),
        last_comma(s) >= 0 ==> s[last_comma(s)] == ',',
        forall|k: int| last_comma(s) < k < s.len() ==> s[k] != ',',
    decreases s.len(),
{
    if s.len() > 0 && s.last() != ',' {
        lemma_last_comma(s.drop_last());
        assert forall|k: int| last_comma(s) < k < s.len() implies s[k] != ',' by {
            if k < s.len() - 1 {
                assert(s.drop_last()[k] == s[k]);
            }
        }
        if last_comma(s) >= 0 {
            assert(s.drop_last()[last_comma(s)] == s[last_comma(s)]);
        }
    }
}

proof fn lemma_last_comma_is(s: Seq<char>, c: int)
    requires
        -1 <= c < s.len(),
        c >= 0 ==> s[c] == ',',
        forall|k: int| c < k < s.len() ==> s[k] != ',',
    ensures
        last_comma(s) == c,
{
    lemma_last_comma(s);
}

/// Reads the program input from the text of the command line. The error
/// is the part of the text that is no byte.
#[verifier::rlimit(50)]
pub fn parse_input_bytes(input: &str) -> (r: Result<Vec<u8>, String>)
    ensures
        match r {
            Ok(bytes) => input_bytes(input@) == Ok::<Seq<u8>, Seq<char>>(bytes@),
            Err(part) => input_bytes(input@) == Err::<Seq<u8>, Seq<char>>(part@),
        },
{
    let s: Vec<char> = chars_of(input);
    let whole: Vec<char> = trim(s.as_slice());
    if whole.len() == 0 || (whole.len() == 1 && whole[0] == '0') {
        proof {
            if whole.len() == 1 {
                assert(whole@ =~= seq!['0']);
            }
        }
        return Ok(Vec::new());
    }
    proof {
        if trimmed(s@) == seq!['0'] {
            assert(whole@[0] == '0');
        }
    }
    let mut bytes: Vec<u8> = Vec::new();
    let mut start: usize = 0;
    loop
        invariant
            s@ == input@,
            !(trimmed(s@).len() == 0 || trimmed(s@) == seq!['0']),
            start <= s.len(),
            start > 0 ==> s@[start - 1] == ',',
            start == 0 ==> bytes@ == Seq::<u8>::empty(),
            start > 0 ==> listed_bytes(s@.subrange(0, start - 1)) == Ok::<Seq<u8>, Seq<char>>(
                bytes@,
            ),
        decreases s.len() - start,
    {
        let mut end: usize = start;
        while end < s.len() && s[end] != ','
            invariant
                start <= end <= s.len(),
                forall|k: int| start <= k < end ==> s@[k] != ',',
            decreases s.len() - end,
        {
            end = end + 1;
        }
        let ghost prefix = s@.subrange(0, end as int);
        proof {
            lemma_last_comma_is(prefix, start - 1);
            assert(prefix.subrange(start as int, end as int) =~= s@.subrange(
                start as int,
                end as int,
            ));
            if start > 0 {
                assert(prefix.subrange(0, start - 1) =~= s@.subrange(0, start - 1));
            }
        }
        let mut raw: Vec<char> = Vec::new();
        let mut k: usize = start;
        while k < end
            invariant
                start <= k <= end <= s.len(),
                raw@ == s@.subrange(start as int, k as int),
            decreases end - k,
        {
            raw.push(s[k]);
            k = k + 1;
            assert(raw@ =~= s@.subrange(start as int, k as int));
        }
        let part: Vec<char> = trim(raw.as_slice());
        if part.len() > 0 {
            match parse_u64(part.as_slice(), 10) {
                Some(v) => {
                    if v <= 255 {
                        bytes.push(v as u8);
                    } else {
                        proof {
                            if end == s.len() {
                                assert(prefix =~= s@);
                            }
                        }
                        if end < s.len() {
                            proof {
                                lemma_error_stays(s@, end as int, part@);
                            }
                        }
                        return Err(string_of(part.as_slice()));
                    }
                },
                None => {
                    proof {
                        if end == s.len() {
                            assert(prefix =~= s@);
                        }
                    }
                    if end < s.len() {
                        proof {
                            lemma_error_stays(s@, end as int, part@);
                        }
                    }
                    return Err(string_of(part.as_slice()));
                },
            }
        }
        if end == s.len() {
            assert(prefix =~= s@);
            return Ok(bytes);
        }
        start = end + 1;
    }
}

/// An error in the parts before a comma is the error of the whole list.
proof fn lemma_error_stays(s: Seq<char>, comma: int, part: Seq<char>)
    requires
        0 <= comma < s.len(),
        s[comma] == ',',
        listed_bytes(s.subrange(0, comma)) == Err::<Seq<u8>, Seq<char>>(part),
    ensures
        listed_bytes(s) == Err::<Seq<u8>, Seq<char>>(part),
    decreases s.len(),
{
    lemma_last_comma(s);
    let last = last_comma(s);
    if last != comma {
        let shorter = s.subrange(0, last);
        assert(shorter.subrange(0, comma) =~= s.subrange(0, comma));
        lemma_error_stays(shorter, comma, part);
    }
}

} // verus!
