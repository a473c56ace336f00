//! The error taxonomy of the codec: every decode failure is reported as a
//! kind together with a human-readable detail naming the offending value.
//! The exact text of each detail is pinned down here as a spec-level
//! character sequence, so that contracts can speak about messages too.

use vstd::prelude::*;
use vstd::string::StringExecFns;

verus! {

/// What went wrong while decoding a message.
#[derive(Debug, Clone, Copy, PartialEq, Eq, Structural)]
pub enum DnsMsgError {
    /// A numeric field fell outside its defined enumeration, a record's
    /// data length did not match its type, or a label held malformed text.
    InvalidData,
    /// A compression pointer chain revisited an offset while resolving a
    /// single name.
    CyclicLabelRef,
    /// A read would have run past the end of the buffer.
    OutOfBounds,
}

/// A decode failure: its kind and a detail message.
#[derive(Debug, PartialEq, Eq)]
pub struct Error {
    pub kind: DnsMsgError,
    pub msg: String,
}

impl Error {
    pub fn new(kind: DnsMsgError, msg: String) -> (e: Error)
        ensures
            e.kind == kind,
            e.msg == msg,
    {
        Error { kind, msg }
    }
}

/// The mathematical image of an [`Error`]: its kind and the characters of
/// its detail message.
#[verifier::ext_equal]
pub struct ErrV {
    pub kind: DnsMsgError,
    pub msg: Seq<char>,
}

impl View for Error {
    type V = ErrV;

    open spec fn view(&self) -> ErrV {
        ErrV { kind: self.kind, msg: self.msg@ }
    }
}

/// The character a decimal digit prints as.
pub open spec fn digit_char(d: nat) -> char {
    if d == 0 {
        '0'
    } else if d == 1 {
        '1'
    } else if d == 2 {
        '2'
    } else if d == 3 {
        '3'
    } else if d == 4 {
        '4'
    } else if d == 5 {
        '5'
    } else if d == 6 {
        '6'
    } else if d == 7 {
        '7'
    } else if d == 8 {
        '8'
    } else {
        '9'
    }
}

/// The decimal rendering of a number, most significant digit first.
pub open spec fn spec_dec_digits(n: nat) -> Seq<char>
    decreases n,
{
    if n < 10 {
        seq![digit_char(n)]
    } else {
        spec_dec_digits(n / 10).push(digit_char(n % 10))
    }
}

/// Render a number in decimal.
pub fn dec_string(n: u64) -> (s: String)
    ensures
        s@ == spec_dec_digits(n as nat),
    decreases n,
{
    let d = n % 10;
    let c: &str = if d == 0 {
        "0"
    } else if d == 1 {
        "1"
    } else if d == 2 {
        "2"
    } else if d == 3 {
        "3"
    } else if d == 4 {
        "4"
    } else if d == 5 {
        "5"
    } else if d == 6 {
        "6"
    } else if d == 7 {
        "7"
    } else if d == 8 {
        "8"
    } else {
        "9"
    };
    proof {
        reveal_strlit("0");
        reveal_strlit("1");
        reveal_strlit("2");
        reveal_strlit("3");
        reveal_strlit("4");
        reveal_strlit("5");
        reveal_strlit("6");
        reveal_strlit("7");
        reveal_strlit("8");
        reveal_strlit("9");
        assert(c@ =~= seq![digit_char((n % 10) as nat)]);
    }
    if n < 10 {
        let s = String::from_str(c);
        proof {
            assert(s@ =~= spec_dec_digits(n as nat));
        }
        s
    } else {
        let mut s = dec_string(n / 10);
        s.append(c);
        proof {
            assert(s@ =~= spec_dec_digits(n as nat));
        }
        s
    }
}

/// Build a detail message: a prefix, the offending value in decimal, and a
/// suffix.
pub fn detail_msg(prefix: &str, v: u64, suffix: &str) -> (s: String)
    ensures
        s@ == prefix@ + spec_dec_digits(v as nat) + suffix@,
{
    let mut s = String::from_str(prefix);
    let d = dec_string(v);
    s.append(d.as_str());
    s.append(suffix);
    proof {
        assert(s@ =~= prefix@ + spec_dec_digits(v as nat) + suffix@);
    }
    s
}

/// The detail of a read past the end of the buffer.
pub open spec fn msg_oob(i: int) -> Seq<char> {
    "Out of bounds read at index "@ + spec_dec_digits(i as nat)
}

/// The detail of a pointer chain that bit its own tail.
pub open spec fn msg_cyclic(i: int) -> Seq<char> {
    "Encountered cyclic label reference at index "@ + spec_dec_digits(i as nat)
}

/// The detail of a label whose bytes are not well-formed text.
pub open spec fn msg_bad_label(i: int) -> Seq<char> {
    "Invalid label text at index "@ + spec_dec_digits(i as nat)
}

/// The detail of an opcode outside its enumeration.
pub open spec fn msg_unknown_opcode(v: u8) -> Seq<char> {
    "Unknown opcode "@ + spec_dec_digits(v as nat)
}

/// The detail of a response code outside its enumeration.
pub open spec fn msg_unknown_rcode(v: u8) -> Seq<char> {
    "Unknown rcode value "@ + spec_dec_digits(v as nat)
}

/// The detail of a question type outside its enumeration.
pub open spec fn msg_invalid_qtype(v: u16) -> Seq<char> {
    "Invalid qtype: "@ + spec_dec_digits(v as nat)
}

/// The detail of a question class outside its enumeration.
pub open spec fn msg_invalid_qclass(v: u16) -> Seq<char> {
    "Invalid qclass: "@ + spec_dec_digits(v as nat)
}

/// The detail of a record type outside its enumeration.
pub open spec fn msg_invalid_type(v: u16) -> Seq<char> {
    "Invalid type: "@ + spec_dec_digits(v as nat)
}

/// The detail of a record class outside its enumeration.
pub open spec fn msg_invalid_class(v: u16) -> Seq<char> {
    "Invalid class: "@ + spec_dec_digits(v as nat)
}

/// The detail of a record whose type the codec does not decode.
pub open spec fn msg_unsupported_type(v: u16) -> Seq<char> {
    "Record type not supported: "@ + spec_dec_digits(v as nat)
}

/// The detail of an address record whose data length is not four.
pub open spec fn msg_bad_rdata_len(v: u16) -> Seq<char> {
    "Length of "@ + spec_dec_digits(v as nat) + " is invalid for type A"@
}

} // verus!
