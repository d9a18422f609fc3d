//! The opcode table: a fixed mapping from mnemonic text to a one-byte opcode
//! identifier and the class of operand the mnemonic requires.

use vstd::prelude::*;

verus! {

/// The class of extra data an opcode requires in the source line.
#[derive(Clone, Copy, PartialEq, Eq, Structural, Debug)]
pub enum OperandClass {
    /// The opcode byte stands alone.
    NoOperand,
    /// The opcode byte is followed by an `ADDR_WIDTH`-byte label address.
    LabelRef,
    /// The opcode byte is followed by the literal's bytes and one NUL byte.
    StringLit,
}

pub const OP_ADR: u8 = 1;

pub const OP_TST: u8 = 2;

pub const OP_BF: u8 = 3;

pub const OP_ID: u8 = 4;

pub const OP_BE: u8 = 5;

pub const OP_CL: u8 = 6;

pub const OP_CI: u8 = 7;

pub const OP_OUT: u8 = 8;

pub const OP_CLL: u8 = 9;

pub const OP_BT: u8 = 10;

pub const OP_SET: u8 = 11;

pub const OP_R: u8 = 12;

pub const OP_END: u8 = 13;

pub const OP_STR: u8 = 14;

pub const OP_NUM: u8 = 15;

pub const OP_LB: u8 = 16;

pub const OP_GN1: u8 = 17;

pub const OP_GN2: u8 = 18;

pub const OP_B: u8 = 19;

/// Width in bytes of an encoded label address, fixed by the output format and
/// declared in the header so that a consumer can decode addresses.
pub const ADDR_WIDTH: usize = 8;

/// The opcode table as a mathematical function: the opcode identifier and
/// operand class of a mnemonic, or `None` for text that is no mnemonic.
pub open spec fn spec_lookup(m: Seq<u8>) -> Option<(u8, OperandClass)> {
    if m == seq![65u8, 68, 82] {
        Some((OP_ADR, OperandClass::LabelRef))
    } else if m == seq![84u8, 83, 84] {
        Some((OP_TST, OperandClass::StringLit))
    } else if m == seq![66u8, 70] {
        Some((OP_BF, OperandClass::LabelRef))
    } else if m == seq![73u8, 68] {
        Some((OP_ID, OperandClass::NoOperand))
    } else if m == seq![66u8, 69] {
        Some((OP_BE, OperandClass::NoOperand))
    } else if m == seq![67u8, 76] {
        Some((OP_CL, OperandClass::StringLit))
    } else if m == seq![67u8, 73] {
        Some((OP_CI, OperandClass::NoOperand))
    } else if m == seq![79u8, 85, 84] {
        Some((OP_OUT, OperandClass::NoOperand))
    } else if m == seq![67u8, 76, 76] {
        Some((OP_CLL, OperandClass::LabelRef))
    } else if m == seq![66u8, 84] {
        Some((OP_BT, OperandClass::LabelRef))
    } else if m == seq![83u8, 69, 84] {
        Some((OP_SET, OperandClass::NoOperand))
    } else if m == seq![82u8] {
        Some((OP_R, OperandClass::NoOperand))
    } else if m == seq![69u8, 78, 68] {
        Some((OP_END, OperandClass::NoOperand))
    } else if m == seq![83u8, 84, 82] {
        Some((OP_STR, OperandClass::NoOperand))
    } else if m == seq![78u8, 85, 77] {
        Some((OP_NUM, OperandClass::NoOperand))
    } else if m == seq![76u8, 66] {
        Some((OP_LB, OperandClass::NoOperand))
    } else if m == seq![71u8, 78, 49] {
        Some((OP_GN1, OperandClass::NoOperand))
    } else if m == seq![71u8, 78, 50] {
        Some((OP_GN2, OperandClass::NoOperand))
    } else if m == seq![66u8] {
        Some((OP_B, OperandClass::LabelRef))
    } else {
        None
    }
}

/// True iff `t` is the one-byte sequence `[a]`.
pub(crate) fn eq1(t: &[u8], a: u8) -> (r: bool)
    ensures
        r == (t@ == seq![a]),
{
    let r = t.len() == 1 && t[0] == a;
    proof {
        if r {
            assert(t@ =~= seq![a]);
        }
    }
    r
}

/// True iff `t` is the two-byte sequence `[a, b]`.
pub(crate) fn eq2(t: &[u8], a: u8, b: u8) -> (r: bool)
    ensures
        r == (t@ == seq![a, b]),
{
    let r = t.len() == 2 && t[0] == a && t[1] == b;
    proof {
        if r {
            assert(t@ =~= seq![a, b]);
        }
    }
    r
}

/// True iff `t` is the three-byte sequence `[a, b, c]`.
pub(crate) fn eq3(t: &[u8], a: u8, b: u8, c: u8) -> (r: bool)
    ensures
        r == (t@ == seq![a, b, c]),
{
    let r = t.len() == 3 && t[0] == a && t[1] == b && t[2] == c;
    proof {
        if r {
            assert(t@ =~= seq![a, b, c]);
        }
    }
    r
}

} // verus!
