//! The assembler as a mathematical function: what one encode step does to the
//! assembler state, what the whole encode pass yields, and how the fixup pass
//! patches the code buffer.  The executable `Parser` is proved to follow this
//! model exactly.

use vstd::prelude::*;

use crate::errors::SpecErr;
use crate::opcode::{spec_lookup, OperandClass, ADDR_WIDTH};
use crate::scan::{scan_open, spec_lines, spec_trim, tok2_of, tok_of};

verus! {

/// The state of one assembly run during the encode pass: the code buffer, the
/// label definitions recorded so far (name and byte offset, in definition
/// order, names unique), and the queue of fixups (referenced name and the
/// buffer offset of its placeholder, in reference order).
pub struct SpecState {
    pub code: Seq<u8>,
    pub labels: Seq<(Seq<u8>, int)>,
    pub fixups: Seq<(Seq<u8>, int)>,
}

/// The state a run starts from: everything empty.
pub open spec fn init_state() -> SpecState {
    SpecState { code: Seq::empty(), labels: Seq::empty(), fixups: Seq::empty() }
}

/// The offset recorded for `name`: the first entry of `labels` with that
/// name, or `None`.  Definitions keep names unique, so the first entry is the
/// only one.
pub open spec fn assoc_get(labels: Seq<(Seq<u8>, int)>, name: Seq<u8>) -> Option<int>
    decreases labels.len(),
{
    if labels.len() == 0 {
        None
    } else if labels[0].0 == name {
        Some(labels[0].1)
    } else {
        assoc_get(labels.skip(1), name)
    }
}

/// `n` zero bytes.
pub open spec fn zeros(n: int) -> Seq<u8> {
    Seq::new(n as nat, |i: int| 0u8)
}

/// Byte `k` of the little-endian encoding of the offset `v`.
pub open spec fn le_byte(v: int, k: int) -> u8 {
    (((v as u64) >> ((8 * k) as u64)) & 0xff) as u8
}

/// The `ADDR_WIDTH`-byte little-endian encoding of the offset `v`.
pub open spec fn le_seq(v: int) -> Seq<u8> {
    Seq::new(ADDR_WIDTH as nat, |k: int| le_byte(v, k))
}

/// `code` with the `ADDR_WIDTH` bytes at `addr` overwritten by the
/// little-endian encoding of `v`.  The length never changes.
pub open spec fn write_le(code: Seq<u8>, addr: int, v: int) -> Seq<u8> {
    Seq::new(code.len(), |j: int| if addr <= j < addr + ADDR_WIDTH { le_byte(v, j - addr) } else { code[j] })
}

/// Encoding a no-operand instruction: the opcode byte alone is appended.
pub open spec fn spec_no_operand(st: SpecState, op: u8) -> SpecState {
    SpecState { code: st.code.push(op), labels: st.labels, fixups: st.fixups }
}

/// Encoding a label-reference instruction: the opcode byte, then an
/// `ADDR_WIDTH`-byte zero placeholder; a fixup records the placeholder's
/// offset, which starts right after the opcode byte.
pub open spec fn spec_label_ref(st: SpecState, op: u8, name: Seq<u8>) -> SpecState {
    SpecState {
        code: st.code.push(op) + zeros(ADDR_WIDTH as int),
        labels: st.labels,
        fixups: st.fixups.push((name, st.code.len() as int + 1)),
    }
}

/// Encoding a string-literal instruction: the opcode byte, the literal's
/// bytes, and one NUL terminator byte.
pub open spec fn spec_string_lit(st: SpecState, op: u8, content: Seq<u8>) -> SpecState {
    SpecState {
        code: st.code.push(op) + content + seq![0u8],
        labels: st.labels,
        fixups: st.fixups,
    }
}

/// Processing a label-definition line: the trimmed text is the name; it must
/// be non-empty and not yet defined, and records the current buffer length.
pub open spec fn spec_label_step(st: SpecState, line: Seq<u8>, idx: int) -> Result<
    SpecState,
    SpecErr,
> {
    let name = spec_trim(line);
    if name.len() == 0 {
        Err(SpecErr::EmptyLine(idx))
    } else if assoc_get(st.labels, name) is Some {
        Err(SpecErr::DuplicateLabel(name))
    } else {
        Ok(
            SpecState {
                code: st.code,
                labels: st.labels.push((name, st.code.len() as int)),
                fixups: st.fixups,
            },
        )
    }
}

/// Processing an instruction line: the first token is the mnemonic, looked up
/// in the opcode table; the operand, if the mnemonic takes one, is the second
/// token (label reference) or the first quote-delimited literal (string).
pub open spec fn spec_instr_step(st: SpecState, line: Seq<u8>, idx: int) -> Result<
    SpecState,
    SpecErr,
> {
    let mnemonic = tok_of(line);
    if mnemonic.len() == 0 {
        Err(SpecErr::EmptyLine(idx))
    } else {
        match spec_lookup(mnemonic) {
            None => Err(SpecErr::UnknownOpcode(mnemonic)),
            Some(oc) => match oc.1 {
                OperandClass::NoOperand => Ok(spec_no_operand(st, oc.0)),
                OperandClass::LabelRef => {
                    if tok2_of(line).len() == 0 {
                        Err(SpecErr::MissingOperand(mnemonic, idx))
                    } else {
                        Ok(spec_label_ref(st, oc.0, tok2_of(line)))
                    }
                },
                OperandClass::StringLit => match scan_open(line) {
                    None => Err(SpecErr::UnterminatedStringLiteral(idx)),
                    Some(content) => Ok(spec_string_lit(st, oc.0, content)),
                },
            },
        }
    }
}

/// Processing one source line: an empty line is an error, a line starting
/// with a tab is an instruction, anything else defines a label.
pub open spec fn spec_line_step(st: SpecState, line: Seq<u8>, idx: int) -> Result<
    SpecState,
    SpecErr,
> {
    if line.len() == 0 {
        Err(SpecErr::EmptyLine(idx))
    } else if line[0] == 9 {
        spec_instr_step(st, line, idx)
    } else {
        spec_label_step(st, line, idx)
    }
}

/// The encode pass from line `i` on, starting in state `st`.
pub open spec fn spec_encode(lines: Seq<Seq<u8>>, i: int, st: SpecState) -> Result<
    SpecState,
    SpecErr,
>
    decreases lines.len() - i,
{
    if i >= lines.len() {
        Ok(st)
    } else {
        match spec_line_step(st, lines[i], i) {
            Err(e) => Err(e),
            Ok(st2) => spec_encode(lines, i + 1, st2),
        }
    }
}

/// The fixup pass from fixup `i` on: each fixup looks its name up and
/// overwrites the placeholder bytes with the label's offset; a name with no
/// definition fails the run.
pub open spec fn spec_resolve(
    code: Seq<u8>,
    labels: Seq<(Seq<u8>, int)>,
    fixups: Seq<(Seq<u8>, int)>,
    i: int,
) -> Result<Seq<u8>, SpecErr>
    decreases fixups.len() - i,
{
    if i >= fixups.len() {
        Ok(code)
    } else {
        match assoc_get(labels, fixups[i].0) {
            None => Err(SpecErr::UndefinedLabel(fixups[i].0)),
            Some(off) => spec_resolve(write_le(code, fixups[i].1, off), labels, fixups, i + 1),
        }
    }
}

/// The fixed eight-byte preamble: a six-byte magic constant, the format
/// version byte (zero), and a descriptor byte holding the byte order flag
/// (zero: little-endian) and the address width in bytes.
pub open spec fn spec_header() -> Seq<u8> {
    seq![46u8, 109u8, 101u8, 116u8, 97u8, 0u8, 0u8, ADDR_WIDTH as u8]
}

/// A whole run over already-split lines: encode, then resolve.  The labels
/// and fixups of the result are exactly those the encode pass recorded.
pub open spec fn spec_pipeline(src: Seq<u8>) -> Result<SpecState, SpecErr> {
    match spec_encode(spec_lines(src), 0, init_state()) {
        Err(e) => Err(e),
        Ok(st) => match spec_resolve(st.code, st.labels, st.fixups, 0) {
            Err(e) => Err(e),
            Ok(code) => Ok(SpecState { code, labels: st.labels, fixups: st.fixups }),
        },
    }
}

/// The complete output of a run: the header followed by the resolved code
/// section, or the first error.
pub open spec fn spec_assemble(src: Seq<u8>) -> Result<Seq<u8>, SpecErr> {
    match spec_pipeline(src) {
        Err(e) => Err(e),
        Ok(st) => Ok(spec_header() + st.code),
    }
}

} // verus!
