//! A two-pass assembler for a small line-oriented assembly dialect.
//!
//! Source text is a sequence of lines: a line starting with a tab character is
//! an instruction (mnemonic plus optional operand), any other non-empty line
//! defines a label.  The first pass encodes instructions into a byte buffer,
//! recording label definitions and leaving fixed-width zero placeholders for
//! label references; the second pass overwrites each placeholder with the
//! little-endian byte offset of the referenced label.  The final output is an
//! eight-byte header followed by the code section.
//!
//! The address width is fixed by the format at eight bytes, declared in the
//! header, so the output does not depend on the machine that assembled it.
//! Any malformed input — an empty line, an unknown mnemonic, a missing
//! operand, an unterminated string literal, a redefined label, a reference
//! to a label never defined — fails the whole run, and a failed run
//! produces no output bytes at all.

pub mod errors;
pub mod model;
pub mod opcode;
pub mod parser;
pub mod props;
pub mod scan;
