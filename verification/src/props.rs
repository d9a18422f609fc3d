//! Laws of the assembler, stated and proved over the model in `model`.
//!
//! The executable `assemble` is proved equal to `spec_assemble`, so each law
//! below holds of the bytes the assembler actually produces.

use vstd::prelude::*;

use crate::errors::SpecErr;
use crate::model::{
    assoc_get, init_state, le_byte, le_seq, spec_assemble, spec_encode, spec_instr_step,
    spec_label_ref, spec_line_step, spec_no_operand, spec_pipeline, spec_resolve, spec_string_lit,
    write_le, zeros, SpecState,
};
use crate::opcode::{spec_lookup, OperandClass, ADDR_WIDTH};
use crate::scan::{scan_open, spec_lines, spec_trim, tok2_of, tok_of};

verus! {

/// A line that encodes an instruction whose mnemonic takes no operand.
pub open spec fn no_operand_line(l: Seq<u8>) -> bool {
    &&& l.len() > 0
    &&& l[0] == 9
    &&& spec_lookup(tok_of(l)) matches Some(oc) && oc.1 == OperandClass::NoOperand
}

proof fn lemma_encode_no_operand(lines: Seq<Seq<u8>>, i: int, st: SpecState)
    requires
        0 <= i <= lines.len(),
        forall|j: int| i <= j < lines.len() ==> no_operand_line(#[trigger] lines[j]),
    ensures
        spec_encode(lines, i, st) matches Ok(st2) && st2.code.len() == st.code.len() + (lines.len()
            - i) && st2.labels == st.labels && st2.fixups == st.fixups,
    decreases lines.len() - i,
{
    if i < lines.len() {
        match spec_lookup(tok_of(lines[i])) {
            Some(oc) => {
                lemma_encode_no_operand(lines, i + 1, spec_no_operand(st, oc.0));
            },
            None => {
                assert(false);
            },
        }
    }
}

/// A program of no-operand instructions alone assembles successfully, with a
/// code section of exactly one byte per instruction and nothing queued.
pub proof fn lemma_no_operand_program(src: Seq<u8>)
    requires
        forall|i: int|
            0 <= i < spec_lines(src).len() ==> no_operand_line(#[trigger] spec_lines(src)[i]),
    ensures
        spec_pipeline(src) matches Ok(st) && st.code.len() == spec_lines(src).len(),
        spec_assemble(src) matches Ok(out) && out.len() == 8 + spec_lines(src).len(),
{
    lemma_encode_no_operand(spec_lines(src), 0, init_state());
}

/// A label-reference instruction adds exactly `1 + ADDR_WIDTH` bytes: the
/// opcode byte, then a zero placeholder whose offset the queued fixup
/// records.
pub proof fn lemma_label_ref_step(st: SpecState, l: Seq<u8>, idx: int)
    requires
        l.len() > 0 && l[0] == 9,
        spec_lookup(tok_of(l)) matches Some(oc) && oc.1 == OperandClass::LabelRef,
        tok2_of(l).len() > 0,
    ensures
        spec_instr_step(st, l, idx) matches Ok(st2) && (spec_lookup(tok_of(l)) matches Some(oc2)
            && st2 == spec_label_ref(st, oc2.0, tok2_of(l)) && st2.code.len() == st.code.len() + 1
            + ADDR_WIDTH && st2.fixups == st.fixups.push((tok2_of(l), st.code.len() as int + 1))
            && st2.code[st.code.len() as int] == oc2.0 && st2.code.subrange(
            st.code.len() as int + 1,
            st2.code.len() as int,
        ) == zeros(ADDR_WIDTH as int)),
{
    match spec_lookup(tok_of(l)) {
        Some(oc) => {
            let st2 = spec_label_ref(st, oc.0, tok2_of(l));
            assert(st2.code.len() == st.code.len() + 1 + ADDR_WIDTH);
            assert(st2.code.subrange(st.code.len() as int + 1, st2.code.len() as int) =~= zeros(
                ADDR_WIDTH as int,
            ));
        },
        None => {
            assert(false);
        },
    }
}

/// A string-literal instruction `OP 'xyz'` appends exactly the opcode byte,
/// the literal's bytes, and one NUL terminator.
pub proof fn lemma_string_lit_step(st: SpecState, l: Seq<u8>, idx: int)
    requires
        l.len() > 0 && l[0] == 9,
        spec_lookup(tok_of(l)) matches Some(oc) && oc.1 == OperandClass::StringLit,
        scan_open(l) is Some,
    ensures
        spec_instr_step(st, l, idx) matches Ok(st2) && (spec_lookup(tok_of(l)) matches Some(oc2)
            && (scan_open(l) matches Some(content) && st2.code == st.code + seq![oc2.0] + content
            + seq![0u8] && st2.labels == st.labels && st2.fixups == st.fixups)),
{
    match spec_lookup(tok_of(l)) {
        Some(oc) => {
            match scan_open(l) {
                Some(content) => {
                    let st2 = spec_string_lit(st, oc.0, content);
                    assert(st2.code =~= st.code + seq![oc.0] + content + seq![0u8]);
                },
                None => {
                    assert(false);
                },
            }
        },
        None => {
            assert(false);
        },
    }
}

/// Placeholders recorded so far lie inside the code buffer, in increasing
/// order, and never overlap.
pub open spec fn fixups_ordered(st: SpecState) -> bool {
    &&& forall|i: int|
        0 <= i < st.fixups.len() ==> 0 <= (#[trigger] st.fixups[i]).1 && st.fixups[i].1
            + ADDR_WIDTH <= st.code.len()
    &&& forall|i: int, j: int|
        0 <= i < j < st.fixups.len() ==> (#[trigger] st.fixups[i]).1 + ADDR_WIDTH
            <= (#[trigger] st.fixups[j]).1
}

proof fn lemma_step_ordered(st: SpecState, l: Seq<u8>, idx: int)
    requires
        fixups_ordered(st),
        spec_line_step(st, l, idx) is Ok,
    ensures
        spec_line_step(st, l, idx) matches Ok(st3) ==> fixups_ordered(st3)
            && st.fixups.is_prefix_of(st3.fixups) && st.labels.is_prefix_of(st3.labels)
            && st.code.len() <= st3.code.len(),
{
    let st3 = spec_line_step(st, l, idx)->Ok_0;
    assert(st.fixups =~= st3.fixups.subrange(0, st.fixups.len() as int) || st.fixups
        == st3.fixups);
    if st.fixups == st3.fixups {
        assert(st.fixups =~= st3.fixups.subrange(0, st.fixups.len() as int));
    }
    assert(st.labels =~= st3.labels.subrange(0, st.labels.len() as int));
    assert forall|i: int|
        0 <= i < st3.fixups.len() implies 0 <= (#[trigger] st3.fixups[i]).1 && st3.fixups[i].1
        + ADDR_WIDTH <= st3.code.len() by {
        if i < st.fixups.len() {
            assert(0 <= st.fixups[i].1 && st.fixups[i].1 + ADDR_WIDTH <= st.code.len());
        }
    }
    assert forall|i: int, j: int|
        0 <= i < j < st3.fixups.len() implies (#[trigger] st3.fixups[i]).1 + ADDR_WIDTH
        <= (#[trigger] st3.fixups[j]).1 by {
        if j < st.fixups.len() {
            assert(st.fixups[i].1 + ADDR_WIDTH <= st.fixups[j].1);
        } else {
            assert(0 <= st.fixups[i].1 && st.fixups[i].1 + ADDR_WIDTH <= st.code.len());
        }
    }
}

proof fn lemma_encode_ordered(lines: Seq<Seq<u8>>, i: int, st: SpecState)
    requires
        0 <= i <= lines.len(),
        fixups_ordered(st),
    ensures
        spec_encode(lines, i, st) matches Ok(st2) ==> fixups_ordered(st2)
            && st.fixups.is_prefix_of(st2.fixups) && st.labels.is_prefix_of(st2.labels)
            && st.code.len() <= st2.code.len(),
    decreases lines.len() - i,
{
    if i < lines.len() {
        match spec_line_step(st, lines[i], i) {
            Ok(st3) => {
                lemma_step_ordered(st, lines[i], i);
                lemma_encode_ordered(lines, i + 1, st3);
                if spec_encode(lines, i + 1, st3) is Ok {
                    let st2 = spec_encode(lines, i + 1, st3)->Ok_0;
                    assert(st.fixups =~= st2.fixups.subrange(0, st.fixups.len() as int));
                    assert(st.labels =~= st2.labels.subrange(0, st.labels.len() as int));
                }
            },
            Err(_) => {},
        }
    }
}

/// Is the buffer position `p` inside the placeholder of one of the fixups
/// from index `i` on?
pub open spec fn in_fixup_range(fixups: Seq<(Seq<u8>, int)>, i: int, p: int) -> bool {
    exists|x: int|
        i <= x < fixups.len() && (#[trigger] fixups[x]).1 <= p < fixups[x].1 + ADDR_WIDTH
}

/// What the fixup pass does, position by position: it keeps the buffer
/// length; every placeholder ends up holding the little-endian encoding of
/// its label's recorded offset; and every byte outside the placeholders is
/// left untouched.
pub proof fn lemma_resolve_patches(
    code: Seq<u8>,
    labels: Seq<(Seq<u8>, int)>,
    fixups: Seq<(Seq<u8>, int)>,
    i: int,
    out: Seq<u8>,
)
    requires
        0 <= i <= fixups.len(),
        forall|x: int|
            i <= x < fixups.len() ==> 0 <= (#[trigger] fixups[x]).1 && fixups[x].1 + ADDR_WIDTH
                <= code.len(),
        forall|x: int, y: int|
            i <= x < y < fixups.len() ==> (#[trigger] fixups[x]).1 + ADDR_WIDTH
                <= (#[trigger] fixups[y]).1,
        spec_resolve(code, labels, fixups, i) == Ok::<Seq<u8>, SpecErr>(out),
    ensures
        out.len() == code.len(),
        forall|x: int|
            i <= x < fixups.len() ==> (assoc_get(labels, (#[trigger] fixups[x]).0) matches Some(v)
                && out.subrange(fixups[x].1, fixups[x].1 + ADDR_WIDTH) == le_seq(v)),
        forall|p: int|
            0 <= p < code.len() && !in_fixup_range(fixups, i, p) ==> #[trigger] out[p] == code[p],
    decreases fixups.len() - i,
{
    if i >= fixups.len() {
    } else {
        let name = fixups[i].0;
        let addr = fixups[i].1;
        match assoc_get(labels, name) {
            None => {
                assert(false);
            },
            Some(off) => {
                let code2 = write_le(code, addr, off);
                lemma_resolve_patches(code2, labels, fixups, i + 1, out);
                assert forall|k: int| 0 <= k < ADDR_WIDTH implies out[addr + k] == le_byte(
                    off,
                    k,
                ) by {
                    assert(!in_fixup_range(fixups, i + 1, addr + k)) by {
                        if in_fixup_range(fixups, i + 1, addr + k) {
                            let x = choose|x: int|
                                i + 1 <= x < fixups.len() && (#[trigger] fixups[x]).1 <= addr + k
                                    < fixups[x].1 + ADDR_WIDTH;
                            assert(fixups[i].1 + ADDR_WIDTH <= fixups[x].1);
                        }
                    }
                    assert(out[addr + k] == code2[addr + k]);
                }
                assert forall|x: int|
                    i <= x < fixups.len() implies (assoc_get(labels, (#[trigger] fixups[x]).0)
                    matches Some(v) && out.subrange(fixups[x].1, fixups[x].1 + ADDR_WIDTH)
                    == le_seq(v)) by {
                    if x == i {
                        assert(out.subrange(addr, addr + ADDR_WIDTH) =~= le_seq(off));
                    }
                }
                assert forall|p: int|
                    0 <= p < code.len() && !in_fixup_range(fixups, i, p) implies #[trigger] out[p]
                    == code[p] by {
                    assert(!in_fixup_range(fixups, i + 1, p)) by {
                        if in_fixup_range(fixups, i + 1, p) {
                            let x = choose|x: int|
                                i + 1 <= x < fixups.len() && (#[trigger] fixups[x]).1 <= p
                                    < fixups[x].1 + ADDR_WIDTH;
                            assert(in_fixup_range(fixups, i, p));
                        }
                    }
                    assert(!(addr <= p < addr + ADDR_WIDTH)) by {
                        if addr <= p < addr + ADDR_WIDTH {
                            assert(in_fixup_range(fixups, i, p));
                        }
                    }
                    assert(code2[p] == code[p]);
                }
            },
        }
    }
}

/// After a successful run, every fixup's placeholder holds exactly the
/// little-endian encoding of the offset recorded for the label it
/// references, whether the reference stood before or after the definition,
/// and however many references share one label.
pub proof fn lemma_pipeline_patches(src: Seq<u8>)
    requires
        spec_pipeline(src) is Ok,
    ensures
        spec_pipeline(src) matches Ok(st) ==> st.code.len() == spec_encode(
            spec_lines(src),
            0,
            init_state(),
        )->Ok_0.code.len() && forall|x: int|
            0 <= x < st.fixups.len() ==> (assoc_get(st.labels, (#[trigger] st.fixups[x]).0)
                matches Some(v) && st.code.subrange(st.fixups[x].1, st.fixups[x].1 + ADDR_WIDTH)
                == le_seq(v)),
{
    lemma_encode_ordered(spec_lines(src), 0, init_state());
    let mid = spec_encode(spec_lines(src), 0, init_state())->Ok_0;
    let out = spec_resolve(mid.code, mid.labels, mid.fixups, 0)->Ok_0;
    lemma_resolve_patches(mid.code, mid.labels, mid.fixups, 0, out);
}

/// Two references to the same label, wherever they stand, are patched with
/// identical bytes.
pub proof fn lemma_same_label_same_bytes(src: Seq<u8>, x: int, y: int)
    requires
        spec_pipeline(src) is Ok,
        spec_pipeline(src) matches Ok(st) ==> 0 <= x < st.fixups.len() && 0 <= y < st.fixups.len()
            && st.fixups[x].0 == st.fixups[y].0,
    ensures
        spec_pipeline(src) matches Ok(st) ==> st.code.subrange(
            st.fixups[x].1,
            st.fixups[x].1 + ADDR_WIDTH,
        ) == st.code.subrange(st.fixups[y].1, st.fixups[y].1 + ADDR_WIDTH),
{
    lemma_pipeline_patches(src);
}

/// A line on which encoding must fail, whatever state it meets: an empty or
/// blank line, an unknown mnemonic, a label-reference mnemonic without an
/// operand, or an unterminated string literal.
pub open spec fn line_malformed(l: Seq<u8>) -> bool {
    ||| l.len() == 0
    ||| (l[0] == 9 && tok_of(l).len() == 0)
    ||| (l[0] == 9 && spec_lookup(tok_of(l)) is None)
    ||| (l[0] == 9 && (spec_lookup(tok_of(l)) matches Some(oc) && oc.1 == OperandClass::LabelRef)
        && tok2_of(l).len() == 0)
    ||| (l[0] == 9 && (spec_lookup(tok_of(l)) matches Some(oc) && oc.1 == OperandClass::StringLit)
        && scan_open(l) is None)
    ||| (l[0] != 9 && spec_trim(l).len() == 0)
}

proof fn lemma_encode_fails(lines: Seq<Seq<u8>>, k: int, st: SpecState, i: int)
    requires
        0 <= k <= i < lines.len(),
        line_malformed(lines[i]),
    ensures
        spec_encode(lines, k, st) is Err,
    decreases i - k,
{
    if k == i {
    } else {
        match spec_line_step(st, lines[k], k) {
            Ok(st2) => {
                lemma_encode_fails(lines, k + 1, st2, i);
            },
            Err(_) => {},
        }
    }
}

/// A program with a malformed line never assembles: the whole run fails and
/// no output bytes are produced.
pub proof fn lemma_malformed_line_fails(src: Seq<u8>, i: int)
    requires
        0 <= i < spec_lines(src).len(),
        line_malformed(spec_lines(src)[i]),
    ensures
        spec_pipeline(src) is Err,
        spec_assemble(src) is Err,
{
    lemma_encode_fails(spec_lines(src), 0, init_state(), i);
}

/// A line that is an instruction referencing the label `name`.
pub open spec fn references_label(l: Seq<u8>, name: Seq<u8>) -> bool {
    &&& l.len() > 0
    &&& l[0] == 9
    &&& spec_lookup(tok_of(l)) matches Some(oc) && oc.1 == OperandClass::LabelRef
    &&& tok2_of(l) == name
    &&& name.len() > 0
}

/// A line that defines the label `name`.
pub open spec fn defines_label(l: Seq<u8>, name: Seq<u8>) -> bool {
    &&& l.len() > 0
    &&& l[0] != 9
    &&& spec_trim(l) == name
}

proof fn lemma_assoc_get_push(labels: Seq<(Seq<u8>, int)>, p: (Seq<u8>, int), n: Seq<u8>)
    ensures
        assoc_get(labels.push(p), n) == (if assoc_get(labels, n) is Some {
            assoc_get(labels, n)
        } else if p.0 == n {
            Some(p.1)
        } else {
            None::<int>
        }),
    decreases labels.len(),
{
    if labels.len() == 0 {
        assert(labels.push(p)[0] == p);
        assert(labels.push(p).len() == 1);
        if labels.push(p)[0].0 == n {
        } else {
            assert(labels.push(p).skip(1) =~= labels);
        }
    } else {
        assert(labels.push(p)[0] == labels[0]);
        if labels[0].0 == n {
        } else {
            assert(labels.push(p).skip(1) =~= labels.skip(1).push(p));
            lemma_assoc_get_push(labels.skip(1), p, n);
        }
    }
}

proof fn lemma_encode_ref_recorded(lines: Seq<Seq<u8>>, k: int, st: SpecState, i: int, name: Seq<u8>)
    requires
        0 <= k <= i < lines.len(),
        references_label(lines[i], name),
    ensures
        spec_encode(lines, k, st) matches Ok(st2) ==> exists|x: int|
            0 <= x < st2.fixups.len() && (#[trigger] st2.fixups[x]).0 == name,
    decreases i - k,
{
    if spec_encode(lines, k, st) is Ok {
        let st2 = spec_encode(lines, k, st)->Ok_0;
        match spec_line_step(st, lines[k], k) {
            Ok(st3) => {
                if k == i {
                    let f = st3.fixups.len() - 1;
                    assert(st3.fixups[f].0 == name);
                    lemma_encode_prefix(lines, k + 1, st3);
                    assert(st2.fixups[f] == st3.fixups.subrange(0, st3.fixups.len() as int)[f]);
                } else {
                    lemma_encode_ref_recorded(lines, k + 1, st3, i, name);
                }
            },
            Err(_) => {},
        }
    }
}

proof fn lemma_encode_prefix(lines: Seq<Seq<u8>>, k: int, st: SpecState)
    requires
        0 <= k <= lines.len(),
    ensures
        spec_encode(lines, k, st) matches Ok(st2) ==> st.fixups.is_prefix_of(st2.fixups),
    decreases lines.len() - k,
{
    if k < lines.len() {
        match spec_line_step(st, lines[k], k) {
            Ok(st3) => {
                lemma_encode_prefix(lines, k + 1, st3);
                if spec_encode(lines, k + 1, st3) is Ok {
                    let st2 = spec_encode(lines, k + 1, st3)->Ok_0;
                    assert(st.fixups =~= st3.fixups.subrange(0, st.fixups.len() as int) || st
                        .fixups == st3.fixups);
                    if st.fixups == st3.fixups {
                        assert(st.fixups =~= st3.fixups.subrange(0, st.fixups.len() as int));
                    }
                    assert(st.fixups =~= st2.fixups.subrange(0, st.fixups.len() as int));
                }
            },
            Err(_) => {},
        }
    } else {
        assert(st.fixups =~= st.fixups.subrange(0, st.fixups.len() as int));
    }
}

proof fn lemma_encode_labels_from_lines(lines: Seq<Seq<u8>>, k: int, st: SpecState, n: Seq<u8>)
    requires
        0 <= k <= lines.len(),
    ensures
        spec_encode(lines, k, st) matches Ok(st2) ==> (assoc_get(st2.labels, n) is Some
            ==> assoc_get(st.labels, n) is Some || exists|j: int|
            k <= j < lines.len() && defines_label(#[trigger] lines[j], n)),
    decreases lines.len() - k,
{
    if k < lines.len() {
        match spec_line_step(st, lines[k], k) {
            Ok(st3) => {
                lemma_encode_labels_from_lines(lines, k + 1, st3, n);
                if assoc_get(st3.labels, n) is Some && assoc_get(st.labels, n) is None {
                    assert(st3.labels == st.labels.push((spec_trim(lines[k]), st.code.len() as int)));
                    lemma_assoc_get_push(
                        st.labels,
                        (spec_trim(lines[k]), st.code.len() as int),
                        n,
                    );
                    assert(defines_label(lines[k], n));
                }
            },
            Err(_) => {},
        }
    }
}

proof fn lemma_resolve_needs_labels(
    code: Seq<u8>,
    labels: Seq<(Seq<u8>, int)>,
    fixups: Seq<(Seq<u8>, int)>,
    k: int,
    x: int,
)
    requires
        0 <= k <= x < fixups.len(),
        spec_resolve(code, labels, fixups, k) is Ok,
    ensures
        assoc_get(labels, fixups[x].0) is Some,
    decreases x - k,
{
    if k < x {
        match assoc_get(labels, fixups[k].0) {
            Some(off) => {
                lemma_resolve_needs_labels(
                    write_le(code, fixups[k].1, off),
                    labels,
                    fixups,
                    k + 1,
                    x,
                );
            },
            None => {},
        }
    }
}

/// A reference to a label that no line of the program defines fails the
/// whole run: nothing is produced.
pub proof fn lemma_undefined_label_fails(src: Seq<u8>, i: int, name: Seq<u8>)
    requires
        0 <= i < spec_lines(src).len(),
        references_label(spec_lines(src)[i], name),
        forall|j: int|
            0 <= j < spec_lines(src).len() ==> !defines_label(#[trigger] spec_lines(src)[j], name),
    ensures
        spec_pipeline(src) is Err,
        spec_assemble(src) is Err,
{
    let lines = spec_lines(src);
    if spec_encode(lines, 0, init_state()) is Ok {
        let mid = spec_encode(lines, 0, init_state())->Ok_0;
        lemma_encode_ref_recorded(lines, 0, init_state(), i, name);
        let x = choose|x: int| 0 <= x < mid.fixups.len() && (#[trigger] mid.fixups[x]).0 == name;
        lemma_encode_labels_from_lines(lines, 0, init_state(), name);
        assert(assoc_get(mid.labels, name) is None);
        if spec_resolve(mid.code, mid.labels, mid.fixups, 0) is Ok {
            lemma_resolve_needs_labels(mid.code, mid.labels, mid.fixups, 0, x);
        }
    }
}

} // verus!
