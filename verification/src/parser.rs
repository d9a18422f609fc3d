//! The two-pass assembler: an encode pass that classifies lines and appends
//! opcode and operand bytes, then a fixup pass that patches every label
//! reference with the referenced label's byte offset.

use vstd::prelude::*;

use crate::errors::{AsmError, SpecErr};
use crate::model::{
    assoc_get, init_state, le_byte, spec_assemble, spec_encode, spec_header, spec_instr_step,
    spec_label_ref, spec_label_step, spec_line_step, spec_no_operand, spec_pipeline, spec_resolve,
    spec_string_lit, write_le, zeros, SpecState,
};
use crate::opcode::{
    eq1, eq2, eq3, OperandClass, ADDR_WIDTH, OP_ADR, OP_B, OP_BE, OP_BF, OP_BT, OP_CI, OP_CL,
    OP_CLL, OP_END, OP_GN1, OP_GN2, OP_ID, OP_LB, OP_NUM, OP_OUT, OP_R, OP_SET, OP_STR, OP_TST,
    spec_lookup,
};
use crate::scan::{
    bytes_eq, copy_range, find_close, find_open, first_token, scan_open, spec_lines, split_lines,
    tok2_of, tok_of, trim_bounds, views_of,
};

verus! {

/// One assembly run: the source text and the state of the two passes.
pub struct Parser {
    /// The source text, held for the whole run.
    pub source: Vec<u8>,
    /// Label definitions recorded so far: name and byte offset.
    pub labels: Vec<(Vec<u8>, usize)>,
    /// Pending fixups: referenced name and the offset of its placeholder.
    pub label_markers: Vec<(Vec<u8>, usize)>,
    /// The code section being built.
    pub code: Vec<u8>,
}

impl Parser {
    /// The label table as the model sees it.
    pub open spec fn labels_view(&self) -> Seq<(Seq<u8>, int)> {
        self.labels@.map_values(|p: (Vec<u8>, usize)| (p.0@, p.1 as int))
    }

    /// The fixup queue as the model sees it.
    pub open spec fn fixups_view(&self) -> Seq<(Seq<u8>, int)> {
        self.label_markers@.map_values(|p: (Vec<u8>, usize)| (p.0@, p.1 as int))
    }

    /// The whole encode-pass state as the model sees it.
    pub open spec fn st(&self) -> SpecState {
        SpecState { code: self.code@, labels: self.labels_view(), fixups: self.fixups_view() }
    }

    /// Every recorded placeholder lies inside the code buffer.
    pub open spec fn wf(&self) -> bool {
        forall|i: int|
            0 <= i < self.fixups_view().len() ==> #[trigger] self.fixups_view()[i].1 + ADDR_WIDTH
                <= self.code@.len()
    }

    /// A fresh run over the given source text.
    pub fn new(source: Vec<u8>) -> (p: Parser)
        ensures
            p.source == source,
            p.st() == init_state(),
    {
        let p = Parser { source, labels: Vec::new(), label_markers: Vec::new(), code: Vec::new() };
        proof {
            assert(p.labels_view() =~= Seq::<(Seq<u8>, int)>::empty());
            assert(p.fixups_view() =~= Seq::<(Seq<u8>, int)>::empty());
        }
        p
    }

    /// The opcode table: the opcode identifier and operand class of a
    /// mnemonic, or `None` for text that is no mnemonic.
    pub fn opcode(text: &[u8]) -> (r: Option<(u8, OperandClass)>)
        ensures
            r == spec_lookup(text@),
    {
        if eq3(text, 65, 68, 82) {
            Some((OP_ADR, OperandClass::LabelRef))
        } else if eq3(text, 84, 83, 84) {
            Some((OP_TST, OperandClass::StringLit))
        } else if eq2(text, 66, 70) {
            Some((OP_BF, OperandClass::LabelRef))
        } else if eq2(text, 73, 68) {
            Some((OP_ID, OperandClass::NoOperand))
        } else if eq2(text, 66, 69) {
            Some((OP_BE, OperandClass::NoOperand))
        } else if eq2(text, 67, 76) {
            Some((OP_CL, OperandClass::StringLit))
        } else if eq2(text, 67, 73) {
            Some((OP_CI, OperandClass::NoOperand))
        } else if eq3(text, 79, 85, 84) {
            Some((OP_OUT, OperandClass::NoOperand))
        } else if eq3(text, 67, 76, 76) {
            Some((OP_CLL, OperandClass::LabelRef))
        } else if eq2(text, 66, 84) {
            Some((OP_BT, OperandClass::LabelRef))
        } else if eq3(text, 83, 69, 84) {
            Some((OP_SET, OperandClass::NoOperand))
        } else if eq1(text, 82) {
            Some((OP_R, OperandClass::NoOperand))
        } else if eq3(text, 69, 78, 68) {
            Some((OP_END, OperandClass::NoOperand))
        } else if eq3(text, 83, 84, 82) {
            Some((OP_STR, OperandClass::NoOperand))
        } else if eq3(text, 78, 85, 77) {
            Some((OP_NUM, OperandClass::NoOperand))
        } else if eq2(text, 76, 66) {
            Some((OP_LB, OperandClass::NoOperand))
        } else if eq3(text, 71, 78, 49) {
            Some((OP_GN1, OperandClass::NoOperand))
        } else if eq3(text, 71, 78, 50) {
            Some((OP_GN2, OperandClass::NoOperand))
        } else if eq1(text, 66) {
            Some((OP_B, OperandClass::LabelRef))
        } else {
            None
        }
    }

    /// Appends the `ID` opcode byte.
    pub fn id(&mut self)
        ensures
            final(self).st() == spec_no_operand(old(self).st(), OP_ID),
            final(self).source == old(self).source,
            final(self).labels == old(self).labels,
            final(self).label_markers == old(self).label_markers,
    {
        self.code.push(OP_ID);
    }

    /// Appends the `BE` opcode byte.
    pub fn be(&mut self)
        ensures
            final(self).st() == spec_no_operand(old(self).st(), OP_BE),
            final(self).source == old(self).source,
            final(self).labels == old(self).labels,
            final(self).label_markers == old(self).label_markers,
    {
        self.code.push(OP_BE);
    }

    /// Appends the `CI` opcode byte.
    pub fn ci(&mut self)
        ensures
            final(self).st() == spec_no_operand(old(self).st(), OP_CI),
            final(self).source == old(self).source,
            final(self).labels == old(self).labels,
            final(self).label_markers == old(self).label_markers,
    {
        self.code.push(OP_CI);
    }

    /// Appends the `OUT` opcode byte.
    pub fn out(&mut self)
        ensures
            final(self).st() == spec_no_operand(old(self).st(), OP_OUT),
            final(self).source == old(self).source,
            final(self).labels == old(self).labels,
            final(self).label_markers == old(self).label_markers,
    {
        self.code.push(OP_OUT);
    }

    /// Appends the `SET` opcode byte.
    pub fn set(&mut self)
        ensures
            final(self).st() == spec_no_operand(old(self).st(), OP_SET),
            final(self).source == old(self).source,
            final(self).labels == old(self).labels,
            final(self).label_markers == old(self).label_markers,
    {
        self.code.push(OP_SET);
    }

    /// Appends the `R` opcode byte.
    pub fn r(&mut self)
        ensures
            final(self).st() == spec_no_operand(old(self).st(), OP_R),
            final(self).source == old(self).source,
            final(self).labels == old(self).labels,
            final(self).label_markers == old(self).label_markers,
    {
        self.code.push(OP_R);
    }

    /// Appends the `END` opcode byte.
    pub fn end(&mut self)
        ensures
            final(self).st() == spec_no_operand(old(self).st(), OP_END),
            final(self).source == old(self).source,
            final(self).labels == old(self).labels,
            final(self).label_markers == old(self).label_markers,
    {
        self.code.push(OP_END);
    }

    /// Appends the `STR` opcode byte.
    pub fn str(&mut self)
        ensures
            final(self).st() == spec_no_operand(old(self).st(), OP_STR),
            final(self).source == old(self).source,
            final(self).labels == old(self).labels,
            final(self).label_markers == old(self).label_markers,
    {
        self.code.push(OP_STR);
    }

    /// Appends the `NUM` opcode byte.
    pub fn num(&mut self)
        ensures
            final(self).st() == spec_no_operand(old(self).st(), OP_NUM),
            final(self).source == old(self).source,
            final(self).labels == old(self).labels,
            final(self).label_markers == old(self).label_markers,
    {
        self.code.push(OP_NUM);
    }

    /// Appends the `LB` opcode byte.
    pub fn lb(&mut self)
        ensures
            final(self).st() == spec_no_operand(old(self).st(), OP_LB),
            final(self).source == old(self).source,
            final(self).labels == old(self).labels,
            final(self).label_markers == old(self).label_markers,
    {
        self.code.push(OP_LB);
    }

    /// Appends the `GN1` opcode byte.
    pub fn gn1(&mut self)
        ensures
            final(self).st() == spec_no_operand(old(self).st(), OP_GN1),
            final(self).source == old(self).source,
            final(self).labels == old(self).labels,
            final(self).label_markers == old(self).label_markers,
    {
        self.code.push(OP_GN1);
    }

    /// Appends the `GN2` opcode byte.
    pub fn gn2(&mut self)
        ensures
            final(self).st() == spec_no_operand(old(self).st(), OP_GN2),
            final(self).source == old(self).source,
            final(self).labels == old(self).labels,
            final(self).label_markers == old(self).label_markers,
    {
        self.code.push(OP_GN2);
    }

    /// The fixed eight-byte preamble; pure, independent of the program text.
    pub fn header(&self) -> (h: Vec<u8>)
        ensures
            h@ == spec_header(),
    {
        let mut h: Vec<u8> = Vec::new();
        h.push(46);
        h.push(109);
        h.push(101);
        h.push(116);
        h.push(97);
        h.push(0);
        h.push(0);
        h.push(ADDR_WIDTH as u8);
        proof {
            assert(h@ =~= spec_header());
        }
        h
    }

    /// Queues a fixup for `label` at the current buffer position and appends
    /// the `ADDR_WIDTH`-byte zero placeholder the fixup pass will overwrite.
    pub fn add_label_addr(&mut self, label: Vec<u8>)
        ensures
            final(self).source == old(self).source,
            final(self).labels == old(self).labels,
            final(self).code@ == old(self).code@ + zeros(ADDR_WIDTH as int),
            final(self).fixups_view() == old(self).fixups_view().push(
                (label@, old(self).code@.len() as int),
            ),
    {
        let ghost lv = label@;
        let addr = self.code.len();
        self.label_markers.push((label, addr));
        proof {
            assert(self.fixups_view() =~= old(self).fixups_view().push((lv, addr as int)));
        }
        let mut k: usize = 0;
        proof {
            assert(self.code@ + zeros(0) =~= self.code@);
        }
        while k < ADDR_WIDTH
            invariant
                k <= ADDR_WIDTH,
                self.source == old(self).source,
                self.labels == old(self).labels,
                self.label_markers@ == old(self).label_markers@.push((label, addr)),
                self.code@ == old(self).code@ + zeros(k as int),
            decreases ADDR_WIDTH - k,
        {
            self.code.push(0);
            proof {
                assert((old(self).code@ + zeros(k as int)).push(0u8) =~= old(self).code@ + zeros(
                    k as int + 1,
                ));
            }
            k = k + 1;
        }
        proof {
            assert(self.fixups_view() =~= old(self).fixups_view().push((lv, addr as int)));
        }
    }

    /// Takes the label name referenced by instruction line `l` (its second
    /// token) and queues a fixup with a placeholder for it; an instruction
    /// with no second token has no operand to reference.
    pub fn write_label(&mut self, l: &[u8], line_no: usize) -> (r: Result<(), AsmError>)
        ensures
            final(self).source == old(self).source,
            final(self).labels == old(self).labels,
            match r {
                Ok(()) => tok2_of(l@).len() > 0 && final(self).code@ == old(self).code@ + zeros(
                    ADDR_WIDTH as int,
                ) && final(self).fixups_view() == old(self).fixups_view().push(
                    (tok2_of(l@), old(self).code@.len() as int),
                ),
                Err(e) => tok2_of(l@).len() == 0 && e@ == SpecErr::MissingOperand(
                    tok_of(l@),
                    line_no as int,
                ) && final(self).code == old(self).code && final(self).label_markers == old(
                    self,
                ).label_markers,
            },
    {
        proof {
            assert(l@.skip(0) =~= l@);
        }
        let (s1, e1) = first_token(l, 0);
        let (s2, e2) = first_token(l, e1);
        if s2 == e2 {
            let mnemonic = copy_range(l, s1, e1);
            return Err(AsmError::MissingOperand { mnemonic, line: line_no });
        }
        let name = copy_range(l, s2, e2);
        self.add_label_addr(name);
        Ok(())
    }

    /// Appends the `ADR` opcode byte and its label-reference operand.
    pub fn adr(&mut self, l: &[u8], line_no: usize) -> (r: Result<(), AsmError>)
        ensures
            final(self).source == old(self).source,
            final(self).labels == old(self).labels,
            match r {
                Ok(()) => tok2_of(l@).len() > 0 && final(self).st() == spec_label_ref(
                    old(self).st(),
                    OP_ADR,
                    tok2_of(l@),
                ),
                Err(e) => tok2_of(l@).len() == 0 && e@ == SpecErr::MissingOperand(
                    tok_of(l@),
                    line_no as int,
                ) && final(self).code@ == old(self).code@.push(OP_ADR) && final(self).label_markers == old(
                    self,
                ).label_markers,
            },
    {
        self.code.push(OP_ADR);
        self.write_label(l, line_no)
    }

    /// Appends the `BF` opcode byte and its label-reference operand.
    pub fn bf(&mut self, l: &[u8], line_no: usize) -> (r: Result<(), AsmError>)
        ensures
            final(self).source == old(self).source,
            final(self).labels == old(self).labels,
            match r {
                Ok(()) => tok2_of(l@).len() > 0 && final(self).st() == spec_label_ref(
                    old(self).st(),
                    OP_BF,
                    tok2_of(l@),
                ),
                Err(e) => tok2_of(l@).len() == 0 && e@ == SpecErr::MissingOperand(
                    tok_of(l@),
                    line_no as int,
                ) && final(self).code@ == old(self).code@.push(OP_BF) && final(self).label_markers == old(
                    self,
                ).label_markers,
            },
    {
        self.code.push(OP_BF);
        self.write_label(l, line_no)
    }

    /// Appends the `CLL` opcode byte and its label-reference operand.
    pub fn cll(&mut self, l: &[u8], line_no: usize) -> (r: Result<(), AsmError>)
        ensures
            final(self).source == old(self).source,
            final(self).labels == old(self).labels,
            match r {
                Ok(()) => tok2_of(l@).len() > 0 && final(self).st() == spec_label_ref(
                    old(self).st(),
                    OP_CLL,
                    tok2_of(l@),
                ),
                Err(e) => tok2_of(l@).len() == 0 && e@ == SpecErr::MissingOperand(
                    tok_of(l@),
                    line_no as int,
                ) && final(self).code@ == old(self).code@.push(OP_CLL) && final(self).label_markers == old(
                    self,
                ).label_markers,
            },
    {
        self.code.push(OP_CLL);
        self.write_label(l, line_no)
    }

    /// Appends the `BT` opcode byte and its label-reference operand.
    pub fn bt(&mut self, l: &[u8], line_no: usize) -> (r: Result<(), AsmError>)
        ensures
            final(self).source == old(self).source,
            final(self).labels == old(self).labels,
            match r {
                Ok(()) => tok2_of(l@).len() > 0 && final(self).st() == spec_label_ref(
                    old(self).st(),
                    OP_BT,
                    tok2_of(l@),
                ),
                Err(e) => tok2_of(l@).len() == 0 && e@ == SpecErr::MissingOperand(
                    tok_of(l@),
                    line_no as int,
                ) && final(self).code@ == old(self).code@.push(OP_BT) && final(self).label_markers == old(
                    self,
                ).label_markers,
            },
    {
        self.code.push(OP_BT);
        self.write_label(l, line_no)
    }

    /// Appends the `B` opcode byte and its label-reference operand.
    pub fn b(&mut self, l: &[u8], line_no: usize) -> (r: Result<(), AsmError>)
        ensures
            final(self).source == old(self).source,
            final(self).labels == old(self).labels,
            match r {
                Ok(()) => tok2_of(l@).len() > 0 && final(self).st() == spec_label_ref(
                    old(self).st(),
                    OP_B,
                    tok2_of(l@),
                ),
                Err(e) => tok2_of(l@).len() == 0 && e@ == SpecErr::MissingOperand(
                    tok_of(l@),
                    line_no as int,
                ) && final(self).code@ == old(self).code@.push(OP_B) && final(self).label_markers == old(
                    self,
                ).label_markers,
            },
    {
        self.code.push(OP_B);
        self.write_label(l, line_no)
    }

    /// Copies the first quote-delimited literal of line `l` into the code
    /// buffer, followed by one NUL byte.  A literal with a missing opening or
    /// closing quote fails, leaving the buffer unchanged.
    pub fn write_string(&mut self, l: &[u8], line_no: usize) -> (r: Result<(), AsmError>)
        ensures
            final(self).source == old(self).source,
            final(self).labels == old(self).labels,
            final(self).label_markers == old(self).label_markers,
            match r {
                Ok(()) => scan_open(l@) matches Some(content) && final(self).code@ == old(
                    self,
                ).code@ + content + seq![0u8],
                Err(e) => scan_open(l@) is None && e@ == SpecErr::UnterminatedStringLiteral(
                    line_no as int,
                ) && final(self).code == old(self).code,
            },
    {
        // The length fits a machine word, so indexes past the opening quote do too.
        let full_len: usize = l.len();
        let i = match find_open(l) {
            None => {
                return Err(AsmError::UnterminatedStringLiteral { line: line_no });
            },
            Some(i) => i,
        };
        let j = match find_close(l, i + 1) {
            None => {
                return Err(AsmError::UnterminatedStringLiteral { line: line_no });
            },
            Some(j) => j,
        };
        let ghost content = l@.subrange(i as int + 1, j as int);
        let mut m: usize = i + 1;
        proof {
            assert(old(self).code@ + l@.subrange(i as int + 1, i as int + 1) =~= old(self).code@);
        }
        while m < j
            invariant
                i + 1 <= m <= j <= l@.len(),
                self.source == old(self).source,
                self.labels == old(self).labels,
                self.label_markers == old(self).label_markers,
                self.code@ == old(self).code@ + l@.subrange(i as int + 1, m as int),
            decreases j - m,
        {
            self.code.push(l[m]);
            proof {
                assert((old(self).code@ + l@.subrange(i as int + 1, m as int)).push(l@[m as int])
                    =~= old(self).code@ + l@.subrange(i as int + 1, m as int + 1));
            }
            m = m + 1;
        }
        self.code.push(0);
        proof {
            assert((old(self).code@ + content).push(0u8) =~= old(self).code@ + content + seq![
                0u8,
            ]);
        }
        Ok(())
    }

    /// Appends the `TST` opcode byte and its string-literal operand.
    pub fn tst(&mut self, l: &[u8], line_no: usize) -> (r: Result<(), AsmError>)
        ensures
            final(self).source == old(self).source,
            final(self).labels == old(self).labels,
            final(self).label_markers == old(self).label_markers,
            match r {
                Ok(()) => scan_open(l@) matches Some(content) && final(self).st()
                    == spec_string_lit(old(self).st(), OP_TST, content),
                Err(e) => scan_open(l@) is None && e@ == SpecErr::UnterminatedStringLiteral(
                    line_no as int,
                ) && final(self).code@ == old(self).code@.push(OP_TST),
            },
    {
        self.code.push(OP_TST);
        let r = self.write_string(l, line_no);
        proof {
            if r is Ok {
                let content = scan_open(l@).unwrap();
                assert(old(self).code@.push(OP_TST) + content + seq![0u8] == spec_string_lit(
                    old(self).st(),
                    OP_TST,
                    content,
                ).code);
            }
        }
        r
    }

    /// Appends the `CL` opcode byte and its string-literal operand.
    pub fn cl(&mut self, l: &[u8], line_no: usize) -> (r: Result<(), AsmError>)
        ensures
            final(self).source == old(self).source,
            final(self).labels == old(self).labels,
            final(self).label_markers == old(self).label_markers,
            match r {
                Ok(()) => scan_open(l@) matches Some(content) && final(self).st()
                    == spec_string_lit(old(self).st(), OP_CL, content),
                Err(e) => scan_open(l@) is None && e@ == SpecErr::UnterminatedStringLiteral(
                    line_no as int,
                ) && final(self).code@ == old(self).code@.push(OP_CL),
            },
    {
        self.code.push(OP_CL);
        self.write_string(l, line_no)
    }

    /// The offset recorded for the label `name`, if that label is defined.
    pub fn find_label(&self, name: &[u8]) -> (r: Option<usize>)
        ensures
            match r {
                Some(off) => assoc_get(self.labels_view(), name@) == Some(off as int),
                None => assoc_get(self.labels_view(), name@) is None,
            },
    {
        let mut i: usize = 0;
        proof {
            assert(self.labels_view().skip(0) =~= self.labels_view());
        }
        while i < self.labels.len()
            invariant
                i <= self.labels@.len(),
                assoc_get(self.labels_view(), name@) == assoc_get(
                    self.labels_view().skip(i as int),
                    name@,
                ),
            decreases self.labels@.len() - i,
        {
            proof {
                assert(self.labels_view().skip(i as int)[0] == self.labels_view()[i as int]);
                assert(self.labels_view().skip(i as int).skip(1) =~= self.labels_view().skip(
                    i as int + 1,
                ));
            }
            if bytes_eq(self.labels[i].0.as_slice(), name) {
                return Some(self.labels[i].1);
            }
            i = i + 1;
        }
        proof {
            assert(self.labels_view().skip(i as int) =~= Seq::<(Seq<u8>, int)>::empty());
        }
        None
    }

    /// Records the trimmed text of line `l` as a label name defined at the
    /// current buffer length.  A blank name or a name already defined fails.
    pub fn parse_label(&mut self, l: &[u8], line_no: usize) -> (r: Result<(), AsmError>)
        ensures
            final(self).source == old(self).source,
            final(self).code == old(self).code,
            final(self).label_markers == old(self).label_markers,
            match r {
                Ok(()) => spec_label_step(old(self).st(), l@, line_no as int) == Ok::<
                    SpecState,
                    SpecErr,
                >(final(self).st()),
                Err(e) => spec_label_step(old(self).st(), l@, line_no as int) == Err::<
                    SpecState,
                    SpecErr,
                >(e@) && final(self).labels == old(self).labels,
            },
    {
        let (a, b) = trim_bounds(l);
        if a == b {
            return Err(AsmError::EmptyLine { line: line_no });
        }
        let name = copy_range(l, a, b);
        if self.find_label(name.as_slice()).is_some() {
            return Err(AsmError::DuplicateLabel { name });
        }
        let ghost nv = name@;
        let off = self.code.len();
        self.labels.push((name, off));
        proof {
            assert(self.labels_view() =~= old(self).labels_view().push((nv, off as int)));
        }
        Ok(())
    }

    /// Classifies the mnemonic of instruction line `l` through the opcode
    /// table and encodes the instruction according to its operand class.
    pub fn parse_instruction(&mut self, l: &[u8], line_no: usize) -> (r: Result<(), AsmError>)
        ensures
            final(self).source == old(self).source,
            final(self).labels == old(self).labels,
            match r {
                Ok(()) => spec_instr_step(old(self).st(), l@, line_no as int) == Ok::<
                    SpecState,
                    SpecErr,
                >(final(self).st()),
                Err(e) => spec_instr_step(old(self).st(), l@, line_no as int) == Err::<
                    SpecState,
                    SpecErr,
                >(e@) && final(self).label_markers == old(self).label_markers && old(
                    self,
                ).code@.is_prefix_of(final(self).code@) && final(self).code@.len() <= old(
                    self,
                ).code@.len() + 1,
            },
    {
        proof {
            assert(l@.skip(0) =~= l@);
        }
        let (s1, e1) = first_token(l, 0);
        if s1 == e1 {
            return Err(AsmError::EmptyLine { line: line_no });
        }
        let mnemonic = copy_range(l, s1, e1);
        match Parser::opcode(mnemonic.as_slice()) {
            None => Err(AsmError::UnknownOpcode { mnemonic }),
            Some(oc) => {
                let (op, class) = oc;
                match class {
                    OperandClass::NoOperand => {
                        if op == OP_ID {
                            self.id();
                        } else if op == OP_BE {
                            self.be();
                        } else if op == OP_CI {
                            self.ci();
                        } else if op == OP_OUT {
                            self.out();
                        } else if op == OP_SET {
                            self.set();
                        } else if op == OP_R {
                            self.r();
                        } else if op == OP_END {
                            self.end();
                        } else if op == OP_STR {
                            self.str();
                        } else if op == OP_NUM {
                            self.num();
                        } else if op == OP_LB {
                            self.lb();
                        } else if op == OP_GN1 {
                            self.gn1();
                        } else {
                            proof {
                                assert(op == OP_GN2);
                            }
                            self.gn2();
                        }
                        Ok(())
                    },
                    OperandClass::LabelRef => {
                        if op == OP_ADR {
                            self.adr(l, line_no)
                        } else if op == OP_BF {
                            self.bf(l, line_no)
                        } else if op == OP_CLL {
                            self.cll(l, line_no)
                        } else if op == OP_BT {
                            self.bt(l, line_no)
                        } else {
                            proof {
                                assert(op == OP_B);
                            }
                            self.b(l, line_no)
                        }
                    },
                    OperandClass::StringLit => {
                        if op == OP_TST {
                            self.tst(l, line_no)
                        } else {
                            proof {
                                assert(op == OP_CL);
                            }
                            self.cl(l, line_no)
                        }
                    },
                }
            },
        }
    }

    /// Byte `k` of the little-endian encoding of the offset `v`.
    pub fn le_byte_of(v: u64, k: usize) -> (b: u8)
        requires
            k < ADDR_WIDTH,
        ensures
            b == le_byte(v as int, k as int),
    {
        let s: u64 = 8 * (k as u64);
        let m: u64 = (v >> s) & 0xff;
        proof {
            assert((v >> s) & 0xff <= 0xff) by (bit_vector);
        }
        m as u8
    }

    /// The fixup pass: walks the queue in reference order and overwrites each
    /// placeholder with the little-endian offset of its label, failing on a
    /// name no label definition recorded.  The buffer length never changes.
    pub fn resolve(&mut self) -> (r: Result<(), AsmError>)
        requires
            old(self).wf(),
        ensures
            final(self).source == old(self).source,
            final(self).labels == old(self).labels,
            final(self).label_markers == old(self).label_markers,
            final(self).code@.len() == old(self).code@.len(),
            match r {
                Ok(()) => spec_resolve(
                    old(self).code@,
                    old(self).labels_view(),
                    old(self).fixups_view(),
                    0,
                ) == Ok::<Seq<u8>, SpecErr>(final(self).code@),
                Err(e) => spec_resolve(
                    old(self).code@,
                    old(self).labels_view(),
                    old(self).fixups_view(),
                    0,
                ) == Err::<Seq<u8>, SpecErr>(e@),
            },
    {
        let mut i: usize = 0;
        while i < self.label_markers.len()
            invariant
                i <= self.label_markers@.len(),
                self.source == old(self).source,
                self.labels == old(self).labels,
                self.label_markers == old(self).label_markers,
                self.code@.len() == old(self).code@.len(),
                self.wf(),
                spec_resolve(old(self).code@, self.labels_view(), self.fixups_view(), 0)
                    == spec_resolve(self.code@, self.labels_view(), self.fixups_view(), i as int),
            decreases self.label_markers@.len() - i,
        {
            proof {
                assert(self.fixups_view()[i as int] == (
                    self.label_markers@[i as int].0@,
                    self.label_markers@[i as int].1 as int,
                ));
            }
            let entry = &self.label_markers[i];
            let addr = entry.1;
            let name = copy_range(entry.0.as_slice(), 0, entry.0.len());
            proof {
                assert(name@ =~= self.label_markers@[i as int].0@);
            }
            match self.find_label(name.as_slice()) {
                None => {
                    return Err(AsmError::UndefinedLabel { name });
                },
                Some(off) => {
                    let ghost before = self.code@;
                    let code_len: usize = self.code.len();
                    let mut k: usize = 0;
                    while k < ADDR_WIDTH
                        invariant
                            k <= ADDR_WIDTH,
                            addr + ADDR_WIDTH <= code_len,
                            code_len == self.code@.len(),
                            self.code@.len() == before.len(),
                            self.source == old(self).source,
                            self.labels == old(self).labels,
                            self.label_markers == old(self).label_markers,
                            forall|j: int|
                                0 <= j < self.code@.len() ==> #[trigger] self.code@[j] == (
                                if addr <= j < addr + k {
                                    le_byte(off as int, j - addr)
                                } else {
                                    before[j]
                                }),
                        decreases ADDR_WIDTH - k,
                    {
                        let byte = Parser::le_byte_of(off as u64, k);
                        self.code[addr + k] = byte;
                        k = k + 1;
                    }
                    proof {
                        assert(self.code@ =~= write_le(before, addr as int, off as int));
                    }
                },
            }
            i = i + 1;
        }
        proof {
            assert(spec_resolve(
                self.code@,
                self.labels_view(),
                self.fixups_view(),
                i as int,
            ) == Ok::<Seq<u8>, SpecErr>(self.code@));
        }
        Ok(())
    }

    /// The whole run: splits the source into lines, encodes them in order,
    /// then resolves every queued fixup.  On success the state is exactly
    /// what the model's pipeline yields for this source text; on failure the
    /// error is exactly the pipeline's, and no output is produced.
    pub fn parse(&mut self) -> (r: Result<(), AsmError>)
        requires
            old(self).st() == init_state(),
        ensures
            final(self).source == old(self).source,
            match r {
                Ok(()) => spec_pipeline(old(self).source@) == Ok::<SpecState, SpecErr>(
                    final(self).st(),
                ),
                Err(e) => spec_pipeline(old(self).source@) == Err::<SpecState, SpecErr>(e@),
            },
    {
        let lines = split_lines(self.source.as_slice());
        let ghost linesv = views_of(lines@);
        let mut i: usize = 0;
        while i < lines.len()
            invariant
                i <= lines@.len(),
                self.source == old(self).source,
                linesv == views_of(lines@),
                linesv == spec_lines(old(self).source@),
                spec_encode(linesv, 0, init_state()) == spec_encode(
                    linesv,
                    i as int,
                    self.st(),
                ),
                self.wf(),
            decreases lines@.len() - i,
        {
            let ghost st_before = self.st();
            proof {
                assert(linesv[i as int] == lines@[i as int]@);
            }
            let l = &lines[i];
            if l.len() == 0 {
                return Err(AsmError::EmptyLine { line: i });
            }
            let r = if l[0] == 9 {
                self.parse_instruction(l.as_slice(), i)
            } else {
                self.parse_label(l.as_slice(), i)
            };
            match r {
                Err(e) => {
                    return Err(e);
                },
                Ok(()) => {
                    proof {
                        assert(spec_line_step(st_before, linesv[i as int], i as int) == Ok::<
                            SpecState,
                            SpecErr,
                        >(self.st()));
                        assert forall|x: int|
                            0 <= x < self.fixups_view().len() implies #[trigger] self.fixups_view()[x].1
                            + ADDR_WIDTH <= self.code@.len() by {
                            if x < st_before.fixups.len() {
                                assert(st_before.fixups[x].1 + ADDR_WIDTH
                                    <= st_before.code.len());
                            }
                        }
                    }
                },
            }
            i = i + 1;
        }
        self.resolve()
    }
}

/// Assembles a whole source text: the eight-byte header followed by the
/// resolved code section, or the first error, in which case no bytes are
/// produced at all.
pub fn assemble(source: Vec<u8>) -> (r: Result<Vec<u8>, AsmError>)
    ensures
        match r {
            Ok(out) => spec_assemble(source@) == Ok::<Seq<u8>, SpecErr>(out@),
            Err(e) => spec_assemble(source@) == Err::<Seq<u8>, SpecErr>(e@),
        },
{
    let mut p = Parser::new(source);
    match p.parse() {
        Err(e) => Err(e),
        Ok(()) => {
            let mut out = p.header();
            let mut m: usize = 0;
            proof {
                assert(spec_header() + p.code@.subrange(0, 0) =~= spec_header());
            }
            while m < p.code.len()
                invariant
                    m <= p.code@.len(),
                    out@ == spec_header() + p.code@.subrange(0, m as int),
                decreases p.code@.len() - m,
            {
                out.push(p.code[m]);
                proof {
                    assert((spec_header() + p.code@.subrange(0, m as int)).push(p.code@[m as int])
                        =~= spec_header() + p.code@.subrange(0, m as int + 1));
                }
                m = m + 1;
            }
            proof {
                assert(p.code@.subrange(0, p.code@.len() as int) =~= p.code@);
            }
            Ok(out)
        },
    }
}

} // verus!
