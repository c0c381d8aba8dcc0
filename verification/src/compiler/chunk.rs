//! The unit of compiled code.

use crate::compiler::op_code::{spec_values, OpCode, SpecValue, Value};
use crate::lexer::{spec_tokens, SpecToken, Token};
use vstd::prelude::*;

verus! {

/// One compiled program: a stream of instruction words, the pool of
/// constants that its operand words index, and for every word the token that
/// it was compiled from.
#[derive(Debug, PartialEq, Eq)]
pub struct Chunk {
    pub code: Vec<usize>,
    pub constants: Vec<Value>,
    pub tokens: Vec<Token>,
}

/// The mathematical value of a [`Chunk`].
pub struct SpecChunk {
    pub code: Seq<usize>,
    pub constants: Seq<SpecValue>,
    pub tokens: Seq<SpecToken>,
}

impl View for Chunk {
    type V = SpecChunk;

    open spec fn view(&self) -> SpecChunk {
        SpecChunk {
            code: self.code@,
            constants: spec_values(self.constants@),
            tokens: spec_tokens(self.tokens@),
        }
    }
}

impl SpecChunk {
    /// The chunk without code.
    pub open spec fn empty() -> SpecChunk {
        SpecChunk { code: Seq::empty(), constants: Seq::empty(), tokens: Seq::empty() }
    }

    /// The instructions from word `ip` on are whole, up to the end of the
    /// stream or to a word that is no operation: an operation that takes an
    /// operand has one after it, and the operand indexes the constant pool.
    pub open spec fn framed_from(self, ip: int) -> bool
        decreases self.code.len() - ip,
    {
        if ip < 0 || ip >= self.code.len() {
            true
        } else {
            match OpCode::decode(self.code[ip]) {
                Some(op) => {
                    if op.has_operand() {
                        ip + 1 < self.code.len() && self.code[ip + 1] < self.constants.len()
                            && self.framed_from(ip + 2)
                    } else {
                        self.framed_from(ip + 1)
                    }
                },
                None => true,
            }
        }
    }

    /// No operand word is missing, and every operand word indexes the
    /// constant pool. This is what the machine asks of a chunk.
    pub open spec fn framed(self) -> bool {
        self.framed_from(0)
    }

    /// The chunk is framed, and every word has its token.
    pub open spec fn well_formed(self) -> bool {
        self.tokens.len() == self.code.len() && self.framed()
    }

    /// This chunk with the operation `op`, compiled from `token`, at its end.
    pub open spec fn with_instruction(self, op: OpCode, token: SpecToken) -> SpecChunk {
        SpecChunk {
            code: self.code.push(op.word()),
            constants: self.constants,
            tokens: self.tokens.push(token),
        }
    }

    /// This chunk with `value` at the end of its pool, and the index of
    /// `value` as an operand word, compiled from `token`, at its end.
    pub open spec fn with_constant(self, value: SpecValue, token: SpecToken) -> SpecChunk {
        SpecChunk {
            code: self.code.push(self.constants.len() as usize),
            constants: self.constants.push(value),
            tokens: self.tokens.push(token),
        }
    }
}

impl Chunk {
    /// The chunk without code.
    pub fn new() -> (chunk: Chunk)
        ensures
            chunk@ == SpecChunk::empty(),
            chunk@.well_formed(),
    {
        let chunk = Chunk { code: Vec::new(), constants: Vec::new(), tokens: Vec::new() };
        assert(chunk@.constants =~= Seq::empty());
        assert(chunk@.tokens =~= Seq::empty());
        chunk
    }

    /// Whether the chunk is well formed.
    pub fn is_well_formed(&self) -> (well_formed: bool)
        ensures
            well_formed == self@.well_formed(),
    {
        self.tokens.len() == self.code.len() && self.is_framed()
    }

    /// Whether the chunk is framed.
    pub fn is_framed(&self) -> (framed: bool)
        ensures
            framed == self@.framed(),
    {
        let mut ip: usize = 0;
        while ip < self.code.len()
            invariant
                self@.framed_from(ip as int) == self@.framed_from(0),
            decreases self.code@.len() - ip,
        {
            match OpCode::from_usize(self.code[ip]) {
                Some(op) => {
                    if matches!(op, OpCode::Constant | OpCode::SetVar | OpCode::GetVar) {
                        if self.code.len() - ip < 2 || self.code[ip + 1] >= self.constants.len() {
                            return false;
                        }
                        ip += 2;
                    } else {
                        ip += 1;
                    }
                },
                None => {
                    return true;
                },
            }
        }
        true
    }
}

} // verus!
