//! Instruction words and values of the stack machine.

use vstd::prelude::*;

verus! {

/// The operations of the stack machine. `Constant`, `SetVar` and `GetVar` are
/// followed in the instruction stream by one operand word, an index into the
/// constant pool; the others stand alone.
#[derive(Clone, Copy, Debug, PartialEq, Eq, Structural)]
pub enum OpCode {
    Constant,
    Add,
    Subtract,
    Multiply,
    Divide,
    Negate,
    SetVar,
    GetVar,
}

impl OpCode {
    /// The instruction word that stands for this operation.
    pub open spec fn word(self) -> usize {
        match self {
            OpCode::Constant => 0,
            OpCode::Add => 1,
            OpCode::Subtract => 2,
            OpCode::Multiply => 3,
            OpCode::Divide => 4,
            OpCode::Negate => 5,
            OpCode::SetVar => 6,
            OpCode::GetVar => 7,
        }
    }

    /// The operation that an instruction word stands for, if any.
    pub open spec fn decode(word: usize) -> Option<OpCode> {
        if word == 0 {
            Some(OpCode::Constant)
        } else if word == 1 {
            Some(OpCode::Add)
        } else if word == 2 {
            Some(OpCode::Subtract)
        } else if word == 3 {
            Some(OpCode::Multiply)
        } else if word == 4 {
            Some(OpCode::Divide)
        } else if word == 5 {
            Some(OpCode::Negate)
        } else if word == 6 {
            Some(OpCode::SetVar)
        } else if word == 7 {
            Some(OpCode::GetVar)
        } else {
            None
        }
    }

    /// Whether the operation is followed by an operand word.
    pub open spec fn has_operand(self) -> bool {
        self is Constant || self is SetVar || self is GetVar
    }

    /// The operation that an instruction word stands for, if any.
    pub fn from_usize(byte: usize) -> (op: Option<OpCode>)
        ensures
            op == OpCode::decode(byte),
    {
        match byte {
            0 => Some(OpCode::Constant),
            1 => Some(OpCode::Add),
            2 => Some(OpCode::Subtract),
            3 => Some(OpCode::Multiply),
            4 => Some(OpCode::Divide),
            5 => Some(OpCode::Negate),
            6 => Some(OpCode::SetVar),
            7 => Some(OpCode::GetVar),
            _ => None,
        }
    }

    /// The instruction word that stands for this operation.
    pub fn to_usize(&self) -> (word: usize)
        ensures
            word == self.word(),
    {
        match self {
            OpCode::Constant => 0,
            OpCode::Add => 1,
            OpCode::Subtract => 2,
            OpCode::Multiply => 3,
            OpCode::Divide => 4,
            OpCode::Negate => 5,
            OpCode::SetVar => 6,
            OpCode::GetVar => 7,
        }
    }
}

/// Every operation is recovered from its instruction word, and every word
/// that decodes is the word of the operation it decodes to.
pub proof fn lemma_word_decode(op: OpCode, word: usize)
    ensures
        OpCode::decode(op.word()) == Some(op),
        OpCode::decode(word) matches Some(o) ==> o.word() == word,
        OpCode::decode(word) is Some <==> word < 8,
{
}

/// A number. The machine stores numbers and hands them on, and leaves every
/// computation on them to its host: a number is either a numeral as the
/// source text spells it, or the word in which the host has handed back the
/// outcome of an operation.
#[derive(Debug, PartialEq, Eq)]
pub enum Number {
    Literal(String),
    Computed(u64),
}

/// The mathematical value of a [`Number`].
pub enum SpecNumber {
    Literal(Seq<char>),
    Computed(u64),
}

impl View for Number {
    type V = SpecNumber;

    open spec fn view(&self) -> SpecNumber {
        match self {
            Number::Literal(numeral) => SpecNumber::Literal(numeral@),
            Number::Computed(word) => SpecNumber::Computed(*word),
        }
    }
}

impl Clone for Number {
    fn clone(&self) -> (copy: Self)
        ensures
            copy == *self,
    {
        match self {
            Number::Literal(numeral) => Number::Literal(numeral.clone()),
            Number::Computed(word) => Number::Computed(*word),
        }
    }
}

/// What the constant pool, the operand stack and the variables hold: a
/// number, or the name of a variable.
#[derive(Debug, PartialEq, Eq)]
pub enum Value {
    Number(Number),
    String(String),
}

/// The mathematical value of a [`Value`].
pub enum SpecValue {
    Number(SpecNumber),
    String(Seq<char>),
}

impl View for Value {
    type V = SpecValue;

    open spec fn view(&self) -> SpecValue {
        match self {
            Value::Number(number) => SpecValue::Number(number@),
            Value::String(name) => SpecValue::String(name@),
        }
    }
}

impl Clone for Value {
    fn clone(&self) -> (copy: Self)
        ensures
            copy == *self,
    {
        match self {
            Value::Number(number) => Value::Number(number.clone()),
            Value::String(name) => Value::String(name.clone()),
        }
    }
}

/// The values of a sequence of machine values, in order.
pub open spec fn spec_values(values: Seq<Value>) -> Seq<SpecValue> {
    Seq::new(values.len(), |i: int| values[i]@)
}

} // verus!
