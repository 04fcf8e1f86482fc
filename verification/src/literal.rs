//! The value model of the engine: `LiteralValue` is the closed set of value
//! kinds a formula can produce, `Item` is the alphabet of the evaluation
//! stack, and `EvalError` is the closed set of ways an evaluation can fail.
//!
//! Every error is fatal to the cell being evaluated: the engine reports it as
//! a typed result instead of aborting, so callers can observe the kind.

use crate::strutil::{dec_str, int_str};
use vstd::prelude::*;

verus! {

/// A value produced during evaluation: plain text, an exact number used by
/// arithmetic, an unsigned integer, or an array of text pieces.
///
/// Arithmetic works on the `Num` variant, an exact signed 64-bit integer:
/// this engine performs no floating-point work, and division is only defined
/// where it is exact.
pub enum LiteralValue {
    Text(String),
    Num(i64),
    Int(usize),
    TextArray(Vec<String>),
}

/// One element of the evaluation stack: a resolved literal, an unresolved
/// identifier (a function name or a `@column` reference), an operator, or a
/// zone delimiter.
pub enum Item {
    Literal(LiteralValue),
    Token(String),
    Operator(char),
    ZoneStart(char),
    ZoneEnd(char),
}

/// Why an evaluation failed.  The kinds fall into three groups: malformed
/// expressions, reading a value as the wrong kind, and failed table lookups.
#[derive(Clone, Copy, PartialEq, Eq, Structural, Debug)]
pub enum EvalError {
    /// A character outside the formula alphabet, at this position of the body.
    UnknownSymbol { pos: usize },
    /// A zone end or end of input with no matching opening delimiter.
    UnmatchedZone,
    /// Operands without an operator or function, an operator without its
    /// operands, an unterminated text literal, or an empty expression.
    MalformedExpression,
    /// A value read as a kind it does not have.
    TypeMismatch,
    /// A reference names a column the table does not have.
    MissingColumn,
    /// A reference names a row the column does not have.
    MissingRow,
    /// A last-value reference into a column with no rows.
    EmptyColumn,
    /// A previous-row reference on row zero.
    RowZeroPrevious,
    /// An uppercase letter followed by neither a digit, `^` nor `^v`.
    UnsupportedReference,
    /// `split` called with a separator that is not exactly one character.
    SeparatorNotSingle,
    /// A number that does not fit the engine's integer range.
    NumberOverflow,
    DivisionByZero,
    /// A quotient that is not a whole number: this engine's arithmetic
    /// is exact.
    InexactDivision,
}

/// The mathematical shadow of `LiteralValue`.
#[verifier::ext_equal]
pub ghost enum LitV {
    Text(Seq<char>),
    Num(int),
    Int(nat),
    TextArray(Seq<Seq<char>>),
}

/// The mathematical shadow of `Item`.
#[verifier::ext_equal]
pub ghost enum ItemV {
    Literal(LitV),
    Token(Seq<char>),
    Operator(char),
    ZoneStart(char),
    ZoneEnd(char),
}

impl View for LiteralValue {
    type V = LitV;

    open spec fn view(&self) -> LitV {
        match self {
            LiteralValue::Text(s) => LitV::Text(s@),
            LiteralValue::Num(n) => LitV::Num(*n as int),
            LiteralValue::Int(n) => LitV::Int(*n as nat),
            LiteralValue::TextArray(v) => LitV::TextArray(v.deep_view()),
        }
    }
}

impl DeepView for LiteralValue {
    type V = LitV;

    open spec fn deep_view(&self) -> LitV {
        self.view()
    }
}

impl View for Item {
    type V = ItemV;

    open spec fn view(&self) -> ItemV {
        match self {
            Item::Literal(v) => ItemV::Literal(v@),
            Item::Token(s) => ItemV::Token(s@),
            Item::Operator(c) => ItemV::Operator(*c),
            Item::ZoneStart(c) => ItemV::ZoneStart(*c),
            Item::ZoneEnd(c) => ItemV::ZoneEnd(*c),
        }
    }
}

impl DeepView for Item {
    type V = ItemV;

    open spec fn deep_view(&self) -> ItemV {
        self.view()
    }
}

/// The text form of a literal: text itself, numbers in decimal.  A text
/// array has no text form.
pub open spec fn lit_text(v: LitV) -> Result<Seq<char>, EvalError> {
    match v {
        LitV::Text(s) => Ok(s),
        LitV::Int(n) => Ok(dec_str(n)),
        LitV::Num(i) => Ok(int_str(i)),
        LitV::TextArray(a) => Err(EvalError::TypeMismatch),
    }
}

impl LiteralValue {
    /// The text form of this literal, as `lit_text` states it.
    pub fn to_text(&self) -> (r: Result<String, EvalError>)
        ensures
            match r {
                Ok(s) => lit_text(self@) == Ok::<Seq<char>, EvalError>(s@),
                Err(e) => lit_text(self@) == Err::<Seq<char>, EvalError>(e),
            },
    {
        match self {
            LiteralValue::Text(s) => Ok(s.clone()),
            LiteralValue::Int(n) => Ok(crate::strutil::usize_to_string(*n)),
            LiteralValue::Num(i) => Ok(crate::strutil::i64_to_string(*i)),
            LiteralValue::TextArray(_) => Err(EvalError::TypeMismatch),
        }
    }

    /// The text pieces of a `TextArray` literal.
    pub fn get_text_array(&self) -> (r: Result<&Vec<String>, EvalError>)
        ensures
            match r {
                Ok(v) => self@ == LitV::TextArray(v.deep_view()),
                Err(e) => e == EvalError::TypeMismatch && !(self@ is TextArray),
            },
    {
        match self {
            LiteralValue::TextArray(v) => Ok(v),
            _ => Err(EvalError::TypeMismatch),
        }
    }

    /// The unsigned-integer value of an `Int` literal.
    pub fn get_int(&self) -> (r: Result<usize, EvalError>)
        ensures
            match r {
                Ok(n) => self@ == LitV::Int(n as nat),
                Err(e) => e == EvalError::TypeMismatch && !(self@ is Int),
            },
    {
        match self {
            LiteralValue::Int(n) => Ok(*n),
            _ => Err(EvalError::TypeMismatch),
        }
    }

    /// The numeric value of a `Num` literal.
    pub fn get_num(&self) -> (r: Result<i64, EvalError>)
        ensures
            match r {
                Ok(n) => self@ == LitV::Num(n as int),
                Err(e) => e == EvalError::TypeMismatch && !(self@ is Num),
            },
    {
        match self {
            LiteralValue::Num(n) => Ok(*n),
            _ => Err(EvalError::TypeMismatch),
        }
    }
}

impl Item {
    /// Wraps text as a literal stack item.
    pub fn conduct_string_literal(val: String) -> (r: Item)
        ensures
            r@ == ItemV::Literal(LitV::Text(val@)),
    {
        Item::Literal(Item::conduct_str_literal_value(val))
    }

    /// Wraps a number as a literal stack item.
    pub fn conduct_num_literal(val: i64) -> (r: Item)
        ensures
            r@ == ItemV::Literal(LitV::Num(val as int)),
    {
        Item::Literal(Item::conduct_num_literal_value(val))
    }

    /// Wraps an unsigned integer as a literal stack item.
    pub fn conduct_int_literal(val: usize) -> (r: Item)
        ensures
            r@ == ItemV::Literal(LitV::Int(val as nat)),
    {
        Item::Literal(Item::conduct_int_literal_value(val))
    }

    pub fn conduct_int_literal_value(val: usize) -> (r: LiteralValue)
        ensures
            r@ == LitV::Int(val as nat),
    {
        LiteralValue::Int(val)
    }

    pub fn conduct_num_literal_value(val: i64) -> (r: LiteralValue)
        ensures
            r@ == LitV::Num(val as int),
    {
        LiteralValue::Num(val)
    }

    pub fn conduct_str_literal_value(val: String) -> (r: LiteralValue)
        ensures
            r@ == LitV::Text(val@),
    {
        LiteralValue::Text(val)
    }

    /// The unsigned-integer value of an `Int` literal item.
    pub fn get_literal_as_number(&self) -> (r: Result<usize, EvalError>)
        ensures
            match r {
                Ok(n) => self@ == ItemV::Literal(LitV::Int(n as nat)),
                Err(e) => e == EvalError::TypeMismatch && (forall|n: nat|
                    self@ != ItemV::Literal(LitV::Int(n))),
            },
    {
        match self {
            Item::Literal(v) => v.get_int(),
            _ => Err(EvalError::TypeMismatch),
        }
    }

    /// The delimiter character of a `ZoneEnd` item.
    pub fn get_end_zone_character(&self) -> (r: Result<char, EvalError>)
        ensures
            match r {
                Ok(c) => self@ == ItemV::ZoneEnd(c),
                Err(e) => e == EvalError::TypeMismatch && !(self@ is ZoneEnd),
            },
    {
        match self {
            Item::ZoneEnd(c) => Ok(*c),
            _ => Err(EvalError::TypeMismatch),
        }
    }

    /// The character of an `Operator` item.
    pub fn get_as_operator(&self) -> (r: Result<char, EvalError>)
        ensures
            match r {
                Ok(c) => self@ == ItemV::Operator(c),
                Err(e) => e == EvalError::TypeMismatch && !(self@ is Operator),
            },
    {
        match self {
            Item::Operator(c) => Ok(*c),
            _ => Err(EvalError::TypeMismatch),
        }
    }

    /// The text of a `Text` literal item.
    pub fn get_literal_as_text(&self) -> (r: Result<String, EvalError>)
        ensures
            match r {
                Ok(s) => self@ == ItemV::Literal(LitV::Text(s@)),
                Err(e) => e == EvalError::TypeMismatch && (forall|t: Seq<char>|
                    self@ != ItemV::Literal(LitV::Text(t))),
            },
    {
        match self {
            Item::Literal(LiteralValue::Text(s)) => Ok(s.clone()),
            _ => Err(EvalError::TypeMismatch),
        }
    }

    /// The literal a `Literal` item holds.
    pub fn get_literal(&self) -> (r: Result<&LiteralValue, EvalError>)
        ensures
            match r {
                Ok(v) => self@ == ItemV::Literal(v@),
                Err(e) => e == EvalError::TypeMismatch && !(self@ is Literal),
            },
    {
        match self {
            Item::Literal(v) => Ok(v),
            _ => Err(EvalError::TypeMismatch),
        }
    }

    /// The text of a `Token` item.
    pub fn get_token(&self) -> (r: Result<String, EvalError>)
        ensures
            match r {
                Ok(s) => self@ == ItemV::Token(s@),
                Err(e) => e == EvalError::TypeMismatch && !(self@ is Token),
            },
    {
        match self {
            Item::Token(s) => Ok(s.clone()),
            _ => Err(EvalError::TypeMismatch),
        }
    }

    /// Checks that this item opens a zone with exactly `char_value`.
    pub fn expect_start_of(&self, char_value: char) -> (r: Result<(), EvalError>)
        ensures
            match r {
                Ok(_) => self@ == ItemV::ZoneStart(char_value),
                Err(e) => self@ != ItemV::ZoneStart(char_value) && (if self@ is ZoneStart {
                    e == EvalError::MalformedExpression
                } else {
                    e == EvalError::TypeMismatch
                }),
            },
    {
        match self {
            Item::ZoneStart(c) => {
                if *c == char_value {
                    Ok(())
                } else {
                    Err(EvalError::MalformedExpression)
                }
            },
            _ => Err(EvalError::TypeMismatch),
        }
    }
}

} // verus!
