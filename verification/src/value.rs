//! Values: what the machine's stack and globals hold.
//!
//! A number is an IEEE 754 binary64 value, held as its 64 bits: the sign in
//! the top bit, then eleven bits of exponent and fifty-two of fraction. Read
//! as integers, the bits of two numbers that are not NaN order as the numbers
//! do, once the sign is taken into account. Equality, order and negation are
//! defined on the bits here; the rest of arithmetic is the host's.

use vstd::prelude::*;
use vstd::string::StringSliceAdditionalSpecFns;
use crate::text::{copy_bytes, same_bytes};

verus! {

/// The top bit of a number: its sign.
pub const SIGN_BIT: u64 = 0x8000_0000_0000_0000;

/// The bits of positive infinity. A larger magnitude is a NaN.
pub const INFINITY_BITS: u64 = 0x7ff0_0000_0000_0000;

/// The bits of a number without its sign.
pub open spec fn magnitude(bits: u64) -> int {
    if bits >= SIGN_BIT { bits - SIGN_BIT } else { bits as int }
}

/// Whether the bits are those of a NaN.
pub open spec fn is_nan(bits: u64) -> bool {
    magnitude(bits) > INFINITY_BITS
}

/// An integer that orders the numbers that are not NaN as their values do.
/// Both zeros have the rank 0.
pub open spec fn rank(bits: u64) -> int {
    if bits >= SIGN_BIT { -magnitude(bits) } else { magnitude(bits) }
}

/// Equality of numbers: a NaN equals nothing, and the two zeros are equal.
pub open spec fn number_eq(a: u64, b: u64) -> bool {
    !is_nan(a) && !is_nan(b) && rank(a) == rank(b)
}

/// Order of numbers: nothing is less than a NaN, nor a NaN less than
/// anything.
pub open spec fn number_lt(a: u64, b: u64) -> bool {
    !is_nan(a) && !is_nan(b) && rank(a) < rank(b)
}

/// The number with the opposite sign.
pub open spec fn number_neg(bits: u64) -> u64 {
    if bits >= SIGN_BIT { (bits - SIGN_BIT) as u64 } else { (bits + SIGN_BIT) as u64 }
}

fn magnitude_of(bits: u64) -> (m: u64)
    ensures
        m == magnitude(bits),
{
    if bits >= SIGN_BIT { bits - SIGN_BIT } else { bits }
}

fn nan(bits: u64) -> (r: bool)
    ensures
        r == is_nan(bits),
{
    magnitude_of(bits) > INFINITY_BITS
}

/// Whether two numbers are equal.
pub fn numbers_equal(a: u64, b: u64) -> (r: bool)
    ensures
        r == number_eq(a, b),
{
    if nan(a) || nan(b) {
        false
    } else {
        a == b || (magnitude_of(a) == 0 && magnitude_of(b) == 0)
    }
}

/// Whether the number `a` is less than the number `b`.
pub fn number_less(a: u64, b: u64) -> (r: bool)
    ensures
        r == number_lt(a, b),
{
    if nan(a) || nan(b) {
        false
    } else if a >= SIGN_BIT {
        if b >= SIGN_BIT { magnitude_of(a) > magnitude_of(b) } else { magnitude_of(a) > 0 || b > 0 }
    } else {
        b < SIGN_BIT && a < b
    }
}

/// The number `bits` with its sign changed.
pub fn negate_number(bits: u64) -> (r: u64)
    ensures
        r == number_neg(bits),
{
    if bits >= SIGN_BIT { bits - SIGN_BIT } else { bits + SIGN_BIT }
}

/// A heap object. Strings are the only kind.
#[derive(Debug)]
pub enum Obj {
    String(Vec<u8>),
}

/// A value of the language.
#[derive(Debug)]
pub enum Value {
    Bool(bool),
    Nil,
    /// A number, as the bits of a binary64.
    Number(u64),
    Obj(Box<Obj>),
}

/// The mathematical value of a [`Value`].
pub enum ValueView {
    Bool(bool),
    Nil,
    Number(u64),
    String(Seq<u8>),
}

impl View for Obj {
    type V = Seq<u8>;

    open spec fn view(&self) -> Seq<u8> {
        match self {
            Obj::String(bytes) => bytes@,
        }
    }
}

impl View for Value {
    type V = ValueView;

    open spec fn view(&self) -> ValueView {
        match self {
            Value::Bool(b) => ValueView::Bool(*b),
            Value::Nil => ValueView::Nil,
            Value::Number(bits) => ValueView::Number(*bits),
            Value::Obj(obj) => ValueView::String(obj@),
        }
    }
}

/// `nil` and `false` are falsey; every other value is truthy.
pub open spec fn falsey(v: ValueView) -> bool {
    v == ValueView::Nil || v == ValueView::Bool(false)
}

/// Equality of values: values of different kinds are unequal, `nil` equals
/// `nil`, booleans and strings are equal when their contents are, numbers as
/// [`number_eq`] says.
pub open spec fn values_equal(a: ValueView, b: ValueView) -> bool {
    match (a, b) {
        (ValueView::Bool(x), ValueView::Bool(y)) => x == y,
        (ValueView::Nil, ValueView::Nil) => true,
        (ValueView::Number(x), ValueView::Number(y)) => number_eq(x, y),
        (ValueView::String(x), ValueView::String(y)) => x == y,
        _ => false,
    }
}

/// The text that `print` writes for a value that is not a number.
pub open spec fn text_of(v: ValueView) -> Seq<u8> {
    match v {
        ValueView::Bool(true) => "true".spec_bytes(),
        ValueView::Bool(false) => "false".spec_bytes(),
        ValueView::Nil => "nil".spec_bytes(),
        ValueView::Number(_) => Seq::empty(),
        ValueView::String(bytes) => bytes,
    }
}

impl Obj {
    /// The bytes of a string.
    pub fn as_bytes(&self) -> (bytes: &[u8])
        ensures
            bytes@ == self@,
    {
        match self {
            Obj::String(bytes) => bytes.as_slice(),
        }
    }

    /// The string itself, given up as its bytes.
    pub fn into_string(self) -> (bytes: Vec<u8>)
        ensures
            bytes@ == self@,
    {
        match self {
            Obj::String(bytes) => bytes,
        }
    }
}

impl Value {
    /// A string value holding a copy of `bytes`.
    pub fn string(bytes: &[u8]) -> (value: Value)
        ensures
            value@ == ValueView::String(bytes@),
    {
        Value::Obj(Box::new(Obj::String(copy_bytes(bytes))))
    }

    pub fn is_bool(&self) -> (r: bool)
        ensures
            r == (self@ is Bool),
    {
        match self {
            Value::Bool(_) => true,
            _ => false,
        }
    }

    pub fn is_nil(&self) -> (r: bool)
        ensures
            r == (self@ is Nil),
    {
        match self {
            Value::Nil => true,
            _ => false,
        }
    }

    pub fn is_number(&self) -> (r: bool)
        ensures
            r == (self@ is Number),
    {
        match self {
            Value::Number(_) => true,
            _ => false,
        }
    }

    pub fn is_obj(&self) -> (r: bool)
        ensures
            r == (self@ is String),
    {
        match self {
            Value::Obj(_) => true,
            _ => false,
        }
    }

    pub fn is_string(&self) -> (r: bool)
        ensures
            r == (self@ is String),
    {
        self.is_obj()
    }

    /// The boolean that the value is.
    pub fn as_bool(&self) -> (b: bool)
        requires
            self@ is Bool,
        ensures
            self@ == ValueView::Bool(b),
    {
        match self {
            Value::Bool(b) => *b,
            _ => false,
        }
    }

    /// The bits of the number that the value is.
    pub fn as_number(&self) -> (bits: u64)
        requires
            self@ is Number,
        ensures
            self@ == ValueView::Number(bits),
    {
        match self {
            Value::Number(bits) => *bits,
            _ => 0,
        }
    }

    /// The object that the value is, given up.
    pub fn into_obj(self) -> (obj: Obj)
        requires
            self@ is String,
        ensures
            self@ == ValueView::String(obj@),
    {
        match self {
            Value::Obj(obj) => *obj,
            _ => Obj::String(Vec::new()),
        }
    }

    pub fn is_falsey(&self) -> (r: bool)
        ensures
            r == falsey(self@),
    {
        self.is_nil() || (self.is_bool() && !self.as_bool())
    }

    /// Whether the two values are equal.
    pub fn equals(&self, other: &Value) -> (r: bool)
        ensures
            r == values_equal(self@, other@),
    {
        match self {
            Value::Bool(b) => other.is_bool() && *b == other.as_bool(),
            Value::Nil => other.is_nil(),
            Value::Number(n) => other.is_number() && numbers_equal(*n, other.as_number()),
            Value::Obj(a) => match other {
                Value::Obj(b) => same_bytes(a.as_bytes(), b.as_bytes()),
                _ => false,
            },
        }
    }

    /// Whether the number `self` is less than the number `other`.
    pub fn less(&self, other: &Value) -> (r: bool)
        requires
            self@ is Number,
            other@ is Number,
        ensures
            r == number_lt(self@->Number_0, other@->Number_0),
    {
        number_less(self.as_number(), other.as_number())
    }

    /// Whether the number `self` is greater than the number `other`.
    pub fn greater(&self, other: &Value) -> (r: bool)
        requires
            self@ is Number,
            other@ is Number,
        ensures
            r == number_lt(other@->Number_0, self@->Number_0),
    {
        number_less(other.as_number(), self.as_number())
    }

    /// The number `self` with its sign changed.
    pub fn neg(self) -> (r: Value)
        requires
            self@ is Number,
        ensures
            r@ == ValueView::Number(number_neg(self@->Number_0)),
    {
        Value::Number(negate_number(self.as_number()))
    }

    /// What `print` writes for the value, unless it is a number: a number's
    /// numeral is for the host to work out from its bits.
    pub fn text(&self) -> (text: Option<Vec<u8>>)
        ensures
            self@ is Number <==> text is None,
            text matches Some(bytes) ==> bytes@ == text_of(self@),
    {
        match self {
            Value::Bool(true) => Some(copy_bytes("true".as_bytes())),
            Value::Bool(false) => Some(copy_bytes("false".as_bytes())),
            Value::Nil => Some(copy_bytes("nil".as_bytes())),
            Value::Number(_) => None,
            Value::Obj(obj) => Some(copy_bytes(obj.as_bytes())),
        }
    }
}

impl Clone for Value {
    fn clone(&self) -> (value: Value)
        ensures
            value@ == self@,
    {
        match self {
            Value::Bool(b) => Value::Bool(*b),
            Value::Nil => Value::Nil,
            Value::Number(bits) => Value::Number(*bits),
            Value::Obj(obj) => Value::string(obj.as_bytes()),
        }
    }
}

/// Negating a truth value twice gives the truthiness of the value: the
/// falseness of the falseness of `v` is `true` exactly when `v` is truthy.
pub proof fn lemma_not_not(v: ValueView)
    ensures
        falsey(ValueView::Bool(falsey(v))) == !falsey(v),
{
}

/// Equality of values is symmetric.
pub proof fn lemma_values_equal_symmetric(a: ValueView, b: ValueView)
    ensures
        values_equal(a, b) == values_equal(b, a),
{
}

/// Changing the sign twice gives the number back.
pub proof fn lemma_neg_neg(bits: u64)
    ensures
        number_neg(number_neg(bits)) == bits,
{
}

/// On numbers that are not NaN, exactly one of less, equal and greater holds.
pub proof fn lemma_number_trichotomy(a: u64, b: u64)
    requires
        !is_nan(a),
        !is_nan(b),
    ensures
        number_lt(a, b) || number_eq(a, b) || number_lt(b, a),
        !(number_lt(a, b) && number_eq(a, b)),
        !(number_lt(a, b) && number_lt(b, a)),
        !(number_eq(a, b) && number_lt(b, a)),
{
}

} // verus!
