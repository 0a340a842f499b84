//! Runtime values and pools of them.
//!
//! A value is a number or the unit value. A number is held as the 64 bits of
//! its IEEE 754 double-precision encoding; what the library needs of the
//! number itself, its text or a comparison, it asks of a function of the host.

use vstd::prelude::*;
use vstd::string::*;

verus! {

/// What a value holds. A number is held as the 64 bits of its IEEE 754
/// double-precision encoding.
#[derive(Debug, Clone, Copy, PartialEq, Eq, Structural)]
pub enum DataType {
    Float(u64),
    Unit,
}

/// A runtime value. `==` on values compares the encodings: two numbers are
/// equal when their bits are.
#[derive(Debug, Clone, Copy, PartialEq, Eq, Structural)]
pub struct Value {
    pub data: DataType,
}

/// What a value that is no number answers where a number is asked of it.
#[derive(Debug, Clone, Copy, PartialEq, Eq, Structural)]
pub struct TypeError;

/// The number of decimal places that `compare_values` asks the host to keep.
pub const DECIMAL_PLACES: u8 = 10;

/// The sign bit of an encoding.
pub const SIGN_BIT: u64 = 0x8000_0000_0000_0000;

/// The text of the unit value.
pub open spec fn unit_text() -> Seq<char> {
    seq!['u', 'n', 'i', 't']
}

/// The encoding of the negation of the number that `bits` encodes: the same
/// bits with the sign flipped.
pub open spec fn negated(bits: u64) -> u64 {
    bits ^ SIGN_BIT
}

/// What gives the text of each number, by its encoding.
pub type NumberText = spec_fn(u64) -> Seq<char>;

/// What gives one and the same text for every number.
pub open spec fn always(text: Seq<char>) -> NumberText {
    |bits: u64| text
}

/// What gives the empty text for every number.
pub open spec fn silent() -> NumberText {
    always(Seq::<char>::empty())
}

/// `show` can be called on every encoding.
pub open spec fn shows_all<S: Fn(u64) -> String>(show: S) -> bool {
    forall|bits: u64| #[trigger] show.requires((bits,))
}

/// `text` gives, for every encoding, the characters that `show` returns for it.
pub open spec fn renders<S: Fn(u64) -> String>(show: S, text: NumberText) -> bool {
    forall|bits: u64, out: String| #[trigger] show.ensures((bits,), out) ==> out@ == text(bits)
}

/// `out` is a text that `show` can return for the number with the encoding
/// `bits`.
pub open spec fn gives<S: Fn(u64) -> String>(show: S, bits: u64, out: Seq<char>) -> bool {
    exists|shown: String| #[trigger] show.ensures((bits,), shown) && shown@ == out
}

/// `out` is a text of the value: for a number one that `show` can return for
/// its encoding, for the unit value its own.
pub open spec fn shows<S: Fn(u64) -> String>(show: S, value: Value, out: Seq<char>) -> bool {
    match value.data {
        DataType::Float(bits) => gives(show, bits, out),
        DataType::Unit => out == unit_text(),
    }
}

impl Value {
    /// The number whose encoding is `bits`.
    pub open spec fn number(bits: u64) -> Value {
        Value { data: DataType::Float(bits) }
    }

    /// The unit value.
    pub open spec fn nothing() -> Value {
        Value { data: DataType::Unit }
    }

    /// The encoding of a number.
    pub open spec fn bits(self) -> u64
        recommends
            self.data is Float,
    {
        self.data->Float_0
    }

    /// The text of a value, where `text` gives the text of each number.
    pub open spec fn text(self, text: NumberText) -> Seq<char> {
        match self.data {
            DataType::Float(bits) => text(bits),
            DataType::Unit => unit_text(),
        }
    }

    /// Creates the number with the given encoding.
    pub fn float(val: u64) -> (value: Self)
        ensures
            value == Value::number(val),
    {
        Value { data: DataType::Float(val) }
    }

    /// Returns true if the value is a number.
    pub fn is_float(&self) -> (yes: bool)
        ensures
            yes == (self.data is Float),
    {
        match self.data {
            DataType::Float(_) => true,
            _ => false,
        }
    }

    /// Applies `map` to the encoding of a number and returns the number that it
    /// gives. A value that is no number is a type error.
    pub fn map_float<F>(&self, map: F) -> (mapped: Result<Value, TypeError>) where
        F: Fn(u64) -> u64,

        requires
            self.data is Float ==> map.requires((self.bits(),)),
        ensures
            self.data is Float ==> (mapped matches Ok(value) && value.data is Float
                && map.ensures((self.bits(),), value.bits())),
            !(self.data is Float) ==> mapped is Err,
    {
        match self.data {
            DataType::Float(val) => Ok(Value::float(map(val))),
            DataType::Unit => Err(TypeError),
        }
    }

    /// The encoding of a number. A value that is no number is a type error.
    pub fn as_float(&self) -> (val: Result<u64, TypeError>)
        ensures
            self.data is Float ==> val == Ok::<u64, TypeError>(self.bits()),
            !(self.data is Float) ==> val is Err,
    {
        match self.data {
            DataType::Float(val) => Ok(val),
            DataType::Unit => Err(TypeError),
        }
    }

    /// Creates the unit value.
    pub fn unit() -> (value: Self)
        ensures
            value == Value::nothing(),
    {
        Value { data: DataType::Unit }
    }

    /// Returns true if the value is the unit value.
    pub fn is_unit(&self) -> (yes: bool)
        ensures
            yes == (self.data is Unit),
    {
        match self.data {
            DataType::Unit => true,
            _ => false,
        }
    }

    /// Whether two values are equal. Two numbers are handed to `same`, with the
    /// number of decimal places to keep, and are equal when it says so; the
    /// unit value equals itself; a number never equals the unit value.
    pub fn compare_values<C>(a: Value, b: Value, same: C) -> (equal: bool) where
        C: Fn(u64, u64, u8) -> bool,
        requires
            a.data is Float && b.data is Float ==> same.requires(
                (a.bits(), b.bits(), DECIMAL_PLACES),
            ),
        ensures
            a.data is Float && b.data is Float ==> same.ensures(
                (a.bits(), b.bits(), DECIMAL_PLACES),
                equal,
            ),
            a.data is Unit && b.data is Unit ==> equal,
            (a.data is Float) != (b.data is Float) ==> !equal,
    {
        match (a.data, b.data) {
            (DataType::Float(x), DataType::Float(y)) => same(x, y, DECIMAL_PLACES),
            (DataType::Unit, DataType::Unit) => true,
            _ => false,
        }
    }

    /// The text of a value: what `show` returns for a number, `unit` for the
    /// unit value.
    pub fn to_text<S>(&self, show: &S) -> (out: String) where S: Fn(u64) -> String
        requires
            self.data is Float ==> show.requires((self.bits(),)),
        ensures
            self.data is Float ==> show.ensures((self.bits(),), out),
            self.data is Unit ==> out@ == unit_text(),
            shows(*show, *self, out@),
    {
        match self.data {
            DataType::Float(bits) => show(bits),
            DataType::Unit => {
                proof {
                    reveal_strlit("unit");
                    assert("unit"@ =~= unit_text());
                }
                String::from_str("unit")
            },
        }
    }
}

/// Flips the sign bit of an encoding.
pub fn flip_sign(bits: u64) -> (flipped: u64)
    ensures
        flipped == negated(bits),
{
    bits ^ SIGN_BIT
}

/// A pool of values, each found again under the index at which it was written.
#[derive(Debug)]
pub struct ValueArray(Vec<Value>);

impl View for ValueArray {
    type V = Seq<Value>;

    closed spec fn view(&self) -> Seq<Value> {
        self.0@
    }
}

impl Default for ValueArray {
    fn default() -> (pool: Self)
        ensures
            pool@ == Seq::<Value>::empty(),
    {
        ValueArray::new()
    }
}

impl ValueArray {
    /// The pool has a length that the machine can count.
    pub proof fn lemma_length_fits(&self)
        ensures
            self@.len() <= usize::MAX,
    {
        assert(self.0@.len() == self.0.len());
    }

    /// The empty pool.
    pub fn new() -> (pool: Self)
        ensures
            pool@ == Seq::<Value>::empty(),
    {
        ValueArray(Vec::new())
    }

    /// Appends a value and returns its index.
    pub fn write_value(&mut self, value: Value) -> (index: usize)
        ensures
            final(self)@ == old(self)@.push(value),
            index == old(self)@.len(),
    {
        self.0.push(value);
        self.0.len() - 1
    }

    /// The value at an index, if there is one.
    pub fn get_constant(&self, constant_index: usize) -> (value: Option<Value>)
        ensures
            value == (if constant_index < self@.len() {
                Some(self@[constant_index as int])
            } else {
                None
            }),
    {
        if constant_index < self.0.len() {
            Some(self.0[constant_index])
        } else {
            None
        }
    }

    /// The number of values in the pool.
    pub fn get_size(&self) -> (size: usize)
        ensures
            size == self@.len(),
    {
        self.0.len()
    }
}

} // verus!
