//! The tagged value held by columns and compared by queries.

use vstd::prelude::*;
use vstd::utf8::encode_utf8;

verus! {

/// The type a column is declared with, which is also the tag of a value.
#[derive(Clone, Copy, Debug, PartialEq, Eq, Structural, Hash)]
pub enum ValueType {
    Null,
    Integer,
    Float,
    Text,
    Foreign,
}

/// A value of one of five kinds.
///
/// `Float` holds the bit pattern of an IEEE-754 binary64 number. A query
/// compares two floats as numbers: that is what [`Value::equals`],
/// [`Value::less_than`] and [`Value::at_most`] do. The operator `==` does not:
/// it compares what is held, so that to it the two zeros differ and a NaN
/// equals itself.
/// `Foreign` holds the id of the row referred to, `0` standing for no row.
#[derive(Debug, PartialEq)]
pub enum Value {
    Null,
    Integer(i64),
    Float(u64),
    Text(String),
    Foreign(i64),
}

/// The mathematical content of a [`Value`].
pub enum ValueView {
    Null,
    Integer(i64),
    Float(u64),
    Text(Seq<char>),
    Foreign(i64),
}

impl View for Value {
    type V = ValueView;

    open spec fn view(&self) -> ValueView {
        match *self {
            Value::Null => ValueView::Null,
            Value::Integer(n) => ValueView::Integer(n),
            Value::Float(bits) => ValueView::Float(bits),
            Value::Text(s) => ValueView::Text(s@),
            Value::Foreign(id) => ValueView::Foreign(id),
        }
    }
}

impl ValueView {
    /// The tag of the value.
    pub open spec fn tag(self) -> ValueType {
        match self {
            ValueView::Null => ValueType::Null,
            ValueView::Integer(_) => ValueType::Integer,
            ValueView::Float(_) => ValueType::Float,
            ValueView::Text(_) => ValueType::Text,
            ValueView::Foreign(_) => ValueType::Foreign,
        }
    }

    /// Whether the value is a reference to the row `target`, which is not `0`.
    pub open spec fn refers_to(self, target: i64) -> bool {
        target != 0 && self == ValueView::Foreign(target)
    }
}

/// The views of a sequence of values, position by position.
pub open spec fn values_view(values: Seq<Value>) -> Seq<ValueView> {
    values.map_values(|v: Value| v@)
}

/// The sign bit of a binary64 pattern.
pub const FLOAT_SIGN_BIT: u64 = 0x8000_0000_0000_0000;

/// The pattern of positive infinity: every magnitude above it is a NaN.
pub const FLOAT_INFINITY: u64 = 0x7ff0_0000_0000_0000;

/// The pattern without its sign bit.
pub open spec fn float_magnitude(bits: u64) -> int {
    if bits >= FLOAT_SIGN_BIT {
        bits - FLOAT_SIGN_BIT
    } else {
        bits as int
    }
}

/// Whether the pattern is one of a NaN.
pub open spec fn float_is_nan(bits: u64) -> bool {
    float_magnitude(bits) > FLOAT_INFINITY
}

/// An integer that orders the numbers which are not NaN as IEEE-754 does: the
/// magnitude for a positive number, its negation for a negative one, so that
/// both zeros have rank `0`.
pub open spec fn float_rank(bits: u64) -> int {
    if bits >= FLOAT_SIGN_BIT {
        -float_magnitude(bits)
    } else {
        float_magnitude(bits)
    }
}

/// Whether `a` comes strictly before `b` in the lexicographic order of bytes:
/// at the first position where they part, `a` has ended or holds the smaller
/// byte.
pub open spec fn bytes_before(a: Seq<u8>, b: Seq<u8>) -> bool {
    exists|k: int|
        0 <= k <= a.len() && k < b.len() && a.subrange(0, k) == b.subrange(0, k) && (k == a.len()
            || a[k] < b[k])
}

/// Equality as a query sees it: the same variant with equal payloads. Two
/// floats are equal when neither is a NaN and they are the same number.
pub open spec fn value_eq(a: ValueView, b: ValueView) -> bool {
    match (a, b) {
        (ValueView::Float(x), ValueView::Float(y)) => !float_is_nan(x) && !float_is_nan(y)
            && float_rank(x) == float_rank(y),
        _ => a == b,
    }
}

/// Strict order within one variant. Integers and references go by their
/// number, floats by theirs (a NaN is before nothing and nothing is before it),
/// texts by their UTF-8 bytes; a null is not before a null.
pub open spec fn value_lt(a: ValueView, b: ValueView) -> bool
    recommends
        a.tag() == b.tag(),
{
    match (a, b) {
        (ValueView::Integer(x), ValueView::Integer(y)) => x < y,
        (ValueView::Float(x), ValueView::Float(y)) => !float_is_nan(x) && !float_is_nan(y)
            && float_rank(x) < float_rank(y),
        (ValueView::Text(x), ValueView::Text(y)) => bytes_before(encode_utf8(x), encode_utf8(y)),
        (ValueView::Foreign(x), ValueView::Foreign(y)) => x < y,
        _ => false,
    }
}

/// The order that admits equality: before, or equal as a query sees it.
pub open spec fn value_le(a: ValueView, b: ValueView) -> bool
    recommends
        a.tag() == b.tag(),
{
    value_lt(a, b) || value_eq(a, b)
}

/// The rank of a float that is not a NaN.
fn rank_of(bits: u64) -> (rank: i64)
    requires
        !float_is_nan(bits),
    ensures
        rank == float_rank(bits),
{
    if bits >= FLOAT_SIGN_BIT {
        let magnitude: u64 = bits - FLOAT_SIGN_BIT;
        -(magnitude as i64)
    } else {
        bits as i64
    }
}

/// Whether the pattern is one of a NaN.
fn is_nan(bits: u64) -> (nan: bool)
    ensures
        nan == float_is_nan(bits),
{
    if bits >= FLOAT_SIGN_BIT {
        bits - FLOAT_SIGN_BIT > FLOAT_INFINITY
    } else {
        bits > FLOAT_INFINITY
    }
}

/// Lexicographic comparison of two byte strings.
fn slice_before(a: &[u8], b: &[u8]) -> (before: bool)
    ensures
        before == bytes_before(a@, b@),
{
    let mut i: usize = 0;
    while i < a.len() && i < b.len()
        invariant
            i <= a.len(),
            i <= b.len(),
            a@.subrange(0, i as int) == b@.subrange(0, i as int),
        decreases a.len() - i,
    {
        if a[i] != b[i] {
            let before = a[i] < b[i];
            proof {
                if !before {
                    assert forall|k: int|
                        !(0 <= k <= a@.len() && k < b@.len() && a@.subrange(0, k) == b@.subrange(
                            0,
                            k,
                        ) && (k == a@.len() || a@[k] < b@[k])) by {
                        if i < k <= a@.len() && k < b@.len() {
                            assert(a@.subrange(0, k)[i as int] == a@[i as int]);
                            assert(b@.subrange(0, k)[i as int] == b@[i as int]);
                        } else if 0 <= k < i {
                            assert(a@.subrange(0, i as int)[k] == a@[k]);
                            assert(b@.subrange(0, i as int)[k] == b@[k]);
                        }
                    }
                }
            }
            return before;
        }
        proof {
            assert(a@.subrange(0, i + 1) =~= a@.subrange(0, i as int).push(a@[i as int]));
            assert(b@.subrange(0, i + 1) =~= b@.subrange(0, i as int).push(b@[i as int]));
        }
        i = i + 1;
    }
    proof {
        if i < b@.len() {
            assert(i == a@.len());
        } else {
            assert forall|k: int|
                !(0 <= k <= a@.len() && k < b@.len() && a@.subrange(0, k) == b@.subrange(0, k) && (k
                    == a@.len() || a@[k] < b@[k])) by {
                if 0 <= k < b@.len() && k < a@.len() {
                    assert(a@.subrange(0, i as int)[k] == a@[k]);
                    assert(b@.subrange(0, i as int)[k] == b@[k]);
                }
            }
        }
    }
    i < b.len()
}

impl Clone for Value {
    fn clone(&self) -> (copy: Self)
        ensures
            copy == *self,
    {
        match self {
            Value::Null => Value::Null,
            Value::Integer(n) => Value::Integer(*n),
            Value::Float(bits) => Value::Float(*bits),
            Value::Text(s) => Value::Text(s.clone()),
            Value::Foreign(id) => Value::Foreign(*id),
        }
    }
}

impl Value {
    /// The tag of the value.
    pub fn type_tag(&self) -> (tag: ValueType)
        ensures
            tag == self@.tag(),
    {
        match self {
            Value::Null => ValueType::Null,
            Value::Integer(_) => ValueType::Integer,
            Value::Float(_) => ValueType::Float,
            Value::Text(_) => ValueType::Text,
            Value::Foreign(_) => ValueType::Foreign,
        }
    }

    /// Equality as a query sees it.
    pub fn equals(&self, other: &Value) -> (equal: bool)
        ensures
            equal == value_eq(self@, other@),
    {
        match (self, other) {
            (Value::Null, Value::Null) => true,
            (Value::Integer(x), Value::Integer(y)) => *x == *y,
            (Value::Float(x), Value::Float(y)) => !is_nan(*x) && !is_nan(*y) && rank_of(*x)
                == rank_of(*y),
            (Value::Text(x), Value::Text(y)) => *x == *y,
            (Value::Foreign(x), Value::Foreign(y)) => *x == *y,
            _ => false,
        }
    }

    /// Whether the value comes strictly before `other`, of the same variant.
    pub fn less_than(&self, other: &Value) -> (before: bool)
        requires
            self@.tag() == other@.tag(),
        ensures
            before == value_lt(self@, other@),
    {
        match (self, other) {
            (Value::Integer(x), Value::Integer(y)) => *x < *y,
            (Value::Float(x), Value::Float(y)) => !is_nan(*x) && !is_nan(*y) && rank_of(*x)
                < rank_of(*y),
            (Value::Text(x), Value::Text(y)) => slice_before(
                x.as_str().as_bytes(),
                y.as_str().as_bytes(),
            ),
            (Value::Foreign(x), Value::Foreign(y)) => *x < *y,
            _ => false,
        }
    }

    /// Whether the value comes before `other`, of the same variant, or equals it.
    pub fn at_most(&self, other: &Value) -> (holds: bool)
        requires
            self@.tag() == other@.tag(),
        ensures
            holds == value_le(self@, other@),
    {
        self.less_than(other) || self.equals(other)
    }
}

} // verus!
