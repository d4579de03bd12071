//! Metadata values.

use vstd::prelude::*;

use crate::ieee;

verus! {

/// A scalar or array metadata value.
///
/// Floating-point scalars are held as their IEEE 754 bit patterns.
#[derive(Debug)]
pub enum Value {
    U8(u8),
    I8(i8),
    U16(u16),
    I16(i16),
    U32(u32),
    I32(i32),
    /// The bit pattern of a binary32 number.
    F32(u32),
    Bool(bool),
    String(String),
    U64(u64),
    I64(i64),
    /// The bit pattern of a binary64 number.
    F64(u64),
    Array(Array),
}

/// A homogeneous metadata array (GGUF arrays cannot nest).
#[derive(Debug)]
pub enum Array {
    U8(Vec<u8>),
    I8(Vec<i8>),
    U16(Vec<u16>),
    I16(Vec<i16>),
    U32(Vec<u32>),
    I32(Vec<i32>),
    /// Bit patterns of binary32 numbers.
    F32(Vec<u32>),
    Bool(Vec<bool>),
    String(Vec<String>),
    U64(Vec<u64>),
    I64(Vec<i64>),
    /// Bit patterns of binary64 numbers.
    F64(Vec<u64>),
}

/// What a [`Value`] stands for.
#[verifier::ext_equal]
pub enum ValueView {
    U8(u8),
    I8(i8),
    U16(u16),
    I16(i16),
    U32(u32),
    I32(i32),
    F32(u32),
    Bool(bool),
    String(Seq<char>),
    U64(u64),
    I64(i64),
    F64(u64),
    Array(ArrayView),
}

/// What an [`Array`] stands for.
#[verifier::ext_equal]
pub enum ArrayView {
    U8(Seq<u8>),
    I8(Seq<i8>),
    U16(Seq<u16>),
    I16(Seq<i16>),
    U32(Seq<u32>),
    I32(Seq<i32>),
    F32(Seq<u32>),
    Bool(Seq<bool>),
    String(Seq<Seq<char>>),
    U64(Seq<u64>),
    I64(Seq<i64>),
    F64(Seq<u64>),
}

/// The views of the items of a sequence.
pub open spec fn views<E: View>(s: Seq<E>) -> Seq<E::V> {
    Seq::new(s.len(), |i: int| s[i]@)
}

impl View for Array {
    type V = ArrayView;

    open spec fn view(&self) -> ArrayView {
        match self {
            Array::U8(v) => ArrayView::U8(v@),
            Array::I8(v) => ArrayView::I8(v@),
            Array::U16(v) => ArrayView::U16(v@),
            Array::I16(v) => ArrayView::I16(v@),
            Array::U32(v) => ArrayView::U32(v@),
            Array::I32(v) => ArrayView::I32(v@),
            Array::F32(v) => ArrayView::F32(v@),
            Array::Bool(v) => ArrayView::Bool(v@),
            Array::String(v) => ArrayView::String(views(v@)),
            Array::U64(v) => ArrayView::U64(v@),
            Array::I64(v) => ArrayView::I64(v@),
            Array::F64(v) => ArrayView::F64(v@),
        }
    }
}

impl View for Value {
    type V = ValueView;

    open spec fn view(&self) -> ValueView {
        match self {
            Value::U8(v) => ValueView::U8(*v),
            Value::I8(v) => ValueView::I8(*v),
            Value::U16(v) => ValueView::U16(*v),
            Value::I16(v) => ValueView::I16(*v),
            Value::U32(v) => ValueView::U32(*v),
            Value::I32(v) => ValueView::I32(*v),
            Value::F32(v) => ValueView::F32(*v),
            Value::Bool(v) => ValueView::Bool(*v),
            Value::String(v) => ValueView::String(v@),
            Value::U64(v) => ValueView::U64(*v),
            Value::I64(v) => ValueView::I64(*v),
            Value::F64(v) => ValueView::F64(*v),
            Value::Array(v) => ValueView::Array(v@),
        }
    }
}

impl ArrayView {
    /// Number of elements.
    pub open spec fn count(self) -> nat {
        match self {
            ArrayView::U8(v) => v.len(),
            ArrayView::I8(v) => v.len(),
            ArrayView::U16(v) => v.len(),
            ArrayView::I16(v) => v.len(),
            ArrayView::U32(v) => v.len(),
            ArrayView::I32(v) => v.len(),
            ArrayView::F32(v) => v.len(),
            ArrayView::Bool(v) => v.len(),
            ArrayView::String(v) => v.len(),
            ArrayView::U64(v) => v.len(),
            ArrayView::I64(v) => v.len(),
            ArrayView::F64(v) => v.len(),
        }
    }
}

impl ValueView {
    /// The number that an integer scalar, or a flag read as 0 or 1, stands for.
    pub open spec fn integer(self) -> Option<int> {
        match self {
            ValueView::U8(v) => Some(v as int),
            ValueView::I8(v) => Some(v as int),
            ValueView::U16(v) => Some(v as int),
            ValueView::I16(v) => Some(v as int),
            ValueView::U32(v) => Some(v as int),
            ValueView::I32(v) => Some(v as int),
            ValueView::U64(v) => Some(v as int),
            ValueView::I64(v) => Some(v as int),
            ValueView::Bool(v) => Some(if v { 1 } else { 0 }),
            _ => None,
        }
    }

    /// The integer that this value stands for, if it is one and not negative.
    pub open spec fn unsigned(self) -> Option<u64> {
        match self.integer() {
            Some(n) => if n >= 0 {
                Some(n as u64)
            } else {
                None
            },
            None => None,
        }
    }

    /// `wide` is the binary64 pattern of the number that a floating-point scalar
    /// stands for.
    pub open spec fn float(self, wide: u64) -> bool {
        match self {
            ValueView::F32(v) => ieee::widens_to_binary64(v, wide),
            ValueView::F64(v) => v == wide,
            _ => false,
        }
    }

    /// The text of a string value.
    pub open spec fn text(self) -> Option<Seq<char>> {
        match self {
            ValueView::String(s) => Some(s),
            _ => None,
        }
    }
}

impl Array {
    /// Number of elements, regardless of element type.
    pub fn len(&self) -> (r: usize)
        ensures
            r == self@.count(),
            r == match *self {
                Array::U8(v) => v@.len(),
                Array::I8(v) => v@.len(),
                Array::U16(v) => v@.len(),
                Array::I16(v) => v@.len(),
                Array::U32(v) => v@.len(),
                Array::I32(v) => v@.len(),
                Array::F32(v) => v@.len(),
                Array::Bool(v) => v@.len(),
                Array::String(v) => v@.len(),
                Array::U64(v) => v@.len(),
                Array::I64(v) => v@.len(),
                Array::F64(v) => v@.len(),
            },
    {
        match self {
            Array::U8(v) => v.len(),
            Array::I8(v) => v.len(),
            Array::U16(v) => v.len(),
            Array::I16(v) => v.len(),
            Array::U32(v) => v.len(),
            Array::I32(v) => v.len(),
            Array::F32(v) => v.len(),
            Array::Bool(v) => v.len(),
            Array::String(v) => v.len(),
            Array::U64(v) => v.len(),
            Array::I64(v) => v.len(),
            Array::F64(v) => v.len(),
        }
    }

    /// True if there are no elements.
    pub fn is_empty(&self) -> (r: bool)
        ensures
            r == (self@.count() == 0),
    {
        self.len() == 0
    }
}

impl Value {
    /// Borrow as a string, if this value is a `String`.
    pub fn as_str(&self) -> (r: Option<&str>)
        ensures
            match r {
                Some(s) => self@.text() == Some(s@),
                None => self@.text() is None,
            },
            match *self {
                Value::String(s) => r matches Some(t) && t@ == s@,
                _ => r is None,
            },
    {
        match self {
            Value::String(s) => Some(s.as_str()),
            _ => None,
        }
    }

    /// Borrow as an array, if this value is an `Array`.
    pub fn as_array(&self) -> (r: Option<&Array>)
        ensures
            match *self {
                Value::Array(a) => r == Some(&a),
                _ => r is None,
            },
    {
        match self {
            Value::Array(a) => Some(a),
            _ => None,
        }
    }

    /// Interpret any integer scalar as `u64` (handy for hyperparameters that
    /// are written with varying widths across models). A flag counts as 0 or
    /// 1; a negative integer gives `None`.
    pub fn as_u64(&self) -> (r: Option<u64>)
        ensures
            r == self@.unsigned(),
            r == match *self {
                Value::U8(v) => Some(v as u64),
                Value::I8(v) => if v >= 0 {
                    Some(v as u64)
                } else {
                    None
                },
                Value::U16(v) => Some(v as u64),
                Value::I16(v) => if v >= 0 {
                    Some(v as u64)
                } else {
                    None
                },
                Value::U32(v) => Some(v as u64),
                Value::I32(v) => if v >= 0 {
                    Some(v as u64)
                } else {
                    None
                },
                Value::U64(v) => Some(v as u64),
                Value::I64(v) => if v >= 0 {
                    Some(v as u64)
                } else {
                    None
                },
                Value::Bool(v) => Some(if v {
                    1u64
                } else {
                    0u64
                }),
                _ => None,
            },
    {
        match self {
            Value::U8(v) => Some(*v as u64),
            Value::U16(v) => Some(*v as u64),
            Value::U32(v) => Some(*v as u64),
            Value::U64(v) => Some(*v),
            Value::I8(v) => if *v >= 0 {
                Some(*v as u64)
            } else {
                None
            },
            Value::I16(v) => if *v >= 0 {
                Some(*v as u64)
            } else {
                None
            },
            Value::I32(v) => if *v >= 0 {
                Some(*v as u64)
            } else {
                None
            },
            Value::I64(v) => if *v >= 0 {
                Some(*v as u64)
            } else {
                None
            },
            Value::Bool(v) => Some(if *v {
                1
            } else {
                0
            }),
            _ => None,
        }
    }

    /// Interpret any float scalar as binary64; the result is a bit pattern.
    pub fn as_f64(&self) -> (r: Option<u64>)
        ensures
            r is Some == (self@ is F32 || self@ is F64),
            r matches Some(wide) ==> self@.float(wide),
            match *self {
                Value::F32(v) => r matches Some(wide) && ieee::widens_to_binary64(v, wide),
                Value::F64(v) => r == Some(v),
                _ => r is None,
            },
    {
        match self {
            Value::F32(v) => Some(ieee::binary32_to_binary64(*v)),
            Value::F64(v) => Some(*v),
            _ => None,
        }
    }
}

impl Clone for Array {
    fn clone(&self) -> (r: Array)
        ensures
            r@ == self@,
    {
        match self {
            Array::U8(v) => {
                let c = v.clone();
                assert(c@ =~= v@);
                Array::U8(c)
            },
            Array::I8(v) => {
                let c = v.clone();
                assert(c@ =~= v@);
                Array::I8(c)
            },
            Array::U16(v) => {
                let c = v.clone();
                assert(c@ =~= v@);
                Array::U16(c)
            },
            Array::I16(v) => {
                let c = v.clone();
                assert(c@ =~= v@);
                Array::I16(c)
            },
            Array::U32(v) => {
                let c = v.clone();
                assert(c@ =~= v@);
                Array::U32(c)
            },
            Array::I32(v) => {
                let c = v.clone();
                assert(c@ =~= v@);
                Array::I32(c)
            },
            Array::F32(v) => {
                let c = v.clone();
                assert(c@ =~= v@);
                Array::F32(c)
            },
            Array::Bool(v) => {
                let c = v.clone();
                assert(c@ =~= v@);
                Array::Bool(c)
            },
            Array::String(v) => {
                let c = v.clone();
                assert(views(c@) =~= views(v@));
                Array::String(c)
            },
            Array::U64(v) => {
                let c = v.clone();
                assert(c@ =~= v@);
                Array::U64(c)
            },
            Array::I64(v) => {
                let c = v.clone();
                assert(c@ =~= v@);
                Array::I64(c)
            },
            Array::F64(v) => {
                let c = v.clone();
                assert(c@ =~= v@);
                Array::F64(c)
            },
        }
    }
}

impl Clone for Value {
    fn clone(&self) -> (r: Value)
        ensures
            r@ == self@,
    {
        match self {
            Value::U8(v) => Value::U8(*v),
            Value::I8(v) => Value::I8(*v),
            Value::U16(v) => Value::U16(*v),
            Value::I16(v) => Value::I16(*v),
            Value::U32(v) => Value::U32(*v),
            Value::I32(v) => Value::I32(*v),
            Value::F32(v) => Value::F32(*v),
            Value::Bool(v) => Value::Bool(*v),
            Value::String(v) => Value::String(v.clone()),
            Value::U64(v) => Value::U64(*v),
            Value::I64(v) => Value::I64(*v),
            Value::F64(v) => Value::F64(*v),
            Value::Array(v) => Value::Array(v.clone()),
        }
    }
}

/// Two sequences of binary32 patterns stand for equal numbers throughout.
pub open spec fn same_floats(a: Seq<u32>, b: Seq<u32>) -> bool {
    &&& a.len() == b.len()
    &&& forall|i: int|
        0 <= i < a.len() ==> ieee::equal(
            ieee::binary32(#[trigger] a[i]),
            ieee::binary32(#[trigger] b[i]),
        )
}

/// Two sequences of binary64 patterns stand for equal numbers throughout.
pub open spec fn same_doubles(a: Seq<u64>, b: Seq<u64>) -> bool {
    &&& a.len() == b.len()
    &&& forall|i: int|
        0 <= i < a.len() ==> ieee::equal(
            ieee::binary64(#[trigger] a[i]),
            ieee::binary64(#[trigger] b[i]),
        )
}

impl ArrayView {
    /// Two arrays compare equal: they have one element type, and their elements
    /// are equal; floating-point elements are compared as numbers.
    pub open spec fn same(self, other: ArrayView) -> bool {
        match (self, other) {
            (ArrayView::U8(a), ArrayView::U8(b)) => a == b,
            (ArrayView::I8(a), ArrayView::I8(b)) => a == b,
            (ArrayView::U16(a), ArrayView::U16(b)) => a == b,
            (ArrayView::I16(a), ArrayView::I16(b)) => a == b,
            (ArrayView::U32(a), ArrayView::U32(b)) => a == b,
            (ArrayView::I32(a), ArrayView::I32(b)) => a == b,
            (ArrayView::F32(a), ArrayView::F32(b)) => same_floats(a, b),
            (ArrayView::Bool(a), ArrayView::Bool(b)) => a == b,
            (ArrayView::String(a), ArrayView::String(b)) => a == b,
            (ArrayView::U64(a), ArrayView::U64(b)) => a == b,
            (ArrayView::I64(a), ArrayView::I64(b)) => a == b,
            (ArrayView::F64(a), ArrayView::F64(b)) => same_doubles(a, b),
            _ => false,
        }
    }
}

impl ValueView {
    /// Two values compare equal: they have one type and are equal;
    /// floating-point scalars are compared as numbers.
    pub open spec fn same(self, other: ValueView) -> bool {
        match (self, other) {
            (ValueView::U8(a), ValueView::U8(b)) => a == b,
            (ValueView::I8(a), ValueView::I8(b)) => a == b,
            (ValueView::U16(a), ValueView::U16(b)) => a == b,
            (ValueView::I16(a), ValueView::I16(b)) => a == b,
            (ValueView::U32(a), ValueView::U32(b)) => a == b,
            (ValueView::I32(a), ValueView::I32(b)) => a == b,
            (ValueView::F32(a), ValueView::F32(b)) => ieee::equal(
                ieee::binary32(a),
                ieee::binary32(b),
            ),
            (ValueView::Bool(a), ValueView::Bool(b)) => a == b,
            (ValueView::String(a), ValueView::String(b)) => a == b,
            (ValueView::U64(a), ValueView::U64(b)) => a == b,
            (ValueView::I64(a), ValueView::I64(b)) => a == b,
            (ValueView::F64(a), ValueView::F64(b)) => ieee::equal(
                ieee::binary64(a),
                ieee::binary64(b),
            ),
            (ValueView::Array(a), ValueView::Array(b)) => a.same(b),
            _ => false,
        }
    }
}

/// Do two vectors of binary32 patterns stand for equal numbers throughout?
fn floats_equal(a: &Vec<u32>, b: &Vec<u32>) -> (r: bool)
    ensures
        r == same_floats(a@, b@),
{
    if a.len() != b.len() {
        return false;
    }
    let mut i: usize = 0;
    while i < a.len()
        invariant
            i <= a@.len(),
            a@.len() == b@.len(),
            forall|p: int|
                0 <= p < i ==> ieee::equal(
                    ieee::binary32(#[trigger] a@[p]),
                    ieee::binary32(#[trigger] b@[p]),
                ),
        decreases a@.len() - i,
    {
        if !(ieee::equal_binary32(a[i], b[i])) {
            return false;
        }
        i = i + 1;
    }
    true
}

/// Do two vectors of binary64 patterns stand for equal numbers throughout?
fn doubles_equal(a: &Vec<u64>, b: &Vec<u64>) -> (r: bool)
    ensures
        r == same_doubles(a@, b@),
{
    if a.len() != b.len() {
        return false;
    }
    let mut i: usize = 0;
    while i < a.len()
        invariant
            i <= a@.len(),
            a@.len() == b@.len(),
            forall|p: int|
                0 <= p < i ==> ieee::equal(
                    ieee::binary64(#[trigger] a@[p]),
                    ieee::binary64(#[trigger] b@[p]),
                ),
        decreases a@.len() - i,
    {
        if !(ieee::equal_binary64(a[i], b[i])) {
            return false;
        }
        i = i + 1;
    }
    true
}

/// Do two vectors hold the same strings?
fn strings_equal(a: &Vec<String>, b: &Vec<String>) -> (r: bool)
    ensures
        r == (views(a@) == views(b@)),
{
    if a.len() != b.len() {
        assert(views(a@).len() != views(b@).len());
        return false;
    }
    let mut i: usize = 0;
    while i < a.len()
        invariant
            i <= a@.len(),
            a@.len() == b@.len(),
            forall|p: int| 0 <= p < i ==> #[trigger] a@[p]@ == b@[p]@,
        decreases a@.len() - i,
    {
        if !(a[i] == b[i]) {
            assert(views(a@)[i as int] != views(b@)[i as int]);
            return false;
        }
        i = i + 1;
    }
    assert(views(a@) =~= views(b@));
    true
}

impl PartialEq for Array {
    fn eq(&self, other: &Array) -> (r: bool) {
        match (self, other) {
            (Array::U8(a), Array::U8(b)) => {
                let r = *a == *b;
                assert(r == (a@ =~= b@));
                r
            },
            (Array::I8(a), Array::I8(b)) => {
                let r = *a == *b;
                assert(r == (a@ =~= b@));
                r
            },
            (Array::U16(a), Array::U16(b)) => {
                let r = *a == *b;
                assert(r == (a@ =~= b@));
                r
            },
            (Array::I16(a), Array::I16(b)) => {
                let r = *a == *b;
                assert(r == (a@ =~= b@));
                r
            },
            (Array::U32(a), Array::U32(b)) => {
                let r = *a == *b;
                assert(r == (a@ =~= b@));
                r
            },
            (Array::I32(a), Array::I32(b)) => {
                let r = *a == *b;
                assert(r == (a@ =~= b@));
                r
            },
            (Array::F32(a), Array::F32(b)) => floats_equal(a, b),
            (Array::Bool(a), Array::Bool(b)) => {
                let r = *a == *b;
                assert(r == (a@ =~= b@));
                r
            },
            (Array::String(a), Array::String(b)) => strings_equal(a, b),
            (Array::U64(a), Array::U64(b)) => {
                let r = *a == *b;
                assert(r == (a@ =~= b@));
                r
            },
            (Array::I64(a), Array::I64(b)) => {
                let r = *a == *b;
                assert(r == (a@ =~= b@));
                r
            },
            (Array::F64(a), Array::F64(b)) => doubles_equal(a, b),
            _ => false,
        }
    }
}

impl vstd::std_specs::cmp::PartialEqSpecImpl for Array {
    open spec fn obeys_eq_spec() -> bool {
        true
    }

    open spec fn eq_spec(&self, other: &Array) -> bool {
        self@.same(other@)
    }
}

impl PartialEq for Value {
    fn eq(&self, other: &Value) -> (r: bool) {
        match (self, other) {
            (Value::U8(a), Value::U8(b)) => *a == *b,
            (Value::I8(a), Value::I8(b)) => *a == *b,
            (Value::U16(a), Value::U16(b)) => *a == *b,
            (Value::I16(a), Value::I16(b)) => *a == *b,
            (Value::U32(a), Value::U32(b)) => *a == *b,
            (Value::I32(a), Value::I32(b)) => *a == *b,
            (Value::F32(a), Value::F32(b)) => ieee::equal_binary32(*a, *b),
            (Value::Bool(a), Value::Bool(b)) => *a == *b,
            (Value::String(a), Value::String(b)) => *a == *b,
            (Value::U64(a), Value::U64(b)) => *a == *b,
            (Value::I64(a), Value::I64(b)) => *a == *b,
            (Value::F64(a), Value::F64(b)) => ieee::equal_binary64(*a, *b),
            (Value::Array(a), Value::Array(b)) => *a == *b,
            _ => false,
        }
    }
}

impl vstd::std_specs::cmp::PartialEqSpecImpl for Value {
    open spec fn obeys_eq_spec() -> bool {
        true
    }

    open spec fn eq_spec(&self, other: &Value) -> bool {
        self@.same(other@)
    }
}

/// What arrays and values stand for: their elements, one for one.
pub proof fn law_views(a: Array, v: Value)
    ensures
        a@ == match a {
            Array::U8(s) => ArrayView::U8(s@),
            Array::I8(s) => ArrayView::I8(s@),
            Array::U16(s) => ArrayView::U16(s@),
            Array::I16(s) => ArrayView::I16(s@),
            Array::U32(s) => ArrayView::U32(s@),
            Array::I32(s) => ArrayView::I32(s@),
            Array::F32(s) => ArrayView::F32(s@),
            Array::Bool(s) => ArrayView::Bool(s@),
            Array::String(s) => ArrayView::String(Seq::new(s@.len(), |i: int| s@[i]@)),
            Array::U64(s) => ArrayView::U64(s@),
            Array::I64(s) => ArrayView::I64(s@),
            Array::F64(s) => ArrayView::F64(s@),
        },
        v@ == match v {
            Value::U8(x) => ValueView::U8(x),
            Value::I8(x) => ValueView::I8(x),
            Value::U16(x) => ValueView::U16(x),
            Value::I16(x) => ValueView::I16(x),
            Value::U32(x) => ValueView::U32(x),
            Value::I32(x) => ValueView::I32(x),
            Value::F32(x) => ValueView::F32(x),
            Value::Bool(x) => ValueView::Bool(x),
            Value::String(x) => ValueView::String(x@),
            Value::U64(x) => ValueView::U64(x),
            Value::I64(x) => ValueView::I64(x),
            Value::F64(x) => ValueView::F64(x),
            Value::Array(x) => ValueView::Array(x@),
        },
{
    if let Array::String(s) = a {
        assert(views(s@) =~= Seq::new(s@.len(), |i: int| s@[i]@));
    }
}

/// An item of a sequence and its view stand at the same place.
pub proof fn law_views_of_items<E: View>(s: Seq<E>, i: int)
    requires
        0 <= i < s.len(),
    ensures
        views(s).len() == s.len(),
        views(s)[i] == s[i]@,
{
}

/// Values compare equal where they have one type and are equal, but that
/// floating-point numbers are compared as such.
pub proof fn law_same(v: ValueView, w: ValueView)
    ensures
        !(v is F32 || v is F64 || v is Array) ==> (v.same(w) <==> v == w),
        v matches ValueView::F32(a) ==> (v.same(w) <==> (w matches ValueView::F32(b) && ieee::equal(
            ieee::binary32(a),
            ieee::binary32(b),
        ))),
        v matches ValueView::F64(a) ==> (v.same(w) <==> (w matches ValueView::F64(b) && ieee::equal(
            ieee::binary64(a),
            ieee::binary64(b),
        ))),
        v matches ValueView::Array(a) ==> (v.same(w) <==> (w matches ValueView::Array(b) && {
            &&& !(a is F32 || a is F64) ==> a == b
            &&& a matches ArrayView::F32(x) ==> b matches ArrayView::F32(y) && x.len() == y.len()
                && forall|i: int|
                0 <= i < x.len() ==> ieee::equal(
                    ieee::binary32(#[trigger] x[i]),
                    ieee::binary32(#[trigger] y[i]),
                )
            &&& a matches ArrayView::F64(x) ==> b matches ArrayView::F64(y) && x.len() == y.len()
                && forall|i: int|
                0 <= i < x.len() ==> ieee::equal(
                    ieee::binary64(#[trigger] x[i]),
                    ieee::binary64(#[trigger] y[i]),
                )
        })),
{
}

/// Arrays compare equal where they have one element type and the same elements,
/// but that floating-point numbers are compared as such.
pub proof fn law_same_arrays(a: ArrayView, b: ArrayView)
    ensures
        !(a is F32 || a is F64) ==> (a.same(b) <==> a == b),
        a matches ArrayView::F32(x) ==> (a.same(b) <==> (b matches ArrayView::F32(y) && x.len()
            == y.len() && forall|i: int|
            0 <= i < x.len() ==> ieee::equal(
                ieee::binary32(#[trigger] x[i]),
                ieee::binary32(#[trigger] y[i]),
            ))),
        a matches ArrayView::F64(x) ==> (a.same(b) <==> (b matches ArrayView::F64(y) && x.len()
            == y.len() && forall|i: int|
            0 <= i < x.len() ==> ieee::equal(
                ieee::binary64(#[trigger] x[i]),
                ieee::binary64(#[trigger] y[i]),
            ))),
{
}

/// The integer, the text and the number that a value is read as.
pub proof fn law_readings(v: ValueView, wide: u64)
    ensures
        v.unsigned() == match v {
            ValueView::U8(v) => Some(v as u64),
            ValueView::I8(v) => if v >= 0 {
                Some(v as u64)
            } else {
                None
            },
            ValueView::U16(v) => Some(v as u64),
            ValueView::I16(v) => if v >= 0 {
                Some(v as u64)
            } else {
                None
            },
            ValueView::U32(v) => Some(v as u64),
            ValueView::I32(v) => if v >= 0 {
                Some(v as u64)
            } else {
                None
            },
            ValueView::U64(v) => Some(v as u64),
            ValueView::I64(v) => if v >= 0 {
                Some(v as u64)
            } else {
                None
            },
            ValueView::Bool(v) => Some(if v {
                1u64
            } else {
                0u64
            }),
            _ => None,
        },
        v.text() == match v {
            ValueView::String(s) => Some(s),
            _ => None,
        },
        v.float(wide) <==> match v {
            ValueView::F32(b) => ieee::widens_to_binary64(b, wide),
            ValueView::F64(b) => b == wide,
            _ => false,
        },
{
}

} // verus!
