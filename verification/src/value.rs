//! Column types and the values stored in rows.
//!
//! A `Float` value is held as the IEEE-754 binary64 bit pattern of the number
//! (what `f64::to_bits` gives); `Value::float_from_bits` builds one and
//! `Value::as_float` hands the bits back.
use vstd::prelude::*;

use crate::float::{compare_f64_bits, compare_int_f64_bits, f64_is_nan, f64_order, flip, i64_as_f64_value, i64_f64_order};
use crate::text::{Order, append_decimal, append_text, compare_text, decimal, int_order, lemma_text_order_equal, lemma_text_order_refl, lemma_text_order_swap, text_order};

verus! {

/// The type a column declares.
#[derive(Clone, Copy, Debug, PartialEq, Eq, Structural)]
pub enum DataType {
    Int,
    Float,
    Text,
    Bool,
}

/// The name a type is shown under.
pub open spec fn data_type_name(t: DataType) -> Seq<char> {
    match t {
        DataType::Int => "INT"@,
        DataType::Float => "FLOAT"@,
        DataType::Text => "TEXT"@,
        DataType::Bool => "BOOL"@,
    }
}

impl DataType {
    /// The name the type is shown under (`INT`, `FLOAT`, `TEXT`, `BOOL`).
    pub fn name(&self) -> (r: &'static str)
        ensures
            r@ == data_type_name(*self),
    {
        match self {
            DataType::Int => "INT",
            DataType::Float => "FLOAT",
            DataType::Text => "TEXT",
            DataType::Bool => "BOOL",
        }
    }

    /// The name the type is shown under, as a `String`.
    pub fn to_string(&self) -> (r: String)
        ensures
            r@ == data_type_name(*self),
    {
        self.name().to_owned()
    }
}

/// One cell of a row.
#[derive(Debug)]
pub enum Value {
    Int(i64),
    /// IEEE-754 binary64 bit pattern of the number.
    Float(u64),
    Text(String),
    Bool(bool),
    Null,
}

impl Clone for Value {
    fn clone(&self) -> (r: Value)
        ensures
            r@ == self@,
    {
        match self {
            Value::Int(i) => Value::Int(*i),
            Value::Float(b) => Value::Float(*b),
            Value::Text(s) => Value::Text(s.clone()),
            Value::Bool(b) => Value::Bool(*b),
            Value::Null => Value::Null,
        }
    }
}

/// The mathematical model of a cell: a text is its characters.
pub enum ValueView {
    Int(i64),
    Float(u64),
    Text(Seq<char>),
    Bool(bool),
    Null,
}

impl View for Value {
    type V = ValueView;

    open spec fn view(&self) -> ValueView {
        match self {
            Value::Int(i) => ValueView::Int(*i),
            Value::Float(b) => ValueView::Float(*b),
            Value::Text(s) => ValueView::Text(s@),
            Value::Bool(b) => ValueView::Bool(*b),
            Value::Null => ValueView::Null,
        }
    }
}

/// The type of a cell; `NULL` has none.
pub open spec fn type_of_spec(v: ValueView) -> Option<DataType> {
    match v {
        ValueView::Int(_) => Some(DataType::Int),
        ValueView::Float(_) => Some(DataType::Float),
        ValueView::Text(_) => Some(DataType::Text),
        ValueView::Bool(_) => Some(DataType::Bool),
        ValueView::Null => None,
    }
}

/// A cell may be stored in a column of type `t`: `NULL` fits every column,
/// any other cell only a column of its own type.
pub open spec fn fits_spec(v: ValueView, t: DataType) -> bool {
    match type_of_spec(v) {
        None => true,
        Some(actual) => actual == t,
    }
}

/// How a cell is shown; a float cell has no rendering here.
pub open spec fn display_spec(v: ValueView) -> Seq<char> {
    match v {
        ValueView::Int(i) => int_text(i as int),
        ValueView::Text(s) => s,
        ValueView::Bool(b) => if b {
            "true"@
        } else {
            "false"@
        },
        ValueView::Null => "NULL"@,
        ValueView::Float(_) => Seq::empty(),
    }
}

/// Decimal rendering of an integer, with a leading `-` when negative.
pub open spec fn int_text(i: int) -> Seq<char> {
    if i < 0 {
        seq!['-'] + decimal((-i) as nat)
    } else {
        decimal(i as nat)
    }
}

/// How two cells compare: numbers compare by value across `Int` and `Float`
/// (an integer is first converted as `i64 as f64` converts it), texts
/// lexicographically, flags with `false` first. `None` when either cell is
/// `NULL`, when the types differ otherwise, or when a NaN takes part.
pub open spec fn value_order(a: ValueView, b: ValueView) -> Option<Order> {
    match a {
        ValueView::Int(x) => match b {
            ValueView::Int(y) => Some(int_order(x as int, y as int)),
            ValueView::Float(y) => i64_f64_order(x, y),
            _ => None,
        },
        ValueView::Float(x) => match b {
            ValueView::Int(y) => flip(i64_f64_order(y, x)),
            ValueView::Float(y) => f64_order(x, y),
            _ => None,
        },
        ValueView::Text(x) => match b {
            ValueView::Text(y) => Some(text_order(x, y)),
            _ => None,
        },
        ValueView::Bool(x) => match b {
            ValueView::Bool(y) => Some(int_order(bool_rank(x), bool_rank(y))),
            _ => None,
        },
        ValueView::Null => None,
    }
}

/// `false` orders before `true`.
pub open spec fn bool_rank(b: bool) -> int {
    if b {
        1
    } else {
        0
    }
}

/// Cell equality: two `NULL`s are equal, `NULL` equals nothing else, and
/// other cells are equal when they compare as equal.
pub open spec fn value_eq(a: ValueView, b: ValueView) -> bool {
    if a is Null || b is Null {
        a is Null && b is Null
    } else {
        value_order(a, b) == Some(Order::Equal)
    }
}

/// `NULL` fits a column of any type.
pub proof fn lemma_null_fits_any(t: DataType)
    ensures
        fits_spec(ValueView::Null, t),
{
}

/// `NULL` is never ordered against anything; it equals `NULL` and nothing
/// else.
pub proof fn lemma_null_unordered(v: ValueView)
    ensures
        value_order(ValueView::Null, v) is None,
        value_order(v, ValueView::Null) is None,
        value_eq(ValueView::Null, ValueView::Null),
        !(v is Null) ==> !value_eq(ValueView::Null, v) && !value_eq(v, ValueView::Null),
{
}

/// Cells of different types never compare, except an integer with a float.
pub proof fn lemma_kinds_unordered(a: ValueView, b: ValueView)
    requires
        type_of_spec(a) != type_of_spec(b),
        !(a is Int && b is Float),
        !(a is Float && b is Int),
    ensures
        value_order(a, b) is None,
        !value_eq(a, b),
{
}

/// Integer cells compare as their integers do, and are equal exactly when
/// the integers are.
pub proof fn lemma_int_cells_order(x: i64, y: i64)
    ensures
        x < y ==> value_order(ValueView::Int(x), ValueView::Int(y)) == Some(Order::Less),
        x == y ==> value_order(ValueView::Int(x), ValueView::Int(y)) == Some(Order::Equal),
        x > y ==> value_order(ValueView::Int(x), ValueView::Int(y)) == Some(Order::Greater),
        value_eq(ValueView::Int(x), ValueView::Int(y)) <==> x == y,
{
}

/// Flag cells order `false` before `true`, and are equal exactly when the
/// flags are.
pub proof fn lemma_bool_cells_order(a: bool, b: bool)
    ensures
        !a && b ==> value_order(ValueView::Bool(a), ValueView::Bool(b)) == Some(Order::Less),
        a && !b ==> value_order(ValueView::Bool(a), ValueView::Bool(b)) == Some(Order::Greater),
        value_eq(ValueView::Bool(a), ValueView::Bool(b)) <==> a == b,
{
}

/// Text cells compare lexicographically by code point: after a common
/// prefix of length `k` the first differing character decides, and a text
/// that ends there comes first.
pub proof fn lemma_text_cells_order(a: Seq<char>, b: Seq<char>, k: int)
    requires
        0 <= k <= a.len(),
        k <= b.len(),
        a.take(k) == b.take(k),
    ensures
        k < a.len() && k < b.len() && (a[k] as u32) < (b[k] as u32) ==> value_order(
            ValueView::Text(a),
            ValueView::Text(b),
        ) == Some(Order::Less),
        k < a.len() && k < b.len() && (a[k] as u32) > (b[k] as u32) ==> value_order(
            ValueView::Text(a),
            ValueView::Text(b),
        ) == Some(Order::Greater),
        k == a.len() && k < b.len() ==> value_order(ValueView::Text(a), ValueView::Text(b))
            == Some(Order::Less),
{
    crate::text::lemma_text_order_lexicographic(a, b, k);
}

/// A cell that is not `NULL` fits exactly one column type, the one named
/// after its variant; `NULL` fits every type.
pub proof fn lemma_fits_own_type_only(v: ValueView, t: DataType)
    ensures
        v is Null ==> fits_spec(v, t),
        v is Int ==> (fits_spec(v, t) <==> t == DataType::Int),
        v is Float ==> (fits_spec(v, t) <==> t == DataType::Float),
        v is Text ==> (fits_spec(v, t) <==> t == DataType::Text),
        v is Bool ==> (fits_spec(v, t) <==> t == DataType::Bool),
        forall|u: DataType| !(v is Null) && fits_spec(v, t) && #[trigger] fits_spec(v, u) ==> t == u,
        type_of_spec(v) is None <==> v is Null,
{
}

/// Swapping two cells reverses how they compare.
pub proof fn lemma_order_swap(a: ValueView, b: ValueView)
    ensures
        value_order(b, a) == flip(value_order(a, b)),
{
    match (a, b) {
        (ValueView::Text(x), ValueView::Text(y)) => {
            lemma_text_order_swap(x, y);
        },
        _ => {},
    }
}

/// Cell equality is symmetric.
pub proof fn lemma_eq_symmetric(a: ValueView, b: ValueView)
    ensures
        value_eq(a, b) == value_eq(b, a),
{
    lemma_order_swap(a, b);
}

/// Every cell except a NaN float equals itself.
pub proof fn lemma_eq_reflexive(a: ValueView)
    requires
        !(a matches ValueView::Float(x) && f64_is_nan(x)),
    ensures
        value_eq(a, a),
{
    match a {
        ValueView::Text(x) => {
            lemma_text_order_refl(x);
        },
        _ => {},
    }
}

/// Two texts are equal cells exactly when they are the same text.
pub proof fn lemma_text_eq(a: Seq<char>, b: Seq<char>)
    ensures
        value_eq(ValueView::Text(a), ValueView::Text(b)) <==> a == b,
{
    if text_order(a, b) == Order::Equal {
        lemma_text_order_equal(a, b);
    }
    if a == b {
        lemma_text_order_refl(a);
    }
}

impl Value {
    /// Compares two cells (see `value_order`).
    pub fn compare(&self, other: &Value) -> (r: Option<Order>)
        ensures
            r == value_order(self@, other@),
    {
        match self {
            Value::Int(x) => match other {
                Value::Int(y) => {
                    if *x < *y {
                        Some(Order::Less)
                    } else if *x == *y {
                        Some(Order::Equal)
                    } else {
                        Some(Order::Greater)
                    }
                },
                Value::Float(y) => compare_int_f64_bits(i64_as_f64_value(*x), *y),
                _ => None,
            },
            Value::Float(x) => match other {
                Value::Int(y) => {
                    match compare_int_f64_bits(i64_as_f64_value(*y), *x) {
                        Some(Order::Less) => Some(Order::Greater),
                        Some(Order::Greater) => Some(Order::Less),
                        o => o,
                    }
                },
                Value::Float(y) => compare_f64_bits(*x, *y),
                _ => None,
            },
            Value::Text(x) => match other {
                Value::Text(y) => Some(compare_text(x.as_str(), y.as_str())),
                _ => None,
            },
            Value::Bool(x) => match other {
                Value::Bool(y) => {
                    if *x == *y {
                        Some(Order::Equal)
                    } else if *y {
                        Some(Order::Less)
                    } else {
                        Some(Order::Greater)
                    }
                },
                _ => None,
            },
            Value::Null => None,
        }
    }

    /// Cell equality (see `value_eq`).
    pub fn equals(&self, other: &Value) -> (r: bool)
        ensures
            r == value_eq(self@, other@),
    {
        if self.is_null() || other.is_null() {
            self.is_null() && other.is_null()
        } else {
            match self.compare(other) {
                Some(Order::Equal) => true,
                _ => false,
            }
        }
    }

    /// A float cell from the bit pattern of an `f64`.
    pub fn float_from_bits(bits: u64) -> (r: Value)
        ensures
            r@ == ValueView::Float(bits),
    {
        Value::Float(bits)
    }

    /// The type of the cell; `None` for `NULL`.
    pub fn type_of(&self) -> (r: Option<DataType>)
        ensures
            r == type_of_spec(self@),
    {
        match self {
            Value::Int(_) => Some(DataType::Int),
            Value::Float(_) => Some(DataType::Float),
            Value::Text(_) => Some(DataType::Text),
            Value::Bool(_) => Some(DataType::Bool),
            Value::Null => None,
        }
    }

    /// Whether the cell is `NULL`.
    pub fn is_null(&self) -> (r: bool)
        ensures
            r == (self@ is Null),
    {
        match self {
            Value::Null => true,
            _ => false,
        }
    }

    /// Whether the cell may be stored in a column of type `expected`.
    pub fn fits(&self, expected: DataType) -> (r: bool)
        ensures
            r == fits_spec(self@, expected),
    {
        match self.type_of() {
            None => true,
            Some(actual) => actual == expected,
        }
    }

    /// The integer of an `Int` cell.
    pub fn as_int(&self) -> (r: Option<i64>)
        ensures
            r == (match self@ {
                ValueView::Int(i) => Some(i),
                _ => None::<i64>,
            }),
    {
        match self {
            Value::Int(i) => Some(*i),
            _ => None,
        }
    }

    /// The bit pattern of a `Float` cell.
    pub fn as_float(&self) -> (r: Option<u64>)
        ensures
            r == (match self@ {
                ValueView::Float(b) => Some(b),
                _ => None::<u64>,
            }),
    {
        match self {
            Value::Float(b) => Some(*b),
            _ => None,
        }
    }

    /// The text of a `Text` cell.
    pub fn as_text(&self) -> (r: Option<&str>)
        ensures
            r is Some <==> self@ is Text,
            r matches Some(s) ==> self@ == ValueView::Text(s@),
    {
        match self {
            Value::Text(s) => Some(s.as_str()),
            _ => None,
        }
    }

    /// The flag of a `Bool` cell.
    pub fn as_bool(&self) -> (r: Option<bool>)
        ensures
            r == (match self@ {
                ValueView::Bool(b) => Some(b),
                _ => None::<bool>,
            }),
    {
        match self {
            Value::Bool(b) => Some(*b),
            _ => None,
        }
    }

    /// How the cell is shown: the bare integer, text or flag, or `NULL`.
    /// Showing a float needs floating-point formatting, which this crate
    /// leaves to its callers.
    pub fn to_string(&self) -> (r: String)
        requires
            !(self@ is Float),
        ensures
            r@ == display_spec(self@),
    {
        let mut r = String::new();
        match self {
            Value::Int(i) => {
                let i = *i;
                if i < 0 {
                    append_text(&mut r, "-");
                    proof { reveal_strlit("-"); }
                    let m: u64 = if i == i64::MIN {
                        9223372036854775808u64
                    } else {
                        (-i) as u64
                    };
                    append_decimal(&mut r, m);
                } else {
                    append_decimal(&mut r, i as u64);
                }
            },
            Value::Text(s) => {
                append_text(&mut r, s.as_str());
            },
            Value::Bool(b) => {
                if *b {
                    append_text(&mut r, "true");
                } else {
                    append_text(&mut r, "false");
                }
            },
            Value::Null => {
                append_text(&mut r, "NULL");
            },
            Value::Float(_) => {},
        }
        assert(r@ =~= display_spec(self@));
        r
    }
}

impl From<i64> for Value {
    fn from(i: i64) -> (r: Value) {
        Value::Int(i)
    }
}

impl vstd::std_specs::convert::FromSpecImpl<i64> for Value {
    open spec fn obeys_from_spec() -> bool {
        true
    }

    open spec fn from_spec(i: i64) -> Value {
        Value::Int(i)
    }
}

impl From<String> for Value {
    fn from(s: String) -> (r: Value) {
        Value::Text(s)
    }
}

impl vstd::std_specs::convert::FromSpecImpl<String> for Value {
    open spec fn obeys_from_spec() -> bool {
        true
    }

    open spec fn from_spec(s: String) -> Value {
        Value::Text(s)
    }
}

impl<'a> From<&'a str> for Value {
    fn from(s: &'a str) -> (r: Value)
        ensures
            r@ == ValueView::Text(s@),
    {
        Value::Text(s.to_owned())
    }
}

// A text cell cannot be written down in spec code from a `&str` (a `String`
// value is not determined by its characters), so this conversion opts out of
// the spec-level description; `from` above states its result instead, and
// `from_spec` below is only a placeholder that nothing reads.
impl<'a> vstd::std_specs::convert::FromSpecImpl<&'a str> for Value {
    open spec fn obeys_from_spec() -> bool {
        false
    }

    open spec fn from_spec(s: &'a str) -> Value {
        Value::Null
    }
}

impl From<bool> for Value {
    fn from(b: bool) -> (r: Value) {
        Value::Bool(b)
    }
}

impl vstd::std_specs::convert::FromSpecImpl<bool> for Value {
    open spec fn obeys_from_spec() -> bool {
        true
    }

    open spec fn from_spec(b: bool) -> Value {
        Value::Bool(b)
    }
}

} // verus!
