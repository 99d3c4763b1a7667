//! The dynamically tagged datum that travels between client and server.

use crate::lex::{
    compare_str, lemma_str_lt_irreflexive, lemma_str_lt_total, lemma_str_lt_transitive, str_lt,
    Order,
};
use crate::text::{append_int, int_text};
use std::cmp::Ordering;
use vstd::prelude::*;
use vstd::std_specs::cmp::{PartialEqSpecImpl, PartialOrdSpecImpl};
use vstd::std_specs::convert::FromSpecImpl;
use vstd::string::StringExecFns;

verus! {

/// The mathematical content of a [`Value`].
pub enum ValueView {
    Nil,
    Int(i64),
    String(Seq<char>),
}

/// A dynamically tagged value.
#[derive(Debug, Ord, Hash)]
pub enum Value {
    Nil,
    Int(i64),
    String(String),
}

impl View for Value {
    type V = ValueView;

    open spec fn view(&self) -> ValueView {
        match self {
            Value::Nil => ValueView::Nil,
            Value::Int(n) => ValueView::Int(*n),
            Value::String(s) => ValueView::String(s@),
        }
    }
}

/// The rank of a value's variant: `Nil` first, then `Int`, then `String`.
pub open spec fn variant_rank(v: ValueView) -> int {
    match v {
        ValueView::Nil => 0,
        ValueView::Int(_) => 1,
        ValueView::String(_) => 2,
    }
}

/// Strict order on values: by variant first, then by payload. Integers go
/// by their numeric order, strings by their UTF-8 bytes.
pub open spec fn value_lt(a: ValueView, b: ValueView) -> bool {
    match (a, b) {
        (ValueView::Int(x), ValueView::Int(y)) => x < y,
        (ValueView::String(s), ValueView::String(t)) => str_lt(s, t),
        _ => variant_rank(a) < variant_rank(b),
    }
}

/// How a value is shown in messages: `<Nil>`, `<n>` in decimal, or the
/// string between `<"` and `">`.
pub open spec fn value_text(v: ValueView) -> Seq<char> {
    match v {
        ValueView::Nil => seq!['<', 'N', 'i', 'l', '>'],
        ValueView::Int(n) => seq!['<'] + int_text(n as int) + seq!['>'],
        ValueView::String(s) => seq!['<', '"'] + s + seq!['"', '>'],
    }
}

/// No value is below itself.
pub proof fn lemma_value_lt_irreflexive(a: ValueView)
    ensures
        !value_lt(a, a),
{
    if let ValueView::String(s) = a {
        lemma_str_lt_irreflexive(s);
    }
}

/// The order on values is transitive.
pub proof fn lemma_value_lt_transitive(a: ValueView, b: ValueView, c: ValueView)
    requires
        value_lt(a, b),
        value_lt(b, c),
    ensures
        value_lt(a, c),
{
    if let (ValueView::String(s), ValueView::String(t), ValueView::String(u)) = (a, b, c) {
        lemma_str_lt_transitive(s, t, u);
    }
}

/// Of two different values one is below the other.
pub proof fn lemma_value_lt_total(a: ValueView, b: ValueView)
    ensures
        a == b || value_lt(a, b) || value_lt(b, a),
{
    if let (ValueView::String(s), ValueView::String(t)) = (a, b) {
        lemma_str_lt_total(s, t);
    }
}

impl Value {
    /// Three-way comparison in the order of [`value_lt`].
    pub fn compare(&self, other: &Value) -> (r: Order)
        ensures
            r == Order::Less <==> value_lt(self@, other@),
            r == Order::Equal <==> self@ == other@,
            r == Order::Greater <==> value_lt(other@, self@),
    {
        match (self, other) {
            (Value::Nil, Value::Nil) => Order::Equal,
            (Value::Nil, _) => Order::Less,
            (Value::Int(_), Value::Nil) => Order::Greater,
            (Value::Int(x), Value::Int(y)) => {
                if *x < *y {
                    Order::Less
                } else if *x == *y {
                    Order::Equal
                } else {
                    Order::Greater
                }
            },
            (Value::Int(_), Value::String(_)) => Order::Less,
            (Value::String(s), Value::String(t)) => compare_str(s.as_str(), t.as_str()),
            (Value::String(_), _) => Order::Greater,
        }
    }

    /// Renders the value as [`value_text`] describes.
    pub fn to_string(&self) -> (r: String)
        ensures
            r@ == value_text(self@),
    {
        let mut out = String::new();
        self.append_to(&mut out);
        assert(out@ =~= value_text(self@));
        out
    }

    /// Appends the value's rendering to `out`.
    pub fn append_to(&self, out: &mut String)
        ensures
            final(out)@ == old(out)@ + value_text(self@),
    {
        proof {
            reveal_strlit("<Nil>");
            reveal_strlit("<");
            reveal_strlit(">");
            reveal_strlit("<\"");
            reveal_strlit("\">");
        }
        match self {
            Value::Nil => {
                out.append("<Nil>");
                assert(out@ =~= old(out)@ + value_text(self@));
            },
            Value::Int(n) => {
                out.append("<");
                append_int(out, *n);
                out.append(">");
                assert(out@ =~= old(out)@ + value_text(self@));
            },
            Value::String(s) => {
                out.append("<\"");
                out.append(s.as_str());
                out.append("\">");
                assert(out@ =~= old(out)@ + value_text(self@));
            },
        }
    }
}

impl Clone for Value {
    fn clone(&self) -> (r: Self)
        ensures
            r@ == self@,
    {
        match self {
            Value::Nil => Value::Nil,
            Value::Int(n) => Value::Int(*n),
            Value::String(s) => Value::String(s.clone()),
        }
    }
}

impl PartialEq for Value {
    fn eq(&self, other: &Self) -> (r: bool) {
        match (self, other) {
            (Value::Nil, Value::Nil) => true,
            (Value::Int(a), Value::Int(b)) => *a == *b,
            (Value::String(a), Value::String(b)) => *a == *b,
            _ => false,
        }
    }
}

impl PartialEqSpecImpl for Value {
    open spec fn obeys_eq_spec() -> bool {
        true
    }

    open spec fn eq_spec(&self, other: &Self) -> bool {
        self@ == other@
    }
}

impl Eq for Value {}

impl PartialOrd for Value {
    fn partial_cmp(&self, other: &Self) -> (r: Option<Ordering>) {
        match self.compare(other) {
            Order::Less => Some(Ordering::Less),
            Order::Equal => Some(Ordering::Equal),
            Order::Greater => Some(Ordering::Greater),
        }
    }
}

impl PartialOrdSpecImpl for Value {
    open spec fn obeys_partial_cmp_spec() -> bool {
        true
    }

    open spec fn partial_cmp_spec(&self, other: &Self) -> Option<Ordering> {
        if self@ == other@ {
            Some(Ordering::Equal)
        } else if value_lt(self@, other@) {
            Some(Ordering::Less)
        } else {
            Some(Ordering::Greater)
        }
    }
}

impl From<()> for Value {
    fn from(unit: ()) -> (r: Self) {
        Value::Nil
    }
}

impl FromSpecImpl<()> for Value {
    open spec fn obeys_from_spec() -> bool {
        true
    }

    open spec fn from_spec(unit: ()) -> Self {
        Value::Nil
    }
}

impl From<i64> for Value {
    fn from(n: i64) -> (r: Self) {
        Value::Int(n)
    }
}

impl FromSpecImpl<i64> for Value {
    open spec fn obeys_from_spec() -> bool {
        true
    }

    open spec fn from_spec(n: i64) -> Self {
        Value::Int(n)
    }
}

impl From<String> for Value {
    fn from(s: String) -> (r: Self) {
        Value::String(s)
    }
}

impl FromSpecImpl<String> for Value {
    open spec fn obeys_from_spec() -> bool {
        true
    }

    open spec fn from_spec(s: String) -> Self {
        Value::String(s)
    }
}

/// The string value with the text of `s`. The result is stated on `from`
/// itself: a contract has no way to name the owned copy of a slice.
impl<'a> From<&'a str> for Value {
    fn from(s: &'a str) -> (r: Self)
        ensures
            r@ == ValueView::String(s@),
    {
        Value::String(s.to_owned())
    }
}

impl<'a> FromSpecImpl<&'a str> for Value {
    open spec fn obeys_from_spec() -> bool {
        false
    }

    open spec fn from_spec(s: &'a str) -> Self {
        arbitrary()
    }
}

} // verus!
