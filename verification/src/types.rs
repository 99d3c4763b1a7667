//! Type descriptors, the conformance check, and signatures.

use crate::lex::Order;
use crate::value::{
    lemma_value_lt_irreflexive, lemma_value_lt_transitive, value_lt, value_text, Value, ValueView,
};
use vstd::prelude::*;
use vstd::string::StringExecFns;

verus! {

/// The mathematical content of a [`Type`].
pub enum TypeView {
    Nil,
    Int,
    String,
    OneOf(Seq<ValueView>),
    Any,
}

/// The contents of a sequence of values.
pub open spec fn views(s: Seq<Value>) -> Seq<ValueView> {
    Seq::new(s.len(), |i: int| s[i]@)
}

/// Every element is below every later one: sorted, with nothing twice.
pub open spec fn strictly_ascending(s: Seq<ValueView>) -> bool {
    forall|i: int, j: int| 0 <= i < j < s.len() ==> value_lt(#[trigger] s[i], #[trigger] s[j])
}

/// Whether a type admits a value. A primitive type admits its own variant
/// whatever the payload, `OneOf` admits its members, `Any` admits all.
pub open spec fn admits(t: TypeView, v: ValueView) -> bool {
    match t {
        TypeView::Nil => v is Nil,
        TypeView::Int => v is Int,
        TypeView::String => v is String,
        TypeView::OneOf(members) => members.contains(v),
        TypeView::Any => true,
    }
}

/// The members of a `OneOf` are in ascending order with nothing twice.
pub open spec fn well_formed(t: TypeView) -> bool {
    match t {
        TypeView::OneOf(members) => strictly_ascending(members),
        _ => true,
    }
}

/// The renderings of the values of `s`, separated by a comma and a space.
pub open spec fn joined_text(s: Seq<ValueView>) -> Seq<char>
    decreases s.len(),
{
    if s.len() == 0 {
        Seq::empty()
    } else if s.len() == 1 {
        value_text(s[0])
    } else {
        joined_text(s.drop_last()) + seq![',', ' '] + value_text(s.last())
    }
}

/// How a type is shown in messages.
pub open spec fn type_text(t: TypeView) -> Seq<char> {
    match t {
        TypeView::Nil => seq!['N', 'i', 'l'],
        TypeView::Int => seq!['I', 'n', 't'],
        TypeView::String => seq!['S', 't', 'r', 'i', 'n', 'g'],
        TypeView::OneOf(members) => seq!['O', 'n', 'e', 'O', 'f', '('] + joined_text(members)
            + seq![')'],
        TypeView::Any => seq!['A', 'n', 'y'],
    }
}

/// The message of a value that its expected type does not admit.
pub open spec fn type_mismatch_text(expected: TypeView, v: ValueView) -> Seq<char> {
    value_text(v) + seq![' ', ':', '/', ':', ' '] + type_text(expected)
}

/// The message of a value that does not convert to the native type named
/// `native`.
pub open spec fn native_mismatch_text(v: ValueView, native: Seq<char>) -> Seq<char> {
    value_text(v) + seq![' ', '-', '/', '-', '>', ' '] + native
}

/// Describes the admissible shape of a [`Value`].
///
/// The members of `OneOf` form a set: [`Type::one_of`] keeps them in
/// ascending order with nothing twice, which [`Type::wf`] states.
#[derive(Debug)]
pub enum Type {
    Nil,
    Int,
    String,
    OneOf(Vec<Value>),
    Any,
}

impl View for Type {
    type V = TypeView;

    open spec fn view(&self) -> TypeView {
        match self {
            Type::Nil => TypeView::Nil,
            Type::Int => TypeView::Int,
            Type::String => TypeView::String,
            Type::OneOf(members) => TypeView::OneOf(views(members@)),
            Type::Any => TypeView::Any,
        }
    }
}

/// A value did not conform to a type; carries the message that says so.
#[derive(Debug)]
pub struct TypeMismatchError(String);

impl View for TypeMismatchError {
    type V = Seq<char>;

    closed spec fn view(&self) -> Seq<char> {
        self.0@
    }
}

impl Clone for TypeMismatchError {
    fn clone(&self) -> (r: Self)
        ensures
            r@ == self@,
    {
        TypeMismatchError(self.0.clone())
    }
}

impl TypeMismatchError {
    /// A mismatch with the given message, as one that came over the wire.
    pub fn new(message: String) -> (r: Self)
        ensures
            r@ == message@,
    {
        TypeMismatchError(message)
    }

    /// The mismatch of `val` against the type `expected_type`.
    pub fn rpc_type(expected_type: &Type, val: &Value) -> (r: Self)
        ensures
            r@ == type_mismatch_text(expected_type@, val@),
    {
        let mut out = String::new();
        val.append_to(&mut out);
        proof {
            reveal_strlit(" :/: ");
        }
        out.append(" :/: ");
        expected_type.append_to(&mut out);
        assert(out@ =~= type_mismatch_text(expected_type@, val@));
        TypeMismatchError(out)
    }

    /// The mismatch of `val` against the native type called `native`.
    pub fn rust_type(val: &Value, native: &str) -> (r: Self)
        ensures
            r@ == native_mismatch_text(val@, native@),
    {
        let mut out = String::new();
        val.append_to(&mut out);
        proof {
            reveal_strlit(" -/-> ");
        }
        out.append(" -/-> ");
        out.append(native);
        assert(out@ =~= native_mismatch_text(val@, native@));
        TypeMismatchError(out)
    }

    /// The message.
    pub fn to_string(&self) -> (r: String)
        ensures
            r@ == self@,
    {
        self.0.clone()
    }
}

proof fn lemma_joined_text_step(s: Seq<ValueView>, i: int)
    requires
        0 <= i < s.len(),
    ensures
        joined_text(s.take(i + 1)) == if i == 0 {
            value_text(s[0])
        } else {
            joined_text(s.take(i)) + seq![',', ' '] + value_text(s[i])
        },
{
    assert(s.take(i + 1).drop_last() =~= s.take(i));
}

impl Clone for Type {
    fn clone(&self) -> (r: Self)
        ensures
            r@ == self@,
    {
        match self {
            Type::Nil => Type::Nil,
            Type::Int => Type::Int,
            Type::String => Type::String,
            Type::OneOf(members) => {
                let mut copy: Vec<Value> = Vec::new();
                let mut i: usize = 0;
                while i < members.len()
                    invariant
                        i <= members.len(),
                        copy.len() == i,
                        forall|k: int| 0 <= k < i ==> copy@[k]@ == members@[k]@,
                    decreases members.len() - i,
                {
                    copy.push(members[i].clone());
                    i += 1;
                }
                assert(views(copy@) =~= views(members@));
                Type::OneOf(copy)
            },
            Type::Any => Type::Any,
        }
    }
}

impl Type {
    /// Whether this type is in the form that [`Type::one_of`] builds.
    pub open spec fn wf(&self) -> bool {
        well_formed(self@)
    }

    /// Decides whether this type admits `val`.
    pub fn check(&self, val: &Value) -> (r: Result<(), TypeMismatchError>)
        ensures
            r is Ok <==> admits(self@, val@),
            r matches Err(e) ==> e@ == type_mismatch_text(self@, val@),
    {
        let ok = match (self, val) {
            (Type::Nil, Value::Nil) => true,
            (Type::Int, Value::Int(_)) => true,
            (Type::String, Value::String(_)) => true,
            (Type::OneOf(members), val) => contains_value(members, val),
            (Type::Any, _) => true,
            _ => false,
        };
        if ok {
            Ok(())
        } else {
            Err(TypeMismatchError::rpc_type(self, val))
        }
    }

    /// The type that admits exactly the given values. Duplicates collapse,
    /// and the members are kept in ascending order.
    pub fn one_of(vals: Vec<Value>) -> (r: Type)
        ensures
            r.wf(),
            r@ is OneOf,
            forall|v: ValueView| admits(r@, v) <==> views(vals@).contains(v),
    {
        let mut vals = vals;
        let ghost given = views(vals@);
        let mut members: Vec<Value> = Vec::new();
        while vals.len() > 0
            invariant
                strictly_ascending(views(members@)),
                forall|v: ValueView|
                    given.contains(v) <==> (views(members@).contains(v) || views(vals@).contains(
                        v,
                    )),
            decreases vals.len(),
        {
            let ghost before = views(vals@);
            let v = vals.pop().unwrap();
            insert_member(&mut members, v);
            proof {
                assert forall|x: ValueView|
                    given.contains(x) <==> (views(members@).contains(x) || views(vals@).contains(
                        x,
                    )) by {
                    assert(before =~= views(vals@).push(v@));
                    if views(vals@).contains(x) {
                        let k = choose|k: int| 0 <= k < views(vals@).len() && views(vals@)[k] == x;
                        assert(before[k] == x);
                    }
                    if before.contains(x) {
                        let k = choose|k: int| 0 <= k < before.len() && before[k] == x;
                        if k < views(vals@).len() {
                            assert(views(vals@)[k] == x);
                        }
                    }
                    assert(before[before.len() - 1] == v@);
                }
            }
        }
        Type::OneOf(members)
    }

    /// Renders the type as [`type_text`] describes.
    pub fn to_string(&self) -> (r: String)
        ensures
            r@ == type_text(self@),
    {
        let mut out = String::new();
        self.append_to(&mut out);
        assert(out@ =~= type_text(self@));
        out
    }

    /// Appends the type's rendering to `out`.
    pub fn append_to(&self, out: &mut String)
        ensures
            final(out)@ == old(out)@ + type_text(self@),
    {
        proof {
            reveal_strlit("Nil");
            reveal_strlit("Int");
            reveal_strlit("String");
            reveal_strlit("OneOf(");
            reveal_strlit(")");
            reveal_strlit("Any");
        }
        match self {
            Type::Nil => {
                out.append("Nil");
                assert(out@ =~= old(out)@ + type_text(self@));
            },
            Type::Int => {
                out.append("Int");
                assert(out@ =~= old(out)@ + type_text(self@));
            },
            Type::String => {
                out.append("String");
                assert(out@ =~= old(out)@ + type_text(self@));
            },
            Type::OneOf(members) => {
                out.append("OneOf(");
                let ghost shown = views(members@);
                let ghost head = out@;
                let mut i: usize = 0;
                while i < members.len()
                    invariant
                        i <= members.len(),
                        shown == views(members@),
                        out@ == head + joined_text(shown.take(i as int)),
                    decreases members.len() - i,
                {
                    let ghost so_far = out@;
                    if i > 0 {
                        out.append(", ");
                    }
                    members[i].append_to(out);
                    proof {
                        lemma_joined_text_step(shown, i as int);
                        assert(shown[i as int] == members@[i as int]@);
                        if i == 0 {
                            assert(joined_text(shown.take(0)) =~= Seq::<char>::empty());
                            assert(so_far =~= head);
                        } else {
                            reveal_strlit(", ");
                            assert(", "@ =~= seq![',', ' ']);
                        }
                        assert(out@ =~= head + joined_text(shown.take(i + 1)));
                    }
                    i += 1;
                }
                out.append(")");
                proof {
                    assert(shown.take(i as int) =~= shown);
                    assert(out@ =~= old(out)@ + type_text(self@));
                }
            },
            Type::Any => {
                out.append("Any");
                assert(out@ =~= old(out)@ + type_text(self@));
            },
        }
    }
}

/// Whether `val` is one of `members`.
fn contains_value(members: &Vec<Value>, val: &Value) -> (r: bool)
    ensures
        r == views(members@).contains(val@),
{
    let mut i: usize = 0;
    while i < members.len()
        invariant
            i <= members.len(),
            forall|k: int| 0 <= k < i ==> views(members@)[k] != val@,
        decreases members.len() - i,
    {
        if members[i] == *val {
            assert(views(members@)[i as int] == val@);
            return true;
        }
        i += 1;
    }
    false
}

/// Puts `v` at its place among ascending `members`, unless it is there.
fn insert_member(members: &mut Vec<Value>, v: Value)
    requires
        strictly_ascending(views(old(members)@)),
    ensures
        strictly_ascending(views(final(members)@)),
        forall|x: ValueView|
            views(final(members)@).contains(x) <==> (views(old(members)@).contains(x) || x == v@),
{
    let ghost before = views(members@);
    let mut i: usize = 0;
    while i < members.len()
        invariant
            i <= members.len(),
            members@ == old(members)@,
            before == views(members@),
            strictly_ascending(before),
            forall|k: int| 0 <= k < i ==> value_lt(before[k], v@),
        decreases members.len() - i,
    {
        match v.compare(&members[i]) {
            Order::Greater => {
                i += 1;
            },
            Order::Equal => {
                assert(before[i as int] == v@);
                return ;
            },
            Order::Less => {
                members.insert(i, v);
                proof {
                    let after = views(members@);
                    assert(after =~= before.insert(i as int, v@));
                    lemma_insert_keeps_ascending(before, i as int, v@);
                    lemma_insert_members(before, i as int, v@);
                }
                return ;
            },
        }
    }
    members.push(v);
    proof {
        let after = views(members@);
        assert(after =~= before.insert(i as int, v@));
        lemma_insert_keeps_ascending(before, i as int, v@);
        lemma_insert_members(before, i as int, v@);
    }
}

proof fn lemma_insert_keeps_ascending(s: Seq<ValueView>, at: int, v: ValueView)
    requires
        strictly_ascending(s),
        0 <= at <= s.len(),
        forall|k: int| 0 <= k < at ==> value_lt(s[k], v),
        at < s.len() ==> value_lt(v, s[at]),
    ensures
        strictly_ascending(s.insert(at, v)),
{
    let t = s.insert(at, v);
    assert forall|i: int, j: int| 0 <= i < j < t.len() implies value_lt(
        #[trigger] t[i],
        #[trigger] t[j],
    ) by {
        if j == at {
            assert(t[i] == s[i]);
        } else if i == at {
            assert(t[j] == s[j - 1]);
            if j - 1 > at {
                assert(value_lt(s[at], s[j - 1]));
                lemma_value_lt_transitive(v, s[at], s[j - 1]);
            }
        } else if i < at && j > at {
            assert(t[i] == s[i] && t[j] == s[j - 1]);
        } else if i < at {
            assert(t[i] == s[i] && t[j] == s[j]);
        } else {
            assert(t[i] == s[i - 1] && t[j] == s[j - 1]);
        }
    }
}

proof fn lemma_insert_members(s: Seq<ValueView>, at: int, v: ValueView)
    requires
        0 <= at <= s.len(),
    ensures
        forall|x: ValueView| s.insert(at, v).contains(x) <==> (s.contains(x) || x == v),
{
    let t = s.insert(at, v);
    assert forall|x: ValueView| t.contains(x) <==> (s.contains(x) || x == v) by {
        if t.contains(x) {
            let k = choose|k: int| 0 <= k < t.len() && t[k] == x;
            if k < at {
                assert(s[k] == x);
            } else if k > at {
                assert(s[k - 1] == x);
            }
        }
        if s.contains(x) {
            let k = choose|k: int| 0 <= k < s.len() && s[k] == x;
            if k < at {
                assert(t[k] == x);
            } else {
                assert(t[k + 1] == x);
            }
        }
        assert(t[at] == v);
    }
}

/// Two ascending sequences with the same members are the same sequence:
/// the members of a `OneOf` determine how it is held.
pub proof fn lemma_ascending_unique(s: Seq<ValueView>, t: Seq<ValueView>)
    requires
        strictly_ascending(s),
        strictly_ascending(t),
        forall|x: ValueView| s.contains(x) <==> t.contains(x),
    ensures
        s == t,
    decreases s.len(),
{
    if s.len() == 0 {
        if t.len() > 0 {
            assert(t.contains(t[0]));
        }
        assert(s =~= t);
    } else {
        assert(s.contains(s[0]));
        let j = choose|j: int| 0 <= j < t.len() && t[j] == s[0];
        assert(t.contains(t[0]));
        let i = choose|i: int| 0 <= i < s.len() && s[i] == t[0];
        lemma_value_lt_irreflexive(s[0]);
        if j > 0 {
            assert(value_lt(t[0], t[j]));
            if i > 0 {
                assert(value_lt(s[0], s[i]));
                lemma_value_lt_transitive(s[0], t[0], s[0]);
            }
        }
        assert(s[0] == t[0]);
        let s1 = s.drop_first();
        let t1 = t.drop_first();
        assert forall|x: ValueView| s1.contains(x) <==> t1.contains(x) by {
            lemma_value_lt_irreflexive(x);
            if s1.contains(x) {
                let k = choose|k: int| 0 <= k < s1.len() && s1[k] == x;
                assert(s[k + 1] == x);
                assert(value_lt(s[0], s[k + 1]));
                assert(s.contains(x));
                let m = choose|m: int| 0 <= m < t.len() && t[m] == x;
                assert(m > 0);
                assert(t1[m - 1] == x);
            }
            if t1.contains(x) {
                let k = choose|k: int| 0 <= k < t1.len() && t1[k] == x;
                assert(t[k + 1] == x);
                assert(value_lt(t[0], t[k + 1]));
                assert(t.contains(x));
                let m = choose|m: int| 0 <= m < s.len() && s[m] == x;
                assert(m > 0);
                assert(s1[m - 1] == x);
            }
        }
        assert forall|a: int, b: int| 0 <= a < b < s1.len() implies value_lt(
            #[trigger] s1[a],
            #[trigger] s1[b],
        ) by {
            assert(value_lt(s[a + 1], s[b + 1]));
        }
        assert forall|a: int, b: int| 0 <= a < b < t1.len() implies value_lt(
            #[trigger] t1[a],
            #[trigger] t1[b],
        ) by {
            assert(value_lt(t[a + 1], t[b + 1]));
        }
        lemma_ascending_unique(s1, t1);
        assert(s =~= seq![s[0]] + s1);
        assert(t =~= seq![t[0]] + t1);
    }
}

/// The parameter and result types of a function.
#[derive(Debug)]
pub struct Signature {
    pub domain: Type,
    pub range: Type,
}

/// The mathematical content of a [`Signature`].
pub struct SignatureView {
    pub domain: TypeView,
    pub range: TypeView,
}

impl Clone for Signature {
    fn clone(&self) -> (r: Self)
        ensures
            r@ == self@,
    {
        Signature { domain: self.domain.clone(), range: self.range.clone() }
    }
}

impl View for Signature {
    type V = SignatureView;

    open spec fn view(&self) -> SignatureView {
        SignatureView { domain: self.domain@, range: self.range@ }
    }
}

} // verus!
