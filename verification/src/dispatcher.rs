//! The registry of functions and the stages of one call.

use crate::codec::{Decode, DecodeTypeCheck, Encode, EncodeTypeCheck, InferType};
use crate::lex::{compare_str, lemma_str_lt_irreflexive, lemma_str_lt_transitive, str_lt, Order};
use crate::types::{
    admits, native_mismatch_text, type_mismatch_text, Signature, SignatureView, Type,
    TypeMismatchError,
};
use crate::value::Value;
use vstd::pervasive::VecAdditionalExecFns;
use vstd::prelude::*;
use vstd::std_specs::convert::FromSpecImpl;
use vstd::string::StringExecFns;

verus! {

/// A function of the directory: its name and its signature.
#[derive(Debug)]
pub struct RpcFunctionInfo {
    name: String,
    signature: Signature,
}

/// The mathematical content of an [`RpcFunctionInfo`].
pub struct RpcFunctionInfoView {
    pub name: Seq<char>,
    pub signature: SignatureView,
}

impl View for RpcFunctionInfo {
    type V = RpcFunctionInfoView;

    closed spec fn view(&self) -> RpcFunctionInfoView {
        RpcFunctionInfoView { name: self.name@, signature: self.signature@ }
    }
}

impl RpcFunctionInfo {
    /// The directory entry of the function `name` with `signature`.
    pub fn new(name: String, signature: Signature) -> (r: Self)
        ensures
            r@ == (RpcFunctionInfoView { name: name@, signature: signature@ }),
    {
        RpcFunctionInfo { name, signature }
    }

    /// The name of the function.
    pub fn name(&self) -> (r: &str)
        ensures
            r@ == self@.name,
    {
        self.name.as_str()
    }

    /// The signature of the function.
    pub fn signature(&self) -> (r: &Signature)
        ensures
            r@ == self@.signature,
    {
        &self.signature
    }
}

impl Clone for RpcFunctionInfo {
    fn clone(&self) -> (r: Self)
        ensures
            r@ == self@,
    {
        RpcFunctionInfo { name: self.name.clone(), signature: self.signature.clone() }
    }
}

/// A call failed a type check.
#[derive(Debug)]
pub enum CallError {
    /// The argument does not fit the function's domain.
    Domain(TypeMismatchError),
    /// The function returned a value outside its range.
    Range(TypeMismatchError),
}

/// The mathematical content of a [`CallError`].
pub enum CallErrorView {
    Domain(Seq<char>),
    Range(Seq<char>),
}

impl View for CallError {
    type V = CallErrorView;

    open spec fn view(&self) -> CallErrorView {
        match self {
            CallError::Domain(m) => CallErrorView::Domain(m@),
            CallError::Range(m) => CallErrorView::Range(m@),
        }
    }
}

/// A call could not be dispatched, or failed a type check.
#[derive(Debug)]
pub enum DispatchError {
    NoSuchFunction,
    CallError(CallError),
}

/// The mathematical content of a [`DispatchError`].
pub enum DispatchErrorView {
    NoSuchFunction,
    CallError(CallErrorView),
}

impl View for DispatchError {
    type V = DispatchErrorView;

    open spec fn view(&self) -> DispatchErrorView {
        match self {
            DispatchError::NoSuchFunction => DispatchErrorView::NoSuchFunction,
            DispatchError::CallError(e) => DispatchErrorView::CallError(e@),
        }
    }
}

/// The message of a [`CallError`]. A range mismatch is a defect of the
/// function, and is labelled so.
pub open spec fn call_error_text(e: CallErrorView) -> Seq<char> {
    match e {
        CallErrorView::Domain(m) => "domain type mismatch: "@ + m,
        CallErrorView::Range(m) => "(BUG in RPC function) range type mismatch: "@ + m,
    }
}

/// The message of a [`DispatchError`].
pub open spec fn dispatch_error_text(e: DispatchErrorView) -> Seq<char> {
    match e {
        DispatchErrorView::NoSuchFunction => "no function with given name"@,
        DispatchErrorView::CallError(inner) => "calling function: "@ + call_error_text(inner),
    }
}

impl CallError {
    /// Appends the error's message to `out`.
    pub fn append_to(&self, out: &mut String)
        ensures
            final(out)@ == old(out)@ + call_error_text(self@),
    {
        match self {
            CallError::Domain(m) => {
                out.append("domain type mismatch: ");
                let text = m.to_string();
                out.append(text.as_str());
                assert(out@ =~= old(out)@ + call_error_text(self@));
            },
            CallError::Range(m) => {
                out.append("(BUG in RPC function) range type mismatch: ");
                let text = m.to_string();
                out.append(text.as_str());
                assert(out@ =~= old(out)@ + call_error_text(self@));
            },
        }
    }

    /// The error's message.
    pub fn to_string(&self) -> (r: String)
        ensures
            r@ == call_error_text(self@),
    {
        let mut out = String::new();
        self.append_to(&mut out);
        assert(out@ =~= call_error_text(self@));
        out
    }
}

impl DispatchError {
    /// The error's message.
    pub fn to_string(&self) -> (r: String)
        ensures
            r@ == dispatch_error_text(self@),
    {
        match self {
            DispatchError::NoSuchFunction => "no function with given name".to_owned(),
            DispatchError::CallError(e) => {
                let mut out = "calling function: ".to_owned();
                e.append_to(&mut out);
                out
            },
        }
    }
}

impl From<CallError> for DispatchError {
    fn from(e: CallError) -> (r: Self) {
        DispatchError::CallError(e)
    }
}

impl FromSpecImpl<CallError> for DispatchError {
    open spec fn obeys_from_spec() -> bool {
        true
    }

    open spec fn from_spec(e: CallError) -> Self {
        DispatchError::CallError(e)
    }
}

/// A single function that can be called remotely: its name over the wire,
/// its native parameter and result types, and its signature if it states
/// one. Invoking it is left to the transport that runs it.
pub trait RpcFunction {
    /// The parameter type of the function.
    type Domain: Decode;

    /// The return type of the function.
    type Range: Encode;

    /// The name that identifies the function over the wire.
    fn name(&self) -> &str;

    /// The signature of the function, if it states one.
    fn signature(&self) -> Option<(Type, Type)>;
}

/// `name` is a name that the function gives itself.
pub open spec fn names_itself<RFn: RpcFunction>(rfn: RFn, name: Seq<char>) -> bool {
    exists|n: &str| #[trigger] call_ensures(RFn::name, (&rfn,), n) && n@ == name
}

/// The content of what a function answers when asked for its signature.
pub open spec fn stated(answer: Option<(Type, Type)>) -> Option<SignatureView> {
    match answer {
        Some(pair) => Some(SignatureView { domain: pair.0@, range: pair.1@ }),
        None => None,
    }
}

/// `signature` is what the function states as its signature: one, or
/// none.
pub open spec fn states<RFn: RpcFunction>(rfn: RFn, signature: Option<SignatureView>) -> bool {
    exists|answer: Option<(Type, Type)>| #[trigger]
        call_ensures(RFn::signature, (&rfn,), answer) && stated(answer) == signature
}

/// The signature of a function whose native types know their own types.
pub trait InferSignature {
    /// The content of the inferred signature: the types inferred for the
    /// function's domain and range.
    spec fn inferred_signature() -> SignatureView;

    fn infer_signature() -> (s: Signature)
        ensures
            s@ == Self::inferred_signature(),
    ;
}

impl<RFn> InferSignature for RFn where
    RFn: RpcFunction,
    RFn::Domain: InferType,
    RFn::Range: InferType,
 {
    open spec fn inferred_signature() -> SignatureView {
        SignatureView { domain: RFn::Domain::inferred(), range: RFn::Range::inferred() }
    }

    fn infer_signature() -> (s: Signature) {
        Signature { domain: RFn::Domain::infer_type(), range: RFn::Range::infer_type() }
    }
}

/// A function together with the signature it was registered under.
pub struct CallableRpcFunction<RFn: RpcFunction> {
    pub rpc_function: RFn,
    pub signature: Signature,
}

impl<RFn: RpcFunction> CallableRpcFunction<RFn> {
    /// Captures the signature that the function states.
    pub fn new(rpc_function: RFn) -> (r: Self)
        requires
            !states(rpc_function, None),
        ensures
            r.rpc_function == rpc_function,
            states(rpc_function, Some(r.signature@)),
    {
        let answer = rpc_function.signature();
        assert(stated(answer) is None ==> states(rpc_function, None));
        let (domain, range) = answer.unwrap();
        CallableRpcFunction { rpc_function, signature: Signature { domain, range } }
    }

    /// Captures the signature inferred from the function's native types.
    pub fn new_infer_signature(rpc_function: RFn) -> (r: Self) where
        RFn::Domain: InferType,
        RFn::Range: InferType,

        ensures
            r.rpc_function == rpc_function,
            r.signature@ == RFn::inferred_signature(),
    {
        CallableRpcFunction { rpc_function, signature: RFn::infer_signature() }
    }

    /// The name that the function gives itself.
    pub fn name(&self) -> (n: &str)
        ensures
            names_itself(self.rpc_function, n@),
    {
        self.rpc_function.name()
    }

    /// A copy of the captured signature.
    pub fn signature(&self) -> (s: Signature)
        ensures
            s@ == self.signature@,
    {
        self.signature.clone()
    }

    /// The first stage of a call: checks `args` against the domain and
    /// converts it. Only an `Ok` lets the function be invoked, with the
    /// argument it holds.
    pub fn begin_call(&self, args: Value) -> (r: Result<RFn::Domain, CallError>)
        ensures
            r is Ok <==> admits(self.signature@.domain, args@) && RFn::Domain::decodable(args@),
            r matches Ok(native) ==> RFn::Domain::decodes_to(args@, native),
            r matches Err(e) ==> e@ == CallErrorView::Domain(
                if admits(self.signature@.domain, args@) {
                    native_mismatch_text(args@, RFn::Domain::native_name_spec())
                } else {
                    type_mismatch_text(self.signature@.domain, args@)
                },
            ),
    {
        match RFn::Domain::decode_typeck(&self.signature.domain, args) {
            Ok(native) => Ok(native),
            Err(e) => Err(CallError::Domain(e)),
        }
    }

    /// The last stage of a call: converts what the function returned and
    /// checks it against the range. A value outside the range never
    /// leaves this stage.
    pub fn finish_call(&self, retval: RFn::Range) -> (r: Result<Value, CallError>)
        ensures
            r is Ok <==> admits(self.signature@.range, retval.encoded()),
            r matches Ok(v) ==> v@ == retval.encoded(),
            r matches Err(e) ==> e@ == CallErrorView::Range(
                type_mismatch_text(self.signature@.range, retval.encoded()),
            ),
    {
        match RFn::Range::encode_typeck(&self.signature.range, retval) {
            Ok(v) => Ok(v),
            Err(e) => Err(CallError::Range(e)),
        }
    }
}

/// `handler` is what the registry holds for a function registered under
/// `signature`: the conversion of the function with that signature.
pub open spec fn erases<RFn, H>(rfn: RFn, signature: SignatureView, handler: H) -> bool where
    RFn: RpcFunction,
    H: From<CallableRpcFunction<RFn>>,
 {
    exists|callable: CallableRpcFunction<RFn>| #[trigger]
        call_ensures(H::from, (callable,), handler) && callable.rpc_function == rfn
            && callable.signature@ == signature
}

/// One entry of the registry: a name, the signature registered under it,
/// and the handler that answers calls to it.
pub struct Entry<H> {
    pub name: String,
    pub signature: Signature,
    pub handler: H,
}

/// The mathematical content of an [`Entry`].
pub struct Registered<H> {
    pub name: Seq<char>,
    pub signature: SignatureView,
    pub handler: H,
}

impl<H> View for Entry<H> {
    type V = Registered<H>;

    open spec fn view(&self) -> Registered<H> {
        Registered { name: self.name@, signature: self.signature@, handler: self.handler }
    }
}

/// The names of `s` are in ascending order, so none occurs twice.
pub open spec fn names_ascending<H>(s: Seq<Registered<H>>) -> bool {
    forall|i: int, j: int| 0 <= i < j < s.len() ==> str_lt(#[trigger] s[i].name, #[trigger] s[j].name)
}

/// Some entry of `s` is called `name`.
pub open spec fn has_name<H>(s: Seq<Registered<H>>, name: Seq<char>) -> bool {
    exists|i: int| 0 <= i < s.len() && #[trigger] s[i].name == name
}

/// `after` is `before` with `entry` registered: `entry` is the one entry
/// under its name, and all entries under other names are as they were.
pub open spec fn registers<H>(
    before: Seq<Registered<H>>,
    after: Seq<Registered<H>>,
    entry: Registered<H>,
) -> bool {
    &&& names_ascending(after)
    &&& forall|r: Registered<H>| #[trigger]
        after.contains(r) <==> (if r.name == entry.name {
            r == entry
        } else {
            before.contains(r)
        })
    &&& after.len() == before.len() + if has_name(before, entry.name) {
        0int
    } else {
        1int
    }
}

/// The directory `d` lists the entries of `s`, one for one and in order.
pub open spec fn lists<H>(d: Seq<RpcFunctionInfo>, s: Seq<Registered<H>>) -> bool {
    &&& d.len() == s.len()
    &&& forall|i: int|
        0 <= i < d.len() ==> (#[trigger] d[i])@ == (RpcFunctionInfoView {
            name: s[i].name,
            signature: s[i].signature,
        })
}

/// The names of the directory `d` are in ascending order.
pub open spec fn directory_ascending(d: Seq<RpcFunctionInfo>) -> bool {
    forall|i: int, j: int|
        0 <= i < j < d.len() ==> str_lt((#[trigger] d[i])@.name, (#[trigger] d[j])@.name)
}

/// Maps the names of functions to their handlers.
///
/// The entries are kept in ascending order of their names, compared byte
/// by byte. Registering under a name that is taken replaces the entry.
pub struct Dispatcher<H> {
    entries: Vec<Entry<H>>,
}

impl<H> View for Dispatcher<H> {
    type V = Seq<Registered<H>>;

    closed spec fn view(&self) -> Seq<Registered<H>> {
        Seq::new(self.entries@.len(), |i: int| self.entries@[i]@)
    }
}

impl<H> Default for Dispatcher<H> {
    fn default() -> (r: Self)
        ensures
            r.wf(),
            r@.len() == 0,
    {
        Dispatcher::new()
    }
}

proof fn lemma_insert_keeps_names_ascending<H>(s: Seq<Registered<H>>, at: int, e: Registered<H>)
    requires
        names_ascending(s),
        0 <= at <= s.len(),
        forall|k: int| 0 <= k < at ==> str_lt(s[k].name, e.name),
        at < s.len() ==> str_lt(e.name, s[at].name),
    ensures
        names_ascending(s.insert(at, e)),
        !has_name(s, e.name),
        forall|r: Registered<H>| #[trigger]
            s.insert(at, e).contains(r) <==> (if r.name == e.name {
                r == e
            } else {
                s.contains(r)
            }),
{
    let t = s.insert(at, e);
    assert forall|k: int| at <= k < s.len() implies str_lt(e.name, #[trigger] s[k].name) by {
        if k > at {
            assert(str_lt(s[at].name, s[k].name));
            lemma_str_lt_transitive(e.name, s[at].name, s[k].name);
        }
    }
    assert forall|k: int| 0 <= k < s.len() implies #[trigger] s[k].name != e.name by {
        lemma_str_lt_irreflexive(e.name);
    }
    assert forall|i: int, j: int| 0 <= i < j < t.len() implies str_lt(
        #[trigger] t[i].name,
        #[trigger] t[j].name,
    ) by {
        if j == at {
            assert(t[i] == s[i]);
        } else if i == at {
            assert(t[j] == s[j - 1]);
        } else if i < at && j > at {
            assert(t[i] == s[i] && t[j] == s[j - 1]);
        } else if i < at {
            assert(t[i] == s[i] && t[j] == s[j]);
        } else {
            assert(t[i] == s[i - 1] && t[j] == s[j - 1]);
        }
    }
    assert forall|r: Registered<H>| #[trigger]
        t.contains(r) <==> (if r.name == e.name {
            r == e
        } else {
            s.contains(r)
        }) by {
        if t.contains(r) {
            let k = choose|k: int| 0 <= k < t.len() && t[k] == r;
            if k < at {
                assert(s[k] == r);
            } else if k > at {
                assert(s[k - 1] == r);
            }
        }
        if s.contains(r) {
            let k = choose|k: int| 0 <= k < s.len() && s[k] == r;
            if k < at {
                assert(t[k] == r);
            } else {
                assert(t[k + 1] == r);
            }
        }
        assert(t[at] == e);
    }
}

proof fn lemma_update_keeps_names_ascending<H>(s: Seq<Registered<H>>, at: int, e: Registered<H>)
    requires
        names_ascending(s),
        0 <= at < s.len(),
        s[at].name == e.name,
    ensures
        names_ascending(s.update(at, e)),
        has_name(s, e.name),
        forall|r: Registered<H>| #[trigger]
            s.update(at, e).contains(r) <==> (if r.name == e.name {
                r == e
            } else {
                s.contains(r)
            }),
{
    let t = s.update(at, e);
    assert forall|k: int| 0 <= k < s.len() && k != at implies #[trigger] s[k].name != e.name by {
        lemma_str_lt_irreflexive(e.name);
        if k < at {
            assert(str_lt(s[k].name, s[at].name));
        } else {
            assert(str_lt(s[at].name, s[k].name));
        }
    }
    assert forall|i: int, j: int| 0 <= i < j < t.len() implies str_lt(
        #[trigger] t[i].name,
        #[trigger] t[j].name,
    ) by {
        assert(t[i].name == s[i].name && t[j].name == s[j].name);
    }
    assert forall|r: Registered<H>| #[trigger]
        t.contains(r) <==> (if r.name == e.name {
            r == e
        } else {
            s.contains(r)
        }) by {
        if t.contains(r) {
            let k = choose|k: int| 0 <= k < t.len() && t[k] == r;
            if k != at {
                assert(s[k] == r);
            }
        }
        if s.contains(r) {
            let k = choose|k: int| 0 <= k < s.len() && s[k] == r;
            if k != at {
                assert(t[k] == r);
            }
        }
        assert(t[at] == e);
    }
}

impl<H> Dispatcher<H> {
    /// The names of the registry are in ascending order.
    pub open spec fn wf(&self) -> bool {
        names_ascending(self@)
    }

    /// A registry without entries.
    pub fn new() -> (r: Self)
        ensures
            r.wf(),
            r@.len() == 0,
    {
        Dispatcher { entries: Vec::new() }
    }

    /// Registers `handler` under `name` with `signature`, in place of
    /// whatever was registered under that name.
    pub fn insert(&mut self, name: String, signature: Signature, handler: H)
        requires
            old(self).wf(),
        ensures
            registers(
                old(self)@,
                final(self)@,
                Registered { name: name@, signature: signature@, handler },
            ),
    {
        let ghost before = self@;
        let ghost entry = Registered { name: name@, signature: signature@, handler };
        let mut i: usize = 0;
        while i < self.entries.len()
            invariant
                i <= self.entries.len(),
                self.entries@ == old(self).entries@,
                before == self@,
                names_ascending(before),
                entry == (Registered { name: name@, signature: signature@, handler }),
                forall|k: int| 0 <= k < i ==> str_lt(before[k].name, name@),
            decreases self.entries.len() - i,
        {
            match compare_str(name.as_str(), self.entries[i].name.as_str()) {
                Order::Greater => {
                    assert(before[i as int].name == self.entries@[i as int].name@);
                    i += 1;
                },
                Order::Equal => {
                    self.entries.set(i, Entry { name, signature, handler });
                    proof {
                        assert(before[i as int].name == entry.name);
                        assert(self@ =~= before.update(i as int, entry));
                        lemma_update_keeps_names_ascending(before, i as int, entry);
                    }
                    return ;
                },
                Order::Less => {
                    self.entries.insert(i, Entry { name, signature, handler });
                    proof {
                        assert(str_lt(entry.name, before[i as int].name));
                        assert(self@ =~= before.insert(i as int, entry));
                        lemma_insert_keeps_names_ascending(before, i as int, entry);
                    }
                    return ;
                },
            }
        }
        self.entries.push(Entry { name, signature, handler });
        proof {
            assert(self@ =~= before.insert(i as int, entry));
            lemma_insert_keeps_names_ascending(before, i as int, entry);
        }
    }

    /// Registers a function under its own name, with the signature that it
    /// states.
    pub fn add<RFn>(&mut self, rfn: RFn) where
        RFn: RpcFunction,
        H: From<CallableRpcFunction<RFn>>,

        requires
            old(self).wf(),
            !states(rfn, None),
        ensures
            exists|entry: Registered<H>|
                names_itself(rfn, entry.name) && states(rfn, Some(entry.signature)) && erases(
                    rfn,
                    entry.signature,
                    entry.handler,
                ) && #[trigger] registers(old(self)@, final(self)@, entry),
    {
        self.insert_callable(CallableRpcFunction::new(rfn));
    }

    /// Registers a function under its own name, with the signature
    /// inferred from its native types.
    pub fn add_infer_signature<RFn>(&mut self, rfn: RFn) where
        RFn: RpcFunction,
        RFn::Domain: InferType,
        RFn::Range: InferType,
        H: From<CallableRpcFunction<RFn>>,

        requires
            old(self).wf(),
        ensures
            exists|entry: Registered<H>|
                names_itself(rfn, entry.name) && entry.signature == RFn::inferred_signature()
                    && erases(rfn, entry.signature, entry.handler) && #[trigger] registers(
                    old(self)@,
                    final(self)@,
                    entry,
                ),
    {
        self.insert_callable(CallableRpcFunction::new_infer_signature(rfn));
    }

    fn insert_callable<RFn>(&mut self, crfn: CallableRpcFunction<RFn>) where
        RFn: RpcFunction,
        H: From<CallableRpcFunction<RFn>>,

        requires
            old(self).wf(),
        ensures
            exists|entry: Registered<H>|
                names_itself(crfn.rpc_function, entry.name) && entry.signature == crfn.signature@
                    && erases(crfn.rpc_function, entry.signature, entry.handler)
                    && #[trigger] registers(old(self)@, final(self)@, entry),
    {
        let name = crfn.name().to_owned();
        let signature = crfn.signature();
        let handler = H::from(crfn);
        let ghost entry = Registered { name: name@, signature: signature@, handler };
        self.insert(name, signature, handler);
        assert(registers(old(self)@, self@, entry));
    }

    /// Finds the entry registered under `name`, by bisection over the
    /// ordered names. The name must match exactly.
    pub fn call(&self, name: &str) -> (r: Result<&Entry<H>, DispatchError>)
        requires
            self.wf(),
        ensures
            r is Ok <==> has_name(self@, name@),
            r matches Ok(entry) ==> entry@.name == name@ && self@.contains(entry@),
            r matches Err(e) ==> e@ == DispatchErrorView::NoSuchFunction,
    {
        let mut lo: usize = 0;
        let mut hi: usize = self.entries.len();
        while lo < hi
            invariant
                lo <= hi <= self.entries.len(),
                self@.len() == self.entries.len(),
                names_ascending(self@),
                forall|k: int| 0 <= k < lo ==> str_lt(self@[k].name, name@),
                forall|k: int| hi <= k < self@.len() ==> str_lt(name@, self@[k].name),
            decreases hi - lo,
        {
            let mid = lo + (hi - lo) / 2;
            assert(self@[mid as int] == self.entries@[mid as int]@);
            match compare_str(self.entries[mid].name.as_str(), name) {
                Order::Equal => {
                    assert(self@[mid as int].name == name@);
                    return Ok(&self.entries[mid]);
                },
                Order::Less => {
                    proof {
                        assert forall|k: int| 0 <= k < mid + 1 implies str_lt(
                            self@[k].name,
                            name@,
                        ) by {
                            if k < mid {
                                assert(str_lt(self@[k].name, self@[mid as int].name));
                                lemma_str_lt_transitive(
                                    self@[k].name,
                                    self@[mid as int].name,
                                    name@,
                                );
                            }
                        }
                    }
                    lo = mid + 1;
                },
                Order::Greater => {
                    proof {
                        assert forall|k: int| mid <= k < self@.len() implies str_lt(
                            name@,
                            self@[k].name,
                        ) by {
                            if k > mid {
                                assert(str_lt(self@[mid as int].name, self@[k].name));
                                lemma_str_lt_transitive(
                                    name@,
                                    self@[mid as int].name,
                                    self@[k].name,
                                );
                            }
                        }
                    }
                    hi = mid;
                },
            }
        }
        proof {
            lemma_str_lt_irreflexive(name@);
            assert forall|k: int| 0 <= k < self@.len() implies self@[k].name != name@ by {
                if k < lo {
                    assert(str_lt(self@[k].name, name@));
                } else {
                    assert(str_lt(name@, self@[k].name));
                }
            }
        }
        Err(DispatchError::NoSuchFunction)
    }

    /// The directory: every registered function with its signature, in
    /// ascending order of the names.
    pub fn rpc_functions(&self) -> (r: Vec<RpcFunctionInfo>)
        ensures
            lists(r@, self@),
            self.wf() ==> directory_ascending(r@),
    {
        let mut directory: Vec<RpcFunctionInfo> = Vec::new();
        let mut i: usize = 0;
        while i < self.entries.len()
            invariant
                i <= self.entries.len(),
                directory.len() == i,
                forall|k: int|
                    0 <= k < i ==> (#[trigger] directory@[k])@ == (RpcFunctionInfoView {
                        name: self@[k].name,
                        signature: self@[k].signature,
                    }),
            decreases self.entries.len() - i,
        {
            let entry = &self.entries[i];
            assert(self@[i as int] == entry@);
            directory.push(RpcFunctionInfo::new(entry.name.clone(), entry.signature.clone()));
            i += 1;
        }
        proof {
            if self.wf() {
                assert forall|a: int, b: int| 0 <= a < b < directory@.len() implies str_lt(
                    (#[trigger] directory@[a])@.name,
                    (#[trigger] directory@[b])@.name,
                ) by {
                    assert(str_lt(self@[a].name, self@[b].name));
                }
            }
        }
        directory
    }

    /// What the caller of a function gets: the value, or why there is
    /// none.
    pub fn finish(outcome: Result<Value, CallError>) -> (r: Result<Value, DispatchError>)
        ensures
            match outcome {
                Ok(v) => r == Ok::<Value, DispatchError>(v),
                Err(e) => r == Err::<Value, DispatchError>(DispatchError::CallError(e)),
            },
    {
        match outcome {
            Ok(v) => Ok(v),
            Err(e) => Err(DispatchError::from(e)),
        }
    }
}

/// After a registration the registry knows the registered name and the
/// names it knew before, and no others.
pub proof fn lemma_registered_names<H>(
    before: Seq<Registered<H>>,
    after: Seq<Registered<H>>,
    entry: Registered<H>,
    name: Seq<char>,
)
    requires
        registers(before, after, entry),
    ensures
        has_name(after, name) <==> (name == entry.name || has_name(before, name)),
{
    assert(after.contains(entry));
    if has_name(after, name) && name != entry.name {
        let i = choose|i: int| 0 <= i < after.len() && after[i].name == name;
        assert(after.contains(after[i]));
        assert(before.contains(after[i]));
    }
    if has_name(before, name) && name != entry.name {
        let i = choose|i: int| 0 <= i < before.len() && before[i].name == name;
        assert(before.contains(before[i]));
        assert(after.contains(before[i]));
    }
    if name == entry.name {
        let i = choose|i: int| 0 <= i < after.len() && after[i] == entry;
        assert(after[i].name == name);
    }
}

/// After a registration the directory has exactly one entry under the
/// registered name, and it shows the registered signature.
pub proof fn lemma_directory_lists_once<H>(
    before: Seq<Registered<H>>,
    after: Seq<Registered<H>>,
    entry: Registered<H>,
    directory: Seq<RpcFunctionInfo>,
)
    requires
        registers(before, after, entry),
        lists(directory, after),
    ensures
        exists|i: int|
            0 <= i < directory.len() && (#[trigger] directory[i])@ == (RpcFunctionInfoView {
                name: entry.name,
                signature: entry.signature,
            }),
        forall|i: int, j: int|
            0 <= i < directory.len() && 0 <= j < directory.len() && (#[trigger] directory[i])@.name
                == entry.name && (#[trigger] directory[j])@.name == entry.name ==> i == j,
{
    lemma_registered_once(before, after, entry);
    let i = choose|i: int| 0 <= i < after.len() && after[i] == entry;
    assert(directory[i]@ == (RpcFunctionInfoView {
        name: entry.name,
        signature: entry.signature,
    }));
    assert forall|i: int, j: int|
        0 <= i < directory.len() && 0 <= j < directory.len() && (#[trigger] directory[i])@.name
            == entry.name && (#[trigger] directory[j])@.name == entry.name implies i == j by {
        assert(after[i].name == entry.name);
        assert(after[j].name == entry.name);
    }
}

/// After a registration the registry has exactly one entry under the
/// registered name, and it is the registered one.
pub proof fn lemma_registered_once<H>(
    before: Seq<Registered<H>>,
    after: Seq<Registered<H>>,
    entry: Registered<H>,
)
    requires
        registers(before, after, entry),
    ensures
        exists|i: int| 0 <= i < after.len() && after[i] == entry,
        forall|i: int, j: int|
            0 <= i < after.len() && 0 <= j < after.len() && after[i].name == entry.name
                && after[j].name == entry.name ==> i == j,
{
    assert(after.contains(entry));
    assert forall|i: int, j: int|
        0 <= i < after.len() && 0 <= j < after.len() && after[i].name == entry.name
            && after[j].name == entry.name implies i == j by {
        lemma_str_lt_irreflexive(entry.name);
        if i < j {
            assert(str_lt(after[i].name, after[j].name));
        } else if j < i {
            assert(str_lt(after[j].name, after[i].name));
        }
    }
}

/// A second registration under the same name replaces the first: the
/// registry keeps its size, and holds the second entry under that name
/// and no other.
pub proof fn lemma_second_registration_replaces<H>(
    start: Seq<Registered<H>>,
    once: Seq<Registered<H>>,
    twice: Seq<Registered<H>>,
    first: Registered<H>,
    second: Registered<H>,
)
    requires
        registers(start, once, first),
        registers(once, twice, second),
        first.name == second.name,
    ensures
        twice.len() == once.len(),
        twice.contains(second),
        forall|r: Registered<H>| twice.contains(r) && r.name == first.name ==> r == second,
        forall|r: Registered<H>| r.name != first.name ==> (twice.contains(r) <==> start.contains(r)),
{
    assert(once.contains(first));
    let i = choose|i: int| 0 <= i < once.len() && once[i] == first;
    assert(once[i].name == second.name);
}

/// Two registries in ascending order with the same entries are the same
/// registry.
pub proof fn lemma_names_ascending_unique<H>(s: Seq<Registered<H>>, t: Seq<Registered<H>>)
    requires
        names_ascending(s),
        names_ascending(t),
        forall|r: Registered<H>| s.contains(r) <==> t.contains(r),
    ensures
        s == t,
    decreases s.len(),
{
    if s.len() == 0 {
        if t.len() > 0 {
            assert(t.contains(t[0]));
        }
        assert(s =~= t);
    } else {
        assert(s.contains(s[0]));
        let j = choose|j: int| 0 <= j < t.len() && t[j] == s[0];
        assert(t.contains(t[0]));
        let i = choose|i: int| 0 <= i < s.len() && s[i] == t[0];
        lemma_str_lt_irreflexive(s[0].name);
        if j > 0 {
            assert(str_lt(t[0].name, t[j].name));
            if i > 0 {
                assert(str_lt(s[0].name, s[i].name));
                lemma_str_lt_transitive(s[0].name, t[0].name, s[0].name);
            }
        }
        assert(s[0] == t[0]);
        let s1 = s.drop_first();
        let t1 = t.drop_first();
        assert forall|x: Registered<H>| s1.contains(x) <==> t1.contains(x) by {
            lemma_str_lt_irreflexive(x.name);
            if s1.contains(x) {
                let k = choose|k: int| 0 <= k < s1.len() && s1[k] == x;
                assert(s[k + 1] == x);
                assert(str_lt(s[0].name, s[k + 1].name));
                assert(s.contains(x));
                let m = choose|m: int| 0 <= m < t.len() && t[m] == x;
                assert(m > 0);
                assert(t1[m - 1] == x);
            }
            if t1.contains(x) {
                let k = choose|k: int| 0 <= k < t1.len() && t1[k] == x;
                assert(t[k + 1] == x);
                assert(str_lt(t[0].name, t[k + 1].name));
                assert(t.contains(x));
                let m = choose|m: int| 0 <= m < s.len() && s[m] == x;
                assert(m > 0);
                assert(s1[m - 1] == x);
            }
        }
        assert forall|a: int, b: int| 0 <= a < b < s1.len() implies str_lt(
            #[trigger] s1[a].name,
            #[trigger] s1[b].name,
        ) by {
            assert(str_lt(s[a + 1].name, s[b + 1].name));
        }
        assert forall|a: int, b: int| 0 <= a < b < t1.len() implies str_lt(
            #[trigger] t1[a].name,
            #[trigger] t1[b].name,
        ) by {
            assert(str_lt(t[a + 1].name, t[b + 1].name));
        }
        lemma_names_ascending_unique(s1, t1);
        assert(s =~= seq![s[0]] + s1);
        assert(t =~= seq![t[0]] + t1);
    }
}

/// A registration has one outcome: the registry before it and the entry
/// determine the registry after it.
pub proof fn lemma_registration_determined<H>(
    before: Seq<Registered<H>>,
    one: Seq<Registered<H>>,
    other: Seq<Registered<H>>,
    entry: Registered<H>,
)
    requires
        registers(before, one, entry),
        registers(before, other, entry),
    ensures
        one == other,
{
    lemma_names_ascending_unique(one, other);
}

} // verus!
