//! The messages between client and server, and what each side decides on
//! them. Sending and receiving are left to the transport.

use crate::codec::{Decode, DecodeTypeCheck, Encode, InferType};
use crate::dispatcher::{
    directory_ascending, erases, has_name, lists, names_ascending, names_itself, registers,
    states, CallError, CallableRpcFunction, DispatchError, DispatchErrorView, Dispatcher, Entry,
    InferSignature, Registered, RpcFunction, RpcFunctionInfo,
};
use crate::types::{admits, native_mismatch_text, type_mismatch_text, TypeMismatchError};
use crate::value::Value;
use vstd::prelude::*;

verus! {

/// What a client asks of a server.
#[derive(Debug)]
pub enum Request {
    Ping,
    RpcFunctions,
    Call { name: String, args: Value },
}

/// What a server answers, once for each request.
#[derive(Debug)]
pub enum Response {
    Ping,
    RpcFunctions(Vec<RpcFunctionInfo>),
    Call(Result<Value, DispatchError>),
}

/// What the server does on a request: answer at once, or invoke a handler
/// and answer with its outcome.
pub enum Step<'a, H> {
    Reply(Response),
    Invoke { entry: &'a Entry<H>, args: Value },
}

/// Why a response gave the client no result.
#[derive(Debug)]
pub enum ClientError {
    /// The response is not of the variant that answers the request.
    UnexpectedResponse(Response),
    /// The server could not dispatch the call, or a type check failed there.
    Call(DispatchError),
    /// The returned value does not convert to the expected native type.
    Decode(TypeMismatchError),
}

/// A registry of functions behind the request protocol.
pub struct Server<H> {
    dispatcher: Dispatcher<H>,
}

impl<H> View for Server<H> {
    type V = Seq<Registered<H>>;

    closed spec fn view(&self) -> Seq<Registered<H>> {
        self.dispatcher@
    }
}

impl<H> Default for Server<H> {
    fn default() -> (r: Self)
        ensures
            r.wf(),
            r@.len() == 0,
    {
        Server::new()
    }
}

impl<H> Server<H> {
    /// The names of the registry are in ascending order.
    pub open spec fn wf(&self) -> bool {
        names_ascending(self@)
    }

    /// A server without functions.
    pub fn new() -> (r: Self)
        ensures
            r.wf(),
            r@.len() == 0,
    {
        Server { dispatcher: Dispatcher::new() }
    }

    /// Registers a function under its own name, with the signature that it
    /// states.
    pub fn add<RFn>(&mut self, rfn: RFn) where
        RFn: RpcFunction,
        H: From<CallableRpcFunction<RFn>>,

        requires
            old(self).wf(),
            !states(rfn, None),
        ensures
            exists|entry: Registered<H>|
                names_itself(rfn, entry.name) && states(rfn, Some(entry.signature)) && erases(
                    rfn,
                    entry.signature,
                    entry.handler,
                ) && #[trigger] registers(old(self)@, final(self)@, entry),
    {
        self.dispatcher.add(rfn);
        proof {
            let entry = choose|entry: Registered<H>|
                names_itself(rfn, entry.name) && states(rfn, Some(entry.signature)) && erases(
                    rfn,
                    entry.signature,
                    entry.handler,
                ) && #[trigger] registers(old(self).dispatcher@, self.dispatcher@, entry);
            assert(registers(old(self)@, self@, entry));
        }
    }

    /// Registers a function under its own name, with the signature
    /// inferred from its native types.
    pub fn add_infer_signature<RFn>(&mut self, rfn: RFn) where
        RFn: RpcFunction,
        RFn::Domain: InferType,
        RFn::Range: InferType,
        H: From<CallableRpcFunction<RFn>>,

        requires
            old(self).wf(),
        ensures
            exists|entry: Registered<H>|
                names_itself(rfn, entry.name) && entry.signature == RFn::inferred_signature()
                    && erases(rfn, entry.signature, entry.handler) && #[trigger] registers(
                    old(self)@,
                    final(self)@,
                    entry,
                ),
    {
        self.dispatcher.add_infer_signature(rfn);
        proof {
            let entry = choose|entry: Registered<H>|
                names_itself(rfn, entry.name) && entry.signature == RFn::inferred_signature()
                    && erases(rfn, entry.signature, entry.handler) && #[trigger] registers(
                    old(self).dispatcher@,
                    self.dispatcher@,
                    entry,
                );
            assert(registers(old(self)@, self@, entry));
        }
    }

    /// Decides what a request asks for. A ping and a directory query are
    /// answered at once; a call to a registered name is to be run by its
    /// handler, and a call to any other name fails without one.
    pub fn handle_request(&self, req: Request) -> (step: Step<'_, H>)
        requires
            self.wf(),
        ensures
            match req {
                Request::Ping => step matches Step::Reply(Response::Ping),
                Request::RpcFunctions => step matches Step::Reply(Response::RpcFunctions(d))
                    && lists(d@, self@) && directory_ascending(d@),
                Request::Call { name, args } => if has_name(self@, name@) {
                    step matches Step::Invoke { entry, args: given } && entry@.name == name@
                        && self@.contains(entry@) && given == args
                } else {
                    step matches Step::Reply(Response::Call(Err(e))) && e@
                        == DispatchErrorView::NoSuchFunction
                },
            },
    {
        match req {
            Request::Ping => Step::Reply(Response::Ping),
            Request::RpcFunctions => Step::Reply(
                Response::RpcFunctions(self.dispatcher.rpc_functions()),
            ),
            Request::Call { name, args } => match self.dispatcher.call(name.as_str()) {
                Ok(entry) => Step::Invoke { entry, args },
                Err(e) => Step::Reply(Response::Call(Err(e))),
            },
        }
    }

    /// The response to a call whose handler ended with `outcome`.
    pub fn call_response(outcome: Result<Value, CallError>) -> (r: Response)
        ensures
            match outcome {
                Ok(v) => r == Response::Call(Ok(v)),
                Err(e) => r == Response::Call(Err(DispatchError::CallError(e))),
            },
    {
        Response::Call(Dispatcher::<H>::finish(outcome))
    }
}

impl Request {
    /// The request that calls `name` with the encoding of `args`.
    pub fn call<D: Encode + InferType>(name: &str, args: D) -> (r: Request)
        ensures
            r matches Request::Call { name: n, args: a } && n@ == name@ && a@ == args.encoded(),
    {
        Request::Call { name: name.to_owned(), args: D::encode(args) }
    }
}

impl Response {
    /// Reads the answer to a ping: any other response is an error.
    pub fn expect_ping(self) -> (r: Result<(), ClientError>)
        ensures
            r is Ok <==> self is Ping,
            r matches Err(e) ==> e == ClientError::UnexpectedResponse(self),
    {
        match self {
            Response::Ping => Ok(()),
            other => Err(ClientError::UnexpectedResponse(other)),
        }
    }

    /// Reads the answer to a directory query: any other response is an
    /// error.
    pub fn expect_rpc_functions(self) -> (r: Result<Vec<RpcFunctionInfo>, ClientError>)
        ensures
            match self {
                Response::RpcFunctions(d) => r == Ok::<Vec<RpcFunctionInfo>, ClientError>(d),
                _ => r == Err::<Vec<RpcFunctionInfo>, ClientError>(
                    ClientError::UnexpectedResponse(self),
                ),
            },
    {
        match self {
            Response::RpcFunctions(d) => Ok(d),
            other => Err(ClientError::UnexpectedResponse(other)),
        }
    }

    /// Reads the answer to a call: the returned value is checked against
    /// the type inferred for `R` and converted; an error of the server is
    /// handed on; any other response is an error.
    pub fn expect_call<R: Decode + InferType>(self) -> (r: Result<R, ClientError>)
        ensures
            r is Ok <==> (self matches Response::Call(Ok(v)) && admits(R::inferred(), v@)
                && R::decodable(v@)),
            r matches Ok(native) ==> self matches Response::Call(Ok(v)) && R::decodes_to(
                v@,
                native,
            ),
            r matches Err(e) ==> match self {
                Response::Call(Ok(v)) => e matches ClientError::Decode(m) && m@ == if admits(
                    R::inferred(),
                    v@,
                ) {
                    native_mismatch_text(v@, R::native_name_spec())
                } else {
                    type_mismatch_text(R::inferred(), v@)
                },
                Response::Call(Err(cause)) => e == ClientError::Call(cause),
                _ => e == ClientError::UnexpectedResponse(self),
            },
    {
        match self {
            Response::Call(Ok(v)) => {
                let expected = R::infer_type();
                match R::decode_typeck(&expected, v) {
                    Ok(native) => Ok(native),
                    Err(m) => Err(ClientError::Decode(m)),
                }
            },
            Response::Call(Err(cause)) => Err(ClientError::Call(cause)),
            other => Err(ClientError::UnexpectedResponse(other)),
        }
    }
}

} // verus!
