//! A small, typed remote-procedure-call engine: dynamic values and types,
//! codecs between native and dynamic values, a name-keyed registry of
//! handlers, and the request/response protocol around them.

pub mod codec;
pub mod dispatcher;
pub mod lex;
pub mod net;
pub mod text;
pub mod types;
pub mod value;

pub use codec::{Decode, DecodeTypeCheck, Encode, EncodeTypeCheck, InferType};
pub use dispatcher::{CallError, DispatchError, Dispatcher, RpcFunction, RpcFunctionInfo};
pub use net::{Request, Response, Server};
pub use types::{Signature, Type, TypeMismatchError};
pub use value::Value;
