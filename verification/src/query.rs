//! Query kinds, reply kinds and the rules by which a decoded reply becomes a
//! result for the caller.

use vstd::prelude::*;
use vstd::string::StringExecFns;
use crate::Error;
use crate::trusted::io_error_other;

verus! {

/// The kind of a query sent to the server.
#[derive(Copy, Clone, Debug, PartialEq, Eq, Structural)]
pub enum QueryType {
    Start,
    Continue,
    Stop,
    NoReplyWait,
    ServerInfo,
}

/// The number by which a query kind travels on the wire.
pub open spec fn query_type_code(t: QueryType) -> u32 {
    match t {
        QueryType::Start => 1,
        QueryType::Continue => 2,
        QueryType::Stop => 3,
        QueryType::NoReplyWait => 4,
        QueryType::ServerInfo => 5,
    }
}

impl QueryType {
    /// The number by which this query kind travels on the wire.
    pub fn code(&self) -> (c: u32)
        ensures
            c == query_type_code(*self),
    {
        match self {
            QueryType::Start => 1,
            QueryType::Continue => 2,
            QueryType::Stop => 3,
            QueryType::NoReplyWait => 4,
            QueryType::ServerInfo => 5,
        }
    }
}

/// The kind of a reply from the server.
#[derive(Copy, Clone, Debug, PartialEq, Eq, Structural)]
pub enum ResponseType {
    SuccessAtom,
    SuccessSequence,
    SuccessPartial,
    WaitComplete,
    ServerInfo,
    ClientError,
    CompileError,
    RuntimeError,
}

/// The number by which a reply kind travels on the wire.
pub open spec fn response_type_code(t: ResponseType) -> u32 {
    match t {
        ResponseType::SuccessAtom => 1,
        ResponseType::SuccessSequence => 2,
        ResponseType::SuccessPartial => 3,
        ResponseType::WaitComplete => 4,
        ResponseType::ServerInfo => 5,
        ResponseType::ClientError => 16,
        ResponseType::CompileError => 17,
        ResponseType::RuntimeError => 18,
    }
}

impl ResponseType {
    /// The number by which this reply kind travels on the wire.
    pub fn code(&self) -> (c: u32)
        ensures
            c == response_type_code(*self),
    {
        match self {
            ResponseType::SuccessAtom => 1,
            ResponseType::SuccessSequence => 2,
            ResponseType::SuccessPartial => 3,
            ResponseType::WaitComplete => 4,
            ResponseType::ServerInfo => 5,
            ResponseType::ClientError => 16,
            ResponseType::CompileError => 17,
            ResponseType::RuntimeError => 18,
        }
    }

    /// The reply kind that a wire number stands for, if any.
    pub fn from_code(c: u32) -> (t: Option<ResponseType>)
        ensures
            t matches Some(k) ==> response_type_code(k) == c,
            t is None ==> forall|k: ResponseType| response_type_code(k) != c,
    {
        match c {
            1 => Some(ResponseType::SuccessAtom),
            2 => Some(ResponseType::SuccessSequence),
            3 => Some(ResponseType::SuccessPartial),
            4 => Some(ResponseType::WaitComplete),
            5 => Some(ResponseType::ServerInfo),
            16 => Some(ResponseType::ClientError),
            17 => Some(ResponseType::CompileError),
            18 => Some(ResponseType::RuntimeError),
            _ => None,
        }
    }
}

/// The wire numbers of the protocol: the query kinds 1 to 5; the reply
/// kinds 1 to 5 for the successes and 16, 17, 18 for the client, compile and
/// runtime errors; the runtime error classes; the notes 1 to 5.
pub proof fn lemma_wire_numbers()
    ensures
        query_type_code(QueryType::Start) == 1,
        query_type_code(QueryType::Continue) == 2,
        query_type_code(QueryType::Stop) == 3,
        query_type_code(QueryType::NoReplyWait) == 4,
        query_type_code(QueryType::ServerInfo) == 5,
        response_type_code(ResponseType::SuccessAtom) == 1,
        response_type_code(ResponseType::SuccessSequence) == 2,
        response_type_code(ResponseType::SuccessPartial) == 3,
        response_type_code(ResponseType::WaitComplete) == 4,
        response_type_code(ResponseType::ServerInfo) == 5,
        response_type_code(ResponseType::ClientError) == 16,
        response_type_code(ResponseType::CompileError) == 17,
        response_type_code(ResponseType::RuntimeError) == 18,
        runtime_error_code(ReqlRuntimeError::Internal) == 1000000,
        runtime_error_code(ReqlRuntimeError::ResourceLimit) == 2000000,
        runtime_error_code(ReqlRuntimeError::QueryLogic) == 3000000,
        runtime_error_code(ReqlRuntimeError::NonExistence) == 3100000,
        runtime_error_code(ReqlRuntimeError::OpFailed) == 4100000,
        runtime_error_code(ReqlRuntimeError::OpIndeterminate) == 4200000,
        runtime_error_code(ReqlRuntimeError::User) == 5000000,
        runtime_error_code(ReqlRuntimeError::PermissionError) == 6000000,
        response_note_code(ResponseNote::SequenceFeed) == 1,
        response_note_code(ResponseNote::AtomFeed) == 2,
        response_note_code(ResponseNote::OrderByLimitFeed) == 3,
        response_note_code(ResponseNote::UnionedFeed) == 4,
        response_note_code(ResponseNote::IncludeStates) == 5,
{
}

/// Each reply kind travels under a number of its own, so that reading a
/// number back gives the kind that was written.
pub proof fn lemma_response_type_code_injective(a: ResponseType, b: ResponseType)
    ensures
        response_type_code(a) == response_type_code(b) ==> a == b,
{
}

/// The class of a runtime error that the server reports.
#[derive(Copy, Clone, Debug, PartialEq, Eq, Structural)]
pub enum ReqlRuntimeError {
    Internal,
    ResourceLimit,
    QueryLogic,
    NonExistence,
    OpFailed,
    OpIndeterminate,
    User,
    PermissionError,
}

/// The number by which a runtime error class travels on the wire.
pub open spec fn runtime_error_code(e: ReqlRuntimeError) -> u32 {
    match e {
        ReqlRuntimeError::Internal => 1000000,
        ReqlRuntimeError::ResourceLimit => 2000000,
        ReqlRuntimeError::QueryLogic => 3000000,
        ReqlRuntimeError::NonExistence => 3100000,
        ReqlRuntimeError::OpFailed => 4100000,
        ReqlRuntimeError::OpIndeterminate => 4200000,
        ReqlRuntimeError::User => 5000000,
        ReqlRuntimeError::PermissionError => 6000000,
    }
}

impl ReqlRuntimeError {
    /// The number by which this error class travels on the wire.
    pub fn code(&self) -> (c: u32)
        ensures
            c == runtime_error_code(*self),
    {
        match self {
            ReqlRuntimeError::Internal => 1000000,
            ReqlRuntimeError::ResourceLimit => 2000000,
            ReqlRuntimeError::QueryLogic => 3000000,
            ReqlRuntimeError::NonExistence => 3100000,
            ReqlRuntimeError::OpFailed => 4100000,
            ReqlRuntimeError::OpIndeterminate => 4200000,
            ReqlRuntimeError::User => 5000000,
            ReqlRuntimeError::PermissionError => 6000000,
        }
    }

    /// The error class that a wire number stands for, if any.
    pub fn from_code(c: u32) -> (e: Option<ReqlRuntimeError>)
        ensures
            e matches Some(k) ==> runtime_error_code(k) == c,
            e is None ==> forall|k: ReqlRuntimeError| runtime_error_code(k) != c,
    {
        match c {
            1000000 => Some(ReqlRuntimeError::Internal),
            2000000 => Some(ReqlRuntimeError::ResourceLimit),
            3000000 => Some(ReqlRuntimeError::QueryLogic),
            3100000 => Some(ReqlRuntimeError::NonExistence),
            4100000 => Some(ReqlRuntimeError::OpFailed),
            4200000 => Some(ReqlRuntimeError::OpIndeterminate),
            5000000 => Some(ReqlRuntimeError::User),
            6000000 => Some(ReqlRuntimeError::PermissionError),
            _ => None,
        }
    }
}

/// Each runtime error class travels under a number of its own, so that
/// reading a number back gives the class that was written.
pub proof fn lemma_runtime_error_code_injective(a: ReqlRuntimeError, b: ReqlRuntimeError)
    ensures
        runtime_error_code(a) == runtime_error_code(b) ==> a == b,
{
}

/// A note that the server attaches to a reply about a changefeed.
#[derive(Copy, Clone, Debug, PartialEq, Eq, Structural)]
pub enum ResponseNote {
    SequenceFeed,
    AtomFeed,
    OrderByLimitFeed,
    UnionedFeed,
    IncludeStates,
}

/// The number by which a note travels on the wire.
pub open spec fn response_note_code(n: ResponseNote) -> u32 {
    match n {
        ResponseNote::SequenceFeed => 1,
        ResponseNote::AtomFeed => 2,
        ResponseNote::OrderByLimitFeed => 3,
        ResponseNote::UnionedFeed => 4,
        ResponseNote::IncludeStates => 5,
    }
}

impl ResponseNote {
    /// The note that a wire number stands for, if any.
    pub fn from_code(c: u32) -> (n: Option<ResponseNote>)
        ensures
            n matches Some(k) ==> response_note_code(k) == c,
            n is None ==> forall|k: ResponseNote| response_note_code(k) != c,
    {
        match c {
            1 => Some(ResponseNote::SequenceFeed),
            2 => Some(ResponseNote::AtomFeed),
            3 => Some(ResponseNote::OrderByLimitFeed),
            4 => Some(ResponseNote::UnionedFeed),
            5 => Some(ResponseNote::IncludeStates),
            _ => None,
        }
    }
}

/// The kind of a driver-side error.
#[derive(Copy, Clone, Debug, PartialEq, Eq, Structural)]
pub enum ReqlDriverError {
    BadRequest,
    Auth,
}

/// An error that the server reports for a query.
#[derive(Copy, Clone, Debug, PartialEq, Eq, Structural)]
pub enum ReqlError {
    Compile,
    Runtime(ReqlRuntimeError),
    Driver(ReqlDriverError),
}

/// One document of a reply: the value, or the message of why it could not be
/// read into the requested type.
#[derive(Clone, Debug)]
pub enum DocResult<T> {
    Value(T),
    Invalid(String),
}

/// A document as a plain result.
pub type Document<T> = Result<T, String>;

impl<T> DocResult<T> {
    /// The document, or a deserialization error that carries its message.
    pub fn into_result(self) -> (r: Result<T, Error>)
        ensures
            self is Value ==> r is Ok && r->Ok_0 == self->Value_0,
            self is Invalid ==> r is Err && r->Err_0 is Deserialize && r->Err_0->Deserialize_0 == self->Invalid_0,
    {
        match self {
            DocResult::Value(doc) => Ok(doc),
            DocResult::Invalid(err) => Err(Error::Deserialize(err)),
        }
    }
}

/// A successful reply: its kind, its documents, its profile and its notes.
#[derive(Clone, Debug)]
pub struct Response<T> {
    pub response_type: ResponseType,
    pub result: Vec<DocResult<T>>,
    pub profile: Option<String>,
    pub notes: Option<Vec<ResponseNote>>,
}

impl<T> Response<T> {
    /// A reply of the given kind with no documents, profile or notes.
    pub fn new(ty: ResponseType) -> (r: Self)
        ensures
            r.response_type == ty,
            r.result@.len() == 0,
            r.profile is None,
            r.notes is None,
    {
        Response { response_type: ty, result: Vec::new(), profile: None, notes: None }
    }
}

/// The error part of a reply, for replies that are no success.
#[derive(Clone, Debug)]
pub struct ResponseWithError {
    pub response_type: ResponseType,
    pub error: Option<ReqlRuntimeError>,
    pub result: Option<[String; 1]>,
    pub backtrace: Option<Vec<usize>>,
}

/// What the bytes of a reply read as: a reply with documents, an error
/// reply, or neither (with the reason).
#[derive(Clone, Debug)]
pub enum ParsedReply<T> {
    Success(Response<T>),
    Failure(ResponseWithError),
    Unreadable(String),
}

/// The message of an error reply: its one string, or the empty one.
pub open spec fn error_message(result: Option<[String; 1]>) -> Seq<char> {
    match result {
        Some(a) => a@[0]@,
        None => Seq::empty(),
    }
}

fn message_of(result: Option<[String; 1]>) -> (m: String)
    ensures
        m@ == error_message(result),
{
    match result {
        Some(a) => a[0].clone(),
        None => String::new(),
    }
}

/// What a reply leads to: a reply with documents is the result; an error
/// reply of a client, compile or runtime error is that error with its message
/// (a runtime error without its class counts as internal); unreadable bytes,
/// and an error reply of any other kind, are an invalid reply.
pub open spec fn is_reply_outcome<T>(reply: ParsedReply<T>, r: Result<Response<T>, Error>) -> bool {
    &&& reply is Success ==> r is Ok && r->Ok_0 == reply->Success_0
    &&& reply is Unreadable ==> r is Err && r->Err_0 is InvalidReply
        && r->Err_0->InvalidReply_0 == reply->Unreadable_0
    &&& reply is Failure ==> ({
        let f = reply->Failure_0;
        &&& f.response_type == ResponseType::ClientError ==> r is Err && r->Err_0 is Reql
            && r->Err_0->Reql_0 == ReqlError::Driver(ReqlDriverError::BadRequest)
            && r->Err_0->Reql_1@ == error_message(f.result)
        &&& f.response_type == ResponseType::CompileError ==> r is Err && r->Err_0 is Reql
            && r->Err_0->Reql_0 == ReqlError::Compile
            && r->Err_0->Reql_1@ == error_message(f.result)
        &&& f.response_type == ResponseType::RuntimeError ==> r is Err && r->Err_0 is Reql
            && r->Err_0->Reql_0 == ReqlError::Runtime(
                match f.error {
                    Some(e) => e,
                    None => ReqlRuntimeError::Internal,
                },
            )
            && r->Err_0->Reql_1@ == error_message(f.result)
        &&& f.response_type != ResponseType::ClientError && f.response_type != ResponseType::CompileError
            && f.response_type != ResponseType::RuntimeError ==> r is Err && r->Err_0 is InvalidReply
            && r->Err_0->InvalidReply_0@.len() == 0
    })
}

impl<T> Response<T> {
    /// The outcome of a reply, from what its bytes read as: a reply with
    /// documents is the result; an error reply of a client, compile or
    /// runtime error is that error with its message (a runtime error without
    /// its class counts as internal); unreadable bytes, and an error reply of
    /// any other kind, are an invalid reply.
    pub fn from_reply(reply: ParsedReply<T>) -> (r: Result<Response<T>, Error>)
        ensures
            is_reply_outcome(reply, r),
    {
        match reply {
            ParsedReply::Success(v) => Ok(v),
            ParsedReply::Unreadable(msg) => Err(Error::InvalidReply(msg)),
            ParsedReply::Failure(f) => {
                if f.response_type == ResponseType::ClientError {
                    Err(Error::Reql(ReqlError::Driver(ReqlDriverError::BadRequest), message_of(f.result)))
                } else if f.response_type == ResponseType::CompileError {
                    Err(Error::Reql(ReqlError::Compile, message_of(f.result)))
                } else if f.response_type == ResponseType::RuntimeError {
                    let class = match f.error {
                        Some(e) => e,
                        None => ReqlRuntimeError::Internal,
                    };
                    Err(Error::Reql(ReqlError::Runtime(class), message_of(f.result)))
                } else {
                    Err(Error::InvalidReply(String::new()))
                }
            },
        }
    }

    /// The outcome of a blocking exchange: a query sent without reply is
    /// answered at once with an empty sequence (nothing is read); otherwise
    /// the reply decides (see `from_reply`).
    pub fn from_exchange(reply: Option<ParsedReply<T>>) -> (r: Result<Response<T>, Error>)
        ensures
            reply is None ==> r is Ok && r->Ok_0.response_type == ResponseType::SuccessSequence
                && r->Ok_0.result@.len() == 0 && r->Ok_0.profile is None && r->Ok_0.notes is None,
            reply matches Some(p) ==> is_reply_outcome(p, r),
    {
        match reply {
            None => Ok(Response::new(ResponseType::SuccessSequence)),
            Some(p) => Self::from_reply(p),
        }
    }

    /// The outcome of an asynchronous dispatch: a query sent without reply
    /// is answered with an empty atom; a reply decides (see `from_reply`);
    /// an error of the dispatch is the outcome.
    pub fn from_dispatch(dispatched: Result<Option<ParsedReply<T>>, Error>) -> (r: Result<Response<T>, Error>)
        ensures
            dispatched matches Ok(None) ==> r is Ok && r->Ok_0.response_type == ResponseType::SuccessAtom
                && r->Ok_0.result@.len() == 0 && r->Ok_0.profile is None && r->Ok_0.notes is None,
            dispatched matches Ok(Some(p)) ==> is_reply_outcome(p, r),
            dispatched matches Err(e) ==> r == Err::<Response<T>, Error>(e),
    {
        match dispatched {
            Ok(None) => Ok(Response::new(ResponseType::SuccessAtom)),
            Ok(Some(p)) => Self::from_reply(p),
            Err(e) => Err(e),
        }
    }

    /// The last document of a reply, as a result: an invalid reply where the
    /// reply holds none.
    pub fn into_last_result(self) -> (r: Result<T, Error>)
        ensures
            self.result@.len() == 0 ==> r is Err && r->Err_0 is InvalidReply
                && r->Err_0->InvalidReply_0@ == "no results returned"@,
            self.result@.len() > 0 ==> (match self.result@.last() {
                DocResult::Value(v) => r is Ok && r->Ok_0 == v,
                DocResult::Invalid(m) => r is Err && r->Err_0 is Deserialize && r->Err_0->Deserialize_0 == m,
            }),
    {
        let mut result = self.result;
        match result.pop() {
            None => Err(Error::InvalidReply(String::from_str("no results returned"))),
            Some(doc) => doc.into_result(),
        }
    }
}

/// Checks that a reply answers the query that was sent: the tokens must
/// match, and otherwise the exchange failed with an I/O error.
pub fn check_reply_token(sent: u64, received: u64) -> (r: Result<(), Error>)
    ensures
        r is Ok <==> sent == received,
        r is Err ==> r->Err_0 is Io,
{
    if received != sent {
        return Err(Error::Io(io_error_other("tokens did not match")));
    }
    Ok(())
}

} // verus!
