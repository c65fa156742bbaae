use rethink_driver::query::{
    check_reply_token, DocResult, ParsedReply, QueryType, ReqlDriverError, ReqlError, ReqlRuntimeError, Response,
    ResponseNote, ResponseType, ResponseWithError,
};
use rethink_driver::Error;

fn failure(t: ResponseType, error: Option<ReqlRuntimeError>, msg: Option<&str>) -> ParsedReply<String> {
    ParsedReply::Failure(ResponseWithError {
        response_type: t,
        error,
        result: msg.map(|m| [m.to_string()]),
        backtrace: None,
    })
}

#[test]
fn wire_codes() {
    let qs = [QueryType::Start, QueryType::Continue, QueryType::Stop, QueryType::NoReplyWait, QueryType::ServerInfo];
    assert_eq!(qs.iter().map(|q| q.code()).collect::<Vec<_>>(), vec![1, 2, 3, 4, 5]);
    for c in 0..40u32 {
        if let Some(t) = ResponseType::from_code(c) {
            assert_eq!(t.code(), c);
        }
    }
    assert_eq!(ResponseType::from_code(3), Some(ResponseType::SuccessPartial));
    assert_eq!(ResponseType::from_code(18), Some(ResponseType::RuntimeError));
    assert_eq!(ResponseType::from_code(6), None);
    assert_eq!(ReqlRuntimeError::from_code(3100000), Some(ReqlRuntimeError::NonExistence));
    assert_eq!(ReqlRuntimeError::NonExistence.code(), 3100000);
    assert_eq!(ReqlRuntimeError::from_code(3100001), None);
    assert_eq!(ResponseNote::from_code(5), Some(ResponseNote::IncludeStates));
    assert_eq!(ResponseNote::from_code(0), None);
}

#[test]
fn doc_result_into_result() {
    assert_eq!(DocResult::Value(5).into_result().unwrap(), 5);
    match DocResult::<u8>::Invalid("bad".to_string()).into_result() {
        Err(Error::Deserialize(m)) => assert_eq!(m, "bad"),
        _ => panic!(),
    }
}

#[test]
fn reply_outcomes() {
    let ok = Response::<String>::new(ResponseType::SuccessAtom);
    assert!(ok.result.is_empty() && ok.profile.is_none() && ok.notes.is_none());
    assert!(matches!(Response::from_reply(ParsedReply::Success(ok)), Ok(r) if r.response_type == ResponseType::SuccessAtom));
    match Response::from_reply(failure(ResponseType::ClientError, None, Some("bad query"))) {
        Err(Error::Reql(ReqlError::Driver(ReqlDriverError::BadRequest), m)) => assert_eq!(m, "bad query"),
        _ => panic!(),
    }
    match Response::from_reply(failure(ResponseType::CompileError, None, None)) {
        Err(Error::Reql(ReqlError::Compile, m)) => assert_eq!(m, ""),
        _ => panic!(),
    }
    match Response::from_reply(failure(ResponseType::RuntimeError, Some(ReqlRuntimeError::OpFailed), Some("x"))) {
        Err(Error::Reql(ReqlError::Runtime(ReqlRuntimeError::OpFailed), m)) => assert_eq!(m, "x"),
        _ => panic!(),
    }
    match Response::from_reply(failure(ResponseType::RuntimeError, None, Some("y"))) {
        Err(Error::Reql(ReqlError::Runtime(ReqlRuntimeError::Internal), m)) => assert_eq!(m, "y"),
        _ => panic!(),
    }
    match Response::from_reply(failure(ResponseType::WaitComplete, None, Some("z"))) {
        Err(Error::InvalidReply(m)) => assert_eq!(m, ""),
        _ => panic!(),
    }
    match Response::<String>::from_reply(ParsedReply::Unreadable("expected value".to_string())) {
        Err(Error::InvalidReply(m)) => assert_eq!(m, "expected value"),
        _ => panic!(),
    }
}

#[test]
fn last_result_of_a_reply() {
    let mut r = Response::<u32>::new(ResponseType::ServerInfo);
    match Response::<u32>::new(ResponseType::ServerInfo).into_last_result() {
        Err(Error::InvalidReply(m)) => assert_eq!(m, "no results returned"),
        _ => panic!(),
    }
    r.result.push(DocResult::Value(1));
    r.result.push(DocResult::Value(2));
    assert_eq!(r.into_last_result().unwrap(), 2);
}

#[test]
fn reply_tokens_must_match() {
    assert!(check_reply_token(4, 4).is_ok());
    assert!(matches!(check_reply_token(4, 5), Err(Error::Io(_))));
}

#[test]
fn outcomes_of_exchanges_and_dispatches() {
    // a blocking query without reply is answered with an empty sequence
    let r = Response::<String>::from_exchange(None).unwrap();
    assert_eq!(r.response_type, ResponseType::SuccessSequence);
    assert!(r.result.is_empty() && r.profile.is_none() && r.notes.is_none());
    // an asynchronous one with an empty atom
    let r = Response::<String>::from_dispatch(Ok(None)).unwrap();
    assert_eq!(r.response_type, ResponseType::SuccessAtom);
    assert!(r.result.is_empty());
    // a reply decides
    let mut ok = Response::new(ResponseType::SuccessAtom);
    ok.result.push(DocResult::Value("x".to_string()));
    let r = Response::from_exchange(Some(ParsedReply::Success(ok.clone()))).unwrap();
    assert!(matches!(&r.result[..], [DocResult::Value(v)] if v == "x"));
    let r = Response::from_dispatch(Ok(Some(ParsedReply::Success(ok)))).unwrap();
    assert_eq!(r.result.len(), 1);
    match Response::<String>::from_dispatch(Ok(Some(failure(ResponseType::CompileError, None, Some("bad"))))) {
        Err(Error::Reql(ReqlError::Compile, m)) => assert_eq!(m, "bad"),
        other => panic!("unexpected {:?}", other.map(|r| r.response_type)),
    }
    // an error of the dispatch is the outcome
    assert!(matches!(
        Response::<String>::from_dispatch(Err(Error::Sync("gone"))),
        Err(Error::Sync("gone"))
    ));
}
