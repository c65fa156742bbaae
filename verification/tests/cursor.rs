use rethink_driver::cursor::{CursorState, CursorStep, NO_TOKEN};
use rethink_driver::query::{DocResult, Response, ResponseType};
use rethink_driver::Error;

fn batch(t: ResponseType, docs: &[i32]) -> Response<i32> {
    let mut r = Response::new(t);
    for d in docs {
        r.result.push(DocResult::Value(*d));
    }
    r
}

#[test]
fn cursor_yields_all_batches_in_order() {
    let mut c = CursorState::from_response(11, batch(ResponseType::SuccessPartial, &[1, 2]));
    assert_eq!(c.token, 11);
    let mut seen = Vec::new();
    let mut fetches = 0;
    loop {
        match c.next_step() {
            CursorStep::Yield(v) => seen.push(v.unwrap()),
            CursorStep::Fetch(t) => {
                assert_eq!(t, 11);
                fetches += 1;
                let next = if fetches == 1 {
                    batch(ResponseType::SuccessPartial, &[3])
                } else {
                    batch(ResponseType::SuccessSequence, &[4, 5])
                };
                c.on_response(next);
            },
            CursorStep::Finished => break,
        }
    }
    assert_eq!(seen, vec![1, 2, 3, 4, 5]);
    assert_eq!(fetches, 2);
    assert_eq!(c.stop_token(), None);
    // an exhausted cursor stays exhausted
    assert!(matches!(c.next_step(), CursorStep::Finished));
}

#[test]
fn cursor_of_a_complete_reply() {
    let mut c = CursorState::from_response(3, batch(ResponseType::SuccessAtom, &[7]));
    assert_eq!(c.token, NO_TOKEN);
    assert!(matches!(c.next_step(), CursorStep::Yield(Ok(7))));
    assert!(matches!(c.next_step(), CursorStep::Finished));
}

#[test]
fn cursor_hands_out_unreadable_documents_as_errors() {
    let mut r = Response::<i32>::new(ResponseType::SuccessSequence);
    r.result.push(DocResult::Invalid("invalid type".to_string()));
    let mut c = CursorState::from_response(1, r);
    match c.next_step() {
        CursorStep::Yield(Err(Error::Deserialize(m))) => assert_eq!(m, "invalid type"),
        _ => panic!(),
    }
}

#[test]
fn dropped_cursor_stops_its_query() {
    let c = CursorState::from_response(5, batch(ResponseType::SuccessPartial, &[]));
    assert_eq!(c.stop_token(), Some(5));
}
