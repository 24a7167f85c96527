use std::time::Duration;
use tokio_krpc::codec::{KCodecError, KData, KId, KItem};
use tokio_krpc::rpc::{KError, KErrorKind, KTransId};
use tokio_krpc::serde_extra::socket_addr::SocketAddr;
use tokio_krpc::serde_extra::WireError;
use tokio_krpc::service::{
    KAction, KCallAction, KCallEvent, KCallState, KEvent, KLoop, KOptions, KTransError,
    KTransQuery,
};

type Event = KEvent<&'static str, u32, char, u8>;
type Action = KAction<&'static str, u32, char, u8>;

fn peer() -> SocketAddr {
    SocketAddr::v4(127, 0, 0, 1, 6881)
}

fn key(high: u8, low: u8) -> KId {
    KId(peer(), Some(KTransId(vec![high, low])))
}

fn call(state: &mut KLoop<char>, responder: char, identer: u8) -> KId {
    match state.step(Event::Call(KTransQuery(peer(), "ping", responder, identer))) {
        Action::Issue { identer: told, id, item } => {
            assert_eq!(told, identer);
            assert_eq!(item.0, id);
            assert!(matches!(item.1, KData::Query("ping")));
            id
        }
        _ => panic!("a call is issued"),
    }
}

#[test]
fn loop_hands_a_query_to_the_handler() {
    let mut state: KLoop<char> = KLoop::new();
    let action = state.step(Event::Inbound(KItem(key(7, 7), KData::Query("ping"))));
    match action {
        Action::Handle(id, arg) => {
            assert_eq!(id, key(7, 7));
            assert_eq!(arg, "ping");
        }
        _ => panic!("a query is handled"),
    }
    assert_eq!(state.active(), 0);
}

#[test]
fn loop_sends_what_the_handler_gives() {
    let mut state: KLoop<char> = KLoop::new();
    match state.step(Event::Handled(key(7, 7), Ok(5))) {
        Action::Send(KItem(id, KData::Response(res))) => {
            assert_eq!(id, key(7, 7));
            assert_eq!(res, 5);
        }
        _ => panic!("a result is sent as a response"),
    }
    let error = KError(KErrorKind::Method, "Method unimplemented".into());
    match state.step(Event::Handled(key(7, 7), Err(error.clone()))) {
        Action::Send(KItem(id, KData::Error(sent))) => {
            assert_eq!(id, key(7, 7));
            assert_eq!(sent, error);
        }
        _ => panic!("an error is sent as an error"),
    }
    assert_eq!(state.active(), 0);
}

#[test]
fn loop_gives_each_call_the_next_number() {
    let mut state: KLoop<char> = KLoop::new();
    assert_eq!(call(&mut state, 'a', 1), key(0, 1));
    assert_eq!(call(&mut state, 'b', 2), key(0, 2));
    assert_eq!(call(&mut state, 'c', 3), key(0, 3));
    assert_eq!(state.active(), 3);
}

#[test]
fn loop_delivers_a_response_to_the_one_who_waits() {
    let mut state: KLoop<char> = KLoop::new();
    let first = call(&mut state, 'a', 1);
    let second = call(&mut state, 'b', 2);
    match state.step(Event::Inbound(KItem(second.clone(), KData::Response(22)))) {
        Action::Deliver(responder, outcome) => {
            assert_eq!(responder, 'b');
            assert_eq!(outcome, Ok(22));
        }
        _ => panic!("the response is delivered"),
    }
    assert_eq!(state.active(), 1);
    // a second response to the same query is dropped
    assert!(matches!(
        state.step(Event::Inbound(KItem(second, KData::Response(23)))),
        Action::Idle
    ));
    match state.step(Event::Inbound(KItem(first, KData::Response(11)))) {
        Action::Deliver(responder, outcome) => {
            assert_eq!(responder, 'a');
            assert_eq!(outcome, Ok(11));
        }
        _ => panic!("the response is delivered"),
    }
    assert_eq!(state.active(), 0);
}

#[test]
fn loop_delivers_an_error_to_the_one_who_waits() {
    let mut state: KLoop<char> = KLoop::new();
    let id = call(&mut state, 'a', 1);
    let error = KError(KErrorKind::Generic, "no".into());
    match state.step(Event::Inbound(KItem(id, KData::Error(error.clone())))) {
        Action::Deliver(responder, outcome) => {
            assert_eq!(responder, 'a');
            assert_eq!(outcome, Err(KTransError::KError(error)));
        }
        _ => panic!("the error is delivered"),
    }
    assert_eq!(state.active(), 0);
}

#[test]
fn loop_drops_answers_that_nobody_waits_for() {
    let mut state: KLoop<char> = KLoop::new();
    let id = call(&mut state, 'a', 1);
    let other_peer = KId(SocketAddr::v4(127, 0, 0, 1, 6882), id.1.clone());
    let strangers = vec![
        key(0, 2),
        KId(peer(), None),
        KId(peer(), Some(KTransId(vec![1]))),
        KId(peer(), Some(KTransId(vec![0, 0, 1]))),
        other_peer,
    ];
    for stranger in strangers {
        assert!(matches!(
            state.step(Event::Inbound(KItem(stranger.clone(), KData::Response(1)))),
            Action::Idle
        ));
        assert!(matches!(
            state.step(Event::Inbound(KItem(
                stranger.clone(),
                KData::Error(KError(KErrorKind::Generic, String::new()))
            ))),
            Action::Idle
        ));
        assert!(matches!(state.step(Event::Cancel(stranger)), Action::Idle));
        assert_eq!(state.active(), 1);
    }
}

#[test]
fn loop_cancels_a_call_with_timeout() {
    let mut state: KLoop<char> = KLoop::new();
    let id = call(&mut state, 'a', 1);
    assert_eq!(state.active(), 1);
    match state.step(Event::Cancel(id.clone())) {
        Action::Deliver(responder, outcome) => {
            assert_eq!(responder, 'a');
            assert_eq!(outcome, Err(KTransError::Timeout));
        }
        _ => panic!("the timeout is delivered"),
    }
    assert_eq!(state.active(), 0);
    // a late response is dropped
    assert!(matches!(state.step(Event::Inbound(KItem(id, KData::Response(1)))), Action::Idle));
}

#[test]
fn loop_drops_what_the_codec_refused() {
    let mut state: KLoop<char> = KLoop::new();
    call(&mut state, 'a', 1);
    assert!(matches!(state.step(Event::Refused(KCodecError::Malformed)), Action::Idle));
    assert!(matches!(
        state.step(Event::Refused(KCodecError::Decode(WireError::Syntax))),
        Action::Idle
    ));
    assert_eq!(state.active(), 1);
}

#[test]
fn loop_stops_when_nothing_more_comes() {
    let mut state: KLoop<char> = KLoop::new();
    call(&mut state, 'a', 1);
    assert!(matches!(state.step(Event::Closed), Action::Stop));
    assert_eq!(state.active(), 1);
}

fn options() -> KOptions {
    KOptions { timeout: Duration::from_secs(2) }
}

#[test]
fn call_that_is_answered() {
    let state = KCallState::Submitted;
    let (state, action) = state.step::<u32>(&options(), KCallEvent::Identified(key(0, 1)));
    assert_eq!(state, KCallState::Pending(key(0, 1)));
    match action {
        KCallAction::Wait(time) => assert_eq!(time, Duration::from_secs(2)),
        _ => panic!("the call waits"),
    }
    let (state, action) = state.step(&options(), KCallEvent::Answered(Ok(5u32)));
    assert_eq!(state, KCallState::Done);
    match action {
        KCallAction::Finish(outcome) => assert_eq!(outcome, Ok(5)),
        _ => panic!("the call ends"),
    }
}

#[test]
fn call_that_is_answered_with_an_error() {
    let error = KTransError::KError(KError(KErrorKind::Method, "Method unimplemented".into()));
    let state = KCallState::Pending(key(0, 1));
    let (state, action) = state.step::<u32>(&options(), KCallEvent::Answered(Err(error.clone())));
    assert_eq!(state, KCallState::Done);
    match action {
        KCallAction::Finish(outcome) => assert_eq!(outcome, Err(error)),
        _ => panic!("the call ends"),
    }
}

#[test]
fn call_that_times_out_cancels_its_query() {
    let mut table: KLoop<char> = KLoop::new();
    let id = call(&mut table, 'a', 1);
    let state = KCallState::Pending(id.clone());
    let (state, action) = state.step::<u32>(&options(), KCallEvent::TimedOut);
    assert_eq!(state, KCallState::Done);
    match action {
        KCallAction::Cancel(cancelled, outcome) => {
            assert_eq!(cancelled, id);
            assert_eq!(outcome, Err(KTransError::Timeout));
            assert_eq!(table.active(), 1);
            assert!(matches!(
                table.step(Event::Cancel(cancelled)),
                Action::Deliver('a', Err(KTransError::Timeout))
            ));
            assert_eq!(table.active(), 0);
        }
        _ => panic!("the call cancels"),
    }
}

#[test]
fn call_whose_channels_fail() {
    let finish = |state: KCallState, event: KCallEvent<u32>| match state.step(&options(), event) {
        (KCallState::Done, KCallAction::Finish(Err(error))) => error,
        _ => panic!("the call ends with an error"),
    };
    assert_eq!(
        finish(KCallState::Submitted, KCallEvent::NotSent),
        KTransError::IOError("Send error".into())
    );
    assert_eq!(
        finish(KCallState::Submitted, KCallEvent::NotIdentified),
        KTransError::IOError("Send error".into())
    );
    assert_eq!(
        finish(KCallState::Pending(key(0, 1)), KCallEvent::NotAnswered),
        KTransError::IOError("Recv error".into())
    );
    assert_eq!(
        finish(KCallState::Pending(key(0, 1)), KCallEvent::TimerFailed("timer gone".into())),
        KTransError::IOError("timer gone".into())
    );
}

#[test]
fn call_ignores_what_does_not_belong() {
    let ignored = |state: KCallState, event: KCallEvent<u32>| {
        let (next, action) = state.clone().step(&options(), event);
        assert_eq!(next, state);
        assert!(matches!(action, KCallAction::Ignore));
    };
    ignored(KCallState::Submitted, KCallEvent::Answered(Ok(1)));
    ignored(KCallState::Submitted, KCallEvent::TimedOut);
    ignored(KCallState::Submitted, KCallEvent::NotAnswered);
    ignored(KCallState::Submitted, KCallEvent::TimerFailed(String::new()));
    ignored(KCallState::Pending(key(0, 1)), KCallEvent::NotSent);
    ignored(KCallState::Pending(key(0, 1)), KCallEvent::Identified(key(0, 2)));
    ignored(KCallState::Pending(key(0, 1)), KCallEvent::NotIdentified);
    ignored(KCallState::Done, KCallEvent::TimedOut);
    ignored(KCallState::Done, KCallEvent::Answered(Ok(1)));
    ignored(KCallState::Done, KCallEvent::Identified(key(0, 1)));
}
