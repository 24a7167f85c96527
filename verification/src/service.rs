use vstd::prelude::*;
use std::time::Duration;
use crate::codec::{KCodecError, KData, KId, KItem};
use crate::rpc::KError;
use crate::serde_extra::socket_addr::SocketAddr;
use crate::trans::{
    ended, lemma_trans_key_names_one, lemma_trans_key_of_tid, started, trans_key, KTrans,
};

verus! {

/// Why a call did not give a result.
#[derive(Debug, Clone, PartialEq, Eq)]
pub enum KTransError {
    /// The peer answered with a protocol error.
    KError(KError),
    /// A socket or a channel failed: the call could not be completed here.
    /// The text says what failed.
    IOError(String),
    /// No answer came in time.
    Timeout,
}

/// The options of a service.
#[derive(Debug, Clone, Copy)]
pub struct KOptions {
    /// How long a call waits for its answer.
    pub timeout: Duration,
}

/// A caller's request to send a query: the peer, the argument, where the
/// answer is to be delivered, and where the caller is to be told the routing
/// key of the query.
pub struct KTransQuery<Arg, Responder, Identer>(
    pub SocketAddr,
    pub Arg,
    pub Responder,
    pub Identer,
);

/// What the service loop is handed, one at a time.
pub enum KEvent<Arg, Res, Responder, Identer> {
    /// An item was read from the socket.
    Inbound(KItem<Arg, Res>),
    /// A datagram was read from the socket and refused by the codec.
    Refused(KCodecError),
    /// A caller asks for a query to be sent.
    Call(KTransQuery<Arg, Responder, Identer>),
    /// A caller gives up waiting for the answer to a query.
    Cancel(KId),
    /// The handler is done with the query that has this routing key.
    Handled(KId, Result<Res, KError>),
    /// Nothing more will come.
    Closed,
}

/// What the service loop is to do for an event.
pub enum KAction<Arg, Res, Responder, Identer> {
    /// Hand the argument to the handler, and come back with what it gives as
    /// `Handled` under the same routing key.
    Handle(KId, Arg),
    /// Send the item.
    Send(KItem<Arg, Res>),
    /// Tell the caller the routing key, then send the item.
    Issue { identer: Identer, id: KId, item: KItem<Arg, Res> },
    /// Deliver the outcome to the one who waits.
    Deliver(Responder, Result<Res, KTransError>),
    /// Go on with the next event.
    Idle,
    /// Leave the loop.
    Stop,
}

/// The state of the service loop: the table of the queries that wait for
/// their answers.
pub struct KLoop<Responder> {
    trans: KTrans<Responder>,
}

impl<Responder> View for KLoop<Responder> {
    type V = Map<(SocketAddr, u16), Responder>;

    closed spec fn view(&self) -> Map<(SocketAddr, u16), Responder> {
        self.trans@
    }
}

impl<Responder> KLoop<Responder> {
    /// The number that the last query sent was given.
    pub closed spec fn last_tid(&self) -> u16 {
        self.trans.last_tid()
    }

    /// The state of a loop that has sent no query yet.
    pub fn new() -> (state: Self)
        ensures
            state@ == Map::<(SocketAddr, u16), Responder>::empty(),
            state.last_tid() == 0,
    {
        KLoop { trans: KTrans::new() }
    }

    /// The number of queries that wait for their answers.
    pub fn active(&self) -> (count: usize)
        ensures
            self@.dom().finite(),
            count == self@.dom().len(),
    {
        self.trans.active()
    }

    /// Decides what is to be done for one event.
    ///
    /// A query from a peer goes to the handler, and what the handler gives
    /// goes back to that peer: a response for a result, an error for an
    /// error. A datagram that the codec refused is dropped, and the loop goes
    /// on. A response or an error from a peer ends the transaction that
    /// its routing key names, and goes to the one who waits for it; where
    /// nobody waits, it is dropped. A caller's query starts a transaction:
    /// the caller is told the routing key, and the query is sent. A
    /// cancellation ends the transaction, and the one who waits is told that
    /// the time is over. The table changes in no other way.
    pub fn step<Arg, Res, Identer>(
        &mut self,
        event: KEvent<Arg, Res, Responder, Identer>,
    ) -> (action: KAction<Arg, Res, Responder, Identer>)
        ensures
            match event {
                KEvent::Inbound(KItem(id, KData::Query(arg))) => {
                    &&& action == KAction::<Arg, Res, Responder, Identer>::Handle(id, arg)
                    &&& final(self)@ == old(self)@
                    &&& final(self).last_tid() == old(self).last_tid()
                },
                KEvent::Inbound(KItem(id, KData::Response(res))) => {
                    &&& final(self)@ == ended(old(self)@, id@).0
                    &&& final(self).last_tid() == old(self).last_tid()
                    &&& action == match ended(old(self)@, id@).1 {
                        Some(responder) => KAction::<Arg, Res, Responder, Identer>::Deliver(
                            responder,
                            Ok(res),
                        ),
                        None => KAction::Idle,
                    }
                },
                KEvent::Inbound(KItem(id, KData::Error(error))) => {
                    &&& final(self)@ == ended(old(self)@, id@).0
                    &&& final(self).last_tid() == old(self).last_tid()
                    &&& action == match ended(old(self)@, id@).1 {
                        Some(responder) => KAction::<Arg, Res, Responder, Identer>::Deliver(
                            responder,
                            Err(KTransError::KError(error)),
                        ),
                        None => KAction::Idle,
                    }
                },
                KEvent::Call(KTransQuery(addr, arg, responder, identer)) => {
                    &&& action matches KAction::Issue { identer: told, id, item }
                    &&& told == identer
                    &&& item.0@ == id@
                    &&& item.1 == KData::<Arg, Res>::Query(arg)
                    &&& (final(self)@, final(self).last_tid(), id@) == started(
                        old(self)@,
                        old(self).last_tid(),
                        addr,
                        responder,
                    )
                },
                KEvent::Cancel(id) => {
                    &&& final(self)@ == ended(old(self)@, id@).0
                    &&& final(self).last_tid() == old(self).last_tid()
                    &&& action == match ended(old(self)@, id@).1 {
                        Some(responder) => KAction::<Arg, Res, Responder, Identer>::Deliver(
                            responder,
                            Err(KTransError::Timeout),
                        ),
                        None => KAction::Idle,
                    }
                },
                KEvent::Handled(id, Ok(res)) => {
                    &&& action == KAction::<Arg, Res, Responder, Identer>::Send(
                        KItem(id, KData::Response(res)),
                    )
                    &&& final(self)@ == old(self)@
                    &&& final(self).last_tid() == old(self).last_tid()
                },
                KEvent::Handled(id, Err(error)) => {
                    &&& action == KAction::<Arg, Res, Responder, Identer>::Send(
                        KItem(id, KData::Error(error)),
                    )
                    &&& final(self)@ == old(self)@
                    &&& final(self).last_tid() == old(self).last_tid()
                },
                KEvent::Refused(_) => {
                    &&& action == KAction::<Arg, Res, Responder, Identer>::Idle
                    &&& final(self)@ == old(self)@
                    &&& final(self).last_tid() == old(self).last_tid()
                },
                KEvent::Closed => {
                    &&& action == KAction::<Arg, Res, Responder, Identer>::Stop
                    &&& final(self)@ == old(self)@
                    &&& final(self).last_tid() == old(self).last_tid()
                },
            },
    {
        match event {
            KEvent::Inbound(KItem(trans_id, msg)) => match msg {
                KData::Query(arg) => KAction::Handle(trans_id, arg),
                KData::Response(res) => match self.trans.end(&trans_id) {
                    Some(res_tx) => KAction::Deliver(res_tx, Ok(res)),
                    None => KAction::Idle,
                },
                KData::Error(err) => match self.trans.end(&trans_id) {
                    Some(res_tx) => KAction::Deliver(res_tx, Err(KTransError::KError(err))),
                    None => KAction::Idle,
                },
            },
            KEvent::Call(KTransQuery(addr, arg, res_tx, tid_tx)) => {
                let trans_id = self.trans.start(addr, res_tx);
                let told = trans_id.copy();
                KAction::Issue {
                    identer: tid_tx,
                    id: told,
                    item: KItem(trans_id, KData::Query(arg)),
                }
            },
            KEvent::Cancel(trans_id) => match self.trans.end(&trans_id) {
                Some(res_tx) => KAction::Deliver(res_tx, Err(KTransError::Timeout)),
                None => KAction::Idle,
            },
            KEvent::Handled(trans_id, result) => {
                let resp = match result {
                    Ok(res) => KData::Response(res),
                    Err(err) => KData::Error(err),
                };
                KAction::Send(KItem(trans_id, resp))
            },
            KEvent::Refused(_) => KAction::Idle,
            KEvent::Closed => KAction::Stop,
        }
    }
}

/// Where a call stands, from the moment its query was handed to the loop.
#[derive(Debug, Clone, PartialEq, Eq)]
pub enum KCallState {
    /// The loop has the query and has not told its routing key yet.
    Submitted,
    /// The query was sent under this routing key; the answer is awaited.
    Pending(KId),
    /// The call is over.
    Done,
}

/// What happens to a call.
pub enum KCallEvent<Res> {
    /// The query could not be handed to the loop.
    NotSent,
    /// The loop told the routing key of the query.
    Identified(KId),
    /// The loop went away before it told the routing key.
    NotIdentified,
    /// The loop delivered the outcome.
    Answered(Result<Res, KTransError>),
    /// The loop went away before it delivered an outcome.
    NotAnswered,
    /// The time to wait is over.
    TimedOut,
    /// The timer failed; the text says how.
    TimerFailed(String),
}

/// What a call is to do next.
pub enum KCallAction<Res> {
    /// Wait for the outcome, and no longer than the given time.
    Wait(Duration),
    /// Tell the loop to give up the query with this routing key, then end
    /// with the outcome.
    Cancel(KId, Result<Res, KTransError>),
    /// End with the outcome.
    Finish(Result<Res, KTransError>),
    /// Nothing: the event does not belong to where the call stands.
    Ignore,
}

/// The text of the error of a call whose query or routing key was lost.
pub open spec fn send_error_text() -> Seq<char> {
    "Send error"@
}

/// The text of the error of a call whose outcome was lost.
pub open spec fn recv_error_text() -> Seq<char> {
    "Recv error"@
}

impl KCallState {
    /// Decides what a call does for one event.
    ///
    /// A call whose query or routing key was lost ends with an I/O error
    /// "Send error". Once it knows its routing key, it waits for the outcome
    /// no longer than the options say. It ends with the outcome that is
    /// delivered; with an I/O error "Recv error" where the outcome was lost;
    /// with the timer's failure as an I/O error; and where the time is over,
    /// it has the loop give up the query and ends with `Timeout`.
    pub fn step<Res>(self, options: &KOptions, event: KCallEvent<Res>) -> (next: (
        KCallState,
        KCallAction<Res>,
    ))
        ensures
            match (self, event) {
                (KCallState::Submitted, KCallEvent::NotSent) | (
                    KCallState::Submitted,
                    KCallEvent::NotIdentified,
                ) => {
                    &&& next.0 == KCallState::Done
                    &&& next.1 matches KCallAction::Finish(Err(KTransError::IOError(text)))
                    &&& text@ == send_error_text()
                },
                (KCallState::Submitted, KCallEvent::Identified(id)) => {
                    &&& next.0 == KCallState::Pending(id)
                    &&& next.1 == KCallAction::<Res>::Wait(options.timeout)
                },
                (KCallState::Pending(id), KCallEvent::Answered(outcome)) => {
                    &&& next.0 == KCallState::Done
                    &&& next.1 == KCallAction::Finish(outcome)
                },
                (KCallState::Pending(id), KCallEvent::NotAnswered) => {
                    &&& next.0 == KCallState::Done
                    &&& next.1 matches KCallAction::Finish(Err(KTransError::IOError(text)))
                    &&& text@ == recv_error_text()
                },
                (KCallState::Pending(id), KCallEvent::TimedOut) => {
                    &&& next.0 == KCallState::Done
                    &&& next.1 == KCallAction::<Res>::Cancel(id, Err(KTransError::Timeout))
                },
                (KCallState::Pending(id), KCallEvent::TimerFailed(text)) => {
                    &&& next.0 == KCallState::Done
                    &&& next.1 == KCallAction::<Res>::Finish(Err(KTransError::IOError(text)))
                },
                (state, _) => next.0 == state && next.1 == KCallAction::<Res>::Ignore,
            },
    {
        match self {
            KCallState::Submitted => match event {
                KCallEvent::NotSent | KCallEvent::NotIdentified => (
                    KCallState::Done,
                    KCallAction::Finish(Err(KTransError::IOError("Send error".to_owned()))),
                ),
                KCallEvent::Identified(id) => (
                    KCallState::Pending(id),
                    KCallAction::Wait(options.timeout),
                ),
                _ => (KCallState::Submitted, KCallAction::Ignore),
            },
            KCallState::Pending(id) => match event {
                KCallEvent::Answered(outcome) => (KCallState::Done, KCallAction::Finish(outcome)),
                KCallEvent::NotAnswered => (
                    KCallState::Done,
                    KCallAction::Finish(Err(KTransError::IOError("Recv error".to_owned()))),
                ),
                KCallEvent::TimedOut => (
                    KCallState::Done,
                    KCallAction::Cancel(id, Err(KTransError::Timeout)),
                ),
                KCallEvent::TimerFailed(text) => (
                    KCallState::Done,
                    KCallAction::Finish(Err(KTransError::IOError(text))),
                ),
                _ => (KCallState::Pending(id), KCallAction::Ignore),
            },
            KCallState::Done => (KCallState::Done, KCallAction::Ignore),
        }
    }
}

/// The one who waits for a call is delivered nothing but the answer that
/// carries the routing key that the call was told. Where a call's query was
/// started on `table` and an item with the routing key `answer` then ends
/// the transaction of that call, `answer` is the key that the call was
/// told: the same peer, the same bytes.
pub proof fn lemma_answer_matches_call<Responder>(
    table: Map<(SocketAddr, u16), Responder>,
    last_tid: u16,
    addr: SocketAddr,
    responder: Responder,
    answer: (SocketAddr, Option<Seq<u8>>),
)
    requires
        trans_key(answer) == Some((addr, started(table, last_tid, addr, responder).1)),
    ensures
        answer == started(table, last_tid, addr, responder).2,
        ended(started(table, last_tid, addr, responder).0, answer).1 == Some(responder),
{
    lemma_trans_key_names_one(answer, addr, started(table, last_tid, addr, responder).1);
}

/// A call that was not answered in time leaves nothing in the table: the
/// cancellation that it sends ends its transaction.
pub proof fn lemma_cancel_clears<Responder>(
    table: Map<(SocketAddr, u16), Responder>,
    last_tid: u16,
    addr: SocketAddr,
    responder: Responder,
)
    ensures
        ({
            let (pending, tid, id) = started(table, last_tid, addr, responder);
            let (after, waiting) = ended(pending, id);
            &&& waiting == Some(responder)
            &&& !after.contains_key((addr, tid))
        }),
{
    lemma_trans_key_of_tid(addr, started(table, last_tid, addr, responder).1);
}

} // verus!
