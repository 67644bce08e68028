//! Messages exchanged between participants, the administrator and the server.
//!
//! Participant identifiers and session nonces are 128-bit values (the bits of
//! a UUID).
use std::collections::HashMap;
use vstd::prelude::*;

verus! {

/// A participant's stable identifier, minted by the server on registration.
pub type ParticipantId = u128;

/// A one-time value minted per experiment round.
pub type Nonce = u128;

/// Participant to server.
#[derive(Clone, PartialEq, Eq, Debug)]
pub enum ClientToServer {
    Register,
    Guess(i64),
    Ack(Nonce),
}

/// The administrator's judgement of a guess against the hidden value.
#[derive(Clone, Copy, PartialEq, Eq, Debug, Structural)]
pub enum GuessResult {
    Equal,
    Less,
    More,
}

/// Server to participant.
#[derive(Clone, Copy, PartialEq, Eq, Debug, Structural)]
pub enum ServerToClient {
    RegisterUUID(ParticipantId),
    ExperimentStart(Nonce),
    Answer(GuessResult, Nonce),
}

/// Administrator to server.
#[derive(Clone, PartialEq, Eq, Debug)]
pub enum AdminToServer {
    Auth(String),
    Start,
    Stats,
    WaitAnswers,
    SendAnswer { target: ParticipantId, answer: GuessResult },
}

/// Number of accepted guesses of each participant.
#[derive(Clone, PartialEq, Eq, Debug)]
pub struct Stats(pub HashMap<ParticipantId, u64>);

/// Latest guess of each participant that still awaits an answer.
#[derive(Clone, PartialEq, Eq, Debug)]
pub struct WaitAnswers(pub HashMap<ParticipantId, i64>);

/// Server to administrator.
#[derive(Clone, PartialEq, Eq, Debug)]
pub enum ServerToAdmin {
    Stats(Stats),
    WaitAnswers(WaitAnswers),
    ResultAuth(bool),
}

/// Every message, tagged with its direction.
#[derive(Clone, PartialEq, Eq, Debug)]
pub enum Message {
    Cts(ClientToServer),
    Stc(ServerToClient),
    Ats(AdminToServer),
    Sta(ServerToAdmin),
}

} // verus!
