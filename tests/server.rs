use std::collections::HashMap;

use hogwarts_guess::protocol::{
    AdminToServer, ClientToServer, GuessResult, Message, ServerToAdmin, ServerToClient, Stats,
    WaitAnswers,
};
use hogwarts_guess::registry::{Registry, Role};
use hogwarts_guess::server::{Outbound, ServerState};

const CLIENT: usize = 1;
const ADMIN: usize = 2;

fn registered_id(out: &[Outbound], to: usize) -> u128 {
    assert_eq!(out.len(), 1);
    assert_eq!(out[0].to, to);
    match out[0].message {
        Message::Stc(ServerToClient::RegisterUUID(id)) => id,
        ref other => panic!("unexpected reply {:?}", other),
    }
}

fn start_nonce(out: &[Outbound], to: usize) -> u128 {
    let sent: Vec<&Outbound> = out.iter().filter(|o| o.to == to).collect();
    assert_eq!(sent.len(), 1);
    match sent[0].message {
        Message::Stc(ServerToClient::ExperimentStart(n)) => n,
        ref other => panic!("unexpected message {:?}", other),
    }
}

fn auth(token: &str) -> Message {
    Message::Ats(AdminToServer::Auth(token.to_string()))
}

fn admin_server() -> ServerState {
    let mut st = ServerState::new("secret".to_string());
    st.register(ADMIN);
    let out = st.exec_message(ADMIN, auth("secret"));
    assert_eq!(
        out,
        vec![Outbound { to: ADMIN, message: Message::Sta(ServerToAdmin::ResultAuth(true)) }]
    );
    st
}

#[test]
fn full_round_register_start_guess_answer() {
    let mut st = ServerState::new("secret".to_string());
    st.register(CLIENT);
    let out = st.exec_message(CLIENT, Message::Cts(ClientToServer::Register));
    let id1 = registered_id(&out, CLIENT);

    st.register(ADMIN);
    let out = st.exec_message(ADMIN, auth("secret"));
    assert_eq!(
        out,
        vec![Outbound { to: ADMIN, message: Message::Sta(ServerToAdmin::ResultAuth(true)) }]
    );

    let out = st.exec_message(ADMIN, Message::Ats(AdminToServer::Start));
    assert_eq!(out.len(), 1);
    let nonce1 = start_nonce(&out, CLIENT);

    let out = st.exec_message(CLIENT, Message::Cts(ClientToServer::Guess(42)));
    assert!(out.is_empty());

    let out = st.exec_message(ADMIN, Message::Ats(AdminToServer::Stats));
    let mut stats = HashMap::new();
    stats.insert(id1, 1u64);
    assert_eq!(
        out,
        vec![Outbound { to: ADMIN, message: Message::Sta(ServerToAdmin::Stats(Stats(stats))) }]
    );

    let out = st.exec_message(ADMIN, Message::Ats(AdminToServer::WaitAnswers));
    let mut pending = HashMap::new();
    pending.insert(id1, 42i64);
    assert_eq!(
        out,
        vec![Outbound {
            to: ADMIN,
            message: Message::Sta(ServerToAdmin::WaitAnswers(WaitAnswers(pending))),
        }]
    );

    let out = st.exec_message(
        ADMIN,
        Message::Ats(AdminToServer::SendAnswer { target: id1, answer: GuessResult::Equal }),
    );
    assert_eq!(
        out,
        vec![Outbound {
            to: CLIENT,
            message: Message::Stc(ServerToClient::Answer(GuessResult::Equal, nonce1)),
        }]
    );

    let out = st.exec_message(ADMIN, Message::Ats(AdminToServer::WaitAnswers));
    assert_eq!(
        out,
        vec![Outbound {
            to: ADMIN,
            message: Message::Sta(ServerToAdmin::WaitAnswers(WaitAnswers(HashMap::new()))),
        }]
    );
}

#[test]
fn wrong_token_is_refused_and_start_rejected() {
    let mut st = ServerState::new("secret".to_string());
    st.register(CLIENT);
    let id = registered_id(&st.exec_message(CLIENT, Message::Cts(ClientToServer::Register)), CLIENT);
    assert_ne!(id, 0);
    st.register(ADMIN);
    let out = st.exec_message(ADMIN, auth("wrong"));
    assert_eq!(
        out,
        vec![Outbound { to: ADMIN, message: Message::Sta(ServerToAdmin::ResultAuth(false)) }]
    );
    assert_eq!(st.role_of(ADMIN), Some(Role::JustConnected));
    let out = st.exec_message(ADMIN, Message::Ats(AdminToServer::Start));
    assert!(out.is_empty());
    assert!(st.exec_message(ADMIN, Message::Ats(AdminToServer::Stats)).is_empty());
}

#[test]
fn two_participants_get_distinct_ids_and_own_nonces() {
    let mut st = admin_server();
    st.register(10);
    st.register(11);
    let a = registered_id(&st.exec_message(10, Message::Cts(ClientToServer::Register)), 10);
    let b = registered_id(&st.exec_message(11, Message::Cts(ClientToServer::Register)), 11);
    assert_ne!(a, b);
    let out = st.exec_message(ADMIN, Message::Ats(AdminToServer::Start));
    assert_eq!(out.len(), 2);
    let na = start_nonce(&out, 10);
    let nb = start_nonce(&out, 11);
    assert_ne!(na, nb);
    // each participant's answer carries its own nonce
    let out = st.exec_message(
        ADMIN,
        Message::Ats(AdminToServer::SendAnswer { target: b, answer: GuessResult::Less }),
    );
    assert_eq!(
        out,
        vec![Outbound { to: 11, message: Message::Stc(ServerToClient::Answer(GuessResult::Less, nb)) }]
    );
}

#[test]
fn minted_ids_are_version_four_uuids() {
    let mut st = ServerState::new("t".to_string());
    st.register(CLIENT);
    let id = registered_id(&st.exec_message(CLIENT, Message::Cts(ClientToServer::Register)), CLIENT);
    assert_eq!((id >> 76) & 0xf, 4);
    assert_eq!(st.role_of(CLIENT), Some(Role::Participant(id)));
}

#[test]
fn start_skips_non_participants() {
    let mut st = admin_server();
    st.register(5);
    let out = st.exec_message(ADMIN, Message::Ats(AdminToServer::Start));
    assert!(out.is_empty());
}

#[test]
fn reregistration_returns_same_id() {
    let mut st = ServerState::new("secret".to_string());
    st.register(CLIENT);
    let a = registered_id(&st.exec_message(CLIENT, Message::Cts(ClientToServer::Register)), CLIENT);
    let b = registered_id(&st.exec_message(CLIENT, Message::Cts(ClientToServer::Register)), CLIENT);
    assert_eq!(a, b);
}

#[test]
fn register_participant_with_used_id_is_silent() {
    let mut st = ServerState::new("secret".to_string());
    st.register(3);
    st.register(4);
    let out = st.register_participant(3, 77);
    assert_eq!(
        out,
        vec![Outbound { to: 3, message: Message::Stc(ServerToClient::RegisterUUID(77)) }]
    );
    assert!(st.register_participant(4, 77).is_empty());
    assert_eq!(st.role_of(4), Some(Role::JustConnected));
    assert_eq!(st.role_of(3), Some(Role::Participant(77)));
}

#[test]
fn guess_counts_each_accepted_guess() {
    let mut st = admin_server();
    st.register(CLIENT);
    st.register_participant(CLIENT, 9);
    for g in [5i64, 6, 7] {
        assert!(st.exec_message(CLIENT, Message::Cts(ClientToServer::Guess(g))).is_empty());
    }
    let mut stats = HashMap::new();
    stats.insert(9u128, 3u64);
    assert_eq!(
        st.exec_message(ADMIN, Message::Ats(AdminToServer::Stats)),
        vec![Outbound { to: ADMIN, message: Message::Sta(ServerToAdmin::Stats(Stats(stats))) }]
    );
    let mut pending = HashMap::new();
    pending.insert(9u128, 7i64);
    assert_eq!(
        st.exec_message(ADMIN, Message::Ats(AdminToServer::WaitAnswers)),
        vec![Outbound {
            to: ADMIN,
            message: Message::Sta(ServerToAdmin::WaitAnswers(WaitAnswers(pending))),
        }]
    );
}

#[test]
fn guess_from_unregistered_connection_is_ignored() {
    let mut st = admin_server();
    st.register(CLIENT);
    assert!(st.exec_message(CLIENT, Message::Cts(ClientToServer::Guess(1))).is_empty());
    assert_eq!(
        st.exec_message(ADMIN, Message::Ats(AdminToServer::Stats)),
        vec![Outbound {
            to: ADMIN,
            message: Message::Sta(ServerToAdmin::Stats(Stats(HashMap::new()))),
        }]
    );
}

#[test]
fn server_side_messages_are_dropped() {
    let mut st = admin_server();
    assert!(st
        .exec_message(ADMIN, Message::Stc(ServerToClient::ExperimentStart(1)))
        .is_empty());
    assert!(st
        .exec_message(ADMIN, Message::Sta(ServerToAdmin::ResultAuth(true)))
        .is_empty());
    assert!(st.exec_message(ADMIN, Message::Cts(ClientToServer::Ack(3))).is_empty());
}

#[test]
fn admin_commands_need_authentication() {
    let mut st = ServerState::new("secret".to_string());
    st.register(CLIENT);
    st.register_participant(CLIENT, 8);
    for m in [
        AdminToServer::Start,
        AdminToServer::Stats,
        AdminToServer::WaitAnswers,
        AdminToServer::SendAnswer { target: 8, answer: GuessResult::More },
    ] {
        assert!(st.exec_message(CLIENT, Message::Ats(m)).is_empty());
    }
    assert_eq!(st.role_of(CLIENT), Some(Role::Participant(8)));
}

#[test]
fn answer_to_unknown_target_changes_nothing() {
    let mut st = admin_server();
    st.register(CLIENT);
    st.register_participant(CLIENT, 9);
    st.exec_message(CLIENT, Message::Cts(ClientToServer::Guess(4)));
    let out = st.exec_message(
        ADMIN,
        Message::Ats(AdminToServer::SendAnswer { target: 12345, answer: GuessResult::More }),
    );
    assert!(out.is_empty());
    let mut stats = HashMap::new();
    stats.insert(9u128, 1u64);
    assert_eq!(
        st.exec_message(ADMIN, Message::Ats(AdminToServer::Stats)),
        vec![Outbound { to: ADMIN, message: Message::Sta(ServerToAdmin::Stats(Stats(stats))) }]
    );
}

#[test]
fn answer_without_pending_guess_is_delivered_with_fresh_nonce() {
    let mut st = admin_server();
    st.register(CLIENT);
    st.register_participant(CLIENT, 9);
    let out = st.exec_message(
        ADMIN,
        Message::Ats(AdminToServer::SendAnswer { target: 9, answer: GuessResult::More }),
    );
    assert_eq!(out.len(), 1);
    assert_eq!(out[0].to, CLIENT);
    assert!(matches!(
        out[0].message,
        Message::Stc(ServerToClient::Answer(GuessResult::More, _))
    ));
}

#[test]
fn closed_connection_is_no_longer_routed() {
    let mut st = admin_server();
    st.register(CLIENT);
    st.register_participant(CLIENT, 9);
    st.exec_message(CLIENT, Message::Cts(ClientToServer::Guess(4)));
    st.unregister(CLIENT);
    assert_eq!(st.role_of(CLIENT), None);
    let out = st.exec_message(
        ADMIN,
        Message::Ats(AdminToServer::SendAnswer { target: 9, answer: GuessResult::Equal }),
    );
    assert!(out.is_empty());
    // statistics are kept, the pending guess is not
    let mut stats = HashMap::new();
    stats.insert(9u128, 1u64);
    assert_eq!(
        st.exec_message(ADMIN, Message::Ats(AdminToServer::Stats)),
        vec![Outbound { to: ADMIN, message: Message::Sta(ServerToAdmin::Stats(Stats(stats))) }]
    );
    assert_eq!(
        st.exec_message(ADMIN, Message::Ats(AdminToServer::WaitAnswers)),
        vec![Outbound {
            to: ADMIN,
            message: Message::Sta(ServerToAdmin::WaitAnswers(WaitAnswers(HashMap::new()))),
        }]
    );
}

#[test]
fn accepting_a_live_connection_keeps_its_role() {
    let mut st = admin_server();
    st.register(ADMIN);
    assert_eq!(st.role_of(ADMIN), Some(Role::Admin));
    assert_eq!(st.role_of(99), None);
}

#[test]
fn participant_that_authenticates_loses_its_binding() {
    let mut st = admin_server();
    st.register(CLIENT);
    st.register_participant(CLIENT, 9);
    let out = st.exec_message(CLIENT, auth("secret"));
    assert_eq!(
        out,
        vec![Outbound { to: CLIENT, message: Message::Sta(ServerToAdmin::ResultAuth(true)) }]
    );
    assert_eq!(st.role_of(CLIENT), Some(Role::Admin));
    let out = st.exec_message(
        ADMIN,
        Message::Ats(AdminToServer::SendAnswer { target: 9, answer: GuessResult::Equal }),
    );
    assert!(out.is_empty());
}

#[test]
fn registry_tracks_roles() {
    let mut r = Registry::new();
    assert_eq!(r.role_of(1), None);
    r.set_role(1, Role::JustConnected);
    r.set_role(2, Role::Participant(5));
    r.set_role(3, Role::Admin);
    r.set_role(1, Role::Participant(6));
    assert_eq!(r.role_of(1), Some(Role::Participant(6)));
    let mut parts = r.participants();
    parts.sort();
    assert_eq!(parts, vec![(1, 6), (2, 5)]);
    assert_eq!(r.remove(2), Some(Role::Participant(5)));
    assert_eq!(r.remove(2), None);
    assert_eq!(r.role_of(3), Some(Role::Admin));
    assert_eq!(r.participants(), vec![(1, 6)]);
}
