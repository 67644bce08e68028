//! Properties of the routing state machine that hold across events.
use vstd::prelude::*;
use crate::protocol::{AdminToServer, ClientToServer, GuessResult, Message, ParticipantId};
use crate::registry::{ConnId, Role};
use crate::server::{saturating_inc, step, Outbound, ServerModel};

verus! {

/// Roles only move forward. A message changes the role of its sender alone;
/// no connection leaves the registry or returns to `JustConnected`, and a live
/// connection changes role only from `JustConnected`. Leaves out the two
/// moves that the protocol permits between the authenticated roles: a
/// participant that authenticates as administrator, and an administrator that
/// registers as participant.
pub proof fn law_roles_only_promote(
    pre: ServerModel,
    c: ConnId,
    msg: Message,
    post: ServerModel,
    outs: Seq<Outbound>,
)
    requires
        pre.bindings_agree(),
        step(pre, c, msg, post, outs),
        !(pre.is_participant(c) && (msg matches Message::Ats(AdminToServer::Auth(t)) && t@
            == pre.token)),
        !(pre.is_admin(c) && msg == Message::Cts(ClientToServer::Register)),
    ensures
        forall|d: ConnId| #[trigger]
            pre.roles.contains_key(d) ==> post.roles.contains_key(d) && (post.roles[d]
                == pre.roles[d] || (d == c && pre.roles[d] == Role::JustConnected
                && post.roles[d] != Role::JustConnected)),
        forall|d: ConnId| #[trigger]
            post.roles.contains_key(d) && !pre.roles.contains_key(d) ==> d == c
                && post.roles[d] != Role::JustConnected,
{
    match msg {
        Message::Cts(ClientToServer::Register) => {
            if !pre.is_participant(c) {
                let id = choose|id: ParticipantId|
                    #[trigger] crate::server::registration(pre, c, id, post, outs);
                assert(crate::server::registration(pre, c, id, post, outs));
            }
        },
        _ => {},
    }
}

/// Each identifier is bound to at most one live connection, and once that
/// connection closes an answer addressed to the identifier is dropped: nothing
/// is sent and nothing changes.
pub proof fn law_no_stale_route(
    pre: ServerModel,
    c: ConnId,
    admin: ConnId,
    answer: GuessResult,
    post: ServerModel,
    outs: Seq<Outbound>,
)
    requires
        pre.bindings_agree(),
        pre.is_participant(c),
        step(
            pre.disconnected(c),
            admin,
            Message::Ats(AdminToServer::SendAnswer { target: pre.id_of(c), answer }),
            post,
            outs,
        ),
    ensures
        forall|a: ConnId, b: ConnId|
            #![trigger pre.id_of(a), pre.id_of(b)]
            pre.is_participant(a) && pre.is_participant(b) && pre.id_of(a) == pre.id_of(b) ==> a
                == b,
        !pre.disconnected(c).ids.contains_key(pre.id_of(c)),
        post == pre.disconnected(c),
        outs.len() == 0,
{
    assert forall|a: ConnId, b: ConnId|
        #![trigger pre.id_of(a), pre.id_of(b)]
        pre.is_participant(a) && pre.is_participant(b) && pre.id_of(a) == pre.id_of(b) implies a
            == b by {
        assert(pre.ids[pre.id_of(a)] == a);
        assert(pre.ids[pre.id_of(b)] == b);
    }
}

/// The guess count of an identifier grows by one (held at `u64::MAX`) on each
/// guess from the connection bound to it and on nothing else; closing or
/// accepting a connection leaves every count as it was.
pub proof fn law_guess_count(
    pre: ServerModel,
    c: ConnId,
    msg: Message,
    post: ServerModel,
    outs: Seq<Outbound>,
)
    requires
        step(pre, c, msg, post, outs),
    ensures
        forall|id: ParticipantId| #[trigger]
            post.guess_count(id) == if (msg is Cts && msg->Cts_0 is Guess) && pre.is_participant(c)
                && pre.id_of(c) == id {
                saturating_inc(pre.guess_count(id))
            } else {
                pre.guess_count(id)
            },
        pre.disconnected(c).stats == pre.stats,
        pre.connected(c).stats == pre.stats,
{
    match msg {
        Message::Cts(ClientToServer::Register) => {
            if !pre.is_participant(c) {
                let id = choose|id: ParticipantId|
                    #[trigger] crate::server::registration(pre, c, id, post, outs);
                assert(crate::server::registration(pre, c, id, post, outs));
            }
        },
        _ => {},
    }
}

/// An answer from the administrator never touches the guess counts; one whose
/// target has no live connection changes nothing and sends nothing.
pub proof fn law_answer_keeps_stats(
    pre: ServerModel,
    c: ConnId,
    target: ParticipantId,
    answer: GuessResult,
    post: ServerModel,
    outs: Seq<Outbound>,
)
    requires
        step(pre, c, Message::Ats(AdminToServer::SendAnswer { target, answer }), post, outs),
    ensures
        post.stats == pre.stats,
        !pre.ids.contains_key(target) ==> post == pre && outs.len() == 0,
{
}

} // verus!
