//! The server's state and the routing state machine.
//!
//! Each event from the transport (a connection accepted, a message received, a
//! connection closed) is applied to [`ServerState`] in turn; a message yields
//! the list of messages to send back.
use std::collections::HashMap;
use vstd::prelude::*;
use crate::protocol::{
    AdminToServer, ClientToServer, GuessResult, Message, Nonce, ParticipantId, ServerToAdmin,
    ServerToClient, Stats, WaitAnswers,
};
use crate::registry::{ConnId, Registry, Role};

verus! {

broadcast use vstd::std_specs::hash::group_hash_axioms;

/// Relies on uuid::Uuid::new_v4 and Uuid::as_u128: a random version-4 UUID,
/// taken as its 128 bits (the version nibble is 4).
#[verifier::external_body]
fn new_v4() -> (r: u128)
    ensures
        (r >> 76u128) & 0xfu128 == 4,
{
    uuid::Uuid::new_v4().as_u128()
}

/// A message to hand to the transport for delivery on connection `to`.
#[derive(Clone, PartialEq, Eq, Debug)]
pub struct Outbound {
    pub to: ConnId,
    pub message: Message,
}

/// The abstract state of the server.
pub ghost struct ServerModel {
    /// Connection registry: the role of each live connection.
    pub roles: Map<ConnId, Role>,
    /// Identity map: the live connection of each registered participant.
    pub ids: Map<ParticipantId, ConnId>,
    /// Number of accepted guesses of each participant.
    pub stats: Map<ParticipantId, u64>,
    /// Latest unanswered guess of each participant.
    pub pending: Map<ParticipantId, i64>,
    /// Nonce of the latest experiment start sent to each participant.
    pub sessions: Map<ParticipantId, Nonce>,
    /// The administrator's shared secret.
    pub token: Seq<char>,
}

/// `n + 1`, held at `u64::MAX`.
pub open spec fn saturating_inc(n: u64) -> u64 {
    if n < u64::MAX {
        (n + 1) as u64
    } else {
        n
    }
}

pub open spec fn reply(c: ConnId, m: Message) -> Outbound {
    Outbound { to: c, message: m }
}

impl ServerModel {
    pub open spec fn is_participant(self, c: ConnId) -> bool {
        self.roles.contains_key(c) && self.roles[c] is Participant
    }

    pub open spec fn is_admin(self, c: ConnId) -> bool {
        self.roles.contains_key(c) && self.roles[c] == Role::Admin
    }

    /// The identifier held by participant connection `c`.
    pub open spec fn id_of(self, c: ConnId) -> ParticipantId {
        self.roles[c]->Participant_0
    }

    /// The identity map and the registry describe the same bindings: `id` is
    /// bound to `c` exactly when `c` is live with role `Participant(id)`.
    pub open spec fn bindings_agree(self) -> bool {
        &&& forall|id: ParticipantId| #[trigger]
            self.ids.contains_key(id) ==> self.roles.contains_key(self.ids[id])
                && self.roles[self.ids[id]] == Role::Participant(id)
        &&& forall|c: ConnId| #[trigger]
            self.is_participant(c) ==> self.ids.contains_key(self.id_of(c)) && self.ids[self.id_of(
                c,
            )] == c
    }

    /// Number of accepted guesses of `id` (zero before the first).
    pub open spec fn guess_count(self, id: ParticipantId) -> u64 {
        if self.stats.contains_key(id) {
            self.stats[id]
        } else {
            0
        }
    }

    /// `id` has never been handed out and holds no entry anywhere.
    pub open spec fn is_fresh(self, id: ParticipantId) -> bool {
        &&& !self.ids.contains_key(id)
        &&& !self.stats.contains_key(id)
        &&& !self.pending.contains_key(id)
        &&& !self.sessions.contains_key(id)
    }

    /// Drops the participant binding of `c`, if any, with its pending guess and
    /// session nonce; statistics are kept.
    pub open spec fn released(self, c: ConnId) -> ServerModel {
        if self.is_participant(c) {
            let id = self.id_of(c);
            ServerModel {
                roles: self.roles,
                ids: self.ids.remove(id),
                stats: self.stats,
                pending: self.pending.remove(id),
                sessions: self.sessions.remove(id),
                token: self.token,
            }
        } else {
            self
        }
    }

    pub open spec fn with_role(self, c: ConnId, role: Role) -> ServerModel {
        ServerModel {
            roles: self.roles.insert(c, role),
            ids: self.ids,
            stats: self.stats,
            pending: self.pending,
            sessions: self.sessions,
            token: self.token,
        }
    }

    /// After a connection is accepted: a new connection starts without
    /// privileges; a live one keeps its role.
    pub open spec fn connected(self, c: ConnId) -> ServerModel {
        if self.roles.contains_key(c) {
            self
        } else {
            self.with_role(c, Role::JustConnected)
        }
    }

    /// After a connection is closed: it leaves the registry and its identity
    /// binding is dropped.
    pub open spec fn disconnected(self, c: ConnId) -> ServerModel {
        let r = self.released(c);
        ServerModel {
            roles: r.roles.remove(c),
            ids: r.ids,
            stats: r.stats,
            pending: r.pending,
            sessions: r.sessions,
            token: r.token,
        }
    }

    /// `c` becomes participant `id`.
    pub open spec fn enrolled(self, c: ConnId, id: ParticipantId) -> ServerModel {
        ServerModel {
            roles: self.roles.insert(c, Role::Participant(id)),
            ids: self.ids.insert(id, c),
            stats: self.stats,
            pending: self.pending,
            sessions: self.sessions,
            token: self.token,
        }
    }

    /// Participant `id` submitted `value`.
    pub open spec fn guessed(self, id: ParticipantId, value: i64) -> ServerModel {
        ServerModel {
            roles: self.roles,
            ids: self.ids,
            stats: self.stats.insert(id, saturating_inc(self.guess_count(id))),
            pending: self.pending.insert(id, value),
            sessions: self.sessions,
            token: self.token,
        }
    }

    /// The pending guess of `id` was answered.
    pub open spec fn answered(self, id: ParticipantId) -> ServerModel {
        ServerModel {
            roles: self.roles,
            ids: self.ids,
            stats: self.stats,
            pending: self.pending.remove(id),
            sessions: self.sessions,
            token: self.token,
        }
    }
}

/// Registering a connection that is not yet a participant, with `id` drawn as
/// its identifier: a fresh `id` enrolls it and is acknowledged; a used one
/// changes nothing and is not answered.
pub open spec fn registration(
    pre: ServerModel,
    c: ConnId,
    id: ParticipantId,
    post: ServerModel,
    outs: Seq<Outbound>,
) -> bool {
    if pre.is_fresh(id) {
        &&& post == pre.enrolled(c, id)
        &&& outs == seq![reply(c, Message::Stc(ServerToClient::RegisterUUID(id)))]
    } else {
        post == pre && outs.len() == 0
    }
}

/// The effect of a message from a participant-side connection.
pub open spec fn client_step(
    pre: ServerModel,
    c: ConnId,
    msg: ClientToServer,
    post: ServerModel,
    outs: Seq<Outbound>,
) -> bool {
    match msg {
        ClientToServer::Register => if pre.is_participant(c) {
            &&& post == pre
            &&& outs == seq![reply(c, Message::Stc(ServerToClient::RegisterUUID(pre.id_of(c))))]
        } else {
            exists|id: ParticipantId| #[trigger] registration(pre, c, id, post, outs)
        },
        ClientToServer::Guess(v) => {
            &&& outs.len() == 0
            &&& post == if pre.is_participant(c) {
                pre.guessed(pre.id_of(c), v)
            } else {
                pre
            }
        },
        ClientToServer::Ack(_) => post == pre && outs.len() == 0,
    }
}

/// The experiment start: every participant connection gets one
/// `ExperimentStart` carrying a nonce that is recorded as its session nonce.
pub open spec fn started(pre: ServerModel, post: ServerModel, outs: Seq<Outbound>) -> bool {
    &&& post.roles == pre.roles
    &&& post.ids == pre.ids
    &&& post.stats == pre.stats
    &&& post.pending == pre.pending
    &&& post.token == pre.token
    &&& forall|i: int|
        0 <= i < outs.len() ==> pre.is_participant(#[trigger] outs[i].to) && post.sessions.contains_key(
            pre.id_of(outs[i].to),
        ) && outs[i].message == Message::Stc(
            ServerToClient::ExperimentStart(post.sessions[pre.id_of(outs[i].to)]),
        )
    &&& forall|c: ConnId| #[trigger]
        pre.is_participant(c) ==> exists|i: int| 0 <= i < outs.len() && #[trigger] outs[i].to == c
    &&& forall|i: int, j: int|
        0 <= i < outs.len() && 0 <= j < outs.len() && i != j ==> #[trigger] outs[i].to
            != #[trigger] outs[j].to
    &&& forall|id: ParticipantId| #[trigger]
        post.sessions.contains_key(id) == (pre.sessions.contains_key(id) || pre.ids.contains_key(id))
    &&& forall|id: ParticipantId|
        #![trigger post.sessions[id]]
        pre.sessions.contains_key(id) && !pre.ids.contains_key(id) ==> post.sessions[id]
            == pre.sessions[id]
}

/// The effect of a message from an administrator-side connection.
pub open spec fn admin_step(
    pre: ServerModel,
    c: ConnId,
    msg: AdminToServer,
    post: ServerModel,
    outs: Seq<Outbound>,
) -> bool {
    match msg {
        AdminToServer::Auth(t) => if t@ == pre.token {
            &&& post == pre.released(c).with_role(c, Role::Admin)
            &&& outs == seq![reply(c, Message::Sta(ServerToAdmin::ResultAuth(true)))]
        } else {
            &&& post == pre
            &&& outs == seq![reply(c, Message::Sta(ServerToAdmin::ResultAuth(false)))]
        },
        _ => if !pre.is_admin(c) {
            post == pre && outs.len() == 0
        } else {
            match msg {
                AdminToServer::Start => started(pre, post, outs),
                AdminToServer::Stats => {
                    &&& post == pre
                    &&& outs.len() == 1
                    &&& outs[0].to == c
                    &&& outs[0].message matches Message::Sta(ServerToAdmin::Stats(s))
                    &&& s.0@ == pre.stats
                },
                AdminToServer::WaitAnswers => {
                    &&& post == pre
                    &&& outs.len() == 1
                    &&& outs[0].to == c
                    &&& outs[0].message matches Message::Sta(ServerToAdmin::WaitAnswers(w))
                    &&& w.0@ == pre.pending
                },
                AdminToServer::SendAnswer { target, answer } => if pre.ids.contains_key(target) {
                    &&& post == pre.answered(target)
                    &&& outs.len() == 1
                    &&& outs[0].to == pre.ids[target]
                    &&& outs[0].message matches Message::Stc(ServerToClient::Answer(a, n))
                    &&& a == answer
                    &&& pre.sessions.contains_key(target) ==> n == pre.sessions[target]
                } else {
                    post == pre && outs.len() == 0
                },
                AdminToServer::Auth(_) => true,
            }
        },
    }
}

/// The effect of any message received on connection `c`: messages that only
/// the server sends are dropped.
pub open spec fn step(
    pre: ServerModel,
    c: ConnId,
    msg: Message,
    post: ServerModel,
    outs: Seq<Outbound>,
) -> bool {
    match msg {
        Message::Cts(m) => client_step(pre, c, m, post, outs),
        Message::Ats(m) => admin_step(pre, c, m, post, outs),
        Message::Stc(_) | Message::Sta(_) => post == pre && outs.len() == 0,
    }
}

proof fn lemma_agree_same_bindings(pre: ServerModel, post: ServerModel)
    requires
        pre.bindings_agree(),
        post.roles == pre.roles,
        post.ids == pre.ids,
    ensures
        post.bindings_agree(),
{
    assert forall|c: ConnId| #[trigger] post.is_participant(c) implies post.ids.contains_key(
        post.id_of(c),
    ) && post.ids[post.id_of(c)] == c by {
        assert(pre.is_participant(c));
    }
}

/// All state of the server, behind one owner that applies events one at a time.
pub struct ServerState {
    auth_token: String,
    clients: Registry,
    uuids_users: HashMap<ParticipantId, ConnId>,
    stat_users: Stats,
    waiting_users: WaitAnswers,
    sessions: HashMap<ParticipantId, Nonce>,
}

impl View for ServerState {
    type V = ServerModel;

    closed spec fn view(&self) -> ServerModel {
        ServerModel {
            roles: self.clients@,
            ids: self.uuids_users@,
            stats: self.stat_users.0@,
            pending: self.waiting_users.0@,
            sessions: self.sessions@,
            token: self.auth_token@,
        }
    }
}

impl ServerState {
    pub closed spec fn wf(&self) -> bool {
        self.clients.wf() && self@.bindings_agree()
    }

    /// A server with no connections, guarded by `auth_token`.
    pub fn new(auth_token: String) -> (r: ServerState)
        ensures
            r.wf(),
            r@.roles.is_empty(),
            r@.ids.is_empty(),
            r@.stats.is_empty(),
            r@.pending.is_empty(),
            r@.sessions.is_empty(),
            r@.token == auth_token@,
    {
        ServerState {
            auth_token,
            clients: Registry::new(),
            uuids_users: HashMap::new(),
            stat_users: Stats(HashMap::new()),
            waiting_users: WaitAnswers(HashMap::new()),
            sessions: HashMap::new(),
        }
    }

    /// The role of connection `c`, if it is live.
    pub fn role_of(&self, c: ConnId) -> (r: Option<Role>)
        requires
            self.wf(),
        ensures
            r == (if self@.roles.contains_key(c) {
                Some(self@.roles[c])
            } else {
                None
            }),
    {
        self.clients.role_of(c)
    }

    /// Drops the participant binding of `c`, keeping its role.
    fn release(&mut self, c: ConnId)
        requires
            old(self).clients.wf(),
        ensures
            final(self).clients == old(self).clients,
            final(self)@ == old(self)@.released(c),
    {
        if let Some(Role::Participant(id)) = self.clients.role_of(c) {
            self.uuids_users.remove(&id);
            self.waiting_users.0.remove(&id);
            self.sessions.remove(&id);
        }
    }

    /// A connection was accepted.
    pub fn register(&mut self, c: ConnId)
        requires
            old(self).wf(),
        ensures
            final(self).wf(),
            final(self)@ == old(self)@.connected(c),
    {
        if self.clients.role_of(c).is_none() {
            self.clients.set_role(c, Role::JustConnected);
            proof {
                let pre = old(self)@;
                let post = self@;
                assert forall|k: ParticipantId| #[trigger] post.ids.contains_key(k) implies post.roles.contains_key(
                    post.ids[k],
                ) && post.roles[post.ids[k]] == Role::Participant(k) by {
                    assert(pre.roles.contains_key(pre.ids[k]));
                }
                assert forall|d: ConnId| #[trigger] post.is_participant(d) implies post.ids.contains_key(
                    post.id_of(d),
                ) && post.ids[post.id_of(d)] == d by {
                    assert(pre.is_participant(d));
                }
            }
        }
    }

    /// A connection was closed.
    pub fn unregister(&mut self, c: ConnId)
        requires
            old(self).wf(),
        ensures
            final(self).wf(),
            final(self)@ == old(self)@.disconnected(c),
    {
        self.release(c);
        self.clients.remove(c);
        proof {
            let pre = old(self)@;
            let post = self@;
            assert forall|d: ConnId| #[trigger] post.is_participant(d) implies post.ids.contains_key(
                post.id_of(d),
            ) && post.ids[post.id_of(d)] == d by {
                assert(pre.is_participant(d));
                assert(d != c);
                if pre.is_participant(c) {
                    assert(pre.ids[pre.id_of(c)] == c);
                }
            }
        }
    }

    /// Enrolls `c`, which is not a participant yet, under the freshly drawn
    /// identifier `id`; a used `id` changes nothing and gets no reply.
    pub fn register_participant(&mut self, c: ConnId, id: ParticipantId) -> (r: Vec<Outbound>)
        requires
            old(self).wf(),
            !old(self)@.is_participant(c),
        ensures
            final(self).wf(),
            registration(old(self)@, c, id, final(self)@, r@),
    {
        let mut r: Vec<Outbound> = Vec::new();
        if self.uuids_users.contains_key(&id) || self.stat_users.0.contains_key(&id)
            || self.waiting_users.0.contains_key(&id) || self.sessions.contains_key(&id) {
            return r;
        }
        self.clients.set_role(c, Role::Participant(id));
        self.uuids_users.insert(id, c);
        r.push(Outbound { to: c, message: Message::Stc(ServerToClient::RegisterUUID(id)) });
        proof {
            let pre = old(self)@;
            let post = self@;
            assert(r@ =~= seq![reply(c, Message::Stc(ServerToClient::RegisterUUID(id)))]);
            assert forall|k: ParticipantId| #[trigger] post.ids.contains_key(k) implies post.roles.contains_key(
                post.ids[k],
            ) && post.roles[post.ids[k]] == Role::Participant(k) by {
                if k != id {
                    assert(pre.ids.contains_key(k));
                    assert(pre.roles[pre.ids[k]] == Role::Participant(k));
                    assert(pre.ids[k] != c);
                }
            }
            assert forall|d: ConnId| #[trigger] post.is_participant(d) implies post.ids.contains_key(
                post.id_of(d),
            ) && post.ids[post.id_of(d)] == d by {
                if d != c {
                    assert(pre.is_participant(d));
                    assert(pre.ids.contains_key(pre.id_of(d)));
                }
            }
        }
        r
    }

    /// Handles a message from the participant side.
    pub fn exec_client_message(&mut self, c: ConnId, message: ClientToServer) -> (r: Vec<Outbound>)
        requires
            old(self).wf(),
        ensures
            final(self).wf(),
            client_step(old(self)@, c, message, final(self)@, r@),
    {
        match message {
            ClientToServer::Register => {
                if let Some(Role::Participant(id)) = self.clients.role_of(c) {
                    let mut r: Vec<Outbound> = Vec::new();
                    r.push(Outbound { to: c, message: Message::Stc(ServerToClient::RegisterUUID(id)) });
                    assert(r@ =~= seq![reply(c, Message::Stc(ServerToClient::RegisterUUID(id)))]);
                    r
                } else {
                    let id = new_v4();
                    let r = self.register_participant(c, id);
                    assert(registration(old(self)@, c, id, self@, r@));
                    r
                }
            },
            ClientToServer::Guess(value) => {
                if let Some(Role::Participant(id)) = self.clients.role_of(c) {
                    let count: u64 = match self.stat_users.0.get(&id) {
                        Some(n) => *n,
                        None => 0,
                    };
                    let next: u64 = if count < u64::MAX { count + 1 } else { count };
                    self.stat_users.0.insert(id, next);
                    self.waiting_users.0.insert(id, value);
                    assert(self@ == old(self)@.guessed(id, value));
                    proof {
                        lemma_agree_same_bindings(old(self)@, self@);
                    }
                }
                Vec::new()
            },
            ClientToServer::Ack(_) => Vec::new(),
        }
    }

    /// Sends `ExperimentStart` with a newly drawn nonce to every participant
    /// connection and records each nonce as that participant's session nonce.
    fn broadcast_start(&mut self) -> (r: Vec<Outbound>)
        requires
            old(self).wf(),
        ensures
            final(self).wf(),
            started(old(self)@, final(self)@, r@),
    {
        let ghost pre = self@;
        let parts = self.clients.participants();
        let mut r: Vec<Outbound> = Vec::new();
        let mut k: usize = 0;
        proof {
            assert forall|a: int, b: int|
                0 <= a < parts@.len() && 0 <= b < parts@.len() && #[trigger] parts@[a].1
                    == #[trigger] parts@[b].1 implies a == b by {
                assert(pre.is_participant(parts@[a].0));
                assert(pre.is_participant(parts@[b].0));
                assert(pre.ids[pre.id_of(parts@[a].0)] == parts@[a].0);
                assert(pre.ids[pre.id_of(parts@[b].0)] == parts@[b].0);
            }
        }
        while k < parts.len()
            invariant
                self.wf(),
                pre.bindings_agree(),
                k <= parts@.len(),
                r@.len() == k,
                self@.roles == pre.roles,
                self@.ids == pre.ids,
                self@.stats == pre.stats,
                self@.pending == pre.pending,
                self@.token == pre.token,
                forall|j: int|
                    0 <= j < parts@.len() ==> pre.roles.contains_key(#[trigger] parts@[j].0)
                        && pre.roles[parts@[j].0] == Role::Participant(parts@[j].1),
                forall|a: int, b: int|
                    0 <= a < parts@.len() && 0 <= b < parts@.len() && a != b ==> #[trigger] parts@[a].0
                        != #[trigger] parts@[b].0,
                forall|a: int, b: int|
                    0 <= a < parts@.len() && 0 <= b < parts@.len() && #[trigger] parts@[a].1
                        == #[trigger] parts@[b].1 ==> a == b,
                forall|j: int|
                    0 <= j < k ==> #[trigger] r@[j].to == parts@[j].0 && self@.sessions.contains_key(
                        parts@[j].1,
                    ) && r@[j].message == Message::Stc(
                        ServerToClient::ExperimentStart(self@.sessions[parts@[j].1]),
                    ),
                forall|id: ParticipantId| #[trigger]
                    self@.sessions.contains_key(id) == (pre.sessions.contains_key(id) || exists|j: int|
                        0 <= j < k && #[trigger] parts@[j].1 == id),
                forall|id: ParticipantId|
                    #![trigger self@.sessions[id]]
                    pre.sessions.contains_key(id) && (forall|j: int|
                        0 <= j < k ==> #[trigger] parts@[j].1 != id) ==> self@.sessions[id]
                        == pre.sessions[id],
            decreases parts@.len() - k,
        {
            let (to, id) = parts[k];
            let n = new_v4();
            let ghost s0 = self@.sessions;
            let ghost r0 = r@;
            self.sessions.insert(id, n);
            r.push(Outbound { to, message: Message::Stc(ServerToClient::ExperimentStart(n)) });
            proof {
                lemma_agree_same_bindings(pre, self@);
                assert forall|j: int|
                    0 <= j < k + 1 implies #[trigger] r@[j].to == parts@[j].0 && self@.sessions.contains_key(
                        parts@[j].1,
                    ) && r@[j].message == Message::Stc(
                        ServerToClient::ExperimentStart(self@.sessions[parts@[j].1]),
                    ) by {
                    if j < k {
                        assert(parts@[j].1 != id);
                        assert(r@[j] == r0[j]);
                        assert(s0.contains_key(parts@[j].1));
                        assert(self@.sessions[parts@[j].1] == s0[parts@[j].1]);
                    } else {
                        assert(r@[j].to == to);
                        assert(self@.sessions[id] == n);
                    }
                }
                assert forall|x: ParticipantId| #[trigger]
                    self@.sessions.contains_key(x) == (pre.sessions.contains_key(x) || exists|j: int|
                        0 <= j < k + 1 && #[trigger] parts@[j].1 == x) by {
                    if x == id {
                        assert(parts@[k as int].1 == x);
                    }
                    if exists|j: int| 0 <= j < k + 1 && #[trigger] parts@[j].1 == x {
                        let j = choose|j: int| 0 <= j < k + 1 && #[trigger] parts@[j].1 == x;
                        if j < k {
                            assert(s0.contains_key(x));
                        }
                    }
                }
                assert forall|x: ParticipantId|
                    #![trigger self@.sessions[x]]
                    pre.sessions.contains_key(x) && (forall|j: int|
                        0 <= j < k + 1 ==> #[trigger] parts@[j].1 != x) implies self@.sessions[x]
                        == pre.sessions[x] by {
                    assert(parts@[k as int].1 != x);
                    assert(forall|j: int| 0 <= j < k ==> #[trigger] parts@[j].1 != x);
                }
            }
            k = k + 1;
        }
        proof {
            let post = self@;
            let outs = r@;
            assert forall|i: int|
                0 <= i < outs.len() implies pre.is_participant(#[trigger] outs[i].to)
                    && post.sessions.contains_key(pre.id_of(outs[i].to)) && outs[i].message
                    == Message::Stc(ServerToClient::ExperimentStart(post.sessions[pre.id_of(outs[i].to)])) by {
                assert(outs[i].to == parts@[i].0);
            }
            assert forall|c: ConnId| #[trigger] pre.is_participant(c) implies exists|i: int|
                0 <= i < outs.len() && #[trigger] outs[i].to == c by {
                assert(pre.roles.contains_key(c) && pre.roles[c] is Participant);
                let j = choose|j: int| 0 <= j < parts@.len() && #[trigger] parts@[j].0 == c;
                assert(outs[j].to == c);
            }
            assert forall|i: int, j: int|
                0 <= i < outs.len() && 0 <= j < outs.len() && i != j implies #[trigger] outs[i].to
                    != #[trigger] outs[j].to by {
                assert(outs[i].to == parts@[i].0);
                assert(outs[j].to == parts@[j].0);
            }
            assert forall|id: ParticipantId| #[trigger]
                post.sessions.contains_key(id) == (pre.sessions.contains_key(id) || pre.ids.contains_key(id)) by {
                if pre.ids.contains_key(id) {
                    let c = pre.ids[id];
                    assert(pre.is_participant(c));
                    let j = choose|j: int| 0 <= j < parts@.len() && #[trigger] parts@[j].0 == c;
                    assert(parts@[j].1 == id);
                }
                if exists|j: int| 0 <= j < parts@.len() && #[trigger] parts@[j].1 == id {
                    let j = choose|j: int| 0 <= j < parts@.len() && #[trigger] parts@[j].1 == id;
                    let c = parts@[j].0;
                    assert(pre.is_participant(c));
                    assert(pre.id_of(c) == id);
                }
            }
            assert forall|id: ParticipantId|
                #![trigger post.sessions[id]]
                pre.sessions.contains_key(id) && !pre.ids.contains_key(id) implies post.sessions[id]
                    == pre.sessions[id] by {
                assert forall|j: int| 0 <= j < parts@.len() implies #[trigger] parts@[j].1 != id by {
                    let c = parts@[j].0;
                    assert(pre.is_participant(c));
                    assert(pre.id_of(c) == parts@[j].1);
                }
            }
        }
        r
    }

    /// Handles a message from the administrator side.
    pub fn exec_admin_message(&mut self, c: ConnId, message: AdminToServer) -> (r: Vec<Outbound>)
        requires
            old(self).wf(),
        ensures
            final(self).wf(),
            admin_step(old(self)@, c, message, final(self)@, r@),
    {
        let mut r: Vec<Outbound> = Vec::new();
        if let AdminToServer::Auth(token) = message {
            let ok = self.auth_token == token;
            if ok {
                self.release(c);
                self.clients.set_role(c, Role::Admin);
                proof {
                    let pre = old(self)@;
                    let post = self@;
                    assert forall|k: ParticipantId| #[trigger] post.ids.contains_key(k) implies post.roles.contains_key(
                        post.ids[k],
                    ) && post.roles[post.ids[k]] == Role::Participant(k) by {
                        assert(pre.ids.contains_key(k));
                        if pre.ids[k] == c {
                            assert(pre.is_participant(c));
                        }
                    }
                    assert forall|d: ConnId| #[trigger] post.is_participant(d) implies post.ids.contains_key(
                        post.id_of(d),
                    ) && post.ids[post.id_of(d)] == d by {
                        assert(pre.is_participant(d));
                        assert(pre.ids[pre.id_of(d)] == d);
                        if pre.is_participant(c) {
                            assert(pre.ids[pre.id_of(c)] == c);
                        }
                    }
                }
            }
            r.push(Outbound { to: c, message: Message::Sta(ServerToAdmin::ResultAuth(ok)) });
            assert(r@ =~= seq![reply(c, Message::Sta(ServerToAdmin::ResultAuth(ok)))]);
            return r;
        }
        match self.clients.role_of(c) {
            Some(Role::Admin) => {},
            _ => {
                return r;
            },
        }
        match message {
            AdminToServer::Start => {
                r = self.broadcast_start();
            },
            AdminToServer::Stats => {
                let snapshot = Stats(self.stat_users.0.clone());
                r.push(Outbound { to: c, message: Message::Sta(ServerToAdmin::Stats(snapshot)) });
            },
            AdminToServer::WaitAnswers => {
                let snapshot = WaitAnswers(self.waiting_users.0.clone());
                r.push(
                    Outbound { to: c, message: Message::Sta(ServerToAdmin::WaitAnswers(snapshot)) },
                );
            },
            AdminToServer::SendAnswer { target, answer } => {
                let found = match self.uuids_users.get(&target) {
                    Some(to) => Some(*to),
                    None => None,
                };
                if let Some(to) = found {
                    let nonce = match self.sessions.get(&target) {
                        Some(n) => *n,
                        None => new_v4(),
                    };
                    self.waiting_users.0.remove(&target);
                    proof {
                        lemma_agree_same_bindings(old(self)@, self@);
                    }
                    r.push(
                        Outbound {
                            to,
                            message: Message::Stc(ServerToClient::Answer(answer, nonce)),
                        },
                    );
                }
            },
            AdminToServer::Auth(_) => {},
        }
        r
    }

    /// Handles any message received on connection `c`.
    pub fn exec_message(&mut self, c: ConnId, message: Message) -> (r: Vec<Outbound>)
        requires
            old(self).wf(),
        ensures
            final(self).wf(),
            step(old(self)@, c, message, final(self)@, r@),
    {
        match message {
            Message::Cts(m) => self.exec_client_message(c, m),
            Message::Ats(m) => self.exec_admin_message(c, m),
            Message::Stc(_) | Message::Sta(_) => Vec::new(),
        }
    }
}

} // verus!
