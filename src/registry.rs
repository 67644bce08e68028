//! The registry of live connections and the role each one holds.
use vstd::prelude::*;

verus! {

/// Transport-level handle of a live connection; only ever used as a key.
pub type ConnId = usize;

/// What a connection is allowed to do.
#[derive(Clone, Copy, PartialEq, Eq, Debug, Structural)]
pub enum Role {
    JustConnected,
    Participant(u128),
    Admin,
}

/// Live connections with their roles, kept as a list with unique keys.
pub struct Registry {
    entries: Vec<(ConnId, Role)>,
}

spec fn holds(s: Seq<(ConnId, Role)>, c: ConnId) -> bool {
    exists|i: int| 0 <= i < s.len() && #[trigger] s[i].0 == c
}

spec fn role_in(s: Seq<(ConnId, Role)>, c: ConnId) -> Role {
    s[choose|i: int| 0 <= i < s.len() && #[trigger] s[i].0 == c].1
}

spec fn keys_unique(s: Seq<(ConnId, Role)>) -> bool {
    forall|i: int, j: int|
        0 <= i < s.len() && 0 <= j < s.len() && #[trigger] s[i].0 == #[trigger] s[j].0 ==> i == j
}

spec fn map_of(s: Seq<(ConnId, Role)>) -> Map<ConnId, Role> {
    Map::new(|c: ConnId| holds(s, c), |c: ConnId| role_in(s, c))
}

proof fn lemma_entry(s: Seq<(ConnId, Role)>, i: int)
    requires
        keys_unique(s),
        0 <= i < s.len(),
    ensures
        map_of(s).contains_key(s[i].0),
        map_of(s)[s[i].0] == s[i].1,
{
    let c = s[i].0;
    assert(holds(s, c));
    let j = choose|j: int| 0 <= j < s.len() && #[trigger] s[j].0 == c;
    assert(s[j].0 == s[i].0);
}

impl View for Registry {
    type V = Map<ConnId, Role>;

    closed spec fn view(&self) -> Map<ConnId, Role> {
        map_of(self.entries@)
    }
}

impl Registry {
    /// The registry's internal consistency: no connection is listed twice.
    pub closed spec fn wf(&self) -> bool {
        keys_unique(self.entries@)
    }

    /// An empty registry.
    pub fn new() -> (r: Registry)
        ensures
            r.wf(),
            r@ == Map::<ConnId, Role>::empty(),
    {
        let r = Registry { entries: Vec::new() };
        assert(r@ =~= Map::<ConnId, Role>::empty());
        r
    }

    fn find(&self, c: ConnId) -> (r: Option<usize>)
        requires
            self.wf(),
        ensures
            r matches Some(i) ==> i < self.entries@.len() && self.entries@[i as int].0 == c,
            r is None ==> !self@.contains_key(c),
    {
        let mut i: usize = 0;
        while i < self.entries.len()
            invariant
                i <= self.entries@.len(),
                forall|j: int| 0 <= j < i ==> #[trigger] self.entries@[j].0 != c,
            decreases self.entries@.len() - i,
        {
            if self.entries[i].0 == c {
                return Some(i);
            }
            i = i + 1;
        }
        None
    }

    /// The role of `c`, if `c` is live.
    pub fn role_of(&self, c: ConnId) -> (r: Option<Role>)
        requires
            self.wf(),
        ensures
            r == (if self@.contains_key(c) {
                Some(self@[c])
            } else {
                None
            }),
    {
        match self.find(c) {
            Some(i) => {
                proof {
                    lemma_entry(self.entries@, i as int);
                }
                Some(self.entries[i].1)
            },
            None => None,
        }
    }

    /// Gives `c` the role `role`, adding `c` if it is not live yet.
    pub fn set_role(&mut self, c: ConnId, role: Role)
        requires
            old(self).wf(),
        ensures
            final(self).wf(),
            final(self)@ == old(self)@.insert(c, role),
    {
        let ghost s = self.entries@;
        match self.find(c) {
            Some(i) => {
                self.entries.set(i, (c, role));
                let ghost t = self.entries@;
                assert(keys_unique(t)) by {
                    assert forall|a: int, b: int|
                        0 <= a < t.len() && 0 <= b < t.len() && #[trigger] t[a].0
                            == #[trigger] t[b].0 implies a == b by {
                        assert(t[a].0 == s[a].0 && t[b].0 == s[b].0);
                    }
                }
                assert forall|k: ConnId| #[trigger]
                    map_of(t).contains_key(k) == map_of(s).insert(c, role).contains_key(k) by {
                    if holds(s, k) {
                        let j = choose|j: int| 0 <= j < s.len() && #[trigger] s[j].0 == k;
                        assert(t[j].0 == k);
                    }
                    if holds(t, k) {
                        let j = choose|j: int| 0 <= j < t.len() && #[trigger] t[j].0 == k;
                        assert(s[j].0 == k);
                    }
                    assert(t[i as int].0 == c);
                }
                assert forall|k: ConnId| #[trigger] map_of(t).contains_key(k) implies map_of(t)[k]
                    == map_of(s).insert(c, role)[k] by {
                    let j = choose|j: int| 0 <= j < t.len() && #[trigger] t[j].0 == k;
                    lemma_entry(t, j);
                    if j != i {
                        assert(s[j] == t[j]);
                        lemma_entry(s, j);
                    }
                }
                assert(map_of(t) =~= map_of(s).insert(c, role));
            },
            None => {
                self.entries.push((c, role));
                let ghost t = self.entries@;
                assert(keys_unique(t)) by {
                    assert forall|a: int, b: int|
                        0 <= a < t.len() && 0 <= b < t.len() && #[trigger] t[a].0
                            == #[trigger] t[b].0 implies a == b by {
                        if a < s.len() {
                            assert(t[a] == s[a]);
                            lemma_entry(s, a);
                        }
                        if b < s.len() {
                            assert(t[b] == s[b]);
                            lemma_entry(s, b);
                        }
                    }
                }
                assert forall|k: ConnId| #[trigger]
                    map_of(t).contains_key(k) == map_of(s).insert(c, role).contains_key(k) by {
                    if holds(s, k) {
                        let j = choose|j: int| 0 <= j < s.len() && #[trigger] s[j].0 == k;
                        assert(t[j].0 == k);
                    }
                    if holds(t, k) && k != c {
                        let j = choose|j: int| 0 <= j < t.len() && #[trigger] t[j].0 == k;
                        assert(s[j].0 == k);
                    }
                    assert(t[s.len() as int].0 == c);
                }
                assert forall|k: ConnId| #[trigger] map_of(t).contains_key(k) implies map_of(t)[k]
                    == map_of(s).insert(c, role)[k] by {
                    let j = choose|j: int| 0 <= j < t.len() && #[trigger] t[j].0 == k;
                    lemma_entry(t, j);
                    if j < s.len() {
                        assert(s[j] == t[j]);
                        lemma_entry(s, j);
                    }
                }
                assert(map_of(t) =~= map_of(s).insert(c, role));
            },
        }
    }

    /// Removes `c`, returning the role it held.
    pub fn remove(&mut self, c: ConnId) -> (r: Option<Role>)
        requires
            old(self).wf(),
        ensures
            final(self).wf(),
            final(self)@ == old(self)@.remove(c),
            r == (if old(self)@.contains_key(c) {
                Some(old(self)@[c])
            } else {
                None
            }),
    {
        let ghost s = self.entries@;
        match self.find(c) {
            Some(i) => {
                proof {
                    lemma_entry(s, i as int);
                }
                let (_, role) = self.entries.remove(i);
                let ghost t = self.entries@;
                assert(keys_unique(t)) by {
                    assert forall|a: int, b: int|
                        0 <= a < t.len() && 0 <= b < t.len() && #[trigger] t[a].0
                            == #[trigger] t[b].0 implies a == b by {
                        let sa = if a < i { a } else { a + 1 };
                        let sb = if b < i { b } else { b + 1 };
                        assert(t[a] == s[sa] && t[b] == s[sb]);
                    }
                }
                assert forall|k: ConnId| #[trigger]
                    map_of(t).contains_key(k) == map_of(s).remove(c).contains_key(k) by {
                    if holds(s, k) && k != c {
                        let j = choose|j: int| 0 <= j < s.len() && #[trigger] s[j].0 == k;
                        if j < i {
                            assert(t[j].0 == k);
                        } else {
                            assert(j != i);
                            assert(t[j - 1].0 == k);
                        }
                    }
                    if holds(t, k) {
                        let j = choose|j: int| 0 <= j < t.len() && #[trigger] t[j].0 == k;
                        let sj = if j < i { j } else { j + 1 };
                        assert(s[sj].0 == k);
                        assert(sj != i);
                    }
                }
                assert forall|k: ConnId| #[trigger] map_of(t).contains_key(k) implies map_of(t)[k]
                    == map_of(s).remove(c)[k] by {
                    let j = choose|j: int| 0 <= j < t.len() && #[trigger] t[j].0 == k;
                    lemma_entry(t, j);
                    let sj = if j < i { j } else { j + 1 };
                    assert(s[sj] == t[j]);
                    lemma_entry(s, sj);
                }
                assert(map_of(t) =~= map_of(s).remove(c));
                Some(role)
            },
            None => {
                assert(map_of(s) =~= map_of(s).remove(c));
                None
            },
        }
    }

    /// Every connection that holds the participant role, with its identifier,
    /// each connection once.
    pub fn participants(&self) -> (r: Vec<(ConnId, u128)>)
        requires
            self.wf(),
        ensures
            forall|j: int|
                0 <= j < r@.len() ==> self@.contains_key(#[trigger] r@[j].0) && self@[r@[j].0]
                    == Role::Participant(r@[j].1),
            forall|c: ConnId|
                #![trigger self@[c]]
                self@.contains_key(c) && self@[c] is Participant ==> exists|j: int|
                    0 <= j < r@.len() && #[trigger] r@[j].0 == c,
            forall|a: int, b: int|
                0 <= a < r@.len() && 0 <= b < r@.len() && a != b ==> #[trigger] r@[a].0
                    != #[trigger] r@[b].0,
    {
        let ghost s = self.entries@;
        let mut r: Vec<(ConnId, u128)> = Vec::new();
        let mut i: usize = 0;
        while i < self.entries.len()
            invariant
                s == self.entries@,
                keys_unique(s),
                i <= s.len(),
                forall|j: int|
                    0 <= j < r@.len() ==> self@.contains_key(#[trigger] r@[j].0) && self@[r@[j].0]
                        == Role::Participant(r@[j].1),
                forall|j: int| #![trigger r@[j]]
                    0 <= j < r@.len() ==> exists|x: int| 0 <= x < i && #[trigger] s[x].0 == r@[j].0,
                forall|x: int|
                    0 <= x < i && s[x].1 is Participant ==> exists|j: int|
                        0 <= j < r@.len() && #[trigger] r@[j].0 == s[x].0,
                forall|a: int, b: int|
                    0 <= a < r@.len() && 0 <= b < r@.len() && a != b ==> #[trigger] r@[a].0
                        != #[trigger] r@[b].0,
            decreases s.len() - i,
        {
            let (c, role) = self.entries[i];
            if let Role::Participant(id) = role {
                proof {
                    lemma_entry(s, i as int);
                    assert forall|j: int| 0 <= j < r@.len() implies #[trigger] r@[j].0 != c by {
                        let x = choose|x: int| 0 <= x < i && #[trigger] s[x].0 == r@[j].0;
                        assert(s[x].0 == s[i as int].0 ==> x == i);
                    }
                }
                let ghost r0 = r@;
                r.push((c, id));
                proof {
                    assert(r@[r0.len() as int].0 == s[i as int].0);
                    assert forall|j: int| #![trigger r@[j]]
                        0 <= j < r@.len() implies exists|x: int|
                            0 <= x < i + 1 && #[trigger] s[x].0 == r@[j].0 by {
                        if j < r0.len() {
                            assert(r@[j] == r0[j]);
                            let x = choose|x: int| 0 <= x < i && #[trigger] s[x].0 == r0[j].0;
                            assert(s[x].0 == r@[j].0);
                        } else {
                            assert(s[i as int].0 == r@[j].0);
                        }
                    }
                    assert forall|x: int| 0 <= x < i + 1 && s[x].1 is Participant implies exists|j: int|
                        0 <= j < r@.len() && #[trigger] r@[j].0 == s[x].0 by {
                        if x < i {
                            let j = choose|j: int| 0 <= j < r0.len() && #[trigger] r0[j].0 == s[x].0;
                            assert(r@[j] == r0[j]);
                        } else {
                            assert(r@[r0.len() as int].0 == s[x].0);
                        }
                    }
                }
            } else {
                proof {
                    assert forall|j: int| #![trigger r@[j]]
                        0 <= j < r@.len() implies exists|x: int|
                            0 <= x < i + 1 && #[trigger] s[x].0 == r@[j].0 by {
                        let x = choose|x: int| 0 <= x < i && #[trigger] s[x].0 == r@[j].0;
                        assert(s[x].0 == r@[j].0);
                    }
                }
            }
            i = i + 1;
        }
        proof {
            assert forall|c: ConnId| #![trigger self@[c]]
                self@.contains_key(c) && self@[c] is Participant implies exists|j: int|
                    0 <= j < r@.len() && #[trigger] r@[j].0 == c by {
                let x = choose|x: int| 0 <= x < s.len() && #[trigger] s[x].0 == c;
                lemma_entry(s, x);
            }
        }
        r
    }
}

} // verus!
