//! In-memory connection registry. Holds, for every connected client, just
//! enough state to route opaque frames and answer server messages.

use std::collections::hash_map::Entry;
use std::collections::{BTreeMap, BTreeSet, HashMap, HashSet};
use vstd::prelude::*;

use crate::bytes::same_bytes;
use crate::clock;
use crate::clock::{clock_now, seconds_between};
use crate::index;
use crate::index::{id_of_key, key_of_id, key_of_x, ClientId, XPub};
use crate::keys::VerifyingKey;

verus! {

broadcast use {
    vstd::std_specs::hash::group_hash_axioms,
    vstd::std_specs::btree::group_btree_axioms,
    vstd::laws_cmp::group_laws_cmp,
};

/// What the hub keeps of a connected client.
pub struct ClientSession {
    /// The number of the client's connection, under which its socket is found.
    pub ws: u64,
    pub ip: String,
    /// The client's X25519 public point: server messages are encrypted to it.
    pub x_pub: XPub,
    /// The client's Ed25519 public key: server-bound frames are signed with it.
    pub ed_pub: VerifyingKey,
    /// The keys that obfuscate routing headers, derived once at the handshake.
    pub k_c2s: [u8; 32],
    pub k_s2c: [u8; 32],
    /// When the client last said something, in nanoseconds of a clock that
    /// never runs backwards.
    pub last_seen: u128,
    /// When the client was last known to be alive or pinged.
    pub last_ping: u128,
}

/// The registry as mathematics.
#[verifier::ext_equal]
pub struct HubView {
    /// Who is connected, under which identifier.
    pub sessions: Map<ClientId, ClientSession>,
    /// The public points that count as online.
    pub online: Set<XPub>,
    /// Who watches whose presence.
    pub watches: Set<(ClientId, XPub)>,
    /// When the registry was set up, in nanoseconds from the Unix epoch.
    pub started_at: Option<i128>,
}

/// Some session is that of the owner of `x`.
pub open spec fn held(sessions: Map<ClientId, ClientSession>, x: XPub) -> bool {
    exists|id: ClientId| #[trigger] sessions.contains_key(id) && sessions[id].x_pub == x
}

/// Who is online once a session of the owner of `x` has gone and `sessions` are
/// left: the point stays online while another session holds it.
pub open spec fn still_online(
    online: Set<XPub>,
    sessions: Map<ClientId, ClientSession>,
    x: XPub,
) -> Set<XPub> {
    if held(sessions, x) {
        online
    } else {
        online.remove(x)
    }
}

impl HubView {
    /// The registry of nobody.
    pub open spec fn empty(started_at: Option<i128>) -> HubView {
        HubView {
            sessions: Map::empty(),
            online: Set::empty(),
            watches: Set::empty(),
            started_at,
        }
    }

    /// The registry with a session under `id`, in place of one that is there.
    pub open spec fn inserted(self, id: ClientId, session: ClientSession) -> HubView {
        HubView {
            sessions: self.sessions.insert(id, session),
            online: (if self.sessions.contains_key(id) {
                still_online(
                    self.online,
                    self.sessions.insert(id, session),
                    self.sessions[id].x_pub,
                )
            } else {
                self.online
            }).insert(session.x_pub),
            ..self
        }
    }

    /// The registry without the session under `id`.
    pub open spec fn removed(self, id: ClientId) -> HubView {
        if self.sessions.contains_key(id) {
            HubView {
                sessions: self.sessions.remove(id),
                online: still_online(
                    self.online,
                    self.sessions.remove(id),
                    self.sessions[id].x_pub,
                ),
                ..self
            }
        } else {
            self
        }
    }

    /// The registry after the client `id` was heard at `now`.
    pub open spec fn touched(self, id: ClientId, now: u128) -> HubView {
        if self.sessions.contains_key(id) {
            HubView {
                sessions: self.sessions.insert(
                    id,
                    ClientSession { last_seen: now, last_ping: now, ..self.sessions[id] },
                ),
                ..self
            }
        } else {
            self
        }
    }

    /// The client `id` has been silent for longer than `heartbeat_timeout`.
    pub open spec fn is_silent(self, id: ClientId, now: u128, heartbeat_timeout: u128) -> bool {
        self.sessions.contains_key(id) && silence(now, self.sessions[id].last_seen)
            > heartbeat_timeout
    }

    /// The client `id` is not to be dropped, and was not heard or pinged for
    /// longer than `ping_interval`.
    pub open spec fn wants_ping(
        self,
        id: ClientId,
        now: u128,
        heartbeat_timeout: u128,
        ping_interval: u128,
    ) -> bool {
        &&& self.sessions.contains_key(id)
        &&& !self.is_silent(id, now, heartbeat_timeout)
        &&& silence(now, self.sessions[id].last_ping) > ping_interval
    }

    /// `ids` names, once each and in some order, the connected clients that
    /// watch `x`.
    pub open spec fn lists_watchers(self, x: XPub, ids: Seq<ClientId>) -> bool {
        &&& ids.no_duplicates()
        &&& forall|id: ClientId| #[trigger]
            ids.contains(id) <==> self.watches.contains((id, x)) && self.sessions.contains_key(id)
    }

    /// The public points, server-to-client keys and connections of `ids`.
    pub open spec fn targets(self, ids: Seq<ClientId>) -> Seq<(XPub, [u8; 32], u64)> {
        Seq::new(
            ids.len(),
            |i: int|
                (
                    self.sessions[ids[i]].x_pub,
                    self.sessions[ids[i]].k_s2c,
                    self.sessions[ids[i]].ws,
                ),
        )
    }

    /// The registry without anything that `me` watches.
    pub open spec fn unsubscribed(self, me: ClientId) -> HubView {
        HubView { watches: self.watches.filter(|w: (ClientId, XPub)| w.0 != me), ..self }
    }
}

/// The registry.
pub struct HubState {
    by_id: HashMap<u64, ClientSession>,
    /// Every public point that is online.
    online_xs: BTreeSet<(u128, u128)>,
    /// For broadcasts: a watched point, and who watches it.
    subscribers_of: BTreeMap<(u128, u128), HashSet<u64>>,
    /// For the clean-up on disconnect: a client, and the points it watches.
    my_subs: HashMap<u64, BTreeSet<(u128, u128)>>,
    started_at: Option<i128>,
}

impl View for HubState {
    type V = HubView;

    closed spec fn view(&self) -> HubView {
        HubView {
            sessions: Map::new(
                |id: ClientId| self.by_id@.contains_key(index::id_key(id)),
                |id: ClientId| self.by_id@[index::id_key(id)],
            ),
            online: Set::new(|x: XPub| self.online_xs@.contains(index::x_key(x))),
            watches: Set::new(
                |w: (ClientId, XPub)| watching(self.my_subs@, index::id_key(w.0), index::x_key(w.1)),
            ),
            started_at: self.started_at,
        }
    }
}

/// The client's own list holds the point.
spec fn watching(
    my_subs: Map<u64, BTreeSet<(u128, u128)>>,
    me: u64,
    x: (u128, u128),
) -> bool {
    my_subs.contains_key(me) && my_subs[me]@.contains(x)
}

/// The point's list holds the client.
spec fn watched_by(
    subscribers_of: Map<(u128, u128), HashSet<u64>>,
    x: (u128, u128),
    me: u64,
) -> bool {
    subscribers_of.contains_key(x) && subscribers_of[x]@.contains(me)
}

/// The two subscription indexes say the same, and neither keeps an empty list.
spec fn indexes_agree(
    my_subs: Map<u64, BTreeSet<(u128, u128)>>,
    subscribers_of: Map<(u128, u128), HashSet<u64>>,
) -> bool {
    &&& forall|me: u64, x: (u128, u128)|
        #![trigger watching(my_subs, me, x)]
        #![trigger watched_by(subscribers_of, x, me)]
        watching(my_subs, me, x) == watched_by(subscribers_of, x, me)
    &&& forall|me: u64| #[trigger] my_subs.contains_key(me) ==> !my_subs[me]@.is_empty()
    &&& no_empty_watchers(subscribers_of)
}

/// The key `k` is among the first `n` that a walk came by.
spec fn walked(seq: Seq<&u64>, n: int, k: u64) -> bool {
    exists|j: int| 0 <= j < n && *#[trigger] seq[j] == k
}

proof fn lemma_walked_step(seq: Seq<&u64>, n: int, k: u64)
    requires
        0 <= n < seq.len(),
    ensures
        walked(seq, n + 1, k) == (walked(seq, n, k) || *seq[n] == k),
{
    if walked(seq, n + 1, k) {
        let j = choose|j: int| 0 <= j < n + 1 && *#[trigger] seq[j] == k;
        assert(j < n ==> walked(seq, n, k));
    }
}

proof fn lemma_walked_all()
    ensures
        forall|seq: Seq<&u64>, n: int, k: u64|
            n == seq.len() ==> #[trigger] walked(seq, n, k) == seq.unref().to_set().contains(k),
{
    assert forall|seq: Seq<&u64>, n: int, k: u64| n == seq.len() implies #[trigger] walked(
        seq,
        n,
        k,
    ) == seq.unref().to_set().contains(k) by {
        if walked(seq, n, k) {
            let j = choose|j: int| 0 <= j < n && *#[trigger] seq[j] == k;
            assert(seq.unref()[j] == k);
        }
        if seq.unref().to_set().contains(k) {
            let j = choose|j: int| 0 <= j < seq.unref().len() && seq.unref()[j] == k;
            assert(*seq[j] == k);
        }
    }
}

/// No list in an index is empty.
spec fn no_empty_watchers(subscribers_of: Map<(u128, u128), HashSet<u64>>) -> bool {
    forall|x: (u128, u128)| #[trigger]
        subscribers_of.contains_key(x) ==> !subscribers_of[x]@.is_empty()
}

/// Takes one client off the list of one point; an empty list goes.
fn unlink_watcher(
    subscribers_of: &mut BTreeMap<(u128, u128), HashSet<u64>>,
    x: &(u128, u128),
    me: &u64,
)
    requires
        no_empty_watchers(old(subscribers_of)@),
    ensures
        no_empty_watchers(final(subscribers_of)@),
        forall|y: (u128, u128), m: u64| #[trigger]
            watched_by(final(subscribers_of)@, y, m) == (watched_by(old(subscribers_of)@, y, m)
                && !(y == *x && m == *me)),
{
    if let Some(set) = subscribers_of.remove(x) {
        let mut set = set;
        set.remove(me);
        if !set.is_empty() {
            subscribers_of.insert(*x, set);
        }
    }
}

impl HubState {
    /// The two subscription indexes say the same, and neither keeps an empty
    /// list.
    pub closed spec fn wf(&self) -> bool {
        indexes_agree(self.my_subs@, self.subscribers_of@)
    }

    /// An empty registry, set up now. The moment is the clock's, and left open.
    pub fn new() -> (r: Self)
        ensures
            r.wf(),
            exists|now: i128| r@ == #[trigger] HubView::empty(Some(now)),
    {
        let now: i128 = clock_now();
        HubState::new_at(now)
    }

    /// An empty registry that was set up at a given moment.
    pub fn new_at(now: i128) -> (r: Self)
        ensures
            r.wf(),
            r@ == HubView::empty(Some(now)),
    {
        HubState { started_at: Some(now), ..HubState::default() }
    }

    /// Whether an identifier is taken.
    pub fn contains(&self, id: &ClientId) -> (r: bool)
        ensures
            r == self@.sessions.contains_key(*id),
    {
        self.by_id.contains_key(&key_of_id(id))
    }

    /// Whether a public point is online.
    pub fn is_x_online(&self, x: &XPub) -> (r: bool)
        ensures
            r == self@.online.contains(*x),
    {
        self.online_xs.contains(&key_of_x(x))
    }

    /// Whether some session is that of the owner of a public point. The
    /// sessions are walked through.
    fn holds_point(&self, x: &XPub) -> (r: bool)
        ensures
            r == held(self@.sessions, *x),
    {
        for k in it: self.by_id.keys()
            invariant
                it.seq().unref().to_set() == self.by_id@.dom(),
                forall|id: ClientId| #[trigger]
                    self@.sessions.contains_key(id) && walked(
                        it.seq(),
                        it.index(),
                        index::id_key(id),
                    ) ==> self@.sessions[id].x_pub != *x,
        {
            let ghost n = it.index();
            proof {
                assert(*it.seq()[n] == *k);
                assert(it.seq().unref()[n] == *k);
                assert(it.seq().unref().to_set().contains(*k));
            }
            if let Some(s) = self.by_id.get(k) {
                if same_bytes::<32>(&s.x_pub, x) {
                    proof {
                        index::lemma_key_has_id(*k);
                        let id = choose|id: ClientId| index::id_key(id) == *k;
                        assert(self@.sessions.contains_key(id));
                    }
                    return true;
                }
            }
            assert forall|id: ClientId| #[trigger]
                self@.sessions.contains_key(id) && walked(
                    it.seq(),
                    n + 1,
                    index::id_key(id),
                ) implies self@.sessions[id].x_pub != *x by {
                lemma_walked_step(it.seq(), n, index::id_key(id));
            }
        }
        proof {
            lemma_walked_all();
        }
        false
    }

    /// Registers a session under an identifier, in place of one that is there:
    /// the public point of that one goes offline, unless another session holds
    /// it.
    pub fn insert(&mut self, id: ClientId, session: ClientSession)
        requires
            old(self).wf(),
        ensures
            final(self).wf(),
            final(self)@ == old(self)@.inserted(id, session),
    {
        let x: (u128, u128) = key_of_x(&session.x_pub);
        let before: Option<ClientSession> = self.by_id.insert(key_of_id(&id), session);
        let ghost after = self@.sessions;
        proof {
            index::lemma_keys_injective();
            assert(after =~= old(self)@.sessions.insert(id, session));
        }
        if let Some(replaced) = before {
            if !self.holds_point(&replaced.x_pub) {
                self.online_xs.remove(&key_of_x(&replaced.x_pub));
            }
        }
        self.online_xs.insert(x);
        proof {
            assert(self@.sessions =~= after);
            assert(self@.online =~= old(self)@.inserted(id, session).online);
            assert(self@.watches =~= old(self)@.watches);
        }
    }

    /// Takes the session under an identifier out; its public point goes
    /// offline, unless another session holds it.
    pub fn remove(&mut self, id: &ClientId) -> (r: Option<ClientSession>)
        requires
            old(self).wf(),
        ensures
            final(self).wf(),
            r == (if old(self)@.sessions.contains_key(*id) {
                Some(old(self)@.sessions[*id])
            } else {
                None
            }),
            final(self)@ == old(self)@.removed(*id),
    {
        let r: Option<ClientSession> = self.by_id.remove(&key_of_id(id));
        let s: ClientSession = match r {
            Some(s) => s,
            None => {
                proof {
                    index::lemma_keys_injective();
                    assert(self@ =~= old(self)@);
                }
                return None;
            },
        };
        let ghost left = self@.sessions;
        proof {
            index::lemma_keys_injective();
            assert(left =~= old(self)@.sessions.remove(*id));
        }
        if !self.holds_point(&s.x_pub) {
            self.online_xs.remove(&key_of_x(&s.x_pub));
        }
        proof {
            assert(self@.sessions =~= left);
            assert(self@.online =~= old(self)@.removed(*id).online);
            assert(self@.watches =~= old(self)@.watches);
        }
        Some(s)
    }

    /// The session under an identifier.
    pub fn get(&self, id: &ClientId) -> (r: Option<&ClientSession>)
        ensures
            match r {
                Some(s) => self@.sessions.contains_key(*id) && *s == self@.sessions[*id],
                None => !self@.sessions.contains_key(*id),
            },
    {
        self.by_id.get(&key_of_id(id))
    }

    /// The session under an identifier, to be changed in place.
    pub fn get_mut(&mut self, id: &ClientId) -> (r: Option<&mut ClientSession>)
        requires
            old(self).wf(),
        ensures
            final(self).wf(),
            match r {
                Some(s) => {
                    &&& old(self)@.sessions.contains_key(*id)
                    &&& *s == old(self)@.sessions[*id]
                    &&& final(self)@ == (HubView {
                        sessions: old(self)@.sessions.insert(*id, *final(s)),
                        ..old(self)@
                    })
                },
                None => !old(self)@.sessions.contains_key(*id) && final(self)@ == old(self)@,
            },
    {
        proof {
            index::lemma_keys_injective();
        }
        match self.by_id.entry(key_of_id(id)) {
            Entry::Occupied(entry) => Some(entry.into_mut()),
            Entry::Vacant(_) => None,
        }
    }

    /// The number of sessions.
    pub fn len(&self) -> (r: usize)
        ensures
            self@.sessions.dom().finite(),
            r == self@.sessions.len(),
    {
        proof {
            index::lemma_keys_injective();
            let ids = self@.sessions.dom();
            let f = |k: u64| choose|id: ClientId| index::id_key(id) == k;
            assert forall|k: u64| index::id_key(#[trigger] f(k)) == k by {
                index::lemma_key_has_id(k);
            }
            assert(self.by_id@.dom().map(f) =~= ids) by {
                assert forall|id: ClientId| ids.contains(id) implies self.by_id@.dom().map(
                    f,
                ).contains(id) by {
                    assert(f(index::id_key(id)) == id);
                    assert(self.by_id@.dom().contains(index::id_key(id)));
                }
            }
            vstd::set_lib::lemma_map_size(self.by_id@.dom(), ids, f);
        }
        self.by_id.len()
    }

    /// Registers that `me` watches `target_x`. Returns whether the target is
    /// online, so that the caller can tell the subscriber at once.
    pub fn add_subscription(&mut self, me: ClientId, target_x: XPub) -> (r: bool)
        requires
            old(self).wf(),
        ensures
            final(self).wf(),
            r == old(self)@.online.contains(target_x),
            final(self)@ == (HubView {
                watches: old(self)@.watches.insert((me, target_x)),
                ..old(self)@
            }),
    {
        let id: u64 = key_of_id(&me);
        let x: (u128, u128) = key_of_x(&target_x);
        let mut watchers: HashSet<u64> = match self.subscribers_of.remove(&x) {
            Some(set) => set,
            None => HashSet::new(),
        };
        watchers.insert(id);
        self.subscribers_of.insert(x, watchers);
        let mut targets: BTreeSet<(u128, u128)> = match self.my_subs.remove(&id) {
            Some(set) => set,
            None => BTreeSet::new(),
        };
        targets.insert(x);
        self.my_subs.insert(id, targets);
        proof {
            index::lemma_keys_injective();
            assert(watchers@.contains(id));
            assert(targets@.contains(x));
            assert forall|m: u64, y: (u128, u128)| #[trigger]
                watching(self.my_subs@, m, y) == (watching(old(self).my_subs@, m, y) || (m == id
                    && y == x)) by {}
            assert forall|m: u64, y: (u128, u128)| #[trigger]
                watched_by(self.subscribers_of@, y, m) == (watched_by(
                    old(self).subscribers_of@,
                    y,
                    m,
                ) || (m == id && y == x)) by {}
            assert(self@.sessions =~= old(self)@.sessions);
            assert(self@.online =~= old(self)@.online);
            assert(self@.watches =~= old(self)@.watches.insert((me, target_x)));
        }
        self.online_xs.contains(&x)
    }

    /// Takes back that `me` watches `target_x`.
    pub fn remove_subscription(&mut self, me: &ClientId, target_x: &XPub)
        requires
            old(self).wf(),
        ensures
            final(self).wf(),
            final(self)@ == (HubView {
                watches: old(self)@.watches.remove((*me, *target_x)),
                ..old(self)@
            }),
    {
        let id: u64 = key_of_id(me);
        let x: (u128, u128) = key_of_x(target_x);
        unlink_watcher(&mut self.subscribers_of, &x, &id);
        if let Some(set) = self.my_subs.remove(&id) {
            let mut set = set;
            set.remove(&x);
            if !set.is_empty() {
                self.my_subs.insert(id, set);
            }
        }
        proof {
            index::lemma_keys_injective();
            assert forall|m: u64, y: (u128, u128)| #[trigger]
                watching(self.my_subs@, m, y) == (watching(old(self).my_subs@, m, y) && !(m == id
                    && y == x)) by {}
            assert(self@.sessions =~= old(self)@.sessions);
            assert(self@.online =~= old(self)@.online);
            assert(self@.watches =~= old(self)@.watches.remove((*me, *target_x)));
        }
    }

    /// Takes back everything that `me` watches. Called on disconnect.
    pub fn remove_all_subscriptions(&mut self, me: &ClientId)
        requires
            old(self).wf(),
        ensures
            final(self).wf(),
            final(self)@ == old(self)@.unsubscribed(*me),
    {
        let id: u64 = key_of_id(me);
        if let Some(xs) = self.my_subs.remove(&id) {
            for x in it: xs.iter()
                invariant
                    it.seq().unref().to_set() == xs@,
                    no_empty_watchers(self.subscribers_of@),
                    self.my_subs@ == old(self).my_subs@.remove(id),
                    self.by_id == old(self).by_id,
                    self.online_xs == old(self).online_xs,
                    self.started_at == old(self).started_at,
                    forall|y: (u128, u128), m: u64| #[trigger]
                        watched_by(self.subscribers_of@, y, m) == (watched_by(
                            old(self).subscribers_of@,
                            y,
                            m,
                        ) && !(m == id && exists|j: int|
                            0 <= j < it.index() && *#[trigger] it.seq()[j] == y)),
            {
                unlink_watcher(&mut self.subscribers_of, x, &id);
            }
        }
        proof {
            index::lemma_keys_injective();
            assert(self@.sessions =~= old(self)@.sessions);
            assert(self@.online =~= old(self)@.online);
            assert(self@.watches =~= old(self)@.unsubscribed(*me).watches);
        }
    }

    /// Whom to tell of a change of `target_x`: for every connected watcher its
    /// public point, its server-to-client key and its connection. The order is
    /// that of a hash set, so it is left open.
    pub fn subscribers_targets(&self, target_x: &XPub) -> (r: Vec<(XPub, [u8; 32], u64)>)
        requires
            self.wf(),
        ensures
            exists|ids: Seq<ClientId>|
                self@.lists_watchers(*target_x, ids) && r@ == #[trigger] self@.targets(ids),
    {
        let mut out: Vec<(XPub, [u8; 32], u64)> = Vec::new();
        let ghost mut ids: Seq<ClientId> = Seq::empty();
        let x: (u128, u128) = key_of_x(target_x);
        proof {
            index::lemma_keys_injective();
        }
        if let Some(subs) = self.subscribers_of.get(&x) {
            for sid in it: subs.iter()
                invariant
                    it.seq().unref().to_set() == subs@,
                    it.seq().no_duplicates(),
                    out@ == self@.targets(ids),
                    ids.no_duplicates(),
                    forall|id: ClientId| #[trigger]
                        ids.contains(id) <==> self@.sessions.contains_key(id) && walked(
                            it.seq(),
                            it.index(),
                            index::id_key(id),
                        ),
            {
                let ghost before = ids;
                let ghost n = it.index();
                if let Some(s) = self.by_id.get(sid) {
                    out.push((s.x_pub, s.k_s2c, s.ws));
                    proof {
                        index::lemma_key_has_id(*sid);
                        let id = choose|id: ClientId| index::id_key(id) == *sid;
                        ids = ids.push(id);
                    }
                }
                proof {
                    index::lemma_keys_injective();
                    assert(*it.seq()[n] == *sid);
                    assert(!walked(it.seq(), n, *sid));
                    assert(ids != before ==> !before.contains(ids.last()));
                    assert forall|id: ClientId| #[trigger]
                        ids.contains(id) <==> self@.sessions.contains_key(id) && walked(
                            it.seq(),
                            n + 1,
                            index::id_key(id),
                        ) by {
                        lemma_walked_step(it.seq(), n, index::id_key(id));
                        if ids != before {
                            assert(ids[before.len() as int] == ids.last());
                            if before.contains(id) {
                                let k = choose|k: int| 0 <= k < before.len() && before[k] == id;
                                assert(ids[k] == id);
                            }
                        }
                    }
                    assert(out@ =~= self@.targets(ids));
                }
            }
            proof {
                lemma_walked_all();
                assert forall|id: ClientId| #[trigger]
                    ids.contains(id) <==> self@.watches.contains((id, *target_x))
                        && self@.sessions.contains_key(id) by {
                    assert(watching(self.my_subs@, index::id_key(id), x) == watched_by(
                        self.subscribers_of@,
                        x,
                        index::id_key(id),
                    ));
                }
            }
        }
        proof {
            assert forall|id: ClientId| #[trigger]
                ids.contains(id) <==> self@.watches.contains((id, *target_x))
                    && self@.sessions.contains_key(id) by {
                assert(watching(self.my_subs@, index::id_key(id), x) == watched_by(
                    self.subscribers_of@,
                    x,
                    index::id_key(id),
                ));
            }
            assert(self@.lists_watchers(*target_x, ids));
            assert(out@ == self@.targets(ids));
        }
        out
    }

    /// Notes that a client has just been heard.
    pub fn touch(&mut self, id: &ClientId, now: u128)
        requires
            old(self).wf(),
        ensures
            final(self).wf(),
            final(self)@ == old(self)@.touched(*id, now),
    {
        if let Some(s) = self.get_mut(id) {
            s.last_seen = now;
            s.last_ping = now;
        }
    }

    /// Who has been silent for longer than `heartbeat_timeout`, and which of
    /// the others, with their connections, have not been heard or pinged for
    /// longer than `ping_interval`. The order is that of a hash map, so it is
    /// left open.
    pub fn heartbeat_lists(&self, now: u128, heartbeat_timeout: u128, ping_interval: u128) -> (r: (
        Vec<ClientId>,
        Vec<(ClientId, u64)>,
    ))
        ensures
            r.0@.no_duplicates(),
            forall|id: ClientId| #[trigger]
                r.0@.contains(id) <==> self@.is_silent(id, now, heartbeat_timeout),
            pinged_ids(r.1@).no_duplicates(),
            forall|id: ClientId| #[trigger]
                pinged_ids(r.1@).contains(id) <==> self@.wants_ping(
                    id,
                    now,
                    heartbeat_timeout,
                    ping_interval,
                ),
            forall|i: int|
                0 <= i < r.1@.len() ==> #[trigger] r.1@[i].1 == self@.sessions[r.1@[i].0].ws,
    {
        let mut drop_list: Vec<ClientId> = Vec::new();
        let mut ping_list: Vec<(ClientId, u64)> = Vec::new();
        for k in it: self.by_id.keys()
            invariant
                it.seq().unref().to_set() == self.by_id@.dom(),
                it.seq().no_duplicates(),
                drop_list@.no_duplicates(),
                forall|id: ClientId| #[trigger]
                    drop_list@.contains(id) <==> self@.is_silent(id, now, heartbeat_timeout)
                        && walked(it.seq(), it.index(), index::id_key(id)),
                pinged_ids(ping_list@).no_duplicates(),
                forall|id: ClientId| #[trigger]
                    pinged_ids(ping_list@).contains(id) <==> self@.wants_ping(
                        id,
                        now,
                        heartbeat_timeout,
                        ping_interval,
                    ) && walked(it.seq(), it.index(), index::id_key(id)),
                forall|i: int|
                    0 <= i < ping_list@.len() ==> #[trigger] ping_list@[i].1
                        == self@.sessions[ping_list@[i].0].ws,
        {
            let ghost n = it.index();
            let ghost drop_before = drop_list@;
            let ghost ping_before = pinged_ids(ping_list@);
            let id: ClientId = id_of_key(*k);
            proof {
                index::lemma_keys_injective();
                assert(*it.seq()[n] == *k);
                assert(!walked(it.seq(), n, *k));
                assert(it.seq().unref()[n] == *k);
                assert(it.seq().unref().to_set().contains(*k));
                assert(self@.sessions.contains_key(id));
                lemma_push_distinct(drop_before, id);
                lemma_push_distinct(ping_before, id);
            }
            if let Some(s) = self.by_id.get(k) {
                if elapsed(now, s.last_seen) > heartbeat_timeout {
                    drop_list.push(id);
                    assert(drop_list@.last() == id);
                } else if elapsed(now, s.last_ping) > ping_interval {
                    ping_list.push((id, s.ws));
                    assert(pinged_ids(ping_list@) =~= ping_before.push(id));
                    assert(pinged_ids(ping_list@).last() == id);
                }
            }
            proof {
                assert forall|a: ClientId| #[trigger]
                    drop_list@.contains(a) <==> self@.is_silent(a, now, heartbeat_timeout)
                        && walked(it.seq(), n + 1, index::id_key(a)) by {
                    lemma_walked_step(it.seq(), n, index::id_key(a));
                    lemma_push_contains(drop_before, id, a);
                }
                assert forall|a: ClientId| #[trigger]
                    pinged_ids(ping_list@).contains(a) <==> self@.wants_ping(
                        a,
                        now,
                        heartbeat_timeout,
                        ping_interval,
                    ) && walked(it.seq(), n + 1, index::id_key(a)) by {
                    lemma_walked_step(it.seq(), n, index::id_key(a));
                    lemma_push_contains(ping_before, id, a);
                }
            }
        }
        proof {
            index::lemma_keys_injective();
            lemma_walked_all();
        }
        (drop_list, ping_list)
    }

    /// The status report on this registry at the present moment, which is the
    /// clock's and left open: `info_at` makes the report for a given moment.
    pub fn info_json(&self) -> (r: HubInfo)
        ensures
            exists|now: i128| is_status_report(r, self@, now),
    {
        let now: i128 = clock_now();
        let r: HubInfo = self.info_at(now);
        assert(is_status_report(r, self@, now));
        r
    }

    /// The status report on this registry at a given moment.
    pub fn info_at(&self, now: i128) -> (r: HubInfo)
        ensures
            is_status_report(r, self@, now),
    {
        HubInfo {
            started_at: match self.started_at {
                Some(t) => seconds_between(0, t),
                None => 0,
            },
            uptime_sec: match self.started_at {
                Some(t) => seconds_between(t, now),
                None => 0,
            },
            connections: self.len(),
            version: VERSION,
            status: STATUS_OK,
        }
    }
}

impl Default for HubState {
    /// An empty registry that was set up at no known time.
    fn default() -> (r: Self)
        ensures
            r.wf(),
            r@ == HubView::empty(None),
    {
        let r = HubState {
            by_id: HashMap::new(),
            online_xs: BTreeSet::new(),
            subscribers_of: BTreeMap::new(),
            my_subs: HashMap::new(),
            started_at: None,
        };
        assert(r@.sessions =~= Map::empty());
        assert(r@.online =~= Set::empty());
        assert(r@.watches =~= Set::empty());
        r
    }
}

/// The status report: what the server tells of itself.
pub struct HubInfo {
    /// Seconds since the Unix epoch.
    pub started_at: u64,
    pub uptime_sec: u64,
    pub connections: usize,
    pub version: &'static str,
    pub status: &'static str,
}

pub const VERSION: &'static str = "0.1.0";

pub const STATUS_OK: &'static str = "OK";

/// What the report on a registry says at a given moment. A time that is not
/// known, or negative, counts as zero.
pub open spec fn is_status_report(info: HubInfo, hub: HubView, now: i128) -> bool {
    &&& info.started_at == (match hub.started_at {
        Some(t) => clock::whole_seconds(t as int),
        None => 0,
    })
    &&& info.uptime_sec == (match hub.started_at {
        Some(t) => clock::whole_seconds(now - t),
        None => 0,
    })
    &&& info.connections == hub.sessions.len()
    &&& info.version@ == VERSION@
    &&& info.status@ == STATUS_OK@
}

/// Nanoseconds from `then` to `now`; none where `then` is later.
pub open spec fn silence(now: u128, then: u128) -> u128 {
    if now >= then {
        (now - then) as u128
    } else {
        0
    }
}

/// Nanoseconds from `then` to `now`; none where `then` is later.
fn elapsed(now: u128, then: u128) -> (r: u128)
    ensures
        r == silence(now, then),
{
    if now >= then {
        now - then
    } else {
        0
    }
}

/// The identifiers in a list of identifiers and connections.
pub open spec fn pinged_ids(list: Seq<(ClientId, u64)>) -> Seq<ClientId> {
    list.map_values(|p: (ClientId, u64)| p.0)
}

proof fn lemma_push_distinct(s: Seq<ClientId>, new: ClientId)
    requires
        s.no_duplicates(),
        !s.contains(new),
    ensures
        s.push(new).no_duplicates(),
{
}

proof fn lemma_push_contains(s: Seq<ClientId>, new: ClientId, a: ClientId)
    ensures
        s.push(new).contains(a) == (s.contains(a) || a == new),
{
    assert(s.push(new)[s.len() as int] == new);
    if s.contains(a) {
        let k = choose|k: int| 0 <= k < s.len() && s[k] == a;
        assert(s.push(new)[k] == a);
    }
}

// ---------------------------------------------------------------------------
// Laws
// ---------------------------------------------------------------------------

/// In an empty registry there is nothing, and the start is as it was given.
pub proof fn law_empty_hub_holds_nothing(
    started_at: Option<i128>,
    id: ClientId,
    x: XPub,
    w: (ClientId, XPub),
)
    ensures
        !HubView::empty(started_at).sessions.contains_key(id),
        !HubView::empty(started_at).online.contains(x),
        !HubView::empty(started_at).watches.contains(w),
        HubView::empty(started_at).started_at == started_at,
{
}

/// What a registration does: the session stands under its identifier, its point
/// is online, and nothing else changes, but that the point of a session that
/// stood there goes offline where no other session holds it.
pub proof fn law_insert_changes_one_session(
    hub: HubView,
    id: ClientId,
    session: ClientSession,
    other: ClientId,
    x: XPub,
)
    ensures
        ({
            let after = hub.inserted(id, session);
            &&& after.sessions.contains_key(id)
            &&& after.sessions[id] == session
            &&& other != id ==> after.sessions.contains_key(other) == hub.sessions.contains_key(
                other,
            )
            &&& other != id && hub.sessions.contains_key(other) ==> after.sessions[other]
                == hub.sessions[other]
            &&& after.online.contains(session.x_pub)
            &&& x != session.x_pub ==> (after.online.contains(x) <==> hub.online.contains(x) && !(
            hub.sessions.contains_key(id) && hub.sessions[id].x_pub == x && !exists|a: ClientId|
                #[trigger]
                hub.sessions.contains_key(a) && a != id && hub.sessions[a].x_pub == x))
            &&& after.watches == hub.watches
            &&& after.started_at == hub.started_at
        }),
{
    let after = hub.inserted(id, session);
    if exists|a: ClientId| #[trigger]
        hub.sessions.contains_key(a) && a != id && hub.sessions[a].x_pub == x {
        let a = choose|a: ClientId| #[trigger]
            hub.sessions.contains_key(a) && a != id && hub.sessions[a].x_pub == x;
        assert(after.sessions.contains_key(a));
    }
    if held(after.sessions, x) && x != session.x_pub {
        let a = choose|a: ClientId| #[trigger]
            after.sessions.contains_key(a) && after.sessions[a].x_pub == x;
        assert(hub.sessions.contains_key(a));
    }
}

/// What taking a session out does: nothing stands under the identifier, and
/// nothing else changes, but that its point goes offline where no other session
/// holds it.
pub proof fn law_remove_changes_one_session(hub: HubView, id: ClientId, other: ClientId, x: XPub)
    ensures
        ({
            let after = hub.removed(id);
            &&& !after.sessions.contains_key(id)
            &&& other != id ==> after.sessions.contains_key(other) == hub.sessions.contains_key(
                other,
            )
            &&& other != id && hub.sessions.contains_key(other) ==> after.sessions[other]
                == hub.sessions[other]
            &&& after.online.contains(x) <==> hub.online.contains(x) && !(
            hub.sessions.contains_key(id) && hub.sessions[id].x_pub == x && !exists|a: ClientId|
                #[trigger]
                hub.sessions.contains_key(a) && a != id && hub.sessions[a].x_pub == x)
            &&& after.watches == hub.watches
            &&& after.started_at == hub.started_at
        }),
{
    let after = hub.removed(id);
    if exists|a: ClientId| #[trigger]
        hub.sessions.contains_key(a) && a != id && hub.sessions[a].x_pub == x {
        let a = choose|a: ClientId| #[trigger]
            hub.sessions.contains_key(a) && a != id && hub.sessions[a].x_pub == x;
        assert(after.sessions.contains_key(a));
    }
    if held(after.sessions, x) {
        let a = choose|a: ClientId| #[trigger]
            after.sessions.contains_key(a) && after.sessions[a].x_pub == x;
        assert(hub.sessions.contains_key(a));
    }
}

/// `after` is `before` with the client `id`, where it is connected, heard at
/// `now`: both of its times are set, and nothing else differs.
pub open spec fn only_heard(before: HubView, after: HubView, id: ClientId, now: u128) -> bool {
    &&& forall|a: ClientId| #[trigger]
        after.sessions.contains_key(a) <==> before.sessions.contains_key(a)
    &&& forall|a: ClientId|
        a != id && #[trigger] before.sessions.contains_key(a) ==> after.sessions[a]
            == before.sessions[a]
    &&& before.sessions.contains_key(id) ==> {
        let s = before.sessions[id];
        let t = after.sessions[id];
        &&& t.last_seen == now
        &&& t.last_ping == now
        &&& t.ws == s.ws
        &&& t.ip == s.ip
        &&& t.x_pub == s.x_pub
        &&& t.ed_pub == s.ed_pub
        &&& t.k_c2s == s.k_c2s
        &&& t.k_s2c == s.k_s2c
    }
    &&& after.online == before.online
    &&& after.watches == before.watches
    &&& after.started_at == before.started_at
}

/// Hearing a client sets its two times and nothing else.
pub proof fn law_touch_sets_times_only(hub: HubView, id: ClientId, now: u128)
    ensures
        only_heard(hub, hub.touched(id, now), id, now),
{
}

/// Taking back all that a client watches takes back that and nothing else.
pub proof fn law_unsubscribing_all_takes_back_all(hub: HubView, me: ClientId, w: (ClientId, XPub))
    ensures
        hub.unsubscribed(me).watches.contains(w) <==> hub.watches.contains(w) && w.0 != me,
        hub.unsubscribed(me).sessions == hub.sessions,
        hub.unsubscribed(me).online == hub.online,
        hub.unsubscribed(me).started_at == hub.started_at,
{
}

/// A client is silent once it was last heard longer ago than the timeout; one
/// that is not silent wants a ping once it was last heard or pinged longer ago
/// than the interval.
pub proof fn law_silence_is_measured(
    hub: HubView,
    id: ClientId,
    now: u128,
    timeout: u128,
    interval: u128,
)
    ensures
        hub.is_silent(id, now, timeout) <==> hub.sessions.contains_key(id) && now
            > hub.sessions[id].last_seen + timeout,
        hub.wants_ping(id, now, timeout, interval) <==> hub.sessions.contains_key(id) && now
            <= hub.sessions[id].last_seen + timeout && now > hub.sessions[id].last_ping + interval,
{
}

/// Whoever is listed for a broadcast is a connected watcher; every connected
/// watcher is listed, once; and each stands for its own point, key and
/// connection.
pub proof fn law_targets_are_the_watchers(hub: HubView, x: XPub, ids: Seq<ClientId>)
    requires
        hub.lists_watchers(x, ids),
    ensures
        forall|i: int, j: int|
            0 <= i < ids.len() && 0 <= j < ids.len() && i != j ==> #[trigger] ids[i]
                != #[trigger] ids[j],
        forall|i: int|
            0 <= i < ids.len() ==> hub.watches.contains((#[trigger] ids[i], x))
                && hub.sessions.contains_key(ids[i]),
        forall|id: ClientId|
            #![trigger hub.watches.contains((id, x))]
            hub.watches.contains((id, x)) && hub.sessions.contains_key(id) ==> exists|i: int|
                0 <= i < ids.len() && #[trigger] ids[i] == id,
        hub.targets(ids).len() == ids.len(),
        forall|i: int|
            0 <= i < ids.len() ==> {
                let s = hub.sessions[ids[i]];
                &&& (#[trigger] hub.targets(ids)[i]).0 == s.x_pub
                &&& hub.targets(ids)[i].1 == s.k_s2c
                &&& hub.targets(ids)[i].2 == s.ws
            },
{
    assert forall|i: int| 0 <= i < ids.len() implies hub.watches.contains((#[trigger] ids[i], x))
        && hub.sessions.contains_key(ids[i]) by {
        assert(ids.contains(ids[i]));
    }
    assert forall|id: ClientId|
        #![trigger hub.watches.contains((id, x))]
        hub.watches.contains((id, x)) && hub.sessions.contains_key(id) implies exists|i: int|
        0 <= i < ids.len() && #[trigger] ids[i] == id by {
        assert(ids.contains(id));
    }
}

/// The identifiers of a list of pings stand at their own places.
pub proof fn law_pinged_ids_keep_their_places(list: Seq<(ClientId, u64)>, i: int)
    requires
        0 <= i < list.len(),
    ensures
        pinged_ids(list).len() == list.len(),
        pinged_ids(list)[i] == list[i].0,
{
}

/// The report: as many connections as there are sessions, whole seconds from
/// the epoch to the start and from the start to now, zero where there is no
/// such span.
pub proof fn law_report_tells_the_truth(info: HubInfo, hub: HubView, now: i128)
    requires
        is_status_report(info, hub, now),
    ensures
        info.connections == hub.sessions.len(),
        info.version@ == "0.1.0"@,
        info.status@ == "OK"@,
        hub.started_at is None ==> info.started_at == 0 && info.uptime_sec == 0,
        hub.started_at matches Some(t) ==> {
            &&& t < 0 ==> info.started_at == 0
            &&& 0 <= t < 0x1_0000_0000_0000_0000 * 1_000_000_000 ==> 1_000_000_000
                * info.started_at <= t < 1_000_000_000 * info.started_at + 1_000_000_000
            &&& now < t ==> info.uptime_sec == 0
            &&& 0 <= now - t < 0x1_0000_0000_0000_0000 * 1_000_000_000 ==> 1_000_000_000
                * info.uptime_sec <= now - t < 1_000_000_000 * info.uptime_sec + 1_000_000_000
        },
{
    if let Some(t) = hub.started_at {
        clock::law_whole_seconds_fit(t as int);
        clock::law_whole_seconds_fit(now - t);
    }
}

} // verus!
