//! Remote players of a networked session: which ones are tracked (and by
//! which entity), the scoreboard built from the tallies, and the events
//! that the server's messages turn into.
use std::collections::HashMap;
use vstd::prelude::*;
use crate::protocol::RelayedPosMsg;
use crate::scores::{KillEvent, PlayerNames, PlayerProfile, Scores, short_id, tally};
use crate::text::{decimal, pad_right, push_all, push_char, push_decimal, push_padded, string_from};

verus! {

broadcast use vstd::std_specs::hash::group_hash_axioms;

/// A remotely controlled player entity.
#[derive(Clone, Copy, Debug, PartialEq, Eq, Structural)]
pub struct RemotePlayer {
    pub client_id: u64,
}

/// What is kept for a tracked remote player: its entity (by its id bits)
/// and its name.
pub struct RemotePlayerData {
    pub entity: u64,
    pub username: String,
}

/// The tracked remote players, by network client id.
pub struct RemotePlayers {
    pub by_id: HashMap<u64, RemotePlayerData>,
}

/// Broadcast from the server: a player joined the session. `C` is the
/// colour the player is drawn in.
pub struct RemotePlayerJoined<C> {
    pub client_id: u64,
    pub username: String,
    pub color: C,
}

/// Broadcast from the server: a player left the session.
#[derive(Clone, Copy, Debug, PartialEq, Eq, Structural)]
pub struct RemotePlayerLeft {
    pub client_id: u64,
}

/// Broadcast from the server: a remote player moved to `pos`, facing `yaw`.
pub struct RemotePlayerMoved<P, A> {
    pub client_id: u64,
    pub pos: P,
    pub yaw: A,
}

/// The server reports our own new hit points.
pub struct LocalPlayerDamaged<H> {
    pub new_hp: H,
}

/// The server confirmed a kill in the networked session.
#[derive(Clone, Copy, Debug, PartialEq, Eq, Structural)]
pub struct RemoteKillEvent {
    pub killer_id: u64,
    pub victim_id: u64,
}

/// What to do with a join announcement.
#[derive(Clone, Copy, Debug, PartialEq, Eq, Structural)]
pub enum JoinDecision {
    /// It announces ourselves: we are the local player, not a remote one.
    OwnJoin,
    /// The player is tracked already: no second entity.
    AlreadyTracked,
    /// Spawn an entity for the player and track it.
    Spawn,
}

/// The decision for a join of `client_id`, seen by local player `local_id`
/// while `tracked` are tracked.
pub open spec fn join_decision_for(
    known: Map<u64, RemotePlayerData>,
    local_id: u64,
    client_id: u64,
) -> JoinDecision {
    if client_id == local_id {
        JoinDecision::OwnJoin
    } else if known.contains_key(client_id) {
        JoinDecision::AlreadyTracked
    } else {
        JoinDecision::Spawn
    }
}

/// The entities of all tracked players, as a set.
pub open spec fn tracked_entities(m: Map<u64, RemotePlayerData>) -> Set<u64> {
    Set::new(|e: u64| exists|id: u64| m.contains_key(id) && m[id].entity == e)
}

impl Default for RemotePlayers {
    fn default() -> (r: Self)
        ensures
            r.by_id@ == Map::<u64, RemotePlayerData>::empty(),
    {
        RemotePlayers { by_id: HashMap::new() }
    }
}

impl RemotePlayers {
    /// Whether to spawn a remote player for a join of `client_id`.
    pub fn join_decision(&self, local_id: u64, client_id: u64) -> (d: JoinDecision)
        ensures
            d == join_decision_for(self.by_id@, local_id, client_id),
    {
        if client_id == local_id {
            JoinDecision::OwnJoin
        } else if self.by_id.contains_key(&client_id) {
            JoinDecision::AlreadyTracked
        } else {
            JoinDecision::Spawn
        }
    }

    /// Tracks the player `client_id`, drawn by `entity`, and registers its
    /// name for the kill feed.
    pub fn track(&mut self, names: &mut PlayerNames, client_id: u64, entity: u64, username: String)
        ensures
            final(self).by_id@ == old(self).by_id@.insert(
                client_id,
                RemotePlayerData { entity, username },
            ),
            final(names).0@ == old(names).0@.insert(client_id, username),
    {
        let copy = username.clone();
        self.by_id.insert(client_id, RemotePlayerData { entity, username });
        names.register(client_id, copy);
    }

    /// Stops tracking `client_id`; the entity to despawn, if it was tracked.
    pub fn untrack(&mut self, client_id: u64) -> (e: Option<u64>)
        ensures
            final(self).by_id@ == old(self).by_id@.remove(client_id),
            old(self).by_id@.contains_key(client_id) ==> e == Some(
                old(self).by_id@[client_id].entity,
            ),
            !old(self).by_id@.contains_key(client_id) ==> e is None,
    {
        match self.by_id.remove(&client_id) {
            Some(data) => Some(data.entity),
            None => None,
        }
    }

    /// The entity of the tracked player `client_id`, if any.
    pub fn entity_of(&self, client_id: u64) -> (e: Option<u64>)
        ensures
            self.by_id@.contains_key(client_id) ==> e == Some(self.by_id@[client_id].entity),
            !self.by_id@.contains_key(client_id) ==> e is None,
    {
        match self.by_id.get(&client_id) {
            Some(data) => Some(data.entity),
            None => None,
        }
    }

    /// The ids of all tracked players, each once.
    pub fn ids(&self) -> (ids: Vec<u64>)
        ensures
            ids@.to_set() == self.by_id@.dom(),
            ids@.no_duplicates(),
    {
        crate::scores::keys_of(&self.by_id)
    }

    /// Forgets every remote player (on disconnect); the entities to
    /// despawn, one per tracked player.
    pub fn clear_all(&mut self) -> (es: Vec<u64>)
        ensures
            final(self).by_id@ == Map::<u64, RemotePlayerData>::empty(),
            es@.len() == old(self).by_id@.dom().len(),
            es@.to_set() == tracked_entities(old(self).by_id@),
    {
        let ids = self.ids();
        let ghost m = self.by_id@;
        let mut es: Vec<u64> = Vec::new();
        let mut i: usize = 0;
        while i < ids.len()
            invariant
                i <= ids.len(),
                self.by_id@ == m,
                ids@.to_set() == m.dom(),
                ids@.no_duplicates(),
                es@.len() == i,
                forall|k: int| 0 <= k < i ==> es@[k] == m[#[trigger] ids@[k]].entity,
            decreases ids.len() - i,
        {
            assert(ids@.to_set().contains(ids@[i as int]));
            let e = self.entity_of(ids[i]).unwrap();
            es.push(e);
            i = i + 1;
        }
        proof {
            assert forall|e: u64| es@.to_set().contains(e) implies tracked_entities(m).contains(e) by {
                let k = choose|k: int| 0 <= k < es@.len() && es@[k] == e;
                assert(ids@.to_set().contains(ids@[k]));
            }
            assert forall|e: u64| tracked_entities(m).contains(e) implies es@.to_set().contains(e) by {
                let id = choose|id: u64| m.contains_key(id) && m[id].entity == e;
                assert(ids@.to_set().contains(id));
                let k = choose|k: int| 0 <= k < ids@.len() && ids@[k] == id;
                assert(es@[k] == e);
            }
            assert(es@.to_set() =~= tracked_entities(m));
            ids@.unique_seq_to_set();
        }
        self.by_id.clear();
        es
    }
}

/// The client ids of join announcements, in order.
pub open spec fn join_ids<C>(joins: Seq<RemotePlayerJoined<C>>) -> Seq<u64> {
    joins.map_values(|j: RemotePlayerJoined<C>| j.client_id)
}

/// Of join announcements for the client ids `ids`, the positions that
/// spawn a remote player: the first announcement of each id that is
/// neither the local player's nor tracked in `m`, in order.
pub open spec fn spawn_plan(m: Map<u64, RemotePlayerData>, local_id: u64, ids: Seq<u64>) -> Seq<int>
    decreases ids.len(),
{
    if ids.len() == 0 {
        Seq::empty()
    } else {
        let prev = spawn_plan(m, local_id, ids.drop_last());
        let c = ids.last();
        if c != local_id && !m.contains_key(c) && !ids.drop_last().contains(c) {
            prev.push(ids.len() - 1)
        } else {
            prev
        }
    }
}

impl RemotePlayers {
    /// The join announcements of a frame that spawn a remote player, by
    /// position: the first announcement of each player that is not the
    /// local one and not tracked yet. Spawning an entity for each and
    /// tracking it, in order, is what handling the announcements one by
    /// one does.
    pub fn plan_remote_spawns<C>(&self, local_id: u64, joins: &Vec<RemotePlayerJoined<C>>) -> (picks: Vec<usize>)
        ensures
            picks@.map_values(|k: usize| k as int) == spawn_plan(self.by_id@, local_id, join_ids(joins@)),
    {
        let ghost ids = join_ids(joins@);
        let mut picks: Vec<usize> = Vec::new();
        let mut i: usize = 0;
        while i < joins.len()
            invariant
                i <= joins.len(),
                ids == join_ids(joins@),
                picks@.map_values(|k: usize| k as int) == spawn_plan(self.by_id@, local_id, ids.take(i as int)),
            decreases joins.len() - i,
        {
            let c = joins[i].client_id;
            let mut earlier = false;
            let mut j: usize = 0;
            while j < i
                invariant
                    j <= i < joins.len(),
                    ids == join_ids(joins@),
                    c == ids[i as int],
                    earlier == ids.take(j as int).contains(c),
                decreases i - j,
            {
                proof {
                    let a = ids.take(j as int);
                    let b = ids.take(j + 1);
                    assert(b =~= a.push(ids[j as int]));
                    if a.contains(c) {
                        let k = choose|k: int| 0 <= k < a.len() && a[k] == c;
                        assert(b[k] == c);
                    }
                    if b.contains(c) && !a.contains(c) {
                        let k = choose|k: int| 0 <= k < b.len() && b[k] == c;
                        if k < j {
                            assert(a[k] == c);
                        }
                    }
                    assert(ids[j as int] == joins@[j as int].client_id);
                    if ids[j as int] == c {
                        assert(b[j as int] == c);
                    }
                    assert(b.contains(c) == (a.contains(c) || ids[j as int] == c));
                }
                if joins[j].client_id == c {
                    earlier = true;
                }
                j = j + 1;
            }
            proof {
                let t = ids.take(i + 1);
                assert(t.drop_last() =~= ids.take(i as int));
                assert(t.last() == c);
            }
            let ghost before = picks@;
            if c != local_id && !self.by_id.contains_key(&c) && !earlier {
                picks.push(i);
                assert(picks@.map_values(|k: usize| k as int) =~= before.map_values(|k: usize| k as int).push(i as int));
            }
            i = i + 1;
        }
        assert(ids.take(joins.len() as int) =~= ids);
        picks
    }
}

/// Registers the local player's own name, so that the scoreboard shows it.
pub fn register_local_player(profile: &PlayerProfile, names: &mut PlayerNames)
    ensures
        final(names).0@ == old(names).0@.insert(profile.client_id, profile.username),
{
    names.register(profile.client_id, profile.username.clone());
}

/// A kill confirmed by the server, as the game's own kill event.
pub fn to_kill_event(ev: RemoteKillEvent) -> (k: KillEvent)
    ensures
        k.killer_id == ev.killer_id,
        k.victim_id == ev.victim_id,
{
    KillEvent { killer_id: ev.killer_id, victim_id: ev.victim_id }
}

/// Whether a relayed position concerns another player than ourselves
/// (our own updates are ignored).
pub fn is_remote_update(local_id: u64, client_id: u64) -> (b: bool)
    ensures
        b == (client_id != local_id),
{
    client_id != local_id
}

/// The moves that relayed positions report, as (client id, position,
/// heading): those of other players, in order; our own are dropped.
pub open spec fn remote_moves_of<F>(local_id: u64, msgs: Seq<RelayedPosMsg<F>>) -> Seq<(u64, [F; 3], F)>
    decreases msgs.len(),
{
    if msgs.len() == 0 {
        Seq::empty()
    } else {
        let prev = remote_moves_of(local_id, msgs.drop_last());
        let m = msgs.last();
        if m.client_id == local_id {
            prev
        } else {
            prev.push((m.client_id, m.pos, m.yaw))
        }
    }
}

/// The views of move events.
pub open spec fn moves_view<F>(v: Seq<RemotePlayerMoved<[F; 3], F>>) -> Seq<(u64, [F; 3], F)> {
    v.map_values(|m: RemotePlayerMoved<[F; 3], F>| (m.client_id, m.pos, m.yaw))
}

/// The move events for the relayed positions received this frame: one per
/// message of another player, in order.
pub fn remote_moves<F: Copy>(local_id: u64, msgs: &Vec<RelayedPosMsg<F>>) -> (out: Vec<RemotePlayerMoved<[F; 3], F>>)
    ensures
        moves_view(out@) == remote_moves_of(local_id, msgs@),
{
    let mut out: Vec<RemotePlayerMoved<[F; 3], F>> = Vec::new();
    let mut i: usize = 0;
    while i < msgs.len()
        invariant
            i <= msgs.len(),
            moves_view(out@) == remote_moves_of(local_id, msgs@.take(i as int)),
        decreases msgs.len() - i,
    {
        assert(msgs@.take(i + 1).drop_last() =~= msgs@.take(i as int));
        assert(msgs@.take(i + 1).last() == msgs@[i as int]);
        if is_remote_update(local_id, msgs[i].client_id) {
            let ghost before = out@;
            out.push(RemotePlayerMoved { client_id: msgs[i].client_id, pos: msgs[i].pos, yaw: msgs[i].yaw });
            assert(moves_view(out@) =~= moves_view(before).push(
                (msgs@[i as int].client_id, msgs@[i as int].pos, msgs@[i as int].yaw),
            ));
        }
        i = i + 1;
    }
    assert(msgs@.take(msgs.len() as int) =~= msgs@);
    out
}

/// Whether a UI element is drawn.
#[derive(Clone, Copy, Debug, PartialEq, Eq, Structural)]
pub enum Visibility {
    Inherited,
    Hidden,
    Visible,
}

/// The scoreboard's visibility after a toggle: a hidden board becomes
/// visible, any other becomes hidden.
pub open spec fn toggled(v: Visibility) -> Visibility {
    if v == Visibility::Hidden {
        Visibility::Visible
    } else {
        Visibility::Hidden
    }
}

/// Toggling the scoreboard (see `toggled`).
pub fn toggle_visibility(v: Visibility) -> (r: Visibility)
    ensures
        r == toggled(v),
{
    match v {
        Visibility::Hidden => Visibility::Visible,
        _ => Visibility::Hidden,
    }
}

/// The scoreboard text is rebuilt only while some board is not hidden.
pub fn scoreboard_shown(boards: &Vec<Visibility>) -> (b: bool)
    ensures
        b == exists|k: int| 0 <= k < boards@.len() && boards@[k] != Visibility::Hidden,
{
    let mut i: usize = 0;
    while i < boards.len()
        invariant
            i <= boards.len(),
            forall|k: int| 0 <= k < i ==> boards@[k] == Visibility::Hidden,
        decreases boards.len() - i,
    {
        if boards[i] != Visibility::Hidden {
            return true;
        }
        i = i + 1;
    }
    false
}

/// `a` comes before `b` on the scoreboard: more kills first, and by
/// ascending id among equal kills.
pub open spec fn ranks_before(kills: Map<u64, u32>, a: u64, b: u64) -> bool {
    tally(kills, a) > tally(kills, b) || (tally(kills, a) == tally(kills, b) && a < b)
}

/// `ids` is in scoreboard order, each id once.
pub open spec fn ranked(kills: Map<u64, u32>, ids: Seq<u64>) -> bool {
    forall|i: int, j: int| 0 <= i < j < ids.len() ==> ranks_before(kills, ids[i], ids[j])
}

/// The players listed on the scoreboard: everyone with a kill or a death
/// entry, and every tracked remote player.
pub open spec fn listed(scores: &Scores, remote: &RemotePlayers) -> Set<u64> {
    scores.kills@.dom() + scores.deaths@.dom() + remote.by_id@.dom()
}

/// Whether `a` ranks before `b`.
fn ranks_before_exec(kills: &HashMap<u64, u32>, a: u64, b: u64) -> (r: bool)
    ensures
        r == ranks_before(kills@, a, b),
{
    let ka = match kills.get(&a) {
        Some(k) => *k,
        None => 0,
    };
    let kb = match kills.get(&b) {
        Some(k) => *k,
        None => 0,
    };
    ka > kb || (ka == kb && a < b)
}

pub proof fn lemma_push_to_set<T>(s: Seq<T>, x: T)
    ensures
        s.push(x).to_set() == s.to_set().insert(x),
{
    assert forall|y: T| s.push(x).to_set().contains(y) implies s.to_set().insert(x).contains(y) by {
        let k = choose|k: int| 0 <= k < s.push(x).len() && s.push(x)[k] == y;
        if k < s.len() {
            assert(s[k] == y);
        }
    }
    assert forall|y: T| s.to_set().insert(x).contains(y) implies s.push(x).to_set().contains(y) by {
        if y == x {
            assert(s.push(x)[s.len() as int] == y);
        } else {
            let k = choose|k: int| 0 <= k < s.len() && s[k] == y;
            assert(s.push(x)[k] == y);
        }
    }
    assert(s.push(x).to_set() =~= s.to_set().insert(x));
}

/// Inserts `id` into the ranked `v` unless it is there already.
fn insert_ranked(kills: &HashMap<u64, u32>, v: &mut Vec<u64>, id: u64)
    requires
        ranked(kills@, old(v)@),
    ensures
        ranked(kills@, final(v)@),
        final(v)@.to_set() == old(v)@.to_set().insert(id),
{
    let mut p: usize = 0;
    while p < v.len() && ranks_before_exec(kills, v[p], id)
        invariant
            p <= v.len(),
            ranked(kills@, v@),
            forall|k: int| 0 <= k < p ==> ranks_before(kills@, #[trigger] v@[k], id),
        decreases v.len() - p,
    {
        p = p + 1;
    }
    if p < v.len() && v[p] == id {
        assert(v@.to_set().contains(id));
        assert(v@.to_set().insert(id) =~= v@.to_set());
        return;
    }
    let ghost old_v = v@;
    v.insert(p, id);
    proof {
        assert(v@ == old_v.insert(p as int, id));
        assert forall|i: int, j: int| 0 <= i < j < v@.len() implies ranks_before(
            kills@,
            v@[i],
            v@[j],
        ) by {
            if j < p {
            } else if j == p {
            } else if i < p {
                assert(v@[j] == old_v[j - 1]);
                assert(ranks_before(kills@, old_v[i], id));
                assert(!ranks_before(kills@, old_v[p as int], id));
                if j - 1 > p {
                    assert(ranks_before(kills@, old_v[p as int], old_v[j - 1]));
                }
            } else if i == p {
                assert(v@[j] == old_v[j - 1]);
                assert(!ranks_before(kills@, old_v[p as int], id));
                if j - 1 > p {
                    assert(ranks_before(kills@, old_v[p as int], old_v[j - 1]));
                }
            } else {
                assert(v@[i] == old_v[i - 1]);
                assert(v@[j] == old_v[j - 1]);
            }
        }
        assert forall|x: u64| v@.to_set().contains(x) implies old_v.to_set().insert(id).contains(
            x,
        ) by {
            let k = choose|k: int| 0 <= k < v@.len() && v@[k] == x;
            if k < p {
                assert(old_v[k] == x);
            } else if k > p {
                assert(old_v[k - 1] == x);
            }
        }
        assert forall|x: u64| old_v.to_set().insert(id).contains(x) implies v@.to_set().contains(
            x,
        ) by {
            if x == id {
                assert(v@[p as int] == id);
            } else {
                let k = choose|k: int| 0 <= k < old_v.len() && old_v[k] == x;
                if k < p {
                    assert(v@[k] == x);
                } else {
                    assert(v@[k + 1] == x);
                }
            }
        }
        assert(v@.to_set() =~= old_v.to_set().insert(id));
    }
}

/// Ranks the ids of `ids` into `v`.
fn insert_all_ranked(kills: &HashMap<u64, u32>, v: &mut Vec<u64>, ids: &Vec<u64>)
    requires
        ranked(kills@, old(v)@),
    ensures
        ranked(kills@, final(v)@),
        final(v)@.to_set() == old(v)@.to_set() + ids@.to_set(),
{
    let ghost start = v@.to_set();
    let mut i: usize = 0;
    while i < ids.len()
        invariant
            i <= ids.len(),
            ranked(kills@, v@),
            v@.to_set() == start + ids@.take(i as int).to_set(),
        decreases ids.len() - i,
    {
        let id = ids[i];
        insert_ranked(kills, v, id);
        proof {
            assert(ids@.take(i + 1) =~= ids@.take(i as int).push(id));
            lemma_push_to_set(ids@.take(i as int), id);
            assert(v@.to_set() =~= start + ids@.take(i + 1).to_set());
        }
        i = i + 1;
    }
    assert(ids@.take(ids.len() as int) =~= ids@);
}

pub proof fn lemma_ranked_no_duplicates(kills: Map<u64, u32>, ids: Seq<u64>)
    requires
        ranked(kills, ids),
    ensures
        ids.no_duplicates(),
{
    assert forall|i: int, j: int| 0 <= i < ids.len() && 0 <= j < ids.len() && i != j implies ids[i]
        != ids[j] by {
        if i < j {
            assert(ranks_before(kills, ids[i], ids[j]));
        } else {
            assert(ranks_before(kills, ids[j], ids[i]));
        }
    }
}

/// The scoreboard's players, most kills first (ties by ascending id), each
/// once.
pub fn scoreboard_ids(scores: &Scores, remote: &RemotePlayers) -> (ids: Vec<u64>)
    ensures
        ids@.to_set() == listed(scores, remote),
        ids@.no_duplicates(),
        ranked(scores.kills@, ids@),
{
    let mut v: Vec<u64> = Vec::new();
    let k = scores.kill_ids();
    let d = scores.death_ids();
    let r = remote.ids();
    assert(v@.to_set() =~= Set::<u64>::empty());
    insert_all_ranked(&scores.kills, &mut v, &k);
    insert_all_ranked(&scores.kills, &mut v, &d);
    insert_all_ranked(&scores.kills, &mut v, &r);
    proof {
        assert(v@.to_set() =~= listed(scores, remote));
        lemma_ranked_no_duplicates(scores.kills@, v@);
    }
    v
}

/// The scoreboard name of `id`: its registered name, or `Player` and the
/// low sixteen bits of the id.
pub open spec fn board_name(names: Map<u64, String>, id: u64) -> Seq<char> {
    if names.contains_key(id) {
        names[id]@
    } else {
        "Player "@ + decimal(short_id(id))
    }
}

/// One scoreboard row: the name padded to 24 characters, a space, the
/// kills padded to 5, the deaths and a line feed.
pub open spec fn board_line(names: Map<u64, String>, scores: &Scores, id: u64) -> Seq<char> {
    pad_right(board_name(names, id), 24) + " "@ + pad_right(
        decimal(tally(scores.kills@, id) as nat),
        5,
    ) + decimal(tally(scores.deaths@, id) as nat) + "\n"@
}

/// The rows for `ids`, in order.
pub open spec fn board_text(names: Map<u64, String>, scores: &Scores, ids: Seq<u64>) -> Seq<char>
    decreases ids.len(),
{
    if ids.len() == 0 {
        Seq::empty()
    } else {
        board_text(names, scores, ids.drop_last()) + board_line(names, scores, ids.last())
    }
}

/// The scoreboard body: one row per listed player, in scoreboard order.
pub fn scoreboard_text(names: &PlayerNames, scores: &Scores, remote: &RemotePlayers) -> (r: (
    Vec<u64>,
    String,
))
    ensures
        r.0@.to_set() == listed(scores, remote),
        r.0@.no_duplicates(),
        ranked(scores.kills@, r.0@),
        r.1@ == board_text(names.0@, scores, r.0@),
{
    let ids = scoreboard_ids(scores, remote);
    let mut lines = String::new();
    let mut i: usize = 0;
    while i < ids.len()
        invariant
            i <= ids.len(),
            lines@ == board_text(names.0@, scores, ids@.take(i as int)),
        decreases ids.len() - i,
    {
        let id = ids[i];
        let name = match names.name_of(id) {
            Some(n) => n,
            None => {
                let mut n = string_from("Player ");
                push_decimal(&mut n, crate::scores::low_bits(id));
                n
            },
        };
        let ghost before = lines@;
        push_padded(&mut lines, name.as_str(), 24);
        push_char(&mut lines, ' ');
        let kills = crate::text::decimal_string(scores.get_kills(id) as u64);
        push_padded(&mut lines, kills.as_str(), 5);
        push_decimal(&mut lines, scores.get_deaths(id) as u64);
        push_char(&mut lines, '\n');
        proof {
            reveal_strlit(" ");
            reveal_strlit("\n");
            assert(ids@.take(i + 1).drop_last() =~= ids@.take(i as int));
            assert(lines@ =~= before + board_line(names.0@, scores, id));
        }
        i = i + 1;
    }
    assert(ids@.take(ids.len() as int) =~= ids@);
    (ids, lines)
}

} // verus!
