//! Game-wide bookkeeping: the round state, kill/death tallies, the win
//! condition, player display names and the texts built from them.
use std::collections::HashMap;
use vstd::prelude::*;
use vstd::std_specs::hash::spec_keys_iter;
use vstd::std_specs::iter::IteratorSpec;
use crate::text::{decimal, push_all, push_decimal, string_from};

verus! {

broadcast use vstd::std_specs::hash::group_hash_axioms;

/// The phase the client (or the server) is in.
#[derive(Clone, Copy, Debug, PartialEq, Eq, Structural)]
pub enum GameState {
    /// Initial state: the client shows the connect screen; the server skips
    /// straight to `Loading`.
    ConnectScreen,
    /// Network handshake in progress; goes to `Playing` on success or back
    /// to `ConnectScreen` on timeout or cancel.
    Connecting,
    /// Brief transitional state that immediately advances to `Playing`.
    Loading,
    Playing,
    GameOver,
    /// The pause menu is open over a running game.
    Paused,
    /// The settings screen is open.
    Settings,
}

impl Default for GameState {
    fn default() -> (s: Self)
        ensures
            s == GameState::ConnectScreen,
    {
        GameState::ConnectScreen
    }
}

/// The state that follows `Loading`, entered at once.
pub fn after_loading() -> (s: GameState)
    ensures
        s == GameState::Playing,
{
    GameState::Playing
}

/// A failed connection attempt, shown by the connect screen on re-entry.
pub struct ConnectionError(pub Option<String>);

impl Default for ConnectionError {
    fn default() -> (e: Self)
        ensures
            e.0 is None,
    {
        ConnectionError(None)
    }
}

/// Round settings.
pub struct GameConfig {
    /// Kills one player needs to end the round.
    pub kill_limit: u32,
}

impl Default for GameConfig {
    fn default() -> (c: Self)
        ensures
            c.kill_limit == 10,
    {
        GameConfig { kill_limit: 10 }
    }
}

/// Emitted when a kill is confirmed.
#[derive(Clone, Copy, Debug, PartialEq, Eq, Structural)]
pub struct KillEvent {
    pub killer_id: u64,
    pub victim_id: u64,
}

/// Kill and death tallies of every player, keyed by network client id.
pub struct Scores {
    pub kills: HashMap<u64, u32>,
    pub deaths: HashMap<u64, u32>,
}

/// The tally of `id` in `m`; zero when the player has no entry.
pub open spec fn tally(m: Map<u64, u32>, id: u64) -> u32 {
    if m.contains_key(id) {
        m[id]
    } else {
        0
    }
}

/// `m` after one more point for each id of `ids`, in order.
pub open spec fn credited(m: Map<u64, u32>, ids: Seq<u64>) -> Map<u64, u32>
    decreases ids.len(),
{
    if ids.len() == 0 {
        m
    } else {
        let prev = credited(m, ids.drop_last());
        prev.insert(ids.last(), (tally(prev, ids.last()) + 1) as u32)
    }
}

/// How often `id` occurs in `ids`.
pub open spec fn occurrences(ids: Seq<u64>, id: u64) -> nat
    decreases ids.len(),
{
    if ids.len() == 0 {
        0
    } else {
        occurrences(ids.drop_last(), id) + if ids.last() == id {
            1nat
        } else {
            0nat
        }
    }
}

/// No tally of `m` passes `u32::MAX` when credited with `ids`.
pub open spec fn fits_after(m: Map<u64, u32>, ids: Seq<u64>) -> bool {
    forall|id: u64| tally(m, id) + #[trigger] occurrences(ids, id) <= u32::MAX
}

/// The killers of `events`, in order.
pub open spec fn killers_of(events: Seq<KillEvent>) -> Seq<u64> {
    events.map_values(|e: KillEvent| e.killer_id)
}

/// The victims of `events`, in order.
pub open spec fn victims_of(events: Seq<KillEvent>) -> Seq<u64> {
    events.map_values(|e: KillEvent| e.victim_id)
}

/// Whether some player in `kills` has reached `limit`.
pub open spec fn limit_reached(kills: Map<u64, u32>, limit: u32) -> bool {
    exists|id: u64| kills.contains_key(id) && kills[id] >= limit
}

pub proof fn lemma_occurrences_prefix(ids: Seq<u64>, j: int, id: u64)
    requires
        0 <= j <= ids.len(),
    ensures
        occurrences(ids.take(j), id) <= occurrences(ids, id),
    decreases ids.len(),
{
    if j < ids.len() {
        assert(ids.drop_last().take(j) =~= ids.take(j));
        lemma_occurrences_prefix(ids.drop_last(), j, id);
    } else {
        assert(ids.take(j) =~= ids);
    }
}

/// Crediting a sequence of ids adds, to each player's tally, the number of
/// times the player occurs in it, as long as no tally overflows.
pub proof fn lemma_credited_tally(m: Map<u64, u32>, ids: Seq<u64>)
    requires
        fits_after(m, ids),
    ensures
        forall|id: u64|
            #[trigger] tally(credited(m, ids), id) == tally(m, id) + occurrences(ids, id),
        credited(m, ids).dom() == m.dom() + ids.to_set(),
    decreases ids.len(),
{
    if ids.len() > 0 {
        let rest = ids.drop_last();
        assert forall|id: u64| tally(m, id) + #[trigger] occurrences(rest, id) <= u32::MAX by {
            assert(occurrences(ids, id) >= occurrences(rest, id));
        }
        lemma_credited_tally(m, rest);
        assert forall|id: u64| #[trigger]
            tally(credited(m, ids), id) == tally(m, id) + occurrences(ids, id) by {
            assert(tally(credited(m, rest), id) == tally(m, id) + occurrences(rest, id));
            assert(occurrences(ids, ids.last()) == occurrences(rest, ids.last()) + 1);
            assert(tally(m, ids.last()) + occurrences(ids, ids.last()) <= u32::MAX);
        }
        assert(ids.to_set() =~= rest.to_set().insert(ids.last())) by {
            assert forall|x: u64| ids.to_set().contains(x) implies rest.to_set().insert(
                ids.last(),
            ).contains(x) by {
                let k = choose|k: int| 0 <= k < ids.len() && ids[k] == x;
                if k < ids.len() - 1 {
                    assert(rest[k] == x);
                }
            }
            assert forall|x: u64| rest.to_set().insert(ids.last()).contains(x) implies ids.to_set().contains(
                x,
            ) by {
                if x == ids.last() {
                    assert(ids[ids.len() - 1] == x);
                } else {
                    let k = choose|k: int| 0 <= k < rest.len() && rest[k] == x;
                    assert(ids[k] == x);
                }
            }
        }
        assert(credited(m, ids).dom() =~= m.dom() + ids.to_set());
    } else {
        assert(ids.to_set() =~= Set::<u64>::empty());
        assert(m.dom() + ids.to_set() =~= m.dom());
    }
}

impl Default for Scores {
    fn default() -> (s: Self)
        ensures
            s.kills@ == Map::<u64, u32>::empty(),
            s.deaths@ == Map::<u64, u32>::empty(),
    {
        Scores { kills: HashMap::new(), deaths: HashMap::new() }
    }
}

impl Scores {
    /// One more kill for `player_id`.
    pub fn add_kill(&mut self, player_id: u64)
        requires
            tally(old(self).kills@, player_id) < u32::MAX,
        ensures
            final(self).kills@ == old(self).kills@.insert(
                player_id,
                (tally(old(self).kills@, player_id) + 1) as u32,
            ),
            final(self).deaths@ == old(self).deaths@,
    {
        let current = match self.kills.get(&player_id) {
            Some(k) => *k,
            None => 0,
        };
        self.kills.insert(player_id, current + 1);
    }

    /// One more death for `player_id`.
    pub fn add_death(&mut self, player_id: u64)
        requires
            tally(old(self).deaths@, player_id) < u32::MAX,
        ensures
            final(self).deaths@ == old(self).deaths@.insert(
                player_id,
                (tally(old(self).deaths@, player_id) + 1) as u32,
            ),
            final(self).kills@ == old(self).kills@,
    {
        let current = match self.deaths.get(&player_id) {
            Some(k) => *k,
            None => 0,
        };
        self.deaths.insert(player_id, current + 1);
    }

    /// Kills of `player_id`; zero when unknown.
    pub fn get_kills(&self, player_id: u64) -> (k: u32)
        ensures
            k == tally(self.kills@, player_id),
    {
        match self.kills.get(&player_id) {
            Some(k) => *k,
            None => 0,
        }
    }

    /// Deaths of `player_id`; zero when unknown.
    pub fn get_deaths(&self, player_id: u64) -> (d: u32)
        ensures
            d == tally(self.deaths@, player_id),
    {
        match self.deaths.get(&player_id) {
            Some(d) => *d,
            None => 0,
        }
    }

    /// The ids that have a kill entry, each once.
    pub fn kill_ids(&self) -> (ids: Vec<u64>)
        ensures
            ids@.to_set() == self.kills@.dom(),
            ids@.no_duplicates(),
    {
        keys_of(&self.kills)
    }

    /// The ids that have a death entry, each once.
    pub fn death_ids(&self) -> (ids: Vec<u64>)
        ensures
            ids@.to_set() == self.deaths@.dom(),
            ids@.no_duplicates(),
    {
        keys_of(&self.deaths)
    }
}

/// The keys of `m`, each once, in the map's own order.
pub fn keys_of<V>(m: &HashMap<u64, V>) -> (ids: Vec<u64>)
    ensures
        ids@.to_set() == m@.dom(),
        ids@.no_duplicates(),
{
    let mut ids: Vec<u64> = Vec::new();
    for k in it: m.keys()
        invariant
            ids.len() == it.index(),
            forall|i: int| 0 <= i < ids.len() ==> ids@[i] == *it.seq()[i],
    {
        ids.push(*k);
    }
    assert(ids@ == spec_keys_iter(m).remaining().unref());
    ids
}

/// Credits every kill event: one kill to its killer and one death to its
/// victim, in order.
pub fn record_kills(scores: &mut Scores, events: &Vec<KillEvent>)
    requires
        fits_after(old(scores).kills@, killers_of(events@)),
        fits_after(old(scores).deaths@, victims_of(events@)),
    ensures
        final(scores).kills@ == credited(old(scores).kills@, killers_of(events@)),
        final(scores).deaths@ == credited(old(scores).deaths@, victims_of(events@)),
{
    let ghost k0 = scores.kills@;
    let ghost d0 = scores.deaths@;
    let ghost ks = killers_of(events@);
    let ghost vs = victims_of(events@);
    let mut i: usize = 0;
    while i < events.len()
        invariant
            i <= events.len(),
            ks == killers_of(events@),
            vs == victims_of(events@),
            fits_after(k0, ks),
            fits_after(d0, vs),
            scores.kills@ == credited(k0, ks.take(i as int)),
            scores.deaths@ == credited(d0, vs.take(i as int)),
        decreases events.len() - i,
    {
        let ev = events[i];
        proof {
            let kn = ks.take(i + 1);
            let vn = vs.take(i + 1);
            assert(kn.drop_last() =~= ks.take(i as int));
            assert(vn.drop_last() =~= vs.take(i as int));
            assert(kn.last() == ev.killer_id);
            assert(vn.last() == ev.victim_id);
            assert forall|id: u64| tally(k0, id) + #[trigger] occurrences(kn, id) <= u32::MAX by {
                lemma_occurrences_prefix(ks, i + 1, id);
            }
            assert forall|id: u64| tally(d0, id) + #[trigger] occurrences(vn, id) <= u32::MAX by {
                lemma_occurrences_prefix(vs, i + 1, id);
            }
            lemma_credited_tally(k0, kn);
            lemma_credited_tally(d0, vn);
            assert forall|id: u64| tally(k0, id) + #[trigger] occurrences(ks.take(i as int), id) <= u32::MAX by {
                lemma_occurrences_prefix(ks, i as int, id);
            }
            assert forall|id: u64| tally(d0, id) + #[trigger] occurrences(vs.take(i as int), id) <= u32::MAX by {
                lemma_occurrences_prefix(vs, i as int, id);
            }
            lemma_credited_tally(k0, ks.take(i as int));
            lemma_credited_tally(d0, vs.take(i as int));
            assert(tally(credited(k0, kn), ev.killer_id) <= u32::MAX);
            assert(tally(credited(d0, vn), ev.victim_id) <= u32::MAX);
        }
        scores.add_kill(ev.killer_id);
        scores.add_death(ev.victim_id);
        i = i + 1;
    }
    assert(ks.take(events.len() as int) =~= ks);
    assert(vs.take(events.len() as int) =~= vs);
}

/// Whether the round is over: some player has reached the kill limit.
pub fn check_win_condition(scores: &Scores, config: &GameConfig) -> (over: bool)
    ensures
        over == limit_reached(scores.kills@, config.kill_limit),
{
    let ids = scores.kill_ids();
    let mut i: usize = 0;
    while i < ids.len()
        invariant
            i <= ids.len(),
            ids@.to_set() == scores.kills@.dom(),
            forall|k: int| 0 <= k < i ==> tally(scores.kills@, #[trigger] ids@[k]) < config.kill_limit,
        decreases ids.len() - i,
    {
        if scores.get_kills(ids[i]) >= config.kill_limit {
            assert(ids@.to_set().contains(ids@[i as int]));
            return true;
        }
        i = i + 1;
    }
    assert forall|id: u64| scores.kills@.contains_key(id) implies scores.kills@[id] < config.kill_limit by {
        assert(ids@.to_set().contains(id));
        let k = choose|k: int| 0 <= k < ids@.len() && ids@[k] == id;
        assert(tally(scores.kills@, ids@[k]) < config.kill_limit);
    }
    false
}

/// The player with the most kills and their kill count; `(0, 0)` when
/// nobody has scored. Among equal tallies the one met last in the map's
/// order is chosen.
pub fn game_over_winner(scores: &Scores) -> (w: (u64, u32))
    ensures
        scores.kills@.dom().len() == 0 ==> w == (0u64, 0u32),
        scores.kills@.dom().len() > 0 ==> {
            &&& scores.kills@.contains_key(w.0)
            &&& scores.kills@[w.0] == w.1
            &&& forall|id: u64| #[trigger]
                scores.kills@.contains_key(id) ==> scores.kills@[id] <= w.1
        },
{
    let ids = scores.kill_ids();
    if ids.len() == 0 {
        assert(scores.kills@.dom() =~= Set::<u64>::empty());
        return (0, 0);
    }
    let mut best_id = ids[0];
    let mut best = scores.get_kills(ids[0]);
    assert(ids@.to_set().contains(ids@[0]));
    let mut i: usize = 1;
    while i < ids.len()
        invariant
            1 <= i <= ids.len(),
            ids@.to_set() == scores.kills@.dom(),
            scores.kills@.contains_key(best_id),
            scores.kills@[best_id] == best,
            forall|k: int| 0 <= k < i ==> tally(scores.kills@, #[trigger] ids@[k]) <= best,
        decreases ids.len() - i,
    {
        let k = scores.get_kills(ids[i]);
        assert(ids@.to_set().contains(ids@[i as int]));
        if k >= best {
            best = k;
            best_id = ids[i];
        }
        i = i + 1;
    }
    assert forall|id: u64| #[trigger] scores.kills@.contains_key(id) implies scores.kills@[id] <= best by {
        assert(ids@.to_set().contains(id));
        let k = choose|k: int| 0 <= k < ids@.len() && ids@[k] == id;
        assert(tally(scores.kills@, ids@[k]) <= best);
    }
    assert(scores.kills@.dom().contains(best_id));
    (best_id, best)
}

/// Display names by network client id.
pub struct PlayerNames(pub HashMap<u64, String>);

impl Default for PlayerNames {
    fn default() -> (n: Self)
        ensures
            n.0@ == Map::<u64, String>::empty(),
    {
        PlayerNames(HashMap::new())
    }
}

/// The low sixteen bits of `id`, used where a player has no name.
pub open spec fn short_id(id: u64) -> nat {
    (id % 65536) as nat
}

/// The name shown for `id` in the kill feed and on the game-over screen:
/// the registered name, or the low sixteen bits of the id in decimal.
pub open spec fn feed_name(names: Map<u64, String>, id: u64) -> Seq<char> {
    if names.contains_key(id) {
        names[id]@
    } else {
        decimal(short_id(id))
    }
}

/// The low sixteen bits of `id`: `id & 0xFFFF`.
pub fn low_bits(id: u64) -> (r: u64)
    ensures
        r == short_id(id),
{
    assert(id & 0xFFFF == id % 65536) by (bit_vector);
    id & 0xFFFF
}

impl PlayerNames {
    /// Registers (or replaces) the name of `id`.
    pub fn register(&mut self, id: u64, name: String)
        ensures
            final(self).0@ == old(self).0@.insert(id, name),
    {
        self.0.insert(id, name);
    }

    /// The registered name of `id`, if any.
    pub fn name_of(&self, id: u64) -> (n: Option<String>)
        ensures
            self.0@.contains_key(id) ==> n == Some(self.0@[id]),
            !self.0@.contains_key(id) ==> n is None,
    {
        match self.0.get(&id) {
            Some(s) => Some(s.clone()),
            None => None,
        }
    }

    /// The name shown for `id` in the kill feed and on the game-over screen.
    pub fn feed_name(&self, id: u64) -> (s: String)
        ensures
            s@ == feed_name(self.0@, id),
    {
        match self.name_of(id) {
            Some(n) => n,
            None => crate::text::decimal_string(low_bits(id)),
        }
    }
}

/// The kill-feed line for a kill: who eliminated whom, with the killer's
/// kill count.
pub open spec fn kill_feed_text(
    names: Map<u64, String>,
    kills: Map<u64, u32>,
    ev: KillEvent,
) -> Seq<char> {
    feed_name(names, ev.killer_id) + " eliminated "@ + feed_name(names, ev.victim_id) + " ["@
        + decimal(tally(kills, ev.killer_id) as nat) + " kills]"@
}

/// The kill-feed line for `ev`.
pub fn kill_feed_message(names: &PlayerNames, scores: &Scores, ev: KillEvent) -> (s: String)
    ensures
        s@ == kill_feed_text(names.0@, scores.kills@, ev),
{
    let mut s = names.feed_name(ev.killer_id);
    push_all(&mut s, " eliminated ");
    let victim = names.feed_name(ev.victim_id);
    push_all(&mut s, victim.as_str());
    push_all(&mut s, " [");
    push_decimal(&mut s, scores.get_kills(ev.killer_id) as u64);
    push_all(&mut s, " kills]");
    s
}

/// The headline of the game-over screen.
pub open spec fn game_over_text(name: Seq<char>, kills: u32) -> Seq<char> {
    name + " wins with "@ + decimal(kills as nat) + " kills!"@
}

/// The headline of the game-over screen for the round winner.
pub fn game_over_headline(names: &PlayerNames, scores: &Scores) -> (r: (u64, String))
    ensures
        scores.kills@.dom().len() == 0 ==> r.0 == 0,
        scores.kills@.dom().len() > 0 ==> {
            &&& scores.kills@.contains_key(r.0)
            &&& forall|id: u64| #[trigger]
                scores.kills@.contains_key(id) ==> scores.kills@[id] <= scores.kills@[r.0]
        },
        r.1@ == game_over_text(feed_name(names.0@, r.0), tally(scores.kills@, r.0)),
{
    let (id, k) = game_over_winner(scores);
    let mut s = names.feed_name(id);
    push_all(&mut s, " wins with ");
    push_decimal(&mut s, k as u64);
    push_all(&mut s, " kills!");
    (id, s)
}

/// The countdown line of the game-over screen.
pub fn game_over_countdown(seconds: u32) -> (s: String)
    ensures
        s@ == "Returning to lobby in "@ + decimal(seconds as nat) + "..."@,
{
    let mut s = string_from("Returning to lobby in ");
    push_decimal(&mut s, seconds as u64);
    push_all(&mut s, "...");
    s
}

/// The player's own identity and the server to join, set up at launch and
/// edited on the connect screen.
pub struct PlayerProfile {
    pub username: String,
    /// Full socket address, e.g. "127.0.0.1:7777".
    pub server_addr: String,
    /// True when the address was preset at launch; the connect screen then
    /// hides the address field.
    pub server_addr_locked: bool,
    /// Random id chosen once at startup and used as the network identity.
    pub client_id: u64,
}

/// The server address to start with and whether it is locked, from the
/// preset value found at launch (if any): a non-empty preset is used and
/// locked, otherwise the field starts at `fallback` and stays editable.
pub open spec fn launch_address(preset: Option<Seq<char>>, fallback: Seq<char>) -> (
    Seq<char>,
    bool,
) {
    match preset {
        Some(a) => if a.len() > 0 {
            (a, true)
        } else {
            (fallback, false)
        },
        None => (fallback, false),
    }
}

/// Native clients: the address from the preset environment value, with
/// `127.0.0.1:7777` when there is none.
pub fn resolve_server_addr(preset: Option<String>) -> (r: (String, bool))
    ensures
        (r.0@, r.1) == launch_address(
            match preset {
                Some(s) => Some(s@),
                None => None,
            },
            "127.0.0.1:7777"@,
        ),
{
    match preset {
        Some(val) => {
            if val.as_str().unicode_len() > 0 {
                (val, true)
            } else {
                (string_from("127.0.0.1:7777"), false)
            }
        },
        None => (string_from("127.0.0.1:7777"), false),
    }
}

/// Browser clients: the address from the page's preset value, trimmed,
/// with `127.0.0.1:7778` when there is none or it is blank.
pub fn resolve_web_server_addr(preset: Option<String>) -> (r: (String, bool))
    ensures
        (r.0@, r.1) == launch_address(
            match preset {
                Some(s) => Some(crate::text::trimmed(s@)),
                None => None,
            },
            "127.0.0.1:7778"@,
        ),
{
    match preset {
        Some(val) => {
            let t = crate::text::trim(val.as_str());
            if t.as_str().unicode_len() > 0 {
                (t, true)
            } else {
                (string_from("127.0.0.1:7778"), false)
            }
        },
        None => (string_from("127.0.0.1:7778"), false),
    }
}

impl PlayerProfile {
    /// The profile at launch: empty username, the resolved address and the
    /// given network id.
    pub fn new(server_addr: (String, bool), client_id: u64) -> (p: Self)
        ensures
            p.username@ == Seq::<char>::empty(),
            p.server_addr == server_addr.0,
            p.server_addr_locked == server_addr.1,
            p.client_id == client_id,
    {
        PlayerProfile {
            username: String::new(),
            server_addr: server_addr.0,
            server_addr_locked: server_addr.1,
            client_id,
        }
    }
}

} // verus!
