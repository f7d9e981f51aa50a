//! The dedicated server's session logic: who is connected, and which
//! messages go to which client when players join, move, hit or leave.
//! Clients are named by the ids of their connection entities.
use vstd::prelude::*;
use crate::protocol::{
    JoinMsg, KillNotifyMsg, MapUrlMsg, PlayerJoinMsg, PlayerLeaveMsg, PosUpdateMsg, RelayedPosMsg,
};

verus! {

/// The ports the server listens on.
#[derive(Clone, Copy, Debug, PartialEq, Eq, Structural)]
pub struct ServerPorts {
    pub udp: u16,
    pub web: u16,
}

/// The map archive sent to joining clients; `None`: clients keep the
/// built-in map.
pub struct MapUrl(pub Option<String>);

impl Default for MapUrl {
    fn default() -> (m: Self)
        ensures
            m.0 is None,
    {
        MapUrl(None)
    }
}

/// What the server keeps for a connected client; `H` is the hit-point
/// type.
pub struct ServerPlayerInfo<H> {
    pub client_id: u64,
    pub username: String,
    pub hp: H,
}

/// The colour of `client_id`: entry `client_id % 8` of the palette.
pub fn color_for_id<C: Copy>(palette: &[C; 8], client_id: u64) -> (c: C)
    ensures
        c == palette@[(client_id % 8) as int],
{
    palette[(client_id % 8) as usize]
}

/// A message to send to one client.
pub enum Outgoing<C> {
    /// A `PlayerJoinMsg`.
    Join { to: u64, msg: PlayerJoinMsg<C> },
    /// A `MapUrlMsg`.
    MapAddress { to: u64, url_msg: MapUrlMsg },
}

/// A message to send, with its strings as character sequences.
pub enum Sent<C> {
    Join { to: u64, client_id: u64, username: Seq<char>, color: C },
    MapAddress { to: u64, url: Seq<char> },
}

impl<C> View for Outgoing<C> {
    type V = Sent<C>;

    open spec fn view(&self) -> Sent<C> {
        match self {
            Outgoing::Join { to, msg } => Sent::Join {
                to: *to,
                client_id: msg.client_id,
                username: msg.username@,
                color: msg.color,
            },
            Outgoing::MapAddress { to, url_msg } => Sent::MapAddress { to: *to, url: url_msg.url@ },
        }
    }
}

/// The views of a list of outgoing messages.
pub open spec fn sent_view<C>(v: Seq<Outgoing<C>>) -> Seq<Sent<C>> {
    v.map_values(|o: Outgoing<C>| o@)
}

/// A join announcement to every client of `to`, in order.
pub open spec fn announce_all<C>(to: Seq<u64>, client_id: u64, name: Seq<char>, color: C) -> Seq<
    Sent<C>,
>
    decreases to.len(),
{
    if to.len() == 0 {
        Seq::empty()
    } else {
        announce_all(to.drop_last(), client_id, name, color).push(
            Sent::Join { to: to.last(), client_id, username: name, color },
        )
    }
}

/// The players already known, announced to the newcomer `to` (all but the
/// newcomer's own id).
pub open spec fn existing_to<C>(
    to: u64,
    newcomer: u64,
    existing: Seq<(u64, Seq<char>)>,
    palette: Seq<C>,
) -> Seq<Sent<C>>
    decreases existing.len(),
{
    if existing.len() == 0 {
        Seq::empty()
    } else {
        let rest = existing_to(to, newcomer, existing.drop_last(), palette);
        let (id, name) = existing.last();
        if id == newcomer {
            rest
        } else {
            rest.push(Sent::Join { to, client_id: id, username: name, color: palette[(id % 8) as int] })
        }
    }
}

/// Everything sent for one join of `client_id` (as `name`) from entity
/// `entity`: the announcement to every client of `announce_to`; if the
/// newcomer is among them, every already known player; if a map is set
/// and the newcomer can receive it, the map's address.
pub open spec fn join_sends<C>(
    entity: u64,
    client_id: u64,
    name: Seq<char>,
    existing: Seq<(u64, Seq<char>)>,
    announce_to: Seq<u64>,
    map_to: Seq<u64>,
    map_url: Option<Seq<char>>,
    palette: Seq<C>,
) -> Seq<Sent<C>> {
    announce_all(announce_to, client_id, name, palette[(client_id % 8) as int]) + (if announce_to.contains(
        entity,
    ) {
        existing_to(entity, client_id, existing, palette)
    } else {
        Seq::empty()
    }) + (match map_url {
        Some(u) => if map_to.contains(entity) {
            seq![Sent::MapAddress { to: entity, url: u }]
        } else {
            Seq::empty()
        },
        None => Seq::empty(),
    })
}

/// A join request: the client's entity and its message.
pub struct JoinRequest {
    pub entity: u64,
    pub msg: JoinMsg,
}

/// The views of join requests: entity, client id and name.
pub open spec fn joins_view(v: Seq<JoinRequest>) -> Seq<(u64, u64, Seq<char>)> {
    v.map_values(|j: JoinRequest| (j.entity, j.msg.client_id, j.msg.username@))
}

/// Everything sent for a batch of joins, in order.
pub open spec fn batch_sends<C>(
    joins: Seq<(u64, u64, Seq<char>)>,
    existing: Seq<(u64, Seq<char>)>,
    announce_to: Seq<u64>,
    map_to: Seq<u64>,
    map_url: Option<Seq<char>>,
    palette: Seq<C>,
) -> Seq<Sent<C>>
    decreases joins.len(),
{
    if joins.len() == 0 {
        Seq::empty()
    } else {
        let (e, c, n) = joins.last();
        batch_sends(joins.drop_last(), existing, announce_to, map_to, map_url, palette)
            + join_sends(e, c, n, existing, announce_to, map_to, map_url, palette)
    }
}

/// The configured map address, as characters.
pub open spec fn url_view(m: &MapUrl) -> Option<Seq<char>> {
    match m.0 {
        Some(u) => Some(u@),
        None => None,
    }
}

/// The outcome of a batch of joins: the player records to store (entity,
/// client id, name) and the messages to send.
pub struct JoinPlan<C> {
    pub records: Vec<(u64, u64, String)>,
    pub sends: Vec<Outgoing<C>>,
}

fn contains_u64(v: &Vec<u64>, x: u64) -> (b: bool)
    ensures
        b == v@.contains(x),
{
    let mut i: usize = 0;
    while i < v.len()
        invariant
            i <= v.len(),
            forall|k: int| 0 <= k < i ==> v@[k] != x,
        decreases v.len() - i,
    {
        if v[i] == x {
            return true;
        }
        i = i + 1;
    }
    false
}

/// Appends the join announcement for every client of `to`.
fn push_announcements<C: Copy>(
    out: &mut Vec<Outgoing<C>>,
    to: &Vec<u64>,
    client_id: u64,
    name: &String,
    color: C,
)
    ensures
        sent_view(final(out)@) == sent_view(old(out)@) + announce_all(to@, client_id, name@, color),
{
    let ghost start = sent_view(out@);
    let mut i: usize = 0;
    assert(to@.take(0) =~= Seq::<u64>::empty());
    assert(start + announce_all(to@.take(0), client_id, name@, color) =~= start);
    while i < to.len()
        invariant
            i <= to.len(),
            sent_view(out@) == start + announce_all(to@.take(i as int), client_id, name@, color),
        decreases to.len() - i,
    {
        let ghost before = sent_view(out@);
        out.push(Outgoing::Join { to: to[i], msg: PlayerJoinMsg { client_id, username: name.clone(), color } });
        proof {
            assert(to@.take(i + 1).drop_last() =~= to@.take(i as int));
            assert(sent_view(out@) =~= before.push(
                Sent::Join { to: to@[i as int], client_id, username: name@, color },
            ));
        }
        i = i + 1;
    }
    assert(to@.take(to.len() as int) =~= to@);
}

/// Appends, for the newcomer `to`, every known player but itself.
fn push_existing<C: Copy>(
    out: &mut Vec<Outgoing<C>>,
    to: u64,
    newcomer: u64,
    existing: &Vec<(u64, String)>,
    palette: &[C; 8],
)
    ensures
        sent_view(final(out)@) == sent_view(old(out)@) + existing_to(
            to,
            newcomer,
            existing_view(existing@),
            palette@,
        ),
{
    let ghost start = sent_view(out@);
    let ghost ex = existing_view(existing@);
    let mut i: usize = 0;
    assert(ex.take(0) =~= Seq::<(u64, Seq<char>)>::empty());
    assert(start + existing_to(to, newcomer, ex.take(0), palette@) =~= start);
    while i < existing.len()
        invariant
            i <= existing.len(),
            ex == existing_view(existing@),
            sent_view(out@) == start + existing_to(to, newcomer, ex.take(i as int), palette@),
        decreases existing.len() - i,
    {
        let ghost before = sent_view(out@);
        proof {
            assert(ex.take(i + 1).drop_last() =~= ex.take(i as int));
            assert(ex.take(i + 1).last() == (existing@[i as int].0, existing@[i as int].1@));
        }
        let id = existing[i].0;
        if id != newcomer {
            let color = color_for_id(palette, id);
            out.push(
                Outgoing::Join {
                    to,
                    msg: PlayerJoinMsg { client_id: id, username: existing[i].1.clone(), color },
                },
            );
            proof {
                assert(sent_view(out@) =~= before.push(
                    Sent::Join {
                        to,
                        client_id: id,
                        username: existing@[i as int].1@,
                        color: palette@[(id % 8) as int],
                    },
                ));
            }
        }
        i = i + 1;
    }
    assert(ex.take(existing.len() as int) =~= ex);
}

/// The views of known players: client id and name.
pub open spec fn existing_view(v: Seq<(u64, String)>) -> Seq<(u64, Seq<char>)> {
    v.map_values(|e: (u64, String)| (e.0, e.1@))
}

/// The records to store for joins: entity, client id, name.
pub open spec fn records_view(v: Seq<(u64, u64, String)>) -> Seq<(u64, u64, Seq<char>)> {
    v.map_values(|r: (u64, u64, String)| (r.0, r.1, r.2@))
}

/// Handles a batch of join messages. `existing` are the players known
/// before the batch; `announce_to` and `map_to` are the clients that can
/// receive player announcements and map addresses. Every joining client
/// gets a record, every client of `announce_to` hears of every join, each
/// newcomer (if it can receive them) hears of every known player but
/// itself, and of the map, if one is set.
pub fn handle_join_msg<C: Copy>(
    joins: &Vec<JoinRequest>,
    existing: &Vec<(u64, String)>,
    announce_to: &Vec<u64>,
    map_to: &Vec<u64>,
    map_url: &MapUrl,
    palette: &[C; 8],
) -> (p: JoinPlan<C>)
    ensures
        records_view(p.records@) == joins_view(joins@),
        sent_view(p.sends@) == batch_sends(
            joins_view(joins@),
            existing_view(existing@),
            announce_to@,
            map_to@,
            url_view(map_url),
            palette@,
        ),
{
    let ghost js = joins_view(joins@);
    let ghost ex = existing_view(existing@);
    let ghost url = url_view(map_url);
    let mut records: Vec<(u64, u64, String)> = Vec::new();
    let mut sends: Vec<Outgoing<C>> = Vec::new();
    let mut i: usize = 0;
    while i < joins.len()
        invariant
            i <= joins.len(),
            js == joins_view(joins@),
            ex == existing_view(existing@),
            url == url_view(map_url),
            records_view(records@) == js.take(i as int),
            sent_view(sends@) == batch_sends(js.take(i as int), ex, announce_to@, map_to@, url, palette@),
        decreases joins.len() - i,
    {
        let entity = joins[i].entity;
        let client_id = joins[i].msg.client_id;
        let name = &joins[i].msg.username;
        let ghost s0 = sent_view(sends@);
        let ghost r0 = records_view(records@);
        records.push((entity, client_id, name.clone()));
        let color = color_for_id(palette, client_id);
        push_announcements(&mut sends, announce_to, client_id, name, color);
        let ghost s1 = sent_view(sends@);
        let newcomer_listens = contains_u64(announce_to, entity);
        if newcomer_listens {
            push_existing(&mut sends, entity, client_id, existing, palette);
        }
        let ghost s2 = sent_view(sends@);
        match &map_url.0 {
            Some(u) => {
                if contains_u64(map_to, entity) {
                    let ghost before = sent_view(sends@);
                    sends.push(Outgoing::MapAddress { to: entity, url_msg: MapUrlMsg { url: u.clone() } });
                    assert(sent_view(sends@) =~= before.push(Sent::MapAddress { to: entity, url: u@ }));
                }
            },
            None => {},
        }
        proof {
            let j = js[i as int];
            assert(j == (entity, client_id, name@));
            assert(js.take(i + 1).drop_last() =~= js.take(i as int));
            assert(js.take(i + 1).last() == j);
            assert(records_view(records@) =~= r0.push(j));
            assert(records_view(records@) =~= js.take(i + 1));
            let a = announce_all(announce_to@, client_id, name@, palette@[(client_id % 8) as int]);
            let b = if announce_to@.contains(entity) {
                existing_to(entity, client_id, ex, palette@)
            } else {
                Seq::<Sent<C>>::empty()
            };
            let c = match url {
                Some(u) => if map_to@.contains(entity) {
                    seq![Sent::MapAddress { to: entity, url: u }]
                } else {
                    Seq::<Sent<C>>::empty()
                },
                None => Seq::<Sent<C>>::empty(),
            };
            assert(s1 == s0 + a);
            if !newcomer_listens {
                assert(s2 =~= s1 + b);
            }
            assert(s2 == s1 + b);
            assert(sent_view(sends@) =~= s2 + c);
            assert(sent_view(sends@) =~= s0 + (a + b + c));
            assert(join_sends(entity, client_id, name@, ex, announce_to@, map_to@, url, palette@)
                == a + b + c);
        }
        i = i + 1;
    }
    assert(js.take(joins.len() as int) =~= js);
    JoinPlan { records, sends }
}

/// A copy of `msg` for each client of `to`, in order.
pub fn broadcast_to<M: Copy>(to: &Vec<u64>, msg: M) -> (out: Vec<(u64, M)>)
    ensures
        out@.len() == to@.len(),
        forall|k: int| 0 <= k < to@.len() ==> #[trigger] out@[k] == (to@[k], msg),
{
    let mut out: Vec<(u64, M)> = Vec::new();
    let mut i: usize = 0;
    while i < to.len()
        invariant
            i <= to.len(),
            out@.len() == i,
            forall|k: int| 0 <= k < i ==> #[trigger] out@[k] == (to@[k], msg),
        decreases to.len() - i,
    {
        out.push((to[i], msg));
        i = i + 1;
    }
    out
}

/// A client disconnected: when it had joined (`left` is its client id),
/// every client of `to` hears that it left; otherwise nothing is sent.
pub fn handle_disconnect(left: Option<u64>, to: &Vec<u64>) -> (out: Vec<(u64, PlayerLeaveMsg)>)
    ensures
        left is None ==> out@.len() == 0,
        left is Some ==> out@.len() == to@.len() && forall|k: int|
            0 <= k < to@.len() ==> #[trigger] out@[k] == (
                to@[k],
                PlayerLeaveMsg { client_id: left->0 },
            ),
{
    match left {
        Some(id) => broadcast_to(to, PlayerLeaveMsg { client_id: id }),
        None => Vec::new(),
    }
}

/// The relays of one update from client `id`: one message to every
/// recipient of `to` (its entity and, once it joined, its client id) other
/// than the client `id` itself, in order.
pub open spec fn relay_to<F>(to: Seq<(u64, Option<u64>)>, id: u64, pos: [F; 3], yaw: F) -> Seq<
    (u64, u64, [F; 3], F),
>
    decreases to.len(),
{
    if to.len() == 0 {
        Seq::empty()
    } else {
        let prev = relay_to(to.drop_last(), id, pos, yaw);
        if to.last().1 == Some(id) {
            prev
        } else {
            prev.push((to.last().0, id, pos, yaw))
        }
    }
}

/// Position relays: for each update (sender's client id and message), in
/// order, the relays of that update to all other clients.
pub open spec fn relays<F>(updates: Seq<(u64, PosUpdateMsg<F>)>, to: Seq<(u64, Option<u64>)>) -> Seq<
    (u64, u64, [F; 3], F),
>
    decreases updates.len(),
{
    if updates.len() == 0 {
        Seq::empty()
    } else {
        let (id, m) = updates.last();
        relays(updates.drop_last(), to) + relay_to(to, id, m.pos, m.yaw)
    }
}

/// The views of relayed messages: recipient, origin, position, heading.
pub open spec fn relayed_view<F>(v: Seq<(u64, RelayedPosMsg<F>)>) -> Seq<(u64, u64, [F; 3], F)> {
    v.map_values(|r: (u64, RelayedPosMsg<F>)| (r.0, r.1.client_id, r.1.pos, r.1.yaw))
}

/// Some recipient of `to` with entity `entity` is not the client `origin`.
pub open spec fn delivered_to_other(to: Seq<(u64, Option<u64>)>, entity: u64, origin: u64) -> bool {
    exists|j: int| 0 <= j < to.len() && to[j].0 == entity && to[j].1 != Some(origin)
}

/// Every message sent goes to a recipient of `to` that is not the client
/// the position came from.
pub open spec fn never_to_sender<F>(out: Seq<(u64, u64, [F; 3], F)>, to: Seq<(u64, Option<u64>)>) -> bool {
    forall|k: int| 0 <= k < out.len() ==> delivered_to_other(to, (#[trigger] out[k]).0, out[k].1)
}

pub proof fn lemma_relay_to_never_to_sender<F>(to: Seq<(u64, Option<u64>)>, id: u64, pos: [F; 3], yaw: F)
    ensures
        never_to_sender(relay_to(to, id, pos, yaw), to),
    decreases to.len(),
{
    if to.len() > 0 {
        let prev = relay_to(to.drop_last(), id, pos, yaw);
        let cur = relay_to(to, id, pos, yaw);
        lemma_relay_to_never_to_sender(to.drop_last(), id, pos, yaw);
        assert forall|k: int| 0 <= k < cur.len() implies delivered_to_other(to, (#[trigger] cur[k]).0, cur[k].1) by {
            if k < prev.len() {
                assert(cur[k] == prev[k]);
                assert(delivered_to_other(to.drop_last(), prev[k].0, prev[k].1));
                let j = choose|j: int|
                    0 <= j < to.drop_last().len() && to.drop_last()[j].0 == prev[k].0
                        && to.drop_last()[j].1 != Some(prev[k].1);
                assert(to[j] == to.drop_last()[j]);
            } else {
                assert(cur[k] == (to.last().0, id, pos, yaw));
                assert(to[to.len() - 1].0 == cur[k].0);
            }
        }
    }
}

pub proof fn lemma_never_to_sender_append<F>(
    a: Seq<(u64, u64, [F; 3], F)>,
    b: Seq<(u64, u64, [F; 3], F)>,
    to: Seq<(u64, Option<u64>)>,
)
    requires
        never_to_sender(a, to),
        never_to_sender(b, to),
    ensures
        never_to_sender(a + b, to),
{
    let c = a + b;
    assert forall|k: int| 0 <= k < c.len() implies delivered_to_other(to, (#[trigger] c[k]).0, c[k].1) by {
        if k < a.len() {
            assert(c[k] == a[k]);
        } else {
            assert(c[k] == b[k - a.len()]);
        }
    }
}

pub proof fn lemma_relays_never_to_sender<F>(updates: Seq<(u64, PosUpdateMsg<F>)>, to: Seq<(u64, Option<u64>)>)
    ensures
        never_to_sender(relays(updates, to), to),
    decreases updates.len(),
{
    if updates.len() > 0 {
        let (id, m) = updates.last();
        lemma_relays_never_to_sender(updates.drop_last(), to);
        lemma_relay_to_never_to_sender(to, id, m.pos, m.yaw);
        lemma_never_to_sender_append(relays(updates.drop_last(), to), relay_to(to, id, m.pos, m.yaw), to);
    }
}

/// Relays every position update to all other clients: each recipient of
/// `to` (its entity and, once it joined, its client id) gets every update
/// but those of its own client.
pub fn relay_positions<F: Copy>(updates: &Vec<(u64, PosUpdateMsg<F>)>, to: &Vec<(u64, Option<u64>)>) -> (out: Vec<
    (u64, RelayedPosMsg<F>),
>)
    ensures
        relayed_view(out@) == relays(updates@, to@),
        never_to_sender(relayed_view(out@), to@),
{
    let mut out: Vec<(u64, RelayedPosMsg<F>)> = Vec::new();
    let mut i: usize = 0;
    while i < updates.len()
        invariant
            i <= updates.len(),
            relayed_view(out@) == relays(updates@.take(i as int), to@),
        decreases updates.len() - i,
    {
        let id = updates[i].0;
        let pos = updates[i].1.pos;
        let yaw = updates[i].1.yaw;
        let ghost start = relayed_view(out@);
        let mut j: usize = 0;
        while j < to.len()
            invariant
                j <= to.len(),
                relayed_view(out@) == start + relay_to(to@.take(j as int), id, pos, yaw),
            decreases to.len() - j,
        {
            let ghost before = relayed_view(out@);
            assert(to@.take(j + 1).drop_last() =~= to@.take(j as int));
            assert(to@.take(j + 1).last() == to@[j as int]);
            let skip = match to[j].1 {
                Some(c) => c == id,
                None => false,
            };
            if !skip {
                out.push((to[j].0, RelayedPosMsg { client_id: id, pos, yaw }));
                assert(relayed_view(out@) =~= before.push((to@[j as int].0, id, pos, yaw)));
                assert(start + relay_to(to@.take(j + 1), id, pos, yaw) =~= (start + relay_to(
                    to@.take(j as int),
                    id,
                    pos,
                    yaw,
                )).push((to@[j as int].0, id, pos, yaw)));
            }
            j = j + 1;
        }
        proof {
            assert(to@.take(to.len() as int) =~= to@);
            assert(updates@.take(i + 1).drop_last() =~= updates@.take(i as int));
            assert(updates@.take(i + 1).last() == updates@[i as int]);
        }
        i = i + 1;
    }
    assert(updates@.take(updates.len() as int) =~= updates@);
    proof {
        lemma_relays_never_to_sender(updates@, to@);
    }
    out
}

/// The connected player a hit report names as its victim: the first record
/// with that client id, if any.
pub fn find_victim<H>(players: &Vec<ServerPlayerInfo<H>>, victim_id: u64) -> (i: Option<usize>)
    ensures
        match i {
            Some(k) => k < players@.len() && players@[k as int].client_id == victim_id && forall|
                j: int,
            |
                0 <= j < k ==> players@[j].client_id != victim_id,
            None => forall|j: int| 0 <= j < players@.len() ==> players@[j].client_id != victim_id,
        },
{
    let mut k: usize = 0;
    while k < players.len()
        invariant
            k <= players.len(),
            forall|j: int| 0 <= j < k ==> players@[j].client_id != victim_id,
        decreases players.len() - k,
    {
        if players[k].client_id == victim_id {
            return Some(k);
        }
        k = k + 1;
    }
    None
}

/// A confirmed kill, for every client of `to`.
pub fn kill_broadcast(killer_id: u64, victim_id: u64, to: &Vec<u64>) -> (out: Vec<
    (u64, KillNotifyMsg),
>)
    ensures
        out@.len() == to@.len(),
        forall|k: int| 0 <= k < to@.len() ==> #[trigger] out@[k] == (to@[k], KillNotifyMsg { killer_id, victim_id }),
{
    broadcast_to(to, KillNotifyMsg { killer_id, victim_id })
}

} // verus!
