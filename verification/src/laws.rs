//! Properties of the library that relate several of its operations, or
//! that hold of every state it can reach.
use vstd::prelude::*;
use crate::address::{has_pair, with_default_port};
use crate::map_loader::{
    entry_key, files_of, has_file_name, map_load_step, spawn_fields, MapLoadEvent, MapLoadPhase,
    OverlayAction, OverlayLabel,
};
use crate::text::{is_ws, trim_end, trim_start, trimmed, word_len, words};
use crate::connect::{apply_key, KeyEvent, TextKey};
use crate::server::{announce_all, batch_sends, existing_to, join_sends, Sent};
use crate::pvp::{join_decision_for, spawn_plan, toggled, JoinDecision, RemotePlayerData, Visibility};
use crate::scores::{
    credited, fits_after, killers_of, lemma_credited_tally, limit_reached, occurrences, tally,
    victims_of, KillEvent,
};
use crate::settings::{
    action_at, default_bind, input_map_from, BindCode, KeyCode, Keybinds, MouseButton, PlayerAction,
};
use crate::random::le_u64;

verus! {

/// Reading a player's kills right after one more kill was credited gives
/// one more than before, and every other player's tally reads as before
/// (`Scores::add_kill`, then `Scores::get_kills`; deaths alike).
pub proof fn law_kill_then_read(m: Map<u64, u32>, id: u64, other: u64)
    requires
        tally(m, id) < u32::MAX,
    ensures
        tally(m.insert(id, (tally(m, id) + 1) as u32), id) == tally(m, id) + 1,
        other != id ==> tally(m.insert(id, (tally(m, id) + 1) as u32), other) == tally(m, other),
{
}

/// Once some player has reached the kill limit, the round stays won:
/// crediting further kills (`record_kills`) never takes it back
/// (`check_win_condition`).
pub proof fn law_limit_stays_reached(m: Map<u64, u32>, ids: Seq<u64>, limit: u32)
    requires
        fits_after(m, ids),
        limit_reached(m, limit),
    ensures
        limit_reached(credited(m, ids), limit),
{
    lemma_credited_tally(m, ids);
    let id = choose|id: u64| m.contains_key(id) && m[id] >= limit;
    assert(tally(credited(m, ids), id) >= tally(m, id));
    assert(credited(m, ids).dom().contains(id));
}

/// The local player's own join announcement never spawns a remote player;
/// a tracked player's announcement spawns no second entity; a player who
/// left is spawned again when announced anew (`RemotePlayers::track`,
/// `RemotePlayers::untrack`, `RemotePlayers::join_decision`).
pub proof fn law_join_track_leave(
    m: Map<u64, RemotePlayerData>,
    local_id: u64,
    id: u64,
    data: RemotePlayerData,
)
    ensures
        join_decision_for(m, local_id, local_id) == JoinDecision::OwnJoin,
        id != local_id ==> join_decision_for(m.insert(id, data), local_id, id)
            == JoinDecision::AlreadyTracked,
        id != local_id ==> join_decision_for(m.remove(id), local_id, id) == JoinDecision::Spawn,
{
}

/// Toggling the scoreboard twice gives back a hidden or shown board.
pub proof fn law_toggle_twice(v: Visibility)
    requires
        v != Visibility::Inherited,
    ensures
        toggled(toggled(v)) == v,
{
}

/// An address that already went through `append_default_port` is left as
/// it is by a second pass (a resolved address that is not bracketed never
/// parses as a bare IP address, hence `false`). Bracketed input must close
/// its bracket for this.
pub proof fn law_default_port_stable(addr: Seq<char>, is_ip: bool)
    requires
        addr.len() > 0 && addr[0] == '[' ==> has_pair(addr, ']', ':') || addr.last() == ']',
    ensures
        with_default_port(with_default_port(addr, is_ip), false) == with_default_port(addr, is_ip),
{
    reveal_strlit(":7777");
    reveal_strlit("[");
    reveal_strlit("]:7777");
    let r = with_default_port(addr, is_ip);
    if addr.len() > 0 && addr[0] == '[' {
        if !has_pair(addr, ']', ':') {
            assert(r[0] == '[');
            assert(r[addr.len() - 1] == ']' && r[addr.len() as int] == ':');
            assert(has_pair(r, ']', ':'));
        }
    } else if addr.contains(':') {
        if is_ip {
            assert(r[0] == '[');
            assert(r[addr.len() + 1int] == ']' && r[addr.len() + 2int] == ':');
            assert(has_pair(r, ']', ':'));
        }
    } else {
        assert(r[addr.len() as int] == ':');
        assert(r.contains(':'));
        if addr.len() == 0 {
            assert(r[0] == ':');
        } else {
            assert(r[0] == addr[0]);
        }
    }
}

/// Every archive entry whose path names a file can be found under its key
/// after extraction (its path decoded as UTF-8, then made a key), and
/// nothing else is stored (`collect_archive_files`).
pub proof fn law_archive_keys(entries: Seq<(Seq<u8>, Seq<u8>)>)
    ensures
        forall|k: Seq<char>| #[trigger]
            files_of(entries).contains_key(k) <==> (has_file_name(k) && exists|i: int|
                0 <= i < entries.len() && entry_key(entries[i].0) == k),
    decreases entries.len(),
{
    if entries.len() > 0 {
        let rest = entries.drop_last();
        law_archive_keys(rest);
        assert forall|k: Seq<char>| #[trigger]
            files_of(entries).contains_key(k) <==> (has_file_name(k) && exists|i: int|
                0 <= i < entries.len() && entry_key(entries[i].0) == k) by {
            if files_of(entries).contains_key(k) {
                if files_of(rest).contains_key(k) {
                    let i = choose|i: int| 0 <= i < rest.len() && entry_key(rest[i].0) == k;
                    assert(entries[i] == rest[i]);
                } else {
                    assert(entry_key(entries[entries.len() - 1].0) == k);
                }
            }
            if has_file_name(k) && exists|i: int|
                0 <= i < entries.len() && entry_key(entries[i].0) == k {
                let i = choose|i: int| 0 <= i < entries.len() && entry_key(entries[i].0) == k;
                if i < entries.len() - 1 {
                    assert(rest[i] == entries[i]);
                    assert(files_of(rest).contains_key(k));
                }
            }
        }
    }
}

/// When several entries share a key, the last one wins: the file stored
/// under a key is the contents of the last entry with that key.
pub proof fn law_archive_last_entry_wins(entries: Seq<(Seq<u8>, Seq<u8>)>, i: int)
    requires
        0 <= i < entries.len(),
        has_file_name(entry_key(entries[i].0)),
        forall|j: int| i < j < entries.len() ==> entry_key(#[trigger] entries[j].0) != entry_key(
            entries[i].0,
        ),
    ensures
        files_of(entries).contains_key(entry_key(entries[i].0)),
        files_of(entries)[entry_key(entries[i].0)] == entries[i].1,
    decreases entries.len(),
{
    if i < entries.len() - 1 {
        let rest = entries.drop_last();
        assert(rest[i] == entries[i]);
        assert forall|j: int| i < j < rest.len() implies entry_key(#[trigger] rest[j].0) != entry_key(
            rest[i].0,
        ) by {
            assert(rest[j] == entries[j]);
        }
        law_archive_last_entry_wins(rest, i);
        assert(entry_key(entries[entries.len() - 1].0) != entry_key(entries[i].0));
    }
}

/// Bindings in which every action is bound.
pub open spec fn fully_bound(k: Keybinds) -> bool {
    forall|a: PlayerAction| #[trigger] k.bind_of(a) is Some
}

/// The default bindings (`default_keybinds`, `handle_reset_keybinds`) bind
/// every action.
pub proof fn law_defaults_complete(k: Keybinds)
    requires
        forall|a: PlayerAction| #[trigger] k.bind_of(a) == Some(default_bind(a)),
    ensures
        fully_bound(k),
{
    assert forall|a: PlayerAction| #[trigger] k.bind_of(a) is Some by {
        assert(k.bind_of(a) == Some(default_bind(a)));
    }
}

/// Rebinding one action keeps every action bound (`Keybinds::insert`,
/// `handle_keybind_input`).
pub proof fn law_bindings_stay_complete(k: Keybinds, after: Keybinds, a: PlayerAction, b: BindCode)
    requires
        fully_bound(k),
        after.bind_of(a) == Some(b),
        forall|x: PlayerAction| x != a ==> #[trigger] after.bind_of(x) == k.bind_of(x),
    ensures
        fully_bound(after),
{
    assert forall|x: PlayerAction| #[trigger] after.bind_of(x) is Some by {
        if x != a {
            assert(after.bind_of(x) == k.bind_of(x));
        }
    }
}

/// With every action bound, the rebuilt input map lists all nine actions
/// in settings order, each with its binding (`rebuild_input_map`).
pub proof fn law_full_input_map(k: Keybinds)
    requires
        fully_bound(k),
    ensures
        input_map_from(k, 9).len() == 9,
        forall|i: int| #![trigger input_map_from(k, 9)[i]]
            0 <= i < 9 ==> input_map_from(k, 9)[i] == (action_at(i), k.bind_of(action_at(i))->0),
{
    lemma_full_prefix(k, 9);
}

proof fn lemma_full_prefix(k: Keybinds, n: int)
    requires
        fully_bound(k),
        0 <= n <= 9,
    ensures
        input_map_from(k, n).len() == n,
        forall|i: int| #![trigger input_map_from(k, n)[i]]
            0 <= i < n ==> input_map_from(k, n)[i] == (action_at(i), k.bind_of(action_at(i))->0),
    decreases n,
{
    if n > 0 {
        lemma_full_prefix(k, n - 1);
        assert(k.bind_of(action_at(n - 1)) is Some);
        let prev = input_map_from(k, n - 1);
        assert forall|i: int| #![trigger input_map_from(k, n)[i]] 0 <= i < n implies input_map_from(
            k,
            n,
        )[i] == (action_at(i), k.bind_of(action_at(i))->0) by {
            if i < n - 1 {
                assert(input_map_from(k, n)[i] == prev[i]);
            }
        }
    }
}

/// `spawn_fields` of two runs of lines is that of each, one after the other.
pub proof fn lemma_spawn_fields_append(a: Seq<Seq<char>>, b: Seq<Seq<char>>)
    ensures
        spawn_fields(a + b) == spawn_fields(a) + spawn_fields(b),
    decreases a.len(),
{
    if a.len() == 0 {
        assert(a + b =~= b);
        assert(spawn_fields(a) + spawn_fields(b) =~= spawn_fields(b));
    } else {
        assert((a + b)[0] == a[0]);
        assert((a + b).drop_first() =~= a.drop_first() + b);
        lemma_spawn_fields_append(a.drop_first(), b);
        let w = words(a[0]);
        if w.len() >= 3 {
            assert(seq![w.take(3)] + (spawn_fields(a.drop_first()) + spawn_fields(b)) =~= (seq![
                w.take(3),
            ] + spawn_fields(a.drop_first())) + spawn_fields(b));
        }
    }
}

/// A line of whitespace only has no words.
pub proof fn lemma_blank_no_words(line: Seq<char>)
    requires
        forall|i: int| 0 <= i < line.len() ==> is_ws(#[trigger] line[i]),
    ensures
        words(line) == Seq::<Seq<char>>::empty(),
    decreases line.len(),
{
    if line.len() > 0 {
        assert(is_ws(line[0]));
        assert forall|i: int| 0 <= i < line.drop_first().len() implies is_ws(
            #[trigger] line.drop_first()[i],
        ) by {
            assert(line.drop_first()[i] == line[i + 1]);
        }
        lemma_blank_no_words(line.drop_first());
    }
}

/// Lines of `spawn_points.txt` that hold only whitespace (or nothing) are
/// ignored.
pub proof fn law_blank_lines_ignored(a: Seq<Seq<char>>, line: Seq<char>, b: Seq<Seq<char>>)
    requires
        forall|i: int| 0 <= i < line.len() ==> is_ws(#[trigger] line[i]),
    ensures
        spawn_fields(a + seq![line] + b) == spawn_fields(a + b),
{
    lemma_blank_no_words(line);
    lemma_spawn_fields_append(a, seq![line] + b);
    lemma_spawn_fields_append(a, b);
    assert(a + seq![line] + b =~= a + (seq![line] + b));
    assert((seq![line] + b)[0] == line);
    assert((seq![line] + b).drop_first() =~= b);
}

proof fn lemma_words_trim_start(s: Seq<char>)
    ensures
        words(trim_start(s)) == words(s),
    decreases s.len(),
{
    if s.len() > 0 && is_ws(s[0]) {
        lemma_words_trim_start(s.drop_first());
    }
}

proof fn lemma_word_len_drop_ws_last(s: Seq<char>)
    requires
        s.len() > 0,
        is_ws(s.last()),
    ensures
        word_len(s.drop_last()) == word_len(s),
    decreases s.len(),
{
    if s.len() > 1 && !is_ws(s[0]) {
        assert(s.drop_first().last() == s.last());
        lemma_word_len_drop_ws_last(s.drop_first());
        assert(s.drop_last().drop_first() =~= s.drop_first().drop_last());
        assert(s.drop_last()[0] == s[0]);
    }
}

proof fn lemma_words_drop_ws_last(s: Seq<char>)
    requires
        s.len() > 0,
        is_ws(s.last()),
    ensures
        words(s.drop_last()) == words(s),
    decreases s.len(),
{
    if s.len() == 1 {
        assert(s[0] == s.last());
        assert(s.drop_first() =~= s.drop_last());
    } else if is_ws(s[0]) {
        assert(s.drop_first().last() == s.last());
        lemma_words_drop_ws_last(s.drop_first());
        assert(s.drop_last().drop_first() =~= s.drop_first().drop_last());
        assert(s.drop_last()[0] == s[0]);
    } else {
        let n = word_len(s);
        crate::text::lemma_word_len_bounds(s);
        lemma_word_len_drop_ws_last(s);
        let t = s.drop_last();
        assert(t[0] == s[0]);
        assert(n < s.len()) by {
            if n == s.len() {
                lemma_word_len_last(s);
            }
        }
        assert(t.take(n as int) =~= s.take(n as int));
        assert(t.skip(n as int) =~= s.skip(n as int).drop_last());
        assert(s.skip(n as int).last() == s.last());
        lemma_words_drop_ws_last(s.skip(n as int));
        assert(words(t) == seq![t.take(n as int)] + words(t.skip(n as int)));
    }
}

/// A word that covers all of `s` ends in a non-whitespace character.
proof fn lemma_word_len_last(s: Seq<char>)
    requires
        s.len() > 0,
        word_len(s) == s.len(),
    ensures
        !is_ws(s.last()),
    decreases s.len(),
{
    if s.len() > 1 {
        assert(s.drop_first().last() == s.last());
        lemma_word_len_last(s.drop_first());
    }
}

proof fn lemma_words_trim_end(s: Seq<char>)
    ensures
        words(trim_end(s)) == words(s),
    decreases s.len(),
{
    if s.len() > 0 && is_ws(s.last()) {
        lemma_words_drop_ws_last(s);
        lemma_words_trim_end(s.drop_last());
    }
}

/// Leading and trailing whitespace of a line does not change the words
/// read from it, so a line of `spawn_points.txt` gives the same fields
/// trimmed or not.
pub proof fn law_trim_keeps_words(line: Seq<char>)
    ensures
        words(trimmed(line)) == words(line),
        spawn_fields(seq![trimmed(line)]) == spawn_fields(seq![line]),
{
    lemma_words_trim_start(line);
    lemma_words_trim_end(trim_start(line));
    assert(seq![trimmed(line)].drop_first() =~= Seq::<Seq<char>>::empty());
    assert(seq![line].drop_first() =~= Seq::<Seq<char>>::empty());
}

/// No message of `s` is a map address.
pub open spec fn no_map_address<C>(s: Seq<Sent<C>>) -> bool {
    forall|i: int| 0 <= i < s.len() ==> !(#[trigger] s[i] is MapAddress)
}

proof fn lemma_announce_no_map<C>(to: Seq<u64>, client_id: u64, name: Seq<char>, color: C)
    ensures
        no_map_address(announce_all(to, client_id, name, color)),
    decreases to.len(),
{
    if to.len() > 0 {
        lemma_announce_no_map(to.drop_last(), client_id, name, color);
        let prev = announce_all(to.drop_last(), client_id, name, color);
        let cur = announce_all(to, client_id, name, color);
        assert forall|i: int| 0 <= i < cur.len() implies !(#[trigger] cur[i] is MapAddress) by {
            if i < prev.len() {
                assert(cur[i] == prev[i]);
            }
        }
    }
}

proof fn lemma_existing_no_map<C>(
    to: u64,
    newcomer: u64,
    existing: Seq<(u64, Seq<char>)>,
    palette: Seq<C>,
)
    ensures
        no_map_address(existing_to(to, newcomer, existing, palette)),
    decreases existing.len(),
{
    if existing.len() > 0 {
        lemma_existing_no_map(to, newcomer, existing.drop_last(), palette);
        let prev = existing_to(to, newcomer, existing.drop_last(), palette);
        let cur = existing_to(to, newcomer, existing, palette);
        assert forall|i: int| 0 <= i < cur.len() implies !(#[trigger] cur[i] is MapAddress) by {
            if i < prev.len() {
                assert(cur[i] == prev[i]);
            }
        }
    }
}

proof fn lemma_concat_no_map<C>(a: Seq<Sent<C>>, b: Seq<Sent<C>>)
    requires
        no_map_address(a),
        no_map_address(b),
    ensures
        no_map_address(a + b),
{
    assert forall|i: int| 0 <= i < (a + b).len() implies !(#[trigger] (a + b)[i] is MapAddress) by {
        if i < a.len() {
            assert((a + b)[i] == a[i]);
        } else {
            assert((a + b)[i] == b[i - a.len()]);
        }
    }
}

/// Without a configured map, the server never sends a map address, however
/// many players join (`handle_join_msg`).
pub proof fn law_no_map_no_address<C>(
    joins: Seq<(u64, u64, Seq<char>)>,
    existing: Seq<(u64, Seq<char>)>,
    announce_to: Seq<u64>,
    map_to: Seq<u64>,
    palette: Seq<C>,
)
    ensures
        no_map_address(batch_sends(joins, existing, announce_to, map_to, None, palette)),
    decreases joins.len(),
{
    if joins.len() > 0 {
        let (e, c, n) = joins.last();
        law_no_map_no_address(joins.drop_last(), existing, announce_to, map_to, palette);
        lemma_announce_no_map(announce_to, c, n, palette[(c % 8) as int]);
        lemma_existing_no_map(e, c, existing, palette);
        let a = announce_all(announce_to, c, n, palette[(c % 8) as int]);
        let b = if announce_to.contains(e) {
            existing_to(e, c, existing, palette)
        } else {
            Seq::<Sent<C>>::empty()
        };
        lemma_concat_no_map(a, b);
        lemma_concat_no_map(a + b, Seq::<Sent<C>>::empty());
        assert(join_sends(e, c, n, existing, announce_to, map_to, None, palette) == a + b
            + Seq::<Sent<C>>::empty());
        lemma_concat_no_map(
            batch_sends(joins.drop_last(), existing, announce_to, map_to, None, palette),
            join_sends(e, c, n, existing, announce_to, map_to, None, palette),
        );
    }
}

/// With a configured map, every joining client that can receive it is
/// sent the map's address (`handle_join_msg`).
pub proof fn law_joiner_gets_map<C>(
    joins: Seq<(u64, u64, Seq<char>)>,
    existing: Seq<(u64, Seq<char>)>,
    announce_to: Seq<u64>,
    map_to: Seq<u64>,
    url: Seq<char>,
    palette: Seq<C>,
    k: int,
)
    requires
        0 <= k < joins.len(),
        map_to.contains(joins[k].0),
    ensures
        batch_sends(joins, existing, announce_to, map_to, Some(url), palette).contains(
            Sent::MapAddress { to: joins[k].0, url },
        ),
    decreases joins.len(),
{
    let rest = joins.drop_last();
    let (e, c, n) = joins.last();
    let prev = batch_sends(rest, existing, announce_to, map_to, Some(url), palette);
    let js = join_sends(e, c, n, existing, announce_to, map_to, Some(url), palette);
    let m = Sent::<C>::MapAddress { to: joins[k].0, url };
    if k < joins.len() - 1 {
        assert(rest[k] == joins[k]);
        law_joiner_gets_map(rest, existing, announce_to, map_to, url, palette, k);
        let i = choose|i: int| 0 <= i < prev.len() && prev[i] == m;
        assert((prev + js)[i] == m);
    } else {
        let a = announce_all(announce_to, c, n, palette[(c % 8) as int]);
        let b = if announce_to.contains(e) {
            existing_to(e, c, existing, palette)
        } else {
            Seq::<Sent<C>>::empty()
        };
        assert(js == a + b + seq![m]);
        assert(js[js.len() - 1] == m);
        assert((prev + js)[prev.len() + js.len() - 1] == m);
    }
}

/// Stored values read back as written: a file stored in an extracted map
/// (`ExtractedMap::insert`, then `ExtractedMap::get`), a registered name
/// (`PlayerNames::register`, then `PlayerNames::name_of`), a tracked
/// player's entity (`RemotePlayers::track`, then `RemotePlayers::entity_of`);
/// other entries are untouched.
pub proof fn law_read_after_write(
    files: Map<Seq<char>, Seq<u8>>,
    path: Seq<char>,
    data: Seq<u8>,
    other_path: Seq<char>,
    names: Map<u64, String>,
    remote: Map<u64, RemotePlayerData>,
    id: u64,
    name: String,
    entity: u64,
)
    ensures
        files.insert(path, data).contains_key(path) && files.insert(path, data)[path] == data,
        other_path != path ==> files.insert(path, data).contains_key(other_path)
            == files.contains_key(other_path) && files.insert(path, data)[other_path]
            == files[other_path],
        names.insert(id, name).contains_key(id) && names.insert(id, name)[id] == name,
        remote.insert(id, RemotePlayerData { entity, username: name })[id].entity == entity,
{
}

/// Every tracked remote player has a registered name, so the scoreboard
/// and the kill feed can show it: tracking registers the name, and
/// untracking or clearing keeps the names (`RemotePlayers::track`,
/// `RemotePlayers::untrack`, `RemotePlayers::clear_all`).
pub proof fn law_tracked_players_are_named(
    remote: Map<u64, RemotePlayerData>,
    names: Map<u64, String>,
    id: u64,
    data: RemotePlayerData,
)
    requires
        remote.dom().subset_of(names.dom()),
    ensures
        remote.insert(id, data).dom().subset_of(names.insert(id, data.username).dom()),
        remote.remove(id).dom().subset_of(names.dom()),
        Map::<u64, RemotePlayerData>::empty().dom().subset_of(names.dom()),
{
}

/// The overlay label that belongs to a loader phase; none while idle.
pub open spec fn phase_label(p: MapLoadPhase) -> Option<OverlayLabel> {
    match p {
        MapLoadPhase::Idle => None,
        MapLoadPhase::WaitingForServer => Some(OverlayLabel::WaitingForServer),
        MapLoadPhase::Downloading => Some(OverlayLabel::Downloading),
        MapLoadPhase::LoadingAssets => Some(OverlayLabel::LoadingAssets),
        MapLoadPhase::SettingUpPhysics => Some(OverlayLabel::SettingUpPhysics),
    }
}

/// The loading overlay always tells the phase the loader moves to: a
/// shown or changed label is the new phase's; going back to idle from any
/// other phase hides the overlay; an event that leaves the overlay alone
/// leaves the phase alone (`map_load_next`).
pub proof fn law_overlay_follows_phase(p: MapLoadPhase, e: MapLoadEvent)
    ensures
        map_load_step(p, e).1 matches OverlayAction::Show(l) ==> phase_label(map_load_step(p, e).0)
            == Some(l),
        map_load_step(p, e).1 matches OverlayAction::Relabel(l) ==> phase_label(
            map_load_step(p, e).0,
        ) == Some(l),
        p != MapLoadPhase::Idle && map_load_step(p, e).0 == MapLoadPhase::Idle ==> map_load_step(
            p,
            e,
        ).1 == OverlayAction::Hide,
        map_load_step(p, e).1 == OverlayAction::Keep ==> map_load_step(p, e).0 == p,
        map_load_step(p, e).1 == OverlayAction::Hide ==> map_load_step(p, e).0
            == MapLoadPhase::Idle,
{
}

/// Untracking a player that was not tracked before undoes tracking it
/// (`RemotePlayers::track`, then `RemotePlayers::untrack`).
pub proof fn law_untrack_undoes_track(remote: Map<u64, RemotePlayerData>, id: u64, data: RemotePlayerData)
    requires
        !remote.contains_key(id),
    ensures
        remote.insert(id, data).remove(id) == remote,
{
    assert(remote.insert(id, data).remove(id) =~= remote);
}

/// Backspace right after typing one character gives the text back as it
/// was (`handle_text_input`).
pub proof fn law_backspace_undoes_typing(s: Seq<char>, typed: String, backspace: KeyEvent)
    requires
        typed@.len() == 1,
        backspace.pressed,
        backspace.key is Backspace,
    ensures
        apply_key(apply_key(s, KeyEvent { pressed: true, key: TextKey::Character(typed) }), backspace)
            == s,
{
    let t = s + typed@;
    assert(t.drop_last() =~= s);
}

/// Recording a batch of kill events adds to each player's kills the
/// number of events that name the player as killer, and to each player's
/// deaths the number that name the player as victim, as long as no tally
/// overflows; recording no events changes nothing (`record_kills`).
pub proof fn law_record_kills_counts(kills: Map<u64, u32>, deaths: Map<u64, u32>, events: Seq<KillEvent>)
    requires
        fits_after(kills, killers_of(events)),
        fits_after(deaths, victims_of(events)),
    ensures
        forall|p: u64|
            #[trigger] tally(credited(kills, killers_of(events)), p) == tally(kills, p) + occurrences(
                killers_of(events),
                p,
            ),
        forall|p: u64|
            #[trigger] tally(credited(deaths, victims_of(events)), p) == tally(deaths, p)
                + occurrences(victims_of(events), p),
        credited(kills, killers_of(Seq::<KillEvent>::empty())) == kills,
        credited(deaths, victims_of(Seq::<KillEvent>::empty())) == deaths,
{
    lemma_credited_tally(kills, killers_of(events));
    lemma_credited_tally(deaths, victims_of(events));
    assert(killers_of(Seq::<KillEvent>::empty()) =~= Seq::<u64>::empty());
    assert(victims_of(Seq::<KillEvent>::empty()) =~= Seq::<u64>::empty());
}

/// The tracked players after handling the join announcements `evs` in
/// order, each given with what tracking it stores (the entity spawned for
/// it and its name): a player is tracked exactly when the decision for its
/// announcement, taken on the players tracked so far, is `Spawn`
/// (`RemotePlayers::join_decision`, then `RemotePlayers::track`).
pub open spec fn after_joins(
    m: Map<u64, RemotePlayerData>,
    local_id: u64,
    evs: Seq<(u64, RemotePlayerData)>,
) -> Map<u64, RemotePlayerData>
    decreases evs.len(),
{
    if evs.len() == 0 {
        m
    } else {
        let prev = after_joins(m, local_id, evs.drop_last());
        let (c, d) = evs.last();
        if join_decision_for(prev, local_id, c) == JoinDecision::Spawn {
            prev.insert(c, d)
        } else {
            prev
        }
    }
}

/// The client ids for which a remote player is spawned, in order.
pub open spec fn spawned_ids(m: Map<u64, RemotePlayerData>, local_id: u64, evs: Seq<(u64, RemotePlayerData)>) -> Seq<u64>
    decreases evs.len(),
{
    if evs.len() == 0 {
        Seq::empty()
    } else {
        let prev = spawned_ids(m, local_id, evs.drop_last());
        let c = evs.last().0;
        if join_decision_for(after_joins(m, local_id, evs.drop_last()), local_id, c)
            == JoinDecision::Spawn {
            prev.push(c)
        } else {
            prev
        }
    }
}

/// The registered names after the same announcements: a spawned player's
/// name is registered along with it.
pub open spec fn names_after_joins(
    names: Map<u64, String>,
    m: Map<u64, RemotePlayerData>,
    local_id: u64,
    evs: Seq<(u64, RemotePlayerData)>,
) -> Map<u64, String>
    decreases evs.len(),
{
    if evs.len() == 0 {
        names
    } else {
        let prev = names_after_joins(names, m, local_id, evs.drop_last());
        let (c, d) = evs.last();
        if join_decision_for(after_joins(m, local_id, evs.drop_last()), local_id, c)
            == JoinDecision::Spawn {
            prev.insert(c, d.username)
        } else {
            prev
        }
    }
}

/// The first announcement of its client id among `evs`.
pub open spec fn first_of(evs: Seq<(u64, RemotePlayerData)>, i: int) -> bool {
    forall|j: int| 0 <= j < i ==> (#[trigger] evs[j]).0 != evs[i].0
}

/// Handling a batch of join announcements: every announced player other
/// than the local one and not tracked before is spawned exactly once and
/// tracked with the entity and name of its first announcement, which is
/// also its registered name; players tracked before keep their entry; the
/// local player is never tracked; no other name changes.
pub proof fn law_batch_joins(
    m: Map<u64, RemotePlayerData>,
    names: Map<u64, String>,
    local_id: u64,
    evs: Seq<(u64, RemotePlayerData)>,
)
    requires
        !m.contains_key(local_id),
    ensures
        forall|c: u64| #[trigger]
            after_joins(m, local_id, evs).contains_key(c) <==> (m.contains_key(c) || (c != local_id
                && exists|i: int| 0 <= i < evs.len() && evs[i].0 == c)),
        forall|c: u64| #[trigger]
            m.contains_key(c) ==> after_joins(m, local_id, evs)[c] == m[c],
        forall|i: int|
            0 <= i < evs.len() && evs[i].0 != local_id && !m.contains_key(evs[i].0) && first_of(
                evs,
                i,
            ) ==> after_joins(m, local_id, evs)[(#[trigger] evs[i]).0] == evs[i].1
                && names_after_joins(names, m, local_id, evs).contains_key(evs[i].0)
                && names_after_joins(names, m, local_id, evs)[evs[i].0] == evs[i].1.username,
        !after_joins(m, local_id, evs).contains_key(local_id),
        spawned_ids(m, local_id, evs).no_duplicates(),
        spawned_ids(m, local_id, evs).to_set() == after_joins(m, local_id, evs).dom().difference(
            m.dom(),
        ),
        forall|c: u64|
            #![trigger spawned_ids(m, local_id, evs).contains(c)]
            !spawned_ids(m, local_id, evs).contains(c) ==> (names_after_joins(
                names,
                m,
                local_id,
                evs,
            ).contains_key(c) == names.contains_key(c) && (names.contains_key(c)
                ==> names_after_joins(names, m, local_id, evs)[c] == names[c])),
    decreases evs.len(),
{
    let a = after_joins(m, local_id, evs);
    let sp = spawned_ids(m, local_id, evs);
    let nm = names_after_joins(names, m, local_id, evs);
    if evs.len() == 0 {
        assert(sp.to_set() =~= a.dom().difference(m.dom()));
    } else {
        let pre = evs.drop_last();
        law_batch_joins(m, names, local_id, pre);
        let pa = after_joins(m, local_id, pre);
        let psp = spawned_ids(m, local_id, pre);
        let pnm = names_after_joins(names, m, local_id, pre);
        let (c, d) = evs.last();
        let spawn = join_decision_for(pa, local_id, c) == JoinDecision::Spawn;
        assert(spawn == (c != local_id && !pa.contains_key(c)));
        assert forall|x: u64| #[trigger]
            a.contains_key(x) <==> (m.contains_key(x) || (x != local_id && exists|i: int|
                0 <= i < evs.len() && evs[i].0 == x)) by {
            if exists|i: int| 0 <= i < pre.len() && pre[i].0 == x {
                let i = choose|i: int| 0 <= i < pre.len() && pre[i].0 == x;
                assert(evs[i] == pre[i]);
            }
            if exists|i: int| 0 <= i < evs.len() && evs[i].0 == x {
                let i = choose|i: int| 0 <= i < evs.len() && evs[i].0 == x;
                if i < pre.len() {
                    assert(pre[i] == evs[i]);
                } else {
                    assert(x == c);
                }
            }
        }
        assert forall|i: int|
            0 <= i < evs.len() && evs[i].0 != local_id && !m.contains_key(evs[i].0) && first_of(
                evs,
                i,
            ) implies a[(#[trigger] evs[i]).0] == evs[i].1 && nm.contains_key(evs[i].0)
            && nm[evs[i].0] == evs[i].1.username by {
            if i < pre.len() {
                assert(pre[i] == evs[i]);
                assert forall|j: int| 0 <= j < i implies (#[trigger] pre[j]).0 != pre[i].0 by {
                    assert(pre[j] == evs[j]);
                }
                assert(first_of(pre, i));
                assert(pa.contains_key(pre[i].0));
                assert(pa[pre[i].0] == pre[i].1);
            } else {
                assert(evs[i] == (c, d));
                if pa.contains_key(c) {
                    assert(m.contains_key(c) || exists|k: int| 0 <= k < pre.len() && pre[k].0 == c);
                    if exists|k: int| 0 <= k < pre.len() && pre[k].0 == c {
                        let k = choose|k: int| 0 <= k < pre.len() && pre[k].0 == c;
                        assert(evs[k] == pre[k]);
                        assert(evs[k].0 != evs[i].0);
                    }
                }
            }
        }
        assert(!psp.contains(c) || pa.contains_key(c)) by {
            if psp.contains(c) {
                assert(psp.to_set().contains(c));
            }
        }
        if spawn {
            assert(sp == psp.push(c));
            assert(sp.to_set() =~= a.dom().difference(m.dom())) by {
                assert forall|x: u64| sp.to_set().contains(x) implies a.dom().difference(m.dom()).contains(
                    x,
                ) by {
                    let k = choose|k: int| 0 <= k < sp.len() && sp[k] == x;
                    if k < psp.len() {
                        assert(psp[k] == x);
                        assert(psp.to_set().contains(x));
                    }
                }
                assert forall|x: u64| a.dom().difference(m.dom()).contains(x) implies sp.to_set().contains(
                    x,
                ) by {
                    if x == c {
                        assert(sp[sp.len() - 1] == x);
                    } else {
                        assert(psp.to_set().contains(x));
                        let k = choose|k: int| 0 <= k < psp.len() && psp[k] == x;
                        assert(sp[k] == x);
                    }
                }
            }
            assert forall|k1: int, k2: int| 0 <= k1 < sp.len() && 0 <= k2 < sp.len() && k1 != k2 implies sp[k1]
                != sp[k2] by {
                if k1 < psp.len() && k2 < psp.len() {
                    assert(sp[k1] == psp[k1] && sp[k2] == psp[k2]);
                } else if k1 < psp.len() {
                    assert(sp[k1] == psp[k1]);
                    assert(psp.contains(psp[k1]));
                } else {
                    assert(sp[k2] == psp[k2]);
                    assert(psp.contains(psp[k2]));
                }
            }
        } else {
            assert(sp == psp);
            assert(a == pa);
            assert(nm == pnm);
        }
        assert forall|x: u64| #![trigger sp.contains(x)] !sp.contains(x) implies (nm.contains_key(x)
            == names.contains_key(x) && (names.contains_key(x) ==> nm[x] == names[x])) by {
            if spawn {
                assert(sp[sp.len() - 1] == c);
                if psp.contains(x) {
                    let k = choose|k: int| 0 <= k < psp.len() && psp[k] == x;
                    assert(sp[k] == x);
                }
            }
            assert(!psp.contains(x));
            assert(pnm.contains_key(x) == names.contains_key(x) && (names.contains_key(x) ==> pnm[x]
                == names[x]));
        }
    }
}

/// The client ids of announcements.
pub open spec fn announced_ids(evs: Seq<(u64, RemotePlayerData)>) -> Seq<u64> {
    evs.map_values(|e: (u64, RemotePlayerData)| e.0)
}

proof fn lemma_plan_in_range(m: Map<u64, RemotePlayerData>, local_id: u64, ids: Seq<u64>)
    ensures
        forall|k: int|
            0 <= k < spawn_plan(m, local_id, ids).len() ==> 0 <= #[trigger] spawn_plan(m, local_id, ids)[k]
                < ids.len(),
    decreases ids.len(),
{
    if ids.len() > 0 {
        lemma_plan_in_range(m, local_id, ids.drop_last());
        let prev = spawn_plan(m, local_id, ids.drop_last());
        let cur = spawn_plan(m, local_id, ids);
        assert forall|k: int| 0 <= k < cur.len() implies 0 <= #[trigger] cur[k] < ids.len() by {
            if k < prev.len() {
                assert(cur[k] == prev[k]);
            }
        }
    }
}

/// The players that `RemotePlayers::plan_remote_spawns` picks from a
/// batch of announcements are exactly those that handling the
/// announcements one by one spawns, in the same order (so
/// `law_batch_joins` holds of spawning and tracking the picks).
pub proof fn law_plan_matches_joins(
    m: Map<u64, RemotePlayerData>,
    local_id: u64,
    evs: Seq<(u64, RemotePlayerData)>,
)
    requires
        !m.contains_key(local_id),
    ensures
        spawned_ids(m, local_id, evs) == spawn_plan(m, local_id, announced_ids(evs)).map_values(
            |k: int| evs[k].0,
        ),
    decreases evs.len(),
{
    let ids = announced_ids(evs);
    if evs.len() == 0 {
        assert(spawn_plan(m, local_id, ids).map_values(|k: int| evs[k].0) =~= Seq::<u64>::empty());
    } else {
        let pre = evs.drop_last();
        let (c, d) = evs.last();
        law_plan_matches_joins(m, local_id, pre);
        law_batch_joins(m, Map::<u64, String>::empty(), local_id, pre);
        lemma_plan_in_range(m, local_id, announced_ids(pre));
        assert(ids.drop_last() =~= announced_ids(pre));
        assert(ids.last() == c);
        let pplan = spawn_plan(m, local_id, announced_ids(pre));
        assert(pplan.map_values(|k: int| pre[k].0) =~= pplan.map_values(|k: int| evs[k].0)) by {
            assert forall|k: int| 0 <= k < pplan.len() implies pre[pplan[k]] == evs[pplan[k]] by {
                assert(0 <= pplan[k] < announced_ids(pre).len());
            }
        }
        let pa = after_joins(m, local_id, pre);
        assert(announced_ids(pre).contains(c) == exists|i: int| 0 <= i < pre.len() && pre[i].0 == c) by {
            if announced_ids(pre).contains(c) {
                let i = choose|i: int| 0 <= i < announced_ids(pre).len() && announced_ids(pre)[i] == c;
                assert(pre[i].0 == c);
            }
            if exists|i: int| 0 <= i < pre.len() && pre[i].0 == c {
                let i = choose|i: int| 0 <= i < pre.len() && pre[i].0 == c;
                assert(announced_ids(pre)[i] == c);
            }
        }
        assert(pa.contains_key(c) == (m.contains_key(c) || (c != local_id && exists|i: int|
            0 <= i < pre.len() && pre[i].0 == c)));
        let plan = spawn_plan(m, local_id, ids);
        if c != local_id && !m.contains_key(c) && !announced_ids(pre).contains(c) {
            assert(plan == pplan.push(evs.len() - 1));
            assert(plan.map_values(|k: int| evs[k].0) =~= pplan.map_values(|k: int| evs[k].0).push(c));
        } else {
            assert(plan == pplan);
        }
    }
}

/// The default bindings (`default_keybinds`, `GameSettings::with_sensitivity`,
/// `handle_reset_keybinds`) are the WASD layout: W forward, S back, A left,
/// D right, Space jumps, the left mouse button shoots, R reloads, Escape
/// pauses, Tab shows the scoreboard; and no two actions share an input.
pub proof fn law_default_layout(k: Keybinds)
    requires
        forall|a: PlayerAction| #[trigger] k.bind_of(a) == Some(default_bind(a)),
    ensures
        k.bind_of(PlayerAction::MoveForward) == Some(BindCode::Key(KeyCode::KeyW)),
        k.bind_of(PlayerAction::MoveBack) == Some(BindCode::Key(KeyCode::KeyS)),
        k.bind_of(PlayerAction::MoveLeft) == Some(BindCode::Key(KeyCode::KeyA)),
        k.bind_of(PlayerAction::MoveRight) == Some(BindCode::Key(KeyCode::KeyD)),
        k.bind_of(PlayerAction::Jump) == Some(BindCode::Key(KeyCode::Space)),
        k.bind_of(PlayerAction::Shoot) == Some(BindCode::Mouse(MouseButton::Left)),
        k.bind_of(PlayerAction::Reload) == Some(BindCode::Key(KeyCode::KeyR)),
        k.bind_of(PlayerAction::Pause) == Some(BindCode::Key(KeyCode::Escape)),
        k.bind_of(PlayerAction::Scoreboard) == Some(BindCode::Key(KeyCode::Tab)),
        forall|a: PlayerAction, b: PlayerAction| a != b ==> #[trigger] k.bind_of(a) != #[trigger] k.bind_of(b),
{
    assert(k.bind_of(PlayerAction::MoveForward) == Some(default_bind(PlayerAction::MoveForward)));
    assert(k.bind_of(PlayerAction::MoveBack) == Some(default_bind(PlayerAction::MoveBack)));
    assert(k.bind_of(PlayerAction::MoveLeft) == Some(default_bind(PlayerAction::MoveLeft)));
    assert(k.bind_of(PlayerAction::MoveRight) == Some(default_bind(PlayerAction::MoveRight)));
    assert(k.bind_of(PlayerAction::Jump) == Some(default_bind(PlayerAction::Jump)));
    assert(k.bind_of(PlayerAction::Shoot) == Some(default_bind(PlayerAction::Shoot)));
    assert(k.bind_of(PlayerAction::Reload) == Some(default_bind(PlayerAction::Reload)));
    assert(k.bind_of(PlayerAction::Pause) == Some(default_bind(PlayerAction::Pause)));
    assert(k.bind_of(PlayerAction::Scoreboard) == Some(default_bind(PlayerAction::Scoreboard)));
}

proof fn lemma_base256_digit(d: int, r: int)
    requires
        0 <= d < 256,
    ensures
        (d + 256 * r) % 256 == d,
        (d + 256 * r) / 256 == r,
{
    vstd::arithmetic::div_mod::lemma_fundamental_div_mod_converse(d + 256 * r, 256, r, d);
}

/// The little-endian value of eight bytes, nested: `b0 + 256 * (b1 + 256 * ...)`.
pub open spec fn le_nested(b: [u8; 8]) -> int {
    b[0] as int + 256 * (b[1] as int + 256 * (b[2] as int + 256 * (b[3] as int + 256 * (b[4] as int
        + 256 * (b[5] as int + 256 * (b[6] as int + 256 * b[7] as int))))))
}

proof fn lemma_le_nested(b: [u8; 8])
    ensures
        le_u64(b) as int == le_nested(b),
{
    let s = b[0] as int + b[1] as int * 0x100 + b[2] as int * 0x1_0000 + b[3] as int * 0x100_0000
        + b[4] as int * 0x1_0000_0000 + b[5] as int * 0x100_0000_0000 + b[6] as int
        * 0x1_0000_0000_0000 + b[7] as int * 0x100_0000_0000_0000;
    assert(s == le_nested(b));
    assert(0 <= s <= 0xffff_ffff_ffff_ffff);
}

/// Network ids are the little-endian value of the bytes the random source
/// gives (`generate_client_id`, through `u64_from_le_bytes`): different
/// bytes always give different ids, and every id is the value of some
/// bytes, so the conversion loses nothing of the randomness.
pub proof fn law_client_id_from_bytes(b: [u8; 8], c: [u8; 8], id: u64)
    ensures
        le_u64(b) == le_u64(c) ==> b@ == c@,
        exists|d: [u8; 8]| le_u64(d) == id,
{
    lemma_le_nested(b);
    lemma_le_nested(c);
    if le_u64(b) == le_u64(c) {
        let rb7 = b[7] as int;
        let rb6 = b[6] as int + 256 * rb7;
        let rb5 = b[5] as int + 256 * rb6;
        let rb4 = b[4] as int + 256 * rb5;
        let rb3 = b[3] as int + 256 * rb4;
        let rb2 = b[2] as int + 256 * rb3;
        let rb1 = b[1] as int + 256 * rb2;
        let rc7 = c[7] as int;
        let rc6 = c[6] as int + 256 * rc7;
        let rc5 = c[5] as int + 256 * rc6;
        let rc4 = c[4] as int + 256 * rc5;
        let rc3 = c[3] as int + 256 * rc4;
        let rc2 = c[2] as int + 256 * rc3;
        let rc1 = c[1] as int + 256 * rc2;
        lemma_base256_digit(b[0] as int, rb1);
        lemma_base256_digit(c[0] as int, rc1);
        lemma_base256_digit(b[1] as int, rb2);
        lemma_base256_digit(c[1] as int, rc2);
        lemma_base256_digit(b[2] as int, rb3);
        lemma_base256_digit(c[2] as int, rc3);
        lemma_base256_digit(b[3] as int, rb4);
        lemma_base256_digit(c[3] as int, rc4);
        lemma_base256_digit(b[4] as int, rb5);
        lemma_base256_digit(c[4] as int, rc5);
        lemma_base256_digit(b[5] as int, rb6);
        lemma_base256_digit(c[5] as int, rc6);
        lemma_base256_digit(b[6] as int, rb7);
        lemma_base256_digit(c[6] as int, rc7);
        assert(b[0] == c[0] && b[1] == c[1] && b[2] == c[2] && b[3] == c[3]);
        assert(b[4] == c[4] && b[5] == c[5] && b[6] == c[6] && b[7] == c[7]);
        assert(b@ =~= c@);
    }
    let x = id as int;
    let q1 = x / 256;
    let q2 = q1 / 256;
    let q3 = q2 / 256;
    let q4 = q3 / 256;
    let q5 = q4 / 256;
    let q6 = q5 / 256;
    let q7 = q6 / 256;
    let q8 = q7 / 256;
    vstd::arithmetic::div_mod::lemma_fundamental_div_mod(x, 256);
    vstd::arithmetic::div_mod::lemma_fundamental_div_mod(q1, 256);
    vstd::arithmetic::div_mod::lemma_fundamental_div_mod(q2, 256);
    vstd::arithmetic::div_mod::lemma_fundamental_div_mod(q3, 256);
    vstd::arithmetic::div_mod::lemma_fundamental_div_mod(q4, 256);
    vstd::arithmetic::div_mod::lemma_fundamental_div_mod(q5, 256);
    vstd::arithmetic::div_mod::lemma_fundamental_div_mod(q6, 256);
    vstd::arithmetic::div_mod::lemma_fundamental_div_mod(q7, 256);
    assert(q1 >= 0 && q2 >= 0 && q3 >= 0 && q4 >= 0 && q5 >= 0 && q6 >= 0 && q7 >= 0 && q8 >= 0);
    assert(q8 == 0);
    let d: [u8; 8] = [
        (x % 256) as u8,
        (q1 % 256) as u8,
        (q2 % 256) as u8,
        (q3 % 256) as u8,
        (q4 % 256) as u8,
        (q5 % 256) as u8,
        (q6 % 256) as u8,
        (q7 % 256) as u8,
    ];
    assert(d@ =~= seq![
        (x % 256) as u8,
        (q1 % 256) as u8,
        (q2 % 256) as u8,
        (q3 % 256) as u8,
        (q4 % 256) as u8,
        (q5 % 256) as u8,
        (q6 % 256) as u8,
        (q7 % 256) as u8,
    ]);
    lemma_le_nested(d);
    assert(le_nested(d) == x);
    assert(le_u64(d) == id);
}

/// The position among `n` spawn points that the random value `v` picks.
pub open spec fn spawn_slot(n: int, v: u64) -> int {
    v as int % n
}

/// The spawn point a random value picks (`spawn_point_at`, used by
/// `pick_spawn_point`) is entry `r % len`: every point is picked by some
/// random value, and values that differ by a multiple of the number of
/// points pick the same point.
pub proof fn law_spawn_choice(n: int, r: u64, k: u64, i: int)
    requires
        n > 0,
        0 <= i < n,
        n <= u64::MAX,
    ensures
        exists|v: u64| #[trigger] spawn_slot(n, v) == i,
        0 <= spawn_slot(n, r) < n,
        r as int + k as int * n <= u64::MAX ==> spawn_slot(n, (r as int + k as int * n) as u64)
            == spawn_slot(n, r),
{
    let v = i as u64;
    vstd::arithmetic::div_mod::lemma_small_mod(i as nat, n as nat);
    assert(spawn_slot(n, v) == i);
    vstd::arithmetic::div_mod::lemma_mod_multiples_vanish(k as int, r as int, n);
    vstd::arithmetic::div_mod::lemma_mod_bound(r as int, n);
    assert(r as int + k as int * n == k as int * n + r as int);
}

} // verus!
