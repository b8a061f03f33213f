use vstd::prelude::*;

use crate::actions::{
    is_protocol_error, is_send, is_warning, Action, Destination, HWServerMessage, NOT_ROOM_MASTER,
    NOT_TEAM_OWNER, ROOM_EXISTS,
};
use crate::inroom::{
    add_team_post, engine_message_post, is_engine_forward, lemma_framing_independent,
    other_rooms_kept, remove_team_post, room_of, set_hedgehogs_post,
    toggle_ready_post, with_team_removed,
};
use crate::engine::{
    base64_decoded, base64_encoded, is_framed, is_valid_record, joined,
    lemma_valid_records_forwarded,
};
use crate::lobby::lobby_actions;
use crate::model::{
    has_team_named, is_first_team_named, lemma_owned_count_bound, lemma_ready_count_bound,
    lemma_ready_count_update, owned_count, owned_team_color, ready_count, room_added, HWClient,
    HWRoom, HWServer, TeamInfo, MAX_HEDGEHOGS_PER_TEAM,
};
use crate::names::is_legal_name;
use crate::protocol::HWProtocolMessage;

verus! {

/// Once a room is created under a legal name, creating another under the
/// same name is refused with a warning and asks for no room.
pub proof fn lemma_room_name_stays_unique(
    s: HWServer,
    t: HWServer,
    cid: usize,
    name: String,
    password: Option<String>,
    name2: String,
    password2: Option<String>,
    pick: usize,
    r1: Seq<Action>,
    r2: Seq<Action>,
)
    requires
        s.wf(),
        cid < s.clients@.len(),
        is_legal_name(name@),
        !s.has_room_named(name@),
        lobby_actions(s, cid, HWProtocolMessage::CreateRoom(name, password), pick, r1),
        room_added(s, t, name@),
        name2@ == name@,
        lobby_actions(t, cid, HWProtocolMessage::CreateRoom(name2, password2), pick, r2),
    ensures
        r1[0] == Action::AddRoom(name, password),
        r2.len() == 1,
        is_warning(r2[0], ROOM_EXISTS@),
{
    assert(t.rooms@[t.rooms@.len() - 1].name@ == name@);
    assert(t.has_room_named(name2@));
}

/// Toggling ready keeps every room's ready count equal to the number of its
/// ready clients.
pub proof fn lemma_toggle_ready_keeps_count(s: HWServer, t: HWServer, cid: usize, r: Seq<Action>)
    requires
        s.wf(),
        cid < s.clients@.len(),
        toggle_ready_post(s, t, cid, r),
    ensures
        forall|j: int|
            0 <= j < t.rooms@.len() ==> (#[trigger] t.rooms@[j]).ready_players_number == ready_count(
                t.clients@,
                j as usize,
            ),
{
    if let Some(rid) = room_of(s, cid) {
        let c = s.clients@[cid as int];
        let c2 = HWClient { is_ready: !c.is_ready, ..c };
        lemma_ready_count_bound(t.clients@, rid);
        assert forall|j: int| 0 <= j < t.rooms@.len() implies (#[trigger] t.rooms@[j]).ready_players_number
            == ready_count(t.clients@, j as usize) by {
            lemma_ready_count_update(s.clients@, cid as int, c2, j as usize);
            assert(s.rooms@[j].ready_players_number == ready_count(s.clients@, j as usize));
            if j != rid {
                assert(t.rooms@[j] == s.rooms@[j]);
            }
        }
    } else {
        assert forall|j: int| 0 <= j < t.rooms@.len() implies (#[trigger] t.rooms@[j]).ready_players_number
            == ready_count(t.clients@, j as usize) by {
            assert(s.rooms@[j].ready_players_number == ready_count(s.clients@, j as usize));
        }
    }
}

/// Adding a team and then removing it: the sender plays one team more, in
/// the new team's color, and then as many as before, in the color of its
/// first remaining team, and the room holds its former teams again.
pub proof fn lemma_add_then_remove_team(
    s: HWServer,
    t: HWServer,
    u: HWServer,
    cid: usize,
    info: TeamInfo,
    name: String,
    r1: Seq<Action>,
    r2: Seq<Action>,
)
    requires
        s.wf(),
        cid < s.clients@.len(),
        room_of(s, cid) is Some,
        s.rooms@[room_of(s, cid)->0 as int].teams@.len() < s.rooms@[room_of(s, cid)->0 as int].team_limit,
        s.rooms@[room_of(s, cid)->0 as int].spec_addable_hedgehogs() > 0,
        !has_team_named(s.rooms@[room_of(s, cid)->0 as int].teams@, info.name@),
        s.rooms@[room_of(s, cid)->0 as int].game_info is None,
        add_team_post(s, t, cid, info, r1),
        name@ == info.name@,
        remove_team_post(t, u, cid, name@, r2),
    ensures
        t.clients@[cid as int].teams_in_game == s.clients@[cid as int].teams_in_game + 1,
        t.clients@[cid as int].clan == Some(t.rooms@[room_of(s, cid)->0 as int].teams@.last().1.color),
        u.clients@[cid as int].teams_in_game == s.clients@[cid as int].teams_in_game,
        u.clients@[cid as int].clan == owned_team_color(s.rooms@[room_of(s, cid)->0 as int].teams@, cid),
        u.rooms@[room_of(s, cid)->0 as int].teams@ == s.rooms@[room_of(s, cid)->0 as int].teams@,
        r2.len() == 1,
        r2[0] matches Action::RemoveTeam(n) && n@ == info.name@,
{
    let rid = room_of(s, cid)->0;
    let old_teams = s.rooms@[rid as int].teams@;
    let new_teams = t.rooms@[rid as int].teams@;
    let team = new_teams.last();
    lemma_owned_count_bound(old_teams, cid);
    assert(s.clients@[cid as int].teams_in_game == owned_count(old_teams, cid));
    assert(room_of(t, cid) == Some(rid));
    assert(new_teams[new_teams.len() - 1] == team);
    assert(has_team_named(new_teams, name@));
    let k = choose|k: int|
        is_first_team_named(new_teams, name@, k) && if new_teams[k].0 != cid {
            u == t && r2.len() == 1 && is_warning(r2[0], NOT_TEAM_OWNER@)
        } else {
            &&& other_rooms_kept(t, u, rid)
            &&& u.rooms@[rid as int] == (HWRoom { teams: u.rooms@[rid as int].teams, ..t.rooms@[rid as int] })
            &&& u.rooms@[rid as int].teams@ == new_teams.remove(k)
            &&& u.clients@ == t.clients@.update(
                cid as int,
                with_team_removed(t.clients@[cid as int], owned_team_color(new_teams.remove(k), cid)),
            )
            &&& r2.len() == 1
            &&& r2[0] matches Action::RemoveTeam(n) && n@ == name@
        };
    if k < new_teams.len() - 1 {
        assert(new_teams[k] == old_teams[k]);
    }
    assert(k == new_teams.len() - 1);
    assert(new_teams.remove(k) =~= old_teams);
}

/// A master's request for a hedgehog count outside 1 to 8, or above what the
/// room can take plus what the team holds, changes nothing and echoes the
/// team's count to the sender alone.
pub proof fn lemma_bad_hedgehog_count_echoed(
    s: HWServer,
    t: HWServer,
    cid: usize,
    name: String,
    number: u8,
    k: int,
    r: Seq<Action>,
)
    requires
        s.wf(),
        cid < s.clients@.len(),
        room_of(s, cid) is Some,
        s.clients@[cid as int].is_master,
        0 <= k < s.rooms@[room_of(s, cid)->0 as int].teams@.len(),
        s.rooms@[room_of(s, cid)->0 as int].teams@[k].1.name@ == name@,
        number < 1 || number > MAX_HEDGEHOGS_PER_TEAM || number
            > s.rooms@[room_of(s, cid)->0 as int].spec_addable_hedgehogs()
            + s.rooms@[room_of(s, cid)->0 as int].teams@[k].1.hedgehogs_number,
        set_hedgehogs_post(s, t, cid, name@, number, r),
    ensures
        t == s,
        r.len() == 1,
        is_send(
            r[0],
            Destination::ToSelf,
            HWServerMessage::HedgehogsNumber(
                s.rooms@[room_of(s, cid)->0 as int].teams@[k].1.name,
                s.rooms@[room_of(s, cid)->0 as int].teams@[k].1.hedgehogs_number,
            ),
        ),
{
    let teams = s.rooms@[room_of(s, cid)->0 as int].teams@;
    assert(s.rooms@[room_of(s, cid)->0 as int].wf());
    assert(has_team_named(teams, name@));
    assert forall|j: int| 0 <= j < k implies (#[trigger] teams[j]).1.name@ != name@ by {
        assert(teams[j].1.name@ != teams[k].1.name@);
    }
    assert(is_first_team_named(teams, name@, k));
    let k2 = choose|k2: int| is_first_team_named(teams, name@, k2) && {
        let (owner, team) = teams[k2];
        if !s.clients@[cid as int].is_master {
            t == s && r.len() == 1 && is_protocol_error(r[0], NOT_ROOM_MASTER@)
        } else if number < 1 || number > MAX_HEDGEHOGS_PER_TEAM || number
            > s.rooms@[room_of(s, cid)->0 as int].spec_addable_hedgehogs() + team.hedgehogs_number {
            &&& t == s
            &&& r.len() == 1
            &&& is_send(
                r[0],
                Destination::ToSelf,
                HWServerMessage::HedgehogsNumber(team.name, team.hedgehogs_number),
            )
        } else {
            false
        }
    };
    assert(k2 == k);
}

/// A batch that decodes to one or more framed records, all valid for the
/// sender, is forwarded whole to the rest of the room, encoded again.
pub proof fn lemma_engine_batch_forwarded(
    s: HWServer,
    t: HWServer,
    cid: usize,
    em: String,
    rs: Seq<Seq<u8>>,
    r: Seq<Action>,
)
    requires
        s.wf(),
        cid < s.clients@.len(),
        room_of(s, cid) is Some,
        s.clients@[cid as int].teams_in_game > 0,
        rs.len() >= 1,
        forall|i: int|
            0 <= i < rs.len() ==> is_framed(#[trigger] rs[i]) && is_valid_record(
                rs[i],
                s.clients@[cid as int].team_indices@,
            ),
        base64_decoded(em@) == Some(joined(rs)),
        engine_message_post(s, t, cid, em@, r),
    ensures
        r.len() == 1,
        is_engine_forward(r[0], room_of(s, cid)->0, base64_encoded(joined(rs))),
{
    let ti = s.clients@[cid as int].team_indices@;
    lemma_valid_records_forwarded(rs, ti);
    lemma_framing_independent(joined(rs), ti);
    assert(is_valid_record(rs[0], ti));
    assert(joined(rs) == rs[0] + joined(rs.subrange(1, rs.len() as int)));
    assert(joined(rs).len() > 0);
}

} // verus!
