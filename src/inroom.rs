use vstd::prelude::*;
use vstd::string::StringExecFns;

use crate::actions::{
    is_chat_send, is_flags_send, is_move_to_lobby, is_protocol_error, is_send, is_team_removal, is_warning,
    protocol_error, send_all, send_self, warn, Action, Destination, HWServerMessage,
    ILLEGAL_ROOM_NAME, MALFORMED_ENGINE_MESSAGE, NOT_ROOM_MASTER, NOT_TEAM_OWNER, NO_SUCH_TEAM, NO_TEAM_TO_REMOVE,
    ROOM_EXISTS, ROUND_IN_PROGRESS, TEAM_EXISTS, TOO_MANY_HEDGEHOGS, TOO_MANY_TEAMS,
};
use crate::model::{
    added_hedgehogs, has_team_named, is_first_free_color, is_first_team_named,
    config_set, lemma_owned_count_bound, lemma_owned_count_remove, lemma_owned_count_update,
    lemma_ready_count_bound, lemma_ready_count_update, lemma_teams_counted_kept,
    lemma_total_remove, lemma_total_update, owned_count, owned_team_color, teams_counted, GameCfg,
    MAX_HEDGEHOGS_PER_TEAM, ready_count, HWClient, HWRoom, HWServer, TeamInfo,
};
use crate::engine::{base64_decoded, base64_encoded, decode_base64, encode_base64, filter_records, kept_records};
use crate::common::{chosen, rnd_reply, RANDOM_NICK};
use crate::names::{is_legal_name, is_name_illegal};
use crate::protocol::HWProtocolMessage;

verus! {

/// The room that client `cid` is in.
pub open spec fn room_of(s: HWServer, cid: usize) -> Option<usize> {
    s.clients@[cid as int].room_id
}

/// The rooms of `t` are those of `s`, but for room `rid`.
pub open spec fn other_rooms_kept(s: HWServer, t: HWServer, rid: usize) -> bool {
    &&& t.rooms@.len() == s.rooms@.len()
    &&& forall|j: int| 0 <= j < s.rooms@.len() && j != rid ==> t.rooms@[j] == s.rooms@[j]
}

/// `t` differs from `s` at most in room `rid`.
pub open spec fn only_room_changed(s: HWServer, t: HWServer, rid: usize) -> bool {
    &&& t.clients@ == s.clients@
    &&& other_rooms_kept(s, t, rid)
}

/// `t` differs from `s` at most in client `cid`.
pub open spec fn only_client_changed(s: HWServer, t: HWServer, cid: usize) -> bool {
    &&& t.rooms@ == s.rooms@
    &&& t.clients@.len() == s.clients@.len()
    &&& forall|i: int| 0 <= i < s.clients@.len() && i != cid ==> t.clients@[i] == s.clients@[i]
}

/// When no client changes room or team count and no room changes its
/// teams, each client still plays as many teams as it owns.
proof fn lemma_counts_kept(s: HWServer, t: HWServer)
    requires
        s.wf(),
        t.clients@.len() == s.clients@.len(),
        forall|i: int|
            0 <= i < s.clients@.len() ==> (#[trigger] t.clients@[i]).room_id == s.clients@[i].room_id
                && t.clients@[i].teams_in_game == s.clients@[i].teams_in_game,
        t.rooms@.len() == s.rooms@.len(),
        forall|j: int| 0 <= j < s.rooms@.len() ==> (#[trigger] t.rooms@[j]).teams == s.rooms@[j].teams,
    ensures
        teams_counted(t.clients@, t.rooms@),
{
    assert forall|j: int, o: usize| 0 <= j < s.rooms@.len() implies #[trigger] owned_count(t.rooms@[j].teams@, o) == owned_count(s.rooms@[j].teams@, o) by {
        assert(t.rooms@[j].teams == s.rooms@[j].teams);
    }
    assert forall|i: int| 0 <= i < s.clients@.len() implies match (#[trigger] s.clients@[i]).room_id {
        Some(r) => r < s.rooms@.len(),
        None => true,
    } by {}
    lemma_teams_counted_kept(s.clients@, s.rooms@, t.clients@, t.rooms@);
}

/// The reason given when a client leaves its room.
pub open spec fn part_reason(msg: Option<String>) -> Seq<char> {
    match msg {
        None => "part"@,
        Some(m) => "part: "@ + m@,
    }
}

fn part(msg: Option<String>) -> (r: Vec<Action>)
    ensures
        r@.len() == 1,
        is_move_to_lobby(r@[0], part_reason(msg)),
{
    let reason = match msg {
        None => "part".to_owned(),
        Some(m) => {
            let mut reason = "part: ".to_owned();
            reason.append(m.as_str());
            reason
        },
    };
    vec![Action::MoveToLobby(reason)]
}

/// What `Chat` returns: the line for the rest of the sender's room.
pub open spec fn chat_actions(s: HWServer, cid: usize, msg: String, r: Seq<Action>) -> bool {
    match room_of(s, cid) {
        None => r.len() == 0,
        Some(rid) => r.len() == 1 && is_send(
            r[0],
            Destination::ToAll { room_id: Some(rid), skip_self: true },
            HWServerMessage::ChatMsg { nick: s.clients@[cid as int].nick, msg },
        ),
    }
}

fn chat(server: &HWServer, client_id: usize, msg: String) -> (r: Vec<Action>)
    requires
        server.wf(),
        client_id < server.clients@.len(),
    ensures
        chat_actions(*server, client_id, msg, r@),
{
    match server.clients[client_id].room_id {
        None => Vec::new(),
        Some(rid) => {
            let chat_msg = HWServerMessage::ChatMsg { nick: server.clients[client_id].nick.clone(), msg };
            vec![send_all(chat_msg, Some(rid), true)]
        },
    }
}

/// What `RoomName` does: an illegal or taken name is refused with a
/// warning; otherwise the sender's room takes the name and the old one is
/// announced.
pub open spec fn room_name_post(s: HWServer, t: HWServer, cid: usize, name: Seq<char>, r: Seq<Action>) -> bool {
    if !is_legal_name(name) {
        t == s && r.len() == 1 && is_warning(r[0], ILLEGAL_ROOM_NAME@)
    } else if s.has_room_named(name) {
        t == s && r.len() == 1 && is_warning(r[0], ROOM_EXISTS@)
    } else {
        match room_of(s, cid) {
            None => t == s && r.len() == 0,
            Some(rid) => {
                &&& only_room_changed(s, t, rid)
                &&& t.rooms@[rid as int].name@ == name
                &&& t.rooms@[rid as int].teams == s.rooms@[rid as int].teams
                &&& t.rooms@[rid as int].ready_players_number == s.rooms@[rid as int].ready_players_number
                &&& t.rooms@[rid as int].id == s.rooms@[rid as int].id
                &&& t.rooms@[rid as int].config == s.rooms@[rid as int].config
                &&& t.rooms@[rid as int].game_info == s.rooms@[rid as int].game_info
                &&& t.rooms@[rid as int].protocol_number == s.rooms@[rid as int].protocol_number
                &&& r.len() == 1
                &&& r[0] == Action::SendRoomUpdate(Some(s.rooms@[rid as int].name))
            },
        }
    }
}

fn room_name(server: &mut HWServer, client_id: usize, new_name: String) -> (r: Vec<Action>)
    requires
        old(server).wf(),
        client_id < old(server).clients@.len(),
    ensures
        final(server).wf(),
        room_name_post(*old(server), *final(server), client_id, new_name@, r@),
{
    if is_name_illegal(new_name.as_str()) {
        vec![warn(ILLEGAL_ROOM_NAME)]
    } else if server.has_room(&new_name) {
        vec![warn(ROOM_EXISTS)]
    } else {
        match server.clients[client_id].room_id {
            None => Vec::new(),
            Some(rid) => {
                let ghost s = *server;
                let mut old_name = new_name;
                std::mem::swap(&mut server.rooms[rid].name, &mut old_name);
                proof {
                    assert forall|j1: int, j2: int|
                        0 <= j1 < server.rooms@.len() && 0 <= j2 < server.rooms@.len() && j1 != j2 implies (
                        #[trigger] server.rooms@[j1]).name@ != (#[trigger] server.rooms@[j2]).name@ by {
                        if j1 != rid {
                            assert(server.rooms@[j1] == s.rooms@[j1]);
                        }
                        if j2 != rid {
                            assert(server.rooms@[j2] == s.rooms@[j2]);
                        }
                    }
                    assert forall|j: int| 0 <= j < server.rooms@.len() && j != rid implies server.rooms@[j]
                        == s.rooms@[j] by {}
                }
                proof {
                    lemma_counts_kept(s, *server);
                }
                vec![Action::SendRoomUpdate(Some(old_name))]
            },
        }
    }
}

/// What `ToggleReady` does: the sender's ready flag flips, its room's ready
/// count follows, and the room hears of it.
pub open spec fn toggle_ready_post(s: HWServer, t: HWServer, cid: usize, r: Seq<Action>) -> bool {
    match room_of(s, cid) {
        None => t == s && r.len() == 0,
        Some(rid) => {
            let c = s.clients@[cid as int];
            &&& t.clients@ == s.clients@.update(cid as int, HWClient { is_ready: !c.is_ready, ..c })
            &&& t.rooms@.len() == s.rooms@.len()
            &&& forall|j: int| 0 <= j < s.rooms@.len() && j != rid ==> t.rooms@[j] == s.rooms@[j]
            &&& t.rooms@[rid as int] == (HWRoom {
                ready_players_number: if c.is_ready {
                    (s.rooms@[rid as int].ready_players_number - 1) as usize
                } else {
                    (s.rooms@[rid as int].ready_players_number + 1) as usize
                },
                ..s.rooms@[rid as int]
            })
            &&& r.len() == 1
            &&& is_flags_send(
                r[0],
                Destination::ToAll { room_id: Some(rid), skip_self: false },
                if c.is_ready { "-r"@ } else { "+r"@ },
                seq![c.nick],
            )
        },
    }
}

fn toggle_ready(server: &mut HWServer, client_id: usize) -> (r: Vec<Action>)
    requires
        old(server).wf(),
        client_id < old(server).clients@.len(),
    ensures
        final(server).wf(),
        toggle_ready_post(*old(server), *final(server), client_id, r@),
{
    match server.clients[client_id].room_id {
        None => Vec::new(),
        Some(rid) => {
            let ghost s = *server;
            let was_ready = server.clients[client_id].is_ready;
            let n_clients = server.clients.len();
            let ghost c2 = HWClient { is_ready: !was_ready, ..s.clients@[client_id as int] };
            let ghost cs2 = s.clients@.update(client_id as int, c2);
            proof {
                lemma_ready_count_update(s.clients@, client_id as int, c2, rid);
                lemma_ready_count_bound(cs2, rid);
                assert(ready_count(cs2, rid) <= n_clients);
            }
            let flags = if was_ready {
                server.rooms[rid].ready_players_number = server.rooms[rid].ready_players_number - 1;
                "-r".to_owned()
            } else {
                server.rooms[rid].ready_players_number = server.rooms[rid].ready_players_number + 1;
                "+r".to_owned()
            };
            server.clients[client_id].is_ready = !was_ready;
            proof {
                assert(server.clients@ =~= cs2);
                assert forall|j: int| 0 <= j < server.rooms@.len() implies {
                    &&& (#[trigger] server.rooms@[j]).id == j
                    &&& server.rooms@[j].wf()
                    &&& server.rooms@[j].ready_players_number == ready_count(server.clients@, j as usize)
                    &&& forall|k: int|
                        0 <= k < server.rooms@[j].teams@.len() ==> (#[trigger] server.rooms@[j].teams@[k]).0
                            < server.clients@.len()
                } by {
                    lemma_ready_count_update(s.clients@, client_id as int, c2, j as usize);
                    if j != rid {
                        assert(server.rooms@[j] == s.rooms@[j]);
                    }
                }
                assert forall|j1: int, j2: int|
                    0 <= j1 < server.rooms@.len() && 0 <= j2 < server.rooms@.len() && j1 != j2 implies (
                    #[trigger] server.rooms@[j1]).name@ != (#[trigger] server.rooms@[j2]).name@ by {
                    if j1 != rid {
                        assert(server.rooms@[j1] == s.rooms@[j1]);
                    }
                    if j2 != rid {
                        assert(server.rooms@[j2] == s.rooms@[j2]);
                    }
                }
            }
            proof {
                lemma_counts_kept(s, *server);
            }
            let nicks = vec![server.clients[client_id].nick.clone()];
            assert(nicks@ =~= seq![s.clients@[client_id as int].nick]);
            vec![send_all(HWServerMessage::ClientFlags(flags, nicks), Some(rid), false)]
        },
    }
}

/// What `StartGame` returns: a request to start the sender's room's round.
pub open spec fn start_game_actions(s: HWServer, cid: usize, r: Seq<Action>) -> bool {
    match room_of(s, cid) {
        None => r.len() == 0,
        Some(rid) => r.len() == 1 && r[0] == Action::StartRoomGame(rid),
    }
}

fn start_game(server: &HWServer, client_id: usize) -> (r: Vec<Action>)
    requires
        client_id < server.clients@.len(),
    ensures
        start_game_actions(*server, client_id, r@),
{
    match server.clients[client_id].room_id {
        None => Vec::new(),
        Some(rid) => vec![Action::StartRoomGame(rid)],
    }
}

/// The names of the teams of `teams` owned by `owner`, in order.
pub open spec fn owned_team_names(teams: Seq<(usize, TeamInfo)>, owner: usize) -> Seq<Seq<char>>
    decreases teams.len(),
{
    if teams.len() == 0 {
        Seq::empty()
    } else if teams.last().0 == owner {
        owned_team_names(teams.drop_last(), owner).push(teams.last().1.name@)
    } else {
        owned_team_names(teams.drop_last(), owner)
    }
}

/// What `RoundFinished` does: a sender in game leaves the game, the room
/// hears of it, and while a round runs each of the sender's teams is
/// announced as removed. Otherwise nothing happens.
pub open spec fn round_finished_post(s: HWServer, t: HWServer, cid: usize, r: Seq<Action>) -> bool {
    let c = s.clients@[cid as int];
    match room_of(s, cid) {
        Some(rid) if c.is_in_game => {
            let names = if s.rooms@[rid as int].game_info is Some {
                owned_team_names(s.rooms@[rid as int].teams@, cid)
            } else {
                Seq::empty()
            };
            &&& t.rooms@ == s.rooms@
            &&& t.clients@ == s.clients@.update(cid as int, HWClient { is_in_game: false, ..c })
            &&& r.len() == 1 + names.len()
            &&& is_flags_send(
                r[0],
                Destination::ToAll { room_id: Some(rid), skip_self: false },
                "-g"@,
                seq![c.nick],
            )
            &&& forall|k: int|
                0 <= k < names.len() ==> is_team_removal(#[trigger] r[1 + k], names[k])
        },
        _ => t == s && r.len() == 0,
    }
}

fn round_finished(server: &mut HWServer, client_id: usize) -> (r: Vec<Action>)
    requires
        old(server).wf(),
        client_id < old(server).clients@.len(),
    ensures
        final(server).wf(),
        round_finished_post(*old(server), *final(server), client_id, r@),
{
    let mut actions: Vec<Action> = Vec::new();
    match server.clients[client_id].room_id {
        None => {},
        Some(rid) => {
            if server.clients[client_id].is_in_game {
                let ghost s = *server;
                let ghost c2 = HWClient { is_in_game: false, ..s.clients@[client_id as int] };
                server.clients[client_id].is_in_game = false;
                proof {
                    assert(server.clients@ =~= s.clients@.update(client_id as int, c2));
                    assert forall|j: int| 0 <= j < server.rooms@.len() implies (#[trigger] server.rooms@[j]).ready_players_number
                        == ready_count(server.clients@, j as usize) by {
                        lemma_ready_count_update(s.clients@, client_id as int, c2, j as usize);
                    }
                }
                proof {
                    lemma_counts_kept(s, *server);
                }
                let nicks = vec![server.clients[client_id].nick.clone()];
                assert(nicks@ =~= seq![s.clients@[client_id as int].nick]);
                actions.push(send_all(HWServerMessage::ClientFlags("-g".to_owned(), nicks), Some(rid), false));
                if server.rooms[rid].game_info.is_some() {
                    let room = &server.rooms[rid];
                    let mut i: usize = 0;
                    while i < room.teams.len()
                        invariant
                            i <= room.teams@.len(),
                            actions@.len() == 1 + owned_team_names(room.teams@.take(i as int), client_id).len(),
                            is_flags_send(
                                actions@[0],
                                Destination::ToAll { room_id: Some(rid), skip_self: false },
                                "-g"@,
                                seq![s.clients@[client_id as int].nick],
                            ),
                            forall|k: int|
                                0 <= k < owned_team_names(room.teams@.take(i as int), client_id).len() ==> is_team_removal(
                                    #[trigger] actions@[1 + k],
                                    owned_team_names(room.teams@.take(i as int), client_id)[k],
                                ),
                        decreases room.teams@.len() - i,
                    {
                        proof {
                            assert(room.teams@.take(i + 1).drop_last() =~= room.teams@.take(i as int));
                        }
                        if room.teams[i].0 == client_id {
                            actions.push(Action::SendTeamRemovalMessage(room.teams[i].1.name.clone()));
                        }
                        i += 1;
                    }
                    proof {
                        assert(room.teams@.take(i as int) =~= room.teams@);
                    }
                }
            }
        },
    }
    actions
}

/// `c` with one more team in game and clan `clan`.
pub open spec fn with_team_added(c: HWClient, clan: u8) -> HWClient {
    HWClient {
        teams_in_game: (c.teams_in_game + 1) as u8,
        clan: Some(clan),
        ..c
    }
}

/// `c` with one team fewer in game and clan `clan`.
pub open spec fn with_team_removed(c: HWClient, clan: Option<u8>) -> HWClient {
    HWClient {
        teams_in_game: (c.teams_in_game - 1) as u8,
        clan,
        ..c
    }
}

/// What `AddTeam` does: refused with a warning when the room is full of
/// teams or of hedgehogs, holds a team of that name, or plays a round;
/// otherwise the team joins the room under the sender and is announced.
pub open spec fn add_team_post(s: HWServer, t: HWServer, cid: usize, info: TeamInfo, r: Seq<Action>) -> bool {
    match room_of(s, cid) {
        None => t == s && r.len() == 0,
        Some(rid) => {
            let room = s.rooms@[rid as int];
            if room.teams@.len() >= room.team_limit {
                t == s && r.len() == 1 && is_warning(r[0], TOO_MANY_TEAMS@)
            } else if room.spec_addable_hedgehogs() == 0 {
                t == s && r.len() == 1 && is_warning(r[0], TOO_MANY_HEDGEHOGS@)
            } else if has_team_named(room.teams@, info.name@) {
                t == s && r.len() == 1 && is_warning(r[0], TEAM_EXISTS@)
            } else if room.game_info is Some {
                t == s && r.len() == 1 && is_warning(r[0], ROUND_IN_PROGRESS@)
            } else {
                let team = t.rooms@[rid as int].teams@.last().1;
                let c = s.clients@[cid as int];
                &&& other_rooms_kept(s, t, rid)
                &&& t.rooms@[rid as int] == (HWRoom { teams: t.rooms@[rid as int].teams, ..room })
                &&& t.rooms@[rid as int].teams@ == room.teams@.push((cid, team))
                &&& team == (TeamInfo { color: team.color, hedgehogs_number: added_hedgehogs(room), ..info })
                &&& is_first_free_color(room.teams@, team.color)
                &&& t.clients@ == s.clients@.update(cid as int, with_team_added(c, team.color))
                &&& r.len() == 5
                &&& is_send(r[0], Destination::ToSelf, HWServerMessage::TeamAccepted(team.name))
                &&& is_send(
                    r[1],
                    Destination::ToAll { room_id: Some(rid), skip_self: true },
                    HWServerMessage::TeamAdd(c.nick, team),
                )
                &&& is_send(
                    r[2],
                    Destination::ToAll { room_id: Some(rid), skip_self: false },
                    HWServerMessage::TeamColor(team.name, team.color),
                )
                &&& is_send(
                    r[3],
                    Destination::ToAll { room_id: Some(rid), skip_self: false },
                    HWServerMessage::HedgehogsNumber(team.name, team.hedgehogs_number),
                )
                &&& r[4] == Action::SendRoomUpdate(None)
            }
        },
    }
}

fn add_team(server: &mut HWServer, client_id: usize, info: TeamInfo) -> (r: Vec<Action>)
    requires
        old(server).wf(),
        client_id < old(server).clients@.len(),
    ensures
        final(server).wf(),
        add_team_post(*old(server), *final(server), client_id, info, r@),
{
    let rid = match server.clients[client_id].room_id {
        None => return Vec::new(),
        Some(rid) => rid,
    };
    if server.rooms[rid].teams.len() >= server.rooms[rid].team_limit as usize {
        vec![warn(TOO_MANY_TEAMS)]
    } else if server.rooms[rid].addable_hedgehogs() == 0 {
        vec![warn(TOO_MANY_HEDGEHOGS)]
    } else if server.rooms[rid].find_team(&info.name).is_some() {
        vec![warn(TEAM_EXISTS)]
    } else if server.rooms[rid].game_info.is_some() {
        vec![warn(ROUND_IN_PROGRESS)]
    } else {
        let ghost s = *server;
        proof {
            lemma_owned_count_bound(s.rooms@[rid as int].teams@, client_id);
            assert(s.clients@[client_id as int].teams_in_game == owned_count(
                s.rooms@[rid as int].teams@,
                client_id,
            ));
        }
        let k = server.rooms[rid].add_team(client_id, info);
        let team = server.rooms[rid].teams[k].1.copy();
        let tig = server.clients[client_id].teams_in_game;
        server.clients[client_id].teams_in_game = tig + 1;
        server.clients[client_id].clan = Some(team.color);
        let ghost c2 = with_team_added(s.clients@[client_id as int], team.color);
        proof {
            assert(server.rooms@[rid as int].teams@.take(k as int) == s.rooms@[rid as int].teams@);
            assert(server.rooms@[rid as int].teams@ =~= s.rooms@[rid as int].teams@.push(
                (client_id, team),
            ));
            assert(server.clients@ =~= s.clients@.update(client_id as int, c2));
            assert(server.rooms@[rid as int].teams@.drop_last() =~= s.rooms@[rid as int].teams@);
            assert forall|i: int| 0 <= i < server.clients@.len() implies (#[trigger] server.clients@[i]).teams_in_game
                == match server.clients@[i].room_id {
                Some(r) => owned_count(server.rooms@[r as int].teams@, i as usize),
                None => 0,
            } by {
                assert(s.clients@[i].teams_in_game == match s.clients@[i].room_id {
                    Some(r) => owned_count(s.rooms@[r as int].teams@, i as usize),
                    None => 0,
                });
                if let Some(r) = s.clients@[i].room_id {
                    if r != rid {
                        assert(server.rooms@[r as int] == s.rooms@[r as int]);
                    }
                }
            }
            assert forall|j: int| 0 <= j < server.rooms@.len() implies {
                &&& (#[trigger] server.rooms@[j]).id == j
                &&& server.rooms@[j].wf()
                &&& server.rooms@[j].ready_players_number == ready_count(server.clients@, j as usize)
                &&& forall|k2: int|
                    0 <= k2 < server.rooms@[j].teams@.len() ==> (#[trigger] server.rooms@[j].teams@[k2]).0
                        < server.clients@.len()
            } by {
                lemma_ready_count_update(s.clients@, client_id as int, c2, j as usize);
                if j != rid {
                    assert(server.rooms@[j] == s.rooms@[j]);
                } else {
                    assert forall|k2: int|
                        0 <= k2 < server.rooms@[j].teams@.len() implies (#[trigger] server.rooms@[j].teams@[k2]).0
                            < server.clients@.len() by {
                        if k2 < k {
                            assert(server.rooms@[j].teams@[k2] == s.rooms@[j].teams@[k2]);
                        }
                    }
                }
            }
            assert forall|j1: int, j2: int|
                0 <= j1 < server.rooms@.len() && 0 <= j2 < server.rooms@.len() && j1 != j2 implies (
                #[trigger] server.rooms@[j1]).name@ != (#[trigger] server.rooms@[j2]).name@ by {
                if j1 != rid {
                    assert(server.rooms@[j1] == s.rooms@[j1]);
                }
                if j2 != rid {
                    assert(server.rooms@[j2] == s.rooms@[j2]);
                }
            }
        }
        let nick = server.clients[client_id].nick.clone();
        let mut actions: Vec<Action> = Vec::new();
        actions.push(send_self(HWServerMessage::TeamAccepted(team.name.clone())));
        actions.push(send_all(HWServerMessage::TeamAdd(nick, team.copy()), Some(rid), true));
        actions.push(send_all(HWServerMessage::TeamColor(team.name.clone(), team.color), Some(rid), false));
        actions.push(
            send_all(
                HWServerMessage::HedgehogsNumber(team.name.clone(), team.hedgehogs_number),
                Some(rid),
                false,
            ),
        );
        actions.push(Action::SendRoomUpdate(None));
        actions
    }
}

/// What `RemoveTeam` does: refused with a warning when no team has that
/// name or the sender does not own it; otherwise the team leaves the room,
/// the sender plays one team fewer and takes the color of its first
/// remaining team, and the removal is announced.
pub open spec fn remove_team_post(s: HWServer, t: HWServer, cid: usize, name: Seq<char>, r: Seq<Action>) -> bool {
    match room_of(s, cid) {
        None => t == s && r.len() == 0,
        Some(rid) => {
            let teams = s.rooms@[rid as int].teams@;
            if !has_team_named(teams, name) {
                t == s && r.len() == 1 && is_warning(r[0], NO_TEAM_TO_REMOVE@)
            } else {
                exists|k: int|
                    #[trigger] is_first_team_named(teams, name, k) && if teams[k].0 != cid {
                        t == s && r.len() == 1 && is_warning(r[0], NOT_TEAM_OWNER@)
                    } else {
                        &&& other_rooms_kept(s, t, rid)
                        &&& t.rooms@[rid as int] == (HWRoom {
                            teams: t.rooms@[rid as int].teams,
                            ..s.rooms@[rid as int]
                        })
                        &&& t.rooms@[rid as int].teams@ == teams.remove(k)
                        &&& t.clients@ == s.clients@.update(
                            cid as int,
                            with_team_removed(s.clients@[cid as int], owned_team_color(teams.remove(k), cid)),
                        )
                        &&& r.len() == 1
                        &&& r[0] matches Action::RemoveTeam(n) && n@ == name
                    }
            }
        },
    }
}

fn remove_team(server: &mut HWServer, client_id: usize, name: String) -> (r: Vec<Action>)
    requires
        old(server).wf(),
        client_id < old(server).clients@.len(),
    ensures
        final(server).wf(),
        remove_team_post(*old(server), *final(server), client_id, name@, r@),
{
    let rid = match server.clients[client_id].room_id {
        None => return Vec::new(),
        Some(rid) => rid,
    };
    match server.rooms[rid].find_team(&name) {
        None => vec![warn(NO_TEAM_TO_REMOVE)],
        Some(k) => {
            if server.rooms[rid].teams[k].0 != client_id {
                vec![warn(NOT_TEAM_OWNER)]
            } else {
                let ghost s = *server;
                let ghost teams = s.rooms@[rid as int].teams@;
                proof {
                    lemma_owned_count_remove(teams, k as int, client_id);
                    lemma_total_remove(teams, k as int);
                    assert(s.clients@[client_id as int].teams_in_game == owned_count(teams, client_id));
                }
                let removed = server.rooms[rid].teams.remove(k);
                let clan = server.rooms[rid].find_team_color(client_id);
                let tig = server.clients[client_id].teams_in_game;
                server.clients[client_id].teams_in_game = tig - 1;
                server.clients[client_id].clan = clan;
                let ghost c2 = with_team_removed(s.clients@[client_id as int], clan);
                proof {
                    let nt = teams.remove(k as int);
                    assert(server.rooms@[rid as int].teams@ == nt);
                    assert(server.clients@ =~= s.clients@.update(client_id as int, c2));
                    assert forall|m: int| 0 <= m < nt.len() implies #[trigger] nt[m] == teams[if m < k {
                        m
                    } else {
                        m + 1
                    }] by {}
                    assert forall|i: int| 0 <= i < server.clients@.len() implies (#[trigger] server.clients@[i]).teams_in_game
                        == match server.clients@[i].room_id {
                        Some(r) => owned_count(server.rooms@[r as int].teams@, i as usize),
                        None => 0,
                    } by {
                        assert(s.clients@[i].teams_in_game == match s.clients@[i].room_id {
                            Some(r) => owned_count(s.rooms@[r as int].teams@, i as usize),
                            None => 0,
                        });
                        lemma_owned_count_remove(teams, k as int, i as usize);
                        if let Some(r) = s.clients@[i].room_id {
                            if r != rid {
                                assert(server.rooms@[r as int] == s.rooms@[r as int]);
                            }
                        }
                    }
                    assert forall|j: int| 0 <= j < server.rooms@.len() implies {
                        &&& (#[trigger] server.rooms@[j]).id == j
                        &&& server.rooms@[j].wf()
                        &&& server.rooms@[j].ready_players_number == ready_count(server.clients@, j as usize)
                        &&& forall|k2: int|
                            0 <= k2 < server.rooms@[j].teams@.len() ==> (#[trigger] server.rooms@[j].teams@[k2]).0
                                < server.clients@.len()
                    } by {
                        lemma_ready_count_update(s.clients@, client_id as int, c2, j as usize);
                        if j != rid {
                            assert(server.rooms@[j] == s.rooms@[j]);
                        } else {
                            assert forall|k2: int| 0 <= k2 < nt.len() implies 1 <= (
                            #[trigger] nt[k2]).1.hedgehogs_number <= MAX_HEDGEHOGS_PER_TEAM && nt[k2].0
                                < server.clients@.len() by {
                                assert(nt[k2] == teams[if k2 < k { k2 } else { k2 + 1 }]);
                            }
                            assert forall|k1: int, k2: int|
                                0 <= k1 < nt.len() && 0 <= k2 < nt.len() && k1 != k2 implies (
                                #[trigger] nt[k1]).1.name@ != (#[trigger] nt[k2]).1.name@ by {
                                assert(nt[k1] == teams[if k1 < k { k1 } else { k1 + 1 }]);
                                assert(nt[k2] == teams[if k2 < k { k2 } else { k2 + 1 }]);
                            }
                        }
                    }
                    assert forall|j1: int, j2: int|
                        0 <= j1 < server.rooms@.len() && 0 <= j2 < server.rooms@.len() && j1 != j2 implies (
                        #[trigger] server.rooms@[j1]).name@ != (#[trigger] server.rooms@[j2]).name@ by {
                        if j1 != rid {
                            assert(server.rooms@[j1] == s.rooms@[j1]);
                        }
                        if j2 != rid {
                            assert(server.rooms@[j2] == s.rooms@[j2]);
                        }
                    }
                    assert forall|j: int| 0 <= j < s.rooms@.len() && j != rid implies server.rooms@[j]
                        == s.rooms@[j] by {}
                    assert(removed == teams[k as int]);
                }
                let ghost removed_name = removed.1.name;
                let actions = vec![Action::RemoveTeam(removed.1.name)];
                proof {
                    assert(actions@ =~= seq![Action::RemoveTeam(removed_name)]);
                }
                actions
            }
        },
    }
}

/// What `SetHedgehogsNumber` does. An unknown team is warned of, and a
/// sender who is not the room master gets a protocol error. A count outside
/// 1 to 8, or above what the room can take plus what the team holds, leaves
/// the team as it is and echoes its count to the sender alone. Otherwise the
/// team takes the count and the rest of the room hears of it.
pub open spec fn set_hedgehogs_post(
    s: HWServer,
    t: HWServer,
    cid: usize,
    name: Seq<char>,
    number: u8,
    r: Seq<Action>,
) -> bool {
    match room_of(s, cid) {
        None => t == s && r.len() == 0,
        Some(rid) => {
            let room = s.rooms@[rid as int];
            if !has_team_named(room.teams@, name) {
                t == s && r.len() == 1 && is_warning(r[0], NO_SUCH_TEAM@)
            } else {
                exists|k: int|
                    #[trigger] is_first_team_named(room.teams@, name, k) && {
                        let (owner, team) = room.teams@[k];
                        if !s.clients@[cid as int].is_master {
                            t == s && r.len() == 1 && is_protocol_error(r[0], NOT_ROOM_MASTER@)
                        } else if number < 1 || number > MAX_HEDGEHOGS_PER_TEAM || number
                            > room.spec_addable_hedgehogs() + team.hedgehogs_number {
                            &&& t == s
                            &&& r.len() == 1
                            &&& is_send(
                                r[0],
                                Destination::ToSelf,
                                HWServerMessage::HedgehogsNumber(team.name, team.hedgehogs_number),
                            )
                        } else {
                            &&& only_room_changed(s, t, rid)
                            &&& t.rooms@[rid as int] == (HWRoom { teams: t.rooms@[rid as int].teams, ..room })
                            &&& t.rooms@[rid as int].teams@ == room.teams@.update(
                                k,
                                (owner, TeamInfo { hedgehogs_number: number, ..team }),
                            )
                            &&& r.len() == 1
                            &&& is_send(
                                r[0],
                                Destination::ToAll { room_id: Some(rid), skip_self: true },
                                HWServerMessage::HedgehogsNumber(team.name, number),
                            )
                        }
                    }
            }
        },
    }
}

fn set_hedgehogs_number(server: &mut HWServer, client_id: usize, team_name: String, number: u8) -> (r: Vec<Action>)
    requires
        old(server).wf(),
        client_id < old(server).clients@.len(),
    ensures
        final(server).wf(),
        set_hedgehogs_post(*old(server), *final(server), client_id, team_name@, number, r@),
{
    let rid = match server.clients[client_id].room_id {
        None => return Vec::new(),
        Some(rid) => rid,
    };
    let addable = server.rooms[rid].addable_hedgehogs();
    match server.rooms[rid].find_team(&team_name) {
        None => vec![warn(NO_SUCH_TEAM)],
        Some(k) => {
            let current = server.rooms[rid].teams[k].1.hedgehogs_number;
            if !server.clients[client_id].is_master {
                vec![protocol_error(NOT_ROOM_MASTER)]
            } else if number < 1 || number > MAX_HEDGEHOGS_PER_TEAM || number as u16 > addable as u16
                + current as u16 {
                let name = server.rooms[rid].teams[k].1.name.clone();
                vec![send_self(HWServerMessage::HedgehogsNumber(name, current))]
            } else {
                let ghost s = *server;
                let ghost room = s.rooms@[rid as int];
                server.rooms[rid].teams[k].1.hedgehogs_number = number;
                proof {
                    let (owner, team) = room.teams@[k as int];
                    let u = (owner, TeamInfo { hedgehogs_number: number, ..team });
                    assert(server.rooms@[rid as int].teams@ =~= room.teams@.update(k as int, u));
                    lemma_total_update(room.teams@, k as int, u);
                    assert forall|j: int| 0 <= j < server.rooms@.len() implies {
                        &&& (#[trigger] server.rooms@[j]).id == j
                        &&& server.rooms@[j].wf()
                        &&& server.rooms@[j].ready_players_number == ready_count(server.clients@, j as usize)
                        &&& forall|k2: int|
                            0 <= k2 < server.rooms@[j].teams@.len() ==> (#[trigger] server.rooms@[j].teams@[k2]).0
                                < server.clients@.len()
                    } by {
                        if j != rid {
                            assert(server.rooms@[j] == s.rooms@[j]);
                        } else {
                            assert forall|k2: int| 0 <= k2 < server.rooms@[j].teams@.len() implies 1 <= (
                            #[trigger] server.rooms@[j].teams@[k2]).1.hedgehogs_number <= MAX_HEDGEHOGS_PER_TEAM
                                && server.rooms@[j].teams@[k2].0 < server.clients@.len() by {
                                if k2 != k {
                                    assert(server.rooms@[j].teams@[k2] == room.teams@[k2]);
                                }
                            }
                            assert forall|k1: int, k2: int|
                                0 <= k1 < server.rooms@[j].teams@.len() && 0 <= k2 < server.rooms@[j].teams@.len()
                                    && k1 != k2 implies (#[trigger] server.rooms@[j].teams@[k1]).1.name@ != (
                            #[trigger] server.rooms@[j].teams@[k2]).1.name@ by {
                                assert(server.rooms@[j].teams@[k1].1.name == room.teams@[k1].1.name);
                                assert(server.rooms@[j].teams@[k2].1.name == room.teams@[k2].1.name);
                            }
                        }
                    }
                    assert forall|j1: int, j2: int|
                        0 <= j1 < server.rooms@.len() && 0 <= j2 < server.rooms@.len() && j1 != j2 implies (
                        #[trigger] server.rooms@[j1]).name@ != (#[trigger] server.rooms@[j2]).name@ by {
                        if j1 != rid {
                            assert(server.rooms@[j1] == s.rooms@[j1]);
                        }
                        if j2 != rid {
                            assert(server.rooms@[j2] == s.rooms@[j2]);
                        }
                    }
                }
                proof {
                    let (o0, team0) = room.teams@[k as int];
                    let u = (o0, TeamInfo { hedgehogs_number: number, ..team0 });
                    assert forall|j: int, o: usize| 0 <= j < s.rooms@.len() implies #[trigger] owned_count(server.rooms@[j].teams@, o) == owned_count(s.rooms@[j].teams@, o) by {
                        if j == rid {
                            lemma_owned_count_update(room.teams@, k as int, u, o);
                        } else {
                            assert(server.rooms@[j] == s.rooms@[j]);
                        }
                    }
                    assert forall|i: int| 0 <= i < s.clients@.len() implies match (#[trigger] s.clients@[i]).room_id {
                        Some(r) => r < s.rooms@.len(),
                        None => true,
                    } by {}
                    lemma_teams_counted_kept(s.clients@, s.rooms@, server.clients@, server.rooms@);
                }
                let name = server.rooms[rid].teams[k].1.name.clone();
                vec![send_all(HWServerMessage::HedgehogsNumber(name, number), Some(rid), true)]
            }
        },
    }
}

/// What `SetTeamColor` does. An unknown team is warned of, and a sender who
/// is not the room master gets a protocol error. Otherwise the team takes
/// the color, its owner takes it as clan, and the rest of the room hears of
/// it.
pub open spec fn set_team_color_post(
    s: HWServer,
    t: HWServer,
    cid: usize,
    name: Seq<char>,
    color: u8,
    r: Seq<Action>,
) -> bool {
    match room_of(s, cid) {
        None => t == s && r.len() == 0,
        Some(rid) => {
            let room = s.rooms@[rid as int];
            if !has_team_named(room.teams@, name) {
                t == s && r.len() == 1 && is_warning(r[0], NO_SUCH_TEAM@)
            } else {
                exists|k: int|
                    #[trigger] is_first_team_named(room.teams@, name, k) && {
                        let (owner, team) = room.teams@[k];
                        if !s.clients@[cid as int].is_master {
                            t == s && r.len() == 1 && is_protocol_error(r[0], NOT_ROOM_MASTER@)
                        } else {
                            &&& other_rooms_kept(s, t, rid)
                            &&& t.rooms@[rid as int] == (HWRoom { teams: t.rooms@[rid as int].teams, ..room })
                            &&& t.rooms@[rid as int].teams@ == room.teams@.update(
                                k,
                                (owner, TeamInfo { color, ..team }),
                            )
                            &&& t.clients@ == s.clients@.update(
                                owner as int,
                                HWClient { clan: Some(color), ..s.clients@[owner as int] },
                            )
                            &&& r.len() == 1
                            &&& is_send(
                                r[0],
                                Destination::ToAll { room_id: Some(rid), skip_self: true },
                                HWServerMessage::TeamColor(team.name, color),
                            )
                        }
                    }
            }
        },
    }
}

fn set_team_color(server: &mut HWServer, client_id: usize, team_name: String, color: u8) -> (r: Vec<Action>)
    requires
        old(server).wf(),
        client_id < old(server).clients@.len(),
    ensures
        final(server).wf(),
        set_team_color_post(*old(server), *final(server), client_id, team_name@, color, r@),
{
    let rid = match server.clients[client_id].room_id {
        None => return Vec::new(),
        Some(rid) => rid,
    };
    match server.rooms[rid].find_team(&team_name) {
        None => vec![warn(NO_SUCH_TEAM)],
        Some(k) => {
            if !server.clients[client_id].is_master {
                vec![protocol_error(NOT_ROOM_MASTER)]
            } else {
                let ghost s = *server;
                let ghost room = s.rooms@[rid as int];
                let owner = server.rooms[rid].teams[k].0;
                server.rooms[rid].teams[k].1.color = color;
                server.clients[owner].clan = Some(color);
                proof {
                    let (o, team) = room.teams@[k as int];
                    let u = (o, TeamInfo { color, ..team });
                    let c2 = HWClient { clan: Some(color), ..s.clients@[owner as int] };
                    assert(server.rooms@[rid as int].teams@ =~= room.teams@.update(k as int, u));
                    assert(server.clients@ =~= s.clients@.update(owner as int, c2));
                    lemma_total_update(room.teams@, k as int, u);
                    assert forall|j: int| 0 <= j < server.rooms@.len() implies {
                        &&& (#[trigger] server.rooms@[j]).id == j
                        &&& server.rooms@[j].wf()
                        &&& server.rooms@[j].ready_players_number == ready_count(server.clients@, j as usize)
                        &&& forall|k2: int|
                            0 <= k2 < server.rooms@[j].teams@.len() ==> (#[trigger] server.rooms@[j].teams@[k2]).0
                                < server.clients@.len()
                    } by {
                        lemma_ready_count_update(s.clients@, owner as int, c2, j as usize);
                        if j != rid {
                            assert(server.rooms@[j] == s.rooms@[j]);
                        } else {
                            assert forall|k2: int| 0 <= k2 < server.rooms@[j].teams@.len() implies 1 <= (
                            #[trigger] server.rooms@[j].teams@[k2]).1.hedgehogs_number <= MAX_HEDGEHOGS_PER_TEAM
                                && server.rooms@[j].teams@[k2].0 < server.clients@.len() by {
                                if k2 != k {
                                    assert(server.rooms@[j].teams@[k2] == room.teams@[k2]);
                                }
                            }
                            assert forall|k1: int, k2: int|
                                0 <= k1 < server.rooms@[j].teams@.len() && 0 <= k2 < server.rooms@[j].teams@.len()
                                    && k1 != k2 implies (#[trigger] server.rooms@[j].teams@[k1]).1.name@ != (
                            #[trigger] server.rooms@[j].teams@[k2]).1.name@ by {
                                assert(server.rooms@[j].teams@[k1].1.name == room.teams@[k1].1.name);
                                assert(server.rooms@[j].teams@[k2].1.name == room.teams@[k2].1.name);
                            }
                        }
                    }
                    assert forall|j1: int, j2: int|
                        0 <= j1 < server.rooms@.len() && 0 <= j2 < server.rooms@.len() && j1 != j2 implies (
                        #[trigger] server.rooms@[j1]).name@ != (#[trigger] server.rooms@[j2]).name@ by {
                        if j1 != rid {
                            assert(server.rooms@[j1] == s.rooms@[j1]);
                        }
                        if j2 != rid {
                            assert(server.rooms@[j2] == s.rooms@[j2]);
                        }
                    }
                }
                proof {
                    let (o0, team0) = room.teams@[k as int];
                    let u = (o0, TeamInfo { color, ..team0 });
                    assert forall|j: int, o: usize| 0 <= j < s.rooms@.len() implies #[trigger] owned_count(server.rooms@[j].teams@, o) == owned_count(s.rooms@[j].teams@, o) by {
                        if j == rid {
                            lemma_owned_count_update(room.teams@, k as int, u, o);
                        } else {
                            assert(server.rooms@[j] == s.rooms@[j]);
                        }
                    }
                    assert forall|i: int| 0 <= i < s.clients@.len() implies match (#[trigger] s.clients@[i]).room_id {
                        Some(r) => r < s.rooms@.len(),
                        None => true,
                    } by {}
                    lemma_teams_counted_kept(s.clients@, s.rooms@, server.clients@, server.rooms@);
                }
                let name = server.rooms[rid].teams[k].1.name.clone();
                vec![send_all(HWServerMessage::TeamColor(name, color), Some(rid), true)]
            }
        },
    }
}

/// What `Cfg` does: a sender who is not the room master gets a protocol
/// error; otherwise the room's configuration takes the setting and the rest
/// of the room hears of it.
pub open spec fn cfg_post(s: HWServer, t: HWServer, cid: usize, cfg: GameCfg, r: Seq<Action>) -> bool {
    match room_of(s, cid) {
        None => t == s && r.len() == 0,
        Some(rid) => if !s.clients@[cid as int].is_master {
            t == s && r.len() == 1 && is_protocol_error(r[0], NOT_ROOM_MASTER@)
        } else {
            &&& only_room_changed(s, t, rid)
            &&& t.rooms@[rid as int] == (HWRoom { config: t.rooms@[rid as int].config, ..s.rooms@[rid as int] })
            &&& config_set(s.rooms@[rid as int].config@, t.rooms@[rid as int].config@, cfg)
            &&& r.len() == 1
            &&& is_send(
                r[0],
                Destination::ToAll { room_id: Some(rid), skip_self: true },
                HWServerMessage::ConfigEntry(cfg.name, cfg.values),
            )
        },
    }
}

fn set_cfg(server: &mut HWServer, client_id: usize, cfg: GameCfg) -> (r: Vec<Action>)
    requires
        old(server).wf(),
        client_id < old(server).clients@.len(),
    ensures
        final(server).wf(),
        cfg_post(*old(server), *final(server), client_id, cfg, r@),
{
    let rid = match server.clients[client_id].room_id {
        None => return Vec::new(),
        Some(rid) => rid,
    };
    if !server.clients[client_id].is_master {
        vec![protocol_error(NOT_ROOM_MASTER)]
    } else {
        let ghost s = *server;
        server.rooms[rid].set_config(cfg.copy());
        proof {
            assert(config_set(s.rooms@[rid as int].config@, server.rooms@[rid as int].config@, cfg));
            assert forall|j: int| 0 <= j < server.rooms@.len() && j != rid implies server.rooms@[j]
                == s.rooms@[j] by {}
            assert forall|j: int| 0 <= j < server.rooms@.len() implies {
                &&& (#[trigger] server.rooms@[j]).id == j
                &&& server.rooms@[j].wf()
                &&& server.rooms@[j].ready_players_number == ready_count(server.clients@, j as usize)
                &&& forall|k2: int|
                    0 <= k2 < server.rooms@[j].teams@.len() ==> (#[trigger] server.rooms@[j].teams@[k2]).0
                        < server.clients@.len()
            } by {
                if j != rid {
                    assert(server.rooms@[j] == s.rooms@[j]);
                }
            }
            assert forall|j1: int, j2: int|
                0 <= j1 < server.rooms@.len() && 0 <= j2 < server.rooms@.len() && j1 != j2 implies (
                #[trigger] server.rooms@[j1]).name@ != (#[trigger] server.rooms@[j2]).name@ by {
                if j1 != rid {
                    assert(server.rooms@[j1] == s.rooms@[j1]);
                }
                if j2 != rid {
                    assert(server.rooms@[j2] == s.rooms@[j2]);
                }
            }
        }
        proof {
            lemma_counts_kept(s, *server);
        }
        vec![send_all(HWServerMessage::ConfigEntry(cfg.name, cfg.values), Some(rid), true)]
    }
}

/// `a` forwards one encoded batch `text` to the rest of room `rid`.
pub open spec fn is_engine_forward(a: Action, rid: usize, text: Seq<char>) -> bool {
    match a {
        Action::Send(p) => p.destination == (Destination::ToAll { room_id: Some(rid), skip_self: true })
            && match p.message {
            HWServerMessage::ForwardEngineMessage(v) => v@.len() == 1 && v@[0]@ == text,
            _ => false,
        },
        _ => false,
    }
}

/// Room `b` is room `a` with `text` appended to the log of its round.
pub open spec fn log_appended(a: HWRoom, b: HWRoom, text: Seq<char>) -> bool {
    &&& b == (HWRoom { game_info: b.game_info, ..a })
    &&& match (a.game_info, b.game_info) {
        (Some(g1), Some(g2)) => {
            &&& g2.last_msg == g1.last_msg
            &&& g2.msg_log@.len() == g1.msg_log@.len() + 1
            &&& g2.msg_log@.take(g1.msg_log@.len() as int) == g1.msg_log@
            &&& g2.msg_log@.last()@ == text
        },
        _ => false,
    }
}

/// What `EngineMessage` does for a sender in a room who plays at least one
/// team (otherwise nothing happens). The text is decoded from base64 and cut
/// into records; when either fails the sender gets a protocol error. The
/// valid records, if any, are forwarded to the rest of the room, and while a
/// round runs the records that are not empty, if any, are appended to its
/// log.
pub open spec fn engine_message_post(s: HWServer, t: HWServer, cid: usize, em: Seq<char>, r: Seq<Action>) -> bool {
    let c = s.clients@[cid as int];
    match room_of(s, cid) {
        Some(rid) if c.teams_in_game > 0 => match base64_decoded(em) {
            Some(bytes) if kept_records(bytes, c.team_indices@, true) is Some => {
                let forward = kept_records(bytes, c.team_indices@, true)->0;
                let log = kept_records(bytes, c.team_indices@, false)->0;
                &&& kept_records(bytes, c.team_indices@, false) is Some
                &&& if forward.len() > 0 {
                    r.len() == 1 && is_engine_forward(r[0], rid, base64_encoded(forward))
                } else {
                    r.len() == 0
                }
                &&& if s.rooms@[rid as int].game_info is Some && log.len() > 0 {
                    &&& only_room_changed(s, t, rid)
                    &&& log_appended(s.rooms@[rid as int], t.rooms@[rid as int], base64_encoded(log))
                } else {
                    t == s
                }
            },
            _ => t == s && r.len() == 1 && is_protocol_error(r[0], MALFORMED_ENGINE_MESSAGE@),
        },
        _ => t == s && r.len() == 0,
    }
}

/// Records cut from the same bytes fail for every filter alike.
pub proof fn lemma_framing_independent(s: Seq<u8>, team_indices: Seq<u8>)
    ensures
        kept_records(s, team_indices, true) is Some <==> kept_records(s, team_indices, false) is Some,
    decreases s.len(),
{
    if s.len() > 0 && s[0] as int + 1 <= s.len() {
        lemma_framing_independent(s.subrange(s[0] as int + 1, s.len() as int), team_indices);
    }
}

fn engine_message(server: &mut HWServer, client_id: usize, em: String) -> (r: Vec<Action>)
    requires
        old(server).wf(),
        client_id < old(server).clients@.len(),
    ensures
        final(server).wf(),
        engine_message_post(*old(server), *final(server), client_id, em@, r@),
{
    let rid = match server.clients[client_id].room_id {
        None => return Vec::new(),
        Some(rid) => rid,
    };
    if server.clients[client_id].teams_in_game == 0 {
        return Vec::new();
    }
    let decoded = match decode_base64(em.as_str()) {
        None => return vec![protocol_error(MALFORMED_ENGINE_MESSAGE)],
        Some(d) => d,
    };
    proof {
        lemma_framing_independent(decoded@, server.clients@[client_id as int].team_indices@);
    }
    let forward = match filter_records(&decoded, &server.clients[client_id].team_indices, true) {
        None => return vec![protocol_error(MALFORMED_ENGINE_MESSAGE)],
        Some(f) => f,
    };
    let log = match filter_records(&decoded, &server.clients[client_id].team_indices, false) {
        None => return vec![protocol_error(MALFORMED_ENGINE_MESSAGE)],
        Some(l) => l,
    };
    let mut actions: Vec<Action> = Vec::new();
    if forward.len() > 0 {
        let text = encode_base64(&forward);
        actions.push(send_all(HWServerMessage::ForwardEngineMessage(vec![text]), Some(rid), true));
    }
    if log.len() > 0 && server.rooms[rid].game_info.is_some() {
        let ghost s = *server;
        let text = encode_base64(&log);
        let info = server.rooms[rid].game_info.take();
        match info {
            Some(mut g) => {
                g.msg_log.push(text);
                server.rooms[rid].game_info = Some(g);
            },
            None => {},
        }
        proof {
            lemma_counts_kept(s, *server);
        }
        proof {
            assert(server.rooms@[rid as int].game_info matches Some(g2) && g2.msg_log@.take(
                g2.msg_log@.len() - 1,
            ) =~= s.rooms@[rid as int].game_info->0.msg_log@);
            assert forall|j: int| 0 <= j < server.rooms@.len() && j != rid implies server.rooms@[j]
                == s.rooms@[j] by {}
            assert forall|j: int| 0 <= j < server.rooms@.len() implies {
                &&& (#[trigger] server.rooms@[j]).id == j
                &&& server.rooms@[j].wf()
                &&& server.rooms@[j].ready_players_number == ready_count(server.clients@, j as usize)
                &&& forall|k2: int|
                    0 <= k2 < server.rooms@[j].teams@.len() ==> (#[trigger] server.rooms@[j].teams@[k2]).0
                        < server.clients@.len()
            } by {
                if j != rid {
                    assert(server.rooms@[j] == s.rooms@[j]);
                }
            }
            assert forall|j1: int, j2: int|
                0 <= j1 < server.rooms@.len() && 0 <= j2 < server.rooms@.len() && j1 != j2 implies (
                #[trigger] server.rooms@[j1]).name@ != (#[trigger] server.rooms@[j2]).name@ by {
                if j1 != rid {
                    assert(server.rooms@[j1] == s.rooms@[j1]);
                }
                if j2 != rid {
                    assert(server.rooms@[j2] == s.rooms@[j2]);
                }
            }
        }
    }
    actions
}

/// What a room command does to server `s`, giving `t`, for client `cid`
/// with the random number `pick`.
pub open spec fn room_post(
    s: HWServer,
    t: HWServer,
    cid: usize,
    message: HWProtocolMessage,
    pick: usize,
    r: Seq<Action>,
) -> bool {
    match message {
        HWProtocolMessage::Part(msg) => t == s && r.len() == 1 && is_move_to_lobby(r[0], part_reason(msg)),
        HWProtocolMessage::Chat(msg) => t == s && chat_actions(s, cid, msg, r),
        HWProtocolMessage::RoomName(name) => room_name_post(s, t, cid, name@, r),
        HWProtocolMessage::ToggleReady => toggle_ready_post(s, t, cid, r),
        HWProtocolMessage::AddTeam(info) => add_team_post(s, t, cid, info, r),
        HWProtocolMessage::RemoveTeam(name) => remove_team_post(s, t, cid, name@, r),
        HWProtocolMessage::SetHedgehogsNumber(name, number) => set_hedgehogs_post(s, t, cid, name@, number, r),
        HWProtocolMessage::SetTeamColor(name, color) => set_team_color_post(s, t, cid, name@, color, r),
        HWProtocolMessage::Cfg(c) => cfg_post(s, t, cid, c, r),
        HWProtocolMessage::StartGame => t == s && start_game_actions(s, cid, r),
        HWProtocolMessage::EngineMessage(em) => engine_message_post(s, t, cid, em@, r),
        HWProtocolMessage::RoundFinished => round_finished_post(s, t, cid, r),
        HWProtocolMessage::Rnd(options) => t == s && r.len() == 1 && is_chat_send(
            r[0],
            Destination::ToAll { room_id: None, skip_self: false },
            RANDOM_NICK@,
            chosen(options@, pick),
        ),
        _ => t == s && r.len() == 0,
    }
}

/// Handles a command of client `client_id`, who is in a room (commands of a
/// client without a room do nothing, but for `Part` and `Rnd`); `pick` is a
/// random number, used by `Rnd` alone.
pub fn handle(server: &mut HWServer, client_id: usize, message: HWProtocolMessage, pick: usize) -> (r: Vec<Action>)
    requires
        old(server).wf(),
        client_id < old(server).clients@.len(),
    ensures
        final(server).wf(),
        room_post(*old(server), *final(server), client_id, message, pick, r@),
{
    match message {
        HWProtocolMessage::Part(msg) => part(msg),
        HWProtocolMessage::Chat(msg) => chat(server, client_id, msg),
        HWProtocolMessage::RoomName(name) => room_name(server, client_id, name),
        HWProtocolMessage::ToggleReady => toggle_ready(server, client_id),
        HWProtocolMessage::AddTeam(info) => add_team(server, client_id, info),
        HWProtocolMessage::RemoveTeam(name) => remove_team(server, client_id, name),
        HWProtocolMessage::SetHedgehogsNumber(name, number) => set_hedgehogs_number(server, client_id, name, number),
        HWProtocolMessage::SetTeamColor(name, color) => set_team_color(server, client_id, name, color),
        HWProtocolMessage::Cfg(c) => set_cfg(server, client_id, c),
        HWProtocolMessage::StartGame => start_game(server, client_id),
        HWProtocolMessage::EngineMessage(em) => engine_message(server, client_id, em),
        HWProtocolMessage::RoundFinished => round_finished(server, client_id),
        HWProtocolMessage::Rnd(options) => rnd_reply(&options, pick),
        _ => Vec::new(),
    }
}

} // verus!
