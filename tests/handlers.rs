use hw_handlers::actions::{Action, Destination, HWServerMessage};
use hw_handlers::common::rnd_reply;
use hw_handlers::engine::{filter_records, is_msg_empty, is_msg_valid, is_non_timed_message_type};
use hw_handlers::inroom;
use hw_handlers::lobby;
use hw_handlers::model::{GameCfg, GameInfo, HWServer, TeamInfo};
use hw_handlers::names::is_name_illegal;
use hw_handlers::protocol::HWProtocolMessage;

fn setup() -> (HWServer, usize, usize, usize) {
    let mut s = HWServer::new();
    let a = s.add_client("alice".to_string(), 47);
    let b = s.add_client("bob".to_string(), 47);
    let r = s.add_room(a, "Arena".to_string(), None);
    s.clients[a].room_id = Some(r);
    s.clients[a].is_master = true;
    s.clients[b].room_id = Some(r);
    (s, a, b, r)
}

fn team(name: &str) -> TeamInfo {
    TeamInfo {
        name: name.to_string(),
        color: 7,
        grave: "Simple".to_string(),
        fort: "Castle".to_string(),
        voice_pack: "Default".to_string(),
        flag: "cm_binary".to_string(),
        difficulty: 0,
        hedgehogs_number: 8,
    }
}

fn warning(actions: &[Action]) -> Option<String> {
    match actions {
        [Action::Warn(w)] => Some(w.clone()),
        _ => None,
    }
}

#[test]
fn create_room_then_same_name_is_refused() {
    let mut s = HWServer::new();
    let a = s.add_client("alice".to_string(), 47);
    let r = lobby::handle(&s, a, HWProtocolMessage::CreateRoom("Arena".to_string(), None), 0);
    assert_eq!(r.len(), 2);
    assert!(matches!(&r[0], Action::AddRoom(n, None) if n == "Arena"));
    match &r[1] {
        Action::Send(p) => {
            assert!(matches!(p.destination, Destination::ToSelf));
            assert!(matches!(&p.message, HWServerMessage::ClientFlags(f, n) if f == "+hr" && n == &vec!["alice".to_string()]));
        }
        _ => panic!("expected a message"),
    }
    s.add_room(a, "Arena".to_string(), None);
    let r = lobby::handle(&s, a, HWProtocolMessage::CreateRoom("Arena".to_string(), None), 0);
    assert_eq!(warning(&r).as_deref(), Some("A room with the same name already exists."));
    assert_eq!(s.rooms.len(), 1);
}

#[test]
fn illegal_room_names_are_refused() {
    let s = {
        let mut s = HWServer::new();
        s.add_client("alice".to_string(), 47);
        s
    };
    for name in ["", " lead", "trail ", "a$b", "x(y", "q|", &"a".repeat(41)] {
        let r = lobby::handle(&s, 0, HWProtocolMessage::CreateRoom(name.to_string(), None), 0);
        assert!(warning(&r).unwrap().starts_with("Illegal room name!"), "{}", name);
    }
}

#[test]
fn room_name_length_limits() {
    assert!(!is_name_illegal(&"a".repeat(40)));
    assert!(is_name_illegal(&"a".repeat(41)));
    assert!(!is_name_illegal("a"));
    assert!(is_name_illegal(""));
    assert!(!is_name_illegal("my room"));
    assert!(is_name_illegal("room}"));
}

#[test]
fn lobby_chat_goes_to_everyone_else() {
    let (s, _a, b, _r) = setup();
    let r = lobby::handle(&s, b, HWProtocolMessage::Chat("hi".to_string()), 0);
    match &r[..] {
        [Action::Send(p)] => {
            assert!(matches!(p.destination, Destination::ToAll { room_id: None, skip_self: true }));
            assert!(matches!(&p.message, HWServerMessage::ChatMsg { nick, msg } if nick == "bob" && msg == "hi"));
        }
        _ => panic!("expected one message"),
    }
}

#[test]
fn join_room_with_other_protocol_is_refused() {
    let (mut s, _a, _b, _r) = setup();
    let c = s.add_client("carol".to_string(), 46);
    let r = lobby::handle(&s, c, HWProtocolMessage::JoinRoom("Arena".to_string(), None), 0);
    assert_eq!(warning(&r).as_deref(), Some("Room version incompatible to your Hedgewars version!"));
    assert_eq!(s.clients[c].room_id, None);
}

#[test]
fn join_missing_room_is_refused() {
    let (mut s, _a, _b, _r) = setup();
    let c = s.add_client("carol".to_string(), 47);
    let r = lobby::handle(&s, c, HWProtocolMessage::JoinRoom("Nowhere".to_string(), None), 0);
    assert_eq!(warning(&r).as_deref(), Some("No such room."));
}

#[test]
fn join_room_lists_occupants() {
    let (mut s, _a, _b, room) = setup();
    let c = s.add_client("carol".to_string(), 47);
    let r = lobby::handle(&s, c, HWProtocolMessage::JoinRoom("Arena".to_string(), None), 0);
    assert_eq!(r.len(), 2);
    assert!(matches!(r[0], Action::MoveToRoom(id) if id == room));
    match &r[1] {
        Action::Send(p) => {
            assert!(matches!(p.destination, Destination::ToSelf));
            assert!(matches!(&p.message, HWServerMessage::RoomJoined(n) if n == &vec!["alice".to_string(), "bob".to_string()]));
        }
        _ => panic!("expected a message"),
    }
}

#[test]
fn lobby_list_does_nothing() {
    let (s, a, _b, _r) = setup();
    assert!(lobby::handle(&s, a, HWProtocolMessage::List, 0).is_empty());
    assert!(lobby::handle(&s, a, HWProtocolMessage::Ping, 0).is_empty());
}

#[test]
fn random_choice_picks_an_option() {
    let options = vec!["a".to_string(), "b".to_string(), "c".to_string()];
    let r = rnd_reply(&options, 4);
    match &r[..] {
        [Action::Send(p)] => {
            assert!(matches!(p.destination, Destination::ToAll { room_id: None, skip_self: false }));
            assert!(matches!(&p.message, HWServerMessage::ChatMsg { nick, msg } if nick == "[random]" && msg == "b"));
        }
        _ => panic!("expected one message"),
    }
    let r = rnd_reply(&Vec::new(), 3);
    assert!(matches!(&r[..], [Action::Send(p)] if matches!(&p.message, HWServerMessage::ChatMsg { msg, .. } if msg == "tails")));
}

#[test]
fn part_gives_reason() {
    let (mut s, a, _b, _r) = setup();
    let r = inroom::handle(&mut s, a, HWProtocolMessage::Part(None), 0);
    assert!(matches!(&r[..], [Action::MoveToLobby(m)] if m == "part"));
    let r = inroom::handle(&mut s, a, HWProtocolMessage::Part(Some("bye".to_string())), 0);
    assert!(matches!(&r[..], [Action::MoveToLobby(m)] if m == "part: bye"));
}

#[test]
fn room_chat_stays_in_room() {
    let (mut s, a, _b, room) = setup();
    let r = inroom::handle(&mut s, a, HWProtocolMessage::Chat("gg".to_string()), 0);
    match &r[..] {
        [Action::Send(p)] => {
            assert!(matches!(p.destination, Destination::ToAll { room_id: Some(id), skip_self: true } if id == room));
        }
        _ => panic!("expected one message"),
    }
    let c = s.add_client("carol".to_string(), 47);
    assert!(inroom::handle(&mut s, c, HWProtocolMessage::Chat("x".to_string()), 0).is_empty());
}

#[test]
fn rename_room_reports_old_name() {
    let (mut s, a, _b, room) = setup();
    let r = inroom::handle(&mut s, a, HWProtocolMessage::RoomName("Lair".to_string()), 0);
    assert!(matches!(&r[..], [Action::SendRoomUpdate(Some(n))] if n == "Arena"));
    assert_eq!(s.rooms[room].name, "Lair");
    let r = inroom::handle(&mut s, a, HWProtocolMessage::RoomName("Lair".to_string()), 0);
    assert_eq!(warning(&r).as_deref(), Some("A room with the same name already exists."));
    let r = inroom::handle(&mut s, a, HWProtocolMessage::RoomName("a*".to_string()), 0);
    assert!(warning(&r).unwrap().starts_with("Illegal room name!"));
}

#[test]
fn toggle_ready_tracks_count() {
    let (mut s, a, b, room) = setup();
    let r = inroom::handle(&mut s, a, HWProtocolMessage::ToggleReady, 0);
    assert_eq!(s.rooms[room].ready_players_number, 1);
    assert!(s.clients[a].is_ready);
    match &r[..] {
        [Action::Send(p)] => {
            assert!(matches!(p.destination, Destination::ToAll { room_id: Some(id), skip_self: false } if id == room));
            assert!(matches!(&p.message, HWServerMessage::ClientFlags(f, n) if f == "+r" && n == &vec!["alice".to_string()]));
        }
        _ => panic!("expected one message"),
    }
    inroom::handle(&mut s, b, HWProtocolMessage::ToggleReady, 0);
    assert_eq!(s.rooms[room].ready_players_number, 2);
    let r = inroom::handle(&mut s, a, HWProtocolMessage::ToggleReady, 0);
    assert_eq!(s.rooms[room].ready_players_number, 1);
    assert!(!s.clients[a].is_ready);
    assert!(matches!(&r[..], [Action::Send(p)] if matches!(&p.message, HWServerMessage::ClientFlags(f, _) if f == "-r")));
}

#[test]
fn add_then_remove_team_restores_counts() {
    let (mut s, a, _b, room) = setup();
    let r = inroom::handle(&mut s, a, HWProtocolMessage::AddTeam(team("Reds")), 0);
    assert_eq!(r.len(), 5);
    assert_eq!(s.clients[a].teams_in_game, 1);
    assert_eq!(s.clients[a].clan, Some(0));
    assert_eq!(s.rooms[room].teams.len(), 1);
    assert_eq!(s.rooms[room].teams[0].1.color, 0);
    assert_eq!(s.rooms[room].teams[0].1.hedgehogs_number, 4);
    assert!(matches!(&r[0], Action::Send(p) if matches!(p.destination, Destination::ToSelf) && matches!(&p.message, HWServerMessage::TeamAccepted(n) if n == "Reds")));
    assert!(matches!(&r[1], Action::Send(p) if matches!(p.destination, Destination::ToAll { skip_self: true, .. }) && matches!(&p.message, HWServerMessage::TeamAdd(o, t) if o == "alice" && t.name == "Reds" && t.grave == "Simple")));
    assert!(matches!(&r[2], Action::Send(p) if matches!(&p.message, HWServerMessage::TeamColor(n, 0) if n == "Reds")));
    assert!(matches!(&r[3], Action::Send(p) if matches!(&p.message, HWServerMessage::HedgehogsNumber(n, 4) if n == "Reds")));
    assert!(matches!(&r[4], Action::SendRoomUpdate(None)));
    let r = inroom::handle(&mut s, a, HWProtocolMessage::RemoveTeam("Reds".to_string()), 0);
    assert!(matches!(&r[..], [Action::RemoveTeam(n)] if n == "Reds"));
    assert_eq!(s.clients[a].teams_in_game, 0);
    assert_eq!(s.clients[a].clan, None);
    assert!(s.rooms[room].teams.is_empty());
}

#[test]
fn second_team_takes_next_color_and_first_count() {
    let (mut s, a, b, room) = setup();
    inroom::handle(&mut s, a, HWProtocolMessage::AddTeam(team("Reds")), 0);
    inroom::handle(&mut s, b, HWProtocolMessage::AddTeam(team("Blues")), 0);
    assert_eq!(s.rooms[room].teams[1].0, b);
    assert_eq!(s.rooms[room].teams[1].1.color, 1);
    assert_eq!(s.rooms[room].teams[1].1.hedgehogs_number, 4);
    assert_eq!(s.clients[b].clan, Some(1));
    inroom::handle(&mut s, a, HWProtocolMessage::AddTeam(team("Greens")), 0);
    assert_eq!(s.clients[a].teams_in_game, 2);
    let r = inroom::handle(&mut s, a, HWProtocolMessage::RemoveTeam("Reds".to_string()), 0);
    assert_eq!(r.len(), 1);
    assert_eq!(s.clients[a].teams_in_game, 1);
    assert_eq!(s.clients[a].clan, Some(2));
    assert_eq!(s.rooms[room].teams.len(), 2);
    assert_eq!(s.rooms[room].teams[1].1.name, "Greens");
}

#[test]
fn remove_team_errors() {
    let (mut s, a, b, _room) = setup();
    inroom::handle(&mut s, a, HWProtocolMessage::AddTeam(team("Reds")), 0);
    let r = inroom::handle(&mut s, b, HWProtocolMessage::RemoveTeam("Reds".to_string()), 0);
    assert_eq!(warning(&r).as_deref(), Some("You can't remove a team you don't own."));
    let r = inroom::handle(&mut s, b, HWProtocolMessage::RemoveTeam("Ghosts".to_string()), 0);
    assert_eq!(warning(&r).as_deref(), Some("Error: The team you tried to remove does not exist."));
}

#[test]
fn add_team_at_limit_is_refused() {
    let (mut s, a, b, room) = setup();
    s.rooms[room].team_limit = 1;
    inroom::handle(&mut s, a, HWProtocolMessage::AddTeam(team("Reds")), 0);
    let r = inroom::handle(&mut s, b, HWProtocolMessage::AddTeam(team("Blues")), 0);
    assert_eq!(warning(&r).as_deref(), Some("Too many teams!"));
    assert_eq!(s.rooms[room].teams.len(), 1);
    assert_eq!(s.clients[b].teams_in_game, 0);
}

#[test]
fn add_team_other_refusals() {
    let (mut s, a, b, room) = setup();
    inroom::handle(&mut s, a, HWProtocolMessage::AddTeam(team("Reds")), 0);
    let r = inroom::handle(&mut s, b, HWProtocolMessage::AddTeam(team("Reds")), 0);
    assert_eq!(warning(&r).as_deref(), Some("There's already a team with same name in the list."));
    s.rooms[room].game_info = Some(GameInfo { msg_log: Vec::new(), last_msg: None });
    let r = inroom::handle(&mut s, b, HWProtocolMessage::AddTeam(team("Blues")), 0);
    assert_eq!(warning(&r).as_deref(), Some("Joining not possible: Round is in progress."));
    s.rooms[room].game_info = None;
    s.rooms[room].team_limit = 20;
    for i in 0..11 {
        inroom::handle(&mut s, b, HWProtocolMessage::AddTeam(team(&format!("T{}", i))), 0);
    }
    assert_eq!(s.rooms[room].teams.len(), 12);
    let r = inroom::handle(&mut s, b, HWProtocolMessage::AddTeam(team("Last")), 0);
    assert_eq!(warning(&r).as_deref(), Some("Too many hedgehogs!"));
}

#[test]
fn bad_hedgehog_count_is_echoed() {
    let (mut s, a, _b, room) = setup();
    inroom::handle(&mut s, a, HWProtocolMessage::AddTeam(team("Reds")), 0);
    for n in [0u8, 9, 200] {
        let r = inroom::handle(&mut s, a, HWProtocolMessage::SetHedgehogsNumber("Reds".to_string(), n), 0);
        assert!(matches!(&r[..], [Action::Send(p)] if matches!(p.destination, Destination::ToSelf) && matches!(&p.message, HWServerMessage::HedgehogsNumber(t, 4) if t == "Reds")));
        assert_eq!(s.rooms[room].teams[0].1.hedgehogs_number, 4);
    }
    let r = inroom::handle(&mut s, a, HWProtocolMessage::SetHedgehogsNumber("Reds".to_string(), 6), 0);
    assert!(matches!(&r[..], [Action::Send(p)] if matches!(p.destination, Destination::ToAll { skip_self: true, .. }) && matches!(&p.message, HWServerMessage::HedgehogsNumber(t, 6) if t == "Reds")));
    assert_eq!(s.rooms[room].teams[0].1.hedgehogs_number, 6);
}

#[test]
fn hedgehog_count_needs_master_and_team() {
    let (mut s, a, b, _room) = setup();
    inroom::handle(&mut s, a, HWProtocolMessage::AddTeam(team("Reds")), 0);
    let r = inroom::handle(&mut s, b, HWProtocolMessage::SetHedgehogsNumber("Reds".to_string(), 5), 0);
    assert!(matches!(&r[..], [Action::ProtocolError(m)] if m == "You're not the room master!"));
    let r = inroom::handle(&mut s, a, HWProtocolMessage::SetHedgehogsNumber("Ghosts".to_string(), 5), 0);
    assert_eq!(warning(&r).as_deref(), Some("No such team."));
}

#[test]
fn master_recolors_other_clients_team() {
    let (mut s, a, b, room) = setup();
    inroom::handle(&mut s, b, HWProtocolMessage::AddTeam(team("Blues")), 0);
    let r = inroom::handle(&mut s, a, HWProtocolMessage::SetTeamColor("Blues".to_string(), 5), 0);
    assert!(matches!(&r[..], [Action::Send(p)] if matches!(&p.message, HWServerMessage::TeamColor(t, 5) if t == "Blues")));
    assert_eq!(s.rooms[room].teams[0].1.color, 5);
    assert_eq!(s.clients[b].clan, Some(5));
    let r = inroom::handle(&mut s, b, HWProtocolMessage::SetTeamColor("Blues".to_string(), 3), 0);
    assert!(matches!(&r[..], [Action::ProtocolError(_)]));
    assert_eq!(s.rooms[room].teams[0].1.color, 5);
}

#[test]
fn cfg_from_non_master_is_refused() {
    let (mut s, _a, b, room) = setup();
    let cfg = GameCfg { name: "MAP".to_string(), values: vec!["Bamboo".to_string()] };
    let r = inroom::handle(&mut s, b, HWProtocolMessage::Cfg(cfg), 0);
    assert!(matches!(&r[..], [Action::ProtocolError(m)] if m == "You're not the room master!"));
    assert!(s.rooms[room].config.is_empty());
}

#[test]
fn cfg_from_master_is_set_and_sent() {
    let (mut s, a, _b, room) = setup();
    let cfg = GameCfg { name: "MAP".to_string(), values: vec!["Bamboo".to_string()] };
    let r = inroom::handle(&mut s, a, HWProtocolMessage::Cfg(cfg), 0);
    assert!(matches!(&r[..], [Action::Send(p)] if matches!(&p.message, HWServerMessage::ConfigEntry(n, v) if n == "MAP" && v == &vec!["Bamboo".to_string()])));
    let cfg = GameCfg { name: "MAP".to_string(), values: vec!["Castle".to_string()] };
    inroom::handle(&mut s, a, HWProtocolMessage::Cfg(cfg), 0);
    let cfg = GameCfg { name: "SEED".to_string(), values: vec!["42".to_string()] };
    inroom::handle(&mut s, a, HWProtocolMessage::Cfg(cfg), 0);
    assert_eq!(s.rooms[room].config.len(), 2);
    assert_eq!(s.rooms[room].config[0].values, vec!["Castle".to_string()]);
    assert_eq!(s.rooms[room].config[1].name, "SEED");
}

#[test]
fn start_game_requests_round() {
    let (mut s, a, _b, room) = setup();
    let r = inroom::handle(&mut s, a, HWProtocolMessage::StartGame, 0);
    assert!(matches!(&r[..], [Action::StartRoomGame(id)] if *id == room));
}

#[test]
fn round_finished_when_not_in_game_does_nothing() {
    let (mut s, a, _b, _room) = setup();
    let r = inroom::handle(&mut s, a, HWProtocolMessage::RoundFinished, 0);
    assert!(r.is_empty());
}

#[test]
fn round_finished_removes_own_teams() {
    let (mut s, a, b, room) = setup();
    inroom::handle(&mut s, a, HWProtocolMessage::AddTeam(team("Reds")), 0);
    inroom::handle(&mut s, b, HWProtocolMessage::AddTeam(team("Blues")), 0);
    inroom::handle(&mut s, a, HWProtocolMessage::AddTeam(team("Greens")), 0);
    s.rooms[room].game_info = Some(GameInfo { msg_log: Vec::new(), last_msg: None });
    s.clients[a].is_in_game = true;
    let r = inroom::handle(&mut s, a, HWProtocolMessage::RoundFinished, 0);
    assert!(!s.clients[a].is_in_game);
    assert_eq!(r.len(), 3);
    assert!(matches!(&r[0], Action::Send(p) if matches!(&p.message, HWServerMessage::ClientFlags(f, _) if f == "-g")));
    assert!(matches!(&r[1], Action::SendTeamRemovalMessage(n) if n == "Reds"));
    assert!(matches!(&r[2], Action::SendTeamRemovalMessage(n) if n == "Greens"));
}

fn in_game(s: &mut HWServer, a: usize, room: usize) {
    inroom::handle(s, a, HWProtocolMessage::AddTeam(team("Reds")), 0);
    s.clients[a].team_indices = vec![1, 2];
    s.rooms[room].game_info = Some(GameInfo { msg_log: Vec::new(), last_msg: None });
}

fn forwarded(r: &[Action]) -> Option<String> {
    match r {
        [Action::Send(p)] => match &p.message {
            HWServerMessage::ForwardEngineMessage(v) if v.len() == 1 => Some(v[0].clone()),
            _ => None,
        },
        _ => None,
    }
}

#[test]
fn engine_messages_round_trip() {
    let (mut s, a, _b, room) = setup();
    in_game(&mut s, a, room);
    let bytes: Vec<u8> = vec![1, b'M', 2, b'L', 9, 3, b'h', 2, 1, 1, 0x85];
    let r = inroom::handle(&mut s, a, HWProtocolMessage::EngineMessage(base64::encode(&bytes)), 0);
    assert_eq!(forwarded(&r), Some(base64::encode(&bytes)));
    assert_ne!(forwarded(&r), Some(base64::encode(&[] as &[u8])));
    let log = &s.rooms[room].game_info.as_ref().unwrap().msg_log;
    assert_eq!(log, &vec![base64::encode(&bytes)]);
}

#[test]
fn empty_messages_are_not_logged() {
    let (mut s, a, _b, room) = setup();
    in_game(&mut s, a, room);
    let bytes: Vec<u8> = vec![1, b'+', 1, b'+'];
    inroom::handle(&mut s, a, HWProtocolMessage::EngineMessage(base64::encode(&bytes)), 0);
    assert!(s.rooms[room].game_info.as_ref().unwrap().msg_log.is_empty());
}

#[test]
fn invalid_messages_are_logged_not_forwarded() {
    let (mut s, a, _b, room) = setup();
    in_game(&mut s, a, room);
    let bytes: Vec<u8> = vec![1, b'X', 3, b'h', 5, 0, 1, b'+'];
    let r = inroom::handle(&mut s, a, HWProtocolMessage::EngineMessage(base64::encode(&bytes)), 0);
    assert_eq!(forwarded(&r), Some(base64::encode(&[1u8, b'+'])));
    let log = &s.rooms[room].game_info.as_ref().unwrap().msg_log;
    assert_eq!(log, &vec![base64::encode(&[1, b'X', 3, b'h', 5, 0])]);
}

#[test]
fn malformed_engine_messages_give_protocol_error() {
    let (mut s, a, _b, room) = setup();
    in_game(&mut s, a, room);
    let r = inroom::handle(&mut s, a, HWProtocolMessage::EngineMessage("!!!".to_string()), 0);
    assert!(matches!(&r[..], [Action::ProtocolError(m)] if m == "Malformed engine message."));
    let r = inroom::handle(&mut s, a, HWProtocolMessage::EngineMessage(base64::encode(&[5u8, b'M'])), 0);
    assert!(matches!(&r[..], [Action::ProtocolError(_)]));
    assert!(s.rooms[room].game_info.as_ref().unwrap().msg_log.is_empty());
}

#[test]
fn engine_messages_need_a_team() {
    let (mut s, a, _b, _room) = setup();
    let r = inroom::handle(&mut s, a, HWProtocolMessage::EngineMessage(base64::encode(&[1u8, b'M'])), 0);
    assert!(r.is_empty());
}

#[test]
fn record_checks() {
    assert!(is_msg_valid(&[1, b'M'], &vec![]));
    assert!(!is_msg_valid(&[1, b'X'], &vec![]));
    assert!(!is_msg_valid(&[0], &vec![]));
    assert!(is_msg_valid(&[3, b'h', 1, 3], &vec![3]));
    assert!(!is_msg_valid(&[3, b'h', 1, 3], &vec![1]));
    assert!(!is_msg_valid(&[2, b'h', 3], &vec![3]));
    assert!(!is_msg_valid(&[3, b'h', 9, 3], &vec![3]));
    assert!(is_msg_empty(&[1, b'+']));
    assert!(!is_msg_empty(&[1, b'M']));
    assert!(is_non_timed_message_type(b'b'));
    assert!(!is_non_timed_message_type(b'L'));
    assert_eq!(filter_records(&vec![1, b'+', 1, b'M'], &vec![], false), Some(vec![1, b'M']));
    assert_eq!(filter_records(&vec![3, b'M'], &vec![], true), None);
    assert_eq!(filter_records(&vec![], &vec![], true), Some(vec![]));
}
