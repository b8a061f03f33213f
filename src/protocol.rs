use vstd::prelude::*;

use crate::model::{GameCfg, TeamInfo};

verus! {

/// A command of a client, already parsed from the wire.
pub enum HWProtocolMessage {
    Ping,
    Pong,
    Quit(Option<String>),
    Nick(String),
    Proto(u32),
    List,
    Chat(String),
    CreateRoom(String, Option<String>),
    JoinRoom(String, Option<String>),
    Part(Option<String>),
    RoomName(String),
    ToggleReady,
    AddTeam(TeamInfo),
    RemoveTeam(String),
    SetHedgehogsNumber(String, u8),
    SetTeamColor(String, u8),
    Cfg(GameCfg),
    StartGame,
    EngineMessage(String),
    RoundFinished,
    Rnd(Vec<String>),
}

} // verus!
