use vstd::prelude::*;

use crate::model::TeamInfo;

verus! {

/// Who receives an outgoing message.
pub enum Destination {
    /// The client that sent the command.
    ToSelf,
    /// Every client, or every client of one room; `skip_self` leaves the
    /// sender out.
    ToAll { room_id: Option<usize>, skip_self: bool },
}

/// Messages that the server sends to clients.
pub enum HWServerMessage {
    ChatMsg { nick: String, msg: String },
    ClientFlags(String, Vec<String>),
    RoomJoined(Vec<String>),
    TeamAccepted(String),
    /// A team joins: the owner's nick and the team.
    TeamAdd(String, TeamInfo),
    TeamColor(String, u8),
    HedgehogsNumber(String, u8),
    ConfigEntry(String, Vec<String>),
    ForwardEngineMessage(Vec<String>),
}

/// A message together with the clients that should receive it.
pub struct PendingMessage {
    pub destination: Destination,
    pub message: HWServerMessage,
}

/// What a command asks of the dispatcher: state changes and messages.
pub enum Action {
    Send(PendingMessage),
    Warn(String),
    ProtocolError(String),
    AddRoom(String, Option<String>),
    RemoveTeam(String),
    MoveToRoom(usize),
    MoveToLobby(String),
    SendRoomUpdate(Option<String>),
    StartRoomGame(usize),
    SendTeamRemovalMessage(String),
}

/// A message for the sender alone.
pub fn send_self(message: HWServerMessage) -> (r: Action)
    ensures
        r == Action::Send(PendingMessage { destination: Destination::ToSelf, message }),
{
    Action::Send(PendingMessage { destination: Destination::ToSelf, message })
}

/// A message for every client, or every client of `room_id`, leaving the
/// sender out when `skip_self` holds.
pub fn send_all(message: HWServerMessage, room_id: Option<usize>, skip_self: bool) -> (r: Action)
    ensures
        r == Action::Send(
            PendingMessage { destination: Destination::ToAll { room_id, skip_self }, message },
        ),
{
    Action::Send(PendingMessage { destination: Destination::ToAll { room_id, skip_self }, message })
}

/// A warning for the sender.
pub fn warn(text: &str) -> (r: Action)
    ensures
        r is Warn && r->Warn_0@ == text@,
{
    Action::Warn(text.to_owned())
}

/// A protocol error for the sender.
pub fn protocol_error(text: &str) -> (r: Action)
    ensures
        r is ProtocolError && r->ProtocolError_0@ == text@,
{
    Action::ProtocolError(text.to_owned())
}

/// `a` is a warning with text `text`.
pub open spec fn is_warning(a: Action, text: Seq<char>) -> bool {
    a matches Action::Warn(s) && s@ == text
}

/// `a` is a protocol error with text `text`.
pub open spec fn is_protocol_error(a: Action, text: Seq<char>) -> bool {
    a matches Action::ProtocolError(s) && s@ == text
}

/// `a` sends `message` to `destination`.
pub open spec fn is_send(a: Action, destination: Destination, message: HWServerMessage) -> bool {
    a == Action::Send(PendingMessage { destination, message })
}

/// `a` sends client flags `flags` for `nicks` to `destination`.
pub open spec fn is_flags_send(
    a: Action,
    destination: Destination,
    flags: Seq<char>,
    nicks: Seq<String>,
) -> bool {
    match a {
        Action::Send(p) => p.destination == destination && match p.message {
            HWServerMessage::ClientFlags(f, ns) => f@ == flags && ns@ == nicks,
            _ => false,
        },
        _ => false,
    }
}

/// `a` sends a chat line `msg` from `nick` to `destination`.
pub open spec fn is_chat_send(a: Action, destination: Destination, nick: Seq<char>, msg: Seq<char>) -> bool {
    match a {
        Action::Send(p) => p.destination == destination && match p.message {
            HWServerMessage::ChatMsg { nick: n, msg: m } => n@ == nick && m@ == msg,
            _ => false,
        },
        _ => false,
    }
}

/// `a` announces that the team `name` leaves the round.
pub open spec fn is_team_removal(a: Action, name: Seq<char>) -> bool {
    match a {
        Action::SendTeamRemovalMessage(n) => n@ == name,
        _ => false,
    }
}

/// `a` sends the sender back to the lobby with reason `reason`.
pub open spec fn is_move_to_lobby(a: Action, reason: Seq<char>) -> bool {
    match a {
        Action::MoveToLobby(m) => m@ == reason,
        _ => false,
    }
}

pub const ILLEGAL_ROOM_NAME: &'static str = "Illegal room name! A room name must be between 1-40 characters long, must not have a trailing or leading space and must not have any of these characters: $()*+?[]^{|}";
pub const ROOM_EXISTS: &'static str = "A room with the same name already exists.";
pub const NO_SUCH_ROOM: &'static str = "No such room.";
pub const ROOM_VERSION_INCOMPATIBLE: &'static str = "Room version incompatible to your Hedgewars version!";
pub const TOO_MANY_TEAMS: &'static str = "Too many teams!";
pub const TOO_MANY_HEDGEHOGS: &'static str = "Too many hedgehogs!";
pub const TEAM_EXISTS: &'static str = "There's already a team with same name in the list.";
pub const ROUND_IN_PROGRESS: &'static str = "Joining not possible: Round is in progress.";
pub const NO_TEAM_TO_REMOVE: &'static str = "Error: The team you tried to remove does not exist.";
pub const NOT_TEAM_OWNER: &'static str = "You can't remove a team you don't own.";
pub const NOT_ROOM_MASTER: &'static str = "You're not the room master!";
pub const NO_SUCH_TEAM: &'static str = "No such team.";
pub const MALFORMED_ENGINE_MESSAGE: &'static str = "Malformed engine message.";

} // verus!
