use vstd::prelude::*;

use crate::actions::{
    is_chat_send, is_flags_send, is_send, is_warning, send_all, send_self, warn, Action,
    Destination, HWServerMessage, ILLEGAL_ROOM_NAME, NO_SUCH_ROOM, ROOM_EXISTS,
    ROOM_VERSION_INCOMPATIBLE,
};
use crate::common::{chosen, rnd_reply, RANDOM_NICK};
use crate::model::{is_room_named, occupant_nicks, HWServer};
use crate::names::{is_legal_name, is_name_illegal};
use crate::protocol::HWProtocolMessage;

verus! {

/// What a lobby command returns on server `s` for client `cid`, with the
/// random number `pick`.
pub open spec fn lobby_actions(
    s: HWServer,
    cid: usize,
    message: HWProtocolMessage,
    pick: usize,
    r: Seq<Action>,
) -> bool {
    match message {
        HWProtocolMessage::CreateRoom(name, password) => if !is_legal_name(name@) {
            r.len() == 1 && is_warning(r[0], ILLEGAL_ROOM_NAME@)
        } else if s.has_room_named(name@) {
            r.len() == 1 && is_warning(r[0], ROOM_EXISTS@)
        } else {
            &&& r.len() == 2
            &&& r[0] == Action::AddRoom(name, password)
            &&& is_flags_send(r[1], Destination::ToSelf, "+hr"@, seq![s.clients@[cid as int].nick])
        },
        HWProtocolMessage::Chat(msg) => r.len() == 1 && is_send(
            r[0],
            Destination::ToAll { room_id: None, skip_self: true },
            HWServerMessage::ChatMsg { nick: s.clients@[cid as int].nick, msg },
        ),
        HWProtocolMessage::JoinRoom(name, _) => if !s.has_room_named(name@) {
            r.len() == 1 && is_warning(r[0], NO_SUCH_ROOM@)
        } else {
            exists|j: int|
                is_room_named(s.rooms@, name@, j) && if s.clients@[cid as int].protocol_number
                    != s.rooms@[j].protocol_number {
                    r.len() == 1 && is_warning(r[0], ROOM_VERSION_INCOMPATIBLE@)
                } else {
                    &&& r.len() == 2
                    &&& r[0] == Action::MoveToRoom(j as usize)
                    &&& match r[1] {
                        Action::Send(p) => p.destination == Destination::ToSelf && match p.message {
                            HWServerMessage::RoomJoined(nicks) => nicks@ == occupant_nicks(s.clients@, j as usize),
                            _ => false,
                        },
                        _ => false,
                    }
                }
        },
        HWProtocolMessage::Rnd(options) => r.len() == 1 && is_chat_send(
            r[0],
            Destination::ToAll { room_id: None, skip_self: false },
            RANDOM_NICK@,
            chosen(options@, pick),
        ),
        _ => r.len() == 0,
    }
}

/// Handles a command of client `client_id`, who is in no room; `pick` is a
/// random number, used by `Rnd` alone.
pub fn handle(server: &HWServer, client_id: usize, message: HWProtocolMessage, pick: usize) -> (r: Vec<Action>)
    requires
        server.wf(),
        client_id < server.clients@.len(),
    ensures
        lobby_actions(*server, client_id, message, pick, r@),
{
    match message {
        HWProtocolMessage::CreateRoom(name, password) => {
            if is_name_illegal(name.as_str()) {
                vec![warn(ILLEGAL_ROOM_NAME)]
            } else if server.has_room(&name) {
                vec![warn(ROOM_EXISTS)]
            } else {
                let nicks = vec![server.clients[client_id].nick.clone()];
                assert(nicks@ =~= seq![server.clients@[client_id as int].nick]);
                let flags_msg = HWServerMessage::ClientFlags("+hr".to_owned(), nicks);
                vec![Action::AddRoom(name, password), send_self(flags_msg)]
            }
        },
        HWProtocolMessage::Chat(msg) => {
            let chat_msg = HWServerMessage::ChatMsg { nick: server.clients[client_id].nick.clone(), msg };
            vec![send_all(chat_msg, None, true)]
        },
        HWProtocolMessage::JoinRoom(name, _password) => {
            match server.find_room(&name) {
                None => vec![warn(NO_SUCH_ROOM)],
                Some(j) => {
                    if server.clients[client_id].protocol_number != server.rooms[j].protocol_number {
                        vec![warn(ROOM_VERSION_INCOMPATIBLE)]
                    } else {
                        let nicks = server.room_nicks(j);
                        vec![Action::MoveToRoom(j), send_self(HWServerMessage::RoomJoined(nicks))]
                    }
                },
            }
        },
        HWProtocolMessage::Rnd(options) => rnd_reply(&options, pick),
        _ => Vec::new(),
    }
}

} // verus!
