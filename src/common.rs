use vstd::prelude::*;

use crate::actions::{is_chat_send, send_all, Action, Destination, HWServerMessage};

verus! {

/// The nick under which random choices are announced.
pub const RANDOM_NICK: &'static str = "[random]";

/// The outcome of a choice `pick` among `options`; "heads" or "tails" when
/// there are none.
pub open spec fn chosen(options: Seq<String>, pick: usize) -> Seq<char> {
    if options.len() == 0 {
        if pick % 2 == 0 {
            "heads"@
        } else {
            "tails"@
        }
    } else {
        options[(pick as int) % (options.len() as int)]@
    }
}

/// Announces to everyone the option that the random number `pick` selects.
pub fn rnd_reply(options: &Vec<String>, pick: usize) -> (r: Vec<Action>)
    ensures
        r@.len() == 1,
        is_chat_send(
            r@[0],
            Destination::ToAll { room_id: None, skip_self: false },
            RANDOM_NICK@,
            chosen(options@, pick),
        ),
{
    let reply = if options.len() == 0 {
        if pick % 2 == 0 {
            "heads".to_owned()
        } else {
            "tails".to_owned()
        }
    } else {
        options[pick % options.len()].clone()
    };
    let msg = HWServerMessage::ChatMsg { nick: RANDOM_NICK.to_owned(), msg: reply };
    vec![send_all(msg, None, false)]
}

} // verus!
