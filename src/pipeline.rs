use vstd::prelude::*;
use crate::error::MyError;
use crate::lifecycle::{insert_message, new_message, same_but_messages};
use crate::model::Message;
use crate::queries::chat_participants;
use crate::registry::{ConnectionRegistry, targets_in};
use crate::store::ChatStore;

verus! {

/// A stored message and the live connections it is to be pushed to, once each.
/// Delivery is best effort: a user without a connection gets nothing now and
/// reads the message later from the history.
#[derive(Debug)]
pub struct Delivery {
    pub message: Message,
    pub targets: Vec<u64>,
}

/// Stores a message by `author` in chat `chat_id` and computes its fan-out: every
/// live connection of every current member, the author included. The pushed
/// message is the stored row, with its server-assigned id and time.
pub fn send_message(
    store: &mut ChatStore,
    registry: &ConnectionRegistry,
    chat_id: i64,
    author: &String,
    body: &String,
    is_auto: bool,
    now: u64,
) -> (r: Result<Delivery, MyError>)
    requires
        old(store).wf(),
        old(store).next_message_id < i64::MAX,
    ensures
        final(store).wf(),
        !old(store).is_member(chat_id, author@) ==> r == Err::<Delivery, MyError>(
            MyError::UserDoesNotBelongToGroup,
        ) && *final(store) == *old(store),
        old(store).is_member(chat_id, author@) ==> {
            let m = new_message(*old(store), chat_id, *author, *body, is_auto, now);
            &&& r matches Ok(d)
            &&& d.message == m
            &&& d.targets@ == targets_in(registry.connections@, final(store).members_of(chat_id))
            &&& final(store).messages@ == old(store).messages@.push(m)
            &&& final(store).next_message_id == old(store).next_message_id + 1
            &&& same_but_messages(*old(store), *final(store))
        },
{
    let message = match insert_message(store, chat_id, author, body, is_auto, now) {
        Ok(m) => m,
        Err(e) => {
            return Err(e);
        },
    };
    let participants = chat_participants(store, chat_id);
    let targets = registry.broadcast_to(&participants);
    Ok(Delivery { message, targets })
}

} // verus!
