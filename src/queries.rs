use vstd::prelude::*;
use crate::error::MyError;
use crate::model::{Chat, Message, UserRequest};
use crate::registry::names;
use crate::store::{ChatStore, ChatRow, Invitation, Membership, membership_in, message_in, request_to};

verus! {

/// The members of chat `chat_id`, in the order in which they joined.
pub fn chat_participants(store: &ChatStore, chat_id: i64) -> (r: Vec<String>)
    ensures
        names(r@) == store.members_of(chat_id),
{
    let mut out: Vec<String> = Vec::new();
    let mut i: usize = 0;
    while i < store.memberships.len()
        invariant
            i <= store.memberships@.len(),
            names(out@) == store.memberships@.take(i as int).filter(membership_in(chat_id)).map_values(
                |m: Membership| m.username@,
            ),
        decreases store.memberships@.len() - i,
    {
        let ghost ms = store.memberships@;
        let ghost f0 = ms.take(i as int).filter(membership_in(chat_id));
        proof {
            assert(ms.take(i as int + 1) == ms.take(i as int).push(ms[i as int]));
            ms.take(i as int).lemma_filter_push(ms[i as int], membership_in(chat_id));
        }
        if store.memberships[i].chat_id == chat_id {
            let ghost before = out@;
            out.push(store.memberships[i].username.clone());
            proof {
                assert(names(out@) =~= names(before).push(ms[i as int].username@));
                assert(f0.push(ms[i as int]).map_values(|m: Membership| m.username@) =~= f0.map_values(
                    |m: Membership| m.username@,
                ).push(ms[i as int].username@));
            }
        }
        i += 1;
    }
    proof {
        assert(store.memberships@.take(store.memberships@.len() as int) == store.memberships@);
    }
    out
}

/// The history of chat `chat_id` for `username`, oldest first. Only a member may
/// read it.
pub fn get_messages_for_chat(store: &ChatStore, chat_id: i64, username: &String) -> (r: Result<
    Vec<Message>,
    MyError,
>)
    requires
        store.wf(),
    ensures
        !store.is_member(chat_id, username@) ==> r == Err::<Vec<Message>, MyError>(
            MyError::UserDoesNotBelongToGroup,
        ),
        store.is_member(chat_id, username@) ==> (r matches Ok(v) && v@ == store.messages_of(chat_id)),
        r matches Ok(v) ==> forall|i: int, j: int| 0 <= i < j < v@.len() ==> v@[i].id < v@[j].id,
{
    if !store.membership_exists(chat_id, username) {
        return Err(MyError::UserDoesNotBelongToGroup);
    }
    let mut out: Vec<Message> = Vec::new();
    let mut i: usize = 0;
    while i < store.messages.len()
        invariant
            i <= store.messages@.len(),
            store.wf(),
            out@ == store.messages@.take(i as int).filter(message_in(chat_id)),
            forall|a: int, b: int| 0 <= a < b < out@.len() ==> out@[a].id < out@[b].id,
            forall|a: int, j: int| 0 <= a < out@.len() && i <= j < store.messages@.len() ==> out@[a].id
                < store.messages@[j].id,
        decreases store.messages@.len() - i,
    {
        let ghost ms = store.messages@;
        proof {
            assert(ms.take(i as int + 1) == ms.take(i as int).push(ms[i as int]));
            ms.take(i as int).lemma_filter_push(ms[i as int], message_in(chat_id));
        }
        if store.messages[i].chat_id == chat_id {
            out.push(store.messages[i].copied());
        }
        i += 1;
    }
    proof {
        assert(store.messages@.take(store.messages@.len() as int) == store.messages@);
    }
    Ok(out)
}

/// The name of the first chat row with id `c` from row `i` on; empty when the
/// chat has no name.
pub open spec fn chat_name_from(cs: Seq<ChatRow>, c: i64, i: int) -> Seq<char>
    decreases cs.len() - i,
{
    if i < 0 || i >= cs.len() {
        Seq::empty()
    } else if cs[i].id == c {
        match cs[i].name {
            Some(n) => n@,
            None => Seq::empty(),
        }
    } else {
        chat_name_from(cs, c, i + 1)
    }
}

/// The listing entry of invitation `q`.
pub open spec fn listed_request(s: ChatStore, q: Invitation, r: UserRequest) -> bool {
    &&& r.chat_id == q.chat_id
    &&& r.from == q.from_user
    &&& r.name@ == chat_name_from(s.chats@, q.chat_id, 0)
}

/// The name of chat `c`, empty when it has none.
fn chat_name(store: &ChatStore, c: i64) -> (r: String)
    ensures
        r@ == chat_name_from(store.chats@, c, 0),
{
    let mut i: usize = 0;
    while i < store.chats.len()
        invariant
            i <= store.chats@.len(),
            chat_name_from(store.chats@, c, 0) == chat_name_from(store.chats@, c, i as int),
        decreases store.chats@.len() - i,
    {
        if store.chats[i].id == c {
            return match &store.chats[i].name {
                Some(n) => n.clone(),
                None => String::new(),
            };
        }
        i += 1;
    }
    String::new()
}

/// The pending invitations addressed to `username`, in the order in which they
/// were issued, each with the name of its group.
pub fn get_requests_for_user(store: &ChatStore, username: &String) -> (r: Vec<UserRequest>)
    ensures
        r@.len() == store.requests@.filter(request_to(username@)).len(),
        forall|i: int|
            0 <= i < r@.len() ==> listed_request(
                *store,
                store.requests@.filter(request_to(username@))[i],
                #[trigger] r@[i],
            ),
{
    let mut out: Vec<UserRequest> = Vec::new();
    let mut i: usize = 0;
    while i < store.requests.len()
        invariant
            i <= store.requests@.len(),
            out@.len() == store.requests@.take(i as int).filter(request_to(username@)).len(),
            forall|k: int|
                0 <= k < out@.len() ==> listed_request(
                    *store,
                    store.requests@.take(i as int).filter(request_to(username@))[k],
                    #[trigger] out@[k],
                ),
        decreases store.requests@.len() - i,
    {
        let ghost rs = store.requests@;
        let ghost f0 = rs.take(i as int).filter(request_to(username@));
        proof {
            assert(rs.take(i as int + 1) == rs.take(i as int).push(rs[i as int]));
            rs.take(i as int).lemma_filter_push(rs[i as int], request_to(username@));
        }
        let q = &store.requests[i];
        if q.to_user == *username {
            let name = chat_name(store, q.chat_id);
            let ghost before = out@;
            out.push(UserRequest { chat_id: q.chat_id, from: q.from_user.clone(), name });
            proof {
                let f1 = f0.push(rs[i as int]);
                assert forall|k: int| 0 <= k < out@.len() implies listed_request(*store, f1[k], #[trigger] out@[k]) by {
                    if k < before.len() {
                        assert(out@[k] == before[k]);
                        assert(f1[k] == f0[k]);
                    }
                }
            }
        }
        i += 1;
    }
    proof {
        assert(store.requests@.take(store.requests@.len() as int) == store.requests@);
    }
    out
}

/// The time of the latest message of chat `c` among `ms`, if it has any.
pub open spec fn latest_message_time(ms: Seq<Message>, c: i64) -> Option<u64>
    decreases ms.len(),
{
    if ms.len() == 0 {
        None
    } else {
        let rest = latest_message_time(ms.drop_last(), c);
        let m = ms.last();
        if m.chat_id != c {
            rest
        } else {
            match rest {
                None => Some(m.send_at),
                Some(t) => Some(if t >= m.send_at { t } else { m.send_at }),
            }
        }
    }
}

/// When chat `id` was last active: its latest message, else its creation.
pub open spec fn activity(s: ChatStore, id: i64, created_at: u64) -> u64 {
    match latest_message_time(s.messages@, id) {
        Some(t) => t,
        None => created_at,
    }
}

/// The members of chat `c` other than `u`, in the order in which they joined.
pub open spec fn others_of(s: ChatStore, c: i64, u: Seq<char>) -> Seq<Seq<char>> {
    s.members_of(c).filter(|v: Seq<char>| v != u)
}

/// `c` is the listing of chat row `row` for user `u`.
pub open spec fn chat_entry(s: ChatStore, u: Seq<char>, row: ChatRow, c: Chat) -> bool {
    &&& c.id == row.id
    &&& c.name == row.name
    &&& c.is_group == row.is_group
    &&& c.created_at == row.created_at
    &&& names(c.participants@) == others_of(s, row.id, u)
}

/// `c` is the listing of some chat of which `u` is a member.
pub open spec fn listed_for(s: ChatStore, u: Seq<char>, c: Chat) -> bool {
    exists|j: int|
        0 <= j < s.chats@.len() && s.is_member(s.chats@[j].id, u) && chat_entry(s, u, #[trigger] s.chats@[j], c)
}

/// When chat `c` was last active.
fn chat_activity(store: &ChatStore, c: i64, created_at: u64) -> (r: u64)
    ensures
        r == activity(*store, c, created_at),
{
    let mut latest: Option<u64> = None;
    let mut i: usize = 0;
    while i < store.messages.len()
        invariant
            i <= store.messages@.len(),
            latest == latest_message_time(store.messages@.take(i as int), c),
        decreases store.messages@.len() - i,
    {
        proof {
            assert(store.messages@.take(i as int + 1).drop_last() == store.messages@.take(i as int));
        }
        let m = &store.messages[i];
        if m.chat_id == c {
            latest = match latest {
                None => Some(m.send_at),
                Some(t) => Some(if t >= m.send_at { t } else { m.send_at }),
            };
        }
        i += 1;
    }
    proof {
        assert(store.messages@.take(store.messages@.len() as int) == store.messages@);
    }
    match latest {
        Some(t) => t,
        None => created_at,
    }
}

/// The members of chat `c` other than `u`.
fn others_in_chat(store: &ChatStore, c: i64, u: &String) -> (r: Vec<String>)
    ensures
        names(r@) == others_of(*store, c, u@),
{
    let all = chat_participants(store, c);
    let mut out: Vec<String> = Vec::new();
    let mut i: usize = 0;
    while i < all.len()
        invariant
            i <= all@.len(),
            names(all@) == store.members_of(c),
            names(out@) == names(all@).take(i as int).filter(|v: Seq<char>| v != u@),
        decreases all@.len() - i,
    {
        proof {
            assert(names(all@).take(i as int + 1) == names(all@).take(i as int).push(all@[i as int]@));
            names(all@).take(i as int).lemma_filter_push(all@[i as int]@, |v: Seq<char>| v != u@);
        }
        if all[i] != *u {
            let ghost before = out@;
            out.push(all[i].clone());
            proof {
                assert(names(out@) =~= names(before).push(all@[i as int]@));
            }
        }
        i += 1;
    }
    proof {
        assert(names(all@).take(all@.len() as int) == names(all@));
    }
    out
}

/// The chats of `username`, the most recently active first; a chat without
/// messages counts as active when it was created. Each lists its other members.
pub fn get_user_chats(store: &ChatStore, username: &String) -> (r: Vec<Chat>)
    requires
        store.wf(),
    ensures
        forall|k: int| 0 <= k < r@.len() ==> #[trigger] listed_for(*store, username@, r@[k]),
        forall|j: int|
            0 <= j < store.chats@.len() && store.is_member(#[trigger] store.chats@[j].id, username@) ==> exists|k: int|
                0 <= k < r@.len() && r@[k].id == store.chats@[j].id,
        forall|a: int, b: int| 0 <= a < b < r@.len() ==> r@[a].id != r@[b].id,
        forall|a: int, b: int|
            0 <= a < b < r@.len() ==> activity(*store, r@[a].id, r@[a].created_at) >= activity(
                *store,
                r@[b].id,
                r@[b].created_at,
            ),
{
    let n = store.chats.len();
    let mut keys: Vec<u64> = Vec::new();
    let mut order: Vec<usize> = Vec::new();
    let mut j: usize = 0;
    while j < n
        invariant
            n == store.chats@.len(),
            j <= n,
            keys@.len() == j,
            forall|x: int| 0 <= x < j ==> #[trigger] keys@[x] == activity(*store, store.chats@[x].id, store.chats@[x].created_at),
            forall|a: int| 0 <= a < order@.len() ==> #[trigger] order@[a] < j && store.is_member(store.chats@[order@[a] as int].id, username@),
            forall|a: int, b: int| 0 <= a < b < order@.len() ==> order@[a] != order@[b],
            forall|a: int, b: int| 0 <= a < b < order@.len() ==> keys@[order@[a] as int] >= keys@[order@[b] as int],
            forall|x: int| 0 <= x < j && store.is_member(#[trigger] store.chats@[x].id, username@) ==> order@.contains(x as usize),
        decreases n - j,
    {
        let row = &store.chats[j];
        let key = chat_activity(store, row.id, row.created_at);
        keys.push(key);
        if store.membership_exists(row.id, username) {
            let mut p: usize = 0;
            while p < order.len() && keys[order[p]] >= key
                invariant
                    p <= order@.len(),
                    keys@.len() == j + 1,
                    keys@[j as int] == key,
                    forall|a: int| 0 <= a < order@.len() ==> #[trigger] order@[a] < j,
                    forall|a: int| 0 <= a < p ==> keys@[#[trigger] order@[a] as int] >= key,
                decreases order@.len() - p,
            {
                p += 1;
            }
            let ghost before = order@;
            order.insert(p, j);
            proof {
                let o = order@;
                assert forall|a: int| 0 <= a < o.len() implies (a < p && o[a] == before[a]) || (a == p && o[a] == j) || (a > p && o[a] == before[a - 1]) by {}
                assert forall|a: int, b: int| 0 <= a < b < o.len() implies keys@[o[a] as int] >= keys@[o[b] as int] by {
                    if a < p && b == p {
                    } else if a == p && b > p {
                        if p < before.len() {
                            assert(keys@[before[p as int] as int] < key);
                            if b - 1 > p {
                                assert(keys@[before[p as int] as int] >= keys@[before[b - 1] as int]);
                            }
                        }
                    }
                }
                assert forall|a: int, b: int| 0 <= a < b < o.len() implies o[a] != o[b] by {}
                assert forall|x: int| 0 <= x <= j && store.is_member(#[trigger] store.chats@[x].id, username@) implies o.contains(x as usize) by {
                    if x < j {
                        let a = choose|a: int| 0 <= a < before.len() && before[a] == x as usize;
                        if a < p { assert(o[a] == before[a]); } else { assert(o[a + 1] == before[a]); }
                    } else {
                        assert(o[p as int] == j);
                    }
                }
            }
        }
        j += 1;
    }
    let mut out: Vec<Chat> = Vec::new();
    let mut k: usize = 0;
    while k < order.len()
        invariant
            n == store.chats@.len(),
            keys@.len() == n,
            k <= order@.len(),
            out@.len() == k,
            forall|x: int| 0 <= x < n ==> #[trigger] keys@[x] == activity(*store, store.chats@[x].id, store.chats@[x].created_at),
            forall|a: int| 0 <= a < order@.len() ==> #[trigger] order@[a] < n && store.is_member(store.chats@[order@[a] as int].id, username@),
            forall|a: int| 0 <= a < k ==> chat_entry(*store, username@, store.chats@[order@[a] as int], #[trigger] out@[a]),
        decreases order@.len() - k,
    {
        let row = &store.chats[order[k]];
        let participants = others_in_chat(store, row.id, username);
        let name = match &row.name {
            Some(x) => Some(x.clone()),
            None => None,
        };
        out.push(Chat { id: row.id, name, is_group: row.is_group, created_at: row.created_at, participants });
        k += 1;
    }
    proof {
        assert forall|a: int, b: int| 0 <= a < b < out@.len() implies out@[a].id != out@[b].id by {
            assert(out@[a].id == store.chats@[order@[a] as int].id);
            assert(out@[b].id == store.chats@[order@[b] as int].id);
        }
        assert forall|a: int, b: int| 0 <= a < b < out@.len() implies activity(*store, out@[a].id, out@[a].created_at) >= activity(
                *store,
                out@[b].id,
                out@[b].created_at,
            ) by {
            assert(keys@[order@[a] as int] >= keys@[order@[b] as int]);
        }
        assert forall|k: int| 0 <= k < out@.len() implies #[trigger] listed_for(*store, username@, out@[k]) by {
            let j = order@[k] as int;
            assert(chat_entry(*store, username@, store.chats@[j], out@[k]));
        }
        assert forall|j: int|
            0 <= j < store.chats@.len() && store.is_member(#[trigger] store.chats@[j].id, username@) implies exists|k: int|
                0 <= k < out@.len() && out@[k].id == store.chats@[j].id by {
            assert(order@.contains(j as usize));
            let k = choose|k: int| 0 <= k < order@.len() && order@[k] == j as usize;
            assert(chat_entry(*store, username@, store.chats@[order@[k] as int], out@[k]));
        }
    }
    out
}

} // verus!
