use vstd::prelude::*;
use crate::error::MyError;
use crate::model::Message;
use crate::store::{private_in, lemma_private_frame, lemma_private_add, lemma_kind_unique, ChatStore, Membership, Invitation, ChatRow, cascade_delete_chat, lemma_request_remove, chat_in, group_in, member_in, any_member_in, request_in, lemma_membership_remove, sole_member_in};

verus! {

/// `a` followed by `b`.
pub fn joined(a: &String, b: &str) -> (r: String)
    ensures
        r@ == a@ + b@,
{
    let mut s = a.clone();
    s.append(b);
    s
}

/// The store rows other than the messages are the same in `a` and `b`.
pub open spec fn same_but_messages(a: ChatStore, b: ChatStore) -> bool {
    &&& a.users == b.users
    &&& a.chats == b.chats
    &&& a.memberships == b.memberships
    &&& a.requests == b.requests
    &&& a.next_chat_id == b.next_chat_id
}

/// The message that `insert_message` stores for these arguments.
pub open spec fn new_message(s: ChatStore, chat_id: i64, author: String, body: String, is_auto: bool, now: u64) -> Message {
    Message {
        id: s.next_message_id,
        chat_id,
        msg: body,
        from_user: author,
        is_auto,
        send_at: now,
    }
}

/// Appends a message by `username` to chat `chat_id` and returns the stored row,
/// with its server-assigned id and time. Only a current member may write.
pub fn insert_message(
    store: &mut ChatStore,
    chat_id: i64,
    username: &String,
    msg: &String,
    is_auto: bool,
    now: u64,
) -> (r: Result<Message, MyError>)
    requires
        old(store).wf(),
        old(store).next_message_id < i64::MAX,
    ensures
        final(store).wf(),
        !old(store).is_member(chat_id, username@) ==> r == Err::<Message, MyError>(
            MyError::UserDoesNotBelongToGroup,
        ) && *final(store) == *old(store),
        old(store).is_member(chat_id, username@) ==> {
            let m = new_message(*old(store), chat_id, *username, *msg, is_auto, now);
            &&& r == Ok::<Message, MyError>(m)
            &&& final(store).messages@ == old(store).messages@.push(m)
            &&& final(store).next_message_id == old(store).next_message_id + 1
            &&& same_but_messages(*old(store), *final(store))
        },
{
    if !store.membership_exists(chat_id, username) {
        return Err(MyError::UserDoesNotBelongToGroup);
    }
    let ghost pre = *store;
    let m = Message {
        id: store.next_message_id,
        chat_id,
        msg: msg.clone(),
        from_user: username.clone(),
        is_auto,
        send_at: now,
    };
    store.messages.push(m.copied());
    store.next_message_id = store.next_message_id + 1;
    proof {
        let k = choose|k: int|
            0 <= k < pre.memberships@.len() && #[trigger] pre.memberships@[k].chat_id == chat_id
                && pre.memberships@[k].username@ == username@;
        assert(pre.has_chat(pre.memberships@[k].chat_id));
        assert forall|i: int| 0 <= i < store.messages@.len() implies {
            let m = #[trigger] store.messages@[i];
            &&& store.has_chat(m.chat_id)
            &&& 1 <= m.id < store.next_message_id
        } by {
            if i < pre.messages@.len() {
                assert(store.messages@[i] == pre.messages@[i]);
            }
        }
        assert forall|i: int, j: int| 0 <= i < j < store.messages@.len() implies store.messages@[i].id
            < store.messages@[j].id by {
            assert(store.messages@[i] == pre.messages@[i]);
            if j < pre.messages@.len() {
                assert(store.messages@[j] == pre.messages@[j]);
            }
        }
    }
    Ok(m)
}

/// The text of the message that records `u` leaving a group.
pub open spec fn left_text(u: Seq<char>) -> Seq<char> {
    u + " has left the group"@
}

/// What `user` leaving group `chat_id` does to `pre`.
pub open spec fn leave_outcome(pre: ChatStore, post: ChatStore, chat_id: i64, user: String, now: u64, r: Result<(), MyError>) -> bool {
    &&& !pre.is_group(chat_id) ==> r == Err::<(), MyError>(MyError::ChatNotFound) && post == pre
    &&& pre.is_group(chat_id) && !pre.is_member(chat_id, user@) ==> r == Err::<
            (),
            MyError,
        >(MyError::UserDoesNotBelongToGroup) && post == pre
    &&& pre.is_group(chat_id) && pre.is_member(chat_id, user@) ==> {
            &&& r is Ok
            &&& !post.is_member(chat_id, user@)
            &&& forall|c: i64, u: Seq<char>|
                !(c == chat_id && u == user@) ==> #[trigger] post.is_member(c, u) == pre.is_member(c, u)
            &&& forall|c: i64| c != chat_id ==> #[trigger] post.has_chat(c) == pre.has_chat(c)
            &&& forall|c: i64| c != chat_id ==> #[trigger] post.is_group(c) == pre.is_group(c)
            &&& post.users == pre.users
            &&& post.next_chat_id == pre.next_chat_id
            &&& post.next_message_id == pre.next_message_id + 1
        }
    &&& pre.is_group(chat_id) && pre.is_member(chat_id, user@) && !sole_member_in(
            pre.memberships@,
            chat_id,
            user@,
        ) ==> {
            let m = Message {
                id: pre.next_message_id,
                chat_id,
                msg: post.messages@.last().msg,
                from_user: user,
                is_auto: true,
                send_at: now,
            };
            &&& post.is_group(chat_id)
            &&& post.messages@ == pre.messages@.push(m)
            &&& m.msg@ == left_text(user@)
            &&& post.requests == pre.requests
        }
    &&& pre.is_group(chat_id) && pre.is_member(chat_id, user@) && sole_member_in(
            pre.memberships@,
            chat_id,
            user@,
        ) ==> {
            &&& !post.has_chat(chat_id)
            &&& !post.has_members(chat_id)
            &&& post.messages@ == pre.messages@.filter(|m: Message| m.chat_id != chat_id)
            &&& post.requests@ == pre.requests@.filter(
                |q: Invitation| q.chat_id != chat_id,
            )
        }
}

/// `u` leaves group `chat_id`. A "left" message is recorded and the membership
/// removed; when nobody remains, the group goes with its messages and invitations.
pub fn leave_group(store: &mut ChatStore, chat_id: i64, user: &String, now: u64) -> (r: Result<
    (),
    MyError,
>)
    requires
        old(store).wf(),
        old(store).next_message_id < i64::MAX,
    ensures
        final(store).wf(),
        leave_outcome(*old(store), *final(store), chat_id, *user, now, r),
{
    if !store.chat_is_group(chat_id) {
        return Err(MyError::ChatNotFound);
    }
    let k = match store.find_membership(chat_id, user) {
        Some(k) => k,
        None => {
            return Err(MyError::UserDoesNotBelongToGroup);
        },
    };
    let ghost pre = *store;
    let text = joined(user, " has left the group");
    let _ = insert_message(store, chat_id, user, &text, true, now);
    let ghost mid = *store;
    store.memberships.remove(k);
    proof {
        lemma_membership_remove(mid.memberships@, k as int);
        lemma_kind_unique(mid.chats@, chat_id);
        assert forall|c: i64, u: Seq<char>| private_in(store.chats@, c) implies #[trigger] member_in(store.memberships@, c, u)
            == member_in(mid.memberships@, c, u) by {}
        lemma_private_frame(mid.chats@, mid.memberships@, store.chats@, store.memberships@);
        assert forall|i: int| 0 <= i < store.memberships@.len() implies store.has_chat(
            #[trigger] store.memberships@[i].chat_id,
        ) by {
            let j = choose|j: int| 0 <= j < mid.memberships@.len() && mid.memberships@[j] == store.memberships@[i];
            assert(mid.has_chat(mid.memberships@[j].chat_id));
        }
        assert forall|i: int| 0 <= i < store.requests@.len() implies {
            let r = #[trigger] store.requests@[i];
            &&& store.is_group(r.chat_id)
            &&& store.has_user(r.to_user@)
            &&& !store.is_member(r.chat_id, r.to_user@)
        } by {
            assert(mid.requests@[i] == store.requests@[i]);
        }
        assert forall|i: int| 0 <= i < store.chats@.len() && #[trigger] store.chats@[i].id != chat_id implies store.has_members(
                store.chats@[i].id) by {
            assert(mid.has_members(mid.chats@[i].id));
        }
    }
    if !store.any_member(chat_id) {
        let ghost before = *store;
        cascade_delete_chat(store, chat_id);
        proof {
            pre.messages@.lemma_filter_push(mid.messages@.last(), |m: Message| m.chat_id != chat_id);
            assert(mid.messages@.filter(|m: Message| m.chat_id != chat_id) == pre.messages@.filter(
                |m: Message| m.chat_id != chat_id));
            assert forall|c: i64, u: Seq<char>|
                !(c == chat_id && u == user@) implies #[trigger] store.is_member(c, u) == pre.is_member(c, u) by {
                assert(before.is_member(c, u) == store.is_member(c, u));
            }
        }
    }
    Ok(())
}

/// `u` can be invited into chat `c`: the account exists and is not a member yet.
pub open spec fn invitable(s: ChatStore, c: i64, u: Seq<char>) -> bool {
    s.has_user(u) && !s.is_member(c, u)
}

/// Some username among `to` can be invited into chat `c`.
pub open spec fn any_invitable(s: ChatStore, c: i64, to: Seq<String>) -> bool {
    exists|j: int| 0 <= j < to.len() && invitable(s, c, #[trigger] to[j]@)
}

/// `u` is listed in `to`.
pub open spec fn listed(to: Seq<String>, u: Seq<char>) -> bool {
    exists|j: int| 0 <= j < to.len() && #[trigger] to[j]@ == u
}

/// The usernames of `to` that have no account, in their order.
pub open spec fn not_found_in(s: ChatStore, to: Seq<String>) -> Seq<String> {
    to.filter(|t: String| !s.has_user(t@))
}

/// The invitations after inviting `to` into chat `c` of `s`: those of `s`, and one
/// for each listed user that exists and is not a member.
pub open spec fn invited_after(s: ChatStore, c: i64, to: Seq<String>, d: i64, u: Seq<char>) -> bool {
    s.has_request(d, u) || (d == c && invitable(s, c, u) && listed(to, u))
}

/// Invites the users of `to_list` into group `chat_id` on behalf of `from_user`.
/// Users without an account are reported back; members are skipped; a user who
/// already holds an invitation keeps it. Fails as a whole when no listed user can
/// be invited.
pub fn insert_requests_per_user(
    store: &mut ChatStore,
    chat_id: i64,
    from_user: &String,
    to_list: &Vec<String>,
) -> (r: Result<Vec<String>, MyError>)
    requires
        old(store).wf(),
    ensures
        final(store).wf(),
        !old(store).is_group(chat_id) ==> r == Err::<Vec<String>, MyError>(MyError::ChatNotFound)
            && *final(store) == *old(store),
        old(store).is_group(chat_id) && !old(store).is_member(chat_id, from_user@) ==> r == Err::<
            Vec<String>,
            MyError,
        >(MyError::UserDoesNotBelongToGroup) && *final(store) == *old(store),
        old(store).is_group(chat_id) && old(store).is_member(chat_id, from_user@) && !any_invitable(
            *old(store),
            chat_id,
            to_list@,
        ) ==> r == Err::<Vec<String>, MyError>(MyError::UserNotFound) && *final(store) == *old(store),
        old(store).is_group(chat_id) && old(store).is_member(chat_id, from_user@) && any_invitable(
            *old(store),
            chat_id,
            to_list@,
        ) ==> {
            &&& r matches Ok(nf) && nf@ == not_found_in(*old(store), to_list@)
            &&& forall|d: i64, u: Seq<char>|
                #[trigger] final(store).has_request(d, u) == invited_after(*old(store), chat_id, to_list@, d, u)
            &&& final(store).requests@.take(old(store).requests@.len() as int) == old(store).requests@
            &&& forall|i: int|
                old(store).requests@.len() <= i < final(store).requests@.len() ==> (#[trigger] final(store).requests@[i]).chat_id
                    == chat_id && final(store).requests@[i].from_user == *from_user
            &&& final(store).users == old(store).users
            &&& final(store).chats == old(store).chats
            &&& final(store).memberships == old(store).memberships
            &&& final(store).messages == old(store).messages
            &&& final(store).next_chat_id == old(store).next_chat_id
            &&& final(store).next_message_id == old(store).next_message_id
        },
{
    if !store.chat_is_group(chat_id) {
        return Err(MyError::ChatNotFound);
    }
    if !store.membership_exists(chat_id, from_user) {
        return Err(MyError::UserDoesNotBelongToGroup);
    }
    let ghost pre = *store;
    let mut not_found: Vec<String> = Vec::new();
    let mut created = false;
    let mut i: usize = 0;
    while i < to_list.len()
        invariant
            i <= to_list@.len(),
            pre.wf(),
            store.wf(),
            pre.is_group(chat_id),
            store.users == pre.users,
            store.chats == pre.chats,
            store.memberships == pre.memberships,
            store.messages == pre.messages,
            store.next_chat_id == pre.next_chat_id,
            store.next_message_id == pre.next_message_id,
            not_found@ == not_found_in(pre, to_list@.take(i as int)),
            created == any_invitable(pre, chat_id, to_list@.take(i as int)),
            !created ==> *store == pre,
            store.requests@.take(pre.requests@.len() as int) == pre.requests@,
            pre.requests@.len() <= store.requests@.len(),
            forall|j: int|
                pre.requests@.len() <= j < store.requests@.len() ==> (#[trigger] store.requests@[j]).chat_id
                    == chat_id && store.requests@[j].from_user == *from_user,
            forall|d: i64, u: Seq<char>|
                #[trigger] store.has_request(d, u) == invited_after(pre, chat_id, to_list@.take(i as int), d, u),
        decreases to_list@.len() - i,
    {
        let ghost prev = *store;
        let to_user = &to_list[i];
        proof {
            assert(to_list@.take(i as int + 1) == to_list@.take(i as int).push(to_list@[i as int]));
            to_list@.take(i as int).lemma_filter_push(to_list@[i as int], |t: String| !pre.has_user(t@));
            assert forall|u: Seq<char>| listed(to_list@.take(i as int + 1), u) == (listed(
                to_list@.take(i as int),
                u,
            ) || u == to_user@) by {
                if listed(to_list@.take(i as int + 1), u) {
                    let j = choose|j: int| 0 <= j < i + 1 && #[trigger] to_list@.take(i as int + 1)[j]@ == u;
                    if j < i {
                        assert(to_list@.take(i as int)[j] == to_list@.take(i as int + 1)[j]);
                    }
                }
                if listed(to_list@.take(i as int), u) {
                    let j = choose|j: int| 0 <= j < i && #[trigger] to_list@.take(i as int)[j]@ == u;
                    assert(to_list@.take(i as int)[j] == to_list@.take(i as int + 1)[j]);
                }
                if u == to_user@ {
                    assert(to_list@.take(i as int + 1)[i as int] == to_user);
                }
            }
            assert(any_invitable(pre, chat_id, to_list@.take(i as int + 1)) == (any_invitable(
                pre,
                chat_id,
                to_list@.take(i as int),
            ) || invitable(pre, chat_id, to_user@))) by {
                if any_invitable(pre, chat_id, to_list@.take(i as int + 1)) {
                    let j = choose|j: int| 0 <= j < i + 1 && invitable(pre, chat_id, #[trigger] to_list@.take(i as int + 1)[j]@);
                    if j < i {
                        assert(to_list@.take(i as int)[j] == to_list@.take(i as int + 1)[j]);
                    }
                }
                if any_invitable(pre, chat_id, to_list@.take(i as int)) {
                    let j = choose|j: int| 0 <= j < i && invitable(pre, chat_id, #[trigger] to_list@.take(i as int)[j]@);
                    assert(to_list@.take(i as int)[j] == to_list@.take(i as int + 1)[j]);
                }
                if invitable(pre, chat_id, to_user@) {
                    assert(to_list@.take(i as int + 1)[i as int] == to_user);
                }
            }
        }
        if !store.user_exists(to_user) {
            not_found.push(to_user.clone());
        } else if store.membership_exists(chat_id, to_user) {
        } else {
            created = true;
            if store.find_request(chat_id, to_user).is_none() {
                store.requests.push(
                    Invitation { chat_id, from_user: from_user.clone(), to_user: to_user.clone() },
                );
                proof {
                    let rs = store.requests@;
                    let n = prev.requests@.len() as int;
                    assert(rs.take(n) == prev.requests@);
                    assert(rs.take(pre.requests@.len() as int) == prev.requests@.take(pre.requests@.len() as int));
                    assert forall|d: i64, u: Seq<char>| #[trigger] store.has_request(d, u) == (prev.has_request(d, u) || (d
                        == chat_id && u == to_user@)) by {
                        if request_in(rs, d, u) {
                            let j = choose|j: int| 0 <= j < rs.len() && #[trigger] rs[j].chat_id == d && rs[j].to_user@ == u;
                            if j < n {
                                assert(rs[j] == prev.requests@[j]);
                            }
                        }
                        if request_in(prev.requests@, d, u) {
                            let j = choose|j: int| 0 <= j < n && #[trigger] prev.requests@[j].chat_id == d && prev.requests@[j].to_user@ == u;
                            assert(rs[j] == prev.requests@[j]);
                        }
                        if d == chat_id && u == to_user@ {
                            assert(rs[n].chat_id == d);
                        }
                    }
                    assert forall|j: int| 0 <= j < rs.len() implies {
                        let r = #[trigger] rs[j];
                        &&& store.is_group(r.chat_id)
                        &&& store.has_user(r.to_user@)
                        &&& !store.is_member(r.chat_id, r.to_user@)
                    } by {
                        if j < n {
                            assert(rs[j] == prev.requests@[j]);
                        }
                    }
                    assert forall|a: int, b: int| 0 <= a < b < rs.len() implies !(rs[a].chat_id
                        == rs[b].chat_id && rs[a].to_user@ == rs[b].to_user@) by {
                        assert(rs[a] == prev.requests@[a]);
                        if b < n {
                            assert(rs[b] == prev.requests@[b]);
                        } else {
                            assert(prev.requests@[a].chat_id == prev.requests@[a].chat_id);
                            if rs[a].chat_id == rs[b].chat_id && rs[a].to_user@ == rs[b].to_user@ {
                                assert(request_in(prev.requests@, chat_id, to_user@));
                            }
                        }
                    }
                    assert forall|j: int|
                        pre.requests@.len() <= j < rs.len() implies (#[trigger] rs[j]).chat_id
                            == chat_id && rs[j].from_user == *from_user by {
                        if j < n {
                            assert(rs[j] == prev.requests@[j]);
                        }
                    }
                }
            }
        }
        i += 1;
    }
    proof {
        assert(to_list@.take(to_list@.len() as int) == to_list@);
    }
    if created {
        Ok(not_found)
    } else {
        Err(MyError::UserNotFound)
    }
}

/// The chat row at `i` is a private chat of which `a` and `b` are members.
pub open spec fn pair_chat_at(s: ChatStore, i: int, a: Seq<char>, b: Seq<char>) -> bool {
    &&& !s.chats@[i].is_group
    &&& s.is_member(s.chats@[i].id, a)
    &&& s.is_member(s.chats@[i].id, b)
}

/// The first private chat of `a` and `b` in row order, from row `i` on.
pub open spec fn pair_chat_from(s: ChatStore, a: Seq<char>, b: Seq<char>, i: int) -> Option<i64>
    decreases s.chats@.len() - i,
{
    if i < 0 || i >= s.chats@.len() {
        None
    } else if pair_chat_at(s, i, a, b) {
        Some(s.chats@[i].id)
    } else {
        pair_chat_from(s, a, b, i + 1)
    }
}

/// The private chat of `a` and `b`, if there is one.
pub open spec fn private_chat_of(s: ChatStore, a: Seq<char>, b: Seq<char>) -> Option<i64> {
    pair_chat_from(s, a, b, 0)
}

/// A private chat that has both `a` and `b` as members comes out of the search.
pub proof fn lemma_pair_chat_from(s: ChatStore, a: Seq<char>, b: Seq<char>, i: int)
    requires
        0 <= i,
    ensures
        pair_chat_from(s, a, b, i) is None <==> forall|j: int|
            i <= j < s.chats@.len() ==> !pair_chat_at(s, j, a, b),
        pair_chat_from(s, a, b, i) matches Some(c) ==> exists|j: int|
            i <= j < s.chats@.len() && pair_chat_at(s, j, a, b) && s.chats@[j].id == c,
    decreases s.chats@.len() - i,
{
    if i < s.chats@.len() {
        lemma_pair_chat_from(s, a, b, i + 1);
    }
}

/// Looks up the private chat between `a` and `b`.
pub fn find_private_chat_between(store: &ChatStore, a: &String, b: &String) -> (r: Option<i64>)
    ensures
        r == private_chat_of(*store, a@, b@),
{
    let mut i: usize = 0;
    while i < store.chats.len()
        invariant
            i <= store.chats@.len(),
            private_chat_of(*store, a@, b@) == pair_chat_from(*store, a@, b@, i as int),
        decreases store.chats@.len() - i,
    {
        let id = store.chats[i].id;
        if !store.chats[i].is_group && store.membership_exists(id, a) && store.membership_exists(id, b) {
            return Some(id);
        }
        i += 1;
    }
    None
}

/// The text of the message that opens a private chat.
pub open spec fn started_text(a: Seq<char>, b: Seq<char>) -> Seq<char> {
    a + " started a private chat with "@ + b
}

/// Adds chat row `id` with its first members `a` and `b` (which may coincide).
fn open_chat(store: &mut ChatStore, name: Option<String>, is_group: bool, a: &String, b: &String, now: u64) -> (id: i64)
    requires
        old(store).wf(),
        old(store).next_chat_id < i64::MAX,
        !is_group ==> a@ != b@ && private_chat_of(*old(store), a@, b@) is None,
    ensures
        final(store).wf(),
        id == old(store).next_chat_id,
        final(store).next_chat_id == id + 1,
        !old(store).has_chat(id),
        !old(store).has_members(id),
        final(store).chats@ == old(store).chats@.push(ChatRow { id, name, is_group, created_at: now }),
        forall|d: i64, u: Seq<char>|
            #[trigger] final(store).is_member(d, u) == (old(store).is_member(d, u) || (d == id && (u == a@
                || u == b@))),
        final(store).users == old(store).users,
        final(store).requests == old(store).requests,
        final(store).messages == old(store).messages,
        final(store).next_message_id == old(store).next_message_id,
{
    let ghost pre = *store;
    let id = store.next_chat_id;
    proof {
        if pre.has_chat(id) {
            let k = choose|k: int| 0 <= k < pre.chats@.len() && #[trigger] pre.chats@[k].id == id;
        }
        if pre.has_members(id) {
            let k = choose|k: int| 0 <= k < pre.memberships@.len() && #[trigger] pre.memberships@[k].chat_id == id;
            assert(pre.has_chat(pre.memberships@[k].chat_id));
            let j = choose|j: int| 0 <= j < pre.chats@.len() && #[trigger] pre.chats@[j].id == id;
        }
    }
    store.chats.push(ChatRow { id, name, is_group, created_at: now });
    store.next_chat_id = id + 1;
    store.memberships.push(Membership { chat_id: id, username: a.clone() });
    let same = *a == *b;
    if !same {
        store.memberships.push(Membership { chat_id: id, username: b.clone() });
    }
    proof {
        let ms = store.memberships@;
        let n = pre.memberships@.len() as int;
        let cs = store.chats@;
        assert(cs[pre.chats@.len() as int].id == id);
        assert forall|k: int| 0 <= k < n implies ms[k] == pre.memberships@[k] by {}
        assert forall|k: int| 0 <= k < ms.len() implies (k < n && ms[k] == pre.memberships@[k]) || (#[trigger] ms[k]).chat_id == id by {}
        assert forall|d: i64| #[trigger] chat_in(cs, d) == (chat_in(pre.chats@, d) || d == id) by {
            if chat_in(cs, d) {
                let j = choose|j: int| 0 <= j < cs.len() && #[trigger] cs[j].id == d;
                if j < pre.chats@.len() { assert(cs[j] == pre.chats@[j]); }
            }
            if chat_in(pre.chats@, d) {
                let j = choose|j: int| 0 <= j < pre.chats@.len() && #[trigger] pre.chats@[j].id == d;
                assert(cs[j] == pre.chats@[j]);
            }
        }
        assert forall|d: i64| d != id implies #[trigger] group_in(cs, d) == group_in(pre.chats@, d) by {
            if group_in(cs, d) {
                let j = choose|j: int| 0 <= j < cs.len() && #[trigger] cs[j].id == d && cs[j].is_group;
                if j < pre.chats@.len() { assert(cs[j] == pre.chats@[j]); }
            }
            if group_in(pre.chats@, d) {
                let j = choose|j: int| 0 <= j < pre.chats@.len() && #[trigger] pre.chats@[j].id == d && pre.chats@[j].is_group;
                assert(cs[j] == pre.chats@[j]);
            }
        }
        assert forall|d: i64, u: Seq<char>| #[trigger] member_in(ms, d, u) == (member_in(pre.memberships@, d, u) || (d == id && (u == a@
                || u == b@))) by {
            if member_in(ms, d, u) {
                let j = choose|j: int| 0 <= j < ms.len() && #[trigger] ms[j].chat_id == d && ms[j].username@ == u;
                if j < n { assert(ms[j] == pre.memberships@[j]); }
            }
            if member_in(pre.memberships@, d, u) {
                let j = choose|j: int| 0 <= j < n && #[trigger] pre.memberships@[j].chat_id == d && pre.memberships@[j].username@ == u;
                assert(ms[j] == pre.memberships@[j]);
            }
            if d == id && u == a@ {
                assert(ms[n].chat_id == d);
            }
            if d == id && u == b@ && !same {
                assert(ms[n + 1].chat_id == d);
            }
        }
        assert forall|d: i64| #[trigger] any_member_in(ms, d) == (any_member_in(pre.memberships@, d) || d == id) by {
            if any_member_in(ms, d) {
                let j = choose|j: int| 0 <= j < ms.len() && #[trigger] ms[j].chat_id == d;
                if j < n { assert(ms[j] == pre.memberships@[j]); }
            }
            if any_member_in(pre.memberships@, d) {
                let j = choose|j: int| 0 <= j < n && #[trigger] pre.memberships@[j].chat_id == d;
                assert(ms[j] == pre.memberships@[j]);
            }
            if d == id {
                assert(ms[n].chat_id == d);
            }
        }
        assert forall|k: int| 0 <= k < n implies (#[trigger] pre.memberships@[k]).chat_id != id by {
            assert(pre.has_chat(pre.memberships@[k].chat_id));
        }
        assert forall|i: int, j: int| 0 <= i < j < ms.len() implies !(ms[i].chat_id == ms[j].chat_id && ms[i].username@
            == ms[j].username@) by {
            if j < n {
                assert(ms[i] == pre.memberships@[i]);
                assert(ms[j] == pre.memberships@[j]);
            } else if i < n {
                assert(ms[i] == pre.memberships@[i]);
            }
        }
        assert forall|k: int| 0 <= k < ms.len() implies store.has_chat(#[trigger] ms[k].chat_id) by {
            if k < n { assert(pre.has_chat(pre.memberships@[k].chat_id)); }
        }
        assert forall|k: int| 0 <= k < cs.len() implies 1 <= #[trigger] cs[k].id < store.next_chat_id
            && store.has_members(cs[k].id) by {
            if k < pre.chats@.len() {
                assert(cs[k] == pre.chats@[k]);
                assert(pre.has_members(pre.chats@[k].id));
            }
        }
        assert forall|i: int, j: int| 0 <= i < j < cs.len() implies cs[i].id != cs[j].id by {
            assert(cs[i] == pre.chats@[i]);
            if j < pre.chats@.len() { assert(cs[j] == pre.chats@[j]); }
        }
        assert forall|k: int| 0 <= k < store.requests@.len() implies {
            let r = #[trigger] store.requests@[k];
            &&& store.is_group(r.chat_id)
            &&& store.has_user(r.to_user@)
            &&& !store.is_member(r.chat_id, r.to_user@)
        } by {
            let r = store.requests@[k];
            assert(pre.is_group(r.chat_id));
            if r.chat_id == id {
                let j = choose|j: int| 0 <= j < pre.chats@.len() && #[trigger] pre.chats@[j].id == id && pre.chats@[j].is_group;
            }
        }
        assert forall|d: i64| private_in(pre.chats@, d) implies d != id by {
            let j = choose|j: int| 0 <= j < pre.chats@.len() && #[trigger] pre.chats@[j].id == d && !pre.chats@[j].is_group;
        }
        assert forall|d: i64, u: Seq<char>| private_in(pre.chats@, d) implies #[trigger] member_in(ms, d, u)
            == member_in(pre.memberships@, d, u) by {}
        lemma_private_frame(pre.chats@, pre.memberships@, pre.chats@, ms);
        let row = ChatRow { id, name, is_group, created_at: now };
        assert(cs == pre.chats@.push(row));
        if is_group {
            assert forall|d: i64| #[trigger] private_in(cs, d) implies private_in(pre.chats@, d) by {
                let j = choose|j: int| 0 <= j < cs.len() && #[trigger] cs[j].id == d && !cs[j].is_group;
                if j < pre.chats@.len() { assert(cs[j] == pre.chats@[j]); }
            }
            lemma_private_frame(pre.chats@, ms, cs, ms);
        } else {
            lemma_pair_chat_from(pre, a@, b@, 0);
            assert forall|d: i64| private_in(pre.chats@, d) implies !(#[trigger] member_in(ms, d, a@) && member_in(ms, d, b@)) by {
                let j = choose|j: int| 0 <= j < pre.chats@.len() && #[trigger] pre.chats@[j].id == d && !pre.chats@[j].is_group;
                assert(!pair_chat_at(pre, j, a@, b@));
            }
            lemma_private_add(pre.chats@, ms, row, a@, b@);
        }
    }
    id
}

/// What opening the private chat of `creator` and `other_username` does to `pre`.
pub open spec fn private_chat_outcome(pre: ChatStore, post: ChatStore, creator: String, other_username: String, now: u64, r: Result<(i64, bool), MyError>) -> bool {
    &&& !pre.has_user(other_username@) ==> r == Err::<(i64, bool), MyError>(MyError::UserNotFound)
            && post == pre
    &&& pre.has_user(other_username@) && creator@ == other_username@ ==> r == Err::<(i64, bool), MyError>(
            MyError::UserAlreadyInGroup,
        ) && post == pre
    &&& pre.has_user(other_username@) && creator@ != other_username@ ==> match private_chat_of(
            pre,
            creator@,
            other_username@,
        ) {
            Some(c) => r == Ok::<(i64, bool), MyError>((c, true)) && post == pre,
            None => {
                let id = pre.next_chat_id;
                let m = Message {
                    id: pre.next_message_id,
                    chat_id: id,
                    msg: post.messages@.last().msg,
                    from_user: creator,
                    is_auto: true,
                    send_at: now,
                };
                &&& r == Ok::<(i64, bool), MyError>((id, false))
                &&& post.chats@ == pre.chats@.push(
                    ChatRow { id, name: None, is_group: false, created_at: now },
                )
                &&& forall|d: i64, u: Seq<char>|
                    #[trigger] post.is_member(d, u) == (pre.is_member(d, u) || (d == id && (u
                        == creator@ || u == other_username@)))
                &&& post.messages@ == pre.messages@.push(m)
                &&& m.msg@ == started_text(creator@, other_username@)
                &&& post.users == pre.users
                &&& post.requests == pre.requests
                &&& post.next_chat_id == id + 1
                &&& post.next_message_id == pre.next_message_id + 1
            },
        }
}

/// Opens the private chat between `creator` and `other_username`, or returns the
/// one that exists already. The second component of the result tells which.
/// Fails with `UserNotFound` when `other_username` has no account, and with
/// `UserAlreadyInGroup` when both names are the same.
pub fn create_private_chat(store: &mut ChatStore, creator: &String, other_username: &String, now: u64) -> (r: Result<
    (i64, bool),
    MyError,
>)
    requires
        old(store).wf(),
        old(store).next_chat_id < i64::MAX,
        old(store).next_message_id < i64::MAX,
    ensures
        final(store).wf(),
        private_chat_outcome(*old(store), *final(store), *creator, *other_username, now, r),
{
    if !store.user_exists(other_username) {
        return Err(MyError::UserNotFound);
    }
    if *creator == *other_username {
        return Err(MyError::UserAlreadyInGroup);
    }
    if let Some(c) = find_private_chat_between(store, creator, other_username) {
        return Ok((c, true));
    }
    let id = open_chat(store, None, false, creator, other_username, now);
    let ghost mid = *store;
    let head = joined(creator, " started a private chat with ");
    let text = joined(&head, other_username.as_str());
    let _ = insert_message(store, id, creator, &text, true, now);
    proof {
        assert forall|d: i64, u: Seq<char>| #[trigger] store.is_member(d, u) == mid.is_member(d, u) by {}
    }
    Ok((id, false))
}

/// The text of the message that records `u` joining a group.
pub open spec fn joined_text(u: Seq<char>) -> Seq<char> {
    u + " joined the group"@
}

/// What declining the invitation of `to_user` into `chat_id` does to `pre`.
pub open spec fn decline_outcome(pre: ChatStore, post: ChatStore, chat_id: i64, to_user: String, r: bool) -> bool {
    &&& r == pre.has_request(chat_id, to_user@)
    &&& forall|d: i64, u: Seq<char>|
            #[trigger] post.has_request(d, u) == (pre.has_request(d, u) && !(d == chat_id
                && u == to_user@))
    &&& !r ==> post == pre
    &&& post.users == pre.users
    &&& post.chats == pre.chats
    &&& post.memberships == pre.memberships
    &&& post.messages == pre.messages
    &&& post.next_chat_id == pre.next_chat_id
    &&& post.next_message_id == pre.next_message_id
}

/// Withdraws the pending invitation of `to_user` into `chat_id`, if any, and
/// tells whether there was one. Declining twice is harmless.
pub fn delete_request(store: &mut ChatStore, chat_id: i64, to_user: &String) -> (r: bool)
    requires
        old(store).wf(),
    ensures
        final(store).wf(),
        decline_outcome(*old(store), *final(store), chat_id, *to_user, r),
{
    match store.find_request(chat_id, to_user) {
        Some(k) => {
            let ghost pre = *store;
            store.requests.remove(k);
            proof {
                lemma_request_remove(pre.requests@, k as int);
                assert forall|i: int| 0 <= i < store.requests@.len() implies {
                    let r = #[trigger] store.requests@[i];
                    &&& store.is_group(r.chat_id)
                    &&& store.has_user(r.to_user@)
                    &&& !store.is_member(r.chat_id, r.to_user@)
                } by {
                    assert(pre.requests@.contains(store.requests@[i]));
                }
            }
            true
        },
        None => false,
    }
}

/// What accepting the invitation of `to_user` into `chat_id` does to `pre`.
pub open spec fn accept_outcome(pre: ChatStore, post: ChatStore, chat_id: i64, to_user: String, now: u64, r: Result<(), MyError>) -> bool {
    &&& !pre.has_request(chat_id, to_user@) ==> r == Err::<(), MyError>(MyError::UserAlreadyInGroup)
            && post == pre
    &&& pre.has_request(chat_id, to_user@) ==> {
            let m = Message {
                id: pre.next_message_id,
                chat_id,
                msg: post.messages@.last().msg,
                from_user: to_user,
                is_auto: true,
                send_at: now,
            };
            &&& r is Ok
            &&& forall|d: i64, u: Seq<char>|
                #[trigger] post.is_member(d, u) == (pre.is_member(d, u) || (d == chat_id && u
                    == to_user@))
            &&& forall|d: i64, u: Seq<char>|
                #[trigger] post.has_request(d, u) == (pre.has_request(d, u) && !(d == chat_id
                    && u == to_user@))
            &&& post.messages@ == pre.messages@.push(m)
            &&& m.msg@ == joined_text(to_user@)
            &&& post.users == pre.users
            &&& post.chats == pre.chats
            &&& post.next_chat_id == pre.next_chat_id
            &&& post.next_message_id == pre.next_message_id + 1
        }
}

/// `to_user` accepts the invitation into `chat_id`: the membership is added, a
/// "joined" message recorded and the invitation withdrawn. Without a pending
/// invitation nothing changes and `UserAlreadyInGroup` is returned.
pub fn accept_request(store: &mut ChatStore, chat_id: i64, to_user: &String, now: u64) -> (r: Result<(), MyError>)
    requires
        old(store).wf(),
        old(store).next_message_id < i64::MAX,
    ensures
        final(store).wf(),
        accept_outcome(*old(store), *final(store), chat_id, *to_user, now, r),
{
    let k = match store.find_request(chat_id, to_user) {
        Some(k) => k,
        None => {
            return Err(MyError::UserAlreadyInGroup);
        },
    };
    let ghost pre = *store;
    store.requests.remove(k);
    store.memberships.push(Membership { chat_id, username: to_user.clone() });
    proof {
        let rq = pre.requests@[k as int];
        assert(pre.is_group(rq.chat_id) && !pre.is_member(chat_id, to_user@));
        lemma_kind_unique(pre.chats@, chat_id);
        lemma_request_remove(pre.requests@, k as int);
        let ms = store.memberships@;
        let n = pre.memberships@.len() as int;
        assert forall|d: i64, u: Seq<char>| #[trigger] member_in(ms, d, u) == (member_in(pre.memberships@, d, u) || (d == chat_id && u
                == to_user@)) by {
            if member_in(ms, d, u) {
                let j = choose|j: int| 0 <= j < ms.len() && #[trigger] ms[j].chat_id == d && ms[j].username@ == u;
                if j < n { assert(ms[j] == pre.memberships@[j]); }
            }
            if member_in(pre.memberships@, d, u) {
                let j = choose|j: int| 0 <= j < n && #[trigger] pre.memberships@[j].chat_id == d && pre.memberships@[j].username@ == u;
                assert(ms[j] == pre.memberships@[j]);
            }
            if d == chat_id && u == to_user@ {
                assert(ms[n].chat_id == d);
            }
        }
        assert forall|d: i64| #[trigger] any_member_in(pre.memberships@, d) ==> any_member_in(ms, d) by {
            if any_member_in(pre.memberships@, d) {
                let j = choose|j: int| 0 <= j < n && #[trigger] pre.memberships@[j].chat_id == d;
                assert(ms[j] == pre.memberships@[j]);
            }
        }
        assert forall|i: int, j: int| 0 <= i < j < ms.len() implies !(ms[i].chat_id == ms[j].chat_id && ms[i].username@
            == ms[j].username@) by {
            assert(ms[i] == pre.memberships@[i]);
            if j < n {
                assert(ms[j] == pre.memberships@[j]);
            }
        }
        assert forall|k: int| 0 <= k < ms.len() implies store.has_chat(#[trigger] ms[k].chat_id) by {
            if k < n { assert(ms[k] == pre.memberships@[k]); } else {
                let j = choose|j: int| 0 <= j < pre.chats@.len() && #[trigger] pre.chats@[j].id == chat_id && pre.chats@[j].is_group;
            }
        }
        assert forall|i: int| 0 <= i < store.chats@.len() implies store.has_members(#[trigger] store.chats@[i].id) by {
            assert(pre.has_members(pre.chats@[i].id));
        }
        assert forall|c: i64, u: Seq<char>| private_in(store.chats@, c) implies #[trigger] member_in(store.memberships@, c, u)
            == member_in(pre.memberships@, c, u) by {}
        lemma_private_frame(pre.chats@, pre.memberships@, store.chats@, store.memberships@);
        assert forall|i: int| 0 <= i < store.requests@.len() implies {
            let r = #[trigger] store.requests@[i];
            &&& store.is_group(r.chat_id)
            &&& store.has_user(r.to_user@)
            &&& !store.is_member(r.chat_id, r.to_user@)
        } by {
            assert(pre.requests@.contains(store.requests@[i]));
            let r = store.requests@[i];
            assert(!request_in(store.requests@, chat_id, to_user@));
            if r.chat_id == chat_id && r.to_user@ == to_user@ {
                assert(request_in(store.requests@, chat_id, to_user@));
            }
        }
    }
    let ghost mid = *store;
    let text = joined(to_user, " joined the group");
    let _ = insert_message(store, chat_id, to_user, &text, true, now);
    proof {
        assert forall|d: i64, u: Seq<char>| #[trigger] store.is_member(d, u) == mid.is_member(d, u) by {}
        assert forall|d: i64, u: Seq<char>| #[trigger] store.has_request(d, u) == mid.has_request(d, u) by {}
    }
    Ok(())
}

/// The text of the message that announces a new group.
pub open spec fn created_text(u: Seq<char>) -> Seq<char> {
    u + " created the group"@
}

/// Some listed participant is not the creator.
pub open spec fn others_listed(ps: Seq<String>, creator: Seq<char>) -> bool {
    exists|j: int| 0 <= j < ps.len() && #[trigger] ps[j]@ != creator
}

/// Some listed participant other than the creator has an account.
pub open spec fn others_with_account(s: ChatStore, ps: Seq<String>, creator: Seq<char>) -> bool {
    exists|j: int| 0 <= j < ps.len() && #[trigger] ps[j]@ != creator && s.has_user(ps[j]@)
}

/// Creates a group named `name` with `creator` as its only member, invites every
/// other listed participant that has an account, and records a "created" message.
/// Fails with `UserNotFound`, changing nothing, when others are listed but none of
/// them has an account.
pub fn create_group(
    store: &mut ChatStore,
    name: Option<String>,
    creator: &String,
    participants: &Vec<String>,
    now: u64,
) -> (r: Result<i64, MyError>)
    requires
        old(store).wf(),
        old(store).next_chat_id < i64::MAX,
        old(store).next_message_id < i64::MAX,
    ensures
        final(store).wf(),
        others_listed(participants@, creator@) && !others_with_account(*old(store), participants@, creator@)
            ==> r == Err::<i64, MyError>(MyError::UserNotFound) && *final(store) == *old(store),
        !others_listed(participants@, creator@) || others_with_account(*old(store), participants@, creator@)
            ==> {
            let id = old(store).next_chat_id;
            let m = Message {
                id: old(store).next_message_id,
                chat_id: id,
                msg: final(store).messages@.last().msg,
                from_user: *creator,
                is_auto: true,
                send_at: now,
            };
            &&& r == Ok::<i64, MyError>(id)
            &&& final(store).chats@ == old(store).chats@.push(
                ChatRow { id, name, is_group: true, created_at: now },
            )
            &&& forall|d: i64, u: Seq<char>|
                #[trigger] final(store).is_member(d, u) == (old(store).is_member(d, u) || (d == id && u == creator@))
            &&& forall|d: i64, u: Seq<char>|
                #[trigger] final(store).has_request(d, u) == (old(store).has_request(d, u) || (d == id && u != creator@
                    && old(store).has_user(u) && listed(participants@, u)))
            &&& final(store).messages@ == old(store).messages@.push(m)
            &&& m.msg@ == created_text(creator@)
            &&& final(store).users == old(store).users
            &&& final(store).next_chat_id == id + 1
            &&& final(store).next_message_id == old(store).next_message_id + 1
        },
{
    let mut to_list: Vec<String> = Vec::new();
    let mut any_user = false;
    let mut i: usize = 0;
    while i < participants.len()
        invariant
            i <= participants@.len(),
            forall|k: int| 0 <= k < to_list@.len() ==> (#[trigger] to_list@[k])@ != creator@,
            forall|u: Seq<char>|
                #[trigger] listed(to_list@, u) == (listed(participants@.take(i as int), u) && u != creator@),
            (to_list@.len() > 0) == others_listed(participants@.take(i as int), creator@),
            any_user == others_with_account(*store, participants@.take(i as int), creator@),
        decreases participants@.len() - i,
    {
        let p = &participants[i];
        let ghost t0 = participants@.take(i as int);
        let ghost t1 = participants@.take(i as int + 1);
        let ghost before = to_list@;
        proof {
            assert(t1 == t0.push(participants@[i as int]));
        }
        if *p != *creator {
            to_list.push(p.clone());
            if store.user_exists(p) {
                any_user = true;
            }
        }
        proof {
            assert forall|u: Seq<char>| #[trigger] listed(to_list@, u) == (listed(t1, u) && u != creator@) by {
                if listed(to_list@, u) {
                    let j = choose|j: int| 0 <= j < to_list@.len() && #[trigger] to_list@[j]@ == u;
                    if j < before.len() {
                        assert(to_list@[j] == before[j]);
                        assert(listed(before, u));
                        let q = choose|q: int| 0 <= q < t0.len() && #[trigger] t0[q]@ == u;
                        assert(t1[q] == t0[q]);
                    } else {
                        assert(t1[i as int] == p);
                    }
                }
                if listed(t1, u) && u != creator@ {
                    let q = choose|q: int| 0 <= q < t1.len() && #[trigger] t1[q]@ == u;
                    if q < i {
                        assert(t1[q] == t0[q]);
                        assert(listed(t0, u));
                        assert(listed(before, u));
                        let j = choose|j: int| 0 <= j < before.len() && #[trigger] before[j]@ == u;
                        assert(to_list@[j] == before[j]);
                    } else {
                        assert(to_list@[before.len() as int] == p);
                    }
                }
            }
            if others_listed(t1, creator@) {
                let q = choose|q: int| 0 <= q < t1.len() && #[trigger] t1[q]@ != creator@;
                if q < i { assert(t1[q] == t0[q]); }
            }
            if others_listed(t0, creator@) {
                let q = choose|q: int| 0 <= q < t0.len() && #[trigger] t0[q]@ != creator@;
                assert(t1[q] == t0[q]);
            }
            if others_with_account(*store, t1, creator@) {
                let q = choose|q: int| 0 <= q < t1.len() && #[trigger] t1[q]@ != creator@ && store.has_user(t1[q]@);
                if q < i { assert(t1[q] == t0[q]); }
            }
            if others_with_account(*store, t0, creator@) {
                let q = choose|q: int| 0 <= q < t0.len() && #[trigger] t0[q]@ != creator@ && store.has_user(t0[q]@);
                assert(t1[q] == t0[q]);
            }
            if any_user && !others_with_account(*store, t0, creator@) {
                assert(t1[i as int] == p);
            }
            if to_list@.len() > 0 && !others_listed(t0, creator@) {
                assert(t1[i as int] == p);
            }
        }
        i += 1;
    }
    proof {
        assert(participants@.take(participants@.len() as int) == participants@);
    }
    if to_list.len() > 0 && !any_user {
        return Err(MyError::UserNotFound);
    }
    let ghost pre = *store;
    let id = open_chat(store, name, true, creator, creator, now);
    let ghost mid = *store;
    if to_list.len() > 0 {
        proof {
            assert(group_in(store.chats@, id)) by {
                assert(store.chats@[pre.chats@.len() as int].id == id);
            }
            let q = choose|q: int| 0 <= q < participants@.len() && #[trigger] participants@[q]@ != creator@ && pre.has_user(participants@[q]@);
            assert(listed(participants@, participants@[q]@));
            assert(listed(to_list@, participants@[q]@));
            let j = choose|j: int| 0 <= j < to_list@.len() && #[trigger] to_list@[j]@ == participants@[q]@;
            assert(invitable(mid, id, to_list@[j]@));
        }
        let _ = insert_requests_per_user(store, id, creator, &to_list);
    }
    let ghost after = *store;
    let text = joined(creator, " created the group");
    let _ = insert_message(store, id, creator, &text, true, now);
    proof {
        assert forall|d: i64, u: Seq<char>| #[trigger] store.is_member(d, u) == mid.is_member(d, u) by {
            assert(after.is_member(d, u) == mid.is_member(d, u));
        }
        assert forall|d: i64, u: Seq<char>| #[trigger] store.has_request(d, u) == (pre.has_request(d, u) || (d == id && u != creator@
                    && pre.has_user(u) && listed(participants@, u))) by {
            assert(after.has_request(d, u) == store.has_request(d, u));
            assert(mid.has_request(d, u) == pre.has_request(d, u));
            if to_list@.len() > 0 {
                assert(after.has_request(d, u) == invited_after(mid, id, to_list@, d, u));
            } else {
                if listed(participants@, u) && u != creator@ {
                    let q = choose|q: int| 0 <= q < participants@.len() && #[trigger] participants@[q]@ == u;
                    assert(others_listed(participants@, creator@));
                }
            }
        }
    }
    Ok(id)
}

} // verus!
