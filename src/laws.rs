use vstd::prelude::*;
use crate::error::MyError;
use crate::lifecycle::{
    accept_outcome, decline_outcome, leave_outcome, pair_chat_at, private_chat_of,
    private_chat_outcome, lemma_pair_chat_from,
};
use crate::model::Message;
use crate::store::{ChatStore, Membership, membership_in, message_in, sole_member_in, private_in, private_ok, same_members, two_members};

verus! {

/// A chat row never outlives its members: in a well-formed store every chat has
/// at least one membership.
pub proof fn lemma_chat_never_empty(s: ChatStore, c: i64)
    requires
        s.wf(),
        s.has_chat(c),
    ensures
        s.memberships@.filter(membership_in(c)).len() > 0,
{
    let i = choose|i: int| 0 <= i < s.chats@.len() && #[trigger] s.chats@[i].id == c;
    assert(s.has_members(s.chats@[i].id));
    let j = choose|j: int| 0 <= j < s.memberships@.len() && #[trigger] s.memberships@[j].chat_id == c;
    s.memberships@.filter_lemma(membership_in(c));
    assert(s.memberships@.filter(membership_in(c)).contains(s.memberships@[j]));
}

/// Opening the private chat of the same two users twice gives the same chat both
/// times: the second call reports that it existed and changes nothing.
pub proof fn lemma_private_chat_idempotent(
    s0: ChatStore,
    s1: ChatStore,
    s2: ChatStore,
    a: String,
    b: String,
    t1: u64,
    t2: u64,
    r1: Result<(i64, bool), MyError>,
    r2: Result<(i64, bool), MyError>,
)
    requires
        s0.wf(),
        private_chat_outcome(s0, s1, a, b, t1, r1),
        private_chat_outcome(s1, s2, a, b, t2, r2),
    ensures
        s2 == s1,
        r2 == match r1 {
            Ok((c, _)) => Ok::<(i64, bool), MyError>((c, true)),
            Err(e) => Err::<(i64, bool), MyError>(e),
        },
{
    if s0.has_user(b@) && a@ != b@ && private_chat_of(s0, a@, b@) is None {
        let id = s0.next_chat_id;
        let n = s0.chats@.len() as int;
        lemma_pair_chat_from(s0, a@, b@, 0);
        lemma_pair_chat_from(s1, a@, b@, 0);
        assert(s1.has_user(b@));
        assert(s1.chats@[n].id == id);
        assert(pair_chat_at(s1, n, a@, b@));
        match private_chat_of(s1, a@, b@) {
            Some(c) => {
                let j = choose|j: int| 0 <= j < s1.chats@.len() && pair_chat_at(s1, j, a@, b@) && s1.chats@[j].id == c;
                if j < n {
                    assert(s1.chats@[j] == s0.chats@[j]);
                    assert(s0.chats@[j].id < id);
                    assert(s0.is_member(s0.chats@[j].id, a@) == s1.is_member(s1.chats@[j].id, a@));
                    assert(s0.is_member(s0.chats@[j].id, b@) == s1.is_member(s1.chats@[j].id, b@));
                    assert(pair_chat_at(s0, j, a@, b@));
                }
            },
            None => {},
        }
    }
}

/// Leaving a group that keeps other members leaves the chat in place, the others
/// still members and its history kept with the "left" message appended. Leaving
/// as the last member removes the chat, all its memberships and all its messages.
pub proof fn lemma_leave_group(s0: ChatStore, s1: ChatStore, c: i64, u: String, now: u64, r: Result<(), MyError>)
    requires
        s0.wf(),
        leave_outcome(s0, s1, c, u, now, r),
        s0.is_group(c),
        s0.is_member(c, u@),
    ensures
        r is Ok,
        !s1.is_member(c, u@),
        !sole_member_in(s0.memberships@, c, u@) ==> {
            &&& s1.is_group(c)
            &&& forall|v: Seq<char>| v != u@ ==> #[trigger] s1.is_member(c, v) == s0.is_member(c, v)
            &&& s1.messages_of(c) == s0.messages_of(c).push(s1.messages@.last())
        },
        sole_member_in(s0.memberships@, c, u@) ==> {
            &&& !s1.has_chat(c)
            &&& s1.memberships@.filter(membership_in(c)).len() == 0
            &&& s1.messages_of(c).len() == 0
        },
{
    if !sole_member_in(s0.memberships@, c, u@) {
        assert forall|v: Seq<char>| v != u@ implies #[trigger] s1.is_member(c, v) == s0.is_member(c, v) by {}
        s0.messages@.lemma_filter_push(s1.messages@.last(), message_in(c));
    } else {
        let ms = s1.memberships@;
        ms.filter_lemma(membership_in(c));
        if ms.filter(membership_in(c)).len() > 0 {
            let x = ms.filter(membership_in(c))[0];
            assert(ms.filter(membership_in(c)).contains(x));
            ms.lemma_filter_contains_rev(membership_in(c), x);
            ms.lemma_filter_pred(membership_in(c), 0);
            let j = choose|j: int| 0 <= j < ms.len() && ms[j] == x;
            assert(ms[j].chat_id == c);
        }
        let keep = |m: Message| m.chat_id != c;
        let kept = s0.messages@.filter(keep);
        kept.filter_lemma(message_in(c));
        s0.messages@.filter_lemma(keep);
        if kept.filter(message_in(c)).len() > 0 {
            let x = kept.filter(message_in(c))[0];
            assert(kept.filter(message_in(c)).contains(x));
            kept.lemma_filter_contains_rev(message_in(c), x);
            kept.lemma_filter_pred(message_in(c), 0);
            let j = choose|j: int| 0 <= j < kept.len() && kept[j] == x;
            s0.messages@.lemma_filter_pred(keep, j);
        }
    }
}

/// Declining an invitation right after accepting it finds nothing to decline: the
/// decline reports `false` and changes nothing.
pub proof fn lemma_accept_then_decline(
    s0: ChatStore,
    s1: ChatStore,
    s2: ChatStore,
    c: i64,
    u: String,
    now: u64,
    r1: Result<(), MyError>,
    r2: bool,
)
    requires
        s0.wf(),
        accept_outcome(s0, s1, c, u, now, r1),
        decline_outcome(s1, s2, c, u, r2),
    ensures
        !r2,
        s2 == s1,
{
    if s0.has_request(c, u@) {
        assert(s1.has_request(c, u@) == (s0.has_request(c, u@) && !(c == c && u@ == u@)));
    }
}

/// A private chat always has exactly two distinct members, and no two private
/// chats have the same members: there is at most one per pair of users.
pub proof fn lemma_private_chats(s: ChatStore, c: i64, d: i64)
    requires
        s.wf(),
        private_in(s.chats@, c),
    ensures
        two_members(s.memberships@, c),
        private_in(s.chats@, d) && same_members(s.memberships@, c, d) ==> c == d,
{
    reveal(private_ok);
}

} // verus!
