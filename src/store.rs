use vstd::prelude::*;
use crate::error::MyError;
use crate::model::{CreateUserRequest, Message, User};

verus! {

/// A chat row: `is_group == false` marks a private chat between two users.
#[derive(Debug)]
pub struct ChatRow {
    pub id: i64,
    pub name: Option<String>,
    pub is_group: bool,
    pub created_at: u64,
}

impl Invitation {
    /// A field-by-field copy.
    pub fn copied(&self) -> (r: Invitation)
        ensures
            r == *self,
    {
        Invitation { chat_id: self.chat_id, from_user: self.from_user.clone(), to_user: self.to_user.clone() }
    }
}

/// The fact that `username` currently participates in chat `chat_id`.
#[derive(Debug)]
pub struct Membership {
    pub chat_id: i64,
    pub username: String,
}

/// A pending invitation of `to_user` into group `chat_id`, issued by `from_user`.
#[derive(Debug)]
pub struct Invitation {
    pub chat_id: i64,
    pub from_user: String,
    pub to_user: String,
}

/// The durable records of the chat service: users, chats, memberships,
/// pending invitations and messages. Every operation on it is one atomic step.
pub struct ChatStore {
    pub users: Vec<User>,
    pub chats: Vec<ChatRow>,
    pub memberships: Vec<Membership>,
    pub requests: Vec<Invitation>,
    pub messages: Vec<Message>,
    pub next_chat_id: i64,
    pub next_message_id: i64,
}

/// The message belongs to chat `c`.
pub open spec fn message_in(c: i64) -> spec_fn(Message) -> bool {
    |m: Message| m.chat_id == c
}

/// The membership is one of chat `c`.
pub open spec fn membership_in(c: i64) -> spec_fn(Membership) -> bool {
    |m: Membership| m.chat_id == c
}

/// The invitation is addressed to `u`.
pub open spec fn request_to(u: Seq<char>) -> spec_fn(Invitation) -> bool {
    |q: Invitation| q.to_user@ == u
}

pub open spec fn user_in(us: Seq<User>, u: Seq<char>) -> bool {
    exists|i: int| 0 <= i < us.len() && #[trigger] us[i].username@ == u
}

pub open spec fn chat_in(cs: Seq<ChatRow>, c: i64) -> bool {
    exists|i: int| 0 <= i < cs.len() && #[trigger] cs[i].id == c
}

pub open spec fn group_in(cs: Seq<ChatRow>, c: i64) -> bool {
    exists|i: int| 0 <= i < cs.len() && #[trigger] cs[i].id == c && cs[i].is_group
}

/// Chat `c` has a row that marks it private.
pub open spec fn private_in(cs: Seq<ChatRow>, c: i64) -> bool {
    exists|i: int| 0 <= i < cs.len() && #[trigger] cs[i].id == c && !cs[i].is_group
}

/// The pair of `a` and `b`; it names the witnesses of `two_members`.
pub open spec fn pair_of(a: Seq<char>, b: Seq<char>) -> (Seq<char>, Seq<char>) {
    (a, b)
}

/// Chat `c` has exactly two members, and they differ.
pub open spec fn two_members(ms: Seq<Membership>, c: i64) -> bool {
    exists|a: Seq<char>, b: Seq<char>|
        #![trigger pair_of(a, b)]
        a != b && member_in(ms, c, a) && member_in(ms, c, b) && forall|u: Seq<char>|
            #[trigger] member_in(ms, c, u) ==> u == a || u == b
}

/// Chats `c` and `d` have the same members.
pub open spec fn same_members(ms: Seq<Membership>, c: i64, d: i64) -> bool {
    forall|u: Seq<char>| #[trigger] member_in(ms, c, u) == member_in(ms, d, u)
}

/// Every private chat has two distinct members, and no two private chats have the
/// same members.
#[verifier::opaque]
pub open spec fn private_ok(cs: Seq<ChatRow>, ms: Seq<Membership>) -> bool {
    &&& forall|c: i64| #[trigger] private_in(cs, c) ==> two_members(ms, c)
    &&& forall|c: i64, d: i64|
        #[trigger] private_in(cs, c) && #[trigger] private_in(cs, d) && same_members(ms, c, d) ==> c == d
}

/// The private-chat facts carry over to a store whose private chats are among the
/// old ones, with the same members.
pub proof fn lemma_private_frame(cs1: Seq<ChatRow>, ms1: Seq<Membership>, cs2: Seq<ChatRow>, ms2: Seq<Membership>)
    requires
        private_ok(cs1, ms1),
        forall|c: i64| #[trigger] private_in(cs2, c) ==> private_in(cs1, c),
        forall|c: i64, u: Seq<char>| private_in(cs2, c) ==> #[trigger] member_in(ms2, c, u) == member_in(ms1, c, u),
    ensures
        private_ok(cs2, ms2),
{
    reveal(private_ok);
    assert forall|c: i64| #[trigger] private_in(cs2, c) implies two_members(ms2, c) by {
        assert(private_in(cs1, c));
        assert(two_members(ms1, c));
        let (a, b) = choose|a: Seq<char>, b: Seq<char>|
            #![trigger member_in(ms1, c, a), member_in(ms1, c, b)]
            a != b && member_in(ms1, c, a) && member_in(ms1, c, b) && forall|u: Seq<char>|
                #[trigger] member_in(ms1, c, u) ==> u == a || u == b;
        assert(member_in(ms1, c, a));
        assert(member_in(ms2, c, a) && member_in(ms2, c, b));
        assert(pair_of(a, b) == (a, b));
        assert forall|u: Seq<char>| #[trigger] member_in(ms2, c, u) implies u == a || u == b by {
            assert(member_in(ms1, c, u));
        }
    }
    assert forall|c: i64, d: i64|
        #[trigger] private_in(cs2, c) && #[trigger] private_in(cs2, d) && same_members(ms2, c, d) implies c == d by {
        assert(private_in(cs1, c) && private_in(cs1, d));
        assert forall|u: Seq<char>| #[trigger] member_in(ms1, c, u) == member_in(ms1, d, u) by {
            assert(member_in(ms2, c, u) == member_in(ms2, d, u));
        }
    }
}

/// Adding a row adds its chat to the private ones exactly when it is private.
pub proof fn lemma_private_push(cs: Seq<ChatRow>, row: ChatRow)
    ensures
        forall|d: i64| #[trigger] private_in(cs.push(row), d) == (private_in(cs, d) || (d == row.id && !row.is_group)),
{
    let cs2 = cs.push(row);
    assert forall|d: i64| #[trigger] private_in(cs2, d) == (private_in(cs, d) || (d == row.id && !row.is_group)) by {
        if private_in(cs2, d) {
            let j = choose|j: int| 0 <= j < cs2.len() && #[trigger] cs2[j].id == d && !cs2[j].is_group;
            if j < cs.len() { assert(cs2[j] == cs[j]); }
        }
        if private_in(cs, d) {
            let j = choose|j: int| 0 <= j < cs.len() && #[trigger] cs[j].id == d && !cs[j].is_group;
            assert(cs2[j] == cs[j]);
        }
        if d == row.id && !row.is_group {
            assert(cs2[cs.len() as int] == row);
        }
    }
}

/// A new private chat whose two members share no other private chat keeps the
/// private-chat facts.
pub proof fn lemma_private_add(cs: Seq<ChatRow>, ms: Seq<Membership>, row: ChatRow, a: Seq<char>, b: Seq<char>)
    requires
        private_ok(cs, ms),
        !row.is_group,
        !chat_in(cs, row.id),
        a != b,
        forall|u: Seq<char>| #[trigger] member_in(ms, row.id, u) == (u == a || u == b),
        forall|d: i64| private_in(cs, d) ==> !(#[trigger] member_in(ms, d, a) && member_in(ms, d, b)),
    ensures
        private_ok(cs.push(row), ms),
{
    let n = row.id;
    assert(!private_in(cs, n)) by {
        if private_in(cs, n) {
            let j = choose|j: int| 0 <= j < cs.len() && #[trigger] cs[j].id == n && !cs[j].is_group;
        }
    }
    lemma_two_of(ms, n, a, b);
    assert forall|d: i64| #[trigger] private_in(cs, d) implies !same_members(ms, n, d) by {
        if same_members(ms, n, d) {
            assert(member_in(ms, n, a) == member_in(ms, d, a));
            assert(member_in(ms, n, b) == member_in(ms, d, b));
            assert(!(member_in(ms, d, a) && member_in(ms, d, b)));
        }
    }
    lemma_private_add_close(cs, ms, row);
}

/// A chat whose members are exactly `a` and `b`, two different users, has two members.
proof fn lemma_two_of(ms: Seq<Membership>, n: i64, a: Seq<char>, b: Seq<char>)
    requires
        a != b,
        forall|u: Seq<char>| #[trigger] member_in(ms, n, u) == (u == a || u == b),
    ensures
        two_members(ms, n),
{
    assert(member_in(ms, n, a));
    assert(member_in(ms, n, b));
    assert(pair_of(a, b) == (a, b));
}

/// The closing step of `lemma_private_add`, over its established facts.
proof fn lemma_private_add_close(cs: Seq<ChatRow>, ms: Seq<Membership>, row: ChatRow)
    requires
        private_ok(cs, ms),
        !private_in(cs, row.id),
        !row.is_group,
        two_members(ms, row.id),
        forall|d: i64| #[trigger] private_in(cs, d) ==> !same_members(ms, row.id, d),
    ensures
        private_ok(cs.push(row), ms),
{
    lemma_private_push(cs, row);
    reveal(private_ok);
    let cs2 = cs.push(row);
    assert forall|c: i64, d: i64|
        #[trigger] private_in(cs2, c) && #[trigger] private_in(cs2, d) && same_members(ms, c, d) implies c == d by {
        if c != d && d == row.id {
            assert(private_in(cs, c));
            assert forall|u: Seq<char>| #[trigger] member_in(ms, row.id, u) == member_in(ms, c, u) by {
                assert(member_in(ms, c, u) == member_in(ms, d, u));
            }
            assert(same_members(ms, row.id, c));
        }
        if c != d && c == row.id {
            assert(private_in(cs, d));
        }
    }
}

/// With distinct chat ids, no chat is both a group and private.
pub proof fn lemma_kind_unique(cs: Seq<ChatRow>, c: i64)
    requires
        forall|i: int, j: int| 0 <= i < j < cs.len() ==> cs[i].id != cs[j].id,
        group_in(cs, c),
    ensures
        !private_in(cs, c),
{
    let i = choose|i: int| 0 <= i < cs.len() && #[trigger] cs[i].id == c && cs[i].is_group;
    if private_in(cs, c) {
        let j = choose|j: int| 0 <= j < cs.len() && #[trigger] cs[j].id == c && !cs[j].is_group;
        if i < j {
        } else {
        }
    }
}

pub open spec fn member_in(ms: Seq<Membership>, c: i64, u: Seq<char>) -> bool {
    exists|i: int| 0 <= i < ms.len() && #[trigger] ms[i].chat_id == c && ms[i].username@ == u
}

pub open spec fn any_member_in(ms: Seq<Membership>, c: i64) -> bool {
    exists|i: int| 0 <= i < ms.len() && #[trigger] ms[i].chat_id == c
}

pub open spec fn request_in(rs: Seq<Invitation>, c: i64, u: Seq<char>) -> bool {
    exists|i: int| 0 <= i < rs.len() && #[trigger] rs[i].chat_id == c && rs[i].to_user@ == u
}

impl ChatStore {
    pub open spec fn has_user(&self, u: Seq<char>) -> bool {
        user_in(self.users@, u)
    }

    pub open spec fn has_chat(&self, c: i64) -> bool {
        chat_in(self.chats@, c)
    }

    pub open spec fn is_group(&self, c: i64) -> bool {
        group_in(self.chats@, c)
    }

    pub open spec fn is_member(&self, c: i64, u: Seq<char>) -> bool {
        member_in(self.memberships@, c, u)
    }

    pub open spec fn has_members(&self, c: i64) -> bool {
        any_member_in(self.memberships@, c)
    }

    pub open spec fn has_request(&self, c: i64, u: Seq<char>) -> bool {
        request_in(self.requests@, c, u)
    }

    /// The messages of chat `c`, in the order in which they were stored.
    pub open spec fn messages_of(&self, c: i64) -> Seq<Message> {
        self.messages@.filter(message_in(c))
    }

    /// The members of chat `c`, in the order in which they joined.
    pub open spec fn members_of(&self, c: i64) -> Seq<Seq<char>> {
        self.memberships@.filter(membership_in(c)).map_values(|m: Membership| m.username@)
    }

    /// The invariants of the store.
    pub open spec fn wf(&self) -> bool {
        &&& self.wf_rows()
        &&& forall|i: int| 0 <= i < self.chats@.len() ==> self.has_members(#[trigger] self.chats@[i].id)
    }

    /// Every chat but `c` has a member.
    pub open spec fn others_nonempty(&self, c: i64) -> bool {
        forall|i: int|
            0 <= i < self.chats@.len() && #[trigger] self.chats@[i].id != c ==> self.has_members(
                self.chats@[i].id,
            )
    }

    /// The invariants of the store, but for the non-emptiness of chats.
    pub open spec fn wf_rows(&self) -> bool {
        &&& forall|i: int, j: int|
            0 <= i < j < self.users@.len() ==> self.users@[i].username@ != self.users@[j].username@
        &&& 1 <= self.next_chat_id
        &&& forall|i: int| 0 <= i < self.chats@.len() ==> 1 <= #[trigger] self.chats@[i].id < self.next_chat_id
        &&& forall|i: int, j: int| 0 <= i < j < self.chats@.len() ==> self.chats@[i].id != self.chats@[j].id
        &&& memberships_unique(self.memberships@)
        &&& private_ok(self.chats@, self.memberships@)
        &&& forall|i: int| 0 <= i < self.memberships@.len() ==> self.has_chat(#[trigger] self.memberships@[i].chat_id)
        &&& forall|i: int|
            0 <= i < self.requests@.len() ==> {
                let r = #[trigger] self.requests@[i];
                &&& self.is_group(r.chat_id)
                &&& self.has_user(r.to_user@)
                &&& !self.is_member(r.chat_id, r.to_user@)
            }
        &&& requests_unique(self.requests@)
        &&& 1 <= self.next_message_id
        &&& forall|i: int|
            0 <= i < self.messages@.len() ==> {
                let m = #[trigger] self.messages@[i];
                &&& self.has_chat(m.chat_id)
                &&& 1 <= m.id < self.next_message_id
            }
        &&& forall|i: int, j: int|
            0 <= i < j < self.messages@.len() ==> self.messages@[i].id < self.messages@[j].id
    }

    /// An empty store.
    pub fn new() -> (r: ChatStore)
        ensures
            r.wf(),
            r.users@.len() == 0,
            r.chats@.len() == 0,
            r.memberships@.len() == 0,
            r.requests@.len() == 0,
            r.messages@.len() == 0,
    {
        let r = ChatStore {
            users: Vec::new(),
            chats: Vec::new(),
            memberships: Vec::new(),
            requests: Vec::new(),
            messages: Vec::new(),
            next_chat_id: 1,
            next_message_id: 1,
        };
        proof {
            reveal(private_ok);
        }
        r
    }

    /// Whether an account named `u` exists.
    pub fn user_exists(&self, u: &String) -> (r: bool)
        ensures
            r == self.has_user(u@),
    {
        let mut i: usize = 0;
        while i < self.users.len()
            invariant
                i <= self.users@.len(),
                forall|k: int| 0 <= k < i ==> self.users@[k].username@ != u@,
            decreases self.users@.len() - i,
        {
            if self.users[i].username == *u {
                return true;
            }
            i += 1;
        }
        false
    }

    /// The position of chat `c` among the chat rows.
    pub fn find_chat(&self, c: i64) -> (r: Option<usize>)
        ensures
            r is Some <==> self.has_chat(c),
            r matches Some(i) ==> i < self.chats@.len() && self.chats@[i as int].id == c,
    {
        let mut i: usize = 0;
        while i < self.chats.len()
            invariant
                i <= self.chats@.len(),
                forall|k: int| 0 <= k < i ==> self.chats@[k].id != c,
            decreases self.chats@.len() - i,
        {
            if self.chats[i].id == c {
                return Some(i);
            }
            i += 1;
        }
        None
    }

    /// Whether chat `c` exists and is a group.
    pub fn chat_is_group(&self, c: i64) -> (r: bool)
        requires
            self.wf(),
        ensures
            r == self.is_group(c),
    {
        match self.find_chat(c) {
            Some(i) => self.chats[i].is_group,
            None => false,
        }
    }

    /// Whether `u` currently participates in chat `c`.
    pub fn membership_exists(&self, c: i64, u: &String) -> (r: bool)
        ensures
            r == self.is_member(c, u@),
    {
        let mut i: usize = 0;
        while i < self.memberships.len()
            invariant
                i <= self.memberships@.len(),
                forall|k: int|
                    0 <= k < i ==> !(self.memberships@[k].chat_id == c
                        && self.memberships@[k].username@ == u@),
            decreases self.memberships@.len() - i,
        {
            if self.memberships[i].chat_id == c && self.memberships[i].username == *u {
                return true;
            }
            i += 1;
        }
        false
    }

    /// The position of the membership of `u` in chat `c`.
    pub fn find_membership(&self, c: i64, u: &String) -> (r: Option<usize>)
        ensures
            r is Some <==> self.is_member(c, u@),
            r matches Some(i) ==> i < self.memberships@.len() && self.memberships@[i as int].chat_id
                == c && self.memberships@[i as int].username@ == u@,
    {
        let mut i: usize = 0;
        while i < self.memberships.len()
            invariant
                i <= self.memberships@.len(),
                forall|k: int|
                    0 <= k < i ==> !(self.memberships@[k].chat_id == c
                        && self.memberships@[k].username@ == u@),
            decreases self.memberships@.len() - i,
        {
            if self.memberships[i].chat_id == c && self.memberships[i].username == *u {
                return Some(i);
            }
            i += 1;
        }
        None
    }

    /// Whether chat `c` has at least one member.
    pub fn any_member(&self, c: i64) -> (r: bool)
        ensures
            r == self.has_members(c),
    {
        let mut i: usize = 0;
        while i < self.memberships.len()
            invariant
                i <= self.memberships@.len(),
                forall|k: int| 0 <= k < i ==> self.memberships@[k].chat_id != c,
            decreases self.memberships@.len() - i,
        {
            if self.memberships[i].chat_id == c {
                return true;
            }
            i += 1;
        }
        false
    }

    /// The position of the pending invitation of `u` into chat `c`.
    pub fn find_request(&self, c: i64, u: &String) -> (r: Option<usize>)
        ensures
            r is Some <==> self.has_request(c, u@),
            r matches Some(i) ==> i < self.requests@.len() && self.requests@[i as int].chat_id == c
                && self.requests@[i as int].to_user@ == u@,
    {
        let mut i: usize = 0;
        while i < self.requests.len()
            invariant
                i <= self.requests@.len(),
                forall|k: int|
                    0 <= k < i ==> !(self.requests@[k].chat_id == c && self.requests@[k].to_user@
                        == u@),
            decreases self.requests@.len() - i,
        {
            if self.requests[i].chat_id == c && self.requests[i].to_user == *u {
                return Some(i);
            }
            i += 1;
        }
        None
    }
}

/// The credential hash of the account named `username`, if it exists.
pub fn password_hash_of(store: &ChatStore, username: &String) -> (r: Option<String>)
    requires
        store.wf(),
    ensures
        r is None <==> !store.has_user(username@),
        r matches Some(h) ==> exists|i: int|
            0 <= i < store.users@.len() && #[trigger] store.users@[i].username@ == username@
                && store.users@[i].password == h,
{
    let mut i: usize = 0;
    while i < store.users.len()
        invariant
            i <= store.users@.len(),
            forall|k: int| 0 <= k < i ==> store.users@[k].username@ != username@,
        decreases store.users@.len() - i,
    {
        if store.users[i].username == *username {
            return Some(store.users[i].password.clone());
        }
        i += 1;
    }
    None
}

/// Registers a new account. The password in `payload` is already hashed.
/// Fails with `UsernameExists` when the username is taken, and then changes nothing.
pub fn create_user(store: &mut ChatStore, payload: CreateUserRequest) -> (r: Result<(), MyError>)
    requires
        old(store).wf(),
    ensures
        final(store).wf(),
        old(store).has_user(payload.username@) ==> r == Err::<(), MyError>(MyError::UsernameExists)
            && *final(store) == *old(store),
        !old(store).has_user(payload.username@) ==> r is Ok && final(store).users@ == old(
            store,
        ).users@.push(
            User {
                username: payload.username,
                name: payload.name,
                surname: payload.surname,
                password: payload.password,
            },
        ) && final(store).chats == old(store).chats && final(store).memberships == old(
            store,
        ).memberships && final(store).requests == old(store).requests && final(store).messages
            == old(store).messages && final(store).next_chat_id == old(store).next_chat_id
            && final(store).next_message_id == old(store).next_message_id,
{
    if store.user_exists(&payload.username) {
        return Err(MyError::UsernameExists);
    }
    let ghost pre = *store;
    store.users.push(
        User {
            username: payload.username,
            name: payload.name,
            surname: payload.surname,
            password: payload.password,
        },
    );
    proof {
        assert forall|i: int| 0 <= i < store.requests@.len() implies store.has_user(
            #[trigger] store.requests@[i].to_user@,
        ) by {
            let k = choose|k: int|
                0 <= k < pre.users@.len() && #[trigger] pre.users@[k].username@
                    == pre.requests@[i].to_user@;
            assert(store.users@[k] == pre.users@[k]);
        }
    }
    Ok(())
}

/// Removing the chat row at `k` keeps every other chat, and its kind.
pub proof fn lemma_chat_remove(cs: Seq<ChatRow>, k: int, c: i64)
    requires
        0 <= k < cs.len(),
        cs[k].id != c,
    ensures
        chat_in(cs.remove(k), c) == chat_in(cs, c),
        group_in(cs.remove(k), c) == group_in(cs, c),
        private_in(cs.remove(k), c) == private_in(cs, c),
{
    cs.remove_ensures(k);
    let r = cs.remove(k);
    if chat_in(cs, c) {
        let i = choose|i: int| 0 <= i < cs.len() && #[trigger] cs[i].id == c;
        let j = if i < k { i } else { i - 1 };
        assert(r[j] == cs[i]);
    }
    if chat_in(r, c) {
        let j = choose|j: int| 0 <= j < r.len() && #[trigger] r[j].id == c;
        if j < k { assert(r[j] == cs[j]); } else { assert(r[j] == cs[j + 1]); }
    }
    if group_in(cs, c) {
        let i = choose|i: int| 0 <= i < cs.len() && #[trigger] cs[i].id == c && cs[i].is_group;
        let j = if i < k { i } else { i - 1 };
        assert(r[j] == cs[i]);
    }
    if group_in(r, c) {
        let j = choose|j: int| 0 <= j < r.len() && #[trigger] r[j].id == c && r[j].is_group;
        if j < k { assert(r[j] == cs[j]); } else { assert(r[j] == cs[j + 1]); }
    }
    if private_in(cs, c) {
        let i = choose|i: int| 0 <= i < cs.len() && #[trigger] cs[i].id == c && !cs[i].is_group;
        let j = if i < k { i } else { i - 1 };
        assert(r[j] == cs[i]);
    }
    if private_in(r, c) {
        let j = choose|j: int| 0 <= j < r.len() && #[trigger] r[j].id == c && !r[j].is_group;
        if j < k { assert(r[j] == cs[j]); } else { assert(r[j] == cs[j + 1]); }
    }
}

/// The messages of `msgs` outside chat `c`, in their order.
fn messages_outside(msgs: &Vec<Message>, c: i64, chats: Ghost<Seq<ChatRow>>) -> (r: Vec<Message>)
    requires
        forall|i: int, j: int| 0 <= i < j < msgs@.len() ==> msgs@[i].id < msgs@[j].id,
        forall|i: int| 0 <= i < msgs@.len() ==> chat_in(chats@, #[trigger] msgs@[i].chat_id),
    ensures
        r@ == msgs@.filter(|m: Message| m.chat_id != c),
        forall|i: int, j: int| 0 <= i < j < r@.len() ==> r@[i].id < r@[j].id,
        forall|i: int|
            0 <= i < r@.len() ==> #[trigger] r@[i].chat_id != c && chat_in(chats@, r@[i].chat_id)
                && exists|j: int| 0 <= j < msgs@.len() && msgs@[j] == r@[i],
{
    let mut out: Vec<Message> = Vec::new();
    let mut i: usize = 0;
    while i < msgs.len()
        invariant
            i <= msgs@.len(),
            forall|i: int, j: int| 0 <= i < j < msgs@.len() ==> msgs@[i].id < msgs@[j].id,
            forall|i: int| 0 <= i < msgs@.len() ==> chat_in(chats@, #[trigger] msgs@[i].chat_id),
            out@ == msgs@.take(i as int).filter(|m: Message| m.chat_id != c),
            forall|a: int, b: int| 0 <= a < b < out@.len() ==> out@[a].id < out@[b].id,
            forall|a: int, j: int| 0 <= a < out@.len() && i <= j < msgs@.len() ==> out@[a].id < msgs@[j].id,
            forall|a: int|
                0 <= a < out@.len() ==> #[trigger] out@[a].chat_id != c && chat_in(chats@, out@[a].chat_id)
                    && exists|j: int| 0 <= j < msgs@.len() && msgs@[j] == out@[a],
        decreases msgs@.len() - i,
    {
        proof {
            assert(msgs@.take(i as int + 1) == msgs@.take(i as int).push(msgs@[i as int]));
            msgs@.take(i as int).lemma_filter_push(msgs@[i as int], |m: Message| m.chat_id != c);
        }
        if msgs[i].chat_id != c {
            let ghost before = out@;
            out.push(msgs[i].copied());
            proof {
                assert forall|a: int| 0 <= a < out@.len() implies #[trigger] out@[a].chat_id != c
                    && chat_in(chats@, out@[a].chat_id)
                    && exists|j: int| 0 <= j < msgs@.len() && msgs@[j] == out@[a] by {
                    if a < before.len() {
                        assert(out@[a] == before[a]);
                    } else {
                        assert(msgs@[i as int] == out@[a]);
                    }
                }
            }
        }
        i += 1;
    }
    proof {
        assert(msgs@.take(msgs@.len() as int) == msgs@);
    }
    out
}

/// The invitations of `rs` outside chat `c`, in their order.
fn requests_outside(rs: &Vec<Invitation>, c: i64) -> (r: Vec<Invitation>)
    requires
        forall|i: int, j: int|
            0 <= i < j < rs@.len() ==> !(rs@[i].chat_id == rs@[j].chat_id && rs@[i].to_user@
                == rs@[j].to_user@),
    ensures
        r@ == rs@.filter(|q: Invitation| q.chat_id != c),
        forall|i: int, j: int|
            0 <= i < j < r@.len() ==> !(r@[i].chat_id == r@[j].chat_id && r@[i].to_user@
                == r@[j].to_user@),
        forall|i: int|
            0 <= i < r@.len() ==> #[trigger] r@[i].chat_id != c
                && rs@.contains(r@[i]),
{
    let mut out: Vec<Invitation> = Vec::new();
    let mut i: usize = 0;
    while i < rs.len()
        invariant
            i <= rs@.len(),
            forall|i: int, j: int|
                0 <= i < j < rs@.len() ==> !(rs@[i].chat_id == rs@[j].chat_id && rs@[i].to_user@
                    == rs@[j].to_user@),
            out@ == rs@.take(i as int).filter(|q: Invitation| q.chat_id != c),
            forall|a: int, b: int|
                0 <= a < b < out@.len() ==> !(out@[a].chat_id == out@[b].chat_id
                    && out@[a].to_user@ == out@[b].to_user@),
            forall|a: int, j: int|
                0 <= a < out@.len() && i <= j < rs@.len() ==> !(out@[a].chat_id == rs@[j].chat_id
                    && out@[a].to_user@ == rs@[j].to_user@),
            forall|a: int|
                0 <= a < out@.len() ==> #[trigger] out@[a].chat_id != c
                    && rs@.contains(out@[a]),
        decreases rs@.len() - i,
    {
        proof {
            assert(rs@.take(i as int + 1) == rs@.take(i as int).push(rs@[i as int]));
            rs@.take(i as int).lemma_filter_push(rs@[i as int], |q: Invitation| q.chat_id != c);
        }
        if rs[i].chat_id != c {
            let ghost before = out@;
            out.push(rs[i].copied());
            proof {
                assert forall|a: int| 0 <= a < out@.len() implies #[trigger] out@[a].chat_id != c
                    && rs@.contains(out@[a]) by {
                    if a < before.len() {
                        assert(out@[a] == before[a]);
                    } else {
                        assert(rs@[i as int] == out@[a]);
                    }
                }
            }
        }
        i += 1;
    }
    proof {
        assert(rs@.take(rs@.len() as int) == rs@);
        assert forall|a: int| 0 <= a < out@.len() implies #[trigger] out@[a].chat_id != c
            && rs@.contains(out@[a]) by {}
    }
    out
}

/// Deletes chat `c`, which has no member left, with its messages and invitations,
/// as one step.
pub fn cascade_delete_chat(store: &mut ChatStore, c: i64)
    requires
        old(store).wf_rows(),
        old(store).others_nonempty(c),
        !old(store).has_members(c),
    ensures
        final(store).wf(),
        !final(store).has_chat(c),
        forall|d: i64| d != c ==> (final(store).has_chat(d) == old(store).has_chat(d)),
        forall|d: i64| d != c ==> (final(store).is_group(d) == old(store).is_group(d)),
        final(store).messages@ == old(store).messages@.filter(|m: Message| m.chat_id != c),
        final(store).requests@ == old(store).requests@.filter(|q: Invitation| q.chat_id != c),
        final(store).users == old(store).users,
        final(store).memberships == old(store).memberships,
        final(store).next_chat_id == old(store).next_chat_id,
        final(store).next_message_id == old(store).next_message_id,
{
    let ghost pre = *store;
    let msgs = messages_outside(&store.messages, c, Ghost(store.chats@));
    store.messages = msgs;
    let rs = requests_outside(&store.requests, c);
    store.requests = rs;
    match store.find_chat(c) {
        Some(k) => {
            store.chats.remove(k);
            proof {
                pre.chats@.remove_ensures(k as int);
                assert forall|d: i64| d != c implies (chat_in(store.chats@, d) == chat_in(pre.chats@, d)
                    && group_in(store.chats@, d) == group_in(pre.chats@, d)
                    && private_in(store.chats@, d) == private_in(pre.chats@, d)) by {
                    lemma_chat_remove(pre.chats@, k as int, d);
                }
                if chat_in(store.chats@, c) {
                    let j = choose|j: int| 0 <= j < store.chats@.len() && #[trigger] store.chats@[j].id == c;
                    if j < k { assert(store.chats@[j] == pre.chats@[j]); } else { assert(store.chats@[j] == pre.chats@[j + 1]); }
                }
                assert forall|i: int| 0 <= i < store.chats@.len() implies 1 <= #[trigger] store.chats@[i].id < store.next_chat_id
                    && store.has_members(store.chats@[i].id) by {
                    if i < k { assert(store.chats@[i] == pre.chats@[i]); } else { assert(store.chats@[i] == pre.chats@[i + 1]); }
                }
                assert forall|i: int, j: int| 0 <= i < j < store.chats@.len() implies store.chats@[i].id != store.chats@[j].id by {
                    let i0 = if i < k { i } else { i + 1 };
                    let j0 = if j < k { j } else { j + 1 };
                    assert(store.chats@[i] == pre.chats@[i0]);
                    assert(store.chats@[j] == pre.chats@[j0]);
                }
            }
        },
        None => {},
    }
    proof {
        assert forall|d: i64| d != c implies (chat_in(store.chats@, d) == chat_in(pre.chats@, d)
            && group_in(store.chats@, d) == group_in(pre.chats@, d)) by {}
        assert forall|d: i64| #[trigger] private_in(store.chats@, d) implies private_in(pre.chats@, d) by {
            if d == c {
                let j = choose|j: int| 0 <= j < store.chats@.len() && #[trigger] store.chats@[j].id == d && !store.chats@[j].is_group;
                assert(chat_in(store.chats@, c));
            }
        }
        lemma_private_frame(pre.chats@, pre.memberships@, store.chats@, store.memberships@);
        assert forall|i: int| 0 <= i < store.memberships@.len() implies store.has_chat(
            #[trigger] store.memberships@[i].chat_id,
        ) by {
            assert(pre.has_chat(pre.memberships@[i].chat_id));
            assert(pre.memberships@[i].chat_id != c);
        }
        assert forall|i: int| 0 <= i < store.requests@.len() implies {
            let r = #[trigger] store.requests@[i];
            &&& store.is_group(r.chat_id)
            &&& store.has_user(r.to_user@)
            &&& !store.is_member(r.chat_id, r.to_user@)
        } by {
            let j = choose|j: int| 0 <= j < pre.requests@.len() && pre.requests@[j] == store.requests@[i];
            assert(pre.is_group(pre.requests@[j].chat_id));
        }
        assert forall|i: int| 0 <= i < store.messages@.len() implies {
            let m = #[trigger] store.messages@[i];
            &&& store.has_chat(m.chat_id)
            &&& 1 <= m.id < store.next_message_id
        } by {
            let j = choose|j: int| 0 <= j < pre.messages@.len() && pre.messages@[j] == store.messages@[i];
            assert(pre.messages@[j].chat_id != c);
        }
    }
}

/// Membership pairs are pairwise distinct.
pub open spec fn memberships_unique(ms: Seq<Membership>) -> bool {
    forall|i: int, j: int|
        0 <= i < j < ms.len() ==> !(ms[i].chat_id == ms[j].chat_id && ms[i].username@
            == ms[j].username@)
}

/// Every membership of chat `c` is the one of `u`.
pub open spec fn sole_member_in(ms: Seq<Membership>, c: i64, u: Seq<char>) -> bool {
    forall|i: int| 0 <= i < ms.len() && #[trigger] ms[i].chat_id == c ==> ms[i].username@ == u
}

/// Removing the membership at `k` removes that pair and keeps every other one.
pub proof fn lemma_membership_remove(ms: Seq<Membership>, k: int)
    requires
        0 <= k < ms.len(),
        memberships_unique(ms),
    ensures
        memberships_unique(ms.remove(k)),
        !member_in(ms.remove(k), ms[k].chat_id, ms[k].username@),
        forall|c: i64, u: Seq<char>|
            #[trigger] member_in(ms.remove(k), c, u) == (member_in(ms, c, u) && !(c == ms[k].chat_id
                && u == ms[k].username@)),
        forall|c: i64| c != ms[k].chat_id ==> #[trigger] any_member_in(ms.remove(k), c) == any_member_in(ms, c),
        any_member_in(ms.remove(k), ms[k].chat_id) == !sole_member_in(ms, ms[k].chat_id, ms[k].username@),
        forall|i: int| 0 <= i < ms.remove(k).len() ==> ms.contains(#[trigger] ms.remove(k)[i]),
{
    ms.remove_ensures(k);
    let r = ms.remove(k);
    assert forall|i: int| 0 <= i < r.len() implies ms.contains(#[trigger] r[i]) by {
        if i < k { assert(r[i] == ms[i]); } else { assert(r[i] == ms[i + 1]); }
    }
    assert forall|i: int, j: int| 0 <= i < j < r.len() implies !(r[i].chat_id == r[j].chat_id
        && r[i].username@ == r[j].username@) by {
        let i0 = if i < k { i } else { i + 1 };
        let j0 = if j < k { j } else { j + 1 };
        assert(r[i] == ms[i0]);
        assert(r[j] == ms[j0]);
    }
    assert forall|c: i64, u: Seq<char>| #[trigger] member_in(r, c, u) == (member_in(ms, c, u) && !(c
        == ms[k].chat_id && u == ms[k].username@)) by {
        if member_in(r, c, u) {
            let j = choose|j: int| 0 <= j < r.len() && #[trigger] r[j].chat_id == c && r[j].username@ == u;
            let j0 = if j < k { j } else { j + 1 };
            assert(r[j] == ms[j0]);
        }
        if member_in(ms, c, u) && !(c == ms[k].chat_id && u == ms[k].username@) {
            let i = choose|i: int| 0 <= i < ms.len() && #[trigger] ms[i].chat_id == c && ms[i].username@ == u;
            let j = if i < k { i } else { i - 1 };
            assert(r[j] == ms[i]);
        }
    }
    assert(!member_in(r, ms[k].chat_id, ms[k].username@));
    assert forall|c: i64| c != ms[k].chat_id implies #[trigger] any_member_in(r, c) == any_member_in(ms, c) by {
        if any_member_in(r, c) {
            let j = choose|j: int| 0 <= j < r.len() && #[trigger] r[j].chat_id == c;
            let j0 = if j < k { j } else { j + 1 };
            assert(r[j] == ms[j0]);
        }
        if any_member_in(ms, c) {
            let i = choose|i: int| 0 <= i < ms.len() && #[trigger] ms[i].chat_id == c;
            let j = if i < k { i } else { i - 1 };
            assert(r[j] == ms[i]);
        }
    }
    let c = ms[k].chat_id;
    let u = ms[k].username@;
    if any_member_in(r, c) {
        let j = choose|j: int| 0 <= j < r.len() && #[trigger] r[j].chat_id == c;
        let j0 = if j < k { j } else { j + 1 };
        assert(r[j] == ms[j0]);
        assert(ms[j0].username@ != u);
    }
    if !sole_member_in(ms, c, u) {
        let i = choose|i: int| 0 <= i < ms.len() && #[trigger] ms[i].chat_id == c && ms[i].username@ != u;
        let j = if i < k { i } else { i - 1 };
        assert(r[j] == ms[i]);
    }
}

/// Invitation keys (chat, recipient) are pairwise distinct.
pub open spec fn requests_unique(rs: Seq<Invitation>) -> bool {
    forall|i: int, j: int|
        0 <= i < j < rs.len() ==> !(rs[i].chat_id == rs[j].chat_id && rs[i].to_user@ == rs[j].to_user@)
}

/// Removing the invitation at `k` removes that key and keeps every other one.
pub proof fn lemma_request_remove(rs: Seq<Invitation>, k: int)
    requires
        0 <= k < rs.len(),
        requests_unique(rs),
    ensures
        requests_unique(rs.remove(k)),
        forall|c: i64, u: Seq<char>|
            #[trigger] request_in(rs.remove(k), c, u) == (request_in(rs, c, u) && !(c == rs[k].chat_id
                && u == rs[k].to_user@)),
        forall|i: int| 0 <= i < rs.remove(k).len() ==> rs.contains(#[trigger] rs.remove(k)[i]),
{
    rs.remove_ensures(k);
    let r = rs.remove(k);
    assert forall|i: int| 0 <= i < r.len() implies rs.contains(#[trigger] r[i]) by {
        if i < k { assert(r[i] == rs[i]); } else { assert(r[i] == rs[i + 1]); }
    }
    assert forall|i: int, j: int| 0 <= i < j < r.len() implies !(r[i].chat_id == r[j].chat_id
        && r[i].to_user@ == r[j].to_user@) by {
        let i0 = if i < k { i } else { i + 1 };
        let j0 = if j < k { j } else { j + 1 };
        assert(r[i] == rs[i0]);
        assert(r[j] == rs[j0]);
    }
    assert forall|c: i64, u: Seq<char>| #[trigger] request_in(r, c, u) == (request_in(rs, c, u) && !(c
        == rs[k].chat_id && u == rs[k].to_user@)) by {
        if request_in(r, c, u) {
            let j = choose|j: int| 0 <= j < r.len() && #[trigger] r[j].chat_id == c && r[j].to_user@ == u;
            let j0 = if j < k { j } else { j + 1 };
            assert(r[j] == rs[j0]);
        }
        if request_in(rs, c, u) && !(c == rs[k].chat_id && u == rs[k].to_user@) {
            let i = choose|i: int| 0 <= i < rs.len() && #[trigger] rs[i].chat_id == c && rs[i].to_user@ == u;
            let j = if i < k { i } else { i - 1 };
            assert(r[j] == rs[i]);
        }
    }
}

} // verus!
