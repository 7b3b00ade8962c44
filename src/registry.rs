use vstd::prelude::*;

verus! {

/// One live client connection of `username`, known by its `handle`.
#[derive(Debug)]
pub struct Connection {
    pub username: String,
    pub handle: u64,
}

/// The live connections of every user, in the order in which they were opened.
/// A user with several devices has several connections; a user with none has no
/// entry. Pushes are best effort: nothing is kept for a user who is offline.
pub struct ConnectionRegistry {
    pub connections: Vec<Connection>,
    pub next_handle: u64,
}

/// The connection belongs to `u`.
pub open spec fn of_user(u: Seq<char>) -> spec_fn(Connection) -> bool {
    |c: Connection| c.username@ == u
}

/// The handles of `u` among `cs`, in their order.
pub open spec fn channels_in(cs: Seq<Connection>, u: Seq<char>) -> Seq<u64> {
    cs.filter(of_user(u)).map_values(|c: Connection| c.handle)
}

/// The handles to push to for the users `us`: each user's handles, user after user.
pub open spec fn targets_in(cs: Seq<Connection>, us: Seq<Seq<char>>) -> Seq<u64>
    decreases us.len(),
{
    if us.len() == 0 {
        Seq::empty()
    } else {
        targets_in(cs, us.drop_last()) + channels_in(cs, us.last())
    }
}

/// The names held by a list of strings.
pub open spec fn names(v: Seq<String>) -> Seq<Seq<char>> {
    v.map_values(|s: String| s@)
}

/// `cs` with its connections filtered by `p`, then taken to their handles, grows
/// by one handle when a matching connection is added.
pub proof fn lemma_channels_push(cs: Seq<Connection>, x: Connection, u: Seq<char>)
    ensures
        channels_in(cs.push(x), u) == if x.username@ == u {
            channels_in(cs, u).push(x.handle)
        } else {
            channels_in(cs, u)
        },
{
    cs.lemma_filter_push(x, of_user(u));
    let f = cs.filter(of_user(u));
    if x.username@ == u {
        assert(cs.push(x).filter(of_user(u)) == f.push(x));
        assert(f.push(x).map_values(|c: Connection| c.handle) =~= f.map_values(|c: Connection| c.handle).push(x.handle));
    } else {
        assert(cs.push(x).filter(of_user(u)) == f);
    }
}

impl ConnectionRegistry {
    /// The handles of user `u`, oldest first.
    pub open spec fn channels_of(&self, u: Seq<char>) -> Seq<u64> {
        channels_in(self.connections@, u)
    }

    /// `u` holds the connection `h`.
    pub open spec fn has_channel(&self, u: Seq<char>, h: u64) -> bool {
        exists|i: int|
            0 <= i < self.connections@.len() && #[trigger] self.connections@[i].handle == h
                && self.connections@[i].username@ == u
    }

    /// Handles are issued in increasing order, each below `next_handle`.
    pub open spec fn wf(&self) -> bool {
        &&& forall|i: int| 0 <= i < self.connections@.len() ==> #[trigger] self.connections@[i].handle < self.next_handle
        &&& forall|i: int, j: int|
            0 <= i < j < self.connections@.len() ==> self.connections@[i].handle < self.connections@[j].handle
    }

    /// A registry without connections.
    pub fn new() -> (r: ConnectionRegistry)
        ensures
            r.wf(),
            r.connections@.len() == 0,
    {
        ConnectionRegistry { connections: Vec::new(), next_handle: 0 }
    }

    /// Records a new connection of `username` and returns its handle.
    pub fn register(&mut self, username: &String) -> (h: u64)
        requires
            old(self).wf(),
            old(self).next_handle < u64::MAX,
        ensures
            final(self).wf(),
            h == old(self).next_handle,
            final(self).connections@ == old(self).connections@.push(Connection { username: *username, handle: h }),
            final(self).channels_of(username@) == old(self).channels_of(username@).push(h),
            forall|u: Seq<char>| u != username@ ==> #[trigger] final(self).channels_of(u) == old(self).channels_of(u),
            forall|u: Seq<char>, g: u64|
                #[trigger] final(self).has_channel(u, g) == (old(self).has_channel(u, g) || (u == username@ && g == h)),
    {
        let ghost pre = *self;
        let h = self.next_handle;
        self.connections.push(Connection { username: username.clone(), handle: h });
        self.next_handle = h + 1;
        proof {
            let cs = self.connections@;
            let n = pre.connections@.len() as int;
            assert forall|u: Seq<char>| #[trigger] self.channels_of(u) == if u == username@ {
                pre.channels_of(u).push(h)
            } else {
                pre.channels_of(u)
            } by {
                lemma_channels_push(pre.connections@, Connection { username: *username, handle: h }, u);
            }
            assert forall|u: Seq<char>, g: u64|
                #[trigger] self.has_channel(u, g) == (pre.has_channel(u, g) || (u == username@ && g == h)) by {
                if self.has_channel(u, g) {
                    let i = choose|i: int| 0 <= i < cs.len() && #[trigger] cs[i].handle == g && cs[i].username@ == u;
                    if i < n { assert(cs[i] == pre.connections@[i]); }
                }
                if pre.has_channel(u, g) {
                    let i = choose|i: int| 0 <= i < n && #[trigger] pre.connections@[i].handle == g && pre.connections@[i].username@ == u;
                    assert(cs[i] == pre.connections@[i]);
                }
                if u == username@ && g == h {
                    assert(cs[n].handle == g);
                }
            }
            assert forall|i: int, j: int| 0 <= i < j < cs.len() implies cs[i].handle < cs[j].handle by {
                assert(cs[i] == pre.connections@[i]);
                if j < n { assert(cs[j] == pre.connections@[j]); }
            }
            assert forall|i: int| 0 <= i < cs.len() implies #[trigger] cs[i].handle < self.next_handle by {
                if i < n { assert(cs[i] == pre.connections@[i]); }
            }
        }
        h
    }

    /// Forgets the connection `handle` of `username`, which may have closed already.
    /// Returns whether it was registered; an unknown pair changes nothing.
    pub fn unregister(&mut self, username: &String, handle: u64) -> (r: bool)
        requires
            old(self).wf(),
        ensures
            final(self).wf(),
            r == old(self).has_channel(username@, handle),
            !r ==> *final(self) == *old(self),
            forall|u: Seq<char>, g: u64|
                #[trigger] final(self).has_channel(u, g) == (old(self).has_channel(u, g) && !(u == username@ && g == handle)),
    {
        let mut i: usize = 0;
        while i < self.connections.len()
            invariant
                i <= self.connections@.len(),
                forall|k: int|
                    0 <= k < i ==> !(self.connections@[k].handle == handle && self.connections@[k].username@ == username@),
                *self == *old(self),
                self.wf(),
            decreases self.connections@.len() - i,
        {
            if self.connections[i].handle == handle && self.connections[i].username == *username {
                let ghost pre = *self;
                self.connections.remove(i);
                proof {
                    let cs = self.connections@;
                    let k = i as int;
                    pre.connections@.remove_ensures(k);
                    assert forall|a: int, b: int| 0 <= a < b < cs.len() implies cs[a].handle < cs[b].handle by {
                        let a0 = if a < k { a } else { a + 1 };
                        let b0 = if b < k { b } else { b + 1 };
                        assert(cs[a] == pre.connections@[a0]);
                        assert(cs[b] == pre.connections@[b0]);
                    }
                    assert forall|a: int| 0 <= a < cs.len() implies #[trigger] cs[a].handle < self.next_handle by {
                        let a0 = if a < k { a } else { a + 1 };
                        assert(cs[a] == pre.connections@[a0]);
                    }
                    assert forall|u: Seq<char>, g: u64|
                        #[trigger] self.has_channel(u, g) == (pre.has_channel(u, g) && !(u == username@ && g == handle)) by {
                        if self.has_channel(u, g) {
                            let a = choose|a: int| 0 <= a < cs.len() && #[trigger] cs[a].handle == g && cs[a].username@ == u;
                            let a0 = if a < k { a } else { a + 1 };
                            assert(cs[a] == pre.connections@[a0]);
                        }
                        if pre.has_channel(u, g) && !(u == username@ && g == handle) {
                            let a0 = choose|a: int| 0 <= a < pre.connections@.len() && #[trigger] pre.connections@[a].handle == g && pre.connections@[a].username@ == u;
                            let a = if a0 < k { a0 } else { a0 - 1 };
                            assert(cs[a] == pre.connections@[a0]);
                        }
                    }
                }
                return true;
            }
            i += 1;
        }
        false
    }

    /// The handles of one user, oldest first.
    pub fn channels_for(&self, username: &String) -> (r: Vec<u64>)
        ensures
            r@ == self.channels_of(username@),
    {
        let mut out: Vec<u64> = Vec::new();
        let mut i: usize = 0;
        while i < self.connections.len()
            invariant
                i <= self.connections@.len(),
                out@ == channels_in(self.connections@.take(i as int), username@),
            decreases self.connections@.len() - i,
        {
            proof {
                assert(self.connections@.take(i as int + 1) == self.connections@.take(i as int).push(self.connections@[i as int]));
                lemma_channels_push(self.connections@.take(i as int), self.connections@[i as int], username@);
            }
            if self.connections[i].username == *username {
                out.push(self.connections[i].handle);
            }
            i += 1;
        }
        proof {
            assert(self.connections@.take(self.connections@.len() as int) == self.connections@);
        }
        out
    }

    /// The handles to push a payload to for `usernames`: every live connection of
    /// each listed user, user after user. Users without a connection add nothing.
    pub fn broadcast_to(&self, usernames: &Vec<String>) -> (r: Vec<u64>)
        ensures
            r@ == targets_in(self.connections@, names(usernames@)),
    {
        let mut out: Vec<u64> = Vec::new();
        let mut i: usize = 0;
        while i < usernames.len()
            invariant
                i <= usernames@.len(),
                out@ == targets_in(self.connections@, names(usernames@.take(i as int))),
            decreases usernames@.len() - i,
        {
            let chans = self.channels_for(&usernames[i]);
            proof {
                let t1 = usernames@.take(i as int + 1);
                assert(names(t1).drop_last() =~= names(usernames@.take(i as int)));
                assert(names(t1).last() == usernames@[i as int]@);
            }
            out.extend_from_slice(chans.as_slice());
            i += 1;
        }
        proof {
            assert(usernames@.take(usernames@.len() as int) == usernames@);
        }
        out
    }
}

} // verus!
