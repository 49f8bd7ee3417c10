//! The peer registry and the broadcast algorithm: the single source of truth
//! for who is currently connected, mapping each connection key to that peer's
//! bounded delivery queue.
//!
//! All register / remove / broadcast / dequeue operations go through one
//! `Registry` value, so a caller that serializes access to it (for example an
//! owning coordinator task) gets snapshot-before-iterate broadcasts with no
//! torn reads. Enqueueing onto a full queue is a suspension point: a broadcast
//! that meets a full queue reports where it stopped, and is resumed from that
//! point once the queue's consumer has drained a slot.
use vstd::prelude::*;

use crate::message::Message;

verus! {

/// Capacity of every peer's delivery queue.
pub const QUEUE_CAPACITY: usize = 100;

/// The abstract state of one registered peer.
#[verifier::ext_equal]
pub ghost struct PeerView {
    /// Connection key: unique among registered peers.
    pub key: u64,
    /// Display name announced at handshake.
    pub name: String,
    /// The delivery queue, oldest message first.
    pub queue: Seq<Message>,
    /// True once the peer's outbound writer is gone; a closed queue accepts
    /// no further deliveries and broadcasts skip it.
    pub closed: bool,
}

/// One registered peer: its identity and its bounded delivery queue.
pub struct Peer {
    key: u64,
    name: String,
    queue: Vec<Message>,
    closed: bool,
}

impl View for Peer {
    type V = PeerView;

    closed spec fn view(&self) -> PeerView {
        PeerView { key: self.key, name: self.name, queue: self.queue@, closed: self.closed }
    }
}

/// True when `s` holds some peer registered under `key`.
pub open spec fn contains_key(s: Seq<PeerView>, key: u64) -> bool {
    exists|i: int| 0 <= i < s.len() && s[i].key == key
}

/// The position of the peer registered under `key` (unique when keys are).
pub open spec fn key_index(s: Seq<PeerView>, key: u64) -> int {
    choose|i: int| 0 <= i < s.len() && s[i].key == key
}

/// No two registered peers share a connection key.
pub open spec fn unique_keys(s: Seq<PeerView>) -> bool {
    forall|i: int, j: int| 0 <= i < j < s.len() ==> s[i].key != s[j].key
}

/// Every delivery queue respects its capacity bound.
pub open spec fn bounded_queues(s: Seq<PeerView>) -> bool {
    forall|i: int| 0 <= i < s.len() ==> s[i].queue.len() <= QUEUE_CAPACITY
}

/// The peer `p` with one more message at the back of its queue.
pub open spec fn with_message(p: PeerView, m: Message) -> PeerView {
    PeerView { key: p.key, name: p.name, queue: p.queue.push(m), closed: p.closed }
}

/// How one broadcast treats one peer: the excluded originator and peers whose
/// queue is closed are left untouched; every other peer receives exactly one
/// copy of the message at the back of its queue.
pub open spec fn delivered(pre: PeerView, post: PeerView, excluding: u64, m: Message) -> bool {
    if pre.key == excluding || pre.closed {
        post == pre
    } else {
        post == with_message(pre, m)
    }
}

/// Either `delivered` (when `deliver` holds) or untouched: used to describe a
/// broadcast resumed from the middle, where earlier peers were served by an
/// earlier call.
pub open spec fn delivered_or_kept(
    pre: PeerView,
    post: PeerView,
    excluding: u64,
    m: Message,
    deliver: bool,
) -> bool {
    if deliver {
        delivered(pre, post, excluding, m)
    } else {
        post == pre
    }
}

/// How far a broadcast got. `Suspended { index }` means the peer at `index`
/// has a full queue: the broadcast waits there (nothing is dropped) and is
/// resumed from `index` once that queue has room.
pub enum BroadcastProgress {
    Completed,
    Suspended { index: usize },
}

/// The shared directory of currently connected peers. A key is present if
/// and only if its connection completed the handshake and has not yet been
/// torn down.
pub struct Registry {
    peers: Vec<Peer>,
}

impl View for Registry {
    type V = Seq<PeerView>;

    closed spec fn view(&self) -> Seq<PeerView> {
        Seq::new(self.peers@.len(), |i: int| self.peers@[i]@)
    }
}

impl Registry {
    /// Well-formedness: keys are unique while registered, and no queue ever
    /// exceeds its capacity.
    pub open spec fn wf(self) -> bool {
        unique_keys(self@) && bounded_queues(self@)
    }

    /// An empty registry: nobody is connected.
    pub fn new() -> (r: Registry)
        ensures
            r.wf(),
            r@ == Seq::<PeerView>::empty(),
    {
        Registry { peers: Vec::new() }
    }

    /// The number of currently registered peers.
    pub fn len(&self) -> (n: usize)
        ensures
            n == self@.len(),
    {
        self.peers.len()
    }

    /// Whether a peer is registered under `key`.
    pub fn contains(&self, key: u64) -> (b: bool)
        ensures
            b == contains_key(self@, key),
    {
        let n = self.peers.len();
        let mut i: usize = 0;
        while i < n
            invariant
                n == self@.len(),
                0 <= i <= n,
                forall|j: int| 0 <= j < i ==> self@[j].key != key,
            decreases n - i,
        {
            if self.peers[i].key == key {
                assert(self@[i as int].key == key);
                return true;
            }
            i += 1;
        }
        false
    }

    /// Inserts a new peer with an empty, open delivery queue. Happens once
    /// per connection, at handshake completion.
    pub fn register(&mut self, key: u64, name: String)
        requires
            old(self).wf(),
            !contains_key(old(self)@, key),
        ensures
            final(self).wf(),
            final(self)@ == old(self)@.push(
                (PeerView { key, name, queue: Seq::<Message>::empty(), closed: false }),
            ),
    {
        self.peers.push(Peer { key, name, queue: Vec::new(), closed: false });
        proof {
            assert(self@ =~= old(self)@.push(
                PeerView { key, name, queue: Seq::<Message>::empty(), closed: false },
            ));
        }
    }

    /// Deletes the mapping for `key`. Happens once per connection, at handler
    /// exit, on every path including error paths.
    pub fn remove(&mut self, key: u64) -> (found: bool)
        requires
            old(self).wf(),
        ensures
            final(self).wf(),
            found == contains_key(old(self)@, key),
            !found ==> final(self)@ == old(self)@,
            found ==> final(self)@ == old(self)@.remove(key_index(old(self)@, key)),
    {
        let n = self.peers.len();
        let mut i: usize = 0;
        while i < n
            invariant
                old(self) == self,
                self.wf(),
                n == self@.len(),
                0 <= i <= n,
                forall|j: int| 0 <= j < i ==> self@[j].key != key,
            decreases n - i,
        {
            if self.peers[i].key == key {
                proof {
                    assert(self@[i as int].key == key);
                    assert(contains_key(self@, key));
                    let k = key_index(self@, key);
                    assert(0 <= k < self@.len() && self@[k].key == key);
                    assert(k == i) by {
                        if k != i {
                            assert(unique_keys(self@));
                        }
                    }
                }
                self.peers.remove(i);
                proof {
                    assert(self@ =~= old(self)@.remove(i as int));
                }
                return true;
            }
            i += 1;
        }
        proof {
            assert(!contains_key(self@, key));
        }
        false
    }

    /// Marks the peer's delivery queue closed: its consumer is gone, so
    /// further broadcasts skip this peer silently. The entry itself stays
    /// until the peer's handler removes it.
    pub fn close_queue(&mut self, key: u64)
        requires
            old(self).wf(),
        ensures
            final(self).wf(),
            final(self)@.len() == old(self)@.len(),
            forall|i: int|
                0 <= i < old(self)@.len() && old(self)@[i].key != key ==> final(self)@[i] == old(self)@[i],
            forall|i: int|
                0 <= i < old(self)@.len() && old(self)@[i].key == key ==> final(self)@[i] == (
                PeerView {
                    key: old(self)@[i].key,
                    name: old(self)@[i].name,
                    queue: old(self)@[i].queue,
                    closed: true,
                }),
    {
        let n = self.peers.len();
        let mut i: usize = 0;
        while i < n
            invariant
                old(self) == self,
                self.wf(),
                n == self@.len(),
                0 <= i <= n,
                forall|j: int| 0 <= j < i ==> self@[j].key != key,
            decreases n - i,
        {
            if self.peers[i].key == key {
                proof {
                    assert forall|j: int|
                        0 <= j < self@.len() && self@[j].key == key implies j == i by {
                        if j < i {
                            assert(self@[j].key != self@[i as int].key);
                        } else if j > i {
                            assert(self@[i as int].key != self@[j].key);
                        }
                    }
                }
                self.peers[i].closed = true;
                proof {
                    assert(forall|j: int|
                        0 <= j < self@.len() && j != i ==> self@[j] == old(self)@[j]);
                    assert(forall|j: int|
                        0 <= j < self@.len() ==> self@[j].key == old(self)@[j].key
                            && final(self)@[j].queue == old(self)@[j].queue);
                    assert(unique_keys(self@));
                    assert(bounded_queues(self@));
                }
                return ;
            }
            i += 1;
        }
    }

    /// Removes and returns the oldest message of the peer's delivery queue,
    /// if the peer is registered and its queue is not empty. This is the
    /// dequeue side used by that peer's outbound writer, and it dequeues in
    /// FIFO order.
    pub fn pop(&mut self, key: u64) -> (r: Option<Message>)
        requires
            old(self).wf(),
        ensures
            final(self).wf(),
            final(self)@.len() == old(self)@.len(),
            !contains_key(old(self)@, key) ==> final(self)@ == old(self)@ && r is None,
            contains_key(old(self)@, key) ==> ({
                let k = key_index(old(self)@, key);
                &&& forall|i: int|
                    0 <= i < old(self)@.len() && i != k ==> final(self)@[i] == old(self)@[i]
                &&& old(self)@[k].queue.len() == 0 ==> final(self)@ == old(self)@ && r is None
                &&& old(self)@[k].queue.len() > 0 ==> r == Some(old(self)@[k].queue[0])
                    && final(self)@[k] == (PeerView {
                    key: old(self)@[k].key,
                    name: old(self)@[k].name,
                    queue: old(self)@[k].queue.drop_first(),
                    closed: old(self)@[k].closed,
                })
            }),
    {
        let n = self.peers.len();
        let mut i: usize = 0;
        while i < n
            invariant
                old(self) == self,
                self.wf(),
                n == self@.len(),
                0 <= i <= n,
                forall|j: int| 0 <= j < i ==> self@[j].key != key,
            decreases n - i,
        {
            if self.peers[i].key == key {
                proof {
                    assert(self@[i as int].key == key);
                    assert(contains_key(self@, key));
                    let k = key_index(self@, key);
                    assert(0 <= k < self@.len() && self@[k].key == key);
                    assert(k == i) by {
                        if k != i {
                            assert(unique_keys(self@));
                        }
                    }
                }
                if self.peers[i].queue.len() == 0 {
                    return None;
                }
                let m = self.peers[i].queue.remove(0);
                proof {
                    assert(forall|j: int|
                        0 <= j < self@.len() && j != i ==> self@[j] == old(self)@[j]);
                    assert(self@[i as int].queue =~= old(self)@[i as int].queue.drop_first());
                }
                return Some(m);
            }
            i += 1;
        }
        proof {
            assert(!contains_key(self@, key));
        }
        None
    }

    /// Fans one message out to every registered peer except the originator,
    /// starting at position `start` of the registry's point-in-time order.
    ///
    /// Peers with a closed queue are skipped (that delivery is dropped, the
    /// broadcast goes on). A peer with a full queue suspends the broadcast:
    /// nothing is dropped, peers served earlier keep their delivery, and the
    /// caller resumes from the reported index once that queue has room.
    /// The originator's entry is never touched, whatever the outcome.
    ///
    /// A suspended broadcast is resumed before the caller registers or
    /// removes any peer: positions then still mean what they meant when the
    /// broadcast started, and a peer registered later is never served
    /// retroactively by an older broadcast.
    pub fn broadcast_from(&mut self, excluding: u64, m: &Message, start: usize) -> (r:
        BroadcastProgress)
        requires
            old(self).wf(),
            start <= old(self)@.len(),
        ensures
            final(self).wf(),
            final(self)@.len() == old(self)@.len(),
            forall|i: int|
                0 <= i < old(self)@.len() ==> final(self)@[i].key == old(self)@[i].key && final(self)@[i].name == old(self)@[i].name && final(self)@[i].closed == old(self)@[i].closed,
            forall|i: int|
                0 <= i < old(self)@.len() && old(self)@[i].key == excluding ==> final(self)@[i]
                    == old(self)@[i],
            forall|i: int| 0 <= i < start ==> final(self)@[i] == old(self)@[i],
            match r {
                BroadcastProgress::Completed => forall|i: int|
                    start <= i < old(self)@.len() ==> delivered(
                        old(self)@[i],
                        final(self)@[i],
                        excluding,
                        *m,
                    ),
                BroadcastProgress::Suspended { index } => {
                    &&& start <= index < old(self)@.len()
                    &&& old(self)@[index as int].key != excluding
                    &&& !old(self)@[index as int].closed
                    &&& old(self)@[index as int].queue.len() == QUEUE_CAPACITY
                    &&& forall|i: int|
                        start <= i < index ==> delivered(
                            old(self)@[i],
                            final(self)@[i],
                            excluding,
                            *m,
                        )
                    &&& forall|i: int|
                        index <= i < old(self)@.len() ==> final(self)@[i] == old(self)@[i]
                },
            },
    {
        let n = self.peers.len();
        let mut i: usize = start;
        while i < n
            invariant
                self.wf(),
                n == self@.len(),
                n == old(self)@.len(),
                start <= i <= n,
                forall|j: int| 0 <= j < start ==> self@[j] == old(self)@[j],
                forall|j: int|
                    start <= j < i ==> delivered(old(self)@[j], self@[j], excluding, *m),
                forall|j: int| i <= j < n ==> self@[j] == old(self)@[j],
                forall|j: int|
                    0 <= j < n ==> self@[j].key == old(self)@[j].key && self@[j].name == old(self)@[j].name && self@[j].closed == old(self)@[j].closed,
            decreases n - i,
        {
            if self.peers[i].key != excluding && !self.peers[i].closed {
                if self.peers[i].queue.len() == QUEUE_CAPACITY {
                    return BroadcastProgress::Suspended { index: i };
                }
                let ghost before = self@;
                let copy = m.duplicate();
                self.peers[i].queue.push(copy);
                proof {
                    assert(forall|j: int|
                        0 <= j < self@.len() && j != i ==> self@[j] == before[j]);
                    assert(self@[i as int] == with_message(before[i as int], *m));
                    assert forall|j: int|
                        0 <= j < self@.len() implies self@[j].queue.len()
                        <= QUEUE_CAPACITY by {
                        if j == i {
                            assert(before[j].queue.len() < QUEUE_CAPACITY);
                        } else {
                            assert(self@[j] == before[j]);
                            assert(before[j].queue.len() <= QUEUE_CAPACITY);
                        }
                    }
                    assert forall|a: int, b: int|
                        0 <= a < b < self@.len() implies self@[a].key != self@[b].key by {
                        assert(self@[a].key == before[a].key);
                        assert(self@[b].key == before[b].key);
                    }
                }
            }
            i += 1;
        }
        BroadcastProgress::Completed
    }

    /// Fans one message out to every registered peer except the originator,
    /// over the whole registry.
    pub fn broadcast(&mut self, excluding: u64, m: &Message) -> (r: BroadcastProgress)
        requires
            old(self).wf(),
        ensures
            final(self).wf(),
            final(self)@.len() == old(self)@.len(),
            forall|i: int|
                0 <= i < old(self)@.len() ==> final(self)@[i].key == old(self)@[i].key && final(self)@[i].name == old(self)@[i].name && final(self)@[i].closed == old(self)@[i].closed,
            forall|i: int|
                0 <= i < old(self)@.len() && old(self)@[i].key == excluding ==> final(self)@[i]
                    == old(self)@[i],
            match r {
                BroadcastProgress::Completed => forall|i: int|
                    0 <= i < old(self)@.len() ==> delivered(
                        old(self)@[i],
                        final(self)@[i],
                        excluding,
                        *m,
                    ),
                BroadcastProgress::Suspended { index } => {
                    &&& 0 <= index < old(self)@.len()
                    &&& old(self)@[index as int].key != excluding
                    &&& !old(self)@[index as int].closed
                    &&& old(self)@[index as int].queue.len() == QUEUE_CAPACITY
                    &&& forall|i: int|
                        0 <= i < index ==> delivered(old(self)@[i], final(self)@[i], excluding, *m)
                    &&& forall|i: int|
                        index <= i < old(self)@.len() ==> final(self)@[i] == old(self)@[i]
                },
            },
    {
        self.broadcast_from(excluding, m, 0)
    }

    /// The transition that makes a connection an active peer: registers it
    /// under its display name with a fresh, empty, open queue, then announces
    /// `Joined` to every other peer. The new peer never receives its own
    /// announcement, and messages already delivered before this call are
    /// never delivered to it retroactively.
    pub fn join(&mut self, key: u64, name: String) -> (r: BroadcastProgress)
        requires
            old(self).wf(),
            !contains_key(old(self)@, key),
        ensures
            final(self).wf(),
            final(self)@.len() == old(self)@.len() + 1,
            final(self)@[old(self)@.len() as int] == (PeerView {
                key,
                name,
                queue: Seq::<Message>::empty(),
                closed: false,
            }),
            match r {
                BroadcastProgress::Completed => forall|i: int|
                    0 <= i < old(self)@.len() ==> delivered(
                        old(self)@[i],
                        final(self)@[i],
                        key,
                        (Message::Joined { name }),
                    ),
                BroadcastProgress::Suspended { index } => {
                    &&& 0 <= index < old(self)@.len()
                    &&& old(self)@[index as int].key != key
                    &&& !old(self)@[index as int].closed
                    &&& old(self)@[index as int].queue.len() == QUEUE_CAPACITY
                    &&& forall|i: int|
                        0 <= i < index ==> delivered(
                            old(self)@[i],
                            final(self)@[i],
                            key,
                            (Message::Joined { name }),
                        )
                    &&& forall|i: int|
                        index <= i < old(self)@.len() ==> final(self)@[i] == old(self)@[i]
                },
            },
    {
        let m = Message::Joined { name: name.clone() };
        self.register(key, name);
        let ghost mid = self@;
        let r = self.broadcast_from(key, &m, 0);
        proof {
            assert(mid[mid.len() - 1].key == key);
            match r {
                BroadcastProgress::Suspended { index } => {
                    assert(mid[index as int].key != key);
                    assert(index != mid.len() - 1);
                },
                BroadcastProgress::Completed => {},
            }
        }
        r
    }

    /// Peer teardown: announces `Left` to every other peer, then removes the
    /// entry, so the key is absent from the registry the moment teardown
    /// completes. Call with `start` 0 for a fresh departure; when a full
    /// queue suspends the announcement, nothing has been removed yet, and the
    /// caller resumes by calling again with the reported index.
    pub fn depart_from(&mut self, key: u64, start: usize) -> (r: BroadcastProgress)
        requires
            old(self).wf(),
            contains_key(old(self)@, key),
            start <= old(self)@.len(),
        ensures
            final(self).wf(),
            ({
                let k = key_index(old(self)@, key);
                let m = (Message::Left { name: old(self)@[k].name });
                match r {
                    BroadcastProgress::Completed => {
                        &&& final(self)@.len() == old(self)@.len() - 1
                        &&& !contains_key(final(self)@, key)
                        &&& forall|i: int|
                            0 <= i < k ==> delivered_or_kept(
                                old(self)@[i],
                                final(self)@[i],
                                key,
                                m,
                                start <= i,
                            )
                        &&& forall|i: int|
                            k <= i < final(self)@.len() ==> delivered_or_kept(
                                old(self)@[i + 1],
                                final(self)@[i],
                                key,
                                m,
                                start <= i + 1,
                            )
                    },
                    BroadcastProgress::Suspended { index } => {
                        &&& final(self)@.len() == old(self)@.len()
                        &&& start <= index < old(self)@.len()
                        &&& old(self)@[index as int].key != key
                        &&& !old(self)@[index as int].closed
                        &&& old(self)@[index as int].queue.len() == QUEUE_CAPACITY
                        &&& forall|i: int| 0 <= i < start ==> final(self)@[i] == old(self)@[i]
                        &&& forall|i: int|
                            start <= i < index ==> delivered(
                                old(self)@[i],
                                final(self)@[i],
                                key,
                                m,
                            )
                        &&& forall|i: int|
                            index <= i < old(self)@.len() ==> final(self)@[i] == old(self)@[i]
                        &&& contains_key(final(self)@, key)
                        &&& key_index(final(self)@, key) == k
                        &&& final(self)@[k] == old(self)@[k]
                    },
                }
            }),
    {
        let ghost k = key_index(old(self)@, key);
        let n = self.peers.len();
        let mut idx: usize = 0;
        while idx < n
            invariant
                old(self) == self,
                self.wf(),
                n == self@.len(),
                0 <= idx <= n,
                contains_key(self@, key),
                forall|j: int| 0 <= j < idx ==> self@[j].key != key,
            ensures
                idx < n,
                self@[idx as int].key == key,
            decreases n - idx,
        {
            if self.peers[idx].key == key {
                proof {
                    assert(self@[idx as int].key == key);
                }
                break ;
            }
            idx += 1;
        }
        proof {
            assert(0 <= k < self@.len() && self@[k].key == key);
            assert(k == idx) by {
                if k != idx {
                    assert(unique_keys(self@));
                }
            }
        }
        let m = Message::Left { name: self.peers[idx].name.clone() };
        let ghost mid = self@;
        let r = self.broadcast_from(key, &m, start);
        match r {
            BroadcastProgress::Completed => {
                proof {
                    assert(self@[k] == mid[k]);
                    assert(contains_key(self@, key));
                    assert(key_index(self@, key) == k) by {
                        let k2 = key_index(self@, key);
                        assert(0 <= k2 < self@.len() && self@[k2].key == key);
                        if k2 != k {
                            assert(self@[k2].key == mid[k2].key);
                            assert(unique_keys(mid));
                        }
                    }
                }
                let ghost post_bc = self@;
                self.remove(key);
                proof {
                    post_bc.remove_ensures(k);
                    assert forall|j: int|
                        0 <= j < self@.len() implies self@[j].key != key by {
                        if j < k {
                            assert(self@[j] == post_bc[j]);
                            assert(post_bc[j].key == mid[j].key);
                            assert(mid[j].key != mid[k].key);
                        } else {
                            assert(self@[j] == post_bc[j + 1]);
                            assert(post_bc[j + 1].key == mid[j + 1].key);
                            assert(mid[k].key != mid[j + 1].key);
                        }
                    }
                }
                BroadcastProgress::Completed
            },
            BroadcastProgress::Suspended { index } => {
                proof {
                    assert(self@[k] == mid[k]);
                    assert(contains_key(self@, key));
                    assert(key_index(self@, key) == k) by {
                        let k2 = key_index(self@, key);
                        assert(0 <= k2 < self@.len() && self@[k2].key == key);
                        if k2 != k {
                            assert(self@[k2].key == mid[k2].key);
                            assert(unique_keys(mid));
                        }
                    }
                }
                BroadcastProgress::Suspended { index }
            },
        }
    }
}

/// The total number of messages sitting in all delivery queues.
pub open spec fn total_queued(s: Seq<PeerView>) -> int
    decreases s.len(),
{
    if s.len() == 0 {
        0
    } else {
        s[0].queue.len() + total_queued(s.drop_first())
    }
}

/// How many peers are registered under `key` (1 in a well-formed registry
/// that contains the key).
pub open spec fn count_key(s: Seq<PeerView>, key: u64) -> int
    decreases s.len(),
{
    if s.len() == 0 {
        0int
    } else {
        (if s[0].key == key {
            1int
        } else {
            0int
        }) + count_key(s.drop_first(), key)
    }
}

proof fn lemma_count_key_absent(s: Seq<PeerView>, key: u64)
    requires
        !contains_key(s, key),
    ensures
        count_key(s, key) == 0,
    decreases s.len(),
{
    if s.len() > 0 {
        assert(s[0].key != key);
        assert(forall|i: int| 0 <= i < s.drop_first().len() ==> s.drop_first()[i] == s[i + 1]);
        lemma_count_key_absent(s.drop_first(), key);
    }
}

proof fn lemma_count_key_unique(s: Seq<PeerView>, key: u64)
    requires
        unique_keys(s),
        contains_key(s, key),
    ensures
        count_key(s, key) == 1,
    decreases s.len(),
{
    let rest = s.drop_first();
    assert(forall|i: int| 0 <= i < rest.len() ==> rest[i] == s[i + 1]);
    if s[0].key == key {
        assert(!contains_key(rest, key)) by {
            if contains_key(rest, key) {
                let i = choose|i: int| 0 <= i < rest.len() && rest[i].key == key;
                assert(s[0].key != s[i + 1].key);
            }
        }
        lemma_count_key_absent(rest, key);
    } else {
        assert(contains_key(rest, key)) by {
            let i = choose|i: int| 0 <= i < s.len() && s[i].key == key;
            assert(rest[i - 1].key == key);
        }
        assert(unique_keys(rest)) by {
            assert(forall|a: int, b: int|
                0 <= a < b < rest.len() ==> rest[a].key != rest[b].key);
        }
        lemma_count_key_unique(rest, key);
    }
}

/// Law: one broadcast enqueues exactly one copy of the message for every
/// peer other than the originator, and nothing for the originator, so over
/// peers with open queues the total number of queued messages grows by the
/// number of peers minus the originator's occurrences.
pub proof fn lemma_broadcast_delivery_count(
    pre: Seq<PeerView>,
    post: Seq<PeerView>,
    excluding: u64,
    m: Message,
)
    requires
        pre.len() == post.len(),
        forall|i: int| 0 <= i < pre.len() ==> delivered(pre[i], post[i], excluding, m),
        forall|i: int| 0 <= i < pre.len() ==> !pre[i].closed,
    ensures
        total_queued(post) == total_queued(pre) + pre.len() - count_key(pre, excluding),
    decreases pre.len(),
{
    if pre.len() > 0 {
        let pre1 = pre.drop_first();
        let post1 = post.drop_first();
        assert(forall|i: int| 0 <= i < pre1.len() ==> pre1[i] == pre[i + 1]);
        assert(forall|i: int| 0 <= i < post1.len() ==> post1[i] == post[i + 1]);
        lemma_broadcast_delivery_count(pre1, post1, excluding, m);
        assert(delivered(pre[0], post[0], excluding, m));
    }
}

/// Law: registering N peers, none with a closed queue, and then completing
/// one broadcast from one of them results in exactly N - 1 deliveries, one
/// per other peer and none to the originator.
pub proof fn lemma_broadcast_reaches_all_but_sender(
    pre: Seq<PeerView>,
    post: Seq<PeerView>,
    excluding: u64,
    m: Message,
)
    requires
        pre.len() == post.len(),
        unique_keys(pre),
        contains_key(pre, excluding),
        forall|i: int| 0 <= i < pre.len() ==> delivered(pre[i], post[i], excluding, m),
        forall|i: int| 0 <= i < pre.len() ==> !pre[i].closed,
    ensures
        total_queued(post) == total_queued(pre) + pre.len() - 1,
{
    lemma_count_key_unique(pre, excluding);
    lemma_broadcast_delivery_count(pre, post, excluding, m);
}

/// Law: delivery to one peer is FIFO. Two messages broadcast to the same
/// open-queued peer, one after the other, sit in its delivery queue in
/// broadcast order, behind everything queued earlier, and `pop` hands
/// messages out from the front, so the peer's outbound writer receives them
/// in exactly the order they were broadcast.
pub proof fn lemma_fifo_order(
    p0: PeerView,
    p1: PeerView,
    p2: PeerView,
    excluding: u64,
    m1: Message,
    m2: Message,
)
    requires
        delivered(p0, p1, excluding, m1),
        delivered(p1, p2, excluding, m2),
        p0.key != excluding,
        !p0.closed,
    ensures
        p2.queue.len() == p0.queue.len() + 2,
        p2.queue[p0.queue.len() as int] == m1,
        p2.queue[p0.queue.len() as int + 1] == m2,
        forall|i: int| 0 <= i < p0.queue.len() ==> p2.queue[i] == p0.queue[i],
{
}

} // verus!
