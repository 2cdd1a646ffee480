//! A bounded cache of what was measured of addresses, in the order of last use.

use crate::net::IpAddr;
use std::collections::HashMap;
use vstd::prelude::*;

verus! {

/// Whether an address could be reached.
#[derive(Clone, Copy, Debug, PartialEq, Eq, Structural)]
pub enum FastIpCacheStatus {
    Success,
    Failure,
}

/// What was measured of an address, and until when that counts.
#[derive(Clone, Copy, Debug, PartialEq, Eq, Structural)]
pub struct FastIpCacheEntry {
    pub status: FastIpCacheStatus,
    pub latency_ms: u32,
    pub expire_at_ms: u64,
}

pub const FASTEST_IP_CACHE_MAX_SIZE: usize = 65536;

/// An entry and its neighbours in the order of last use.
#[derive(Clone, Copy, Debug, PartialEq, Eq, Structural)]
struct FastIpCacheNode {
    entry: FastIpCacheEntry,
    prev: Option<IpAddr>,
    next: Option<IpAddr>,
}

/// The nodes by address, one table for each family.
#[derive(Debug)]
struct NodeTable {
    v4: HashMap<u32, FastIpCacheNode>,
    v6: HashMap<u128, FastIpCacheNode>,
}

impl NodeTable {
    spec fn nodes(self) -> Map<IpAddr, FastIpCacheNode> {
        Map::new(
            |ip: IpAddr|
                match ip {
                    IpAddr::V4(v) => self.v4@.contains_key(v),
                    IpAddr::V6(v) => self.v6@.contains_key(v),
                },
            |ip: IpAddr|
                match ip {
                    IpAddr::V4(v) => self.v4@[v],
                    IpAddr::V6(v) => self.v6@[v],
                },
        )
    }

    spec fn wf(self) -> bool {
        self.v4@.dom().finite() && self.v6@.dom().finite()
    }

    spec fn count(self) -> nat {
        self.v4@.len() + self.v6@.len()
    }

    fn new() -> (t: Self)
        ensures
            t.wf(),
            t.nodes() == Map::<IpAddr, FastIpCacheNode>::empty(),
            t.count() == 0,
    {
        let t = NodeTable { v4: HashMap::new(), v6: HashMap::new() };
        assert(t.nodes() =~= Map::<IpAddr, FastIpCacheNode>::empty());
        t
    }

    fn get(&self, key: IpAddr) -> (node: Option<FastIpCacheNode>)
        ensures
            match node {
                Some(n) => self.nodes().contains_key(key) && self.nodes()[key] == n,
                None => !self.nodes().contains_key(key),
            },
    {
        match key {
            IpAddr::V4(v) => match self.v4.get(&v) {
                Some(n) => Some(*n),
                None => None,
            },
            IpAddr::V6(v) => match self.v6.get(&v) {
                Some(n) => Some(*n),
                None => None,
            },
        }
    }

    fn insert(&mut self, key: IpAddr, node: FastIpCacheNode)
        requires
            old(self).wf(),
        ensures
            final(self).wf(),
            final(self).nodes() == old(self).nodes().insert(key, node),
            final(self).count() == old(self).count() + (if old(self).nodes().contains_key(key) {
                0nat
            } else {
                1
            }),
    {
        match key {
            IpAddr::V4(v) => {
                self.v4.insert(v, node);
            },
            IpAddr::V6(v) => {
                self.v6.insert(v, node);
            },
        }
        assert(self.nodes() =~= old(self).nodes().insert(key, node));
    }

    fn remove(&mut self, key: IpAddr)
        requires
            old(self).wf(),
        ensures
            final(self).wf(),
            final(self).nodes() == old(self).nodes().remove(key),
            old(self).nodes().contains_key(key) ==> final(self).count() + 1 == old(self).count(),
            !old(self).nodes().contains_key(key) ==> final(self).count() == old(self).count(),
    {
        match key {
            IpAddr::V4(v) => {
                self.v4.remove(&v);
            },
            IpAddr::V6(v) => {
                self.v6.remove(&v);
            },
        }
        assert(self.nodes() =~= old(self).nodes().remove(key));
    }

    fn more_than(&self, limit: usize) -> (more: bool)
        ensures
            more == (self.count() > limit),
    {
        let n: usize = self.v4.len();
        n > limit || self.v6.len() > limit - n
    }

    /// Sets the node's follower, where there is such a node.
    fn set_next(&mut self, key: IpAddr, next: Option<IpAddr>)
        requires
            old(self).wf(),
        ensures
            final(self).wf(),
            final(self).count() == old(self).count(),
            final(self).nodes() == (if old(self).nodes().contains_key(key) {
                old(self).nodes().insert(
                    key,
                    (FastIpCacheNode { next, ..old(self).nodes()[key] }),
                )
            } else {
                old(self).nodes()
            }),
    {
        match self.get(key) {
            Some(node) => {
                self.insert(key, FastIpCacheNode { entry: node.entry, prev: node.prev, next });
            },
            None => {},
        }
    }

    /// Sets the node's predecessor, where there is such a node.
    fn set_prev(&mut self, key: IpAddr, prev: Option<IpAddr>)
        requires
            old(self).wf(),
        ensures
            final(self).wf(),
            final(self).count() == old(self).count(),
            final(self).nodes() == (if old(self).nodes().contains_key(key) {
                old(self).nodes().insert(
                    key,
                    (FastIpCacheNode { prev, ..old(self).nodes()[key] }),
                )
            } else {
                old(self).nodes()
            }),
    {
        match self.get(key) {
            Some(node) => {
                self.insert(key, FastIpCacheNode { entry: node.entry, prev, next: node.next });
            },
            None => {},
        }
    }
}


/// What the cache holds of `key`.
pub open spec fn entry_of(list: Seq<(IpAddr, FastIpCacheEntry)>, key: IpAddr) -> Option<
    FastIpCacheEntry,
>
    decreases list.len(),
{
    if list.len() == 0 {
        None
    } else if list[0].0 == key {
        Some(list[0].1)
    } else {
        entry_of(list.skip(1), key)
    }
}

/// The list without what it holds of `key`.
pub open spec fn without(list: Seq<(IpAddr, FastIpCacheEntry)>, key: IpAddr) -> Seq<
    (IpAddr, FastIpCacheEntry),
>
    decreases list.len(),
{
    if list.len() == 0 {
        list
    } else if list[0].0 == key {
        without(list.skip(1), key)
    } else {
        seq![list[0]] + without(list.skip(1), key)
    }
}

/// The list with `entry` for `key` in front.
pub open spec fn in_front(
    list: Seq<(IpAddr, FastIpCacheEntry)>,
    key: IpAddr,
    entry: FastIpCacheEntry,
) -> Seq<(IpAddr, FastIpCacheEntry)> {
    seq![(key, entry)] + without(list, key)
}

/// The list cut down to its first `capacity` items.
pub open spec fn bounded(list: Seq<(IpAddr, FastIpCacheEntry)>, capacity: nat) -> Seq<
    (IpAddr, FastIpCacheEntry),
> {
    if list.len() <= capacity {
        list
    } else {
        list.take(capacity as int)
    }
}

/// No address occurs twice.
pub open spec fn unique_keys(list: Seq<(IpAddr, FastIpCacheEntry)>) -> bool {
    forall|i: int, j: int|
        0 <= i < j < list.len() ==> (#[trigger] list[i]).0 != (#[trigger] list[j]).0
}

/// A node's neighbours are those of its address in `order`.
spec fn placed(nodes: Map<IpAddr, FastIpCacheNode>, order: Seq<IpAddr>, i: int) -> bool {
    let node = nodes[order[i]];
    &&& nodes.contains_key(order[i])
    &&& node.prev == (if i == 0 {
        None
    } else {
        Some(order[i - 1])
    })
    &&& node.next == (if i == order.len() - 1 {
        None
    } else {
        Some(order[i + 1])
    })
}

/// The nodes of `order` are linked in that order, from `head` to `tail`.
spec fn linked(
    nodes: Map<IpAddr, FastIpCacheNode>,
    order: Seq<IpAddr>,
    head: Option<IpAddr>,
    tail: Option<IpAddr>,
) -> bool {
    &&& order.no_duplicates()
    &&& forall|i: int| 0 <= i < order.len() ==> placed(nodes, order, i)
    &&& head == (if order.len() == 0 {
        None
    } else {
        Some(order[0])
    })
    &&& tail == (if order.len() == 0 {
        None
    } else {
        Some(order.last())
    })
}

/// The cache: at most a fixed number of entries; where one more comes in, the one that was not
/// used for the longest time goes out.
pub struct FastestIpCache {
    max_size: usize,
    head: Option<IpAddr>,
    tail: Option<IpAddr>,
    entries: NodeTable,
    order: Ghost<Seq<IpAddr>>,
}

impl View for FastestIpCache {
    type V = Seq<(IpAddr, FastIpCacheEntry)>;

    /// The entries with their addresses, the last used one first.
    closed spec fn view(&self) -> Seq<(IpAddr, FastIpCacheEntry)> {
        listed(self.entries.nodes(), self.order@)
    }
}

spec fn listed(nodes: Map<IpAddr, FastIpCacheNode>, order: Seq<IpAddr>) -> Seq<
    (IpAddr, FastIpCacheEntry),
> {
    order.map_values(|ip: IpAddr| (ip, nodes[ip].entry))
}

impl FastestIpCache {
    /// How many entries the cache may hold.
    pub closed spec fn capacity(&self) -> nat {
        self.max_size as nat
    }

    /// The links are those of the order of last use, and they reach every node.
    spec fn consistent(&self) -> bool {
        &&& self.max_size >= 1
        &&& self.entries.wf()
        &&& linked(self.entries.nodes(), self.order@, self.head, self.tail)
        &&& forall|ip: IpAddr| #[trigger]
            self.entries.nodes().contains_key(ip) ==> self.order@.contains(ip)
        &&& self.entries.count() == self.order@.len()
    }

    /// The cache is consistent, and holds no more than it may.
    pub closed spec fn wf(&self) -> bool {
        self.consistent() && self.order@.len() <= self.max_size
    }

    /// A cache for `max_size` entries, and for one at least.
    pub fn with_max_size(max_size: usize) -> (c: Self)
        ensures
            c.wf(),
            c@.len() == 0,
            c.capacity() == (if max_size == 0 {
                1
            } else {
                max_size as nat
            }),
    {
        FastestIpCache {
            max_size: if max_size == 0 {
                1
            } else {
                max_size
            },
            head: None,
            tail: None,
            entries: NodeTable::new(),
            order: Ghost(Seq::empty()),
        }
    }

    /// What the cache holds of `key` where it still counts; it is then the last used entry. An
    /// entry that has expired is dropped.
    pub fn get(&mut self, key: IpAddr, now_ms: u64) -> (found: Option<FastIpCacheEntry>)
        requires
            old(self).wf(),
        ensures
            final(self).wf(),
            final(self).capacity() == old(self).capacity(),
            match entry_of(old(self)@, key) {
                None => found is None && final(self)@ == old(self)@,
                Some(entry) => if entry.expire_at_ms <= now_ms {
                    found is None && final(self)@ == without(old(self)@, key)
                } else {
                    found == Some(entry) && final(self)@ == in_front(old(self)@, key, entry)
                },
            },
    {
        proof {
            self.lemma_lookup(key);
        }
        match self.entries.get(key) {
            Some(node) => {
                if node.entry.expire_at_ms <= now_ms {
                    let _ = self.remove(key);
                    None
                } else {
                    self.move_to_front(key);
                    Some(node.entry)
                }
            },
            None => None,
        }
    }

    /// Stores what was measured of `key` as the last used entry.
    pub fn upsert(&mut self, key: IpAddr, entry: FastIpCacheEntry)
        requires
            old(self).wf(),
        ensures
            final(self).wf(),
            final(self).capacity() == old(self).capacity(),
            final(self)@ == bounded(in_front(old(self)@, key, entry), old(self).capacity()),
    {
        proof {
            self.lemma_lookup(key);
        }
        match self.entries.get(key) {
            Some(node) => {
                let ghost nodes = self.entries.nodes();
                self.entries.insert(
                    key,
                    FastIpCacheNode { entry, prev: node.prev, next: node.next },
                );
                proof {
                    lemma_linked_known(nodes, self.order@);
                    lemma_same_links(
                        nodes,
                        self.entries.nodes(),
                        self.order@,
                        self.head,
                        self.tail,
                    );
                    lemma_without_other_entry(
                        listed(nodes, self.order@),
                        listed(self.entries.nodes(), self.order@),
                        key,
                    );
                    self.lemma_lookup(key);
                }
                self.move_to_front(key);
                return;
            },
            None => {},
        }
        let ghost nodes = self.entries.nodes();
        let ghost order = self.order@;
        self.entries.insert(key, FastIpCacheNode { entry, prev: None, next: None });
        proof {
            assert(!order.contains(key)) by {
                if order.contains(key) {
                    let i = choose|i: int| 0 <= i < order.len() && order[i] == key;
                    assert(placed(nodes, order, i));
                }
            }
            lemma_linked_known(nodes, order);
            lemma_same_links(nodes, self.entries.nodes(), order, self.head, self.tail);
        }
        let ghost mid = self.entries.nodes();
        self.attach_front(key);
        proof {
            lemma_linked_known(self.entries.nodes(), self.order@);
            assert forall|ip: IpAddr| #[trigger] self.order@.contains(ip) implies mid[ip].entry
                == self.entries.nodes()[ip].entry by {
                assert(mid.contains_key(ip));
            }
            lemma_listed_same(mid, self.entries.nodes(), self.order@);
            lemma_listed_same(nodes, mid, order);
            assert(self@ =~= seq![(key, entry)] + old(self)@);
            assert forall|ip: IpAddr| #[trigger]
                self.entries.nodes().contains_key(ip) implies self.order@.contains(ip) by {
                assert(mid.contains_key(ip));
                if ip == key {
                    assert(self.order@[0] == key);
                } else {
                    assert(nodes.contains_key(ip));
                    let k = choose|k: int| 0 <= k < order.len() && order[k] == ip;
                    assert(self.order@[k + 1] == ip);
                }
            }
        }
        self.evict_if_needed();
    }

    /// Drops what the cache holds of `key`.
    pub fn remove(&mut self, key: IpAddr) -> (found: Option<FastIpCacheEntry>)
        requires
            old(self).wf(),
        ensures
            final(self).wf(),
            final(self).capacity() == old(self).capacity(),
            found == entry_of(old(self)@, key),
            final(self)@ == without(old(self)@, key),
    {
        proof {
            self.lemma_lookup(key);
        }
        match self.entries.get(key) {
            Some(_) => self.unlink(key),
            None => None,
        }
    }

    /// Takes a node out of the order and out of the table.
    fn unlink(&mut self, key: IpAddr) -> (found: Option<FastIpCacheEntry>)
        requires
            old(self).consistent(),
            old(self).entries.nodes().contains_key(key),
        ensures
            final(self).consistent(),
            final(self).max_size == old(self).max_size,
            found == entry_of(old(self)@, key),
            final(self)@ == without(old(self)@, key),
            final(self).order@.len() + 1 == old(self).order@.len(),
    {
        let ghost i = self.order@.index_of(key);
        let ghost nodes = self.entries.nodes();
        let ghost order = self.order@;
        proof {
            self.lemma_lookup(key);
            assert(order.contains(key));
            assert(placed(nodes, order, i));
        }
        match self.entries.get(key) {
            Some(node) => {
                self.detach(key, node.prev, node.next);
                let ghost mid = self.entries.nodes();
                self.entries.remove(key);
                proof {
                    let o = self.order@;
                    assert(o == order.remove(i));
                    assert forall|k: int| 0 <= k < o.len() implies placed(
                        self.entries.nodes(),
                        o,
                        k,
                    ) by {
                        assert(placed(mid, o, k));
                    }
                    assert forall|ip: IpAddr| #[trigger]
                        self.entries.nodes().contains_key(ip) implies o.contains(ip) by {
                        assert(mid.contains_key(ip));
                        lemma_remove_keeps(order, i, ip);
                    }
                    lemma_linked_known(self.entries.nodes(), o);
                    assert forall|ip: IpAddr| #[trigger] o.contains(ip) implies nodes[ip].entry
                        == self.entries.nodes()[ip].entry by {
                        assert(mid.contains_key(ip) && nodes.contains_key(ip));
                    }
                    lemma_listed_same(nodes, self.entries.nodes(), o);
                    assert(self@ =~= old(self)@.remove(i));
                }
                Some(node.entry)
            },
            None => None,
        }
    }

    fn evict_if_needed(&mut self)
        requires
            old(self).consistent(),
            old(self).order@.len() <= old(self).max_size + 1,
        ensures
            final(self).wf(),
            final(self).max_size == old(self).max_size,
            final(self)@ == bounded(old(self)@, old(self).max_size as nat),
    {
        let ghost start = self@;
        while self.entries.more_than(self.max_size)
            invariant
                self.consistent(),
                self.max_size == old(self).max_size,
                self.order@.len() == self@.len(),
                self.order@.len() <= self.max_size + 1,
                self@ == start || (self.order@.len() <= self.max_size && self@ == bounded(
                    start,
                    self.max_size as nat,
                )),
                start == old(self)@,
            decreases self.order@.len(),
        {
            match self.tail {
                Some(tail) => {
                    let ghost last = self@.len() - 1;
                    proof {
                        assert(placed(self.entries.nodes(), self.order@, last));
                        self.lemma_lookup(tail);
                        lemma_found(self@, tail, last);
                        self.lemma_unique();
                        assert(self@.remove(last) =~= self@.take(last));
                    }
                    let _ = self.unlink(tail);
                },
                None => {
                    return;
                },
            }
        }
    }

    fn move_to_front(&mut self, key: IpAddr)
        requires
            old(self).consistent(),
            old(self).entries.nodes().contains_key(key),
        ensures
            final(self).consistent(),
            final(self).max_size == old(self).max_size,
            final(self).order@.len() == old(self).order@.len(),
            entry_of(old(self)@, key) matches Some(entry) && final(self)@ == in_front(
                old(self)@,
                key,
                entry,
            ),
    {
        let ghost i = self.order@.index_of(key);
        let ghost nodes = self.entries.nodes();
        let ghost order = self.order@;
        proof {
            self.lemma_lookup(key);
            assert(order.contains(key));
            assert(placed(nodes, order, i));
        }
        if self.head == Some(key) {
            proof {
                assert(i == 0) by {
                    assert(order[0] == key && order[i] == key);
                }
                assert(self@ =~= seq![self@[0]] + self@.remove(0));
            }
            return;
        }
        match self.entries.get(key) {
            Some(node) => {
                self.detach(key, node.prev, node.next);
                let ghost mid = self.entries.nodes();
                proof {
                    assert(!self.order@.contains(key)) by {
                        if self.order@.contains(key) {
                            let k = choose|k: int|
                                0 <= k < self.order@.len() && self.order@[k] == key;
                            if k < i {
                                assert(order[k] == key);
                            } else {
                                assert(order[k + 1] == key);
                            }
                        }
                    }
                }
                self.attach_front(key);
                proof {
                    assert forall|ip: IpAddr| #[trigger]
                        self.entries.nodes().contains_key(ip) implies self.order@.contains(ip) by {
                        assert(nodes.contains_key(ip));
                        if ip == key {
                            assert(self.order@[0] == key);
                        } else {
                            lemma_remove_keeps(order, i, ip);
                            let k = choose|k: int|
                                0 <= k < order.remove(i).len() && order.remove(i)[k] == ip;
                            assert(self.order@[k + 1] == ip);
                        }
                    }
                    lemma_linked_known(self.entries.nodes(), self.order@);
                    assert forall|ip: IpAddr| #[trigger]
                        self.order@.contains(ip) implies nodes[ip].entry
                        == self.entries.nodes()[ip].entry by {
                        assert(mid.contains_key(ip) && nodes.contains_key(ip));
                    }
                    lemma_listed_same(nodes, self.entries.nodes(), self.order@);
                    assert(self@ =~= seq![(key, node.entry)] + old(self)@.remove(i));
                }
            },
            None => {},
        }
    }

    /// Links a node that is out of the order before all others.
    fn attach_front(&mut self, key: IpAddr)
        requires
            old(self).entries.wf(),
            linked(old(self).entries.nodes(), old(self).order@, old(self).head, old(self).tail),
            old(self).entries.nodes().contains_key(key),
            !old(self).order@.contains(key),
        ensures
            final(self).entries.wf(),
            final(self).max_size == old(self).max_size,
            final(self).entries.count() == old(self).entries.count(),
            final(self).order@ == seq![key] + old(self).order@,
            linked(
                final(self).entries.nodes(),
                final(self).order@,
                final(self).head,
                final(self).tail,
            ),
            same_entries(old(self).entries.nodes(), final(self).entries.nodes()),
    {
        let ghost order = self.order@;
        let ghost nodes = self.entries.nodes();
        let old_head = self.head;
        self.entries.set_prev(key, None);
        self.entries.set_next(key, old_head);
        match old_head {
            Some(h) => {
                self.entries.set_prev(h, Some(key));
            },
            None => {
                self.tail = Some(key);
            },
        }
        self.head = Some(key);
        self.order = Ghost(seq![key] + order);
        proof {
            let now = self.entries.nodes();
            let o = self.order@;
            assert(o.no_duplicates()) by {
                assert forall|a: int, b: int|
                    0 <= a < o.len() && 0 <= b < o.len() && a != b implies o[a] != o[b] by {
                    if a == 0 {
                        assert(o[b] == order[b - 1]);
                    } else if b == 0 {
                        assert(o[a] == order[a - 1]);
                    } else {
                        assert(o[a] == order[a - 1] && o[b] == order[b - 1]);
                    }
                }
            }
            assert forall|k: int| 0 <= k < o.len() implies placed(now, o, k) by {
                if k > 0 {
                    assert(placed(nodes, order, k - 1));
                    assert(o[k] == order[k - 1]);
                    assert(order.contains(order[k - 1]));
                    if k - 1 < order.len() - 1 {
                        assert(o[k + 1] == order[k]);
                    }
                    if k > 1 {
                        assert(o[k - 1] == order[k - 2]);
                        assert(order[k - 1] != order[0]);
                    }
                } else if order.len() > 0 {
                    assert(o[1] == order[0]);
                    assert(order.contains(order[0]));
                }
            }
            if order.len() > 0 {
                assert(placed(nodes, order, 0));
                assert(o.last() == order.last());
            }
            assert(nodes.dom() =~= now.dom());
        }
    }

    /// Takes a node out of the order; the node itself stays in the table.
    fn detach(&mut self, key: IpAddr, prev: Option<IpAddr>, next: Option<IpAddr>)
        requires
            old(self).entries.wf(),
            linked(old(self).entries.nodes(), old(self).order@, old(self).head, old(self).tail),
            old(self).order@.contains(key),
            prev == old(self).entries.nodes()[key].prev,
            next == old(self).entries.nodes()[key].next,
        ensures
            final(self).entries.wf(),
            final(self).max_size == old(self).max_size,
            final(self).entries.count() == old(self).entries.count(),
            final(self).order@ == old(self).order@.remove(old(self).order@.index_of(key)),
            linked(
                final(self).entries.nodes(),
                final(self).order@,
                final(self).head,
                final(self).tail,
            ),
            same_entries(old(self).entries.nodes(), final(self).entries.nodes()),
    {
        let ghost order = self.order@;
        let ghost nodes = self.entries.nodes();
        let ghost i = order.index_of(key);
        proof {
            assert(placed(nodes, order, i));
            if i > 0 {
                assert(placed(nodes, order, i - 1));
            }
            if i < order.len() - 1 {
                assert(placed(nodes, order, i + 1));
            }
        }
        match prev {
            Some(p) => {
                self.entries.set_next(p, next);
            },
            None => {
                self.head = next;
            },
        }
        match next {
            Some(n) => {
                self.entries.set_prev(n, prev);
            },
            None => {
                self.tail = prev;
            },
        }
        self.entries.set_prev(key, None);
        self.entries.set_next(key, None);
        self.order = Ghost(order.remove(i));
        proof {
            let now = self.entries.nodes();
            let o = self.order@;
            assert forall|k: int| 0 <= k < o.len() implies placed(now, o, k) by {
                let j = if k < i {
                    k
                } else {
                    k + 1
                };
                assert(placed(nodes, order, j));
                assert(o[k] == order[j]);
                assert(order[j] != key);
            }
            if o.len() > 0 {
                assert(o[0] == order[if i == 0 {
                    1int
                } else {
                    0
                }]);
            }
            assert(nodes.dom() =~= now.dom());
        }
    }

    /// What the table knows of an address is what the list says of it.
    proof fn lemma_lookup(&self, key: IpAddr)
        requires
            self.consistent(),
        ensures
            self.entries.nodes().contains_key(key) ==> entry_of(self@, key) == Some(
                self.entries.nodes()[key].entry,
            ) && self.order@.contains(key) && without(self@, key) == self@.remove(
                self.order@.index_of(key),
            ),
            !self.entries.nodes().contains_key(key) ==> entry_of(self@, key) is None && without(
                self@,
                key,
            ) == self@,
    {
        let list = self@;
        let order = self.order@;
        self.lemma_unique();
        if self.entries.nodes().contains_key(key) {
            assert(order.contains(key));
            let i = order.index_of(key);
            assert(list[i].0 == key);
            lemma_found(list, key, i);
        } else {
            assert forall|i: int| 0 <= i < list.len() implies (#[trigger] list[i]).0 != key by {
                assert(placed(self.entries.nodes(), order, i));
            }
            lemma_not_found(list, key);
        }
    }

    proof fn lemma_unique(&self)
        requires
            self.consistent(),
        ensures
            unique_keys(self@),
            self@.len() == self.order@.len(),
    {
        let order = self.order@;
        assert forall|i: int, j: int| 0 <= i < j < self@.len() implies (#[trigger] self@[i]).0 != (
        #[trigger] self@[j]).0 by {
            assert(order[i] != order[j]);
        }
    }
}

impl Default for FastestIpCache {
    fn default() -> (c: Self)
        ensures
            c.wf(),
            c@.len() == 0,
            c.capacity() == FASTEST_IP_CACHE_MAX_SIZE,
    {
        FastestIpCache::with_max_size(FASTEST_IP_CACHE_MAX_SIZE)
    }
}

/// The same addresses, with the same entries.
spec fn same_entries(a: Map<IpAddr, FastIpCacheNode>, b: Map<IpAddr, FastIpCacheNode>) -> bool {
    &&& a.dom() == b.dom()
    &&& forall|ip: IpAddr| #[trigger] a.contains_key(ip) ==> b[ip].entry == a[ip].entry
}

proof fn lemma_linked_known(nodes: Map<IpAddr, FastIpCacheNode>, order: Seq<IpAddr>)
    requires
        forall|i: int| 0 <= i < order.len() ==> placed(nodes, order, i),
    ensures
        forall|ip: IpAddr| #[trigger] order.contains(ip) ==> nodes.contains_key(ip),
{
    assert forall|ip: IpAddr| #[trigger] order.contains(ip) implies nodes.contains_key(ip) by {
        let i = choose|i: int| 0 <= i < order.len() && order[i] == ip;
        assert(placed(nodes, order, i));
    }
}

proof fn lemma_listed_same(
    a: Map<IpAddr, FastIpCacheNode>,
    b: Map<IpAddr, FastIpCacheNode>,
    order: Seq<IpAddr>,
)
    requires
        forall|ip: IpAddr| #[trigger] order.contains(ip) ==> a[ip].entry == b[ip].entry,
    ensures
        listed(a, order) == listed(b, order),
{
    assert forall|i: int| 0 <= i < order.len() implies listed(a, order)[i] == listed(
        b,
        order,
    )[i] by {
        assert(order.contains(order[i]));
    }
    assert(listed(a, order) =~= listed(b, order));
}

proof fn lemma_remove_keeps(order: Seq<IpAddr>, i: int, ip: IpAddr)
    requires
        0 <= i < order.len(),
        order.contains(ip),
        ip != order[i],
    ensures
        order.remove(i).contains(ip),
{
    let k = choose|k: int| 0 <= k < order.len() && order[k] == ip;
    if k < i {
        assert(order.remove(i)[k] == ip);
    } else {
        assert(order.remove(i)[k - 1] == ip);
    }
}

/// The links do not depend on the entries, nor on nodes outside the order.
proof fn lemma_same_links(
    a: Map<IpAddr, FastIpCacheNode>,
    b: Map<IpAddr, FastIpCacheNode>,
    order: Seq<IpAddr>,
    head: Option<IpAddr>,
    tail: Option<IpAddr>,
)
    requires
        linked(a, order, head, tail),
        forall|ip: IpAddr| #[trigger]
            order.contains(ip) ==> b.contains_key(ip) && b[ip].prev == a[ip].prev && b[ip].next
                == a[ip].next,
    ensures
        linked(b, order, head, tail),
{
    assert forall|i: int| 0 <= i < order.len() implies placed(b, order, i) by {
        assert(placed(a, order, i));
        assert(order.contains(order[i]));
    }
}

proof fn lemma_found(list: Seq<(IpAddr, FastIpCacheEntry)>, key: IpAddr, i: int)
    requires
        unique_keys(list),
        0 <= i < list.len(),
        list[i].0 == key,
    ensures
        entry_of(list, key) == Some(list[i].1),
        without(list, key) == list.remove(i),
    decreases list.len(),
{
    let rest = list.skip(1);
    if i == 0 {
        assert forall|k: int| 0 <= k < rest.len() implies (#[trigger] rest[k]).0 != key by {
            assert(list[k + 1].0 != list[0].0);
        }
        lemma_not_found(rest, key);
        assert(list.remove(0) =~= rest);
    } else {
        assert(list[0].0 != list[i].0);
        assert forall|a: int, b: int| 0 <= a < b < rest.len() implies (#[trigger] rest[a]).0 != (
        #[trigger] rest[b]).0 by {
            assert(list[a + 1].0 != list[b + 1].0);
        }
        lemma_found(rest, key, i - 1);
        assert(list.remove(i) =~= seq![list[0]] + rest.remove(i - 1));
    }
}

proof fn lemma_not_found(list: Seq<(IpAddr, FastIpCacheEntry)>, key: IpAddr)
    requires
        forall|i: int| 0 <= i < list.len() ==> (#[trigger] list[i]).0 != key,
    ensures
        entry_of(list, key) is None,
        without(list, key) == list,
    decreases list.len(),
{
    if list.len() > 0 {
        let rest = list.skip(1);
        assert forall|k: int| 0 <= k < rest.len() implies (#[trigger] rest[k]).0 != key by {
            assert(list[k + 1].0 != key);
        }
        lemma_not_found(rest, key);
        assert(seq![list[0]] + rest =~= list);
    }
}

/// What is left without an address does not depend on its entry.
proof fn lemma_without_other_entry(
    a: Seq<(IpAddr, FastIpCacheEntry)>,
    b: Seq<(IpAddr, FastIpCacheEntry)>,
    key: IpAddr,
)
    requires
        a.len() == b.len(),
        forall|i: int|
            0 <= i < a.len() ==> (#[trigger] a[i]).0 == b[i].0 && (a[i].0 != key ==> a[i] == b[i]),
    ensures
        without(a, key) == without(b, key),
    decreases a.len(),
{
    if a.len() > 0 {
        let (x, y) = (a.skip(1), b.skip(1));
        assert forall|i: int| 0 <= i < x.len() implies (#[trigger] x[i]).0 == y[i].0 && (x[i].0
            != key ==> x[i] == y[i]) by {
            assert(a[i + 1].0 == b[i + 1].0);
        }
        lemma_without_other_entry(x, y, key);
    }
}


/// A cache in use holds each address once, and no more entries than it may.
pub proof fn law_bounded_and_unique(cache: &FastestIpCache)
    requires
        cache.wf(),
    ensures
        unique_keys(cache@),
        cache@.len() <= cache.capacity(),
        cache.capacity() >= 1,
{
    cache.lemma_unique();
}

/// What was stored last is found, whatever had to go for it.
pub proof fn law_stored_is_found(
    list: Seq<(IpAddr, FastIpCacheEntry)>,
    key: IpAddr,
    entry: FastIpCacheEntry,
    capacity: nat,
)
    requires
        capacity >= 1,
    ensures
        entry_of(bounded(in_front(list, key, entry), capacity), key) == Some(entry),
{
}

/// Storing says nothing new of another address: what is found of it afterwards was there before,
/// and it is lost only where the cache is full and it was the least recently used.
pub proof fn law_storing_keeps_others(
    list: Seq<(IpAddr, FastIpCacheEntry)>,
    key: IpAddr,
    entry: FastIpCacheEntry,
    capacity: nat,
    other: IpAddr,
)
    requires
        capacity >= 1,
        unique_keys(list),
        list.len() <= capacity,
        other != key,
    ensures
        entry_of(bounded(in_front(list, key, entry), capacity), other) matches Some(found)
            ==> entry_of(list, other) == Some(found),
        entry_of(list, other) is Some && entry_of(
            bounded(in_front(list, key, entry), capacity),
            other,
        ) is None ==> list.len() == capacity && list.last().0 == other,
{
    let front = in_front(list, key, entry);
    let rest = without(list, key);
    lemma_without_lookup(list, key, other);
    assert(front.skip(1) =~= rest);
    assert(entry_of(front, other) == entry_of(list, other));
    lemma_without_length(list, key);
    if front.len() > capacity {
        let cut = front.take(capacity as int);
        lemma_unchanged_without(list, key);
        assert(rest == list);
        assert(cut =~= seq![(key, entry)] + list.drop_last());
        assert(cut.skip(1) =~= list.drop_last());
        lemma_cut_lookup(list, other);
    }
}

/// What is found of another address does not depend on this one.
pub proof fn lemma_without_lookup(list: Seq<(IpAddr, FastIpCacheEntry)>, key: IpAddr, other: IpAddr)
    requires
        other != key,
    ensures
        entry_of(without(list, key), other) == entry_of(list, other),
    decreases list.len(),
{
    if list.len() > 0 {
        lemma_without_lookup(list.skip(1), key, other);
        if list[0].0 != key {
            let all = seq![list[0]] + without(list.skip(1), key);
            assert(all.skip(1) =~= without(list.skip(1), key));
        }
    }
}

proof fn lemma_without_length(list: Seq<(IpAddr, FastIpCacheEntry)>, key: IpAddr)
    ensures
        without(list, key).len() <= list.len(),
    decreases list.len(),
{
    if list.len() > 0 {
        lemma_without_length(list.skip(1), key);
    }
}

proof fn lemma_unchanged_without(list: Seq<(IpAddr, FastIpCacheEntry)>, key: IpAddr)
    ensures
        without(list, key).len() == list.len() ==> without(list, key) == list,
    decreases list.len(),
{
    lemma_without_length(list, key);
    if list.len() > 0 {
        lemma_without_length(list.skip(1), key);
        lemma_unchanged_without(list.skip(1), key);
        assert(seq![list[0]] + list.skip(1) =~= list);
    }
}

proof fn lemma_cut_lookup(list: Seq<(IpAddr, FastIpCacheEntry)>, other: IpAddr)
    requires
        list.len() > 0,
    ensures
        entry_of(list.drop_last(), other) matches Some(found) ==> entry_of(list, other) == Some(
            found,
        ),
        entry_of(list.drop_last(), other) is None && entry_of(list, other) is Some
            ==> list.last().0 == other,
    decreases list.len(),
{
    if list.len() > 1 {
        assert(list.skip(1).drop_last() =~= list.drop_last().skip(1));
        lemma_cut_lookup(list.skip(1), other);
    } else {
        assert(list.drop_last() =~= Seq::empty());
        assert(entry_of(list.skip(1), other) is None);
    }
}

/// What is found of an address is what is listed for it, and nothing is found only where nothing
/// is listed.
pub proof fn law_lookup_finds_what_is_listed(list: Seq<(IpAddr, FastIpCacheEntry)>, key: IpAddr)
    ensures
        entry_of(list, key) matches Some(entry) ==> list.contains((key, entry)),
        entry_of(list, key) is None <==> forall|i: int|
            0 <= i < list.len() ==> (#[trigger] list[i]).0 != key,
        unique_keys(list) ==> forall|entry: FastIpCacheEntry| #[trigger]
            list.contains((key, entry)) ==> entry_of(list, key) == Some(entry),
    decreases list.len(),
{
    if forall|i: int| 0 <= i < list.len() ==> (#[trigger] list[i]).0 != key {
        lemma_not_found(list, key);
    } else {
        let rest = list.skip(1);
        law_lookup_finds_what_is_listed(rest, key);
        if list[0].0 == key {
            assert(list[0] == (key, list[0].1));
        } else {
            let i = choose|i: int| 0 <= i < list.len() && (#[trigger] list[i]).0 == key;
            assert(rest[i - 1].0 == key);
            let entry = entry_of(rest, key)->0;
            let k = choose|k: int| 0 <= k < rest.len() && rest[k] == (key, entry);
            assert(list[k + 1] == (key, entry));
        }
    }
    if unique_keys(list) {
        assert forall|entry: FastIpCacheEntry| #[trigger]
            list.contains((key, entry)) implies entry_of(list, key) == Some(entry) by {
            let i = choose|i: int| 0 <= i < list.len() && list[i] == (key, entry);
            lemma_found(list, key, i);
        }
    }
}

/// An address that is stored comes to the front, and the others keep their order behind it: the
/// least recently used is the last, and the first to go.
pub proof fn law_most_recent_comes_first(
    list: Seq<(IpAddr, FastIpCacheEntry)>,
    key: IpAddr,
    entry: FastIpCacheEntry,
    capacity: nat,
)
    ensures
        ({
            let others = list.filter(|item: (IpAddr, FastIpCacheEntry)| item.0 != key);
            let stored = seq![(key, entry)] + others;
            &&& without(list, key) == others
            &&& in_front(list, key, entry) == stored
            &&& bounded(stored, capacity) == stored.take(
                if stored.len() < capacity {
                    stored.len() as int
                } else {
                    capacity as int
                },
            )
        }),
{
    lemma_without_filters(list, key);
    let stored = in_front(list, key, entry);
    assert(stored.take(stored.len() as int) =~= stored);
}

proof fn lemma_without_filters(list: Seq<(IpAddr, FastIpCacheEntry)>, key: IpAddr)
    ensures
        without(list, key) == list.filter(|item: (IpAddr, FastIpCacheEntry)| item.0 != key),
    decreases list.len(),
{
    let other = |item: (IpAddr, FastIpCacheEntry)| item.0 != key;
    reveal(Seq::filter);
    if list.len() > 0 {
        let first = seq![list[0]];
        let rest = list.skip(1);
        lemma_without_filters(rest, key);
        assert(list =~= first + rest);
        Seq::filter_distributes_over_add(first, rest, other);
        assert(first.drop_last() =~= Seq::empty());
        assert(first.drop_last().filter(other) =~= Seq::empty());
        if other(list[0]) {
            assert(first.filter(other) =~= first);
        } else {
            assert(first.filter(other) =~= Seq::empty());
            assert(Seq::empty() + without(rest, key) =~= without(rest, key));
        }
    } else {
        assert(list.filter(other) =~= list);
    }
}

} // verus!
