//! The pools of HTTP/3 connections, by the URLs of their servers.

use crate::h3_client::DohH3Pool;
use crate::text;
use vstd::prelude::*;

verus! {

/// A pool and the URL of its server.
pub struct PoolEntry<C> {
    pub url: String,
    pub pool: DohH3Pool<C>,
}

/// The pools of all servers.
pub struct DohH3Pools<C> {
    entries: Vec<PoolEntry<C>>,
}

spec fn stands_at<C>(entries: Seq<PoolEntry<C>>, url: Seq<char>, i: int) -> bool {
    0 <= i < entries.len() && entries[i].url@ == url
}

impl<C> View for DohH3Pools<C> {
    type V = Map<Seq<char>, DohH3Pool<C>>;

    /// The pools by URL.
    closed spec fn view(&self) -> Map<Seq<char>, DohH3Pool<C>> {
        Map::new(
            |url: Seq<char>| exists|i: int| #[trigger] stands_at(self.entries@, url, i),
            |url: Seq<char>|
                self.entries@[choose|i: int| #[trigger] stands_at(self.entries@, url, i)].pool,
        )
    }
}

impl<C> DohH3Pools<C> {
    /// Each URL stands once.
    pub closed spec fn wf(&self) -> bool {
        forall|i: int, j: int|
            0 <= i < j < self.entries@.len() ==> (#[trigger] self.entries@[i]).url@ != (
            #[trigger] self.entries@[j]).url@
    }

    pub fn new() -> (p: Self)
        ensures
            p.wf(),
            p@ == Map::<Seq<char>, DohH3Pool<C>>::empty(),
    {
        let p = DohH3Pools { entries: Vec::new() };
        assert(p@ =~= Map::<Seq<char>, DohH3Pool<C>>::empty());
        p
    }

    fn position(&self, url: &str) -> (found: Option<usize>)
        ensures
            match found {
                Some(i) => stands_at(self.entries@, url@, i as int),
                None => forall|i: int| !#[trigger] stands_at(self.entries@, url@, i),
            },
    {
        let mut i: usize = 0;
        while i < self.entries.len()
            invariant
                i <= self.entries@.len(),
                forall|j: int| j < i ==> !#[trigger] stands_at(self.entries@, url@, j),
            decreases self.entries@.len() - i,
        {
            if text::same_text(self.entries[i].url.as_str(), url) {
                return Some(i);
            }
            i = i + 1;
        }
        None
    }

    proof fn lemma_at(&self, url: Seq<char>, i: int)
        requires
            self.wf(),
            stands_at(self.entries@, url, i),
        ensures
            self@.contains_key(url),
            self@[url] == self.entries@[i].pool,
    {
        let j = choose|j: int| #[trigger] stands_at(self.entries@, url, j);
        if i < j {
            assert(self.entries@[i].url@ != self.entries@[j].url@);
        } else if j < i {
            assert(self.entries@[j].url@ != self.entries@[i].url@);
        }
    }

    /// Makes sure that there is a pool for a URL.
    pub fn load_or_init_doh_h3_pool(&mut self, url: &str)
        requires
            old(self).wf(),
        ensures
            final(self).wf(),
            final(self)@.contains_key(url@),
            if old(self)@.contains_key(url@) {
                final(self)@ == old(self)@
            } else {
                final(self)@ == old(self)@.insert(url@, final(self)@[url@]) && final(
                    self)@[url@].connections().len() == 0 && final(self)@[url@].counter() == 0
            },
    {
        match self.position(url) {
            Some(i) => {
                proof {
                    self.lemma_at(url@, i as int);
                }
            },
            None => {
                let ghost before = self.entries@;
                self.entries.push(PoolEntry { url: url.to_owned(), pool: DohH3Pool::new() });
                proof {
                    let last = before.len() as int;
                    assert forall|i: int, j: int|
                        0 <= i < j < self.entries@.len() implies (#[trigger] self.entries@[i]).url@
                        != (#[trigger] self.entries@[j]).url@ by {
                        if j == last {
                            assert(!stands_at(before, url@, i));
                        }
                    }
                    assert(stands_at(self.entries@, url@, last));
                    self.lemma_at(url@, last);
                    assert forall|u: Seq<char>| u != url@ implies #[trigger] self@.dom().contains(u)
                        == old(self)@.dom().contains(u) by {
                        if old(self)@.dom().contains(u) {
                            let j = choose|j: int| #[trigger] stands_at(before, u, j);
                            assert(stands_at(self.entries@, u, j));
                        }
                        if self@.dom().contains(u) {
                            let j = choose|j: int| #[trigger] stands_at(self.entries@, u, j);
                            assert(stands_at(before, u, j));
                        }
                    }
                    assert forall|u: Seq<char>|
                        u != url@ && self@.dom().contains(u) implies #[trigger] self@[u] == old(
                        self)@[u] by {
                        let j = choose|j: int| #[trigger] stands_at(self.entries@, u, j);
                        assert(stands_at(before, u, j));
                        self.lemma_at(u, j);
                        old(self).lemma_at(u, j);
                    }
                    assert(!old(self)@.contains_key(url@));
                    assert(self@ =~= old(self)@.insert(url@, self@[url@]));
                }
            },
        }
    }

    /// Whether there is a connection to the server of a URL.
    pub fn doh_h3_client_cached(&self, url: &str) -> (yes: bool)
        requires
            self.wf(),
        ensures
            yes == (self@.contains_key(url@) && self@[url@].connections().len() > 0),
    {
        match self.position(url) {
            Some(i) => {
                proof {
                    self.lemma_at(url@, i as int);
                }
                self.entries[i].pool.has_clients()
            },
            None => false,
        }
    }

    /// The pool of a URL, to be changed in place.
    pub fn pool_mut(&mut self, url: &str) -> (pool: Option<&mut DohH3Pool<C>>)
        requires
            old(self).wf(),
        ensures
            match pool {
                Some(p) => old(self)@.contains_key(url@) && *p == old(self)@[url@] && final(
                    self).wf() && final(self)@ == old(self)@.insert(url@, *final(p)),
                None => !old(self)@.contains_key(url@) && final(self).wf() && final(self)@ == old(
                    self)@,
            },
    {
        match self.position(url) {
            Some(i) => {
                proof {
                    self.lemma_at(url@, i as int);
                    assert forall|next: DohH3Pools<C>|
                        #![trigger next.wf()]
                        #![trigger next.view()]
                        next.entries@ == self.entries@.update(
                            i as int,
                            PoolEntry {
                                url: self.entries@[i as int].url,
                                pool: next.entries@[i as int].pool,
                            },
                        ) implies next.wf() && next.view() == self@.insert(
                        url@,
                        next.entries@[i as int].pool,
                    ) by {
                        self.lemma_replaced(next, url@, i as int);
                    }
                }
                Some(&mut self.entries[i].pool)
            },
            None => None,
        }
    }

    /// Where only the pool at `i` is another, only the pool of its URL is.
    proof fn lemma_replaced(&self, next: DohH3Pools<C>, url: Seq<char>, i: int)
        requires
            self.wf(),
            stands_at(self.entries@, url, i),
            next.entries@ == self.entries@.update(
                i,
                PoolEntry { url: self.entries@[i].url, pool: next.entries@[i].pool },
            ),
        ensures
            next.wf(),
            next@ == self@.insert(url, next.entries@[i].pool),
    {
        assert forall|a: int, b: int|
            0 <= a < b < next.entries@.len() implies (#[trigger] next.entries@[a]).url@ != (
        #[trigger] next.entries@[b]).url@ by {
            assert(self.entries@[a].url@ != self.entries@[b].url@);
        }
        assert forall|u: Seq<char>, j: int| #[trigger]
            stands_at(next.entries@, u, j) == stands_at(self.entries@, u, j) by {}
        assert(stands_at(next.entries@, url, i));
        next.lemma_at(url, i);
        assert forall|u: Seq<char>| u != url implies #[trigger] next@.dom().contains(u)
            == self@.dom().contains(u) by {
            if self@.dom().contains(u) {
                let j = choose|j: int| #[trigger] stands_at(self.entries@, u, j);
                assert(stands_at(next.entries@, u, j));
            }
        }
        assert forall|u: Seq<char>| u != url && next@.dom().contains(u) implies #[trigger] next@[u]
            == self@[u] by {
            let j = choose|j: int| #[trigger] stands_at(next.entries@, u, j);
            next.lemma_at(u, j);
            self.lemma_at(u, j);
        }
        assert(next@ =~= self@.insert(url, next.entries@[i].pool));
    }

    /// Takes the pool of a URL out; its connections are handed back to be closed.
    pub fn reset_doh_h3_client(&mut self, url: &str) -> (clients: Vec<C>)
        requires
            old(self).wf(),
        ensures
            final(self).wf(),
            final(self)@ == old(self)@.remove(url@),
            clients@ == (if old(self)@.contains_key(url@) {
                old(self)@[url@].connections()
            } else {
                Seq::empty()
            }),
    {
        match self.position(url) {
            Some(i) => {
                let ghost before = self.entries@;
                proof {
                    self.lemma_at(url@, i as int);
                }
                let mut entry = self.entries.remove(i);
                proof {
                    let at = i as int;
                    assert(self.entries@ =~= before.remove(at));
                    assert forall|a: int, b: int|
                        0 <= a < b < self.entries@.len() implies (#[trigger] self.entries@[a]).url@
                        != (#[trigger] self.entries@[b]).url@ by {
                        let x = if a < at {
                            a
                        } else {
                            a + 1
                        };
                        let y = if b < at {
                            b
                        } else {
                            b + 1
                        };
                        assert(before[x].url@ != before[y].url@);
                    }
                    assert forall|u: Seq<char>| u != url@ implies #[trigger] self@.dom().contains(u)
                        == old(self)@.dom().contains(u) by {
                        if old(self)@.dom().contains(u) {
                            let j = choose|j: int| #[trigger] stands_at(before, u, j);
                            assert(stands_at(
                                self.entries@,
                                u,
                                if j < at {
                                    j
                                } else {
                                    j - 1
                                },
                            ));
                        }
                        if self@.dom().contains(u) {
                            let j = choose|j: int| #[trigger] stands_at(self.entries@, u, j);
                            assert(stands_at(
                                before,
                                u,
                                if j < at {
                                    j
                                } else {
                                    j + 1
                                },
                            ));
                        }
                    }
                    assert forall|u: Seq<char>| self@.dom().contains(u) implies #[trigger] self@[u]
                        == old(self)@[u] by {
                        let j = choose|j: int| #[trigger] stands_at(self.entries@, u, j);
                        let k = if j < at {
                            j
                        } else {
                            j + 1
                        };
                        assert(stands_at(before, u, k));
                        self.lemma_at(u, j);
                        old(self).lemma_at(u, k);
                    }
                    assert(!self@.dom().contains(url@)) by {
                        if self@.dom().contains(url@) {
                            let j = choose|j: int| #[trigger] stands_at(self.entries@, url@, j);
                            let k = if j < at {
                                j
                            } else {
                                j + 1
                            };
                            assert(before[k].url@ == url@);
                            assert(before[at].url@ == url@);
                        }
                    }
                    assert(self@ =~= old(self)@.remove(url@));
                }
                entry.pool.drain_clients()
            },
            None => {
                let clients: Vec<C> = Vec::new();
                proof {
                    assert(!self@.contains_key(url@));
                    assert(self@ =~= old(self)@.remove(url@));
                    assert(clients@ =~= Seq::empty());
                }
                clients
            },
        }
    }
}

} // verus!
