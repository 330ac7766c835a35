//! The host registry: an ordered mapping from SSH host name to the list of
//! container names last seen on that host.
//!
//! The registry is modelled as a sequence of `(host, containers)` pairs with
//! pairwise-distinct hosts; order is the order in which hosts were first
//! initialized, and a later initialization of a host replaces its entry
//! wholesale, in place.

use vstd::prelude::*;
use vstd::string::*;

verus! {

/// One stored host together with its ordered container names.
#[derive(Debug)]
pub struct HostEntry {
    pub host: String,
    pub containers: Vec<String>,
}

impl View for HostEntry {
    type V = (Seq<char>, Seq<Seq<char>>);

    open spec fn view(&self) -> (Seq<char>, Seq<Seq<char>>) {
        (self.host@, self.containers@.map_values(|c: String| c@))
    }
}

/// The persisted mapping from host name to container list.
#[derive(Debug)]
pub struct HostRegistry {
    pub entries: Vec<HostEntry>,
}

/// The views of a sequence of stored entries.
pub open spec fn entry_views(entries: Seq<HostEntry>) -> Seq<(Seq<char>, Seq<Seq<char>>)> {
    entries.map_values(|e: HostEntry| e@)
}

impl View for HostRegistry {
    type V = Seq<(Seq<char>, Seq<Seq<char>>)>;

    open spec fn view(&self) -> Seq<(Seq<char>, Seq<Seq<char>>)> {
        entry_views(self.entries@)
    }
}

/// Hosts are pairwise distinct.
pub open spec fn keys_unique(es: Seq<(Seq<char>, Seq<Seq<char>>)>) -> bool {
    forall|i: int, j: int| 0 <= i < j < es.len() ==> es[i].0 != es[j].0
}

/// The index of the first entry for host `h`, or `es.len()` if there is
/// none.
pub open spec fn index_of_host(es: Seq<(Seq<char>, Seq<Seq<char>>)>, h: Seq<char>) -> int
    decreases es.len(),
{
    if es.len() == 0 {
        0
    } else if es[0].0 == h {
        0
    } else {
        1 + index_of_host(es.drop_first(), h)
    }
}

/// Whether some entry carries host `h`.
pub open spec fn has_host(es: Seq<(Seq<char>, Seq<Seq<char>>)>, h: Seq<char>) -> bool {
    index_of_host(es, h) < es.len()
}

/// The registry after initializing host `h` with containers `cs`: the
/// existing entry for `h` is replaced in place, or a new entry is appended.
pub open spec fn set_spec(
    es: Seq<(Seq<char>, Seq<Seq<char>>)>,
    h: Seq<char>,
    cs: Seq<Seq<char>>,
) -> Seq<(Seq<char>, Seq<Seq<char>>)> {
    if has_host(es, h) {
        es.update(index_of_host(es, h), (h, cs))
    } else {
        es.push((h, cs))
    }
}

pub proof fn lemma_index_of_host_bounds(es: Seq<(Seq<char>, Seq<Seq<char>>)>, h: Seq<char>)
    ensures
        0 <= index_of_host(es, h) <= es.len(),
        forall|k: int| 0 <= k < index_of_host(es, h) ==> es[k].0 != h,
        index_of_host(es, h) < es.len() ==> es[index_of_host(es, h)].0 == h,
    decreases es.len(),
{
    if es.len() > 0 && es[0].0 != h {
        lemma_index_of_host_bounds(es.drop_first(), h);
        assert forall|k: int| 0 <= k < index_of_host(es, h) implies es[k].0 != h by {
            if k > 0 {
                assert(es.drop_first()[k - 1] == es[k]);
            }
        }
    }
}

pub proof fn lemma_index_of_host_at(
    es: Seq<(Seq<char>, Seq<Seq<char>>)>,
    h: Seq<char>,
    i: int,
)
    requires
        0 <= i <= es.len(),
        forall|k: int| 0 <= k < i ==> es[k].0 != h,
        i < es.len() ==> es[i].0 == h,
    ensures
        index_of_host(es, h) == i,
    decreases es.len(),
{
    if es.len() > 0 && es[0].0 != h {
        assert(i > 0);
        lemma_index_of_host_at(es.drop_first(), h, i - 1);
    }
}

impl HostRegistry {
    /// All hosts in the registry are distinct.
    pub open spec fn wf(self) -> bool {
        keys_unique(self@)
    }

    /// An empty registry, as loading yields when no file was persisted yet.
    pub fn new() -> (r: Self)
        ensures
            r@ == Seq::<(Seq<char>, Seq<Seq<char>>)>::empty(),
            r.wf(),
    {
        let r = HostRegistry { entries: Vec::new() };
        proof {
            assert(r@ =~= Seq::<(Seq<char>, Seq<Seq<char>>)>::empty());
        }
        r
    }

    /// The number of stored hosts.
    pub fn len(&self) -> (n: usize)
        ensures
            n == self@.len(),
    {
        self.entries.len()
    }

    /// The index of the entry for `host`, or `None` if the host is not
    /// stored.
    fn find(&self, host: &String) -> (r: Option<usize>)
        ensures
            (match r {
                Some(i) => i < self@.len() && index_of_host(self@, host@) == i,
                None => index_of_host(self@, host@) == self@.len(),
            }),
    {
        let n = self.entries.len();
        let mut i: usize = 0;
        while i < n
            invariant
                i <= n,
                n == self@.len(),
                n == self.entries@.len(),
                forall|k: int| 0 <= k < i ==> self@[k].0 != host@,
            decreases n - i,
        {
            if self.entries[i].host.eq(host) {
                proof {
                    assert(self@[i as int] == self.entries@[i as int]@);
                    lemma_index_of_host_at(self@, host@, i as int);
                }
                return Some(i);
            }
            proof {
                assert(self@[i as int] == self.entries@[i as int]@);
            }
            i += 1;
        }
        proof {
            lemma_index_of_host_at(self@, host@, self@.len() as int);
        }
        None
    }

    /// The stored container list for `host`, or `None` if the host was never
    /// initialized.
    pub fn get<'a>(&'a self, host: &String) -> (r: Option<&'a Vec<String>>)
        ensures
            (match r {
                Some(cs) => has_host(self@, host@) && cs@.map_values(|c: String| c@)
                    == self@[index_of_host(self@, host@)].1,
                None => !has_host(self@, host@),
            }),
    {
        match self.find(host) {
            Some(i) => {
                proof {
                    assert(self@[i as int] == self.entries@[i as int]@);
                }
                Some(&self.entries[i].containers)
            },
            None => None,
        }
    }

    /// Replaces the stored container list for `host` wholesale, or appends a
    /// new entry if the host is new.  Nothing is merged: the prior list for
    /// the host, if any, is forgotten.
    pub fn set_containers(&mut self, host: String, containers: Vec<String>)
        requires
            old(self).wf(),
        ensures
            final(self).wf(),
            final(self)@ == set_spec(
                old(self)@,
                host@,
                containers@.map_values(|c: String| c@),
            ),
    {
        let ghost es = self@;
        let ghost h = host@;
        let ghost cs = containers@.map_values(|c: String| c@);
        match self.find(&host) {
            Some(i) => {
                self.entries[i] = HostEntry { host, containers };
                proof {
                    assert(self@ =~= es.update(i as int, (h, cs)));
                    lemma_index_of_host_bounds(es, h);
                    assert forall|a: int, b: int|
                        0 <= a < b < self@.len() implies self@[a].0 != self@[b].0 by {
                        assert(es[a].0 == self@[a].0 || a == i);
                        assert(es[b].0 == self@[b].0 || b == i);
                        assert(es[i as int].0 == h);
                    }
                }
            },
            None => {
                self.entries.push(HostEntry { host, containers });
                proof {
                    assert(self@ =~= es.push((h, cs)));
                    lemma_index_of_host_bounds(es, h);
                    assert forall|a: int, b: int|
                        0 <= a < b < self@.len() implies self@[a].0 != self@[b].0 by {
                        if b < es.len() {
                            assert(self@[a] == es[a] && self@[b] == es[b]);
                        } else {
                            assert(self@[b].0 == h && self@[a] == es[a]);
                        }
                    }
                }
            },
        }
    }
}

/// Law: initializing a host and then initializing it again replaces the
/// first result wholesale; only the second initialization is left.
pub proof fn lemma_init_replaces(
    es: Seq<(Seq<char>, Seq<Seq<char>>)>,
    h: Seq<char>,
    cs1: Seq<Seq<char>>,
    cs2: Seq<Seq<char>>,
)
    ensures
        set_spec(set_spec(es, h, cs1), h, cs2) == set_spec(es, h, cs2),
{
    lemma_index_of_host_bounds(es, h);
    let i = index_of_host(es, h);
    if i < es.len() {
        let es1 = es.update(i, (h, cs1));
        lemma_index_of_host_at(es1, h, i);
        assert(set_spec(es1, h, cs2) =~= es.update(i, (h, cs2)));
    } else {
        let es1 = es.push((h, cs1));
        lemma_index_of_host_at(es1, h, es.len() as int);
        assert(set_spec(es1, h, cs2) =~= es.push((h, cs2)));
    }
}

/// Law: initializing a host twice with the same container list leaves the
/// registry exactly as one initialization does.
pub proof fn lemma_init_idempotent(
    es: Seq<(Seq<char>, Seq<Seq<char>>)>,
    h: Seq<char>,
    cs: Seq<Seq<char>>,
)
    ensures
        set_spec(set_spec(es, h, cs), h, cs) == set_spec(es, h, cs),
{
    lemma_init_replaces(es, h, cs, cs);
}

} // verus!
