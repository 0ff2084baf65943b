use vstd::prelude::*;

verus! {

/// A way to reach a target.
#[derive(Debug, Clone, Copy, PartialEq, Eq, Structural)]
pub enum Route {
    Direct,
    Gost,
}

/// One remembered route.
#[derive(Debug)]
struct RouteEntry {
    host: String,
    port: u16,
    route: Route,
}

impl RouteEntry {
    /// What the entry is remembered under.
    spec fn key(&self) -> (Seq<char>, u16) {
        (self.host@, self.port)
    }
}

/// Remembers by which route each `host:port` was last reached, so that a host
/// known to speak GOST only is not probed with plain TLS on every request.
///
/// It lasts as long as the process and forgets nothing; failures are not
/// recorded.
#[derive(Debug)]
pub struct RouteCache {
    entries: Vec<RouteEntry>,
}

/// No two entries are remembered under the same key.
spec fn distinct(entries: Seq<RouteEntry>) -> bool {
    forall|i: int, j: int|
        0 <= i < j < entries.len() ==> (#[trigger] entries[i]).key() != (
        #[trigger] entries[j]).key()
}

/// Whether some entry is remembered under `key`.
spec fn holds(entries: Seq<RouteEntry>, key: (Seq<char>, u16)) -> bool {
    exists|i: int| 0 <= i < entries.len() && (#[trigger] entries[i]).key() == key
}

/// The route remembered under `key`.
spec fn route_at(entries: Seq<RouteEntry>, key: (Seq<char>, u16)) -> Route {
    let i = choose|i: int| 0 <= i < entries.len() && (#[trigger] entries[i]).key() == key;
    entries[i].route
}

/// The routes that some entries remember.
spec fn routes_of(entries: Seq<RouteEntry>) -> Map<(Seq<char>, u16), Route> {
    Map::new(
        |key: (Seq<char>, u16)| holds(entries, key),
        |key: (Seq<char>, u16)| route_at(entries, key),
    )
}

/// The entry with a given key is the one that decides its route.
proof fn lemma_route_at(entries: Seq<RouteEntry>, i: int)
    requires
        distinct(entries),
        0 <= i < entries.len(),
    ensures
        holds(entries, entries[i].key()),
        route_at(entries, entries[i].key()) == entries[i].route,
{
    let key = entries[i].key();
    assert(holds(entries, key));
    let k = choose|k: int| 0 <= k < entries.len() && (#[trigger] entries[k]).key() == key;
    if k < i {
        assert(entries[k].key() != entries[i].key());
    } else if i < k {
        assert(entries[i].key() != entries[k].key());
    }
}

impl View for RouteCache {
    type V = Map<(Seq<char>, u16), Route>;

    closed spec fn view(&self) -> Map<(Seq<char>, u16), Route> {
        routes_of(self.entries@)
    }
}

impl RouteCache {
    #[verifier::type_invariant]
    spec fn well_formed(self) -> bool {
        distinct(self.entries@)
    }

    /// A cache that knows no host yet.
    pub fn new() -> (r: Self)
        ensures
            r@ == Map::<(Seq<char>, u16), Route>::empty(),
    {
        let r = RouteCache { entries: Vec::new() };
        assert(r@ == Map::<(Seq<char>, u16), Route>::empty());
        r
    }

    /// The remembered route to `host:port`.
    pub fn get(&self, host: &str, port: u16) -> (r: Option<Route>)
        ensures
            r == if self@.dom().contains((host@, port)) {
                Some(self@[(host@, port)])
            } else {
                None
            },
    {
        proof {
            use_type_invariant(self);
        }
        match find(&self.entries, host, port) {
            Some(i) => {
                proof {
                    lemma_route_at(self.entries@, i as int);
                }
                Some(self.entries[i].route)
            },
            None => None,
        }
    }

    /// Remembers that `host:port` was reached by `route`.
    pub fn set(&mut self, host: &str, port: u16, route: Route)
        ensures
            final(self)@ == old(self)@.insert((host@, port), route),
    {
        proof {
            use_type_invariant(&*self);
        }
        let mut entries: Vec<RouteEntry> = Vec::new();
        std::mem::swap(&mut entries, &mut self.entries);
        let ghost before = entries@;
        let ghost key = (host@, port);
        let entry = RouteEntry { host: host.to_owned(), port, route };
        let ghost new = entry;
        match find(&entries, host, port) {
            Some(i) => {
                entries[i] = entry;
                assert(entries@ == before.update(i as int, new));
                assert forall|k: int| 0 <= k < before.len() implies #[trigger] entries@[k].key()
                    == before[k].key() by {}
                assert(distinct(entries@)) by {
                    assert forall|a: int, b: int| 0 <= a < b < entries@.len() implies (
                    #[trigger] entries@[a]).key() != (#[trigger] entries@[b]).key() by {
                        assert(before[a].key() != before[b].key());
                    }
                }
                proof {
                    lemma_updated(before, entries@, i as int, key, route);
                }
            },
            None => {
                entries.push(entry);
                assert(entries@ == before.push(new));
                assert(distinct(entries@)) by {
                    assert forall|a: int, b: int| 0 <= a < b < entries@.len() implies (
                    #[trigger] entries@[a]).key() != (#[trigger] entries@[b]).key() by {
                        assert(entries@[a] == before[a]);
                        if b < before.len() {
                            assert(entries@[b] == before[b]);
                            assert(before[a].key() != before[b].key());
                        } else {
                            assert(before[a].key() != key);
                        }
                    }
                }
                proof {
                    lemma_updated(before, entries@, before.len() as int, key, route);
                }
            },
        }
        self.entries = entries;
    }
}

impl Default for RouteCache {
    fn default() -> (r: Self)
        ensures
            r@ == Map::<(Seq<char>, u16), Route>::empty(),
    {
        RouteCache::new()
    }
}

/// The index of the entry for `host:port`.
fn find(entries: &Vec<RouteEntry>, host: &str, port: u16) -> (r: Option<usize>)
    ensures
        match r {
            Some(i) => i < entries@.len() && entries@[i as int].key() == (host@, port),
            None => forall|i: int|
                0 <= i < entries@.len() ==> (#[trigger] entries@[i]).key() != (host@, port),
        },
{
    let wanted: String = host.to_owned();
    let mut i: usize = 0;
    while i < entries.len()
        invariant
            i <= entries.len(),
            wanted@ == host@,
            forall|k: int| 0 <= k < i ==> (#[trigger] entries@[k]).key() != (host@, port),
        decreases entries.len() - i,
    {
        if entries[i].port == port && entries[i].host == wanted {
            return Some(i);
        }
        i += 1;
    }
    None
}

/// Writing one entry for `key` changes what is remembered under `key` and
/// nothing else.
proof fn lemma_updated(
    before: Seq<RouteEntry>,
    after: Seq<RouteEntry>,
    at: int,
    key: (Seq<char>, u16),
    route: Route,
)
    requires
        distinct(before),
        distinct(after),
        0 <= at < after.len(),
        before.len() <= after.len() <= before.len() + 1,
        after.len() > before.len() ==> at == before.len(),
        after[at].key() == key,
        after[at].route == route,
        at < before.len() ==> before[at].key() == key,
        forall|k: int| 0 <= k < before.len() && k != at ==> after[k] == before[k],
    ensures
        routes_of(after) == routes_of(before).insert(key, route),
{
    lemma_route_at(after, at);
    let written = routes_of(before).insert(key, route);
    assert forall|k: (Seq<char>, u16)| #[trigger] routes_of(after).dom().contains(k)
        == written.dom().contains(k) && (written.dom().contains(k) ==> routes_of(after)[k]
        == written[k]) by {
        if k != key {
            if holds(before, k) {
                let i = choose|i: int| 0 <= i < before.len() && (#[trigger] before[i]).key() == k;
                assert(after[i] == before[i]);
                lemma_route_at(before, i);
                lemma_route_at(after, i);
            }
            if holds(after, k) {
                let i = choose|i: int| 0 <= i < after.len() && (#[trigger] after[i]).key() == k;
                assert(after[i] == before[i]);
                lemma_route_at(before, i);
            }
        }
    }
    assert(routes_of(after) =~= written);
}

} // verus!
