//! The certificates that have been issued so far.

use super::ca::CaError;
use vstd::hash_map::StringHashMap;
use vstd::prelude::*;

verus! {

/// The two texts of a pair.
pub open spec fn texts(pair: (String, String)) -> (Seq<char>, Seq<char>) {
    (pair.0@, pair.1@)
}

/// The same pair of texts once more.
fn duplicate(pair: &(String, String)) -> (r: (String, String))
    ensures
        texts(r) == texts(*pair),
{
    (pair.0.clone(), pair.1.clone())
}

/// Remembers for each host the text of its certificate and of the private key,
/// both in PEM form, for as long as the process lasts.
pub struct LeafCache {
    leaves: StringHashMap<(String, String)>,
}

impl View for LeafCache {
    type V = Map<Seq<char>, (Seq<char>, Seq<char>)>;

    closed spec fn view(&self) -> Map<Seq<char>, (Seq<char>, Seq<char>)> {
        self.leaves@.map_values(|leaf: (String, String)| texts(leaf))
    }
}

/// What is remembered once the attempt to issue a certificate for `host` came to
/// `issued`: a certificate, but no failure.
pub open spec fn leaves_after(
    leaves: Map<Seq<char>, (Seq<char>, Seq<char>)>,
    host: Seq<char>,
    issued: Result<(String, String), CaError>,
) -> Map<Seq<char>, (Seq<char>, Seq<char>)> {
    match issued {
        Ok(leaf) => leaves.insert(host, texts(leaf)),
        Err(_) => leaves,
    }
}

impl LeafCache {
    /// A cache that knows no host yet.
    pub fn new() -> (r: Self)
        ensures
            r@ == Map::<Seq<char>, (Seq<char>, Seq<char>)>::empty(),
    {
        let r = LeafCache { leaves: StringHashMap::new() };
        assert(r@ =~= Map::<Seq<char>, (Seq<char>, Seq<char>)>::empty());
        r
    }

    /// The certificate that was issued for `host`.
    pub fn get(&self, host: &str) -> (r: Option<(String, String)>)
        ensures
            match r {
                Some(leaf) => self@.dom().contains(host@) && texts(leaf) == self@[host@],
                None => !self@.dom().contains(host@),
            },
    {
        match self.leaves.get(host) {
            Some(leaf) => Some(duplicate(leaf)),
            None => None,
        }
    }

    /// Takes in what the attempt to issue a certificate for `host` came to, and
    /// hands it on. A certificate is remembered, a failure is not.
    pub fn keep(&mut self, host: &str, issued: Result<(String, String), CaError>) -> (r: Result<
        (String, String),
        CaError,
    >)
        ensures
            final(self)@ == leaves_after(old(self)@, host@, issued),
            r == issued,
    {
        match issued {
            Ok(leaf) => {
                let kept = duplicate(&leaf);
                self.leaves.insert(host.to_owned(), kept);
                assert(self@ =~= old(self)@.insert(host@, texts(leaf)));
                Ok(leaf)
            },
            Err(error) => Err(error),
        }
    }
}

/// A host keeps its certificate whatever is issued for other hosts.
pub proof fn law_leaves_are_independent(
    leaves: Map<Seq<char>, (Seq<char>, Seq<char>)>,
    host: Seq<char>,
    other: Seq<char>,
    issued: Result<(String, String), CaError>,
)
    requires
        host != other,
    ensures
        leaves_after(leaves, other, issued).dom().contains(host) == leaves.dom().contains(host),
        leaves.dom().contains(host) ==> leaves_after(leaves, other, issued)[host] == leaves[host],
{
}

} // verus!
