//! The in-memory mirror of open documents, keyed by URI.

use vstd::prelude::*;
use vstd::string::*;

verus! {

/// The latest text stored under `k` in `s`, if any.
pub open spec fn lookup(s: Seq<(Seq<char>, Seq<char>)>, k: Seq<char>) -> Option<Seq<char>>
    decreases s.len(),
{
    if s.len() == 0 {
        None
    } else if s.last().0 == k {
        Some(s.last().1)
    } else {
        lookup(s.drop_last(), k)
    }
}

/// A map from document URI to current text. At most one entry per URI.
pub struct DocumentCache {
    docs: Vec<(String, String)>,
}

spec fn pairs_of(v: Seq<(String, String)>) -> Seq<(Seq<char>, Seq<char>)> {
    v.map_values(|p: (String, String)| (p.0@, p.1@))
}

proof fn lemma_pairs_push(v: Seq<(String, String)>, p: (String, String))
    ensures
        pairs_of(v.push(p)) == pairs_of(v).push((p.0@, p.1@)),
        pairs_of(v).len() == v.len(),
{
    assert(pairs_of(v.push(p)) =~= pairs_of(v).push((p.0@, p.1@)));
    assert(pairs_of(v.push(p)).drop_last() =~= pairs_of(v));
}

proof fn lemma_lookup_push(s: Seq<(Seq<char>, Seq<char>)>, e: (Seq<char>, Seq<char>))
    ensures
        forall|k: Seq<char>| #[trigger] lookup(s.push(e), k) == if e.0 == k {
            Some(e.1)
        } else {
            lookup(s, k)
        },
{
    assert(s.push(e).drop_last() =~= s);
}

impl View for DocumentCache {
    type V = Map<Seq<char>, Seq<char>>;

    closed spec fn view(&self) -> Map<Seq<char>, Seq<char>> {
        Map::new(
            |k: Seq<char>| lookup(pairs_of(self.docs@), k) is Some,
            |k: Seq<char>| lookup(pairs_of(self.docs@), k).unwrap(),
        )
    }
}

/// Whether two strings have equal contents.
pub(crate) fn same_text(a: &str, b: &str) -> (r: bool)
    ensures
        r == (a@ == b@),
{
    let n = a.unicode_len();
    if n != b.unicode_len() {
        return false;
    }
    let mut i: usize = 0;
    while i < n
        invariant
            n == a@.len(),
            n == b@.len(),
            i <= n,
            forall|j: int| 0 <= j < i ==> a@[j] == b@[j],
        decreases n - i,
    {
        if a.get_char(i) != b.get_char(i) {
            return false;
        }
        i = i + 1;
    }
    assert(a@ =~= b@);
    true
}

impl DocumentCache {
    pub fn new() -> (r: DocumentCache)
        ensures
            r@ == Map::<Seq<char>, Seq<char>>::empty(),
    {
        let r = DocumentCache { docs: Vec::new() };
        assert(r@ =~= Map::<Seq<char>, Seq<char>>::empty());
        r
    }

    /// The text stored under `uri`, if any.
    pub fn get(&self, uri: &str) -> (r: Option<String>)
        ensures
            r is Some <==> self@.contains_key(uri@),
            r matches Some(t) ==> t@ == self@[uri@],
    {
        let ghost s = pairs_of(self.docs@);
        proof {
            assert(s.take(s.len() as int) =~= s);
        }
        let mut i: usize = self.docs.len();
        while i > 0
            invariant
                i <= self.docs@.len(),
                s == pairs_of(self.docs@),
                s.len() == self.docs@.len(),
                lookup(s, uri@) == lookup(s.take(i as int), uri@),
            decreases i,
        {
            let ghost t = s.take(i as int);
            proof {
                assert(t.drop_last() =~= s.take(i - 1));
                assert(t.last() == (self.docs@[i - 1].0@, self.docs@[i - 1].1@));
            }
            if same_text(self.docs[i - 1].0.as_str(), uri) {
                return Some(self.docs[i - 1].1.clone());
            }
            i = i - 1;
        }
        None
    }

    /// Removes the entry of `uri`, if any.
    pub fn remove(&mut self, uri: &str)
        ensures
            final(self)@ == old(self)@.remove(uri@),
    {
        let ghost s = pairs_of(self.docs@);
        let mut kept: Vec<(String, String)> = Vec::new();
        let mut i: usize = 0;
        while i < self.docs.len()
            invariant
                i <= self.docs@.len(),
                s == pairs_of(self.docs@),
                s.len() == self.docs@.len(),
                forall|k: Seq<char>|
                    #[trigger] lookup(pairs_of(kept@), k) == if k == uri@ {
                        None
                    } else {
                        lookup(s.take(i as int), k)
                    },
            decreases self.docs@.len() - i,
        {
            let ghost t = s.take(i as int + 1);
            proof {
                assert(t.drop_last() =~= s.take(i as int));
                assert(t.last() == (self.docs@[i as int].0@, self.docs@[i as int].1@));
            }
            if !same_text(self.docs[i].0.as_str(), uri) {
                let p = (self.docs[i].0.clone(), self.docs[i].1.clone());
                proof {
                    lemma_pairs_push(kept@, p);
                    lemma_lookup_push(pairs_of(kept@), (p.0@, p.1@));
                    lemma_lookup_push(s.take(i as int), t.last());
                    assert(t == s.take(i as int).push(t.last()));
                }
                kept.push(p);
            } else {
                proof {
                    lemma_lookup_push(s.take(i as int), t.last());
                    assert(t == s.take(i as int).push(t.last()));
                }
            }
            i = i + 1;
        }
        proof {
            assert(s.take(s.len() as int) =~= s);
        }
        self.docs = kept;
        assert(self@ =~= old(self)@.remove(uri@));
    }

    /// Stores `text` under `uri`, replacing what was there.
    pub fn insert(&mut self, uri: String, text: String)
        ensures
            final(self)@ == old(self)@.insert(uri@, text@),
    {
        self.remove(uri.as_str());
        let ghost mid = self@;
        let p = (uri, text);
        proof {
            lemma_pairs_push(self.docs@, p);
            lemma_lookup_push(pairs_of(self.docs@), (p.0@, p.1@));
        }
        self.docs.push(p);
        assert(self@ =~= mid.insert(p.0@, p.1@));
    }
}

} // verus!
