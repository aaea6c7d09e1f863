//! The manifest's `sha256` table: file key to hex digest, kept in
//! increasing key order with each key at most once (what a
//! `BTreeMap<String, String>` gives).

use vstd::prelude::*;
use crate::text::{lemma_skip_one, to_chars};

verus! {

/// Lexicographic order on character sequences (the order of `String`'s
/// `Ord`: code points compare as their UTF-8 bytes do).
pub open spec fn key_lt(a: Seq<char>, b: Seq<char>) -> bool
    decreases a.len(),
{
    if b.len() == 0 {
        false
    } else if a.len() == 0 {
        true
    } else if a[0] != b[0] {
        a[0] < b[0]
    } else {
        key_lt(a.skip(1), b.skip(1))
    }
}

/// Adjacent keys strictly increase.
pub open spec fn increasing(s: Seq<(Seq<char>, Seq<char>)>) -> bool {
    forall|i: int| 0 <= i < s.len() - 1 ==> key_lt(#[trigger] s[i].0, s[i + 1].0)
}

/// The digest stored under `k`: the first entry with that key.
pub open spec fn lookup(s: Seq<(Seq<char>, Seq<char>)>, k: Seq<char>) -> Option<Seq<char>>
    decreases s.len(),
{
    if s.len() == 0 {
        None
    } else if s[0].0 == k {
        Some(s[0].1)
    } else {
        lookup(s.skip(1), k)
    }
}

/// No sequence is below itself.
pub proof fn lemma_key_lt_irreflexive(a: Seq<char>)
    ensures
        !key_lt(a, a),
    decreases a.len(),
{
    if a.len() > 0 {
        lemma_key_lt_irreflexive(a.skip(1));
    }
}

/// Any two distinct sequences are ordered one way or the other.
pub proof fn lemma_key_lt_total(a: Seq<char>, b: Seq<char>)
    ensures
        a == b || key_lt(a, b) || key_lt(b, a),
    decreases a.len(),
{
    if a.len() == 0 {
        if b.len() == 0 {
            assert(a =~= b);
        }
    } else if b.len() > 0 && a[0] == b[0] {
        lemma_key_lt_total(a.skip(1), b.skip(1));
        if a.skip(1) == b.skip(1) {
            assert(a.skip(1).len() == b.skip(1).len());
            assert(a.len() == b.len());
            assert forall|i: int| 0 <= i < a.len() implies a[i] == b[i] by {
                if i > 0 {
                    assert(a[i] == a.skip(1)[i - 1]);
                    assert(b[i] == b.skip(1)[i - 1]);
                }
            }
            assert(a =~= b);
        }
    }
}

/// The order is transitive.
pub proof fn lemma_key_lt_transitive(a: Seq<char>, b: Seq<char>, c: Seq<char>)
    requires
        key_lt(a, b),
        key_lt(b, c),
    ensures
        key_lt(a, c),
    decreases a.len(),
{
    if a.len() > 0 && b.len() > 0 && c.len() > 0 && a[0] == b[0] && b[0] == c[0] {
        lemma_key_lt_transitive(a.skip(1), b.skip(1), c.skip(1));
    }
}

/// Looking up in a concatenation looks in the first part, then the second.
pub proof fn lemma_lookup_concat(
    a: Seq<(Seq<char>, Seq<char>)>,
    b: Seq<(Seq<char>, Seq<char>)>,
    k: Seq<char>,
)
    ensures
        lookup(a + b, k) == (if lookup(a, k) is Some {
            lookup(a, k)
        } else {
            lookup(b, k)
        }),
    decreases a.len(),
{
    if a.len() == 0 {
        assert(a + b =~= b);
    } else {
        assert((a + b).skip(1) =~= a.skip(1) + b);
        lemma_lookup_concat(a.skip(1), b, k);
    }
}

/// Looking up in a one-entry table.
pub proof fn lemma_lookup_single(x: (Seq<char>, Seq<char>), k: Seq<char>)
    ensures
        lookup(seq![x], k) == (if x.0 == k {
            Some(x.1)
        } else {
            None::<Seq<char>>
        }),
{
    assert(seq![x].skip(1) =~= Seq::<(Seq<char>, Seq<char>)>::empty());
    assert(lookup(Seq::<(Seq<char>, Seq<char>)>::empty(), k) is None);
}

/// A prefix whose keys all lie below `k` holds no entry for `k`.
pub proof fn lemma_lookup_below(s: Seq<(Seq<char>, Seq<char>)>, k: Seq<char>)
    requires
        forall|j: int| 0 <= j < s.len() ==> key_lt(#[trigger] s[j].0, k),
    ensures
        lookup(s, k) is None,
    decreases s.len(),
{
    if s.len() > 0 {
        lemma_key_lt_irreflexive(k);
        assert(key_lt(s[0].0, k));
        lemma_lookup_below(s.skip(1), k);
    }
}

/// Is `a` below `b` in `key_lt` order?
pub fn chars_lt(a: &[char], b: &[char]) -> (r: bool)
    ensures
        r == key_lt(a@, b@),
{
    let mut i: usize = 0;
    proof {
        assert(a@.skip(0) =~= a@);
        assert(b@.skip(0) =~= b@);
    }
    while i < a.len() && i < b.len()
        invariant
            i <= a@.len(),
            i <= b@.len(),
            key_lt(a@, b@) == key_lt(a@.skip(i as int), b@.skip(i as int)),
        decreases a@.len() - i,
    {
        proof {
            lemma_skip_one(a@, i as int);
            lemma_skip_one(b@, i as int);
        }
        if a[i] != b[i] {
            return a[i] < b[i];
        }
        i = i + 1;
    }
    i == a.len() && i < b.len()
}

/// File key to sha256 digest, in increasing key order.
pub struct Sha256Map {
    entries: Vec<(String, String)>,
}

impl View for Sha256Map {
    type V = Seq<(Seq<char>, Seq<char>)>;

    closed spec fn view(&self) -> Seq<(Seq<char>, Seq<char>)> {
        self.entries@.map_values(|e: (String, String)| (e.0@, e.1@))
    }
}

impl Sha256Map {
    #[verifier::type_invariant]
    spec fn keys_increase(&self) -> bool {
        increasing(self@)
    }

    /// An empty table.
    pub fn new() -> (r: Self)
        ensures
            r@ == Seq::<(Seq<char>, Seq<char>)>::empty(),
    {
        let r = Sha256Map { entries: Vec::new() };
        proof {
            assert(r@ =~= Seq::<(Seq<char>, Seq<char>)>::empty());
        }
        r
    }

    /// Number of entries.
    pub fn len(&self) -> (r: usize)
        ensures
            r == self@.len(),
    {
        self.entries.len()
    }

    /// The `i`-th entry in key order.
    pub fn entry(&self, i: usize) -> (r: (&String, &String))
        requires
            i < self@.len(),
        ensures
            r.0@ == self@[i as int].0,
            r.1@ == self@[i as int].1,
    {
        let e = &self.entries[i];
        (&e.0, &e.1)
    }

    /// The digest stored under `key`.
    pub fn get(&self, key: &str) -> (r: Option<&String>)
        ensures
            match r {
                Some(v) => lookup(self@, key@) == Some(v@),
                None => lookup(self@, key@) is None,
            },
    {
        let kc = to_chars(key);
        let mut i: usize = 0;
        proof {
            assert(self@.skip(0) =~= self@);
        }
        while i < self.entries.len()
            invariant
                kc@ == key@,
                i <= self@.len(),
                self@.len() == self.entries@.len(),
                lookup(self@, key@) == lookup(self@.skip(i as int), key@),
            decreases self@.len() - i,
        {
            let ec = to_chars(self.entries[i].0.as_str());
            proof {
                assert(self@.skip(i as int)[0] == self@[i as int]);
                assert(self@.skip(i as int).skip(1) =~= self@.skip(i + 1));
            }
            if ec.len() == kc.len() && !chars_lt(&ec, &kc) && !chars_lt(&kc, &ec) {
                proof {
                    lemma_key_lt_total(ec@, kc@);
                }
                return Some(&self.entries[i].1);
            }
            proof {
                if ec@ == kc@ {
                    lemma_key_lt_irreflexive(kc@);
                }
            }
            i = i + 1;
        }
        None
    }

    /// Set the digest for `key`, replacing any earlier one; the table stays
    /// in key order.
    pub fn insert(&mut self, key: String, value: String)
        ensures
            increasing(final(self)@),
            lookup(final(self)@, key@) == Some(value@),
            forall|k: Seq<char>| k != key@ ==> lookup(final(self)@, k) == lookup(old(self)@, k),
    {
        proof {
            use_type_invariant(&*self);
        }
        let ghost old_view = self@;
        let mut es: Vec<(String, String)> = Vec::new();
        std::mem::swap(&mut es, &mut self.entries);
        let ghost ev = es@.map_values(|e: (String, String)| (e.0@, e.1@));
        proof {
            assert(ev == old_view);
        }
        let kc = to_chars(key.as_str());
        let mut i: usize = 0;
        let mut done = false;
        while !done && i < es.len()
            invariant
                kc@ == key@,
                ev == es@.map_values(|e: (String, String)| (e.0@, e.1@)),
                increasing(ev),
                i <= ev.len(),
                done ==> i < ev.len() && !key_lt(ev[i as int].0, key@),
                forall|j: int| 0 <= j < i ==> key_lt(#[trigger] ev[j].0, key@),
            decreases ev.len() - i + (if done { 0int } else { 1int }),
        {
            let ec = to_chars(es[i].0.as_str());
            if chars_lt(&ec, &kc) {
                i = i + 1;
            } else {
                done = true;
            }
        }
        let mut equal = false;
        if done {
            let ec = to_chars(es[i].0.as_str());
            equal = !chars_lt(&kc, &ec);
            proof {
                lemma_key_lt_total(ec@, kc@);
                if !equal {
                    lemma_key_lt_irreflexive(key@);
                }
            }
        }
        let ghost before = ev.take(i as int);
        proof {
            lemma_lookup_below(before, key@);
            lemma_key_lt_irreflexive(key@);
            assert(ev =~= before + ev.skip(i as int));
        }
        if equal {
            proof {
                assert(i < ev.len());
                assert(ev[i as int].0 == key@) by {
                    lemma_key_lt_total(ev[i as int].0, key@);
                }
            }
            es.set(i, (key, value));
            let ghost nv = es@.map_values(|e: (String, String)| (e.0@, e.1@));
            proof {
                let after = ev.skip(i + 1);
                assert(nv =~= before + (seq![(key@, value@)] + after));
                assert(ev =~= before + (seq![ev[i as int]] + after));
                lemma_lookup_concat(before, seq![(key@, value@)] + after, key@);
                lemma_lookup_concat(seq![(key@, value@)], after, key@);
                lemma_lookup_single((key@, value@), key@);
                assert forall|k: Seq<char>| k != key@ implies lookup(nv, k) == lookup(ev, k) by {
                    lemma_lookup_concat(before, seq![(key@, value@)] + after, k);
                    lemma_lookup_concat(seq![(key@, value@)], after, k);
                    lemma_lookup_concat(before, seq![ev[i as int]] + after, k);
                    lemma_lookup_concat(seq![ev[i as int]], after, k);
                    lemma_lookup_single((key@, value@), k);
                    lemma_lookup_single(ev[i as int], k);
                }
                assert forall|j: int| 0 <= j < nv.len() - 1 implies key_lt(
                    #[trigger] nv[j].0,
                    nv[j + 1].0,
                ) by {
                    assert(nv[j].0 == ev[j].0);
                    assert(nv[j + 1].0 == ev[j + 1].0);
                }
            }
        } else {
            es.insert(i, (key, value));
            let ghost nv = es@.map_values(|e: (String, String)| (e.0@, e.1@));
            proof {
                let after = ev.skip(i as int);
                assert(nv =~= before + (seq![(key@, value@)] + after));
                lemma_lookup_concat(before, seq![(key@, value@)] + after, key@);
                lemma_lookup_concat(seq![(key@, value@)], after, key@);
                lemma_lookup_single((key@, value@), key@);
                assert forall|k: Seq<char>| k != key@ implies lookup(nv, k) == lookup(ev, k) by {
                    lemma_lookup_concat(before, seq![(key@, value@)] + after, k);
                    lemma_lookup_concat(seq![(key@, value@)], after, k);
                    lemma_lookup_concat(before, after, k);
                    lemma_lookup_single((key@, value@), k);
                }
                if i < ev.len() {
                    lemma_key_lt_total(ev[i as int].0, key@);
                }
                assert forall|j: int| 0 <= j < nv.len() - 1 implies key_lt(
                    #[trigger] nv[j].0,
                    nv[j + 1].0,
                ) by {
                    if j < i - 1 {
                        assert(nv[j].0 == ev[j].0);
                        assert(nv[j + 1].0 == ev[j + 1].0);
                    } else if j == i - 1 {
                        assert(nv[j].0 == ev[j].0);
                        assert(nv[j + 1].0 == key@);
                    } else if j == i {
                        assert(nv[j].0 == key@);
                        assert(nv[j + 1].0 == ev[i as int].0);
                    } else {
                        assert(nv[j].0 == ev[j - 1].0);
                        assert(nv[j + 1].0 == ev[j].0);
                    }
                }
            }
        }
        self.entries = es;
    }
}

} // verus!
