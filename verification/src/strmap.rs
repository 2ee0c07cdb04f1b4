//! A map from strings to strings, stored as a vector of pairs kept strictly
//! sorted by key. It stands in for an ordered map: request and response
//! header tables, captured URL variables and decoded form fields all use it.
//! Inserting an existing key overwrites its value (last write wins), and
//! iteration order is ascending by key, so serialization is deterministic.

use vstd::prelude::*;

verus! {

use vstd::string::StrSliceExecFns;
use vstd::utf8::char_u32_cast;
use crate::strutil::str_eq;

/// Strict lexicographic order on character sequences, comparing Unicode
/// scalar values position by position.
pub open spec fn lex_lt(a: Seq<char>, b: Seq<char>) -> bool
    decreases a.len(),
{
    if b.len() == 0 {
        false
    } else if a.len() == 0 {
        true
    } else if (a[0] as u32) < (b[0] as u32) {
        true
    } else if a[0] == b[0] {
        lex_lt(a.drop_first(), b.drop_first())
    } else {
        false
    }
}

pub proof fn lemma_lex_lt_irrefl(a: Seq<char>)
    ensures
        !lex_lt(a, a),
    decreases a.len(),
{
    if a.len() > 0 {
        lemma_lex_lt_irrefl(a.drop_first());
    }
}

pub proof fn lemma_lex_lt_trans(a: Seq<char>, b: Seq<char>, c: Seq<char>)
    requires
        lex_lt(a, b),
        lex_lt(b, c),
    ensures
        lex_lt(a, c),
    decreases a.len(),
{
    if a.len() > 0 && b.len() > 0 && c.len() > 0 && a[0] == b[0] && b[0] == c[0] {
        lemma_lex_lt_trans(a.drop_first(), b.drop_first(), c.drop_first());
    }
}

pub proof fn lemma_lex_lt_connected(a: Seq<char>, b: Seq<char>)
    ensures
        a == b || lex_lt(a, b) || lex_lt(b, a),
    decreases a.len(),
{
    if a.len() == 0 && b.len() == 0 {
        assert(a =~= b);
    } else if a.len() > 0 && b.len() > 0 {
        if a[0] as u32 == b[0] as u32 {
            char_u32_cast(a[0], a[0] as u32);
            char_u32_cast(b[0], b[0] as u32);
            assert(a[0] == b[0]);
            lemma_lex_lt_connected(a.drop_first(), b.drop_first());
            if a.drop_first() == b.drop_first() {
                assert(a.drop_first() == b.drop_first());
                assert(a.drop_first().len() == a.len() - 1);
                assert(b.drop_first().len() == b.len() - 1);
                assert(a.len() == b.len());
                assert forall|i: int| 0 <= i < a.len() implies a[i] == b[i] by {
                    if i > 0 {
                        assert(a[i] == a.drop_first()[i - 1]);
                        assert(b[i] == b.drop_first()[i - 1]);
                    }
                }
                assert(a =~= b);
            }
        }
    }
}

/// Chars of `a` precede those of `b` in lexicographic order.
pub fn lex_lt_str(a: &str, b: &str) -> (r: bool)
    ensures
        r == lex_lt(a@, b@),
{
    let an = a.unicode_len();
    let bn = b.unicode_len();
    let mut i: usize = 0;
    proof {
        assert(a@.skip(0) =~= a@);
        assert(b@.skip(0) =~= b@);
    }
    while i < an && i < bn
        invariant
            0 <= i <= an,
            i <= bn,
            an == a@.len(),
            bn == b@.len(),
            lex_lt(a@, b@) == lex_lt(a@.skip(i as int), b@.skip(i as int)),
        decreases an - i,
    {
        let ca = a.get_char(i);
        let cb = b.get_char(i);
        if (ca as u32) < (cb as u32) {
            return true;
        } else if (ca as u32) > (cb as u32) {
            return false;
        }
        proof {
            char_u32_cast(ca, ca as u32);
            char_u32_cast(cb, cb as u32);
            assert(a@.skip(i as int).drop_first() =~= a@.skip(i + 1));
            assert(b@.skip(i as int).drop_first() =~= b@.skip(i + 1));
        }
        i += 1;
    }
    an < bn
}

/// Keys strictly ascending.
pub open spec fn sorted_keys(s: Seq<(Seq<char>, Seq<char>)>) -> bool {
    forall|i: int, j: int|
        0 <= i < j < s.len() ==> #[trigger] lex_lt(s[i].0, s[j].0)
}

/// No key occurs twice.
pub open spec fn unique_keys(s: Seq<(Seq<char>, Seq<char>)>) -> bool {
    forall|i: int, j: int|
        #![trigger s[i].0, s[j].0]
        0 <= i < j < s.len() ==> s[i].0 != s[j].0
}

pub proof fn lemma_sorted_unique(s: Seq<(Seq<char>, Seq<char>)>)
    requires
        sorted_keys(s),
    ensures
        unique_keys(s),
{
    assert forall|i: int, j: int|
        #![trigger s[i].0, s[j].0]
        0 <= i < j < s.len() implies s[i].0 != s[j].0 by {
        if s[i].0 == s[j].0 {
            assert(lex_lt(s[i].0, s[j].0));
            lemma_lex_lt_irrefl(s[i].0);
        }
    }
}

/// The map that a pair list denotes: later pairs overwrite earlier ones.
pub open spec fn pairs_to_map(s: Seq<(Seq<char>, Seq<char>)>) -> Map<Seq<char>, Seq<char>>
    decreases s.len(),
{
    if s.len() == 0 {
        Map::empty()
    } else {
        pairs_to_map(s.drop_last()).insert(s.last().0, s.last().1)
    }
}

pub proof fn lemma_pairs_to_map_char(s: Seq<(Seq<char>, Seq<char>)>)
    requires
        unique_keys(s),
    ensures
        forall|k: Seq<char>|
            #[trigger] pairs_to_map(s).contains_key(k) ==> exists|i: int|
                0 <= i < s.len() && s[i].0 == k,
        forall|i: int|
            0 <= i < s.len() ==> pairs_to_map(s).contains_key(#[trigger] s[i].0)
                && pairs_to_map(s)[s[i].0] == s[i].1,
    decreases s.len(),
{
    if s.len() > 0 {
        let dl = s.drop_last();
        assert(unique_keys(dl)) by {
            assert(forall|i: int| 0 <= i < dl.len() ==> dl[i] == s[i]);
        };
        lemma_pairs_to_map_char(dl);
        assert forall|k: Seq<char>|
            #[trigger] pairs_to_map(s).contains_key(k) implies exists|i: int|
            0 <= i < s.len() && s[i].0 == k by {
            if k == s.last().0 {
                assert(s[s.len() - 1].0 == k);
            } else {
                assert(pairs_to_map(dl).contains_key(k));
                let i = choose|i: int| 0 <= i < dl.len() && dl[i].0 == k;
                assert(s[i].0 == k);
            }
        }
        assert forall|i: int|
            0 <= i < s.len() implies pairs_to_map(s).contains_key(#[trigger] s[i].0)
            && pairs_to_map(s)[s[i].0] == s[i].1 by {
            if i == s.len() - 1 {
                assert(pairs_to_map(s)[s.last().0] == s.last().1);
            } else {
                assert(dl[i] == s[i]);
                assert(pairs_to_map(dl)[s[i].0] == s[i].1);
                assert(s[i].0 != s[s.len() - 1].0);
            }
        }
    }
}

/// A string-to-string map with strictly ascending keys.
#[derive(Debug)]
pub struct StringMap {
    entries: Vec<(String, String)>,
}

impl View for StringMap {
    type V = Map<Seq<char>, Seq<char>>;

    open spec fn view(&self) -> Map<Seq<char>, Seq<char>> {
        pairs_to_map(self.pairs())
    }
}

impl StringMap {
    /// The key/value pairs as character sequences, in storage order.
    pub closed spec fn pairs(self) -> Seq<(Seq<char>, Seq<char>)> {
        Seq::new(self.entries@.len(), |i: int| (self.entries@[i].0@, self.entries@[i].1@))
    }

    /// Keys strictly ascending, hence unique.
    pub open spec fn wf(self) -> bool {
        sorted_keys(self.pairs())
    }

    pub proof fn lemma_view_char(self)
        requires
            self.wf(),
        ensures
            forall|k: Seq<char>|
                #[trigger] self@.contains_key(k) ==> exists|i: int|
                    0 <= i < self.pairs().len() && self.pairs()[i].0 == k,
            forall|i: int|
                0 <= i < self.pairs().len() ==> self@.contains_key(#[trigger] self.pairs()[i].0)
                    && self@[self.pairs()[i].0] == self.pairs()[i].1,
    {
        lemma_sorted_unique(self.pairs());
        lemma_pairs_to_map_char(self.pairs());
    }

    pub fn new() -> (r: StringMap)
        ensures
            r.wf(),
            r@ == Map::<Seq<char>, Seq<char>>::empty(),
            r.pairs().len() == 0,
    {
        let r = StringMap { entries: Vec::new() };
        proof {
            assert(r.pairs() =~= Seq::<(Seq<char>, Seq<char>)>::empty());
        }
        r
    }

    pub fn len(&self) -> (r: usize)
        ensures
            r == self.pairs().len(),
    {
        self.entries.len()
    }

    pub fn key_at(&self, i: usize) -> (r: &String)
        requires
            i < self.pairs().len(),
        ensures
            r@ == self.pairs()[i as int].0,
    {
        &self.entries[i].0
    }

    pub fn val_at(&self, i: usize) -> (r: &String)
        requires
            i < self.pairs().len(),
        ensures
            r@ == self.pairs()[i as int].1,
    {
        &self.entries[i].1
    }

    pub fn get(&self, key: &str) -> (r: Option<&String>)
        requires
            self.wf(),
        ensures
            match r {
                Some(v) => self@.contains_key(key@) && v@ == self@[key@],
                None => !self@.contains_key(key@),
            },
    {
        proof {
            self.lemma_view_char();
        }
        let n = self.entries.len();
        let mut i: usize = 0;
        while i < n
            invariant
                0 <= i <= n,
                n == self.pairs().len(),
                self.wf(),
                forall|j: int| 0 <= j < i ==> self.pairs()[j].0 != key@,
                forall|k: Seq<char>|
                    #[trigger] self@.contains_key(k) ==> exists|q: int|
                        0 <= q < self.pairs().len() && self.pairs()[q].0 == k,
                forall|j: int|
                    0 <= j < self.pairs().len() ==> self@.contains_key(
                        #[trigger] self.pairs()[j].0,
                    ) && self@[self.pairs()[j].0] == self.pairs()[j].1,
            decreases n - i,
        {
            if str_eq(self.entries[i].0.as_str(), key) {
                assert(self.pairs()[i as int].0 == key@);
                return Some(&self.entries[i].1);
            }
            i += 1;
        }
        None
    }

    /// First position whose key is not below `key`; keys before it are below.
    fn find_slot(&self, key: &str) -> (p: usize)
        ensures
            p <= self.pairs().len(),
            forall|j: int| 0 <= j < p ==> lex_lt(#[trigger] self.pairs()[j].0, key@),
            p < self.pairs().len() ==> !lex_lt(self.pairs()[p as int].0, key@),
    {
        let n = self.entries.len();
        let mut p: usize = 0;
        while p < n
            invariant
                0 <= p <= n,
                n == self.pairs().len(),
                forall|j: int| 0 <= j < p ==> lex_lt(#[trigger] self.pairs()[j].0, key@),
            decreases n - p,
        {
            if !lex_lt_str(self.entries[p].0.as_str(), key) {
                return p;
            }
            p += 1;
        }
        p
    }

    pub fn insert(&mut self, key: String, value: String)
        requires
            old(self).wf(),
        ensures
            final(self).wf(),
            final(self)@ == old(self)@.insert(key@, value@),
    {
        let ghost s = old(self).pairs();
        let p = self.find_slot(key.as_str());
        let ghost kq = key@;
        let ghost vq = value@;
        if p < self.entries.len() && str_eq(self.entries[p].0.as_str(), key.as_str()) {
            self.entries.remove(p);
            self.entries.insert(p, (key, value));
            proof {
                let t = self.pairs();
                assert(t =~= s.update(p as int, (kq, vq)));
                assert(forall|i: int| 0 <= i < t.len() ==> t[i].0 == s[i].0);
                assert(sorted_keys(t)) by {
                    assert forall|i: int, j: int|
                        0 <= i < j < t.len() implies #[trigger] lex_lt(t[i].0, t[j].0) by {
                        assert(lex_lt(s[i].0, s[j].0));
                    }
                };
                lemma_sorted_unique(s);
                lemma_sorted_unique(t);
                lemma_pairs_to_map_char(s);
                lemma_pairs_to_map_char(t);
                assert(pairs_to_map(t) =~= pairs_to_map(s).insert(kq, vq)) by {
                    assert forall|k: Seq<char>|
                        pairs_to_map(t).contains_key(k) == pairs_to_map(s).insert(
                            kq,
                            vq,
                        ).contains_key(k) by {
                        if pairs_to_map(t).contains_key(k) {
                            let i = choose|i: int| 0 <= i < t.len() && t[i].0 == k;
                            if i == p {
                                assert(pairs_to_map(s).insert(kq, vq).contains_key(k));
                            } else {
                                assert(s[i].0 == k);
                            }
                        }
                        if pairs_to_map(s).insert(kq, vq).contains_key(k) {
                            if k == kq {
                                assert(t[p as int].0 == k);
                            } else {
                                let i = choose|i: int| 0 <= i < s.len() && s[i].0 == k;
                                assert(t[i].0 == k);
                            }
                        }
                    }
                    assert forall|k: Seq<char>|
                        pairs_to_map(t).contains_key(k) implies pairs_to_map(t)[k]
                        == pairs_to_map(s).insert(kq, vq)[k] by {
                        let i = choose|i: int| 0 <= i < t.len() && t[i].0 == k;
                        assert(pairs_to_map(t)[k] == t[i].1);
                        if i == p {
                            assert(t[i].1 == vq && k == kq);
                        } else {
                            assert(s[i] == t[i]);
                            assert(s[i].0 == k && k != kq);
                            assert(pairs_to_map(s)[k] == s[i].1);
                        }
                    }
                };
            }
        } else {
            let ghost keep_p = p as int;
            self.entries.insert(p, (key, value));
            proof {
                let t = self.pairs();
                assert(t =~= s.insert(keep_p, (kq, vq))) by {
                    assert(self.entries@ == old(self).entries@.insert(keep_p, (key, value)));
                    assert(forall|i: int| 0 <= i < keep_p ==> t[i] == s[i]);
                    assert(t[keep_p] == (kq, vq));
                    assert(forall|i: int| keep_p < i < t.len() ==> t[i] == s[i - 1]);
                    assert(forall|i: int| 0 <= i < keep_p ==> s.insert(keep_p, (kq, vq))[i] == s[i]);
                    assert(forall|i: int|
                        keep_p < i < t.len() ==> s.insert(keep_p, (kq, vq))[i] == s[i - 1]);
                };
                if keep_p < s.len() {
                    assert(!lex_lt(s[keep_p].0, kq));
                    assert(s[keep_p].0 != kq);
                    lemma_lex_lt_connected(s[keep_p].0, kq);
                    assert(lex_lt(kq, s[keep_p].0));
                }
                assert forall|j: int| 0 <= j < s.len() implies s[j].0 != kq by {
                    if j < keep_p {
                        assert(lex_lt(s[j].0, kq));
                        if s[j].0 == kq {
                            lemma_lex_lt_irrefl(kq);
                        }
                    } else {
                        if j > keep_p {
                            assert(lex_lt(s[keep_p].0, s[j].0));
                            lemma_lex_lt_trans(kq, s[keep_p].0, s[j].0);
                        }
                        assert(lex_lt(kq, s[j].0));
                        if s[j].0 == kq {
                            lemma_lex_lt_irrefl(kq);
                        }
                    }
                }
                assert(sorted_keys(t)) by {
                    assert forall|i: int, j: int|
                        0 <= i < j < t.len() implies #[trigger] lex_lt(t[i].0, t[j].0) by {
                        if j < keep_p {
                            assert(lex_lt(s[i].0, s[j].0));
                        } else if j == keep_p {
                            assert(lex_lt(s[i].0, kq));
                        } else if i < keep_p {
                            assert(lex_lt(s[i].0, s[j - 1].0)) by {
                                if i == j - 1 {
                                    assert(false);
                                } else {
                                    assert(lex_lt(s[i].0, s[j - 1].0));
                                }
                            };
                        } else if i == keep_p {
                            assert(lex_lt(kq, s[keep_p].0));
                            if j - 1 == keep_p {
                            } else {
                                assert(lex_lt(s[keep_p].0, s[j - 1].0));
                                lemma_lex_lt_trans(kq, s[keep_p].0, s[j - 1].0);
                            }
                        } else {
                            assert(lex_lt(s[i - 1].0, s[j - 1].0));
                        }
                    }
                };
                lemma_sorted_unique(s);
                lemma_sorted_unique(t);
                lemma_pairs_to_map_char(s);
                lemma_pairs_to_map_char(t);
                assert(pairs_to_map(t) =~= pairs_to_map(s).insert(kq, vq)) by {
                    assert forall|k: Seq<char>|
                        pairs_to_map(t).contains_key(k) == pairs_to_map(s).insert(
                            kq,
                            vq,
                        ).contains_key(k) by {
                        if pairs_to_map(t).contains_key(k) {
                            let i = choose|i: int| 0 <= i < t.len() && t[i].0 == k;
                            if i == keep_p {
                            } else if i < keep_p {
                                assert(s[i].0 == k);
                            } else {
                                assert(s[i - 1].0 == k);
                            }
                        }
                        if pairs_to_map(s).insert(kq, vq).contains_key(k) {
                            if k == kq {
                                assert(t[keep_p].0 == k);
                            } else {
                                let i = choose|i: int| 0 <= i < s.len() && s[i].0 == k;
                                if i < keep_p {
                                    assert(t[i].0 == k);
                                } else {
                                    assert(t[i + 1].0 == k);
                                }
                            }
                        }
                    }
                    assert forall|k: Seq<char>|
                        pairs_to_map(t).contains_key(k) implies pairs_to_map(t)[k]
                        == pairs_to_map(s).insert(kq, vq)[k] by {
                        let i = choose|i: int| 0 <= i < t.len() && t[i].0 == k;
                        assert(pairs_to_map(t)[k] == t[i].1);
                        if i == keep_p {
                            assert(k == kq && t[i].1 == vq);
                        } else if i < keep_p {
                            assert(s[i].0 == k && k != kq);
                            assert(pairs_to_map(s)[k] == s[i].1);
                        } else {
                            assert(s[i - 1].0 == k && k != kq);
                            assert(pairs_to_map(s)[k] == s[i - 1].1);
                        }
                    }
                };
            }
        }
    }
}

} // verus!
