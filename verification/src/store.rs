//! The in-memory entry collection: a list of key/value pairs with unique keys.
//!
//! The collection is viewed in specifications as a `Map` from the key's
//! characters to the value's characters; `pairs` exposes the underlying
//! ordered sequence, which the record codec serializes.

use crate::records::find_char_from;
use crate::records::lemma_find_char_at;
use crate::records::lemma_serialize_pairs_push;
use crate::records::parse_pairs;
use crate::records::record_text;
use crate::records::serialize_pairs;
use crate::records::split_line;
use crate::records::split_line_exec;
use vstd::prelude::*;
use vstd::string::StrSliceExecFns;
use vstd::string::StringExecFns;

verus! {

/// One stored entry: a name and the secret kept under it.
pub(crate) struct Entry {
    pub(crate) key: String,
    pub(crate) value: String,
}

/// The in-memory key-value store protected by the encrypted container.
pub struct Wallet {
    pub(crate) entries: Vec<Entry>,
}

/// True when no key occurs twice in the sequence of pairs.
pub open spec fn distinct_keys(pairs: Seq<(Seq<char>, Seq<char>)>) -> bool {
    forall|i: int, j: int|
        0 <= i < j < pairs.len() ==> (#[trigger] pairs[i]).0 != (#[trigger] pairs[j]).0
}

/// The map described by a sequence of pairs; a later pair overrides an
/// earlier one with the same key.
pub open spec fn map_of_pairs(pairs: Seq<(Seq<char>, Seq<char>)>) -> Map<Seq<char>, Seq<char>>
    decreases pairs.len(),
{
    if pairs.len() == 0 {
        Map::empty()
    } else {
        map_of_pairs(pairs.drop_last()).insert(pairs.last().0, pairs.last().1)
    }
}

pub proof fn lemma_map_of_pairs_contains(pairs: Seq<(Seq<char>, Seq<char>)>, k: Seq<char>)
    ensures
        map_of_pairs(pairs).contains_key(k) <==> exists|i: int|
            0 <= i < pairs.len() && (#[trigger] pairs[i]).0 == k,
    decreases pairs.len(),
{
    if pairs.len() > 0 {
        lemma_map_of_pairs_contains(pairs.drop_last(), k);
        if pairs.last().0 == k {
            assert(pairs[pairs.len() - 1].0 == k);
        } else if map_of_pairs(pairs).contains_key(k) {
            let i = choose|i: int| 0 <= i < pairs.drop_last().len() && (#[trigger] pairs.drop_last()[i]).0 == k;
            assert(pairs[i].0 == k);
        } else {
            assert forall|i: int| 0 <= i < pairs.len() implies (#[trigger] pairs[i]).0 != k by {
                if i < pairs.len() - 1 {
                    assert(pairs.drop_last()[i] == pairs[i]);
                }
            }
        }
    }
}

pub proof fn lemma_map_of_pairs_get(pairs: Seq<(Seq<char>, Seq<char>)>, i: int)
    requires
        distinct_keys(pairs),
        0 <= i < pairs.len(),
    ensures
        map_of_pairs(pairs).contains_key(pairs[i].0),
        map_of_pairs(pairs)[pairs[i].0] == pairs[i].1,
    decreases pairs.len(),
{
    if i == pairs.len() - 1 {
    } else {
        assert(pairs.drop_last()[i] == pairs[i]);
        lemma_map_of_pairs_get(pairs.drop_last(), i);
        assert(pairs[pairs.len() - 1].0 != pairs[i].0);
    }
}

/// Removing the pair at index `i` removes exactly its key from the map,
/// provided keys are distinct.
pub proof fn lemma_map_of_pairs_remove(pairs: Seq<(Seq<char>, Seq<char>)>, i: int)
    requires
        distinct_keys(pairs),
        0 <= i < pairs.len(),
    ensures
        map_of_pairs(pairs.remove(i)) == map_of_pairs(pairs).remove(pairs[i].0),
    decreases pairs.len(),
{
    lemma_map_of_pairs_contains(pairs.remove(i), pairs[i].0);
    if i == pairs.len() - 1 {
        assert(pairs.remove(i) =~= pairs.drop_last());
        assert forall|j: int| 0 <= j < pairs.drop_last().len() implies (#[trigger] pairs.drop_last()[j]).0 != pairs[i].0 by {
            assert(pairs.drop_last()[j] == pairs[j]);
        }
        lemma_map_of_pairs_no_key(pairs.drop_last(), pairs[i].0);
        assert(map_of_pairs(pairs.drop_last()) =~= map_of_pairs(pairs).remove(pairs[i].0));
    } else {
        let shorter = pairs.drop_last();
        assert(pairs.remove(i).drop_last() =~= shorter.remove(i));
        assert(pairs.remove(i).last() == pairs.last());
        lemma_map_of_pairs_remove(shorter, i);
        assert(shorter[i] == pairs[i]);
        assert(map_of_pairs(pairs.remove(i)) =~= map_of_pairs(pairs).remove(pairs[i].0));
    }
}

/// A key that occurs in no pair is not in the map.
pub proof fn lemma_map_of_pairs_no_key(pairs: Seq<(Seq<char>, Seq<char>)>, k: Seq<char>)
    requires
        forall|i: int| 0 <= i < pairs.len() ==> (#[trigger] pairs[i]).0 != k,
    ensures
        !map_of_pairs(pairs).contains_key(k),
{
    lemma_map_of_pairs_contains(pairs, k);
}

/// Keys stay distinct when the pair at `i` is removed.
pub proof fn lemma_distinct_remove(pairs: Seq<(Seq<char>, Seq<char>)>, i: int)
    requires
        distinct_keys(pairs),
        0 <= i < pairs.len(),
    ensures
        distinct_keys(pairs.remove(i)),
{
    assert forall|a: int, b: int| 0 <= a < b < pairs.remove(i).len() implies (
    #[trigger] pairs.remove(i)[a]).0 != (#[trigger] pairs.remove(i)[b]).0 by {
        let a0 = if a < i { a } else { a + 1 };
        let b0 = if b < i { b } else { b + 1 };
        assert(pairs.remove(i)[a] == pairs[a0]);
        assert(pairs.remove(i)[b] == pairs[b0]);
    }
}

impl View for Wallet {
    type V = Map<Seq<char>, Seq<char>>;

    closed spec fn view(&self) -> Map<Seq<char>, Seq<char>> {
        map_of_pairs(self.pairs())
    }
}

impl Wallet {
    /// The entries in storage order, as pairs of character sequences.
    pub closed spec fn pairs(&self) -> Seq<(Seq<char>, Seq<char>)> {
        Seq::new(self.entries@.len(), |i: int| (self.entries@[i].key@, self.entries@[i].value@))
    }

    /// Well-formedness: keys are unique.
    pub open spec fn wf(&self) -> bool {
        distinct_keys(self.pairs())
    }

    /// An empty wallet.
    pub fn new() -> (w: Wallet)
        ensures
            w.wf(),
            w.pairs() == Seq::<(Seq<char>, Seq<char>)>::empty(),
            w@ == Map::<Seq<char>, Seq<char>>::empty(),
    {
        let w = Wallet { entries: Vec::new() };
        proof {
            assert(w.pairs() =~= Seq::<(Seq<char>, Seq<char>)>::empty());
            assert(w@ =~= Map::<Seq<char>, Seq<char>>::empty());
        }
        w
    }

    /// The index of the entry holding `key`, if any; scans in storage order.
    fn index_of(&self, key: &String) -> (r: Option<usize>)
        ensures
            match r {
                Some(i) => i < self.pairs().len() && self.pairs()[i as int].0 == key@,
                None => forall|j: int|
                    0 <= j < self.pairs().len() ==> (#[trigger] self.pairs()[j]).0 != key@,
            },
    {
        let mut i: usize = 0;
        while i < self.entries.len()
            invariant
                i <= self.entries.len(),
                forall|j: int| 0 <= j < i ==> (#[trigger] self.pairs()[j]).0 != key@,
            decreases self.entries.len() - i,
        {
            if self.entries[i].key == *key {
                return Some(i);
            }
            i = i + 1;
        }
        None
    }

    /// Insert `value` under `key`, replacing any entry that held the key.
    pub fn add(&mut self, key: String, value: String)
        requires
            old(self).wf(),
        ensures
            final(self).wf(),
            final(self)@ == old(self)@.insert(key@, value@),
            !old(self)@.contains_key(key@) ==> final(self).pairs() == old(self).pairs().push(
                (key@, value@),
            ),
    {
        let ghost old_pairs = self.pairs();
        match self.index_of(&key) {
            Some(i) => {
                proof {
                    lemma_map_of_pairs_contains(old_pairs, key@);
                    lemma_map_of_pairs_remove(old_pairs, i as int);
                }
                self.entries.remove(i);
                proof {
                    assert(self.pairs() =~= old_pairs.remove(i as int));
                    lemma_distinct_remove(old_pairs, i as int);
                    assert forall|j: int| 0 <= j < self.pairs().len() implies (
                    #[trigger] self.pairs()[j]).0 != key@ by {
                        if j < i {
                            assert(old_pairs.remove(i as int)[j] == old_pairs[j]);
                        } else {
                            assert(old_pairs.remove(i as int)[j] == old_pairs[j + 1]);
                        }
                    }
                }
                self.push_new(key, value);
                proof {
                    assert(self@ =~= old(self)@.insert(key@, value@));
                }
            },
            None => {
                proof {
                    lemma_map_of_pairs_no_key(old_pairs, key@);
                }
                self.push_new(key, value);
                proof {
                    assert(self@ =~= old(self)@.insert(key@, value@));
                }
            },
        }
    }

    /// Append an entry whose key is known to be absent.
    fn push_new(&mut self, key: String, value: String)
        requires
            old(self).wf(),
            forall|j: int|
                0 <= j < old(self).pairs().len() ==> (#[trigger] old(self).pairs()[j]).0 != key@,
        ensures
            final(self).wf(),
            final(self).pairs() == old(self).pairs().push((key@, value@)),
            final(self)@ == old(self)@.insert(key@, value@),
    {
        let ghost old_pairs = self.pairs();
        self.entries.push(Entry { key, value });
        proof {
            assert(self.pairs() =~= old_pairs.push((key@, value@)));
            assert(self.pairs().drop_last() =~= old_pairs);
            let p = self.pairs();
            assert forall|a: int, b: int| 0 <= a < b < p.len() implies (#[trigger] p[a]).0 != (
            #[trigger] p[b]).0 by {
                if b < p.len() - 1 {
                    assert(old_pairs[a] == p[a]);
                    assert(old_pairs[b] == p[b]);
                } else {
                    assert(old_pairs[a] == p[a]);
                }
            }
        }
    }

    /// Remove the entry stored under `key`; the key must be present.
    pub fn del(&mut self, key: &String)
        requires
            old(self).wf(),
            old(self)@.contains_key(key@),
        ensures
            final(self).wf(),
            final(self)@ == old(self)@.remove(key@),
    {
        let ghost old_pairs = self.pairs();
        match self.index_of(key) {
            Some(i) => {
                proof {
                    lemma_map_of_pairs_remove(old_pairs, i as int);
                }
                self.entries.remove(i);
                proof {
                    assert(self.pairs() =~= old_pairs.remove(i as int));
                    lemma_distinct_remove(old_pairs, i as int);
                }
            },
            None => {
                proof {
                    lemma_map_of_pairs_no_key(old_pairs, key@);
                    assert(false);
                }
            },
        }
    }

    /// The value stored under `key`, if any.
    pub fn get(&self, key: &String) -> (r: Option<&String>)
        requires
            self.wf(),
        ensures
            r is Some <==> self@.contains_key(key@),
            r matches Some(v) ==> v@ == self@[key@],
    {
        proof {
            lemma_map_of_pairs_contains(self.pairs(), key@);
        }
        match self.index_of(key) {
            Some(i) => {
                proof {
                    lemma_map_of_pairs_get(self.pairs(), i as int);
                }
                Some(&self.entries[i].value)
            },
            None => None,
        }
    }

    /// Drop every entry.
    pub fn clear(&mut self)
        ensures
            final(self).wf(),
            final(self).pairs() == Seq::<(Seq<char>, Seq<char>)>::empty(),
            final(self)@ == Map::<Seq<char>, Seq<char>>::empty(),
    {
        self.entries.clear();
        proof {
            assert(self.pairs() =~= Seq::<(Seq<char>, Seq<char>)>::empty());
            assert(self@ =~= Map::<Seq<char>, Seq<char>>::empty());
        }
    }

    /// The stored keys, in storage order.
    pub fn get_keys(&self) -> (r: Vec<String>)
        ensures
            r@.len() == self.pairs().len(),
            forall|i: int| 0 <= i < r@.len() ==> (#[trigger] r@[i])@ == self.pairs()[i].0,
    {
        let mut r: Vec<String> = Vec::new();
        let mut i: usize = 0;
        while i < self.entries.len()
            invariant
                i <= self.entries.len(),
                r@.len() == i,
                forall|j: int| 0 <= j < i ==> (#[trigger] r@[j])@ == self.pairs()[j].0,
            decreases self.entries.len() - i,
        {
            r.push(self.entries[i].key.clone());
            i = i + 1;
        }
        r
    }

    /// The plaintext text of the whole collection, one line per entry in
    /// storage order.
    pub(crate) fn serialize_records(&self) -> (out: String)
        ensures
            out@ == serialize_pairs(self.pairs()),
    {
        let mut out = String::new();
        let mut i: usize = 0;
        proof {
            assert(self.pairs().take(0) =~= Seq::<(Seq<char>, Seq<char>)>::empty());
        }
        while i < self.entries.len()
            invariant
                i <= self.entries.len(),
                out@ == serialize_pairs(self.pairs().take(i as int)),
            decreases self.entries.len() - i,
        {
            let ghost prev = out@;
            let ghost p = self.pairs();
            out.append(self.entries[i].key.as_str());
            out.append(":");
            out.append(self.entries[i].value.as_str());
            out.append("\n");
            proof {
                reveal_strlit(":");
                reveal_strlit("\n");
                assert(":"@ =~= seq![':']);
                assert("\n"@ =~= seq!['\n']);
                assert(out@ =~= prev + record_text(p[i as int].0, p[i as int].1));
                lemma_serialize_pairs_push(p.take(i as int), p[i as int].0, p[i as int].1);
                assert(p.take(i as int).push(p[i as int]) =~= p.take(i as int + 1));
            }
            i = i + 1;
        }
        proof {
            assert(self.pairs().take(self.pairs().len() as int) =~= self.pairs());
        }
        out
    }

    /// Rebuild a collection from plaintext text, skipping lines that do not
    /// split into exactly two parts.
    pub(crate) fn parse_records(text: &str) -> (w: Wallet)
        ensures
            w.wf(),
            w@ == map_of_pairs(parse_pairs(text@)),
            distinct_keys(parse_pairs(text@)) ==> w.pairs() == parse_pairs(text@),
    {
        let mut w = Wallet::new();
        let n = text.unicode_len();
        let mut pos: usize = 0;
        let ghost mut done: Seq<(Seq<char>, Seq<char>)> = Seq::empty();
        proof {
            assert(text@.subrange(0, n as int) =~= text@);
            assert(done + parse_pairs(text@) =~= parse_pairs(text@));
        }
        while pos < n
            invariant
                pos <= n,
                n == text@.len(),
                w.wf(),
                w@ == map_of_pairs(done),
                distinct_keys(done) ==> w.pairs() == done,
                parse_pairs(text@) == done + parse_pairs(text@.subrange(pos as int, n as int)),
            decreases n - pos,
        {
            let ghost suf = text@.subrange(pos as int, n as int);
            let e = find_char_from(text, pos, n, '\n');
            proof {
                assert(e < n ==> suf[e - pos] == text@[e as int]);
                assert forall|y: int| 0 <= y < e - pos implies suf[y] != '\n' by {
                    assert(suf[y] == text@[pos + y]);
                }
                lemma_find_char_at(suf, '\n', e as int - pos as int);
            }
            let line = text.substring_char(pos, e);
            let ghost next_suf = if e < n {
                text@.subrange(e as int + 1, n as int)
            } else {
                Seq::<char>::empty()
            };
            proof {
                assert(line@ =~= suf.subrange(0, e as int - pos as int));
                if e < n {
                    assert(next_suf =~= suf.subrange(e as int - pos as int + 1, suf.len() as int));
                } else {
                    assert(text@.subrange(n as int, n as int) =~= Seq::<char>::empty());
                }
                // one unfolding of the suffix parse
                assert(parse_pairs(suf) == match split_line(line@) {
                    Some(q) => seq![q] + parse_pairs(next_suf),
                    None => parse_pairs(next_suf),
                });
            }
            match split_line_exec(line) {
                Some(p) => {
                    let (kk, vv) = p;
                    let ghost q = (kk@, vv@);
                    let ghost done0 = done;
                    proof {
                        assert(split_line(line@) == Some(q));
                        assert(done0 + parse_pairs(suf) =~= done0.push(q) + parse_pairs(next_suf));
                        if distinct_keys(done0.push(q)) {
                            assert forall|a: int, b: int|
                                0 <= a < b < done0.len() implies (#[trigger] done0[a]).0 != (
                            #[trigger] done0[b]).0 by {
                                assert(done0.push(q)[a] == done0[a]);
                                assert(done0.push(q)[b] == done0[b]);
                            }
                            assert forall|j: int| 0 <= j < done0.len() implies (
                            #[trigger] done0[j]).0 != q.0 by {
                                assert(done0.push(q)[j] == done0[j]);
                                assert(done0.push(q)[done0.len() as int] == q);
                            }
                            lemma_map_of_pairs_no_key(done0, q.0);
                        }
                    }
                    w.add(kk, vv);
                    proof {
                        done = done0.push(q);
                        assert(done.drop_last() =~= done0);
                        assert(map_of_pairs(done) == map_of_pairs(done0).insert(q.0, q.1));
                    }
                },
                None => {
                    proof {
                        assert(done + parse_pairs(suf) =~= done + parse_pairs(next_suf));
                    }
                },
            }
            if e < n {
                pos = e + 1;
            } else {
                pos = n;
            }
        }
        proof {
            assert(text@.subrange(n as int, n as int) =~= Seq::<char>::empty());
            assert(done + parse_pairs(Seq::<char>::empty()) =~= done);
        }
        w
    }

    /// Whether some entry is stored under `key`.
    pub fn key_exists(&self, key: &str) -> (r: bool)
        ensures
            r <==> self@.contains_key(key@),
    {
        proof {
            lemma_map_of_pairs_contains(self.pairs(), key@);
        }
        let owned = String::from_str(key);
        match self.index_of(&owned) {
            Some(_) => true,
            None => false,
        }
    }
}

} // verus!
