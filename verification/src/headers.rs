//! The header mapping: a list of key/value pairs whose keys are unique, with
//! insertion order kept and a later insert of a known key replacing its value
//! in place.  Header lines are folded in with keys trimmed and lower-cased,
//! values trimmed, and lines without a colon skipped.

use vstd::pervasive::VecAdditionalExecFns;
use vstd::prelude::*;

use crate::text::{
    find_char_from, find_from, lemma_lower_char_idempotent, spec_trim, str_eq, to_lower,
    to_lower_str, trim_of,
};

verus! {

/// Index of the first entry holding key `k`, or `-1`.
pub open spec fn index_of_key(hs: Seq<(Seq<char>, Seq<char>)>, k: Seq<char>) -> int
    decreases hs.len(),
{
    if hs.len() == 0 {
        -1
    } else if hs[0].0 == k {
        0
    } else if index_of_key(hs.skip(1), k) == -1 {
        -1
    } else {
        index_of_key(hs.skip(1), k) + 1
    }
}

pub open spec fn spec_has_key(hs: Seq<(Seq<char>, Seq<char>)>, k: Seq<char>) -> bool {
    index_of_key(hs, k) >= 0
}

/// The value stored under key `k`, when there is one.
pub open spec fn spec_lookup(hs: Seq<(Seq<char>, Seq<char>)>, k: Seq<char>) -> Option<
    Seq<char>,
> {
    if spec_has_key(hs, k) {
        Some(hs[index_of_key(hs, k)].1)
    } else {
        None
    }
}

/// Inserting under a known key replaces its value in place; a new key is
/// appended at the end.
pub open spec fn spec_upsert(
    hs: Seq<(Seq<char>, Seq<char>)>,
    k: Seq<char>,
    v: Seq<char>,
) -> Seq<(Seq<char>, Seq<char>)> {
    if spec_has_key(hs, k) {
        hs.update(index_of_key(hs, k), (k, v))
    } else {
        hs.push((k, v))
    }
}

/// Every entry holding key `k` dropped, the rest kept in order.
pub open spec fn spec_remove_key(hs: Seq<(Seq<char>, Seq<char>)>, k: Seq<char>) -> Seq<
    (Seq<char>, Seq<char>),
>
    decreases hs.len(),
{
    if hs.len() == 0 {
        Seq::empty()
    } else {
        let rest = spec_remove_key(hs.drop_last(), k);
        if hs.last().0 == k {
            rest
        } else {
            rest + seq![hs.last()]
        }
    }
}

/// No two entries share a key.
pub open spec fn keys_distinct(hs: Seq<(Seq<char>, Seq<char>)>) -> bool {
    forall|i: int, j: int|
        0 <= i < j < hs.len() ==> (#[trigger] hs[i]).0 != (#[trigger] hs[j]).0
}

/// Every key is already in its lower-case form.
pub open spec fn keys_lower(hs: Seq<(Seq<char>, Seq<char>)>) -> bool {
    forall|i: int| 0 <= i < hs.len() ==> to_lower((#[trigger] hs[i]).0) == hs[i].0
}

/// How one header line is folded into the mapping: nothing happens without a
/// colon; otherwise the part before the first colon, trimmed and lower-cased,
/// maps to the part after it, trimmed.
pub open spec fn spec_insert_line(
    hs: Seq<(Seq<char>, Seq<char>)>,
    t: Seq<char>,
) -> Seq<(Seq<char>, Seq<char>)> {
    let colon = find_from(t, 0, ':');
    if colon == t.len() {
        hs
    } else {
        spec_upsert(
            hs,
            to_lower(spec_trim(t.subrange(0, colon))),
            spec_trim(t.subrange(colon + 1, t.len() as int)),
        )
    }
}

/// The first entry holding `k` is at the reported index, and nothing holds
/// `k` before it.
pub proof fn lemma_index_of_key_first(hs: Seq<(Seq<char>, Seq<char>)>, k: Seq<char>)
    requires
        spec_has_key(hs, k),
    ensures
        0 <= index_of_key(hs, k) < hs.len(),
        hs[index_of_key(hs, k)].0 == k,
        forall|j: int| 0 <= j < index_of_key(hs, k) ==> (#[trigger] hs[j]).0 != k,
    decreases hs.len(),
{
    if hs.len() > 0 && hs[0].0 != k {
        lemma_index_of_key_first(hs.skip(1), k);
        assert(forall|j: int|
            0 <= j < hs.skip(1).len() ==> #[trigger] hs.skip(1)[j] == hs[j + 1]);
        assert forall|j: int| 0 <= j < index_of_key(hs, k) implies (#[trigger] hs[j]).0
            != k by {
            if j > 0 {
                assert(hs.skip(1)[j - 1] == hs[j]);
                assert((hs.skip(1)[j - 1]).0 != k);
            }
        }
    }
}

/// A key occurs exactly when some entry holds it.
pub proof fn lemma_has_key_iff(hs: Seq<(Seq<char>, Seq<char>)>, k: Seq<char>)
    ensures
        spec_has_key(hs, k) <==> exists|i: int|
            0 <= i < hs.len() && (#[trigger] hs[i]).0 == k,
    decreases hs.len(),
{
    if hs.len() > 0 && hs[0].0 != k {
        lemma_has_key_iff(hs.skip(1), k);
        assert(forall|j: int|
            0 <= j < hs.skip(1).len() ==> #[trigger] hs.skip(1)[j] == hs[j + 1]);
        if exists|i: int| 0 <= i < hs.len() && (#[trigger] hs[i]).0 == k {
            let i = choose|i: int| 0 <= i < hs.len() && (#[trigger] hs[i]).0 == k;
            assert(hs.skip(1)[i - 1].0 == k);
        }
    }
}

/// Finding a key at `t` with nothing equal before it pins `index_of_key`.
pub proof fn lemma_index_of_key_at(hs: Seq<(Seq<char>, Seq<char>)>, k: Seq<char>, t: int)
    requires
        0 <= t < hs.len(),
        hs[t].0 == k,
        forall|j: int| 0 <= j < t ==> (#[trigger] hs[j]).0 != k,
    ensures
        index_of_key(hs, k) == t,
    decreases hs.len(),
{
    assert(forall|j: int|
        0 <= j < hs.skip(1).len() ==> #[trigger] hs.skip(1)[j] == hs[j + 1]);
    if t > 0 {
        lemma_index_of_key_at(hs.skip(1), k, t - 1);
    }
}

/// What an insert does to lookups: the inserted key now maps to the inserted
/// value, every other key is untouched, and key uniqueness survives.
pub proof fn lemma_upsert(hs: Seq<(Seq<char>, Seq<char>)>, k: Seq<char>, v: Seq<char>)
    requires
        keys_distinct(hs),
    ensures
        keys_distinct(spec_upsert(hs, k, v)),
        spec_lookup(spec_upsert(hs, k, v), k) == Some(v),
        forall|k2: Seq<char>|
            k2 != k ==> #[trigger] spec_lookup(spec_upsert(hs, k, v), k2) == spec_lookup(
                hs,
                k2,
            ),
        spec_upsert(hs, k, v).len() == hs.len() + (if spec_has_key(hs, k) {
            0int
        } else {
            1int
        }),
        keys_lower(hs) && to_lower(k) == k ==> keys_lower(spec_upsert(hs, k, v)),
{
    let out = spec_upsert(hs, k, v);
    if spec_has_key(hs, k) {
        lemma_index_of_key_first(hs, k);
        let t = index_of_key(hs, k);
        lemma_index_of_key_at(out, k, t);
        assert(spec_lookup(out, k) == Some(v));
        assert forall|k2: Seq<char>| k2 != k implies #[trigger] spec_lookup(out, k2)
            == spec_lookup(hs, k2) by {
            lemma_lookup_same_keys(hs, out, k2);
        }
    } else {
        lemma_has_key_iff(hs, k);
        lemma_index_of_key_at(out, k, hs.len() as int);
        assert(spec_lookup(out, k) == Some(v));
        assert forall|k2: Seq<char>| k2 != k implies #[trigger] spec_lookup(out, k2)
            == spec_lookup(hs, k2) by {
            lemma_lookup_push_other(hs, k, v, k2);
        }
    }
}

/// Two lists with the same keys position by position, agreeing on the values
/// stored under `k2`, agree on what `k2` looks up to.
proof fn lemma_lookup_same_keys(
    hs1: Seq<(Seq<char>, Seq<char>)>,
    hs2: Seq<(Seq<char>, Seq<char>)>,
    k2: Seq<char>,
)
    requires
        hs1.len() == hs2.len(),
        forall|j: int| 0 <= j < hs1.len() ==> (#[trigger] hs1[j]).0 == (#[trigger] hs2[j]).0,
        forall|j: int|
            0 <= j < hs1.len() && (#[trigger] hs1[j]).0 == k2 ==> hs1[j].1 == hs2[j].1,
    ensures
        spec_lookup(hs1, k2) == spec_lookup(hs2, k2),
    decreases hs1.len(),
{
    lemma_has_key_iff(hs1, k2);
    lemma_has_key_iff(hs2, k2);
    if spec_has_key(hs1, k2) {
        lemma_index_of_key_first(hs1, k2);
        let t = index_of_key(hs1, k2);
        assert forall|j: int| 0 <= j < t implies (#[trigger] hs2[j]).0 != k2 by {
            assert((hs1[j]).0 != k2);
            assert((hs1[j]).0 == (hs2[j]).0);
        }
        assert(hs2[t].0 == k2);
        lemma_index_of_key_at(hs2, k2, t);
        assert(hs1[t].1 == hs2[t].1);
    } else {
        if spec_has_key(hs2, k2) {
            let i = choose|i: int| 0 <= i < hs2.len() && (#[trigger] hs2[i]).0 == k2;
            assert(hs1[i].0 == k2);
        }
    }
}

/// Appending an entry for another key leaves a lookup unchanged.
proof fn lemma_lookup_push_other(
    hs: Seq<(Seq<char>, Seq<char>)>,
    k: Seq<char>,
    v: Seq<char>,
    k2: Seq<char>,
)
    requires
        k2 != k,
    ensures
        spec_lookup(hs.push((k, v)), k2) == spec_lookup(hs, k2),
{
    let out = hs.push((k, v));
    lemma_has_key_iff(hs, k2);
    lemma_has_key_iff(out, k2);
    if spec_has_key(hs, k2) {
        lemma_index_of_key_first(hs, k2);
        let t = index_of_key(hs, k2);
        lemma_index_of_key_at(out, k2, t);
    } else {
        if spec_has_key(out, k2) {
            let i = choose|i: int| 0 <= i < out.len() && (#[trigger] out[i]).0 == k2;
            assert(i < hs.len());
            assert(hs[i].0 == k2);
        }
    }
}

/// What removal does: the key is gone, the other entries survive, and key
/// uniqueness survives.
pub proof fn lemma_remove_key(hs: Seq<(Seq<char>, Seq<char>)>, k: Seq<char>)
    ensures
        forall|i: int|
            0 <= i < spec_remove_key(hs, k).len() ==> (#[trigger] spec_remove_key(hs, k)[i]).0
                != k,
        forall|i: int|
            0 <= i < spec_remove_key(hs, k).len() ==> exists|j: int|
                0 <= j < hs.len() && hs[j] == #[trigger] spec_remove_key(hs, k)[i],
        keys_distinct(hs) ==> keys_distinct(spec_remove_key(hs, k)),
        keys_lower(hs) ==> keys_lower(spec_remove_key(hs, k)),
        spec_remove_key(hs, k).len() <= hs.len(),
        !spec_has_key(spec_remove_key(hs, k), k),
    decreases hs.len(),
{
    let out = spec_remove_key(hs, k);
    if hs.len() == 0 {
        lemma_has_key_iff(out, k);
    } else {
        let prev = hs.drop_last();
        lemma_remove_key(prev, k);
        assert(forall|j: int| 0 <= j < prev.len() ==> #[trigger] prev[j] == hs[j]);
        let rest = spec_remove_key(prev, k);
        if hs.last().0 == k {
            assert(out == rest);
        } else {
            assert(out == rest + seq![hs.last()]);
            assert(forall|i: int| 0 <= i < rest.len() ==> #[trigger] out[i] == rest[i]);
            assert(out[out.len() - 1] == hs.last());
            assert(hs[hs.len() - 1] == hs.last());
            if keys_distinct(hs) {
                assert forall|i: int, j: int|
                    0 <= i < j < out.len() implies (#[trigger] out[i]).0 != (
                #[trigger] out[j]).0 by {
                    if j < out.len() - 1 {
                        assert(rest[i] == out[i] && rest[j] == out[j]);
                    } else {
                        let w = choose|w: int| 0 <= w < prev.len() && prev[w] == out[i];
                        assert(hs[w] == out[i]);
                        assert(hs[w].0 != hs[hs.len() - 1].0);
                    }
                }
            }
        }
        lemma_has_key_iff(out, k);
    }
}

/// Folding one header line in keeps keys unique and lower-case.
pub proof fn lemma_insert_line_wf(hs: Seq<(Seq<char>, Seq<char>)>, t: Seq<char>)
    requires
        keys_distinct(hs),
        keys_lower(hs),
    ensures
        keys_distinct(spec_insert_line(hs, t)),
        keys_lower(spec_insert_line(hs, t)),
{
    let colon = find_from(t, 0, ':');
    if colon != t.len() {
        let k = to_lower(spec_trim(t.subrange(0, colon)));
        let v = spec_trim(t.subrange(colon + 1, t.len() as int));
        assert(to_lower(k) =~= k) by {
            assert forall|i: int| 0 <= i < k.len() implies to_lower(k)[i] == k[i] by {
                lemma_lower_char_idempotent(spec_trim(t.subrange(0, colon))[i]);
            }
        }
        lemma_upsert(hs, k, v);
    }
}

/// A line with a colon leaves exactly its own key mapped to its own value —
/// the latest line seen for a key wins — and touches no other key.
pub proof fn lemma_insert_line_last_wins(hs: Seq<(Seq<char>, Seq<char>)>, t: Seq<char>)
    requires
        keys_distinct(hs),
        find_from(t, 0, ':') != t.len(),
    ensures
        ({
            let colon = find_from(t, 0, ':');
            let k = to_lower(spec_trim(t.subrange(0, colon)));
            let v = spec_trim(t.subrange(colon + 1, t.len() as int));
            spec_lookup(spec_insert_line(hs, t), k) == Some(v) && forall|k2: Seq<char>|
                k2 != k ==> #[trigger] spec_lookup(spec_insert_line(hs, t), k2) == spec_lookup(
                    hs,
                    k2,
                )
        }),
{
    let colon = find_from(t, 0, ':');
    lemma_upsert(
        hs,
        to_lower(spec_trim(t.subrange(0, colon))),
        spec_trim(t.subrange(colon + 1, t.len() as int)),
    );
}

/// The header mapping of one message.
pub struct HeaderMap {
    entries: Vec<(String, String)>,
}

impl View for HeaderMap {
    type V = Seq<(Seq<char>, Seq<char>)>;

    closed spec fn view(&self) -> Seq<(Seq<char>, Seq<char>)> {
        Seq::new(self.entries@.len(), |i: int| (self.entries@[i].0@, self.entries@[i].1@))
    }
}

impl HeaderMap {
    /// Keys are unique: the shape every constructed mapping keeps.
    pub open spec fn wf(&self) -> bool {
        keys_distinct(self@)
    }

    pub fn new() -> (r: HeaderMap)
        ensures
            r@ =~= Seq::<(Seq<char>, Seq<char>)>::empty(),
            r.wf(),
    {
        HeaderMap { entries: Vec::new() }
    }

    pub fn len(&self) -> (r: usize)
        ensures
            r == self@.len(),
    {
        self.entries.len()
    }

    /// The key and value at one position, for walking the mapping in order.
    pub fn entry_at(&self, i: usize) -> (r: (&String, &String))
        requires
            i < self@.len(),
        ensures
            r.0@ == self@[i as int].0,
            r.1@ == self@[i as int].1,
    {
        let e = &self.entries[i];
        (&e.0, &e.1)
    }

    /// Inserts, replacing in place when the key is known.
    pub fn insert(&mut self, key: String, value: String)
        requires
            old(self).wf(),
        ensures
            final(self)@ == spec_upsert(old(self)@, key@, value@),
            final(self).wf(),
    {
        let ghost hs = self@;
        let n: usize = self.entries.len();
        let mut i: usize = 0;
        while i < n
            invariant
                n == self.entries@.len(),
                i <= n,
                hs == self@,
                hs == old(self)@,
                keys_distinct(hs),
                forall|j: int| 0 <= j < i ==> (#[trigger] hs[j]).0 != key@,
            decreases n - i,
        {
            if str_eq(self.entries[i].0.as_str(), key.as_str()) {
                proof {
                    lemma_index_of_key_at(hs, key@, i as int);
                    lemma_upsert(hs, key@, value@);
                }
                self.entries.set(i, (key, value));
                proof {
                    assert(self@ =~= spec_upsert(hs, key@, value@));
                }
                return ;
            }
            i += 1;
        }
        proof {
            lemma_has_key_iff(hs, key@);
            lemma_upsert(hs, key@, value@);
        }
        self.entries.push((key, value));
        proof {
            assert(self@ =~= spec_upsert(hs, key@, value@));
        }
    }

    /// The value under a key, when the mapping holds one.
    pub fn get(&self, key: &str) -> (r: Option<&String>)
        ensures
            match r {
                Some(v) => spec_lookup(self@, key@) == Some(v@),
                None => spec_lookup(self@, key@) is None,
            },
    {
        let ghost hs = self@;
        let n: usize = self.entries.len();
        let mut i: usize = 0;
        while i < n
            invariant
                n == self.entries@.len(),
                hs == self@,
                i <= n,
                forall|j: int| 0 <= j < i ==> (#[trigger] hs[j]).0 != key@,
            decreases n - i,
        {
            if str_eq(self.entries[i].0.as_str(), key) {
                proof {
                    lemma_index_of_key_at(hs, key@, i as int);
                }
                return Some(&self.entries[i].1);
            }
            i += 1;
        }
        proof {
            lemma_has_key_iff(hs, key@);
        }
        None
    }

    pub fn contains_key(&self, key: &str) -> (r: bool)
        ensures
            r == spec_has_key(self@, key@),
    {
        match self.get(key) {
            Some(_) => {
                proof {
                    lemma_has_key_iff(self@, key@);
                }
                true
            },
            None => false,
        }
    }

    /// Drops every entry under the key.
    pub fn remove(&mut self, key: &str)
        ensures
            final(self)@ == spec_remove_key(old(self)@, key@),
    {
        let ghost hs = self@;
        let n: usize = self.entries.len();
        let mut kept: Vec<(String, String)> = Vec::new();
        let mut i: usize = 0;
        while i < n
            invariant
                n == self.entries@.len(),
                hs == self@,
                i <= n,
                Seq::new(kept@.len(), |j: int| (kept@[j].0@, kept@[j].1@)) =~= spec_remove_key(
                    hs.subrange(0, i as int),
                    key@,
                ),
            decreases n - i,
        {
            let ghost prefix = hs.subrange(0, i as int);
            let ghost prefix2 = hs.subrange(0, i as int + 1);
            proof {
                assert(prefix2.drop_last() =~= prefix);
                assert(prefix2.last() == hs[i as int]);
            }
            let e = &self.entries[i];
            if !str_eq(e.0.as_str(), key) {
                kept.push((e.0.clone(), e.1.clone()));
            }
            i += 1;
        }
        proof {
            assert(hs.subrange(0, n as int) =~= hs);
        }
        self.entries = kept;
        proof {
            assert(self@ =~= spec_remove_key(hs, key@));
        }
    }

    /// A copy of the mapping, entry for entry.
    pub fn duplicate(&self) -> (r: HeaderMap)
        ensures
            r@ =~= self@,
    {
        let n: usize = self.entries.len();
        let mut out: Vec<(String, String)> = Vec::new();
        let mut i: usize = 0;
        while i < n
            invariant
                n == self.entries@.len(),
                out@.len() == i,
                i <= n,
                forall|j: int|
                    0 <= j < i ==> (#[trigger] out@[j]).0@ == self.entries@[j].0@
                        && out@[j].1@ == self.entries@[j].1@,
            decreases n - i,
        {
            let e = &self.entries[i];
            out.push((e.0.clone(), e.1.clone()));
            i += 1;
        }
        HeaderMap { entries: out }
    }

    /// Folds one already-trimmed header line into the mapping.
    pub fn insert_line(&mut self, t: &str)
        requires
            old(self).wf(),
        ensures
            final(self)@ == spec_insert_line(old(self)@, t@),
            final(self).wf(),
    {
        let n: usize = t.unicode_len();
        let colon: usize = find_char_from(t, 0, ':');
        if colon == n {
            return ;
        }
        let key = to_lower_str(trim_of(t.substring_char(0, colon)));
        let value = String::from_str(trim_of(t.substring_char(colon + 1, n)));
        self.insert(key, value);
    }
}

} // verus!
