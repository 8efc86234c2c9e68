//! Reproducibility provenance for benchmark runs.
//!
//! A [`RunProvenance`] record captures what is needed to reproduce and audit a
//! benchmark run: the seed and RNG algorithm, the source-control commit, the
//! tool and host identity, and an order-independent content hash of the
//! evaluated dataset. Host and commit values come through a
//! [`ProvenanceProbe`], so tests can supply fixed values.

use vstd::prelude::*;
use crate::order::{Cmp, compare_chars, char_codes, lex_le, lex_lt, lemma_lex_transitive,
    lemma_lex_antisymmetric, lemma_lex_total};
use crate::order::{byte_codes, compare_bytes, lemma_byte_codes_injective, lemma_lex_reflexive};
use crate::hashing::{ContentHasher, frame, frames, sha256_digest};
use crate::text::{chars_of, hex_seq, string_of, trim_chars, trim_seq};
use vstd::relations::{sorted_by, total_ordering};
use vstd::utf8::encode_utf8;

verus! {

/// Provenance metadata for an LLM judge metric.
#[derive(Debug, Clone, PartialEq, Eq)]
pub struct JudgeProvenance {
    /// Provider that served the judge model.
    pub provider: String,
    /// Model name used by the judge.
    pub model: String,
    /// Stable identifier of the versioned judge prompt.
    pub prompt_id: String,
    /// Version of the judge prompt.
    pub prompt_version: String,
    /// Content fingerprint of the complete rubric.
    pub prompt_fingerprint: String,
    /// Model the provider reported as actually generating the verdicts, when it
    /// differs from the requested model.
    pub resolved_model: Option<String>,
}

impl JudgeProvenance {
    /// Creates a judge provenance record with no resolved model.
    pub fn new(
        provider: &str,
        model: &str,
        prompt_id: &str,
        prompt_version: &str,
        prompt_fingerprint: &str,
    ) -> (j: Self)
        ensures
            j.provider@ == provider@,
            j.model@ == model@,
            j.prompt_id@ == prompt_id@,
            j.prompt_version@ == prompt_version@,
            j.prompt_fingerprint@ == prompt_fingerprint@,
            j.resolved_model is None,
    {
        JudgeProvenance {
            provider: String::from_str(provider),
            model: String::from_str(model),
            prompt_id: String::from_str(prompt_id),
            prompt_version: String::from_str(prompt_version),
            prompt_fingerprint: String::from_str(prompt_fingerprint),
            resolved_model: None,
        }
    }

    /// Records the model the provider reported as actually generating the verdicts.
    pub fn with_resolved_model(self, resolved_model: &str) -> (j: Self)
        ensures
            j.provider == self.provider,
            j.model == self.model,
            j.prompt_id == self.prompt_id,
            j.prompt_version == self.prompt_version,
            j.prompt_fingerprint == self.prompt_fingerprint,
            j.resolved_model matches Some(r) && r@ == resolved_model@,
    {
        JudgeProvenance { resolved_model: Some(String::from_str(resolved_model)), ..self }
    }
}

/// Keys in strictly increasing order (by code point), as a `BTreeMap` keeps them.
pub open spec fn keys_increasing(s: Seq<(Seq<char>, JudgeProvenance)>) -> bool {
    forall|i: int, j: int|
        0 <= i < j < s.len() ==> lex_lt(char_codes(#[trigger] s[i].0), char_codes(#[trigger] s[j].0))
}

/// Judge identities keyed by metric name, kept in increasing key order with
/// each key once (the order and uniqueness of a `BTreeMap<String, _>`).
#[derive(Debug, Clone, PartialEq, Eq)]
pub struct JudgeMap {
    entries: Vec<(String, JudgeProvenance)>,
}

impl View for JudgeMap {
    type V = Seq<(Seq<char>, JudgeProvenance)>;

    /// The entries in key order.
    closed spec fn view(&self) -> Seq<(Seq<char>, JudgeProvenance)> {
        entries_view(self.entries@)
    }
}

/// The entries with each key taken as its characters.
spec fn entries_view(v: Seq<(String, JudgeProvenance)>) -> Seq<(Seq<char>, JudgeProvenance)> {
    v.map_values(|e: (String, JudgeProvenance)| (e.0@, e.1))
}

impl JudgeMap {
    /// Well-formedness: keys strictly increasing, so each key occurs once.
    pub open spec fn wf(&self) -> bool {
        keys_increasing(self@)
    }

    /// An empty map.
    pub fn new() -> (m: Self)
        ensures
            m@ == Seq::<(Seq<char>, JudgeProvenance)>::empty(),
            m.wf(),
    {
        let m = JudgeMap { entries: Vec::new() };
        assert(m@ =~= Seq::<(Seq<char>, JudgeProvenance)>::empty());
        m
    }

    /// Number of entries.
    pub fn len(&self) -> (n: usize)
        ensures
            n == self@.len(),
    {
        self.entries.len()
    }

    /// Whether the map is empty.
    pub fn is_empty(&self) -> (b: bool)
        ensures
            b == (self@.len() == 0),
    {
        self.entries.len() == 0
    }

    /// The key and value at position `i` in key order.
    pub fn entry(&self, i: usize) -> (r: (&String, &JudgeProvenance))
        requires
            i < self@.len(),
        ensures
            r.0@ == self@[i as int].0,
            *r.1 == self@[i as int].1,
    {
        let e = &self.entries[i];
        (&e.0, &e.1)
    }

    /// Position of the first entry stored under `key`, if any.
    fn position(&self, key: &Vec<char>) -> (r: Option<usize>)
        ensures
            r matches Some(i) ==> i < self@.len() && self@[i as int].0 == key@
                && forall|j: int| 0 <= j < i ==> #[trigger] self@[j].0 != key@,
            r is None ==> forall|j: int| 0 <= j < self@.len() ==> #[trigger] self@[j].0 != key@,
    {
        let mut i: usize = 0;
        while i < self.entries.len()
            invariant
                i <= self.entries@.len(),
                self@.len() == self.entries@.len(),
                forall|j: int| 0 <= j < i ==> #[trigger] self@[j].0 != key@,
            decreases self.entries@.len() - i,
        {
            let c = chars_of(self.entries[i].0.as_str());
            assert(self@[i as int].0 == self.entries@[i as int].0@);
            if let Cmp::Equal = compare_chars(&c, key) {
                return Some(i);
            }
            i = i + 1;
        }
        None
    }

    /// The value stored under `key`, if any.
    pub fn get(&self, key: &str) -> (r: Option<&JudgeProvenance>)
        ensures
            r matches Some(v) ==> exists|i: int| 0 <= i < self@.len() && #[trigger] self@[i].0 == key@ && self@[i].1 == *v,
            r is None ==> forall|i: int| 0 <= i < self@.len() ==> #[trigger] self@[i].0 != key@,
    {
        let k = chars_of(key);
        match self.position(&k) {
            Some(i) => {
                assert(self@[i as int].1 == self.entries@[i as int].1);
                Some(&self.entries[i].1)
            },
            None => None,
        }
    }

    /// Inserts `value` under `key`, replacing the value already stored there,
    /// or else placing the entry before the first greater key.
    pub fn insert(&mut self, key: String, value: JudgeProvenance)
        ensures
            (exists|i: int| 0 <= i < old(self)@.len() && #[trigger] old(self)@[i].0 == key@) ==>
                exists|i: int| 0 <= i < old(self)@.len() && #[trigger] old(self)@[i].0 == key@
                    && final(self)@ == old(self)@.update(i, (key@, value)),
            (forall|i: int| 0 <= i < old(self)@.len() ==> #[trigger] old(self)@[i].0 != key@) ==>
                exists|p: int| 0 <= p <= old(self)@.len() && #[trigger] final(self)@ == old(self)@.insert(p, (key@, value)),
            old(self).wf() ==> final(self).wf(),
            old(self).wf() ==> entries_map(final(self)@) == entries_map(old(self)@).insert(key@, value),
    {
        let k = chars_of(key.as_str());
        let ghost old_view = self@;
        match self.position(&k) {
            Some(i) => {
                self.entries.set(i, (key, value));
                proof {
                    assert(self@ =~= old_view.update(i as int, (key@, value)));
                    if keys_increasing(old_view) {
                        lemma_increasing_unique(old_view);
                        lemma_map_after_update(old_view, i as int, key@, value);
                    }
                    if keys_increasing(old_view) {
                        let nv = self@;
                        assert forall|a: int, b: int| 0 <= a < b < nv.len() implies lex_lt(
                            char_codes(#[trigger] nv[a].0),
                            char_codes(#[trigger] nv[b].0),
                        ) by {
                            assert(nv[a].0 == old_view[a].0);
                            assert(nv[b].0 == old_view[b].0);
                        }
                    }
                }
            },
            None => {
                let n = self.entries.len();
                let mut p: usize = 0;
                let mut past: bool = false;
                while p < n && !past
                    invariant
                        p <= n,
                        n == self.entries@.len(),
                        self@ == old_view,
                        k@ == key@,
                        forall|j: int| 0 <= j < old_view.len() ==> #[trigger] old_view[j].0 != key@,
                        past ==> p < n && lex_lt(char_codes(key@), char_codes(old_view[p as int].0)),
                        forall|j: int| 0 <= j < p ==> lex_lt(char_codes(#[trigger] old_view[j].0), char_codes(key@)),
                    decreases n - p + (if past { 0int } else { 1int }),
                {
                    let c = chars_of(self.entries[p].0.as_str());
                    assert(old_view[p as int].0 == self.entries@[p as int].0@);
                    match compare_chars(&c, &k) {
                        Cmp::Greater => {
                            past = true;
                        },
                        _ => {
                            p = p + 1;
                        },
                    }
                }
                proof {
                    if keys_increasing(old_view) {
                        lemma_insert_keeps_order(old_view, p as int, key@, value);
                    }
                }
                self.entries.insert(p, (key, value));
                assert(self@ =~= old_view.insert(p as int, (key@, value)));
                proof {
                    if keys_increasing(old_view) {
                        lemma_increasing_unique(old_view);
                        lemma_map_after_insert(old_view, p as int, key@, value);
                    }
                }
            },
        }
    }
}

/// Each key occurs once.
pub open spec fn unique_keys(s: Seq<(Seq<char>, JudgeProvenance)>) -> bool {
    forall|i: int, j: int| 0 <= i < s.len() && 0 <= j < s.len() && i != j ==> #[trigger] s[i].0 != #[trigger] s[j].0
}

/// The map from each key to its value (a later entry for a key wins).
pub open spec fn entries_map(s: Seq<(Seq<char>, JudgeProvenance)>) -> Map<Seq<char>, JudgeProvenance>
    decreases s.len(),
{
    if s.len() == 0 {
        Map::empty()
    } else {
        entries_map(s.drop_last()).insert(s.last().0, s.last().1)
    }
}

/// Strictly increasing keys are unique.
pub proof fn lemma_increasing_unique(s: Seq<(Seq<char>, JudgeProvenance)>)
    requires
        keys_increasing(s),
    ensures
        unique_keys(s),
{
    assert forall|i: int, j: int| 0 <= i < s.len() && 0 <= j < s.len() && i != j implies #[trigger] s[i].0 != #[trigger] s[j].0 by {
        if i < j {
            assert(lex_lt(char_codes(s[i].0), char_codes(s[j].0)));
        } else {
            assert(lex_lt(char_codes(s[j].0), char_codes(s[i].0)));
        }
    }
}

/// With unique keys, the map holds exactly the keys, each with its value.
proof fn lemma_entries_map_content(s: Seq<(Seq<char>, JudgeProvenance)>)
    requires
        unique_keys(s),
    ensures
        forall|k: Seq<char>| #[trigger] entries_map(s).dom().contains(k) <==> exists|i: int| 0 <= i < s.len() && s[i].0 == k,
        forall|i: int| 0 <= i < s.len() ==> #[trigger] entries_map(s)[s[i].0] == s[i].1,
    decreases s.len(),
{
    if s.len() > 0 {
        let r = s.drop_last();
        assert(unique_keys(r)) by {
            assert forall|i: int, j: int| 0 <= i < r.len() && 0 <= j < r.len() && i != j implies #[trigger] r[i].0 != #[trigger] r[j].0 by {
                assert(r[i] == s[i] && r[j] == s[j]);
            }
        }
        lemma_entries_map_content(r);
        let last = s.len() - 1;
        assert(entries_map(s) == entries_map(r).insert(s[last].0, s[last].1));
        assert forall|k: Seq<char>| #[trigger] entries_map(s).dom().contains(k) <==> exists|i: int| 0 <= i < s.len() && s[i].0 == k by {
            if k == s[last].0 {
                assert(s[last].0 == k);
            }
            if entries_map(s).dom().contains(k) && k != s[last].0 {
                assert(entries_map(r).dom().contains(k));
                let i = choose|i: int| 0 <= i < r.len() && r[i].0 == k;
                assert(s[i] == r[i]);
            }
            if exists|i: int| 0 <= i < s.len() && s[i].0 == k {
                let i = choose|i: int| 0 <= i < s.len() && s[i].0 == k;
                if i < r.len() {
                    assert(r[i] == s[i]);
                }
            }
        }
        assert forall|i: int| 0 <= i < s.len() implies #[trigger] entries_map(s)[s[i].0] == s[i].1 by {
            if i < last {
                assert(r[i] == s[i]);
                assert(s[i].0 != s[last].0);
                assert(entries_map(r)[r[i].0] == r[i].1);
            }
        }
    }
}

/// Two unique-key sequences with the same keys and the same value per key have
/// the same map.
proof fn lemma_entries_map_same(a: Seq<(Seq<char>, JudgeProvenance)>, m: Map<Seq<char>, JudgeProvenance>)
    requires
        unique_keys(a),
        forall|k: Seq<char>| m.dom().contains(k) <==> exists|i: int| 0 <= i < a.len() && #[trigger] a[i].0 == k,
        forall|i: int| 0 <= i < a.len() ==> m[#[trigger] a[i].0] == a[i].1,
    ensures
        entries_map(a) == m,
{
    lemma_entries_map_content(a);
    assert forall|k: Seq<char>| #[trigger] m.dom().contains(k) implies entries_map(a)[k] == m[k] by {
        let i = choose|i: int| 0 <= i < a.len() && #[trigger] a[i].0 == k;
        assert(entries_map(a)[a[i].0] == a[i].1);
    }
    assert(entries_map(a) =~= m);
}

/// Replacing the value of a present key updates the map at that key.
pub proof fn lemma_map_after_update(s: Seq<(Seq<char>, JudgeProvenance)>, i: int, k: Seq<char>, v: JudgeProvenance)
    requires
        unique_keys(s),
        0 <= i < s.len(),
        s[i].0 == k,
    ensures
        entries_map(s.update(i, (k, v))) == entries_map(s).insert(k, v),
{
    let t = s.update(i, (k, v));
    lemma_entries_map_content(s);
    assert(unique_keys(t)) by {
        assert forall|a: int, b: int| 0 <= a < t.len() && 0 <= b < t.len() && a != b implies #[trigger] t[a].0 != #[trigger] t[b].0 by {
            assert(t[a].0 == s[a].0 && t[b].0 == s[b].0);
        }
    }
    let m = entries_map(s).insert(k, v);
    assert forall|key: Seq<char>| m.dom().contains(key) <==> exists|j: int| 0 <= j < t.len() && #[trigger] t[j].0 == key by {
        if m.dom().contains(key) {
            if key == k {
                assert(t[i].0 == key);
            } else {
                let j = choose|j: int| 0 <= j < s.len() && s[j].0 == key;
                assert(t[j].0 == key);
            }
        }
        if exists|j: int| 0 <= j < t.len() && #[trigger] t[j].0 == key {
            let j = choose|j: int| 0 <= j < t.len() && #[trigger] t[j].0 == key;
            assert(s[j].0 == key);
        }
    }
    assert forall|j: int| 0 <= j < t.len() implies m[#[trigger] t[j].0] == t[j].1 by {
        if j != i {
            assert(s[j].0 != s[i].0);
            assert(entries_map(s)[s[j].0] == s[j].1);
        }
    }
    lemma_entries_map_same(t, m);
}

/// Inserting an entry with a fresh key adds that key to the map.
pub proof fn lemma_map_after_insert(s: Seq<(Seq<char>, JudgeProvenance)>, p: int, k: Seq<char>, v: JudgeProvenance)
    requires
        unique_keys(s),
        0 <= p <= s.len(),
        forall|j: int| 0 <= j < s.len() ==> #[trigger] s[j].0 != k,
    ensures
        entries_map(s.insert(p, (k, v))) == entries_map(s).insert(k, v),
{
    let t = s.insert(p, (k, v));
    lemma_entries_map_content(s);
    assert(unique_keys(t)) by {
        assert forall|a: int, b: int| 0 <= a < t.len() && 0 <= b < t.len() && a != b implies #[trigger] t[a].0 != #[trigger] t[b].0 by {
            let sa = if a < p { a } else { a - 1 };
            let sb = if b < p { b } else { b - 1 };
            if a != p && b != p {
                assert(t[a] == s[sa] && t[b] == s[sb]);
            } else if a == p {
                assert(t[b] == s[sb]);
            } else {
                assert(t[a] == s[sa]);
            }
        }
    }
    let m = entries_map(s).insert(k, v);
    assert forall|key: Seq<char>| m.dom().contains(key) <==> exists|j: int| 0 <= j < t.len() && #[trigger] t[j].0 == key by {
        if m.dom().contains(key) {
            if key == k {
                assert(t[p].0 == key);
            } else {
                let j = choose|j: int| 0 <= j < s.len() && s[j].0 == key;
                if j < p {
                    assert(t[j] == s[j]);
                } else {
                    assert(t[j + 1] == s[j]);
                }
            }
        }
        if exists|j: int| 0 <= j < t.len() && #[trigger] t[j].0 == key {
            let j = choose|j: int| 0 <= j < t.len() && #[trigger] t[j].0 == key;
            if j < p {
                assert(t[j] == s[j]);
            } else if j > p {
                assert(t[j] == s[j - 1]);
            }
        }
    }
    assert forall|j: int| 0 <= j < t.len() implies m[#[trigger] t[j].0] == t[j].1 by {
        if j < p {
            assert(t[j] == s[j]);
            assert(entries_map(s)[s[j].0] == s[j].1);
        } else if j > p {
            assert(t[j] == s[j - 1]);
            assert(entries_map(s)[s[j - 1].0] == s[j - 1].1);
        }
    }
    lemma_entries_map_same(t, m);
}

/// Inserting a key between the smaller keys and the greater ones keeps the
/// keys strictly increasing.
proof fn lemma_insert_keeps_order(s: Seq<(Seq<char>, JudgeProvenance)>, p: int, key: Seq<char>, value: JudgeProvenance)
    requires
        0 <= p <= s.len(),
        keys_increasing(s),
        forall|j: int| 0 <= j < p ==> lex_lt(char_codes(#[trigger] s[j].0), char_codes(key)),
        p < s.len() ==> lex_lt(char_codes(key), char_codes(s[p].0)),
    ensures
        keys_increasing(s.insert(p, (key, value))),
{
    let t = s.insert(p, (key, value));
    assert forall|a: int, b: int| 0 <= a < b < t.len() implies lex_lt(
        char_codes(#[trigger] t[a].0),
        char_codes(#[trigger] t[b].0),
    ) by {
        if b < p {
            assert(t[a] == s[a] && t[b] == s[b]);
        } else if b == p {
            assert(t[a] == s[a]);
        } else if a < p {
            assert(t[a] == s[a] && t[b] == s[b - 1]);
        } else if a == p {
            assert(t[b] == s[b - 1]);
            if b - 1 > p {
                lemma_lt_transitive(char_codes(key), char_codes(s[p].0), char_codes(s[b - 1].0));
            }
        } else {
            assert(t[a] == s[a - 1] && t[b] == s[b - 1]);
        }
    }
}

/// Strict lexicographic order is transitive.
pub proof fn lemma_lt_transitive(a: Seq<int>, b: Seq<int>, c: Seq<int>)
    requires
        lex_lt(a, b),
        lex_lt(b, c),
    ensures
        lex_lt(a, c),
{
    lemma_lex_transitive(a, b, c);
    if a == c {
        lemma_lex_antisymmetric(b, c);
    }
}


/// The bytes of one dataset record: its id, its raw input and its label.
pub type ByteRecord = (Seq<u8>, Seq<u8>, Seq<u8>);

/// Order of records: by id, then input, then label, each compared bytewise
/// (the order of `(&str, &[u8], String)` tuples).
pub open spec fn record_le(a: ByteRecord, b: ByteRecord) -> bool {
    if a.0 != b.0 {
        lex_le(byte_codes(a.0), byte_codes(b.0))
    } else if a.1 != b.1 {
        lex_le(byte_codes(a.1), byte_codes(b.1))
    } else {
        lex_le(byte_codes(a.2), byte_codes(b.2))
    }
}

/// [`record_le`] as a relation value.
pub open spec fn record_order() -> spec_fn(ByteRecord, ByteRecord) -> bool {
    |a: ByteRecord, b: ByteRecord| record_le(a, b)
}

/// The frames fed to the hasher for a sequence of records, in order.
pub open spec fn record_frames(rs: Seq<ByteRecord>) -> Seq<(Seq<u8>, Seq<u8>)>
    decreases rs.len(),
{
    if rs.len() == 0 {
        Seq::empty()
    } else {
        seq![(id_tag(), rs[0].0), (input_tag(), rs[0].1), (label_tag(), rs[0].2)]
            + record_frames(rs.drop_first())
    }
}

pub open spec fn id_tag() -> Seq<u8> {
    seq![105u8, 100u8]
}

pub open spec fn input_tag() -> Seq<u8> {
    seq![105u8, 110u8, 112u8, 117u8, 116u8]
}

pub open spec fn label_tag() -> Seq<u8> {
    seq![108u8, 97u8, 98u8, 101u8, 108u8]
}

/// The framed stream hashed for a dataset: its records in sorted order.
pub open spec fn dataset_stream(rs: Seq<ByteRecord>) -> Seq<u8> {
    frames(record_frames(rs.sort_by(record_order())))
}

/// The dataset hash: lowercase hex SHA-256 of the sorted, framed records.
pub open spec fn dataset_hash_of(rs: Seq<ByteRecord>) -> Seq<char> {
    hex_seq(sha256_digest(dataset_stream(rs)))
}

/// Equal byte sequences compared both ways are equal.
proof fn lemma_bytes_antisymmetric(a: Seq<u8>, b: Seq<u8>)
    requires
        lex_le(byte_codes(a), byte_codes(b)),
        lex_le(byte_codes(b), byte_codes(a)),
    ensures
        a == b,
{
    lemma_lex_antisymmetric(byte_codes(a), byte_codes(b));
    lemma_byte_codes_injective(a, b);
}

/// The record order is a total order.
pub proof fn lemma_record_order_total()
    ensures
        total_ordering(record_order()),
{
    let r = record_order();
    assert forall|x: ByteRecord| #[trigger] r(x, x) by {
        lemma_lex_reflexive(byte_codes(x.2));
    }
    assert forall|x: ByteRecord, y: ByteRecord| #[trigger] r(x, y) && #[trigger] r(y, x) implies x == y by {
        if x.0 != y.0 {
            lemma_bytes_antisymmetric(x.0, y.0);
        } else if x.1 != y.1 {
            lemma_bytes_antisymmetric(x.1, y.1);
        } else {
            lemma_bytes_antisymmetric(x.2, y.2);
        }
    }
    assert forall|x: ByteRecord, y: ByteRecord, z: ByteRecord| #[trigger] r(x, y) && #[trigger] r(y, z) implies r(x, z) by {
        lemma_record_transitive(x, y, z);
    }
    assert forall|x: ByteRecord, y: ByteRecord| #[trigger] r(x, y) || #[trigger] r(y, x) by {
        lemma_lex_total(byte_codes(x.0), byte_codes(y.0));
        lemma_lex_total(byte_codes(x.1), byte_codes(y.1));
        lemma_lex_total(byte_codes(x.2), byte_codes(y.2));
    }
}

proof fn lemma_field_transitive(a: Seq<u8>, b: Seq<u8>, c: Seq<u8>)
    requires
        a == b || lex_le(byte_codes(a), byte_codes(b)),
        b == c || lex_le(byte_codes(b), byte_codes(c)),
    ensures
        a == c || lex_le(byte_codes(a), byte_codes(c)),
        a != b && a == c ==> false,
{
    if a != b && b != c {
        lemma_lex_transitive(byte_codes(a), byte_codes(b), byte_codes(c));
    }
    if a != b && a == c {
        lemma_bytes_antisymmetric(a, b);
    }
}

proof fn lemma_record_transitive(x: ByteRecord, y: ByteRecord, z: ByteRecord)
    requires
        record_le(x, y),
        record_le(y, z),
    ensures
        record_le(x, z),
{
    lemma_field_transitive(x.0, y.0, z.0);
    if x.0 == y.0 && y.0 == z.0 {
        lemma_field_transitive(x.1, y.1, z.1);
        if x.1 == y.1 && y.1 == z.1 {
            lemma_field_transitive(x.2, y.2, z.2);
        } else if x.1 == z.1 {
            lemma_field_transitive(y.1, z.1, y.1);
        }
    } else if x.0 == z.0 {
        lemma_field_transitive(y.0, z.0, y.0);
    }
}


/// The dataset hash does not depend on the order of the records: two record
/// lists holding the same records (with the same multiplicities) hash alike.
pub proof fn dataset_hash_is_order_independent(a: Seq<ByteRecord>, b: Seq<ByteRecord>)
    requires
        a.to_multiset() == b.to_multiset(),
    ensures
        dataset_hash_of(a) == dataset_hash_of(b),
{
    let r = record_order();
    lemma_record_order_total();
    a.lemma_sort_by_ensures(r);
    b.lemma_sort_by_ensures(r);
    vstd::seq_lib::lemma_sorted_unique(a.sort_by(r), b.sort_by(r), r);
}

/// The bytes of a record held in vectors.
pub open spec fn record_view(r: (Vec<u8>, Vec<u8>, Vec<u8>)) -> ByteRecord {
    (r.0@, r.1@, r.2@)
}

pub open spec fn records_view(v: Seq<(Vec<u8>, Vec<u8>, Vec<u8>)>) -> Seq<ByteRecord> {
    v.map_values(|r: (Vec<u8>, Vec<u8>, Vec<u8>)| record_view(r))
}

/// The records of samples given as `(id, input, label text)`: the UTF-8 bytes
/// of the id, the input bytes and the UTF-8 bytes of the label text.
pub open spec fn sample_records(samples: Seq<(String, Vec<u8>, String)>) -> Seq<ByteRecord> {
    samples.map_values(|s: (String, Vec<u8>, String)| (encode_utf8(s.0@), s.1@, encode_utf8(s.2@)))
}

/// Decides [`record_le`].
fn record_le_exec(a: &(Vec<u8>, Vec<u8>, Vec<u8>), b: &(Vec<u8>, Vec<u8>, Vec<u8>)) -> (r: bool)
    ensures
        r == record_le(record_view(*a), record_view(*b)),
{
    match compare_bytes(&a.0, &b.0) {
        Cmp::Less => true,
        Cmp::Greater => {
            proof {
                if lex_le(byte_codes(a.0@), byte_codes(b.0@)) {
                    lemma_bytes_antisymmetric(a.0@, b.0@);
                }
            }
            false
        },
        Cmp::Equal => match compare_bytes(&a.1, &b.1) {
            Cmp::Less => true,
            Cmp::Greater => {
                proof {
                    if lex_le(byte_codes(a.1@), byte_codes(b.1@)) {
                        lemma_bytes_antisymmetric(a.1@, b.1@);
                    }
                }
                false
            },
            Cmp::Equal => match compare_bytes(&a.2, &b.2) {
                Cmp::Greater => {
                    proof {
                        if lex_le(byte_codes(a.2@), byte_codes(b.2@)) {
                            lemma_bytes_antisymmetric(a.2@, b.2@);
                        }
                    }
                    false
                },
                _ => {
                    proof {
                        lemma_lex_reflexive(byte_codes(a.2@));
                    }
                    true
                },
            },
        },
    }
}

/// Inserting an element after all elements not greater than it and before a
/// greater one keeps a sequence sorted.
proof fn lemma_sorted_insert<A>(s: Seq<A>, p: int, x: A, r: spec_fn(A, A) -> bool)
    requires
        total_ordering(r),
        sorted_by(s, r),
        0 <= p <= s.len(),
        forall|j: int| 0 <= j < p ==> #[trigger] r(s[j], x),
        p < s.len() ==> r(x, s[p]),
    ensures
        sorted_by(s.insert(p, x), r),
{
    let t = s.insert(p, x);
    assert forall|a: int, b: int| 0 <= a < b < t.len() implies #[trigger] r(t[a], t[b]) by {
        if b < p {
            assert(t[a] == s[a] && t[b] == s[b]);
        } else if b == p {
            assert(t[a] == s[a]);
        } else if a < p {
            assert(t[a] == s[a] && t[b] == s[b - 1]);
        } else if a == p {
            assert(t[b] == s[b - 1]);
            if b - 1 > p {
                assert(r(s[p], s[b - 1]));
            }
        } else {
            assert(t[a] == s[a - 1] && t[b] == s[b - 1]);
        }
    }
}

/// Inserting into a sequence adds the element to its multiset.
proof fn lemma_insert_multiset<A>(s: Seq<A>, p: int, x: A)
    requires
        0 <= p <= s.len(),
    ensures
        s.insert(p, x).to_multiset() == s.to_multiset().insert(x),
{
    broadcast use vstd::seq_lib::group_to_multiset_ensures;
    broadcast use vstd::multiset::group_multiset_axioms;
    let t = s.insert(p, x);
    assert(t.remove(p) =~= s);
    assert(t.remove(p).to_multiset() == t.to_multiset().remove(x));
    assert(t.contains(x)) by {
        assert(t[p] == x);
    }
    assert(t.to_multiset().count(x) > 0);
    assert(t.to_multiset() =~= s.to_multiset().insert(x));
}

/// Copies a slice into a new vector.
fn bytes_of(data: &[u8]) -> (v: Vec<u8>)
    ensures
        v@ == data@,
{
    let mut v: Vec<u8> = Vec::new();
    crate::hashing::push_bytes(&mut v, data);
    v
}

/// The frames of records joined are the frames of each part joined.
proof fn lemma_record_frames_push(rs: Seq<ByteRecord>, x: ByteRecord)
    ensures
        record_frames(rs.push(x)) == record_frames(rs) + seq![(id_tag(), x.0), (input_tag(), x.1), (label_tag(), x.2)],
    decreases rs.len(),
{
    if rs.len() == 0 {
        assert(rs.push(x).drop_first() =~= Seq::<ByteRecord>::empty());
        assert(record_frames(Seq::<ByteRecord>::empty()) =~= Seq::empty());
    } else {
        assert(rs.push(x).drop_first() =~= rs.drop_first().push(x));
        lemma_record_frames_push(rs.drop_first(), x);
    }
}

/// The stream of frames joined is the streams joined.
proof fn lemma_frames_append(a: Seq<(Seq<u8>, Seq<u8>)>, b: Seq<(Seq<u8>, Seq<u8>)>)
    ensures
        frames(a + b) == frames(a) + frames(b),
    decreases a.len(),
{
    if a.len() == 0 {
        assert(a + b =~= b);
    } else {
        assert((a + b).drop_first() =~= a.drop_first() + b);
        lemma_frames_append(a.drop_first(), b);
    }
}

/// Computes the order-independent content hash of a dataset from each
/// sample's id, raw input bytes and label text: the records are sorted, each
/// field is fed to the hasher as a length-prefixed frame, and the hex digest is
/// returned.
pub fn dataset_hash(samples: &Vec<(String, Vec<u8>, String)>) -> (h: String)
    ensures
        h@ == dataset_hash_of(sample_records(samples@)),
{
    let ghost ord = record_order();
    let ghost all = sample_records(samples@);
    proof {
        lemma_record_order_total();
    }
    let mut sorted: Vec<(Vec<u8>, Vec<u8>, Vec<u8>)> = Vec::new();
    assert(records_view(sorted@) =~= all.take(0));
    let mut i: usize = 0;
    while i < samples.len()
        invariant
            i <= samples@.len(),
            all == sample_records(samples@),
            ord == record_order(),
            total_ordering(ord),
            sorted_by(records_view(sorted@), ord),
            records_view(sorted@).to_multiset() == all.take(i as int).to_multiset(),
        decreases samples@.len() - i,
    {
        let s = &samples[i];
        let x = (bytes_of(s.0.as_str().as_bytes()), bytes_of(s.1.as_slice()), bytes_of(s.2.as_str().as_bytes()));
        assert(record_view(x) == all[i as int]);
        let ghost sv = records_view(sorted@);
        let mut p: usize = 0;
        let mut past: bool = false;
        while p < sorted.len() && !past
            invariant
                p <= sorted@.len(),
                sv == records_view(sorted@),
                ord == record_order(),
                total_ordering(ord),
                forall|j: int| 0 <= j < p ==> #[trigger] ord(sv[j], record_view(x)),
                past ==> p < sv.len() && ord(record_view(x), sv[p as int]),
            decreases sorted@.len() - p + (if past { 0int } else { 1int }),
        {
            if record_le_exec(&sorted[p], &x) {
                p = p + 1;
            } else {
                proof {
                    assert(sv[p as int] == record_view(sorted@[p as int]));
                    assert(!ord(sv[p as int], record_view(x)));
                    assert(ord(sv[p as int], record_view(x)) || ord(record_view(x), sv[p as int]));
                }
                past = true;
            }
        }
        proof {
            lemma_sorted_insert(sv, p as int, record_view(x), ord);
            lemma_insert_multiset(sv, p as int, record_view(x));
            assert(all.take(i + 1) =~= all.take(i as int).push(all[i as int]));
            broadcast use vstd::seq_lib::group_to_multiset_ensures;
        }
        sorted.insert(p, x);
        assert(records_view(sorted@) =~= sv.insert(p as int, record_view(x)));
        i = i + 1;
    }
    proof {
        assert(all.take(samples@.len() as int) =~= all);
        all.lemma_sort_by_ensures(ord);
        vstd::seq_lib::lemma_sorted_unique(records_view(sorted@), all.sort_by(ord), ord);
    }
    let ghost rs = records_view(sorted@);
    let id_tag_bytes: Vec<u8> = vec![105u8, 100u8];
    let input_tag_bytes: Vec<u8> = vec![105u8, 110u8, 112u8, 117u8, 116u8];
    let label_tag_bytes: Vec<u8> = vec![108u8, 97u8, 98u8, 101u8, 108u8];
    assert(id_tag_bytes@ == id_tag());
    assert(input_tag_bytes@ == input_tag());
    assert(label_tag_bytes@ == label_tag());
    let mut hasher = ContentHasher::new();
    let mut k: usize = 0;
    while k < sorted.len()
        invariant
            k <= sorted@.len(),
            rs == records_view(sorted@),
            id_tag_bytes@ == id_tag(),
            input_tag_bytes@ == input_tag(),
            label_tag_bytes@ == label_tag(),
            hasher@ == frames(record_frames(rs.take(k as int))),
        decreases sorted@.len() - k,
    {
        let r = &sorted[k];
        let ghost before = hasher@;
        hasher.update_framed(id_tag_bytes.as_slice(), r.0.as_slice());
        hasher.update_framed(input_tag_bytes.as_slice(), r.1.as_slice());
        hasher.update_framed(label_tag_bytes.as_slice(), r.2.as_slice());
        proof {
            let x = rs[k as int];
            assert(x == record_view(sorted@[k as int]));
            assert(rs.take(k + 1) =~= rs.take(k as int).push(x));
            lemma_record_frames_push(rs.take(k as int), x);
            let three = seq![(id_tag(), x.0), (input_tag(), x.1), (label_tag(), x.2)];
            lemma_frames_append(record_frames(rs.take(k as int)), three);
            assert(three.drop_first().drop_first().drop_first() =~= Seq::<(Seq<u8>, Seq<u8>)>::empty());
            assert(frames(three) =~= frame(id_tag(), x.0) + frame(input_tag(), x.1) + frame(label_tag(), x.2)) by {
                reveal_with_fuel(frames, 4);
                assert(three.drop_first() =~= seq![(input_tag(), x.1), (label_tag(), x.2)]);
                assert(three.drop_first().drop_first() =~= seq![(label_tag(), x.2)]);
            }
            assert(hasher@ =~= before + frames(three));
        }
        k = k + 1;
    }
    assert(rs.take(sorted@.len() as int) =~= rs);
    hasher.finalize_hex()
}


/// Reproducibility metadata captured for a benchmark run.
///
/// The seed is always recorded; other fields that are empty are left out of
/// its serialized form.
#[derive(Debug, Clone, PartialEq, Eq)]
pub struct RunProvenance {
    /// Deterministic run seed.
    pub seed: u64,
    /// RNG algorithm the seed drives.
    pub rng_algorithm: String,
    /// Source-control commit the run was built from, when resolvable.
    pub git_commit: Option<String>,
    /// Version of the bench tool that produced the run.
    pub tool_version: String,
    /// Host name the run executed on.
    pub host: String,
    /// Operating system the run executed on.
    pub os: String,
    /// CPU architecture the run executed on.
    pub arch: String,
    /// Order-independent content hash of the evaluated dataset.
    pub dataset_hash: String,
    /// Dataset name from the manifest.
    pub dataset_name: String,
    /// Dataset version from the manifest.
    pub dataset_version: String,
    /// Evaluator branch names, in registration order.
    pub branches: Vec<String>,
    /// Metric names computed for the run, in suite order.
    pub metrics: Vec<String>,
    /// Judge identities for LLM-judge metrics, keyed by metric name.
    pub judges: JudgeMap,
}

impl Default for RunProvenance {
    /// A record with seed 0 and every other field empty.
    fn default() -> (p: Self)
        ensures
            p.seed == 0,
            p.rng_algorithm@ == Seq::<char>::empty(),
            p.git_commit is None,
            p.tool_version@ == Seq::<char>::empty(),
            p.host@ == Seq::<char>::empty(),
            p.os@ == Seq::<char>::empty(),
            p.arch@ == Seq::<char>::empty(),
            p.dataset_hash@ == Seq::<char>::empty(),
            p.dataset_name@ == Seq::<char>::empty(),
            p.dataset_version@ == Seq::<char>::empty(),
            p.branches@ == Seq::<String>::empty(),
            p.metrics@ == Seq::<String>::empty(),
            p.judges@ == Seq::<(Seq<char>, JudgeProvenance)>::empty(),
            p.judges.wf(),
    {
        RunProvenance {
            seed: 0,
            rng_algorithm: String::new(),
            git_commit: None,
            tool_version: String::new(),
            host: String::new(),
            os: String::new(),
            arch: String::new(),
            dataset_hash: String::new(),
            dataset_name: String::new(),
            dataset_version: String::new(),
            branches: Vec::new(),
            metrics: Vec::new(),
            judges: JudgeMap::new(),
        }
    }
}

/// Gathers host and source-control provenance for a benchmark run.
pub trait ProvenanceProbe {
    /// Source-control commit for the run, or `None` when unresolvable.
    fn git_commit(&self) -> Option<String>;
    /// Host name the run executes on.
    fn host(&self) -> String;
    /// Operating system identifier.
    fn os(&self) -> String;
    /// CPU architecture identifier.
    fn arch(&self) -> String;
}

/// Copies a string.
fn copy_string(s: &String) -> (r: String)
    ensures
        r@ == s@,
{
    s.clone()
}

/// Copies an optional string.
fn copy_option(s: &Option<String>) -> (r: Option<String>)
    ensures
        r is Some <==> s is Some,
        r matches Some(v) ==> v@ == s->Some_0@,
{
    match s {
        Some(v) => Some(v.clone()),
        None => None,
    }
}

/// Deterministic probe: reports fixed, injected values.
#[derive(Debug, Clone)]
pub struct FixedProvenanceProbe {
    git_commit: Option<String>,
    host: String,
    os: String,
    arch: String,
}

impl FixedProvenanceProbe {
    /// The commit the probe reports.
    pub closed spec fn commit_value(&self) -> Option<Seq<char>> {
        match self.git_commit {
            Some(c) => Some(c@),
            None => None,
        }
    }

    /// The host the probe reports.
    pub closed spec fn host_value(&self) -> Seq<char> {
        self.host@
    }

    /// The operating system the probe reports.
    pub closed spec fn os_value(&self) -> Seq<char> {
        self.os@
    }

    /// The architecture the probe reports.
    pub closed spec fn arch_value(&self) -> Seq<char> {
        self.arch@
    }

    /// A probe with no commit and every other value empty.
    pub fn new() -> (p: Self)
        ensures
            p.commit_value() is None,
            p.host_value() == Seq::<char>::empty(),
            p.os_value() == Seq::<char>::empty(),
            p.arch_value() == Seq::<char>::empty(),
    {
        FixedProvenanceProbe { git_commit: None, host: String::new(), os: String::new(), arch: String::new() }
    }

    /// Sets the git commit the probe reports.
    pub fn with_git_commit(self, commit: &str) -> (p: Self)
        ensures
            p.commit_value() == Some(commit@),
            p.host_value() == self.host_value(),
            p.os_value() == self.os_value(),
            p.arch_value() == self.arch_value(),
    {
        FixedProvenanceProbe { git_commit: Some(String::from_str(commit)), ..self }
    }

    /// Sets the host name the probe reports.
    pub fn with_host(self, host: &str) -> (p: Self)
        ensures
            p.commit_value() == self.commit_value(),
            p.host_value() == host@,
            p.os_value() == self.os_value(),
            p.arch_value() == self.arch_value(),
    {
        FixedProvenanceProbe { host: String::from_str(host), ..self }
    }

    /// Sets the operating system identifier the probe reports.
    pub fn with_os(self, os: &str) -> (p: Self)
        ensures
            p.commit_value() == self.commit_value(),
            p.host_value() == self.host_value(),
            p.os_value() == os@,
            p.arch_value() == self.arch_value(),
    {
        FixedProvenanceProbe { os: String::from_str(os), ..self }
    }

    /// Sets the CPU architecture identifier the probe reports.
    pub fn with_arch(self, arch: &str) -> (p: Self)
        ensures
            p.commit_value() == self.commit_value(),
            p.host_value() == self.host_value(),
            p.os_value() == self.os_value(),
            p.arch_value() == arch@,
    {
        FixedProvenanceProbe { arch: String::from_str(arch), ..self }
    }
}

impl ProvenanceProbe for FixedProvenanceProbe {
    fn git_commit(&self) -> (r: Option<String>)
        ensures
            r is Some <==> self.commit_value() is Some,
            r matches Some(c) ==> self.commit_value() == Some(c@),
    {
        copy_option(&self.git_commit)
    }

    fn host(&self) -> (r: String)
        ensures
            r@ == self.host_value(),
    {
        copy_string(&self.host)
    }

    fn os(&self) -> (r: String)
        ensures
            r@ == self.os_value(),
    {
        copy_string(&self.os)
    }

    fn arch(&self) -> (r: String)
        ensures
            r@ == self.arch_value(),
    {
        copy_string(&self.arch)
    }
}

/// The value of the first variable named `key` in an environment snapshot.
pub open spec fn env_lookup(env: Seq<(Seq<char>, Seq<char>)>, key: Seq<char>) -> Option<Seq<char>>
    decreases env.len(),
{
    if env.len() == 0 {
        None
    } else if env[0].0 == key {
        Some(env[0].1)
    } else {
        env_lookup(env.drop_first(), key)
    }
}

/// The trimmed value of the first of `keys` that is set to a value that is
/// not blank.
pub open spec fn first_non_blank(env: Seq<(Seq<char>, Seq<char>)>, keys: Seq<Seq<char>>) -> Option<Seq<char>>
    decreases keys.len(),
{
    if keys.len() == 0 {
        None
    } else {
        match env_lookup(env, keys[0]) {
            Some(v) if trim_seq(v).len() > 0 => Some(trim_seq(v)),
            _ => first_non_blank(env, keys.drop_first()),
        }
    }
}

/// Environment variables inspected, in precedence order, for the run commit.
pub open spec fn commit_vars() -> Seq<Seq<char>> {
    seq!["GITHUB_SHA"@, "GIT_COMMIT"@, "CI_COMMIT_SHA"@, "SOURCE_COMMIT"@]
}

/// Environment variables inspected, in precedence order, for the host name.
pub open spec fn host_vars() -> Seq<Seq<char>> {
    seq!["HOSTNAME"@, "COMPUTERNAME"@, "HOST"@]
}

/// Default probe over a snapshot of the process environment: the commit comes
/// from well-known CI variables, the host from the usual host-name variables
/// (or `unknown`), and the operating system and architecture as given.
#[derive(Debug, Clone)]
pub struct SystemProvenanceProbe {
    env: Vec<(String, String)>,
    os: String,
    arch: String,
}

impl SystemProvenanceProbe {
    /// The environment snapshot, as `(name, value)` pairs.
    pub closed spec fn env_value(&self) -> Seq<(Seq<char>, Seq<char>)> {
        self.env@.map_values(|e: (String, String)| (e.0@, e.1@))
    }

    pub closed spec fn os_value(&self) -> Seq<char> {
        self.os@
    }

    pub closed spec fn arch_value(&self) -> Seq<char> {
        self.arch@
    }

    /// A probe over the given environment variables, operating system and
    /// architecture identifiers.
    pub fn from_environment(env: Vec<(String, String)>, os: &str, arch: &str) -> (p: Self)
        ensures
            p.env_value() == env@.map_values(|e: (String, String)| (e.0@, e.1@)),
            p.os_value() == os@,
            p.arch_value() == arch@,
    {
        SystemProvenanceProbe { env, os: String::from_str(os), arch: String::from_str(arch) }
    }

    /// The value of the variable named `key`.
    fn lookup(&self, key: &str) -> (r: Option<&String>)
        ensures
            env_lookup(self.env_value(), key@) == match r {
                Some(v) => Some(v@),
                None => None::<Seq<char>>,
            },
    {
        let k = chars_of(key);
        let ghost ev = self.env_value();
        let mut i: usize = 0;
        assert(ev.skip(0) =~= ev);
        while i < self.env.len()
            invariant
                i <= self.env@.len(),
                ev == self.env_value(),
                ev.len() == self.env@.len(),
                k@ == key@,
                env_lookup(ev, key@) == env_lookup(ev.skip(i as int), key@),
            decreases self.env@.len() - i,
        {
            let name = chars_of(self.env[i].0.as_str());
            assert(ev.skip(i as int)[0] == ev[i as int]);
            assert(ev.skip(i as int).drop_first() =~= ev.skip(i + 1));
            if crate::text::chars_eq(&name, &k) {
                return Some(&self.env[i].1);
            }
            i = i + 1;
        }
        assert(ev.skip(i as int) =~= Seq::<(Seq<char>, Seq<char>)>::empty());
        None
    }

    /// The trimmed value of the first of `keys` that is set and not blank.
    fn first_non_blank(&self, keys: &Vec<&str>) -> (r: Option<String>)
        ensures
            first_non_blank(self.env_value(), keys@.map_values(|k: &str| k@)) == match r {
                Some(v) => Some(v@),
                None => None::<Seq<char>>,
            },
    {
        let ghost ks = keys@.map_values(|k: &str| k@);
        let mut i: usize = 0;
        assert(ks.skip(0) =~= ks);
        while i < keys.len()
            invariant
                i <= keys@.len(),
                ks == keys@.map_values(|k: &str| k@),
                first_non_blank(self.env_value(), ks) == first_non_blank(self.env_value(), ks.skip(i as int)),
            decreases keys@.len() - i,
        {
            assert(ks.skip(i as int)[0] == keys@[i as int]@);
            assert(ks.skip(i as int).drop_first() =~= ks.skip(i + 1));
            if let Some(v) = self.lookup(keys[i]) {
                let t = trim_chars(&chars_of(v.as_str()));
                if t.len() > 0 {
                    return Some(string_of(&t));
                }
            }
            i = i + 1;
        }
        assert(ks.skip(i as int) =~= Seq::<Seq<char>>::empty());
        None
    }
}

impl ProvenanceProbe for SystemProvenanceProbe {
    fn git_commit(&self) -> (r: Option<String>)
        ensures
            first_non_blank(self.env_value(), commit_vars()) == match r {
                Some(v) => Some(v@),
                None => None::<Seq<char>>,
            },
    {
        let keys: Vec<&str> = vec!["GITHUB_SHA", "GIT_COMMIT", "CI_COMMIT_SHA", "SOURCE_COMMIT"];
        assert(keys@.map_values(|k: &str| k@) =~= commit_vars());
        self.first_non_blank(&keys)
    }

    fn host(&self) -> (r: String)
        ensures
            r@ == match first_non_blank(self.env_value(), host_vars()) {
                Some(v) => v,
                None => "unknown"@,
            },
    {
        let keys: Vec<&str> = vec!["HOSTNAME", "COMPUTERNAME", "HOST"];
        assert(keys@.map_values(|k: &str| k@) =~= host_vars());
        match self.first_non_blank(&keys) {
            Some(h) => h,
            None => String::from_str("unknown"),
        }
    }

    fn os(&self) -> (r: String)
        ensures
            r@ == self.os_value(),
    {
        copy_string(&self.os)
    }

    fn arch(&self) -> (r: String)
        ensures
            r@ == self.arch_value(),
    {
        copy_string(&self.arch)
    }
}

} // verus!
