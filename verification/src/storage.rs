//! Storage of run results: listing options, result file naming and the
//! selection of stored runs for a listing.

use vstd::prelude::*;
use crate::error::{BenchError, ErrorCode};
use crate::order::{Cmp, char_codes, compare_chars, lex_le, lex_lt, lemma_lex_antisymmetric, lemma_lex_transitive};
use crate::text::{chars_eq, chars_of, push_str_of};

verus! {

/// Options for listing stored results.
#[derive(Debug, Clone, PartialEq, Eq)]
pub struct ListOptions {
    /// Largest number of runs listed; 0 lists all.
    pub limit: usize,
    /// Only runs with this tag, when set.
    pub tag: Option<String>,
    /// Only runs of this dataset, when set.
    pub dataset: Option<String>,
}

impl Default for ListOptions {
    /// At most 100 runs, with no tag or dataset filter.
    fn default() -> (o: Self)
        ensures
            o.limit == 100,
            o.tag is None,
            o.dataset is None,
    {
        ListOptions { limit: 100, tag: None, dataset: None }
    }
}

impl ListOptions {
    /// Sets the largest number of runs listed.
    pub fn with_limit(self, n: usize) -> (o: Self)
        ensures
            o.limit == n,
            o.tag == self.tag,
            o.dataset == self.dataset,
    {
        ListOptions { limit: n, ..self }
    }

    /// Lists only runs with this tag.
    pub fn with_tag(self, tag: &str) -> (o: Self)
        ensures
            o.limit == self.limit,
            o.tag matches Some(t) && t@ == tag@,
            o.dataset == self.dataset,
    {
        ListOptions { tag: Some(String::from_str(tag)), ..self }
    }

    /// Lists only runs of this dataset.
    pub fn with_dataset(self, dataset: &str) -> (o: Self)
        ensures
            o.limit == self.limit,
            o.tag == self.tag,
            o.dataset matches Some(d) && d@ == dataset@,
    {
        ListOptions { dataset: Some(String::from_str(dataset)), ..self }
    }
}

/// File-based storage of run results under one directory.
#[derive(Debug, Clone, PartialEq, Eq)]
pub struct FileRunStorage {
    dir: String,
}

/// Whether a run id contains a path separator.
pub open spec fn has_path_separator(run_id: Seq<char>) -> bool {
    exists|i: int| 0 <= i < run_id.len() && (#[trigger] run_id[i] == '/' || run_id[i] == '\\')
}

impl FileRunStorage {
    /// The storage directory.
    pub closed spec fn dir_value(&self) -> Seq<char> {
        self.dir@
    }

    /// Storage under directory `dir`.
    pub fn new(dir: &str) -> (s: Self)
        ensures
            s.dir_value() == dir@,
    {
        FileRunStorage { dir: String::from_str(dir) }
    }

    /// The storage directory.
    pub fn dir(&self) -> (d: &str)
        ensures
            d@ == self.dir_value(),
    {
        self.dir.as_str()
    }
}

/// The name of the file holding a run's result, `<run_id>.json`; a run id with
/// a path separator (`/` or `\`) is rejected so it cannot name a file outside
/// the storage directory.
pub fn run_file_name(run_id: &str) -> (r: Result<String, BenchError>)
    ensures
        r is Err <==> has_path_separator(run_id@),
        r matches Ok(n) ==> n@ == run_id@ + ".json"@,
        r matches Err(e) ==> e.code == ErrorCode::InvalidInput && e.message@
            == "run id must not contain path separators: "@ + run_id@,
{
    let v = chars_of(run_id);
    let mut i: usize = 0;
    while i < v.len()
        invariant
            i <= v@.len(),
            v@ == run_id@,
            forall|j: int| 0 <= j < i ==> !(#[trigger] v@[j] == '/' || v@[j] == '\\'),
        decreases v@.len() - i,
    {
        if v[i] == '/' || v[i] == '\\' {
            assert(v@[i as int] == '/' || v@[i as int] == '\\');
            let mut m = String::new();
            push_str_of(&mut m, "run id must not contain path separators: ");
            push_str_of(&mut m, run_id);
            return Err(BenchError::new(ErrorCode::InvalidInput, m.as_str()));
        }
        i = i + 1;
    }
    let mut name = String::new();
    push_str_of(&mut name, run_id);
    push_str_of(&mut name, ".json");
    assert(name@ =~= run_id@ + ".json"@);
    Ok(name)
}

/// What a listing needs of one stored run.
#[derive(Debug, Clone, PartialEq, Eq)]
pub struct RunEntry {
    /// Run identifier.
    pub id: String,
    /// When the run executed (ISO 8601, so text order is time order).
    pub timestamp: String,
    /// User tag of the run.
    pub tag: String,
    /// Dataset name of the run.
    pub dataset: String,
}

/// Whether a run passes the tag and dataset filters of a listing.
pub open spec fn passes(e: RunEntry, opts: ListOptions) -> bool {
    (match opts.tag {
        Some(t) => e.tag@ == t@,
        None => true,
    }) && (match opts.dataset {
        Some(d) => e.dataset@ == d@,
        None => true,
    })
}

/// The timestamp of run `i`, by code points.
pub open spec fn stamp(entries: Seq<RunEntry>, i: int) -> Seq<int> {
    char_codes(entries[i].timestamp@)
}

/// Run `a` is listed before run `b`: it is newer, or as new and stored earlier.
pub open spec fn listed_before(entries: Seq<RunEntry>, a: int, b: int) -> bool {
    lex_lt(stamp(entries, b), stamp(entries, a)) || (stamp(entries, a) == stamp(entries, b) && a < b)
}

/// A listing in order: each run listed before the next.
pub open spec fn in_listing_order(entries: Seq<RunEntry>, out: Seq<usize>) -> bool {
    forall|a: int, b: int| 0 <= a < b < out.len() ==> listed_before(entries, #[trigger] out[a] as int, #[trigger] out[b] as int)
}

/// A run listed before another is at least as new.
proof fn lemma_listed_not_older(entries: Seq<RunEntry>, a: int, b: int)
    requires
        listed_before(entries, a, b),
    ensures
        lex_le(stamp(entries, b), stamp(entries, a)),
{
    if stamp(entries, a) == stamp(entries, b) {
        crate::order::lemma_lex_reflexive(stamp(entries, a));
    }
}

/// The runs of a listing, as positions in `entries`: those passing the tag and
/// dataset filters, newest first (runs with equal timestamps in stored order),
/// cut to the first `limit` when `limit` is not 0.
pub fn select_runs(entries: &Vec<RunEntry>, opts: &ListOptions) -> (r: Vec<usize>)
    ensures
        forall|k: int| 0 <= k < r@.len() ==> (#[trigger] r@[k]) < entries@.len() && passes(entries@[r@[k] as int], *opts),
        in_listing_order(entries@, r@),
        opts.limit > 0 ==> r@.len() <= opts.limit,
        forall|i: int| 0 <= i < entries@.len() && passes(entries@[i], *opts) && !r@.contains(i as usize) ==>
            opts.limit > 0 && r@.len() == opts.limit && listed_before(entries@, r@.last() as int, i),
{
    let ghost es = entries@;
    let mut out: Vec<usize> = Vec::new();
    let mut i: usize = 0;
    while i < entries.len()
        invariant
            i <= es.len(),
            es == entries@,
            forall|k: int| 0 <= k < out@.len() ==> (#[trigger] out@[k]) < i && passes(es[out@[k] as int], *opts),
            in_listing_order(es, out@),
            forall|j: int| 0 <= j < i && passes(es[j], *opts) ==> out@.contains(j as usize),
        decreases es.len() - i,
    {
        let e = &entries[i];
        let tag_ok = match &opts.tag {
            Some(t) => chars_eq(&chars_of(e.tag.as_str()), &chars_of(t.as_str())),
            None => true,
        };
        let ds_ok = match &opts.dataset {
            Some(d) => chars_eq(&chars_of(e.dataset.as_str()), &chars_of(d.as_str())),
            None => true,
        };
        let ghost before = out@;
        let ghost pos: int = 0;
        if tag_ok && ds_ok {
            assert(passes(es[i as int], *opts));
            let ts = chars_of(e.timestamp.as_str());
            let ghost old_out = out@;
            let mut p: usize = 0;
            let mut past: bool = false;
            while p < out.len() && !past
                invariant
                    p <= out@.len(),
                    out@ == old_out,
                    es == entries@,
                    i < es.len(),
                    ts@ == es[i as int].timestamp@,
                    forall|k: int| 0 <= k < out@.len() ==> (#[trigger] out@[k]) < i,
                    forall|k: int| 0 <= k < p ==> lex_le(stamp(es, i as int), stamp(es, #[trigger] out@[k] as int)),
                    past ==> p < out@.len() && lex_lt(stamp(es, out@[p as int] as int), stamp(es, i as int)),
                decreases out@.len() - p + (if past { 0int } else { 1int }),
            {
                let q = out[p];
                let other = chars_of(entries[q].timestamp.as_str());
                match compare_chars(&other, &ts) {
                    Cmp::Less => {
                        past = true;
                    },
                    Cmp::Equal => {
                        proof {
                            crate::order::lemma_lex_reflexive(stamp(es, i as int));
                        }
                        p = p + 1;
                    },
                    Cmp::Greater => {
                        p = p + 1;
                    },
                }
            }
            proof {
                lemma_listing_insert(es, old_out, p as int, i);
                pos = p as int;
            }
            out.insert(p, i);
            proof {
                assert forall|j: int| 0 <= j < i + 1 && passes(es[j], *opts) implies out@.contains(j as usize) by {
                    if j < i {
                        let k = choose|k: int| 0 <= k < before.len() && before[k] == j as usize;
                        if k < pos {
                            assert(out@[k] == j as usize);
                        } else {
                            assert(out@[k + 1] == j as usize);
                        }
                    } else {
                        assert(out@[pos] == i);
                    }
                }
                assert forall|k: int| 0 <= k < out@.len() implies (#[trigger] out@[k]) < i + 1 && passes(es[out@[k] as int], *opts) by {
                    if k < pos {
                        assert(out@[k] == before[k]);
                    } else if k > pos {
                        assert(out@[k] == before[k - 1]);
                    }
                }
            }
        } else {
            proof {
                assert forall|j: int| 0 <= j < i + 1 && passes(es[j], *opts) implies out@.contains(j as usize) by {
                    if j == i {
                        assert(passes(es[i as int], *opts));
                    }
                }
            }
        }
        i = i + 1;
    }
    let ghost full = out@;
    if opts.limit > 0 && out.len() > opts.limit {
        out.truncate(opts.limit);
    }
    proof {
        assert forall|j: int| 0 <= j < es.len() && passes(es[j], *opts) && !out@.contains(j as usize) implies
            opts.limit > 0 && out@.len() == opts.limit && listed_before(es, out@.last() as int, j) by {
            let k = choose|k: int| 0 <= k < full.len() && full[k] == j as usize;
            if k < out@.len() {
                assert(out@[k] == full[k]);
            }
            assert(out@.last() == full[opts.limit - 1]);
            assert(listed_before(es, full[opts.limit - 1] as int, full[k] as int));
        }
    }
    out
}

/// Inserting a run newer than the runs after it and not newer than the runs
/// before it keeps a listing in order.
proof fn lemma_listing_insert(es: Seq<RunEntry>, out: Seq<usize>, p: int, i: usize)
    requires
        0 <= p <= out.len(),
        in_listing_order(es, out),
        forall|k: int| 0 <= k < out.len() ==> (#[trigger] out[k]) < i,
        forall|k: int| 0 <= k < p ==> lex_le(stamp(es, i as int), stamp(es, #[trigger] out[k] as int)),
        p < out.len() ==> lex_lt(stamp(es, out[p] as int), stamp(es, i as int)),
    ensures
        in_listing_order(es, out.insert(p, i)),
{
    let t = out.insert(p, i);
    assert forall|a: int, b: int| 0 <= a < b < t.len() implies listed_before(es, #[trigger] t[a] as int, #[trigger] t[b] as int) by {
        if b < p {
            assert(t[a] == out[a] && t[b] == out[b]);
        } else if b == p {
            assert(t[a] == out[a]);
            assert(lex_le(stamp(es, i as int), stamp(es, out[a] as int)));
            assert(out[a] < i);
        } else if a < p {
            assert(t[a] == out[a] && t[b] == out[b - 1]);
        } else if a == p {
            assert(t[b] == out[b - 1]);
            let x = out[p] as int;
            let y = out[b - 1] as int;
            if b - 1 > p {
                lemma_listed_not_older(es, x, y);
                lemma_lex_transitive(stamp(es, y), stamp(es, x), stamp(es, i as int));
                if stamp(es, y) == stamp(es, i as int) {
                    lemma_lex_antisymmetric(stamp(es, x), stamp(es, i as int));
                }
            }
        } else {
            assert(t[a] == out[a - 1] && t[b] == out[b - 1]);
        }
    }
}

} // verus!
