//! Decisions of a benchmark run: the label distribution of a dataset, the
//! submission window of a branch, the tally of its outcomes and the worker
//! pool plan.

use vstd::prelude::*;
use crate::order::{Cmp, char_codes, compare_chars, lex_lt};
use crate::error::{context_message, BenchError, ErrorCode};
use crate::text::{chars_of, decimal, push_decimal, push_str_of};

verus! {

/// How many times `label` occurs in `labels`.
pub open spec fn occurrences(labels: Seq<Seq<char>>, label: Seq<char>) -> nat
    decreases labels.len(),
{
    if labels.len() == 0 {
        0
    } else {
        occurrences(labels.drop_last(), label) + if labels.last() == label { 1nat } else { 0nat }
    }
}

/// Labels in strictly increasing order (by code point).
pub open spec fn labels_increasing(d: Seq<(Seq<char>, nat)>) -> bool {
    forall|i: int, j: int| 0 <= i < j < d.len() ==> lex_lt(char_codes(#[trigger] d[i].0), char_codes(#[trigger] d[j].0))
}

/// A label distribution of `labels`: each distinct label once, in increasing
/// order, with the number of its occurrences.
pub open spec fn is_distribution(d: Seq<(Seq<char>, nat)>, labels: Seq<Seq<char>>) -> bool {
    &&& labels_increasing(d)
    &&& forall|i: int| 0 <= i < d.len() ==> (#[trigger] d[i]).1 == occurrences(labels, d[i].0) && d[i].1 > 0
    &&& forall|l: Seq<char>| occurrences(labels, l) > 0 ==> exists|i: int| 0 <= i < d.len() && (#[trigger] d[i]).0 == l
}

pub open spec fn dist_view(d: Seq<(String, usize)>) -> Seq<(Seq<char>, nat)> {
    d.map_values(|e: (String, usize)| (e.0@, e.1 as nat))
}

proof fn lemma_occurrences_push(labels: Seq<Seq<char>>, x: Seq<char>, l: Seq<char>)
    ensures
        occurrences(labels.push(x), l) == occurrences(labels, l) + if x == l { 1nat } else { 0nat },
{
    assert(labels.push(x).drop_last() =~= labels);
}

proof fn lemma_occurrences_bound(labels: Seq<Seq<char>>, l: Seq<char>)
    ensures
        occurrences(labels, l) <= labels.len(),
    decreases labels.len(),
{
    if labels.len() > 0 {
        lemma_occurrences_bound(labels.drop_last(), l);
    }
}

/// Counts each label: the distinct labels in increasing order, each with the
/// number of samples that carry it.
pub fn label_distribution(labels: &Vec<String>) -> (d: Vec<(String, usize)>)
    ensures
        is_distribution(dist_view(d@), labels@.map_values(|l: String| l@)),
{
    let ghost all = labels@.map_values(|l: String| l@);
    let mut d: Vec<(String, usize)> = Vec::new();
    let mut i: usize = 0;
    assert(dist_view(d@) =~= Seq::<(Seq<char>, nat)>::empty());
    while i < labels.len()
        invariant
            i <= all.len(),
            all == labels@.map_values(|l: String| l@),
            is_distribution(dist_view(d@), all.take(i as int)),
        decreases all.len() - i,
    {
        let ghost before = all.take(i as int);
        let ghost now = all.take(i + 1);
        assert(now =~= before.push(all[i as int]));
        let x = chars_of(labels[i].as_str());
        assert(x@ == all[i as int]);
        proof {
            lemma_occurrences_bound(before, x@);
        }
        let ghost dv = dist_view(d@);
        let mut p: usize = 0;
        let mut found: bool = false;
        let mut past: bool = false;
        while p < d.len() && !found && !past
            invariant
                p <= d@.len(),
                dv == dist_view(d@),
                x@ == all[i as int],
                !found && !past ==> forall|j: int| 0 <= j < p ==> lex_lt(char_codes(#[trigger] dv[j].0), char_codes(x@)),
                found ==> p < d@.len() && dv[p as int].0 == x@,
                past ==> p < d@.len() && lex_lt(char_codes(x@), char_codes(dv[p as int].0))
                    && forall|j: int| 0 <= j < p ==> lex_lt(char_codes(#[trigger] dv[j].0), char_codes(x@)),
            decreases d@.len() - p + (if found || past { 0int } else { 1int }),
        {
            let c = chars_of(d[p].0.as_str());
            assert(dv[p as int].0 == c@);
            match compare_chars(&c, &x) {
                Cmp::Less => {
                    p = p + 1;
                },
                Cmp::Equal => {
                    found = true;
                },
                Cmp::Greater => {
                    past = true;
                },
            }
        }
        if found {
            let n = d[p].1;
            proof {
                assert(dv[p as int].1 == occurrences(before, x@));
            }
            let key = d[p].0.clone();
            d.set(p, (key, n + 1));
            proof {
                let nv = dist_view(d@);
                assert(nv =~= dv.update(p as int, (x@, (n + 1) as nat)));
                assert forall|l: Seq<char>| #[trigger] occurrences(now, l) == occurrences(before, l) + if all[i as int] == l { 1nat } else { 0nat } by {
                    lemma_occurrences_push(before, all[i as int], l);
                }
                assert(labels_increasing(nv)) by {
                    assert forall|a: int, b: int| 0 <= a < b < nv.len() implies lex_lt(char_codes(#[trigger] nv[a].0), char_codes(#[trigger] nv[b].0)) by {
                        assert(nv[a].0 == dv[a].0 && nv[b].0 == dv[b].0);
                    }
                }
                assert forall|j: int| 0 <= j < nv.len() implies (#[trigger] nv[j]).1 == occurrences(now, nv[j].0) && nv[j].1 > 0 by {
                    if j != p {
                        assert(nv[j] == dv[j]);
                        assert(dv[j].0 != x@) by {
                            if dv[j].0 == x@ {
                                if j < p {
                                    assert(lex_lt(char_codes(dv[j].0), char_codes(dv[p as int].0)));
                                } else {
                                    assert(lex_lt(char_codes(dv[p as int].0), char_codes(dv[j].0)));
                                }
                            }
                        }
                    }
                }
                assert forall|l: Seq<char>| occurrences(now, l) > 0 implies exists|j: int| 0 <= j < nv.len() && (#[trigger] nv[j]).0 == l by {
                    if l == x@ {
                        assert(nv[p as int].0 == l);
                    } else {
                        let j = choose|j: int| 0 <= j < dv.len() && (#[trigger] dv[j]).0 == l;
                        assert(nv[j].0 == l);
                    }
                }
            }
        } else {
            let key = crate::text::string_of(&x);
            d.insert(p, (key, 1));
            proof {
                let nv = dist_view(d@);
                assert(nv =~= dv.insert(p as int, (x@, 1nat)));
                assert forall|l: Seq<char>| #[trigger] occurrences(now, l) == occurrences(before, l) + if all[i as int] == l { 1nat } else { 0nat } by {
                    lemma_occurrences_push(before, all[i as int], l);
                }
                assert(forall|j: int| 0 <= j < dv.len() ==> #[trigger] dv[j].0 != x@) by {
                    assert forall|j: int| 0 <= j < dv.len() implies #[trigger] dv[j].0 != x@ by {
                        if j < p {
                            assert(lex_lt(char_codes(dv[j].0), char_codes(x@)));
                        } else if past {
                            if j > p {
                                assert(lex_lt(char_codes(dv[p as int].0), char_codes(dv[j].0)));
                                crate::provenance::lemma_lt_transitive(char_codes(x@), char_codes(dv[p as int].0), char_codes(dv[j].0));
                            }
                        }
                    }
                }
                assert(occurrences(before, x@) == 0) by {
                    if occurrences(before, x@) > 0 {
                        let j = choose|j: int| 0 <= j < dv.len() && (#[trigger] dv[j]).0 == x@;
                    }
                }
                assert(labels_increasing(nv)) by {
                    assert forall|a: int, b: int| 0 <= a < b < nv.len() implies lex_lt(char_codes(#[trigger] nv[a].0), char_codes(#[trigger] nv[b].0)) by {
                        if b < p {
                            assert(nv[a] == dv[a] && nv[b] == dv[b]);
                        } else if b == p {
                            assert(nv[a] == dv[a]);
                        } else if a < p {
                            assert(nv[a] == dv[a] && nv[b] == dv[b - 1]);
                        } else if a == p {
                            assert(nv[b] == dv[b - 1]);
                            if b - 1 > p {
                                crate::provenance::lemma_lt_transitive(char_codes(x@), char_codes(dv[p as int].0), char_codes(dv[b - 1].0));
                            }
                        } else {
                            assert(nv[a] == dv[a - 1] && nv[b] == dv[b - 1]);
                        }
                    }
                }
                assert forall|j: int| 0 <= j < nv.len() implies (#[trigger] nv[j]).1 == occurrences(now, nv[j].0) && nv[j].1 > 0 by {
                    if j < p {
                        assert(nv[j] == dv[j]);
                    } else if j > p {
                        assert(nv[j] == dv[j - 1]);
                    }
                }
                assert forall|l: Seq<char>| occurrences(now, l) > 0 implies exists|j: int| 0 <= j < nv.len() && (#[trigger] nv[j]).0 == l by {
                    if l == x@ {
                        assert(nv[p as int].0 == l);
                    } else {
                        let j = choose|j: int| 0 <= j < dv.len() && (#[trigger] dv[j]).0 == l;
                        if j < p {
                            assert(nv[j].0 == l);
                        } else {
                            assert(nv[j + 1].0 == l);
                        }
                    }
                }
            }
        }
        i = i + 1;
    }
    assert(all.take(all.len() as int) =~= all);
    d
}

proof fn lemma_occurrences_member(labels: Seq<Seq<char>>, l: Seq<char>)
    ensures
        occurrences(labels, l) > 0 <==> exists|i: int| 0 <= i < labels.len() && labels[i] == l,
    decreases labels.len(),
{
    if labels.len() > 0 {
        let rest = labels.drop_last();
        lemma_occurrences_member(rest, l);
        if exists|i: int| 0 <= i < labels.len() && labels[i] == l {
            let i = choose|i: int| 0 <= i < labels.len() && labels[i] == l;
            if i < labels.len() - 1 {
                assert(rest[i] == l);
            }
        }
        if exists|i: int| 0 <= i < rest.len() && rest[i] == l {
            let i = choose|i: int| 0 <= i < rest.len() && rest[i] == l;
            assert(labels[i] == l);
        }
    }
}

/// Whether some string of `v` is `k`.
pub open spec fn has_key(v: Seq<String>, k: Seq<char>) -> bool {
    exists|i: int| 0 <= i < v.len() && #[trigger] v[i]@ == k
}

/// The distinct keys among `keys`, each once, in increasing order (by code
/// point): the columns and rows of a report table.
pub fn ordered_keys(keys: &Vec<String>) -> (r: Vec<String>)
    ensures
        forall|i: int, j: int| 0 <= i < j < r@.len() ==> lex_lt(char_codes(#[trigger] r@[i]@), char_codes(#[trigger] r@[j]@)),
        forall|k: Seq<char>|
            #![trigger has_key(r@, k)]
            #![trigger has_key(keys@, k)]
            has_key(r@, k) <==> has_key(keys@, k),
{
    let d = label_distribution(keys);
    let ghost all = keys@.map_values(|l: String| l@);
    let ghost dv = dist_view(d@);
    let mut r: Vec<String> = Vec::new();
    let mut i: usize = 0;
    while i < d.len()
        invariant
            i <= d@.len(),
            dv == dist_view(d@),
            r@.len() == i,
            forall|j: int| 0 <= j < i ==> #[trigger] r@[j]@ == dv[j].0,
        decreases d@.len() - i,
    {
        r.push(d[i].0.clone());
        i = i + 1;
    }
    proof {
        assert forall|a: int, b: int| 0 <= a < b < r@.len() implies lex_lt(char_codes(#[trigger] r@[a]@), char_codes(#[trigger] r@[b]@)) by {
            assert(r@[a]@ == dv[a].0 && r@[b]@ == dv[b].0);
        }
        assert forall|k: Seq<char>| has_key(r@, k) <==> has_key(keys@, k) by {
            lemma_occurrences_member(all, k);
            if exists|i: int| 0 <= i < r@.len() && #[trigger] r@[i]@ == k {
                let i = choose|i: int| 0 <= i < r@.len() && #[trigger] r@[i]@ == k;
                assert(dv[i].0 == k);
                assert(dv[i].1 > 0);
                let j = choose|j: int| 0 <= j < all.len() && all[j] == k;
                assert(keys@[j]@ == k);
            }
            if exists|i: int| 0 <= i < keys@.len() && #[trigger] keys@[i]@ == k {
                let i = choose|i: int| 0 <= i < keys@.len() && #[trigger] keys@[i]@ == k;
                assert(all[i] == k);
                let j = choose|j: int| 0 <= j < dv.len() && (#[trigger] dv[j]).0 == k;
                assert(r@[j]@ == k);
            }
        }
    }
    r
}

/// The outcome of evaluating one sample in a branch.
#[derive(Debug, Clone, Copy, PartialEq, Eq, Structural)]
pub enum SampleOutcome {
    /// The prediction matched the label.
    Correct,
    /// The prediction did not match the label.
    Incorrect,
    /// The evaluation failed (error, timeout or worker fault).
    Failed,
}

/// Running counts of a branch's outcomes.
#[derive(Debug, Clone, Copy, PartialEq, Eq, Structural)]
pub struct BranchTally {
    /// Samples predicted correctly.
    pub correct: u64,
    /// Samples predicted incorrectly.
    pub incorrect: u64,
    /// Samples whose evaluation failed.
    pub errors: u64,
}

impl BranchTally {
    /// A tally of no outcomes.
    pub fn new() -> (t: Self)
        ensures
            t.correct == 0 && t.incorrect == 0 && t.errors == 0,
    {
        BranchTally { correct: 0, incorrect: 0, errors: 0 }
    }

    /// Counts one outcome.
    pub fn record(&mut self, outcome: SampleOutcome)
        requires
            old(self).correct + old(self).incorrect + old(self).errors < u64::MAX,
        ensures
            final(self).correct == old(self).correct + if outcome == SampleOutcome::Correct { 1int } else { 0int },
            final(self).incorrect == old(self).incorrect + if outcome == SampleOutcome::Incorrect { 1int } else { 0int },
            final(self).errors == old(self).errors + if outcome == SampleOutcome::Failed { 1int } else { 0int },
    {
        match outcome {
            SampleOutcome::Correct => self.correct = self.correct + 1,
            SampleOutcome::Incorrect => self.incorrect = self.incorrect + 1,
            SampleOutcome::Failed => self.errors = self.errors + 1,
        }
    }

    /// Number of samples counted.
    pub fn total(&self) -> (n: u64)
        requires
            self.correct + self.incorrect + self.errors <= u64::MAX,
        ensures
            n == self.correct + self.incorrect + self.errors,
    {
        self.correct + self.incorrect + self.errors
    }
}

/// The tally of a sequence of outcomes.
pub open spec fn tally_of(outcomes: Seq<SampleOutcome>) -> (nat, nat, nat)
    decreases outcomes.len(),
{
    if outcomes.len() == 0 {
        (0, 0, 0)
    } else {
        let (c, i, e) = tally_of(outcomes.drop_last());
        match outcomes.last() {
            SampleOutcome::Correct => (c + 1, i, e),
            SampleOutcome::Incorrect => (c, i + 1, e),
            SampleOutcome::Failed => (c, i, e + 1),
        }
    }
}

/// Every outcome is counted exactly once: the three counts add up to the
/// number of samples.
pub proof fn tally_counts_every_outcome(outcomes: Seq<SampleOutcome>)
    ensures
        tally_of(outcomes).0 + tally_of(outcomes).1 + tally_of(outcomes).2 == outcomes.len(),
    decreases outcomes.len(),
{
    if outcomes.len() > 0 {
        tally_counts_every_outcome(outcomes.drop_last());
    }
}

/// Tallies the outcomes of a branch.
pub fn tally_outcomes(outcomes: &Vec<SampleOutcome>) -> (t: BranchTally)
    ensures
        (t.correct as nat, t.incorrect as nat, t.errors as nat) == tally_of(outcomes@),
{
    let mut t = BranchTally::new();
    let mut i: usize = 0;
    while i < outcomes.len()
        invariant
            i <= outcomes@.len(),
            (t.correct as nat, t.incorrect as nat, t.errors as nat) == tally_of(outcomes@.take(i as int)),
        decreases outcomes@.len() - i,
    {
        proof {
            tally_counts_every_outcome(outcomes@.take(i as int));
            assert(outcomes@.take(i + 1).drop_last() =~= outcomes@.take(i as int));
        }
        t.record(outcomes[i]);
        i = i + 1;
    }
    assert(outcomes@.take(outcomes@.len() as int) =~= outcomes@);
    t
}

/// What a branch does next with its submission window.
#[derive(Debug, Clone, Copy, PartialEq, Eq, Structural)]
pub enum WindowAction {
    /// Submit the next sample.
    Submit,
    /// Wait for an in-flight evaluation to finish.
    Wait,
    /// Every sample has been evaluated.
    Done,
}

/// The effective concurrency: at least one evaluation in flight.
pub open spec fn effective(concurrency: usize) -> usize {
    if concurrency == 0 { 1 } else { concurrency }
}

/// Decides the next step of a branch: submit while fewer than the effective
/// concurrency are in flight and samples remain, otherwise wait for one in
/// flight, and finish when none is.
pub fn next_window_action(in_flight: usize, concurrency: usize, samples_left: bool) -> (a: WindowAction)
    ensures
        a == (if in_flight < effective(concurrency) && samples_left {
            WindowAction::Submit
        } else if in_flight > 0 {
            WindowAction::Wait
        } else {
            WindowAction::Done
        }),
{
    let limit = effective_concurrency(concurrency);
    if in_flight < limit && samples_left {
        WindowAction::Submit
    } else if in_flight > 0 {
        WindowAction::Wait
    } else {
        WindowAction::Done
    }
}

/// The window never holds more evaluations than the effective concurrency:
/// from a window within the limit, a submission keeps it within the limit.
pub proof fn window_stays_bounded(in_flight: usize, concurrency: usize, samples_left: bool)
    requires
        in_flight <= effective(concurrency),
        (if in_flight < effective(concurrency) && samples_left {
            WindowAction::Submit
        } else if in_flight > 0 {
            WindowAction::Wait
        } else {
            WindowAction::Done
        }) == WindowAction::Submit,
    ensures
        in_flight + 1 <= effective(concurrency),
{
}

/// At least one evaluation in flight.
pub fn effective_concurrency(concurrency: usize) -> (n: usize)
    ensures
        n == effective(concurrency),
        n >= 1,
{
    if concurrency == 0 { 1 } else { concurrency }
}

/// The worker pool name of a run with this tag: `bench-<tag>`.
pub fn pool_name(tag: &str) -> (n: String)
    ensures
        n@ == "bench-"@ + tag@,
{
    let mut n = String::new();
    push_str_of(&mut n, "bench-");
    push_str_of(&mut n, tag);
    n
}

/// Milliseconds from `start` to `now`, 0 if the clock went backwards.
pub fn elapsed_millis(start: u64, now: u64) -> (ms: u64)
    ensures
        ms == if now >= start { (now - start) as u64 } else { 0u64 },
{
    if now >= start { now - start } else { 0 }
}

/// The identifying fields of a sample, kept so a worker failure can still be
/// reported after the sample has been handed to the pool.
#[derive(Debug, Clone, PartialEq, Eq)]
pub struct SampleFailureContext {
    /// Sample id.
    pub id: String,
    /// The sample's label text.
    pub label: String,
}

impl SampleFailureContext {
    /// The context of a sample with this id and label text.
    pub fn from_sample(id: &str, label: &str) -> (c: Self)
        ensures
            c.id@ == id@,
            c.label@ == label@,
    {
        SampleFailureContext { id: String::from_str(id), label: String::from_str(label) }
    }
}

/// How loading the baseline of a regression check went.
#[derive(Debug, Clone, Copy, PartialEq, Eq, Structural)]
pub enum Baseline {
    /// The latest stored run was loaded and compared with the new one;
    /// `regressed` is whether that comparison found a regression.
    Compared { regressed: bool },
    /// No run was stored yet: the new run is the first baseline.
    Missing,
    /// A stored run could not be loaded.
    LoadFailed,
}

/// The verdict of the regression gate on a finished run.
#[derive(Debug, Clone, Copy, PartialEq, Eq, Structural)]
pub enum GateVerdict {
    /// The run passes.
    Pass,
    /// The run regressed against its baseline and regressions fail the run.
    Regression,
    /// Regressions fail the run and the baseline could not be loaded, so no
    /// regression can be ruled out.
    BaselineUnavailable,
}

/// The verdict on a run: a regression fails it only when `fail_on_regression`
/// is set; a missing baseline is a legitimate first run; a baseline that
/// failed to load fails a run that set `fail_on_regression` instead of
/// silently skipping the comparison.
pub open spec fn gate_verdict(baseline: Baseline, fail_on_regression: bool) -> GateVerdict {
    match baseline {
        Baseline::Compared { regressed } => if fail_on_regression && regressed {
            GateVerdict::Regression
        } else {
            GateVerdict::Pass
        },
        Baseline::Missing => GateVerdict::Pass,
        Baseline::LoadFailed => if fail_on_regression {
            GateVerdict::BaselineUnavailable
        } else {
            GateVerdict::Pass
        },
    }
}

/// Decides whether a finished run passes the regression gate.
pub fn regression_gate(baseline: Baseline, fail_on_regression: bool) -> (v: GateVerdict)
    ensures
        v == gate_verdict(baseline, fail_on_regression),
        baseline is Missing ==> v == GateVerdict::Pass,
        !fail_on_regression ==> v == GateVerdict::Pass,
        fail_on_regression && baseline is LoadFailed ==> v == GateVerdict::BaselineUnavailable,
{
    match baseline {
        Baseline::Compared { regressed } => if fail_on_regression && regressed {
            GateVerdict::Regression
        } else {
            GateVerdict::Pass
        },
        Baseline::Missing => GateVerdict::Pass,
        Baseline::LoadFailed => if fail_on_regression {
            GateVerdict::BaselineUnavailable
        } else {
            GateVerdict::Pass
        },
    }
}

/// Names joined by `, `.
pub open spec fn names_joined(names: Seq<String>) -> Seq<char>
    decreases names.len(),
{
    if names.len() == 0 {
        Seq::empty()
    } else if names.len() == 1 {
        names[0]@
    } else {
        names_joined(names.drop_last()) + ", "@ + names.last()@
    }
}

/// The context a run adds to the first reporter error when reporters failed:
/// how many failed and which, in order.
pub fn reporter_failure_context(failed: &Vec<String>) -> (m: String)
    ensures
        m@ == "report generation failed for "@ + decimal(failed@.len()) + " reporter(s): "@ + names_joined(failed@),
{
    let mut m = String::new();
    push_str_of(&mut m, "report generation failed for ");
    push_decimal(&mut m, failed.len() as u64);
    push_str_of(&mut m, " reporter(s): ");
    let ghost head = m@;
    let mut i: usize = 0;
    while i < failed.len()
        invariant
            i <= failed@.len(),
            m@ == head + names_joined(failed@.take(i as int)),
        decreases failed@.len() - i,
    {
        if i > 0 {
            push_str_of(&mut m, ", ");
        }
        push_str_of(&mut m, failed[i].as_str());
        assert(failed@.take(i + 1).drop_last() =~= failed@.take(i as int));
        assert(failed@.take(i + 1).last() == failed@[i as int]);
        assert(i == 0 ==> failed@.take(1)[0] == failed@[0]);
        assert(m@ =~= head + names_joined(failed@.take(i + 1)));
        i = i + 1;
    }
    assert(failed@.take(failed@.len() as int) =~= failed@);
    m
}

/// The names of the failed reporters, in order.
pub open spec fn failed_names(failures: Seq<(String, BenchError)>) -> Seq<String> {
    failures.map_values(|f: (String, BenchError)| f.0)
}

/// The text naming the failed reporters: how many failed and which, in order.
pub open spec fn reporter_failure_text(names: Seq<String>) -> Seq<char> {
    "report generation failed for "@ + decimal(names.len()) + " reporter(s): "@ + names_joined(names)
}

/// The outcome of the reporting step of a run, given the reporters that
/// failed (in the order the reporters ran) with their errors: success when
/// none failed; otherwise the first failure's error, its category kept, with
/// context naming every failed reporter.
pub fn reporting_outcome(failures: Vec<(String, BenchError)>) -> (r: Result<(), BenchError>)
    ensures
        r is Ok <==> failures@.len() == 0,
        r matches Err(e) ==> e.code == failures@[0].1.code && e.message@ == context_message(
            reporter_failure_text(failed_names(failures@)),
            failures@[0].1.message@,
        ),
{
    if failures.len() == 0 {
        return Ok(());
    }
    let mut names: Vec<String> = Vec::new();
    let mut i: usize = 0;
    while i < failures.len()
        invariant
            i <= failures@.len(),
            names@ == failed_names(failures@).take(i as int),
        decreases failures@.len() - i,
    {
        names.push(failures[i].0.clone());
        assert(failed_names(failures@).take(i + 1) =~= failed_names(failures@).take(i as int).push(failures@[i as int].0));
        i = i + 1;
    }
    assert(names@ =~= failed_names(failures@));
    let context = reporter_failure_context(&names);
    let first = BenchError::new(failures[0].1.code, failures[0].1.message.as_str());
    Err(first.context(context.as_str()))
}

/// How loading the latest stored run went, for the regression gate.
#[derive(Debug, Clone, PartialEq, Eq)]
pub enum BaselineLoad {
    /// The latest run was loaded and compared with the new one: whether the
    /// comparison found a regression, and its summary.
    Loaded { regressed: bool, summary: String },
    /// Loading failed with this error (`NotFound` when no run is stored yet).
    Failed(BenchError),
}

/// The context given to a baseline that could not be loaded.
pub const BASELINE_CONTEXT: &'static str = "cannot verify regression: loading baseline run";

/// The outcome of the regression gate of a run: a regression fails the run
/// with an internal error carrying the comparison's summary, only when
/// `fail_on_regression` is set; no stored run is a first baseline and passes;
/// any other load failure fails a run that set `fail_on_regression`, keeping
/// the load error's category, and passes otherwise.
pub fn gate_outcome(load: BaselineLoad, fail_on_regression: bool) -> (r: Result<(), BenchError>)
    ensures
        match load {
            BaselineLoad::Loaded { regressed, summary } => if fail_on_regression && regressed {
                r matches Err(e) && e.code == ErrorCode::Internal && e.message@ == "Regression detected:\n"@ + summary@
            } else {
                r is Ok
            },
            BaselineLoad::Failed(e0) => if e0.code != ErrorCode::NotFound && fail_on_regression {
                r matches Err(e) && e.code == e0.code && e.message@ == context_message(BASELINE_CONTEXT@, e0.message@)
            } else {
                r is Ok
            },
        },
{
    let baseline = match &load {
        BaselineLoad::Loaded { regressed, .. } => Baseline::Compared { regressed: *regressed },
        BaselineLoad::Failed(e) => if e.code == ErrorCode::NotFound {
            Baseline::Missing
        } else {
            Baseline::LoadFailed
        },
    };
    match regression_gate(baseline, fail_on_regression) {
        GateVerdict::Pass => Ok(()),
        GateVerdict::Regression => match load {
            BaselineLoad::Loaded { summary, .. } => {
                let mut m = String::new();
                push_str_of(&mut m, "Regression detected:\n");
                push_str_of(&mut m, summary.as_str());
                Err(BenchError { code: ErrorCode::Internal, message: m })
            },
            BaselineLoad::Failed(e) => Err(e),
        },
        GateVerdict::BaselineUnavailable => match load {
            BaselineLoad::Failed(e) => Err(e.context(BASELINE_CONTEXT)),
            BaselineLoad::Loaded { .. } => Ok(()),
        },
    }
}

/// How the evaluation of one sample ended.
#[derive(Debug, Clone, PartialEq, Eq)]
pub enum EvaluationEnd {
    /// The evaluator returned a prediction.
    Predicted,
    /// The evaluator returned an error, given as its text.
    Failed(String),
    /// The per-sample timeout elapsed first.
    TimedOut,
    /// The pool cancelled the evaluation.
    Cancelled,
}

/// The failure a sample's result records for an evaluation of branch
/// `branch` that ended this way: none for a prediction, the evaluator's error
/// text, `timeout in <branch>`, or `cancelled`.
pub fn failure_reason(end: &EvaluationEnd, branch: &str) -> (r: Option<String>)
    ensures
        match *end {
            EvaluationEnd::Predicted => r is None,
            EvaluationEnd::Failed(e) => r matches Some(t) && t@ == e@,
            EvaluationEnd::TimedOut => r matches Some(t) && t@ == "timeout in "@ + branch@,
            EvaluationEnd::Cancelled => r matches Some(t) && t@ == "cancelled"@,
        },
{
    match end {
        EvaluationEnd::Predicted => None,
        EvaluationEnd::Failed(e) => Some(e.clone()),
        EvaluationEnd::TimedOut => {
            let mut t = String::new();
            push_str_of(&mut t, "timeout in ");
            push_str_of(&mut t, branch);
            Some(t)
        },
        EvaluationEnd::Cancelled => Some(String::from_str("cancelled")),
    }
}

} // verus!
