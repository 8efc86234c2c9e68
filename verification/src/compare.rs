//! Run comparison: metric directions, judge comparability and regression gating.
//!
//! The numeric side of a comparison (deltas, the significance threshold) is
//! computed by the caller; this module decides, from the sign of each delta and
//! the judge provenance of both runs, which changes improve or regress, which
//! judge metrics are not comparable, and which samples were fixed or broke.

use vstd::prelude::*;
use crate::provenance::{JudgeMap, JudgeProvenance};
use crate::text::{chars_eq, chars_of, decimal, push_decimal, push_str_of};

verus! {

/// Optimization direction of a metric.
#[derive(Debug, Clone, Copy, PartialEq, Eq, Structural)]
pub enum MetricDirection {
    /// Higher values are better (accuracy, F1). The default.
    HigherIsBetter,
    /// Lower values are better (error rates, loss).
    LowerIsBetter,
    /// Descriptive metric with no preferred direction.
    Neutral,
}

impl Default for MetricDirection {
    fn default() -> (d: Self)
        ensures
            d == MetricDirection::HigherIsBetter,
    {
        MetricDirection::HigherIsBetter
    }
}

/// Sign of a value delta `new - old`.
#[derive(Debug, Clone, Copy, PartialEq, Eq, Structural)]
pub enum DeltaSign {
    Negative,
    Zero,
    Positive,
}

/// The opposite sign.
pub open spec fn flipped(s: DeltaSign) -> DeltaSign {
    match s {
        DeltaSign::Negative => DeltaSign::Positive,
        DeltaSign::Zero => DeltaSign::Zero,
        DeltaSign::Positive => DeltaSign::Negative,
    }
}

/// Whether a delta of this sign is an improvement in direction `d`.
pub open spec fn improves(d: MetricDirection, s: DeltaSign) -> bool {
    match d {
        MetricDirection::HigherIsBetter => s == DeltaSign::Positive,
        MetricDirection::LowerIsBetter => s == DeltaSign::Negative,
        MetricDirection::Neutral => false,
    }
}

/// Whether a delta of this sign is a regression in direction `d`.
pub open spec fn regresses(d: MetricDirection, s: DeltaSign) -> bool {
    match d {
        MetricDirection::HigherIsBetter => s == DeltaSign::Negative,
        MetricDirection::LowerIsBetter => s == DeltaSign::Positive,
        MetricDirection::Neutral => false,
    }
}

impl MetricDirection {
    /// Whether a delta of sign `sign` improves in this direction; a neutral
    /// metric never improves.
    pub fn is_improvement(self, sign: DeltaSign) -> (b: bool)
        ensures
            b == improves(self, sign),
    {
        match self {
            MetricDirection::HigherIsBetter => sign == DeltaSign::Positive,
            MetricDirection::LowerIsBetter => sign == DeltaSign::Negative,
            MetricDirection::Neutral => false,
        }
    }

    /// Whether a delta of sign `sign` regresses in this direction; a neutral
    /// metric never regresses.
    pub fn is_regression(self, sign: DeltaSign) -> (b: bool)
        ensures
            b == regresses(self, sign),
    {
        match self {
            MetricDirection::HigherIsBetter => sign == DeltaSign::Negative,
            MetricDirection::LowerIsBetter => sign == DeltaSign::Positive,
            MetricDirection::Neutral => false,
        }
    }
}

/// No change is both an improvement and a regression; an unchanged value and a
/// neutral metric are neither; and for a directional metric a delta improves
/// exactly when the opposite delta regresses.
pub proof fn direction_classification_is_consistent(d: MetricDirection, s: DeltaSign)
    ensures
        !(improves(d, s) && regresses(d, s)),
        s == DeltaSign::Zero ==> !improves(d, s) && !regresses(d, s),
        d == MetricDirection::Neutral ==> !improves(d, s) && !regresses(d, s),
        d != MetricDirection::Neutral ==> (improves(d, s) <==> regresses(d, flipped(s))),
{
}

/// A judge metric that resolved to different backend models across two runs.
#[derive(Debug, Clone, PartialEq, Eq)]
pub struct JudgeIncompatibility {
    /// Judge metric name, the key shared by both runs' provenance.
    pub metric: String,
    /// Backend model the baseline run's provider resolved the judge to, if any.
    pub base_resolved_model: Option<String>,
    /// Backend model the target run's provider resolved the judge to, if any.
    pub target_resolved_model: Option<String>,
}

/// An optional string by its characters.
pub open spec fn opt_view(o: Option<String>) -> Option<Seq<char>> {
    match o {
        Some(s) => Some(s@),
        None => None,
    }
}

/// A judge incompatibility as plain values.
pub open spec fn incompat_view(i: JudgeIncompatibility) -> (Seq<char>, Option<Seq<char>>, Option<Seq<char>>) {
    (i.metric@, opt_view(i.base_resolved_model), opt_view(i.target_resolved_model))
}

/// The judge stored under `key`, the first entry with that key.
pub open spec fn judge_lookup(m: Seq<(Seq<char>, JudgeProvenance)>, key: Seq<char>) -> Option<JudgeProvenance>
    decreases m.len(),
{
    if m.len() == 0 {
        None
    } else if m[0].0 == key {
        Some(m[0].1)
    } else {
        judge_lookup(m.drop_first(), key)
    }
}

/// For each target judge, in target order, whose metric the base run also
/// judged with a different resolved model: the metric and both resolved models.
pub open spec fn incompatibilities(
    base: Seq<(Seq<char>, JudgeProvenance)>,
    target: Seq<(Seq<char>, JudgeProvenance)>,
) -> Seq<(Seq<char>, Option<Seq<char>>, Option<Seq<char>>)>
    decreases target.len(),
{
    if target.len() == 0 {
        Seq::empty()
    } else {
        let rest = incompatibilities(base, target.drop_last());
        let t = target.last();
        match judge_lookup(base, t.0) {
            Some(b) if opt_view(b.resolved_model) != opt_view(t.1.resolved_model) => rest.push(
                (t.0, opt_view(b.resolved_model), opt_view(t.1.resolved_model)),
            ),
            _ => rest,
        }
    }
}

/// Copies an optional string.
fn copy_opt(o: &Option<String>) -> (r: Option<String>)
    ensures
        opt_view(r) == opt_view(*o),
{
    match o {
        Some(s) => Some(s.clone()),
        None => None,
    }
}

/// Whether two optional strings hold the same text.
fn opt_eq(a: &Option<String>, b: &Option<String>) -> (r: bool)
    ensures
        r == (opt_view(*a) == opt_view(*b)),
{
    match (a, b) {
        (Some(x), Some(y)) => chars_eq(&chars_of(x.as_str()), &chars_of(y.as_str())),
        (None, None) => true,
        _ => false,
    }
}

/// The judge stored under `key`.
fn judge_get<'a>(m: &'a JudgeMap, key: &str) -> (r: Option<&'a JudgeProvenance>)
    ensures
        judge_lookup(m@, key@) == match r {
            Some(j) => Some(*j),
            None => None::<JudgeProvenance>,
        },
{
    let k = chars_of(key);
    let ghost v = m@;
    let mut i: usize = 0;
    assert(v.skip(0) =~= v);
    while i < m.len()
        invariant
            i <= v.len(),
            v == m@,
            k@ == key@,
            judge_lookup(v, key@) == judge_lookup(v.skip(i as int), key@),
        decreases v.len() - i,
    {
        let (name, judge) = m.entry(i);
        assert(v.skip(i as int)[0] == v[i as int]);
        assert(v.skip(i as int).drop_first() =~= v.skip(i + 1));
        if chars_eq(&chars_of(name.as_str()), &k) {
            return Some(judge);
        }
        i = i + 1;
    }
    assert(v.skip(i as int) =~= Seq::<(Seq<char>, JudgeProvenance)>::empty());
    None
}

/// The judge metrics whose provider resolved the judge to a different backend
/// model in the two runs (one run reporting a model and the other none
/// included), in the target run's key order.
pub fn incompatible_judges(base: &JudgeMap, target: &JudgeMap) -> (r: Vec<JudgeIncompatibility>)
    ensures
        r@.map_values(|i: JudgeIncompatibility| incompat_view(i)) == incompatibilities(base@, target@),
{
    let mut out: Vec<JudgeIncompatibility> = Vec::new();
    let ghost tv = target@;
    let mut i: usize = 0;
    while i < target.len()
        invariant
            i <= tv.len(),
            tv == target@,
            out@.map_values(|x: JudgeIncompatibility| incompat_view(x)) == incompatibilities(base@, tv.take(i as int)),
        decreases tv.len() - i,
    {
        let (name, judge) = target.entry(i);
        assert(tv.take(i + 1).drop_last() =~= tv.take(i as int));
        assert(tv.take(i + 1).last() == tv[i as int]);
        let ghost before = out@;
        if let Some(b) = judge_get(base, name.as_str()) {
            if !opt_eq(&b.resolved_model, &judge.resolved_model) {
                out.push(JudgeIncompatibility {
                    metric: name.clone(),
                    base_resolved_model: copy_opt(&b.resolved_model),
                    target_resolved_model: copy_opt(&judge.resolved_model),
                });
                assert(out@.map_values(|x: JudgeIncompatibility| incompat_view(x)) =~= before.map_values(
                    |x: JudgeIncompatibility| incompat_view(x),
                ).push(incompat_view(out@.last())));
            }
        }
        i = i + 1;
    }
    assert(tv.take(tv.len() as int) =~= tv);
    out
}

/// Whether a change name belongs to a metric: the metric itself, or one of its
/// `"<metric>.<key>"` subvalues.
pub open spec fn belongs_to(name: Seq<char>, metric: Seq<char>) -> bool {
    name == metric || (metric.len() < name.len() && name.take(metric.len() as int) == metric
        && name[metric.len() as int] == '.')
}

/// Whether a change name belongs to one of the incompatible judge metrics.
pub open spec fn is_incompatible_name(incompatible: Seq<JudgeIncompatibility>, name: Seq<char>) -> bool {
    exists|i: int| 0 <= i < incompatible.len() && belongs_to(name, #[trigger] incompatible[i].metric@)
}

/// Decides [`belongs_to`].
fn belongs_to_exec(name: &Vec<char>, metric: &Vec<char>) -> (r: bool)
    ensures
        r == belongs_to(name@, metric@),
{
    if name.len() < metric.len() {
        return false;
    }
    let mut i: usize = 0;
    while i < metric.len()
        invariant
            i <= metric.len() <= name.len(),
            name@.take(i as int) == metric@.take(i as int),
        decreases metric.len() - i,
    {
        if name[i] != metric[i] {
            assert(name@.take(metric@.len() as int)[i as int] != metric@[i as int]);
            assert(name@ != metric@);
            return false;
        }
        assert(name@.take(i + 1) =~= name@.take(i as int).push(name@[i as int]));
        assert(metric@.take(i + 1) =~= metric@.take(i as int).push(metric@[i as int]));
        i = i + 1;
    }
    assert(metric@.take(metric@.len() as int) =~= metric@);
    if name.len() == metric.len() {
        assert(name@ =~= name@.take(i as int));
        true
    } else {
        assert(name@ != metric@);
        name[metric.len()] == '.'
    }
}

/// Whether `name` is an incompatible judge metric or one of its subvalues
/// (the prefix is the full metric name followed by a `.`).
pub fn is_incompatible_change(incompatible: &Vec<JudgeIncompatibility>, name: &str) -> (r: bool)
    ensures
        r == is_incompatible_name(incompatible@, name@),
{
    let n = chars_of(name);
    let mut i: usize = 0;
    while i < incompatible.len()
        invariant
            i <= incompatible@.len(),
            n@ == name@,
            forall|j: int| 0 <= j < i ==> !belongs_to(name@, #[trigger] incompatible@[j].metric@),
        decreases incompatible@.len() - i,
    {
        let m = chars_of(incompatible[i].metric.as_str());
        if belongs_to_exec(&n, &m) {
            assert(belongs_to(name@, incompatible@[i as int].metric@));
            return true;
        }
        i = i + 1;
    }
    false
}

/// The classification of one metric change, its delta already computed.
#[derive(Debug, Clone, PartialEq, Eq)]
pub struct ChangeClass {
    /// Metric name, or `"<metric>.<key>"` for a subvalue.
    pub name: String,
    /// Direction resolved for this change.
    pub direction: MetricDirection,
    /// Sign of `new - old`.
    pub delta_sign: DeltaSign,
    /// Whether the absolute delta meets the significance threshold.
    pub significant: bool,
}

/// Whether one change counts as a regression of the comparison.
pub open spec fn counts_as_regression(c: ChangeClass, incompatible: Seq<JudgeIncompatibility>) -> bool {
    c.significant && regresses(c.direction, c.delta_sign) && !is_incompatible_name(incompatible, c.name@)
}

/// Whether any significant change moved in its metric's worse direction,
/// leaving out changes of incompatible judge metrics and their subvalues.
pub fn has_regression(changes: &Vec<ChangeClass>, incompatible: &Vec<JudgeIncompatibility>) -> (r: bool)
    ensures
        r == exists|i: int| 0 <= i < changes@.len() && counts_as_regression(#[trigger] changes@[i], incompatible@),
{
    let mut i: usize = 0;
    while i < changes.len()
        invariant
            i <= changes@.len(),
            forall|j: int| 0 <= j < i ==> !counts_as_regression(#[trigger] changes@[j], incompatible@),
        decreases changes@.len() - i,
    {
        let c = &changes[i];
        if c.significant && c.direction.is_regression(c.delta_sign)
            && !is_incompatible_change(incompatible, c.name.as_str()) {
            assert(counts_as_regression(changes@[i as int], incompatible@));
            return true;
        }
        i = i + 1;
    }
    false
}

/// A change of an incompatible judge metric, or of one of its subvalues, never
/// makes a comparison regress, whatever its delta.
pub proof fn incompatible_changes_never_regress(c: ChangeClass, incompatible: Seq<JudgeIncompatibility>, k: int)
    requires
        0 <= k < incompatible.len(),
        belongs_to(c.name@, incompatible[k].metric@),
    ensures
        !counts_as_regression(c, incompatible),
{
    assert(is_incompatible_name(incompatible, c.name@));
}

/// Correctness recorded for `id` in a run's samples; a later entry for the
/// same id replaces an earlier one.
pub open spec fn correctness_of(samples: Seq<(Seq<char>, bool)>, id: Seq<char>) -> Option<bool>
    decreases samples.len(),
{
    if samples.len() == 0 {
        None
    } else if samples.last().0 == id {
        Some(samples.last().1)
    } else {
        correctness_of(samples.drop_last(), id)
    }
}

/// Target samples, in order, whose correctness went from `from` in the base run
/// to `!from` in the target run.
pub open spec fn flipped_samples(base: Seq<(Seq<char>, bool)>, target: Seq<(Seq<char>, bool)>, from: bool) -> Seq<Seq<char>>
    decreases target.len(),
{
    if target.len() == 0 {
        Seq::empty()
    } else {
        let rest = flipped_samples(base, target.drop_last(), from);
        let t = target.last();
        if correctness_of(base, t.0) == Some(from) && t.1 == !from {
            rest.push(t.0)
        } else {
            rest
        }
    }
}

/// A sample outcome by plain values.
pub open spec fn outcome_view(s: (String, bool)) -> (Seq<char>, bool) {
    (s.0@, s.1)
}

/// Correctness of `id` in `samples`.
fn correctness_exec(samples: &Vec<(String, bool)>, id: &Vec<char>) -> (r: Option<bool>)
    ensures
        r == correctness_of(samples@.map_values(|s: (String, bool)| outcome_view(s)), id@),
{
    let ghost v = samples@.map_values(|s: (String, bool)| outcome_view(s));
    let mut i: usize = samples.len();
    assert(v.take(v.len() as int) =~= v);
    while i > 0
        invariant
            i <= v.len(),
            v == samples@.map_values(|s: (String, bool)| outcome_view(s)),
            correctness_of(v, id@) == correctness_of(v.take(i as int), id@),
        decreases i,
    {
        let j = i - 1;
        assert(v.take(i as int).last() == v[j as int]);
        assert(v.take(i as int).drop_last() =~= v.take(j as int));
        if chars_eq(&chars_of(samples[j].0.as_str()), id) {
            return Some(samples[j].1);
        }
        i = j;
    }
    None
}

/// The samples that were incorrect in the base run and correct in the target
/// run (`fixed`), and those that went the other way (`regressed`), each in
/// target order; samples missing from the base run are in neither.
pub fn sample_transitions(base: &Vec<(String, bool)>, target: &Vec<(String, bool)>) -> (r: (Vec<String>, Vec<String>))
    ensures
        r.0@.map_values(|s: String| s@) == flipped_samples(
            base@.map_values(|s: (String, bool)| outcome_view(s)),
            target@.map_values(|s: (String, bool)| outcome_view(s)),
            false,
        ),
        r.1@.map_values(|s: String| s@) == flipped_samples(
            base@.map_values(|s: (String, bool)| outcome_view(s)),
            target@.map_values(|s: (String, bool)| outcome_view(s)),
            true,
        ),
{
    let ghost bv = base@.map_values(|s: (String, bool)| outcome_view(s));
    let ghost tv = target@.map_values(|s: (String, bool)| outcome_view(s));
    let mut fixed: Vec<String> = Vec::new();
    let mut regressed: Vec<String> = Vec::new();
    let mut i: usize = 0;
    while i < target.len()
        invariant
            i <= tv.len(),
            bv == base@.map_values(|s: (String, bool)| outcome_view(s)),
            tv == target@.map_values(|s: (String, bool)| outcome_view(s)),
            fixed@.map_values(|s: String| s@) == flipped_samples(bv, tv.take(i as int), false),
            regressed@.map_values(|s: String| s@) == flipped_samples(bv, tv.take(i as int), true),
        decreases tv.len() - i,
    {
        let t = &target[i];
        assert(tv.take(i + 1).drop_last() =~= tv.take(i as int));
        assert(tv.take(i + 1).last() == tv[i as int]);
        let ghost f0 = fixed@;
        let ghost r0 = regressed@;
        match correctness_exec(base, &chars_of(t.0.as_str())) {
            Some(was) => {
                if !was && t.1 {
                    fixed.push(t.0.clone());
                    assert(fixed@.map_values(|s: String| s@) =~= f0.map_values(|s: String| s@).push(t.0@));
                }
                if was && !t.1 {
                    regressed.push(t.0.clone());
                    assert(regressed@.map_values(|s: String| s@) =~= r0.map_values(|s: String| s@).push(t.0@));
                }
            },
            None => {},
        }
        i = i + 1;
    }
    assert(tv.take(tv.len() as int) =~= tv);
    (fixed, regressed)
}

/// A sample is never both fixed and regressed by one comparison, and only
/// samples present in the base run can be either.
pub proof fn transitions_are_disjoint(base: Seq<(Seq<char>, bool)>, target: Seq<(Seq<char>, bool)>, id: Seq<char>)
    ensures
        !(flipped_samples(base, target, false).contains(id) && flipped_samples(base, target, true).contains(id))
            || exists|i: int, j: int| 0 <= i < j < target.len() && target[i].0 == id && target[j].0 == id,
        correctness_of(base, id) is None ==> !flipped_samples(base, target, false).contains(id)
            && !flipped_samples(base, target, true).contains(id),
    decreases target.len(),
{
    if target.len() > 0 {
        let rest = target.drop_last();
        transitions_are_disjoint(base, rest, id);
        let t = target.last();
        let f = flipped_samples(base, target, false);
        let g = flipped_samples(base, target, true);
        let f0 = flipped_samples(base, rest, false);
        let g0 = flipped_samples(base, rest, true);
        lemma_flipped_members(base, rest, false, id);
        lemma_flipped_members(base, rest, true, id);
        if f.contains(id) && g.contains(id) {
            if !(exists|i: int, j: int| 0 <= i < j < rest.len() && rest[i].0 == id && rest[j].0 == id) {
                if t.0 == id {
                    if f0.contains(id) || g0.contains(id) {
                        let i = choose|i: int| 0 <= i < rest.len() && rest[i].0 == id;
                        assert(0 <= i < (target.len() - 1) as int && target[i].0 == id && target[target.len() - 1].0 == id);
                    }
                } else {
                    assert(f == f0 || f == f0.push(t.0));
                    assert(g == g0 || g == g0.push(t.0));
                    if f == f0.push(t.0) {
                        assert(f.contains(id) ==> f0.contains(id)) by {
                            if f.contains(id) {
                                let k = choose|k: int| 0 <= k < f.len() && f[k] == id;
                                assert(k < f0.len());
                                assert(f0[k] == id);
                            }
                        }
                    }
                    if g == g0.push(t.0) {
                        assert(g.contains(id) ==> g0.contains(id)) by {
                            if g.contains(id) {
                                let k = choose|k: int| 0 <= k < g.len() && g[k] == id;
                                assert(k < g0.len());
                                assert(g0[k] == id);
                            }
                        }
                    }
                }
            } else {
                let (i, j) = choose|i: int, j: int| 0 <= i < j < rest.len() && rest[i].0 == id && rest[j].0 == id;
                assert(target[i] == rest[i] && target[j] == rest[j]);
            }
        }
        if correctness_of(base, id) is None {
            if f.contains(id) {
                let k = choose|k: int| 0 <= k < f.len() && f[k] == id;
                if k < f0.len() {
                    assert(f0[k] == f[k]);
                } else {
                    assert(t.0 == id);
                }
            }
            if g.contains(id) {
                let k = choose|k: int| 0 <= k < g.len() && g[k] == id;
                if k < g0.len() {
                    assert(g0[k] == g[k]);
                } else {
                    assert(t.0 == id);
                }
            }
        }
    }
}

/// The correctness a run records for `id` is that of its last sample with
/// that id.
pub open spec fn last_entry_is(samples: Seq<(Seq<char>, bool)>, id: Seq<char>, correct: bool) -> bool {
    exists|j: int|
        0 <= j < samples.len() && (#[trigger] samples[j]).0 == id && samples[j].1 == correct && forall|l: int|
            j < l < samples.len() ==> (#[trigger] samples[l]).0 != id
}

/// `correctness_of` reads the last sample with the id.
proof fn lemma_correctness_of_last_entry(samples: Seq<(Seq<char>, bool)>, id: Seq<char>, correct: bool)
    ensures
        correctness_of(samples, id) == Some(correct) <==> last_entry_is(samples, id, correct),
    decreases samples.len(),
{
    if samples.len() > 0 {
        let front = samples.drop_last();
        let n = samples.len() - 1;
        lemma_correctness_of_last_entry(front, id, correct);
        if samples.last().0 == id {
            if samples.last().1 == correct {
                assert(samples[n].0 == id);
            }
            if last_entry_is(samples, id, correct) {
                let j = choose|j: int|
                    0 <= j < samples.len() && (#[trigger] samples[j]).0 == id && samples[j].1 == correct && forall|l: int|
                        j < l < samples.len() ==> (#[trigger] samples[l]).0 != id;
                if j < n {
                    assert(samples[n].0 != id);
                }
            }
        } else {
            if last_entry_is(front, id, correct) {
                let j = choose|j: int|
                    0 <= j < front.len() && (#[trigger] front[j]).0 == id && front[j].1 == correct && forall|l: int|
                        j < l < front.len() ==> (#[trigger] front[l]).0 != id;
                assert(samples[j] == front[j]);
                assert forall|l: int| j < l < samples.len() implies (#[trigger] samples[l]).0 != id by {
                    if l < n {
                        assert(front[l] == samples[l]);
                    }
                }
            }
            if last_entry_is(samples, id, correct) {
                let j = choose|j: int|
                    0 <= j < samples.len() && (#[trigger] samples[j]).0 == id && samples[j].1 == correct && forall|l: int|
                        j < l < samples.len() ==> (#[trigger] samples[l]).0 != id;
                assert(j < n);
                assert(front[j] == samples[j]);
                assert forall|l: int| j < l < front.len() implies (#[trigger] front[l]).0 != id by {
                    assert(front[l] == samples[l]);
                }
            }
        }
    }
}

/// Whether some target sample with id `id` has correctness `!from` while the
/// last base sample with that id has correctness `from`.
pub open spec fn flips_in(base: Seq<(Seq<char>, bool)>, target: Seq<(Seq<char>, bool)>, from: bool, id: Seq<char>) -> bool {
    exists|i: int|
        0 <= i < target.len() && (#[trigger] target[i]).0 == id && target[i].1 == !from && last_entry_is(base, id, from)
}

/// A sample is listed as going from `from` to `!from` exactly when it does:
/// every listed id belongs to a target sample whose correctness is `!from`
/// and whose last base sample has correctness `from`; every such target
/// sample is listed; and nothing more is listed than there are target
/// samples. So a sample with the same correctness in both runs is listed as
/// neither fixed nor regressed.
pub proof fn a_sample_is_listed_only_when_its_correctness_flips(
    base: Seq<(Seq<char>, bool)>,
    target: Seq<(Seq<char>, bool)>,
    from: bool,
)
    ensures
        flipped_samples(base, target, from) == target.filter(
            |s: (Seq<char>, bool)| s.1 == !from && last_entry_is(base, s.0, from),
        ).map_values(|s: (Seq<char>, bool)| s.0),
        flipped_samples(base, target, from).len() <= target.len(),
        forall|k: int|
            0 <= k < flipped_samples(base, target, from).len() ==> flips_in(
                base,
                target,
                from,
                #[trigger] flipped_samples(base, target, from)[k],
            ),
        forall|i: int|
            0 <= i < target.len() && (#[trigger] target[i]).1 == !from && last_entry_is(base, target[i].0, from)
                ==> flipped_samples(base, target, from).contains(target[i].0),
    decreases target.len(),
{
    reveal(Seq::filter);
    if target.len() > 0 {
        let front = target.drop_last();
        let n = target.len() - 1;
        let t = target.last();
        a_sample_is_listed_only_when_its_correctness_flips(base, front, from);
        let pred = |s: (Seq<char>, bool)| s.1 == !from && last_entry_is(base, s.0, from);
        let id = |s: (Seq<char>, bool)| s.0;
        lemma_correctness_of_last_entry(base, t.0, from);
        if pred(t) {
            assert(target.filter(pred) == front.filter(pred).push(t));
            assert(target.filter(pred).map_values(id) =~= front.filter(pred).map_values(id).push(t.0));
        } else {
            assert(target.filter(pred) == front.filter(pred));
        }
        let f = flipped_samples(base, target, from);
        let f0 = flipped_samples(base, front, from);
        assert forall|k: int| 0 <= k < f.len() implies flips_in(base, target, from, #[trigger] f[k]) by {
            if k < f0.len() {
                assert(f[k] == f0[k]);
                let i = choose|i: int|
                    #![trigger front[i]]
                    0 <= i < front.len() && front[i].0 == f0[k] && front[i].1 == !from && last_entry_is(base, front[i].0, from);
                assert(target[i] == front[i]);
            } else {
                assert(correctness_of(base, t.0) == Some(from) && t.1 == !from);
                assert(f == f0.push(t.0));
                assert(f[k] == t.0);
                assert(target[n] == t);
                assert(last_entry_is(base, target[n].0, from));
            }
        }
        assert forall|i: int|
            0 <= i < target.len() && (#[trigger] target[i]).1 == !from && last_entry_is(base, target[i].0, from)
                implies f.contains(target[i].0) by {
            if i < n {
                assert(front[i] == target[i]);
                let k = choose|k: int| 0 <= k < f0.len() && f0[k] == front[i].0;
                assert(f[k] == f0[k]);
            } else {
                assert(target[i] == t);
                assert(f[f.len() - 1] == t.0);
            }
        }
    } else {
        assert(flipped_samples(base, target, from).len() == 0);
        assert(target.filter(|s: (Seq<char>, bool)| s.1 == !from && last_entry_is(base, s.0, from)).map_values(
            |s: (Seq<char>, bool)| s.0,
        ) =~= Seq::<Seq<char>>::empty());
    }
}

/// Every listed sample occurs in the target run.
proof fn lemma_flipped_members(base: Seq<(Seq<char>, bool)>, target: Seq<(Seq<char>, bool)>, from: bool, id: Seq<char>)
    ensures
        flipped_samples(base, target, from).contains(id) ==> exists|i: int| 0 <= i < target.len() && target[i].0 == id,
    decreases target.len(),
{
    if target.len() > 0 {
        let rest = target.drop_last();
        lemma_flipped_members(base, rest, from, id);
        let f = flipped_samples(base, target, from);
        let f0 = flipped_samples(base, rest, from);
        if f.contains(id) {
            let k = choose|k: int| 0 <= k < f.len() && f[k] == id;
            if k < f0.len() {
                assert(f0[k] == id);
                let i = choose|i: int| 0 <= i < rest.len() && rest[i].0 == id;
                assert(target[i] == rest[i]);
            } else {
                assert(target[target.len() - 1].0 == id);
            }
        }
    }
}

/// The marker of a change in a diff summary: `≈` for a descriptive metric,
/// `✅` for an improvement, `⚠️` for a regression and `➖` otherwise.
pub open spec fn icon_of(d: MetricDirection, s: DeltaSign) -> Seq<char> {
    if d == MetricDirection::Neutral {
        "≈"@
    } else if improves(d, s) {
        "✅"@
    } else if regresses(d, s) {
        "⚠️"@
    } else {
        "➖"@
    }
}

/// The marker of a change in a diff summary.
pub fn change_icon(d: MetricDirection, s: DeltaSign) -> (r: &'static str)
    ensures
        r@ == icon_of(d, s),
{
    if d == MetricDirection::Neutral {
        "≈"
    } else if d.is_improvement(s) {
        "✅"
    } else if d.is_regression(s) {
        "⚠️"
    } else {
        "➖"
    }
}

/// An unchanged value is marked neither as an improvement nor as a regression.
pub proof fn unchanged_values_are_neither(d: MetricDirection)
    ensures
        icon_of(d, DeltaSign::Zero) != "✅"@ || d == MetricDirection::Neutral,
        icon_of(d, DeltaSign::Zero) != "⚠️"@ || d == MetricDirection::Neutral,
{
    reveal_strlit("✅");
    reveal_strlit("⚠️");
    reveal_strlit("➖");
    reveal_strlit("≈");
    assert("➖"@.len() == 1 && "➖"@[0] == '➖');
    assert("✅"@.len() == 1 && "✅"@[0] == '✅');
    assert("⚠️"@.len() == 2);
    assert("➖"@ != "✅"@);
    assert("➖"@ != "⚠️"@);
}

/// One change line of a diff summary, its numbers formatted (the delta with
/// its sign).
#[derive(Debug, Clone, PartialEq, Eq)]
pub struct ChangeLine {
    pub name: String,
    pub direction: MetricDirection,
    pub delta_sign: DeltaSign,
    pub old_text: String,
    pub new_text: String,
    pub delta_text: String,
}

/// The text of one change line.
pub open spec fn change_line_text(c: ChangeLine) -> Seq<char> {
    "  "@ + icon_of(c.direction, c.delta_sign) + " "@ + c.name@ + ": "@ + c.old_text@ + " → "@ + c.new_text@ + " ("@
        + c.delta_text@ + ")"@
}

pub open spec fn change_lines_text(cs: Seq<ChangeLine>) -> Seq<char>
    decreases cs.len(),
{
    if cs.len() == 0 {
        Seq::empty()
    } else {
        change_lines_text(cs.drop_last()) + seq!['\n'] + change_line_text(cs.last())
    }
}

pub open spec fn incompatible_lines_text(is: Seq<JudgeIncompatibility>) -> Seq<char>
    decreases is.len(),
{
    if is.len() == 0 {
        Seq::empty()
    } else {
        incompatible_lines_text(is.drop_last()) + seq!['\n'] + "  ⚠️ "@ + is.last().metric@
            + ": judges differ; scores are not directly comparable"@
    }
}

/// The lines with the numbers of fixed and regressed samples, each when not zero.
pub open spec fn counts_lines_text(fixed: nat, regressed: nat) -> Seq<char> {
    (if fixed > 0 {
        seq!['\n'] + "  Fixed: "@ + decimal(fixed) + " samples"@
    } else {
        Seq::empty()
    }) + (if regressed > 0 {
        seq!['\n'] + "  Regressed: "@ + decimal(regressed) + " samples"@
    } else {
        Seq::empty()
    })
}

/// A diff summary: a header line, one line per change, the numbers of fixed
/// and regressed samples when not zero, and one line per incompatible judge,
/// joined by newlines.
pub open spec fn summary_text(
    base_id: Seq<char>,
    target_id: Seq<char>,
    changes: Seq<ChangeLine>,
    fixed: nat,
    regressed: nat,
    incompatible: Seq<JudgeIncompatibility>,
) -> Seq<char> {
    "Comparison: "@ + base_id + " → "@ + target_id + change_lines_text(changes) + counts_lines_text(fixed, regressed)
        + incompatible_lines_text(incompatible)
}

fn push_change_line(out: &mut String, c: &ChangeLine)
    ensures
        final(out)@ == old(out)@ + seq!['\n'] + change_line_text(*c),
{
    crate::text::push_char(out, '\n');
    push_str_of(out, "  ");
    push_str_of(out, change_icon(c.direction, c.delta_sign));
    push_str_of(out, " ");
    push_str_of(out, c.name.as_str());
    push_str_of(out, ": ");
    push_str_of(out, c.old_text.as_str());
    push_str_of(out, " → ");
    push_str_of(out, c.new_text.as_str());
    push_str_of(out, " (");
    push_str_of(out, c.delta_text.as_str());
    push_str_of(out, ")");
    assert(final(out)@ =~= old(out)@ + seq!['\n'] + change_line_text(*c));
}

fn push_change_lines(out: &mut String, changes: &Vec<ChangeLine>)
    ensures
        final(out)@ == old(out)@ + change_lines_text(changes@),
{
    let ghost head = out@;
    let mut i: usize = 0;
    while i < changes.len()
        invariant
            i <= changes@.len(),
            out@ == head + change_lines_text(changes@.take(i as int)),
        decreases changes@.len() - i,
    {
        push_change_line(out, &changes[i]);
        assert(changes@.take(i + 1).drop_last() =~= changes@.take(i as int));
        assert(out@ =~= head + change_lines_text(changes@.take(i + 1)));
        i = i + 1;
    }
    assert(changes@.take(changes@.len() as int) =~= changes@);
}

fn push_counts_lines(out: &mut String, fixed: u64, regressed: u64)
    ensures
        final(out)@ == old(out)@ + counts_lines_text(fixed as nat, regressed as nat),
{
    if fixed > 0 {
        crate::text::push_char(out, '\n');
        push_str_of(out, "  Fixed: ");
        push_decimal(out, fixed);
        push_str_of(out, " samples");
    }
    if regressed > 0 {
        crate::text::push_char(out, '\n');
        push_str_of(out, "  Regressed: ");
        push_decimal(out, regressed);
        push_str_of(out, " samples");
    }
    assert(final(out)@ =~= old(out)@ + counts_lines_text(fixed as nat, regressed as nat));
}

fn push_incompatible_lines(out: &mut String, incompatible: &Vec<JudgeIncompatibility>)
    ensures
        final(out)@ == old(out)@ + incompatible_lines_text(incompatible@),
{
    let ghost head = out@;
    let mut j: usize = 0;
    while j < incompatible.len()
        invariant
            j <= incompatible@.len(),
            out@ == head + incompatible_lines_text(incompatible@.take(j as int)),
        decreases incompatible@.len() - j,
    {
        crate::text::push_char(out, '\n');
        push_str_of(out, "  ⚠️ ");
        push_str_of(out, incompatible[j].metric.as_str());
        push_str_of(out, ": judges differ; scores are not directly comparable");
        assert(incompatible@.take(j + 1).drop_last() =~= incompatible@.take(j as int));
        assert(out@ =~= head + incompatible_lines_text(incompatible@.take(j + 1)));
        j = j + 1;
    }
    assert(incompatible@.take(incompatible@.len() as int) =~= incompatible@);
}

/// Formats a comparison as a concise multi-line summary.
pub fn diff_summary(
    base_id: &str,
    target_id: &str,
    changes: &Vec<ChangeLine>,
    fixed: u64,
    regressed: u64,
    incompatible: &Vec<JudgeIncompatibility>,
) -> (r: String)
    ensures
        r@ == summary_text(base_id@, target_id@, changes@, fixed as nat, regressed as nat, incompatible@),
{
    let mut out = String::new();
    push_str_of(&mut out, "Comparison: ");
    push_str_of(&mut out, base_id);
    push_str_of(&mut out, " → ");
    push_str_of(&mut out, target_id);
    push_change_lines(&mut out, changes);
    push_counts_lines(&mut out, fixed, regressed);
    push_incompatible_lines(&mut out, incompatible);
    assert(out@ =~= summary_text(base_id@, target_id@, changes@, fixed as nat, regressed as nat, incompatible@));
    out
}

/// The position of the last name equal to `name` (the entry a keyed lookup
/// keeps when later entries replace earlier ones).
pub open spec fn last_position(names: Seq<Seq<char>>, name: Seq<char>) -> Option<int>
    decreases names.len(),
{
    if names.len() == 0 {
        None
    } else if names.last() == name {
        Some(names.len() - 1)
    } else {
        last_position(names.drop_last(), name)
    }
}

/// For each target metric, in order, that the base run also computed: the
/// target position and the base position of that metric.
pub open spec fn metric_matches(base: Seq<Seq<char>>, target: Seq<Seq<char>>) -> Seq<(int, int)>
    decreases target.len(),
{
    if target.len() == 0 {
        Seq::empty()
    } else {
        let rest = metric_matches(base, target.drop_last());
        match last_position(base, target.last()) {
            Some(b) => rest.push(((target.len() - 1) as int, b)),
            None => rest,
        }
    }
}

proof fn lemma_last_position_bound(names: Seq<Seq<char>>, name: Seq<char>)
    ensures
        last_position(names, name) matches Some(i) ==> 0 <= i < names.len(),
    decreases names.len(),
{
    if names.len() > 0 {
        lemma_last_position_bound(names.drop_last(), name);
    }
}

/// `last_position` finds the last occurrence of a name, and nothing when the
/// name does not occur.
proof fn lemma_last_position(names: Seq<Seq<char>>, name: Seq<char>)
    ensures
        match last_position(names, name) {
            Some(i) => 0 <= i < names.len() && names[i] == name && forall|k: int| i < k < names.len() ==> names[k] != name,
            None => forall|k: int| 0 <= k < names.len() ==> names[k] != name,
        },
    decreases names.len(),
{
    if names.len() > 0 {
        lemma_last_position(names.drop_last(), name);
        assert forall|k: int| 0 <= k < names.len() - 1 implies names.drop_last()[k] == names[k] by {}
    }
}

/// How the metrics of two runs are paired: each pair joins a target metric
/// with a base metric of the same name, and that base metric is the last one
/// of its name; pairs come in target order; and every target metric whose
/// name the base run has is paired.
pub proof fn metric_pairing_keeps_target_order_and_takes_the_last_base_metric(
    base: Seq<Seq<char>>,
    target: Seq<Seq<char>>,
)
    ensures
        forall|p: int|
            0 <= p < metric_matches(base, target).len() ==> {
                let (t, b) = #[trigger] metric_matches(base, target)[p];
                &&& 0 <= t < target.len()
                &&& 0 <= b < base.len()
                &&& base[b] == target[t]
                &&& forall|k: int| b < k < base.len() ==> base[k] != target[t]
            },
        forall|p: int, q: int|
            0 <= p < q < metric_matches(base, target).len() ==> (#[trigger] metric_matches(base, target)[p]).0
                < (#[trigger] metric_matches(base, target)[q]).0,
        forall|t: int, k: int|
            0 <= t < target.len() && 0 <= k < base.len() && #[trigger] base[k] == #[trigger] target[t] ==> exists|p: int|
                0 <= p < metric_matches(base, target).len() && (#[trigger] metric_matches(base, target)[p]).0 == t,
    decreases target.len(),
{
    if target.len() > 0 {
        let n = target.len() - 1;
        let front = target.drop_last();
        metric_pairing_keeps_target_order_and_takes_the_last_base_metric(base, front);
        lemma_last_position(base, target.last());
        let rest = metric_matches(base, front);
        let m = metric_matches(base, target);
        assert forall|p: int| 0 <= p < rest.len() implies (#[trigger] rest[p]).0 < n && front[rest[p].0] == target[rest[p].0] by {}
        assert forall|p: int| 0 <= p < rest.len() implies #[trigger] m[p] == rest[p] by {}
        assert forall|t: int, k: int|
            0 <= t < target.len() && 0 <= k < base.len() && #[trigger] base[k] == #[trigger] target[t] implies exists|p: int|
                0 <= p < m.len() && (#[trigger] m[p]).0 == t by {
            if t < n {
                assert(front[t] == target[t]);
                assert(base[k] == front[t]);
                let p = choose|p: int| 0 <= p < rest.len() && (#[trigger] rest[p]).0 == t;
                assert(m[p] == rest[p]);
            } else {
                assert(target[t] == target.last());
                assert(m[rest.len() as int].0 == t);
            }
        }
    }
}

fn last_position_exec(names: &Vec<String>, name: &Vec<char>) -> (r: Option<usize>)
    ensures
        match r {
            Some(i) => last_position(names@.map_values(|s: String| s@), name@) == Some(i as int),
            None => last_position(names@.map_values(|s: String| s@), name@) is None,
        },
{
    let ghost ns = names@.map_values(|s: String| s@);
    let mut i: usize = names.len();
    assert(ns.take(ns.len() as int) =~= ns);
    while i > 0
        invariant
            i <= ns.len(),
            ns == names@.map_values(|s: String| s@),
            last_position(ns, name@) == last_position(ns.take(i as int), name@),
        decreases i,
    {
        let j = i - 1;
        assert(ns.take(i as int).last() == ns[j as int]);
        assert(ns.take(i as int).drop_last() =~= ns.take(j as int));
        if chars_eq(&chars_of(names[j].as_str()), name) {
            return Some(j);
        }
        i = j;
    }
    None
}

/// Pairs each target metric with the base metric of the same name (the last
/// one, when the base run repeats a name), keeping target order.
pub fn match_metrics(base_names: &Vec<String>, target_names: &Vec<String>) -> (r: Vec<(usize, usize)>)
    ensures
        r@.map_values(|p: (usize, usize)| (p.0 as int, p.1 as int)) == metric_matches(
            base_names@.map_values(|s: String| s@),
            target_names@.map_values(|s: String| s@),
        ),
{
    let ghost bs = base_names@.map_values(|s: String| s@);
    let ghost ts = target_names@.map_values(|s: String| s@);
    let mut out: Vec<(usize, usize)> = Vec::new();
    let mut t: usize = 0;
    while t < target_names.len()
        invariant
            t <= ts.len(),
            bs == base_names@.map_values(|s: String| s@),
            ts == target_names@.map_values(|s: String| s@),
            out@.map_values(|p: (usize, usize)| (p.0 as int, p.1 as int)) == metric_matches(bs, ts.take(t as int)),
        decreases ts.len() - t,
    {
        assert(ts.take(t + 1).drop_last() =~= ts.take(t as int));
        assert(ts.take(t + 1).last() == ts[t as int]);
        let ghost before = out@;
        match last_position_exec(base_names, &chars_of(target_names[t].as_str())) {
            Some(b) => {
                out.push((t, b));
                assert(out@.map_values(|p: (usize, usize)| (p.0 as int, p.1 as int)) =~= before.map_values(
                    |p: (usize, usize)| (p.0 as int, p.1 as int),
                ).push((t as int, b as int)));
            },
            None => {},
        }
        t = t + 1;
    }
    assert(ts.take(ts.len() as int) =~= ts);
    out
}

} // verus!
