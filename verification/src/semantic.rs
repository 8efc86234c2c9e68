//! Semantic-similarity scoring: the identity of the embedding model, the
//! batching of samples and the checks an untrusted embedding reply passes
//! before its vectors are paired up.

use vstd::prelude::*;
use crate::error::{BenchError, ErrorCode};
use crate::identity::{escape_component, escape_component_is_injective, escaped_component, lemma_read_escaped, read_escaped};
use crate::text::{decimal, push_char, push_decimal, push_str_of};

verus! {

/// The identity of an embedding model: `provider/name`, or
/// `provider/name@version` when the model has a version, each component
/// escaped.
pub open spec fn model_identity_text(provider: Seq<char>, name: Seq<char>, version: Option<Seq<char>>) -> Seq<char> {
    escaped_component(provider) + (seq!['/'] + (escaped_component(name) + version_suffix(version)))
}

/// `@version`, escaped, or nothing.
pub open spec fn version_suffix(version: Option<Seq<char>>) -> Seq<char> {
    match version {
        Some(v) => seq!['@'] + escaped_component(v),
        None => Seq::empty(),
    }
}

/// The text of an optional string slice.
pub open spec fn opt_str(o: Option<&str>) -> Option<Seq<char>> {
    match o {
        Some(s) => Some(s@),
        None => None,
    }
}

/// Renders an embedding model to the stable identity used in the metric
/// name and its provenance: the provider tag, the model name and the version
/// when there is one, each escaped.
pub fn model_identity(provider: &str, name: &str, version: Option<&str>) -> (r: String)
    ensures
        r@ == model_identity_text(provider@, name@, opt_str(version)),
{
    let mut out = escape_component(provider);
    push_char(&mut out, '/');
    push_str_of(&mut out, escape_component(name).as_str());
    match version {
        Some(v) => {
            push_char(&mut out, '@');
            push_str_of(&mut out, escape_component(v).as_str());
        },
        None => {},
    }
    assert(out@ =~= model_identity_text(provider@, name@, opt_str(version)));
    out
}

/// Model identities never collide: equal identities come only from equal
/// provider tags, names and versions, whatever delimiters they contain.
pub proof fn model_identity_is_collision_free(
    p1: Seq<char>,
    n1: Seq<char>,
    v1: Option<Seq<char>>,
    p2: Seq<char>,
    n2: Seq<char>,
    v2: Option<Seq<char>>,
)
    requires
        model_identity_text(p1, n1, v1) == model_identity_text(p2, n2, v2),
    ensures
        p1 == p2 && n1 == n2 && v1 == v2,
{
    let r1 = escaped_component(n1) + version_suffix(v1);
    let r2 = escaped_component(n2) + version_suffix(v2);
    lemma_read_escaped(p1, seq!['/'] + r1);
    lemma_read_escaped(p2, seq!['/'] + r2);
    assert((seq!['/'] + r1).skip(1) =~= r1);
    assert((seq!['/'] + r2).skip(1) =~= r2);
    lemma_read_escaped(n1, version_suffix(v1));
    lemma_read_escaped(n2, version_suffix(v2));
    let s1 = version_suffix(v1);
    let s2 = version_suffix(v2);
    assert(s1 == s2);
    match (v1, v2) {
        (Some(a), Some(b)) => {
            assert(s1.skip(1) =~= escaped_component(a));
            assert(s2.skip(1) =~= escaped_component(b));
            escape_component_is_injective(a, b);
        },
        (Some(a), None) => {
            assert(s1.len() >= 1);
        },
        (None, Some(b)) => {
            assert(s2.len() >= 1);
        },
        (None, None) => {},
    }
}

/// The metric name of semantic similarity under an embedding model:
/// `semantic_similarity[<model identity>]`.
pub fn semantic_metric_name(model_id: &str) -> (r: String)
    ensures
        r@ == "semantic_similarity["@ + model_id@ + "]"@,
{
    let mut out = String::new();
    push_str_of(&mut out, "semantic_similarity[");
    push_str_of(&mut out, model_id);
    push_str_of(&mut out, "]");
    out
}

/// The texts sent for embedding a batch: for each pair, its reference text
/// then its prediction text, so pair `i` sits at inputs `2i` and `2i + 1`.
pub fn embedding_inputs(pairs: &Vec<(String, String)>) -> (r: Vec<String>)
    requires
        2 * pairs@.len() <= usize::MAX,
    ensures
        r@.len() == 2 * pairs@.len(),
        forall|i: int|
            0 <= i < pairs@.len() ==> #[trigger] r@[2 * i] == pairs@[i].0 && r@[2 * i + 1] == pairs@[i].1,
{
    let mut r: Vec<String> = Vec::new();
    let mut i: usize = 0;
    while i < pairs.len()
        invariant
            i <= pairs@.len(),
            2 * pairs@.len() <= usize::MAX,
            r@.len() == 2 * i,
            forall|j: int| 0 <= j < i ==> #[trigger] r@[2 * j] == pairs@[j].0 && r@[2 * j + 1] == pairs@[j].1,
        decreases pairs@.len() - i,
    {
        r.push(pairs[i].0.clone());
        r.push(pairs[i].1.clone());
        i = i + 1;
    }
    r
}

/// Samples are embedded in batches of a positive size.
pub fn check_batch_size(batch_size: usize) -> (r: Result<(), BenchError>)
    ensures
        r is Ok <==> batch_size > 0,
        r matches Err(e) ==> e.code == ErrorCode::InvalidInput && e.message@
            == "semantic_similarity: batch_size must be greater than zero"@,
{
    if batch_size == 0 {
        Err(BenchError::new(ErrorCode::InvalidInput, "semantic_similarity: batch_size must be greater than zero"))
    } else {
        Ok(())
    }
}

/// The batches of `count` samples: consecutive ranges of `batch_size`
/// samples, the last one holding what is left.
pub fn batch_ranges(count: usize, batch_size: usize) -> (r: Vec<(usize, usize)>)
    requires
        batch_size > 0,
    ensures
        r@.len() == (count + batch_size - 1) / (batch_size as int),
        forall|i: int|
            0 <= i < r@.len() ==> (#[trigger] r@[i]).0 == i * batch_size && r@[i].1 == if (i + 1) * batch_size
                < count {
                (i + 1) * batch_size
            } else {
                count as int
            },
{
    let mut r: Vec<(usize, usize)> = Vec::new();
    let mut start: usize = 0;
    while start < count
        invariant
            batch_size > 0,
            start as int == if r@.len() * batch_size < count { r@.len() * batch_size } else { count as int },
            r@.len() == 0 || (r@.len() - 1) * batch_size < count,
            forall|i: int|
                0 <= i < r@.len() ==> (#[trigger] r@[i]).0 == i * batch_size && r@[i].1 == if (i + 1) * batch_size
                    < count {
                    (i + 1) * batch_size
                } else {
                    count as int
                },
        decreases count - start,
    {
        let end = if count - start > batch_size { start + batch_size } else { count };
        proof {
            let k = r@.len() as int;
            assert((k + 1) * batch_size == k * batch_size + batch_size) by (nonlinear_arith);
        }
        r.push((start, end));
        start = end;
    }
    proof {
        let k = r@.len() as int;
        let b = batch_size as int;
        let c = count as int;
        if k == 0 {
            assert(c == 0);
            assert((c + b - 1) / b == 0) by (nonlinear_arith)
                requires
                    c == 0,
                    b > 0,
            ;
        } else {
            assert((c + b - 1) / b == k) by (nonlinear_arith)
                requires
                    c <= k * b,
                    (k - 1) * b < c,
                    b > 0,
            ;
        }
    }
    r
}

/// The shape of one embedding in a provider reply: the input position it
/// claims, its declared dimensions and the length of its vector.
#[derive(Debug, Clone, Copy, PartialEq, Eq, Structural)]
pub struct EmbeddingShape {
    pub index: usize,
    pub dimensions: usize,
    pub len: usize,
}

/// A vector that can be scored: not empty, and as long as it declares.
pub open spec fn shape_ok(e: EmbeddingShape) -> bool {
    e.len > 0 && e.dimensions == e.len
}

/// How many embeddings claim an input position below `p`.
pub open spec fn count_below(es: Seq<EmbeddingShape>, p: int) -> nat
    decreases es.len(),
{
    if es.len() == 0 {
        0
    } else {
        count_below(es.drop_last(), p) + if es.last().index < p { 1nat } else { 0nat }
    }
}

/// How many embeddings claim input position `p`.
pub open spec fn count_at(es: Seq<EmbeddingShape>, p: int) -> nat
    decreases es.len(),
{
    if es.len() == 0 {
        0
    } else {
        count_at(es.drop_last(), p) + if es.last().index == p { 1nat } else { 0nat }
    }
}

/// The reply position of the first embedding that claims input position `p`.
pub open spec fn first_at(es: Seq<EmbeddingShape>, p: int) -> Option<int>
    decreases es.len(),
{
    if es.len() == 0 {
        None
    } else {
        match first_at(es.drop_last(), p) {
            Some(k) => Some(k),
            None => if es.last().index == p {
                Some(es.len() - 1)
            } else {
                None
            },
        }
    }
}

/// What is wrong with a reply of the right length.
#[derive(Debug, Clone, Copy, PartialEq, Eq, Structural)]
pub enum LayoutFault {
    /// The claimed positions are not a permutation of the inputs.
    Indices,
    /// The embedding of input `position` is empty or not as long as it
    /// declares.
    Vector { position: usize, dimensions: usize, len: usize },
}

/// The first fault from input position `p` on, scanning the reply ordered by
/// claimed position (a stable order): at each position, the embeddings
/// before it must have claimed exactly the positions before it, one each,
/// some embedding must claim it, and the first that does must be scorable.
pub open spec fn layout_fault(es: Seq<EmbeddingShape>, p: int) -> Option<LayoutFault>
    decreases es.len() - p,
{
    if p < 0 || p >= es.len() {
        None
    } else if count_below(es, p) != p || first_at(es, p) is None {
        Some(LayoutFault::Indices)
    } else {
        let e = es[first_at(es, p)->Some_0];
        if !shape_ok(e) {
            Some(LayoutFault::Vector { position: p as usize, dimensions: e.dimensions, len: e.len })
        } else {
            layout_fault(es, p + 1)
        }
    }
}

/// The message of a reply with the wrong number of embeddings.
pub open spec fn count_message(expected: nat, returned: nat) -> Seq<char> {
    "semantic_similarity: expected "@ + decimal(expected) + " embeddings, provider returned "@ + decimal(returned)
}

/// The message of a reply whose claimed positions are not a permutation.
pub open spec fn indices_message(expected: nat) -> Seq<char> {
    "semantic_similarity: provider returned invalid embedding indices; expected a permutation of 0.."@ + decimal(
        expected,
    )
}

/// The message of an unusable vector.
pub open spec fn vector_message(position: nat, dimensions: nat, len: nat) -> Seq<char> {
    "semantic_similarity: embedding at index "@ + decimal(position)
        + " has an empty or dimension-inconsistent vector (dimensions "@ + decimal(dimensions) + ", length "@
        + decimal(len) + ")"@
}

proof fn lemma_counts_push(es: Seq<EmbeddingShape>, e: EmbeddingShape, p: int)
    ensures
        count_below(es.push(e), p) == count_below(es, p) + if e.index < p { 1nat } else { 0nat },
        count_at(es.push(e), p) == count_at(es, p) + if e.index == p { 1nat } else { 0nat },
        first_at(es.push(e), p) == match first_at(es, p) {
            Some(k) => Some(k),
            None => if e.index == p { Some(es.len() as int) } else { None },
        },
{
    assert(es.push(e).drop_last() =~= es);
}

proof fn lemma_count_below_step(es: Seq<EmbeddingShape>, p: int)
    ensures
        count_below(es, p + 1) == count_below(es, p) + count_at(es, p),
    decreases es.len(),
{
    if es.len() > 0 {
        lemma_count_below_step(es.drop_last(), p);
    }
}

proof fn lemma_count_below_zero(es: Seq<EmbeddingShape>)
    ensures
        count_below(es, 0) == 0,
    decreases es.len(),
{
    if es.len() > 0 {
        lemma_count_below_zero(es.drop_last());
    }
}

proof fn lemma_count_bounds(es: Seq<EmbeddingShape>, p: int)
    ensures
        count_at(es, p) <= es.len(),
        count_below(es, p) <= es.len(),
        count_at(es, p) > 0 <==> first_at(es, p) is Some,
        first_at(es, p) matches Some(k) ==> 0 <= k < es.len() && es[k].index == p,
    decreases es.len(),
{
    if es.len() > 0 {
        lemma_count_bounds(es.drop_last(), p);
    }
}

fn error_with(code: ErrorCode, message: &String) -> (e: BenchError)
    ensures
        e.code == code,
        e.message@ == message@,
{
    BenchError::new(code, message.as_str())
}

/// Checks an untrusted embedding reply before its vectors are paired with
/// the inputs: it must hold `expected` embeddings (else an internal error),
/// their claimed positions must be a permutation of the inputs and every
/// vector must be scorable (else an invalid-input error naming the first
/// fault in input order). On success, the reply position of the embedding
/// of each input, in input order.
pub fn embedding_order(expected: usize, es: &Vec<EmbeddingShape>) -> (r: Result<Vec<usize>, BenchError>)
    ensures
        es@.len() != expected ==> (r matches Err(e) && e.code == ErrorCode::Internal && e.message@ == count_message(
            expected as nat,
            es@.len(),
        )),
        es@.len() == expected ==> match layout_fault(es@, 0) {
            None => r matches Ok(order) && order@.len() == expected && forall|p: int|
                0 <= p < expected ==> first_at(es@, p) == Some(#[trigger] order@[p] as int),
            Some(LayoutFault::Indices) => r matches Err(e) && e.code == ErrorCode::InvalidInput && e.message@
                == indices_message(expected as nat),
            Some(LayoutFault::Vector { position, dimensions, len }) => r matches Err(e) && e.code
                == ErrorCode::InvalidInput && e.message@ == vector_message(
                position as nat,
                dimensions as nat,
                len as nat,
            ),
        },
{
    let n = es.len();
    if n != expected {
        let mut m = String::new();
        push_str_of(&mut m, "semantic_similarity: expected ");
        push_decimal(&mut m, expected as u64);
        push_str_of(&mut m, " embeddings, provider returned ");
        push_decimal(&mut m, n as u64);
        return Err(error_with(ErrorCode::Internal, &m));
    }
    let ghost all = es@;
    let mut counts: Vec<usize> = Vec::new();
    let mut first: Vec<usize> = Vec::new();
    let mut i: usize = 0;
    while i < n
        invariant
            i <= n,
            n == all.len(),
            counts@.len() == i,
            first@.len() == i,
            forall|j: int| 0 <= j < i ==> #[trigger] counts@[j] == 0,
            forall|j: int| 0 <= j < i ==> #[trigger] first@[j] == n,
        decreases n - i,
    {
        counts.push(0);
        first.push(n);
        i = i + 1;
    }
    let mut k: usize = 0;
    while k < n
        invariant
            k <= n,
            n == all.len(),
            all == es@,
            counts@.len() == n,
            first@.len() == n,
            forall|j: int|
                0 <= j < n ==> #[trigger] counts@[j] == count_at(all.take(k as int), j) && (match first_at(
                    all.take(k as int),
                    j,
                ) {
                    Some(q) => first@[j] == q,
                    None => first@[j] == n,
                }),
        decreases n - k,
    {
        let ix = es[k].index;
        let ghost oc = counts@;
        let ghost of = first@;
        proof {
            assert(all.take(k + 1) =~= all.take(k as int).push(all[k as int]));
            assert forall|j: int| 0 <= j < n implies count_at(all.take(k as int), j) <= k by {
                lemma_count_bounds(all.take(k as int), j);
            }
        }
        if ix < n {
            let c = counts[ix];
            if c == 0 {
                first.set(ix, k);
            }
            counts.set(ix, c + 1);
        }
        proof {
            assert forall|j: int| 0 <= j < n implies #[trigger] counts@[j] == count_at(all.take(k + 1), j) && (match first_at(
                all.take(k + 1),
                j,
            ) {
                Some(q) => first@[j] == q,
                None => first@[j] == n,
            }) by {
                lemma_counts_push(all.take(k as int), all[k as int], j);
                lemma_count_bounds(all.take(k as int), j);
                assert(oc[j] == count_at(all.take(k as int), j));
                assert(match first_at(all.take(k as int), j) {
                    Some(q) => of[j] == q,
                    None => of[j] == n,
                });
                if !(ix < n && j == ix) {
                    assert(counts@[j] == oc[j]);
                    assert(first@[j] == of[j]);
                }
            }
        }
        k = k + 1;
    }
    assert(all.take(n as int) =~= all);
    proof {
        lemma_count_below_zero(all);
        assert forall|j: int| 0 <= j < n implies #[trigger] counts@[j] == count_at(all, j) && (match first_at(all, j) {
            Some(q) => first@[j] == q,
            None => first@[j] == n,
        }) by {
            assert(counts@[j] == count_at(all.take(n as int), j));
        }
    }
    let mut order: Vec<usize> = Vec::new();
    let mut below: usize = 0;
    let mut p: usize = 0;
    while p < n
        invariant
            p <= n,
            n == all.len(),
            n == expected,
            all == es@,
            counts@.len() == n,
            first@.len() == n,
            forall|j: int|
                0 <= j < n ==> #[trigger] counts@[j] == count_at(all, j) && (match first_at(all, j) {
                    Some(q) => first@[j] == q,
                    None => first@[j] == n,
                }),
            below == count_below(all, p as int),
            layout_fault(all, 0) == layout_fault(all, p as int),
            order@.len() == p,
            forall|j: int| 0 <= j < p ==> first_at(all, j) == Some(#[trigger] order@[j] as int),
        decreases n - p,
    {
        proof {
            lemma_count_bounds(all, p as int);
            lemma_count_bounds(all, p + 1);
            lemma_count_below_step(all, p as int);
        }
        if below != p || counts[p] == 0 {
            let mut m = String::new();
            push_str_of(&mut m, "semantic_similarity: provider returned invalid embedding indices; expected a permutation of 0..");
            push_decimal(&mut m, n as u64);
            return Err(error_with(ErrorCode::InvalidInput, &m));
        }
        let q = first[p];
        let e = es[q];
        if e.len == 0 || e.dimensions != e.len {
            let mut m = String::new();
            push_str_of(&mut m, "semantic_similarity: embedding at index ");
            push_decimal(&mut m, p as u64);
            push_str_of(&mut m, " has an empty or dimension-inconsistent vector (dimensions ");
            push_decimal(&mut m, e.dimensions as u64);
            push_str_of(&mut m, ", length ");
            push_decimal(&mut m, e.len as u64);
            push_str_of(&mut m, ")");
            return Err(error_with(ErrorCode::InvalidInput, &m));
        }
        below = below + counts[p];
        order.push(q);
        p = p + 1;
    }
    Ok(order)
}

/// The reference and the prediction of a pair are embedded in the same
/// space: vectors of equal length.
pub fn check_pair_dimensions(reference_len: usize, prediction_len: usize) -> (r: Result<(), BenchError>)
    ensures
        r is Ok <==> reference_len == prediction_len,
        r matches Err(e) ==> e.code == ErrorCode::InvalidInput && e.message@
            == "semantic_similarity: embedding dimension mismatch (reference "@ + decimal(reference_len as nat)
            + " vs prediction "@ + decimal(prediction_len as nat) + ")"@,
{
    if reference_len == prediction_len {
        return Ok(());
    }
    let mut m = String::new();
    push_str_of(&mut m, "semantic_similarity: embedding dimension mismatch (reference ");
    push_decimal(&mut m, reference_len as u64);
    push_str_of(&mut m, " vs prediction ");
    push_decimal(&mut m, prediction_len as u64);
    push_str_of(&mut m, ")");
    Err(error_with(ErrorCode::InvalidInput, &m))
}

} // verus!
