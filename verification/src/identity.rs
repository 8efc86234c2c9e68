//! Delimiter-safe identity components for metric names and provenance.

use vstd::prelude::*;
use crate::text::{chars_of, expand, lemma_expand_step, push_char, push_str_of};

verus! {

/// The characters that frame or join identity components: `\`, `/`, `@`, `[`, `]`, `#`, `:`.
pub open spec fn is_identity_delimiter(c: char) -> bool {
    c == '\\' || c == '/' || c == '@' || c == '[' || c == ']' || c == '#' || c == ':'
}

/// The image of one character: a delimiter is prefixed with a backslash.
pub open spec fn escape_char(c: char) -> Seq<char> {
    if is_identity_delimiter(c) {
        seq!['\\', c]
    } else {
        seq![c]
    }
}

/// `s` with every identity delimiter backslash-escaped.
pub open spec fn escaped_component(s: Seq<char>) -> Seq<char> {
    expand(s, |c: char| escape_char(c))
}

/// Reads an escaped component back: a backslash makes the next character literal.
pub open spec fn unescaped_component(s: Seq<char>) -> Seq<char>
    decreases s.len(),
{
    if s.len() == 0 {
        Seq::empty()
    } else if s[0] == '\\' && s.len() >= 2 {
        seq![s[1]] + unescaped_component(s.skip(2))
    } else {
        seq![s[0]] + unescaped_component(s.skip(1))
    }
}

/// Escaping `c` is exactly `escape_char(c)` pushed by the loop below.
proof fn lemma_escape_unfold(s: Seq<char>)
    requires
        s.len() > 0,
    ensures
        escaped_component(s) == escape_char(s[0]) + escaped_component(s.drop_first()),
{
}

/// Reading an escaped component back gives the original component.
pub proof fn lemma_unescape_escape(s: Seq<char>)
    ensures
        unescaped_component(escaped_component(s)) == s,
    decreases s.len(),
{
    if s.len() == 0 {
        assert(escaped_component(s) == Seq::<char>::empty());
    } else {
        lemma_escape_unfold(s);
        let rest = escaped_component(s.drop_first());
        let e = escaped_component(s);
        lemma_unescape_escape(s.drop_first());
        if is_identity_delimiter(s[0]) {
            assert(e[0] == '\\');
            assert(e[1] == s[0]);
            assert(e.skip(2) == rest);
            assert(unescaped_component(e) == seq![s[0]] + unescaped_component(rest));
        } else {
            assert(e[0] == s[0]);
            assert(e.skip(1) == rest);
            assert(unescaped_component(e) == seq![s[0]] + unescaped_component(rest));
        }
        assert(seq![s[0]] + s.drop_first() == s);
    }
}

/// Escaping never merges two distinct components into one identity: equal
/// escaped forms come only from equal components.
pub proof fn escape_component_is_injective(a: Seq<char>, b: Seq<char>)
    requires
        escaped_component(a) == escaped_component(b),
    ensures
        a == b,
{
    lemma_unescape_escape(a);
    lemma_unescape_escape(b);
}

/// Escapes every character used to join or delimit identity components —
/// `\`, `/`, `@`, `[`, `]`, `#`, and `:` — by prefixing it with a backslash, so a
/// component can never be confused with the delimiters that frame and join
/// components.
pub fn escape_component(component: &str) -> (r: String)
    ensures
        r@ == escaped_component(component@),
{
    let v = chars_of(component);
    let mut out = String::new();
    for i in 0..v.len()
        invariant
            v@ == component@,
            out@ == escaped_component(v@.take(i as int)),
    {
        let c = v[i];
        proof {
            lemma_expand_step(v@, i as int, |c: char| escape_char(c));
        }
        if c == '\\' || c == '/' || c == '@' || c == '[' || c == ']' || c == '#' || c == ':' {
            push_char(&mut out, '\\');
            push_char(&mut out, c);
        } else {
            push_char(&mut out, c);
        }
        assert(out@ == escaped_component(v@.take(i as int)) + escape_char(c));
    }
    assert(v@.take(v.len() as int) == v@);
    out
}

/// Reads an escaped component from the front of `t`, up to the first
/// delimiter that is not escaped: the component and the rest of `t`.
pub open spec fn read_escaped(t: Seq<char>) -> (Seq<char>, Seq<char>)
    decreases t.len(),
{
    if t.len() == 0 {
        (Seq::empty(), Seq::empty())
    } else if t[0] == '\\' && t.len() >= 2 {
        let (c, r) = read_escaped(t.skip(2));
        (seq![t[1]] + c, r)
    } else if is_identity_delimiter(t[0]) {
        (Seq::empty(), t)
    } else {
        let (c, r) = read_escaped(t.skip(1));
        (seq![t[0]] + c, r)
    }
}

/// An escaped component followed by nothing or by a delimiter other than a
/// backslash reads back as the component, leaving the delimiter.
pub proof fn lemma_read_escaped(s: Seq<char>, rest: Seq<char>)
    requires
        rest.len() == 0 || (is_identity_delimiter(rest[0]) && rest[0] != '\\'),
    ensures
        read_escaped(escaped_component(s) + rest) == (s, rest),
    decreases s.len(),
{
    if s.len() == 0 {
        assert(escaped_component(s) == Seq::<char>::empty());
        assert(escaped_component(s) + rest =~= rest);
    } else {
        lemma_escape_unfold(s);
        lemma_read_escaped(s.drop_first(), rest);
        let t = escaped_component(s) + rest;
        let tail = escaped_component(s.drop_first()) + rest;
        if is_identity_delimiter(s[0]) {
            assert(t =~= seq!['\\', s[0]] + tail);
            assert(t.skip(2) =~= tail);
        } else {
            assert(t =~= seq![s[0]] + tail);
            assert(t.skip(1) =~= tail);
        }
        assert(seq![s[0]] + s.drop_first() =~= s);
    }
}

/// Text without delimiters is its own escaped form.
pub proof fn lemma_escape_plain(s: Seq<char>)
    requires
        forall|i: int| 0 <= i < s.len() ==> !is_identity_delimiter(#[trigger] s[i]),
    ensures
        escaped_component(s) == s,
    decreases s.len(),
{
    if s.len() > 0 {
        lemma_escape_unfold(s);
        lemma_escape_plain(s.drop_first());
        assert(seq![s[0]] + s.drop_first() =~= s);
    }
}

/// Text without delimiters.
pub open spec fn no_delimiters(s: Seq<char>) -> bool {
    forall|i: int| 0 <= i < s.len() ==> !is_identity_delimiter(#[trigger] s[i])
}

/// The identity after its version: `fingerprint:tthreshold]`.
pub open spec fn identity_after_version(fingerprint: Seq<char>, threshold: Seq<char>) -> Seq<char> {
    fingerprint + (seq![':'] + (seq!['t'] + (threshold + seq![']'])))
}

/// The identity after its prompt id: `@version#...`, version escaped.
pub open spec fn identity_after_id(version: Seq<char>, fingerprint: Seq<char>, threshold: Seq<char>) -> Seq<char> {
    escaped_component(version) + (seq!['#'] + identity_after_version(fingerprint, threshold))
}

/// The identity after its model: `prompt_id@...`, prompt id escaped.
pub open spec fn identity_after_model(prompt_id: Seq<char>, version: Seq<char>, fingerprint: Seq<char>, threshold: Seq<char>) -> Seq<char> {
    escaped_component(prompt_id) + (seq!['@'] + identity_after_id(version, fingerprint, threshold))
}

/// The identity after its provider: `model@...`, model escaped.
pub open spec fn identity_after_provider(
    model: Seq<char>,
    prompt_id: Seq<char>,
    version: Seq<char>,
    fingerprint: Seq<char>,
    threshold: Seq<char>,
) -> Seq<char> {
    escaped_component(model) + (seq!['@'] + identity_after_model(prompt_id, version, fingerprint, threshold))
}

/// The identity of an LLM-judge metric:
/// `llm_judge[provider/model@prompt_id@version#fingerprint:tthreshold]`, with
/// provider, model, prompt id and version escaped.
pub open spec fn judge_identity(
    provider: Seq<char>,
    model: Seq<char>,
    prompt_id: Seq<char>,
    version: Seq<char>,
    fingerprint: Seq<char>,
    threshold: Seq<char>,
) -> Seq<char> {
    "llm_judge["@ + (escaped_component(provider) + (seq!['/'] + identity_after_provider(
        model,
        prompt_id,
        version,
        fingerprint,
        threshold,
    )))
}

/// Builds the collision-safe identity of an LLM-judge metric from its
/// provider, model, prompt id and version (each escaped), rubric fingerprint
/// and formatted pass threshold.
pub fn judge_metric_name(
    provider: &str,
    model: &str,
    prompt_id: &str,
    version: &str,
    fingerprint: &str,
    threshold: &str,
) -> (r: String)
    ensures
        r@ == judge_identity(provider@, model@, prompt_id@, version@, fingerprint@, threshold@),
{
    let mut out = String::new();
    push_str_of(&mut out, "llm_judge[");
    push_str_of(&mut out, escape_component(provider).as_str());
    push_char(&mut out, '/');
    push_str_of(&mut out, escape_component(model).as_str());
    push_char(&mut out, '@');
    push_str_of(&mut out, escape_component(prompt_id).as_str());
    push_char(&mut out, '@');
    push_str_of(&mut out, escape_component(version).as_str());
    push_char(&mut out, '#');
    push_str_of(&mut out, fingerprint);
    push_char(&mut out, ':');
    push_char(&mut out, 't');
    push_str_of(&mut out, threshold);
    push_char(&mut out, ']');
    assert(out@ =~= judge_identity(provider@, model@, prompt_id@, version@, fingerprint@, threshold@));
    out
}

/// Reading one component of an identity and the delimiter after it.
proof fn lemma_split_step(a1: Seq<char>, a2: Seq<char>, d: char, r1: Seq<char>, r2: Seq<char>)
    requires
        is_identity_delimiter(d),
        d != '\\',
        escaped_component(a1) + (seq![d] + r1) == escaped_component(a2) + (seq![d] + r2),
    ensures
        a1 == a2,
        r1 == r2,
{
    lemma_read_escaped(a1, seq![d] + r1);
    lemma_read_escaped(a2, seq![d] + r2);
    assert((seq![d] + r1).skip(1) =~= r1);
    assert((seq![d] + r2).skip(1) =~= r2);
}

/// Distinct judge identities never alias: when fingerprints and thresholds
/// contain no delimiters, equal identities have equal provider, model, prompt
/// id, version, fingerprint and threshold.
pub proof fn judge_identity_is_unambiguous(
    p1: Seq<char>, m1: Seq<char>, i1: Seq<char>, v1: Seq<char>, f1: Seq<char>, t1: Seq<char>,
    p2: Seq<char>, m2: Seq<char>, i2: Seq<char>, v2: Seq<char>, f2: Seq<char>, t2: Seq<char>,
)
    requires
        no_delimiters(f1),
        no_delimiters(f2),
        no_delimiters(t1),
        no_delimiters(t2),
        judge_identity(p1, m1, i1, v1, f1, t1) == judge_identity(p2, m2, i2, v2, f2, t2),
    ensures
        p1 == p2 && m1 == m2 && i1 == i2 && v1 == v2 && f1 == f2 && t1 == t2,
{
    reveal_strlit("llm_judge[");
    lemma_escape_plain(f1);
    lemma_escape_plain(f2);
    lemma_escape_plain(t1);
    lemma_escape_plain(t2);
    let n1 = judge_identity(p1, m1, i1, v1, f1, t1);
    let n2 = judge_identity(p2, m2, i2, v2, f2, t2);
    let r6a = seq!['t'] + (t1 + seq![']']);
    let r6b = seq!['t'] + (t2 + seq![']']);
    let r5a = identity_after_version(f1, t1);
    let r5b = identity_after_version(f2, t2);
    let r4a = identity_after_id(v1, f1, t1);
    let r4b = identity_after_id(v2, f2, t2);
    let r3a = identity_after_model(i1, v1, f1, t1);
    let r3b = identity_after_model(i2, v2, f2, t2);
    let r2a = identity_after_provider(m1, i1, v1, f1, t1);
    let r2b = identity_after_provider(m2, i2, v2, f2, t2);
    let r1a = escaped_component(p1) + (seq!['/'] + r2a);
    let r1b = escaped_component(p2) + (seq!['/'] + r2b);
    assert("llm_judge["@.len() == 10);
    assert(r1a =~= n1.skip(10));
    assert(r1b =~= n2.skip(10));
    lemma_split_step(p1, p2, '/', r2a, r2b);
    lemma_split_step(m1, m2, '@', r3a, r3b);
    lemma_split_step(i1, i2, '@', r4a, r4b);
    lemma_split_step(v1, v2, '#', r5a, r5b);
    assert(r5a == escaped_component(f1) + (seq![':'] + r6a));
    assert(r5b == escaped_component(f2) + (seq![':'] + r6b));
    lemma_split_step(f1, f2, ':', r6a, r6b);
    assert(t1 + seq![']'] =~= r6a.skip(1));
    assert(t2 + seq![']'] =~= r6b.skip(1));
    assert(t1 + seq![']'] == escaped_component(t1) + seq![']']);
    assert(t2 + seq![']'] == escaped_component(t2) + seq![']']);
    lemma_read_escaped(t1, seq![']']);
    lemma_read_escaped(t2, seq![']']);
}

/// The name of a metric computed at a cutoff: `base[t<threshold>]`, the
/// cutoff's text folded into the identity.
pub open spec fn threshold_name(base: Seq<char>, threshold: Seq<char>) -> Seq<char> {
    base + "[t"@ + threshold + "]"@
}

/// Names a metric computed at a cutoff, from its base name and the cutoff's
/// text, so runs scored at different cutoffs never share a name.
pub fn threshold_metric_name(base: &str, threshold: &str) -> (r: String)
    ensures
        r@ == threshold_name(base@, threshold@),
{
    let mut out = String::new();
    push_str_of(&mut out, base);
    push_str_of(&mut out, "[t");
    push_str_of(&mut out, threshold);
    push_str_of(&mut out, "]");
    out
}

/// Under one base name, different cutoffs give different metric names.
pub proof fn threshold_is_part_of_the_name(base: Seq<char>, t1: Seq<char>, t2: Seq<char>)
    requires
        threshold_name(base, t1) == threshold_name(base, t2),
    ensures
        t1 == t2,
{
    reveal_strlit("[t");
    reveal_strlit("]");
    let n1 = threshold_name(base, t1);
    let n2 = threshold_name(base, t2);
    let k = base.len() + 2;
    assert(n1.len() == n2.len());
    assert(n1.subrange(k as int, n1.len() - 1) =~= t1);
    assert(n2.subrange(k as int, n2.len() - 1) =~= t2);
}

} // verus!
