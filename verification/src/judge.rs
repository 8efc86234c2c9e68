//! The trust boundary of an LLM judge: reply checks, verdict-key screening,
//! model-consistency checks and the lifting of judge identities into provenance.

use vstd::prelude::*;
use crate::error::{BenchError, ErrorCode};
use vstd::string::StringSliceAdditionalSpecFns;
use crate::provenance::{JudgeMap, JudgeProvenance, entries_map};
use crate::text::{
    debug_quoted, debug_text, chars_eq, chars_of, chars_range, decimal, push_decimal, push_str_of, str_eq, string_of, trim_chars, trim_end_index,
    trim_end_seq, trim_seq,
};

verus! {

/// Why a completion stopped, as the provider reports it.
#[derive(Debug, Clone, Copy, PartialEq, Eq, Structural)]
pub enum FinishReason {
    /// The model finished its reply.
    Stop,
    /// The reply was cut by the token limit.
    Length,
    /// A content filter stopped the reply.
    ContentFilter,
    /// The model asked to call a tool.
    ToolUse,
    /// The provider reported an error.
    Error,
    /// The request was cancelled.
    Cancelled,
}

/// The name a stop reason is reported under.
pub open spec fn reason_name(r: FinishReason) -> Seq<char> {
    match r {
        FinishReason::Stop => "Stop"@,
        FinishReason::Length => "Length"@,
        FinishReason::ContentFilter => "ContentFilter"@,
        FinishReason::ToolUse => "ToolUse"@,
        FinishReason::Error => "Error"@,
        FinishReason::Cancelled => "Cancelled"@,
    }
}

fn reason_text(r: FinishReason) -> (t: &'static str)
    ensures
        t@ == reason_name(r),
{
    match r {
        FinishReason::Stop => "Stop",
        FinishReason::Length => "Length",
        FinishReason::ContentFilter => "ContentFilter",
        FinishReason::ToolUse => "ToolUse",
        FinishReason::Error => "Error",
        FinishReason::Cancelled => "Cancelled",
    }
}

/// The message refusing a completion that ended for `reason`.
pub open spec fn incomplete_message(reason: FinishReason) -> Seq<char> {
    "llm_judge: judge completion did not finish normally (stop reason "@ + reason_name(reason)
        + "); its reply is not a trustworthy verdict"@
}

/// Accepts a completion only when it ended naturally (or the provider did not
/// say why it ended); any other stop reason is a fault of the judge service,
/// named in the error.
pub fn ensure_complete_reason(stop_reason: Option<FinishReason>) -> (r: Result<(), BenchError>)
    ensures
        r is Ok <==> (stop_reason is None || stop_reason == Some(FinishReason::Stop)),
        r matches Err(e) ==> e.code == ErrorCode::ExternalService && e.message@ == incomplete_message(
            stop_reason->Some_0,
        ),
{
    match stop_reason {
        None => Ok(()),
        Some(FinishReason::Stop) => Ok(()),
        Some(reason) => {
            let mut m = String::new();
            push_str_of(&mut m, "llm_judge: judge completion did not finish normally (stop reason ");
            push_str_of(&mut m, reason_text(reason));
            push_str_of(&mut m, "); its reply is not a trustworthy verdict");
            Err(BenchError::new(ErrorCode::ExternalService, m.as_str()))
        },
    }
}

/// Largest judge reply, in bytes, that is parsed.
pub const MAX_REPLY_BYTES: usize = 65536;

/// The message refusing a reply of `n` bytes.
pub open spec fn oversize_message(n: nat) -> Seq<char> {
    "llm_judge: judge reply of "@ + decimal(n) + " bytes exceeds the "@ + decimal(MAX_REPLY_BYTES as nat) + "-byte bound"@
}

/// Rejects a reply longer than [`MAX_REPLY_BYTES`] bytes before it is parsed.
pub fn check_reply_size(reply: &str) -> (r: Result<(), BenchError>)
    ensures
        r is Ok <==> reply.len() <= MAX_REPLY_BYTES,
        r matches Err(e) ==> e.code == ErrorCode::ExternalService && e.message@ == oversize_message(reply.len() as nat),
{
    if reply.len() > MAX_REPLY_BYTES {
        let mut m = String::new();
        push_str_of(&mut m, "llm_judge: judge reply of ");
        push_decimal(&mut m, reply.len() as u64);
        push_str_of(&mut m, " bytes exceeds the ");
        push_decimal(&mut m, MAX_REPLY_BYTES as u64);
        push_str_of(&mut m, "-byte bound");
        Err(BenchError::new(ErrorCode::ExternalService, m.as_str()))
    } else {
        Ok(())
    }
}

/// Three backticks, the Markdown code-fence marker.
pub open spec fn fence() -> Seq<char> {
    seq!['`', '`', '`']
}

/// `t` with one surrounding Markdown code fence removed: after an opening
/// fence, the rest of its line (a language tag) is dropped, and when the text,
/// with trailing white space removed, ends in a closing fence, the trimmed
/// inside is returned; anything else is returned unchanged.
pub open spec fn stripped_fence(t: Seq<char>) -> Seq<char> {
    if t.len() >= 3 && t.take(3) == fence() {
        let rest = t.skip(3);
        let after_open = match rest.index_of_first('\n') {
            Some(k) => rest.skip(k + 1),
            None => rest,
        };
        let te = trim_end_seq(after_open);
        if te.len() >= 3 && te.skip(te.len() - 3) == fence() {
            trim_seq(te.take(te.len() - 3))
        } else {
            t
        }
    } else {
        t
    }
}

/// Strips a single surrounding Markdown code fence (such as a ```json block),
/// returning the inner body; text without a complete fence is returned unchanged.
pub fn strip_code_fence(text: &str) -> (r: String)
    ensures
        r@ == stripped_fence(text@),
{
    let t = chars_of(text);
    let n = t.len();
    if n < 3 || t[0] != '`' || t[1] != '`' || t[2] != '`' {
        assert(!(t@.len() >= 3 && t@.take(3) == fence())) by {
            if t@.len() >= 3 && t@.take(3) == fence() {
                assert(t@.take(3)[0] == '`' && t@.take(3)[1] == '`' && t@.take(3)[2] == '`');
            }
        }
        return String::from_str(text);
    }
    assert(t@.take(3) =~= fence());
    let ghost rest = t@.skip(3);
    let mut k: usize = 3;
    while k < n && t[k] != '\n'
        invariant
            3 <= k <= n,
            n == t@.len(),
            forall|j: int| 3 <= j < k ==> t@[j] != '\n',
        decreases n - k,
    {
        k = k + 1;
    }
    let start: usize = if k < n { k + 1 } else { 3 };
    proof {
        rest.index_of_first_ensures('\n');
        if k < n {
            assert(rest[k - 3] == '\n');
            assert(rest.contains('\n'));
            let idx = rest.index_of_first('\n')->Some_0;
            assert(idx == k - 3) by {
                if idx < k - 3 {
                    assert(t@[idx + 3] == rest[idx]);
                }
            }
            assert(rest.skip(idx + 1) =~= t@.subrange(start as int, n as int));
        } else {
            assert(!rest.contains('\n')) by {
                if rest.contains('\n') {
                    let j = choose|j: int| 0 <= j < rest.len() && rest[j] == '\n';
                    assert(t@[j + 3] == rest[j]);
                }
            }
            assert(rest =~= t@.subrange(start as int, n as int));
        }
    }
    let e = trim_end_index(&t, start);
    let ghost te = t@.subrange(start as int, e as int);
    if e - start >= 3 && t[e - 3] == '`' && t[e - 2] == '`' && t[e - 1] == '`' {
        assert(te.skip(te.len() - 3) =~= fence());
        let inner = chars_range(&t, start, e - 3);
        assert(inner@ =~= te.take(te.len() - 3));
        let trimmed = trim_chars(&inner);
        string_of(&trimmed)
    } else {
        assert(!(te.len() >= 3 && te.skip(te.len() - 3) == fence())) by {
            if te.len() >= 3 && te.skip(te.len() - 3) == fence() {
                assert(te.skip(te.len() - 3)[0] == t@[e - 3]);
                assert(te.skip(te.len() - 3)[1] == t@[e - 2]);
                assert(te.skip(te.len() - 3)[2] == t@[e - 1]);
            }
        }
        String::from_str(text)
    }
}

/// The text a verdict is read from: the trimmed reply without its Markdown
/// code fence, when it has one.
pub fn verdict_body(reply: &str) -> (r: String)
    ensures
        r@ == stripped_fence(trim_seq(reply@)),
{
    let t = trim_chars(&chars_of(reply));
    let s = string_of(&t);
    strip_code_fence(s.as_str())
}

/// Screens a completed judge call before its verdict is read: a completion
/// that did not end naturally is refused first, then a reply over
/// [`MAX_REPLY_BYTES`] bytes; otherwise the body the verdict is read from is
/// handed back.
pub fn screen_reply(stop_reason: Option<FinishReason>, reply: &str) -> (r: Result<String, BenchError>)
    ensures
        r matches Ok(b) ==> b@ == stripped_fence(trim_seq(reply@)),
        r is Ok <==> (stop_reason is None || stop_reason == Some(FinishReason::Stop)) && reply.len() <= MAX_REPLY_BYTES,
        r matches Err(e) ==> e.code == ErrorCode::ExternalService,
        !(stop_reason is None || stop_reason == Some(FinishReason::Stop)) ==> (r matches Err(e) && e.message@
            == incomplete_message(stop_reason->Some_0)),
        (stop_reason is None || stop_reason == Some(FinishReason::Stop)) && reply.len() > MAX_REPLY_BYTES ==> (r matches Err(
            e,
        ) && e.message@ == oversize_message(reply.len() as nat)),
{
    match ensure_complete_reason(stop_reason) {
        Err(e) => return Err(e),
        Ok(()) => {},
    }
    match check_reply_size(reply) {
        Err(e) => return Err(e),
        Ok(()) => {},
    }
    Ok(verdict_body(reply))
}

/// A field of a judge verdict.
#[derive(Debug, Clone, Copy, PartialEq, Eq, Structural)]
pub enum VerdictKey {
    /// The `score` field.
    Score,
    /// The `rationale` field.
    Rationale,
}

/// The code of `c` after ASCII lower-casing.
pub open spec fn ascii_lower_code(c: char) -> int {
    if 'A' <= c && c <= 'Z' {
        c as int + 32
    } else {
        c as int
    }
}

/// Equality of two texts after ASCII lower-casing.
pub open spec fn eq_ignore_ascii_case(a: Seq<char>, b: Seq<char>) -> bool {
    a.len() == b.len() && forall|i: int| 0 <= i < a.len() ==> ascii_lower_code(#[trigger] a[i]) == ascii_lower_code(b[i])
}

/// The verdict field a top-level key names, matched without regard to ASCII case.
pub open spec fn verdict_key_of(k: Seq<char>) -> Option<VerdictKey> {
    if eq_ignore_ascii_case(k, "score"@) {
        Some(VerdictKey::Score)
    } else if eq_ignore_ascii_case(k, "rationale"@) {
        Some(VerdictKey::Rationale)
    } else {
        None
    }
}

/// Key `i` repeats a verdict field already named by an earlier key.
pub open spec fn repeats_field(keys: Seq<Seq<char>>, i: int) -> bool {
    &&& 0 <= i < keys.len()
    &&& verdict_key_of(keys[i]) is Some
    &&& exists|j: int| 0 <= j < i && verdict_key_of(#[trigger] keys[j]) == verdict_key_of(keys[i])
}

/// The texts of a list of strings.
pub open spec fn key_views(keys: Seq<String>) -> Seq<Seq<char>> {
    keys.map_values(|k: String| k@)
}

/// Decides [`eq_ignore_ascii_case`] against a lowercase ASCII word `b`,
/// given also in upper case as `bu`.
fn eq_ignore_case_exec(a: &Vec<char>, b: &str, bu: &str) -> (r: bool)
    requires
        b@.len() == bu@.len(),
        forall|i: int| 0 <= i < b@.len() ==> 'a' <= #[trigger] b@[i] && b@[i] <= 'z' && bu@[i] as int == b@[i] as int - 32,
    ensures
        r == eq_ignore_ascii_case(a@, b@),
{
    let bv = chars_of(b);
    let uv = chars_of(bu);
    if a.len() != bv.len() {
        return false;
    }
    let mut i: usize = 0;
    while i < a.len()
        invariant
            i <= a@.len() == bv@.len() == uv@.len(),
            bv@ == b@,
            uv@ == bu@,
            forall|k: int| 0 <= k < b@.len() ==> 'a' <= #[trigger] b@[k] && b@[k] <= 'z' && bu@[k] as int == b@[k] as int - 32,
            forall|j: int| 0 <= j < i ==> ascii_lower_code(#[trigger] a@[j]) == ascii_lower_code(bv@[j]),
        decreases a@.len() - i,
    {
        let x = a[i];
        let y = bv[i];
        let yu = uv[i];
        assert(y == b@[i as int] && yu == bu@[i as int]);
        if x != y && x != yu {
            assert(ascii_lower_code(x) != ascii_lower_code(y));
            return false;
        }
        i = i + 1;
    }
    true
}

/// Decides [`verdict_key_of`].
fn verdict_key_exec(k: &Vec<char>) -> (r: Option<VerdictKey>)
    ensures
        r == verdict_key_of(k@),
{
    proof {
        reveal_strlit("score");
        reveal_strlit("SCORE");
        reveal_strlit("rationale");
        reveal_strlit("RATIONALE");
    }
    if eq_ignore_case_exec(k, "score", "SCORE") {
        Some(VerdictKey::Score)
    } else if eq_ignore_case_exec(k, "rationale", "RATIONALE") {
        Some(VerdictKey::Rationale)
    } else {
        None
    }
}

/// The first verdict field that a key list names twice (ignoring ASCII case),
/// reported at the key that repeats it.
pub fn first_duplicate_verdict_key(keys: &Vec<String>) -> (r: Option<VerdictKey>)
    ensures
        ({
            let ks = key_views(keys@);
            match r {
                Some(f) => exists|i: int| repeats_field(ks, i) && verdict_key_of(ks[i]) == Some(f)
                    && forall|j: int| 0 <= j < i ==> !repeats_field(ks, j),
                None => forall|i: int| !#[trigger] repeats_field(ks, i),
            }
        }),
{
    let ghost ks = key_views(keys@);
    let mut seen_score = false;
    let mut seen_rationale = false;
    let mut i: usize = 0;
    while i < keys.len()
        invariant
            i <= keys@.len(),
            ks == key_views(keys@),
            seen_score == exists|j: int| 0 <= j < i && verdict_key_of(#[trigger] ks[j]) == Some(VerdictKey::Score),
            seen_rationale == exists|j: int| 0 <= j < i && verdict_key_of(#[trigger] ks[j]) == Some(VerdictKey::Rationale),
            forall|j: int| 0 <= j < i ==> !repeats_field(ks, j),
        decreases keys@.len() - i,
    {
        let k = chars_of(keys[i].as_str());
        assert(ks[i as int] == k@);
        match verdict_key_exec(&k) {
            Some(VerdictKey::Score) => {
                if seen_score {
                    assert(repeats_field(ks, i as int));
                    return Some(VerdictKey::Score);
                }
                seen_score = true;
            },
            Some(VerdictKey::Rationale) => {
                if seen_rationale {
                    assert(repeats_field(ks, i as int));
                    return Some(VerdictKey::Rationale);
                }
                seen_rationale = true;
            },
            None => {},
        }
        i = i + 1;
    }
    proof {
        assert forall|j: int| !repeats_field(ks, j) by {
            if 0 <= j < ks.len() {
                assert(j < i);
            }
        }
    }
    None
}

/// The error of a reply that repeats a verdict field.
pub open spec fn duplicate_key_message(k: VerdictKey) -> Seq<char> {
    "llm_judge: judge reply repeats the `"@ + (match k {
        VerdictKey::Score => "score"@,
        VerdictKey::Rationale => "rationale"@,
    }) + "` verdict key; an untrusted judge must not choose its score by duplicating a field"@
}

/// Rejects a verdict object whose top-level keys (in order) repeat the
/// `score` or `rationale` field, so an untrusted judge cannot choose its own
/// score by duplicating a field.
pub fn check_verdict_keys(keys: &Vec<String>) -> (r: Result<(), BenchError>)
    ensures
        r is Ok <==> forall|i: int| !#[trigger] repeats_field(key_views(keys@), i),
        r matches Err(e) ==> e.code == ErrorCode::ExternalService && exists|i: int|
            #[trigger] repeats_field(key_views(keys@), i) && (forall|j: int| 0 <= j < i ==> !repeats_field(key_views(keys@), j))
                && e.message@ == duplicate_key_message(verdict_key_of(key_views(keys@)[i])->Some_0),
{
    match first_duplicate_verdict_key(keys) {
        Some(k) => {
            let mut m = String::new();
            push_str_of(&mut m, "llm_judge: judge reply repeats the `");
            push_str_of(&mut m, if k == VerdictKey::Score { "score" } else { "rationale" });
            push_str_of(&mut m, "` verdict key; an untrusted judge must not choose its score by duplicating a field");
            assert(m@ == duplicate_key_message(k));
            Err(BenchError::new(ErrorCode::ExternalService, m.as_str()))
        },
        None => Ok(()),
    }
}

/// Two samples reported different, non-empty models.
pub open spec fn mixed_models(models: Seq<Seq<char>>) -> bool {
    exists|i: int, j: int|
        0 <= i < models.len() && 0 <= j < models.len() && #[trigger] models[i].len() > 0
            && #[trigger] models[j].len() > 0 && models[i] != models[j]
}

/// Some sample reported a model and another reported none.
pub open spec fn partial_models(models: Seq<Seq<char>>) -> bool {
    (exists|i: int| 0 <= i < models.len() && #[trigger] models[i].len() > 0)
        && (exists|j: int| 0 <= j < models.len() && #[trigger] models[j].len() == 0)
}

/// The first model reported (non-empty) among `ms`.
pub open spec fn first_model(ms: Seq<Seq<char>>) -> Option<Seq<char>>
    decreases ms.len(),
{
    if ms.len() == 0 {
        None
    } else {
        match first_model(ms.drop_last()) {
            Some(m) => Some(m),
            None => if ms.last().len() > 0 {
                Some(ms.last())
            } else {
                None
            },
        }
    }
}

/// The first model reported among `ms` that differs from `a`.
pub open spec fn first_other_model(ms: Seq<Seq<char>>, a: Seq<char>) -> Option<Seq<char>>
    decreases ms.len(),
{
    if ms.len() == 0 {
        None
    } else {
        match first_other_model(ms.drop_last(), a) {
            Some(m) => Some(m),
            None => if ms.last().len() > 0 && ms.last() != a {
                Some(ms.last())
            } else {
                None
            },
        }
    }
}

/// The error of a run served by mixed models: the first model reported and
/// the first one that differs from it, each in its `Debug` rendering.
pub open spec fn mixed_models_message(ms: Seq<Seq<char>>) -> Seq<char> {
    let a = first_model(ms)->Some_0;
    "llm_judge: provider served mixed models within one run ("@ + debug_text(a) + " and "@ + debug_text(
        first_other_model(ms, a)->Some_0,
    ) + "); scores are not comparable"@
}

proof fn lemma_first_models_of_prefix(ms: Seq<Seq<char>>, k: int, a: Seq<char>)
    requires
        0 <= k <= ms.len(),
    ensures
        first_model(ms.take(k)) is Some ==> first_model(ms) == first_model(ms.take(k)),
        first_other_model(ms.take(k), a) is Some ==> first_other_model(ms, a) == first_other_model(ms.take(k), a),
    decreases ms.len(),
{
    if k == ms.len() {
        assert(ms.take(k) =~= ms);
    } else {
        let d = ms.drop_last();
        lemma_first_models_of_prefix(d, k, a);
        assert(d.take(k) =~= ms.take(k));
    }
}

proof fn lemma_no_models(ms: Seq<Seq<char>>, a: Seq<char>)
    requires
        forall|j: int| 0 <= j < ms.len() ==> #[trigger] ms[j].len() == 0,
    ensures
        first_model(ms) is None,
        first_other_model(ms, a) is None,
    decreases ms.len(),
{
    if ms.len() > 0 {
        lemma_no_models(ms.drop_last(), a);
    }
}

/// A run where some samples reported a model and others none.
pub const PARTIAL_MODELS_MESSAGE: &'static str =
    "llm_judge: provider reported a resolved model for some samples but not others; scores are not comparable";

/// Checks that every graded sample was served by one consistently reported
/// model: all report the same model (returned), or none reports one (`None`).
/// Mixed models, or a model reported for some samples but not others, are a
/// fault of the judge service.
pub fn resolve_reported_model(models: &Vec<String>) -> (r: Result<Option<String>, BenchError>)
    ensures
        ({
            let ms = models@.map_values(|m: String| m@);
            &&& r is Err <==> mixed_models(ms) || partial_models(ms)
            &&& r matches Err(e) ==> e.code == ErrorCode::ExternalService
            &&& mixed_models(ms) ==> (r matches Err(e) && e.message@ == mixed_models_message(ms))
            &&& !mixed_models(ms) && partial_models(ms) ==> (r matches Err(e) && e.message@ == PARTIAL_MODELS_MESSAGE@)
            &&& r matches Ok(None) ==> forall|i: int| 0 <= i < ms.len() ==> #[trigger] ms[i].len() == 0
            &&& r matches Ok(Some(m)) ==> m@.len() > 0 && forall|i: int| 0 <= i < ms.len() ==> #[trigger] ms[i] == m@
        }),
{
    let ghost ms = models@.map_values(|m: String| m@);
    let mut seen: Option<Vec<char>> = None;
    let mut saw_empty = false;
    let mut i: usize = 0;
    while i < models.len()
        invariant
            i <= ms.len(),
            ms == models@.map_values(|m: String| m@),
            seen is None ==> forall|j: int| 0 <= j < i ==> #[trigger] ms[j].len() == 0,
            seen is None ==> first_model(ms.take(i as int)) is None,
            seen matches Some(s) ==> s@.len() > 0 && (exists|j: int| 0 <= j < i && #[trigger] ms[j] == s@)
                && forall|j: int| 0 <= j < i && #[trigger] ms[j].len() > 0 ==> ms[j] == s@,
            seen matches Some(s) ==> first_model(ms.take(i as int)) == Some(s@) && first_other_model(
                ms.take(i as int),
                s@,
            ) is None,
            saw_empty == exists|j: int| 0 <= j < i && #[trigger] ms[j].len() == 0,
        decreases ms.len() - i,
    {
        let m = chars_of(models[i].as_str());
        assert(ms[i as int] == m@);
        assert(ms.take(i + 1).drop_last() =~= ms.take(i as int));
        assert(ms.take(i + 1).last() == ms[i as int]);
        if m.len() == 0 {
            saw_empty = true;
        } else {
            match &seen {
                None => {
                    proof {
                        lemma_no_models(ms.take(i as int), m@);
                    }
                    seen = Some(m);
                },
                Some(s) => {
                    if !chars_eq(s, &m) {
                        proof {
                            let j = choose|j: int| 0 <= j < i && #[trigger] ms[j] == s@;
                            assert(ms[j].len() > 0 && ms[i as int].len() > 0 && ms[j] != ms[i as int]);
                        }
                        proof {
                            lemma_first_models_of_prefix(ms, i + 1, s@);
                            assert(first_model(ms) == Some(s@));
                            assert(first_other_model(ms, s@) == Some(ms[i as int]));
                        }
                        let mut msg = String::new();
                        push_str_of(&mut msg, "llm_judge: provider served mixed models within one run (");
                        push_str_of(&mut msg, debug_quoted(string_of(s).as_str()).as_str());
                        push_str_of(&mut msg, " and ");
                        push_str_of(&mut msg, debug_quoted(models[i].as_str()).as_str());
                        push_str_of(&mut msg, "); scores are not comparable");
                        assert(msg@ =~= mixed_models_message(ms));
                        return Err(BenchError::new(ErrorCode::ExternalService, msg.as_str()));
                    }
                },
            }
        }
        i = i + 1;
    }
    proof {
        assert(!mixed_models(ms)) by {
            if let Some(s) = seen {
                assert forall|a: int, b: int| 0 <= a < ms.len() && 0 <= b < ms.len() && #[trigger] ms[a].len() > 0
                    && #[trigger] ms[b].len() > 0 implies ms[a] == ms[b] by {
                    assert(ms[a] == s@ && ms[b] == s@);
                }
            }
        }
    }
    match seen {
        Some(s) => {
            if saw_empty {
                Err(BenchError::new(ErrorCode::ExternalService, PARTIAL_MODELS_MESSAGE))
            } else {
                proof {
                    assert forall|j: int| 0 <= j < ms.len() implies #[trigger] ms[j] == s@ by {
                        if ms[j].len() == 0 {
                            assert(saw_empty);
                        }
                    }
                    assert(!partial_models(ms));
                }
                Ok(Some(string_of(&s)))
            }
        },
        None => Ok(None),
    }
}

/// The judge identity a judge metric records in its result detail; each
/// field is present when the detail holds it as a string.
#[derive(Debug, Clone, PartialEq, Eq)]
pub struct JudgeDetail {
    pub provider: Option<String>,
    pub model: Option<String>,
    pub prompt_id: Option<String>,
    pub prompt_version: Option<String>,
    pub prompt_fingerprint: Option<String>,
    pub resolved_model: Option<String>,
}

/// The judge provenance a detail records: present when provider, model,
/// prompt id, prompt version and fingerprint all are, with the resolved model
/// when the detail has one.
pub open spec fn detail_judge(d: JudgeDetail) -> Option<JudgeProvenance> {
    if d.provider is Some && d.model is Some && d.prompt_id is Some && d.prompt_version is Some
        && d.prompt_fingerprint is Some {
        Some(JudgeProvenance {
            provider: d.provider->Some_0,
            model: d.model->Some_0,
            prompt_id: d.prompt_id->Some_0,
            prompt_version: d.prompt_version->Some_0,
            prompt_fingerprint: d.prompt_fingerprint->Some_0,
            resolved_model: d.resolved_model,
        })
    } else {
        None
    }
}

/// Judge identities of a result set keyed by metric name: each result whose
/// detail records a complete judge identity, a later result replacing an
/// earlier one of the same name.
pub open spec fn details_map(ds: Seq<(String, JudgeDetail)>) -> Map<Seq<char>, JudgeProvenance>
    decreases ds.len(),
{
    if ds.len() == 0 {
        Map::empty()
    } else {
        let rest = details_map(ds.drop_last());
        match detail_judge(ds.last().1) {
            Some(j) => rest.insert(ds.last().0@, j),
            None => rest,
        }
    }
}

/// Copies an optional string exactly.
fn clone_opt(o: &Option<String>) -> (r: Option<String>)
    ensures
        r == *o,
{
    match o {
        Some(s) => Some(s.clone()),
        None => None,
    }
}

/// Extracts the judge identities recorded by judge metrics, given each
/// result's name and detail, into judge provenance keyed by metric name.
pub fn judges_from_details(details: &Vec<(String, JudgeDetail)>) -> (m: JudgeMap)
    ensures
        m.wf(),
        entries_map(m@) == details_map(details@),
{
    let mut m = JudgeMap::new();
    assert(entries_map(m@) =~= Map::<Seq<char>, JudgeProvenance>::empty());
    let mut i: usize = 0;
    while i < details.len()
        invariant
            i <= details@.len(),
            m.wf(),
            entries_map(m@) == details_map(details@.take(i as int)),
        decreases details@.len() - i,
    {
        let (name, d) = &details[i];
        assert(details@.take(i + 1).drop_last() =~= details@.take(i as int));
        assert(details@.take(i + 1).last() == details@[i as int]);
        if let (Some(p), Some(mo), Some(id), Some(v), Some(f)) = (
            &d.provider,
            &d.model,
            &d.prompt_id,
            &d.prompt_version,
            &d.prompt_fingerprint,
        ) {
            let j = JudgeProvenance {
                provider: p.clone(),
                model: mo.clone(),
                prompt_id: id.clone(),
                prompt_version: v.clone(),
                prompt_fingerprint: f.clone(),
                resolved_model: clone_opt(&d.resolved_model),
            };
            assert(detail_judge(*d) == Some(j));
            m.insert(name.clone(), j);
        }
        i = i + 1;
    }
    assert(details@.take(details@.len() as int) =~= details@);
    m
}

/// A judge with no concurrency.
pub const CONCURRENCY_MESSAGE: &'static str = "llm_judge: concurrency must be greater than zero";

/// A judge without a model.
pub const MODEL_MESSAGE: &'static str =
    "llm_judge: model must be a non-blank identifier so the run records a reproducible judge model";

/// A judge whose calls are retried.
pub const RETRY_MESSAGE: &'static str = "llm_judge: a retry-configured policy is invalid because a judge call is not idempotent — a retry would double-bill the judge and could nondeterministically replace a verdict";

/// A judge whose calls have no time bound.
pub const TIMEOUT_MESSAGE: &'static str =
    "llm_judge: policy must configure a positive timeout so every judge provider call is time-bounded";

/// A judge without a prompt-size bound.
pub const PROMPT_BOUND_MESSAGE: &'static str = "llm_judge: max_prompt_bytes must be greater than zero";

/// The model a judge is asked for, as recorded in its identity and detail:
/// the requested text with leading and trailing white space removed.
pub fn requested_model(model: &str) -> (r: String)
    ensures
        r@ == trim_seq(model@),
{
    string_of(&trim_chars(&chars_of(model)))
}

/// Checks the configuration of an LLM judge before it grades anything: a
/// positive concurrency, a model that is not blank once trimmed, no retries (a judge call is not
/// idempotent), a positive timeout and a positive prompt-size bound. Each
/// fault is an invalid-input error.
pub fn validate_judge_config(
    concurrency: usize,
    model: &str,
    has_retry: bool,
    has_positive_timeout: bool,
    max_prompt_bytes: usize,
) -> (r: Result<(), BenchError>)
    ensures
        r is Ok <==> concurrency > 0 && trim_seq(model@).len() > 0 && !has_retry && has_positive_timeout
            && max_prompt_bytes > 0,
        r matches Err(e) ==> e.code == ErrorCode::InvalidInput && e.message@ == (if concurrency == 0 {
            CONCURRENCY_MESSAGE@
        } else if trim_seq(model@).len() == 0 {
            MODEL_MESSAGE@
        } else if has_retry {
            RETRY_MESSAGE@
        } else if !has_positive_timeout {
            TIMEOUT_MESSAGE@
        } else {
            PROMPT_BOUND_MESSAGE@
        }),
{
    if concurrency == 0 {
        return Err(BenchError::new(ErrorCode::InvalidInput, CONCURRENCY_MESSAGE));
    }
    if trim_chars(&chars_of(model)).len() == 0 {
        return Err(BenchError::new(ErrorCode::InvalidInput, MODEL_MESSAGE));
    }
    if has_retry {
        return Err(BenchError::new(ErrorCode::InvalidInput, RETRY_MESSAGE));
    }
    if !has_positive_timeout {
        return Err(BenchError::new(ErrorCode::InvalidInput, TIMEOUT_MESSAGE));
    }
    if max_prompt_bytes == 0 {
        return Err(BenchError::new(ErrorCode::InvalidInput, PROMPT_BOUND_MESSAGE));
    }
    Ok(())
}

/// Rejects a rendered prompt longer than `max_prompt_bytes` bytes before the
/// provider is called: the labels are too large to judge.
pub fn check_prompt_size(rendered: &str, max_prompt_bytes: usize) -> (r: Result<(), BenchError>)
    ensures
        r is Ok <==> rendered.len() <= max_prompt_bytes,
        r matches Err(e) ==> e.code == ErrorCode::InvalidInput && e.message@ == "llm_judge: rendered prompt of "@
            + decimal(rendered.len() as nat) + " bytes exceeds the "@ + decimal(max_prompt_bytes as nat)
            + "-byte bound; the reference/prediction labels are too large to judge"@,
{
    if rendered.len() > max_prompt_bytes {
        let mut m = String::new();
        push_str_of(&mut m, "llm_judge: rendered prompt of ");
        push_decimal(&mut m, rendered.len() as u64);
        push_str_of(&mut m, " bytes exceeds the ");
        push_decimal(&mut m, max_prompt_bytes as u64);
        push_str_of(&mut m, "-byte bound; the reference/prediction labels are too large to judge");
        Err(BenchError::new(ErrorCode::InvalidInput, m.as_str()))
    } else {
        Ok(())
    }
}

/// The resolved model worth recording: the one the provider reported, when it
/// differs from the requested model.
pub open spec fn recorded_resolution(resolved: Option<Seq<char>>, model: Seq<char>) -> Option<Seq<char>> {
    match resolved {
        Some(r) if r != model => Some(r),
        _ => None,
    }
}

/// The optional text of an optional string.
pub open spec fn opt_text(o: Option<String>) -> Option<Seq<char>> {
    match o {
        Some(s) => Some(s@),
        None => None,
    }
}

/// The judge identity a judge metric records in its result detail.
pub fn judge_detail(
    provider: &str,
    model: &str,
    prompt_id: &str,
    prompt_version: &str,
    fingerprint: &str,
    resolved_model: Option<&str>,
) -> (d: JudgeDetail)
    ensures
        opt_text(d.provider) == Some(provider@),
        opt_text(d.model) == Some(model@),
        opt_text(d.prompt_id) == Some(prompt_id@),
        opt_text(d.prompt_version) == Some(prompt_version@),
        opt_text(d.prompt_fingerprint) == Some(fingerprint@),
        opt_text(d.resolved_model) == recorded_resolution(
            match resolved_model {
                Some(r) => Some(r@),
                None => None::<Seq<char>>,
            },
            model@,
        ),
{
    let resolved = match resolved_model {
        Some(r) => if str_eq(r, model) {
            None
        } else {
            Some(String::from_str(r))
        },
        None => None,
    };
    JudgeDetail {
        provider: Some(String::from_str(provider)),
        model: Some(String::from_str(model)),
        prompt_id: Some(String::from_str(prompt_id)),
        prompt_version: Some(String::from_str(prompt_version)),
        prompt_fingerprint: Some(String::from_str(fingerprint)),
        resolved_model: resolved,
    }
}

/// A judge identity recorded in a result detail is lifted back into
/// provenance unchanged: the recorded provider, model, prompt and fingerprint,
/// with the resolved model exactly when it differed from the requested one.
pub proof fn recorded_judge_is_lifted_back(d: JudgeDetail)
    requires
        d.provider is Some && d.model is Some && d.prompt_id is Some && d.prompt_version is Some
            && d.prompt_fingerprint is Some,
    ensures
        detail_judge(d) matches Some(j) && opt_text(Some(j.provider)) == opt_text(d.provider)
            && opt_text(Some(j.model)) == opt_text(d.model) && opt_text(Some(j.prompt_id)) == opt_text(d.prompt_id)
            && opt_text(Some(j.prompt_version)) == opt_text(d.prompt_version)
            && opt_text(Some(j.prompt_fingerprint)) == opt_text(d.prompt_fingerprint)
            && opt_text(j.resolved_model) == opt_text(d.resolved_model),
{
}

} // verus!
