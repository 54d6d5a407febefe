use vstd::prelude::*;

use crate::text::{
    chars_of, find_char, first_index_of, lemma_first_index_bounds, range_equals,
    range_views, skip_leading_whitespace, split_whitespace, starts_with,
    string_from_range, trim_range, trim_seq, trim_start_seq, ws_tokens,
};

verus! {

/// A decimal digit.
pub open spec fn is_digit(c: char) -> bool {
    '0' <= c && c <= '9'
}

/// The value of a run of decimal digits.
pub open spec fn digits_value(s: Seq<char>) -> int
    decreases s.len(),
{
    if s.len() == 0 {
        0
    } else {
        digits_value(s.drop_last()) * 10 + (s.last() as int - '0' as int)
    }
}

/// Every character of `s` is a decimal digit.
pub open spec fn all_digits(s: Seq<char>) -> bool {
    forall|i: int| 0 <= i < s.len() ==> is_digit(#[trigger] s[i])
}

/// `s` without one leading `+`, if it has one.
pub open spec fn unsigned_part(s: Seq<char>) -> Seq<char> {
    if s.len() > 0 && s[0] == '+' {
        s.drop_first()
    } else {
        s
    }
}

/// The unsigned 64-bit integer that `s` spells in decimal, with an optional
/// leading `+`, as `str::parse::<u64>` reads it.
pub open spec fn parse_u64_spec(s: Seq<char>) -> Option<u64> {
    let d = unsigned_part(s);
    if d.len() > 0 && all_digits(d) && digits_value(d) <= u64::MAX {
        Some(digits_value(d) as u64)
    } else {
        None
    }
}

/// A longer run of digits is worth at least as much as its prefix.
proof fn lemma_digits_value_monotone(s: Seq<char>, i: int)
    requires
        0 <= i <= s.len(),
        forall|j: int| 0 <= j < s.len() ==> is_digit(#[trigger] s[j]),
    ensures
        digits_value(s.take(i)) <= digits_value(s),
        digits_value(s) >= 0,
    decreases s.len() - i,
{
    if i < s.len() {
        lemma_digits_value_monotone(s, i + 1);
        assert(s.take(i + 1).drop_last() =~= s.take(i));
        lemma_digits_value_nonneg(s.take(i));
    } else {
        assert(s.take(i) =~= s);
        lemma_digits_value_nonneg(s);
    }
}

/// A run of digits is worth at least zero.
proof fn lemma_digits_value_nonneg(s: Seq<char>)
    requires
        forall|j: int| 0 <= j < s.len() ==> is_digit(#[trigger] s[j]),
    ensures
        digits_value(s) >= 0,
    decreases s.len(),
{
    if s.len() > 0 {
        lemma_digits_value_nonneg(s.drop_last());
    }
}

/// Reads `v[lo..hi]` as `str::parse::<u64>` does.
pub fn parse_u64(v: &Vec<char>, lo: usize, hi: usize) -> (r: Option<u64>)
    requires
        lo <= hi <= v@.len(),
    ensures
        r == parse_u64_spec(v@.subrange(lo as int, hi as int)),
{
    let ghost s = v@.subrange(lo as int, hi as int);
    let start = if lo < hi && v[lo] == '+' {
        lo + 1
    } else {
        lo
    };
    let ghost d = v@.subrange(start as int, hi as int);
    assert(d =~= unsigned_part(s));
    if start == hi {
        return None;
    }
    let mut value: u64 = 0;
    let mut i = start;
    while i < hi
        invariant
            lo <= start <= i <= hi <= v@.len(),
            start < hi,
            s == v@.subrange(lo as int, hi as int),
            d == v@.subrange(start as int, hi as int),
            d == unsigned_part(s),
            forall|j: int| 0 <= j < i - start ==> is_digit(#[trigger] d[j]),
            value == digits_value(d.take(i - start)),
        decreases hi - i,
    {
        let c = v[i];
        if !('0' <= c && c <= '9') {
            assert(!is_digit(d[i - start]));
            assert(!all_digits(d));
            return None;
        }
        assert(d.take(i - start + 1).drop_last() =~= d.take(i - start));
        assert(d.take(i - start + 1).last() == c);
        let digit = (c as u32 - '0' as u32) as u64;
        assert(digits_value(d.take(i - start + 1)) == value * 10 + digit);
        match value.checked_mul(10) {
            Some(m) => match m.checked_add(digit) {
                Some(n) => {
                    value = n;
                },
                None => {
                    proof {
                        if all_digits(d) {
                            lemma_digits_value_monotone(d, i - start + 1);
                        }
                    }
                    return None;
                },
            },
            None => {
                proof {
                    if all_digits(d) {
                        lemma_digits_value_monotone(d, i - start + 1);
                    }
                }
                return None;
            },
        }
        i = i + 1;
    }
    assert(d.take(hi - start) =~= d);
    Some(value)
}

/// The first-line pragma that may carry options of the artifacts tool.
pub const ARTIFACT_TOOL_PRAGMA_PREFIX: &'static str = "// codex-artifact-tool:";

/// The one option key that the pragma supports.
pub const TIMEOUT_MS_KEY: &'static str = "timeout_ms";

/// The marker that opens a markdown code fence.
pub const CODE_FENCE: &'static str = "```";

/// Refusal of input that is empty or only whitespace.
pub const EMPTY_SOURCE_MESSAGE: &'static str = "artifacts expects raw JavaScript source text (non-empty). Provide JS source text, optionally with first-line `// codex-artifact-tool: ...`.";

/// Refusal of source wrapped in a markdown code fence.
pub const FENCED_SOURCE_MESSAGE: &'static str = "artifacts expects raw JavaScript source, not markdown code fences. Resend plain JS only (optional first line `// codex-artifact-tool: ...`).";

/// Refusal of source sent as a JSON object or a JSON string.
pub const JSON_SOURCE_MESSAGE: &'static str = "artifacts is a freeform tool and expects raw JavaScript source. Resend plain JS only (optional first line `// codex-artifact-tool: ...`); do not send JSON (`{\"code\":...}`), quoted code, or markdown fences.";

/// Start of the refusal of a pragma token that is not `key=value`.
pub const PAIRS_MESSAGE_PREFIX: &'static str = "artifacts pragma expects space-separated key=value pairs (supported keys: timeout_ms); got `";

/// Refusal of a pragma that sets `timeout_ms` twice.
pub const DUPLICATE_TIMEOUT_MESSAGE: &'static str = "artifacts pragma specifies timeout_ms more than once";

/// Start of the refusal of a `timeout_ms` that is not an integer.
pub const TIMEOUT_NOT_INTEGER_PREFIX: &'static str = "artifacts pragma timeout_ms must be an integer; got `";

/// Start of the refusal of an unknown pragma key.
pub const UNSUPPORTED_KEY_PREFIX: &'static str = "artifacts pragma only supports timeout_ms; got `";

/// Refusal of a pragma line with no source after it.
pub const MISSING_SOURCE_MESSAGE: &'static str = "artifacts pragma must be followed by JavaScript source on subsequent lines";

/// The end of a refusal that quotes part of the input.
pub const QUOTE_END: &'static str = "`";

/// Arguments of the artifacts tool: the JavaScript source and an optional timeout.
#[derive(Debug)]
pub struct ArtifactsToolArgs {
    pub source: String,
    pub timeout_ms: Option<u64>,
}

/// A tool call that is refused, with the message for the model.
#[derive(Debug)]
pub enum FunctionCallError {
    RespondToModel(String),
}

impl View for FunctionCallError {
    type V = Seq<char>;

    open spec fn view(&self) -> Seq<char> {
        match self {
            FunctionCallError::RespondToModel(m) => m@,
        }
    }
}

impl FunctionCallError {
    /// The message for the model.
    pub fn to_string(&self) -> (r: String)
        ensures
            r@ == self@,
    {
        match self {
            FunctionCallError::RespondToModel(m) => m.clone(),
        }
    }
}

/// What a text is when read as JSON.
#[derive(Debug, Clone, Copy, PartialEq, Eq, Structural)]
pub enum JsonShape {
    NotJson,
    ObjectValue,
    StringValue,
    OtherValue,
}

/// What `serde_json::from_str::<serde_json::Value>` makes of `text`.
pub uninterp spec fn json_shape_of(text: Seq<char>) -> JsonShape;

/// Reads `text` with `serde_json::from_str::<serde_json::Value>` and reports
/// whether it failed, or gave an object, a string or another value. The
/// contract claims only that the outcome is a function of the text.
#[verifier::external_body]
fn json_shape(text: &str) -> (r: JsonShape)
    ensures
        r == json_shape_of(text@),
{
    match serde_json::from_str::<serde_json::Value>(text) {
        Ok(serde_json::Value::Object(_)) => JsonShape::ObjectValue,
        Ok(serde_json::Value::String(_)) => JsonShape::StringValue,
        Ok(_) => JsonShape::OtherValue,
        Err(_) => JsonShape::NotJson,
    }
}

/// The refusal of source whose trimmed text reads as `shape`, if it is refused.
pub open spec fn json_rejection(shape: JsonShape) -> Option<Seq<char>> {
    match shape {
        JsonShape::ObjectValue | JsonShape::StringValue => Some(JSON_SOURCE_MESSAGE@),
        _ => None,
    }
}

/// Why `code` is not raw JavaScript source, if it is not: it is fenced as
/// markdown, or its trimmed text is a JSON object or a JSON string.
pub open spec fn source_rejection(code: Seq<char>) -> Option<Seq<char>> {
    let t = trim_seq(code);
    if starts_with(t, CODE_FENCE@) {
        Some(FENCED_SOURCE_MESSAGE@)
    } else {
        json_rejection(json_shape_of(t))
    }
}

/// The pragma tokens applied in order from the timeout found so far: the
/// timeout they set, or the refusal of the first bad token.
pub open spec fn apply_pragma_tokens(tokens: Seq<Seq<char>>, timeout: Option<u64>) -> Result<
    Option<u64>,
    Seq<char>,
>
    decreases tokens.len(),
{
    if tokens.len() == 0 {
        Ok(timeout)
    } else {
        let token = tokens[0];
        let e = first_index_of(token, '=');
        if e >= token.len() {
            Err(PAIRS_MESSAGE_PREFIX@ + token + QUOTE_END@)
        } else {
            let key = token.take(e);
            let value = token.skip(e + 1);
            if key == TIMEOUT_MS_KEY@ {
                if timeout is Some {
                    Err(DUPLICATE_TIMEOUT_MESSAGE@)
                } else {
                    match parse_u64_spec(value) {
                        Some(n) => apply_pragma_tokens(tokens.drop_first(), Some(n)),
                        None => Err(TIMEOUT_NOT_INTEGER_PREFIX@ + value + QUOTE_END@),
                    }
                }
            } else {
                Err(UNSUPPORTED_KEY_PREFIX@ + key + QUOTE_END@)
            }
        }
    }
}

/// The arguments that the freeform input `input` gives (its source and
/// timeout), or the refusal of it. Without a pragma on the first line the
/// whole input is the source; with one, the pragma's `key=value` tokens set
/// the options and the lines after it are the source.
pub open spec fn freeform_args_spec(input: Seq<char>) -> Result<(Seq<char>, Option<u64>), Seq<char>> {
    if trim_seq(input).len() == 0 {
        Err(EMPTY_SOURCE_MESSAGE@)
    } else {
        let k = first_index_of(input, '\n');
        let rest = if k < input.len() {
            input.skip(k + 1)
        } else {
            Seq::empty()
        };
        let head = trim_start_seq(input.take(k));
        if !starts_with(head, ARTIFACT_TOOL_PRAGMA_PREFIX@) {
            match source_rejection(input) {
                Some(m) => Err(m),
                None => Ok((input, None)),
            }
        } else {
            match apply_pragma_tokens(
                ws_tokens(head.skip(ARTIFACT_TOOL_PRAGMA_PREFIX@.len() as int)),
                None,
            ) {
                Err(m) => Err(m),
                Ok(timeout) => if trim_seq(rest).len() == 0 {
                    Err(MISSING_SOURCE_MESSAGE@)
                } else {
                    match source_rejection(rest) {
                        Some(m) => Err(m),
                        None => Ok((rest, timeout)),
                    }
                },
            }
        }
    }
}

/// An owned copy of `s`.
fn owned(s: &str) -> (r: String)
    ensures
        r@ == s@,
{
    s.to_owned()
}

/// A refusal with the message `message`.
fn refusal(message: &str) -> (r: FunctionCallError)
    ensures
        r@ == message@,
{
    FunctionCallError::RespondToModel(owned(message))
}

/// A refusal made of `prefix`, the characters `v[lo..hi]` and a closing backtick.
fn quoting_refusal(prefix: &str, v: &Vec<char>, lo: usize, hi: usize) -> (r: FunctionCallError)
    requires
        lo <= hi <= v@.len(),
    ensures
        r@ == prefix@ + v@.subrange(lo as int, hi as int) + QUOTE_END@,
{
    let mut m = owned(prefix);
    let quoted = string_from_range(v, lo, hi);
    m.append(quoted.as_str());
    m.append(QUOTE_END);
    FunctionCallError::RespondToModel(m)
}

/// Refuses source whose trimmed text reads as a JSON object or string.
pub fn reject_json_shape(shape: JsonShape) -> (r: Result<(), FunctionCallError>)
    ensures
        match r {
            Ok(()) => json_rejection(shape) is None,
            Err(e) => json_rejection(shape) == Some(e@),
        },
{
    match shape {
        JsonShape::ObjectValue | JsonShape::StringValue => Err(refusal(JSON_SOURCE_MESSAGE)),
        _ => Ok(()),
    }
}

/// Refuses `code` when it is fenced as markdown or sent as JSON.
pub fn reject_json_or_quoted_source(code: &str) -> (r: Result<(), FunctionCallError>)
    ensures
        match r {
            Ok(()) => source_rejection(code@) is None,
            Err(e) => source_rejection(code@) == Some(e@),
        },
{
    let chars = chars_of(code);
    let (a, b) = trim_range(&chars, 0, chars.len());
    assert(chars@.subrange(0, chars@.len() as int) =~= chars@);
    let fence = chars_of(CODE_FENCE);
    if fence.len() <= b - a && range_equals(&chars, a, a + fence.len(), &fence) {
        assert(chars@.subrange(a as int, b as int).take(fence@.len() as int) =~= chars@.subrange(
            a as int,
            a + fence@.len(),
        ));
        return Err(refusal(FENCED_SOURCE_MESSAGE));
    }
    proof {
        if fence@.len() <= b - a {
            assert(chars@.subrange(a as int, b as int).take(fence@.len() as int) =~= chars@.subrange(
                a as int,
                a + fence@.len(),
            ));
        }
    }
    let trimmed = string_from_range(&chars, a, b);
    reject_json_shape(json_shape(trimmed.as_str()))
}

/// Reads the freeform input of the artifacts tool: raw JavaScript source,
/// optionally preceded by a first-line `// codex-artifact-tool:` pragma with
/// `timeout_ms=<integer>`.
#[verifier::loop_isolation(false)]
pub fn parse_freeform_args(input: &str) -> (r: Result<ArtifactsToolArgs, FunctionCallError>)
    ensures
        match r {
            Ok(args) => freeform_args_spec(input@) == Ok::<(Seq<char>, Option<u64>), Seq<char>>(
                (args.source@, args.timeout_ms),
            ),
            Err(e) => freeform_args_spec(input@) == Err::<(Seq<char>, Option<u64>), Seq<char>>(
                e@,
            ),
        },
{
    let chars = chars_of(input);
    let n = chars.len();
    assert(chars@.subrange(0, n as int) =~= chars@);
    let (a, b) = trim_range(&chars, 0, n);
    if a == b {
        return Err(refusal(EMPTY_SOURCE_MESSAGE));
    }
    let k = find_char(&chars, 0, n, '\n');
    proof {
        lemma_first_index_bounds(chars@, '\n');
        assert(chars@.subrange(0, k as int) =~= chars@.take(k as int));
    }
    let rest_start = if k < n {
        k + 1
    } else {
        n
    };
    assert(chars@.subrange(rest_start as int, n as int) =~= (if k < n {
        chars@.skip(k + 1)
    } else {
        Seq::<char>::empty()
    }));
    let h = skip_leading_whitespace(&chars, 0, k);
    let prefix = chars_of(ARTIFACT_TOOL_PRAGMA_PREFIX);
    let plen = prefix.len();
    let has_pragma = plen <= k - h && range_equals(&chars, h, h + plen, &prefix);
    proof {
        if plen <= k - h {
            assert(chars@.subrange(h as int, k as int).take(plen as int) =~= chars@.subrange(
                h as int,
                h + plen,
            ));
        }
    }
    if !has_pragma {
        reject_json_or_quoted_source(input)?;
        return Ok(ArtifactsToolArgs { source: owned(input), timeout_ms: None });
    }
    assert(chars@.subrange(h as int, k as int).skip(plen as int) =~= chars@.subrange(
        h + plen,
        k as int,
    ));
    let tokens = split_whitespace(&chars, h + plen, k);
    let ghost all = range_views(chars@, tokens@);
    let mut timeout_ms: Option<u64> = None;
    let timeout_key = chars_of(TIMEOUT_MS_KEY);
    let mut i: usize = 0;
    assert(all.skip(0) =~= all);
    while i < tokens.len()
        invariant
            n == chars@.len(),
            h + plen <= k <= n,
            i <= tokens@.len(),
            all == range_views(chars@, tokens@),
            timeout_key@ == TIMEOUT_MS_KEY@,
            forall|j: int|
                0 <= j < tokens@.len() ==> h + plen <= (#[trigger] tokens@[j]).0 <= tokens@[j].1
                    <= k,
            apply_pragma_tokens(all, None) == apply_pragma_tokens(all.skip(i as int), timeout_ms),
        decreases tokens@.len() - i,
    {
        let (ts, te) = tokens[i];
        let ghost token = chars@.subrange(ts as int, te as int);
        assert(all.skip(i as int)[0] == token);
        assert(all.skip(i as int).drop_first() =~= all.skip(i + 1));
        let e = find_char(&chars, ts, te, '=');
        if e == te {
            return Err(quoting_refusal(PAIRS_MESSAGE_PREFIX, &chars, ts, te));
        }
        assert(token.take(e - ts) =~= chars@.subrange(ts as int, e as int));
        assert(token.skip(e - ts + 1) =~= chars@.subrange(e + 1, te as int));
        if !range_equals(&chars, ts, e, &timeout_key) {
            return Err(quoting_refusal(UNSUPPORTED_KEY_PREFIX, &chars, ts, e));
        }
        if timeout_ms.is_some() {
            return Err(refusal(DUPLICATE_TIMEOUT_MESSAGE));
        }
        match parse_u64(&chars, e + 1, te) {
            Some(value) => {
                timeout_ms = Some(value);
            },
            None => {
                return Err(quoting_refusal(TIMEOUT_NOT_INTEGER_PREFIX, &chars, e + 1, te));
            },
        }
        i = i + 1;
    }
    assert(all.skip(i as int) =~= Seq::<Seq<char>>::empty());
    let (ra, rb) = trim_range(&chars, rest_start, n);
    if ra == rb {
        return Err(refusal(MISSING_SOURCE_MESSAGE));
    }
    let rest = string_from_range(&chars, rest_start, n);
    reject_json_or_quoted_source(rest.as_str())?;
    Ok(ArtifactsToolArgs { source: rest, timeout_ms })
}

} // verus!
