//! Tolerant reading of a text-generation reply that should hold
//! `{"translations": [...]}`: as clean JSON, inside a fenced code block, or
//! embedded in surrounding prose.

use vstd::prelude::*;
use crate::text::{
    chars_of, drop_suffixes, skip_prefixes, string_of, strip_char, strip_char_range,
    strip_prefixes, strip_suffixes, trim_range, trimmed,
};

verus! {

/// Brace nesting depth of `s` before position `i`: the `{` seen so far less
/// the `}` seen so far.
pub open spec fn depth(s: Seq<char>, i: int) -> int
    decreases i,
{
    if i <= 0 {
        0
    } else {
        depth(s, i - 1) + if s[i - 1] == '{' {
            1int
        } else if s[i - 1] == '}' {
            -1int
        } else {
            0int
        }
    }
}

/// A `{` at position `a` that opens at depth zero.
pub open spec fn opens(s: Seq<char>, a: int) -> bool {
    0 <= a < s.len() && s[a] == '{' && depth(s, a) == 0
}

/// A `}` at position `b` that brings the depth back to zero.
pub open spec fn closes(s: Seq<char>, b: int) -> bool {
    0 <= b < s.len() && s[b] == '}' && depth(s, b) == 1
}

/// `s[a..=b]` is the first balanced brace block of `s`: `b` is the first
/// closing brace back to depth zero, and `a` the last opening brace at depth
/// zero before it.
pub open spec fn object_at(s: Seq<char>, a: int, b: int) -> bool {
    &&& opens(s, a)
    &&& closes(s, b)
    &&& a < b
    &&& forall|j: int| 0 <= j < b ==> !#[trigger] closes(s, j)
    &&& forall|j: int| a < j < b ==> !#[trigger] opens(s, j)
}

/// The first balanced brace block of `s`, if any.
pub open spec fn first_object(s: Seq<char>) -> Option<Seq<char>> {
    if exists|a: int, b: int| object_at(s, a, b) {
        let (a, b) = choose|a: int, b: int| object_at(s, a, b);
        Some(s.subrange(a, b + 1))
    } else {
        None
    }
}

proof fn lemma_object_at_unique(s: Seq<char>, a1: int, b1: int, a2: int, b2: int)
    requires
        object_at(s, a1, b1),
        object_at(s, a2, b2),
    ensures
        a1 == a2 && b1 == b2,
{
    if b1 < b2 {
        assert(closes(s, b1));
    } else if b2 < b1 {
        assert(closes(s, b2));
    }
    if a1 < a2 {
        assert(opens(s, a2));
    } else if a2 < a1 {
        assert(opens(s, a1));
    }
}

/// The first balanced `{...}` block of `s`, found by tracking the brace
/// depth character by character.
pub fn extract_first_json_object(s: &str) -> (r: Option<String>)
    ensures
        r.deep_view() == first_object(s@),
{
    let v = chars_of(s);
    let mut depth_now: i128 = 0;
    let mut start: Option<usize> = None;
    let mut i: usize = 0;
    while i < v.len()
        invariant
            v@ == s@,
            i <= v@.len(),
            depth_now == depth(s@, i as int),
            -(i as int) <= depth_now <= i,
            forall|j: int| 0 <= j < i ==> !#[trigger] closes(s@, j),
            start matches Some(a) ==> opens(s@, a as int) && a < i && forall|j: int|
                a < j < i ==> !#[trigger] opens(s@, j),
            start is None ==> forall|j: int| 0 <= j < i ==> !#[trigger] opens(s@, j),
            depth_now >= 1 ==> start is Some,
        decreases v@.len() - i,
    {
        let c = v[i];
        if c == '{' {
            if depth_now == 0 {
                start = Some(i);
            }
            depth_now = depth_now + 1;
        } else if c == '}' {
            depth_now = depth_now - 1;
            if depth_now == 0 {
                match start {
                    Some(a) => {
                        let found = string_of(&v, a, i + 1);
                        proof {
                            assert(object_at(s@, a as int, i as int));
                            let (a2, b2) = choose|a2: int, b2: int| object_at(s@, a2, b2);
                            lemma_object_at_unique(s@, a as int, i as int, a2, b2);
                        }
                        return Some(found);
                    },
                    None => {},
                }
            }
        }
        i = i + 1;
    }
    proof {
        assert forall|a: int, b: int| !object_at(s@, a, b) by {
            if object_at(s@, a, b) {
                assert(closes(s@, b));
            }
        }
    }
    None
}

/// What `serde_json` reads at member `key` of the JSON text `doc`, taken as
/// an array: for each element the string it holds, or `None` where it holds
/// no string.  `None` as a whole where `doc` is no JSON text, or holds no
/// object with an array at member `key`.
pub uninterp spec fn json_array_member(doc: Seq<char>, key: Seq<char>) -> Option<
    Seq<Option<Seq<char>>>,
>;

/// Relies on `serde_json::from_str` to read `doc` as a `serde_json::Value`,
/// and on `Value::get`, `Value::as_array` and `Value::as_str` to take member
/// `key` as an array and each of its elements as a string.
#[verifier::external_body]
fn read_array_member(doc: &str, key: &str) -> (r: Option<Vec<Option<String>>>)
    ensures
        r.deep_view() == json_array_member(doc@, key@),
{
    let value: serde_json::Value = serde_json::from_str(doc).ok()?;
    let items = value.get(key)?.as_array()?;
    Some(items.iter().map(|x| x.as_str().map(|t| t.to_string())).collect())
}

/// Array elements read as text: an element that is no string counts as
/// the empty string.
pub open spec fn as_texts(items: Seq<Option<Seq<char>>>) -> Seq<Seq<char>> {
    items.map_values(
        |x: Option<Seq<char>>|
            match x {
                Some(t) => t,
                None => Seq::empty(),
            },
    )
}

/// The `translations` array of the JSON text `doc`.
pub open spec fn translations_in(doc: Seq<char>) -> Option<Seq<Seq<char>>> {
    match json_array_member(doc, "translations"@) {
        Some(items) => Some(as_texts(items)),
        None => None,
    }
}

/// `t` with the delimiters of a fenced code block removed, when it starts
/// with one: the opening fence with an optional `json` or `JSON` tag, the
/// closing fence, and the white space they leave.
pub open spec fn unfenced(t: Seq<char>) -> Seq<char> {
    if t.len() >= 3 && t.take(3) == "```"@ {
        trimmed(
            strip_suffixes(
                strip_prefixes(
                    strip_prefixes(
                        strip_prefixes(strip_prefixes(t, "```json"@), "```JSON"@),
                        "```) "@,
                    ),
                    "```"@,
                ),
                "```"@,
            ),
        )
    } else {
        t
    }
}

/// Translations read from `s` as it stands, once trimmed and unfenced.
pub open spec fn read_translations(s: Seq<char>) -> Option<Seq<Seq<char>>> {
    translations_in(unfenced(trimmed(s)))
}

/// Translations read from a whole reply: from the reply itself, or else
/// from its first balanced brace block.
pub open spec fn reply_translations(raw: Seq<char>) -> Option<Seq<Seq<char>>> {
    match read_translations(raw) {
        Some(v) => Some(v),
        None => match first_object(raw) {
            Some(o) => read_translations(o),
            None => None,
        },
    }
}

/// The text to read as JSON from `s`: `s` trimmed, and unfenced when it
/// starts with a code fence.
pub fn json_candidate(s: &str) -> (r: String)
    ensures
        r@ == unfenced(trimmed(s@)),
{
    let v = chars_of(s);
    let (lo, hi) = trim_range(&v, 0, v.len());
    assert(v@.subrange(0, v@.len() as int) =~= s@);
    let fence = chars_of("```");
    let (a, b) = if has_fence(&v, lo, hi, &fence) {
        let tag_lower = chars_of("```json");
        let tag_upper = chars_of("```JSON");
        let tag_paren = chars_of("```) ");
        let a1 = skip_prefixes(&v, lo, hi, &tag_lower);
        let a2 = skip_prefixes(&v, a1, hi, &tag_upper);
        let a3 = skip_prefixes(&v, a2, hi, &tag_paren);
        let a4 = skip_prefixes(&v, a3, hi, &fence);
        let b1 = drop_suffixes(&v, a4, hi, &fence);
        trim_range(&v, a4, b1)
    } else {
        (lo, hi)
    };
    string_of(&v, a, b)
}

/// Array elements as text: each string as it is, anything else as the
/// empty string.
pub fn texts_of(items: &Vec<Option<String>>) -> (r: Vec<String>)
    ensures
        r.deep_view() == as_texts(items.deep_view()),
{
    let mut out: Vec<String> = Vec::new();
    let mut k: usize = 0;
    while k < items.len()
        invariant
            k <= items@.len(),
            out@.len() == k,
            forall|j: int| 0 <= j < k ==> #[trigger] out@[j]@ == as_texts(items.deep_view())[j],
        decreases items@.len() - k,
    {
        let text = match &items[k] {
            Some(t) => t.clone(),
            None => String::new(),
        };
        assert(text@ == as_texts(items.deep_view())[k as int]);
        out.push(text);
        k = k + 1;
    }
    assert(out.deep_view() =~= as_texts(items.deep_view()));
    out
}

/// Reads the `translations` array from `s`, itself JSON or a fenced code
/// block holding JSON; elements that are no strings become empty strings.
pub fn try_parse_translations_json(s: &str) -> (r: Option<Vec<String>>)
    ensures
        r.deep_view() == read_translations(s@),
{
    let doc = json_candidate(s);
    match read_array_member(doc.as_str(), "translations") {
        Some(items) => Some(texts_of(&items)),
        None => None,
    }
}

/// Whether `v[lo..hi]` starts with the fence `fence`, as `unfenced` asks.
fn has_fence(v: &Vec<char>, lo: usize, hi: usize, fence: &Vec<char>) -> (r: bool)
    requires
        lo <= hi <= v@.len(),
        fence@ == "```"@,
    ensures
        r == (v@.subrange(lo as int, hi as int).len() >= 3 && v@.subrange(
            lo as int,
            hi as int,
        ).take(3) == "```"@),
{
    proof {
        reveal_strlit("```");
    }
    crate::text::has_prefix_at(v, lo, hi, fence)
}

/// Reads the translations of a whole reply: clean JSON, a fenced code
/// block, or JSON with prose around it, whose first balanced brace block is
/// then read.
pub fn parse_translations(raw: &str) -> (r: Option<Vec<String>>)
    ensures
        r.deep_view() == reply_translations(raw@),
{
    match try_parse_translations_json(raw) {
        Some(v) => Some(v),
        None => match extract_first_json_object(raw) {
            Some(o) => try_parse_translations_json(o.as_str()),
            None => None,
        },
    }
}

/// `c` inside a fenced code block tagged `json`.
pub open spec fn fenced(c: Seq<char>) -> Seq<char> {
    "```json\n"@ + c + "\n```"@
}

/// Whether `s` holds no brace.
pub open spec fn brace_free(s: Seq<char>) -> bool {
    forall|j: int| 0 <= j < s.len() ==> #[trigger] s[j] != '{' && s[j] != '}'
}

proof fn lemma_depth_after_prefix(p: Seq<char>, c: Seq<char>, q: Seq<char>, j: int)
    requires
        brace_free(p),
        0 <= j <= c.len(),
    ensures
        depth(p + c + q, p.len() + j) == depth(c, j),
    decreases p.len() + j,
{
    let s = p + c + q;
    if j == 0 {
        if p.len() > 0 {
            let p0 = p.drop_last();
            assert(brace_free(p0)) by {
                assert forall|k: int| 0 <= k < p0.len() implies #[trigger] p0[k] != '{' && p0[k]
                    != '}' by {
                    assert(p0[k] == p[k]);
                }
            }
            lemma_depth_after_prefix(p0, seq![p.last()] + c, q, 0);
            assert(p0 + (seq![p.last()] + c) + q =~= s);
            assert(s[p.len() - 1] == p[p.len() - 1]);
        }
    } else {
        lemma_depth_after_prefix(p, c, q, j - 1);
        assert(s[p.len() + j - 1] == c[j - 1]);
    }
}

/// The first balanced brace block of `p + c + q` is `c` itself, when `p`
/// holds no brace and `c` is its own first balanced brace block.
proof fn lemma_object_after_prefix(p: Seq<char>, c: Seq<char>, q: Seq<char>)
    requires
        brace_free(p),
        first_object(c) == Some(c),
    ensures
        first_object(p + c + q) == Some(c),
        c.len() >= 2 && c[0] == '{' && c.last() == '}',
{
    let s = p + c + q;
    let (a, b) = choose|a: int, b: int| object_at(c, a, b);
    assert(c.subrange(a, b + 1).len() == c.len());
    assert(a == 0 && b == c.len() - 1);
    let pa = p.len() as int;
    let pb = p.len() + c.len() - 1;
    assert forall|j: int| 0 <= j <= c.len() implies depth(s, pa + j) == #[trigger] depth(c, j) by {
        lemma_depth_after_prefix(p, c, q, j);
    }
    assert(s[pa] == c[0]);
    assert(s[pb] == c[b]);
    assert(depth(s, pa + 0) == depth(c, 0));
    assert(depth(s, pa + b) == depth(c, b));
    assert forall|j: int| 0 <= j < pb implies !#[trigger] closes(s, j) by {
        if j < pa {
            assert(s[j] == p[j]);
        } else {
            assert(s[j] == c[j - pa]);
            assert(depth(s, pa + (j - pa)) == depth(c, j - pa));
            assert(!closes(c, j - pa));
        }
    }
    assert forall|j: int| pa < j < pb implies !#[trigger] opens(s, j) by {
        assert(s[j] == c[j - pa]);
        assert(depth(s, pa + (j - pa)) == depth(c, j - pa));
        assert(!opens(c, j - pa));
    }
    assert(object_at(s, pa, pb));
    let (a2, b2) = choose|a2: int, b2: int| object_at(s, a2, b2);
    lemma_object_at_unique(s, pa, pb, a2, b2);
    assert(s.subrange(pa, pb + 1) =~= c);
}

/// Text that starts with `{` and ends with `}` reads as it stands.
proof fn lemma_braced_reads_as_is(c: Seq<char>)
    requires
        c.len() >= 2,
        c[0] == '{',
        c.last() == '}',
    ensures
        trimmed(c) == c,
        unfenced(c) == c,
{
    assert(!crate::text::white(c[0]));
    assert(!crate::text::white(c.last()));
    assert(crate::text::trim_start(c) == c);
    reveal_strlit("```");
    if c.len() >= 3 {
        assert(c.take(3)[0] != "```"@[0]);
    }
}

/// Opening-fence stripping leaves `"\n" + c + "\n```"` once the tagged
/// fence is gone.
proof fn lemma_strip_opening_fence(c: Seq<char>)
    ensures
        strip_prefixes(
            strip_prefixes(
                strip_prefixes(strip_prefixes(fenced(c), "```json"@), "```JSON"@),
                "```) "@,
            ),
            "```"@,
        ) == seq!['\n'] + c + "\n```"@,
{
    reveal_strlit("```json\n");
    reveal_strlit("\n```");
    reveal_strlit("```json");
    reveal_strlit("```JSON");
    reveal_strlit("```) ");
    reveal_strlit("```");
    let f = fenced(c);
    let x = seq!['\n'] + c + "\n```"@;
    assert(f.take(7) =~= "```json"@);
    assert(f.skip(7) =~= x);
    assert(x[0] == '\n');
    if x.len() >= 7 {
        assert(x.take(7)[0] != "```json"@[0]);
        assert(x.take(7)[0] != "```JSON"@[0]);
    }
    assert(strip_prefixes(x, "```json"@) == x);
    assert(strip_prefixes(x, "```JSON"@) == x);
    if x.len() >= 5 {
        assert(x.take(5)[0] != "```) "@[0]);
    }
    assert(strip_prefixes(x, "```) "@) == x);
    assert(x.take(3)[0] != "```"@[0]);
    assert(strip_prefixes(x, "```"@) == x);
}

/// Closing-fence stripping and trimming of `"\n" + c + "\n```"` leave `c`.
proof fn lemma_strip_closing_fence(c: Seq<char>)
    requires
        c.len() >= 2,
        c[0] == '{',
        c.last() == '}',
    ensures
        trimmed(strip_suffixes(seq!['\n'] + c + "\n```"@, "```"@)) == c,
{
    reveal_strlit("\n```");
    reveal_strlit("```");
    let x = seq!['\n'] + c + "\n```"@;
    let y = seq!['\n'] + c + seq!['\n'];
    assert(x.skip(x.len() - 3) =~= "```"@);
    assert(x.take(x.len() - 3) =~= y);
    assert(y.skip(y.len() - 3)[2] != "```"@[2]);
    assert(strip_suffixes(y, "```"@) == y);
    assert(strip_suffixes(x, "```"@) == y);
    let z = c + seq!['\n'];
    assert(crate::text::white('\n'));
    assert(y.drop_first() =~= z);
    assert(z[0] == c[0]);
    assert(!crate::text::white(c[0]));
    assert(crate::text::trim_start(z) == z);
    assert(crate::text::trim_start(y) == z);
    assert(z.drop_last() =~= c);
    lemma_braced_reads_as_is(c);
}

/// The fenced form of a braced text reads as the text itself.
proof fn lemma_fenced_reads_as_content(c: Seq<char>)
    requires
        c.len() >= 2,
        c[0] == '{',
        c.last() == '}',
    ensures
        read_translations(fenced(c)) == read_translations(c),
{
    reveal_strlit("```json\n");
    reveal_strlit("\n```");
    reveal_strlit("```");
    let f = fenced(c);
    assert(!crate::text::white(f[0]));
    assert(!crate::text::white(f.last()));
    assert(crate::text::trim_start(f) == f);
    assert(trimmed(f) == f);
    assert(f.take(3) =~= "```"@);
    lemma_strip_opening_fence(c);
    lemma_strip_closing_fence(c);
    lemma_braced_reads_as_is(c);
}

/// The first balanced brace block of the fenced form of `c` is `c`.
proof fn lemma_fenced_object(c: Seq<char>)
    requires
        first_object(c) == Some(c),
    ensures
        first_object(fenced(c)) == Some(c),
{
    let head: Seq<char> = "```json\n"@;
    let tail: Seq<char> = "\n```"@;
    reveal_strlit("```json\n");
    assert(brace_free(head));
    lemma_object_after_prefix(head, c, tail);
}

/// A text that is its own first balanced brace block reads as it stands.
proof fn lemma_object_reply(c: Seq<char>)
    requires
        first_object(c) == Some(c),
    ensures
        reply_translations(c) == read_translations(c),
        c.len() >= 2 && c[0] == '{' && c.last() == '}',
{
    let empty = Seq::<char>::empty();
    lemma_object_after_prefix(empty, c, empty);
    assert(empty + c + empty =~= c);
}

/// The same JSON object gives the same translations whether the reply holds
/// it clean, inside a fenced code block tagged `json`, or after prose
/// without braces and before any prose that keeps the whole reply from
/// reading as JSON.
pub proof fn lemma_reply_forms_agree(c: Seq<char>, before: Seq<char>, after: Seq<char>)
    requires
        first_object(c) == Some(c),
        brace_free(before),
        read_translations(before + c + after) is None,
    ensures
        reply_translations(fenced(c)) == reply_translations(c),
        reply_translations(before + c + after) == reply_translations(c),
{
    lemma_object_reply(c);
    lemma_object_after_prefix(before, c, after);
    lemma_fenced_object(c);
    lemma_fenced_reads_as_content(c);
}

/// The text of a single-line reply: trimmed, without surrounding double
/// quotes, and `None` when nothing is left.
pub open spec fn single_reply_text(text: Seq<char>) -> Option<Seq<char>> {
    let t = strip_char(trimmed(text), '"');
    if t.len() == 0 {
        None
    } else {
        Some(t)
    }
}

/// Cleans the reply to a single-line request: white space and double quotes
/// around the text are dropped; an empty result is no translation.
pub fn clean_single_reply(text: &str) -> (r: Option<String>)
    ensures
        r.deep_view() == single_reply_text(text@),
{
    let v = chars_of(text);
    assert(v@.subrange(0, v@.len() as int) =~= text@);
    let (lo, hi) = trim_range(&v, 0, v.len());
    let (a, b) = strip_char_range(&v, lo, hi, '"');
    if a == b {
        None
    } else {
        Some(string_of(&v, a, b))
    }
}

} // verus!
