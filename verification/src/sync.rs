//! What the sync integrations share: metadata values carried in HTML
//! comments (base64 when they would break the comment), the comments
//! themselves, and durations such as `30m`.
use vstd::prelude::*;

use base64::engine::general_purpose::STANDARD as BASE64;
use base64::Engine;

use crate::json::{lemma_view_parts, items_view, parse_i64, parse_i64_spec, Json, JsonV};
use crate::task::{opt_view, Task, TaskV};
use crate::text::{
    cat2, cat3, chars_of, find_from, find_in, has_prefix, lemma_find_from, matches_at, occurs_at, owned, seq_contains,
    str_eq, string_of, strip_prefix, strip_prefix_spec,
};

verus! {

/// The UTF-8 encoding of a text, as `str::as_bytes` gives it.
pub uninterp spec fn utf8(s: Seq<char>) -> Seq<u8>;

/// The text whose UTF-8 encoding some bytes are, as `String::from_utf8`
/// finds it; `None` for bytes that are not UTF-8.
pub uninterp spec fn utf8_text(bytes: Seq<u8>) -> Option<Seq<char>>;

/// The standard base64 text (with padding) of some bytes, as the `base64`
/// crate's `STANDARD` engine writes it.
pub uninterp spec fn base64_text(bytes: Seq<u8>) -> Seq<char>;

/// The bytes a standard base64 text stands for, as the `base64` crate's
/// `STANDARD` engine reads it; `None` where it refuses the text.
pub uninterp spec fn base64_bytes(text: Seq<char>) -> Option<Seq<u8>>;

/// `str::as_bytes`: the UTF-8 bytes of a text. Claimed: the bytes are
/// `utf8(s)`, there are no more than `isize::MAX` of them and no fewer than
/// the characters (each takes one to four bytes), and reading them back as
/// UTF-8 gives the text (a `str` is always valid UTF-8).
#[verifier::external_body]
pub(crate) fn utf8_bytes(s: &str) -> (r: &[u8])
    ensures
        r@ == utf8(s@),
        r@.len() <= isize::MAX,
        r@.len() >= s@.len(),
        utf8_text(r@) == Some(s@),
{
    s.as_bytes()
}

/// `String::from_utf8`: claimed to give `utf8_text(bytes)`, `None` on an
/// error.
#[verifier::external_body]
fn text_of_utf8(bytes: Vec<u8>) -> (r: Option<String>)
    ensures
        match r {
            Some(t) => utf8_text(bytes@) == Some(t@),
            None => utf8_text(bytes@) is None,
        },
{
    match String::from_utf8(bytes) {
        Ok(t) => Some(t),
        Err(_) => None,
    }
}

/// A character of the standard base64 alphabet, or the padding `=`.
pub open spec fn base64_char(c: char) -> bool {
    ('A' <= c <= 'Z') || ('a' <= c <= 'z') || ('0' <= c <= '9') || c == '+' || c == '/' || c == '='
}

/// `base64::engine::general_purpose::STANDARD.encode`. Claimed: the text
/// is `base64_text(bytes)`, written in the standard alphabet with `=`
/// padding (four characters for each three bytes or part of three), and
/// the same engine decodes it back to the bytes. The crate
/// panics only when the encoded length overflows `usize`, which `requires`
/// rules out.
#[verifier::external_body]
fn base64_encode(bytes: &[u8]) -> (r: String)
    requires
        bytes@.len() <= isize::MAX,
    ensures
        r@ == base64_text(bytes@),
        r@.len() == 4 * ((bytes@.len() + 2) / 3),
        forall|i: int| 0 <= i < r@.len() ==> base64_char(#[trigger] r@[i]),
        base64_bytes(r@) == Some(bytes@),
{
    BASE64.encode(bytes)
}

/// `base64::engine::general_purpose::STANDARD.decode`: claimed to give
/// `base64_bytes(text)`, `None` on a `DecodeError`.
#[verifier::external_body]
fn base64_decode(text: &str) -> (r: Option<Vec<u8>>)
    ensures
        match r {
            Some(b) => base64_bytes(text@) == Some(b@),
            None => base64_bytes(text@) is None,
        },
{
    match BASE64.decode(text) {
        Ok(b) => Some(b),
        Err(_) => None,
    }
}

/// Whether a value would break the comment that carries it.
pub open spec fn needs_encoding(v: Seq<char>) -> bool {
    seq_contains(v, "\n"@) || seq_contains(v, "-->"@) || has_prefix(v, "base64:"@)
}

/// A metadata value as a comment carries it.
pub open spec fn encode_spec(v: Seq<char>) -> Seq<char> {
    if needs_encoding(v) {
        "base64:"@ + base64_text(utf8(v))
    } else {
        v
    }
}

/// A metadata value as read from a comment: a `base64:` value that
/// decodes to UTF-8 is decoded, anything else is kept as it is.
pub open spec fn decode_spec(v: Seq<char>) -> Seq<char> {
    match strip_prefix_spec(v, "base64:"@) {
        Some(enc) => match base64_bytes(enc) {
            Some(b) => match utf8_text(b) {
                Some(t) => t,
                None => v,
            },
            None => v,
        },
        None => v,
    }
}

/// Encodes a metadata value; decoding gives it back.
pub fn encode_metadata_value(value: &str) -> (r: String)
    ensures
        r@ == encode_spec(value@),
        decode_spec(r@) == value@,
        !seq_contains(r@, "\n"@),
        !seq_contains(r@, "-->"@),
        (r@ == value@) <==> !needs_encoding(value@),
{
    proof {
        reveal_strlit("base64:");
    }
    if crate::text::contains_str(value, "\n") || crate::text::contains_str(value, "-->")
        || crate::text::starts_with(value, "base64:") {
        let bytes = utf8_bytes(value);
        let enc = base64_encode(bytes);
        let r = cat2("base64:", enc.as_str());
        proof {
            let n = bytes@.len();
            assert(4 * ((n + 2) / 3) >= n) by (nonlinear_arith)
                requires
                    n >= 0,
            ;
            assert(r@.len() > value@.len());
            assert(r@.take(7) =~= "base64:"@);
            assert(r@.skip(7) =~= enc@);
            reveal_strlit("\n");
            reveal_strlit("-->");
            assert forall|k: int| 0 <= k < r@.len() implies r@[k] != '\n' && r@[k] != '-' by {
                if k >= 7 {
                    assert(r@[k] == enc@[k - 7]);
                    assert(base64_char(enc@[k - 7]));
                }
            }
            assert forall|k: int| !occurs_at(r@, "\n"@, k) by {
                if occurs_at(r@, "\n"@, k) {
                    assert(r@.subrange(k, k + 1)[0] == r@[k]);
                }
            }
            assert forall|k: int| !occurs_at(r@, "-->"@, k) by {
                if occurs_at(r@, "-->"@, k) {
                    assert(r@.subrange(k, k + 3)[0] == r@[k]);
                }
            }
        }
        r
    } else {
        owned(value)
    }
}

/// Decodes a metadata value.
pub fn decode_metadata_value(value: &str) -> (r: String)
    ensures
        r@ == decode_spec(value@),
{
    match strip_prefix(value, "base64:") {
        Some(encoded) => match base64_decode(encoded.as_str()) {
            Some(bytes) => match text_of_utf8(bytes) {
                Some(t) => t,
                None => owned(value),
            },
            None => owned(value),
        },
        None => owned(value),
    }
}

/// How many milliseconds a unit stands for.
pub open spec fn unit_ms(c: char) -> Option<i64> {
    if c == 's' {
        Some(1_000)
    } else if c == 'm' {
        Some(60_000)
    } else if c == 'h' {
        Some(3_600_000)
    } else if c == 'd' {
        Some(86_400_000)
    } else {
        None
    }
}

/// A duration such as `30m` in milliseconds: an integer, then one of
/// `s`, `m`, `h`, `d`.
pub open spec fn duration_spec(s: Seq<char>) -> Option<int> {
    if s.len() == 0 {
        None
    } else {
        match parse_i64_spec(s.drop_last()) {
            Some(amount) => match unit_ms(s.last()) {
                Some(m) => Some(amount * m),
                None => None,
            },
            None => None,
        }
    }
}

/// Parses a duration such as `30m` into milliseconds. The text's last
/// character must be a single byte (the text is split one byte before its
/// end), and the product must fit in `i64`.
pub fn parse_duration_ms(value: &str) -> (r: Option<i64>)
    requires
        value@.len() > 0 ==> (value@.last() as u32) < 128,
        duration_spec(value@) matches Some(ms) ==> i64::MIN <= ms <= i64::MAX,
    ensures
        match r {
            Some(ms) => duration_spec(value@) == Some(ms as int),
            None => duration_spec(value@) is None,
        },
{
    let x = crate::text::chars_of(value);
    if x.len() == 0 {
        return None;
    }
    let amount_text = crate::text::string_of(&x[0..x.len() - 1]);
    assert(amount_text@ =~= value@.drop_last());
    let amount = match crate::json::parse_i64(amount_text.as_str()) {
        Some(a) => a,
        None => return None,
    };
    let unit = x[x.len() - 1];
    let multiplier: i64 = if unit == 's' {
        1_000
    } else if unit == 'm' {
        60_000
    } else if unit == 'h' {
        3_600_000
    } else if unit == 'd' {
        86_400_000
    } else {
        return None;
    };
    Some(amount * multiplier)
}

/// A character a metadata key may hold: an ASCII letter or digit, or `_`.
pub open spec fn is_word(c: char) -> bool {
    ('a' <= c <= 'z') || ('A' <= c <= 'Z') || ('0' <= c <= '9') || c == '_'
}

fn word(c: char) -> (r: bool)
    ensures
        r == is_word(c),
{
    ('a' <= c && c <= 'z') || ('A' <= c && c <= 'Z') || ('0' <= c && c <= '9') || c == '_'
}

/// Where the run of word characters that starts at `k` ends.
pub open spec fn word_end(t: Seq<char>, k: int) -> int
    decreases t.len() - k,
{
    if 0 <= k < t.len() && is_word(t[k]) {
        word_end(t, k + 1)
    } else {
        k
    }
}

proof fn lemma_word_end(t: Seq<char>, k: int)
    requires
        0 <= k <= t.len(),
    ensures
        k <= word_end(t, k) <= t.len(),
        forall|q: int| k <= q < word_end(t, k) ==> is_word(t[q]),
        word_end(t, k) < t.len() ==> !is_word(t[word_end(t, k)]),
    decreases t.len() - k,
{
    if k < t.len() && is_word(t[k]) {
        lemma_word_end(t, k + 1);
    }
}

/// No line break between `a` and `b`.
pub open spec fn one_line(t: Seq<char>, a: int, b: int) -> bool {
    forall|q: int| a <= q < b ==> t[q] != '\n'
}

/// The opening of a comment with `prefix`.
pub open spec fn comment_head(prefix: Seq<char>) -> Seq<char> {
    "<!-- dex:"@ + prefix + ":"@
}

/// A comment `<!-- dex:<prefix>:<key>:<value> -->` that starts at `i`:
/// where its key ends and where its value ends. The key is a non-empty run
/// of word characters, the value the shortest text on the same line up to
/// ` -->`.
pub open spec fn comment_at(t: Seq<char>, prefix: Seq<char>, i: int) -> Option<(int, int)> {
    let head = comment_head(prefix);
    if !occurs_at(t, head, i) {
        None
    } else {
        let ks = i + head.len();
        let ke = word_end(t, ks);
        if ke == ks || ke >= t.len() || t[ke] != ':' {
            None
        } else {
            let ve = find_from(t, " -->"@, ke + 1);
            if ve == -1 || !one_line(t, ke + 1, ve) {
                None
            } else {
                Some((ke, ve))
            }
        }
    }
}

/// The first position at or after `i` where a comment starts.
pub open spec fn next_comment(t: Seq<char>, prefix: Seq<char>, i: int) -> Option<int>
    decreases t.len() + 1 - i,
{
    if i < 0 || i > t.len() {
        None
    } else if comment_at(t, prefix, i) is Some {
        Some(i)
    } else {
        next_comment(t, prefix, i + 1)
    }
}

/// The key and raw value of each comment from `i` on, one after another.
pub open spec fn comments_from(t: Seq<char>, prefix: Seq<char>, i: int) -> Seq<(Seq<char>, Seq<char>)>
    decreases t.len() + 1 - i,
{
    match next_comment(t, prefix, i) {
        Some(j) => if j < i {
            Seq::empty()
        } else {
            let (ke, ve) = comment_at(t, prefix, j)->0;
            let ks = j + comment_head(prefix).len();
            if ve + 4 <= i || ve + 4 > t.len() + 1 {
                Seq::empty()
            } else {
                seq![(t.subrange(ks, ke), t.subrange(ke + 1, ve))] + comments_from(t, prefix, ve + 4)
            }
        },
        None => Seq::empty(),
    }
}

fn comment_at_exec(x: &[char], prefix: &str, head: &[char], close: &[char], i: usize) -> (r: Option<(usize, usize)>)
    requires
        head@ == comment_head(prefix@),
        close@ == " -->"@,
    ensures
        match r {
            Some((ke, ve)) => comment_at(x@, prefix@, i as int) == Some((ke as int, ve as int)),
            None => comment_at(x@, prefix@, i as int) is None,
        },
{
    if !matches_at(x, head, i) {
        return None;
    }
    let hl = head.len();
    let xl = x.len();
    assert(hl == head@.len());
    assert(xl == x@.len());
    assert(i + hl <= xl);
    let ks = i + hl;
    let mut ke = ks;
    proof {
        lemma_word_end(x@, ks as int);
    }
    while ke < x.len() && word(x[ke])
        invariant
            ks <= ke <= x.len(),
            word_end(x@, ks as int) == word_end(x@, ke as int),
        decreases x.len() - ke,
    {
        assert(word_end(x@, ke as int) == word_end(x@, ke + 1));
        ke = ke + 1;
    }
    assert(word_end(x@, ke as int) == ke);
    if ke == ks || ke >= x.len() || x[ke] != ':' {
        return None;
    }
    let ve = match find_in(x, close, ke + 1) {
        Some(v) => v,
        None => return None,
    };
    proof {
        lemma_find_from(x@, " -->"@, ke + 1);
    }
    assert(comment_at(x@, prefix@, i as int) == (if one_line(x@, ke + 1, ve as int) {
        Some((ke as int, ve as int))
    } else {
        None
    }));
    let mut q = ke + 1;
    while q < ve
        invariant
            ke + 1 <= q <= ve,
            ve <= x.len(),
            one_line(x@, ke + 1, q as int),
            comment_at(x@, prefix@, i as int) == (if one_line(x@, ke + 1, ve as int) {
                Some((ke as int, ve as int))
            } else {
                None
            }),
        decreases ve - q,
    {
        if x[q] == '\n' {
            assert(!one_line(x@, ke + 1, ve as int));
            return None;
        }
        q = q + 1;
    }
    Some((ke, ve))
}

/// The keys and raw values of the comments with `prefix`, in order.
pub fn comment_pairs(text: &str, prefix: &str) -> (r: Vec<(String, String)>)
    ensures
        r@.len() == comments_from(text@, prefix@, 0).len(),
        forall|q: int| 0 <= q < r@.len() ==> (#[trigger] r@[q]).0@ == comments_from(text@, prefix@, 0)[q].0
            && r@[q].1@ == comments_from(text@, prefix@, 0)[q].1,
{
    let x = chars_of(text);
    let head_s = cat3("<!-- dex:", prefix, ":");
    let head = chars_of(head_s.as_str());
    let close = chars_of(" -->");
    let ghost t = x@;
    let ghost all = comments_from(t, prefix@, 0);
    proof {
        reveal_strlit(" -->");
        reveal_strlit("<!-- dex:");
    }
    let mut r: Vec<(String, String)> = Vec::new();
    let mut i: usize = 0;
    let mut j: usize = 0;
    loop
        invariant
            i <= x.len(),
            j <= x.len(),
            i <= j,
            t == x@,
            t == text@,
            " -->"@.len() == 4,
            head@ == comment_head(prefix@),
            close@ == " -->"@,
            next_comment(t, prefix@, i as int) == next_comment(t, prefix@, j as int),
            all == comments_from(t, prefix@, 0),
            r@.len() + comments_from(t, prefix@, i as int).len() == all.len(),
            forall|q: int| 0 <= q < r@.len() ==> (#[trigger] r@[q]).0@ == all[q].0 && r@[q].1@ == all[q].1,
            forall|q: int| 0 <= q < comments_from(t, prefix@, i as int).len() ==>
                comments_from(t, prefix@, i as int)[q] == all[r@.len() + q],
        decreases x.len() + 1 - j,
    {
        if j == x.len() {
            assert(comment_at(t, prefix@, j as int) is None);
            assert(next_comment(t, prefix@, j + 1) is None);
            assert(next_comment(t, prefix@, j as int) is None);
            assert(comments_from(t, prefix@, i as int).len() == 0);
            return r;
        }
        match comment_at_exec(x.as_slice(), prefix, head.as_slice(), close.as_slice(), j) {
            Some((ke, ve)) => {
                let ks = j + head.len();
                assert(next_comment(t, prefix@, j as int) == Some(j as int));
                proof {
                    lemma_find_from(t, " -->"@, ke + 1);
                    lemma_word_end(t, ks as int);
                }
                let key = string_of(&x[ks..ke]);
                let raw = string_of(&x[ke + 1..ve]);
                let ghost rest = comments_from(t, prefix@, (ve + 4) as int);
                let ghost cfi = comments_from(t, prefix@, i as int);
                let ghost n = r@.len() as int;
                assert(cfi == seq![(t.subrange(ks as int, ke as int), t.subrange(ke + 1, ve as int))] + rest);
                assert(cfi[0] == all[n + 0]);
                r.push((key, raw));
                assert forall|q: int| 0 <= q < r@.len() implies (#[trigger] r@[q]).0@ == all[q].0 && r@[q].1@ == all[q].1 by {
                    if q == n {
                        assert(r@[q].0@ == key@);
                    }
                }
                assert forall|q: int| 0 <= q < rest.len() implies rest[q] == all[r@.len() + q] by {
                    assert(rest[q] == cfi[q + 1]);
                }
                i = ve + 4;
                j = ve + 4;
            },
            None => {
                j = j + 1;
            },
        }
    }
}

/// A list of strings read as JSON, as `serde_json` reads a `Vec<String>`;
/// `None` where it refuses the text.
pub uninterp spec fn json_string_list(text: Seq<char>) -> Option<Seq<Seq<char>>>;

/// `serde_json::from_str::<Vec<String>>`: claimed to give
/// `json_string_list(text)`, `None` on an error.
#[verifier::external_body]
fn parse_string_list(text: &str) -> (r: Option<Vec<String>>)
    ensures
        match r {
            Some(v) => json_string_list(text@) == Some(v.deep_view()),
            None => json_string_list(text@) is None,
        },
{
    match serde_json::from_str::<Vec<String>>(text) {
        Ok(v) => Some(v),
        Err(_) => None,
    }
}

/// One task's metadata as its comments carry it. Every field is optional:
/// remote text may be edited by hand or written by older versions.
pub struct CommentMetadata {
    pub id: Option<String>,
    pub parent_id: Option<String>,
    pub priority: Option<i64>,
    pub completed: Option<bool>,
    pub created_at: Option<String>,
    pub updated_at: Option<String>,
    pub started_at: Option<Option<String>>,
    pub completed_at: Option<Option<String>>,
    pub blocked_by: Option<Vec<String>>,
    pub blocks: Option<Vec<String>>,
    pub result: Option<String>,
    pub commit: Option<Json>,
}

/// The value of `CommentMetadata`.
pub struct CommentMetadataV {
    pub id: Option<Seq<char>>,
    pub parent_id: Option<Seq<char>>,
    pub priority: Option<i64>,
    pub completed: Option<bool>,
    pub created_at: Option<Seq<char>>,
    pub updated_at: Option<Seq<char>>,
    pub started_at: Option<Option<Seq<char>>>,
    pub completed_at: Option<Option<Seq<char>>>,
    pub blocked_by: Option<Seq<Seq<char>>>,
    pub blocks: Option<Seq<Seq<char>>>,
    pub result: Option<Seq<char>>,
    pub commit: Option<JsonV>,
}

/// The characters of an optional optional string.
pub open spec fn opt2_view(o: Option<Option<String>>) -> Option<Option<Seq<char>>> {
    match o {
        Some(x) => Some(opt_view(x)),
        None => None,
    }
}

/// The strings of an optional list.
pub open spec fn opt_list_view(o: Option<Vec<String>>) -> Option<Seq<Seq<char>>> {
    match o {
        Some(v) => Some(v.deep_view()),
        None => None,
    }
}

impl View for CommentMetadata {
    type V = CommentMetadataV;

    open spec fn view(&self) -> CommentMetadataV {
        CommentMetadataV {
            id: opt_view(self.id),
            parent_id: opt_view(self.parent_id),
            priority: self.priority,
            completed: self.completed,
            created_at: opt_view(self.created_at),
            updated_at: opt_view(self.updated_at),
            started_at: opt2_view(self.started_at),
            completed_at: opt2_view(self.completed_at),
            blocked_by: opt_list_view(self.blocked_by),
            blocks: opt_list_view(self.blocks),
            result: opt_view(self.result),
            commit: crate::json::opt_json_view(self.commit),
        }
    }
}

/// Metadata while the comments are read: the fields so far and the parts
/// of the commit seen so far.
pub struct MetaState {
    pub meta: CommentMetadataV,
    pub sha: Option<Seq<char>>,
    pub message: Option<Seq<char>>,
    pub branch: Option<Seq<char>>,
    pub url: Option<Seq<char>>,
    pub timestamp: Option<Seq<char>>,
}

/// Metadata before any comment.
pub open spec fn no_meta() -> MetaState {
    MetaState {
        meta: CommentMetadataV {
            id: None,
            parent_id: None,
            priority: None,
            completed: None,
            created_at: None,
            updated_at: None,
            started_at: None,
            completed_at: None,
            blocked_by: None,
            blocks: None,
            result: None,
            commit: None,
        },
        sha: None,
        message: None,
        branch: None,
        url: None,
        timestamp: None,
    }
}

/// A JSON list of strings as a comment gives it; a list that does not
/// parse reads as empty.
pub open spec fn list_or_empty(value: Seq<char>) -> Seq<Seq<char>> {
    match json_string_list(value) {
        Some(l) => l,
        None => Seq::empty(),
    }
}

/// What one comment does to the metadata read so far.
pub open spec fn apply_comment(st: MetaState, key: Seq<char>, raw: Seq<char>) -> MetaState {
    let value = decode_spec(raw);
    if key == "commit_sha"@ {
        MetaState { sha: Some(value), ..st }
    } else if key == "commit_message"@ {
        MetaState { message: Some(value), ..st }
    } else if key == "commit_branch"@ {
        MetaState { branch: Some(value), ..st }
    } else if key == "commit_url"@ {
        MetaState { url: Some(value), ..st }
    } else if key == "commit_timestamp"@ {
        MetaState { timestamp: Some(value), ..st }
    } else if key == "id"@ {
        MetaState { meta: CommentMetadataV { id: Some(value), ..st.meta }, ..st }
    } else if key == "parent_id"@ || key == "parent"@ {
        MetaState { meta: CommentMetadataV { parent_id: Some(value), ..st.meta }, ..st }
    } else if key == "priority"@ {
        MetaState { meta: CommentMetadataV { priority: parse_i64_spec(value), ..st.meta }, ..st }
    } else if key == "completed"@ {
        MetaState { meta: CommentMetadataV { completed: Some(raw == "true"@), ..st.meta }, ..st }
    } else if key == "status"@ {
        if st.meta.completed is None {
            MetaState { meta: CommentMetadataV { completed: Some(raw == "completed"@), ..st.meta }, ..st }
        } else {
            st
        }
    } else if key == "created_at"@ {
        MetaState { meta: CommentMetadataV { created_at: Some(value), ..st.meta }, ..st }
    } else if key == "updated_at"@ {
        MetaState { meta: CommentMetadataV { updated_at: Some(value), ..st.meta }, ..st }
    } else if key == "started_at"@ {
        MetaState {
            meta: CommentMetadataV {
                started_at: Some(
                    if raw != "null"@ {
                        Some(value)
                    } else {
                        None
                    },
                ),
                ..st.meta
            },
            ..st
        }
    } else if key == "completed_at"@ {
        MetaState {
            meta: CommentMetadataV {
                completed_at: Some(
                    if raw != "null"@ {
                        Some(value)
                    } else {
                        None
                    },
                ),
                ..st.meta
            },
            ..st
        }
    } else if key == "blockedBy"@ {
        MetaState { meta: CommentMetadataV { blocked_by: Some(list_or_empty(value)), ..st.meta }, ..st }
    } else if key == "blocks"@ {
        MetaState { meta: CommentMetadataV { blocks: Some(list_or_empty(value)), ..st.meta }, ..st }
    } else if key == "result"@ {
        MetaState { meta: CommentMetadataV { result: Some(value), ..st.meta }, ..st }
    } else {
        st
    }
}

/// The metadata after the first `n` comments.
pub open spec fn fold_comments(pairs: Seq<(Seq<char>, Seq<char>)>, n: int) -> MetaState
    decreases n,
{
    if n <= 0 || n > pairs.len() {
        no_meta()
    } else {
        apply_comment(fold_comments(pairs, n - 1), pairs[n - 1].0, pairs[n - 1].1)
    }
}

/// `(keys, values)` with one more member when there is a value.
pub open spec fn push_member(kv: (Seq<Seq<char>>, Seq<JsonV>), key: Seq<char>, v: Option<Seq<char>>) -> (Seq<Seq<char>>, Seq<JsonV>) {
    match v {
        Some(t) => (kv.0.push(key), kv.1.push(JsonV::Str(t))),
        None => kv,
    }
}

/// The commit object, its members in key order, present only with a sha.
pub open spec fn commit_of(st: MetaState) -> Option<JsonV> {
    if st.sha is None {
        None
    } else {
        let e: (Seq<Seq<char>>, Seq<JsonV>) = (Seq::empty(), Seq::empty());
        let kv = push_member(
            push_member(
                push_member(push_member(push_member(e, "branch"@, st.branch), "message"@, st.message), "sha"@, st.sha),
                "timestamp"@,
                st.timestamp,
            ),
            "url"@,
            st.url,
        );
        Some(JsonV::Object(kv.0, kv.1))
    }
}

/// The metadata the comments with `prefix` in a text give; `None` when
/// there is no such comment.
pub open spec fn metadata_spec(text: Seq<char>, prefix: Seq<char>) -> Option<CommentMetadataV> {
    let pairs = comments_from(text, prefix, 0);
    if pairs.len() == 0 {
        None
    } else {
        let st = fold_comments(pairs, pairs.len() as int);
        Some(CommentMetadataV { commit: commit_of(st), ..st.meta })
    }
}

struct MetaFold {
    meta: CommentMetadata,
    sha: Option<String>,
    message: Option<String>,
    branch: Option<String>,
    url: Option<String>,
    timestamp: Option<String>,
}

impl View for MetaFold {
    type V = MetaState;

    closed spec fn view(&self) -> MetaState {
        MetaState {
            meta: self.meta@,
            sha: opt_view(self.sha),
            message: opt_view(self.message),
            branch: opt_view(self.branch),
            url: opt_view(self.url),
            timestamp: opt_view(self.timestamp),
        }
    }
}

fn apply_one(st: &mut MetaFold, key: &str, raw: &str)
    ensures
        final(st)@ == apply_comment(old(st)@, key@, raw@),
{
    let value = decode_metadata_value(raw);
    if str_eq(key, "commit_sha") {
        st.sha = Some(value);
    } else if str_eq(key, "commit_message") {
        st.message = Some(value);
    } else if str_eq(key, "commit_branch") {
        st.branch = Some(value);
    } else if str_eq(key, "commit_url") {
        st.url = Some(value);
    } else if str_eq(key, "commit_timestamp") {
        st.timestamp = Some(value);
    } else if str_eq(key, "id") {
        st.meta.id = Some(value);
    } else if str_eq(key, "parent_id") || str_eq(key, "parent") {
        st.meta.parent_id = Some(value);
    } else if str_eq(key, "priority") {
        st.meta.priority = parse_i64(value.as_str());
    } else if str_eq(key, "completed") {
        st.meta.completed = Some(str_eq(raw, "true"));
    } else if str_eq(key, "status") {
        if st.meta.completed.is_none() {
            st.meta.completed = Some(str_eq(raw, "completed"));
        }
    } else if str_eq(key, "created_at") {
        st.meta.created_at = Some(value);
    } else if str_eq(key, "updated_at") {
        st.meta.updated_at = Some(value);
    } else if str_eq(key, "started_at") {
        st.meta.started_at = Some(
            if !str_eq(raw, "null") {
                Some(value)
            } else {
                None
            },
        );
    } else if str_eq(key, "completed_at") {
        st.meta.completed_at = Some(
            if !str_eq(raw, "null") {
                Some(value)
            } else {
                None
            },
        );
    } else if str_eq(key, "blockedBy") {
        st.meta.blocked_by = Some(list_value(value.as_str()));
    } else if str_eq(key, "blocks") {
        st.meta.blocks = Some(list_value(value.as_str()));
    } else if str_eq(key, "result") {
        st.meta.result = Some(value);
    }
}

fn list_value(value: &str) -> (r: Vec<String>)
    ensures
        r.deep_view() == list_or_empty(value@),
{
    match parse_string_list(value) {
        Some(v) => v,
        None => {
            let v: Vec<String> = Vec::new();
            assert(v.deep_view() =~= Seq::<Seq<char>>::empty());
            v
        },
    }
}

fn push_part(keys: &mut Vec<String>, values: &mut Vec<Json>, key: &str, v: &Option<String>)
    ensures
        (final(keys).deep_view(), items_view(final(values)@)) == push_member(
            (old(keys).deep_view(), items_view(old(values)@)),
            key@,
            opt_view(*v),
        ),
{
    match v {
        Some(t) => {
            let ghost k0 = keys.deep_view();
            let ghost v0 = items_view(values@);
            keys.push(owned(key));
            values.push(Json::Str(t.clone()));
            assert(keys.deep_view() =~= k0.push(key@));
            assert(items_view(values@) =~= v0.push(JsonV::Str(t@)));
        },
        None => {},
    }
}

/// Reads the `<!-- dex:<prefix>:<key>:<value> -->` comments of a text;
/// `None` when there is none. `prefix` is a word, such as `task` or
/// `subtask`.
pub fn parse_metadata_comments(text: &str, prefix: &str) -> (r: Option<CommentMetadata>)
    ensures
        match r {
            Some(m) => metadata_spec(text@, prefix@) == Some(m@),
            None => metadata_spec(text@, prefix@) is None,
        },
{
    let pairs = comment_pairs(text, prefix);
    let ghost pv = comments_from(text@, prefix@, 0);
    if pairs.len() == 0 {
        return None;
    }
    let mut st = MetaFold {
        meta: CommentMetadata {
            id: None,
            parent_id: None,
            priority: None,
            completed: None,
            created_at: None,
            updated_at: None,
            started_at: None,
            completed_at: None,
            blocked_by: None,
            blocks: None,
            result: None,
            commit: None,
        },
        sha: None,
        message: None,
        branch: None,
        url: None,
        timestamp: None,
    };
    let mut i: usize = 0;
    while i < pairs.len()
        invariant
            i <= pairs.len(),
            pairs@.len() == pv.len(),
            forall|q: int| 0 <= q < pairs@.len() ==> (#[trigger] pairs@[q]).0@ == pv[q].0 && pairs@[q].1@ == pv[q].1,
            st@ == fold_comments(pv, i as int),
        decreases pairs.len() - i,
    {
        assert(pairs@[i as int].0@ == pv[i as int].0);
        apply_one(&mut st, pairs[i].0.as_str(), pairs[i].1.as_str());
        i = i + 1;
    }
    let mut keys: Vec<String> = Vec::new();
    let mut values: Vec<Json> = Vec::new();
    proof {
        assert(keys.deep_view() =~= Seq::<Seq<char>>::empty());
        assert(items_view(values@) =~= Seq::<JsonV>::empty());
    }
    let commit = if st.sha.is_some() {
        push_part(&mut keys, &mut values, "branch", &st.branch);
        push_part(&mut keys, &mut values, "message", &st.message);
        push_part(&mut keys, &mut values, "sha", &st.sha);
        push_part(&mut keys, &mut values, "timestamp", &st.timestamp);
        push_part(&mut keys, &mut values, "url", &st.url);
        let c = Json::Object(keys, values);
        proof {
            lemma_view_parts(c);
        }
        Some(c)
    } else {
        None
    };
    let mut meta = st.meta;
    meta.commit = commit;
    Some(meta)
}

/// A list of strings written as JSON, as `serde_json::to_string` writes a
/// `Vec<String>`.
pub uninterp spec fn json_list_text(items: Seq<Seq<char>>) -> Seq<char>;

/// `serde_json::to_string` of a `Vec<String>`. Claimed: the text is
/// `json_list_text(items)`, and reading it back as a list of strings gives
/// the items. Writing a list of strings cannot fail.
#[verifier::external_body]
fn string_list_json(items: &Vec<String>) -> (r: String)
    ensures
        r@ == json_list_text(items.deep_view()),
        json_string_list(r@) == Some(items.deep_view()),
{
    match serde_json::to_string(items) {
        Ok(t) => t,
        Err(_) => String::new(),
    }
}

/// One metadata comment.
pub open spec fn comment_line(prefix: Seq<char>, key: Seq<char>, value: Seq<char>) -> Seq<char> {
    "<!-- dex:"@ + prefix + ":"@ + key + ":"@ + value + " -->"@
}

/// Writes one metadata comment.
pub fn comment(prefix: &str, key: &str, value: &str) -> (r: String)
    ensures
        r@ == comment_line(prefix@, key@, value@),
{
    let mut r = owned("<!-- dex:");
    crate::text::push_str(&mut r, prefix);
    crate::text::push_str(&mut r, ":");
    crate::text::push_str(&mut r, key);
    crate::text::push_str(&mut r, ":");
    crate::text::push_str(&mut r, value);
    crate::text::push_str(&mut r, " -->");
    r
}

/// A string member of a JSON object.
pub open spec fn str_member(c: JsonV, key: Seq<char>) -> Option<Seq<char>> {
    match crate::json::json_get(c, key) {
        Some(v) => crate::json::json_str(v),
        None => None,
    }
}

/// A comment when there is a value.
pub open spec fn opt_comment(prefix: Seq<char>, key: Seq<char>, v: Option<Seq<char>>) -> Seq<Seq<char>> {
    match v {
        Some(t) => seq![comment_line(prefix, key, t)],
        None => Seq::empty(),
    }
}

/// The comments of a commit in a task's metadata.
pub open spec fn commit_lines(prefix: Seq<char>, metadata: Option<JsonV>) -> Seq<Seq<char>> {
    match metadata {
        Some(m) => match crate::json::json_get(m, "commit"@) {
            Some(c) => opt_comment(prefix, "commit_sha"@, str_member(c, "sha"@)) + opt_comment(
                prefix,
                "commit_message"@,
                match str_member(c, "message"@) {
                    Some(t) => Some(encode_spec(t)),
                    None => None,
                },
            ) + opt_comment(prefix, "commit_branch"@, str_member(c, "branch"@)) + opt_comment(
                prefix,
                "commit_url"@,
                str_member(c, "url"@),
            ) + opt_comment(prefix, "commit_timestamp"@, str_member(c, "timestamp"@)),
            None => Seq::empty(),
        },
        None => Seq::empty(),
    }
}

/// The comments of a task's result and commit.
pub open spec fn tail_lines(prefix: Seq<char>, t: TaskV) -> Seq<Seq<char>> {
    let r = match t.result {
        Some(res) => if res.len() > 0 {
            seq![comment_line(prefix, "result"@, encode_spec(res))]
        } else {
            Seq::empty()
        },
        None => Seq::empty(),
    };
    r + commit_lines(prefix, t.metadata)
}

fn push_opt_comment(lines: &mut Vec<String>, prefix: &str, key: &str, v: Option<String>)
    ensures
        final(lines).deep_view() == old(lines).deep_view() + opt_comment(prefix@, key@, opt_view(v)),
{
    let ghost before = lines.deep_view();
    match v {
        Some(t) => {
            lines.push(comment(prefix, key, t.as_str()));
            assert(lines.deep_view() =~= before + seq![comment_line(prefix@, key@, t@)]);
        },
        None => {
            assert(lines.deep_view() =~= before + Seq::<Seq<char>>::empty());
        },
    }
}

fn member_text(c: &Json, key: &str) -> (r: Option<String>)
    ensures
        opt_view(r) == str_member(c@, key@),
{
    match c.get(key) {
        Some(v) => match v.as_str() {
            Some(t) => Some(t.clone()),
            None => None,
        },
        None => None,
    }
}

fn push_result(lines: &mut Vec<String>, prefix: &str, result: &Option<String>)
    ensures
        final(lines).deep_view() == old(lines).deep_view() + match opt_view(*result) {
            Some(res) => if res.len() > 0 {
                seq![comment_line(prefix@, "result"@, encode_spec(res))]
            } else {
                Seq::empty()
            },
            None => Seq::empty(),
        },
{
    let ghost before = lines.deep_view();
    match result {
        Some(res) => {
            if chars_of(res.as_str()).len() > 0 {
                let enc = encode_metadata_value(res.as_str());
                lines.push(comment(prefix, "result", enc.as_str()));
                assert(lines.deep_view() =~= before + seq![comment_line(prefix@, "result"@, encode_spec(res@))]);
            } else {
                assert(lines.deep_view() =~= before + Seq::<Seq<char>>::empty());
            }
        },
        None => {
            assert(lines.deep_view() =~= before + Seq::<Seq<char>>::empty());
        },
    }
}

fn push_commit(lines: &mut Vec<String>, prefix: &str, metadata: &Option<Json>)
    ensures
        final(lines).deep_view() == old(lines).deep_view() + commit_lines(prefix@, crate::json::opt_json_view(*metadata)),
{
    let ghost before = lines.deep_view();
    match metadata {
        Some(m) => match m.get("commit") {
            Some(c) => {
                push_opt_comment(lines, prefix, "commit_sha", member_text(c, "sha"));
                let message = match member_text(c, "message") {
                    Some(t) => Some(encode_metadata_value(t.as_str())),
                    None => None,
                };
                push_opt_comment(lines, prefix, "commit_message", message);
                push_opt_comment(lines, prefix, "commit_branch", member_text(c, "branch"));
                push_opt_comment(lines, prefix, "commit_url", member_text(c, "url"));
                push_opt_comment(lines, prefix, "commit_timestamp", member_text(c, "timestamp"));
                assert(lines.deep_view() =~= before + commit_lines(prefix@, crate::json::opt_json_view(*metadata)));
            },
            None => {
                assert(lines.deep_view() =~= before + Seq::<Seq<char>>::empty());
            },
        },
        None => {
            assert(lines.deep_view() =~= before + Seq::<Seq<char>>::empty());
        },
    }
}

fn push_tail(lines: &mut Vec<String>, prefix: &str, task: &Task)
    ensures
        final(lines).deep_view() == old(lines).deep_view() + tail_lines(prefix@, task@),
{
    let ghost before = lines.deep_view();
    push_result(lines, prefix, &task.result);
    let ghost mid = lines.deep_view();
    push_commit(lines, prefix, &task.metadata);
    assert(lines.deep_view() =~= before + tail_lines(prefix@, task@));
}

/// The text of a flag.
pub open spec fn bool_text(b: bool) -> Seq<char> {
    if b {
        "true"@
    } else {
        "false"@
    }
}

fn bool_string(b: bool) -> (r: String)
    ensures
        r@ == bool_text(b),
{
    if b {
        owned("true")
    } else {
        owned("false")
    }
}

/// An optional text, or a stand-in.
pub open spec fn or_else(v: Option<Seq<char>>, d: Seq<char>) -> Seq<char> {
    match v {
        Some(t) => t,
        None => d,
    }
}

fn text_or(v: &Option<String>, d: &str) -> (r: String)
    ensures
        r@ == or_else(opt_view(*v), d@),
{
    match v {
        Some(t) => t.clone(),
        None => owned(d),
    }
}

/// The metadata comments of a task, in the order an issue body carries
/// them.
pub open spec fn task_comments(t: TaskV, prefix: Seq<char>, parent_id: Option<Seq<char>>) -> Seq<Seq<char>> {
    seq![comment_line(prefix, "id"@, t.id)] + opt_comment(prefix, "parent"@, parent_id) + seq![
        comment_line(prefix, "priority"@, crate::text::int_dec(t.priority as int)),
        comment_line(prefix, "completed"@, bool_text(t.completed)),
        comment_line(prefix, "created_at"@, or_else(t.created_at, ""@)),
        comment_line(prefix, "updated_at"@, or_else(t.updated_at, ""@)),
        comment_line(prefix, "started_at"@, or_else(t.started_at, "null"@)),
        comment_line(prefix, "completed_at"@, or_else(t.completed_at, "null"@)),
        comment_line(prefix, "blockedBy"@, json_list_text(t.blocked_by)),
        comment_line(prefix, "blocks"@, json_list_text(t.blocks)),
    ] + tail_lines(prefix, t)
}

/// Writes the metadata comments of a task.
pub fn render_task_metadata_comments(task: &Task, prefix: &str, parent_id: Option<&str>) -> (r: Vec<String>)
    ensures
        r.deep_view() == task_comments(task@, prefix@, crate::relations::opt_str(parent_id)),
{
    let mut lines: Vec<String> = Vec::new();
    lines.push(comment(prefix, "id", task.id.as_str()));
    let ghost l1 = lines.deep_view();
    match parent_id {
        Some(p) => lines.push(comment(prefix, "parent", p)),
        None => {},
    }
    let ghost l2 = lines.deep_view();
    assert(l2 =~= seq![comment_line(prefix@, "id"@, task.id@)] + opt_comment(prefix@, "parent"@, crate::relations::opt_str(parent_id)));
    lines.push(comment(prefix, "priority", crate::text::i64_text(task.priority).as_str()));
    lines.push(comment(prefix, "completed", bool_string(task.completed).as_str()));
    lines.push(comment(prefix, "created_at", text_or(&task.created_at, "").as_str()));
    lines.push(comment(prefix, "updated_at", text_or(&task.updated_at, "").as_str()));
    lines.push(comment(prefix, "started_at", text_or(&task.started_at, "null").as_str()));
    lines.push(comment(prefix, "completed_at", text_or(&task.completed_at, "null").as_str()));
    lines.push(comment(prefix, "blockedBy", string_list_json(&task.blocked_by).as_str()));
    lines.push(comment(prefix, "blocks", string_list_json(&task.blocks).as_str()));
    let ghost l3 = lines.deep_view();
    push_tail(&mut lines, prefix, task);
    assert(lines.deep_view() =~= task_comments(task@, prefix@, crate::relations::opt_str(parent_id)));
    lines
}

/// The description of a story: the task's metadata comments, then its
/// description after a blank line when it has one.
pub open spec fn story_lines(t: TaskV) -> Seq<Seq<char>> {
    seq![comment_line("task"@, "id"@, t.id)] + opt_comment("task"@, "parent_id"@, t.parent_id) + seq![
        comment_line("task"@, "priority"@, crate::text::int_dec(t.priority as int)),
        comment_line("task"@, "completed"@, bool_text(t.completed)),
        comment_line("task"@, "created_at"@, or_else(t.created_at, ""@)),
        comment_line("task"@, "updated_at"@, or_else(t.updated_at, ""@)),
        comment_line("task"@, "completed_at"@, or_else(t.completed_at, "null"@)),
    ] + tail_lines("task"@, t) + if t.description.len() > 0 {
        seq![Seq::<char>::empty(), t.description]
    } else {
        Seq::empty()
    }
}

/// Writes the description of a story.
pub fn render_story_description(task: &Task) -> (r: String)
    ensures
        r@ == crate::text::joined_by(story_lines(task@), "\n"@),
{
    let mut lines: Vec<String> = Vec::new();
    lines.push(comment("task", "id", task.id.as_str()));
    match &task.parent_id {
        Some(p) => lines.push(comment("task", "parent_id", p.as_str())),
        None => {},
    }
    let ghost l2 = lines.deep_view();
    assert(l2 =~= seq![comment_line("task"@, "id"@, task.id@)] + opt_comment("task"@, "parent_id"@, task@.parent_id));
    lines.push(comment("task", "priority", crate::text::i64_text(task.priority).as_str()));
    lines.push(comment("task", "completed", bool_string(task.completed).as_str()));
    lines.push(comment("task", "created_at", text_or(&task.created_at, "").as_str()));
    lines.push(comment("task", "updated_at", text_or(&task.updated_at, "").as_str()));
    lines.push(comment("task", "completed_at", text_or(&task.completed_at, "null").as_str()));
    push_tail(&mut lines, "task", task);
    let ghost l4 = lines.deep_view();
    assert(l4 =~= seq![comment_line("task"@, "id"@, task.id@)] + opt_comment("task"@, "parent_id"@, task@.parent_id) + seq![
        comment_line("task"@, "priority"@, crate::text::int_dec(task.priority as int)),
        comment_line("task"@, "completed"@, bool_text(task.completed)),
        comment_line("task"@, "created_at"@, or_else(task@.created_at, ""@)),
        comment_line("task"@, "updated_at"@, or_else(task@.updated_at, ""@)),
        comment_line("task"@, "completed_at"@, or_else(task@.completed_at, "null"@)),
    ] + tail_lines("task"@, task@));
    if chars_of(task.description.as_str()).len() > 0 {
        let blank = String::new();
        assert(blank@ =~= Seq::<char>::empty());
        lines.push(blank);
        lines.push(task.description.clone());
        assert(lines.deep_view() =~= l4 + seq![Seq::<char>::empty(), task.description@]);
    } else {
        assert(lines.deep_view() =~= l4 + Seq::<Seq<char>>::empty());
    }
    assert(lines.deep_view() =~= story_lines(task@));
    crate::text::join(&lines, "\n")
}

/// The character classes the tag patterns use: ASCII letters and digits,
/// lower-case ASCII letters and digits, and anything but white space.
pub open spec fn in_class(c: char, class: int) -> bool {
    if class == 0 {
        ('a' <= c <= 'z') || ('A' <= c <= 'Z') || ('0' <= c <= '9')
    } else if class == 1 {
        ('a' <= c <= 'z') || ('0' <= c <= '9')
    } else {
        !crate::text::is_space(c)
    }
}

fn class_has(c: char, class: u8) -> (r: bool)
    ensures
        r == in_class(c, class as int),
{
    if class == 0 {
        ('a' <= c && c <= 'z') || ('A' <= c && c <= 'Z') || ('0' <= c && c <= '9')
    } else if class == 1 {
        ('a' <= c && c <= 'z') || ('0' <= c && c <= '9')
    } else {
        !crate::text::space(c)
    }
}

/// Where the run of characters of a class that starts at `k` ends.
pub open spec fn run_end(t: Seq<char>, k: int, class: int) -> int
    decreases t.len() - k,
{
    if 0 <= k < t.len() && in_class(t[k], class) {
        run_end(t, k + 1, class)
    } else {
        k
    }
}

proof fn lemma_run_end(t: Seq<char>, k: int, class: int)
    requires
        0 <= k <= t.len(),
    ensures
        k <= run_end(t, k, class) <= t.len(),
        forall|q: int| k <= q < run_end(t, k, class) ==> in_class(t[q], class),
        run_end(t, k, class) < t.len() ==> !in_class(t[run_end(t, k, class)], class),
    decreases t.len() - k,
{
    if k < t.len() && in_class(t[k], class) {
        lemma_run_end(t, k + 1, class);
    }
}

/// A tag `<head><run> -->` at `i`, its run non-empty and of one class:
/// where the run ends.
pub open spec fn tag_at(t: Seq<char>, head: Seq<char>, class: int, i: int) -> Option<int> {
    if !occurs_at(t, head, i) {
        None
    } else {
        let e = run_end(t, i + head.len(), class);
        if e > i + head.len() && occurs_at(t, " -->"@, e) {
            Some(e)
        } else {
            None
        }
    }
}

/// The first position at or after `i` where a tag starts.
pub open spec fn next_tag(t: Seq<char>, head: Seq<char>, class: int, i: int) -> Option<int>
    decreases t.len() + 1 - i,
{
    if i < 0 || i > t.len() {
        None
    } else if tag_at(t, head, class, i) is Some {
        Some(i)
    } else {
        next_tag(t, head, class, i + 1)
    }
}

/// The run of the first tag in a text.
pub open spec fn first_tag(t: Seq<char>, head: Seq<char>, class: int) -> Option<Seq<char>> {
    match next_tag(t, head, class, 0) {
        Some(i) => Some(t.subrange(i + head.len(), tag_at(t, head, class, i)->0)),
        None => None,
    }
}

fn tag_at_exec(x: &[char], head: &[char], class: u8, i: usize) -> (r: Option<usize>)
    requires
        class <= 2,
    ensures
        match r {
            Some(e) => tag_at(x@, head@, class as int, i as int) == Some(e as int),
            None => tag_at(x@, head@, class as int, i as int) is None,
        },
{
    if !matches_at(x, head, i) {
        return None;
    }
    let hl = head.len();
    let xl = x.len();
    assert(hl == head@.len());
    assert(xl == x@.len());
    assert(i + hl <= xl);
    let s = i + hl;
    let mut e = s;
    proof {
        lemma_run_end(x@, s as int, class as int);
    }
    while e < x.len() && class_has(x[e], class)
        invariant
            s <= e <= x.len(),
            run_end(x@, s as int, class as int) == run_end(x@, e as int, class as int),
        decreases x.len() - e,
    {
        assert(run_end(x@, e as int, class as int) == run_end(x@, e + 1, class as int));
        e = e + 1;
    }
    assert(run_end(x@, e as int, class as int) == e);
    let close = [' ', '-', '-', '>'];
    proof {
        reveal_strlit(" -->");
        assert(close@ =~= " -->"@);
    }
    if e > s && matches_at(x, &close, e) {
        Some(e)
    } else {
        None
    }
}

/// The run of the first tag `<head><run> -->` in a text.
pub fn find_tag(text: &str, head: &str, class: u8) -> (r: Option<String>)
    requires
        class <= 2,
    ensures
        match r {
            Some(v) => first_tag(text@, head@, class as int) == Some(v@),
            None => first_tag(text@, head@, class as int) is None,
        },
{
    let x = chars_of(text);
    let h = chars_of(head);
    let mut i: usize = 0;
    while i <= x.len()
        invariant
            i <= x.len() + 1,
            x@ == text@,
            h@ == head@,
            class <= 2,
            next_tag(x@, h@, class as int, 0) == next_tag(x@, h@, class as int, i as int),
        decreases x.len() + 1 - i,
    {
        match tag_at_exec(x.as_slice(), h.as_slice(), class, i) {
            Some(e) => {
                assert(next_tag(x@, h@, class as int, i as int) == Some(i as int));
                assert(i + h@.len() <= e);
                return Some(string_of(&x[i + h.len()..e]));
            },
            None => {
                if i == x.len() {
                    assert(next_tag(x@, h@, class as int, i + 1) is None);
                    return None;
                }
                i = i + 1;
            },
        }
    }
    None
}

/// A task's id in an issue body: from `<!-- dex:task:id:<id> -->`, else
/// from the older `<!-- dex:task:<id> -->`; ids of lower-case letters and
/// digits.
pub open spec fn task_id_spec(body: Seq<char>) -> Option<Seq<char>> {
    match first_tag(body, "<!-- dex:task:id:"@, 1) {
        Some(id) => Some(id),
        None => first_tag(body, "<!-- dex:task:"@, 1),
    }
}

/// Reads a task's id from an issue body.
pub fn extract_task_id(body: &str) -> (r: Option<String>)
    ensures
        opt_view(r) == task_id_spec(body@),
{
    match find_tag(body, "<!-- dex:task:id:", 1) {
        Some(id) => Some(id),
        None => find_tag(body, "<!-- dex:task:", 1),
    }
}

/// The metadata of a root issue: its `task` comments, else the older bare
/// id comment (`<!-- dex:task:<id> -->`, letters and digits).
pub open spec fn root_metadata_spec(body: Seq<char>) -> Option<CommentMetadataV> {
    match metadata_spec(body, "task"@) {
        Some(m) => Some(m),
        None => match first_tag(body, "<!-- dex:task:"@, 0) {
            Some(id) => Some(CommentMetadataV { id: Some(id), ..no_meta().meta }),
            None => None,
        },
    }
}

/// Reads the metadata of a root issue.
pub fn parse_root_task_metadata(body: &str) -> (r: Option<CommentMetadata>)
    ensures
        match r {
            Some(m) => root_metadata_spec(body@) == Some(m@),
            None => root_metadata_spec(body@) is None,
        },
{
    match parse_metadata_comments(body, "task") {
        Some(m) => Some(m),
        None => match find_tag(body, "<!-- dex:task:", 0) {
            Some(id) => Some(
                CommentMetadata {
                    id: Some(id),
                    parent_id: None,
                    priority: None,
                    completed: None,
                    created_at: None,
                    updated_at: None,
                    started_at: None,
                    completed_at: None,
                    blocked_by: None,
                    blocks: None,
                    result: None,
                    commit: None,
                },
            ),
            None => None,
        },
    }
}

/// A text without its `<!-- dex:task:<non-space> -->` comments (each with
/// the line break after it, if any), from `i` on.
pub open spec fn strip_from(t: Seq<char>, i: int) -> Seq<char>
    decreases t.len() + 1 - i,
{
    match next_tag(t, "<!-- dex:task:"@, 2, i) {
        Some(j) => {
            let e = tag_at(t, "<!-- dex:task:"@, 2, j)->0 + 4;
            let after = if e < t.len() && t[e] == '\n' {
                e + 1
            } else {
                e
            };
            if j < i || after <= i || after > t.len() {
                t.skip(i)
            } else {
                t.subrange(i, j) + strip_from(t, after)
            }
        },
        None => if 0 <= i <= t.len() {
            t.skip(i)
        } else {
            Seq::empty()
        },
    }
}

/// The context of a description: its text without the task comments,
/// trimmed.
pub open spec fn strip_spec(text: Seq<char>) -> Seq<char> {
    crate::text::trimmed(strip_from(text, 0))
}

/// Removes the task comments from a text and trims it.
pub fn strip_task_comments(text: &str) -> (r: String)
    ensures
        r@ == strip_spec(text@),
{
    let x = chars_of(text);
    let h = chars_of("<!-- dex:task:");
    proof {
        reveal_strlit("<!-- dex:task:");
        reveal_strlit(" -->");
    }
    let ghost t = x@;
    let mut out = String::new();
    let mut i: usize = 0;
    let mut j: usize = 0;
    assert(out@ + strip_from(t, 0) =~= strip_from(t, 0));
    loop
        invariant
            i <= j <= x.len(),
            i <= x.len(),
            t == x@,
            t == text@,
            h@ == "<!-- dex:task:"@,
            " -->"@.len() == 4,
            next_tag(t, h@, 2, i as int) == next_tag(t, h@, 2, j as int),
            out@ + strip_from(t, i as int) == strip_from(t, 0),
        ensures
            i <= x.len(),
            t == x@,
            next_tag(t, h@, 2, i as int) is None,
            out@ + strip_from(t, i as int) == strip_from(t, 0),
        decreases x.len() + 1 - j,
    {
        match tag_at_exec(x.as_slice(), h.as_slice(), 2, j) {
            Some(e0) => {
                assert(next_tag(t, h@, 2, j as int) == Some(j as int));
                assert(occurs_at(t, " -->"@, e0 as int));
                let e = e0 + 4;
                let after = if e < x.len() && x[e] == '\n' {
                    e + 1
                } else {
                    e
                };
                let piece = string_of(&x[i..j]);
                assert(piece@ =~= t.subrange(i as int, j as int));
                assert(strip_from(t, i as int) == t.subrange(i as int, j as int) + strip_from(t, after as int));
                let ghost o0 = out@;
                crate::text::push_str(&mut out, piece.as_str());
                assert(out@ + strip_from(t, after as int) =~= o0 + strip_from(t, i as int));
                i = after;
                j = after;
            },
            None => {
                if j == x.len() {
                    assert(next_tag(t, h@, 2, j + 1) is None);
                    assert(next_tag(t, h@, 2, j as int) is None);
                    break;
                }
                j = j + 1;
            },
        }
    }
    let rest = string_of(&x[i..x.len()]);
    assert(rest@ =~= t.skip(i as int));
    crate::text::push_str(&mut out, rest.as_str());
    crate::text::trim(out.as_str())
}

/// A story's description read back: its context and its metadata.
pub struct ParsedStory {
    pub context: String,
    pub metadata: Option<CommentMetadata>,
}

/// Reads a story's description.
pub fn parse_story_description(description: &str) -> (r: ParsedStory)
    ensures
        r.context@ == strip_spec(description@),
        match r.metadata {
            Some(m) => metadata_spec(description@, "task"@) == Some(m@),
            None => metadata_spec(description@, "task"@) is None,
        },
{
    ParsedStory { context: strip_task_comments(description), metadata: parse_metadata_comments(description, "task") }
}

/// A task under a root, with its depth below the root's children and its
/// parent's id.
pub struct Descendant {
    pub task: Task,
    pub depth: usize,
    pub parent_id: String,
}

/// The value of a `Descendant`.
pub struct DescendantV {
    pub task: TaskV,
    pub depth: nat,
    pub parent_id: Seq<char>,
}

impl View for Descendant {
    type V = DescendantV;

    open spec fn view(&self) -> DescendantV {
        DescendantV { task: self.task@, depth: self.depth as nat, parent_id: self.parent_id@ }
    }
}

/// The positions of the tasks among the first `n` whose parent is `parent`,
/// in order.
pub open spec fn kids_upto(ts: Seq<TaskV>, parent: Seq<char>, n: int) -> Seq<usize>
    decreases n,
{
    if n <= 0 || n > ts.len() {
        Seq::empty()
    } else {
        let rest = kids_upto(ts, parent, n - 1);
        if ts[n - 1].parent_id == Some(parent) {
            rest.push((n - 1) as usize)
        } else {
            rest
        }
    }
}

/// The sort key of a task by priority alone.
pub open spec fn priority_key(t: TaskV) -> crate::sort::KeyV {
    crate::sort::KeyV { major: t.priority, minor: 0, text: Seq::empty() }
}

/// The children of `parent`, by priority (a stable sort).
pub open spec fn kids_sorted(ts: Seq<TaskV>, parent: Seq<char>) -> Seq<usize> {
    let k = kids_upto(ts, parent, ts.len() as int);
    crate::sort::stable_order(k.map_values(|p: usize| priority_key(ts[p as int])), false).map_values(
        |q: usize| k[q as int],
    )
}

/// The descendants of `parent`, depth first, each child's subtree after
/// it, within `fuel` levels.
pub open spec fn descendants(ts: Seq<TaskV>, parent: Seq<char>, depth: nat, fuel: nat) -> Seq<DescendantV>
    decreases fuel, 0int,
{
    if fuel == 0 {
        Seq::empty()
    } else {
        descendants_of(ts, kids_sorted(ts, parent), kids_sorted(ts, parent).len() as int, parent, depth, (fuel - 1) as nat)
    }
}

/// The first `n` children of `list` with their subtrees.
pub open spec fn descendants_of(
    ts: Seq<TaskV>,
    list: Seq<usize>,
    n: int,
    parent: Seq<char>,
    depth: nat,
    fuel: nat,
) -> Seq<DescendantV>
    decreases fuel, n,
{
    if n <= 0 || n > list.len() || list[n - 1] >= ts.len() {
        Seq::empty()
    } else {
        let c = ts[list[n - 1] as int];
        descendants_of(ts, list, n - 1, parent, depth, fuel) + seq![DescendantV { task: c, depth, parent_id: parent }]
            + descendants(ts, c.id, depth + 1, fuel)
    }
}

/// Every chain of children below `parent` ends within `fuel` levels.
pub open spec fn bounded(ts: Seq<TaskV>, parent: Seq<char>, fuel: nat) -> bool {
    bounded_from(ts, parent, fuel, 0)
}

/// The children of `parent` at positions `i` and later have their chains
/// end within `fuel - 1` levels (and there are none when `fuel` is 0).
pub open spec fn bounded_from(ts: Seq<TaskV>, parent: Seq<char>, fuel: nat, i: int) -> bool
    decreases fuel, ts.len() - i,
{
    if i < 0 || i >= ts.len() {
        true
    } else {
        (ts[i].parent_id == Some(parent) ==> fuel > 0 && bounded_from(ts, ts[i].id, (fuel - 1) as nat, 0))
            && bounded_from(ts, parent, fuel, i + 1)
    }
}

proof fn lemma_bounded_kid(ts: Seq<TaskV>, parent: Seq<char>, fuel: nat, from: int, i: int)
    requires
        0 <= from <= i < ts.len(),
        bounded_from(ts, parent, fuel, from),
        ts[i].parent_id == Some(parent),
    ensures
        fuel > 0,
        bounded(ts, ts[i].id, (fuel - 1) as nat),
    decreases i - from,
{
    if from < i {
        lemma_bounded_kid(ts, parent, fuel, from + 1, i);
    }
}

fn kids_of_exec(tasks: &Vec<Task>, parent: &str) -> (r: Vec<usize>)
    ensures
        r@ == kids_sorted(tasks.deep_view(), parent@),
        forall|k: int| 0 <= k < r@.len() ==> #[trigger] r@[k] < tasks.len() && tasks.deep_view()[r@[k] as int].parent_id == Some(parent@),
{
    let ghost ts = tasks.deep_view();
    let mut k: Vec<usize> = Vec::new();
    let mut i: usize = 0;
    while i < tasks.len()
        invariant
            i <= tasks.len(),
            ts == tasks.deep_view(),
            k@ == kids_upto(ts, parent@, i as int),
            forall|q: int| 0 <= q < k@.len() ==> #[trigger] k@[q] < i && ts[k@[q] as int].parent_id == Some(parent@),
        decreases tasks.len() - i,
    {
        assert(ts[i as int] == tasks@[i as int]@);
        let is_kid = match &tasks[i].parent_id {
            Some(p) => str_eq(p.as_str(), parent),
            None => false,
        };
        if is_kid {
            k.push(i);
        }
        i = i + 1;
    }
    let mut keys: Vec<crate::sort::SortKey> = Vec::new();
    let mut j: usize = 0;
    while j < k.len()
        invariant
            j <= k.len(),
            ts == tasks.deep_view(),
            forall|q: int| 0 <= q < k@.len() ==> #[trigger] k@[q] < tasks.len(),
            keys.len() == j,
            forall|q: int| 0 <= q < j ==> #[trigger] keys@[q]@ == priority_key(ts[k@[q] as int]),
        decreases k.len() - j,
    {
        let t = &tasks[k[j]];
        assert(t@ == ts[k@[j as int] as int]);
        keys.push(crate::sort::SortKey { major: t.priority, minor: 0, text: Vec::new() });
        assert(keys@[j as int]@.text =~= Seq::<char>::empty());
        j = j + 1;
    }
    let order = crate::sort::sort_order(&keys, false);
    let ghost kv = keys@.map_values(|x: crate::sort::SortKey| x@);
    assert(kv =~= k@.map_values(|p: usize| priority_key(ts[p as int])));
    proof {
        crate::sort::lemma_stable_order(order@, kv, false);
    }
    let mut r: Vec<usize> = Vec::new();
    let mut m: usize = 0;
    while m < order.len()
        invariant
            m <= order.len(),
            order.len() == k.len(),
            ts == tasks.deep_view(),
            forall|q: int| 0 <= q < k@.len() ==> #[trigger] k@[q] < tasks.len() && ts[k@[q] as int].parent_id == Some(parent@),
            crate::sort::sorted_permutation(order@, kv, false),
            r@ == order@.take(m as int).map_values(|q: usize| k@[q as int]),
        decreases order.len() - m,
    {
        assert(order@[m as int] < k.len());
        r.push(k[order[m]]);
        assert(r@ =~= order@.take(m + 1).map_values(|q: usize| k@[q as int]));
        m = m + 1;
    }
    assert(order@.take(order.len() as int) =~= order@);
    r
}

fn collect(tasks: &Vec<Task>, parent: &str, depth: usize, fuel: usize, out: &mut Vec<Descendant>)
    requires
        bounded(tasks.deep_view(), parent@, fuel as nat),
        depth + fuel <= usize::MAX,
    ensures
        final(out)@.map_values(|d: Descendant| d@) == old(out)@.map_values(|d: Descendant| d@) + descendants(
            tasks.deep_view(),
            parent@,
            depth as nat,
            fuel as nat,
        ),
    decreases fuel, 0int,
{
    let ghost ts = tasks.deep_view();
    if fuel == 0 {
        assert(out@.map_values(|d: Descendant| d@) =~= old(out)@.map_values(|d: Descendant| d@) + Seq::<DescendantV>::empty());
        return;
    }
    let list = kids_of_exec(tasks, parent);
    let f = fuel - 1;
    assert forall|i: int| 0 <= i < ts.len() && ts[i].parent_id == Some(parent@) implies #[trigger] bounded(
        ts,
        ts[i].id,
        f as nat,
    ) by {
        lemma_bounded_kid(ts, parent@, fuel as nat, 0, i);
    }
    collect_list(tasks, &list, list.len(), parent, depth, f, out);
}

fn collect_list(
    tasks: &Vec<Task>,
    list: &Vec<usize>,
    n: usize,
    parent: &str,
    depth: usize,
    fuel: usize,
    out: &mut Vec<Descendant>,
)
    requires
        n <= list.len(),
        forall|k: int| 0 <= k < list@.len() ==> #[trigger] list@[k] < tasks.len() && tasks.deep_view()[list@[k] as int].parent_id == Some(parent@),
        forall|i: int|
            0 <= i < tasks.deep_view().len() && tasks.deep_view()[i].parent_id == Some(parent@) ==> #[trigger] bounded(
                tasks.deep_view(),
                tasks.deep_view()[i].id,
                fuel as nat,
            ),
        depth + fuel + 1 <= usize::MAX,
    ensures
        final(out)@.map_values(|d: Descendant| d@) == old(out)@.map_values(|d: Descendant| d@) + descendants_of(
            tasks.deep_view(),
            list@,
            n as int,
            parent@,
            depth as nat,
            fuel as nat,
        ),
    decreases fuel, n,
{
    let ghost ts = tasks.deep_view();
    if n == 0 {
        assert(out@.map_values(|d: Descendant| d@) =~= old(out)@.map_values(|d: Descendant| d@) + Seq::<DescendantV>::empty());
        return;
    }
    collect_list(tasks, list, n - 1, parent, depth, fuel, out);
    let ghost mid = out@.map_values(|d: Descendant| d@);
    let c = &tasks[list[n - 1]];
    assert(c@ == ts[list@[n - 1] as int]);
    let d = Descendant { task: c.duplicate(), depth, parent_id: owned(parent) };
    let ghost dv = d@;
    out.push(d);
    assert(out@.map_values(|d: Descendant| d@) =~= mid.push(dv));
    let ghost mid2 = out@.map_values(|d: Descendant| d@);
    assert(bounded(ts, ts[list@[n - 1] as int].id, fuel as nat));
    collect(tasks, c.id.as_str(), depth + 1, fuel, out);
    assert(out@.map_values(|d: Descendant| d@) =~= old(out)@.map_values(|d: Descendant| d@) + descendants_of(
        ts,
        list@,
        n as int,
        parent@,
        depth as nat,
        fuel as nat,
    ));
}

/// The descendants of a root task, depth first, children by priority.
/// Every chain of children below the root must end (no loop of parents
/// under it), else the walk would not return.
pub fn collect_descendants(tasks: &Vec<Task>, root_id: &str) -> (r: Vec<Descendant>)
    requires
        bounded(tasks.deep_view(), root_id@, tasks.len() as nat),
    ensures
        r@.map_values(|d: Descendant| d@) == descendants(tasks.deep_view(), root_id@, 0, tasks.len() as nat),
{
    let mut out: Vec<Descendant> = Vec::new();
    collect(tasks, root_id, 0, tasks.len(), &mut out);
    assert(out@.map_values(|d: Descendant| d@) =~= Seq::<DescendantV>::empty() + descendants(
        tasks.deep_view(),
        root_id@,
        0,
        tasks.len() as nat,
    ));
    out
}

/// The lines of a descendant's `<details>` block in an issue body.
pub open spec fn details_lines(d: DescendantV) -> Seq<Seq<char>> {
    let t = d.task;
    let status = if t.completed {
        "\u{2705} "@
    } else {
        Seq::empty()
    };
    let tree = if d.depth > 0 {
        "\u{2514}\u{2500} "@
    } else {
        Seq::empty()
    };
    seq!["<details>"@, "<summary>"@ + status + tree + "<b>"@ + t.name + "</b></summary>"@, Seq::empty()]
        + task_comments(t, "subtask"@, Some(d.parent_id)) + seq![Seq::empty()] + (if t.description.len() > 0 {
        seq!["### Description"@, t.description, Seq::empty()]
    } else {
        Seq::empty()
    }) + (match t.result {
        Some(r) => if r.len() > 0 {
            seq!["### Result"@, r, Seq::empty()]
        } else {
            Seq::empty()
        },
        None => Seq::empty(),
    }) + seq!["</details>"@]
}

fn details_block(d: &Descendant) -> (r: String)
    ensures
        r@ == crate::text::joined_by(details_lines(d@), "\n"@),
{
    let t = &d.task;
    let mut summary = owned("<summary>");
    if t.completed {
        crate::text::push_str(&mut summary, "\u{2705} ");
    }
    if d.depth > 0 {
        crate::text::push_str(&mut summary, "\u{2514}\u{2500} ");
    }
    crate::text::push_str(&mut summary, "<b>");
    crate::text::push_str(&mut summary, t.name.as_str());
    crate::text::push_str(&mut summary, "</b></summary>");
    let mut lines: Vec<String> = Vec::new();
    lines.push(owned("<details>"));
    lines.push(summary);
    let blank = String::new();
    assert(blank@ =~= Seq::<char>::empty());
    lines.push(blank);
    let ghost l3 = lines.deep_view();
    let mut comments = render_task_metadata_comments(t, "subtask", Some(d.parent_id.as_str()));
    let ghost cv = comments.deep_view();
    lines.append(&mut comments);
    assert(lines.deep_view() =~= l3 + cv);
    let blank2 = String::new();
    assert(blank2@ =~= Seq::<char>::empty());
    lines.push(blank2);
    let ghost l4 = lines.deep_view();
    if chars_of(t.description.as_str()).len() > 0 {
        lines.push(owned("### Description"));
        lines.push(t.description.clone());
        let b = String::new();
        assert(b@ =~= Seq::<char>::empty());
        lines.push(b);
    }
    let ghost l5 = lines.deep_view();
    match &t.result {
        Some(r) => {
            if chars_of(r.as_str()).len() > 0 {
                lines.push(owned("### Result"));
                lines.push(r.clone());
                let b = String::new();
                assert(b@ =~= Seq::<char>::empty());
                lines.push(b);
            }
        },
        None => {},
    }
    lines.push(owned("</details>"));
    assert(lines.deep_view() =~= details_lines(d@));
    crate::text::join(&lines, "\n")
}

/// An issue body: the context, then, when there are descendants, a task
/// section with one block each.
pub open spec fn issue_body(context: Seq<char>, ds: Seq<DescendantV>) -> Seq<char> {
    if ds.len() == 0 {
        context
    } else {
        context + "\n\n## Tasks\n\n"@ + crate::text::joined_by(
            ds.map_values(|d: DescendantV| crate::text::joined_by(details_lines(d), "\n"@)),
            "\n\n"@,
        ) + "\n"@
    }
}

/// Writes an issue body.
pub fn render_issue_body(context: &str, descendants: &Vec<Descendant>) -> (r: String)
    ensures
        r@ == issue_body(context@, descendants@.map_values(|d: Descendant| d@)),
{
    if descendants.len() == 0 {
        assert(descendants@.map_values(|d: Descendant| d@).len() == 0);
        return owned(context);
    }
    let ghost dv = descendants@.map_values(|d: Descendant| d@);
    let mut blocks: Vec<String> = Vec::new();
    let mut i: usize = 0;
    while i < descendants.len()
        invariant
            i <= descendants.len(),
            dv == descendants@.map_values(|d: Descendant| d@),
            blocks.deep_view() == dv.take(i as int).map_values(
                |d: DescendantV| crate::text::joined_by(details_lines(d), "\n"@),
            ),
        decreases descendants.len() - i,
    {
        let b = details_block(&descendants[i]);
        assert(descendants@[i as int]@ == dv[i as int]);
        let ghost before = blocks.deep_view();
        let ghost bv = b@;
        blocks.push(b);
        assert(blocks.deep_view() =~= before.push(bv));
        assert(blocks.deep_view() =~= dv.take(i + 1).map_values(
            |d: DescendantV| crate::text::joined_by(details_lines(d), "\n"@),
        ));
        i = i + 1;
    }
    assert(dv.take(descendants.len() as int) =~= dv);
    let mut r = owned(context);
    crate::text::push_str(&mut r, "\n\n## Tasks\n\n");
    crate::text::push_str(&mut r, crate::text::join(&blocks, "\n\n").as_str());
    crate::text::push_str(&mut r, "\n");
    r
}

/// The body of a root issue: the root's metadata comments, then its
/// issue body.
pub open spec fn root_body(t: TaskV, ds: Seq<DescendantV>) -> Seq<char> {
    crate::text::joined_by(task_comments(t, "task"@, None), "\n"@) + "\n"@ + issue_body(t.description, ds)
}

/// Writes the body of a root issue.
pub fn render_root_body(task: &Task, descendants: &Vec<Descendant>) -> (r: String)
    ensures
        r@ == root_body(task@, descendants@.map_values(|d: Descendant| d@)),
{
    let meta = render_task_metadata_comments(task, "task", None);
    let mut r = crate::text::join(&meta, "\n");
    crate::text::push_str(&mut r, "\n");
    crate::text::push_str(&mut r, render_issue_body(task.description.as_str(), descendants).as_str());
    r
}

/// What the store remembers of syncing: when the last sync ran.
pub struct SyncState {
    pub last_sync: Option<String>,
}

/// The time of the last sync a state file's JSON records: its `lastSync`
/// member when that is a string.
pub open spec fn last_sync_of(j: JsonV) -> Option<Seq<char>> {
    match crate::json::json_get(j, "lastSync"@) {
        Some(JsonV::Str(s)) => Some(s),
        _ => None,
    }
}

/// The sync state a state file holds (`None` when there is no file): what
/// `lastSync` records, nothing when the file is not JSON.
pub fn read_sync_state(contents: Option<&str>) -> (r: SyncState)
    ensures
        opt_view(r.last_sync) == match contents {
            None => None,
            Some(t) => match crate::json::json_parse(t@) {
                Ok(j) => last_sync_of(j),
                Err(_) => None,
            },
        },
{
    let last_sync = match contents {
        None => None,
        Some(t) => match crate::json::parse_json(t) {
            Ok(j) => match j.get("lastSync") {
                Some(Json::Str(s)) => Some(owned(s.as_str())),
                _ => None,
            },
            Err(_) => None,
        },
    };
    SyncState { last_sync }
}

/// The text of a state file recording a sync at `last_sync`: the indented
/// JSON of `{"lastSync": last_sync}` and a line break.
pub fn sync_state_text(last_sync: &str) -> (r: String)
    ensures
        r@ == crate::json::pretty_text(JsonV::Object(seq!["lastSync"@], seq![JsonV::Str(last_sync@)])) + "\n"@,
{
    let j = crate::json::single_member("lastSync", Json::Str(owned(last_sync)));
    let mut r = crate::json::pretty(&j);
    crate::text::push_str(&mut r, "\n");
    r
}

/// Whole milliseconds from `then` to `now` in nanoseconds, rounded toward
/// zero (`Duration::whole_milliseconds`).
pub open spec fn whole_ms(now: int, then: int) -> int {
    let d = now - then;
    if d >= 0 {
        d / 1_000_000
    } else {
        -((-d) / 1_000_000)
    }
}

/// Whether a sync is due at `now`: `None` when the maximum age does not
/// read; due when no sync is recorded or its time does not read; else due
/// when more whole milliseconds than the maximum age have passed.
pub open spec fn stale_spec(max_age: Seq<char>, last: Option<Seq<char>>, now: int) -> Option<bool> {
    match duration_spec(max_age) {
        None => None,
        Some(ms) => Some(
            match last {
                None => true,
                Some(l) => match crate::clock::rfc3339_nanos(l) {
                    None => true,
                    Some(t) => whole_ms(now, t) > ms,
                },
            },
        ),
    }
}

/// Decides whether a sync is due at `now` (nanoseconds since the epoch).
pub fn sync_stale_at(max_age: &str, state: &SyncState, now: i128) -> (r: Option<bool>)
    requires
        max_age@.len() > 0 ==> (max_age@.last() as u32) < 128,
        duration_spec(max_age@) matches Some(ms) ==> i64::MIN <= ms <= i64::MAX,
        crate::clock::nanos_in_range(now as int),
    ensures
        r == stale_spec(max_age@, opt_view(state.last_sync), now as int),
{
    let ms = match parse_duration_ms(max_age) {
        Some(ms) => ms,
        None => return None,
    };
    let last = match &state.last_sync {
        Some(l) => l,
        None => return Some(true),
    };
    let t = match crate::clock::parse_rfc3339(last.as_str()) {
        Some(t) => t,
        None => return Some(true),
    };
    let d = now - t;
    let whole = if d >= 0 {
        d / 1_000_000
    } else {
        -((-d) / 1_000_000)
    };
    Some(whole > ms as i128)
}

/// Decides whether a sync is due now.
pub fn is_sync_stale(max_age: &str, state: &SyncState) -> (r: Option<bool>)
    requires
        max_age@.len() > 0 ==> (max_age@.last() as u32) < 128,
        duration_spec(max_age@) matches Some(ms) ==> i64::MIN <= ms <= i64::MAX,
    ensures
        exists|now: int| crate::clock::nanos_in_range(now) && r == stale_spec(max_age@, opt_view(state.last_sync), now),
{
    let now = crate::clock::now_nanos();
    sync_stale_at(max_age, state, now)
}

} // verus!
