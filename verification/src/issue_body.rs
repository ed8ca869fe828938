//! Reading an issue body back: the context above the task section, and one
//! subtask per `<details>` block, in the current format and in the older
//! one (`<summary>[x] ...</summary>`).
//!
//! The matching follows the patterns the format was written with: `(?i)`
//! parts match a letter in either case (and `s` also as `ſ`), `\s` is the
//! Unicode white space of `str::trim`, and `.` stops at a line break.
use vstd::prelude::*;

use crate::json::{lemma_view_parts, items_view, Json, JsonV};
use crate::sync::{metadata_spec, parse_metadata_comments, CommentMetadataV};
use crate::task::{Task, TaskV};
use crate::text::{chars_of, find_from, find_in, has_prefix, is_space, matches_at, occurs_at, owned, space, string_of, trim, trimmed};

verus! {

/// The header of the task section.
pub const TASKS_HEADER: &'static str = "## Tasks";

/// The header of the task section in an older format.
pub const SUBTASKS_HEADER: &'static str = "## Subtasks";

/// The tree header of the oldest format.
pub const LEGACY_TREE_HEADER: &'static str = "## Task Tree";

/// The details header of the oldest format.
pub const LEGACY_DETAILS_HEADER: &'static str = "## Task Details";

/// A character matched case-insensitively against `l`: a lower-case ASCII
/// letter also matches its capital, and `s` also matches `ſ`.
pub open spec fn ci_char(c: char, l: char) -> bool {
    c == l || ('a' <= l && l <= 'z' && (c as u32) + 32 == (l as u32)) || (l == 's' && c == '\u{17f}')
}

/// `lit` occurs at `i` in `t`, letters in either case.
pub open spec fn ci_at(t: Seq<char>, lit: Seq<char>, i: int) -> bool {
    0 <= i && i + lit.len() <= t.len() && forall|k: int|
        0 <= k < lit.len() ==> ci_char(#[trigger] t.subrange(i, i + lit.len())[k], lit[k])
}

/// The end of the run of white space that starts at `i`.
pub open spec fn ws_end(t: Seq<char>, i: int) -> int
    decreases t.len() - i,
{
    if i < 0 || i >= t.len() || !is_space(t[i]) {
        i
    } else {
        ws_end(t, i + 1)
    }
}

/// After the bold name ending at `e`: `</b>`, white space, `</summary>`.
pub open spec fn summary_tail(t: Seq<char>, e: int) -> bool {
    ci_at(t, "</b>"@, e) && ci_at(t, "</summary>"@, ws_end(t, e + "</b>"@.len()))
}

/// The shortest end `e` (at least `e`, past `a`) of a bold name starting at
/// `a`: no line break in it, and the summary's tail right after it.
pub open spec fn bold_end(t: Seq<char>, a: int, e: int) -> Option<int>
    decreases t.len() + 1 - e,
{
    if e < a + 1 || e > t.len() || t[e - 1] == '\n' {
        None
    } else if summary_tail(t, e) {
        Some(e)
    } else {
        bold_end(t, a, e + 1)
    }
}

/// A current-format summary starting at `s`:
/// `<summary>` white space, an optional `✅` and white space, an optional
/// `└─` and white space, then `<b>name</b>`, white space, `</summary>`.
/// Gives where the name starts and ends, and whether the `✅` is there.
pub open spec fn summary_at(t: Seq<char>, s: int) -> Option<(int, int, bool)> {
    if !ci_at(t, "<summary>"@, s) {
        None
    } else {
        let p0 = ws_end(t, s + "<summary>"@.len());
        let hint = 0 <= p0 < t.len() && t[p0] == '\u{2705}';
        let p1 = if hint {
            ws_end(t, p0 + 1)
        } else {
            p0
        };
        let p2 = if occurs_at(t, seq!['\u{2514}', '\u{2500}'], p1) {
            ws_end(t, p1 + 2)
        } else {
            p1
        };
        if !ci_at(t, "<b>"@, p2) {
            None
        } else {
            match bold_end(t, p2 + "<b>"@.len(), p2 + "<b>"@.len() + 1) {
                Some(e) => Some((p2 + "<b>"@.len(), e, hint)),
                None => None,
            }
        }
    }
}

/// The first current-format summary at or after `s`.
pub open spec fn first_summary(t: Seq<char>, s: int) -> Option<(int, int, bool)>
    decreases t.len() + 1 - s,
{
    if s < 0 || s > t.len() {
        None
    } else {
        match summary_at(t, s) {
            Some(m) => Some(m),
            None => first_summary(t, s + 1),
        }
    }
}

/// The shortest end (at least `e`) of a plain name starting at `a`: no line
/// break in it, then white space and `</summary>`.
pub open spec fn plain_end(t: Seq<char>, a: int, e: int) -> Option<int>
    decreases t.len() + 1 - e,
{
    if e < a || e > t.len() {
        None
    } else if ci_at(t, "</summary>"@, ws_end(t, e)) {
        Some(e)
    } else if e < t.len() && t[e] != '\n' {
        plain_end(t, a, e + 1)
    } else {
        None
    }
}

/// An older-format summary starting at `s`: `<summary>` white space, `[ ]`
/// or `[x]` (either case), white space, a name, white space, `</summary>`.
/// Gives where the name starts and ends, and whether the box is ticked.
pub open spec fn legacy_at(t: Seq<char>, s: int) -> Option<(int, int, bool)> {
    if !ci_at(t, "<summary>"@, s) {
        None
    } else {
        let p0 = ws_end(t, s + "<summary>"@.len());
        if !(0 <= p0 && p0 + 3 <= t.len() && t[p0] == '[' && (t[p0 + 1] == ' ' || t[p0 + 1] == 'x' || t[p0 + 1] == 'X')
            && t[p0 + 2] == ']') {
            None
        } else {
            let a = ws_end(t, p0 + 3);
            match plain_end(t, a, a) {
                Some(e) => Some((a, e, t[p0 + 1] != ' ')),
                None => None,
            }
        }
    }
}

/// The first older-format summary at or after `s`.
pub open spec fn first_legacy(t: Seq<char>, s: int) -> Option<(int, int, bool)>
    decreases t.len() + 1 - s,
{
    if s < 0 || s > t.len() {
        None
    } else {
        match legacy_at(t, s) {
            Some(m) => Some(m),
            None => first_legacy(t, s + 1),
        }
    }
}

/// The end of the run of `↳` that starts at `i`.
pub open spec fn arrows_end(s: Seq<char>, i: int) -> int
    decreases s.len() - i,
{
    if 0 <= i < s.len() && s[i] == '\u{21b3}' {
        arrows_end(s, i + 1)
    } else {
        i
    }
}

/// The text without its leading `↳` marks and the white space after them.
pub open spec fn drop_arrows(s: Seq<char>) -> Seq<char> {
    if s.len() > 0 && s[0] == '\u{21b3}' {
        s.skip(ws_end(s, arrows_end(s, 0)))
    } else {
        s
    }
}

/// The text without any `<b>` or `</b>`.
pub open spec fn strip_bold(s: Seq<char>) -> Seq<char>
    decreases s.len(),
{
    if s.len() == 0 {
        s
    } else if s.len() >= 3 && has_prefix(s, "<b>"@) {
        strip_bold(s.skip(3))
    } else if s.len() >= 4 && has_prefix(s, "</b>"@) {
        strip_bold(s.skip(4))
    } else {
        seq![s[0]] + strip_bold(s.skip(1))
    }
}

/// Where the `<code>` element that starts the text ends: after the first
/// `</code>`, with no line break before it.
pub open spec fn code_end(s: Seq<char>) -> Option<int> {
    if !has_prefix(s, "<code>"@) {
        None
    } else {
        let k = find_from(s, "</code>"@, "<code>"@.len() as int);
        if k == -1 || s.subrange("<code>"@.len() as int, k).contains('\n') {
            None
        } else {
            Some(k + "</code>"@.len())
        }
    }
}

/// The text without its `<code>...</code>` elements.
pub open spec fn strip_code(s: Seq<char>) -> Seq<char>
    decreases s.len(),
{
    if s.len() == 0 {
        s
    } else {
        match code_end(s) {
            Some(k) => if 0 < k <= s.len() {
                strip_code(s.skip(k))
            } else {
                s
            },
            None => seq![s[0]] + strip_code(s.skip(1)),
        }
    }
}

/// An older-format name cleaned: trimmed, without leading `↳` marks, bold
/// tags or code elements, trimmed again.
pub open spec fn clean_legacy(raw: Seq<char>) -> Seq<char> {
    trimmed(strip_code(strip_bold(drop_arrows(trimmed(raw)))))
}

/// The last line break in `t[q..w]`, or -1.
pub open spec fn last_newline(t: Seq<char>, q: int, w: int) -> int
    decreases w - q,
{
    if w <= q || w > t.len() || q < 0 {
        -1
    } else if t[w - 1] == '\n' {
        w - 1
    } else {
        last_newline(t, q, w - 1)
    }
}

/// A section heading `head` at `i`, followed by white space holding a line
/// break: where its text starts (after the last such line break).
pub open spec fn section_at(t: Seq<char>, head: Seq<char>, i: int) -> Option<int> {
    if !occurs_at(t, head, i) {
        None
    } else {
        let q = i + head.len();
        let n = last_newline(t, q, ws_end(t, q));
        if n == -1 {
            None
        } else {
            Some(n + 1)
        }
    }
}

/// The first section with one of the two headings, at or after `i`.
pub open spec fn first_section(t: Seq<char>, h1: Seq<char>, h2: Seq<char>, i: int) -> Option<int>
    decreases t.len() + 1 - i,
{
    if i < 0 || i > t.len() {
        None
    } else {
        match section_at(t, h1, i) {
            Some(c) => Some(c),
            None => match section_at(t, h2, i) {
                Some(c) => Some(c),
                None => first_section(t, h1, h2, i + 1),
            },
        }
    }
}

/// Where a section's text ends: at the next `###`, else at the end.
pub open spec fn section_end(t: Seq<char>, c: int) -> int {
    let f = find_from(t, "###"@, c);
    if f == -1 {
        t.len() as int
    } else {
        f
    }
}

/// The text of the first section with one of the headings, trimmed.
pub open spec fn section_spec(t: Seq<char>, h1: Seq<char>, h2: Seq<char>) -> Option<Seq<char>> {
    match first_section(t, h1, h2, 0) {
        Some(c) => Some(trimmed(t.subrange(c, section_end(t, c)))),
        None => None,
    }
}

pub(crate) fn ci_char_exec(c: char, l: char) -> (r: bool)
    ensures
        r == ci_char(c, l),
{
    c == l || ('a' <= l && l <= 'z' && (c as u32) + 32 == (l as u32)) || (l == 's' && c == '\u{17f}')
}

pub(crate) fn ci_at_exec(x: &[char], lit: &[char], i: usize) -> (r: bool)
    ensures
        r == ci_at(x@, lit@, i as int),
{
    if i > x.len() || lit.len() > x.len() - i {
        return false;
    }
    let ghost w = x@.subrange(i as int, i + lit.len());
    let mut k: usize = 0;
    while k < lit.len()
        invariant
            k <= lit.len(),
            i + lit.len() <= x.len(),
            w == x@.subrange(i as int, i + lit.len()),
            forall|j: int| 0 <= j < k ==> ci_char(#[trigger] w[j], lit@[j]),
        decreases lit.len() - k,
    {
        assert(w[k as int] == x@[i + k]);
        if !ci_char_exec(x[i + k], lit[k]) {
            return false;
        }
        k = k + 1;
    }
    true
}

fn ws_end_exec(x: &[char], i: usize) -> (r: usize)
    requires
        i <= x.len(),
    ensures
        r as int == ws_end(x@, i as int),
        i <= r <= x.len(),
{
    let mut j = i;
    while j < x.len() && space(x[j])
        invariant
            i <= j <= x.len(),
            ws_end(x@, i as int) == ws_end(x@, j as int),
        decreases x.len() - j,
    {
        j = j + 1;
    }
    j
}

fn summary_tail_exec(x: &[char], e: usize) -> (r: bool)
    requires
        e <= x.len(),
    ensures
        r == summary_tail(x@, e as int),
{
    let cb = chars_of("</b>");
    if !ci_at_exec(x, cb.as_slice(), e) {
        return false;
    }
    let cs = chars_of("</summary>");
    let w = ws_end_exec(x, e + cb.len());
    ci_at_exec(x, cs.as_slice(), w)
}

fn bold_end_exec(x: &[char], a: usize) -> (r: Option<usize>)
    requires
        a <= x.len(),
    ensures
        match r {
            Some(e) => bold_end(x@, a as int, a + 1) == Some(e as int) && a < e <= x.len(),
            None => bold_end(x@, a as int, a + 1) is None,
        },
{
    if a >= x.len() {
        return None;
    }
    let mut e = a + 1;
    loop
        invariant
            a + 1 <= e <= x.len(),
            bold_end(x@, a as int, a + 1) == bold_end(x@, a as int, e as int),
        decreases x.len() - e,
    {
        if x[e - 1] == '\n' {
            return None;
        }
        if summary_tail_exec(x, e) {
            return Some(e);
        }
        if e == x.len() {
            assert(bold_end(x@, a as int, e + 1) is None);
            return None;
        }
        e = e + 1;
    }
}

fn summary_at_exec(x: &[char], s: usize) -> (r: Option<(usize, usize, bool)>)
    requires
        s <= x.len(),
    ensures
        match r {
            Some((a, e, h)) => summary_at(x@, s as int) == Some((a as int, e as int, h)) && a < e <= x.len(),
            None => summary_at(x@, s as int) is None,
        },
{
    let open = chars_of("<summary>");
    if !ci_at_exec(x, open.as_slice(), s) {
        return None;
    }
    let p0 = ws_end_exec(x, s + open.len());
    let hint = p0 < x.len() && x[p0] == '\u{2705}';
    let p1 = if hint {
        ws_end_exec(x, p0 + 1)
    } else {
        p0
    };
    let tree = p1 < x.len() && x.len() - p1 >= 2 && x[p1] == '\u{2514}' && x[p1 + 1] == '\u{2500}';
    proof {
        let pat = seq!['\u{2514}', '\u{2500}'];
        if tree {
            assert(x@.subrange(p1 as int, p1 + 2) =~= pat);
        } else if p1 + 2 <= x.len() {
            if x@[p1 as int] != pat[0] {
                assert(x@.subrange(p1 as int, p1 + 2)[0] != pat[0]);
            } else {
                assert(x@.subrange(p1 as int, p1 + 2)[1] != pat[1]);
            }
        }
        assert(tree == occurs_at(x@, pat, p1 as int));
    }
    let p2 = if tree {
        ws_end_exec(x, p1 + 2)
    } else {
        p1
    };
    let b = chars_of("<b>");
    if !ci_at_exec(x, b.as_slice(), p2) {
        return None;
    }
    let a = p2 + b.len();
    match bold_end_exec(x, a) {
        Some(e) => Some((a, e, hint)),
        None => None,
    }
}

fn first_summary_exec(x: &[char]) -> (r: Option<(usize, usize, bool)>)
    ensures
        match r {
            Some((a, e, h)) => first_summary(x@, 0) == Some((a as int, e as int, h)) && a < e <= x.len(),
            None => first_summary(x@, 0) is None,
        },
{
    let mut s: usize = 0;
    loop
        invariant
            s <= x.len(),
            first_summary(x@, 0) == first_summary(x@, s as int),
        decreases x.len() - s,
    {
        let m = summary_at_exec(x, s);
        if m.is_some() {
            return m;
        }
        if s == x.len() {
            assert(first_summary(x@, s + 1) is None);
            return None;
        }
        s = s + 1;
    }
}

fn plain_end_exec(x: &[char], a: usize) -> (r: Option<usize>)
    requires
        a <= x.len(),
    ensures
        match r {
            Some(e) => plain_end(x@, a as int, a as int) == Some(e as int) && a <= e <= x.len(),
            None => plain_end(x@, a as int, a as int) is None,
        },
{
    let close = chars_of("</summary>");
    let mut e = a;
    loop
        invariant
            a <= e <= x.len(),
            close@ == "</summary>"@,
            plain_end(x@, a as int, a as int) == plain_end(x@, a as int, e as int),
        decreases x.len() - e,
    {
        let w = ws_end_exec(x, e);
        if ci_at_exec(x, close.as_slice(), w) {
            return Some(e);
        }
        if e < x.len() && x[e] != '\n' {
            e = e + 1;
        } else {
            return None;
        }
    }
}

fn legacy_at_exec(x: &[char], s: usize) -> (r: Option<(usize, usize, bool)>)
    requires
        s <= x.len(),
    ensures
        match r {
            Some((a, e, h)) => legacy_at(x@, s as int) == Some((a as int, e as int, h)) && a <= e <= x.len(),
            None => legacy_at(x@, s as int) is None,
        },
{
    let open = chars_of("<summary>");
    if !ci_at_exec(x, open.as_slice(), s) {
        return None;
    }
    let p0 = ws_end_exec(x, s + open.len());
    if !(p0 < x.len() && x.len() - p0 >= 3 && x[p0] == '[' && (x[p0 + 1] == ' ' || x[p0 + 1] == 'x' || x[p0 + 1] == 'X') && x[p0 + 2]
        == ']') {
        return None;
    }
    let a = ws_end_exec(x, p0 + 3);
    match plain_end_exec(x, a) {
        Some(e) => Some((a, e, x[p0 + 1] != ' ')),
        None => None,
    }
}

fn first_legacy_exec(x: &[char]) -> (r: Option<(usize, usize, bool)>)
    ensures
        match r {
            Some((a, e, h)) => first_legacy(x@, 0) == Some((a as int, e as int, h)) && a <= e <= x.len(),
            None => first_legacy(x@, 0) is None,
        },
{
    let mut s: usize = 0;
    loop
        invariant
            s <= x.len(),
            first_legacy(x@, 0) == first_legacy(x@, s as int),
        decreases x.len() - s,
    {
        let m = legacy_at_exec(x, s);
        if m.is_some() {
            return m;
        }
        if s == x.len() {
            assert(first_legacy(x@, s + 1) is None);
            return None;
        }
        s = s + 1;
    }
}

fn tail(v: &[char], k: usize) -> (r: Vec<char>)
    requires
        k <= v.len(),
    ensures
        r@ == v@.skip(k as int),
{
    let mut r: Vec<char> = Vec::new();
    let mut i = k;
    while i < v.len()
        invariant
            k <= i <= v.len(),
            r@ == v@.subrange(k as int, i as int),
        decreases v.len() - i,
    {
        r.push(v[i]);
        assert(r@ =~= v@.subrange(k as int, i + 1));
        i = i + 1;
    }
    assert(r@ =~= v@.skip(k as int));
    r
}

fn drop_arrows_exec(v: &[char]) -> (r: Vec<char>)
    ensures
        r@ == drop_arrows(v@),
{
    if v.len() > 0 && v[0] == '\u{21b3}' {
        let mut k: usize = 0;
        while k < v.len() && v[k] == '\u{21b3}'
            invariant
                k <= v.len(),
                arrows_end(v@, 0) == arrows_end(v@, k as int),
            decreases v.len() - k,
        {
            k = k + 1;
        }
        let w = ws_end_exec(v, k);
        tail(v, w)
    } else {
        let r = tail(v, 0);
        assert(v@.skip(0) =~= v@);
        r
    }
}

proof fn lemma_prefix_at(v: Seq<char>, p: Seq<char>, i: int)
    requires
        0 <= i <= v.len(),
    ensures
        occurs_at(v, p, i) == has_prefix(v.skip(i), p),
{
    if i + p.len() <= v.len() {
        assert(v.skip(i).take(p.len() as int) =~= v.subrange(i, i + p.len()));
    }
}

fn strip_bold_exec(v: &[char]) -> (r: Vec<char>)
    ensures
        r@ == strip_bold(v@),
{
    let b = chars_of("<b>");
    let cb = chars_of("</b>");
    proof {
        reveal_strlit("<b>");
        reveal_strlit("</b>");
    }
    let mut out: Vec<char> = Vec::new();
    let mut i: usize = 0;
    assert(v@.skip(0) =~= v@);
    while i < v.len()
        invariant
            i <= v.len(),
            b@ == "<b>"@,
            cb@ == "</b>"@,
            b@.len() == 3,
            cb@.len() == 4,
            strip_bold(v@) == out@ + strip_bold(v@.skip(i as int)),
        decreases v.len() - i,
    {
        let ghost rest = v@.skip(i as int);
        proof {
            lemma_prefix_at(v@, b@, i as int);
            lemma_prefix_at(v@, cb@, i as int);
        }
        if matches_at(v, b.as_slice(), i) {
            assert(rest.skip(3) =~= v@.skip(i + 3));
            i = i + 3;
        } else if matches_at(v, cb.as_slice(), i) {
            assert(rest.skip(4) =~= v@.skip(i + 4));
            i = i + 4;
        } else {
            let ghost before = out@;
            out.push(v[i]);
            assert(rest.skip(1) =~= v@.skip(i + 1));
            assert(rest[0] == v@[i as int]);
            assert(before + (seq![rest[0]] + strip_bold(rest.skip(1))) =~= out@ + strip_bold(v@.skip(i + 1)));
            i = i + 1;
        }
    }
    assert(v@.skip(i as int) =~= Seq::<char>::empty());
    assert(out@ + Seq::<char>::empty() =~= out@);
    out
}

fn code_end_exec(s: &[char]) -> (r: Option<usize>)
    ensures
        match r {
            Some(k) => code_end(s@) == Some(k as int) && 0 < k <= s.len(),
            None => code_end(s@) is None,
        },
{
    let code = chars_of("<code>");
    let endc = chars_of("</code>");
    proof {
        reveal_strlit("<code>");
        reveal_strlit("</code>");
        lemma_prefix_at(s@, code@, 0);
        assert(s@.skip(0) =~= s@);
    }
    if !matches_at(s, code.as_slice(), 0) {
        return None;
    }
    let k = match find_in(s, endc.as_slice(), 6) {
        Some(k) => k,
        None => return None,
    };
    proof {
        crate::text::lemma_find_from(s@, endc@, 6);
    }
    let mut j: usize = 6;
    while j < k
        invariant
            6 <= j <= k,
            k + 7 <= s.len(),
            "<code>"@.len() == 6,
            endc@ == "</code>"@,
            has_prefix(s@, "<code>"@),
            find_from(s@, endc@, 6) == k as int,
            forall|q: int| 6 <= q < j ==> s@[q] != '\n',
        decreases k - j,
    {
        if s[j] == '\n' {
            assert(s@.subrange(6, k as int)[j - 6] == '\n');
            return None;
        }
        j = j + 1;
    }
    proof {
        if s@.subrange(6, k as int).contains('\n') {
            let q = choose|q: int| 0 <= q < s@.subrange(6, k as int).len() && s@.subrange(6, k as int)[q] == '\n';
            assert(s@[q + 6] == '\n');
        }
    }
    Some(k + 7)
}

fn strip_code_exec(v: &[char]) -> (r: Vec<char>)
    ensures
        r@ == strip_code(v@),
{
    let mut out: Vec<char> = Vec::new();
    let mut rest = tail(v, 0);
    assert(v@.skip(0) =~= v@);
    while rest.len() > 0
        invariant
            strip_code(v@) == out@ + strip_code(rest@),
        decreases rest.len(),
    {
        match code_end_exec(rest.as_slice()) {
            Some(k) => {
                rest = tail(rest.as_slice(), k);
            },
            None => {
                let ghost before = out@;
                let ghost old_rest = rest@;
                out.push(rest[0]);
                rest = tail(rest.as_slice(), 1);
                assert(before + (seq![old_rest[0]] + strip_code(old_rest.skip(1))) =~= out@ + strip_code(rest@));
            },
        }
    }
    assert(out@ + strip_code(rest@) =~= out@);
    out
}

/// Cleans an older-format name.
fn clean_legacy_exec(raw: &[char]) -> (r: String)
    ensures
        r@ == clean_legacy(raw@),
{
    let t = trim(string_of(raw).as_str());
    let tv = chars_of(t.as_str());
    let a = drop_arrows_exec(tv.as_slice());
    let b = strip_bold_exec(a.as_slice());
    let c = strip_code_exec(b.as_slice());
    trim(string_of(c.as_slice()).as_str())
}

fn last_newline_exec(x: &[char], q: usize, w: usize) -> (r: Option<usize>)
    requires
        q <= w <= x.len(),
    ensures
        match r {
            Some(n) => last_newline(x@, q as int, w as int) == n as int && q <= n < w,
            None => last_newline(x@, q as int, w as int) == -1,
        },
{
    let mut j = w;
    while j > q
        invariant
            q <= j <= w,
            w <= x.len(),
            last_newline(x@, q as int, w as int) == last_newline(x@, q as int, j as int),
        decreases j,
    {
        if x[j - 1] == '\n' {
            return Some(j - 1);
        }
        j = j - 1;
    }
    None
}

fn section_at_exec(x: &[char], head: &[char], i: usize) -> (r: Option<usize>)
    requires
        i <= x.len(),
    ensures
        match r {
            Some(c) => section_at(x@, head@, i as int) == Some(c as int) && c <= x.len(),
            None => section_at(x@, head@, i as int) is None,
        },
{
    if !matches_at(x, head, i) {
        return None;
    }
    let q = i + head.len();
    let w = ws_end_exec(x, q);
    match last_newline_exec(x, q, w) {
        Some(n) => Some(n + 1),
        None => None,
    }
}

fn first_section_exec(x: &[char], h1: &[char], h2: &[char]) -> (r: Option<usize>)
    ensures
        match r {
            Some(c) => first_section(x@, h1@, h2@, 0) == Some(c as int) && c <= x.len(),
            None => first_section(x@, h1@, h2@, 0) is None,
        },
{
    let mut i: usize = 0;
    loop
        invariant
            i <= x.len(),
            first_section(x@, h1@, h2@, 0) == first_section(x@, h1@, h2@, i as int),
        decreases x.len() - i,
    {
        let a = section_at_exec(x, h1, i);
        if a.is_some() {
            return a;
        }
        let b = section_at_exec(x, h2, i);
        if b.is_some() {
            return b;
        }
        if i == x.len() {
            assert(first_section(x@, h1@, h2@, i + 1) is None);
            return None;
        }
        i = i + 1;
    }
}

fn section_exec(x: &[char], h1: &str, h2: &str) -> (r: Option<String>)
    ensures
        crate::task::opt_view(r) == section_spec(x@, h1@, h2@),
{
    let a = chars_of(h1);
    let b = chars_of(h2);
    let c = match first_section_exec(x, a.as_slice(), b.as_slice()) {
        Some(c) => c,
        None => return None,
    };
    let marks = chars_of("###");
    let end = match find_in(x, marks.as_slice(), c) {
        Some(f) => f,
        None => x.len(),
    };
    proof {
        crate::text::lemma_find_from(x@, marks@, c as int);
    }
    Some(trim(string_of(&x[c..end]).as_str()))
}

/// A subtask read from a `<details>` block, and the parent it names.
pub struct ParsedSubtask {
    pub task: Task,
    pub parent_id: Option<String>,
}

/// The value of a `ParsedSubtask`.
pub struct ParsedSubtaskV {
    pub task: TaskV,
    pub parent_id: Option<Seq<char>>,
}

impl View for ParsedSubtask {
    type V = ParsedSubtaskV;

    open spec fn view(&self) -> ParsedSubtaskV {
        ParsedSubtaskV { task: self.task@, parent_id: crate::task::opt_view(self.parent_id) }
    }
}

/// An issue body read back: its context and its subtasks.
pub struct ParsedBody {
    pub description: String,
    pub subtasks: Vec<ParsedSubtask>,
}

/// The value of a `ParsedBody`.
pub struct ParsedBodyV {
    pub description: Seq<char>,
    pub subtasks: Seq<ParsedSubtaskV>,
}

impl View for ParsedBody {
    type V = ParsedBodyV;

    open spec fn view(&self) -> ParsedBodyV {
        ParsedBodyV { description: self.description@, subtasks: self.subtasks@.map_values(|p: ParsedSubtask| p@) }
    }
}

/// The name in a block's summary and whether it is marked completed: the
/// current format first, else the older one.
pub open spec fn summary_spec(c: Seq<char>) -> Option<(Seq<char>, bool)> {
    match first_summary(c, 0) {
        Some((a, e, h)) => Some((trimmed(c.subrange(a, e)), h)),
        None => match first_legacy(c, 0) {
            Some((a, e, h)) => Some((clean_legacy(c.subrange(a, e)), h)),
            None => None,
        },
    }
}

/// The text of an optional string, or the empty text.
pub open spec fn text_or_empty(o: Option<Seq<char>>) -> Seq<char> {
    match o {
        Some(t) => t,
        None => Seq::empty(),
    }
}

/// The inner value of a set optional value, or none.
pub open spec fn flat(o: Option<Option<Seq<char>>>) -> Option<Seq<char>> {
    match o {
        Some(Some(t)) => Some(t),
        _ => None,
    }
}

/// A subtask read from the contents of a `<details>` block: it needs a
/// summary and metadata comments with an id. Its description is the text of
/// its `### Description` (or `### Context`) section, its result that of its
/// `### Result` section; the metadata gives the rest, with priority 1, the
/// summary's mark, and `now` for missing values.
pub open spec fn details_spec(c: Seq<char>, now: Seq<char>) -> Option<ParsedSubtaskV> {
    match summary_spec(c) {
        None => None,
        Some((name, hint)) => match metadata_spec(c, "subtask"@) {
            None => None,
            Some(m) => match m.id {
                None => None,
                Some(id) => Some(
                    ParsedSubtaskV {
                        task: TaskV {
                            id,
                            parent_id: None,
                            name,
                            description: text_or_empty(section_spec(c, "### Description"@, "### Context"@)),
                            priority: match m.priority {
                                Some(p) => p,
                                None => 1,
                            },
                            completed: match m.completed {
                                Some(b) => b,
                                None => hint,
                            },
                            result: section_spec(c, "### Result"@, "### Result"@),
                            metadata: match m.commit {
                                Some(cm) => Some(JsonV::Object(seq!["commit"@], seq![cm])),
                                None => None,
                            },
                            created_at: Some(
                                match m.created_at {
                                    Some(x) => x,
                                    None => now,
                                },
                            ),
                            updated_at: Some(
                                match m.updated_at {
                                    Some(x) => x,
                                    None => now,
                                },
                            ),
                            started_at: flat(m.started_at),
                            completed_at: flat(m.completed_at),
                            blocked_by: match m.blocked_by {
                                Some(v) => v,
                                None => Seq::empty(),
                            },
                            blocks: match m.blocks {
                                Some(v) => v,
                                None => Seq::empty(),
                            },
                            children: Seq::empty(),
                        },
                        parent_id: m.parent_id,
                    },
                ),
            },
        },
    }
}

fn opt_text(o: &Option<String>) -> (r: Option<String>)
    ensures
        crate::task::opt_view(r) == crate::task::opt_view(*o),
{
    match o {
        Some(t) => Some(t.clone()),
        None => None,
    }
}

fn flat_exec(o: &Option<Option<String>>) -> (r: Option<String>)
    ensures
        crate::task::opt_view(r) == flat(crate::sync::opt2_view(*o)),
{
    match o {
        Some(Some(t)) => Some(t.clone()),
        _ => None,
    }
}

fn list_or_empty(o: &Option<Vec<String>>) -> (r: Vec<String>)
    ensures
        r.deep_view() == match crate::sync::opt_list_view(*o) {
            Some(v) => v,
            None => Seq::<Seq<char>>::empty(),
        },
{
    match o {
        Some(v) => crate::text::copy_strings(v),
        None => {
            let r: Vec<String> = Vec::new();
            assert(r.deep_view() =~= Seq::<Seq<char>>::empty());
            r
        },
    }
}

fn details_exec(c: &[char], now: &str) -> (r: Option<ParsedSubtask>)
    ensures
        match r {
            Some(p) => details_spec(c@, now@) == Some(p@),
            None => details_spec(c@, now@) is None,
        },
{
    let (name, hint) = match first_summary_exec(c) {
        Some((a, e, h)) => (trim(string_of(&c[a..e]).as_str()), h),
        None => match first_legacy_exec(c) {
            Some((a, e, h)) => (clean_legacy_exec(&c[a..e]), h),
            None => return None,
        },
    };
    let text = string_of(c);
    let m = match parse_metadata_comments(text.as_str(), "subtask") {
        Some(m) => m,
        None => return None,
    };
    let id = match &m.id {
        Some(id) => id.clone(),
        None => return None,
    };
    let description = match section_exec(c, "### Description", "### Context") {
        Some(d) => d,
        None => String::new(),
    };
    let metadata = match &m.commit {
        Some(cm) => Some(crate::json::single_member("commit", cm.deep_copy())),
        None => None,
    };
    let created_at = match &m.created_at {
        Some(x) => x.clone(),
        None => owned(now),
    };
    let updated_at = match &m.updated_at {
        Some(x) => x.clone(),
        None => owned(now),
    };
    let task = Task {
        id,
        parent_id: None,
        name,
        description,
        priority: match m.priority {
            Some(p) => p,
            None => 1,
        },
        completed: match m.completed {
            Some(b) => b,
            None => hint,
        },
        result: section_exec(c, "### Result", "### Result"),
        metadata,
        created_at: Some(created_at),
        updated_at: Some(updated_at),
        started_at: flat_exec(&m.started_at),
        completed_at: flat_exec(&m.completed_at),
        blocked_by: list_or_empty(&m.blocked_by),
        blocks: list_or_empty(&m.blocks),
        children: Vec::new(),
    };
    let r = ParsedSubtask { task, parent_id: opt_text(&m.parent_id) };
    proof {
        assert(r.task.children.deep_view() =~= Seq::<Seq<char>>::empty());
        assert(r.task.description@ == text_or_empty(section_spec(c@, "### Description"@, "### Context"@)));
    }
    Some(r)
}

/// The `(start, end)` of the contents of each `<details>...</details>`
/// element from `p` on: each opening tag with the first closing tag after
/// it, scanning on after that closing tag.
pub open spec fn blocks_from(t: Seq<char>, p: int) -> Seq<(int, int)>
    decreases t.len() + 1 - p,
{
    if p < 0 || p > t.len() {
        Seq::empty()
    } else {
        let a = find_from(t, "<details>"@, p);
        if a == -1 {
            Seq::empty()
        } else {
            let b = find_from(t, "</details>"@, a + 9);
            if b == -1 {
                Seq::empty()
            } else {
                proof {
                    reveal_strlit("</details>");
                    crate::text::lemma_find_from(t, "<details>"@, p);
                    crate::text::lemma_find_from(t, "</details>"@, a + 9);
                }
                seq![(a + 9, b)] + blocks_from(t, b + 10)
            }
        }
    }
}

/// The subtasks read from the blocks, in order, skipping blocks that do not
/// read.
pub open spec fn parsed_blocks(t: Seq<char>, bs: Seq<(int, int)>, now: Seq<char>) -> Seq<ParsedSubtaskV>
    decreases bs.len(),
{
    if bs.len() == 0 {
        Seq::empty()
    } else {
        let rest = parsed_blocks(t, bs.drop_last(), now);
        match details_spec(t.subrange(bs.last().0, bs.last().1), now) {
            Some(s) => rest.push(s),
            None => rest,
        }
    }
}

/// Keeps the earlier of a found header and the one so far (the first on a
/// tie); -1 means not found.
pub open spec fn earlier(cur: Option<(int, int)>, f: int, h: int) -> Option<(int, int)> {
    if f == -1 {
        cur
    } else {
        match cur {
            None => Some((f, h)),
            Some((g, k)) => if f < g {
                Some((f, h))
            } else {
                cur
            },
        }
    }
}

/// The first task-section header in the body and which it is: 0 `## Tasks`,
/// 1 `## Subtasks`, 2 `## Task Tree`, 3 `## Task Details`.
pub open spec fn first_header(body: Seq<char>) -> Option<(int, int)> {
    let c0 = earlier(None, find_from(body, "## Tasks"@, 0), 0);
    let c1 = earlier(c0, find_from(body, "## Subtasks"@, 0), 1);
    let c2 = earlier(c1, find_from(body, "## Task Tree"@, 0), 2);
    earlier(c2, find_from(body, "## Task Details"@, 0), 3)
}

/// The length of a header by its number.
pub open spec fn header_len(h: int) -> int {
    if h == 0 {
        "## Tasks"@.len() as int
    } else if h == 1 {
        "## Subtasks"@.len() as int
    } else if h == 2 {
        "## Task Tree"@.len() as int
    } else {
        "## Task Details"@.len() as int
    }
}

/// An issue body read back. Without a task-section header it is all
/// context. Otherwise the context is the text before the first header,
/// trimmed, and the subtasks come from the `<details>` blocks after the
/// header (after `## Task Details` in the oldest format, none when that is
/// missing). `now` stands for timestamps the blocks lack.
pub open spec fn body_spec(body: Seq<char>, now: Seq<char>) -> ParsedBodyV {
    match first_header(body) {
        None => ParsedBodyV { description: trimmed(body), subtasks: Seq::empty() },
        Some((index, h)) => {
            let description = trimmed(body.take(index));
            let start: Option<int> = if h <= 1 {
                Some(index + header_len(h))
            } else {
                let d = find_from(body, "## Task Details"@, 0);
                if d == -1 {
                    None
                } else {
                    Some(d + "## Task Details"@.len())
                }
            };
            match start {
                None => ParsedBodyV { description, subtasks: Seq::empty() },
                Some(s) => {
                    let t = body.skip(s);
                    ParsedBodyV { description, subtasks: parsed_blocks(t, blocks_from(t, 0), now) }
                },
            }
        },
    }
}

fn find_header(x: &[char], h: &str) -> (r: Option<usize>)
    ensures
        match r {
            Some(k) => find_from(x@, h@, 0) == k as int && k + h@.len() <= x.len(),
            None => find_from(x@, h@, 0) == -1,
        },
{
    let v = chars_of(h);
    let r = find_in(x, v.as_slice(), 0);
    proof {
        crate::text::lemma_find_from(x@, v@, 0);
    }
    r
}

fn earlier_exec(cur: Option<(usize, usize)>, f: Option<usize>, h: usize) -> (r: Option<(usize, usize)>)
    ensures
        match r {
            Some((a, b)) => earlier(
                match cur {
                    Some((g, k)) => Some((g as int, k as int)),
                    None => None,
                },
                match f {
                    Some(x) => x as int,
                    None => -1,
                },
                h as int,
            ) == Some((a as int, b as int)) && ((b == h && f == Some(a)) || cur == Some((a, b))),
            None => earlier(
                match cur {
                    Some((g, k)) => Some((g as int, k as int)),
                    None => None,
                },
                match f {
                    Some(x) => x as int,
                    None => -1,
                },
                h as int,
            ) is None,
        },
{
    match f {
        None => cur,
        Some(x) => match cur {
            None => Some((x, h)),
            Some((g, k)) => if x < g {
                Some((x, h))
            } else {
                cur
            },
        },
    }
}

fn blocks_exec(t: &[char], now: &str) -> (r: Vec<ParsedSubtask>)
    ensures
        r@.map_values(|p: ParsedSubtask| p@) == parsed_blocks(t@, blocks_from(t@, 0), now@),
{
    let open = chars_of("<details>");
    let close = chars_of("</details>");
    proof {
        reveal_strlit("<details>");
        reveal_strlit("</details>");
    }
    let mut out: Vec<ParsedSubtask> = Vec::new();
    let mut p: usize = 0;
    let ghost mut done: Seq<(int, int)> = Seq::empty();
    loop
        invariant
            p <= t.len(),
            open@ == "<details>"@,
            close@ == "</details>"@,
            open@.len() == 9,
            close@.len() == 10,
            blocks_from(t@, 0) == done + blocks_from(t@, p as int),
            out@.map_values(|q: ParsedSubtask| q@) == parsed_blocks(t@, done, now@),
        decreases t.len() - p,
    {
        let a = match find_in(t, open.as_slice(), p) {
            Some(a) => a,
            None => {
                assert(blocks_from(t@, p as int) =~= Seq::<(int, int)>::empty());
                assert(done + Seq::<(int, int)>::empty() =~= done);
                return out;
            },
        };
        proof {
            crate::text::lemma_find_from(t@, open@, p as int);
        }
        let b = match find_in(t, close.as_slice(), a + 9) {
            Some(b) => b,
            None => {
                assert(blocks_from(t@, p as int) =~= Seq::<(int, int)>::empty());
                assert(done + Seq::<(int, int)>::empty() =~= done);
                return out;
            },
        };
        proof {
            crate::text::lemma_find_from(t@, close@, a + 9);
        }
        let ghost blk = (a + 9, b as int);
        let ghost before = out@.map_values(|q: ParsedSubtask| q@);
        let content = &t[a + 9..b];
        assert(content@ =~= t@.subrange(a + 9, b as int));
        let parsed = details_exec(content, now);
        proof {
            let nd = done.push(blk);
            assert(nd.drop_last() =~= done);
            assert(blocks_from(t@, 0) =~= nd + blocks_from(t@, b + 10));
        }
        if let Some(q) = parsed {
            let ghost qv = q@;
            out.push(q);
            assert(out@.map_values(|q: ParsedSubtask| q@) =~= before.push(qv));
        }
        proof {
            done = done.push(blk);
        }
        p = b + 10;
    }
}

/// Reads an issue body back, with `now` for the timestamps blocks lack.
pub fn parse_hierarchical_issue_body_at(body: &str, now: &str) -> (r: ParsedBody)
    ensures
        r@ == body_spec(body@, now@),
{
    let x = chars_of(body);
    proof {
        reveal_strlit("## Tasks");
        reveal_strlit("## Subtasks");
        reveal_strlit("## Task Tree");
        reveal_strlit("## Task Details");
    }
    let c0 = earlier_exec(None, find_header(x.as_slice(), TASKS_HEADER), 0);
    let c1 = earlier_exec(c0, find_header(x.as_slice(), SUBTASKS_HEADER), 1);
    let c2 = earlier_exec(c1, find_header(x.as_slice(), LEGACY_TREE_HEADER), 2);
    let c3 = earlier_exec(c2, find_header(x.as_slice(), LEGACY_DETAILS_HEADER), 3);
    let (index, h) = match c3 {
        None => {
            let r = ParsedBody { description: trim(body), subtasks: Vec::new() };
            assert(r@.subtasks =~= Seq::<ParsedSubtaskV>::empty());
            return r;
        },
        Some(m) => m,
    };
    let description = trim(string_of(&x[0..index]).as_str());
    assert(x@.subrange(0, index as int) =~= body@.take(index as int));
    let start = if h <= 1 {
        Some(index + if h == 0 { 8 } else { 11 })
    } else {
        match find_header(x.as_slice(), LEGACY_DETAILS_HEADER) {
            Some(d) => Some(d + 15),
            None => None,
        }
    };
    let s = match start {
        None => {
            let r = ParsedBody { description, subtasks: Vec::new() };
            assert(r@.subtasks =~= Seq::<ParsedSubtaskV>::empty());
            return r;
        },
        Some(s) => s,
    };
    let t = tail(x.as_slice(), s);
    let subtasks = blocks_exec(t.as_slice(), now);
    ParsedBody { description, subtasks }
}

/// Reads an issue body back, stamping blocks that lack timestamps with the
/// current time: the result is the reading at some time.
pub fn parse_hierarchical_issue_body(body: &str) -> (r: ParsedBody)
    ensures
        exists|now: Seq<char>| r@ == body_spec(body@, now),
{
    let now = crate::task::timestamp();
    parse_hierarchical_issue_body_at(body, now.as_str())
}

} // verus!

verus! {

/// The text holds none of the four task-section headers.
pub open spec fn no_section_header(s: Seq<char>) -> bool {
    &&& !crate::text::seq_contains(s, "## Tasks"@)
    &&& !crate::text::seq_contains(s, "## Subtasks"@)
    &&& !crate::text::seq_contains(s, "## Task Tree"@)
    &&& !crate::text::seq_contains(s, "## Task Details"@)
}

/// A header that starts with `#` and holds no line break, absent from
/// `ctx`, does not occur in `ctx` followed by a line break anywhere before
/// the end of that break.
proof fn lemma_header_not_before(ctx: Seq<char>, rest: Seq<char>, n: Seq<char>, p: int)
    requires
        n.len() > 0,
        n[0] == '#',
        forall|k: int| 0 <= k < n.len() ==> n[k] != '\n',
        !crate::text::seq_contains(ctx, n),
        rest.len() >= 2,
        rest[0] == '\n',
        rest[1] == '\n',
        0 <= p < ctx.len() + 2,
    ensures
        !occurs_at(ctx + rest, n, p),
{
    let b = ctx + rest;
    if occurs_at(b, n, p) {
        assert(b.subrange(p, p + n.len())[0] == b[p]);
        if p >= ctx.len() {
            assert(b[p] == rest[p - ctx.len()]);
        } else if p + n.len() > ctx.len() {
            let k = ctx.len() - p;
            assert(b.subrange(p, p + n.len())[k] == b[ctx.len() as int]);
            assert(b[ctx.len() as int] == rest[0]);
        } else {
            assert(ctx.subrange(p, p + n.len()) =~= b.subrange(p, p + n.len()));
            assert(occurs_at(ctx, n, p));
        }
    }
}

proof fn lemma_header_at_least(ctx: Seq<char>, rest: Seq<char>, n: Seq<char>)
    requires
        n.len() > 0,
        n[0] == '#',
        forall|k: int| 0 <= k < n.len() ==> n[k] != '\n',
        !crate::text::seq_contains(ctx, n),
        rest.len() >= 2,
        rest[0] == '\n',
        rest[1] == '\n',
    ensures
        find_from(ctx + rest, n, 0) == -1 || find_from(ctx + rest, n, 0) >= ctx.len() + 2,
{
    crate::text::lemma_find_from(ctx + rest, n, 0);
    let f = find_from(ctx + rest, n, 0);
    if f != -1 && f < ctx.len() + 2 {
        lemma_header_not_before(ctx, rest, n, f);
    }
}

/// What a rendered issue body reads back as context is the context it was
/// given, trimmed, when that context holds no task-section header.
pub proof fn law_context_reads_back(ctx: Seq<char>, ds: Seq<crate::sync::DescendantV>, now: Seq<char>)
    requires
        no_section_header(ctx),
    ensures
        body_spec(crate::sync::issue_body(ctx, ds), now).description == trimmed(ctx),
{
    reveal_strlit("## Tasks");
    reveal_strlit("## Subtasks");
    reveal_strlit("## Task Tree");
    reveal_strlit("## Task Details");
    reveal_strlit("\n\n## Tasks\n\n");
    let body = crate::sync::issue_body(ctx, ds);
    if ds.len() == 0 {
        assert(body == ctx);
        crate::text::lemma_find_from(ctx, "## Tasks"@, 0);
        crate::text::lemma_find_from(ctx, "## Subtasks"@, 0);
        crate::text::lemma_find_from(ctx, "## Task Tree"@, 0);
        crate::text::lemma_find_from(ctx, "## Task Details"@, 0);
        assert(first_header(body) is None);
    } else {
        let rest = body.skip(ctx.len() as int);
        assert(body =~= ctx + rest);
        assert(rest[0] == '\n' && rest[1] == '\n');
        let p: int = ctx.len() as int + 2;
        assert forall|k: int| 0 <= k < 8 implies #[trigger] body[p + k] == "## Tasks"@[k] by {
            assert(body[p + k] == "\n\n## Tasks\n\n"@[k + 2]);
        }
        assert(occurs_at(body, "## Tasks"@, p)) by {
            assert(body.subrange(p, p + 8) =~= "## Tasks"@);
        }
        lemma_header_at_least(ctx, rest, "## Tasks"@);
        lemma_header_at_least(ctx, rest, "## Subtasks"@);
        lemma_header_at_least(ctx, rest, "## Task Tree"@);
        lemma_header_at_least(ctx, rest, "## Task Details"@);
        crate::text::lemma_find_from(body, "## Tasks"@, 0);
        assert(find_from(body, "## Tasks"@, 0) == p);
        match first_header(body) {
            Some((index, h)) => {
                assert(index == p);
                reveal_strlit("\n\n");
                assert(body[ctx.len() as int] == rest[0]);
                assert(body[ctx.len() as int + 1] == rest[1]);
                assert(body.take(p) =~= ctx + "\n\n"@);
                crate::text::lemma_trimmed_newlines(ctx);
            },
            None => {
                assert(false);
            },
        }
    }
}

} // verus!
