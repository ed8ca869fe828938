//! Character-level text operations used by the renderers and parsers.
//!
//! Every function here works on the character sequence (`@`) of its
//! arguments, so that contracts elsewhere can be written over `Seq<char>`.
use vstd::prelude::*;

verus! {

/// The characters of a string slice, in order.
pub fn chars_of(s: &str) -> (v: Vec<char>)
    ensures
        v@ == s@,
{
    let mut v: Vec<char> = Vec::new();
    for c in it: s.chars()
        invariant
            v@ == it.seq().take(it.index() as int),
            it.seq() == s@,
    {
        v.push(c);
        assert(it.seq().take(it.index() + 1) == it.seq().take(it.index() as int).push(c));
    }
    v
}

/// Appends one character (`String::push`).
#[verifier::external_body]
pub fn push_char(s: &mut String, c: char)
    ensures
        final(s)@ == old(s)@.push(c),
{
    s.push(c);
}

/// Appends a string slice.
pub fn push_str(s: &mut String, t: &str)
    ensures
        final(s)@ == old(s)@ + t@,
{
    s.append(t);
}

/// A string holding exactly the given characters.
pub fn string_of(v: &[char]) -> (s: String)
    ensures
        s@ == v@,
{
    let mut s = String::new();
    let mut i: usize = 0;
    while i < v.len()
        invariant
            i <= v.len(),
            s@ == v@.take(i as int),
        decreases v.len() - i,
    {
        push_char(&mut s, v[i]);
        assert(v@.take(i + 1) == v@.take(i as int).push(v@[i as int]));
        i = i + 1;
    }
    assert(v@.take(v.len() as int) == v@);
    s
}

/// A fresh string with the characters of `t`.
pub fn owned(t: &str) -> (s: String)
    ensures
        s@ == t@,
{
    let mut s = String::new();
    push_str(&mut s, t);
    s
}

/// A copy of a string.
pub fn copy_string(t: &String) -> (s: String)
    ensures
        s@ == t@,
        s == *t,
{
    t.clone()
}

/// A copy of an optional string.
pub fn copy_opt(t: &Option<String>) -> (s: Option<String>)
    ensures
        s == *t,
{
    match t {
        Some(v) => Some(v.clone()),
        None => None,
    }
}

/// A copy of a list of strings.
pub fn copy_strings(v: &Vec<String>) -> (r: Vec<String>)
    ensures
        r@ == v@,
{
    let mut r: Vec<String> = Vec::new();
    let mut i: usize = 0;
    while i < v.len()
        invariant
            i <= v.len(),
            r@ == v@.take(i as int),
        decreases v.len() - i,
    {
        r.push(v[i].clone());
        assert(v@.take(i + 1) == v@.take(i as int).push(v@[i as int]));
        i = i + 1;
    }
    assert(v@.take(v.len() as int) == v@);
    r
}

/// Whether `v` holds a string with the characters of `s`.
pub fn list_contains(v: &Vec<String>, s: &str) -> (r: bool)
    ensures
        r == v.deep_view().contains(s@),
{
    let mut i: usize = 0;
    while i < v.len()
        invariant
            i <= v.len(),
            forall|k: int| 0 <= k < i ==> v.deep_view()[k] != s@,
        decreases v.len() - i,
    {
        if str_eq(v[i].as_str(), s) {
            assert(v.deep_view()[i as int] == s@);
            return true;
        }
        i = i + 1;
    }
    assert(forall|k: int| 0 <= k < v.deep_view().len() ==> v.deep_view()[k] != s@);
    false
}

/// Concatenation of two slices into a new string.
pub fn cat2(a: &str, b: &str) -> (s: String)
    ensures
        s@ == a@ + b@,
{
    let mut s = owned(a);
    push_str(&mut s, b);
    s
}

/// Concatenation of three slices into a new string.
pub fn cat3(a: &str, b: &str, c: &str) -> (s: String)
    ensures
        s@ == a@ + b@ + c@,
{
    let mut s = owned(a);
    push_str(&mut s, b);
    push_str(&mut s, c);
    s
}

/// Concatenation of four slices into a new string.
pub fn cat4(a: &str, b: &str, c: &str, d: &str) -> (s: String)
    ensures
        s@ == a@ + b@ + c@ + d@,
{
    let mut s = owned(a);
    push_str(&mut s, b);
    push_str(&mut s, c);
    push_str(&mut s, d);
    s
}

/// Concatenation of five slices into a new string.
pub fn cat5(a: &str, b: &str, c: &str, d: &str, e: &str) -> (s: String)
    ensures
        s@ == a@ + b@ + c@ + d@ + e@,
{
    let mut s = owned(a);
    push_str(&mut s, b);
    push_str(&mut s, c);
    push_str(&mut s, d);
    push_str(&mut s, e);
    s
}

/// Whether two string slices hold the same characters.
pub fn str_eq(a: &str, b: &str) -> (r: bool)
    ensures
        r == (a@ == b@),
{
    let x = chars_of(a);
    let y = chars_of(b);
    seq_eq(&x, &y)
}

/// Whether two character slices are equal.
pub fn seq_eq(x: &[char], y: &[char]) -> (r: bool)
    ensures
        r == (x@ == y@),
{
    if x.len() != y.len() {
        return false;
    }
    let mut i: usize = 0;
    while i < x.len()
        invariant
            i <= x.len(),
            x.len() == y.len(),
            forall|j: int| 0 <= j < i ==> x@[j] == y@[j],
        decreases x.len() - i,
    {
        if x[i] != y[i] {
            return false;
        }
        i = i + 1;
    }
    assert(x@ =~= y@);
    true
}

/// Strict lexicographic order on character sequences (by code point), which
/// is the order of `str`'s `Ord`: UTF-8 byte order agrees with code-point order.
pub open spec fn seq_lt(a: Seq<char>, b: Seq<char>) -> bool
    decreases a.len(),
{
    if b.len() == 0 {
        false
    } else if a.len() == 0 {
        true
    } else if a[0] != b[0] {
        (a[0] as int) < (b[0] as int)
    } else {
        seq_lt(a.drop_first(), b.drop_first())
    }
}

/// Lexicographic order on character sequences, allowing equality.
pub open spec fn seq_le(a: Seq<char>, b: Seq<char>) -> bool {
    seq_lt(a, b) || a == b
}

proof fn lemma_seq_lt_step(a: Seq<char>, b: Seq<char>, i: int)
    requires
        0 <= i <= a.len(),
        i <= b.len(),
        a.take(i) == b.take(i),
    ensures
        seq_lt(a, b) == seq_lt(a.skip(i), b.skip(i)),
    decreases i,
{
    if i > 0 {
        assert(a[0] == a.take(i)[0]);
        assert(b[0] == b.take(i)[0]);
        assert(a.drop_first().take(i - 1) =~= a.take(i).drop_first());
        assert(b.drop_first().take(i - 1) =~= b.take(i).drop_first());
        lemma_seq_lt_step(a.drop_first(), b.drop_first(), i - 1);
        assert(a.drop_first().skip(i - 1) =~= a.skip(i));
        assert(b.drop_first().skip(i - 1) =~= b.skip(i));
    } else {
        assert(a.skip(0) =~= a);
        assert(b.skip(0) =~= b);
    }
}

/// Strict lexicographic comparison of two strings.
pub fn str_lt(a: &str, b: &str) -> (r: bool)
    ensures
        r == seq_lt(a@, b@),
{
    let x = chars_of(a);
    let y = chars_of(b);
    let mut i: usize = 0;
    while i < x.len() && i < y.len() && x[i] == y[i]
        invariant
            i <= x.len(),
            i <= y.len(),
            x@.take(i as int) == y@.take(i as int),
        decreases x.len() - i,
    {
        assert(x@.take(i + 1) == x@.take(i as int).push(x@[i as int]));
        assert(y@.take(i + 1) == y@.take(i as int).push(y@[i as int]));
        i = i + 1;
    }
    proof {
        lemma_seq_lt_step(x@, y@, i as int);
    }
    if i == y.len() {
        false
    } else if i == x.len() {
        true
    } else {
        proof {
            assert(x@.skip(i as int)[0] == x@[i as int]);
            assert(y@.skip(i as int)[0] == y@[i as int]);
        }
        x[i] < y[i]
    }
}

/// Whether `needle` occurs in `hay` starting at position `i`.
pub open spec fn occurs_at(hay: Seq<char>, needle: Seq<char>, i: int) -> bool {
    0 <= i && i + needle.len() <= hay.len() && hay.subrange(i, i + needle.len()) == needle
}

/// Whether `needle` occurs anywhere in `hay` (`str::contains`).
pub open spec fn seq_contains(hay: Seq<char>, needle: Seq<char>) -> bool {
    exists|i: int| occurs_at(hay, needle, i)
}

/// The first position at which `needle` occurs in `hay` at or after `from`,
/// or -1.
pub open spec fn find_from(hay: Seq<char>, needle: Seq<char>, from: int) -> int
    decreases hay.len() + 1 - from,
{
    if from < 0 || from > hay.len() || from + needle.len() > hay.len() {
        -1
    } else if occurs_at(hay, needle, from) {
        from
    } else {
        find_from(hay, needle, from + 1)
    }
}

pub proof fn lemma_find_from(hay: Seq<char>, needle: Seq<char>, from: int)
    requires
        0 <= from,
    ensures
        find_from(hay, needle, from) == -1 ==> forall|j: int|
            from <= j ==> !occurs_at(hay, needle, j),
        find_from(hay, needle, from) != -1 ==> {
            let k = find_from(hay, needle, from);
            &&& from <= k
            &&& occurs_at(hay, needle, k)
            &&& forall|j: int| from <= j < k ==> !occurs_at(hay, needle, j)
        },
    decreases hay.len() + 1 - from,
{
    if from > hay.len() || from + needle.len() > hay.len() {
    } else if occurs_at(hay, needle, from) {
    } else {
        lemma_find_from(hay, needle, from + 1);
    }
}

/// Whether `needle` occurs in `x` at position `i`.
pub fn matches_at(x: &[char], needle: &[char], i: usize) -> (r: bool)
    ensures
        r == occurs_at(x@, needle@, i as int),
{
    if i > x.len() || needle.len() > x.len() - i {
        return false;
    }
    let mut k: usize = 0;
    while k < needle.len()
        invariant
            k <= needle.len(),
            i + needle.len() <= x.len(),
            forall|j: int| 0 <= j < k ==> x@[i + j] == needle@[j],
        decreases needle.len() - k,
    {
        if x[i + k] != needle[k] {
            assert(x@.subrange(i as int, i + needle.len())[k as int] != needle@[k as int]);
            return false;
        }
        k = k + 1;
    }
    assert(x@.subrange(i as int, i + needle.len()) =~= needle@);
    true
}

/// The first position at or after `from` where `needle` occurs in `x`.
pub fn find_in(x: &[char], needle: &[char], from: usize) -> (r: Option<usize>)
    ensures
        match r {
            Some(k) => find_from(x@, needle@, from as int) == k as int,
            None => find_from(x@, needle@, from as int) == -1,
        },
{
    let mut i = from;
    if needle.len() > x.len() {
        proof {
            assert(find_from(x@, needle@, from as int) == -1);
        }
        return None;
    }
    if i > x.len() - needle.len() {
        return None;
    }
    loop
        invariant
            from <= i <= x.len() - needle.len(),
            needle.len() <= x.len(),
            find_from(x@, needle@, from as int) == find_from(x@, needle@, i as int),
        decreases x.len() - i,
    {
        if matches_at(x, needle, i) {
            return Some(i);
        }
        if i == x.len() - needle.len() {
            assert(find_from(x@, needle@, i + 1) == -1);
            return None;
        }
        i = i + 1;
    }
}

/// `str::contains` for string slices.
pub fn contains_str(hay: &str, needle: &str) -> (r: bool)
    ensures
        r == seq_contains(hay@, needle@),
{
    let x = chars_of(hay);
    let y = chars_of(needle);
    let r = find_in(&x, &y, 0);
    proof {
        lemma_find_from(x@, y@, 0);
    }
    r.is_some()
}

/// Whether `s` starts with `prefix`.
pub open spec fn has_prefix(s: Seq<char>, prefix: Seq<char>) -> bool {
    prefix.len() <= s.len() && s.take(prefix.len() as int) == prefix
}

/// `str::starts_with` for string slices.
pub fn starts_with(s: &str, prefix: &str) -> (r: bool)
    ensures
        r == has_prefix(s@, prefix@),
{
    let x = chars_of(s);
    let p = chars_of(prefix);
    let r = matches_at(&x, &p, 0);
    proof {
        if p@.len() <= x@.len() {
            assert(x@.subrange(0, p@.len() as int) =~= x@.take(p@.len() as int));
        }
    }
    r
}

/// The decimal digits of a natural number.
pub open spec fn dec(n: nat) -> Seq<char>
    decreases n,
{
    if n < 10 {
        seq![digit_char(n)]
    } else {
        dec(n / 10).push(digit_char(n % 10))
    }
}

/// The character of a single decimal digit.
pub open spec fn digit_char(d: nat) -> char {
    if d == 0 {
        '0'
    } else if d == 1 {
        '1'
    } else if d == 2 {
        '2'
    } else if d == 3 {
        '3'
    } else if d == 4 {
        '4'
    } else if d == 5 {
        '5'
    } else if d == 6 {
        '6'
    } else if d == 7 {
        '7'
    } else if d == 8 {
        '8'
    } else {
        '9'
    }
}

fn digit(d: u64) -> (c: char)
    requires
        d < 10,
    ensures
        c == digit_char(d as nat),
{
    if d == 0 {
        '0'
    } else if d == 1 {
        '1'
    } else if d == 2 {
        '2'
    } else if d == 3 {
        '3'
    } else if d == 4 {
        '4'
    } else if d == 5 {
        '5'
    } else if d == 6 {
        '6'
    } else if d == 7 {
        '7'
    } else if d == 8 {
        '8'
    } else {
        '9'
    }
}

/// Decimal rendering of an unsigned integer (`{}` formatting).
pub fn u64_text(n: u64) -> (s: String)
    ensures
        s@ == dec(n as nat),
    decreases n,
{
    if n < 10 {
        let mut s = String::new();
        push_char(&mut s, digit(n));
        s
    } else {
        let mut s = u64_text(n / 10);
        push_char(&mut s, digit(n % 10));
        s
    }
}

/// Decimal rendering of a `u128`.
pub fn u128_text(n: u128) -> (s: String)
    ensures
        s@ == dec(n as nat),
    decreases n,
{
    if n < 10 {
        let mut s = String::new();
        push_char(&mut s, digit(n as u64));
        s
    } else {
        let mut s = u128_text(n / 10);
        push_char(&mut s, digit((n % 10) as u64));
        s
    }
}

/// Decimal rendering of a `usize`.
pub fn usize_text(n: usize) -> (s: String)
    ensures
        s@ == dec(n as nat),
{
    u64_text(n as u64)
}

/// Decimal rendering of a signed integer, with a leading `-` when negative.
pub open spec fn int_dec(n: int) -> Seq<char> {
    if n < 0 {
        seq!['-'] + dec((-n) as nat)
    } else {
        dec(n as nat)
    }
}

/// Decimal rendering of an `i64` (`{}` formatting).
pub fn i64_text(n: i64) -> (s: String)
    ensures
        s@ == int_dec(n as int),
{
    if n < 0 {
        let m: u64 = if n == i64::MIN {
            9223372036854775808u64
        } else {
            (-n) as u64
        };
        let mut s = String::new();
        push_char(&mut s, '-');
        let t = u64_text(m);
        push_str(&mut s, t.as_str());
        s
    } else {
        u64_text(n as u64)
    }
}

/// The lines of a text, as `str::lines` yields them: split at `\n`, a `\r`
/// before the `\n` removed, and no final empty line after a trailing `\n`.
/// A bare `\r` at the very end is kept.
pub open spec fn lines_of(s: Seq<char>) -> Seq<Seq<char>>
    decreases s.len(),
{
    if s.len() == 0 {
        seq![]
    } else {
        let k = first_newline(s, 0);
        proof {
            lemma_first_newline(s, 0);
        }
        if k == -1 {
            seq![s]
        } else {
            seq![strip_cr(s.take(k))] + lines_of(s.skip(k + 1))
        }
    }
}

/// The first position of `\n` at or after `from`, or -1.
pub open spec fn first_newline(s: Seq<char>, from: int) -> int
    decreases s.len() - from,
{
    if from < 0 || from >= s.len() {
        -1
    } else if s[from] == '\n' {
        from
    } else {
        first_newline(s, from + 1)
    }
}

pub proof fn lemma_first_newline(s: Seq<char>, from: int)
    requires
        0 <= from,
    ensures
        first_newline(s, from) == -1 || (from <= first_newline(s, from) < s.len() && s[first_newline(s, from)] == '\n'),
        forall|j: int| from <= j < (if first_newline(s, from) == -1 { s.len() as int } else { first_newline(s, from) }) ==> s[j] != '\n',
    decreases s.len() - from,
{
    if from < s.len() && s[from] != '\n' {
        lemma_first_newline(s, from + 1);
    }
}

/// A line without its trailing `\r`.
pub open spec fn strip_cr(s: Seq<char>) -> Seq<char> {
    if s.len() > 0 && s.last() == '\r' {
        s.drop_last()
    } else {
        s
    }
}

/// The lines of a text (`str::lines`).
pub fn lines(s: &str) -> (r: Vec<String>)
    ensures
        r@.map_values(|l: String| l@) == lines_of(s@),
{
    let x = chars_of(s);
    let mut r: Vec<String> = Vec::new();
    let mut start: usize = 0;
    let ghost done: Seq<Seq<char>> = seq![];
    proof {
        assert(x@.skip(0) =~= x@);
    }
    while start < x.len()
        invariant
            start <= x.len(),
            x@ == s@,
            r@.map_values(|l: String| l@) + lines_of(x@.skip(start as int)) == lines_of(s@),
        decreases x.len() - start,
    {
        let ghost rest = x@.skip(start as int);
        let mut end = start;
        while end < x.len() && x[end] != '\n'
            invariant
                start <= end <= x.len(),
                forall|j: int| start <= j < end ==> x@[j] != '\n',
            decreases x.len() - end,
        {
            end = end + 1;
        }
        proof {
            lemma_first_newline(rest, 0);
            assert forall|j: int| 0 <= j < end - start implies rest[j] != '\n' by {
                assert(rest[j] == x@[start + j]);
            }
            if end < x.len() {
                assert(rest[end - start] == '\n');
                assert(first_newline(rest, 0) == end - start) by {
                    lemma_first_newline_at(rest, 0, end - start);
                }
            } else {
                assert(first_newline(rest, 0) == -1) by {
                    lemma_first_newline_none(rest, 0);
                }
            }
        }
        let mut stop = end;
        if end < x.len() && stop > start && x[stop - 1] == '\r' {
            stop = stop - 1;
        }
        let line = string_of(&x[start..stop]);
        proof {
            if end < x.len() {
                assert(x@.subrange(start as int, stop as int) =~= strip_cr(rest.take(end - start)));
            } else {
                assert(x@.subrange(start as int, stop as int) =~= rest.take(end - start));
            }
        }
        r.push(line);
        let next = if end < x.len() { end + 1 } else { end };
        proof {
            let old_r = r@.drop_last();
            assert(r@.map_values(|l: String| l@) =~= old_r.map_values(|l: String| l@).push(line@));
            if end < x.len() {
                assert(rest.skip(end - start + 1) =~= x@.skip(next as int));
            } else {
                assert(x@.skip(next as int) =~= Seq::<char>::empty());
            }
            if end < x.len() {
                assert(lines_of(rest) == seq![strip_cr(rest.take(end - start))] + lines_of(rest.skip(end - start + 1)));
            } else {
                assert(rest.take(end - start) =~= rest);
                assert(lines_of(x@.skip(next as int)) =~= Seq::<Seq<char>>::empty());
                assert(lines_of(rest) == seq![rest]);
            }
            assert(lines_of(rest) =~= seq![line@] + lines_of(x@.skip(next as int)));
        }
        start = next;
    }
    proof {
        assert(x@.skip(start as int) =~= Seq::<char>::empty());
        assert(r@.map_values(|l: String| l@) + seq![] =~= r@.map_values(|l: String| l@));
    }
    r
}

proof fn lemma_first_newline_at(s: Seq<char>, from: int, k: int)
    requires
        0 <= from <= k < s.len(),
        s[k] == '\n',
        forall|j: int| from <= j < k ==> s[j] != '\n',
    ensures
        first_newline(s, from) == k,
    decreases k - from,
{
    if from < k {
        lemma_first_newline_at(s, from + 1, k);
    }
}

proof fn lemma_first_newline_none(s: Seq<char>, from: int)
    requires
        0 <= from,
        forall|j: int| from <= j < s.len() ==> s[j] != '\n',
    ensures
        first_newline(s, from) == -1,
    decreases s.len() - from,
{
    if from < s.len() {
        lemma_first_newline_none(s, from + 1);
    }
}

/// `s` split around the first occurrence of `pat` (`str::split_once`).
pub open spec fn split_once_spec(s: Seq<char>, pat: Seq<char>) -> Option<(Seq<char>, Seq<char>)> {
    let k = find_from(s, pat, 0);
    if k == -1 {
        None
    } else {
        Some((s.take(k), s.skip(k + pat.len())))
    }
}

/// Splits around the first occurrence of `pat`.
pub fn split_once(s: &str, pat: &str) -> (r: Option<(String, String)>)
    ensures
        match r {
            Some((a, b)) => split_once_spec(s@, pat@) == Some((a@, b@)),
            None => split_once_spec(s@, pat@) is None,
        },
{
    let x = chars_of(s);
    let p = chars_of(pat);
    match find_in(&x, &p, 0) {
        None => None,
        Some(k) => {
            proof {
                lemma_find_from(x@, p@, 0);
            }
            assert(occurs_at(x@, p@, k as int));
            assert(k + p.len() <= x.len());
            let a = string_of(&x[0..k]);
            let b = string_of(&x[k + p.len()..x.len()]);
            assert(x@.subrange(0, k as int) =~= x@.take(k as int));
            assert(x@.subrange(k + p.len(), x.len() as int) =~= x@.skip(k + p.len()));
            Some((a, b))
        },
    }
}

/// The last position of `c` in `s`, or -1.
pub open spec fn last_index(s: Seq<char>, c: char) -> int
    decreases s.len(),
{
    if s.len() == 0 {
        -1
    } else if s.last() == c {
        s.len() - 1
    } else {
        last_index(s.drop_last(), c)
    }
}

proof fn lemma_last_index(s: Seq<char>, c: char)
    ensures
        -1 <= last_index(s, c) < s.len(),
        last_index(s, c) != -1 ==> s[last_index(s, c)] == c,
    decreases s.len(),
{
    if s.len() > 0 && s.last() != c {
        lemma_last_index(s.drop_last(), c);
    }
}

/// `s` split around the last occurrence of `c` (`str::rsplit_once`).
pub open spec fn rsplit_once_spec(s: Seq<char>, c: char) -> Option<(Seq<char>, Seq<char>)> {
    let k = last_index(s, c);
    if k == -1 {
        None
    } else {
        Some((s.take(k), s.skip(k + 1)))
    }
}

/// Splits around the last occurrence of `c`.
pub fn rsplit_once(s: &str, c: char) -> (r: Option<(String, String)>)
    ensures
        match r {
            Some((a, b)) => rsplit_once_spec(s@, c) == Some((a@, b@)),
            None => rsplit_once_spec(s@, c) is None,
        },
{
    let x = chars_of(s);
    let mut i = x.len();
    assert(x@.take(x.len() as int) =~= x@);
    while i > 0
        invariant
            i <= x.len(),
            x@ == s@,
            last_index(x@, c) == last_index(x@.take(i as int), c),
        decreases i,
    {
        assert(x@.take(i as int).drop_last() =~= x@.take(i - 1));
        assert(x@.take(i as int).last() == x@[i - 1]);
        if x[i - 1] == c {
            assert(last_index(x@.take(i as int), c) == i - 1);
            let a = string_of(&x[0..i - 1]);
            let b = string_of(&x[i..x.len()]);
            assert(x@.subrange(0, i - 1) =~= x@.take(i - 1));
            assert(x@.subrange(i as int, x.len() as int) =~= x@.skip(i as int));
            assert(last_index(s@, c) == i - 1);
            assert(a@ == s@.take(i - 1));
            assert(b@ == s@.skip(i - 1 + 1));
            return Some((a, b));
        }
        i = i - 1;
    }
    None
}

/// `s` without the prefix `p`, if it has it (`str::strip_prefix`).
pub open spec fn strip_prefix_spec(s: Seq<char>, p: Seq<char>) -> Option<Seq<char>> {
    if has_prefix(s, p) {
        Some(s.skip(p.len() as int))
    } else {
        None
    }
}

/// Removes a prefix.
pub fn strip_prefix(s: &str, p: &str) -> (r: Option<String>)
    ensures
        match r {
            Some(t) => strip_prefix_spec(s@, p@) == Some(t@),
            None => strip_prefix_spec(s@, p@) is None,
        },
{
    if starts_with(s, p) {
        let x = chars_of(s);
        let n = chars_of(p).len();
        let t = string_of(&x[n..x.len()]);
        assert(x@.subrange(n as int, x.len() as int) =~= x@.skip(n as int));
        Some(t)
    } else {
        None
    }
}

/// Whether `s` ends with `p`.
pub open spec fn has_suffix(s: Seq<char>, p: Seq<char>) -> bool {
    p.len() <= s.len() && s.skip(s.len() - p.len()) == p
}

/// `s` with every leading `c` removed (`trim_start_matches(c)`).
pub open spec fn trim_start_char(s: Seq<char>, c: char) -> Seq<char>
    decreases s.len(),
{
    if s.len() > 0 && s[0] == c {
        trim_start_char(s.drop_first(), c)
    } else {
        s
    }
}

/// `s` with every trailing copy of the non-empty `p` removed
/// (`trim_end_matches(p)`).
pub open spec fn trim_end_pat(s: Seq<char>, p: Seq<char>) -> Seq<char>
    decreases s.len(),
{
    if p.len() > 0 && has_suffix(s, p) {
        trim_end_pat(s.take(s.len() - p.len()), p)
    } else {
        s
    }
}

/// Removes every leading `c`.
pub fn trim_start_matches(s: &str, c: char) -> (r: String)
    ensures
        r@ == trim_start_char(s@, c),
{
    let x = chars_of(s);
    let mut i: usize = 0;
    assert(x@.skip(0) =~= x@);
    while i < x.len() && x[i] == c
        invariant
            i <= x.len(),
            trim_start_char(x@, c) == trim_start_char(x@.skip(i as int), c),
        decreases x.len() - i,
    {
        assert(x@.skip(i as int).drop_first() =~= x@.skip(i + 1));
        i = i + 1;
    }
    let r = string_of(&x[i..x.len()]);
    assert(x@.subrange(i as int, x.len() as int) =~= x@.skip(i as int));
    r
}

/// Removes every trailing copy of `p`.
pub fn trim_end_matches(s: &str, p: &str) -> (r: String)
    ensures
        r@ == trim_end_pat(s@, p@),
{
    let x = chars_of(s);
    let y = chars_of(p);
    let mut n = x.len();
    if y.len() == 0 {
        return owned(s);
    }
    assert(x@.take(x.len() as int) =~= x@);
    loop
        invariant
            n <= x.len(),
            y.len() > 0,
            y@ == p@,
            trim_end_pat(x@, y@) == trim_end_pat(x@.take(n as int), y@),
        ensures
            n <= x.len(),
            trim_end_pat(x@, y@) == x@.take(n as int),
        decreases n,
    {
        if y.len() <= n && matches_at(&x, &y, n - y.len()) {
            assert(x@.subrange((n - y.len()) as int, n as int) =~= x@.take(n as int).skip(n - y.len()));
            assert(x@.take(n as int).take(n - y.len()) =~= x@.take(n - y.len()));
            n = n - y.len();
        } else {
            proof {
                if y.len() <= n {
                    assert(x@.subrange((n - y.len()) as int, n as int) =~= x@.take(n as int).skip(n - y.len()));
                }
                assert(!has_suffix(x@.take(n as int), y@));
                assert(trim_end_pat(x@.take(n as int), y@) == x@.take(n as int));
            }
            break;
        }
    }
    let r = string_of(&x[0..n]);
    assert(x@.subrange(0, n as int) =~= x@.take(n as int));
    assert(x@.take(x.len() as int) =~= x@);
    r
}

/// The characters `char::is_whitespace` accepts: the Unicode `White_Space`
/// property.
pub open spec fn is_space(c: char) -> bool {
    ||| ('\u{9}' <= c && c <= '\u{d}')
    ||| c == ' '
    ||| c == '\u{85}'
    ||| c == '\u{a0}'
    ||| c == '\u{1680}'
    ||| ('\u{2000}' <= c && c <= '\u{200a}')
    ||| c == '\u{2028}'
    ||| c == '\u{2029}'
    ||| c == '\u{202f}'
    ||| c == '\u{205f}'
    ||| c == '\u{3000}'
}

/// Whether a character is white space.
pub fn space(c: char) -> (r: bool)
    ensures
        r == is_space(c),
{
    ('\u{9}' <= c && c <= '\u{d}') || c == ' ' || c == '\u{85}' || c == '\u{a0}' || c == '\u{1680}' || ('\u{2000}' <= c
        && c <= '\u{200a}') || c == '\u{2028}' || c == '\u{2029}' || c == '\u{202f}' || c == '\u{205f}' || c == '\u{3000}'
}

/// The number of leading white-space characters of `s`.
pub open spec fn lead_space(s: Seq<char>) -> nat
    decreases s.len(),
{
    if s.len() > 0 && is_space(s[0]) {
        1 + lead_space(s.drop_first())
    } else {
        0
    }
}

/// The number of trailing white-space characters of `s`.
pub open spec fn trail_space(s: Seq<char>) -> nat
    decreases s.len(),
{
    if s.len() > 0 && is_space(s.last()) {
        1 + trail_space(s.drop_last())
    } else {
        0
    }
}

/// `s` without leading and trailing white space (`str::trim`).
pub open spec fn trimmed(s: Seq<char>) -> Seq<char> {
    let t = s.skip(lead_space(s) as int);
    t.take(t.len() - trail_space(t))
}

proof fn lemma_lead_space(s: Seq<char>)
    ensures
        lead_space(s) <= s.len(),
    decreases s.len(),
{
    if s.len() > 0 && is_space(s[0]) {
        lemma_lead_space(s.drop_first());
    }
}

proof fn lemma_trail_space(s: Seq<char>)
    ensures
        trail_space(s) <= s.len(),
    decreases s.len(),
{
    if s.len() > 0 && is_space(s.last()) {
        lemma_trail_space(s.drop_last());
    }
}

/// Removes leading and trailing white space.
pub fn trim(s: &str) -> (r: String)
    ensures
        r@ == trimmed(s@),
{
    let x = chars_of(s);
    let mut i: usize = 0;
    assert(x@.skip(0) =~= x@);
    while i < x.len() && space(x[i])
        invariant
            i <= x.len(),
            lead_space(x@) == i + lead_space(x@.skip(i as int)),
        decreases x.len() - i,
    {
        assert(x@.skip(i as int).drop_first() =~= x@.skip(i + 1));
        i = i + 1;
    }
    let ghost t = x@.skip(i as int);
    let mut j = x.len();
    while j > i && space(x[j - 1])
        invariant
            i <= j <= x.len(),
            t == x@.skip(i as int),
            trail_space(t) == (x.len() - j) + trail_space(x@.subrange(i as int, j as int)),
        decreases j,
    {
        assert(x@.subrange(i as int, j as int).drop_last() =~= x@.subrange(i as int, j - 1));
        j = j - 1;
    }
    proof {
        lemma_trail_space(t);
        assert(t =~= x@.subrange(i as int, x.len() as int));
    }
    let r = string_of(&x[i..j]);
    assert(x@.subrange(i as int, j as int) =~= t.take(t.len() - trail_space(t)));
    r
}

/// `s` with every `c` replaced by `by` (`str::replace` with a one-character
/// pattern).
pub open spec fn replace_char(s: Seq<char>, c: char, by: Seq<char>) -> Seq<char>
    decreases s.len(),
{
    if s.len() == 0 {
        s
    } else {
        replace_char(s.drop_last(), c, by) + if s.last() == c {
            by
        } else {
            seq![s.last()]
        }
    }
}

/// Replaces every `c` with `by`.
pub fn replace(s: &str, c: char, by: &str) -> (r: String)
    ensures
        r@ == replace_char(s@, c, by@),
{
    let x = chars_of(s);
    let mut r = String::new();
    let mut i: usize = 0;
    while i < x.len()
        invariant
            i <= x.len(),
            r@ == replace_char(x@.take(i as int), c, by@),
        decreases x.len() - i,
    {
        assert(x@.take(i + 1).drop_last() =~= x@.take(i as int));
        if x[i] == c {
            push_str(&mut r, by);
        } else {
            push_char(&mut r, x[i]);
        }
        i = i + 1;
    }
    assert(x@.take(x.len() as int) =~= x@);
    r
}

/// The pieces of `s` between the separators `c` (`str::split`).
pub open spec fn split_char(s: Seq<char>, c: char) -> Seq<Seq<char>>
    decreases s.len(),
{
    let k = find_from(s, seq![c], 0);
    if k == -1 {
        seq![s]
    } else {
        proof {
            lemma_find_from(s, seq![c], 0);
        }
        seq![s.take(k)] + split_char(s.skip(k + 1), c)
    }
}

/// Splits at every `c`.
pub fn split(s: &str, c: char) -> (r: Vec<String>)
    ensures
        r.deep_view() == split_char(s@, c),
{
    let mut r: Vec<String> = Vec::new();
    let mut rest = owned(s);
    let mut sep: Vec<char> = Vec::new();
    sep.push(c);
    assert(sep@ =~= seq![c]);
    loop
        invariant
            r.deep_view() + split_char(rest@, c) == split_char(s@, c),
            sep@ == seq![c],
        decreases rest@.len(),
    {
        let x = chars_of(rest.as_str());
        match find_in(&x, &sep, 0) {
            None => {
                let ghost before = r.deep_view();
                r.push(rest);
                assert(r.deep_view() =~= before + split_char(x@, c));
                return r;
            },
            Some(k) => {
                proof {
                    lemma_find_from(x@, seq![c], 0);
                    assert(occurs_at(x@, seq![c], k as int));
                }
                assert(k < x.len());
                let head = string_of(&x[0..k]);
                let tail = string_of(&x[k + 1..x.len()]);
                assert(head@ =~= x@.take(k as int));
                assert(tail@ =~= x@.skip(k + 1));
                let ghost before = r.deep_view();
                r.push(head);
                assert(r.deep_view() =~= before.push(x@.take(k as int)));
                assert(split_char(x@, c) == seq![x@.take(k as int)] + split_char(x@.skip(k + 1), c));
                assert(r.deep_view() + split_char(tail@, c) =~= before + split_char(x@, c));
                rest = tail;
            },
        }
    }
}

/// The parts with `sep` between each two (`[String]::join`).
pub open spec fn joined_by(parts: Seq<Seq<char>>, sep: Seq<char>) -> Seq<char>
    decreases parts.len(),
{
    if parts.len() == 0 {
        Seq::empty()
    } else if parts.len() == 1 {
        parts[0]
    } else {
        joined_by(parts.drop_last(), sep) + sep + parts.last()
    }
}

/// Joins the parts with `sep` between each two.
pub fn join(parts: &Vec<String>, sep: &str) -> (r: String)
    ensures
        r@ == joined_by(parts.deep_view(), sep@),
{
    let ghost pv = parts.deep_view();
    let mut r = String::new();
    let mut i: usize = 0;
    while i < parts.len()
        invariant
            i <= parts.len(),
            pv == parts.deep_view(),
            r@ == joined_by(pv.take(i as int), sep@),
        decreases parts.len() - i,
    {
        assert(pv.take(i + 1).drop_last() =~= pv.take(i as int));
        if i > 0 {
            push_str(&mut r, sep);
        } else {
            assert(pv.take(1) =~= seq![pv[0]]);
            assert(r@ =~= Seq::<char>::empty());
        }
        push_str(&mut r, parts[i].as_str());
        i = i + 1;
    }
    assert(pv.take(parts.len() as int) =~= pv);
    r
}

} // verus!

verus! {

proof fn lemma_lead_append(s: Seq<char>, u: Seq<char>)
    ensures
        lead_space(s) < s.len() ==> lead_space(s + u) == lead_space(s),
        lead_space(s) == s.len() ==> lead_space(s + u) == s.len() + lead_space(u),
    decreases s.len(),
{
    lemma_lead_space(s);
    if s.len() > 0 {
        assert((s + u)[0] == s[0]);
        assert((s + u).drop_first() =~= s.drop_first() + u);
        lemma_lead_append(s.drop_first(), u);
    } else {
        assert(s + u =~= u);
    }
}

/// Trailing line breaks do not change what trimming keeps.
pub proof fn lemma_trimmed_newlines(s: Seq<char>)
    ensures
        trimmed(s + "\n\n"@) == trimmed(s),
{
    reveal_strlit("\n\n");
    let u = "\n\n"@;
    let l = lead_space(s);
    lemma_lead_space(s);
    lemma_lead_append(s, u);
    assert(is_space(u[0]) && is_space(u[1]));
    if l == s.len() {
        lemma_lead_space(u);
        let u1 = u.drop_first();
        assert(u1.len() == 1 && u1[0] == '\n');
        assert(u1.drop_first().len() == 0);
        assert(lead_space(u1.drop_first()) == 0);
        assert(lead_space(u1) == 1);
        assert(lead_space(u) == 2);
        assert((s + u).skip(lead_space(s + u) as int) =~= Seq::<char>::empty());
        assert(s.skip(l as int) =~= Seq::<char>::empty());
    } else {
        let t = s.skip(l as int);
        let t2 = (s + u).skip(l as int);
        assert(t2 =~= t + u);
        assert(t2.drop_last() =~= t.push('\n'));
        assert(t.push('\n').drop_last() =~= t);
        assert(t2.last() == '\n');
        assert(t.push('\n').last() == '\n');
        assert(trail_space(t.push('\n')) == trail_space(t) + 1);
        assert(trail_space(t2) == trail_space(t.push('\n')) + 1);
        assert(trail_space(t2) == trail_space(t) + 2);
        lemma_trail_space(t);
        assert(t2.take(t2.len() - trail_space(t2)) =~= t.take(t.len() - trail_space(t)));
    }
}

} // verus!
