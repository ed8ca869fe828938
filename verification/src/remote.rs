//! Reading GitHub remotes and issue references, durations, link headers,
//! and encoding URL components.
use vstd::prelude::*;

use crate::json::{digits_value, is_digit, parse_u64, parse_u64_spec};
use crate::text::{
    chars_of, find_from, has_prefix, owned, split_once, split_once_spec, starts_with, strip_prefix,
    strip_prefix_spec, str_eq, trim_end_matches, trim_end_pat,
};

verus! {

/// A GitHub repository.
#[derive(Debug, Clone, PartialEq, Eq)]
pub struct GitHubRepo {
    pub owner: String,
    pub repo: String,
}

/// A GitHub issue.
#[derive(Debug, Clone, PartialEq, Eq)]
pub struct IssueRef {
    pub owner: String,
    pub repo: String,
    pub number: u64,
}

/// The text before the first `/` of `s`, or all of it.
pub open spec fn first_segment(s: Seq<char>) -> Seq<char> {
    match split_once_spec(s, "/"@) {
        Some((a, _)) => a,
        None => s,
    }
}

/// The owner and repository a remote URL names, when it is a GitHub URL:
/// `git@github.com:owner/repo(.git)` or `<scheme>://github.com/owner/repo...`.
pub open spec fn github_url_parts(url: Seq<char>) -> Option<(Seq<char>, Seq<char>)> {
    match strip_prefix_spec(url, "git@github.com:"@) {
        Some(rest) => match split_once_spec(trim_end_pat(rest, ".git"@), "/"@) {
            Some((owner, repo)) => if owner.len() == 0 || repo.len() == 0 {
                None
            } else {
                Some((owner, repo))
            },
            None => None,
        },
        None => match split_once_spec(url, "://"@) {
            None => None,
            Some((_, rest)) => match split_once_spec(rest, "/"@) {
                None => None,
                Some((host, path)) => if host != "github.com"@ {
                    None
                } else {
                    let p = trim_end_pat(path, ".git"@);
                    let owner = first_segment(p);
                    match split_once_spec(p, "/"@) {
                        None => None,
                        Some((_, rest2)) => {
                            let repo = first_segment(rest2);
                            if owner.len() == 0 || repo.len() == 0 {
                                None
                            } else {
                                Some((owner, repo))
                            }
                        },
                    }
                },
            },
        },
    }
}

/// The GitHub repository of a remote URL.
pub fn parse_github_url(url: &str) -> (r: Option<GitHubRepo>)
    ensures
        match r {
            Some(g) => github_url_parts(url@) == Some((g.owner@, g.repo@)),
            None => github_url_parts(url@) is None,
        },
{
    if let Some(rest) = strip_prefix(url, "git@github.com:") {
        let rest = trim_end_matches(rest.as_str(), ".git");
        let (owner, repo) = match split_once(rest.as_str(), "/") {
            Some(pair) => pair,
            None => {
                return None;
            },
        };
        if chars_of(owner.as_str()).len() == 0 || chars_of(repo.as_str()).len() == 0 {
            return None;
        }
        return Some(GitHubRepo { owner, repo });
    }
    let (_, rest) = match split_once(url, "://") {
        Some(pair) => pair,
        None => {
            return None;
        },
    };
    let (host, path) = match split_once(rest.as_str(), "/") {
        Some(pair) => pair,
        None => {
            return None;
        },
    };
    if !str_eq(host.as_str(), "github.com") {
        return None;
    }
    let path = trim_end_matches(path.as_str(), ".git");
    let owner = match split_once(path.as_str(), "/") {
        Some((a, _)) => a,
        None => path.clone(),
    };
    let rest2 = match split_once(path.as_str(), "/") {
        Some((_, b)) => b,
        None => {
            return None;
        },
    };
    let repo = match split_once(rest2.as_str(), "/") {
        Some((a, _)) => a,
        None => rest2,
    };
    if chars_of(owner.as_str()).len() == 0 || chars_of(repo.as_str()).len() == 0 {
        return None;
    }
    Some(GitHubRepo { owner, repo })
}

/// The GitHub repository of the `origin` remote, given its URL.
pub fn github_repo(remote_url: Option<&str>) -> (r: Option<GitHubRepo>)
    ensures
        match remote_url {
            None => r is None,
            Some(u) => match r {
                Some(g) => github_url_parts(u@) == Some((g.owner@, g.repo@)),
                None => github_url_parts(u@) is None,
            },
        },
{
    match remote_url {
        Some(u) => parse_github_url(u),
        None => None,
    }
}

/// The length of the run of characters at the start of `s` satisfying
/// `keep`.
pub open spec fn run_len(s: Seq<char>, no_slash: bool) -> nat
    decreases s.len(),
{
    if s.len() > 0 && (if no_slash {
        s[0] != '/'
    } else {
        is_digit(s[0])
    }) {
        1 + run_len(s.drop_first(), no_slash)
    } else {
        0
    }
}

proof fn lemma_run_len(s: Seq<char>, no_slash: bool)
    ensures
        run_len(s, no_slash) <= s.len(),
        forall|k: int| 0 <= k < run_len(s, no_slash) ==> if no_slash {
            s[k] != '/'
        } else {
            is_digit(s[k])
        },
        run_len(s, no_slash) < s.len() ==> !(if no_slash {
            s[run_len(s, no_slash) as int] != '/'
        } else {
            is_digit(s[run_len(s, no_slash) as int])
        }),
    decreases s.len(),
{
    if s.len() > 0 && (if no_slash {
        s[0] != '/'
    } else {
        is_digit(s[0])
    }) {
        lemma_run_len(s.drop_first(), no_slash);
        assert forall|k: int| 0 <= k < run_len(s, no_slash) implies if no_slash {
            s[k] != '/'
        } else {
            is_digit(s[k])
        } by {
            if k > 0 {
                assert(s[k] == s.drop_first()[k - 1]);
            }
        }
    }
}

/// The issue an issue URL `http(s)://github.com/<owner>/<repo>/issues/<n>...`
/// names: `Some(Some(..))`; `Some(None)` when it has that shape but the
/// number does not fit; `None` when it has another shape.
pub open spec fn issue_url_parts(s: Seq<char>) -> Option<Option<(Seq<char>, Seq<char>, u64)>> {
    let after_scheme = if has_prefix(s, "https://"@) {
        Some(s.skip(8))
    } else if has_prefix(s, "http://"@) {
        Some(s.skip(7))
    } else {
        None
    };
    match after_scheme {
        None => None,
        Some(a) => if !has_prefix(a, "github.com/"@) {
            None
        } else {
            let b = a.skip(11);
            let o = run_len(b, true);
            if o == 0 || o >= b.len() {
                None
            } else {
                let c = b.skip((o + 1) as int);
                let r = run_len(c, true);
                if r == 0 || r >= c.len() {
                    None
                } else {
                    let d = c.skip((r + 1) as int);
                    if !has_prefix(d, "issues/"@) {
                        None
                    } else {
                        let e = d.skip(7);
                        let n = run_len(e, false);
                        if n == 0 {
                            None
                        } else {
                            match parse_u64_spec(e.take(n as int)) {
                                Some(v) => Some(Some((b.take(o as int), c.take(r as int), v))),
                                None => Some(None),
                            }
                        }
                    }
                }
            }
        },
    }
}

/// Whether every character of `s` is an ASCII digit, and there is one.
pub open spec fn all_digits(s: Seq<char>) -> bool {
    s.len() > 0 && forall|k: int| 0 <= k < s.len() ==> is_digit(#[trigger] s[k])
}

/// The issue a short reference `<owner>/<repo>#<n>` names (as
/// `issue_url_parts`): the owner runs to the first `/`, the repository to
/// the first `#` after it, and the rest is the number.
pub open spec fn issue_short_parts(s: Seq<char>) -> Option<Option<(Seq<char>, Seq<char>, u64)>> {
    let o = run_len(s, true);
    if o == 0 || o >= s.len() {
        None
    } else {
        let rest = s.skip((o + 1) as int);
        let h = find_from(rest, "#"@, 0);
        if h <= 0 {
            None
        } else {
            let num = rest.skip(h + 1);
            if !all_digits(num) {
                None
            } else {
                match parse_u64_spec(num) {
                    Some(v) => Some(Some((s.take(o as int), rest.take(h), v))),
                    None => Some(None),
                }
            }
        }
    }
}

/// The issue a reference names: a GitHub issue URL, `owner/repo#N`, or `#N`
/// / `N` in the default repository.
pub open spec fn issue_ref_spec(s: Seq<char>, default: Option<(Seq<char>, Seq<char>)>) -> Option<(Seq<char>, Seq<char>, u64)> {
    match issue_url_parts(s) {
        Some(found) => found,
        None => match issue_short_parts(s) {
            Some(found) => found,
            None => {
                let num = if s.len() > 0 && s[0] == '#' {
                    s.skip(1)
                } else {
                    s
                };
                if !all_digits(num) {
                    None
                } else {
                    match default {
                        None => None,
                        Some((owner, repo)) => match parse_u64_spec(num) {
                            Some(v) => Some((owner, repo, v)),
                            None => None,
                        },
                    }
                }
            },
        },
    }
}

fn run_exec(x: &Vec<char>, from: usize, no_slash: bool) -> (n: usize)
    requires
        from <= x.len(),
    ensures
        n == run_len(x@.skip(from as int), no_slash),
        from + n <= x.len(),
{
    let mut i = from;
    proof {
        lemma_run_len(x@.skip(from as int), no_slash);
    }
    loop
        invariant
            from <= i <= x.len(),
            run_len(x@.skip(from as int), no_slash) == (i - from) + run_len(x@.skip(i as int), no_slash),
        ensures
            from <= i <= x.len(),
            run_len(x@.skip(from as int), no_slash) == (i - from) + run_len(x@.skip(i as int), no_slash),
            i < x.len() ==> !(if no_slash {
                x@[i as int] != '/'
            } else {
                is_digit(x@[i as int])
            }),
        decreases x.len() - i,
    {
        if i >= x.len() {
            break;
        }
        let keep = if no_slash {
            x[i] != '/'
        } else {
            '0' <= x[i] && x[i] <= '9'
        };
        if !keep {
            break;
        }
        assert(x@.skip(i as int).drop_first() =~= x@.skip(i + 1));
        i = i + 1;
    }
    proof {
        if i < x.len() {
            assert(x@.skip(i as int)[0] == x@[i as int]);
        }
    }
    i - from
}

fn slice_text(x: &Vec<char>, from: usize, to: usize) -> (r: String)
    requires
        from <= to <= x.len(),
    ensures
        r@ == x@.subrange(from as int, to as int),
{
    crate::text::string_of(&x[from..to])
}

fn parse_issue_url(x: &Vec<char>) -> (r: Option<Option<IssueRef>>)
    ensures
        match r {
            None => issue_url_parts(x@) is None,
            Some(None) => issue_url_parts(x@) == Some(None::<(Seq<char>, Seq<char>, u64)>),
            Some(Some(i)) => issue_url_parts(x@) == Some(Some((i.owner@, i.repo@, i.number))),
        },
{
    let s = crate::text::string_of(x);
    let start: usize = if starts_with(s.as_str(), "https://") {
        8
    } else if starts_with(s.as_str(), "http://") {
        7
    } else {
        return None;
    };
    proof {
        reveal_strlit("https://");
        reveal_strlit("http://");
        reveal_strlit("github.com/");
        reveal_strlit("issues/");
    }
    let a = slice_text(x, start, x.len());
    assert(a@ == x@.skip(start as int));
    if !starts_with(a.as_str(), "github.com/") {
        return None;
    }
    let b0 = start + 11;
    assert(x@.skip(b0 as int) =~= a@.skip(11));
    let o = run_exec(x, b0, true);
    if o == 0 || b0 + o >= x.len() {
        return None;
    }
    let c0 = b0 + o + 1;
    assert(x@.skip(c0 as int) =~= x@.skip(b0 as int).skip(o + 1));
    let r = run_exec(x, c0, true);
    if r == 0 || c0 + r >= x.len() {
        return None;
    }
    let d0 = c0 + r + 1;
    assert(x@.skip(d0 as int) =~= x@.skip(c0 as int).skip(r + 1));
    let d = slice_text(x, d0, x.len());
    assert(d@ == x@.skip(d0 as int));
    if !starts_with(d.as_str(), "issues/") {
        return None;
    }
    let e0 = d0 + 7;
    assert(x@.skip(e0 as int) =~= d@.skip(7));
    let n = run_exec(x, e0, false);
    if n == 0 {
        return None;
    }
    let digits = slice_text(x, e0, e0 + n);
    assert(digits@ =~= x@.skip(e0 as int).take(n as int));
    let owner = slice_text(x, b0, b0 + o);
    assert(owner@ =~= x@.skip(b0 as int).take(o as int));
    let repo = slice_text(x, c0, c0 + r);
    assert(repo@ =~= x@.skip(c0 as int).take(r as int));
    match parse_u64(digits.as_str()) {
        Some(number) => Some(Some(IssueRef { owner, repo, number })),
        None => Some(None),
    }
}

/// Whether a text is a non-empty run of ASCII digits.
fn digits_only(s: &str) -> (r: bool)
    ensures
        r == all_digits(s@),
{
    let nx = chars_of(s);
    if nx.len() == 0 {
        return false;
    }
    let mut k: usize = 0;
    while k < nx.len()
        invariant
            k <= nx.len(),
            nx@ == s@,
            forall|q: int| 0 <= q < k ==> is_digit(#[trigger] nx@[q]),
        decreases nx.len() - k,
    {
        if !('0' <= nx[k] && nx[k] <= '9') {
            assert(!is_digit(s@[k as int]));
            return false;
        }
        k = k + 1;
    }
    true
}

fn parse_issue_short(x: &Vec<char>) -> (r: Option<Option<IssueRef>>)
    ensures
        match r {
            None => issue_short_parts(x@) is None,
            Some(None) => issue_short_parts(x@) == Some(None::<(Seq<char>, Seq<char>, u64)>),
            Some(Some(i)) => issue_short_parts(x@) == Some(Some((i.owner@, i.repo@, i.number))),
        },
{
    let o = run_exec(x, 0, true);
    assert(x@.skip(0) =~= x@);
    if o == 0 || o >= x.len() {
        return None;
    }
    let rest = slice_text(x, o + 1, x.len());
    assert(rest@ =~= x@.skip(o + 1));
    let rx = chars_of(rest.as_str());
    let hash = ['#'];
    let h = match crate::text::find_in(&rx, &hash, 0) {
        None => {
            assert(hash@ =~= "#"@) by {
                reveal_strlit("#");
            }
            return None;
        },
        Some(h) => h,
    };
    assert(hash@ =~= "#"@) by {
        reveal_strlit("#");
    }
    proof {
        crate::text::lemma_find_from(rx@, hash@, 0);
    }
    if h == 0 {
        return None;
    }
    let num = slice_text(&rx, h + 1, rx.len());
    assert(num@ =~= rest@.skip(h + 1));
    if !digits_only(num.as_str()) {
        return None;
    }
    let owner = slice_text(x, 0, o);
    assert(owner@ =~= x@.take(o as int));
    let repo = slice_text(&rx, 0, h);
    assert(repo@ =~= rest@.take(h as int));
    match parse_u64(num.as_str()) {
        Some(number) => Some(Some(IssueRef { owner, repo, number })),
        None => Some(None),
    }
}

/// The issue a reference names: a GitHub issue URL (anything may follow the
/// number), `owner/repo#N`, or `#N` / `N` in `default_repo`. A number that
/// does not fit in 64 bits names nothing.
pub fn parse_issue_ref(reference: &str, default_repo: Option<&GitHubRepo>) -> (r: Option<IssueRef>)
    ensures
        match r {
            Some(i) => issue_ref_spec(
                reference@,
                match default_repo {
                    Some(g) => Some((g.owner@, g.repo@)),
                    None => None,
                },
            ) == Some((i.owner@, i.repo@, i.number)),
            None => issue_ref_spec(
                reference@,
                match default_repo {
                    Some(g) => Some((g.owner@, g.repo@)),
                    None => None,
                },
            ) is None,
        },
{
    let x = chars_of(reference);
    match parse_issue_url(&x) {
        Some(found) => {
            return found;
        },
        None => {},
    }
    match parse_issue_short(&x) {
        Some(found) => {
            return found;
        },
        None => {},
    }
    let start: usize = if x.len() > 0 && x[0] == '#' {
        1
    } else {
        0
    };
    let num = slice_text(&x, start, x.len());
    assert(num@ =~= if x@.len() > 0 && x@[0] == '#' {
        x@.skip(1)
    } else {
        x@
    });
    if !digits_only(num.as_str()) {
        return None;
    }
    let repo = match default_repo {
        Some(g) => g,
        None => {
            return None;
        },
    };
    match parse_u64(num.as_str()) {
        Some(number) => Some(IssueRef { owner: repo.owner.clone(), repo: repo.repo.clone(), number }),
        None => None,
    }
}

} // verus!
