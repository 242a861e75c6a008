//! Reduction of a URL to its bare host.
//!
//! A URL is read as an optional scheme that ends in `://`, then the host,
//! then either the end of the text or a path or query, which begins with `/`
//! or `?`. Only a scheme at the very front counts: a `://` further back
//! belongs to the path or the query. Scheme and host stand on the first line
//! of the text; a text whose host runs into a line break is no URL.

use vstd::prelude::*;

use crate::text::{chars_of, string_of};

verus! {

/// A host cannot hold `c`: a `/` or `?` begins what stands behind the host,
/// and a line break ends the line.
pub open spec fn ends_host(c: char) -> bool {
    c == '/' || c == '?' || c == '\n'
}

/// Where a host that begins at `p` stops: at the first `/`, `?` or line
/// break at or behind `p`, or at the end of the text.
pub open spec fn host_stop(s: Seq<char>, p: int) -> int
    decreases s.len() - p,
{
    if p < 0 || p >= s.len() {
        s.len() as int
    } else if ends_host(s[p]) {
        p
    } else {
        host_stop(s, p + 1)
    }
}

/// Where the scheme at the front of the text ends, or 0 where the text has
/// none. There is a scheme where the first `/` of the text is the first of
/// the two in a `://`, and neither `?` nor line break comes before it.
pub open spec fn scheme_end(s: Seq<char>) -> int {
    let k = host_stop(s, 0);
    if 1 <= k && k + 1 < s.len() && s[k - 1] == ':' && s[k] == '/' && s[k + 1] == '/' {
        k + 2
    } else {
        0
    }
}

/// The bare host of `s`, or `None` where `s` cannot be read as a URL: that
/// is where a line break ends the host.
pub open spec fn url_domain(s: Seq<char>) -> Option<Seq<char>> {
    let p = scheme_end(s);
    let e = host_stop(s, p);
    if e < s.len() && s[e] == '\n' {
        None
    } else {
        Some(s.subrange(p, e))
    }
}

/// A host stops at or behind its start, holds no `/`, `?` or line break,
/// and has one of them behind it unless it runs to the end.
proof fn lemma_host_stop_bounds(s: Seq<char>, p: int)
    requires
        0 <= p <= s.len(),
    ensures
        p <= host_stop(s, p) <= s.len(),
        forall|j: int| p <= j < host_stop(s, p) ==> !ends_host(s[j]),
        host_stop(s, p) < s.len() ==> ends_host(s[host_stop(s, p)]),
    decreases s.len() - p,
{
    if p < s.len() && !ends_host(s[p]) {
        lemma_host_stop_bounds(s, p + 1);
    }
}

/// In a text without `/`, `?` and line break a host runs to the end.
proof fn lemma_host_runs_to_end(d: Seq<char>, p: int)
    requires
        0 <= p <= d.len(),
        forall|i: int| 0 <= i < d.len() ==> !ends_host(d[i]),
    ensures
        host_stop(d, p) == d.len(),
    decreases d.len() - p,
{
    if p < d.len() {
        lemma_host_runs_to_end(d, p + 1);
    }
}

/// The scheme ends within the text.
proof fn lemma_scheme_end_bounds(s: Seq<char>)
    ensures
        0 <= scheme_end(s) <= s.len(),
{
    lemma_host_stop_bounds(s, 0);
}

/// A host is bare: it holds no `/`, no `?` and no line break.
pub proof fn lemma_domain_is_bare(s: Seq<char>)
    requires
        url_domain(s) is Some,
    ensures
        forall|i: int| 0 <= i < url_domain(s)->0.len() ==> !ends_host(url_domain(s)->0[i]),
{
    let p = scheme_end(s);
    lemma_scheme_end_bounds(s);
    lemma_host_stop_bounds(s, p);
    let d = url_domain(s)->0;
    assert forall|i: int| 0 <= i < d.len() implies !ends_host(d[i]) by {
        assert(d[i] == s[p + i]);
    }
}

/// A host is its own host: reading a URL twice gives what reading it once
/// gives.
pub proof fn lemma_domain_of_domain(s: Seq<char>)
    requires
        url_domain(s) is Some,
    ensures
        url_domain(url_domain(s)->0) == url_domain(s),
{
    let d = url_domain(s)->0;
    lemma_domain_is_bare(s);
    lemma_host_runs_to_end(d, 0);
    assert(d.subrange(0, d.len() as int) =~= d);
}

/// What stands behind the scheme of a URL, up to the first `/` or `?`, is
/// its host, whatever stands in the path or the query.
pub proof fn lemma_host_behind_scheme(scheme: Seq<char>, host: Seq<char>, rest: Seq<char>)
    requires
        forall|i: int| 0 <= i < scheme.len() ==> !ends_host(scheme[i]),
        forall|i: int| 0 <= i < host.len() ==> !ends_host(host[i]),
        rest.len() == 0 || rest[0] == '/' || rest[0] == '?',
    ensures
        url_domain(scheme + seq![':', '/', '/'] + host + rest) == Some(host),
{
    let n = scheme.len() as int;
    let h = host.len() as int;
    let s = scheme + seq![':', '/', '/'] + host + rest;
    lemma_host_prefix_stop(s, 0, n + 1);
    assert(scheme_end(s) == n + 3);
    lemma_host_prefix_stop(s, n + 3, n + 3 + h);
    assert(s.subrange(n + 3, n + 3 + h) =~= host);
}

/// In a URL without a scheme, what stands before the first `/` or `?` is
/// the host.
pub proof fn lemma_host_without_scheme(host: Seq<char>, rest: Seq<char>)
    requires
        forall|i: int| 0 <= i < host.len() ==> !ends_host(host[i]),
        rest.len() == 0 || rest[0] == '/' || rest[0] == '?',
        host.len() == 0 || host.last() != ':',
    ensures
        url_domain(host + rest) == Some(host),
{
    let h = host.len() as int;
    let t = host + rest;
    lemma_host_prefix_stop(t, 0, h);
    assert(scheme_end(t) == 0) by {
        if h >= 1 {
            assert(t[h - 1] == host.last());
        }
    }
    assert(t.subrange(0, h) =~= host);
}

/// A run without `/`, `?` and line break from `p` to `e`, with one of them
/// or the end of the text at `e`, is a host that stops at `e`.
proof fn lemma_host_prefix_stop(s: Seq<char>, p: int, e: int)
    requires
        0 <= p <= e <= s.len(),
        forall|j: int| p <= j < e ==> !ends_host(s[j]),
        e == s.len() || ends_host(s[e]),
    ensures
        host_stop(s, p) == e,
    decreases e - p,
{
    if p < e {
        lemma_host_prefix_stop(s, p + 1, e);
    }
}

/// Finds where a host that begins at `p` stops.
fn scan_host(v: &Vec<char>, p: usize) -> (k: usize)
    requires
        p <= v.len(),
    ensures
        k == host_stop(v@, p as int),
        p <= k <= v.len(),
{
    let mut k: usize = p;
    while k < v.len() && v[k] != '/' && v[k] != '?' && v[k] != '\n'
        invariant
            p <= k <= v.len(),
            host_stop(v@, p as int) == host_stop(v@, k as int),
        decreases v.len() - k,
    {
        k += 1;
    }
    k
}

/// Reduces a URL to its bare host: drops the scheme at the front, which
/// ends in `://`, and everything from the first `/` or `?` behind the host.
/// Returns `None` where the text cannot be read as a URL.
pub fn domain_from_url(url: &str) -> (r: Option<String>)
    ensures
        match r {
            Some(d) => url_domain(url@) == Some(d@),
            None => url_domain(url@) is None,
        },
{
    let v = chars_of(url);
    let n: usize = v.len();
    let first = scan_host(&v, 0);
    let start: usize = if first >= 1 && n - first >= 2 && v[first - 1] == ':' && v[first] == '/'
        && v[first + 1] == '/' {
        first + 2
    } else {
        0
    };
    let stop = scan_host(&v, start);
    if stop < n && v[stop] == '\n' {
        None
    } else {
        Some(string_of(&v, start, stop))
    }
}

} // verus!
