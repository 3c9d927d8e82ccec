//! Character classes and prefix scanners for the RFC 5321 address grammar.
//!
//! A scanner gives the length of the longest instance of a production at the
//! start of a text, or 0 where there is none. Every production is made of ASCII
//! characters, so the length of a match is the same in characters and in
//! bytes.

use vstd::prelude::*;
use vstd::string::*;
use vstd::utf8::is_ascii_chars;
use crate::grammar::{
    is_at_domain, is_atom, is_domain, is_dot_string, is_ldh, is_longest_match, is_quoted_content,
    is_quoted_string, is_source_route, is_source_route_from, is_subdomain,
    lemma_longest_match_unique, lemma_quoted_content_boundary, lemma_quoted_content_concat,
    lemma_quoted_content_printable, lemma_quoted_content_token, lemma_source_route_step,
    lemma_whole_match, longest_match, Production,
};
use crate::text::{ascii_upto, is_ascii_char, lemma_ascii_upto_all, push_char_at, Text};

verus! {

/// The `atext` character class of RFC 5322: letters, digits and
/// ``!#$%&'*+-/=?^_`{|}~``.
pub open spec fn spec_is_atext(c: char) -> bool {
    ||| spec_is_alnum(c)
    ||| c == '!' || c == '#' || c == '$' || c == '%' || c == '&' || c == '\''
    ||| c == '*' || c == '+' || c == '-' || c == '/' || c == '=' || c == '?'
    ||| c == '^' || c == '_' || c == '`' || c == '{' || c == '|' || c == '}' || c == '~'
}

/// Checks whether a character is valid `atext`.
#[verifier::when_used_as_spec(spec_is_atext)]
pub fn is_atext(c: char) -> (b: bool)
    ensures
        b == spec_is_atext(c),
{
    match c {
        '!' | '#' | '$' | '%' | '&' | '\'' | '*' | '+' | '-' | '/' | '=' | '?' | '^' | '_' | '`'
        | '{' | '|' | '}' | '~' => true,
        'A'..='Z' | 'a'..='z' | '0'..='9' => true,
        _ => false,
    }
}

/// A letter or digit of 7-bit ASCII.
pub open spec fn spec_is_alnum(c: char) -> bool {
    ||| 'A' <= c <= 'Z'
    ||| 'a' <= c <= 'z'
    ||| '0' <= c <= '9'
}

/// Checks if a character is alphanumeric 7-bit ASCII.
#[verifier::when_used_as_spec(spec_is_alnum)]
pub fn is_alnum(c: char) -> (b: bool)
    ensures
        b == spec_is_alnum(c),
{
    match c {
        'A'..='Z' | 'a'..='z' | '0'..='9' => true,
        _ => false,
    }
}

/// The `qtextSMTP` character class of RFC 5321: the printable characters and
/// the space, without `"` and `\`. These are the code points 32 to 33, 35 to
/// 91 and 93 to 126.
pub open spec fn spec_is_qtext_smtp(c: char) -> bool {
    ||| ' ' <= c <= '!'
    ||| '#' <= c <= '['
    ||| ']' <= c <= '~'
}

/// Checks whether a character is valid `qtextSMTP`.
#[verifier::when_used_as_spec(spec_is_qtext_smtp)]
pub fn is_qtext_smtp(c: char) -> (b: bool)
    ensures
        b == spec_is_qtext_smtp(c),
{
    match c {
        ' '..='!' | '#'..='[' | ']'..='~' => true,
        _ => false,
    }
}

/// `quoted-pairSMTP` of RFC 5321: a backslash (code point 92) and then a
/// printable character or a space (code points 32 to 126).
pub open spec fn spec_is_quoted_pair_smtp(c1: char, c2: char) -> bool {
    c1 == '\\' && ' ' <= c2 <= '~'
}

/// Checks if a pair of characters is a `quoted-pairSMTP`.
#[verifier::when_used_as_spec(spec_is_quoted_pair_smtp)]
pub fn is_quoted_pair_smtp(c1: char, c2: char) -> (b: bool)
    ensures
        b == spec_is_quoted_pair_smtp(c1, c2),
{
    c1 == '\\' && match c2 {
        ' '..='~' => true,
        _ => false,
    }
}

/// Scans an atom from position `start` of the text.
pub fn scan_atom(t: &Text, start: usize) -> (n: usize)
    requires
        t.wf(),
        ascii_upto(t@, start as int),
    ensures
        start + n <= t@.len(),
        ascii_upto(t@, start + n),
        n == longest_match(Production::Atom, t@.skip(start as int)),
        forall|j: int| start <= j < start + n ==> spec_is_atext(#[trigger] t@[j]),
        start + n < t@.len() ==> !spec_is_atext(t@[start + n]),
{
    proof {
        t.lemma_bounded();
    }
    let mut n: usize = 0;
    loop
        invariant
            t.wf(),
            t@.len() <= usize::MAX,
            start + n <= t@.len(),
            ascii_upto(t@, start + n),
            forall|j: int| start <= j < start + n ==> spec_is_atext(#[trigger] t@[j]),
        ensures
            start + n < t@.len() ==> !spec_is_atext(t@[start + n]),
        decreases t@.len() - n,
    {
        if t.at_end(start + n) {
            break;
        }
        let c = t.get(start + n);
        if !is_atext(c) {
            break;
        }
        n += 1;
    }
    proof {
        let r = t@.skip(start as int);
        assert forall|m: int| n < m <= r.len() implies !is_atom(#[trigger] r.take(m)) by {
            assert(r.take(m)[n as int] == t@[start + n]);
        }
        if n > 0 {
            assert forall|i: int| 0 <= i < n implies spec_is_atext(#[trigger] r.take(n as int)[i]) by {
                assert(r.take(n as int)[i] == t@[start + i]);
            }
        }
        assert(is_longest_match(Production::Atom, r, n as int));
        lemma_longest_match_unique(Production::Atom, r, n as int);
    }
    n
}

/// Extending a dot-string by a dot and an atom gives a dot-string.
proof fn lemma_dot_string_extend(r: Seq<char>, n: int, k: int)
    requires
        0 < n,
        0 < k,
        n + 1 + k <= r.len(),
        is_dot_string(r.take(n)),
        r[n] == '.',
        forall|j: int| n + 1 <= j < n + 1 + k ==> spec_is_atext(#[trigger] r[j]),
    ensures
        is_dot_string(r.take(n + 1 + k)),
{
    let old_t = r.take(n);
    let new_t = r.take(n + 1 + k);
    assert(old_t[0] == r[0]);
    assert(old_t.last() == r[n - 1]);
    assert forall|i: int| 0 <= i < new_t.len() implies spec_is_atext(#[trigger] new_t[i]) || (
    new_t[i] == '.' && 0 < i < new_t.len() - 1 && spec_is_atext(new_t[i - 1]) && spec_is_atext(
        new_t[i + 1],
    )) by {
        if i < n {
            assert(old_t[i] == r[i]);
            if !spec_is_atext(old_t[i]) {
                assert(old_t[i - 1] == r[i - 1]);
                assert(old_t[i + 1] == r[i + 1]);
            }
        }
    }
}

/// Scans a dot-string from position `start` of the text.
pub fn scan_dot_string(t: &Text, start: usize) -> (n: usize)
    requires
        t.wf(),
        ascii_upto(t@, start as int),
    ensures
        start + n <= t@.len(),
        ascii_upto(t@, start + n),
        n == longest_match(Production::DotString, t@.skip(start as int)),
{
    let ghost r = t@.skip(start as int);
    proof {
        t.lemma_bounded();
    }
    let first = scan_atom(t, start);
    if first == 0 {
        proof {
            assert forall|m: int| 0 < m <= r.len() implies !is_dot_string(#[trigger] r.take(m)) by {
                assert(r.take(m)[0] == t@[start as int]);
            }
            lemma_longest_match_unique(Production::DotString, r, 0);
        }
        return 0;
    }
    let mut n: usize = first;
    proof {
        let u = r.take(n as int);
        assert forall|i: int| 0 <= i < u.len() implies spec_is_atext(#[trigger] u[i]) by {
            assert(u[i] == t@[start + i]);
        }
        assert(u[0] == t@[start as int]);
        assert(u.last() == t@[start + n - 1]);
    }
    loop
        invariant
            t.wf(),
            t@.len() <= usize::MAX,
            r == t@.skip(start as int),
            0 < n,
            start + n <= t@.len(),
            ascii_upto(t@, start + n),
            is_dot_string(r.take(n as int)),
            start + n < t@.len() && t@[start + n] != '.' ==> !spec_is_atext(t@[start + n]),
        ensures
            start + n < t@.len() && t@[start + n] == '.' ==> (start + n + 1 == t@.len()
                || !spec_is_atext(t@[start + n + 1])),
        decreases t@.len() - n,
    {
        if t.at_end(start + n) {
            break;
        }
        let c = t.get(start + n);
        if c != '.' {
            break;
        }
        let k = scan_atom(t, start + n + 1);
        if k == 0 {
            break;
        }
        proof {
            assert forall|j: int| n + 1 <= j < n + 1 + k implies spec_is_atext(#[trigger] r[j]) by {
                assert(r[j] == t@[start + j]);
            }
            lemma_dot_string_extend(r, n as int, k as int);
        }
        n = n + 1 + k;
    }
    proof {
        assert forall|m: int| n < m <= r.len() implies !is_dot_string(#[trigger] r.take(m)) by {
            let u = r.take(m);
            assert(u[n as int] == t@[start + n]);
            if is_dot_string(u) {
                assert(!spec_is_atext(u[n as int]));
                assert(u[n + 1] == t@[start + n + 1]);
            }
        }
        lemma_longest_match_unique(Production::DotString, r, n as int);
    }
    n
}

/// Scans a subdomain from position `start` of the text. Returns its length
/// and the position where the scan stopped, which lies behind the hyphens that
/// follow the subdomain.
pub fn scan_subdomain(t: &Text, start: usize) -> (res: (usize, usize))
    requires
        t.wf(),
        ascii_upto(t@, start as int),
    ensures
        start + res.0 <= res.1 <= t@.len(),
        ascii_upto(t@, res.1 as int),
        res.0 == longest_match(Production::Subdomain, t@.skip(start as int)),
        res.0 == 0 ==> start == t@.len() || !spec_is_alnum(t@[start as int]),
        res.0 > 0 ==> is_subdomain(t@.skip(start as int).take(res.0 as int)),
        forall|j: int| start + res.0 <= j < res.1 ==> #[trigger] t@[j] == '-',
        res.0 > 0 && res.1 < t@.len() ==> !is_ldh(t@[res.1 as int]),
{
    let ghost r = t@.skip(start as int);
    proof {
        t.lemma_bounded();
    }
    if t.at_end(start) || !is_alnum(t.get(start)) {
        proof {
            assert forall|m: int| 0 < m <= r.len() implies !is_subdomain(#[trigger] r.take(m)) by {
                assert(r.take(m)[0] == t@[start as int]);
            }
            lemma_longest_match_unique(Production::Subdomain, r, 0);
        }
        return (0, start);
    }
    let mut i: usize = start + 1;
    let mut confirmed: usize = start + 1;
    loop
        invariant
            t.wf(),
            t@.len() <= usize::MAX,
            start < confirmed <= i <= t@.len(),
            ascii_upto(t@, i as int),
            spec_is_alnum(t@[start as int]),
            spec_is_alnum(t@[confirmed - 1]),
            forall|j: int| start <= j < i ==> is_ldh(#[trigger] t@[j]),
            forall|j: int| confirmed <= j < i ==> #[trigger] t@[j] == '-',
        ensures
            i < t@.len() ==> !is_ldh(t@[i as int]),
        decreases t@.len() - i,
    {
        if t.at_end(i) {
            break;
        }
        let c = t.get(i);
        if is_alnum(c) {
            i += 1;
            confirmed = i;
        } else if c == '-' {
            i += 1;
        } else {
            break;
        }
    }
    let n = confirmed - start;
    proof {
        let u = r.take(n as int);
        assert(u[0] == t@[start as int]);
        assert(u.last() == t@[confirmed - 1]);
        assert forall|k: int| 0 <= k < u.len() implies is_ldh(#[trigger] u[k]) by {
            assert(u[k] == t@[start + k]);
        }
        assert forall|m: int| n < m <= r.len() implies !is_subdomain(#[trigger] r.take(m)) by {
            let v = r.take(m);
            if start + m <= i {
                assert(v.last() == t@[start + m - 1]);
            } else {
                assert(v[i - start] == t@[i as int]);
            }
        }
        lemma_longest_match_unique(Production::Subdomain, r, n as int);
    }
    (n, i)
}

/// Extending a domain by a dot and a subdomain gives a domain.
proof fn lemma_domain_extend(r: Seq<char>, n: int, k: int)
    requires
        0 < n,
        0 < k,
        n + 1 + k <= r.len(),
        is_domain(r.take(n)),
        r[n] == '.',
        is_subdomain(r.skip(n + 1).take(k)),
    ensures
        is_domain(r.take(n + 1 + k)),
{
    let old_t = r.take(n);
    let sub = r.skip(n + 1).take(k);
    let new_t = r.take(n + 1 + k);
    assert(old_t[0] == r[0]);
    assert(old_t.last() == r[n - 1]);
    assert(sub[0] == r[n + 1]);
    assert(sub.last() == r[n + k]);
    assert forall|i: int| 0 <= i < new_t.len() implies is_ldh(#[trigger] new_t[i]) || (new_t[i]
        == '.' && 0 < i < new_t.len() - 1 && spec_is_alnum(new_t[i - 1]) && spec_is_alnum(
        new_t[i + 1],
    )) by {
        if i < n {
            assert(old_t[i] == r[i]);
            if !is_ldh(old_t[i]) {
                assert(old_t[i - 1] == r[i - 1]);
                assert(old_t[i + 1] == r[i + 1]);
            }
        } else if i > n {
            assert(sub[i - n - 1] == r[i]);
        }
    }
}

/// A subdomain is a domain.
proof fn lemma_subdomain_is_domain(u: Seq<char>)
    requires
        is_subdomain(u),
    ensures
        is_domain(u),
{
}

/// Scans a domain from position `start` of the text.
pub fn scan_domain(t: &Text, start: usize) -> (n: usize)
    requires
        t.wf(),
        ascii_upto(t@, start as int),
    ensures
        start + n <= t@.len(),
        ascii_upto(t@, start + n),
        n == longest_match(Production::Domain, t@.skip(start as int)),
{
    let ghost r = t@.skip(start as int);
    proof {
        t.lemma_bounded();
    }
    let (first, stop) = scan_subdomain(t, start);
    if first == 0 {
        proof {
            assert forall|m: int| 0 < m <= r.len() implies !is_domain(#[trigger] r.take(m)) by {
                assert(r.take(m)[0] == t@[start as int]);
            }
            lemma_longest_match_unique(Production::Domain, r, 0);
        }
        return 0;
    }
    let mut n: usize = first;
    let ghost mut e: int = stop as int;
    proof {
        lemma_subdomain_is_domain(r.take(n as int));
    }
    loop
        invariant
            t.wf(),
            t@.len() <= usize::MAX,
            r == t@.skip(start as int),
            0 < n,
            start + n <= e <= t@.len(),
            ascii_upto(t@, start + n),
            is_domain(r.take(n as int)),
            forall|j: int| start + n <= j < e ==> #[trigger] t@[j] == '-',
            e < t@.len() ==> !is_ldh(t@[e]),
        ensures
            start + n < t@.len() && t@[start + n] == '.' ==> (start + n + 1 == t@.len()
                || !spec_is_alnum(t@[start + n + 1])),
        decreases t@.len() - n,
    {
        if t.at_end(start + n) {
            break;
        }
        let c = t.get(start + n);
        if c != '.' {
            break;
        }
        let (k, stop) = scan_subdomain(t, start + n + 1);
        if k == 0 {
            break;
        }
        proof {
            assert(r.skip(n + 1) == t@.skip(start + n + 1));
            lemma_domain_extend(r, n as int, k as int);
            e = stop as int;
        }
        n = n + 1 + k;
    }
    proof {
        assert forall|m: int| n < m <= r.len() implies !is_domain(#[trigger] r.take(m)) by {
            let u = r.take(m);
            assert(u[n as int] == t@[start + n]);
            if is_domain(u) {
                if t@[start + n] == '.' {
                    assert(u[n + 1] == t@[start + n + 1]);
                } else if start + m <= e {
                    assert(u.last() == t@[start + m - 1]);
                } else {
                    assert(u[e - start] == t@[e]);
                    if e > start + n {
                        assert(u[e - start - 1] == t@[e - 1]);
                    }
                }
            }
        }
        lemma_longest_match_unique(Production::Domain, r, n as int);
    }
    n
}

/// Scans a quoted string from position `start` of the text.
pub fn scan_quoted_string(t: &Text, start: usize) -> (n: usize)
    requires
        t.wf(),
        ascii_upto(t@, start as int),
    ensures
        start + n <= t@.len(),
        ascii_upto(t@, start + n),
        n == longest_match(Production::QuotedString, t@.skip(start as int)),
{
    let ghost r = t@.skip(start as int);
    proof {
        t.lemma_bounded();
    }
    if t.at_end(start) || t.get(start) != '"' {
        proof {
            assert forall|m: int| 0 < m <= r.len() implies !is_quoted_string(
                #[trigger] r.take(m),
            ) by {
                assert(r.take(m)[0] == t@[start as int]);
            }
            lemma_longest_match_unique(Production::QuotedString, r, 0);
        }
        return 0;
    }
    let ghost x = r.skip(1);
    let mut i: usize = start + 1;
    proof {
        assert(x.take(0).len() == 0);
    }
    loop
        invariant
            t.wf(),
            t@.len() <= usize::MAX,
            r == t@.skip(start as int),
            x == r.skip(1),
            start < i <= t@.len(),
            ascii_upto(t@, i as int),
            t@[start as int] == '"',
            is_quoted_content(x.take(i - start - 1)),
        ensures
            i < t@.len() ==> !spec_is_qtext_smtp(t@[i as int]),
            i + 1 < t@.len() ==> !spec_is_quoted_pair_smtp(t@[i as int], t@[i + 1]),
        decreases t@.len() - i,
    {
        if t.at_end(i) {
            break;
        }
        let c = t.get(i);
        let ghost g = i - start - 1;
        if is_qtext_smtp(c) {
            proof {
                let tok = seq![x[g]];
                lemma_quoted_content_token(tok);
                lemma_quoted_content_concat(x.take(g), tok);
                assert(x.take(g + 1) == x.take(g) + tok);
            }
            i += 1;
        } else if c == '\\' {
            if t.at_end(i + 1) {
                break;
            }
            let d = t.get(i + 1);
            if !is_quoted_pair_smtp(c, d) {
                break;
            }
            proof {
                let tok = seq![x[g], x[g + 1]];
                lemma_quoted_content_token(tok);
                lemma_quoted_content_concat(x.take(g), tok);
                assert(x.take(g + 2) == x.take(g) + tok);
            }
            i += 2;
        } else {
            break;
        }
    }
    let closed = !t.at_end(i) && t.get(i) == '"';
    let n: usize = if closed {
        i - start + 1
    } else {
        0
    };
    proof {
        let g = i - start - 1;
        assert forall|m: int| 0 < m <= r.len() && m != g + 2 implies !is_quoted_string(
            #[trigger] r.take(m),
        ) by {
            let u = r.take(m);
            if is_quoted_string(u) {
                let a = m - 2;
                assert(u.subrange(1, m - 1) == x.take(a));
                assert(u.last() == x[a]);
                if a < g {
                    lemma_quoted_content_boundary(x, a, g);
                } else {
                    lemma_quoted_content_boundary(x, g, a);
                    assert(x[g] == t@[i as int]);
                    assert(x[g + 1] == t@[i + 1]);
                }
            }
        }
        if closed {
            let u = r.take(n as int);
            assert(u.subrange(1, n - 1) == x.take(g));
            assert(u[0] == t@[start as int]);
            assert(u.last() == t@[i as int]);
        } else {
            assert forall|m: int| 0 < m <= r.len() && m == g + 2 implies !is_quoted_string(
                #[trigger] r.take(m),
            ) by {
                assert(r.take(m).last() == t@[i as int]);
            }
        }
        lemma_longest_match_unique(Production::QuotedString, r, n as int);
    }
    n
}

/// Scans an at-domain from position `start` of the text.
pub fn scan_at_domain(t: &Text, start: usize) -> (n: usize)
    requires
        t.wf(),
        ascii_upto(t@, start as int),
    ensures
        start + n <= t@.len(),
        ascii_upto(t@, start + n),
        n == longest_match(Production::AtDomain, t@.skip(start as int)),
{
    let ghost r = t@.skip(start as int);
    proof {
        t.lemma_bounded();
    }
    if t.at_end(start) || t.get(start) != '@' {
        proof {
            assert forall|m: int| 0 < m <= r.len() implies !is_at_domain(#[trigger] r.take(m)) by {
                assert(r.take(m)[0] == t@[start as int]);
            }
            lemma_longest_match_unique(Production::AtDomain, r, 0);
        }
        return 0;
    }
    let k = scan_domain(t, start + 1);
    let n: usize = if k > 0 {
        k + 1
    } else {
        0
    };
    proof {
        let x = r.skip(1);
        assert(x == t@.skip(start + 1));
        lemma_longest_match_unique(Production::Domain, x, k as int);
        assert forall|m: int| n < m <= r.len() implies !is_at_domain(#[trigger] r.take(m)) by {
            assert(r.take(m).skip(1) == x.take(m - 1));
            if m == 1 {
                assert(!is_domain(x.take(0)));
            }
        }
        if k > 0 {
            assert(r.take(n as int).skip(1) == x.take(k as int));
            assert(r.take(n as int)[0] == t@[start as int]);
        }
        lemma_longest_match_unique(Production::AtDomain, r, n as int);
    }
    n
}

/// Scans a source route from position `start` of the text.
pub fn scan_source_route(t: &Text, start: usize) -> (n: usize)
    requires
        t.wf(),
        ascii_upto(t@, start as int),
    ensures
        start + n <= t@.len(),
        ascii_upto(t@, start + n),
        n == longest_match(Production::SourceRoute, t@.skip(start as int)),
{
    let ghost r = t@.skip(start as int);
    proof {
        t.lemma_bounded();
    }
    let mut pos: usize = start;
    proof {
        assert forall|m: int| 0 < m <= r.len() implies (is_source_route(#[trigger] r.take(m))
            <==> is_source_route_from(r, 0, m)) by {
            assert(r.skip(0) == r);
        }
    }
    loop
        invariant
            t.wf(),
            t@.len() <= usize::MAX,
            r == t@.skip(start as int),
            start <= pos <= t@.len(),
            ascii_upto(t@, pos as int),
            forall|m: int|
                0 < m <= r.len() ==> (is_source_route(#[trigger] r.take(m))
                    <==> is_source_route_from(r, pos - start, m)),
        decreases t@.len() - pos,
    {
        let ghost p = pos - start;
        let ghost x = r.skip(p);
        assert(x == t@.skip(pos as int));
        let k = scan_at_domain(t, pos);
        if k == 0 {
            let alone = pos == start && !t.at_end(pos) && t.get(pos) == ':';
            let n: usize = if alone {
                1
            } else {
                0
            };
            proof {
                assert forall|m: int| n < m <= r.len() implies !is_source_route(
                    #[trigger] r.take(m),
                ) by {
                    if m - p > 1 {
                        lemma_source_route_step(x, 0, m - p);
                    } else if m - p == 1 {
                        assert(x.take(1).last() == t@[pos as int]);
                    }
                }
                if alone {
                    assert(r.take(1).last() == t@[pos as int]);
                }
                lemma_longest_match_unique(Production::SourceRoute, r, n as int);
            }
            return n;
        }
        let q = pos + k;
        let c = if t.at_end(q) {
            ' '
        } else {
            t.get(q)
        };
        if c == ':' {
            let n = q - start + 1;
            proof {
                assert forall|m: int| 0 < m <= r.len() implies (is_source_route(
                    #[trigger] r.take(m),
                ) <==> m == n) by {
                    if m - p > 1 {
                        lemma_source_route_step(x, k as int, m - p);
                        assert(x[k as int] == t@[q as int]);
                    } else if m - p == 1 {
                        assert(x.take(1).last() == t@[pos as int]);
                        lemma_longest_match_unique(Production::AtDomain, x, k as int);
                        assert(x.take(k as int)[0] == x[0]);
                    }
                }
                lemma_longest_match_unique(Production::SourceRoute, r, n as int);
            }
            return n;
        }
        if c != ',' {
            proof {
                assert forall|m: int| 0 < m <= r.len() implies !is_source_route(
                    #[trigger] r.take(m),
                ) by {
                    if m - p > 1 {
                        lemma_source_route_step(x, k as int, m - p);
                        if q < t@.len() {
                            assert(x[k as int] == t@[q as int]);
                        }
                    } else if m - p == 1 {
                        assert(x.take(1).last() == t@[pos as int]);
                        lemma_longest_match_unique(Production::AtDomain, x, k as int);
                        assert(x.take(k as int)[0] == x[0]);
                    }
                }
                lemma_longest_match_unique(Production::SourceRoute, r, 0);
            }
            return 0;
        }
        proof {
            assert forall|m: int| 0 < m <= r.len() implies (is_source_route(#[trigger] r.take(m))
                <==> is_source_route_from(r, q + 1 - start, m)) by {
                if m - p > 1 {
                    lemma_source_route_step(x, k as int, m - p);
                    assert(x[k as int] == t@[q as int]);
                    assert(x.skip(k + 1) == r.skip(q + 1 - start));
                } else if m - p == 1 {
                    assert(x.take(1).last() == t@[pos as int]);
                    lemma_longest_match_unique(Production::AtDomain, x, k as int);
                    assert(x.take(k as int)[0] == x[0]);
                }
            }
        }
        pos = q + 1;
    }
}

/// Returns the length of the longest atom found at the beginning of the
/// passed string, or 0 where there is none.
pub fn get_atom_len(s: &str) -> (n: usize)
    ensures
        n == longest_match(Production::Atom, s@),
        n <= s@.len(),
        ascii_upto(s@, n as int),
{
    let t = Text::new(s);
    assert(s@.skip(0) == s@);
    scan_atom(&t, 0)
}

/// Returns the length of the longest dot-string found at the beginning of
/// the passed string, or 0 where there is none.
pub fn get_dot_string_len(s: &str) -> (n: usize)
    ensures
        n == longest_match(Production::DotString, s@),
        n <= s@.len(),
        ascii_upto(s@, n as int),
{
    let t = Text::new(s);
    assert(s@.skip(0) == s@);
    scan_dot_string(&t, 0)
}

/// Returns the length of the longest subdomain found at the beginning of
/// the passed string, or 0 where there is none.
pub fn get_subdomain_len(s: &str) -> (n: usize)
    ensures
        n == longest_match(Production::Subdomain, s@),
        n <= s@.len(),
        ascii_upto(s@, n as int),
{
    let t = Text::new(s);
    assert(s@.skip(0) == s@);
    scan_subdomain(&t, 0).0
}

/// Returns the length of the longest domain found at the beginning of the
/// passed string, or 0 where there is none.
pub fn get_domain_len(s: &str) -> (n: usize)
    ensures
        n == longest_match(Production::Domain, s@),
        n <= s@.len(),
        ascii_upto(s@, n as int),
{
    let t = Text::new(s);
    assert(s@.skip(0) == s@);
    scan_domain(&t, 0)
}

/// Returns the length of the longest quoted-string found at the beginning of
/// the passed string, or 0 where there is none. The length includes the
/// quotes and the escaping backslashes.
pub fn get_quoted_string_len(s: &str) -> (n: usize)
    ensures
        n == longest_match(Production::QuotedString, s@),
        n <= s@.len(),
        ascii_upto(s@, n as int),
{
    let t = Text::new(s);
    assert(s@.skip(0) == s@);
    scan_quoted_string(&t, 0)
}

/// Returns the length of the longest at-domain found at the beginning of
/// the passed string, or 0 where there is none.
pub fn get_at_domain_len(s: &str) -> (n: usize)
    ensures
        n == longest_match(Production::AtDomain, s@),
        n <= s@.len(),
        ascii_upto(s@, n as int),
{
    let t = Text::new(s);
    assert(s@.skip(0) == s@);
    scan_at_domain(&t, 0)
}

/// Returns the length of the source route found at the beginning of the
/// passed string, or 0 where there is none.
pub fn get_source_route_len(s: &str) -> (n: usize)
    ensures
        n == longest_match(Production::SourceRoute, s@),
        n <= s@.len(),
        ascii_upto(s@, n as int),
{
    let t = Text::new(s);
    assert(s@.skip(0) == s@);
    scan_source_route(&t, 0)
}

/// The text that quoted content stands for: every quoted pair gives its
/// second character, every other character gives itself.
pub open spec fn unescaped(x: Seq<char>) -> Seq<char>
    decreases x.len(),
{
    if x.len() == 0 {
        Seq::empty()
    } else if x[0] == '\\' && x.len() >= 2 {
        seq![x[1]] + unescaped(x.skip(2))
    } else {
        seq![x[0]] + unescaped(x.skip(1))
    }
}

/// Quoted content with the escapes that it needs and no others: a quoted
/// pair stays where it escapes a `"` or a `\`, and gives its second character
/// elsewhere.
pub open spec fn minimally_escaped(x: Seq<char>) -> Seq<char>
    decreases x.len(),
{
    if x.len() == 0 {
        Seq::empty()
    } else if x[0] == '\\' && x.len() >= 2 {
        if x[1] == '"' || x[1] == '\\' {
            seq![x[0], x[1]] + minimally_escaped(x.skip(2))
        } else {
            seq![x[1]] + minimally_escaped(x.skip(2))
        }
    } else {
        seq![x[0]] + minimally_escaped(x.skip(1))
    }
}

/// The simplest text for the quoted string with content `x`: what the content
/// stands for where that is a dot-string or empty, and else the quoted string
/// with the escapes that it needs.
pub open spec fn simplified(x: Seq<char>) -> Seq<char> {
    let u = unescaped(x);
    if longest_match(Production::DotString, u) == u.len() {
        u
    } else {
        seq!['"'] + minimally_escaped(x) + seq!['"']
    }
}

/// The content of a quoted string: what stands between its quotes.
pub open spec fn quoted_content(s: Seq<char>) -> Seq<char> {
    s.subrange(1, s.len() - 1)
}

/// Quoted content with the escapes that it needs is quoted content, and
/// stands for the same text.
pub proof fn lemma_minimally_escaped(x: Seq<char>)
    requires
        is_quoted_content(x),
    ensures
        is_quoted_content(minimally_escaped(x)),
        unescaped(minimally_escaped(x)) == unescaped(x),
    decreases x.len(),
{
    if x.len() == 0 {
    } else if x[0] == '\\' {
        let rest = x.skip(2);
        let m = minimally_escaped(rest);
        lemma_minimally_escaped(rest);
        if x[1] == '"' || x[1] == '\\' {
            let tok = seq![x[0], x[1]];
            lemma_quoted_content_token(tok);
            lemma_quoted_content_concat(tok, m);
            assert((tok + m).skip(2) == m);
        } else {
            let tok = seq![x[1]];
            lemma_quoted_content_token(tok);
            lemma_quoted_content_concat(tok, m);
            assert((tok + m).skip(1) == m);
        }
    } else {
        let rest = x.skip(1);
        let m = minimally_escaped(rest);
        lemma_minimally_escaped(rest);
        let tok = seq![x[0]];
        lemma_quoted_content_token(tok);
        lemma_quoted_content_concat(tok, m);
        assert((tok + m).skip(1) == m);
    }
}

/// What simplifying gives is empty, or a dot-string, or a quoted string. It
/// stands for the same text as the quoted string that was simplified: a
/// dot-string is that text, and a quoted string has it as its content.
pub proof fn lemma_simplified(x: Seq<char>)
    requires
        is_quoted_content(x),
    ensures
        ({
            let r = simplified(x);
            ||| r == unescaped(x) && (r.len() == 0 || is_dot_string(r))
            ||| is_quoted_string(r) && unescaped(quoted_content(r)) == unescaped(x)
        }),
{
    let u = unescaped(x);
    let r = simplified(x);
    if longest_match(Production::DotString, u) == u.len() {
        lemma_whole_match(Production::DotString, u);
    } else {
        lemma_minimally_escaped(x);
        assert(quoted_content(r) == minimally_escaped(x));
    }
}

/// A quoted string is ASCII, and so is the text that it stands for.
proof fn lemma_quoted_string_ascii(s: Seq<char>)
    requires
        is_quoted_string(s),
    ensures
        is_ascii_chars(s),
        ascii_upto(s, s.len() as int),
{
    let x = quoted_content(s);
    lemma_quoted_content_printable(x);
    assert forall|i: int| 0 <= i < s.len() implies is_ascii_char(#[trigger] s[i]) by {
        if 0 < i < s.len() - 1 {
            assert(s[i] == x[i - 1]);
        }
    }
    lemma_ascii_upto_all(s);
}

/// The text that quoted content stands for is ASCII.
proof fn lemma_unescaped_ascii(x: Seq<char>)
    requires
        is_quoted_content(x),
    ensures
        ascii_upto(unescaped(x), unescaped(x).len() as int),
    decreases x.len(),
{
    if x.len() == 0 {
    } else if x[0] == '\\' && x.len() >= 2 {
        lemma_unescaped_ascii(x.skip(2));
    } else {
        lemma_unescaped_ascii(x.skip(1));
    }
}

/// Returns the text that a quoted string stands for, without its quotes and
/// with every escape resolved.
pub fn unescape_quoted_string(s: &str) -> (out: String)
    requires
        is_quoted_string(s@),
    ensures
        out@ == unescaped(quoted_content(s@)),
{
    let ghost x = quoted_content(s@);
    proof {
        lemma_quoted_string_ascii(s@);
    }
    let t = Text::new(s);
    let len = t.len_ascii();
    let mut out = String::new();
    let mut i: usize = 1;
    proof {
        assert(x.skip(0) == x);
    }
    while i < len - 1
        invariant
            t.wf(),
            t@ == s@,
            len == s@.len(),
            x == quoted_content(s@),
            is_ascii_chars(s@),
            ascii_upto(s@, s@.len() as int),
            1 <= i <= len - 1,
            is_quoted_content(x.skip(i - 1)),
            unescaped(x) == out@ + unescaped(x.skip(i - 1)),
        decreases len - i,
    {
        let ghost rest = x.skip(i - 1);
        assert(rest[0] == s@[i as int]);
        let c = t.get(i);
        if c == '\\' {
            assert(rest[1] == s@[i + 1]);
            assert(rest.skip(2) == x.skip(i + 1));
            push_char_at(&mut out, s, i + 1);
            i += 2;
        } else {
            assert(rest.skip(1) == x.skip(i as int));
            push_char_at(&mut out, s, i);
            i += 1;
        }
    }
    proof {
        assert(x.skip(i - 1).len() == 0);
    }
    out
}

/// Returns a simplified version of a quoted string: the dot-string that it
/// stands for where there is one, and else the quoted string without the
/// escapes that it does not need.
pub fn simplify_quoted_string(s: &str) -> (out: String)
    requires
        is_quoted_string(s@),
    ensures
        out@ == simplified(quoted_content(s@)),
        out@.len() == 0 || is_dot_string(out@) || is_quoted_string(out@),
{
    let ghost x = quoted_content(s@);
    proof {
        lemma_quoted_string_ascii(s@);
        lemma_unescaped_ascii(x);
        lemma_simplified(x);
    }
    let plain = unescape_quoted_string(s);
    let plain_len = Text::new(plain.as_str()).len_ascii();
    if get_dot_string_len(plain.as_str()) == plain_len {
        return plain;
    }
    let t = Text::new(s);
    let len = t.len_ascii();
    let mut out = String::new();
    out.append("\"");
    let mut i: usize = 1;
    let ghost mut done = Seq::<char>::empty();
    proof {
        reveal_strlit("\"");
        assert("\""@ == seq!['"']);
        assert(x.skip(0) == x);
        assert(out@ == seq!['"'] + done);
        assert(minimally_escaped(x) == done + minimally_escaped(x));
    }
    while i < len - 1
        invariant
            t.wf(),
            t@ == s@,
            len == s@.len(),
            x == quoted_content(s@),
            is_ascii_chars(s@),
            ascii_upto(s@, s@.len() as int),
            1 <= i <= len - 1,
            is_quoted_content(x.skip(i - 1)),
            out@ == seq!['"'] + done,
            minimally_escaped(x) == done + minimally_escaped(x.skip(i - 1)),
        decreases len - i,
    {
        let ghost rest = x.skip(i - 1);
        assert(rest[0] == s@[i as int]);
        let c = t.get(i);
        if c == '\\' {
            assert(rest[1] == s@[i + 1]);
            assert(rest.skip(2) == x.skip(i + 1));
            let d = t.get(i + 1);
            if d == '"' || d == '\\' {
                push_char_at(&mut out, s, i);
                push_char_at(&mut out, s, i + 1);
                proof {
                    let done2 = done + seq![rest[0], rest[1]];
                    assert(out@ == seq!['"'] + done2);
                    assert(minimally_escaped(x) == done2 + minimally_escaped(x.skip(i + 1)));
                    done = done2;
                }
            } else {
                push_char_at(&mut out, s, i + 1);
                proof {
                    let done2 = done + seq![rest[1]];
                    assert(out@ == seq!['"'] + done2);
                    assert(minimally_escaped(x) == done2 + minimally_escaped(x.skip(i + 1)));
                    done = done2;
                }
            }
            i += 2;
        } else {
            assert(rest.skip(1) == x.skip(i as int));
            push_char_at(&mut out, s, i);
            proof {
                let done2 = done + seq![rest[0]];
                assert(out@ == seq!['"'] + done2);
                assert(minimally_escaped(x) == done2 + minimally_escaped(x.skip(i as int)));
                done = done2;
            }
            i += 1;
        }
    }
    out.append("\"");
    proof {
        assert(x.skip(i - 1).len() == 0);
        assert(done + Seq::<char>::empty() == done);
    }
    out
}

/// Tells whether the string as a whole is an instance of the production.
pub fn is_instance(p: Production, s: &str) -> (b: bool)
    ensures
        b == p.matches(s@),
{
    let t = Text::new(s);
    proof {
        assert(s@.skip(0) == s@);
        lemma_whole_match(p, s@);
    }
    let n = match p {
        Production::Atom => scan_atom(&t, 0),
        Production::DotString => scan_dot_string(&t, 0),
        Production::QuotedString => scan_quoted_string(&t, 0),
        Production::Subdomain => scan_subdomain(&t, 0).0,
        Production::Domain => scan_domain(&t, 0),
        Production::AtDomain => scan_at_domain(&t, 0),
        Production::SourceRoute => scan_source_route(&t, 0),
    };
    n > 0 && t.at_end(n)
}

} // verus!
