//! The productions of the RFC 5321 address grammar as predicates on character
//! sequences, and the longest prefix of a text that matches a production.

use vstd::prelude::*;
use crate::utils::{spec_is_alnum, spec_is_atext, spec_is_qtext_smtp, spec_is_quoted_pair_smtp};

verus! {

/// A letter, a digit or a hyphen: what a subdomain is made of.
pub open spec fn is_ldh(c: char) -> bool {
    spec_is_alnum(c) || c == '-'
}

/// `Atom = 1*atext`.
pub open spec fn is_atom(t: Seq<char>) -> bool {
    &&& t.len() > 0
    &&& forall|i: int| 0 <= i < t.len() ==> spec_is_atext(#[trigger] t[i])
}

/// `Dot-string = Atom *("." Atom)`: `atext` characters and dots, where the
/// text neither starts nor ends with a dot and no two dots are adjacent, so
/// that every dot stands between two atoms.
pub open spec fn is_dot_string(t: Seq<char>) -> bool {
    &&& t.len() > 0
    &&& spec_is_atext(t[0])
    &&& spec_is_atext(t.last())
    &&& forall|i: int|
        0 <= i < t.len() ==> spec_is_atext(#[trigger] t[i]) || (t[i] == '.' && 0 < i < t.len() - 1
            && spec_is_atext(t[i - 1]) && spec_is_atext(t[i + 1]))
}

/// The inside of a quoted string: any run of `qtextSMTP` characters and
/// `quoted-pairSMTP` two-character escapes.
pub open spec fn is_quoted_content(t: Seq<char>) -> bool
    decreases t.len(),
{
    ||| t.len() == 0
    ||| spec_is_qtext_smtp(t[0]) && is_quoted_content(t.skip(1))
    ||| t.len() >= 2 && spec_is_quoted_pair_smtp(t[0], t[1]) && is_quoted_content(t.skip(2))
}

/// `Quoted-string = DQUOTE *QcontentSMTP DQUOTE`.
pub open spec fn is_quoted_string(t: Seq<char>) -> bool {
    &&& t.len() >= 2
    &&& t[0] == '"'
    &&& t.last() == '"'
    &&& is_quoted_content(t.subrange(1, t.len() - 1))
}

/// `sub-domain = Let-dig [Ldh-str]`: letters, digits and hyphens, with a
/// letter or digit at both ends.
pub open spec fn is_subdomain(t: Seq<char>) -> bool {
    &&& t.len() > 0
    &&& spec_is_alnum(t[0])
    &&& spec_is_alnum(t.last())
    &&& forall|i: int| 0 <= i < t.len() ==> is_ldh(#[trigger] t[i])
}

/// `Domain = sub-domain *("." sub-domain)`: letters, digits, hyphens and
/// dots, with a letter or digit at both ends of the text and on both sides of
/// every dot, so that every stretch between dots is a subdomain.
pub open spec fn is_domain(t: Seq<char>) -> bool {
    &&& t.len() > 0
    &&& spec_is_alnum(t[0])
    &&& spec_is_alnum(t.last())
    &&& forall|i: int|
        0 <= i < t.len() ==> is_ldh(#[trigger] t[i]) || (t[i] == '.' && 0 < i < t.len() - 1
            && spec_is_alnum(t[i - 1]) && spec_is_alnum(t[i + 1]))
}

/// `At-domain = "@" Domain`.
pub open spec fn is_at_domain(t: Seq<char>) -> bool {
    &&& t.len() > 0
    &&& t[0] == '@'
    &&& is_domain(t.skip(1))
}

/// `At-domain *("," At-domain)`: one or more at-domains with a comma between
/// each two.
pub open spec fn is_at_domain_list(t: Seq<char>) -> bool
    decreases t.len(),
{
    ||| is_at_domain(t)
    ||| exists|k: int|
        0 < k < t.len() && #[trigger] is_at_domain(t.take(k)) && t[k] == ','
            && is_at_domain_list(t.skip(k + 1))
}

/// A source route: at-domains with commas between them, or nothing, and then
/// a colon.
pub open spec fn is_source_route(t: Seq<char>) -> bool {
    &&& t.len() > 0
    &&& t.last() == ':'
    &&& (t.len() == 1 || is_at_domain_list(t.drop_last()))
}

/// The productions that a scanner can look for at the start of a text.
pub enum Production {
    Atom,
    DotString,
    QuotedString,
    Subdomain,
    Domain,
    AtDomain,
    SourceRoute,
}

impl Production {
    /// The text as a whole is an instance of the production.
    pub open spec fn matches(self, t: Seq<char>) -> bool {
        match self {
            Production::Atom => is_atom(t),
            Production::DotString => is_dot_string(t),
            Production::QuotedString => is_quoted_string(t),
            Production::Subdomain => is_subdomain(t),
            Production::Domain => is_domain(t),
            Production::AtDomain => is_at_domain(t),
            Production::SourceRoute => is_source_route(t),
        }
    }
}

/// `n` is the length of the longest prefix of `s` that is an instance of `p`,
/// or 0 where no prefix is one.
pub open spec fn is_longest_match(p: Production, s: Seq<char>, n: int) -> bool {
    &&& 0 <= n <= s.len()
    &&& n > 0 ==> p.matches(s.take(n))
    &&& forall|m: int| n < m <= s.len() ==> !p.matches(#[trigger] s.take(m))
}

/// The longest prefix of `s` of at most `k` characters that is an instance of
/// `p`: its length, or 0.
pub open spec fn longest_match_upto(p: Production, s: Seq<char>, k: nat) -> nat
    decreases k,
{
    if k == 0 {
        0
    } else if k <= s.len() && p.matches(s.take(k as int)) {
        k
    } else {
        longest_match_upto(p, s, (k - 1) as nat)
    }
}

/// The length of the longest prefix of `s` that is an instance of `p`, or 0
/// where no prefix is one.
pub open spec fn longest_match(p: Production, s: Seq<char>) -> nat {
    longest_match_upto(p, s, s.len())
}

proof fn lemma_longest_match_upto(p: Production, s: Seq<char>, k: nat)
    requires
        k <= s.len(),
    ensures
        longest_match_upto(p, s, k) <= k,
        longest_match_upto(p, s, k) > 0 ==> p.matches(s.take(longest_match_upto(p, s, k) as int)),
        forall|m: int|
            longest_match_upto(p, s, k) < m <= k ==> !p.matches(#[trigger] s.take(m)),
    decreases k,
{
    if k > 0 && !p.matches(s.take(k as int)) {
        lemma_longest_match_upto(p, s, (k - 1) as nat);
    }
}

/// `longest_match` is the one length that `is_longest_match` admits.
pub proof fn lemma_longest_match_unique(p: Production, s: Seq<char>, n: int)
    ensures
        is_longest_match(p, s, n) <==> n == longest_match(p, s),
{
    lemma_longest_match_upto(p, s, s.len());
    let l = longest_match(p, s) as int;
    assert(is_longest_match(p, s, l));
    if is_longest_match(p, s, n) {
        if n < l {
            assert(!p.matches(s.take(l)));
        }
        if l < n {
            assert(!p.matches(s.take(n)));
        }
    }
}

/// The longest match is no longer than the text, and scanning it again finds
/// all of it: the longest match within the longest match of `s` is that match
/// itself.
pub proof fn lemma_longest_match_idempotent(p: Production, s: Seq<char>)
    ensures
        longest_match(p, s) <= s.len(),
        longest_match(p, s.take(longest_match(p, s) as int)) == longest_match(p, s),
{
    let n = longest_match(p, s) as int;
    lemma_longest_match_unique(p, s, n);
    let t = s.take(n);
    assert(t.take(n) == t);
    assert(is_longest_match(p, t, n));
    lemma_longest_match_unique(p, t, n);
}

/// Quoted content followed by quoted content is quoted content.
pub proof fn lemma_quoted_content_concat(a: Seq<char>, b: Seq<char>)
    requires
        is_quoted_content(a),
        is_quoted_content(b),
    ensures
        is_quoted_content(a + b),
    decreases a.len(),
{
    if a.len() == 0 {
        assert(a + b == b);
    } else if spec_is_qtext_smtp(a[0]) && is_quoted_content(a.skip(1)) {
        lemma_quoted_content_concat(a.skip(1), b);
        assert((a + b).skip(1) == a.skip(1) + b);
    } else {
        lemma_quoted_content_concat(a.skip(2), b);
        assert((a + b).skip(2) == a.skip(2) + b);
    }
}

/// One `qtextSMTP` character is quoted content, and so is one quoted pair.
pub proof fn lemma_quoted_content_token(b: Seq<char>)
    requires
        (b.len() == 1 && spec_is_qtext_smtp(b[0])) || (b.len() == 2 && spec_is_quoted_pair_smtp(
            b[0],
            b[1],
        )),
    ensures
        is_quoted_content(b),
{
    if b.len() == 1 {
        assert(is_quoted_content(b.skip(1)));
    } else {
        assert(is_quoted_content(b.skip(2)));
    }
}

/// Quoted content splits into its characters and pairs in one way only: where
/// two prefixes of a text are both quoted content, the longer one goes on
/// behind the shorter one with a whole `qtextSMTP` character or quoted pair.
pub proof fn lemma_quoted_content_boundary(x: Seq<char>, a: int, g: int)
    requires
        0 <= a < g <= x.len(),
        is_quoted_content(x.take(a)),
        is_quoted_content(x.take(g)),
    ensures
        spec_is_qtext_smtp(x[a]) || (a + 2 <= g && spec_is_quoted_pair_smtp(x[a], x[a + 1])),
    decreases a,
{
    let xa = x.take(a);
    let xg = x.take(g);
    assert(xg[0] == x[0]);
    if g >= 2 {
        assert(xg[1] == x[1]);
    }
    if a == 0 {
    } else {
        assert(xa[0] == x[0]);
        if spec_is_qtext_smtp(x[0]) {
            assert(xa.skip(1) == x.skip(1).take(a - 1));
            assert(xg.skip(1) == x.skip(1).take(g - 1));
            lemma_quoted_content_boundary(x.skip(1), a - 1, g - 1);
        } else {
            assert(xa[1] == x[1]);
            assert(xa.skip(2) == x.skip(2).take(a - 2));
            assert(xg.skip(2) == x.skip(2).take(g - 2));
            if a - 2 < g - 2 {
                lemma_quoted_content_boundary(x.skip(2), a - 2, g - 2);
            }
        }
    }
}

/// Quoted content holds printable ASCII characters and spaces only.
pub proof fn lemma_quoted_content_printable(x: Seq<char>)
    requires
        is_quoted_content(x),
    ensures
        forall|i: int| 0 <= i < x.len() ==> ' ' <= #[trigger] x[i] <= '~',
    decreases x.len(),
{
    if x.len() == 0 {
    } else if spec_is_qtext_smtp(x[0]) && is_quoted_content(x.skip(1)) {
        lemma_quoted_content_printable(x.skip(1));
        assert forall|i: int| 0 <= i < x.len() implies ' ' <= #[trigger] x[i] <= '~' by {
            if i > 0 {
                assert(x[i] == x.skip(1)[i - 1]);
            }
        }
    } else {
        lemma_quoted_content_printable(x.skip(2));
        assert forall|i: int| 0 <= i < x.len() implies ' ' <= #[trigger] x[i] <= '~' by {
            if i > 1 {
                assert(x[i] == x.skip(2)[i - 2]);
            }
        }
    }
}

/// An at-domain holds neither a colon nor a comma.
pub proof fn lemma_at_domain_chars(u: Seq<char>, j: int)
    requires
        is_at_domain(u),
        0 <= j < u.len(),
    ensures
        u[j] != ':',
        u[j] != ',',
{
    if j > 0 {
        assert(u.skip(1)[j - 1] == u[j]);
    }
}

/// How a source route begins. With `k` the length of the longest at-domain at
/// the start of `x`, a prefix of `x` of more than one character is a source
/// route exactly if that at-domain is followed by the closing colon, or by a
/// comma and a source route with at least one at-domain of its own.
pub proof fn lemma_source_route_step(x: Seq<char>, k: int, m: int)
    requires
        k == longest_match(Production::AtDomain, x),
        1 < m <= x.len(),
    ensures
        is_source_route(x.take(m)) <==> k > 0 && m > k && ((m == k + 1 && x[k] == ':') || (x[k]
            == ',' && m - k - 1 > 1 && is_source_route(x.skip(k + 1).take(m - k - 1)))),
{
    lemma_longest_match_unique(Production::AtDomain, x, k);
    let u = x.take(m);
    let l = u.drop_last();
    assert(l == x.take(m - 1));
    assert(u.last() == x[m - 1]);
    if is_source_route(u) {
        if is_at_domain(l) {
            if m - 1 < k {
                lemma_at_domain_chars(x.take(k), m - 1);
            }
        } else {
            let kk = choose|kk: int|
                0 < kk < l.len() && #[trigger] is_at_domain(l.take(kk)) && l[kk] == ','
                    && is_at_domain_list(l.skip(kk + 1));
            assert(l.take(kk) == x.take(kk));
            if kk < k {
                lemma_at_domain_chars(x.take(k), kk);
            }
            let v = x.skip(k + 1).take(m - k - 1);
            assert(l.skip(kk + 1) == v.drop_last());
            assert(v.last() == x[m - 1]);
        }
    }
    if k > 0 && m > k {
        if m == k + 1 && x[k] == ':' {
        } else if x[k] == ',' && m - k - 1 > 1 && is_source_route(
            x.skip(k + 1).take(m - k - 1),
        ) {
            let v = x.skip(k + 1).take(m - k - 1);
            assert(v.last() == x[m - 1]);
            assert(l.take(k) == x.take(k));
            assert(l.skip(k + 1) == v.drop_last());
        }
    }
}

/// Whether the first `m` characters of `r` are a source route, as seen from
/// position `p`, the start of one of its at-domains.
pub open spec fn is_source_route_from(r: Seq<char>, p: int, m: int) -> bool {
    &&& m > p
    &&& is_source_route(r.skip(p).take(m - p))
    &&& p > 0 ==> m - p > 1
}

/// The domain found at the start of a text ends with a letter or a digit: a
/// dot or a hyphen behind it is never part of the match.
pub proof fn lemma_domain_match_end(s: Seq<char>)
    ensures
        ({
            let n = longest_match(Production::Domain, s) as int;
            n > 0 ==> n <= s.len() && spec_is_alnum(s[n - 1]) && s[n - 1] != '.' && s[n - 1] != '-'
        }),
{
    let n = longest_match(Production::Domain, s) as int;
    lemma_longest_match_unique(Production::Domain, s, n);
    if n > 0 {
        assert(s.take(n).last() == s[n - 1]);
    }
}

/// The dot-string found at the start of a text ends with an `atext`
/// character: a dot behind it is never part of the match.
pub proof fn lemma_dot_string_match_end(s: Seq<char>)
    ensures
        ({
            let n = longest_match(Production::DotString, s) as int;
            n > 0 ==> n <= s.len() && spec_is_atext(s[n - 1]) && s[n - 1] != '.'
        }),
{
    let n = longest_match(Production::DotString, s) as int;
    lemma_longest_match_unique(Production::DotString, s, n);
    if n > 0 {
        assert(s.take(n).last() == s[n - 1]);
    }
}

/// A text is an instance of a production exactly if its longest match is the
/// whole text, and the text is not empty.
pub proof fn lemma_whole_match(p: Production, s: Seq<char>)
    ensures
        p.matches(s) <==> s.len() > 0 && longest_match(p, s) == s.len(),
{
    lemma_longest_match_unique(p, s, s.len() as int);
    lemma_longest_match_unique(p, s, longest_match(p, s) as int);
    assert(s.take(s.len() as int) == s);
    if p.matches(s) {
        reveal_with_fuel(is_at_domain_list, 2);
        assert(s.len() > 0);
    }
}

} // verus!
