//! Tools to parse and represent an email address in an SMTP transaction.

use vstd::prelude::*;
use vstd::string::*;
use crate::common::ip::{parse_ip_literal, spec_ip_literal, IpAddr};
use crate::common::ip_text::{ip_text, lemma_ip_text, lemma_ip_text_len};
use crate::grammar::{
    is_at_domain, is_at_domain_list, is_domain, is_dot_string, is_quoted_string, is_source_route,
    lemma_longest_match_unique, lemma_quoted_content_boundary, longest_match, Production,
};
use crate::text::{eq_ignore_ascii_case, lemma_ascii_upto_all, spec_eq_ignore_ascii_case, Text};
use crate::utils::{scan_domain, scan_dot_string, scan_quoted_string, scan_source_route};

verus! {

/// Maximum length of the local part.
pub const MAX_MAILBOX_LOCAL_PART_LEN: usize = 64;

/// Maximum length of an email address: a path may have 256 characters with
/// the `<` and `>` around it.
pub const MAX_MAILBOX_LEN: usize = 254;

/// Maximum length of a domain name.
pub const MAX_DOMAIN_LEN: usize = 255;

/// Represents the foreign part of an email address, aka the host.
#[derive(PartialEq, Eq, Debug)]
pub enum MailboxForeignPart {
    /// The foreign part is a domain name.
    Domain(String),
    /// The foreign part is an ip address.
    IpAddr(IpAddr),
}

impl Clone for MailboxForeignPart {
    fn clone(&self) -> (c: Self)
        ensures
            c@ == self@,
    {
        match self {
            MailboxForeignPart::Domain(d) => MailboxForeignPart::Domain(d.clone()),
            MailboxForeignPart::IpAddr(a) => MailboxForeignPart::IpAddr(*a),
        }
    }
}

/// What a foreign part holds, with the text of a domain as a sequence of
/// characters.
pub enum ForeignPartView {
    Domain(Seq<char>),
    IpAddr(IpAddr),
}

impl View for MailboxForeignPart {
    type V = ForeignPartView;

    open spec fn view(&self) -> ForeignPartView {
        match self {
            MailboxForeignPart::Domain(d) => ForeignPartView::Domain(d@),
            MailboxForeignPart::IpAddr(a) => ForeignPartView::IpAddr(*a),
        }
    }
}

/// Represents an email address, the "mailbox" of RFC 5321.
///
/// It is composed of a local part and a foreign part. If the address is sent
/// to the `Postmaster` address for a domain, then the local part is always
/// `postmaster`, all lowercase.
#[derive(PartialEq, Eq, Debug)]
pub struct Mailbox {
    local_part: String,
    foreign_part: MailboxForeignPart,
}

impl Clone for Mailbox {
    fn clone(&self) -> (c: Self)
        ensures
            c@ == self@,
    {
        proof {
            use_type_invariant(self);
        }
        Mailbox { local_part: self.local_part.clone(), foreign_part: self.foreign_part.clone() }
    }
}

/// What a mailbox holds.
pub struct MailboxView {
    pub local_part: Seq<char>,
    pub foreign_part: ForeignPartView,
}

impl View for Mailbox {
    type V = MailboxView;

    closed spec fn view(&self) -> MailboxView {
        MailboxView { local_part: self.local_part@, foreign_part: self.foreign_part@ }
    }
}

/// Represents an error that occured while trying to parse an email address.
#[derive(PartialEq, Eq, Clone, Debug, Copy, Structural)]
pub enum MailboxParseError {
    /// The maximum length of 64 octets is exceeded.
    LocalPartTooLong,
    /// The local part was neither a dot-string, nor a quoted string.
    LocalPartUnrecognized,
    /// The foreign part was neither a domain, nor an IP.
    ForeignPartUnrecognized,
    /// The maximum length of 255 octets is exceeded.
    DomainTooLong,
    /// The maximum length of 254 octets is exceeded.
    TooLong,
    /// If no @ was present.
    AtNotFound,
}

/// The name of the mailbox that every domain has.
pub open spec fn postmaster() -> Seq<char> {
    seq!['p', 'o', 's', 't', 'm', 'a', 's', 't', 'e', 'r']
}

/// The local part names the postmaster, in whatever case.
pub open spec fn is_postmaster(local: Seq<char>) -> bool {
    spec_eq_ignore_ascii_case(local, postmaster())
}

/// The local part as a mailbox holds it: `postmaster` in lower case for the
/// postmaster, and any other local part as it was given.
pub open spec fn normalized_local(local: Seq<char>) -> Seq<char> {
    if is_postmaster(local) {
        postmaster()
    } else {
        local
    }
}

/// The length of the local part at the start of a text: that of the longest
/// dot-string, or where there is none that of the quoted string, or 0.
pub open spec fn local_part_len(s: Seq<char>) -> nat {
    if longest_match(Production::DotString, s) > 0 {
        longest_match(Production::DotString, s)
    } else {
        longest_match(Production::QuotedString, s)
    }
}

/// What parsing an address gives.
///
/// A source route at the start of the text is skipped. Then comes the local
/// part: without one the error is `LocalPartUnrecognized`, and with one of
/// more than 64 characters `LocalPartTooLong`. Then comes an `@`: where the
/// text ends instead the error is `AtNotFound`, and where another character
/// stands `LocalPartUnrecognized`. Then comes the foreign part. A domain of
/// more than 255 characters is `DomainTooLong`. The foreign part is the
/// domain, or without one an address literal, and ends the text: else the
/// error is `ForeignPartUnrecognized`. A text of more than 254 characters is
/// `TooLong`. Of these errors the first that applies is given.
///
/// The mailbox holds the local part as it stands in the text, but
/// `postmaster` for a local part that names the postmaster in whatever case.
pub open spec fn spec_parse(s: Seq<char>) -> Result<MailboxView, MailboxParseError> {
    let route = longest_match(Production::SourceRoute, s) as int;
    let local_len = local_part_len(s.skip(route)) as int;
    let at = route + local_len;
    let host = at + 1;
    let domain_len = longest_match(Production::Domain, s.skip(host)) as int;
    if local_len == 0 {
        Err(MailboxParseError::LocalPartUnrecognized)
    } else if local_len > MAX_MAILBOX_LOCAL_PART_LEN {
        Err(MailboxParseError::LocalPartTooLong)
    } else if at >= s.len() {
        Err(MailboxParseError::AtNotFound)
    } else if s[at] != '@' {
        Err(MailboxParseError::LocalPartUnrecognized)
    } else if domain_len > MAX_DOMAIN_LEN {
        Err(MailboxParseError::DomainTooLong)
    } else if domain_len > 0 && host + domain_len != s.len() {
        Err(MailboxParseError::ForeignPartUnrecognized)
    } else if domain_len == 0 && spec_ip_literal(s, host) is None {
        Err(MailboxParseError::ForeignPartUnrecognized)
    } else if s.len() > MAX_MAILBOX_LEN {
        Err(MailboxParseError::TooLong)
    } else {
        Ok(
            MailboxView {
                local_part: normalized_local(s.subrange(route, at)),
                foreign_part: if domain_len > 0 {
                    ForeignPartView::Domain(s.subrange(host, s.len() as int))
                } else {
                    ForeignPartView::IpAddr(spec_ip_literal(s, host)->0)
                },
            },
        )
    }
}

/// The foreign part as it is written in an address.
pub open spec fn foreign_text(f: ForeignPartView) -> Seq<char> {
    match f {
        ForeignPartView::Domain(d) => d,
        ForeignPartView::IpAddr(a) => ip_text(a),
    }
}

/// The address that a mailbox stands for: its local part, an `@` and its
/// foreign part.
pub open spec fn mailbox_text(v: MailboxView) -> Seq<char> {
    v.local_part + seq!['@'] + foreign_text(v.foreign_part)
}

/// What holds of every mailbox, as an invariant of the type. The local part
/// is a dot-string or a quoted string of 64 characters at most, and is
/// `postmaster` if it names the postmaster. A domain is a domain of 255
/// characters at most. The address has 254 characters at most.
pub open spec fn is_mailbox(v: MailboxView) -> bool {
    &&& is_dot_string(v.local_part) || is_quoted_string(v.local_part)
    &&& v.local_part.len() <= MAX_MAILBOX_LOCAL_PART_LEN
    &&& is_postmaster(v.local_part) ==> v.local_part == postmaster()
    &&& v.foreign_part matches ForeignPartView::Domain(d) ==> is_domain(d) && d.len()
        <= MAX_DOMAIN_LEN
    &&& mailbox_text(v).len() <= MAX_MAILBOX_LEN
}

/// Whatever parsing gives is a mailbox.
pub proof fn lemma_parse_gives_mailbox(s: Seq<char>)
    ensures
        spec_parse(s) matches Ok(v) ==> is_mailbox(v),
{
    if let Ok(v) = spec_parse(s) {
        let route = longest_match(Production::SourceRoute, s) as int;
        let rest = s.skip(route);
        let local_len = local_part_len(rest) as int;
        let at = route + local_len;
        let host = at + 1;
        let tail = s.skip(host);
        let domain_len = longest_match(Production::Domain, tail) as int;
        let local = s.subrange(route, at);
        lemma_longest_match_unique(Production::SourceRoute, s, route);
        lemma_longest_match_unique(Production::DotString, rest, local_len);
        lemma_longest_match_unique(Production::QuotedString, rest, local_len);
        lemma_longest_match_unique(Production::Domain, tail, domain_len);
        assert(rest.take(local_len) == local);
        assert(is_dot_string(postmaster())) by {
            let p = postmaster();
            assert(p.len() == 10);
            assert(p[0] == 'p' && p[1] == 'o' && p[2] == 's' && p[3] == 't' && p[4] == 'm'
                && p[5] == 'a' && p[6] == 's' && p[7] == 't' && p[8] == 'e' && p[9] == 'r');
        }
        if domain_len > 0 {
            assert(tail.take(domain_len) == s.subrange(host, s.len() as int));
        } else {
            lemma_ip_text_len(spec_ip_literal(s, host)->0);
        }
    }
}

/// Where a text begins with a local part and an `@`, no source route is
/// found in it, and that local part is found.
proof fn lemma_local_part_found(local: Seq<char>, rest: Seq<char>)
    requires
        is_dot_string(local) || is_quoted_string(local),
    ensures
        longest_match(Production::SourceRoute, local + seq!['@'] + rest) == 0,
        local_part_len(local + seq!['@'] + rest) == local.len(),
{
    let s = local + seq!['@'] + rest;
    let n = local.len() as int;
    assert(s[0] == local[0]);
    assert(s[n] == '@');
    assert(s.take(n) == local);
    // No source route stands before the local part.
    assert forall|m: int| 0 < m <= s.len() implies !is_source_route(#[trigger] s.take(m)) by {
        let u = s.take(m);
        assert(u[0] == s[0]);
        if m > 1 && is_source_route(u) {
            let l = u.drop_last();
            assert(l[0] == s[0]);
            assert(is_at_domain_list(l));
            if !is_at_domain(l) {
                let k = choose|k: int|
                    0 < k < l.len() && #[trigger] is_at_domain(l.take(k)) && l[k] == ','
                        && is_at_domain_list(l.skip(k + 1));
                assert(l.take(k)[0] == l[0]);
            }
        }
    }
    lemma_longest_match_unique(Production::SourceRoute, s, 0);
    // The local part ends where the `@` stands.
    if is_dot_string(local) {
        assert forall|m: int| n < m <= s.len() implies !is_dot_string(#[trigger] s.take(m)) by {
            assert(s.take(m)[n] == '@');
        }
        lemma_longest_match_unique(Production::DotString, s, n);
    } else {
        assert forall|m: int| 0 < m <= s.len() implies !is_dot_string(#[trigger] s.take(m)) by {
            assert(s.take(m)[0] == s[0]);
        }
        lemma_longest_match_unique(Production::DotString, s, 0);
        let x = s.skip(1);
        assert(x.take(n - 2) == local.subrange(1, n - 1));
        assert(x[n - 2] == local[n - 1]);
        assert forall|m: int| n < m <= s.len() implies !is_quoted_string(#[trigger] s.take(m)) by {
            let u = s.take(m);
            if is_quoted_string(u) {
                assert(u.subrange(1, m - 1) == x.take(m - 2));
                lemma_quoted_content_boundary(x, n - 2, m - 2);
            }
        }
        lemma_longest_match_unique(Production::QuotedString, s, n);
    }
}

/// Parsing gives back what it was given. Take a local part, which is a
/// dot-string or a quoted string of 64 characters at most, and a domain of 255
/// characters at most, with 254 characters at most for both and the `@`
/// between them. Parsing that address succeeds. The mailbox holds the domain
/// and the local part as they are, and `postmaster` for a local part that
/// names the postmaster in whatever case. So the text of the mailbox is that
/// address, character for character, but for the case of `postmaster`.
pub proof fn lemma_parse_round_trip(local: Seq<char>, domain: Seq<char>)
    requires
        is_dot_string(local) || is_quoted_string(local),
        local.len() <= MAX_MAILBOX_LOCAL_PART_LEN,
        is_domain(domain),
        domain.len() <= MAX_DOMAIN_LEN,
        local.len() + 1 + domain.len() <= MAX_MAILBOX_LEN,
    ensures
        spec_parse(local + seq!['@'] + domain) == Ok::<MailboxView, MailboxParseError>(
            MailboxView {
                local_part: normalized_local(local),
                foreign_part: ForeignPartView::Domain(domain),
            },
        ),
        mailbox_text(spec_parse(local + seq!['@'] + domain)->Ok_0) == normalized_local(local)
            + seq!['@'] + domain,
        !is_postmaster(local) ==> mailbox_text(spec_parse(local + seq!['@'] + domain)->Ok_0)
            == local + seq!['@'] + domain,
{
    let s = local + seq!['@'] + domain;
    let n = local.len() as int;
    lemma_local_part_found(local, domain);
    assert(s[n] == '@');
    assert(s.skip(0) == s);
    assert(s.skip(n + 1) == domain);
    assert(s.subrange(0, n) == local);
    assert(s.subrange(n + 1, s.len() as int) == domain);
    // The domain is all that follows.
    assert(domain.take(domain.len() as int) == domain);
    lemma_longest_match_unique(Production::Domain, domain, domain.len() as int);
}

/// The same holds of an address with an address literal: parsing a local
/// part, an `@` and the text of an IP address gives the mailbox with that
/// local part and that address.
pub proof fn lemma_parse_literal_round_trip(local: Seq<char>, ip: IpAddr)
    requires
        is_dot_string(local) || is_quoted_string(local),
        local.len() <= MAX_MAILBOX_LOCAL_PART_LEN,
    ensures
        spec_parse(local + seq!['@'] + ip_text(ip)) == Ok::<MailboxView, MailboxParseError>(
            MailboxView {
                local_part: normalized_local(local),
                foreign_part: ForeignPartView::IpAddr(ip),
            },
        ),
{
    let s = local + seq!['@'] + ip_text(ip);
    let n = local.len() as int;
    let tail = s.skip(n + 1);
    lemma_local_part_found(local, ip_text(ip));
    lemma_ip_text(local + seq!['@'], ip);
    lemma_ip_text_len(ip);
    assert(s[n] == '@');
    assert(s.skip(0) == s);
    assert(s.subrange(0, n) == local);
    // An address literal begins with a bracket, so there is no domain.
    assert(tail == ip_text(ip));
    assert forall|m: int| 0 < m <= tail.len() implies !is_domain(#[trigger] tail.take(m)) by {
        assert(tail.take(m)[0] == tail[0]);
    }
    lemma_longest_match_unique(Production::Domain, tail, 0);
}

/// The text of a mailbox is read as that mailbox: parsing undoes writing.
pub proof fn lemma_text_parses_back(v: MailboxView)
    requires
        is_mailbox(v),
    ensures
        spec_parse(mailbox_text(v)) == Ok::<MailboxView, MailboxParseError>(v),
{
    match v.foreign_part {
        ForeignPartView::Domain(d) => {
            lemma_parse_round_trip(v.local_part, d);
        },
        ForeignPartView::IpAddr(a) => {
            lemma_parse_literal_round_trip(v.local_part, a);
        },
    }
}

/// Returns the local part that the string begins with: a dot-string, or else
/// a quoted string.
pub fn get_mailbox_local_part(s: &str) -> (res: Option<&str>)
    ensures
        match res {
            Some(local) => local_part_len(s@) > 0 && local@ == s@.take(local_part_len(s@) as int),
            None => local_part_len(s@) == 0,
        },
{
    let t = Text::new(s);
    assert(s@.skip(0) == s@);
    let dot = scan_dot_string(&t, 0);
    let n = if dot > 0 {
        dot
    } else {
        scan_quoted_string(&t, 0)
    };
    if n == 0 {
        None
    } else {
        Some(s.substring_char(0, n))
    }
}

impl Mailbox {
    /// Every mailbox is one that parsing can give.
    #[verifier::type_invariant]
    spec fn valid(self) -> bool {
        is_mailbox(self@)
    }

    /// Creates a `Mailbox` from a string if the string contains a valid email
    /// address. Otherwise, returns a `MailboxParseError`.
    ///
    /// The argument should be of the form `hello@world.com`, with nothing
    /// around it: `<hello@world.com>` is an error.
    pub fn parse(s: &str) -> (res: Result<Mailbox, MailboxParseError>)
        ensures
            match spec_parse(s@) {
                Ok(v) => res matches Ok(m) && m@ == v,
                Err(e) => res matches Err(f) && f == e,
            },
            res matches Ok(m) ==> is_mailbox(m@),
    {
        proof {
            lemma_parse_gives_mailbox(s@);
        }
        let t = Text::new(s);
        proof {
            t.lemma_bounded();
        }
        assert(s@.skip(0) == s@);
        let route = scan_source_route(&t, 0);
        let dot = scan_dot_string(&t, route);
        let local_len = if dot > 0 {
            dot
        } else {
            scan_quoted_string(&t, route)
        };
        if local_len == 0 {
            return Err(MailboxParseError::LocalPartUnrecognized);
        }
        if local_len > MAX_MAILBOX_LOCAL_PART_LEN {
            return Err(MailboxParseError::LocalPartTooLong);
        }
        let at = route + local_len;
        if t.at_end(at) {
            return Err(MailboxParseError::AtNotFound);
        }
        if t.get(at) != '@' {
            return Err(MailboxParseError::LocalPartUnrecognized);
        }
        let host = at + 1;
        let domain_len = scan_domain(&t, host);
        if domain_len > MAX_DOMAIN_LEN {
            return Err(MailboxParseError::DomainTooLong);
        }
        let ip = if domain_len > 0 {
            if !t.at_end(host + domain_len) {
                return Err(MailboxParseError::ForeignPartUnrecognized);
            }
            None
        } else {
            match parse_ip_literal(&t, host) {
                Some(a) => Some(a),
                None => {
                    return Err(MailboxParseError::ForeignPartUnrecognized);
                },
            }
        };
        let len = t.len_ascii();
        if len > MAX_MAILBOX_LEN {
            return Err(MailboxParseError::TooLong);
        }
        proof {
            lemma_ascii_upto_all(s@);
        }
        let local = s.substring_ascii(route, at);
        let local_part = if eq_ignore_ascii_case(local, "postmaster") {
            "postmaster".to_owned()
        } else {
            local.to_owned()
        };
        proof {
            reveal_strlit("postmaster");
            assert("postmaster"@ =~= postmaster());
        }
        let foreign_part = match ip {
            Some(a) => MailboxForeignPart::IpAddr(a),
            None => MailboxForeignPart::Domain(s.substring_ascii(host, len).to_owned()),
        };
        Ok(Mailbox { local_part, foreign_part })
    }

    /// The address that the mailbox stands for: the local part, an `@` and
    /// the foreign part.
    pub fn to_text(&self) -> (out: String)
        ensures
            out@ == mailbox_text(self@),
            is_mailbox(self@),
    {
        proof {
            use_type_invariant(self);
        }
        let mut out = self.local_part.clone();
        out.append("@");
        proof {
            reveal_strlit("@");
            assert("@"@ =~= seq!['@']);
        }
        match &self.foreign_part {
            MailboxForeignPart::Domain(d) => {
                out.append(d.as_str());
            },
            MailboxForeignPart::IpAddr(a) => {
                a.append_to(&mut out);
            },
        }
        out
    }

    /// The local part of the address.
    pub fn local_part(&self) -> (res: &str)
        ensures
            res@ == self@.local_part,
            is_mailbox(self@),
    {
        proof {
            use_type_invariant(self);
        }
        self.local_part.as_str()
    }

    /// The foreign part of the address.
    pub fn foreign_part(&self) -> (res: &MailboxForeignPart)
        ensures
            res@ == self@.foreign_part,
            is_mailbox(self@),
    {
        proof {
            use_type_invariant(self);
        }
        &self.foreign_part
    }
}

impl MailboxParseError {
    /// What was wrong with the address: the name of the error.
    pub fn reason(&self) -> (text: &'static str)
        ensures
            text@ == self.spec_reason(),
    {
        match self {
            MailboxParseError::LocalPartTooLong => "LocalPartTooLong",
            MailboxParseError::LocalPartUnrecognized => "LocalPartUnrecognized",
            MailboxParseError::ForeignPartUnrecognized => "ForeignPartUnrecognized",
            MailboxParseError::DomainTooLong => "DomainTooLong",
            MailboxParseError::TooLong => "TooLong",
            MailboxParseError::AtNotFound => "AtNotFound",
        }
    }

    /// The text that `reason` gives.
    pub open spec fn spec_reason(&self) -> Seq<char> {
        match self {
            MailboxParseError::LocalPartTooLong => "LocalPartTooLong"@,
            MailboxParseError::LocalPartUnrecognized => "LocalPartUnrecognized"@,
            MailboxParseError::ForeignPartUnrecognized => "ForeignPartUnrecognized"@,
            MailboxParseError::DomainTooLong => "DomainTooLong"@,
            MailboxParseError::TooLong => "TooLong"@,
            MailboxParseError::AtNotFound => "AtNotFound"@,
        }
    }
}

} // verus!
