use rsmtp::utils::{
    get_at_domain_len, get_atom_len, get_domain_len, get_dot_string_len, get_quoted_string_len,
    get_source_route_len, get_subdomain_len, is_alnum, is_atext, is_qtext_smtp,
    is_quoted_pair_smtp, simplify_quoted_string, unescape_quoted_string,
};

#[test]
fn test_get_subdomain_len() {
    // Allow alnum and dashes in the middle, no points.
    assert_eq!(11, get_subdomain_len("helZo-4-you&&&"));
    assert_eq!(11, get_subdomain_len("hePRo-4-you.abc"));

    // Test with no content at the end.
    assert_eq!(10, get_subdomain_len("5---a-U-65"));
    assert_eq!(0, get_subdomain_len(""));

    // Disallow dash at the end.
    assert_eq!(5, get_subdomain_len("heS1o-&&&"));
    assert_eq!(0, get_subdomain_len("-hello-world"));
}

#[test]
fn test_get_domain_len() {
    // Invalid domain.
    assert_eq!(0, get_domain_len(".hello"));
    assert_eq!(0, get_domain_len(""));
    assert_eq!(0, get_domain_len("----"));

    // Valid domains with dots and dashes.
    assert_eq!(18, get_domain_len("hello-rust.is.N1C3"));
    assert_eq!(18, get_domain_len("hello-rust.is.N1C3."));
    assert_eq!(18, get_domain_len("hello-rust.is.N1C3-"));
    assert_eq!(18, get_domain_len("hello-rust.is.N1C3-."));
    assert_eq!(18, get_domain_len("hello-rust.is.N1C3-&"));
    assert_eq!(18, get_domain_len("hello-rust.is.N1C3.&"));

    // Valid domains without dashes.
    assert_eq!(9, get_domain_len("hello.bla."));

    // Valid domains without dots.
    assert_eq!(9, get_domain_len("hello-bla."));
}

#[test]
fn test_get_atom_len() {
    assert_eq!(0, get_atom_len(" ---"));
    assert_eq!(4, get_atom_len("!a{`\\"));
    assert_eq!(4, get_atom_len("!a{`"));
    assert_eq!(0, get_atom_len(""));
}

#[test]
fn test_get_dot_string_len() {
    assert_eq!(0, get_dot_string_len(""));
    assert_eq!(0, get_dot_string_len(" fwefwe"));
    assert_eq!(10, get_dot_string_len("-`-.bla.ok "));
    assert_eq!(10, get_dot_string_len("-`-.bla.ok"));
    assert_eq!(10, get_dot_string_len("-`-.bla.ok."));
}

#[test]
fn test_is_atext() {
    // Valid atext.
    assert!(is_atext('!'));
    assert!(is_atext('#'));
    assert!(is_atext('$'));
    assert!(is_atext('%'));
    assert!(is_atext('&'));
    assert!(is_atext('\''));
    assert!(is_atext('*'));
    assert!(is_atext('+'));
    assert!(is_atext('-'));
    assert!(is_atext('/'));
    assert!(is_atext('='));
    assert!(is_atext('?'));
    assert!(is_atext('^'));
    assert!(is_atext('_'));
    assert!(is_atext('`'));
    assert!(is_atext('{'));
    assert!(is_atext('|'));
    assert!(is_atext('}'));
    assert!(is_atext('~'));
    assert!(is_atext('A'));
    assert!(is_atext('B'));
    assert!(is_atext('C'));
    assert!(is_atext('X'));
    assert!(is_atext('Y'));
    assert!(is_atext('Z'));
    assert!(is_atext('a'));
    assert!(is_atext('b'));
    assert!(is_atext('c'));
    assert!(is_atext('x'));
    assert!(is_atext('y'));
    assert!(is_atext('z'));
    assert!(is_atext('0'));
    assert!(is_atext('1'));
    assert!(is_atext('8'));
    assert!(is_atext('9'));

    // Invalid atext.
    assert!(!is_atext(' '));
    assert!(!is_atext('"'));
    assert!(!is_atext('('));
    assert!(!is_atext(')'));
    assert!(!is_atext(','));
    assert!(!is_atext('.'));
    assert!(!is_atext(':'));
    assert!(!is_atext(';'));
    assert!(!is_atext('<'));
    assert!(!is_atext('>'));
    assert!(!is_atext('@'));
    assert!(!is_atext('['));
    assert!(!is_atext(']'));
    assert!(!is_atext(127 as char));
}

#[test]
fn test_is_alnum() {
    let mut c = 0 as u8;
    while c <= 127 {
        // Keep separate assertions for each range to get better error messages.
        if c >= 'A' as u8 && c <= 'Z' as u8 {
            assert!(is_alnum(c as char));
        } else if c >= 'a' as u8 && c <= 'z' as u8 {
            assert!(is_alnum(c as char));
        } else if c >= '0' as u8 && c <= '9' as u8 {
            assert!(is_alnum(c as char));
        } else {
            assert!(!is_alnum(c as char));
        }
        c += 1;
    }
}

#[test]
fn test_get_quoted_string_len() {
    // Invalid.
    assert_eq!(0, get_quoted_string_len(""));
    assert_eq!(0, get_quoted_string_len(" "));
    assert_eq!(0, get_quoted_string_len("  "));
    assert_eq!(0, get_quoted_string_len(" \""));
    assert_eq!(0, get_quoted_string_len(" \" \""));
    assert_eq!(0, get_quoted_string_len("\""));
    assert_eq!(0, get_quoted_string_len("\"Rust{\\\\\\\"\\a}\\stic"));

    // Valid.
    assert_eq!(2, get_quoted_string_len("\"\""));
    assert_eq!(19, get_quoted_string_len("\"Rust{\\\\\\\"\\a}\\stic\""));
    assert_eq!(19, get_quoted_string_len("\"Rust{\\\\\\\"\\a}\\stic\" "));
}

#[test]
fn test_is_qtext_smtp() {
    assert!(!is_qtext_smtp(31 as char));
    assert!(is_qtext_smtp(' '));
    assert!(is_qtext_smtp('!'));
    assert!(!is_qtext_smtp('"'));
    assert!(is_qtext_smtp('#'));
    assert!(is_qtext_smtp('$'));
    assert!(is_qtext_smtp('Z'));
    assert!(is_qtext_smtp('['));
    assert!(!is_qtext_smtp('\\'));
    assert!(is_qtext_smtp(']'));
    assert!(is_qtext_smtp('^'));
    assert!(is_qtext_smtp('}'));
    assert!(is_qtext_smtp('~'));
    assert!(!is_qtext_smtp(127 as char));
}

#[test]
fn test_is_quoted_pair_smtp() {
    assert!(is_quoted_pair_smtp('\\', ' '));
    assert!(is_quoted_pair_smtp('\\', '!'));
    assert!(is_quoted_pair_smtp('\\', '}'));
    assert!(is_quoted_pair_smtp('\\', '~'));
    assert!(!is_quoted_pair_smtp(' ', ' '));
}

#[test]
fn test_get_at_domain_len() {
    assert_eq!(0, get_at_domain_len(""));
    assert_eq!(0, get_at_domain_len("@"));
    assert_eq!(0, get_at_domain_len("@@"));
    assert_eq!(5, get_at_domain_len("@rust"));
    assert_eq!(5, get_at_domain_len("@rust{}"));
    assert_eq!(14, get_at_domain_len("@rustastic.org"));
}

#[test]
fn test_get_source_route_len() {
    // Invalid.
    assert_eq!(0, get_source_route_len(""));
    assert_eq!(0, get_source_route_len("@rust,"));
    assert_eq!(0, get_source_route_len("@rust"));
    assert_eq!(0, get_source_route_len("@,@:"));
    assert_eq!(0, get_source_route_len("@rust,@troll"));
    assert_eq!(0, get_source_route_len("@rust,@tro{ll:"));

    // Valid.
    assert_eq!(13, get_source_route_len("@rust,@troll:"));
    assert_eq!(16, get_source_route_len("@rust.is,@troll:"));
}

#[test]
fn test_scanners_stop_before_characters_outside_ascii() {
    assert_eq!(3, get_atom_len("abc\u{e9}def"));
    assert_eq!(0, get_atom_len("\u{e9}abc"));
    assert_eq!(3, get_dot_string_len("a.b.\u{4e2d}"));
    assert_eq!(3, get_domain_len("a-b-\u{e9}"));
    assert_eq!(0, get_quoted_string_len("\"a\u{e9}\""));
    assert_eq!(0, get_quoted_string_len("\"a\\\u{e9}\""));
    assert_eq!(0, get_source_route_len("@a\u{e9}:"));
}

#[test]
fn test_domain_match_never_ends_on_dot_or_hyphen() {
    assert_eq!(3, get_domain_len("a.b."));
    assert_eq!(3, get_domain_len("a.b"));
    assert_eq!(3, get_domain_len("a.b-"));
    assert_eq!(3, get_domain_len("a.b--."));
    assert_eq!(1, get_domain_len("a..b"));
    assert_eq!(3, get_dot_string_len("a.b."));
    assert_eq!(1, get_dot_string_len("a..b"));
    // A hyphen is `atext`, so a dot-string may end with one.
    assert_eq!(2, get_dot_string_len("a-"));
}

#[test]
fn test_rescanning_a_match_gives_the_same_length() {
    for s in ["hello-rust.is.N1C3-.", "a.b.", "", "----", "x", "mail.example.org rest"] {
        let n = get_domain_len(s);
        assert!(n <= s.len());
        assert_eq!(n, get_domain_len(&s[..n]));
    }
    for s in ["-`-.bla.ok.", "a..b", " x"] {
        let n = get_dot_string_len(s);
        assert_eq!(n, get_dot_string_len(&s[..n]));
    }
}

#[test]
fn test_source_route_forms() {
    assert_eq!(1, get_source_route_len(":"));
    assert_eq!(1, get_source_route_len(":rest"));
    assert_eq!(3, get_source_route_len("@a:"));
    assert_eq!(3, get_source_route_len("@a:b@c"));
    // A comma must be followed by another at-domain.
    assert_eq!(0, get_source_route_len("@a,:"));
    assert_eq!(0, get_source_route_len("@a,,@b:"));
    assert_eq!(0, get_source_route_len(",@a:"));
    assert_eq!(0, get_source_route_len("@a@b:"));
}

#[test]
fn test_unescape_quoted_string() {
    assert_eq!("", unescape_quoted_string("\"\""));
    assert_eq!("rust", unescape_quoted_string("\"rust\""));
    assert_eq!("rust a cool", unescape_quoted_string("\"rust \\a cool\""));
    assert_eq!("rust\\b;.c\"ool", unescape_quoted_string("\"rust\\\\\\b\\;.c\\\"ool\""));
    assert_eq!("\\", unescape_quoted_string("\"\\\\\""));
}

#[test]
fn test_simplify_quoted_string() {
    // What stands for a dot-string becomes that dot-string.
    assert_eq!("rust.cool", simplify_quoted_string("\"rust.cool\""));
    assert_eq!("rust.cool", simplify_quoted_string("\"r\\ust.co\\ol\""));
    // Anything else stays quoted, with the escapes that are needed.
    assert_eq!("\"rust.cool.\"", simplify_quoted_string("\"rust.cool.\""));
    assert_eq!("\"rust a cool\"", simplify_quoted_string("\"rust \\a cool\""));
    assert_eq!(
        "\"rust\\\\b;.c\\\"ool\"",
        simplify_quoted_string("\"rust\\\\\\b\\;.c\\\"ool\"")
    );
    // An empty quoted string stands for the empty text.
    assert_eq!("", simplify_quoted_string("\"\""));
}
