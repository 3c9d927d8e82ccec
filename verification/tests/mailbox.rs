use rsmtp::common::ip::IpAddr;
use rsmtp::common::mailbox::{
    get_mailbox_local_part, Mailbox, MailboxForeignPart, MailboxParseError, MAX_DOMAIN_LEN,
    MAX_MAILBOX_LEN, MAX_MAILBOX_LOCAL_PART_LEN,
};

#[test]
fn test_static_vars() {
    assert_eq!(64, MAX_MAILBOX_LOCAL_PART_LEN);
    assert_eq!(254, MAX_MAILBOX_LEN);
    assert_eq!(255, MAX_DOMAIN_LEN);
}

#[test]
fn test_local_part() {
    assert_eq!(Some("rust.cool"), get_mailbox_local_part("rust.cool"));
    assert_eq!(Some("\"rust \\a cool\""), get_mailbox_local_part("\"rust \\a cool\""));
    assert_eq!(Some("\"rust.cool\""), get_mailbox_local_part("\"rust.cool\""));
    assert_eq!(Some("\"rust.cool.\""), get_mailbox_local_part("\"rust.cool.\""));
    assert_eq!(
        Some("\"rust\\\\\\b\\;.c\\\"ool\""),
        get_mailbox_local_part("\"rust\\\\\\b\\;.c\\\"ool\"")
    );
}

#[test]
fn test_foreign_part() {
    let domain_text = "rustastic.org";
    let domain = MailboxForeignPart::Domain(domain_text.to_owned());
    let ipv4 = MailboxForeignPart::IpAddr(IpAddr::Ipv4Addr(127, 0, 0, 1));
    let ipv6 = MailboxForeignPart::IpAddr(IpAddr::Ipv6Addr(1, 1, 1, 1, 1, 1, 1, 1));

    assert!(domain == domain);
    assert!(domain != MailboxForeignPart::Domain(domain_text.to_owned() + "bullshit"));
    assert!(domain != ipv4);
    assert!(domain != ipv6);
}

#[test]
fn test_mailbox() {
    let mut s = "a".repeat(MAX_MAILBOX_LOCAL_PART_LEN);
    s.push_str("@t.com");
    assert!(Mailbox::parse(s.as_str()).is_ok());
    let mut s = "a".repeat(MAX_MAILBOX_LOCAL_PART_LEN + 1);
    s.push_str("@t.com");
    assert_eq!(Err(MailboxParseError::LocalPartTooLong), Mailbox::parse(s.as_str()));
    assert_eq!(Err(MailboxParseError::LocalPartUnrecognized), Mailbox::parse("t @t.com{"));
    assert_eq!(Err(MailboxParseError::LocalPartUnrecognized), Mailbox::parse("t "));
    assert_eq!(Err(MailboxParseError::ForeignPartUnrecognized), Mailbox::parse("t@{}"));
    assert_eq!(Err(MailboxParseError::ForeignPartUnrecognized), Mailbox::parse("t@t.com{"));

    // The check here is to expect something else than DomainTooLong.
    assert_eq!(
        Err(MailboxParseError::TooLong),
        Mailbox::parse(("rust@".to_owned() + &"a".repeat(MAX_DOMAIN_LEN)).as_str())
    );
    assert_eq!(
        Err(MailboxParseError::DomainTooLong),
        Mailbox::parse(("rust@".to_owned() + &"a".repeat(MAX_DOMAIN_LEN + 1)).as_str())
    );
    assert!(Mailbox::parse(("rust@".to_owned() + &"a".repeat(MAX_MAILBOX_LEN - 5)).as_str()).is_ok());
    assert_eq!(
        Err(MailboxParseError::TooLong),
        Mailbox::parse(("rust@".to_owned() + &"a".repeat(MAX_MAILBOX_LEN - 4)).as_str())
    );

    // Check some common error cases.
    assert_eq!(Err(MailboxParseError::AtNotFound), Mailbox::parse("t"));
    assert_eq!(Err(MailboxParseError::ForeignPartUnrecognized), Mailbox::parse("rust.is@[127.0.0.1"));
    assert_eq!(Err(MailboxParseError::ForeignPartUnrecognized), Mailbox::parse("rust.is@[00.0.1]"));
    assert_eq!(Err(MailboxParseError::ForeignPartUnrecognized), Mailbox::parse("rust.is@[::1]"));
    assert_eq!(Err(MailboxParseError::ForeignPartUnrecognized), Mailbox::parse("rust.is@[Ipv6: ::1]"));
    assert_eq!(Err(MailboxParseError::ForeignPartUnrecognized), Mailbox::parse("rust.is@[Ipv6:::1"));

    // Check that we can compare mailboxes
    let path_1 = Mailbox::parse("rust.is@rustastic.org").unwrap();
    let path_2 = Mailbox::parse("rust.is.not@rustastic.org").unwrap();
    let path_3 = Mailbox::parse("\"hello\"@rust").unwrap();

    assert!(path_1 == path_1.clone());
    assert!(path_2 == path_2.clone());
    assert!(path_1 != path_2);
    assert_eq!(path_3.local_part(), "\"hello\"");
    assert_eq!(*path_3.foreign_part(), MailboxForeignPart::Domain("rust".to_owned()));

    // Check that parsing of IP addresses is done right.
    let path_4 = Mailbox::parse("rust.is@[127.0.0.1]").unwrap();
    assert_eq!(
        *path_4.foreign_part(),
        MailboxForeignPart::IpAddr(IpAddr::Ipv4Addr(127, 0, 0, 1))
    );

    let path_5 = Mailbox::parse("rust.is@[Ipv6:::1]").unwrap();
    assert_eq!(
        *path_5.foreign_part(),
        MailboxForeignPart::IpAddr(IpAddr::Ipv6Addr(0, 0, 0, 0, 0, 0, 0, 1))
    );

    let path_6 = Mailbox::parse("rust.is@[Ipv6:2001:db8::ff00:42:8329]").unwrap();
    assert_eq!(
        *path_6.foreign_part(),
        MailboxForeignPart::IpAddr(IpAddr::Ipv6Addr(0x2001, 0xdb8, 0x0, 0x0, 0x0, 0xff00, 0x42, 0x8329))
    );

    // Make sure that the special postmaster address is always lowercase.
    let path_7 = Mailbox::parse("PosTMAster@ok").unwrap();
    assert_eq!("postmaster", path_7.local_part());

    let path_8 = Mailbox::parse("postmaster@ok").unwrap();
    assert_eq!("postmaster", path_8.local_part());
}

fn ip_of(address: &str) -> Result<IpAddr, MailboxParseError> {
    match Mailbox::parse(address) {
        Ok(m) => match m.foreign_part() {
            MailboxForeignPart::IpAddr(a) => Ok(*a),
            MailboxForeignPart::Domain(d) => panic!("a domain: {}", d),
        },
        Err(e) => Err(e),
    }
}

#[test]
fn test_ipv4_literals() {
    assert_eq!(Ok(IpAddr::Ipv4Addr(0, 0, 0, 0)), ip_of("a@[0.0.0.0]"));
    assert_eq!(Ok(IpAddr::Ipv4Addr(255, 255, 255, 255)), ip_of("a@[255.255.255.255]"));
    assert_eq!(Ok(IpAddr::Ipv4Addr(1, 20, 199, 3)), ip_of("a@[1.20.199.3]"));
    // Up to three digits, whatever they are.
    assert_eq!(Ok(IpAddr::Ipv4Addr(1, 2, 3, 4)), ip_of("a@[001.02.3.004]"));
    for bad in [
        "a@[256.0.0.1]",
        "a@[1.2.3]",
        "a@[1.2.3.4.5]",
        "a@[1.2.3.]",
        "a@[.1.2.3]",
        "a@[1..2.3]",
        "a@[1.2.3.0004]",
        "a@[1.2.3.a]",
        "a@[1.2.3.4]x",
        "a@[1.2.3.4]]",
        "a@[]",
        "a@[",
        "a@]",
        "a@[1.2.3.\u{e9}]",
    ] {
        assert_eq!(Err(MailboxParseError::ForeignPartUnrecognized), ip_of(bad), "{}", bad);
    }
}

#[test]
fn test_ipv6_literals() {
    assert_eq!(
        Ok(IpAddr::Ipv6Addr(1, 2, 3, 4, 5, 6, 7, 8)),
        ip_of("a@[Ipv6:1:2:3:4:5:6:7:8]")
    );
    assert_eq!(
        Ok(IpAddr::Ipv6Addr(0xffff, 0xabcd, 0xABCD, 0, 0x10, 0x0001, 0xf, 0xFfFf)),
        ip_of("a@[Ipv6:ffff:abcd:ABCD:0:10:0001:f:FfFf]")
    );
    assert_eq!(Ok(IpAddr::Ipv6Addr(0, 0, 0, 0, 0, 0, 0, 0)), ip_of("a@[Ipv6:::]"));
    assert_eq!(Ok(IpAddr::Ipv6Addr(1, 0, 0, 0, 0, 0, 0, 0)), ip_of("a@[Ipv6:1::]"));
    assert_eq!(Ok(IpAddr::Ipv6Addr(1, 2, 3, 0, 0, 4, 5, 6)), ip_of("a@[Ipv6:1:2:3::4:5:6]"));
    assert_eq!(Ok(IpAddr::Ipv6Addr(0, 0, 1, 2, 3, 4, 5, 6)), ip_of("a@[Ipv6:::1:2:3:4:5:6]"));
    for bad in [
        "a@[Ipv6:]",
        "a@[Ipv6:1:2:3:4:5:6:7]",
        "a@[Ipv6:1:2:3:4:5:6:7:8:9]",
        "a@[Ipv6:1:2:3:4:5:6:7:]",
        "a@[Ipv6::1:2:3:4:5:6:7]",
        // `::` stands for two groups or more.
        "a@[Ipv6:1:2:3::4:5:6:7]",
        "a@[Ipv6:1::2::3]",
        "a@[Ipv6:1:::2]",
        "a@[Ipv6:12345::]",
        "a@[Ipv6:g::]",
        "a@[ipv6:::1]",
        "a@[IPv6:::1]",
        "a@[Ipv6:::1]x",
        "a@[Ipv6:1.2.3.4]",
    ] {
        assert_eq!(Err(MailboxParseError::ForeignPartUnrecognized), ip_of(bad), "{}", bad);
    }
}

#[test]
fn test_parse_errors_in_their_order() {
    assert_eq!(Err(MailboxParseError::LocalPartUnrecognized), Mailbox::parse(""));
    assert_eq!(Err(MailboxParseError::LocalPartUnrecognized), Mailbox::parse("@t.com"));
    assert_eq!(Err(MailboxParseError::LocalPartUnrecognized), Mailbox::parse(".a@t.com"));
    assert_eq!(Err(MailboxParseError::LocalPartUnrecognized), Mailbox::parse("a.@t.com"));
    assert_eq!(Err(MailboxParseError::LocalPartUnrecognized), Mailbox::parse("a..b@t.com"));
    assert_eq!(Err(MailboxParseError::LocalPartUnrecognized), Mailbox::parse("\"a@t.com"));
    assert_eq!(Err(MailboxParseError::LocalPartUnrecognized), Mailbox::parse("\u{e9}@t.com"));
    assert_eq!(Err(MailboxParseError::LocalPartUnrecognized), Mailbox::parse("a\u{e9}@t.com"));
    assert_eq!(Err(MailboxParseError::AtNotFound), Mailbox::parse("\"a b\""));
    assert_eq!(Err(MailboxParseError::ForeignPartUnrecognized), Mailbox::parse("a@"));
    assert_eq!(Err(MailboxParseError::ForeignPartUnrecognized), Mailbox::parse("a@b."));
    assert_eq!(Err(MailboxParseError::ForeignPartUnrecognized), Mailbox::parse("a@b-"));
    assert_eq!(Err(MailboxParseError::ForeignPartUnrecognized), Mailbox::parse("a@b c"));
    assert_eq!(Err(MailboxParseError::ForeignPartUnrecognized), Mailbox::parse("a@b@c"));
    assert_eq!(Err(MailboxParseError::ForeignPartUnrecognized), Mailbox::parse("a@b\u{e9}"));
    // Too long a local part is told before a missing `@`.
    assert_eq!(Err(MailboxParseError::LocalPartTooLong), Mailbox::parse(&"a".repeat(65)));
    // Too long a domain is told before what follows it.
    let long = "rust@".to_owned() + &"a".repeat(256) + "{";
    assert_eq!(Err(MailboxParseError::DomainTooLong), Mailbox::parse(&long));
    // What follows a domain is told before the length of the whole.
    let long = "rust@".to_owned() + &"a".repeat(255) + "{";
    assert_eq!(Err(MailboxParseError::ForeignPartUnrecognized), Mailbox::parse(&long));
}

#[test]
fn test_length_limits() {
    let local = "a".repeat(64);
    let m = Mailbox::parse(&(local.clone() + "@t.com")).unwrap();
    assert_eq!(local, m.local_part());
    // 254 characters in all.
    let domain = "a".repeat(249);
    let m = Mailbox::parse(&("rust@".to_owned() + &domain)).unwrap();
    assert_eq!(*m.foreign_part(), MailboxForeignPart::Domain(domain));
    // A quoted local part counts with its quotes.
    let quoted = "\"".to_owned() + &"a".repeat(62) + "\"";
    assert!(Mailbox::parse(&(quoted + "@t.com")).is_ok());
    let quoted = "\"".to_owned() + &"a".repeat(63) + "\"";
    assert_eq!(
        Err(MailboxParseError::LocalPartTooLong),
        Mailbox::parse(&(quoted + "@t.com"))
    );
}

#[test]
fn test_source_route_is_skipped() {
    let m = Mailbox::parse("@a.org,@b.org:rust.is@rustastic.org").unwrap();
    assert_eq!("rust.is", m.local_part());
    assert_eq!(*m.foreign_part(), MailboxForeignPart::Domain("rustastic.org".to_owned()));
    assert_eq!(m, Mailbox::parse("rust.is@rustastic.org").unwrap());
    // The route counts for the length of the whole.
    let route = "@".to_owned() + &"a".repeat(250) + ":";
    assert_eq!(Err(MailboxParseError::TooLong), Mailbox::parse(&(route + "a@b")));
    // Without its colon a route is no route.
    assert_eq!(
        Err(MailboxParseError::LocalPartUnrecognized),
        Mailbox::parse("@a.org,@b.org rust.is@rustastic.org")
    );
}

#[test]
fn test_case_is_kept_but_for_postmaster() {
    let m = Mailbox::parse("Rust.Is@Rustastic.ORG").unwrap();
    assert_eq!("Rust.Is", m.local_part());
    assert_eq!(*m.foreign_part(), MailboxForeignPart::Domain("Rustastic.ORG".to_owned()));
    assert_eq!("postmaster", Mailbox::parse("POSTMASTER@ok").unwrap().local_part());
    assert_eq!("Postmasters", Mailbox::parse("Postmasters@ok").unwrap().local_part());
    assert_eq!("\"Postmaster\"", Mailbox::parse("\"Postmaster\"@ok").unwrap().local_part());
}

#[test]
fn test_round_trip() {
    for address in [
        "rust.is@rustastic.org",
        "Rust.Is@Rustastic.ORG",
        "\"hello\"@rust",
        "\"rust\\\\\\b\\;.c\\\"ool\"@a-b.c--d.e",
        "-`-.bla.ok@1.2.3.4",
        "a@b",
        "postmaster@ok",
        "Postmasters@ok",
    ] {
        assert_eq!(address, Mailbox::parse(address).unwrap().to_text(), "{}", address);
    }
    assert_eq!("postmaster@OK.org", Mailbox::parse("PosTMAster@OK.org").unwrap().to_text());
    let longest = "a".repeat(64) + "@" + &"b".repeat(189);
    assert_eq!(254, longest.len());
    assert_eq!(longest, Mailbox::parse(&longest).unwrap().to_text());
}

#[test]
fn test_address_literals_as_text() {
    assert_eq!("a@[127.0.0.1]", Mailbox::parse("a@[127.000.00.1]").unwrap().to_text());
    assert_eq!("a@[0.10.100.255]", Mailbox::parse("a@[0.10.100.255]").unwrap().to_text());
    assert_eq!(
        "a@[Ipv6:0:0:0:0:0:0:0:1]",
        Mailbox::parse("a@[Ipv6:::1]").unwrap().to_text()
    );
    assert_eq!(
        "a@[Ipv6:2001:db8:0:0:0:ff00:42:8329]",
        Mailbox::parse("a@[Ipv6:2001:0DB8::FF00:0042:8329]").unwrap().to_text()
    );
    assert_eq!("[255.0.9.10]", IpAddr::Ipv4Addr(255, 0, 9, 10).to_text());
    assert_eq!(
        "[Ipv6:ffff:0:a:10:100:1000:abcd:9]",
        IpAddr::Ipv6Addr(0xffff, 0, 0xa, 0x10, 0x100, 0x1000, 0xabcd, 9).to_text()
    );
    // What is written can be read again.
    for ip in [
        IpAddr::Ipv4Addr(1, 22, 133, 0),
        IpAddr::Ipv6Addr(0, 1, 0x20, 0x300, 0x4000, 0xffff, 0xa0b, 0),
    ] {
        assert_eq!(Ok(ip), ip_of(&format!("a@{}", ip.to_text())));
    }
}

#[test]
fn test_error_reasons() {
    assert_eq!("LocalPartTooLong", MailboxParseError::LocalPartTooLong.reason());
    assert_eq!("LocalPartUnrecognized", MailboxParseError::LocalPartUnrecognized.reason());
    assert_eq!("ForeignPartUnrecognized", MailboxParseError::ForeignPartUnrecognized.reason());
    assert_eq!("DomainTooLong", MailboxParseError::DomainTooLong.reason());
    assert_eq!("TooLong", MailboxParseError::TooLong.reason());
    assert_eq!("AtNotFound", MailboxParseError::AtNotFound.reason());
}
