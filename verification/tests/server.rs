use rsmtp::common::ip::IpAddr;
use rsmtp::common::mailbox::{Mailbox, MailboxForeignPart};
use rsmtp::server::commands::data::{Body, BodyStep, DataHandler};
use rsmtp::server::commands::helo::HeloHandler;
use rsmtp::server::commands::mail::MailHandler;
use rsmtp::server::commands::rcpt::RcptHandler;
use rsmtp::server::commands::{conclude, defaults, helo, mail, Asked, Next, Outcome, Request};
use rsmtp::server::reply::Reply;
use rsmtp::server::session::{find_command, greeting, request, ConnectionHandler, Session};
use rsmtp::server::state::{StateSet, TransactionState};
use rsmtp::server::{
    hostname_from_buffer, Command, Handler, Server, ServerConfig, ServerError,
    MIN_MAX_LINE_SIZE, MIN_MAX_MESSAGE_SIZE, MIN_MAX_RECIPIENTS,
};

/// An event handler that writes down what it is told, and refuses what it is
/// set to refuse.
#[derive(Clone, Default)]
struct Recorder {
    events: Vec<String>,
    refuse_domain: bool,
    refuse_sender: bool,
    refuse_recipient: bool,
    refuse_part: bool,
    refuse_end: bool,
    refuse_client: bool,
    refuse_start: bool,
}

impl ConnectionHandler for Recorder {
    fn handle_connection(&mut self, peer: IpAddr, port: u16) -> Result<(), ()> {
        self.events.push(format!("client {} {}", peer.to_text(), port));
        if self.refuse_client {
            Err(())
        } else {
            Ok(())
        }
    }
}

impl HeloHandler for Recorder {
    fn handle_domain(&mut self, domain: &str) -> Result<(), ()> {
        self.events.push(format!("domain {}", domain));
        if self.refuse_domain {
            Err(())
        } else {
            Ok(())
        }
    }
}

impl MailHandler for Recorder {
    fn handle_sender_address(&mut self, mailbox: Option<Mailbox>) -> Result<(), ()> {
        match mailbox {
            Some(m) => self.events.push(format!("sender {}", m.to_text())),
            None => self.events.push("sender <>".to_owned()),
        }
        if self.refuse_sender {
            Err(())
        } else {
            Ok(())
        }
    }
}

impl RcptHandler for Recorder {
    fn handle_receiver_address(&mut self, mailbox: Mailbox) -> Result<(), ()> {
        self.events.push(format!("recipient {}", mailbox.to_text()));
        if self.refuse_recipient {
            Err(())
        } else {
            Ok(())
        }
    }
}

impl DataHandler for Recorder {
    fn handle_body_start(&mut self) -> Result<(), ()> {
        self.events.push("body start".to_owned());
        if self.refuse_start {
            Err(())
        } else {
            Ok(())
        }
    }

    fn handle_body_part(&mut self, part: &[u8]) -> Result<(), ()> {
        self.events.push(format!("body part {}", String::from_utf8_lossy(part)));
        if self.refuse_part {
            Err(())
        } else {
            Ok(())
        }
    }

    fn handle_body_end(&mut self) -> Result<(), ()> {
        self.events.push("body end".to_owned());
        if self.refuse_end {
            Err(())
        } else {
            Ok(())
        }
    }
}

/// An event handler that leaves everything as the library has it.
struct Silent;

impl HeloHandler for Silent {}

impl MailHandler for Silent {}

impl RcptHandler for Silent {}

impl DataHandler for Silent {}

impl ConnectionHandler for Silent {}

fn config() -> ServerConfig {
    let mut server = Server::new(());
    server.set_hostname("mx.example.org");
    server.add_commands(defaults());
    server.config().clone()
}

fn say(session: &mut Session, config: &ServerConfig, handler: &mut Recorder, line: &str) -> String {
    session.dispatch(config, handler, line).reply.to_line()
}

/// Brings a session to the state `Rcpt`.
fn up_to_rcpt(session: &mut Session, config: &ServerConfig, handler: &mut Recorder) {
    assert_eq!("250 OK", say(session, config, handler, "HELO a.b.c"));
    assert_eq!("250 OK", say(session, config, handler, "MAIL FROM:<x@y.com>"));
    assert_eq!("250 OK", say(session, config, handler, "RCPT TO:<z@y.com>"));
    assert_eq!(TransactionState::Rcpt, session.state());
}

#[test]
fn test_helo_in_init() {
    let config = config();
    let mut session = Session::new();
    let mut handler = Recorder::default();
    assert_eq!(TransactionState::Init, session.state());
    let out = session.dispatch(&config, &mut handler, "HELO a.b.c");
    assert_eq!("250 OK", out.reply.to_line());
    assert_eq!(250, out.reply.code());
    assert_eq!("OK", out.reply.text());
    assert_eq!(Next::Command, out.next);
    assert_eq!(TransactionState::Helo, out.state);
    assert_eq!(TransactionState::Helo, session.state());
    assert_eq!(vec!["domain a.b.c".to_owned()], handler.events);
}

#[test]
fn test_mail_before_helo_is_a_bad_sequence() {
    let config = config();
    let mut session = Session::new();
    let mut handler = Recorder::default();
    let out = session.dispatch(&config, &mut handler, "MAIL FROM:<x@y.com>");
    assert_eq!("503 Bad sequence of commands", out.reply.to_line());
    assert_eq!(Next::Command, out.next);
    assert_eq!(TransactionState::Init, session.state());
    assert!(handler.events.is_empty());
}

#[test]
fn test_data_scenario() {
    let config = config();
    let mut session = Session::new();
    let mut handler = Recorder::default();
    up_to_rcpt(&mut session, &config, &mut handler);
    handler.events.clear();

    let out = session.dispatch(&config, &mut handler, "DATA");
    assert_eq!("354 Start mail input; end with <CRLF>.<CRLF>", out.reply.to_line());
    assert_eq!(Next::Body, out.next);
    assert_eq!(TransactionState::Data, session.state());
    assert_eq!(BodyStep::More, session.body_start(&mut handler));
    assert_eq!(BodyStep::More, session.body_line(&config, &mut handler, b"Subject: hi"));
    assert_eq!(BodyStep::More, session.body_line(&config, &mut handler, b""));
    assert_eq!(BodyStep::More, session.body_line(&config, &mut handler, b"Hello."));
    assert_eq!(TransactionState::Data, session.state());
    match session.body_line(&config, &mut handler, b".") {
        BodyStep::Done(out) => {
            assert_eq!("250 OK", out.reply.to_line());
            assert_eq!(Next::Command, out.next);
            assert_eq!(TransactionState::Init, out.state);
        }
        other => panic!("{:?}", other),
    }
    assert_eq!(TransactionState::Init, session.state());
    assert_eq!(
        vec![
            "body start".to_owned(),
            "body part Subject: hi".to_owned(),
            "body part ".to_owned(),
            "body part Hello.".to_owned(),
            "body end".to_owned(),
        ],
        handler.events
    );
}

#[test]
fn test_a_dot_on_the_first_line_is_a_part() {
    let config = config();
    let mut session = Session::new();
    let mut handler = Recorder::default();
    up_to_rcpt(&mut session, &config, &mut handler);
    session.dispatch(&config, &mut handler, "DATA");
    handler.events.clear();
    assert_eq!(BodyStep::More, session.body_line(&config, &mut handler, b"."));
    assert_eq!(1, session.body().size);
    assert!(session.body().started);
    assert!(matches!(session.body_line(&config, &mut handler, b"."), BodyStep::Done(_)));
    assert_eq!(vec!["body part .".to_owned(), "body end".to_owned()], handler.events);
}

#[test]
fn test_oversized_body() {
    let config = config();
    assert_eq!(65536, config.max_message_size());
    let mut session = Session::new();
    let mut handler = Recorder::default();
    up_to_rcpt(&mut session, &config, &mut handler);
    session.dispatch(&config, &mut handler, "DATA");
    handler.events.clear();
    let line = vec![b'a'; 32768];
    assert_eq!(BodyStep::More, session.body_line(&config, &mut handler, &line));
    // Exactly the maximum is not too much.
    assert_eq!(BodyStep::More, session.body_line(&config, &mut handler, &line));
    assert_eq!(65536, session.body().size);
    match session.body_line(&config, &mut handler, b"b") {
        BodyStep::Done(out) => {
            assert_eq!("552 Too much mail data, max 65536 bytes", out.reply.to_line());
            assert_eq!(Next::Command, out.next);
            // The transaction is where it was before DATA.
            assert_eq!(TransactionState::Rcpt, out.state);
        }
        other => panic!("{:?}", other),
    }
    assert_eq!(TransactionState::Rcpt, session.state());
    assert_eq!(3, handler.events.len());
    // The transfer is over: what follows is read as commands.
    assert_eq!("500 Command unrecognized", say(&mut session, &config, &mut handler, "more text"));
    assert_eq!("250 OK", say(&mut session, &config, &mut handler, "RSET"));
    assert_eq!(TransactionState::Init, session.state());
}

#[test]
fn test_body_hooks_abort_the_connection() {
    let config = config();
    let mut session = Session::new();
    let mut handler = Recorder::default();
    up_to_rcpt(&mut session, &config, &mut handler);
    session.dispatch(&config, &mut handler, "DATA");
    handler.refuse_part = true;
    assert_eq!(BodyStep::Close, session.body_line(&config, &mut handler, b"text"));
    assert_eq!(0, session.body().size);
    assert_eq!(TransactionState::Data, session.state());
    handler.refuse_part = false;
    handler.refuse_end = true;
    assert_eq!(BodyStep::More, session.body_line(&config, &mut handler, b"text"));
    assert_eq!(BodyStep::Close, session.body_line(&config, &mut handler, b"."));
    assert_eq!(TransactionState::Data, session.state());
}

#[test]
fn test_body_counts_lines() {
    let mut body = Body::new(TransactionState::Rcpt);
    assert_eq!(Body { size: 0, started: false, resume: TransactionState::Rcpt }, body);
    assert!(!body.ends_with(b"."));
    assert_eq!(BodyStep::More, body.take(b"12345", 10));
    assert_eq!(Body { size: 5, started: true, resume: TransactionState::Rcpt }, body);
    assert!(body.ends_with(b"."));
    assert!(!body.ends_with(b".."));
    assert!(!body.ends_with(b""));
    assert_eq!(BodyStep::More, body.take(b"12345", 10));
    assert_eq!(10, body.size);
    assert_eq!(BodyStep::More, body.take(b"", 10));
    match body.take(b"1", 10) {
        BodyStep::Done(out) => {
            assert_eq!("552 Too much mail data, max 10 bytes", out.reply.to_line())
        }
        other => panic!("{:?}", other),
    }
    assert_eq!(10, body.size);
}

#[test]
fn test_unknown_command() {
    let config = config();
    let mut session = Session::new();
    let mut handler = Recorder::default();
    for line in ["", "HELO", "HELLO a.b.c", "MAIL", "MAIL FROM", "RCPT TO", "STARTTLS", " NOOP"] {
        assert_eq!("500 Command unrecognized", say(&mut session, &config, &mut handler, line));
        assert_eq!(TransactionState::Init, session.state());
    }
}

#[test]
fn test_commands_in_any_case() {
    let config = config();
    let mut session = Session::new();
    let mut handler = Recorder::default();
    assert_eq!("250 OK", say(&mut session, &config, &mut handler, "helo a.b.c"));
    assert_eq!("250 OK", say(&mut session, &config, &mut handler, "Mail From:<x@y.com>"));
    assert_eq!("250 OK", say(&mut session, &config, &mut handler, "rcpt to:<Z@y.com>"));
    assert_eq!("250 OK", say(&mut session, &config, &mut handler, "nOOp"));
    assert_eq!("250 OK", say(&mut session, &config, &mut handler, "rset"));
    assert_eq!("250 OK", say(&mut session, &config, &mut handler, "ehlo a.b.c"));
    assert_eq!(
        vec![
            "domain a.b.c".to_owned(),
            "sender x@y.com".to_owned(),
            "recipient Z@y.com".to_owned(),
            "domain a.b.c".to_owned(),
        ],
        handler.events
    );
}

#[test]
fn test_helo() {
    let config = config();
    let mut session = Session::new();
    let mut handler = Recorder::default();
    assert_eq!("501 Domain name not provided", say(&mut session, &config, &mut handler, "HELO "));
    assert_eq!("501 Domain name is invalid", say(&mut session, &config, &mut handler, "HELO a.b."));
    assert_eq!("501 Domain name is invalid", say(&mut session, &config, &mut handler, "EHLO  a.b"));
    assert_eq!("501 Domain name is invalid", say(&mut session, &config, &mut handler, "EHLO a b"));
    assert_eq!(TransactionState::Init, session.state());
    assert!(handler.events.is_empty());
    handler.refuse_domain = true;
    assert_eq!("550 Domain not taken", say(&mut session, &config, &mut handler, "HELO a.b.c"));
    assert_eq!(TransactionState::Init, session.state());
    handler.refuse_domain = false;
    assert_eq!("250 OK", say(&mut session, &config, &mut handler, "EHLO mail.example.org"));
    assert_eq!(TransactionState::Helo, session.state());
    // The name is given once.
    assert_eq!(
        "503 Bad sequence of commands",
        say(&mut session, &config, &mut handler, "HELO a.b.c")
    );
    assert_eq!(TransactionState::Helo, session.state());
}

#[test]
fn test_mail() {
    let config = config();
    let mut session = Session::new();
    let mut handler = Recorder::default();
    say(&mut session, &config, &mut handler, "HELO a.b.c");
    handler.events.clear();
    let brackets = "501 Invalid argument, format: '<email@example.com>'";
    for line in ["MAIL FROM:", "MAIL FROM:x@y.com", "MAIL FROM:<x@y.com", "MAIL FROM: <x@y.com>", "MAIL FROM:<"] {
        assert_eq!(brackets, say(&mut session, &config, &mut handler, line), "{}", line);
    }
    assert_eq!(
        "553 Email address invalid: AtNotFound",
        say(&mut session, &config, &mut handler, "MAIL FROM:<x>")
    );
    assert_eq!(
        "553 Email address invalid: LocalPartUnrecognized",
        say(&mut session, &config, &mut handler, "MAIL FROM:< x@y.com>")
    );
    assert_eq!(
        "553 Email address invalid: ForeignPartUnrecognized",
        say(&mut session, &config, &mut handler, "MAIL FROM:<x@y.com.>")
    );
    assert_eq!(
        "553 Email address invalid: LocalPartTooLong",
        say(&mut session, &config, &mut handler, &format!("MAIL FROM:<{}@y.com>", "a".repeat(65)))
    );
    assert_eq!(
        "553 Email address invalid: DomainTooLong",
        say(&mut session, &config, &mut handler, &format!("MAIL FROM:<x@{}>", "a".repeat(256)))
    );
    assert_eq!(
        "553 Email address invalid: TooLong",
        say(&mut session, &config, &mut handler, &format!("MAIL FROM:<x@{}>", "a".repeat(255)))
    );
    assert_eq!(TransactionState::Helo, session.state());
    assert!(handler.events.is_empty());
    handler.refuse_sender = true;
    assert_eq!("550 Mail not taken", say(&mut session, &config, &mut handler, "MAIL FROM:<x@y.com>"));
    assert_eq!(TransactionState::Helo, session.state());
    handler.refuse_sender = false;
    assert_eq!("250 OK", say(&mut session, &config, &mut handler, "MAIL FROM:<>"));
    assert_eq!(TransactionState::Mail, session.state());
    assert_eq!(vec!["sender x@y.com".to_owned(), "sender <>".to_owned()], handler.events);
    // The sender is named once.
    assert_eq!(
        "503 Bad sequence of commands",
        say(&mut session, &config, &mut handler, "MAIL FROM:<x@y.com>")
    );
}

#[test]
fn test_rcpt() {
    let config = config();
    let mut session = Session::new();
    let mut handler = Recorder::default();
    say(&mut session, &config, &mut handler, "HELO a.b.c");
    assert_eq!(
        "503 Bad sequence of commands",
        say(&mut session, &config, &mut handler, "RCPT TO:<z@y.com>")
    );
    say(&mut session, &config, &mut handler, "MAIL FROM:<x@y.com>");
    handler.events.clear();
    assert_eq!(
        "501 Invalid argument, format: '<email@example.com>'",
        say(&mut session, &config, &mut handler, "RCPT TO:z@y.com")
    );
    // There is no null recipient.
    assert_eq!(
        "553 Email address invalid: LocalPartUnrecognized",
        say(&mut session, &config, &mut handler, "RCPT TO:<>")
    );
    handler.refuse_recipient = true;
    assert_eq!("550 Mail not available", say(&mut session, &config, &mut handler, "RCPT TO:<z@y.com>"));
    assert_eq!(TransactionState::Mail, session.state());
    // DATA needs a recipient.
    assert_eq!("503 Bad sequence of commands", say(&mut session, &config, &mut handler, "DATA"));
    handler.refuse_recipient = false;
    assert_eq!("250 OK", say(&mut session, &config, &mut handler, "RCPT TO:<z@y.com>"));
    assert_eq!(TransactionState::Rcpt, session.state());
    assert_eq!(
        "250 OK",
        say(&mut session, &config, &mut handler, "RCPT TO:<@a.org:postMASTER@[10.0.0.7]>")
    );
    assert_eq!(TransactionState::Rcpt, session.state());
    assert_eq!(
        vec![
            "recipient z@y.com".to_owned(),
            "recipient z@y.com".to_owned(),
            "recipient postmaster@[10.0.0.7]".to_owned(),
        ],
        handler.events
    );
}

#[test]
fn test_data_takes_no_argument() {
    let config = config();
    let mut session = Session::new();
    let mut handler = Recorder::default();
    up_to_rcpt(&mut session, &config, &mut handler);
    let out = session.dispatch(&config, &mut handler, "DATA now");
    assert_eq!("501 No arguments allowed", out.reply.to_line());
    assert_eq!(Next::Command, out.next);
    assert_eq!(TransactionState::Rcpt, session.state());
    assert_eq!("501 No arguments allowed", say(&mut session, &config, &mut handler, "DATA "));
}

#[test]
fn test_rset() {
    let config = config();
    let mut session = Session::new();
    let mut handler = Recorder::default();
    assert_eq!("250 OK", say(&mut session, &config, &mut handler, "RSET"));
    assert_eq!(TransactionState::Init, session.state());
    up_to_rcpt(&mut session, &config, &mut handler);
    assert_eq!("501 No arguments allowed", say(&mut session, &config, &mut handler, "RSET now"));
    assert_eq!(TransactionState::Rcpt, session.state());
    assert_eq!("250 OK", say(&mut session, &config, &mut handler, "RSET"));
    assert_eq!(TransactionState::Init, session.state());
    // After a reset the client gives its name again.
    assert_eq!(
        "503 Bad sequence of commands",
        say(&mut session, &config, &mut handler, "MAIL FROM:<x@y.com>")
    );
}

#[test]
fn test_housekeeping_commands() {
    let config = config();
    let mut session = Session::new();
    let mut handler = Recorder::default();
    up_to_rcpt(&mut session, &config, &mut handler);
    handler.events.clear();
    assert_eq!("252 Cannot VRFY user", say(&mut session, &config, &mut handler, "VRFY"));
    assert_eq!("252 Cannot VRFY user", say(&mut session, &config, &mut handler, "VRFY postmaster"));
    assert_eq!("252 Cannot EXPN mailing list", say(&mut session, &config, &mut handler, "EXPN"));
    assert_eq!("252 Cannot EXPN mailing list", say(&mut session, &config, &mut handler, "EXPN all"));
    assert_eq!("502 Command not implemented", say(&mut session, &config, &mut handler, "HELP"));
    assert_eq!("502 Command not implemented", say(&mut session, &config, &mut handler, "HELP me"));
    assert_eq!("500 Command unrecognized", say(&mut session, &config, &mut handler, "HELPme"));
    assert_eq!("250 OK", say(&mut session, &config, &mut handler, "NOOP"));
    assert_eq!("250 OK", say(&mut session, &config, &mut handler, "NOOP "));
    assert_eq!("250 OK", say(&mut session, &config, &mut handler, "NOOP x"));
    assert_eq!("500 Command unrecognized", say(&mut session, &config, &mut handler, "NOOPx"));
    assert_eq!(TransactionState::Rcpt, session.state());
    assert!(handler.events.is_empty());
}

#[test]
fn test_quit() {
    let config = config();
    let mut session = Session::new();
    let mut handler = Recorder::default();
    let out = session.dispatch(&config, &mut handler, "QUIT");
    assert_eq!("221 mx.example.org", out.reply.to_line());
    assert_eq!(Next::Close, out.next);
    assert_eq!(TransactionState::Init, session.state());
    up_to_rcpt(&mut session, &config, &mut handler);
    let out = session.dispatch(&config, &mut handler, "quit now");
    assert_eq!("221 mx.example.org", out.reply.to_line());
    assert_eq!(Next::Close, out.next);
    assert_eq!(TransactionState::Rcpt, out.state);
}

#[test]
fn test_greeting_and_long_lines() {
    let config = config();
    assert_eq!("220 mx.example.org", greeting(&config).to_line());
    let session = Session::new();
    let out = session.line_too_long(&config);
    assert_eq!("500 Command line too long, max 1000 bytes", out.reply.to_line());
    assert_eq!(Next::Command, out.next);
    assert_eq!(TransactionState::Init, out.state);
}

#[test]
fn test_handlers_do_nothing_by_default() {
    let config = config();
    let mut session = Session::new();
    let mut handler = Silent;
    assert_eq!("250 OK", session.dispatch(&config, &mut handler, "HELO a.b.c").reply.to_line());
    assert_eq!("250 OK", session.dispatch(&config, &mut handler, "MAIL FROM:<>").reply.to_line());
    assert_eq!(
        "250 OK",
        session.dispatch(&config, &mut handler, "RCPT TO:<z@y.com>").reply.to_line()
    );
    assert_eq!(Next::Body, session.dispatch(&config, &mut handler, "DATA").next);
    assert_eq!(BodyStep::More, session.body_start(&mut handler));
    assert_eq!(BodyStep::More, session.body_line(&config, &mut handler, b"text"));
    assert!(matches!(session.body_line(&config, &mut handler, b"."), BodyStep::Done(_)));
    assert_eq!(TransactionState::Init, session.state());
}

#[test]
fn test_request_and_conclude() {
    let config = config();
    match request(&config, TransactionState::Init, "HELO a.b.c") {
        Request::Domain(d) => assert_eq!("a.b.c", d),
        other => panic!("{:?}", other),
    }
    match request(&config, TransactionState::Helo, "MAIL FROM:<Rust.Is@[Ipv6:::1]>") {
        Request::Sender(Some(m)) => {
            assert_eq!("Rust.Is", m.local_part());
            assert_eq!(
                MailboxForeignPart::IpAddr(IpAddr::Ipv6Addr(0, 0, 0, 0, 0, 0, 0, 1)),
                *m.foreign_part()
            );
        }
        other => panic!("{:?}", other),
    }
    assert_eq!(Request::Sender(None), request(&config, TransactionState::Helo, "MAIL FROM:<>"));
    match request(&config, TransactionState::Rcpt, "RCPT TO:<z@y.com>") {
        Request::Recipient(m) => assert_eq!("z@y.com", m.to_text()),
        other => panic!("{:?}", other),
    }
    match request(&config, TransactionState::Data, "MAIL FROM:<>") {
        Request::Done(out) => {
            assert_eq!("503 Bad sequence of commands", out.reply.to_line());
            assert_eq!(TransactionState::Data, out.state);
        }
        other => panic!("{:?}", other),
    }
    assert_eq!(Request::Domain("x".to_owned()), helo::request(TransactionState::Rcpt, "x"));
    assert_eq!(Request::Sender(None), mail::request(TransactionState::Init, "<>"));

    let state = TransactionState::Mail;
    let ok = |asked| conclude(asked, Ok(()), state);
    let no = |asked| conclude(asked, Err(()), state);
    let out = |code, text, state| Outcome { reply: Reply::new(code, text), state, next: Next::Command };
    assert_eq!(out(250, "OK", TransactionState::Helo), ok(Asked::Domain));
    assert_eq!(out(250, "OK", TransactionState::Mail), ok(Asked::Sender));
    assert_eq!(out(250, "OK", TransactionState::Rcpt), ok(Asked::Recipient));
    assert_eq!(out(550, "Domain not taken", state), no(Asked::Domain));
    assert_eq!(out(550, "Mail not taken", state), no(Asked::Sender));
    assert_eq!(out(550, "Mail not available", state), no(Asked::Recipient));
}

#[test]
fn test_table_order_and_readiness() {
    let mut server = Server::new(());
    // Neither of these two can run: they are passed over.
    let mut no_handler = Command::new();
    no_handler.starts_with("NO");
    assert!(!no_handler.ready());
    let mut no_start = Command::new();
    no_start.middleware(Handler::Noop);
    assert!(!no_start.ready());
    assert!(!Command::new().ready());
    server.add_command(no_handler);
    server.add_command(no_start);
    // Of two commands for a line the first is taken.
    let mut first = Command::new();
    first.starts_with("NOOP");
    first.middleware(Handler::Vrfy);
    assert!(first.ready());
    assert_eq!(Some("NOOP"), first.start());
    assert_eq!(Some(Handler::Vrfy), first.handler());
    assert_eq!(StateSet::all(), first.states());
    server.add_command(first);
    let mut second = Command::new();
    second.starts_with("NO");
    second.middleware(Handler::Noop);
    second.allowed_in(StateSet::none().with(TransactionState::Helo));
    server.add_command(second);
    let config = server.config();
    assert_eq!(4, config.command_count());
    assert_eq!(Some((2, 4, Handler::Vrfy)), find_command(config, "noop"));
    assert_eq!(Some((3, 2, Handler::Noop)), find_command(config, "NO"));
    assert_eq!(None, find_command(config, "N"));
    let mut session = Session::new();
    let mut handler = Silent;
    assert_eq!(
        "252 Cannot VRFY user",
        session.dispatch(config, &mut handler, "NOOP").reply.to_line()
    );
    assert_eq!(
        "503 Bad sequence of commands",
        session.dispatch(config, &mut handler, "NO").reply.to_line()
    );
}

#[test]
fn test_state_sets() {
    let all = [
        TransactionState::Init,
        TransactionState::Helo,
        TransactionState::Mail,
        TransactionState::Rcpt,
        TransactionState::Data,
    ];
    for s in all {
        assert!(StateSet::all().contains(s));
        assert!(!StateSet::none().contains(s));
        for t in all {
            assert_eq!(s == t, StateSet::none().with(s).contains(t));
        }
    }
    let table = defaults();
    assert_eq!(11, table.len());
    let starts: Vec<&str> = table.iter().map(|c| c.start().unwrap()).collect();
    assert_eq!(
        vec![
            "HELO ", "EHLO ", "MAIL FROM:", "RCPT TO:", "DATA", "RSET", "VRFY", "EXPN", "HELP",
            "NOOP", "QUIT"
        ],
        starts
    );
    assert_eq!(StateSet::none().with(TransactionState::Init), table[0].states());
    assert_eq!(StateSet::none().with(TransactionState::Helo), mail::get().states());
    assert_eq!(
        StateSet::none().with(TransactionState::Mail).with(TransactionState::Rcpt),
        table[3].states()
    );
    assert_eq!(StateSet::none().with(TransactionState::Rcpt), table[4].states());
    assert_eq!(StateSet::all(), table[5].states());
}

#[test]
fn test_server_defaults_and_floors() {
    let mut server = Server::new(7u8);
    assert_eq!(7u8, *server.container());
    assert_eq!("", server.config().hostname());
    assert_eq!(IpAddr::Ipv4Addr(0, 0, 0, 0), server.config().bind_address());
    assert_eq!(25, server.config().port());
    assert!(!server.config().debug());
    assert_eq!(100, server.config().max_recipients());
    assert_eq!(65536, server.config().max_message_size());
    assert_eq!(1000, server.config().max_line_size());
    assert_eq!(0, server.config().command_count());
    assert_eq!(0, server.config().extension_count());

    assert_eq!(Err(ServerError::MaxRecipients), server.set_max_recipients(99));
    assert_eq!(100, server.config().max_recipients());
    assert_eq!(Ok(()), server.set_max_recipients(100));
    assert_eq!(Ok(()), server.set_max_recipients(250));
    assert_eq!(250, server.config().max_recipients());

    assert_eq!(Err(ServerError::MaxMessageSize), server.set_max_message_size(65535));
    assert_eq!(65536, server.config().max_message_size());
    assert_eq!(Ok(()), server.set_max_message_size(1 << 20));
    assert_eq!(1 << 20, server.config().max_message_size());

    assert_eq!(Err(ServerError::MaxLineSize), server.set_max_line_size(999));
    assert_eq!(1000, server.config().max_line_size());
    assert_eq!(Ok(()), server.set_max_line_size(2000));
    assert_eq!(2000, server.config().max_line_size());

    server.set_hostname("mx.example.org");
    server.set_address(IpAddr::Ipv4Addr(127, 0, 0, 1), 2525);
    server.set_debug(true);
    server.add_extension("STARTTLS");
    server.add_extension("BDAT");
    server.add_command(mail::get());
    let config = server.config();
    assert_eq!("mx.example.org", config.hostname());
    assert_eq!(IpAddr::Ipv4Addr(127, 0, 0, 1), config.bind_address());
    assert_eq!(2525, config.port());
    assert!(config.debug());
    assert_eq!(2, config.extension_count());
    assert_eq!("STARTTLS", config.extension(0));
    assert_eq!("BDAT", config.extension(1));
    assert_eq!(1, config.command_count());
    assert_eq!(Some("MAIL FROM:"), config.command(0).start());
    assert_eq!(Some(Handler::Mail), config.command(0).handler());
}

#[test]
fn test_config_construction() {
    let any = IpAddr::Ipv4Addr(0, 0, 0, 0);
    assert_eq!(100, MIN_MAX_RECIPIENTS);
    assert_eq!(65536, MIN_MAX_MESSAGE_SIZE);
    assert_eq!(1000, MIN_MAX_LINE_SIZE);
    let config = ServerConfig::new("mx", any, 25, true, 65536, 1000, 100).unwrap();
    assert_eq!("mx", config.hostname());
    assert_eq!(65536, config.max_message_size());
    assert_eq!(1000, config.max_line_size());
    assert_eq!(100, config.max_recipients());
    assert_eq!(0, config.command_count());
    let error = |size, line, recipients| {
        ServerConfig::new("mx", any, 25, false, size, line, recipients).err()
    };
    assert_eq!(None, error(70000, 1001, 101));
    assert_eq!(Some(ServerError::MaxMessageSize), error(65535, 1000, 100));
    assert_eq!(Some(ServerError::MaxLineSize), error(65536, 999, 100));
    assert_eq!(Some(ServerError::MaxRecipients), error(65536, 1000, 99));
    // The first limit that is too low is told.
    assert_eq!(Some(ServerError::MaxMessageSize), error(0, 0, 0));
    assert_eq!(Some(ServerError::MaxLineSize), error(65536, 0, 0));
}

#[test]
fn test_hostname_from_buffer() {
    assert_eq!(Ok(b"mx.example.org".to_vec()), hostname_from_buffer(0, b"mx.example.org\0\0\0garbage"));
    assert_eq!(Ok(b"mx".to_vec()), hostname_from_buffer(0, b"mx"));
    assert_eq!(Ok(Vec::new()), hostname_from_buffer(0, b"\0mx"));
    assert_eq!(Ok(Vec::new()), hostname_from_buffer(0, b""));
    assert_eq!(Err(ServerError::Hostname), hostname_from_buffer(-1, b"mx\0"));
    assert_eq!(Err(ServerError::Hostname), hostname_from_buffer(1, b"mx\0"));
}

#[test]
fn test_reply_lines() {
    let reply = Reply::new(250, "OK");
    assert_eq!(250, reply.code());
    assert_eq!("OK", reply.text());
    assert_eq!("250 OK", reply.to_line());
    assert_eq!("354 ", Reply::new(354, "").to_line());
    assert_eq!("221 a b", Reply::with_text(221, "a b".to_owned()).to_line());
}

#[test]
fn test_open() {
    let config = config();
    let peer = IpAddr::Ipv4Addr(192, 0, 2, 7);
    let mut handler = Recorder::default();
    let (session, greeting) = Session::open(&config, &mut handler, peer, 40000).unwrap();
    assert_eq!("220 mx.example.org", greeting.to_line());
    assert_eq!(TransactionState::Init, session.state());
    assert_eq!(Body::new(TransactionState::Init), session.body());
    handler.refuse_client = true;
    assert!(Session::open(&config, &mut handler, peer, 40001).is_none());
    assert_eq!(
        vec!["client [192.0.2.7] 40000".to_owned(), "client [192.0.2.7] 40001".to_owned()],
        handler.events
    );
    // Without a hook of its own an event handler takes every client.
    assert!(Session::open(&config, &mut Silent, peer, 1).is_some());
}

#[test]
fn test_body_start() {
    let config = config();
    let mut session = Session::new();
    let mut handler = Recorder::default();
    up_to_rcpt(&mut session, &config, &mut handler);
    session.dispatch(&config, &mut handler, "DATA");
    handler.events.clear();
    assert_eq!(BodyStep::More, session.body_start(&mut handler));
    assert_eq!(vec!["body start".to_owned()], handler.events);
    assert_eq!(TransactionState::Data, session.state());
    assert_eq!(Body::new(TransactionState::Rcpt), session.body());
    handler.refuse_start = true;
    assert_eq!(BodyStep::Close, session.body_start(&mut handler));
    assert_eq!(TransactionState::Data, session.state());
    assert_eq!(Body::new(TransactionState::Rcpt), session.body());
}
