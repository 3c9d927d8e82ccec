//! The `server` module contains things needed to build an SMTP server, but
//! useless for an SMTP client.

use vstd::prelude::*;
use vstd::string::*;
use crate::common::ip::IpAddr;
use crate::server::state::StateSet;

pub mod commands;
pub mod reply;
pub mod session;
pub mod state;

verus! {

/// The fewest recipients that a server may set as its maximum.
pub const MIN_MAX_RECIPIENTS: usize = 100;

/// The smallest message size that a server may set as its maximum.
pub const MIN_MAX_MESSAGE_SIZE: usize = 65536;

/// The shortest line that a server may set as its maximum.
pub const MIN_MAX_LINE_SIZE: usize = 1000;

/// An error that occurs when a server is configured or starts up.
#[derive(PartialEq, Eq, Clone, Debug, Copy, Structural)]
pub enum ServerError {
    /// The hostname could not be retrieved from the system
    Hostname,
    /// Could not bind the socket
    Bind,
    /// Could not listen on the socket
    Listen,
    /// The maximum message size is under its floor
    MaxMessageSize,
    /// The maximum line size is under its floor
    MaxLineSize,
    /// The maximum number of recipients is under its floor
    MaxRecipients,
}

/// Tells whether an error occured during server setup.
pub type ServerResult<T> = Result<T, ServerError>;

/// The handlers that a command can be given.
#[derive(PartialEq, Eq, Clone, Copy, Debug, Structural)]
pub enum Handler {
    /// Takes the name of the client, for `HELO` and `EHLO`.
    Helo,
    /// Takes the address of the sender.
    Mail,
    /// Takes the address of a recipient.
    Rcpt,
    /// Starts the transfer of the message body.
    Data,
    /// Gives the transaction up.
    Rset,
    /// Declines to verify a user.
    Vrfy,
    /// Declines to expand a mailing list.
    Expn,
    /// Declines to help.
    Help,
    /// Does nothing.
    Noop,
    /// Ends the connection.
    Quit,
}

/// An email server command.
///
/// It is defined by the string you find at the start of the command line, for
/// example "MAIL FROM:" or "EHLO ", by the states of the transaction in which
/// it may run, and by the handler that runs it.
#[derive(Clone, Debug)]
pub struct Command {
    start: Option<String>,
    states: StateSet,
    handler: Option<Handler>,
}

/// What a command holds.
pub struct CommandView {
    pub start: Option<Seq<char>>,
    pub states: StateSet,
    pub handler: Option<Handler>,
}

impl CommandView {
    /// The command has a start string and a handler, so that it can run.
    pub open spec fn ready(self) -> bool {
        self.start is Some && self.handler is Some
    }
}

impl View for Command {
    type V = CommandView;

    closed spec fn view(&self) -> CommandView {
        CommandView {
            start: match self.start {
                Some(s) => Some(s@),
                None => None,
            },
            states: self.states,
            handler: self.handler,
        }
    }
}

impl Command {
    /// Creates a new command, which may run in every state and has neither a
    /// start string nor a handler yet.
    pub fn new() -> (c: Command)
        ensures
            c@ == (CommandView { start: None, states: StateSet::all(), handler: None }),
    {
        Command { start: None, states: StateSet::all(), handler: None }
    }

    /// Describes the start of the command line for this command.
    pub fn starts_with(&mut self, start: &str)
        ensures
            final(self)@ == (CommandView { start: Some(start@), ..old(self)@ }),
    {
        self.start = Some(start.to_owned());
    }

    /// Sets the states in which the command may run.
    pub fn allowed_in(&mut self, states: StateSet)
        ensures
            final(self)@ == (CommandView { states: states, ..old(self)@ }),
    {
        self.states = states;
    }

    /// Sets the handler to call for this command.
    pub fn middleware(&mut self, handler: Handler)
        ensures
            final(self)@ == (CommandView { handler: Some(handler), ..old(self)@ }),
    {
        self.handler = Some(handler);
    }

    /// Whether the command has a start string and a handler.
    pub fn ready(&self) -> (b: bool)
        ensures
            b == self@.ready(),
    {
        self.start.is_some() && self.handler.is_some()
    }

    /// The start of the command line for this command.
    pub fn start(&self) -> (s: Option<&str>)
        ensures
            match s {
                Some(text) => self@.start == Some(text@),
                None => self@.start is None,
            },
    {
        match &self.start {
            Some(s) => Some(s.as_str()),
            None => None,
        }
    }

    /// The states in which the command may run.
    pub fn states(&self) -> (s: StateSet)
        ensures
            s == self@.states,
    {
        self.states
    }

    /// The handler of the command.
    pub fn handler(&self) -> (h: Option<Handler>)
        ensures
            h == self@.handler,
    {
        self.handler
    }
}

/// An SMTP server configuration.
#[derive(Clone, Debug)]
pub struct ServerConfig {
    hostname: String,
    bind_address: IpAddr,
    port: u16,
    debug: bool,
    max_recipients: usize,
    max_message_size: usize,
    max_line_size: usize,
    commands: Vec<Command>,
    extensions: Vec<String>,
}

/// What a server configuration holds.
pub struct ServerConfigView {
    pub hostname: Seq<char>,
    pub bind_address: IpAddr,
    pub port: u16,
    pub debug: bool,
    pub max_recipients: usize,
    pub max_message_size: usize,
    pub max_line_size: usize,
    pub commands: Seq<CommandView>,
    pub extensions: Seq<Seq<char>>,
}

impl ServerConfigView {
    /// No limit is under its floor.
    pub open spec fn wf(self) -> bool {
        &&& self.max_recipients >= MIN_MAX_RECIPIENTS
        &&& self.max_message_size >= MIN_MAX_MESSAGE_SIZE
        &&& self.max_line_size >= MIN_MAX_LINE_SIZE
    }
}

/// The configuration that a server starts with: no hostname, the address
/// `0.0.0.0` and the port 25 to listen on, every limit at its floor, and
/// neither a command nor an extension.
pub open spec fn default_config() -> ServerConfigView {
    ServerConfigView {
        hostname: Seq::empty(),
        bind_address: IpAddr::Ipv4Addr(0, 0, 0, 0),
        port: 25,
        debug: false,
        max_recipients: MIN_MAX_RECIPIENTS,
        max_message_size: MIN_MAX_MESSAGE_SIZE,
        max_line_size: MIN_MAX_LINE_SIZE,
        commands: Seq::empty(),
        extensions: Seq::empty(),
    }
}

/// The error for the first limit that is under its floor, or nothing where
/// none is.
pub open spec fn limits_error(
    max_message_size: usize,
    max_line_size: usize,
    max_recipients: usize,
) -> Option<ServerError> {
    if max_message_size < MIN_MAX_MESSAGE_SIZE {
        Some(ServerError::MaxMessageSize)
    } else if max_line_size < MIN_MAX_LINE_SIZE {
        Some(ServerError::MaxLineSize)
    } else if max_recipients < MIN_MAX_RECIPIENTS {
        Some(ServerError::MaxRecipients)
    } else {
        None
    }
}

impl View for ServerConfig {
    type V = ServerConfigView;

    closed spec fn view(&self) -> ServerConfigView {
        ServerConfigView {
            hostname: self.hostname@,
            bind_address: self.bind_address,
            port: self.port,
            debug: self.debug,
            max_recipients: self.max_recipients,
            max_message_size: self.max_message_size,
            max_line_size: self.max_line_size,
            commands: Seq::new(self.commands@.len(), |i: int| self.commands@[i]@),
            extensions: Seq::new(self.extensions@.len(), |i: int| self.extensions@[i]@),
        }
    }
}

impl ServerConfig {
    /// Creates a configuration with neither a command nor an extension. It
    /// fails if a limit is under its floor, with the error of the first such
    /// limit among the maximum message size, the maximum line size and the
    /// maximum number of recipients.
    pub fn new(
        hostname: &str,
        bind_address: IpAddr,
        port: u16,
        debug: bool,
        max_message_size: usize,
        max_line_size: usize,
        max_recipients: usize,
    ) -> (res: ServerResult<ServerConfig>)
        ensures
            match limits_error(max_message_size, max_line_size, max_recipients) {
                Some(e) => res matches Err(f) && f == e,
                None => res matches Ok(c) && c@.wf() && c@ == (ServerConfigView {
                    hostname: hostname@,
                    bind_address,
                    port,
                    debug,
                    max_recipients,
                    max_message_size,
                    max_line_size,
                    commands: Seq::empty(),
                    extensions: Seq::empty(),
                }),
            },
    {
        if max_message_size < MIN_MAX_MESSAGE_SIZE {
            return Err(ServerError::MaxMessageSize);
        }
        if max_line_size < MIN_MAX_LINE_SIZE {
            return Err(ServerError::MaxLineSize);
        }
        if max_recipients < MIN_MAX_RECIPIENTS {
            return Err(ServerError::MaxRecipients);
        }
        let c = ServerConfig {
            hostname: hostname.to_owned(),
            bind_address,
            port,
            debug,
            max_recipients,
            max_message_size,
            max_line_size,
            commands: Vec::new(),
            extensions: Vec::new(),
        };
        assert(c@.commands =~= Seq::empty());
        assert(c@.extensions =~= Seq::empty());
        Ok(c)
    }

    /// The name of the server, which it gives when it greets and when it
    /// takes leave.
    pub fn hostname(&self) -> (h: &str)
        ensures
            h@ == self@.hostname,
    {
        self.hostname.as_str()
    }

    /// The address to listen on.
    pub fn bind_address(&self) -> (a: IpAddr)
        ensures
            a == self@.bind_address,
    {
        self.bind_address
    }

    /// The port to listen on.
    pub fn port(&self) -> (p: u16)
        ensures
            p == self@.port,
    {
        self.port
    }

    /// Whether the server reports what it does.
    pub fn debug(&self) -> (d: bool)
        ensures
            d == self@.debug,
    {
        self.debug
    }

    /// The most recipients that a message may have.
    pub fn max_recipients(&self) -> (n: usize)
        ensures
            n == self@.max_recipients,
    {
        self.max_recipients
    }

    /// The most bytes that the body of a message may have.
    pub fn max_message_size(&self) -> (n: usize)
        ensures
            n == self@.max_message_size,
    {
        self.max_message_size
    }

    /// The most bytes that a line may have.
    pub fn max_line_size(&self) -> (n: usize)
        ensures
            n == self@.max_line_size,
    {
        self.max_line_size
    }

    /// The number of commands.
    pub fn command_count(&self) -> (n: usize)
        ensures
            n == self@.commands.len(),
    {
        self.commands.len()
    }

    /// The command at position `i` of the table.
    pub fn command(&self, i: usize) -> (c: &Command)
        requires
            i < self@.commands.len(),
        ensures
            c@ == self@.commands[i as int],
    {
        &self.commands[i]
    }

    /// The number of extensions.
    pub fn extension_count(&self) -> (n: usize)
        ensures
            n == self@.extensions.len(),
    {
        self.extensions.len()
    }

    /// The name of the extension at position `i`.
    pub fn extension(&self, i: usize) -> (e: &str)
        requires
            i < self@.extensions.len(),
        ensures
            e@ == self@.extensions[i as int],
    {
        self.extensions[i].as_str()
    }
}

/// An SMTP server, with no commands by default.
pub struct Server<CT> {
    config: ServerConfig,
    container: CT,
}

impl<CT> Server<CT> {
    /// The configuration of the server.
    pub closed spec fn spec_config(&self) -> ServerConfigView {
        self.config@
    }

    /// The container of the server.
    pub closed spec fn spec_container(&self) -> CT {
        self.container
    }

    /// Creates a new SMTP server.
    ///
    /// The container can be of any type and can be used to get access to a
    /// bunch of things inside your commands, like database connections, a
    /// logger and more.
    pub fn new(container: CT) -> (s: Server<CT>)
        ensures
            s.spec_config() == default_config(),
            s.spec_config().wf(),
            s.spec_container() == container,
    {
        let config = ServerConfig {
            hostname: String::new(),
            bind_address: IpAddr::Ipv4Addr(0, 0, 0, 0),
            port: 25,
            debug: false,
            max_recipients: MIN_MAX_RECIPIENTS,
            max_message_size: MIN_MAX_MESSAGE_SIZE,
            max_line_size: MIN_MAX_LINE_SIZE,
            commands: Vec::new(),
            extensions: Vec::new(),
        };
        assert(config@.commands =~= Seq::empty());
        assert(config@.extensions =~= Seq::empty());
        Server { config, container }
    }

    /// The configuration of the server.
    pub fn config(&self) -> (c: &ServerConfig)
        ensures
            c@ == self.spec_config(),
    {
        &self.config
    }

    /// The container of the server.
    pub fn container(&self) -> (c: &CT)
        ensures
            *c == self.spec_container(),
    {
        &self.container
    }

    /// Sets the name of the server.
    pub fn set_hostname(&mut self, hostname: &str)
        ensures
            final(self).spec_config() == (ServerConfigView {
                hostname: hostname@,
                ..old(self).spec_config()
            }),
            final(self).spec_container() == old(self).spec_container(),
    {
        self.config.hostname = hostname.to_owned();
    }

    /// Sets the address and the port to listen on.
    pub fn set_address(&mut self, bind_address: IpAddr, port: u16)
        ensures
            final(self).spec_config() == (ServerConfigView {
                bind_address,
                port,
                ..old(self).spec_config()
            }),
            final(self).spec_container() == old(self).spec_container(),
    {
        self.config.bind_address = bind_address;
        self.config.port = port;
    }

    /// Sets whether the server reports what it does.
    pub fn set_debug(&mut self, debug: bool)
        ensures
            final(self).spec_config() == (ServerConfigView { debug, ..old(self).spec_config() }),
            final(self).spec_container() == old(self).spec_container(),
    {
        self.config.debug = debug;
    }

    /// Sets the maximum number of recipients of a message. Under 100 it is
    /// refused, and nothing changes.
    pub fn set_max_recipients(&mut self, max: usize) -> (res: ServerResult<()>)
        ensures
            max < MIN_MAX_RECIPIENTS ==> res == Err::<(), ServerError>(ServerError::MaxRecipients)
                && final(self).spec_config() == old(self).spec_config(),
            max >= MIN_MAX_RECIPIENTS ==> res is Ok && final(self).spec_config() == (
            ServerConfigView { max_recipients: max, ..old(self).spec_config() }),
            final(self).spec_container() == old(self).spec_container(),
    {
        if max < MIN_MAX_RECIPIENTS {
            return Err(ServerError::MaxRecipients);
        }
        self.config.max_recipients = max;
        Ok(())
    }

    /// Sets the maximum size of a message. Under 65536 it is refused, and
    /// nothing changes.
    pub fn set_max_message_size(&mut self, max: usize) -> (res: ServerResult<()>)
        ensures
            max < MIN_MAX_MESSAGE_SIZE ==> res == Err::<(), ServerError>(
                ServerError::MaxMessageSize,
            ) && final(self).spec_config() == old(self).spec_config(),
            max >= MIN_MAX_MESSAGE_SIZE ==> res is Ok && final(self).spec_config() == (
            ServerConfigView { max_message_size: max, ..old(self).spec_config() }),
            final(self).spec_container() == old(self).spec_container(),
    {
        if max < MIN_MAX_MESSAGE_SIZE {
            return Err(ServerError::MaxMessageSize);
        }
        self.config.max_message_size = max;
        Ok(())
    }

    /// Sets the maximum size of a line. Under 1000 it is refused, and nothing
    /// changes.
    pub fn set_max_line_size(&mut self, max: usize) -> (res: ServerResult<()>)
        ensures
            max < MIN_MAX_LINE_SIZE ==> res == Err::<(), ServerError>(ServerError::MaxLineSize)
                && final(self).spec_config() == old(self).spec_config(),
            max >= MIN_MAX_LINE_SIZE ==> res is Ok && final(self).spec_config() == (
            ServerConfigView { max_line_size: max, ..old(self).spec_config() }),
            final(self).spec_container() == old(self).spec_container(),
    {
        if max < MIN_MAX_LINE_SIZE {
            return Err(ServerError::MaxLineSize);
        }
        self.config.max_line_size = max;
        Ok(())
    }

    /// Adds a command to the server, behind those that it has. A command
    /// without a start string or without a handler is never run.
    pub fn add_command(&mut self, command: Command)
        ensures
            final(self).spec_config() == (ServerConfigView {
                commands: old(self).spec_config().commands.push(command@),
                ..old(self).spec_config()
            }),
            final(self).spec_container() == old(self).spec_container(),
    {
        self.config.commands.push(command);
        assert(self.config@.commands =~= old(self).config@.commands.push(command@));
    }

    /// Adds the commands to the server, in their order, behind those that it
    /// has.
    pub fn add_commands(&mut self, commands: Vec<Command>)
        ensures
            final(self).spec_config() == (ServerConfigView {
                commands: old(self).spec_config().commands + crate::server::commands::views(
                    commands@,
                ),
                ..old(self).spec_config()
            }),
            final(self).spec_container() == old(self).spec_container(),
    {
        let mut commands = commands;
        let ghost all = commands@;
        let ghost before = self.config@.commands;
        self.config.commands.append(&mut commands);
        assert(self.config@.commands =~= before + crate::server::commands::views(all));
    }

    /// Marks an SMTP extension as "supported" by the server.
    pub fn add_extension(&mut self, extension: &str)
        ensures
            final(self).spec_config() == (ServerConfigView {
                extensions: old(self).spec_config().extensions.push(extension@),
                ..old(self).spec_config()
            }),
            final(self).spec_container() == old(self).spec_container(),
    {
        self.config.extensions.push(extension.to_owned());
        assert(self.config@.extensions =~= old(self).config@.extensions.push(extension@));
    }
}

/// The length of the name that the system wrote into `buffer`: the name ends
/// before the first zero byte, or with the buffer.
pub open spec fn spec_hostname_len(buffer: Seq<u8>) -> nat
    decreases buffer.len(),
{
    if buffer.len() == 0 || buffer[0] == 0 {
        0
    } else {
        1 + spec_hostname_len(buffer.skip(1))
    }
}

/// Takes the name of the host out of what the system call for it gave: its
/// status, and the buffer that it filled. Any status but 0 is an error.
pub fn hostname_from_buffer(status: i32, buffer: &[u8]) -> (res: ServerResult<Vec<u8>>)
    ensures
        status != 0 ==> res == Err::<Vec<u8>, ServerError>(ServerError::Hostname),
        status == 0 ==> (res matches Ok(name) && name@ == buffer@.take(
            spec_hostname_len(buffer@) as int,
        )),
{
    if status != 0 {
        return Err(ServerError::Hostname);
    }
    let mut name: Vec<u8> = Vec::new();
    let mut i: usize = 0;
    assert(buffer@.skip(0) == buffer@);
    while i < buffer.len() && buffer[i] != 0
        invariant
            i <= buffer@.len(),
            name@ == buffer@.take(i as int),
            spec_hostname_len(buffer@) == i + spec_hostname_len(buffer@.skip(i as int)),
        decreases buffer@.len() - i,
    {
        name.push(buffer[i]);
        assert(buffer@.skip(i as int).skip(1) == buffer@.skip(i + 1));
        assert(buffer@.take(i as int).push(buffer@[i as int]) == buffer@.take(i + 1));
        i += 1;
    }
    Ok(name)
}

} // verus!
