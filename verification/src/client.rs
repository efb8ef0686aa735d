//! The client: what it asks of the daemon, and what it makes of the replies.

use vstd::prelude::*;
use vstd::string::*;

use crate::protocol::{
    decode_msg, Capability, ClientMsg, ClientToDaemon, DaemonMsg, DaemonToClient, PaneId,
    ProtocolError, SessionId, PROTOCOL_VERSION,
};
use crate::text::{parse_u64, parsed_u64};
use crate::wire::daemon_parsed;

verus! {

/// The hello of this client.
pub open spec fn hello_msg() -> ClientMsg {
    ClientMsg::Hello {
        version: PROTOCOL_VERSION,
        capabilities: seq![
            Capability::SplitVertical,
            Capability::SplitHorizontal,
            Capability::Tabs,
        ],
    }
}

/// Says hello, with everything that this client can display.
pub fn hello() -> (r: ClientToDaemon)
    ensures
        r@ == hello_msg(),
{
    let mut capabilities: Vec<Capability> = Vec::new();
    capabilities.push(Capability::SplitVertical);
    capabilities.push(Capability::SplitHorizontal);
    capabilities.push(Capability::Tabs);
    assert(capabilities@ =~= hello_msg()->capabilities);
    ClientToDaemon::Hello { version: PROTOCOL_VERSION, capabilities }
}

/// Why a request was not granted.
#[derive(Debug)]
pub enum ReplyError {
    /// The daemon closed the connection.
    Missing,
    /// The daemon replied with something else.
    Unexpected(DaemonToClient),
}

/// Whether a reply to a hello lets the client in: it has to confirm the
/// version.
pub open spec fn is_welcome(reply: DaemonMsg) -> bool {
    reply == (DaemonMsg::HelloAck { version: PROTOCOL_VERSION })
}

/// Checks the reply to a hello.
pub fn check_hello(reply: Option<DaemonToClient>) -> (r: Result<(), ReplyError>)
    ensures
        match reply {
            None => r == Err::<(), ReplyError>(ReplyError::Missing),
            Some(msg) => if is_welcome(msg@) {
                r is Ok
            } else {
                r == Err::<(), ReplyError>(ReplyError::Unexpected(msg))
            },
        },
{
    match reply {
        None => Err(ReplyError::Missing),
        Some(msg) => {
            match &msg {
                DaemonToClient::HelloAck { version } => {
                    if *version == PROTOCOL_VERSION {
                        return Ok(());
                    }
                },
                _ => {},
            }
            Err(ReplyError::Unexpected(msg))
        },
    }
}

/// Checks the reply to a request to attach: it has to name a pane.
pub fn check_attach(reply: Option<DaemonToClient>) -> (r: Result<PaneId, ReplyError>)
    ensures
        match reply {
            None => r == Err::<PaneId, ReplyError>(ReplyError::Missing),
            Some(msg) => match msg@ {
                DaemonMsg::AttachOk { pane } => r == Ok::<PaneId, ReplyError>(pane),
                _ => r == Err::<PaneId, ReplyError>(ReplyError::Unexpected(msg)),
            },
        },
{
    match reply {
        None => Err(ReplyError::Missing),
        Some(DaemonToClient::AttachOk { pane }) => Ok(pane),
        Some(other) => Err(ReplyError::Unexpected(other)),
    }
}

/// Reads a reply from the payload of a frame. A stream that has ended holds
/// none.
pub fn decode_reply(payload: &Option<Vec<u8>>) -> (r: Result<Option<DaemonToClient>, ProtocolError>)
    ensures
        match payload {
            None => r matches Ok(reply) && reply is None,
            Some(bytes) => match daemon_parsed(bytes@) {
                Ok(msg) => r matches Ok(Some(m)) && m@ == msg,
                Err(text) => r matches Err(ProtocolError::Decode(reason)) && reason@ == text,
            },
        },
{
    match payload {
        None => Ok(None),
        Some(bytes) => {
            let msg: DaemonToClient = decode_msg(bytes.as_slice())?;
            Ok(Some(msg))
        },
    }
}

/// What the client was started for.
#[derive(Debug, PartialEq, Eq)]
pub enum Command {
    /// Create a session.
    Create { name: String },
    /// Attach to a session.
    Attach { session: SessionId },
    /// See whether the daemon is there.
    Ping,
}

/// The contents of a [`Command`].
pub enum CommandView {
    Create { name: Seq<char> },
    Attach { session: SessionId },
    Ping,
}

impl View for Command {
    type V = CommandView;

    open spec fn view(&self) -> CommandView {
        match self {
            Command::Create { name } => CommandView::Create { name: name@ },
            Command::Attach { session } => CommandView::Attach { session: *session },
            Command::Ping => CommandView::Ping,
        }
    }
}

/// What is wrong with the arguments of the client.
#[derive(Debug, PartialEq, Eq, Clone, Copy, Structural)]
pub enum UsageError {
    SessionRequired,
    SessionNotNumber,
}

impl UsageError {
    /// The text of the error.
    pub open spec fn text(self) -> Seq<char> {
        match self {
            UsageError::SessionRequired => "session id required"@,
            UsageError::SessionNotNumber => "session id must be number"@,
        }
    }

    /// Describes the error to a person.
    pub fn message(&self) -> (r: String)
        ensures
            r@ == self.text(),
    {
        match self {
            UsageError::SessionRequired => "session id required".to_owned(),
            UsageError::SessionNotNumber => "session id must be number".to_owned(),
        }
    }
}

/// The texts of some strings.
pub open spec fn texts(args: Seq<String>) -> Seq<Seq<char>> {
    args.map_values(|s: String| s@)
}

/// What the arguments of the client ask for. The first argument is the name
/// of the program. Any word but the two that are known means a ping.
pub open spec fn parsed_command(args: Seq<Seq<char>>) -> Result<CommandView, UsageError> {
    if args.len() >= 2 && args[1] == "create"@ {
        Ok(
            CommandView::Create {
                name: if args.len() >= 3 {
                    args[2]
                } else {
                    "default"@
                },
            },
        )
    } else if args.len() >= 2 && args[1] == "attach"@ {
        if args.len() < 3 {
            Err(UsageError::SessionRequired)
        } else {
            match parsed_u64(args[2]) {
                Some(session) => Ok(CommandView::Attach { session }),
                None => Err(UsageError::SessionNotNumber),
            }
        }
    } else {
        Ok(CommandView::Ping)
    }
}

/// Reads the arguments of the client.
pub fn parse_command(args: &Vec<String>) -> (r: Result<Command, UsageError>)
    ensures
        match parsed_command(texts(args@)) {
            Ok(command) => r matches Ok(c) && c@ == command,
            Err(e) => r == Err::<Command, UsageError>(e),
        },
{
    if args.len() < 2 {
        return Ok(Command::Ping);
    }
    if args[1] == "create".to_owned() {
        let name: String = if args.len() >= 3 {
            args[2].clone()
        } else {
            "default".to_owned()
        };
        Ok(Command::Create { name })
    } else if args[1] == "attach".to_owned() {
        if args.len() < 3 {
            return Err(UsageError::SessionRequired);
        }
        match parse_u64(args[2].as_str()) {
            Some(session) => Ok(Command::Attach { session }),
            None => Err(UsageError::SessionNotNumber),
        }
    } else {
        Ok(Command::Ping)
    }
}

/// The request that a command leads to.
pub open spec fn request_of(command: CommandView) -> ClientMsg {
    match command {
        CommandView::Create { name } => ClientMsg::CreateSession { name },
        CommandView::Attach { session } => ClientMsg::Attach { session },
        CommandView::Ping => ClientMsg::Ping(42),
    }
}

impl Command {
    /// The request that the command leads to.
    pub fn request(&self) -> (r: ClientToDaemon)
        ensures
            r@ == request_of(self@),
    {
        match self {
            Command::Create { name } => ClientToDaemon::CreateSession { name: name.clone() },
            Command::Attach { session } => ClientToDaemon::Attach { session: *session },
            Command::Ping => ClientToDaemon::Ping(42),
        }
    }
}

/// The size of a terminal.
#[derive(Debug, PartialEq, Eq, Clone, Copy, Structural)]
pub struct WindowSize {
    pub cols: u16,
    pub rows: u16,
}

/// Tells the daemon the size of the terminal, where that is known.
pub fn resize_request(pane: PaneId, size: Option<WindowSize>) -> (r: Option<ClientToDaemon>)
    ensures
        match size {
            Some(size) => r matches Some(msg) && msg@ == (ClientMsg::Resize {
                pane,
                cols: size.cols,
                rows: size.rows,
            }),
            None => r is None,
        },
{
    match size {
        Some(size) => Some(ClientToDaemon::Resize { pane, cols: size.cols, rows: size.rows }),
        None => None,
    }
}

/// What to do with a message that arrives while a pane is shown.
#[derive(Debug, PartialEq, Eq)]
pub enum OutputStep {
    /// Show these bytes.
    Print(Vec<u8>),
    /// Nothing.
    Skip,
    /// The daemon has closed the connection.
    Stop,
}

/// What to do with a message that arrives while a pane is shown. Only the
/// output of the pane is shown.
pub fn output_step(reply: Option<DaemonToClient>) -> (r: OutputStep)
    ensures
        match reply {
            None => r is Stop,
            Some(msg) => match msg@ {
                DaemonMsg::PaneData { pane, data } => r matches OutputStep::Print(bytes) && bytes@
                    == data,
                _ => r is Skip,
            },
        },
{
    match reply {
        None => OutputStep::Stop,
        Some(DaemonToClient::PaneData { pane: _, data }) => OutputStep::Print(data),
        Some(_) => OutputStep::Skip,
    }
}

/// How long the client sleeps when there is no input, in milliseconds.
pub const NAP_MS: u64 = 2;

/// What became of an attempt to read what the user types.
#[derive(Debug)]
pub enum InputEvent {
    /// These bytes came, and whether the terminal has another size since the
    /// last time. No bytes mean that the input has ended.
    Data { bytes: Vec<u8>, resized: bool },
    /// Nothing is there, and whether the daemon is.
    WouldBlock { alive: bool },
    /// A signal came first.
    Interrupted,
    /// The input is broken.
    Failed,
}

/// What to do after an attempt to read what the user types.
#[derive(Debug, PartialEq, Eq)]
pub enum InputStep {
    /// Send this message, where `resize` holds after the size of the terminal.
    Send { resize: bool, msg: ClientToDaemon },
    /// Sleep for [`NAP_MS`], then read again.
    Nap,
    /// Read again at once.
    Again,
    /// The work is done.
    Quit,
    /// Give up.
    Fail,
}

/// The input of the user on its way to a pane.
pub struct InputLoop {
    pane: PaneId,
    limit: Option<u64>,
    idle_ms: u64,
}

impl InputLoop {
    /// The pane that gets the input.
    pub closed spec fn pane(&self) -> PaneId {
        self.pane
    }

    /// After how many idle milliseconds the client gives up, if ever.
    pub closed spec fn limit(&self) -> Option<u64> {
        self.limit
    }

    /// For how many milliseconds there was no input.
    pub closed spec fn idle(&self) -> u64 {
        self.idle_ms
    }

    /// Starts to read the input for a pane.
    pub fn new(pane: PaneId, limit: Option<u64>) -> (r: InputLoop)
        ensures
            r.pane() == pane,
            r.limit() == limit,
            r.idle() == 0,
    {
        InputLoop { pane, limit, idle_ms: 0 }
    }

    /// For how many milliseconds there was no input.
    pub fn idle_ms(&self) -> (r: u64)
        ensures
            r == self.idle(),
    {
        self.idle_ms
    }

    /// Takes what came of an attempt to read. Time is counted only where it is
    /// limited.
    pub fn step(&mut self, event: InputEvent) -> (r: InputStep)
        requires
            old(self).idle() <= u64::MAX - NAP_MS,
        ensures
            final(self).pane() == old(self).pane(),
            final(self).limit() == old(self).limit(),
            match event {
                InputEvent::Data { bytes, resized } => if bytes@.len() == 0 {
                    r is Quit && final(self).idle() == old(self).idle()
                } else {
                    &&& r matches InputStep::Send { resize, msg }
                    &&& resize == resized
                    &&& msg@ == (ClientMsg::Stdin { pane: old(self).pane(), data: bytes@ })
                    &&& final(self).idle() == 0
                },
                InputEvent::WouldBlock { alive } => match old(self).limit() {
                    Some(limit) => {
                        &&& final(self).idle() == old(self).idle() + NAP_MS
                        &&& if final(self).idle() >= limit || !alive {
                            r is Quit
                        } else {
                            r is Nap
                        }
                    },
                    None => {
                        &&& final(self).idle() == old(self).idle()
                        &&& if alive {
                            r is Nap
                        } else {
                            r is Quit
                        }
                    },
                },
                InputEvent::Interrupted => r is Again && final(self).idle() == old(self).idle(),
                InputEvent::Failed => r is Fail && final(self).idle() == old(self).idle(),
            },
    {
        match event {
            InputEvent::Data { bytes, resized } => {
                if bytes.is_empty() {
                    return InputStep::Quit;
                }
                self.idle_ms = 0;
                InputStep::Send {
                    resize: resized,
                    msg: ClientToDaemon::Stdin { pane: self.pane, data: bytes },
                }
            },
            InputEvent::WouldBlock { alive } => {
                match self.limit {
                    Some(limit) => {
                        self.idle_ms = self.idle_ms + NAP_MS;
                        if self.idle_ms >= limit {
                            return InputStep::Quit;
                        }
                    },
                    None => {},
                }
                if !alive {
                    InputStep::Quit
                } else {
                    InputStep::Nap
                }
            },
            InputEvent::Interrupted => InputStep::Again,
            InputEvent::Failed => InputStep::Fail,
        }
    }
}

/// The idle limit that a setting expresses: a number of milliseconds. A
/// setting that is no number counts as none.
pub fn idle_limit(setting: &Option<String>) -> (r: Option<u64>)
    ensures
        r == match setting {
            Some(text) => parsed_u64(text@),
            None => None,
        },
{
    match setting {
        Some(text) => parse_u64(text.as_str()),
        None => None,
    }
}

/// The modes of a terminal, as bits.
#[derive(Debug, PartialEq, Eq, Clone, Copy, Structural)]
pub struct Modes {
    pub input: u32,
    pub output: u32,
    pub control: u32,
    pub local: u32,
}

/// The bits of a terminal's flags, as the system numbers them.
#[derive(Debug, PartialEq, Eq, Clone, Copy, Structural)]
pub struct Flags {
    /// A break raises a signal.
    pub brkint: u32,
    /// Carriage returns are read as newlines.
    pub icrnl: u32,
    /// Parity is checked.
    pub inpck: u32,
    /// The eighth bit is dropped.
    pub istrip: u32,
    /// Two keys stop and resume output.
    pub ixon: u32,
    /// Output is processed.
    pub opost: u32,
    /// Characters have eight bits.
    pub cs8: u32,
    /// Keys are shown.
    pub echo: u32,
    /// Input comes by lines.
    pub icanon: u32,
    /// Some keys edit in more ways.
    pub iexten: u32,
    /// Some keys raise signals.
    pub isig: u32,
}

/// The flags that tell raw modes from others: `control` holds those to set,
/// the other three those to clear.
pub open spec fn raw_bits_of(flags: Flags) -> Modes {
    Modes {
        input: flags.brkint | flags.icrnl | flags.inpck | flags.istrip | flags.ixon,
        output: flags.opost,
        control: flags.cs8,
        local: flags.echo | flags.icanon | flags.iexten | flags.isig,
    }
}

/// Chooses the flags that tell raw modes from others.
pub fn raw_bits(flags: Flags) -> (r: Modes)
    ensures
        r == raw_bits_of(flags),
{
    Modes {
        input: flags.brkint | flags.icrnl | flags.inpck | flags.istrip | flags.ixon,
        output: flags.opost,
        control: flags.cs8,
        local: flags.echo | flags.icanon | flags.iexten | flags.isig,
    }
}

/// The raw form of some modes. Of `bits`, `control` holds those to set, the
/// other three those to clear.
pub open spec fn raw(modes: Modes, bits: Modes) -> Modes {
    Modes {
        input: modes.input & !bits.input,
        output: modes.output & !bits.output,
        control: modes.control | bits.control,
        local: modes.local & !bits.local,
    }
}

/// The modes in which a terminal hands on every key as it is.
pub fn raw_modes(modes: Modes, bits: Modes) -> (r: Modes)
    ensures
        r == raw(modes, bits),
{
    Modes {
        input: modes.input & !bits.input,
        output: modes.output & !bits.output,
        control: modes.control | bits.control,
        local: modes.local & !bits.local,
    }
}

} // verus!
