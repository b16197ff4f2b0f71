//! The client: what is on its screen to read, what the user types, and what is
//! heard from the server.

use vstd::prelude::*;
#[allow(unused_imports)]
use vstd::utf8::{decode_utf8, valid_utf8};
use crate::frame::{frame, text_of, LineBuffer};
use crate::text::{
    chars_of, concat2, concat3, concat4, join, same, space, split_once, split_words, starts_with,
    strip_prefix, trim,
};
#[allow(unused_imports)]
use crate::frame::{complete_lines, framed, raw_lines, unfinished};
#[allow(unused_imports)]
use crate::rules::{command_of, payload_of};
#[allow(unused_imports)]
use crate::text::{is_space, joined, split_at_first, texts, trimmed, words};

verus! {

// ---------------------------------------------------------------------------
// The types

/// What a line on the screen is, which decides its colour.
#[derive(Clone, Copy, Debug, PartialEq, Eq, Structural)]
pub enum MsgKind {
    /// It was received.
    Normal,
    /// The user typed it.
    User,
    System,
    Warn,
    Error,
}

/// A line on the screen.
pub struct Message {
    pub kind: MsgKind,
    /// When it came.
    pub time: String,
    pub author: String,
    pub text: String,
}

/// The value of a [`Message`].
#[verifier::ext_equal]
pub struct MessageModel {
    pub kind: MsgKind,
    pub time: Seq<char>,
    pub author: Seq<char>,
    pub text: Seq<char>,
}

impl View for Message {
    type V = MessageModel;

    open spec fn view(&self) -> MessageModel {
        MessageModel {
            kind: self.kind,
            time: self.time@,
            author: self.author@,
            text: self.text@,
        }
    }
}

/// The values of messages.
pub open spec fn message_models(messages: Seq<Message>) -> Seq<MessageModel> {
    messages.map_values(|message: Message| message@)
}

/// The state that the commands share.
pub struct Ctx {
    /// Whether there is a connection.
    pub connected: bool,
    pub chat: Vec<Message>,
    /// Whether the client is to end.
    pub stop: bool,
    /// The server that it is connected to.
    pub server: Option<String>,
    /// The nickname that the server has given.
    pub user: String,
    /// What has come of a line that is not complete.
    pub pending: LineBuffer,
}

/// The value of a [`Ctx`].
#[verifier::ext_equal]
pub struct CtxModel {
    pub connected: bool,
    pub chat: Seq<MessageModel>,
    pub stop: bool,
    pub server: Option<Seq<char>>,
    pub user: Seq<char>,
    pub pending: Seq<u8>,
}

/// A string that may not be there, as text.
pub open spec fn opt_text(string: Option<String>) -> Option<Seq<char>> {
    match string {
        Some(string) => Some(string@),
        None => None,
    }
}

impl View for Ctx {
    type V = CtxModel;

    open spec fn view(&self) -> CtxModel {
        CtxModel {
            connected: self.connected,
            chat: message_models(self.chat@),
            stop: self.stop,
            server: opt_text(self.server),
            user: self.user@,
            pending: self.pending@,
        }
    }
}

/// A client without a connection and with nothing on its screen.
pub open spec fn fresh() -> CtxModel {
    CtxModel {
        connected: false,
        chat: seq![],
        stop: false,
        server: None,
        user: seq![],
        pending: seq![],
    }
}

impl CtxModel {
    /// There is a connection if and only if there is a server at its end.
    pub open spec fn valid(self) -> bool {
        self.connected == self.server is Some
    }

    /// With one more line on the screen.
    pub open spec fn with_message(self, message: MessageModel) -> CtxModel {
        CtxModel { chat: self.chat.push(message), ..self }
    }

    /// With one more line on the screen, in the name of the user.
    pub open spec fn with_line(self, kind: MsgKind, text: Seq<char>, time: Seq<char>) -> CtxModel {
        self.with_message(MessageModel { kind, time, author: self.user, text })
    }

    /// Without a connection.
    pub open spec fn offline(self) -> CtxModel {
        CtxModel { connected: false, server: None, pending: seq![], ..self }
    }
}

/// Something that the client orders to be done.
pub enum ClientAction {
    Nothing,
    /// Connect to an address, and report what came of it.
    Connect { address: String, token: Option<String> },
    /// Shut the connection down.
    Shutdown,
    /// Send this text.
    Send(String),
}

/// The value of a [`ClientAction`].
#[verifier::ext_equal]
pub enum ClientActionModel {
    Nothing,
    Connect { address: Seq<char>, token: Option<Seq<char>> },
    Shutdown,
    Send(Seq<char>),
}

impl View for ClientAction {
    type V = ClientActionModel;

    open spec fn view(&self) -> ClientActionModel {
        match self {
            ClientAction::Nothing => ClientActionModel::Nothing,
            ClientAction::Connect { address, token } => ClientActionModel::Connect {
                address: address@,
                token: opt_text(*token),
            },
            ClientAction::Shutdown => ClientActionModel::Shutdown,
            ClientAction::Send(text) => ClientActionModel::Send(text@),
        }
    }
}

// ---------------------------------------------------------------------------
// The commands

/// A command that the user can type behind a slash.
pub struct Command {
    pub name: &'static str,
    pub description: &'static str,
}

/// The commands and what is said of them.
pub open spec fn command_table() -> Seq<(Seq<char>, Seq<char>)> {
    seq![
        ("connect"@, "connect to a server: /connect <ip> <port> [token]"@),
        ("nickname"@, "ask for a nickname: /nickname <name>"@),
        ("disconnect"@, "disconnect the server"@),
        ("help"@, "show this help"@),
        ("quit"@, "quit the client"@),
        ("llm"@, "ask the language model of the server: /llm <prompt>"@),
    ]
}

/// The commands, with what is said of them.
pub fn commands() -> (table: Vec<Command>)
    ensures
        table@.map_values(|command: Command| (command.name@, command.description@))
            == command_table(),
{
    let mut table: Vec<Command> = Vec::new();
    table.push(
        Command {
            name: "connect",
            description: "connect to a server: /connect <ip> <port> [token]",
        },
    );
    table.push(
        Command { name: "nickname", description: "ask for a nickname: /nickname <name>" },
    );
    table.push(Command { name: "disconnect", description: "disconnect the server" });
    table.push(Command { name: "help", description: "show this help" });
    table.push(Command { name: "quit", description: "quit the client" });
    table.push(
        Command {
            name: "llm",
            description: "ask the language model of the server: /llm <prompt>",
        },
    );
    assert(table@.map_values(|command: Command| (command.name@, command.description@))
        =~= command_table());
    table
}

/// The names of the commands that start with some characters.
pub open spec fn matching_names(rest: Seq<char>) -> Seq<Seq<char>> {
    command_table().map_values(|entry: (Seq<char>, Seq<char>)| entry.0).filter(
        |name: Seq<char>| rest.is_prefix_of(name),
    )
}

/// Whether there is white space in `s`.
pub open spec fn has_space(s: Seq<char>) -> bool {
    exists|i: int| 0 <= i < s.len() && is_space(#[trigger] s[i])
}

/// What is typed, with the name of the command made complete where there is
/// one command only that it can be.
pub open spec fn completed(prompt: Seq<char>) -> Seq<char> {
    let rest = prompt.skip(1);
    if "/"@.is_prefix_of(prompt) && !has_space(rest) && matching_names(rest).len() == 1 {
        "/"@ + matching_names(rest)[0]
    } else {
        prompt
    }
}

/// Whether there is white space in `text`.
fn holds_space(text: &str) -> (yes: bool)
    ensures
        yes == has_space(text@),
{
    let chars: Vec<char> = chars_of(text);
    let mut i: usize = 0;
    while i < chars.len()
        invariant
            i <= chars.len(),
            chars@ == text@,
            forall|k: int| 0 <= k < i ==> !is_space(#[trigger] text@[k]),
        decreases chars.len() - i,
    {
        if space(chars[i]) {
            assert(is_space(text@[i as int]));
            return true;
        }
        i = i + 1;
    }
    false
}

/// What is typed, with the name of the command made complete where there is
/// one command only that it can be. Its arguments are not completed.
pub fn complete_command(prompt: &str) -> (line: String)
    ensures
        line@ == completed(prompt@),
{
    proof {
        reveal_strlit("/");
    }
    let rest: &str = match strip_prefix(prompt, "/") {
        Some(rest) => rest,
        None => {
            return prompt.to_owned();
        },
    };
    if holds_space(rest) {
        return prompt.to_owned();
    }
    let table: Vec<Command> = commands();
    let mut matching: Vec<&'static str> = Vec::new();
    let ghost names = command_table().map_values(|entry: (Seq<char>, Seq<char>)| entry.0);
    let ghost keep = |name: Seq<char>| rest@.is_prefix_of(name);
    let mut i: usize = 0;
    proof {
        reveal(Seq::filter);
        assert(matching@.map_values(|name: &'static str| name@) =~= names.take(0).filter(keep));
    }
    while i < table.len()
        invariant
            i <= table.len(),
            table@.map_values(|command: Command| (command.name@, command.description@))
                == command_table(),
            names == command_table().map_values(|entry: (Seq<char>, Seq<char>)| entry.0),
            keep == (|name: Seq<char>| rest@.is_prefix_of(name)),
            matching@.map_values(|name: &'static str| name@) == names.take(i as int).filter(keep),
        decreases table.len() - i,
    {
        let name: &'static str = table[i].name;
        proof {
            reveal(Seq::filter);
            let pairs = table@.map_values(
                |command: Command| (command.name@, command.description@),
            );
            assert(pairs[i as int] == command_table()[i as int]);
            assert(names[i as int] == name@);
            let next = names.take(i + 1);
            assert(next.drop_last() == names.take(i as int));
            assert(next.last() == name@);
            assert(matching@.push(name).map_values(|name: &'static str| name@)
                =~= matching@.map_values(|name: &'static str| name@).push(name@));
        }
        if starts_with(name, rest) {
            matching.push(name);
        }
        i = i + 1;
    }
    proof {
        let pairs = table@.map_values(|command: Command| (command.name@, command.description@));
        assert(pairs.len() == command_table().len());
        assert(names.take(i as int) =~= names);
        assert(matching@.map_values(|name: &'static str| name@) == matching_names(rest@));
        assert(matching@.len() == matching_names(rest@).len());
        if matching@.len() == 1 {
            assert(matching@.map_values(|name: &'static str| name@)[0] == matching@[0]@);
        }
    }
    if matching.len() == 1 {
        concat2("/", matching[0])
    } else {
        prompt.to_owned()
    }
}

// ---------------------------------------------------------------------------
// What the commands do

/// Connecting is asked for.
pub open spec fn on_connect(ctx: CtxModel, args: Seq<Seq<char>>, time: Seq<char>) -> (
    CtxModel,
    ClientActionModel,
) {
    if args.len() < 2 {
        (
            ctx.with_line(MsgKind::Warn, "usage: /connect <ip> <port> [token]"@, time),
            ClientActionModel::Nothing,
        )
    } else if ctx.connected {
        (
            ctx.with_line(MsgKind::Warn, "You already connected"@, time),
            ClientActionModel::Nothing,
        )
    } else {
        (
            ctx,
            ClientActionModel::Connect {
                address: args[0] + ":"@ + args[1],
                token: if args.len() > 2 {
                    Some(args[2])
                } else {
                    None
                },
            },
        )
    }
}

/// How a command is listed.
pub open spec fn help_line(entry: (Seq<char>, Seq<char>)) -> Seq<char> {
    "/"@ + entry.0 + " - "@ + entry.1
}

/// Commands are listed.
pub open spec fn on_help(
    ctx: CtxModel,
    table: Seq<(Seq<char>, Seq<char>)>,
    time: Seq<char>,
) -> CtxModel {
    CtxModel {
        chat: ctx.chat + table.map_values(
            |entry: (Seq<char>, Seq<char>)|
                MessageModel {
                    kind: MsgKind::System,
                    time,
                    author: ctx.user,
                    text: help_line(entry),
                },
        ),
        ..ctx
    }
}

/// Disconnecting is asked for.
pub open spec fn on_disconnect(ctx: CtxModel, time: Seq<char>) -> (CtxModel, ClientActionModel) {
    if ctx.connected {
        (ctx, ClientActionModel::Shutdown)
    } else {
        (
            ctx.with_line(MsgKind::Warn, "You are not login"@, time),
            ClientActionModel::Nothing,
        )
    }
}

/// A line is sent to the server, if there is a connection.
pub open spec fn on_send(ctx: CtxModel, line: Seq<char>, time: Seq<char>) -> (
    CtxModel,
    ClientActionModel,
) {
    if ctx.connected {
        (ctx, ClientActionModel::Send(framed(line)))
    } else {
        (
            ctx.with_line(MsgKind::Warn, "not connected, use /connect <ip> <port>"@, time),
            ClientActionModel::Nothing,
        )
    }
}

/// A nickname is asked for.
pub open spec fn on_ask_nickname(ctx: CtxModel, args: Seq<Seq<char>>, time: Seq<char>) -> (
    CtxModel,
    ClientActionModel,
) {
    if args.len() < 1 {
        (
            ctx.with_line(MsgKind::Warn, "usage: /nickname <name>"@, time),
            ClientActionModel::Nothing,
        )
    } else {
        on_send(ctx, "NICK "@ + args[0], time)
    }
}

/// The language model is asked.
pub open spec fn on_ask_llm(ctx: CtxModel, args: Seq<Seq<char>>, time: Seq<char>) -> (
    CtxModel,
    ClientActionModel,
) {
    if args.len() < 1 {
        (
            ctx.with_line(MsgKind::Warn, "usage: /llm <prompt>"@, time),
            ClientActionModel::Nothing,
        )
    } else {
        on_send(ctx, "LLM "@ + joined(args, " "@), time)
    }
}

/// A command is typed, with arguments.
pub open spec fn on_command(
    ctx: CtxModel,
    name: Seq<char>,
    args: Seq<Seq<char>>,
    time: Seq<char>,
) -> (CtxModel, ClientActionModel) {
    if name == "connect"@ {
        on_connect(ctx, args, time)
    } else if name == "nickname"@ {
        on_ask_nickname(ctx, args, time)
    } else if name == "disconnect"@ {
        on_disconnect(ctx, time)
    } else if name == "help"@ {
        (on_help(ctx, command_table(), time), ClientActionModel::Nothing)
    } else if name == "quit"@ {
        (CtxModel { stop: true, ..ctx }, ClientActionModel::Nothing)
    } else if name == "llm"@ {
        on_ask_llm(ctx, args, time)
    } else {
        (
            ctx.with_line(MsgKind::Error, "unknown command: /"@ + name, time),
            ClientActionModel::Nothing,
        )
    }
}

/// A line is typed: a command behind a slash, or something to say.
pub open spec fn on_prompt(ctx: CtxModel, prompt: Seq<char>, time: Seq<char>) -> (
    CtxModel,
    ClientActionModel,
) {
    let input = trimmed(prompt);
    if input.len() == 0 {
        (ctx, ClientActionModel::Nothing)
    } else if input[0] == '/' {
        let parts = words(input.skip(1));
        if parts.len() == 0 {
            on_command(ctx, seq![], seq![], time)
        } else {
            on_command(ctx, parts[0], parts.skip(1), time)
        }
    } else {
        on_send(ctx, "MSG "@ + input, time)
    }
}

impl Ctx {
    /// A client without a connection and with nothing on its screen.
    pub fn new() -> (ctx: Ctx)
        ensures
            ctx@ == fresh(),
    {
        let ctx: Ctx = Ctx {
            connected: false,
            chat: Vec::new(),
            stop: false,
            server: None,
            user: String::new(),
            pending: LineBuffer::new(),
        };
        assert(ctx@ =~= fresh());
        ctx
    }

    /// Puts a line on the screen, in the name of the user.
    pub fn msg(&mut self, kind: MsgKind, text: &str, time: &str)
        ensures
            final(self)@ == old(self)@.with_line(kind, text@, time@),
    {
        let author: String = self.user.clone();
        self.msg_from(author.as_str(), kind, text, time);
    }

    /// Puts a line on the screen, in the name of an author.
    pub fn msg_from(&mut self, author: &str, kind: MsgKind, text: &str, time: &str)
        ensures
            final(self)@ == old(self)@.with_message(
                (MessageModel { kind, time: time@, author: author@, text: text@ }),
            ),
    {
        let ghost before = self.chat@;
        let message: Message = Message {
            kind,
            time: time.to_owned(),
            author: author.to_owned(),
            text: text.to_owned(),
        };
        self.chat.push(message);
        assert(message_models(self.chat@) =~= message_models(before).push(message@));
        assert(message@ =~= (MessageModel { kind, time: time@, author: author@, text: text@ }));
    }

    /// Takes note that there is no connection.
    pub fn disconnect(&mut self)
        ensures
            final(self)@ == old(self)@.offline(),
    {
        self.connected = false;
        self.server = None;
        self.pending = LineBuffer::new();
        assert(self@ =~= old(self)@.offline());
    }

    /// Connecting is asked for.
    pub fn cmd_connect(&mut self, args: &[String], time: &str) -> (action: ClientAction)
        ensures
            (final(self)@, action@) == on_connect(old(self)@, texts(args@), time@),
    {
        if args.len() < 2 {
            self.msg(MsgKind::Warn, "usage: /connect <ip> <port> [token]", time);
            return ClientAction::Nothing;
        }
        if self.connected {
            self.msg(MsgKind::Warn, "You already connected", time);
            return ClientAction::Nothing;
        }
        let address: String = concat3(args[0].as_str(), ":", args[1].as_str());
        let token: Option<String> = if args.len() > 2 {
            Some(args[2].clone())
        } else {
            None
        };
        let action: ClientAction = ClientAction::Connect { address, token };
        assert(action@ =~= on_connect(self@, texts(args@), time@).1);
        action
    }

    /// The commands are listed.
    pub fn cmd_help(&mut self, time: &str)
        ensures
            final(self)@ == on_help(old(self)@, command_table(), time@),
    {
        let table: Vec<Command> = commands();
        let ghost before = self@;
        let ghost all = command_table();
        let mut i: usize = 0;
        proof {
            let pairs = table@.map_values(
                |command: Command| (command.name@, command.description@),
            );
            assert(pairs.len() == all.len());
            assert(on_help(before, all.take(0), time@) =~= before);
        }
        while i < table.len()
            invariant
                i <= table.len(),
                all == command_table(),
                table.len() == all.len(),
                table@.map_values(|command: Command| (command.name@, command.description@)) == all,
                self@ == on_help(before, all.take(i as int), time@),
            decreases table.len() - i,
        {
            let line: String = concat4("/", table[i].name, " - ", table[i].description);
            proof {
                let pairs = table@.map_values(
                    |command: Command| (command.name@, command.description@),
                );
                assert(pairs[i as int] == all[i as int]);
                assert(line@ == help_line(all[i as int]));
            }
            self.msg(MsgKind::System, line.as_str(), time);
            proof {
                let next = on_help(before, all.take(i + 1), time@);
                assert(all.take(i + 1) =~= all.take(i as int).push(all[i as int]));
                assert(next.chat =~= self@.chat);
                assert(next =~= self@);
            }
            i = i + 1;
        }
        assert(all.take(i as int) =~= all);
    }

    /// The client is to end.
    pub fn cmd_quit(&mut self)
        ensures
            final(self)@ == (CtxModel { stop: true, ..old(self)@ }),
    {
        self.stop = true;
    }

    /// Disconnecting is asked for. The connection is gone when the server has
    /// closed it, too.
    pub fn cmd_disconnect(&mut self, time: &str) -> (action: ClientAction)
        ensures
            (final(self)@, action@) == on_disconnect(old(self)@, time@),
    {
        if self.connected {
            ClientAction::Shutdown
        } else {
            self.msg(MsgKind::Warn, "You are not login", time);
            ClientAction::Nothing
        }
    }

    /// A line is sent to the server, if there is a connection.
    fn send(&mut self, line: &str, time: &str) -> (action: ClientAction)
        ensures
            (final(self)@, action@) == on_send(old(self)@, line@, time@),
    {
        if self.connected {
            ClientAction::Send(frame(line))
        } else {
            self.msg(MsgKind::Warn, "not connected, use /connect <ip> <port>", time);
            ClientAction::Nothing
        }
    }

    /// A nickname is asked for.
    pub fn cmd_nickname(&mut self, args: &[String], time: &str) -> (action: ClientAction)
        ensures
            (final(self)@, action@) == on_ask_nickname(old(self)@, texts(args@), time@),
    {
        if args.len() < 1 {
            self.msg(MsgKind::Warn, "usage: /nickname <name>", time);
            return ClientAction::Nothing;
        }
        self.send(concat2("NICK ", args[0].as_str()).as_str(), time)
    }

    /// The language model is asked.
    pub fn cmd_llm(&mut self, args: &Vec<String>, time: &str) -> (action: ClientAction)
        ensures
            (final(self)@, action@) == on_ask_llm(old(self)@, texts(args@), time@),
    {
        if args.len() < 1 {
            self.msg(MsgKind::Warn, "usage: /llm <prompt>", time);
            return ClientAction::Nothing;
        }
        self.send(concat2("LLM ", join(args, " ").as_str()).as_str(), time)
    }

    /// A command is typed, with arguments.
    fn run_command(&mut self, name: &str, args: &Vec<String>, time: &str) -> (action: ClientAction)
        ensures
            (final(self)@, action@) == on_command(old(self)@, name@, texts(args@), time@),
    {
        if same(name, "connect") {
            self.cmd_connect(args.as_slice(), time)
        } else if same(name, "nickname") {
            self.cmd_nickname(args.as_slice(), time)
        } else if same(name, "disconnect") {
            self.cmd_disconnect(time)
        } else if same(name, "help") {
            self.cmd_help(time);
            ClientAction::Nothing
        } else if same(name, "quit") {
            self.cmd_quit();
            ClientAction::Nothing
        } else if same(name, "llm") {
            self.cmd_llm(args, time)
        } else {
            self.msg(MsgKind::Error, concat2("unknown command: /", name).as_str(), time);
            ClientAction::Nothing
        }
    }

    /// A line is typed: a command behind a slash, or something to say.
    pub fn handle_prompt(&mut self, prompt: &str, time: &str) -> (action: ClientAction)
        ensures
            (final(self)@, action@) == on_prompt(old(self)@, prompt@, time@),
    {
        proof {
            reveal_strlit("/");
            reveal_strlit("");
        }
        let input: &str = trim(prompt);
        if input.is_empty() {
            return ClientAction::Nothing;
        }
        match strip_prefix(input, "/") {
            Some(rest) => {
                let mut parts: Vec<String> = split_words(rest);
                assert(input@[0] == '/') by {
                    assert("/"@[0] == '/');
                    assert(input@[0] == input@.subrange(0, 1)[0]);
                }
                assert(rest@ == input@.skip(1));
                if parts.len() == 0 {
                    assert(texts(parts@) =~= Seq::<Seq<char>>::empty());
                    assert(""@ =~= Seq::<char>::empty());
                    self.run_command("", &parts, time)
                } else {
                    let ghost all = parts@;
                    let name: String = parts.remove(0);
                    proof {
                        assert(texts(all)[0] == name@);
                        assert(texts(parts@) =~= texts(all).skip(1));
                    }
                    self.run_command(name.as_str(), &parts, time)
                }
            },
            None => {
                assert(input@[0] != '/') by {
                    if input@[0] == '/' {
                        assert("/"@ =~= input@.subrange(0, 1));
                    }
                }
                self.send(concat2("MSG ", input).as_str(), time)
            },
        }
    }
}

// ---------------------------------------------------------------------------
// What comes of an action

/// Why a connection did not come about.
pub enum ConnectFailure {
    /// The server could not be reached.
    Unreachable(String),
    /// The connection could not be set up for reading.
    Unusable(String),
}

/// What came of connecting to an address with a token.
pub open spec fn on_connected(
    ctx: CtxModel,
    address: Seq<char>,
    token: Option<Seq<char>>,
    time: Seq<char>,
) -> (CtxModel, ClientActionModel) {
    (
        CtxModel { connected: true, server: Some(address), pending: seq![], ..ctx }.with_line(
            MsgKind::System,
            "connected to "@ + address,
            time,
        ),
        match token {
            Some(token) => ClientActionModel::Send(framed(token)),
            None => ClientActionModel::Nothing,
        },
    )
}

/// What is said of a connection that did not come about.
pub open spec fn connect_failure_line(address: Seq<char>, failure: ConnectFailure) -> Seq<char> {
    match failure {
        ConnectFailure::Unreachable(error) => "could not connect to "@ + address + ": "@ + error@,
        ConnectFailure::Unusable(error) => error@,
    }
}

impl Ctx {
    /// There is a connection now. Where a token was given, it is the first line
    /// that is sent.
    pub fn connected_to(&mut self, address: String, token: Option<String>, time: &str) -> (action:
        ClientAction)
        ensures
            (final(self)@, action@) == on_connected(old(self)@, address@, opt_text(token), time@),
            final(self)@.valid(),
    {
        let line: String = concat2("connected to ", address.as_str());
        self.connected = true;
        self.server = Some(address);
        self.pending = LineBuffer::new();
        self.msg(MsgKind::System, line.as_str(), time);
        let action: ClientAction = match token {
            Some(token) => ClientAction::Send(frame(token.as_str())),
            None => ClientAction::Nothing,
        };
        assert(self@ =~= on_connected(old(self)@, address@, opt_text(token), time@).0);
        action
    }

    /// The connection did not come about.
    pub fn connect_failed(&mut self, address: &str, failure: &ConnectFailure, time: &str)
        ensures
            final(self)@ == old(self)@.with_line(
                MsgKind::Error,
                connect_failure_line(address@, *failure),
                time@,
            ),
    {
        match failure {
            ConnectFailure::Unreachable(error) => {
                let line: String = concat4("could not connect to ", address, ": ", error.as_str());
                self.msg(MsgKind::Error, line.as_str(), time);
            },
            ConnectFailure::Unusable(error) => {
                self.msg(MsgKind::Error, error.as_str(), time);
            },
        }
    }

    /// A text could not be sent.
    pub fn send_failed(&mut self, error: &str, time: &str)
        ensures
            final(self)@ == old(self)@.with_line(MsgKind::Error, error@, time@),
    {
        self.msg(MsgKind::Error, error, time);
    }

    /// The connection could not be shut down.
    pub fn shutdown_failed(&mut self, error: &str, time: &str)
        ensures
            final(self)@ == old(self)@.with_line(
                MsgKind::Error,
                "Failed to shutdown the connection : "@ + error@,
                time@,
            ),
    {
        self.msg(
            MsgKind::Error,
            concat2("Failed to shutdown the connection : ", error).as_str(),
            time,
        );
    }
}

// ---------------------------------------------------------------------------
// What is heard from the server

/// A line came from the server.
pub open spec fn on_server_line(ctx: CtxModel, line: Seq<char>, time: Seq<char>) -> CtxModel {
    let payload = payload_of(line);
    if command_of(line) == "MSG"@ {
        let (author, text) = match split_at_first(payload, ' ') {
            Some((author, text)) => (author, text),
            None => (payload, seq![]),
        };
        ctx.with_message(MessageModel { kind: MsgKind::Normal, time, author, text })
    } else if command_of(line) == "YOU"@ {
        CtxModel { user: payload, ..ctx }.with_line(MsgKind::Normal, line, time)
    } else if command_of(line) == "SYS"@ {
        ctx.with_line(MsgKind::System, payload, time)
    } else if command_of(line) == "ERR"@ {
        ctx.with_line(MsgKind::Error, payload, time)
    } else {
        ctx.with_line(MsgKind::Normal, line, time)
    }
}

/// Lines came from the server.
pub open spec fn after_server_lines(
    ctx: CtxModel,
    lines: Seq<Seq<char>>,
    time: Seq<char>,
) -> CtxModel
    decreases lines.len(),
{
    if lines.len() == 0 {
        ctx
    } else {
        on_server_line(after_server_lines(ctx, lines.drop_last(), time), lines.last(), time)
    }
}

/// What reading from the connection gave.
pub enum Received {
    /// The server has closed the connection.
    Closed,
    /// The next bytes.
    Bytes(Vec<u8>),
    /// There is nothing to read yet.
    Nothing,
    /// It did not work.
    Failed(String),
}

/// Whether each line is text.
pub open spec fn all_text(lines: Seq<Seq<u8>>) -> bool {
    forall|i: int| 0 <= i < lines.len() ==> valid_utf8(#[trigger] lines[i])
}

/// What each line says.
pub open spec fn decoded(lines: Seq<Seq<u8>>) -> Seq<Seq<char>> {
    lines.map_values(|line: Seq<u8>| decode_utf8(line))
}

/// Bytes came from the server: they are cut into lines, and a line that is not
/// complete waits for the rest of it.
pub open spec fn on_bytes(ctx: CtxModel, bytes: Seq<u8>, time: Seq<char>) -> CtxModel {
    let stream = ctx.pending + bytes;
    let ctx = CtxModel { pending: unfinished(stream), ..ctx };
    if all_text(complete_lines(stream)) {
        after_server_lines(ctx, decoded(complete_lines(stream)), time)
    } else {
        ctx
    }
}

/// Reading from the connection gave something.
pub open spec fn on_received(ctx: CtxModel, what: Received, time: Seq<char>) -> CtxModel {
    match what {
        Received::Closed => ctx.with_line(MsgKind::Warn, "disconnected"@, time).offline(),
        Received::Bytes(bytes) => on_bytes(ctx, bytes@, time),
        Received::Nothing => ctx,
        Received::Failed(error) => ctx.with_line(MsgKind::Error, error@, time).with_line(
            MsgKind::Warn,
            "disconnected"@,
            time,
        ).offline(),
    }
}

/// Whether all that was read can be understood: each line that is complete is
/// text.
pub open spec fn understood(ctx: CtxModel, what: Received) -> bool {
    match what {
        Received::Bytes(bytes) => all_text(complete_lines(ctx.pending + bytes@)),
        _ => true,
    }
}

impl Ctx {
    /// A line came from the server.
    pub fn handle_server_line(&mut self, line: &str, time: &str)
        ensures
            final(self)@ == on_server_line(old(self)@, line@, time@),
    {
        proof {
            reveal_strlit("");
            assert(""@ =~= Seq::<char>::empty());
        }
        let (command, payload): (&str, &str) = match split_once(line, ' ') {
            Some((command, payload)) => (command, payload),
            None => (line, ""),
        };
        if same(command, "MSG") {
            match split_once(payload, ' ') {
                Some((author, text)) => {
                    self.msg_from(author, MsgKind::Normal, text, time);
                },
                None => {
                    self.msg_from(payload, MsgKind::Normal, "", time);
                },
            }
        } else if same(command, "YOU") {
            self.user = payload.to_owned();
            self.msg(MsgKind::Normal, line, time);
        } else if same(command, "SYS") {
            self.msg(MsgKind::System, payload, time);
        } else if same(command, "ERR") {
            self.msg(MsgKind::Error, payload, time);
        } else {
            self.msg(MsgKind::Normal, line, time);
        }
    }

    /// Bytes came from the server. They may end in the middle of a line, or
    /// of a character. The answer is whether the lines are text; where one is
    /// not, none of them is taken in.
    fn take_bytes(&mut self, bytes: &[u8], time: &str) -> (understood: bool)
        ensures
            final(self)@ == on_bytes(old(self)@, bytes@, time@),
            understood == all_text(complete_lines(old(self)@.pending + bytes@)),
    {
        let ghost stream = self@.pending + bytes@;
        let lines: Vec<Vec<u8>> = self.pending.feed(bytes);
        let ghost raw = complete_lines(stream);
        let mut said: Vec<String> = Vec::new();
        let mut i: usize = 0;
        assert(texts(said@) =~= decoded(raw.take(0)));
        while i < lines.len()
            invariant
                i <= lines.len(),
                raw_lines(lines@) == raw,
                forall|k: int| 0 <= k < i ==> valid_utf8(#[trigger] raw[k]),
                texts(said@) == decoded(raw.take(i as int)),
                raw == complete_lines(old(self)@.pending + bytes@),
                self@ == (CtxModel {
                    pending: unfinished(old(self)@.pending + bytes@),
                    ..old(self)@
                }),
            decreases lines.len() - i,
        {
            assert(raw[i as int] == lines@[i as int]@);
            match text_of(lines[i].as_slice()) {
                Some(line) => {
                    let ghost before = said@;
                    said.push(line);
                    proof {
                        assert(texts(said@) =~= texts(before).push(line@));
                        assert(raw.take(i + 1) =~= raw.take(i as int).push(raw[i as int]));
                        assert(decoded(raw.take(i + 1)) =~= decoded(raw.take(i as int)).push(
                            decode_utf8(raw[i as int]),
                        ));
                    }
                },
                None => {
                    assert(!valid_utf8(raw[i as int]));
                    return false;
                },
            }
            i = i + 1;
        }
        assert(raw.len() == lines.len());
        assert(raw.take(i as int) =~= raw);
        let ghost cut = self@;
        let ghost all = decoded(raw);
        i = 0;
        while i < said.len()
            invariant
                i <= said.len(),
                texts(said@) == all,
                self@ == after_server_lines(cut, all.take(i as int), time@),
            decreases said.len() - i,
        {
            self.handle_server_line(said[i].as_str(), time);
            proof {
                let next = all.take(i + 1);
                assert(next.drop_last() =~= all.take(i as int));
                assert(all[i as int] == said@[i as int]@);
            }
            i = i + 1;
        }
        assert(all.len() == said.len());
        assert(all.take(i as int) =~= all);
        true
    }

    /// Reading from the connection gave something. The answer is whether it
    /// can be understood.
    pub fn received(&mut self, what: &Received, time: &str) -> (clear: bool)
        ensures
            final(self)@ == on_received(old(self)@, *what, time@),
            clear == understood(old(self)@, *what),
    {
        match what {
            Received::Closed => {
                self.msg(MsgKind::Warn, "disconnected", time);
                self.disconnect();
                true
            },
            Received::Bytes(bytes) => self.take_bytes(bytes.as_slice(), time),
            Received::Nothing => true,
            Received::Failed(error) => {
                self.msg(MsgKind::Error, error.as_str(), time);
                self.msg(MsgKind::Warn, "disconnected", time);
                self.disconnect();
                true
            },
        }
    }
}

} // verus!
