use hat::bans::{Address, Ip};
use hat::client::{
    commands, complete_command, ClientAction, ConnectFailure, Ctx, MsgKind, Received,
};
use hat::connection::{next_action, LineAction, ReadOutcome};
use hat::frame::frame;
use hat::model::{Effect, Outbound};
use hat::server::Server;

const TIME: &str = "12:34:56";

fn online() -> Ctx {
    let mut ctx = Ctx::new();
    ctx.connected_to("127.0.0.1:6969".to_owned(), None, TIME);
    ctx.chat.clear();
    ctx
}

fn last(ctx: &Ctx) -> (MsgKind, &str, &str) {
    let message = ctx.chat.last().unwrap();
    assert_eq!(message.time, TIME);
    (message.kind, message.author.as_str(), message.text.as_str())
}

fn sent(action: ClientAction) -> Option<String> {
    match action {
        ClientAction::Send(text) => Some(text),
        _ => None,
    }
}

fn nothing(action: ClientAction) -> bool {
    matches!(action, ClientAction::Nothing)
}

#[test]
fn client_starts_without_a_connection() {
    let ctx = Ctx::new();
    assert!(!ctx.connected && !ctx.stop && ctx.chat.is_empty());
    assert_eq!(ctx.server, None);
    assert_eq!(ctx.user, "");
}

#[test]
fn commands_are_the_known_ones() {
    let names: Vec<&str> = commands().iter().map(|command| command.name).collect();
    assert_eq!(names, vec!["connect", "nickname", "disconnect", "help", "quit", "llm"]);
}

#[test]
fn command_is_completed() {
    assert_eq!(complete_command("/c"), "/connect");
    assert_eq!(complete_command("/disc"), "/disconnect");
    assert_eq!(complete_command("/quit"), "/quit");
    // All commands match, or none.
    assert_eq!(complete_command("/"), "/");
    assert_eq!(complete_command("/x"), "/x");
    assert_eq!(complete_command("/helpx"), "/helpx");
    // No command, or an argument.
    assert_eq!(complete_command("c"), "c");
    assert_eq!(complete_command(""), "");
    assert_eq!(complete_command(" /c"), " /c");
    assert_eq!(complete_command("/c "), "/c ");
    assert_eq!(complete_command("/c 1"), "/c 1");
}

#[test]
fn completion_is_final() {
    for command in commands() {
        let full = format!("/{}", command.name);
        assert_eq!(complete_command(&full), full);
        let short = &full[..2];
        assert_eq!(complete_command(short), full);
        assert_eq!(complete_command(&complete_command(short)), full);
    }
}

#[test]
fn text_is_sent_as_a_message() {
    let mut ctx = online();
    assert_eq!(sent(ctx.handle_prompt("  hello there ", TIME)), Some("MSG hello there\n".to_owned()));
    assert!(ctx.chat.is_empty());
}

#[test]
fn text_is_not_sent_without_a_connection() {
    let mut ctx = Ctx::new();
    assert!(nothing(ctx.handle_prompt("hello", TIME)));
    assert_eq!(last(&ctx), (MsgKind::Warn, "", "not connected, use /connect <ip> <port>"));
}

#[test]
fn empty_line_does_nothing() {
    let mut ctx = online();
    assert!(nothing(ctx.handle_prompt(" \t ", TIME)));
    assert!(ctx.chat.is_empty());
}

#[test]
fn unknown_command_is_named() {
    let mut ctx = online();
    assert!(nothing(ctx.handle_prompt("/foo bar", TIME)));
    assert_eq!(last(&ctx), (MsgKind::Error, "", "unknown command: /foo"));
    assert!(nothing(ctx.handle_prompt("/", TIME)));
    assert_eq!(last(&ctx), (MsgKind::Error, "", "unknown command: /"));
    // White space behind the slash does not hide a command.
    assert!(nothing(ctx.handle_prompt("/ quit", TIME)));
    assert!(ctx.stop);
}

#[test]
fn help_lists_the_commands() {
    let mut ctx = Ctx::new();
    assert!(nothing(ctx.handle_prompt("/help", TIME)));
    let lines: Vec<&str> = ctx.chat.iter().map(|message| message.text.as_str()).collect();
    assert_eq!(
        lines,
        vec![
            "/connect - connect to a server: /connect <ip> <port> [token]",
            "/nickname - ask for a nickname: /nickname <name>",
            "/disconnect - disconnect the server",
            "/help - show this help",
            "/quit - quit the client",
            "/llm - ask the language model of the server: /llm <prompt>",
        ]
    );
    assert!(ctx.chat.iter().all(|message| message.kind == MsgKind::System));
}

#[test]
fn quit_stops() {
    let mut ctx = Ctx::new();
    assert!(nothing(ctx.handle_prompt("/quit", TIME)));
    assert!(ctx.stop);
}

#[test]
fn connecting_needs_an_address() {
    let mut ctx = Ctx::new();
    assert!(nothing(ctx.handle_prompt("/connect 127.0.0.1", TIME)));
    assert_eq!(last(&ctx), (MsgKind::Warn, "", "usage: /connect <ip> <port> [token]"));
}

#[test]
fn connecting_twice_is_refused() {
    let mut ctx = online();
    assert!(nothing(ctx.handle_prompt("/connect 127.0.0.1 6969", TIME)));
    assert_eq!(last(&ctx), (MsgKind::Warn, "", "You already connected"));
}

#[test]
fn connecting_with_the_token() {
    let mut ctx = Ctx::new();
    match ctx.handle_prompt("/connect 127.0.0.1 6969 ABCDEF", TIME) {
        ClientAction::Connect { address, token } => {
            assert_eq!(address, "127.0.0.1:6969");
            assert_eq!(token.as_deref(), Some("ABCDEF"));
            let action = ctx.connected_to(address, token, TIME);
            assert_eq!(sent(action), Some("ABCDEF\n".to_owned()));
        }
        _ => panic!("no connection is asked for"),
    }
    assert!(ctx.connected);
    assert_eq!(ctx.server.as_deref(), Some("127.0.0.1:6969"));
    assert_eq!(last(&ctx), (MsgKind::System, "", "connected to 127.0.0.1:6969"));
}

#[test]
fn connecting_without_a_token_sends_nothing() {
    let mut ctx = Ctx::new();
    match ctx.handle_prompt("/connect h 1", TIME) {
        ClientAction::Connect { address, token } => {
            assert_eq!(address, "h:1");
            assert_eq!(token, None);
            assert!(nothing(ctx.connected_to(address, token, TIME)));
        }
        _ => panic!("no connection is asked for"),
    }
}

#[test]
fn failures_are_told() {
    let mut ctx = Ctx::new();
    ctx.connect_failed("h:1", &ConnectFailure::Unreachable("refused".to_owned()), TIME);
    assert_eq!(last(&ctx), (MsgKind::Error, "", "could not connect to h:1: refused"));
    assert!(!ctx.connected);
    ctx.connect_failed("h:1", &ConnectFailure::Unusable("blocking".to_owned()), TIME);
    assert_eq!(last(&ctx), (MsgKind::Error, "", "blocking"));
    ctx.send_failed("broken pipe", TIME);
    assert_eq!(last(&ctx), (MsgKind::Error, "", "broken pipe"));
    ctx.shutdown_failed("not connected", TIME);
    assert_eq!(
        last(&ctx),
        (MsgKind::Error, "", "Failed to shutdown the connection : not connected")
    );
}

#[test]
fn disconnecting_shuts_the_connection_down() {
    let mut ctx = online();
    assert!(matches!(ctx.handle_prompt("/disconnect", TIME), ClientAction::Shutdown));
    // It is gone when the server has closed it, too.
    assert!(ctx.connected);
    assert!(ctx.received(&Received::Closed, TIME));
    assert!(!ctx.connected);
    assert_eq!(ctx.server, None);
    assert_eq!(last(&ctx), (MsgKind::Warn, "", "disconnected"));
    assert!(nothing(ctx.handle_prompt("/disconnect", TIME)));
    assert_eq!(last(&ctx), (MsgKind::Warn, "", "You are not login"));
}

#[test]
fn nickname_is_asked_for() {
    let mut ctx = online();
    assert_eq!(sent(ctx.handle_prompt("/nickname alice", TIME)), Some("NICK alice\n".to_owned()));
    assert!(nothing(ctx.handle_prompt("/nickname", TIME)));
    assert_eq!(last(&ctx), (MsgKind::Warn, "", "usage: /nickname <name>"));
    let mut ctx = Ctx::new();
    assert!(nothing(ctx.handle_prompt("/nickname alice", TIME)));
    assert_eq!(last(&ctx), (MsgKind::Warn, "", "not connected, use /connect <ip> <port>"));
}

#[test]
fn language_model_is_asked() {
    let mut ctx = online();
    assert_eq!(
        sent(ctx.handle_prompt("/llm why  is that?", TIME)),
        Some("LLM why is that?\n".to_owned())
    );
    assert!(nothing(ctx.handle_prompt("/llm", TIME)));
    assert_eq!(last(&ctx), (MsgKind::Warn, "", "usage: /llm <prompt>"));
}

#[test]
fn lines_of_the_server_are_shown() {
    let mut ctx = online();
    ctx.handle_server_line("YOU bob", TIME);
    assert_eq!(ctx.user, "bob");
    assert_eq!(last(&ctx), (MsgKind::Normal, "bob", "YOU bob"));
    ctx.handle_server_line("MSG alice hello  there", TIME);
    assert_eq!(last(&ctx), (MsgKind::Normal, "alice", "hello  there"));
    ctx.handle_server_line("MSG alice", TIME);
    assert_eq!(last(&ctx), (MsgKind::Normal, "alice", ""));
    ctx.handle_server_line("SYS carol joined the chat", TIME);
    assert_eq!(last(&ctx), (MsgKind::System, "bob", "carol joined the chat"));
    ctx.handle_server_line("ERR nickname is already in use", TIME);
    assert_eq!(last(&ctx), (MsgKind::Error, "bob", "nickname is already in use"));
    ctx.handle_server_line("NICK alice al", TIME);
    assert_eq!(last(&ctx), (MsgKind::Normal, "bob", "NICK alice al"));
    ctx.handle_server_line("LLM because", TIME);
    assert_eq!(last(&ctx), (MsgKind::Normal, "bob", "LLM because"));
    assert_eq!(ctx.chat.len(), 7);
}

#[test]
fn client_hears_the_same_in_pieces() {
    let stream = "SYS 你好 😀\nMSG alice 中文\nYOU bob\nMSG al".as_bytes();
    let mut whole = online();
    assert!(whole.received(&Received::Bytes(stream.to_vec()), TIME));
    assert_eq!(whole.chat.len(), 3);
    for size in 1..stream.len() {
        let mut ctx = online();
        for piece in stream.chunks(size) {
            assert!(ctx.received(&Received::Bytes(piece.to_vec()), TIME));
        }
        assert_eq!(ctx.chat.len(), 3);
        for (a, b) in ctx.chat.iter().zip(&whole.chat) {
            assert_eq!((a.kind, &a.author, &a.text), (b.kind, &b.author, &b.text));
        }
        assert!(ctx.received(&Received::Bytes(b"ice x\n".to_vec()), TIME));
        assert_eq!(last(&ctx), (MsgKind::Normal, "alice", "x"));
    }
}

#[test]
fn line_that_is_not_text_is_not_understood() {
    let mut ctx = online();
    assert!(ctx.received(&Received::Bytes(vec![0xff, 0xfe]), TIME));
    assert!(!ctx.received(&Received::Bytes(b"\nSYS x\n".to_vec()), TIME));
    assert!(ctx.chat.is_empty());
}

#[test]
fn nothing_to_read_changes_nothing() {
    let mut ctx = online();
    assert!(ctx.received(&Received::Nothing, TIME));
    assert!(ctx.connected && ctx.chat.is_empty());
}

#[test]
fn failed_reading_ends_the_connection() {
    let mut ctx = online();
    assert!(ctx.received(&Received::Bytes(b"half".to_vec()), TIME));
    assert!(ctx.received(&Received::Failed("reset".to_owned()), TIME));
    let lines: Vec<(MsgKind, &str)> =
        ctx.chat.iter().map(|message| (message.kind, message.text.as_str())).collect();
    assert_eq!(lines, vec![(MsgKind::Error, "reset"), (MsgKind::Warn, "disconnected")]);
    assert!(!ctx.connected);
    // The next connection starts with a line of its own.
    ctx.connected_to("h:1".to_owned(), None, TIME);
    assert!(ctx.received(&Received::Bytes(b"SYS hi\n".to_vec()), TIME));
    assert_eq!(last(&ctx), (MsgKind::System, "", "hi"));
}

#[test]
fn messages_have_an_author() {
    let mut ctx = Ctx::new();
    ctx.user = "me".to_owned();
    ctx.msg(MsgKind::User, "mine", TIME);
    assert_eq!(last(&ctx), (MsgKind::User, "me", "mine"));
    ctx.msg_from("you", MsgKind::Normal, "yours", TIME);
    assert_eq!(last(&ctx), (MsgKind::Normal, "you", "yours"));
}

#[test]
fn message_arrives() {
    let alice = Address { ip: Ip::V4(1), port: 1, flow_info: 0, scope_id: 0 };
    let bob = Address { ip: Ip::V4(2), port: 2, flow_info: 0, scope_id: 0 };
    let mut server = Server::new(&Vec::new());
    server.connected(alice, 0);
    server.connected(bob, 0);
    server.line_received(alice, "NICK alice", 1_000_000_000);

    let mut sender = online();
    // A line feed at the end, as it is pasted, does no harm.
    let bytes = sent(sender.handle_prompt("hello\n", TIME)).unwrap();
    assert_eq!(bytes, "MSG hello\n");
    let line = match next_action(ReadOutcome::Line(bytes)) {
        LineAction::Forward(line) => line,
        _ => panic!("the line is not passed on"),
    };
    let mut reader = online();
    for effect in server.line_received(alice, &line, 2_000_000_000) {
        if let Effect::Send { to, message: Outbound::Line(line) } = effect {
            assert_eq!(to, bob);
            assert!(reader.received(&Received::Bytes(frame(&line).into_bytes()), TIME));
        }
    }
    assert_eq!(reader.chat.len(), 1);
    assert_eq!(last(&reader), (MsgKind::Normal, "alice", "hello"));
}

#[test]
fn whatever_is_typed_the_chat_stays() {
    let mut ctx = online();
    ctx.msg(MsgKind::Normal, "first", TIME);
    let lines = ["hello", "/help", "/connect a b", "/x", "/disconnect", "/nickname", "/llm", "/quit"];
    for line in lines {
        let before: Vec<String> = ctx.chat.iter().map(|message| message.text.clone()).collect();
        ctx.handle_prompt(line, TIME);
        let after: Vec<String> = ctx.chat.iter().map(|message| message.text.clone()).collect();
        assert!(after.starts_with(&before), "{line}");
        assert_eq!(ctx.connected, ctx.server.is_some());
    }
}
