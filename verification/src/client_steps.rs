//! What the client does at each step, said of what is typed, of what comes and
//! of what is then on its screen: one law for each thing that can happen.

use vstd::prelude::*;
#[allow(unused_imports)]
use vstd::utf8::{encode_utf8, valid_utf8};
#[allow(unused_imports)]
use crate::client::{
    after_server_lines, all_text, command_table, completed, connect_failure_line, fresh, has_space,
    on_command, on_connected, on_prompt, on_received, on_server_line, understood, ClientActionModel,
    ConnectFailure, CtxModel, MessageModel, MsgKind, Received,
};
#[allow(unused_imports)]
use crate::client_laws::{command_names, lemma_filter_none, lemma_filter_one};
#[allow(unused_imports)]
use crate::frame::{complete_lines, framed, unfinished};
#[allow(unused_imports)]
use crate::requests::law_line_is_a_word_and_the_rest;
#[allow(unused_imports)]
use crate::text::{is_space, joined, law_text_is_split_at_the_first, trimmed, words};

verus! {

/// The state with one more line on the screen, and nothing else changed.
pub open spec fn shown_below(
    ctx: CtxModel,
    kind: MsgKind,
    time: Seq<char>,
    author: Seq<char>,
    text: Seq<char>,
) -> CtxModel {
    CtxModel {
        connected: ctx.connected,
        chat: ctx.chat.push(MessageModel { kind, time, author, text }),
        stop: ctx.stop,
        server: ctx.server,
        user: ctx.user,
        pending: ctx.pending,
    }
}

/// A line is sent with a line feed behind it.
pub proof fn law_sent_line_ends_with_a_line_feed(line: Seq<char>)
    ensures
        framed(line) == line + seq!['\n'],
{
    reveal_strlit("\n");
    assert("\n"@ =~= seq!['\n']);
}

// ---------------------------------------------------------------------------
// Typing

/// What is typed and is no command is sent as a message, whole but for the
/// white space at its ends, where there is a connection; and where there is
/// none, nothing is sent and the user is told. White space alone does nothing.
pub proof fn law_text_is_sent_whole(ctx: CtxModel, prompt: Seq<char>, time: Seq<char>)
    ensures
        trimmed(prompt).len() == 0 ==> on_prompt(ctx, prompt, time) == (
            ctx,
            ClientActionModel::Nothing,
        ),
        trimmed(prompt).len() > 0 && trimmed(prompt)[0] != '/' && ctx.connected ==> on_prompt(
            ctx,
            prompt,
            time,
        ) == (ctx, ClientActionModel::Send("MSG"@ + " "@ + trimmed(prompt) + seq!['\n'])),
        trimmed(prompt).len() > 0 && trimmed(prompt)[0] != '/' && !ctx.connected ==> on_prompt(
            ctx,
            prompt,
            time,
        ) == (
            shown_below(
                ctx,
                MsgKind::Warn,
                time,
                ctx.user,
                "not connected, use /connect <ip> <port>"@,
            ),
            ClientActionModel::Nothing,
        ),
{
    reveal_strlit("MSG");
    reveal_strlit("MSG ");
    reveal_strlit(" ");
    assert("MSG "@ =~= "MSG"@ + " "@);
    law_sent_line_ends_with_a_line_feed("MSG"@ + " "@ + trimmed(prompt));
}

/// Whether a command is typed: a slash, and behind it the name and the
/// arguments, with white space between.
pub open spec fn types(prompt: Seq<char>, name: Seq<char>, args: Seq<Seq<char>>) -> bool {
    &&& trimmed(prompt).len() > 0
    &&& trimmed(prompt)[0] == '/'
    &&& words(trimmed(prompt).skip(1)) == seq![name] + args
}

proof fn lemma_typed(
    ctx: CtxModel,
    prompt: Seq<char>,
    name: Seq<char>,
    args: Seq<Seq<char>>,
    time: Seq<char>,
)
    requires
        types(prompt, name, args),
    ensures
        on_prompt(ctx, prompt, time) == on_command(ctx, name, args, time),
{
    let parts = seq![name] + args;
    assert(parts[0] == name);
    assert(parts.skip(1) =~= args);
}

/// No two commands have the same name.
proof fn lemma_command_names_differ()
    ensures
        "connect"@ != "nickname"@,
        "connect"@ != "disconnect"@,
        "connect"@ != "help"@,
        "connect"@ != "quit"@,
        "connect"@ != "llm"@,
        "nickname"@ != "disconnect"@,
        "nickname"@ != "help"@,
        "nickname"@ != "quit"@,
        "nickname"@ != "llm"@,
        "disconnect"@ != "help"@,
        "disconnect"@ != "quit"@,
        "disconnect"@ != "llm"@,
        "help"@ != "quit"@,
        "help"@ != "llm"@,
        "quit"@ != "llm"@,
        "connect"@.len() > 0,
{
    reveal_strlit("connect");
    reveal_strlit("nickname");
    reveal_strlit("disconnect");
    reveal_strlit("help");
    reveal_strlit("quit");
    reveal_strlit("llm");
    assert("connect"@[0] == 'c' && "nickname"@[0] == 'n' && "disconnect"@[0] == 'd' && "help"@[0]
        == 'h' && "quit"@[0] == 'q' && "llm"@[0] == 'l');
}

/// Connecting takes an address and a port, and a token where one is given, each
/// as it was typed. It is not asked for with less, nor where there is a
/// connection.
pub proof fn law_connect_takes_address_and_token(
    ctx: CtxModel,
    prompt: Seq<char>,
    args: Seq<Seq<char>>,
    time: Seq<char>,
)
    requires
        types(prompt, "connect"@, args),
    ensures
        args.len() < 2 ==> on_prompt(ctx, prompt, time) == (
            shown_below(
                ctx,
                MsgKind::Warn,
                time,
                ctx.user,
                "usage: /connect <ip> <port> [token]"@,
            ),
            ClientActionModel::Nothing,
        ),
        args.len() >= 2 && ctx.connected ==> on_prompt(ctx, prompt, time) == (
            shown_below(ctx, MsgKind::Warn, time, ctx.user, "You already connected"@),
            ClientActionModel::Nothing,
        ),
        args.len() == 2 && !ctx.connected ==> on_prompt(ctx, prompt, time) == (
            ctx,
            (ClientActionModel::Connect { address: args[0] + seq![':'] + args[1], token: None }),
        ),
        args.len() > 2 && !ctx.connected ==> on_prompt(ctx, prompt, time) == (
            ctx,
            (ClientActionModel::Connect {
                address: args[0] + seq![':'] + args[1],
                token: Some(args[2]),
            }),
        ),
{
    lemma_typed(ctx, prompt, "connect"@, args, time);
    reveal_strlit(":");
    assert(":"@ =~= seq![':']);
}

/// A nickname is asked for by its first word; with none, the user is told how to
/// ask.
pub proof fn law_nickname_is_asked_for(
    ctx: CtxModel,
    prompt: Seq<char>,
    args: Seq<Seq<char>>,
    time: Seq<char>,
)
    requires
        types(prompt, "nickname"@, args),
    ensures
        args.len() == 0 ==> on_prompt(ctx, prompt, time) == (
            shown_below(ctx, MsgKind::Warn, time, ctx.user, "usage: /nickname <name>"@),
            ClientActionModel::Nothing,
        ),
        args.len() > 0 && ctx.connected ==> on_prompt(ctx, prompt, time) == (
            ctx,
            ClientActionModel::Send("NICK"@ + " "@ + args[0] + seq!['\n']),
        ),
        args.len() > 0 && !ctx.connected ==> on_prompt(ctx, prompt, time) == (
            shown_below(
                ctx,
                MsgKind::Warn,
                time,
                ctx.user,
                "not connected, use /connect <ip> <port>"@,
            ),
            ClientActionModel::Nothing,
        ),
{
    lemma_command_names_differ();
    lemma_typed(ctx, prompt, "nickname"@, args, time);
    reveal_strlit("NICK");
    reveal_strlit("NICK ");
    reveal_strlit(" ");
    assert("NICK "@ =~= "NICK"@ + " "@);
    if args.len() > 0 {
        law_sent_line_ends_with_a_line_feed("NICK "@ + args[0]);
    }
}

/// The language model is asked all words of the question, with one space
/// between any two; with none, the user is told how to ask.
pub proof fn law_question_is_sent_whole(
    ctx: CtxModel,
    prompt: Seq<char>,
    args: Seq<Seq<char>>,
    time: Seq<char>,
)
    requires
        types(prompt, "llm"@, args),
    ensures
        args.len() == 0 ==> on_prompt(ctx, prompt, time) == (
            shown_below(ctx, MsgKind::Warn, time, ctx.user, "usage: /llm <prompt>"@),
            ClientActionModel::Nothing,
        ),
        args.len() > 0 && ctx.connected ==> on_prompt(ctx, prompt, time) == (
            ctx,
            ClientActionModel::Send("LLM"@ + " "@ + joined(args, seq![' ']) + seq!['\n']),
        ),
        args.len() > 0 && !ctx.connected ==> on_prompt(ctx, prompt, time) == (
            shown_below(
                ctx,
                MsgKind::Warn,
                time,
                ctx.user,
                "not connected, use /connect <ip> <port>"@,
            ),
            ClientActionModel::Nothing,
        ),
{
    lemma_command_names_differ();
    lemma_typed(ctx, prompt, "llm"@, args, time);
    reveal_strlit("LLM");
    reveal_strlit("LLM ");
    reveal_strlit(" ");
    assert("LLM "@ =~= "LLM"@ + " "@);
    assert(" "@ =~= seq![' ']);
    law_sent_line_ends_with_a_line_feed("LLM "@ + joined(args, " "@));
}

/// Disconnecting shuts the connection down, where there is one; or else the
/// user is told that there is none. Quitting stops the client, and does nothing
/// else.
pub proof fn law_leaving_is_possible(
    ctx: CtxModel,
    prompt: Seq<char>,
    args: Seq<Seq<char>>,
    time: Seq<char>,
)
    ensures
        types(prompt, "disconnect"@, args) && ctx.connected ==> on_prompt(ctx, prompt, time) == (
            ctx,
            ClientActionModel::Shutdown,
        ),
        types(prompt, "disconnect"@, args) && !ctx.connected ==> on_prompt(ctx, prompt, time) == (
            shown_below(ctx, MsgKind::Warn, time, ctx.user, "You are not login"@),
            ClientActionModel::Nothing,
        ),
        types(prompt, "quit"@, args) ==> on_prompt(ctx, prompt, time) == (
            CtxModel {
                connected: ctx.connected,
                chat: ctx.chat,
                stop: true,
                server: ctx.server,
                user: ctx.user,
                pending: ctx.pending,
            },
            ClientActionModel::Nothing,
        ),
{
    lemma_command_names_differ();
    if types(prompt, "disconnect"@, args) {
        lemma_typed(ctx, prompt, "disconnect"@, args, time);
    }
    if types(prompt, "quit"@, args) {
        lemma_typed(ctx, prompt, "quit"@, args, time);
    }
}

/// Help shows each command once, in order: a slash, its name, and what is said
/// of it. Nothing else changes.
pub proof fn law_help_shows_each_command(
    ctx: CtxModel,
    prompt: Seq<char>,
    args: Seq<Seq<char>>,
    time: Seq<char>,
    i: int,
)
    requires
        types(prompt, "help"@, args),
    ensures
        ({
            let (after, action) = on_prompt(ctx, prompt, time);
            &&& action == ClientActionModel::Nothing
            &&& after.chat.len() == ctx.chat.len() + 6
            &&& after.chat.take(ctx.chat.len() as int) == ctx.chat
            &&& 0 <= i < 6 ==> after.chat[ctx.chat.len() + i] == (MessageModel {
                kind: MsgKind::System,
                time,
                author: ctx.user,
                text: seq!['/'] + command_table()[i].0 + seq![' ', '-', ' ']
                    + command_table()[i].1,
            })
            &&& after == (CtxModel { chat: after.chat, ..ctx })
        }),
{
    lemma_command_names_differ();
    lemma_typed(ctx, prompt, "help"@, args, time);
    reveal_strlit("/");
    reveal_strlit(" - ");
    assert("/"@ =~= seq!['/']);
    assert(" - "@ =~= seq![' ', '-', ' ']);
    let after = on_prompt(ctx, prompt, time).0;
    assert(after.chat.take(ctx.chat.len() as int) =~= ctx.chat);
}

/// The commands, each with what is said of it.
pub proof fn law_commands_are_these()
    ensures
        command_table().len() == 6,
        command_table()[0] == (
            "connect"@,
            "connect to a server: /connect <ip> <port> [token]"@,
        ),
        command_table()[1] == ("nickname"@, "ask for a nickname: /nickname <name>"@),
        command_table()[2] == ("disconnect"@, "disconnect the server"@),
        command_table()[3] == ("help"@, "show this help"@),
        command_table()[4] == ("quit"@, "quit the client"@),
        command_table()[5] == ("llm"@, "ask the language model of the server: /llm <prompt>"@),
{
}

/// Any other name is not understood, and the user is told which; so is a slash
/// alone. Nothing is sent.
pub proof fn law_unknown_command_is_named(
    ctx: CtxModel,
    prompt: Seq<char>,
    name: Seq<char>,
    args: Seq<Seq<char>>,
    time: Seq<char>,
)
    ensures
        types(prompt, name, args) && name != "connect"@ && name != "nickname"@ && name
            != "disconnect"@ && name != "help"@ && name != "quit"@ && name != "llm"@ ==> on_prompt(
            ctx,
            prompt,
            time,
        ) == (
            shown_below(ctx, MsgKind::Error, time, ctx.user, "unknown command: /"@ + name),
            ClientActionModel::Nothing,
        ),
        trimmed(prompt) == seq!['/'] ==> on_prompt(ctx, prompt, time) == (
            shown_below(ctx, MsgKind::Error, time, ctx.user, "unknown command: /"@),
            ClientActionModel::Nothing,
        ),
{
    if types(prompt, name, args) {
        lemma_typed(ctx, prompt, name, args, time);
    }
    if trimmed(prompt) == seq!['/'] {
        lemma_command_names_differ();
        let none = Seq::<char>::empty();
        assert(trimmed(prompt).skip(1) =~= none);
        assert(words(none) =~= Seq::<Seq<char>>::empty());
        reveal_strlit("nickname");
        reveal_strlit("disconnect");
        reveal_strlit("help");
        reveal_strlit("quit");
        reveal_strlit("llm");
        assert("nickname"@.len() > 0 && "disconnect"@.len() > 0 && "help"@.len() > 0
            && "quit"@.len() > 0 && "llm"@.len() > 0);
        assert("unknown command: /"@ + none =~= "unknown command: /"@);
    }
}

/// What is typed behind a slash is completed if it is the start of the name of
/// one command and of no other; and then it becomes that name. Where it is the
/// start of none, or of two, or no slash stands before it, it is left as it is.
pub proof fn law_only_unique_starts_are_completed(rest: Seq<char>, j: int, k: int)
    requires
        0 <= k < command_names().len(),
        0 <= j < command_names().len(),
    ensures
        rest.is_prefix_of(command_names()[k]) && (forall|i: int|
            0 <= i < command_names().len() && i != k ==> !rest.is_prefix_of(
                #[trigger] command_names()[i],
            )) ==> completed(seq!['/'] + rest) == seq!['/'] + command_names()[k],
        j != k && rest.is_prefix_of(command_names()[j]) && rest.is_prefix_of(command_names()[k])
            ==> completed(seq!['/'] + rest) == seq!['/'] + rest,
        (forall|i: int|
            0 <= i < command_names().len() ==> !rest.is_prefix_of(#[trigger] command_names()[i]))
            ==> completed(seq!['/'] + rest) == seq!['/'] + rest,
        rest.len() == 0 || rest[0] != '/' ==> completed(rest) == rest,
{
    reveal_strlit("/");
    assert("/"@ =~= seq!['/']);
    let prompt = seq!['/'] + rest;
    assert(prompt.skip(1) =~= rest);
    assert(prompt.subrange(0, 1) =~= "/"@);
    let names = command_names();
    let keep = |name: Seq<char>| rest.is_prefix_of(name);
    if rest.is_prefix_of(names[k]) && (forall|i: int|
        0 <= i < names.len() && i != k ==> !rest.is_prefix_of(#[trigger] names[i])) {
        assert forall|i: int| 0 <= i < names.len() && i != k implies !keep(#[trigger] names[i]) by {
            assert(!rest.is_prefix_of(command_names()[i]));
        }
        lemma_filter_one(names, keep, k);
        crate::client_laws::lemma_full_name(k);
        assert(!has_space(rest)) by {
            if has_space(rest) {
                let i = choose|i: int| 0 <= i < rest.len() && is_space(#[trigger] rest[i]);
                assert(rest[i] == names[k].subrange(0, rest.len() as int)[i]);
                assert(is_space(names[k][i]));
            }
        }
        assert(completed(prompt) == "/"@ + names[k]);
    }
    if j != k && rest.is_prefix_of(names[j]) && rest.is_prefix_of(names[k]) {
        assert(keep(names[j]) && keep(names[k]));
        if j < k {
            lemma_filter_two(names, keep, j, k);
        } else {
            lemma_filter_two(names, keep, k, j);
        }
    }
    if forall|i: int| 0 <= i < names.len() ==> !rest.is_prefix_of(#[trigger] names[i]) {
        lemma_filter_none(names, keep);
    }
    if rest.len() == 0 || rest[0] != '/' {
        if "/"@.is_prefix_of(rest) {
            assert(rest.subrange(0, 1)[0] == rest[0]);
        }
    }
}

/// Where two items are kept, more than one is left.
proof fn lemma_filter_two(
    items: Seq<Seq<char>>,
    keep: spec_fn(Seq<char>) -> bool,
    j: int,
    k: int,
)
    requires
        0 <= j < k < items.len(),
        keep(items[j]),
        keep(items[k]),
    ensures
        items.filter(keep).len() >= 2,
    decreases items.len(),
{
    reveal(Seq::filter);
    let front = items.drop_last();
    if k == items.len() - 1 {
        front.lemma_filter_contains(keep, j);
        assert(front[j] == items[j]);
        assert(front.filter(keep).len() >= 1);
    } else {
        lemma_filter_two(front, keep, j, k);
    }
}

// ---------------------------------------------------------------------------
// What comes of connecting and sending

/// A connection that came about is the client's from then on, to the server at
/// the address, with nothing read yet; the user is told, and the token, where
/// there is one, is sent as a line.
pub proof fn law_connection_is_told(
    ctx: CtxModel,
    address: Seq<char>,
    token: Option<Seq<char>>,
    time: Seq<char>,
)
    ensures
        on_connected(ctx, address, token, time).0 == shown_below(
            CtxModel {
                connected: true,
                chat: ctx.chat,
                stop: ctx.stop,
                server: Some(address),
                user: ctx.user,
                pending: Seq::empty(),
            },
            MsgKind::System,
            time,
            ctx.user,
            "connected to "@ + address,
        ),
        token matches Some(token) ==> on_connected(ctx, address, Some(token), time).1
            == ClientActionModel::Send(token + seq!['\n']),
        token is None ==> on_connected(ctx, address, token, time).1 == ClientActionModel::Nothing,
{
    if let Some(token) = token {
        law_sent_line_ends_with_a_line_feed(token);
    }
}

/// A connection that did not come about is told with its address and the
/// reason, or with the reason alone where it was made but cannot be used.
pub proof fn law_failed_connection_is_told(address: Seq<char>, error: String)
    ensures
        connect_failure_line(address, ConnectFailure::Unreachable(error)) == "could not connect to "@
            + address + seq![':', ' '] + error@,
        connect_failure_line(address, ConnectFailure::Unusable(error)) == error@,
{
    reveal_strlit(": ");
    assert(": "@ =~= seq![':', ' ']);
}

// ---------------------------------------------------------------------------
// What comes from the server

/// Each line of the server is shown: a message under its author's name, as
/// received; what the server says, and what is wrong, without the word before
/// it, under the user's own name and in colours of their own; the user's
/// nickname is taken from the line that tells it; and any other line is shown as
/// it is.
pub proof fn law_lines_of_the_server_are_shown(
    ctx: CtxModel,
    word: Seq<char>,
    author: Seq<char>,
    text: Seq<char>,
    time: Seq<char>,
)
    requires
        !word.contains(' '),
        !author.contains(' '),
    ensures
        on_server_line(ctx, "MSG"@ + " "@ + (author + " "@ + text), time) == shown_below(
            ctx,
            MsgKind::Normal,
            time,
            author,
            text,
        ),
        on_server_line(ctx, "MSG"@ + " "@ + author, time) == shown_below(
            ctx,
            MsgKind::Normal,
            time,
            author,
            Seq::empty(),
        ),
        on_server_line(ctx, "SYS"@ + " "@ + text, time) == shown_below(
            ctx,
            MsgKind::System,
            time,
            ctx.user,
            text,
        ),
        on_server_line(ctx, "ERR"@ + " "@ + text, time) == shown_below(
            ctx,
            MsgKind::Error,
            time,
            ctx.user,
            text,
        ),
        on_server_line(ctx, "YOU"@ + " "@ + text, time) == shown_below(
            CtxModel {
                connected: ctx.connected,
                chat: ctx.chat,
                stop: ctx.stop,
                server: ctx.server,
                user: text,
                pending: ctx.pending,
            },
            MsgKind::Normal,
            time,
            text,
            "YOU"@ + " "@ + text,
        ),
        word != "MSG"@ && word != "SYS"@ && word != "ERR"@ && word != "YOU"@ ==> on_server_line(
            ctx,
            word + " "@ + text,
            time,
        ) == shown_below(ctx, MsgKind::Normal, time, ctx.user, word + " "@ + text),
        word != "MSG"@ && word != "SYS"@ && word != "ERR"@ && word != "YOU"@ ==> on_server_line(
            ctx,
            word,
            time,
        ) == shown_below(ctx, MsgKind::Normal, time, ctx.user, word),
{
    reveal_strlit("MSG");
    reveal_strlit("SYS");
    reveal_strlit("ERR");
    reveal_strlit("YOU");
    reveal_strlit(" ");
    assert(" "@ =~= seq![' ']);
    assert("MSG"@[0] == 'M' && "SYS"@[0] == 'S' && "ERR"@[0] == 'E' && "YOU"@[0] == 'Y');
    assert(!"MSG"@.contains(' ') && !"SYS"@.contains(' ') && !"ERR"@.contains(' ')
        && !"YOU"@.contains(' '));
    law_line_is_a_word_and_the_rest("MSG"@, author + " "@ + text);
    law_line_is_a_word_and_the_rest("MSG"@, author);
    law_text_is_split_at_the_first(author, ' ', text);
    law_line_is_a_word_and_the_rest("SYS"@, text);
    law_line_is_a_word_and_the_rest("ERR"@, text);
    law_line_is_a_word_and_the_rest("YOU"@, text);
    law_line_is_a_word_and_the_rest(word, text);
}

/// A connection that the server closes, or that cannot be read, is gone, and
/// with it the server and what had come of a line; the user is told, with the
/// reason first where there is one. Where there is nothing to read, nothing
/// changes.
pub proof fn law_lost_connection_is_told(ctx: CtxModel, error: String, time: Seq<char>)
    ensures
        ({
            let gone = CtxModel {
                connected: false,
                chat: ctx.chat,
                stop: ctx.stop,
                server: None,
                user: ctx.user,
                pending: Seq::empty(),
            };
            &&& on_received(ctx, Received::Closed, time) == shown_below(
                gone,
                MsgKind::Warn,
                time,
                ctx.user,
                "disconnected"@,
            )
            &&& on_received(ctx, Received::Failed(error), time) == shown_below(
                shown_below(gone, MsgKind::Error, time, ctx.user, error@),
                MsgKind::Warn,
                time,
                ctx.user,
                "disconnected"@,
            )
            &&& on_received(ctx, Received::Nothing, time) == ctx
        }),
{
}

/// Bytes that end a line show that line, and bytes that end none wait.
pub proof fn law_line_is_shown_when_it_is_complete(
    ctx: CtxModel,
    line: Seq<char>,
    more: Vec<u8>,
    time: Seq<char>,
)
    requires
        ctx.pending.len() == 0,
        !line.contains('\n'),
    ensures
        more@ == encode_utf8(line + seq!['\n']) ==> on_received(ctx, Received::Bytes(more), time)
            == on_server_line(ctx, line, time) && understood(ctx, Received::Bytes(more)),
        more@ == encode_utf8(line) ==> on_received(ctx, Received::Bytes(more), time) == (CtxModel {
            pending: more@,
            ..ctx
        }),
{
    crate::frame::law_line_is_received(line, seq![]);
    law_sent_line_ends_with_a_line_feed(line);
    crate::frame::lemma_no_feed_in_bytes(line);
    assert(ctx.pending + more@ =~= more@);
    if more@ == encode_utf8(line + seq!['\n']) {
        assert(more@ + seq![] =~= more@);
        assert(complete_lines(Seq::<u8>::empty()) =~= Seq::<Seq<u8>>::empty());
        assert(unfinished(Seq::<u8>::empty()) =~= Seq::<u8>::empty());
        let lines = complete_lines(more@);
        assert(lines =~= seq![encode_utf8(line)]);
        assert(all_text(lines));
        assert(crate::client::decoded(lines) =~= seq![line]);
        assert(ctx.pending =~= Seq::<u8>::empty());
        assert(CtxModel { pending: unfinished(more@), ..ctx } =~= ctx);
        assert(seq![line].drop_last() =~= Seq::<Seq<char>>::empty());
        assert(after_server_lines(ctx, seq![line].drop_last(), time) == ctx);
    }
    if more@ == encode_utf8(line) {
        crate::frame::lemma_feed_index(more@);
        let i = crate::frame::feed_index(more@);
        if i < more@.len() {
            assert(more@.contains(more@[i]));
        }
        assert(complete_lines(more@) =~= Seq::<Seq<u8>>::empty());
        assert(unfinished(more@) == more@);
        assert(all_text(complete_lines(more@)));
        assert(crate::client::decoded(complete_lines(more@)) =~= Seq::<Seq<char>>::empty());
    }
}

/// A client starts without a connection, a server, a nickname, or anything on
/// its screen.
pub proof fn law_client_starts_empty()
    ensures
        !fresh().connected,
        fresh().server is None,
        fresh().chat.len() == 0,
        fresh().user.len() == 0,
        fresh().pending.len() == 0,
        !fresh().stop,
{
}

/// Where a line that came is not text, none of those that came with it is
/// shown, and it is said so; nothing changes but what waits for its end.
pub proof fn law_lines_that_are_no_text_are_not_shown(
    ctx: CtxModel,
    bytes: Vec<u8>,
    time: Seq<char>,
    i: int,
)
    requires
        0 <= i < complete_lines(ctx.pending + bytes@).len(),
        !valid_utf8(complete_lines(ctx.pending + bytes@)[i]),
    ensures
        !understood(ctx, Received::Bytes(bytes)),
        on_received(ctx, Received::Bytes(bytes), time) == (CtxModel {
            pending: unfinished(ctx.pending + bytes@),
            ..ctx
        }),
{
}

} // verus!
