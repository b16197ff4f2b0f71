//! What the client promises: what is completed, what stays on the screen, and
//! how a message gets from one client to another.

use vstd::prelude::*;
#[allow(unused_imports)]
use vstd::utf8::{encode_utf8, valid_utf8};
#[allow(unused_imports)]
use crate::bans::Address;
#[allow(unused_imports)]
use crate::client::{
    after_server_lines, all_text, command_table, completed, decoded, has_space, matching_names,
    on_bytes, on_command, on_connected, on_prompt, on_received, on_server_line, ClientActionModel,
    CtxModel, MessageModel, MsgKind, Received,
};
#[allow(unused_imports)]
use crate::connection::{knows_token, line_action, LineActionModel, MAX_LINE_BYTES};
#[allow(unused_imports)]
use crate::frame::{
    complete_lines, framed, law_line_is_received, law_pieces_do_not_matter, unfinished,
};
#[allow(unused_imports)]
use crate::laws::{law_message_reaches_all_others, sent_to};
#[allow(unused_imports)]
use crate::model::{client_slot, OutboundModel, ServerModel};
#[allow(unused_imports)]
use crate::names::{default_nickname, nickname_char, nickname_problem};
#[allow(unused_imports)]
use crate::number::lemma_decimal;
#[allow(unused_imports)]
use crate::rules::{command_of, on_line, payload_of, too_quick};
#[allow(unused_imports)]
use crate::screen::{drawn, on_input, shown, Input, ScreenModel};
#[allow(unused_imports)]
use crate::text::{
    first_chars, is_line_end, is_space, lemma_find_is, lemma_trim_end_is, lemma_trim_start_is,
    lemma_trim_start_len, split_at_first, trim_end, trim_start, trimmed, without_line_end,
};

#[allow(unused_imports)]
use crate::token::{is_token, law_token_is_accepted};

verus! {

// ---------------------------------------------------------------------------
// Completing commands

/// The names of the commands.
pub open spec fn command_names() -> Seq<Seq<char>> {
    command_table().map_values(|entry: (Seq<char>, Seq<char>)| entry.0)
}

/// No command's name starts with another's.
pub proof fn lemma_names_are_apart(i: int, j: int)
    requires
        0 <= i < command_names().len(),
        0 <= j < command_names().len(),
        command_names()[i].is_prefix_of(command_names()[j]),
    ensures
        i == j,
{
    reveal_strlit("connect");
    reveal_strlit("nickname");
    reveal_strlit("disconnect");
    reveal_strlit("help");
    reveal_strlit("quit");
    reveal_strlit("llm");
    let names = command_names();
    assert(names.len() == 6);
    assert(names[j].subrange(0, names[i].len() as int)[0] == names[j][0]);
    assert(names[0][0] == 'c' && names[1][0] == 'n' && names[2][0] == 'd' && names[3][0] == 'h'
        && names[4][0] == 'q' && names[5][0] == 'l');
}

/// Where a sequence holds one item that is kept, that one is what is left.
pub proof fn lemma_filter_one(items: Seq<Seq<char>>, keep: spec_fn(Seq<char>) -> bool, k: int)
    requires
        0 <= k < items.len(),
        keep(items[k]),
        forall|i: int| 0 <= i < items.len() && i != k ==> !keep(#[trigger] items[i]),
    ensures
        items.filter(keep) == seq![items[k]],
    decreases items.len(),
{
    reveal(Seq::filter);
    let front = items.drop_last();
    if k == items.len() - 1 {
        lemma_filter_none(front, keep);
        assert(items.filter(keep) =~= seq![items[k]]);
    } else {
        assert(front[k] == items[k]);
        lemma_filter_one(front, keep, k);
        assert(!keep(items[items.len() - 1]));
    }
}

/// Where a sequence holds no item that is kept, nothing is left.
pub proof fn lemma_filter_none(items: Seq<Seq<char>>, keep: spec_fn(Seq<char>) -> bool)
    requires
        forall|i: int| 0 <= i < items.len() ==> !keep(#[trigger] items[i]),
    ensures
        items.filter(keep) == Seq::<Seq<char>>::empty(),
    decreases items.len(),
{
    reveal(Seq::filter);
    if items.len() > 0 {
        assert(!keep(items[items.len() - 1]));
        lemma_filter_none(items.drop_last(), keep);
    }
}

/// A command's full name is matched by that command alone.
pub proof fn lemma_full_name(k: int)
    requires
        0 <= k < command_names().len(),
    ensures
        matching_names(command_names()[k]) == seq![command_names()[k]],
        !has_space(command_names()[k]),
{
    let names = command_names();
    let rest = names[k];
    let keep = |name: Seq<char>| rest.is_prefix_of(name);
    assert(rest.subrange(0, rest.len() as int) =~= rest);
    assert forall|i: int| 0 <= i < names.len() && i != k implies !keep(#[trigger] names[i]) by {
        if keep(names[i]) {
            lemma_names_are_apart(k, i);
        }
    }
    lemma_filter_one(names, keep, k);
    reveal_strlit("connect");
    reveal_strlit("nickname");
    reveal_strlit("disconnect");
    reveal_strlit("help");
    reveal_strlit("quit");
    reveal_strlit("llm");
    assert(names.len() == 6);
    assert forall|i: int| 0 <= i < rest.len() implies !is_space(#[trigger] rest[i]) by {
        assert(k == 0 || k == 1 || k == 2 || k == 3 || k == 4 || k == 5);
        assert('a' <= rest[i] <= 'z');
    }
}

/// What a sequence keeps was in it, and is to be kept.
pub proof fn lemma_filter_is_from(items: Seq<Seq<char>>, keep: spec_fn(Seq<char>) -> bool, i: int)
    requires
        0 <= i < items.filter(keep).len(),
    ensures
        items.contains(items.filter(keep)[i]),
        keep(items.filter(keep)[i]),
    decreases items.len(),
{
    reveal(Seq::filter);
    let front = items.drop_last();
    if i < front.filter(keep).len() {
        lemma_filter_is_from(front, keep, i);
        let k = choose|k: int| 0 <= k < front.len() && front[k] == front.filter(keep)[i];
        assert(items[k] == front.filter(keep)[i]);
    } else {
        assert(items[items.len() - 1] == items.last());
    }
}

/// Completing changes nothing that was typed: it adds to it, or leaves it as
/// it is; and what comes out, where it adds, is a slash and a command's name.
pub proof fn law_completion_only_adds(prompt: Seq<char>)
    ensures
        prompt.is_prefix_of(completed(prompt)),
        completed(prompt) != prompt ==> exists|k: int|
            0 <= k < command_names().len() && completed(prompt) == "/"@
                + #[trigger] command_names()[k],
{
    let rest = prompt.skip(1);
    let keep = |name: Seq<char>| rest.is_prefix_of(name);
    assert(prompt.subrange(0, prompt.len() as int) =~= prompt);
    if "/"@.is_prefix_of(prompt) && !has_space(rest) && matching_names(rest).len() == 1 {
        reveal_strlit("/");
        lemma_filter_is_from(command_names(), keep, 0);
        let name = matching_names(rest)[0];
        let k = choose|k: int| 0 <= k < command_names().len() && command_names()[k] == name;
        assert(completed(prompt) == "/"@ + command_names()[k]);
        let all = completed(prompt);
        assert(prompt[0] == prompt.subrange(0, 1)[0]);
        assert forall|i: int| 0 <= i < prompt.len() implies #[trigger] prompt[i] == all[i] by {
            if i > 0 {
                assert(rest[i - 1] == name.subrange(0, rest.len() as int)[i - 1]);
            }
        }
        assert(all.subrange(0, prompt.len() as int) =~= prompt);
    }
}

/// A command that is complete is left as it is.
pub proof fn law_completion_is_final(prompt: Seq<char>)
    ensures
        completed(completed(prompt)) == completed(prompt),
{
    if completed(prompt) != prompt {
        law_completion_only_adds(prompt);
        let k = choose|k: int|
            0 <= k < command_names().len() && completed(prompt) == "/"@
                + #[trigger] command_names()[k];
        reveal_strlit("/");
        assert(completed(prompt).skip(1) =~= command_names()[k]);
        lemma_full_name(k);
    }
}

// ---------------------------------------------------------------------------
// What stays on the screen

/// Whatever is typed, the lines on the screen stay, in their order, and the
/// connection and its server go together.
pub proof fn law_prompt_keeps_the_chat(ctx: CtxModel, prompt: Seq<char>, time: Seq<char>)
    ensures
        ctx.chat.is_prefix_of(on_prompt(ctx, prompt, time).0.chat),
        ctx.valid() ==> on_prompt(ctx, prompt, time).0.valid(),
{
    let next = on_prompt(ctx, prompt, time).0;
    assert(next.chat.subrange(0, ctx.chat.len() as int) =~= ctx.chat);
}

/// A line from the server stays on the screen, below all others.
pub proof fn law_server_line_is_shown(ctx: CtxModel, line: Seq<char>, time: Seq<char>)
    ensures
        on_server_line(ctx, line, time).chat.len() == ctx.chat.len() + 1,
        on_server_line(ctx, line, time).chat.drop_last() == ctx.chat,
        on_server_line(ctx, line, time).chat.last().time == time,
        ctx.valid() ==> on_server_line(ctx, line, time).valid(),
{
    assert(on_server_line(ctx, line, time).chat.drop_last() =~= ctx.chat);
}

/// What is entered is shown first, as the user's own, and only then acted on.
pub proof fn law_entered_line_is_echoed(screen: ScreenModel, time: Seq<char>)
    ensures
        screen.ctx.chat.push(
            (MessageModel {
                kind: MsgKind::User,
                time,
                author: screen.ctx.user,
                text: screen.prompt,
            }),
        ).is_prefix_of(on_input(screen, Input::Enter, time).0.ctx.chat),
        on_input(screen, Input::Enter, time).0.prompt.len() == 0,
{
    law_prompt_keeps_the_chat(
        screen.ctx.with_line(MsgKind::User, screen.prompt, time),
        screen.prompt,
        time,
    );
}

// ---------------------------------------------------------------------------
// Connecting

/// Who connects with the token that the server has is let in: the token is the
/// first line that is sent, and the server takes it.
pub proof fn law_connecting_with_the_token(
    ctx: CtxModel,
    ip: Seq<char>,
    port: Seq<char>,
    token: Seq<char>,
    time: Seq<char>,
)
    requires
        !ctx.connected,
        is_token(token),
    ensures
        on_command(ctx, "connect"@, seq![ip, port, token], time) == (
            ctx,
            (ClientActionModel::Connect { address: ip + ":"@ + port, token: Some(token) }),
        ),
        on_connected(ctx, ip + ":"@ + port, Some(token), time).1 == ClientActionModel::Send(
            framed(token),
        ),
        knows_token(framed(token), token),
{
    law_token_is_accepted(token);
}

/// There is a connection after connecting, and none after the server has closed
/// it or reading has failed; what had come of a line is forgotten.
pub proof fn law_connection_comes_and_goes(
    ctx: CtxModel,
    address: Seq<char>,
    token: Option<Seq<char>>,
    error: String,
    time: Seq<char>,
)
    ensures
        on_connected(ctx, address, token, time).0.valid(),
        on_connected(ctx, address, token, time).0.connected,
        on_received(ctx, Received::Closed, time).valid(),
        !on_received(ctx, Received::Closed, time).connected,
        on_received(ctx, Received::Closed, time).pending.len() == 0,
        on_received(ctx, Received::Failed(error), time).valid(),
        !on_received(ctx, Received::Failed(error), time).connected,
        on_received(ctx, Received::Failed(error), time).pending.len() == 0,
{
}

// ---------------------------------------------------------------------------
// Receiving in pieces

/// What a line does has nothing to do with what waits for its end.
proof fn lemma_pending_is_apart(
    ctx: CtxModel,
    pending: Seq<u8>,
    lines: Seq<Seq<char>>,
    time: Seq<char>,
)
    ensures
        after_server_lines(CtxModel { pending, ..ctx }, lines, time) == (CtxModel {
            pending,
            ..after_server_lines(ctx, lines, time)
        }),
        after_server_lines(ctx, lines, time).pending == ctx.pending,
    decreases lines.len(),
{
    if lines.len() > 0 {
        lemma_pending_is_apart(ctx, pending, lines.drop_last(), time);
    }
}

/// Lines that come at once do what they do one after the other.
proof fn lemma_lines_in_turn(
    ctx: CtxModel,
    first: Seq<Seq<char>>,
    second: Seq<Seq<char>>,
    time: Seq<char>,
)
    ensures
        after_server_lines(ctx, first + second, time) == after_server_lines(
            after_server_lines(ctx, first, time),
            second,
            time,
        ),
    decreases second.len(),
{
    if second.len() == 0 {
        assert(first + second =~= first);
    } else {
        assert((first + second).drop_last() =~= first + second.drop_last());
        lemma_lines_in_turn(ctx, first, second.drop_last(), time);
    }
}

/// In what pieces the bytes of the server come does not matter, not even where
/// a piece ends within a character.
pub proof fn law_client_hears_the_same_in_pieces(
    ctx: CtxModel,
    a: Seq<u8>,
    b: Seq<u8>,
    time: Seq<char>,
)
    requires
        all_text(complete_lines(ctx.pending + (a + b))),
    ensures
        on_bytes(on_bytes(ctx, a, time), b, time) == on_bytes(ctx, a + b, time),
{
    let whole = ctx.pending + (a + b);
    let start = ctx.pending + a;
    assert(whole =~= start + b);
    law_pieces_do_not_matter(start, b);
    let first = complete_lines(start);
    let second = complete_lines(unfinished(start) + b);
    assert(complete_lines(whole) == first + second);
    assert forall|i: int| 0 <= i < first.len() implies valid_utf8(#[trigger] first[i]) by {
        assert((first + second)[i] == first[i]);
    }
    assert forall|i: int| 0 <= i < second.len() implies valid_utf8(#[trigger] second[i]) by {
        assert((first + second)[first.len() + i] == second[i]);
    }
    assert(decoded(first + second) =~= decoded(first) + decoded(second));
    let cut = CtxModel { pending: unfinished(start), ..ctx };
    let end = CtxModel { pending: unfinished(whole), ..ctx };
    lemma_pending_is_apart(ctx, unfinished(start), decoded(first), time);
    lemma_pending_is_apart(ctx, unfinished(whole), decoded(first), time);
    lemma_lines_in_turn(end, decoded(first), decoded(second), time);
    let middle = after_server_lines(cut, decoded(first), time);
    assert(middle == on_bytes(ctx, a, time));
    assert(middle.pending == unfinished(start));
    assert(CtxModel { pending: unfinished(whole), ..middle } == after_server_lines(
        end,
        decoded(first),
        time,
    ));
}

// ---------------------------------------------------------------------------
// The way of a message

/// What trimming at the end leaves is the front of a text, up to a character
/// that is kept.
proof fn lemma_trim_end_len(s: Seq<char>, cut: spec_fn(char) -> bool)
    ensures
        trim_end(s, cut).len() <= s.len(),
        trim_end(s, cut) == s.take(trim_end(s, cut).len() as int),
        trim_end(s, cut).len() > 0 ==> !cut(trim_end(s, cut).last()),
    decreases s.len(),
{
    if s.len() > 0 && cut(s.last()) {
        lemma_trim_end_len(s.drop_last(), cut);
        let n = trim_end(s, cut).len() as int;
        assert(s.drop_last().take(n) =~= s.take(n));
    } else {
        assert(s.take(s.len() as int) =~= s);
    }
}

/// A text that was trimmed has no white space at its ends, so that trimming it
/// again leaves it as it is.
proof fn lemma_trimmed(s: Seq<char>)
    ensures
        trimmed(s).len() > 0 ==> !is_space(trimmed(s)[0]) && !is_space(trimmed(s).last()),
        trimmed(trimmed(s)) == trimmed(s),
{
    let cut = |c: char| is_space(c);
    let t = trim_start(s, cut);
    lemma_trim_start_len(s, cut);
    lemma_trim_end_len(t, cut);
    let u = trimmed(s);
    if u.len() > 0 {
        assert(u[0] == t[0]);
    }
    lemma_trim_start_is(u, cut, 0);
    assert(u.skip(0) =~= u);
    lemma_trim_end_is(u, cut, u.len() as int);
    assert(u.take(u.len() as int) =~= u);
}

/// A line that is made of a word and some text is taken apart again.
proof fn lemma_word_and_text(word: Seq<char>, text: Seq<char>)
    requires
        !word.contains(' '),
    ensures
        split_at_first(word + " "@ + text, ' ') == Some((word, text)),
{
    reveal_strlit(" ");
    let line = word + " "@ + text;
    assert forall|k: int| 0 <= k < word.len() implies #[trigger] line[k] != ' ' by {
        assert(word.contains(word[k]));
    }
    lemma_find_is(line, ' ', word.len() as int);
    assert(line.take(word.len() as int) =~= word);
    assert(line.skip(word.len() as int + 1) =~= text);
}

/// A nickname that a client of the server has holds no white space.
proof fn lemma_nickname_is_a_word(s: ServerModel, address: Address)
    requires
        s.valid(),
        s.knows(address),
    ensures
        !s.client(address).nickname.contains(' '),
        !s.client(address).nickname.contains('\n'),
{
    let i = client_slot(s.clients, address);
    let name = s.clients[i].nickname;
    assert(name == s.client(address).nickname);
    if nickname_problem(name) is None {
        assert forall|k: int| 0 <= k < name.len() implies nickname_char(#[trigger] name[k]) by {}
    } else {
        reveal_strlit("user#");
        let port = s.clients[i].address.port;
        lemma_decimal(port as nat);
        assert(name == default_nickname(port));
    }
}

/// What one types, another reads. A line that is typed into a client with a
/// connection is sent as a message. Where the server hears it, it tells each
/// other client, under the nickname that it knows the sender by; and such a
/// client has it on its screen, below all else, as said by that nickname.
///
/// Left out are texts with a line feed within them, which are several lines
/// to the server; lines that are too long; and senders that are too quick.
pub proof fn law_message_arrives(
    sender: CtxModel,
    prompt: Seq<char>,
    sent_at: Seq<char>,
    server: ServerModel,
    from: Address,
    now: u64,
    to: Address,
    reader: CtxModel,
    read_at: Seq<char>,
)
    requires
        sender.connected,
        trimmed(prompt).len() > 0,
        trimmed(prompt)[0] != '/',
        !trimmed(prompt).contains('\n'),
        encode_utf8(framed("MSG "@ + trimmed(prompt))).len() <= MAX_LINE_BYTES,
        server.valid(),
        server.knows(from),
        server.knows(to),
        from != to,
        !too_quick(server.client(from), now),
        reader.pending.len() == 0,
    ensures
        ({
            let text = trimmed(prompt);
            let line = "MSG "@ + text;
            let told = "MSG "@ + server.client(from).nickname + " "@ + text;
            &&& on_prompt(sender, prompt, sent_at) == (
                sender,
                ClientActionModel::Send(framed(line)),
            )
            &&& complete_lines(encode_utf8(framed(line))) == seq![encode_utf8(line)]
            &&& line_action(framed(line)) == LineActionModel::Forward(line)
            &&& sent_to(on_line(server, from, line, now).1, to) == seq![OutboundModel::Line(told)]
            &&& on_bytes(reader, encode_utf8(framed(told)), read_at) == reader.with_message(
                MessageModel {
                    kind: MsgKind::Normal,
                    time: read_at,
                    author: server.client(from).nickname,
                    text,
                },
            )
        }),
{
    let text = trimmed(prompt);
    let line = "MSG "@ + text;
    let nickname = server.client(from).nickname;
    let told = "MSG "@ + nickname + " "@ + text;
    reveal_strlit("MSG");
    reveal_strlit("MSG ");
    reveal_strlit("PUT ");
    reveal_strlit(" ");
    reveal_strlit("\n");
    lemma_trimmed(prompt);
    lemma_nickname_is_a_word(server, from);
    // From the client to the server.
    assert(!line.contains('\n'));
    law_line_is_received(line, seq![]);
    assert(encode_utf8(framed(line)) + seq![] =~= encode_utf8(framed(line)));
    assert(complete_lines(Seq::<u8>::empty()) =~= Seq::<Seq<u8>>::empty());
    assert(seq![encode_utf8(line)] + Seq::<Seq<u8>>::empty() =~= seq![encode_utf8(line)]);
    assert(without_line_end(framed(line)) == line) by {
        let feed = |c: char| is_line_end(c);
        assert(line.last() == text.last());
        lemma_trim_end_is(framed(line), feed, line.len() as int);
        assert(framed(line).take(line.len() as int) =~= line);
    }
    assert(!"PUT "@.is_prefix_of(line)) by {
        assert(line.subrange(0, 4)[0] == 'M');
        assert("PUT "@[0] == 'P');
    }
    // Through the server.
    assert("MSG "@ =~= "MSG"@ + " "@);
    lemma_word_and_text("MSG"@, text);
    assert(command_of(line) == "MSG"@ && payload_of(line) == text);
    law_message_reaches_all_others(server, from, line, now, to);
    // From the server to the other client.
    let payload = nickname + " "@ + text;
    assert(told =~= "MSG"@ + " "@ + payload);
    lemma_word_and_text("MSG"@, payload);
    lemma_word_and_text(nickname, text);
    assert(!told.contains('\n'));
    law_line_is_received(told, seq![]);
    let bytes = encode_utf8(framed(told));
    assert(bytes + seq![] =~= bytes);
    assert(reader.pending + bytes =~= bytes);
    assert(unfinished(Seq::<u8>::empty()) =~= Seq::<u8>::empty());
    let lines = complete_lines(bytes);
    assert(lines =~= seq![encode_utf8(told)]);
    assert(decoded(lines) =~= seq![told]);
    assert(reader.pending =~= Seq::<u8>::empty());
    let cleared = CtxModel { pending: unfinished(bytes), ..reader };
    assert(cleared =~= reader);
    assert(seq![told].drop_last() =~= Seq::<Seq<char>>::empty());
    assert(after_server_lines(reader, seq![told].drop_last(), read_at) == reader);
    assert(after_server_lines(reader, seq![told], read_at) == on_server_line(
        reader,
        told,
        read_at,
    ));
}

/// The message that came last is drawn in the next picture, at the bottom of
/// the chat, as far as the screen is wide.
pub proof fn law_last_message_is_drawn(screen: ScreenModel, uptime: nat, unix_seconds: nat)
    requires
        screen.height >= 4,
        screen.ctx.chat.len() > 0,
    ensures
        drawn(screen, uptime, unix_seconds).len() >= 4,
        ({
            let rows = drawn(screen, uptime, unix_seconds);
            let row = rows[rows.len() - 4];
            row.text == first_chars(shown(screen.ctx.chat.last()), screen.width as int)
        }),
{
}

} // verus!
