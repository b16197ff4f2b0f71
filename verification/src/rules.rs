//! What the server does on each event, as functions on its value: the value
//! that it has afterwards, and the effects that it orders.

use vstd::prelude::*;
use crate::bans::Address;
#[allow(unused_imports)]
use crate::bans::still_banned;
#[allow(unused_imports)]
use crate::model::{
    drop_client, file_size, has_file, nickname_taken, put_client, put_file, ClientModel,
    EffectModel, EventModel, FileModel, NoticeModel, OutboundModel, ServerModel, BAN_DURATION,
    HISTORY_LIMIT, HISTORY_ON_CONNECT, MAX_RATE_LIMIT_VIOLATIONS, MIN_MESSAGE_INTERVAL,
};
#[allow(unused_imports)]
use crate::names::{default_nickname, nickname_problem};
#[allow(unused_imports)]
use crate::number::{decimal, signed_decimal};
#[allow(unused_imports)]
use crate::order::sorted_texts;
#[allow(unused_imports)]
use crate::text::{joined, lines, split_at_first, trimmed};

verus! {

// ---------------------------------------------------------------------------
// Effects

/// A line is sent to one address.
pub open spec fn line_to(to: Address, line: Seq<char>) -> EffectModel {
    EffectModel::Send { to, message: OutboundModel::Line(line) }
}

/// A line is sent to each client but the one with an address.
pub open spec fn line_to_others(
    clients: Seq<ClientModel>,
    except: Address,
    line: Seq<char>,
) -> Seq<EffectModel> {
    clients.filter(|client: ClientModel| client.address != except).map_values(
        |client: ClientModel| line_to(client.address, line),
    )
}

/// Lines are sent to one address, in order.
pub open spec fn lines_to(to: Address, all: Seq<Seq<char>>) -> Seq<EffectModel> {
    all.map_values(|line: Seq<char>| line_to(to, line))
}

// ---------------------------------------------------------------------------
// Coming and going

/// The last messages, as many as a client is shown.
pub open spec fn recent(history: Seq<Seq<char>>) -> Seq<Seq<char>> {
    if history.len() <= HISTORY_ON_CONNECT {
        history
    } else {
        history.skip(history.len() - HISTORY_ON_CONNECT)
    }
}

/// What a host is told that is banned for some more time.
pub open spec fn banned_line(remaining: nat) -> Seq<char> {
    "ERR temporarily banned; try again in "@ + decimal(remaining / 1_000_000_000 + 1)
        + " seconds"@
}

/// A client that has just come.
pub open spec fn newcomer(address: Address) -> ClientModel {
    ClientModel {
        address,
        nickname: default_nickname(address.port),
        last_message_at: None,
        rate_limit_violations: 0,
    }
}

/// A connection is announced: it becomes a client, unless its host is banned.
pub open spec fn on_connected(s: ServerModel, address: Address, now: u64) -> (
    ServerModel,
    Seq<EffectModel>,
) {
    let banned = still_banned(s.banned, now);
    let s = ServerModel { banned, ..s };
    if banned.contains_key(address.ip) {
        (
            s,
            seq![
                line_to(address, banned_line((banned[address.ip] - now) as nat)),
                EffectModel::Send { to: address, message: OutboundModel::Shutdown },
            ],
        )
    } else {
        let nickname = default_nickname(address.port);
        (
            ServerModel { clients: put_client(s.clients, newcomer(address)), ..s },
            seq![line_to(address, "YOU "@ + nickname)] + lines_to(address, recent(s.history))
                + line_to_others(s.clients, address, "SYS "@ + nickname + " joined the chat"@)
                + seq![
                EffectModel::Print(NoticeModel::Connected { address, nickname }),
                EffectModel::Admit { address },
            ],
        )
    }
}

/// A client is gone.
pub open spec fn on_disconnected(s: ServerModel, address: Address) -> (
    ServerModel,
    Seq<EffectModel>,
) {
    if !s.knows(address) {
        (s, seq![])
    } else {
        let nickname = s.client(address).nickname;
        let clients = drop_client(s.clients, address);
        (
            ServerModel { clients, ..s },
            seq![EffectModel::Print(NoticeModel::Disconnected { address, nickname })]
                + line_to_others(clients, address, "SYS "@ + nickname + " left the chat"@) + seq![
                EffectModel::Forget { address },
            ],
        )
    }
}

// ---------------------------------------------------------------------------
// Lines

/// Whether a client's line at `now` comes too soon after the one before.
pub open spec fn too_quick(client: ClientModel, now: u64) -> bool {
    client.last_message_at matches Some(last) && now - last < MIN_MESSAGE_INTERVAL
}

/// The part of a line before the first space: what kind of line it is.
pub open spec fn command_of(line: Seq<char>) -> Seq<char> {
    match split_at_first(line, ' ') {
        Some((command, payload)) => command,
        None => line,
    }
}

/// The part of a line behind the first space.
pub open spec fn payload_of(line: Seq<char>) -> Seq<char> {
    match split_at_first(line, ' ') {
        Some((command, payload)) => payload,
        None => seq![],
    }
}

/// The messages, with one more: where they become too many, the oldest goes.
pub open spec fn remember(history: Seq<Seq<char>>, message: Seq<char>) -> Seq<Seq<char>> {
    let longer = history.push(message);
    if longer.len() > HISTORY_LIMIT {
        longer.drop_first()
    } else {
        longer
    }
}

/// A client says something.
pub open spec fn on_message(s: ServerModel, address: Address, payload: Seq<char>) -> (
    ServerModel,
    Seq<EffectModel>,
) {
    let text = trimmed(payload);
    if text.len() == 0 {
        (s, seq![line_to(address, "ERR message cannot be empty"@)])
    } else {
        let nickname = s.client(address).nickname;
        let message = "MSG "@ + nickname + " "@ + text;
        (
            ServerModel { history: remember(s.history, message), ..s },
            seq![EffectModel::Print(NoticeModel::Said { address, nickname, text })]
                + line_to_others(s.clients, address, message),
        )
    }
}

/// What stands against a nickname for the client with an address.
pub open spec fn nickname_refusal(
    clients: Seq<ClientModel>,
    address: Address,
    requested: Seq<char>,
) -> Option<Seq<char>> {
    if nickname_problem(requested) is Some {
        nickname_problem(requested)
    } else if nickname_taken(clients, address, requested) {
        Some("nickname is already in use"@)
    } else {
        None
    }
}

/// A client asks for a nickname.
pub open spec fn on_nickname(s: ServerModel, address: Address, payload: Seq<char>) -> (
    ServerModel,
    Seq<EffectModel>,
) {
    let requested = trimmed(payload);
    match nickname_refusal(s.clients, address, requested) {
        Some(reason) => (s, seq![line_to(address, "ERR "@ + reason)]),
        None => {
            let client = s.client(address);
            let clients = put_client(
                s.clients,
                ClientModel { nickname: requested, ..client },
            );
            (
                ServerModel { clients, ..s },
                seq![line_to(address, "YOU "@ + requested)] + line_to_others(
                    clients,
                    address,
                    "NICK "@ + client.nickname + " "@ + requested,
                ),
            )
        },
    }
}

/// A client asks for a file.
pub open spec fn on_get(s: ServerModel, address: Address, payload: Seq<char>) -> Seq<EffectModel> {
    let name = trimmed(payload);
    if has_file(s.files, name) {
        seq![
            EffectModel::Send {
                to: address,
                message: OutboundModel::File { name, size: file_size(s.files, name) },
            },
        ]
    } else {
        seq![line_to(address, "ERR file not found"@)]
    }
}

/// How a file is listed.
pub open spec fn file_entry(file: FileModel) -> Seq<char> {
    file.name + ":"@ + decimal(file.size as nat)
}

/// The files, in order, as one line.
pub open spec fn listing(files: Seq<FileModel>) -> Seq<char> {
    "FILES "@ + joined(sorted_texts(files.map_values(|file: FileModel| file_entry(file))), ","@)
}

/// A client asks the language model.
pub open spec fn on_llm(address: Address, payload: Seq<char>) -> Seq<EffectModel> {
    let prompt = trimmed(payload);
    if prompt.len() == 0 {
        seq![line_to(address, "ERR usage: /llm <prompt>"@)]
    } else {
        seq![EffectModel::AskModel { address, prompt }]
    }
}

/// A client asks for a command to be run.
pub open spec fn on_exec(address: Address, payload: Seq<char>) -> Seq<EffectModel> {
    if payload.len() == 0 {
        seq![line_to(address, "ERR empty command"@)]
    } else {
        seq![EffectModel::RunCommand { address, command: payload }]
    }
}

/// What a client asks for that was not too quick.
pub open spec fn on_request(s: ServerModel, address: Address, line: Seq<char>) -> (
    ServerModel,
    Seq<EffectModel>,
) {
    let command = command_of(line);
    let payload = payload_of(line);
    if command == "MSG"@ {
        on_message(s, address, payload)
    } else if command == "NICK"@ {
        on_nickname(s, address, payload)
    } else if command == "GET"@ {
        (s, on_get(s, address, payload))
    } else if command == "LS"@ {
        (s, seq![line_to(address, listing(s.files))])
    } else if command == "LLM"@ {
        (s, on_llm(address, payload))
    } else if command == "EXEC"@ {
        (s, on_exec(address, payload))
    } else {
        (s, seq![line_to(address, "ERR unknown protocol command"@)])
    }
}

/// What a client is told that was too quick.
pub open spec fn too_quick_line() -> Seq<char> {
    "ERR you are sending messages too quickly"@
}

/// What a client is told whose host is banned.
pub open spec fn ban_line() -> Seq<char> {
    "ERR too many rapid messages; you are banned for 10 minutes"@
}

/// A client was too quick once too often: its host is banned and it is removed.
pub open spec fn on_ban(s: ServerModel, address: Address, now: u64) -> (
    ServerModel,
    Seq<EffectModel>,
) {
    let banned = s.banned.insert(address.ip, (now + BAN_DURATION) as u128);
    let left = on_disconnected(ServerModel { banned, ..s }, address);
    (
        left.0,
        seq![
            line_to(address, too_quick_line()),
            line_to(address, ban_line()),
            EffectModel::Send { to: address, message: OutboundModel::Shutdown },
        ] + left.1,
    )
}

/// Whether a line from an address at `now` is one too many that comes too soon.
pub open spec fn earns_ban(s: ServerModel, address: Address, now: u64) -> bool {
    &&& s.knows(address)
    &&& too_quick(s.client(address), now)
    &&& s.client(address).rate_limit_violations + 1 >= MAX_RATE_LIMIT_VIOLATIONS
}

/// A line came from an address.
pub open spec fn on_line(s: ServerModel, address: Address, line: Seq<char>, now: u64) -> (
    ServerModel,
    Seq<EffectModel>,
) {
    if !s.knows(address) {
        (s, seq![])
    } else {
        let client = s.client(address);
        if too_quick(client, now) {
            if client.rate_limit_violations + 1 >= MAX_RATE_LIMIT_VIOLATIONS {
                on_ban(s, address, now)
            } else {
                (
                    ServerModel {
                        clients: put_client(
                            s.clients,
                            ClientModel {
                                last_message_at: Some(now),
                                rate_limit_violations: (client.rate_limit_violations + 1) as u32,
                                ..client
                            },
                        ),
                        ..s
                    },
                    seq![line_to(address, too_quick_line())],
                )
            }
        } else {
            on_request(
                ServerModel {
                    clients: put_client(
                        s.clients,
                        ClientModel { last_message_at: Some(now), rate_limit_violations: 0, ..client },
                    ),
                    ..s
                },
                address,
                line,
            )
        }
    }
}

// ---------------------------------------------------------------------------
// Uploads, commands and answers

/// What becomes of a file that was received.
#[derive(Clone, Copy, Debug, PartialEq, Eq, Structural)]
pub enum UploadPlan {
    /// Its sender is gone: it is removed.
    Discard,
    /// There is a file of its name: it is removed, and the sender is told.
    Refuse,
    /// It is moved to the other files.
    Store,
}

/// What becomes of a file that was received.
pub open spec fn upload_plan(s: ServerModel, from: Address, name: Seq<char>) -> UploadPlan {
    if !s.knows(from) {
        UploadPlan::Discard
    } else if has_file(s.files, name) {
        UploadPlan::Refuse
    } else {
        UploadPlan::Store
    }
}

/// A file was received. Where it was to be moved, `moved` says whether that
/// went well, or what went wrong.
pub open spec fn on_upload(
    s: ServerModel,
    from: Address,
    name: Seq<char>,
    size: u64,
    moved: Result<(), Seq<char>>,
) -> (ServerModel, Seq<EffectModel>) {
    match upload_plan(s, from, name) {
        UploadPlan::Discard => (s, seq![]),
        UploadPlan::Refuse => (s, seq![line_to(from, "ERR file already exists"@)]),
        UploadPlan::Store => match moved {
            Err(error) => (s, seq![line_to(from, "ERR could not store file: "@ + error)]),
            Ok(()) => (
                ServerModel { files: put_file(s.files, FileModel { name, size }), ..s },
                seq![line_to(from, "OK "@ + name)] + line_to_others(
                    s.clients,
                    from,
                    "SYS "@ + s.client(from).nickname + " uploaded "@ + name + " ("@ + decimal(
                        size as nat,
                    ) + " bytes)"@,
                ),
            ),
        },
    }
}

/// What a client is told of the output of a command.
pub open spec fn exec_lines(status: i32, output: Seq<char>, truncated: bool) -> Seq<Seq<char>> {
    lines(output).filter(|line: Seq<char>| line.len() > 0).map_values(
        |line: Seq<char>| "OUT "@ + line,
    ) + (if truncated {
        seq!["OUT [output truncated]"@]
    } else {
        seq![]
    }) + seq!["EXEC_END "@ + signed_decimal(status as int)]
}

/// A command has ended.
pub open spec fn on_exec_finished(
    s: ServerModel,
    address: Address,
    status: i32,
    output: Seq<char>,
    truncated: bool,
) -> Seq<EffectModel> {
    if s.knows(address) {
        lines_to(address, exec_lines(status, output, truncated))
    } else {
        seq![]
    }
}

/// What a client is told of the answer of the language model.
pub open spec fn llm_lines(result: Result<Seq<char>, Seq<char>>) -> Seq<Seq<char>> {
    match result {
        Ok(answer) => if answer.len() == 0 {
            seq!["LLM "@]
        } else {
            lines(answer).map_values(|line: Seq<char>| "LLM "@ + line)
        },
        Err(error) => seq!["ERR llm request failed: "@ + error],
    }
}

/// The language model has answered, or could not be asked.
pub open spec fn on_llm_finished(
    s: ServerModel,
    address: Address,
    result: Result<Seq<char>, Seq<char>>,
) -> Seq<EffectModel> {
    if s.knows(address) {
        lines_to(address, llm_lines(result))
    } else {
        seq![]
    }
}

// ---------------------------------------------------------------------------
// Any event

/// `String::from_utf8_lossy`: what stands for the text of bytes, with a
/// replacement for each part that is not valid UTF-8.
pub uninterp spec fn lossy_text(bytes: Seq<u8>) -> Seq<char>;

/// The server is told something at `now`.
pub open spec fn on_event(s: ServerModel, event: EventModel, now: u64) -> (
    ServerModel,
    Seq<EffectModel>,
) {
    match event {
        EventModel::Connected { address } => on_connected(s, address, now),
        EventModel::Disconnected { address } => on_disconnected(s, address),
        EventModel::LineReceived { address, line } => on_line(s, address, line, now),
        EventModel::FileUploaded { from, name, size, moved } => on_upload(
            s,
            from,
            name,
            size,
            moved,
        ),
        EventModel::ExecFinished { address, status, output, truncated } => (
            s,
            on_exec_finished(s, address, status, lossy_text(output), truncated),
        ),
        EventModel::LlmFinished { address, result } => (s, on_llm_finished(s, address, result)),
    }
}

/// The server after it was told one thing after the other, each at its time.
pub open spec fn after_events(s: ServerModel, events: Seq<(EventModel, u64)>) -> ServerModel
    decreases events.len(),
{
    if events.len() == 0 {
        s
    } else {
        let before = after_events(s, events.drop_last());
        on_event(before, events.last().0, events.last().1).0
    }
}

} // verus!
