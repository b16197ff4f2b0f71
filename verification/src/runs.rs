//! What holds of the server over any run of events: how long a ban lasts, what
//! a client was told it is called, and which files there are.

use vstd::prelude::*;
use crate::bans::{Address, Ip};
#[allow(unused_imports)]
use crate::bans::still_banned;
#[allow(unused_imports)]
use crate::laws::{
    heard, law_ban_ends, law_banned_host_is_refused, law_message_reaches_all_others,
    law_newcomer_is_welcomed, lemma_sent_to_concat, lemma_sent_to_one, lemma_sent_to_others,
    sent_to,
};
#[allow(unused_imports)]
use crate::model::{
    put_client, ClientModel, EffectModel, EventModel, FileModel, OutboundModel, ServerModel,
    BAN_DURATION,
};
#[allow(unused_imports)]
use crate::names::default_nickname;
#[allow(unused_imports)]
use crate::rules::{
    after_events, ban_line, banned_line, command_of, earns_ban, line_to, line_to_others, lines_to,
    listing, newcomer, nickname_refusal, on_connected, on_event, on_line, on_request, on_upload,
    payload_of, recent, too_quick, too_quick_line, upload_plan,
};
#[allow(unused_imports)]
use crate::text::trimmed;
#[allow(unused_imports)]
use crate::upkeep::{
    law_event_keeps_valid, law_line_keeps_valid, lemma_drop_client, lemma_own_nickname,
    lemma_put_client,
};

verus! {

/// What the server orders while it is told one thing after the other.
pub open spec fn all_effects(s: ServerModel, events: Seq<(EventModel, u64)>) -> Seq<EffectModel>
    decreases events.len(),
{
    if events.len() == 0 {
        seq![]
    } else {
        all_effects(s, events.drop_last()) + on_event(
            after_events(s, events.drop_last()),
            events.last().0,
            events.last().1,
        ).1
    }
}

/// The server stays valid.
proof fn lemma_run_keeps_valid(s: ServerModel, events: Seq<(EventModel, u64)>)
    requires
        s.valid(),
    ensures
        after_events(s, events).valid(),
    decreases events.len(),
{
    if events.len() > 0 {
        lemma_run_keeps_valid(s, events.drop_last());
        law_event_keeps_valid(
            after_events(s, events.drop_last()),
            events.last().0,
            events.last().1,
        );
    }
}

// ---------------------------------------------------------------------------
// Bans

/// Whether an event is a line from a host.
pub open spec fn is_line_from(event: EventModel, ip: Ip) -> bool {
    event matches EventModel::LineReceived { address, .. } && address.ip == ip
}

/// What an event does to the ban of a host: a line from that host may set it
/// anew, a connection from anywhere drops it when its time has come, and
/// nothing else touches it.
proof fn lemma_ban_after_event(s: ServerModel, event: EventModel, now: u64, ip: Ip)
    ensures
        ({
            let after = on_event(s, event, now).0.banned;
            if is_line_from(event, ip) && earns_ban(s, event->LineReceived_address, now) {
                after.contains_key(ip) && after[ip] == now + BAN_DURATION
            } else {
                &&& after.contains_key(ip) ==> s.banned.contains_key(ip) && after[ip]
                    == s.banned[ip]
                &&& s.banned.contains_key(ip) && now < s.banned[ip] ==> after.contains_key(ip)
            }
        }),
{
    match event {
        EventModel::Connected { address } => {
            let kept = still_banned(s.banned, now);
            assert(on_connected(s, address, now).0.banned == kept);
        },
        _ => {},
    }
}

/// Whether the event at `i` of a run earns a host a ban.
pub open spec fn bans_at(s: ServerModel, events: Seq<(EventModel, u64)>, i: int, ip: Ip) -> bool {
    events[i].0 matches EventModel::LineReceived { address, .. } && address.ip == ip && earns_ban(
        after_events(s, events.take(i)),
        address,
        events[i].1,
    )
}

/// Whether no event of a run earns a host a ban.
pub open spec fn never_bans(s: ServerModel, events: Seq<(EventModel, u64)>, ip: Ip) -> bool {
    forall|i: int| 0 <= i < events.len() ==> !#[trigger] bans_at(s, events, i, ip)
}

/// What holds of a run holds of its start.
proof fn lemma_never_bans(s: ServerModel, events: Seq<(EventModel, u64)>, ip: Ip)
    requires
        events.len() > 0,
        never_bans(s, events, ip),
    ensures
        never_bans(s, events.drop_last(), ip),
        !(is_line_from(events.last().0, ip) && earns_ban(
            after_events(s, events.drop_last()),
            events.last().0->LineReceived_address,
            events.last().1,
        )),
{
    let earlier = events.drop_last();
    assert forall|i: int| 0 <= i < earlier.len() implies !#[trigger] bans_at(
        s,
        earlier,
        i,
        ip,
    ) by {
        assert(earlier.take(i) =~= events.take(i));
        assert(!bans_at(s, events, i, ip));
    }
    assert(events.take(events.len() - 1) =~= earlier);
    assert(!bans_at(s, events, events.len() - 1, ip));
}

/// A ban outlasts whatever happens between it and its end. It never ends
/// earlier; and where the host does not earn another, it ends when it was to
/// end.
pub proof fn law_ban_outlasts_what_happens(
    s: ServerModel,
    events: Seq<(EventModel, u64)>,
    ip: Ip,
)
    requires
        s.banned.contains_key(ip),
        forall|i: int|
            0 <= i < events.len() ==> (#[trigger] events[i]).1 < s.banned[ip] <= events[i].1
                + BAN_DURATION,
    ensures
        after_events(s, events).banned.contains_key(ip),
        after_events(s, events).banned[ip] >= s.banned[ip],
        never_bans(s, events, ip) ==> after_events(s, events).banned[ip] == s.banned[ip],
    decreases events.len(),
{
    if events.len() > 0 {
        let earlier = events.drop_last();
        assert forall|i: int| 0 <= i < earlier.len() implies (#[trigger] earlier[i]).1
            < s.banned[ip] <= earlier[i].1 + BAN_DURATION by {
            assert(earlier[i] == events[i]);
        }
        law_ban_outlasts_what_happens(s, earlier, ip);
        let last = events[events.len() - 1];
        lemma_ban_after_event(after_events(s, earlier), last.0, last.1, ip);
        if never_bans(s, events, ip) {
            lemma_never_bans(s, events, ip);
        }
    }
}

/// Where a host does not earn another ban, its ban is as it was or gone; and
/// gone only when its time has come.
proof fn lemma_only_ban(s: ServerModel, events: Seq<(EventModel, u64)>, ip: Ip)
    requires
        s.banned.contains_key(ip),
        never_bans(s, events, ip),
    ensures
        after_events(s, events).banned.contains_key(ip) ==> after_events(s, events).banned[ip]
            == s.banned[ip],
        (forall|i: int| 0 <= i < events.len() ==> (#[trigger] events[i]).1 < s.banned[ip])
            ==> after_events(s, events).banned.contains_key(ip),
    decreases events.len(),
{
    if events.len() > 0 {
        let earlier = events.drop_last();
        lemma_never_bans(s, events, ip);
        lemma_only_ban(s, earlier, ip);
        let last = events[events.len() - 1];
        lemma_ban_after_event(after_events(s, earlier), last.0, last.1, ip);
        if forall|i: int| 0 <= i < events.len() ==> (#[trigger] events[i]).1 < s.banned[ip] {
            assert(last.1 < s.banned[ip]);
            assert forall|i: int| 0 <= i < earlier.len() implies (#[trigger] earlier[i]).1
                < s.banned[ip] by {
                assert(earlier[i] == events[i]);
            }
        }
    }
}

/// A host that is banned is refused for ten minutes, whatever happens
/// meanwhile: a connection from it is told how long to wait and shut down,
/// nobody else hears of it, and it does not become a client. From then on it
/// is let in. Left out are runs in which the host earns another ban, which has
/// an end of its own.
pub proof fn law_ban_lasts_ten_minutes(
    s: ServerModel,
    from: Address,
    line: Seq<char>,
    banned_at: u64,
    events: Seq<(EventModel, u64)>,
    address: Address,
    now: u64,
    to: Address,
)
    requires
        s.valid(),
        earns_ban(s, from, banned_at),
        never_bans(on_line(s, from, line, banned_at).0, events, from.ip),
        forall|i: int| 0 <= i < events.len() ==> (#[trigger] events[i]).1 <= now,
        address.ip == from.ip,
    ensures
        ({
            let t = after_events(on_line(s, from, line, banned_at).0, events);
            let end = banned_at + BAN_DURATION;
            &&& t.valid()
            &&& now < end ==> {
                &&& on_connected(t, address, now).0.clients == t.clients
                &&& sent_to(on_connected(t, address, now).1, to) == if to == address {
                    seq![
                        OutboundModel::Line(banned_line((end - now) as nat)),
                        OutboundModel::Shutdown,
                    ]
                } else {
                    seq![]
                }
            }
            &&& now >= end ==> {
                &&& on_connected(t, address, now).0.knows(address)
                &&& sent_to(on_connected(t, address, now).1, address).len() > 0
                &&& sent_to(on_connected(t, address, now).1, address)[0] == OutboundModel::Line(
                    "YOU "@ + default_nickname(address.port),
                )
            }
        }),
{
    let b = on_line(s, from, line, banned_at).0;
    law_line_keeps_valid(s, from, line, banned_at);
    assert(b.banned.contains_key(from.ip));
    assert(b.banned[from.ip] == banned_at + BAN_DURATION);
    lemma_run_keeps_valid(b, events);
    lemma_only_ban(b, events, from.ip);
    let t = after_events(b, events);
    if now < banned_at + BAN_DURATION {
        assert forall|i: int| 0 <= i < events.len() implies (#[trigger] events[i]).1
            < b.banned[from.ip] by {}
        law_banned_host_is_refused(t, address, now, to);
    } else {
        law_ban_ends(t, address, now);
        assert(!still_banned(t.banned, now).contains_key(address.ip));
        law_newcomer_is_welcomed(t, address, now, address);
    }
}

// ---------------------------------------------------------------------------
// Nicknames

/// Whether a line tells its reader a nickname.
pub open spec fn tells_nickname(line: Seq<char>) -> bool {
    "YOU "@.is_prefix_of(line)
}

/// The nickname that a client was told last, if it was told one.
pub open spec fn told_nickname(sent: Seq<OutboundModel>) -> Option<Seq<char>>
    decreases sent.len(),
{
    if sent.len() == 0 {
        None
    } else {
        match sent.last() {
            OutboundModel::Line(line) if tells_nickname(line) => Some(
                line.skip("YOU "@.len() as int),
            ),
            _ => told_nickname(sent.drop_last()),
        }
    }
}

/// What is told last is what is told behind, or else before.
proof fn lemma_told_concat(a: Seq<OutboundModel>, b: Seq<OutboundModel>)
    ensures
        told_nickname(a + b) == (if told_nickname(b) is Some {
            told_nickname(b)
        } else {
            told_nickname(a)
        }),
    decreases b.len(),
{
    if b.len() == 0 {
        assert(a + b =~= a);
    } else {
        assert((a + b).drop_last() =~= a + b.drop_last());
        assert((a + b).last() == b.last());
        lemma_told_concat(a, b.drop_last());
    }
}

/// Whether a line begins with another letter than those that tell a nickname.
pub open spec fn is_other_line(line: Seq<char>) -> bool {
    line.len() > 0 && line[0] != 'Y'
}

/// Whether effects send no nickname to an address.
spec fn quiet(effects: Seq<EffectModel>, a: Address) -> bool {
    forall|i: int|
        0 <= i < effects.len() ==> (match #[trigger] effects[i] {
            EffectModel::Send { to, message: OutboundModel::Line(line) } => to == a
                ==> is_other_line(line),
            _ => true,
        })
}

/// Who is sent no nickname is told none.
proof fn lemma_quiet(effects: Seq<EffectModel>, a: Address)
    requires
        quiet(effects, a),
    ensures
        told_nickname(sent_to(effects, a)) is None,
    decreases effects.len(),
{
    if effects.len() > 0 {
        let front = effects.drop_last();
        assert forall|i: int| 0 <= i < front.len() implies (match #[trigger] front[i] {
            EffectModel::Send { to, message: OutboundModel::Line(line) } => to == a
                ==> is_other_line(line),
            _ => true,
        }) by {
            assert(front[i] == effects[i]);
        }
        lemma_quiet(front, a);
        let last = effects[effects.len() - 1];
        match last {
            EffectModel::Send { to, message } => {
                if to == a {
                    let before = sent_to(front, a);
                    assert(before.push(message).drop_last() =~= before);
                    reveal_strlit("YOU ");
                    match message {
                        OutboundModel::Line(line) => {
                            assert(is_other_line(line));
                            if tells_nickname(line) {
                                assert("YOU "@[0] == line[0]);
                            }
                        },
                        _ => {},
                    }
                }
            },
            _ => {},
        }
    }
}

/// Who is sent its nickname, and no other behind it, is told that nickname.
proof fn lemma_named(nickname: Seq<char>, rest: Seq<EffectModel>, a: Address)
    requires
        quiet(rest, a),
    ensures
        told_nickname(sent_to(seq![line_to(a, "YOU "@ + nickname)] + rest, a)) == Some(nickname),
{
    let first = line_to(a, "YOU "@ + nickname);
    lemma_sent_to_concat(seq![first], rest, a);
    lemma_sent_to_one(first, a);
    lemma_quiet(rest, a);
    lemma_told_concat(sent_to(seq![first], a), sent_to(rest, a));
    let line = "YOU "@ + nickname;
    assert(line.subrange(0, "YOU "@.len() as int) =~= "YOU "@);
    assert(line.skip("YOU "@.len() as int) =~= nickname);
    let one = seq![OutboundModel::Line(line)];
    assert(one.last() == OutboundModel::Line(line));
    assert(told_nickname(one) == Some(nickname));
}

/// The words that lines begin with, other than the one that tells a nickname.
proof fn lemma_other_words()
    ensures
        is_other_line("MSG "@),
        is_other_line("SYS "@),
        is_other_line("NICK "@),
        is_other_line("FILES "@),
        is_other_line("OUT "@),
        is_other_line("OUT [output truncated]"@),
        is_other_line("EXEC_END "@),
        is_other_line("LLM "@),
        is_other_line("OK "@),
        is_other_line("ERR "@),
        is_other_line("ERR message cannot be empty"@),
        is_other_line("ERR file not found"@),
        is_other_line("ERR usage: /llm <prompt>"@),
        is_other_line("ERR empty command"@),
        is_other_line("ERR unknown protocol command"@),
        is_other_line("ERR file already exists"@),
        is_other_line("ERR could not store file: "@),
        is_other_line("ERR llm request failed: "@),
        is_other_line("ERR temporarily banned; try again in "@),
        is_other_line(too_quick_line()),
        is_other_line(ban_line()),
{
    reveal_strlit("MSG ");
    reveal_strlit("SYS ");
    reveal_strlit("NICK ");
    reveal_strlit("FILES ");
    reveal_strlit("OUT ");
    reveal_strlit("OUT [output truncated]");
    reveal_strlit("EXEC_END ");
    reveal_strlit("LLM ");
    reveal_strlit("OK ");
    reveal_strlit("ERR ");
    reveal_strlit("ERR message cannot be empty");
    reveal_strlit("ERR file not found");
    reveal_strlit("ERR usage: /llm <prompt>");
    reveal_strlit("ERR empty command");
    reveal_strlit("ERR unknown protocol command");
    reveal_strlit("ERR file already exists");
    reveal_strlit("ERR could not store file: ");
    reveal_strlit("ERR llm request failed: ");
    reveal_strlit("ERR temporarily banned; try again in ");
    reveal_strlit("ERR you are sending messages too quickly");
    reveal_strlit("ERR too many rapid messages; you are banned for 10 minutes");
}

/// Whether none of the lines that are remembered tells a nickname.
pub open spec fn are_messages(history: Seq<Seq<char>>) -> bool {
    forall|i: int| 0 <= i < history.len() ==> is_other_line(#[trigger] history[i])
}

/// Whether an event leaves a client its nickname and tells it none, or tells it
/// the nickname that it has from then on.
spec fn names_truly(s: ServerModel, event: EventModel, now: u64, a: Address) -> bool {
    let (after, effects) = on_event(s, event, now);
    let told = told_nickname(sent_to(effects, a));
    after.knows(a) ==> {
        ||| told == Some(after.client(a).nickname)
        ||| told is None && s.knows(a) && s.client(a).nickname == after.client(a).nickname
    }
}

/// A connection: the newcomer is told its nickname.
proof fn lemma_connected_names(s: ServerModel, address: Address, now: u64, a: Address)
    requires
        s.valid(),
        are_messages(s.history),
    ensures
        names_truly(s, EventModel::Connected { address }, now, a),
{
    lemma_other_words();
    let (after, effects) = on_connected(s, address, now);
    if still_banned(s.banned, now).contains_key(address.ip) {
        assert(quiet(effects, a));
        lemma_quiet(effects, a);
    } else {
        lemma_put_client(s.clients, newcomer(address));
        let nickname = default_nickname(address.port);
        let shown = lines_to(address, recent(s.history));
        let joined = line_to_others(s.clients, address, "SYS "@ + nickname + " joined the chat"@);
        let end = effects.skip((1 + shown.len() + joined.len()) as int);
        let rest = shown + joined + end;
        assert(effects =~= seq![line_to(address, "YOU "@ + nickname)] + rest);
        assert forall|i: int| 0 <= i < rest.len() implies (match #[trigger] rest[i] {
            EffectModel::Send { to, message: OutboundModel::Line(line) } => to == a
                ==> is_other_line(line),
            _ => true,
        }) by {
            if i < shown.len() {
                assert(rest[i] == line_to(address, recent(s.history)[i]));
                let k = s.history.len() - recent(s.history).len() + i;
                assert(recent(s.history)[i] == s.history[k]);
            } else if i < shown.len() + joined.len() {
                assert(rest[i] == joined[i - shown.len()]);
            } else {
                assert(rest[i] == end[i - shown.len() - joined.len()]);
            }
        }
        if a == address {
            lemma_named(nickname, rest, a);
        } else {
            assert forall|i: int| 0 <= i < effects.len() implies (match #[trigger] effects[i] {
                EffectModel::Send { to, message: OutboundModel::Line(line) } => to == a
                    ==> is_other_line(line),
                _ => true,
            }) by {
                if i > 0 {
                    assert(effects[i] == rest[i - 1]);
                }
            }
            lemma_quiet(effects, a);
        }
    }
}

/// A line: only who asks for a nickname and gets it is told one.
proof fn lemma_line_names(s: ServerModel, address: Address, line: Seq<char>, now: u64, a: Address)
    requires
        s.valid(),
    ensures
        names_truly(s, EventModel::LineReceived { address, line }, now, a),
{
    lemma_other_words();
    let (after, effects) = on_line(s, address, line, now);
    if !s.knows(address) {
        assert(quiet(effects, a));
        lemma_quiet(effects, a);
    } else if too_quick(s.client(address), now) {
        assert(quiet(effects, a));
        lemma_quiet(effects, a);
        if earns_ban(s, address, now) {
            lemma_drop_client(s.clients, address);
        } else {
            lemma_put_client(
                s.clients,
                ClientModel {
                    last_message_at: Some(now),
                    rate_limit_violations: (s.client(address).rate_limit_violations + 1) as u32,
                    ..s.client(address)
                },
            );
            lemma_own_nickname(s.clients, address);
        }
    } else {
        let fresh = ClientModel {
            last_message_at: Some(now),
            rate_limit_violations: 0,
            ..s.client(address)
        };
        lemma_own_nickname(s.clients, address);
        lemma_put_client(s.clients, fresh);
        let t = heard(s, address, now);
        assert(on_line(s, address, line, now) == on_request(t, address, line));
        let requested = trimmed(payload_of(line));
        if command_of(line) != "MSG"@ && command_of(line) == "NICK"@ && nickname_refusal(
            t.clients,
            address,
            requested,
        ) is None {
            let renamed = ClientModel { nickname: requested, ..fresh };
            lemma_put_client(t.clients, renamed);
            let clients = put_client(t.clients, renamed);
            let rest = line_to_others(
                clients,
                address,
                "NICK "@ + t.client(address).nickname + " "@ + requested,
            );
            assert(effects =~= seq![line_to(address, "YOU "@ + requested)] + rest);
            assert(quiet(rest, a));
            if a == address {
                lemma_named(requested, rest, a);
            } else {
                assert forall|i: int| 0 <= i < effects.len() implies (match #[trigger] effects[i] {
                    EffectModel::Send { to, message: OutboundModel::Line(line) } => to == a
                        ==> is_other_line(line),
                    _ => true,
                }) by {
                    if i > 0 {
                        assert(effects[i] == rest[i - 1]);
                    }
                }
                lemma_quiet(effects, a);
            }
        } else {
            assert(quiet(effects, a));
            lemma_quiet(effects, a);
        }
    }
}

/// Any event: what a client is told is what it is called.
proof fn lemma_event_names(s: ServerModel, event: EventModel, now: u64, a: Address)
    requires
        s.valid(),
        are_messages(s.history),
    ensures
        names_truly(s, event, now, a),
        are_messages(on_event(s, event, now).0.history),
{
    lemma_other_words();
    let (after, effects) = on_event(s, event, now);
    match event {
        EventModel::Connected { address } => lemma_connected_names(s, address, now, a),
        EventModel::LineReceived { address, line } => lemma_line_names(s, address, line, now, a),
        EventModel::Disconnected { address } => {
            if s.knows(address) {
                lemma_drop_client(s.clients, address);
            }
            assert(quiet(effects, a));
            lemma_quiet(effects, a);
        },
        EventModel::FileUploaded { from, name, size, moved } => {
            assert(quiet(effects, a));
            lemma_quiet(effects, a);
        },
        EventModel::ExecFinished { address, status, output, truncated } => {
            assert(quiet(effects, a));
            lemma_quiet(effects, a);
        },
        EventModel::LlmFinished { address, result } => {
            assert(quiet(effects, a));
            lemma_quiet(effects, a);
        },
    }
}

/// Each client is called what it was told last, whatever has happened since the
/// server started.
pub proof fn law_client_knows_its_nickname(
    s: ServerModel,
    events: Seq<(EventModel, u64)>,
    a: Address,
)
    requires
        s.valid(),
        s.clients.len() == 0,
        s.history.len() == 0,
    ensures
        after_events(s, events).valid(),
        are_messages(after_events(s, events).history),
        after_events(s, events).knows(a) ==> told_nickname(sent_to(all_effects(s, events), a))
            == Some(after_events(s, events).client(a).nickname),
    decreases events.len(),
{
    if events.len() > 0 {
        let earlier = events.drop_last();
        let t = after_events(s, earlier);
        let event = events.last().0;
        let now = events.last().1;
        law_client_knows_its_nickname(s, earlier, a);
        law_event_keeps_valid(t, event, now);
        lemma_event_names(t, event, now, a);
        let effects = on_event(t, event, now).1;
        lemma_sent_to_concat(all_effects(s, earlier), effects, a);
        lemma_told_concat(sent_to(all_effects(s, earlier), a), sent_to(effects, a));
    }
}

/// A message carries the nickname that its sender was told last: whatever has
/// happened since the server started, and whatever the line says, each other
/// client is sent the message once, under that nickname, and its sender is sent
/// nothing.
pub proof fn law_message_carries_the_nickname_last_told(
    s: ServerModel,
    events: Seq<(EventModel, u64)>,
    from: Address,
    line: Seq<char>,
    now: u64,
    to: Address,
)
    requires
        s.valid(),
        s.clients.len() == 0,
        s.history.len() == 0,
        after_events(s, events).knows(from),
        !too_quick(after_events(s, events).client(from), now),
        command_of(line) == "MSG"@,
        trimmed(payload_of(line)).len() > 0,
    ensures
        told_nickname(sent_to(all_effects(s, events), from)) is Some,
        sent_to(on_line(after_events(s, events), from, line, now).1, to) == if to != from
            && after_events(s, events).knows(to) {
            seq![
                OutboundModel::Line(
                    "MSG "@ + told_nickname(sent_to(all_effects(s, events), from))->0 + " "@
                        + trimmed(payload_of(line)),
                ),
            ]
        } else {
            seq![]
        },
{
    law_client_knows_its_nickname(s, events, from);
    law_message_reaches_all_others(after_events(s, events), from, line, now, to);
}

// ---------------------------------------------------------------------------
// Files

/// The file that is stored when the server is told something, or none.
pub open spec fn stored_on(s: ServerModel, event: EventModel) -> Seq<FileModel> {
    match event {
        EventModel::FileUploaded { from, name, size, moved } => if upload_plan(s, from, name)
            is Store && moved is Ok {
            seq![FileModel { name, size }]
        } else {
            seq![]
        },
        _ => seq![],
    }
}

/// The files that are stored while the server is told one thing after the other.
pub open spec fn all_stored(s: ServerModel, events: Seq<(EventModel, u64)>) -> Seq<FileModel>
    decreases events.len(),
{
    if events.len() == 0 {
        seq![]
    } else {
        all_stored(s, events.drop_last()) + stored_on(
            after_events(s, events.drop_last()),
            events.last().0,
        )
    }
}

/// The files are those that there were, and those that were stored since.
pub proof fn law_files_are_those_stored(s: ServerModel, events: Seq<(EventModel, u64)>)
    ensures
        after_events(s, events).files == s.files + all_stored(s, events),
    decreases events.len(),
{
    if events.len() > 0 {
        let earlier = events.drop_last();
        law_files_are_those_stored(s, earlier);
        let t = after_events(s, earlier);
        let new = stored_on(t, events.last().0);
        assert(after_events(s, events).files =~= t.files + new);
        assert((s.files + all_stored(s, earlier)) + new =~= s.files + (all_stored(s, earlier)
            + new));
    } else {
        assert(s.files + all_stored(s, events) =~= s.files);
    }
}

/// The sender of a file that is stored is told so, and each other client is
/// told who sent what.
pub proof fn law_stored_file_is_confirmed(
    s: ServerModel,
    from: Address,
    name: Seq<char>,
    size: u64,
    to: Address,
)
    requires
        s.valid(),
        upload_plan(s, from, name) is Store,
    ensures
        sent_to(on_upload(s, from, name, size, Ok(())).1, to) == if to == from {
            seq![OutboundModel::Line("OK "@ + name)]
        } else if s.knows(to) {
            seq![
                OutboundModel::Line(
                    "SYS "@ + s.client(from).nickname + " uploaded "@ + name + " ("@
                        + crate::number::decimal(size as nat) + " bytes)"@,
                ),
            ]
        } else {
            seq![]
        },
{
    let told = line_to(from, "OK "@ + name);
    let spread = "SYS "@ + s.client(from).nickname + " uploaded "@ + name + " ("@
        + crate::number::decimal(size as nat) + " bytes)"@;
    let others = line_to_others(s.clients, from, spread);
    assert(on_upload(s, from, name, size, Ok(())).1 == seq![told] + others);
    lemma_sent_to_concat(seq![told], others, to);
    lemma_sent_to_one(told, to);
    lemma_sent_to_others(s.clients, from, spread, to);
    let sent = sent_to(on_upload(s, from, name, size, Ok(())).1, to);
    if to == from {
        assert(sent =~= sent_to(seq![told], to));
    } else {
        assert(sent =~= sent_to(others, to));
    }
}

/// Who asks for the files is sent the list of all files that there are, and
/// nobody else is sent anything; nothing changes.
pub proof fn law_listing_is_answered(
    s: ServerModel,
    from: Address,
    line: Seq<char>,
    now: u64,
    to: Address,
)
    requires
        s.valid(),
        s.knows(from),
        !too_quick(s.client(from), now),
        command_of(line) == "LS"@,
    ensures
        on_line(s, from, line, now).0 == heard(s, from, now),
        on_line(s, from, line, now).1 == seq![line_to(from, listing(s.files))],
        sent_to(on_line(s, from, line, now).1, to) == if to == from {
            seq![OutboundModel::Line(listing(s.files))]
        } else {
            seq![]
        },
{
    reveal_strlit("LS");
    reveal_strlit("MSG");
    reveal_strlit("NICK");
    reveal_strlit("GET");
    assert("LS"@.len() == 2 && "MSG"@.len() == 3 && "NICK"@.len() == 4 && "GET"@.len() == 3);
    lemma_sent_to_one(line_to(from, listing(s.files)), to);
}

} // verus!
