//! What the server promises: who hears what, who is banned and for how long,
//! and what becomes of messages, nicknames and files.

use vstd::prelude::*;
use crate::bans::Address;
#[allow(unused_imports)]
use crate::bans::still_banned;
#[allow(unused_imports)]
use crate::model::{
    addresses_unique, client_slot, drop_client, file_size, file_slot, has_client, has_file,
    lemma_file_slot, lemma_put_file, nickname_taken, put_client, put_file, ClientModel, EffectModel,
    EventModel, FileModel, NoticeModel, OutboundModel, ServerModel, BAN_DURATION, HISTORY_LIMIT,
    HISTORY_ON_CONNECT, MAX_RATE_LIMIT_VIOLATIONS, MIN_MESSAGE_INTERVAL,
};
#[allow(unused_imports)]
use crate::names::{default_nickname, nickname_problem, safe_filename};
#[allow(unused_imports)]
use crate::order::{law_sorted_texts, sorted_texts};
#[allow(unused_imports)]
use crate::rules::{
    after_events, ban_line, banned_line, command_of, file_entry, line_to, line_to_others, lines_to,
    newcomer, nickname_refusal, on_connected, on_disconnected, on_event, on_get, on_line, on_upload,
    payload_of, recent, remember, too_quick, too_quick_line,
};
#[allow(unused_imports)]
use crate::text::{same_ignoring_case, trimmed};
#[allow(unused_imports)]
use crate::upkeep::{law_event_keeps_valid, lemma_drop_client, lemma_own_nickname, lemma_put_client};

verus! {

// ---------------------------------------------------------------------------
// What is sent to whom

/// What is sent to an address, in order.
pub open spec fn sent_to(effects: Seq<EffectModel>, to: Address) -> Seq<OutboundModel>
    decreases effects.len(),
{
    if effects.len() == 0 {
        seq![]
    } else {
        let before = sent_to(effects.drop_last(), to);
        match effects.last() {
            EffectModel::Send { to: there, message } => if there == to {
                before.push(message)
            } else {
                before
            },
            _ => before,
        }
    }
}

/// What is sent by effects, one behind the other.
pub proof fn lemma_sent_to_concat(a: Seq<EffectModel>, b: Seq<EffectModel>, to: Address)
    ensures
        sent_to(a + b, to) == sent_to(a, to) + sent_to(b, to),
    decreases b.len(),
{
    if b.len() == 0 {
        assert(a + b == a);
        assert(sent_to(a, to) + sent_to(b, to) =~= sent_to(a, to));
    } else {
        assert((a + b).drop_last() == a + b.drop_last());
        assert((a + b).last() == b.last());
        lemma_sent_to_concat(a, b.drop_last(), to);
        assert(sent_to(a + b, to) =~= sent_to(a, to) + sent_to(b, to));
    }
}

/// What is sent by one effect.
pub proof fn lemma_sent_to_one(effect: EffectModel, to: Address)
    ensures
        sent_to(seq![effect], to) == (match effect {
            EffectModel::Send { to: there, message } => if there == to {
                seq![message]
            } else {
                seq![]
            },
            _ => seq![],
        }),
{
    assert(seq![effect].drop_last() =~= Seq::<EffectModel>::empty());
    assert(sent_to(seq![effect].drop_last(), to) =~= Seq::<OutboundModel>::empty());
    assert(seq![effect].last() == effect);
    assert(Seq::<OutboundModel>::empty().push(
        OutboundModel::Shutdown,
    ) =~= seq![OutboundModel::Shutdown]);
    match effect {
        EffectModel::Send { to: there, message } => {
            assert(Seq::<OutboundModel>::empty().push(message) =~= seq![message]);
        },
        _ => {},
    }
}

/// Who is sent a line that is for all but one.
pub proof fn lemma_sent_to_others(
    clients: Seq<ClientModel>,
    except: Address,
    line: Seq<char>,
    to: Address,
)
    requires
        addresses_unique(clients),
    ensures
        sent_to(line_to_others(clients, except, line), to) == if to != except && has_client(
            clients,
            to,
        ) {
            seq![OutboundModel::Line(line)]
        } else {
            seq![]
        },
    decreases clients.len(),
{
    reveal(Seq::filter);
    let effects = line_to_others(clients, except, line);
    if clients.len() == 0 {
        assert(effects =~= Seq::<EffectModel>::empty());
        assert(!has_client(clients, to));
    } else {
        let rest = clients.drop_last();
        let last = clients.last();
        let before = line_to_others(rest, except, line);
        assert forall|i: int, j: int| 0 <= i < j < rest.len() implies (#[trigger] rest[i]).address
            != (#[trigger] rest[j]).address by {
            assert(clients[i].address != clients[j].address);
        }
        lemma_sent_to_others(rest, except, line, to);
        assert(has_client(clients, to) == (has_client(rest, to) || last.address == to)) by {
            if has_client(rest, to) {
                let i = client_slot(rest, to);
                assert(clients[i].address == to);
            }
            if has_client(clients, to) {
                let i = client_slot(clients, to);
                if i < rest.len() {
                    assert(rest[i].address == to);
                }
            }
            assert(clients[clients.len() - 1] == last);
        }
        if last.address == to && has_client(rest, to) {
            let i = client_slot(rest, to);
            assert(clients[i].address != clients[clients.len() - 1].address);
        }
        if last.address != except {
            assert(effects =~= before.push(line_to(last.address, line)));
            assert(effects.drop_last() =~= before);
            if last.address == to {
                assert(sent_to(before, to) =~= Seq::<OutboundModel>::empty());
                assert(sent_to(effects, to) =~= seq![OutboundModel::Line(line)]);
            }
        } else {
            assert(effects =~= before);
        }
    }
}

/// Who is sent lines that are for one address.
pub proof fn lemma_lines_sent_to(to: Address, all: Seq<Seq<char>>, there: Address)
    ensures
        sent_to(lines_to(to, all), there) == if there == to {
            all.map_values(|line: Seq<char>| OutboundModel::Line(line))
        } else {
            seq![]
        },
    decreases all.len(),
{
    let effects = lines_to(to, all);
    let sent = all.map_values(|line: Seq<char>| OutboundModel::Line(line));
    if all.len() == 0 {
        assert(sent =~= Seq::<OutboundModel>::empty());
    } else {
        let rest = all.drop_last();
        lemma_lines_sent_to(to, rest, there);
        assert(effects.drop_last() =~= lines_to(to, rest));
        assert(rest.map_values(|line: Seq<char>| OutboundModel::Line(line)).push(
            OutboundModel::Line(all.last()),
        ) =~= sent);
    }
}

/// The server where nothing has changed but that it has heard a client, in
/// time, at `now`.
pub open spec fn heard(s: ServerModel, from: Address, now: u64) -> ServerModel {
    ServerModel {
        clients: put_client(
            s.clients,
            ClientModel {
                last_message_at: Some(now),
                rate_limit_violations: 0,
                ..s.client(from)
            },
        ),
        ..s
    }
}

// ---------------------------------------------------------------------------
// Messages

/// A message is sent once to each other client, under the nickname that the
/// server knows its sender by, whatever the line says; its sender is sent
/// nothing.
pub proof fn law_message_reaches_all_others(
    s: ServerModel,
    from: Address,
    line: Seq<char>,
    now: u64,
    to: Address,
)
    requires
        s.valid(),
        s.knows(from),
        !too_quick(s.client(from), now),
        command_of(line) == "MSG"@,
        trimmed(payload_of(line)).len() > 0,
    ensures
        sent_to(on_line(s, from, line, now).1, to) == if to != from && s.knows(to) {
            seq![
                OutboundModel::Line(
                    "MSG "@ + s.client(from).nickname + " "@ + trimmed(payload_of(line)),
                ),
            ]
        } else {
            seq![]
        },
{
    let client = s.client(from);
    lemma_own_nickname(s.clients, from);
    let fresh = ClientModel { last_message_at: Some(now), rate_limit_violations: 0, ..client };
    lemma_put_client(s.clients, fresh);
    let clients = put_client(s.clients, fresh);
    let text = trimmed(payload_of(line));
    let message = "MSG "@ + client.nickname + " "@ + text;
    let printed = EffectModel::Print(
        NoticeModel::Said { address: from, nickname: client.nickname, text },
    );
    assert(on_line(s, from, line, now).1 == seq![printed] + line_to_others(clients, from, message));
    lemma_sent_to_concat(seq![printed], line_to_others(clients, from, message), to);
    lemma_sent_to_one(printed, to);
    lemma_sent_to_others(clients, from, message, to);
    assert(sent_to(on_line(s, from, line, now).1, to) =~= sent_to(
        line_to_others(clients, from, message),
        to,
    ));
}

/// A message is the last one that is remembered.
pub proof fn law_message_is_remembered(s: ServerModel, from: Address, line: Seq<char>, now: u64)
    requires
        s.valid(),
        s.knows(from),
        !too_quick(s.client(from), now),
        command_of(line) == "MSG"@,
        trimmed(payload_of(line)).len() > 0,
    ensures
        on_line(s, from, line, now).0.history.last() == "MSG "@ + s.client(from).nickname + " "@
            + trimmed(payload_of(line)),
{
    let client = s.client(from);
    lemma_own_nickname(s.clients, from);
    let fresh = ClientModel { last_message_at: Some(now), rate_limit_violations: 0, ..client };
    lemma_put_client(s.clients, fresh);
}

/// A message without text is refused: its sender alone is told, and nothing
/// changes.
pub proof fn law_empty_message_is_refused(
    s: ServerModel,
    from: Address,
    line: Seq<char>,
    now: u64,
    to: Address,
)
    requires
        s.valid(),
        s.knows(from),
        !too_quick(s.client(from), now),
        command_of(line) == "MSG"@,
        trimmed(payload_of(line)).len() == 0,
    ensures
        sent_to(on_line(s, from, line, now).1, to) == if to == from {
            seq![OutboundModel::Line("ERR message cannot be empty"@)]
        } else {
            seq![]
        },
        on_line(s, from, line, now).0 == heard(s, from, now),
{
    lemma_sent_to_one(line_to(from, "ERR message cannot be empty"@), to);
}

/// The messages that are remembered after some more were said.
pub open spec fn remember_all(history: Seq<Seq<char>>, messages: Seq<Seq<char>>) -> Seq<Seq<char>>
    decreases messages.len(),
{
    if messages.len() == 0 {
        history
    } else {
        remember(remember_all(history, messages.drop_last()), messages.last())
    }
}

/// The messages that are remembered are the last ones that were said, as many
/// as the limit allows, in the order in which they were said.
pub proof fn law_history_is_the_last_messages(messages: Seq<Seq<char>>)
    ensures
        remember_all(seq![], messages) == (if messages.len() <= HISTORY_LIMIT {
            messages
        } else {
            messages.skip(messages.len() - HISTORY_LIMIT)
        }),
    decreases messages.len(),
{
    if messages.len() > 0 {
        let before = messages.drop_last();
        law_history_is_the_last_messages(before);
        let kept = remember_all(seq![], before);
        let longer = kept.push(messages.last());
        if before.len() < HISTORY_LIMIT {
            assert(longer =~= messages);
        } else if before.len() == HISTORY_LIMIT {
            assert(longer =~= messages);
            assert(longer.drop_first() =~= messages.skip(messages.len() - HISTORY_LIMIT));
        } else {
            assert(longer.drop_first() =~= messages.skip(messages.len() - HISTORY_LIMIT));
        }
    } else {
        assert(messages =~= Seq::<Seq<char>>::empty());
    }
}

/// What is said when the server is told something: a message, or nothing.
pub open spec fn said_on(s: ServerModel, event: EventModel, now: u64) -> Seq<Seq<char>> {
    match event {
        EventModel::LineReceived { address, line } => if s.knows(address) && !too_quick(
            s.client(address),
            now,
        ) && command_of(line) == "MSG"@ && trimmed(payload_of(line)).len() > 0 {
            seq!["MSG "@ + s.client(address).nickname + " "@ + trimmed(payload_of(line))]
        } else {
            seq![]
        },
        _ => seq![],
    }
}

/// What is said while the server is told one thing after the other.
pub open spec fn all_said(s: ServerModel, events: Seq<(EventModel, u64)>) -> Seq<Seq<char>>
    decreases events.len(),
{
    if events.len() == 0 {
        seq![]
    } else {
        all_said(s, events.drop_last()) + said_on(
            after_events(s, events.drop_last()),
            events.last().0,
            events.last().1,
        )
    }
}

/// The server remembers what was said, and nothing else.
pub proof fn law_server_remembers_what_was_said(s: ServerModel, events: Seq<(EventModel, u64)>)
    requires
        s.valid(),
    ensures
        after_events(s, events).valid(),
        after_events(s, events).history == remember_all(s.history, all_said(s, events)),
    decreases events.len(),
{
    if events.len() > 0 {
        let earlier = events.drop_last();
        law_server_remembers_what_was_said(s, earlier);
        let t = after_events(s, earlier);
        let event = events.last().0;
        let now = events.last().1;
        law_event_keeps_valid(t, event, now);
        let before = all_said(s, earlier);
        let new = said_on(t, event, now);
        if new.len() > 0 {
            assert(all_said(s, events).drop_last() =~= before);
            assert(all_said(s, events).last() == new[0]);
        } else {
            assert(all_said(s, events) =~= before);
        }
        match event {
            EventModel::LineReceived { address, line } => {
                if t.knows(address) {
                    lemma_put_client(
                        t.clients,
                        ClientModel {
                            last_message_at: Some(now),
                            rate_limit_violations: 0,
                            ..t.client(address)
                        },
                    );
                    lemma_own_nickname(t.clients, address);
                }
            },
            _ => {},
        }
    }
}

// ---------------------------------------------------------------------------
// Coming and going

/// A client that comes is told its nickname and then the last messages, no
/// more than the limit, the oldest first; each other client is told that it
/// came.
pub proof fn law_newcomer_is_welcomed(s: ServerModel, address: Address, now: u64, to: Address)
    requires
        s.valid(),
        !still_banned(s.banned, now).contains_key(address.ip),
    ensures
        on_connected(s, address, now).0.knows(address),
        on_connected(s, address, now).0.client(address) == newcomer(address),
        recent(s.history).len() == (if s.history.len() < HISTORY_ON_CONNECT {
            s.history.len() as int
        } else {
            HISTORY_ON_CONNECT as int
        }),
        recent(s.history).is_suffix_of(s.history),
        sent_to(on_connected(s, address, now).1, to) == if to == address {
            (seq!["YOU "@ + default_nickname(address.port)] + recent(s.history)).map_values(
                |line: Seq<char>| OutboundModel::Line(line),
            )
        } else if s.knows(to) {
            seq![
                OutboundModel::Line("SYS "@ + default_nickname(address.port) + " joined the chat"@),
            ]
        } else {
            seq![]
        },
{
    lemma_put_client(s.clients, newcomer(address));
    let nickname = default_nickname(address.port);
    let greeting = line_to(address, "YOU "@ + nickname);
    let joined = "SYS "@ + nickname + " joined the chat"@;
    let printed = EffectModel::Print(NoticeModel::Connected { address, nickname });
    let keep = EffectModel::Admit { address };
    let shown = recent(s.history);
    let a = seq![greeting];
    let b = lines_to(address, shown);
    let c = line_to_others(s.clients, address, joined);
    let d = seq![printed, keep];
    lemma_sent_to_one(greeting, to);
    lemma_lines_sent_to(address, shown, to);
    lemma_sent_to_others(s.clients, address, joined, to);
    assert(d =~= seq![printed] + seq![keep]);
    lemma_sent_to_concat(seq![printed], seq![keep], to);
    lemma_sent_to_one(printed, to);
    lemma_sent_to_one(keep, to);
    lemma_sent_to_concat(a, b, to);
    lemma_sent_to_concat(a + b, c, to);
    lemma_sent_to_concat(a + b + c, d, to);
    let lines = (seq!["YOU "@ + nickname] + shown).map_values(
        |line: Seq<char>| OutboundModel::Line(line),
    );
    if to == address {
        assert(lines =~= seq![OutboundModel::Line("YOU "@ + nickname)] + shown.map_values(
            |line: Seq<char>| OutboundModel::Line(line),
        ));
        assert(sent_to(on_connected(s, address, now).1, to) =~= lines);
    } else {
        assert(sent_to(on_connected(s, address, now).1, to) =~= sent_to(c, to));
    }
    assert(shown.is_suffix_of(s.history)) by {
        if s.history.len() <= HISTORY_ON_CONNECT {
            assert(s.history.skip(0) =~= s.history);
        }
        assert(s.history.subrange(
            s.history.len() - shown.len(),
            s.history.len() as int,
        ) =~= shown);
    }
}

/// A client that is gone is known no more, and each other client is told that
/// it left, and is as it was; so is all else.
pub proof fn law_leaving_is_announced(s: ServerModel, address: Address, to: Address)
    requires
        s.valid(),
        s.knows(address),
    ensures
        !on_disconnected(s, address).0.knows(address),
        to != address ==> on_disconnected(s, address).0.knows(to) == s.knows(to),
        to != address && s.knows(to) ==> on_disconnected(s, address).0.client(to) == s.client(to),
        on_disconnected(s, address).0 == (ServerModel {
            clients: on_disconnected(s, address).0.clients,
            ..s
        }),
        sent_to(on_disconnected(s, address).1, to) == if to != address && s.knows(to) {
            seq![OutboundModel::Line("SYS "@ + s.client(address).nickname + " left the chat"@)]
        } else {
            seq![]
        },
{
    lemma_drop_client(s.clients, address);
    let nickname = s.client(address).nickname;
    let clients = drop_client(s.clients, address);
    let left = "SYS "@ + nickname + " left the chat"@;
    let printed = EffectModel::Print(NoticeModel::Disconnected { address, nickname });
    let forget = EffectModel::Forget { address };
    let b = line_to_others(clients, address, left);
    lemma_sent_to_one(printed, to);
    lemma_sent_to_one(forget, to);
    lemma_sent_to_others(clients, address, left, to);
    lemma_sent_to_concat(seq![printed], b, to);
    lemma_sent_to_concat(seq![printed] + b, seq![forget], to);
    assert(sent_to(on_disconnected(s, address).1, to) =~= sent_to(b, to));
}

/// To be gone twice is to be gone once: the second time nothing changes, and
/// nothing is ordered.
pub proof fn law_second_leaving_does_nothing(s: ServerModel, address: Address)
    requires
        s.valid(),
    ensures
        on_disconnected(on_disconnected(s, address).0, address) == (
            on_disconnected(s, address).0,
            Seq::<EffectModel>::empty(),
        ),
{
    if s.knows(address) {
        law_leaving_is_announced(s, address, address);
    }
}

/// An address that is no client's is not heard and not answered: whatever is
/// told of it, but that it connects, changes nothing and orders nothing.
pub proof fn law_strangers_are_ignored(s: ServerModel, event: EventModel, now: u64)
    requires
        match event {
            EventModel::Connected { address } => false,
            EventModel::Disconnected { address } => !s.knows(address),
            EventModel::LineReceived { address, .. } => !s.knows(address),
            EventModel::FileUploaded { from, .. } => !s.knows(from),
            EventModel::ExecFinished { address, .. } => !s.knows(address),
            EventModel::LlmFinished { address, .. } => !s.knows(address),
        },
    ensures
        on_event(s, event, now) == (s, Seq::<EffectModel>::empty()),
{
}

// ---------------------------------------------------------------------------
// Quick lines and bans

/// A line that comes too soon is not heard: nothing is remembered and no file
/// changes. Unless its sender is banned for it, the sender keeps its nickname,
/// all others are as they were, and that the sender is told is all that is done.
pub proof fn law_quick_line_is_not_heard(
    s: ServerModel,
    from: Address,
    line: Seq<char>,
    now: u64,
    to: Address,
)
    requires
        s.valid(),
        s.knows(from),
        too_quick(s.client(from), now),
    ensures
        on_line(s, from, line, now).0.history == s.history,
        on_line(s, from, line, now).0.files == s.files,
        s.client(from).rate_limit_violations + 1 < MAX_RATE_LIMIT_VIOLATIONS ==> {
            &&& on_line(s, from, line, now).0.knows(from)
            &&& on_line(s, from, line, now).0.client(from).nickname == s.client(from).nickname
            &&& on_line(s, from, line, now).0.client(from).rate_limit_violations == s.client(
                from,
            ).rate_limit_violations + 1
            &&& on_line(s, from, line, now).0.banned == s.banned
            &&& to != from ==> on_line(s, from, line, now).0.knows(to) == s.knows(to)
            &&& to != from && s.knows(to) ==> on_line(s, from, line, now).0.client(to) == s.client(
                to,
            )
            &&& on_line(s, from, line, now).1 == seq![line_to(from, too_quick_line())]
            &&& sent_to(on_line(s, from, line, now).1, to) == if to == from {
                seq![OutboundModel::Line(too_quick_line())]
            } else {
                seq![]
            }
        },
{
    let client = s.client(from);
    lemma_own_nickname(s.clients, from);
    if client.rate_limit_violations + 1 < MAX_RATE_LIMIT_VIOLATIONS {
        lemma_put_client(
            s.clients,
            ClientModel {
                last_message_at: Some(now),
                rate_limit_violations: (client.rate_limit_violations + 1) as u32,
                ..client
            },
        );
        lemma_sent_to_one(line_to(from, too_quick_line()), to);
    }
}

/// A line that does not come too soon is forgiven all that came before.
pub proof fn law_patience_is_rewarded(s: ServerModel, from: Address, line: Seq<char>, now: u64)
    requires
        s.valid(),
        s.knows(from),
        !too_quick(s.client(from), now),
    ensures
        on_line(s, from, line, now).0.knows(from),
        on_line(s, from, line, now).0.client(from).rate_limit_violations == 0,
        on_line(s, from, line, now).0.client(from).last_message_at == Some(now),
        on_line(s, from, line, now).0.banned == s.banned,
{
    let client = s.client(from);
    lemma_own_nickname(s.clients, from);
    let fresh = ClientModel { last_message_at: Some(now), rate_limit_violations: 0, ..client };
    lemma_put_client(s.clients, fresh);
    let clients = put_client(s.clients, fresh);
    let requested = trimmed(payload_of(line));
    lemma_put_client(clients, ClientModel { nickname: requested, ..fresh });
}

/// The server after lines from one address, each at its time.
pub open spec fn after_lines(
    s: ServerModel,
    from: Address,
    lines: Seq<Seq<char>>,
    times: Seq<u64>,
) -> ServerModel
    decreases lines.len(),
{
    if lines.len() == 0 {
        s
    } else {
        on_line(
            after_lines(s, from, lines.drop_last(), times.drop_last()),
            from,
            lines.last(),
            times.last(),
        ).0
    }
}

/// Each line comes too soon after the one before, and the first one too soon
/// after `start`.
pub open spec fn all_quick(start: u64, times: Seq<u64>) -> bool {
    forall|i: int|
        0 <= i < times.len() ==> #[trigger] times[i] - (if i == 0 {
            start
        } else {
            times[i - 1]
        }) < MIN_MESSAGE_INTERVAL
}

/// A client that is too quick often, but not too often, stays.
proof fn lemma_quick_lines(
    s: ServerModel,
    from: Address,
    lines: Seq<Seq<char>>,
    times: Seq<u64>,
    start: u64,
)
    requires
        s.valid(),
        s.knows(from),
        s.client(from).rate_limit_violations == 0,
        s.client(from).last_message_at == Some(start),
        lines.len() == times.len(),
        lines.len() < MAX_RATE_LIMIT_VIOLATIONS,
        all_quick(start, times),
    ensures
        after_lines(s, from, lines, times).valid(),
        after_lines(s, from, lines, times).knows(from),
        after_lines(s, from, lines, times).client(from).rate_limit_violations == lines.len(),
        after_lines(s, from, lines, times).client(from).last_message_at == Some(
            if times.len() == 0 {
                start
            } else {
                times.last()
            },
        ),
        after_lines(s, from, lines, times).client(from).nickname == s.client(from).nickname,
        after_lines(s, from, lines, times).banned == s.banned,
        forall|a: Address|
            #![trigger after_lines(s, from, lines, times).knows(a)]
            after_lines(s, from, lines, times).knows(a) == s.knows(a),
    decreases lines.len(),
{
    if lines.len() > 0 {
        let earlier = times.drop_last();
        assert forall|i: int| 0 <= i < earlier.len() implies #[trigger] earlier[i] - (if i == 0 {
            start
        } else {
            earlier[i - 1]
        }) < MIN_MESSAGE_INTERVAL by {
            assert(times[i] == earlier[i]);
        }
        lemma_quick_lines(s, from, lines.drop_last(), earlier, start);
        let t = after_lines(s, from, lines.drop_last(), earlier);
        let now = times.last();
        assert(times[times.len() - 1] == now);
        assert(too_quick(t.client(from), now));
        crate::upkeep::law_line_keeps_valid(t, from, lines.last(), now);
        lemma_own_nickname(t.clients, from);
        lemma_put_client(
            t.clients,
            ClientModel {
                last_message_at: Some(now),
                rate_limit_violations: (t.client(from).rate_limit_violations + 1) as u32,
                ..t.client(from)
            },
        );
        let u = after_lines(s, from, lines, times);
        assert forall|a: Address| #![trigger u.knows(a)] u.knows(a) == s.knows(a) by {
            assert(t.knows(a) == s.knows(a));
            assert(has_client(u.clients, a) == has_client(t.clients, a));
        }
    }
}

/// A client whose lines come too soon ten times in a row is removed, and its
/// host is banned for ten minutes from the last of them; with fewer it stays,
/// and no host is banned for it.
pub proof fn law_tenth_quick_line_bans(
    s: ServerModel,
    from: Address,
    lines: Seq<Seq<char>>,
    times: Seq<u64>,
    start: u64,
)
    requires
        s.valid(),
        s.knows(from),
        s.client(from).rate_limit_violations == 0,
        s.client(from).last_message_at == Some(start),
        lines.len() == times.len(),
        lines.len() <= MAX_RATE_LIMIT_VIOLATIONS,
        all_quick(start, times),
    ensures
        lines.len() == MAX_RATE_LIMIT_VIOLATIONS ==> {
            &&& !after_lines(s, from, lines, times).knows(from)
            &&& after_lines(s, from, lines, times).banned.contains_key(from.ip)
            &&& after_lines(s, from, lines, times).banned[from.ip] == times.last() + BAN_DURATION
        },
        lines.len() < MAX_RATE_LIMIT_VIOLATIONS ==> {
            &&& after_lines(s, from, lines, times).knows(from)
            &&& after_lines(s, from, lines, times).banned == s.banned
        },
{
    if lines.len() < MAX_RATE_LIMIT_VIOLATIONS {
        lemma_quick_lines(s, from, lines, times, start);
    } else {
        let earlier = times.drop_last();
        assert forall|i: int| 0 <= i < earlier.len() implies #[trigger] earlier[i] - (if i == 0 {
            start
        } else {
            earlier[i - 1]
        }) < MIN_MESSAGE_INTERVAL by {
            assert(times[i] == earlier[i]);
        }
        lemma_quick_lines(s, from, lines.drop_last(), earlier, start);
        let t = after_lines(s, from, lines.drop_last(), earlier);
        let now = times[times.len() - 1];
        assert(too_quick(t.client(from), now));
        lemma_drop_client(t.clients, from);
    }
}

/// What is sent on the last of some lines from one address.
pub open spec fn sent_on_last(
    s: ServerModel,
    from: Address,
    lines: Seq<Seq<char>>,
    times: Seq<u64>,
    to: Address,
) -> Seq<OutboundModel> {
    let t = after_lines(s, from, lines.drop_last(), times.drop_last());
    sent_to(on_line(t, from, lines.last(), times.last()).1, to)
}

/// Each line that comes too soon is answered to its sender alone, and nothing
/// else is sent; but on the tenth in a row the sender is told of the ban, too,
/// and shut down, and each other client is told that it left.
pub proof fn law_quick_lines_are_answered(
    s: ServerModel,
    from: Address,
    lines: Seq<Seq<char>>,
    times: Seq<u64>,
    start: u64,
    to: Address,
)
    requires
        s.valid(),
        s.knows(from),
        s.client(from).rate_limit_violations == 0,
        s.client(from).last_message_at == Some(start),
        lines.len() == times.len(),
        0 < lines.len() <= MAX_RATE_LIMIT_VIOLATIONS,
        all_quick(start, times),
    ensures
        lines.len() < MAX_RATE_LIMIT_VIOLATIONS ==> sent_on_last(s, from, lines, times, to)
            == if to == from {
            seq![OutboundModel::Line(too_quick_line())]
        } else {
            seq![]
        },
        lines.len() == MAX_RATE_LIMIT_VIOLATIONS ==> sent_on_last(s, from, lines, times, to)
            == if to == from {
            seq![
                OutboundModel::Line(too_quick_line()),
                OutboundModel::Line(ban_line()),
                OutboundModel::Shutdown,
            ]
        } else if s.knows(to) {
            seq![OutboundModel::Line("SYS "@ + s.client(from).nickname + " left the chat"@)]
        } else {
            seq![]
        },
{
    let earlier = times.drop_last();
    assert forall|i: int| 0 <= i < earlier.len() implies #[trigger] earlier[i] - (if i == 0 {
        start
    } else {
        earlier[i - 1]
    }) < MIN_MESSAGE_INTERVAL by {
        assert(times[i] == earlier[i]);
    }
    lemma_quick_lines(s, from, lines.drop_last(), earlier, start);
    let t = after_lines(s, from, lines.drop_last(), earlier);
    let now = times[times.len() - 1];
    assert(too_quick(t.client(from), now));
    if lines.len() < MAX_RATE_LIMIT_VIOLATIONS {
        law_quick_line_is_not_heard(t, from, lines.last(), now, to);
    } else {
        law_ban_is_told(t, from, lines.last(), now, to);
        assert(t.knows(to) == s.knows(to));
    }
}

/// A client that is banned is told why, and that is the last that it is sent;
/// each other client is told that it left.
pub proof fn law_ban_is_told(
    s: ServerModel,
    from: Address,
    line: Seq<char>,
    now: u64,
    to: Address,
)
    requires
        s.valid(),
        s.knows(from),
        too_quick(s.client(from), now),
        s.client(from).rate_limit_violations + 1 >= MAX_RATE_LIMIT_VIOLATIONS,
    ensures
        sent_to(on_line(s, from, line, now).1, to) == if to == from {
            seq![
                OutboundModel::Line(too_quick_line()),
                OutboundModel::Line(ban_line()),
                OutboundModel::Shutdown,
            ]
        } else if s.knows(to) {
            seq![OutboundModel::Line("SYS "@ + s.client(from).nickname + " left the chat"@)]
        } else {
            seq![]
        },
{
    let banned = s.banned.insert(from.ip, (now + BAN_DURATION) as u128);
    let t = ServerModel { banned, ..s };
    law_leaving_is_announced(t, from, to);
    let a = line_to(from, too_quick_line());
    let b = line_to(from, ban_line());
    let c = EffectModel::Send { to: from, message: OutboundModel::Shutdown };
    assert(seq![a, b, c] =~= seq![a] + seq![b] + seq![c]);
    lemma_sent_to_one(a, to);
    lemma_sent_to_one(b, to);
    lemma_sent_to_one(c, to);
    lemma_sent_to_concat(seq![a], seq![b], to);
    lemma_sent_to_concat(seq![a] + seq![b], seq![c], to);
    lemma_sent_to_concat(seq![a, b, c], on_disconnected(t, from).1, to);
    let sent = sent_to(on_line(s, from, line, now).1, to);
    if to == from {
        assert(sent =~= seq![
            OutboundModel::Line(too_quick_line()),
            OutboundModel::Line(ban_line()),
            OutboundModel::Shutdown,
        ]);
    } else {
        assert(sent =~= sent_to(on_disconnected(t, from).1, to));
    }
}

/// A connection from a host that is banned does not become a client before its
/// time has come: it is told how long to wait, and shut down; nobody else
/// hears of it.
pub proof fn law_banned_host_is_refused(s: ServerModel, address: Address, now: u64, to: Address)
    requires
        s.valid(),
        s.banned.contains_key(address.ip),
        now < s.banned[address.ip],
    ensures
        on_connected(s, address, now).0.clients == s.clients,
        on_connected(s, address, now).0.banned[address.ip] == s.banned[address.ip],
        sent_to(on_connected(s, address, now).1, to) == if to == address {
            seq![
                OutboundModel::Line(banned_line((s.banned[address.ip] - now) as nat)),
                OutboundModel::Shutdown,
            ]
        } else {
            seq![]
        },
{
    let banned = still_banned(s.banned, now);
    assert(banned.contains_key(address.ip));
    let a = line_to(address, banned_line((s.banned[address.ip] - now) as nat));
    let b = EffectModel::Send { to: address, message: OutboundModel::Shutdown };
    assert(seq![a, b] =~= seq![a] + seq![b]);
    lemma_sent_to_one(a, to);
    lemma_sent_to_one(b, to);
    lemma_sent_to_concat(seq![a], seq![b], to);
    if to == address {
        assert(sent_to(seq![a, b], to) =~= seq![
            OutboundModel::Line(banned_line((s.banned[address.ip] - now) as nat)),
            OutboundModel::Shutdown,
        ]);
    } else {
        assert(sent_to(seq![a, b], to) =~= Seq::<OutboundModel>::empty());
    }
}

/// When its time has come, a host is banned no more.
pub proof fn law_ban_ends(s: ServerModel, address: Address, now: u64)
    requires
        s.valid(),
        s.banned.contains_key(address.ip) ==> s.banned[address.ip] <= now,
    ensures
        on_connected(s, address, now).0.knows(address),
        !on_connected(s, address, now).0.banned.contains_key(address.ip),
{
    lemma_put_client(s.clients, newcomer(address));
}

// ---------------------------------------------------------------------------
// Nicknames

/// Two clients never have the same nickname, in whatever case, if one of them
/// asked for it.
pub proof fn law_chosen_nicknames_are_unique(s: ServerModel, a: Address, b: Address)
    requires
        s.valid(),
        s.knows(a),
        s.knows(b),
        a != b,
        nickname_problem(s.client(a).nickname) is None,
    ensures
        !same_ignoring_case(s.client(a).nickname, s.client(b).nickname),
{
    let i = client_slot(s.clients, a);
    let j = client_slot(s.clients, b);
    assert(s.clients[i].address == a && s.clients[j].address == b);
}

/// A nickname that another client has, in whatever case, or that is not
/// proper, is refused: the one who asked is told why, and nothing changes.
pub proof fn law_nickname_is_refused(
    s: ServerModel,
    from: Address,
    line: Seq<char>,
    now: u64,
    to: Address,
)
    requires
        s.valid(),
        s.knows(from),
        !too_quick(s.client(from), now),
        command_of(line) == "NICK"@,
        nickname_refusal(s.clients, from, trimmed(payload_of(line))) is Some,
    ensures
        on_line(s, from, line, now).0 == heard(s, from, now),
        heard(s, from, now).client(from).nickname == s.client(from).nickname,
        sent_to(on_line(s, from, line, now).1, to) == if to == from {
            seq![
                OutboundModel::Line(
                    "ERR "@ + nickname_refusal(s.clients, from, trimmed(payload_of(line)))->0,
                ),
            ]
        } else {
            seq![]
        },
{
    lemma_command_words();
    let client = s.client(from);
    lemma_own_nickname(s.clients, from);
    let fresh = ClientModel { last_message_at: Some(now), rate_limit_violations: 0, ..client };
    lemma_put_client(s.clients, fresh);
    let clients = put_client(s.clients, fresh);
    let requested = trimmed(payload_of(line));
    lemma_taken_after_put(s.clients, fresh, requested);
    let reason = nickname_refusal(s.clients, from, requested)->0;
    lemma_sent_to_one(line_to(from, "ERR "@ + reason), to);
}

/// A nickname that is not refused is the client's from then on: it is told so,
/// and each other client is told the old one and the new one.
pub proof fn law_nickname_is_changed(
    s: ServerModel,
    from: Address,
    line: Seq<char>,
    now: u64,
    to: Address,
)
    requires
        s.valid(),
        s.knows(from),
        !too_quick(s.client(from), now),
        command_of(line) == "NICK"@,
        nickname_refusal(s.clients, from, trimmed(payload_of(line))) is None,
    ensures
        on_line(s, from, line, now).0.knows(from),
        on_line(s, from, line, now).0.client(from).nickname == trimmed(payload_of(line)),
        sent_to(on_line(s, from, line, now).1, to) == if to == from {
            seq![OutboundModel::Line("YOU "@ + trimmed(payload_of(line)))]
        } else if s.knows(to) {
            seq![
                OutboundModel::Line(
                    "NICK "@ + s.client(from).nickname + " "@ + trimmed(payload_of(line)),
                ),
            ]
        } else {
            seq![]
        },
{
    lemma_command_words();
    let client = s.client(from);
    lemma_own_nickname(s.clients, from);
    let fresh = ClientModel { last_message_at: Some(now), rate_limit_violations: 0, ..client };
    lemma_put_client(s.clients, fresh);
    let clients = put_client(s.clients, fresh);
    let requested = trimmed(payload_of(line));
    lemma_taken_after_put(s.clients, fresh, requested);
    let renamed = ClientModel { nickname: requested, ..fresh };
    lemma_put_client(clients, renamed);
    let after = put_client(clients, renamed);
    let told = line_to(from, "YOU "@ + requested);
    let spread = "NICK "@ + client.nickname + " "@ + requested;
    lemma_sent_to_one(told, to);
    lemma_sent_to_others(after, from, spread, to);
    lemma_sent_to_concat(seq![told], line_to_others(after, from, spread), to);
    assert(on_line(s, from, line, now).1 == seq![told] + line_to_others(after, from, spread));
    if to == from {
        assert(sent_to(on_line(s, from, line, now).1, to) =~= sent_to(seq![told], to));
    } else {
        assert(sent_to(on_line(s, from, line, now).1, to) =~= sent_to(
            line_to_others(after, from, spread),
            to,
        ));
    }
}

/// The words that lines begin with are different.
proof fn lemma_command_words()
    ensures
        "MSG"@ != "NICK"@,
{
    reveal_strlit("MSG");
    reveal_strlit("NICK");
    assert("MSG"@.len() != "NICK"@.len());
}

/// Whether a nickname is taken does not depend on when the one who asks spoke.
pub proof fn lemma_taken_after_put(
    clients: Seq<ClientModel>,
    client: ClientModel,
    requested: Seq<char>,
)
    requires
        addresses_unique(clients),
        has_client(clients, client.address),
    ensures
        nickname_taken(put_client(clients, client), client.address, requested) == nickname_taken(
            clients,
            client.address,
            requested,
        ),
{
    let after = put_client(clients, client);
    let a = client.address;
    let at = client_slot(clients, a);
    if nickname_taken(clients, a, requested) {
        let i = choose|i: int|
            0 <= i < clients.len() && (#[trigger] clients[i]).address != a && same_ignoring_case(
                clients[i].nickname,
                requested,
            );
        assert(after[i] == clients[i]);
    }
    if nickname_taken(after, a, requested) {
        let i = choose|i: int|
            0 <= i < after.len() && (#[trigger] after[i]).address != a && same_ignoring_case(
                after[i].nickname,
                requested,
            );
        assert(after[i] == clients[i]);
    }
}

// ---------------------------------------------------------------------------
// Other requests

/// Whatever else a client asks for is between it and the server: nobody else
/// is sent anything, and nothing changes.
pub proof fn law_other_requests_are_private(
    s: ServerModel,
    from: Address,
    line: Seq<char>,
    now: u64,
    to: Address,
)
    requires
        s.valid(),
        s.knows(from),
        !too_quick(s.client(from), now),
        command_of(line) != "MSG"@,
        command_of(line) != "NICK"@,
        to != from,
    ensures
        sent_to(on_line(s, from, line, now).1, to) == Seq::<OutboundModel>::empty(),
        on_line(s, from, line, now).0 == heard(s, from, now),
        heard(s, from, now).client(from).nickname == s.client(from).nickname,
{
    let client = s.client(from);
    lemma_own_nickname(s.clients, from);
    let fresh = ClientModel { last_message_at: Some(now), rate_limit_violations: 0, ..client };
    lemma_put_client(s.clients, fresh);
    let effects = on_line(s, from, line, now).1;
    assert(effects.len() == 1);
    assert(effects =~= seq![effects[0]]);
    lemma_sent_to_one(effects[0], to);
}

/// A line that begins with none of the words of the protocol is answered so.
pub proof fn law_unknown_command_is_answered(
    s: ServerModel,
    from: Address,
    line: Seq<char>,
    now: u64,
)
    requires
        s.valid(),
        s.knows(from),
        !too_quick(s.client(from), now),
        command_of(line) != "MSG"@,
        command_of(line) != "NICK"@,
        command_of(line) != "GET"@,
        command_of(line) != "LS"@,
        command_of(line) != "LLM"@,
        command_of(line) != "EXEC"@,
    ensures
        on_line(s, from, line, now).1 == seq![line_to(from, "ERR unknown protocol command"@)],
{
}

// ---------------------------------------------------------------------------
// Files

/// A file that is there stays there, with its size, whatever happens: no
/// upload takes its place.
pub proof fn law_files_are_kept(s: ServerModel, event: EventModel, now: u64, name: Seq<char>)
    requires
        s.valid(),
        has_file(s.files, name),
    ensures
        has_file(on_event(s, event, now).0.files, name),
        file_size(on_event(s, event, now).0.files, name) == file_size(s.files, name),
{
    let after = on_event(s, event, now).0.files;
    match event {
        EventModel::FileUploaded { from, name: sent, size, moved } => {
            let file = FileModel { name: sent, size };
            if after != s.files {
                assert(after == put_file(s.files, file));
                assert(!has_file(s.files, sent));
                lemma_put_file(s.files, file);
                let i = file_slot(s.files, name);
                assert(after[i] == s.files[i]);
                lemma_file_slot(after, i);
                lemma_file_slot(s.files, i);
            }
        },
        _ => {},
    }
}

/// A file that was stored can be asked for, by the name under which it was
/// stored, and comes with the size with which it was sent.
pub proof fn law_stored_file_is_found(
    s: ServerModel,
    from: Address,
    sent: Seq<char>,
    name: Seq<char>,
    size: u64,
    reader: Address,
)
    requires
        s.valid(),
        s.knows(from),
        safe_filename(sent) == Some(name),
        !has_file(s.files, name),
    ensures
        on_get(on_upload(s, from, name, size, Ok(())).0, reader, name) == seq![
            EffectModel::Send { to: reader, message: OutboundModel::File { name, size } },
        ],
{
    lemma_put_file(s.files, FileModel { name, size });
    crate::names::law_stored_name_is_stable(sent, name);
}

/// A file of a name that is there already is refused: its sender is told, and
/// nothing changes.
pub proof fn law_second_upload_is_refused(
    s: ServerModel,
    from: Address,
    name: Seq<char>,
    size: u64,
    moved: Result<(), Seq<char>>,
)
    requires
        s.knows(from),
        has_file(s.files, name),
    ensures
        on_upload(s, from, name, size, moved) == (
            s,
            seq![line_to(from, "ERR file already exists"@)],
        ),
{
}

/// Each file is listed once, and the list is in order.
pub proof fn law_listing_is_complete(files: Seq<FileModel>)
    ensures
        sorted_texts(files.map_values(|file: FileModel| file_entry(file))).to_multiset()
            == files.map_values(|file: FileModel| file_entry(file)).to_multiset(),
        vstd::relations::sorted_by(
            sorted_texts(files.map_values(|file: FileModel| file_entry(file))),
            crate::order::text_order(),
        ),
{
    law_sorted_texts(files.map_values(|file: FileModel| file_entry(file)));
}

} // verus!
