//! What a client gets for what it sends, said of the lines themselves, the
//! times at which they come and what the server holds: one law for each thing
//! that can be asked for.

use vstd::prelude::*;
use crate::bans::Address;
#[allow(unused_imports)]
use crate::laws::{
    heard, law_message_reaches_all_others, law_newcomer_is_welcomed, law_nickname_is_changed,
    sent_to,
};
#[allow(unused_imports)]
use crate::model::{
    client_at, client_slot, drop_client, file_size, file_slot, has_client, has_file,
    lemma_client_slot, lemma_file_slot, lemma_put_file, nickname_taken, put_client, put_file,
    ClientModel, EffectModel, EventModel, FileModel, NoticeModel, OutboundModel, ServerModel,
};
#[allow(unused_imports)]
use crate::names::{default_nickname, law_nicknames_that_may_be_asked_for, letter_digit_or_dash};
#[allow(unused_imports)]
use crate::number::{decimal, law_number_is_read_back, lemma_decimal, parsed, signed_decimal};
#[allow(unused_imports)]
use crate::order::{law_sorted_texts, sorted_texts, text_order};
#[allow(unused_imports)]
use crate::rules::{
    command_of, file_entry, line_to, line_to_others, lines_to, listing, newcomer, nickname_refusal,
    on_connected, on_disconnected, on_event, on_exec_finished, on_line, on_llm_finished, on_request,
    on_upload, payload_of, recent, remember, too_quick, upload_plan,
};
#[allow(unused_imports)]
use crate::server::{listed_file, listed_files, DirEntry};
#[allow(unused_imports)]
use crate::text::{
    joined, law_lines_are_ended_by_line_feeds, law_text_is_split_at_the_first,
    law_text_is_split_at_the_last, lines, same_ignoring_case, split_at_last, trimmed,
};
#[allow(unused_imports)]
use crate::upkeep::{lemma_drop_client, lemma_own_nickname, lemma_put_client};

verus! {

// ---------------------------------------------------------------------------
// What is done besides sending

/// What is ordered besides sending, in order.
pub open spec fn done_by(effects: Seq<EffectModel>) -> Seq<EffectModel>
    decreases effects.len(),
{
    if effects.len() == 0 {
        seq![]
    } else {
        let before = done_by(effects.drop_last());
        match effects.last() {
            EffectModel::Send { .. } => before,
            other => before.push(other),
        }
    }
}

proof fn lemma_done_concat(a: Seq<EffectModel>, b: Seq<EffectModel>)
    ensures
        done_by(a + b) == done_by(a) + done_by(b),
    decreases b.len(),
{
    if b.len() == 0 {
        assert(a + b =~= a);
        assert(done_by(a) + done_by(b) =~= done_by(a));
    } else {
        assert((a + b).drop_last() =~= a + b.drop_last());
        assert((a + b).last() == b.last());
        lemma_done_concat(a, b.drop_last());
        assert(done_by(a + b) =~= done_by(a) + done_by(b));
    }
}

/// Nothing is done but to send.
proof fn lemma_only_sends(effects: Seq<EffectModel>)
    requires
        forall|i: int| 0 <= i < effects.len() ==> #[trigger] effects[i] is Send,
    ensures
        done_by(effects) == Seq::<EffectModel>::empty(),
    decreases effects.len(),
{
    if effects.len() > 0 {
        let front = effects.drop_last();
        assert forall|i: int| 0 <= i < front.len() implies #[trigger] front[i] is Send by {
            assert(front[i] == effects[i]);
        }
        lemma_only_sends(front);
        assert(effects[effects.len() - 1] is Send);
    }
}

/// One thing is done that is not to send.
proof fn lemma_one_done(effect: EffectModel)
    requires
        !(effect is Send),
    ensures
        done_by(seq![effect]) == seq![effect],
{
    assert(seq![effect].drop_last() =~= Seq::<EffectModel>::empty());
    assert(done_by(seq![effect].drop_last()) =~= Seq::<EffectModel>::empty());
    assert(seq![effect].last() == effect);
    assert(Seq::<EffectModel>::empty().push(effect) =~= seq![effect]);
}

// ---------------------------------------------------------------------------
// Lines and times

/// A line is a word and, behind the first space, all the rest; without a space
/// it is the word alone.
pub proof fn law_line_is_a_word_and_the_rest(word: Seq<char>, rest: Seq<char>)
    requires
        !word.contains(' '),
    ensures
        command_of(word + " "@ + rest) == word,
        payload_of(word + " "@ + rest) == rest,
        command_of(word) == word,
        payload_of(word) == Seq::<char>::empty(),
{
    reveal_strlit(" ");
    assert(" "@ =~= seq![' ']);
    law_text_is_split_at_the_first(word, ' ', rest);
}

/// The words that lines begin with hold no space, and no two are the same.
proof fn lemma_words()
    ensures
        !"MSG"@.contains(' '),
        !"NICK"@.contains(' '),
        !"GET"@.contains(' '),
        !"LS"@.contains(' '),
        !"LLM"@.contains(' '),
        !"EXEC"@.contains(' '),
        "MSG"@ != "NICK"@,
        "MSG"@ != "GET"@,
        "MSG"@ != "LS"@,
        "MSG"@ != "LLM"@,
        "MSG"@ != "EXEC"@,
        "NICK"@ != "GET"@,
        "NICK"@ != "LS"@,
        "NICK"@ != "LLM"@,
        "NICK"@ != "EXEC"@,
        "GET"@ != "LS"@,
        "GET"@ != "LLM"@,
        "GET"@ != "EXEC"@,
        "LS"@ != "LLM"@,
        "LS"@ != "EXEC"@,
        "LLM"@ != "EXEC"@,
{
    reveal_strlit("MSG");
    reveal_strlit("NICK");
    reveal_strlit("GET");
    reveal_strlit("LS");
    reveal_strlit("LLM");
    reveal_strlit("EXEC");
    assert("MSG"@.len() == 3 && "NICK"@.len() == 4 && "GET"@.len() == 3 && "LS"@.len() == 2
        && "LLM"@.len() == 3 && "EXEC"@.len() == 4);
    assert("MSG"@[0] == 'M' && "GET"@[0] == 'G' && "LLM"@[0] == 'L' && "NICK"@[0] == 'N'
        && "EXEC"@[0] == 'E');
}

/// A client is too quick if and only if less than a second, which is a billion
/// nanoseconds, has gone by since its line before; one that has sent none is
/// not.
pub proof fn law_too_quick_is_within_a_second(client: ClientModel, now: u64)
    ensures
        client.last_message_at is None ==> !too_quick(client, now),
        client.last_message_at matches Some(last) ==> (too_quick(client, now) <==> now < last
            + 1_000_000_000),
{
}

/// Whether a client may send a line: it is the first, or a second has gone by
/// since the one before.
pub open spec fn in_time(s: ServerModel, from: Address, now: u64) -> bool {
    &&& s.knows(from)
    &&& match s.client(from).last_message_at {
        Some(last) => now >= last + 1_000_000_000,
        None => true,
    }
}

/// Whether of a server nothing has changed but that it has heard a client: the
/// time of the client's last line is `now`, and all that was held against the
/// client is forgiven.
pub open spec fn same_but_heard(
    s: ServerModel,
    after: ServerModel,
    from: Address,
    now: u64,
) -> bool {
    &&& after.history == s.history
    &&& after.files == s.files
    &&& after.banned == s.banned
    &&& after.clients.len() == s.clients.len()
    &&& forall|a: Address| #[trigger] after.knows(a) == s.knows(a)
    &&& forall|a: Address|
        a != from && s.knows(a) ==> #[trigger] after.client(a) == s.client(a)
    &&& after.client(from) == (ClientModel {
        address: from,
        nickname: s.client(from).nickname,
        last_message_at: Some(now),
        rate_limit_violations: 0,
    })
}

proof fn lemma_heard(s: ServerModel, from: Address, now: u64)
    requires
        s.valid(),
        s.knows(from),
    ensures
        same_but_heard(s, heard(s, from, now), from, now),
        heard(s, from, now).clients == put_client(
            s.clients,
            ClientModel {
                last_message_at: Some(now),
                rate_limit_violations: 0,
                ..s.client(from)
            },
        ),
{
    let client = s.client(from);
    lemma_own_nickname(s.clients, from);
    let slot = client_slot(s.clients, from);
    assert(s.clients[slot].address == from);
    let fresh = ClientModel { last_message_at: Some(now), rate_limit_violations: 0, ..client };
    lemma_put_client(s.clients, fresh);
    let after = heard(s, from, now);
    assert forall|a: Address| #[trigger] after.knows(a) == s.knows(a) by {
        assert(has_client(after.clients, a) == has_client(s.clients, a));
    }
    assert forall|a: Address| a != from && s.knows(a) implies #[trigger] after.client(a)
        == s.client(a) by {
        assert(client_at(after.clients, a) == client_at(s.clients, a));
    }
}

// ---------------------------------------------------------------------------
// Messages

/// A message that comes in time is passed on: each other client is sent it
/// once, whole but for the white space at its ends, under the sender's
/// nickname; the sender is sent nothing. It is the last of the messages that
/// are remembered, behind those before it, of which the oldest goes where there
/// would be more than a thousand. Nothing else changes, and all else that is
/// done is to print it.
pub proof fn law_message_in_time_is_passed_on(
    s: ServerModel,
    from: Address,
    p: Seq<char>,
    now: u64,
    to: Address,
)
    requires
        s.valid(),
        in_time(s, from, now),
        trimmed(p).len() > 0,
    ensures
        ({
            let (after, effects) = on_line(s, from, "MSG"@ + " "@ + p, now);
            let nickname = s.client(from).nickname;
            let message = "MSG"@ + " "@ + nickname + " "@ + trimmed(p);
            &&& sent_to(effects, to) == if to != from && s.knows(to) {
                seq![OutboundModel::Line(message)]
            } else {
                seq![]
            }
            &&& done_by(effects) == seq![
                EffectModel::Print(NoticeModel::Said { address: from, nickname, text: trimmed(p) }),
            ]
            &&& after.history.len() == (if s.history.len() < 1000 {
                s.history.len() + 1
            } else {
                1000
            })
            &&& after.history.is_suffix_of(s.history.push(message))
            &&& same_but_heard(s, ServerModel { history: s.history, ..after }, from, now)
        }),
{
    lemma_words();
    let line = "MSG"@ + " "@ + p;
    law_line_is_a_word_and_the_rest("MSG"@, p);
    law_too_quick_is_within_a_second(s.client(from), now);
    law_message_reaches_all_others(s, from, line, now, to);
    lemma_heard(s, from, now);
    let (after, effects) = on_line(s, from, line, now);
    let nickname = s.client(from).nickname;
    reveal_strlit("MSG");
    reveal_strlit("MSG ");
    reveal_strlit(" ");
    assert("MSG "@ =~= "MSG"@ + " "@);
    let message = "MSG "@ + nickname + " "@ + trimmed(p);
    assert(message =~= "MSG"@ + " "@ + nickname + " "@ + trimmed(p));
    let t = heard(s, from, now);
    assert(on_line(s, from, line, now) == on_request(t, from, line));
    let printed = EffectModel::Print(
        NoticeModel::Said { address: from, nickname, text: trimmed(p) },
    );
    let others = line_to_others(t.clients, from, message);
    assert(effects == seq![printed] + others);
    lemma_done_concat(seq![printed], others);
    lemma_one_done(printed);
    lemma_only_sends(others);
    assert(done_by(effects) =~= seq![printed]);
    let longer = s.history.push(message);
    assert(after.history == remember(s.history, message));
    assert(longer.subrange(longer.len() - after.history.len(), longer.len() as int)
        =~= after.history);
    assert(ServerModel { history: s.history, ..after } == t);
}

/// A message of white space alone that comes in time is refused: its sender is
/// told, nobody else is, nothing is remembered and nothing else is done.
pub proof fn law_blank_message_in_time_is_refused(
    s: ServerModel,
    from: Address,
    p: Seq<char>,
    now: u64,
)
    requires
        s.valid(),
        in_time(s, from, now),
        trimmed(p).len() == 0,
    ensures
        on_line(s, from, "MSG"@ + " "@ + p, now).1 == seq![
            line_to(from, "ERR message cannot be empty"@),
        ],
        same_but_heard(s, on_line(s, from, "MSG"@ + " "@ + p, now).0, from, now),
{
    lemma_words();
    law_line_is_a_word_and_the_rest("MSG"@, p);
    law_too_quick_is_within_a_second(s.client(from), now);
    lemma_heard(s, from, now);
}

// ---------------------------------------------------------------------------
// Nicknames

/// Whether another client than the one with an address has a nickname, in
/// whatever case.
pub open spec fn in_use(s: ServerModel, from: Address, nickname: Seq<char>) -> bool {
    exists|a: Address|
        a != from && #[trigger] s.knows(a) && same_ignoring_case(s.client(a).nickname, nickname)
}

proof fn lemma_in_use(s: ServerModel, from: Address, nickname: Seq<char>)
    requires
        s.valid(),
    ensures
        in_use(s, from, nickname) == nickname_taken(s.clients, from, nickname),
{
    if nickname_taken(s.clients, from, nickname) {
        let i = choose|i: int|
            0 <= i < s.clients.len() && (#[trigger] s.clients[i]).address != from
                && same_ignoring_case(s.clients[i].nickname, nickname);
        lemma_client_slot(s.clients, i);
        assert(s.knows(s.clients[i].address));
    }
    if in_use(s, from, nickname) {
        let a = choose|a: Address|
            a != from && #[trigger] s.knows(a) && same_ignoring_case(
                s.client(a).nickname,
                nickname,
            );
        let i = client_slot(s.clients, a);
        assert(s.clients[i].address == a);
    }
}

/// A nickname that is asked for in time is given if and only if it has one to
/// sixteen letters, digits, `_` or `-`, and no other client has it, in whatever
/// case. Then the client is told it, and each other client is told the old one
/// and the new one; the client has it from then on. Or else the client alone is
/// told what is wrong, and nothing changes.
#[verifier::rlimit(30)]
pub proof fn law_nickname_is_given_or_refused(
    s: ServerModel,
    from: Address,
    p: Seq<char>,
    now: u64,
    to: Address,
)
    requires
        s.valid(),
        in_time(s, from, now),
    ensures
        ({
            let (after, effects) = on_line(s, from, "NICK"@ + " "@ + p, now);
            let asked = trimmed(p);
            let proper = 1 <= asked.len() <= 16 && forall|i: int|
                0 <= i < asked.len() ==> letter_digit_or_dash(#[trigger] asked[i]);
            if proper && !in_use(s, from, asked) {
                &&& done_by(effects).len() == 0
                &&& sent_to(effects, to) == if to == from {
                    seq![OutboundModel::Line("YOU"@ + " "@ + asked)]
                } else if s.knows(to) {
                    seq![
                        OutboundModel::Line(
                            "NICK"@ + " "@ + s.client(from).nickname + " "@ + asked,
                        ),
                    ]
                } else {
                    seq![]
                }
                &&& after.knows(from)
                &&& after.client(from) == (ClientModel {
                    address: from,
                    nickname: asked,
                    last_message_at: Some(now),
                    rate_limit_violations: 0,
                })
                &&& to != from ==> after.knows(to) == s.knows(to)
                &&& to != from && s.knows(to) ==> after.client(to) == s.client(to)
                &&& after.history == s.history
                &&& after.files == s.files
                &&& after.banned == s.banned
            } else {
                &&& same_but_heard(s, after, from, now)
                &&& effects == seq![
                    line_to(
                        from,
                        "ERR"@ + " "@ + (if asked.len() == 0 {
                            "nickname cannot be empty"@
                        } else if asked.len() > 16 {
                            "nickname is too long (maximum: 16 characters)"@
                        } else if !proper {
                            "nickname may only contain letters, numbers, '_' and '-'"@
                        } else {
                            "nickname is already in use"@
                        }),
                    ),
                ]
            }
        }),
{
    lemma_words();
    let line = "NICK"@ + " "@ + p;
    law_line_is_a_word_and_the_rest("NICK"@, p);
    law_too_quick_is_within_a_second(s.client(from), now);
    lemma_heard(s, from, now);
    let t = heard(s, from, now);
    assert(on_line(s, from, line, now) == on_request(t, from, line));
    let asked = trimmed(p);
    law_nicknames_that_may_be_asked_for(asked);
    lemma_in_use(s, from, asked);
    let fresh = ClientModel {
        last_message_at: Some(now),
        rate_limit_violations: 0,
        ..s.client(from)
    };
    lemma_own_nickname(s.clients, from);
    let slot = client_slot(s.clients, from);
    assert(s.clients[slot].address == from);
    crate::laws::lemma_taken_after_put(s.clients, fresh, asked);
    reveal_strlit("NICK");
    reveal_strlit("NICK ");
    reveal_strlit("YOU");
    reveal_strlit("YOU ");
    reveal_strlit("ERR");
    reveal_strlit("ERR ");
    reveal_strlit(" ");
    assert("NICK "@ =~= "NICK"@ + " "@);
    assert("YOU "@ =~= "YOU"@ + " "@);
    assert("ERR "@ =~= "ERR"@ + " "@);
    let effects = on_line(s, from, line, now).1;
    if nickname_refusal(s.clients, from, asked) is None {
        law_nickname_is_changed(s, from, line, now, to);
        lemma_put_client(s.clients, fresh);
        let renamed = ClientModel { nickname: asked, ..fresh };
        lemma_put_client(t.clients, renamed);
        assert("NICK "@ + s.client(from).nickname + " "@ + asked =~= "NICK"@ + " "@ + s.client(
            from,
        ).nickname + " "@ + asked);
        lemma_only_sends(effects);
    } else {
        let reason = nickname_refusal(s.clients, from, asked)->0;
        assert("ERR "@ + reason =~= "ERR"@ + " "@ + reason);
    }
}

// ---------------------------------------------------------------------------
// The language model and commands

/// Who asks the language model in time has it asked the whole of the question,
/// but for the white space at its ends, and nothing else happens. Who asks
/// nothing is told how to ask.
pub proof fn law_model_is_asked_the_whole_question(
    s: ServerModel,
    from: Address,
    p: Seq<char>,
    now: u64,
)
    requires
        s.valid(),
        in_time(s, from, now),
    ensures
        on_line(s, from, "LLM"@ + " "@ + p, now).1 == seq![
            if trimmed(p).len() > 0 {
                EffectModel::AskModel { address: from, prompt: trimmed(p) }
            } else {
                line_to(from, "ERR usage: /llm <prompt>"@)
            },
        ],
        same_but_heard(s, on_line(s, from, "LLM"@ + " "@ + p, now).0, from, now),
{
    lemma_words();
    law_line_is_a_word_and_the_rest("LLM"@, p);
    law_too_quick_is_within_a_second(s.client(from), now);
    lemma_heard(s, from, now);
}

/// Who asks in time for a command has it run as it was written, white space and
/// all, and nothing else happens. Who names none is told so.
pub proof fn law_command_is_run_as_written(s: ServerModel, from: Address, p: Seq<char>, now: u64)
    requires
        s.valid(),
        in_time(s, from, now),
    ensures
        on_line(s, from, "EXEC"@ + " "@ + p, now).1 == seq![
            if p.len() > 0 {
                EffectModel::RunCommand { address: from, command: p }
            } else {
                line_to(from, "ERR empty command"@)
            },
        ],
        same_but_heard(s, on_line(s, from, "EXEC"@ + " "@ + p, now).0, from, now),
{
    lemma_words();
    law_line_is_a_word_and_the_rest("EXEC"@, p);
    law_too_quick_is_within_a_second(s.client(from), now);
    lemma_heard(s, from, now);
}

/// A word without anything behind it is a request, too, of nothing; and a line
/// that begins with a word that is none of the protocol's is answered so.
pub proof fn law_bare_words_are_answered(s: ServerModel, from: Address, word: Seq<char>, now: u64)
    requires
        s.valid(),
        in_time(s, from, now),
        !word.contains(' '),
    ensures
        word == "MSG"@ ==> on_line(s, from, word, now).1 == seq![
            line_to(from, "ERR message cannot be empty"@),
        ],
        word == "NICK"@ ==> on_line(s, from, word, now).1 == seq![
            line_to(from, "ERR "@ + "nickname cannot be empty"@),
        ],
        word == "LLM"@ ==> on_line(s, from, word, now).1 == seq![
            line_to(from, "ERR usage: /llm <prompt>"@),
        ],
        word == "EXEC"@ ==> on_line(s, from, word, now).1 == seq![
            line_to(from, "ERR empty command"@),
        ],
        word == "GET"@ && !has_file(s.files, Seq::empty()) ==> on_line(s, from, word, now).1
            == seq![line_to(from, "ERR file not found"@)],
        word != "MSG"@ && word != "NICK"@ && word != "GET"@ && word != "LS"@ && word != "LLM"@
            && word != "EXEC"@ ==> on_line(s, from, word, now).1 == seq![
            line_to(from, "ERR unknown protocol command"@),
        ],
{
    lemma_words();
    law_line_is_a_word_and_the_rest(word, Seq::empty());
    law_too_quick_is_within_a_second(s.client(from), now);
    lemma_heard(s, from, now);
    assert(trimmed(Seq::<char>::empty()) =~= Seq::<char>::empty());
}

/// A line that begins with a word that is none of the protocol's, whatever
/// stands behind it, is answered so, and nothing changes.
pub proof fn law_other_words_are_answered(
    s: ServerModel,
    from: Address,
    word: Seq<char>,
    p: Seq<char>,
    now: u64,
)
    requires
        s.valid(),
        in_time(s, from, now),
        !word.contains(' '),
        word != "MSG"@,
        word != "NICK"@,
        word != "GET"@,
        word != "LS"@,
        word != "LLM"@,
        word != "EXEC"@,
    ensures
        on_line(s, from, word + " "@ + p, now).1 == seq![
            line_to(from, "ERR unknown protocol command"@),
        ],
        same_but_heard(s, on_line(s, from, word + " "@ + p, now).0, from, now),
{
    law_line_is_a_word_and_the_rest(word, p);
    law_too_quick_is_within_a_second(s.client(from), now);
    lemma_heard(s, from, now);
}

// ---------------------------------------------------------------------------
// Files

/// Who asks in time for a file that is there is sent it, under its name and
/// with its size; who asks for another is told that it is not there. Nobody
/// else is sent anything, and nothing changes.
pub proof fn law_file_that_is_there_is_sent(
    s: ServerModel,
    from: Address,
    p: Seq<char>,
    now: u64,
    i: int,
)
    requires
        s.valid(),
        in_time(s, from, now),
    ensures
        same_but_heard(s, on_line(s, from, "GET"@ + " "@ + p, now).0, from, now),
        0 <= i < s.files.len() && s.files[i].name == trimmed(p) ==> on_line(
            s,
            from,
            "GET"@ + " "@ + p,
            now,
        ).1 == seq![
            EffectModel::Send {
                to: from,
                message: OutboundModel::File { name: s.files[i].name, size: s.files[i].size },
            },
        ],
        (forall|k: int| 0 <= k < s.files.len() ==> (#[trigger] s.files[k]).name != trimmed(p))
            ==> on_line(s, from, "GET"@ + " "@ + p, now).1 == seq![
            line_to(from, "ERR file not found"@),
        ],
{
    lemma_words();
    law_line_is_a_word_and_the_rest("GET"@, p);
    law_too_quick_is_within_a_second(s.client(from), now);
    lemma_heard(s, from, now);
    if 0 <= i < s.files.len() && s.files[i].name == trimmed(p) {
        lemma_file_slot(s.files, i);
        assert(has_file(s.files, trimmed(p)));
    }
}

/// A file is listed with its name and its size in full: the size is read back
/// from what stands behind the last colon, and the name is what stands before.
pub proof fn law_entry_is_the_name_and_the_size(file: FileModel)
    ensures
        split_at_last(file_entry(file), ':') matches Some((name, size)) && name == file.name
            && parsed(size) == Some(file.size),
{
    reveal_strlit(":");
    assert(":"@ =~= seq![':']);
    let digits = decimal(file.size as nat);
    lemma_decimal(file.size as nat);
    assert(!digits.contains(':')) by {
        if digits.contains(':') {
            let k = choose|k: int| 0 <= k < digits.len() && digits[k] == ':';
            assert('0' <= digits[k] <= '9');
        }
    }
    law_text_is_split_at_the_last(file.name, ':', digits);
    law_number_is_read_back(file.size);
}

/// Files that differ in name or in size are listed differently.
pub proof fn law_entries_differ(a: FileModel, b: FileModel)
    requires
        a != b,
    ensures
        file_entry(a) != file_entry(b),
{
    law_entry_is_the_name_and_the_size(a);
    law_entry_is_the_name_and_the_size(b);
}

/// Who asks in time for the files is sent one line: the entries of all files,
/// each with its name, a colon and its size, sorted, with commas between.
/// Nobody else is sent anything, and nothing changes.
pub proof fn law_all_files_are_listed(s: ServerModel, from: Address, line: Seq<char>, now: u64)
    requires
        s.valid(),
        in_time(s, from, now),
        command_of(line) == "LS"@,
    ensures
        same_but_heard(s, on_line(s, from, line, now).0, from, now),
        exists|entries: Seq<Seq<char>>| #[trigger] is_listing_of(entries, s.files)
            && on_line(s, from, line, now).1 == seq![
            line_to(from, "FILES"@ + " "@ + joined(entries, ","@)),
        ],
{
    lemma_words();
    law_too_quick_is_within_a_second(s.client(from), now);
    lemma_heard(s, from, now);
    let all = s.files.map_values(|file: FileModel| file_entry(file));
    let entries = sorted_texts(all);
    law_sorted_texts(all);
    assert(all =~= s.files.map_values(
        |file: FileModel| file.name + ":"@ + decimal(file.size as nat),
    ));
    assert(is_listing_of(entries, s.files));
    reveal_strlit("FILES");
    reveal_strlit("FILES ");
    reveal_strlit(" ");
    assert("FILES "@ =~= "FILES"@ + " "@);
    assert(listing(s.files) == "FILES"@ + " "@ + joined(entries, ","@));
}

/// Whether texts are the names of files, each with a colon and the size behind
/// it, each file once, in order.
pub open spec fn is_listing_of(entries: Seq<Seq<char>>, files: Seq<FileModel>) -> bool {
    &&& entries.to_multiset() == files.map_values(
        |file: FileModel| file.name + ":"@ + decimal(file.size as nat),
    ).to_multiset()
    &&& vstd::relations::sorted_by(entries, text_order())
}

/// A file that was received is stored if and only if its sender is still there,
/// there is no file of its name, and it could be moved: then it is behind all
/// others, with the size that was sent, its sender is told, and each other
/// client is told who sent what and how much. If its sender is gone, nothing
/// happens; or else the sender alone is told what went wrong, and nothing
/// changes.
pub proof fn law_upload_is_stored_or_refused(
    s: ServerModel,
    from: Address,
    name: Seq<char>,
    size: u64,
    moved: Result<(), Seq<char>>,
    to: Address,
)
    requires
        s.valid(),
    ensures
        ({
            let (after, effects) = on_upload(s, from, name, size, moved);
            let exists_already = exists|i: int|
                0 <= i < s.files.len() && (#[trigger] s.files[i]).name == name;
            &&& (upload_plan(s, from, name) is Discard <==> !s.knows(from))
            &&& (upload_plan(s, from, name) is Store <==> s.knows(from) && !exists_already)
            &&& done_by(effects).len() == 0
            &&& if !s.knows(from) {
                after == s && effects.len() == 0
            } else if exists_already {
                after == s && effects == seq![line_to(from, "ERR file already exists"@)]
            } else {
                match moved {
                    Err(error) => after == s && effects == seq![
                        line_to(from, "ERR could not store file: "@ + error),
                    ],
                    Ok(()) => {
                        &&& after == (ServerModel {
                            files: s.files.push(FileModel { name, size }),
                            ..s
                        })
                        &&& sent_to(effects, to) == if to == from {
                            seq![OutboundModel::Line("OK"@ + " "@ + name)]
                        } else if s.knows(to) {
                            seq![
                                OutboundModel::Line(
                                    "SYS"@ + " "@ + s.client(from).nickname + " uploaded "@ + name
                                        + " ("@ + decimal(size as nat) + " bytes)"@,
                                ),
                            ]
                        } else {
                            seq![]
                        }
                    },
                }
            }
        }),
{
    let (after, effects) = on_upload(s, from, name, size, moved);
    lemma_only_sends(effects);
    if upload_plan(s, from, name) is Store && moved is Ok {
        crate::runs::law_stored_file_is_confirmed(s, from, name, size, to);
        reveal_strlit("OK");
        reveal_strlit("OK ");
        reveal_strlit("SYS");
        reveal_strlit("SYS ");
        reveal_strlit(" ");
        assert("OK "@ =~= "OK"@ + " "@);
        assert("SYS "@ =~= "SYS"@ + " "@);
        assert("OK "@ + name =~= "OK"@ + " "@ + name);
        assert(after.files =~= s.files.push(FileModel { name, size }));
    }
}

/// Whether an entry of the directory is a file of a name that is to be listed:
/// it is a file, its name is text and does not end like that of an upload that
/// is not complete, and its size is known.
pub open spec fn is_file_named(entry: DirEntry, name: Seq<char>) -> bool {
    &&& entry.is_file
    &&& entry.size is Some
    &&& entry.name matches Some(text) && text@ == name
    &&& !(name.len() >= 5 && name.skip(name.len() - 5) == seq!['.', 'p', 'a', 'r', 't'])
}

/// A file that is put among others is there with its size, and the others are
/// as they were.
proof fn lemma_one_more_file(files: Seq<FileModel>, file: FileModel, name: Seq<char>)
    requires
        crate::model::files_unique(files),
    ensures
        has_file(put_file(files, file), name) == (file.name == name || has_file(files, name)),
        file.name == name ==> file_size(put_file(files, file), name) == file.size,
        file.name != name && has_file(files, name) ==> file_size(put_file(files, file), name)
            == file_size(files, name),
{
    let all = put_file(files, file);
    lemma_put_file(files, file);
    if file.name != name {
        if has_file(files, name) {
            let k = file_slot(files, name);
            assert(all[k] == files[k]);
            lemma_file_slot(files, k);
            lemma_file_slot(all, k);
        }
        if has_file(all, name) {
            let k = file_slot(all, name);
            assert(files[k].name == name);
        }
    }
}

/// The file that an entry is, said of its name.
proof fn lemma_entry(entry: DirEntry, name: Seq<char>)
    ensures
        is_file_named(entry, name) <==> (listed_file(entry) matches Some(file) && file.name
            == name),
        is_file_named(entry, name) ==> listed_file(entry)->0.size == entry.size->0,
{
    crate::names::law_names_of_unfinished_uploads(name, 0);
}

/// The files that the server starts with are those in its directory: each entry
/// that is a file with a name and a size, and nothing else.
pub proof fn law_server_starts_with_the_files_in_its_directory(
    entries: Seq<DirEntry>,
    name: Seq<char>,
)
    ensures
        has_file(listed_files(entries), name) <==> exists|i: int|
            0 <= i < entries.len() && is_file_named(#[trigger] entries[i], name),
    decreases entries.len(),
{
    if entries.len() > 0 {
        let front = entries.drop_last();
        let last = entries[entries.len() - 1];
        law_server_starts_with_the_files_in_its_directory(front, name);
        crate::server::lemma_listed_files_unique(front);
        lemma_entry(last, name);
        if let Some(file) = listed_file(last) {
            lemma_one_more_file(listed_files(front), file, name);
        }
        if has_file(listed_files(front), name) {
            let i = choose|i: int| 0 <= i < front.len() && is_file_named(#[trigger] front[i], name);
            assert(entries[i] == front[i]);
        }
        if exists|i: int| 0 <= i < entries.len() && is_file_named(#[trigger] entries[i], name) {
            let i = choose|i: int|
                0 <= i < entries.len() && is_file_named(#[trigger] entries[i], name);
            if i < front.len() {
                assert(front[i] == entries[i]);
            }
        }
    }
}

/// A file that the server starts with has the size that its entry in the
/// directory has; where several entries have its name, that of the last.
pub proof fn law_files_start_with_their_sizes(entries: Seq<DirEntry>, name: Seq<char>, i: int)
    requires
        0 <= i < entries.len(),
        is_file_named(entries[i], name),
        forall|k: int| i < k < entries.len() ==> !is_file_named(#[trigger] entries[k], name),
    ensures
        has_file(listed_files(entries), name),
        file_size(listed_files(entries), name) == entries[i].size->0,
    decreases entries.len(),
{
    let front = entries.drop_last();
    let last = entries[entries.len() - 1];
    crate::server::lemma_listed_files_unique(front);
    lemma_entry(last, name);
    if i < front.len() {
        assert(front[i] == entries[i]);
        assert forall|k: int| i < k < front.len() implies !is_file_named(
            #[trigger] front[k],
            name,
        ) by {
            assert(front[k] == entries[k]);
        }
        law_files_start_with_their_sizes(front, name, i);
    }
    if let Some(file) = listed_file(last) {
        lemma_one_more_file(listed_files(front), file, name);
    }
}


// ---------------------------------------------------------------------------
// Coming and going

/// Whether a host is kept out: it is banned, and the time has not come.
pub open spec fn kept_out(s: ServerModel, address: Address, now: u64) -> bool {
    s.banned.contains_key(address.ip) && now < s.banned[address.ip]
}

/// A newcomer whose host is not kept out is let in, under `user#` and its port.
/// It is told so, and then shown the last ten messages, or all where there are
/// fewer, the oldest first; each other client is told that it came. It has sent
/// nothing yet, and nothing else changes but that bans go whose time has come.
#[verifier::rlimit(30)]
pub proof fn law_newcomer_is_let_in(s: ServerModel, address: Address, now: u64, to: Address)
    requires
        s.valid(),
        !kept_out(s, address, now),
    ensures
        ({
            let (after, effects) = on_connected(s, address, now);
            let nickname = "user#"@ + decimal(address.port as nat);
            let count = if s.history.len() < 10 {
                s.history.len() as int
            } else {
                10
            };
            let shown = s.history.skip(s.history.len() - count);
            &&& sent_to(effects, to) == if to == address {
                seq![OutboundModel::Line("YOU"@ + " "@ + nickname)] + shown.map_values(
                    |line: Seq<char>| OutboundModel::Line(line),
                )
            } else if s.knows(to) {
                seq![OutboundModel::Line("SYS"@ + " "@ + nickname + " joined the chat"@)]
            } else {
                seq![]
            }
            &&& done_by(effects) == seq![
                EffectModel::Print(NoticeModel::Connected { address, nickname }),
                EffectModel::Admit { address },
            ]
            &&& after.knows(address)
            &&& after.client(address) == (ClientModel {
                address,
                nickname,
                last_message_at: None,
                rate_limit_violations: 0,
            })
            &&& to != address ==> after.knows(to) == s.knows(to)
            &&& to != address && s.knows(to) ==> after.client(to) == s.client(to)
            &&& after.history == s.history
            &&& after.files == s.files
            &&& forall|ip: crate::bans::Ip|
                #[trigger] after.banned.contains_key(ip) <==> s.banned.contains_key(ip) && now
                    < s.banned[ip]
            &&& forall|ip: crate::bans::Ip|
                after.banned.contains_key(ip) ==> #[trigger] after.banned[ip] == s.banned[ip]
        }),
{
    let (after, effects) = on_connected(s, address, now);
    law_newcomer_is_welcomed(s, address, now, to);
    lemma_put_client(s.clients, newcomer(address));
    let nickname = default_nickname(address.port);
    reveal_strlit("YOU");
    reveal_strlit("YOU ");
    reveal_strlit("SYS");
    reveal_strlit("SYS ");
    reveal_strlit(" ");
    assert("YOU "@ =~= "YOU"@ + " "@);
    assert("SYS "@ =~= "SYS"@ + " "@);
    assert("YOU "@ + nickname =~= "YOU"@ + " "@ + nickname);
    let shown = recent(s.history);
    assert(s.history.skip(s.history.len() - shown.len()) =~= shown);
    let you = "YOU "@ + nickname;
    assert((seq![you] + shown).map_values(|line: Seq<char>| OutboundModel::Line(line)) =~= seq![
        OutboundModel::Line(you),
    ] + shown.map_values(|line: Seq<char>| OutboundModel::Line(line)));
    let sends = seq![line_to(address, you)] + lines_to(address, shown) + line_to_others(
        s.clients,
        address,
        "SYS "@ + nickname + " joined the chat"@,
    );
    let printed = EffectModel::Print(NoticeModel::Connected { address, nickname });
    let let_in = EffectModel::Admit { address };
    assert(effects =~= sends + seq![printed] + seq![let_in]);
    lemma_done_concat(sends + seq![printed], seq![let_in]);
    lemma_done_concat(sends, seq![printed]);
    lemma_only_sends(sends);
    lemma_one_done(printed);
    lemma_one_done(let_in);
    assert(done_by(effects) =~= seq![printed, let_in]);
}

/// A connection from a host that is kept out is told how many seconds to wait,
/// of which the last has begun, and is shut down. It does not become a client,
/// and nothing else is done.
pub proof fn law_host_is_kept_out(s: ServerModel, address: Address, now: u64, seconds: nat)
    requires
        s.valid(),
        kept_out(s, address, now),
        (seconds - 1) * 1_000_000_000 <= s.banned[address.ip] - now < seconds * 1_000_000_000,
    ensures
        on_connected(s, address, now).1 == seq![
            line_to(
                address,
                "ERR temporarily banned; try again in "@ + decimal(seconds) + " seconds"@,
            ),
            (EffectModel::Send { to: address, message: OutboundModel::Shutdown }),
        ],
        on_connected(s, address, now).0.clients == s.clients,
        on_connected(s, address, now).0.history == s.history,
        on_connected(s, address, now).0.files == s.files,
{
    let rest = (s.banned[address.ip] - now) as nat;
    assert(rest / 1_000_000_000 + 1 == seconds) by (nonlinear_arith)
        requires
            (seconds - 1) * 1_000_000_000 <= rest < seconds * 1_000_000_000,
    ;
}

/// When a client leaves, all that is done besides telling the others is to
/// print it and to forget it.
pub proof fn law_client_that_leaves_is_forgotten(s: ServerModel, address: Address)
    requires
        s.knows(address),
    ensures
        done_by(on_disconnected(s, address).1) == seq![
            EffectModel::Print(
                NoticeModel::Disconnected { address, nickname: s.client(address).nickname },
            ),
            EffectModel::Forget { address },
        ],
{
    let nickname = s.client(address).nickname;
    let printed = EffectModel::Print(NoticeModel::Disconnected { address, nickname });
    let forget = EffectModel::Forget { address };
    let others = line_to_others(
        drop_client(s.clients, address),
        address,
        "SYS "@ + nickname + " left the chat"@,
    );
    lemma_done_concat(seq![printed] + others, seq![forget]);
    lemma_done_concat(seq![printed], others);
    lemma_only_sends(others);
    lemma_one_done(printed);
    lemma_one_done(forget);
    assert(done_by(on_disconnected(s, address).1) =~= seq![printed, forget]);
}

// ---------------------------------------------------------------------------
// Lines that come too soon

/// A line that comes within a second of the one before is counted against its
/// sender, who is told. Before the tenth nothing else happens, but that the
/// second runs from this line. At the tenth the sender is told of the ban, shut
/// down and removed, and its host is kept out for ten minutes.
pub proof fn law_line_within_a_second_counts(
    s: ServerModel,
    from: Address,
    line: Seq<char>,
    last: u64,
    now: u64,
    to: Address,
)
    requires
        s.valid(),
        s.knows(from),
        s.client(from).last_message_at == Some(last),
        now < last + 1_000_000_000,
    ensures
        ({
            let (after, effects) = on_line(s, from, line, now);
            let told = line_to(from, "ERR you are sending messages too quickly"@);
            if s.client(from).rate_limit_violations < 9 {
                &&& effects == seq![told]
                &&& after.knows(from)
                &&& after.client(from) == (ClientModel {
                    address: from,
                    nickname: s.client(from).nickname,
                    last_message_at: Some(now),
                    rate_limit_violations: (s.client(from).rate_limit_violations + 1) as u32,
                })
                &&& to != from ==> after.knows(to) == s.knows(to)
                &&& to != from && s.knows(to) ==> after.client(to) == s.client(to)
                &&& after.banned == s.banned
                &&& after.history == s.history
                &&& after.files == s.files
            } else {
                &&& effects.take(3) == seq![
                    told,
                    line_to(from, "ERR too many rapid messages; you are banned for 10 minutes"@),
                    (EffectModel::Send { to: from, message: OutboundModel::Shutdown }),
                ]
                &&& done_by(effects) == seq![
                    EffectModel::Print(
                        NoticeModel::Disconnected {
                            address: from,
                            nickname: s.client(from).nickname,
                        },
                    ),
                    EffectModel::Forget { address: from },
                ]
                &&& !after.knows(from)
                &&& to != from ==> after.knows(to) == s.knows(to)
                &&& to != from && s.knows(to) ==> after.client(to) == s.client(to)
                &&& after.banned.contains_key(from.ip)
                &&& after.banned[from.ip] == now + 600_000_000_000
                &&& to.ip != from.ip ==> after.banned.contains_key(to.ip)
                    == s.banned.contains_key(to.ip)
                &&& to.ip != from.ip && s.banned.contains_key(to.ip) ==> after.banned[to.ip]
                    == s.banned[to.ip]
                &&& after.history == s.history
                &&& after.files == s.files
            }
        }),
{
    let (after, effects) = on_line(s, from, line, now);
    law_too_quick_is_within_a_second(s.client(from), now);
    lemma_own_nickname(s.clients, from);
    let slot = client_slot(s.clients, from);
    assert(s.clients[slot].address == from);
    if s.client(from).rate_limit_violations < 9 {
        lemma_put_client(
            s.clients,
            ClientModel {
                last_message_at: Some(now),
                rate_limit_violations: (s.client(from).rate_limit_violations + 1) as u32,
                ..s.client(from)
            },
        );
    } else {
        lemma_drop_client(s.clients, from);
        let first = seq![
            line_to(from, "ERR you are sending messages too quickly"@),
            line_to(from, "ERR too many rapid messages; you are banned for 10 minutes"@),
            EffectModel::Send { to: from, message: OutboundModel::Shutdown },
        ];
        assert(effects.take(3) =~= first);
        let t = ServerModel {
            banned: s.banned.insert(from.ip, (now + 600_000_000_000) as u128),
            ..s
        };
        assert(effects =~= first + on_disconnected(t, from).1);
        lemma_done_concat(first, on_disconnected(t, from).1);
        lemma_only_sends(first);
        law_client_that_leaves_is_forgotten(t, from);
        assert(done_by(effects) =~= done_by(on_disconnected(t, from).1));
    }
}

// ---------------------------------------------------------------------------
// What comes back from commands and from the language model

/// Who is not there is told nothing.
pub proof fn law_reports_are_for_clients(
    s: ServerModel,
    address: Address,
    status: i32,
    output: Seq<char>,
    truncated: bool,
    result: Result<Seq<char>, Seq<char>>,
)
    requires
        !s.knows(address),
    ensures
        on_exec_finished(s, address, status, output, truncated).len() == 0,
        on_llm_finished(s, address, result).len() == 0,
{
}

/// The output of a command is told line by line: one line more at its start is
/// one line more that is told first, unless it is empty. At the end it is told
/// whether there was more, and the status.
#[verifier::spinoff_prover]
#[verifier::rlimit(40)]
pub proof fn law_output_is_told_line_by_line(
    s: ServerModel,
    address: Address,
    status: i32,
    line: Seq<char>,
    rest: Seq<char>,
    truncated: bool,
)
    requires
        s.knows(address),
        !line.contains('\n'),
        line.len() == 0 || line.last() != '\r',
    ensures
        on_exec_finished(s, address, status, Seq::empty(), truncated) == (if truncated {
            seq![line_to(address, "OUT [output truncated]"@)]
        } else {
            seq![]
        }) + seq![line_to(address, "EXEC_END"@ + " "@ + signed_decimal(status as int))],
        on_exec_finished(s, address, status, line + seq!['\n'] + rest, truncated) == (if line.len()
            > 0 {
            seq![line_to(address, "OUT"@ + " "@ + line)]
        } else {
            seq![]
        }) + on_exec_finished(s, address, status, rest, truncated),
        line.len() > 0 ==> on_exec_finished(s, address, status, line, truncated) == seq![
            line_to(address, "OUT"@ + " "@ + line),
        ] + on_exec_finished(s, address, status, Seq::empty(), truncated),
{
    law_lines_are_ended_by_line_feeds(line, rest);
    reveal_strlit("OUT");
    reveal_strlit("OUT ");
    reveal_strlit("EXEC_END");
    reveal_strlit("EXEC_END ");
    reveal_strlit(" ");
    assert("OUT "@ =~= "OUT"@ + " "@);
    assert("EXEC_END "@ =~= "EXEC_END"@ + " "@);
    assert("OUT "@ + line =~= "OUT"@ + " "@ + line);
    let keep = |line: Seq<char>| line.len() > 0;
    let none = Seq::<Seq<char>>::empty();
    assert(none.filter(keep) =~= none) by {
        reveal(Seq::filter);
    }
    assert(seq![line].filter(keep) == if line.len() > 0 {
        seq![line]
    } else {
        none
    }) by {
        reveal(Seq::filter);
        assert(seq![line].drop_last() =~= none);
        assert(seq![line].drop_last().filter(keep) =~= none);
        assert(none.push(line) =~= seq![line]);
    }
    Seq::filter_distributes_over_add(seq![line], lines(rest), keep);
    let mark = if truncated {
        seq![line_to(address, "OUT [output truncated]"@)]
    } else {
        seq![]
    };
    assert(on_exec_finished(s, address, status, Seq::empty(), truncated) =~= mark + seq![
        line_to(address, "EXEC_END "@ + signed_decimal(status as int)),
    ]);
    let front = if line.len() > 0 {
        seq![line_to(address, "OUT "@ + line)]
    } else {
        seq![]
    };
    assert(on_exec_finished(s, address, status, line + seq!['\n'] + rest, truncated) =~= front
        + on_exec_finished(s, address, status, rest, truncated));
    if line.len() > 0 {
        assert(on_exec_finished(s, address, status, line, truncated) =~= front
            + on_exec_finished(s, address, status, Seq::empty(), truncated));
    }
}

/// The answer of the language model is told line by line, empty lines too: one
/// line more at its start is one line more that is told first. An answer without
/// text is told as one empty line, and an error is told as such.
pub proof fn law_answer_is_told_line_by_line(
    s: ServerModel,
    address: Address,
    line: Seq<char>,
    rest: Seq<char>,
)
    requires
        s.knows(address),
        !line.contains('\n'),
        line.len() == 0 || line.last() != '\r',
    ensures
        on_llm_finished(s, address, Ok(line)) == seq![line_to(address, "LLM"@ + " "@ + line)],
        on_llm_finished(s, address, Ok(line + seq!['\n'])) == seq![
            line_to(address, "LLM"@ + " "@ + line),
        ],
        rest.len() > 0 ==> on_llm_finished(s, address, Ok(line + seq!['\n'] + rest)) == seq![
            line_to(address, "LLM"@ + " "@ + line),
        ] + on_llm_finished(s, address, Ok(rest)),
        on_llm_finished(s, address, Err(rest)) == seq![
            line_to(address, "ERR llm request failed: "@ + rest),
        ],
{
    law_lines_are_ended_by_line_feeds(line, rest);
    law_lines_are_ended_by_line_feeds(line, Seq::empty());
    assert(line + seq!['\n'] + Seq::<char>::empty() =~= line + seq!['\n']);
    reveal_strlit("LLM");
    reveal_strlit("LLM ");
    reveal_strlit(" ");
    assert("LLM "@ =~= "LLM"@ + " "@);
    assert("LLM "@ + line =~= "LLM"@ + " "@ + line);
    let told = seq![line_to(address, "LLM "@ + line)];
    if line.len() == 0 {
        assert("LLM "@ + line =~= "LLM "@);
    }
    assert(on_llm_finished(s, address, Ok(line)) =~= told);
    assert(seq![line] + Seq::<Seq<char>>::empty() =~= seq![line]);
    assert(on_llm_finished(s, address, Ok(line + seq!['\n'])) =~= told);
    if rest.len() > 0 {
        assert(on_llm_finished(s, address, Ok(line + seq!['\n'] + rest)) =~= told
            + on_llm_finished(s, address, Ok(rest)));
    }
    assert(on_llm_finished(s, address, Err(rest)) =~= seq![
        line_to(address, "ERR llm request failed: "@ + rest),
    ]);
}

/// Each event is taken as what it is, with all that it says.
pub proof fn law_events_are_taken_as_they_are(
    s: ServerModel,
    address: Address,
    line: Seq<char>,
    size: u64,
    moved: Result<(), Seq<char>>,
    status: i32,
    output: Seq<u8>,
    truncated: bool,
    result: Result<Seq<char>, Seq<char>>,
    now: u64,
)
    ensures
        on_event(s, EventModel::Connected { address }, now) == on_connected(s, address, now),
        on_event(s, EventModel::Disconnected { address }, now) == on_disconnected(s, address),
        on_event(s, EventModel::LineReceived { address, line }, now) == on_line(
            s,
            address,
            line,
            now,
        ),
        on_event(s, EventModel::FileUploaded { from: address, name: line, size, moved }, now)
            == on_upload(s, address, line, size, moved),
        on_event(s, EventModel::ExecFinished { address, status, output, truncated }, now) == (
            s,
            on_exec_finished(
                s,
                address,
                status,
                crate::rules::lossy_text(output),
                truncated,
            ),
        ),
        on_event(s, EventModel::LlmFinished { address, result }, now) == (
            s,
            on_llm_finished(s, address, result),
        ),
{
}

} // verus!
