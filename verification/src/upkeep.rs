//! What holds of the server at any time is kept by every event.

use vstd::prelude::*;
use crate::bans::Address;
#[allow(unused_imports)]
use crate::model::{
    addresses_unique, client_at, client_slot, drop_client, has_client, lemma_chosen_is_not_given,
    lemma_client_slot, lemma_put_file, nickname_taken, nicknames_proper, nicknames_unique,
    put_client, violations_bounded, ClientModel, EventModel, FileModel, ServerModel,
    MAX_RATE_LIMIT_VIOLATIONS,
};
#[allow(unused_imports)]
use crate::names::{default_nickname, nickname_problem};
#[allow(unused_imports)]
use crate::rules::{
    after_events, newcomer, nickname_refusal, on_connected, on_disconnected, on_event, on_line,
    on_request, on_upload, too_quick,
};
#[allow(unused_imports)]
use crate::server::{listed_files, DirEntry};
#[allow(unused_imports)]
use crate::text::{same_ignoring_case, trimmed};

verus! {

/// What holds of the clients at any time.
pub open spec fn clients_valid(clients: Seq<ClientModel>) -> bool {
    &&& addresses_unique(clients)
    &&& nicknames_proper(clients)
    &&& nicknames_unique(clients)
    &&& violations_bounded(clients)
}

/// A client that is put is found, and the others are as they were.
pub proof fn lemma_put_client(clients: Seq<ClientModel>, client: ClientModel)
    requires
        addresses_unique(clients),
    ensures
        addresses_unique(put_client(clients, client)),
        has_client(put_client(clients, client), client.address),
        client_at(put_client(clients, client), client.address) == client,
        forall|a: Address|
            a != client.address ==> has_client(put_client(clients, client), a) == has_client(
                clients,
                a,
            ),
        forall|a: Address|
            a != client.address && has_client(clients, a) ==> #[trigger] client_at(
                put_client(clients, client),
                a,
            ) == client_at(clients, a),
{
    let after = put_client(clients, client);
    let at = if has_client(clients, client.address) {
        client_slot(clients, client.address)
    } else {
        clients.len() as int
    };
    assert(after[at] == client);
    assert forall|i: int, j: int| 0 <= i < j < after.len() implies (#[trigger] after[i]).address
        != (#[trigger] after[j]).address by {
        if i != at {
            assert(after[i] == clients[i]);
        }
        if j != at {
            assert(after[j] == clients[j]);
        }
        if at < clients.len() {
            assert(clients[i].address != clients[j].address);
        }
    }
    lemma_client_slot(after, at);
    assert forall|a: Address| a != client.address implies has_client(after, a) == has_client(
        clients,
        a,
    ) by {
        if has_client(clients, a) {
            let k = client_slot(clients, a);
            assert(after[k].address == a);
        }
        if has_client(after, a) {
            let k = client_slot(after, a);
            assert(clients[k].address == a);
        }
    }
    assert forall|a: Address| a != client.address && has_client(clients, a) implies #[trigger] client_at(
        after,
        a,
    ) == client_at(clients, a) by {
        let k = client_slot(clients, a);
        assert(after[k] == clients[k]);
        lemma_client_slot(after, k);
    }
}

/// The case of letters does not matter for whose nickname is named first.
pub proof fn lemma_same_ignoring_case_symmetric(a: Seq<char>, b: Seq<char>)
    ensures
        same_ignoring_case(a, b) == same_ignoring_case(b, a),
{
}

/// A client that is put keeps what holds of the clients, if it is like them
/// and its nickname, where it asked for one, is nobody else's.
pub proof fn lemma_put_client_valid(clients: Seq<ClientModel>, client: ClientModel)
    requires
        clients_valid(clients),
        client.rate_limit_violations < MAX_RATE_LIMIT_VIOLATIONS,
        client.nickname == default_nickname(client.address.port) || (nickname_problem(
            client.nickname,
        ) is None && !nickname_taken(clients, client.address, client.nickname)),
    ensures
        clients_valid(put_client(clients, client)),
{
    lemma_put_client(clients, client);
    let after = put_client(clients, client);
    let at = if has_client(clients, client.address) {
        client_slot(clients, client.address)
    } else {
        clients.len() as int
    };
    assert forall|i: int| 0 <= i < after.len() && i != at implies (#[trigger] after[i])
        == clients[i] && clients[i].address != client.address by {
        if clients[i].address == client.address {
            assert(has_client(clients, client.address));
            lemma_client_slot(clients, i);
        }
    }
    assert forall|i: int| 0 <= i < after.len() implies (#[trigger] after[i]).nickname
        == default_nickname(after[i].address.port) || nickname_problem(after[i].nickname) is None by {
        if i != at {
            assert(after[i] == clients[i]);
        }
    }
    assert forall|i: int| 0 <= i < after.len() implies (#[trigger] after[i]).rate_limit_violations
        < MAX_RATE_LIMIT_VIOLATIONS by {
        if i != at {
            assert(after[i] == clients[i]);
        }
    }
    assert forall|i: int, j: int|
        0 <= i < after.len() && 0 <= j < after.len() && i != j && nickname_problem(
            (#[trigger] after[i]).nickname,
        ) is None implies !same_ignoring_case(after[i].nickname, (#[trigger] after[j]).nickname) by {
        if i != at && j != at {
            assert(after[i] == clients[i] && after[j] == clients[j]);
        } else if j == at {
            assert(after[i] == clients[i]);
            if client.nickname == default_nickname(client.address.port) {
                lemma_chosen_is_not_given(after[i].nickname, client.address.port);
            } else {
                assert(clients[i].address != client.address);
            }
        } else {
            assert(after[j] == clients[j]);
            if client.nickname == default_nickname(client.address.port) {
                lemma_chosen_is_not_given(client.nickname, client.address.port);
            } else {
                assert(clients[j].address != client.address);
                lemma_same_ignoring_case_symmetric(client.nickname, clients[j].nickname);
            }
        }
    }
}

/// A client that keeps its nickname is like the others.
pub proof fn lemma_own_nickname(clients: Seq<ClientModel>, address: Address)
    requires
        clients_valid(clients),
        has_client(clients, address),
    ensures
        client_at(clients, address).address == address,
        client_at(clients, address).rate_limit_violations < MAX_RATE_LIMIT_VIOLATIONS,
        client_at(clients, address).nickname == default_nickname(address.port) || (
        nickname_problem(client_at(clients, address).nickname) is None && !nickname_taken(
            clients,
            address,
            client_at(clients, address).nickname,
        )),
{
    let at = client_slot(clients, address);
    let own = clients[at].nickname;
    if own != default_nickname(address.port) && nickname_taken(clients, address, own) {
        let i = choose|i: int|
            0 <= i < clients.len() && (#[trigger] clients[i]).address != address
                && same_ignoring_case(clients[i].nickname, own);
        lemma_same_ignoring_case_symmetric(clients[i].nickname, own);
        assert(!same_ignoring_case(clients[at].nickname, clients[i].nickname));
    }
}

/// The clients that are left when one is dropped.
pub proof fn lemma_drop_client(clients: Seq<ClientModel>, address: Address)
    requires
        addresses_unique(clients),
        has_client(clients, address),
    ensures
        addresses_unique(drop_client(clients, address)),
        !has_client(drop_client(clients, address), address),
        forall|a: Address|
            a != address ==> has_client(drop_client(clients, address), a) == has_client(
                clients,
                a,
            ),
        forall|a: Address|
            a != address && has_client(clients, a) ==> #[trigger] client_at(
                drop_client(clients, address),
                a,
            ) == client_at(clients, a),
        clients_valid(clients) ==> clients_valid(drop_client(clients, address)),
{
    let after = drop_client(clients, address);
    let at = client_slot(clients, address);
    assert(0 <= at < clients.len());
    assert forall|i: int| 0 <= i < after.len() implies #[trigger] after[i] == clients[if i < at {
        i
    } else {
        i + 1
    }] by {}
    assert forall|i: int, j: int| 0 <= i < j < after.len() implies (#[trigger] after[i]).address
        != (#[trigger] after[j]).address by {
        let p = if i < at { i } else { i + 1 };
        let q = if j < at { j } else { j + 1 };
        assert(clients[p].address != clients[q].address);
    }
    if has_client(after, address) {
        let i = client_slot(after, address);
        let p = if i < at { i } else { i + 1 };
        lemma_client_slot(clients, p);
    }
    assert forall|a: Address| a != address implies has_client(after, a) == has_client(clients, a) by {
        if has_client(clients, a) {
            let k = client_slot(clients, a);
            let i = if k < at { k } else { k - 1 };
            assert(after[i].address == a);
        }
        if has_client(after, a) {
            let i = client_slot(after, a);
            let p = if i < at { i } else { i + 1 };
            assert(clients[p].address == a);
        }
    }
    assert forall|a: Address| a != address && has_client(clients, a) implies #[trigger] client_at(
        after,
        a,
    ) == client_at(clients, a) by {
        let k = client_slot(clients, a);
        let i = if k < at { k } else { k - 1 };
        assert(after[i] == clients[k]);
        lemma_client_slot(after, i);
    }
    if clients_valid(clients) {
        assert forall|i: int| 0 <= i < after.len() implies (#[trigger] after[i]).nickname
            == default_nickname(after[i].address.port) || nickname_problem(after[i].nickname) is None by {
            let p = if i < at { i } else { i + 1 };
            assert(after[i] == clients[p]);
        }
        assert forall|i: int| 0 <= i < after.len() implies (#[trigger] after[i]).rate_limit_violations
            < MAX_RATE_LIMIT_VIOLATIONS by {
            let p = if i < at { i } else { i + 1 };
            assert(after[i] == clients[p]);
        }
        assert forall|i: int, j: int|
            0 <= i < after.len() && 0 <= j < after.len() && i != j && nickname_problem(
                (#[trigger] after[i]).nickname,
            ) is None implies !same_ignoring_case(
            after[i].nickname,
            (#[trigger] after[j]).nickname,
        ) by {
            let p = if i < at { i } else { i + 1 };
            let q = if j < at { j } else { j + 1 };
            assert(after[i] == clients[p] && after[j] == clients[q]);
        }
    }
}

/// A connection that is announced keeps the server valid.
pub proof fn law_connected_keeps_valid(s: ServerModel, address: Address, now: u64)
    requires
        s.valid(),
    ensures
        on_connected(s, address, now).0.valid(),
{
    lemma_put_client_valid(s.clients, newcomer(address));
}

/// A client that goes keeps the server valid.
pub proof fn law_disconnected_keeps_valid(s: ServerModel, address: Address)
    requires
        s.valid(),
    ensures
        on_disconnected(s, address).0.valid(),
{
    if s.knows(address) {
        lemma_drop_client(s.clients, address);
    }
}

/// What a client asks for keeps the server valid.
pub proof fn law_request_keeps_valid(s: ServerModel, address: Address, line: Seq<char>)
    requires
        s.valid(),
        s.knows(address),
    ensures
        on_request(s, address, line).0.valid(),
{
    lemma_own_nickname(s.clients, address);
    let client = s.client(address);
    let requested = trimmed(crate::rules::payload_of(line));
    if nickname_refusal(s.clients, address, requested) is None {
        lemma_put_client_valid(s.clients, ClientModel { nickname: requested, ..client });
    }
}

/// A line that comes keeps the server valid.
pub proof fn law_line_keeps_valid(s: ServerModel, address: Address, line: Seq<char>, now: u64)
    requires
        s.valid(),
    ensures
        on_line(s, address, line, now).0.valid(),
{
    if s.knows(address) {
        lemma_own_nickname(s.clients, address);
        let client = s.client(address);
        if too_quick(client, now) {
            if client.rate_limit_violations + 1 >= MAX_RATE_LIMIT_VIOLATIONS {
                lemma_drop_client(s.clients, address);
            } else {
                lemma_put_client_valid(
                    s.clients,
                    ClientModel {
                        last_message_at: Some(now),
                        rate_limit_violations: (client.rate_limit_violations + 1) as u32,
                        ..client
                    },
                );
            }
        } else {
            let fresh = ClientModel {
                last_message_at: Some(now),
                rate_limit_violations: 0,
                ..client
            };
            lemma_put_client_valid(s.clients, fresh);
            lemma_put_client(s.clients, fresh);
            let t = ServerModel { clients: put_client(s.clients, fresh), ..s };
            law_request_keeps_valid(t, address, line);
        }
    }
}

/// A file that was received keeps the server valid.
pub proof fn law_upload_keeps_valid(
    s: ServerModel,
    from: Address,
    name: Seq<char>,
    size: u64,
    moved: Result<(), Seq<char>>,
)
    requires
        s.valid(),
    ensures
        on_upload(s, from, name, size, moved).0.valid(),
{
    lemma_put_file(s.files, FileModel { name, size });
}

/// Anything that the server is told keeps it valid.
pub proof fn law_event_keeps_valid(s: ServerModel, event: EventModel, now: u64)
    requires
        s.valid(),
    ensures
        on_event(s, event, now).0.valid(),
{
    match event {
        EventModel::Connected { address } => law_connected_keeps_valid(s, address, now),
        EventModel::Disconnected { address } => law_disconnected_keeps_valid(s, address),
        EventModel::LineReceived { address, line } => law_line_keeps_valid(s, address, line, now),
        EventModel::FileUploaded { from, name, size, moved } => law_upload_keeps_valid(
            s,
            from,
            name,
            size,
            moved,
        ),
        _ => {},
    }
}

/// The server is valid at any time, whatever it was told since it started.
pub proof fn law_every_state_is_valid(entries: Seq<DirEntry>, events: Seq<(EventModel, u64)>)
    ensures
        after_events(
            ServerModel {
                clients: Seq::empty(),
                banned: Map::empty(),
                history: Seq::empty(),
                files: listed_files(entries),
            },
            events,
        ).valid(),
    decreases events.len(),
{
    if events.len() == 0 {
        crate::server::lemma_listed_files_unique(entries);
    } else {
        law_every_state_is_valid(entries, events.drop_last());
        let start = ServerModel {
            clients: Seq::empty(),
            banned: Map::empty(),
            history: Seq::empty(),
            files: listed_files(entries),
        };
        law_event_keeps_valid(
            after_events(start, events.drop_last()),
            events.last().0,
            events.last().1,
        );
    }
}

} // verus!
