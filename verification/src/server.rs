//! The server: who is connected, who is banned, what was said, which files
//! there are. Each event changes this, and is answered by effects.

use std::collections::VecDeque;
use vstd::prelude::*;
#[allow(unused_imports)]
use vstd::utf8::{decode_utf8, valid_utf8};
use crate::bans::{Address, BanList};
use crate::model::{
    Client, Effect, FileMeta, Notice, Outbound, ServerEvent, BAN_DURATION, HISTORY_LIMIT,
    HISTORY_ON_CONNECT, MAX_RATE_LIMIT_VIOLATIONS, MIN_MESSAGE_INTERVAL,
};
use crate::names::{first_nickname, nickname_error, partial};
use crate::number::{to_decimal, to_signed_decimal};
use crate::order::sort;
use crate::rules::UploadPlan;
use crate::text::{
    concat2, concat3, concat4, join, same, same_but_case, split_lines, split_once, trim,
};
#[allow(unused_imports)]
use crate::model::{
    answer_text, client_models, client_slot, effect_models, file_models, file_slot, files_unique,
    has_file, lemma_client_slot, lemma_file_slot, lemma_put_file, nickname_taken, put_client,
    put_file, result_text, ClientModel, EffectModel, FileModel, ServerModel,
};
#[allow(unused_imports)]
use crate::names::is_part;
#[allow(unused_imports)]
use crate::rules::{
    command_of, exec_lines, file_entry, line_to, line_to_others, lines_to, listing, lossy_text,
    newcomer, on_connected, on_disconnected, on_event, on_exec_finished, on_line, on_llm_finished,
    on_message, on_nickname, on_request, on_upload, payload_of, recent, remember, too_quick,
    upload_plan,
};
#[allow(unused_imports)]
use crate::text::{lines, same_ignoring_case, texts, trimmed};
#[allow(unused_imports)]
use crate::upkeep::{
    clients_valid, law_connected_keeps_valid, law_disconnected_keeps_valid, law_line_keeps_valid,
    law_upload_keeps_valid, lemma_own_nickname, lemma_put_client, lemma_put_client_valid,
};

verus! {

// ---------------------------------------------------------------------------
// Sending

/// Adds an effect.
fn emit(out: &mut Vec<Effect>, effect: Effect)
    ensures
        effect_models(final(out)@) == effect_models(old(out)@).push(effect@),
{
    let ghost before = out@;
    out.push(effect);
    assert(effect_models(out@) =~= effect_models(before).push(effect@));
}

/// Sends a line to an address.
fn tell(to: Address, line: &str, out: &mut Vec<Effect>)
    ensures
        effect_models(final(out)@) == effect_models(old(out)@).push(line_to(to, line@)),
{
    emit(out, Effect::Send { to, message: Outbound::Line(line.to_owned()) });
}

/// Sends a line to a client.
pub fn send_to(client: &Client, line: &str, out: &mut Vec<Effect>)
    ensures
        effect_models(final(out)@) == effect_models(old(out)@).push(
            line_to(client.address, line@),
        ),
{
    tell(client.address, line, out);
}

/// One more client, and who is sent a line.
proof fn lemma_line_to_others_push(
    clients: Seq<ClientModel>,
    client: ClientModel,
    except: Address,
    line: Seq<char>,
)
    ensures
        line_to_others(clients.push(client), except, line) == if client.address != except {
            line_to_others(clients, except, line).push(line_to(client.address, line))
        } else {
            line_to_others(clients, except, line)
        },
{
    reveal(Seq::filter);
    assert(clients.push(client).drop_last() == clients);
    assert(line_to_others(clients.push(client), except, line) =~= if client.address != except {
        line_to_others(clients, except, line).push(line_to(client.address, line))
    } else {
        line_to_others(clients, except, line)
    });
}

/// Sends a line to each client but the one with an address.
pub fn broadcast(clients: &Vec<Client>, except: Address, line: &str, out: &mut Vec<Effect>)
    ensures
        effect_models(final(out)@) == effect_models(old(out)@) + line_to_others(
            client_models(clients@),
            except,
            line@,
        ),
{
    let ghost before = effect_models(out@);
    let ghost all = client_models(clients@);
    let mut i: usize = 0;
    proof {
        reveal(Seq::filter);
        assert(line_to_others(all.take(0), except, line@) =~= Seq::<EffectModel>::empty());
    }
    while i < clients.len()
        invariant
            i <= clients.len(),
            all == client_models(clients@),
            effect_models(out@) == before + line_to_others(all.take(i as int), except, line@),
        decreases clients.len() - i,
    {
        proof {
            assert(all.take(i + 1) =~= all.take(i as int).push(all[i as int]));
            lemma_line_to_others_push(all.take(i as int), all[i as int], except, line@);
        }
        if clients[i].address != except {
            send_to(&clients[i], line, out);
        }
        i = i + 1;
    }
    assert(all.take(i as int) == all);
}

/// Sends lines to an address, each behind a prefix.
fn tell_all(to: Address, prefix: &str, all: &Vec<String>, out: &mut Vec<Effect>)
    ensures
        effect_models(final(out)@) == effect_models(old(out)@) + lines_to(
            to,
            texts(all@).map_values(|line: Seq<char>| prefix@ + line),
        ),
{
    let ghost before = effect_models(out@);
    let ghost wanted = lines_to(to, texts(all@).map_values(|line: Seq<char>| prefix@ + line));
    let mut i: usize = 0;
    assert(wanted.take(0) =~= Seq::<EffectModel>::empty());
    while i < all.len()
        invariant
            i <= all.len(),
            wanted == lines_to(to, texts(all@).map_values(|line: Seq<char>| prefix@ + line)),
            effect_models(out@) == before + wanted.take(i as int),
        decreases all.len() - i,
    {
        tell(to, concat2(prefix, all[i].as_str()).as_str(), out);
        assert(wanted.take(i + 1) =~= wanted.take(i as int).push(wanted[i as int]));
        i = i + 1;
    }
    assert(wanted.take(i as int) == wanted);
}

// ---------------------------------------------------------------------------
// Files

/// An entry of the directory that holds the files.
pub struct DirEntry {
    /// Its name, where that is text.
    pub name: Option<String>,
    /// Whether it is a file.
    pub is_file: bool,
    /// Its size, where that can be found out.
    pub size: Option<u64>,
}

/// The file that an entry of the directory is, if it is one that is complete.
pub open spec fn listed_file(entry: DirEntry) -> Option<FileModel> {
    match (entry.name, entry.size) {
        (Some(name), Some(size)) => if entry.is_file && !is_part(name@) {
            Some(FileModel { name: name@, size })
        } else {
            None
        },
        _ => None,
    }
}

/// The files in the directory, in the order of its entries.
pub open spec fn listed_files(entries: Seq<DirEntry>) -> Seq<FileModel>
    decreases entries.len(),
{
    if entries.len() == 0 {
        seq![]
    } else {
        let before = listed_files(entries.drop_last());
        match listed_file(entries.last()) {
            Some(file) => put_file(before, file),
            None => before,
        }
    }
}

/// The files in the directory have different names.
pub proof fn lemma_listed_files_unique(entries: Seq<DirEntry>)
    ensures
        files_unique(listed_files(entries)),
    decreases entries.len(),
{
    if entries.len() > 0 {
        lemma_listed_files_unique(entries.drop_last());
        if let Some(file) = listed_file(entries.last()) {
            lemma_put_file(listed_files(entries.drop_last()), file);
        }
    }
}

/// Where the file of this name is among `files`, if it is.
fn find_file(files: &Vec<FileMeta>, name: &str) -> (at: Option<usize>)
    requires
        files_unique(file_models(files@)),
    ensures
        match at {
            Some(i) => i < files.len() && has_file(file_models(files@), name@) && i == file_slot(
                file_models(files@),
                name@,
            ),
            None => !has_file(file_models(files@), name@),
        },
{
    let mut i: usize = 0;
    while i < files.len()
        invariant
            i <= files.len(),
            files_unique(file_models(files@)),
            forall|k: int| 0 <= k < i ==> (#[trigger] file_models(files@)[k]).name != name@,
        decreases files.len() - i,
    {
        if same(files[i].name.as_str(), name) {
            proof {
                lemma_file_slot(file_models(files@), i as int);
            }
            return Some(i);
        }
        assert(file_models(files@)[i as int].name != name@);
        i = i + 1;
    }
    None
}

/// Puts a file among the others.
fn store_file(files: &mut Vec<FileMeta>, file: FileMeta)
    requires
        files_unique(file_models(old(files)@)),
    ensures
        files_unique(file_models(final(files)@)),
        file_models(final(files)@) == put_file(file_models(old(files)@), file@),
{
    let ghost before = files@;
    proof {
        lemma_put_file(file_models(before), file@);
    }
    match find_file(files, file.name.as_str()) {
        Some(i) => {
            files.set(i, file);
            assert(file_models(files@) =~= file_models(before).update(i as int, file@));
        },
        None => {
            files.push(file);
            assert(file_models(files@) =~= file_models(before).push(file@));
        },
    }
}

/// The files in the directory: its entries that are files and have a name, but
/// not the uploads that are not complete.
pub fn load_files(entries: &Vec<DirEntry>) -> (files: Vec<FileMeta>)
    ensures
        file_models(files@) == listed_files(entries@),
        files_unique(file_models(files@)),
{
    let mut files: Vec<FileMeta> = Vec::new();
    let mut i: usize = 0;
    assert(file_models(files@) =~= Seq::<FileModel>::empty());
    while i < entries.len()
        invariant
            i <= entries.len(),
            file_models(files@) == listed_files(entries@.take(i as int)),
            files_unique(file_models(files@)),
        decreases entries.len() - i,
    {
        let entry: &DirEntry = &entries[i];
        proof {
            let next = entries@.take(i + 1);
            assert(next.drop_last() == entries@.take(i as int));
            assert(next.last() == *entry);
        }
        if entry.is_file {
            match (&entry.name, entry.size) {
                (Some(name), Some(size)) => {
                    if !partial(name.as_str()) {
                        store_file(&mut files, FileMeta { name: name.clone(), size });
                    }
                },
                _ => {},
            }
        }
        i = i + 1;
    }
    assert(entries@.take(i as int) == entries@);
    files
}

// ---------------------------------------------------------------------------
// The server

/// The state of the server.
pub struct Server {
    clients: Vec<Client>,
    banned: BanList,
    history: VecDeque<String>,
    files: Vec<FileMeta>,
}

/// `String::from_utf8_lossy`: the result depends on the bytes alone, and bytes
/// that are valid UTF-8 give the text that they encode.
#[verifier::external_body]
fn lossy(bytes: &[u8]) -> (text: String)
    ensures
        text@ == lossy_text(bytes@),
        valid_utf8(bytes@) ==> text@ == decode_utf8(bytes@),
{
    String::from_utf8_lossy(bytes).into_owned()
}

impl Server {
    /// The value of the server.
    pub closed spec fn view(&self) -> ServerModel {
        ServerModel {
            clients: client_models(self.clients@),
            banned: self.banned@,
            history: texts(self.history@),
            files: file_models(self.files@),
        }
    }

    /// What holds of the server at any time.
    pub closed spec fn wf(&self) -> bool {
        self@.valid() && self.banned.wf()
    }

    /// The value of a server is always a valid one.
    pub proof fn law_server_is_valid(&self)
        requires
            self.wf(),
        ensures
            self@.valid(),
    {
    }

    /// A server without clients, with the files in its directory.
    pub fn new(entries: &Vec<DirEntry>) -> (server: Server)
        ensures
            server.wf(),
            server@ == (ServerModel {
                clients: Seq::empty(),
                banned: Map::empty(),
                history: Seq::empty(),
                files: listed_files(entries@),
            }),
    {
        let server: Server = Server {
            clients: Vec::new(),
            banned: BanList::new(),
            history: VecDeque::new(),
            files: load_files(entries),
        };
        assert(client_models(server.clients@) =~= Seq::<ClientModel>::empty());
        assert(texts(server.history@) =~= Seq::<Seq<char>>::empty());
        server
    }

    /// Where the client with this address is, if it is one.
    fn find_client(&self, address: Address) -> (at: Option<usize>)
        requires
            self.wf(),
        ensures
            match at {
                Some(i) => i < self.clients.len() && self@.knows(address) && i == client_slot(
                    self@.clients,
                    address,
                ),
                None => !self@.knows(address),
            },
    {
        let mut i: usize = 0;
        while i < self.clients.len()
            invariant
                i <= self.clients.len(),
                self.wf(),
                forall|k: int| 0 <= k < i ==> (#[trigger] self@.clients[k]).address != address,
            decreases self.clients.len() - i,
        {
            if self.clients[i].address == address {
                proof {
                    lemma_client_slot(self@.clients, i as int);
                }
                return Some(i);
            }
            assert(self@.clients[i as int].address != address);
            i = i + 1;
        }
        None
    }

    /// A connection from `address` is announced at `now`: it becomes a client,
    /// unless its host is banned.
    pub fn connected(&mut self, address: Address, now: u64) -> (effects: Vec<Effect>)
        requires
            old(self).wf(),
        ensures
            final(self).wf(),
            (final(self)@, effect_models(effects@)) == on_connected(old(self)@, address, now),
    {
        let mut out: Vec<Effect> = Vec::new();
        assert(effect_models(out@) =~= Seq::<EffectModel>::empty());
        let ghost before = self@;
        proof {
            law_connected_keeps_valid(before, address, now);
        }
        self.banned.retain(now);
        let ghost pruned = self@;
        if let Some(deadline) = self.banned.deadline(address.ip) {
            let remaining: u128 = deadline - now as u128;
            let seconds: u64 = (remaining / 1_000_000_000 + 1) as u64;
            tell(
                address,
                concat3(
                    "ERR temporarily banned; try again in ",
                    to_decimal(seconds).as_str(),
                    " seconds",
                ).as_str(),
                &mut out,
            );
            emit(&mut out, Effect::Send { to: address, message: Outbound::Shutdown });
            assert(effect_models(out@) =~= on_connected(before, address, now).1);
            return out;
        }
        let nickname: String = first_nickname(address.port);
        tell(address, concat2("YOU ", nickname.as_str()).as_str(), &mut out);
        let ghost first = effect_models(out@);
        let ghost shown = recent(texts(self.history@));
        let total: usize = self.history.len();
        let skipped: usize = if total <= HISTORY_ON_CONNECT {
            0
        } else {
            total - HISTORY_ON_CONNECT
        };
        let mut i: usize = skipped;
        assert(lines_to(address, shown).take(0) =~= Seq::<EffectModel>::empty());
        while i < total
            invariant
                skipped <= i <= total,
                total == self.history.len(),
                total - skipped == shown.len(),
                shown == recent(texts(self.history@)),
                forall|k: int|
                    skipped <= k < total ==> (#[trigger] self.history@[k])@ == shown[k - skipped],
                effect_models(out@) == first + lines_to(address, shown).take(i - skipped),
            decreases total - i,
        {
            tell(address, self.history[i].as_str(), &mut out);
            assert(lines_to(address, shown).take(i + 1 - skipped) =~= lines_to(address, shown).take(
                i - skipped,
            ).push(lines_to(address, shown)[i - skipped]));
            i = i + 1;
        }
        assert(lines_to(address, shown).take(i - skipped) =~= lines_to(address, shown));
        broadcast(
            &self.clients,
            address,
            concat3("SYS ", nickname.as_str(), " joined the chat").as_str(),
            &mut out,
        );
        emit(&mut out, Effect::Print(Notice::Connected { address, nickname: nickname.clone() }));
        emit(&mut out, Effect::Admit { address });
        let client: Client = Client {
            address,
            nickname,
            last_message_at: None,
            rate_limit_violations: 0,
        };
        proof {
            assert(client@ =~= newcomer(address));
        }
        self.put(client);
        assert(effect_models(out@) =~= on_connected(before, address, now).1);
        assert(self@ =~= on_connected(before, address, now).0);
        out
    }

    /// Puts a client in the place of the one with its address, or at the end.
    fn put(&mut self, client: Client)
        requires
            old(self).wf(),
            clients_valid(put_client(old(self)@.clients, client@)),
        ensures
            final(self).wf(),
            final(self)@ == (ServerModel {
                clients: put_client(old(self)@.clients, client@),
                ..old(self)@
            }),
    {
        let ghost before = self.clients@;
        match self.find_client(client.address) {
            Some(i) => {
                self.clients.set(i, client);
                assert(client_models(self.clients@) =~= client_models(before).update(
                    i as int,
                    client@,
                ));
            },
            None => {
                self.clients.push(client);
                assert(client_models(self.clients@) =~= client_models(before).push(client@));
            },
        }
    }

    /// The client with this address is gone: the others are told. Where there is
    /// none, nothing happens.
    pub fn remove_client(&mut self, address: Address, out: &mut Vec<Effect>)
        requires
            old(self).wf(),
        ensures
            final(self).wf(),
            final(self)@ == on_disconnected(old(self)@, address).0,
            effect_models(final(out)@) == effect_models(old(out)@) + on_disconnected(
                old(self)@,
                address,
            ).1,
    {
        let ghost before = self@;
        let ghost sent = effect_models(out@);
        proof {
            law_disconnected_keeps_valid(before, address);
        }
        if let Some(i) = self.find_client(address) {
            let ghost clients = self.clients@;
            let client: Client = self.clients.remove(i);
            assert(client_models(self.clients@) =~= client_models(clients).remove(i as int));
            emit(
                out,
                Effect::Print(Notice::Disconnected { address, nickname: client.nickname.clone() }),
            );
            broadcast(
                &self.clients,
                address,
                concat3("SYS ", client.nickname.as_str(), " left the chat").as_str(),
                out,
            );
            emit(out, Effect::Forget { address });
            assert(effect_models(out@) =~= sent + on_disconnected(before, address).1);
        } else {
            assert(sent + Seq::<EffectModel>::empty() =~= sent);
        }
    }

    /// The connection with this address is closed.
    pub fn disconnected(&mut self, address: Address) -> (effects: Vec<Effect>)
        requires
            old(self).wf(),
        ensures
            final(self).wf(),
            (final(self)@, effect_models(effects@)) == on_disconnected(old(self)@, address),
    {
        let mut out: Vec<Effect> = Vec::new();
        self.remove_client(address, &mut out);
        assert(effect_models(out@) =~= on_disconnected(old(self)@, address).1);
        out
    }

    /// The message is remembered: where they become too many, the oldest goes.
    fn remember(&mut self, message: String)
        requires
            old(self).wf(),
        ensures
            final(self).wf(),
            final(self)@ == (ServerModel {
                history: remember(old(self)@.history, message@),
                ..old(self)@
            }),
    {
        let ghost before = self.history@;
        self.history.push_back(message);
        assert(texts(self.history@) =~= texts(before).push(message@));
        if self.history.len() > HISTORY_LIMIT {
            let ghost longer = self.history@;
            let _oldest: Option<String> = self.history.pop_front();
            assert(texts(self.history@) =~= texts(longer).drop_first());
        }
    }

    /// The client with this address says something.
    fn message(&mut self, address: Address, payload: &str, out: &mut Vec<Effect>)
        requires
            old(self).wf(),
            old(self)@.knows(address),
        ensures
            final(self).wf(),
            final(self)@ == on_message(old(self)@, address, payload@).0,
            effect_models(final(out)@) == effect_models(old(out)@) + on_message(
                old(self)@,
                address,
                payload@,
            ).1,
    {
        let ghost before = self@;
        let ghost sent = effect_models(out@);
        let text: &str = trim(payload);
        if text.is_empty() {
            tell(address, "ERR message cannot be empty", out);
            assert(effect_models(out@) =~= sent + on_message(before, address, payload@).1);
            return;
        }
        if let Some(i) = self.find_client(address) {
            let nickname: String = self.clients[i].nickname.clone();
            assert(nickname@ == before.client(address).nickname);
            let message: String = concat4("MSG ", nickname.as_str(), " ", text);
            emit(out, Effect::Print(Notice::Said { address, nickname, text: text.to_owned() }));
            self.remember(message.clone());
            assert(client_models(self.clients@) == before.clients);
            broadcast(&self.clients, address, message.as_str(), out);
            assert(effect_models(out@) =~= sent + on_message(before, address, payload@).1);
        }
    }

    /// Whether a client with another address has this nickname, in whatever
    /// case.
    fn taken(&self, address: Address, nickname: &str) -> (yes: bool)
        ensures
            yes == nickname_taken(self@.clients, address, nickname@),
    {
        let mut i: usize = 0;
        while i < self.clients.len()
            invariant
                i <= self.clients.len(),
                forall|k: int|
                    0 <= k < i ==> (#[trigger] self@.clients[k]).address == address
                        || !same_ignoring_case(self@.clients[k].nickname, nickname@),
            decreases self.clients.len() - i,
        {
            let other: &Client = &self.clients[i];
            if other.address != address && same_but_case(other.nickname.as_str(), nickname) {
                assert(self@.clients[i as int].address != address);
                return true;
            }
            i = i + 1;
        }
        false
    }

    /// The client with this address asks for a nickname.
    fn rename(&mut self, address: Address, payload: &str, out: &mut Vec<Effect>)
        requires
            old(self).wf(),
            old(self)@.knows(address),
        ensures
            final(self).wf(),
            final(self)@ == on_nickname(old(self)@, address, payload@).0,
            effect_models(final(out)@) == effect_models(old(out)@) + on_nickname(
                old(self)@,
                address,
                payload@,
            ).1,
    {
        let ghost before = self@;
        let ghost sent = effect_models(out@);
        let requested: &str = trim(payload);
        let mut problem: Option<&'static str> = nickname_error(requested);
        if problem.is_none() && self.taken(address, requested) {
            problem = Some("nickname is already in use");
        }
        if let Some(reason) = problem {
            tell(address, concat2("ERR ", reason).as_str(), out);
            assert(effect_models(out@) =~= sent + on_nickname(before, address, payload@).1);
            return;
        }
        if let Some(i) = self.find_client(address) {
            let old_nickname: String = self.clients[i].nickname.clone();
            let client: Client = Client {
                address,
                nickname: requested.to_owned(),
                last_message_at: self.clients[i].last_message_at,
                rate_limit_violations: self.clients[i].rate_limit_violations,
            };
            proof {
                lemma_own_nickname(before.clients, address);
                assert(client@ =~= (ClientModel {
                    nickname: trimmed(payload@),
                    ..before.client(address)
                }));
                lemma_put_client_valid(before.clients, client@);
            }
            self.put(client);
            tell(address, concat2("YOU ", requested).as_str(), out);
            broadcast(
                &self.clients,
                address,
                concat4("NICK ", old_nickname.as_str(), " ", requested).as_str(),
                out,
            );
            assert(effect_models(out@) =~= sent + on_nickname(before, address, payload@).1);
        }
    }

    /// The files, in order, as one line.
    fn list_files(&self) -> (line: String)
        ensures
            line@ == listing(self@.files),
    {
        let mut entries: Vec<String> = Vec::new();
        let ghost wanted = self@.files.map_values(|file: FileModel| file_entry(file));
        let mut i: usize = 0;
        assert(texts(entries@) =~= wanted.take(0));
        while i < self.files.len()
            invariant
                i <= self.files.len(),
                wanted == self@.files.map_values(|file: FileModel| file_entry(file)),
                texts(entries@) == wanted.take(i as int),
            decreases self.files.len() - i,
        {
            let entry: String = concat3(
                self.files[i].name.as_str(),
                ":",
                to_decimal(self.files[i].size).as_str(),
            );
            proof {
                assert(entry@ == wanted[i as int]);
                assert(texts(entries@.push(entry)) =~= texts(entries@).push(entry@));
                assert(wanted.take(i + 1) =~= wanted.take(i as int).push(wanted[i as int]));
            }
            entries.push(entry);
            i = i + 1;
        }
        assert(wanted.take(i as int) == wanted);
        concat2("FILES ", join(&sort(&entries), ",").as_str())
    }

    /// What the client with this address asks for, that was not too quick.
    fn request(&mut self, address: Address, line: &str, out: &mut Vec<Effect>)
        requires
            old(self).wf(),
            old(self)@.knows(address),
        ensures
            final(self).wf(),
            final(self)@ == on_request(old(self)@, address, line@).0,
            effect_models(final(out)@) == effect_models(old(out)@) + on_request(
                old(self)@,
                address,
                line@,
            ).1,
    {
        let ghost before = self@;
        let ghost sent = effect_models(out@);
        let (command, payload): (&str, &str) = match split_once(line, ' ') {
            Some((command, payload)) => (command, payload),
            None => (line, ""),
        };
        proof {
            reveal_strlit("");
            assert(command@ == command_of(line@));
            assert(payload@ =~= payload_of(line@));
        }
        if same(command, "MSG") {
            self.message(address, payload, out);
            return;
        }
        if same(command, "NICK") {
            self.rename(address, payload, out);
            return;
        }
        if same(command, "GET") {
            let name: &str = trim(payload);
            match find_file(&self.files, name) {
                Some(i) => {
                    let size: u64 = self.files[i].size;
                    emit(
                        out,
                        Effect::Send {
                            to: address,
                            message: Outbound::File { name: name.to_owned(), size },
                        },
                    );
                },
                None => {
                    tell(address, "ERR file not found", out);
                },
            }
        } else if same(command, "LS") {
            let line: String = self.list_files();
            tell(address, line.as_str(), out);
        } else if same(command, "LLM") {
            let prompt: &str = trim(payload);
            if prompt.is_empty() {
                tell(address, "ERR usage: /llm <prompt>", out);
            } else {
                emit(out, Effect::AskModel { address, prompt: prompt.to_owned() });
            }
        } else if same(command, "EXEC") {
            if payload.is_empty() {
                tell(address, "ERR empty command", out);
            } else {
                emit(out, Effect::RunCommand { address, command: payload.to_owned() });
            }
        } else {
            tell(address, "ERR unknown protocol command", out);
        }
        assert(effect_models(out@) =~= sent + on_request(before, address, line@).1);
    }

    /// A line came from `address` at `now`.
    pub fn line_received(&mut self, address: Address, line: &str, now: u64) -> (effects: Vec<Effect>)
        requires
            old(self).wf(),
        ensures
            final(self).wf(),
            (final(self)@, effect_models(effects@)) == on_line(old(self)@, address, line@, now),
    {
        let mut out: Vec<Effect> = Vec::new();
        assert(effect_models(out@) =~= Seq::<EffectModel>::empty());
        let ghost before = self@;
        proof {
            law_line_keeps_valid(before, address, line@, now);
        }
        let i: usize = match self.find_client(address) {
            Some(i) => i,
            None => {
                return out;
            },
        };
        proof {
            lemma_own_nickname(before.clients, address);
            assert(self.clients@[i as int]@ == before.client(address));
        }
        let quick: bool = match self.clients[i].last_message_at {
            Some(last) => now < last || now - last < MIN_MESSAGE_INTERVAL,
            None => false,
        };
        assert(quick == too_quick(before.client(address), now));
        let violations: u32 = if quick {
            self.clients[i].rate_limit_violations + 1
        } else {
            0
        };
        if quick {
            send_to(&self.clients[i], "ERR you are sending messages too quickly", &mut out);
        }
        if violations >= MAX_RATE_LIMIT_VIOLATIONS {
            self.banned.insert(address.ip, now as u128 + BAN_DURATION as u128);
            send_to(
                &self.clients[i],
                "ERR too many rapid messages; you are banned for 10 minutes",
                &mut out,
            );
            emit(&mut out, Effect::Send { to: address, message: Outbound::Shutdown });
            self.remove_client(address, &mut out);
            assert(effect_models(out@) =~= on_line(before, address, line@, now).1);
            return out;
        }
        let client: Client = Client {
            address,
            nickname: self.clients[i].nickname.clone(),
            last_message_at: Some(now),
            rate_limit_violations: violations,
        };
        proof {
            lemma_put_client(before.clients, client@);
            lemma_put_client_valid(before.clients, client@);
        }
        self.put(client);
        if quick {
            assert(effect_models(out@) =~= on_line(before, address, line@, now).1);
            return out;
        }
        self.request(address, line, &mut out);
        assert(effect_models(out@) =~= on_line(before, address, line@, now).1);
        out
    }

    /// What becomes of a file of this name that was received from `from`.
    pub fn plan_upload(&self, from: Address, name: &str) -> (plan: UploadPlan)
        requires
            self.wf(),
        ensures
            plan == upload_plan(self@, from, name@),
    {
        if self.find_client(from).is_none() {
            UploadPlan::Discard
        } else if find_file(&self.files, name).is_some() {
            UploadPlan::Refuse
        } else {
            UploadPlan::Store
        }
    }

    /// A file was received from `from`. Where the plan was to move it to the
    /// other files, `moved` says whether that went well, or what went wrong;
    /// otherwise `moved` does not matter.
    pub fn file_uploaded(
        &mut self,
        from: Address,
        name: &str,
        size: u64,
        moved: Result<(), String>,
    ) -> (effects: Vec<Effect>)
        requires
            old(self).wf(),
        ensures
            final(self).wf(),
            (final(self)@, effect_models(effects@)) == on_upload(
                old(self)@,
                from,
                name@,
                size,
                result_text(moved),
            ),
    {
        let mut out: Vec<Effect> = Vec::new();
        assert(effect_models(out@) =~= Seq::<EffectModel>::empty());
        let ghost before = self@;
        proof {
            law_upload_keeps_valid(before, from, name@, size, result_text(moved));
        }
        let i: usize = match self.find_client(from) {
            Some(i) => i,
            None => {
                return out;
            },
        };
        assert(self.clients@[i as int]@ == before.client(from));
        if find_file(&self.files, name).is_some() {
            send_to(&self.clients[i], "ERR file already exists", &mut out);
            assert(effect_models(out@) =~= seq![line_to(from, "ERR file already exists"@)]);
            return out;
        }
        if let Err(error) = moved {
            send_to(
                &self.clients[i],
                concat2("ERR could not store file: ", error.as_str()).as_str(),
                &mut out,
            );
            assert(effect_models(out@) =~= on_upload(
                before,
                from,
                name@,
                size,
                result_text(moved),
            ).1);
            return out;
        }
        store_file(&mut self.files, FileMeta { name: name.to_owned(), size });
        send_to(&self.clients[i], concat2("OK ", name).as_str(), &mut out);
        let mut line: String = concat4(
            "SYS ",
            self.clients[i].nickname.as_str(),
            " uploaded ",
            name,
        );
        line.append(" (");
        line.append(to_decimal(size).as_str());
        line.append(" bytes)");
        broadcast(&self.clients, from, line.as_str(), &mut out);
        assert(effect_models(out@) =~= on_upload(before, from, name@, size, result_text(moved)).1);
        out
    }

    /// A command that the client with this address asked for has ended: what
    /// the client is told, where its output is this text.
    pub fn report_output(&self, address: Address, status: i32, output: &str, truncated: bool) -> (
        effects: Vec<Effect>)
        requires
            self.wf(),
        ensures
            effect_models(effects@) == on_exec_finished(
                self@,
                address,
                status,
                output@,
                truncated,
            ),
    {
        let mut out: Vec<Effect> = Vec::new();
        assert(effect_models(out@) =~= Seq::<EffectModel>::empty());
        if self.find_client(address).is_none() {
            return out;
        }
        let shown: Vec<String> = filled_lines(output);
        tell_all(address, "OUT ", &shown, &mut out);
        let ghost first = texts(shown@).map_values(|line: Seq<char>| "OUT "@ + line);
        if truncated {
            tell(address, "OUT [output truncated]", &mut out);
        }
        tell(address, concat2("EXEC_END ", to_signed_decimal(status).as_str()).as_str(), &mut out);
        proof {
            let wanted = exec_lines(status, output@, truncated);
            assert(wanted.take(first.len() as int) =~= first);
            assert(effect_models(out@) =~= lines_to(address, wanted));
        }
        out
    }

    /// A command that the client with this address asked for has ended.
    pub fn exec_finished(&self, address: Address, status: i32, output: &[u8], truncated: bool) -> (
        effects: Vec<Effect>)
        requires
            self.wf(),
        ensures
            effect_models(effects@) == on_exec_finished(
                self@,
                address,
                status,
                lossy_text(output@),
                truncated,
            ),
            valid_utf8(output@) ==> lossy_text(output@) == decode_utf8(output@),
    {
        let text: String = lossy(output);
        self.report_output(address, status, text.as_str(), truncated)
    }

    /// The language model has answered the client with this address, or could
    /// not be asked.
    pub fn llm_finished(&self, address: Address, result: Result<String, String>) -> (effects: Vec<
        Effect,
    >)
        requires
            self.wf(),
        ensures
            effect_models(effects@) == on_llm_finished(self@, address, answer_text(result)),
    {
        let mut out: Vec<Effect> = Vec::new();
        assert(effect_models(out@) =~= Seq::<EffectModel>::empty());
        if self.find_client(address).is_none() {
            return out;
        }
        match result {
            Ok(answer) => {
                if answer.as_str().is_empty() {
                    tell(address, "LLM ", &mut out);
                } else {
                    tell_all(address, "LLM ", &split_lines(answer.as_str()), &mut out);
                }
            },
            Err(error) => {
                tell(
                    address,
                    concat2("ERR llm request failed: ", error.as_str()).as_str(),
                    &mut out,
                );
            },
        }
        assert(effect_models(out@) =~= on_llm_finished(self@, address, answer_text(result)));
        out
    }

    /// The server is told something at `now`.
    pub fn handle(&mut self, event: ServerEvent, now: u64) -> (effects: Vec<Effect>)
        requires
            old(self).wf(),
        ensures
            final(self).wf(),
            (final(self)@, effect_models(effects@)) == on_event(old(self)@, event@, now),
            event matches ServerEvent::ExecFinished { output, .. } ==> valid_utf8(output@)
                ==> lossy_text(output@) == decode_utf8(output@),
    {
        match event {
            ServerEvent::Connected { address } => self.connected(address, now),
            ServerEvent::Disconnected { address } => self.disconnected(address),
            ServerEvent::LineReceived { address, line } => self.line_received(
                address,
                line.as_str(),
                now,
            ),
            ServerEvent::FileUploaded { from, name, size, moved } => self.file_uploaded(
                from,
                name.as_str(),
                size,
                moved,
            ),
            ServerEvent::ExecFinished { address, status, output, truncated } => self.exec_finished(
                address,
                status,
                output.as_slice(),
                truncated,
            ),
            ServerEvent::LlmFinished { address, result } => self.llm_finished(address, result),
        }
    }
}

/// The lines of `text` that are not empty.
fn filled_lines(text: &str) -> (filled: Vec<String>)
    ensures
        texts(filled@) == lines(text@).filter(|line: Seq<char>| line.len() > 0),
{
    let all: Vec<String> = split_lines(text);
    let mut filled: Vec<String> = Vec::new();
    let ghost given = lines(text@);
    let ghost keep = |line: Seq<char>| line.len() > 0;
    let mut i: usize = 0;
    proof {
        reveal(Seq::filter);
        assert(texts(filled@) =~= given.take(0).filter(keep));
    }
    while i < all.len()
        invariant
            i <= all.len(),
            given == texts(all@),
            keep == (|line: Seq<char>| line.len() > 0),
            texts(filled@) == given.take(i as int).filter(keep),
        decreases all.len() - i,
    {
        proof {
            reveal(Seq::filter);
            let next = given.take(i + 1);
            assert(next.drop_last() == given.take(i as int));
            assert(next.last() == all@[i as int]@);
        }
        if !all[i].as_str().is_empty() {
            let line: String = all[i].clone();
            assert(texts(filled@.push(line)) =~= texts(filled@).push(line@));
            filled.push(line);
        }
        i = i + 1;
    }
    assert(given.take(i as int) == given);
    filled
}

} // verus!
