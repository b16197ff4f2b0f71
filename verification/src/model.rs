//! What the server keeps and what it orders to be done: the types, and the
//! mathematical values that they stand for.

use vstd::prelude::*;
use crate::bans::{Address, Ip};
#[allow(unused_imports)]
use crate::names::{default_nickname, nickname_problem};
#[allow(unused_imports)]
use crate::text::{lower, same_ignoring_case};

verus! {

/// The least time between two lines of a client, in nanoseconds.
pub const MIN_MESSAGE_INTERVAL: u64 = 1_000_000_000;

/// How often in a row a client may be too quick before its host is banned.
pub const MAX_RATE_LIMIT_VIOLATIONS: u32 = 10;

/// How long a host is banned, in nanoseconds.
pub const BAN_DURATION: u64 = 600_000_000_000;

/// How many messages are remembered.
pub const HISTORY_LIMIT: usize = 1000;

/// How many of the messages a client is shown when it connects.
pub const HISTORY_ON_CONNECT: usize = 10;

// ---------------------------------------------------------------------------
// The types

/// A client that is connected.
pub struct Client {
    /// Its end of the connection. What is sent to the client is sent there.
    pub address: Address,
    pub nickname: String,
    /// When its last line came, in nanoseconds since the server started.
    pub last_message_at: Option<u64>,
    /// How often in a row it has been too quick.
    pub rate_limit_violations: u32,
}

/// A file that was uploaded.
pub struct FileMeta {
    pub name: String,
    pub size: u64,
}

/// What is written to a connection.
pub enum Outbound {
    /// A line of text.
    Line(String),
    /// The file of this name, and before it a line that says how long it is.
    File { name: String, size: u64 },
    /// Nothing more: the connection is shut down.
    Shutdown,
}

/// What the server says of itself.
pub enum Notice {
    Connected { address: Address, nickname: String },
    Disconnected { address: Address, nickname: String },
    Said { address: Address, nickname: String, text: String },
}

/// Something that the server orders to be done.
pub enum Effect {
    /// Write to the connection with this address.
    Send { to: Address, message: Outbound },
    /// Keep the connection that was announced: it is a client's now.
    Admit { address: Address },
    /// Forget the connection with this address.
    Forget { address: Address },
    /// Ask the language model, and report its answer.
    AskModel { address: Address, prompt: String },
    /// Run a command, and report its output.
    RunCommand { address: Address, command: String },
    /// Print a notice.
    Print(Notice),
}

/// Something that the server is told.
pub enum ServerEvent {
    /// A connection that has shown the right token.
    Connected { address: Address },
    /// A connection that is closed.
    Disconnected { address: Address },
    /// A line from a connection.
    LineReceived { address: Address, line: String },
    /// A file that was received. Where it was to be moved to the other files,
    /// `moved` says whether that went well, or what went wrong.
    FileUploaded { from: Address, name: String, size: u64, moved: Result<(), String> },
    /// A command that has ended.
    ExecFinished { address: Address, status: i32, output: Vec<u8>, truncated: bool },
    /// The answer of the language model, or what went wrong.
    LlmFinished { address: Address, result: Result<String, String> },
}

// ---------------------------------------------------------------------------
// Their values

/// The value of a [`Client`].
#[verifier::ext_equal]
pub struct ClientModel {
    pub address: Address,
    pub nickname: Seq<char>,
    pub last_message_at: Option<u64>,
    pub rate_limit_violations: u32,
}

/// The value of a [`FileMeta`].
#[verifier::ext_equal]
pub struct FileModel {
    pub name: Seq<char>,
    pub size: u64,
}

/// The value of an [`Outbound`].
#[verifier::ext_equal]
pub enum OutboundModel {
    Line(Seq<char>),
    File { name: Seq<char>, size: u64 },
    Shutdown,
}

/// The value of a [`Notice`].
#[verifier::ext_equal]
pub enum NoticeModel {
    Connected { address: Address, nickname: Seq<char> },
    Disconnected { address: Address, nickname: Seq<char> },
    Said { address: Address, nickname: Seq<char>, text: Seq<char> },
}

/// The value of an [`Effect`].
#[verifier::ext_equal]
pub enum EffectModel {
    Send { to: Address, message: OutboundModel },
    Admit { address: Address },
    Forget { address: Address },
    AskModel { address: Address, prompt: Seq<char> },
    RunCommand { address: Address, command: Seq<char> },
    Print(NoticeModel),
}

impl View for Client {
    type V = ClientModel;

    open spec fn view(&self) -> ClientModel {
        ClientModel {
            address: self.address,
            nickname: self.nickname@,
            last_message_at: self.last_message_at,
            rate_limit_violations: self.rate_limit_violations,
        }
    }
}

impl View for FileMeta {
    type V = FileModel;

    open spec fn view(&self) -> FileModel {
        FileModel { name: self.name@, size: self.size }
    }
}

impl View for Outbound {
    type V = OutboundModel;

    open spec fn view(&self) -> OutboundModel {
        match self {
            Outbound::Line(line) => OutboundModel::Line(line@),
            Outbound::File { name, size } => OutboundModel::File { name: name@, size: *size },
            Outbound::Shutdown => OutboundModel::Shutdown,
        }
    }
}

impl View for Notice {
    type V = NoticeModel;

    open spec fn view(&self) -> NoticeModel {
        match self {
            Notice::Connected { address, nickname } => NoticeModel::Connected {
                address: *address,
                nickname: nickname@,
            },
            Notice::Disconnected { address, nickname } => NoticeModel::Disconnected {
                address: *address,
                nickname: nickname@,
            },
            Notice::Said { address, nickname, text } => NoticeModel::Said {
                address: *address,
                nickname: nickname@,
                text: text@,
            },
        }
    }
}

impl View for Effect {
    type V = EffectModel;

    open spec fn view(&self) -> EffectModel {
        match self {
            Effect::Send { to, message } => EffectModel::Send { to: *to, message: message@ },
            Effect::Admit { address } => EffectModel::Admit { address: *address },
            Effect::Forget { address } => EffectModel::Forget { address: *address },
            Effect::AskModel { address, prompt } => EffectModel::AskModel {
                address: *address,
                prompt: prompt@,
            },
            Effect::RunCommand { address, command } => EffectModel::RunCommand {
                address: *address,
                command: command@,
            },
            Effect::Print(notice) => EffectModel::Print(notice@),
        }
    }
}

/// The value of a [`ServerEvent`].
#[verifier::ext_equal]
pub enum EventModel {
    Connected { address: Address },
    Disconnected { address: Address },
    LineReceived { address: Address, line: Seq<char> },
    FileUploaded { from: Address, name: Seq<char>, size: u64, moved: Result<(), Seq<char>> },
    ExecFinished { address: Address, status: i32, output: Seq<u8>, truncated: bool },
    LlmFinished { address: Address, result: Result<Seq<char>, Seq<char>> },
}

/// What went wrong, as text.
pub open spec fn result_text(result: Result<(), String>) -> Result<(), Seq<char>> {
    match result {
        Ok(()) => Ok(()),
        Err(error) => Err(error@),
    }
}

/// An answer, or what went wrong, as text.
pub open spec fn answer_text(result: Result<String, String>) -> Result<Seq<char>, Seq<char>> {
    match result {
        Ok(answer) => Ok(answer@),
        Err(error) => Err(error@),
    }
}

impl View for ServerEvent {
    type V = EventModel;

    open spec fn view(&self) -> EventModel {
        match self {
            ServerEvent::Connected { address } => EventModel::Connected { address: *address },
            ServerEvent::Disconnected { address } => EventModel::Disconnected { address: *address },
            ServerEvent::LineReceived { address, line } => EventModel::LineReceived {
                address: *address,
                line: line@,
            },
            ServerEvent::FileUploaded { from, name, size, moved } => EventModel::FileUploaded {
                from: *from,
                name: name@,
                size: *size,
                moved: result_text(*moved),
            },
            ServerEvent::ExecFinished { address, status, output, truncated } => {
                EventModel::ExecFinished {
                    address: *address,
                    status: *status,
                    output: output@,
                    truncated: *truncated,
                }
            },
            ServerEvent::LlmFinished { address, result } => EventModel::LlmFinished {
                address: *address,
                result: answer_text(*result),
            },
        }
    }
}

/// The values of clients.
pub open spec fn client_models(clients: Seq<Client>) -> Seq<ClientModel> {
    clients.map_values(|client: Client| client@)
}

/// The values of files.
pub open spec fn file_models(files: Seq<FileMeta>) -> Seq<FileModel> {
    files.map_values(|file: FileMeta| file@)
}

/// The values of effects.
pub open spec fn effect_models(effects: Seq<Effect>) -> Seq<EffectModel> {
    effects.map_values(|effect: Effect| effect@)
}

// ---------------------------------------------------------------------------
// Clients

/// Whether a client has this address.
pub open spec fn has_client(clients: Seq<ClientModel>, address: Address) -> bool {
    exists|i: int| 0 <= i < clients.len() && (#[trigger] clients[i]).address == address
}

/// Where the client with this address is.
pub open spec fn client_slot(clients: Seq<ClientModel>, address: Address) -> int {
    choose|i: int| 0 <= i < clients.len() && (#[trigger] clients[i]).address == address
}

/// The client with this address.
pub open spec fn client_at(clients: Seq<ClientModel>, address: Address) -> ClientModel {
    clients[client_slot(clients, address)]
}

/// The clients, with `client` in the place of the one that has its address, or
/// at the end where none has.
pub open spec fn put_client(clients: Seq<ClientModel>, client: ClientModel) -> Seq<ClientModel> {
    if has_client(clients, client.address) {
        clients.update(client_slot(clients, client.address), client)
    } else {
        clients.push(client)
    }
}

/// The clients but the one with this address.
pub open spec fn drop_client(clients: Seq<ClientModel>, address: Address) -> Seq<ClientModel> {
    clients.remove(client_slot(clients, address))
}

/// Whether a client with another address has this nickname, in whatever case.
pub open spec fn nickname_taken(
    clients: Seq<ClientModel>,
    address: Address,
    nickname: Seq<char>,
) -> bool {
    exists|i: int|
        0 <= i < clients.len() && (#[trigger] clients[i]).address != address && same_ignoring_case(
            clients[i].nickname,
            nickname,
        )
}

/// No two clients have the same address.
pub open spec fn addresses_unique(clients: Seq<ClientModel>) -> bool {
    forall|i: int, j: int|
        0 <= i < j < clients.len() ==> (#[trigger] clients[i]).address != (
        #[trigger] clients[j]).address
}

/// Each nickname is the one that the server gave, or one that may be asked for.
pub open spec fn nicknames_proper(clients: Seq<ClientModel>) -> bool {
    forall|i: int|
        0 <= i < clients.len() ==> (#[trigger] clients[i]).nickname == default_nickname(
            clients[i].address.port,
        ) || nickname_problem(clients[i].nickname) is None
}

/// No client has a nickname that another one asked for and got, in whatever
/// case.
pub open spec fn nicknames_unique(clients: Seq<ClientModel>) -> bool {
    forall|i: int, j: int|
        0 <= i < clients.len() && 0 <= j < clients.len() && i != j && nickname_problem(
            (#[trigger] clients[i]).nickname,
        ) is None ==> !same_ignoring_case(clients[i].nickname, (#[trigger] clients[j]).nickname)
}

/// No client has used up its violations: one that does is removed.
pub open spec fn violations_bounded(clients: Seq<ClientModel>) -> bool {
    forall|i: int|
        0 <= i < clients.len() ==> (#[trigger] clients[i]).rate_limit_violations
            < MAX_RATE_LIMIT_VIOLATIONS
}

// ---------------------------------------------------------------------------
// Files

/// Whether there is a file of this name.
pub open spec fn has_file(files: Seq<FileModel>, name: Seq<char>) -> bool {
    exists|i: int| 0 <= i < files.len() && (#[trigger] files[i]).name == name
}

/// Where the file of this name is.
pub open spec fn file_slot(files: Seq<FileModel>, name: Seq<char>) -> int {
    choose|i: int| 0 <= i < files.len() && (#[trigger] files[i]).name == name
}

/// The size of the file of this name.
pub open spec fn file_size(files: Seq<FileModel>, name: Seq<char>) -> u64 {
    files[file_slot(files, name)].size
}

/// The files, with `file` in the place of the one of its name, or at the end
/// where there is none.
pub open spec fn put_file(files: Seq<FileModel>, file: FileModel) -> Seq<FileModel> {
    if has_file(files, file.name) {
        files.update(file_slot(files, file.name), file)
    } else {
        files.push(file)
    }
}

/// No two files have the same name.
pub open spec fn files_unique(files: Seq<FileModel>) -> bool {
    forall|i: int, j: int|
        0 <= i < j < files.len() ==> (#[trigger] files[i]).name != (#[trigger] files[j]).name
}

// ---------------------------------------------------------------------------
// The server

/// The value of the server.
#[verifier::ext_equal]
pub struct ServerModel {
    /// The clients, in the order in which they came.
    pub clients: Seq<ClientModel>,
    /// Until when each host is banned.
    pub banned: Map<Ip, u128>,
    /// The messages that are remembered, the oldest first.
    pub history: Seq<Seq<char>>,
    /// The files that were uploaded.
    pub files: Seq<FileModel>,
}

/// Each ban ends no later than its length after a time that can be counted.
pub open spec fn bans_bounded(banned: Map<Ip, u128>) -> bool {
    forall|ip: Ip| banned.contains_key(ip) ==> #[trigger] banned[ip] <= u64::MAX + BAN_DURATION
}

impl ServerModel {
    /// What holds of the server at any time.
    pub open spec fn valid(self) -> bool {
        &&& addresses_unique(self.clients)
        &&& nicknames_proper(self.clients)
        &&& nicknames_unique(self.clients)
        &&& violations_bounded(self.clients)
        &&& bans_bounded(self.banned)
        &&& self.history.len() <= HISTORY_LIMIT
        &&& files_unique(self.files)
    }

    /// Whether a client has this address.
    pub open spec fn knows(self, address: Address) -> bool {
        has_client(self.clients, address)
    }

    /// The client with this address.
    pub open spec fn client(self, address: Address) -> ClientModel {
        client_at(self.clients, address)
    }
}

// ---------------------------------------------------------------------------
// Facts about clients and files

/// The client at `i` is the one with its address.
pub proof fn lemma_client_slot(clients: Seq<ClientModel>, i: int)
    requires
        addresses_unique(clients),
        0 <= i < clients.len(),
    ensures
        has_client(clients, clients[i].address),
        client_slot(clients, clients[i].address) == i,
{
    let a = clients[i].address;
    assert(clients[i].address == a);
    let j = client_slot(clients, a);
    assert(0 <= j < clients.len() && clients[j].address == a);
    if j < i {
        assert(clients[j].address != clients[i].address);
    } else if i < j {
        assert(clients[i].address != clients[j].address);
    }
}

/// The file at `i` is the one of its name.
pub proof fn lemma_file_slot(files: Seq<FileModel>, i: int)
    requires
        files_unique(files),
        0 <= i < files.len(),
    ensures
        has_file(files, files[i].name),
        file_slot(files, files[i].name) == i,
{
    let n = files[i].name;
    assert(files[i].name == n);
    let j = file_slot(files, n);
    assert(0 <= j < files.len() && files[j].name == n);
    if j < i {
        assert(files[j].name != files[i].name);
    } else if i < j {
        assert(files[i].name != files[j].name);
    }
}

/// A file that is put keeps the names unique.
pub proof fn lemma_put_file(files: Seq<FileModel>, file: FileModel)
    requires
        files_unique(files),
    ensures
        files_unique(put_file(files, file)),
        has_file(put_file(files, file), file.name),
        file_size(put_file(files, file), file.name) == file.size,
{
    let after = put_file(files, file);
    let at = if has_file(files, file.name) {
        file_slot(files, file.name)
    } else {
        files.len() as int
    };
    assert(after[at] == file);
    assert forall|i: int, j: int| 0 <= i < j < after.len() implies (#[trigger] after[i]).name != (
    #[trigger] after[j]).name by {
        if i != at {
            assert(after[i] == files[i]);
        }
        if j != at {
            assert(after[j] == files[j]);
        }
        if at < files.len() {
            assert(files[i].name != files[j].name);
        }
    }
    lemma_file_slot(after, at);
}

/// A nickname that may be asked for is none that the server gives, in whatever
/// case.
pub proof fn lemma_chosen_is_not_given(chosen: Seq<char>, port: u16)
    requires
        nickname_problem(chosen) is None,
    ensures
        !same_ignoring_case(chosen, default_nickname(port)),
        !same_ignoring_case(default_nickname(port), chosen),
{
    reveal_strlit("user#");
    let given = default_nickname(port);
    let a = chosen.map_values(|c: char| lower(c));
    let b = given.map_values(|c: char| lower(c));
    if a == b {
        assert(a.len() == b.len());
        assert(given[4] == '#');
        assert(b[4] == '#');
        assert(a[4] == lower(chosen[4]));
        assert(crate::names::nickname_char(chosen[4]));
    }
}

} // verus!
