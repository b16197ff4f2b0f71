use hat::bans::{Address, Ip};
use hat::model::{
    Client, Effect, Notice, Outbound, ServerEvent, BAN_DURATION, HISTORY_LIMIT,
    MIN_MESSAGE_INTERVAL,
};
use hat::rules::UploadPlan;
use hat::server::{broadcast, load_files, send_to, DirEntry, Server};

const SECOND: u64 = 1_000_000_000;

fn at(host: u32, port: u16) -> Address {
    Address { ip: Ip::V4(host), port, flow_info: 0, scope_id: 0 }
}

fn show(effects: &[Effect]) -> Vec<String> {
    effects
        .iter()
        .map(|effect| match effect {
            Effect::Send { to, message } => match message {
                Outbound::Line(line) => format!("{} <- {line}", to.port),
                Outbound::File { name, size } => format!("{} <= {name} {size}", to.port),
                Outbound::Shutdown => format!("{} shut down", to.port),
            },
            Effect::Admit { address } => format!("{} in", address.port),
            Effect::Forget { address } => format!("{} out", address.port),
            Effect::AskModel { address, prompt } => format!("{} asks {prompt}", address.port),
            Effect::RunCommand { address, command } => format!("{} runs {command}", address.port),
            Effect::Print(notice) => match notice {
                Notice::Connected { address, nickname } => {
                    format!("print {} connected as {nickname}", address.port)
                }
                Notice::Disconnected { address, nickname } => {
                    format!("print {} ({nickname}) disconnected", address.port)
                }
                Notice::Said { address, nickname, text } => {
                    format!("print {} ({nickname}): {text}", address.port)
                }
            },
        })
        .collect()
}

fn file(name: &str, size: u64) -> DirEntry {
    DirEntry { name: Some(name.to_owned()), is_file: true, size: Some(size) }
}

/// A server with clients at ports 1, 2 and so on, each on a host of its own.
fn server_with(count: u16) -> Server {
    let mut server = Server::new(&Vec::new());
    for port in 1..=count {
        server.connected(at(u32::from(port), port), 0);
    }
    server
}

fn say(server: &mut Server, port: u16, line: &str, now: u64) -> Vec<String> {
    show(&server.line_received(at(u32::from(port), port), line, now))
}

#[test]
fn line_is_sent_to_one_client() {
    let client = Client {
        address: at(9, 9),
        nickname: "alice".to_owned(),
        last_message_at: None,
        rate_limit_violations: 0,
    };
    let mut out = Vec::new();
    send_to(&client, "SYS hello", &mut out);
    assert_eq!(show(&out), vec!["9 <- SYS hello"]);
    send_to(&client, "SYS again", &mut out);
    assert_eq!(show(&out), vec!["9 <- SYS hello", "9 <- SYS again"]);
}

#[test]
fn line_is_sent_to_all_but_one() {
    let clients: Vec<Client> = (1..=3u16)
        .map(|port| Client {
            address: at(1, port),
            nickname: format!("n{port}"),
            last_message_at: None,
            rate_limit_violations: 0,
        })
        .collect();
    let mut out = Vec::new();
    broadcast(&clients, at(1, 2), "X", &mut out);
    assert_eq!(show(&out), vec!["1 <- X", "3 <- X"]);
    let mut out = Vec::new();
    broadcast(&clients, at(2, 2), "X", &mut out);
    assert_eq!(out.len(), 3);
}

#[test]
fn newcomer_is_welcomed() {
    let mut server = Server::new(&Vec::new());
    assert_eq!(
        show(&server.connected(at(1, 50001), 0)),
        vec!["50001 <- YOU user#50001", "print 50001 connected as user#50001", "50001 in"]
    );
    assert_eq!(
        show(&server.connected(at(2, 50002), 0)),
        vec![
            "50002 <- YOU user#50002",
            "50001 <- SYS user#50002 joined the chat",
            "print 50002 connected as user#50002",
            "50002 in",
        ]
    );
}

#[test]
fn newcomer_is_shown_the_last_messages() {
    let mut server = server_with(1);
    for i in 0..12u64 {
        say(&mut server, 1, &format!("MSG m{i}"), (i + 1) * SECOND);
    }
    let effects = show(&server.connected(at(2, 2), 20 * SECOND));
    let shown: Vec<&str> = effects
        .iter()
        .filter(|effect| effect.starts_with("2 <- MSG"))
        .map(|effect| effect.as_str())
        .collect();
    assert_eq!(shown.len(), 10);
    assert_eq!(shown[0], "2 <- MSG user#1 m2");
    assert_eq!(shown[9], "2 <- MSG user#1 m11");
    assert_eq!(effects[0], "2 <- YOU user#2");
}

#[test]
fn history_is_the_last_messages() {
    let mut server = server_with(1);
    let total = HISTORY_LIMIT as u64 + 3;
    for i in 0..total {
        say(&mut server, 1, &format!("MSG {i}"), (i + 1) * SECOND);
    }
    let effects = show(&server.connected(at(2, 2), (total + 1) * SECOND));
    assert_eq!(effects[1], format!("2 <- MSG user#1 {}", total - 10));
    assert_eq!(effects[10], format!("2 <- MSG user#1 {}", total - 1));
    assert_eq!(HISTORY_LIMIT, 1000);
}

#[test]
fn leaving_is_announced() {
    let mut server = server_with(3);
    assert_eq!(
        show(&server.disconnected(at(2, 2))),
        vec![
            "print 2 (user#2) disconnected",
            "1 <- SYS user#2 left the chat",
            "3 <- SYS user#2 left the chat",
            "2 out",
        ]
    );
    assert_eq!(show(&server.disconnected(at(2, 2))), Vec::<String>::new());
}

#[test]
fn message_reaches_all_others() {
    let mut server = server_with(3);
    assert_eq!(
        say(&mut server, 2, "MSG   hello there \t", SECOND),
        vec![
            "print 2 (user#2): hello there",
            "1 <- MSG user#2 hello there",
            "3 <- MSG user#2 hello there",
        ]
    );
}

#[test]
fn sender_of_a_message_cannot_be_forged() {
    let mut server = server_with(2);
    assert_eq!(
        say(&mut server, 2, "MSG user#1 hello", SECOND)[1],
        "1 <- MSG user#2 user#1 hello"
    );
}

#[test]
fn empty_message_is_refused() {
    let mut server = server_with(2);
    assert_eq!(say(&mut server, 1, "MSG", SECOND), vec!["1 <- ERR message cannot be empty"]);
    assert_eq!(say(&mut server, 1, "MSG  ", 2 * SECOND), vec!["1 <- ERR message cannot be empty"]);
    assert_eq!(say(&mut server, 1, "MSG\tx", 3 * SECOND), vec!["1 <- ERR unknown protocol command"]);
}

#[test]
fn strangers_are_ignored() {
    let mut server = server_with(1);
    assert_eq!(say(&mut server, 7, "MSG hello", SECOND), Vec::<String>::new());
    // The port alone does not make a client.
    let effects = server.line_received(at(7, 1), "MSG hello", SECOND);
    assert_eq!(show(&effects), Vec::<String>::new());
}

#[test]
fn quick_line_is_not_heard() {
    let mut server = server_with(2);
    say(&mut server, 1, "MSG one", 10 * SECOND);
    assert_eq!(
        say(&mut server, 1, "MSG two", 11 * SECOND - 1),
        vec!["1 <- ERR you are sending messages too quickly"]
    );
    // The time runs from the line that was too quick.
    assert_eq!(
        say(&mut server, 1, "MSG three", 11 * SECOND + 1),
        vec!["1 <- ERR you are sending messages too quickly"]
    );
    assert_eq!(MIN_MESSAGE_INTERVAL, SECOND);
}

#[test]
fn patience_is_rewarded() {
    let mut server = server_with(2);
    let mut now = SECOND;
    // Nine times too quick, then patient: the count starts again.
    for _ in 0..3 {
        say(&mut server, 1, "MSG x", now);
        for _ in 0..9 {
            now += 1;
            assert_eq!(
                say(&mut server, 1, "MSG x", now),
                vec!["1 <- ERR you are sending messages too quickly"]
            );
        }
        now += SECOND;
        assert_eq!(say(&mut server, 1, "MSG y", now).len(), 2);
        now += SECOND;
    }
}

fn ban(server: &mut Server, port: u16, start: u64) -> (Vec<String>, u64) {
    let mut now = start;
    say(server, port, "MSG x", now);
    for _ in 0..9 {
        now += 1;
        say(server, port, "MSG x", now);
    }
    now += 1;
    (say(server, port, "MSG x", now), now)
}

#[test]
fn tenth_quick_line_bans() {
    let mut server = server_with(2);
    let (effects, _) = ban(&mut server, 1, SECOND);
    assert_eq!(
        effects,
        vec![
            "1 <- ERR you are sending messages too quickly",
            "1 <- ERR too many rapid messages; you are banned for 10 minutes",
            "1 shut down",
            "print 1 (user#1) disconnected",
            "2 <- SYS user#1 left the chat",
            "1 out",
        ]
    );
    // The client is gone.
    assert_eq!(say(&mut server, 1, "MSG x", 100 * SECOND), Vec::<String>::new());
}

#[test]
fn banned_host_is_refused() {
    let mut server = server_with(2);
    let (_, banned_at) = ban(&mut server, 1, SECOND);
    assert_eq!(
        show(&server.connected(at(1, 77), banned_at)),
        vec!["77 <- ERR temporarily banned; try again in 601 seconds", "77 shut down"]
    );
    assert_eq!(
        show(&server.connected(at(1, 77), banned_at + BAN_DURATION - 1)),
        vec!["77 <- ERR temporarily banned; try again in 1 seconds", "77 shut down"]
    );
    // Other hosts come in.
    assert_eq!(show(&server.connected(at(3, 78), banned_at))[0], "78 <- YOU user#78");
}

#[test]
fn ban_ends() {
    let mut server = server_with(1);
    let (_, banned_at) = ban(&mut server, 1, SECOND);
    let effects = show(&server.connected(at(1, 77), banned_at + BAN_DURATION));
    assert_eq!(effects[0], "77 <- YOU user#77");
    assert_eq!(BAN_DURATION, 600 * SECOND);
}

#[test]
fn nickname_is_changed() {
    let mut server = server_with(3);
    assert_eq!(
        say(&mut server, 1, "NICK  alice ", SECOND),
        vec!["1 <- YOU alice", "2 <- NICK user#1 alice", "3 <- NICK user#1 alice"]
    );
    assert_eq!(say(&mut server, 1, "MSG hi", 2 * SECOND)[1], "2 <- MSG alice hi");
    // One's own nickname is free to oneself, in another case too.
    assert_eq!(say(&mut server, 1, "NICK ALICE", 3 * SECOND)[0], "1 <- YOU ALICE");
}

#[test]
fn nickname_is_refused() {
    let mut server = server_with(2);
    say(&mut server, 1, "NICK Bob", SECOND);
    assert_eq!(
        say(&mut server, 2, "NICK bob", SECOND),
        vec!["2 <- ERR nickname is already in use"]
    );
    assert_eq!(
        say(&mut server, 2, "NICK", 2 * SECOND),
        vec!["2 <- ERR nickname cannot be empty"]
    );
    assert_eq!(
        say(&mut server, 2, "NICK abcdefghijklmnopq", 3 * SECOND),
        vec!["2 <- ERR nickname is too long (maximum: 16 characters)"]
    );
    assert_eq!(
        say(&mut server, 2, "NICK user#1", 4 * SECOND),
        vec!["2 <- ERR nickname may only contain letters, numbers, '_' and '-'"]
    );
    // Nothing has changed.
    assert_eq!(say(&mut server, 2, "MSG x", 5 * SECOND)[1], "1 <- MSG user#2 x");
}

#[test]
fn unknown_command_is_answered() {
    let mut server = server_with(2);
    for (i, line) in ["", "msg x", "QUIT", " MSG x", "FILES"].iter().enumerate() {
        assert_eq!(
            say(&mut server, 1, line, (i as u64 + 1) * SECOND),
            vec!["1 <- ERR unknown protocol command"]
        );
    }
}

#[test]
fn model_is_asked() {
    let mut server = server_with(2);
    assert_eq!(say(&mut server, 1, "LLM  why? ", SECOND), vec!["1 asks why?"]);
    assert_eq!(say(&mut server, 1, "LLM ", 2 * SECOND), vec!["1 <- ERR usage: /llm <prompt>"]);
}

#[test]
fn command_is_run() {
    let mut server = server_with(2);
    assert_eq!(say(&mut server, 1, "EXEC  ls -l ", SECOND), vec!["1 runs  ls -l "]);
    assert_eq!(say(&mut server, 1, "EXEC ", 2 * SECOND), vec!["1 <- ERR empty command"]);
    assert_eq!(say(&mut server, 1, "EXEC", 3 * SECOND), vec!["1 <- ERR empty command"]);
}

#[test]
fn files_are_loaded() {
    let entries = vec![
        file("b.txt", 20),
        DirEntry { name: Some("dir".to_owned()), is_file: false, size: Some(1) },
        file("a.txt.5.part", 3),
        DirEntry { name: None, is_file: true, size: Some(1) },
        DirEntry { name: Some("unreadable".to_owned()), is_file: true, size: None },
        file("a.txt", 10),
    ];
    let files = load_files(&entries);
    let found: Vec<(&str, u64)> = files.iter().map(|f| (f.name.as_str(), f.size)).collect();
    assert_eq!(found, vec![("b.txt", 20), ("a.txt", 10)]);
}

#[test]
fn files_are_listed_in_order() {
    let mut server = Server::new(&vec![file("b", 2), file("a", 10), file("B", 3)]);
    server.connected(at(1, 1), 0);
    assert_eq!(say(&mut server, 1, "LS", SECOND), vec!["1 <- FILES B:3,a:10,b:2"]);
    let mut server = server_with(1);
    assert_eq!(say(&mut server, 1, "LS anything", SECOND), vec!["1 <- FILES "]);
}

#[test]
fn stored_file_is_found() {
    let mut server = server_with(2);
    assert_eq!(say(&mut server, 1, "GET a.txt", SECOND), vec!["1 <- ERR file not found"]);
    assert_eq!(server.plan_upload(at(1, 1), "a.txt"), UploadPlan::Store);
    assert_eq!(
        show(&server.file_uploaded(at(1, 1), "a.txt", 12, Ok(()))),
        vec!["1 <- OK a.txt", "2 <- SYS user#1 uploaded a.txt (12 bytes)"]
    );
    assert_eq!(say(&mut server, 2, "GET  a.txt ", SECOND), vec!["2 <= a.txt 12"]);
    assert_eq!(say(&mut server, 2, "LS", 2 * SECOND), vec!["2 <- FILES a.txt:12"]);
}

#[test]
fn second_upload_is_refused() {
    let mut server = Server::new(&vec![file("a.txt", 1)]);
    server.connected(at(1, 1), 0);
    assert_eq!(server.plan_upload(at(1, 1), "a.txt"), UploadPlan::Refuse);
    assert_eq!(
        show(&server.file_uploaded(at(1, 1), "a.txt", 12, Ok(()))),
        vec!["1 <- ERR file already exists"]
    );
    assert_eq!(say(&mut server, 1, "GET a.txt", SECOND), vec!["1 <= a.txt 1"]);
}

#[test]
fn upload_of_a_client_that_is_gone_is_dropped() {
    let mut server = server_with(1);
    assert_eq!(server.plan_upload(at(9, 9), "a.txt"), UploadPlan::Discard);
    assert_eq!(
        show(&server.file_uploaded(at(9, 9), "a.txt", 12, Ok(()))),
        Vec::<String>::new()
    );
    assert_eq!(say(&mut server, 1, "GET a.txt", SECOND), vec!["1 <- ERR file not found"]);
}

#[test]
fn upload_that_cannot_be_moved_is_told() {
    let mut server = server_with(2);
    assert_eq!(
        show(&server.file_uploaded(at(1, 1), "a.txt", 12, Err("disk full".to_owned()))),
        vec!["1 <- ERR could not store file: disk full"]
    );
    assert_eq!(say(&mut server, 1, "GET a.txt", SECOND), vec!["1 <- ERR file not found"]);
}

#[test]
fn output_of_a_command_is_told() {
    let server = server_with(1);
    assert_eq!(
        show(&server.exec_finished(at(1, 1), 3, b"one\n\ntwo\r\n\xffthree", false)),
        vec!["1 <- OUT one", "1 <- OUT two", "1 <- OUT \u{fffd}three", "1 <- EXEC_END 3"]
    );
    assert_eq!(
        show(&server.exec_finished(at(1, 1), -1, b"", true)),
        vec!["1 <- OUT [output truncated]", "1 <- EXEC_END -1"]
    );
    assert_eq!(
        show(&server.report_output(at(1, 1), 0, "done", false)),
        vec!["1 <- OUT done", "1 <- EXEC_END 0"]
    );
    assert_eq!(
        show(&server.exec_finished(at(9, 9), 0, b"x", false)),
        Vec::<String>::new()
    );
}

#[test]
fn answer_of_the_model_is_told() {
    let server = server_with(1);
    assert_eq!(
        show(&server.llm_finished(at(1, 1), Ok("one\n\ntwo".to_owned()))),
        vec!["1 <- LLM one", "1 <- LLM ", "1 <- LLM two"]
    );
    assert_eq!(show(&server.llm_finished(at(1, 1), Ok(String::new()))), vec!["1 <- LLM "]);
    assert_eq!(
        show(&server.llm_finished(at(1, 1), Err("timeout".to_owned()))),
        vec!["1 <- ERR llm request failed: timeout"]
    );
    assert_eq!(
        show(&server.llm_finished(at(9, 9), Ok("x".to_owned()))),
        Vec::<String>::new()
    );
}

#[test]
fn any_event_is_handled() {
    let mut server = Server::new(&Vec::new());
    let address = at(1, 1);
    assert_eq!(server.handle(ServerEvent::Connected { address }, 0).len(), 3);
    let line = "MSG hi".to_owned();
    assert_eq!(
        show(&server.handle(ServerEvent::LineReceived { address, line }, SECOND)),
        vec!["print 1 (user#1): hi"]
    );
    assert_eq!(
        show(&server.handle(
            ServerEvent::FileUploaded {
                from: address,
                name: "f".to_owned(),
                size: 1,
                moved: Ok(())
            },
            SECOND
        )),
        vec!["1 <- OK f"]
    );
    assert_eq!(
        show(&server.handle(
            ServerEvent::ExecFinished {
                address,
                status: 0,
                output: b"out".to_vec(),
                truncated: false
            },
            SECOND
        )),
        vec!["1 <- OUT out", "1 <- EXEC_END 0"]
    );
    assert_eq!(
        show(&server.handle(
            ServerEvent::LlmFinished { address, result: Ok("a".to_owned()) },
            SECOND
        )),
        vec!["1 <- LLM a"]
    );
    assert_eq!(
        show(&server.handle(ServerEvent::Disconnected { address }, SECOND)),
        vec!["print 1 (user#1) disconnected", "1 out"]
    );
}

#[test]
fn files_are_kept() {
    let mut server = Server::new(&vec![file("a.txt", 1)]);
    server.connected(at(1, 1), 0);
    server.file_uploaded(at(1, 1), "b.txt", 2, Ok(()));
    server.file_uploaded(at(1, 1), "a.txt", 3, Ok(()));
    say(&mut server, 1, "NICK al", SECOND);
    server.disconnected(at(1, 1));
    server.connected(at(2, 2), 2 * SECOND);
    assert_eq!(say(&mut server, 2, "LS", 3 * SECOND), vec!["2 <- FILES a.txt:1,b.txt:2"]);
}

#[test]
fn other_requests_are_private() {
    let mut server = server_with(3);
    for (i, line) in ["LS", "GET x", "LLM hi", "EXEC ls", "WHAT"].iter().enumerate() {
        let effects = say(&mut server, 1, line, (i as u64 + 1) * SECOND);
        assert_eq!(effects.len(), 1);
        assert!(effects[0].starts_with("1 "), "{line}");
    }
}

#[test]
fn ban_outlasts_what_happens() {
    let mut server = server_with(3);
    let (_, banned_at) = ban(&mut server, 1, SECOND);
    let mut now = banned_at;
    while now + 60 * SECOND < banned_at + BAN_DURATION {
        now += 60 * SECOND;
        say(&mut server, 2, "MSG still here", now);
        server.connected(at(4, 4), now);
        server.disconnected(at(4, 4));
        assert_eq!(show(&server.connected(at(1, 77), now))[1], "77 shut down");
        assert_eq!(
            show(&server.line_received(at(1, 77), "MSG x", now)),
            Vec::<String>::new()
        );
    }
    assert_eq!(
        show(&server.connected(at(1, 77), banned_at + BAN_DURATION))[0],
        "77 <- YOU user#77"
    );
}

#[test]
fn second_ban_of_a_host_does_not_shorten_the_first() {
    let mut server = Server::new(&Vec::new());
    server.connected(at(1, 1), 0);
    server.connected(at(1, 2), 0);
    let rush = |server: &mut Server, port: u16, start: u64| {
        for i in 0..11 {
            server.line_received(at(1, port), "MSG x", start + i);
        }
    };
    rush(&mut server, 1, SECOND);
    rush(&mut server, 2, 100 * SECOND);
    let effects = show(&server.connected(at(1, 3), SECOND + 10 + BAN_DURATION));
    assert_eq!(effects[1], "3 shut down");
}

#[test]
fn message_carries_the_nickname_last_told() {
    let mut server = server_with(2);
    let mut told = "user#1".to_owned();
    let mut now = SECOND;
    for line in ["NICK ann", "NICK a b", "NICK user#2", "NICK Bob", "NICK ", "NICK bob"] {
        for effect in say(&mut server, 1, line, now) {
            if let Some(name) = effect.strip_prefix("1 <- YOU ") {
                told = name.to_owned();
            }
        }
        now += SECOND;
        let heard = say(&mut server, 1, "MSG YOU eve", now);
        assert_eq!(heard[1], format!("2 <- MSG {told} YOU eve"));
        now += SECOND;
    }
    assert_eq!(told, "bob");
}

#[test]
fn leaving_twice_is_leaving_once() {
    let mut server = server_with(3);
    let mut out = Vec::new();
    server.remove_client(at(2, 2), &mut out);
    assert_eq!(out.len(), 4);
    server.remove_client(at(2, 2), &mut out);
    assert_eq!(out.len(), 4);
    assert_eq!(say(&mut server, 1, "MSG x", SECOND).len(), 2);
}

#[test]
fn lines_are_heard_at_any_time() {
    let mut server = server_with(2);
    assert_eq!(say(&mut server, 1, "MSG late", u64::MAX)[1], "2 <- MSG user#1 late");
    assert_eq!(
        say(&mut server, 1, "MSG later", u64::MAX),
        vec!["1 <- ERR you are sending messages too quickly"]
    );
}

#[test]
fn ban_at_the_end_of_time_lasts() {
    let mut server = server_with(2);
    let (effects, banned_at) = ban(&mut server, 1, u64::MAX - 10);
    assert_eq!(banned_at, u64::MAX);
    assert_eq!(effects[1], "1 <- ERR too many rapid messages; you are banned for 10 minutes");
    assert_eq!(
        show(&server.connected(at(1, 77), u64::MAX)),
        vec!["77 <- ERR temporarily banned; try again in 601 seconds", "77 shut down"]
    );
}

#[test]
fn lines_of_a_banned_host_do_not_move_its_ban() {
    let mut server = Server::new(&Vec::new());
    server.connected(at(1, 1), 0);
    server.connected(at(1, 2), 0);
    let (_, banned_at) = ban(&mut server, 1, SECOND);
    // Another client of the host goes on, and is too quick now and then.
    for i in 0..5 {
        let now = banned_at + (i + 1) * 60 * SECOND;
        server.line_received(at(1, 2), "MSG x", now);
        server.line_received(at(1, 2), "MSG x", now + 1);
    }
    let end = banned_at + BAN_DURATION;
    assert_eq!(show(&server.connected(at(1, 3), end - 1))[1], "3 shut down");
    assert_eq!(show(&server.connected(at(1, 3), end))[0], "3 <- YOU user#3");
}
