use hat::client::{ClientAction, Ctx, MsgKind};
use hat::screen::{background, chat_window, kind_color, status_bar, Input, Rect, Rgb, Row, Screen};

const TIME: &str = "08:00:00";

fn rgb(r: u8, g: u8, b: u8) -> Rgb {
    Rgb { r, g, b }
}

fn typed(screen: &mut Screen, text: &str) {
    for c in text.chars() {
        screen.input(&Input::Char { c, control: false }, TIME);
    }
}

fn texts(rows: &[Row]) -> Vec<&str> {
    rows.iter().map(|row| row.text.as_str()).collect()
}

#[test]
fn colours_are_fixed() {
    assert_eq!(background(), rgb(255, 255, 255));
    assert_eq!(kind_color(MsgKind::Normal), rgb(0, 110, 0));
    assert_eq!(kind_color(MsgKind::User), rgb(0, 0, 0));
    assert_eq!(kind_color(MsgKind::System), rgb(0, 110, 130));
    assert_eq!(kind_color(MsgKind::Warn), rgb(180, 110, 0));
    assert_eq!(kind_color(MsgKind::Error), rgb(190, 0, 0));
}

#[test]
fn chat_window_shows_the_last_messages() {
    let mut ctx = Ctx::new();
    ctx.user = "me".to_owned();
    for i in 0..5 {
        ctx.msg(MsgKind::System, &format!("m{i}"), TIME);
    }
    let rows = chat_window(&ctx.chat, &Rect { x: 2, y: 3, w: 80, h: 2 });
    assert_eq!(texts(&rows), vec!["[08:00:00] <me> : m3", "[08:00:00] <me> : m4"]);
    let places: Vec<(u16, u16)> = rows.iter().map(|row| (row.x, row.y)).collect();
    assert_eq!(places, vec![(2, 3), (2, 4)]);
    assert_eq!(rows[0].color, rgb(0, 110, 130));
    assert_eq!(chat_window(&ctx.chat, &Rect { x: 0, y: 0, w: 80, h: 9 }).len(), 5);
    assert!(chat_window(&ctx.chat, &Rect { x: 0, y: 0, w: 80, h: 0 }).is_empty());
}

#[test]
fn long_messages_are_cut_off_by_characters() {
    let mut ctx = Ctx::new();
    ctx.msg_from("al", MsgKind::Normal, "中文消息", TIME);
    let rows = chat_window(&ctx.chat, &Rect { x: 0, y: 0, w: 20, h: 1 });
    assert_eq!(texts(&rows), vec!["[08:00:00] <al> : 中文"]);
    let rows = chat_window(&ctx.chat, &Rect { x: 0, y: 0, w: 0, h: 1 });
    assert_eq!(texts(&rows), vec![""]);
}

#[test]
fn places_wrap_at_sixteen_bits() {
    let mut ctx = Ctx::new();
    ctx.msg(MsgKind::Normal, "x", TIME);
    ctx.msg(MsgKind::Normal, "y", TIME);
    let rows = chat_window(&ctx.chat, &Rect { x: 65537, y: 65535, w: 80, h: 2 });
    assert_eq!((rows[0].x, rows[0].y, rows[1].y), (1, 65535, 0));
}

#[test]
fn status_bar_tells_of_the_connection() {
    let mut ctx = Ctx::new();
    let (line, color) = status_bar(&ctx, 55, 3661, 0);
    assert_eq!(line, "[OFFLINE] not connected      up 01:01:01 | 08:00:00 CST");
    assert_eq!(color, rgb(190, 0, 0));
    ctx.connected_to("127.0.0.1:6969".to_owned(), None, TIME);
    let (line, color) = status_bar(&ctx, 50, 5, 1);
    assert_eq!(line, "[ONLINE] 127.0.0.1:6969 up 00:00:05 | 08:00:01 CST");
    assert_eq!(color, rgb(0, 110, 0));
}

#[test]
fn status_bar_fills_the_row() {
    let ctx = Ctx::new();
    for width in 0..120 {
        let (line, _) = status_bar(&ctx, width, 0, 0);
        assert_eq!(line.chars().count(), width);
    }
    let (line, _) = status_bar(&ctx, 30, 0, 0);
    assert_eq!(line, "[OFFLINE] not connected up 00:");
}

#[test]
fn keys_edit_the_prompt() {
    let mut screen = Screen::new(80, 24);
    typed(&mut screen, "héllo");
    assert_eq!(screen.prompt, "héllo");
    screen.input(&Input::Backspace, TIME);
    assert_eq!(screen.prompt, "héll");
    screen.input(&Input::Paste(" 中文".to_owned()), TIME);
    assert_eq!(screen.prompt, "héll 中文");
    screen.input(&Input::Other, TIME);
    screen.input(&Input::Escape, TIME);
    assert_eq!(screen.prompt, "");
    screen.input(&Input::Backspace, TIME);
    assert_eq!(screen.prompt, "");
}

#[test]
fn control_c_stops() {
    let mut screen = Screen::new(80, 24);
    screen.input(&Input::Char { c: 'c', control: false }, TIME);
    assert!(!screen.ctx.stop);
    screen.input(&Input::Char { c: 'd', control: true }, TIME);
    assert!(!screen.ctx.stop);
    assert_eq!(screen.prompt, "cd");
    screen.input(&Input::Char { c: 'c', control: true }, TIME);
    assert!(screen.ctx.stop);
    assert_eq!(screen.prompt, "cd");
}

#[test]
fn tab_completes() {
    let mut screen = Screen::new(80, 24);
    typed(&mut screen, "/he");
    screen.input(&Input::Tab, TIME);
    assert_eq!(screen.prompt, "/help");
}

#[test]
fn entered_line_is_echoed() {
    let mut screen = Screen::new(80, 24);
    screen.ctx.user = "me".to_owned();
    typed(&mut screen, " hello ");
    let action = screen.input(&Input::Enter, TIME);
    assert!(matches!(action, ClientAction::Nothing));
    assert_eq!(screen.prompt, "");
    let lines: Vec<(MsgKind, &str, &str)> = screen
        .ctx
        .chat
        .iter()
        .map(|message| (message.kind, message.author.as_str(), message.text.as_str()))
        .collect();
    assert_eq!(
        lines,
        vec![
            (MsgKind::User, "me", " hello "),
            (MsgKind::Warn, "me", "not connected, use /connect <ip> <port>"),
        ]
    );
    screen.ctx.connected_to("h:1".to_owned(), None, TIME);
    typed(&mut screen, "hello");
    match screen.input(&Input::Enter, TIME) {
        ClientAction::Send(text) => assert_eq!(text, "MSG hello\n"),
        _ => panic!("nothing is sent"),
    }
}

#[test]
fn screen_is_drawn() {
    let mut screen = Screen::new(20, 5);
    for text in ["one", "two", "three"] {
        screen.ctx.msg_from("a", MsgKind::Normal, text, TIME);
    }
    typed(&mut screen, "typing");
    let rows = screen.draw(0, 0);
    assert_eq!(
        texts(&rows),
        vec![
            "[08:00:00] <a> : two",
            "[08:00:00] <a> : thr",
            "────────────────────",
            "[OFFLINE] not connec",
            "> typing",
        ]
    );
    let places: Vec<(u16, u16)> = rows.iter().map(|row| (row.x, row.y)).collect();
    assert_eq!(places, vec![(0, 0), (0, 1), (0, 2), (0, 3), (0, 4)]);
    assert_eq!(rows[2].color, rgb(0, 110, 0));
    assert_eq!(rows[3].color, rgb(190, 0, 0));
    assert_eq!(rows[4].color, rgb(0, 0, 0));
}

#[test]
fn small_screens_drop_rows() {
    let mut screen = Screen::new(10, 24);
    screen.ctx.msg(MsgKind::Normal, "x", TIME);
    typed(&mut screen, "p");
    for (height, expected) in [
        (3, vec!["──────────", "[OFFLINE] ", "> p"]),
        (2, vec!["[OFFLINE] ", "> p"]),
        (1, vec!["> p"]),
        (0, vec![]),
    ] {
        screen.input(&Input::Resize { width: 10, height }, TIME);
        let rows = screen.draw(0, 0);
        assert_eq!(texts(&rows), expected);
        for (i, row) in rows.iter().enumerate() {
            assert_eq!(usize::from(row.y), i);
        }
    }
}

#[test]
fn last_message_is_drawn() {
    let mut screen = Screen::new(40, 4);
    for i in 0..3 {
        screen.ctx.msg_from("alice", MsgKind::Normal, &format!("m{i}"), TIME);
        let rows = screen.draw(0, 0);
        assert_eq!(rows[rows.len() - 4].text, format!("[08:00:00] <alice> : m{i}"));
    }
}
