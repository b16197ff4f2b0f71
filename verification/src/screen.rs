//! The client's screen: the line that is being typed, the keys, and what is
//! drawn where in which colour.

use vstd::prelude::*;
use crate::client::{complete_command, ClientAction, Ctx, Message, MsgKind};
use crate::clock::{beijing_clock, format_duration};
use crate::text::{concat2, concat3, concat4, repeat, take_chars};
#[allow(unused_imports)]
use crate::client::{
    completed, fresh, message_models, on_prompt, ClientActionModel, CtxModel, MessageModel,
};
#[allow(unused_imports)]
use crate::clock::{beijing_time, hms};
#[allow(unused_imports)]
use crate::text::first_chars;

verus! {

// ---------------------------------------------------------------------------
// Colours

/// A colour, the same whatever the theme of the terminal.
#[derive(Clone, Copy, Debug, PartialEq, Eq, Structural)]
pub struct Rgb {
    pub r: u8,
    pub g: u8,
    pub b: u8,
}

/// The background: white.
pub fn background() -> (color: Rgb)
    ensures
        color == (Rgb { r: 255, g: 255, b: 255 }),
{
    Rgb { r: 255, g: 255, b: 255 }
}

/// The colour of a line that was received, and of the bar.
pub open spec fn normal_color() -> Rgb {
    Rgb { r: 0, g: 110, b: 0 }
}

/// The colour of a line that says that something is wrong.
pub open spec fn error_color() -> Rgb {
    Rgb { r: 190, g: 0, b: 0 }
}

/// The colour of what is typed.
pub open spec fn prompt_color() -> Rgb {
    Rgb { r: 0, g: 0, b: 0 }
}

/// The colour of a line.
pub open spec fn color_of(kind: MsgKind) -> Rgb {
    match kind {
        MsgKind::Normal => normal_color(),
        MsgKind::User => Rgb { r: 0, g: 0, b: 0 },
        MsgKind::System => Rgb { r: 0, g: 110, b: 130 },
        MsgKind::Warn => Rgb { r: 180, g: 110, b: 0 },
        MsgKind::Error => error_color(),
    }
}

/// The colour of a line.
pub fn kind_color(kind: MsgKind) -> (color: Rgb)
    ensures
        color == color_of(kind),
{
    match kind {
        MsgKind::Normal => Rgb { r: 0, g: 110, b: 0 },
        MsgKind::User => Rgb { r: 0, g: 0, b: 0 },
        MsgKind::System => Rgb { r: 0, g: 110, b: 130 },
        MsgKind::Warn => Rgb { r: 180, g: 110, b: 0 },
        MsgKind::Error => Rgb { r: 190, g: 0, b: 0 },
    }
}

// ---------------------------------------------------------------------------
// Rows

/// A part of the screen.
pub struct Rect {
    pub x: usize,
    pub y: usize,
    pub w: usize,
    pub h: usize,
}

/// Text at a place on the screen.
pub struct Row {
    pub x: u16,
    pub y: u16,
    pub color: Rgb,
    pub text: String,
}

/// The value of a [`Row`].
#[verifier::ext_equal]
pub struct RowModel {
    pub x: u16,
    pub y: u16,
    pub color: Rgb,
    pub text: Seq<char>,
}

impl View for Row {
    type V = RowModel;

    open spec fn view(&self) -> RowModel {
        RowModel { x: self.x, y: self.y, color: self.color, text: self.text@ }
    }
}

/// The values of rows.
pub open spec fn row_models(rows: Seq<Row>) -> Seq<RowModel> {
    rows.map_values(|row: Row| row@)
}

// ---------------------------------------------------------------------------
// The chat window

/// How a message is written.
pub open spec fn shown(message: MessageModel) -> Seq<char> {
    "["@ + message.time + "] <"@ + message.author + "> : "@ + message.text
}

/// How many messages there is room for.
pub open spec fn visible(count: nat, height: nat) -> nat {
    if count < height {
        count
    } else {
        height
    }
}

/// The last messages, from the top of a part of the screen down, each cut off
/// where the part ends.
pub open spec fn chat_rows(chat: Seq<MessageModel>, boundary: Rect) -> Seq<RowModel> {
    let count = visible(chat.len(), boundary.h as nat);
    Seq::new(
        count,
        |i: int|
            {
                let message = chat[chat.len() - count + i];
                RowModel {
                    x: boundary.x as u16,
                    y: (boundary.y + i) as u16,
                    color: color_of(message.kind),
                    text: first_chars(shown(message), boundary.w as int),
                }
            },
    )
}

/// How a message is written.
fn message_line(message: &Message) -> (line: String)
    ensures
        line@ == shown(message@),
{
    let mut line: String = concat4("[", message.time.as_str(), "] <", message.author.as_str());
    line.append("> : ");
    line.append(message.text.as_str());
    line
}

/// The last messages, from the top of a part of the screen down, each cut off
/// where the part ends. The part must not lie beyond what can be counted.
pub fn chat_window(chat: &Vec<Message>, boundary: &Rect) -> (rows: Vec<Row>)
    requires
        boundary.y + visible(chat@.len(), boundary.h as nat) - 1 <= usize::MAX,
    ensures
        row_models(rows@) == chat_rows(message_models(chat@), *boundary),
{
    let n: usize = chat.len();
    let count: usize = if n < boundary.h {
        n
    } else {
        boundary.h
    };
    let ghost all = chat_rows(message_models(chat@), *boundary);
    let mut rows: Vec<Row> = Vec::new();
    let mut dy: usize = 0;
    assert(row_models(rows@) =~= all.take(0));
    while dy < count
        invariant
            dy <= count <= n,
            n == chat@.len(),
            count == visible(chat@.len(), boundary.h as nat),
            boundary.y + count - 1 <= usize::MAX,
            all == chat_rows(message_models(chat@), *boundary),
            row_models(rows@) == all.take(dy as int),
        decreases count - dy,
    {
        let message: &Message = &chat[n - count + dy];
        let line: String = take_chars(message_line(message).as_str(), boundary.w);
        let row: Row = Row {
            x: boundary.x as u16,
            y: (boundary.y + dy) as u16,
            color: kind_color(message.kind),
            text: line,
        };
        let ghost before = rows@;
        rows.push(row);
        proof {
            assert(message_models(chat@)[n - count + dy] == message@);
            assert(row@ =~= all[dy as int]);
            assert(row_models(rows@) =~= row_models(before).push(row@));
            assert(all.take(dy + 1) =~= all.take(dy as int).push(all[dy as int]));
        }
        dy = dy + 1;
    }
    assert(all.take(dy as int) =~= all);
    rows
}

// ---------------------------------------------------------------------------
// The status bar

/// The left part of the status bar: whether there is a connection, and to
/// which server.
pub open spec fn status_left(ctx: CtxModel) -> Seq<char> {
    "["@ + (if ctx.connected {
        "ONLINE"@
    } else {
        "OFFLINE"@
    }) + "] "@ + (match ctx.server {
        Some(server) => server,
        None => "not connected"@,
    })
}

/// The right part of the status bar: how long the client runs, and the time in
/// Beijing.
pub open spec fn status_right(uptime: nat, unix_seconds: nat) -> Seq<char> {
    "up "@ + hms(uptime) + " | "@ + beijing_time(unix_seconds) + " CST"@
}

/// A number of spaces.
pub open spec fn spaces(count: nat) -> Seq<char> {
    Seq::new(count, |i: int| ' ')
}

/// Two parts in a line, the second at its end where there is room.
pub open spec fn spread(left: Seq<char>, right: Seq<char>, width: nat) -> Seq<char> {
    first_chars(
        if left.len() + right.len() < width {
            left + spaces((width - left.len() - right.len()) as nat) + right
        } else {
            left + " "@ + right
        },
        width as int,
    )
}

/// The status bar and its colour.
pub open spec fn status_of(ctx: CtxModel, width: nat, uptime: nat, unix_seconds: nat) -> (
    Seq<char>,
    Rgb,
) {
    (
        spread(status_left(ctx), status_right(uptime, unix_seconds), width),
        if ctx.connected {
            normal_color()
        } else {
            error_color()
        },
    )
}

/// The status bar and its colour: whether there is a connection, and to which
/// server, and on the right how long the client runs and the time in Beijing.
pub fn status_bar(ctx: &Ctx, width: usize, uptime: u64, unix_seconds: u64) -> (bar: (String, Rgb))
    ensures
        (bar.0@, bar.1) == status_of(ctx@, width as nat, uptime as nat, unix_seconds as nat),
{
    let state: &str = if ctx.connected {
        "ONLINE"
    } else {
        "OFFLINE"
    };
    let color: Rgb = if ctx.connected {
        kind_color(MsgKind::Normal)
    } else {
        kind_color(MsgKind::Error)
    };
    let server: &str = match &ctx.server {
        Some(server) => server.as_str(),
        None => "not connected",
    };
    let left: String = concat4("[", state, "] ", server);
    let mut right: String = concat4(
        "up ",
        format_duration(uptime).as_str(),
        " | ",
        beijing_clock(unix_seconds).as_str(),
    );
    right.append(" CST");
    let l: usize = left.as_str().unicode_len();
    let r: usize = right.as_str().unicode_len();
    let line: String = if l < width && r < width - l {
        concat3(left.as_str(), repeat(' ', width - l - r).as_str(), right.as_str())
    } else {
        concat3(left.as_str(), " ", right.as_str())
    };
    proof {
        assert(left@ == status_left(ctx@));
        assert(right@ == status_right(uptime as nat, unix_seconds as nat));
        if l + r < width {
            assert(spaces((width - l - r) as nat) =~= Seq::new(
                (width - l - r) as nat,
                |i: int| ' ',
            ));
        }
    }
    (take_chars(line.as_str(), width), color)
}

// ---------------------------------------------------------------------------
// The screen

/// The state of the screen.
pub struct Screen {
    pub ctx: Ctx,
    /// What is typed and not entered yet.
    pub prompt: String,
    pub width: u16,
    pub height: u16,
}

/// The value of a [`Screen`].
#[verifier::ext_equal]
pub struct ScreenModel {
    pub ctx: CtxModel,
    pub prompt: Seq<char>,
    pub width: u16,
    pub height: u16,
}

impl View for Screen {
    type V = ScreenModel;

    open spec fn view(&self) -> ScreenModel {
        ScreenModel {
            ctx: self.ctx@,
            prompt: self.prompt@,
            width: self.width,
            height: self.height,
        }
    }
}

/// Something that the terminal reports.
pub enum Input {
    /// The terminal has another size.
    Resize { width: u16, height: u16 },
    /// A text was pasted.
    Paste(String),
    /// A character was typed, with the control key or without it.
    Char { c: char, control: bool },
    Escape,
    Enter,
    Tab,
    Backspace,
    /// Anything else.
    Other,
}

/// The terminal reports something.
pub open spec fn on_input(screen: ScreenModel, input: Input, time: Seq<char>) -> (
    ScreenModel,
    ClientActionModel,
) {
    match input {
        Input::Resize { width, height } => (
            ScreenModel { width, height, ..screen },
            ClientActionModel::Nothing,
        ),
        Input::Paste(text) => (
            ScreenModel { prompt: screen.prompt + text@, ..screen },
            ClientActionModel::Nothing,
        ),
        Input::Char { c, control } => if control && c == 'c' {
            (
                ScreenModel { ctx: CtxModel { stop: true, ..screen.ctx }, ..screen },
                ClientActionModel::Nothing,
            )
        } else {
            (
                ScreenModel { prompt: screen.prompt.push(c), ..screen },
                ClientActionModel::Nothing,
            )
        },
        Input::Escape => (
            ScreenModel { prompt: seq![], ..screen },
            ClientActionModel::Nothing,
        ),
        Input::Enter => {
            let (ctx, action) = on_prompt(
                screen.ctx.with_line(MsgKind::User, screen.prompt, time),
                screen.prompt,
                time,
            );
            (ScreenModel { ctx, prompt: seq![], ..screen }, action)
        },
        Input::Tab => (
            ScreenModel { prompt: completed(screen.prompt), ..screen },
            ClientActionModel::Nothing,
        ),
        Input::Backspace => (
            ScreenModel {
                prompt: if screen.prompt.len() == 0 {
                    screen.prompt
                } else {
                    screen.prompt.drop_last()
                },
                ..screen
            },
            ClientActionModel::Nothing,
        ),
        Input::Other => (screen, ClientActionModel::Nothing),
    }
}

/// What is drawn: the chat, a bar below it, the status and what is typed, as
/// far as there are rows for them.
pub open spec fn drawn(screen: ScreenModel, uptime: nat, unix_seconds: nat) -> Seq<RowModel> {
    let h = screen.height;
    let chat = chat_rows(
        screen.ctx.chat,
        Rect {
            x: 0,
            y: 0,
            w: screen.width as usize,
            h: if h < 3 {
                0
            } else {
                (h - 3) as usize
            },
        },
    );
    let (status, color) = status_of(screen.ctx, screen.width as nat, uptime, unix_seconds);
    let bar = RowModel {
        x: 0,
        y: (h - 3) as u16,
        color: normal_color(),
        text: Seq::new(screen.width as nat, |i: int| '─'),
    };
    let status = RowModel { x: 0, y: (h - 2) as u16, color, text: status };
    let typed = RowModel {
        x: 0,
        y: (h - 1) as u16,
        color: prompt_color(),
        text: "> "@ + screen.prompt,
    };
    if h >= 3 {
        chat + seq![bar, status, typed]
    } else if h >= 2 {
        chat + seq![status, typed]
    } else if h >= 1 {
        chat + seq![typed]
    } else {
        chat
    }
}

impl Screen {
    /// A screen of a size, with nothing on it.
    pub fn new(width: u16, height: u16) -> (screen: Screen)
        ensures
            screen@ == (ScreenModel { ctx: fresh(), prompt: seq![], width, height }),
    {
        Screen { ctx: Ctx::new(), prompt: String::new(), width, height }
    }

    /// The terminal reports something.
    pub fn input(&mut self, input: &Input, time: &str) -> (action: ClientAction)
        ensures
            (final(self)@, action@) == on_input(old(self)@, *input, time@),
    {
        match input {
            Input::Resize { width, height } => {
                self.width = *width;
                self.height = *height;
                ClientAction::Nothing
            },
            Input::Paste(text) => {
                self.prompt.append(text.as_str());
                ClientAction::Nothing
            },
            Input::Char { c, control } => {
                if *control && *c == 'c' {
                    self.ctx.stop = true;
                } else {
                    self.prompt.push(*c);
                }
                ClientAction::Nothing
            },
            Input::Escape => {
                self.prompt = String::new();
                ClientAction::Nothing
            },
            Input::Enter => {
                let line: String = self.prompt.clone();
                self.ctx.msg(MsgKind::User, line.as_str(), time);
                let action: ClientAction = self.ctx.handle_prompt(line.as_str(), time);
                self.prompt = String::new();
                action
            },
            Input::Tab => {
                self.prompt = complete_command(self.prompt.as_str());
                ClientAction::Nothing
            },
            Input::Backspace => {
                let n: usize = self.prompt.as_str().unicode_len();
                if n > 0 {
                    self.prompt = take_chars(self.prompt.as_str(), n - 1);
                    assert(self.prompt@ =~= old(self).prompt@.drop_last());
                }
                ClientAction::Nothing
            },
            Input::Other => ClientAction::Nothing,
        }
    }

    /// What is drawn: the chat, a bar below it, the status and what is typed,
    /// as far as there are rows for them.
    pub fn draw(&self, uptime: u64, unix_seconds: u64) -> (rows: Vec<Row>)
        ensures
            row_models(rows@) == drawn(self@, uptime as nat, unix_seconds as nat),
    {
        let h: u16 = self.height;
        let chat_h: usize = if h < 3 {
            0
        } else {
            (h - 3) as usize
        };
        let mut rows: Vec<Row> = chat_window(
            &self.ctx.chat,
            &Rect { x: 0, y: 0, w: self.width as usize, h: chat_h },
        );
        if h >= 3 {
            rows.push(
                Row {
                    x: 0,
                    y: h - 3,
                    color: kind_color(MsgKind::Normal),
                    text: repeat('─', self.width as usize),
                },
            );
        }
        if h >= 2 {
            let (text, color): (String, Rgb) = status_bar(
                &self.ctx,
                self.width as usize,
                uptime,
                unix_seconds,
            );
            rows.push(Row { x: 0, y: h - 2, color, text });
        }
        if h >= 1 {
            rows.push(
                Row {
                    x: 0,
                    y: h - 1,
                    color: Rgb { r: 0, g: 0, b: 0 },
                    text: concat2("> ", self.prompt.as_str()),
                },
            );
        }
        assert(row_models(rows@) =~~= drawn(self@, uptime as nat, unix_seconds as nat));
        rows
    }
}

// ---------------------------------------------------------------------------
// Laws

/// The status bar is as wide as the screen.
pub proof fn law_status_bar_fills_the_row(
    ctx: CtxModel,
    width: nat,
    uptime: nat,
    unix_seconds: nat,
)
    ensures
        status_of(ctx, width, uptime, unix_seconds).0.len() == width,
{
    reveal_strlit(" ");
}

/// Where there is room, the status bar shows both of its parts whole, one at
/// each end.
pub proof fn law_status_bar_shows_both_parts(
    ctx: CtxModel,
    width: nat,
    uptime: nat,
    unix_seconds: nat,
)
    requires
        status_left(ctx).len() + status_right(uptime, unix_seconds).len() <= width - 1,
    ensures
        status_left(ctx).is_prefix_of(status_of(ctx, width, uptime, unix_seconds).0),
        status_right(uptime, unix_seconds).is_suffix_of(
            status_of(ctx, width, uptime, unix_seconds).0,
        ),
{
    let line = status_of(ctx, width, uptime, unix_seconds).0;
    let left = status_left(ctx);
    let right = status_right(uptime, unix_seconds);
    assert(line.subrange(0, left.len() as int) =~= left);
    assert(line.subrange(line.len() - right.len(), line.len() as int) =~= right);
}

/// The chat window stays in its part of the screen, and shows the last
/// messages in their order, the last one at the bottom.
pub proof fn law_chat_window_shows_the_end(chat: Seq<MessageModel>, boundary: Rect, i: int)
    requires
        0 <= i < chat_rows(chat, boundary).len(),
        boundary.y + boundary.h <= u16::MAX,
        boundary.x <= u16::MAX,
    ensures
        chat_rows(chat, boundary).len() == visible(chat.len(), boundary.h as nat),
        chat_rows(chat, boundary)[i].x == boundary.x,
        boundary.y <= chat_rows(chat, boundary)[i].y < boundary.y + boundary.h,
        chat_rows(chat, boundary)[i].text.len() <= boundary.w,
        chat_rows(chat, boundary)[i].text.is_prefix_of(
            shown(chat[chat.len() - chat_rows(chat, boundary).len() + i]),
        ),
{
    let rows = chat_rows(chat, boundary);
    let line = shown(chat[chat.len() - rows.len() + i]);
    assert(rows[i].text == first_chars(line, boundary.w as int));
    assert(rows[i].text =~= line.subrange(0, rows[i].text.len() as int));
}

/// No two rows of the screen are drawn over each other, and none is drawn
/// below its end.
pub proof fn law_rows_do_not_overlap(
    screen: ScreenModel,
    uptime: nat,
    unix_seconds: nat,
    i: int,
    j: int,
)
    requires
        0 <= i < j < drawn(screen, uptime, unix_seconds).len(),
    ensures
        drawn(screen, uptime, unix_seconds)[i].y < drawn(screen, uptime, unix_seconds)[j].y,
        drawn(screen, uptime, unix_seconds)[j].y < screen.height,
{
}

/// After the terminal reports a size, the screen has that width and that height,
/// and nothing else has changed.
pub proof fn law_screen_follows_the_terminal(
    screen: ScreenModel,
    width: u16,
    height: u16,
    time: Seq<char>,
)
    ensures
        ({
            let (after, action) = on_input(screen, Input::Resize { width, height }, time);
            &&& after.width == width
            &&& after.height == height
            &&& after.prompt == screen.prompt
            &&& after.ctx == screen.ctx
            &&& action == ClientActionModel::Nothing
        }),
{
}

/// After the terminal reports a size, each picture that is drawn next has a bar
/// and a status as wide as was reported, cuts messages off there, and ends at
/// the height that was reported.
pub proof fn law_picture_has_the_reported_size(
    screen: ScreenModel,
    width: u16,
    height: u16,
    time: Seq<char>,
    uptime: nat,
    unix_seconds: nat,
    i: int,
)
    requires
        height >= 3,
    ensures
        ({
            let after = on_input(screen, Input::Resize { width, height }, time).0;
            let rows = drawn(after, uptime, unix_seconds);
            let n = rows.len() as int;
            &&& n >= 3
            &&& rows[n - 3].y == height - 3
            &&& rows[n - 3].text.len() == width
            &&& rows[n - 2].y == height - 2
            &&& rows[n - 2].text.len() == width
            &&& rows[n - 1].y == height - 1
            &&& 0 <= i < n - 3 ==> rows[i].text.len() <= width && rows[i].y < height - 3
        }),
{
    let after = on_input(screen, Input::Resize { width, height }, time).0;
    law_status_bar_fills_the_row(after.ctx, width as nat, uptime, unix_seconds);
}

/// A character that is typed stands behind what was typed before, and so does
/// text that is pasted; all of it can be taken back at once, or the last
/// character alone. None of this sends anything or changes anything else.
pub proof fn law_prompt_is_edited(screen: ScreenModel, c: char, pasted: String, time: Seq<char>)
    ensures
        c != 'c' ==> on_input(screen, Input::Char { c, control: true }, time) == (
            ScreenModel { prompt: screen.prompt.push(c), ..screen },
            ClientActionModel::Nothing,
        ),
        on_input(screen, Input::Char { c, control: false }, time) == (
            ScreenModel { prompt: screen.prompt.push(c), ..screen },
            ClientActionModel::Nothing,
        ),
        on_input(screen, Input::Paste(pasted), time) == (
            ScreenModel { prompt: screen.prompt + pasted@, ..screen },
            ClientActionModel::Nothing,
        ),
        on_input(screen, Input::Escape, time) == (
            ScreenModel { prompt: Seq::empty(), ..screen },
            ClientActionModel::Nothing,
        ),
        on_input(
            on_input(screen, Input::Char { c, control: false }, time).0,
            Input::Backspace,
            time,
        ) == (screen, ClientActionModel::Nothing),
        screen.prompt.len() == 0 ==> on_input(screen, Input::Backspace, time) == (
            screen,
            ClientActionModel::Nothing,
        ),
        on_input(screen, Input::Other, time) == (screen, ClientActionModel::Nothing),
{
    assert(screen.prompt.push(c).drop_last() =~= screen.prompt);
    let typed = on_input(screen, Input::Char { c, control: false }, time).0;
    assert(on_input(typed, Input::Backspace, time).0 =~= screen);
}

/// The control key and `c` stop the client, and nothing else is done.
pub proof fn law_control_c_stops(screen: ScreenModel, time: Seq<char>)
    ensures
        ({
            let (after, action) = on_input(screen, Input::Char { c: 'c', control: true }, time);
            &&& after.ctx.stop
            &&& after == (ScreenModel { ctx: CtxModel { stop: true, ..screen.ctx }, ..screen })
            &&& action == ClientActionModel::Nothing
        }),
{
}

/// The tabulator completes what is typed, and the line that is entered is acted
/// on as it was typed, after it is shown; then a new line is begun.
pub proof fn law_line_is_completed_and_entered(screen: ScreenModel, time: Seq<char>)
    ensures
        on_input(screen, Input::Tab, time) == (
            ScreenModel { prompt: completed(screen.prompt), ..screen },
            ClientActionModel::Nothing,
        ),
        ({
            let echo = MessageModel {
                kind: MsgKind::User,
                time,
                author: screen.ctx.user,
                text: screen.prompt,
            };
            let echoed = CtxModel { chat: screen.ctx.chat.push(echo), ..screen.ctx };
            let (ctx, action) = on_prompt(echoed, screen.prompt, time);
            on_input(screen, Input::Enter, time) == (
                ScreenModel { ctx, prompt: Seq::empty(), ..screen },
                action,
            )
        }),
{
}

/// The colours of the lines: deep green for what was received, black for the
/// user's own, cyan for the system, dark orange for warnings, dark red for
/// errors.
pub proof fn law_colours_are_fixed()
    ensures
        color_of(MsgKind::Normal) == (Rgb { r: 0, g: 110, b: 0 }),
        color_of(MsgKind::User) == (Rgb { r: 0, g: 0, b: 0 }),
        color_of(MsgKind::System) == (Rgb { r: 0, g: 110, b: 130 }),
        color_of(MsgKind::Warn) == (Rgb { r: 180, g: 110, b: 0 }),
        color_of(MsgKind::Error) == (Rgb { r: 190, g: 0, b: 0 }),
{
}

/// The last messages are drawn from the top down, as many as there is room for,
/// each in its colour with its time, its author and its text, as far as there
/// are columns.
pub proof fn law_messages_are_drawn_in_full(chat: Seq<MessageModel>, boundary: Rect, i: int)
    requires
        boundary.y + boundary.h <= u16::MAX,
        boundary.x <= u16::MAX,
    ensures
        chat_rows(chat, boundary).len() == (if chat.len() < boundary.h {
            chat.len() as int
        } else {
            boundary.h as int
        }),
        0 <= i < chat_rows(chat, boundary).len() ==> {
            let row = chat_rows(chat, boundary)[i];
            let message = chat[chat.len() - chat_rows(chat, boundary).len() + i];
            let line = seq!['['] + message.time + seq![']', ' ', '<'] + message.author + seq![
                '>',
                ' ',
                ':',
                ' ',
            ] + message.text;
            &&& row.x == boundary.x
            &&& row.y == boundary.y + i
            &&& row.color == color_of(message.kind)
            &&& row.text == (if line.len() <= boundary.w {
                line
            } else {
                line.take(boundary.w as int)
            })
        },
{
    reveal_strlit("[");
    reveal_strlit("] <");
    reveal_strlit("> : ");
    assert("["@ =~= seq!['[']);
    assert("] <"@ =~= seq![']', ' ', '<']);
    assert("> : "@ =~= seq!['>', ' ', ':', ' ']);
}

/// The status bar tells on the left whether there is a connection and to which
/// server, and on the right how long the client runs and the time in Beijing;
/// the first is green with a connection and red without. Both parts are shown
/// with spaces between to the end of the row; where there is no room for that,
/// with one space, as far as there are columns.
pub proof fn law_status_bar_tells_the_state(
    ctx: CtxModel,
    width: nat,
    uptime: nat,
    unix_seconds: nat,
)
    ensures
        ({
            let left = (if ctx.connected {
                "[ONLINE] "@
            } else {
                "[OFFLINE] "@
            }) + (match ctx.server {
                Some(server) => server,
                None => "not connected"@,
            });
            let right = "up "@ + hms(uptime) + " | "@ + beijing_time(unix_seconds) + " CST"@;
            let (line, color) = status_of(ctx, width, uptime, unix_seconds);
            &&& color == (if ctx.connected {
                Rgb { r: 0, g: 110, b: 0 }
            } else {
                Rgb { r: 190, g: 0, b: 0 }
            })
            &&& line.len() == width
            &&& left.len() + right.len() < width ==> {
                &&& line.take(left.len() as int) == left
                &&& line.skip(width - right.len()) == right
                &&& forall|k: int|
                    left.len() <= k < width - right.len() ==> #[trigger] line[k] == ' '
            }
            &&& left.len() + right.len() >= width ==> line == (left + seq![' '] + right).take(
                width as int,
            )
        }),
{
    reveal_strlit("[");
    reveal_strlit("] ");
    reveal_strlit("ONLINE");
    reveal_strlit("OFFLINE");
    reveal_strlit("[ONLINE] ");
    reveal_strlit("[OFFLINE] ");
    reveal_strlit(" ");
    assert("["@ + "ONLINE"@ + "] "@ =~= "[ONLINE] "@);
    assert("["@ + "OFFLINE"@ + "] "@ =~= "[OFFLINE] "@);
    assert(" "@ =~= seq![' ']);
    law_status_bar_fills_the_row(ctx, width, uptime, unix_seconds);
    let left = status_left(ctx);
    let right = status_right(uptime, unix_seconds);
    let line = status_of(ctx, width, uptime, unix_seconds).0;
    if left.len() + right.len() < width {
        assert(line.take(left.len() as int) =~= left);
        assert(line.skip(width - right.len()) =~= right);
    }
}

/// What is drawn below the chat: a bar, the status, and what is typed behind a
/// sign; each in the row that is its own, and each as long as there are rows.
pub proof fn law_rows_below_the_chat(screen: ScreenModel, uptime: nat, unix_seconds: nat)
    ensures
        ({
            let rows = drawn(screen, uptime, unix_seconds);
            let n = rows.len() as int;
            let h = screen.height as int;
            let chat = if h < 3 {
                0
            } else if screen.ctx.chat.len() < h - 3 {
                screen.ctx.chat.len() as int
            } else {
                h - 3
            };
            &&& n == chat + (if h < 3 {
                h
            } else {
                3
            })
            &&& h >= 1 ==> rows[n - 1] == (RowModel {
                x: 0,
                y: (h - 1) as u16,
                color: Rgb { r: 0, g: 0, b: 0 },
                text: seq!['>', ' '] + screen.prompt,
            })
            &&& h >= 2 ==> rows[n - 2] == (RowModel {
                x: 0,
                y: (h - 2) as u16,
                color: status_of(screen.ctx, screen.width as nat, uptime, unix_seconds).1,
                text: status_of(screen.ctx, screen.width as nat, uptime, unix_seconds).0,
            })
            &&& h >= 3 ==> rows[n - 3] == (RowModel {
                x: 0,
                y: (h - 3) as u16,
                color: Rgb { r: 0, g: 110, b: 0 },
                text: Seq::new(screen.width as nat, |i: int| '─'),
            })
            &&& h >= 3 ==> rows.take(chat) == chat_rows(
                screen.ctx.chat,
                Rect { x: 0, y: 0, w: screen.width as usize, h: (h - 3) as usize },
            )
        }),
{
    reveal_strlit("> ");
    assert("> "@ =~= seq!['>', ' ']);
    let rows = drawn(screen, uptime, unix_seconds);
    let h = screen.height as int;
    if h >= 3 {
        let chat = chat_rows(
            screen.ctx.chat,
            Rect { x: 0, y: 0, w: screen.width as usize, h: (h - 3) as usize },
        );
        assert(rows.take(chat.len() as int) =~= chat);
    }
}

} // verus!
