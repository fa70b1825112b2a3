//! The clock face on a 17x17 grid, and the display loop's decisions.
//!
//! Layout (digits are 3 wide and 6 tall):
//! tens of minutes at x=0, units of minutes at x=4, the colon (1 wide) at
//! x=8, tens of seconds at x=10, units of seconds at x=14; all at y=5, which
//! centres them vertically ((17 - 6) / 2 = 5).
//!
//! The grid shows either the time elapsed since start in `mm:ss` (minutes
//! wrapping at 100) or a client-set `DD:DD` text; ticks only redraw the
//! clock, while set text stays until it is changed.
use crate::fonts::{colon_column, digit_column, get_colon_glyph, get_digit_glyph};
use crate::grid::{coords_in_bounds, in_box, Color, Grid};
use crate::buffers::text_buffer_chars;
use crate::protocol::{command_arg, spec_parse_line, Command, CommandView};
use vstd::utf8::{encode_utf8, is_ascii_chars, is_ascii_chars_encode_utf8};
use vstd::prelude::*;

verus! {

/// The 17x17 grid that the clock is drawn on.
pub type DisplayGrid = Grid<17, 289>;

/// Row of the top of every glyph.
pub const DIGIT_Y: usize = 5;

/// Column of the colon.
pub const COLON_X: usize = 8;

/// Column of the left edge of digit `i` (0 to 3).
pub open spec fn digit_x(i: int) -> int {
    if i == 0 {
        0
    } else if i == 1 {
        4
    } else if i == 2 {
        10
    } else {
        14
    }
}

/// Whether the glyph column `col` lights row `row`.
pub open spec fn column_lit(col: u32, row: int) -> bool {
    (col >> (row as u32)) & 1u32 == 1u32
}

/// Whether digit slot `i` showing `d` lights `(px, py)`; a value above 9 shows nothing.
pub open spec fn slot_lit(d: u8, i: int, px: int, py: int) -> bool {
    &&& d <= 9
    &&& in_box(digit_x(i), DIGIT_Y as int, 3, 6, px, py)
    &&& column_lit(digit_column(d, (px - digit_x(i)) as u8), py - DIGIT_Y)
}

/// Whether the colon lights `(px, py)`.
pub open spec fn colon_lit(px: int, py: int) -> bool {
    &&& in_box(COLON_X as int, DIGIT_Y as int, 1, 6, px, py)
    &&& column_lit(colon_column((px - COLON_X) as u8), py - DIGIT_Y)
}

/// Whether one of the first `k` digits lights `(px, py)`.
pub open spec fn digits_lit(digits: [u8; 4], k: int, px: int, py: int) -> bool {
    ||| 0 < k && slot_lit(digits[0], 0, px, py)
    ||| 1 < k && slot_lit(digits[1], 1, px, py)
    ||| 2 < k && slot_lit(digits[2], 2, px, py)
    ||| 3 < k && slot_lit(digits[3], 3, px, py)
}

/// Whether the clock face showing `digits` lights `(px, py)`.
pub open spec fn face_lit(digits: [u8; 4], px: int, py: int) -> bool {
    digits_lit(digits, 4, px, py) || colon_lit(px, py)
}

/// `grid` shows `digits` on the clock face: every lit pixel in the
/// foreground colour and every other LED in the background colour.
pub open spec fn shows(grid: DisplayGrid, digits: [u8; 4]) -> bool {
    &&& grid.wf()
    &&& forall|px: int, py: int|
        #![trigger grid.pixel(px, py)]
        grid.in_bounds(px, py) ==> grid.pixel(px, py) == if face_lit(digits, px, py) {
            grid.spec_foreground()
        } else {
            grid.spec_background()
        }
}

/// The four digits of the clock after `total_secs` seconds: minutes (modulo
/// 100) then seconds, tens before units.
pub open spec fn clock_face(total_secs: u64) -> [u8; 4] {
    let mm = (total_secs / 60) % 100;
    let ss = total_secs % 60;
    [(mm / 10) as u8, (mm % 10) as u8, (ss / 10) as u8, (ss % 10) as u8]
}

/// The four digits of a `DD:DD` text given as its bytes.
pub open spec fn text_face(b: Seq<u8>) -> [u8; 4] {
    [(b[0] - 48) as u8, (b[1] - 48) as u8, (b[3] - 48) as u8, (b[4] - 48) as u8]
}

/// A text whose UTF-8 bytes 0, 1, 3 and 4 exist and are at least `'0'`.
pub open spec fn text_drawable(b: Seq<u8>) -> bool {
    b.len() >= 5 && b[0] >= 48 && b[1] >= 48 && b[3] >= 48 && b[4] >= 48
}

/// `embassy_time::TICK_HZ`: the ticks per second of the time driver. It is
/// set by a cargo feature of the time driver crate, and every choice is at
/// least 1 Hz; which one this build has is not stated.
#[verifier::external_body]
fn tick_hz() -> (hz: u64)
    ensures
        hz >= 1,
{
    embassy_time::TICK_HZ
}

/// The four digits the clock shows after `total_secs` seconds.
pub fn secs_digits(total_secs: u64) -> (d: [u8; 4])
    ensures
        d == clock_face(total_secs),
        d[0] <= 9 && d[1] <= 9 && d[2] <= 5 && d[3] <= 9,
        d[0] * 10 + d[1] == (total_secs / 60) % 100,
        d[2] * 10 + d[3] == total_secs % 60,
{
    let mm = (total_secs / 60) % 100;
    let ss = total_secs % 60;
    [(mm / 10) as u8, (mm % 10) as u8, (ss / 10) as u8, (ss % 10) as u8]
}

/// The whole seconds from `start_ticks` to `now_ticks` (instants of a time
/// driver ticking `tick_hz` times a second, `now` not before `start`), as
/// `(now - start).as_secs()` counts them, and the four digits the clock
/// shows for them.
pub fn clock_digits(now_ticks: u64, start_ticks: u64, tick_hz: u64) -> (r: (u64, [u8; 4]))
    requires
        start_ticks <= now_ticks,
        tick_hz >= 1,
    ensures
        r.0 == (now_ticks - start_ticks) / (tick_hz as int),
        r.1 == clock_face(r.0),
{
    let total_secs = (now_ticks - start_ticks) / tick_hz;
    (total_secs, secs_digits(total_secs))
}

/// The four digits of a `DD:DD` text, whose digit bytes are at least `'0'`.
pub fn text_digits(s: &str) -> (d: [u8; 4])
    requires
        text_drawable(encode_utf8(s@)),
    ensures
        d == text_face(encode_utf8(s@)),
{
    let b = s.as_bytes();
    [b[0] - 48, b[1] - 48, b[3] - 48, b[4] - 48]
}

/// Every pixel of the 17x17 grid is inside it whatever its orientation.
proof fn lemma_square(grid: DisplayGrid, px: int, py: int)
    ensures
        grid.in_bounds(px, py) <==> (0 <= px < 17 && 0 <= py < 17),
{
    assert(DisplayGrid::rows() == 17);
}

/// Draws `digits` with a colon between the pairs, in the clock layout; a
/// digit above 9 leaves its place blank.
pub fn render_digits(grid: &mut DisplayGrid, digits: [u8; 4])
    ensures
        final(grid).same_settings(&*old(grid)),
        shows(*final(grid), digits),
{
    grid.clear();
    proof {
        assert forall|px: int, py: int| grid.in_bounds(px, py) implies grid.pixel(px, py)
            == grid.spec_background() by {
            crate::grid::lemma_index_in_range(
                grid.spec_orientation(),
                17,
                DisplayGrid::rows(),
                px,
                py,
            );
        }
    }
    let cols: [usize; 4] = [0, 4, 10, 14];
    let mut i: usize = 0;
    while i < 4
        invariant
            i <= 4,
            cols@ == seq![0usize, 4, 10, 14],
            grid.wf(),
            grid.same_settings(&*old(grid)),
            forall|px: int, py: int|
                #![trigger grid.pixel(px, py)]
                grid.in_bounds(px, py) ==> grid.pixel(px, py) == if digits_lit(
                    digits,
                    i as int,
                    px,
                    py,
                ) {
                    grid.spec_foreground()
                } else {
                    grid.spec_background()
                },
        decreases 4 - i,
    {
        let d = digits[i];
        let x = cols[i];
        assert(x == digit_x(i as int));
        if d <= 9 {
            let glyph = get_digit_glyph(d);
            let ghost before = *grid;
            proof {
                assert forall|px: int, py: int| in_box(x as int, 5, 3, 6, px, py) implies #[trigger] grid.in_bounds(
                    px,
                    py,
                ) by {
                    lemma_square(*grid, px, py);
                }
            }
            grid.blit_glyph(x, DIGIT_Y, glyph);
            proof {
                assert forall|px: int, py: int|
                    #![trigger grid.pixel(px, py)]
                    grid.in_bounds(px, py) implies grid.pixel(px, py) == if digits_lit(
                    digits,
                    i + 1,
                    px,
                    py,
                ) {
                    grid.spec_foreground()
                } else {
                    grid.spec_background()
                } by {
                    assert(before.in_bounds(px, py));
                    assert(before.pixel(px, py) == if digits_lit(digits, i as int, px, py) {
                        before.spec_foreground()
                    } else {
                        before.spec_background()
                    });
                    if in_box(x as int, 5, 3, 6, px, py) {
                        assert(!digits_lit(digits, i as int, px, py));
                    }
                }
            }
        } else {
            assert forall|px: int, py: int|
                #![trigger grid.pixel(px, py)]
                grid.in_bounds(px, py) implies grid.pixel(px, py) == if digits_lit(
                digits,
                i + 1,
                px,
                py,
            ) {
                grid.spec_foreground()
            } else {
                grid.spec_background()
            } by {
                assert(digits_lit(digits, i + 1, px, py) == digits_lit(digits, i as int, px, py));
            }
        }
        i = i + 1;
    }
    let colon = get_colon_glyph();
    let ghost before = *grid;
    proof {
        assert forall|px: int, py: int| in_box(8, 5, 1, 6, px, py) implies #[trigger] grid.in_bounds(
            px,
            py,
        ) by {
            lemma_square(*grid, px, py);
        }
    }
    grid.blit_glyph(COLON_X, DIGIT_Y, colon);
    proof {
        assert forall|px: int, py: int|
            #![trigger grid.pixel(px, py)]
            grid.in_bounds(px, py) implies grid.pixel(px, py) == if face_lit(digits, px, py) {
            grid.spec_foreground()
        } else {
            grid.spec_background()
        } by {
            assert(before.in_bounds(px, py));
            assert(before.pixel(px, py) == if digits_lit(digits, 4, px, py) {
                before.spec_foreground()
            } else {
                before.spec_background()
            });
            if in_box(8, 5, 1, 6, px, py) {
                assert(!digits_lit(digits, 4, px, py));
            }
        }
    }
}


/// What the grid is showing: the elapsed-time clock, or a client-set text
/// held as its four digits (the colon is implied, always in the same place).
#[derive(Clone, Copy, PartialEq, Eq, Debug)]
pub enum DisplayMode {
    Clock,
    Text([u8; 4]),
}

/// The mode after `cmd`.
pub open spec fn next_mode(mode: DisplayMode, cmd: CommandView) -> DisplayMode {
    match cmd {
        CommandView::Clock => DisplayMode::Clock,
        CommandView::Text(s) => DisplayMode::Text(text_face(encode_utf8(s))),
        _ => mode,
    }
}

/// The digits shown in `mode` after `total_secs` seconds.
pub open spec fn mode_face(mode: DisplayMode, total_secs: u64) -> [u8; 4] {
    match mode {
        DisplayMode::Clock => clock_face(total_secs),
        DisplayMode::Text(d) => d,
    }
}

/// A command's text has digit bytes of at least `'0'`, as every parsed one does.
pub open spec fn command_drawable(cmd: CommandView) -> bool {
    cmd matches CommandView::Text(s) ==> text_drawable(encode_utf8(s))
}

/// The display loop's state: the frame, the mode, the instant the clock
/// counts from and the second it last drew.
pub struct Display {
    grid: DisplayGrid,
    mode: DisplayMode,
    start: u64,
    tick_hz: u64,
    last_secs: u64,
}

impl Display {
    pub closed spec fn spec_grid(&self) -> DisplayGrid {
        self.grid
    }

    pub closed spec fn spec_mode(&self) -> DisplayMode {
        self.mode
    }

    /// The instant, in ticks of the time driver, that the clock counts from.
    pub closed spec fn spec_start(&self) -> u64 {
        self.start
    }

    /// Ticks per second of the time driver.
    pub closed spec fn spec_tick_hz(&self) -> u64 {
        self.tick_hz
    }

    /// The elapsed second that the clock last drew.
    pub closed spec fn spec_last_secs(&self) -> u64 {
        self.last_secs
    }

    /// The whole seconds from the start to `now_ticks`.
    pub open spec fn elapsed(&self, now_ticks: u64) -> u64 {
        ((now_ticks - self.spec_start()) / (self.spec_tick_hz() as int)) as u64
    }

    /// Starts at `start_ticks` in clock mode with no second drawn yet, so
    /// that the first tick draws; time is counted at the time driver's rate.
    pub fn new(grid: DisplayGrid, start_ticks: u64) -> (d: Self)
        ensures
            d.spec_grid() == grid,
            d.spec_mode() == DisplayMode::Clock,
            d.spec_start() == start_ticks,
            d.spec_tick_hz() >= 1,
            d.spec_last_secs() == u64::MAX,
    {
        Display {
            grid,
            mode: DisplayMode::Clock,
            start: start_ticks,
            tick_hz: tick_hz(),
            last_secs: u64::MAX,
        }
    }

    /// Ticks per second of the time driver that the clock counts.
    pub fn ticks_per_second(&self) -> (hz: u64)
        ensures
            hz == self.spec_tick_hz(),
    {
        self.tick_hz
    }

    /// A tick at `now_ticks`: in clock mode, when the elapsed second has
    /// changed, the new time is drawn and `true` returned (the frame must be
    /// sent); otherwise nothing changes, and set text stays as it is.
    pub fn on_tick(&mut self, now_ticks: u64) -> (redraw: bool)
        requires
            old(self).spec_start() <= now_ticks,
            old(self).spec_tick_hz() >= 1,
        ensures
            final(self).spec_grid().wf(),
            final(self).spec_mode() == old(self).spec_mode(),
            final(self).spec_start() == old(self).spec_start(),
            final(self).spec_tick_hz() == old(self).spec_tick_hz(),
            redraw == (old(self).spec_mode() == DisplayMode::Clock && old(self).elapsed(now_ticks)
                != old(self).spec_last_secs()),
            redraw ==> {
                &&& final(self).spec_last_secs() == old(self).elapsed(now_ticks)
                &&& final(self).spec_grid().same_settings(&old(self).spec_grid())
                &&& shows(final(self).spec_grid(), clock_face(old(self).elapsed(now_ticks)))
            },
            !redraw ==> final(self).spec_grid() == old(self).spec_grid()
                && final(self).spec_last_secs() == old(self).spec_last_secs(),
    {
        proof {
            use_type_invariant(&self.grid);
        }
        if let DisplayMode::Clock = self.mode {
            let (secs, digits) = clock_digits(now_ticks, self.start, self.tick_hz);
            if secs != self.last_secs {
                self.last_secs = secs;
                render_digits(&mut self.grid, digits);
                return true;
            }
        }
        false
    }

    /// Applies `cmd` received at `now_ticks` and redraws: the frame must
    /// then be sent and the command acknowledged.
    pub fn on_command(&mut self, cmd: Command, now_ticks: u64)
        requires
            old(self).spec_start() <= now_ticks,
            old(self).spec_tick_hz() >= 1,
            command_drawable(cmd@),
        ensures
            final(self).spec_mode() == next_mode(old(self).spec_mode(), cmd@),
            (cmd@ is Color || cmd@ is Brightness) ==> final(self).spec_mode()
                == old(self).spec_mode(),
            final(self).spec_start() == old(self).spec_start(),
            final(self).spec_tick_hz() == old(self).spec_tick_hz(),
            final(self).spec_last_secs() == if final(self).spec_mode() == DisplayMode::Clock {
                old(self).elapsed(now_ticks)
            } else {
                old(self).spec_last_secs()
            },
            final(self).spec_grid().spec_foreground() == match cmd@ {
                CommandView::Color(c) => c,
                _ => old(self).spec_grid().spec_foreground(),
            },
            final(self).spec_grid().spec_brightness() == match cmd@ {
                CommandView::Brightness(b) => b,
                _ => old(self).spec_grid().spec_brightness(),
            },
            final(self).spec_grid().spec_background() == old(self).spec_grid().spec_background(),
            final(self).spec_grid().spec_orientation() == old(self).spec_grid().spec_orientation(),
            shows(
                final(self).spec_grid(),
                mode_face(final(self).spec_mode(), old(self).elapsed(now_ticks)),
            ),
    {
        match cmd {
            Command::Clock => {
                self.mode = DisplayMode::Clock;
                self.last_secs = u64::MAX;
            },
            Command::Text(t) => {
                self.mode = DisplayMode::Text(text_digits(t.text()));
            },
            Command::Color(c) => {
                self.grid.set_foreground(c);
            },
            Command::Brightness(b) => {
                self.grid.set_brightness(b);
            },
        }
        let digits = match self.mode {
            DisplayMode::Clock => {
                let (secs, digits) = clock_digits(now_ticks, self.start, self.tick_hz);
                self.last_secs = secs;
                digits
            },
            DisplayMode::Text(digits) => digits,
        };
        render_digits(&mut self.grid, digits);
    }

    /// The frame to send to the LEDs.
    pub fn grid(&self) -> (g: &DisplayGrid)
        ensures
            *g == self.spec_grid(),
    {
        &self.grid
    }

    pub fn mode(&self) -> (m: DisplayMode)
        ensures
            m == self.spec_mode(),
    {
        self.mode
    }
}

/// Law: every command that a line parses to can be applied, and a parsed
/// text shows the four digits typed, each one the font can draw.
pub proof fn lemma_parsed_commands_drawable(line: Seq<char>)
    ensures
        spec_parse_line(line) matches Ok(cmd) ==> command_drawable(cmd),
        spec_parse_line(line) matches Ok(CommandView::Text(s)) ==> {
            let d = text_face(encode_utf8(s));
            &&& d[0] <= 9 && d[1] <= 9 && d[2] <= 9 && d[3] <= 9
            &&& d[0] == command_arg(line)[0] as u32 - 48
            &&& d[1] == command_arg(line)[1] as u32 - 48
            &&& d[2] == command_arg(line)[3] as u32 - 48
            &&& d[3] == command_arg(line)[4] as u32 - 48
        },
{
    if let Ok(CommandView::Text(s)) = spec_parse_line(line) {
        assert(is_ascii_chars(s));
        is_ascii_chars_encode_utf8(s);
    }
}

/// Law: only `CLOCK` and `TEXT` change what the display shows; a colour or
/// brightness command keeps the mode, so set text stays up (in the new
/// colour) and the clock keeps running.
pub proof fn lemma_settings_keep_mode(mode: DisplayMode, cmd: CommandView)
    ensures
        (cmd is Color || cmd is Brightness) ==> next_mode(mode, cmd) == mode,
        cmd is Clock ==> next_mode(mode, cmd) == DisplayMode::Clock,
        cmd is Text ==> next_mode(mode, cmd) is Text,
{
}

/// Law: the clock face layout. On the 17x17 grid, the four digits are drawn
/// left to right with their left edges at columns 0, 4, 10 and 14 and the
/// colon at column 8, all in rows 5 to 10: within the box of digit `i`, a
/// pixel is lit exactly when the bitmap of `digits[i]` lights it (a digit
/// above 9 lights nothing), and no pixel outside the five boxes is lit.
pub proof fn lemma_face_layout(digits: [u8; 4], px: int, py: int)
    ensures
        ({
            let c = px;
            let r = py - 5;
            let lit_by = |d: u8, c: int| d <= 9 && column_lit(digit_column(d, c as u8), r);
            &&& (0 <= px < 3 && 5 <= py < 11) ==> (face_lit(digits, px, py) == lit_by(digits[0], px))
            &&& (4 <= px < 7 && 5 <= py < 11) ==> (face_lit(digits, px, py) == lit_by(
                digits[1],
                px - 4,
            ))
            &&& (px == 8 && 5 <= py < 11) ==> (face_lit(digits, px, py) == column_lit(
                colon_column(0),
                r,
            ))
            &&& (10 <= px < 13 && 5 <= py < 11) ==> (face_lit(digits, px, py) == lit_by(
                digits[2],
                px - 10,
            ))
            &&& (14 <= px < 17 && 5 <= py < 11) ==> (face_lit(digits, px, py) == lit_by(
                digits[3],
                px - 14,
            ))
            &&& !(0 <= px < 3 || 4 <= px < 7 || px == 8 || 10 <= px < 13 || 14 <= px < 17) ==> !face_lit(
                digits,
                px,
                py,
            )
            &&& !(5 <= py < 11) ==> !face_lit(digits, px, py)
        }),
{
}

/// Law: the digit slots run left to right without overlapping, with the
/// colon between the minutes and the seconds, all inside the 17 columns.
pub proof fn lemma_slots_ordered(i: int, j: int)
    requires
        0 <= i < j < 4,
    ensures
        digit_x(i) + 3 < digit_x(j),
        digit_x(1) + 3 < COLON_X < digit_x(2),
        digit_x(3) + 3 <= 17,
        digit_x(0) == 0,
{
}

} // verus!
