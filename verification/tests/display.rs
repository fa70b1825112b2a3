use embassy_time::TICK_HZ;
use pico_w_display::display::{clock_digits, render_digits, secs_digits, text_digits, Display, DisplayGrid, DisplayMode};
use pico_w_display::grid::{Color, Grid, GridOrigin};
use pico_w_display::protocol::{parse_line, Command};
use pico_w_display::usb::{UsbBuffers, MAX_PACKET_SIZE};
use pico_w_display::wifi::{join_outcome, JoinAttempt};

const BLUE: Color = Color { r: 0, g: 0, b: 139 };

#[test]
fn clock_digits_are_minutes_and_seconds() {
    assert_eq!(secs_digits(0), [0, 0, 0, 0]);
    assert_eq!(secs_digits(3725), [6, 2, 0, 5]);
    assert_eq!(secs_digits(5999), [9, 9, 5, 9]);
    // Minutes wrap at 100.
    assert_eq!(secs_digits(6000), [0, 0, 0, 0]);
    assert_eq!(secs_digits(u64::MAX), [6, 0, 1, 5]);
}

#[test]
fn clock_digits_counts_whole_seconds_since_start() {
    let start = 7 * TICK_HZ + 3;
    assert_eq!(clock_digits(start, start, TICK_HZ), (0, [0, 0, 0, 0]));
    assert_eq!(clock_digits(start + 3725 * TICK_HZ, start, TICK_HZ), (3725, [6, 2, 0, 5]));
    assert_eq!(clock_digits(start + 61 * TICK_HZ - 1, start, TICK_HZ), (60, [0, 1, 0, 0]));
    assert_eq!(clock_digits(1000, 0, 1000), (1, [0, 0, 0, 1]));
    assert_eq!(clock_digits(5, 3, 1), (2, [0, 0, 0, 2]));
}

#[test]
fn text_digits_reads_the_four_digits() {
    assert_eq!(text_digits("12:34"), [1, 2, 3, 4]);
    assert_eq!(text_digits("90:07"), [9, 0, 0, 7]);
    // Only the digit bytes are read; the middle one is taken as it is.
    assert_eq!(text_digits("98x76"), [9, 8, 7, 6]);
}

/// LED index of (x, y) on the clock's top-right-origin grid.
fn top_right(x: usize, y: usize) -> usize {
    (16 - y) * 17 + (16 - x)
}

#[test]
fn render_draws_the_face() {
    let mut g: DisplayGrid = Grid::new(GridOrigin::TopRight);
    g.set_foreground(BLUE);
    render_digits(&mut g, [1, 0, 0, 0]);
    let p = g.pixels();
    // Digit 1 in the first slot: column 0 lights rows 0 and 4.
    assert_eq!(p[top_right(0, 5)], BLUE);
    assert_eq!(p[top_right(0, 6)], Color { r: 0, g: 0, b: 0 });
    assert_eq!(p[top_right(0, 9)], BLUE);
    // The colon: rows 1 and 4 of column 8.
    assert_eq!(p[top_right(8, 6)], BLUE);
    assert_eq!(p[top_right(8, 9)], BLUE);
    assert_eq!(p[top_right(8, 5)], Color { r: 0, g: 0, b: 0 });
    // Nothing outside the glyph rows.
    for x in 0..17 {
        assert_eq!(p[top_right(x, 4)], Color { r: 0, g: 0, b: 0 });
        assert_eq!(p[top_right(x, 11)], Color { r: 0, g: 0, b: 0 });
    }
}

#[test]
fn digits_above_nine_are_left_blank() {
    let mut g: DisplayGrid = Grid::new(GridOrigin::BottomLeft);
    render_digits(&mut g, [10, 10, 10, 10]);
    let lit = g.pixels().iter().filter(|c| **c != Color { r: 0, g: 0, b: 0 }).count();
    assert_eq!(lit, 2); // only the colon
}

#[test]
fn ticks_redraw_only_a_new_second_of_the_clock() {
    let start = 1000;
    let at = |secs: u64| start + secs * TICK_HZ;
    let mut d = Display::new(Grid::new(GridOrigin::TopRight), start);
    assert_eq!(d.ticks_per_second(), TICK_HZ);
    assert!(d.on_tick(at(5)));
    assert!(!d.on_tick(at(5) + 1));
    assert!(d.on_tick(at(6)));
    d.on_command(parse_line("TEXT 12:34").unwrap(), at(7));
    assert_eq!(d.mode(), DisplayMode::Text([1, 2, 3, 4]));
    assert!(!d.on_tick(at(8)));
    assert!(!d.on_tick(at(9)));
    d.on_command(Command::Clock, at(10));
    assert_eq!(d.mode(), DisplayMode::Clock);
    assert!(!d.on_tick(at(10)));
    assert!(d.on_tick(at(11)));
}

#[test]
fn commands_change_colour_and_brightness_and_redraw() {
    let mut d = Display::new(Grid::new(GridOrigin::TopRight), 0);
    d.on_command(Command::Color(BLUE), 0);
    assert_eq!(d.grid().foreground(), BLUE);
    // 00:00 shows digit 0, whose first column lights rows 1 to 4.
    assert_eq!(d.grid().pixels()[top_right(0, 6)], BLUE);
    d.on_command(Command::Brightness(40), 0);
    assert_eq!(d.grid().brightness(), 40);
    assert_eq!(d.mode(), DisplayMode::Clock);
}

#[test]
fn join_outcomes() {
    assert_eq!(join_outcome(JoinAttempt::Joined, Some([192, 168, 1, 9])), Ok([192, 168, 1, 9]));
    assert_eq!(join_outcome(JoinAttempt::Joined, None), Err("no ipv4 lease"));
    assert_eq!(join_outcome(JoinAttempt::Failed, Some([10, 0, 0, 1])), Err("wifi join failed"));
    assert_eq!(join_outcome(JoinAttempt::TimedOut, None), Err("wifi join timed out"));
}

#[test]
fn usb_buffers_start_zeroed() {
    let b = UsbBuffers::new();
    assert!(b.config_descriptor.iter().all(|x| *x == 0));
    assert!(b.bos_descriptor.iter().all(|x| *x == 0));
    assert!(b.control_buf.iter().all(|x| *x == 0));
    assert_eq!(b.read_buf.len(), MAX_PACKET_SIZE as usize);
    assert!(b.read_buf.iter().all(|x| *x == 0));
}
