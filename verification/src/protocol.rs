//! Line-based text protocol for controlling the display.
//!
//! One command per line. A line is trimmed of white space, split at its first
//! space into a command word (matched without regard to ASCII case) and its
//! argument (trimmed again):
//!
//! - `TEXT DD:DD`: show two digits, a colon and two digits;
//! - `CLOCK`: go back to the elapsed-time clock (any argument is ignored);
//! - `COLOR RRGGBB`: set the drawing colour, three two-digit hex bytes;
//! - `BRIGHTNESS N`: set the brightness, a decimal `N` from 0 to 255.
//!
//! Parsing never panics: anything that is not one of these shapes is an
//! `Err` naming the reason.
use crate::buffers::{text_buffer_chars, TextBuffer};
use crate::grid::Color;
use vstd::prelude::*;

verus! {

/// A parsed, fully validated client command.
#[derive(PartialEq, Eq, Debug)]
pub enum Command {
    /// Show this exact five-byte `DD:DD` text with the digit and colon font,
    /// in place of the clock until `Clock` is sent.
    Text(TextBuffer),
    /// Resume the elapsed-time clock.
    Clock,
    /// Set the colour glyphs are drawn in.
    Color(Color),
    /// Set the overall LED brightness (0-255).
    Brightness(u8),
}

/// What a command means: its text is taken as the characters it holds.
pub enum CommandView {
    Text(Seq<char>),
    Clock,
    Color(Color),
    Brightness(u8),
}

impl View for Command {
    type V = CommandView;

    open spec fn view(&self) -> CommandView {
        match self {
            Command::Text(t) => CommandView::Text(text_buffer_chars(*t)),
            Command::Clock => CommandView::Clock,
            Command::Color(c) => CommandView::Color(*c),
            Command::Brightness(b) => CommandView::Brightness(*b),
        }
    }
}

/// Why a command line was refused.
#[derive(Clone, Copy, PartialEq, Eq, Structural, Debug)]
pub enum ProtocolError {
    UnknownCommand,
    BadArgs,
    UnsupportedChar,
}

/// The meaning of a parse result.
pub open spec fn parsed_view(r: Result<Command, ProtocolError>) -> Result<CommandView, ProtocolError> {
    match r {
        Ok(c) => Ok(c@),
        Err(e) => Err(e),
    }
}

pub open spec fn reason_text(e: ProtocolError) -> Seq<char> {
    match e {
        ProtocolError::UnknownCommand => "unknown command"@,
        ProtocolError::BadArgs => "bad args"@,
        ProtocolError::UnsupportedChar => "unsupported char"@,
    }
}

impl ProtocolError {
    /// The reason as sent back to the client after `ERR `.
    pub fn reason(&self) -> (r: &'static str)
        ensures
            r@ == reason_text(*self),
    {
        match self {
            ProtocolError::UnknownCommand => "unknown command",
            ProtocolError::BadArgs => "bad args",
            ProtocolError::UnsupportedChar => "unsupported char",
        }
    }
}

/// Unicode `White_Space`, the characters that `str::trim` removes.
pub open spec fn is_white_space(c: char) -> bool {
    let v = c as u32;
    ||| 0x09 <= v <= 0x0d
    ||| v == 0x20
    ||| v == 0x85
    ||| v == 0xa0
    ||| v == 0x1680
    ||| 0x2000 <= v <= 0x200a
    ||| v == 0x2028
    ||| v == 0x2029
    ||| v == 0x202f
    ||| v == 0x205f
    ||| v == 0x3000
}

/// `s` without its leading white space.
pub open spec fn trim_start(s: Seq<char>) -> Seq<char>
    decreases s.len(),
{
    if s.len() > 0 && is_white_space(s[0]) {
        trim_start(s.drop_first())
    } else {
        s
    }
}

/// `s` without its trailing white space.
pub open spec fn trim_end(s: Seq<char>) -> Seq<char>
    decreases s.len(),
{
    if s.len() > 0 && is_white_space(s.last()) {
        trim_end(s.drop_last())
    } else {
        s
    }
}

/// `s` without leading and trailing white space.
pub open spec fn trim(s: Seq<char>) -> Seq<char> {
    trim_end(trim_start(s))
}

/// Index of the first space in `s`, or its length if there is none.
pub open spec fn space_pos(s: Seq<char>) -> int
    decreases s.len(),
{
    if s.len() == 0 || s[0] == ' ' {
        0
    } else {
        1 + space_pos(s.drop_first())
    }
}

/// The code of `c`, with ASCII upper-case letters taken to lower case.
pub open spec fn ascii_lower(c: char) -> int {
    if 0x41 <= c as u32 <= 0x5a {
        c as u32 + 0x20
    } else {
        c as u32 as int
    }
}

/// `a` and `b` are equal apart from the case of ASCII letters.
pub open spec fn eq_ignore_ascii_case(a: Seq<char>, b: Seq<char>) -> bool {
    a.len() == b.len() && forall|i: int| 0 <= i < a.len() ==> ascii_lower(#[trigger] a[i]) == ascii_lower(b[i])
}

/// Number of bytes of the UTF-8 encoding of `c`.
pub open spec fn char_utf8_len(c: char) -> nat {
    if (c as u32) < 0x80 {
        1
    } else if (c as u32) < 0x800 {
        2
    } else if (c as u32) < 0x10000 {
        3
    } else {
        4
    }
}

/// Number of bytes of the UTF-8 encoding of `s`.
pub open spec fn utf8_len(s: Seq<char>) -> nat
    decreases s.len(),
{
    if s.len() == 0 {
        0
    } else {
        utf8_len(s.drop_last()) + char_utf8_len(s.last())
    }
}

pub open spec fn is_digit(c: char) -> bool {
    '0' <= c <= '9'
}

pub open spec fn is_hex_digit(c: char) -> bool {
    ||| '0' <= c <= '9'
    ||| 'a' <= c <= 'f'
    ||| 'A' <= c <= 'F'
}

pub open spec fn hex_value(c: char) -> int {
    if '0' <= c <= '9' {
        c as int - '0' as int
    } else if 'a' <= c <= 'f' {
        c as int - 'a' as int + 10
    } else {
        c as int - 'A' as int + 10
    }
}

/// Whether `a b` is a byte written in hex: two hex digits.
pub open spec fn hex_pair_ok(a: char, b: char) -> bool {
    is_hex_digit(a) && is_hex_digit(b)
}

/// The byte that the hex digits `a b` spell.
pub open spec fn hex_pair_value(a: char, b: char) -> int {
    16 * hex_value(a) + hex_value(b)
}

pub open spec fn all_digits(s: Seq<char>) -> bool {
    forall|i: int| 0 <= i < s.len() ==> is_digit(#[trigger] s[i])
}

/// The number that the decimal digits `s` spell.
pub open spec fn decimal_value(s: Seq<char>) -> int
    decreases s.len(),
{
    if s.len() == 0 {
        0
    } else {
        decimal_value(s.drop_last()) * 10 + (s.last() as int - '0' as int)
    }
}

/// `DD:DD`: exactly five bytes, else `BadArgs`; digits around a colon, else
/// `UnsupportedChar`.
pub open spec fn spec_parse_text(s: Seq<char>) -> Result<CommandView, ProtocolError> {
    if utf8_len(s) != 5 {
        Err(ProtocolError::BadArgs)
    } else if s.len() == 5 && is_digit(s[0]) && is_digit(s[1]) && s[2] == ':' && is_digit(s[3])
        && is_digit(s[4]) {
        Ok(CommandView::Text(s))
    } else {
        Err(ProtocolError::UnsupportedChar)
    }
}

/// `RRGGBB`: exactly six hex digits, two per byte, else `BadArgs`.
pub open spec fn spec_parse_color(s: Seq<char>) -> Result<CommandView, ProtocolError> {
    if s.len() == 6 && hex_pair_ok(s[0], s[1]) && hex_pair_ok(s[2], s[3]) && hex_pair_ok(
        s[4],
        s[5],
    ) {
        Ok(
            CommandView::Color(
                Color {
                    r: hex_pair_value(s[0], s[1]) as u8,
                    g: hex_pair_value(s[2], s[3]) as u8,
                    b: hex_pair_value(s[4], s[5]) as u8,
                },
            ),
        )
    } else {
        Err(ProtocolError::BadArgs)
    }
}

/// The digits of a decimal number after its optional plus sign.
pub open spec fn unsigned_digits(s: Seq<char>) -> Seq<char> {
    if s.len() > 0 && s[0] == '+' {
        s.drop_first()
    } else {
        s
    }
}

/// A decimal number from 0 to 255, as read by `str::parse::<u16>` then
/// `u8::try_from`: an optional plus sign, then at least one decimal digit
/// (leading zeros allowed) and nothing else, else `BadArgs`.
pub open spec fn spec_parse_brightness(s: Seq<char>) -> Result<CommandView, ProtocolError> {
    let d = unsigned_digits(s);
    if d.len() > 0 && all_digits(d) && decimal_value(d) <= 255 {
        Ok(CommandView::Brightness(decimal_value(d) as u8))
    } else {
        Err(ProtocolError::BadArgs)
    }
}

pub open spec fn word_text() -> Seq<char> {
    seq!['T', 'E', 'X', 'T']
}

pub open spec fn word_clock() -> Seq<char> {
    seq!['C', 'L', 'O', 'C', 'K']
}

pub open spec fn word_color() -> Seq<char> {
    seq!['C', 'O', 'L', 'O', 'R']
}

pub open spec fn word_brightness() -> Seq<char> {
    seq!['B', 'R', 'I', 'G', 'H', 'T', 'N', 'E', 'S', 'S']
}

/// The command word of a line: the trimmed line up to its first space.
pub open spec fn command_word(line: Seq<char>) -> Seq<char> {
    let t = trim(line);
    t.take(space_pos(t))
}

/// The argument of a line: what follows the first space of the trimmed line,
/// trimmed, or nothing.
pub open spec fn command_arg(line: Seq<char>) -> Seq<char> {
    let t = trim(line);
    let p = space_pos(t);
    if p < t.len() {
        trim(t.skip(p + 1))
    } else {
        Seq::empty()
    }
}

/// What one command line means.
pub open spec fn spec_parse_line(line: Seq<char>) -> Result<CommandView, ProtocolError> {
    let cmd = command_word(line);
    let rest = command_arg(line);
    if eq_ignore_ascii_case(cmd, word_text()) {
        spec_parse_text(rest)
    } else if eq_ignore_ascii_case(cmd, word_clock()) {
        Ok(CommandView::Clock)
    } else if eq_ignore_ascii_case(cmd, word_color()) {
        spec_parse_color(rest)
    } else if eq_ignore_ascii_case(cmd, word_brightness()) {
        spec_parse_brightness(rest)
    } else {
        Err(ProtocolError::UnknownCommand)
    }
}

// ---------------------------------------------------------------------------
// Executable parsing. The line is taken apart as a vector of its characters;
// a part of it is a window `lo..hi` of that vector.
// ---------------------------------------------------------------------------

fn chars_of(s: &str) -> (v: Vec<char>)
    ensures
        v@ == s@,
{
    let mut v: Vec<char> = Vec::new();
    for c in it: s.chars()
        invariant
            v@ == it.seq().take(it.index() as int),
    {
        v.push(c);
    }
    v
}

fn is_white_space_char(c: char) -> (r: bool)
    ensures
        r == is_white_space(c),
{
    let v = c as u32;
    (0x09 <= v && v <= 0x0d) || v == 0x20 || v == 0x85 || v == 0xa0 || v == 0x1680 || (0x2000 <= v
        && v <= 0x200a) || v == 0x2028 || v == 0x2029 || v == 0x202f || v == 0x205f || v == 0x3000
}

/// The window of `v[lo..hi]` left after trimming.
fn trim_window(v: &Vec<char>, lo: usize, hi: usize) -> (r: (usize, usize))
    requires
        lo <= hi <= v.len(),
    ensures
        lo <= r.0 <= r.1 <= hi,
        v@.subrange(r.0 as int, r.1 as int) == trim(v@.subrange(lo as int, hi as int)),
{
    let mut a = lo;
    while a < hi && is_white_space_char(v[a])
        invariant
            lo <= a <= hi,
            hi <= v.len(),
            trim_start(v@.subrange(lo as int, hi as int)) == trim_start(
                v@.subrange(a as int, hi as int),
            ),
        decreases hi - a,
    {
        assert(v@.subrange(a as int, hi as int).drop_first() =~= v@.subrange(a + 1, hi as int));
        a = a + 1;
    }
    assert(trim_start(v@.subrange(lo as int, hi as int)) == v@.subrange(a as int, hi as int));
    let mut b = hi;
    while b > a && is_white_space_char(v[b - 1])
        invariant
            a <= b <= hi,
            hi <= v.len(),
            trim_end(v@.subrange(a as int, hi as int)) == trim_end(v@.subrange(a as int, b as int)),
        decreases b - a,
    {
        assert(v@.subrange(a as int, b as int).drop_last() =~= v@.subrange(a as int, b - 1));
        b = b - 1;
    }
    (a, b)
}

/// Position of the first space in `v[lo..hi]`, or `hi`.
fn find_space(v: &Vec<char>, lo: usize, hi: usize) -> (p: usize)
    requires
        lo <= hi <= v.len(),
    ensures
        lo <= p <= hi,
        p - lo == space_pos(v@.subrange(lo as int, hi as int)),
{
    let mut p = lo;
    while p < hi && v[p] != ' '
        invariant
            lo <= p <= hi,
            hi <= v.len(),
            space_pos(v@.subrange(lo as int, hi as int)) == (p - lo) + space_pos(
                v@.subrange(p as int, hi as int),
            ),
        decreases hi - p,
    {
        assert(v@.subrange(p as int, hi as int).drop_first() =~= v@.subrange(p + 1, hi as int));
        p = p + 1;
    }
    p
}

fn ascii_lower_char(c: char) -> (r: u32)
    ensures
        r == ascii_lower(c),
{
    let v = c as u32;
    if 0x41 <= v && v <= 0x5a {
        v + 0x20
    } else {
        v
    }
}

/// Whether `v[lo..hi]` is `word` apart from ASCII case.
fn window_eq_ignore_case(v: &Vec<char>, lo: usize, hi: usize, word: &[char]) -> (r: bool)
    requires
        lo <= hi <= v.len(),
    ensures
        r == eq_ignore_ascii_case(v@.subrange(lo as int, hi as int), word@),
{
    if hi - lo != word.len() {
        return false;
    }
    let mut i: usize = 0;
    while i < word.len()
        invariant
            hi - lo == word.len(),
            lo <= hi <= v.len(),
            i <= word.len(),
            forall|j: int| 0 <= j < i ==> ascii_lower(#[trigger] v@[lo + j]) == ascii_lower(word@[j]),
        decreases word.len() - i,
    {
        if ascii_lower_char(v[lo + i]) != ascii_lower_char(word[i]) {
            assert(v@.subrange(lo as int, hi as int)[i as int] == v@[lo + i]);
            return false;
        }
        i = i + 1;
    }
    assert forall|j: int| 0 <= j < hi - lo implies ascii_lower(
        #[trigger] v@.subrange(lo as int, hi as int)[j],
    ) == ascii_lower(word@[j]) by {
        assert(v@.subrange(lo as int, hi as int)[j] == v@[lo + j]);
    }
    true
}

proof fn lemma_utf8_len_prefix(s: Seq<char>, k: int)
    requires
        0 <= k <= s.len(),
    ensures
        utf8_len(s.take(k)) <= utf8_len(s),
    decreases s.len(),
{
    if k < s.len() {
        assert(s.drop_last().take(k) =~= s.take(k));
        lemma_utf8_len_prefix(s.drop_last(), k);
    } else {
        assert(s.take(k) =~= s);
    }
}

fn char_utf8_len_exec(c: char) -> (n: usize)
    ensures
        n == char_utf8_len(c),
{
    let v = c as u32;
    if v < 0x80 {
        1
    } else if v < 0x800 {
        2
    } else if v < 0x10000 {
        3
    } else {
        4
    }
}

/// Whether the UTF-8 encoding of `v[lo..hi]` is `n` bytes long.
fn window_utf8_len_is(v: &Vec<char>, lo: usize, hi: usize, n: usize) -> (r: bool)
    requires
        lo <= hi <= v.len(),
        n <= 16,
    ensures
        r == (utf8_len(v@.subrange(lo as int, hi as int)) == n),
{
    let mut acc: usize = 0;
    let mut i = lo;
    while i < hi
        invariant
            lo <= i <= hi,
            hi <= v.len(),
            n <= 16,
            acc <= n,
            acc == utf8_len(v@.subrange(lo as int, i as int)),
        decreases hi - i,
    {
        let ghost prev = v@.subrange(lo as int, i as int);
        assert(v@.subrange(lo as int, i + 1).drop_last() =~= prev);
        let l = char_utf8_len_exec(v[i]);
        if acc + l > n {
            proof {
                let full = v@.subrange(lo as int, hi as int);
                assert(full.take(i + 1 - lo) =~= v@.subrange(lo as int, i + 1));
                lemma_utf8_len_prefix(full, i + 1 - lo);
            }
            return false;
        }
        acc = acc + l;
        i = i + 1;
    }
    acc == n
}

fn parse_text_window(v: &Vec<char>, lo: usize, hi: usize) -> (r: Result<Command, ProtocolError>)
    requires
        lo <= hi <= v.len(),
    ensures
        parsed_view(r) == spec_parse_text(v@.subrange(lo as int, hi as int)),
{
    let ghost s = v@.subrange(lo as int, hi as int);
    if !window_utf8_len_is(v, lo, hi, 5) {
        return Err(ProtocolError::BadArgs);
    }
    if hi - lo != 5 {
        return Err(ProtocolError::UnsupportedChar);
    }
    assert(s[0] == v@[lo as int] && s[1] == v@[lo + 1] && s[2] == v@[lo + 2] && s[3] == v@[lo + 3]
        && s[4] == v@[lo + 4]);
    let c0 = v[lo];
    let c1 = v[lo + 1];
    let c2 = v[lo + 2];
    let c3 = v[lo + 3];
    let c4 = v[lo + 4];
    let ok = '0' <= c0 && c0 <= '9' && '0' <= c1 && c1 <= '9' && c2 == ':' && '0' <= c3 && c3
        <= '9' && '0' <= c4 && c4 <= '9';
    if !ok {
        return Err(ProtocolError::UnsupportedChar);
    }
    let mut text = TextBuffer::new();
    let mut i = lo;
    while i < hi
        invariant
            lo <= i <= hi,
            hi == lo + 5,
            hi <= v.len(),
            s == v@.subrange(lo as int, hi as int),
            is_digit(s[0]) && is_digit(s[1]) && s[2] == ':' && is_digit(s[3]) && is_digit(s[4]),
            text_buffer_chars(text) == v@.subrange(lo as int, i as int),
            utf8_len(text_buffer_chars(text)) == i - lo,
        decreases hi - i,
    {
        let c = v[i];
        assert(c == s[i - lo]);
        assert(v@.subrange(lo as int, i + 1) =~= v@.subrange(lo as int, i as int).push(c));
        proof {
            let t = text_buffer_chars(text);
            assert(t.push(c).drop_last() =~= t);
        }
        if text.push(c).is_err() {
            return Err(ProtocolError::BadArgs);
        }
        i = i + 1;
    }
    Ok(Command::Text(text))
}

fn hex_digit_value(c: char) -> (r: Option<u8>)
    ensures
        r is Some <==> is_hex_digit(c),
        r matches Some(d) ==> d == hex_value(c) && d < 16,
{
    let v = c as u32;
    if 0x30 <= v && v <= 0x39 {
        Some((v - 0x30) as u8)
    } else if 0x61 <= v && v <= 0x66 {
        Some((v - 0x61 + 10) as u8)
    } else if 0x41 <= v && v <= 0x46 {
        Some((v - 0x41 + 10) as u8)
    } else {
        None
    }
}

/// One byte of a colour, read from its two hex digits.
fn hex_pair(a: char, b: char) -> (r: Option<u8>)
    ensures
        r is Some <==> hex_pair_ok(a, b),
        r matches Some(x) ==> x == hex_pair_value(a, b),
{
    let lo = match hex_digit_value(b) {
        Some(d) => d,
        None => return None,
    };
    match hex_digit_value(a) {
        Some(hi) => Some(hi * 16 + lo),
        None => None,
    }
}

fn parse_color_window(v: &Vec<char>, lo: usize, hi: usize) -> (r: Result<Command, ProtocolError>)
    requires
        lo <= hi <= v.len(),
    ensures
        parsed_view(r) == spec_parse_color(v@.subrange(lo as int, hi as int)),
{
    let ghost s = v@.subrange(lo as int, hi as int);
    if hi - lo != 6 {
        return Err(ProtocolError::BadArgs);
    }
    assert(s[0] == v@[lo as int] && s[1] == v@[lo + 1] && s[2] == v@[lo + 2] && s[3] == v@[lo + 3]
        && s[4] == v@[lo + 4] && s[5] == v@[lo + 5]);
    let r = match hex_pair(v[lo], v[lo + 1]) {
        Some(x) => x,
        None => return Err(ProtocolError::BadArgs),
    };
    let g = match hex_pair(v[lo + 2], v[lo + 3]) {
        Some(x) => x,
        None => return Err(ProtocolError::BadArgs),
    };
    let b = match hex_pair(v[lo + 4], v[lo + 5]) {
        Some(x) => x,
        None => return Err(ProtocolError::BadArgs),
    };
    Ok(Command::Color(Color { r, g, b }))
}

proof fn lemma_decimal_value_nonneg(s: Seq<char>)
    requires
        all_digits(s),
    ensures
        decimal_value(s) >= 0,
    decreases s.len(),
{
    if s.len() > 0 {
        assert(all_digits(s.drop_last())) by {
            assert forall|i: int| 0 <= i < s.drop_last().len() implies is_digit(
                #[trigger] s.drop_last()[i],
            ) by {
                assert(s.drop_last()[i] == s[i]);
            }
        }
        lemma_decimal_value_nonneg(s.drop_last());
        assert(is_digit(s[s.len() - 1]));
    }
}

fn parse_brightness_window(v: &Vec<char>, lo: usize, hi: usize) -> (r: Result<
    Command,
    ProtocolError,
>)
    requires
        lo <= hi <= v.len(),
    ensures
        parsed_view(r) == spec_parse_brightness(v@.subrange(lo as int, hi as int)),
{
    let ghost s = v@.subrange(lo as int, hi as int);
    // Skip the optional plus sign; `d` is what follows it.
    let mut start = lo;
    if lo < hi && v[lo] == '+' {
        start = lo + 1;
        assert(s.drop_first() =~= v@.subrange(start as int, hi as int));
    } else {
        assert(s =~= v@.subrange(start as int, hi as int));
    }
    let ghost d = unsigned_digits(s);
    if start == hi {
        return Err(ProtocolError::BadArgs);
    }
    // `acc` is the value read so far, or 256 once it is past 255.
    let mut acc: u32 = 0;
    let mut i = start;
    while i < hi
        invariant
            start <= i <= hi,
            hi <= v.len(),
            d == v@.subrange(start as int, hi as int),
            d == unsigned_digits(s),
            s == v@.subrange(lo as int, hi as int),
            all_digits(v@.subrange(start as int, i as int)),
            acc <= 256,
            decimal_value(v@.subrange(start as int, i as int)) <= 255 ==> acc == decimal_value(
                v@.subrange(start as int, i as int),
            ),
            decimal_value(v@.subrange(start as int, i as int)) > 255 ==> acc == 256,
        decreases hi - i,
    {
        let c = v[i];
        let ghost prev = v@.subrange(start as int, i as int);
        let ghost next = v@.subrange(start as int, i + 1);
        assert(next.drop_last() =~= prev);
        assert(next.last() == c);
        if !('0' <= c && c <= '9') {
            assert(d[i - start] == c);
            assert(!is_digit(d[i - start]));
            return Err(ProtocolError::BadArgs);
        }
        proof {
            lemma_decimal_value_nonneg(prev);
            assert forall|j: int| 0 <= j < next.len() implies is_digit(#[trigger] next[j]) by {
                if j < prev.len() {
                    assert(next[j] == prev[j]);
                }
            }
        }
        let digit = (c as u32) - 0x30;
        if acc <= 255 {
            acc = acc * 10 + digit;
            if acc > 255 {
                acc = 256;
            }
        }
        i = i + 1;
    }
    assert(v@.subrange(start as int, i as int) =~= d);
    if acc > 255 {
        return Err(ProtocolError::BadArgs);
    }
    Ok(Command::Brightness(acc as u8))
}

fn parse_line_window(v: &Vec<char>) -> (r: Result<Command, ProtocolError>)
    ensures
        parsed_view(r) == spec_parse_line(v@),
{
    let len = v.len();
    let (a, b) = trim_window(v, 0, len);
    assert(v@.subrange(0, len as int) =~= v@);
    let ghost t = v@.subrange(a as int, b as int);
    let p = find_space(v, a, b);
    assert(t.take(p - a) =~= v@.subrange(a as int, p as int));
    let (ra, rb) = if p < b {
        assert(t.skip(p - a + 1) =~= v@.subrange(p + 1, b as int));
        trim_window(v, p + 1, b)
    } else {
        assert(v@.subrange(b as int, b as int) =~= Seq::<char>::empty());
        (b, b)
    };
    let text = ['T', 'E', 'X', 'T'];
    let clock = ['C', 'L', 'O', 'C', 'K'];
    let color = ['C', 'O', 'L', 'O', 'R'];
    let brightness = ['B', 'R', 'I', 'G', 'H', 'T', 'N', 'E', 'S', 'S'];
    assert(text@ =~= word_text());
    assert(clock@ =~= word_clock());
    assert(color@ =~= word_color());
    assert(brightness@ =~= word_brightness());
    if window_eq_ignore_case(v, a, p, &text) {
        parse_text_window(v, ra, rb)
    } else if window_eq_ignore_case(v, a, p, &clock) {
        Ok(Command::Clock)
    } else if window_eq_ignore_case(v, a, p, &color) {
        parse_color_window(v, ra, rb)
    } else if window_eq_ignore_case(v, a, p, &brightness) {
        parse_brightness_window(v, ra, rb)
    } else {
        Err(ProtocolError::UnknownCommand)
    }
}

/// Parses one command line.
pub fn parse_line(line: &str) -> (r: Result<Command, ProtocolError>)
    ensures
        parsed_view(r) == spec_parse_line(line@),
{
    let v = chars_of(line);
    parse_line_window(&v)
}

/// Parses the argument of `TEXT`.
pub fn parse_text(s: &str) -> (r: Result<Command, ProtocolError>)
    ensures
        parsed_view(r) == spec_parse_text(s@),
{
    let v = chars_of(s);
    let n = v.len();
    assert(v@.subrange(0, n as int) =~= v@);
    parse_text_window(&v, 0, n)
}

/// Parses the argument of `COLOR`.
pub fn parse_color(s: &str) -> (r: Result<Command, ProtocolError>)
    ensures
        parsed_view(r) == spec_parse_color(s@),
{
    let v = chars_of(s);
    let n = v.len();
    assert(v@.subrange(0, n as int) =~= v@);
    parse_color_window(&v, 0, n)
}

/// Parses the argument of `BRIGHTNESS`.
pub fn parse_brightness(s: &str) -> (r: Result<Command, ProtocolError>)
    ensures
        parsed_view(r) == spec_parse_brightness(s@),
{
    let v = chars_of(s);
    let n = v.len();
    assert(v@.subrange(0, n as int) =~= v@);
    parse_brightness_window(&v, 0, n)
}

/// Law: hex digits are `0`-`9`, `a`-`f` and `A`-`F` and nothing else, with
/// their usual values: `0`-`9` are 0 to 9, and a letter is worth 10 to 15
/// whichever its case.
pub proof fn lemma_hex_digits(c: char)
    ensures
        is_hex_digit(c) <==> ('0' <= c <= '9' || 'a' <= c <= 'f' || 'A' <= c <= 'F'),
        '0' <= c <= '9' ==> hex_value(c) == c as int - 48,
        'a' <= c <= 'f' ==> hex_value(c) == c as int - 87,
        'A' <= c <= 'F' ==> hex_value(c) == c as int - 55,
        is_hex_digit(c) ==> 0 <= hex_value(c) < 16,
{
}

/// Law: `COLOR` takes any six hex digits, in either case, as the bytes they
/// spell (high digit first), and refuses the argument when any of the six is
/// not a hex digit.
pub proof fn lemma_color_hex(s: Seq<char>)
    requires
        s.len() == 6,
    ensures
        (forall|i: int| 0 <= i < 6 ==> #[trigger] is_hex_digit(s[i])) ==> spec_parse_color(s)
            == Ok::<CommandView, ProtocolError>(
            CommandView::Color(
                Color {
                    r: (16 * hex_value(s[0]) + hex_value(s[1])) as u8,
                    g: (16 * hex_value(s[2]) + hex_value(s[3])) as u8,
                    b: (16 * hex_value(s[4]) + hex_value(s[5])) as u8,
                },
            ),
        ),
        (exists|i: int| 0 <= i < 6 && !#[trigger] is_hex_digit(s[i])) ==> spec_parse_color(s)
            == Err::<CommandView, ProtocolError>(ProtocolError::BadArgs),
{
    if forall|i: int| 0 <= i < 6 ==> #[trigger] is_hex_digit(s[i]) {
        assert(is_hex_digit(s[0]) && is_hex_digit(s[1]) && is_hex_digit(s[2]));
        assert(is_hex_digit(s[3]) && is_hex_digit(s[4]) && is_hex_digit(s[5]));
    }
}

/// Law: command words match without regard to ASCII case: an upper-case
/// ASCII letter and its lower-case form compare equal, and every other
/// character compares only with itself.
pub proof fn lemma_ascii_case(c: char, d: char)
    ensures
        'A' <= c <= 'Z' ==> ascii_lower(c) == c as int + 32,
        !('A' <= c <= 'Z') ==> ascii_lower(c) == c as int,
        ascii_lower(c) == ascii_lower(d) <==> (c == d || (c as int - d as int == 32 && 'A' <= d
            <= 'Z') || (d as int - c as int == 32 && 'A' <= c <= 'Z')),
{
}

/// Law: among ASCII characters, trimming removes exactly the space and the
/// control characters tab, line feed, vertical tab, form feed and carriage
/// return.
pub proof fn lemma_ascii_white_space(c: char)
    requires
        (c as u32) < 0x80,
    ensures
        is_white_space(c) <==> (c == ' ' || c == '\t' || c == '\n' || c == '\x0b' || c == '\x0c' || c
            == '\r'),
{
}

/// Law: an ASCII character takes one byte of UTF-8 and every other character
/// more, so text of ASCII characters takes as many bytes as it has characters.
pub proof fn lemma_utf8_len_ascii(s: Seq<char>)
    ensures
        forall|c: char| #[trigger] char_utf8_len(c) == 1 <==> (c as u32) < 0x80,
        (forall|i: int| 0 <= i < s.len() ==> (#[trigger] s[i] as u32) < 0x80) ==> utf8_len(s)
            == s.len(),
    decreases s.len(),
{
    if s.len() > 0 {
        if forall|i: int| 0 <= i < s.len() ==> (#[trigger] s[i] as u32) < 0x80 {
            assert forall|i: int| 0 <= i < s.drop_last().len() implies (
            #[trigger] s.drop_last()[i] as u32) < 0x80 by {
                assert(s.drop_last()[i] == s[i]);
            }
            assert((s[s.len() - 1] as u32) < 0x80);
        }
        lemma_utf8_len_ascii(s.drop_last());
    }
}

/// Law: a decimal number is read as usual: one digit is worth its own value,
/// and leading zeros change nothing.
pub proof fn lemma_decimal_value(c: char, s: Seq<char>)
    requires
        is_digit(c),
    ensures
        decimal_value(seq![c]) == c as int - 48,
        decimal_value(seq!['0'] + s) == decimal_value(s),
    decreases s.len(),
{
    let e = Seq::<char>::empty();
    assert(decimal_value(e) == 0);
    assert(seq![c].drop_last() =~= e);
    assert(seq![c].last() == c);
    assert(decimal_value(seq![c]) == decimal_value(e) * 10 + (c as int - '0' as int));
    if s.len() == 0 {
        assert(seq!['0'] + s =~= seq!['0']);
        assert(seq!['0'].drop_last() =~= e);
        assert(decimal_value(seq!['0']) == decimal_value(e) * 10 + ('0' as int - '0' as int));
    } else {
        assert((seq!['0'] + s).drop_last() =~= seq!['0'] + s.drop_last());
        assert((seq!['0'] + s).last() == s.last());
        lemma_decimal_value(c, s.drop_last());
    }
}

} // verus!
