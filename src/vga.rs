//! Text-mode display: a grid of character cells with a cursor and an active
//! color attribute.
use vstd::prelude::*;
use vstd::string::StringSliceAdditionalSpecFns;

verus! {

/// Height of the character grid, in rows.
pub const BUFFER_HEIGHT: usize = 25;

/// Width of the character grid, in columns.
pub const BUFFER_WIDTH: usize = 80;

/// Glyph shown in place of a byte that the display cannot render.
pub const REPLACEMENT_GLYPH: u8 = 0xfe;

/// The sixteen colors of the text-mode palette.
#[derive(Debug, Clone, Copy, PartialEq, Eq, Structural)]
pub enum Color {
    Black,
    Blue,
    Green,
    Cyan,
    Red,
    Magenta,
    Brown,
    LightGray,
    DarkGray,
    LightBlue,
    LightGreen,
    LightCyan,
    LightRed,
    Pink,
    Yellow,
    White,
}

/// Palette index of a color.
pub open spec fn color_index(c: Color) -> u8 {
    match c {
        Color::Black => 0,
        Color::Blue => 1,
        Color::Green => 2,
        Color::Cyan => 3,
        Color::Red => 4,
        Color::Magenta => 5,
        Color::Brown => 6,
        Color::LightGray => 7,
        Color::DarkGray => 8,
        Color::LightBlue => 9,
        Color::LightGreen => 10,
        Color::LightCyan => 11,
        Color::LightRed => 12,
        Color::Pink => 13,
        Color::Yellow => 14,
        Color::White => 15,
    }
}

impl Color {
    /// Palette index of this color, in `0..16`.
    pub fn as_u8(self) -> (r: u8)
        ensures
            r == color_index(self),
            r < 16,
    {
        match self {
            Color::Black => 0,
            Color::Blue => 1,
            Color::Green => 2,
            Color::Cyan => 3,
            Color::Red => 4,
            Color::Magenta => 5,
            Color::Brown => 6,
            Color::LightGray => 7,
            Color::DarkGray => 8,
            Color::LightBlue => 9,
            Color::LightGreen => 10,
            Color::LightCyan => 11,
            Color::LightRed => 12,
            Color::Pink => 13,
            Color::Yellow => 14,
            Color::White => 15,
        }
    }

    /// The color with palette index `code`; codes of 16 and above name no
    /// color and are rejected.
    pub fn from_u8(code: u8) -> (r: Option<Color>)
        ensures
            code < 16 <==> r.is_some(),
            r matches Some(c) ==> color_index(c) == code,
    {
        match code {
            0 => Some(Color::Black),
            1 => Some(Color::Blue),
            2 => Some(Color::Green),
            3 => Some(Color::Cyan),
            4 => Some(Color::Red),
            5 => Some(Color::Magenta),
            6 => Some(Color::Brown),
            7 => Some(Color::LightGray),
            8 => Some(Color::DarkGray),
            9 => Some(Color::LightBlue),
            10 => Some(Color::LightGreen),
            11 => Some(Color::LightCyan),
            12 => Some(Color::LightRed),
            13 => Some(Color::Pink),
            14 => Some(Color::Yellow),
            15 => Some(Color::White),
            _ => None,
        }
    }
}

/// A color attribute: background in the high four bits, foreground in the
/// low four bits.
#[derive(Debug, Clone, Copy, PartialEq, Eq, Structural)]
pub struct ColorCode(pub u8);

/// The attribute byte for a foreground on a background.
pub open spec fn attribute(foreground: Color, background: Color) -> u8 {
    (color_index(background) * 16 + color_index(foreground)) as u8
}

impl ColorCode {
    pub fn new(foreground: Color, background: Color) -> (r: ColorCode)
        ensures
            r.0 == attribute(foreground, background),
    {
        let f = foreground.as_u8();
        let b = background.as_u8();
        let r = (b << 4u8) | f;
        assert(r == b * 16 + f) by (bit_vector)
            requires
                f < 16,
                b < 16,
                r == (b << 4u8) | f,
        ;
        ColorCode(r)
    }

    pub fn new_with_black_background(foreground: Color) -> (r: ColorCode)
        ensures
            r.0 == attribute(foreground, Color::Black),
    {
        ColorCode::new(foreground, Color::Black)
    }
}

/// One cell of the grid: a character byte and its color attribute.
#[derive(Debug, Clone, Copy, PartialEq, Eq, Structural)]
pub struct ScreenChar {
    pub ascii_character: u8,
    pub color_code: ColorCode,
}

impl ScreenChar {
    pub fn new(byte: u8, color: ColorCode) -> (r: ScreenChar)
        ensures
            r.ascii_character == byte,
            r.color_code == color,
    {
        ScreenChar { ascii_character: byte, color_code: color }
    }
}

/// The character grid, row-major, laid out as the display hardware reads it.
pub struct Buffer {
    pub chars: [[ScreenChar; BUFFER_WIDTH]; BUFFER_HEIGHT],
}

/// What a writer shows: the grid as rows of cells, the cursor and the
/// active color.
pub struct Screen {
    pub rows: Seq<Seq<ScreenChar>>,
    pub row: int,
    pub col: int,
    pub color: ColorCode,
}

/// A row of blanks in `color`.
pub open spec fn blank_row(color: ColorCode) -> Seq<ScreenChar> {
    Seq::new(BUFFER_WIDTH as nat, |_i: int| ScreenChar { ascii_character: 0x20u8, color_code: color })
}

/// Bytes the display renders as themselves: printable ASCII and line feed.
pub open spec fn is_displayable(b: u8) -> bool {
    (0x20 <= b && b <= 0x7e) || b == 0x0a
}

/// The byte that lands on the display for `b`.
pub open spec fn glyph(b: u8) -> u8 {
    if is_displayable(b) {
        b
    } else {
        REPLACEMENT_GLYPH
    }
}

/// Number of bytes in the UTF-8 encoding of `c`.
pub open spec fn utf8_width(c: char) -> nat {
    if (c as u32) < 0x80 {
        1
    } else if (c as u32) < 0x800 {
        2
    } else if (c as u32) < 0x10000 {
        3
    } else {
        4
    }
}

/// Bytes handed to the display for `c`: an ASCII character as itself; any
/// other as one replacement glyph for each byte of its UTF-8 encoding, all of
/// which lie outside the ASCII range.
pub open spec fn char_bytes(c: char) -> Seq<u8> {
    if (c as u32) < 0x80 {
        seq![c as u8]
    } else {
        Seq::new(utf8_width(c), |_i: int| REPLACEMENT_GLYPH)
    }
}

/// Bytes handed to the display for each character of `cs`, in order.
pub open spec fn chars_bytes(cs: Seq<char>) -> Seq<u8>
    decreases cs.len(),
{
    if cs.len() == 0 {
        Seq::empty()
    } else {
        chars_bytes(cs.drop_last()) + char_bytes(cs.last())
    }
}

impl Screen {
    /// Grid dimensions hold and the cursor lies within the grid (the column
    /// may stand one past the last cell, awaiting a wrap).
    pub open spec fn wf(self) -> bool {
        &&& self.rows.len() == BUFFER_HEIGHT
        &&& forall|r: int| 0 <= r < BUFFER_HEIGHT ==> (#[trigger] self.rows[r]).len() == BUFFER_WIDTH
        &&& 0 <= self.row < BUFFER_HEIGHT
        &&& 0 <= self.col <= BUFFER_WIDTH
    }

    /// Same screen with a different active color.
    pub open spec fn with_color(self, color: ColorCode) -> Screen {
        Screen { color, ..self }
    }

    /// Line advance: below the last row the cursor moves down; on the last
    /// row every row moves up by one, the top row is lost and the bottom row
    /// is blanked. The column returns to zero either way.
    pub open spec fn new_line(self) -> Screen {
        if self.row < BUFFER_HEIGHT - 1 {
            Screen { row: self.row + 1, col: 0, ..self }
        } else {
            Screen {
                rows: self.rows.subrange(1, BUFFER_HEIGHT as int).push(blank_row(self.color)),
                col: 0,
                ..self
            }
        }
    }

    /// Places `b` at the cursor, wrapping first when the row is full.
    pub open spec fn place(self, b: u8) -> Screen {
        let s = if self.col >= BUFFER_WIDTH {
            self.new_line()
        } else {
            self
        };
        Screen {
            rows: s.rows.update(
                s.row,
                s.rows[s.row].update(s.col, ScreenChar { ascii_character: b, color_code: s.color }),
            ),
            col: s.col + 1,
            ..s
        }
    }

    /// Effect of writing one byte.
    pub open spec fn put(self, b: u8) -> Screen {
        if b == 0x0a {
            self.new_line()
        } else {
            self.place(glyph(b))
        }
    }

    /// Writing two byte strings one after the other is writing their
    /// concatenation.
    pub proof fn lemma_put_all_concat(self, a: Seq<u8>, b: Seq<u8>)
        ensures
            self.put_all(a + b) == self.put_all(a).put_all(b),
        decreases b.len(),
    {
        if b.len() == 0 {
            assert(a + b =~= a);
        } else {
            assert((a + b).drop_last() =~= a + b.drop_last());
            self.lemma_put_all_concat(a, b.drop_last());
        }
    }

    /// Writing never changes the active color.
    pub proof fn lemma_put_all_keeps_color(self, bytes: Seq<u8>)
        ensures
            self.put_all(bytes).color == self.color,
        decreases bytes.len(),
    {
        if bytes.len() > 0 {
            self.lemma_put_all_keeps_color(bytes.drop_last());
        }
    }

    /// Effect of writing `bytes` in order.
    pub open spec fn put_all(self, bytes: Seq<u8>) -> Screen
        decreases bytes.len(),
    {
        if bytes.len() == 0 {
            self
        } else {
            self.put_all(bytes.drop_last()).put(bytes.last())
        }
    }
}

/// Writing bytes that hold no line feed and fit in what is left of the row
/// keeps the cursor on its row and advances the column by their number; the
/// cell at each column written holds that byte's glyph in the active color,
/// and every other cell is unchanged.
pub proof fn write_within_line(s: Screen, bytes: Seq<u8>)
    requires
        s.wf(),
        forall|i: int| 0 <= i < bytes.len() ==> bytes[i] != 0x0a,
        s.col + bytes.len() <= BUFFER_WIDTH,
    ensures
        s.put_all(bytes).wf(),
        s.put_all(bytes).row == s.row,
        s.put_all(bytes).col == s.col + bytes.len(),
        s.put_all(bytes).color == s.color,
        forall|i: int|
            0 <= i < bytes.len() ==> #[trigger] s.put_all(bytes).rows[s.row][s.col + i] == (ScreenChar {
                ascii_character: glyph(bytes[i]),
                color_code: s.color,
            }),
        forall|r: int, c: int|
            0 <= r < BUFFER_HEIGHT && 0 <= c < BUFFER_WIDTH && !(r == s.row && s.col <= c < s.col
                + bytes.len()) ==> #[trigger] s.put_all(bytes).rows[r][c] == s.rows[r][c],
    decreases bytes.len(),
{
    if bytes.len() > 0 {
        let init = bytes.drop_last();
        write_within_line(s, init);
        let t = s.put_all(init);
        assert(bytes.last() == bytes[bytes.len() - 1]);
        let u = t.put(bytes.last());
        assert(u == s.put_all(bytes));
        assert forall|r: int| 0 <= r < BUFFER_HEIGHT implies #[trigger] u.rows[r].len()
            == BUFFER_WIDTH by {
            if r == t.row {
            }
        }
        assert forall|i: int| 0 <= i < bytes.len() implies #[trigger] u.rows[s.row][s.col + i]
            == (ScreenChar { ascii_character: glyph(bytes[i]), color_code: s.color }) by {
            if i < init.len() {
                assert(init[i] == bytes[i]);
                assert(t.rows[s.row][s.col + i] == u.rows[s.row][s.col + i]);
            }
        }
        assert forall|r: int, c: int|
            0 <= r < BUFFER_HEIGHT && 0 <= c < BUFFER_WIDTH && !(r == s.row && s.col <= c < s.col
                + bytes.len()) implies #[trigger] u.rows[r][c] == s.rows[r][c] by {
            assert(t.rows[r][c] == s.rows[r][c]);
        }
    }
}

/// On the last row a line advance moves every row up by one: the contents
/// of each row below the top land in the row above it, the top row's
/// contents are discarded, and the bottom row is blank in the active color.
/// The cursor stays on the last row, at column zero.
pub proof fn scroll_discards_top_row(s: Screen)
    requires
        s.wf(),
        s.row == BUFFER_HEIGHT - 1,
    ensures
        s.put(0x0a) == s.new_line(),
        s.new_line().wf(),
        s.new_line().row == BUFFER_HEIGHT - 1,
        s.new_line().col == 0,
        s.new_line().color == s.color,
        forall|r: int| 0 <= r < BUFFER_HEIGHT - 1 ==> #[trigger] s.new_line().rows[r] == s.rows[r + 1],
        s.new_line().rows[BUFFER_HEIGHT - 1] == blank_row(s.color),
{
    let t = s.new_line();
    assert forall|r: int| 0 <= r < BUFFER_HEIGHT implies #[trigger] t.rows[r].len()
        == BUFFER_WIDTH by {
        if r < BUFFER_HEIGHT - 1 {
            assert(t.rows[r] == s.rows[r + 1]);
        }
    }
}

/// A row showing `line` from its left edge, padded with blanks, in `color`.
pub open spec fn line_row(line: Seq<u8>, color: ColorCode) -> Seq<ScreenChar> {
    Seq::new(
        BUFFER_WIDTH as nat,
        |c: int|
            ScreenChar {
                ascii_character: if c < line.len() {
                    line[c]
                } else {
                    0x20u8
                },
                color_code: color,
            },
    )
}

/// Each line followed by a line feed, in order.
pub open spec fn lines_bytes(lines: Seq<Seq<u8>>) -> Seq<u8>
    decreases lines.len(),
{
    if lines.len() == 0 {
        Seq::empty()
    } else {
        lines_bytes(lines.drop_last()) + lines.last() + seq![0x0au8]
    }
}

/// A line that shows as itself on one row: printable bytes that fit.
pub open spec fn is_printable_line(line: Seq<u8>) -> bool {
    &&& line.len() <= BUFFER_WIDTH
    &&& forall|i: int| 0 <= i < line.len() ==> 0x20 <= #[trigger] line[i] <= 0x7e
}

/// Number of lines scrolled off the top once `n` lines have been written
/// from the top of a cleared grid.
pub open spec fn scrolled_off(n: int) -> int {
    if n > BUFFER_HEIGHT - 1 {
        n - (BUFFER_HEIGHT - 1)
    } else {
        0
    }
}

/// The grid after `lines` have been written, each ended by a line feed,
/// from the top of a grid cleared in `color`: the last (at most) height − 1
/// lines, oldest at the top, with blank rows below and the cursor at the
/// start of the first blank row.
pub open spec fn shown_lines(lines: Seq<Seq<u8>>, color: ColorCode) -> Screen {
    let off = scrolled_off(lines.len() as int);
    Screen {
        rows: Seq::new(
            BUFFER_HEIGHT as nat,
            |j: int|
                if j + off < lines.len() {
                    line_row(lines[j + off], color)
                } else {
                    blank_row(color)
                },
        ),
        row: lines.len() - off,
        col: 0,
        color,
    }
}

/// Writing lines, each ended by a line feed, on a grid just cleared in
/// `color` keeps only the newest height − 1 of them, oldest at the top: the
/// older lines are discarded for good, the bottom row is blank in `color`,
/// and the cursor rests at its start.
pub proof fn writing_lines_scrolls(lines: Seq<Seq<u8>>, color: ColorCode)
    requires
        forall|k: int| 0 <= k < lines.len() ==> is_printable_line(#[trigger] lines[k]),
    ensures
        shown_lines(Seq::empty(), color) == (Screen {
            rows: Seq::new(BUFFER_HEIGHT as nat, |_r: int| blank_row(color)),
            row: 0,
            col: 0,
            color,
        }),
        shown_lines(Seq::empty(), color).put_all(lines_bytes(lines)) == shown_lines(lines, color),
    decreases lines.len(),
{
    assert(shown_lines(Seq::empty(), color).rows =~= Seq::new(
        BUFFER_HEIGHT as nat,
        |_r: int| blank_row(color),
    ));
    if lines.len() > 0 {
        let init = lines.drop_last();
        let line = lines.last();
        assert(init.push(line) =~= lines);
        assert(is_printable_line(lines[lines.len() - 1]));
        assert forall|k: int| 0 <= k < init.len() implies is_printable_line(#[trigger] init[k]) by {
            assert(init[k] == lines[k]);
        }
        writing_lines_scrolls(init, color);
        let e = shown_lines(Seq::empty(), color);
        let a = shown_lines(init, color);
        e.lemma_put_all_concat(lines_bytes(init) + line, seq![0x0au8]);
        e.lemma_put_all_concat(lines_bytes(init), line);
        lemma_line_then_feed(init, line, color);
        assert(lines_bytes(lines) == lines_bytes(init) + line + seq![0x0au8]);
        assert(e.put_all(lines_bytes(init)) == a);
    } else {
        assert(lines =~= Seq::<Seq<u8>>::empty());
        assert(lines_bytes(lines) == Seq::<u8>::empty());
    }
}

/// One more line and its line feed take the grid from showing `lines` to
/// showing `lines` with `line` appended.
proof fn lemma_line_then_feed(lines: Seq<Seq<u8>>, line: Seq<u8>, color: ColorCode)
    requires
        is_printable_line(line),
    ensures
        shown_lines(lines, color).put_all(line).put(0x0a) == shown_lines(lines.push(line), color),
        shown_lines(lines, color).put_all(line).put_all(seq![0x0au8]) == shown_lines(
            lines.push(line),
            color,
        ),
{
    let a = shown_lines(lines, color);
    let n = lines.len() as int;
    let off = scrolled_off(n);
    assert(a.wf()) by {
        assert forall|r: int| 0 <= r < BUFFER_HEIGHT implies (#[trigger] a.rows[r]).len()
            == BUFFER_WIDTH by {}
    }
    assert forall|i: int| 0 <= i < line.len() implies line[i] != 0x0a by {
        assert(0x20 <= line[i] <= 0x7e);
    }
    write_within_line(a, line);
    let b = a.put_all(line);
    // the cursor row now shows the line
    assert(b.rows[a.row] =~= line_row(line, color)) by {
        assert forall|c: int| 0 <= c < BUFFER_WIDTH implies b.rows[a.row][c] == line_row(
            line,
            color,
        )[c] by {
            if c < line.len() {
                assert(b.rows[a.row][a.col + c] == (ScreenChar {
                    ascii_character: glyph(line[c]),
                    color_code: a.color,
                }));
                assert(0x20 <= line[c] <= 0x7e);
            } else {
                assert(b.rows[a.row][c] == a.rows[a.row][c]);
            }
        }
    }
    assert forall|r: int| 0 <= r < BUFFER_HEIGHT && r != a.row implies #[trigger] b.rows[r]
        =~= a.rows[r] by {
        assert forall|c: int| 0 <= c < BUFFER_WIDTH implies b.rows[r][c] == a.rows[r][c] by {}
    }
    let t = b.put(0x0a);
    let want = shown_lines(lines.push(line), color);
    let l2 = lines.push(line);
    assert forall|j: int| 0 <= j < BUFFER_HEIGHT implies #[trigger] t.rows[j] == want.rows[j] by {
        let off2 = scrolled_off(n + 1);
        if a.row < BUFFER_HEIGHT - 1 {
            assert(off2 == off);
            if j == a.row {
            } else if j + off < n {
                assert(l2[j + off] == lines[j + off]);
            } else {
            }
        } else {
            assert(off2 == off + 1);
            if j < BUFFER_HEIGHT - 1 {
                assert(t.rows[j] == b.rows[j + 1]);
                if j + 1 == a.row {
                } else {
                    assert(l2[j + off2] == lines[j + 1 + off]);
                }
            } else {
            }
        }
    }
    assert(t.rows =~= want.rows);
    assert(seq![0x0au8].drop_last() =~= Seq::<u8>::empty());
    assert(seq![0x0au8].last() == 0x0a);
    assert(b.put_all(Seq::<u8>::empty()) == b);
}

/// Setting color `a`, then `b` (which hands back `a`), then setting again
/// what was handed back leaves the screen as setting `a` alone does; while
/// `b` is active, a written byte takes `b`.
pub proof fn set_color_round_trip(s: Screen, a: ColorCode, b: ColorCode, byte: u8)
    requires
        s.wf(),
        byte != 0x0a,
        s.col < BUFFER_WIDTH,
    ensures
        s.with_color(a).with_color(b).with_color(s.with_color(a).color) == s.with_color(a),
        s.with_color(a).with_color(b).put(byte).rows[s.row][s.col] == (ScreenChar {
            ascii_character: glyph(byte),
            color_code: b,
        }),
{
    let t = s.with_color(a).with_color(b);
    write_within_line(t, seq![byte]);
    assert(seq![byte].drop_last() =~= Seq::<u8>::empty());
    assert(seq![byte].last() == byte);
    assert(t.put_all(Seq::<u8>::empty()) == t);
    assert(t.put_all(seq![byte]) == t.put(byte));
    assert(seq![byte][0] == byte);
    assert(t.put_all(seq![byte]).rows[t.row][t.col + 0] == (ScreenChar {
        ascii_character: glyph(seq![byte][0]),
        color_code: t.color,
    }));
}

/// The display driver: the grid, the cursor and the active color.
pub struct VGAWriter {
    column_position: usize,
    row_position: usize,
    color_code: ColorCode,
    buffer: Buffer,
}

impl View for VGAWriter {
    type V = Screen;

    closed spec fn view(&self) -> Screen {
        Screen {
            rows: self.buffer.chars@.map_values(|line: [ScreenChar; BUFFER_WIDTH]| line@),
            row: self.row_position as int,
            col: self.column_position as int,
            color: self.color_code,
        }
    }
}

impl VGAWriter {
    pub open spec fn wf(&self) -> bool {
        self@.wf()
    }

    /// A blank grid in yellow on black, cursor at the top left.
    pub fn new() -> (r: VGAWriter)
        ensures
            r.wf(),
            r@.row == 0,
            r@.col == 0,
            r@.color == ColorCode(attribute(Color::Yellow, Color::Black)),
            forall|i: int| 0 <= i < BUFFER_HEIGHT ==> #[trigger] r@.rows[i] == blank_row(r@.color),
    {
        let color = ColorCode::new(Color::Yellow, Color::Black);
        let blank = ScreenChar::new(0x20, color);
        let line = [blank; BUFFER_WIDTH];
        let w = VGAWriter {
            column_position: 0,
            row_position: 0,
            color_code: color,
            buffer: Buffer { chars: [line; BUFFER_HEIGHT] },
        };
        assert(line@ =~= blank_row(color));
        w
    }

    /// The cell at `row`, `col`.
    pub fn cell(&self, row: usize, col: usize) -> (r: ScreenChar)
        requires
            row < BUFFER_HEIGHT,
            col < BUFFER_WIDTH,
        ensures
            r == self@.rows[row as int][col as int],
    {
        self.buffer.chars[row][col]
    }

    /// Cursor row.
    pub fn row(&self) -> (r: usize)
        ensures
            r == self@.row,
    {
        self.row_position
    }

    /// Cursor column.
    pub fn column(&self) -> (r: usize)
        ensures
            r == self@.col,
    {
        self.column_position
    }

    /// Active color attribute.
    pub fn color(&self) -> (r: ColorCode)
        ensures
            r == self@.color,
    {
        self.color_code
    }

    /// Fills `row` with blanks in the active color.
    fn clear_row(&mut self, row: usize)
        requires
            old(self).wf(),
            row < BUFFER_HEIGHT,
        ensures
            final(self).wf(),
            final(self)@ == (Screen {
                rows: old(self)@.rows.update(row as int, blank_row(old(self)@.color)),
                ..old(self)@
            }),
    {
        let blank = ScreenChar::new(0x20, self.color_code);
        let line = [blank; BUFFER_WIDTH];
        self.buffer.chars[row] = line;
        assert(line@ =~= blank_row(self.color_code));
        assert(self@.rows =~= old(self)@.rows.update(row as int, blank_row(old(self)@.color)));
    }

    fn new_line(&mut self)
        requires
            old(self).wf(),
        ensures
            final(self).wf(),
            final(self)@ == old(self)@.new_line(),
    {
        if self.row_position < BUFFER_HEIGHT - 1 {
            self.column_position = 0;
            self.row_position = self.row_position + 1;
            assert(self@.rows =~= old(self)@.rows);
            return;
        }
        let ghost start = self.buffer.chars@;
        for row in 1..BUFFER_HEIGHT
            invariant
                self.buffer.chars@.len() == BUFFER_HEIGHT,
                self.row_position == old(self).row_position,
                self.column_position == old(self).column_position,
                self.color_code == old(self).color_code,
                start == old(self).buffer.chars@,
                forall|k: int| 0 <= k < row - 1 ==> #[trigger] self.buffer.chars@[k] == start[k + 1],
                forall|k: int| row - 1 <= k < BUFFER_HEIGHT ==> #[trigger] self.buffer.chars@[k] == start[k],
        {
            let line = self.buffer.chars[row];
            self.buffer.chars[row - 1] = line;
        }
        self.clear_row(BUFFER_HEIGHT - 1);
        self.column_position = 0;
        assert(self@.rows =~= old(self)@.new_line().rows);
    }

    /// Writes one byte at the cursor. A line feed advances the line; any
    /// byte that is neither printable ASCII nor a line feed is shown as the
    /// replacement glyph. A full row wraps before the byte is placed.
    pub fn write_byte(&mut self, byte: u8)
        requires
            old(self).wf(),
        ensures
            final(self).wf(),
            final(self)@ == old(self)@.put(byte),
    {
        if byte == 0x0a {
            self.new_line();
            return;
        }
        let shown = if (0x20 <= byte && byte <= 0x7e) {
            byte
        } else {
            REPLACEMENT_GLYPH
        };
        if self.column_position >= BUFFER_WIDTH {
            self.new_line();
        }
        let ghost before = self@;
        let row = self.row_position;
        let col = self.column_position;
        self.buffer.chars[row][col] = ScreenChar::new(shown, self.color_code);
        self.column_position = col + 1;
        assert(self@.rows =~= before.rows.update(
            row as int,
            before.rows[row as int].update(col as int, ScreenChar { ascii_character: shown, color_code: before.color }),
        ));
    }

    /// Writes each byte of `s` in order, as `write_byte` does.
    pub fn write_string(&mut self, s: &[u8])
        requires
            old(self).wf(),
        ensures
            final(self).wf(),
            final(self)@ == old(self)@.put_all(s@),
    {
        for i in 0..s.len()
            invariant
                self.wf(),
                self@ == old(self)@.put_all(s@.take(i as int)),
        {
            self.write_byte(s[i]);
            assert(s@.take(i + 1).drop_last() =~= s@.take(i as int));
        }
        assert(s@.take(s@.len() as int) =~= s@);
    }

    /// Writes the UTF-8 encoding of `s`.
    pub fn write_str(&mut self, s: &str)
        requires
            old(self).wf(),
        ensures
            final(self).wf(),
            final(self)@ == old(self)@.put_all(s.spec_bytes()),
    {
        self.write_string(s.as_bytes());
    }

    /// Writes the UTF-8 encoding of `c`: an ASCII character as its byte,
    /// any other as one replacement glyph per encoded byte.
    pub fn write_char(&mut self, c: char)
        requires
            old(self).wf(),
        ensures
            final(self).wf(),
            final(self)@ == old(self)@.put_all(char_bytes(c)),
    {
        let code = c as u32;
        if code < 0x80 {
            let ghost before = self@;
            self.write_byte(code as u8);
            assert(char_bytes(c).drop_last() =~= Seq::<u8>::empty());
            assert(char_bytes(c).last() == code as u8);
            assert(before.put_all(Seq::<u8>::empty()) == before);
        } else {
            let width: usize = if code < 0x800 {
                2
            } else if code < 0x10000 {
                3
            } else {
                4
            };
            for i in 0..width
                invariant
                    self.wf(),
                    width == utf8_width(c),
                    code == c as u32,
                    code >= 0x80,
                    self@ == old(self)@.put_all(char_bytes(c).take(i as int)),
            {
                self.write_byte(REPLACEMENT_GLYPH);
                assert(char_bytes(c).take(i + 1).drop_last() =~= char_bytes(c).take(i as int));
            }
            assert(char_bytes(c).take(width as int) =~= char_bytes(c));
        }
    }

    /// Makes `color` the active attribute and returns the one it replaces.
    pub fn set_color(&mut self, color: ColorCode) -> (previous: ColorCode)
        requires
            old(self).wf(),
        ensures
            final(self).wf(),
            previous == old(self)@.color,
            final(self)@ == old(self)@.with_color(color),
    {
        let previous = self.color_code;
        self.color_code = color;
        previous
    }

    /// Blanks every cell in the active color and moves the cursor to the
    /// top left.
    pub fn clear(&mut self)
        requires
            old(self).wf(),
        ensures
            final(self).wf(),
            final(self)@ == (Screen {
                rows: Seq::new(BUFFER_HEIGHT as nat, |_r: int| blank_row(old(self)@.color)),
                row: 0,
                col: 0,
                color: old(self)@.color,
            }),
    {
        for row in 0..BUFFER_HEIGHT
            invariant
                self.wf(),
                self@.row == old(self)@.row,
                self@.col == old(self)@.col,
                self@.color == old(self)@.color,
                forall|k: int| 0 <= k < row ==> #[trigger] self@.rows[k] == blank_row(old(self)@.color),
        {
            self.clear_row(row);
        }
        self.column_position = 0;
        self.row_position = 0;
        assert(self@.rows =~= Seq::new(BUFFER_HEIGHT as nat, |_r: int| blank_row(old(self)@.color)));
    }
}

} // verus!
