//! The echo line buffer and what the keyboard path does with each decoded
//! character.
use vstd::prelude::*;
use vstd::string::StringSliceAdditionalSpecFns;
use vstd::slice::slice_subrange;
use crate::vga::{
    attribute, chars_bytes, char_bytes, Color, ColorCode, Screen, VGAWriter,
};

verus! {

/// Number of characters the buffer holds; further pushes are dropped.
pub const BUFFER_SIZE: usize = 75;

/// Text shown once when the console starts.
pub const BANNER: &'static str = "You have fallen into deep cave\nThere is no one to help you\nYou try screaming for help\nBut the only thing you can hear...\n\nIs the Echo\n\n";

/// Input prompt marker.
pub const PROMPT: &'static str = "> ";

/// Ends the typed line before it is echoed.
pub const LINE_BREAK: &'static str = "\n";

/// Marker before an echoed line.
pub const ECHO_MARKER: &'static str = "@ ";

/// Ends an echoed line and opens the next prompt.
pub const ECHO_END: &'static str = "\n\n> ";

/// A fixed-capacity accumulator of decoded characters.
pub struct EchoBuffer {
    read_characters: usize,
    data: [char; BUFFER_SIZE],
}

impl View for EchoBuffer {
    type V = Seq<char>;

    /// The characters held, in the order they were pushed.
    closed spec fn view(&self) -> Seq<char> {
        self.data@.subrange(0, self.read_characters as int)
    }
}

/// Contents after pushing `c` onto `buf`: appended below capacity, dropped
/// at capacity.
pub open spec fn pushed(buf: Seq<char>, c: char) -> Seq<char> {
    if buf.len() < BUFFER_SIZE {
        buf.push(c)
    } else {
        buf
    }
}

/// Contents after pushing every character of `cs` onto `buf`, in order.
pub open spec fn pushed_all(buf: Seq<char>, cs: Seq<char>) -> Seq<char>
    decreases cs.len(),
{
    if cs.len() == 0 {
        buf
    } else {
        pushed(pushed_all(buf, cs.drop_last()), cs.last())
    }
}

/// Pushing characters one by one onto an empty buffer keeps the first
/// `BUFFER_SIZE` of them in their order: all of them when they fit; beyond
/// that every push does nothing, and the count never exceeds the capacity.
pub proof fn pushes_keep_first_capacity(cs: Seq<char>)
    ensures
        pushed_all(Seq::empty(), cs) == (if cs.len() <= BUFFER_SIZE {
            cs
        } else {
            cs.take(BUFFER_SIZE as int)
        }),
        pushed_all(Seq::empty(), cs).len() <= BUFFER_SIZE,
    decreases cs.len(),
{
    if cs.len() > 0 {
        let init = cs.drop_last();
        pushes_keep_first_capacity(init);
        if cs.len() <= BUFFER_SIZE {
            assert(init.push(cs.last()) =~= cs);
        } else if init.len() <= BUFFER_SIZE {
            assert(init =~= cs.take(BUFFER_SIZE as int));
        } else {
            assert(init.take(BUFFER_SIZE as int) =~= cs.take(BUFFER_SIZE as int));
        }
    }
}

impl EchoBuffer {
    /// The count of characters held never exceeds the capacity.
    pub closed spec fn wf(&self) -> bool {
        self.read_characters <= BUFFER_SIZE
    }

    /// A well-formed buffer holds at most `BUFFER_SIZE` characters.
    pub proof fn lemma_len_bounded(&self)
        requires
            self.wf(),
        ensures
            self@.len() <= BUFFER_SIZE,
    {
    }

    pub fn new() -> (r: EchoBuffer)
        ensures
            r.wf(),
            r@ == Seq::<char>::empty(),
    {
        let r = EchoBuffer { read_characters: 0, data: ['\0'; BUFFER_SIZE] };
        assert(r@ =~= Seq::<char>::empty());
        r
    }

    /// Appends `c` when there is room; at capacity this does nothing.
    pub fn push(&mut self, c: char)
        requires
            old(self).wf(),
        ensures
            final(self).wf(),
            final(self)@ == pushed(old(self)@, c),
            final(self)@.len() <= BUFFER_SIZE,
    {
        let n = self.read_characters;
        if n < BUFFER_SIZE {
            self.data[n] = c;
            self.read_characters = n + 1;
            assert(self@ =~= old(self)@.push(c));
        }
    }

    /// Empties the buffer and returns what it held.
    pub fn clear(&mut self) -> (snapshot: EchoBuffer)
        requires
            old(self).wf(),
        ensures
            snapshot.wf(),
            snapshot@ == old(self)@,
            final(self).wf(),
            final(self)@ == Seq::<char>::empty(),
    {
        let snapshot = EchoBuffer { read_characters: self.read_characters, data: self.data };
        self.read_characters = 0;
        assert(self@ =~= Seq::<char>::empty());
        snapshot
    }

    /// The characters held, in insertion order.
    pub fn data(&self) -> (r: &[char])
        requires
            self.wf(),
        ensures
            r@ == self@,
            r@.len() <= BUFFER_SIZE,
    {
        slice_subrange(self.data.as_slice(), 0, self.read_characters)
    }

    /// Number of characters held.
    pub fn len(&self) -> (r: usize)
        requires
            self.wf(),
        ensures
            r == self@.len(),
            r <= BUFFER_SIZE,
    {
        self.read_characters
    }
}

/// Attribute of the banner and of echoed lines: light blue on black.
pub open spec fn echo_color() -> ColorCode {
    ColorCode(attribute(Color::LightBlue, Color::Black))
}

/// The screen after the banner is shown on `s` and the first prompt opened.
pub open spec fn after_banner(s: Screen) -> Screen {
    s.with_color(echo_color()).put_all(BANNER.spec_bytes()).with_color(s.color).put_all(
        PROMPT.spec_bytes(),
    )
}

/// The screen after `line` is echoed on `s`: the typed line is ended, the
/// marker and the line follow in the echo color, then the active color
/// returns and a new prompt opens.
pub open spec fn echo_line(s: Screen, line: Seq<char>) -> Screen {
    s.put_all(LINE_BREAK.spec_bytes()).with_color(echo_color()).put_all(
        ECHO_MARKER.spec_bytes(),
    ).put_all(chars_bytes(line)).with_color(s.color).put_all(ECHO_END.spec_bytes())
}

/// Buffer contents and screen after the character `c` is processed: a line
/// feed echoes the buffered line and empties the buffer; any other character
/// is buffered and shown.
pub open spec fn process_effect(buf: Seq<char>, s: Screen, c: char) -> (Seq<char>, Screen) {
    if c == '\n' {
        (Seq::empty(), echo_line(s, buf))
    } else {
        (pushed(buf, c), s.put_all(char_bytes(c)))
    }
}

/// A key completed by the keyboard decoder: a character, or a key that has
/// none (an arrow or function key).
#[derive(Debug, Clone, Copy, PartialEq, Eq, Structural)]
pub enum Key {
    Unicode(char),
    Raw,
}

/// Buffer contents and screen after a decoder outcome: a character is
/// processed; a key without a character, or no key at all, changes nothing.
pub open spec fn key_effect(buf: Seq<char>, s: Screen, key: Option<Key>) -> (Seq<char>, Screen) {
    match key {
        Some(Key::Unicode(c)) => process_effect(buf, s, c),
        _ => (buf, s),
    }
}

/// Shows the banner in the echo color, then opens the first prompt in the
/// color that was active before.
pub fn init(writer: &mut VGAWriter)
    requires
        old(writer).wf(),
    ensures
        final(writer).wf(),
        final(writer)@ == after_banner(old(writer)@),
{
    let light_blue = ColorCode::new_with_black_background(Color::LightBlue);
    let old_color = writer.set_color(light_blue);
    writer.write_str(BANNER);
    writer.set_color(old_color);
    writer.write_str(PROMPT);
}

/// Handles one decoded character from the keyboard.
pub fn process(c: char, echo: &mut EchoBuffer, writer: &mut VGAWriter)
    requires
        old(echo).wf(),
        old(writer).wf(),
    ensures
        final(echo).wf(),
        final(writer).wf(),
        (final(echo)@, final(writer)@) == process_effect(old(echo)@, old(writer)@, c),
{
    if c == '\n' {
        let buff = echo.clear();
        writer.write_str(LINE_BREAK);
        let light_blue = ColorCode::new_with_black_background(Color::LightBlue);
        let old_color = writer.set_color(light_blue);
        writer.write_str(ECHO_MARKER);
        proof {
            old(writer)@.lemma_put_all_keeps_color(LINE_BREAK.spec_bytes());
        }
        let line = buff.data();
        let ghost start = writer@;
        for i in 0..line.len()
            invariant
                writer.wf(),
                writer@ == start.put_all(chars_bytes(line@.take(i as int))),
        {
            writer.write_char(line[i]);
            proof {
                assert(line@.take(i + 1).drop_last() =~= line@.take(i as int));
                start.lemma_put_all_concat(chars_bytes(line@.take(i as int)), char_bytes(line@[i as int]));
            }
        }
        assert(line@.take(line@.len() as int) =~= line@);
        writer.set_color(old_color);
        writer.write_str(ECHO_END);
    } else {
        echo.push(c);
        writer.write_char(c);
    }
}

/// Handles what the keyboard decoder produced: a character goes through
/// `process`; raw keys and bytes that complete no key are ignored.
pub fn echo_key(key: Option<Key>, echo: &mut EchoBuffer, writer: &mut VGAWriter)
    requires
        old(echo).wf(),
        old(writer).wf(),
    ensures
        final(echo).wf(),
        final(writer).wf(),
        (final(echo)@, final(writer)@) == key_effect(old(echo)@, old(writer)@, key),
{
    match key {
        Some(Key::Unicode(c)) => process(c, echo, writer),
        Some(Key::Raw) => {},
        None => {},
    }
}

} // verus!
