//! Interrupt vector numbering and the decisions of the timer and keyboard
//! handlers. Reading the keyboard port and acknowledging the interrupt
//! controller are left to the caller, which performs the acknowledgment that
//! each handler returns.
use vstd::prelude::*;
use pc_keyboard::layouts::Us104Key;
use pc_keyboard::{DecodedKey, Keyboard, ScancodeSet1};
use crate::echo::{echo_key, key_effect, EchoBuffer, Key};
use crate::vga::VGAWriter;

verus! {

/// First vector of the primary interrupt controller, just above the 32
/// vectors reserved for CPU exceptions.
pub const PIC_1_OFFSET: u8 = 32;

/// First vector of the secondary interrupt controller.
pub const PIC_2_OFFSET: u8 = PIC_1_OFFSET + 8;

/// Hardware interrupt lines in use, in the order of their lines on the
/// primary controller.
#[derive(Debug, Clone, Copy, PartialEq, Eq, Structural)]
pub enum InterruptIndex {
    Timer,
    Keyboard,
}

/// Vector of a hardware interrupt line: the timer takes the first vector
/// above the exception range, the keyboard the next.
pub open spec fn vector_of(i: InterruptIndex) -> u8 {
    match i {
        InterruptIndex::Timer => PIC_1_OFFSET,
        InterruptIndex::Keyboard => (PIC_1_OFFSET + 1) as u8,
    }
}

impl InterruptIndex {
    pub fn as_u8(self) -> (r: u8)
        ensures
            r == vector_of(self),
    {
        match self {
            InterruptIndex::Timer => PIC_1_OFFSET,
            InterruptIndex::Keyboard => PIC_1_OFFSET + 1,
        }
    }

    pub fn as_usize(self) -> (r: usize)
        ensures
            r == vector_of(self) as usize,
    {
        self.as_u8() as usize
    }
}

/// Both hardware vectors lie above the exception range, on lines of the
/// primary controller, and differ from each other.
pub proof fn vectors_distinct_above_exceptions()
    ensures
        vector_of(InterruptIndex::Timer) != vector_of(InterruptIndex::Keyboard),
        vector_of(InterruptIndex::Timer) > 31,
        vector_of(InterruptIndex::Keyboard) > 31,
        vector_of(InterruptIndex::Timer) < PIC_2_OFFSET,
        vector_of(InterruptIndex::Keyboard) < PIC_2_OFFSET,
{
}

/// Timer handler: counts the tick (wrapping, as an atomic add does) and
/// returns the vector to acknowledge.
pub fn timer_interrupt(ticks: &mut usize) -> (ack: u8)
    ensures
        *final(ticks) == (if *old(ticks) == usize::MAX {
            0
        } else {
            (*old(ticks) + 1) as usize
        }),
        ack == vector_of(InterruptIndex::Timer),
{
    *ticks = ticks.wrapping_add(1);
    InterruptIndex::Timer.as_u8()
}

/// The keyboard decoder: pc_keyboard's scancode set 1 state machine with the
/// US 104-key layout, tracking extended-key prefixes and modifier keys. Its
/// state is opaque here.
#[verifier::external_body]
pub struct KeyboardDecoder {
    pub keyboard: Keyboard<Us104Key, ScancodeSet1>,
}

/// The key that `scancode` completes on decoder `k`, if any. The decoder's
/// output depends on its own state (prefix byte seen, modifiers held) and the
/// byte alone.
pub uninterp spec fn decoded_key(k: KeyboardDecoder, scancode: u8) -> Option<Key>;

impl KeyboardDecoder {
    /// Relies on pc_keyboard's `Keyboard::add_byte`, which turns the byte
    /// into a key event once a scancode is complete, and on
    /// `Keyboard::process_keyevent`, which applies the event to the modifier
    /// state and yields a character (`DecodedKey::Unicode`), a key without
    /// one (`DecodedKey::RawKey`), or nothing for modifiers and releases.
    /// Both read only the decoder and their argument.
    #[verifier::external_body]
    fn decode(&mut self, scancode: u8) -> (r: Option<Key>)
        ensures
            r == decoded_key(*old(self), scancode),
    {
        match self.keyboard.add_byte(scancode) {
            Ok(Some(event)) => match self.keyboard.process_keyevent(event) {
                Some(DecodedKey::Unicode(c)) => Some(Key::Unicode(c)),
                Some(DecodedKey::RawKey(_)) => Some(Key::Raw),
                None => None,
            },
            Ok(None) => None,
            Err(_) => None,
        }
    }
}

/// Keyboard handler, given the byte read from the keyboard data port: the
/// decoder takes the byte and the key it completes, if any, goes to the echo
/// path. Returns the vector to acknowledge, which is always the keyboard's.
pub fn keyboard_interrupt(
    keyboard: &mut KeyboardDecoder,
    echo: &mut EchoBuffer,
    writer: &mut VGAWriter,
    scancode: u8,
) -> (ack: u8)
    requires
        old(echo).wf(),
        old(writer).wf(),
    ensures
        ack == vector_of(InterruptIndex::Keyboard),
        final(echo).wf(),
        final(writer).wf(),
        (final(echo)@, final(writer)@) == key_effect(
            old(echo)@,
            old(writer)@,
            decoded_key(*old(keyboard), scancode),
        ),
{
    let key = keyboard.decode(scancode);
    echo_key(key, echo, writer);
    InterruptIndex::Keyboard.as_u8()
}

} // verus!
