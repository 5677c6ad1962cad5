//! Helpers around the kernel core: a bounded text-buffer writer used by
//! diagnostic code, the freestanding pseudo-random generator, and the
//! interrupt, exit-code, and color identifiers that the surrounding
//! binary feeds to the hardware.

use vstd::prelude::*;
use vstd::string::{StrSliceExecFns, StringSliceAdditionalSpecFns};

verus! {

pub const RAND_MAX: i32 = 0x7FFF_FFFF;

/// Advance the pseudo-random state (a linear congruential step) and
/// return a value in `0 ..= RAND_MAX`.  The caller owns the state; the
/// kernel has no mutable globals.
pub fn rand(seed: &mut u64) -> (r: i32)
    ensures
        *final(seed) == vstd::wrapping::u64_specs::wrapping_add(
            vstd::wrapping::u64_specs::wrapping_mul(*old(seed), 6364136223846793005),
            1442695040888963407,
        ),
        r == ((*final(seed) >> 32) & 0x7FFF_FFFF) as i32,
        0 <= r <= RAND_MAX,
{
    *seed = seed.wrapping_mul(6364136223846793005).wrapping_add(1442695040888963407);
    let sv: u64 = *seed;
    let x = (sv >> 32) & 0x7FFF_FFFF;
    proof {
        assert(x <= 0x7FFF_FFFF) by (bit_vector)
            requires
                x == (sv >> 32) & 0x7FFF_FFFF,
        ;
    }
    x as i32
}

/// Reset the pseudo-random state from a 32-bit value.
pub fn srand(seed: &mut u64, value: u32)
    ensures
        *final(seed) == ((value as u64) << 32) | (!value as u64),
{
    *seed = ((value as u64) << 32) | (!value as u64);
}

/// Writes text into a fixed-size byte buffer; what does not fit is
/// dropped.
pub struct BufferWriter {
    pub buffer: Vec<u8>,
    pub pos: usize,
}

impl BufferWriter {
    /// A writer over `buffer`, starting at its beginning.
    pub fn new(buffer: Vec<u8>) -> (w: BufferWriter)
        ensures
            w.buffer@ == buffer@,
            w.pos == 0,
    {
        BufferWriter { buffer, pos: 0 }
    }

    /// Append the bytes of `s` at the write position, stopping at the end
    /// of the buffer.
    pub fn write_str(&mut self, s: &str)
        requires
            old(self).pos <= old(self).buffer@.len(),
        ensures
            final(self).buffer@.len() == old(self).buffer@.len(),
            final(self).pos == (if old(self).pos + s.spec_bytes().len() <= old(
                self,
            ).buffer@.len() {
                old(self).pos + s.spec_bytes().len()
            } else {
                old(self).buffer@.len() as int
            }),
            forall|i: int|
                0 <= i < final(self).pos - old(self).pos ==> final(self).buffer@[old(self).pos
                    + i] == s.spec_bytes()[i],
            forall|i: int|
                0 <= i < old(self).buffer@.len() && !(old(self).pos <= i < final(self).pos)
                    ==> final(self).buffer@[i] == old(self).buffer@[i],
    {
        let bytes = s.as_bytes_vec();
        let n = bytes.len();
        let cap = self.buffer.len();
        let mut i: usize = 0;
        while i < n && self.pos < cap
            invariant
                cap == self.buffer@.len(),
                n == s.spec_bytes().len(),
                bytes@ == s.spec_bytes(),
                i <= n,
                self.pos == old(self).pos + i,
                self.pos <= cap,
                old(self).pos <= cap,
                forall|j: int|
                    0 <= j < i ==> self.buffer@[old(self).pos + j] == s.spec_bytes()[j],
                forall|j: int|
                    0 <= j < cap && !(old(self).pos <= j < self.pos) ==> self.buffer@[j] == old(
                        self,
                    ).buffer@[j],
            decreases n - i,
        {
            let b = bytes[i];
            let p = self.pos;
            self.buffer[p] = b;
            self.pos = p + 1;
            i = i + 1;
        }
    }
}

/// The two interrupt lines the kernel remaps on the interrupt
/// controller.
#[derive(Clone, Copy, Debug, PartialEq, Eq, Structural)]
pub enum InterruptIndex {
    Timer,
    Keyboard,
}

impl InterruptIndex {
    /// The remapped interrupt vector number.
    pub fn as_u8(self) -> (v: u8)
        ensures
            self is Timer ==> v == 32,
            self is Keyboard ==> v == 33,
    {
        match self {
            InterruptIndex::Timer => 32,
            InterruptIndex::Keyboard => 33,
        }
    }

    /// The remapped interrupt vector number, as an index.
    pub fn as_usize(self) -> (v: usize)
        ensures
            self is Timer ==> v == 32,
            self is Keyboard ==> v == 33,
    {
        self.as_u8() as usize
    }
}

/// Exit codes handed to the emulator's debug-exit device.
#[derive(Clone, Copy, Debug, PartialEq, Eq, Structural)]
pub enum QemuExitCode {
    Success,
    Failed,
}

impl QemuExitCode {
    /// The value written to the exit port.
    pub fn value(self) -> (v: u32)
        ensures
            self is Success ==> v == 0x10,
            self is Failed ==> v == 0x11,
    {
        match self {
            QemuExitCode::Success => 0x10,
            QemuExitCode::Failed => 0x11,
        }
    }
}

/// The sixteen hardware text-mode colors.
#[derive(Clone, Copy, Debug, PartialEq, Eq, Structural)]
pub enum Color {
    Black,
    Blue,
    Green,
    Cyan,
    Red,
    Magenta,
    Brown,
    LightGray,
    DarkGray,
    LightBlue,
    LightGreen,
    LightCyan,
    LightRed,
    Pink,
    Yellow,
    White,
}

impl Color {
    /// The hardware attribute value of the color.
    pub fn value(self) -> (v: u8)
        ensures
            v < 16,
            self is Black ==> v == 0,
            self is Blue ==> v == 1,
            self is Green ==> v == 2,
            self is Cyan ==> v == 3,
            self is Red ==> v == 4,
            self is Magenta ==> v == 5,
            self is Brown ==> v == 6,
            self is LightGray ==> v == 7,
            self is DarkGray ==> v == 8,
            self is LightBlue ==> v == 9,
            self is LightGreen ==> v == 10,
            self is LightCyan ==> v == 11,
            self is LightRed ==> v == 12,
            self is Pink ==> v == 13,
            self is Yellow ==> v == 14,
            self is White ==> v == 15,
    {
        match self {
            Color::Black => 0,
            Color::Blue => 1,
            Color::Green => 2,
            Color::Cyan => 3,
            Color::Red => 4,
            Color::Magenta => 5,
            Color::Brown => 6,
            Color::LightGray => 7,
            Color::DarkGray => 8,
            Color::LightBlue => 9,
            Color::LightGreen => 10,
            Color::LightCyan => 11,
            Color::LightRed => 12,
            Color::Pink => 13,
            Color::Yellow => 14,
            Color::White => 15,
        }
    }
}

} // verus!
