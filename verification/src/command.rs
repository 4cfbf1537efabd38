//! Display commands and their encoding.
//!
//! A command is an opcode byte followed by at most two parameter bytes.
//! Parameters that are wider than their field are masked, never rejected.

use crate::bus::Bus;
use crate::bus::Wire;
use vstd::prelude::*;

verus! {

/// SSD1320 commands.
#[derive(Debug, Copy, Clone)]
pub enum Command {
    /// Set addressing mode
    AddressMode(AddrMode),
    /// Setup column start and end address
    /// values range from 0-79
    ColumnAddress(u8, u8),
    /// Setup row start and end address
    /// values range from 0-159
    RowAddress(u8, u8),
    /// Set portrait addressing mode
    PortraitAddressMode(PortraitAddrMode),
    /// Set contrast. Higher number is higher contrast. Default = 0x7F
    Contrast(u8),
    /// Reverse columns from 79-0
    SegmentRemap(bool),
    /// Set display start line from 0-159
    StartLine(u8),
    /// Turn entire display on. If set, all pixels will
    /// be set to on, if not, the value in memory will be used.
    AllOn(bool),
    /// Invert display.
    Invert(bool),
    /// Set multipex ratio from 16-160 (MUX+1)
    Multiplex(u8),
    /// Select external or internal I REF.
    InternalIref(bool),
    /// Turn display on or off.
    DisplayOn(bool),
    /// Set pre-charge volage level
    /// must be smaller than COM deselect volage level
    PreChargeLevel(PreChargeLvl),
    /// Command 0xBD with the fixed parameter 0x03. The datasheet gives it no
    /// name.
    VP,
    /// Select the default linear gray scale table, in units of DCLK:
    /// GS0 level pulse width = 0
    /// GS1 level pulse width = 4
    /// GS2 level pulse width = 8
    /// GS3 level pulse width = 12
    /// ...
    /// GS14 level pulse width = 56
    /// GS15 level pulse width = 60
    LineralLUT,
    /// Scan from COM[n-1] to COM0 (where N is mux ratio)
    ReverseComDir(bool),
    /// Set vertical shift
    DisplayOffset(u8),
    /// Set up display clock.
    /// First value is oscillator frequency, increasing with higher value
    /// Second value is divide ratio (1, 2, 4, 8 ... 256)
    DisplayClockDiv(u8, u8),
    /// Set up phase 1 and 2 of precharge period. Each value must be in the range 1 - 15.
    PreChargePeriod(u8, u8),
    /// Setup com hardware configuration
    /// First value indicates sequential (false) or alternative (true)
    /// pin configuration. Second value disables (false) or enables (true)
    /// left/right remap.
    ComPinConfig(bool, bool),
    /// Set Vcomh Deselect level
    VcomhDeselect(VcomhLevel),
    /// Display lock
    DisplayLock(bool),
}

/// Address mode
#[derive(Debug, Clone, Copy, PartialEq, Eq, Structural)]
pub enum AddrMode {
    /// Horizontal mode
    Horizontal,
    /// Vertical mode
    Vertical,
}

/// Portrait address mode
#[derive(Debug, Clone, Copy, PartialEq, Eq, Structural)]
pub enum PortraitAddrMode {
    /// Normal mode
    Normal,
    /// Portrait mode
    Portrait,
}

/// Pre-charge level
#[derive(Debug, Clone, Copy, PartialEq, Eq, Structural)]
pub enum PreChargeLvl {
    /// 0.10 * Vcc
    V010,
    /// 0.50 * Vcc
    V050,
    /// 0.5133 * Vcc
    V05133,
}

/// Vcomh Deselect level
#[derive(Debug, Clone, Copy, PartialEq, Eq, Structural)]
pub enum VcomhLevel {
    /// 0.72 * Vcc
    V072,
    /// 0.76 * Vcc
    V076,
    /// 0.80 * Vcc
    V080,
    /// 0.84 * Vcc
    V084,
}

impl AddrMode {
    /// The value of the mode in its parameter byte.
    pub open spec fn code(self) -> u8 {
        match self {
            AddrMode::Horizontal => 0b00,
            AddrMode::Vertical => 0b01,
        }
    }

    pub fn bits(self) -> (b: u8)
        ensures
            b == self.code(),
    {
        match self {
            AddrMode::Horizontal => 0b00,
            AddrMode::Vertical => 0b01,
        }
    }
}

impl PortraitAddrMode {
    /// The value of the mode in its parameter byte.
    pub open spec fn code(self) -> u8 {
        match self {
            PortraitAddrMode::Normal => 0b00,
            PortraitAddrMode::Portrait => 0b01,
        }
    }

    pub fn bits(self) -> (b: u8)
        ensures
            b == self.code(),
    {
        match self {
            PortraitAddrMode::Normal => 0b00,
            PortraitAddrMode::Portrait => 0b01,
        }
    }
}

impl PreChargeLvl {
    /// The value of the level in its parameter byte.
    pub open spec fn code(self) -> u8 {
        match self {
            PreChargeLvl::V010 => 0b00000,
            PreChargeLvl::V050 => 0b11110,
            PreChargeLvl::V05133 => 0b11111,
        }
    }

    pub fn bits(self) -> (b: u8)
        ensures
            b == self.code(),
    {
        match self {
            PreChargeLvl::V010 => 0b00000,
            PreChargeLvl::V050 => 0b11110,
            PreChargeLvl::V05133 => 0b11111,
        }
    }
}

impl VcomhLevel {
    /// The three-bit value of the level, before it is shifted into place.
    pub open spec fn code(self) -> u8 {
        match self {
            VcomhLevel::V072 => 0b000,
            VcomhLevel::V076 => 0b010,
            VcomhLevel::V080 => 0b100,
            VcomhLevel::V084 => 0b110,
        }
    }

    pub fn bits(self) -> (b: u8)
        ensures
            b == self.code(),
    {
        match self {
            VcomhLevel::V072 => 0b000,
            VcomhLevel::V076 => 0b010,
            VcomhLevel::V080 => 0b100,
            VcomhLevel::V084 => 0b110,
        }
    }
}

/// A flag as a bit: 1 when set, 0 when clear.
pub open spec fn flag(set: bool) -> u8 {
    if set {
        1
    } else {
        0
    }
}

/// Two four-bit fields in one byte. Each is masked to its width.
pub open spec fn nibbles(high: u8, low: u8) -> u8 {
    ((0xF & high) << 4) | (0xF & low)
}

/// The high half of the packed byte is the first field cut to four bits,
/// the low half is the second field cut to four bits.
pub proof fn lemma_nibbles(high: u8, low: u8)
    ensures
        nibbles(high, low) / 16 == high % 16,
        nibbles(high, low) % 16 == low % 16,
{
    assert((((0xFu8 & high) << 4u8) | (0xFu8 & low)) / 16 == high % 16) by (bit_vector);
    assert((((0xFu8 & high) << 4u8) | (0xFu8 & low)) % 16 == low % 16) by (bit_vector);
}

fn flag_bit(set: bool) -> (b: u8)
    ensures
        b == flag(set),
{
    if set {
        1
    } else {
        0
    }
}

fn pack_nibbles(high: u8, low: u8) -> (b: u8)
    ensures
        b == nibbles(high, low),
{
    ((0xF & high) << 4) | (0xF & low)
}

impl Command {
    /// The first byte of the command on the wire.
    pub open spec fn opcode(self) -> u8 {
        match self {
            Command::AddressMode(_) => 0x20,
            Command::ColumnAddress(_, _) => 0x21,
            Command::RowAddress(_, _) => 0x22,
            Command::PortraitAddressMode(_) => 0x25,
            Command::Contrast(_) => 0x81,
            Command::SegmentRemap(remap) => 0xA0 | flag(remap),
            Command::StartLine(_) => 0xA2,
            Command::AllOn(on) => 0xA4 | flag(on),
            Command::Invert(inv) => 0xA6 | flag(inv),
            Command::Multiplex(_) => 0xA8,
            Command::InternalIref(_) => 0xAD,
            Command::DisplayOn(on) => 0xAE | flag(on),
            Command::PreChargeLevel(_) => 0xBC,
            Command::VP => 0xBD,
            Command::LineralLUT => 0xBF,
            Command::ReverseComDir(rev) => 0xC0 | (flag(rev) << 3),
            Command::DisplayOffset(_) => 0xD3,
            Command::DisplayClockDiv(_, _) => 0xD5,
            Command::PreChargePeriod(_, _) => 0xD9,
            Command::ComPinConfig(_, _) => 0xDA,
            Command::VcomhDeselect(_) => 0xDB,
            Command::DisplayLock(_) => 0xFD,
        }
    }

    /// The bytes that follow the opcode.
    pub open spec fn params(self) -> Seq<u8> {
        match self {
            Command::AddressMode(mode) => seq![mode.code()],
            Command::ColumnAddress(start, end) => seq![start, end],
            Command::RowAddress(start, end) => seq![start, end],
            Command::PortraitAddressMode(mode) => seq![mode.code()],
            Command::Contrast(val) => seq![val],
            Command::SegmentRemap(_) => seq![],
            Command::StartLine(line) => seq![0x3F & line],
            Command::AllOn(_) => seq![],
            Command::Invert(_) => seq![],
            Command::Multiplex(ratio) => seq![ratio],
            Command::InternalIref(on) => seq![flag(on) << 4],
            Command::DisplayOn(_) => seq![],
            Command::PreChargeLevel(level) => seq![level.code()],
            Command::VP => seq![0x03],
            Command::LineralLUT => seq![],
            Command::ReverseComDir(_) => seq![],
            Command::DisplayOffset(offset) => seq![offset],
            Command::DisplayClockDiv(fosc, div) => seq![nibbles(fosc, div)],
            Command::PreChargePeriod(phase1, phase2) => seq![nibbles(phase2, phase1)],
            Command::ComPinConfig(alt, lr) => seq![0x2 | (flag(alt) << 4) | (flag(lr) << 5)],
            Command::VcomhDeselect(level) => seq![level.code() << 4],
            Command::DisplayLock(lock) => seq![0x12 | (flag(lock) << 2)],
        }
    }

    /// The command as the controller reads it: the opcode, then the
    /// parameters.
    pub open spec fn encoding(self) -> Seq<u8> {
        seq![self.opcode()] + self.params()
    }

    /// What sending the command puts on the bus: the opcode in the command
    /// phase, then the parameters, where there are any, in the data phase.
    pub open spec fn wire(self) -> Seq<Wire> {
        if self.params().len() == 0 {
            seq![Wire::Command(self.opcode())]
        } else {
            seq![Wire::Command(self.opcode()), Wire::Data(self.params())]
        }
    }

    /// Encodes the command into a buffer of three bytes and the number of
    /// leading bytes that are meaningful. The rest of the buffer is zero.
    pub fn encode(self) -> (out: ([u8; 3], usize))
        ensures
            out.1 == 1 + self.params().len(),
            out.0@[0] == self.opcode(),
            out.0@[1] == if self.params().len() > 0 {
                self.params()[0]
            } else {
                0
            },
            out.0@[2] == if self.params().len() > 1 {
                self.params()[1]
            } else {
                0
            },
            self.params().len() <= 2,
            out.0@.take(out.1 as int) == self.encoding(),
    {
        match self {
            Command::AddressMode(mode) => ([0x20, mode.bits(), 0], 2),
            Command::ColumnAddress(start, end) => ([0x21, start, end], 3),
            Command::RowAddress(start, end) => ([0x22, start, end], 3),
            Command::PortraitAddressMode(mode) => ([0x25, mode.bits(), 0], 2),
            Command::Contrast(val) => ([0x81, val, 0], 2),
            Command::SegmentRemap(remap) => ([0xA0 | flag_bit(remap), 0, 0], 1),
            Command::StartLine(line) => ([0xA2, 0x3F & line, 0], 2),
            Command::AllOn(on) => ([0xA4 | flag_bit(on), 0, 0], 1),
            Command::Invert(inv) => ([0xA6 | flag_bit(inv), 0, 0], 1),
            Command::Multiplex(ratio) => ([0xA8, ratio, 0], 2),
            Command::InternalIref(on) => ([0xAD, flag_bit(on) << 4, 0], 2),
            Command::DisplayOn(on) => ([0xAE | flag_bit(on), 0, 0], 1),
            Command::PreChargeLevel(level) => ([0xBC, level.bits(), 0], 2),
            Command::VP => ([0xBD, 0x03, 0], 2),
            Command::LineralLUT => ([0xBF, 0, 0], 1),
            Command::ReverseComDir(rev) => ([0xC0 | (flag_bit(rev) << 3), 0, 0], 1),
            Command::DisplayOffset(offset) => ([0xD3, offset, 0], 2),
            Command::DisplayClockDiv(fosc, div) => ([0xD5, pack_nibbles(fosc, div), 0], 2),
            Command::PreChargePeriod(phase1, phase2) => (
                [0xD9, pack_nibbles(phase2, phase1), 0],
                2,
            ),
            Command::ComPinConfig(alt, lr) => (
                [0xDA, 0x2 | (flag_bit(alt) << 4) | (flag_bit(lr) << 5), 0],
                2,
            ),
            Command::VcomhDeselect(level) => ([0xDB, level.bits() << 4, 0], 2),
            Command::DisplayLock(lock) => ([0xFD, 0x12 | (flag_bit(lock) << 2), 0], 2),
        }
    }

    /// Queues the command on `iface`.
    pub fn send(self, iface: &mut Bus)
        ensures
            final(iface)@ == old(iface)@ + self.wire(),
    {
        let (data, len) = self.encode();
        assert(data@.subrange(1, len as int) =~= self.params());
        iface.command(data[0]);
        if len > 1 {
            iface.data(data.as_slice(), 1, len);
        }
    }
}

} // verus!
