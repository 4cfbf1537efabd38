//! SSD1320 OLED display driver: the traffic of one controller.

use crate::bus::is_quiet;
use crate::bus::is_transfer;
use crate::bus::Bus;
use crate::bus::BusOp;
use crate::bus::Level;
use crate::bus::Line;
use crate::bus::Wire;
use crate::bus::wire_of;
use crate::command::AddrMode;
use crate::command::Command;
use crate::command::PortraitAddrMode;
use crate::command::PreChargeLvl;
use crate::command::VcomhLevel;
use vstd::prelude::*;

verus! {

/// What sending the commands one after the other puts on the bus.
pub open spec fn commands_wire(commands: Seq<Command>) -> Seq<Wire>
    decreases commands.len(),
{
    if commands.len() == 0 {
        Seq::empty()
    } else {
        commands_wire(commands.drop_last()) + commands.last().wire()
    }
}

/// The initialization sequence of one controller. The display is switched
/// off before clock, multiplex ratio and contrast are set, and switched on
/// by the last command.
pub open spec fn init_commands(display_offset: u8, regmap: bool, com_reverse: bool) -> Seq<
    Command,
> {
    seq![
        Command::DisplayLock(false),
        Command::DisplayOn(false),
        Command::DisplayClockDiv(0x7, 0x2),
        Command::Multiplex(0x83),
        Command::DisplayOffset(display_offset),
        Command::AddressMode(AddrMode::Horizontal),
        Command::PortraitAddressMode(PortraitAddrMode::Normal),
        Command::StartLine(0),
        Command::Contrast(0x6b),
        Command::SegmentRemap(regmap),
        Command::AllOn(false),
        Command::Invert(false),
        Command::InternalIref(true),
        Command::PreChargeLevel(PreChargeLvl::V050),
        Command::LineralLUT,
        Command::ReverseComDir(com_reverse),
        Command::PreChargePeriod(0xc, 0x2),
        Command::ComPinConfig(true, true),
        Command::VP,
        Command::VcomhDeselect(VcomhLevel::V080),
        Command::DisplayOn(true),
    ]
}

/// The commands that set the addressing window of one controller. The
/// corners are in pixels of the controller's own space; a column address
/// covers two pixel columns.
pub open spec fn area_commands(start: (u8, u8), end: (u8, u8)) -> Seq<Command> {
    seq![Command::ColumnAddress(start.0 / 2, end.0 / 2), Command::RowAddress(start.1, end.1)]
}

/// The reset pulse: the line high for 1 ms, low for 10 ms, then high again
/// with 20 ms for the controller to settle.
pub open spec fn reset_wire() -> Seq<Wire> {
    seq![
        Wire::Pin(Line::Reset, Level::High),
        Wire::Delay(1),
        Wire::Pin(Line::Reset, Level::Low),
        Wire::Delay(10),
        Wire::Pin(Line::Reset, Level::High),
        Wire::Delay(20),
    ]
}

/// Commands are written through the transport and drive no line.
pub proof fn lemma_commands_transfer(commands: Seq<Command>)
    ensures
        forall|i: int|
            0 <= i < commands_wire(commands).len() ==> is_transfer(
                #[trigger] commands_wire(commands)[i],
            ),
        forall|i: int|
            0 <= i < commands_wire(commands).len() ==> is_quiet(
                #[trigger] commands_wire(commands)[i],
            ),
    decreases commands.len(),
{
    if commands.len() > 0 {
        let front = commands_wire(commands.drop_last());
        let back = commands.last().wire();
        lemma_commands_transfer(commands.drop_last());
        assert forall|i: int| 0 <= i < commands_wire(commands).len() implies is_transfer(
            #[trigger] commands_wire(commands)[i],
        ) by {
            if i < front.len() {
                assert(commands_wire(commands)[i] == front[i]);
            } else {
                assert(commands_wire(commands)[i] == back[i - front.len()]);
            }
        }
    }
}

/// The initialization sequence switches the display off before it sets
/// clock, multiplex ratio and contrast, and switches it on last and only
/// then.
pub proof fn lemma_init_power_order(display_offset: u8, regmap: bool, com_reverse: bool)
    ensures
        ({
            let sequence = init_commands(display_offset, regmap, com_reverse);
            &&& sequence.len() == 21
            &&& sequence[1] == Command::DisplayOn(false)
            &&& sequence.last() == Command::DisplayOn(true)
            &&& forall|i: int|
                0 <= i < sequence.len() && (sequence[i] is DisplayClockDiv
                    || sequence[i] is Multiplex || sequence[i] is Contrast) ==> 1 < i
            &&& forall|i: int|
                0 <= i < sequence.len() - 1 ==> #[trigger] sequence[i] != Command::DisplayOn(true)
        }),
{
}

/// SSD1320 driver.
#[derive(Debug)]
pub struct Ssd1320 {
    interface: Bus,
}

impl View for Ssd1320 {
    type V = Seq<Wire>;

    /// The operations that the driver has queued and nobody has taken yet.
    closed spec fn view(&self) -> Seq<Wire> {
        self.interface@
    }
}

impl Ssd1320 {
    /// Create a SSD1320 interface
    pub fn new(interface: Bus) -> (driver: Self)
        ensures
            driver@ == interface@,
    {
        Self { interface }
    }

    /// Queues the commands in order.
    pub fn send_all(&mut self, commands: &[Command])
        ensures
            final(self)@ == old(self)@ + commands_wire(commands@),
    {
        let mut i: usize = 0;
        while i < commands.len()
            invariant
                i <= commands@.len(),
                self@ == old(self)@ + commands_wire(commands@.take(i as int)),
            decreases commands@.len() - i,
        {
            let command = commands[i];
            command.send(&mut self.interface);
            proof {
                let next = commands@.take(i + 1);
                assert(next.drop_last() =~= commands@.take(i as int));
            }
            i += 1;
        }
        assert(commands@.take(i as int) =~= commands@);
    }

    /// Initialise the display in one of the available addressing modes.
    pub fn init(&mut self, display_offset: u8, regmap: bool, com_reverse: bool)
        ensures
            final(self)@ == old(self)@ + commands_wire(
                init_commands(display_offset, regmap, com_reverse),
            ),
    {
        let sequence = [
            Command::DisplayLock(false),
            Command::DisplayOn(false),
            Command::DisplayClockDiv(0x7, 0x2),
            Command::Multiplex(0x83),
            Command::DisplayOffset(display_offset),
            Command::AddressMode(AddrMode::Horizontal),
            Command::PortraitAddressMode(PortraitAddrMode::Normal),
            Command::StartLine(0),
            Command::Contrast(0x6b),
            Command::SegmentRemap(regmap),
            Command::AllOn(false),
            Command::Invert(false),
            Command::InternalIref(true),
            Command::PreChargeLevel(PreChargeLvl::V050),
            Command::LineralLUT,
            Command::ReverseComDir(com_reverse),
            Command::PreChargePeriod(0xc, 0x2),
            Command::ComPinConfig(true, true),
            Command::VP,
            Command::VcomhDeselect(VcomhLevel::V080),
            Command::DisplayOn(true),
        ];
        self.send_all(sequence.as_slice());
    }

    /// Sets the addressing window. The corners are in pixels of the
    /// controller's own space.
    pub fn set_draw_area(&mut self, start: (u8, u8), end: (u8, u8))
        ensures
            final(self)@ == old(self)@ + commands_wire(area_commands(start, end)),
    {
        let sequence = [
            Command::ColumnAddress(start.0 / 2, end.0 / 2),
            Command::RowAddress(start.1, end.1),
        ];
        self.send_all(sequence.as_slice());
    }

    /// Streams packed pixel bytes as they are. Where they land is up to the
    /// window that was set before.
    pub fn draw(&mut self, buffer: &[u8])
        ensures
            final(self)@ == old(self)@.push(Wire::Data(buffer@)),
    {
        self.interface.data(buffer, 0, buffer.len());
        assert(buffer@.subrange(0, buffer@.len() as int) =~= buffer@);
    }

    /// Reset the display.
    pub fn reset(&mut self)
        ensures
            final(self)@ == old(self)@ + reset_wire(),
    {
        self.interface.pin(Line::Reset, Level::High);
        self.interface.delay(1);
        self.interface.pin(Line::Reset, Level::Low);
        self.interface.delay(10);
        self.interface.pin(Line::Reset, Level::High);
        self.interface.delay(20);
    }

    /// Queues driving `line` to `level` among this controller's traffic.
    pub fn pin(&mut self, line: Line, level: Level)
        ensures
            final(self)@ == old(self)@.push(Wire::Pin(line, level)),
    {
        self.interface.pin(line, level);
    }

    /// The number of operations queued.
    pub fn len(&self) -> (n: usize)
        ensures
            n == self@.len(),
    {
        self.interface.len()
    }

    /// Hands out the queued operations, oldest first, and leaves the queue
    /// empty.
    pub fn take(&mut self) -> (ops: Vec<BusOp>)
        ensures
            wire_of(ops@) == old(self)@,
            final(self)@ == Seq::<Wire>::empty(),
    {
        self.interface.take()
    }
}

} // verus!
