//! The serial bus as the drivers see it: a queue of operations waiting to be
//! carried out.
//!
//! A driver never touches hardware. It appends what it wants done to a
//! [`Bus`], and the owner of the real lines and of the real transport takes
//! the queue and performs it front to back.

use vstd::prelude::*;
use vstd::slice::slice_subrange;
use vstd::slice::slice_to_vec;

verus! {

/// An output line driven by the drivers.
#[derive(Clone, Copy, Debug, PartialEq, Eq, Structural)]
pub enum Line {
    /// Chip select of the first controller, active low.
    Cs1,
    /// Chip select of the second controller, active low.
    Cs2,
    /// The reset line shared by both controllers, active low.
    Reset,
}

/// The level a line is driven to.
#[derive(Clone, Copy, Debug, PartialEq, Eq, Structural)]
pub enum Level {
    Low,
    High,
}

/// One operation on the bus.
#[derive(Clone, Debug, PartialEq, Eq)]
pub enum BusOp {
    /// Drive a line to a level.
    Pin(Line, Level),
    /// Block for the given number of milliseconds.
    Delay(u16),
    /// Write one byte with the transport in command mode.
    Command(u8),
    /// Write the bytes with the transport in data mode.
    Data(Vec<u8>),
}

/// What a [`BusOp`] stands for, with the payload as a sequence.
pub enum Wire {
    Pin(Line, Level),
    Delay(u16),
    Command(u8),
    Data(Seq<u8>),
}

impl View for BusOp {
    type V = Wire;

    open spec fn view(&self) -> Wire {
        match *self {
            BusOp::Pin(line, level) => Wire::Pin(line, level),
            BusOp::Delay(ms) => Wire::Delay(ms),
            BusOp::Command(byte) => Wire::Command(byte),
            BusOp::Data(bytes) => Wire::Data(bytes@),
        }
    }
}

/// One of the two controllers of the panel.
#[derive(Clone, Copy, Debug, PartialEq, Eq, Structural)]
pub enum Chip {
    /// The controller behind [`Line::Cs1`]: logical columns 0 to 159.
    One,
    /// The controller behind [`Line::Cs2`]: logical columns 160 to 319.
    Two,
}

/// Selecting one controller: the other one is released first.
pub open spec fn select_wire(chip: Chip) -> Seq<Wire> {
    match chip {
        Chip::One => seq![Wire::Pin(Line::Cs2, Level::High), Wire::Pin(Line::Cs1, Level::Low)],
        Chip::Two => seq![Wire::Pin(Line::Cs1, Level::High), Wire::Pin(Line::Cs2, Level::Low)],
    }
}

/// Selecting both controllers.
pub open spec fn select_all_wire() -> Seq<Wire> {
    seq![Wire::Pin(Line::Cs1, Level::Low), Wire::Pin(Line::Cs2, Level::Low)]
}

/// Releasing both controllers.
pub open spec fn release_wire() -> Seq<Wire> {
    seq![Wire::Pin(Line::Cs1, Level::High), Wire::Pin(Line::Cs2, Level::High)]
}

/// The operations that a vector of [`BusOp`] stands for.
pub open spec fn wire_of(ops: Seq<BusOp>) -> Seq<Wire> {
    ops.map_values(|op: BusOp| op@)
}

/// Operations waiting to be performed, oldest first.
#[derive(Debug)]
pub struct Bus {
    ops: Vec<BusOp>,
}

impl View for Bus {
    type V = Seq<Wire>;

    closed spec fn view(&self) -> Seq<Wire> {
        wire_of(self.ops@)
    }
}

impl Bus {
    /// A bus with nothing waiting.
    pub fn new() -> (bus: Self)
        ensures
            bus@ == Seq::<Wire>::empty(),
    {
        Bus { ops: Vec::new() }
    }

    fn record(&mut self, op: BusOp)
        ensures
            final(self)@ == old(self)@.push(op@),
    {
        self.ops.push(op);
    }

    /// Queues driving `line` to `level`.
    pub fn pin(&mut self, line: Line, level: Level)
        ensures
            final(self)@ == old(self)@.push(Wire::Pin(line, level)),
    {
        self.record(BusOp::Pin(line, level));
    }

    /// Queues a pause of `ms` milliseconds.
    pub fn delay(&mut self, ms: u16)
        ensures
            final(self)@ == old(self)@.push(Wire::Delay(ms)),
    {
        self.record(BusOp::Delay(ms));
    }

    /// Queues one byte for the command phase.
    pub fn command(&mut self, byte: u8)
        ensures
            final(self)@ == old(self)@.push(Wire::Command(byte)),
    {
        self.record(BusOp::Command(byte));
    }

    /// Queues `bytes[from..to]` for the data phase.
    pub fn data(&mut self, bytes: &[u8], from: usize, to: usize)
        requires
            from <= to <= bytes@.len(),
        ensures
            final(self)@ == old(self)@.push(Wire::Data(bytes@.subrange(from as int, to as int))),
    {
        let payload = slice_to_vec(slice_subrange(bytes, from, to));
        self.record(BusOp::Data(payload));
    }

    /// The number of operations waiting.
    pub fn len(&self) -> (n: usize)
        ensures
            n == self@.len(),
    {
        self.ops.len()
    }

    /// Hands out everything that is waiting and leaves the queue empty.
    pub fn take(&mut self) -> (ops: Vec<BusOp>)
        ensures
            wire_of(ops@) == old(self)@,
            final(self)@ == Seq::<Wire>::empty(),
    {
        let mut ops: Vec<BusOp> = Vec::new();
        core::mem::swap(&mut ops, &mut self.ops);
        ops
    }
}

/// The levels of the two chip-select lines.
pub struct Lines {
    pub cs1: Level,
    pub cs2: Level,
}

/// One controller selected and the other released.
pub open spec fn only(chip: Chip) -> Lines {
    match chip {
        Chip::One => Lines { cs1: Level::Low, cs2: Level::High },
        Chip::Two => Lines { cs1: Level::High, cs2: Level::Low },
    }
}

/// Both controllers released.
pub open spec fn released() -> Lines {
    Lines { cs1: Level::High, cs2: Level::High }
}

/// The chip-select lines after one operation.
pub open spec fn drive(lines: Lines, op: Wire) -> Lines {
    match op {
        Wire::Pin(Line::Cs1, level) => Lines { cs1: level, cs2: lines.cs2 },
        Wire::Pin(Line::Cs2, level) => Lines { cs1: lines.cs1, cs2: level },
        _ => lines,
    }
}

/// The chip-select lines after the operations, performed in order.
pub open spec fn lines_after(lines: Lines, ops: Seq<Wire>) -> Lines
    decreases ops.len(),
{
    if ops.len() == 0 {
        lines
    } else {
        drive(lines_after(lines, ops.drop_last()), ops.last())
    }
}

/// The operation is a write through the transport.
pub open spec fn is_transfer(op: Wire) -> bool {
    op is Command || op is Data
}

/// The operation drives no line.
pub open spec fn is_quiet(op: Wire) -> bool {
    !(op is Pin)
}

/// Every write among the operations is made while `chip` is selected and
/// the other controller is not, whatever the lines were before.
pub open spec fn addressed_to(ops: Seq<Wire>, chip: Chip) -> bool {
    forall|start: Lines, i: int|
        0 <= i < ops.len() && is_transfer(ops[i]) ==> #[trigger] lines_after(start, ops.take(i))
            == only(chip)
}

/// Performing one sequence after another is performing the first, then
/// the second from where the first left the lines.
pub proof fn lemma_lines_after_add(lines: Lines, first: Seq<Wire>, second: Seq<Wire>)
    ensures
        lines_after(lines, first + second) == lines_after(lines_after(lines, first), second),
    decreases second.len(),
{
    if second.len() == 0 {
        assert(first + second =~= first);
    } else {
        lemma_lines_after_add(lines, first, second.drop_last());
        assert((first + second).drop_last() =~= first + second.drop_last());
    }
}

/// Operations that drive no line leave the lines as they were.
pub proof fn lemma_lines_after_quiet(lines: Lines, ops: Seq<Wire>)
    requires
        forall|i: int| 0 <= i < ops.len() ==> is_quiet(#[trigger] ops[i]),
    ensures
        lines_after(lines, ops) == lines,
    decreases ops.len(),
{
    if ops.len() > 0 {
        lemma_lines_after_quiet(lines, ops.drop_last());
    }
}

/// Selecting a controller leaves it alone selected; releasing leaves both
/// released.
pub proof fn lemma_lines_after_select(lines: Lines, chip: Chip)
    ensures
        lines_after(lines, select_wire(chip)) == only(chip),
        lines_after(lines, release_wire()) == released(),
{
    let s = select_wire(chip);
    assert(s.drop_last().drop_last() =~= Seq::<Wire>::empty());
    assert(lines_after(lines, s.drop_last().drop_last()) == lines);
    assert(lines_after(lines, s.drop_last()) == drive(lines, s[0]));
    let r = release_wire();
    assert(r.drop_last().drop_last() =~= Seq::<Wire>::empty());
    assert(lines_after(lines, r.drop_last()) == drive(lines, r[0]));
}

/// A controller is selected, written to, and released: every write of the
/// block is made while that controller alone is selected, and the lines
/// are left where the rest leaves them.
pub proof fn lemma_addressed_block(chip: Chip, writes: Seq<Wire>, rest: Seq<Wire>)
    requires
        forall|i: int| 0 <= i < writes.len() ==> is_quiet(#[trigger] writes[i]),
        forall|i: int| 0 <= i < rest.len() ==> !is_transfer(#[trigger] rest[i]),
    ensures
        addressed_to(select_wire(chip) + writes + rest, chip),
        forall|start: Lines| #[trigger]
            lines_after(start, select_wire(chip) + writes + rest) == lines_after(
                only(chip),
                rest,
            ),
{
    let ops = select_wire(chip) + writes + rest;
    assert forall|start: Lines, i: int| 0 <= i < ops.len() && is_transfer(ops[i]) implies #[trigger]
        lines_after(start, ops.take(i)) == only(chip) by {
        let head = writes.take(i - 2);
        assert(ops.take(i) =~= select_wire(chip) + head);
        lemma_lines_after_add(start, select_wire(chip), head);
        lemma_lines_after_select(start, chip);
        lemma_lines_after_quiet(only(chip), head);
    }
    assert forall|start: Lines| #[trigger]
        lines_after(start, ops) == lines_after(only(chip), rest) by {
        lemma_lines_after_add(start, select_wire(chip) + writes, rest);
        lemma_lines_after_add(start, select_wire(chip), writes);
        lemma_lines_after_select(start, chip);
        lemma_lines_after_quiet(only(chip), writes);
    }
}

/// Every write among the operations is made while exactly one controller
/// is selected, whatever the lines were before.
pub open spec fn exclusive(ops: Seq<Wire>) -> bool {
    forall|start: Lines, i: int|
        0 <= i < ops.len() && is_transfer(ops[i]) ==> {
            let lines = #[trigger] lines_after(start, ops.take(i));
            lines == only(Chip::One) || lines == only(Chip::Two)
        }
}

/// The bytes written in the data phase, in order, each with the levels of
/// the chip-select lines at the time.
pub open spec fn written(start: Lines, ops: Seq<Wire>) -> Seq<(Lines, u8)>
    decreases ops.len(),
{
    if ops.len() == 0 {
        Seq::empty()
    } else {
        let before = written(start, ops.drop_last());
        match ops.last() {
            Wire::Data(bytes) => before + Seq::new(
                bytes.len(),
                |k: int| (lines_after(start, ops.drop_last()), bytes[k]),
            ),
            _ => before,
        }
    }
}

/// Two sequences that each keep the discipline keep it one after the
/// other.
pub proof fn lemma_exclusive_add(first: Seq<Wire>, second: Seq<Wire>)
    requires
        exclusive(first),
        exclusive(second),
    ensures
        exclusive(first + second),
{
    let ops = first + second;
    assert forall|start: Lines, i: int| 0 <= i < ops.len() && is_transfer(ops[i]) implies {
        let lines = #[trigger] lines_after(start, ops.take(i));
        lines == only(Chip::One) || lines == only(Chip::Two)
    } by {
        if i < first.len() {
            assert(ops.take(i) =~= first.take(i));
        } else {
            let k = i - first.len();
            assert(ops.take(i) =~= first + second.take(k));
            lemma_lines_after_add(start, first, second.take(k));
            let lines = lines_after(lines_after(start, first), second.take(k));
            assert(lines == only(Chip::One) || lines == only(Chip::Two));
        }
    }
}

/// A controller is selected and written to: the discipline is kept, and
/// the controller is left selected.
pub proof fn lemma_exclusive_block(chip: Chip, writes: Seq<Wire>)
    requires
        forall|i: int| 0 <= i < writes.len() ==> is_quiet(#[trigger] writes[i]),
    ensures
        exclusive(select_wire(chip) + writes),
        forall|start: Lines| #[trigger]
            lines_after(start, select_wire(chip) + writes) == only(chip),
{
    let none = Seq::<Wire>::empty();
    lemma_addressed_block(chip, writes, none);
    let ops = select_wire(chip) + writes;
    assert forall|start: Lines, i: int| 0 <= i < ops.len() && is_transfer(ops[i]) implies {
        let lines = #[trigger] lines_after(start, ops.take(i));
        lines == only(Chip::One) || lines == only(Chip::Two)
    } by {
        assert(lines_after(start, ops.take(i)) == only(chip));
    }
}

/// The release writes nothing, so it keeps the discipline.
pub proof fn lemma_exclusive_release()
    ensures
        exclusive(release_wire()),
{
}

/// What is written by one sequence after another is what the first
/// writes, then what the second writes from where the first left the
/// lines.
pub proof fn lemma_written_add(start: Lines, first: Seq<Wire>, second: Seq<Wire>)
    ensures
        written(start, first + second) == written(start, first) + written(
            lines_after(start, first),
            second,
        ),
    decreases second.len(),
{
    if second.len() == 0 {
        assert(first + second =~= first);
    } else {
        lemma_written_add(start, first, second.drop_last());
        lemma_lines_after_add(start, first, second.drop_last());
        assert((first + second).drop_last() =~= first + second.drop_last());
    }
}

/// Operations that drive lines only write nothing.
pub proof fn lemma_written_pins(start: Lines, ops: Seq<Wire>)
    requires
        forall|i: int| 0 <= i < ops.len() ==> #[trigger] ops[i] is Pin,
    ensures
        written(start, ops) == Seq::<(Lines, u8)>::empty(),
    decreases ops.len(),
{
    if ops.len() > 0 {
        lemma_written_pins(start, ops.drop_last());
    }
}

} // verus!
