//! Addressing and draw-streaming engine for a panel driven by two SSD1320
//! controllers that share one serial bus.
//!
//! The crate performs no I/O. Every operation queues the bus operations it
//! stands for, in order, and the owner of the hardware takes the queue and
//! carries it out.

pub mod buffered_graphics;
pub mod bus;
pub mod command;
pub mod consts;
pub mod discipline;
pub mod display;
pub mod error;
pub mod stream;
pub mod transaction;

use bus::release_wire;
use bus::select_all_wire;
use bus::select_wire;
use bus::wire_of;
use bus::Bus;
use bus::BusOp;
use bus::Chip;
use bus::Level;
use bus::Line;
use bus::Wire;
use consts::ssd1320;
use consts::ssd1320z2;
use display::area_commands;
use display::commands_wire;
use display::init_commands;
use display::reset_wire;
use display::Ssd1320;
use stream::advance;
use stream::chip_at;
use stream::draw_wire;
use stream::end_position;
use stream::lemma_budget;
use stream::run_len;
use stream::run_wire;
use stream::runs;
use stream::runs_wire;
use stream::Run;
use vstd::prelude::*;
use vstd::slice::slice_subrange;

verus! {

/// An addressing window: its first and its last pixel, each as (column,
/// row), both inside.
#[derive(Copy, Clone, Debug, PartialEq, Eq)]
pub struct Frame {
    pub start: (u16, u16),
    pub end: (u16, u16),
}

/// The low eight bits of a coordinate.
pub open spec fn low_byte(v: u16) -> u8 {
    (v % 256) as u8
}

impl Frame {
    /// The window is in order and lies on the surface of the panel.
    pub open spec fn valid(self) -> bool {
        &&& self.start.0 <= self.end.0 <= ssd1320z2::PIXEL_COL_MAX
        &&& self.start.1 <= self.end.1 <= ssd1320z2::PIXEL_ROW_MAX
    }

    /// The window begins on the first controller and ends on the second.
    pub open spec fn crossing(self) -> bool {
        self.start.0 < ssd1320::NUM_PIXELS_COLS && self.end.0 >= ssd1320::NUM_PIXELS_COLS
    }

    /// The controller on which the window begins.
    pub open spec fn owner(self) -> Chip {
        if self.start.0 < ssd1320::NUM_PIXELS_COLS {
            Chip::One
        } else {
            Chip::Two
        }
    }

    /// The number of pixel columns of the window.
    pub open spec fn x_size(self) -> int {
        self.end.0 - self.start.0 + 1
    }

    /// The number of pixel columns from the start of the window to the end
    /// of the first controller.
    pub open spec fn x_limit(self) -> int {
        ssd1320::NUM_PIXELS_COLS - self.start.0
    }

    /// The window with its columns taken modulo the width of one
    /// controller.
    pub open spec fn spec_normalize(&self) -> Frame {
        Frame {
            start: (self.start.0 % ssd1320::NUM_PIXELS_COLS, self.start.1),
            end: (self.end.0 % ssd1320::NUM_PIXELS_COLS, self.end.1),
        }
    }

    /// The window up to the last column of the first controller, and the
    /// window from the first column of the second controller on, its end
    /// still counted in the columns of the panel. Both keep the rows.
    pub open spec fn spec_split_to_two(&self) -> (Frame, Frame) {
        (
            Frame { start: self.start, end: (ssd1320::PIXEL_COL_MAX, self.end.1) },
            Frame { start: (0, self.start.1), end: self.end },
        )
    }

    /// The corners, each coordinate cut to its low eight bits.
    pub open spec fn spec_as_u8(&self) -> ((u8, u8), (u8, u8)) {
        (
            (low_byte(self.start.0), low_byte(self.start.1)),
            (low_byte(self.end.0), low_byte(self.end.1)),
        )
    }

    /// The window in the space of the controller that takes the whole of
    /// it, as the controller's driver wants it.
    pub open spec fn local(self) -> ((u8, u8), (u8, u8)) {
        self.spec_normalize().spec_as_u8()
    }

    /// The whole surface of the panel.
    pub fn new() -> (frame: Self)
        ensures
            frame.start == (0u16, 0u16),
            frame.end == (ssd1320z2::PIXEL_COL_MAX, ssd1320z2::PIXEL_ROW_MAX),
            frame.valid(),
    {
        Self { start: (0, 0), end: (ssd1320z2::PIXEL_COL_MAX, ssd1320z2::PIXEL_ROW_MAX) }
    }

    /// The window with its columns taken into the space of one controller.
    #[verifier::when_used_as_spec(spec_normalize)]
    pub fn normalize(&self) -> (frame: Self)
        ensures
            frame == self.spec_normalize(),
    {
        Self {
            start: (self.start.0 % ssd1320::NUM_PIXELS_COLS, self.start.1),
            end: (self.end.0 % ssd1320::NUM_PIXELS_COLS, self.end.1),
        }
    }

    /// The part of the window on the first controller and the part on the
    /// second. The end of the second part is still counted in the columns
    /// of the panel.
    #[verifier::when_used_as_spec(spec_split_to_two)]
    pub fn split_to_two(&self) -> (halves: (Self, Self))
        ensures
            halves == self.spec_split_to_two(),
    {
        let start_x = self.start.0;
        let end_x = self.end.0;

        (
            Self { start: (start_x, self.start.1), end: (ssd1320::PIXEL_COL_MAX, self.end.1) },
            Self { start: (0, self.start.1), end: (end_x, self.end.1) },
        )
    }

    /// The corners with each coordinate cut to its low eight bits.
    #[verifier::when_used_as_spec(spec_as_u8)]
    pub fn as_u8(&self) -> (corners: ((u8, u8), (u8, u8)))
        ensures
            corners == self.spec_as_u8(),
    {
        (
            ((self.start.0 % 256) as u8, (self.start.1 % 256) as u8),
            ((self.end.0 % 256) as u8, (self.end.1 % 256) as u8),
        )
    }
}

/// What setting the window of the panel puts on the bus: a crossing window
/// is set on each controller by its part, any other on the controller that
/// holds it; then both are released.
pub open spec fn area_wire(frame: Frame) -> Seq<Wire> {
    if frame.crossing() {
        let (one, two) = frame.spec_split_to_two();
        select_wire(Chip::One) + commands_wire(area_commands(one.local().0, one.local().1))
            + select_wire(Chip::Two) + commands_wire(area_commands(two.local().0, two.local().1))
            + release_wire()
    } else {
        select_wire(frame.owner()) + commands_wire(
            area_commands(frame.local().0, frame.local().1),
        ) + release_wire()
    }
}

/// The settings of one controller that depend on how it is mounted.
#[derive(Copy, Clone, Debug, PartialEq, Eq)]
pub struct ChipConfig {
    /// The vertical shift of the display.
    pub display_offset: u8,
    /// Whether the columns are reversed.
    pub segment_remap: bool,
    /// Whether the rows are scanned in reverse.
    pub com_reverse: bool,
}

/// The settings of the two controllers of a panel.
#[derive(Copy, Clone, Debug, PartialEq, Eq)]
pub struct PanelConfig {
    pub one: ChipConfig,
    pub two: ChipConfig,
}

impl PanelConfig {
    /// The settings of the Surenoo SUR383S1000WG01. Its controllers are
    /// mounted as left and right halves, so their remap and scan direction
    /// mirror each other.
    pub open spec fn surenoo() -> PanelConfig {
        PanelConfig {
            one: ChipConfig { display_offset: 0x0e, segment_remap: false, com_reverse: true },
            two: ChipConfig { display_offset: 0x92, segment_remap: true, com_reverse: false },
        }
    }

    /// The settings of the Surenoo SUR383S1000WG01.
    pub fn new() -> (config: Self)
        ensures
            config == Self::surenoo(),
    {
        PanelConfig {
            one: ChipConfig { display_offset: 0x0e, segment_remap: false, com_reverse: true },
            two: ChipConfig { display_offset: 0x92, segment_remap: true, com_reverse: false },
        }
    }
}

/// The initialization sequence of a controller with the given settings.
pub open spec fn chip_init_wire(config: ChipConfig) -> Seq<Wire> {
    commands_wire(init_commands(config.display_offset, config.segment_remap, config.com_reverse))
}

/// What initializing the panel puts on the bus: the first controller is
/// selected and initialized, then the second, then both are released.
pub open spec fn init_wire(config: PanelConfig) -> Seq<Wire> {
    select_wire(Chip::One) + chip_init_wire(config.one) + select_wire(Chip::Two) + chip_init_wire(
        config.two,
    ) + release_wire()
}

/// A window that crosses from the first controller into the second is set
/// as two windows, one on each controller. Each lies within the 160 columns
/// of its controller, the first from the window's start to the last column
/// of the first controller, the second from column 0 to the window's end,
/// and both have the rows of the window.
pub proof fn lemma_crossing_window(frame: Frame)
    requires
        frame.valid(),
        frame.crossing(),
    ensures
        ({
            let (one, two) = frame.spec_split_to_two();
            let (one_start, one_end) = one.local();
            let (two_start, two_end) = two.local();
            &&& area_wire(frame) == select_wire(Chip::One) + commands_wire(
                area_commands(one_start, one_end),
            ) + select_wire(Chip::Two) + commands_wire(area_commands(two_start, two_end))
                + release_wire()
            &&& one_start.0 == frame.start.0
            &&& one_end.0 == ssd1320::PIXEL_COL_MAX
            &&& two_start.0 == 0
            &&& two_end.0 == frame.end.0 - ssd1320::NUM_PIXELS_COLS
            &&& two_end.0 <= ssd1320::PIXEL_COL_MAX
            &&& one_start.1 == frame.start.1 && two_start.1 == frame.start.1
            &&& one_end.1 == frame.end.1 && two_end.1 == frame.end.1
        }),
{
}

/// Where the panel stands between power-up and streaming, as far as the
/// calls made on it tell.
///
/// The phase follows the calls, in the order in which they queue their
/// operations. It does not wait for the operations to be performed and
/// does not learn of a fault: after an initialization that failed on the
/// bus it still reads [`Phase::Initialized`]. A caller that met a fault
/// resets the panel, which takes the phase back to
/// [`Phase::Uninitialized`], and starts again.
#[derive(Copy, Clone, Debug, PartialEq, Eq, Structural)]
pub enum Phase {
    /// No initialization was called for since power-up or since the last
    /// reset.
    Uninitialized,
    /// The initialization was called for; no window was set since.
    Initialized,
    /// A window was set and no draw was called for since.
    DrawAreaSet,
    /// A draw into the window was called for.
    Streaming,
}

impl Phase {
    /// The phase after a call that initializes the panel.
    pub open spec fn after_init(self) -> Phase {
        if self == Phase::Uninitialized {
            Phase::Initialized
        } else {
            self
        }
    }

    /// The phase after a call that sets a window. It counts on an
    /// initialized panel only.
    pub open spec fn after_window(self) -> Phase {
        if self == Phase::Uninitialized {
            Phase::Uninitialized
        } else {
            Phase::DrawAreaSet
        }
    }

    /// The phase after a call that streams bytes. It counts where a
    /// window was set.
    pub open spec fn after_draw(self) -> Phase {
        if self == Phase::DrawAreaSet || self == Phase::Streaming {
            Phase::Streaming
        } else {
            self
        }
    }
}

/// The panel as its contracts speak of it.
#[verifier::ext_equal]
pub struct Panel {
    /// The window that was set last.
    pub frame: Frame,
    /// The cursor: the pixel columns written in the current row of the
    /// window.
    pub position: int,
    /// Where the panel stands between power-up and streaming, by the
    /// calls made on it.
    pub phase: Phase,
    /// The operations that are queued and that nobody has taken yet.
    pub pending: Seq<Wire>,
    /// The cursor from which the last draw started: where the cursor
    /// stands if none of the bytes of that draw is written.
    pub drawn_from: int,
    /// The index that the first operation of the last draw has in the
    /// queue. After any other call that moves or keeps the cursor for
    /// good, the length of the queue: none of its operations streams.
    pub stream_at: int,
}

impl Panel {
    /// The same panel with more operations queued.
    pub open spec fn queued(self, ops: Seq<Wire>) -> Panel {
        Panel { pending: self.pending + ops, ..self }
    }
}

/// The cursor after `len` bytes are streamed into the window from the
/// cursor `position`.
fn end_of(frame: Frame, position: u16, len: usize) -> (end: u16)
    ensures
        end == end_position(frame, position as int, len as int),
{
    let Frame { start, end } = frame;
    let mut position = position;
    if start.0 < ssd1320::NUM_PIXELS_COLS && end.0 >= ssd1320::NUM_PIXELS_COLS {
        let x_size: u32 = end.0 as u32 - start.0 as u32 + 1;
        let x_limit: u32 = ssd1320::NUM_PIXELS_COLS as u32 - start.0 as u32;
        let ghost first = position;
        let mut left = len;
        while left > 0
            invariant
                frame == (Frame { start, end }),
                frame.crossing(),
                x_size == frame.x_size(),
                x_limit == frame.x_limit(),
                end_position(frame, first as int, len as int) == end_position(
                    frame,
                    position as int,
                    left as int,
                ),
            decreases left,
        {
            proof {
                lemma_budget(frame, position as int);
            }
            let at: u32 = if position as u32 / 2 >= x_size / 2 {
                0
            } else {
                position as u32
            };
            let room: u32 = if at / 2 < x_limit / 2 {
                x_limit / 2 - at / 2
            } else {
                x_size / 2 - at / 2
            };
            let taken: usize = if left <= room as usize {
                left
            } else {
                room as usize
            };
            position = ((at + 2 * taken as u32) % x_size) as u16;
            left = left - taken;
        }
    }
    position
}

/// Variant for Surenoo SUR383S1000WG01
/// Two SSD1320 controllers on board with single interface
#[derive(Debug)]
pub struct Ssd1320z2 {
    interface: Ssd1320,
    frame: Frame,
    position: u16,
    phase: Phase,
    before: u16,
    mark: usize,
}

impl View for Ssd1320z2 {
    type V = Panel;

    closed spec fn view(&self) -> Panel {
        Panel {
            frame: self.frame,
            position: self.position as int,
            phase: self.phase,
            pending: self.interface@,
            drawn_from: self.before as int,
            stream_at: self.mark as int,
        }
    }
}

impl Ssd1320z2 {
    /// The window that was set last.
    pub fn window(&self) -> (frame: Frame)
        ensures
            frame == self@.frame,
    {
        self.frame
    }

    /// The cursor.
    pub fn cursor(&self) -> (position: u16)
        ensures
            position == self@.position,
    {
        self.position
    }

    /// Where the panel stands between power-up and streaming, by the
    /// calls made on it.
    pub fn phase(&self) -> (phase: Phase)
        ensures
            phase == self@.phase,
    {
        self.phase
    }

    /// The index that the first operation of the last draw has in the
    /// queue.
    pub fn stream_start(&self) -> (index: usize)
        ensures
            index == self@.stream_at,
    {
        self.mark
    }

    /// Create a SSD1320z2 interface
    pub fn new(interface: Bus) -> (display: Self)
        ensures
            display@ == (Panel {
                frame: Frame {
                    start: (0, 0),
                    end: (ssd1320z2::PIXEL_COL_MAX, ssd1320z2::PIXEL_ROW_MAX),
                },
                position: 0,
                phase: Phase::Uninitialized,
                pending: interface@,
                drawn_from: 0,
                stream_at: interface@.len() as int,
            }),
    {
        let mark = interface.len();
        Self {
            interface: Ssd1320::new(interface),
            frame: Frame::new(),
            position: 0,
            phase: Phase::Uninitialized,
            before: 0,
            mark,
        }
    }

    /// Queues the selection of the first controller: the second is
    /// released, then the first is selected.
    pub fn select_one(&mut self)
        ensures
            final(self)@ == old(self)@.queued(select_wire(Chip::One)),
    {
        self.interface.pin(Line::Cs2, Level::High);
        self.interface.pin(Line::Cs1, Level::Low);
    }

    /// Queues the selection of the second controller: the first is
    /// released, then the second is selected.
    pub fn select_two(&mut self)
        ensures
            final(self)@ == old(self)@.queued(select_wire(Chip::Two)),
    {
        self.interface.pin(Line::Cs1, Level::High);
        self.interface.pin(Line::Cs2, Level::Low);
    }

    /// Queues the selection of both controllers.
    pub fn select_all(&mut self)
        ensures
            final(self)@ == old(self)@.queued(select_all_wire()),
    {
        self.interface.pin(Line::Cs1, Level::Low);
        self.interface.pin(Line::Cs2, Level::Low);
    }

    /// Queues the release of both controllers.
    pub fn unselect_all(&mut self)
        ensures
            final(self)@ == old(self)@.queued(release_wire()),
    {
        self.interface.pin(Line::Cs1, Level::High);
        self.interface.pin(Line::Cs2, Level::High);
    }

    /// Initializes both controllers of the Surenoo SUR383S1000WG01, the
    /// first one first.
    pub fn init(&mut self)
        ensures
            final(self)@ == (Panel {
                phase: old(self)@.phase.after_init(),
                drawn_from: old(self)@.position,
                stream_at: (old(self)@.pending + init_wire(PanelConfig::surenoo())).len() as int,
                ..old(self)@.queued(init_wire(PanelConfig::surenoo()))
            }),
    {
        self.init_with(PanelConfig::new());
    }

    /// Initializes both controllers with the given settings, the first one
    /// first.
    pub fn init_with(&mut self, config: PanelConfig)
        ensures
            final(self)@ == (Panel {
                phase: old(self)@.phase.after_init(),
                drawn_from: old(self)@.position,
                stream_at: (old(self)@.pending + init_wire(config)).len() as int,
                ..old(self)@.queued(init_wire(config))
            }),
    {
        self.select_one();
        self.interface.init(
            config.one.display_offset,
            config.one.segment_remap,
            config.one.com_reverse,
        );
        self.select_two();
        self.interface.init(
            config.two.display_offset,
            config.two.segment_remap,
            config.two.com_reverse,
        );
        self.unselect_all();
        if self.phase == Phase::Uninitialized {
            self.phase = Phase::Initialized;
        }
        self.before = self.position;
        self.mark = self.interface.len();
    }

    /// Sets the window for the bytes that follow and puts the cursor at its
    /// start.
    pub fn set_draw_area(&mut self, start: (u16, u16), end: (u16, u16))
        ensures
            final(self)@ == (Panel {
                frame: Frame { start, end },
                position: 0,
                phase: old(self)@.phase.after_window(),
                pending: old(self)@.pending + area_wire(Frame { start, end }),
                drawn_from: 0,
                stream_at: (old(self)@.pending + area_wire(Frame { start, end })).len() as int,
            }),
    {
        self.frame = Frame { start, end };
        self.position = 0;
        self.before = 0;
        if self.phase != Phase::Uninitialized {
            self.phase = Phase::DrawAreaSet;
        }
        if start.0 < ssd1320::NUM_PIXELS_COLS && end.0 >= ssd1320::NUM_PIXELS_COLS {
            let (one, two) = self.frame.split_to_two();
            let one = one.normalize().as_u8();
            let two = two.normalize().as_u8();
            self.select_one();
            self.interface.set_draw_area(one.0, one.1);
            self.select_two();
            self.interface.set_draw_area(two.0, two.1);
        } else {
            if start.0 < ssd1320::NUM_PIXELS_COLS {
                self.select_one();
            } else {
                self.select_two();
            }
            let adopted_frame = self.frame.normalize().as_u8();
            self.interface.set_draw_area(adopted_frame.0, adopted_frame.1);
        }
        self.unselect_all();
        self.mark = self.interface.len();
    }

    /// Streams packed pixel bytes into the window, each byte to the
    /// controller that holds its two pixels, and moves the cursor on by
    /// the whole buffer. Where the bus then fails before all the bytes are
    /// written, [`Ssd1320z2::settle`] takes the cursor back to what was
    /// written.
    pub fn draw(&mut self, buffer: &[u8])
        ensures
            final(self)@ == (Panel {
                frame: old(self)@.frame,
                position: end_position(
                    old(self)@.frame,
                    old(self)@.position,
                    buffer@.len() as int,
                ),
                phase: old(self)@.phase.after_draw(),
                pending: old(self)@.pending + draw_wire(
                    old(self)@.frame,
                    old(self)@.position,
                    buffer@,
                ),
                drawn_from: old(self)@.position,
                stream_at: old(self)@.pending.len() as int,
            }),
    {
        self.before = self.position;
        self.mark = self.interface.len();
        let Frame { start, end } = self.frame;
        let ghost frame = self.frame;
        let ghost goal = old(self)@.pending + runs_wire(
            runs(frame, old(self)@.position, buffer@),
        );
        if self.phase == Phase::DrawAreaSet {
            self.phase = Phase::Streaming;
        }
        if start.0 < ssd1320::NUM_PIXELS_COLS && end.0 >= ssd1320::NUM_PIXELS_COLS {
            let x_size: u32 = end.0 as u32 - start.0 as u32 + 1;
            let x_limit: u32 = ssd1320::NUM_PIXELS_COLS as u32 - start.0 as u32;
            let buffer_len = buffer.len();
            let mut index: usize = 0;

            assert(buffer@.skip(0) =~= buffer@);
            while index < buffer_len
                invariant
                    frame == old(self)@.frame,
                    frame == (Frame { start, end }),
                    frame.crossing(),
                    self@.frame == frame,
                    self@.phase == old(self)@.phase.after_draw(),
                    self@.drawn_from == old(self)@.position,
                    self@.stream_at == old(self)@.pending.len(),
                    x_size == frame.x_size(),
                    x_limit == frame.x_limit(),
                    buffer_len == buffer@.len(),
                    index <= buffer_len,
                    goal == self@.pending + runs_wire(
                        runs(frame, self@.position, buffer@.skip(index as int)),
                    ),
                    end_position(frame, old(self)@.position, buffer@.len() as int)
                        == end_position(frame, self@.position, buffer_len - index),
                decreases buffer_len - index,
            {
                proof {
                    lemma_budget(frame, self@.position);
                }
                let at: u32 = if self.position as u32 / 2 >= x_size / 2 {
                    0
                } else {
                    self.position as u32
                };
                let room: u32 = if at / 2 < x_limit / 2 {
                    self.select_one();

                    x_limit / 2 - at / 2
                } else {
                    self.select_two();

                    x_size / 2 - at / 2
                };
                let available_advance: usize = if buffer_len - index <= room as usize {
                    buffer_len - index
                } else {
                    room as usize
                };
                let end_index = available_advance + index;
                let ghost rest = buffer@.skip(index as int);
                let ghost before = self@.position;
                self.interface.draw(slice_subrange(buffer, index, end_index));
                self.position = ((at + 2 * available_advance as u32) % x_size) as u16;
                proof {
                    let n = available_advance as int;
                    let run = Run { chip: chip_at(frame, before), bytes: rest.take(n) };
                    let tail = runs(frame, self@.position, rest.skip(n));
                    assert(n == run_len(frame, before, rest.len() as int));
                    assert(self@.position == advance(frame, before, n));
                    assert(rest.take(n) =~= buffer@.subrange(index as int, end_index as int));
                    assert(rest.skip(n) =~= buffer@.skip(end_index as int));
                    assert(runs(frame, before, rest) == seq![run] + tail);
                    assert((seq![run] + tail)[0] == run);
                    assert((seq![run] + tail).skip(1) =~= tail);
                    assert(runs_wire(seq![run] + tail) == run_wire(run) + runs_wire(tail));
                    assert(goal =~= self@.pending + runs_wire(tail));
                }
                index = end_index;
            }
            assert(runs(frame, self@.position, buffer@.skip(index as int)) =~= Seq::<
                Run,
            >::empty());
        } else {
            if start.0 < ssd1320::NUM_PIXELS_COLS {
                self.select_one();
            } else {
                self.select_two();
            }
            self.interface.draw(buffer);
            proof {
                let run = Run { chip: frame.owner(), bytes: buffer@ };
                assert(runs(frame, old(self)@.position, buffer@) == seq![run]);
                assert(seq![run].skip(1) =~= Seq::<Run>::empty());
                assert(runs_wire(Seq::<Run>::empty()) =~= Seq::<Wire>::empty());
                assert(runs_wire(seq![run]) =~= run_wire(run));
                assert(goal =~= self@.pending);
            }
        }
        self.unselect_all();
    }

    /// Takes the cursor to where it stands when only the first `written`
    /// bytes of the last draw were written: on from the cursor at which
    /// that draw started, by those bytes. After a fault on the bus this
    /// is the cursor from which the rest of the buffer goes on. Without a
    /// draw since the last other call the cursor stays where that call
    /// left it, if `written` is 0.
    pub fn settle(&mut self, written: usize)
        ensures
            final(self)@ == (Panel {
                position: end_position(
                    old(self)@.frame,
                    old(self)@.drawn_from,
                    written as int,
                ),
                ..old(self)@
            }),
    {
        self.position = end_of(self.frame, self.before, written);
    }

    /// Reset the display.
    pub fn reset(&mut self)
        ensures
            final(self)@ == (Panel {
                phase: Phase::Uninitialized,
                drawn_from: old(self)@.position,
                stream_at: (old(self)@.pending + reset_wire()).len() as int,
                ..old(self)@.queued(reset_wire())
            }),
    {
        self.interface.reset();
        self.phase = Phase::Uninitialized;
        self.before = self.position;
        self.mark = self.interface.len();
    }

    /// Hands out the queued operations, oldest first, and leaves the queue
    /// empty.
    pub fn take(&mut self) -> (ops: Vec<BusOp>)
        ensures
            wire_of(ops@) == old(self)@.pending,
            final(self)@ == (Panel { pending: Seq::empty(), ..old(self)@ }),
    {
        self.interface.take()
    }
}

} // verus!
