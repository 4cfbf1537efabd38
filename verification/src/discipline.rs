//! The chip-select discipline of the panel's operations.
//!
//! Whatever the panel queues, every write through the transport is made
//! while exactly one controller is selected, and both controllers are
//! released at the end. For the bytes of a stream the selected controller
//! is the one that holds the two pixels of the byte.

use crate::Frame;
use crate::PanelConfig;
use crate::area_wire;
use crate::bus::Chip;
use crate::bus::Lines;
use crate::bus::Wire;
use crate::bus::addressed_to;
use crate::bus::exclusive;
use crate::bus::is_quiet;
use crate::bus::lemma_addressed_block;
use crate::bus::lemma_exclusive_add;
use crate::bus::lemma_exclusive_block;
use crate::bus::lemma_exclusive_release;
use crate::bus::lemma_lines_after_add;
use crate::bus::lemma_lines_after_select;
use crate::bus::lemma_written_add;
use crate::bus::lemma_written_pins;
use crate::bus::lines_after;
use crate::bus::only;
use crate::bus::release_wire;
use crate::bus::released;
use crate::bus::select_wire;
use crate::bus::written;
use crate::chip_init_wire;
use crate::display::area_commands;
use crate::display::commands_wire;
use crate::display::init_commands;
use crate::display::lemma_commands_transfer;
use crate::init_wire;
use crate::stream::Run;
use crate::stream::delivered;
use crate::stream::draw_wire;
use crate::stream::end_position;
use crate::stream::joined;
use crate::stream::lemma_fixed_position;
use crate::stream::lemma_runs_route;
use crate::stream::lemma_split_in_two;
use crate::stream::route;
use crate::stream::run_wire;
use crate::stream::runs;
use crate::stream::runs_wire;
use crate::transaction::data_bytes;
use crate::transaction::lemma_data_bytes_add;
use crate::transaction::lemma_data_bytes_front;
use vstd::prelude::*;

verus! {

/// The bytes with, for each, the levels that select its controller alone.
pub open spec fn addressed(bytes: Seq<(Chip, u8)>) -> Seq<(Lines, u8)> {
    Seq::new(bytes.len(), |k: int| (only(bytes[k].0), bytes[k].1))
}

/// Two controllers are selected and written to in turn, then both are
/// released: the discipline is kept and the lines end released.
proof fn lemma_two_blocks(first: Seq<Wire>, second: Seq<Wire>)
    requires
        forall|i: int| 0 <= i < first.len() ==> is_quiet(#[trigger] first[i]),
        forall|i: int| 0 <= i < second.len() ==> is_quiet(#[trigger] second[i]),
    ensures
        exclusive(
            select_wire(Chip::One) + first + select_wire(Chip::Two) + second + release_wire(),
        ),
        forall|start: Lines| #[trigger]
            lines_after(
                start,
                select_wire(Chip::One) + first + select_wire(Chip::Two) + second + release_wire(),
            ) == released(),
{
    let one = select_wire(Chip::One) + first;
    let two = select_wire(Chip::Two) + second;
    let ops = select_wire(Chip::One) + first + select_wire(Chip::Two) + second + release_wire();
    assert(ops =~= one + two + release_wire());
    lemma_exclusive_block(Chip::One, first);
    lemma_exclusive_block(Chip::Two, second);
    lemma_exclusive_release();
    lemma_exclusive_add(one, two);
    lemma_exclusive_add(one + two, release_wire());
    assert forall|start: Lines| #[trigger] lines_after(start, ops) == released() by {
        lemma_lines_after_add(start, one + two, release_wire());
        lemma_lines_after_select(lines_after(start, one + two), Chip::One);
    }
}

/// One controller is selected and written to, then both are released: the
/// discipline is kept and the lines end released.
proof fn lemma_one_block(chip: Chip, writes: Seq<Wire>)
    requires
        forall|i: int| 0 <= i < writes.len() ==> is_quiet(#[trigger] writes[i]),
    ensures
        exclusive(select_wire(chip) + writes + release_wire()),
        forall|start: Lines| #[trigger]
            lines_after(start, select_wire(chip) + writes + release_wire()) == released(),
{
    let block = select_wire(chip) + writes;
    lemma_exclusive_block(chip, writes);
    lemma_exclusive_release();
    lemma_exclusive_add(block, release_wire());
    assert forall|start: Lines| #[trigger]
        lines_after(start, block + release_wire()) == released() by {
        lemma_lines_after_add(start, block, release_wire());
        lemma_lines_after_select(lines_after(start, block), chip);
    }
}

/// Initializing the panel writes to one controller at a time and leaves
/// both released.
pub proof fn lemma_init_discipline(config: PanelConfig)
    ensures
        exclusive(init_wire(config)),
        forall|start: Lines| #[trigger] lines_after(start, init_wire(config)) == released(),
{
    lemma_commands_transfer(
        init_commands(config.one.display_offset, config.one.segment_remap, config.one.com_reverse),
    );
    lemma_commands_transfer(
        init_commands(config.two.display_offset, config.two.segment_remap, config.two.com_reverse),
    );
    lemma_two_blocks(chip_init_wire(config.one), chip_init_wire(config.two));
}

/// Setting a window writes to one controller at a time and leaves both
/// released.
pub proof fn lemma_area_discipline(frame: Frame)
    ensures
        exclusive(area_wire(frame)),
        forall|start: Lines| #[trigger] lines_after(start, area_wire(frame)) == released(),
{
    if frame.crossing() {
        let (one, two) = frame.spec_split_to_two();
        lemma_commands_transfer(area_commands(one.local().0, one.local().1));
        lemma_commands_transfer(area_commands(two.local().0, two.local().1));
        lemma_two_blocks(
            commands_wire(area_commands(one.local().0, one.local().1)),
            commands_wire(area_commands(two.local().0, two.local().1)),
        );
    } else {
        lemma_commands_transfer(area_commands(frame.local().0, frame.local().1));
        lemma_one_block(
            frame.owner(),
            commands_wire(area_commands(frame.local().0, frame.local().1)),
        );
    }
}

/// Runs on the bus keep the discipline, and each byte of a run is written
/// while the controller of the run is selected alone.
proof fn lemma_runs_discipline(runs: Seq<Run>)
    ensures
        exclusive(runs_wire(runs)),
        forall|start: Lines| #[trigger]
            written(start, runs_wire(runs)) == addressed(delivered(runs)),
    decreases runs.len(),
{
    if runs.len() == 0 {
        assert forall|start: Lines| #[trigger]
            written(start, runs_wire(runs)) == addressed(delivered(runs)) by {
            assert(addressed(delivered(runs)) =~= Seq::<(Lines, u8)>::empty());
        }
    } else {
        let run = runs[0];
        let data = seq![Wire::Data(run.bytes)];
        let head = select_wire(run.chip) + data;
        let tail = runs_wire(runs.skip(1));
        lemma_runs_discipline(runs.skip(1));
        lemma_exclusive_block(run.chip, data);
        assert(run_wire(run) =~= head);
        lemma_exclusive_add(head, tail);
        assert forall|start: Lines| #[trigger]
            written(start, runs_wire(runs)) == addressed(delivered(runs)) by {
            lemma_written_add(start, head, tail);
            lemma_written_add(start, select_wire(run.chip), data);
            lemma_written_pins(start, select_wire(run.chip));
            lemma_lines_after_select(start, run.chip);
            assert(written(only(run.chip), data.drop_last()) =~= Seq::<(Lines, u8)>::empty());
        }
    }
}

/// Streaming a buffer writes to one controller at a time and leaves both
/// released. Every byte of the buffer is written once, in order, while
/// the controller that the cursor gives it is selected alone.
pub proof fn lemma_draw_discipline(frame: Frame, pos: int, bytes: Seq<u8>)
    requires
        0 <= pos,
    ensures
        exclusive(draw_wire(frame, pos, bytes)),
        forall|start: Lines| #[trigger]
            lines_after(start, draw_wire(frame, pos, bytes)) == released(),
        forall|start: Lines| #[trigger]
            written(start, draw_wire(frame, pos, bytes)) == addressed(route(frame, pos, bytes)),
{
    let stream = runs_wire(runs(frame, pos, bytes));
    lemma_runs_discipline(runs(frame, pos, bytes));
    lemma_runs_route(frame, pos, bytes);
    lemma_exclusive_release();
    lemma_exclusive_add(stream, release_wire());
    assert forall|start: Lines| #[trigger]
        lines_after(start, draw_wire(frame, pos, bytes)) == released() by {
        lemma_lines_after_add(start, stream, release_wire());
        lemma_lines_after_select(lines_after(start, stream), Chip::One);
    }
    assert forall|start: Lines| #[trigger]
        written(start, draw_wire(frame, pos, bytes)) == addressed(route(frame, pos, bytes)) by {
        lemma_written_add(start, stream, release_wire());
        lemma_written_pins(lines_after(start, stream), release_wire());
    }
}

/// What a sequence of calls puts on the bus, one call for each chunk, the
/// cursor carried from call to call.
pub open spec fn draw_wire_in_chunks(frame: Frame, pos: int, chunks: Seq<Seq<u8>>) -> Seq<Wire>
    decreases chunks.len(),
{
    if chunks.len() == 0 {
        Seq::empty()
    } else {
        draw_wire(frame, pos, chunks[0]) + draw_wire_in_chunks(
            frame,
            end_position(frame, pos, chunks[0].len() as int),
            chunks.skip(1),
        )
    }
}

/// However a buffer is cut into calls, the same bytes are written in the
/// same order, each while the same controller is selected alone, as when
/// the buffer is streamed in one call.
pub proof fn lemma_chunked_writes(frame: Frame, pos: int, chunks: Seq<Seq<u8>>)
    requires
        0 <= pos,
    ensures
        forall|start: Lines| #[trigger]
            written(start, draw_wire_in_chunks(frame, pos, chunks)) == addressed(
                route(frame, pos, joined(chunks)),
            ),
        forall|start: Lines| #[trigger]
            written(start, draw_wire_in_chunks(frame, pos, chunks)) == written(
                start,
                draw_wire(frame, pos, joined(chunks)),
            ),
    decreases chunks.len(),
{
    lemma_draw_discipline(frame, pos, joined(chunks));
    if chunks.len() == 0 {
        assert forall|start: Lines| #[trigger]
            written(start, draw_wire_in_chunks(frame, pos, chunks)) == addressed(
                route(frame, pos, joined(chunks)),
            ) by {
            assert(addressed(route(frame, pos, joined(chunks))) =~= Seq::<(Lines, u8)>::empty());
        }
    } else {
        let first = chunks[0];
        let others = joined(chunks.skip(1));
        let next = end_position(frame, pos, first.len() as int);
        let head = draw_wire(frame, pos, first);
        let tail = draw_wire_in_chunks(frame, next, chunks.skip(1));
        lemma_split_in_two(frame, pos, first, others);
        lemma_runs_route(frame, pos, first);
        lemma_runs_route(frame, next, others);
        lemma_runs_route(frame, pos, first + others);
        lemma_draw_discipline(frame, pos, first);
        lemma_chunked_writes(frame, next, chunks.skip(1));
        assert forall|start: Lines| #[trigger]
            written(start, draw_wire_in_chunks(frame, pos, chunks)) == addressed(
                route(frame, pos, joined(chunks)),
            ) by {
            lemma_written_add(start, head, tail);
        }
    }
}

/// Of runs on the bus that are cut short before the operation with index
/// `fault`, the bytes that were written are the first bytes of the runs,
/// as many as the data writes before that operation carry.
proof fn lemma_runs_cut(runs: Seq<Run>, fault: int)
    requires
        0 <= fault <= runs_wire(runs).len(),
    ensures
        0 <= data_bytes(runs_wire(runs), 0, fault) <= delivered(runs).len(),
        fault == runs_wire(runs).len() ==> data_bytes(runs_wire(runs), 0, fault) == delivered(
            runs,
        ).len(),
        forall|start: Lines| #[trigger]
            written(start, runs_wire(runs).take(fault)) == addressed(delivered(runs)).take(
                data_bytes(runs_wire(runs), 0, fault),
            ),
    decreases runs.len(),
{
    let wire = runs_wire(runs);
    if runs.len() == 0 {
        assert(wire.take(fault) =~= Seq::<Wire>::empty());
        assert forall|start: Lines| #[trigger]
            written(start, wire.take(fault)) == addressed(delivered(runs)).take(
                data_bytes(wire, 0, fault),
            ) by {
            assert(addressed(delivered(runs)).take(0) =~= Seq::<(Lines, u8)>::empty());
        }
    } else {
        let run = runs[0];
        let data = seq![Wire::Data(run.bytes)];
        let head = select_wire(run.chip) + data;
        let tail = runs_wire(runs.skip(1));
        let first = Seq::new(run.bytes.len(), |k: int| (run.chip, run.bytes[k]));
        assert(run_wire(run) =~= head);
        assert(wire == head + tail);
        assert(delivered(runs) == first + delivered(runs.skip(1)));
        assert(data_bytes(head, 0, 0) == 0);
        assert(data_bytes(head, 0, 1) == 0);
        assert(data_bytes(head, 0, 2) == 0);
        assert(data_bytes(head, 0, 3) == run.bytes.len());
        if fault <= 2 {
            lemma_data_bytes_front(head, tail, fault);
            assert(wire.take(fault) =~= select_wire(run.chip).take(fault));
            assert forall|start: Lines| #[trigger]
                written(start, wire.take(fault)) == addressed(delivered(runs)).take(
                    data_bytes(wire, 0, fault),
                ) by {
                lemma_written_pins(start, select_wire(run.chip).take(fault));
                assert(addressed(delivered(runs)).take(0) =~= Seq::<(Lines, u8)>::empty());
            }
        } else {
            let rest = fault - 3;
            let more = data_bytes(tail, 0, rest);
            lemma_runs_cut(runs.skip(1), rest);
            lemma_data_bytes_add(head, tail, rest);
            assert(wire.take(fault) =~= head + tail.take(rest));
            assert forall|start: Lines| #[trigger]
                written(start, wire.take(fault)) == addressed(delivered(runs)).take(
                    data_bytes(wire, 0, fault),
                ) by {
                lemma_written_add(start, head, tail.take(rest));
                lemma_written_add(start, select_wire(run.chip), data);
                lemma_written_pins(start, select_wire(run.chip));
                lemma_lines_after_select(start, run.chip);
                lemma_lines_after_add(start, select_wire(run.chip), data);
                assert(data.drop_last() =~= Seq::<Wire>::empty());
                assert(written(only(run.chip), data.drop_last()) =~= Seq::<(Lines, u8)>::empty());
                assert(written(only(run.chip), data) =~= addressed(first));
                assert(lines_after(only(run.chip), data) == only(run.chip));
                assert(written(lines_after(start, head), tail.take(rest)) == addressed(
                    delivered(runs.skip(1)),
                ).take(more));
                assert(addressed(first + delivered(runs.skip(1))).take(run.bytes.len() + more)
                    =~= addressed(first) + addressed(delivered(runs.skip(1))).take(more));
            }
        }
    }
}

/// A draw is cut short by a fault in the operation with index `fault` of
/// its queue. The bytes that were written by then are the first bytes of
/// the buffer, as many as the data writes before that operation carry,
/// each written while the controller that the cursor gives it was
/// selected alone. From the cursor after those bytes, the rest of the
/// buffer goes where one draw of the whole buffer would have sent it.
pub proof fn lemma_fault_in_draw(frame: Frame, pos: int, bytes: Seq<u8>, fault: int)
    requires
        0 <= pos,
        0 <= fault <= draw_wire(frame, pos, bytes).len(),
    ensures
        ({
            let queue = draw_wire(frame, pos, bytes);
            let count = data_bytes(queue, 0, fault);
            &&& 0 <= count <= bytes.len()
            &&& fault >= queue.len() - 2 ==> count == bytes.len()
            &&& forall|start: Lines| #[trigger]
                written(start, queue.take(fault)) == addressed(
                    route(frame, pos, bytes.take(count)),
                )
            &&& 0 <= end_position(frame, pos, count)
            &&& route(frame, pos, bytes) == route(frame, pos, bytes.take(count)) + route(
                frame,
                end_position(frame, pos, count),
                bytes.skip(count),
            )
        }),
{
    let stream = runs_wire(runs(frame, pos, bytes));
    let queue = draw_wire(frame, pos, bytes);
    let cut = if fault <= stream.len() {
        fault
    } else {
        stream.len() as int
    };
    let count = data_bytes(queue, 0, fault);
    lemma_runs_route(frame, pos, bytes);
    lemma_runs_cut(runs(frame, pos, bytes), cut);
    if fault <= stream.len() {
        lemma_data_bytes_front(stream, release_wire(), fault);
        assert(queue.take(fault) =~= stream.take(fault));
    } else {
        lemma_data_bytes_add(stream, release_wire(), fault - stream.len());
        assert(data_bytes(release_wire(), 0, 0) == 0);
        assert(data_bytes(release_wire(), 0, 1) == 0);
        assert(data_bytes(release_wire(), 0, 2) == 0);
        assert(stream.take(cut) =~= stream);
        assert(queue.take(fault) =~= stream + release_wire().take(fault - stream.len()));
        assert forall|start: Lines| #[trigger]
            written(start, queue.take(fault)) == written(start, stream) by {
            lemma_written_add(start, stream, release_wire().take(fault - stream.len()));
            lemma_written_pins(
                lines_after(start, stream),
                release_wire().take(fault - stream.len()),
            );
        }
    }
    assert(count == data_bytes(stream, 0, cut));
    assert(addressed(route(frame, pos, bytes)).take(count) =~= addressed(
        route(frame, pos, bytes.take(count)),
    ));
    let front = bytes.take(count);
    let rest = bytes.skip(count);
    assert(front + rest =~= bytes);
    lemma_split_in_two(frame, pos, front, rest);
    lemma_runs_route(frame, pos, front);
    lemma_runs_route(frame, end_position(frame, pos, count), rest);
}

/// A window inside one half is set, and every buffer is streamed into it,
/// with the controller of that half selected and the other one not. Both
/// are released afterwards, and the cursor stays where it was.
pub proof fn lemma_one_chip(frame: Frame, pos: int, bytes: Seq<u8>)
    requires
        !frame.crossing(),
    ensures
        addressed_to(area_wire(frame), frame.owner()),
        addressed_to(draw_wire(frame, pos, bytes), frame.owner()),
        forall|start: Lines| #[trigger] lines_after(start, area_wire(frame)) == released(),
        forall|start: Lines| #[trigger]
            lines_after(start, draw_wire(frame, pos, bytes)) == released(),
        end_position(frame, pos, bytes.len() as int) == pos,
{
    let chip = frame.owner();
    let area = commands_wire(area_commands(frame.local().0, frame.local().1));
    lemma_commands_transfer(area_commands(frame.local().0, frame.local().1));
    lemma_addressed_block(chip, area, release_wire());
    lemma_lines_after_select(only(chip), chip);

    let run = Run { chip, bytes };
    let data = seq![Wire::Data(bytes)];
    assert(seq![run].skip(1) =~= Seq::<Run>::empty());
    assert(runs_wire(Seq::<Run>::empty()) =~= Seq::<Wire>::empty());
    assert(draw_wire(frame, pos, bytes) =~= select_wire(chip) + data + release_wire());
    lemma_addressed_block(chip, data, release_wire());
    lemma_fixed_position(frame, pos, bytes.len());
}

} // verus!
