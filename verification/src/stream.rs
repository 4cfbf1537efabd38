//! How a flat stream of packed pixel bytes is shared out between the two
//! controllers.
//!
//! Each byte holds two pixels and goes to one controller whole. For a window
//! that crosses from the first controller into the second, a row of the
//! stream is `x_size / 2` bytes: the first `x_limit / 2` of them belong to
//! the first controller, the rest to the second. The cursor counts pixel
//! columns within the row: a byte moves it on by two, and it wraps at
//! `x_size`.
//!
//! A window with an odd number of columns has no whole byte for its last
//! column. There the cursor stops one column short of `x_size` when the
//! bytes of the row are used up, and the next byte starts the next row, on
//! the first controller again. Only for an even number of columns is the
//! cursor back at 0 after every row.
//!
//! A window inside one half needs no cursor: every byte goes to the
//! controller of that half, and the cursor stays where it is.

use crate::bus::release_wire;
use crate::bus::select_wire;
use crate::bus::Chip;
use crate::bus::Wire;
use crate::Frame;
use vstd::prelude::*;

verus! {

/// The cursor from which the next byte is counted: `pos` itself, or 0 once
/// the whole bytes of the row are used up.
pub open spec fn row_start(frame: Frame, pos: int) -> int {
    if pos / 2 >= frame.x_size() / 2 {
        0
    } else {
        pos
    }
}

/// The controller that takes the next byte.
pub open spec fn chip_at(frame: Frame, pos: int) -> Chip {
    if !frame.crossing() {
        frame.owner()
    } else if row_start(frame, pos) / 2 < frame.x_limit() / 2 {
        Chip::One
    } else {
        Chip::Two
    }
}

/// For a crossing window, the number of bytes that the controller taking
/// the next byte can still take in this row.
pub open spec fn budget(frame: Frame, pos: int) -> int {
    let at = row_start(frame, pos);
    if at / 2 < frame.x_limit() / 2 {
        frame.x_limit() / 2 - at / 2
    } else {
        frame.x_size() / 2 - at / 2
    }
}

/// The number of bytes of the next run, with `left` bytes still to send.
pub open spec fn run_len(frame: Frame, pos: int, left: int) -> int {
    if !frame.crossing() || left <= budget(frame, pos) {
        left
    } else {
        budget(frame, pos)
    }
}

/// The cursor after a run of `n` bytes. Only a crossing window moves it.
pub open spec fn advance(frame: Frame, pos: int, n: int) -> int {
    if frame.crossing() {
        (row_start(frame, pos) + 2 * n) % frame.x_size()
    } else {
        pos
    }
}

/// A stretch of the stream that one controller takes in one write.
pub struct Run {
    pub chip: Chip,
    pub bytes: Seq<u8>,
}

/// The runs into which one call splits `bytes`. A window inside one half
/// gives one run with the whole buffer, even if it is empty.
pub open spec fn runs(frame: Frame, pos: int, bytes: Seq<u8>) -> Seq<Run>
    decreases bytes.len(),
{
    if !frame.crossing() {
        seq![Run { chip: frame.owner(), bytes }]
    } else if bytes.len() == 0 {
        Seq::empty()
    } else {
        let n = run_len(frame, pos, bytes.len() as int);
        seq![Run { chip: chip_at(frame, pos), bytes: bytes.take(n) }] + runs(
            frame,
            advance(frame, pos, n),
            bytes.skip(n),
        )
    }
}

/// The cursor after one call has streamed `len` bytes.
pub open spec fn end_position(frame: Frame, pos: int, len: int) -> int
    decreases len,
{
    if !frame.crossing() || len <= 0 {
        pos
    } else {
        let n = run_len(frame, pos, len);
        end_position(frame, advance(frame, pos, n), len - n)
    }
}

/// One run on the bus: its controller is selected, then the bytes are
/// written.
pub open spec fn run_wire(run: Run) -> Seq<Wire> {
    select_wire(run.chip).push(Wire::Data(run.bytes))
}

/// The runs on the bus, one after the other.
pub open spec fn runs_wire(runs: Seq<Run>) -> Seq<Wire>
    decreases runs.len(),
{
    if runs.len() == 0 {
        Seq::empty()
    } else {
        run_wire(runs[0]) + runs_wire(runs.skip(1))
    }
}

/// What one call that streams `bytes` puts on the bus: its runs, then the
/// release of both controllers.
pub open spec fn draw_wire(frame: Frame, pos: int, bytes: Seq<u8>) -> Seq<Wire> {
    runs_wire(runs(frame, pos, bytes)) + release_wire()
}

/// A crossing window is at least two pixel columns wide, and the first
/// controller's share of a row is less than the row.
pub proof fn lemma_crossing_sizes(frame: Frame)
    requires
        frame.crossing(),
    ensures
        2 <= frame.x_size() <= 65536,
        1 <= frame.x_limit() <= 160,
        frame.x_limit() < frame.x_size(),
        frame.x_limit() / 2 <= frame.x_size() / 2,
        1 <= frame.x_size() / 2,
{
}

/// With a crossing window the next run always has room for a byte, and it
/// ends within the row.
pub proof fn lemma_budget(frame: Frame, pos: int)
    requires
        frame.crossing(),
        0 <= pos,
    ensures
        1 <= budget(frame, pos),
        0 <= row_start(frame, pos),
        row_start(frame, pos) / 2 + budget(frame, pos) <= frame.x_size() / 2,
        row_start(frame, pos) + 2 * budget(frame, pos) <= frame.x_size() + 1,
{
    lemma_crossing_sizes(frame);
}

/// The cursor after `count` bytes, taken one at a time.
pub open spec fn position_after(frame: Frame, pos: int, count: nat) -> int
    decreases count,
{
    if count == 0 {
        pos
    } else {
        position_after(frame, advance(frame, pos, 1), (count - 1) as nat)
    }
}

/// Each byte of a stream with the controller that takes it, decided byte by
/// byte from the cursor.
pub open spec fn route(frame: Frame, pos: int, bytes: Seq<u8>) -> Seq<(Chip, u8)> {
    Seq::new(
        bytes.len(),
        |k: int| (chip_at(frame, position_after(frame, pos, k as nat)), bytes[k]),
    )
}

/// The bytes of the runs in the order in which they are written, each with
/// the controller of its run.
pub open spec fn delivered(runs: Seq<Run>) -> Seq<(Chip, u8)>
    decreases runs.len(),
{
    if runs.len() == 0 {
        Seq::empty()
    } else {
        Seq::new(runs[0].bytes.len(), |k: int| (runs[0].chip, runs[0].bytes[k])) + delivered(
            runs.skip(1),
        )
    }
}

/// What a sequence of calls delivers, one call for each chunk, the cursor
/// carried from call to call.
pub open spec fn delivered_in_chunks(frame: Frame, pos: int, chunks: Seq<Seq<u8>>) -> Seq<
    (Chip, u8),
>
    decreases chunks.len(),
{
    if chunks.len() == 0 {
        Seq::empty()
    } else {
        delivered(runs(frame, pos, chunks[0])) + delivered_in_chunks(
            frame,
            end_position(frame, pos, chunks[0].len() as int),
            chunks.skip(1),
        )
    }
}

/// The cursor after a sequence of calls, one call for each chunk.
pub open spec fn position_after_chunks(frame: Frame, pos: int, chunks: Seq<Seq<u8>>) -> int
    decreases chunks.len(),
{
    if chunks.len() == 0 {
        pos
    } else {
        position_after_chunks(
            frame,
            end_position(frame, pos, chunks[0].len() as int),
            chunks.skip(1),
        )
    }
}

/// The chunks laid end to end.
pub open spec fn joined(chunks: Seq<Seq<u8>>) -> Seq<u8>
    decreases chunks.len(),
{
    if chunks.len() == 0 {
        Seq::empty()
    } else {
        chunks[0] + joined(chunks.skip(1))
    }
}

/// The cursor never becomes negative.
pub proof fn lemma_advance_bounds(frame: Frame, pos: int, n: int)
    requires
        0 <= pos,
        0 <= n,
    ensures
        0 <= advance(frame, pos, n),
        frame.crossing() ==> advance(frame, pos, n) < frame.x_size(),
{
    if frame.crossing() {
        lemma_crossing_sizes(frame);
    }
}

/// Taking `a + b` bytes one at a time is taking `a`, then `b`.
pub proof fn lemma_position_after_add(frame: Frame, pos: int, a: nat, b: nat)
    ensures
        position_after(frame, pos, a + b) == position_after(
            frame,
            position_after(frame, pos, a),
            b,
        ),
    decreases a,
{
    if a > 0 {
        lemma_position_after_add(frame, advance(frame, pos, 1), (a - 1) as nat, b);
    }
}

/// Bytes taken one at a time leave the cursor nonnegative.
pub proof fn lemma_position_after_bounds(frame: Frame, pos: int, count: nat)
    requires
        0 <= pos,
    ensures
        0 <= position_after(frame, pos, count),
    decreases count,
{
    if count > 0 {
        lemma_advance_bounds(frame, pos, 1);
        lemma_position_after_bounds(frame, advance(frame, pos, 1), (count - 1) as nat);
    }
}

/// A run is its bytes taken one at a time: every byte of it goes to the
/// controller chosen at the start of the run, and the cursor ends where the
/// byte-by-byte count ends.
pub proof fn lemma_run_bytewise(frame: Frame, pos: int, n: int)
    requires
        frame.crossing(),
        0 <= pos,
        1 <= n <= budget(frame, pos),
    ensures
        position_after(frame, pos, n as nat) == advance(frame, pos, n),
        forall|j: int|
            0 <= j < n ==> chip_at(frame, #[trigger] position_after(frame, pos, j as nat))
                == chip_at(frame, pos),
    decreases n,
{
    lemma_crossing_sizes(frame);
    lemma_budget(frame, pos);
    let size = frame.x_size();
    let at = row_start(frame, pos);
    if n == 1 {
        assert(position_after(frame, pos, 1) == position_after(frame, advance(frame, pos, 1), 0));
    } else {
        let next = advance(frame, pos, 1);
        assert(next == at + 2) by {
            vstd::arithmetic::div_mod::lemma_small_mod((at + 2) as nat, size as nat);
        }
        assert(row_start(frame, next) == next);
        lemma_run_bytewise(frame, next, n - 1);
        assert forall|j: int| 0 <= j < n implies chip_at(
            frame,
            #[trigger] position_after(frame, pos, j as nat),
        ) == chip_at(frame, pos) by {
            if j > 0 {
                assert(position_after(frame, pos, j as nat) == position_after(
                    frame,
                    next,
                    (j - 1) as nat,
                ));
            }
        }
    }
}

/// Splitting a buffer into the runs of one call sends every byte where
/// the byte-by-byte rule sends it, and leaves the cursor where the
/// byte-by-byte count leaves it.
pub proof fn lemma_runs_route(frame: Frame, pos: int, bytes: Seq<u8>)
    requires
        0 <= pos,
    ensures
        delivered(runs(frame, pos, bytes)) == route(frame, pos, bytes),
        end_position(frame, pos, bytes.len() as int) == position_after(frame, pos, bytes.len()),
    decreases bytes.len(),
{
    if !frame.crossing() {
        lemma_fixed_position(frame, pos, bytes.len());
        let run = Run { chip: frame.owner(), bytes };
        assert(seq![run].skip(1) =~= Seq::<Run>::empty());
        assert(delivered(Seq::<Run>::empty()) =~= Seq::<(Chip, u8)>::empty());
        assert forall|k: int| 0 <= k < bytes.len() implies (#[trigger] route(
            frame,
            pos,
            bytes,
        )[k]) == (frame.owner(), bytes[k]) by {
            lemma_fixed_position(frame, pos, k as nat);
        }
    } else if bytes.len() == 0 {
        assert(delivered(runs(frame, pos, bytes)) =~= route(frame, pos, bytes));
    } else {
        lemma_budget(frame, pos);
        let n = run_len(frame, pos, bytes.len() as int);
        let next = advance(frame, pos, n);
        let run = Run { chip: chip_at(frame, pos), bytes: bytes.take(n) };
        let tail = runs(frame, next, bytes.skip(n));
        lemma_advance_bounds(frame, pos, n);
        lemma_run_bytewise(frame, pos, n);
        lemma_runs_route(frame, next, bytes.skip(n));
        lemma_position_after_add(frame, pos, n as nat, (bytes.len() - n) as nat);
        assert((seq![run] + tail).skip(1) =~= tail);
        assert forall|k: int| 0 <= k < bytes.len() implies (#[trigger] delivered(
            seq![run] + tail,
        )[k]) == route(frame, pos, bytes)[k] by {
            if k >= n {
                lemma_position_after_add(frame, pos, n as nat, (k - n) as nat);
            }
        }
    }
}

/// A window inside one half never moves the cursor.
pub proof fn lemma_fixed_position(frame: Frame, pos: int, count: nat)
    requires
        !frame.crossing(),
    ensures
        position_after(frame, pos, count) == pos,
        end_position(frame, pos, count as int) == pos,
    decreases count,
{
    if count > 0 {
        lemma_fixed_position(frame, pos, (count - 1) as nat);
    }
}

/// One call with a buffer delivers what two calls deliver, the first with
/// the front of the buffer and the second with the rest, and leaves the
/// cursor where they leave it.
pub proof fn lemma_split_in_two(frame: Frame, pos: int, front: Seq<u8>, rest: Seq<u8>)
    requires
        0 <= pos,
    ensures
        delivered(runs(frame, pos, front + rest)) == delivered(runs(frame, pos, front))
            + delivered(runs(frame, end_position(frame, pos, front.len() as int), rest)),
        end_position(frame, pos, (front + rest).len() as int) == end_position(
            frame,
            end_position(frame, pos, front.len() as int),
            rest.len() as int,
        ),
        0 <= end_position(frame, pos, front.len() as int),
{
    let whole = front + rest;
    let middle = position_after(frame, pos, front.len());
    lemma_position_after_bounds(frame, pos, front.len());
    lemma_runs_route(frame, pos, whole);
    lemma_runs_route(frame, pos, front);
    lemma_runs_route(frame, middle, rest);
    lemma_position_after_add(frame, pos, front.len(), rest.len());
    assert forall|k: int| 0 <= k < whole.len() implies (#[trigger] route(frame, pos, whole)[k]) == (
        route(frame, pos, front) + route(frame, middle, rest)
    )[k] by {
        if k >= front.len() {
            lemma_position_after_add(frame, pos, front.len(), (k - front.len()) as nat);
        }
    }
}

/// Streaming is indifferent to how the bytes are cut into calls: one call
/// for each chunk delivers every byte to the controller to which a single
/// call with all the bytes delivers it, in the same order, and leaves the
/// same cursor.
pub proof fn lemma_chunking(frame: Frame, pos: int, chunks: Seq<Seq<u8>>)
    requires
        0 <= pos,
    ensures
        delivered_in_chunks(frame, pos, chunks) == delivered(runs(frame, pos, joined(chunks))),
        position_after_chunks(frame, pos, chunks) == end_position(
            frame,
            pos,
            joined(chunks).len() as int,
        ),
    decreases chunks.len(),
{
    if chunks.len() == 0 {
        lemma_runs_route(frame, pos, Seq::<u8>::empty());
    } else {
        let first = chunks[0];
        let others = joined(chunks.skip(1));
        lemma_split_in_two(frame, pos, first, others);
        lemma_chunking(frame, end_position(frame, pos, first.len() as int), chunks.skip(1));
    }
}

/// After the bytes of one whole row of a crossing window with an even
/// number of columns, streamed from the start of a row, the cursor is
/// back at 0.
pub proof fn lemma_row_wrap(frame: Frame)
    requires
        frame.crossing(),
        frame.x_size() % 2 == 0,
    ensures
        end_position(frame, 0, frame.x_size() / 2) == 0,
{
    lemma_crossing_sizes(frame);
    let size = frame.x_size();
    let row = size / 2;
    let first = frame.x_limit() / 2;
    if first == 0 {
        assert(advance(frame, 0, row) == 0) by {
            vstd::arithmetic::div_mod::lemma_mod_self_0(size);
        }
        assert(end_position(frame, 0, 0) == 0);
    } else {
        let middle = 2 * first;
        assert(advance(frame, 0, first) == middle) by {
            vstd::arithmetic::div_mod::lemma_small_mod(middle as nat, size as nat);
        }
        assert(row_start(frame, middle) == middle);
        assert(advance(frame, middle, row - first) == 0) by {
            vstd::arithmetic::div_mod::lemma_mod_self_0(size);
        }
        assert(end_position(frame, 0, 0) == 0);
        assert(end_position(frame, middle, row - first) == 0);
    }
}

/// After the bytes of any number of whole rows of a crossing window with
/// an even number of columns, streamed from the start of a row, the cursor
/// is back at 0.
pub proof fn lemma_rows_wrap(frame: Frame, len: nat)
    requires
        frame.crossing(),
        frame.x_size() % 2 == 0,
        len % ((frame.x_size() / 2) as nat) == 0,
    ensures
        end_position(frame, 0, len as int) == 0,
    decreases len,
{
    lemma_crossing_sizes(frame);
    let row = (frame.x_size() / 2) as nat;
    if len > 0 {
        assert(len >= row && (len - row) % (row as int) == 0) by {
            vstd::arithmetic::div_mod::lemma_fundamental_div_mod(len as int, row as int);
            let rows = len as int / (row as int);
            assert(rows >= 1) by (nonlinear_arith)
                requires
                    len == row * rows,
                    len > 0,
                    row > 0,
            ;
            assert(len - row == row * (rows - 1)) by (nonlinear_arith)
                requires
                    len == row * rows,
            ;
            assert(len >= row) by (nonlinear_arith)
                requires
                    len - row == row * (rows - 1),
                    rows >= 1,
                    row > 0,
            ;
            vstd::arithmetic::div_mod::lemma_mod_multiples_basic(rows - 1, row as int);
            assert(row * (rows - 1) == (rows - 1) * row) by (nonlinear_arith);
        }
        let front = Seq::new(row, |k: int| 0u8);
        let rest = Seq::new((len - row) as nat, |k: int| 0u8);
        lemma_row_wrap(frame);
        lemma_rows_wrap(frame, (len - row) as nat);
        lemma_split_in_two(frame, 0, front, rest);
    }
}

/// A crossing window that starts on an even column and ends on an odd one
/// has a whole number of bytes on each controller in every row. There the
/// cursor, where it is even and within the row, simply counts: after
/// `count` bytes it stands at `(pos + 2 * count) % x_size`, whether the
/// bytes come in one call or one at a time, and the byte that follows goes
/// to the first controller exactly when it falls in the first
/// `x_limit / 2` bytes of its row.
pub proof fn lemma_even_window(frame: Frame, pos: int, count: nat)
    requires
        frame.crossing(),
        frame.start.0 % 2 == 0,
        frame.end.0 % 2 == 1,
        0 <= pos < frame.x_size(),
        pos % 2 == 0,
    ensures
        position_after(frame, pos, count) == (pos + 2 * count) % frame.x_size(),
        end_position(frame, pos, count as int) == (pos + 2 * count) % frame.x_size(),
        chip_at(frame, position_after(frame, pos, count)) == Chip::One <==> (pos / 2 + count) % (
        frame.x_size() / 2) < frame.x_limit() / 2,
    decreases count,
{
    lemma_crossing_sizes(frame);
    let size = frame.x_size();
    let half = size / 2;
    assert(size == 2 * half);
    lemma_runs_route(frame, pos, Seq::new(count, |k: int| 0u8));
    if count == 0 {
        vstd::arithmetic::div_mod::lemma_small_mod(pos as nat, size as nat);
    } else {
        let next = advance(frame, pos, 1);
        assert(row_start(frame, pos) == pos);
        if pos + 2 < size {
            vstd::arithmetic::div_mod::lemma_small_mod((pos + 2) as nat, size as nat);
            assert(next == pos + 2);
        } else {
            assert(pos + 2 == size);
            vstd::arithmetic::div_mod::lemma_mod_self_0(size);
            assert(next == 0);
            vstd::arithmetic::div_mod::lemma_mod_add_multiples_vanish(2 * (count - 1), size);
        }
        lemma_even_window(frame, next, (count - 1) as nat);
        assert(position_after(frame, pos, count) == (pos + 2 * count) % size);
    }
    let here = position_after(frame, pos, count);
    let index = pos / 2 + count;
    assert(pos + 2 * count == 2 * index);
    vstd::arithmetic::div_mod::lemma_truncate_middle(index, 2, half);
    assert(here == 2 * (index % half));
    vstd::arithmetic::div_mod::lemma_mod_bound(index, half);
    assert(row_start(frame, here) == here);
}

} // verus!
