use ssd1320::buffered_graphics::BufferedSsd1320z2;
use ssd1320::bus::{Bus, BusOp, Level, Line};
use ssd1320::transaction::{streamed, Step, Transaction};
use ssd1320::{Frame, Ssd1320z2};

/// Performs the queue with the operation `failing` failing. Gives the
/// bytes that the data writes carried through, with 1 or 2 for the
/// controller selected, and the index of the first fault.
fn perform(ops: &[BusOp], failing: Option<usize>) -> (Vec<(u8, u8)>, Result<(), usize>, usize) {
    let mut transaction: Transaction<usize> = Transaction::new(ops);
    let mut cs1 = Level::High;
    let mut cs2 = Level::High;
    let mut carried = Vec::new();
    let mut step = transaction.start();
    loop {
        match step {
            Step::Perform(index) => {
                if Some(index) == failing {
                    step = transaction.failed(index);
                    continue;
                }
                match &ops[index] {
                    BusOp::Pin(Line::Cs1, level) => cs1 = *level,
                    BusOp::Pin(Line::Cs2, level) => cs2 = *level,
                    BusOp::Data(bytes) => {
                        let chip = if cs1 == Level::Low { 1 } else { 2 };
                        assert!(cs1 != cs2);
                        for byte in bytes {
                            carried.push((chip, *byte));
                        }
                    }
                    _ => {}
                }
                step = transaction.done();
            }
            Step::Finish(result) => {
                assert_eq!((cs1, cs2), (Level::High, Level::High));
                return (carried, result, transaction.first_fault_index());
            }
        }
    }
}

/// One draw on the bus with a fault, then the cursor settled as the owner
/// of the hardware settles it.
fn draw_with_fault(
    display: &mut Ssd1320z2,
    buffer: &[u8],
    failing: Option<usize>,
) -> (Vec<(u8, u8)>, usize) {
    display.draw(buffer);
    let from = display.stream_start();
    let ops = display.take();
    let (carried, result, at) = perform(&ops, failing);
    let written = streamed(&ops, from, at);
    match failing {
        Some(index) => {
            assert_eq!(result, Err(index));
            assert_eq!(at, index);
            display.settle(written);
        }
        None => {
            assert_eq!(result, Ok(()));
            assert_eq!(at, ops.len());
            assert_eq!(written, buffer.len());
        }
    }
    assert_eq!(carried.len(), written);
    (carried, written)
}

fn panel(start: (u16, u16), end: (u16, u16)) -> Ssd1320z2 {
    let mut display = Ssd1320z2::new(Bus::new());
    display.set_draw_area(start, end);
    display.take();
    display
}

#[test]
fn a_fault_in_the_first_run_leaves_the_cursor_where_it_was() {
    let mut display = panel((150, 0), (169, 1));
    let buffer = [1, 2, 3, 4, 5, 6, 7];
    // The first data write is the third operation.
    let (carried, written) = draw_with_fault(&mut display, &buffer, Some(2));
    assert_eq!(carried, vec![]);
    assert_eq!(written, 0);
    assert_eq!(display.cursor(), 0);
    assert_eq!(display.window(), Frame { start: (150, 0), end: (169, 1) });
    // The same bytes again go where they belong.
    let (carried, _) = draw_with_fault(&mut display, &buffer, None);
    assert_eq!(
        carried,
        vec![(1, 1), (1, 2), (1, 3), (1, 4), (1, 5), (2, 6), (2, 7)]
    );
    assert_eq!(display.cursor(), 14);
}

#[test]
fn a_fault_in_a_later_run_leaves_the_cursor_after_what_was_written() {
    let mut display = panel((150, 0), (169, 1));
    let buffer = [1, 2, 3, 4, 5, 6, 7];
    // The second data write is the sixth operation.
    let (carried, written) = draw_with_fault(&mut display, &buffer, Some(5));
    assert_eq!(carried, vec![(1, 1), (1, 2), (1, 3), (1, 4), (1, 5)]);
    assert_eq!(written, 5);
    assert_eq!(display.cursor(), 10);
    // The rest of the buffer goes on from there.
    let (carried, _) = draw_with_fault(&mut display, &buffer[written..], None);
    assert_eq!(carried, vec![(2, 6), (2, 7)]);
    assert_eq!(display.cursor(), 14);
}

#[test]
fn a_fault_while_selecting_counts_the_runs_before_it() {
    let mut display = panel((150, 0), (169, 1));
    let buffer = [1, 2, 3, 4, 5, 6, 7];
    let (_, written) = draw_with_fault(&mut display, &buffer, Some(0));
    assert_eq!(written, 0);
    assert_eq!(display.cursor(), 0);
    let (_, written) = draw_with_fault(&mut display, &buffer, Some(3));
    assert_eq!(written, 5);
    assert_eq!(display.cursor(), 10);
    let (_, written) = draw_with_fault(&mut display, &buffer, Some(4));
    assert_eq!(written, 5);
    assert_eq!(display.cursor(), 0);
}

#[test]
fn a_fault_in_the_release_leaves_the_cursor_after_the_whole_buffer() {
    let mut display = panel((150, 0), (169, 1));
    let buffer = [1, 2, 3, 4, 5, 6, 7];
    let (carried, written) = draw_with_fault(&mut display, &buffer, Some(6));
    assert_eq!(carried.len(), 7);
    assert_eq!(written, 7);
    assert_eq!(display.cursor(), 14);
    let (_, written) = draw_with_fault(&mut display, &buffer, Some(7));
    assert_eq!(written, 7);
    assert_eq!(display.cursor(), 8);
}

#[test]
fn a_fault_in_the_middle_of_a_row_started_elsewhere() {
    let mut display = panel((100, 0), (219, 3));
    draw_with_fault(&mut display, &[0; 25], None);
    assert_eq!(display.cursor(), 50);
    // Five bytes to the first controller, thirty to the second, five to
    // the first again: the third data write fails.
    let (carried, written) = draw_with_fault(&mut display, &[7; 40], Some(8));
    assert_eq!(written, 35);
    assert_eq!(carried.iter().filter(|(chip, _)| *chip == 1).count(), 5);
    assert_eq!(display.cursor(), 0);
    let (_, written) = draw_with_fault(&mut display, &[7; 40], Some(5));
    assert_eq!(written, 30);
    assert_eq!(display.cursor(), 60);
}

#[test]
fn a_fault_in_one_half_leaves_the_cursor_alone() {
    let mut display = panel((10, 10), (89, 89));
    let (carried, written) = draw_with_fault(&mut display, &[1, 2, 3], Some(2));
    assert_eq!(carried, vec![]);
    assert_eq!(written, 0);
    assert_eq!(display.cursor(), 0);
}

#[test]
fn settling_without_a_draw_changes_nothing() {
    let mut display = panel((150, 0), (169, 1));
    draw_with_fault(&mut display, &[0; 3], None);
    assert_eq!(display.cursor(), 6);
    display.init();
    let from = display.stream_start();
    let ops = display.take();
    assert_eq!(from, ops.len());
    let (_, result, at) = perform(&ops, Some(10));
    assert_eq!(result, Err(10));
    display.settle(streamed(&ops, from, at));
    assert_eq!(display.cursor(), 6);
    display.set_draw_area((150, 0), (169, 1));
    let from = display.stream_start();
    let ops = display.take();
    display.settle(streamed(&ops, from, 3));
    assert_eq!(display.cursor(), 0);
    display.reset();
    let from = display.stream_start();
    let ops = display.take();
    display.settle(streamed(&ops, from, 1));
    assert_eq!(display.cursor(), 0);
}

#[test]
fn streamed_counts_the_data_bytes_before_the_fault() {
    let ops = vec![
        BusOp::Command(0x21),
        BusOp::Data(vec![0, 79]),
        BusOp::Pin(Line::Cs1, Level::Low),
        BusOp::Data(vec![1, 2, 3]),
        BusOp::Delay(5),
        BusOp::Data(vec![]),
        BusOp::Data(vec![4]),
    ];
    assert_eq!(streamed(&ops, 0, 0), 0);
    assert_eq!(streamed(&ops, 0, 1), 0);
    assert_eq!(streamed(&ops, 0, 2), 2);
    assert_eq!(streamed(&ops, 0, 7), 6);
    assert_eq!(streamed(&ops, 0, 100), 6);
    assert_eq!(streamed(&ops, 2, 3), 0);
    assert_eq!(streamed(&ops, 2, 4), 3);
    assert_eq!(streamed(&ops, 2, 7), 4);
    assert_eq!(streamed(&ops, 5, 3), 0);
    assert_eq!(streamed(&ops, 9, 100), 0);
    assert_eq!(streamed(&[], 0, 0), 0);
}

#[test]
fn the_first_fault_is_the_one_whose_index_is_kept() {
    let mut display = panel((150, 0), (169, 1));
    display.draw(&[0; 7]);
    let ops = display.take();
    let mut transaction: Transaction<u8> = Transaction::new(&ops);
    assert_eq!(transaction.first_fault_index(), 8);
    assert_eq!(transaction.start(), Step::Perform(0));
    assert_eq!(transaction.done(), Step::Perform(1));
    assert_eq!(transaction.first_fault_index(), 8);
    assert_eq!(transaction.failed(1), Step::Perform(6));
    assert_eq!(transaction.first_fault_index(), 1);
    assert_eq!(transaction.failed(2), Step::Perform(7));
    assert_eq!(transaction.first_fault_index(), 1);
    assert_eq!(transaction.done(), Step::Finish(Err(1)));
    assert_eq!(transaction.first_fault_index(), 1);
}

#[test]
fn a_fault_during_a_flush_counts_the_bytes_of_the_plane_only() {
    let mut buffered = BufferedSsd1320z2::new(Bus::new());
    buffered.flush();
    let from = buffered.stream_start();
    assert_eq!(from, 14);
    let ops = buffered.take();
    // While the window is set: nothing of the plane was written.
    buffered.settle(streamed(&ops, from, 3));
    assert_eq!(buffered.cursor(), 0);
    // The second data write of the stream fails: 80 bytes were written.
    assert_eq!(streamed(&ops, from, 19), 80);
    buffered.settle(streamed(&ops, from, 19));
    assert_eq!(buffered.cursor(), 160);
    // The third one fails: one row was written.
    buffered.settle(streamed(&ops, from, 22));
    assert_eq!(buffered.cursor(), 0);
    buffered.settle(streamed(&ops, from, 25));
    assert_eq!(buffered.cursor(), 160);
    buffered.settle(streamed(&ops, from, ops.len()));
    assert_eq!(buffered.cursor(), 0);
}
