use ssd1320::bus::{Bus, BusOp, Level, Line};
use ssd1320::{ChipConfig, Frame, PanelConfig, Phase, Ssd1320z2};

fn select_one() -> Vec<BusOp> {
    vec![BusOp::Pin(Line::Cs2, Level::High), BusOp::Pin(Line::Cs1, Level::Low)]
}

fn select_two() -> Vec<BusOp> {
    vec![BusOp::Pin(Line::Cs1, Level::High), BusOp::Pin(Line::Cs2, Level::Low)]
}

fn release() -> Vec<BusOp> {
    vec![BusOp::Pin(Line::Cs1, Level::High), BusOp::Pin(Line::Cs2, Level::High)]
}

fn area(columns: (u8, u8), rows: (u8, u8)) -> Vec<BusOp> {
    vec![
        BusOp::Command(0x21),
        BusOp::Data(vec![columns.0, columns.1]),
        BusOp::Command(0x22),
        BusOp::Data(vec![rows.0, rows.1]),
    ]
}

fn joined(parts: Vec<Vec<BusOp>>) -> Vec<BusOp> {
    let mut all = Vec::new();
    for part in parts {
        all.extend(part);
    }
    all
}

/// Every byte written in the data phase with the controllers that were
/// selected when it was written: 1, 2, 3 for both, 0 for none.
fn deliveries(ops: &[BusOp]) -> Vec<(u8, u8)> {
    let mut cs1 = Level::High;
    let mut cs2 = Level::High;
    let mut out = Vec::new();
    for op in ops {
        match op {
            BusOp::Pin(Line::Cs1, level) => cs1 = *level,
            BusOp::Pin(Line::Cs2, level) => cs2 = *level,
            BusOp::Data(bytes) => {
                let chip = match (cs1, cs2) {
                    (Level::Low, Level::High) => 1,
                    (Level::High, Level::Low) => 2,
                    (Level::Low, Level::Low) => 3,
                    (Level::High, Level::High) => 0,
                };
                for byte in bytes {
                    out.push((chip, *byte));
                }
            }
            _ => {}
        }
    }
    out
}

fn ramp(len: usize) -> Vec<u8> {
    (0..len).map(|i| (i % 251) as u8).collect()
}

#[test]
fn a_new_panel_has_the_whole_surface_as_window() {
    let mut display = Ssd1320z2::new(Bus::new());
    assert_eq!(display.window(), Frame { start: (0, 0), end: (319, 131) });
    assert_eq!(display.window(), Frame::new());
    assert_eq!(display.cursor(), 0);
    assert_eq!(display.take(), vec![]);
}

#[test]
fn init_initializes_chip_one_then_chip_two() {
    let mut display = Ssd1320z2::new(Bus::new());
    display.init();
    let ops = display.take();
    assert_eq!(ops.len(), 2 + 35 + 2 + 35 + 2);
    assert_eq!(ops[..2].to_vec(), select_one());
    assert_eq!(ops[2], BusOp::Command(0xFD));
    // Display offset, segment remap and scan direction of the first half.
    assert_eq!(ops[2 + 8], BusOp::Data(vec![0x0e]));
    assert_eq!(ops[2 + 17], BusOp::Command(0xA0));
    assert_eq!(ops[2 + 25], BusOp::Command(0xC8));
    assert_eq!(ops[36], BusOp::Command(0xAF));
    assert_eq!(ops[37..39].to_vec(), select_two());
    // And of the second half, which mirrors the first.
    assert_eq!(ops[39 + 8], BusOp::Data(vec![0x92]));
    assert_eq!(ops[39 + 17], BusOp::Command(0xA1));
    assert_eq!(ops[39 + 25], BusOp::Command(0xC0));
    assert_eq!(ops[73], BusOp::Command(0xAF));
    assert_eq!(ops[74..].to_vec(), release());
    assert_eq!(display.cursor(), 0);
    assert_eq!(display.window(), Frame::new());
}

#[test]
fn a_crossing_window_is_set_on_both_chips() {
    let mut display = Ssd1320z2::new(Bus::new());
    display.set_draw_area((150, 0), (170, 10));
    assert_eq!(
        display.take(),
        joined(vec![
            select_one(),
            area((75, 79), (0, 10)),
            select_two(),
            area((0, 5), (0, 10)),
            release(),
        ])
    );
    assert_eq!(display.window(), Frame { start: (150, 0), end: (170, 10) });
    assert_eq!(display.cursor(), 0);
}

#[test]
fn the_whole_surface_is_set_on_both_chips() {
    let mut display = Ssd1320z2::new(Bus::new());
    display.set_draw_area((0, 0), (319, 131));
    assert_eq!(
        display.take(),
        joined(vec![
            select_one(),
            area((0, 79), (0, 131)),
            select_two(),
            area((0, 79), (0, 131)),
            release(),
        ])
    );
}

#[test]
fn a_window_on_the_boundary_columns_crosses() {
    let mut display = Ssd1320z2::new(Bus::new());
    display.set_draw_area((159, 3), (160, 4));
    assert_eq!(
        display.take(),
        joined(vec![
            select_one(),
            area((79, 79), (3, 4)),
            select_two(),
            area((0, 0), (3, 4)),
            release(),
        ])
    );
}

#[test]
fn a_window_in_the_first_half_is_set_on_chip_one() {
    let mut display = Ssd1320z2::new(Bus::new());
    display.set_draw_area((10, 10), (89, 89));
    assert_eq!(
        display.take(),
        joined(vec![select_one(), area((5, 44), (10, 89)), release()])
    );
    display.set_draw_area((0, 0), (159, 131));
    assert_eq!(
        display.take(),
        joined(vec![select_one(), area((0, 79), (0, 131)), release()])
    );
}

#[test]
fn a_window_in_the_second_half_is_set_on_chip_two() {
    let mut display = Ssd1320z2::new(Bus::new());
    display.set_draw_area((190, 78), (273, 101));
    assert_eq!(
        display.take(),
        joined(vec![select_two(), area((15, 56), (78, 101)), release()])
    );
    display.set_draw_area((160, 0), (319, 131));
    assert_eq!(
        display.take(),
        joined(vec![select_two(), area((0, 79), (0, 131)), release()])
    );
}

#[test]
fn one_half_means_one_chip_for_every_draw() {
    let mut display = Ssd1320z2::new(Bus::new());
    display.set_draw_area((190, 78), (273, 101));
    display.take();
    for chunk in [vec![1u8, 2, 3], vec![], ramp(500)] {
        display.draw(&chunk);
        assert_eq!(
            display.take(),
            joined(vec![select_two(), vec![BusOp::Data(chunk.clone())], release()])
        );
        assert_eq!(display.cursor(), 0);
    }
    display.set_draw_area((10, 10), (89, 89));
    display.take();
    display.draw(&[9, 8, 7]);
    let ops = display.take();
    assert_eq!(ops, joined(vec![select_one(), vec![BusOp::Data(vec![9, 8, 7])], release()]));
    assert_eq!(deliveries(&ops), vec![(1, 9), (1, 8), (1, 7)]);
}

#[test]
fn crossing_window_of_odd_width_with_twenty_two_bytes() {
    let mut display = Ssd1320z2::new(Bus::new());
    display.set_draw_area((150, 0), (170, 10));
    display.take();
    let buffer = ramp(22);
    display.draw(&buffer);
    assert_eq!(
        display.take(),
        joined(vec![
            select_one(),
            vec![BusOp::Data(buffer[0..5].to_vec())],
            select_two(),
            vec![BusOp::Data(buffer[5..10].to_vec())],
            select_one(),
            vec![BusOp::Data(buffer[10..15].to_vec())],
            select_two(),
            vec![BusOp::Data(buffer[15..20].to_vec())],
            select_one(),
            vec![BusOp::Data(buffer[20..22].to_vec())],
            release(),
        ])
    );
    assert_eq!(display.cursor(), 4);
    assert_eq!(display.window(), Frame { start: (150, 0), end: (170, 10) });
}

#[test]
fn the_cursor_advances_by_two_columns_a_byte() {
    let mut display = Ssd1320z2::new(Bus::new());
    display.set_draw_area((150, 0), (170, 10));
    display.take();
    display.draw(&[1, 2, 3]);
    assert_eq!(display.cursor(), 6);
    assert_eq!(deliveries(&display.take()), vec![(1, 1), (1, 2), (1, 3)]);
    display.draw(&[4, 5, 6]);
    assert_eq!(display.cursor(), 12);
    assert_eq!(deliveries(&display.take()), vec![(1, 4), (1, 5), (2, 6)]);
    display.draw(&[7, 8, 9, 10]);
    assert_eq!(display.cursor(), 20);
    assert_eq!(deliveries(&display.take()), vec![(2, 7), (2, 8), (2, 9), (2, 10)]);
    // The row has no whole byte left: the stream goes on in the next row.
    display.draw(&[11]);
    assert_eq!(display.cursor(), 2);
    assert_eq!(deliveries(&display.take()), vec![(1, 11)]);
}

#[test]
fn the_cursor_wraps_after_one_row() {
    let mut display = Ssd1320z2::new(Bus::new());
    display.set_draw_area((100, 0), (219, 3));
    display.take();
    let row = ramp(60);
    display.draw(&row);
    assert_eq!(display.cursor(), 0);
    assert_eq!(
        display.take(),
        joined(vec![
            select_one(),
            vec![BusOp::Data(row[0..30].to_vec())],
            select_two(),
            vec![BusOp::Data(row[30..60].to_vec())],
            release(),
        ])
    );
    display.draw(&row[..59]);
    assert_eq!(display.cursor(), 118);
    display.draw(&row[59..]);
    assert_eq!(display.cursor(), 0);
}

#[test]
fn an_odd_start_column_gives_chip_one_the_whole_bytes_before_the_boundary() {
    let mut display = Ssd1320z2::new(Bus::new());
    display.set_draw_area((151, 0), (170, 1));
    display.take();
    let buffer = ramp(20);
    display.draw(&buffer);
    assert_eq!(
        display.take(),
        joined(vec![
            select_one(),
            vec![BusOp::Data(buffer[0..4].to_vec())],
            select_two(),
            vec![BusOp::Data(buffer[4..10].to_vec())],
            select_one(),
            vec![BusOp::Data(buffer[10..14].to_vec())],
            select_two(),
            vec![BusOp::Data(buffer[14..20].to_vec())],
            release(),
        ])
    );
    assert_eq!(display.cursor(), 0);
}

#[test]
fn a_window_one_column_into_each_chip() {
    let mut display = Ssd1320z2::new(Bus::new());
    display.set_draw_area((159, 0), (160, 1));
    display.take();
    display.draw(&[0xAA, 0xBB]);
    assert_eq!(
        display.take(),
        joined(vec![
            select_two(),
            vec![BusOp::Data(vec![0xAA])],
            select_two(),
            vec![BusOp::Data(vec![0xBB])],
            release(),
        ])
    );
    assert_eq!(display.cursor(), 0);
}

#[test]
fn an_empty_buffer_into_a_crossing_window_only_releases() {
    let mut display = Ssd1320z2::new(Bus::new());
    display.set_draw_area((150, 0), (170, 10));
    display.take();
    display.draw(&[1, 2]);
    display.take();
    display.draw(&[]);
    assert_eq!(display.take(), release());
    assert_eq!(display.cursor(), 4);
}

#[test]
fn chunks_are_routed_like_the_whole_buffer() {
    let buffer = ramp(150);
    let mut whole = Ssd1320z2::new(Bus::new());
    whole.set_draw_area((100, 5), (219, 20));
    whole.take();
    whole.draw(&buffer);
    let expected = deliveries(&whole.take());
    assert_eq!(expected.len(), 150);
    for k in 0..150 {
        let chip = if k % 60 < 30 { 1 } else { 2 };
        assert_eq!(expected[k], (chip, buffer[k]));
    }

    for cuts in [vec![7, 40, 1, 102], vec![150], vec![30, 30, 30, 30, 30], vec![1; 150]] {
        let mut chunked = Ssd1320z2::new(Bus::new());
        chunked.set_draw_area((100, 5), (219, 20));
        chunked.take();
        let mut from = 0;
        let mut got = Vec::new();
        for cut in cuts {
            chunked.draw(&buffer[from..from + cut]);
            got.extend(deliveries(&chunked.take()));
            from += cut;
        }
        assert_eq!(from, 150);
        assert_eq!(got, expected);
        assert_eq!(chunked.cursor(), whole.cursor());
    }
    assert_eq!(whole.cursor(), 60);
}

#[test]
fn chunks_of_an_odd_window_are_routed_like_the_whole_buffer() {
    let buffer = ramp(64);
    let mut whole = Ssd1320z2::new(Bus::new());
    whole.set_draw_area((150, 0), (170, 10));
    whole.take();
    whole.draw(&buffer);
    let expected = deliveries(&whole.take());
    let mut chunked = Ssd1320z2::new(Bus::new());
    chunked.set_draw_area((150, 0), (170, 10));
    chunked.take();
    let mut got = Vec::new();
    for chunk in buffer.chunks(3) {
        chunked.draw(chunk);
        got.extend(deliveries(&chunked.take()));
    }
    assert_eq!(got, expected);
    assert_eq!(chunked.cursor(), whole.cursor());
}

#[test]
fn setting_a_window_puts_the_cursor_back() {
    let mut display = Ssd1320z2::new(Bus::new());
    display.set_draw_area((100, 0), (219, 3));
    display.draw(&[0; 17]);
    assert_eq!(display.cursor(), 34);
    display.set_draw_area((100, 0), (219, 3));
    assert_eq!(display.cursor(), 0);
    display.draw(&[0; 3]);
    display.set_draw_area((0, 0), (10, 10));
    assert_eq!(display.cursor(), 0);
}

#[test]
fn the_whole_surface_takes_eighty_bytes_a_chip_and_row() {
    let mut display = Ssd1320z2::new(Bus::new());
    let buffer = ramp(400);
    display.draw(&buffer);
    let got = deliveries(&display.take());
    for k in 0..400 {
        let chip = if k % 160 < 80 { 1 } else { 2 };
        assert_eq!(got[k], (chip, buffer[k]));
    }
    assert_eq!(display.cursor(), 160);
}

#[test]
fn coordinates_beyond_the_surface_are_cut_not_refused() {
    let mut display = Ssd1320z2::new(Bus::new());
    display.set_draw_area((330, 300), (500, 1000));
    assert_eq!(
        display.take(),
        joined(vec![select_two(), area((5, 10), (44, 232)), release()])
    );
    display.set_draw_area((0, 0), (65535, 0));
    display.take();
    display.draw(&[1; 3]);
    assert_eq!(display.cursor(), 6);
}

#[test]
fn the_selections_queue_their_two_lines() {
    let mut display = Ssd1320z2::new(Bus::new());
    display.select_one();
    assert_eq!(display.take(), select_one());
    display.select_two();
    assert_eq!(display.take(), select_two());
    display.select_one();
    display.select_two();
    assert_eq!(display.take(), joined(vec![select_one(), select_two()]));
    display.select_all();
    assert_eq!(
        display.take(),
        vec![BusOp::Pin(Line::Cs1, Level::Low), BusOp::Pin(Line::Cs2, Level::Low)]
    );
    display.unselect_all();
    assert_eq!(display.take(), release());
}

#[test]
fn the_panel_resets_through_the_shared_line() {
    let mut display = Ssd1320z2::new(Bus::new());
    display.reset();
    assert_eq!(
        display.take(),
        vec![
            BusOp::Pin(Line::Reset, Level::High),
            BusOp::Delay(1),
            BusOp::Pin(Line::Reset, Level::Low),
            BusOp::Delay(10),
            BusOp::Pin(Line::Reset, Level::High),
            BusOp::Delay(20),
        ]
    );
}

#[test]
fn the_phases_follow_the_calls() {
    let mut display = Ssd1320z2::new(Bus::new());
    assert_eq!(display.phase(), Phase::Uninitialized);
    display.init();
    assert_eq!(display.phase(), Phase::Initialized);
    display.draw(&[1, 2]);
    assert_eq!(display.phase(), Phase::Initialized);
    display.set_draw_area((0, 0), (10, 10));
    assert_eq!(display.phase(), Phase::DrawAreaSet);
    display.draw(&[1, 2]);
    assert_eq!(display.phase(), Phase::Streaming);
    display.draw(&[3]);
    assert_eq!(display.phase(), Phase::Streaming);
    display.init();
    assert_eq!(display.phase(), Phase::Streaming);
    display.set_draw_area((150, 0), (170, 10));
    assert_eq!(display.phase(), Phase::DrawAreaSet);
    display.take();
    assert_eq!(display.phase(), Phase::DrawAreaSet);
    display.reset();
    assert_eq!(display.phase(), Phase::Uninitialized);
}

#[test]
fn before_init_nothing_counts() {
    let mut display = Ssd1320z2::new(Bus::new());
    display.set_draw_area((0, 0), (10, 10));
    assert_eq!(display.phase(), Phase::Uninitialized);
    display.draw(&[1, 2]);
    assert_eq!(display.phase(), Phase::Uninitialized);
    // The operations are queued all the same.
    assert_eq!(display.take().len(), 2 + 4 + 2 + 2 + 1 + 2);
}

#[test]
fn the_settings_of_the_surenoo_panel() {
    assert_eq!(
        PanelConfig::new(),
        PanelConfig {
            one: ChipConfig { display_offset: 0x0e, segment_remap: false, com_reverse: true },
            two: ChipConfig { display_offset: 0x92, segment_remap: true, com_reverse: false },
        }
    );
    let mut by_default = Ssd1320z2::new(Bus::new());
    by_default.init();
    let mut by_settings = Ssd1320z2::new(Bus::new());
    by_settings.init_with(PanelConfig::new());
    assert_eq!(by_default.take(), by_settings.take());
}

#[test]
fn init_with_gives_each_chip_its_settings() {
    let mut display = Ssd1320z2::new(Bus::new());
    display.init_with(PanelConfig {
        one: ChipConfig { display_offset: 0x11, segment_remap: true, com_reverse: true },
        two: ChipConfig { display_offset: 0x22, segment_remap: false, com_reverse: false },
    });
    let ops = display.take();
    assert_eq!(ops.len(), 76);
    assert_eq!(ops[2 + 8], BusOp::Data(vec![0x11]));
    assert_eq!(ops[2 + 17], BusOp::Command(0xA1));
    assert_eq!(ops[2 + 25], BusOp::Command(0xC8));
    assert_eq!(ops[39 + 8], BusOp::Data(vec![0x22]));
    assert_eq!(ops[39 + 17], BusOp::Command(0xA0));
    assert_eq!(ops[39 + 25], BusOp::Command(0xC0));
    assert_eq!(display.phase(), Phase::Initialized);
}
