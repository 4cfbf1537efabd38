use ssd1320::bus::{Bus, BusOp, Level, Line};
use ssd1320::command::Command;
use ssd1320::display::Ssd1320;

fn init_ops(offset: u8, remap: u8, reverse: u8) -> Vec<BusOp> {
    vec![
        BusOp::Command(0xFD),
        BusOp::Data(vec![0x12]),
        BusOp::Command(0xAE),
        BusOp::Command(0xD5),
        BusOp::Data(vec![0x72]),
        BusOp::Command(0xA8),
        BusOp::Data(vec![0x83]),
        BusOp::Command(0xD3),
        BusOp::Data(vec![offset]),
        BusOp::Command(0x20),
        BusOp::Data(vec![0x00]),
        BusOp::Command(0x25),
        BusOp::Data(vec![0x00]),
        BusOp::Command(0xA2),
        BusOp::Data(vec![0x00]),
        BusOp::Command(0x81),
        BusOp::Data(vec![0x6b]),
        BusOp::Command(0xA0 | remap),
        BusOp::Command(0xA4),
        BusOp::Command(0xA6),
        BusOp::Command(0xAD),
        BusOp::Data(vec![0x10]),
        BusOp::Command(0xBC),
        BusOp::Data(vec![0x1E]),
        BusOp::Command(0xBF),
        BusOp::Command(0xC0 | (reverse << 3)),
        BusOp::Command(0xD9),
        BusOp::Data(vec![0x2C]),
        BusOp::Command(0xDA),
        BusOp::Data(vec![0x32]),
        BusOp::Command(0xBD),
        BusOp::Data(vec![0x03]),
        BusOp::Command(0xDB),
        BusOp::Data(vec![0x40]),
        BusOp::Command(0xAF),
    ]
}

#[test]
fn init_sends_the_sequence_in_order() {
    let mut driver = Ssd1320::new(Bus::new());
    driver.init(0x0e, false, true);
    assert_eq!(driver.take(), init_ops(0x0e, 0, 1));
    driver.init(0x92, true, false);
    assert_eq!(driver.take(), init_ops(0x92, 1, 0));
}

#[test]
fn init_switches_the_display_on_last() {
    let mut driver = Ssd1320::new(Bus::new());
    driver.init(0, false, false);
    let ops = driver.take();
    assert_eq!(ops.len(), 35);
    assert_eq!(ops[2], BusOp::Command(0xAE));
    assert_eq!(ops[34], BusOp::Command(0xAF));
    assert_eq!(ops.iter().filter(|op| **op == BusOp::Command(0xAF)).count(), 1);
}

#[test]
fn single_draw_area_halves_the_columns() {
    let mut driver = Ssd1320::new(Bus::new());
    driver.set_draw_area((150, 0), (159, 10));
    assert_eq!(
        driver.take(),
        vec![
            BusOp::Command(0x21),
            BusOp::Data(vec![75, 79]),
            BusOp::Command(0x22),
            BusOp::Data(vec![0, 10]),
        ]
    );
    driver.set_draw_area((1, 7), (3, 159));
    assert_eq!(
        driver.take(),
        vec![
            BusOp::Command(0x21),
            BusOp::Data(vec![0, 1]),
            BusOp::Command(0x22),
            BusOp::Data(vec![7, 159]),
        ]
    );
}

#[test]
fn single_draw_streams_the_bytes_as_they_are() {
    let mut driver = Ssd1320::new(Bus::new());
    driver.draw(&[0x12, 0x34, 0x56]);
    driver.draw(&[]);
    assert_eq!(
        driver.take(),
        vec![BusOp::Data(vec![0x12, 0x34, 0x56]), BusOp::Data(vec![])]
    );
}

#[test]
fn reset_pulses_the_line_with_the_hold_times() {
    let mut driver = Ssd1320::new(Bus::new());
    driver.reset();
    assert_eq!(
        driver.take(),
        vec![
            BusOp::Pin(Line::Reset, Level::High),
            BusOp::Delay(1),
            BusOp::Pin(Line::Reset, Level::Low),
            BusOp::Delay(10),
            BusOp::Pin(Line::Reset, Level::High),
            BusOp::Delay(20),
        ]
    );
}

#[test]
fn send_all_keeps_the_order_and_what_was_queued() {
    let mut bus = Bus::new();
    bus.delay(5);
    let mut driver = Ssd1320::new(bus);
    driver.send_all(&[Command::DisplayOn(false), Command::Contrast(9)]);
    driver.pin(Line::Cs1, Level::High);
    assert_eq!(
        driver.take(),
        vec![
            BusOp::Delay(5),
            BusOp::Command(0xAE),
            BusOp::Command(0x81),
            BusOp::Data(vec![9]),
            BusOp::Pin(Line::Cs1, Level::High),
        ]
    );
}
