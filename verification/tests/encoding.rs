use g560_driver::color::Color;
use g560_driver::command::Command;
use g560_driver::target::Target;

#[test]
fn solid_red_left_primary_payload_and_frame() {
    let c = Command::new_color_solid(Target::LeftPrimary, Color { r: 255, g: 0, b: 0 });
    assert_eq!(c.payload(), vec![0x00, 0x01, 0xFF, 0x00, 0x00, 0, 0, 0, 0, 0]);
    assert_eq!(
        c.encode(),
        vec![
            0x11, 0xFF, 0x04, 0x3A, 0x00, 0x01, 0xFF, 0x00, 0x00, 0x00, 0x00, 0x00, 0x00, 0x00,
            0x00, 0x00, 0x00, 0x00, 0x00, 0x00,
        ]
    );
}

#[test]
fn off_right_secondary_payload() {
    let c = Command::new_color_off(Target::RightSecondary);
    assert_eq!(c.payload(), vec![0x03, 0x01, 0x00, 0x00, 0x00, 0, 0, 0, 0, 0]);
}

#[test]
fn cycle_payload_rate_big_endian() {
    // rate 10000 = 0x2710, so high byte 0x27 then low byte 0x10
    let c = Command::new_color_cycle(Target::LeftSecondary, 10000, 80);
    assert_eq!(c.payload(), vec![0x02, 0x02, 0, 0, 0, 0, 0, 0x27, 0x10, 80]);
}

#[test]
fn breathe_payload_layout() {
    let c = Command::new_color_breathe(
        Target::RightPrimary,
        Color { r: 0xAA, g: 0xBB, b: 0xCC },
        0x1234,
        55,
    );
    assert_eq!(c.payload(), vec![0x01, 0x04, 0xAA, 0xBB, 0xCC, 0x12, 0x34, 0x00, 55, 0x00]);
}

#[test]
fn every_frame_is_twenty_bytes_with_fixed_wrap() {
    let color = Color { r: 5, g: 6, b: 7 };
    let cmds = [
        Command::new_color_solid(Target::LeftPrimary, color),
        Command::new_color_cycle(Target::LeftSecondary, 300, 50),
        Command::new_color_breathe(Target::RightPrimary, color, 300, 50),
        Command::new_color_off(Target::RightSecondary),
    ];
    for c in &cmds {
        let frame = c.encode();
        assert_eq!(frame.len(), 20);
        assert_eq!(&frame[0..4], &[0x11, 0xFF, 0x04, 0x3A]);
        assert_eq!(&frame[4..14], c.payload().as_slice());
        assert_eq!(&frame[14..20], &[0u8; 6]);
    }
}
