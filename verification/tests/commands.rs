use g560_driver::color::Color;
use g560_driver::command::Command;
use g560_driver::command::SetColorBreatheCommandData;
use g560_driver::command::SetColorCycleCommandData;
use g560_driver::command::SetColorOffCommandData;
use g560_driver::command::SetColorSolidCommandData;
use g560_driver::target::Target;

#[test]
fn builders_keep_zone_and_mode() {
    let color = Color { r: 1, g: 2, b: 3 };
    let solid = Command::new_color_solid(Target::LeftPrimary, color);
    assert_eq!(solid.target(), Target::LeftPrimary);
    assert_eq!(solid.mode_value(), 0x01);
    let cycle = Command::new_color_cycle(Target::RightPrimary, 10000, 100);
    assert_eq!(cycle.target(), Target::RightPrimary);
    assert_eq!(cycle.mode_value(), 0x02);
    let breathe = Command::new_color_breathe(Target::LeftSecondary, color, 10000, 100);
    assert_eq!(breathe.target(), Target::LeftSecondary);
    assert_eq!(breathe.mode_value(), 0x04);
    let off = Command::new_color_off(Target::RightSecondary);
    assert_eq!(off.target(), Target::RightSecondary);
    assert_eq!(off.mode_value(), 0x01);
}

#[test]
fn cycle_clamps_low_rate_and_brightness() {
    let c = Command::new_color_cycle(Target::LeftPrimary, 50, 0);
    assert_eq!(
        c,
        Command::SetColorCycle(SetColorCycleCommandData {
            target: Target::LeftPrimary,
            rate: 100,
            brightness: 1,
        })
    );
}

#[test]
fn cycle_clamps_high_brightness() {
    let c = Command::new_color_cycle(Target::LeftPrimary, 65535, 150);
    assert_eq!(
        c,
        Command::SetColorCycle(SetColorCycleCommandData {
            target: Target::LeftPrimary,
            rate: 65535,
            brightness: 100,
        })
    );
}

#[test]
fn cycle_keeps_in_range_values() {
    let c = Command::new_color_cycle(Target::RightSecondary, 10000, 42);
    assert_eq!(
        c,
        Command::SetColorCycle(SetColorCycleCommandData {
            target: Target::RightSecondary,
            rate: 10000,
            brightness: 42,
        })
    );
}

#[test]
fn breathe_clamps_like_cycle() {
    let color = Color { r: 9, g: 8, b: 7 };
    let c = Command::new_color_breathe(Target::LeftSecondary, color, 50, 200);
    assert_eq!(
        c,
        Command::SetColorBreathe(SetColorBreatheCommandData {
            target: Target::LeftSecondary,
            color,
            rate: 100,
            brightness: 100,
        })
    );
}

#[test]
fn solid_and_off_carry_their_fields() {
    let color = Color { r: 255, g: 254, b: 253 };
    assert_eq!(
        Command::new_color_solid(Target::LeftPrimary, color),
        Command::SetColorSolid(SetColorSolidCommandData { target: Target::LeftPrimary, color })
    );
    assert_eq!(
        Command::new_color_off(Target::RightPrimary),
        Command::SetColorOff(SetColorOffCommandData { target: Target::RightPrimary })
    );
}

#[test]
fn compress_empty_is_empty() {
    let out = Command::compress(&[]);
    assert!(out.is_empty());
}

#[test]
fn compress_keeps_last_command_per_zone() {
    let color = Color { r: 10, g: 20, b: 30 };
    let cmds = [
        Command::new_color_solid(Target::LeftPrimary, color),
        Command::new_color_cycle(Target::RightPrimary, 10000, 100),
        Command::new_color_off(Target::LeftPrimary),
    ];
    let out = Command::compress(&cmds);
    assert_eq!(out.len(), 2);
    let for_lp: Vec<&Command> =
        out.iter().filter(|c| c.target() == Target::LeftPrimary).collect();
    assert_eq!(for_lp.len(), 1);
    assert_eq!(*for_lp[0], Command::new_color_off(Target::LeftPrimary));
    let for_rp: Vec<&Command> =
        out.iter().filter(|c| c.target() == Target::RightPrimary).collect();
    assert_eq!(for_rp.len(), 1);
    assert_eq!(*for_rp[0], Command::new_color_cycle(Target::RightPrimary, 10000, 100));
}

#[test]
fn compress_emits_nothing_for_absent_zones() {
    let cmds = [Command::new_color_off(Target::LeftSecondary)];
    let out = Command::compress(&cmds);
    assert_eq!(out.len(), 1);
    assert!(out.iter().all(|c| c.target() == Target::LeftSecondary));
}

#[test]
fn compress_one_survivor_per_zone_with_overlap() {
    let color = Color { r: 1, g: 1, b: 1 };
    let mut cmds = Vec::new();
    for t in Target::all() {
        cmds.push(Command::new_color_solid(t, color));
    }
    for t in Target::all() {
        cmds.push(Command::new_color_off(t));
    }
    let out = Command::compress(&cmds);
    assert_eq!(out.len(), 4);
    for t in Target::all() {
        let survivors: Vec<&Command> = out.iter().filter(|c| c.target() == t).collect();
        assert_eq!(survivors.len(), 1);
        assert_eq!(*survivors[0], Command::new_color_off(t));
    }
}
