use g560_driver::color::Color;
use g560_driver::command::Command;
use g560_driver::dispatch::DispatchAction;
use g560_driver::dispatch::DispatchEvent;
use g560_driver::dispatch::Dispatcher;
use g560_driver::dispatch::COMMAND_RETRY_TIMES;
use g560_driver::dispatch::COMMAND_RUN_TIMES;
use g560_driver::target::Target;

/// Drive a dispatch to completion against a mock transport whose result for
/// the n-th send (1-based) is `outcomes(n)`. Returns (sends, sleeps).
fn drive(mut d: Dispatcher, outcomes: impl Fn(u32) -> bool) -> (u32, u32) {
    let mut sends = 0u32;
    let mut sleeps = 0u32;
    loop {
        match d.action() {
            DispatchAction::Done => return (sends, sleeps),
            DispatchAction::Send => {
                let frame = d.current_frame();
                assert_eq!(frame.len(), 20);
                sends += 1;
                if outcomes(sends) {
                    d.step(DispatchEvent::SendOk);
                } else {
                    d.step(DispatchEvent::SendFailed);
                }
            }
            DispatchAction::Sleep => {
                sleeps += 1;
                d.step(DispatchEvent::Slept);
            }
        }
    }
}

#[test]
fn all_attempts_fail_sends_nine_times_and_completes() {
    let cmds = [Command::new_color_off(Target::LeftPrimary)];
    let d = Dispatcher::new(&cmds);
    let (sends, sleeps) = drive(d, |_| false);
    assert_eq!(sends, (COMMAND_RUN_TIMES as u32) * (COMMAND_RETRY_TIMES as u32));
    assert_eq!(sends, 9);
    // waits come only between attempts of one transmission: two per
    // repetition, none after its last failure
    assert_eq!(sleeps, 6);
}

#[test]
fn success_on_second_attempt_gives_four_sends() {
    let cmds = [Command::new_color_solid(Target::LeftPrimary, Color { r: 1, g: 2, b: 3 })];
    let d = Dispatcher::new(&cmds);
    // first attempt fails, everything afterwards succeeds:
    // repetition 1 takes 2 sends, repetitions 2 and 3 take 1 each
    let (sends, sleeps) = drive(d, |n| n != 1);
    assert_eq!(sends, 4);
    assert_eq!(sleeps, 1);
}

#[test]
fn success_every_time_sends_run_times_per_command() {
    let cmds = [
        Command::new_color_off(Target::LeftPrimary),
        Command::new_color_off(Target::RightPrimary),
    ];
    let d = Dispatcher::new(&cmds);
    let (sends, sleeps) = drive(d, |_| true);
    assert_eq!(sends, 2 * (COMMAND_RUN_TIMES as u32));
    assert_eq!(sleeps, 0);
}

#[test]
fn empty_command_list_is_done_at_once() {
    let d = Dispatcher::new(&[]);
    assert_eq!(d.action(), DispatchAction::Done);
    let (sends, sleeps) = drive(d, |_| true);
    assert_eq!(sends, 0);
    assert_eq!(sleeps, 0);
}

#[test]
fn dispatcher_compresses_its_input() {
    // two commands on one zone: only the later one is ever sent
    let cmds = [
        Command::new_color_solid(Target::LeftPrimary, Color { r: 9, g: 9, b: 9 }),
        Command::new_color_off(Target::LeftPrimary),
    ];
    let d = Dispatcher::new(&cmds);
    let expected = Command::new_color_off(Target::LeftPrimary).encode();
    let frame = d.current_frame();
    assert_eq!(frame, expected);
    let (sends, _) = drive(d, |_| true);
    assert_eq!(sends, COMMAND_RUN_TIMES as u32);
}

#[test]
fn failures_never_surface_past_a_full_run() {
    // mixed outcomes over several commands: the drive loop reaches Done
    // without any error having escaped
    let cmds = [
        Command::new_color_off(Target::LeftPrimary),
        Command::new_color_cycle(Target::RightSecondary, 5000, 60),
    ];
    let d = Dispatcher::new(&cmds);
    let (sends, _) = drive(d, |n| n % 3 == 0);
    assert!(sends >= 2 * (COMMAND_RUN_TIMES as u32));
}
