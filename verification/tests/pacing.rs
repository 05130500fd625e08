use espace_invaders::console_game::{calculate_frame_rate, render_frame, Game};

#[test]
fn frame_rate_reported_after_one_second() {
    // 100 frames over 3 s: 100 / 2 s = 50.00 frames a second.
    assert_eq!(calculate_frame_rate(100, 3000), Some(5000));
    // 60 frames over 2 s: 60 / 1 s = 60.00.
    assert_eq!(calculate_frame_rate(60, 2000), Some(6000));
}

#[test]
fn frame_rate_withheld_early() {
    assert_eq!(calculate_frame_rate(0, 5000), None);
    assert_eq!(calculate_frame_rate(1, 5000), None);
    assert_eq!(calculate_frame_rate(100, 999), None);
    assert_eq!(calculate_frame_rate(100, 1000), None);
}

#[test]
fn drift_correcting_sleep() {
    let mut g = Game::default();
    assert_eq!(g.frame_count, 0);
    assert_eq!(g.frame_time_ns, 16_666_667);

    // Ahead of schedule: sleep the difference to the ideal time of
    // frame 1.
    let sleep = g.end_of_frame(10_000_000);
    assert_eq!(g.frame_count, 1);
    assert_eq!(sleep, 6_666_667);

    // Behind schedule: no sleep, and no accumulated error.
    let sleep = g.end_of_frame(40_000_000);
    assert_eq!(g.frame_count, 2);
    assert_eq!(sleep, 0);

    // Frame 3 is due at 50_000_001 ns.
    let sleep = g.end_of_frame(45_000_000);
    assert_eq!(sleep, 5_000_001);
}

#[test]
fn render_frame_is_callable() {
    render_frame();
}
