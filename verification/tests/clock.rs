use shellkit::clock::{format_clock, next_deadline, try_clock_tick, ClockUpdate, ClockWidget, Precision};
use shellkit::timer::{
    completion_event, timeout_request, Absolute, Completion, Relative, TimeSpan, Timer, TimerEvent,
    TimerId, Timing,
};

#[test]
fn clock_text_24h() {
    let w = ClockWidget::new(9, 5);
    assert_eq!(w.time_str, "09:05");
    assert!(w.format_24h);
    assert_eq!(w.formatted_text(23, 59), "23:59");
    assert_eq!(w.formatted_text(0, 0), "00:00");
    assert_eq!(w.formatted_text(123, 7), "123:07");
    assert_eq!(w.precision(), Precision::Minutes);
}

#[test]
fn clock_text_12h() {
    let w = ClockWidget { time_str: String::new(), format_24h: false };
    assert_eq!(w.formatted_text(0, 5), "12:05 AM");
    assert_eq!(w.formatted_text(12, 30), "12:30 PM");
    assert_eq!(w.formatted_text(13, 0), "01:00 PM");
    assert_eq!(w.formatted_text(11, 59), "11:59 AM");
}

#[test]
fn clock_update_reports_changes_only() {
    let mut w = ClockWidget::new(9, 5);
    assert!(w.update(&ClockUpdate(9, 5, 30, 1, 0)).is_none());
    assert!(w.update(&ClockUpdate(9, 6, 0, 1, 0)).is_some());
    assert_eq!(w.time_str, "09:06");
}

#[test]
fn status_bar_clock_text() {
    assert_eq!(format_clock(0, 5, 3, 0), "3 Jan  12:05 AM");
    assert_eq!(format_clock(14, 30, 25, 11), "25 Dec  02:30 PM");
    assert_eq!(format_clock(12, 0, 1, 5), "1 Jun  12:00 PM");
}

#[test]
fn deadlines_round_to_next_unit() {
    assert_eq!(next_deadline(Precision::Minutes, 0), 60);
    assert_eq!(next_deadline(Precision::Minutes, 59), 60);
    assert_eq!(next_deadline(Precision::Minutes, 60), 120);
    assert_eq!(next_deadline(Precision::Minutes, 1_700_000_001), 1_700_000_040);
    assert_eq!(next_deadline(Precision::Seconds, 41), 42);
    assert_eq!(next_deadline(Precision::Minutes, -30), 60);
    assert_eq!(next_deadline(Precision::Minutes, -90), 0);
    assert_eq!(next_deadline(Precision::Seconds, -5), (-4i64) as u64);
}

#[test]
fn clock_tick_only_for_its_timer() {
    let local = (10, 20, 30, 4, 5);
    let ev = TimerEvent::Finished { id: TimerId(3) };
    assert_eq!(try_clock_tick(Some(TimerId(3)), &ev, local), Some(local));
    assert_eq!(try_clock_tick(Some(TimerId(4)), &ev, local), None);
    assert_eq!(try_clock_tick(None, &ev, local), None);
    assert_eq!(TimerEvent::Restarted { id: TimerId(8) }.id(), TimerId(8));
}

#[test]
fn timer_one_shot_and_repeat() {
    let mut t = Timer::new();
    let span = TimeSpan { secs: 2, nanos: 0 };
    let once = Relative { duration: span, repeat: false };
    let rep = Relative { duration: span, repeat: true };
    let req = timeout_request(&Timing::Relative(once));
    assert_eq!(req.span, span);
    assert!(!req.absolute);
    let a = t.start_timer(once, 100);
    let b = t.start_timer(rep, 101);
    let c = t.start_deadline(Absolute { at: TimeSpan { secs: 5, nanos: 1 } }, 102);
    assert_eq!((a, b, c), (TimerId(1), TimerId(2), TimerId(3)));
    assert!(matches!(t.finish(100, -62, 62), Completion::Finished(TimerId(1))));
    assert!(matches!(t.finish(100, -62, 62), Completion::Ignored));
    let c2 = t.finish(101, 0, 62);
    assert!(matches!(c2, Completion::Restart(TimerId(2), _)));
    assert!(matches!(completion_event(&c2), Some(TimerEvent::Restarted { id: TimerId(2) })));
    t.restart(TimerId(2), rep, 103);
    assert!(matches!(t.finish(103, -62, 62), Completion::Restart(TimerId(2), _)));
    assert!(matches!(t.finish(102, -5, 62), Completion::Ignored));
    assert!(matches!(t.finish(102, -62, 62), Completion::Ignored));
    assert!(completion_event(&Completion::Ignored).is_none());
}

#[test]
fn timer_try_finish_uses_target_etime() {
    let mut t = Timer::new();
    let id = t.start_deadline(Absolute { at: TimeSpan { secs: 1, nanos: 0 } }, 7);
    assert!(matches!(t.try_finish(7, -libc::ETIME), Completion::Finished(x) if x == id));
}

#[test]
fn every_24h_time_is_five_chars() {
    let w = ClockWidget::new(0, 0);
    for h in 0..24 {
        for m in 0..60 {
            let t = w.formatted_text(h, m);
            assert_eq!(t.len(), 5);
            assert_eq!(t.as_bytes()[2], b':');
            assert_eq!(t, format!("{:02}:{:02}", h, m));
        }
    }
}
