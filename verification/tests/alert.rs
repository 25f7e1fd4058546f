use remind::AlertAction;
use remind::AlertState;
use remind::Delta;
use remind::ReminderConfig;

#[test]
fn default_message_applied() {
    let cfg = ReminderConfig::new(Delta { hours: 0, minutes: 1 }, false, None);
    assert_eq!(cfg.message, "Time is up!");
}

#[test]
fn given_message_kept() {
    let cfg = ReminderConfig::new(
        Delta { hours: 0, minutes: 1 },
        false,
        Some(String::from("Go for a walk")),
    );
    assert_eq!(cfg.message, "Go for a walk");
}

#[test]
fn once_mode_runs_one_alert_cycle() {
    // Zero wait, once: sleep zero seconds, alert once, stop.
    let cfg = ReminderConfig::new(Delta { hours: 0, minutes: 0 }, true, None);
    let (s1, a1) = cfg.step(AlertState::Idle);
    assert_eq!(s1, AlertState::Waiting);
    assert_eq!(a1, AlertAction::Wait { seconds: 0 });
    let (s2, a2) = cfg.step(s1);
    assert_eq!(s2, AlertState::Alerting);
    assert_eq!(a2, AlertAction::Alert { first: true, delay_seconds: 0 });
    let (s3, a3) = cfg.step(s2);
    assert_eq!(s3, AlertState::Done);
    assert_eq!(a3, AlertAction::Stop);
    let (s4, a4) = cfg.step(s3);
    assert_eq!(s4, AlertState::Done);
    assert_eq!(a4, AlertAction::Stop);
}

#[test]
fn repeat_mode_alerts_every_thirty_seconds() {
    // One minute wait, then the alert repeats with a thirty-second delay
    // for as long as the loop is driven.
    let cfg = ReminderConfig::new(Delta { hours: 0, minutes: 1 }, false, None);
    let (s1, a1) = cfg.step(AlertState::Idle);
    assert_eq!(s1, AlertState::Waiting);
    assert_eq!(a1, AlertAction::Wait { seconds: 60 });
    let (s2, a2) = cfg.step(s1);
    assert_eq!(s2, AlertState::Alerting);
    assert_eq!(a2, AlertAction::Alert { first: true, delay_seconds: 0 });
    let mut state = s2;
    for _ in 0..3 {
        let (next, action) = cfg.step(state);
        assert_eq!(next, AlertState::Alerting);
        assert_eq!(action, AlertAction::Alert { first: false, delay_seconds: 30 });
        state = next;
    }
}

#[test]
fn wait_uses_total_seconds() {
    let cfg = ReminderConfig::new(Delta { hours: 2, minutes: 30 }, true, None);
    let (_, a) = cfg.step(AlertState::Idle);
    assert_eq!(a, AlertAction::Wait { seconds: 9000 });
}
