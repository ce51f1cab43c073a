use umanux::userlib::files::lock::{lock_owner, LockAction, LockAttempt, LockEvent};
use umanux::UserLibError;

fn describe(action: &LockAction) -> String {
    match action {
        LockAction::WritePid { path, text } => format!("write {} {}", path, text),
        LockAction::HardLink { from, to } => format!("link {} {}", from, to),
        LockAction::Remove { path } => format!("remove {}", path),
        LockAction::ReadTable { path } => format!("table {}", path),
        LockAction::ReadLock { path } => format!("probe {}", path),
        LockAction::Locked { lockfile, content } => format!("locked {} {}", lockfile, content),
        LockAction::Fail(e) => format!("fail {}", e.to_string()),
    }
}

fn run(events: Vec<LockEvent>) -> Vec<String> {
    let (mut attempt, first) = LockAttempt::try_to_lock_file("/etc/passwd", 12397);
    let mut steps = vec![describe(&first)];
    for event in events {
        assert!(!attempt.is_over());
        steps.push(describe(&attempt.step(event)));
    }
    assert!(attempt.is_over());
    steps
}

#[test]
fn lock_is_taken_step_by_step() {
    assert_eq!(
        run(vec![
            LockEvent::Done,
            LockEvent::Done,
            LockEvent::Done,
            LockEvent::Read("root:x:0:0::/:/bin/sh\n".to_owned()),
        ]),
        vec![
            "write /etc/passwd.12397 12397",
            "link /etc/passwd.12397 /etc/passwd.lock",
            "remove /etc/passwd.12397",
            "table /etc/passwd",
            "locked /etc/passwd.lock root:x:0:0::/:/bin/sh\n",
        ]
    );
}

#[test]
fn lock_of_another_process_is_respected() {
    assert_eq!(
        run(vec![
            LockEvent::Done,
            LockEvent::AlreadyExists,
            LockEvent::Done,
            LockEvent::Read("4711\n".to_owned()),
        ]),
        vec![
            "write /etc/passwd.12397 12397",
            "link /etc/passwd.12397 /etc/passwd.lock",
            "remove /etc/passwd.12397",
            "probe /etc/passwd.lock",
            "fail The file is locked by another process.",
        ]
    );
    let garbled = run(vec![
        LockEvent::Done,
        LockEvent::AlreadyExists,
        LockEvent::Failed,
        LockEvent::Read("no number".to_owned()),
    ]);
    assert_eq!(garbled[4], "fail was not able to lock!");
    let unreadable = run(vec![
        LockEvent::Done,
        LockEvent::AlreadyExists,
        LockEvent::Done,
        LockEvent::Failed,
    ]);
    assert_eq!(unreadable[4], "fail was not able to lock!");
}

#[test]
fn failed_steps_clean_up() {
    assert_eq!(
        run(vec![LockEvent::Failed, LockEvent::Done]),
        vec![
            "write /etc/passwd.12397 12397",
            "remove /etc/passwd.12397",
            "fail was not able to lock!",
        ]
    );
    assert_eq!(
        run(vec![LockEvent::Done, LockEvent::Failed, LockEvent::Done]),
        vec![
            "write /etc/passwd.12397 12397",
            "link /etc/passwd.12397 /etc/passwd.lock",
            "remove /etc/passwd.12397",
            "fail was not able to lock!",
        ]
    );
    assert_eq!(
        run(vec![
            LockEvent::Done,
            LockEvent::Done,
            LockEvent::Done,
            LockEvent::Failed,
            LockEvent::Done,
        ]),
        vec![
            "write /etc/passwd.12397 12397",
            "link /etc/passwd.12397 /etc/passwd.lock",
            "remove /etc/passwd.12397",
            "table /etc/passwd",
            "remove /etc/passwd.lock",
            "fail Failed to open the file",
        ]
    );
    assert_eq!(
        run(vec![
            LockEvent::Done,
            LockEvent::Done,
            LockEvent::Failed,
            LockEvent::Done,
        ]),
        vec![
            "write /etc/passwd.12397 12397",
            "link /etc/passwd.12397 /etc/passwd.lock",
            "remove /etc/passwd.12397",
            "remove /etc/passwd.lock",
            "fail Failed to open the file",
        ]
    );
}

#[test]
fn finished_attempt_stays_finished() {
    let (mut attempt, _) = LockAttempt::try_to_lock_file("t", 1);
    attempt.step(LockEvent::Failed);
    attempt.step(LockEvent::Done);
    assert!(attempt.is_over());
    match attempt.step(LockEvent::Done) {
        LockAction::Fail(e) => assert_eq!(e, UserLibError::from("The attempt to lock is over")),
        _ => unreachable!(),
    }
    assert!(attempt.is_over());
    assert_eq!(attempt.temp_path(), "t.1");
    assert_eq!(attempt.lock_path(), "t.lock");
}

#[test]
fn lock_owner_is_read_from_the_lock_file() {
    assert_eq!(lock_owner("4711"), Some(4711));
    assert_eq!(lock_owner("  4711\n"), Some(4711));
    assert_eq!(lock_owner("\n\u{0}\u{0}4711\u{0} \n"), Some(4711));
    assert_eq!(lock_owner("\u{0} 4711"), None);
    assert_eq!(lock_owner("+7"), Some(7));
    assert_eq!(lock_owner("4294967295"), Some(4294967295));
    assert_eq!(lock_owner("4294967296"), None);
    assert_eq!(lock_owner(""), None);
    assert_eq!(lock_owner("-1"), None);
    assert_eq!(lock_owner("12a"), None);
}
