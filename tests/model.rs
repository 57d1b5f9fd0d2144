use tattle::codes::ErrorDesc;
use tattle::reporter::Message;
use tattle::{Loc, Reporter};

const E001: ErrorDesc = ErrorDesc { short: "E001", long: "unexpected token" };

fn same(a: &Message, b: &Message) -> bool {
    match (a, b) {
        (Message::Error(x), Message::Error(y)) => {
            std::ptr::eq(x.code, y.code) && x.loc == y.loc && x.message == y.message
        }
        (Message::Info(x), Message::Info(y)) => x == y,
        _ => false,
    }
}

#[test]
fn loc_new_keeps_bounds() {
    let l = Loc::new(2, 5);
    assert_eq!(l.start, 2);
    assert_eq!(l.end, 5);
    let e = Loc::new(7, 7);
    assert_eq!((e.start, e.end), (7, 7));
}

#[test]
fn loc_slice() {
    let text = "let é = 1;";
    assert_eq!(Loc::new(4, 6).slice(text), "é");
    assert_eq!(Loc::new(0, 3).slice(text), "let");
    assert_eq!(Loc::new(3, 3).slice(text), "");
}

#[test]
fn error_desc_new() {
    let d = ErrorDesc::new("E9", "long text");
    assert_eq!(d.short, "E9");
    assert_eq!(d.long, "long text");
}

#[test]
fn errored_is_sticky() {
    let mut r = Reporter::new();
    assert!(!r.errored());
    r.info("a".to_string());
    assert!(!r.errored());
    r.error(Loc::new(0, 1), &E001, "bad".to_string());
    assert!(r.errored());
    r.info("b".to_string());
    assert!(r.errored());
    let drained = r.poll();
    assert_eq!(drained.len(), 3);
    assert!(r.errored());
    assert!(r.poll().is_empty());
}

#[test]
fn every_error_form_sets_the_flag() {
    let mut a = Reporter::new();
    a.error_unknown_loc(&E001, "x".to_string());
    assert!(a.errored());
    let mut b = Reporter::new();
    b.error_option_loc(None, &E001, "x".to_string());
    assert!(b.errored());
}

#[test]
fn poll_keeps_order_and_drains() {
    let mut r = Reporter::new();
    r.info("one".to_string());
    r.error_option_loc(Some(Loc::new(1, 2)), &E001, "two".to_string());
    assert_eq!(r.log().len(), 2);
    let ms = r.poll();
    assert!(matches!(&ms[0], Message::Info(s) if s == "one"));
    match &ms[1] {
        Message::Error(e) => {
            assert_eq!(e.loc, Some(Loc::new(1, 2)));
            assert_eq!(e.message, "two");
            assert!(std::ptr::eq(e.code, &E001));
        }
        _ => panic!("expected an error"),
    }
    assert!(r.log().is_empty());
}

#[test]
fn observers_receive_after_registration() {
    let mut r = Reporter::new();
    let a = r.register();
    let b = r.register();
    assert_ne!(a, b);
    r.error(Loc::new(0, 1), &E001, "first".to_string());
    let logged = r.log()[0].duplicate();
    r.deregister(a);
    r.error(Loc::new(1, 2), &E001, "second".to_string());
    let got_a = r.drain_observer(a);
    let got_b = r.drain_observer(b);
    assert_eq!(got_a.len(), 1);
    assert!(same(&got_a[0], &logged));
    assert_eq!(got_b.len(), 2);
    assert!(same(&got_b[0], &logged));
    assert!(same(&got_b[1], &r.log()[1]));
    assert!(r.drain_observer(b).is_empty());
}

#[test]
fn late_observer_gets_no_backfill() {
    let mut r = Reporter::new();
    r.info("early".to_string());
    let h = r.register();
    assert!(r.drain_observer(h).is_empty());
    r.info("late".to_string());
    let got = r.drain_observer(h);
    assert_eq!(got.len(), 1);
    assert!(matches!(&got[0], Message::Info(s) if s == "late"));
    assert!(r.drain_observer(h + 5).is_empty());
}

#[test]
fn duplicate_is_equal() {
    let m = Message::Info("x".to_string());
    assert!(same(&m.duplicate(), &m));
}

#[test]
fn replay_hands_the_log_to_a_late_observer() {
    let mut r = Reporter::new();
    r.info("a".to_string());
    r.error_unknown_loc(&E001, "b".to_string());
    let h = r.register();
    r.replay_to(h);
    let got = r.drain_observer(h);
    assert_eq!(got.len(), 2);
    assert!(same(&got[0], &r.log()[0]));
    assert!(same(&got[1], &r.log()[1]));
    r.replay_to(h + 1);
    assert!(r.drain_observer(h + 1).is_empty());
}
