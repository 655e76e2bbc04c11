use idlectl::action::Action;
use idlectl::clock::ClockOrigin;
use idlectl::pending::{Dropped, Pending};
use idlectl::time::BootInstant;

fn at(secs: u64) -> BootInstant {
    BootInstant::from_secs(secs)
}

fn request(expires: u64, human: ClockOrigin) -> Pending {
    Pending {
        action: Action::PowerOff,
        expires_at: at(expires),
        human_origin: human,
        uid: 1000,
    }
}

#[test]
fn survives_while_the_machine_is_merely_busy() {
    let p = request(9000, ClockOrigin::At(at(100)));
    assert_eq!(p.dropped_at(at(5000), ClockOrigin::At(at(100))), None);
}

#[test]
fn expires_on_its_ttl() {
    let p = request(9000, ClockOrigin::At(at(100)));
    assert_eq!(
        p.dropped_at(at(9000), ClockOrigin::At(at(100))),
        Some(Dropped::Expired)
    );
}

#[test]
fn a_human_arriving_cancels_it() {
    let p = request(9000, ClockOrigin::At(at(100)));
    assert_eq!(
        p.dropped_at(at(5000), ClockOrigin::At(at(4000))),
        Some(Dropped::HumanArrived)
    );
}

#[test]
fn a_resume_does_not_cancel_it() {
    let p = request(9000, ClockOrigin::At(at(100)));
    assert_eq!(p.dropped_at(at(8000), ClockOrigin::At(at(100))), None);
}

#[test]
fn an_unreadable_clock_is_not_an_arrival() {
    let p = request(9000, ClockOrigin::At(at(100)));
    assert_eq!(p.dropped_at(at(5000), ClockOrigin::Unreadable), None);
    let q = request(9000, ClockOrigin::Unreadable);
    assert_eq!(q.dropped_at(at(5000), ClockOrigin::At(at(100))), None);
}

#[test]
fn expiry_wins_over_arrival() {
    let p = request(9000, ClockOrigin::At(at(100)));
    assert_eq!(
        p.dropped_at(at(9500), ClockOrigin::At(at(9400))),
        Some(Dropped::Expired)
    );
}
