use idlectl::leases::{Holder, HolderState, Refusal, Table, DEFAULT_TTL_SECS, MAX_TEXT};
use idlectl::time::{BootInstant, Duration};

fn t0() -> BootInstant {
    BootInstant::from_secs(1_000)
}

fn default_ttl() -> Duration {
    Duration::from_secs(DEFAULT_TTL_SECS)
}

fn nobody() -> Holder {
    Holder::of(None, None)
}

fn open() -> Vec<String> {
    Vec::new()
}

#[test]
fn a_lease_is_released_when_its_handle_is_dropped() {
    let mut table = Table::default();
    table
        .acquire("job", "building", 1000, nobody(), Duration::from_secs(600), t0())
        .expect("accepted");
    assert!(!table.is_empty());
    assert!(table.reap(t0(), &open()).is_empty());

    let dropped = table.reap(t0(), &vec!["job".to_owned()]);
    assert_eq!(dropped.len(), 1);
    assert_eq!(dropped[0].1.reason(), "holder closed its handle");
    assert!(table.is_empty());
}

#[test]
fn a_lease_expires_on_its_ttl_even_with_the_handle_open() {
    let mut table = Table::default();
    table
        .acquire("job", "", 1000, nobody(), Duration::from_secs(60), t0())
        .expect("accepted");
    assert!(table.reap(BootInstant::from_secs(1_059), &open()).is_empty());
    let dropped = table.reap(BootInstant::from_secs(1_060), &open());
    assert_eq!(dropped.len(), 1);
    assert_eq!(dropped[0].1.reason(), "ttl expired");
}

#[test]
fn hostile_input_is_refused_rather_than_stored() {
    let mut table = Table::default();
    assert_eq!(
        table
            .acquire("   ", "", 0, nobody(), default_ttl(), t0())
            .unwrap_err(),
        Refusal::EmptyId
    );
    assert_eq!(
        table
            .acquire(&"x".repeat(MAX_TEXT + 1), "", 0, nobody(), default_ttl(), t0())
            .unwrap_err(),
        Refusal::TooLong("who")
    );
    assert_eq!(
        table
            .acquire("job", "", 0, nobody(), Duration::from_secs(u32::MAX.into()), t0())
            .unwrap_err(),
        Refusal::TtlTooLong
    );
    assert!(table.is_empty());
}

#[test]
fn a_duplicate_identifier_is_refused() {
    let mut table = Table::default();
    table
        .acquire("job", "", 0, nobody(), default_ttl(), t0())
        .expect("first");
    assert_eq!(
        table
            .acquire("job", "", 0, nobody(), default_ttl(), t0())
            .unwrap_err(),
        Refusal::AlreadyHeld
    );
}

#[test]
fn a_zero_ttl_takes_the_default_rather_than_expiring_instantly() {
    let mut table = Table::default();
    table
        .acquire("job", "", 0, nobody(), Duration::from_secs(0), t0())
        .expect("ok");
    assert!(table.reap(t0(), &open()).is_empty());
    assert!(!table
        .reap(t0().checked_add(default_ttl()).unwrap(), &open())
        .is_empty());
}

#[test]
fn an_end_that_cannot_be_counted_is_the_last_instant() {
    let mut table = Table::default();
    let late = BootInstant::from_nanos(u64::MAX - 1);
    table
        .acquire("job", "", 0, nobody(), Duration::from_secs(60), late)
        .expect("ok");
    assert!(table.reap(late, &open()).is_empty());
    assert!(!table
        .reap(BootInstant::from_nanos(u64::MAX), &open())
        .is_empty());
}

#[test]
fn a_lease_names_the_process_that_took_it() {
    let mut table = Table::default();
    let me = 4321;
    table
        .acquire("job", "", 1000, Holder::of(Some(me), Some(987_654)), default_ttl(), t0())
        .expect("accepted");
    let leases = table.iter();
    let lease = leases[0];
    assert_eq!(lease.holder.pid(), Some(me));
    let state = lease
        .holder
        .state(Some(987_654), Some("the-holder".to_owned()));
    assert_eq!(state.wire(), "alive");
    assert!(
        !state.comm().is_empty(),
        "a live holder must be named, not merely counted"
    );
}

#[test]
fn a_holder_without_a_pid_is_unknown_and_not_pid_zero() {
    let holder = Holder::of(None, None);
    assert_eq!(holder.pid(), None);
    assert_eq!(holder.state(None, None), HolderState::Unknown);
}

#[test]
fn a_holder_whose_process_is_gone_says_so_rather_than_naming_it() {
    let holder = Holder {
        pid: Some(4321),
        started: Some(987_654),
    };
    assert_eq!(holder.state(None, None), HolderState::Gone);
}

#[test]
fn a_recycled_pid_is_never_reported_as_the_holder() {
    let holder = Holder {
        pid: Some(4321),
        started: Some(987_654),
    };
    let recycled = || holder.state(Some(999_999), Some("innocent".to_owned()));
    assert_eq!(recycled(), HolderState::Recycled);
    assert_eq!(recycled().comm(), "");

    assert_eq!(
        holder.state(Some(987_654), Some("the-holder".to_owned())),
        HolderState::Alive("the-holder".to_owned())
    );
}

#[test]
fn an_unreadable_start_time_at_acquire_does_not_become_a_recycle_claim() {
    let holder = Holder {
        pid: Some(4321),
        started: None,
    };
    assert_eq!(holder.state(Some(1), Some("something".to_owned())).wire(), "alive");
}

#[test]
fn the_summary_is_stable_across_calls() {
    let mut table = Table::default();
    table
        .acquire("b-job", "two", 0, nobody(), default_ttl(), t0())
        .unwrap();
    table
        .acquire("a-job", "one", 0, nobody(), default_ttl(), t0())
        .unwrap();
    assert_eq!(table.summary(), table.summary());
    assert_eq!(table.summary().unwrap(), "held by a-job (one), b-job (two)");
}
