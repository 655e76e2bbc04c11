use idlectl::manager::{bounded_holders, MAX_HOLDERS, MAX_HOLDER_NAME};

#[test]
fn an_agents_report_is_bounded_in_both_directions() {
    let raw: Vec<(u32, String, u64)> = (0..MAX_HOLDERS as u32 + 10)
        .map(|pid| (pid, "x".repeat(MAX_HOLDER_NAME + 10), 1))
        .collect();
    let bounded = bounded_holders(&raw);
    assert_eq!(bounded.len(), MAX_HOLDERS);
    assert_eq!(bounded[0].name.chars().count(), MAX_HOLDER_NAME);
}

#[test]
fn truncating_a_name_cannot_panic_on_a_multibyte_character() {
    let name = "\u{e9}".repeat(MAX_HOLDER_NAME + 10);
    let bounded = bounded_holders(&vec![(1, name, 1)]);
    assert_eq!(bounded[0].name.chars().count(), MAX_HOLDER_NAME);
}
