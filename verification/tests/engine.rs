use idlectl::engine::sweep_needed_for;
use idlectl::fact::{FactId, FactMap};
use idlectl::policy::{FactSettings, Policy};
use idlectl::reading::{Reading, POLLED};

#[test]
fn an_idle_machine_with_nothing_polled_needs_no_sweep() {
    let policy = Policy::empty();
    let mut readings = FactMap::new();
    for id in POLLED {
        readings.insert(id, Reading::no("nothing"));
    }
    assert!(!sweep_needed_for(&policy, &readings));
}

#[test]
fn a_download_in_progress_arms_the_sweep() {
    let policy = Policy::empty();
    let mut readings = FactMap::new();
    readings.insert(FactId::SteamDownloading, Reading::yes("downloading"));
    assert!(sweep_needed_for(&policy, &readings));
}

#[test]
fn doubt_about_a_polled_fact_arms_the_sweep() {
    let policy = Policy::empty();
    let mut readings = FactMap::new();
    readings.insert(FactId::GpuBusyOther, Reading::doubt("nvidia-smi hung"));
    assert!(sweep_needed_for(&policy, &readings));
}

#[test]
fn a_disabled_polled_fact_does_not_arm_the_sweep() {
    let mut policy = Policy::empty();
    policy.facts.insert(
        FactId::SteamDownloading,
        FactSettings {
            enabled: false,
            ..FactSettings::default_for(FactId::SteamDownloading)
        },
    );
    let mut readings = FactMap::new();
    readings.insert(FactId::SteamDownloading, Reading::yes("downloading"));
    assert!(!sweep_needed_for(&policy, &readings));
}
