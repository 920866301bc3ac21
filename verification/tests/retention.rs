use nix_sweep::config::ConfigPreset;
use nix_sweep::profiles::GenDirEntry;
use nix_sweep::profiles::Generation;
use nix_sweep::profiles::Profile;

const DAY: u64 = 86400;

fn preset() -> ConfigPreset {
    ConfigPreset {
        keep_min: None,
        keep_max: None,
        keep_newer: None,
        remove_older: None,
        generations: Vec::new(),
        interactive: None,
        _non_interactive: None,
        gc: None,
        gc_bigger: None,
        gc_quota: None,
        gc_modest: false,
    }
}

fn entry(name: &str, number: usize, age: u64) -> GenDirEntry {
    GenDirEntry {
        file_name: format!("{}-{}-link", name, number),
        path: format!("/nix/var/nix/profiles/{}-{}-link", name, number),
        age,
    }
}

fn system_profile(ages: &[(usize, u64)], active: Option<&str>) -> Profile {
    let entries: Vec<GenDirEntry> =
        ages.iter().map(|(n, age)| entry("system", *n, *age)).collect();
    let active_target = active.map(|s| s.to_string());
    Profile::new(
        "/nix/var/nix/profiles".to_string(),
        "system".to_string(),
        &entries,
        active_target.as_ref(),
    )
    .unwrap()
}

fn marked_numbers(profile: &Profile) -> Vec<usize> {
    profile
        .generations()
        .iter()
        .filter(|g| g.marked())
        .map(|g| g.number())
        .collect()
}

#[test]
fn keep_min_spares_most_recent_marked() {
    // Generations 1..10; 1..7 older than 30 days; keep-min 2; generation 10
    // active. The two most recent marked generations (6 and 7) are spared,
    // leaving 1..5 marked.
    let ages: Vec<(usize, u64)> =
        (1..=10).map(|n| (n, if n <= 7 { 40 * DAY } else { DAY })).collect();
    let mut profile = system_profile(&ages, Some("system-10-link"));
    let mut config = preset();
    config.keep_min = Some(2);
    config.remove_older = Some(30 * DAY);
    profile.apply_markers(&config);
    assert_eq!(marked_numbers(&profile), vec![1, 2, 3, 4, 5]);
}

#[test]
fn newest_and_active_never_marked() {
    // A configuration that marks every generation: everything is older
    // than one second. The newest (10) and the active (4) stay unmarked.
    let ages: Vec<(usize, u64)> = (1..=10).map(|n| (n, 100 * DAY)).collect();
    let mut profile = system_profile(&ages, Some("system-4-link"));
    let mut config = preset();
    config.remove_older = Some(1);
    profile.apply_markers(&config);
    assert_eq!(marked_numbers(&profile), vec![1, 2, 3, 5, 6, 7, 8, 9]);
}

#[test]
fn keep_max_marks_beyond_most_recent() {
    let ages: Vec<(usize, u64)> = (1..=5).map(|n| (n, DAY)).collect();
    let mut profile = system_profile(&ages, Some("system-5-link"));
    let mut config = preset();
    config.keep_max = Some(2);
    profile.apply_markers(&config);
    assert_eq!(marked_numbers(&profile), vec![1, 2, 3]);
}

#[test]
fn keep_newer_protects_recent() {
    let ages: Vec<(usize, u64)> =
        vec![(1, 50 * DAY), (2, 40 * DAY), (3, 10 * DAY), (4, 5 * DAY)];
    let mut profile = system_profile(&ages, Some("system-4-link"));
    let mut config = preset();
    config.keep_max = Some(1);
    config.keep_newer = Some(20 * DAY);
    profile.apply_markers(&config);
    // keep-max 1 marks 1..3; keep-newer un-marks 3 (10 days old).
    assert_eq!(marked_numbers(&profile), vec![1, 2]);
}

#[test]
fn enabling_keep_min_never_marks_more() {
    let ages: Vec<(usize, u64)> = (1..=8).map(|n| (n, 60 * DAY)).collect();
    let mut config = preset();
    config.remove_older = Some(30 * DAY);
    let mut without = system_profile(&ages, Some("system-8-link"));
    without.apply_markers(&config);
    let base: Vec<usize> = marked_numbers(&without);

    let mut with_min = system_profile(&ages, Some("system-8-link"));
    config.keep_min = Some(3);
    with_min.apply_markers(&config);
    for n in marked_numbers(&with_min) {
        assert!(base.contains(&n));
    }
}

#[test]
fn repeated_marking_is_stable() {
    let ages: Vec<(usize, u64)> = (1..=6).map(|n| (n, 45 * DAY)).collect();
    let mut profile = system_profile(&ages, Some("system-6-link"));
    let mut config = preset();
    config.remove_older = Some(30 * DAY);
    config.keep_min = Some(1);
    profile.apply_markers(&config);
    let first = marked_numbers(&profile);
    profile.apply_markers(&config);
    assert_eq!(marked_numbers(&profile), first);
}

#[test]
fn generations_sorted_by_number() {
    let entries = vec![entry("system", 7, DAY), entry("system", 2, DAY), entry("system", 5, DAY)];
    let profile = Profile::new(
        "/nix/var/nix/profiles".to_string(),
        "system".to_string(),
        &entries,
        None,
    )
    .unwrap();
    let numbers: Vec<usize> = profile.generations().iter().map(|g| g.number()).collect();
    assert_eq!(numbers, vec![2, 5, 7]);
}

#[test]
fn unrelated_entries_are_ignored() {
    let entries = vec![
        entry("system", 3, DAY),
        GenDirEntry {
            file_name: "other-1-link".to_string(),
            path: "/nix/var/nix/profiles/other-1-link".to_string(),
            age: DAY,
        },
        GenDirEntry {
            file_name: "systemwide".to_string(),
            path: "/nix/var/nix/profiles/systemwide".to_string(),
            age: DAY,
        },
    ];
    let profile = Profile::new(
        "/nix/var/nix/profiles".to_string(),
        "system".to_string(),
        &entries,
        None,
    )
    .unwrap();
    assert_eq!(profile.generations().len(), 1);
    assert_eq!(profile.generations()[0].number(), 3);
}

#[test]
fn malformed_matching_entry_is_a_hard_error() {
    let entries = vec![
        entry("system", 1, DAY),
        GenDirEntry {
            file_name: "system-1-2-link".to_string(),
            path: "/nix/var/nix/profiles/system-1-2-link".to_string(),
            age: DAY,
        },
    ];
    let r = Profile::new(
        "/nix/var/nix/profiles".to_string(),
        "system".to_string(),
        &entries,
        None,
    );
    assert!(r.is_err());
}

#[test]
fn unparsable_number_is_reported() {
    let e = GenDirEntry {
        file_name: "system-abc-link".to_string(),
        path: "/nix/var/nix/profiles/system-abc-link".to_string(),
        age: DAY,
    };
    let r = Generation::from_entry("system", &e);
    assert_eq!(r.err().unwrap(), "Cannot parse \"abc\" as generation number");
}

#[test]
fn parsed_generation_fields() {
    let e = GenDirEntry {
        file_name: "system-42-link".to_string(),
        path: "/nix/var/nix/profiles/system-42-link".to_string(),
        age: 7 * DAY,
    };
    let g = Generation::from_entry("system", &e).unwrap();
    assert_eq!(g.number(), 42);
    assert_eq!(g.path(), "/nix/var/nix/profiles/system-42-link");
    assert_eq!(g.profile_path(), "/nix/var/nix/profiles/system");
    assert_eq!(g.age(), 7 * DAY);
    assert!(!g.marked());
}

#[test]
fn active_generation_found_by_link_target() {
    let ages: Vec<(usize, u64)> = vec![(1, DAY), (2, DAY), (3, DAY)];
    let profile = system_profile(&ages, Some("system-2-link"));
    let active = profile.active_generation().unwrap();
    assert_eq!(active.number(), 2);
    assert!(profile.is_active_generation(active));
    let third = &profile.generations()[2];
    assert!(!profile.is_active_generation(third));
}

#[test]
fn active_generation_missing_is_an_error() {
    let ages: Vec<(usize, u64)> = vec![(1, DAY)];
    let profile = system_profile(&ages, Some("system-9-link"));
    assert_eq!(
        profile.active_generation().err().unwrap(),
        "Cannot find current generation"
    );
}

#[test]
fn profile_from_path_splits_parent_and_name() {
    let entries = vec![entry("profile", 1, DAY)];
    let p = Profile::from_path("/nix/var/nix/profiles/profile", &entries, None).unwrap();
    assert_eq!(p.path(), "/nix/var/nix/profiles/profile");
    assert_eq!(p.generations().len(), 1);
}

#[test]
fn missing_prefix_is_reported() {
    let e = GenDirEntry {
        file_name: "other-1-link".to_string(),
        path: "/nix/var/nix/profiles/other-1-link".to_string(),
        age: DAY,
    };
    let r = Generation::from_entry("system", &e);
    assert_eq!(
        r.err().unwrap(),
        "Cannot create generation representation (missing profile prefix)"
    );
}

#[test]
fn profile_from_rootless_path_is_an_error() {
    let entries: Vec<GenDirEntry> = Vec::new();
    assert!(Profile::from_path("/", &entries, None).is_err());
}

#[test]
fn empty_profile_survives_marking() {
    let entries: Vec<GenDirEntry> = Vec::new();
    let mut profile = Profile::new(
        "/nix/var/nix/profiles".to_string(),
        "system".to_string(),
        &entries,
        None,
    )
    .unwrap();
    let mut config = preset();
    config.remove_older = Some(1);
    config.keep_max = Some(1);
    profile.apply_markers(&config);
    assert_eq!(profile.generations().len(), 0);
    assert!(profile.active_generation().is_err());
}

#[test]
fn mark_and_unmark_toggle() {
    let e = entry("system", 1, DAY);
    let mut g = Generation::from_entry("system", &e).unwrap();
    g.mark();
    assert!(g.marked());
    g.unmark();
    assert!(!g.marked());
}
