use nix_sweep::roots::parse_roots_report;
use nix_sweep::roots::profile_paths;
use nix_sweep::roots::GCRoot;
use nix_sweep::store::StorePath;

const HASH: &str = "bbbbbbbbbbbbbbbbbbbbbbbbbbbbbbbb";

fn store_path(name: &str) -> String {
    format!("/nix/store/{}-{}", HASH, name)
}

fn root(link: &str) -> GCRoot {
    GCRoot::new(
        link.to_string(),
        Ok(100),
        StorePath::new(store_path("pkg")),
    )
}

fn dangling(link: &str) -> GCRoot {
    GCRoot::new(
        link.to_string(),
        Ok(100),
        Err("No such file or directory".to_string()),
    )
}

fn aged(link: &str, age: u64) -> GCRoot {
    GCRoot::new(link.to_string(), Ok(age), StorePath::new(store_path("pkg")))
}

#[test]
fn classification_by_link_path() {
    let profile = root("/nix/var/nix/profiles/system-3-link");
    assert!(profile.is_profile());
    assert!(!profile.is_current());
    assert!(!profile.is_proc());
    assert!(!profile.is_independent());

    let home = root("/home/user/.local/state/nix/profiles/profile-2-link");
    assert!(home.is_profile());

    let current = root("/run/current-system");
    assert!(current.is_current());
    assert!(!current.is_profile());

    let booted = root("/run/booted-system/kernel");
    assert!(booted.is_current());

    let proc = root("/proc/1234/environ");
    assert!(proc.is_proc());

    let other = root("/home/user/result");
    assert!(other.is_independent());
}

#[test]
fn classification_matches_whole_components() {
    // A directory that merely shares a name prefix with a profile
    // directory owns no profiles.
    let lookalike = root("/nix/var/nix/profiles2/system-1-link");
    assert!(!lookalike.is_profile());
    let runlike = root("/run/current-systemd/foo");
    assert!(!runlike.is_current());
}

#[test]
fn accessibility_follows_resolution() {
    assert!(root("/home/user/result").is_accessible());
    assert!(!dangling("/home/user/result").is_accessible());
}

#[test]
fn dangling_root_reported_only_when_asked() {
    // A root whose target no longer exists is excluded from the listing
    // unless inaccessible roots are asked for; asked for, it is kept and
    // shows its resolution error.
    let roots = vec![root("/home/user/ok"), dangling("/home/user/gone")];
    let kept = GCRoot::filter_roots(roots, true, true, false, None, None);
    assert_eq!(kept.len(), 1);
    assert_eq!(kept[0].link(), "/home/user/ok");

    let roots = vec![root("/home/user/ok"), dangling("/home/user/gone")];
    let kept = GCRoot::filter_roots(roots, true, true, true, None, None);
    assert_eq!(kept.len(), 2);
    assert_eq!(
        kept[1].store_path().err().unwrap(),
        "No such file or directory"
    );
}

#[test]
fn filtering_excludes_profiles_and_current() {
    let roots = vec![
        root("/nix/var/nix/profiles/system-1-link"),
        root("/run/current-system"),
        root("/home/user/result"),
    ];
    let kept = GCRoot::filter_roots(roots, false, false, true, None, None);
    assert_eq!(kept.len(), 1);
    assert_eq!(kept[0].link(), "/home/user/result");
}

#[test]
fn age_bounds_spare_unknown_ages() {
    let roots = vec![
        aged("/r/young", 10),
        aged("/r/old", 1000),
        GCRoot::new(
            "/r/unknown".to_string(),
            Err("metadata unreadable".to_string()),
            StorePath::new(store_path("pkg")),
        ),
    ];
    let kept = GCRoot::filter_roots(roots, true, true, true, Some(100), None);
    let links: Vec<&String> = kept.iter().map(|r| r.link()).collect();
    assert_eq!(links, vec!["/r/old", "/r/unknown"]);

    let roots = vec![aged("/r/young", 10), aged("/r/old", 1000)];
    let kept = GCRoot::filter_roots(roots, true, true, true, None, Some(100));
    assert_eq!(kept.len(), 1);
    assert_eq!(kept[0].link(), "/r/young");
}

#[test]
fn profile_paths_derived_and_deduplicated() {
    let roots = vec![
        root("/nix/var/nix/profiles/system-1-link"),
        root("/nix/var/nix/profiles/system-2-link"),
        root("/nix/var/nix/profiles/profile-7-link"),
        root("/home/user/result"),
    ];
    // Returned sorted ascending, each path once.
    let paths = profile_paths(&roots);
    assert_eq!(
        paths,
        vec![
            "/nix/var/nix/profiles/profile".to_string(),
            "/nix/var/nix/profiles/system".to_string(),
        ]
    );
}

#[test]
fn profile_paths_skip_links_without_the_shape() {
    let roots = vec![root("/nix/var/nix/profiles/current")];
    assert_eq!(profile_paths(&roots).len(), 0);
}

#[test]
fn roots_report_parsed_and_redactions_dropped() {
    let text = format!(
        "/home/user/result -> {}\n{{censored}} -> {}\nno separator here\n/run/current-system -> {}\n",
        store_path("a"),
        store_path("b"),
        store_path("c"),
    );
    let pairs = parse_roots_report(&text);
    assert_eq!(pairs.len(), 2);
    assert_eq!(pairs[0].0, "/home/user/result");
    assert_eq!(pairs[0].1, store_path("a"));
    assert_eq!(pairs[1].0, "/run/current-system");
    assert_eq!(pairs[1].1, store_path("c"));
}

#[test]
fn roots_report_splits_at_first_separator() {
    let pairs = parse_roots_report("a -> b -> c\n");
    assert_eq!(pairs.len(), 1);
    assert_eq!(pairs[0].0, "a");
    assert_eq!(pairs[0].1, "b -> c");
}
