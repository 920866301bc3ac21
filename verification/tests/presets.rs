use nix_sweep::analyze::StoreAnalysis;
use nix_sweep::config::ConfigPreset;
use nix_sweep::gc::GCCommand;
use nix_sweep::gc::GIB;

fn preset() -> ConfigPreset {
    ConfigPreset {
        keep_min: None,
        keep_max: None,
        keep_newer: None,
        remove_older: None,
        generations: Vec::new(),
        interactive: None,
        _non_interactive: None,
        gc: None,
        gc_bigger: None,
        gc_quota: None,
        gc_modest: false,
    }
}

#[test]
fn validate_reports_crossed_bounds() {
    let mut p = preset();
    p.keep_min = Some(5);
    p.keep_max = Some(3);
    assert_eq!(
        p.validate().err().unwrap(),
        "Invalid configuration - keep-min is greater than keep-max"
    );
    let mut p = preset();
    p.keep_newer = Some(100);
    p.remove_older = Some(50);
    assert_eq!(
        p.validate().err().unwrap(),
        "Invalid configuration - keep-newer is greater than remove-older"
    );
    assert!(preset().validate().is_ok());
}

#[test]
fn override_values_win_and_zero_unsets() {
    let mut base = preset();
    base.keep_min = Some(2);
    base.keep_max = Some(9);
    base.gc = Some(false);
    let mut other = preset();
    other.keep_min = Some(4);
    other.keep_max = Some(0);
    other.gc = Some(true);
    other.gc_modest = true;
    let merged = base.override_with(&other);
    assert_eq!(merged.keep_min, Some(4));
    assert_eq!(merged.keep_max, None);
    assert_eq!(merged.gc, Some(true));
    assert!(merged.gc_modest);
}

#[test]
fn override_reconciles_crossed_bounds() {
    // The merged keep-min (kept from the base) crosses the keep-max the
    // other side set; the side the other left unset is pulled over.
    let mut base = preset();
    base.keep_min = Some(5);
    let mut other = preset();
    other.keep_max = Some(3);
    let merged = base.override_with(&other);
    assert_eq!(merged.keep_min, Some(3));
    assert_eq!(merged.keep_max, Some(3));
}

#[test]
fn load_unknown_preset_is_an_error() {
    let r = ConfigPreset::load("nightly", None, None, None);
    assert_eq!(r.err().unwrap(), "Could not find preset 'nightly'");
}

#[test]
fn load_default_without_sources() {
    let p = ConfigPreset::load("default", None, None, None).unwrap();
    assert_eq!(p.keep_min, Some(1));
    assert_eq!(p.keep_max, None);
    assert_eq!(p.remove_older, None);
}

#[test]
fn load_layers_sources_in_order() {
    let mut system = preset();
    system.keep_max = Some(10);
    system.remove_older = Some(100);
    let mut user = preset();
    user.keep_max = Some(5);
    let p = ConfigPreset::load("default", Some(&system), Some(&user), None).unwrap();
    assert_eq!(p.keep_max, Some(5));
    assert_eq!(p.remove_older, Some(100));
    assert_eq!(p.keep_min, Some(1));
}

#[test]
fn gc_threshold_and_quota() {
    assert!(GCCommand::bigger_threshold_met(3 * GIB, 2));
    assert!(!GCCommand::bigger_threshold_met(2 * GIB, 2));
    assert_eq!(GCCommand::quota_percentage(700, 1000), 70);
}

#[test]
fn gc_max_freed() {
    let plain = GCCommand::new(true, false, Some(2), None, false);
    assert_eq!(plain.max_freed(3 * GIB, None).unwrap(), None);

    let modest_bigger = GCCommand::new(true, false, Some(2), None, true);
    assert_eq!(
        modest_bigger.max_freed(3 * GIB, None).unwrap(),
        Some(GIB)
    );

    let modest_quota = GCCommand::new(true, false, None, Some(50), true);
    assert_eq!(
        modest_quota.max_freed(700, Some(1000)).unwrap(),
        Some(200)
    );

    let modest_bare = GCCommand::new(true, false, None, None, true);
    assert_eq!(
        modest_bare.max_freed(700, None).err().unwrap(),
        "Cannot use --modest without --bigger or --quota being"
    );
}

#[test]
fn reported_store_size_is_the_smaller_measurement() {
    let analysis = StoreAnalysis {
        nstore_paths: 10,
        ndrv_paths: 2,
        ndrv_closure: 5,
        store_size_naive: 1500,
        store_size_hl: 1200,
        drv_size: 100,
        drv_closure_size: 400,
        journal_size: None,
        blkdev_info: None,
    };
    assert_eq!(analysis.store_size(), 1200);
}
