use nix_sweep::cache::Cache;
use nix_sweep::store::chunk_paths;
use nix_sweep::store::closure_cache_key;
use nix_sweep::store::count_closure_paths;
use nix_sweep::store::parse_requisites_output;
use nix_sweep::store::parse_store_paths_lenient;
use nix_sweep::store::union_closures;
use nix_sweep::store::valid_store_paths;
use nix_sweep::store::ClosureCache;
use nix_sweep::store::Store;
use nix_sweep::store::StorePath;

const HASH: &str = "aaaaaaaaaaaaaaaaaaaaaaaaaaaaaaaa";

fn store_path(name: &str) -> String {
    format!("/nix/store/{}-{}", HASH, name)
}

fn sp(name: &str) -> StorePath {
    StorePath::new(store_path(name)).unwrap()
}

#[test]
fn valid_path_accepted() {
    assert!(Store::is_valid_path(&store_path("hello-1.0")));
}

#[test]
fn path_outside_store_rejected() {
    assert!(!Store::is_valid_path(&format!("/nix/storex/{}-x", HASH)));
    assert!(!Store::is_valid_path(&format!("/tmp/{}-x", HASH)));
}

#[test]
fn short_or_bare_hash_rejected() {
    // The name must be longer than the 32-character hash alone.
    assert!(!Store::is_valid_path(&format!("/nix/store/{}", HASH)));
    assert!(!Store::is_valid_path("/nix/store/abc"));
}

#[test]
fn uppercase_hash_rejected() {
    let bad = format!("/nix/store/A{}-x", &HASH[1..]);
    assert!(!Store::is_valid_path(&bad));
}

#[test]
fn store_root_itself_rejected() {
    assert!(!Store::is_valid_path("/nix/store"));
}

#[test]
fn invalid_path_error_message() {
    let e = StorePath::new("/tmp/foo".to_string()).err().unwrap();
    assert_eq!(e, "'/tmp/foo' is not a valid nix store path");
}

#[test]
fn store_path_accessors() {
    let p = sp("pkg");
    assert_eq!(p.path(), &store_path("pkg"));
    assert!(!p.is_drv());
    assert!(sp("pkg.drv").is_drv());
}

#[test]
fn listing_is_validated_and_deduplicated() {
    let names = vec![
        store_path("a"),
        "/nix/store/junk".to_string(),
        store_path("a"),
        store_path("b"),
    ];
    let paths = valid_store_paths(&names);
    let got: Vec<&String> = paths.iter().map(|p| p.path()).collect();
    assert_eq!(got, vec![&store_path("a"), &store_path("b")]);
}

#[test]
fn requisites_output_parsed() {
    let text = format!("{}\n{}\n", store_path("a"), store_path("b"));
    let parsed = parse_requisites_output(&text).unwrap();
    assert_eq!(parsed.len(), 2);
    assert_eq!(parsed[0].path(), &store_path("a"));
    assert_eq!(parsed[1].path(), &store_path("b"));
}

#[test]
fn requisites_output_without_final_newline() {
    let text = format!("{}\n{}", store_path("a"), store_path("b"));
    assert_eq!(parse_requisites_output(&text).unwrap().len(), 2);
}

#[test]
fn empty_requisites_output_is_empty_closure() {
    assert_eq!(parse_requisites_output("").unwrap().len(), 0);
}

#[test]
fn bad_requisites_line_is_an_error() {
    let text = format!("{}\nnot-a-store-path\n", store_path("a"));
    let e = parse_requisites_output(&text).err().unwrap();
    assert_eq!(e, "'not-a-store-path' is not a valid nix store path");
}

#[test]
fn lenient_parse_drops_bad_lines() {
    let text = format!("{}\nnot-a-store-path\n{}\n", store_path("a"), store_path("b"));
    let parsed = parse_store_paths_lenient(&text);
    assert_eq!(parsed.len(), 2);
    assert_eq!(parsed[0].path(), &store_path("a"));
    assert_eq!(parsed[1].path(), &store_path("b"));
}

#[test]
fn chunking_preserves_order_and_bounds() {
    let paths: Vec<StorePath> =
        vec![sp("a"), sp("b"), sp("c"), sp("d"), sp("e")];
    let chunks = chunk_paths(&paths, 2);
    assert_eq!(chunks.len(), 3);
    assert_eq!(chunks[0].len(), 2);
    assert_eq!(chunks[1].len(), 2);
    assert_eq!(chunks[2].len(), 1);
    let flat: Vec<&String> = chunks.iter().flatten().map(|p| p.path()).collect();
    let orig: Vec<&String> = paths.iter().map(|p| p.path()).collect();
    assert_eq!(flat, orig);
}

#[test]
fn union_is_order_independent_on_output() {
    // closure({a, b}) equals closure({a}) united with closure({b}),
    // whatever the grouping and order of the parts.
    let combined = vec![vec![sp("a"), sp("d"), sp("b")]];
    let split = vec![vec![sp("b"), sp("d")], vec![sp("a"), sp("d")]];
    let mut u1: Vec<String> =
        union_closures(&combined).iter().map(|p| p.path().clone()).collect();
    let mut u2: Vec<String> =
        union_closures(&split).iter().map(|p| p.path().clone()).collect();
    u1.sort();
    u2.sort();
    assert_eq!(u1, u2);
}

#[test]
fn union_removes_duplicates() {
    let closures = vec![vec![sp("a"), sp("b")], vec![sp("b"), sp("a")]];
    assert_eq!(union_closures(&closures).len(), 2);
}

#[test]
fn counting_shared_closure_entries() {
    let closures = vec![
        vec![sp("a"), sp("d")],
        vec![sp("b"), sp("d")],
        vec![sp("d")],
    ];
    let counts = count_closure_paths(&closures);
    let mut found_d = 0;
    for (p, c) in &counts {
        if p.path() == &store_path("d") {
            found_d = *c;
        } else {
            assert_eq!(*c, 1);
        }
    }
    assert_eq!(found_d, 3);
    assert_eq!(counts.len(), 3);
}

#[test]
fn cache_key_depends_on_the_list_alone() {
    let a1 = vec![sp("a"), sp("b")];
    let a2 = vec![sp("a"), sp("b")];
    assert_eq!(closure_cache_key(&a1), closure_cache_key(&a2));
    let reversed = vec![sp("b"), sp("a")];
    assert_ne!(closure_cache_key(&a1), closure_cache_key(&reversed));
}

#[test]
fn closure_cache_answers_repeat_queries() {
    // A resolver that consults the cache first asks the collaborator once
    // per distinct input list.
    let mut cache = ClosureCache::new();
    let inputs = vec![sp("a")];
    let mut collaborator_calls = 0;
    for _ in 0..3 {
        if cache.lookup(&inputs).is_none() {
            collaborator_calls += 1;
            let resolved = vec![sp("a"), sp("d")];
            cache.insert(&inputs, resolved);
        }
        let hit = cache.lookup(&inputs).unwrap();
        assert_eq!(hit.len(), 2);
    }
    assert_eq!(collaborator_calls, 1);
}

#[test]
fn generic_cache_round_trip() {
    let mut cache: Cache<u64> = Cache::new();
    assert!(cache.lookup(7).is_none());
    cache.insert(7, 700);
    cache.insert(9, 900);
    assert_eq!(*cache.lookup(7).unwrap(), 700);
    assert_eq!(*cache.lookup(9).unwrap(), 900);
    cache.insert(7, 701);
    assert_eq!(*cache.lookup(7).unwrap(), 701);
    assert_eq!(cache.len(), 2);
}
