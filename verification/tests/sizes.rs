use nix_sweep::files::dir_size_considering_hardlinks;
use nix_sweep::files::dir_size_considering_hardlinks_all;
use nix_sweep::files::dir_size_naive;
use nix_sweep::files::FileMeta;

fn f(dev: u64, ino: u64, size: u64) -> FileMeta {
    FileMeta { dev, ino, size }
}

#[test]
fn naive_sums_every_file() {
    let files = vec![f(1, 1, 100), f(1, 2, 50), f(1, 1, 100)];
    assert_eq!(dir_size_naive(&files), 250);
}

#[test]
fn naive_saturates() {
    let files = vec![f(1, 1, u64::MAX), f(1, 2, 5)];
    assert_eq!(dir_size_naive(&files), u64::MAX);
}

#[test]
fn hardlinks_counted_once() {
    // Three names for one inode: counted exactly once.
    let files = vec![f(7, 42, 100), f(7, 42, 100), f(7, 42, 100)];
    assert_eq!(dir_size_considering_hardlinks(&files), 100);
}

#[test]
fn same_inode_on_other_device_is_distinct() {
    let files = vec![f(7, 42, 100), f(8, 42, 100)];
    assert_eq!(dir_size_considering_hardlinks(&files), 200);
}

#[test]
fn batch_dedups_globally_across_roots() {
    // The same inode reached from two separate root walks counts once for
    // the whole batch.
    let batches = vec![
        vec![f(1, 10, 100), f(1, 11, 30)],
        vec![f(1, 10, 100), f(1, 12, 5)],
    ];
    assert_eq!(dir_size_considering_hardlinks_all(&batches), 135);
}

#[test]
fn batch_equals_single_walk_over_all_files() {
    let all = vec![f(1, 1, 10), f(1, 2, 20), f(1, 1, 10), f(1, 3, 5)];
    let split = vec![
        vec![f(1, 1, 10), f(1, 2, 20)],
        vec![f(1, 1, 10), f(1, 3, 5)],
    ];
    assert_eq!(
        dir_size_considering_hardlinks(&all),
        dir_size_considering_hardlinks_all(&split)
    );
}

#[test]
fn naive_at_least_dedup_equal_without_sharing() {
    let shared = vec![f(1, 1, 10), f(1, 1, 10)];
    assert!(dir_size_naive(&shared) > dir_size_considering_hardlinks(&shared));
    let distinct = vec![f(1, 1, 10), f(1, 2, 10)];
    assert_eq!(dir_size_naive(&distinct), dir_size_considering_hardlinks(&distinct));
}

#[test]
fn empty_walk_is_zero() {
    let none: Vec<FileMeta> = Vec::new();
    assert_eq!(dir_size_naive(&none), 0);
    assert_eq!(dir_size_considering_hardlinks(&none), 0);
}

#[test]
fn walk_order_cannot_change_the_dedup_total() {
    // The same files met in another order — another hardlinked name first —
    // give the same deduplicated total.
    let one_way = vec![f(1, 1, 10), f(1, 2, 20), f(1, 1, 10)];
    let other_way = vec![f(1, 1, 10), f(1, 1, 10), f(1, 2, 20)];
    assert_eq!(
        dir_size_considering_hardlinks(&one_way),
        dir_size_considering_hardlinks(&other_way)
    );
    let x = vec![f(2, 5, 7)];
    let y = vec![f(2, 5, 7), f(2, 6, 1)];
    assert_eq!(
        dir_size_considering_hardlinks_all(&vec![x.clone(), y.clone()]),
        dir_size_considering_hardlinks_all(&vec![y, x])
    );
}

#[test]
fn shared_dependency_counted_once_across_closures() {
    // Two store entries whose closures share a dependency: batching the
    // two closures' files dedups the shared entry's bytes.
    let entry_a = vec![f(1, 100, 1000)];
    let dep_d = vec![f(1, 300, 7777)];
    let entry_b = vec![f(1, 200, 2000)];
    let closure_a: Vec<Vec<FileMeta>> = vec![entry_a.clone(), dep_d.clone()];
    let closure_b: Vec<Vec<FileMeta>> = vec![entry_b.clone(), dep_d.clone()];
    let mut combined = closure_a.clone();
    combined.extend(closure_b.clone());
    let total = dir_size_considering_hardlinks_all(&combined);
    assert_eq!(total, 1000 + 2000 + 7777);
    // Counted separately, the shared dependency would be counted twice.
    let separate = dir_size_considering_hardlinks_all(&closure_a)
        + dir_size_considering_hardlinks_all(&closure_b);
    assert_eq!(separate, total + 7777);
}
