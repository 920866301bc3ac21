//! The hardlink-aware size calculator.
//!
//! A directory walk reports, for every regular file it reaches, the file's
//! device id, inode number and byte size; unreadable entries and entries
//! that are neither files nor directories contribute nothing and are
//! simply absent from the report. The computation on those reports lives
//! here: the naive total counts every file, the deduplicated total counts
//! each (device, inode) identity once, however many hardlinked names refer
//! to it and however the walks were batched. Totals saturate at `u64::MAX`.
use vstd::prelude::*;

use crate::pathstr::fmt_u64;
use crate::pathstr::spec_decimal;

verus! {

/// One regular file met during a walk: its identity and size.
#[derive(Clone, Copy, PartialEq, Eq, Structural, Debug)]
pub struct FileMeta {
    /// Device id of the filesystem holding the file.
    pub dev: u64,
    /// Inode number on that device.
    pub ino: u64,
    /// Size in bytes.
    pub size: u64,
}

/// The identity under which hardlinks coincide.
pub open spec fn file_key(f: FileMeta) -> (u64, u64) {
    (f.dev, f.ino)
}

/// Whether some file in `files` has identity `k`.
pub open spec fn has_key(files: Seq<FileMeta>, k: (u64, u64)) -> bool {
    exists|i: int| 0 <= i < files.len() && file_key(#[trigger] files[i]) == k
}

/// The sum of all file sizes, every occurrence counted.
pub open spec fn naive_sum(files: Seq<FileMeta>) -> int
    decreases files.len(),
{
    if files.len() == 0 {
        0int
    } else {
        naive_sum(files.drop_last()) + files.last().size
    }
}

/// The deduplicated sum: a file contributes its size only if no earlier
/// file shares its (device, inode) identity.
pub open spec fn dedup_sum(files: Seq<FileMeta>) -> int
    decreases files.len(),
{
    if files.len() == 0 {
        0int
    } else {
        dedup_sum(files.drop_last()) + if has_key(files.drop_last(), file_key(files.last())) {
            0int
        } else {
            files.last().size as int
        }
    }
}

/// A total clamped to what a `u64` can hold.
pub open spec fn sat_u64(v: int) -> int {
    if v > u64::MAX as int {
        u64::MAX as int
    } else {
        v
    }
}

pub proof fn lemma_naive_sum_nonneg(files: Seq<FileMeta>)
    ensures
        naive_sum(files) >= 0,
    decreases files.len(),
{
    if files.len() > 0 {
        lemma_naive_sum_nonneg(files.drop_last());
    }
}

pub proof fn lemma_dedup_sum_nonneg(files: Seq<FileMeta>)
    ensures
        dedup_sum(files) >= 0,
    decreases files.len(),
{
    if files.len() > 0 {
        lemma_dedup_sum_nonneg(files.drop_last());
    }
}

/// Another path to an already-seen inode adds nothing: the deduplicated
/// total counts the underlying content exactly once, however many
/// hardlinked paths refer to it.
pub proof fn lemma_hardlink_counted_once(files: Seq<FileMeta>, f: FileMeta)
    requires
        has_key(files, file_key(f)),
    ensures
        dedup_sum(files.push(f)) == dedup_sum(files),
{
    assert(files.push(f).drop_last() =~= files);
}

/// The first file met for each (device, inode) identity, in order.
pub open spec fn first_occurrences(files: Seq<FileMeta>) -> Seq<FileMeta>
    decreases files.len(),
{
    if files.len() == 0 {
        Seq::empty()
    } else {
        first_occurrences(files.drop_last()).add(
            if has_key(files.drop_last(), file_key(files.last())) {
                Seq::empty()
            } else {
                seq![files.last()]
            },
        )
    }
}

/// The deduplicated total is the plain sum over one representative per
/// inode identity: the underlying content counted exactly once, however
/// many paths in the walk refer to it.
pub proof fn lemma_dedup_is_sum_of_first_occurrences(files: Seq<FileMeta>)
    ensures
        dedup_sum(files) == naive_sum(first_occurrences(files)),
    decreases files.len(),
{
    if files.len() > 0 {
        let dl = files.drop_last();
        lemma_dedup_is_sum_of_first_occurrences(dl);
        if has_key(dl, file_key(files.last())) {
            assert(first_occurrences(files) =~= first_occurrences(dl));
        } else {
            assert(first_occurrences(files) =~= first_occurrences(dl).push(files.last()));
            assert(first_occurrences(dl).push(files.last()).drop_last() =~= first_occurrences(dl));
        }
    }
}

/// No two files share an inode.
pub open spec fn no_shared_inode(files: Seq<FileMeta>) -> bool {
    forall|i: int, j: int|
        0 <= i < j < files.len() ==> file_key(#[trigger] files[i]) != file_key(
            #[trigger] files[j],
        )
}

/// The naive total is never below the deduplicated total.
pub proof fn lemma_naive_ge_dedup(files: Seq<FileMeta>)
    ensures
        dedup_sum(files) <= naive_sum(files),
    decreases files.len(),
{
    if files.len() > 0 {
        lemma_naive_ge_dedup(files.drop_last());
    }
}

/// When no two files share an inode, the two totals coincide.
pub proof fn lemma_no_sharing_exact(files: Seq<FileMeta>)
    requires
        no_shared_inode(files),
    ensures
        dedup_sum(files) == naive_sum(files),
    decreases files.len(),
{
    if files.len() > 0 {
        let dl = files.drop_last();
        assert(forall|i: int| 0 <= i < dl.len() ==> dl[i] == files[i]);
        lemma_no_sharing_exact(dl);
        assert(!has_key(dl, file_key(files.last())));
    }
}

/// When every file has a positive size and the two totals coincide, no
/// two files share an inode. (A zero-sized hardlink pair would make the
/// totals coincide while sharing an inode, so positivity is needed.)
pub proof fn lemma_exact_implies_no_sharing(files: Seq<FileMeta>)
    requires
        forall|i: int| 0 <= i < files.len() ==> (#[trigger] files[i]).size > 0,
        dedup_sum(files) == naive_sum(files),
    ensures
        no_shared_inode(files),
    decreases files.len(),
{
    if files.len() > 0 {
        let dl = files.drop_last();
        let last = files.last();
        assert(forall|i: int| 0 <= i < dl.len() ==> dl[i] == files[i]);
        lemma_naive_ge_dedup(dl);
        if has_key(dl, file_key(last)) {
            assert(naive_sum(files) == naive_sum(dl) + last.size);
            assert(dedup_sum(files) == dedup_sum(dl));
            assert(false);
        } else {
            lemma_exact_implies_no_sharing(dl);
            assert forall|i: int, j: int|
                0 <= i < j < files.len() implies file_key(#[trigger] files[i]) != file_key(
                #[trigger] files[j],
            ) by {
                if j == files.len() - 1 {
                    assert(file_key(dl[i]) != file_key(last));
                }
            }
        }
    }
}

/// Files that share an inode identity report one size — true of every
/// real walk, where the size is the inode's.
pub open spec fn consistent_sizes(files: Seq<FileMeta>) -> bool {
    forall|i: int, j: int|
        0 <= i < files.len() && 0 <= j < files.len() && file_key(#[trigger] files[i]) == file_key(
            #[trigger] files[j],
        ) ==> files[i].size == files[j].size
}

proof fn lemma_has_key_push(s: Seq<FileMeta>, f: FileMeta, k: (u64, u64))
    ensures
        has_key(s.push(f), k) == (has_key(s, k) || file_key(f) == k),
{
    if has_key(s, k) {
        let j = choose|j: int| 0 <= j < s.len() && file_key(s[j]) == k;
        assert(file_key(s.push(f)[j]) == k);
    }
    if file_key(f) == k {
        assert(file_key(s.push(f)[s.len() as int]) == k);
    }
    if has_key(s.push(f), k) {
        let j = choose|j: int| 0 <= j < s.push(f).len() && file_key(s.push(f)[j]) == k;
        if j < s.len() {
            assert(file_key(s[j]) == k);
        }
    }
}

proof fn lemma_has_key_remove_other(s: Seq<FileMeta>, i: int, k: (u64, u64))
    requires
        0 <= i < s.len(),
        file_key(s[i]) != k,
    ensures
        has_key(s.remove(i), k) == has_key(s, k),
{
    if has_key(s, k) {
        let j = choose|j: int| 0 <= j < s.len() && file_key(s[j]) == k;
        if j < i {
            assert(file_key(s.remove(i)[j]) == k);
        } else {
            assert(file_key(s.remove(i)[j - 1]) == k);
        }
    }
    if has_key(s.remove(i), k) {
        let j = choose|j: int| 0 <= j < s.remove(i).len() && file_key(s.remove(i)[j]) == k;
        if j < i {
            assert(file_key(s[j]) == k);
        } else {
            assert(file_key(s[j + 1]) == k);
        }
    }
}

proof fn lemma_has_key_multiset(s1: Seq<FileMeta>, s2: Seq<FileMeta>, k: (u64, u64))
    requires
        s1.to_multiset() == s2.to_multiset(),
    ensures
        has_key(s1, k) == has_key(s2, k),
{
    if has_key(s1, k) {
        let j = choose|j: int| 0 <= j < s1.len() && file_key(s1[j]) == k;
        assert(s1.contains(s1[j]));
        vstd::seq_lib::to_multiset_contains(s1, s1[j]);
        vstd::seq_lib::to_multiset_contains(s2, s1[j]);
        assert(s2.contains(s1[j]));
        let l = choose|l: int| 0 <= l < s2.len() && s2[l] == s1[j];
        assert(file_key(s2[l]) == k);
    }
    if has_key(s2, k) {
        let j = choose|j: int| 0 <= j < s2.len() && file_key(s2[j]) == k;
        assert(s2.contains(s2[j]));
        vstd::seq_lib::to_multiset_contains(s2, s2[j]);
        vstd::seq_lib::to_multiset_contains(s1, s2[j]);
        assert(s1.contains(s2[j]));
        let l = choose|l: int| 0 <= l < s1.len() && s1[l] == s2[j];
        assert(file_key(s1[l]) == k);
    }
}

/// Taking one file out of a size-consistent report lowers the
/// deduplicated total by its size exactly when no other file shares its
/// inode.
proof fn lemma_dedup_remove_one(s: Seq<FileMeta>, i: int)
    requires
        consistent_sizes(s),
        0 <= i < s.len(),
    ensures
        dedup_sum(s) == dedup_sum(s.remove(i)) + (if has_key(s.remove(i), file_key(s[i])) {
            0int
        } else {
            s[i].size as int
        }),
    decreases s.len(),
{
    let dl = s.drop_last();
    let last = s.last();
    if i == s.len() - 1 {
        assert(s.remove(i) =~= dl);
    } else {
        assert(forall|a: int| 0 <= a < dl.len() ==> dl[a] == s[a]);
        assert(consistent_sizes(dl));
        lemma_dedup_remove_one(dl, i);
        assert(s.remove(i).drop_last() =~= dl.remove(i));
        assert(s.remove(i).last() == last);
        assert(dedup_sum(s.remove(i)) == dedup_sum(dl.remove(i)) + (if has_key(
            dl.remove(i),
            file_key(last),
        ) {
            0int
        } else {
            last.size as int
        }));
        if file_key(s[i]) != file_key(last) {
            lemma_has_key_remove_other(dl, i, file_key(last));
            assert(s.remove(i) =~= dl.remove(i).push(last));
            lemma_has_key_push(dl.remove(i), last, file_key(s[i]));
        } else {
            assert(s[i].size == last.size);
            assert(file_key(dl[i]) == file_key(last));
            assert(has_key(dl, file_key(last)));
            assert(s.remove(i) =~= dl.remove(i).push(last));
            lemma_has_key_push(dl.remove(i), last, file_key(s[i]));
            assert(has_key(s.remove(i), file_key(s[i])));
        }
    }
}

/// Over size-consistent reports the deduplicated total is a function of
/// the multiset of files alone: the order in which a walk reaches them —
/// and hence which of several hardlinked names is met first — cannot
/// change it.
pub proof fn lemma_dedup_order_irrelevant(a: Seq<FileMeta>, b: Seq<FileMeta>)
    requires
        consistent_sizes(a),
        a.to_multiset() == b.to_multiset(),
    ensures
        dedup_sum(a) == dedup_sum(b),
    decreases a.len(),
{
    broadcast use vstd::seq_lib::group_to_multiset_ensures;

    vstd::seq_lib::to_multiset_len(a);
    vstd::seq_lib::to_multiset_len(b);
    if a.len() == 0 {
        assert(b.len() == 0);
    } else {
        let x = a.last();
        assert(a.contains(x));
        vstd::seq_lib::to_multiset_contains(a, x);
        vstd::seq_lib::to_multiset_contains(b, x);
        assert(b.contains(x));
        let i = choose|i: int| 0 <= i < b.len() && b[i] == x;
        let dl = a.drop_last();
        assert(dl.push(x) =~= a);
        vstd::seq_lib::to_multiset_remove(b, i as int);
        assert(dl.to_multiset() =~= b.remove(i).to_multiset());
        assert(forall|p: int| 0 <= p < dl.len() ==> dl[p] == a[p]);
        assert(consistent_sizes(dl));
        lemma_dedup_order_irrelevant(dl, b.remove(i));
        assert forall|p: int, q: int|
            0 <= p < b.len() && 0 <= q < b.len() && file_key(#[trigger] b[p]) == file_key(
                #[trigger] b[q],
            ) implies b[p].size == b[q].size by {
            assert(b.contains(b[p]));
            assert(b.contains(b[q]));
            vstd::seq_lib::to_multiset_contains(b, b[p]);
            vstd::seq_lib::to_multiset_contains(b, b[q]);
            vstd::seq_lib::to_multiset_contains(a, b[p]);
            vstd::seq_lib::to_multiset_contains(a, b[q]);
            assert(a.contains(b[p]));
            assert(a.contains(b[q]));
            let ap = choose|ap: int| 0 <= ap < a.len() && a[ap] == b[p];
            let aq = choose|aq: int| 0 <= aq < a.len() && a[aq] == b[q];
            assert(a[ap].size == a[aq].size);
        }
        lemma_dedup_remove_one(b, i);
        lemma_has_key_multiset(dl, b.remove(i), file_key(x));
    }
}

/// Two batches of walks reach the same deduplicated total in either
/// order, provided hardlinked files report one size.
pub proof fn lemma_dedup_batch_order(a: Seq<FileMeta>, b: Seq<FileMeta>)
    requires
        consistent_sizes(a.add(b)),
    ensures
        dedup_sum(a.add(b)) == dedup_sum(b.add(a)),
{
    broadcast use vstd::multiset::group_multiset_axioms;

    vstd::seq_lib::lemma_multiset_commutative(a, b);
    vstd::seq_lib::lemma_multiset_commutative(b, a);
    assert(a.add(b).to_multiset() =~= b.add(a).to_multiset());
    lemma_dedup_order_irrelevant(a.add(b), b.add(a));
}

/// The naive size of one walked tree: the sizes of all its files summed,
/// saturating at `u64::MAX`.
pub fn dir_size_naive(files: &Vec<FileMeta>) -> (r: u64)
    ensures
        r as int == sat_u64(naive_sum(files@)),
{
    let n = files.len();
    let mut total: u64 = 0;
    let mut i: usize = 0;
    proof {
        assert(files@.subrange(0, 0) =~= Seq::<FileMeta>::empty());
    }
    while i < n
        invariant
            i <= n,
            n == files@.len(),
            total as int == sat_u64(naive_sum(files@.subrange(0, i as int))),
        decreases n - i,
    {
        let ghost prefix = files@.subrange(0, i as int);
        let ghost next = files@.subrange(0, i + 1);
        proof {
            assert(next.drop_last() =~= prefix);
            assert(next.last() == files@[i as int]);
            lemma_naive_sum_nonneg(prefix);
        }
        total = total.saturating_add(files[i].size);
        i = i + 1;
    }
    proof {
        assert(files@.subrange(0, n as int) =~= files@);
    }
    total
}

/// Whether identity `k` stands in the seen-inode table.
fn known_key(known: &Vec<(u64, u64)>, k: (u64, u64)) -> (r: bool)
    ensures
        r == known@.contains(k),
{
    let n = known.len();
    let mut i: usize = 0;
    while i < n
        invariant
            i <= n,
            n == known@.len(),
            forall|j: int| 0 <= j < i ==> known@[j] != k,
        decreases n - i,
    {
        if known[i].0 == k.0 && known[i].1 == k.1 {
            assert(known@[i as int] == k);
            return true;
        }
        i = i + 1;
    }
    false
}

/// Add one walk's files to a running deduplicated total. `known` is the
/// shared seen-inode table; checking and extending it is the dedup
/// decision point.
fn dedup_batch(
    files: &Vec<FileMeta>,
    known: &mut Vec<(u64, u64)>,
    total: u64,
    Ghost(done): Ghost<Seq<FileMeta>>,
) -> (r: u64)
    requires
        forall|k: (u64, u64)| #[trigger] old(known)@.contains(k) <==> has_key(done, k),
        total as int == sat_u64(dedup_sum(done)),
    ensures
        forall|k: (u64, u64)| #[trigger] final(known)@.contains(k) <==> has_key(
            done.add(files@),
            k,
        ),
        r as int == sat_u64(dedup_sum(done.add(files@))),
{
    let n = files.len();
    let mut total = total;
    let mut i: usize = 0;
    proof {
        assert(done.add(files@.subrange(0, 0)) =~= done);
    }
    while i < n
        invariant
            i <= n,
            n == files@.len(),
            forall|k: (u64, u64)| #[trigger] known@.contains(k) <==> has_key(
                done.add(files@.subrange(0, i as int)),
                k,
            ),
            total as int == sat_u64(dedup_sum(done.add(files@.subrange(0, i as int)))),
        decreases n - i,
    {
        let f = files[i];
        let ghost seen = done.add(files@.subrange(0, i as int));
        let ghost next = done.add(files@.subrange(0, i + 1));
        proof {
            assert(next.drop_last() =~= seen);
            assert(next.last() == files@[i as int]);
            lemma_dedup_sum_nonneg(seen);
        }
        let k = (f.dev, f.ino);
        if !known_key(known, k) {
            let ghost pre_known = known@;
            known.push(k);
            total = total.saturating_add(f.size);
            proof {
                assert forall|q: (u64, u64)| #[trigger] known@.contains(q) implies has_key(
                    next,
                    q,
                ) by {
                    if pre_known.contains(q) {
                        let l = choose|l: int| 0 <= l < seen.len() && file_key(seen[l]) == q;
                        assert(file_key(next[l]) == q);
                    } else {
                        assert(known@.last() == q);
                        assert(file_key(next[next.len() - 1]) == q);
                    }
                }
                assert forall|q: (u64, u64)| has_key(next, q) implies #[trigger] known@.contains(
                    q,
                ) by {
                    let l = choose|l: int| 0 <= l < next.len() && file_key(next[l]) == q;
                    if l < seen.len() {
                        assert(file_key(seen[l]) == q);
                        assert(pre_known.contains(q));
                        let m = choose|m: int| 0 <= m < pre_known.len() && pre_known[m] == q;
                        assert(known@[m] == q);
                    } else {
                        assert(q == k);
                        assert(known@.last() == q);
                    }
                }
            }
        } else {
            proof {
                assert(has_key(seen, file_key(files@[i as int])));
                assert forall|q: (u64, u64)| #[trigger] known@.contains(q) <==> has_key(
                    next,
                    q,
                ) by {
                    if known@.contains(q) {
                        let l = choose|l: int| 0 <= l < seen.len() && file_key(seen[l]) == q;
                        assert(file_key(next[l]) == q);
                    }
                    if has_key(next, q) {
                        let l = choose|l: int| 0 <= l < next.len() && file_key(next[l]) == q;
                        if l < seen.len() {
                            assert(file_key(seen[l]) == q);
                        } else {
                            assert(q == file_key(files@[i as int]));
                        }
                    }
                }
            }
        }
        i = i + 1;
    }
    proof {
        assert(done.add(files@.subrange(0, n as int)) =~= done.add(files@));
    }
    total
}

/// The deduplicated size of one walked tree: each (device, inode)
/// identity counted once, saturating at `u64::MAX`.
pub fn dir_size_considering_hardlinks(files: &Vec<FileMeta>) -> (r: u64)
    ensures
        r as int == sat_u64(dedup_sum(files@)),
{
    let mut known: Vec<(u64, u64)> = Vec::new();
    let r = dedup_batch(files, &mut known, 0, Ghost(Seq::empty()));
    proof {
        assert(Seq::empty().add(files@) =~= files@);
    }
    r
}

/// The flattened file reports of a batch of walks.
pub open spec fn flat_files(batches: Seq<Vec<FileMeta>>) -> Seq<FileMeta> {
    batches.map_values(|b: Vec<FileMeta>| b@).flatten()
}

/// The deduplicated size of a batch of walked trees, deduplicating
/// globally: an inode reached from several roots counts once for the
/// whole batch, exactly as if all walks were one. This is what keeps
/// overlapping closures from being double-counted.
pub fn dir_size_considering_hardlinks_all(batches: &Vec<Vec<FileMeta>>) -> (r: u64)
    ensures
        r as int == sat_u64(dedup_sum(flat_files(batches@))),
{
    let n = batches.len();
    let mut known: Vec<(u64, u64)> = Vec::new();
    let mut total: u64 = 0;
    let mut i: usize = 0;
    let ghost f = |b: Vec<FileMeta>| b@;
    proof {
        assert(batches@.subrange(0, 0).map_values(f).flatten() =~= Seq::<FileMeta>::empty());
    }
    while i < n
        invariant
            i <= n,
            n == batches@.len(),
            f == (|b: Vec<FileMeta>| b@),
            forall|k: (u64, u64)| #[trigger] known@.contains(k) <==> has_key(
                batches@.subrange(0, i as int).map_values(f).flatten(),
                k,
            ),
            total as int == sat_u64(dedup_sum(batches@.subrange(0, i as int).map_values(
                f,
            ).flatten())),
        decreases n - i,
    {
        let ghost done = batches@.subrange(0, i as int).map_values(f).flatten();
        total = dedup_batch(&batches[i], &mut known, total, Ghost(done));
        proof {
            let pre = batches@.subrange(0, i as int);
            let cur = batches@.subrange(0, i + 1);
            assert(cur.map_values(f).drop_last() =~= pre.map_values(f));
            pre.map_values(f).lemma_flatten_push(batches@[i as int]@);
            assert(cur.map_values(f) =~= pre.map_values(f).push(batches@[i as int]@));
            assert(cur.map_values(f).flatten() =~= done.add(batches@[i as int]@));
        }
        i = i + 1;
    }
    proof {
        assert(batches@.subrange(0, n as int) =~= batches@);
    }
    total
}

/// One entry of the device directory listing, as the scan reports it.
pub struct BlkDevEntry {
    /// The entry's bare name.
    pub name: String,
    /// Whether the entry is a block device.
    pub is_block_device: bool,
    /// The entry's raw device id.
    pub rdev: u64,
}

/// Whether a listing entry is the block device with id `id`.
pub open spec fn spec_blkdev_matches(e: BlkDevEntry, id: u64) -> bool {
    e.is_block_device && e.rdev == id
}

/// The complaint raised when no listed device carries the id.
pub open spec fn spec_no_blkdev_msg(id: u64) -> Seq<char> {
    "Could not find device for id "@.add(spec_decimal(id as nat))
}

/// The name of the block device with id `id`: the first listing entry
/// that is a block device and carries that raw device id. An error naming
/// the id when no entry does. The directory listing and each entry's
/// metadata come from outside; the selection happens here.
pub fn find_blkdev(entries: &Vec<BlkDevEntry>, id: u64) -> (r: Result<String, String>)
    ensures
        (match r {
            Result::Ok(name) => exists|i: int|
                {
                    &&& 0 <= i < entries@.len()
                    &&& spec_blkdev_matches(#[trigger] entries@[i], id)
                    &&& entries@[i].name@ == name@
                    &&& forall|j: int| 0 <= j < i ==> !spec_blkdev_matches(#[trigger] entries@[j], id)
                },
            Result::Err(e) => {
                &&& forall|i: int|
                    0 <= i < entries@.len() ==> !spec_blkdev_matches(#[trigger] entries@[i], id)
                &&& e@ == spec_no_blkdev_msg(id)
            },
        }),
{
    let n = entries.len();
    let mut i: usize = 0;
    while i < n
        invariant
            i <= n,
            n == entries@.len(),
            forall|j: int| 0 <= j < i ==> !spec_blkdev_matches(#[trigger] entries@[j], id),
        decreases n - i,
    {
        if entries[i].is_block_device && entries[i].rdev == id {
            return Result::Ok(entries[i].name.clone());
        }
        i = i + 1;
    }
    let mut e = String::from_str("Could not find device for id ");
    let num = fmt_u64(id);
    e.append(num.as_str());
    proof {
        assert(e@ =~= spec_no_blkdev_msg(id));
    }
    Result::Err(e)
}

} // verus!
