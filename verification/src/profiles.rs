//! Profiles and their generations: discovery from a directory listing,
//! the ordered generation history, and the retention-marking policy.
//!
//! Ages are counted in whole seconds. The directory scan itself (listing
//! names, reading link ages and the profile's live link target) happens
//! outside; everything from the raw listing onward is here.
use vstd::prelude::*;

use crate::config::ConfigPreset;
use crate::config::PresetView;
use crate::pathstr::decimal_value;
use crate::pathstr::is_digit_string;
use crate::pathstr::parse_usize;
use crate::pathstr::starts_with_str;
use crate::pathstr::str_starts_with;

verus! {

/// One generation of a profile: a numbered, timestamped snapshot link.
/// The marker is the only mutable state: set and cleared by retention
/// marking, read by removal and reporting.
pub struct Generation {
    number: usize,
    path: String,
    profile_path: String,
    age: u64,
    marker: bool,
}

/// The mathematical shadow of a generation.
pub ghost struct GenView {
    pub number: usize,
    pub path: Seq<char>,
    pub profile_path: Seq<char>,
    pub age: u64,
    pub marker: bool,
}

impl View for Generation {
    type V = GenView;

    closed spec fn view(&self) -> GenView {
        GenView {
            number: self.number,
            path: self.path@,
            profile_path: self.profile_path@,
            age: self.age@,
            marker: self.marker,
        }
    }
}

/// The views of a sequence of generations.
pub open spec fn gen_views(s: Seq<Generation>) -> Seq<GenView> {
    s.map_values(|g: Generation| g@)
}

/// One entry of a profile directory listing, as the scan reports it: the
/// entry's bare file name, its full path, and the age in seconds of its
/// last modification.
pub struct GenDirEntry {
    /// The entry's file name, without the directory.
    pub file_name: String,
    /// The entry's full path.
    pub path: String,
    /// Seconds since the entry was last modified.
    pub age: u64,
}

/// The mathematical shadow of a listing entry.
pub ghost struct GenEntryView {
    pub file_name: Seq<char>,
    pub path: Seq<char>,
    pub age: u64,
}

impl View for GenDirEntry {
    type V = GenEntryView;

    open spec fn view(&self) -> GenEntryView {
        GenEntryView { file_name: self.file_name@, path: self.path@, age: self.age@ }
    }
}

/// The views of a sequence of listing entries.
pub open spec fn entry_views(s: Seq<GenDirEntry>) -> Seq<GenEntryView> {
    s.map_values(|e: GenDirEntry| e@)
}

/// The number part of a generation file name `<name>-<number>-link`:
/// the characters between the two fixed dashes, provided the name has
/// exactly that shape. `None` when the shape does not match.
pub open spec fn spec_gen_middle(file_name: Seq<char>, name: Seq<char>) -> Option<Seq<char>> {
    if !str_starts_with(file_name, name) {
        Option::None
    } else {
        let suffix = file_name.subrange(name.len() as int, file_name.len() as int);
        let shape_ok = {
            &&& suffix.len() >= 6
            &&& suffix[0] == '-'
            &&& suffix.subrange(suffix.len() - 5, suffix.len() as int) == "-link"@
            &&& forall|i: int| 1 <= i < suffix.len() - 5 ==> suffix[i] != '-'
        };
        if shape_ok {
            Option::Some(suffix.subrange(1, suffix.len() - 5))
        } else {
            Option::None
        }
    }
}

/// What parsing one listing entry as a generation of profile `name`
/// yields, if anything: the shape must match and the number must parse.
pub open spec fn spec_gen_of_entry(name: Seq<char>, e: GenEntryView) -> Option<GenView> {
    match spec_gen_middle(e.file_name, name) {
        Option::None => Option::None,
        Option::Some(mid) => {
            if is_digit_string(mid) && decimal_value(mid) <= usize::MAX {
                Option::Some(
                    GenView {
                        number: decimal_value(mid) as usize,
                        path: e.path,
                        profile_path: crate::pathstr::spec_join(
                            match crate::pathstr::spec_parent(e.path) {
                                Option::Some(p) => p,
                                Option::None => Seq::empty(),
                            },
                            name,
                        ),
                        age: e.age,
                        marker: false,
                    },
                )
            } else {
                Option::None
            }
        },
    }
}

impl Generation {
    /// Parse one listing entry as a generation of profile `name`. The
    /// entry's file name must read `<name>-<number>-link`; anything else
    /// is an error naming what went wrong. The entry's path must have a
    /// parent directory.
    pub fn from_entry(name: &str, entry: &GenDirEntry) -> (r: Result<Generation, String>)
        requires
            crate::pathstr::spec_parent(entry@.path) is Some,
        ensures
            match r {
                Result::Ok(g) => spec_gen_of_entry(name@, entry@) == Option::Some(g@),
                Result::Err(_) => spec_gen_of_entry(name@, entry@) is None,
            },
    {
        let fname = entry.file_name.as_str();
        if !starts_with_str(fname, name) {
            return Result::Err(
                String::from_str("Cannot create generation representation (missing profile prefix)"),
            );
        }
        let flen = fname.unicode_len();
        let nlen = name.unicode_len();
        let suffix = fname.substring_char(nlen, flen);
        let slen = flen - nlen;
        let ghost sfx = entry@.file_name.subrange(name@.len() as int, entry@.file_name.len() as int);
        proof {
            assert(suffix@ =~= sfx);
        }
        let shape_err = "Cannot create generation representation (malformed name)";
        if slen < 6 {
            return Result::Err(String::from_str(shape_err));
        }
        if suffix.get_char(0) != '-' {
            return Result::Err(String::from_str(shape_err));
        }
        let tail = suffix.substring_char(slen - 5, slen);
        proof {
            reveal_strlit("-link");
        }
        if !crate::pathstr::eq_str(tail, "-link") {
            proof {
                assert(!(sfx.subrange(sfx.len() - 5, sfx.len() as int) == "-link"@));
            }
            return Result::Err(String::from_str(shape_err));
        }
        let mut i: usize = 1;
        while i < slen - 5
            invariant
                1 <= i <= slen - 5,
                slen >= 6,
                slen == suffix@.len(),
                suffix@ == sfx,
                str_starts_with(entry@.file_name, name@),
                sfx == entry@.file_name.subrange(
                    name@.len() as int,
                    entry@.file_name.len() as int,
                ),
                sfx[0] == '-',
                sfx.subrange(sfx.len() - 5, sfx.len() as int) == "-link"@,
                forall|j: int| 1 <= j < i ==> sfx[j] != '-',
            decreases slen - 5 - i,
        {
            if suffix.get_char(i) == '-' {
                proof {
                    assert(sfx[i as int] == '-');
                    assert(!(forall|k: int| 1 <= k < sfx.len() - 5 ==> sfx[k] != '-'));
                    assert(spec_gen_middle(entry@.file_name, name@) is None);
                }
                return Result::Err(String::from_str(shape_err));
            }
            i = i + 1;
        }
        let middle = suffix.substring_char(1, slen - 5);
        proof {
            assert(middle@ =~= sfx.subrange(1, sfx.len() - 5));
            assert(spec_gen_middle(entry@.file_name, name@) == Option::Some(middle@));
        }
        let number = match parse_usize(middle) {
            Option::Some(n) => n,
            Option::None => {
                let mut e = String::from_str("Cannot parse \"");
                e.append(middle);
                e.append("\" as generation number");
                return Result::Err(e);
            },
        };
        let parent = match crate::pathstr::parent_of(entry.path.as_str()) {
            Option::Some(p) => p,
            Option::None => {
                // Unreachable: the entry's path has a parent.
                return Result::Err(String::from_str(shape_err));
            },
        };
        let profile_path = crate::pathstr::join_path(parent.as_str(), name);
        Result::Ok(
            Generation {
                number,
                path: entry.path.clone(),
                profile_path,
                age: entry.age,
                marker: false,
            },
        )
    }

    /// This generation's link path.
    pub fn path(&self) -> (r: &String)
        ensures
            r@ == self@.path,
    {
        &self.path
    }

    /// This generation's number within its profile.
    pub fn number(&self) -> (r: usize)
        ensures
            r == self@.number,
    {
        self.number
    }

    /// The path of the profile this generation belongs to.
    pub fn profile_path(&self) -> (r: &String)
        ensures
            r@ == self@.profile_path,
    {
        &self.profile_path
    }

    /// Seconds since this generation was created (last modified).
    pub fn age(&self) -> (r: u64)
        ensures
            r == self@.age,
    {
        self.age
    }

    /// Mark this generation for removal.
    pub fn mark(&mut self)
        ensures
            final(self)@ == (GenView { marker: true, ..old(self)@ }),
    {
        self.marker = true;
    }

    /// Clear this generation's removal mark.
    pub fn unmark(&mut self)
        ensures
            final(self)@ == (GenView { marker: false, ..old(self)@ }),
    {
        self.marker = false;
    }

    /// Whether this generation is marked for removal.
    pub fn marked(&self) -> (r: bool)
        ensures
            r == self@.marker,
    {
        self.marker
    }
}

/// Whether the generations are in ascending order of number.
pub open spec fn sorted_by_number(s: Seq<GenView>) -> bool {
    forall|i: int, j: int| 0 <= i < j < s.len() ==> (#[trigger] s[i]).number <= (#[trigger] s[j]).number
}

/// Sort generations by number, ascending, keeping exactly the same
/// generations.
pub fn sort_generations(v: &mut Vec<Generation>)
    ensures
        final(v)@.len() == old(v)@.len(),
        sorted_by_number(gen_views(final(v)@)),
        gen_views(final(v)@).to_multiset() == gen_views(old(v)@).to_multiset(),
{
    broadcast use vstd::seq_lib::group_to_multiset_ensures;

    let n = v.len();
    if n == 0 {
        return ;
    }
    let mut i: usize = 1;
    while i < n
        invariant
            1 <= i <= n,
            n == v@.len(),
            sorted_by_number(gen_views(v@.subrange(0, i as int))),
            gen_views(v@).to_multiset() == gen_views(old(v)@).to_multiset(),
        decreases n - i,
    {
        let mut j: usize = 0;
        while j < i && v[j].number <= v[i].number
            invariant
                j <= i < n,
                n == v@.len(),
                forall|k: int| 0 <= k < j ==> (#[trigger] v@[k])@.number <= v@[i as int]@.number,
            decreases i - j,
        {
            j = j + 1;
        }
        if j < i {
            let ghost pre = v@;
            let x = v.remove(i);
            let ghost mid = v@;
            v.insert(j, x);
            proof {
                assert(gen_views(mid) =~= gen_views(pre).remove(i as int));
                assert(gen_views(v@) =~= gen_views(mid).insert(j as int, x@));
                vstd::seq_lib::to_multiset_remove(gen_views(pre), i as int);
                vstd::seq_lib::to_multiset_insert(gen_views(mid), j as int, x@);
                assert(gen_views(pre).contains(x@));
                vstd::seq_lib::to_multiset_contains(gen_views(pre), x@);
                assert(gen_views(pre).to_multiset().remove(x@).insert(x@) =~= gen_views(
                    pre,
                ).to_multiset());
                assert(gen_views(v@).to_multiset() == gen_views(old(v)@).to_multiset());
                let cur = v@.subrange(0, i + 1);
                let prev = pre.subrange(0, i as int);
                assert forall|a2: int, b2: int|
                    0 <= a2 < b2 < prev.len() implies prev[a2]@.number <= prev[b2]@.number by {
                    assert(gen_views(prev)[a2] == prev[a2]@);
                    assert(gen_views(prev)[b2] == prev[b2]@);
                }
                assert forall|k: int| 0 <= k < j implies prev[k]@.number <= x@.number by {
                    assert(prev[k] == pre[k]);
                }
                assert(prev[j as int]@.number > x@.number);
                assert forall|a: int, b: int|
                    0 <= a < b < cur.len() implies (#[trigger] gen_views(cur)[a]).number <= (
                #[trigger] gen_views(cur)[b]).number by {
                    assert(gen_views(cur)[a] == cur[a]@);
                    assert(gen_views(cur)[b] == cur[b]@);
                    if a < j {
                        assert(cur[a] == prev[a]);
                    } else if a == j {
                        assert(cur[a] == x);
                    } else {
                        assert(cur[a] == prev[a - 1]);
                        assert(x@.number <= prev[a - 1]@.number);
                    }
                    if b < j {
                        assert(cur[b] == prev[b]);
                    } else if b == j {
                        assert(cur[b] == x);
                        if a < j {
                            assert(prev[a]@.number <= x@.number);
                        }
                    } else {
                        assert(cur[b] == prev[b - 1]);
                        if a == j {
                            assert(x@.number <= prev[b - 1]@.number) by {
                                if b - 1 > j {
                                    assert(prev[j as int]@.number <= prev[b - 1]@.number);
                                }
                            }
                        }
                    }
                }
            }
        } else {
            proof {
                let cur = v@.subrange(0, i + 1);
                let prev = v@.subrange(0, i as int);
                assert forall|a: int, b: int|
                    0 <= a < b < cur.len() implies (#[trigger] gen_views(cur)[a]).number <= (
                #[trigger] gen_views(cur)[b]).number by {
                    assert(gen_views(cur)[a] == cur[a]@);
                    assert(gen_views(cur)[b] == cur[b]@);
                    assert(cur[a] == v@[a]);
                    assert(cur[b] == v@[b]);
                    if b == i {
                        assert(v@[a]@.number <= v@[i as int]@.number);
                    } else {
                        assert(gen_views(prev)[a] == prev[a]@);
                        assert(gen_views(prev)[b] == prev[b]@);
                        assert(prev[a] == v@[a]);
                        assert(prev[b] == v@[b]);
                        assert(gen_views(prev)[a].number <= gen_views(prev)[b].number);
                    }
                }
            }
        }
        i = i + 1;
    }
    proof {
        assert(v@.subrange(0, n as int) =~= v@);
    }
}

/// The listing entries that belong to profile `name`: their file names
/// open with `<name>-`.
pub open spec fn spec_filtered_entries(name: Seq<char>, es: Seq<GenEntryView>) -> Seq<GenEntryView>
    decreases es.len(),
{
    if es.len() == 0 {
        Seq::empty()
    } else {
        spec_filtered_entries(name, es.drop_last()).add(
            if str_starts_with(es.last().file_name, name.push('-')) {
                seq![es.last()]
            } else {
                Seq::empty()
            },
        )
    }
}

proof fn lemma_filtered_prefix(name: Seq<char>, es: Seq<GenEntryView>, i: int)
    requires
        0 <= i <= es.len(),
    ensures
        spec_filtered_entries(name, es.subrange(0, i)).len() <= spec_filtered_entries(
            name,
            es,
        ).len(),
        forall|k: int|
            0 <= k < spec_filtered_entries(name, es.subrange(0, i)).len()
                ==> #[trigger] spec_filtered_entries(name, es)[k] == spec_filtered_entries(
                name,
                es.subrange(0, i),
            )[k],
    decreases es.len() - i,
{
    if i == es.len() {
        assert(es.subrange(0, i) =~= es);
    } else {
        lemma_filtered_prefix(name, es, i + 1);
        assert(es.subrange(0, i + 1).drop_last() =~= es.subrange(0, i));
        assert(es.subrange(0, i + 1).last() == es[i]);
    }
}

/// The generations a listing parses to, entry for entry, where every
/// matching entry parses.
pub open spec fn spec_parsed_gens(name: Seq<char>, es: Seq<GenEntryView>) -> Seq<GenView> {
    spec_filtered_entries(name, es).map_values(
        |e: GenEntryView| spec_gen_of_entry(name, e)->Some_0,
    )
}

/// Parse every listing entry that belongs to profile `name`, in order.
/// One malformed matching entry is a hard error for the whole listing:
/// the naming convention is assumed-valid store layout.
pub fn parse_generations(profile_name: &str, entries: &Vec<GenDirEntry>) -> (r: Result<
    Vec<Generation>,
    String,
>)
    requires
        forall|i: int|
            0 <= i < entries@.len() ==> crate::pathstr::spec_parent(
                (#[trigger] entries@[i])@.path,
            ) is Some,
    ensures
        match r {
            Result::Ok(v) => {
                let want = spec_filtered_entries(profile_name@, entry_views(entries@));
                &&& v@.len() == want.len()
                &&& forall|i: int|
                    0 <= i < v@.len() ==> spec_gen_of_entry(profile_name@, want[i])
                        == Option::Some((#[trigger] v@[i])@)
            },
            Result::Err(_) => exists|i: int|
                {
                    &&& 0 <= i < spec_filtered_entries(profile_name@, entry_views(entries@)).len()
                    &&& spec_gen_of_entry(
                        profile_name@,
                        #[trigger] spec_filtered_entries(profile_name@, entry_views(entries@))[i],
                    ) is None
                },
        },
{
    let ghost es = entry_views(entries@);
    let mut prefix = profile_name.to_owned();
    prefix.append("-");
    proof {
        reveal_strlit("-");
        assert(prefix@ =~= profile_name@.push('-'));
    }
    let n = entries.len();
    let mut out: Vec<Generation> = Vec::new();
    let mut i: usize = 0;
    proof {
        assert(es.subrange(0, 0) =~= Seq::<GenEntryView>::empty());
    }
    while i < n
        invariant
            i <= n,
            n == entries@.len(),
            es == entry_views(entries@),
            prefix@ == profile_name@.push('-'),
            forall|k: int|
                0 <= k < entries@.len() ==> crate::pathstr::spec_parent(
                    (#[trigger] entries@[k])@.path,
                ) is Some,
            out@.len() == spec_filtered_entries(profile_name@, es.subrange(0, i as int)).len(),
            forall|k: int|
                0 <= k < out@.len() ==> spec_gen_of_entry(
                    profile_name@,
                    spec_filtered_entries(profile_name@, es.subrange(0, i as int))[k],
                ) == Option::Some((#[trigger] out@[k])@),
        decreases n - i,
    {
        let ghost done = spec_filtered_entries(profile_name@, es.subrange(0, i as int));
        let ghost next = spec_filtered_entries(profile_name@, es.subrange(0, i + 1));
        proof {
            assert(es.subrange(0, i + 1).drop_last() =~= es.subrange(0, i as int));
            assert(es.subrange(0, i + 1).last() == es[i as int]);
        }
        let entry = &entries[i];
        if starts_with_str(entry.file_name.as_str(), prefix.as_str()) {
            proof {
                assert(next =~= done.push(es[i as int]));
            }
            match Generation::from_entry(profile_name, entry) {
                Result::Ok(g) => {
                    out.push(g);
                },
                Result::Err(e) => {
                    proof {
                        lemma_filtered_prefix(profile_name@, es, i + 1);
                        let want = spec_filtered_entries(profile_name@, es);
                        assert(want[done.len() as int] == es[i as int]);
                    }
                    return Result::Err(e);
                },
            }
        } else {
            proof {
                assert(next =~= done);
            }
        }
        i = i + 1;
    }
    proof {
        assert(es.subrange(0, n as int) =~= es);
    }
    Result::Ok(out)
}

/// A profile: a directory, a name, and the ordered history of its
/// generations, together with the path its live symlink points at.
pub struct Profile {
    parent: String,
    name: String,
    generations: Vec<Generation>,
    active_path: Option<String>,
}

/// The mathematical shadow of a profile.
pub ghost struct ProfileView {
    pub parent: Seq<char>,
    pub name: Seq<char>,
    pub generations: Seq<GenView>,
    pub active_path: Option<Seq<char>>,
}

impl View for Profile {
    type V = ProfileView;

    closed spec fn view(&self) -> ProfileView {
        ProfileView {
            parent: self.parent@,
            name: self.name@,
            generations: gen_views(self.generations@),
            active_path: match self.active_path {
                Option::Some(ref p) => Option::Some(p@),
                Option::None => Option::None,
            },
        }
    }
}

/// The index of the first generation whose link path is `target`.
pub open spec fn active_gen_index(gens: Seq<GenView>, target: Seq<char>) -> Option<int>
    decreases gens.len(),
{
    if gens.len() == 0 {
        Option::None
    } else if gens[0].path == target {
        Option::Some(0int)
    } else {
        match active_gen_index(gens.drop_first(), target) {
            Option::Some(k) => Option::Some(k + 1),
            Option::None => Option::None,
        }
    }
}

pub proof fn lemma_active_index_range(gens: Seq<GenView>, target: Seq<char>)
    ensures
        (match active_gen_index(gens, target) {
            Option::Some(k) => 0 <= k < gens.len() && gens[k].path == target,
            Option::None => forall|i: int| 0 <= i < gens.len() ==> (#[trigger] gens[i]).path
                != target,
        }),
    decreases gens.len(),
{
    if gens.len() > 0 && gens[0].path != target {
        lemma_active_index_range(gens.drop_first(), target);
        if active_gen_index(gens.drop_first(), target) is None {
            assert forall|i: int| 0 <= i < gens.len() implies (#[trigger] gens[i]).path
                != target by {
                if i > 0 {
                    assert(gens.drop_first()[i - 1] == gens[i]);
                }
            }
        } else {
            let k = active_gen_index(gens.drop_first(), target)->Some_0;
            assert(gens.drop_first()[k] == gens[k + 1]);
        }
    }
}

proof fn lemma_active_index_found(gens: Seq<GenView>, target: Seq<char>, i: int)
    requires
        0 <= i < gens.len(),
        gens[i].path == target,
        forall|j: int| 0 <= j < i ==> (#[trigger] gens[j]).path != target,
    ensures
        active_gen_index(gens, target) == Option::Some(i),
    decreases gens.len(),
{
    if i > 0 {
        assert(forall|j: int|
            0 <= j < gens.drop_first().len() ==> #[trigger] gens.drop_first()[j] == gens[j + 1]);
        lemma_active_index_found(gens.drop_first(), target, i - 1);
    }
}

/// The first generation in `gens` whose link path is `target`, if any.
fn find_active(gens: &Vec<Generation>, target: &str) -> (r: Option<usize>)
    ensures
        (match r {
            Option::Some(k) => active_gen_index(gen_views(gens@), target@) == Option::Some(k as int),
            Option::None => active_gen_index(gen_views(gens@), target@) is None,
        }),
{
    let n = gens.len();
    let mut i: usize = 0;
    while i < n
        invariant
            i <= n,
            n == gens@.len(),
            forall|j: int| 0 <= j < i ==> (#[trigger] gen_views(gens@)[j]).path != target@,
        decreases n - i,
    {
        if crate::pathstr::eq_str(gens[i].path.as_str(), target) {
            proof {
                assert(gen_views(gens@)[i as int].path == target@);
                lemma_active_index_found(gen_views(gens@), target@, i as int);
            }
            return Option::Some(i);
        }
        i = i + 1;
    }
    proof {
        lemma_active_index_range(gen_views(gens@), target@);
        if active_gen_index(gen_views(gens@), target@) is Some {
            let k = active_gen_index(gen_views(gens@), target@)->Some_0;
            assert(gen_views(gens@)[k].path == target@);
        }
    }
    Option::None
}

/// A generation's view with its marker replaced.
pub open spec fn with_marker(g: GenView, m: bool) -> GenView {
    GenView { marker: m, ..g }
}

/// Marking passes one to three, index-wise: mark what is at or beyond the
/// remove-older age; mark what lies beyond the keep-max most recent list
/// positions; then un-mark what is strictly below the keep-newer age.
pub open spec fn mark_by_criteria(g: GenView, cfg: PresetView, i: int, len: int) -> bool {
    let m1 = g.marker || (match cfg.remove_older {
        Option::Some(older) => g.age >= older,
        Option::None => false,
    });
    let m2 = m1 || (match cfg.keep_max {
        Option::Some(max) => i + max < len,
        Option::None => false,
    });
    m2 && !(match cfg.keep_newer {
        Option::Some(newer) => g.age < newer,
        Option::None => false,
    })
}

/// The mark of every generation after passes one to three.
pub open spec fn marks_after_criteria(gens: Seq<GenView>, cfg: PresetView) -> Seq<bool> {
    Seq::new(gens.len(), |i: int| mark_by_criteria(gens[i], cfg, i, gens.len() as int))
}

/// How many of positions `i..` are marked.
pub open spec fn count_marked_from(m: Seq<bool>, i: int) -> int
    decreases m.len() - i,
{
    if i < 0 || i >= m.len() {
        0int
    } else {
        (if m[i] {
            1int
        } else {
            0int
        }) + count_marked_from(m, i + 1)
    }
}

pub proof fn lemma_count_marked_bounds(m: Seq<bool>, i: int)
    requires
        0 <= i <= m.len(),
    ensures
        0 <= count_marked_from(m, i) <= m.len() - i,
    decreases m.len() - i,
{
    if i < m.len() {
        lemma_count_marked_bounds(m, i + 1);
    }
}

/// Pass four: keep-at-least-N spares the N most recent generations that
/// are still marked — a marked position stays marked only when at least
/// N marked positions follow it. The pass deliberately works on marked
/// generations, not list positions: sparing the most recent positions
/// outright would protect generations that no pass marked and leave the
/// marked ones to fall.
pub open spec fn marks_after_keep_min(m: Seq<bool>, keep_min: Option<usize>) -> Seq<bool> {
    match keep_min {
        Option::Some(min) => Seq::new(
            m.len(),
            |i: int| m[i] && count_marked_from(m, i + 1) >= min,
        ),
        Option::None => m,
    }
}

/// The marks the whole policy leaves: the three criteria passes, the
/// keep-at-least pass, then the safety floors — the most recent
/// generation and the active generation are unconditionally un-marked.
pub open spec fn final_marks(gens: Seq<GenView>, cfg: PresetView, active: Option<Seq<char>>) -> Seq<
    bool,
> {
    let m4 = marks_after_keep_min(marks_after_criteria(gens, cfg), cfg.keep_min);
    let m5 = Seq::new(m4.len(), |i: int| m4[i] && i != m4.len() - 1);
    match active {
        Option::Some(t) => match active_gen_index(gens, t) {
            Option::Some(k) => Seq::new(m5.len(), |i: int| m5[i] && i != k),
            Option::None => m5,
        },
        Option::None => m5,
    }
}

/// The most recent generation and the active generation are never marked,
/// whatever the configuration asks for: a profile must never lose all its
/// usable generations, and the active one must stay usable.
pub proof fn lemma_safety_floors(gens: Seq<GenView>, cfg: PresetView, active: Option<Seq<char>>)
    ensures
        gens.len() > 0 ==> !final_marks(gens, cfg, active)[gens.len() - 1],
        (match active {
            Option::Some(t) => match active_gen_index(gens, t) {
                Option::Some(k) => !final_marks(gens, cfg, active)[k],
                Option::None => true,
            },
            Option::None => true,
        }),
{
    match active {
        Option::Some(t) => {
            lemma_active_index_range(gens, t);
        },
        Option::None => {},
    }
}

/// Retention marking is monotonic at the keep-at-least step: with
/// keep-min configured, a generation is marked only if it would also be
/// marked without keep-min — the pass can spare generations that the
/// older-than or keep-at-most passes marked, never mark new ones.
pub proof fn lemma_keep_min_only_unmarks(
    gens: Seq<GenView>,
    cfg: PresetView,
    cfg_no_min: PresetView,
    active: Option<Seq<char>>,
)
    requires
        cfg_no_min == (PresetView { keep_min: Option::None, ..cfg }),
    ensures
        forall|i: int|
            0 <= i < gens.len() && #[trigger] final_marks(gens, cfg, active)[i] ==> final_marks(
                gens,
                cfg_no_min,
                active,
            )[i],
{
    assert(marks_after_criteria(gens, cfg) =~= marks_after_criteria(gens, cfg_no_min));
}

/// Set one generation's marker, leaving everything else in place.
fn set_marker(v: &mut Vec<Generation>, i: usize, m: bool)
    requires
        i < old(v)@.len(),
    ensures
        final(v)@.len() == old(v)@.len(),
        final(v)@[i as int]@ == with_marker(old(v)@[i as int]@, m),
        forall|j: int| 0 <= j < final(v)@.len() && j != i ==> final(v)@[j] == old(v)@[j],
{
    let g: &mut Generation = &mut v[i];
    if m {
        g.mark();
    } else {
        g.unmark();
    }
}

impl Profile {
    /// The profile's invariant: its generation history stands in ascending
    /// order of number. Constructors establish it; marking preserves it.
    pub open spec fn wf(&self) -> bool {
        sorted_by_number(self@.generations)
    }

    /// Assemble a profile from a scan of its parent directory: keep the
    /// entries named `<name>-<number>-link`, parse each, and order the
    /// generations by number. `active_target` is what the profile's own
    /// live symlink points at, when it could be read; resolved against
    /// the parent directory, it names the active generation.
    pub fn new(
        parent: String,
        name: String,
        entries: &Vec<GenDirEntry>,
        active_target: Option<&String>,
    ) -> (r: Result<Profile, String>)
        requires
            forall|i: int|
                0 <= i < entries@.len() ==> crate::pathstr::spec_parent(
                    (#[trigger] entries@[i])@.path,
                ) is Some,
        ensures
            (match r {
                Result::Ok(p) => {
                    let want = spec_filtered_entries(name@, entry_views(entries@));
                    &&& p.wf()
                    &&& p@.parent == parent@
                    &&& p@.name == name@
                    &&& sorted_by_number(p@.generations)
                    &&& p@.generations.len() == want.len()
                    &&& forall|i: int|
                        0 <= i < want.len() ==> spec_gen_of_entry(name@, #[trigger] want[i]) is Some
                    &&& p@.generations.to_multiset() == spec_parsed_gens(
                        name@,
                        entry_views(entries@),
                    ).to_multiset()
                    &&& p@.active_path == (match active_target {
                        Option::Some(t) => Option::Some(crate::pathstr::spec_join(parent@, t@)),
                        Option::None => Option::<Seq<char>>::None,
                    })
                },
                Result::Err(_) => exists|i: int|
                    {
                        &&& 0 <= i < spec_filtered_entries(name@, entry_views(entries@)).len()
                        &&& spec_gen_of_entry(
                            name@,
                            #[trigger] spec_filtered_entries(name@, entry_views(entries@))[i],
                        ) is None
                    },
            }),
    {
        let mut gens = match parse_generations(name.as_str(), entries) {
            Result::Ok(v) => v,
            Result::Err(e) => {
                return Result::Err(e);
            },
        };
        let ghost pre_vec = gens@;
        let ghost parsed = gen_views(gens@);
        proof {
            let want = spec_filtered_entries(name@, entry_views(entries@));
            assert forall|i: int| 0 <= i < want.len() implies spec_gen_of_entry(
                name@,
                #[trigger] want[i],
            ) is Some by {
                assert(spec_gen_of_entry(name@, want[i]) == Option::Some(pre_vec[i]@));
            }
        }
        sort_generations(&mut gens);
        let active_path = match active_target {
            Option::Some(t) => Option::Some(
                crate::pathstr::join_path(parent.as_str(), t.as_str()),
            ),
            Option::None => Option::None,
        };
        let p = Profile { parent, name, generations: gens, active_path };
        proof {
            let want = spec_filtered_entries(p@.name, entry_views(entries@));
            assert forall|i: int|
                0 <= i < parsed.len() implies #[trigger] spec_parsed_gens(
                p@.name,
                entry_views(entries@),
            )[i] == parsed[i] by {
                assert(spec_gen_of_entry(p@.name, want[i]) == Option::Some(pre_vec[i]@));
                assert(parsed[i] == pre_vec[i]@);
            }
            assert(parsed =~= spec_parsed_gens(p@.name, entry_views(entries@)));
        }
        Result::Ok(p)
    }

    /// Assemble a profile named by its full path: the path's last
    /// component is the profile name, the rest its parent directory.
    pub fn from_path(
        path: &str,
        entries: &Vec<GenDirEntry>,
        active_target: Option<&String>,
    ) -> (r: Result<Profile, String>)
        requires
            forall|i: int|
                0 <= i < entries@.len() ==> crate::pathstr::spec_parent(
                    (#[trigger] entries@[i])@.path,
                ) is Some,
        ensures
            (match r {
                Result::Ok(p) => {
                    &&& p.wf()
                    &&& crate::pathstr::spec_parent(path@) == Option::Some(p@.parent)
                    &&& p@.name == crate::pathstr::spec_file_name(path@)
                    &&& p@.name.len() > 0
                },
                Result::Err(_) => {
                    ||| crate::pathstr::spec_parent(path@) is None
                    ||| crate::pathstr::spec_file_name(path@).len() == 0
                    ||| exists|i: int|
                        {
                            &&& 0 <= i < spec_filtered_entries(
                                crate::pathstr::spec_file_name(path@),
                                entry_views(entries@),
                            ).len()
                            &&& spec_gen_of_entry(
                                crate::pathstr::spec_file_name(path@),
                                #[trigger] spec_filtered_entries(
                                    crate::pathstr::spec_file_name(path@),
                                    entry_views(entries@),
                                )[i],
                            ) is None
                        }
                },
            }),
    {
        let parent = match crate::pathstr::parent_of(path) {
            Option::Some(p) => p,
            Option::None => {
                let mut e = String::from_str("Unable to get parent for profile '");
                e.append(path);
                e.append("'");
                return Result::Err(e);
            },
        };
        let name = crate::pathstr::file_name_of(path);
        if name.as_str().unicode_len() == 0 {
            let mut e = String::from_str("Unable to retrieve profile name for profile '");
            e.append(path);
            e.append("'");
            return Result::Err(e);
        }
        Profile::new(parent, name, entries, active_target)
    }

    /// The profile's own path: its name under its parent directory.
    pub fn path(&self) -> (r: String)
        ensures
            r@ == crate::pathstr::spec_join(self@.parent, self@.name),
    {
        crate::pathstr::join_path(self.parent.as_str(), self.name.as_str())
    }

    /// The profile's generation history, ordered as discovered.
    pub fn generations(&self) -> (r: &Vec<Generation>)
        ensures
            gen_views(r@) == self@.generations,
    {
        &self.generations
    }

    /// The generation the profile's live symlink points at. An error when
    /// the link target was unreadable at discovery or no generation
    /// carries that path.
    pub fn active_generation(&self) -> (r: Result<&Generation, String>)
        ensures
            (match r {
                Result::Ok(g) => (match self@.active_path {
                    Option::Some(t) => (match active_gen_index(self@.generations, t) {
                        Option::Some(k) => g@ == self@.generations[k],
                        Option::None => false,
                    }),
                    Option::None => false,
                }),
                Result::Err(e) => e@ == "Cannot find current generation"@ && (
                match self@.active_path {
                    Option::Some(t) => active_gen_index(self@.generations, t) is None,
                    Option::None => true,
                }),
            }),
    {
        let target = match &self.active_path {
            Option::Some(t) => t,
            Option::None => {
                return Result::Err(String::from_str("Cannot find current generation"));
            },
        };
        match find_active(&self.generations, target.as_str()) {
            Option::Some(k) => {
                proof {
                    lemma_active_index_range(gen_views(self.generations@), target@);
                    assert(gen_views(self.generations@)[k as int] == self.generations@[k as int]@);
                }
                Result::Ok(&self.generations[k])
            },
            Option::None => Result::Err(String::from_str("Cannot find current generation")),
        }
    }

    /// Whether `generation` is the profile's active generation, compared
    /// by link path.
    pub fn is_active_generation(&self, generation: &Generation) -> (r: bool)
        ensures
            r == (match self@.active_path {
                Option::Some(t) => (match active_gen_index(self@.generations, t) {
                    Option::Some(k) => self@.generations[k].path == generation@.path,
                    Option::None => false,
                }),
                Option::None => false,
            }),
    {
        let active = match self.active_generation() {
            Result::Ok(g) => g,
            Result::Err(_) => {
                return false;
            },
        };
        crate::pathstr::eq_str(active.path.as_str(), generation.path.as_str())
    }

    /// Apply the retention-marking policy, in its fixed precedence order:
    /// mark at or beyond the remove-older age; mark beyond the keep-max
    /// most recent; un-mark strictly below the keep-newer age; spare the
    /// keep-min most recent still marked; and unconditionally un-mark the
    /// most recent generation and the active generation. Positive criteria
    /// win over negative ones, and the safety floors win over everything.
    pub fn apply_markers(&mut self, config: &ConfigPreset)
        ensures
            final(self)@.parent == old(self)@.parent,
            final(self)@.name == old(self)@.name,
            final(self)@.active_path == old(self)@.active_path,
            final(self)@.generations.len() == old(self)@.generations.len(),
            forall|i: int|
                0 <= i < final(self)@.generations.len() ==> #[trigger] final(self)@.generations[i]
                    == with_marker(
                    old(self)@.generations[i],
                    final_marks(old(self)@.generations, config@, old(self)@.active_path)[i],
                ),
            final(self)@.generations.len() > 0 ==> !final(self)@.generations.last().marker,
            (match old(self)@.active_path {
                Option::Some(t) => (match active_gen_index(old(self)@.generations, t) {
                    Option::Some(k) => !final(self)@.generations[k].marker,
                    Option::None => true,
                }),
                Option::None => true,
            }),
            old(self).wf() ==> final(self).wf(),
    {
        let ghost gens0 = gen_views(self.generations@);
        let ghost cfg = config@;
        let ghost active0 = self@.active_path;
        let len = self.generations.len();
        let ghost m3 = marks_after_criteria(gens0, cfg);

        // Passes one to three: per-index criteria.
        let mut i: usize = 0;
        while i < len
            invariant
                i <= len,
                len == self.generations@.len(),
                len == old(self).generations@.len(),
                gens0 == gen_views(old(self).generations@),
                m3 == marks_after_criteria(gens0, cfg),
                cfg == config@,
                self.parent == old(self).parent,
                self.name == old(self).name,
                self.active_path == old(self).active_path,
                forall|j: int|
                    i <= j < len ==> #[trigger] self.generations@[j] == old(self).generations@[j],
                forall|j: int|
                    0 <= j < i ==> #[trigger] self.generations@[j]@ == with_marker(
                        gens0[j],
                        m3[j],
                    ),
            decreases len - i,
        {
            let g = &self.generations[i];
            let age = g.age();
            let mut m = g.marked();
            if let Option::Some(older) = config.remove_older {
                if age >= older {
                    m = true;
                }
            }
            if let Option::Some(max) = config.keep_max {
                if max < len && i < len - max {
                    m = true;
                }
            }
            if let Option::Some(newer) = config.keep_newer {
                if age < newer {
                    m = false;
                }
            }
            proof {
                assert(gens0[i as int] == self.generations@[i as int]@);
                assert(m == mark_by_criteria(gens0[i as int], cfg, i as int, len as int));
            }
            set_marker(&mut self.generations, i, m);
            i = i + 1;
        }

        // Pass four: spare the keep-min most recent still-marked ones.
        let ghost m4 = marks_after_keep_min(m3, cfg.keep_min);
        if let Option::Some(min) = config.keep_min {
            let mut c: usize = 0;
            let mut i = len;
            proof {
                lemma_count_marked_bounds(m3, i as int);
            }
            while i > 0
                invariant
                    i <= len,
                    len == self.generations@.len(),
                    len == old(self).generations@.len(),
                    gens0 == gen_views(old(self).generations@),
                    m3 == marks_after_criteria(gens0, cfg),
                    m4 == marks_after_keep_min(m3, cfg.keep_min),
                    cfg == config@,
                    cfg.keep_min == Option::Some(min),
                    self.parent == old(self).parent,
                    self.name == old(self).name,
                    self.active_path == old(self).active_path,
                    c as int == count_marked_from(m3, i as int),
                    c <= len - i,
                    forall|j: int|
                        0 <= j < i ==> #[trigger] self.generations@[j]@ == with_marker(
                            gens0[j],
                            m3[j],
                        ),
                    forall|j: int|
                        i <= j < len ==> #[trigger] self.generations@[j]@ == with_marker(
                            gens0[j],
                            m4[j],
                        ),
                decreases i,
            {
                i = i - 1;
                let marked = self.generations[i].marked();
                proof {
                    assert(self.generations@[i as int]@ == with_marker(gens0[i as int], m3[i as int]));
                    assert(marked == m3[i as int]);
                }
                if marked {
                    if c < min {
                        set_marker(&mut self.generations, i, false);
                        proof {
                            assert(m4[i as int] == false);
                        }
                    } else {
                        proof {
                            assert(m4[i as int] == m3[i as int]);
                            assert(self.generations@[i as int]@ == with_marker(
                                gens0[i as int],
                                m4[i as int],
                            ));
                        }
                    }
                    c = c + 1;
                } else {
                    proof {
                        assert(m4[i as int] == false);
                        assert(self.generations@[i as int]@ == with_marker(
                            gens0[i as int],
                            m4[i as int],
                        ));
                    }
                }
            }
        } else {
            proof {
                assert(m4 == m3);
            }
        }

        // Safety floor: the most recent generation is never removed.
        let ghost m5 = Seq::new(m4.len(), |j: int| m4[j] && j != m4.len() - 1);
        if len > 0 {
            set_marker(&mut self.generations, len - 1, false);
        }
        proof {
            assert forall|j: int| 0 <= j < len implies #[trigger] self.generations@[j]@
                == with_marker(gens0[j], m5[j]) by {
                if j != len - 1 {
                    assert(self.generations@[j]@ == with_marker(gens0[j], m4[j]));
                }
            }
        }

        // Safety floor: the active generation is never removed.
        let active_idx: Option<usize> = match &self.active_path {
            Option::Some(t) => find_active(&self.generations, t.as_str()),
            Option::None => Option::None,
        };
        let ghost m6 = final_marks(gens0, cfg, active0);
        proof {
            // The scan ran over the partially re-marked list, whose paths
            // equal the original ones index for index.
            (match active0 {
                Option::Some(t) => {
                    assert forall|j: int| 0 <= j < len implies (#[trigger] gen_views(
                        self.generations@,
                    )[j]).path == gens0[j].path by {
                        assert(self.generations@[j]@ == with_marker(gens0[j], m5[j]));
                    }
                    lemma_active_same_paths(gen_views(self.generations@), gens0, t);
                },
                Option::None => {},
            });
        }
        if let Option::Some(k) = active_idx {
            proof {
                (match active0 {
                    Option::Some(t) => {
                        lemma_active_index_range(gens0, t);
                    },
                    Option::None => {},
                });
            }
            set_marker(&mut self.generations, k, false);
            proof {
                assert forall|j: int| 0 <= j < len implies #[trigger] self.generations@[j]@
                    == with_marker(gens0[j], m6[j]) by {
                    if j != k {
                        assert(self.generations@[j]@ == with_marker(gens0[j], m5[j]));
                    }
                }
            }
        } else {
            proof {
                assert(m6 =~= m5);
                assert(forall|j: int|
                    0 <= j < len ==> #[trigger] self.generations@[j]@ == with_marker(
                        gens0[j],
                        m5[j],
                    ));
            }
        }
        proof {
            lemma_safety_floors(gens0, cfg, active0);
            // Marking touches no number, so an ordered history stays ordered.
            if sorted_by_number(gens0) {
                assert forall|a: int, b: int|
                    0 <= a < b < len implies (#[trigger] gen_views(self.generations@)[a]).number
                    <= (#[trigger] gen_views(self.generations@)[b]).number by {
                    assert(gen_views(self.generations@)[a] == self.generations@[a]@);
                    assert(gen_views(self.generations@)[b] == self.generations@[b]@);
                    assert(self.generations@[a]@ == with_marker(gens0[a], m6[a]));
                    assert(self.generations@[b]@ == with_marker(gens0[b], m6[b]));
                    assert(gens0[a].number <= gens0[b].number);
                }
            }
        }
    }
}

/// Two generation lists with the same link paths index for index find the
/// same active generation.
proof fn lemma_active_same_paths(a: Seq<GenView>, b: Seq<GenView>, target: Seq<char>)
    requires
        a.len() == b.len(),
        forall|i: int| 0 <= i < a.len() ==> (#[trigger] a[i]).path == b[i].path,
    ensures
        active_gen_index(a, target) == active_gen_index(b, target),
    decreases a.len(),
{
    if a.len() > 0 && a[0].path != target {
        assert(forall|i: int|
            0 <= i < a.drop_first().len() ==> #[trigger] a.drop_first()[i] == a[i + 1]);
        assert(forall|i: int|
            0 <= i < b.drop_first().len() ==> #[trigger] b.drop_first()[i] == b[i + 1]);
        lemma_active_same_paths(a.drop_first(), b.drop_first(), target);
    }
}

} // verus!
