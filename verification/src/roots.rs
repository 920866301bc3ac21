//! Garbage-collection roots: anchors that keep store entries alive.
//!
//! Discovery (walking the roots directory or querying the store tool) is
//! I/O and happens outside; classifying a root by its link path, filtering
//! a batch of discovered roots, deriving profile paths from profile roots,
//! and parsing the store tool's roots report all live here. Ages are in
//! seconds; a root's age or resolution may each have failed, and carries
//! the failure text then.
use vstd::prelude::*;

use crate::pathstr::is_dec_digit;
use crate::pathstr::lex_leq;
use crate::pathstr::sort_strings;
use crate::pathstr::string_views;
use crate::pathstr::parent_of;
use crate::pathstr::path_ends_with;
use crate::pathstr::path_has_prefix;
use crate::pathstr::path_has_suffix;
use crate::pathstr::path_starts_with;
use crate::pathstr::spec_parent;
use crate::pathstr::str_ends_with;
use crate::store::StorePath;

verus! {

/// One discovered garbage-collection root: where its link stands, a
/// best-effort age, and the store entry it resolves to — or, for each of
/// the two, the failure met when reading it.
pub struct GCRoot {
    link: String,
    age: Result<u64, String>,
    store_path: Result<StorePath, String>,
}

/// The mathematical shadow of a root.
pub ghost struct RootView {
    pub link: Seq<char>,
    pub age: Result<u64, Seq<char>>,
    pub store_path: Result<Seq<char>, Seq<char>>,
}

impl View for GCRoot {
    type V = RootView;

    closed spec fn view(&self) -> RootView {
        RootView {
            link: self.link@,
            age: match self.age {
                Result::Ok(a) => Result::Ok(a),
                Result::Err(ref e) => Result::Err(e@),
            },
            store_path: match self.store_path {
                Result::Ok(ref sp) => Result::Ok(sp@),
                Result::Err(ref e) => Result::Err(e@),
            },
        }
    }
}

/// A root's link never stands at the filesystem root itself.
pub open spec fn root_wf(v: RootView) -> bool {
    spec_parent(v.link) is Some
}

/// A profile-owned root: its parent directory is a known profile
/// directory.
pub open spec fn spec_is_profile(v: RootView) -> bool {
    match spec_parent(v.link) {
        Option::Some(parent) => path_starts_with(parent, "/nix/var/nix/profiles"@)
            || path_ends_with(parent, ".local/state/nix/profiles"@),
        Option::None => false,
    }
}

/// A "current system" root: one of the well-known active-system links.
pub open spec fn spec_is_current(v: RootView) -> bool {
    ||| path_starts_with(v.link, "/run/current-system"@)
    ||| path_starts_with(v.link, "/run/booted-system"@)
    ||| path_ends_with(v.link, "home-manager/gcroots/current-home"@)
    ||| path_ends_with(v.link, "nix/flake-registry.json"@)
}

/// A process-owned root: it lives under the process pseudo-filesystem.
pub open spec fn spec_is_proc(v: RootView) -> bool {
    path_starts_with(v.link, "/proc"@)
}

/// Whether this root's store entry resolved.
pub open spec fn spec_is_accessible(v: RootView) -> bool {
    v.store_path is Ok
}

impl GCRoot {
    /// Assemble a discovered root from what the scan read: the link
    /// location, its age if the metadata was readable, and the store
    /// entry its target resolved to, if it did.
    pub fn new(link: String, age: Result<u64, String>, store_path: Result<StorePath, String>) -> (r:
        GCRoot)
        requires
            spec_parent(link@) is Some,
        ensures
            r@.link == link@,
            root_wf(r@),
            r@.age == (match age {
                Result::Ok(a) => Result::<u64, Seq<char>>::Ok(a),
                Result::Err(e) => Result::<u64, Seq<char>>::Err(e@),
            }),
            r@.store_path == (match store_path {
                Result::Ok(sp) => Result::<Seq<char>, Seq<char>>::Ok(sp@),
                Result::Err(e) => Result::<Seq<char>, Seq<char>>::Err(e@),
            }),
    {
        GCRoot { link, age, store_path }
    }

    /// Where this root's link stands.
    pub fn link(&self) -> (r: &String)
        ensures
            r@ == self@.link,
    {
        &self.link
    }

    /// The store entry this root resolved to, or why it did not.
    pub fn store_path(&self) -> (r: Result<&StorePath, &String>)
        ensures
            (match r {
                Result::Ok(sp) => self@.store_path == Result::<Seq<char>, Seq<char>>::Ok(sp@),
                Result::Err(e) => self@.store_path == Result::<Seq<char>, Seq<char>>::Err(e@),
            }),
    {
        match &self.store_path {
            Result::Ok(sp) => Result::Ok(sp),
            Result::Err(e) => Result::Err(e),
        }
    }

    /// Whether this root's store entry resolved.
    pub fn is_accessible(&self) -> (r: bool)
        ensures
            r == spec_is_accessible(self@),
    {
        self.store_path.is_ok()
    }

    /// Whether this root is profile-owned, by its link's parent directory.
    pub fn is_profile(&self) -> (r: bool)
        requires
            root_wf(self@),
        ensures
            r == spec_is_profile(self@),
    {
        let parent = match parent_of(self.link.as_str()) {
            Option::Some(p) => p,
            Option::None => {
                return false;
            },
        };
        path_has_prefix(parent.as_str(), "/nix/var/nix/profiles") || path_has_suffix(
            parent.as_str(),
            ".local/state/nix/profiles",
        )
    }

    /// Whether this root is one of the well-known "current system" links.
    pub fn is_current(&self) -> (r: bool)
        ensures
            r == spec_is_current(self@),
    {
        path_has_prefix(self.link.as_str(), "/run/current-system") || path_has_prefix(
            self.link.as_str(),
            "/run/booted-system",
        ) || path_has_suffix(self.link.as_str(), "home-manager/gcroots/current-home")
            || path_has_suffix(self.link.as_str(), "nix/flake-registry.json")
    }

    /// Whether this root is held by a running process.
    pub fn is_proc(&self) -> (r: bool)
        ensures
            r == spec_is_proc(self@),
    {
        path_has_prefix(self.link.as_str(), "/proc")
    }

    /// A root owned by nothing known: the only kind eligible for
    /// unsupervised removal.
    pub fn is_independent(&self) -> (r: bool)
        requires
            root_wf(self@),
        ensures
            r == (!spec_is_profile(self@) && !spec_is_current(self@) && !spec_is_proc(self@)),
    {
        !self.is_profile() && !self.is_current() && !self.is_proc()
    }

    /// Seconds since this root's link last changed, or why that is unknown.
    pub fn age(&self) -> (r: Result<&u64, &String>)
        ensures
            (match r {
                Result::Ok(a) => self@.age == Result::<u64, Seq<char>>::Ok(*a),
                Result::Err(e) => self@.age == Result::<u64, Seq<char>>::Err(e@),
            }),
    {
        match &self.age {
            Result::Ok(a) => Result::Ok(a),
            Result::Err(e) => Result::Err(e),
        }
    }
}

/// Whether one root passes the filter: profile-owned, current and
/// inaccessible roots only when asked for, and age bounds only where the
/// age is known.
pub open spec fn spec_keep_root(
    v: RootView,
    include_profiles: bool,
    include_current: bool,
    include_inaccessible: bool,
    older: Option<u64>,
    newer: Option<u64>,
) -> bool {
    &&& (include_profiles || !spec_is_profile(v))
    &&& (include_current || !spec_is_current(v))
    &&& (include_inaccessible || spec_is_accessible(v))
    &&& (match older {
        Option::Some(o) => (match v.age {
            Result::Ok(a) => a > o,
            Result::Err(_) => true,
        }),
        Option::None => true,
    })
    &&& (match newer {
        Option::Some(nw) => (match v.age {
            Result::Ok(a) => a <= nw,
            Result::Err(_) => true,
        }),
        Option::None => true,
    })
}

/// The roots of `s` that pass the filter, in order.
pub open spec fn spec_filtered_roots(
    s: Seq<GCRoot>,
    include_profiles: bool,
    include_current: bool,
    include_inaccessible: bool,
    older: Option<u64>,
    newer: Option<u64>,
) -> Seq<GCRoot>
    decreases s.len(),
{
    if s.len() == 0 {
        Seq::empty()
    } else {
        spec_filtered_roots(
            s.drop_last(),
            include_profiles,
            include_current,
            include_inaccessible,
            older,
            newer,
        ).add(
            if spec_keep_root(
                s.last()@,
                include_profiles,
                include_current,
                include_inaccessible,
                older,
                newer,
            ) {
                seq![s.last()]
            } else {
                Seq::empty()
            },
        )
    }
}

impl GCRoot {
    /// Keep the roots the listing asked for: drop profile-owned, current
    /// and inaccessible roots unless included, and apply the age bounds
    /// to roots whose age is known.
    pub fn filter_roots(
        roots: Vec<GCRoot>,
        include_profiles: bool,
        include_current: bool,
        include_inaccessible: bool,
        older: Option<u64>,
        newer: Option<u64>,
    ) -> (r: Vec<GCRoot>)
        requires
            forall|i: int| 0 <= i < roots@.len() ==> root_wf((#[trigger] roots@[i])@),
        ensures
            r@ == spec_filtered_roots(
                roots@,
                include_profiles,
                include_current,
                include_inaccessible,
                older,
                newer,
            ),
    {
        let ghost orig = roots@;
        let mut roots = roots;
        let mut out: Vec<GCRoot> = Vec::new();
        let mut i: usize = 0;
        let n = roots.len();
        proof {
            assert(orig.subrange(0, 0) =~= Seq::<GCRoot>::empty());
        }
        while i < n
            invariant
                i <= n,
                n == orig.len(),
                roots@ == orig.subrange(i as int, n as int),
                forall|k: int| 0 <= k < orig.len() ==> root_wf((#[trigger] orig[k])@),
                out@ == spec_filtered_roots(
                    orig.subrange(0, i as int),
                    include_profiles,
                    include_current,
                    include_inaccessible,
                    older,
                    newer,
                ),
            decreases n - i,
        {
            let ghost done = orig.subrange(0, i as int);
            let ghost next = orig.subrange(0, i + 1);
            proof {
                assert(next.drop_last() =~= done);
                assert(next.last() == orig[i as int]);
                assert(roots@[0] == orig[i as int]);
            }
            let x = roots.remove(0);
            let keep_kind = (include_profiles || !x.is_profile()) && (include_current
                || !x.is_current()) && (include_inaccessible || x.is_accessible());
            let keep_older = match older {
                Option::Some(o) => match x.age() {
                    Result::Ok(a) => *a > o,
                    Result::Err(_) => true,
                },
                Option::None => true,
            };
            let keep_newer = match newer {
                Option::Some(nw) => match x.age() {
                    Result::Ok(a) => *a <= nw,
                    Result::Err(_) => true,
                },
                Option::None => true,
            };
            if keep_kind && keep_older && keep_newer {
                out.push(x);
            }
            proof {
                assert(roots@ =~= orig.subrange(i + 1, n as int));
            }
            i = i + 1;
        }
        proof {
            assert(orig.subrange(0, n as int) =~= orig);
        }
        out
    }
}

/// How many digits close `s`.
pub open spec fn trailing_digits(s: Seq<char>) -> int
    decreases s.len(),
{
    if s.len() == 0 {
        0int
    } else if is_dec_digit(s.last()) {
        1 + trailing_digits(s.drop_last())
    } else {
        0int
    }
}

proof fn lemma_trailing_digits_at(s: Seq<char>, k: int)
    requires
        0 <= k <= s.len(),
        forall|j: int| k <= j < s.len() ==> is_dec_digit(#[trigger] s[j]),
        k > 0 ==> !is_dec_digit(s[k - 1]),
    ensures
        trailing_digits(s) == s.len() - k,
    decreases s.len(),
{
    if k < s.len() {
        lemma_trailing_digits_at(s.drop_last(), k);
    } else if s.len() > 0 {
        assert(!is_dec_digit(s.last()));
    }
}

/// The profile path a generation link names: the link without its
/// `-<number>-link` tail. `None` when the link is not of that shape.
pub open spec fn spec_profile_base(link: Seq<char>) -> Option<Seq<char>> {
    if !str_ends_with(link, "-link"@) {
        Option::None
    } else {
        let stem = link.subrange(0, link.len() - 5);
        let d = trailing_digits(stem);
        if d == stem.len() {
            Option::None
        } else if stem[stem.len() - d - 1] == '-' {
            Option::Some(stem.subrange(0, stem.len() - d - 1))
        } else {
            Option::None
        }
    }
}

/// The profile path of one generation link, when it has the
/// `<profile>-<number>-link` shape.
pub fn profile_base_of(link: &str) -> (r: Option<String>)
    ensures
        (match r {
            Option::Some(p) => spec_profile_base(link@) == Option::Some(p@),
            Option::None => spec_profile_base(link@) is None,
        }),
{
    proof {
        reveal_strlit("-link");
    }
    if !crate::pathstr::ends_with_str(link, "-link") {
        return Option::None;
    }
    let len = link.unicode_len();
    let stem = link.substring_char(0, len - 5);
    let slen = len - 5;
    let ghost stem_s = link@.subrange(0, link@.len() - 5);
    proof {
        assert(stem@ =~= stem_s);
    }
    let mut k = slen;
    while k > 0 && digit_at(stem, k - 1)
        invariant
            k <= slen,
            slen == stem@.len(),
            stem@ == stem_s,
            forall|j: int| k <= j < slen ==> is_dec_digit(#[trigger] stem_s[j]),
        decreases k,
    {
        k = k - 1;
    }
    proof {
        lemma_trailing_digits_at(stem_s, k as int);
    }
    if k == 0 {
        return Option::None;
    }
    if stem.get_char(k - 1) == '-' {
        let base = stem.substring_char(0, k - 1);
        proof {
            assert(base@ =~= stem_s.subrange(0, stem_s.len() - (slen - k) - 1));
        }
        Option::Some(base.to_owned())
    } else {
        Option::None
    }
}

/// Record the profile path a root's link names, once.
fn add_profile_base(out: &mut Vec<String>, root: &GCRoot)
    requires
        root_wf(root@),
        string_views(old(out)@).no_duplicates(),
    ensures
        string_views(final(out)@).no_duplicates(),
        forall|p: Seq<char>|
            #[trigger] string_views(final(out)@).contains(p) <==> (string_views(
                old(out)@,
            ).contains(p) || (spec_is_profile(root@) && spec_profile_base(root@.link)
                == Option::Some(p))),
{
    let ghost pre = out@;
    if !root.is_profile() {
        return ;
    }
    let base = match profile_base_of(root.link().as_str()) {
        Option::Some(b) => b,
        Option::None => {
            return ;
        },
    };
    if contains_string(out, base.as_str()) {
        return ;
    }
    out.push(base);
    proof {
        assert(string_views(out@) =~= string_views(pre).push(out@.last()@));
        assert(string_views(out@).drop_last() =~= string_views(pre));
        assert forall|p: Seq<char>| #[trigger] string_views(out@).contains(p) implies (
        string_views(pre).contains(p) || (spec_is_profile(root@) && spec_profile_base(root@.link)
            == Option::Some(p))) by {
            let j = choose|j: int| 0 <= j < string_views(out@).len() && string_views(out@)[j] == p;
            if j < pre.len() {
                assert(string_views(pre)[j] == p);
            }
        }
        assert forall|p: Seq<char>|
            (string_views(pre).contains(p) || (spec_is_profile(root@) && spec_profile_base(
                root@.link,
            ) == Option::Some(p))) implies #[trigger] string_views(out@).contains(p) by {
            if string_views(pre).contains(p) {
                let j = choose|j: int|
                    0 <= j < string_views(pre).len() && string_views(pre)[j] == p;
                assert(string_views(out@)[j] == p);
            } else {
                assert(string_views(out@).last() == p);
            }
        }
    }
}

/// The distinct profile paths named by the profile-owned roots of `roots`:
/// each root's link is read as `<profile>-<number>-link` where it has that
/// shape, and each derived path is kept once, sorted ascending.
pub fn profile_paths(roots: &Vec<GCRoot>) -> (r: Vec<String>)
    requires
        forall|i: int| 0 <= i < roots@.len() ==> root_wf((#[trigger] roots@[i])@),
    ensures
        string_views(r@).no_duplicates(),
        forall|i: int, j: int|
            0 <= i < j < r@.len() ==> lex_leq(#[trigger] r@[i]@, #[trigger] r@[j]@),
        forall|p: Seq<char>|
            #[trigger] string_views(r@).contains(p) <==> (exists|i: int|
                {
                    &&& 0 <= i < roots@.len()
                    &&& spec_is_profile((#[trigger] roots@[i])@)
                    &&& spec_profile_base(roots@[i]@.link) == Option::Some(p)
                }),
{
    let n = roots.len();
    let mut out: Vec<String> = Vec::new();
    let mut i: usize = 0;
    while i < n
        invariant
            i <= n,
            n == roots@.len(),
            forall|k: int| 0 <= k < roots@.len() ==> root_wf((#[trigger] roots@[k])@),
            string_views(out@).no_duplicates(),
            forall|p: Seq<char>|
                #[trigger] string_views(out@).contains(p) <==> (exists|k: int|
                    {
                        &&& 0 <= k < i
                        &&& spec_is_profile((#[trigger] roots@[k])@)
                        &&& spec_profile_base(roots@[k]@.link) == Option::Some(p)
                    }),
        decreases n - i,
    {
        let ghost pre = out@;
        add_profile_base(&mut out, &roots[i]);
        proof {
            assert forall|p: Seq<char>| #[trigger] string_views(out@).contains(p) implies (
            exists|k: int|
                {
                    &&& 0 <= k < i + 1
                    &&& spec_is_profile((#[trigger] roots@[k])@)
                    &&& spec_profile_base(roots@[k]@.link) == Option::Some(p)
                }) by {
                if string_views(pre).contains(p) {
                } else {
                    assert(spec_is_profile((roots@[i as int])@) && spec_profile_base(
                        roots@[i as int]@.link,
                    ) == Option::Some(p));
                }
            }
            assert forall|p: Seq<char>|
                (exists|k: int|
                    {
                        &&& 0 <= k < i + 1
                        &&& spec_is_profile((#[trigger] roots@[k])@)
                        &&& spec_profile_base(roots@[k]@.link) == Option::Some(p)
                    }) implies #[trigger] string_views(out@).contains(p) by {
                let k = choose|k: int|
                    {
                        &&& 0 <= k < i + 1
                        &&& spec_is_profile((#[trigger] roots@[k])@)
                        &&& spec_profile_base(roots@[k]@.link) == Option::Some(p)
                    };
                if k < i {
                    assert(string_views(pre).contains(p));
                }
            }
        }
        i = i + 1;
    }
    let ghost unsorted = out@;
    sort_strings(&mut out);
    proof {
        string_views(unsorted).lemma_multiset_has_no_duplicates();
        string_views(out@).lemma_multiset_has_no_duplicates_conv();
        assert forall|p: Seq<char>|
            #[trigger] string_views(out@).contains(p) == string_views(unsorted).contains(p) by {
            vstd::seq_lib::to_multiset_contains(string_views(out@), p);
            vstd::seq_lib::to_multiset_contains(string_views(unsorted), p);
        }
    }
    out
}

/// Whether the character of `s` at `i` is a decimal digit.
fn digit_at(s: &str, i: usize) -> (r: bool)
    requires
        i < s@.len(),
    ensures
        r == is_dec_digit(s@[i as int]),
{
    let c = s.get_char(i);
    c >= '0' && c <= '9'
}

/// Whether `v` holds a string reading `p`.
fn contains_string(v: &Vec<String>, p: &str) -> (r: bool)
    ensures
        r == string_views(v@).contains(p@),
{
    let n = v.len();
    let mut i: usize = 0;
    while i < n
        invariant
            i <= n,
            n == v@.len(),
            forall|j: int| 0 <= j < i ==> #[trigger] string_views(v@)[j] != p@,
        decreases n - i,
    {
        if crate::pathstr::eq_str(v[i].as_str(), p) {
            assert(string_views(v@)[i as int] == p@);
            return true;
        }
        i = i + 1;
    }
    false
}

/// Whether the report separator `" -> "` stands at position `i` of `s`.
pub open spec fn is_arrow_at(s: Seq<char>, i: int) -> bool {
    &&& 0 <= i
    &&& i + 4 <= s.len()
    &&& s[i] == ' '
    &&& s[i + 1] == '-'
    &&& s[i + 2] == '>'
    &&& s[i + 3] == ' '
}

/// Split at the first `" -> "`, as the store tool's roots report uses it;
/// `None` when the text holds none.
pub open spec fn spec_split_arrow(s: Seq<char>) -> Option<(Seq<char>, Seq<char>)>
    decreases s.len(),
{
    if s.len() < 4 {
        Option::None
    } else if is_arrow_at(s, 0) {
        Option::Some((Seq::empty(), s.subrange(4, s.len() as int)))
    } else {
        match spec_split_arrow(s.subrange(1, s.len() as int)) {
            Option::Some(pr) => Option::Some((seq![s[0]].add(pr.0), pr.1)),
            Option::None => Option::None,
        }
    }
}

proof fn lemma_split_arrow_found(s: Seq<char>, i: int)
    requires
        is_arrow_at(s, i),
        forall|j: int| 0 <= j < i ==> !is_arrow_at(s, j),
    ensures
        spec_split_arrow(s) == Option::Some(
            (s.subrange(0, i), s.subrange(i + 4, s.len() as int)),
        ),
    decreases i,
{
    let rest = s.subrange(1, s.len() as int);
    if i == 0 {
        assert(s.subrange(0, 0) =~= Seq::<char>::empty());
    } else {
        assert(!is_arrow_at(s, 0));
        assert(is_arrow_at(rest, i - 1));
        assert forall|j: int| 0 <= j < i - 1 implies !is_arrow_at(rest, j) by {
            if is_arrow_at(rest, j) {
                assert(is_arrow_at(s, j + 1));
            }
        }
        lemma_split_arrow_found(rest, i - 1);
        assert(seq![s[0]].add(rest.subrange(0, i - 1)) =~= s.subrange(0, i));
        assert(rest.subrange(i - 1 + 4, rest.len() as int) =~= s.subrange(
            i + 4,
            s.len() as int,
        ));
    }
}

proof fn lemma_split_arrow_none(s: Seq<char>)
    requires
        forall|j: int| !is_arrow_at(s, j),
    ensures
        spec_split_arrow(s) is None,
    decreases s.len(),
{
    if s.len() >= 4 {
        let rest = s.subrange(1, s.len() as int);
        assert forall|j: int| !is_arrow_at(rest, j) by {
            if is_arrow_at(rest, j) {
                assert(is_arrow_at(s, j + 1));
            }
        }
        lemma_split_arrow_none(rest);
    }
}

/// Whether the report separator stands at position `i`.
fn arrow_at(s: &str, i: usize) -> (r: bool)
    requires
        i + 4 <= s@.len(),
        i + 4 <= usize::MAX,
    ensures
        r == is_arrow_at(s@, i as int),
{
    s.get_char(i) == ' ' && s.get_char(i + 1) == '-' && s.get_char(i + 2) == '>' && s.get_char(
        i + 3,
    ) == ' '
}

/// Split one report line at its first `" -> "`.
fn split_arrow(s: &str) -> (r: Option<(String, String)>)
    ensures
        (match r {
            Option::Some(pr) => spec_split_arrow(s@) == Option::Some((pr.0@, pr.1@)),
            Option::None => spec_split_arrow(s@) is None,
        }),
{
    let len = s.unicode_len();
    if len < 4 {
        proof {
            lemma_split_arrow_none(s@);
        }
        return Option::None;
    }
    let mut i: usize = 0;
    while i <= len - 4 && !arrow_at(s, i)
        invariant
            len == s@.len(),
            4 <= len,
            i <= len - 3,
            forall|j: int| 0 <= j < i ==> !is_arrow_at(s@, j),
        decreases len - i,
    {
        i = i + 1;
    }
    if i <= len - 4 {
        proof {
            lemma_split_arrow_found(s@, i as int);
        }
        let left = s.substring_char(0, i);
        let right = s.substring_char(i + 4, len);
        Option::Some((left.to_owned(), right.to_owned()))
    } else {
        proof {
            assert forall|j: int| !is_arrow_at(s@, j) by {
                if 0 <= j < i {
                } else {
                    assert(!(j + 4 <= s@.len() && 0 <= j));
                }
            }
            lemma_split_arrow_none(s@);
        }
        Option::None
    }
}

/// The view pairs of a parsed report.
pub open spec fn pair_views(s: Seq<(String, String)>) -> Seq<(Seq<char>, Seq<char>)> {
    s.map_values(|pr: (String, String)| (pr.0@, pr.1@))
}

/// The `link -> target` pairs a roots report holds: one per line of the
/// shape `<link> -> <target>`, lines without the separator dropped, and
/// entries whose link the tool redacted filtered out.
pub open spec fn spec_report_pairs(lines: Seq<Seq<char>>) -> Seq<(Seq<char>, Seq<char>)>
    decreases lines.len(),
{
    if lines.len() == 0 {
        Seq::empty()
    } else {
        spec_report_pairs(lines.drop_last()).add(
            match spec_split_arrow(lines.last()) {
                Option::Some(pr) => if pr.0 == "{censored}"@ {
                    Seq::empty()
                } else {
                    seq![pr]
                },
                Option::None => Seq::empty(),
            },
        )
    }
}

/// Parse the store tool's roots report: lines of `<link> -> <target>`.
/// Lines without the separator and redacted entries are dropped, never
/// errors. Resolving each pair into a root happens outside, where link
/// ages can be read.
pub fn parse_roots_report(text: &str) -> (r: Vec<(String, String)>)
    ensures
        pair_views(r@) == spec_report_pairs(crate::store::split_lines(text@)),
{
    let len = text.unicode_len();
    let mut out: Vec<(String, String)> = Vec::new();
    let mut cur: Vec<char> = Vec::new();
    let ghost mut done: Seq<Seq<char>> = Seq::empty();
    let mut i: usize = 0;
    proof {
        assert(text@.subrange(0, len as int) =~= text@);
        assert(crate::store::split_lines(text@) =~= done.add(
            crate::store::split_lines_acc(text@.subrange(0, len as int), cur@),
        ));
    }
    while i < len
        invariant
            i <= len,
            len == text@.len(),
            crate::store::split_lines(text@) == done.add(
                crate::store::split_lines_acc(text@.subrange(i as int, len as int), cur@),
            ),
            pair_views(out@) == spec_report_pairs(done),
        decreases len - i,
    {
        let ghost rest = text@.subrange(i as int, len as int);
        let c = text.get_char(i);
        proof {
            assert(rest[0] == c);
            assert(rest.drop_first() =~= text@.subrange(i + 1, len as int));
        }
        if c == '\n' {
            let line = crate::pathstr::chars_to_string(&cur);
            let ghost pre_done = done;
            proof {
                assert(crate::store::split_lines_acc(rest, cur@) == seq![cur@].add(
                    crate::store::split_lines_acc(rest.drop_first(), Seq::empty()),
                ));
                done = done.push(cur@);
                assert(done.drop_last() =~= pre_done);
                assert(done.last() == cur@);
                assert(crate::store::split_lines(text@) =~= done.add(
                    crate::store::split_lines_acc(rest.drop_first(), Seq::empty()),
                ));
            }
            push_report_pair(&mut out, line, Ghost(pre_done));
            cur = Vec::new();
        } else {
            let ghost pre_cur = cur@;
            cur.push(c);
            proof {
                assert(crate::store::split_lines_acc(rest, pre_cur)
                    == crate::store::split_lines_acc(rest.drop_first(), pre_cur.push(c)));
            }
        }
        i = i + 1;
    }
    proof {
        assert(text@.subrange(len as int, len as int) =~= Seq::<char>::empty());
    }
    if cur.len() > 0 {
        let line = crate::pathstr::chars_to_string(&cur);
        let ghost pre_done = done;
        proof {
            done = done.push(cur@);
            assert(done.drop_last() =~= pre_done);
            assert(done.last() == cur@);
            assert(crate::store::split_lines(text@) =~= done);
        }
        push_report_pair(&mut out, line, Ghost(pre_done));
    } else {
        proof {
            assert(crate::store::split_lines(text@) =~= done);
        }
    }
    out
}

/// Handle one report line: keep its pair when it has the separator and
/// is not redacted.
fn push_report_pair(out: &mut Vec<(String, String)>, line: String, Ghost(pre_done): Ghost<
    Seq<Seq<char>>,
>)
    requires
        pair_views(old(out)@) == spec_report_pairs(pre_done),
    ensures
        pair_views(final(out)@) == spec_report_pairs(pre_done.push(line@)),
{
    let ghost done = pre_done.push(line@);
    proof {
        assert(done.drop_last() =~= pre_done);
        assert(done.last() == line@);
    }
    match split_arrow(line.as_str()) {
        Option::Some(pr) => {
            proof {
                reveal_strlit("{censored}");
            }
            if !crate::pathstr::eq_str(pr.0.as_str(), "{censored}") {
                let ghost pre = out@;
                out.push(pr);
                proof {
                    assert(pair_views(out@) =~= pair_views(pre).push(
                        (out@.last().0@, out@.last().1@),
                    ));
                    assert(pair_views(out@).drop_last() =~= pair_views(pre));
                    assert(pair_views(out@) =~= spec_report_pairs(done));
                }
            } else {
                proof {
                    assert(pair_views(out@) =~= spec_report_pairs(done));
                }
            }
        },
        Option::None => {
            proof {
                assert(pair_views(out@) =~= spec_report_pairs(done));
            }
        },
    }
}

} // verus!
