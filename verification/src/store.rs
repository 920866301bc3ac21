//! The content-addressed store model: validated store paths, the queries
//! the store answers in text form, and the dependency-closure machinery.
use vstd::prelude::*;

use crate::cache::Cache;
use crate::pathstr::chars_to_string;
use crate::pathstr::eq_str;
use crate::pathstr::ends_with_str;
use crate::pathstr::file_name_of;
use crate::pathstr::path_has_prefix;
use crate::pathstr::path_starts_with;
use crate::pathstr::spec_file_name;
use crate::pathstr::str_ends_with;

verus! {

/// The store root directory.
pub open spec fn spec_store_root() -> Seq<char> {
    "/nix/store"@
}

/// The store root directory, as text.
pub fn store_root() -> (r: &'static str)
    ensures
        r@ == spec_store_root(),
{
    "/nix/store"
}

/// A character the content hash of a store entry may hold: a lowercase
/// ASCII letter or a digit.
pub open spec fn is_store_hash_char(c: char) -> bool {
    ('a' <= c && c <= 'z') || ('0' <= c && c <= '9')
}

/// A valid store path: it lies under the store root and its final
/// component opens with a 32-character content hash.
pub open spec fn spec_valid_store_path(p: Seq<char>) -> bool {
    &&& path_starts_with(p, spec_store_root())
    &&& spec_file_name(p).len() > 32
    &&& forall|i: int| 0 <= i < 32 ==> is_store_hash_char(#[trigger] spec_file_name(p)[i])
}

/// The complaint raised for a path that is not a valid store path.
pub open spec fn spec_invalid_path_msg(p: Seq<char>) -> Seq<char> {
    "'"@.add(p).add("' is not a valid nix store path"@)
}

fn invalid_path_msg(path: &str) -> (r: String)
    ensures
        r@ == spec_invalid_path_msg(path@),
{
    let mut e = String::from_str("'");
    e.append(path);
    e.append("' is not a valid nix store path");
    proof {
        assert(e@ =~= spec_invalid_path_msg(path@));
    }
    e
}

/// The store itself, named by its well-known root directory.
pub struct Store;

impl Store {
    /// Structural validity of a store path: under the store root, and the
    /// final component opens with a 32-character lowercase-alphanumeric
    /// content hash. Existence is not checked.
    pub fn is_valid_path(path: &str) -> (r: bool)
        ensures
            r == spec_valid_store_path(path@),
    {
        if !path_has_prefix(path, store_root()) {
            return false;
        }
        let name = file_name_of(path);
        let name_str = name.as_str();
        let nlen = name_str.unicode_len();
        if nlen <= 32 {
            return false;
        }
        let mut i: usize = 0;
        while i < 32
            invariant
                i <= 32,
                32 < nlen == name_str@.len(),
                name_str@ == spec_file_name(path@),
                forall|j: int| 0 <= j < i ==> is_store_hash_char(#[trigger] name_str@[j]),
            decreases 32 - i,
        {
            let c = name_str.get_char(i);
            if !((c >= 'a' && c <= 'z') || (c >= '0' && c <= '9')) {
                return false;
            }
            i = i + 1;
        }
        true
    }
}

/// One validated store entry: a canonical path under the store root whose
/// final component opens with a content hash.
pub struct StorePath {
    path: String,
}

impl View for StorePath {
    type V = Seq<char>;

    closed spec fn view(&self) -> Seq<char> {
        self.path@
    }
}

/// The views of a sequence of store paths.
pub open spec fn path_views(s: Seq<StorePath>) -> Seq<Seq<char>> {
    s.map_values(|sp: StorePath| sp@)
}

impl StorePath {
    /// Whether this entry satisfies the store path shape. Constructors
    /// establish it; nothing un-establishes it.
    pub open spec fn wf(&self) -> bool {
        spec_valid_store_path(self@)
    }

    /// Validate a path as a store entry; the error tells which path was
    /// refused. Succeeds exactly on valid store paths.
    pub fn new(path: String) -> (r: Result<StorePath, String>)
        ensures
            match r {
                Result::Ok(sp) => spec_valid_store_path(path@) && sp@ == path@ && sp.wf(),
                Result::Err(e) => !spec_valid_store_path(path@) && e@ == spec_invalid_path_msg(
                    path@,
                ),
            },
    {
        if !Store::is_valid_path(path.as_str()) {
            Result::Err(invalid_path_msg(path.as_str()))
        } else {
            Result::Ok(StorePath { path })
        }
    }

    /// The canonical path of this entry.
    pub fn path(&self) -> (r: &String)
        ensures
            r@ == self@,
    {
        &self.path
    }

    /// A copy of this entry.
    pub fn duplicate(&self) -> (r: StorePath)
        ensures
            r == *self,
    {
        StorePath { path: self.path.clone() }
    }

    /// Whether this entry is a derivation file, by its name.
    pub fn is_drv(&self) -> (r: bool)
        ensures
            r == str_ends_with(self@, "drv"@),
    {
        ends_with_str(self.path.as_str(), "drv")
    }
}

/// Whether `v` holds an entry whose path reads `p`.
fn contains_path(v: &Vec<StorePath>, p: &str) -> (r: bool)
    ensures
        r == path_views(v@).contains(p@),
{
    let n = v.len();
    let mut i: usize = 0;
    while i < n
        invariant
            i <= n,
            n == v@.len(),
            forall|j: int| 0 <= j < i ==> path_views(v@)[j] != p@,
        decreases n - i,
    {
        if eq_str(v[i].path.as_str(), p) {
            assert(path_views(v@)[i as int] == p@);
            return true;
        }
        i = i + 1;
    }
    false
}

/// The valid store paths among `names`, each kept once. This is the pure
/// part of enumerating the store's entries: the directory listing comes
/// from outside, the validation and deduplication happen here.
pub fn valid_store_paths(names: &Vec<String>) -> (r: Vec<StorePath>)
    ensures
        forall|i: int| 0 <= i < r@.len() ==> (#[trigger] r@[i]).wf(),
        path_views(r@).no_duplicates(),
        forall|p: Seq<char>|
            #[trigger] path_views(r@).contains(p) <==> (names@.map_values(|s: String| s@).contains(
                p,
            ) && spec_valid_store_path(p)),
{
    let n = names.len();
    let mut r: Vec<StorePath> = Vec::new();
    let mut i: usize = 0;
    while i < n
        invariant
            i <= n,
            n == names@.len(),
            forall|j: int| 0 <= j < r@.len() ==> (#[trigger] r@[j]).wf(),
            path_views(r@).no_duplicates(),
            forall|p: Seq<char>|
                #[trigger] path_views(r@).contains(p) <==> (names@.subrange(0, i as int).map_values(
                    |s: String| s@,
                ).contains(p) && spec_valid_store_path(p)),
        decreases n - i,
    {
        let ghost pre = r@;
        let name = &names[i];
        if Store::is_valid_path(name.as_str()) && !contains_path(&r, name.as_str()) {
            r.push(StorePath { path: name.clone() });
            proof {
                assert(path_views(r@) =~= path_views(pre).push(name@));
                assert(path_views(r@).drop_last() =~= path_views(pre));
            }
        }
        proof {
            let prefix = names@.subrange(0, i + 1).map_values(|s: String| s@);
            assert forall|p: Seq<char>| #[trigger] path_views(r@).contains(p) implies (
            prefix.contains(p) && spec_valid_store_path(p)) by {
                let j = choose|j: int| 0 <= j < path_views(r@).len() && path_views(r@)[j] == p;
                if j < pre.len() {
                    assert(path_views(pre).contains(p));
                    let sub = names@.subrange(0, i as int).map_values(|s: String| s@);
                    assert(sub.contains(p));
                    let l = choose|l: int| 0 <= l < sub.len() && sub[l] == p;
                    assert(prefix[l] == p);
                } else {
                    assert(p == name@);
                    assert(prefix[i as int] == p);
                }
            }
            assert forall|p: Seq<char>|
                prefix.contains(p) && spec_valid_store_path(p) implies #[trigger] path_views(
                r@,
            ).contains(p) by {
                let l = choose|l: int| 0 <= l < prefix.len() && prefix[l] == p;
                if l < i {
                    assert(names@.subrange(0, i as int).map_values(|s: String| s@)[l] == p);
                    assert(path_views(pre).contains(p));
                    let j = choose|j: int|
                        0 <= j < path_views(pre).len() && path_views(pre)[j] == p;
                    assert(path_views(r@)[j] == p);
                } else {
                    assert(p == name@);
                    if path_views(pre).contains(p) {
                        let j = choose|j: int|
                            0 <= j < path_views(pre).len() && path_views(pre)[j] == p;
                        assert(path_views(r@)[j] == p);
                    } else {
                        assert(path_views(r@).last() == p);
                    }
                }
            }
        }
        i = i + 1;
    }
    proof {
        assert(names@.subrange(0, n as int) =~= names@);
    }
    r
}

/// The lines of `s` split on newline, with `cur` the line under
/// construction. Matches what `str::lines` yields: no line for empty
/// input, and no empty line after a final newline.
pub open spec fn split_lines_acc(s: Seq<char>, cur: Seq<char>) -> Seq<Seq<char>>
    decreases s.len(),
{
    if s.len() == 0 {
        if cur.len() == 0 {
            Seq::empty()
        } else {
            seq![cur]
        }
    } else if s[0] == '\n' {
        seq![cur].add(split_lines_acc(s.drop_first(), Seq::empty()))
    } else {
        split_lines_acc(s.drop_first(), cur.push(s[0]))
    }
}

/// The lines of `s`, split on newline.
pub open spec fn split_lines(s: Seq<char>) -> Seq<Seq<char>> {
    split_lines_acc(s, Seq::empty())
}

/// The lines of a line list that are valid store paths, in order.
pub open spec fn valid_path_lines(s: Seq<Seq<char>>) -> Seq<Seq<char>>
    decreases s.len(),
{
    if s.len() == 0 {
        Seq::empty()
    } else {
        valid_path_lines(s.drop_last()).add(
            if spec_valid_store_path(s.last()) {
                seq![s.last()]
            } else {
                Seq::empty()
            },
        )
    }
}

/// Parse the output of a dependency-closure query: one absolute store path
/// per line, every line validated. Any line that is not a valid store path
/// makes the whole output an error, never an empty closure.
pub fn parse_requisites_output(text: &str) -> (r: Result<Vec<StorePath>, String>)
    ensures
        match r {
            Result::Ok(v) => {
                &&& forall|i: int| 0 <= i < v@.len() ==> (#[trigger] v@[i]).wf()
                &&& path_views(v@) == split_lines(text@)
            },
            Result::Err(e) => exists|i: int|
                {
                    &&& 0 <= i < split_lines(text@).len()
                    &&& !spec_valid_store_path(#[trigger] split_lines(text@)[i])
                    &&& e@ == spec_invalid_path_msg(split_lines(text@)[i])
                },
        },
{
    let len = text.unicode_len();
    let mut out: Vec<StorePath> = Vec::new();
    let mut cur: Vec<char> = Vec::new();
    let mut i: usize = 0;
    proof {
        assert(text@.subrange(0, len as int) =~= text@);
        assert(split_lines(text@) =~= path_views(out@).add(
            split_lines_acc(text@.subrange(0, len as int), cur@),
        ));
    }
    while i < len
        invariant
            i <= len,
            len == text@.len(),
            forall|j: int| 0 <= j < out@.len() ==> (#[trigger] out@[j]).wf(),
            split_lines(text@) == path_views(out@).add(
                split_lines_acc(text@.subrange(i as int, len as int), cur@),
            ),
        decreases len - i,
    {
        let ghost pre_out = out@;
        let ghost pre_cur = cur@;
        let ghost rest = text@.subrange(i as int, len as int);
        let c = text.get_char(i);
        proof {
            assert(rest[0] == c);
            assert(rest.drop_first() =~= text@.subrange(i + 1, len as int));
        }
        if c == '\n' {
            let line = chars_to_string(&cur);
            proof {
                assert(split_lines_acc(rest, pre_cur) == seq![pre_cur].add(
                    split_lines_acc(rest.drop_first(), Seq::empty()),
                ));
            }
            match StorePath::new(line) {
                Result::Ok(sp) => {
                    out.push(sp);
                    proof {
                        assert(path_views(out@) =~= path_views(pre_out).push(pre_cur));
                        assert(split_lines(text@) =~= path_views(out@).add(
                            split_lines_acc(rest.drop_first(), Seq::empty()),
                        ));
                    }
                },
                Result::Err(e) => {
                    proof {
                        let k = pre_out.len() as int;
                        assert(split_lines(text@)[k] == pre_cur);
                    }
                    return Result::Err(e);
                },
            }
            cur = Vec::new();
        } else {
            cur.push(c);
            proof {
                assert(split_lines_acc(rest, pre_cur) == split_lines_acc(
                    rest.drop_first(),
                    pre_cur.push(c),
                ));
            }
        }
        i = i + 1;
    }
    proof {
        assert(text@.subrange(len as int, len as int) =~= Seq::<char>::empty());
    }
    if cur.len() > 0 {
        let line = chars_to_string(&cur);
        match StorePath::new(line) {
            Result::Ok(sp) => {
                let ghost pre_out = out@;
                out.push(sp);
                proof {
                    assert(path_views(out@) =~= path_views(pre_out).push(cur@));
                    assert(split_lines(text@) =~= path_views(out@));
                }
                Result::Ok(out)
            },
            Result::Err(e) => {
                proof {
                    let k = out@.len() as int;
                    assert(split_lines(text@)[k] == cur@);
                }
                Result::Err(e)
            },
        }
    } else {
        proof {
            assert(split_lines(text@) =~= path_views(out@));
        }
        Result::Ok(out)
    }
}

/// Parse a newline-separated path list, keeping the lines that are valid
/// store paths and dropping the rest.
pub fn parse_store_paths_lenient(text: &str) -> (r: Vec<StorePath>)
    ensures
        forall|i: int| 0 <= i < r@.len() ==> (#[trigger] r@[i]).wf(),
        path_views(r@) == valid_path_lines(split_lines(text@)),
{
    let len = text.unicode_len();
    let mut out: Vec<StorePath> = Vec::new();
    let mut cur: Vec<char> = Vec::new();
    let ghost mut done: Seq<Seq<char>> = Seq::empty();
    let mut i: usize = 0;
    proof {
        assert(text@.subrange(0, len as int) =~= text@);
        assert(split_lines(text@) =~= done.add(
            split_lines_acc(text@.subrange(0, len as int), cur@),
        ));
    }
    while i < len
        invariant
            i <= len,
            len == text@.len(),
            forall|j: int| 0 <= j < out@.len() ==> (#[trigger] out@[j]).wf(),
            split_lines(text@) == done.add(
                split_lines_acc(text@.subrange(i as int, len as int), cur@),
            ),
            path_views(out@) == valid_path_lines(done),
        decreases len - i,
    {
        let ghost pre_out = out@;
        let ghost pre_cur = cur@;
        let ghost rest = text@.subrange(i as int, len as int);
        let c = text.get_char(i);
        proof {
            assert(rest[0] == c);
            assert(rest.drop_first() =~= text@.subrange(i + 1, len as int));
        }
        if c == '\n' {
            let line = chars_to_string(&cur);
            let ghost pre_done = done;
            proof {
                assert(split_lines_acc(rest, pre_cur) == seq![pre_cur].add(
                    split_lines_acc(rest.drop_first(), Seq::empty()),
                ));
                done = done.push(pre_cur);
                assert(done.drop_last() =~= pre_done);
                assert(done.last() == pre_cur);
                assert(split_lines(text@) =~= done.add(
                    split_lines_acc(rest.drop_first(), Seq::empty()),
                ));
            }
            match StorePath::new(line) {
                Result::Ok(sp) => {
                    out.push(sp);
                    proof {
                        assert(path_views(out@) =~= path_views(pre_out).push(pre_cur));
                        assert(valid_path_lines(done) == valid_path_lines(pre_done).add(
                            seq![pre_cur],
                        ));
                        assert(path_views(out@) =~= valid_path_lines(done));
                    }
                },
                Result::Err(_) => {
                    proof {
                        assert(valid_path_lines(done) == valid_path_lines(pre_done).add(
                            Seq::empty(),
                        ));
                        assert(path_views(out@) =~= valid_path_lines(done));
                    }
                },
            }
            cur = Vec::new();
        } else {
            cur.push(c);
            proof {
                assert(split_lines_acc(rest, pre_cur) == split_lines_acc(
                    rest.drop_first(),
                    pre_cur.push(c),
                ));
            }
        }
        i = i + 1;
    }
    proof {
        assert(text@.subrange(len as int, len as int) =~= Seq::<char>::empty());
    }
    if cur.len() > 0 {
        let line = chars_to_string(&cur);
        let ghost pre_done = done;
        proof {
            done = done.push(cur@);
            assert(done.drop_last() =~= pre_done);
            assert(done.last() == cur@);
            assert(split_lines(text@) =~= done);
        }
        match StorePath::new(line) {
            Result::Ok(sp) => {
                let ghost pre_out = out@;
                out.push(sp);
                proof {
                    assert(path_views(out@) =~= path_views(pre_out).push(cur@));
                    assert(valid_path_lines(done) == valid_path_lines(pre_done).add(seq![cur@]));
                    assert(path_views(out@) =~= valid_path_lines(done));
                }
            },
            Result::Err(_) => {
                proof {
                    assert(valid_path_lines(done) == valid_path_lines(pre_done).add(Seq::empty()));
                    assert(path_views(out@) =~= valid_path_lines(done));
                }
            },
        }
    } else {
        proof {
            assert(split_lines(text@) =~= done);
        }
    }
    out
}

/// How many store entries one closure query may name at most: larger
/// requests are split to bound the external command line.
pub const CLOSURE_LOOKUP_CHUNK_SIZE: usize = 1024;

/// The path views of a batch of closures, concatenated.
pub open spec fn flat_path_views(closures: Seq<Vec<StorePath>>) -> Seq<Seq<char>> {
    closures.map_values(|c: Vec<StorePath>| path_views(c@)).flatten()
}

/// Split `paths` into chunks of at most `chunk_size` entries each, none
/// empty, in order: concatenated, the chunks give `paths` back. Closure
/// membership is monotonic under union of seed sets, so resolving the
/// chunks independently and uniting the results is sound.
pub fn chunk_paths(paths: &Vec<StorePath>, chunk_size: usize) -> (r: Vec<Vec<StorePath>>)
    requires
        chunk_size > 0,
    ensures
        r@.map_values(|c: Vec<StorePath>| c@).flatten() == paths@,
        forall|i: int| 0 <= i < r@.len() ==> 0 < (#[trigger] r@[i])@.len() <= chunk_size,
{
    let n = paths.len();
    let mut r: Vec<Vec<StorePath>> = Vec::new();
    let mut i: usize = 0;
    proof {
        assert(r@.map_values(|c: Vec<StorePath>| c@).flatten() =~= paths@.subrange(0, 0));
    }
    while i < n
        invariant
            i <= n,
            n == paths@.len(),
            r@.map_values(|c: Vec<StorePath>| c@).flatten() == paths@.subrange(0, i as int),
            forall|k: int| 0 <= k < r@.len() ==> 0 < (#[trigger] r@[k])@.len() <= chunk_size,
            chunk_size > 0,
        decreases n - i,
    {
        let ghost pre = r@;
        let ghost start = i as int;
        let mut chunk: Vec<StorePath> = Vec::new();
        let mut j: usize = 0;
        while j < chunk_size && i < n
            invariant
                i <= n,
                n == paths@.len(),
                j <= chunk_size,
                i - start == j as int,
                0 <= start <= i,
                chunk@ == paths@.subrange(start, i as int),
            decreases n - i,
        {
            let p = paths[i].duplicate();
            chunk.push(p);
            proof {
                assert(chunk@ =~= paths@.subrange(start, i + 1));
            }
            i = i + 1;
            j = j + 1;
        }
        r.push(chunk);
        proof {
            let f = |c: Vec<StorePath>| c@;
            assert(r@.map_values(f).drop_last() =~= pre.map_values(f));
            pre.map_values(f).lemma_flatten_push(paths@.subrange(start, i as int));
            assert(r@.map_values(f) =~= pre.map_values(f).push(paths@.subrange(start, i as int)));
            assert(r@.map_values(f).flatten() =~= paths@.subrange(0, i as int));
        }
    }
    proof {
        assert(paths@.subrange(0, n as int) =~= paths@);
    }
    r
}

/// All entries of a batch of closures, concatenated in order.
pub fn concat_closures(closures: &Vec<Vec<StorePath>>) -> (r: Vec<StorePath>)
    ensures
        path_views(r@) == flat_path_views(closures@),
{
    let n = closures.len();
    let mut r: Vec<StorePath> = Vec::new();
    let ghost f = |c: Vec<StorePath>| path_views(c@);
    proof {
        assert(path_views(r@) =~= closures@.subrange(0, 0).map_values(f).flatten());
    }
    let mut i: usize = 0;
    while i < n
        invariant
            i <= n,
            n == closures@.len(),
            f == (|c: Vec<StorePath>| path_views(c@)),
            path_views(r@) == closures@.subrange(0, i as int).map_values(f).flatten(),
        decreases n - i,
    {
        let chunk = &closures[i];
        let m = chunk.len();
        let mut j: usize = 0;
        while j < m
            invariant
                j <= m,
                i < n,
                n == closures@.len(),
                m == chunk@.len(),
                chunk == &closures@[i as int],
                f == (|c: Vec<StorePath>| path_views(c@)),
                path_views(r@) == closures@.subrange(0, i as int).map_values(f).flatten().add(
                    path_views(chunk@.subrange(0, j as int)),
                ),
            decreases m - j,
        {
            let ghost pre_r = r@;
            let p = chunk[j].duplicate();
            r.push(p);
            proof {
                assert(path_views(r@) =~= path_views(pre_r).push(chunk@[j as int]@));
                assert(path_views(chunk@.subrange(0, j + 1)) =~= path_views(
                    chunk@.subrange(0, j as int),
                ).push(chunk@[j as int]@));
                assert(path_views(r@) =~= closures@.subrange(0, i as int).map_values(
                    f,
                ).flatten().add(path_views(chunk@.subrange(0, j + 1))));
            }
            j = j + 1;
        }
        proof {
            let pre = closures@.subrange(0, i as int);
            let cur = closures@.subrange(0, i + 1);
            assert(cur.map_values(f).drop_last() =~= pre.map_values(f));
            pre.map_values(f).lemma_flatten_push(path_views(chunk@));
            assert(cur.map_values(f) =~= pre.map_values(f).push(path_views(chunk@)));
            assert(chunk@.subrange(0, m as int) =~= chunk@);
            assert(path_views(r@) =~= cur.map_values(f).flatten());
        }
        i = i + 1;
    }
    proof {
        assert(closures@.subrange(0, n as int) =~= closures@);
    }
    r
}

/// Keep each path once, in order of first appearance.
pub fn dedup_paths(paths: &Vec<StorePath>) -> (r: Vec<StorePath>)
    ensures
        path_views(r@).no_duplicates(),
        forall|p: Seq<char>|
            #[trigger] path_views(r@).contains(p) <==> path_views(paths@).contains(p),
        forall|i: int| 0 <= i < r@.len() ==> paths@.contains(#[trigger] r@[i]),
{
    let n = paths.len();
    let mut r: Vec<StorePath> = Vec::new();
    let mut i: usize = 0;
    while i < n
        invariant
            i <= n,
            n == paths@.len(),
            path_views(r@).no_duplicates(),
            forall|p: Seq<char>|
                #[trigger] path_views(r@).contains(p) <==> path_views(
                    paths@.subrange(0, i as int),
                ).contains(p),
            forall|k: int| 0 <= k < r@.len() ==> paths@.contains(#[trigger] r@[k]),
        decreases n - i,
    {
        let ghost pre = r@;
        if !contains_path(&r, paths[i].path.as_str()) {
            let p = paths[i].duplicate();
            r.push(p);
            proof {
                assert(path_views(r@) =~= path_views(pre).push(paths@[i as int]@));
                assert(path_views(r@).drop_last() =~= path_views(pre));
                assert(paths@.contains(r@[r@.len() - 1]));
            }
        }
        proof {
            let prefix = path_views(paths@.subrange(0, i + 1));
            assert(prefix.drop_last() =~= path_views(paths@.subrange(0, i as int)));
            assert(prefix.last() == paths@[i as int]@);
            assert forall|p: Seq<char>| #[trigger] path_views(r@).contains(p) implies prefix.contains(
                p,
            ) by {
                if path_views(pre).contains(p) {
                    let j = choose|j: int|
                        0 <= j < path_views(paths@.subrange(0, i as int)).len() && path_views(
                            paths@.subrange(0, i as int),
                        )[j] == p;
                    assert(prefix[j] == p);
                } else {
                    assert(p == paths@[i as int]@);
                    assert(prefix[i as int] == p);
                }
            }
            assert forall|p: Seq<char>| prefix.contains(p) implies #[trigger] path_views(
                r@,
            ).contains(p) by {
                let j = choose|j: int| 0 <= j < prefix.len() && prefix[j] == p;
                if j < i {
                    assert(path_views(paths@.subrange(0, i as int))[j] == p);
                    assert(path_views(paths@.subrange(0, i as int)).contains(p));
                    assert(path_views(pre).contains(p));
                    let k = choose|k: int|
                        0 <= k < path_views(pre).len() && path_views(pre)[k] == p;
                    assert(path_views(r@)[k] == p);
                } else {
                    assert(p == paths@[i as int]@);
                    if pre.len() < r@.len() {
                        assert(path_views(r@).last() == p);
                    } else {
                        assert(path_views(pre).contains(p));
                        let k = choose|k: int|
                            0 <= k < path_views(pre).len() && path_views(pre)[k] == p;
                        assert(path_views(r@)[k] == p);
                    }
                }
            }
        }
        i = i + 1;
    }
    proof {
        assert(paths@.subrange(0, n as int) =~= paths@);
    }
    r
}

/// Unite a batch of closures into one set of entries, each kept once.
/// The union is the same whatever the order or grouping of the batch:
/// exactly the paths of the inputs appear, without duplicates.
pub fn union_closures(closures: &Vec<Vec<StorePath>>) -> (r: Vec<StorePath>)
    ensures
        path_views(r@).no_duplicates(),
        forall|p: Seq<char>|
            #[trigger] path_views(r@).contains(p) <==> flat_path_views(closures@).contains(p),
{
    let flat = concat_closures(closures);
    dedup_paths(&flat)
}

/// Resolving seed sets in separate batches and uniting loses nothing and
/// invents nothing: the paths of a concatenated batch are exactly the
/// paths of its two parts. With [`union_closures`], the union over
/// `a + b` therefore holds a path exactly when the union over `a` or the
/// union over `b` does, whatever the grouping or order of the batches.
pub proof fn lemma_union_batching(a: Seq<Vec<StorePath>>, b: Seq<Vec<StorePath>>)
    ensures
        forall|p: Seq<char>|
            #[trigger] flat_path_views(a.add(b)).contains(p) <==> (flat_path_views(a).contains(p)
                || flat_path_views(b).contains(p)),
{
    let f = |c: Vec<StorePath>| path_views(c@);
    assert(a.add(b).map_values(f) =~= a.map_values(f).add(b.map_values(f)));
    vstd::seq_lib::lemma_flatten_concat(a.map_values(f), b.map_values(f));
    assert(flat_path_views(a.add(b)) =~= flat_path_views(a).add(flat_path_views(b)));
    assert forall|p: Seq<char>| #[trigger] flat_path_views(a.add(b)).contains(p) implies (
    flat_path_views(a).contains(p) || flat_path_views(b).contains(p)) by {
        let i = choose|i: int|
            0 <= i < flat_path_views(a.add(b)).len() && flat_path_views(a.add(b))[i] == p;
        if i < flat_path_views(a).len() {
            assert(flat_path_views(a)[i] == p);
        } else {
            assert(flat_path_views(b)[i - flat_path_views(a).len()] == p);
        }
    }
    assert forall|p: Seq<char>|
        (flat_path_views(a).contains(p) || flat_path_views(b).contains(p)) implies #[trigger] flat_path_views(
        a.add(b),
    ).contains(p) by {
        if flat_path_views(a).contains(p) {
            let i = choose|i: int|
                0 <= i < flat_path_views(a).len() && flat_path_views(a)[i] == p;
            assert(flat_path_views(a.add(b))[i] == p);
        } else {
            let i = choose|i: int|
                0 <= i < flat_path_views(b).len() && flat_path_views(b)[i] == p;
            assert(flat_path_views(a.add(b))[flat_path_views(a).len() + i] == p);
        }
    }
}

/// How often `p` occurs in `s`.
pub open spec fn count_occurrences(s: Seq<Seq<char>>, p: Seq<char>) -> int
    decreases s.len(),
{
    if s.len() == 0 {
        0int
    } else {
        count_occurrences(s.drop_last(), p) + if s.last() == p {
            1int
        } else {
            0int
        }
    }
}

/// How many entries of `v` hold the path `p`.
fn count_path(v: &Vec<StorePath>, p: &str) -> (r: usize)
    ensures
        r == count_occurrences(path_views(v@), p@),
{
    let n = v.len();
    let mut c: usize = 0;
    let mut i: usize = 0;
    proof {
        assert(path_views(v@.subrange(0, 0)) =~= path_views(v@).subrange(0, 0));
    }
    while i < n
        invariant
            i <= n,
            n == v@.len(),
            c <= i,
            c == count_occurrences(path_views(v@).subrange(0, i as int), p@),
        decreases n - i,
    {
        let ghost prefix = path_views(v@).subrange(0, i as int);
        let ghost next = path_views(v@).subrange(0, i + 1);
        proof {
            assert(next.drop_last() =~= prefix);
            assert(next.last() == v@[i as int]@);
        }
        if eq_str(v[i].path.as_str(), p) {
            c = c + 1;
        }
        i = i + 1;
    }
    proof {
        assert(path_views(v@).subrange(0, n as int) =~= path_views(v@));
    }
    c
}

/// How often each entry of a batch of closures occurs across the whole
/// batch: one pair per distinct path, with its multiplicity. An entry that
/// several closures share counts once per closure that holds it.
pub fn count_closure_paths(closures: &Vec<Vec<StorePath>>) -> (r: Vec<(StorePath, usize)>)
    ensures
        r@.map_values(|pr: (StorePath, usize)| pr.0@).no_duplicates(),
        forall|i: int|
            0 <= i < r@.len() ==> (#[trigger] r@[i]).1 == count_occurrences(
                flat_path_views(closures@),
                r@[i].0@,
            ),
        forall|p: Seq<char>|
            #[trigger] flat_path_views(closures@).contains(p) <==> r@.map_values(
                |pr: (StorePath, usize)| pr.0@,
            ).contains(p),
{
    let flat = concat_closures(closures);
    let uniq = dedup_paths(&flat);
    let n = uniq.len();
    let mut r: Vec<(StorePath, usize)> = Vec::new();
    let ghost g = |pr: (StorePath, usize)| pr.0@;
    let mut i: usize = 0;
    while i < n
        invariant
            i <= n,
            n == uniq@.len(),
            g == (|pr: (StorePath, usize)| pr.0@),
            path_views(flat@) == flat_path_views(closures@),
            r@.len() == i,
            forall|k: int| 0 <= k < i ==> (#[trigger] r@[k]).0 == uniq@[k],
            forall|k: int|
                0 <= k < i ==> (#[trigger] r@[k]).1 == count_occurrences(
                    flat_path_views(closures@),
                    r@[k].0@,
                ),
        decreases n - i,
    {
        let c = count_path(&flat, uniq[i].path.as_str());
        let p = uniq[i].duplicate();
        r.push((p, c));
        i = i + 1;
    }
    proof {
        assert forall|p: Seq<char>| #[trigger] flat_path_views(closures@).contains(p) implies r@.map_values(
            g,
        ).contains(p) by {
            assert(path_views(flat@).contains(p));
            assert(path_views(uniq@).contains(p));
            let j = choose|j: int| 0 <= j < path_views(uniq@).len() && path_views(uniq@)[j] == p;
            assert(r@.map_values(g)[j] == p);
        }
        assert forall|p: Seq<char>| r@.map_values(g).contains(p) implies #[trigger] flat_path_views(
            closures@,
        ).contains(p) by {
            let j = choose|j: int| 0 <= j < r@.map_values(g).len() && r@.map_values(g)[j] == p;
            assert(path_views(uniq@)[j] == p);
            assert(path_views(uniq@).contains(p));
            assert(path_views(flat@).contains(p));
        }
        assert forall|a: int, b: int|
            0 <= a < b < r@.map_values(g).len() implies r@.map_values(g)[a] != r@.map_values(
            g,
        )[b] by {
            assert(path_views(uniq@)[a] == r@.map_values(g)[a]);
            assert(path_views(uniq@)[b] == r@.map_values(g)[b]);
        }
    }
    r
}

/// The hash that keys the closure cache: a digest of an ordered list of
/// store paths. Named, not spelled out: it stands for what the polynomial
/// hash of `rustc_hash` computes, a function of the strings alone.
pub uninterp spec fn path_list_hash(paths: Seq<Seq<char>>) -> u64;

/// Relies on `rustc_hash::FxBuildHasher` (via `BuildHasher::hash_one` over
/// `Vec<String>`): an unseeded polynomial hash whose result is a function
/// of the hashed strings alone.
#[verifier::external_body]
fn fx_hash_strings(paths: &Vec<String>) -> (r: u64)
    ensures
        r == path_list_hash(paths.deep_view()),
{
    std::hash::BuildHasher::hash_one(&rustc_hash::FxBuildHasher, paths)
}

/// The cache key for a closure query: the hash of its ordered path list.
pub fn closure_cache_key(paths: &Vec<StorePath>) -> (r: u64)
    ensures
        r == path_list_hash(path_views(paths@)),
{
    let n = paths.len();
    let mut strs: Vec<String> = Vec::new();
    let mut i: usize = 0;
    while i < n
        invariant
            i <= n,
            n == paths@.len(),
            strs@.len() == i,
            forall|j: int| 0 <= j < i ==> (#[trigger] strs@[j])@ == paths@[j]@,
        decreases n - i,
    {
        let s = paths[i].path().clone();
        strs.push(s);
        i = i + 1;
    }
    proof {
        assert(strs.deep_view() =~= path_views(paths@));
    }
    fx_hash_strings(&strs)
}

/// The memoization layer of the closure resolver: resolved closures, keyed
/// by the hash of the ordered input path list. Purely an optimization —
/// a miss is answered by asking the external query tool and storing the
/// parsed result here.
pub struct ClosureCache {
    cache: Cache<Vec<StorePath>>,
}

impl ClosureCache {
    /// The stored closures, by query key.
    pub closed spec fn view(&self) -> Map<u64, Vec<StorePath>> {
        self.cache@
    }

    /// The cache's internal invariant.
    pub closed spec fn wf(&self) -> bool {
        self.cache.wf()
    }

    /// A fresh, empty closure cache.
    pub fn new() -> (r: ClosureCache)
        ensures
            r.wf(),
            r@ == Map::<u64, Vec<StorePath>>::empty(),
    {
        ClosureCache { cache: Cache::new() }
    }

    /// The closure memoized for this exact input list, if any.
    pub fn lookup(&self, paths: &Vec<StorePath>) -> (r: Option<&Vec<StorePath>>)
        requires
            self.wf(),
        ensures
            match r {
                Option::Some(v) => self@.dom().contains(path_list_hash(path_views(paths@)))
                    && *v == self@[path_list_hash(path_views(paths@))],
                Option::None => !self@.dom().contains(path_list_hash(path_views(paths@))),
            },
    {
        let key = closure_cache_key(paths);
        self.cache.lookup(key)
    }

    /// Memoize the resolved closure of this exact input list. At or below
    /// the size bound the stored map is exactly the old map plus the new
    /// binding; past it, entries under other keys either survive unchanged
    /// or fall to eviction; none is ever rebound.
    pub fn insert(&mut self, paths: &Vec<StorePath>, closure: Vec<StorePath>)
        requires
            old(self).wf(),
        ensures
            final(self).wf(),
            final(self)@.dom().contains(path_list_hash(path_views(paths@))),
            final(self)@[path_list_hash(path_views(paths@))] == closure,
            forall|k: u64|
                k != path_list_hash(path_views(paths@)) && #[trigger] final(self)@.dom().contains(k)
                    ==> old(self)@.dom().contains(k) && final(self)@[k] == old(self)@[k],
            old(self)@.dom().len() <= crate::cache::CACHE_SIZE_LIMIT ==> final(self)@ == old(
                self,
            )@.insert(path_list_hash(path_views(paths@)), closure),
    {
        let key = closure_cache_key(paths);
        self.cache.insert(key, closure);
    }
}

} // verus!
