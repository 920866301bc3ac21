//! Text helpers for filesystem paths and decimal numbers.
//!
//! Paths are handled as plain strings. The helpers here assume normalized
//! paths: no trailing separator and no repeated separators.
use vstd::prelude::*;

verus! {

/// `p` is a prefix of `s`.
pub open spec fn str_starts_with(s: Seq<char>, p: Seq<char>) -> bool {
    p.len() <= s.len() && s.subrange(0, p.len() as int) == p
}

/// `p` is a suffix of `s`.
pub open spec fn str_ends_with(s: Seq<char>, p: Seq<char>) -> bool {
    p.len() <= s.len() && s.subrange(s.len() - p.len(), s.len() as int) == p
}

/// `prefix` is an ancestor of `p` (or `p` itself), component-wise.
pub open spec fn path_starts_with(p: Seq<char>, prefix: Seq<char>) -> bool {
    p == prefix || str_starts_with(p, prefix.push('/'))
}

/// `suffix` names the last components of `p` (or all of `p`), component-wise.
pub open spec fn path_ends_with(p: Seq<char>, suffix: Seq<char>) -> bool {
    p == suffix || str_ends_with(p, seq!['/'].add(suffix))
}

/// The part of `s` after its last `/`; all of `s` when it has none.
pub open spec fn spec_file_name(s: Seq<char>) -> Seq<char>
    decreases s.len(),
{
    if s.len() == 0 {
        Seq::empty()
    } else if s.last() == '/' {
        Seq::empty()
    } else {
        spec_file_name(s.drop_last()).push(s.last())
    }
}

/// The parent of path `s`, with the semantics of `Path::parent` on
/// normalized paths: `None` for the root and the empty path, `""` for a
/// bare file name, `"/"` for a direct child of the root.
pub open spec fn spec_parent(s: Seq<char>) -> Option<Seq<char>> {
    if s.len() == 0 || s == seq!['/'] {
        None
    } else if s.len() == spec_file_name(s).len() {
        Some(Seq::empty())
    } else if s.len() - spec_file_name(s).len() == 1 {
        Some(seq!['/'])
    } else {
        Some(s.subrange(0, s.len() - spec_file_name(s).len() - 1))
    }
}

proof fn lemma_file_name_subrange(s: Seq<char>, i: int)
    requires
        0 <= i <= s.len(),
        i == 0 || s[i - 1] == '/',
        forall|j: int| i <= j < s.len() ==> s[j] != '/',
    ensures
        spec_file_name(s) == s.subrange(i, s.len() as int),
    decreases s.len(),
{
    if s.len() == 0 {
        assert(spec_file_name(s) =~= s.subrange(i, s.len() as int));
    } else if i == s.len() {
        assert(s.last() == '/');
        assert(spec_file_name(s) =~= s.subrange(i, s.len() as int));
    } else {
        assert(s.last() != '/');
        lemma_file_name_subrange(s.drop_last(), i);
        assert(spec_file_name(s) =~= s.subrange(i, s.len() as int));
    }
}

/// Index just past the last `/` of `s`; `0` when `s` has none.
fn after_last_slash(s: &str) -> (i: usize)
    ensures
        i <= s@.len(),
        spec_file_name(s@) == s@.subrange(i as int, s@.len() as int),
        i > 0 ==> s@[i - 1] == '/',
        forall|j: int| i <= j < s@.len() ==> s@[j] != '/',
{
    let len = s.unicode_len();
    let mut i = len;
    while i > 0 && s.get_char(i - 1) != '/'
        invariant
            i <= len,
            len == s@.len(),
            forall|j: int| i <= j < s@.len() ==> s@[j] != '/',
        decreases i,
    {
        i = i - 1;
    }
    proof {
        lemma_file_name_subrange(s@, i as int);
    }
    i
}

/// The file name of `s`: what stands after its last separator.
pub fn file_name_of(s: &str) -> (r: String)
    ensures
        r@ == spec_file_name(s@),
{
    let i = after_last_slash(s);
    let len = s.unicode_len();
    let sub = s.substring_char(i, len);
    sub.to_owned()
}

/// The parent of `s`, with the semantics of `Path::parent`.
pub fn parent_of(s: &str) -> (r: Option<String>)
    ensures
        match r {
            Option::Some(p) => spec_parent(s@) == Option::Some(p@),
            Option::None => spec_parent(s@) == Option::<Seq<char>>::None,
        },
{
    let len = s.unicode_len();
    if len == 0 {
        return Option::None;
    }
    if len == 1 && s.get_char(0) == '/' {
        proof {
            assert(s@ =~= seq!['/']);
        }
        return Option::None;
    }
    let i = after_last_slash(s);
    proof {
        assert(s@ != seq!['/']);
        assert(spec_file_name(s@).len() == len - i);
    }
    if i == 0 {
        let r = String::new();
        Option::Some(r)
    } else if i == 1 {
        proof {
            assert(s@[0] == '/');
        }
        let sub = s.substring_char(0, 1);
        proof {
            assert(sub@ =~= seq!['/']);
        }
        Option::Some(sub.to_owned())
    } else {
        let sub = s.substring_char(0, i - 1);
        Option::Some(sub.to_owned())
    }
}

/// Whether `p` is a prefix of `s`, character for character.
pub fn starts_with_str(s: &str, p: &str) -> (r: bool)
    ensures
        r == str_starts_with(s@, p@),
{
    let slen = s.unicode_len();
    let plen = p.unicode_len();
    if plen > slen {
        return false;
    }
    let mut i: usize = 0;
    while i < plen
        invariant
            i <= plen,
            plen <= slen,
            slen == s@.len(),
            plen == p@.len(),
            forall|j: int| 0 <= j < i ==> s@[j] == p@[j],
        decreases plen - i,
    {
        if s.get_char(i) != p.get_char(i) {
            assert(s@.subrange(0, plen as int)[i as int] != p@[i as int]);
            return false;
        }
        i = i + 1;
    }
    proof {
        assert(s@.subrange(0, plen as int) =~= p@);
    }
    true
}

/// Whether `p` is a suffix of `s`, character for character.
pub fn ends_with_str(s: &str, p: &str) -> (r: bool)
    ensures
        r == str_ends_with(s@, p@),
{
    let slen = s.unicode_len();
    let plen = p.unicode_len();
    if plen > slen {
        return false;
    }
    let off = slen - plen;
    let mut i: usize = 0;
    while i < plen
        invariant
            i <= plen,
            off == slen - plen,
            plen <= slen,
            slen == s@.len(),
            plen == p@.len(),
            forall|j: int| 0 <= j < i ==> s@[off + j] == p@[j],
        decreases plen - i,
    {
        if s.get_char(off + i) != p.get_char(i) {
            assert(s@.subrange(off as int, slen as int)[i as int] != p@[i as int]);
            return false;
        }
        i = i + 1;
    }
    proof {
        assert(s@.subrange(off as int, slen as int) =~= p@);
    }
    true
}

/// Whether `s` and `p` hold the same characters.
pub fn eq_str(s: &str, p: &str) -> (r: bool)
    ensures
        r == (s@ == p@),
{
    let slen = s.unicode_len();
    let plen = p.unicode_len();
    if slen != plen {
        return false;
    }
    let r = starts_with_str(s, p);
    proof {
        if str_starts_with(s@, p@) {
            assert(s@ =~= p@);
        }
        if s@ == p@ {
            assert(s@.subrange(0, plen as int) =~= p@);
        }
    }
    r
}

/// Whether `prefix` is an ancestor of `p` or `p` itself.
pub fn path_has_prefix(p: &str, prefix: &str) -> (r: bool)
    ensures
        r == path_starts_with(p@, prefix@),
{
    if eq_str(p, prefix) {
        return true;
    }
    let mut ext = prefix.to_owned();
    ext.append("/");
    proof {
        reveal_strlit("/");
        assert(ext@ =~= prefix@.push('/'));
    }
    starts_with_str(p, ext.as_str())
}

/// Whether `suffix` names the last components of `p` or all of it.
pub fn path_has_suffix(p: &str, suffix: &str) -> (r: bool)
    ensures
        r == path_ends_with(p@, suffix@),
{
    if eq_str(p, suffix) {
        return true;
    }
    let mut ext = String::from_str("/");
    ext.append(suffix);
    proof {
        reveal_strlit("/");
        assert(ext@ =~= seq!['/'].add(suffix@));
    }
    ends_with_str(p, ext.as_str())
}

/// `child` resolved against `parent`: `child` itself when absolute,
/// otherwise the two joined with a single separator.
pub open spec fn spec_join(parent: Seq<char>, child: Seq<char>) -> Seq<char> {
    if str_starts_with(child, seq!['/']) {
        child
    } else if str_ends_with(parent, seq!['/']) {
        parent.add(child)
    } else {
        parent.add(seq!['/']).add(child)
    }
}

/// Relies on `Iterator::collect` for `String`: collecting an iterator of
/// characters yields the string of exactly those characters, in order.
#[verifier::external_body]
pub(crate) fn chars_to_string(v: &Vec<char>) -> (r: String)
    ensures
        r@ == v@,
{
    v.iter().collect()
}

/// The decimal digit character for `d`.
pub open spec fn spec_digit_char(d: int) -> char {
    if d == 0 {
        '0'
    } else if d == 1 {
        '1'
    } else if d == 2 {
        '2'
    } else if d == 3 {
        '3'
    } else if d == 4 {
        '4'
    } else if d == 5 {
        '5'
    } else if d == 6 {
        '6'
    } else if d == 7 {
        '7'
    } else if d == 8 {
        '8'
    } else {
        '9'
    }
}

/// The decimal rendering of `n`, most significant digit first.
pub open spec fn spec_decimal(n: nat) -> Seq<char>
    decreases n,
{
    if n < 10 {
        seq![spec_digit_char(n as int)]
    } else {
        spec_decimal(n / 10).push(spec_digit_char((n % 10) as int))
    }
}

fn digit_char(d: u64) -> (c: char)
    requires
        d < 10,
    ensures
        c == spec_digit_char(d as int),
{
    match d {
        0 => '0',
        1 => '1',
        2 => '2',
        3 => '3',
        4 => '4',
        5 => '5',
        6 => '6',
        7 => '7',
        8 => '8',
        _ => '9',
    }
}

/// Render `n` in decimal.
pub fn fmt_u64(n: u64) -> (r: String)
    ensures
        r@ == spec_decimal(n as nat),
{
    let mut rev: Vec<char> = Vec::new();
    let mut m = n;
    if m == 0 {
        let r = String::from_str("0");
        proof {
            reveal_strlit("0");
            assert(r@ =~= spec_decimal(0));
        }
        return r;
    }
    while m > 0
        invariant
            m > 0 ==> spec_decimal(n as nat) == spec_decimal(m as nat).add(rev@.reverse()),
            m == 0 ==> spec_decimal(n as nat) == rev@.reverse(),
        decreases m,
    {
        let d = m % 10;
        let ghost old_rev = rev@;
        let ghost old_m = m as nat;
        rev.push(digit_char(d));
        m = m / 10;
        proof {
            assert(rev@.reverse() =~= seq![spec_digit_char(d as int)].add(old_rev.reverse()));
            if old_m < 10 {
                assert(spec_decimal(n as nat) =~= rev@.reverse());
            } else {
                assert(spec_decimal(old_m) == spec_decimal(old_m / 10).push(
                    spec_digit_char((old_m % 10) as int),
                ));
                assert(spec_decimal(old_m).add(old_rev.reverse()) =~= spec_decimal(
                    old_m / 10,
                ).add(rev@.reverse()));
            }
        }
    }
    let mut out: Vec<char> = Vec::new();
    let mut j = rev.len();
    while j > 0
        invariant
            j <= rev@.len(),
            out@ == rev@.subrange(j as int, rev@.len() as int).reverse(),
        decreases j,
    {
        let c = rev[j - 1];
        out.push(c);
        j = j - 1;
        proof {
            assert(out@ =~= rev@.subrange(j as int, rev@.len() as int).reverse());
        }
    }
    proof {
        assert(rev@.subrange(0, rev@.len() as int) =~= rev@);
    }
    chars_to_string(&out)
}

/// Whether `c` is a decimal digit.
pub open spec fn is_dec_digit(c: char) -> bool {
    '0' <= c && c <= '9'
}

/// Whether `s` is one or more decimal digits and nothing else.
pub open spec fn is_digit_string(s: Seq<char>) -> bool {
    s.len() > 0 && (forall|i: int| 0 <= i < s.len() ==> is_dec_digit(#[trigger] s[i]))
}

/// The numeric value of digit character `c`.
pub open spec fn spec_digit_val(c: char) -> int {
    c as int - '0' as int
}

/// The numeric value of digit string `s`.
pub open spec fn decimal_value(s: Seq<char>) -> int
    decreases s.len(),
{
    if s.len() == 0 {
        0
    } else {
        decimal_value(s.drop_last()) * 10 + spec_digit_val(s.last())
    }
}

proof fn lemma_decimal_value_nonneg(s: Seq<char>)
    requires
        forall|i: int| 0 <= i < s.len() ==> is_dec_digit(#[trigger] s[i]),
    ensures
        decimal_value(s) >= 0,
    decreases s.len(),
{
    if s.len() > 0 {
        lemma_decimal_value_nonneg(s.drop_last());
    }
}

proof fn lemma_decimal_prefix_le(s: Seq<char>, i: int)
    requires
        0 <= i <= s.len(),
        forall|j: int| 0 <= j < s.len() ==> is_dec_digit(#[trigger] s[j]),
    ensures
        decimal_value(s.subrange(0, i)) <= decimal_value(s),
    decreases s.len() - i,
{
    if i == s.len() {
        assert(s.subrange(0, i) =~= s);
    } else {
        lemma_decimal_prefix_le(s, i + 1);
        let p = s.subrange(0, i + 1);
        assert(p.drop_last() =~= s.subrange(0, i));
        lemma_decimal_value_nonneg(p.drop_last());
        assert(decimal_value(s.subrange(0, i)) <= decimal_value(p));
    }
}

/// Parse `s` as a decimal number: `Some` exactly when `s` is all digits,
/// at least one, and the value fits in `usize`.
pub fn parse_usize(s: &str) -> (r: Option<usize>)
    ensures
        match r {
            Option::Some(n) => is_digit_string(s@) && decimal_value(s@) <= usize::MAX && n as int
                == decimal_value(s@),
            Option::None => !is_digit_string(s@) || decimal_value(s@) > usize::MAX,
        },
{
    let len = s.unicode_len();
    if len == 0 {
        return Option::None;
    }
    let mut v: usize = 0;
    let mut i: usize = 0;
    while i < len
        invariant
            i <= len,
            len == s@.len(),
            len > 0,
            forall|j: int| 0 <= j < i ==> is_dec_digit(#[trigger] s@[j]),
            v as int == decimal_value(s@.subrange(0, i as int)),
        decreases len - i,
    {
        let c = s.get_char(i);
        if !(c >= '0' && c <= '9') {
            return Option::None;
        }
        let d: usize = (c as u32 as usize) - ('0' as u32 as usize);
        let limit = (usize::MAX - d) / 10;
        proof {
            let p = s@.subrange(0, i + 1);
            assert(p.drop_last() =~= s@.subrange(0, i as int));
            assert(decimal_value(p) == v as int * 10 + d);
            if v > limit {
                assert(v as int * 10 + d > usize::MAX) by (nonlinear_arith)
                    requires
                        v as int > (usize::MAX as int - d) / 10,
                        0 <= d < 10,
                ;
                if is_digit_string(s@) {
                    lemma_decimal_prefix_le(s@, i + 1);
                }
            }
        }
        if v > limit {
            return Option::None;
        }
        proof {
            assert(v as int * 10 + d <= usize::MAX) by (nonlinear_arith)
                requires
                    v as int <= (usize::MAX as int - d) / 10,
                    0 <= d < 10,
            ;
        }
        v = v * 10 + d;
        i = i + 1;
    }
    proof {
        assert(s@.subrange(0, len as int) =~= s@);
    }
    Option::Some(v)
}

/// The views of a sequence of strings.
pub open spec fn string_views(s: Seq<String>) -> Seq<Seq<char>> {
    s.map_values(|x: String| x@)
}

/// Lexicographic order on text: character by character, shorter prefixes
/// first.
pub open spec fn lex_leq(a: Seq<char>, b: Seq<char>) -> bool
    decreases a.len(),
{
    if a.len() == 0 {
        true
    } else if b.len() == 0 {
        false
    } else if a[0] == b[0] {
        lex_leq(a.drop_first(), b.drop_first())
    } else {
        a[0] < b[0]
    }
}

proof fn lemma_lex_after_common_prefix(a: Seq<char>, b: Seq<char>, i: int)
    requires
        0 <= i <= a.len(),
        i <= b.len(),
        forall|j: int| 0 <= j < i ==> a[j] == b[j],
    ensures
        lex_leq(a, b) == lex_leq(a.subrange(i, a.len() as int), b.subrange(i, b.len() as int)),
    decreases i,
{
    if i == 0 {
        assert(a.subrange(0, a.len() as int) =~= a);
        assert(b.subrange(0, b.len() as int) =~= b);
    } else {
        assert(a[0] == b[0]);
        let ad = a.drop_first();
        let bd = b.drop_first();
        assert(forall|j: int| 0 <= j < i - 1 ==> #[trigger] ad[j] == bd[j]);
        lemma_lex_after_common_prefix(ad, bd, i - 1);
        assert(ad.subrange(i - 1, ad.len() as int) =~= a.subrange(i, a.len() as int));
        assert(bd.subrange(i - 1, bd.len() as int) =~= b.subrange(i, b.len() as int));
    }
}

/// The lexicographic order is total.
pub proof fn lemma_lex_total(a: Seq<char>, b: Seq<char>)
    ensures
        lex_leq(a, b) || lex_leq(b, a),
    decreases a.len(),
{
    if a.len() > 0 && b.len() > 0 && a[0] == b[0] {
        lemma_lex_total(a.drop_first(), b.drop_first());
    }
}

/// The lexicographic order is transitive.
pub proof fn lemma_lex_trans(a: Seq<char>, b: Seq<char>, c: Seq<char>)
    requires
        lex_leq(a, b),
        lex_leq(b, c),
    ensures
        lex_leq(a, c),
    decreases a.len(),
{
    if a.len() > 0 {
        assert(b.len() > 0);
        assert(c.len() > 0);
        if a[0] == b[0] && b[0] == c[0] {
            lemma_lex_trans(a.drop_first(), b.drop_first(), c.drop_first());
        }
    }
}

/// Whether `a` stands at or before `b` in lexicographic order.
pub fn str_le(a: &str, b: &str) -> (r: bool)
    ensures
        r == lex_leq(a@, b@),
{
    let alen = a.unicode_len();
    let blen = b.unicode_len();
    let n = if alen <= blen {
        alen
    } else {
        blen
    };
    let mut i: usize = 0;
    while i < n
        invariant
            i <= n,
            n == if alen <= blen {
                alen
            } else {
                blen
            },
            alen == a@.len(),
            blen == b@.len(),
            forall|j: int| 0 <= j < i ==> a@[j] == b@[j],
        decreases n - i,
    {
        let ca = a.get_char(i);
        let cb = b.get_char(i);
        if ca != cb {
            proof {
                lemma_lex_after_common_prefix(a@, b@, i as int);
            }
            return ca < cb;
        }
        i = i + 1;
    }
    proof {
        lemma_lex_after_common_prefix(a@, b@, n as int);
    }
    alen <= blen
}

/// Sort text ascending, lexicographically, keeping exactly the same
/// strings.
pub fn sort_strings(v: &mut Vec<String>)
    ensures
        final(v)@.len() == old(v)@.len(),
        forall|i: int, j: int|
            0 <= i < j < final(v)@.len() ==> lex_leq(
                #[trigger] final(v)@[i]@,
                #[trigger] final(v)@[j]@,
            ),
        string_views(final(v)@).to_multiset() == string_views(old(v)@).to_multiset(),
{
    let ghost view_of = |x: String| x@;
    let n = v.len();
    if n == 0 {
        return ;
    }
    let mut i: usize = 1;
    while i < n
        invariant
            1 <= i <= n,
            n == v@.len(),
            view_of == (|x: String| x@),
            forall|a: int, b: int|
                0 <= a < b < i ==> lex_leq(#[trigger] v@[a]@, #[trigger] v@[b]@),
            v@.map_values(view_of).to_multiset() == old(v)@.map_values(view_of).to_multiset(),
        decreases n - i,
    {
        let mut j: usize = 0;
        while j < i && str_le(v[j].as_str(), v[i].as_str())
            invariant
                j <= i < n,
                n == v@.len(),
                forall|k: int| 0 <= k < j ==> lex_leq(#[trigger] v@[k]@, v@[i as int]@),
            decreases i - j,
        {
            j = j + 1;
        }
        if j < i {
            let ghost pre = v@;
            proof {
                lemma_lex_total(pre[j as int]@, pre[i as int]@);
            }
            let x = v.remove(i);
            let ghost mid = v@;
            v.insert(j, x);
            proof {
                assert(mid.map_values(view_of) =~= pre.map_values(view_of).remove(i as int));
                assert(v@.map_values(view_of) =~= mid.map_values(view_of).insert(j as int, x@));
                vstd::seq_lib::to_multiset_remove(pre.map_values(view_of), i as int);
                vstd::seq_lib::to_multiset_insert(mid.map_values(view_of), j as int, x@);
                assert(pre.map_values(view_of).contains(x@));
                vstd::seq_lib::to_multiset_contains(pre.map_values(view_of), x@);
                assert(pre.map_values(view_of).to_multiset().remove(x@).insert(x@)
                    =~= pre.map_values(view_of).to_multiset());
                assert(v@.map_values(view_of).to_multiset() == old(v)@.map_values(
                    view_of,
                ).to_multiset());
                let cur = v@.subrange(0, i + 1);
                let prev = pre.subrange(0, i as int);
                assert forall|a2: int, b2: int|
                    0 <= a2 < b2 < prev.len() implies lex_leq(prev[a2]@, prev[b2]@) by {
                    assert(prev[a2] == pre[a2]);
                    assert(prev[b2] == pre[b2]);
                }
                assert forall|k: int| 0 <= k < j implies lex_leq(prev[k]@, x@) by {
                    assert(prev[k] == pre[k]);
                }
                assert(lex_leq(x@, prev[j as int]@));
                assert forall|k: int| j <= k < i implies lex_leq(x@, prev[k]@) by {
                    if k > j {
                        lemma_lex_trans(x@, prev[j as int]@, prev[k]@);
                    }
                }
                assert forall|a: int, b: int|
                    0 <= a < b < i + 1 implies lex_leq(#[trigger] v@[a]@, #[trigger] v@[b]@) by {
                    if a < j {
                        assert(v@[a] == prev[a]);
                    } else if a == j {
                        assert(v@[a] == x);
                    } else {
                        assert(v@[a] == prev[a - 1]);
                    }
                    if b < j {
                        assert(v@[b] == prev[b]);
                    } else if b == j {
                        assert(v@[b] == x);
                        if a < j {
                            assert(lex_leq(prev[a]@, x@));
                        }
                    } else {
                        assert(v@[b] == prev[b - 1]);
                        if a == j {
                            assert(lex_leq(x@, prev[b - 1]@));
                        }
                    }
                }
            }
        } else {
            proof {
                assert forall|a: int, b: int|
                    0 <= a < b < i + 1 implies lex_leq(#[trigger] v@[a]@, #[trigger] v@[b]@) by {
                    if b == i {
                        assert(lex_leq(v@[a]@, v@[i as int]@));
                    }
                }
            }
        }
        i = i + 1;
    }
}

/// Join a path and a child name, as `Path::join` does on normalized paths.
pub fn join_path(parent: &str, child: &str) -> (r: String)
    ensures
        r@ == spec_join(parent@, child@),
{
    proof {
        reveal_strlit("/");
        assert("/"@ =~= seq!['/']);
    }
    if starts_with_str(child, "/") {
        return child.to_owned();
    }
    let mut r = parent.to_owned();
    if !ends_with_str(parent, "/") {
        r.append("/");
    }
    r.append(child);
    proof {
        assert(!str_starts_with(child@, "/"@));
        assert("/"@ =~= seq!['/']);
        if str_ends_with(parent@, seq!['/']) {
            assert(r@ =~= parent@.add(child@));
        } else {
            assert(r@ =~= parent@.add(seq!['/']).add(child@));
        }
    }
    r
}

} // verus!
