//! Rendering values for tabular output: byte sizes, percentages, ages,
//! brackets, prefixes and suffixes, optional values, and truncation — each
//! as text of a known column width, so reports line up.
use vstd::prelude::*;

use crate::pathstr::chars_to_string;
use crate::pathstr::fmt_u64;
use crate::pathstr::spec_decimal;

verus! {

/// Spaces, `n` of them.
pub open spec fn spec_spaces(n: int) -> Seq<char>
    decreases n,
{
    if n <= 0 {
        Seq::empty()
    } else {
        spec_spaces(n - 1).push(' ')
    }
}

/// `t` padded with spaces on the left up to width `w`.
pub open spec fn spec_pad_left(t: Seq<char>, w: int) -> Seq<char> {
    if t.len() >= w {
        t
    } else {
        spec_spaces(w - t.len()).add(t)
    }
}

/// `t` padded with spaces on the right up to width `w`.
pub open spec fn spec_pad_right(t: Seq<char>, w: int) -> Seq<char> {
    if t.len() >= w {
        t
    } else {
        t.add(spec_spaces(w - t.len()))
    }
}

fn make_spaces(n: usize) -> (r: Vec<char>)
    ensures
        r@ == spec_spaces(n as int),
{
    let mut r: Vec<char> = Vec::new();
    let mut i: usize = 0;
    while i < n
        invariant
            i <= n,
            r@ == spec_spaces(i as int),
        decreases n - i,
    {
        r.push(' ');
        i = i + 1;
    }
    r
}

/// Something that renders to text of a known column width.
pub trait Formattable {
    /// The characters this value renders to.
    spec fn text(&self) -> Seq<char>;

    /// The column width values of this shape are padded to.
    spec fn width() -> int;

    /// The column width, as a count.
    fn max_width() -> (r: usize)
        ensures
            r as int == Self::width(),
    ;

    /// The value's text.
    fn render(&self) -> (r: String)
        ensures
            r@ == self.text(),
    ;
}

/// A value's text, padded with spaces on the left to its column width.
pub fn left_pad<T: Formattable>(x: &T) -> (r: String)
    ensures
        r@ == spec_pad_left(x.text(), T::width()),
{
    let s = x.render();
    let w = T::max_width();
    let n = s.as_str().unicode_len();
    if n >= w {
        return s;
    }
    let spaces = make_spaces(w - n);
    let mut out = chars_to_string(&spaces);
    out.append(s.as_str());
    out
}

/// A value's text, padded with spaces on the right to its column width.
pub fn right_pad<T: Formattable>(x: &T) -> (r: String)
    ensures
        r@ == spec_pad_right(x.text(), T::width()),
{
    let mut s = x.render();
    let w = T::max_width();
    let n = s.as_str().unicode_len();
    if n >= w {
        return s;
    }
    let spaces = make_spaces(w - n);
    let pad = chars_to_string(&spaces);
    s.append(pad.as_str());
    s
}

/// What a byte count renders to, human-readable. Named, not spelled out:
/// it stands for the default rendering of the `size` crate, a function of
/// the byte count alone.
pub uninterp spec fn size_text(bytes: u64) -> Seq<char>;

/// Relies on `size::Size::from_bytes(..).to_string()`: the default
/// human-readable rendering of a byte count, depending on it alone.
#[verifier::external_body]
fn render_size(bytes: u64) -> (r: String)
    ensures
        r@ == size_text(bytes),
{
    size::Size::from_bytes(bytes).to_string()
}

/// A byte count, rendered human-readable.
pub struct FmtSize {
    bytes: u64,
}

impl FmtSize {
    /// Render this many bytes.
    pub fn new(bytes: u64) -> (r: FmtSize)
        ensures
            r.text() == size_text(bytes),
    {
        FmtSize { bytes }
    }
}

impl Formattable for FmtSize {
    closed spec fn text(&self) -> Seq<char> {
        size_text(self.bytes)
    }

    open spec fn width() -> int {
        11
    }

    fn max_width() -> usize {
        11
    }

    fn render(&self) -> String {
        render_size(self.bytes)
    }
}

/// A share of a total, rendered as a whole percentage.
pub struct FmtPercentage {
    pct: u64,
}

impl FmtPercentage {
    /// The percentage `amount` is of `total`, rounded down.
    pub fn new(amount: u64, total: u64) -> (r: FmtPercentage)
        requires
            total > 0,
            amount * 100 <= u64::MAX,
        ensures
            r.text() == spec_decimal(((amount * 100) as u64 / total) as nat).push('%'),
    {
        FmtPercentage { pct: (amount * 100) / total }
    }
}

impl Formattable for FmtPercentage {
    closed spec fn text(&self) -> Seq<char> {
        spec_decimal(self.pct as nat).push('%')
    }

    open spec fn width() -> int {
        3
    }

    fn max_width() -> usize {
        3
    }

    fn render(&self) -> String {
        let mut s = fmt_u64(self.pct);
        s.append("%");
        proof {
            reveal_strlit("%");
            assert(s@ =~= spec_decimal(self.pct as nat).push('%'));
        }
        s
    }
}

/// What an age in seconds renders to: the amount in the coarsest unit
/// that has at least one of.
pub open spec fn spec_age_text(secs: u64) -> Seq<char> {
    let minutes = secs / 60;
    let hours = minutes / 60;
    let days = hours / 24;
    let weeks = days / 7;
    let years = days / 365;
    if minutes < 1 {
        spec_decimal(secs as nat).add(" sec"@)
    } else if hours < 1 {
        spec_decimal(minutes as nat).add(" min"@)
    } else if days < 1 {
        if hours == 1 {
            "1 hour"@
        } else {
            spec_decimal(hours as nat).add(" hours"@)
        }
    } else if years < 1 {
        if days == 1 {
            "1 day"@
        } else {
            spec_decimal(days as nat).add(" days"@)
        }
    } else if years < 3 {
        if weeks == 1 {
            "1 week"@
        } else {
            spec_decimal(weeks as nat).add(" weeks"@)
        }
    } else if years == 1 {
        "1 year"@
    } else {
        spec_decimal(years as nat).add(" years"@)
    }
}

/// An age in seconds, rendered in its coarsest nonzero unit.
pub struct FmtAge {
    secs: u64,
}

impl FmtAge {
    /// Render an age of this many seconds.
    pub fn new(secs: u64) -> (r: FmtAge)
        ensures
            r.text() == spec_age_text(secs),
    {
        FmtAge { secs }
    }
}

impl Formattable for FmtAge {
    closed spec fn text(&self) -> Seq<char> {
        spec_age_text(self.secs)
    }

    open spec fn width() -> int {
        9
    }

    fn max_width() -> usize {
        9
    }

    fn render(&self) -> String {
        let secs = self.secs;
        let minutes = secs / 60;
        let hours = minutes / 60;
        let days = hours / 24;
        let weeks = days / 7;
        let years = days / 365;
        if minutes < 1 {
            let mut s = fmt_u64(secs);
            s.append(" sec");
            s
        } else if hours < 1 {
            let mut s = fmt_u64(minutes);
            s.append(" min");
            s
        } else if days < 1 {
            if hours == 1 {
                String::from_str("1 hour")
            } else {
                let mut s = fmt_u64(hours);
                s.append(" hours");
                s
            }
        } else if years < 1 {
            if days == 1 {
                String::from_str("1 day")
            } else {
                let mut s = fmt_u64(days);
                s.append(" days");
                s
            }
        } else if years < 3 {
            if weeks == 1 {
                String::from_str("1 week")
            } else {
                let mut s = fmt_u64(weeks);
                s.append(" weeks");
                s
            }
        } else if years == 1 {
            String::from_str("1 year")
        } else {
            let mut s = fmt_u64(years);
            s.append(" years");
            s
        }
    }
}

/// A value wrapped in brackets.
pub struct FmtBracketed<T: Formattable> {
    inner: T,
    open_c: char,
    close_c: char,
}

impl<T: Formattable> FmtBracketed<T> {
    /// Wrap a value in parentheses.
    pub fn new(obj: T) -> (r: FmtBracketed<T>)
        ensures
            r.text() == seq!['('].add(obj.text()).push(')'),
    {
        FmtBracketed { inner: obj, open_c: '(', close_c: ')' }
    }

    /// Use square brackets instead.
    pub fn with_square_brackets(self) -> (r: FmtBracketed<T>)
        ensures
            r.text() == seq!['['].add(self.inner_text()).push(']'),
    {
        FmtBracketed { inner: self.inner, open_c: '[', close_c: ']' }
    }

    /// The wrapped value's own text.
    pub closed spec fn inner_text(&self) -> Seq<char> {
        self.inner.text()
    }
}

impl<T: Formattable> Formattable for FmtBracketed<T> {
    closed spec fn text(&self) -> Seq<char> {
        seq![self.open_c].add(self.inner.text()).push(self.close_c)
    }

    open spec fn width() -> int {
        if T::width() + 2 > usize::MAX {
            usize::MAX as int
        } else {
            T::width() + 2
        }
    }

    fn max_width() -> usize {
        let w = T::max_width();
        if w > usize::MAX - 2 {
            usize::MAX
        } else {
            w + 2
        }
    }

    fn render(&self) -> String {
        let mut chars: Vec<char> = Vec::new();
        chars.push(self.open_c);
        let mut s = chars_to_string(&chars);
        let inner = self.inner.render();
        s.append(inner.as_str());
        let mut close: Vec<char> = Vec::new();
        close.push(self.close_c);
        let tail = chars_to_string(&close);
        s.append(tail.as_str());
        proof {
            assert(s@ =~= seq![self.open_c].add(self.inner.text()).push(self.close_c));
        }
        s
    }
}

/// A value that may be absent, rendered as `n/a` (or nothing) then.
pub struct FmtOrNA<T: Formattable> {
    inner: Option<T>,
    show_na: bool,
}

impl<T: Formattable> FmtOrNA<T> {
    /// Whether the value is absent.
    pub closed spec fn is_na(&self) -> bool {
        self.inner is None
    }

    /// A present value.
    pub fn with(obj: T) -> (r: FmtOrNA<T>)
        ensures
            !r.is_na(),
            r.text() == obj.text(),
    {
        FmtOrNA { inner: Option::Some(obj), show_na: true }
    }

    /// An absent value, shown as `n/a`.
    pub fn na() -> (r: FmtOrNA<T>)
        ensures
            r.is_na(),
            r.text() == "n/a"@,
    {
        FmtOrNA { inner: Option::None, show_na: true }
    }

    /// Map an optional raw value into its rendering, absent when it is.
    pub fn mapped<S, F: Fn(S) -> T>(option: Option<S>, fun: F) -> (r: FmtOrNA<T>)
        requires
            forall|s: S| #[trigger] fun.requires((s,)),
        ensures
            (match option {
                Option::Some(s) => !r.is_na() && exists|t: T|
                    #[trigger] call_ensures(fun, (s,), t) && r.text() == t.text(),
                Option::None => r.is_na() && r.text() == "n/a"@,
            }),
    {
        match option {
            Option::Some(val) => {
                let t = fun(val);
                FmtOrNA { inner: Option::Some(t), show_na: true }
            },
            Option::None => FmtOrNA::na(),
        }
    }

    /// Show nothing instead of `n/a` when absent.
    pub fn or_empty(self) -> (r: FmtOrNA<T>)
        ensures
            r.is_na() == self.is_na(),
            r.text() == (if self.is_na() {
                Seq::<char>::empty()
            } else {
                self.text()
            }),
    {
        FmtOrNA { inner: self.inner, show_na: false }
    }
}

impl<T: Formattable> Formattable for FmtOrNA<T> {
    closed spec fn text(&self) -> Seq<char> {
        match self.inner {
            Option::Some(x) => x.text(),
            Option::None => if self.show_na {
                "n/a"@
            } else {
                Seq::empty()
            },
        }
    }

    open spec fn width() -> int {
        if T::width() >= 3 {
            T::width()
        } else {
            3
        }
    }

    fn max_width() -> usize {
        let w = T::max_width();
        if w >= 3 {
            w
        } else {
            3
        }
    }

    fn render(&self) -> String {
        match &self.inner {
            Option::Some(x) => x.render(),
            Option::None => {
                if self.show_na {
                    String::from_str("n/a")
                } else {
                    String::new()
                }
            },
        }
    }
}

/// A value with text in front of it; the extra width is the type-level
/// allowance for that text.
pub struct FmtPrefix<const ADD: usize, T: Formattable> {
    inner: T,
    prefix: String,
}

impl<const ADD: usize, T: Formattable> FmtPrefix<ADD, T> {
    /// Put `prefix` in front of a value.
    pub fn new(obj: T, prefix: String) -> (r: FmtPrefix<ADD, T>)
        ensures
            r.text() == prefix@.add(obj.text()),
    {
        FmtPrefix { inner: obj, prefix }
    }
}

impl<const ADD: usize, T: Formattable> Formattable for FmtPrefix<ADD, T> {
    closed spec fn text(&self) -> Seq<char> {
        self.prefix@.add(self.inner.text())
    }

    open spec fn width() -> int {
        if T::width() + ADD > usize::MAX {
            usize::MAX as int
        } else {
            T::width() + ADD
        }
    }

    fn max_width() -> usize {
        let w = T::max_width();
        if w > usize::MAX - ADD {
            usize::MAX
        } else {
            w + ADD
        }
    }

    fn render(&self) -> String {
        let mut s = self.prefix.clone();
        let inner = self.inner.render();
        s.append(inner.as_str());
        s
    }
}

/// A value with text after it; the extra width is the type-level
/// allowance for that text.
pub struct FmtSuffix<const ADD: usize, T: Formattable> {
    inner: T,
    suffix: String,
}

impl<const ADD: usize, T: Formattable> FmtSuffix<ADD, T> {
    /// Put `suffix` after a value.
    pub fn new(obj: T, suffix: String) -> (r: FmtSuffix<ADD, T>)
        ensures
            r.text() == obj.text().add(suffix@),
    {
        FmtSuffix { inner: obj, suffix }
    }
}

impl<const ADD: usize, T: Formattable> Formattable for FmtSuffix<ADD, T> {
    closed spec fn text(&self) -> Seq<char> {
        self.inner.text().add(self.suffix@)
    }

    open spec fn width() -> int {
        if T::width() + ADD > usize::MAX {
            usize::MAX as int
        } else {
            T::width() + ADD
        }
    }

    fn max_width() -> usize {
        let w = T::max_width();
        if w > usize::MAX - ADD {
            usize::MAX
        } else {
            w + ADD
        }
    }

    fn render(&self) -> String {
        let mut s = self.inner.render();
        s.append(self.suffix.as_str());
        s
    }
}

/// The mathematical shadow of a truncatable column entry.
pub ghost struct EllipsisView {
    pub content: Seq<char>,
    pub width: usize,
    pub trunc: bool,
}

/// A piece of text cut to a column: when longer than the column and
/// truncation is on, it is shortened and closed with an ellipsis.
pub struct FmtWithEllipsis {
    content: String,
    width: usize,
    trunc: bool,
}

impl View for FmtWithEllipsis {
    type V = EllipsisView;

    closed spec fn view(&self) -> EllipsisView {
        EllipsisView { content: self.content@, width: self.width, trunc: self.trunc }
    }
}

/// What a truncatable column entry renders to.
pub open spec fn spec_ellipsis_text(v: EllipsisView) -> Seq<char> {
    if v.trunc && v.content.len() > v.width {
        let keep = if v.width >= 3 {
            v.width - 3
        } else {
            0int
        };
        v.content.subrange(0, keep).add("..."@)
    } else {
        v.content
    }
}

impl FmtWithEllipsis {
    /// Fit `s` into a column `width` characters wide, truncating by
    /// default. The width on the caller's terminal is the caller's
    /// business.
    pub fn new(s: String, width: usize) -> (r: FmtWithEllipsis)
        ensures
            r@ == (EllipsisView { content: s@, width, trunc: true }),
    {
        FmtWithEllipsis { content: s, width, trunc: true }
    }

    /// Truncate only when `trunc` asks for it.
    pub fn truncate_if(self, trunc: bool) -> (r: FmtWithEllipsis)
        ensures
            r@ == (EllipsisView { trunc, ..self@ }),
    {
        FmtWithEllipsis { content: self.content, width: self.width, trunc }
    }

    /// The entry's text: the content, truncated with an ellipsis when it
    /// overflows the column and truncation is on.
    pub fn render(&self) -> (r: String)
        ensures
            r@ == spec_ellipsis_text(self@),
    {
        let n = self.content.as_str().unicode_len();
        if self.trunc && n > self.width {
            let keep = if self.width >= 3 {
                self.width - 3
            } else {
                0
            };
            let cut = self.content.as_str().substring_char(0, keep);
            let mut s = cut.to_owned();
            s.append("...");
            proof {
                reveal_strlit("...");
            }
            s
        } else {
            self.content.clone()
        }
    }

    /// The entry's text, padded with spaces on the right to its column.
    pub fn right_pad(&self) -> (r: String)
        ensures
            r@ == spec_pad_right(spec_ellipsis_text(self@), self@.width as int),
    {
        let mut s = self.render();
        let n = s.as_str().unicode_len();
        if n >= self.width {
            return s;
        }
        let spaces = make_spaces(self.width - n);
        let pad = chars_to_string(&spaces);
        s.append(pad.as_str());
        s
    }
}

} // verus!
