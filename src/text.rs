//! Character-level helpers shared by the parsers: whitespace, trimming,
//! line splitting, decimal rendering, substring and subsequence tests.

use vstd::prelude::*;

verus! {

/// The characters of an optional string.
pub open spec fn text_opt(o: Option<String>) -> Option<Seq<char>> {
    match o {
        Some(s) => Some(s@),
        None => None,
    }
}

/// Whether `c` has the Unicode `White_Space` property (what `char::is_whitespace` tests).
pub open spec fn is_space(c: char) -> bool {
    let n = c as u32;
    (9 <= n <= 13) || n == 32 || n == 0x85 || n == 0xa0 || n == 0x1680 || (0x2000 <= n <= 0x200a)
        || n == 0x2028 || n == 0x2029 || n == 0x202f || n == 0x205f || n == 0x3000
}

/// Executable form of [`is_space`].
pub(crate) fn is_space_char(c: char) -> (r: bool)
    ensures
        r == is_space(c),
{
    let n = c as u32;
    (9 <= n && n <= 13) || n == 32 || n == 0x85 || n == 0xa0 || n == 0x1680 || (0x2000 <= n && n
        <= 0x200a) || n == 0x2028 || n == 0x2029 || n == 0x202f || n == 0x205f || n == 0x3000
}

/// `s` without its leading whitespace.
pub open spec fn trim_start(s: Seq<char>) -> Seq<char>
    decreases s.len(),
{
    if s.len() > 0 && is_space(s[0]) {
        trim_start(s.drop_first())
    } else {
        s
    }
}

/// `s` without its trailing whitespace.
pub open spec fn trim_end(s: Seq<char>) -> Seq<char>
    decreases s.len(),
{
    if s.len() > 0 && is_space(s.last()) {
        trim_end(s.drop_last())
    } else {
        s
    }
}

/// `s` without leading and trailing whitespace.
pub open spec fn trim(s: Seq<char>) -> Seq<char> {
    trim_end(trim_start(s))
}

/// The pieces of `s` between occurrences of `sep`; `n` separators give `n + 1` pieces.
pub open spec fn split_on(s: Seq<char>, sep: char) -> Seq<Seq<char>>
    decreases s.len(),
{
    if s.len() == 0 {
        seq![Seq::empty()]
    } else {
        let prev = split_on(s.drop_last(), sep);
        if s.last() == sep {
            prev.push(Seq::empty())
        } else {
            prev.update(prev.len() - 1, prev.last().push(s.last()))
        }
    }
}

/// The trimmed pieces that are not empty, in order.
pub open spec fn kept_lines(pieces: Seq<Seq<char>>) -> Seq<Seq<char>>
    decreases pieces.len(),
{
    if pieces.len() == 0 {
        Seq::empty()
    } else {
        let rest = kept_lines(pieces.drop_last());
        let t = trim(pieces.last());
        if t.len() > 0 {
            rest.push(t)
        } else {
            rest
        }
    }
}

/// The non-empty trimmed lines of `s`.
pub open spec fn output_lines(s: Seq<char>) -> Seq<Seq<char>> {
    kept_lines(split_on(s, '\n'))
}

/// `line` without one trailing carriage return.
pub open spec fn strip_cr(line: Seq<char>) -> Seq<char> {
    if line.len() > 0 && line.last() == '\r' {
        line.drop_last()
    } else {
        line
    }
}

/// The pieces of a split text that are not blank, each ended piece (every
/// piece but the last) without its trailing carriage return.
pub open spec fn kept_raw(pieces: Seq<Seq<char>>) -> Seq<Seq<char>>
    decreases pieces.len(),
{
    if pieces.len() == 0 {
        Seq::empty()
    } else {
        let rest = kept_raw(pieces.drop_last());
        if trim(pieces.last()).len() > 0 {
            rest.push(pieces.last())
        } else {
            rest
        }
    }
}

/// The non-blank lines of `s` as `str::lines` gives them: split at `\n`, a
/// `\r` right before a `\n` dropped, other characters kept.
pub open spec fn input_lines(s: Seq<char>) -> Seq<Seq<char>> {
    let pieces = split_on(s, '\n');
    kept_raw(pieces.drop_last().map_values(|p: Seq<char>| strip_cr(p)).push(pieces.last()))
}

/// `s` with every occurrence of `c` removed.
pub open spec fn strip_char(s: Seq<char>, c: char) -> Seq<char>
    decreases s.len(),
{
    if s.len() == 0 {
        s
    } else if s.last() == c {
        strip_char(s.drop_last(), c)
    } else {
        strip_char(s.drop_last(), c).push(s.last())
    }
}

/// The decimal digit for `d < 10`.
pub open spec fn digit(d: nat) -> char {
    if d == 0 {
        '0'
    } else if d == 1 {
        '1'
    } else if d == 2 {
        '2'
    } else if d == 3 {
        '3'
    } else if d == 4 {
        '4'
    } else if d == 5 {
        '5'
    } else if d == 6 {
        '6'
    } else if d == 7 {
        '7'
    } else if d == 8 {
        '8'
    } else {
        '9'
    }
}

/// The decimal rendering of `n`, without leading zeros.
pub open spec fn decimal(n: nat) -> Seq<char>
    decreases n,
{
    if n < 10 {
        seq![digit(n)]
    } else {
        decimal(n / 10).push(digit(n % 10))
    }
}

/// Whether `q` occurs as a contiguous piece of `t`.
pub open spec fn contains(t: Seq<char>, q: Seq<char>) -> bool {
    exists|i: int| 0 <= i <= t.len() - q.len() && #[trigger] t.subrange(i, i + q.len()) == q
}

/// Whether the characters of `p` occur in `t` in order, not necessarily adjacent.
pub open spec fn is_subsequence(t: Seq<char>, p: Seq<char>) -> bool
    decreases t.len(),
{
    if p.len() == 0 {
        true
    } else if t.len() == 0 {
        false
    } else if t[0] == p[0] {
        is_subsequence(t.drop_first(), p.drop_first())
    } else {
        is_subsequence(t.drop_first(), p)
    }
}

/// Whether `s` ends with `suffix`.
pub open spec fn ends_with(s: Seq<char>, suffix: Seq<char>) -> bool {
    suffix.len() <= s.len() && s.subrange(s.len() - suffix.len(), s.len() as int) == suffix
}

/// The characters of `s` in order.
pub(crate) fn chars_of(s: &str) -> (r: Vec<char>)
    ensures
        r@ == s@,
{
    broadcast use vstd::string::group_string_axioms;

    let mut out: Vec<char> = Vec::new();
    for c in iter: s.chars()
        invariant
            iter.seq() == s@,
            out@ == iter.seq().take(iter.index() as int),
    {
        out.push(c);
    }
    assert(out@ =~= s@);
    out
}

/// Relies on `String::push`: appends one character.
#[verifier::external_body]
fn push_char(s: &mut String, c: char)
    ensures
        final(s)@ == old(s)@.push(c),
{
    s.push(c);
}

/// A string of the characters of `v` in order.
pub(crate) fn string_of(v: &Vec<char>) -> (r: String)
    ensures
        r@ == v@,
{
    let mut out = String::new();
    let mut i: usize = 0;
    while i < v.len()
        invariant
            i <= v@.len(),
            out@ == v@.take(i as int),
        decreases v@.len() - i,
    {
        push_char(&mut out, v[i]);
        assert(out@ =~= v@.take(i + 1));
        i = i + 1;
    }
    assert(v@.take(i as int) =~= v@);
    out
}

/// Whether two strings hold the same characters.
pub fn same_text(a: &str, b: &str) -> (r: bool)
    ensures
        r == (a@ == b@),
{
    let x = chars_of(a);
    let y = chars_of(b);
    if x.len() != y.len() {
        return false;
    }
    let mut i: usize = 0;
    while i < x.len()
        invariant
            x@ == a@,
            y@ == b@,
            x@.len() == y@.len(),
            i <= x@.len(),
            forall|j: int| 0 <= j < i ==> x@[j] == y@[j],
        decreases x.len() - i,
    {
        if x[i] != y[i] {
            assert(x@[i as int] != y@[i as int]);
            return false;
        }
        i = i + 1;
    }
    assert(x@ =~= y@);
    true
}


/// The character views of a sequence of strings.
pub open spec fn views(s: Seq<String>) -> Seq<Seq<char>> {
    s.map_values(|x: String| x@)
}

/// The characters of `v` from `a` up to `b`.
pub(crate) fn copy_range(v: &Vec<char>, a: usize, b: usize) -> (r: Vec<char>)
    requires
        a <= b <= v@.len(),
    ensures
        r@ == v@.subrange(a as int, b as int),
{
    let mut out: Vec<char> = Vec::new();
    let mut k: usize = a;
    while k < b
        invariant
            a <= k <= b,
            b <= v@.len(),
            out@ == v@.subrange(a as int, k as int),
        decreases b - k,
    {
        out.push(v[k]);
        assert(out@ =~= v@.subrange(a as int, k + 1));
        k = k + 1;
    }
    out
}

/// The characters of `v` from `a` up to `b`, without leading and trailing whitespace.
pub(crate) fn trimmed_range(v: &Vec<char>, a: usize, b: usize) -> (r: Vec<char>)
    requires
        a <= b <= v@.len(),
    ensures
        r@ == trim(v@.subrange(a as int, b as int)),
{
    let mut lo: usize = a;
    while lo < b && is_space_char(v[lo])
        invariant
            a <= lo <= b,
            b <= v@.len(),
            trim_start(v@.subrange(a as int, b as int)) == trim_start(
                v@.subrange(lo as int, b as int),
            ),
        decreases b - lo,
    {
        assert(v@.subrange(lo as int, b as int).drop_first() =~= v@.subrange(lo + 1, b as int));
        lo = lo + 1;
    }
    let mut hi: usize = b;
    while hi > lo && is_space_char(v[hi - 1])
        invariant
            a <= lo <= hi <= b,
            b <= v@.len(),
            trim_end(v@.subrange(lo as int, b as int)) == trim_end(
                v@.subrange(lo as int, hi as int),
            ),
        decreases hi,
    {
        assert(v@.subrange(lo as int, hi as int).drop_last() =~= v@.subrange(
            lo as int,
            hi - 1,
        ));
        hi = hi - 1;
    }
    copy_range(v, lo, hi)
}

/// The non-empty trimmed lines of `s`, in order.
pub fn lines_of(s: &str) -> (r: Vec<String>)
    ensures
        views(r@) == output_lines(s@),
{
    let v = chars_of(s);
    let mut out: Vec<String> = Vec::new();
    let mut start: usize = 0;
    let mut i: usize = 0;
    while i < v.len()
        invariant
            v@ == s@,
            start <= i <= v@.len(),
            split_on(v@.take(i as int), '\n').len() >= 1,
            split_on(v@.take(i as int), '\n').last() == v@.subrange(start as int, i as int),
            views(out@) == kept_lines(split_on(v@.take(i as int), '\n').drop_last()),
        decreases v@.len() - i,
    {
        let ghost prev = split_on(v@.take(i as int), '\n');
        assert(v@.take(i + 1).drop_last() =~= v@.take(i as int));
        if v[i] == '\n' {
            let t = trimmed_range(&v, start, i);
            if t.len() > 0 {
                let line = string_of(&t);
                out.push(line);
            }
            assert(views(out@) =~= kept_lines(prev));
            assert(split_on(v@.take(i + 1), '\n').drop_last() =~= prev);
            start = i + 1;
            assert(split_on(v@.take(i + 1), '\n').last() =~= v@.subrange(start as int, i + 1));
        } else {
            assert(split_on(v@.take(i + 1), '\n').drop_last() =~= prev.drop_last());
            assert(split_on(v@.take(i + 1), '\n').last() =~= v@.subrange(start as int, i + 1));
        }
        i = i + 1;
    }
    let ghost all = split_on(v@.take(i as int), '\n');
    let t = trimmed_range(&v, start, v.len());
    if t.len() > 0 {
        let line = string_of(&t);
        out.push(line);
    }
    assert(v@.take(i as int) =~= v@);
    assert(views(out@) =~= kept_lines(all));
    out
}

/// The non-blank lines of `s`, untrimmed; see [`input_lines`].
pub fn raw_lines_of(s: &str) -> (r: Vec<String>)
    ensures
        views(r@) == input_lines(s@),
{
    let v = chars_of(s);
    let mut out: Vec<String> = Vec::new();
    let mut start: usize = 0;
    let mut i: usize = 0;
    while i < v.len()
        invariant
            v@ == s@,
            start <= i <= v@.len(),
            split_on(v@.take(i as int), '\n').len() >= 1,
            split_on(v@.take(i as int), '\n').last() == v@.subrange(start as int, i as int),
            views(out@) == kept_raw(
                split_on(v@.take(i as int), '\n').drop_last().map_values(
                    |p: Seq<char>| strip_cr(p),
                ),
            ),
        decreases v@.len() - i,
    {
        let ghost prev = split_on(v@.take(i as int), '\n');
        assert(v@.take(i + 1).drop_last() =~= v@.take(i as int));
        if v[i] == '\n' {
            let end: usize = if i > start && v[i - 1] == '\r' {
                i - 1
            } else {
                i
            };
            let piece = copy_range(&v, start, end);
            assert(piece@ =~= strip_cr(prev.last()));
            let blank = trimmed_range(&v, start, end);
            if blank.len() > 0 {
                out.push(string_of(&piece));
            }
            let ghost mapped = prev.drop_last().map_values(|p: Seq<char>| strip_cr(p));
            assert(prev.map_values(|p: Seq<char>| strip_cr(p)) =~= mapped.push(strip_cr(prev.last())));
            assert(prev.map_values(|p: Seq<char>| strip_cr(p)).drop_last() =~= mapped);
            assert(views(out@) =~= kept_raw(prev.map_values(|p: Seq<char>| strip_cr(p))));
            assert(split_on(v@.take(i + 1), '\n').drop_last() =~= prev);
            start = i + 1;
            assert(split_on(v@.take(i + 1), '\n').last() =~= v@.subrange(start as int, i + 1));
        } else {
            assert(split_on(v@.take(i + 1), '\n').drop_last() =~= prev.drop_last());
            assert(split_on(v@.take(i + 1), '\n').last() =~= v@.subrange(start as int, i + 1));
        }
        i = i + 1;
    }
    let ghost all = split_on(v@.take(i as int), '\n');
    let piece = copy_range(&v, start, v.len());
    let blank = trimmed_range(&v, start, v.len());
    if blank.len() > 0 {
        out.push(string_of(&piece));
    }
    assert(v@.take(i as int) =~= v@);
    let ghost mapped = all.drop_last().map_values(|p: Seq<char>| strip_cr(p));
    assert(mapped.push(all.last()).drop_last() =~= mapped);
    assert(views(out@) =~= kept_raw(mapped.push(all.last())));
    out
}

/// `s` with every NUL character removed.
pub fn strip_nul(s: &str) -> (r: String)
    ensures
        r@ == strip_char(s@, '\0'),
{
    let v = chars_of(s);
    let mut out: Vec<char> = Vec::new();
    let mut i: usize = 0;
    while i < v.len()
        invariant
            v@ == s@,
            i <= v@.len(),
            out@ == strip_char(v@.take(i as int), '\0'),
        decreases v@.len() - i,
    {
        assert(v@.take(i + 1).drop_last() =~= v@.take(i as int));
        if v[i] != '\0' {
            out.push(v[i]);
        }
        i = i + 1;
    }
    assert(v@.take(i as int) =~= v@);
    string_of(&out)
}

/// The decimal digit for `d`.
pub(crate) fn digit_char(d: usize) -> (r: char)
    requires
        d < 10,
    ensures
        r == digit(d as nat),
{
    if d == 0 {
        '0'
    } else if d == 1 {
        '1'
    } else if d == 2 {
        '2'
    } else if d == 3 {
        '3'
    } else if d == 4 {
        '4'
    } else if d == 5 {
        '5'
    } else if d == 6 {
        '6'
    } else if d == 7 {
        '7'
    } else if d == 8 {
        '8'
    } else {
        '9'
    }
}

/// Appends the decimal rendering of `n` to `out`.
pub(crate) fn push_decimal(n: usize, out: &mut Vec<char>)
    ensures
        final(out)@ == old(out)@ + decimal(n as nat),
    decreases n,
{
    if n >= 10 {
        push_decimal(n / 10, out);
    }
    out.push(digit_char(n % 10));
    assert(final(out)@ =~= old(out)@ + decimal(n as nat));
}

/// Whether `q` occurs as a contiguous piece of `t`.
pub fn contains_chars(t: &Vec<char>, q: &Vec<char>) -> (r: bool)
    ensures
        r == contains(t@, q@),
{
    if q.len() > t.len() {
        return false;
    }
    let last: usize = t.len() - q.len();
    let mut i: usize = 0;
    loop
        invariant
            t@.len() <= usize::MAX,
            q@.len() <= t@.len(),
            last == t@.len() - q@.len(),
            i <= last,
            forall|k: int| 0 <= k < i ==> #[trigger] t@.subrange(k, k + q@.len()) != q@,
        ensures
            forall|k: int| 0 <= k <= last ==> #[trigger] t@.subrange(k, k + q@.len()) != q@,
        decreases last - i,
    {
        let mut j: usize = 0;
        while j < q.len()
            invariant
                q@.len() <= t@.len(),
                i <= last,
                last == t@.len() - q@.len(),
                j <= q@.len(),
                t@.len() <= usize::MAX,
                forall|m: int| 0 <= m < j ==> t@[i + m] == q@[m],
            ensures
                j <= q@.len(),
                forall|m: int| 0 <= m < j ==> t@[i + m] == q@[m],
                j < q@.len() ==> t@[i + j] != q@[j as int],
            decreases q@.len() - j,
        {
            let at: usize = i + j;
            if t[at] != q[j] {
                break;
            }
            j = j + 1;
        }
        if j == q.len() {
            assert(t@.subrange(i as int, i + q@.len()) =~= q@);
            return true;
        }
        assert(t@.subrange(i as int, i + q@.len())[j as int] != q@[j as int]);
        if i == last {
            break;
        }
        i = i + 1;
    }
    false
}

/// Whether the characters of `p` occur in `t` in order.
pub fn subsequence_chars(t: &Vec<char>, p: &Vec<char>) -> (r: bool)
    ensures
        r == is_subsequence(t@, p@),
{
    let mut ti: usize = 0;
    let mut pi: usize = 0;
    assert(t@.subrange(0, t@.len() as int) =~= t@);
    assert(p@.subrange(0, p@.len() as int) =~= p@);
    while ti < t.len() && pi < p.len()
        invariant
            ti <= t@.len(),
            pi <= p@.len(),
            is_subsequence(t@, p@) == is_subsequence(
                t@.subrange(ti as int, t@.len() as int),
                p@.subrange(pi as int, p@.len() as int),
            ),
        decreases t@.len() - ti,
    {
        assert(t@.subrange(ti as int, t@.len() as int).drop_first() =~= t@.subrange(
            ti + 1,
            t@.len() as int,
        ));
        assert(p@.subrange(pi as int, p@.len() as int).drop_first() =~= p@.subrange(
            pi + 1,
            p@.len() as int,
        ));
        if t[ti] == p[pi] {
            pi = pi + 1;
        }
        ti = ti + 1;
    }
    pi == p.len()
}

/// Whether `s` ends with `suffix`.
pub fn ends_with_chars(s: &Vec<char>, suffix: &Vec<char>) -> (r: bool)
    ensures
        r == ends_with(s@, suffix@),
{
    if suffix.len() > s.len() {
        return false;
    }
    let off: usize = s.len() - suffix.len();
    let mut j: usize = 0;
    while j < suffix.len()
        invariant
            s@.len() <= usize::MAX,
            suffix@.len() <= s@.len(),
            off == s@.len() - suffix@.len(),
            j <= suffix@.len(),
            forall|m: int| 0 <= m < j ==> s@[off + m] == suffix@[m],
        decreases suffix@.len() - j,
    {
        let at: usize = off + j;
        if s[at] != suffix[j] {
            assert(s@.subrange(off as int, s@.len() as int)[j as int] != suffix@[j as int]);
            return false;
        }
        j = j + 1;
    }
    assert(s@.subrange(off as int, s@.len() as int) =~= suffix@);
    true
}

} // verus!
