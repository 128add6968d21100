//! Character-level text handling shared by the rest of the library:
//! Unicode whitespace, trimming, splitting into runs, decimal parsing and
//! ASCII case folding, each stated over `Seq<char>`.
use vstd::prelude::*;

verus! {

/// Unicode `White_Space`, the set that `char::is_whitespace` documents.
pub open spec fn is_ws(c: char) -> bool {
    let u = c as u32;
    ||| u == 0x20
    ||| (0x09 <= u && u <= 0x0d)
    ||| u == 0x85
    ||| u == 0xa0
    ||| u == 0x1680
    ||| (0x2000 <= u && u <= 0x200a)
    ||| u == 0x2028
    ||| u == 0x2029
    ||| u == 0x202f
    ||| u == 0x205f
    ||| u == 0x3000
}

/// Whether `c` is Unicode whitespace.
pub fn is_whitespace(c: char) -> (b: bool)
    ensures
        b == is_ws(c),
{
    let u = c as u32;
    u == 0x20 || (0x09 <= u && u <= 0x0d) || u == 0x85 || u == 0xa0 || u == 0x1680 || (0x2000
        <= u && u <= 0x200a) || u == 0x2028 || u == 0x2029 || u == 0x202f || u == 0x205f || u
        == 0x3000
}

/// `s` without its leading whitespace.
pub open spec fn trim_start(s: Seq<char>) -> Seq<char>
    decreases s.len(),
{
    if s.len() > 0 && is_ws(s[0]) {
        trim_start(s.drop_first())
    } else {
        s
    }
}

/// `s` without its trailing whitespace.
pub open spec fn trim_end(s: Seq<char>) -> Seq<char>
    decreases s.len(),
{
    if s.len() > 0 && is_ws(s.last()) {
        trim_end(s.drop_last())
    } else {
        s
    }
}

/// `s` without leading and trailing whitespace, as `str::trim` gives it.
pub open spec fn trim(s: Seq<char>) -> Seq<char> {
    trim_end(trim_start(s))
}

proof fn lemma_trim_start_skip(s: Seq<char>, n: int)
    requires
        0 <= n <= s.len(),
        forall|k: int| 0 <= k < n ==> is_ws(#[trigger] s[k]),
    ensures
        trim_start(s) == trim_start(s.skip(n)),
    decreases n,
{
    if n == 0 {
        assert(s.skip(0) =~= s);
    } else {
        assert(is_ws(s[0]));
        let t = s.drop_first();
        assert forall|k: int| 0 <= k < n - 1 implies is_ws(#[trigger] t[k]) by {
            assert(t[k] == s[k + 1]);
        }
        lemma_trim_start_skip(t, n - 1);
        assert(t.skip(n - 1) =~= s.skip(n));
    }
}

proof fn lemma_trim_end_take(s: Seq<char>, n: int)
    requires
        0 <= n <= s.len(),
        forall|k: int| n <= k < s.len() ==> is_ws(#[trigger] s[k]),
    ensures
        trim_end(s) == trim_end(s.take(n)),
    decreases s.len() - n,
{
    if n == s.len() {
        assert(s.take(n) =~= s);
    } else {
        assert(is_ws(s.last()));
        let t = s.drop_last();
        assert forall|k: int| n <= k < t.len() implies is_ws(#[trigger] t[k]) by {
            assert(t[k] == s[k]);
        }
        lemma_trim_end_take(t, n);
        assert(t.take(n) =~= s.take(n));
    }
}

/// The bounds `(lo, hi)` of the trimmed part of `s`.
pub fn trim_bounds(s: &Vec<char>) -> (r: (usize, usize))
    ensures
        r.0 <= r.1 <= s.len(),
        s@.subrange(r.0 as int, r.1 as int) == trim(s@),
{
    let n = s.len();
    let mut lo: usize = 0;
    while lo < n && is_whitespace(s[lo])
        invariant
            lo <= n,
            n == s.len(),
            forall|k: int| 0 <= k < lo ==> is_ws(#[trigger] s@[k]),
        decreases n - lo,
    {
        lo = lo + 1;
    }
    proof {
        lemma_trim_start_skip(s@, lo as int);
    }
    let mut hi: usize = n;
    while hi > lo && is_whitespace(s[hi - 1])
        invariant
            lo <= hi <= n,
            n == s.len(),
            forall|k: int| hi <= k < n ==> is_ws(#[trigger] s@[k]),
        decreases hi,
    {
        hi = hi - 1;
    }
    proof {
        let t = s@.skip(lo as int);
        assert(trim_start(t) == t);
        assert forall|k: int| hi - lo <= k < t.len() implies is_ws(#[trigger] t[k]) by {
            assert(t[k] == s@[k + lo]);
        }
        lemma_trim_end_take(t, hi - lo);
        let u = t.take(hi - lo);
        assert(u =~= s@.subrange(lo as int, hi as int));
        assert(trim_end(u) == u);
    }
    (lo, hi)
}

/// The text of `v`.
pub open spec fn text_of(v: Seq<String>) -> Seq<Seq<char>> {
    v.map_values(|x: String| x@)
}

/// The characters of `s`, in order.
pub fn chars_of(s: &str) -> (v: Vec<char>)
    ensures
        v@ == s@,
{
    let mut v: Vec<char> = Vec::new();
    for c in it: s.chars()
        invariant
            v@ == it.seq().take(it.index() as int),
            it.seq() == s@,
    {
        v.push(c);
    }
    v
}

/// Appends `c` to `s` (`String::push`).
#[verifier::external_body]
fn push_char(s: &mut String, c: char)
    ensures
        final(s)@ == old(s)@.push(c),
{
    s.push(c);
}

/// The string made of the characters `v[lo..hi]`.
pub fn string_of_range(v: &Vec<char>, lo: usize, hi: usize) -> (s: String)
    requires
        lo <= hi <= v.len(),
    ensures
        s@ == v@.subrange(lo as int, hi as int),
{
    let mut s = String::new();
    let mut i = lo;
    while i < hi
        invariant
            lo <= i <= hi <= v.len(),
            s@ == v@.subrange(lo as int, i as int),
        decreases hi - i,
    {
        push_char(&mut s, v[i]);
        assert(v@.subrange(lo as int, i + 1) =~= v@.subrange(lo as int, i as int).push(v@[i as int]));
        i = i + 1;
    }
    s
}

/// The string made of the characters `v`.
pub fn string_of(v: &Vec<char>) -> (s: String)
    ensures
        s@ == v@,
{
    let s = string_of_range(v, 0, v.len());
    assert(v@.subrange(0, v.len() as int) =~= v@);
    s
}

/// `s` without leading and trailing whitespace (`str::trim`).
pub fn trimmed(s: &str) -> (r: String)
    ensures
        r@ == trim(s@),
{
    let v = chars_of(s);
    let (lo, hi) = trim_bounds(&v);
    string_of_range(&v, lo, hi)
}

/// The kinds of separator that a text is split on.
#[derive(Clone, Copy, PartialEq, Eq, Debug)]
pub enum Sep {
    /// Unicode whitespace, as `str::split_whitespace` splits.
    Whitespace,
    /// The path separator `/`.
    Slash,
}

/// Whether `c` separates runs of the given kind.
pub open spec fn is_sep(kind: Sep, c: char) -> bool {
    match kind {
        Sep::Whitespace => is_ws(c),
        Sep::Slash => c == '/',
    }
}

fn is_separator(kind: Sep, c: char) -> (b: bool)
    ensures
        b == is_sep(kind, c),
{
    match kind {
        Sep::Whitespace => is_whitespace(c),
        Sep::Slash => c == '/',
    }
}

/// The maximal runs of non-separator characters of `s`, in order: for
/// whitespace this is what `str::split_whitespace` yields; for `/` it is the
/// non-empty pieces between slashes.
pub open spec fn runs(kind: Sep, s: Seq<char>) -> Seq<Seq<char>>
    decreases s.len(),
{
    if s.len() == 0 {
        Seq::empty()
    } else {
        let prev = runs(kind, s.drop_last());
        let c = s.last();
        if is_sep(kind, c) {
            prev
        } else if s.len() >= 2 && !is_sep(kind, s[s.len() - 2]) {
            prev.drop_last().push(prev.last().push(c))
        } else {
            prev.push(seq![c])
        }
    }
}

/// The whitespace-separated words of `s` (`str::split_whitespace`).
pub open spec fn words(s: Seq<char>) -> Seq<Seq<char>> {
    runs(Sep::Whitespace, s)
}

/// Each run is non-empty and holds no separator.
pub proof fn lemma_runs_well_formed(kind: Sep, s: Seq<char>)
    ensures
        forall|i: int|
            0 <= i < runs(kind, s).len() ==> #[trigger] runs(kind, s)[i].len() > 0 && forall|
                j: int,
            |
                0 <= j < runs(kind, s)[i].len() ==> !is_sep(kind, #[trigger] runs(kind, s)[i][j]),
    decreases s.len(),
{
    if s.len() > 0 {
        lemma_runs_well_formed(kind, s.drop_last());
        let prev = runs(kind, s.drop_last());
        let r = runs(kind, s);
        let c = s.last();
        if is_sep(kind, c) {
        } else if s.len() >= 2 && !is_sep(kind, s[s.len() - 2]) {
            assert forall|i: int| 0 <= i < r.len() implies #[trigger] r[i].len() > 0 && forall|
                j: int,
            |
                0 <= j < r[i].len() ==> !is_sep(kind, #[trigger] r[i][j]) by {
                if i < r.len() - 1 {
                    assert(r[i] == prev[i]);
                } else {
                    assert(r[i] == prev.last().push(c));
                    assert forall|j: int| 0 <= j < r[i].len() implies !is_sep(
                        kind,
                        #[trigger] r[i][j],
                    ) by {
                        if j < r[i].len() - 1 {
                            assert(r[i][j] == prev[prev.len() - 1][j]);
                        }
                    }
                }
            }
        } else {
            assert forall|i: int| 0 <= i < r.len() implies #[trigger] r[i].len() > 0 && forall|
                j: int,
            |
                0 <= j < r[i].len() ==> !is_sep(kind, #[trigger] r[i][j]) by {
                if i < r.len() - 1 {
                    assert(r[i] == prev[i]);
                }
            }
        }
    }
}

/// The separator-free runs of `s`, as character vectors.
pub fn split_runs(kind: Sep, s: &Vec<char>) -> (out: Vec<Vec<char>>)
    ensures
        out@.map_values(|w: Vec<char>| w@) == runs(kind, s@),
{
    let mut out: Vec<Vec<char>> = Vec::new();
    let n = s.len();
    let mut i: usize = 0;
    while i < n
        invariant
            i <= n,
            n == s.len(),
            out@.map_values(|w: Vec<char>| w@) == runs(kind, s@.take(i as int)),
        decreases n - i,
    {
        let c = s[i];
        let ghost pre = s@.take(i as int);
        let ghost cur = s@.take(i + 1);
        let ghost prev = runs(kind, pre);
        assert(cur.drop_last() =~= pre);
        assert(cur.last() == c);
        if is_separator(kind, c) {
        } else if i >= 1 && !is_separator(kind, s[i - 1]) {
            assert(cur[cur.len() - 2] == s@[i - 1]);
            assert(pre.len() > 0 && pre.last() == s@[i - 1]);
            assert(prev.len() > 0);
            let ghost before = out@;
            let mut last = out.pop().unwrap();
            last.push(c);
            out.push(last);
            assert(out@.map_values(|w: Vec<char>| w@) =~= prev.drop_last().push(
                prev.last().push(c),
            )) by {
                assert(before.map_values(|w: Vec<char>| w@).last() == prev.last());
                assert forall|k: int| 0 <= k < out@.len() - 1 implies out@[k]@ == prev[k] by {
                    assert(out@[k] == before[k]);
                    assert(before.map_values(|w: Vec<char>| w@)[k] == before[k]@);
                }
            }
        } else {
            let mut w: Vec<char> = Vec::new();
            w.push(c);
            let ghost before = out@;
            out.push(w);
            assert(w@ =~= seq![c]);
            assert(out@.map_values(|w: Vec<char>| w@) =~= prev.push(seq![c])) by {
                assert forall|k: int| 0 <= k < out@.len() - 1 implies out@[k]@ == prev[k] by {
                    assert(out@[k] == before[k]);
                    assert(before.map_values(|w: Vec<char>| w@)[k] == before[k]@);
                }
            }
        }
        i = i + 1;
    }
    assert(s@.take(n as int) =~= s@);
    out
}

/// Each vector of characters as a string.
pub fn strings_of(v: &Vec<Vec<char>>) -> (out: Vec<String>)
    ensures
        text_of(out@) == v@.map_values(|w: Vec<char>| w@),
{
    let mut out: Vec<String> = Vec::new();
    let mut i: usize = 0;
    while i < v.len()
        invariant
            i <= v.len(),
            out@.len() == i,
            forall|k: int| 0 <= k < i ==> #[trigger] out@[k]@ == v@[k]@,
        decreases v.len() - i,
    {
        out.push(string_of(&v[i]));
        i = i + 1;
    }
    assert(text_of(out@) =~= v@.map_values(|w: Vec<char>| w@));
    out
}

/// The whitespace-separated words of `s` (`str::split_whitespace`).
pub fn split_whitespace(s: &str) -> (out: Vec<String>)
    ensures
        text_of(out@) == words(s@),
{
    let v = chars_of(s);
    let r = split_runs(Sep::Whitespace, &v);
    strings_of(&r)
}

/// Whether the two character vectors are equal.
pub fn chars_equal(a: &Vec<char>, b: &Vec<char>) -> (r: bool)
    ensures
        r == (a@ == b@),
{
    if a.len() != b.len() {
        return false;
    }
    let mut i: usize = 0;
    while i < a.len()
        invariant
            i <= a.len(),
            a.len() == b.len(),
            forall|k: int| 0 <= k < i ==> a@[k] == b@[k],
        decreases a.len() - i,
    {
        if a[i] != b[i] {
            return false;
        }
        i = i + 1;
    }
    assert(a@ =~= b@);
    true
}

/// Whether `a` and `b` hold the same text.
pub fn same_text(a: &str, b: &str) -> (r: bool)
    ensures
        r == (a@ == b@),
{
    let x = chars_of(a);
    let y = chars_of(b);
    chars_equal(&x, &y)
}

/// Whether `c` is an ASCII decimal digit.
pub open spec fn is_digit(c: char) -> bool {
    '0' <= c && c <= '9'
}

/// The number that the decimal digits `s` write.
pub open spec fn digits_value(s: Seq<char>) -> nat
    decreases s.len(),
{
    if s.len() == 0 {
        0
    } else {
        digits_value(s.drop_last()) * 10 + (s.last() as nat - '0' as nat) as nat
    }
}

/// What `s.parse::<u64>()` gives: an optional `+`, then one or more decimal
/// digits whose value fits in a `u64`.
pub open spec fn parse_u64_spec(s: Seq<char>) -> Option<u64> {
    let d = unsigned_digits(s);
    if d.len() > 0 && (forall|i: int| 0 <= i < d.len() ==> is_digit(#[trigger] d[i]))
        && digits_value(d) <= u64::MAX {
        Some(digits_value(d) as u64)
    } else {
        None
    }
}

proof fn lemma_digits_value_grows(s: Seq<char>, k: int)
    requires
        0 <= k <= s.len(),
        forall|i: int| 0 <= i < s.len() ==> is_digit(#[trigger] s[i]),
    ensures
        digits_value(s.take(k)) <= digits_value(s),
    decreases s.len() - k,
{
    if k < s.len() {
        let t = s.drop_last();
        assert forall|i: int| 0 <= i < t.len() implies is_digit(#[trigger] t[i]) by {
            assert(t[i] == s[i]);
        }
        lemma_digits_value_grows(t, k);
        assert(t.take(k) =~= s.take(k));
    } else {
        assert(s.take(k) =~= s);
    }
}

/// The digits that `parse_u64_spec` reads: `s` without a leading `+`.
pub open spec fn unsigned_digits(s: Seq<char>) -> Seq<char> {
    if s.len() > 0 && s[0] == '+' {
        s.drop_first()
    } else {
        s
    }
}

proof fn lemma_overflow_rejected(s: Seq<char>, k: int)
    requires
        0 <= k <= unsigned_digits(s).len(),
        digits_value(unsigned_digits(s).take(k)) > u64::MAX,
    ensures
        parse_u64_spec(s) is None,
{
    let d = unsigned_digits(s);
    if d.len() > 0 && (forall|i: int| 0 <= i < d.len() ==> is_digit(#[trigger] d[i])) {
        lemma_digits_value_grows(d, k);
    }
}

proof fn lemma_non_digit_rejected(s: Seq<char>, k: int)
    requires
        0 <= k < unsigned_digits(s).len(),
        !is_digit(unsigned_digits(s)[k]),
    ensures
        parse_u64_spec(s) is None,
{
}

/// `s.parse::<u64>()`: `Some` exactly where the standard library parses.
pub fn parse_u64(s: &str) -> (r: Option<u64>)
    ensures
        r == parse_u64_spec(s@),
{
    let v = chars_of(s);
    let n = v.len();
    let start: usize = if n > 0 && v[0] == '+' {
        1
    } else {
        0
    };
    let ghost d = unsigned_digits(s@);
    assert(d =~= v@.skip(start as int));
    if start >= n {
        return None;
    }
    let mut acc: u64 = 0;
    let mut i: usize = start;
    while i < n
        invariant
            start <= i <= n,
            n == v.len(),
            d == v@.skip(start as int),
            d == unsigned_digits(s@),
            forall|k: int| start <= k < i ==> is_digit(#[trigger] v@[k]),
            acc as nat == digits_value(v@.subrange(start as int, i as int)),
        decreases n - i,
    {
        let c = v[i];
        let ghost pre = v@.subrange(start as int, i as int);
        let ghost cur = v@.subrange(start as int, i + 1);
        assert(cur.drop_last() =~= pre);
        assert(cur.last() == c);
        assert(d[i - start] == c);
        if !('0' <= c && c <= '9') {
            proof {
                lemma_non_digit_rejected(s@, i - start);
            }
            return None;
        }
        let digit: u64 = (c as u32 - '0' as u32) as u64;
        assert(digits_value(cur) == acc * 10 + digit);
        let m = acc.checked_mul(10);
        if m.is_none() {
            proof {
                assert(d.take(i + 1 - start) =~= cur);
                lemma_overflow_rejected(s@, i + 1 - start);
            }
            return None;
        }
        let sum = m.unwrap().checked_add(digit);
        if sum.is_none() {
            proof {
                assert(d.take(i + 1 - start) =~= cur);
                lemma_overflow_rejected(s@, i + 1 - start);
            }
            return None;
        }
        acc = sum.unwrap();
        i = i + 1;
    }
    assert(v@.subrange(start as int, n as int) =~= d);
    Some(acc)
}

/// `c` with ASCII upper-case letters made lower-case.
pub open spec fn ascii_lower(c: char) -> char {
    if 'A' <= c && c <= 'Z' {
        ((c as u32) + 32) as char
    } else {
        c
    }
}

} // verus!
