use vstd::prelude::*;

use crate::coord::Coord;

verus! {

/// Unicode `White_Space`, the characters that `str::trim` removes.
pub open spec fn is_blank(c: char) -> bool {
    ('\t' <= c <= '\r') || c == ' ' || c == '\u{85}' || c == '\u{a0}' || c == '\u{1680}' || (
    '\u{2000}' <= c <= '\u{200a}') || c == '\u{2028}' || c == '\u{2029}' || c == '\u{202f}' || c
        == '\u{205f}' || c == '\u{3000}'
}

pub open spec fn is_digit(c: char) -> bool {
    '0' <= c <= '9'
}

pub open spec fn all_digits(s: Seq<char>) -> bool {
    forall|i: int| 0 <= i < s.len() ==> is_digit(#[trigger] s[i])
}

/// The value of a string of decimal digits.
pub open spec fn digits_value(s: Seq<char>) -> int
    decreases s.len(),
{
    if s.len() == 0 {
        0
    } else {
        10 * digits_value(s.drop_last()) + (s.last() as int - '0' as int)
    }
}

/// An optional sign followed by at least one decimal digit.
pub open spec fn integer_value(s: Seq<char>) -> Option<int> {
    if s.len() > 1 && s[0] == '-' && all_digits(s.drop_first()) {
        Some(-digits_value(s.drop_first()))
    } else if s.len() > 1 && s[0] == '+' && all_digits(s.drop_first()) {
        Some(digits_value(s.drop_first()))
    } else if s.len() > 0 && all_digits(s) {
        Some(digits_value(s))
    } else {
        None
    }
}

pub open spec fn trim_start(s: Seq<char>) -> Seq<char>
    decreases s.len(),
{
    if s.len() > 0 && is_blank(s[0]) {
        trim_start(s.drop_first())
    } else {
        s
    }
}

pub open spec fn trim_end(s: Seq<char>) -> Seq<char>
    decreases s.len(),
{
    if s.len() > 0 && is_blank(s.last()) {
        trim_end(s.drop_last())
    } else {
        s
    }
}

/// A coordinate component: an `i32`, with blanks around it allowed.
pub open spec fn number_text(s: Seq<char>) -> Option<i32> {
    match integer_value(trim_end(trim_start(s))) {
        Some(v) => if i32::MIN <= v <= i32::MAX {
            Some(v as i32)
        } else {
            None
        },
        None => None,
    }
}

/// Index of the first `c` in `s`, or `s.len()` if there is none.
pub open spec fn first_of(s: Seq<char>, c: char) -> int
    decreases s.len(),
{
    if s.len() == 0 {
        0
    } else if s[0] == c {
        0
    } else {
        1 + first_of(s.drop_first(), c)
    }
}

/// Index of the first `"->"` in `s`, or `s.len()` if there is none.
pub open spec fn first_arrow(s: Seq<char>) -> int
    decreases s.len(),
{
    if s.len() < 2 {
        s.len() as int
    } else if s[0] == '-' && s[1] == '>' {
        0
    } else {
        1 + first_arrow(s.drop_first())
    }
}

/// `"q, r"`: two numbers split at the first comma.
pub open spec fn coord_text(s: Seq<char>) -> Option<Coord> {
    let j = first_of(s, ',');
    if j < s.len() {
        match (number_text(s.subrange(0, j)), number_text(s.subrange(j + 1, s.len() as int))) {
            (Some(q), Some(r)) => Some(Coord { q, r }),
            _ => None,
        }
    } else {
        None
    }
}

/// `"q1, r1 -> q2, r2"`: two cells split at the first arrow.
pub open spec fn move_text(s: Seq<char>) -> Option<(Coord, Coord)> {
    let i = first_arrow(s);
    if i + 2 <= s.len() {
        match (coord_text(s.subrange(0, i)), coord_text(s.subrange(i + 2, s.len() as int))) {
            (Some(f), Some(t)) => Some((f, t)),
            _ => None,
        }
    } else {
        None
    }
}

proof fn lemma_first_of(s: Seq<char>, c: char, i: int)
    requires
        0 <= i <= s.len(),
        forall|k: int| 0 <= k < i ==> s[k] != c,
        i == s.len() || s[i] == c,
    ensures
        first_of(s, c) == i,
    decreases i,
{
    if i > 0 {
        lemma_first_of(s.drop_first(), c, i - 1);
    }
}

proof fn lemma_first_arrow(s: Seq<char>, i: int)
    requires
        0 <= i <= s.len(),
        forall|k: int| 0 <= k < i && k + 1 < s.len() ==> !(#[trigger] s[k] == '-' && s[k + 1] == '>'),
        i == s.len() || (i + 1 < s.len() && s[i] == '-' && s[i + 1] == '>') || (i + 1 == s.len()),
    ensures
        first_arrow(s) == (if i + 1 == s.len() {
            s.len() as int
        } else {
            i
        }),
    decreases i,
{
    if s.len() >= 2 && i > 0 {
        lemma_first_arrow(s.drop_first(), i - 1);
    }
}

proof fn lemma_trim_start(s: Seq<char>, k: int)
    requires
        0 <= k <= s.len(),
        forall|j: int| 0 <= j < k ==> is_blank(s[j]),
        k == s.len() || !is_blank(s[k]),
    ensures
        trim_start(s) == s.subrange(k, s.len() as int),
    decreases k,
{
    if k == 0 {
        assert(s.subrange(0, s.len() as int) =~= s);
    } else {
        lemma_trim_start(s.drop_first(), k - 1);
        assert(s.drop_first().subrange(k - 1, s.len() - 1) =~= s.subrange(k, s.len() as int));
    }
}

proof fn lemma_trim_end(s: Seq<char>, k: int)
    requires
        0 <= k <= s.len(),
        forall|j: int| k <= j < s.len() ==> is_blank(s[j]),
        k == 0 || !is_blank(s[k - 1]),
    ensures
        trim_end(s) == s.subrange(0, k),
    decreases s.len() - k,
{
    if k == s.len() {
        assert(s.subrange(0, k) =~= s);
    } else {
        lemma_trim_end(s.drop_last(), k);
        assert(s.drop_last().subrange(0, k) =~= s.subrange(0, k));
    }
}

proof fn lemma_digits_nonnegative(s: Seq<char>)
    requires
        all_digits(s),
    ensures
        digits_value(s) >= 0,
    decreases s.len(),
{
    if s.len() > 0 {
        assert(is_digit(s[s.len() - 1]));
        lemma_digits_nonnegative(s.drop_last());
    }
}

/// Appending digits never makes the value smaller.
proof fn lemma_digits_grow(s: Seq<char>, k: int)
    requires
        all_digits(s),
        0 <= k <= s.len(),
    ensures
        digits_value(s) >= digits_value(s.subrange(0, k)),
    decreases s.len() - k,
{
    if k < s.len() {
        lemma_digits_grow(s.drop_last(), k);
        assert(s.drop_last().subrange(0, k) =~= s.subrange(0, k));
        lemma_digits_nonnegative(s.drop_last());
        assert(is_digit(s[s.len() - 1]));
    } else {
        assert(s.subrange(0, k) =~= s);
    }
}

/// Reads the number in `s[lo..hi]`, blanks around it allowed.
fn parse_number(s: &[char], lo: usize, hi: usize) -> (n: Option<i32>)
    requires
        lo <= hi <= s@.len(),
    ensures
        n == number_text(s@.subrange(lo as int, hi as int)),
{
    let ghost whole = s@.subrange(lo as int, hi as int);
    let mut a = lo;
    while a < hi && is_blank_char(s[a])
        invariant
            lo <= a <= hi <= s@.len(),
            forall|j: int| lo <= j < a ==> is_blank(s@[j]),
        decreases hi - a,
    {
        a = a + 1;
    }
    proof {
        lemma_trim_start(whole, a - lo);
        assert(whole.subrange(a - lo, whole.len() as int) =~= s@.subrange(a as int, hi as int));
    }
    let mut b = hi;
    while b > a && is_blank_char(s[b - 1])
        invariant
            lo <= a <= b <= hi <= s@.len(),
            forall|j: int| b <= j < hi ==> is_blank(s@[j]),
        decreases b - a,
    {
        b = b - 1;
    }
    let ghost t = s@.subrange(a as int, b as int);
    proof {
        let mid = s@.subrange(a as int, hi as int);
        lemma_trim_end(mid, b - a);
        assert(mid.subrange(0, b - a) =~= t);
    }
    if a == b {
        return None;
    }
    let negative = s[a] == '-';
    let start = if s[a] == '-' || s[a] == '+' { a + 1 } else { a };
    if start == b {
        return None;
    }
    let ghost body = s@.subrange(start as int, b as int);
    proof {
        if start == a + 1 {
            assert(t.drop_first() =~= body);
        } else {
            assert(t =~= body);
        }
    }
    let mut acc: i64 = 0;
    let mut k = start;
    while k < b
        invariant
            start <= k <= b <= s@.len(),
            lo <= a <= start,
            start <= a + 1,
            start < b,
            start == a + 1 <==> (s@[a as int] == '-' || s@[a as int] == '+'),
            negative == (s@[a as int] == '-'),
            t == s@.subrange(a as int, b as int),
            trim_end(trim_start(s@.subrange(lo as int, hi as int))) == t,
            body == s@.subrange(start as int, b as int),
            all_digits(s@.subrange(start as int, k as int)),
            acc == digits_value(s@.subrange(start as int, k as int)),
            0 <= acc <= 0x8000_0000,
        decreases b - k,
    {
        let c = s[k];
        if !('0' <= c && c <= '9') {
            proof {
                assert(body[k - start] == c);
                assert(!is_digit(t[0]) || start == a);
                if start == a + 1 {
                    assert(t.drop_first() =~= body);
                } else {
                    assert(t =~= body);
                }
            }
            return None;
        }
        let ghost prev = s@.subrange(start as int, k as int);
        let ghost next = s@.subrange(start as int, k + 1);
        proof {
            assert(next.drop_last() =~= prev);
            assert(next.last() == c);
            assert forall|i: int| 0 <= i < next.len() implies is_digit(#[trigger] next[i]) by {
                if i < prev.len() {
                    assert(next[i] == prev[i]);
                }
            }
        }
        let d = (c as u32 - '0' as u32) as i64;
        acc = acc * 10 + d;
        if acc > 0x8000_0000 {
            proof {
                if all_digits(body) {
                    lemma_digits_grow(body, k + 1 - start);
                    assert(body.subrange(0, k + 1 - start) =~= next);
                }
                if start == a + 1 {
                    assert(t.drop_first() =~= body);
                } else {
                    assert(t =~= body);
                }
            }
            return None;
        }
        k = k + 1;
    }
    assert(s@.subrange(start as int, b as int) =~= body);
    if negative {
        Some((0 - acc) as i32)
    } else if acc <= 0x7fff_ffff {
        Some(acc as i32)
    } else {
        None
    }
}

fn is_blank_char(c: char) -> (b: bool)
    ensures
        b == is_blank(c),
{
    ('\t' <= c && c <= '\r') || c == ' ' || c == '\u{85}' || c == '\u{a0}' || c == '\u{1680}' || (
    '\u{2000}' <= c && c <= '\u{200a}') || c == '\u{2028}' || c == '\u{2029}' || c == '\u{202f}'
        || c == '\u{205f}' || c == '\u{3000}'
}

/// Reads `"q, r"` in `s[lo..hi]`.
fn parse_coord(s: &[char], lo: usize, hi: usize) -> (c: Option<Coord>)
    requires
        lo <= hi <= s@.len(),
    ensures
        c == coord_text(s@.subrange(lo as int, hi as int)),
{
    let ghost part = s@.subrange(lo as int, hi as int);
    let mut j = lo;
    while j < hi && s[j] != ','
        invariant
            lo <= j <= hi <= s@.len(),
            forall|k: int| lo <= k < j ==> s@[k] != ',',
        decreases hi - j,
    {
        j = j + 1;
    }
    proof {
        lemma_first_of(part, ',', j - lo);
    }
    if j == hi {
        return None;
    }
    let q = parse_number(s, lo, j);
    let r = parse_number(s, j + 1, hi);
    proof {
        assert(part.subrange(0, j - lo) =~= s@.subrange(lo as int, j as int));
        assert(part.subrange(j - lo + 1, part.len() as int) =~= s@.subrange(j + 1, hi as int));
    }
    match (q, r) {
        (Some(q), Some(r)) => Some(Coord { q, r }),
        _ => None,
    }
}

/// Reads a move request `"q1, r1 -> q2, r2"`: the cell to move from, then the
/// cell to move to. Blanks around each number are allowed.
pub fn parse_move(s: &[char]) -> (m: Option<(Coord, Coord)>)
    ensures
        m == move_text(s@),
{
    let n = s.len();
    let mut i: usize = 0;
    while i < n && i + 1 < n && !(s[i] == '-' && s[i + 1] == '>')
        invariant
            n == s@.len(),
            0 <= i <= n,
            forall|k: int| 0 <= k < i && k + 1 < n ==> !(#[trigger] s@[k] == '-' && s@[k + 1] == '>'),
        decreases n - i,
    {
        i = i + 1;
    }
    if i >= n || i + 1 >= n {
        proof {
            if n == 0 {
                lemma_first_arrow(s@, 0);
            } else {
                lemma_first_arrow(s@, (n - 1) as int);
            }
        }
        return None;
    }
    proof {
        lemma_first_arrow(s@, i as int);
    }
    let f = parse_coord(s, 0, i);
    let t = parse_coord(s, i + 2, n);
    match (f, t) {
        (Some(f), Some(t)) => Some((f, t)),
        _ => None,
    }
}

} // verus!
