//! Character-level text handling: the views of `&str` and `String` as
//! `Seq<char>`, and the trimming, searching, splitting and decimal
//! conversions that the rest of the library is stated over.
use vstd::prelude::*;

verus! {

// ---------------------------------------------------------------------------
// Whitespace and trimming
// ---------------------------------------------------------------------------

/// The Unicode `White_Space` property: the characters that `char::is_whitespace`
/// accepts and that `str::trim` removes.
pub open spec fn is_ws(c: char) -> bool {
    let u = c as u32;
    ||| 9 <= u <= 13
    ||| u == 32 || u == 0x85 || u == 0xA0 || u == 0x1680
    ||| 0x2000 <= u <= 0x200A
    ||| u == 0x2028 || u == 0x2029 || u == 0x202F || u == 0x205F || u == 0x3000
}

/// `s` without its leading whitespace.
pub open spec fn trim_start(s: Seq<char>) -> Seq<char>
    decreases s.len(),
{
    if s.len() > 0 && is_ws(s[0]) {
        trim_start(s.drop_first())
    } else {
        s
    }
}

/// `s` without its trailing whitespace.
pub open spec fn trim_end(s: Seq<char>) -> Seq<char>
    decreases s.len(),
{
    if s.len() > 0 && is_ws(s.last()) {
        trim_end(s.drop_last())
    } else {
        s
    }
}

/// `s` without leading and trailing whitespace, as `str::trim` gives it.
pub open spec fn trim(s: Seq<char>) -> Seq<char> {
    trim_end(trim_start(s))
}

/// Whether `c` is whitespace.
pub fn is_whitespace(c: char) -> (b: bool)
    ensures
        b == is_ws(c),
{
    let u = c as u32;
    (9 <= u && u <= 13) || u == 32 || u == 0x85 || u == 0xA0 || u == 0x1680 || (0x2000 <= u
        && u <= 0x200A) || u == 0x2028 || u == 0x2029 || u == 0x202F || u == 0x205F || u
        == 0x3000
}

/// Trimming the start stops at the first character that is not whitespace.
pub proof fn lemma_trim_start_at(s: Seq<char>, i: int)
    requires
        0 <= i <= s.len(),
        forall|k: int| 0 <= k < i ==> is_ws(#[trigger] s[k]),
        i < s.len() ==> !is_ws(s[i]),
    ensures
        trim_start(s) == s.skip(i),
    decreases i,
{
    if i == 0 {
        assert(s.skip(0) =~= s);
    } else {
        assert(is_ws(s[0]));
        let t = s.drop_first();
        assert forall|k: int| 0 <= k < i - 1 implies is_ws(#[trigger] t[k]) by {
            assert(t[k] == s[k + 1]);
        }
        lemma_trim_start_at(t, i - 1);
        assert(t.skip(i - 1) =~= s.skip(i));
    }
}

/// Trimming the end stops after the last character that is not whitespace.
pub proof fn lemma_trim_end_at(s: Seq<char>, j: int)
    requires
        0 <= j <= s.len(),
        forall|k: int| j <= k < s.len() ==> is_ws(#[trigger] s[k]),
        j > 0 ==> !is_ws(s[j - 1]),
    ensures
        trim_end(s) == s.take(j),
    decreases s.len() - j,
{
    if j == s.len() {
        assert(s.take(j) =~= s);
    } else {
        assert(is_ws(s[s.len() - 1]));
        let t = s.drop_last();
        assert forall|k: int| j <= k < t.len() implies is_ws(#[trigger] t[k]) by {
            assert(t[k] == s[k]);
        }
        lemma_trim_end_at(t, j);
        assert(t.take(j) =~= s.take(j));
    }
}

/// The bounds of `trim(s[start..end])` within `s`.
pub fn trim_range(s: &Vec<char>, start: usize, end: usize) -> (r: (usize, usize))
    requires
        start <= end <= s@.len(),
    ensures
        start <= r.0 <= r.1 <= end,
        s@.subrange(r.0 as int, r.1 as int) == trim(s@.subrange(start as int, end as int)),
{
    let ghost sub = s@.subrange(start as int, end as int);
    let mut i = start;
    while i < end && is_whitespace(s[i])
        invariant
            start <= i <= end <= s@.len(),
            forall|k: int| start <= k < i ==> is_ws(#[trigger] s@[k]),
        decreases end - i,
    {
        i = i + 1;
    }
    proof {
        assert forall|k: int| 0 <= k < i - start implies is_ws(#[trigger] sub[k]) by {
            assert(sub[k] == s@[start + k]);
        }
        lemma_trim_start_at(sub, i - start);
        assert(sub.skip(i - start) =~= s@.subrange(i as int, end as int));
    }
    let mut j = end;
    while j > i && is_whitespace(s[j - 1])
        invariant
            start <= i <= j <= end <= s@.len(),
            forall|k: int| j <= k < end ==> is_ws(#[trigger] s@[k]),
        decreases j - i,
    {
        j = j - 1;
    }
    proof {
        let t = s@.subrange(i as int, end as int);
        assert forall|k: int| j - i <= k < t.len() implies is_ws(#[trigger] t[k]) by {
            assert(t[k] == s@[i + k]);
        }
        if j > i {
            assert(t[j - i - 1] == s@[j - 1]);
        }
        lemma_trim_end_at(t, j - i);
        assert(t.take(j - i) =~= s@.subrange(i as int, j as int));
    }
    (i, j)
}

// ---------------------------------------------------------------------------
// Conversions between `str`, `String` and `Vec<char>`
// ---------------------------------------------------------------------------

/// The characters of `s`, in order.
pub fn chars_of(s: &str) -> (v: Vec<char>)
    ensures
        v@ == s@,
{
    let mut v: Vec<char> = Vec::new();
    let n = s.unicode_len();
    let mut i: usize = 0;
    while i < n
        invariant
            n == s@.len(),
            i <= n,
            v@ == s@.take(i as int),
        decreases n - i,
    {
        let c = s.get_char(i);
        v.push(c);
        i = i + 1;
        assert(v@ =~= s@.take(i as int));
    }
    assert(v@ =~= s@);
    v
}

/// `String::push`: appends one character.
#[verifier::external_body]
pub(crate) fn push_char(s: &mut String, c: char)
    ensures
        final(s)@ == old(s)@.push(c),
{
    s.push(c);
}

/// Appends `s[start..end]` to `out`.
pub fn push_range(out: &mut String, s: &Vec<char>, start: usize, end: usize)
    requires
        start <= end <= s@.len(),
    ensures
        final(out)@ == old(out)@ + s@.subrange(start as int, end as int),
{
    let mut i = start;
    while i < end
        invariant
            start <= i <= end <= s@.len(),
            out@ == old(out)@ + s@.subrange(start as int, i as int),
        decreases end - i,
    {
        push_char(out, s[i]);
        i = i + 1;
        assert(out@ =~= old(out)@ + s@.subrange(start as int, i as int));
    }
}

/// The string made of `s[start..end]`.
pub fn string_of(s: &Vec<char>, start: usize, end: usize) -> (r: String)
    requires
        start <= end <= s@.len(),
    ensures
        r@ == s@.subrange(start as int, end as int),
{
    let mut r = String::new();
    push_range(&mut r, s, start, end);
    assert(r@ =~= s@.subrange(start as int, end as int));
    r
}

/// Appends all of `t` to `out`.
pub fn push_str(out: &mut String, t: &str)
    ensures
        final(out)@ == old(out)@ + t@,
{
    let v = chars_of(t);
    push_range(out, &v, 0, v.len());
    assert(v@.subrange(0, v@.len() as int) =~= t@);
}

/// Whether `a` and `b` hold the same text.
pub fn same_text(a: &str, b: &str) -> (r: bool)
    ensures
        r == (a@ == b@),
{
    let x = chars_of(a);
    let y = chars_of(b);
    if x.len() != y.len() {
        return false;
    }
    let mut i: usize = 0;
    while i < x.len()
        invariant
            x@ == a@,
            y@ == b@,
            x@.len() == y@.len(),
            i <= x@.len(),
            forall|k: int| 0 <= k < i ==> x@[k] == y@[k],
        decreases x@.len() - i,
    {
        if x[i] != y[i] {
            assert(x@[i as int] != y@[i as int]);
            assert(a@ != b@);
            return false;
        }
        i = i + 1;
    }
    assert(x@ =~= y@);
    true
}


// ---------------------------------------------------------------------------
// Searching
// ---------------------------------------------------------------------------

/// `i` is the first index at which `c` occurs in `s`.
pub open spec fn first_at(s: Seq<char>, c: char, i: int) -> bool {
    &&& 0 <= i < s.len()
    &&& s[i] == c
    &&& forall|k: int| 0 <= k < i ==> s[k] != c
}

/// The index of the first `c` in `s`, as `str::find` with a `char` gives it.
pub open spec fn find_char(s: Seq<char>, c: char) -> Option<int> {
    if exists|i: int| first_at(s, c, i) {
        Some(choose|i: int| first_at(s, c, i))
    } else {
        None
    }
}

/// A first occurrence pins `find_char`.
pub proof fn lemma_find_char_at(s: Seq<char>, c: char, i: int)
    requires
        first_at(s, c, i),
    ensures
        find_char(s, c) == Some(i),
{
    let j = choose|j: int| first_at(s, c, j);
    assert(first_at(s, c, j));
    if j < i {
        assert(s[j] != c);
    }
    if i < j {
        assert(s[i] != c);
    }
}

/// Without any `c` in `s`, `find_char` finds nothing.
pub proof fn lemma_find_char_none(s: Seq<char>, c: char)
    requires
        forall|k: int| 0 <= k < s.len() ==> s[k] != c,
    ensures
        find_char(s, c) is None,
{
}

/// The first index of `c` in `s[start..end]`, relative to `start`.
pub fn find_in(s: &Vec<char>, start: usize, end: usize, c: char) -> (r: Option<usize>)
    requires
        start <= end <= s@.len(),
    ensures
        match r {
            Some(i) => start <= i < end && find_char(s@.subrange(start as int, end as int), c)
                == Some(i - start),
            None => find_char(s@.subrange(start as int, end as int), c) is None,
        },
{
    let ghost sub = s@.subrange(start as int, end as int);
    let mut i = start;
    while i < end
        invariant
            start <= i <= end <= s@.len(),
            sub == s@.subrange(start as int, end as int),
            forall|k: int| start <= k < i ==> s@[k] != c,
        decreases end - i,
    {
        if s[i] == c {
            proof {
                assert forall|k: int| 0 <= k < i - start implies sub[k] != c by {
                    assert(sub[k] == s@[start + k]);
                }
                lemma_find_char_at(sub, c, i - start);
            }
            return Some(i);
        }
        i = i + 1;
    }
    proof {
        assert forall|k: int| 0 <= k < sub.len() implies sub[k] != c by {
            assert(sub[k] == s@[start + k]);
        }
        lemma_find_char_none(sub, c);
    }
    None
}

/// `pat` occurs in `s` at index `i`.
pub open spec fn occurs_at(s: Seq<char>, pat: Seq<char>, i: int) -> bool {
    0 <= i && i + pat.len() <= s.len() && s.subrange(i, i + pat.len()) == pat
}

/// `i` is the first index at which `pat` occurs in `s`.
pub open spec fn first_occurrence(s: Seq<char>, pat: Seq<char>, i: int) -> bool {
    occurs_at(s, pat, i) && forall|k: int| 0 <= k < i ==> !occurs_at(s, pat, k)
}

/// The index of the first occurrence of `pat` in `s`, as `str::find` with a
/// `&str` gives it.
pub open spec fn find_text(s: Seq<char>, pat: Seq<char>) -> Option<int> {
    if exists|i: int| first_occurrence(s, pat, i) {
        Some(choose|i: int| first_occurrence(s, pat, i))
    } else {
        None
    }
}

/// Whether `pat` occurs in `s` at `i`.
fn occurs_at_exec(s: &Vec<char>, pat: &Vec<char>, i: usize) -> (b: bool)
    ensures
        b == occurs_at(s@, pat@, i as int),
{
    if i > s.len() || pat.len() > s.len() - i {
        return false;
    }
    let n = s.len();
    let mut k: usize = 0;
    while k < pat.len()
        invariant
            n == s@.len(),
            i + pat@.len() <= n,
            k <= pat@.len(),
            forall|m: int| 0 <= m < k ==> s@[i + m] == pat@[m],
        decreases pat@.len() - k,
    {
        if s[i + k] != pat[k] {
            assert(s@.subrange(i as int, i + pat@.len())[k as int] != pat@[k as int]);
            return false;
        }
        k = k + 1;
    }
    assert(s@.subrange(i as int, i + pat@.len()) =~= pat@);
    true
}

/// The first occurrence of `pat` in `s`.
pub fn find_text_in(s: &Vec<char>, pat: &Vec<char>) -> (r: Option<usize>)
    ensures
        match r {
            Some(i) => find_text(s@, pat@) == Some(i as int),
            None => find_text(s@, pat@) is None,
        },
{
    let n = s.len();
    let mut i: usize = 0;
    loop
        invariant
            n == s@.len(),
            i <= n,
            forall|k: int| 0 <= k < i ==> !occurs_at(s@, pat@, k),
        decreases n - i,
    {
        if occurs_at_exec(s, pat, i) {
            proof {
                assert(first_occurrence(s@, pat@, i as int));
                let j = choose|j: int| first_occurrence(s@, pat@, j);
                assert(first_occurrence(s@, pat@, j));
                if j < i {
                    assert(!occurs_at(s@, pat@, j));
                }
                if i < j {
                    assert(!occurs_at(s@, pat@, i as int));
                }
            }
            return Some(i);
        }
        if i == n {
            proof {
                assert forall|k: int| !first_occurrence(s@, pat@, k) by {
                    if 0 <= k <= n {
                    } else if k > n {
                        assert(!occurs_at(s@, pat@, k));
                    }
                }
            }
            return None;
        }
        i = i + 1;
    }
}

// ---------------------------------------------------------------------------
// Splitting
// ---------------------------------------------------------------------------

/// The pieces of `s` between occurrences of `c`, as `str::split` with a `char`
/// gives them: one more piece than there are separators, empty pieces kept.
pub open spec fn split(s: Seq<char>, c: char) -> Seq<Seq<char>>
    decreases s.len(),
{
    if s.len() == 0 {
        seq![Seq::<char>::empty()]
    } else {
        let init = split(s.drop_last(), c);
        if s.last() == c {
            init.push(Seq::<char>::empty())
        } else {
            init.update(init.len() - 1, init.last().push(s.last()))
        }
    }
}

/// `split` never yields an empty list.
pub proof fn lemma_split_nonempty(s: Seq<char>, c: char)
    ensures
        split(s, c).len() >= 1,
    decreases s.len(),
{
    if s.len() > 0 {
        lemma_split_nonempty(s.drop_last(), c);
    }
}

/// The bounds, within `s`, of the pieces of `s[start..end]` split at `c`.
pub fn split_ranges(s: &Vec<char>, start: usize, end: usize, c: char) -> (r: Vec<(usize, usize)>)
    requires
        start <= end <= s@.len(),
    ensures
        r@.len() == split(s@.subrange(start as int, end as int), c).len(),
        forall|j: int|
            0 <= j < r@.len() ==> start <= (#[trigger] r@[j]).0 <= r@[j].1 <= end && s@.subrange(
                r@[j].0 as int,
                r@[j].1 as int,
            ) == split(s@.subrange(start as int, end as int), c)[j],
{
    let mut r: Vec<(usize, usize)> = Vec::new();
    let mut piece = start;
    let mut i = start;
    assert(s@.subrange(start as int, start as int) =~= Seq::<char>::empty());
    while i < end
        invariant
            start <= piece <= i <= end <= s@.len(),
            r@.len() + 1 == split(s@.subrange(start as int, i as int), c).len(),
            forall|j: int|
                0 <= j < r@.len() ==> start <= (#[trigger] r@[j]).0 <= r@[j].1 <= end
                    && s@.subrange(r@[j].0 as int, r@[j].1 as int) == split(
                    s@.subrange(start as int, i as int),
                    c,
                )[j],
            s@.subrange(piece as int, i as int) == split(
                s@.subrange(start as int, i as int),
                c,
            ).last(),
        decreases end - i,
    {
        let ghost prev = split(s@.subrange(start as int, i as int), c);
        let ghost next_sub = s@.subrange(start as int, i + 1);
        assert(next_sub.drop_last() =~= s@.subrange(start as int, i as int));
        assert(next_sub.last() == s@[i as int]);
        if s[i] == c {
            r.push((piece, i));
            piece = i + 1;
            assert(s@.subrange(piece as int, i + 1) =~= Seq::<char>::empty());
        } else {
            assert(s@.subrange(piece as int, i + 1) =~= s@.subrange(piece as int, i as int).push(
                s@[i as int],
            ));
        }
        i = i + 1;
    }
    r.push((piece, end));
    r
}

// ---------------------------------------------------------------------------
// Lines
// ---------------------------------------------------------------------------

/// A line without the `\r` of a `\r\n` ending.
pub open spec fn strip_cr(l: Seq<char>) -> Seq<char> {
    if l.len() > 0 && l.last() == '\r' {
        l.drop_last()
    } else {
        l
    }
}

/// The lines of `s`, as `str::lines` gives them: split at `\n`, a `\r` just
/// before a `\n` dropped, and no empty line after a final `\n`.
pub open spec fn lines(s: Seq<char>) -> Seq<Seq<char>> {
    let parts = split(s, '\n');
    let n: int = if s.len() == 0 || s.last() == '\n' {
        parts.len() - 1
    } else {
        parts.len() as int
    };
    Seq::new(
        n as nat,
        |i: int|
            if i + 1 < parts.len() {
                strip_cr(parts[i])
            } else {
                parts[i]
            },
    )
}

/// The bounds, within `s`, of the lines of `s`.
pub fn line_ranges(s: &Vec<char>) -> (r: Vec<(usize, usize)>)
    ensures
        r@.len() == lines(s@).len(),
        forall|j: int|
            0 <= j < r@.len() ==> (#[trigger] r@[j]).0 <= r@[j].1 <= s@.len() && s@.subrange(
                r@[j].0 as int,
                r@[j].1 as int,
            ) == lines(s@)[j],
{
    let parts = split_ranges(s, 0, s.len(), '\n');
    assert(s@.subrange(0, s@.len() as int) =~= s@);
    let ghost sp = split(s@, '\n');
    proof {
        lemma_split_nonempty(s@, '\n');
    }
    let n = if s.len() == 0 || s[s.len() - 1] == '\n' {
        parts.len() - 1
    } else {
        parts.len()
    };
    let mut r: Vec<(usize, usize)> = Vec::new();
    let mut j: usize = 0;
    while j < n
        invariant
            n <= parts@.len(),
            n == lines(s@).len(),
            parts@.len() == sp.len(),
            sp == split(s@, '\n'),
            forall|k: int|
                0 <= k < parts@.len() ==> (#[trigger] parts@[k]).0 <= parts@[k].1 <= s@.len()
                    && s@.subrange(parts@[k].0 as int, parts@[k].1 as int) == sp[k],
            j <= n,
            r@.len() == j,
            forall|k: int|
                0 <= k < j ==> (#[trigger] r@[k]).0 <= r@[k].1 <= s@.len() && s@.subrange(
                    r@[k].0 as int,
                    r@[k].1 as int,
                ) == lines(s@)[k],
        decreases n - j,
    {
        let (a, b) = parts[j];
        let ghost piece = s@.subrange(a as int, b as int);
        assert(piece == sp[j as int]);
        if j + 1 < parts.len() && b > a && s[b - 1] == '\r' {
            assert(piece.last() == s@[b - 1]);
            assert(s@.subrange(a as int, b - 1) =~= piece.drop_last());
            r.push((a, b - 1));
        } else {
            proof {
                if j + 1 < parts@.len() && b > a {
                    assert(piece.last() == s@[b - 1]);
                }
            }
            r.push((a, b));
        }
        j = j + 1;
    }
    r
}

// ---------------------------------------------------------------------------
// Decimal numbers
// ---------------------------------------------------------------------------

/// `c` is one of the ASCII digits `0`..`9`.
pub open spec fn is_digit(c: char) -> bool {
    48 <= (c as u32) <= 57
}

/// The value of the digit `c`.
pub open spec fn digit_value(c: char) -> nat {
    ((c as u32) - 48) as nat
}

/// The value of the digits `s`, most significant first.
pub open spec fn digits_value(s: Seq<char>) -> nat
    decreases s.len(),
{
    if s.len() == 0 {
        0
    } else {
        digits_value(s.drop_last()) * 10 + digit_value(s.last())
    }
}

/// Every character of `s` is a digit.
pub open spec fn all_digits(s: Seq<char>) -> bool {
    forall|i: int| 0 <= i < s.len() ==> is_digit(#[trigger] s[i])
}

/// `s` without one leading `+`.
pub open spec fn unsigned_digits(s: Seq<char>) -> Seq<char> {
    if s.len() > 0 && s[0] == '+' {
        s.drop_first()
    } else {
        s
    }
}

/// What parsing `s` as an unsigned integer type whose largest value is `max`
/// gives, as `FromStr` for those types documents it: an optional `+`, then at
/// least one decimal digit, and a value that fits.
pub open spec fn parse_unsigned(s: Seq<char>, max: nat) -> Option<nat> {
    let d = unsigned_digits(s);
    if d.len() > 0 && all_digits(d) && digits_value(d) <= max {
        Some(digits_value(d))
    } else {
        None
    }
}

/// Parses `s[start..end]` as an unsigned integer no larger than `max`.
pub fn parse_range(s: &Vec<char>, start: usize, end: usize, max: u64) -> (r: Option<u64>)
    requires
        start <= end <= s@.len(),
    ensures
        match r {
            Some(v) => parse_unsigned(s@.subrange(start as int, end as int), max as nat) == Some(
                v as nat,
            ),
            None => parse_unsigned(s@.subrange(start as int, end as int), max as nat) is None,
        },
{
    let ghost sub = s@.subrange(start as int, end as int);
    let mut i = start;
    if i < end && s[i] == '+' {
        i = i + 1;
    }
    let ghost d = unsigned_digits(sub);
    assert(d =~= s@.subrange(i as int, end as int));
    if i == end {
        return None;
    }
    let mut acc: u128 = 0;
    let limit: u128 = max as u128 + 1;
    let first = i;
    assert(s@.subrange(first as int, first as int) =~= Seq::<char>::empty());
    while i < end
        invariant
            start <= first <= i <= end <= s@.len(),
            d == s@.subrange(first as int, end as int),
            d == unsigned_digits(s@.subrange(start as int, end as int)),
            limit == max + 1,
            all_digits(s@.subrange(first as int, i as int)),
            acc == if digits_value(s@.subrange(first as int, i as int)) <= max {
                digits_value(s@.subrange(first as int, i as int)) as int
            } else {
                limit as int
            },
        decreases end - i,
    {
        let c = s[i];
        let u = c as u32;
        if u < 48 || u > 57 {
            assert(!is_digit(d[i - first]));
            return None;
        }
        let ghost prefix = s@.subrange(first as int, i as int);
        let ghost next = s@.subrange(first as int, i + 1);
        assert(next.drop_last() =~= prefix);
        assert(next.last() == c);
        assert(digits_value(next) == digits_value(prefix) * 10 + digit_value(c));
        let dv = (u - 48) as u128;
        if acc < limit {
            let t = acc * 10 + dv;
            if t > max as u128 {
                acc = limit;
            } else {
                acc = t;
            }
        }
        i = i + 1;
        assert(all_digits(next)) by {
            assert forall|k: int| 0 <= k < next.len() implies is_digit(#[trigger] next[k]) by {
                if k < prefix.len() {
                    assert(next[k] == prefix[k]);
                }
            }
        }
    }
    if acc > max as u128 {
        None
    } else {
        Some(acc as u64)
    }
}

/// The digit character for `d`.
pub open spec fn digit_char(d: nat) -> char {
    if d == 0 {
        '0'
    } else if d == 1 {
        '1'
    } else if d == 2 {
        '2'
    } else if d == 3 {
        '3'
    } else if d == 4 {
        '4'
    } else if d == 5 {
        '5'
    } else if d == 6 {
        '6'
    } else if d == 7 {
        '7'
    } else if d == 8 {
        '8'
    } else {
        '9'
    }
}

/// The decimal representation of `n`, as `{}` formats an unsigned integer.
pub open spec fn decimal(n: nat) -> Seq<char>
    decreases n,
{
    if n < 10 {
        seq![digit_char(n)]
    } else {
        decimal(n / 10).push(digit_char(n % 10))
    }
}

fn digit_char_exec(d: u64) -> (c: char)
    requires
        d < 10,
    ensures
        c == digit_char(d as nat),
{
    if d == 0 {
        '0'
    } else if d == 1 {
        '1'
    } else if d == 2 {
        '2'
    } else if d == 3 {
        '3'
    } else if d == 4 {
        '4'
    } else if d == 5 {
        '5'
    } else if d == 6 {
        '6'
    } else if d == 7 {
        '7'
    } else if d == 8 {
        '8'
    } else {
        '9'
    }
}

/// Appends the decimal representation of `n` to `out`.
pub fn push_decimal(out: &mut String, n: u64)
    ensures
        final(out)@ == old(out)@ + decimal(n as nat),
    decreases n,
{
    if n >= 10 {
        push_decimal(out, n / 10);
    }
    let c = digit_char_exec(n % 10);
    push_char(out, c);
    assert(out@ =~= old(out)@ + decimal(n as nat));
}

/// A digit character is a digit, and has the value it stands for.
pub proof fn lemma_digit_char(d: nat)
    requires
        d < 10,
    ensures
        is_digit(digit_char(d)),
        digit_value(digit_char(d)) == d,
        digit_char(d) != '+',
        !is_ws(digit_char(d)),
{
}

/// The decimal representation of `n` is made of digits, and reads back as `n`.
pub proof fn lemma_decimal_digits(n: nat)
    ensures
        decimal(n).len() > 0,
        all_digits(decimal(n)),
        digits_value(decimal(n)) == n,
    decreases n,
{
    if n < 10 {
        lemma_digit_char(n);
        let s = decimal(n);
        assert(s.drop_last() =~= Seq::<char>::empty());
        assert(digits_value(s.drop_last()) == 0);
        assert(s.last() == digit_char(n));
        assert(digits_value(s) == digits_value(s.drop_last()) * 10 + digit_value(s.last()));
    } else {
        lemma_decimal_digits(n / 10);
        lemma_digit_char(n % 10);
        let s = decimal(n);
        assert(s.drop_last() =~= decimal(n / 10));
        assert(n == (n / 10) * 10 + n % 10);
        assert(s.last() == digit_char(n % 10));
        assert(digit_value(s.last()) == n % 10);
        assert(digits_value(s.drop_last()) == n / 10);
        assert(digits_value(s) == digits_value(s.drop_last()) * 10 + digit_value(s.last()));
        assert forall|i: int| 0 <= i < s.len() implies is_digit(#[trigger] s[i]) by {
            if i < s.len() - 1 {
                assert(s[i] == decimal(n / 10)[i]);
            }
        }
    }
}

/// Parsing the decimal representation of a number gives the number back.
pub proof fn lemma_parse_decimal(n: nat, max: nat)
    requires
        n <= max,
    ensures
        parse_unsigned(decimal(n), max) == Some(n),
{
    lemma_decimal_digits(n);
    let s = decimal(n);
    assert(is_digit(s[0]));
    assert(s[0] != '+');
    assert(unsigned_digits(s) == s);
}


// ---------------------------------------------------------------------------
// Facts about splitting and trimming joined text
// ---------------------------------------------------------------------------

/// Splitting text that holds a separator splits the parts on either side.
pub proof fn lemma_split_concat(x: Seq<char>, c: char, y: Seq<char>)
    ensures
        split(x + seq![c] + y, c) == split(x, c) + split(y, c),
    decreases y.len(),
{
    let s = x + seq![c] + y;
    if y.len() == 0 {
        assert(s.drop_last() =~= x);
        assert(s.last() == c);
        assert(split(y, c) =~= seq![Seq::<char>::empty()]);
        assert(split(s, c) =~= split(x, c) + split(y, c));
    } else {
        let y0 = y.drop_last();
        lemma_split_concat(x, c, y0);
        lemma_split_nonempty(y0, c);
        lemma_split_nonempty(x, c);
        assert(s.drop_last() =~= x + seq![c] + y0);
        assert(s.last() == y.last());
        assert(split(s, c) =~= split(x, c) + split(y, c));
    }
}

/// Text without the separator splits into itself alone.
pub proof fn lemma_split_none(x: Seq<char>, c: char)
    requires
        forall|k: int| 0 <= k < x.len() ==> x[k] != c,
    ensures
        split(x, c) == seq![x],
    decreases x.len(),
{
    if x.len() == 0 {
        assert(x =~= Seq::<char>::empty());
        assert(split(x, c) =~= seq![x]);
    } else {
        let x0 = x.drop_last();
        lemma_split_none(x0, c);
        assert(x.last() == x[x.len() - 1]);
        assert(x.last() != c);
        assert forall|k: int| 0 <= k < x0.len() implies x0[k] != c by {
            assert(x0[k] == x[k]);
        }
        assert(split(x0, c).last() == x0);
        assert(x0.push(x.last()) =~= x);
        assert(split(x, c) =~= seq![x]);
    }
}

/// Text that neither starts nor ends with whitespace is its own trim.
pub proof fn lemma_trim_unchanged(s: Seq<char>)
    requires
        s.len() > 0,
        !is_ws(s[0]),
        !is_ws(s.last()),
    ensures
        trim(s) == s,
{
    lemma_trim_start_at(s, 0);
    assert(s.skip(0) =~= s);
    lemma_trim_end_at(s, s.len() as int);
    assert(s.take(s.len() as int) =~= s);
}

/// A digit is neither whitespace nor any of `#`, `,`, `+`, `\n`.
pub proof fn lemma_digit_not(c: char)
    requires
        is_digit(c),
    ensures
        !is_ws(c),
        c != '#',
        c != ',',
        c != '+',
        c != '\n',
{
}


// ---------------------------------------------------------------------------
// Lists of strings
// ---------------------------------------------------------------------------

/// The texts of a list of strings.
pub open spec fn texts(v: Seq<String>) -> Seq<Seq<char>> {
    v.map_values(|s: String| s@)
}

/// The parts joined with `sep` between each two, as `[String]::join` gives it.
pub open spec fn join(parts: Seq<Seq<char>>, sep: Seq<char>) -> Seq<char>
    decreases parts.len(),
{
    if parts.len() == 0 {
        Seq::<char>::empty()
    } else if parts.len() == 1 {
        parts[0]
    } else {
        join(parts.drop_last(), sep) + sep + parts.last()
    }
}

/// `v[from..]` joined with single spaces.
pub fn join_words(v: &[String], from: usize) -> (r: String)
    requires
        from <= v@.len(),
    ensures
        r@ == join(texts(v@).skip(from as int), seq![' ']),
{
    let ghost t = texts(v@);
    let mut r = String::new();
    let n = v.len();
    let mut i = from;
    assert(t.subrange(from as int, from as int) =~= Seq::<Seq<char>>::empty());
    while i < n
        invariant
            n == v@.len(),
            t == texts(v@),
            from <= i <= n,
            r@ == join(t.subrange(from as int, i as int), seq![' ']),
        decreases n - i,
    {
        let ghost pre = t.subrange(from as int, i as int);
        let ghost next = t.subrange(from as int, i + 1);
        assert(next.drop_last() =~= pre);
        assert(next.last() == v@[i as int]@);
        if i > from {
            push_char(&mut r, ' ');
        } else {
            assert(next.len() == 1);
        }
        push_str(&mut r, v[i].as_str());
        i = i + 1;
    }
    assert(t.subrange(from as int, n as int) =~= t.skip(from as int));
    r
}


/// `a..b` bounds the part of `s` that trimming keeps: only whitespace before
/// `a` and from `b` on, and no whitespace at either end of `s[a..b]`.
pub open spec fn trim_bounds(s: Seq<char>, a: int, b: int) -> bool {
    &&& 0 <= a <= b <= s.len()
    &&& forall|k: int| 0 <= k < a ==> is_ws(#[trigger] s[k])
    &&& forall|k: int| b <= k < s.len() ==> is_ws(#[trigger] s[k])
    &&& a < b ==> !is_ws(s[a]) && !is_ws(s[b - 1])
}

/// Trimming keeps what the bounds enclose.
pub proof fn lemma_trim_between(s: Seq<char>, a: int, b: int)
    requires
        trim_bounds(s, a, b),
    ensures
        trim(s) == s.subrange(a, b),
{
    if a < b {
        lemma_trim_start_at(s, a);
        let t = s.skip(a);
        assert forall|k: int| b - a <= k < t.len() implies is_ws(#[trigger] t[k]) by {
            assert(t[k] == s[a + k]);
        }
        assert(t[b - a - 1] == s[b - 1]);
        lemma_trim_end_at(t, b - a);
        assert(t.take(b - a) =~= s.subrange(a, b));
    } else {
        assert forall|k: int| 0 <= k < s.len() implies is_ws(#[trigger] s[k]) by {
            if k < a {
            } else {
            }
        }
        lemma_trim_start_at(s, s.len() as int);
        assert(s.skip(s.len() as int) =~= Seq::<char>::empty());
        assert(s.subrange(a, b) =~= Seq::<char>::empty());
    }
}

/// Every text has trimming bounds.
pub proof fn lemma_trim_bounds_exist(s: Seq<char>) -> (r: (int, int))
    ensures
        trim_bounds(s, r.0, r.1),
    decreases s.len(),
{
    if s.len() == 0 {
        (0, 0)
    } else {
        let s0 = s.drop_last();
        let (a0, b0) = lemma_trim_bounds_exist(s0);
        assert(forall|k: int| 0 <= k < s0.len() ==> #[trigger] s0[k] == s[k]);
        let n = s.len() - 1;
        if is_ws(s[n]) {
            if a0 < b0 {
                assert forall|k: int| 0 <= k < a0 implies is_ws(#[trigger] s[k]) by {
                    assert(s0[k] == s[k]);
                }
                assert forall|k: int| b0 <= k < s.len() implies is_ws(#[trigger] s[k]) by {
                    if k < n {
                        assert(s0[k] == s[k]);
                    }
                }
                assert(s0[a0] == s[a0] && s0[b0 - 1] == s[b0 - 1]);
                assert(trim_bounds(s, a0, b0));
                (a0, b0)
            } else {
                assert forall|k: int| 0 <= k < s.len() implies is_ws(#[trigger] s[k]) by {
                    if k < n {
                        assert(s0[k] == s[k]);
                        if k < a0 {
                        } else {
                        }
                    }
                }
                assert(trim_bounds(s, 0, 0));
                (0, 0)
            }
        } else {
            if a0 < b0 {
                assert forall|k: int| 0 <= k < a0 implies is_ws(#[trigger] s[k]) by {
                    assert(s0[k] == s[k]);
                }
                assert(s0[a0] == s[a0]);
                assert(trim_bounds(s, a0, s.len() as int));
                (a0, s.len() as int)
            } else {
                assert forall|k: int| 0 <= k < n implies is_ws(#[trigger] s[k]) by {
                    assert(s0[k] == s[k]);
                    if k < a0 {
                    } else {
                    }
                }
                assert(trim_bounds(s, n, s.len() as int));
                (n, s.len() as int)
            }
        }
    }
}

/// A join of words without line breaks has no line break, when the separator
/// has none.
pub proof fn lemma_join_plain(parts: Seq<Seq<char>>, sep: Seq<char>, c: char)
    requires
        forall|i: int, k: int| 0 <= i < parts.len() && 0 <= k < parts[i].len() ==> parts[i][k] != c,
        forall|k: int| 0 <= k < sep.len() ==> sep[k] != c,
    ensures
        forall|k: int| 0 <= k < join(parts, sep).len() ==> join(parts, sep)[k] != c,
    decreases parts.len(),
{
    if parts.len() > 1 {
        let init = parts.drop_last();
        assert forall|i: int, k: int| 0 <= i < init.len() && 0 <= k < init[i].len() implies init[i][k] != c by {
            assert(init[i] == parts[i]);
        }
        lemma_join_plain(init, sep, c);
        let j0 = join(init, sep);
        let l = parts.last();
        let j = join(parts, sep);
        assert(j == j0 + sep + l);
        assert forall|k: int| 0 <= k < j.len() implies j[k] != c by {
            if k < j0.len() {
                assert(j[k] == j0[k]);
            } else if k < j0.len() + sep.len() {
                assert(j[k] == sep[k - j0.len()]);
            } else {
                assert(j[k] == l[k - j0.len() - sep.len()]);
                assert(parts[parts.len() - 1][k - j0.len() - sep.len()] != c);
            }
        }
    } else if parts.len() == 1 {
        assert forall|k: int| 0 <= k < join(parts, sep).len() implies join(parts, sep)[k] != c by {
            assert(parts[0][k] != c);
        }
    }
}


/// The whitespace characters, one by one: tab, line feed, vertical tab, form
/// feed, carriage return, space, next line, no-break space, ogham space mark,
/// the spaces from en quad to hair space, line and paragraph separators,
/// narrow no-break space, medium mathematical space and ideographic space;
/// no other character is whitespace.
pub proof fn lemma_whitespace_chars(c: char)
    ensures
        is_ws('\t') && is_ws('\n') && is_ws('\u{0B}') && is_ws('\u{0C}') && is_ws('\r'),
        is_ws(' ') && is_ws('\u{85}') && is_ws('\u{A0}') && is_ws('\u{1680}'),
        is_ws('\u{2000}') && is_ws('\u{2001}') && is_ws('\u{2002}') && is_ws('\u{2003}'),
        is_ws('\u{2004}') && is_ws('\u{2005}') && is_ws('\u{2006}') && is_ws('\u{2007}'),
        is_ws('\u{2008}') && is_ws('\u{2009}') && is_ws('\u{200A}'),
        is_ws('\u{2028}') && is_ws('\u{2029}') && is_ws('\u{202F}') && is_ws('\u{205F}'),
        is_ws('\u{3000}'),
        !is_ws('\u{0}') && !is_ws('\u{8}') && !is_ws('\u{E}') && !is_ws('\u{1F}') && !is_ws('!'),
        !is_ws('\u{84}') && !is_ws('\u{86}') && !is_ws('\u{9F}') && !is_ws('\u{180E}'),
        !is_ws('\u{200B}') && !is_ws('\u{2060}') && !is_ws('\u{FEFF}') && !is_ws('\u{3001}'),
        is_ws(c) ==> c == '\t' || c == '\n' || c == '\u{0B}' || c == '\u{0C}' || c == '\r' || c
            == ' ' || c == '\u{85}' || c == '\u{A0}' || c == '\u{1680}' || c == '\u{2000}' || c
            == '\u{2001}' || c == '\u{2002}' || c == '\u{2003}' || c == '\u{2004}' || c
            == '\u{2005}' || c == '\u{2006}' || c == '\u{2007}' || c == '\u{2008}' || c
            == '\u{2009}' || c == '\u{200A}' || c == '\u{2028}' || c == '\u{2029}' || c
            == '\u{202F}' || c == '\u{205F}' || c == '\u{3000}',
{
}

/// How `lines` treats one line: a line without a line feed is read as it
/// stands, a `\r` at its end included; a line ended by `\n` or `\r\n` is read
/// without that ending.
pub proof fn lemma_lines_one(x: Seq<char>)
    requires
        forall|k: int| 0 <= k < x.len() ==> x[k] != '\n',
    ensures
        x.len() > 0 ==> lines(x) == seq![x],
        lines(x + seq!['\r']) == seq![x + seq!['\r']],
        x.len() == 0 || x.last() != '\r' ==> lines(x + seq!['\n']) == seq![x],
        lines(x + seq!['\r', '\n']) == seq![x],
        lines(Seq::<char>::empty()) == Seq::<Seq<char>>::empty(),
{
    lemma_split_none(x, '\n');
    let e = Seq::<char>::empty();
    lemma_split_none(e, '\n');
    let xr = x + seq!['\r'];
    assert forall|k: int| 0 <= k < xr.len() implies xr[k] != '\n' by {
        if k < x.len() {
            assert(xr[k] == x[k]);
        }
    }
    lemma_split_none(xr, '\n');
    assert(xr.last() == '\r');
    assert(lines(xr) =~= seq![xr]);
    if x.len() > 0 {
        assert(x.last() == x[x.len() - 1]);
        assert(lines(x) =~= seq![x]);
    }
    lemma_split_concat(x, '\n', e);
    assert(x + seq!['\n'] + e =~= x + seq!['\n']);
    let xn = x + seq!['\n'];
    assert(split(xn, '\n') =~= seq![x, e]);
    if x.len() > 0 {
        assert(x.last() == x[x.len() - 1]);
    }
    if x.len() == 0 || x.last() != '\r' {
        assert(strip_cr(x) == x);
        assert(lines(xn) =~= seq![x]);
    }
    lemma_split_concat(xr, '\n', e);
    assert(xr + seq!['\n'] + e =~= x + seq!['\r', '\n']);
    let xrn = x + seq!['\r', '\n'];
    assert(split(xrn, '\n') =~= seq![xr, e]);
    assert(strip_cr(xr) =~= x);
    assert(lines(xrn) =~= seq![x]);
    assert(lines(e) =~= Seq::<Seq<char>>::empty());
}

} // verus!
