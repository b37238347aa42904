//! Character-level text handling: whitespace, trimming, line splitting,
//! searching and decimal numbers, each stated over `Seq<char>`.
use vstd::prelude::*;

verus! {

/// The Unicode `White_Space` code points (the set `char::is_whitespace` accepts).
pub open spec fn is_ws(c: char) -> bool {
    let u = c as u32;
    ||| 0x09 <= u <= 0x0D
    ||| u == 0x20
    ||| u == 0x85
    ||| u == 0xA0
    ||| u == 0x1680
    ||| 0x2000 <= u <= 0x200A
    ||| u == 0x2028
    ||| u == 0x2029
    ||| u == 0x202F
    ||| u == 0x205F
    ||| u == 0x3000
}

/// Which characters a strip removes.
#[derive(Clone, Copy)]
pub enum Class {
    /// Unicode white space.
    Space,
    /// Exactly this character.
    Only(char),
    /// Either of these two characters.
    Either(char, char),
}

pub open spec fn in_class(k: Class, c: char) -> bool {
    match k {
        Class::Space => is_ws(c),
        Class::Only(x) => c == x,
        Class::Either(x, y) => c == x || c == y,
    }
}

/// `s` without its leading characters of class `k`.
pub open spec fn strip_front(s: Seq<char>, k: Class) -> Seq<char>
    decreases s.len(),
{
    if s.len() > 0 && in_class(k, s[0]) {
        strip_front(s.drop_first(), k)
    } else {
        s
    }
}

/// `s` without its trailing characters of class `k`.
pub open spec fn strip_back(s: Seq<char>, k: Class) -> Seq<char>
    decreases s.len(),
{
    if s.len() > 0 && in_class(k, s.last()) {
        strip_back(s.drop_last(), k)
    } else {
        s
    }
}

/// `s` without leading and trailing characters of class `k`
/// (`str::trim` for `Class::Space`, `str::trim_matches(c)` for `Class::Only(c)`).
pub open spec fn strip(s: Seq<char>, k: Class) -> Seq<char> {
    strip_back(strip_front(s, k), k)
}

/// `str::trim`.
pub open spec fn trim(s: Seq<char>) -> Seq<char> {
    strip(s, Class::Space)
}

pub fn is_space(c: char) -> (r: bool)
    ensures
        r == is_ws(c),
{
    let u = c as u32;
    (0x09 <= u && u <= 0x0D) || u == 0x20 || u == 0x85 || u == 0xA0 || u == 0x1680 || (0x2000
        <= u && u <= 0x200A) || u == 0x2028 || u == 0x2029 || u == 0x202F || u == 0x205F || u
        == 0x3000
}

/// Append the characters of `r` to `out`.
pub fn append_chars(out: &mut Vec<char>, r: &Vec<char>)
    ensures
        final(out)@ == old(out)@ + r@,
{
    let ghost start = out@;
    let mut k: usize = 0;
    while k < r.len()
        invariant
            k <= r@.len(),
            out@ == start + r@.take(k as int),
        decreases r@.len() - k,
    {
        out.push(r[k]);
        k = k + 1;
        assert(out@ =~= start + r@.take(k as int));
    }
    assert(r@.take(k as int) =~= r@);
}

fn class_has(k: Class, c: char) -> (r: bool)
    ensures
        r == in_class(k, c),
{
    match k {
        Class::Space => is_space(c),
        Class::Only(x) => c == x,
        Class::Either(x, y) => c == x || c == y,
    }
}

pub proof fn lemma_strip_front_at(s: Seq<char>, k: Class, i: int)
    requires
        0 <= i <= s.len(),
        forall|j: int| 0 <= j < i ==> in_class(k, #[trigger] s[j]),
        i == s.len() || !in_class(k, s[i]),
    ensures
        strip_front(s, k) == s.skip(i),
    decreases i,
{
    if i == 0 {
        assert(s.skip(0) =~= s);
    } else {
        assert(in_class(k, s[0]));
        let t = s.drop_first();
        assert forall|j: int| 0 <= j < i - 1 implies in_class(k, #[trigger] t[j]) by {
            assert(t[j] == s[j + 1]);
        }
        if i - 1 < t.len() {
            assert(t[i - 1] == s[i]);
        }
        lemma_strip_front_at(t, k, i - 1);
        assert(t.skip(i - 1) =~= s.skip(i));
    }
}

pub proof fn lemma_strip_back_at(s: Seq<char>, k: Class, e: int)
    requires
        0 <= e <= s.len(),
        forall|j: int| e <= j < s.len() ==> in_class(k, #[trigger] s[j]),
        e == 0 || !in_class(k, s[e - 1]),
    ensures
        strip_back(s, k) == s.take(e),
    decreases s.len() - e,
{
    if e == s.len() {
        assert(s.take(e) =~= s);
    } else {
        assert(in_class(k, s.last()));
        let t = s.drop_last();
        assert forall|j: int| e <= j < t.len() implies in_class(k, #[trigger] t[j]) by {
            assert(t[j] == s[j]);
        }
        if e > 0 {
            assert(t[e - 1] == s[e - 1]);
        }
        lemma_strip_back_at(t, k, e);
        assert(t.take(e) =~= s.take(e));
    }
}

/// Where `strip_front` cuts: after the leading run of class `k`.
pub proof fn lemma_strip_front_cut(s: Seq<char>, k: Class) -> (i: int)
    ensures
        0 <= i <= s.len(),
        forall|j: int| 0 <= j < i ==> in_class(k, #[trigger] s[j]),
        i == s.len() || !in_class(k, s[i]),
        strip_front(s, k) == s.skip(i),
    decreases s.len(),
{
    if s.len() > 0 && in_class(k, s[0]) {
        let t = s.drop_first();
        let i0 = lemma_strip_front_cut(t, k);
        assert forall|j: int| 0 <= j < i0 + 1 implies in_class(k, #[trigger] s[j]) by {
            if j > 0 {
                assert(s[j] == t[j - 1]);
            }
        }
        if i0 < t.len() {
            assert(t[i0] == s[i0 + 1]);
        }
        assert(t.skip(i0) =~= s.skip(i0 + 1));
        i0 + 1
    } else {
        assert(s.skip(0) =~= s);
        0
    }
}

/// Where `strip_back` cuts: before the trailing run of class `k`.
pub proof fn lemma_strip_back_cut(s: Seq<char>, k: Class) -> (e: int)
    ensures
        0 <= e <= s.len(),
        forall|j: int| e <= j < s.len() ==> in_class(k, #[trigger] s[j]),
        e == 0 || !in_class(k, s[e - 1]),
        strip_back(s, k) == s.take(e),
    decreases s.len(),
{
    if s.len() > 0 && in_class(k, s.last()) {
        let t = s.drop_last();
        let e0 = lemma_strip_back_cut(t, k);
        assert forall|j: int| e0 <= j < s.len() implies in_class(k, #[trigger] s[j]) by {
            if j < t.len() {
                assert(s[j] == t[j]);
            }
        }
        if e0 > 0 {
            assert(t[e0 - 1] == s[e0 - 1]);
        }
        assert(t.take(e0) =~= s.take(e0));
        e0
    } else {
        assert(s.take(s.len() as int) =~= s);
        s.len() as int
    }
}

/// Every character of `s` is white space.
pub open spec fn blank(s: Seq<char>) -> bool {
    forall|j: int| 0 <= j < s.len() ==> is_ws(#[trigger] s[j])
}

/// Text trims to nothing exactly when it is all white space.
pub proof fn lemma_trim_empty(s: Seq<char>)
    ensures
        trim(s).len() == 0 <==> blank(s),
{
    let k = Class::Space;
    let i = lemma_strip_front_cut(s, k);
    let t = s.skip(i);
    let e = lemma_strip_back_cut(t, k);
    if trim(s).len() == 0 {
        if i < s.len() {
            assert(t[0] == s[i]);
        }
        assert forall|j: int| 0 <= j < s.len() implies is_ws(#[trigger] s[j]) by {
            assert(in_class(k, s[j]));
        }
    } else if blank(s) {
        assert(t[e - 1] == s[i + e - 1]);
    }
}

/// The characters of `s[lo..hi]`.
pub fn slice_of(s: &Vec<char>, lo: usize, hi: usize) -> (r: Vec<char>)
    requires
        lo <= hi <= s@.len(),
    ensures
        r@ == s@.subrange(lo as int, hi as int),
{
    let mut r: Vec<char> = Vec::new();
    let mut i: usize = lo;
    while i < hi
        invariant
            lo <= i <= hi <= s@.len(),
            r@ == s@.subrange(lo as int, i as int),
        decreases hi - i,
    {
        r.push(s[i]);
        i = i + 1;
        assert(r@ =~= s@.subrange(lo as int, i as int));
    }
    r
}

/// Remove leading and trailing characters of class `k`.
pub fn strip_chars(s: &Vec<char>, k: Class) -> (r: Vec<char>)
    ensures
        r@ == strip(s@, k),
{
    let n = s.len();
    let mut lo: usize = 0;
    while lo < n && class_has(k, s[lo])
        invariant
            lo <= n == s@.len(),
            forall|j: int| 0 <= j < lo ==> in_class(k, #[trigger] s@[j]),
        decreases n - lo,
    {
        lo = lo + 1;
    }
    proof {
        lemma_strip_front_at(s@, k, lo as int);
    }
    let ghost f = s@.skip(lo as int);
    let mut hi: usize = n;
    while hi > lo && class_has(k, s[hi - 1])
        invariant
            lo <= hi <= n == s@.len(),
            f == s@.skip(lo as int),
            forall|j: int| hi <= j < n ==> in_class(k, #[trigger] s@[j]),
        decreases hi,
    {
        hi = hi - 1;
    }
    proof {
        let e = hi - lo;
        assert forall|j: int| e <= j < f.len() implies in_class(k, #[trigger] f[j]) by {
            assert(f[j] == s@[j + lo]);
        }
        if e > 0 {
            assert(f[e - 1] == s@[hi - 1]);
        }
        lemma_strip_back_at(f, k, e as int);
        assert(f.take(e as int) =~= s@.subrange(lo as int, hi as int));
    }
    slice_of(s, lo, hi)
}


/// Index of the first character of class `k` in `s`.
pub open spec fn find_class(s: Seq<char>, k: Class) -> Option<int>
    decreases s.len(),
{
    if s.len() == 0 {
        None
    } else if in_class(k, s[0]) {
        Some(0)
    } else {
        match find_class(s.drop_first(), k) {
            Some(i) => Some(i + 1),
            None => None,
        }
    }
}

/// Index of the first `c` in `s` (`str::find` with a `char` pattern).
pub open spec fn find_char(s: Seq<char>, c: char) -> Option<int> {
    find_class(s, Class::Only(c))
}

pub proof fn lemma_find_class(s: Seq<char>, k: Class)
    ensures
        match find_class(s, k) {
            Some(i) => 0 <= i < s.len() && in_class(k, s[i]) && forall|j: int|
                0 <= j < i ==> !in_class(k, #[trigger] s[j]),
            None => forall|j: int| 0 <= j < s.len() ==> !in_class(k, #[trigger] s[j]),
        },
    decreases s.len(),
{
    if s.len() > 0 && !in_class(k, s[0]) {
        let t = s.drop_first();
        lemma_find_class(t, k);
        assert forall|j: int| 1 <= j < s.len() implies s[j] == t[j - 1] by {}
    }
}

pub proof fn lemma_find_class_at(s: Seq<char>, k: Class, i: int)
    requires
        0 <= i <= s.len(),
        forall|j: int| 0 <= j < i ==> !in_class(k, #[trigger] s[j]),
        i == s.len() || in_class(k, s[i]),
    ensures
        find_class(s, k) == (if i < s.len() { Some(i) } else { None::<int> }),
{
    lemma_find_class(s, k);
    match find_class(s, k) {
        Some(x) => {
            if x < i {
                assert(!in_class(k, s[x]));
            }
            if x > i {
                assert(!in_class(k, s[i]));
            }
        },
        None => {
            if i < s.len() {
                assert(!in_class(k, s[i]));
            }
        },
    }
}

pub proof fn lemma_find_char_at(s: Seq<char>, c: char, i: int)
    requires
        0 <= i <= s.len(),
        forall|j: int| 0 <= j < i ==> #[trigger] s[j] != c,
        i == s.len() || s[i] == c,
    ensures
        find_char(s, c) == (if i < s.len() { Some(i) } else { None::<int> }),
{
    assert forall|j: int| 0 <= j < i implies !in_class(Class::Only(c), #[trigger] s[j]) by {}
    lemma_find_class_at(s, Class::Only(c), i);
}

pub proof fn lemma_find_char(s: Seq<char>, c: char)
    ensures
        match find_char(s, c) {
            Some(i) => 0 <= i < s.len() && s[i] == c && forall|j: int|
                0 <= j < i ==> #[trigger] s[j] != c,
            None => forall|j: int| 0 <= j < s.len() ==> #[trigger] s[j] != c,
        },
{
    lemma_find_class(s, Class::Only(c));
    match find_char(s, c) {
        Some(i) => {
            assert forall|j: int| 0 <= j < i implies #[trigger] s[j] != c by {
                assert(!in_class(Class::Only(c), s[j]));
            }
        },
        None => {
            assert forall|j: int| 0 <= j < s.len() implies #[trigger] s[j] != c by {
                assert(!in_class(Class::Only(c), s[j]));
            }
        },
    }
}

/// First position of a character of class `k` in `s`, if any.
pub fn find_in(s: &Vec<char>, k: Class) -> (r: Option<usize>)
    ensures
        match r {
            Some(i) => i < s@.len() && in_class(k, s@[i as int]) && find_class(s@, k) == Some(
                i as int,
            ),
            None => find_class(s@, k) == None::<int>,
        },
{
    let mut i: usize = 0;
    while i < s.len()
        invariant
            i <= s@.len(),
            forall|j: int| 0 <= j < i ==> !in_class(k, #[trigger] s@[j]),
        decreases s@.len() - i,
    {
        if class_has(k, s[i]) {
            proof {
                lemma_find_class_at(s@, k, i as int);
            }
            return Some(i);
        }
        i = i + 1;
    }
    proof {
        lemma_find_class_at(s@, k, i as int);
    }
    None
}

/// `t` without one trailing carriage return.
pub open spec fn strip_cr(t: Seq<char>) -> Seq<char> {
    if t.len() > 0 && t.last() == '\r' {
        t.drop_last()
    } else {
        t
    }
}

/// The lines of `s` as `str::lines` yields them: split at `\n`, a `\r`
/// before the `\n` dropped, no empty line after a final `\n`.
pub open spec fn lines_of(s: Seq<char>) -> Seq<Seq<char>>
    decreases s.len(),
{
    if s.len() == 0 {
        Seq::empty()
    } else {
        match find_char(s, '\n') {
            None => seq![s],
            Some(i) => {
                if 0 <= i < s.len() {
                    seq![strip_cr(s.take(i))] + lines_of(s.skip(i + 1))
                } else {
                    Seq::empty()
                }
            },
        }
    }
}

/// The lines of `s` (`str::lines`).
pub fn split_lines(s: &Vec<char>) -> (r: Vec<Vec<char>>)
    ensures
        r@.map_values(|l: Vec<char>| l@) == lines_of(s@),
{
    let n = s.len();
    let mut out: Vec<Vec<char>> = Vec::new();
    let mut start: usize = 0;
    let mut i: usize = 0;
    assert(s@.skip(0) =~= s@);
    assert(out@.map_values(|l: Vec<char>| l@) + lines_of(s@) =~= lines_of(s@));
    while i < n
        invariant
            n == s@.len(),
            start <= i <= n,
            forall|j: int| start <= j < i ==> #[trigger] s@[j] != '\n',
            lines_of(s@) == out@.map_values(|l: Vec<char>| l@) + lines_of(s@.skip(start as int)),
        decreases n - i,
    {
        if s[i] == '\n' {
            let mut line = slice_of(s, start, i);
            if line.len() > 0 && line[line.len() - 1] == '\r' {
                line.pop();
            }
            proof {
                let rest = s@.skip(start as int);
                let k = (i - start) as int;
                assert forall|j: int| 0 <= j < k implies #[trigger] rest[j] != '\n' by {
                    assert(rest[j] == s@[j + start]);
                }
                assert(rest[k] == s@[i as int]);
                lemma_find_char_at(rest, '\n', k);
                assert(rest.take(k) =~= s@.subrange(start as int, i as int));
                assert(rest.skip(k + 1) =~= s@.skip(i + 1));
                assert(line@ == strip_cr(rest.take(k)));
            }
            let ghost before = out@.map_values(|l: Vec<char>| l@);
            out.push(line);
            proof {
                assert(out@.map_values(|l: Vec<char>| l@) =~= before.push(line@));
                assert(lines_of(s@) =~= out@.map_values(|l: Vec<char>| l@) + lines_of(s@.skip(i + 1)));
            }
            start = i + 1;
        }
        i = i + 1;
    }
    let ghost before = out@.map_values(|l: Vec<char>| l@);
    if start < n {
        let line = slice_of(s, start, n);
        proof {
            let rest = s@.skip(start as int);
            assert forall|j: int| 0 <= j < rest.len() implies #[trigger] rest[j] != '\n' by {
                assert(rest[j] == s@[j + start]);
            }
            lemma_find_char_at(rest, '\n', rest.len() as int);
            assert(line@ =~= rest);
        }
        out.push(line);
        proof {
            assert(out@.map_values(|l: Vec<char>| l@) =~= before.push(line@));
        }
    } else {
        assert(s@.skip(start as int).len() == 0);
        assert(before + Seq::<Seq<char>>::empty() =~= before);
    }
    out
}

pub open spec fn is_digit(c: char) -> bool {
    48 <= (c as u32) <= 57
}

pub open spec fn digit_val(c: char) -> nat {
    ((c as u32) - 48) as nat
}

pub open spec fn all_digits(d: Seq<char>) -> bool {
    forall|i: int| 0 <= i < d.len() ==> is_digit(#[trigger] d[i])
}

/// The number that the decimal digits `d` spell.
pub open spec fn digits_value(d: Seq<char>) -> nat
    decreases d.len(),
{
    if d.len() == 0 {
        0
    } else {
        digits_value(d.drop_last()) * 10 + digit_val(d.last())
    }
}

/// The digits of an unsigned integer literal as `str::parse` reads it:
/// an optional `+`, then at least one ASCII digit.
pub open spec fn unsigned_digits(s: Seq<char>) -> Seq<char> {
    if s.len() > 0 && s[0] == '+' {
        s.drop_first()
    } else {
        s
    }
}

/// The value of `s` read as an unsigned decimal, if it is one.
pub open spec fn unsigned_text(s: Seq<char>) -> Option<nat> {
    let d = unsigned_digits(s);
    if d.len() > 0 && all_digits(d) {
        Some(digits_value(d))
    } else {
        None
    }
}

/// `str::parse::<u32>`.
pub open spec fn parse_u32(s: Seq<char>) -> Option<u32> {
    match unsigned_text(s) {
        Some(v) => if v <= u32::MAX {
            Some(v as u32)
        } else {
            None
        },
        None => None,
    }
}

/// `str::parse::<usize>`.
pub open spec fn parse_usize(s: Seq<char>) -> Option<usize> {
    match unsigned_text(s) {
        Some(v) => if v <= usize::MAX {
            Some(v as usize)
        } else {
            None
        },
        None => None,
    }
}

proof fn lemma_digits_value_grows(d: Seq<char>, k: int)
    requires
        0 <= k <= d.len(),
    ensures
        digits_value(d.take(k)) <= digits_value(d),
    decreases d.len() - k,
{
    if k < d.len() {
        lemma_digits_value_grows(d.drop_last(), k);
        assert(d.drop_last().take(k) =~= d.take(k));
    } else {
        assert(d.take(k) =~= d);
    }
}

/// `unsigned_text(s)` when it is at most `max`, else `None`.
pub fn parse_unsigned(s: &Vec<char>, max: u64) -> (r: Option<u64>)
    ensures
        match unsigned_text(s@) {
            Some(v) => if v <= max {
                r == Some(v as u64)
            } else {
                r is None
            },
            None => r is None,
        },
{
    let n = s.len();
    let start: usize = if n > 0 && s[0] == '+' {
        1
    } else {
        0
    };
    let ghost d = unsigned_digits(s@);
    assert(d =~= s@.skip(start as int));
    if start >= n {
        return None;
    }
    let mut acc: u64 = 0;
    let mut i: usize = start;
    while i < n
        invariant
            start <= i <= n == s@.len(),
            d == s@.skip(start as int),
            d == unsigned_digits(s@),
            d.len() > 0,
            acc <= max,
            all_digits(d.take(i - start)),
            acc as nat == digits_value(d.take(i - start)),
        decreases n - i,
    {
        let c = s[i];
        let u = c as u32;
        let ghost k = (i - start) as int;
        assert(d[k] == c);
        assert(d.take(k + 1).drop_last() =~= d.take(k));
        if u < 48 || u > 57 {
            assert(!is_digit(d[k]));
            assert(!all_digits(d));
            return None;
        }
        let dv = (u - 48) as u64;
        let next: u128 = (acc as u128) * 10 + (dv as u128);
        if next > max as u128 {
            proof {
                assert(digits_value(d.take(k + 1)) == acc * 10 + dv);
                lemma_digits_value_grows(d, k + 1);
            }
            return None;
        }
        acc = next as u64;
        i = i + 1;
        assert forall|j: int| 0 <= j < k + 1 implies is_digit(#[trigger] d.take(k + 1)[j]) by {
            if j < k {
                assert(d.take(k + 1)[j] == d.take(k)[j]);
            }
        }
    }
    assert(d.take(n - start) =~= d);
    Some(acc)
}


/// Whether `a` and `b` hold the same characters.
pub fn same_chars(a: &Vec<char>, b: &Vec<char>) -> (r: bool)
    ensures
        r == (a@ == b@),
{
    if a.len() != b.len() {
        return false;
    }
    let mut i: usize = 0;
    while i < a.len()
        invariant
            i <= a@.len() == b@.len(),
            forall|j: int| 0 <= j < i ==> a@[j] == b@[j],
        decreases a@.len() - i,
    {
        if a[i] != b[i] {
            return false;
        }
        i = i + 1;
    }
    assert(a@ =~= b@);
    true
}

/// Whether `a` holds exactly the characters of `b`.
pub fn same_text(a: &Vec<char>, b: &str) -> (r: bool)
    ensures
        r == (a@ == b@),
{
    let bv = chars_of(b);
    same_chars(a, &bv)
}

/// The code of `c` with `A`..`Z` mapped to `a`..`z`.
pub open spec fn ascii_lower(c: char) -> u32 {
    let u = c as u32;
    if 65 <= u <= 90 {
        (u + 32) as u32
    } else {
        u
    }
}

/// `str::eq_ignore_ascii_case`.
pub open spec fn eq_ignore_ascii_case(a: Seq<char>, b: Seq<char>) -> bool {
    &&& a.len() == b.len()
    &&& forall|i: int| 0 <= i < a.len() ==> ascii_lower(#[trigger] a[i]) == ascii_lower(b[i])
}

fn lower_code(c: char) -> (r: u32)
    ensures
        r == ascii_lower(c),
{
    let u = c as u32;
    if 65 <= u && u <= 90 {
        u + 32
    } else {
        u
    }
}

/// Whether `a` equals `b` up to ASCII case.
pub fn same_ignoring_ascii_case(a: &Vec<char>, b: &str) -> (r: bool)
    ensures
        r == eq_ignore_ascii_case(a@, b@),
{
    let bv = chars_of(b);
    if a.len() != bv.len() {
        return false;
    }
    let mut i: usize = 0;
    while i < a.len()
        invariant
            i <= a@.len() == bv@.len(),
            bv@ == b@,
            forall|j: int| 0 <= j < i ==> ascii_lower(#[trigger] a@[j]) == ascii_lower(bv@[j]),
        decreases a@.len() - i,
    {
        if lower_code(a[i]) != lower_code(bv[i]) {
            return false;
        }
        i = i + 1;
    }
    true
}

/// `str::parse::<bool>`.
pub open spec fn parse_bool(s: Seq<char>) -> Option<bool> {
    if s == "true"@ {
        Some(true)
    } else if s == "false"@ {
        Some(false)
    } else {
        None
    }
}

pub fn parse_bool_chars(s: &Vec<char>) -> (r: Option<bool>)
    ensures
        r == parse_bool(s@),
{
    if same_text(s, "true") {
        Some(true)
    } else if same_text(s, "false") {
        Some(false)
    } else {
        None
    }
}

/// Whether every character of `s` is an ASCII digit.
pub fn digits_only(s: &Vec<char>, lo: usize, hi: usize) -> (r: bool)
    requires
        lo <= hi <= s@.len(),
    ensures
        r == all_digits(s@.subrange(lo as int, hi as int)),
{
    let mut i: usize = lo;
    while i < hi
        invariant
            lo <= i <= hi <= s@.len(),
            forall|j: int| lo <= j < i ==> is_digit(#[trigger] s@[j]),
        decreases hi - i,
    {
        let u = s[i] as u32;
        if u < 48 || u > 57 {
            assert(s@.subrange(lo as int, hi as int)[i - lo] == s@[i as int]);
            return false;
        }
        i = i + 1;
    }
    assert forall|j: int| 0 <= j < hi - lo implies is_digit(
        #[trigger] s@.subrange(lo as int, hi as int)[j],
    ) by {
        assert(s@.subrange(lo as int, hi as int)[j] == s@[j + lo]);
    }
    true
}

pub open spec fn is_sign(c: char) -> bool {
    c == '+' || c == '-'
}

/// `s` without one leading `+` or `-`.
pub open spec fn unsigned_part(s: Seq<char>) -> Seq<char> {
    if s.len() > 0 && is_sign(s[0]) {
        s.drop_first()
    } else {
        s
    }
}

/// `Digit+ | Digit+ '.' Digit* | Digit* '.' Digit+`.
pub open spec fn mantissa_text(m: Seq<char>) -> bool {
    match find_char(m, '.') {
        None => m.len() > 0 && all_digits(m),
        Some(j) => all_digits(m.take(j)) && all_digits(m.skip(j + 1)) && m.len() > 1,
    }
}

/// `Sign? Digit+`.
pub open spec fn exponent_text(x: Seq<char>) -> bool {
    let d = unsigned_part(x);
    d.len() > 0 && all_digits(d)
}

/// `Number ::= mantissa ('e' exponent)?`, the `e` in either case.
pub open spec fn number_text(b: Seq<char>) -> bool {
    match find_class(b, Class::Either('e', 'E')) {
        None => mantissa_text(b),
        Some(i) => mantissa_text(b.take(i)) && exponent_text(b.skip(i + 1)),
    }
}

/// The strings that `str::parse::<f32>` accepts: an optional sign, then
/// `inf`, `infinity`, `nan` (in any ASCII case) or a decimal number.
pub open spec fn float_text(s: Seq<char>) -> bool {
    let b = unsigned_part(s);
    ||| eq_ignore_ascii_case(b, "inf"@)
    ||| eq_ignore_ascii_case(b, "infinity"@)
    ||| eq_ignore_ascii_case(b, "nan"@)
    ||| number_text(b)
}

fn mantissa_ok(m: &Vec<char>) -> (r: bool)
    ensures
        r == mantissa_text(m@),
{
    let n = m.len();
    assert(m@.subrange(0, n as int) =~= m@);
    let found = find_in(m, Class::Only('.'));
    match found {
        None => n > 0 && digits_only(m, 0, n),
        Some(j) => {
            assert(m@.subrange(0, j as int) =~= m@.take(j as int));
            assert(m@.subrange(j + 1, n as int) =~= m@.skip(j + 1));
            let a = digits_only(m, 0, j);
            let b = digits_only(m, j + 1, n);
            a && b && n > 1
        },
    }
}

fn exponent_ok(x: &Vec<char>) -> (r: bool)
    ensures
        r == exponent_text(x@),
{
    let lo: usize = if x.len() > 0 && (x[0] == '+' || x[0] == '-') {
        1
    } else {
        0
    };
    assert(x@.subrange(lo as int, x@.len() as int) =~= unsigned_part(x@));
    lo < x.len() && digits_only(x, lo, x.len())
}

/// Whether `s` is text that `str::parse::<f32>` accepts.
pub fn is_float_text(s: &Vec<char>) -> (r: bool)
    ensures
        r == float_text(s@),
{
    let lo: usize = if s.len() > 0 && (s[0] == '+' || s[0] == '-') {
        1
    } else {
        0
    };
    let b = slice_of(s, lo, s.len());
    assert(b@ =~= unsigned_part(s@));
    if same_ignoring_ascii_case(&b, "inf") || same_ignoring_ascii_case(&b, "infinity")
        || same_ignoring_ascii_case(&b, "nan") {
        return true;
    }
    match find_in(&b, Class::Either('e', 'E')) {
        None => mantissa_ok(&b),
        Some(i) => {
            let m = slice_of(&b, 0, i);
            let x = slice_of(&b, i + 1, b.len());
            assert(m@ =~= b@.take(i as int));
            assert(x@ =~= b@.skip(i + 1));
            mantissa_ok(&m) && exponent_ok(&x)
        },
    }
}

pub open spec fn digit_char(d: nat) -> char {
    if d == 0 {
        '0'
    } else if d == 1 {
        '1'
    } else if d == 2 {
        '2'
    } else if d == 3 {
        '3'
    } else if d == 4 {
        '4'
    } else if d == 5 {
        '5'
    } else if d == 6 {
        '6'
    } else if d == 7 {
        '7'
    } else if d == 8 {
        '8'
    } else {
        '9'
    }
}

/// The decimal numeral of `n`, without leading zeros (`n.to_string()`).
pub open spec fn decimal(n: nat) -> Seq<char>
    decreases n,
{
    if n < 10 {
        seq![digit_char(n)]
    } else {
        decimal(n / 10).push(digit_char(n % 10))
    }
}

fn digit_of(d: u64) -> (c: char)
    requires
        d < 10,
    ensures
        c == digit_char(d as nat),
{
    if d == 0 {
        '0'
    } else if d == 1 {
        '1'
    } else if d == 2 {
        '2'
    } else if d == 3 {
        '3'
    } else if d == 4 {
        '4'
    } else if d == 5 {
        '5'
    } else if d == 6 {
        '6'
    } else if d == 7 {
        '7'
    } else if d == 8 {
        '8'
    } else {
        '9'
    }
}

/// The decimal numeral of `n`.
pub fn decimal_chars(n: u64) -> (r: Vec<char>)
    ensures
        r@ == decimal(n as nat),
    decreases n,
{
    if n < 10 {
        let mut v: Vec<char> = Vec::new();
        v.push(digit_of(n));
        assert(v@ =~= seq![digit_char(n as nat)]);
        v
    } else {
        let mut v = decimal_chars(n / 10);
        v.push(digit_of(n % 10));
        v
    }
}

pub proof fn lemma_decimal_digits(n: nat)
    ensures
        decimal(n).len() > 0,
        all_digits(decimal(n)),
        decimal(n)[0] != '+',
        digits_value(decimal(n)) == n,
    decreases n,
{
    if n < 10 {
        assert(digit_val(digit_char(n)) == n);
        assert(decimal(n).drop_last() =~= Seq::<char>::empty());
        assert(digits_value(Seq::<char>::empty()) == 0);
    } else {
        lemma_decimal_digits(n / 10);
        let d = decimal(n);
        assert(digit_val(digit_char(n % 10)) == n % 10);
        assert(d.last() == digit_char(n % 10));
        assert(d.len() > 0);
        assert(digits_value(d) == digits_value(d.drop_last()) * 10 + digit_val(d.last()));
        let p = decimal((n / 10) as nat);
        assert(d.drop_last() == p);
        assert(digits_value(d.drop_last()) == digits_value(p));
        assert(digits_value(p) == n / 10);
        assert((n / 10) * 10 + n % 10 == n);
        assert(d.drop_last() =~= decimal(n / 10));
        assert forall|i: int| 0 <= i < d.len() implies is_digit(#[trigger] d[i]) by {
            if i < d.len() - 1 {
                assert(d[i] == decimal(n / 10)[i]);
            }
        }
    }
}

/// `unsigned_text` reads back what `decimal` writes.
pub proof fn lemma_decimal_reads_back(n: nat)
    ensures
        unsigned_text(decimal(n)) == Some(n),
{
    lemma_decimal_digits(n);
}


/// A strip leaves text alone whose ends are outside the class.
pub proof fn lemma_strip_noop(s: Seq<char>, k: Class)
    requires
        s.len() == 0 || (!in_class(k, s[0]) && !in_class(k, s.last())),
    ensures
        strip(s, k) == s,
        strip_front(s, k) == s,
{
    lemma_strip_front_at(s, k, 0);
    assert(s.skip(0) =~= s);
    lemma_strip_back_at(s, k, s.len() as int);
    assert(s.take(s.len() as int) =~= s);
}

proof fn lemma_strip_front_push(n: Seq<char>, k: Class, x: char)
    requires
        in_class(k, x),
    ensures
        strip_front(n.push(x), k) == (if strip_front(n, k).len() == 0 {
            Seq::<char>::empty()
        } else {
            strip_front(n, k).push(x)
        }),
    decreases n.len(),
{
    if n.len() == 0 {
        assert(n.push(x).drop_first() =~= Seq::<char>::empty());
        assert(strip_front(Seq::<char>::empty(), k) == Seq::<char>::empty());
        assert(n.push(x)[0] == x);
    } else if in_class(k, n[0]) {
        lemma_strip_front_push(n.drop_first(), k, x);
        assert(n.push(x).drop_first() =~= n.drop_first().push(x));
    } else {
        assert(n.push(x)[0] == n[0]);
        assert(strip_front(n, k) == n);
        assert(strip_front(n.push(x), k) == n.push(x));
    }
}

/// Stripping text wrapped in one character of the class strips the text.
pub proof fn lemma_strip_wrapped(n: Seq<char>, k: Class, x: char)
    requires
        in_class(k, x),
    ensures
        strip(seq![x] + n + seq![x], k) == strip(n, k),
{
    let w = seq![x] + n + seq![x];
    assert(w.drop_first() =~= n.push(x));
    lemma_strip_front_push(n, k, x);
    let f = strip_front(n, k);
    if f.len() > 0 {
        assert(f.push(x).drop_last() =~= f);
    }
}

/// Strips of text whose first character is outside the class ignore a
/// leading class character.
pub proof fn lemma_strip_front_lead(n: Seq<char>, k: Class, x: char)
    requires
        in_class(k, x),
    ensures
        strip_front(seq![x] + n, k) == strip_front(n, k),
{
    assert((seq![x] + n).drop_first() =~= n);
}

/// The characters that can appear in text `str::parse::<f32>` accepts.
pub open spec fn float_char(c: char) -> bool {
    let u = c as u32;
    ||| is_digit(c)
    ||| u == 46 || u == 43 || u == 45
    ||| lower_letter_code(u) || lower_letter_code((u + 32) as u32)
}

/// The lower-case letters of `e`, `inf`, `infinity` and `nan`.
pub open spec fn lower_letter_code(u: u32) -> bool {
    u == 97 || u == 101 || u == 102 || u == 105 || u == 110 || u == 116 || u == 121
}

proof fn lemma_mantissa_chars(m: Seq<char>)
    requires
        mantissa_text(m),
    ensures
        m.len() > 0,
        forall|i: int| 0 <= i < m.len() ==> is_digit(#[trigger] m[i]) || m[i] == '.',
{
    lemma_find_char(m, '.');
    match find_char(m, '.') {
        None => {},
        Some(j) => {
            assert forall|i: int| 0 <= i < m.len() implies is_digit(#[trigger] m[i]) || m[i]
                == '.' by {
                if i < j {
                    assert(m.take(j)[i] == m[i]);
                } else if i > j {
                    assert(m.skip(j + 1)[i - j - 1] == m[i]);
                }
            }
        },
    }
}

proof fn lemma_ci_chars(b: Seq<char>, lit: Seq<char>)
    requires
        eq_ignore_ascii_case(b, lit),
        forall|i: int| 0 <= i < lit.len() ==> lower_letter_code(#[trigger] lit[i] as u32),
    ensures
        forall|i: int| 0 <= i < b.len() ==> float_char(#[trigger] b[i]),
{
    assert forall|i: int| 0 <= i < b.len() implies float_char(#[trigger] b[i]) by {
        assert(lower_letter_code(lit[i] as u32));
        assert(ascii_lower(b[i]) == ascii_lower(lit[i]));
    }
}

/// Text that `str::parse::<f32>` accepts is not empty and holds only
/// digits, signs, `.`, and the letters of `e`, `inf`, `infinity`, `nan`.
pub proof fn lemma_float_text_chars(t: Seq<char>)
    requires
        float_text(t),
    ensures
        t.len() > 0,
        forall|i: int| 0 <= i < t.len() ==> float_char(#[trigger] t[i]),
{
    let b = unsigned_part(t);
    reveal_strlit("inf");
    reveal_strlit("infinity");
    reveal_strlit("nan");
    if eq_ignore_ascii_case(b, "inf"@) {
        lemma_ci_chars(b, "inf"@);
    } else if eq_ignore_ascii_case(b, "infinity"@) {
        lemma_ci_chars(b, "infinity"@);
    } else if eq_ignore_ascii_case(b, "nan"@) {
        lemma_ci_chars(b, "nan"@);
    } else {
        let e = Class::Either('e', 'E');
        lemma_find_class(b, e);
        match find_class(b, e) {
            None => {
                lemma_mantissa_chars(b);
            },
            Some(i) => {
                lemma_mantissa_chars(b.take(i));
                let x = b.skip(i + 1);
                let d = unsigned_part(x);
                assert forall|j: int| 0 <= j < b.len() implies float_char(#[trigger] b[j]) by {
                    if j < i {
                        assert(b.take(i)[j] == b[j]);
                    } else if j > i {
                        assert(x[j - i - 1] == b[j]);
                        if x.len() > 0 && is_sign(x[0]) {
                            if j - i - 1 > 0 {
                                assert(d[j - i - 2] == x[j - i - 1]);
                            }
                        } else {
                            assert(d[j - i - 1] == x[j - i - 1]);
                        }
                    }
                }
            },
        }
    }
    if t.len() > 0 && is_sign(t[0]) {
        assert forall|i: int| 0 <= i < t.len() implies float_char(#[trigger] t[i]) by {
            if i > 0 {
                assert(b[i - 1] == t[i]);
            }
        }
    }
}

/// The characters of a string slice, in order.
pub fn chars_of(s: &str) -> (r: Vec<char>)
    ensures
        r@ == s@,
{
    let mut r: Vec<char> = Vec::new();
    for c in it: s.chars()
        invariant
            r@ == it.seq().take(it.index() as int),
    {
        r.push(c);
    }
    r
}

/// The string made of the characters of `v`: std's `String: FromIterator<&char>`
/// (`collect`), which appends each character in order.
#[verifier::external_body]
pub fn string_of(v: &Vec<char>) -> (r: String)
    ensures
        r@ == v@,
{
    v.iter().collect()
}

/// The lines of all-blank text are all blank.
pub proof fn lemma_lines_of_blank(s: Seq<char>)
    requires
        blank(s),
    ensures
        forall|i: int| 0 <= i < lines_of(s).len() ==> blank(#[trigger] lines_of(s)[i]),
    decreases s.len(),
{
    if s.len() > 0 {
        lemma_find_char(s, '\n');
        match find_char(s, '\n') {
            None => {},
            Some(i) => {
                let rest = s.skip(i + 1);
                assert forall|j: int| 0 <= j < rest.len() implies is_ws(#[trigger] rest[j]) by {
                    assert(rest[j] == s[j + i + 1]);
                }
                lemma_lines_of_blank(rest);
                let ls = lines_of(s);
                let head = strip_cr(s.take(i));
                assert(ls == seq![head] + lines_of(rest));
                assert forall|j: int| 0 <= j < ls.len() implies blank(#[trigger] ls[j]) by {
                    if j == 0 {
                        assert forall|m: int| 0 <= m < head.len() implies is_ws(
                            #[trigger] head[m],
                        ) by {
                            assert(head[m] == s[m]);
                        }
                    } else {
                        assert(ls[j] == lines_of(rest)[j - 1]);
                    }
                }
            },
        }
    }
}

/// Text whose lines are all blank is blank.
pub proof fn lemma_blank_lines_back(s: Seq<char>)
    requires
        forall|i: int| 0 <= i < lines_of(s).len() ==> blank(#[trigger] lines_of(s)[i]),
    ensures
        blank(s),
    decreases s.len(),
{
    if s.len() > 0 {
        lemma_find_char(s, '\n');
        let ls = lines_of(s);
        match find_char(s, '\n') {
            None => {
                assert(ls[0] == s);
            },
            Some(i) => {
                let rest = s.skip(i + 1);
                let head = strip_cr(s.take(i));
                assert(ls == seq![head] + lines_of(rest));
                assert(blank(ls[0]));
                assert forall|m: int| 0 <= m < lines_of(rest).len() implies blank(
                    #[trigger] lines_of(rest)[m],
                ) by {
                    assert(lines_of(rest)[m] == ls[m + 1]);
                }
                lemma_blank_lines_back(rest);
                assert forall|j: int| 0 <= j < s.len() implies is_ws(#[trigger] s[j]) by {
                    if j < head.len() {
                        assert(head[j] == s[j]);
                    } else if j > i {
                        assert(s[j] == rest[j - i - 1]);
                    }
                }
            },
        }
    }
}

} // verus!
