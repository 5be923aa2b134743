use vstd::prelude::*;

verus! {

/// ASCII whitespace, the ASCII part of what `char::is_whitespace` accepts: tab, line feed,
/// vertical tab, form feed, carriage return and space.
pub open spec fn is_space(b: u8) -> bool {
    b == 32 || (9 <= b && b <= 13)
}

pub open spec fn is_digit(b: u8) -> bool {
    48 <= b && b <= 57
}

/// `s` with its leading whitespace removed.
pub open spec fn trim_start(s: Seq<u8>) -> Seq<u8>
    decreases s.len(),
{
    if s.len() > 0 && is_space(s[0]) {
        trim_start(s.drop_first())
    } else {
        s
    }
}

/// `s` with its trailing whitespace removed.
pub open spec fn trim_end(s: Seq<u8>) -> Seq<u8>
    decreases s.len(),
{
    if s.len() > 0 && is_space(s.last()) {
        trim_end(s.drop_last())
    } else {
        s
    }
}

pub open spec fn trim(s: Seq<u8>) -> Seq<u8> {
    trim_end(trim_start(s))
}

/// Value of a string of decimal digits, most significant first.
pub open spec fn digits_value(s: Seq<u8>) -> nat
    decreases s.len(),
{
    if s.len() == 0 {
        0
    } else {
        digits_value(s.drop_last()) * 10 + (s.last() - 48) as nat
    }
}

pub open spec fn all_digits(s: Seq<u8>) -> bool {
    forall|i: int| 0 <= i < s.len() ==> is_digit(#[trigger] s[i])
}

/// The unsigned decimal that `s` spells: an optional `+` followed by one or
/// more digits, nothing else.
pub open spec fn decimal_value(s: Seq<u8>) -> Option<nat> {
    let t = if s.len() > 0 && s[0] == 43 { s.drop_first() } else { s };
    if t.len() > 0 && all_digits(t) {
        Some(digits_value(t))
    } else {
        None
    }
}

/// What `u64::from_str` gives for `s`: the decimal it spells, when that fits.
pub open spec fn parse_u64_spec(s: Seq<u8>) -> Option<u64> {
    match decimal_value(s) {
        Some(v) => if v <= u64::MAX { Some(v as u64) } else { None },
        None => None,
    }
}

/// What `u32::from_str` gives for `s`.
pub open spec fn parse_u32_spec(s: Seq<u8>) -> Option<u32> {
    match decimal_value(s) {
        Some(v) => if v <= u32::MAX { Some(v as u32) } else { None },
        None => None,
    }
}

/// A digit string is worth at least as much as any of its prefixes.
pub proof fn lemma_digits_prefix(s: Seq<u8>, k: int)
    requires
        all_digits(s),
        0 <= k <= s.len(),
    ensures
        digits_value(s.subrange(0, k)) <= digits_value(s),
    decreases s.len(),
{
    if k < s.len() {
        let t = s.drop_last();
        assert(t.subrange(0, k) =~= s.subrange(0, k));
        lemma_digits_prefix(t, k);
    } else {
        assert(s.subrange(0, k) =~= s);
    }
}

/// Reads the digit string `s[lo..hi]`; `None` when a byte is no digit or
/// the value does not fit in a `u64`.  An empty range reads as zero.
pub fn digits_range(s: &[u8], lo: usize, hi: usize) -> (r: Option<u64>)
    requires
        lo <= hi <= s@.len(),
    ensures
        r == (if all_digits(s@.subrange(lo as int, hi as int)) && digits_value(
            s@.subrange(lo as int, hi as int),
        ) <= u64::MAX {
            Some(digits_value(s@.subrange(lo as int, hi as int)) as u64)
        } else {
            None
        }),
{
    let ghost t = s@.subrange(lo as int, hi as int);
    let mut acc: u64 = 0;
    let mut i = lo;
    while i < hi
        invariant
            lo <= i <= hi <= s@.len(),
            t == s@.subrange(lo as int, hi as int),
            all_digits(s@.subrange(lo as int, i as int)),
            acc as nat == digits_value(s@.subrange(lo as int, i as int)),
        decreases hi - i,
    {
        let b = s[i];
        if b < 48 || b > 57 {
            assert(!is_digit(t[(i - lo) as int]));
            return None;
        }
        let d = (b - 48) as u64;
        let ghost prefix = s@.subrange(lo as int, i as int + 1);
        assert(prefix.drop_last() =~= s@.subrange(lo as int, i as int));
        if acc > (u64::MAX - d) / 10 {
            assert(digits_value(prefix) > u64::MAX) by (nonlinear_arith)
                requires
                    digits_value(prefix) == acc * 10 + d,
                    acc > (u64::MAX - d) / 10,
                    d <= 9,
            ;
            proof {
                if all_digits(t) {
                    assert(t.subrange(0, (i - lo) as int + 1) =~= prefix);
                    lemma_digits_prefix(t, (i - lo) as int + 1);
                }
            }
            return None;
        }
        acc = acc * 10 + d;
        i = i + 1;
    }
    assert(t =~= s@.subrange(lo as int, i as int));
    Some(acc)
}

/// Reads the decimal spelled by `s[lo..hi]`, as `u64::from_str` does.
pub fn parse_u64_range(s: &[u8], lo: usize, hi: usize) -> (r: Option<u64>)
    requires
        lo <= hi <= s@.len(),
    ensures
        r == parse_u64_spec(s@.subrange(lo as int, hi as int)),
{
    let ghost whole = s@.subrange(lo as int, hi as int);
    let mut start = lo;
    if lo < hi && s[lo] == 43 {
        start = lo + 1;
    }
    assert(s@.subrange(start as int, hi as int) =~= (if whole.len() > 0 && whole[0] == 43 {
        whole.drop_first()
    } else {
        whole
    }));
    if start == hi {
        return None;
    }
    digits_range(s, start, hi)
}

/// Reads a decimal number after trimming whitespace around it, as
/// `s.trim().parse::<u64>()` does.
pub fn read_u64(s: &[u8]) -> (r: Option<u64>)
    ensures
        r == parse_u64_spec(trim(s@)),
{
    let (a, b) = trim_range(s, 0, s.len());
    assert(s@.subrange(0, s@.len() as int) =~= s@);
    parse_u64_range(s, a, b)
}

/// Narrows `s[lo..hi]` to the part between leading and trailing whitespace.
pub fn trim_range(s: &[u8], lo: usize, hi: usize) -> (r: (usize, usize))
    requires
        lo <= hi <= s@.len(),
    ensures
        lo <= r.0 <= r.1 <= hi,
        s@.subrange(r.0 as int, r.1 as int) == trim(s@.subrange(lo as int, hi as int)),
{
    let mut a = lo;
    while a < hi && (s[a] == 32 || (9 <= s[a] && s[a] <= 13))
        invariant
            lo <= a <= hi <= s@.len(),
            trim_start(s@.subrange(lo as int, hi as int)) == trim_start(s@.subrange(a as int, hi as int)),
        decreases hi - a,
    {
        assert(s@.subrange(a as int, hi as int).drop_first() =~= s@.subrange(a as int + 1, hi as int));
        a = a + 1;
    }
    let mut b = hi;
    while b > a && (s[b - 1] == 32 || (9 <= s[b - 1] && s[b - 1] <= 13))
        invariant
            lo <= a <= b <= hi <= s@.len(),
            trim(s@.subrange(lo as int, hi as int)) == trim_end(s@.subrange(a as int, b as int)),
        decreases b - a,
    {
        assert(s@.subrange(a as int, b as int).drop_last() =~= s@.subrange(a as int, b as int - 1));
        b = b - 1;
    }
    (a, b)
}

/// Index of the first `c` at or after `i` in `s`, or the length of `s`.
pub open spec fn next_byte(s: Seq<u8>, c: u8, i: int) -> int
    decreases s.len() - i,
{
    if i < 0 || i >= s.len() {
        s.len() as int
    } else if s[i] == c {
        i
    } else {
        next_byte(s, c, i + 1)
    }
}

pub proof fn lemma_next_byte(s: Seq<u8>, c: u8, i: int)
    requires
        0 <= i <= s.len(),
    ensures
        i <= next_byte(s, c, i) <= s.len(),
        next_byte(s, c, i) < s.len() ==> s[next_byte(s, c, i)] == c,
        forall|j: int| i <= j < next_byte(s, c, i) ==> s[j] != c,
    decreases s.len() - i,
{
    if i < s.len() && s[i] != c {
        lemma_next_byte(s, c, i + 1);
    }
}

/// Index of the first `c` at or after `i` in `s`, or the length of `s`.
pub fn find_byte(s: &[u8], c: u8, i: usize) -> (r: usize)
    requires
        i <= s@.len(),
    ensures
        r == next_byte(s@, c, i as int),
        i <= r <= s@.len(),
{
    proof {
        lemma_next_byte(s@, c, i as int);
    }
    let mut e = i;
    while e < s.len() && s[e] != c
        invariant
            i <= e <= s@.len(),
            next_byte(s@, c, i as int) == next_byte(s@, c, e as int),
        decreases s@.len() - e,
    {
        e = e + 1;
    }
    e
}

/// The text before the first `c`, as `split(c).next()` yields it.
pub open spec fn before_byte(s: Seq<u8>, c: u8) -> Seq<u8> {
    s.subrange(0, next_byte(s, c, 0))
}

/// The second piece of `split(c)`: the text between the first and the
/// second `c`, when `c` occurs at all.
pub open spec fn second_piece(s: Seq<u8>, c: u8) -> Option<Seq<u8>> {
    let e = next_byte(s, c, 0);
    if e < s.len() {
        Some(s.subrange(e + 1, next_byte(s, c, e + 1)))
    } else {
        None
    }
}

/// Index of the first line feed at or after `i`, or the length of `s`.
pub open spec fn line_end(s: Seq<u8>, i: int) -> int {
    next_byte(s, 10, i)
}

/// The line that starts at `i`, as `str::lines` yields it: without its line
/// feed, and without a carriage return that stands right before that feed.
pub open spec fn line_at(s: Seq<u8>, i: int) -> Seq<u8> {
    let e = line_end(s, i);
    if e < s.len() && e > i && s[e - 1] == 13 {
        s.subrange(i, e - 1)
    } else {
        s.subrange(i, e)
    }
}

/// Folds `f` over the lines of `s` from offset `i` on, first line first.
pub open spec fn fold_lines<A>(s: Seq<u8>, i: int, acc: A, f: spec_fn(A, Seq<u8>) -> A) -> A
    decreases s.len() + 1 - i,
{
    if i < 0 || i >= s.len() {
        acc
    } else {
        proof {
            lemma_next_byte(s, 10, i);
        }
        fold_lines(s, line_end(s, i) + 1, f(acc, line_at(s, i)), f)
    }
}

/// Finds the line that starts at `i < s.len()`: returns where its text ends
/// and where the next line starts.
pub fn next_line(s: &[u8], i: usize) -> (r: (usize, usize))
    requires
        i < s@.len(),
    ensures
        i <= r.0 < r.1 <= s@.len() || (i <= r.0 <= r.1 == s@.len()),
        s@.subrange(i as int, r.0 as int) == line_at(s@, i as int),
        r.1 == (if line_end(s@, i as int) < s@.len() { line_end(s@, i as int) + 1 } else { s@.len() as int }),
{
    let e = find_byte(s, 10, i);
    if e < s.len() && e > i && s[e - 1] == 13 {
        (e - 1, e + 1)
    } else {
        (e, if e < s.len() { e + 1 } else { e })
    }
}

/// The whitespace-separated fields of `s` after `cur`, the field being read.
pub open spec fn fields_from(s: Seq<u8>, cur: Seq<u8>) -> Seq<Seq<u8>>
    decreases s.len(),
{
    if s.len() == 0 {
        if cur.len() > 0 { seq![cur] } else { seq![] }
    } else if is_space(s[0]) {
        (if cur.len() > 0 { seq![cur] } else { Seq::<Seq<u8>>::empty() }) + fields_from(
            s.drop_first(),
            Seq::<u8>::empty(),
        )
    } else {
        fields_from(s.drop_first(), cur.push(s[0]))
    }
}

/// The fields of `s` separated by ASCII whitespace; on ASCII text this is
/// what `str::split_whitespace` yields.  Other Unicode spaces (such as
/// U+00A0) are not separators here, and `trim` leaves them too.
pub open spec fn fields(s: Seq<u8>) -> Seq<Seq<u8>> {
    fields_from(s, Seq::<u8>::empty())
}

/// Finds field `n` (from 0) of `s`, as `split_whitespace().nth(n)` does.
pub fn nth_field(s: &[u8], n: usize) -> (r: Option<(usize, usize)>)
    ensures
        n < fields(s@).len() <==> r.is_some(),
        r matches Some(p) ==> p.0 <= p.1 <= s@.len() && s@.subrange(p.0 as int, p.1 as int)
            == fields(s@)[n as int],
{
    let ghost mut done: Seq<Seq<u8>> = Seq::empty();
    assert(s@.subrange(0, s@.len() as int) =~= s@);
    assert(done + fields_from(s@, Seq::<u8>::empty()) =~= fields_from(s@, Seq::<u8>::empty()));
    assert(s@.subrange(0, 0) =~= Seq::<u8>::empty());
    let mut count: usize = 0;
    let mut start: usize = 0;
    let mut i: usize = 0;
    while i < s.len()
        invariant
            start <= i <= s@.len(),
            count == done.len(),
            count <= n,
            fields(s@) == done + fields_from(
                s@.subrange(i as int, s@.len() as int),
                s@.subrange(start as int, i as int),
            ),
        decreases s@.len() - i,
    {
        let ghost rest = s@.subrange(i as int, s@.len() as int);
        let ghost cur = s@.subrange(start as int, i as int);
        assert(rest.drop_first() =~= s@.subrange(i as int + 1, s@.len() as int));
        assert(rest[0] == s@[i as int]);
        if s[i] == 32 || (9 <= s[i] && s[i] <= 13) {
            if start < i {
                if count == n {
                    assert(fields(s@) == done + (seq![cur] + fields_from(rest.drop_first(), Seq::<u8>::empty())));
                    assert((done + (seq![cur] + fields_from(rest.drop_first(), Seq::<u8>::empty())))[n as int] == cur);
                    return Some((start, i));
                }
                proof {
                    assert(done + (seq![cur] + fields_from(rest.drop_first(), Seq::<u8>::empty()))
                        =~= done.push(cur) + fields_from(rest.drop_first(), Seq::<u8>::empty()));
                    done = done.push(cur);
                }
                count = count + 1;
            } else {
                assert(cur.len() == 0);
                assert(done + (Seq::<Seq<u8>>::empty() + fields_from(rest.drop_first(), Seq::<u8>::empty()))
                    =~= done + fields_from(rest.drop_first(), Seq::<u8>::empty()));
            }
            i = i + 1;
            start = i;
            assert(s@.subrange(start as int, i as int) =~= Seq::<u8>::empty());
        } else {
            assert(cur.push(s@[i as int]) =~= s@.subrange(start as int, i as int + 1));
            i = i + 1;
        }
    }
    let ghost cur = s@.subrange(start as int, i as int);
    assert(s@.subrange(i as int, s@.len() as int) =~= Seq::<u8>::empty());
    if start < i && count == n {
        assert(fields(s@) =~= done.push(cur));
        Some((start, i))
    } else {
        if start < i {
            assert(fields(s@) =~= done.push(cur));
        } else {
            assert(fields(s@) =~= done);
        }
        None
    }
}

/// `p` occurs somewhere in `s`.
pub open spec fn contains(s: Seq<u8>, p: Seq<u8>) -> bool {
    exists|k: int| 0 <= k && k + p.len() <= s.len() && #[trigger] s.subrange(k, k + p.len()) == p
}

/// `s` begins with `p`.
pub open spec fn starts_with(s: Seq<u8>, p: Seq<u8>) -> bool {
    p.len() <= s.len() && s.subrange(0, p.len() as int) == p
}

/// Whether `p` occurs in `s` at offset `k`.
pub fn matches_at(s: &[u8], p: &[u8], k: usize) -> (r: bool)
    requires
        k <= s@.len(),
    ensures
        r == (k + p@.len() <= s@.len() && s@.subrange(k as int, k + p@.len()) == p@),
{
    if p.len() > s.len() - k {
        return false;
    }
    let n = s.len();
    let mut j: usize = 0;
    while j < p.len()
        invariant
            n == s@.len(),
            k + p@.len() <= s@.len(),
            j <= p@.len(),
            forall|m: int| 0 <= m < j ==> s@[k + m] == p@[m],
        decreases p@.len() - j,
    {
        assert(k + j < s@.len());
        if s[k + j] != p[j] {
            assert(s@.subrange(k as int, k + p@.len())[j as int] != p@[j as int]);
            return false;
        }
        j = j + 1;
    }
    assert(s@.subrange(k as int, k + p@.len()) =~= p@);
    true
}

/// Whether `p` occurs anywhere in `s`, as `str::contains` with a string pattern.
pub fn contains_bytes(s: &[u8], p: &[u8]) -> (r: bool)
    ensures
        r == contains(s@, p@),
{
    let mut k: usize = 0;
    while k < s.len()
        invariant
            k <= s@.len(),
            forall|m: int| 0 <= m < k ==> !(m + p@.len() <= s@.len() && #[trigger] s@.subrange(m, m + p@.len()) == p@),
        decreases s@.len() - k,
    {
        if matches_at(s, p, k) {
            return true;
        }
        k = k + 1;
    }
    if matches_at(s, p, k) {
        return true;
    }
    assert forall|m: int| 0 <= m && m + p@.len() <= s@.len() implies #[trigger] s@.subrange(m, m + p@.len()) != p@ by {
        if m < k {
        } else {
            assert(m == k);
        }
    }
    false
}

/// Whether `s` begins with `p`.
pub fn starts_with_bytes(s: &[u8], p: &[u8]) -> (r: bool)
    ensures
        r == starts_with(s@, p@),
{
    matches_at(s, p, 0)
}

pub open spec fn pow10(n: nat) -> nat
    decreases n,
{
    if n == 0 {
        1
    } else {
        10 * pow10((n - 1) as nat)
    }
}

/// Millionths denoted by the digits `f` after a decimal point; digits past
/// the sixth are dropped.
pub open spec fn fraction_micros(f: Seq<u8>) -> nat {
    if f.len() >= 6 {
        digits_value(f.take(6))
    } else {
        digits_value(f) * pow10((6 - f.len()) as nat)
    }
}

/// The unsigned number that `t` spells, in millionths: digits, and
/// optionally a point followed by digits, with at least one digit in all.
/// The fraction is cut after six places.
pub open spec fn unsigned_micros(t: Seq<u8>) -> Option<nat> {
    let p = next_byte(t, 46, 0);
    let ip = t.subrange(0, p);
    let fp = if p < t.len() { t.subrange(p + 1, t.len() as int) } else { Seq::<u8>::empty() };
    if all_digits(ip) && all_digits(fp) && ip.len() + fp.len() > 0 {
        Some(digits_value(ip) * 1_000_000 + fraction_micros(fp))
    } else {
        None
    }
}

/// The number that `s` spells, in millionths: an optional `+` before an
/// unsigned number.
pub open spec fn decimal_micros(s: Seq<u8>) -> Option<nat> {
    unsigned_micros(if s.len() > 0 && s[0] == 43 { s.drop_first() } else { s })
}

pub open spec fn parse_micros_spec(s: Seq<u8>) -> Option<u64> {
    match decimal_micros(s) {
        Some(v) => if v <= u64::MAX { Some(v as u64) } else { None },
        None => None,
    }
}

/// A string of `n` digits is worth less than `10^n`.
pub proof fn lemma_digits_bound(s: Seq<u8>)
    requires
        all_digits(s),
    ensures
        digits_value(s) < pow10(s.len()),
    decreases s.len(),
{
    if s.len() > 0 {
        let t = s.drop_last();
        lemma_digits_bound(t);
        let v = digits_value(t);
        let d = (s.last() - 48) as nat;
        assert(is_digit(s[s.len() - 1]));
        assert(v * 10 + d < 10 * pow10(t.len())) by (nonlinear_arith)
            requires
                v < pow10(t.len()),
                d <= 9,
        ;
    }
}

/// Reads the digits `s[lo..hi]` that follow a decimal point, in millionths.
fn fraction_range(s: &[u8], lo: usize, hi: usize) -> (r: Option<u64>)
    requires
        lo <= hi <= s@.len(),
    ensures
        r == (if all_digits(s@.subrange(lo as int, hi as int)) {
            Some(fraction_micros(s@.subrange(lo as int, hi as int)) as u64)
        } else {
            None
        }),
        r matches Some(v) ==> v < 1_000_000,
        all_digits(s@.subrange(lo as int, hi as int)) ==> fraction_micros(
            s@.subrange(lo as int, hi as int),
        ) < 1_000_000,
{
    let ghost fp = s@.subrange(lo as int, hi as int);
    let cut = if hi - lo > 6 { lo + 6 } else { hi };
    let head_value = digits_range(s, lo, cut);
    let ghost head = s@.subrange(lo as int, cut as int);
    let mut k = cut;
    while k < hi
        invariant
            lo <= cut <= k <= hi <= s@.len(),
            fp == s@.subrange(lo as int, hi as int),
            forall|m: int| cut <= m < k ==> is_digit(s@[m]),
        decreases hi - k,
    {
        if s[k] < 48 || s[k] > 57 {
            assert(!is_digit(fp[k - lo]));
            return None;
        }
        k = k + 1;
    }
    proof {
        if all_digits(head) {
            assert forall|m: int| 0 <= m < fp.len() implies is_digit(#[trigger] fp[m]) by {
                if m + lo < cut {
                    assert(head[m] == fp[m]);
                } else {
                    assert(s@[m + lo] == fp[m]);
                }
            }
            lemma_digits_bound(head);
        } else {
            let m = choose|m: int| 0 <= m < head.len() && !is_digit(#[trigger] head[m]);
            assert(fp[m] == head[m]);
        }
        if fp.len() >= 6 {
            assert(fp.take(6) =~= head);
        } else {
            assert(fp =~= head);
        }
        reveal_with_fuel(pow10, 7);
    }
    let v = match head_value {
        Some(v) => v,
        None => {
            return None;
        },
    };
    let n = hi - lo;
    if n >= 6 {
        Some(v)
    } else if n == 5 {
        Some(v * 10)
    } else if n == 4 {
        Some(v * 100)
    } else if n == 3 {
        Some(v * 1000)
    } else if n == 2 {
        Some(v * 10_000)
    } else if n == 1 {
        Some(v * 100_000)
    } else {
        Some(v * 1_000_000)
    }
}

/// Reads the unsigned number that `t` spells, in millionths.
fn unsigned_micros_exec(t: &[u8]) -> (r: Option<u64>)
    ensures
        r == (match unsigned_micros(t@) {
            Some(v) => if v <= u64::MAX { Some(v as u64) } else { None },
            None => None,
        }),
{
    let p = find_byte(t, 46, 0);
    let fs = if p < t.len() { p + 1 } else { p };
    let fe = t.len();
    let ghost ip = t@.subrange(0, p as int);
    let ghost fp = if p < t@.len() { t@.subrange(p + 1, t@.len() as int) } else { Seq::<u8>::empty() };
    assert(t@.subrange(fs as int, fe as int) =~= fp);
    if p == 0 && fe == fs {
        return None;
    }
    let int_part = digits_range(t, 0, p);
    let frac = fraction_range(t, fs, fe);
    let fv = match frac {
        Some(v) => v,
        None => {
            return None;
        },
    };
    let ip_v = match int_part {
        Some(v) => v,
        None => {
            proof {
                if all_digits(ip) {
                    assert(digits_value(ip) * 1_000_000 + fraction_micros(fp) > u64::MAX) by (nonlinear_arith)
                        requires
                            digits_value(ip) > u64::MAX,
                    ;
                }
            }
            return None;
        },
    };
    assert(ip.len() + fp.len() > 0);
    let total: u128 = ip_v as u128 * 1_000_000 + fv as u128;
    if total > u64::MAX as u128 {
        return None;
    }
    Some(total as u64)
}

/// Reads a decimal number in millionths, after trimming whitespace around it.
pub fn read_micros(s: &[u8]) -> (r: Option<u64>)
    ensures
        r == parse_micros_spec(trim(s@)),
{
    let (a, b) = trim_range(s, 0, s.len());
    assert(s@.subrange(0, s@.len() as int) =~= s@);
    let ghost w = s@.subrange(a as int, b as int);
    let mut lo = a;
    if a < b && s[a] == 43 {
        lo = a + 1;
    }
    let sub = vstd::slice::slice_subrange(s, lo, b);
    assert(sub@ =~= (if w.len() > 0 && w[0] == 43 { w.drop_first() } else { w }));
    unsigned_micros_exec(sub)
}

} // verus!
