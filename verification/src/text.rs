//! Character-level text primitives shared by the parsers.
//!
//! Every parser in this crate reads its input as a sequence of Unicode scalar
//! values (the view of `str`), so the specifications below are stated over
//! `Seq<char>` and the executable helpers work on `Vec<char>`.
use vstd::prelude::*;

verus! {

// ---------------------------------------------------------------------------
// Specifications
// ---------------------------------------------------------------------------

/// Unicode `White_Space`, the property behind `char::is_whitespace`.
pub open spec fn is_ws(c: char) -> bool {
    ||| ('\u{9}' <= c && c <= '\u{d}')
    ||| c == ' '
    ||| c == '\u{85}'
    ||| c == '\u{a0}'
    ||| c == '\u{1680}'
    ||| ('\u{2000}' <= c && c <= '\u{200a}')
    ||| c == '\u{2028}'
    ||| c == '\u{2029}'
    ||| c == '\u{202f}'
    ||| c == '\u{205f}'
    ||| c == '\u{3000}'
}

/// Index of the first non-whitespace character at or after `i`.
pub open spec fn lead_ws(s: Seq<char>, i: int) -> int
    decreases s.len() - i,
{
    if 0 <= i < s.len() && is_ws(s[i]) {
        lead_ws(s, i + 1)
    } else {
        i
    }
}

/// End of the string once trailing whitespace before `j` is removed.
pub open spec fn trail_ws(s: Seq<char>, j: int) -> int
    decreases j,
{
    if 0 < j <= s.len() && is_ws(s[j - 1]) {
        trail_ws(s, j - 1)
    } else {
        j
    }
}

/// `str::trim_start`.
pub open spec fn trim_start(s: Seq<char>) -> Seq<char> {
    s.subrange(lead_ws(s, 0), s.len() as int)
}

/// `str::trim_end`.
pub open spec fn trim_end(s: Seq<char>) -> Seq<char> {
    s.subrange(0, trail_ws(s, s.len() as int))
}

/// `str::trim`.
pub open spec fn trim(s: Seq<char>) -> Seq<char> {
    trim_end(trim_start(s))
}

/// `s` begins with `p`.
pub open spec fn has_prefix(s: Seq<char>, p: Seq<char>) -> bool {
    p.len() <= s.len() && s.subrange(0, p.len() as int) =~= p
}

/// `s` ends with `p`.
pub open spec fn has_suffix(s: Seq<char>, p: Seq<char>) -> bool {
    p.len() <= s.len() && s.subrange(s.len() - p.len(), s.len() as int) =~= p
}

/// `p` occurs in `s` at position `i`.
pub open spec fn occurs_at(s: Seq<char>, p: Seq<char>, i: int) -> bool {
    0 <= i && i + p.len() <= s.len() && s.subrange(i, i + p.len()) =~= p
}

/// First position at or after `k` where `p` occurs in `s` (`str::find`).
pub open spec fn find_from(s: Seq<char>, p: Seq<char>, k: int) -> Option<int>
    decreases s.len() - k,
{
    if k < 0 || k + p.len() > s.len() {
        None
    } else if occurs_at(s, p, k) {
        Some(k)
    } else {
        find_from(s, p, k + 1)
    }
}

/// First occurrence of `p` in `s`.
pub open spec fn find(s: Seq<char>, p: Seq<char>) -> Option<int> {
    find_from(s, p, 0)
}

/// `p` occurs somewhere in `s` (`str::contains`).
pub open spec fn contains(s: Seq<char>, p: Seq<char>) -> bool {
    find(s, p) is Some
}

/// First index at or after `k` holding `c`, or `s.len()` when there is none.
pub open spec fn idx_of(s: Seq<char>, c: char, k: int) -> int
    decreases s.len() - k,
{
    if k < 0 {
        idx_of(s, c, 0)
    } else if k >= s.len() {
        s.len() as int
    } else if s[k] == c {
        k
    } else {
        idx_of(s, c, k + 1)
    }
}

/// Drops one trailing carriage return.
pub open spec fn strip_cr(l: Seq<char>) -> Seq<char> {
    if l.len() > 0 && l.last() == '\r' {
        l.drop_last()
    } else {
        l
    }
}

/// `str::lines`: split at `\n`, drop one `\r` before each `\n`, and no final
/// empty line after a trailing newline.
pub open spec fn lines(s: Seq<char>) -> Seq<Seq<char>>
    decreases s.len(),
{
    if s.len() == 0 {
        Seq::empty()
    } else {
        let i = idx_of(s, '\n', 0);
        proof {
            lemma_idx_of_bounds(s, '\n', 0);
        }
        if i < s.len() {
            seq![strip_cr(s.subrange(0, i))] + lines(s.subrange(i + 1, s.len() as int))
        } else {
            seq![s]
        }
    }
}

proof fn lemma_idx_of_same(s: Seq<char>, t: Seq<char>, c: char, i: int)
    requires
        0 <= i <= s.len(),
        0 <= i <= t.len(),
        forall|j: int| 0 <= j < i ==> s[j] == t[j],
        idx_of(s, c, 0) == i,
        i < t.len() ==> t[i] == c,
    ensures
        idx_of(t, c, 0) == i,
{
    lemma_idx_of_bounds(s, c, 0);
    lemma_idx_of_bounds(t, c, 0);
    let it = idx_of(t, c, 0);
    if it < i {
        assert(t[it] == c && s[it] == t[it]);
    }
}

/// A prefix has no more lines than the whole.
pub proof fn lemma_lines_take(s: Seq<char>, k: int)
    requires
        0 <= k <= s.len(),
    ensures
        lines(s.take(k)).len() <= lines(s).len(),
    decreases s.len(),
{
    let t = s.take(k);
    if k > 0 {
        lemma_idx_of_bounds(s, '\n', 0);
        let i = idx_of(s, '\n', 0);
        if i >= k {
            assert forall|j: int| 0 <= j < k implies t[j] != '\n' by {
                assert(t[j] == s[j]);
            }
            lemma_idx_of_bounds(t, '\n', 0);
            if idx_of(t, '\n', 0) < k {
                assert(t[idx_of(t, '\n', 0)] == '\n');
            }
            assert(lines(t) == seq![t]);
        } else {
            lemma_idx_of_same(s, t, '\n', i);
            let r = s.subrange(i + 1, s.len() as int);
            assert(t.subrange(i + 1, k) =~= r.take(k - i - 1));
            lemma_lines_take(r, k - i - 1);
        }
    }
}

/// Lines of two texts, counted apart, are at most one more than counted
/// together (the last line of the first may run into the second).
pub proof fn lemma_lines_concat(p: Seq<char>, q: Seq<char>)
    ensures
        lines(p).len() + lines(q).len() <= lines(p + q).len() + 1,
    decreases p.len(),
{
    let pq = p + q;
    if p.len() == 0 {
        assert(pq =~= q);
    } else {
        lemma_idx_of_bounds(p, '\n', 0);
        let i = idx_of(p, '\n', 0);
        if i < p.len() {
            lemma_idx_of_same(p, pq, '\n', i);
            let r = p.subrange(i + 1, p.len() as int);
            assert(pq.subrange(i + 1, pq.len() as int) =~= r + q);
            lemma_lines_concat(r, q);
        } else {
            lemma_idx_of_bounds(q, '\n', 0);
            let j = idx_of(q, '\n', 0);
            if q.len() > 0 {
                if j < q.len() {
                    assert forall|m: int| 0 <= m < p.len() + j implies pq[m] != '\n' by {
                        if m < p.len() {
                            assert(pq[m] == p[m]);
                        } else {
                            assert(pq[m] == q[m - p.len()]);
                        }
                    }
                    lemma_idx_of_bounds(pq, '\n', 0);
                    let ip = idx_of(pq, '\n', 0);
                    if ip < p.len() + j {
                        assert(pq[ip] == '\n');
                    }
                    assert(pq[p.len() + j] == q[j]);
                    assert(pq.subrange(p.len() + j + 1, pq.len() as int) =~= q.subrange(j + 1, q.len() as int));
                } else {
                    assert(lines(q) == seq![q]);
                }
            }
        }
    }
}

/// `str::split_inclusive('\n')`: pieces that each keep their `\n`.
pub open spec fn pieces(s: Seq<char>) -> Seq<Seq<char>>
    decreases s.len(),
{
    if s.len() == 0 {
        Seq::empty()
    } else {
        let i = idx_of(s, '\n', 0);
        proof {
            lemma_idx_of_bounds(s, '\n', 0);
        }
        if i < s.len() {
            seq![s.subrange(0, i + 1)] + pieces(s.subrange(i + 1, s.len() as int))
        } else {
            seq![s]
        }
    }
}

/// Concatenation of a sequence of strings.
pub open spec fn concat(ls: Seq<Seq<char>>) -> Seq<char>
    decreases ls.len(),
{
    if ls.len() == 0 {
        Seq::empty()
    } else {
        concat(ls.drop_last()) + ls.last()
    }
}

/// Views of a vector of character vectors.
pub open spec fn views(v: Seq<Vec<char>>) -> Seq<Seq<char>> {
    v.map_values(|x: Vec<char>| x@)
}

/// Views of a vector of strings.
pub open spec fn string_views(v: Seq<String>) -> Seq<Seq<char>> {
    v.map_values(|x: String| x@)
}

/// Views of string slices.
pub open spec fn str_views(v: Seq<&str>) -> Seq<Seq<char>> {
    v.map_values(|x: &str| x@)
}

/// The ASCII digit for `d` (`0 <= d < 10`).
pub open spec fn digit_char(d: nat) -> char {
    (48 + d) as char
}

/// Decimal notation of a natural number, without leading zeros.
pub open spec fn dec(n: nat) -> Seq<char>
    decreases n,
{
    if n < 10 {
        seq![digit_char(n)]
    } else {
        dec(n / 10).push(digit_char(n % 10))
    }
}

/// `n` times the character `c`.
pub open spec fn repeat(c: char, n: nat) -> Seq<char>
    decreases n,
{
    if n == 0 {
        Seq::empty()
    } else {
        repeat(c, (n - 1) as nat).push(c)
    }
}

/// Decimal notation padded with zeros to at least `w` characters (`{:0w}`).
pub open spec fn dec_pad(n: nat, w: nat) -> Seq<char> {
    if dec(n).len() >= w {
        dec(n)
    } else {
        repeat('0', (w - dec(n).len()) as nat) + dec(n)
    }
}

// ---------------------------------------------------------------------------
// Lemmas
// ---------------------------------------------------------------------------

pub proof fn lemma_idx_of_bounds(s: Seq<char>, c: char, k: int)
    requires
        0 <= k <= s.len(),
    ensures
        k <= idx_of(s, c, k) <= s.len(),
        idx_of(s, c, k) < s.len() ==> s[idx_of(s, c, k)] == c,
        forall|j: int| k <= j < idx_of(s, c, k) ==> s[j] != c,
    decreases s.len() - k,
{
    if k < s.len() && s[k] != c {
        lemma_idx_of_bounds(s, c, k + 1);
    }
}

pub proof fn lemma_idx_of_shift(s: Seq<char>, c: char, k: int)
    requires
        0 <= k <= s.len(),
    ensures
        idx_of(s, c, k) == k + idx_of(s.subrange(k, s.len() as int), c, 0),
    decreases s.len() - k,
{
    let t = s.subrange(k, s.len() as int);
    lemma_idx_of_bounds(s, c, k);
    lemma_idx_of_bounds(t, c, 0);
    let a = idx_of(s, c, k);
    let b = idx_of(t, c, 0);
    if a < k + b {
        assert(t[a - k] == s[a]);
    } else if a > k + b {
        assert(t[b] == s[k + b]);
    }
}

pub proof fn lemma_lead_ws_bounds(s: Seq<char>, i: int)
    requires
        0 <= i <= s.len(),
    ensures
        i <= lead_ws(s, i) <= s.len(),
        lead_ws(s, i) < s.len() ==> !is_ws(s[lead_ws(s, i)]),
        forall|j: int| i <= j < lead_ws(s, i) ==> is_ws(s[j]),
    decreases s.len() - i,
{
    if i < s.len() && is_ws(s[i]) {
        lemma_lead_ws_bounds(s, i + 1);
    }
}

pub proof fn lemma_trail_ws_bounds(s: Seq<char>, j: int)
    requires
        0 <= j <= s.len(),
    ensures
        0 <= trail_ws(s, j) <= j,
        trail_ws(s, j) > 0 ==> !is_ws(s[trail_ws(s, j) - 1]),
        forall|k: int| trail_ws(s, j) <= k < j ==> is_ws(s[k]),
    decreases j,
{
    if 0 < j && is_ws(s[j - 1]) {
        lemma_trail_ws_bounds(s, j - 1);
    }
}

pub proof fn lemma_concat_push(ls: Seq<Seq<char>>, x: Seq<char>)
    ensures
        concat(ls.push(x)) =~= concat(ls) + x,
{
    assert(ls.push(x).drop_last() =~= ls);
}

pub proof fn lemma_concat_append(a: Seq<Seq<char>>, b: Seq<Seq<char>>)
    ensures
        concat(a + b) =~= concat(a) + concat(b),
    decreases b.len(),
{
    if b.len() > 0 {
        lemma_concat_append(a, b.drop_last());
        assert((a + b).drop_last() =~= a + b.drop_last());
    } else {
        assert(a + b =~= a);
    }
}

pub proof fn lemma_concat_single(x: Seq<char>)
    ensures
        concat(seq![x]) =~= x,
{
    assert(seq![x].drop_last() =~= Seq::<Seq<char>>::empty());
    assert(seq![x].last() == x);
    assert(concat(Seq::<Seq<char>>::empty()) =~= Seq::<char>::empty());
}

pub proof fn lemma_concat_pieces(s: Seq<char>)
    ensures
        concat(pieces(s)) =~= s,
    decreases s.len(),
{
    if s.len() > 0 {
        let i = idx_of(s, '\n', 0);
        lemma_idx_of_bounds(s, '\n', 0);
        if i < s.len() {
            let rest = s.subrange(i + 1, s.len() as int);
            lemma_concat_pieces(rest);
            lemma_concat_append(seq![s.subrange(0, i + 1)], pieces(rest));
            lemma_concat_single(s.subrange(0, i + 1));
        } else {
            lemma_concat_single(s);
        }
    }
}

pub proof fn lemma_lines_len(s: Seq<char>)
    ensures
        lines(s).len() <= s.len(),
    decreases s.len(),
{
    if s.len() > 0 {
        lemma_idx_of_bounds(s, '\n', 0);
        let i = idx_of(s, '\n', 0);
        if i < s.len() {
            lemma_lines_len(s.subrange(i + 1, s.len() as int));
        }
    }
}

// ---------------------------------------------------------------------------
// Executable helpers
// ---------------------------------------------------------------------------

/// Appends the decimal notation of `n`.
pub fn push_dec(s: &mut String, n: u64)
    ensures
        final(s)@ == old(s)@ + dec(n as nat),
    decreases n,
{
    if n >= 10 {
        push_dec(s, n / 10);
    }
    let d: u8 = (n % 10) as u8;
    push_char(s, (48u8 + d) as char);
    assert(final(s)@ =~= old(s)@ + dec(n as nat));
}

/// Number of decimal digits of `n`.
pub fn dec_len(n: u64) -> (r: usize)
    ensures
        r as nat == dec(n as nat).len(),
    decreases n,
{
    if n >= 10 {
        proof { lemma_dec_len_bound(n as nat); }
        dec_len(n / 10) + 1
    } else {
        1
    }
}

/// `10^k`.
pub open spec fn pow10(k: nat) -> nat
    decreases k,
{
    if k == 0 {
        1
    } else {
        10 * pow10((k - 1) as nat)
    }
}

pub proof fn lemma_dec_len_pow(n: nat, k: nat)
    requires
        k >= 1,
        n < pow10(k),
    ensures
        dec(n).len() <= k,
    decreases n,
{
    if n >= 10 {
        if k == 1 {
            assert(pow10(1) == 10 * pow10(0));
        }
        let p = pow10((k - 1) as nat);
        assert(pow10(k) == 10 * p);
        assert(n / 10 < p) by (nonlinear_arith)
            requires
                n < 10 * p,
        ;
        lemma_dec_len_pow(n / 10, (k - 1) as nat);
    }
}

pub proof fn lemma_dec_len_bound(n: nat)
    requires
        n <= u64::MAX,
    ensures
        1 <= dec(n).len() <= 20,
{
    reveal_with_fuel(pow10, 21);
    assert(pow10(20) == 100000000000000000000);
    lemma_dec_len_pow(n, 20);
}

// ---------------------------------------------------------------------------
// String order
// ---------------------------------------------------------------------------

/// `a` sorts strictly before `b`: at the first position where they differ
/// `a` has the smaller code point, or `a` is a proper prefix of `b`. Code
/// point order is also the order of the UTF-8 bytes, so this is the order
/// of Rust's `str` comparison.
pub open spec fn lex_lt(a: Seq<char>, b: Seq<char>) -> bool {
    exists|k: int|
        #![trigger a.take(k), b.take(k)]
        0 <= k <= a.len() && k <= b.len() && a.take(k) == b.take(k) && ((k < a.len() && k < b.len()
            && (a[k] as u32) < (b[k] as u32)) || (k == a.len() && k < b.len()))
}

/// Two strings of one length that first differ at `k`, where `a` is smaller.
pub proof fn lemma_lex_at(a: Seq<char>, b: Seq<char>, k: int)
    requires
        a.len() == b.len(),
        0 <= k < a.len(),
        forall|i: int| 0 <= i < k ==> a[i] == b[i],
        (a[k] as u32) < (b[k] as u32),
    ensures
        lex_lt(a, b),
{
    assert(a.take(k) =~= b.take(k));
}

/// Padding both sides after an ordered pair of equal-length strings keeps
/// the order, whatever is appended.
pub proof fn lemma_lex_extend(a: Seq<char>, b: Seq<char>, ra: Seq<char>, rb: Seq<char>)
    requires
        a.len() == b.len(),
        lex_lt(a, b),
    ensures
        lex_lt(a + ra, b + rb),
{
    let k = choose|k: int|
        #![trigger a.take(k), b.take(k)]
        0 <= k <= a.len() && k <= b.len() && a.take(k) == b.take(k) && ((k < a.len() && k < b.len()
            && (a[k] as u32) < (b[k] as u32)) || (k == a.len() && k < b.len()));
    assert((a + ra).take(k) =~= a.take(k));
    assert((b + rb).take(k) =~= b.take(k));
    assert((a + ra)[k] == a[k]);
    assert((b + rb)[k] == b[k]);
}

/// A common prefix keeps the order of what follows it.
pub proof fn lemma_lex_prefix(p: Seq<char>, a: Seq<char>, b: Seq<char>)
    requires
        lex_lt(a, b),
    ensures
        lex_lt(p + a, p + b),
{
    let k = choose|k: int|
        #![trigger a.take(k), b.take(k)]
        0 <= k <= a.len() && k <= b.len() && a.take(k) == b.take(k) && ((k < a.len() && k < b.len()
            && (a[k] as u32) < (b[k] as u32)) || (k == a.len() && k < b.len()));
    let j = p.len() + k;
    assert((p + a).take(j) =~= p + a.take(k));
    assert((p + b).take(j) =~= p + b.take(k));
    if k < a.len() {
        assert((p + a)[j] == a[k]);
        assert((p + b)[j] == b[k]);
    }
}

/// The last `w` decimal digits of `n`, most significant first.
pub open spec fn digits(n: nat, w: nat) -> Seq<char>
    decreases w,
{
    if w == 0 {
        Seq::empty()
    } else {
        digits(n / 10, (w - 1) as nat).push(digit_char(n % 10))
    }
}

pub proof fn lemma_digits_len(n: nat, w: nat)
    ensures
        digits(n, w).len() == w,
    decreases w,
{
    if w > 0 {
        lemma_digits_len(n / 10, (w - 1) as nat);
    }
}

proof fn lemma_digits_zero(w: nat)
    ensures
        digits(0, w) == repeat('0', w),
    decreases w,
{
    if w > 0 {
        lemma_digits_zero((w - 1) as nat);
    }
}

/// A number below `10^w` written with `{:0w}` is its `w` last digits.
pub proof fn lemma_dec_pad_digits(n: nat, w: nat)
    requires
        w >= 1,
        n < pow10(w),
    ensures
        dec_pad(n, w) == digits(n, w),
    decreases w,
{
    lemma_dec_len_pow(n, w);
    assert(pow10(w) == 10 * pow10((w - 1) as nat));
    if n < 10 {
        lemma_digits_zero((w - 1) as nat);
        assert(dec(n) == seq![digit_char(n)]);
        assert(n / 10 == 0 && n % 10 == n);
        assert(dec_pad(n, w) =~= repeat('0', (w - 1) as nat).push(digit_char(n)));
    } else {
        let p = pow10((w - 1) as nat);
        assert(n / 10 < p) by (nonlinear_arith)
            requires
                n < 10 * p,
        ;
        if w == 1 {
            assert(pow10(0) == 1);
        }
        lemma_dec_pad_digits(n / 10, (w - 1) as nat);
        lemma_dec_len_pow(n / 10, (w - 1) as nat);
        assert(dec(n) == dec(n / 10).push(digit_char(n % 10)));
        if dec(n / 10).len() >= w - 1 {
            assert(dec_pad(n, w) =~= dec_pad(n / 10, (w - 1) as nat).push(digit_char(n % 10)));
        } else {
            assert(dec_pad(n, w) =~= dec_pad(n / 10, (w - 1) as nat).push(digit_char(n % 10)));
        }
    }
}

/// Fixed-width digit strings sort as the numbers they write.
pub proof fn lemma_digits_order(a: nat, b: nat, w: nat)
    requires
        a < b < pow10(w),
    ensures
        lex_lt(digits(a, w), digits(b, w)),
    decreases w,
{
    if w == 0 {
        assert(pow10(0) == 1);
    } else {
        let p = pow10((w - 1) as nat);
        assert(pow10(w) == 10 * p);
        lemma_digits_len(a / 10, (w - 1) as nat);
        lemma_digits_len(b / 10, (w - 1) as nat);
        assert(a / 10 <= b / 10 && b / 10 < p) by (nonlinear_arith)
            requires
                a < b,
                b < 10 * p,
        ;
        if a / 10 < b / 10 {
            lemma_digits_order(a / 10, b / 10, (w - 1) as nat);
            lemma_lex_extend(digits(a / 10, (w - 1) as nat), digits(b / 10, (w - 1) as nat), seq![digit_char(a % 10)], seq![digit_char(b % 10)]);
            assert(digits(a, w) =~= digits(a / 10, (w - 1) as nat) + seq![digit_char(a % 10)]);
            assert(digits(b, w) =~= digits(b / 10, (w - 1) as nat) + seq![digit_char(b % 10)]);
        } else {
            assert(a % 10 < b % 10) by (nonlinear_arith)
                requires
                    a < b,
                    a / 10 == b / 10,
            ;
            let k = (w - 1) as int;
            assert forall|i: int| 0 <= i < k implies digits(a, w)[i] == digits(b, w)[i] by {
                assert(digits(a, w)[i] == digits(a / 10, (w - 1) as nat)[i]);
                assert(digits(b, w)[i] == digits(b / 10, (w - 1) as nat)[i]);
            }
            lemma_digits_len(a, w);
            lemma_digits_len(b, w);
            lemma_lex_at(digits(a, w), digits(b, w), k);
        }
    }
}

/// Appends `n` padded with zeros to width `w` (`{:0w}`).
pub fn push_dec_pad(s: &mut String, n: u64, w: usize)
    ensures
        final(s)@ == old(s)@ + dec_pad(n as nat, w as nat),
{
    let l = dec_len(n);
    if l < w {
        let mut k: usize = 0;
        while k < w - l
            invariant
                l < w,
                k <= w - l,
                s@ == old(s)@ + repeat('0', k as nat),
            decreases w - l - k,
        {
            push_char(s, '0');
            k += 1;
        }
        let ghost mid = s@;
        push_dec(s, n);
        assert(s@ =~= old(s)@ + dec_pad(n as nat, w as nat));
    } else {
        push_dec(s, n);
    }
}

/// The characters of a string slice, in order.
pub fn chars_of(s: &str) -> (v: Vec<char>)
    ensures
        v@ == s@,
{
    let mut v: Vec<char> = Vec::new();
    for c in it: s.chars()
        invariant
            v@ == it.seq().take(it.index() as int),
    {
        v.push(c);
    }
    v
}

/// Appends one character to a string (`String::push`).
#[verifier::external_body]
pub(crate) fn push_char(s: &mut String, c: char)
    ensures
        final(s)@ == old(s)@.push(c),
{
    s.push(c);
}

/// Builds a string from characters.
pub fn string_of(v: &Vec<char>) -> (s: String)
    ensures
        s@ == v@,
{
    let mut s = String::new();
    let mut i: usize = 0;
    while i < v.len()
        invariant
            i <= v.len(),
            s@ == v@.subrange(0, i as int),
        decreases v.len() - i,
    {
        push_char(&mut s, v[i]);
        i += 1;
        assert(s@ =~= v@.subrange(0, i as int));
    }
    assert(v@.subrange(0, v.len() as int) =~= v@);
    s
}

/// Builds a string from a range of characters.
pub fn string_of_range(v: &Vec<char>, lo: usize, hi: usize) -> (s: String)
    requires
        lo <= hi <= v.len(),
    ensures
        s@ == v@.subrange(lo as int, hi as int),
{
    let mut s = String::new();
    let mut i: usize = lo;
    while i < hi
        invariant
            lo <= i <= hi <= v.len(),
            s@ == v@.subrange(lo as int, i as int),
        decreases hi - i,
    {
        push_char(&mut s, v[i]);
        i += 1;
        assert(s@ =~= v@.subrange(lo as int, i as int));
    }
    s
}

/// Appends a whole character sequence to a string.
pub fn push_all(s: &mut String, v: &Vec<char>)
    ensures
        final(s)@ == old(s)@ + v@,
{
    let mut i: usize = 0;
    while i < v.len()
        invariant
            i <= v.len(),
            s@ == old(s)@ + v@.subrange(0, i as int),
        decreases v.len() - i,
    {
        push_char(s, v[i]);
        i += 1;
        assert(s@ =~= old(s)@ + v@.subrange(0, i as int));
    }
    assert(v@.subrange(0, v.len() as int) =~= v@);
}

/// Appends a string slice to a string.
pub fn push_str(s: &mut String, t: &str)
    ensures
        final(s)@ == old(s)@ + t@,
{
    let v = chars_of(t);
    push_all(s, &v);
}

/// A copy of the characters in `[lo, hi)`.
pub fn slice_of(v: &Vec<char>, lo: usize, hi: usize) -> (r: Vec<char>)
    requires
        lo <= hi <= v.len(),
    ensures
        r@ == v@.subrange(lo as int, hi as int),
{
    let mut r: Vec<char> = Vec::new();
    let mut i: usize = lo;
    while i < hi
        invariant
            lo <= i <= hi <= v.len(),
            r@ == v@.subrange(lo as int, i as int),
        decreases hi - i,
    {
        r.push(v[i]);
        i += 1;
        assert(r@ =~= v@.subrange(lo as int, i as int));
    }
    r
}

/// A copy of a character vector.
pub fn copy(v: &Vec<char>) -> (r: Vec<char>)
    ensures
        r@ == v@,
{
    let r = slice_of(v, 0, v.len());
    assert(v@.subrange(0, v.len() as int) =~= v@);
    r
}

/// `char::is_whitespace`.
pub fn is_whitespace(c: char) -> (b: bool)
    ensures
        b == is_ws(c),
{
    ('\u{9}' <= c && c <= '\u{d}') || c == ' ' || c == '\u{85}' || c == '\u{a0}' || c == '\u{1680}'
        || ('\u{2000}' <= c && c <= '\u{200a}') || c == '\u{2028}' || c == '\u{2029}' || c
        == '\u{202f}' || c == '\u{205f}' || c == '\u{3000}'
}

/// Start of the non-whitespace part of `v`.
pub fn lead_ws_exec(v: &Vec<char>) -> (i: usize)
    ensures
        i as int == lead_ws(v@, 0),
{
    let mut i: usize = 0;
    while i < v.len() && is_whitespace(v[i])
        invariant
            i <= v.len(),
            lead_ws(v@, 0) == lead_ws(v@, i as int),
        decreases v.len() - i,
    {
        i += 1;
    }
    i
}

/// First non-whitespace index of `v` at or after `i`.
pub fn lead_ws_from(v: &Vec<char>, i: usize) -> (r: usize)
    requires
        i <= v.len(),
    ensures
        r as int == lead_ws(v@, i as int),
        i <= r <= v.len(),
{
    let mut k: usize = i;
    while k < v.len() && is_whitespace(v[k])
        invariant
            i <= k <= v.len(),
            lead_ws(v@, i as int) == lead_ws(v@, k as int),
        decreases v.len() - k,
    {
        k += 1;
    }
    k
}

/// Character-wise equality of two sequences.
pub fn same_chars(a: &Vec<char>, b: &Vec<char>) -> (r: bool)
    ensures
        r == (a@ == b@),
{
    if a.len() != b.len() {
        return false;
    }
    let mut i: usize = 0;
    while i < a.len()
        invariant
            a.len() == b.len(),
            i <= a.len(),
            forall|j: int| 0 <= j < i ==> a@[j] == b@[j],
        decreases a.len() - i,
    {
        if a[i] != b[i] {
            return false;
        }
        i += 1;
    }
    assert(a@ =~= b@);
    true
}

/// Equality of two strings.
pub fn same_text(a: &str, b: &str) -> (r: bool)
    ensures
        r == (a@ == b@),
{
    let x = chars_of(a);
    let y = chars_of(b);
    same_chars(&x, &y)
}

/// End of `v` once trailing whitespace is removed.
pub fn trail_ws_exec(v: &Vec<char>) -> (j: usize)
    ensures
        j as int == trail_ws(v@, v@.len() as int),
{
    let mut j: usize = v.len();
    while j > 0 && is_whitespace(v[j - 1])
        invariant
            j <= v.len(),
            trail_ws(v@, v@.len() as int) == trail_ws(v@, j as int),
        decreases j,
    {
        j -= 1;
    }
    j
}

/// `str::trim_start` on characters.
pub fn trim_start_v(v: &Vec<char>) -> (r: Vec<char>)
    ensures
        r@ == trim_start(v@),
{
    let i = lead_ws_exec(v);
    proof { lemma_lead_ws_bounds(v@, 0); }
    slice_of(v, i, v.len())
}

/// `str::trim_end` on characters.
pub fn trim_end_v(v: &Vec<char>) -> (r: Vec<char>)
    ensures
        r@ == trim_end(v@),
{
    let j = trail_ws_exec(v);
    proof { lemma_trail_ws_bounds(v@, v@.len() as int); }
    slice_of(v, 0, j)
}

/// `str::trim` on characters.
pub fn trim_v(v: &Vec<char>) -> (r: Vec<char>)
    ensures
        r@ == trim(v@),
{
    let a = trim_start_v(v);
    trim_end_v(&a)
}

/// `p` occurs in `s` at `i`.
pub fn occurs_at_exec(s: &Vec<char>, p: &Vec<char>, i: usize) -> (b: bool)
    ensures
        b == occurs_at(s@, p@, i as int),
{
    if i > s.len() || p.len() > s.len() - i {
        return false;
    }
    let mut k: usize = 0;
    while k < p.len()
        invariant
            i + p.len() <= s.len(),
            k <= p.len(),
            forall|m: int| 0 <= m < k ==> s@[i + m] == p@[m],
        decreases p.len() - k,
    {
        if s[i + k] != p[k] {
            assert(s@.subrange(i as int, i + p.len())[k as int] != p@[k as int]);
            return false;
        }
        k += 1;
    }
    assert(s@.subrange(i as int, i + p.len()) =~= p@);
    true
}

/// `s` begins with `p`.
pub fn starts_with_v(s: &Vec<char>, p: &Vec<char>) -> (b: bool)
    ensures
        b == has_prefix(s@, p@),
{
    occurs_at_exec(s, p, 0)
}

/// `s` ends with `p`.
pub fn ends_with_v(s: &Vec<char>, p: &Vec<char>) -> (b: bool)
    ensures
        b == has_suffix(s@, p@),
{
    if p.len() > s.len() {
        return false;
    }
    occurs_at_exec(s, p, s.len() - p.len())
}

/// First occurrence of `p` at or after `k` (`str::find` on a suffix).
pub fn find_from_exec(s: &Vec<char>, p: &Vec<char>, k: usize) -> (r: Option<usize>)
    ensures
        match r {
            Some(i) => find_from(s@, p@, k as int) == Some(i as int),
            None => find_from(s@, p@, k as int) is None,
        },
{
    let mut i: usize = k;
    while i <= s.len() && p.len() <= s.len() - i
        invariant
            k <= i,
            find_from(s@, p@, k as int) == find_from(s@, p@, i as int),
        decreases s.len() + 1 - i,
    {
        if occurs_at_exec(s, p, i) {
            return Some(i);
        }
        i += 1;
    }
    None
}

/// First occurrence of `p` in `s` (`str::find`).
pub fn find_v(s: &Vec<char>, p: &Vec<char>) -> (r: Option<usize>)
    ensures
        match r {
            Some(i) => find(s@, p@) == Some(i as int),
            None => find(s@, p@) is None,
        },
{
    find_from_exec(s, p, 0)
}

/// First index at or after `k` holding `c`, or the length.
pub fn idx_of_exec(s: &Vec<char>, c: char, k: usize) -> (r: usize)
    requires
        k <= s.len(),
    ensures
        r as int == idx_of(s@, c, k as int),
{
    let mut i: usize = k;
    while i < s.len() && s[i] != c
        invariant
            k <= i <= s.len(),
            idx_of(s@, c, k as int) == idx_of(s@, c, i as int),
        decreases s.len() - i,
    {
        i += 1;
    }
    i
}

/// `str::lines` on characters.
pub fn lines_v(s: &Vec<char>) -> (r: Vec<Vec<char>>)
    ensures
        views(r@) == lines(s@),
{
    let mut r: Vec<Vec<char>> = Vec::new();
    let mut start: usize = 0;
    assert(s@.subrange(0, s@.len() as int) =~= s@);
    assert(views(r@) + lines(s@) =~= lines(s@));
    while start < s.len()
        invariant
            start <= s.len(),
            lines(s@) == views(r@) + lines(s@.subrange(start as int, s@.len() as int)),
        decreases s.len() - start,
    {
        let ghost rest = s@.subrange(start as int, s@.len() as int);
        let i = idx_of_exec(s, '\n', start);
        proof {
            lemma_idx_of_shift(s@, '\n', start as int);
            lemma_idx_of_bounds(s@, '\n', start as int);
        }
        if i < s.len() {
            let mut line = slice_of(s, start, i);
            if line.len() > 0 && line[line.len() - 1] == '\r' {
                line.pop();
            }
            proof {
                assert(rest.subrange(0, i - start) =~= s@.subrange(start as int, i as int));
                assert(rest.subrange(i - start + 1, rest.len() as int) =~= s@.subrange(
                    i + 1,
                    s@.len() as int,
                ));
                assert(views(r@.push(line)) =~= views(r@).push(line@));
            }
            r.push(line);
            start = i + 1;
        } else {
            let line = slice_of(s, start, s.len());
            proof {
                assert(views(r@.push(line)) =~= views(r@).push(line@));
                assert(s@.subrange(s@.len() as int, s@.len() as int) =~= Seq::<char>::empty());
            }
            r.push(line);
            start = s.len();
        }
    }
    assert(s@.subrange(start as int, s@.len() as int) =~= Seq::<char>::empty());
    assert(views(r@) + Seq::<Seq<char>>::empty() =~= views(r@));
    r
}

/// `str::split_inclusive('\n')` on characters.
pub fn pieces_v(s: &Vec<char>) -> (r: Vec<Vec<char>>)
    ensures
        views(r@) == pieces(s@),
{
    let mut r: Vec<Vec<char>> = Vec::new();
    let mut start: usize = 0;
    assert(s@.subrange(0, s@.len() as int) =~= s@);
    assert(views(r@) + pieces(s@) =~= pieces(s@));
    while start < s.len()
        invariant
            start <= s.len(),
            pieces(s@) == views(r@) + pieces(s@.subrange(start as int, s@.len() as int)),
        decreases s.len() - start,
    {
        let ghost rest = s@.subrange(start as int, s@.len() as int);
        let i = idx_of_exec(s, '\n', start);
        proof {
            lemma_idx_of_shift(s@, '\n', start as int);
            lemma_idx_of_bounds(s@, '\n', start as int);
        }
        if i < s.len() {
            let piece = slice_of(s, start, i + 1);
            proof {
                assert(rest.subrange(0, i - start + 1) =~= s@.subrange(start as int, i + 1));
                assert(rest.subrange(i - start + 1, rest.len() as int) =~= s@.subrange(
                    i + 1,
                    s@.len() as int,
                ));
                assert(views(r@.push(piece)) =~= views(r@).push(piece@));
            }
            r.push(piece);
            start = i + 1;
        } else {
            let piece = slice_of(s, start, s.len());
            proof {
                assert(views(r@.push(piece)) =~= views(r@).push(piece@));
            }
            r.push(piece);
            start = s.len();
        }
    }
    assert(s@.subrange(start as int, s@.len() as int) =~= Seq::<char>::empty());
    assert(views(r@) + Seq::<Seq<char>>::empty() =~= views(r@));
    r
}


/// `p` occurs nowhere in `s`.
pub open spec fn absent(s: Seq<char>, p: Seq<char>) -> bool {
    forall|j: int| !#[trigger] occurs_at(s, p, j)
}

/// What `find_from` answers: the first occurrence at or after `k`, or none.
pub proof fn lemma_find_from(s: Seq<char>, p: Seq<char>, k: int)
    requires
        0 <= k,
    ensures
        match find_from(s, p, k) {
            Some(i) => k <= i && occurs_at(s, p, i) && forall|j: int|
                k <= j < i ==> !#[trigger] occurs_at(s, p, j),
            None => forall|j: int| k <= j ==> !#[trigger] occurs_at(s, p, j),
        },
    decreases s.len() - k,
{
    if k + p.len() <= s.len() && !occurs_at(s, p, k) {
        lemma_find_from(s, p, k + 1);
    }
}

/// A piece of a text in which `p` is absent has no `p` either.
pub proof fn lemma_absent_sub(s: Seq<char>, p: Seq<char>, a: int, b: int)
    requires
        absent(s, p),
        0 <= a <= b <= s.len(),
    ensures
        absent(s.subrange(a, b), p),
{
    let t = s.subrange(a, b);
    assert forall|j: int| !#[trigger] occurs_at(t, p, j) by {
        if occurs_at(t, p, j) {
            assert(t.subrange(j, j + p.len()) =~= s.subrange(a + j, a + j + p.len()));
            assert(occurs_at(s, p, a + j));
        }
    }
}

/// Trimming keeps no occurrence that was not there.
pub proof fn lemma_absent_trim(s: Seq<char>, p: Seq<char>)
    requires
        absent(s, p),
    ensures
        absent(trim(s), p),
{
    lemma_lead_ws_bounds(s, 0);
    let u = trim_start(s);
    lemma_absent_sub(s, p, lead_ws(s, 0), s.len() as int);
    lemma_trail_ws_bounds(u, u.len() as int);
    lemma_absent_sub(u, p, 0, trail_ws(u, u.len() as int));
}

/// Trimming twice is trimming once.
pub proof fn lemma_trim_idempotent(s: Seq<char>)
    ensures
        trim(trim(s)) == trim(s),
{
    lemma_lead_ws_bounds(s, 0);
    let u = trim_start(s);
    lemma_trail_ws_bounds(u, u.len() as int);
    let t = trim(s);
    if t.len() > 0 {
        assert(t[0] == u[0]);
        assert(!is_ws(t[0]));
        assert(lead_ws(t, 0) == 0);
        assert(trim_start(t) =~= t);
        assert(!is_ws(t[t.len() - 1]));
        assert(trail_ws(t, t.len() as int) == t.len());
    } else {
        assert(trim_start(t) =~= t);
    }
    assert(trim(t) =~= t);
}


/// A line piece: non-empty, with a `\n` at most as its last character.
pub open spec fn piece_ok(q: Seq<char>) -> bool {
    q.len() > 0 && forall|k: int| 0 <= k < q.len() - 1 ==> q[k] != '\n'
}

/// Pieces as `pieces` makes them: each a line piece, all but the last
/// ending in `\n`.
pub open spec fn pieces_wf(qs: Seq<Seq<char>>) -> bool {
    &&& forall|k: int| 0 <= k < qs.len() ==> piece_ok(#[trigger] qs[k])
    &&& forall|k: int| 0 <= k < qs.len() - 1 ==> (#[trigger] qs[k]).last() == '\n'
}

/// The pieces of a text are well formed.
pub proof fn lemma_pieces_wf(s: Seq<char>)
    ensures
        pieces_wf(pieces(s)),
    decreases s.len(),
{
    if s.len() > 0 {
        let i = idx_of(s, '\n', 0);
        lemma_idx_of_bounds(s, '\n', 0);
        if i < s.len() {
            let h = s.subrange(0, i + 1);
            let rest = s.subrange(i + 1, s.len() as int);
            lemma_pieces_wf(rest);
            let ps = pieces(s);
            assert(ps == seq![h] + pieces(rest));
            assert(piece_ok(h));
            assert forall|k: int| 0 <= k < ps.len() implies piece_ok(#[trigger] ps[k]) by {
                if k > 0 {
                    assert(ps[k] == pieces(rest)[k - 1]);
                }
            }
            assert forall|k: int| 0 <= k < ps.len() - 1 implies (#[trigger] ps[k]).last() == '\n' by {
                if k > 0 {
                    assert(ps[k] == pieces(rest)[k - 1]);
                }
            }
        }
    }
}

/// The first `c` of a text is at `i` when `s[i]` is `c` and no `c` comes
/// before it.
pub proof fn lemma_idx_of_at(s: Seq<char>, c: char, i: int)
    requires
        0 <= i <= s.len(),
        i < s.len() ==> s[i] == c,
        forall|j: int| 0 <= j < i ==> s[j] != c,
    ensures
        idx_of(s, c, 0) == i,
{
    lemma_idx_of_bounds(s, c, 0);
}

/// Splitting well-formed pieces joined together gives them back.
pub proof fn lemma_pieces_of_concat(qs: Seq<Seq<char>>)
    requires
        pieces_wf(qs),
    ensures
        pieces(concat(qs)) == qs,
    decreases qs.len(),
{
    if qs.len() == 0 {
        assert(concat(qs) =~= Seq::<char>::empty());
        assert(pieces(concat(qs)) =~= qs);
    } else {
        let h = qs[0];
        let rest = qs.drop_first();
        assert(qs =~= seq![h] + rest);
        lemma_concat_append(seq![h], rest);
        lemma_concat_single(h);
        let s = concat(qs);
        assert(s =~= h + concat(rest));
        assert(piece_ok(h));
        assert forall|k: int| 0 <= k < rest.len() implies piece_ok(#[trigger] rest[k]) by {
            assert(rest[k] == qs[k + 1]);
        }
        assert forall|k: int| 0 <= k < rest.len() - 1 implies (#[trigger] rest[k]).last() == '\n' by {
            assert(rest[k] == qs[k + 1]);
        }
        lemma_pieces_of_concat(rest);
        if h.last() == '\n' {
            let i = h.len() - 1;
            assert forall|j: int| 0 <= j < i implies s[j] != '\n' by {
                assert(s[j] == h[j]);
            }
            assert(s[i] == h[i]);
            lemma_idx_of_at(s, '\n', i);
            assert(s.subrange(0, i + 1) =~= h);
            assert(s.subrange(i + 1, s.len() as int) =~= concat(rest));
            assert(pieces(s) =~= seq![h] + rest);
        } else {
            assert(rest.len() == 0);
            assert(concat(rest) =~= Seq::<char>::empty());
            assert(s =~= h);
            assert forall|j: int| 0 <= j < s.len() implies s[j] != '\n' by {
                if j == s.len() - 1 {
                    assert(s[j] == h.last());
                }
            }
            lemma_idx_of_at(s, '\n', s.len() as int);
            assert(pieces(s) =~= seq![h]);
        }
    }
}

/// `lead_ws` only looks up to where it stops: two texts of one length that
/// agree before `p` stop at the same place when one stops before `p`.
pub proof fn lemma_lead_ws_agree(s: Seq<char>, t: Seq<char>, k: int, p: int)
    requires
        s.len() == t.len(),
        0 <= k,
        forall|j: int| 0 <= j < p && j < s.len() ==> s[j] == t[j],
        lead_ws(s, k) < p,
    ensures
        lead_ws(t, k) == lead_ws(s, k),
    decreases s.len() - k,
{
    if 0 <= k < s.len() && is_ws(s[k]) {
        lemma_lead_ws_bounds(s, k + 1);
        assert(k < p);
        assert(t[k] == s[k]);
        lemma_lead_ws_agree(s, t, k + 1, p);
    } else if 0 <= k < s.len() {
        assert(t[k] == s[k]);
    }
}

} // verus!
