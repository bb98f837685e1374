//! Scores as fixed-point numbers.
//!
//! The scorer prints a single decimal number; the harness only ever compares
//! scores, adds them and subtracts them.  Scores are therefore held exactly,
//! in millionths of a unit, rather than in floating point.

use vstd::prelude::*;

verus! {

/// Millionths of a score unit in one unit.
pub const SCORE_SCALE: i64 = 1_000_000;

/// Largest magnitude a single score may take, in millionths.  Keeping single
/// scores within this bound lets suite-wide sums and deltas stay inside
/// `i64` (see `engine`).
pub const SCORE_ABS_MAX: i64 = 1_000_000_000_000_000;

/// A score, in millionths of a unit.
#[derive(Clone, Copy, PartialEq, Eq, Structural, Debug)]
pub struct Score {
    pub micros: i64,
}

impl View for Score {
    type V = int;

    open spec fn view(&self) -> int {
        self.micros as int
    }
}

/// The configured optimization direction.
#[derive(Clone, Copy, PartialEq, Eq, Structural, Debug)]
pub enum Optimize {
    Min,
    Max,
}

/// How the per-test scores combine into the reported total.
#[derive(Clone, Copy, PartialEq, Eq, Structural, Debug)]
pub enum ResultFunc {
    Sum,
    Avg,
}

/// `a` strictly improves on `b` under the direction `opt`.
pub open spec fn spec_better(opt: Optimize, a: int, b: int) -> bool {
    match opt {
        Optimize::Max => a > b,
        Optimize::Min => a < b,
    }
}

impl Score {
    /// The score is within the magnitude bound that suite arithmetic needs.
    pub open spec fn bounded(self) -> bool {
        -SCORE_ABS_MAX <= self.micros <= SCORE_ABS_MAX
    }

    /// Whether `self` strictly improves on `other` under `opt`.
    pub fn better_than(self, other: Score, opt: Optimize) -> (r: bool)
        ensures
            r == spec_better(opt, self@, other@),
    {
        match opt {
            Optimize::Max => self.micros > other.micros,
            Optimize::Min => self.micros < other.micros,
        }
    }
}

/// Division truncated toward zero, as the final `avg` step uses it.
pub open spec fn div_trunc(a: int, n: int) -> int
    recommends
        n > 0,
{
    if a >= 0 {
        a / n
    } else {
        -((-a) / n)
    }
}

// ------------------------------------------------------------------
// Parsing the scorer's output line.
// ------------------------------------------------------------------
pub open spec fn is_digit(c: char) -> bool {
    '0' <= c && c <= '9'
}

pub open spec fn digit_val(c: char) -> int {
    c as int - '0' as int
}

pub open spec fn all_digits(s: Seq<char>) -> bool {
    forall|i: int| 0 <= i < s.len() ==> is_digit(#[trigger] s[i])
}

/// The value of a digit string read in base ten.
pub open spec fn digits_val(s: Seq<char>) -> int
    decreases s.len(),
{
    if s.len() == 0 {
        0
    } else {
        10 * digits_val(s.drop_last()) + digit_val(s.last())
    }
}

pub open spec fn pow10(n: nat) -> int
    decreases n,
{
    if n == 0 {
        1
    } else {
        10 * pow10((n - 1) as nat)
    }
}

/// Index of the first `.` in `s`, or `s.len()` if there is none.
pub open spec fn dot_pos(s: Seq<char>) -> int
    decreases s.len(),
{
    if s.len() == 0 {
        0
    } else if s[0] == '.' {
        0
    } else {
        1 + dot_pos(s.skip(1))
    }
}

/// The body of a score (sign already stripped) is digits with at most one
/// point somewhere in them, and at least one digit in all.
pub open spec fn valid_score_body(s: Seq<char>) -> bool {
    let d = dot_pos(s);
    if d == s.len() {
        s.len() > 0 && all_digits(s)
    } else {
        let ip = s.take(d);
        let fp = s.skip(d + 1);
        all_digits(ip) && all_digits(fp) && ip.len() + fp.len() > 0
    }
}

/// Millionths contributed by the fractional digits: the first six count,
/// anything finer than a millionth is ignored.
pub open spec fn frac_micros(fp: Seq<char>) -> int {
    if fp.len() <= 6 {
        digits_val(fp) * pow10((6 - fp.len()) as nat)
    } else {
        digits_val(fp.take(6))
    }
}

/// The value of a valid score body, in millionths.
pub open spec fn score_body_micros(s: Seq<char>) -> int {
    let d = dot_pos(s);
    if d == s.len() {
        digits_val(s) * (SCORE_SCALE as int)
    } else {
        digits_val(s.take(d)) * (SCORE_SCALE as int) + frac_micros(s.skip(d + 1))
    }
}

/// What a score line means: an optional sign, then a decimal body; the value
/// must be within the score bound.  Anything else is rejected.
pub open spec fn score_of_chars(s: Seq<char>) -> Option<int> {
    if s.len() == 0 {
        None
    } else {
        let neg = s[0] == '-';
        let body = if s[0] == '-' || s[0] == '+' {
            s.skip(1)
        } else {
            s
        };
        if valid_score_body(body) {
            let v = if neg {
                -score_body_micros(body)
            } else {
                score_body_micros(body)
            };
            if -SCORE_ABS_MAX <= v <= SCORE_ABS_MAX {
                Some(v)
            } else {
                None
            }
        } else {
            None
        }
    }
}

proof fn lemma_dot_pos(s: Seq<char>)
    ensures
        0 <= dot_pos(s) <= s.len(),
        forall|j: int| 0 <= j < dot_pos(s) ==> s[j] != '.',
        dot_pos(s) < s.len() ==> s[dot_pos(s)] == '.',
    decreases s.len(),
{
    if s.len() == 0 {
    } else if s[0] == '.' {
    } else {
        lemma_dot_pos(s.skip(1));
        assert forall|j: int| 0 <= j < dot_pos(s) implies s[j] != '.' by {
            if j > 0 {
                assert(s.skip(1)[j - 1] == s[j]);
            }
        }
        if dot_pos(s) < s.len() {
            assert(s.skip(1)[dot_pos(s) - 1] == s[dot_pos(s)]);
        }
    }
}

proof fn lemma_digits_val_nonneg(s: Seq<char>)
    requires
        all_digits(s),
    ensures
        digits_val(s) >= 0,
    decreases s.len(),
{
    if s.len() > 0 {
        assert(all_digits(s.drop_last()));
        lemma_digits_val_nonneg(s.drop_last());
    }
}

/// Extending a digit string cannot shrink its value.
proof fn lemma_digits_val_prefix(s: Seq<char>, j: int)
    requires
        all_digits(s),
        0 <= j <= s.len(),
    ensures
        digits_val(s) >= digits_val(s.take(j)),
    decreases s.len() - j,
{
    if j < s.len() {
        lemma_digits_val_prefix(s, j + 1);
        assert(s.take(j + 1).drop_last() =~= s.take(j));
        assert(all_digits(s.take(j)));
        lemma_digits_val_nonneg(s.take(j));
        assert(digits_val(s.take(j + 1)) == 10 * digits_val(s.take(j)) + digit_val(s[j]));
    } else {
        assert(s.take(j) =~= s);
    }
}

proof fn lemma_digits_val_upper(s: Seq<char>)
    requires
        all_digits(s),
    ensures
        digits_val(s) < pow10(s.len()),
    decreases s.len(),
{
    if s.len() > 0 {
        assert(all_digits(s.drop_last()));
        lemma_digits_val_upper(s.drop_last());
    }
}

fn pow10_exec(n: u32) -> (r: i64)
    requires
        n <= 6,
    ensures
        r == pow10(n as nat),
{
    let mut r: i64 = 1;
    let mut k: u32 = 0;
    while k < n
        invariant
            k <= n <= 6,
            r == pow10(k as nat),
        decreases n - k,
    {
        proof {
            lemma_pow10_unfold(k as nat + 1);
            lemma_pow10_mono(k as nat, 5);
            lemma_pow10_bounds();
        }
        r = r * 10;
        k = k + 1;
    }
    r
}

proof fn lemma_pow10_unfold(n: nat)
    requires
        n >= 1,
    ensures
        pow10(n) == 10 * pow10((n - 1) as nat),
{
}

proof fn lemma_pow10_bounds()
    ensures
        pow10(0) == 1,
        pow10(1) == 10,
        pow10(2) == 100,
        pow10(3) == 1000,
        pow10(4) == 10000,
        pow10(5) == 100000,
        pow10(6) == 1000000,
        pow10(9) == 1_000_000_000,
{
    assert(pow10(0) == 1);
    assert(pow10(1) == 10);
    assert(pow10(2) == 100);
    assert(pow10(3) == 1000);
    assert(pow10(4) == 10000);
    assert(pow10(5) == 100000);
    assert(pow10(6) == 1000000);
    assert(pow10(7) == 10000000);
    assert(pow10(8) == 100000000);
    assert(pow10(9) == 1_000_000_000);
}

/// Parse a decimal score: an optional sign, digits, optionally a point and
/// more digits.  Digits beyond the sixth fractional place are ignored; a
/// value outside the score bound, or any other shape of input — exponent
/// notation and non-finite values included — is rejected, which the harness
/// treats as fatal.
pub fn parse_score(s: &str) -> (r: Option<Score>)
    ensures
        match r {
            Some(sc) => score_of_chars(s@) == Some(sc@),
            None => score_of_chars(s@) is None,
        },
{
    let n = s.unicode_len();
    if n == 0 {
        return None;
    }
    let first = s.get_char(0);
    let neg = first == '-';
    let b: usize = if first == '-' || first == '+' {
        1
    } else {
        0
    };
    let ghost body = s@.skip(b as int);
    proof {
        lemma_skip_zero(s@);
    }
    if b == n {
        return None;
    }

    // Integer part.
    let mut i = b;
    let mut acc: i64 = 0;
    while i < n && s.get_char(i) != '.'
        invariant
            b <= i <= n,
            n == s@.len(),
            b == 0 || b == 1,
            neg == (s@[0] == '-'),
            (b == 1) == (s@[0] == '-' || s@[0] == '+'),
            body == s@.skip(b as int),
            body.len() == n - b,
            all_digits(body.take(i - b)),
            forall|j: int| 0 <= j < i - b ==> body[j] != '.',
            acc == digits_val(body.take(i - b)),
            0 <= acc <= 1_000_000_000,
        decreases n - i,
    {
        let c = s.get_char(i);
        let cv = c as u32;
        proof {
            assert(body[i - b] == s@[i as int]);
            lemma_digit_code(c);
            lemma_skip_zero(s@);
        }
        if cv < 48 || cv > 57 {
            proof {
                lemma_invalid_body(body, i - b);
            }
            return None;
        }
        let d = (cv - 48) as i64;
        proof {
            assert(body.take(i - b + 1).drop_last() =~= body.take(i - b));
            assert(is_digit(body[i - b]) && digit_val(body[i - b]) == d);
        }
        if acc > 100_000_000 || (acc == 100_000_000 && d > 0) {
            // The integer part alone exceeds the score bound.
            proof {
                lemma_int_part_overflow(body, i - b + 1, 10 * acc + d);
            }
            return None;
        }
        acc = acc * 10 + d;
        i = i + 1;
    }

    proof {
        lemma_dot_pos(body);
        lemma_skip_zero(s@);
    }
    if i == n {
        // No fractional part.
        proof {
            assert(body.take(n - b) =~= body);
            if dot_pos(body) < body.len() {
                assert(false);
            }
            lemma_pow10_bounds();
            lemma_digits_val_nonneg(body);
        }
        let v = acc * SCORE_SCALE;
        let micros = if neg {
            -v
        } else {
            v
        };
        return Some(Score { micros });
    }

    // s[i] is the point.
    let ghost k = i - b;
    proof {
        assert(body[k] == s@[i as int]);
        if dot_pos(body) < k {
            assert(false);
        }
        assert(dot_pos(body) == k);
    }
    let int_digits = i - b;
    i = i + 1;
    let fstart = i;
    let ghost fp = body.skip(k + 1);
    let mut facc: i64 = 0;
    let mut fcnt: u32 = 0;
    while i < n
        invariant
            fstart <= i <= n,
            n == s@.len(),
            b == 0 || b == 1,
            neg == (s@[0] == '-'),
            (b == 1) == (s@[0] == '-' || s@[0] == '+'),
            body == s@.skip(b as int),
            body.len() == n - b,
            fp == body.skip(k + 1),
            k == fstart - 1 - b,
            int_digits == k,
            0 <= k < body.len(),
            body[k] == '.',
            dot_pos(body) == k,
            all_digits(body.take(k)),
            acc == digits_val(body.take(k)),
            0 <= acc <= 1_000_000_000,
            fp.len() == n - fstart,
            all_digits(fp.take(i - fstart)),
            fcnt == if i - fstart <= 6 {
                i - fstart
            } else {
                6
            },
            facc == digits_val(fp.take(fcnt as int)),
            0 <= facc < 1_000_000,
        decreases n - i,
    {
        let c = s.get_char(i);
        let cv = c as u32;
        proof {
            assert(fp[i - fstart] == body[i - b]);
            assert(body[i - b] == s@[i as int]);
            lemma_digit_code(c);
            lemma_skip_zero(s@);
        }
        if cv < 48 || cv > 57 {
            proof {
                lemma_invalid_frac(body, k, i - fstart);
            }
            return None;
        }
        proof {
            assert(fp.take(i - fstart + 1).drop_last() =~= fp.take(i - fstart));
            assert(is_digit(fp[i - fstart]) && digit_val(fp[i - fstart]) == cv - 48);
        }
        if fcnt < 6 {
            let d = (cv - 48) as i64;
            proof {
                assert(fp.take(fcnt as int + 1).drop_last() =~= fp.take(fcnt as int));
                assert(all_digits(fp.take(fcnt as int + 1)));
                lemma_digits_val_upper(fp.take(fcnt as int + 1));
                lemma_pow10_bounds();
                lemma_pow10_mono((fcnt + 1) as nat, 6);
            }
            facc = facc * 10 + d;
            fcnt = fcnt + 1;
        }
        i = i + 1;
    }

    proof {
        lemma_skip_zero(s@);
    }
    if int_digits == 0 && fstart == n {
        // A bare point: no digits at all.
        return None;
    }

    // The body is valid; assemble the value.
    proof {
        assert(fp.take(fp.len() as int) =~= fp);
        assert(all_digits(fp));
        lemma_pow10_bounds();
        lemma_digits_val_nonneg(fp);
        if fp.len() > 6 {
            assert(fcnt == 6);
        }
        lemma_pow10_mono(0, (6 - fcnt) as nat);
        lemma_pow10_mono((6 - fcnt) as nat, 6);
    }
    let mult = pow10_exec(6 - fcnt);
    proof {
        assert(0 <= facc * mult && facc * mult < 1_000_000 * 1_000_000) by (nonlinear_arith)
            requires
                0 <= facc < 1_000_000,
                1 <= mult <= 1_000_000,
        ;
        lemma_frac_micros_value(fp, facc as int, fcnt as nat);
    }
    let fmic = facc * mult;
    let v = acc * SCORE_SCALE + fmic;
    if v > SCORE_ABS_MAX {
        return None;
    }
    let micros = if neg {
        -v
    } else {
        v
    };
    Some(Score { micros })
}

proof fn lemma_skip_zero(s: Seq<char>)
    ensures
        s.skip(0) =~= s,
{
}

// ------------------------------------------------------------------
// Whitespace around the scorer's line.
// ------------------------------------------------------------------
pub open spec fn is_space_char(c: char) -> bool {
    c == ' ' || c == '\n' || c == '\t' || c == '\r'
}

/// How many blank characters open `s`.
pub open spec fn ltrim_pos(s: Seq<char>) -> int
    decreases s.len(),
{
    if s.len() == 0 {
        0
    } else if is_space_char(s[0]) {
        1 + ltrim_pos(s.skip(1))
    } else {
        0
    }
}

/// Where the blank tail of `s` begins.
pub open spec fn rtrim_pos(s: Seq<char>) -> int
    decreases s.len(),
{
    if s.len() == 0 {
        0
    } else if is_space_char(s.last()) {
        rtrim_pos(s.drop_last())
    } else {
        s.len() as int
    }
}

/// `s` without leading and trailing blanks.
pub open spec fn trimmed(s: Seq<char>) -> Seq<char> {
    let t = s.take(rtrim_pos(s));
    t.skip(ltrim_pos(t))
}

proof fn lemma_rtrim_unique(s: Seq<char>, h: int)
    requires
        0 <= h <= s.len(),
        forall|j: int| h <= j < s.len() ==> is_space_char(#[trigger] s[j]),
        h == 0 || !is_space_char(s[h - 1]),
    ensures
        rtrim_pos(s) == h,
    decreases s.len(),
{
    if s.len() == 0 {
    } else if is_space_char(s.last()) {
        assert(h < s.len());
        assert(forall|j: int| h <= j < s.drop_last().len() ==> is_space_char(
            #[trigger] s.drop_last()[j],
        ));
        lemma_rtrim_unique(s.drop_last(), h);
    } else {
        assert(h == s.len());
    }
}

proof fn lemma_ltrim_unique(s: Seq<char>, l: int)
    requires
        0 <= l <= s.len(),
        forall|j: int| 0 <= j < l ==> is_space_char(#[trigger] s[j]),
        l == s.len() || !is_space_char(s[l]),
    ensures
        ltrim_pos(s) == l,
    decreases s.len(),
{
    if s.len() == 0 {
    } else if is_space_char(s[0]) {
        assert(l >= 1);
        assert(forall|j: int| 0 <= j < l - 1 ==> is_space_char(#[trigger] s.skip(1)[j]));
        lemma_ltrim_unique(s.skip(1), l - 1);
    } else {
        assert(l == 0);
    }
}

fn is_space_exec(c: char) -> (r: bool)
    ensures
        r == is_space_char(c),
{
    c == ' ' || c == '\n' || c == '\t' || c == '\r'
}

/// Strip blanks from both ends of the line.
pub fn trim_blank(s: &str) -> (r: &str)
    ensures
        r@ == trimmed(s@),
{
    let n = s.unicode_len();
    let mut hi = n;
    while hi > 0 && is_space_exec(s.get_char(hi - 1))
        invariant
            0 <= hi <= n,
            n == s@.len(),
            forall|j: int| hi <= j < n ==> is_space_char(#[trigger] s@[j]),
        decreases hi,
    {
        hi = hi - 1;
    }
    proof {
        lemma_rtrim_unique(s@, hi as int);
    }
    let ghost t = s@.take(hi as int);
    let mut lo: usize = 0;
    while lo < hi && is_space_exec(s.get_char(lo))
        invariant
            0 <= lo <= hi <= n,
            n == s@.len(),
            t == s@.take(hi as int),
            forall|j: int| 0 <= j < lo ==> is_space_char(#[trigger] s@[j]),
        decreases hi - lo,
    {
        lo = lo + 1;
    }
    proof {
        assert(forall|j: int| 0 <= j < lo ==> is_space_char(#[trigger] t[j]));
        if lo < hi {
            assert(t[lo as int] == s@[lo as int]);
        }
        lemma_ltrim_unique(t, lo as int);
        assert(s@.subrange(lo as int, hi as int) =~= t.skip(lo as int));
    }
    s.substring_char(lo, hi)
}

/// What the scorer's output line means once surrounding blanks are ignored.
pub open spec fn score_of_line(s: Seq<char>) -> Option<int> {
    score_of_chars(trimmed(s))
}

/// Parse the scorer's single output line: blanks around the number are
/// ignored; the number itself must be a decimal score within bounds.
pub fn parse_score_line(s: &str) -> (r: Option<Score>)
    ensures
        match r {
            Some(sc) => score_of_line(s@) == Some(sc@) && sc.bounded(),
            None => score_of_line(s@) is None,
        },
{
    let t = trim_blank(s);
    parse_score(t)
}

/// Divide a total by the test count, truncating toward zero, as the `avg`
/// result function asks.
pub fn score_div(total: i64, n: usize) -> (r: i64)
    requires
        n > 0,
        n <= 1_000_000,
        -9_000_000_000_000_000_000 <= total <= 9_000_000_000_000_000_000,
    ensures
        r == div_trunc(total as int, n as int),
{
    if total >= 0 {
        let q = (total as u64) / (n as u64);
        q as i64
    } else {
        let m = (-total) as u64;
        let q = m / (n as u64);
        -(q as i64)
    }
}

proof fn lemma_pow10_mono(a: nat, b: nat)
    requires
        a <= b,
    ensures
        pow10(a) <= pow10(b),
        pow10(a) >= 1,
    decreases b,
{
    if a < b {
        lemma_pow10_mono(a, (b - 1) as nat);
    } else if b > 0 {
        lemma_pow10_mono((a - 1) as nat, (b - 1) as nat);
    }
}

/// `frac_micros` of a short fractional part is below one unit.
proof fn lemma_frac_micros_bound(fp: Seq<char>)
    requires
        all_digits(fp),
        fp.len() <= 6,
    ensures
        0 <= frac_micros(fp) < 1_000_000,
{
    lemma_digits_val_nonneg(fp);
    lemma_digits_val_upper(fp);
    lemma_pow10_bounds();
    let l = fp.len();
    let m = (6 - l) as nat;
    lemma_pow10_mono(0, m);
    assert(0 <= digits_val(fp) * pow10(m) && digits_val(fp) * pow10(m) < pow10(l) * pow10(m))
        by (nonlinear_arith)
        requires
            0 <= digits_val(fp),
            digits_val(fp) < pow10(l),
            pow10(m) >= 1,
    ;
    lemma_pow10_split(l, m);
}

/// Character codes of the decimal digits.
proof fn lemma_digit_code(c: char)
    ensures
        is_digit(c) <==> (48 <= c as int <= 57),
        is_digit(c) ==> digit_val(c) == c as int - 48,
{
}

proof fn lemma_pow10_split(a: nat, b: nat)
    ensures
        pow10(a + b) == pow10(a) * pow10(b),
    decreases a,
{
    if a > 0 {
        lemma_pow10_split((a - 1) as nat, b);
        assert(pow10(a + b) == 10 * pow10((a + b - 1) as nat));
        assert(pow10(a) * pow10(b) == 10 * (pow10((a - 1) as nat) * pow10(b)))
            by (nonlinear_arith)
            requires
                pow10(a) == 10 * pow10((a - 1) as nat),
        ;
    }
}

/// The accumulated fractional digits equal `frac_micros` once the scan is
/// done.
proof fn lemma_frac_micros_value(fp: Seq<char>, facc: int, fcnt: nat)
    requires
        all_digits(fp),
        fcnt == if fp.len() <= 6 {
            fp.len()
        } else {
            6
        },
        facc == digits_val(fp.take(fcnt as int)),
    ensures
        frac_micros(fp) == facc * pow10((6 - fcnt) as nat),
{
    if fp.len() <= 6 {
        assert(fp.take(fcnt as int) =~= fp);
    } else {
        lemma_pow10_bounds();
    }
}

/// A non-digit, non-point character sitting before any point makes the body
/// invalid.
proof fn lemma_invalid_body(body: Seq<char>, p: int)
    requires
        0 <= p < body.len(),
        !is_digit(body[p]),
        body[p] != '.',
        forall|j: int| 0 <= j < p ==> body[j] != '.',
    ensures
        !valid_score_body(body),
{
    lemma_dot_pos(body);
    if dot_pos(body) <= p {
        assert(body[dot_pos(body)] == '.');
    }
    let d = dot_pos(body);
    if d == body.len() {
    } else {
        assert(body.take(d)[p] == body[p]);
    }
}

/// A non-digit after the point makes the body invalid.
proof fn lemma_invalid_frac(body: Seq<char>, k: int, q: int)
    requires
        0 <= k < body.len(),
        dot_pos(body) == k,
        0 <= q < body.skip(k + 1).len(),
        !is_digit(body.skip(k + 1)[q]),
    ensures
        !valid_score_body(body),
{
}

/// Once the integer part is past the bound, the whole score is out of range
/// whatever follows.
proof fn lemma_int_part_overflow(body: Seq<char>, p: int, acc: int)
    requires
        0 <= p <= body.len(),
        all_digits(body.take(p)),
        forall|j: int| 0 <= j < p ==> body[j] != '.',
        acc == digits_val(body.take(p)),
        acc > 1_000_000_000,
    ensures
        valid_score_body(body) ==> score_body_micros(body) > SCORE_ABS_MAX,
{
    lemma_dot_pos(body);
    if valid_score_body(body) {
        let d = dot_pos(body);
        if d < p {
            assert(body[d] == '.');
            assert(false);
        }
        if d == body.len() {
            lemma_digits_val_prefix(body, p);
            assert(body.take(body.len() as int) =~= body);
            assert(digits_val(body) >= acc);
        } else {
            let ip = body.take(d);
            assert(ip.take(p) =~= body.take(p));
            lemma_digits_val_prefix(ip, p);
            assert(digits_val(ip) >= acc);
            let fp = body.skip(d + 1);
            if fp.len() <= 6 {
                lemma_frac_micros_bound(fp);
            } else {
                assert(all_digits(fp.take(6)));
                lemma_digits_val_nonneg(fp.take(6));
            }
        }
    }
}

} // verus!
