use vstd::prelude::*;
use vstd::arithmetic::div_mod::{lemma_fundamental_div_mod, lemma_mod_pos_bound};
use vstd::string::StrSliceExecFns;

use crate::text::{decimal, push_decimal, string_push};

verus! {

/// Drops a decimal digit from the timestamp for each one the resolution
/// has beyond the first; returns the timestamp and the digits dropped
/// (added to `off`).
pub open spec fn reduce_resolution(ts: nat, res: nat, off: int) -> (nat, int)
    decreases res,
{
    if res >= 10 {
        reduce_resolution(ts / 10, res / 10, off + 1)
    } else {
        (ts, off)
    }
}

/// `ts` times ten, `n` times over.
pub open spec fn scale_up(ts: nat, n: int) -> nat
    decreases n,
{
    if n <= 0 {
        ts
    } else {
        scale_up(ts * 10, n - 1)
    }
}

/// How many times 1000 divides into `ts` while keeping it at least 1000:
/// the number of digit groups beyond the first.
pub open spec fn groups(ts: nat) -> nat
    decreases ts,
{
    if ts >= 1000 {
        1 + groups(ts / 1000)
    } else {
        0
    }
}

pub open spec fn pow1000(k: nat) -> nat
    decreases k,
{
    if k == 0 {
        1
    } else {
        1000 * pow1000((k - 1) as nat)
    }
}

/// The number of extra powers of ten needed to reach a multiple of three,
/// as the remainder of a truncating division (3, not 0, for a negative
/// multiple of three).
pub open spec fn pad3(p: int) -> int {
    if p < 0 {
        3 - ((-p) % 3)
    } else {
        p % 3
    }
}

/// Unit of time for the power of ten `e`.
pub open spec fn unit_name(e: int) -> Seq<char> {
    if e == -15 {
        seq!['f', 's']
    } else if e == -12 {
        seq!['p', 's']
    } else if e == -9 {
        seq!['n', 's']
    } else if e == -6 {
        seq!['u', 's']
    } else if e == -3 {
        seq!['m', 's']
    } else if e == 0 {
        seq!['s']
    } else if e == 3 {
        seq!['K', 's']
    } else if e == 6 {
        seq!['M', 's']
    } else if e == 9 {
        seq!['G', 's']
    } else if e == 12 {
        seq!['P', 's']
    } else if e == 15 {
        seq!['E', 's']
    } else {
        seq!['(', 'e', 'r', 'r', ')']
    }
}

/// The timestamp (in units of 10^-timescale) shown to the precision of
/// `resolution`, scaled to an engineering unit: whole part, a dot and the
/// rest when above 1000, then the unit.
pub open spec fn render_time_spec(timestamp: nat, resolution: nat, timescale: int) -> Seq<char> {
    let (t1, off) = reduce_resolution(timestamp, resolution, 0);
    let p = off - timescale;
    let rem = pad3(p);
    let t2 = scale_up(t1, rem);
    let g = groups(t2);
    let d = pow1000(g);
    let unit = unit_name(p - rem + 3 * g);
    if g > 0 {
        decimal(t2 / d) + seq!['.'] + decimal(t2 % d) + unit
    } else {
        decimal(t2) + unit
    }
}

/// `render_time` computes within its integer types.
pub open spec fn render_time_ok(timestamp: nat, resolution: nat, timescale: int) -> bool {
    let (t1, off) = reduce_resolution(timestamp, resolution, 0);
    let p = off - timescale;
    &&& p <= i32::MAX
    &&& p - pad3(p) >= i32::MIN
    &&& scale_up(t1, pad3(p)) < 1_000_000_000_000_000_000
    &&& p - pad3(p) + 3 * groups(scale_up(t1, pad3(p))) <= i32::MAX
}

proof fn lemma_reduce_mono(ts: nat, res: nat, off: int)
    ensures
        off <= reduce_resolution(ts, res, off).1,
        res < 10 ==> reduce_resolution(ts, res, off).1 == off,
    decreases res,
{
    if res >= 10 {
        lemma_reduce_mono(ts / 10, res / 10, off + 1);
    }
}

proof fn lemma_reduce_depth(ts: nat, res: nat, off: int, k: nat)
    requires
        res < pow10(k),
    ensures
        reduce_resolution(ts, res, off).1 <= off + k,
    decreases res,
{
    if res >= 10 {
        assert(k > 0) by {
            if k == 0 {
                assert(pow10(0) == 1);
            }
        }
        assert(res / 10 < pow10((k - 1) as nat)) by {
            assert(pow10(k) == 10 * pow10((k - 1) as nat));
        }
        lemma_reduce_depth(ts / 10, res / 10, off + 1, (k - 1) as nat);
    }
}

pub open spec fn pow10(k: nat) -> nat
    decreases k,
{
    if k == 0 {
        1
    } else {
        10 * pow10((k - 1) as nat)
    }
}

fn push_unit(s: &mut String, e: i32)
    ensures
        final(s)@ == old(s)@ + unit_name(e as int),
{
    let ghost start = s@;
    if e == -15 {
        string_push(s, 'f');
        string_push(s, 's');
    } else if e == -12 {
        string_push(s, 'p');
        string_push(s, 's');
    } else if e == -9 {
        string_push(s, 'n');
        string_push(s, 's');
    } else if e == -6 {
        string_push(s, 'u');
        string_push(s, 's');
    } else if e == -3 {
        string_push(s, 'm');
        string_push(s, 's');
    } else if e == 0 {
        string_push(s, 's');
    } else if e == 3 {
        string_push(s, 'K');
        string_push(s, 's');
    } else if e == 6 {
        string_push(s, 'M');
        string_push(s, 's');
    } else if e == 9 {
        string_push(s, 'G');
        string_push(s, 's');
    } else if e == 12 {
        string_push(s, 'P');
        string_push(s, 's');
    } else if e == 15 {
        string_push(s, 'E');
        string_push(s, 's');
    } else {
        string_push(s, '(');
        string_push(s, 'e');
        string_push(s, 'r');
        string_push(s, 'r');
        string_push(s, ')');
    }
    assert(s@ =~= start + unit_name(e as int));
}

/// Formats a timestamp (in units of 10^-timescale) to the precision of
/// `resolution`, in an engineering unit (fs, ps, ns, us, ms, s, Ks, ...).
pub fn render_time(timestamp: u64, resolution: u64, timescale: i32) -> (r: String)
    requires
        render_time_ok(timestamp as nat, resolution as nat, timescale as int),
    ensures
        r@ == render_time_spec(timestamp as nat, resolution as nat, timescale as int),
        exists|w: nat, f: nat, g: nat, k: nat, e: int|
            #![trigger label_text(w, f, g, e), pow10(k)]
            r@ == label_text(w, f, g, e) && f < pow1000(g) && w * pow1000(g) + f == reduce_resolution(
                timestamp as nat,
                resolution as nat,
                0,
            ).0 * pow10(k) && e - 3 * g + k == reduce_resolution(timestamp as nat, resolution as nat, 0).1
                - timescale && k <= 3,
{
    proof {
        lemma_render_time_value(timestamp as nat, resolution as nat, timescale as int);
    }
    let mut ts = timestamp;
    let mut res = resolution;
    let mut offset: i32 = 0;
    proof {
        reveal_with_fuel(pow10, 21);
        assert(pow10(20) == 100_000_000_000_000_000_000);
        lemma_reduce_depth(timestamp as nat, resolution as nat, 0, 20);
        lemma_reduce_mono(timestamp as nat, resolution as nat, 0);
    }
    while res >= 10
        invariant
            reduce_resolution(timestamp as nat, resolution as nat, 0) == reduce_resolution(
                ts as nat,
                res as nat,
                offset as int,
            ),
            0 <= offset,
            offset <= reduce_resolution(timestamp as nat, resolution as nat, 0).1,
            reduce_resolution(timestamp as nat, resolution as nat, 0).1 <= 20,
        decreases res,
    {
        ts /= 10;
        res /= 10;
        offset += 1;
        proof {
            lemma_reduce_mono(ts as nat, res as nat, offset as int);
        }
    }
    proof {
        lemma_reduce_mono(ts as nat, res as nat, offset as int);
    }
    let p = offset - timescale;
    let rem: i32 = if p < 0 {
        3 - ((-p) % 3)
    } else {
        p % 3
    };
    let p2 = p - rem;
    let ghost t1 = ts as nat;
    let mut k: i32 = 0;
    while k < rem
        invariant
            0 <= k <= rem <= 3,
            scale_up(t1, rem as int) == scale_up(ts as nat, (rem - k) as int),
            scale_up(t1, rem as int) < 1_000_000_000_000_000_000,
        decreases rem - k,
    {
        proof {
            lemma_scale_up_ge(ts as nat * 10, (rem - k - 1) as int);
        }
        ts *= 10;
        k += 1;
    }
    let t2 = ts;
    let mut divider: u64 = 1;
    let mut ts_offset: i32 = 0;
    let ghost mut j: nat = 0;
    proof {
        reveal_with_fuel(pow1000, 7);
        assert(pow1000(5) == 1_000_000_000_000_000);
        assert(t2 as nat / 1 == t2 as nat);
    }
    while ts >= 1000 * divider
        invariant
            ts == t2,
            t2 < 1_000_000_000_000_000_000,
            divider == pow1000(j),
            divider <= 1_000_000_000_000_000,
            pow1000(5) == 1_000_000_000_000_000,
            ts_offset == 3 * j,
            j <= 5,
            groups(t2 as nat) == j + groups(t2 as nat / divider as nat),
        decreases t2 - divider,
    {
        proof {
            lemma_pow1000_pos(j);
            lemma_groups_step(t2 as nat, divider as nat);
            if j == 5 {
                assert(false);
            }
            assert(pow1000(j + 1) == 1000 * pow1000(j));
            lemma_pow1000_mono(j + 1, 5);
        }
        divider *= 1000;
        ts_offset += 3;
        proof {
            j = j + 1;
        }
    }
    proof {
        lemma_pow1000_pos(j);
        lemma_groups_step(t2 as nat, divider as nat);
    }
    let mut s = String::new();
    if ts_offset > 0 {
        push_decimal(&mut s, ts / divider);
        string_push(&mut s, '.');
        push_decimal(&mut s, ts % divider);
    } else {
        push_decimal(&mut s, ts);
    }
    push_unit(&mut s, p2 + ts_offset);
    proof {
        assert(groups(t2 as nat) == j);
        if j == 0 {
            assert(t2 as nat / 1 == t2 as nat);
        }
    }
    s
}

/// A label as a number and a unit: the whole part `w`, with `f` behind a
/// point when there are `g > 0` groups of three digits behind it, then the
/// unit of the power of ten `e`.
pub open spec fn label_text(w: nat, f: nat, g: nat, e: int) -> Seq<char> {
    (if g > 0 {
        decimal(w) + seq!['.'] + decimal(f)
    } else {
        decimal(w)
    }) + unit_name(e)
}

proof fn lemma_scale_up_pow(ts: nat, n: nat)
    ensures
        scale_up(ts, n as int) == ts * pow10(n),
    decreases n,
{
    if n > 0 {
        lemma_scale_up_pow(ts * 10, (n - 1) as nat);
        assert(scale_up(ts, n as int) == scale_up(ts * 10, n - 1));
        assert(pow10(n) == 10 * pow10((n - 1) as nat));
        assert(ts * 10 * pow10((n - 1) as nat) == ts * (10 * pow10((n - 1) as nat))) by (nonlinear_arith);
    } else {
        assert(pow10(0) == 1);
        assert(scale_up(ts, 0) == ts);
    }
}

/// The label of a time denotes that time. It reads as a number `w.f` (`f`
/// below `1000^g`) in the unit `10^e`; that number, times `10^(e - 3g)`,
/// is the timestamp at the kept precision, `t1` times `10^(off -
/// timescale)`: `w * 1000^g + f == t1 * 10^k` with `e - 3g + k == off -
/// timescale`, where `k` (at most 3) is the number of digits the timestamp
/// was scaled up by to reach an engineering unit.
pub proof fn lemma_render_time_value(timestamp: nat, resolution: nat, timescale: int)
    ensures
        exists|w: nat, f: nat, g: nat, k: nat, e: int|
            #![trigger label_text(w, f, g, e), pow10(k)]
            render_time_spec(timestamp, resolution, timescale) == label_text(w, f, g, e) && f < pow1000(g)
                && w * pow1000(g) + f == reduce_resolution(timestamp, resolution, 0).0 * pow10(k) && e
                - 3 * g + k == reduce_resolution(timestamp, resolution, 0).1 - timescale && k <= 3,
{
    let (t1, off) = reduce_resolution(timestamp, resolution, 0);
    let p = off - timescale;
    let rem = pad3(p);
    let k = rem as nat;
    let t2 = scale_up(t1, rem);
    let g = groups(t2);
    let d = pow1000(g);
    let e = p - rem + 3 * g;
    lemma_scale_up_pow(t1, k);
    lemma_pow1000_pos(g);
    let w = t2 / d;
    let f = t2 % d;
    lemma_fundamental_div_mod(t2 as int, d as int);
    lemma_mod_pos_bound(t2 as int, d as int);
    assert(w * d + f == t2) by (nonlinear_arith)
        requires
            t2 == d * (t2 / d) + t2 % d,
            w == t2 / d,
            f == t2 % d,
    ;
    let unit = unit_name(e);
    if g > 0 {
        assert(render_time_spec(timestamp, resolution, timescale) == decimal(t2 / d) + seq!['.'] + decimal(
            t2 % d,
        ) + unit);
    } else {
        assert(render_time_spec(timestamp, resolution, timescale) == decimal(t2) + unit);
        assert(d == 1);
        assert(t2 / 1 == t2);
    }
    assert(render_time_spec(timestamp, resolution, timescale) == label_text(w, f, g, e));
    assert(pow10(k) == pow10(k));
}

/// Whether `render_time` can render `timestamp` at `resolution` (see
/// `render_time_ok`).
pub fn render_time_fits(timestamp: u64, resolution: u64, timescale: i32) -> (r: bool)
    ensures
        r == render_time_ok(timestamp as nat, resolution as nat, timescale as int),
{
    let mut ts = timestamp;
    let mut res = resolution;
    let mut offset: i64 = 0;
    proof {
        reveal_with_fuel(pow10, 21);
        assert(pow10(20) == 100_000_000_000_000_000_000);
        lemma_reduce_depth(timestamp as nat, resolution as nat, 0, 20);
        lemma_reduce_mono(timestamp as nat, resolution as nat, 0);
    }
    while res >= 10
        invariant
            reduce_resolution(timestamp as nat, resolution as nat, 0) == reduce_resolution(
                ts as nat,
                res as nat,
                offset as int,
            ),
            0 <= offset,
            offset <= reduce_resolution(timestamp as nat, resolution as nat, 0).1,
            reduce_resolution(timestamp as nat, resolution as nat, 0).1 <= 20,
        decreases res,
    {
        ts /= 10;
        res /= 10;
        offset += 1;
        proof {
            lemma_reduce_mono(ts as nat, res as nat, offset as int);
        }
    }
    proof {
        lemma_reduce_mono(ts as nat, res as nat, offset as int);
    }
    let p: i64 = offset - timescale as i64;
    if p > i32::MAX as i64 {
        return false;
    }
    let rem: i64 = if p < 0 {
        3 - ((-p) % 3)
    } else {
        p % 3
    };
    if p - rem < i32::MIN as i64 {
        return false;
    }
    let ghost t1 = ts as nat;
    let mut t2: u128 = ts as u128;
    let mut k: i64 = 0;
    while k < rem
        invariant
            0 <= k <= rem <= 3,
            scale_up(t1, rem as int) == scale_up(t2 as nat, (rem - k) as int),
            k == 0 ==> t2 <= 18_446_744_073_709_551_615,
            k == 1 ==> t2 <= 184_467_440_737_095_516_150,
            k == 2 ==> t2 <= 1_844_674_407_370_955_161_500,
            k == 3 ==> t2 <= 18_446_744_073_709_551_615_000,
        decreases rem - k,
    {
        t2 = t2 * 10;
        k += 1;
    }
    if t2 >= 1_000_000_000_000_000_000 {
        return false;
    }
    let mut divider: u128 = 1;
    let mut ts_offset: i64 = 0;
    let ghost mut j: nat = 0;
    proof {
        reveal_with_fuel(pow1000, 7);
        assert(pow1000(5) == 1_000_000_000_000_000);
        assert(t2 as nat / 1 == t2 as nat);
    }
    while t2 >= 1000 * divider
        invariant
            t2 < 1_000_000_000_000_000_000,
            divider == pow1000(j),
            divider <= 1_000_000_000_000_000,
            pow1000(5) == 1_000_000_000_000_000,
            ts_offset == 3 * j,
            j <= 5,
            groups(t2 as nat) == j + groups(t2 as nat / divider as nat),
        decreases t2 - divider,
    {
        proof {
            lemma_pow1000_pos(j);
            lemma_groups_step(t2 as nat, divider as nat);
            if j == 5 {
                assert(false);
            }
            assert(pow1000(j + 1) == 1000 * pow1000(j));
            lemma_pow1000_mono(j + 1, 5);
        }
        divider *= 1000;
        ts_offset += 3;
        proof {
            j = j + 1;
        }
    }
    proof {
        lemma_pow1000_pos(j);
        lemma_groups_step(t2 as nat, divider as nat);
        assert(groups(t2 as nat) == j);
    }
    p - rem + ts_offset <= i32::MAX as i64
}

proof fn lemma_scale_up_ge(ts: nat, n: int)
    ensures
        scale_up(ts, n) >= ts,
    decreases n,
{
    if n > 0 {
        lemma_scale_up_ge(ts * 10, n - 1);
    }
}

proof fn lemma_pow1000_mono(j: nat, k: nat)
    requires
        j <= k,
    ensures
        pow1000(j) <= pow1000(k),
    decreases k,
{
    if j < k {
        lemma_pow1000_mono(j, (k - 1) as nat);
        lemma_pow1000_pos((k - 1) as nat);
    }
}

proof fn lemma_pow1000_pos(j: nat)
    ensures
        pow1000(j) >= 1,
    decreases j,
{
    if j > 0 {
        lemma_pow1000_pos((j - 1) as nat);
    }
}

/// One more step of the divider loop: `t / d >= 1000` exactly when
/// `t >= 1000 * d`, and then dividing by 1000 more drops one group.
proof fn lemma_groups_step(t: nat, d: nat)
    requires
        d >= 1,
    ensures
        (t / d >= 1000) == (t >= 1000 * d),
        t / d >= 1000 ==> groups(t / d) == 1 + groups(t / (1000 * d)),
        t / d >= 1000 ==> d <= t,
{
    vstd::arithmetic::div_mod::lemma_div_denominator(t as int, d as int, 1000);
    vstd::arithmetic::div_mod::lemma_fundamental_div_mod(t as int, d as int);
    assert((t / d >= 1000) == (t >= 1000 * d)) by (nonlinear_arith)
        requires
            d >= 1,
            t == d * (t / d) + t % d,
            0 <= t % d < d,
    ;
    assert(d * 1000 == 1000 * d) by (nonlinear_arith);
}


/// The visible time range, the cursor, the timescale (a time is the
/// timestamp times 10^-timescale) and the last timestamp of the waveform.
pub struct WaveformTimeView {
    pub start: nat,
    pub end: nat,
    pub cursor: nat,
    pub timescale: int,
    pub max: nat,
}

impl WaveformTimeView {
    /// Width of the visible range (1 when it is empty or reversed).
    pub open spec fn width(self) -> nat {
        if self.start < self.end {
            (self.end - self.start) as nat
        } else {
            1
        }
    }

    /// Time covered by one character of a ruler `width` characters wide.
    pub open spec fn ruler_step(self, width: nat) -> nat {
        if width > 0 {
            ((self.end - self.start) / (width as int)) as nat
        } else {
            0
        }
    }

    pub open spec fn center(self) -> nat {
        (self.start + self.end) / 2
    }

    /// The range moved left by half its width, stopping at 0.
    pub open spec fn after_zoom_left(self) -> WaveformTimeView {
        let half = self.width() / 2;
        if self.start > half {
            self.with_range((self.start - half) as nat, (self.end - half) as nat)
        } else {
            self.with_range(0, self.width())
        }
    }

    /// The range moved right by half its width, stopping half a width past
    /// the last timestamp.
    pub open spec fn after_zoom_right(self) -> WaveformTimeView {
        let half = self.width() / 2;
        if self.end < self.max + half {
            self.with_range(self.start + half, self.end + half)
        } else {
            self.with_range((self.max - half) as nat, self.max + half)
        }
    }

    /// The range halved about its center.
    pub open spec fn after_zoom_in(self) -> WaveformTimeView {
        self.with_range((self.start + self.center()) / 2, (self.end + self.center()) / 2)
    }

    /// The range doubled about its center (or from 0 when the center is
    /// less than a width from it).
    pub open spec fn after_zoom_out(self) -> WaveformTimeView {
        if self.center() >= self.width() {
            self.with_range((self.center() - self.width()) as nat, self.center() + self.width())
        } else {
            self.with_range(0, self.width() * 2)
        }
    }

    /// Moving right by half a width stays within `u64`.
    pub open spec fn zoom_right_ok(self) -> bool {
        &&& self.max + self.width() / 2 <= u64::MAX
        &&& self.end < self.max + self.width() / 2 ==> self.end + self.width() / 2 <= u64::MAX
        &&& !(self.end < self.max + self.width() / 2) ==> self.max >= self.width() / 2
    }

    /// Halving the range about its center stays within `u64`.
    pub open spec fn zoom_in_ok(self) -> bool {
        &&& self.start + self.end <= u64::MAX
        &&& self.start + self.center() <= u64::MAX
        &&& self.end + self.center() <= u64::MAX
    }

    /// Doubling the range about its center stays within `u64`.
    pub open spec fn zoom_out_ok(self) -> bool {
        &&& self.start + self.end <= u64::MAX
        &&& self.center() >= self.width() ==> self.center() + self.width() <= u64::MAX
        &&& self.center() < self.width() ==> self.width() * 2 <= u64::MAX
    }

    pub open spec fn with_range(self, start: nat, end: nat) -> WaveformTimeView {
        WaveformTimeView { start, end, ..self }
    }
}

/// Zooming out doubles the width of the range; the range stays centred
/// where it was unless it would start before 0, and then starts at 0.
pub proof fn lemma_zoom_out_doubles(v: WaveformTimeView)
    ensures
        v.after_zoom_out().end - v.after_zoom_out().start == 2 * v.width(),
        v.after_zoom_out().start > 0 ==> v.after_zoom_out().start + v.after_zoom_out().end == 2
            * v.center(),
        v.after_zoom_out().start <= v.center(),
        v.after_zoom_out().cursor == v.cursor,
        v.after_zoom_out().timescale == v.timescale,
        v.after_zoom_out().max == v.max,
{
}

/// Zooming in keeps the range within the old one and halves its width
/// (to within rounding).
pub proof fn lemma_zoom_in_halves(v: WaveformTimeView)
    ensures
        v.start <= v.end ==> v.start <= v.after_zoom_in().start && v.after_zoom_in().end <= v.end,
        v.start <= v.end ==> v.end - v.start - 1 <= 2 * (v.after_zoom_in().end - v.after_zoom_in().start)
            <= v.end - v.start + 1,
{
}

/// Moving left keeps the width of a range that is not empty or reversed,
/// and never moves the range right.
pub proof fn lemma_zoom_left_keeps_width(v: WaveformTimeView)
    ensures
        v.start < v.end ==> v.after_zoom_left().end - v.after_zoom_left().start == v.end - v.start,
        v.after_zoom_left().start <= v.start,
{
}

/// The ruler labels from `cur` on, each a `|` and the time, until `width`
/// characters are filled (`w` are filled already).
pub open spec fn ruler_from(cur: nat, step: nat, timescale: int, w: nat, width: nat) -> Seq<
    Seq<char>,
>
    decreases (if w < width {
        width - w
    } else {
        0
    }),
{
    if w >= width {
        Seq::empty()
    } else {
        let label = seq!['|'] + render_time_spec(cur, step, timescale);
        proof {
            assert(label.len() >= 1);
        }
        seq![label] + ruler_from(
            cur + step * label.len(),
            step,
            timescale,
            w + label.len(),
            width,
        )
    }
}

/// Every label of the ruler can be computed within `u64`.
pub open spec fn ruler_ok(cur: nat, step: nat, timescale: int, w: nat, width: nat) -> bool
    decreases (if w < width {
        width - w
    } else {
        0
    }),
{
    if w >= width {
        true
    } else {
        let label = seq!['|'] + render_time_spec(cur, step, timescale);
        proof {
            assert(label.len() >= 1);
        }
        &&& render_time_ok(cur, step, timescale)
        &&& cur + step * label.len() <= u64::MAX
        &&& ruler_ok(cur + step * label.len(), step, timescale, w + label.len(), width)
    }
}

pub struct WaveformTime {
    timestamp_range: core::ops::Range<u64>,
    timestamp_cursor: u64,
    timescale: i32,
    timestamp_max: u64,
}

impl View for WaveformTime {
    type V = WaveformTimeView;

    closed spec fn view(&self) -> WaveformTimeView {
        WaveformTimeView {
            start: self.timestamp_range.start as nat,
            end: self.timestamp_range.end as nat,
            cursor: self.timestamp_cursor as nat,
            timescale: self.timescale as int,
            max: self.timestamp_max as nat,
        }
    }
}

impl WaveformTime {
    pub fn new() -> (r: Self)
        ensures
            r@ == (WaveformTimeView {
                start: 0,
                end: 1000000,
                cursor: 0,
                timescale: 6,
                max: 1000000,
            }),
    {
        Self {
            timestamp_range: 0..1000000,  // Actual time is timestamp*10^(-timescale)
            timestamp_cursor: 0,
            timescale: 6,
            timestamp_max: 1000000,
        }
    }

    pub fn load_waveform(&mut self, new_range: core::ops::Range<u64>, timestamp_max: u64, timescale: i32)
        ensures
            final(self)@ == (WaveformTimeView {
                start: new_range.start as nat,
                end: new_range.end as nat,
                max: timestamp_max as nat,
                timescale: timescale as int,
                ..old(self)@
            }),
    {
        self.timescale = timescale;
        self.timestamp_range = new_range;
        self.timestamp_max = timestamp_max;
    }

    pub fn get_range(&self) -> (r: core::ops::Range<u64>)
        ensures
            r.start == self@.start,
            r.end == self@.end,
    {
        self.timestamp_range.start..self.timestamp_range.end
    }

    pub fn get_timestamp_max(&self) -> (r: u64)
        ensures
            r == self@.max,
    {
        self.timestamp_max
    }

    pub fn get_cursor(&self) -> (r: u64)
        ensures
            r == self@.cursor,
    {
        self.timestamp_cursor
    }

    /// Whether `zoom_right` stays within `u64`.
    pub fn can_zoom_right(&self) -> (r: bool)
        ensures
            r == self@.zoom_right_ok(),
    {
        let (start, end, max) = (
            self.timestamp_range.start as u128,
            self.timestamp_range.end as u128,
            self.timestamp_max as u128,
        );
        let half = if start < end {
            (end - start) / 2
        } else {
            0
        };
        let limit = u64::MAX as u128;
        max + half <= limit && if end < max + half {
            end + half <= limit
        } else {
            max >= half
        }
    }

    /// Whether `zoom_in` stays within `u64`.
    pub fn can_zoom_in(&self) -> (r: bool)
        ensures
            r == self@.zoom_in_ok(),
    {
        let (start, end) = (self.timestamp_range.start as u128, self.timestamp_range.end as u128);
        let center = (start + end) / 2;
        let limit = u64::MAX as u128;
        start + end <= limit && start + center <= limit && end + center <= limit
    }

    /// Whether `zoom_out` stays within `u64`.
    pub fn can_zoom_out(&self) -> (r: bool)
        ensures
            r == self@.zoom_out_ok(),
    {
        let (start, end) = (self.timestamp_range.start as u128, self.timestamp_range.end as u128);
        let center = (start + end) / 2;
        let width = if start < end {
            end - start
        } else {
            1
        };
        let limit = u64::MAX as u128;
        start + end <= limit && if center >= width {
            center + width <= limit
        } else {
            width * 2 <= limit
        }
    }

    /// Moves the range left by half its width, stopping at 0.
    pub fn zoom_left(&mut self, cursor: bool)
        ensures
            final(self)@ == old(self)@.after_zoom_left(),
            old(self)@.start < old(self)@.end ==> final(self)@.end - final(self)@.start == old(self)@.end
                - old(self)@.start,
            final(self)@.start <= old(self)@.start,
    {
        proof {
            lemma_zoom_left_keeps_width(old(self)@);
        }
        let width = self.get_width();
        if self.timestamp_range.start > width / 2 {
            self.timestamp_range = (self.timestamp_range.start - (width / 2))..(
            self.timestamp_range.end - (width / 2));
        } else {
            self.timestamp_range = 0..width;
        }
    }

    /// Moves the range right by half its width, stopping half a width past
    /// the last timestamp.
    pub fn zoom_right(&mut self, cursor: bool)
        requires
            old(self)@.zoom_right_ok(),
        ensures
            final(self)@ == old(self)@.after_zoom_right(),
    {
        let width = self.get_width();
        if self.timestamp_range.end < (self.timestamp_max + width / 2) {
            self.timestamp_range = (self.timestamp_range.start + (width / 2))..(
            self.timestamp_range.end + (width / 2));
        } else {
            self.timestamp_range = (self.timestamp_max - width / 2)..(self.timestamp_max + width
                / 2);
        }
    }

    /// Halves the range around its center.
    pub fn zoom_in(&mut self, cursor: bool)
        requires
            old(self)@.zoom_in_ok(),
        ensures
            final(self)@ == old(self)@.after_zoom_in(),
            old(self)@.start <= old(self)@.end
                ==> old(self)@.start <= final(self)@.start && final(self)@.end <= old(self)@.end,
            old(self)@.start <= old(self)@.end
                ==> old(self)@.end - old(self)@.start - 1 <= 2 * (final(self)@.end - final(self)@.start)
                <= old(self)@.end - old(self)@.start + 1,
    {
        proof {
            lemma_zoom_in_halves(old(self)@);
        }
        let center = self.get_center();
        self.timestamp_range = ((self.timestamp_range.start + center) / 2)..((
        self.timestamp_range.end + center) / 2);
    }

    /// Doubles the range around its center (or from 0 when the center is
    /// less than a width from it).
    pub fn zoom_out(&mut self, cursor: bool)
        requires
            old(self)@.zoom_out_ok(),
        ensures
            final(self)@ == old(self)@.after_zoom_out(),
            final(self)@.end - final(self)@.start == 2 * old(self)@.width(),
            final(self)@.start > 0 ==> final(self)@.start + final(self)@.end == 2 * old(self)@.center(),
            final(self)@.start <= old(self)@.center(),
            final(self)@.cursor == old(self)@.cursor,
            final(self)@.timescale == old(self)@.timescale,
            final(self)@.max == old(self)@.max,
    {
        proof {
            lemma_zoom_out_doubles(old(self)@);
        }
        let center = self.get_center();
        let width = self.get_width();
        if center >= width {
            self.timestamp_range = (center - width)..(center + width);
        } else {
            self.timestamp_range = 0..(width * 2);
        }
    }

    /// The labels of a time ruler `width` characters wide.
    /// Whether `render` can draw a ruler `width` characters wide: the range
    /// is not reversed, and every label on the way computes within its
    /// integer types.
    pub fn can_render(&self, width: usize) -> (r: bool)
        ensures
            r == ((self@.start == self@.end || self@.start < self@.end) && (self@.start < self@.end
                ==> ruler_ok(self@.start, self@.ruler_step(width as nat), self@.timescale, 0, width as nat))),
    {
        let start = self.timestamp_range.start;
        let end = self.timestamp_range.end;
        if start > end {
            return false;
        }
        if start == end {
            return true;
        }
        let step = if width > 0 {
            (end - start) / width as u64
        } else {
            0
        };
        assert(step == self@.ruler_step(width as nat));
        let mut cur = start;
        let mut w: usize = 0;
        while w < width
            invariant
                w <= width,
                self@.start < self@.end,
                step as nat == self@.ruler_step(width as nat),
                ruler_ok(self@.start, step as nat, self@.timescale, 0, width as nat) == ruler_ok(
                    cur as nat,
                    step as nat,
                    self@.timescale,
                    w as nat,
                    width as nat,
                ),
                self@.timescale == self.timescale,
            decreases width - w,
        {
            if !render_time_fits(cur, step, self.timescale) {
                assert(!ruler_ok(cur as nat, step as nat, self@.timescale, w as nat, width as nat));
                return false;
            }
            let t = render_time(cur, step, self.timescale);
            let len: u128 = t.as_str().unicode_len() as u128 + 1;
            let ghost label = seq!['|'] + render_time_spec(cur as nat, step as nat, self@.timescale);
            assert(len == label.len());
            let advance = match (step as u128).checked_mul(len) {
                Some(a) => a,
                None => {
                    assert(!ruler_ok(cur as nat, step as nat, self@.timescale, w as nat, width as nat));
                    return false;
                },
            };
            if advance > (u64::MAX - cur) as u128 {
                assert(!ruler_ok(cur as nat, step as nat, self@.timescale, w as nat, width as nat));
                return false;
            }
            let ghost old_w = w as nat;
            let ghost old_cur = cur as nat;
            cur = cur + advance as u64;
            w = if len < (width - w) as u128 {
                w + len as usize
            } else {
                width
            };
            proof {
                assert(ruler_ok(old_cur, step as nat, self@.timescale, old_w, width as nat) == ruler_ok(
                    cur as nat,
                    step as nat,
                    self@.timescale,
                    old_w + label.len(),
                    width as nat,
                ));
                assert(ruler_ok(cur as nat, step as nat, self@.timescale, old_w + label.len(), width as nat)
                    == ruler_ok(cur as nat, step as nat, self@.timescale, w as nat, width as nat));
            }
        }
        true
    }

    pub fn render(&self, width: usize) -> (r: Vec<String>)
        requires
            self@.start == self@.end || self@.start < self@.end,
            self@.start < self@.end ==> ruler_ok(
                self@.start,
                self@.ruler_step(width as nat),
                self@.timescale,
                0,
                width as nat,
            ),
        ensures
            r@.map_values(|s: String| s@) == if self@.start == self@.end {
                seq![seq!['|'] + decimal(self@.start) + seq!['|']]
            } else {
                ruler_from(
                    self@.start,
                    self@.ruler_step(width as nat),
                    self@.timescale,
                    0,
                    width as nat,
                )
            },
    {
        let mut spans: Vec<String> = Vec::new();
        if self.timestamp_range.start == self.timestamp_range.end {
            let mut s = String::new();
            string_push(&mut s, '|');
            push_decimal(&mut s, self.timestamp_range.start);
            string_push(&mut s, '|');
            assert(s@ =~= seq!['|'] + decimal(self@.start) + seq!['|']);
            spans.push(s);
            assert(spans@.map_values(|s: String| s@) =~= seq![
                seq!['|'] + decimal(self@.start) + seq!['|'],
            ]);
            return spans;
        }
        let mut timestamp_current = self.timestamp_range.start;
        let timestamp_step = if width > 0 {
            (self.timestamp_range.end - self.timestamp_range.start) / width as u64
        } else {
            0
        };
        let ghost all = ruler_from(
            self@.start,
            timestamp_step as nat,
            self@.timescale,
            0,
            width as nat,
        );
        let mut text_width: usize = 0;
        while text_width < width
            invariant
                text_width <= width || width == 0,
                ruler_ok(
                    timestamp_current as nat,
                    timestamp_step as nat,
                    self@.timescale,
                    text_width as nat,
                    width as nat,
                ),
                all == spans@.map_values(|s: String| s@) + ruler_from(
                    timestamp_current as nat,
                    timestamp_step as nat,
                    self@.timescale,
                    text_width as nat,
                    width as nat,
                ),
                self@.timescale == self.timescale,
            decreases width - text_width,
        {
            let mut s = String::new();
            string_push(&mut s, '|');
            let t = render_time(timestamp_current, timestamp_step, self.timescale);
            crate::text::push_str(&mut s, t.as_str());
            let len = s.as_str().unicode_len();
            proof {
                assert(s@ == seq!['|'] + render_time_spec(
                    timestamp_current as nat,
                    timestamp_step as nat,
                    self@.timescale,
                ));
                assert(timestamp_step * len <= timestamp_step * len) by (nonlinear_arith);
            }
            let ghost old_spans = spans@.map_values(|s: String| s@);
            let ghost old_cur = timestamp_current as nat;
            let ghost old_w = text_width as nat;
            timestamp_current += timestamp_step * len as u64;
            text_width = if len < width - text_width {
                text_width + len
            } else {
                width
            };
            spans.push(s);
            proof {
                assert(spans@.map_values(|s: String| s@) =~= old_spans.push(s@));
                assert(ruler_from(old_cur, timestamp_step as nat, self@.timescale, old_w, width as nat)
                    == seq![s@] + ruler_from(
                    timestamp_current as nat,
                    timestamp_step as nat,
                    self@.timescale,
                    old_w + len as nat,
                    width as nat,
                ));
                assert(ruler_from(
                    timestamp_current as nat,
                    timestamp_step as nat,
                    self@.timescale,
                    old_w + len as nat,
                    width as nat,
                ) == ruler_from(
                    timestamp_current as nat,
                    timestamp_step as nat,
                    self@.timescale,
                    text_width as nat,
                    width as nat,
                ));
                assert(ruler_ok(
                    timestamp_current as nat,
                    timestamp_step as nat,
                    self@.timescale,
                    old_w + len as nat,
                    width as nat,
                ) == ruler_ok(
                    timestamp_current as nat,
                    timestamp_step as nat,
                    self@.timescale,
                    text_width as nat,
                    width as nat,
                ));
                assert(all =~= spans@.map_values(|s: String| s@) + ruler_from(
                    timestamp_current as nat,
                    timestamp_step as nat,
                    self@.timescale,
                    text_width as nat,
                    width as nat,
                ));
            }
        }
        spans
    }

    fn get_width(&self) -> (r: u64)
        ensures
            r == self@.width(),
    {
        if self.timestamp_range.start < self.timestamp_range.end {
            self.timestamp_range.end - self.timestamp_range.start
        } else {
            1
        }
    }

    fn get_center(&self) -> (r: u64)
        requires
            self@.start + self@.end <= u64::MAX,
        ensures
            r == self@.center(),
    {
        (self.timestamp_range.start + self.timestamp_range.end) / 2
    }
}

} // verus!
