//! Signal normalization: downmixing interleaved frames to mono and
//! resampling by linear interpolation.
//!
//! Samples are signed 16-bit PCM values. Every intermediate value is an
//! exact integer, so the result of each operation is a plain function of
//! its inputs and is stated as such.
use vstd::arithmetic::div_mod::lemma_fundamental_div_mod_converse;
use vstd::prelude::*;

verus! {

/// The rate, in Hz, of every buffer that leaves the normalizer.
pub const TARGET_RATE: u32 = 16000;

/// Offset that maps a signed 16-bit sample onto a non-negative value.
const SAMPLE_OFFSET: i64 = 32768;

// ---------------------------------------------------------------------------
// Model
// ---------------------------------------------------------------------------

/// Sum of a sequence of samples.
pub open spec fn sum_of(s: Seq<i16>) -> int
    decreases s.len(),
{
    if s.len() == 0 {
        0
    } else {
        sum_of(s.drop_last()) + s.last() as int
    }
}

/// Number of mono samples that `n` interleaved values over `c` channels give:
/// one per frame, a trailing partial frame included.
pub open spec fn downmixed_len(n: nat, c: nat) -> nat
    recommends
        c > 0,
{
    ((n + c - 1) / c as int) as nat
}

/// The values of frame `j` of `x` over `c` channels (shorter for a trailing
/// partial frame).
pub open spec fn frame_of(x: Seq<i16>, c: nat, j: int) -> Seq<i16> {
    let start = j * c;
    let end = if (j + 1) * c <= x.len() {
        (j + 1) * c
    } else {
        x.len() as int
    };
    x.subrange(start, end)
}

/// Mean of frame `j`, rounded down: the frame's sum divided by the channel count.
pub open spec fn frame_mean(x: Seq<i16>, c: nat, j: int) -> int {
    sum_of(frame_of(x, c, j)) / c as int
}

/// The mono sequence of `x` over `c` channels. One channel (or none) is
/// passed through unchanged.
pub open spec fn downmixed(x: Seq<i16>, c: nat) -> Seq<i16> {
    if c <= 1 {
        x
    } else {
        Seq::new(downmixed_len(x.len(), c), |j: int| frame_mean(x, c, j) as i16)
    }
}

/// Output length of resampling `n` samples from rate `from` to rate `to`:
/// `ceil(n * to / from)`.
pub open spec fn resampled_len(n: nat, from: nat, to: nat) -> nat {
    if from == 0 {
        0
    } else {
        ((n * to + from - 1) / from as int) as nat
    }
}

/// Linear interpolation between `a` and `b` at fraction `rem / to`, rounded down.
pub open spec fn blend(a: int, b: int, rem: int, to: int) -> int {
    (a * (to - rem) + b * rem) / to
}

/// Output sample `i` of resampling `x` from rate `from` to rate `to`.
/// Its source position is `i * from / to`: `idx` is the whole part and
/// `rem / to` the fraction. Past the last pair the last sample is repeated.
pub open spec fn resampled_at(x: Seq<i16>, from: nat, to: nat, i: int) -> int {
    let pos = i * from;
    let idx = pos / to as int;
    let rem = pos % to as int;
    if idx + 1 < x.len() {
        blend(x[idx] as int, x[idx + 1] as int, rem, to as int)
    } else {
        x[idx] as int
    }
}

/// `x` resampled from rate `from` to rate `to` by linear interpolation.
pub open spec fn resampled(x: Seq<i16>, from: nat, to: nat) -> Seq<i16> {
    Seq::new(resampled_len(x.len(), from, to), |i: int| resampled_at(x, from, to, i) as i16)
}

/// `x` downmixed over `channels` and resampled from `rate` to the target rate.
pub open spec fn normalized(x: Seq<i16>, rate: nat, channels: nat) -> Seq<i16> {
    let mono = downmixed(x, channels);
    if rate == TARGET_RATE {
        mono
    } else {
        resampled(mono, rate, TARGET_RATE as nat)
    }
}

// ---------------------------------------------------------------------------
// Arithmetic lemmas
// ---------------------------------------------------------------------------

proof fn lemma_div_by_bounds(n: int, d: int, q: int)
    requires
        d > 0,
        q * d <= n < q * d + d,
    ensures
        n / d == q,
{
    lemma_fundamental_div_mod_converse(n, d, q, n - q * d);
}

/// The quotient rounded down, times the divisor, lies within one divisor below `n`.
proof fn lemma_div_facts(n: int, d: int)
    requires
        d > 0,
    ensures
        (n / d) * d <= n < (n / d) * d + d,
{
    vstd::arithmetic::div_mod::lemma_fundamental_div_mod(n, d);
    vstd::arithmetic::div_mod::lemma_mod_bound(n, d);
    assert(d * (n / d) == (n / d) * d) by (nonlinear_arith);
}

/// Division rounded down keeps a value that lies between two multiples.
proof fn lemma_div_between(n: int, d: int, lo: int, hi: int)
    requires
        d > 0,
        lo * d <= n <= hi * d,
    ensures
        lo <= n / d <= hi,
{
    let q = n / d;
    lemma_div_facts(n, d);
    if q < lo {
        assert(q * d + d <= lo * d) by (nonlinear_arith)
            requires
                q < lo,
                d > 0,
        ;
    }
    if q > hi {
        assert(hi * d + d <= q * d) by (nonlinear_arith)
            requires
                q > hi,
                d > 0,
        ;
    }
}

proof fn lemma_div_at_least(n: int, d: int, lo: int)
    requires
        d > 0,
        lo * d <= n,
    ensures
        lo <= n / d,
{
    let q = n / d;
    lemma_div_facts(n, d);
    if q < lo {
        assert(q * d + d <= lo * d) by (nonlinear_arith)
            requires
                q < lo,
                d > 0,
        ;
    }
}

proof fn lemma_div_shift(n: int, d: int, k: int)
    requires
        d > 0,
    ensures
        (n + k * d) / d == n / d + k,
{
    let q = n / d;
    lemma_div_facts(n, d);
    assert((q + k) * d == q * d + k * d) by (nonlinear_arith);
    lemma_div_by_bounds(n + k * d, d, q + k);
}

/// A blend lies between its two end points.
proof fn lemma_blend_bounds(a: int, b: int, rem: int, to: int)
    requires
        0 <= rem < to,
    ensures
        a <= b ==> a <= blend(a, b, rem, to) <= b,
        b <= a ==> b <= blend(a, b, rem, to) <= a,
{
    let n = a * (to - rem) + b * rem;
    if a <= b {
        assert(a * to <= n <= b * to) by (nonlinear_arith)
            requires
                n == a * (to - rem) + b * rem,
                a <= b,
                0 <= rem < to,
        ;
        lemma_div_between(n, to, a, b);
    } else {
        assert(b * to <= n <= a * to) by (nonlinear_arith)
            requires
                n == a * (to - rem) + b * rem,
                b < a,
                0 <= rem < to,
        ;
        lemma_div_between(n, to, b, a);
    }
}

proof fn lemma_blend_equal(v: int, rem: int, to: int)
    requires
        0 <= rem < to,
    ensures
        blend(v, v, rem, to) == v,
{
    lemma_blend_bounds(v, v, rem, to);
}

proof fn lemma_sum_push(s: Seq<i16>, v: i16)
    ensures
        sum_of(s.push(v)) == sum_of(s) + v,
{
    assert(s.push(v).drop_last() =~= s);
}

proof fn lemma_sum_constant(s: Seq<i16>, v: i16)
    requires
        forall|k: int| 0 <= k < s.len() ==> s[k] == v,
    ensures
        sum_of(s) == s.len() * v,
    decreases s.len(),
{
    if s.len() > 0 {
        lemma_sum_constant(s.drop_last(), v);
        assert((s.len() - 1) * v + v == s.len() * v) by (nonlinear_arith);
    }
}

/// Every source index of an output position lies inside the input.
proof fn lemma_source_in_bounds(n: nat, from: nat, to: nat, i: int)
    requires
        from > 0,
        0 <= i < resampled_len(n, from, to),
    ensures
        to > 0,
        0 <= (i * from) / (to as int) < n,
{
    let m = n * to + from - 1;
    vstd::arithmetic::div_mod::lemma_fundamental_div_mod(m, from as int);
    assert(i * from <= (m / from as int) * from - from) by (nonlinear_arith)
        requires
            i < m / from as int,
            from > 0,
    ;
    assert(i * from < n * to);
    if to == 0 {
        assert(n * to == 0);
    }
    assert(i * from >= 0) by (nonlinear_arith)
        requires
            i >= 0,
            from > 0,
    ;
    assert(((i * from) / to as int) * to <= i * from) by {
        vstd::arithmetic::div_mod::lemma_fundamental_div_mod(i * from, to as int);
    }
    if (i * from) / to as int >= n {
        assert(((i * from) / to as int) * to >= n * to) by (nonlinear_arith)
            requires
                (i * from) / to as int >= n,
                to > 0,
        ;
    }
    vstd::arithmetic::div_mod::lemma_div_pos_is_pos(i * from, to as int);
}

/// Resampling down never lengthens the input, and the resampled length is
/// at most `n * to`.
proof fn lemma_resampled_len_bounds(n: nat, from: nat, to: nat)
    requires
        from > 0,
    ensures
        to <= from ==> resampled_len(n, from, to) <= n,
        resampled_len(n, from, to) <= n * to,
{
    let m = n * to + from - 1;
    let q = m / from as int;
    lemma_div_facts(m, from as int);
    vstd::arithmetic::div_mod::lemma_div_pos_is_pos(m, from as int);
    assert(resampled_len(n, from, to) == q);
    if to <= from {
        assert(n * to + from - 1 < (n + 1) * from) by (nonlinear_arith)
            requires
                to <= from,
                from > 0,
        ;
        if q >= n + 1 {
            assert(q * from >= (n + 1) * from) by (nonlinear_arith)
                requires
                    q >= n + 1,
                    from > 0,
            ;
        }
    }
    if n * to == 0 {
        lemma_div_by_bounds(m, from as int, 0);
    } else {
        assert(m <= (n * to) * from) by (nonlinear_arith)
            requires
                m == n * to + from - 1,
                n * to >= 1,
                from >= 1,
        ;
        if q > n * to {
            assert(q * from >= (n * to + 1) * from) by (nonlinear_arith)
                requires
                    q >= n * to + 1,
                    from > 0,
            ;
            assert((n * to + 1) * from == (n * to) * from + from) by (nonlinear_arith);
        }
    }
}

/// Downmixing never lengthens the input.
proof fn lemma_downmixed_len_at_most(n: nat, c: nat)
    requires
        c >= 2,
    ensures
        downmixed_len(n, c) <= n,
{
    if n == 0 {
        lemma_div_by_bounds(c - 1, c as int, 0);
    } else {
        assert(n + c - 1 <= n * c) by (nonlinear_arith)
            requires
                n >= 1,
                c >= 2,
        ;
        lemma_div_between(n + c - 1, c as int, 0, n as int);
    }
}

// ---------------------------------------------------------------------------
// Executable functions
// ---------------------------------------------------------------------------

/// Floor division of a frame sum by a positive channel count.
fn floor_div(sum: i64, c: i64) -> (r: i64)
    requires
        0 < c <= 0x1_0000,
        -0x1_0000_0000_0000 <= sum <= 0x1_0000_0000_0000,
    ensures
        r as int == sum as int / c as int,
{
    if sum >= 0 {
        sum / c
    } else {
        let q = (-sum + c - 1) / c;
        proof {
            let n = -sum + c - 1;
            lemma_div_facts(n as int, c as int);
            assert((-q) * c == -(q * c)) by (nonlinear_arith);
            lemma_div_by_bounds(sum as int, c as int, -q as int);
        }
        -q
    }
}

/// Interpolates between `a` and `b` at fraction `rem / to`, rounded down.
fn blend_samples(a: i16, b: i16, rem: u128, to: u128) -> (r: i16)
    requires
        rem < to,
        to <= u32::MAX,
    ensures
        r as int == blend(a as int, b as int, rem as int, to as int),
{
    let ua = (a as i64 + SAMPLE_OFFSET) as u128;
    let ub = (b as i64 + SAMPLE_OFFSET) as u128;
    assert(ua * (to - rem) <= 0x1_0000 * 0x1_0000_0000) by (nonlinear_arith)
        requires
            ua <= 0x1_0000,
            to - rem <= 0x1_0000_0000,
    ;
    assert(ub * rem <= 0x1_0000 * 0x1_0000_0000) by (nonlinear_arith)
        requires
            ub <= 0x1_0000,
            rem <= 0x1_0000_0000,
    ;
    let num = ua * (to - rem) + ub * rem;
    let q = num / to;
    proof {
        let n = a * (to - rem) + b * rem;
        assert(num == n + 32768 * to) by (nonlinear_arith)
            requires
                num == ua * (to - rem) + ub * rem,
                ua == a + 32768,
                ub == b + 32768,
                n == a * (to - rem) + b * rem,
        ;
        lemma_div_shift(n, to as int, 32768);
        lemma_blend_bounds(a as int, b as int, rem as int, to as int);
    }
    (q as i64 - SAMPLE_OFFSET) as i16
}

/// Downmixes interleaved frames of `channels` values each to mono: each
/// output sample is the mean of one frame, rounded down. A trailing partial
/// frame is summed and divided by `channels` as well. With one channel (or
/// none) the input is returned unchanged.
pub fn downmix(frames: &Vec<i16>, channels: u16) -> (r: Vec<i16>)
    ensures
        r@ == downmixed(frames@, channels as nat),
        channels <= 1 ==> r@ == frames@,
{
    if channels <= 1 {
        return frames.clone();
    }
    let c = channels as usize;
    let n = frames.len();
    let ghost x = frames@;
    let mut out: Vec<i16> = Vec::new();
    let mut start: usize = 0;
    let ghost mut j: int = 0;
    proof {
        if n > 0 {
            lemma_div_at_least(n + c - 1, c as int, 1);
        } else {
            lemma_div_by_bounds(c - 1, c as int, 0);
        }
    }
    while start < n
        invariant
            c == channels as nat,
            c >= 2,
            n == x.len(),
            x == frames@,
            start <= n,
            j == out@.len(),
            start < n ==> start as int == j * c && j < downmixed_len(n as nat, c as nat),
            start == n ==> j == downmixed_len(n as nat, c as nat),
            forall|k: int| 0 <= k < j ==> out@[k] == frame_mean(x, c as nat, k) as i16,
        decreases n - start,
    {
        let end: usize = if n - start >= c {
            start + c
        } else {
            n
        };
        let mut sum: i64 = 0;
        let mut p: usize = start;
        assert(end - start <= c);
        while p < end
            invariant
                start <= p <= end <= n,
                n == x.len(),
                x == frames@,
                end - start <= c,
                c <= u16::MAX,
                sum as int == sum_of(x.subrange(start as int, p as int)),
                i16::MIN * (p - start) <= sum <= i16::MAX * (p - start),
            decreases end - p,
        {
            proof {
                assert(x.subrange(start as int, p + 1) =~= x.subrange(start as int, p as int).push(
                    x[p as int],
                ));
                lemma_sum_push(x.subrange(start as int, p as int), x[p as int]);
            }
            sum = sum + frames[p] as i64;
            p = p + 1;
        }
        let mean = floor_div(sum, c as i64);
        proof {
            assert(frame_of(x, c as nat, j) =~= x.subrange(start as int, end as int)) by {
                assert((j + 1) * c == j * c + c) by (nonlinear_arith);
            }
            assert(i16::MIN * (end - start) >= i16::MIN * c) by (nonlinear_arith)
                requires
                    end - start <= c,
            ;
            assert(i16::MAX * (end - start) <= i16::MAX * c) by (nonlinear_arith)
                requires
                    end - start <= c,
            ;
            lemma_div_between(sum as int, c as int, i16::MIN as int, i16::MAX as int);
        }
        out.push(mean as i16);
        proof {
            let nn = n as int;
            let cc = c as int;
            let len = downmixed_len(n as nat, c as nat) as int;
            assert(len == (nn + cc - 1) / cc);
            if end < n {
                // another frame follows: j + 1 < len
                assert((j + 1) * cc + 1 <= nn) by (nonlinear_arith)
                    requires
                        end == start + cc,
                        start == j * cc,
                        end < nn,
                ;
                assert(end as int == (j + 1) * cc) by (nonlinear_arith)
                    requires
                        end == start + cc,
                        start == j * cc,
                ;
                assert((j + 2) * cc <= nn + cc - 1) by (nonlinear_arith)
                    requires
                        (j + 1) * cc + 1 <= nn,
                ;
                lemma_div_at_least(nn + cc - 1, cc, j + 2);
            } else {
                // this was the last frame: j + 1 == len
                assert(j * cc < nn <= (j + 1) * cc) by (nonlinear_arith)
                    requires
                        start == j * cc,
                        start < nn,
                        end == nn,
                        nn - start <= cc,
                ;
                assert((j + 1) * cc == j * cc + cc) by (nonlinear_arith);
                lemma_div_by_bounds(nn + cc - 1, cc, j + 1);
            }
            j = j + 1;
        }
        start = end;
    }
    assert(out@ =~= downmixed(x, c as nat));
    out
}

/// Resamples `input` from `from_rate` to `to_rate` by linear interpolation.
/// The output holds `ceil(len * to_rate / from_rate)` samples; output sample
/// `i` is taken at source position `i * from_rate / to_rate`. An empty input
/// gives an empty output for any pair of rates.
pub fn resample(input: &Vec<i16>, from_rate: u32, to_rate: u32) -> (r: Vec<i16>)
    requires
        input@.len() == 0 || from_rate > 0,
        to_rate <= from_rate || input@.len() * to_rate <= usize::MAX,
    ensures
        r@ == resampled(input@, from_rate as nat, to_rate as nat),
        r@.len() == resampled_len(input@.len(), from_rate as nat, to_rate as nat),
        input@.len() == 0 ==> r@.len() == 0,
        from_rate == to_rate ==> r@ == input@,
{
    if input.len() == 0 {
        proof {
            if from_rate > 0 {
                lemma_div_by_bounds(from_rate - 1, from_rate as int, 0);
            }
        }
        let r: Vec<i16> = Vec::new();
        assert(r@ =~= resampled(input@, from_rate as nat, to_rate as nat));
        return r;
    }
    let ghost x = input@;
    proof {
        lemma_resampled_len_bounds(x.len(), from_rate as nat, to_rate as nat);
    }
    let n = input.len() as u128;
    let from = from_rate as u128;
    let to = to_rate as u128;
    assert(n * to <= 0xffff_ffff_ffff_ffff * 0xffff_ffff) by (nonlinear_arith)
        requires
            n <= 0xffff_ffff_ffff_ffff,
            to <= 0xffff_ffff,
    ;
    let out_len = ((n * to + from - 1) / from) as usize;
    let mut out: Vec<i16> = Vec::with_capacity(out_len);
    let mut i: usize = 0;
    while i < out_len
        invariant
            x == input@,
            x.len() == n,
            n > 0,
            from == from_rate,
            to == to_rate,
            from > 0,
            out_len == resampled_len(x.len(), from as nat, to as nat),
            i <= out_len,
            out@.len() == i,
            forall|k: int| 0 <= k < i ==> out@[k] == resampled_at(x, from as nat, to as nat, k) as i16,
        decreases out_len - i,
    {
        proof {
            lemma_source_in_bounds(n as nat, from as nat, to as nat, i as int);
        }
        assert(i * from <= 0xffff_ffff_ffff_ffff * 0xffff_ffff) by (nonlinear_arith)
            requires
                i <= 0xffff_ffff_ffff_ffff,
                from <= 0xffff_ffff,
        ;
        let pos = i as u128 * from;
        assert(pos / to < n);
        let idx = (pos / to) as usize;
        assert(idx < input.len());
        let rem = pos % to;
        let sample = if idx + 1 < input.len() {
            blend_samples(input[idx], input[idx + 1], rem, to)
        } else {
            input[idx]
        };
        out.push(sample);
        i = i + 1;
    }
    proof {
        assert(out@ =~= resampled(x, from as nat, to as nat));
        if from_rate == to_rate {
            lemma_resample_same_rate(x, from as nat);
        }
    }
    out
}

/// Resampling between equal rates returns the input unchanged.
pub proof fn lemma_resample_same_rate(x: Seq<i16>, rate: nat)
    requires
        rate > 0,
    ensures
        resampled(x, rate, rate) == x,
{
    let n = x.len();
    lemma_div_by_bounds(n * rate + rate - 1, rate as int, n as int);
    assert forall|i: int| 0 <= i < n implies resampled_at(x, rate, rate, i) == x[i] by {
        assert((i * rate) / (rate as int) == i) by {
            lemma_div_by_bounds(i * rate, rate as int, i);
        }
        assert((i * rate) % (rate as int) == 0) by {
            lemma_fundamental_div_mod_converse(i * rate, rate as int, i, 0);
        }
        assert(x[i] * (rate - 0) + x[i + 1] * 0 == x[i] * rate) by (nonlinear_arith);
        if i + 1 < n {
            lemma_div_by_bounds(x[i] * rate, rate as int, x[i] as int);
        }
    }
    assert(resampled(x, rate, rate) =~= x);
}

/// Resampling a constant signal yields the same constant at every output
/// position, for any pair of positive rates.
pub proof fn lemma_resample_constant(x: Seq<i16>, v: i16, from: nat, to: nat)
    requires
        from > 0,
        forall|k: int| 0 <= k < x.len() ==> x[k] == v,
    ensures
        forall|i: int| 0 <= i < resampled(x, from, to).len() ==> resampled(x, from, to)[i] == v,
{
    assert forall|i: int| 0 <= i < resampled(x, from, to).len() implies resampled(x, from, to)[i]
        == v by {
        lemma_source_in_bounds(x.len(), from, to, i);
        let pos = i * from;
        let idx = pos / to as int;
        vstd::arithmetic::div_mod::lemma_mod_bound(pos, to as int);
        if idx + 1 < x.len() {
            lemma_blend_equal(v as int, pos % to as int, to as int);
        }
    }
}

/// Downmixing frames whose channels all carry the same value gives the
/// sequence of those values, for any channel count.
pub proof fn lemma_downmix_identical_channels(x: Seq<i16>, mono: Seq<i16>, c: nat)
    requires
        c >= 1,
        x.len() == mono.len() * c,
        forall|k: int| 0 <= k < x.len() ==> x[k] == mono[k / c as int],
    ensures
        downmixed(x, c) == mono,
{
    if c == 1 {
        assert forall|k: int| 0 <= k < x.len() implies x[k] == mono[k] by {
            lemma_div_by_bounds(k, 1, k);
        }
        assert(x =~= mono);
    } else {
        let m = mono.len();
        let cc = c as int;
        lemma_div_by_bounds(m * cc + cc - 1, cc, m as int);
        assert forall|j: int| 0 <= j < m implies frame_mean(x, c, j) == mono[j] by {
            assert((j + 1) * cc <= x.len()) by (nonlinear_arith)
                requires
                    0 <= j < m,
                    x.len() == m * cc,
                    cc > 0,
            ;
            assert((j + 1) * cc == j * cc + cc) by (nonlinear_arith);
            let f = frame_of(x, c, j);
            assert(f.len() == cc);
            assert forall|k: int| 0 <= k < f.len() implies f[k] == mono[j] by {
                assert(j * cc <= j * cc + k < j * cc + cc);
                lemma_div_by_bounds(j * cc + k, cc, j);
            }
            lemma_sum_constant(f, mono[j]);
            assert(f.len() * mono[j] == mono[j] * cc) by (nonlinear_arith)
                requires
                    f.len() == cc,
            ;
            lemma_div_by_bounds(mono[j] * cc, cc, mono[j] as int);
        }
        assert(downmixed(x, c) =~= mono);
    }
}

/// Normalizing whole frames of a constant signal, over any channel count and
/// from any positive rate, yields the same constant at every output sample,
/// and `ceil(frames * TARGET_RATE / rate)` samples.
pub proof fn lemma_normalize_constant(x: Seq<i16>, v: i16, rate: nat, c: nat)
    requires
        rate > 0,
        c >= 1,
        x.len() % c == 0,
        forall|k: int| 0 <= k < x.len() ==> x[k] == v,
    ensures
        normalized(x, rate, c).len() == resampled_len(x.len() / c, rate, TARGET_RATE as nat),
        forall|i: int|
            0 <= i < normalized(x, rate, c).len() ==> #[trigger] normalized(x, rate, c)[i] == v,
{
    let m = x.len() / c;
    let mono = Seq::new(m as nat, |j: int| v);
    vstd::arithmetic::div_mod::lemma_fundamental_div_mod(x.len() as int, c as int);
    assert(x.len() == mono.len() * c) by (nonlinear_arith)
        requires
            x.len() == c * m + 0,
            mono.len() == m,
    ;
    assert forall|k: int| 0 <= k < x.len() implies x[k] == mono[k / c as int] by {
        let q = k / c as int;
        lemma_div_facts(k, c as int);
        vstd::arithmetic::div_mod::lemma_div_pos_is_pos(k, c as int);
        if q >= m {
            assert(q * c >= m * c) by (nonlinear_arith)
                requires
                    q >= m,
                    c >= 1,
            ;
        }
    }
    lemma_downmix_identical_channels(x, mono, c);
    if rate == TARGET_RATE {
        lemma_resample_same_rate(mono, rate);
    } else {
        lemma_resample_constant(mono, v, rate, TARGET_RATE as nat);
    }
}

/// Normalizes captured frames: downmixes `channels` interleaved channels to
/// mono, then resamples from `native_rate` to the target rate unless it is
/// already the target rate.
pub fn normalize(frames: &Vec<i16>, native_rate: u32, channels: u16) -> (r: Vec<i16>)
    requires
        frames@.len() == 0 || native_rate > 0,
        native_rate >= TARGET_RATE || frames@.len() * TARGET_RATE <= usize::MAX,
    ensures
        r@ == normalized(frames@, native_rate as nat, channels as nat),
        r@ == resampled(downmixed(frames@, channels as nat), native_rate as nat, TARGET_RATE as nat),
{
    let mono = downmix(frames, channels);
    proof {
        if channels > 1 {
            lemma_downmixed_len_at_most(frames@.len(), channels as nat);
        }
        if channels > 1 && frames@.len() == 0 {
            lemma_div_by_bounds(channels - 1, channels as int, 0);
        }
    }
    if native_rate == TARGET_RATE {
        proof {
            lemma_resample_same_rate(mono@, TARGET_RATE as nat);
        }
        mono
    } else {
        resample(&mono, native_rate, TARGET_RATE)
    }
}

} // verus!
