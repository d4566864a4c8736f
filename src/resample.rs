use vstd::prelude::*;

verus! {

/// Number of samples that `n` samples at rate `from` take at rate `to`.
pub open spec fn resampled_len(n: int, from: int, to: int) -> int {
    n * to / from
}

/// Division that rounds toward zero.
pub open spec fn div_toward_zero(x: int, d: int) -> int {
    if x >= 0 {
        x / d
    } else {
        -((-x) / d)
    }
}

/// Output sample `i`: the input read at position `i * from / to`, linearly
/// interpolated between its two neighbours (the last sample is held).
pub open spec fn resampled_at(s: Seq<i16>, from: int, to: int, i: int) -> int {
    let pos = i * from;
    let idx = pos / to;
    let frac = pos % to;
    let a = s[idx] as int;
    let b = if idx + 1 < s.len() { s[idx + 1] as int } else { a };
    a + div_toward_zero((b - a) * frac, to)
}

/// A mono signal at rate `from` carried over to rate `to`.
pub open spec fn resample_spec(s: Seq<i16>, from: int, to: int) -> Seq<i16> {
    Seq::new(resampled_len(s.len() as int, from, to) as nat, |i: int| resampled_at(s, from, to, i) as i16)
}

proof fn lemma_position_in_range(n: int, from: int, to: int, i: int)
    requires
        from > 0,
        to > 0,
        0 <= i < resampled_len(n, from, to),
    ensures
        0 <= (i * from) / to < n,
        0 <= (i * from) % to < to,
{
    let len = n * to / from;
    vstd::arithmetic::div_mod::lemma_fundamental_div_mod(n * to, from);
    assert(i * from < n * to) by (nonlinear_arith)
        requires
            0 <= i < len,
            len == (n * to) / from,
            n * to == from * len + (n * to) % from,
            0 <= (n * to) % from < from,
            from > 0,
    ;
    vstd::arithmetic::div_mod::lemma_fundamental_div_mod(i * from, to);
    assert(0 <= i * from) by (nonlinear_arith)
        requires
            0 <= i,
            from > 0,
    ;
    assert((i * from) / to < n) by (nonlinear_arith)
        requires
            i * from < n * to,
            i * from == to * ((i * from) / to) + (i * from) % to,
            0 <= (i * from) % to,
            to > 0,
    ;
    assert(0 <= (i * from) / to) by (nonlinear_arith)
        requires
            0 <= i * from,
            to > 0,
    ;
}

/// Carries a mono signal from one sample rate to another by linear
/// interpolation.
pub fn resample_mono(input: &[i16], from: u32, to: u32) -> (r: Vec<i16>)
    requires
        from > 0,
    ensures
        r@ == resample_spec(input@, from as int, to as int),
{
    let n: u128 = input.len() as u128;
    assert(n * to < 0x1_0000_0000_0000_0000_0000_0000) by (nonlinear_arith)
        requires
            n < 0x1_0000_0000_0000_0000,
            to < 0x1_0000_0000,
    ;
    let out_len: u128 = n * (to as u128) / (from as u128);
    assert(out_len <= n * to && (to == 0 ==> out_len == 0)) by (nonlinear_arith)
        requires
            out_len == (n * to) / (from as int),
            from >= 1,
            n >= 0,
            to >= 0,
    ;
    let mut out: Vec<i16> = Vec::new();
    let mut i: u128 = 0;
    while i < out_len
        invariant
            from > 0,
            n == input@.len(),
            out_len == resampled_len(n as int, from as int, to as int),
            out_len <= n * to,
            n * to < 0x1_0000_0000_0000_0000_0000_0000,
            to == 0 ==> out_len == 0,
            i <= out_len,
            out@ =~= resample_spec(input@, from as int, to as int).take(i as int),
        decreases out_len - i,
    {
        assert(to > 0);
        proof {
            lemma_position_in_range(n as int, from as int, to as int, i as int);
        }
        assert(i * from < 0x1_0000_0000_0000_0000_0000_0000 * 0x1_0000_0000) by (nonlinear_arith)
            requires
                i < n * to,
                n * to < 0x1_0000_0000_0000_0000_0000_0000,
                from < 0x1_0000_0000,
        ;
        let pos: u128 = i * (from as u128);
        let idx: u128 = pos / (to as u128);
        let frac: u128 = pos % (to as u128);
        let a: i64 = input[idx as usize] as i64;
        let b: i64 = if idx + 1 < n { input[(idx + 1) as usize] as i64 } else { a };
        let diff: i64 = b - a;
        let f: u64 = frac as u64;
        let t: u64 = to as u64;
        let nd: u64 = if diff >= 0 { diff as u64 } else { (-diff) as u64 };
        assert(nd * f <= 65535 * t) by (nonlinear_arith)
            requires
                nd <= 65535,
                f < t,
        ;
        let q: u64 = nd * f / t;
        assert(q <= nd) by (nonlinear_arith)
            requires
                q as int == (nd as int * f as int) / (t as int),
                f < t,
                t > 0,
        ;
        assert(diff >= 0 ==> diff as int * frac as int == nd as int * f as int);
        assert(diff < 0 ==> -(diff as int * frac as int) == nd as int * f as int) by (nonlinear_arith)
            requires
                diff == b - a,
                diff < 0 ==> nd == -diff,
                f == frac,
        ;
        let step: i64 = if diff >= 0 { q as i64 } else { -(q as i64) };
        assert(step as int == div_toward_zero((b - a) * frac, to as int));
        let v: i16 = (a + step) as i16;
        out.push(v);
        i = i + 1;
        assert(out@ =~= resample_spec(input@, from as int, to as int).take(i as int));
    }
    assert(out@ =~= resample_spec(input@, from as int, to as int));
    out
}

} // verus!
