use vstd::prelude::*;

verus! {

/// Squared RGB distance between two colours (alpha ignored).
pub open spec fn dist2(a: Seq<u8>, b: Seq<u8>) -> int {
    (a[0] - b[0]) * (a[0] - b[0]) + (a[1] - b[1]) * (a[1] - b[1]) + (a[2] - b[2]) * (a[2] - b[2])
}

/// `r` is the integer square root of `n`.
pub open spec fn is_isqrt(r: int, n: int) -> bool {
    0 <= r && r * r <= n < (r + 1) * (r + 1)
}

/// Channel blend `a * (1 - t) + b * t` with `t = cov / 255`, rounded to nearest.
pub open spec fn mix_channel(a: u8, b: u8, cov: u8) -> u8 {
    ((a * (255 - cov) + b * cov + 127) / 255) as u8
}

/// Integer square root of `n` (rounded down).
pub fn isqrt(n: u32) -> (r: u32)
    requires
        n <= 195075,
    ensures
        is_isqrt(r as int, n as int),
        r <= 441,
{
    let mut r: u32 = 0;
    let mut sq: u32 = 0;
    while sq + 2 * r + 1 <= n
        invariant
            sq == r * r,
            sq <= n,
            n <= 195075,
            r <= 441,
        decreases n - sq,
    {
        assert((r + 1) * (r + 1) == r * r + 2 * r + 1) by (nonlinear_arith);
        assert(r + 1 <= 441) by (nonlinear_arith)
            requires
                (r + 1) * (r + 1) <= n <= 195075,
                0 <= r,
        ;
        sq = sq + 2 * r + 1;
        r = r + 1;
    }
    assert((r + 1) * (r + 1) == r * r + 2 * r + 1) by (nonlinear_arith);
    r
}

/// Euclidean RGB distance between two colours, rounded down.
pub fn color_distance(a: [u8; 4], b: [u8; 4]) -> (r: i32)
    ensures
        is_isqrt(r as int, dist2(a@, b@)),
{
    let dr = a[0] as i32 - b[0] as i32;
    let dg = a[1] as i32 - b[1] as i32;
    let db = a[2] as i32 - b[2] as i32;
    assert(dr * dr <= 65025 && dg * dg <= 65025 && db * db <= 65025 && 0 <= dr * dr && 0 <= dg * dg
        && 0 <= db * db) by (nonlinear_arith)
        requires
            -255 <= dr <= 255,
            -255 <= dg <= 255,
            -255 <= db <= 255,
    ;
    let d2 = dr * dr + dg * dg + db * db;
    assert(d2 == dist2(a@, b@));
    isqrt(d2 as u32) as i32
}

/// The integer distance of two colours is at most `tol` exactly when their squared
/// distance is below `(tol + 1)^2`.
pub proof fn lemma_distance_within(r: int, n: int, tol: int)
    requires
        is_isqrt(r, n),
        0 <= tol,
    ensures
        r <= tol <==> n < (tol + 1) * (tol + 1),
{
    if r <= tol {
        assert((r + 1) * (r + 1) <= (tol + 1) * (tol + 1)) by (nonlinear_arith)
            requires
                0 <= r <= tol,
        ;
    } else {
        assert((tol + 1) * (tol + 1) <= r * r) by (nonlinear_arith)
            requires
                0 <= tol < r,
        ;
    }
}

/// Blends `a` towards `b` by coverage `cov / 255`, channel by channel (alpha included).
pub fn mix_rgba(a: [u8; 4], b: [u8; 4], cov: u8) -> (r: [u8; 4])
    ensures
        forall|c: int| 0 <= c < 4 ==> #[trigger] r@[c] == mix_channel(a@[c], b@[c], cov),
{
    [mix_u8(a[0], b[0], cov), mix_u8(a[1], b[1], cov), mix_u8(a[2], b[2], cov), mix_u8(a[3], b[3], cov)]
}

fn mix_u8(a: u8, b: u8, cov: u8) -> (r: u8)
    ensures
        r == mix_channel(a, b, cov),
{
    assert(0 <= a * (255 - cov) + b * cov <= 65025) by (nonlinear_arith)
        requires
            0 <= a <= 255,
            0 <= b <= 255,
            0 <= cov <= 255,
    ;
    let v: u32 = a as u32 * (255 - cov as u32) + b as u32 * cov as u32;
    ((v + 127) / 255) as u8
}

/// Full coverage yields `b`, zero coverage yields `a`.
pub proof fn lemma_mix_ends(a: u8, b: u8)
    ensures
        mix_channel(a, b, 255) == b,
        mix_channel(a, b, 0) == a,
{
    assert((a * 0 + b * 255 + 127) / 255 == b) by (nonlinear_arith)
        requires
            0 <= b <= 255,
    ;
    assert((a * 255 + b * 0 + 127) / 255 == a) by (nonlinear_arith)
        requires
            0 <= a <= 255,
    ;
}

/// Blending a value with itself gives it back, whatever the coverage.
pub proof fn lemma_mix_same(a: u8, cov: u8)
    ensures
        mix_channel(a, a, cov) == a,
{
    assert(a * (255 - cov) + a * cov == 255 * a) by (nonlinear_arith);
    assert((255 * a + 127) / 255 == a) by (nonlinear_arith)
        requires
            0 <= a <= 255,
    ;
}

} // verus!
