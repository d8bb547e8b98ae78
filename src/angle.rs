use vstd::prelude::*;

verus! {

/// Angles are integers: one full turn is `TURN` units (hundredths of a degree).
pub const TURN: i64 = 36000;

/// Fixed-point scale of cosine and sine values: `TRIG_ONE` stands for 1.
pub const TRIG_ONE: i64 = 16384;

/// An angle brought into `[0, TURN)`.
pub open spec fn wrap_spec(a: int) -> int {
    a % (TURN as int)
}

/// Brings any angle into `[0, TURN)`, keeping it the same modulo a full turn.
pub fn normalize_angle(a: i64) -> (r: i64)
    ensures
        r == wrap_spec(a as int),
        0 <= r < TURN,
{
    let m = a % TURN;
    if m < 0 {
        m + TURN
    } else {
        m
    }
}

/// Cosine and sine of every angle, as fixed-point values scaled by `TRIG_ONE`.
pub struct TrigTable {
    pub cos: Vec<i64>,
    pub sin: Vec<i64>,
}

impl TrigTable {
    /// One entry per angle unit, each within `[-TRIG_ONE, TRIG_ONE]`.
    pub open spec fn wf(&self) -> bool {
        &&& self.cos@.len() == TURN
        &&& self.sin@.len() == TURN
        &&& forall|i: int| 0 <= i < TURN ==> -TRIG_ONE <= #[trigger] self.cos@[i] <= TRIG_ONE
        &&& forall|i: int| 0 <= i < TURN ==> -TRIG_ONE <= #[trigger] self.sin@[i] <= TRIG_ONE
    }

    /// A table from sampled values; `None` unless there are `TURN` samples of
    /// each, all within `[-TRIG_ONE, TRIG_ONE]`.
    pub fn from_samples(cos: Vec<i64>, sin: Vec<i64>) -> (r: Option<TrigTable>)
        ensures
            r is Some <==> (TrigTable { cos, sin }).wf(),
            r matches Some(t) ==> t.cos@ == cos@ && t.sin@ == sin@,
    {
        if cos.len() != TURN as usize || sin.len() != TURN as usize {
            return None;
        }
        let mut i: usize = 0;
        while i < TURN as usize
            invariant
                cos@.len() == TURN,
                sin@.len() == TURN,
                i <= TURN,
                forall|k: int| 0 <= k < i ==> -TRIG_ONE <= #[trigger] cos@[k] <= TRIG_ONE,
                forall|k: int| 0 <= k < i ==> -TRIG_ONE <= #[trigger] sin@[k] <= TRIG_ONE,
            decreases TURN - i,
        {
            if cos[i] < -TRIG_ONE || cos[i] > TRIG_ONE || sin[i] < -TRIG_ONE || sin[i] > TRIG_ONE {
                return None;
            }
            i += 1;
        }
        Some(TrigTable { cos, sin })
    }

    /// The fixed-point cosine of angle `a`.
    pub fn cos_at(&self, a: i64) -> (r: i64)
        requires
            self.wf(),
            0 <= a < TURN,
        ensures
            r == self.cos@[a as int],
            -TRIG_ONE <= r <= TRIG_ONE,
    {
        self.cos[a as usize]
    }

    /// The fixed-point sine of angle `a`.
    pub fn sin_at(&self, a: i64) -> (r: i64)
        requires
            self.wf(),
            0 <= a < TURN,
        ensures
            r == self.sin@[a as int],
            -TRIG_ONE <= r <= TRIG_ONE,
    {
        self.sin[a as usize]
    }
}

/// Largest argument of `isqrt`.
pub const ISQRT_MAX: u64 = 0x3FFF_FFFF_FFFF_FFFF;

/// The integer square root: the largest `r` with `r * r <= n`.
pub fn isqrt(n: u64) -> (r: u64)
    requires
        n <= ISQRT_MAX,
    ensures
        r * r <= n < (r + 1) * (r + 1),
        r < 0x8000_0000,
{
    let mut lo: u64 = 0;
    let mut hi: u64 = 0x8000_0000;
    assert(hi * hi > ISQRT_MAX) by (nonlinear_arith)
        requires hi == 0x8000_0000u64, ISQRT_MAX == 0x3FFF_FFFF_FFFF_FFFFu64;
    while hi - lo > 1
        invariant
            lo < hi <= 0x8000_0000,
            lo * lo <= n,
            n < hi * hi,
        decreases hi - lo,
    {
        let mid = lo + (hi - lo) / 2;
        assert(mid * mid <= 0x8000_0000u64 * 0x8000_0000u64) by (nonlinear_arith)
            requires mid <= 0x8000_0000u64;
        if mid * mid <= n {
            lo = mid;
        } else {
            hi = mid;
        }
    }
    lo
}

/// Integer division rounding toward zero, as machine division does.
pub open spec fn tdiv(a: int, b: int) -> int {
    if a >= 0 {
        a / b
    } else {
        -((-a) / b)
    }
}

} // verus!
