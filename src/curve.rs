use vstd::prelude::*;

verus! {

/// Number of entries in a complete lookup table: one per integer input
/// speed from 0 up to the device-speed ceiling.
pub const TABLE_SIZE: usize = 257;

/// The integer description of a single-segment table.
///
/// The caller derives these from its numeric parameters: `range_positive`
/// says whether the range is greater than zero, `offset_cells` is the
/// rounded-up dead-zone offset and `range_cells` the rounded-up range.
#[derive(Clone, Copy, Debug, PartialEq, Eq, Structural)]
pub struct CurveShape {
    pub n: usize,
    pub range_positive: bool,
    pub offset_cells: usize,
    pub range_cells: usize,
    pub plateau: bool,
}

/// Where a sample of a table comes from.
pub enum Region {
    /// Degenerate input: the sample is zero.
    Zero,
    /// Dead zone: the sample is the start value.
    Dead,
    /// Interpolated region, at the given index inside the region.
    Interp(usize),
    /// Plateau: the sample is the end value.
    Plateau,
}

impl CurveShape {
    pub open spec fn degenerate(self) -> bool {
        self.n == 0 || !self.range_positive
    }
}

/// Length of the dead zone: the offset, cut to the table.
pub open spec fn dead_len(s: CurveShape) -> nat {
    if s.degenerate() {
        0
    } else if s.offset_cells < s.n {
        s.offset_cells as nat
    } else {
        s.n as nat
    }
}

/// Length of the interpolated region: the range when a plateau follows it,
/// otherwise everything after the dead zone.
pub open spec fn interp_len(s: CurveShape) -> nat {
    let remaining = s.n - dead_len(s);
    if s.degenerate() {
        0
    } else if s.plateau && remaining > s.range_cells {
        s.range_cells as nat
    } else {
        remaining as nat
    }
}

/// The region that sample `k` of a table of shape `s` falls in.
pub open spec fn region_of(s: CurveShape, k: int) -> Region {
    if s.degenerate() {
        Region::Zero
    } else if k < dead_len(s) {
        Region::Dead
    } else if k < dead_len(s) + interp_len(s) {
        Region::Interp((k - dead_len(s)) as usize)
    } else {
        Region::Plateau
    }
}

/// Whether `v` is a valid sample `k` of a table of shape `s`, where
/// `interp(i)` produces the sample at index `i` of the interpolated region.
pub open spec fn sample_ok<V, F: Fn(usize) -> V>(
    s: CurveShape,
    zero: V,
    start: V,
    end: V,
    interp: F,
    k: int,
    v: V,
) -> bool {
    match region_of(s, k) {
        Region::Zero => v == zero,
        Region::Dead => v == start,
        Region::Interp(i) => call_ensures(interp, (i as usize,), v),
        Region::Plateau => v == end,
    }
}

/// Builds a table of `s.n` samples.
///
/// A degenerate shape (no samples, or a range that is not positive) gives
/// `s.n` copies of `zero`. Otherwise the table holds the dead zone at
/// `start`, then the interpolated region, then (with a plateau) `end`.
pub fn generate_sensitivity_curve<V: Copy, F: Fn(usize) -> V>(
    s: CurveShape,
    zero: V,
    start: V,
    end: V,
    interp: F,
) -> (r: Vec<V>)
    requires
        forall|i: usize| call_requires(interp, (i,)),
    ensures
        r@.len() == s.n,
        is_curve(s, zero, start, end, interp, r@),
{
    let mut r: Vec<V> = Vec::new();
    if s.n == 0 || !s.range_positive {
        let mut k: usize = 0;
        while k < s.n
            invariant
                s.degenerate(),
                k <= s.n,
                r@.len() == k,
                forall|j: int| 0 <= j < k ==> #[trigger] r@[j] == zero,
            decreases s.n - k,
        {
            r.push(zero);
            k = k + 1;
        }
        return r;
    }
    let dead: usize = if s.offset_cells < s.n {
        s.offset_cells
    } else {
        s.n
    };
    let mut k: usize = 0;
    while k < dead
        invariant
            dead == dead_len(s),
            dead <= s.n,
            k <= dead,
            r@.len() == k,
            forall|j: int| 0 <= j < k ==> #[trigger] r@[j] == start,
        decreases dead - k,
    {
        r.push(start);
        k = k + 1;
    }
    let remaining: usize = s.n - dead;
    let expo: usize = if s.plateau && remaining > s.range_cells {
        s.range_cells
    } else {
        remaining
    };
    let mut i: usize = 0;
    while i < expo
        invariant
            !s.degenerate(),
            dead == dead_len(s),
            expo == interp_len(s),
            dead + expo <= s.n,
            i <= expo,
            r@.len() == dead + i,
            forall|i: usize| call_requires(interp, (i,)),
            forall|j: int| 0 <= j < dead + i ==> sample_ok(s, zero, start, end, interp, j, #[trigger] r@[j]),
        decreases expo - i,
    {
        let v = interp(i);
        r.push(v);
        i = i + 1;
    }
    let total: usize = dead + expo;
    let mut k: usize = total;
    while k < s.n
        invariant
            !s.degenerate(),
            total == dead_len(s) + interp_len(s),
            total <= k <= s.n,
            r@.len() == k,
            forall|j: int| 0 <= j < k ==> sample_ok(s, zero, start, end, interp, j, #[trigger] r@[j]),
        decreases s.n - k,
    {
        r.push(end);
        k = k + 1;
    }
    r
}


/// Whether `r` is the table that `generate_sensitivity_curve` makes for the
/// shape `s` from these values.
pub open spec fn is_curve<V, F: Fn(usize) -> V>(
    s: CurveShape,
    zero: V,
    start: V,
    end: V,
    interp: F,
    r: Seq<V>,
) -> bool {
    &&& r.len() == s.n
    &&& forall|k: int| 0 <= k < s.n ==> sample_ok(s, zero, start, end, interp, k, #[trigger] r[k])
}

/// Dead zone: with a positive range, the first `min(offset_cells, n)`
/// samples of a table are exactly the start value.
pub proof fn lemma_dead_zone<V, F: Fn(usize) -> V>(
    s: CurveShape,
    zero: V,
    start: V,
    end: V,
    interp: F,
    r: Seq<V>,
)
    requires
        s.range_positive,
        is_curve(s, zero, start, end, interp, r),
    ensures
        forall|k: int| 0 <= k < s.offset_cells && k < s.n ==> #[trigger] r[k] == start,
{
    assert forall|k: int| 0 <= k < s.offset_cells && k < s.n implies #[trigger] r[k] == start by {
        assert(sample_ok(s, zero, start, end, interp, k, r[k]));
    }
}

/// Degenerate input: with no samples or a range that is not positive, a
/// table is `n` zeros.
pub proof fn lemma_degenerate_zeros<V, F: Fn(usize) -> V>(
    s: CurveShape,
    zero: V,
    start: V,
    end: V,
    interp: F,
    r: Seq<V>,
)
    requires
        s.n == 0 || !s.range_positive,
        is_curve(s, zero, start, end, interp, r),
    ensures
        r.len() == s.n,
        forall|k: int| 0 <= k < s.n ==> #[trigger] r[k] == zero,
{
    assert forall|k: int| 0 <= k < s.n implies #[trigger] r[k] == zero by {
        assert(sample_ok(s, zero, start, end, interp, k, r[k]));
    }
}

/// Plateau: with a plateau and a positive range, every sample after the
/// dead zone and the interpolated region is exactly the end value, and the
/// interpolated region covers `range_cells` samples whenever the table
/// reaches past it.
pub proof fn lemma_plateau<V, F: Fn(usize) -> V>(
    s: CurveShape,
    zero: V,
    start: V,
    end: V,
    interp: F,
    r: Seq<V>,
)
    requires
        s.plateau,
        s.range_positive,
        is_curve(s, zero, start, end, interp, r),
    ensures
        s.offset_cells + s.range_cells < s.n ==> interp_len(s) == s.range_cells,
        forall|k: int|
            dead_len(s) + interp_len(s) <= k < s.n ==> #[trigger] r[k] == end,
{
    assert forall|k: int| dead_len(s) + interp_len(s) <= k < s.n implies #[trigger] r[k] == end by {
        assert(sample_ok(s, zero, start, end, interp, k, r[k]));
    }
}

/// Samples do not depend on the table length: sample `k` of two tables that
/// differ only in length comes from the same region, so a short table is
/// the start of a long one.
pub proof fn lemma_prefix_stable(s: CurveShape, t: CurveShape, k: int)
    requires
        s.range_positive == t.range_positive,
        s.offset_cells == t.offset_cells,
        s.range_cells == t.range_cells,
        s.plateau == t.plateau,
        0 <= k < s.n,
        k < t.n,
    ensures
        region_of(s, k) == region_of(t, k),
{
}

/// Returns the first `min(display_cells, TABLE_SIZE)` samples of the
/// complete table of shape `s`, each paired with its index. They are also
/// exactly the table that `s` gives at that shorter length.
pub fn calculate_curve<V: Copy, F: Fn(usize) -> V>(
    display_cells: usize,
    s: CurveShape,
    zero: V,
    start: V,
    end: V,
    interp: F,
) -> (r: Vec<(usize, V)>)
    requires
        s.n == TABLE_SIZE,
        forall|i: usize| call_requires(interp, (i,)),
    ensures
        r@.len() == (if display_cells < TABLE_SIZE { display_cells } else { TABLE_SIZE }),
        forall|k: int|
            0 <= k < r@.len() ==> (#[trigger] r@[k]).0 == k && sample_ok(
                s,
                zero,
                start,
                end,
                interp,
                k,
                r@[k].1,
            ),
        forall|k: int|
            0 <= k < r@.len() ==> sample_ok(
                CurveShape { n: r@.len() as usize, ..s },
                zero,
                start,
                end,
                interp,
                k,
                #[trigger] r@[k].1,
            ),
{
    let limit: usize = if display_cells < TABLE_SIZE {
        display_cells
    } else {
        TABLE_SIZE
    };
    let table = generate_sensitivity_curve(s, zero, start, end, interp);
    let mut r: Vec<(usize, V)> = Vec::new();
    let mut k: usize = 0;
    while k < limit
        invariant
            limit <= TABLE_SIZE,
            s.n == TABLE_SIZE,
            k <= limit,
            r@.len() == k,
            is_curve(s, zero, start, end, interp, table@),
            forall|j: int|
                0 <= j < k ==> (#[trigger] r@[j]).0 == j && sample_ok(
                    s,
                    zero,
                    start,
                    end,
                    interp,
                    j,
                    r@[j].1,
                ),
        decreases limit - k,
    {
        r.push((k, table[k]));
        k = k + 1;
    }
    proof {
        let short = CurveShape { n: limit, ..s };
        assert forall|k: int| 0 <= k < r@.len() implies sample_ok(short, zero, start, end, interp, k, #[trigger] r@[k].1) by {
            lemma_prefix_stable(short, s, k);
            assert(sample_ok(s, zero, start, end, interp, k, r@[k].1));
        }
    }
    r
}

} // verus!
