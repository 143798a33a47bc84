use vstd::prelude::*;

verus! {

/// One segment of a chained curve: how many cells its range covers,
/// whether it holds flat at `end` past its range, and its end value.
#[derive(Clone, Copy, Debug)]
pub struct SegmentSpec<V> {
    pub cells: usize,
    pub plateau: bool,
    pub end: V,
}

/// Whether sample `g` of a segment of `n` samples lies in its plateau.
pub open spec fn in_plateau(n: nat, cells: usize, plateau: bool, g: nat) -> bool {
    plateau && n > cells && g >= cells
}

/// Builds one segment of `n` samples: `interp(g)` for each index `g`, except
/// that with a plateau and more samples than `cells`, the samples from
/// `cells` on are `end`.
pub fn generate_segment<V: Copy, F: Fn(usize) -> V>(
    n: usize,
    cells: usize,
    plateau: bool,
    end: V,
    interp: F,
) -> (r: Vec<V>)
    requires
        forall|g: usize| call_requires(interp, (g,)),
    ensures
        r@.len() == n,
        forall|g: int|
            0 <= g < n ==> if in_plateau(n as nat, cells, plateau, g as nat) {
                #[trigger] r@[g] == end
            } else {
                call_ensures(interp, (g as usize,), r@[g])
            },
{
    let mut r: Vec<V> = Vec::new();
    let expo: usize = if plateau && n > cells {
        cells
    } else {
        n
    };
    let mut g: usize = 0;
    while g < expo
        invariant
            expo <= n,
            expo == (if plateau && n > cells { cells } else { n }),
            g <= expo,
            r@.len() == g,
            forall|g: usize| call_requires(interp, (g,)),
            forall|h: int| 0 <= h < g ==> call_ensures(interp, (h as usize,), #[trigger] r@[h]),
        decreases expo - g,
    {
        let v = interp(g);
        r.push(v);
        g = g + 1;
    }
    while g < n
        invariant
            expo <= g <= n,
            expo == (if plateau && n > cells { cells } else { n }),
            r@.len() == g,
            forall|h: int| 0 <= h < expo ==> call_ensures(interp, (h as usize,), #[trigger] r@[h]),
            forall|h: int| expo <= h < g ==> #[trigger] r@[h] == end,
        decreases n - g,
    {
        r.push(end);
        g = g + 1;
    }
    r
}


/// Length of segment `j` when `left` cells of the table are still free:
/// every segment but the last takes at most its own cells, the last one
/// takes all that is left.
pub open spec fn take_len<V>(specs: Seq<SegmentSpec<V>>, j: int, left: nat) -> nat {
    if j + 1 == specs.len() {
        left
    } else if (specs[j].cells as nat) < left {
        specs[j].cells as nat
    } else {
        left
    }
}

/// Cells of a table of `total` entries still free before segment `j`.
pub open spec fn left_before<V>(total: nat, specs: Seq<SegmentSpec<V>>, j: int) -> nat
    decreases j,
{
    if j <= 0 {
        total
    } else {
        let l = left_before(total, specs, j - 1);
        (l - take_len(specs, j - 1, l)) as nat
    }
}

/// Number of table entries that segment `j` fills.
pub open spec fn seg_len<V>(total: nat, specs: Seq<SegmentSpec<V>>, j: int) -> nat {
    take_len(specs, j, left_before(total, specs, j))
}

/// Position in the table of the first entry of segment `j`.
pub open spec fn seg_pos<V>(total: nat, specs: Seq<SegmentSpec<V>>, j: int) -> nat {
    (total - left_before(total, specs, j)) as nat
}

/// Samples skipped at the front of segment `j`: later segments drop their
/// first sample, which repeats the previous segment's last one.
pub open spec fn seg_skip(j: int) -> nat {
    if j == 0 {
        0
    } else {
        1
    }
}

/// Start value of segment `j` in the table `r`: `first` for the first
/// segment, and for each later one the last entry written before it
/// (`zero` when nothing was written).
pub open spec fn seg_seed<V>(total: nat, specs: Seq<SegmentSpec<V>>, first: V, zero: V, r: Seq<V>, j: int) -> V {
    if j == 0 {
        first
    } else if seg_pos(total, specs, j) == 0 {
        zero
    } else {
        r[seg_pos(total, specs, j) - 1]
    }
}

/// Whether entry `m` of segment `j` in table `r` is right, where `f(j, g, s)`
/// produces sample `g` of segment `j` started at `s`.
pub open spec fn seg_sample_ok<V, F: Fn(usize, usize, V) -> V>(
    total: nat,
    specs: Seq<SegmentSpec<V>>,
    first: V,
    zero: V,
    f: F,
    r: Seq<V>,
    j: int,
    m: int,
) -> bool {
    let n = seg_len(total, specs, j) + seg_skip(j);
    let g = m + seg_skip(j);
    let v = r[seg_pos(total, specs, j) + m];
    if in_plateau(n, specs[j].cells, specs[j].plateau, g as nat) {
        v == specs[j].end
    } else {
        call_ensures(f, (j as usize, g as usize, seg_seed(total, specs, first, zero, r, j)), v)
    }
}

/// Whether the first `upto` segments of `r` are right.
pub open spec fn chain_prefix_ok<V, F: Fn(usize, usize, V) -> V>(
    total: nat,
    specs: Seq<SegmentSpec<V>>,
    first: V,
    zero: V,
    f: F,
    r: Seq<V>,
    upto: int,
) -> bool {
    forall|j: int, m: int|
        0 <= j < upto && 0 <= m < seg_len(total, specs, j) ==> #[trigger] seg_sample_ok(
            total,
            specs,
            first,
            zero,
            f,
            r,
            j,
            m,
        )
}

proof fn lemma_left_shrinks<V>(total: nat, specs: Seq<SegmentSpec<V>>, j: int)
    requires
        0 <= j,
    ensures
        left_before(total, specs, j) <= total,
        seg_len(total, specs, j) <= left_before(total, specs, j),
        left_before(total, specs, j + 1) == left_before(total, specs, j) - seg_len(total, specs, j),
        seg_pos(total, specs, j + 1) == seg_pos(total, specs, j) + seg_len(total, specs, j),
    decreases j,
{
    if j > 0 {
        lemma_left_shrinks(total, specs, j - 1);
    }
}

proof fn lemma_prefix_kept<V, F: Fn(usize, usize, V) -> V>(
    total: nat,
    specs: Seq<SegmentSpec<V>>,
    first: V,
    zero: V,
    f: F,
    r: Seq<V>,
    r2: Seq<V>,
    upto: int,
)
    requires
        0 <= upto,
        seg_pos(total, specs, upto) <= r.len() <= r2.len(),
        r2.subrange(0, r.len() as int) == r,
        chain_prefix_ok(total, specs, first, zero, f, r, upto),
    ensures
        chain_prefix_ok(total, specs, first, zero, f, r2, upto),
{
    assert forall|j: int, m: int|
        0 <= j < upto && 0 <= m < seg_len(total, specs, j) implies #[trigger] seg_sample_ok(
            total,
            specs,
            first,
            zero,
            f,
            r2,
            j,
            m,
        ) by {
        lemma_pos_monotone(total, specs, j + 1, upto);
        lemma_left_shrinks(total, specs, j);
        assert(seg_sample_ok(total, specs, first, zero, f, r, j, m));
        assert(r2[seg_pos(total, specs, j) + m] == r[seg_pos(total, specs, j) + m]);
        if j > 0 && seg_pos(total, specs, j) > 0 {
            assert(r2[seg_pos(total, specs, j) - 1] == r[seg_pos(total, specs, j) - 1]);
        }
    }
}

proof fn lemma_pos_monotone<V>(total: nat, specs: Seq<SegmentSpec<V>>, a: int, b: int)
    requires
        0 <= a <= b,
    ensures
        seg_pos(total, specs, a) <= seg_pos(total, specs, b),
    decreases b - a,
{
    if a < b {
        lemma_left_shrinks(total, specs, b - 1);
        lemma_pos_monotone(total, specs, a, b - 1);
    }
}

/// The segments tile the table: the first starts at entry 0, each starts
/// where the one before it ends, and the last one ends at entry `total`.
pub proof fn lemma_segments_fill<V>(total: nat, specs: Seq<SegmentSpec<V>>)
    requires
        specs.len() > 0,
    ensures
        seg_pos(total, specs, 0) == 0,
        forall|j: int|
            0 <= j < specs.len() - 1 ==> #[trigger] seg_pos(total, specs, j + 1) == seg_pos(total, specs, j)
                + seg_len(total, specs, j),
        seg_pos(total, specs, specs.len() - 1) + seg_len(total, specs, specs.len() - 1) == total,
{
    assert forall|j: int| 0 <= j < specs.len() - 1 implies #[trigger] seg_pos(total, specs, j + 1) == seg_pos(total, specs, j)
        + seg_len(total, specs, j) by {
        lemma_left_shrinks(total, specs, j);
    }
    lemma_left_shrinks(total, specs, specs.len() - 1);
}

/// Builds a table of `total` entries out of the segments `specs`, in order.
///
/// Each segment fills the entries that `seg_len` gives it, starting where
/// the one before ended; it is produced by `generate_segment` from
/// `f(j, _, seed)`, where the seed of each segment after the first is the
/// last entry written before it.
pub fn chain_segments<V: Copy, F: Fn(usize, usize, V) -> V>(
    total: usize,
    specs: &Vec<SegmentSpec<V>>,
    first: V,
    zero: V,
    f: F,
) -> (r: Vec<V>)
    requires
        specs@.len() > 0,
        total < usize::MAX,
        forall|j: usize, g: usize, s: V| call_requires(f, (j, g, s)),
    ensures
        r@.len() == total,
        chain_prefix_ok(total as nat, specs@, first, zero, f, r@, specs@.len() as int),
{
    let ghost sp = specs@;
    let mut r: Vec<V> = Vec::new();
    let mut left: usize = total;
    let mut last: V = zero;
    let mut j: usize = 0;
    while j < specs.len()
        invariant
            sp == specs@,
            sp.len() > 0,
            total < usize::MAX,
            j <= sp.len(),
            left == left_before(total as nat, sp, j as int),
            left <= total,
            r@.len() == total - left,
            j > 0 && r@.len() > 0 ==> last == r@[r@.len() - 1],
            j > 0 && r@.len() == 0 ==> last == zero,
            j == 0 ==> last == zero,
            forall|j: usize, g: usize, s: V| call_requires(f, (j, g, s)),
            chain_prefix_ok(total as nat, sp, first, zero, f, r@, j as int),
        decreases sp.len() - j,
    {
        proof {
            lemma_left_shrinks(total as nat, sp, j as int);
        }
        let spec_j = specs[j];
        let len: usize = if j + 1 == specs.len() {
            left
        } else if spec_j.cells < left {
            spec_j.cells
        } else {
            left
        };
        assert(len == seg_len(total as nat, sp, j as int));
        let seed: V = if j == 0 {
            first
        } else {
            last
        };
        assert(seed == seg_seed(total as nat, sp, first, zero, r@, j as int));
        if len > 0 {
            let skip: usize = if j == 0 {
                0
            } else {
                1
            };
            let n: usize = len + skip;
            let ghost r0 = r@;
            let jj = j;
            let fr = &f;
            let step = |g: usize| -> (v: V)
                ensures
                    call_ensures(*fr, (jj, g, seed), v),
                { fr(jj, g, seed) };
            let seg = generate_segment(n, spec_j.cells, spec_j.plateau, spec_j.end, step);
            let mut g: usize = skip;
            while g < n
                invariant
                    skip <= g <= n,
                    n == len + skip,
                    skip == seg_skip(j as int),
                    seg@.len() == n,
                    r@.len() == r0.len() + (g - skip),
                    r@.subrange(0, r0.len() as int) == r0,
                    forall|h: int| skip <= h < g ==> #[trigger] r@[r0.len() + h - skip] == seg@[h],
                decreases n - g,
            {
                r.push(seg[g]);
                g = g + 1;
            }
            last = seg[n - 1];
            proof {
                assert(r@[r0.len() + (n - 1) - skip] == seg@[n - 1]);
                lemma_prefix_kept(total as nat, sp, first, zero, f, r0, r@, j as int);
                assert forall|jq: int, m: int|
                    0 <= jq < j + 1 && 0 <= m < seg_len(total as nat, sp, jq) implies #[trigger] seg_sample_ok(
                        total as nat,
                        sp,
                        first,
                        zero,
                        f,
                        r@,
                        jq,
                        m,
                    ) by {
                    if jq == j {
                        let h = m + skip;
                        assert(r@[r0.len() + h - skip] == seg@[h]);
                        if j > 0 && r0.len() > 0 {
                            assert(r@[r0.len() - 1] == r0[r0.len() - 1]);
                        }
                    }
                }
            }
        } else {
            proof {
                assert forall|jq: int, m: int|
                    0 <= jq < j + 1 && 0 <= m < seg_len(total as nat, sp, jq) implies #[trigger] seg_sample_ok(
                        total as nat,
                        sp,
                        first,
                        zero,
                        f,
                        r@,
                        jq,
                        m,
                    ) by {
                    assert(jq < j);
                }
            }
        }
        left = left - len;
        j = j + 1;
    }
    proof {
        lemma_left_shrinks(total as nat, sp, sp.len() - 1);
    }
    r
}

} // verus!
