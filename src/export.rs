use vstd::prelude::*;
use crate::error::{AccelError, joined};

verus! {

/// Name of the settings file written into the driver's install directory.
pub const EXPORT_FILE_NAME: &'static str = "settings.json";

/// Name of the driver's writer program in its install directory.
pub const WRITER_NAME: &'static str = "writer.exe";

/// Rejects an empty install path; any other path passes.
pub fn validate_install_path(path: &str) -> (r: Result<(), AccelError>)
    ensures
        path@.len() != 0 ==> r is Ok,
        path@.len() == 0 ==> (r matches Err(AccelError::Validation(m)) && m@ == "Raw Accel path is empty"@),
{
    if path.is_empty() {
        Err(AccelError::Validation("Raw Accel path is empty".to_owned()))
    } else {
        Ok(())
    }
}

/// Rejects a writer program that was not found at `writer_path`.
pub fn require_writer(found: bool, writer_path: &str) -> (r: Result<(), AccelError>)
    ensures
        found ==> r is Ok,
        !found ==> (r matches Err(AccelError::Validation(m)) && m@ == "Writer executable not found at: "@
            + writer_path@),
{
    if found {
        Ok(())
    } else {
        Err(AccelError::Validation(joined("Writer executable not found at: ", writer_path)))
    }
}

/// The driver's form of a curve: the first point dropped, and the others
/// laid out flat as `x, y, x, y, ...`.
pub open spec fn flat_lut<V>(points: Seq<(V, V)>) -> Seq<V> {
    let n: nat = if points.len() == 0 {
        0
    } else {
        (2 * (points.len() - 1)) as nat
    };
    Seq::new(
        n,
        |i: int| if i % 2 == 0 { points[i / 2 + 1].0 } else { points[i / 2 + 1].1 },
    )
}

/// Lays out a curve as the driver reads it: every point but the first, as
/// `x, y, x, y, ...`.
pub fn flatten_lut<V: Copy>(points: &Vec<(V, V)>) -> (r: Vec<V>)
    requires
        points@.len() <= usize::MAX / 2,
    ensures
        r@ == flat_lut(points@),
{
    let mut r: Vec<V> = Vec::new();
    let mut i: usize = 1;
    while i < points.len()
        invariant
            1 <= i,
            points@.len() <= usize::MAX / 2,
            points@.len() == 0 ==> i == 1,
            points@.len() > 0 ==> i <= points@.len(),
            r@.len() == 2 * (i - 1),
            forall|k: int| 0 <= k < r@.len() ==> #[trigger] r@[k] == (if k % 2 == 0 {
                points@[k / 2 + 1].0
            } else {
                points@[k / 2 + 1].1
            }),
        decreases points@.len() - i,
    {
        r.push(points[i].0);
        r.push(points[i].1);
        i = i + 1;
    }
    assert(r@.len() == flat_lut(points@).len());
    assert forall|k: int| 0 <= k < r@.len() implies r@[k] == flat_lut(points@)[k] by {
        assert(r@[k] == (if k % 2 == 0 {
            points@[k / 2 + 1].0
        } else {
            points@[k / 2 + 1].1
        }));
    }
    assert(r@ =~= flat_lut(points@));
    r
}

} // verus!
