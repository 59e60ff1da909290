//! The mathematical model of a census: for each block-type name that was
//! seen, one count per vertical level.

use vstd::prelude::*;

verus! {

/// Block-type names to their rows of counts. Entry `i` of a row is the count
/// at the level `i` above the start of the world's range.
pub type Census = Map<Seq<char>, Seq<int>>;

/// A row of `levels` zeros.
pub open spec fn zeros(levels: nat) -> Seq<int> {
    Seq::new(levels, |i: int| 0int)
}

/// Every row of `m` has `levels` entries.
pub open spec fn shaped(m: Census, levels: nat) -> bool {
    forall|k: Seq<char>| #[trigger] m.contains_key(k) ==> m[k].len() == levels
}

/// No count of `m` is negative.
pub open spec fn non_negative(m: Census) -> bool {
    forall|k: Seq<char>, i: int|
        m.contains_key(k) && 0 <= i < m[k].len() ==> 0 <= #[trigger] m[k][i]
}

/// No count of `m` is above `limit`.
pub open spec fn bounded(m: Census, limit: int) -> bool {
    forall|k: Seq<char>, i: int|
        m.contains_key(k) && 0 <= i < m[k].len() ==> #[trigger] m[k][i] <= limit
}

/// The row of `name`, or zeros where the name was never seen.
pub open spec fn row_or_zeros(m: Census, levels: nat, name: Seq<char>) -> Seq<int> {
    if m.contains_key(name) {
        m[name]
    } else {
        zeros(levels)
    }
}

/// The census after one more occurrence of `name` at level index `i`.
pub open spec fn counted(m: Census, levels: nat, i: int, name: Seq<char>) -> Census {
    let row = row_or_zeros(m, levels, name);
    m.insert(name, row.update(i, row[i] + 1))
}

/// The entry-wise sum of two rows.
pub open spec fn row_sum(a: Seq<int>, b: Seq<int>) -> Seq<int> {
    Seq::new(a.len(), |i: int| a[i] + b[i])
}

/// The census that holds every name of `a` and of `b`: a name of both with
/// the sum of its two rows, a name of one with that one's row.
pub open spec fn merged(a: Census, b: Census) -> Census {
    Map::new(
        |k: Seq<char>| a.contains_key(k) || b.contains_key(k),
        |k: Seq<char>|
            if a.contains_key(k) && b.contains_key(k) {
                row_sum(a[k], b[k])
            } else if a.contains_key(k) {
                a[k]
            } else {
                b[k]
            },
    )
}

/// No entry-wise sum of a row of `a` and the row of `b` for the same name is
/// above `limit`.
pub open spec fn sum_fits(a: Census, b: Census, limit: int) -> bool {
    forall|k: Seq<char>, i: int|
        a.contains_key(k) && b.contains_key(k) && 0 <= i < a[k].len() ==> (#[trigger] a[k][i])
            + b[k][i] <= limit
}

} // verus!
