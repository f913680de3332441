use vstd::prelude::*;

verus! {

/// The migrations still to apply to a database at schema version `current`,
/// out of `total`: every index from `current` on, in order (migration `i`
/// brings the schema to version `i + 1`). A negative or unknown version needs
/// none.
pub open spec fn pending(current: i64, total: usize) -> Seq<usize> {
    if 0 <= current < total {
        Seq::new((total - current) as nat, |k: int| (current + k) as usize)
    } else {
        Seq::empty()
    }
}

/// Lists the migrations a database at schema version `current` still needs.
pub fn pending_migrations(current: i64, total: usize) -> (r: Vec<usize>)
    ensures
        r@ == pending(current, total),
{
    let mut r: Vec<usize> = Vec::new();
    if current < 0 || current as u64 >= total as u64 {
        assert(r@ =~= pending(current, total));
        return r;
    }
    let start = current as usize;
    let mut i = start;
    while i < total
        invariant
            start <= i <= total,
            start == current,
            r@ == pending(current, total).take(i - start),
        decreases total - i,
    {
        r.push(i);
        i = i + 1;
        assert(r@ =~= pending(current, total).take(i - start));
    }
    assert(r@ =~= pending(current, total));
    r
}

} // verus!
