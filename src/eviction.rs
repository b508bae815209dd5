use vstd::prelude::*;

verus! {

/// `sel` is a choice of `count` distinct positions of `ts`, never `exclude`,
/// none of them newer than any position left out (besides `exclude`).
pub open spec fn is_oldest_choice(ts: Seq<u64>, exclude: Option<usize>, count: nat, sel: Seq<usize>) -> bool {
    &&& sel.len() == count
    &&& forall|a: int, b: int| 0 <= a < b < sel.len() ==> sel[a] != sel[b]
    &&& forall|a: int|
        0 <= a < sel.len() ==> (#[trigger] sel[a]) < ts.len() && Some(sel[a]) != exclude
    &&& forall|a: int, j: int|
        0 <= a < sel.len() && 0 <= j < ts.len() && Some(j as usize) != exclude && !sel.contains(
            j as usize,
        ) ==> ts[#[trigger] sel[a] as int] <= #[trigger] ts[j]
}

/// Picks the `count` oldest positions of `ts` (smallest timestamps first),
/// leaving out `exclude`.
pub fn oldest_indices(ts: &Vec<u64>, exclude: Option<usize>, count: usize) -> (r: Vec<usize>)
    requires
        count + (if exclude is Some && exclude->0 < ts.len() {
            1int
        } else {
            0
        }) <= ts.len(),
    ensures
        is_oldest_choice(ts@, exclude, count as nat, r@),
{
    let n = ts.len();
    let mut rest: Vec<usize> = Vec::new();
    let mut i: usize = 0;
    while i < n
        invariant
            i <= n == ts.len(),
            rest.len() + (if exclude is Some && exclude->0 < i {
                1int
            } else {
                0
            }) == i,
            forall|b: int| 0 <= b < rest.len() ==> (#[trigger] rest[b]) < i && Some(rest[b]) != exclude,
            forall|a: int, b: int| 0 <= a < b < rest.len() ==> rest[a] < rest[b],
            forall|j: int|
                0 <= j < i && Some(j as usize) != exclude ==> #[trigger] rest@.contains(j as usize),
        decreases n - i,
    {
        let ghost rest0 = rest@;
        if Some(i) != exclude {
            rest.push(i);
            assert(rest@.contains(i) ) by {
                assert(rest@[rest.len() - 1] == i);
            }
            assert forall|j: int|
                0 <= j < i + 1 && Some(j as usize) != exclude implies #[trigger] rest@.contains(j as usize) by {
                if j < i {
                    assert(rest0.contains(j as usize));
                    let b = choose|b: int| 0 <= b < rest0.len() && rest0[b] == j as usize;
                    assert(rest@[b] == j as usize);
                }
            }
        }
        i = i + 1;
    }
    let mut sel: Vec<usize> = Vec::new();
    while sel.len() < count
        invariant
            n == ts.len(),
            count + (if exclude is Some && exclude->0 < ts.len() {
                1int
            } else {
                0
            }) <= ts.len(),
            sel.len() <= count,
            rest.len() + sel.len() + (if exclude is Some && exclude->0 < n {
                1int
            } else {
                0
            }) == n,
            forall|b: int| 0 <= b < rest.len() ==> (#[trigger] rest[b]) < n && Some(rest[b]) != exclude,
            forall|a: int| 0 <= a < sel.len() ==> (#[trigger] sel[a]) < n && Some(sel[a]) != exclude,
            forall|a: int, b: int| 0 <= a < b < rest.len() ==> rest[a] != rest[b],
            forall|a: int, b: int| 0 <= a < b < sel.len() ==> sel[a] != sel[b],
            forall|a: int, b: int| 0 <= a < sel.len() && 0 <= b < rest.len() ==> sel[a] != rest[b],
            forall|j: int|
                0 <= j < n && Some(j as usize) != exclude ==> #[trigger] rest@.contains(j as usize)
                    || sel@.contains(j as usize),
            forall|a: int, b: int|
                0 <= a < sel.len() && 0 <= b < rest.len() ==> ts[#[trigger] sel[a] as int] <= ts[#[trigger] rest[b] as int],
        decreases count - sel.len(),
    {
        let mut p: usize = 0;
        let mut k: usize = 1;
        while k < rest.len()
            invariant
                n == ts.len(),
                0 < rest.len(),
                p < rest.len(),
                1 <= k <= rest.len(),
                forall|b: int| 0 <= b < rest.len() ==> (#[trigger] rest[b]) < n,
                forall|b: int| 0 <= b < k ==> ts[rest[p as int] as int] <= ts[#[trigger] rest[b] as int],
            decreases rest.len() - k,
        {
            if ts[rest[k]] < ts[rest[p]] {
                p = k;
            }
            k = k + 1;
        }
        let ghost old_rest = rest@;
        let ghost old_sel = sel@;
        let x = rest.remove(p);
        sel.push(x);
        assert forall|j: int|
            0 <= j < n && Some(j as usize) != exclude implies #[trigger] rest@.contains(j as usize)
                || sel@.contains(j as usize) by {
            if !sel@.contains(j as usize) {
                assert(!old_sel.contains(j as usize)) by {
                    if old_sel.contains(j as usize) {
                        let a = choose|a: int| 0 <= a < old_sel.len() && old_sel[a] == j as usize;
                        assert(sel@[a] == j as usize);
                    }
                }
                assert(old_rest.contains(j as usize));
                let b = choose|b: int| 0 <= b < old_rest.len() && old_rest[b] == j as usize;
                if b == p {
                    assert(sel@[sel.len() - 1] == j as usize);
                } else if b < p {
                    assert(rest@[b] == j as usize);
                } else {
                    assert(rest@[b - 1] == j as usize);
                }
            }
        }
    }
    assert forall|a: int, j: int|
        0 <= a < sel.len() && 0 <= j < ts.len() && Some(j as usize) != exclude && !sel@.contains(
            j as usize,
        ) implies ts[#[trigger] sel[a] as int] <= #[trigger] ts[j] by {
        assert(rest@.contains(j as usize) || sel@.contains(j as usize));
        let b = choose|b: int| 0 <= b < rest.len() && rest@[b] == j as usize;
        assert(ts[sel[a] as int] <= ts[rest[b] as int]);
    }
    sel
}

} // verus!
