//! The order in which releases are shown: newest release date first.
use vstd::prelude::*;

use crate::status::chars_of;

verus! {

/// `a <= b` as `str` compares: character by character, a prefix first.
pub open spec fn text_le(a: Seq<char>, b: Seq<char>) -> bool
    decreases a.len(),
{
    if a.len() == 0 {
        true
    } else if b.len() == 0 {
        false
    } else if (a[0] as u32) < (b[0] as u32) {
        true
    } else if (a[0] as u32) > (b[0] as u32) {
        false
    } else {
        text_le(a.drop_first(), b.drop_first())
    }
}

proof fn lemma_text_le_reflexive(a: Seq<char>)
    ensures
        text_le(a, a),
    decreases a.len(),
{
    if a.len() > 0 {
        lemma_text_le_reflexive(a.drop_first());
    }
}

proof fn lemma_text_le_total(a: Seq<char>, b: Seq<char>)
    ensures
        text_le(a, b) || text_le(b, a),
    decreases a.len(),
{
    if a.len() > 0 && b.len() > 0 && a[0] as u32 == b[0] as u32 {
        lemma_text_le_total(a.drop_first(), b.drop_first());
    }
}

proof fn lemma_text_le_transitive(a: Seq<char>, b: Seq<char>, c: Seq<char>)
    requires
        text_le(a, b),
        text_le(b, c),
    ensures
        text_le(a, c),
    decreases a.len(),
{
    if a.len() > 0 && b.len() > 0 && c.len() > 0 && a[0] as u32 == b[0] as u32 && b[0] as u32
        == c[0] as u32 {
        lemma_text_le_transitive(a.drop_first(), b.drop_first(), c.drop_first());
    }
}

fn text_le_chars(a: &Vec<char>, b: &Vec<char>) -> (r: bool)
    ensures
        r == text_le(a@, b@),
{
    let mut i: usize = 0;
    assert(a@.skip(0) =~= a@);
    assert(b@.skip(0) =~= b@);
    while i < a.len() && i < b.len() && a[i] as u32 == b[i] as u32
        invariant
            i <= a.len(),
            i <= b.len(),
            text_le(a@.skip(i as int), b@.skip(i as int)) == text_le(a@, b@),
        decreases a.len() - i,
    {
        assert(a@.skip(i as int).drop_first() =~= a@.skip(i + 1));
        assert(b@.skip(i as int).drop_first() =~= b@.skip(i + 1));
        i = i + 1;
    }
    if i == a.len() {
        true
    } else if i == b.len() {
        false
    } else {
        (a[i] as u32) < (b[i] as u32)
    }
}

/// The positions of `dates` from the latest date to the earliest, equal
/// dates in their given order (a stable sort, newest first).
pub fn newest_first(dates: &Vec<String>) -> (r: Vec<usize>)
    ensures
        r.len() == dates.len(),
        forall|i: int, j: int| 0 <= i < j < r.len() ==> r[i] != r[j],
        forall|i: int| 0 <= i < r.len() ==> (#[trigger] r[i]) < dates.len(),
        forall|i: int, j: int|
            0 <= i < j < r.len() ==> text_le(dates[r[j] as int]@, dates[r[i] as int]@),
        forall|i: int, j: int|
            0 <= i < j < r.len() && text_le(dates[r[i] as int]@, dates[r[j] as int]@) ==> r[i]
                < r[j],
{
    let n = dates.len();
    let mut d: Vec<Vec<char>> = Vec::new();
    let mut rest: Vec<usize> = Vec::new();
    let mut i: usize = 0;
    while i < n
        invariant
            i <= n == dates.len(),
            d.len() == i,
            rest.len() == i,
            forall|x: int| 0 <= x < i ==> (#[trigger] d[x])@ == dates[x]@,
            forall|x: int| 0 <= x < i ==> #[trigger] rest[x] == x,
        decreases n - i,
    {
        d.push(chars_of(dates[i].as_str()));
        rest.push(i);
        i = i + 1;
    }
    let mut sel: Vec<usize> = Vec::new();
    assert forall|j: int| 0 <= j < n implies #[trigger] rest@.contains(j as usize)
        || sel@.contains(j as usize) by {
        assert(rest@[j] == j as usize);
    }
    while rest.len() > 0
        invariant
            n == dates.len() == d.len(),
            rest.len() + sel.len() == n,
            forall|x: int| 0 <= x < n ==> (#[trigger] d[x])@ == dates[x]@,
            forall|b: int| 0 <= b < rest.len() ==> (#[trigger] rest[b]) < n,
            forall|a: int| 0 <= a < sel.len() ==> (#[trigger] sel[a]) < n,
            forall|a: int, b: int| 0 <= a < b < rest.len() ==> rest[a] < rest[b],
            forall|a: int, b: int| 0 <= a < b < sel.len() ==> sel[a] != sel[b],
            forall|a: int, b: int| 0 <= a < sel.len() && 0 <= b < rest.len() ==> sel[a] != rest[b],
            forall|j: int|
                0 <= j < n ==> #[trigger] rest@.contains(j as usize) || sel@.contains(j as usize),
            forall|a: int, b: int|
                0 <= a < sel.len() && 0 <= b < rest.len() ==> text_le(
                    d[#[trigger] rest[b] as int]@,
                    d[#[trigger] sel[a] as int]@,
                ),
            forall|a: int, b: int|
                0 <= a < sel.len() && 0 <= b < rest.len() && text_le(
                    d[#[trigger] sel[a] as int]@,
                    d[#[trigger] rest[b] as int]@,
                ) ==> sel[a] < rest[b],
            forall|a: int, b: int|
                0 <= a < b < sel.len() ==> text_le(d[sel[b] as int]@, d[sel[a] as int]@),
            forall|a: int, b: int|
                0 <= a < b < sel.len() && text_le(d[sel[a] as int]@, d[sel[b] as int]@) ==> sel[a]
                    < sel[b],
        decreases rest.len(),
    {
        let mut p: usize = 0;
        let mut k: usize = 1;
        proof {
            lemma_text_le_reflexive(d[rest[0] as int]@);
        }
        while k < rest.len()
            invariant
                n == d.len(),
                0 < rest.len(),
                p < k <= rest.len(),
                forall|b: int| 0 <= b < rest.len() ==> (#[trigger] rest[b]) < n,
                forall|b: int|
                    0 <= b < k ==> text_le(d[#[trigger] rest[b] as int]@, d[rest[p as int] as int]@),
                forall|b: int|
                    0 <= b < p ==> !text_le(d[rest[p as int] as int]@, d[#[trigger] rest[b] as int]@),
            decreases rest.len() - k,
        {
            if !text_le_chars(&d[rest[k]], &d[rest[p]]) {
                proof {
                    let dp = d[rest[p as int] as int]@;
                    let dk = d[rest[k as int] as int]@;
                    lemma_text_le_total(dk, dp);
                    lemma_text_le_reflexive(dk);
                    assert forall|b: int| 0 <= b < k + 1 implies text_le(
                        d[#[trigger] rest[b] as int]@,
                        dk,
                    ) by {
                        if b < k {
                            lemma_text_le_transitive(d[rest[b] as int]@, dp, dk);
                        }
                    }
                    assert forall|b: int| 0 <= b < k implies !text_le(
                        dk,
                        d[#[trigger] rest[b] as int]@,
                    ) by {
                        if text_le(dk, d[rest[b] as int]@) {
                            lemma_text_le_transitive(dk, d[rest[b] as int]@, dp);
                        }
                    }
                }
                p = k;
            }
            k = k + 1;
        }
        let ghost old_rest = rest@;
        let ghost old_sel = sel@;
        let x = rest.remove(p);
        sel.push(x);
        proof {
            assert forall|j: int| 0 <= j < n implies #[trigger] rest@.contains(j as usize)
                || sel@.contains(j as usize) by {
                if !sel@.contains(j as usize) {
                    assert(!old_sel.contains(j as usize)) by {
                        if old_sel.contains(j as usize) {
                            let a = choose|a: int| 0 <= a < old_sel.len() && old_sel[a] == j as usize;
                            assert(sel@[a] == j as usize);
                        }
                    }
                    assert(old_rest.contains(j as usize));
                    let b = choose|b: int| 0 <= b < old_rest.len() && old_rest[b] == j as usize;
                    if b == p {
                        assert(sel@[sel.len() - 1] == j as usize);
                    } else if b < p {
                        assert(rest@[b] == j as usize);
                    } else {
                        assert(rest@[b - 1] == j as usize);
                    }
                }
            }
            assert forall|a: int, b: int|
                0 <= a < sel.len() && 0 <= b < rest.len() implies text_le(
                d[#[trigger] rest[b] as int]@,
                d[#[trigger] sel[a] as int]@,
            ) by {
                let ob = if b < p {
                    b
                } else {
                    b + 1
                };
                assert(rest[b] == old_rest[ob]);
                if a < old_sel.len() {
                    assert(sel[a] == old_sel[a]);
                }
            }
            assert forall|a: int, b: int|
                0 <= a < sel.len() && 0 <= b < rest.len() && text_le(
                    d[#[trigger] sel[a] as int]@,
                    d[#[trigger] rest[b] as int]@,
                ) implies sel[a] < rest[b] by {
                let ob = if b < p {
                    b
                } else {
                    b + 1
                };
                assert(rest[b] == old_rest[ob]);
                if a < old_sel.len() {
                    assert(sel[a] == old_sel[a]);
                }
            }
            assert forall|a: int, b: int|
                0 <= a < b < sel.len() implies text_le(d[sel[b] as int]@, d[sel[a] as int]@) by {
                if b < old_sel.len() {
                    assert(sel[a] == old_sel[a] && sel[b] == old_sel[b]);
                } else {
                    assert(sel[a] == old_sel[a]);
                    assert(old_rest[p as int] == x);
                }
            }
            assert forall|a: int, b: int|
                0 <= a < b < sel.len() && text_le(d[sel[a] as int]@, d[sel[b] as int]@) implies sel[a]
                < sel[b] by {
                if b < old_sel.len() {
                    assert(sel[a] == old_sel[a] && sel[b] == old_sel[b]);
                } else {
                    assert(sel[a] == old_sel[a]);
                    assert(old_rest[p as int] == x);
                }
            }
        }
    }
    proof {
        assert forall|i: int, j: int| 0 <= i < j < sel.len() implies text_le(
            dates[sel[j] as int]@,
            dates[sel[i] as int]@,
        ) && (text_le(dates[sel[i] as int]@, dates[sel[j] as int]@) ==> sel[i] < sel[j]) by {
            assert(d[sel[i] as int]@ == dates[sel[i] as int]@);
            assert(d[sel[j] as int]@ == dates[sel[j] as int]@);
        }
    }
    sel
}

} // verus!
