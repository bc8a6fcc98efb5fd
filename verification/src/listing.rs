//! The order in which nodes are listed: by a time, and by their place in the store where
//! the times are equal.
use vstd::prelude::*;

verus! {

/// A time and a position.
pub type Mark = (i64, usize);

/// Whether `a` is listed before `b`.
pub open spec fn before(a: Mark, b: Mark) -> bool {
    a.0 < b.0 || (a.0 == b.0 && a.1 < b.1)
}

/// Whether the marks stand in listing order.
pub open spec fn in_order(s: Seq<Mark>) -> bool {
    forall|i: int, j: int| 0 <= i < j < s.len() ==> before(#[trigger] s[i], #[trigger] s[j])
}

/// Whether no position occurs twice.
pub open spec fn distinct_positions(s: Seq<Mark>) -> bool {
    forall|i: int, j: int|
        0 <= i < j < s.len() ==> (#[trigger] s[i]).1 != (#[trigger] s[j]).1
}

/// Whether two runs of marks hold the same ones.
pub open spec fn same_marks(a: Seq<Mark>, b: Seq<Mark>) -> bool {
    forall|m: Mark| #[trigger] a.contains(m) <==> #[trigger] b.contains(m)
}

/// Two ordered runs of the same marks are the same.
pub proof fn law_listing_is_unique(a: Seq<Mark>, b: Seq<Mark>)
    requires
        in_order(a),
        in_order(b),
        same_marks(a, b),
    ensures
        a == b,
    decreases a.len(),
{
    if a.len() == 0 {
        if b.len() > 0 {
            assert(b.contains(b[0]));
            assert(a.contains(b[0]));
        }
        assert(a =~= b);
    } else {
        assert(a.contains(a[a.len() - 1]));
        assert(b.contains(a.last()));
        assert(b.len() > 0);
        assert(b.contains(b[b.len() - 1]));
        assert(a.contains(b.last()));
        let i = choose|i: int| 0 <= i < a.len() && a[i] == b.last();
        let j = choose|j: int| 0 <= j < b.len() && b[j] == a.last();
        if a.last() != b.last() {
            assert(before(a[i], a[a.len() - 1]));
            assert(before(b[j], b[b.len() - 1]));
            assert(false);
        }
        let x = a.drop_last();
        let y = b.drop_last();
        assert forall|m: Mark| #[trigger] x.contains(m) <==> #[trigger] y.contains(m) by {
            if x.contains(m) {
                let k = choose|k: int| 0 <= k < x.len() && x[k] == m;
                assert(a[k] == m);
                assert(a.contains(m));
                assert(b.contains(m));
                let l = choose|l: int| 0 <= l < b.len() && b[l] == m;
                assert(before(a[k], a[a.len() - 1]));
                assert(y[l] == m);
            }
            if y.contains(m) {
                let k = choose|k: int| 0 <= k < y.len() && y[k] == m;
                assert(b[k] == m);
                assert(b.contains(m));
                assert(a.contains(m));
                let l = choose|l: int| 0 <= l < a.len() && a[l] == m;
                assert(before(b[k], b[b.len() - 1]));
                assert(x[l] == m);
            }
        }
        law_listing_is_unique(x, y);
        assert(a =~= x.push(a.last()));
        assert(b =~= y.push(b.last()));
    }
}

/// Merges two ordered runs of marks without a position in common.
fn merge(a: &Vec<Mark>, b: &Vec<Mark>) -> (r: Vec<Mark>)
    requires
        in_order(a@),
        in_order(b@),
        forall|i: int, j: int|
            0 <= i < a@.len() && 0 <= j < b@.len() ==> (#[trigger] a@[i]).1 != (#[trigger] b@[j]).1,
    ensures
        in_order(r@),
        forall|m: Mark| #[trigger] r@.contains(m) <==> a@.contains(m) || b@.contains(m),
        r@.len() == a@.len() + b@.len(),
{
    let mut out: Vec<Mark> = Vec::new();
    let mut i: usize = 0;
    let mut j: usize = 0;
    while i < a.len() || j < b.len()
        invariant
            i <= a@.len(),
            j <= b@.len(),
            in_order(a@),
            in_order(b@),
            forall|i: int, j: int|
                0 <= i < a@.len() && 0 <= j < b@.len() ==> (#[trigger] a@[i]).1 != (
                #[trigger] b@[j]).1,
            out@.len() == i + j,
            in_order(out@),
            forall|k: int, l: int|
                0 <= k < out@.len() && i <= l < a@.len() ==> before(
                    #[trigger] out@[k],
                    #[trigger] a@[l],
                ),
            forall|k: int, l: int|
                0 <= k < out@.len() && j <= l < b@.len() ==> before(
                    #[trigger] out@[k],
                    #[trigger] b@[l],
                ),
            forall|k: int| 0 <= k < out@.len() ==> a@.contains(#[trigger] out@[k]) || b@.contains(
                out@[k],
            ),
            forall|k: int| 0 <= k < i ==> out@.contains(#[trigger] a@[k]),
            forall|k: int| 0 <= k < j ==> out@.contains(#[trigger] b@[k]),
        decreases a@.len() - i + b@.len() - j,
    {
        let take_a = if i < a.len() && j < b.len() {
            a[i].0 < b[j].0 || (a[i].0 == b[j].0 && a[i].1 < b[j].1)
        } else {
            i < a.len()
        };
        let ghost old_out = out@;
        if take_a {
            let m = a[i];
            proof {
                assert(a@.contains(a@[i as int]));
                assert forall|l: int| i + 1 <= l < a@.len() implies before(m, #[trigger] a@[l]) by {
                    assert(before(a@[i as int], a@[l]));
                }
                assert forall|l: int| j <= l < b@.len() implies before(m, #[trigger] b@[l]) by {
                    assert(a@[i as int].1 != b@[j as int].1);
                    assert(before(m, b@[j as int]));
                    if l > j {
                        assert(before(b@[j as int], b@[l]));
                    }
                }
            }
            out.push(m);
            i = i + 1;
        } else {
            let m = b[j];
            proof {
                assert(b@.contains(b@[j as int]));
                assert forall|l: int| j + 1 <= l < b@.len() implies before(m, #[trigger] b@[l]) by {
                    assert(before(b@[j as int], b@[l]));
                }
                assert forall|l: int| i <= l < a@.len() implies before(m, #[trigger] a@[l]) by {
                    assert(a@[i as int].1 != b@[j as int].1);
                    assert(before(m, a@[i as int]));
                    if l > i {
                        assert(before(a@[i as int], a@[l]));
                    }
                }
            }
            out.push(m);
            j = j + 1;
        }
        proof {
            assert(out@.drop_last() =~= old_out);
            assert(out@.contains(out@[out@.len() - 1]));
            assert forall|k: int| 0 <= k < i implies out@.contains(#[trigger] a@[k]) by {
                if old_out.contains(a@[k]) {
                    let p = choose|p: int| 0 <= p < old_out.len() && old_out[p] == a@[k];
                    assert(out@[p] == a@[k]);
                }
            }
            assert forall|k: int| 0 <= k < j implies out@.contains(#[trigger] b@[k]) by {
                if old_out.contains(b@[k]) {
                    let p = choose|p: int| 0 <= p < old_out.len() && old_out[p] == b@[k];
                    assert(out@[p] == b@[k]);
                }
            }
            assert forall|k: int| 0 <= k < out@.len() implies a@.contains(#[trigger] out@[k])
                || b@.contains(out@[k]) by {
                if k < old_out.len() {
                    assert(out@[k] == old_out[k]);
                }
            }
        }
    }
    proof {
        assert forall|m: Mark| #[trigger] out@.contains(m) <==> a@.contains(m) || b@.contains(m) by {
            if out@.contains(m) {
                let k = choose|k: int| 0 <= k < out@.len() && out@[k] == m;
                assert(a@.contains(out@[k]) || b@.contains(out@[k]));
            }
            if a@.contains(m) {
                let k = choose|k: int| 0 <= k < a@.len() && a@[k] == m;
                assert(out@.contains(a@[k]));
            }
            if b@.contains(m) {
                let k = choose|k: int| 0 <= k < b@.len() && b@[k] == m;
                assert(out@.contains(b@[k]));
            }
        }
    }
    out
}

/// Puts marks into listing order.
pub fn sort_marks(marks: &Vec<Mark>) -> (r: Vec<Mark>)
    requires
        distinct_positions(marks@),
    ensures
        in_order(r@),
        same_marks(r@, marks@),
        r@.len() == marks@.len(),
{
    let r = sort_range(marks, 0, marks.len());
    proof {
        assert(marks@.subrange(0, marks@.len() as int) =~= marks@);
    }
    r
}

fn sort_range(marks: &Vec<Mark>, from: usize, to: usize) -> (r: Vec<Mark>)
    requires
        distinct_positions(marks@),
        from <= to <= marks@.len(),
    ensures
        in_order(r@),
        same_marks(r@, marks@.subrange(from as int, to as int)),
        r@.len() == to - from,
    decreases to - from,
{
    let ghost s = marks@.subrange(from as int, to as int);
    if to - from <= 1 {
        let mut out: Vec<Mark> = Vec::new();
        if from < to {
            out.push(marks[from]);
        }
        proof {
            assert(out@ =~= s);
        }
        return out;
    }
    let mid = from + (to - from) / 2;
    let a = sort_range(marks, from, mid);
    let b = sort_range(marks, mid, to);
    let ghost x = marks@.subrange(from as int, mid as int);
    let ghost y = marks@.subrange(mid as int, to as int);
    proof {
        assert forall|i: int, j: int| 0 <= i < a@.len() && 0 <= j < b@.len() implies (
        #[trigger] a@[i]).1 != (#[trigger] b@[j]).1 by {
            assert(a@.contains(a@[i]));
            assert(x.contains(a@[i]));
            assert(b@.contains(b@[j]));
            assert(y.contains(b@[j]));
            let p = choose|p: int| 0 <= p < x.len() && x[p] == a@[i];
            let q = choose|q: int| 0 <= q < y.len() && y[q] == b@[j];
            assert(marks@[from + p] == a@[i]);
            assert(marks@[mid + q] == b@[j]);
        }
    }
    let out = merge(&a, &b);
    proof {
        assert forall|m: Mark| #[trigger] out@.contains(m) <==> #[trigger] s.contains(m) by {
            if out@.contains(m) {
                if a@.contains(m) {
                    assert(x.contains(m));
                    let p = choose|p: int| 0 <= p < x.len() && x[p] == m;
                    assert(s[p] == m);
                } else {
                    assert(y.contains(m));
                    let q = choose|q: int| 0 <= q < y.len() && y[q] == m;
                    assert(s[mid - from + q] == m);
                }
            }
            if s.contains(m) {
                let p = choose|p: int| 0 <= p < s.len() && s[p] == m;
                if p < mid - from {
                    assert(x[p] == m);
                    assert(x.contains(m));
                    assert(a@.contains(m));
                } else {
                    assert(y[p - (mid - from)] == m);
                    assert(y.contains(m));
                    assert(b@.contains(m));
                }
            }
        }
    }
    out
}

} // verus!
