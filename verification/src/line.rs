use vstd::prelude::*;
use vstd::arithmetic::power2::is_pow2;

verus! {

/// The values of a line that are not 0, in their order.
pub open spec fn packed(s: Seq<int>) -> Seq<int>
    decreases s.len(),
{
    if s.len() == 0 {
        s
    } else if s[0] == 0 {
        packed(s.skip(1))
    } else {
        seq![s[0]] + packed(s.skip(1))
    }
}

/// Tiles met from the front: where the first two add up to a power of two
/// they become one tile, which is not looked at again; else the first stays
/// as it is. Then the same for what is left.
pub open spec fn merged(v: Seq<int>) -> Seq<int>
    decreases v.len(),
{
    if v.len() == 0 {
        v
    } else if v.len() >= 2 && is_pow2(v[0] + v[1]) {
        seq![v[0] + v[1]] + merged(v.skip(2))
    } else {
        seq![v[0]] + merged(v.skip(1))
    }
}

/// `n` empty cells.
pub open spec fn zeros(n: nat) -> Seq<int> {
    Seq::new(n, |k: int| 0int)
}

/// A line after a push toward its position 0: the tiles packed together and
/// merged from the front, then empty cells up to the line's length.
pub open spec fn pushed_line(s: Seq<int>) -> Seq<int> {
    let m = merged(packed(s));
    m + zeros((s.len() - m.len()) as nat)
}

/// The sum of a line's values.
pub open spec fn sum(s: Seq<int>) -> int
    decreases s.len(),
{
    if s.len() == 0 {
        0
    } else {
        s[0] + sum(s.skip(1))
    }
}

/// Packing leaves a line no longer than it was.
pub proof fn lemma_packed_len(s: Seq<int>)
    ensures
        packed(s).len() <= s.len(),
    decreases s.len(),
{
    if s.len() > 0 {
        lemma_packed_len(s.skip(1));
    }
}

/// Merging leaves no more tiles than there were.
pub proof fn lemma_merged_len(v: Seq<int>)
    ensures
        merged(v).len() <= v.len(),
    decreases v.len(),
{
    if v.len() == 0 {
    } else if v.len() >= 2 && is_pow2(v[0] + v[1]) {
        lemma_merged_len(v.skip(2));
    } else {
        lemma_merged_len(v.skip(1));
    }
}

/// A push keeps the length of the line.
pub proof fn lemma_pushed_len(s: Seq<int>)
    ensures
        merged(packed(s)).len() <= s.len(),
        pushed_line(s).len() == s.len(),
{
    lemma_packed_len(s);
    lemma_merged_len(packed(s));
}

/// Empty cells at the front of a line add nothing to its tiles.
pub proof fn lemma_packed_skip(s: Seq<int>, m: int)
    requires
        0 <= m <= s.len(),
        forall|k: int| 0 <= k < m ==> s[k] == 0,
    ensures
        packed(s) == packed(s.skip(m)),
    decreases m,
{
    if m == 0 {
        assert(s.skip(0) =~= s);
    } else {
        let t = s.skip(1);
        assert forall|k: int| 0 <= k < m - 1 implies t[k] == 0 by {
            assert(t[k] == s[k + 1]);
        }
        lemma_packed_skip(t, m - 1);
        assert(t.skip(m - 1) =~= s.skip(m));
    }
}

/// A line whose cells behind position 0 are all empty is left as it is.
pub proof fn lemma_pushed_settled(s: Seq<int>)
    requires
        forall|k: int| 1 <= k < s.len() ==> s[k] == 0,
    ensures
        pushed_line(s) == s,
{
    if s.len() == 0 {
        assert(pushed_line(s) =~= s);
    } else {
        let t = s.skip(1);
        assert forall|k: int| 0 <= k < t.len() implies t[k] == 0 by {
            assert(t[k] == s[k + 1]);
        }
        lemma_packed_skip(t, t.len() as int);
        assert(t.skip(t.len() as int) =~= Seq::<int>::empty());
        assert(packed(t) =~= Seq::<int>::empty());
        if s[0] == 0 {
            assert(packed(s) =~= Seq::<int>::empty());
            assert(merged(packed(s)) =~= Seq::<int>::empty());
            assert(pushed_line(s) =~= s);
        } else {
            let p = packed(s);
            assert(p =~= seq![s[0]]);
            assert(p.skip(1) =~= Seq::<int>::empty());
            assert(merged(p.skip(1)) =~= Seq::<int>::empty());
            assert(merged(p) =~= seq![s[0]]);
            assert(pushed_line(s) =~= s);
        }
    }
}

/// A tile that slides into the empty cell at position 0, over empty cells
/// only, does not change what the push makes of the line.
pub proof fn lemma_pushed_slide(s: Seq<int>, m: int)
    requires
        0 < m < s.len(),
        forall|k: int| 0 <= k < m ==> s[k] == 0,
        s[m] != 0,
    ensures
        pushed_line(s.update(0, s[m]).update(m, 0)) == pushed_line(s),
{
    let t = s.update(0, s[m]).update(m, 0);
    lemma_packed_skip(s, m);
    let a = s.skip(m);
    assert(a.skip(1) =~= s.skip(m + 1));
    assert(packed(s) == seq![s[m]] + packed(s.skip(m + 1)));
    let u = t.skip(1);
    assert forall|k: int| 0 <= k < m implies u[k] == 0 by {
        assert(u[k] == t[k + 1]);
    }
    lemma_packed_skip(u, m);
    assert(u.skip(m) =~= s.skip(m + 1));
    assert(packed(t) == seq![s[m]] + packed(u));
}

/// The tile at position 0 meets the next tile behind it. Where the two add
/// up to a power of two they merge at position 0; either way position 0 is
/// settled, and the rest of the line is pushed by itself.
pub proof fn lemma_pushed_meet(s: Seq<int>, m: int)
    requires
        0 < m < s.len(),
        s[0] != 0,
        forall|k: int| 0 < k < m ==> s[k] == 0,
        s[m] != 0,
    ensures
        is_pow2(s[0] + s[m]) ==> pushed_line(s) == seq![s[0] + s[m]] + pushed_line(
            s.update(m, 0).skip(1),
        ),
        !is_pow2(s[0] + s[m]) ==> pushed_line(s) == seq![s[0]] + pushed_line(s.skip(1)),
{
    let t = s.skip(1);
    assert forall|k: int| 0 <= k < m - 1 implies t[k] == 0 by {
        assert(t[k] == s[k + 1]);
    }
    lemma_packed_skip(t, m - 1);
    assert(t.skip(m - 1) =~= s.skip(m));
    let a = s.skip(m);
    let rest = s.skip(m + 1);
    assert(a.skip(1) =~= rest);
    assert(packed(a) == seq![s[m]] + packed(rest));
    assert(packed(t) == seq![s[m]] + packed(rest));
    let p = packed(s);
    assert(p == seq![s[0]] + packed(t));
    assert(p.len() >= 2);
    assert(p[0] == s[0]);
    assert(p[1] == s[m]);
    lemma_pushed_len(s);
    if is_pow2(s[0] + s[m]) {
        let u = s.update(m, 0).skip(1);
        assert forall|k: int| 0 <= k < m implies u[k] == 0 by {
            assert(u[k] == s.update(m, 0)[k + 1]);
        }
        lemma_packed_skip(u, m);
        assert(u.skip(m) =~= rest);
        assert(p.skip(2) =~= packed(rest));
        assert(merged(p) == seq![s[0] + s[m]] + merged(packed(rest)));
        lemma_pushed_len(u);
        assert(pushed_line(s) =~= seq![s[0] + s[m]] + pushed_line(u));
    } else {
        assert(p.skip(1) =~= packed(t));
        assert(merged(p) == seq![s[0]] + merged(packed(t)));
        lemma_pushed_len(t);
        assert(pushed_line(s) =~= seq![s[0]] + pushed_line(t));
    }
}

/// Changing one value of a line changes its sum by the difference.
pub proof fn lemma_sum_update(s: Seq<int>, k: int, v: int)
    requires
        0 <= k < s.len(),
    ensures
        sum(s.update(k, v)) == sum(s) - s[k] + v,
    decreases k,
{
    let t = s.update(k, v);
    if k == 0 {
        assert(t.skip(1) =~= s.skip(1));
    } else {
        lemma_sum_update(s.skip(1), k - 1, v);
        assert(t.skip(1) =~= s.skip(1).update(k - 1, v));
    }
}

/// How many tiles each tile of `merged(v)` is made of: 2 where a merge took
/// place, else 1.
pub open spec fn spans(v: Seq<int>) -> Seq<int>
    decreases v.len(),
{
    if v.len() == 0 {
        Seq::empty()
    } else if v.len() >= 2 && is_pow2(v[0] + v[1]) {
        seq![2int] + spans(v.skip(2))
    } else {
        seq![1int] + spans(v.skip(1))
    }
}

/// No tile takes part in more than one merge. The tiles of `merged(v)` are
/// made of the tiles of `v` in their order, each of one tile or of two
/// neighbours, and no tile of `v` goes into two of them: the `k`-th is made
/// of the tiles that follow those of the tiles before it.
pub proof fn lemma_merge_at_most_once(v: Seq<int>, k: int)
    requires
        0 <= k < merged(v).len(),
    ensures
        spans(v).len() == merged(v).len(),
        sum(spans(v)) == v.len(),
        ({
            let first = sum(spans(v).take(k));
            &&& 0 <= first
            &&& first + spans(v)[k] <= v.len()
            &&& spans(v)[k] == 1 ==> merged(v)[k] == v[first]
            &&& spans(v)[k] != 1 ==> spans(v)[k] == 2 && merged(v)[k] == v[first] + v[first + 1]
        }),
    decreases v.len(),
{
    lemma_spans(v);
    let sp = spans(v);
    if k == 0 {
        assert(sp.take(0) =~= Seq::<int>::empty());
    } else {
        let step = sp[0];
        let rest = v.skip(step);
        assert(sp.skip(1) =~= spans(rest));
        assert(merged(v).skip(1) =~= merged(rest));
        lemma_merge_at_most_once(rest, k - 1);
        assert(sp.take(k).skip(1) =~= spans(rest).take(k - 1));
        assert(sp.take(k)[0] == step);
        assert(merged(v)[k] == merged(rest)[k - 1]);
        assert(sp[k] == spans(rest)[k - 1]);
    }
}

/// `spans(v)` has a number for each tile of `merged(v)`, and the numbers
/// add up to the number of tiles of `v`.
pub proof fn lemma_spans(v: Seq<int>)
    ensures
        spans(v).len() == merged(v).len(),
        sum(spans(v)) == v.len(),
    decreases v.len(),
{
    if v.len() == 0 {
    } else if v.len() >= 2 && is_pow2(v[0] + v[1]) {
        lemma_spans(v.skip(2));
        assert(spans(v).skip(1) =~= spans(v.skip(2)));
    } else {
        lemma_spans(v.skip(1));
        assert(spans(v).skip(1) =~= spans(v.skip(1)));
    }
}

/// A line without an empty cell is packed already.
pub proof fn lemma_packed_full(s: Seq<int>)
    requires
        forall|k: int| 0 <= k < s.len() ==> s[k] != 0,
    ensures
        packed(s) == s,
    decreases s.len(),
{
    if s.len() > 0 {
        let t = s.skip(1);
        assert forall|k: int| 0 <= k < t.len() implies t[k] != 0 by {
            assert(t[k] == s[k + 1]);
        }
        lemma_packed_full(t);
        assert(seq![s[0]] + t =~= s);
    }
}

/// Tiles of which no two neighbours add up to a power of two stay as they
/// are.
pub proof fn lemma_merged_none(v: Seq<int>)
    requires
        forall|k: int| 0 <= k < v.len() - 1 ==> !is_pow2(#[trigger] v[k] + v[k + 1]),
    ensures
        merged(v) == v,
    decreases v.len(),
{
    if v.len() > 0 {
        let t = v.skip(1);
        assert forall|k: int| 0 <= k < t.len() - 1 implies !is_pow2(#[trigger] t[k] + t[k + 1]) by {
            assert(t[k] == v[k + 1]);
            assert(t[k + 1] == v[k + 1 + 1]);
            assert(!is_pow2(v[k + 1] + v[k + 1 + 1]));
        }
        lemma_merged_none(t);
        if v.len() >= 2 {
            assert(!is_pow2(v[0int] + v[0int + 1]));
        }
        assert(seq![v[0]] + t =~= v);
    }
}

/// A full line of which no two neighbours add up to a power of two is not
/// changed by a push.
pub proof fn lemma_pushed_none(s: Seq<int>)
    requires
        forall|k: int| 0 <= k < s.len() ==> s[k] != 0,
        forall|k: int| 0 <= k < s.len() - 1 ==> !is_pow2(#[trigger] s[k] + s[k + 1]),
    ensures
        pushed_line(s) == s,
{
    lemma_packed_full(s);
    lemma_merged_none(s);
    assert(pushed_line(s) =~= s);
}

/// A line that is as long packed as before has no empty cell.
pub proof fn lemma_packed_same_len(s: Seq<int>)
    requires
        packed(s).len() == s.len(),
    ensures
        packed(s) == s,
    decreases s.len(),
{
    if s.len() > 0 {
        let t = s.skip(1);
        lemma_packed_len(t);
        lemma_packed_same_len(t);
        assert(seq![s[0]] + t =~= s);
    }
}

/// Tiles that are as many merged as before did not merge.
pub proof fn lemma_merged_same_len(v: Seq<int>)
    requires
        merged(v).len() == v.len(),
    ensures
        merged(v) == v,
    decreases v.len(),
{
    if v.len() > 0 {
        if v.len() >= 2 && is_pow2(v[0] + v[1]) {
            lemma_merged_len(v.skip(2));
        } else {
            let t = v.skip(1);
            lemma_merged_len(t);
            lemma_merged_same_len(t);
            assert(seq![v[0]] + t =~= v);
        }
    }
}

/// A push that changes a line leaves its last cell empty.
pub proof fn lemma_pushed_room(s: Seq<int>)
    requires
        pushed_line(s) != s,
    ensures
        s.len() > 0,
        pushed_line(s).last() == 0,
{
    lemma_pushed_len(s);
    let m = merged(packed(s));
    if m.len() == s.len() {
        lemma_packed_len(s);
        lemma_merged_len(packed(s));
        lemma_packed_same_len(s);
        lemma_merged_same_len(s);
        assert(pushed_line(s) =~= s);
    }
}

/// The sum of two lines put together is the sum of their sums.
pub proof fn lemma_sum_concat(a: Seq<int>, b: Seq<int>)
    ensures
        sum(a + b) == sum(a) + sum(b),
    decreases a.len(),
{
    if a.len() == 0 {
        assert(a + b =~= b);
    } else {
        lemma_sum_concat(a.skip(1), b);
        assert((a + b).skip(1) =~= a.skip(1) + b);
    }
}

/// Packing keeps the sum of a line.
pub proof fn lemma_packed_sum(s: Seq<int>)
    ensures
        sum(packed(s)) == sum(s),
    decreases s.len(),
{
    if s.len() > 0 {
        lemma_packed_sum(s.skip(1));
        if s[0] != 0 {
            assert(packed(s).skip(1) =~= packed(s.skip(1)));
        }
    }
}

/// Merging keeps the sum of the tiles.
pub proof fn lemma_merged_sum(v: Seq<int>)
    ensures
        sum(merged(v)) == sum(v),
    decreases v.len(),
{
    if v.len() == 0 {
    } else if v.len() >= 2 && is_pow2(v[0] + v[1]) {
        lemma_merged_sum(v.skip(2));
        assert(merged(v).skip(1) =~= merged(v.skip(2)));
        assert(v.skip(1).skip(1) =~= v.skip(2));
        assert(sum(v.skip(1)) == v[1] + sum(v.skip(2)));
    } else {
        lemma_merged_sum(v.skip(1));
        assert(merged(v).skip(1) =~= merged(v.skip(1)));
    }
}

/// Empty cells add nothing to a sum.
pub proof fn lemma_zeros_sum(n: nat)
    ensures
        sum(zeros(n)) == 0,
    decreases n,
{
    if n > 0 {
        lemma_zeros_sum((n - 1) as nat);
        assert(zeros(n).skip(1) =~= zeros((n - 1) as nat));
    }
}

/// A push keeps the sum of a line: tiles that slide keep their values, and
/// a merged tile holds the sum of the two that it came of.
pub proof fn lemma_pushed_sum(s: Seq<int>)
    ensures
        sum(pushed_line(s)) == sum(s),
{
    let m = merged(packed(s));
    lemma_pushed_len(s);
    lemma_packed_sum(s);
    lemma_merged_sum(packed(s));
    lemma_zeros_sum((s.len() - m.len()) as nat);
    lemma_sum_concat(m, zeros((s.len() - m.len()) as nat));
}

} // verus!
