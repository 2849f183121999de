//! Grouping of the lines of a bundle request by inventory item, so that the
//! quantities requested of one item are added up and checked once.
use vstd::prelude::*;

verus! {

/// The distinct item ids of `ids`, in the order of their first occurrence.
pub open spec fn distinct_ids(ids: Seq<i64>) -> Seq<i64>
    decreases ids.len(),
{
    if ids.len() == 0 {
        Seq::<i64>::empty()
    } else {
        let d = distinct_ids(ids.drop_last());
        if d.contains(ids.last()) {
            d
        } else {
            d.push(ids.last())
        }
    }
}

/// The positions of `ids` that hold `id`, in ascending order.
pub open spec fn positions_of(ids: Seq<i64>, id: i64) -> Seq<usize>
    decreases ids.len(),
{
    if ids.len() == 0 {
        Seq::<usize>::empty()
    } else {
        let p = positions_of(ids.drop_last(), id);
        if ids.last() == id {
            p.push((ids.len() - 1) as usize)
        } else {
            p
        }
    }
}

/// The lines of a request that name one inventory item.
#[derive(Debug)]
pub struct ItemGroup {
    pub item_id: i64,
    /// Positions of the lines that name `item_id`, ascending.
    pub lines: Vec<usize>,
}

fn vec_contains(v: &Vec<i64>, x: i64) -> (b: bool)
    ensures
        b == v@.contains(x),
{
    let mut k: usize = 0;
    while k < v.len()
        invariant
            k <= v.len(),
            forall|j: int| 0 <= j < k ==> v@[j] != x,
        decreases v.len() - k,
    {
        if v[k] == x {
            assert(v@[k as int] == x);
            return true;
        }
        k = k + 1;
    }
    false
}

proof fn lemma_take_last(ids: Seq<i64>, i: int)
    requires
        0 <= i < ids.len(),
    ensures
        ids.take(i + 1).drop_last() == ids.take(i),
        ids.take(i + 1).last() == ids[i],
        ids.take(i + 1).len() == i + 1,
{
    assert(ids.take(i + 1).drop_last() =~= ids.take(i));
}

/// The distinct item ids of `ids`, in the order of their first occurrence.
pub fn distinct_item_ids(ids: &Vec<i64>) -> (d: Vec<i64>)
    ensures
        d@ == distinct_ids(ids@),
{
    let mut d: Vec<i64> = Vec::new();
    let mut i: usize = 0;
    assert(ids@.take(0) =~= Seq::<i64>::empty());
    while i < ids.len()
        invariant
            i <= ids.len(),
            d@ == distinct_ids(ids@.take(i as int)),
        decreases ids.len() - i,
    {
        proof {
            lemma_take_last(ids@, i as int);
        }
        if !vec_contains(&d, ids[i]) {
            d.push(ids[i]);
        }
        i = i + 1;
    }
    assert(ids@.take(ids.len() as int) =~= ids@);
    d
}

/// The positions of `ids` that hold `id`, ascending.
pub fn positions(ids: &Vec<i64>, id: i64) -> (p: Vec<usize>)
    ensures
        p@ == positions_of(ids@, id),
{
    let mut p: Vec<usize> = Vec::new();
    let mut i: usize = 0;
    assert(ids@.take(0) =~= Seq::<i64>::empty());
    while i < ids.len()
        invariant
            i <= ids.len(),
            p@ == positions_of(ids@.take(i as int), id),
        decreases ids.len() - i,
    {
        proof {
            lemma_take_last(ids@, i as int);
        }
        if ids[i] == id {
            p.push(i);
        }
        i = i + 1;
    }
    assert(ids@.take(ids.len() as int) =~= ids@);
    p
}

/// Groups the lines of a request by item: one group per distinct item id, in
/// the order in which the ids first occur, each holding the positions of the
/// lines that name it.
pub fn group_lines(ids: &Vec<i64>) -> (groups: Vec<ItemGroup>)
    ensures
        groups.len() == distinct_ids(ids@).len(),
        forall|g: int|
            0 <= g < groups.len() ==> {
                &&& #[trigger] groups[g].item_id == distinct_ids(ids@)[g]
                &&& groups[g].lines@ == positions_of(ids@, groups[g].item_id)
            },
{
    let d = distinct_item_ids(ids);
    let mut groups: Vec<ItemGroup> = Vec::new();
    let mut g: usize = 0;
    while g < d.len()
        invariant
            g <= d.len(),
            d@ == distinct_ids(ids@),
            groups.len() == g,
            forall|h: int|
                0 <= h < g ==> {
                    &&& #[trigger] groups[h].item_id == d@[h]
                    &&& groups[h].lines@ == positions_of(ids@, groups[h].item_id)
                },
        decreases d.len() - g,
    {
        let lines = positions(ids, d[g]);
        groups.push(ItemGroup { item_id: d[g], lines });
        g = g + 1;
    }
    groups
}


proof fn lemma_distinct_ids_facts(ids: Seq<i64>)
    ensures
        forall|a: int, b: int|
            0 <= a < b < distinct_ids(ids).len() ==> #[trigger] distinct_ids(ids)[a]
                != #[trigger] distinct_ids(ids)[b],
        forall|i: int| 0 <= i < ids.len() ==> distinct_ids(ids).contains(#[trigger] ids[i]),
        forall|x: i64| #[trigger] distinct_ids(ids).contains(x) ==> ids.contains(x),
    decreases ids.len(),
{
    if ids.len() > 0 {
        let p = ids.drop_last();
        lemma_distinct_ids_facts(p);
        let d = distinct_ids(p);
        assert forall|i: int| 0 <= i < ids.len() implies distinct_ids(ids).contains(#[trigger] ids[i]) by {
            if i < p.len() {
                assert(p[i] == ids[i]);
                assert(d.contains(p[i]));
                if !d.contains(ids.last()) {
                    let k = choose|k: int| 0 <= k < d.len() && d[k] == p[i];
                    assert(d.push(ids.last())[k] == ids[i]);
                }
            } else {
                if !d.contains(ids.last()) {
                    assert(d.push(ids.last())[d.len() as int] == ids[i]);
                }
            }
        }
        assert forall|x: i64| #[trigger] distinct_ids(ids).contains(x) implies ids.contains(x) by {
            if d.contains(x) {
                assert(p.contains(x));
                let k = choose|k: int| 0 <= k < p.len() && p[k] == x;
                assert(ids[k] == x);
            } else {
                assert(ids[ids.len() - 1] == x);
            }
        }
    }
}

proof fn lemma_positions_facts(ids: Seq<i64>, id: i64)
    requires
        ids.len() <= usize::MAX,
    ensures
        forall|k: int|
            0 <= k < positions_of(ids, id).len() ==> {
                &&& (#[trigger] positions_of(ids, id)[k]) < ids.len()
                &&& ids[positions_of(ids, id)[k] as int] == id
            },
        forall|i: int| 0 <= i < ids.len() && #[trigger] ids[i] == id ==> positions_of(ids, id).contains(i as usize),
        forall|k: int, l: int|
            0 <= k < l < positions_of(ids, id).len() ==> #[trigger] positions_of(ids, id)[k]
                < #[trigger] positions_of(ids, id)[l],
    decreases ids.len(),
{
    if ids.len() > 0 {
        let p = ids.drop_last();
        lemma_positions_facts(p, id);
        let q = positions_of(p, id);
        let n = ids.len() - 1;
        assert forall|k: int| 0 <= k < positions_of(ids, id).len() implies {
            &&& (#[trigger] positions_of(ids, id)[k]) < ids.len()
            &&& ids[positions_of(ids, id)[k] as int] == id
        } by {
            if k < q.len() {
                assert(positions_of(ids, id)[k] == q[k]);
                assert(p[q[k] as int] == ids[q[k] as int]);
            }
        }
        assert forall|i: int| 0 <= i < ids.len() && #[trigger] ids[i] == id implies positions_of(ids, id).contains(i as usize) by {
            if i < n {
                assert(p[i] == ids[i]);
                assert(q.contains(i as usize));
                let k = choose|k: int| 0 <= k < q.len() && q[k] == i as usize;
                assert(positions_of(ids, id)[k] == i as usize);
            } else {
                assert(positions_of(ids, id)[q.len() as int] == i as usize);
            }
        }
    }
}

/// The groups of a request partition its lines: the distinct ids hold no
/// item twice and every line's item is among them (and no other item), and
/// the positions kept for an item are exactly the lines that name it, in
/// ascending order. Adding up a group's quantities in that order thus adds
/// them in the order of the request.
pub proof fn lemma_groups_partition_lines(ids: Seq<i64>)
    requires
        ids.len() <= usize::MAX,
    ensures
        forall|a: int, b: int|
            0 <= a < b < distinct_ids(ids).len() ==> #[trigger] distinct_ids(ids)[a]
                != #[trigger] distinct_ids(ids)[b],
        forall|i: int| 0 <= i < ids.len() ==> distinct_ids(ids).contains(#[trigger] ids[i]),
        forall|x: i64| #[trigger] distinct_ids(ids).contains(x) ==> ids.contains(x),
        forall|id: i64, k: int|
            0 <= k < positions_of(ids, id).len() ==> {
                &&& (#[trigger] positions_of(ids, id)[k]) < ids.len()
                &&& ids[positions_of(ids, id)[k] as int] == id
            },
        forall|id: i64, i: int|
            0 <= i < ids.len() && #[trigger] ids[i] == id ==> #[trigger] positions_of(ids, id).contains(
                i as usize,
            ),
        forall|id: i64, k: int, l: int|
            0 <= k < l < positions_of(ids, id).len() ==> #[trigger] positions_of(ids, id)[k]
                < #[trigger] positions_of(ids, id)[l],
{
    lemma_distinct_ids_facts(ids);
    assert forall|id: i64, k: int|
        0 <= k < positions_of(ids, id).len() implies {
            &&& (#[trigger] positions_of(ids, id)[k]) < ids.len()
            &&& ids[positions_of(ids, id)[k] as int] == id
        } by {
        lemma_positions_facts(ids, id);
    }
    assert forall|id: i64, i: int|
        0 <= i < ids.len() && #[trigger] ids[i] == id implies #[trigger] positions_of(ids, id).contains(
            i as usize,
        ) by {
        lemma_positions_facts(ids, id);
    }
    assert forall|id: i64, k: int, l: int|
        0 <= k < l < positions_of(ids, id).len() implies #[trigger] positions_of(ids, id)[k]
            < #[trigger] positions_of(ids, id)[l] by {
        lemma_positions_facts(ids, id);
    }
}


/// There are never more distinct ids than lines.
pub proof fn lemma_distinct_ids_len(ids: Seq<i64>)
    ensures
        distinct_ids(ids).len() <= ids.len(),
    decreases ids.len(),
{
    if ids.len() > 0 {
        lemma_distinct_ids_len(ids.drop_last());
    }
}

} // verus!
