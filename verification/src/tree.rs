//! The process-hierarchy builder: groups a flat snapshot by id, hangs every
//! record under the node that carries its parent id when that id is present
//! in the same snapshot, makes the others roots, and orders every children
//! list (and the root list) by case-insensitive name.

use vstd::prelude::*;
use vstd::multiset::Multiset;
use vstd::seq_lib::lemma_multiset_commutative;

use crate::models::{Process, ProcessNode};
use crate::sorting::{
    insert_one, insort, lemma_insort_sorted, node_key, sort_nodes_by_name, sorted_by_key,
};
use crate::text::lex_le;

verus! {

broadcast use vstd::seq_lib::group_to_multiset_ensures, vstd::multiset::group_multiset_axioms;

/// The records of a subtree, in pre-order.
pub open spec fn node_procs(n: ProcessNode) -> Seq<Process>
    decreases n,
{
    seq![n.process] + forest_procs(n.children@)
}

/// The records of a forest, in pre-order.
pub open spec fn forest_procs(s: Seq<ProcessNode>) -> Seq<Process>
    decreases s,
{
    if s.len() == 0 {
        Seq::empty()
    } else {
        node_procs(s[0]) + forest_procs(s.drop_first())
    }
}

/// Shape invariant of a node: every child hangs under the node whose id is
/// the child's parent id, recursively, and every children list is ordered
/// by case-folded name.
pub open spec fn node_wf(n: ProcessNode) -> bool
    decreases n,
{
    &&& forall|i: int|
        0 <= i < n.children@.len() ==> (#[trigger] n.children@[i]).process.parent_id
            == n.process.id
    &&& forall|i: int| 0 <= i < n.children@.len() ==> node_wf(#[trigger] n.children@[i])
    &&& sorted_by_key(n.children@, node_key())
}

/// Shape invariant of a whole forest.
pub open spec fn forest_wf(s: Seq<ProcessNode>) -> bool {
    forall|i: int| 0 <= i < s.len() ==> node_wf(#[trigger] s[i])
}

/// Some record of `s` carries the id `id`.
pub open spec fn has_id(s: Seq<Process>, id: u32) -> bool {
    exists|i: int| 0 <= i < s.len() && (#[trigger] s[i]).id == id
}

/// No two records of `s` share an id.
pub open spec fn ids_unique(s: Seq<Process>) -> bool {
    forall|i: int, j: int| 0 <= i < j < s.len() ==> (#[trigger] s[i]).id != (#[trigger] s[j]).id
}

/// Group records by id, keeping the first record of each id.
pub open spec fn dedup_by_id(s: Seq<Process>) -> Seq<Process>
    decreases s.len(),
{
    if s.len() == 0 {
        Seq::empty()
    } else {
        let d = dedup_by_id(s.drop_last());
        if has_id(d, s.last().id) {
            d
        } else {
            d.push(s.last())
        }
    }
}

/// A record is a root of the snapshot when its parent id is its own id or
/// carried by no record of the snapshot.
pub open spec fn is_root_rec(p: Process, all: Seq<Process>) -> bool {
    p.parent_id == p.id || !has_id(all, p.parent_id)
}

/// Every record of `sub` names another record of `sub` as its parent (and
/// none is its own parent): the shape of a parent-link cycle and of what
/// hangs off one.
pub open spec fn parent_closed(sub: Seq<Process>) -> bool {
    forall|i: int|
        0 <= i < sub.len() ==> (#[trigger] sub[i]).parent_id != sub[i].id && has_id(
            sub,
            sub[i].parent_id,
        )
}

/// Every record of `sub` is a record of `s`.
pub open spec fn within(sub: Seq<Process>, s: Seq<Process>) -> bool {
    forall|i: int| 0 <= i < sub.len() ==> s.contains(#[trigger] sub[i])
}

/// The snapshot's parent links form no cycle: no nonempty selection of its
/// records is closed under the parent link.
pub open spec fn acyclic(s: Seq<Process>) -> bool {
    forall|sub: Seq<Process>|
        (#[trigger] parent_closed(sub) && sub.len() > 0 && within(sub, s)) ==> false
}

/// Grouping keeps exactly the ids of the input, once each.
pub proof fn lemma_dedup_props(s: Seq<Process>)
    ensures
        ids_unique(dedup_by_id(s)),
        forall|id: u32| has_id(dedup_by_id(s), id) == has_id(s, id),
        dedup_by_id(s).len() <= s.len(),
    decreases s.len(),
{
    if s.len() > 0 {
        let p = s.drop_last();
        lemma_dedup_props(p);
        let d = dedup_by_id(p);
        assert forall|id: u32| has_id(dedup_by_id(s), id) == has_id(s, id) by {
            if has_id(s, id) {
                let w = choose|i: int| 0 <= i < s.len() && (#[trigger] s[i]).id == id;
                if w < s.len() - 1 {
                    assert(p[w] == s[w]);
                    assert(p[w].id == id);
                    assert(has_id(p, id));
                    assert(has_id(d, id));
                    let u = choose|i: int| 0 <= i < d.len() && (#[trigger] d[i]).id == id;
                    assert(dedup_by_id(s)[u].id == id);
                } else {
                    assert(s.last().id == id);
                    if has_id(d, s.last().id) {
                        let u = choose|i: int| 0 <= i < d.len() && (#[trigger] d[i]).id == id;
                        assert(dedup_by_id(s)[u].id == id);
                    } else {
                        assert(dedup_by_id(s)[d.len() as int].id == id);
                    }
                }
                assert(has_id(dedup_by_id(s), id));
            }
            if has_id(dedup_by_id(s), id) {
                let w = choose|i: int|
                    0 <= i < dedup_by_id(s).len() && (#[trigger] dedup_by_id(s)[i]).id == id;
                if has_id(d, s.last().id) || w < d.len() {
                    assert(d[w].id == id);
                    assert(has_id(p, id));
                    let v = choose|i: int| 0 <= i < p.len() && (#[trigger] p[i]).id == id;
                    assert(s[v].id == id);
                } else {
                    assert(s[s.len() - 1].id == id);
                }
                assert(has_id(s, id));
            }
        }
        if !has_id(d, s.last().id) {
            assert forall|i: int, j: int|
                0 <= i < j < dedup_by_id(s).len() implies (#[trigger] dedup_by_id(s)[i]).id != (
            #[trigger] dedup_by_id(s)[j]).id by {
                if j < d.len() {
                    assert(d[i] == dedup_by_id(s)[i] && d[j] == dedup_by_id(s)[j]);
                } else {
                    assert(dedup_by_id(s)[j] == s.last());
                    assert(d[i] == dedup_by_id(s)[i]);
                    assert(!has_id(d, s.last().id));
                }
            }
        }
    }
}

/// An id occurs in a concatenation exactly when it occurs in one part.
pub proof fn lemma_has_id_concat(a: Seq<Process>, b: Seq<Process>, id: u32)
    ensures
        has_id(a + b, id) == (has_id(a, id) || has_id(b, id)),
{
    if has_id(a + b, id) {
        let w = choose|i: int| 0 <= i < (a + b).len() && (#[trigger] (a + b)[i]).id == id;
        if w < a.len() {
            assert(a[w].id == id);
        } else {
            assert(b[w - a.len()].id == id);
        }
    }
    if has_id(a, id) {
        let w = choose|i: int| 0 <= i < a.len() && (#[trigger] a[i]).id == id;
        assert((a + b)[w].id == id);
    }
    if has_id(b, id) {
        let w = choose|i: int| 0 <= i < b.len() && (#[trigger] b[i]).id == id;
        assert((a + b)[a.len() + w].id == id);
    }
}

/// An id occurs in a forest exactly when it occurs in some tree of it.
pub proof fn lemma_has_id_forest(s: Seq<ProcessNode>, id: u32)
    ensures
        has_id(forest_procs(s), id) == exists|i: int|
            0 <= i < s.len() && has_id(node_procs(#[trigger] s[i]), id),
    decreases s.len(),
{
    if s.len() == 0 {
    } else {
        lemma_has_id_concat(node_procs(s[0]), forest_procs(s.drop_first()), id);
        lemma_has_id_forest(s.drop_first(), id);
        if has_id(node_procs(s[0]), id) {
        } else if has_id(forest_procs(s.drop_first()), id) {
            let w = choose|i: int|
                0 <= i < s.drop_first().len() && has_id(node_procs(#[trigger] s.drop_first()[i]), id);
            assert(s[w + 1] == s.drop_first()[w]);
        } else {
            assert forall|i: int|
                0 <= i < s.len() implies !has_id(node_procs(#[trigger] s[i]), id) by {
                if i > 0 {
                    assert(s[i] == s.drop_first()[i - 1]);
                }
            }
        }
    }
}

/// Appending a tree appends its records.
pub proof fn lemma_forest_procs_push(s: Seq<ProcessNode>, n: ProcessNode)
    ensures
        forest_procs(s.push(n)) == forest_procs(s) + node_procs(n),
    decreases s.len(),
{
    if s.len() == 0 {
        let t = s.push(n);
        assert(t.len() == 1);
        assert(t[0] == n);
        assert(t.drop_first() =~= Seq::<ProcessNode>::empty());
        assert(forest_procs(t.drop_first()) =~= Seq::empty());
        assert(forest_procs(t) == node_procs(t[0]) + forest_procs(t.drop_first()));
        assert(forest_procs(s) =~= Seq::empty());
        assert(forest_procs(t) =~= forest_procs(s) + node_procs(n));
    } else {
        lemma_forest_procs_push(s.drop_first(), n);
        assert(s.push(n)[0] == s[0]);
        assert(s.push(n).drop_first() =~= s.drop_first().push(n));
        assert(node_procs(s[0]) + (forest_procs(s.drop_first()) + node_procs(n)) =~= (node_procs(
            s[0],
        ) + forest_procs(s.drop_first())) + node_procs(n));
    }
}

/// Inserting a tree adds exactly its records.
pub proof fn lemma_forest_procs_insert_one(s: Seq<ProcessNode>, x: ProcessNode)
    ensures
        forest_procs(insert_one(s, x, node_key())).to_multiset() == forest_procs(
            s,
        ).to_multiset().add(node_procs(x).to_multiset()),
    decreases s.len(),
{
    broadcast use lemma_multiset_commutative;

    if s.len() == 0 {
        assert(insert_one(s, x, node_key()) =~= seq![x]);
        let t = seq![x];
        assert(t.len() == 1);
        assert(t[0] == x);
        assert(t.drop_first() =~= Seq::<ProcessNode>::empty());
        assert(forest_procs(t.drop_first()) =~= Seq::empty());
        assert(forest_procs(t) == node_procs(t[0]) + forest_procs(t.drop_first()));
        assert(forest_procs(seq![x]) =~= node_procs(x) + Seq::empty());
        assert(forest_procs(seq![x]) =~= node_procs(x));
        assert(forest_procs(s).to_multiset() =~= Multiset::empty());
        assert(forest_procs(seq![x]).to_multiset() =~= forest_procs(s).to_multiset().add(
            node_procs(x).to_multiset(),
        ));
    } else if lex_le(node_key()(s.last()), node_key()(x)) {
        lemma_forest_procs_push(s, x);
    } else {
        lemma_forest_procs_insert_one(s.drop_last(), x);
        lemma_forest_procs_push(insert_one(s.drop_last(), x, node_key()), s.last());
        lemma_forest_procs_push(s.drop_last(), s.last());
        assert(s.drop_last().push(s.last()) =~= s);
        assert(forest_procs(insert_one(s, x, node_key())).to_multiset() =~= forest_procs(
            s,
        ).to_multiset().add(node_procs(x).to_multiset()));
    }
}

/// Sorting a forest keeps its records.
pub proof fn lemma_forest_procs_insort(s: Seq<ProcessNode>)
    ensures
        forest_procs(insort(s, node_key())).to_multiset() == forest_procs(s).to_multiset(),
    decreases s.len(),
{
    broadcast use lemma_multiset_commutative;

    if s.len() > 0 {
        lemma_forest_procs_insort(s.drop_last());
        lemma_forest_procs_insert_one(insort(s.drop_last(), node_key()), s.last());
        lemma_forest_procs_push(s.drop_last(), s.last());
        assert(s.drop_last().push(s.last()) =~= s);
        assert(forest_procs(insort(s, node_key())).to_multiset() =~= forest_procs(
            s,
        ).to_multiset());
    }
}

/// Every tree of the sorted forest is a tree of the unsorted forest.
pub proof fn lemma_insort_nodes_elems(s: Seq<ProcessNode>)
    ensures
        forall|k: int|
            0 <= k < insort(s, node_key()).len() ==> s.contains(
                #[trigger] insort(s, node_key())[k],
            ),
        insort(s, node_key()).len() == s.len(),
{
    lemma_insort_sorted(s, node_key());
    assert forall|k: int|
        0 <= k < insort(s, node_key()).len() implies s.contains(
        #[trigger] insort(s, node_key())[k]) by {
        let x = insort(s, node_key())[k];
        assert(insort(s, node_key()).contains(x));
        assert(insort(s, node_key()).to_multiset().count(x) > 0);
        assert(s.to_multiset().count(x) > 0);
    }
}

/// Does some record of `v` carry the id `id`?
fn vec_has_id(v: &Vec<Process>, id: u32) -> (r: bool)
    ensures
        r == has_id(v@, id),
{
    let mut i: usize = 0;
    while i < v.len()
        invariant
            0 <= i <= v@.len(),
            forall|k: int| 0 <= k < i ==> (#[trigger] v@[k]).id != id,
        decreases v@.len() - i,
    {
        if v[i].id == id {
            return true;
        }
        i += 1;
    }
    false
}

/// Group the snapshot by id, keeping the first record of each id.
pub fn dedup_records(records: Vec<Process>) -> (r: Vec<Process>)
    ensures
        r@ == dedup_by_id(records@),
{
    let ghost orig = records@;
    let mut records = records;
    let n: usize = records.len();
    proof {
        assert(orig.len() == n as int);
    }
    let mut out: Vec<Process> = Vec::new();
    let mut taken: usize = 0;
    while records.len() > 0
        invariant
            orig.len() <= usize::MAX,
            taken + records@.len() == orig.len(),
            records@ == orig.skip(taken as int),
            out@ == dedup_by_id(orig.take(taken as int)),
        decreases records@.len(),
    {
        let x = records.remove(0);
        proof {
            assert(x == orig[taken as int]);
            assert(records@ =~= orig.skip(taken as int + 1));
            assert(orig.take(taken as int + 1).drop_last() =~= orig.take(taken as int));
            assert(orig.take(taken as int + 1).last() == orig[taken as int]);
        }
        if !vec_has_id(&out, x.id) {
            out.push(x);
        }
        taken += 1;
    }
    proof {
        assert(orig.take(taken as int) =~= orig);
    }
    out
}

/// Split a pool of records into those whose parent id is `pid` and the rest.
fn extract_children(pid: u32, pool: Vec<Process>) -> (r: (Vec<Process>, Vec<Process>))
    ensures
        r.0@.to_multiset().add(r.1@.to_multiset()) == pool@.to_multiset(),
        r.0@.len() + r.1@.len() == pool@.len(),
        forall|i: int| 0 <= i < r.0@.len() ==> (#[trigger] r.0@[i]).parent_id == pid,
        forall|i: int| 0 <= i < r.1@.len() ==> (#[trigger] r.1@[i]).parent_id != pid,
{
    let ghost orig = pool@;
    let mut pool = pool;
    let mut mine: Vec<Process> = Vec::new();
    let mut rest: Vec<Process> = Vec::new();
    while pool.len() > 0
        invariant
            mine@.to_multiset().add(rest@.to_multiset()).add(pool@.to_multiset())
                == orig.to_multiset(),
            mine@.len() + rest@.len() + pool@.len() == orig.len(),
            forall|i: int| 0 <= i < mine@.len() ==> (#[trigger] mine@[i]).parent_id == pid,
            forall|i: int| 0 <= i < rest@.len() ==> (#[trigger] rest@[i]).parent_id != pid,
        decreases pool@.len(),
    {
        let ghost pool_before = pool@;
        let p = pool.pop().unwrap();
        proof {
            assert(pool_before =~= pool@.push(p));
            assert(pool_before.to_multiset() =~= pool@.to_multiset().insert(p));
        }
        if p.parent_id == pid {
            mine.push(p);
        } else {
            rest.push(p);
        }
        proof {
            assert(mine@.to_multiset().add(rest@.to_multiset()).add(pool@.to_multiset())
                =~= orig.to_multiset());
        }
    }
    proof {
        assert(pool@.to_multiset() =~= Multiset::empty());
        assert(mine@.to_multiset().add(rest@.to_multiset()) =~= orig.to_multiset());
    }
    (mine, rest)
}

/// Build the subtree rooted at `rec`: its children are exactly the pool
/// records that name `rec` as parent, recursively, ordered by case-folded
/// name; the rest of the pool comes back untouched.
#[verifier::loop_isolation(false)]
fn build_node(rec: Process, pool: Vec<Process>) -> (r: (ProcessNode, Vec<Process>))
    ensures
        r.0.process == rec,
        node_wf(r.0),
        node_procs(r.0).to_multiset().add(r.1@.to_multiset()) == Multiset::singleton(rec).add(
            pool@.to_multiset(),
        ),
        r.1@.len() <= pool@.len(),
        forall|i: int|
            0 <= i < r.1@.len() ==> !has_id(node_procs(r.0), (#[trigger] r.1@[i]).parent_id),
        forall|i: int| 0 <= i < r.1@.len() ==> pool@.to_multiset().contains(#[trigger] r.1@[i]),
    decreases pool.len(),
{
    broadcast use lemma_multiset_commutative;

    let ghost pool0 = pool@;
    let (mine, rest) = extract_children(rec.id, pool);
    let ghost m0 = mine@;
    let ghost r0 = rest@;
    let mut mine = mine;
    let mut children: Vec<ProcessNode> = Vec::new();
    let mut pool2 = rest;
    let mut taken: usize = 0;
    proof {
        assert forall|i: int|
            0 <= i < pool2@.len() implies pool0.to_multiset().contains(#[trigger] pool2@[i]) by {
            assert(r0.to_multiset().count(pool2@[i]) > 0);
        }
    }
    while mine.len() > 0
        invariant
            pool0.len() <= usize::MAX,
            m0.len() + r0.len() == pool0.len(),
            taken + mine@.len() == m0.len(),
            mine@ == m0.skip(taken as int),
            forall|i: int| 0 <= i < m0.len() ==> (#[trigger] m0[i]).parent_id == rec.id,
            pool2@.len() + mine@.len() <= pool0.len(),
            forest_procs(children@).to_multiset().add(mine@.to_multiset()).add(
                pool2@.to_multiset(),
            ) == m0.to_multiset().add(r0.to_multiset()),
            forall|i: int|
                0 <= i < children@.len() ==> (#[trigger] children@[i]).process.parent_id == rec.id,
            forall|i: int| 0 <= i < children@.len() ==> node_wf(#[trigger] children@[i]),
            forall|i: int| 0 <= i < pool2@.len() ==> (#[trigger] pool2@[i]).parent_id != rec.id,
            forall|i: int, j: int|
                0 <= i < pool2@.len() && 0 <= j < children@.len() ==> !has_id(
                    node_procs(#[trigger] children@[j]),
                    (#[trigger] pool2@[i]).parent_id,
                ),
            forall|i: int|
                0 <= i < pool2@.len() ==> pool0.to_multiset().contains(#[trigger] pool2@[i]),
        decreases mine@.len(),
    {
        let c = mine.remove(0);
        proof {
            assert(c == m0[taken as int]);
            assert(mine@ =~= m0.skip(taken as int + 1));
            assert(m0.skip(taken as int).to_multiset() =~= mine@.to_multiset().insert(c)) by {
                assert(m0.skip(taken as int) =~= seq![c] + mine@);
                assert((seq![c] + mine@).to_multiset() =~= seq![c].to_multiset().add(
                    mine@.to_multiset(),
                ));
                assert(seq![c] =~= Seq::empty().push(c));
            }
        }
        let ghost pool2_before = pool2@;
        let ghost children_before = children@;
        let (child, p3) = build_node(c, pool2);
        pool2 = p3;
        children.push(child);
        proof {
            lemma_forest_procs_push(children_before, child);
            assert(forest_procs(children@).to_multiset() =~= forest_procs(
                children_before,
            ).to_multiset().add(node_procs(child).to_multiset()));
            let ghost cbm = forest_procs(children_before).to_multiset();
            let ghost lhs = forest_procs(children@).to_multiset().add(mine@.to_multiset()).add(
                pool2@.to_multiset(),
            );
            let ghost mid = cbm.add(m0.skip(taken as int).to_multiset()).add(
                pool2_before.to_multiset(),
            );
            assert(lhs =~= mid) by {
                assert forall|y: Process| lhs.count(y) == mid.count(y) by {
                    assert(node_procs(child).to_multiset().add(pool2@.to_multiset()).count(y)
                        == Multiset::singleton(c).add(pool2_before.to_multiset()).count(y));
                    assert(m0.skip(taken as int).to_multiset().count(y)
                        == mine@.to_multiset().insert(c).count(y));
                }
            }
            assert(lhs =~= m0.to_multiset().add(r0.to_multiset()));
            assert forall|i: int|
                0 <= i < pool2@.len() implies (#[trigger] pool2@[i]).parent_id != rec.id by {
                assert(pool2_before.to_multiset().contains(pool2@[i]));
                let w = choose|k: int|
                    0 <= k < pool2_before.len() && pool2_before[k] == pool2@[i];
            }
            assert forall|i: int|
                0 <= i < pool2@.len() implies pool0.to_multiset().contains(
                #[trigger] pool2@[i]) by {
                assert(pool2_before.to_multiset().contains(pool2@[i]));
                let w = choose|k: int|
                    0 <= k < pool2_before.len() && pool2_before[k] == pool2@[i];
            }
            assert forall|i: int, j: int|
                0 <= i < pool2@.len() && 0 <= j < children@.len() implies !has_id(
                node_procs(#[trigger] children@[j]),
                (#[trigger] pool2@[i]).parent_id,
            ) by {
                if j < children_before.len() {
                    assert(children@[j] == children_before[j]);
                    assert(pool2_before.to_multiset().contains(pool2@[i]));
                    let w = choose|k: int|
                        0 <= k < pool2_before.len() && pool2_before[k] == pool2@[i];
                    assert(pool2_before[w] == pool2@[i]);
                } else {
                    assert(children@[j] == child);
                }
            }
        }
        taken += 1;
    }
    let ghost children_unsorted = children@;
    let children = sort_nodes_by_name(children);
    proof {
        lemma_forest_procs_insort(children_unsorted);
        lemma_insort_nodes_elems(children_unsorted);
        lemma_insort_sorted(children_unsorted, node_key());
        assert forall|i: int|
            0 <= i < children@.len() implies (#[trigger] children@[i]).process.parent_id == rec.id
            && node_wf(children@[i]) by {
            assert(children_unsorted.contains(children@[i]));
            let w = choose|k: int|
                0 <= k < children_unsorted.len() && children_unsorted[k] == children@[i];
        }
    }
    let node = ProcessNode { process: rec, children };
    proof {
        assert(node_procs(node) == seq![rec] + forest_procs(node.children@));
        assert(node_procs(node).to_multiset() =~= Multiset::singleton(rec).add(forest_procs(
            node.children@,
        ).to_multiset())) by {
            assert(seq![rec].to_multiset() =~= Multiset::singleton(rec)) by {
                assert(seq![rec] =~= Seq::empty().push(rec));
            }
        }
        assert(mine@.to_multiset() =~= Multiset::empty());
        assert(node_procs(node).to_multiset().add(pool2@.to_multiset())
            =~= Multiset::singleton(rec).add(pool0.to_multiset()));
        assert forall|i: int|
            0 <= i < pool2@.len() implies !has_id(
            node_procs(node),
            (#[trigger] pool2@[i]).parent_id,
        ) by {
            let pid = pool2@[i].parent_id;
            lemma_has_id_concat(seq![rec], forest_procs(node.children@), pid);
            assert(!has_id(seq![rec], pid)) by {
                assert(seq![rec][0] == rec);
            }
            lemma_has_id_forest(node.children@, pid);
        }
    }
    (node, pool2)
}


/// One step of forest assembly keeps the records conserved.
proof fn lemma_build_step(
    fb: Seq<ProcessNode>,
    node: ProcessNode,
    r: Process,
    pend_b: Multiset<Process>,
    pend_a: Multiset<Process>,
    pool_b: Seq<Process>,
    pool_a: Seq<Process>,
    dd: Seq<Process>,
)
    requires
        forest_procs(fb).to_multiset().add(pend_b).add(pool_b.to_multiset()) == dd.to_multiset(),
        pend_b == pend_a.insert(r),
        node_procs(node).to_multiset().add(pool_a.to_multiset()) == Multiset::singleton(r).add(
            pool_b.to_multiset(),
        ),
    ensures
        forest_procs(fb.push(node)).to_multiset().add(pend_a).add(pool_a.to_multiset())
            == dd.to_multiset(),
{
    lemma_forest_procs_push(fb, node);
    lemma_multiset_commutative(forest_procs(fb), node_procs(node));
    assert(forest_procs(fb.push(node)).to_multiset() == forest_procs(fb).to_multiset().add(
        node_procs(node).to_multiset(),
    ));
    let lhs = forest_procs(fb.push(node)).to_multiset().add(pend_a).add(pool_a.to_multiset());
    assert(lhs =~= dd.to_multiset()) by {
        assert forall|y: Process| lhs.count(y) == dd.to_multiset().count(y) by {
            let c1 = forest_procs(fb).to_multiset().count(y);
            let c2 = node_procs(node).to_multiset().count(y);
            let ca = pend_a.count(y);
            let cb = pend_b.count(y);
            let cpa = pool_a.to_multiset().count(y);
            let cpb = pool_b.to_multiset().count(y);
            let cr = Multiset::singleton(r).count(y);
            assert(lhs.count(y) == c1 + c2 + ca + cpa);
            assert(node_procs(node).to_multiset().add(pool_a.to_multiset()).count(y)
                == Multiset::singleton(r).add(pool_b.to_multiset()).count(y));
            vstd::multiset::axiom_multiset_add(
                node_procs(node).to_multiset(),
                pool_a.to_multiset(),
                y,
            );
            vstd::multiset::axiom_multiset_add(Multiset::singleton(r), pool_b.to_multiset(), y);
            assert(c2 + cpa == cr + cpb);
            assert(pend_b.count(y) == pend_a.insert(r).count(y));
            assert(cb == ca + cr);
            assert(forest_procs(fb).to_multiset().add(pend_b).add(pool_b.to_multiset()).count(y)
                == dd.to_multiset().count(y));
            assert(c1 + cb + cpb == dd.to_multiset().count(y));
        }
    }
}

/// Does the list contain the value?
fn vec_has_u32(v: &Vec<u32>, x: u32) -> (r: bool)
    ensures
        r == v@.contains(x),
{
    let mut i: usize = 0;
    while i < v.len()
        invariant
            0 <= i <= v@.len(),
            forall|k: int| 0 <= k < i ==> v@[k] != x,
        decreases v@.len() - i,
    {
        if v[i] == x {
            return true;
        }
        i += 1;
    }
    false
}

/// Build the process hierarchy from a flat snapshot: group the records by
/// id, hang every record under the node carrying its parent id when that id
/// is present in the snapshot, make the others roots, and order every
/// children list and the root list by case-insensitive name.
#[verifier::loop_isolation(false)]
pub fn build_process_tree(records: Vec<Process>) -> (forest: Vec<ProcessNode>)
    ensures
        forest_wf(forest@),
        sorted_by_key(forest@, node_key()),
        forest_procs(forest@).to_multiset() == dedup_by_id(records@).to_multiset(),
        acyclic(dedup_by_id(records@)) ==> forall|i: int|
            0 <= i < forest@.len() ==> is_root_rec(
                (#[trigger] forest@[i]).process,
                dedup_by_id(records@),
            ),
{
    broadcast use lemma_multiset_commutative;

    let deduped = dedup_records(records);
    let ghost dd = deduped@;
    let mut ids: Vec<u32> = Vec::new();
    let mut i: usize = 0;
    while i < deduped.len()
        invariant
            0 <= i <= dd.len(),
            ids@.len() == i,
            forall|k: int| 0 <= k < i ==> ids@[k] == dd[k].id,
        decreases dd.len() - i,
    {
        ids.push(deduped[i].id);
        i += 1;
    }
    let mut work = deduped;
    let mut roots: Vec<Process> = Vec::new();
    let mut pool: Vec<Process> = Vec::new();
    while work.len() > 0
        invariant
            roots@.to_multiset().add(pool@.to_multiset()).add(work@.to_multiset())
                == dd.to_multiset(),
            forall|k: int| 0 <= k < roots@.len() ==> is_root_rec(#[trigger] roots@[k], dd),
            forall|k: int| 0 <= k < pool@.len() ==> !is_root_rec(#[trigger] pool@[k], dd),
        decreases work@.len(),
    {
        let ghost work_before = work@;
        let p = work.pop().unwrap();
        proof {
            assert(work_before =~= work@.push(p));
            assert(work_before.to_multiset() =~= work@.to_multiset().insert(p));
        }
        let self_parent = p.parent_id == p.id;
        let parent_known = vec_has_u32(&ids, p.parent_id);
        proof {
            if parent_known {
                let w = choose|k: int| 0 <= k < ids@.len() && ids@[k] == p.parent_id;
                assert(dd[w].id == p.parent_id);
                assert(has_id(dd, p.parent_id));
            } else {
                assert(!has_id(dd, p.parent_id)) by {
                    if has_id(dd, p.parent_id) {
                        let w = choose|k: int|
                            0 <= k < dd.len() && (#[trigger] dd[k]).id == p.parent_id;
                        assert(ids@[w] == p.parent_id);
                        assert(ids@.contains(p.parent_id));
                    }
                }
            }
        }
        if self_parent || !parent_known {
            roots.push(p);
        } else {
            pool.push(p);
        }
        proof {
            assert(roots@.to_multiset().add(pool@.to_multiset()).add(work@.to_multiset())
                =~= dd.to_multiset());
        }
    }
    proof {
        assert(work@.to_multiset() =~= Multiset::<Process>::empty());
    }
    let mut roots = roots;
    let mut pool = pool;
    let mut forest: Vec<ProcessNode> = Vec::new();
    while roots.len() > 0
        invariant
            forest_procs(forest@).to_multiset().add(roots@.to_multiset()).add(pool@.to_multiset())
                == dd.to_multiset(),
            forest_wf(forest@),
            forall|k: int| 0 <= k < roots@.len() ==> is_root_rec(#[trigger] roots@[k], dd),
            forall|k: int|
                0 <= k < forest@.len() ==> is_root_rec((#[trigger] forest@[k]).process, dd),
            forall|k: int| 0 <= k < pool@.len() ==> !is_root_rec(#[trigger] pool@[k], dd),
            forall|k: int|
                0 <= k < pool@.len() ==> !has_id(
                    forest_procs(forest@),
                    (#[trigger] pool@[k]).parent_id,
                ),
        decreases roots@.len(),
    {
        let ghost roots_before = roots@;
        let ghost pool_before = pool@;
        let ghost forest_before = forest@;
        let r = roots.pop().unwrap();
        proof {
            assert(roots_before =~= roots@.push(r));
            assert(roots_before.to_multiset() =~= roots@.to_multiset().insert(r));
        }
        let (node, p2) = build_node(r, pool);
        pool = p2;
        forest.push(node);
        proof {
            lemma_build_step(
                forest_before,
                node,
                r,
                roots_before.to_multiset(),
                roots@.to_multiset(),
                pool_before,
                pool@,
                dd,
            );
            assert forall|k: int| 0 <= k < forest@.len() implies node_wf(
                #[trigger] forest@[k],
            ) by {
                if k < forest_before.len() {
                    assert(forest@[k] == forest_before[k]);
                }
            }
            assert forall|k: int| 0 <= k < forest@.len() implies is_root_rec(
                (#[trigger] forest@[k]).process,
                dd,
            ) by {
                if k < forest_before.len() {
                    assert(forest@[k] == forest_before[k]);
                } else {
                    assert(forest@[k] == node);
                    assert(node.process == r);
                    assert(roots_before[roots_before.len() - 1] == r);
                }
            }
            lemma_forest_procs_push(forest_before, node);
            assert forall|k: int| 0 <= k < pool@.len() implies !is_root_rec(
                #[trigger] pool@[k],
                dd,
            ) && !has_id(forest_procs(forest@), pool@[k].parent_id) by {
                assert(pool_before.to_multiset().contains(pool@[k]));
                let w = choose|w: int| 0 <= w < pool_before.len() && pool_before[w] == pool@[k];
                assert(!is_root_rec(pool_before[w], dd));
                assert(!has_id(forest_procs(forest_before), pool_before[w].parent_id));
                assert(!has_id(node_procs(node), pool@[k].parent_id));
                lemma_has_id_concat(
                    forest_procs(forest_before),
                    node_procs(node),
                    pool@[k].parent_id,
                );
                assert(forest_procs(forest@) == forest_procs(forest_before) + node_procs(node));
            }
        }
    }
    proof {
        if acyclic(dd) && pool@.len() > 0 {
            assert forall|i: int|
                0 <= i < pool@.len() implies (#[trigger] pool@[i]).parent_id != pool@[i].id
                && has_id(pool@, pool@[i].parent_id) && dd.contains(pool@[i]) by {
                let z = pool@[i];
                assert(!is_root_rec(z, dd));
                assert(has_id(dd, z.parent_id));
                let w = choose|w: int| 0 <= w < dd.len() && (#[trigger] dd[w]).id == z.parent_id;
                assert(dd.contains(dd[w]));
                assert(dd.to_multiset().count(dd[w]) > 0);
                assert(forest_procs(forest@).to_multiset().add(roots@.to_multiset()).add(
                    pool@.to_multiset(),
                ).count(dd[w]) > 0);
                if forest_procs(forest@).to_multiset().count(dd[w]) > 0 {
                    assert(forest_procs(forest@).contains(dd[w]));
                    let u = choose|u: int|
                        0 <= u < forest_procs(forest@).len() && forest_procs(forest@)[u] == dd[w];
                    assert(forest_procs(forest@)[u].id == z.parent_id);
                    assert(has_id(forest_procs(forest@), z.parent_id));
                    assert(false);
                } else {
                    assert(pool@.to_multiset().count(dd[w]) > 0);
                    assert(pool@.contains(dd[w]));
                    let u = choose|u: int| 0 <= u < pool@.len() && pool@[u] == dd[w];
                    assert(pool@[u].id == z.parent_id);
                }
                assert(pool@.to_multiset().count(z) > 0);
                assert(dd.to_multiset().count(z) > 0);
            }
            assert(parent_closed(pool@));
            assert(within(pool@, dd));
            assert(false);
        }
    }
    while pool.len() > 0
        invariant
            forest_procs(forest@).to_multiset().add(roots@.to_multiset()).add(pool@.to_multiset())
                == dd.to_multiset(),
            roots@.len() == 0,
            forest_wf(forest@),
            acyclic(dd) ==> pool@.len() == 0,
            acyclic(dd) ==> forall|k: int|
                0 <= k < forest@.len() ==> is_root_rec((#[trigger] forest@[k]).process, dd),
        decreases pool@.len(),
    {
        let ghost pool_entry = pool@;
        let ghost forest_before = forest@;
        let r = pool.remove(0);
        let ghost pool_mid = pool@;
        proof {
            assert(pool_entry =~= seq![r] + pool_mid);
            assert(pool_entry.to_multiset() =~= pool_mid.to_multiset().insert(r)) by {
                assert((seq![r] + pool_mid).to_multiset() =~= seq![r].to_multiset().add(
                    pool_mid.to_multiset(),
                ));
                assert(seq![r] =~= Seq::empty().push(r));
            }
        }
        let (node, p2) = build_node(r, pool);
        pool = p2;
        forest.push(node);
        proof {
            let ghost one_r = Multiset::<Process>::empty().insert(r);
            assert(forest_procs(forest_before).to_multiset().add(one_r).add(
                pool_mid.to_multiset(),
            ) =~= dd.to_multiset()) by {
                assert forall|y: Process|
                    forest_procs(forest_before).to_multiset().add(one_r).add(
                        pool_mid.to_multiset(),
                    ).count(y) == dd.to_multiset().count(y) by {
                    assert(forest_procs(forest_before).to_multiset().add(
                        roots@.to_multiset(),
                    ).add(pool_entry.to_multiset()).count(y) == dd.to_multiset().count(y));
                    assert(pool_entry.to_multiset().count(y) == pool_mid.to_multiset().insert(
                        r,
                    ).count(y));
                    assert(roots@.to_multiset().count(y) == 0) by {
                        assert(roots@ =~= Seq::<Process>::empty());
                        assert(Seq::<Process>::empty().to_multiset() =~= Multiset::empty());
                    }
                }
            }
            lemma_build_step(
                forest_before,
                node,
                r,
                one_r,
                Multiset::<Process>::empty(),
                pool_mid,
                pool@,
                dd,
            );
            assert(forest_procs(forest@).to_multiset().add(roots@.to_multiset()).add(
                pool@.to_multiset(),
            ) =~= dd.to_multiset()) by {
                assert forall|y: Process|
                    forest_procs(forest@).to_multiset().add(roots@.to_multiset()).add(
                        pool@.to_multiset(),
                    ).count(y) == dd.to_multiset().count(y) by {
                    assert(forest_procs(forest@).to_multiset().add(
                        Multiset::<Process>::empty(),
                    ).add(pool@.to_multiset()).count(y) == dd.to_multiset().count(y));
                    assert(roots@.to_multiset().count(y) == 0) by {
                        assert(roots@ =~= Seq::<Process>::empty());
                        assert(Seq::<Process>::empty().to_multiset() =~= Multiset::empty());
                    }
                }
            }
            assert forall|k: int| 0 <= k < forest@.len() implies node_wf(
                #[trigger] forest@[k],
            ) by {
                if k < forest_before.len() {
                    assert(forest@[k] == forest_before[k]);
                }
            }
        }
    }
    let ghost unsorted = forest@;
    let forest = sort_nodes_by_name(forest);
    proof {
        lemma_dedup_props(records@);
        lemma_forest_procs_insort(unsorted);
        lemma_insort_nodes_elems(unsorted);
        lemma_insort_sorted(unsorted, node_key());
        assert forall|k: int| 0 <= k < forest@.len() implies node_wf(#[trigger] forest@[k]) by {
            assert(unsorted.contains(forest@[k]));
            let w = choose|m: int| 0 <= m < unsorted.len() && unsorted[m] == forest@[k];
        }
        if acyclic(dd) {
            assert forall|k: int| 0 <= k < forest@.len() implies is_root_rec(
                (#[trigger] forest@[k]).process,
                dd,
            ) by {
                assert(unsorted.contains(forest@[k]));
                let w = choose|m: int| 0 <= m < unsorted.len() && unsorted[m] == forest@[k];
            }
        }
        assert(forest_procs(forest@).to_multiset() =~= dedup_by_id(records@).to_multiset()) by {
            assert(roots@.to_multiset() =~= Multiset::<Process>::empty());
            assert(pool@.to_multiset() =~= Multiset::<Process>::empty());
            assert forall|y: Process|
                forest_procs(unsorted).to_multiset().count(y) == dedup_by_id(
                    records@,
                ).to_multiset().count(y) by {
                assert(forest_procs(unsorted).to_multiset().add(roots@.to_multiset()).add(
                    pool@.to_multiset(),
                ).count(y) == dd.to_multiset().count(y));
            }
        }
    }
    forest
}


/// Two distinct positions with the same value give that value count two.
proof fn lemma_two_indices_count(s: Seq<Process>, i: int, j: int)
    requires
        0 <= i < j < s.len(),
        s[i] == s[j],
    ensures
        s.to_multiset().count(s[i]) >= 2,
{
    let t = s.remove(i);
    assert(t.to_multiset() == s.to_multiset().remove(s[i]));
    assert(t[j - 1] == s[j]);
    assert(t.contains(s[j]));
    assert(t.to_multiset().count(s[j]) > 0);
    assert(s.contains(s[i]));
    assert(s.to_multiset().count(s[i]) > 0);
    assert(s.to_multiset().remove(s[i]).count(s[i]) == s.to_multiset().count(s[i]) - 1);
}

/// In a sequence of records with pairwise distinct ids, no value occurs twice.
proof fn lemma_unique_ids_count(s: Seq<Process>, v: Process)
    requires
        ids_unique(s),
    ensures
        s.to_multiset().count(v) <= 1,
{
    if s.to_multiset().count(v) >= 2 {
        assert(s.contains(v));
        let i = choose|i: int| 0 <= i < s.len() && s[i] == v;
        let t = s.remove(i);
        assert(t.to_multiset() == s.to_multiset().remove(v));
        assert(s.to_multiset().remove(v).count(v) == s.to_multiset().count(v) - 1);
        assert(t.to_multiset().count(v) > 0);
        assert(t.contains(v));
        let j = choose|j: int| 0 <= j < t.len() && t[j] == v;
        if j < i {
            assert(s[j] == t[j]);
            assert(s[j].id == s[i].id);
        } else {
            assert(s[j + 1] == t[j]);
            assert(s[i].id == s[j + 1].id);
        }
        assert(false);
    }
}

/// The law of the hierarchy builder: against a snapshot grouped by id, a
/// forest that conserves the records holds every id of the snapshot in
/// exactly one node, and no id twice. Together with the forest's shape
/// invariant (every child names its parent node's id, which therefore
/// belongs to exactly one record of the snapshot), this pins the parent
/// linkage of every non-root node.
pub proof fn lemma_forest_ids(forest: Seq<ProcessNode>, records: Seq<Process>)
    requires
        forest_procs(forest).to_multiset() == dedup_by_id(records).to_multiset(),
    ensures
        ids_unique(forest_procs(forest)),
        forall|id: u32| has_id(forest_procs(forest), id) == has_id(records, id),
{
    lemma_dedup_props(records);
    let f = forest_procs(forest);
    let d = dedup_by_id(records);
    assert forall|id: u32| has_id(f, id) == has_id(d, id) by {
        if has_id(f, id) {
            let i = choose|i: int| 0 <= i < f.len() && (#[trigger] f[i]).id == id;
            assert(f.contains(f[i]));
            assert(f.to_multiset().count(f[i]) > 0);
            assert(d.to_multiset().count(f[i]) > 0);
            assert(d.contains(f[i]));
            let j = choose|j: int| 0 <= j < d.len() && d[j] == f[i];
            assert(d[j].id == id);
        }
        if has_id(d, id) {
            let i = choose|i: int| 0 <= i < d.len() && (#[trigger] d[i]).id == id;
            assert(d.contains(d[i]));
            assert(d.to_multiset().count(d[i]) > 0);
            assert(f.to_multiset().count(d[i]) > 0);
            assert(f.contains(d[i]));
            let j = choose|j: int| 0 <= j < f.len() && f[j] == d[i];
            assert(f[j].id == id);
        }
    }
    assert forall|i: int, j: int| 0 <= i < j < f.len() implies (#[trigger] f[i]).id != (
    #[trigger] f[j]).id by {
        if f[i].id == f[j].id {
            if f[i] == f[j] {
                lemma_two_indices_count(f, i, j);
                lemma_unique_ids_count(d, f[i]);
                assert(false);
            } else {
                assert(f.contains(f[i]) && f.contains(f[j]));
                assert(f.to_multiset().count(f[i]) > 0 && f.to_multiset().count(f[j]) > 0);
                assert(d.to_multiset().count(f[i]) > 0 && d.to_multiset().count(f[j]) > 0);
                assert(d.contains(f[i]) && d.contains(f[j]));
                let a = choose|a: int| 0 <= a < d.len() && d[a] == f[i];
                let b = choose|b: int| 0 <= b < d.len() && d[b] == f[j];
                assert(a != b);
                assert(d[a].id == d[b].id);
                assert(false);
            }
        }
    }
}

} // verus!
