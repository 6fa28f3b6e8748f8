//! Deterministic, stable sorting by case-folded name: a specification-level
//! insertion sort, its laws (sortedness, permutation, idempotence), and the
//! executable sorts the query layer uses.

use vstd::prelude::*;
use vstd::multiset::Multiset;

use crate::models::{Process, ProcessNode, ProcessV, procs_view};
use crate::text::{lex_le, lemma_lex_le_total, lemma_lex_le_trans, lower_of, to_lower, str_lex_le};

verus! {

/// Sort key of a process record: its case-folded name.
pub open spec fn proc_key() -> spec_fn(Process) -> Seq<char> {
    |p: Process| lower_of(p.name@)
}

/// Sort key of a process view.
pub open spec fn proc_v_key() -> spec_fn(ProcessV) -> Seq<char> {
    |p: ProcessV| lower_of(p.name)
}

/// Sort key of a hierarchy node: its record's case-folded name.
pub open spec fn node_key() -> spec_fn(ProcessNode) -> Seq<char> {
    |n: ProcessNode| lower_of(n.process.name@)
}

/// The sequence is ordered by the given key.
pub open spec fn sorted_by_key<K>(s: Seq<K>, key: spec_fn(K) -> Seq<char>) -> bool {
    forall|i: int, j: int|
        0 <= i < j < s.len() ==> lex_le(key(#[trigger] s[i]), key(#[trigger] s[j]))
}

/// Insert `x` after every element whose key is at most its key.
pub open spec fn insert_one<K>(s: Seq<K>, x: K, key: spec_fn(K) -> Seq<char>) -> Seq<K>
    decreases s.len(),
{
    if s.len() == 0 {
        seq![x]
    } else if lex_le(key(s.last()), key(x)) {
        s.push(x)
    } else {
        insert_one(s.drop_last(), x, key).push(s.last())
    }
}

/// Stable insertion sort by the given key.
pub open spec fn insort<K>(s: Seq<K>, key: spec_fn(K) -> Seq<char>) -> Seq<K>
    decreases s.len(),
{
    if s.len() == 0 {
        Seq::empty()
    } else {
        insert_one(insort(s.drop_last(), key), s.last(), key)
    }
}

/// Inserting adds exactly the new element.
pub proof fn lemma_insert_one_multiset<K>(s: Seq<K>, x: K, key: spec_fn(K) -> Seq<char>)
    ensures
        insert_one(s, x, key).len() == s.len() + 1,
        insert_one(s, x, key).to_multiset() == s.to_multiset().insert(x),
    decreases s.len(),
{
    broadcast use vstd::seq_lib::group_to_multiset_ensures;

    if s.len() == 0 {
        assert(seq![x] =~= Seq::empty().push(x));
        assert(Seq::<K>::empty().to_multiset() =~= Multiset::empty());
    } else if lex_le(key(s.last()), key(x)) {
    } else {
        lemma_insert_one_multiset(s.drop_last(), x, key);
        assert(s =~= s.drop_last().push(s.last()));
        assert(insert_one(s, x, key).to_multiset() =~= s.to_multiset().insert(x));
    }
}

/// Every element of the widened sequence is the new element or an old one.
pub proof fn lemma_insert_one_elems<K>(s: Seq<K>, x: K, key: spec_fn(K) -> Seq<char>)
    ensures
        forall|k: int|
            0 <= k < insert_one(s, x, key).len() ==> (#[trigger] insert_one(s, x, key)[k] == x
                || s.contains(insert_one(s, x, key)[k])),
    decreases s.len(),
{
    if s.len() == 0 {
    } else if lex_le(key(s.last()), key(x)) {
        assert forall|k: int|
            0 <= k < insert_one(s, x, key).len() implies (insert_one(s, x, key)[k] == x
            || s.contains(insert_one(s, x, key)[k])) by {
            if k < s.len() {
                assert(s[k] == insert_one(s, x, key)[k]);
            }
        }
    } else {
        lemma_insert_one_elems(s.drop_last(), x, key);
        lemma_insert_one_multiset(s.drop_last(), x, key);
        let r1 = insert_one(s.drop_last(), x, key);
        assert forall|k: int|
            0 <= k < insert_one(s, x, key).len() implies (insert_one(s, x, key)[k] == x
            || s.contains(insert_one(s, x, key)[k])) by {
            if k < r1.len() {
                assert(insert_one(s, x, key)[k] == r1[k]);
                if r1[k] != x {
                    let i = choose|i: int| 0 <= i < s.drop_last().len() && s.drop_last()[i] == r1[k];
                    assert(s[i] == r1[k]);
                }
            } else {
                assert(insert_one(s, x, key)[k] == s.last());
                assert(s[s.len() - 1] == s.last());
            }
        }
    }
}

/// Inserting into an ordered sequence keeps it ordered.
pub proof fn lemma_insert_one_sorted<K>(s: Seq<K>, x: K, key: spec_fn(K) -> Seq<char>)
    requires
        sorted_by_key(s, key),
    ensures
        sorted_by_key(insert_one(s, x, key), key),
    decreases s.len(),
{
    let r = insert_one(s, x, key);
    if s.len() == 0 {
    } else if lex_le(key(s.last()), key(x)) {
        assert forall|i: int, j: int|
            0 <= i < j < r.len() implies lex_le(key(r[i]), key(r[j])) by {
            if j < s.len() {
            } else {
                assert(r[j] == x);
                if i < s.len() - 1 {
                    assert(lex_le(key(s[i]), key(s[s.len() - 1])));
                    lemma_lex_le_trans(key(s[i]), key(s.last()), key(x));
                }
            }
        }
    } else {
        let d = s.drop_last();
        assert(sorted_by_key(d, key)) by {
            assert forall|i: int, j: int|
                0 <= i < j < d.len() implies lex_le(key(d[i]), key(d[j])) by {
                assert(d[i] == s[i] && d[j] == s[j]);
            }
        }
        lemma_insert_one_sorted(d, x, key);
        lemma_insert_one_elems(d, x, key);
        lemma_lex_le_total(key(s.last()), key(x));
        let r1 = insert_one(d, x, key);
        assert forall|i: int, j: int|
            0 <= i < j < r.len() implies lex_le(key(r[i]), key(r[j])) by {
            if j < r1.len() {
                assert(r[i] == r1[i] && r[j] == r1[j]);
            } else {
                assert(r[j] == s.last());
                assert(r[i] == r1[i]);
                if r1[i] == x {
                    assert(lex_le(key(x), key(s.last())));
                } else {
                    let m = choose|m: int| 0 <= m < d.len() && d[m] == r1[i];
                    if m < s.len() - 1 {
                        assert(d[m] == s[m]);
                        assert(lex_le(key(s[m]), key(s[s.len() - 1])));
                    }
                }
            }
        }
    }
}

/// The sort returns an ordered permutation of its input.
pub proof fn lemma_insort_sorted<K>(s: Seq<K>, key: spec_fn(K) -> Seq<char>)
    ensures
        sorted_by_key(insort(s, key), key),
        insort(s, key).to_multiset() == s.to_multiset(),
        insort(s, key).len() == s.len(),
    decreases s.len(),
{
    broadcast use vstd::seq_lib::group_to_multiset_ensures;

    if s.len() == 0 {
        assert(Seq::<K>::empty().to_multiset() =~= Multiset::empty());
    } else {
        lemma_insort_sorted(s.drop_last(), key);
        lemma_insert_one_sorted(insort(s.drop_last(), key), s.last(), key);
        lemma_insert_one_multiset(insort(s.drop_last(), key), s.last(), key);
        assert(s =~= s.drop_last().push(s.last()));
        assert(insort(s, key).to_multiset() =~= s.to_multiset());
    }
}

/// Sorting a sequence that is already ordered returns it unchanged.
pub proof fn lemma_insort_of_sorted<K>(s: Seq<K>, key: spec_fn(K) -> Seq<char>)
    requires
        sorted_by_key(s, key),
    ensures
        insort(s, key) == s,
    decreases s.len(),
{
    if s.len() > 0 {
        let d = s.drop_last();
        assert(sorted_by_key(d, key)) by {
            assert forall|i: int, j: int|
                0 <= i < j < d.len() implies lex_le(key(d[i]), key(d[j])) by {
                assert(d[i] == s[i] && d[j] == s[j]);
            }
        }
        lemma_insort_of_sorted(d, key);
        if d.len() == 0 {
            assert(insert_one(d, s.last(), key) =~= s);
        } else {
            assert(d.last() == s[s.len() - 2]);
            assert(lex_le(key(s[s.len() - 2]), key(s[s.len() - 1])));
            assert(d.push(s.last()) =~= s);
        }
    }
}

/// Sorting is idempotent: sorting an already sorted sequence — in
/// particular, sorting a second time — yields the same sequence.
pub proof fn lemma_insort_idempotent<K>(s: Seq<K>, key: spec_fn(K) -> Seq<char>)
    ensures
        insort(insort(s, key), key) == insort(s, key),
{
    lemma_insort_sorted(s, key);
    lemma_insort_of_sorted(insort(s, key), key);
}


/// At the start of the scan the split at the end is trivial.
proof fn lemma_insert_scan_init<K>(before: Seq<K>, x: K, key: spec_fn(K) -> Seq<char>)
    ensures
        insert_one(before, x, key) == insert_one(before.take(before.len() as int), x, key)
            + before.skip(before.len() as int),
{
    assert(before.take(before.len() as int) =~= before);
    assert(insert_one(before, x, key) + before.skip(before.len() as int) =~= insert_one(
        before,
        x,
        key,
    ));
}

/// Scanning one position further left keeps the split equation.
proof fn lemma_insert_scan_step<K>(before: Seq<K>, x: K, key: spec_fn(K) -> Seq<char>, j: int)
    requires
        0 < j <= before.len(),
        !lex_le(key(before[j - 1]), key(x)),
    ensures
        insert_one(before.take(j), x, key) + before.skip(j) == insert_one(
            before.take(j - 1),
            x,
            key,
        ) + before.skip(j - 1),
{
    let t = before.take(j);
    assert(t.len() == j);
    assert(t.last() == before[j - 1]);
    assert(insert_one(t, x, key) == insert_one(t.drop_last(), x, key).push(t.last()));
    assert(t.drop_last() =~= before.take(j - 1));
    assert(insert_one(before.take(j - 1), x, key).push(before[j - 1]) + before.skip(j)
        =~= insert_one(before.take(j - 1), x, key) + before.skip(j - 1));
}

/// When the scan stops, the insertion point has been found.
proof fn lemma_insert_scan_done<K>(before: Seq<K>, x: K, key: spec_fn(K) -> Seq<char>, j: int)
    requires
        0 <= j <= before.len(),
        j == 0 || lex_le(key(before[j - 1]), key(x)),
        insert_one(before, x, key) == insert_one(before.take(j), x, key) + before.skip(j),
    ensures
        insert_one(before, x, key) == before.insert(j, x),
{
    let t = before.take(j);
    if j > 0 {
        assert(t.len() == j);
        assert(t.last() == before[j - 1]);
        assert(insert_one(t, x, key) == t.push(x));
        assert(t.push(x) + before.skip(j) =~= before.insert(j, x));
    } else {
        assert(t =~= Seq::empty());
        assert(insert_one(t, x, key) == seq![x]);
        assert(seq![x] + before.skip(0) =~= before.insert(0, x));
    }
}

/// Compare two hierarchy nodes by case-folded name.
fn node_le(a: &ProcessNode, b: &ProcessNode) -> (r: bool)
    ensures
        r == lex_le(node_key()(*a), node_key()(*b)),
{
    let fa = to_lower(a.process.name.as_str());
    let fb = to_lower(b.process.name.as_str());
    str_lex_le(fa.as_str(), fb.as_str())
}

/// Compare two process records by case-folded name.
fn proc_le(a: &Process, b: &Process) -> (r: bool)
    ensures
        r == lex_le(proc_key()(*a), proc_key()(*b)),
{
    let fa = to_lower(a.name.as_str());
    let fb = to_lower(b.name.as_str());
    str_lex_le(fa.as_str(), fb.as_str())
}

/// Sort hierarchy nodes by case-insensitive name, stably.
pub fn sort_nodes_by_name(v: Vec<ProcessNode>) -> (r: Vec<ProcessNode>)
    ensures
        r@ == insort(v@, node_key()),
{
    let ghost orig = v@;
    let mut v = v;
    let n: usize = v.len();
    proof {
        assert(orig.len() == n as int);
    }
    let mut out: Vec<ProcessNode> = Vec::new();
    let mut taken: usize = 0;
    while v.len() > 0
        invariant
            orig.len() <= usize::MAX,
            taken + v@.len() == orig.len(),
            v@ == orig.skip(taken as int),
            out@ == insort(orig.take(taken as int), node_key()),
        decreases v@.len(),
    {
        let x = v.remove(0);
        proof {
            assert(x == orig[taken as int]);
            assert(v@ =~= orig.skip(taken as int + 1));
        }
        let ghost before = out@;
        proof {
            lemma_insert_scan_init(before, x, node_key());
        }
        let mut j: usize = out.len();
        while j > 0
            invariant
                0 <= j <= out.len(),
                out@ == before,
                insert_one(before, x, node_key()) == insert_one(before.take(j as int), x, node_key())
                    + before.skip(j as int),
            ensures
                0 <= j <= out.len(),
                out@ == before,
                insert_one(before, x, node_key()) == insert_one(before.take(j as int), x, node_key())
                    + before.skip(j as int),
                j == 0 || lex_le(node_key()(before[j as int - 1]), node_key()(x)),
            decreases j,
        {
            if node_le(&out[j - 1], &x) {
                break;
            }
            proof {
                lemma_insert_scan_step(before, x, node_key(), j as int);
            }
            j -= 1;
        }
        proof {
            lemma_insert_scan_done(before, x, node_key(), j as int);
        }
        out.insert(j, x);
        proof {
            assert(orig.take(taken as int + 1).drop_last() =~= orig.take(taken as int));
            assert(orig.take(taken as int + 1).last() == orig[taken as int]);
        }
        taken += 1;
    }
    proof {
        assert(orig.take(taken as int) =~= orig);
    }
    out
}

/// Sort process records by case-insensitive name, stably.
pub fn sort_procs_by_name(v: Vec<Process>) -> (r: Vec<Process>)
    ensures
        r@ == insort(v@, proc_key()),
{
    let ghost orig = v@;
    let mut v = v;
    let n: usize = v.len();
    proof {
        assert(orig.len() == n as int);
    }
    let mut out: Vec<Process> = Vec::new();
    let mut taken: usize = 0;
    while v.len() > 0
        invariant
            orig.len() <= usize::MAX,
            taken + v@.len() == orig.len(),
            v@ == orig.skip(taken as int),
            out@ == insort(orig.take(taken as int), proc_key()),
        decreases v@.len(),
    {
        let x = v.remove(0);
        proof {
            assert(x == orig[taken as int]);
            assert(v@ =~= orig.skip(taken as int + 1));
        }
        let ghost before = out@;
        proof {
            lemma_insert_scan_init(before, x, proc_key());
        }
        let mut j: usize = out.len();
        while j > 0
            invariant
                0 <= j <= out.len(),
                out@ == before,
                insert_one(before, x, proc_key()) == insert_one(before.take(j as int), x, proc_key())
                    + before.skip(j as int),
            ensures
                0 <= j <= out.len(),
                out@ == before,
                insert_one(before, x, proc_key()) == insert_one(before.take(j as int), x, proc_key())
                    + before.skip(j as int),
                j == 0 || lex_le(proc_key()(before[j as int - 1]), proc_key()(x)),
            decreases j,
        {
            if proc_le(&out[j - 1], &x) {
                break;
            }
            proof {
                lemma_insert_scan_step(before, x, proc_key(), j as int);
            }
            j -= 1;
        }
        proof {
            lemma_insert_scan_done(before, x, proc_key(), j as int);
        }
        out.insert(j, x);
        proof {
            assert(orig.take(taken as int + 1).drop_last() =~= orig.take(taken as int));
            assert(orig.take(taken as int + 1).last() == orig[taken as int]);
        }
        taken += 1;
    }
    proof {
        assert(orig.take(taken as int) =~= orig);
    }
    out
}

/// Inserting commutes with taking views.
pub proof fn lemma_insert_one_view(s: Seq<Process>, x: Process)
    ensures
        procs_view(insert_one(s, x, proc_key())) == insert_one(procs_view(s), x@, proc_v_key()),
    decreases s.len(),
{
    let pv = procs_view(s);
    if s.len() == 0 {
        assert(procs_view(insert_one(s, x, proc_key())) =~= insert_one(pv, x@, proc_v_key()));
    } else {
        assert(pv.last() == s.last()@);
        if lex_le(lower_of(s.last().name@), lower_of(x.name@)) {
            assert(procs_view(s.push(x)) =~= pv.push(x@));
        } else {
            lemma_insert_one_view(s.drop_last(), x);
            assert(procs_view(s.drop_last()) =~= pv.drop_last());
            assert(procs_view(insert_one(s.drop_last(), x, proc_key()).push(s.last())) =~=
                procs_view(insert_one(s.drop_last(), x, proc_key())).push(s.last()@));
        }
    }
}

/// Sorting commutes with taking views.
pub proof fn lemma_insort_view(s: Seq<Process>)
    ensures
        procs_view(insort(s, proc_key())) == insort(procs_view(s), proc_v_key()),
    decreases s.len(),
{
    let pv = procs_view(s);
    if s.len() == 0 {
        assert(procs_view(insort(s, proc_key())) =~= insort(pv, proc_v_key()));
    } else {
        lemma_insort_view(s.drop_last());
        assert(procs_view(s.drop_last()) =~= pv.drop_last());
        assert(pv.last() == s.last()@);
        lemma_insert_one_view(insort(s.drop_last(), proc_key()), s.last());
    }
}

} // verus!
