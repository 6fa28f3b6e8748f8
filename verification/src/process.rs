//! The process collector: a freshness-gated snapshot of the process
//! hierarchy with flat-sorted-list and hierarchical-tree query views, name
//! filtering and pagination.

use vstd::prelude::*;

use crate::cache::CacheEntry;
use crate::models::{
    GetProcessArgs, PagedProcessResult, Process, ProcessDisplay, ProcessNode, ProcessNodeV,
    ProcessResult, ProcessV, node_view, nodes_view, procs_view,
};
use crate::paging::{page_end, page_start, paginate};
use crate::sorting::{insort, lemma_insort_view, proc_v_key, sort_procs_by_name};
use crate::text::{matches_name, name_matches};
use crate::tree::{
    build_process_tree, dedup_by_id, forest_procs, forest_wf, lemma_forest_procs_push, node_procs,
};

verus! {

/// Views of an optional process.
pub open spec fn opt_proc_view(o: Option<Process>) -> Option<ProcessV> {
    match o {
        Some(p) => Some(p@),
        None => None,
    }
}

/// The name filter on a process view, for a given filter text.
pub open spec fn name_pred(f: Seq<char>) -> spec_fn(ProcessV) -> bool {
    |p: ProcessV| name_matches(f, p.name)
}

/// The name filter on a node view, for a given filter text.
pub open spec fn node_name_pred(f: Seq<char>) -> spec_fn(ProcessNodeV) -> bool {
    |n: ProcessNodeV| name_matches(f, n.process.name)
}

/// The first record of `s` that carries the id `id`, in the order of `s`.
pub open spec fn find_id(s: Seq<Process>, id: u32) -> Option<Process>
    decreases s.len(),
{
    if s.len() == 0 {
        None
    } else if s[0].id == id {
        Some(s[0])
    } else {
        find_id(s.drop_first(), id)
    }
}

/// Searching a concatenation searches the left part first.
pub proof fn lemma_find_id_concat(a: Seq<Process>, b: Seq<Process>, id: u32)
    ensures
        find_id(a + b, id) == if find_id(a, id) is Some {
            find_id(a, id)
        } else {
            find_id(b, id)
        },
    decreases a.len(),
{
    if a.len() == 0 {
        assert(a + b =~= b);
    } else {
        assert((a + b)[0] == a[0]);
        assert((a + b).len() > 0);
        if a[0].id != id {
            assert((a + b).drop_first() =~= a.drop_first() + b);
            lemma_find_id_concat(a.drop_first(), b, id);
        }
    }
}

/// Views of a pushed sequence of nodes.
proof fn lemma_nodes_view_push(s: Seq<ProcessNode>, n: ProcessNode)
    ensures
        nodes_view(s.push(n)) == nodes_view(s).push(node_view(n)),
    decreases s.len(),
{
    if s.len() == 0 {
        let t = s.push(n);
        assert(t.len() == 1);
        assert(t[0] == n);
        assert(t.drop_first() =~= Seq::<ProcessNode>::empty());
        assert(nodes_view(t.drop_first()) =~= Seq::empty());
        assert(nodes_view(t) == seq![node_view(t[0])] + nodes_view(t.drop_first()));
        assert(nodes_view(s) =~= Seq::empty());
        assert(nodes_view(t) =~= nodes_view(s).push(node_view(n)));
    } else {
        lemma_nodes_view_push(s.drop_first(), n);
        assert(s.push(n)[0] == s[0]);
        assert(s.push(n).drop_first() =~= s.drop_first().push(n));
        assert(seq![node_view(s[0])] + nodes_view(s.drop_first()).push(node_view(n))
            =~= (seq![node_view(s[0])] + nodes_view(s.drop_first())).push(node_view(n)));
    }
}

/// Length and elements of the views of a sequence of nodes.
proof fn lemma_nodes_view_len(s: Seq<ProcessNode>)
    ensures
        nodes_view(s).len() == s.len(),
        forall|i: int| 0 <= i < s.len() ==> nodes_view(s)[i] == node_view(#[trigger] s[i]),
    decreases s.len(),
{
    if s.len() > 0 {
        lemma_nodes_view_len(s.drop_first());
        assert forall|i: int| 0 <= i < s.len() implies nodes_view(s)[i] == node_view(
        #[trigger] s[i]) by {
            if i > 0 {
                assert(s[i] == s.drop_first()[i - 1]);
                assert(nodes_view(s)[i] == nodes_view(s.drop_first())[i - 1]);
            }
        }
    }
}

/// Clone a whole subtree, keeping its view.
pub fn clone_node(n: &ProcessNode) -> (r: ProcessNode)
    ensures
        node_view(r) == node_view(*n),
    decreases *n,
{
    let mut children: Vec<ProcessNode> = Vec::new();
    let mut i: usize = 0;
    while i < n.children.len()
        invariant
            0 <= i <= n.children@.len(),
            nodes_view(children@) == nodes_view(n.children@.take(i as int)),
        decreases n.children@.len() - i,
    {
        let c = clone_node(&n.children[i]);
        proof {
            lemma_nodes_view_push(children@, c);
            lemma_nodes_view_push(n.children@.take(i as int), n.children@[i as int]);
            assert(n.children@.take(i as int).push(n.children@[i as int]) =~= n.children@.take(
                i as int + 1,
            ));
        }
        children.push(c);
        i += 1;
    }
    proof {
        assert(n.children@.take(n.children@.len() as int) =~= n.children@);
    }
    ProcessNode { process: n.process.clone(), children }
}

impl Clone for ProcessNode {
    fn clone(&self) -> (r: Self)
        ensures
            node_view(r) == node_view(*self),
    {
        clone_node(self)
    }
}

/// Flatten a subtree into `out` in pre-order, cloning each record.
fn flatten_node(n: &ProcessNode, out: &mut Vec<Process>)
    ensures
        procs_view(final(out)@) == procs_view(old(out)@) + procs_view(node_procs(*n)),
    decreases *n,
{
    let ghost base = out@;
    out.push(n.process.clone());
    proof {
        assert(procs_view(out@) =~= procs_view(base).push(n.process@));
    }
    let mut i: usize = 0;
    while i < n.children.len()
        invariant
            0 <= i <= n.children@.len(),
            procs_view(out@) == procs_view(base) + procs_view(
                seq![n.process] + forest_procs(n.children@.take(i as int)),
            ),
        decreases n.children@.len() - i,
    {
        flatten_node(&n.children[i], out);
        proof {
            lemma_forest_procs_push(n.children@.take(i as int), n.children@[i as int]);
            assert(n.children@.take(i as int).push(n.children@[i as int]) =~= n.children@.take(
                i as int + 1,
            ));
            assert(procs_view(out@) =~= procs_view(base) + procs_view(
                seq![n.process] + forest_procs(n.children@.take(i as int + 1)),
            ));
        }
        i += 1;
    }
    proof {
        assert(n.children@.take(n.children@.len() as int) =~= n.children@);
        assert(procs_view(base).push(n.process@) =~= procs_view(base) + procs_view(
            seq![n.process] + forest_procs(n.children@.take(0),
        )));
        assert(procs_view(out@) =~= procs_view(base) + procs_view(node_procs(*n)));
    }
}

/// Flatten a forest into one pre-order sequence of cloned records.
pub fn flatten_forest(forest: &Vec<ProcessNode>) -> (r: Vec<Process>)
    ensures
        procs_view(r@) == procs_view(forest_procs(forest@)),
{
    let mut out: Vec<Process> = Vec::new();
    let mut i: usize = 0;
    while i < forest.len()
        invariant
            0 <= i <= forest@.len(),
            procs_view(out@) == procs_view(forest_procs(forest@.take(i as int))),
        decreases forest@.len() - i,
    {
        flatten_node(&forest[i], &mut out);
        proof {
            lemma_forest_procs_push(forest@.take(i as int), forest@[i as int]);
            assert(forest@.take(i as int).push(forest@[i as int]) =~= forest@.take(i as int + 1));
            assert(procs_view(forest_procs(forest@.take(i as int))) + procs_view(
                node_procs(forest@[i as int]),
            ) =~= procs_view(forest_procs(forest@.take(i as int + 1))));
        }
        i += 1;
    }
    proof {
        assert(forest@.take(forest@.len() as int) =~= forest@);
    }
    out
}

/// Keep the records whose name matches the filter, case-insensitively.
#[verifier::loop_isolation(false)]
pub fn filter_procs_by_name(v: Vec<Process>, filter: &str) -> (r: Vec<Process>)
    ensures
        procs_view(r@) == procs_view(v@).filter(name_pred(filter@)),
{
    let ghost orig = v@;
    let ghost pred = name_pred(filter@);
    let mut v = v;
    let n: usize = v.len();
    proof {
        assert(orig.len() == n as int);
    }
    let mut out: Vec<Process> = Vec::new();
    let mut taken: usize = 0;
    while v.len() > 0
        invariant
            orig.len() <= usize::MAX,
            taken + v@.len() == orig.len(),
            v@ == orig.skip(taken as int),
            procs_view(out@) == procs_view(orig.take(taken as int)).filter(pred),
        decreases v@.len(),
    {
        let x = v.remove(0);
        proof {
            assert(x == orig[taken as int]);
            assert(v@ =~= orig.skip(taken as int + 1));
            let pt = procs_view(orig.take(taken as int + 1));
            assert(pt =~= procs_view(orig.take(taken as int)).push(x@));
            assert(pt.drop_last() =~= procs_view(orig.take(taken as int)));
            assert(pt.last() == x@);
        }
        proof {
            reveal(Seq::filter);
            let pt = procs_view(orig.take(taken as int + 1));
            assert(pred(x@) == name_matches(filter@, x.name@));
            assert(pt.filter(pred) == if pred(pt.last()) {
                pt.drop_last().filter(pred).push(pt.last())
            } else {
                pt.drop_last().filter(pred)
            });
        }
        if matches_name(filter, x.name.as_str()) {
            let ghost before = out@;
            out.push(x);
            proof {
                assert(procs_view(out@) =~= procs_view(before).push(x@));
            }
        }
        taken += 1;
    }
    proof {
        assert(orig.take(taken as int) =~= orig);
    }
    out
}

/// Keep the top-level nodes whose record's name matches the filter,
/// case-insensitively, cloning each kept subtree.
#[verifier::loop_isolation(false)]
pub fn filter_nodes_by_name(forest: &Vec<ProcessNode>, filter: &str) -> (r: Vec<ProcessNode>)
    ensures
        nodes_view(r@) == nodes_view(forest@).filter(node_name_pred(filter@)),
{
    let ghost pred = node_name_pred(filter@);
    let mut out: Vec<ProcessNode> = Vec::new();
    let mut i: usize = 0;
    while i < forest.len()
        invariant
            0 <= i <= forest@.len(),
            nodes_view(out@) == nodes_view(forest@.take(i as int)).filter(pred),
        decreases forest@.len() - i,
    {
        proof {
            lemma_nodes_view_push(forest@.take(i as int), forest@[i as int]);
            assert(forest@.take(i as int).push(forest@[i as int]) =~= forest@.take(i as int + 1));
            let nt = nodes_view(forest@.take(i as int + 1));
            assert(nt.drop_last() =~= nodes_view(forest@.take(i as int)));
            assert(nt.last() == node_view(forest@[i as int]));
            reveal(Seq::filter);
            assert(pred(node_view(forest@[i as int])) == name_matches(
                filter@,
                forest@[i as int].process.name@,
            ));
            assert(nt.filter(pred) == if pred(nt.last()) {
                nt.drop_last().filter(pred).push(nt.last())
            } else {
                nt.drop_last().filter(pred)
            });
        }
        if matches_name(filter, forest[i].process.name.as_str()) {
            let c = clone_node(&forest[i]);
            let ghost before = out@;
            out.push(c);
            proof {
                lemma_nodes_view_push(before, c);
            }
        }
        i += 1;
    }
    proof {
        assert(forest@.take(forest@.len() as int) =~= forest@);
    }
    out
}

/// Clone a whole forest, keeping its views.
pub fn clone_forest(forest: &Vec<ProcessNode>) -> (r: Vec<ProcessNode>)
    ensures
        nodes_view(r@) == nodes_view(forest@),
{
    let mut out: Vec<ProcessNode> = Vec::new();
    let mut i: usize = 0;
    while i < forest.len()
        invariant
            0 <= i <= forest@.len(),
            nodes_view(out@) == nodes_view(forest@.take(i as int)),
        decreases forest@.len() - i,
    {
        let c = clone_node(&forest[i]);
        proof {
            lemma_nodes_view_push(out@, c);
            lemma_nodes_view_push(forest@.take(i as int), forest@[i as int]);
            assert(forest@.take(i as int).push(forest@[i as int]) =~= forest@.take(i as int + 1));
        }
        out.push(c);
        i += 1;
    }
    proof {
        assert(forest@.take(forest@.len() as int) =~= forest@);
    }
    out
}

/// The flat List answer: pre-order records, filtered by name when a filter
/// is given, then sorted by case-folded name.
pub open spec fn list_view_of(forest: Seq<ProcessNode>, filter: Option<Seq<char>>) -> Seq<
    ProcessV,
> {
    let flat = procs_view(forest_procs(forest));
    let kept = match filter {
        Some(f) => flat.filter(name_pred(f)),
        None => flat,
    };
    insort(kept, proc_v_key())
}

/// The Hierarchy answer: top-level nodes, filtered by name when a filter is
/// given; children are not independently searched, so a filter matching only
/// a descendant hides its whole subtree.
pub open spec fn hierarchy_view_of(forest: Seq<ProcessNode>, filter: Option<Seq<char>>) -> Seq<
    ProcessNodeV,
> {
    match filter {
        Some(f) => nodes_view(forest).filter(node_name_pred(f)),
        None => nodes_view(forest),
    }
}

/// The view of an optional string filter.
pub open spec fn filter_view(o: Option<String>) -> Option<Seq<char>> {
    match o {
        Some(s) => Some(s@),
        None => None,
    }
}

/// Sorting the flat List answer a second time yields the same sequence:
/// the answer is already ordered by case-folded name, and sorting an
/// ordered sequence returns it unchanged.
pub proof fn lemma_list_view_sort_stable(forest: Seq<ProcessNode>, filter: Option<Seq<char>>)
    ensures
        insort(list_view_of(forest, filter), proc_v_key()) == list_view_of(forest, filter),
{
    let kept = match filter {
        Some(f) => procs_view(forest_procs(forest)).filter(name_pred(f)),
        None => procs_view(forest_procs(forest)),
    };
    crate::sorting::lemma_insort_idempotent(kept, proc_v_key());
}

/// The process collector: one freshness-gated cache of the built hierarchy.
pub struct ProcessManager {
    pub query_interval_ms: u64,
    pub cache: CacheEntry<Vec<ProcessNode>>,
}

impl ProcessManager {
    /// The cached forest keeps the builder's shape invariant.
    pub open spec fn wf(&self) -> bool {
        forest_wf(self.cache.value@)
    }

    /// A collector whose empty cache is immediately stale, so the first
    /// query triggers a refresh.
    pub fn new(now_ms: u64) -> (r: Self)
        ensures
            r.wf(),
            r.cache.value@ == Seq::<ProcessNode>::empty(),
            r.query_interval_ms == 1000,
            now_ms >= r.query_interval_ms ==> r.cache.spec_is_stale(now_ms, r.query_interval_ms),
    {
        let query_interval_ms: u64 = 1000;
        let stamp: u64 = if now_ms >= query_interval_ms {
            now_ms - query_interval_ms
        } else {
            0
        };
        let r = ProcessManager {
            query_interval_ms,
            cache: CacheEntry::new(Vec::new(), stamp),
        };
        proof {
            assert(r.cache.value@ =~= Seq::<ProcessNode>::empty());
        }
        r
    }

    /// The cached snapshot is older than the refresh interval.
    pub fn needs_refresh(&self, now_ms: u64) -> (r: bool)
        ensures
            r == self.cache.spec_is_stale(now_ms, self.query_interval_ms),
    {
        self.cache.is_stale(now_ms, self.query_interval_ms)
    }

    /// Replace the cached hierarchy with one built from a fresh snapshot.
    pub fn refresh(&mut self, records: Vec<Process>, now_ms: u64)
        ensures
            final(self).wf(),
            crate::sorting::sorted_by_key(final(self).cache.value@, crate::sorting::node_key()),
            forest_procs(final(self).cache.value@).to_multiset() == dedup_by_id(
                records@,
            ).to_multiset(),
            crate::tree::acyclic(dedup_by_id(records@)) ==> forall|i: int|
                0 <= i < final(self).cache.value@.len() ==> crate::tree::is_root_rec(
                    (#[trigger] final(self).cache.value@[i]).process,
                    dedup_by_id(records@),
                ),
            final(self).cache.refreshed_on_ms == now_ms,
            final(self).query_interval_ms == old(self).query_interval_ms,
    {
        let forest = build_process_tree(records);
        self.cache.store(forest, now_ms);
    }

    /// Number of top-level trees in the cached hierarchy.
    pub fn get_count(&self) -> (r: u32)
        requires
            self.cache.value@.len() <= u32::MAX,
        ensures
            r == self.cache.value@.len(),
    {
        self.cache.value().len() as u32
    }

    /// Answer a query against the cached snapshot: the List view flattens
    /// the hierarchy pre-order, filters by case-insensitive name and sorts
    /// by case-folded name; the Hierarchy view filters only top-level nodes.
    pub fn get(&self, args: &GetProcessArgs) -> (r: ProcessResult)
        ensures
            args.display == ProcessDisplay::List ==> (r matches ProcessResult::List(v)
                && procs_view(v@) == list_view_of(self.cache.value@, filter_view(args.name))),
            args.display == ProcessDisplay::Hierarchy ==> (r matches ProcessResult::Hierarchy(v)
                && nodes_view(v@) == hierarchy_view_of(self.cache.value@, filter_view(args.name))),
    {
        match args.display {
            ProcessDisplay::List => {
                let flat = flatten_forest(self.cache.value());
                let kept = match &args.name {
                    Some(name) => filter_procs_by_name(flat, name.as_str()),
                    None => flat,
                };
                let sorted = sort_procs_by_name(kept);
                proof {
                    lemma_insort_view(kept@);
                }
                ProcessResult::List(sorted)
            },
            ProcessDisplay::Hierarchy => {
                let nodes = match &args.name {
                    Some(name) => filter_nodes_by_name(self.cache.value(), name.as_str()),
                    None => clone_forest(self.cache.value()),
                };
                ProcessResult::Hierarchy(nodes)
            },
        }
    }

    /// Answer a query and slice the requested page out of it. The reported
    /// total is the filtered count; a page past the end is empty.
    pub fn query(&self, args: &GetProcessArgs) -> (r: PagedProcessResult)
        requires
            forest_procs(self.cache.value@).len() <= u32::MAX,
            self.cache.value@.len() <= u32::MAX,
        ensures
            args.display == ProcessDisplay::List ==> (r matches PagedProcessResult::List(pg)
                && {
                let full = list_view_of(self.cache.value@, filter_view(args.name));
                &&& procs_view(pg.items@) == full.subrange(
                    page_start(full.len() as int, args.page as int, args.page_size as int),
                    page_end(full.len() as int, args.page as int, args.page_size as int),
                )
                &&& pg.total == full.len()
                &&& pg.page == args.page
                &&& pg.page_size == args.page_size
            }),
            args.display == ProcessDisplay::Hierarchy ==> (r matches
                PagedProcessResult::Hierarchy(pg) && {
                let full = hierarchy_view_of(self.cache.value@, filter_view(args.name));
                &&& nodes_view(pg.items@) == full.subrange(
                    page_start(full.len() as int, args.page as int, args.page_size as int),
                    page_end(full.len() as int, args.page as int, args.page_size as int),
                )
                &&& pg.total == full.len()
                &&& pg.page == args.page
                &&& pg.page_size == args.page_size
            }),
    {
        let result = self.get(args);
        match result {
            ProcessResult::List(items) => {
                proof {
                    crate::sorting::lemma_insort_sorted(
                        match filter_view(args.name) {
                            Some(f) => procs_view(forest_procs(self.cache.value@)).filter(
                                name_pred(f),
                            ),
                            None => procs_view(forest_procs(self.cache.value@)),
                        },
                        proc_v_key(),
                    );
                }
                proof {
                    let full = list_view_of(self.cache.value@, filter_view(args.name));
                    assert(procs_view(items@) == full);
                    assert(items@.len() == full.len()) by {
                        assert(procs_view(items@).len() == items@.len());
                    }
                }
                let page = paginate(items, args.page, args.page_size);
                proof {
                    let full = list_view_of(self.cache.value@, filter_view(args.name));
                    let lo = page_start(full.len() as int, args.page as int, args.page_size as int);
                    let hi = page_end(full.len() as int, args.page as int, args.page_size as int);
                    assert(procs_view(page.items@) =~= full.subrange(lo, hi));
                }
                PagedProcessResult::List(page)
            },
            ProcessResult::Hierarchy(nodes) => {
                proof {
                    lemma_nodes_view_len(nodes@);
                    let full = hierarchy_view_of(self.cache.value@, filter_view(args.name));
                    assert(nodes_view(nodes@) == full);
                    lemma_nodes_view_len(self.cache.value@);
                }
                let ghost nodes_before = nodes@;
                let page = paginate(nodes, args.page, args.page_size);
                proof {
                    let full = hierarchy_view_of(self.cache.value@, filter_view(args.name));
                    let lo = page_start(full.len() as int, args.page as int, args.page_size as int);
                    let hi = page_end(full.len() as int, args.page as int, args.page_size as int);
                    lemma_nodes_view_len(page.items@);
                    lemma_nodes_view_len(nodes_before);
                    assert(full == nodes_view(nodes_before));
                    assert(page.items@.len() == hi - lo);
                    assert forall|k: int| 0 <= k < page.items@.len() implies nodes_view(
                        page.items@,
                    )[k] == full.subrange(lo, hi)[k] by {
                        assert(page.items@[k] == nodes_before[lo + k]);
                        assert(nodes_view(page.items@)[k] == node_view(page.items@[k]));
                        assert(nodes_view(nodes_before)[lo + k] == node_view(
                            nodes_before[lo + k],
                        ));
                    }
                    assert(nodes_view(page.items@) =~= full.subrange(lo, hi));
                }
                PagedProcessResult::Hierarchy(page)
            },
        }
    }

    /// Look a process up by id in the cached snapshot, pre-order: the first
    /// record carrying the id, or nothing when no record carries it.
    pub fn get_by_id(&self, id: u32) -> (r: Option<Process>)
        ensures
            opt_proc_view(r) == opt_proc_view(find_id(forest_procs(self.cache.value@), id)),
    {
        find_in_forest(self.cache.value(), id)
    }
}

/// Search one subtree pre-order for the first record with the id.
#[verifier::loop_isolation(false)]
fn find_in_node(n: &ProcessNode, id: u32) -> (r: Option<Process>)
    ensures
        opt_proc_view(r) == opt_proc_view(find_id(node_procs(*n), id)),
    decreases *n,
{
    proof {
        assert(node_procs(*n)[0] == n.process);
        assert(node_procs(*n).len() > 0);
        assert(node_procs(*n).drop_first() =~= forest_procs(n.children@));
    }
    if n.process.id == id {
        return Some(n.process.clone());
    }
    let mut i: usize = 0;
    while i < n.children.len()
        invariant
            0 <= i <= n.children@.len(),
            find_id(forest_procs(n.children@.take(i as int)), id) is None,
        decreases n.children@.len() - i,
    {
        let found = find_in_node(&n.children[i], id);
        proof {
            lemma_forest_procs_push(n.children@.take(i as int), n.children@[i as int]);
            assert(n.children@.take(i as int).push(n.children@[i as int]) =~= n.children@.take(
                i as int + 1,
            ));
            lemma_find_id_concat(
                forest_procs(n.children@.take(i as int)),
                node_procs(n.children@[i as int]),
                id,
            );
        }
        match found {
            Some(p) => {
                proof {
                    assert(find_id(forest_procs(n.children@.take(i as int + 1)), id)
                        == find_id(node_procs(n.children@[i as int]), id));
                    lemma_find_id_concat(
                        forest_procs(n.children@.take(i as int + 1)),
                        forest_procs_rest(n.children@, i as int + 1),
                        id,
                    );
                    assert(forest_procs(n.children@.take(i as int + 1)) + forest_procs_rest(
                        n.children@,
                        i as int + 1,
                    ) =~= forest_procs(n.children@)) by {
                        lemma_forest_procs_split(n.children@, i as int + 1);
                    }
                }
                return Some(p);
            },
            None => {},
        }
        i += 1;
    }
    proof {
        assert(n.children@.take(n.children@.len() as int) =~= n.children@);
    }
    None
}

/// The records of the trees from position `k` on.
pub open spec fn forest_procs_rest(s: Seq<ProcessNode>, k: int) -> Seq<Process> {
    forest_procs(s.skip(k))
}

/// A forest's records split at any position.
proof fn lemma_forest_procs_split(s: Seq<ProcessNode>, k: int)
    requires
        0 <= k <= s.len(),
    ensures
        forest_procs(s.take(k)) + forest_procs(s.skip(k)) == forest_procs(s),
    decreases k,
{
    if k == 0 {
        assert(s.take(0) =~= Seq::<ProcessNode>::empty());
        assert(s.skip(0) =~= s);
        assert(forest_procs(s.take(0)) + forest_procs(s.skip(0)) =~= forest_procs(s));
    } else {
        lemma_forest_procs_split(s.drop_first(), k - 1);
        assert(s.take(k)[0] == s[0]);
        assert(s.take(k).drop_first() =~= s.drop_first().take(k - 1));
        assert(s.skip(k) =~= s.drop_first().skip(k - 1));
        assert((node_procs(s[0]) + forest_procs(s.drop_first().take(k - 1))) + forest_procs(
            s.drop_first().skip(k - 1),
        ) =~= node_procs(s[0]) + (forest_procs(s.drop_first().take(k - 1)) + forest_procs(
            s.drop_first().skip(k - 1),
        )));
    }
}

/// Search a forest pre-order for the first record with the id.
#[verifier::loop_isolation(false)]
fn find_in_forest(forest: &Vec<ProcessNode>, id: u32) -> (r: Option<Process>)
    ensures
        opt_proc_view(r) == opt_proc_view(find_id(forest_procs(forest@), id)),
{
    let mut i: usize = 0;
    while i < forest.len()
        invariant
            0 <= i <= forest@.len(),
            find_id(forest_procs(forest@.take(i as int)), id) is None,
        decreases forest@.len() - i,
    {
        let found = find_in_node(&forest[i], id);
        proof {
            lemma_forest_procs_push(forest@.take(i as int), forest@[i as int]);
            assert(forest@.take(i as int).push(forest@[i as int]) =~= forest@.take(i as int + 1));
            lemma_find_id_concat(
                forest_procs(forest@.take(i as int)),
                node_procs(forest@[i as int]),
                id,
            );
        }
        match found {
            Some(p) => {
                proof {
                    lemma_find_id_concat(
                        forest_procs(forest@.take(i as int + 1)),
                        forest_procs_rest(forest@, i as int + 1),
                        id,
                    );
                    lemma_forest_procs_split(forest@, i as int + 1);
                }
                return Some(p);
            },
            None => {},
        }
        i += 1;
    }
    proof {
        assert(forest@.take(forest@.len() as int) =~= forest@);
    }
    None
}

} // verus!
