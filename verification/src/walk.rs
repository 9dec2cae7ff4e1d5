//! Depth-first traversal of a store's implied value tree: every reachable
//! address is classified as a branch or a leaf, branches are emitted before
//! their own descendants (pre-order), and a store may keep part of the tree
//! invisible.

use vstd::prelude::*;

use crate::address::BranchOrLeaf;
use crate::filter_addresses::AddressPredicate;
use crate::filter_addresses::FilterAddressesWrapperStore;
use crate::filter_addresses::pair_pred;
use crate::json_store::JsonValueStore;
use crate::json_store::children_pairs;
use crate::json_value::JsonValueV;
use crate::json_value::lemma_obj_key_index;
use crate::json_value::obj_get;
use crate::json_value::obj_has_key;
use crate::json_value::obj_key_index;
use crate::json_value::wf;
use crate::location::Location;
use crate::paths::JsonPath;
use crate::paths::JsonPathPart;
use crate::paths::PathPartV;
use crate::store::AddressableList;
use crate::store::AddressableTree;
use crate::traverse::get_path_spec;
use crate::traverse::get_sub_spec;
use crate::traverse::lemma_get_path_snoc;

verus! {

/// Whether `part` names a direct child of the container `v`.
pub open spec fn is_child_part(v: JsonValueV, part: PathPartV) -> bool {
    match part {
        PathPartV::Key(k) => v is Object && obj_has_key(v->Object_0, k),
        PathPartV::Index(i) => v is Array && 0 <= i < v->Array_0.len(),
    }
}

/// The direct child of `v` named by `part`.
pub open spec fn entry_child(v: JsonValueV, part: PathPartV) -> JsonValueV {
    match part {
        PathPartV::Key(k) => obj_get(v->Object_0, k),
        PathPartV::Index(i) => v->Array_0[i],
    }
}

/// Lifts a predicate on child addresses to one on listing pairs.
pub open spec fn addr_pair_pred(p: spec_fn(Seq<PathPartV>) -> bool) -> spec_fn(
    (PathPartV, Seq<PathPartV>),
) -> bool {
    |t: (PathPartV, Seq<PathPartV>)| p(t.1)
}

/// The walk items produced by visiting, in order, the children named by
/// `pairs` inside the container `v`: a leaf child contributes one `Leaf`
/// item, a branch child contributes a `Branch` item followed by the walk of
/// its own subtree.
pub open spec fn walk_pairs(
    v: JsonValueV,
    pairs: Seq<(PathPartV, Seq<PathPartV>)>,
    p: spec_fn(Seq<PathPartV>) -> bool,
) -> Seq<BranchOrLeaf<Seq<PathPartV>, Seq<PathPartV>>>
    decreases v, pairs.len(),
    when forall|i: int| 0 <= i < pairs.len() ==> is_child_part(v, (#[trigger] pairs[i]).0)
    via walk_pairs_decreases
{
    if pairs.len() == 0 {
        Seq::empty()
    } else {
        let part = pairs[0].0;
        let caddr = pairs[0].1;
        let c = entry_child(v, part);
        (if c is Array || c is Object {
            seq![BranchOrLeaf::Branch(caddr)] + walk_node(c, caddr, p)
        } else {
            seq![BranchOrLeaf::Leaf(caddr)]
        }) + walk_pairs(v, pairs.drop_first(), p)
    }
}

/// The whole pre-order walk below the container `v` at address `addr`,
/// restricted to the children that `p` keeps visible.
pub open spec fn walk_node(
    v: JsonValueV,
    addr: Seq<PathPartV>,
    p: spec_fn(Seq<PathPartV>) -> bool,
) -> Seq<BranchOrLeaf<Seq<PathPartV>, Seq<PathPartV>>>
    decreases v, children_pairs(v, addr).len() + 1,
    via walk_node_decreases
{
    walk_pairs(v, children_pairs(v, addr).filter(addr_pair_pred(p)), p)
}

/// A named child really is structurally inside its container.
pub proof fn lemma_child_decreases(v: JsonValueV, part: PathPartV)
    requires
        is_child_part(v, part),
    ensures
        decreases_to!(v => entry_child(v, part)),
{
    match part {
        PathPartV::Key(k) => {
            lemma_obj_key_index(v->Object_0, k);
            let idx = obj_key_index(v->Object_0, k);
            assert(decreases_to!(v => v->Object_0));
            assert(decreases_to!(v->Object_0 => v->Object_0[idx]));
            assert(decreases_to!(v->Object_0[idx] => v->Object_0[idx].1));
        },
        PathPartV::Index(i) => {
            assert(decreases_to!(v => v->Array_0));
            assert(decreases_to!(v->Array_0 => v->Array_0[i]));
        },
    }
}

#[via_fn]
proof fn walk_pairs_decreases(
    v: JsonValueV,
    pairs: Seq<(PathPartV, Seq<PathPartV>)>,
    p: spec_fn(Seq<PathPartV>) -> bool,
) {
    if pairs.len() > 0 {
        assert(is_child_part(v, pairs[0].0));
        lemma_child_decreases(v, pairs[0].0);
    }
}

#[via_fn]
proof fn walk_node_decreases(
    v: JsonValueV,
    addr: Seq<PathPartV>,
    p: spec_fn(Seq<PathPartV>) -> bool,
) {
    children_pairs(v, addr).lemma_filter_len(addr_pair_pred(p));
}

/// Every pair the listing of a container yields names one of its children.
pub proof fn lemma_children_pairs_valid(v: JsonValueV, addr: Seq<PathPartV>)
    ensures
        forall|i: int|
            0 <= i < children_pairs(v, addr).len() ==> {
                let t = #[trigger] children_pairs(v, addr)[i];
                is_child_part(v, t.0) && t.1 == addr.push(t.0)
            },
{
    if v is Object {
        let es = v->Object_0;
        assert forall|i: int| 0 <= i < es.len() implies {
            let t = #[trigger] children_pairs(v, addr)[i];
            is_child_part(v, t.0) && t.1 == addr.push(t.0)
        } by {
            lemma_obj_key_index(es, es[i].0);
            let idx = obj_key_index(es, es[i].0);
            if idx < 0 {
                assert(false);
            }
        }
    }
}

proof fn lemma_filter_is_subset<T>(s: Seq<T>, p: spec_fn(T) -> bool)
    ensures
        forall|i: int| 0 <= i < s.filter(p).len() ==> s.contains(#[trigger] s.filter(p)[i]),
    decreases s.len(),
{
    reveal(Seq::filter);
    if s.len() > 0 {
        lemma_filter_is_subset(s.drop_last(), p);
        assert forall|i: int| 0 <= i < s.filter(p).len() implies s.contains(
            #[trigger] s.filter(p)[i],
        ) by {
            let f = s.filter(p);
            let fd = s.drop_last().filter(p);
            if i < fd.len() {
                assert(fd[i] == f[i]);
                let j = choose|j: int| 0 <= j < s.drop_last().len() && s.drop_last()[j] == fd[i];
                assert(s[j] == f[i]);
            } else {
                assert(f[i] == s.last());
                assert(s[s.len() - 1] == f[i]);
            }
        }
    }
}

proof fn lemma_filter_all<T>(s: Seq<T>, p: spec_fn(T) -> bool)
    requires
        forall|i: int| 0 <= i < s.len() ==> p(#[trigger] s[i]),
    ensures
        s.filter(p) == s,
    decreases s.len(),
{
    reveal(Seq::filter);
    if s.len() > 0 {
        assert(forall|i: int| 0 <= i < s.drop_last().len() ==> #[trigger] s.drop_last()[i] == s[i]);
        lemma_filter_all(s.drop_last(), p);
        assert(p(s.last()));
        assert(s.filter(p) =~= s);
    }
}

proof fn lemma_filter_compose<T>(s: Seq<T>, p: spec_fn(T) -> bool, q: spec_fn(T) -> bool, r: spec_fn(T) -> bool)
    requires
        forall|t: T| #[trigger] r(t) == (p(t) && q(t)),
    ensures
        s.filter(p).filter(q) == s.filter(r),
    decreases s.len(),
{
    reveal(Seq::filter);
    if s.len() > 0 {
        lemma_filter_compose(s.drop_last(), p, q, r);
        let fp = s.drop_last().filter(p);
        if p(s.last()) {
            assert(fp.push(s.last()).drop_last() =~= fp);
            assert(fp.push(s.last()).last() == s.last());
            if q(s.last()) {
                assert(s.filter(p).filter(q) =~= s.filter(r));
            } else {
                assert(s.filter(p).filter(q) =~= s.filter(r));
            }
        } else {
            assert(s.filter(p).filter(q) =~= s.filter(r));
        }
    }
}

/// A store whose listable hierarchy is the tree of a JSON value, with a
/// store-chosen part of it visible: what the tree walker needs.
pub trait WalkableTree: AddressableTree<JsonPath, JsonPath> + AddressableList<
    JsonPath,
    AddedAddress = JsonPathPart,
    ItemAddress = JsonPath,
> {
    /// The backing value tree.
    spec fn tree_model(&self) -> JsonValueV;

    /// Which addresses the store lets through when listing.
    spec fn visible_fn(&self) -> spec_fn(Seq<PathPartV>) -> bool;

    /// The listing and classification operations agree with the model:
    /// listing succeeds exactly at containers and yields their visible
    /// children in order, and classification resolves every address the
    /// model holds, branches being exactly the containers.
    proof fn tree_contract(&self, addr: &JsonPath)
        ensures
            self.list_ok(addr) <==> (get_path_spec(self.tree_model(), addr@) matches Ok(Some(v))
                && (v is Array || v is Object)),
            self.list_ok(addr) ==> self.list_view(addr) == children_pairs(
                get_path_spec(self.tree_model(), addr@)->Ok_0->Some_0,
                addr@,
            ).filter(addr_pair_pred(self.visible_fn())),
            self.bl_ok(addr) <==> get_path_spec(self.tree_model(), addr@) matches Ok(Some(_)),
            self.bl_ok(addr) ==> (self.is_branch_at(addr) <==> {
                let v = get_path_spec(self.tree_model(), addr@)->Ok_0->Some_0;
                v is Array || v is Object
            }),
            forall|item: JsonPath| self.leaf_rel(addr, &item) ==> item@ == addr@,
    ;
}

/// Walks the subtree below `addr` depth-first, appending one item per
/// visible descendant to `out`: branches before their own descendants.
#[verifier::loop_isolation(false)]
fn walk_rec<S: WalkableTree>(
    store: &S,
    addr: &JsonPath,
    out: &mut Vec<BranchOrLeaf<JsonPath, JsonPath>>,
) -> (r: Result<(), S::Error>)
    ensures
        match r {
            Ok(()) => store.list_ok(addr) && Seq::new(
                final(out)@.len(),
                |i: int| final(out)@[i]@,
            ) =~= Seq::new(old(out)@.len(), |i: int| old(out)@[i]@) + walk_node(
                get_path_spec(store.tree_model(), addr@)->Ok_0->Some_0,
                addr@,
                store.visible_fn(),
            ),
            Err(e) => !store.list_ok(addr) && store.list_err(addr, &e) && final(out)@ == old(
                out,
            )@,
        },
    decreases get_path_spec(store.tree_model(), addr@)->Ok_0->Some_0,
{
    proof {
        store.tree_contract(addr);
    }
    let pairs: Vec<(JsonPathPart, JsonPath)> = match store.list(addr) {
        Ok(p) => p,
        Err(e) => {
            return Err(e);
        },
    };
    let ghost v = get_path_spec(store.tree_model(), addr@)->Ok_0->Some_0;
    let ghost vis = store.visible_fn();
    let ghost fpairs = children_pairs(v, addr@).filter(addr_pair_pred(vis));
    let ghost base = Seq::new(out@.len(), |i: int| out@[i]@);
    proof {
        lemma_children_pairs_valid(v, addr@);
        lemma_filter_is_subset(children_pairs(v, addr@), addr_pair_pred(vis));
        assert forall|m: int| 0 <= m < fpairs.len() implies is_child_part(
            v,
            (#[trigger] fpairs[m]).0,
        ) && fpairs[m].1 == addr@.push(fpairs[m].0) by {
            assert(children_pairs(v, addr@).contains(fpairs[m]));
            let j = choose|j: int|
                0 <= j < children_pairs(v, addr@).len() && children_pairs(v, addr@)[j]
                    == fpairs[m];
        }
        assert(fpairs.skip(0) =~= fpairs);
        assert(base + walk_node(v, addr@, vis) =~= Seq::new(out@.len(), |i: int| out@[i]@)
            + walk_pairs(v, fpairs.skip(0), vis));
    }
    let n: usize = pairs.len();
    let mut j: usize = 0;
    while j < n
        invariant
            j <= n,
            n as int == fpairs.len(),
            forall|m: int|
                0 <= m < n as int ==> (#[trigger] pairs@[m].0@, pairs@[m].1@) == fpairs[m],
            base + walk_node(v, addr@, vis) =~= Seq::new(out@.len(), |i: int| out@[i]@)
                + walk_pairs(v, fpairs.skip(j as int), vis),
        decreases n - j,
    {
        let ghost tail = fpairs.skip(j as int);
        proof {
            assert(tail[0] == fpairs[j as int]);
            assert(tail.drop_first() =~= fpairs.skip(j + 1 as int));
            assert forall|m: int| 0 <= m < tail.len() implies is_child_part(
                v,
                (#[trigger] tail[m]).0,
            ) by {
                assert(tail[m] == fpairs[j + m]);
            }
        }
        let ghost part = fpairs[j as int].0;
        let ghost c = entry_child(v, part);
        let caddr: JsonPath = pairs[j].1.clone();
        let ghost caddr_g = caddr;
        proof {
            assert((pairs@[j as int].0@, pairs@[j as int].1@) == fpairs[j as int]);
            assert(pairs@[j as int].1@ == addr@.push(part));
            assert(caddr_g@ == addr@.push(part));
            lemma_get_path_snoc(store.tree_model(), addr@, part);
            assert(get_sub_spec(v, part) == Ok::<Option<JsonValueV>, (
                PathPartV,
                crate::json_value::JsonKind,
            )>(Some(c))) by {
                if part is Key {
                    lemma_obj_key_index(v->Object_0, part->Key_0);
                }
            }
            assert(get_path_spec(store.tree_model(), pairs@[j as int].1@) == Ok::<
                Option<JsonValueV>,
                (PathPartV, crate::json_value::JsonKind),
            >(Some(c)));
            store.tree_contract(&caddr_g);
            store.tree_contract(&pairs@[j as int].1);
        }
        match store.branch_or_leaf(caddr) {
            Ok(BranchOrLeaf::Branch(a)) => {
                let ghost out_before = Seq::new(out@.len(), |i: int| out@[i]@);
                out.push(BranchOrLeaf::Branch(a));
                proof {
                    assert(Seq::new(out@.len(), |i: int| out@[i]@) =~= out_before.push(
                        BranchOrLeaf::Branch(addr@.push(part)),
                    ));
                    lemma_child_decreases(v, part);
                }
                match walk_rec(store, &pairs[j].1, out) {
                    Ok(()) => {
                        proof {
                            assert(Seq::new(out@.len(), |i: int| out@[i]@) =~= out_before.push(
                                BranchOrLeaf::Branch(addr@.push(part)),
                            ) + walk_node(c, addr@.push(part), vis));
                            assert(walk_pairs(v, tail, vis) =~= (seq![
                                BranchOrLeaf::<Seq<PathPartV>, Seq<PathPartV>>::Branch(
                                    addr@.push(part),
                                ),
                            ] + walk_node(c, addr@.push(part), vis)) + walk_pairs(
                                v,
                                fpairs.skip(j + 1 as int),
                                vis,
                            ));
                            assert(base + walk_node(v, addr@, vis) =~= Seq::new(
                                out@.len(),
                                |i: int| out@[i]@,
                            ) + walk_pairs(v, fpairs.skip(j + 1 as int), vis));
                        }
                    },
                    Err(_) => {
                        proof {
                            assert(false);
                        }
                    },
                }
            },
            Ok(BranchOrLeaf::Leaf(a)) => {
                let ghost out_before = Seq::new(out@.len(), |i: int| out@[i]@);
                out.push(BranchOrLeaf::Leaf(a));
                proof {
                    assert(!(c is Array || c is Object));
                    assert(Seq::new(out@.len(), |i: int| out@[i]@) =~= out_before.push(
                        BranchOrLeaf::Leaf(addr@.push(part)),
                    ));
                    assert(walk_pairs(v, tail, vis) =~= seq![
                        BranchOrLeaf::<Seq<PathPartV>, Seq<PathPartV>>::Leaf(addr@.push(part)),
                    ] + walk_pairs(v, fpairs.skip(j + 1 as int), vis));
                    assert(base + walk_node(v, addr@, vis) =~= Seq::new(
                        out@.len(),
                        |i: int| out@[i]@,
                    ) + walk_pairs(v, fpairs.skip(j + 1 as int), vis));
                }
            },
            Err(_) => {
                proof {
                    assert(false);
                }
            },
        }
        j = j + 1;
    }
    proof {
        assert(fpairs.skip(n as int) =~= Seq::<(PathPartV, Seq<PathPartV>)>::empty());
        assert(walk_pairs(v, fpairs.skip(n as int), vis) =~= Seq::<
            BranchOrLeaf<Seq<PathPartV>, Seq<PathPartV>>,
        >::empty());
        assert(Seq::new(out@.len(), |i: int| out@[i]@) =~= base + walk_node(v, addr@, vis));
    }
    Ok(())
}

impl<S: WalkableTree> Location<JsonPath, S> {
    /// Recursively walk the tree below this location, collecting every
    /// visible descendant in depth-first pre-order: each branch is emitted
    /// before its own descendants; sibling order is the store's
    /// enumeration order.
    pub fn walk_tree_recursively(&self) -> (r: Result<
        Vec<BranchOrLeaf<JsonPath, JsonPath>>,
        S::Error,
    >)
        ensures
            match r {
                Ok(items) => self.store.list_ok(&self.address) && Seq::new(
                    items@.len(),
                    |i: int| items@[i]@,
                ) =~= walk_node(
                    get_path_spec(self.store.tree_model(), self.address@)->Ok_0->Some_0,
                    self.address@,
                    self.store.visible_fn(),
                ),
                Err(e) => !self.store.list_ok(&self.address) && self.store.list_err(
                    &self.address,
                    &e,
                ),
            },
    {
        let mut out: Vec<BranchOrLeaf<JsonPath, JsonPath>> = Vec::new();
        proof {
            assert(Seq::new(out@.len(), |i: int| out@[i]@) =~= Seq::<
                BranchOrLeaf<Seq<PathPartV>, Seq<PathPartV>>,
            >::empty());
        }
        match walk_rec(&self.store, &self.address, &mut out) {
            Ok(()) => Ok(out),
            Err(e) => Err(e),
        }
    }
}

impl WalkableTree for JsonValueStore {
    open spec fn tree_model(&self) -> JsonValueV {
        self@
    }

    open spec fn visible_fn(&self) -> spec_fn(Seq<PathPartV>) -> bool {
        |a: Seq<PathPartV>| true
    }

    proof fn tree_contract(&self, addr: &JsonPath) {
        if self.list_ok(addr) {
            let v = get_path_spec(self.tree_model(), addr@)->Ok_0->Some_0;
            lemma_filter_all(children_pairs(v, addr@), addr_pair_pred(self.visible_fn()));
        }
    }
}

impl<S: WalkableTree, F: AddressPredicate<JsonPath>> WalkableTree for FilterAddressesWrapperStore<
    S,
    F,
> {
    open spec fn tree_model(&self) -> JsonValueV {
        self.underlying.tree_model()
    }

    open spec fn visible_fn(&self) -> spec_fn(Seq<PathPartV>) -> bool {
        |a: Seq<PathPartV>|
            {
                let inner = self.underlying.visible_fn();
                inner(a) && self.filter.accept_view(a)
            }
    }

    proof fn tree_contract(&self, addr: &JsonPath) {
        self.underlying.tree_contract(addr);
        if self.list_ok(addr) {
            let v = get_path_spec(self.tree_model(), addr@)->Ok_0->Some_0;
            lemma_filter_compose(
                children_pairs(v, addr@),
                addr_pair_pred(self.underlying.visible_fn()),
                pair_pred::<PathPartV, JsonPath, F>(self.filter),
                addr_pair_pred(self.visible_fn()),
            );
        }
    }
}

/// The address an emitted walk item points at.
pub open spec fn walk_item_addr(item: BranchOrLeaf<Seq<PathPartV>, Seq<PathPartV>>) -> Seq<
    PathPartV,
> {
    match item {
        BranchOrLeaf::Branch(a) => a,
        BranchOrLeaf::Leaf(a) => a,
    }
}

/// Whether `a` strictly extends `base`, i.e. addresses something inside
/// the subtree below `base`.
pub open spec fn is_strict_ext(base: Seq<PathPartV>, a: Seq<PathPartV>) -> bool {
    a.len() > base.len() && a.take(base.len() as int) == base
}

proof fn lemma_filter_distinct_parts(
    s: Seq<(PathPartV, Seq<PathPartV>)>,
    p: spec_fn((PathPartV, Seq<PathPartV>)) -> bool,
)
    requires
        forall|m1: int, m2: int|
            0 <= m1 < m2 < s.len() ==> (#[trigger] s[m1]).0 != (#[trigger] s[m2]).0,
    ensures
        forall|m1: int, m2: int|
            0 <= m1 < m2 < s.filter(p).len() ==> (#[trigger] s.filter(p)[m1]).0 != (
            #[trigger] s.filter(p)[m2]).0,
    decreases s.len(),
{
    reveal(Seq::filter);
    if s.len() > 0 {
        let sd = s.drop_last();
        assert(forall|m1: int, m2: int|
            0 <= m1 < m2 < sd.len() ==> (#[trigger] sd[m1]).0 != (#[trigger] sd[m2]).0);
        lemma_filter_distinct_parts(sd, p);
        lemma_filter_is_subset(sd, p);
        let f = s.filter(p);
        let fd = sd.filter(p);
        if p(s.last()) {
            assert(f == fd.push(s.last()));
            assert forall|m1: int, m2: int|
                0 <= m1 < m2 < f.len() implies (#[trigger] f[m1]).0 != (#[trigger] f[m2]).0 by {
                if m2 < f.len() - 1 {
                    assert(f[m1] == fd[m1] && f[m2] == fd[m2]);
                } else {
                    assert(f[m1] == fd[m1]);
                    assert(f[m2] == s.last());
                    assert(sd.contains(fd[m1]));
                    let j = choose|j: int| 0 <= j < sd.len() && sd[j] == fd[m1];
                    assert(s[j] == fd[m1]);
                    assert(s[j].0 != s[s.len() - 1].0);
                }
            }
        } else {
            assert(f == fd);
        }
    }
}

/// Where the items of a pair walk point: strictly inside the subtree below
/// `addr`, each starting with the part of one of the listed pairs -- and in
/// pre-order, so no item is preceded by one that addresses something
/// strictly inside the later item's subtree.
proof fn lemma_walk_pairs_preorder(
    v: JsonValueV,
    addr: Seq<PathPartV>,
    pairs: Seq<(PathPartV, Seq<PathPartV>)>,
    p: spec_fn(Seq<PathPartV>) -> bool,
)
    requires
        wf(v),
        forall|m: int|
            0 <= m < pairs.len() ==> is_child_part(v, (#[trigger] pairs[m]).0) && pairs[m].1
                == addr.push(pairs[m].0),
        forall|m1: int, m2: int|
            0 <= m1 < m2 < pairs.len() ==> (#[trigger] pairs[m1]).0 != (#[trigger] pairs[m2]).0,
    ensures
        ({
            let items = walk_pairs(v, pairs, p);
            &&& forall|i: int|
                0 <= i < items.len() ==> is_strict_ext(
                    addr,
                    walk_item_addr(#[trigger] items[i]),
                ) && exists|m: int|
                    0 <= m < pairs.len() && walk_item_addr(items[i])[addr.len() as int] == (
                    #[trigger] pairs[m]).0
            &&& forall|i: int, j: int|
                0 <= i < j < items.len() ==> !is_strict_ext(
                    walk_item_addr(#[trigger] items[j]),
                    walk_item_addr(#[trigger] items[i]),
                )
        }),
    decreases v, pairs.len(),
{
    if pairs.len() == 0 {
    } else {
        let part = pairs[0].0;
        let caddr = pairs[0].1;
        let c = entry_child(v, part);
        let items = walk_pairs(v, pairs, p);
        let rest_pairs = pairs.drop_first();
        assert(forall|m: int|
            0 <= m < rest_pairs.len() ==> rest_pairs[m] == pairs[m + 1]);
        lemma_child_decreases(v, part);
        // the child of a well-formed tree is well-formed
        match part {
            PathPartV::Key(k) => {
                lemma_obj_key_index(v->Object_0, k);
            },
            PathPartV::Index(_) => {},
        }
        assert(wf(c));
        let seg = if c is Array || c is Object {
            seq![BranchOrLeaf::Branch(caddr)] + walk_node(c, caddr, p)
        } else {
            seq![BranchOrLeaf::<Seq<PathPartV>, Seq<PathPartV>>::Leaf(caddr)]
        };
        let rest = walk_pairs(v, rest_pairs, p);
        assert(items == seg + rest);
        if c is Array || c is Object {
            lemma_walk_node_preorder(c, caddr, p);
        }
        lemma_walk_pairs_preorder(v, addr, rest_pairs, p);
        // every address in this segment starts with `part` after `addr`
        assert(caddr[addr.len() as int] == part);
        assert(caddr.take(addr.len() as int) =~= addr);
        assert forall|i: int| 0 <= i < seg.len() implies is_strict_ext(
            addr,
            walk_item_addr(#[trigger] seg[i]),
        ) && walk_item_addr(seg[i])[addr.len() as int] == part by {
            if i > 0 {
                let x = walk_item_addr(seg[i]);
                assert(is_strict_ext(caddr, x));
                assert(x.take(caddr.len() as int) == caddr);
                assert(x.take(addr.len() as int) =~= caddr.take(addr.len() as int));
                assert(x[addr.len() as int] == caddr[addr.len() as int]);
            }
        }
        // and every address in the rest starts with a later pair's part
        assert forall|i: int| 0 <= i < items.len() implies is_strict_ext(
            addr,
            walk_item_addr(#[trigger] items[i]),
        ) && exists|m: int|
            0 <= m < pairs.len() && walk_item_addr(items[i])[addr.len() as int] == (
            #[trigger] pairs[m]).0 by {
            if i < seg.len() {
                assert(items[i] == seg[i]);
                assert(walk_item_addr(items[i])[addr.len() as int] == pairs[0].0);
            } else {
                assert(items[i] == rest[i - seg.len()]);
                let m0 = choose|m: int|
                    0 <= m < rest_pairs.len() && walk_item_addr(rest[i - seg.len()])[addr.len() as int]
                        == (#[trigger] rest_pairs[m]).0;
                assert(walk_item_addr(items[i])[addr.len() as int] == pairs[m0 + 1].0);
            }
        }
        // pre-order: no later item addresses an ancestor of an earlier one
        assert forall|i: int, j: int| 0 <= i < j < items.len() implies !is_strict_ext(
            walk_item_addr(#[trigger] items[j]),
            walk_item_addr(#[trigger] items[i]),
        ) by {
            let xi = walk_item_addr(items[i]);
            let xj = walk_item_addr(items[j]);
            if j < seg.len() {
                // both inside this child's segment
                assert(items[i] == seg[i] && items[j] == seg[j]);
                if i == 0 {
                    // the branch item itself cannot strictly extend a
                    // longer descendant address
                    assert(is_strict_ext(caddr, xj));
                    assert(!is_strict_ext(xj, xi));
                } else {
                    assert(seg[i] == walk_node(c, caddr, p)[i - 1]);
                    assert(seg[j] == walk_node(c, caddr, p)[j - 1]);
                }
            } else if i >= seg.len() {
                // both in later segments
                assert(items[i] == rest[i - seg.len()] && items[j] == rest[j - seg.len()]);
            } else {
                // `i` in this segment, `j` in a later one: their head
                // parts differ, so neither subtree contains the other
                assert(items[i] == seg[i]);
                assert(items[j] == rest[j - seg.len()]);
                assert(xi[addr.len() as int] == part);
                let m0 = choose|m: int|
                    0 <= m < rest_pairs.len() && walk_item_addr(rest[j - seg.len()])[addr.len() as int]
                        == (#[trigger] rest_pairs[m]).0;
                assert(xj[addr.len() as int] == pairs[m0 + 1].0);
                assert(pairs[m0 + 1].0 != part);
                if is_strict_ext(xj, xi) {
                    assert(xi.take(xj.len() as int) == xj);
                    assert(xj.len() > addr.len());
                    assert(xi.take(xj.len() as int)[addr.len() as int] == xi[addr.len() as int]);
                    assert(false);
                }
            }
        }
    }
}

/// The pre-order guarantee of the walk below one node: every emitted
/// address lies strictly inside the subtree below `addr`, and a branch is
/// always emitted before every item inside its own subtree -- no item is
/// preceded by an item of its subtree. Needs unique object keys, since a
/// repeated key would make two siblings share a subtree.
pub proof fn lemma_walk_node_preorder(
    v: JsonValueV,
    addr: Seq<PathPartV>,
    p: spec_fn(Seq<PathPartV>) -> bool,
)
    requires
        wf(v),
    ensures
        ({
            let items = walk_node(v, addr, p);
            &&& forall|i: int|
                0 <= i < items.len() ==> is_strict_ext(addr, walk_item_addr(#[trigger] items[i]))
            &&& forall|i: int, j: int|
                0 <= i < j < items.len() ==> !is_strict_ext(
                    walk_item_addr(#[trigger] items[j]),
                    walk_item_addr(#[trigger] items[i]),
                )
        }),
    decreases v, children_pairs(v, addr).len() + 1,
{
    let children = children_pairs(v, addr);
    let fpairs = children.filter(addr_pair_pred(p));
    children.lemma_filter_len(addr_pair_pred(p));
    lemma_children_pairs_valid(v, addr);
    lemma_filter_is_subset(children, addr_pair_pred(p));
    assert forall|m: int| 0 <= m < fpairs.len() implies is_child_part(
        v,
        (#[trigger] fpairs[m]).0,
    ) && fpairs[m].1 == addr.push(fpairs[m].0) by {
        assert(children.contains(fpairs[m]));
        let j = choose|j: int| 0 <= j < children.len() && children[j] == fpairs[m];
    }
    assert forall|m1: int, m2: int|
        0 <= m1 < m2 < children.len() implies (#[trigger] children[m1]).0 != (
        #[trigger] children[m2]).0 by {
        if v is Object {
            assert(children[m1].0 == PathPartV::Key(v->Object_0[m1].0));
            assert(children[m2].0 == PathPartV::Key(v->Object_0[m2].0));
        }
    }
    lemma_filter_distinct_parts(children, addr_pair_pred(p));
    lemma_walk_pairs_preorder(v, addr, fpairs, p);
    assert(walk_node(v, addr, p) == walk_pairs(v, fpairs, p));
    let items = walk_pairs(v, fpairs, p);
    assert(forall|i: int|
        0 <= i < items.len() ==> is_strict_ext(addr, walk_item_addr(#[trigger] items[i])));
    assert(forall|i: int, j: int|
        0 <= i < j < items.len() ==> !is_strict_ext(
            walk_item_addr(#[trigger] items[j]),
            walk_item_addr(#[trigger] items[i]),
        ));
}

} // verus!
