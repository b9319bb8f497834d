//! GPU slots: how the pool is made from resolved render nodes, and how a slot is found.

use vstd::prelude::*;

verus! {

/// A GPU slot in the pool.
pub struct GpuEntry {
    /// Path of the DRM render node (e.g. `/dev/dri/renderD128`), as raw bytes.
    pub node: Vec<u8>,
    /// Whether a session currently owns this GPU (reserved or active).
    pub busy: bool,
}

/// What a [`GpuEntry`] holds.
pub struct GpuView {
    pub node: Seq<u8>,
    pub busy: bool,
}

impl View for GpuEntry {
    type V = GpuView;

    open spec fn view(&self) -> GpuView {
        GpuView { node: self.node@, busy: self.busy }
    }
}

/// The contents of a list of slots.
pub open spec fn slots(gpus: Seq<GpuEntry>) -> Seq<GpuView> {
    gpus.map_values(|g: GpuEntry| g@)
}

/// A render node that a selector was resolved to.
pub struct ResolvedNode {
    /// Path of the node, as raw bytes.
    pub node: Vec<u8>,
    /// Canonical form of that path. Two nodes are the same GPU exactly where these are equal.
    pub canonical: Vec<u8>,
}

/// What a [`ResolvedNode`] holds.
pub struct NodeView {
    pub node: Seq<u8>,
    pub canonical: Seq<u8>,
}

impl View for ResolvedNode {
    type V = NodeView;

    open spec fn view(&self) -> NodeView {
        NodeView { node: self.node@, canonical: self.canonical@ }
    }
}

/// Where an application's GPU selector leads, looked up at launch.
pub struct NodeLookup {
    /// Canonical path of the node that the selector names; `None` where it could not be resolved.
    pub want: Option<Vec<u8>>,
    /// Canonical path of each slot's node, in pool order.
    pub nodes: Vec<Vec<u8>>,
}

/// What a [`NodeLookup`] holds.
pub struct LookupView {
    pub want: Option<Seq<u8>>,
    pub nodes: Seq<Seq<u8>>,
}

/// The contents of a list of paths.
pub open spec fn paths(list: Seq<Vec<u8>>) -> Seq<Seq<u8>> {
    list.map_values(|p: Vec<u8>| p@)
}

impl View for NodeLookup {
    type V = LookupView;

    open spec fn view(&self) -> LookupView {
        LookupView {
            want: match self.want {
                Some(p) => Some(p@),
                None => None,
            },
            nodes: paths(self.nodes@),
        }
    }
}

/// The contents of an optional lookup.
pub open spec fn lookup_view(app_gpu: Option<NodeLookup>) -> Option<LookupView> {
    match app_gpu {
        Some(l) => Some(l@),
        None => None,
    }
}

/// Whether the lookup, if there is one, has a canonical path for each slot of a pool.
pub open spec fn covers(app_gpu: Option<LookupView>, gpus: Seq<GpuView>) -> bool {
    gpus.len() > 0 ==> (app_gpu matches Some(lookup) ==> lookup.nodes.len() == gpus.len())
}

/// Compares two paths byte by byte.
pub fn same_path(a: &Vec<u8>, b: &Vec<u8>) -> (r: bool)
    ensures
        r == (a@ == b@),
{
    let r = *a == *b;
    proof {
        if r {
            assert(a@ =~= b@);
        }
    }
    r
}

/// Copies a path.
pub fn copy_path(p: &Vec<u8>) -> (r: Vec<u8>)
    ensures
        r@ == p@,
{
    let r = p.clone();
    assert(r@ =~= p@);
    r
}

/// The first position at which `want` stands in `list`.
pub fn position(list: &Vec<Vec<u8>>, want: &Vec<u8>) -> (r: Option<usize>)
    ensures
        match r {
            Some(i) => paths(list@).index_of_first(want@) == Some(i as int) && i < list@.len(),
            None => paths(list@).index_of_first(want@) is None,
        },
{
    let mut i: usize = 0;
    while i < list.len()
        invariant
            i <= list@.len(),
            forall|j: int| 0 <= j < i ==> (#[trigger] list@[j])@ != want@,
        decreases list@.len() - i,
    {
        if same_path(&list[i], want) {
            proof {
                lemma_first_index(paths(list@), want@, i as int);
            }
            return Some(i);
        }
        i += 1;
    }
    proof {
        paths(list@).index_of_first_ensures(want@);
        if paths(list@).contains(want@) {
            let k = paths(list@).index_of(want@);
            assert(list@[k]@ == want@);
        }
    }
    None
}

/// An index that holds `needle` and has no such index before it is the first one.
pub proof fn lemma_first_index<A>(s: Seq<A>, needle: A, i: int)
    requires
        0 <= i < s.len(),
        s[i] == needle,
        forall|j: int| 0 <= j < i ==> s[j] != needle,
    ensures
        s.index_of_first(needle) == Some(i),
{
    s.index_of_first_ensures(needle);
    assert(s.contains(needle));
}

/// The busy flags of the slots.
pub open spec fn busy_flags(gpus: Seq<GpuView>) -> Seq<bool> {
    gpus.map_values(|g: GpuView| g.busy)
}

/// The first slot that no session owns.
pub fn first_free(gpus: &Vec<GpuEntry>) -> (r: Option<usize>)
    ensures
        match r {
            Some(i) => busy_flags(slots(gpus@)).index_of_first(false) == Some(i as int) && i
                < gpus@.len(),
            None => busy_flags(slots(gpus@)).index_of_first(false) is None,
        },
{
    let ghost flags = busy_flags(slots(gpus@));
    let mut i: usize = 0;
    while i < gpus.len()
        invariant
            i <= gpus@.len(),
            flags == busy_flags(slots(gpus@)),
            forall|j: int| 0 <= j < i ==> (#[trigger] gpus@[j]).busy,
        decreases gpus@.len() - i,
    {
        if !gpus[i].busy {
            proof {
                lemma_first_index(flags, false, i as int);
            }
            return Some(i);
        }
        i += 1;
    }
    proof {
        flags.index_of_first_ensures(false);
        if flags.contains(false) {
            let k = flags.index_of(false);
            assert(!gpus@[k].busy);
        }
    }
    None
}

/// Whether `canonical` is the canonical path of one of `nodes`.
pub open spec fn names_one_of(nodes: Seq<NodeView>, canonical: Seq<u8>) -> bool {
    exists|j: int| 0 <= j < nodes.len() && (#[trigger] nodes[j]).canonical == canonical
}

/// The nodes that form the pool: each but those that name a GPU that is in it already.
pub open spec fn distinct(nodes: Seq<NodeView>) -> Seq<NodeView>
    decreases nodes.len(),
{
    if nodes.len() == 0 {
        nodes
    } else {
        let kept = distinct(nodes.drop_last());
        if names_one_of(kept, nodes.last().canonical) {
            kept
        } else {
            kept.push(nodes.last())
        }
    }
}

/// A pool has at most as many slots as nodes that it is made from, and at least one slot
/// where there is a node.
pub proof fn lemma_distinct_len(nodes: Seq<NodeView>)
    ensures
        distinct(nodes).len() <= nodes.len(),
        distinct(nodes).len() == 0 <==> nodes.len() == 0,
    decreases nodes.len(),
{
    if nodes.len() > 0 {
        lemma_distinct_len(nodes.drop_last());
    }
}

/// Each slot of a pool has hardware of its own: no two are the same GPU.
pub proof fn law_slots_are_distinct(nodes: Seq<NodeView>, i: int, j: int)
    requires
        0 <= i < j < distinct(nodes).len(),
    ensures
        distinct(nodes)[i].canonical != distinct(nodes)[j].canonical,
    decreases nodes.len(),
{
    let kept = distinct(nodes.drop_last());
    if j < kept.len() {
        law_slots_are_distinct(nodes.drop_last(), i, j);
    } else {
        assert(kept[i].canonical != nodes.last().canonical);
    }
}

/// Every GPU that was named has a slot.
pub proof fn law_every_node_has_a_slot(nodes: Seq<NodeView>, i: int)
    requires
        0 <= i < nodes.len(),
    ensures
        names_one_of(distinct(nodes), nodes[i].canonical),
    decreases nodes.len(),
{
    let kept = distinct(nodes.drop_last());
    if i < nodes.len() - 1 {
        law_every_node_has_a_slot(nodes.drop_last(), i);
        let j = choose|j: int|
            0 <= j < kept.len() && (#[trigger] kept[j]).canonical == nodes[i].canonical;
        assert(distinct(nodes)[j].canonical == nodes[i].canonical);
    } else if !names_one_of(kept, nodes[i].canonical) {
        assert(distinct(nodes)[kept.len() as int].canonical == nodes[i].canonical);
    }
}

/// Every slot is the first mention of its GPU.
pub proof fn law_slot_is_first_mention(nodes: Seq<NodeView>, k: int) -> (i: int)
    requires
        0 <= k < distinct(nodes).len(),
    ensures
        0 <= i < nodes.len(),
        distinct(nodes)[k] == nodes[i],
        forall|j: int| 0 <= j < i ==> (#[trigger] nodes[j]).canonical != nodes[i].canonical,
    decreases nodes.len(),
{
    let kept = distinct(nodes.drop_last());
    if k < kept.len() {
        let i = law_slot_is_first_mention(nodes.drop_last(), k);
        assert forall|j: int| 0 <= j < i implies (#[trigger] nodes[j]).canonical
            != nodes[i].canonical by {
            assert(nodes.drop_last()[j] == nodes[j]);
        }
        i
    } else {
        let i = nodes.len() - 1;
        assert forall|j: int| 0 <= j < i implies (#[trigger] nodes[j]).canonical
            != nodes[i].canonical by {
            law_every_node_has_a_slot(nodes.drop_last(), j);
        }
        i
    }
}

/// The nodes that a list of resolutions came to.
pub open spec fn found(resolved: Seq<Option<ResolvedNode>>) -> Seq<NodeView> {
    resolved.map_values(|r: Option<ResolvedNode>| r->0@)
}

/// The slot of a node that no session owns yet.
pub open spec fn free_slots(nodes: Seq<NodeView>) -> Seq<GpuView> {
    nodes.map_values(|n: NodeView| GpuView { node: n.node, busy: false })
}

/// Makes the slots of a pool, one for each distinct GPU, in the order of their first
/// mention. Fails where some selector could not be resolved.
pub fn build_slots(resolved: &Vec<Option<ResolvedNode>>) -> (r: Result<Vec<GpuEntry>, ()>)
    ensures
        match r {
            Ok(gpus) => {
                &&& forall|i: int| 0 <= i < resolved@.len() ==> (#[trigger] resolved@[i]) is Some
                &&& slots(gpus@) == free_slots(distinct(found(resolved@)))
            },
            Err(_) => exists|i: int| 0 <= i < resolved@.len() && (#[trigger] resolved@[i]) is None,
        },
{
    let mut gpus: Vec<GpuEntry> = Vec::new();
    let mut keys: Vec<Vec<u8>> = Vec::new();
    let ghost nodes = found(resolved@);
    let mut i: usize = 0;
    proof {
        assert(slots(gpus@) =~= free_slots(distinct(nodes.take(0))));
        assert(paths(keys@) =~= distinct(nodes.take(0)).map_values(|n: NodeView| n.canonical));
    }
    while i < resolved.len()
        invariant
            i <= resolved@.len(),
            nodes == found(resolved@),
            forall|j: int| 0 <= j < i ==> (#[trigger] resolved@[j]) is Some,
            slots(gpus@) == free_slots(distinct(nodes.take(i as int))),
            paths(keys@) == distinct(nodes.take(i as int)).map_values(|n: NodeView| n.canonical),
        decreases resolved@.len() - i,
    {
        match &resolved[i] {
            None => {
                assert(resolved@[i as int] is None);
                return Err(());
            },
            Some(node) => {
                let ghost kept = distinct(nodes.take(i as int));
                let ghost canonical = node.canonical@;
                proof {
                    assert(nodes.take(i + 1).drop_last() =~= nodes.take(i as int));
                    assert(nodes.take(i + 1).last() == node@);
                }
                match position(&keys, &node.canonical) {
                    Some(k) => {
                        proof {
                            paths(keys@).index_of_first_ensures(canonical);
                            assert(kept[k as int].canonical == canonical);
                        }
                    },
                    None => {
                        proof {
                            paths(keys@).index_of_first_ensures(canonical);
                            if names_one_of(kept, canonical) {
                                let j = choose|j: int|
                                    0 <= j < kept.len() && (#[trigger] kept[j]).canonical
                                        == canonical;
                                assert(paths(keys@)[j] == canonical);
                            }
                        }
                        let ghost slots_before = slots(gpus@);
                        let ghost keys_before = paths(keys@);
                        gpus.push(GpuEntry { node: copy_path(&node.node), busy: false });
                        keys.push(copy_path(&node.canonical));
                        proof {
                            let slot = GpuView { node: node.node@, busy: false };
                            assert(slots(gpus@) =~= slots_before.push(slot));
                            assert(slots_before.push(slot) =~= free_slots(kept.push(node@)));
                            assert(paths(keys@) =~= keys_before.push(canonical));
                            assert(keys_before.push(canonical) =~= kept.push(node@).map_values(
                                |n: NodeView| n.canonical,
                            ));
                        }
                    },
                }
            },
        }
        i += 1;
    }
    assert(nodes.take(i as int) =~= nodes);
    Ok(gpus)
}

/// A pool has one free slot for each GPU that was named, with the node by which it was named
/// first, in the order of these first mentions. `firsts` are their positions.
pub proof fn law_one_slot_per_gpu_in_order(resolved: Seq<Option<ResolvedNode>>) -> (firsts: Seq<int>)
    requires
        forall|i: int| 0 <= i < resolved.len() ==> (#[trigger] resolved[i]) is Some,
    ensures
        forall|k: int| 0 <= k < firsts.len() ==> 0 <= #[trigger] firsts[k] < resolved.len(),
        forall|k: int, l: int| 0 <= k < l < firsts.len() ==> firsts[k] < firsts[l],
        forall|i: int|
            0 <= i < resolved.len() ==> (#[trigger] firsts.contains(i) <==> forall|j: int|
                0 <= j < i ==> (#[trigger] resolved[j])->0.canonical@
                    != resolved[i]->0.canonical@),
        free_slots(distinct(found(resolved))).len() == firsts.len(),
        forall|k: int|
            0 <= k < firsts.len() ==> {
                let slot = #[trigger] free_slots(distinct(found(resolved)))[k];
                slot.node == resolved[firsts[k]]->0.node@ && !slot.busy
            },
{
    let nodes = found(resolved);
    let firsts = lemma_first_mentions(nodes);
    assert forall|i: int| 0 <= i < resolved.len() implies (#[trigger] firsts.contains(i)
        <==> forall|j: int|
        0 <= j < i ==> (#[trigger] resolved[j])->0.canonical@ != resolved[i]->0.canonical@) by {
        assert(nodes[i].canonical == resolved[i]->0.canonical@);
        assert(forall|j: int| 0 <= j < i ==> nodes[j].canonical == resolved[j]->0.canonical@);
        if forall|j: int| 0 <= j < i ==> (#[trigger] resolved[j])->0.canonical@
            != resolved[i]->0.canonical@ {
            assert(forall|j: int|
                0 <= j < i ==> (#[trigger] nodes[j]).canonical != nodes[i].canonical);
        }
        if firsts.contains(i) {
            assert forall|j: int| 0 <= j < i implies (#[trigger] resolved[j])->0.canonical@
                != resolved[i]->0.canonical@ by {
                assert(nodes[j].canonical != nodes[i].canonical);
            }
        }
    }
    firsts
}

/// The positions of first mentions, in order, and that the distinct nodes are those.
proof fn lemma_first_mentions(nodes: Seq<NodeView>) -> (firsts: Seq<int>)
    ensures
        forall|k: int| 0 <= k < firsts.len() ==> 0 <= #[trigger] firsts[k] < nodes.len(),
        forall|k: int, l: int| 0 <= k < l < firsts.len() ==> firsts[k] < firsts[l],
        forall|i: int|
            0 <= i < nodes.len() ==> (#[trigger] firsts.contains(i) <==> forall|j: int|
                0 <= j < i ==> (#[trigger] nodes[j]).canonical != nodes[i].canonical),
        distinct(nodes).len() == firsts.len(),
        forall|k: int| 0 <= k < firsts.len() ==> #[trigger] distinct(nodes)[k] == nodes[firsts[k]],
    decreases nodes.len(),
{
    if nodes.len() == 0 {
        Seq::empty()
    } else {
        let init = nodes.drop_last();
        let kept = distinct(init);
        let n = nodes.len() - 1;
        let before = lemma_first_mentions(init);
        assert forall|i: int| 0 <= i < n implies (#[trigger] before.contains(i) <==> forall|j: int|
            0 <= j < i ==> (#[trigger] nodes[j]).canonical != nodes[i].canonical) by {
            assert(init[i] == nodes[i]);
            assert(forall|j: int| 0 <= j < i ==> init[j] == nodes[j]);
            if before.contains(i) {
                assert forall|j: int| 0 <= j < i implies (#[trigger] nodes[j]).canonical
                    != nodes[i].canonical by {
                    assert(init[j].canonical != init[i].canonical);
                }
            }
            if forall|j: int| 0 <= j < i ==> (#[trigger] nodes[j]).canonical != nodes[i].canonical {
                assert forall|j: int| 0 <= j < i implies (#[trigger] init[j]).canonical
                    != init[i].canonical by {
                    assert(nodes[j].canonical != nodes[i].canonical);
                }
            }
        }
        if names_one_of(kept, nodes.last().canonical) {
            let k = choose|k: int|
                0 <= k < kept.len() && (#[trigger] kept[k]).canonical == nodes.last().canonical;
            assert(kept[k] == init[before[k]]);
            assert(nodes[before[k]].canonical == nodes[n].canonical);
            assert(!before.contains(n));
            before
        } else {
            let firsts = before.push(n);
            assert forall|j: int| 0 <= j < n implies (#[trigger] nodes[j]).canonical
                != nodes[n].canonical by {
                assert(init[j] == nodes[j]);
                law_every_node_has_a_slot(init, j);
            }
            assert(firsts[before.len() as int] == n);
            assert forall|i: int| 0 <= i < nodes.len() implies (#[trigger] firsts.contains(i)
                <==> forall|j: int|
                0 <= j < i ==> (#[trigger] nodes[j]).canonical != nodes[i].canonical) by {
                if i < n {
                    if before.contains(i) {
                        let k = before.index_of(i);
                        assert(firsts[k] == i);
                    }
                    if firsts.contains(i) {
                        let k = firsts.index_of(i);
                        assert(before[k] == i);
                    }
                }
            }
            firsts
        }
    }
}

/// A list of slots stands for the node and the state of each, in order.
pub proof fn law_slots_one_for_one(gpus: Seq<GpuEntry>)
    ensures
        slots(gpus).len() == gpus.len(),
        forall|i: int|
            0 <= i < gpus.len() ==> (#[trigger] slots(gpus)[i]).node == gpus[i].node@ && slots(
                gpus,
            )[i].busy == gpus[i].busy,
{
}

/// A lookup stands for the path that is wanted, where there is one, and for the path of
/// each slot, in order.
pub proof fn law_lookup_holds_its_fields(lookup: NodeLookup)
    ensures
        lookup_view(None) is None,
        lookup_view(Some(lookup)) == Some(lookup@),
        lookup@.want is Some <==> lookup.want is Some,
        lookup.want matches Some(want) ==> lookup@.want == Some(want@),
        lookup@.nodes.len() == lookup.nodes@.len(),
        forall|i: int|
            0 <= i < lookup.nodes@.len() ==> #[trigger] lookup@.nodes[i] == lookup.nodes@[i]@,
{
}

} // verus!
