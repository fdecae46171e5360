//! The mathematical model of the folder tree: each node seen as a value whose
//! children are a sequence, and the operations on it that the saved tree
//! follows.

use vstd::prelude::*;
use vstd::multiset::Multiset;
use crate::config::{ConfigNode, HostProfile};

verus! {

/// A node of the tree as a value.
#[verifier::ext_equal]
pub enum NodeView {
    Folder {
        id: Seq<char>,
        name: Seq<char>,
        icon: Option<Seq<char>>,
        color: Option<Seq<char>>,
        children: Seq<NodeView>,
    },
    Host(HostProfile),
}

/// The text of an optional `String`.
pub open spec fn text_opt(o: Option<String>) -> Option<Seq<char>> {
    match o {
        Some(s) => Some(s@),
        None => None,
    }
}

/// A node as a value.
pub open spec fn node_view(n: ConfigNode) -> NodeView
    decreases n,
{
    match n {
        ConfigNode::Folder { id, name, icon, color, children } => NodeView::Folder {
            id: id@,
            name: name@,
            icon: text_opt(icon),
            color: text_opt(color),
            children: forest_view(children@),
        },
        ConfigNode::Host(h) => NodeView::Host(h),
    }
}

/// A forest as a sequence of values.
pub open spec fn forest_view(nodes: Seq<ConfigNode>) -> Seq<NodeView>
    decreases nodes,
{
    if nodes.len() == 0 {
        seq![]
    } else {
        seq![node_view(nodes[0])] + forest_view(nodes.drop_first())
    }
}

/// `forest_view` maps each node to its value.
pub proof fn lemma_forest_view(nodes: Seq<ConfigNode>)
    ensures
        forest_view(nodes).len() == nodes.len(),
        forall|i: int| 0 <= i < nodes.len() ==> #[trigger] forest_view(nodes)[i] == node_view(nodes[i]),
    decreases nodes.len(),
{
    if nodes.len() > 0 {
        lemma_forest_view(nodes.drop_first());
        assert forall|i: int| 0 <= i < nodes.len() implies #[trigger] forest_view(nodes)[i] == node_view(nodes[i]) by {
            if i > 0 {
                assert(forest_view(nodes)[i] == forest_view(nodes.drop_first())[i - 1]);
            }
        }
    }
}

/// Two forests whose nodes have the same values have the same value.
pub proof fn lemma_forest_view_ext(a: Seq<ConfigNode>, b: Seq<NodeView>)
    requires
        a.len() == b.len(),
        forall|i: int| 0 <= i < a.len() ==> #[trigger] node_view(a[i]) == b[i],
    ensures
        forest_view(a) == b,
{
    lemma_forest_view(a);
    assert(forest_view(a) =~~= b);
}

/// The id of a node.
pub open spec fn view_id(n: NodeView) -> Seq<char> {
    match n {
        NodeView::Folder { id, .. } => id,
        NodeView::Host(h) => h.id@,
    }
}

/// The hosts of a forest in tree order: each node in turn, a folder's hosts
/// (recursively) where the folder stands.
pub open spec fn hosts(ns: Seq<NodeView>) -> Seq<HostProfile>
    decreases ns,
{
    if ns.len() == 0 {
        seq![]
    } else {
        node_hosts(ns[0]) + hosts(ns.drop_first())
    }
}

/// The hosts of a node in tree order.
pub open spec fn node_hosts(n: NodeView) -> Seq<HostProfile>
    decreases n,
{
    match n {
        NodeView::Host(h) => seq![h],
        NodeView::Folder { children, .. } => hosts(children),
    }
}

/// The hosts of a forest in tree order, each with the names of the folders
/// above it (outermost first), below the folders `path`.
pub open spec fn hosts_with_paths(ns: Seq<NodeView>, path: Seq<Seq<char>>) -> Seq<(HostProfile, Seq<Seq<char>>)>
    decreases ns,
{
    if ns.len() == 0 {
        seq![]
    } else {
        node_hosts_with_paths(ns[0], path) + hosts_with_paths(ns.drop_first(), path)
    }
}

/// The hosts of a node with their folder paths, below the folders `path`.
pub open spec fn node_hosts_with_paths(n: NodeView, path: Seq<Seq<char>>) -> Seq<(HostProfile, Seq<Seq<char>>)>
    decreases n,
{
    match n {
        NodeView::Host(h) => seq![(h, path)],
        NodeView::Folder { name, children, .. } => hosts_with_paths(children, path.push(name)),
    }
}

/// The first host of `hs` whose id is `id`.
pub open spec fn first_host_with(hs: Seq<HostProfile>, id: Seq<char>) -> Option<HostProfile>
    decreases hs.len(),
{
    if hs.len() == 0 {
        None
    } else if hs[0].id@ == id {
        Some(hs[0])
    } else {
        first_host_with(hs.drop_first(), id)
    }
}

/// Some host of `hs` has the id `id`.
pub open spec fn has_id(hs: Seq<HostProfile>, id: Seq<char>) -> bool {
    exists|k: int| 0 <= k < hs.len() && (#[trigger] hs[k]).id@ == id
}

pub proof fn lemma_first_host_with_append(a: Seq<HostProfile>, b: Seq<HostProfile>, id: Seq<char>)
    ensures
        first_host_with(a + b, id) == match first_host_with(a, id) {
            Some(h) => Some(h),
            None => first_host_with(b, id),
        },
    decreases a.len(),
{
    if a.len() > 0 {
        assert((a + b).drop_first() =~= a.drop_first() + b);
        lemma_first_host_with_append(a.drop_first(), b, id);
    } else {
        assert(a + b =~= b);
    }
}

/// The first host of `hs` named `name`.
pub open spec fn first_host_named(hs: Seq<HostProfile>, name: Seq<char>) -> Option<HostProfile>
    decreases hs.len(),
{
    if hs.len() == 0 {
        None
    } else if hs[0].name@ == name {
        Some(hs[0])
    } else {
        first_host_named(hs.drop_first(), name)
    }
}

/// `first_host_named` of a concatenation.
pub proof fn lemma_first_host_named_append(a: Seq<HostProfile>, b: Seq<HostProfile>, name: Seq<char>)
    ensures
        first_host_named(a + b, name) == match first_host_named(a, name) {
            Some(h) => Some(h),
            None => first_host_named(b, name),
        },
    decreases a.len(),
{
    if a.len() > 0 {
        assert((a + b).drop_first() =~= a.drop_first() + b);
        lemma_first_host_named_append(a.drop_first(), b, name);
    } else {
        assert(a + b =~= b);
    }
}

/// `s.skip(i)` is its first element followed by `s.skip(i + 1)`.
pub proof fn lemma_skip_unfold<A>(s: Seq<A>, i: int)
    requires
        0 <= i < s.len(),
    ensures
        s.skip(i).len() > 0,
        s.skip(i)[0] == s[i],
        s.skip(i).drop_first() == s.skip(i + 1),
{
    assert(s.skip(i).drop_first() =~= s.skip(i + 1));
}

/// `hosts` of a concatenation.
pub proof fn lemma_hosts_append(a: Seq<NodeView>, b: Seq<NodeView>)
    ensures
        hosts(a + b) == hosts(a) + hosts(b),
    decreases a.len(),
{
    if a.len() == 0 {
        assert(a + b =~= b);
        assert(hosts(a) + hosts(b) =~= hosts(b));
    } else {
        assert((a + b).drop_first() =~= a.drop_first() + b);
        lemma_hosts_append(a.drop_first(), b);
        assert(hosts(a + b) =~= hosts(a) + hosts(b));
    }
}

/// `hosts` of a single node.
pub proof fn lemma_hosts_single(n: NodeView)
    ensures
        hosts(seq![n]) == node_hosts(n),
{
    assert(seq![n].drop_first() =~= Seq::<NodeView>::empty());
    assert(hosts(Seq::<NodeView>::empty()) =~= Seq::<HostProfile>::empty());
    assert(seq![n][0] == n);
    assert(hosts(seq![n]) =~= node_hosts(n) + hosts(Seq::<NodeView>::empty()));
    assert(hosts(seq![n]) =~= node_hosts(n));
}

/// `hosts` splits at any position.
pub proof fn lemma_hosts_split(ns: Seq<NodeView>, i: int)
    requires
        0 <= i <= ns.len(),
    ensures
        hosts(ns) == hosts(ns.take(i)) + hosts(ns.skip(i)),
{
    assert(ns =~= ns.take(i) + ns.skip(i));
    lemma_hosts_append(ns.take(i), ns.skip(i));
}

/// The first index from `j` on of a host (of this level) whose id is `id`.
pub open spec fn host_pos_from(ns: Seq<NodeView>, id: Seq<char>, j: int) -> Option<int>
    decreases ns.len() - j,
{
    if j < 0 || j >= ns.len() {
        None
    } else if ns[j] matches NodeView::Host(h) && h.id@ == id {
        Some(j)
    } else {
        host_pos_from(ns, id, j + 1)
    }
}

/// The forest without its host `id`, and that host.  A host of this level
/// is taken first (the first such); otherwise the first folder, in order,
/// that yields one gives it up.
pub open spec fn removed_host(ns: Seq<NodeView>, id: Seq<char>) -> Option<(Seq<NodeView>, HostProfile)>
    decreases ns, ns.len() + 1,
{
    match host_pos_from(ns, id, 0) {
        Some(p) => match ns[p] {
            NodeView::Host(h) => Some((ns.remove(p), h)),
            NodeView::Folder { .. } => None,
        },
        None => removed_in_folders(ns, id, 0),
    }
}

/// `removed_host` looking into the folders from index `j` on.
pub open spec fn removed_in_folders(ns: Seq<NodeView>, id: Seq<char>, j: int) -> Option<(Seq<NodeView>, HostProfile)>
    decreases ns, ns.len() - j,
{
    if j < 0 || j >= ns.len() {
        None
    } else {
        match ns[j] {
            NodeView::Folder { id: fid, name, icon, color, children } => match removed_host(children, id) {
                Some((c2, h)) => Some((ns.update(j, NodeView::Folder { id: fid, name, icon, color, children: c2 }), h)),
                None => removed_in_folders(ns, id, j + 1),
            },
            NodeView::Host(_) => removed_in_folders(ns, id, j + 1),
        }
    }
}

/// The forest with its host `id` replaced by `h`, in the same place: the
/// host that `removed_host` would take (a host of this level first, else
/// the first folder, in order, that holds one).
pub open spec fn replaced_host(ns: Seq<NodeView>, id: Seq<char>, h: HostProfile) -> Option<Seq<NodeView>>
    decreases ns, ns.len() + 1,
{
    match host_pos_from(ns, id, 0) {
        Some(p) => Some(ns.update(p, NodeView::Host(h))),
        None => replaced_in_folders(ns, id, h, 0),
    }
}

/// `replaced_host` looking into the folders from index `j` on.
pub open spec fn replaced_in_folders(ns: Seq<NodeView>, id: Seq<char>, h: HostProfile, j: int) -> Option<Seq<NodeView>>
    decreases ns, ns.len() - j,
{
    if j < 0 || j >= ns.len() {
        None
    } else {
        match ns[j] {
            NodeView::Folder { id: fid, name, icon, color, children } => match replaced_host(children, id, h) {
                Some(c2) => Some(ns.update(j, NodeView::Folder { id: fid, name, icon, color, children: c2 })),
                None => replaced_in_folders(ns, id, h, j + 1),
            },
            NodeView::Host(_) => replaced_in_folders(ns, id, h, j + 1),
        }
    }
}

pub proof fn lemma_host_pos_from(ns: Seq<NodeView>, id: Seq<char>, j: int)
    ensures
        host_pos_from(ns, id, j) matches Some(p) ==> (j <= p < ns.len() && (ns[p] matches NodeView::Host(h) && h.id@ == id)),
    decreases ns.len() - j,
{
    if 0 <= j < ns.len() {
        lemma_host_pos_from(ns, id, j + 1);
    }
}

/// The texts of a sequence of `String`s.
pub open spec fn texts(p: Seq<String>) -> Seq<Seq<char>> {
    p.map_values(|s: String| s@)
}

/// Where a host is inserted into `len` children: at `index`, or at the end
/// when none is given or it lies past the end.
pub open spec fn insert_index(index: Option<usize>, len: nat) -> int {
    match index {
        Some(i) => if i < len { i as int } else { len as int },
        None => len as int,
    }
}

/// The first index from `j` on of a node whose id is `id`.
pub open spec fn id_pos_from(ns: Seq<NodeView>, id: Seq<char>, j: int) -> Option<int>
    decreases ns.len() - j,
{
    if j < 0 || j >= ns.len() {
        None
    } else if view_id(ns[j]) == id {
        Some(j)
    } else {
        id_pos_from(ns, id, j + 1)
    }
}

pub proof fn lemma_id_pos_from(ns: Seq<NodeView>, id: Seq<char>, j: int)
    ensures
        id_pos_from(ns, id, j) matches Some(p) ==> (j <= p < ns.len() && view_id(ns[p]) == id),
    decreases ns.len() - j,
{
    if 0 <= j < ns.len() {
        lemma_id_pos_from(ns, id, j + 1);
    }
}

/// Reordering `ns` by `ids`, as (moved to the front, left over): for each
/// id in turn, the first node left with that id moves to the end of the
/// front part.
pub open spec fn reorder_split(ns: Seq<NodeView>, ids: Seq<Seq<char>>) -> (Seq<NodeView>, Seq<NodeView>)
    decreases ids.len(),
{
    if ids.len() == 0 {
        (seq![], ns)
    } else {
        let (front, rest) = reorder_split(ns, ids.drop_last());
        match id_pos_from(rest, ids.last(), 0) {
            Some(p) => (front.push(rest[p]), rest.remove(p)),
            None => (front, rest),
        }
    }
}

/// `ns` reordered by `ids`: the nodes named by `ids` in that order, then the
/// others in their old order.
pub open spec fn reordered(ns: Seq<NodeView>, ids: Seq<Seq<char>>) -> Seq<NodeView> {
    reorder_split(ns, ids).0 + reorder_split(ns, ids).1
}

/// A change made to one folder, as a value.
pub enum EditView {
    Rename { name: Seq<char>, icon: Option<Seq<char>>, color: Option<Seq<char>> },
    InsertHost { host: HostProfile, index: Option<usize> },
    Reorder { ids: Seq<Seq<char>> },
}

/// A folder after `e` (a host is left as it is).
pub open spec fn edit_node(n: NodeView, e: EditView) -> NodeView {
    match n {
        NodeView::Folder { id, name, icon, color, children } => match e {
            EditView::Rename { name: new_name, icon: new_icon, color: new_color } => NodeView::Folder {
                id,
                name: new_name,
                icon: new_icon,
                color: new_color,
                children,
            },
            EditView::InsertHost { host, index } => NodeView::Folder {
                id,
                name,
                icon,
                color,
                children: children.insert(insert_index(index, children.len()), NodeView::Host(host)),
            },
            EditView::Reorder { ids } => NodeView::Folder {
                id,
                name,
                icon,
                color,
                children: reordered(children, ids),
            },
        },
        NodeView::Host(_) => n,
    }
}

/// The forest with `e` applied to its first folder, in tree order, whose id
/// is `fid` (each folder before its children, children before the next
/// sibling); `None` when there is no such folder.
pub open spec fn edited_tree(ns: Seq<NodeView>, fid: Seq<char>, e: EditView) -> Option<Seq<NodeView>>
    decreases ns, ns.len() + 1,
{
    edited_from(ns, fid, e, 0)
}

/// `edited_tree` looking at the nodes from index `j` on.
pub open spec fn edited_from(ns: Seq<NodeView>, fid: Seq<char>, e: EditView, j: int) -> Option<Seq<NodeView>>
    decreases ns, ns.len() - j,
{
    if j < 0 || j >= ns.len() {
        None
    } else {
        match ns[j] {
            NodeView::Folder { id, name, icon, color, children } => {
                if id == fid {
                    Some(ns.update(j, edit_node(ns[j], e)))
                } else {
                    match edited_tree(children, fid, e) {
                        Some(c2) => Some(ns.update(j, NodeView::Folder { id, name, icon, color, children: c2 })),
                        None => edited_from(ns, fid, e, j + 1),
                    }
                }
            },
            NodeView::Host(_) => edited_from(ns, fid, e, j + 1),
        }
    }
}

/// `n` is a folder whose id is `id`.
pub open spec fn is_folder_with(n: NodeView, id: Seq<char>) -> bool {
    n matches NodeView::Folder { id: fid, .. } && fid == id
}

/// Some child of `children` is a folder whose id is `id`.
pub open spec fn has_child_folder(children: Seq<NodeView>, id: Seq<char>) -> bool {
    exists|k: int| 0 <= k < children.len() && #[trigger] is_folder_with(children[k], id)
}

/// Where a new subfolder of `pid` goes.
pub enum ParentSlot {
    /// Into the children of the root folder at this index.
    At(int),
    /// Nowhere: `pid` is already a subfolder, and folders nest two deep at most.
    TooDeep,
    /// Nowhere: no such folder.
    Missing,
}

/// The slot for a subfolder of `pid`, scanning the root from index `j`: the
/// first root folder that is `pid` or has `pid` as a child folder decides.
pub open spec fn parent_slot_from(ns: Seq<NodeView>, pid: Seq<char>, j: int) -> ParentSlot
    decreases ns.len() - j,
{
    if j < 0 || j >= ns.len() {
        ParentSlot::Missing
    } else {
        match ns[j] {
            NodeView::Folder { id, children, .. } => {
                if id == pid {
                    ParentSlot::At(j)
                } else if has_child_folder(children, pid) {
                    ParentSlot::TooDeep
                } else {
                    parent_slot_from(ns, pid, j + 1)
                }
            },
            NodeView::Host(_) => parent_slot_from(ns, pid, j + 1),
        }
    }
}

/// An empty folder.
pub open spec fn new_folder(id: Seq<char>, name: Seq<char>, icon: Option<Seq<char>>, color: Option<Seq<char>>) -> NodeView {
    NodeView::Folder { id, name, icon, color, children: seq![] }
}

/// A folder with `c` appended to its children.
pub open spec fn with_child(n: NodeView, c: NodeView) -> NodeView {
    match n {
        NodeView::Folder { id, name, icon, color, children } => NodeView::Folder { id, name, icon, color, children: children.push(c) },
        NodeView::Host(_) => n,
    }
}

/// A folder with its children replaced by `c`.
pub open spec fn with_children(n: NodeView, c: Seq<NodeView>) -> NodeView {
    match n {
        NodeView::Folder { id, name, icon, color, .. } => NodeView::Folder { id, name, icon, color, children: c },
        NodeView::Host(_) => n,
    }
}

/// The first index from `j` on of a folder (of this level) whose id is `fid`.
pub open spec fn folder_pos_from(ns: Seq<NodeView>, fid: Seq<char>, j: int) -> Option<int>
    decreases ns.len() - j,
{
    if j < 0 || j >= ns.len() {
        None
    } else if is_folder_with(ns[j], fid) {
        Some(j)
    } else {
        folder_pos_from(ns, fid, j + 1)
    }
}

pub proof fn lemma_folder_pos_from(ns: Seq<NodeView>, fid: Seq<char>, j: int)
    ensures
        folder_pos_from(ns, fid, j) matches Some(p) ==> (j <= p < ns.len() && is_folder_with(ns[p], fid)),
        (folder_pos_from(ns, fid, j) is None && 0 <= j) ==> forall|k: int| j <= k < ns.len() ==> !#[trigger] is_folder_with(ns[k], fid),
    decreases ns.len() - j,
{
    if 0 <= j < ns.len() {
        lemma_folder_pos_from(ns, fid, j + 1);
    }
}

/// `ns` without the folder at `p`; with `keep`, the folder's children take
/// its place, in order.
pub open spec fn spliced(ns: Seq<NodeView>, p: int, keep: bool) -> Seq<NodeView> {
    match ns[p] {
        NodeView::Folder { children, .. } => if keep { ns.take(p) + children + ns.skip(p + 1) } else { ns.remove(p) },
        NodeView::Host(_) => ns.remove(p),
    }
}

/// The first root index from `j` on of a folder that has a child folder
/// `fid`, with that child's index.
pub open spec fn nested_folder_from(ns: Seq<NodeView>, fid: Seq<char>, j: int) -> Option<(int, int)>
    decreases ns.len() - j,
{
    if j < 0 || j >= ns.len() {
        None
    } else {
        match ns[j] {
            NodeView::Folder { children, .. } => match folder_pos_from(children, fid, 0) {
                Some(q) => Some((j, q)),
                None => nested_folder_from(ns, fid, j + 1),
            },
            NodeView::Host(_) => nested_folder_from(ns, fid, j + 1),
        }
    }
}

/// The forest without the folder `fid`: a root folder with that id first,
/// otherwise the first such child of a root folder (see `spliced`).
pub open spec fn folder_deleted(ns: Seq<NodeView>, fid: Seq<char>, keep: bool) -> Option<Seq<NodeView>> {
    match folder_pos_from(ns, fid, 0) {
        Some(p) => Some(spliced(ns, p, keep)),
        None => match nested_folder_from(ns, fid, 0) {
            Some((j, q)) => match ns[j] {
                NodeView::Folder { children, .. } => Some(ns.update(j, with_children(ns[j], spliced(children, q, keep)))),
                NodeView::Host(_) => None,
            },
            None => None,
        },
    }
}

/// A host after the bridge `bridge` is deleted: if it went through it, it
/// loses the bridge and is pinged again.
pub open spec fn unbridged_host(h: HostProfile, bridge: uuid::Uuid) -> HostProfile {
    if h.bridge_id == Some(bridge) { HostProfile { bridge_id: None, enable_icmp: true, ..h } } else { h }
}

/// The root after a bridge is deleted (see `unbridged_host`; hosts inside
/// folders are left as they are).
pub open spec fn unbridged(ns: Seq<NodeView>, bridge: uuid::Uuid) -> Seq<NodeView> {
    Seq::new(ns.len(), |i: int| match ns[i] {
        NodeView::Host(h) => NodeView::Host(unbridged_host(h, bridge)),
        NodeView::Folder { .. } => ns[i],
    })
}

// ─── Laws of the tree operations ───────────────────────────────────────────

/// `hosts` around the node at `j`.
pub proof fn lemma_hosts_around(ns: Seq<NodeView>, j: int)
    requires
        0 <= j < ns.len(),
    ensures
        hosts(ns) == hosts(ns.take(j)) + node_hosts(ns[j]) + hosts(ns.skip(j + 1)),
{
    lemma_hosts_split(ns, j);
    lemma_skip_unfold(ns, j);
}

/// `hosts` after replacing the node at `j`.
pub proof fn lemma_hosts_update(ns: Seq<NodeView>, j: int, x: NodeView)
    requires
        0 <= j < ns.len(),
    ensures
        hosts(ns.update(j, x)) == hosts(ns.take(j)) + node_hosts(x) + hosts(ns.skip(j + 1)),
{
    lemma_hosts_around(ns.update(j, x), j);
    assert(ns.update(j, x).take(j) =~= ns.take(j));
    assert(ns.update(j, x).skip(j + 1) =~= ns.skip(j + 1));
}

/// `hosts` after inserting a node at `i`.
pub proof fn lemma_hosts_insert(ns: Seq<NodeView>, i: int, x: NodeView)
    requires
        0 <= i <= ns.len(),
    ensures
        hosts(ns.insert(i, x)) == hosts(ns.take(i)) + node_hosts(x) + hosts(ns.skip(i)),
{
    lemma_hosts_around(ns.insert(i, x), i);
    assert(ns.insert(i, x).take(i) =~= ns.take(i));
    assert(ns.insert(i, x).skip(i + 1) =~= ns.skip(i));
}

/// `hosts` after removing the node at `i`.
pub proof fn lemma_hosts_remove(ns: Seq<NodeView>, i: int)
    requires
        0 <= i < ns.len(),
    ensures
        hosts(ns.remove(i)) == hosts(ns.take(i)) + hosts(ns.skip(i + 1)),
{
    assert(ns.remove(i) =~= ns.take(i) + ns.skip(i + 1));
    lemma_hosts_append(ns.take(i), ns.skip(i + 1));
}

pub proof fn lemma_host_pos_none(ns: Seq<NodeView>, id: Seq<char>, j: int)
    requires
        0 <= j,
        host_pos_from(ns, id, j) is None,
    ensures
        forall|k: int| j <= k < ns.len() ==> !(#[trigger] ns[k] matches NodeView::Host(h) && h.id@ == id),
    decreases ns.len() - j,
{
    if j < ns.len() {
        lemma_host_pos_none(ns, id, j + 1);
    }
}

/// `has_id` of a concatenation.
pub proof fn lemma_has_id_append(a: Seq<HostProfile>, b: Seq<HostProfile>, id: Seq<char>)
    ensures
        has_id(a + b, id) == (has_id(a, id) || has_id(b, id)),
{
    if has_id(a + b, id) {
        let k = choose|k: int| 0 <= k < (a + b).len() && (#[trigger] (a + b)[k]).id@ == id;
        if k < a.len() {
            assert(a[k] == (a + b)[k]);
        } else {
            assert(b[k - a.len()] == (a + b)[k]);
        }
    }
    if has_id(a, id) {
        let k = choose|k: int| 0 <= k < a.len() && (#[trigger] a[k]).id@ == id;
        assert((a + b)[k] == a[k]);
    }
    if has_id(b, id) {
        let k = choose|k: int| 0 <= k < b.len() && (#[trigger] b[k]).id@ == id;
        assert((a + b)[a.len() + k] == b[k]);
    }
}

/// Removing a host: it is found exactly when the forest holds a host with
/// that id, the host taken has that id, and the other hosts all stay.
pub proof fn law_removed_host(ns: Seq<NodeView>, id: Seq<char>)
    ensures
        removed_host(ns, id) is Some <==> has_id(hosts(ns), id),
        removed_host(ns, id) matches Some((rest, h)) ==> (h.id@ == id
            && hosts(ns).to_multiset() == hosts(rest).to_multiset().insert(h)),
    decreases ns, ns.len() + 1,
{
    broadcast use vstd::seq_lib::lemma_multiset_commutative, vstd::multiset::group_multiset_axioms;
    lemma_host_pos_from(ns, id, 0);
    match host_pos_from(ns, id, 0) {
        Some(p) => {
            lemma_hosts_around(ns, p);
            lemma_hosts_remove(ns, p);
            let h = ns[p]->Host_0;
            let a = hosts(ns.take(p));
            let b = hosts(ns.skip(p + 1));
            assert(node_hosts(ns[p]) =~= seq![h]);
            assert(hosts(ns)[a.len() as int] == h);
            assert(hosts(ns).to_multiset() =~= (a + b).to_multiset().insert(h)) by {
                assert(hosts(ns) == (a + seq![h]) + b);
                vstd::seq_lib::to_multiset_build(a, h);
                assert(a + seq![h] =~= a.push(h));
            }
        },
        None => {
            assert(ns.skip(0) =~= ns);
            lemma_removed_in_folders(ns, id, 0);
        },
    }
}

proof fn lemma_single_multiset<A>(a: A)
    ensures
        seq![a].to_multiset() == Multiset::singleton(a),
{
    broadcast use vstd::multiset::group_multiset_axioms;
    vstd::seq_lib::to_multiset_build(Seq::<A>::empty(), a);
    assert(Seq::<A>::empty().push(a) =~= seq![a]);
    assert(Seq::<A>::empty().to_multiset() =~= Multiset::<A>::empty()) by {
        broadcast use vstd::seq_lib::group_to_multiset_ensures;
    }
    assert(seq![a].to_multiset() =~= Multiset::singleton(a));
}

/// The hosts of `a + [h] + b` are those of `a + b` and `h`.
proof fn lemma_hosts_with_one(a: Seq<HostProfile>, b: Seq<HostProfile>, h: HostProfile)
    ensures
        (a + seq![h] + b).to_multiset() == (a + b).to_multiset().insert(h),
{
    broadcast use vstd::seq_lib::lemma_multiset_commutative, vstd::multiset::group_multiset_axioms;
    lemma_single_multiset(h);
    assert((a + seq![h] + b).to_multiset() =~= (a + b).to_multiset().insert(h));
}

/// The hosts that an edit adds to a folder: the inserted host, if any.
pub open spec fn edit_hosts_added(e: EditView) -> Multiset<HostProfile> {
    match e {
        EditView::InsertHost { host, .. } => Multiset::singleton(host),
        _ => Multiset::empty(),
    }
}

/// Reordering only moves nodes: the front and the rest together hold the
/// nodes of `ns`, and the hosts below them.
pub proof fn lemma_reorder_split(ns: Seq<NodeView>, ids: Seq<Seq<char>>)
    ensures
        (reorder_split(ns, ids).0 + reorder_split(ns, ids).1).to_multiset() == ns.to_multiset(),
        hosts(reorder_split(ns, ids).0 + reorder_split(ns, ids).1).to_multiset() == hosts(ns).to_multiset(),
    decreases ids.len(),
{
    broadcast use vstd::seq_lib::lemma_multiset_commutative, vstd::multiset::group_multiset_axioms;
    if ids.len() > 0 {
        lemma_reorder_split(ns, ids.drop_last());
        let (front, rest) = reorder_split(ns, ids.drop_last());
        lemma_id_pos_from(rest, ids.last(), 0);
        match id_pos_from(rest, ids.last(), 0) {
            Some(p) => {
                let x = rest[p];
                lemma_hosts_append(front, rest);
                lemma_hosts_append(front.push(x), rest.remove(p));
                lemma_hosts_append(front, seq![x]);
                assert(front.push(x) =~= front + seq![x]);
                lemma_hosts_single(x);
                lemma_hosts_around(rest, p);
                lemma_hosts_remove(rest, p);
                vstd::seq_lib::to_multiset_remove(rest, p);
                vstd::seq_lib::to_multiset_build(front, x);
                assert(rest.to_multiset().count(x) > 0) by {
                    broadcast use vstd::seq_lib::group_to_multiset_ensures;
                    assert(rest.contains(x));
                }
                assert((front.push(x) + rest.remove(p)).to_multiset() =~= (front + rest).to_multiset());
                assert(hosts(front.push(x) + rest.remove(p)).to_multiset() =~= hosts(front + rest).to_multiset());
            },
            None => {},
        }
    }
}

/// Reordering keeps the nodes (as a multiset) and the hosts below them.
pub proof fn law_reordered(ns: Seq<NodeView>, ids: Seq<Seq<char>>)
    ensures
        reordered(ns, ids).to_multiset() == ns.to_multiset(),
        hosts(reordered(ns, ids)).to_multiset() == hosts(ns).to_multiset(),
{
    lemma_reorder_split(ns, ids);
}

/// An edit of a folder changes its hosts only by the host it inserts.
pub proof fn lemma_edit_node_hosts(n: NodeView, e: EditView)
    requires
        n is Folder,
    ensures
        node_hosts(edit_node(n, e)).to_multiset() == node_hosts(n).to_multiset().add(edit_hosts_added(e)),
{
    broadcast use vstd::seq_lib::lemma_multiset_commutative, vstd::multiset::group_multiset_axioms;
    match n {
        NodeView::Folder { id, name, icon, color, children } => match e {
            EditView::Rename { .. } => {
                assert(node_hosts(n).to_multiset().add(Multiset::empty()) =~= node_hosts(n).to_multiset());
            },
            EditView::InsertHost { host, index } => {
                let i = insert_index(index, children.len());
                lemma_hosts_insert(children, i, NodeView::Host(host));
                lemma_hosts_split(children, i);
                assert(node_hosts(NodeView::Host(host)) =~= seq![host]);
                lemma_hosts_with_one(hosts(children.take(i)), hosts(children.skip(i)), host);
                assert(node_hosts(edit_node(n, e)).to_multiset() =~= node_hosts(n).to_multiset().add(Multiset::singleton(host)));
            },
            EditView::Reorder { ids } => {
                law_reordered(children, ids);
                assert(node_hosts(n).to_multiset().add(Multiset::empty()) =~= node_hosts(n).to_multiset());
            },
        },
        NodeView::Host(_) => {},
    }
}

/// Editing the first folder with a given id changes the hosts of the whole
/// forest only by the host the edit inserts.
pub proof fn law_edited_tree_hosts(ns: Seq<NodeView>, fid: Seq<char>, e: EditView)
    ensures
        edited_tree(ns, fid, e) matches Some(t) ==> hosts(t).to_multiset() == hosts(ns).to_multiset().add(edit_hosts_added(e)),
    decreases ns, ns.len() + 1,
{
    lemma_edited_from_hosts(ns, fid, e, 0);
}

proof fn lemma_edited_from_hosts(ns: Seq<NodeView>, fid: Seq<char>, e: EditView, j: int)
    ensures
        edited_from(ns, fid, e, j) matches Some(t) ==> hosts(t).to_multiset() == hosts(ns).to_multiset().add(edit_hosts_added(e)),
    decreases ns, ns.len() - j,
{
    broadcast use vstd::seq_lib::lemma_multiset_commutative, vstd::multiset::group_multiset_axioms;
    if 0 <= j < ns.len() {
        match ns[j] {
            NodeView::Folder { id, name, icon, color, children } => {
                lemma_hosts_around(ns, j);
                if id == fid {
                    lemma_edit_node_hosts(ns[j], e);
                    lemma_hosts_update(ns, j, edit_node(ns[j], e));
                    assert(hosts(ns.update(j, edit_node(ns[j], e))).to_multiset()
                        =~= hosts(ns).to_multiset().add(edit_hosts_added(e)));
                } else {
                    assert(decreases_to!(ns => children));
                    law_edited_tree_hosts(children, fid, e);
                    match edited_tree(children, fid, e) {
                        Some(c2) => {
                            let x = NodeView::Folder { id, name, icon, color, children: c2 };
                            lemma_hosts_update(ns, j, x);
                            assert(hosts(ns.update(j, x)).to_multiset() =~= hosts(ns).to_multiset().add(edit_hosts_added(e)));
                        },
                        None => {
                            lemma_edited_from_hosts(ns, fid, e, j + 1);
                        },
                    }
                }
            },
            NodeView::Host(_) => {
                lemma_edited_from_hosts(ns, fid, e, j + 1);
            },
        }
    }
}

/// Deleting a folder but keeping its contents leaves the hosts, in tree
/// order, as they were.
pub proof fn law_folder_deleted_keeps_hosts(ns: Seq<NodeView>, fid: Seq<char>)
    ensures
        folder_deleted(ns, fid, true) matches Some(t) ==> hosts(t) == hosts(ns),
{
    lemma_folder_pos_from(ns, fid, 0);
    match folder_pos_from(ns, fid, 0) {
        Some(p) => {
            lemma_spliced_keeps_hosts(ns, p);
        },
        None => {
            lemma_nested_folder_from(ns, fid, 0);
            match nested_folder_from(ns, fid, 0) {
                Some((j, q)) => match ns[j] {
                    NodeView::Folder { children, .. } => {
                        lemma_folder_pos_from(children, fid, 0);
                        lemma_spliced_keeps_hosts(children, q);
                        lemma_hosts_around(ns, j);
                        lemma_hosts_update(ns, j, with_children(ns[j], spliced(children, q, true)));
                    },
                    NodeView::Host(_) => {},
                },
                None => {},
            }
        },
    }
}

proof fn lemma_spliced_keeps_hosts(ns: Seq<NodeView>, p: int)
    requires
        0 <= p < ns.len(),
        ns[p] is Folder,
    ensures
        hosts(spliced(ns, p, true)) == hosts(ns),
{
    let children = ns[p]->Folder_children;
    lemma_hosts_around(ns, p);
    lemma_hosts_append(ns.take(p), children);
    lemma_hosts_append(ns.take(p) + children, ns.skip(p + 1));
}

proof fn lemma_nested_folder_from(ns: Seq<NodeView>, fid: Seq<char>, j: int)
    ensures
        nested_folder_from(ns, fid, j) matches Some((a, q)) ==> (j <= a < ns.len() && ns[a] is Folder
            && folder_pos_from(ns[a]->Folder_children, fid, 0) == Some(q)),
    decreases ns.len() - j,
{
    if 0 <= j < ns.len() {
        lemma_nested_folder_from(ns, fid, j + 1);
    }
}

/// No folder of the forest lies deeper than `d` levels.
pub open spec fn folders_within(ns: Seq<NodeView>, d: nat) -> bool
    decreases ns,
{
    ns.len() == 0 || (node_within(ns[0], d) && folders_within(ns.drop_first(), d))
}

/// No folder of the node lies deeper than `d` levels (the node itself
/// counting as the first).
pub open spec fn node_within(n: NodeView, d: nat) -> bool
    decreases n,
{
    match n {
        NodeView::Host(_) => true,
        NodeView::Folder { children, .. } => d > 0 && folders_within(children, (d - 1) as nat),
    }
}

pub proof fn lemma_folders_within(ns: Seq<NodeView>, d: nat)
    ensures
        folders_within(ns, d) <==> forall|k: int| 0 <= k < ns.len() ==> node_within(#[trigger] ns[k], d),
    decreases ns.len(),
{
    if ns.len() > 0 {
        lemma_folders_within(ns.drop_first(), d);
        if forall|k: int| 0 <= k < ns.len() ==> node_within(#[trigger] ns[k], d) {
            assert forall|k: int| 0 <= k < ns.drop_first().len() implies node_within(#[trigger] ns.drop_first()[k], d) by {
                assert(ns.drop_first()[k] == ns[k + 1]);
            }
        }
        if folders_within(ns, d) {
            assert forall|k: int| 0 <= k < ns.len() implies node_within(#[trigger] ns[k], d) by {
                if k > 0 {
                    assert(ns[k] == ns.drop_first()[k - 1]);
                }
            }
        }
    }
}

/// Folders nest two deep at most, and adding a folder keeps it so: a new
/// folder goes to the root or into a root folder, never deeper.
pub proof fn law_add_folder_depth(ns: Seq<NodeView>, pid: Seq<char>, nf: NodeView)
    requires
        folders_within(ns, 2),
        nf == new_folder(nf->Folder_id, nf->Folder_name, nf->Folder_icon, nf->Folder_color),
    ensures
        folders_within(ns.push(nf), 2),
        parent_slot_from(ns, pid, 0) matches ParentSlot::At(j) ==> folders_within(ns.update(j, with_child(ns[j], nf)), 2),
{
    lemma_folders_within(ns, 2);
    lemma_folders_within(ns.push(nf), 2);
    lemma_folders_within(Seq::<NodeView>::empty(), 0);
    lemma_folders_within(Seq::<NodeView>::empty(), 1);
    assert(node_within(nf, 2));
    assert(node_within(nf, 1));
    lemma_parent_slot_from(ns, pid, 0);
    match parent_slot_from(ns, pid, 0) {
        ParentSlot::At(j) => {
            let c = ns[j]->Folder_children;
            assert(node_within(ns[j], 2));
            lemma_folders_within(c, 1);
            lemma_folders_within(c.push(nf), 1);
            assert(node_within(with_child(ns[j], nf), 2));
            lemma_folders_within(ns.update(j, with_child(ns[j], nf)), 2);
        },
        _ => {},
    }
}

proof fn lemma_parent_slot_from(ns: Seq<NodeView>, pid: Seq<char>, j: int)
    ensures
        parent_slot_from(ns, pid, j) matches ParentSlot::At(a) ==> (j <= a < ns.len() && ns[a] is Folder),
    decreases ns.len() - j,
{
    if 0 <= j < ns.len() {
        lemma_parent_slot_from(ns, pid, j + 1);
    }
}

/// Moving a host loses no host and adds none, wherever it ends up: at the
/// root, in the target folder, or at the end of the root when the target
/// folder is missing.
pub proof fn law_move_host_keeps_hosts(ns: Seq<NodeView>, id: Seq<char>, target: Seq<char>, index: Option<usize>)
    requires
        removed_host(ns, id) is Some,
    ensures
        ({
            let (rest, h) = removed_host(ns, id)->0;
            &&& hosts(rest.insert(insert_index(index, rest.len()), NodeView::Host(h))).to_multiset() == hosts(ns).to_multiset()
            &&& hosts(rest.push(NodeView::Host(h))).to_multiset() == hosts(ns).to_multiset()
            &&& (edited_tree(rest, target, EditView::InsertHost { host: h, index }) matches Some(t)
                ==> hosts(t).to_multiset() == hosts(ns).to_multiset())
        }),
{
    broadcast use vstd::seq_lib::lemma_multiset_commutative, vstd::multiset::group_multiset_axioms;
    law_removed_host(ns, id);
    let (rest, h) = removed_host(ns, id)->0;
    let i = insert_index(index, rest.len());
    lemma_hosts_insert(rest, i, NodeView::Host(h));
    lemma_hosts_split(rest, i);
    assert(node_hosts(NodeView::Host(h)) =~= seq![h]);
    lemma_hosts_with_one(hosts(rest.take(i)), hosts(rest.skip(i)), h);
    assert(hosts(rest.insert(i, NodeView::Host(h))).to_multiset() =~= hosts(ns).to_multiset());
    lemma_hosts_insert(rest, rest.len() as int, NodeView::Host(h));
    assert(rest.insert(rest.len() as int, NodeView::Host(h)) =~= rest.push(NodeView::Host(h)));
    lemma_hosts_split(rest, rest.len() as int);
    assert(hosts(rest.push(NodeView::Host(h))).to_multiset() =~= hosts(ns).to_multiset());
    law_edited_tree_hosts(rest, target, EditView::InsertHost { host: h, index });
    match edited_tree(rest, target, EditView::InsertHost { host: h, index }) {
        Some(t) => {
            assert(hosts(t).to_multiset() =~= hosts(ns).to_multiset());
        },
        None => {},
    }
}

proof fn lemma_removed_in_folders(ns: Seq<NodeView>, id: Seq<char>, j: int)
    requires
        0 <= j <= ns.len(),
        host_pos_from(ns, id, 0) is None,
    ensures
        removed_in_folders(ns, id, j) is Some <==> has_id(hosts(ns.skip(j)), id),
        removed_in_folders(ns, id, j) matches Some((rest, h)) ==> (h.id@ == id
            && hosts(ns).to_multiset() == hosts(rest).to_multiset().insert(h)),
    decreases ns, ns.len() - j,
{
    broadcast use vstd::seq_lib::lemma_multiset_commutative, vstd::multiset::group_multiset_axioms;
    if j == ns.len() {
        assert(ns.skip(j) =~= Seq::<NodeView>::empty());
        assert(hosts(ns.skip(j)) =~= Seq::<HostProfile>::empty());
    } else {
        lemma_skip_unfold(ns, j);
        lemma_has_id_append(node_hosts(ns[j]), hosts(ns.skip(j + 1)), id);
        lemma_host_pos_none(ns, id, 0);
        match ns[j] {
            NodeView::Folder { id: fid, name, icon, color, children } => {
                assert(decreases_to!(ns => children));
                law_removed_host(children, id);
                match removed_host(children, id) {
                    Some((c2, h)) => {
                        let x = NodeView::Folder { id: fid, name, icon, color, children: c2 };
                        lemma_hosts_around(ns, j);
                        lemma_hosts_update(ns, j, x);
                        let a = hosts(ns.take(j));
                        let b = hosts(ns.skip(j + 1));
                        assert(hosts(ns).to_multiset() =~= hosts(ns.update(j, x)).to_multiset().insert(h));
                    },
                    None => {
                        lemma_removed_in_folders(ns, id, j + 1);
                    },
                }
            },
            NodeView::Host(h0) => {
                assert(node_hosts(ns[j]) =~= seq![h0]);
                assert(!has_id(seq![h0], id));
                lemma_removed_in_folders(ns, id, j + 1);
            },
        }
    }
}

} // verus!
