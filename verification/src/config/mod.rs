//! Saved hosts, bridges and the folder tree that organises them.

pub mod client;
pub mod crypto;
pub mod protected_mem;
pub mod tree;
pub mod vault;
pub mod edit;

use vstd::prelude::*;
use crate::text::{same_text, trim, trimmed};
use crate::config::protected_mem::ProtectedMemory;
use crate::config::tree::{
    NodeView, node_view, forest_view, lemma_forest_view, lemma_forest_view_ext, view_id, hosts, node_hosts,
    hosts_with_paths, node_hosts_with_paths, first_host_with, lemma_first_host_with_append, lemma_skip_unfold,
    host_pos_from, removed_host, replaced_host, replaced_in_folders, first_host_named, lemma_first_host_named_append, removed_in_folders, texts, insert_index, id_pos_from, lemma_id_pos_from,
    reorder_split, reordered, edit_node, edited_tree, edited_from, EditView, text_opt,
    is_folder_with, has_child_folder, ParentSlot, parent_slot_from, new_folder, with_child, with_children,
    folder_pos_from, lemma_folder_pos_from, spliced, nested_folder_from, folder_deleted, unbridged, unbridged_host,
};

verus! {

/// `uuid::Uuid`, carried as an opaque value.
#[verifier::external_type_specification]
#[verifier::external_body]
pub struct ExUuid(uuid::Uuid);

/// `Uuid::clone`: `Uuid` derives `Clone` and `Copy`, so a clone is the same
/// value.
pub assume_specification[ <uuid::Uuid as Clone>::clone ](u: &uuid::Uuid) -> (r: uuid::Uuid)
    ensures
        r == *u,
;

/// Compares two ids with `Uuid`'s derived `==`, which compares their bytes.
#[verifier::external_body]
pub(crate) fn uuid_eq(a: &uuid::Uuid, b: &uuid::Uuid) -> (r: bool)
    ensures
        r == (*a == *b),
{
    a == b
}

/// How a host or bridge authenticates.
#[derive(Clone)]
pub enum AuthType {
    /// A password, kept in protected memory.
    Password(ProtectedMemory),
    /// A private key file, with the passphrase that opens it (if any).
    Key { path: String, passphrase: Option<ProtectedMemory> },
    /// No authentication.
    NoAuth,
}

/// Calls `uuid::Uuid::new_v4` and formats the id as text.  The id is random;
/// what is stated is the hyphenated form that `Uuid`'s `Display` writes: 36
/// characters.
#[verifier::external_body]
pub fn generate_node_id() -> (id: String)
    ensures
        id@.len() == 36,
{
    uuid::Uuid::new_v4().to_string()
}

/// A saved host.
#[derive(Clone)]
pub struct HostProfile {
    pub id: String,
    pub name: String,
    pub address: String,
    pub port: u16,
    pub username: String,
    pub auth: AuthType,
    pub enable_icmp: bool,
    pub bridge_id: Option<uuid::Uuid>,
    /// Enables the legacy key-exchange algorithms some old servers need.
    pub legacy_ssh: bool,
    pub icon: Option<String>,
}

/// A saved bridge (jump host).
#[derive(Clone)]
pub struct BridgeProfile {
    pub id: uuid::Uuid,
    pub name: String,
    pub address: String,
    pub port: u16,
    pub username: String,
    pub auth: AuthType,
}

/// A node of the folder tree: a folder with its children, or a host.
pub enum ConfigNode {
    Folder {
        id: String,
        name: String,
        icon: Option<String>,
        color: Option<String>,
        children: Vec<ConfigNode>,
    },
    Host(HostProfile),
}

/// The id of a node.
pub open spec fn node_id(n: ConfigNode) -> Seq<char> {
    view_id(node_view(n))
}

impl ConfigNode {
    /// The node's id.
    pub fn id(&self) -> (r: &str)
        ensures
            r@ == node_id(*self),
    {
        match self {
            ConfigNode::Folder { id, .. } => id.as_str(),
            ConfigNode::Host(h) => h.id.as_str(),
        }
    }

    /// Whether the node is a folder.
    pub fn is_folder(&self) -> (b: bool)
        ensures
            b == (*self is Folder),
    {
        match self {
            ConfigNode::Folder { .. } => true,
            ConfigNode::Host(_) => false,
        }
    }
}

/// Searches `nodes` in tree order for the host `id`.
fn search_host<'a>(nodes: &'a Vec<ConfigNode>, id: &str) -> (r: Option<&'a HostProfile>)
    ensures
        match r {
            Some(h) => first_host_with(hosts(forest_view(nodes@)), id@) == Some(*h),
            None => first_host_with(hosts(forest_view(nodes@)), id@) is None,
        },
    decreases nodes@,
{
    let ghost fv = forest_view(nodes@);
    proof { lemma_forest_view(nodes@); }
    let mut i: usize = 0;
    assert(fv.skip(0) =~= fv);
    while i < nodes.len()
        invariant
            i <= nodes@.len(),
            fv == forest_view(nodes@),
            fv.len() == nodes@.len(),
            forall|k: int| 0 <= k < nodes@.len() ==> #[trigger] fv[k] == node_view(nodes@[k]),
            first_host_with(hosts(fv.skip(i as int)), id@) == first_host_with(hosts(fv), id@),
        decreases nodes@.len() - i,
    {
        proof {
            lemma_skip_unfold(fv, i as int);
            lemma_first_host_with_append(node_hosts(fv[i as int]), hosts(fv.skip(i + 1)), id@);
        }
        match &nodes[i] {
            ConfigNode::Host(h) => {
                if same_text(h.id.as_str(), id) {
                    assert(node_hosts(fv[i as int]) =~= seq![*h]);
                    return Some(h);
                }
                assert(first_host_with(seq![*h], id@) is None) by {
                    assert(seq![*h].drop_first() =~= Seq::<HostProfile>::empty());
                    reveal_with_fuel(first_host_with, 2);
                }
            },
            ConfigNode::Folder { children, .. } => {
                proof { assert(decreases_to!(nodes@ => nodes@[i as int])); }
                let found = search_host(children, id);
                if found.is_some() {
                    return found;
                }
            },
        }
        i = i + 1;
    }
    None
}

/// Searches `nodes` in tree order for a host named `name`.
fn search_host_named<'a>(nodes: &'a Vec<ConfigNode>, name: &str) -> (r: Option<&'a HostProfile>)
    ensures
        match r {
            Some(h) => first_host_named(hosts(forest_view(nodes@)), name@) == Some(*h),
            None => first_host_named(hosts(forest_view(nodes@)), name@) is None,
        },
    decreases nodes@,
{
    let ghost fv = forest_view(nodes@);
    proof { lemma_forest_view(nodes@); }
    let mut i: usize = 0;
    assert(fv.skip(0) =~= fv);
    while i < nodes.len()
        invariant
            i <= nodes@.len(),
            fv == forest_view(nodes@),
            fv.len() == nodes@.len(),
            forall|k: int| 0 <= k < nodes@.len() ==> #[trigger] fv[k] == node_view(nodes@[k]),
            first_host_named(hosts(fv.skip(i as int)), name@) == first_host_named(hosts(fv), name@),
        decreases nodes@.len() - i,
    {
        proof {
            lemma_skip_unfold(fv, i as int);
            lemma_first_host_named_append(node_hosts(fv[i as int]), hosts(fv.skip(i + 1)), name@);
        }
        match &nodes[i] {
            ConfigNode::Host(h) => {
                if same_text(h.name.as_str(), name) {
                    assert(node_hosts(fv[i as int]) =~= seq![*h]);
                    return Some(h);
                }
                assert(first_host_named(seq![*h], name@) is None) by {
                    assert(seq![*h].drop_first() =~= Seq::<HostProfile>::empty());
                    reveal_with_fuel(first_host_named, 2);
                }
            },
            ConfigNode::Folder { children, .. } => {
                proof { assert(decreases_to!(nodes@ => nodes@[i as int])); }
                let found = search_host_named(children, name);
                if found.is_some() {
                    return found;
                }
            },
        }
        i = i + 1;
    }
    None
}

/// A change made to one folder.
pub enum FolderEdit {
    /// New name, icon and colour.
    Rename { name: String, icon: Option<String>, color: Option<String> },
    /// A host put among the children at `index` (the end when absent or
    /// past the end).
    InsertHost { host: HostProfile, index: Option<usize> },
    /// The children reordered by these ids (see `reordered`).
    Reorder { ids: Vec<String> },
}

impl View for FolderEdit {
    type V = EditView;

    open spec fn view(&self) -> EditView {
        match *self {
            FolderEdit::Rename { name, icon, color } => EditView::Rename { name: name@, icon: text_opt(icon), color: text_opt(color) },
            FolderEdit::InsertHost { host, index } => EditView::InsertHost { host, index },
            FolderEdit::Reorder { ids } => EditView::Reorder { ids: texts(ids@) },
        }
    }
}

/// `children` reordered by `ids` (see `reordered`).
fn reorder_children(children: Vec<ConfigNode>, ids: &[String]) -> (r: Vec<ConfigNode>)
    ensures
        forest_view(r@) == reordered(forest_view(children@), texts(ids@)),
{
    let ghost fv = forest_view(children@);
    let ghost idv = texts(ids@);
    let mut front: Vec<ConfigNode> = Vec::new();
    let mut rest = children;
    let mut k: usize = 0;
    proof {
        lemma_forest_view(rest@);
        lemma_forest_view(front@);
        assert(idv.take(0) =~= Seq::<Seq<char>>::empty());
    }
    while k < ids.len()
        invariant
            k <= ids@.len(),
            idv == texts(ids@),
            idv.len() == ids@.len(),
            reorder_split(fv, idv.take(k as int)) == (forest_view(front@), forest_view(rest@)),
        decreases ids@.len() - k,
    {
        let ghost rv = forest_view(rest@);
        proof { lemma_forest_view(rest@); }
        let ghost idk = ids@[k as int]@;
        let mut p: usize = 0;
        let mut found = false;
        while p < rest.len() && !found
            invariant
                k < ids@.len(),
                idk == ids@[k as int]@,
                p <= rest@.len(),
                rv == forest_view(rest@),
                rv.len() == rest@.len(),
                forall|m: int| 0 <= m < rest@.len() ==> #[trigger] rv[m] == node_view(rest@[m]),
                found ==> p < rest@.len() && id_pos_from(rv, idk, 0) == Some(p as int),
                !found ==> id_pos_from(rv, idk, p as int) == id_pos_from(rv, idk, 0),
            decreases rest@.len() - p + (if found { 0int } else { 1int }),
        {
            if same_text(rest[p].id(), ids[k].as_str()) {
                found = true;
            } else {
                p = p + 1;
            }
        }
        assert(idv.take(k + 1).drop_last() =~= idv.take(k as int));
        assert(idv.take(k + 1).last() == ids@[k as int]@);
        if found {
            let ghost fr = front@;
            let node = rest.remove(p);
            front.push(node);
            proof {
                lemma_forest_view(front@);
                lemma_forest_view(fr);
                lemma_forest_view_ext(front@, forest_view(fr).push(rv[p as int]));
                lemma_forest_view_ext(rest@, rv.remove(p as int));
            }
        }
        k = k + 1;
    }
    assert(idv.take(ids@.len() as int) =~= idv);
    let ghost fr = front@;
    let ghost rs = rest@;
    front.append(&mut rest);
    proof {
        lemma_forest_view(fr);
        lemma_forest_view(rs);
        lemma_forest_view_ext(front@, forest_view(fr) + forest_view(rs));
    }
    front
}

/// Applies `e` to a folder node (a host is returned as it is).
fn apply_edit(node: ConfigNode, e: FolderEdit) -> (r: ConfigNode)
    ensures
        node_view(r) == edit_node(node_view(node), e@),
{
    match node {
        ConfigNode::Folder { id, name, icon, color, children } => match e {
            FolderEdit::Rename { name: new_name, icon: new_icon, color: new_color } => {
                ConfigNode::Folder { id, name: new_name, icon: new_icon, color: new_color, children }
            },
            FolderEdit::InsertHost { host, index } => {
                let mut children = children;
                let len = children.len();
                let at = match index {
                    Some(i) => if i < len { i } else { len },
                    None => len,
                };
                let ghost before = children@;
                children.insert(at, ConfigNode::Host(host));
                proof {
                    lemma_forest_view(before);
                    lemma_forest_view_ext(children@, forest_view(before).insert(at as int, NodeView::Host(host)));
                }
                ConfigNode::Folder { id, name, icon, color, children }
            },
            FolderEdit::Reorder { ids } => {
                let children = reorder_children(children, ids.as_slice());
                ConfigNode::Folder { id, name, icon, color, children }
            },
        },
        ConfigNode::Host(h) => ConfigNode::Host(h),
    }
}

/// Applies `e` to the first folder, in tree order, whose id is `fid` (see
/// `edited_tree`); gives `e` back when there is none.
fn edit_first_folder(nodes: &mut Vec<ConfigNode>, fid: &str, e: FolderEdit) -> (r: Result<(), FolderEdit>)
    ensures
        match r {
            Ok(()) => edited_tree(forest_view(old(nodes)@), fid@, e@) == Some(forest_view(final(nodes)@)),
            Err(back) => back == e && edited_tree(forest_view(old(nodes)@), fid@, e@) is None
                && forest_view(final(nodes)@) == forest_view(old(nodes)@),
        },
    decreases old(nodes)@,
{
    let ghost fv = forest_view(nodes@);
    let ghost e0 = e;
    proof { lemma_forest_view(nodes@); }
    let mut edit = e;
    let mut j: usize = 0;
    while j < nodes.len()
        invariant
            j <= nodes@.len(),
            nodes@.len() == old(nodes)@.len(),
            edit == e0,
            e0 == e,
            fv == forest_view(old(nodes)@),
            fv.len() == nodes@.len(),
            forall|k: int| 0 <= k < nodes@.len() ==> #[trigger] fv[k] == node_view(nodes@[k]),
            forall|k: int| j <= k < nodes@.len() ==> #[trigger] nodes@[k] == old(nodes)@[k],
            edited_from(fv, fid@, e0@, j as int) == edited_tree(fv, fid@, e0@),
        decreases nodes@.len() - j,
    {
        let ghost before = nodes@;
        let node = nodes.remove(j);
        match node {
            ConfigNode::Folder { id, name, icon, color, mut children } => {
                if same_text(id.as_str(), fid) {
                    let ghost folder = ConfigNode::Folder { id, name, icon, color, children };
                    assert(folder == before[j as int]);
                    assert(fv[j as int] == node_view(folder));
                    let edited = apply_edit(ConfigNode::Folder { id, name, icon, color, children }, edit);
                    nodes.insert(j, edited);
                    assert(edited_from(fv, fid@, e0@, j as int) == Some(fv.update(j as int, edit_node(fv[j as int], e0@))));
                    proof {
                        assert(nodes@ =~= before.update(j as int, nodes@[j as int]));
                        lemma_forest_view_ext(nodes@, fv.update(j as int, node_view(nodes@[j as int])));
                        assert(node_view(nodes@[j as int]) == edit_node(fv[j as int], e0@));
                        assert(forest_view(nodes@) == fv.update(j as int, edit_node(fv[j as int], e0@)));
                        assert(edited_tree(fv, fid@, e0@) == Some(forest_view(nodes@)));
                    }
                    return Ok(());
                }
                proof { assert(decreases_to!(old(nodes)@ => old(nodes)@[j as int])); }
                let res = edit_first_folder(&mut children, fid, edit);
                nodes.insert(j, ConfigNode::Folder { id, name, icon, color, children });
                proof {
                    assert(nodes@ =~= before.update(j as int, nodes@[j as int]));
                }
                match res {
                    Ok(()) => {
                        proof {
                            lemma_forest_view_ext(nodes@, fv.update(j as int, node_view(nodes@[j as int])));
                        }
                        return Ok(());
                    },
                    Err(back) => {
                        edit = back;
                    },
                }
            },
            ConfigNode::Host(h) => {
                nodes.insert(j, ConfigNode::Host(h));
                proof {
                    assert(nodes@ =~= before);
                }
            },
        }
        j = j + 1;
    }
    proof {
        lemma_forest_view_ext(nodes@, fv);
    }
    Err(edit)
}

/// The index of the first folder of `nodes` (this level) whose id is `fid`.
fn folder_pos(nodes: &Vec<ConfigNode>, fid: &str) -> (r: Option<usize>)
    ensures
        match r {
            Some(p) => folder_pos_from(forest_view(nodes@), fid@, 0) == Some(p as int),
            None => folder_pos_from(forest_view(nodes@), fid@, 0) is None,
        },
{
    let ghost fv = forest_view(nodes@);
    proof { lemma_forest_view(nodes@); }
    let mut i: usize = 0;
    while i < nodes.len()
        invariant
            i <= nodes@.len(),
            fv == forest_view(nodes@),
            fv.len() == nodes@.len(),
            forall|k: int| 0 <= k < nodes@.len() ==> #[trigger] fv[k] == node_view(nodes@[k]),
            folder_pos_from(fv, fid@, i as int) == folder_pos_from(fv, fid@, 0),
        decreases nodes@.len() - i,
    {
        let hit = match &nodes[i] {
            ConfigNode::Folder { id, .. } => same_text(id.as_str(), fid),
            ConfigNode::Host(_) => false,
        };
        if hit {
            return Some(i);
        }
        i = i + 1;
    }
    None
}

/// Removes the folder at `p`; with `keep`, its children take its place.
fn splice_folder(nodes: &mut Vec<ConfigNode>, p: usize, keep: bool)
    requires
        p < old(nodes)@.len(),
    ensures
        forest_view(final(nodes)@) == spliced(forest_view(old(nodes)@), p as int, keep),
{
    let ghost fv = forest_view(nodes@);
    proof { lemma_forest_view(nodes@); }
    let node = nodes.remove(p);
    let ghost rest = nodes@;
    proof { lemma_forest_view(rest); }
    match node {
        ConfigNode::Folder { children, .. } => {
            if keep {
                let ghost kids = children@;
                proof { lemma_forest_view(kids); }
                let mut children = children;
                let klen = children.len();
                let mut i: usize = 0;
                assert(kids.skip(0) =~= kids);
                while children.len() > 0
                    invariant
                        i <= kids.len(),
                        kids.len() == klen,
                        children@.len() + i == kids.len(),
                        p <= rest.len(),
                        nodes@.len() == rest.len() + i,
                        children@ == kids.skip(i as int),
                        nodes@ == rest.take(p as int) + kids.take(i as int) + rest.skip(p as int),
                    decreases children@.len(),
                {
                    let c = children.remove(0);
                    assert(c == kids[i as int]);
                    let n = nodes.len();
                    assert(p + i <= n);
                    nodes.insert(p + i, c);
                    i = i + 1;
                    assert(nodes@ =~= rest.take(p as int) + kids.take(i as int) + rest.skip(p as int));
                    assert(children@ =~= kids.skip(i as int));
                }
                assert(kids.take(i as int) =~= kids);
                proof {
                    lemma_forest_view_ext(nodes@, fv.take(p as int) + forest_view(kids) + fv.skip(p + 1));
                }
            } else {
                proof { lemma_forest_view_ext(nodes@, fv.remove(p as int)); }
            }
        },
        ConfigNode::Host(_) => {
            proof { lemma_forest_view_ext(nodes@, fv.remove(p as int)); }
        },
    }
}

/// A root host after the bridge `bridge` is deleted (see `unbridged_host`).
fn unbridge_host(h: HostProfile, bridge: &uuid::Uuid) -> (r: HostProfile)
    ensures
        r == unbridged_host(h, *bridge),
{
    let mut h = h;
    let uses = match &h.bridge_id {
        Some(b) => uuid_eq(b, bridge),
        None => false,
    };
    if uses {
        h.bridge_id = None;
        h.enable_icmp = true;
    }
    h
}

/// Takes the host `id` out of `nodes` (see `removed_host`).
fn remove_host_from(nodes: &mut Vec<ConfigNode>, id: &str) -> (r: Option<HostProfile>)
    ensures
        match r {
            Some(h) => removed_host(forest_view(old(nodes)@), id@) == Some((forest_view(final(nodes)@), h)),
            None => removed_host(forest_view(old(nodes)@), id@) is None
                && forest_view(final(nodes)@) == forest_view(old(nodes)@),
        },
    decreases old(nodes)@,
{
    let ghost fv = forest_view(nodes@);
    proof { lemma_forest_view(nodes@); }
    let mut i: usize = 0;
    while i < nodes.len()
        invariant
            i <= nodes@.len(),
            nodes@ == old(nodes)@,
            fv == forest_view(old(nodes)@),
            fv.len() == nodes@.len(),
            forall|k: int| 0 <= k < nodes@.len() ==> #[trigger] fv[k] == node_view(nodes@[k]),
            host_pos_from(fv, id@, i as int) == host_pos_from(fv, id@, 0),
        decreases nodes@.len() - i,
    {
        let is_match = match &nodes[i] {
            ConfigNode::Host(h) => same_text(h.id.as_str(), id),
            ConfigNode::Folder { .. } => false,
        };
        if is_match {
            let node = nodes.remove(i);
            match node {
                ConfigNode::Host(h) => {
                    proof {
                        lemma_forest_view_ext(nodes@, fv.remove(i as int));
                    }
                    return Some(h);
                },
                ConfigNode::Folder { id: fid, name, icon, color, children } => {
                    proof { assert(false); }
                    nodes.insert(i, ConfigNode::Folder { id: fid, name, icon, color, children });
                    return None;
                },
            }
        }
        i = i + 1;
    }
    let mut j: usize = 0;
    while j < nodes.len()
        invariant
            j <= nodes@.len(),
            nodes@.len() == old(nodes)@.len(),
            fv == forest_view(old(nodes)@),
            fv.len() == nodes@.len(),
            forall|k: int| 0 <= k < nodes@.len() ==> #[trigger] fv[k] == node_view(nodes@[k]),
            forall|k: int| j <= k < nodes@.len() ==> #[trigger] nodes@[k] == old(nodes)@[k],
            host_pos_from(fv, id@, 0) is None,
            removed_in_folders(fv, id@, j as int) == removed_host(fv, id@),
        decreases nodes@.len() - j,
    {
        let ghost before = nodes@;
        let node = nodes.remove(j);
        match node {
            ConfigNode::Folder { id: fid, name, icon, color, mut children } => {
                proof { assert(decreases_to!(old(nodes)@ => old(nodes)@[j as int])); }
                let found = remove_host_from(&mut children, id);
                nodes.insert(j, ConfigNode::Folder { id: fid, name, icon, color, children });
                proof {
                    assert(nodes@ =~= before.update(j as int, nodes@[j as int]));
                }
                if found.is_some() {
                    proof {
                        lemma_forest_view_ext(nodes@, fv.update(j as int, node_view(nodes@[j as int])));
                    }
                    return found;
                }
            },
            ConfigNode::Host(h) => {
                nodes.insert(j, ConfigNode::Host(h));
                proof {
                    assert(nodes@ =~= before);
                }
            },
        }
        j = j + 1;
    }
    proof {
        lemma_forest_view_ext(nodes@, fv);
    }
    None
}

/// Puts `h` in place of the host `id` in `nodes` (see `replaced_host`);
/// gives `h` back when there is no such host.
fn replace_host_in(nodes: &mut Vec<ConfigNode>, id: &str, host: HostProfile) -> (r: Result<(), HostProfile>)
    ensures
        match r {
            Ok(()) => replaced_host(forest_view(old(nodes)@), id@, host) == Some(forest_view(final(nodes)@)),
            Err(back) => back == host && replaced_host(forest_view(old(nodes)@), id@, host) is None
                && forest_view(final(nodes)@) == forest_view(old(nodes)@),
        },
    decreases old(nodes)@,
{
    let ghost fv = forest_view(nodes@);
    let ghost h0 = host;
    let h = host;
    proof { lemma_forest_view(nodes@); }
    let mut i: usize = 0;
    while i < nodes.len()
        invariant
            i <= nodes@.len(),
            nodes@ == old(nodes)@,
            fv == forest_view(old(nodes)@),
            fv.len() == nodes@.len(),
            forall|k: int| 0 <= k < nodes@.len() ==> #[trigger] fv[k] == node_view(nodes@[k]),
            host_pos_from(fv, id@, i as int) == host_pos_from(fv, id@, 0),
            h == h0,
            h0 == host,
        decreases nodes@.len() - i,
    {
        let is_match = match &nodes[i] {
            ConfigNode::Host(x) => same_text(x.id.as_str(), id),
            ConfigNode::Folder { .. } => false,
        };
        if is_match {
            let ghost hv = h;
            nodes.set(i, ConfigNode::Host(h));
            proof {
                assert(node_view(ConfigNode::Host(hv)) == NodeView::Host(hv));
                lemma_forest_view_ext(nodes@, fv.update(i as int, NodeView::Host(hv)));
            }
            return Ok(());
        }
        i = i + 1;
    }
    let mut h = h;
    let mut j: usize = 0;
    while j < nodes.len()
        invariant
            j <= nodes@.len(),
            h == h0,
            h0 == host,
            nodes@.len() == old(nodes)@.len(),
            fv == forest_view(old(nodes)@),
            fv.len() == nodes@.len(),
            forall|k: int| 0 <= k < nodes@.len() ==> #[trigger] fv[k] == node_view(nodes@[k]),
            forall|k: int| j <= k < nodes@.len() ==> #[trigger] nodes@[k] == old(nodes)@[k],
            host_pos_from(fv, id@, 0) is None,
            replaced_in_folders(fv, id@, h0, j as int) == replaced_host(fv, id@, h0),
        decreases nodes@.len() - j,
    {
        let ghost before = nodes@;
        let node = nodes.remove(j);
        match node {
            ConfigNode::Folder { id: fid, name, icon, color, mut children } => {
                proof { assert(decreases_to!(old(nodes)@ => old(nodes)@[j as int])); }
                let ghost old_children = children@;
                let ghost fview = (fid@, name@, text_opt(icon), text_opt(color));
                let found = replace_host_in(&mut children, id, h);
                let ghost new_children = children@;
                nodes.insert(j, ConfigNode::Folder { id: fid, name, icon, color, children });
                proof {
                    assert(nodes@ =~= before.update(j as int, nodes@[j as int]));
                    assert(fv[j as int] == NodeView::Folder {
                        id: fview.0, name: fview.1, icon: fview.2, color: fview.3, children: forest_view(old_children),
                    });
                    assert(node_view(nodes@[j as int]) == NodeView::Folder {
                        id: fview.0, name: fview.1, icon: fview.2, color: fview.3, children: forest_view(new_children),
                    });
                }
                match found {
                    Ok(()) => {
                        proof {
                            assert(replaced_in_folders(fv, id@, h0, j as int)
                                == Some(fv.update(j as int, node_view(nodes@[j as int]))));
                            lemma_forest_view_ext(nodes@, fv.update(j as int, node_view(nodes@[j as int])));
                            assert(forest_view(nodes@) == fv.update(j as int, node_view(nodes@[j as int])));
                            assert(replaced_host(fv, id@, h0) == Some(forest_view(nodes@)));
                            assert(forest_view(nodes@) == fv.update(j as int, node_view(nodes@[j as int])));
                            assert(replaced_host(fv, id@, h0) == Some(forest_view(nodes@)));
                        }
                        return Ok(());
                    },
                    Err(back) => {
                        h = back;
                    },
                }
            },
            ConfigNode::Host(x) => {
                nodes.insert(j, ConfigNode::Host(x));
                proof {
                    assert(nodes@ =~= before);
                }
            },
        }
        j = j + 1;
    }
    proof {
        lemma_forest_view_ext(nodes@, fv);
    }
    Err(h)
}

/// A copy of a list of ids.
fn copy_ids(p: &[String]) -> (r: Vec<String>)
    ensures
        r@ == p@,
{
    let mut r: Vec<String> = Vec::new();
    let mut i: usize = 0;
    while i < p.len()
        invariant
            i <= p@.len(),
            r@ == p@.take(i as int),
        decreases p@.len() - i,
    {
        r.push(p[i].clone());
        i = i + 1;
        assert(r@ =~= p@.take(i as int));
    }
    assert(p@.take(p@.len() as int) =~= p@);
    r
}

/// A copy of a folder path.
fn clone_path(p: &Vec<String>) -> (r: Vec<String>)
    ensures
        r@ == p@,
{
    let mut r: Vec<String> = Vec::new();
    let mut i: usize = 0;
    while i < p.len()
        invariant
            i <= p@.len(),
            r@ == p@.take(i as int),
        decreases p@.len() - i,
    {
        r.push(p[i].clone());
        i = i + 1;
        assert(r@ =~= p@.take(i as int));
    }
    assert(p@.take(p@.len() as int) =~= p@);
    r
}

/// Appends the hosts of `nodes` with their paths below `path` to `results`.
fn collect_hosts<'a>(nodes: &'a Vec<ConfigNode>, path: &Vec<String>, results: &mut Vec<(&'a HostProfile, Vec<String>)>)
    ensures
        final(results)@.len() == old(results)@.len() + hosts_with_paths(forest_view(nodes@), texts(path@)).len(),
        forall|k: int| 0 <= k < old(results)@.len() ==> #[trigger] final(results)@[k] == old(results)@[k],
        forall|k: int| 0 <= k < hosts_with_paths(forest_view(nodes@), texts(path@)).len() ==>
            (*final(results)@[old(results)@.len() + k].0, texts(final(results)@[old(results)@.len() + k].1@))
                == #[trigger] hosts_with_paths(forest_view(nodes@), texts(path@))[k],
    decreases nodes@,
{
    let ghost pv = texts(path@);
    let ghost fv = forest_view(nodes@);
    proof { lemma_forest_view(nodes@); }
    let ghost start = results@.len();
    let mut i: usize = 0;
    assert(fv.skip(0) =~= fv);
    while i < nodes.len()
        invariant
            i <= nodes@.len(),
            pv == texts(path@),
            fv == forest_view(nodes@),
            fv.len() == nodes@.len(),
            forall|k: int| 0 <= k < nodes@.len() ==> #[trigger] fv[k] == node_view(nodes@[k]),
            start == old(results)@.len(),
            start <= results@.len(),
            results@.len() + hosts_with_paths(fv.skip(i as int), pv).len()
                == start + hosts_with_paths(fv, pv).len(),
            forall|k: int| 0 <= k < start ==> #[trigger] results@[k] == old(results)@[k],
            forall|k: int| 0 <= k < results@.len() - start ==>
                (*results@[start + k].0, texts(results@[start + k].1@)) == #[trigger] hosts_with_paths(fv, pv)[k],
            forall|k: int| 0 <= k < hosts_with_paths(fv.skip(i as int), pv).len() ==>
                #[trigger] hosts_with_paths(fv.skip(i as int), pv)[k] == hosts_with_paths(fv, pv)[results@.len() - start + k],
        decreases nodes@.len() - i,
    {
        proof { lemma_skip_unfold(fv, i as int); }
        let ghost before = results@;
        let ghost here = node_hosts_with_paths(fv[i as int], pv);
        let ghost rest = hosts_with_paths(fv.skip(i + 1), pv);
        assert(hosts_with_paths(fv.skip(i as int), pv) == here + rest);
        match &nodes[i] {
            ConfigNode::Host(h) => {
                results.push((h, clone_path(path)));
                assert(here =~= seq![(*h, pv)]);
            },
            ConfigNode::Folder { name, children, .. } => {
                let mut next = clone_path(path);
                next.push(name.clone());
                assert(texts(next@) =~= pv.push(name@));
                proof { assert(decreases_to!(nodes@ => nodes@[i as int])); }
                collect_hosts(children, &next, results);
            },
        }
        assert forall|k: int| 0 <= k < results@.len() - start implies
            (*results@[start + k].0, texts(results@[start + k].1@)) == #[trigger] hosts_with_paths(fv, pv)[k] by {
            if k >= before.len() - start {
                let m = k - (before.len() - start);
                assert(hosts_with_paths(fv.skip(i as int), pv)[m] == here[m]);
            }
        }
        assert forall|k: int| 0 <= k < rest.len() implies
            #[trigger] rest[k] == hosts_with_paths(fv, pv)[results@.len() - start + k] by {
            assert(hosts_with_paths(fv.skip(i as int), pv)[here.len() + k] == rest[k]);
        }
        i = i + 1;
    }
}

/// The saved hosts and bridges.
pub struct AppConfig {
    pub root_nodes: Vec<ConfigNode>,
    pub bridges: Vec<BridgeProfile>,
}

impl Default for AppConfig {
    fn default() -> (c: AppConfig)
        ensures
            c.root_nodes@.len() == 0,
            c.bridges@.len() == 0,
    {
        AppConfig { root_nodes: Vec::new(), bridges: Vec::new() }
    }
}

impl AppConfig {
    /// The first host, in tree order, whose id is `host_id`.
    pub fn find_host(&self, host_id: &str) -> (r: Option<&HostProfile>)
        ensures
            match r {
                Some(h) => first_host_with(hosts(forest_view(self.root_nodes@)), host_id@) == Some(*h),
                None => first_host_with(hosts(forest_view(self.root_nodes@)), host_id@) is None,
            },
    {
        search_host(&self.root_nodes, host_id)
    }

    /// The first host, in tree order, named `name` (how a terminal window
    /// finds the saved host it was opened for).
    pub fn find_host_by_name(&self, name: &str) -> (r: Option<&HostProfile>)
        ensures
            match r {
                Some(h) => first_host_named(hosts(forest_view(self.root_nodes@)), name@) == Some(*h),
                None => first_host_named(hosts(forest_view(self.root_nodes@)), name@) is None,
            },
    {
        search_host_named(&self.root_nodes, name)
    }

    /// The first bridge whose id is `id`.
    pub fn find_bridge(&self, id: &uuid::Uuid) -> (r: Option<&BridgeProfile>)
        ensures
            match r {
                Some(b) => exists|k: int| 0 <= k < self.bridges@.len() && self.bridges@[k] == *b && b.id == *id
                    && forall|j: int| 0 <= j < k ==> (#[trigger] self.bridges@[j]).id != *id,
                None => forall|k: int| 0 <= k < self.bridges@.len() ==> (#[trigger] self.bridges@[k]).id != *id,
            },
    {
        let mut i: usize = 0;
        while i < self.bridges.len()
            invariant
                i <= self.bridges@.len(),
                forall|j: int| 0 <= j < i ==> (#[trigger] self.bridges@[j]).id != *id,
            decreases self.bridges@.len() - i,
        {
            if uuid_eq(&self.bridges[i].id, id) {
                return Some(&self.bridges[i]);
            }
            i = i + 1;
        }
        None
    }

    /// Puts `host` in place of the host `host_id` (the one `delete_host_by_id`
    /// would take, see `replaced_host`), keeping its place in the tree; gives
    /// `host` back when there is no such host.
    pub fn replace_host(&mut self, host_id: &str, host: HostProfile) -> (r: Result<(), HostProfile>)
        ensures
            final(self).bridges == old(self).bridges,
            match r {
                Ok(()) => replaced_host(forest_view(old(self).root_nodes@), host_id@, host)
                    == Some(forest_view(final(self).root_nodes@)),
                Err(back) => back == host && replaced_host(forest_view(old(self).root_nodes@), host_id@, host) is None
                    && forest_view(final(self).root_nodes@) == forest_view(old(self).root_nodes@),
            },
    {
        replace_host_in(&mut self.root_nodes, host_id, host)
    }

    /// Adds an empty folder with a fresh id and the trimmed `name`: at the
    /// end of the root (`parent_id` absent) or as the last child of the root
    /// folder `parent_id`.  Folders nest two deep at most, so a subfolder as
    /// parent is an error (see `parent_slot_from`), as are a missing parent
    /// and an empty name.  Gives the new folder's id.
    pub fn add_folder(&mut self, parent_id: Option<&str>, name: String, icon: Option<String>, color: Option<String>) -> (r: Result<String, String>)
        ensures
            final(self).bridges == old(self).bridges,
            trim(name@).len() == 0 ==> (r matches Err(e) && e@ == "O nome da pasta não pode ser vazio."@
                && forest_view(final(self).root_nodes@) == forest_view(old(self).root_nodes@)),
            trim(name@).len() > 0 ==> match parent_id {
                None => r matches Ok(nid) && nid@.len() == 36 && forest_view(final(self).root_nodes@)
                    == forest_view(old(self).root_nodes@).push(new_folder(nid@, trim(name@), text_opt(icon), text_opt(color))),
                Some(pid) => match parent_slot_from(forest_view(old(self).root_nodes@), pid@, 0) {
                    ParentSlot::At(j) => r matches Ok(nid) && nid@.len() == 36 && forest_view(final(self).root_nodes@)
                        == forest_view(old(self).root_nodes@).update(j, with_child(forest_view(old(self).root_nodes@)[j],
                            new_folder(nid@, trim(name@), text_opt(icon), text_opt(color)))),
                    ParentSlot::TooDeep => r matches Err(e)
                        && e@ == "Limite atingido: é permitida apenas a criação de uma pasta principal e de uma subpasta apenas."@
                        && forest_view(final(self).root_nodes@) == forest_view(old(self).root_nodes@),
                    ParentSlot::Missing => r matches Err(e) && e@ == "Pasta pai não encontrada."@
                        && forest_view(final(self).root_nodes@) == forest_view(old(self).root_nodes@),
                },
            },
    {
        let trimmed_name = trimmed(name.as_str());
        if trimmed_name.as_str().is_empty() {
            return Err("O nome da pasta não pode ser vazio.".to_owned());
        }
        let new_id = generate_node_id();
        let new_node = ConfigNode::Folder { id: new_id.clone(), name: trimmed_name, icon, color, children: Vec::new() };
        proof {
            lemma_forest_view(Seq::<ConfigNode>::empty());
            assert(node_view(new_node) == new_folder(new_id@, trim(name@), text_opt(icon), text_opt(color)));
        }
        let ghost fv = forest_view(self.root_nodes@);
        proof { lemma_forest_view(self.root_nodes@); }
        match parent_id {
            None => {
                self.root_nodes.push(new_node);
                proof { lemma_forest_view_ext(self.root_nodes@, fv.push(node_view(new_node))); }
                Ok(new_id)
            },
            Some(pid) => {
                let mut j: usize = 0;
                while j < self.root_nodes.len()
                    invariant
                        j <= self.root_nodes@.len(),
                        fv == forest_view(self.root_nodes@),
                        fv.len() == self.root_nodes@.len(),
                        forall|k: int| 0 <= k < self.root_nodes@.len() ==> #[trigger] fv[k] == node_view(self.root_nodes@[k]),
                        parent_slot_from(fv, pid@, j as int) == parent_slot_from(fv, pid@, 0),
                        self.bridges == old(self).bridges,
                        fv == forest_view(old(self).root_nodes@),
                        node_view(new_node) == new_folder(new_id@, trim(name@), text_opt(icon), text_opt(color)),
                        new_id@.len() == 36,
                        trim(name@).len() > 0,
                        parent_id == Some(pid),
                    decreases self.root_nodes@.len() - j,
                {
                    let (is_parent, too_deep) = match &self.root_nodes[j] {
                        ConfigNode::Folder { id, children, .. } => {
                            if same_text(id.as_str(), pid) {
                                (true, false)
                            } else {
                                (false, folder_pos(children, pid).is_some())
                            }
                        },
                        ConfigNode::Host(_) => (false, false),
                    };
                    if is_parent {
                        let ghost before = self.root_nodes@;
                        let node = self.root_nodes.remove(j);
                        match node {
                            ConfigNode::Folder { id, name: fname, icon: ficon, color: fcolor, children } => {
                                let mut children = children;
                                let ghost kids = children@;
                                children.push(new_node);
                                proof {
                                    lemma_forest_view(kids);
                                    lemma_forest_view_ext(children@, forest_view(kids).push(node_view(new_node)));
                                }
                                self.root_nodes.insert(j, ConfigNode::Folder { id, name: fname, icon: ficon, color: fcolor, children });
                                proof {
                                    assert(self.root_nodes@ =~= before.update(j as int, self.root_nodes@[j as int]));
                                    lemma_forest_view_ext(self.root_nodes@, fv.update(j as int, node_view(self.root_nodes@[j as int])));
                                }
                                return Ok(new_id);
                            },
                            ConfigNode::Host(h) => {
                                proof { assert(false); }
                                self.root_nodes.insert(j, ConfigNode::Host(h));
                                return Err("Pasta pai não encontrada.".to_owned());
                            },
                        }
                    }
                    if too_deep {
                        proof {
                            let q = folder_pos_from(fv[j as int]->children, pid@, 0)->0;
                            lemma_folder_pos_from(fv[j as int]->children, pid@, 0);
                            assert(is_folder_with((fv[j as int]->children)[q], pid@));
                        }
                        return Err("Limite atingido: é permitida apenas a criação de uma pasta principal e de uma subpasta apenas.".to_owned());
                    }
                    proof {
                        if fv[j as int] is Folder {
                            lemma_folder_pos_from(fv[j as int]->children, pid@, 0);
                        }
                    }
                    j = j + 1;
                }
                Err("Pasta pai não encontrada.".to_owned())
            },
        }
    }

    /// Deletes the folder `folder_id` (a root folder first, otherwise a
    /// subfolder of a root folder; see `folder_deleted`).  With
    /// `keep_contents` its children take its place; otherwise they go with
    /// it.  A missing folder is an error.
    pub fn delete_folder(&mut self, folder_id: &str, keep_contents: bool) -> (r: Result<(), String>)
        ensures
            final(self).bridges == old(self).bridges,
            match folder_deleted(forest_view(old(self).root_nodes@), folder_id@, keep_contents) {
                Some(t) => r is Ok && forest_view(final(self).root_nodes@) == t,
                None => r matches Err(e) && e@ == "Pasta não encontrada."@
                    && forest_view(final(self).root_nodes@) == forest_view(old(self).root_nodes@),
            },
    {
        let ghost fv = forest_view(self.root_nodes@);
        proof { lemma_forest_view(self.root_nodes@); }
        if let Some(p) = folder_pos(&self.root_nodes, folder_id) {
            proof { lemma_folder_pos_from(fv, folder_id@, 0); }
            splice_folder(&mut self.root_nodes, p, keep_contents);
            return Ok(());
        }
        let mut j: usize = 0;
        while j < self.root_nodes.len()
            invariant
                j <= self.root_nodes@.len(),
                fv == forest_view(self.root_nodes@),
                fv == forest_view(old(self).root_nodes@),
                fv.len() == self.root_nodes@.len(),
                forall|k: int| 0 <= k < self.root_nodes@.len() ==> #[trigger] fv[k] == node_view(self.root_nodes@[k]),
                folder_pos_from(fv, folder_id@, 0) is None,
                nested_folder_from(fv, folder_id@, j as int) == nested_folder_from(fv, folder_id@, 0),
                self.bridges == old(self).bridges,
            decreases self.root_nodes@.len() - j,
        {
            let q = match &self.root_nodes[j] {
                ConfigNode::Folder { children, .. } => folder_pos(children, folder_id),
                ConfigNode::Host(_) => None,
            };
            if let Some(q) = q {
                let ghost before = self.root_nodes@;
                let node = self.root_nodes.remove(j);
                match node {
                    ConfigNode::Folder { id, name, icon, color, children } => {
                        let mut children = children;
                        proof {
                            lemma_forest_view(children@);
                            lemma_folder_pos_from(forest_view(children@), folder_id@, 0);
                        }
                        splice_folder(&mut children, q, keep_contents);
                        self.root_nodes.insert(j, ConfigNode::Folder { id, name, icon, color, children });
                        proof {
                            assert(self.root_nodes@ =~= before.update(j as int, self.root_nodes@[j as int]));
                            lemma_forest_view_ext(self.root_nodes@, fv.update(j as int, node_view(self.root_nodes@[j as int])));
                        }
                        return Ok(());
                    },
                    ConfigNode::Host(h) => {
                        proof { assert(false); }
                        self.root_nodes.insert(j, ConfigNode::Host(h));
                        return Err("Pasta não encontrada.".to_owned());
                    },
                }
            }
            j = j + 1;
        }
        Err("Pasta não encontrada.".to_owned())
    }

    /// Renames the first folder, in tree order, whose id is `folder_id`, and
    /// sets its icon and colour (see `edited_tree`).  The name is trimmed; an
    /// empty name and a missing folder are errors.
    pub fn update_folder(&mut self, folder_id: &str, name: String, icon: Option<String>, color: Option<String>) -> (r: Result<(), String>)
        ensures
            final(self).bridges == old(self).bridges,
            trim(name@).len() == 0 ==> (r matches Err(e) && e@ == "O nome da pasta não pode ser vazio."@
                && forest_view(final(self).root_nodes@) == forest_view(old(self).root_nodes@)),
            trim(name@).len() > 0 ==> match edited_tree(forest_view(old(self).root_nodes@), folder_id@,
                EditView::Rename { name: trim(name@), icon: text_opt(icon), color: text_opt(color) }) {
                Some(t) => r is Ok && forest_view(final(self).root_nodes@) == t,
                None => r matches Err(e) && e@ == "Pasta não encontrada."@
                    && forest_view(final(self).root_nodes@) == forest_view(old(self).root_nodes@),
            },
    {
        let trimmed_name = trimmed(name.as_str());
        if trimmed_name.as_str().is_empty() {
            return Err("O nome da pasta não pode ser vazio.".to_owned());
        }
        match edit_first_folder(&mut self.root_nodes, folder_id, FolderEdit::Rename { name: trimmed_name, icon, color }) {
            Ok(()) => Ok(()),
            Err(_) => Err("Pasta não encontrada.".to_owned()),
        }
    }

    /// Moves the host `host_id` (taken out as `removed_host` says) to the
    /// root (`target_folder_id` absent) or into the first folder, in tree
    /// order, with that id, at `target_index` (the end when absent or past
    /// the end).  When the folder does not exist the host is put at the end
    /// of the root and an error is returned; an unknown host is an error
    /// that changes nothing.
    pub fn move_host(&mut self, host_id: &str, target_folder_id: Option<&str>, target_index: Option<usize>) -> (r: Result<(), String>)
        ensures
            final(self).bridges == old(self).bridges,
            match removed_host(forest_view(old(self).root_nodes@), host_id@) {
                None => r matches Err(e) && e@ == "Host não encontrado."@
                    && forest_view(final(self).root_nodes@) == forest_view(old(self).root_nodes@),
                Some((rest, h)) => match target_folder_id {
                    None => r is Ok && forest_view(final(self).root_nodes@)
                        == rest.insert(insert_index(target_index, rest.len()), NodeView::Host(h)),
                    Some(tfid) => match edited_tree(rest, tfid@, EditView::InsertHost { host: h, index: target_index }) {
                        Some(t) => r is Ok && forest_view(final(self).root_nodes@) == t,
                        None => r matches Err(e) && e@ == "Pasta de destino não encontrada."@
                            && forest_view(final(self).root_nodes@) == rest.push(NodeView::Host(h)),
                    },
                },
            },
    {
        let host = match remove_host_from(&mut self.root_nodes, host_id) {
            Some(h) => h,
            None => return Err("Host não encontrado.".to_owned()),
        };
        let ghost rest = self.root_nodes@;
        match target_folder_id {
            None => {
                let len = self.root_nodes.len();
                let idx = match target_index {
                    Some(i) => if i < len { i } else { len },
                    None => len,
                };
                self.root_nodes.insert(idx, ConfigNode::Host(host));
                proof {
                    lemma_forest_view(rest);
                    lemma_forest_view_ext(self.root_nodes@, forest_view(rest).insert(idx as int, NodeView::Host(host)));
                }
                Ok(())
            },
            Some(tfid) => {
                match edit_first_folder(&mut self.root_nodes, tfid, FolderEdit::InsertHost { host, index: target_index }) {
                    Ok(()) => Ok(()),
                    Err(back) => {
                        let ghost mid = self.root_nodes@;
                        match back {
                            FolderEdit::InsertHost { host: h, .. } => {
                                self.root_nodes.push(ConfigNode::Host(h));
                                proof {
                                    lemma_forest_view(mid);
                                    lemma_forest_view(rest);
                                    lemma_forest_view_ext(self.root_nodes@, forest_view(rest).push(NodeView::Host(h)));
                                }
                            },
                            _ => {},
                        }
                        Err("Pasta de destino não encontrada.".to_owned())
                    },
                }
            },
        }
    }

    /// Reorders the root (`parent_id` absent) or the children of the first
    /// folder, in tree order, with id `parent_id` by `order_ids` (see
    /// `reordered`); a missing folder is an error.
    pub fn reorder_nodes(&mut self, parent_id: Option<&str>, order_ids: &[String]) -> (r: Result<(), String>)
        ensures
            final(self).bridges == old(self).bridges,
            match parent_id {
                None => r is Ok && forest_view(final(self).root_nodes@)
                    == reordered(forest_view(old(self).root_nodes@), texts(order_ids@)),
                Some(pid) => match edited_tree(forest_view(old(self).root_nodes@), pid@, EditView::Reorder { ids: texts(order_ids@) }) {
                    Some(t) => r is Ok && forest_view(final(self).root_nodes@) == t,
                    None => r matches Err(e) && e@ == "Pasta não encontrada para reordenação."@
                        && forest_view(final(self).root_nodes@) == forest_view(old(self).root_nodes@),
                },
            },
    {
        let ids = copy_ids(order_ids);
        match parent_id {
            None => {
                let mut nodes: Vec<ConfigNode> = Vec::new();
                std::mem::swap(&mut nodes, &mut self.root_nodes);
                self.root_nodes = reorder_children(nodes, ids.as_slice());
                Ok(())
            },
            Some(pid) => {
                match edit_first_folder(&mut self.root_nodes, pid, FolderEdit::Reorder { ids }) {
                    Ok(()) => Ok(()),
                    Err(_) => Err("Pasta não encontrada para reordenação.".to_owned()),
                }
            },
        }
    }

    /// Deletes the bridge at `index` (nothing happens past the end); the root
    /// hosts that went through it lose the bridge and are pinged again.
    pub fn delete_bridge(&mut self, index: usize)
        ensures
            index < old(self).bridges@.len() ==> final(self).bridges@ == old(self).bridges@.remove(index as int)
                && forest_view(final(self).root_nodes@)
                    == unbridged(forest_view(old(self).root_nodes@), old(self).bridges@[index as int].id),
            index >= old(self).bridges@.len() ==> final(self).bridges@ == old(self).bridges@
                && forest_view(final(self).root_nodes@) == forest_view(old(self).root_nodes@),
    {
        if index >= self.bridges.len() {
            return;
        }
        let deleted_id = self.bridges[index].id;
        let _ = self.bridges.remove(index);
        let ghost fv = forest_view(self.root_nodes@);
        proof { lemma_forest_view(self.root_nodes@); }
        let mut j: usize = 0;
        while j < self.root_nodes.len()
            invariant
                j <= self.root_nodes@.len(),
                fv.len() == self.root_nodes@.len(),
                fv == forest_view(old(self).root_nodes@),
                forall|k: int| 0 <= k < j ==> #[trigger] node_view(self.root_nodes@[k]) == unbridged(fv, deleted_id)[k],
                forall|k: int| j <= k < self.root_nodes@.len() ==> #[trigger] node_view(self.root_nodes@[k]) == fv[k],
                index < old(self).bridges@.len(),
                self.bridges@ == old(self).bridges@.remove(index as int),
                deleted_id == old(self).bridges@[index as int].id,
            decreases self.root_nodes@.len() - j,
        {
            let ghost before = self.root_nodes@;
            assert(node_view(before[j as int]) == fv[j as int]);
            let node = self.root_nodes.remove(j);
            match node {
                ConfigNode::Host(h) => {
                    assert(fv[j as int] == NodeView::Host(h));
                    self.root_nodes.insert(j, ConfigNode::Host(unbridge_host(h, &deleted_id)));
                },
                ConfigNode::Folder { id, name, icon, color, children } => {
                    self.root_nodes.insert(j, ConfigNode::Folder { id, name, icon, color, children });
                },
            }
            proof {
                assert(self.root_nodes@ =~= before.update(j as int, self.root_nodes@[j as int]));
                assert(node_view(self.root_nodes@[j as int]) == unbridged(fv, deleted_id)[j as int]);
            }
            j = j + 1;
        }
        proof {
            lemma_forest_view_ext(self.root_nodes@, unbridged(fv, deleted_id));
        }
    }

    /// Removes the host `host_id` from the tree (see `removed_host`); an error
    /// when there is none.
    pub fn delete_host_by_id(&mut self, host_id: &str) -> (r: Result<(), String>)
        ensures
            final(self).bridges == old(self).bridges,
            match removed_host(forest_view(old(self).root_nodes@), host_id@) {
                Some((rest, _)) => r is Ok && forest_view(final(self).root_nodes@) == rest,
                None => r matches Err(e) && e@ == "Host não encontrado para exclusão."@
                    && forest_view(final(self).root_nodes@) == forest_view(old(self).root_nodes@),
            },
    {
        match remove_host_from(&mut self.root_nodes, host_id) {
            Some(_) => Ok(()),
            None => Err("Host não encontrado para exclusão.".to_owned()),
        }
    }

    /// Every host in tree order, each with the names of the folders above it
    /// (outermost first).
    pub fn get_all_hosts_with_path(&self) -> (r: Vec<(&HostProfile, Vec<String>)>)
        ensures
            r@.len() == hosts_with_paths(forest_view(self.root_nodes@), seq![]).len(),
            forall|k: int| 0 <= k < r@.len() ==>
                (*r@[k].0, texts(r@[k].1@)) == #[trigger] hosts_with_paths(forest_view(self.root_nodes@), seq![])[k],
    {
        let mut results: Vec<(&HostProfile, Vec<String>)> = Vec::new();
        let path: Vec<String> = Vec::new();
        assert(texts(path@) =~= Seq::<Seq<char>>::empty());
        collect_hosts(&self.root_nodes, &path, &mut results);
        results
    }
}

} // verus!
