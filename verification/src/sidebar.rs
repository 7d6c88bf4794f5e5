//! The sidebar's note tree: which nodes are shown, at what depth and in which
//! state, and the window of at most three levels kept around the selected note.

use vstd::prelude::*;
use crate::note::NoteId;
use crate::notebook::{ancestor_chain, ancestor_path, deref_nodes, Notebook};

verus! {

/// How many nesting levels the sidebar shows at once. Opening a deeper note
/// re-roots the view so the note stays within this window.
pub const TREE_MAX_LEVELS: usize = 3;

/// Are a node's children shown below it: it has some, it is not collapsed, and
/// they stay within the visible levels?
pub open spec fn shows_children(nb: Notebook, depth: int, collapsed: Seq<NoteId>) -> bool {
    &&& nb.children.len() > 0
    &&& !collapsed.contains(nb.note->0.id)
    &&& depth + 1 < 3
}

/// The rows a subtree shows, as (node, depth) pairs, depth-first: a node with a
/// note shows itself, then its children when expanded; a node without a note
/// shows nothing.
pub open spec fn tree_visits(nb: Notebook, depth: int, collapsed: Seq<NoteId>) -> Seq<(Notebook, int)>
    decreases nb,
{
    match nb.note {
        None => Seq::empty(),
        Some(_) => seq![(nb, depth)] + (if shows_children(nb, depth, collapsed) {
            forest_visits(nb.children@, depth + 1, collapsed)
        } else {
            Seq::empty()
        }),
    }
}

/// The rows of sibling subtrees, in order.
pub open spec fn forest_visits(cs: Seq<Notebook>, depth: int, collapsed: Seq<NoteId>) -> Seq<
    (Notebook, int),
>
    decreases cs,
{
    if cs.len() == 0 {
        Seq::empty()
    } else {
        tree_visits(cs[0], depth, collapsed) + forest_visits(cs.drop_first(), depth, collapsed)
    }
}

proof fn lemma_forest_visits_push(cs: Seq<Notebook>, c: Notebook, depth: int, collapsed: Seq<NoteId>)
    ensures
        forest_visits(cs.push(c), depth, collapsed) == forest_visits(cs, depth, collapsed)
            + tree_visits(c, depth, collapsed),
    decreases cs.len(),
{
    if cs.len() == 0 {
        assert(cs.push(c).drop_first() == Seq::<Notebook>::empty());
        assert(forest_visits(cs.push(c), depth, collapsed) == tree_visits(c, depth, collapsed)
            + forest_visits(Seq::<Notebook>::empty(), depth, collapsed));
    } else {
        assert(cs.push(c).drop_first() == cs.drop_first().push(c));
        lemma_forest_visits_push(cs.drop_first(), c, depth, collapsed);
    }
}

/// One visible row of the note tree.
pub struct TreeRow<'a> {
    /// Nesting level within the window (0 = top).
    pub depth: usize,
    /// The node shown (it has a note).
    pub node: &'a Notebook,
    /// Is this the selected note?
    pub selected: bool,
    /// Is this note on the path from the top to the selected note?
    pub on_path: bool,
    /// Is the node expanded (not collapsed by the user)?
    pub expanded: bool,
    /// At the deepest visible level a parent cannot expand in place: opening it
    /// re-roots the window onto its children.
    pub drillable: bool,
}

/// The node and depth a row shows.
pub open spec fn row_visit(r: TreeRow) -> (Notebook, int) {
    (*r.node, r.depth as int)
}

/// The row states follow from the selection, the selected path and the collapsed set.
pub open spec fn row_states_ok(r: TreeRow, path: Seq<NoteId>, selected: Option<NoteId>, collapsed: Seq<
    NoteId,
>) -> bool {
    let id = r.node.note->0.id;
    &&& r.node.note is Some
    &&& r.selected == (selected == Some(id))
    &&& r.on_path == path.contains(id)
    &&& r.expanded == !collapsed.contains(id)
    &&& r.drillable == (r.node.children.len() > 0 && r.depth + 1 >= 3)
}

/// Is `id` in the list?
pub fn contains_id(v: &Vec<NoteId>, id: NoteId) -> (r: bool)
    ensures
        r == v@.contains(id),
{
    let mut k: usize = 0;
    while k < v.len()
        invariant
            k <= v.len(),
            forall|j: int| 0 <= j < k ==> v@[j] != id,
        decreases v.len() - k,
    {
        if v[k] == id {
            return true;
        }
        k += 1;
    }
    false
}

/// Append the rows of the subtree at `node`, shown at `depth`.
pub fn push_tree_rows<'a>(
    node: &'a Notebook,
    depth: usize,
    path: &Vec<NoteId>,
    selected: Option<NoteId>,
    collapsed: &Vec<NoteId>,
    out: &mut Vec<TreeRow<'a>>,
)
    requires
        depth < 3,
        forall|i: int| 0 <= i < old(out)@.len() ==> row_states_ok(#[trigger] old(out)@[i], path@, selected, collapsed@),
    ensures
        final(out)@.map_values(|r: TreeRow<'a>| row_visit(r)) == old(out)@.map_values(
            |r: TreeRow<'a>| row_visit(r),
        ) + tree_visits(*node, depth as int, collapsed@),
        forall|i: int| 0 <= i < final(out)@.len() ==> row_states_ok(#[trigger] final(out)@[i], path@, selected, collapsed@),
    decreases node,
{
    let ghost start = out@.map_values(|r: TreeRow<'a>| row_visit(r));
    let n = match &node.note {
        Some(n) => n,
        None => {
            assert(out@.map_values(|r: TreeRow<'a>| row_visit(r)) == start + Seq::<(Notebook, int)>::empty());
            return;
        },
    };
    let id = n.id;
    let expanded = !contains_id(collapsed, id);
    let has_children = node.children.len() > 0;
    let row = TreeRow {
        depth,
        node,
        selected: selected == Some(id),
        on_path: contains_id(path, id),
        expanded,
        drillable: has_children && depth + 1 >= TREE_MAX_LEVELS,
    };
    out.push(row);
    assert(out@.map_values(|r: TreeRow<'a>| row_visit(r)) == start + seq![(*node, depth as int)]);
    let ghost mid = out@.map_values(|r: TreeRow<'a>| row_visit(r));
    if has_children && expanded && depth + 1 < TREE_MAX_LEVELS {
        let mut k: usize = 0;
        while k < node.children.len()
            invariant
                k <= node.children.len(),
                depth + 1 < 3,
                out@.map_values(|r: TreeRow<'a>| row_visit(r)) == mid + forest_visits(
                    node.children@.take(k as int),
                    depth + 1,
                    collapsed@,
                ),
                forall|i: int| 0 <= i < out@.len() ==> row_states_ok(#[trigger] out@[i], path@, selected, collapsed@),
            decreases node.children.len() - k,
        {
            push_tree_rows(&node.children[k], depth + 1, path, selected, collapsed, out);
            proof {
                let c = node.children@[k as int];
                assert(node.children@.take(k + 1) == node.children@.take(k as int).push(c));
                lemma_forest_visits_push(node.children@.take(k as int), c, depth + 1, collapsed@);
            }
            k += 1;
        }
        assert(node.children@.take(node.children.len() as int) == node.children@);
    } else {
        assert(mid + Seq::<(Notebook, int)>::empty() == mid);
    }
}

proof fn lemma_path_has_notes(nb: Notebook, id: NoteId)
    ensures
        ancestor_path(nb, id) matches Some(p) ==> forall|j: int| 0 <= j < p.len() ==> (#[trigger] p[j]).note is Some,
    decreases nb,
{
    lemma_forest_path_has_notes(nb.children@, id);
    if let Some(p) = ancestor_path(nb, id) {
        if !(nb.note is Some && nb.note->0.id == id) {
            let q = crate::notebook::forest_path(nb.children@, id)->0;
            assert forall|j: int| 0 <= j < p.len() implies (#[trigger] p[j]).note is Some by {
                if nb.note is Some {
                    if j < q.len() {
                        assert(p[j] == q[j]);
                    }
                } else {
                    assert(p[j] == q[j]);
                }
            }
        }
    }
}

proof fn lemma_forest_path_has_notes(cs: Seq<Notebook>, id: NoteId)
    ensures
        crate::notebook::forest_path(cs, id) matches Some(p) ==> forall|j: int| 0 <= j < p.len() ==> (#[trigger] p[j]).note is Some,
    decreases cs,
{
    if cs.len() > 0 {
        lemma_path_has_notes(cs[0], id);
        lemma_forest_path_has_notes(cs.drop_first(), id);
    }
}

/// The ids of the notes of a chain of nodes.
pub open spec fn chain_ids(chain: Seq<Notebook>) -> Seq<NoteId> {
    chain.map_values(|n: Notebook| n.note->0.id)
}

/// What the sidebar shows: the breadcrumb of ancestors trimmed off the top of the
/// window, and the tree rows under the window's root.
pub struct SidebarView<'a> {
    pub crumbs: Vec<&'a Notebook>,
    pub rows: Vec<TreeRow<'a>>,
}

/// The top-down chain of note-nodes to the selected note, if it is in the vault.
pub open spec fn selected_chain(vault: Notebook, selected: Option<NoteId>) -> Seq<Notebook> {
    match selected {
        Some(id) => match ancestor_path(vault, id) {
            Some(p) => p.reverse(),
            None => Seq::empty(),
        },
        None => Seq::empty(),
    }
}

/// The window's root: the vault, or (when the selected note is three or more
/// levels deep) the ancestor three levels above the bottom of its chain.
pub open spec fn window_root(vault: Notebook, chain: Seq<Notebook>) -> Notebook {
    if chain.len() >= 3 {
        chain[chain.len() - 3]
    } else {
        vault
    }
}

/// The sidebar's content for `vault` with `selected` open and `collapsed` nodes:
/// the trimmed ancestors (top-level first, down to and including the window's
/// root) and the rows of the window root's children.
pub fn sidebar_view<'a>(vault: &'a Notebook, selected: Option<NoteId>, collapsed: &Vec<NoteId>) -> (r:
    SidebarView<'a>)
    ensures
        ({
            let chain = selected_chain(*vault, selected);
            &&& deref_nodes(r.crumbs@) == (if chain.len() >= 3 {
                chain.take(chain.len() - 2)
            } else {
                Seq::empty()
            })
            &&& r.rows@.map_values(|x: TreeRow<'a>| row_visit(x)) == forest_visits(
                window_root(*vault, chain).children@,
                0,
                collapsed@,
            )
            &&& forall|i: int| 0 <= i < r.rows@.len() ==> row_states_ok(
                #[trigger] r.rows@[i],
                chain_ids(chain),
                selected,
                collapsed@,
            )
        }),
{
    let mut deep: Vec<&'a Notebook> = Vec::new();
    let ghost chain = selected_chain(*vault, selected);
    if let Some(id) = selected {
        let found = ancestor_chain(vault, id, &mut deep);
        assert(found ==> deref_nodes(deep@) == ancestor_path(*vault, id)->0);
        proof {
            lemma_path_has_notes(*vault, id);
        }
    }
    assert(deref_nodes(deep@).reverse() == chain);
    assert forall|j: int| 0 <= j < deep.len() implies (#[trigger] deep@[j]).note is Some by {
        assert(deref_nodes(deep@)[j] == *deep@[j]);
    }
    // Top-down chain and the ids on it.
    let n = deep.len();
    let mut top: Vec<&'a Notebook> = Vec::new();
    let mut path: Vec<NoteId> = Vec::new();
    let mut k: usize = 0;
    while k < n
        invariant
            k <= n == deep.len(),
            deref_nodes(deep@).reverse() == chain,
            deref_nodes(top@) == chain.take(k as int),
            path@ == chain_ids(chain.take(k as int)),
            forall|j: int| 0 <= j < deep.len() ==> (#[trigger] deep@[j]).note is Some,
        decreases n - k,
    {
        let node = deep[n - 1 - k];
        top.push(node);
        let nid = match &node.note {
            Some(x) => x.id,
            None => NoteId(0),
        };
        path.push(nid);
        assert(chain[k as int] == *deep@[n - 1 - k]);
        assert(chain.take(k + 1) == chain.take(k as int).push(chain[k as int]));
        assert(deref_nodes(top@) == chain.take(k + 1));
        assert(path@ == chain_ids(chain.take(k + 1)));
        k += 1;
    }
    assert(chain.take(n as int) == chain);
    let mut crumbs: Vec<&'a Notebook> = Vec::new();
    let root: &'a Notebook = if n >= TREE_MAX_LEVELS {
        let mut j: usize = 0;
        while j < n - 2
            invariant
                n >= 3,
                j <= n - 2,
                top.len() == n,
                chain.len() == n,
                deref_nodes(top@) == chain,
                deref_nodes(crumbs@) == chain.take(j as int),
            decreases n - 2 - j,
        {
            crumbs.push(top[j]);
            assert(chain.take(j + 1) == chain.take(j as int).push(chain[j as int]));
            j += 1;
        }
        top[n - 3]
    } else {
        vault
    };
    assert(*root == window_root(*vault, chain));
    let mut rows: Vec<TreeRow<'a>> = Vec::new();
    assert(rows@.map_values(|x: TreeRow<'a>| row_visit(x)) == Seq::<(Notebook, int)>::empty());
    let mut c: usize = 0;
    while c < root.children.len()
        invariant
            c <= root.children.len(),
            rows@.map_values(|x: TreeRow<'a>| row_visit(x)) == forest_visits(
                root.children@.take(c as int),
                0,
                collapsed@,
            ),
            forall|i: int| 0 <= i < rows@.len() ==> row_states_ok(#[trigger] rows@[i], path@, selected, collapsed@),
        decreases root.children.len() - c,
    {
        let ghost before = rows@.map_values(|x: TreeRow<'a>| row_visit(x));
        push_tree_rows(&root.children[c], 0, &path, selected, collapsed, &mut rows);
        proof {
            let ch = root.children@[c as int];
            assert(root.children@.take(c + 1) == root.children@.take(c as int).push(ch));
            lemma_forest_visits_push(root.children@.take(c as int), ch, 0, collapsed@);
        }
        c += 1;
    }
    assert(root.children@.take(root.children.len() as int) == root.children@);
    SidebarView { crumbs, rows }
}

} // verus!
