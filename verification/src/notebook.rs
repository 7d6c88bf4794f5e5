//! The unified vault tree: every node may back a note and may hold child notes.

use vstd::prelude::*;
use crate::note::{Note, NoteId};

verus! {

/// A node in the unified vault tree. Notes and directories are the same thing:
/// every node may back a note file **and** may have child notes.
///
/// - The **root** has `note: None` (the vault directory itself is not a note).
/// - A normal note is a node with `note: Some(..)`; its children live in a sibling
///   folder named after it (`Foo.md` → children in `Foo/`), given by `path`.
/// - A directory that contains notes but has no backing `.md` yet is a **virtual**
///   node (`is_virtual: true`): it shows as a note and materializes into a real
///   `.md` on first edit.
pub struct Notebook {
    /// Display name (note title, or folder name for the root/virtual nodes).
    pub name: String,
    /// The directory that holds this node's children.
    pub path: String,
    /// The backing note file, if any. `None` only for the root.
    pub note: Option<Note>,
    /// True when `note` is a placeholder for a folder with no `.md` file yet.
    pub is_virtual: bool,
    /// Child notes, each a node in turn.
    pub children: Vec<Notebook>,
}

/// The note this node contributes to a listing: its own note, unless it is virtual
/// and virtual nodes are excluded.
pub open spec fn own_notes(nb: Notebook, include_virtual: bool) -> Seq<Note> {
    match nb.note {
        Some(n) => if include_virtual || !nb.is_virtual {
            seq![n]
        } else {
            Seq::empty()
        },
        None => Seq::empty(),
    }
}

/// The notes of a node and all its descendants, depth-first, parent before children.
pub open spec fn tree_notes(nb: Notebook, include_virtual: bool) -> Seq<Note>
    decreases nb,
{
    own_notes(nb, include_virtual) + forest_notes(nb.children@, include_virtual)
}

/// The notes of a list of sibling subtrees, in order.
pub open spec fn forest_notes(cs: Seq<Notebook>, include_virtual: bool) -> Seq<Note>
    decreases cs,
{
    if cs.len() == 0 {
        Seq::empty()
    } else {
        tree_notes(cs[0], include_virtual) + forest_notes(cs.drop_first(), include_virtual)
    }
}

/// The first node (pre-order) whose note has id `id`.
pub open spec fn tree_find(nb: Notebook, id: NoteId) -> Option<Notebook>
    decreases nb,
{
    if nb.note is Some && nb.note->0.id == id {
        Some(nb)
    } else {
        forest_find(nb.children@, id)
    }
}

/// The first node (pre-order) among sibling subtrees whose note has id `id`.
pub open spec fn forest_find(cs: Seq<Notebook>, id: NoteId) -> Option<Notebook>
    decreases cs,
{
    if cs.len() == 0 {
        None
    } else {
        match tree_find(cs[0], id) {
            Some(n) => Some(n),
            None => forest_find(cs.drop_first(), id),
        }
    }
}

pub proof fn lemma_forest_notes_push(cs: Seq<Notebook>, c: Notebook, iv: bool)
    ensures
        forest_notes(cs.push(c), iv) == forest_notes(cs, iv) + tree_notes(c, iv),
    decreases cs.len(),
{
    if cs.len() == 0 {
        assert(cs.push(c).drop_first() == Seq::<Notebook>::empty());
        assert(forest_notes(cs.push(c), iv) == tree_notes(c, iv) + forest_notes(
            Seq::<Notebook>::empty(),
            iv,
        ));
    } else {
        assert(cs.push(c).drop_first() == cs.drop_first().push(c));
        lemma_forest_notes_push(cs.drop_first(), c, iv);
    }
}

pub proof fn lemma_forest_find_push(cs: Seq<Notebook>, c: Notebook, id: NoteId)
    ensures
        forest_find(cs.push(c), id) == (match forest_find(cs, id) {
            Some(n) => Some(n),
            None => tree_find(c, id),
        }),
    decreases cs.len(),
{
    if cs.len() == 0 {
        assert(cs.push(c).drop_first() == Seq::<Notebook>::empty());
        assert(cs.push(c)[0] == c);
        assert(forest_find(Seq::<Notebook>::empty(), id) == None::<Notebook>);
    } else {
        assert(cs.push(c).drop_first() == cs.drop_first().push(c));
        assert(cs.push(c)[0] == cs[0]);
        lemma_forest_find_push(cs.drop_first(), c, id);
    }
}

/// The plain node behind an optional node reference.
pub open spec fn deref_node(r: Option<&Notebook>) -> Option<Notebook> {
    match r {
        Some(n) => Some(*n),
        None => None,
    }
}

/// The plain notes behind a list of note references.
pub open spec fn deref_notes(v: Seq<&Note>) -> Seq<Note> {
    v.map_values(|r: &Note| *r)
}

impl Notebook {
    /// Real notes (excludes the root and virtual folder-notes), depth-first.
    pub fn real_notes(&self) -> (out: Vec<&Note>)
        ensures
            deref_notes(out@) == tree_notes(*self, false),
    {
        let mut out: Vec<&Note> = Vec::new();
        assert(deref_notes(out@) == Seq::<Note>::empty());
        self.collect(&mut out, false);
        assert(Seq::<Note>::empty() + tree_notes(*self, false) == tree_notes(*self, false));
        out
    }

    /// Every backing note including virtual folder-notes (for selection lookup).
    pub fn every_note(&self) -> (out: Vec<&Note>)
        ensures
            deref_notes(out@) == tree_notes(*self, true),
    {
        let mut out: Vec<&Note> = Vec::new();
        assert(deref_notes(out@) == Seq::<Note>::empty());
        self.collect(&mut out, true);
        assert(Seq::<Note>::empty() + tree_notes(*self, true) == tree_notes(*self, true));
        out
    }

    /// Append this subtree's notes to `out`, depth-first.
    fn collect<'a>(&'a self, out: &mut Vec<&'a Note>, include_virtual: bool)
        ensures
            deref_notes(final(out)@) == deref_notes(old(out)@) + tree_notes(*self, include_virtual),
        decreases self,
    {
        let ghost start = deref_notes(out@);
        match &self.note {
            Some(n) => {
                if include_virtual || !self.is_virtual {
                    out.push(n);
                    assert(deref_notes(out@) == start + seq![*n]);
                } else {
                    assert(deref_notes(out@) == start + Seq::<Note>::empty());
                }
            },
            None => {
                assert(deref_notes(out@) == start + Seq::<Note>::empty());
            },
        }
        let ghost mid = deref_notes(out@);
        assert(mid == start + own_notes(*self, include_virtual));
        let mut k: usize = 0;
        while k < self.children.len()
            invariant
                k <= self.children.len(),
                deref_notes(out@) == mid + forest_notes(self.children@.take(k as int), include_virtual),
            decreases self.children.len() - k,
        {
            let ghost before = deref_notes(out@);
            self.children[k].collect(out, include_virtual);
            proof {
                let c = self.children@[k as int];
                assert(self.children@.take(k + 1) == self.children@.take(k as int).push(c));
                lemma_forest_notes_push(self.children@.take(k as int), c, include_virtual);
            }
            k += 1;
        }
        assert(self.children@.take(self.children.len() as int) == self.children@);
    }

    /// Total real notes in this node and all descendants.
    pub fn note_count(&self) -> (n: usize)
        ensures
            n == tree_notes(*self, false).len(),
    {
        self.real_notes().len()
    }

    /// Find a node (real or virtual) by its note id.
    pub fn find(&self, id: NoteId) -> (r: Option<&Notebook>)
        ensures
            deref_node(r) == tree_find(*self, id),
        decreases self,
    {
        if let Some(n) = &self.note {
            if n.id == id {
                return Some(self);
            }
        }
        let mut k: usize = 0;
        while k < self.children.len()
            invariant
                k <= self.children.len(),
                !(self.note is Some && self.note->0.id == id),
                forest_find(self.children@.take(k as int), id) == None::<Notebook>,
            decreases self.children.len() - k,
        {
            let c = &self.children[k];
            let found = c.find(id);
            proof {
                assert(self.children@.take(k + 1) == self.children@.take(k as int).push(*c));
                lemma_forest_find_push(self.children@.take(k as int), *c, id);
            }
            if found.is_some() {
                proof {
                    assert(forest_find(self.children@, id) == deref_node(found)) by {
                        lemma_forest_find_split(self.children@, k as int, id);
                    }
                }
                return found;
            }
            k += 1;
        }
        assert(self.children@.take(self.children.len() as int) == self.children@);
        None
    }

    /// Does this node or any descendant back the given note id?
    pub fn contains(&self, id: NoteId) -> (r: bool)
        ensures
            r == tree_find(*self, id) is Some,
    {
        self.find(id).is_some()
    }
}

pub proof fn lemma_forest_find_split(cs: Seq<Notebook>, k: int, id: NoteId)
    requires
        0 <= k < cs.len(),
        forest_find(cs.take(k + 1), id) is Some,
    ensures
        forest_find(cs, id) == forest_find(cs.take(k + 1), id),
    decreases cs.len(),
{
    if cs.len() > 0 {
        if tree_find(cs[0], id) is None {
            assert(cs.take(k + 1).drop_first() == cs.drop_first().take(k));
            if k > 0 {
                lemma_forest_find_split(cs.drop_first(), k - 1, id);
            } else {
                assert(cs.take(1).drop_first() == Seq::<Notebook>::empty());
            }
        }
    }
}


/// The chain of note-nodes from `nb` down to the node backing `target`, deepest
/// first, skipping nodes without a note (the vault root); `None` if absent.
pub open spec fn ancestor_path(nb: Notebook, target: NoteId) -> Option<Seq<Notebook>>
    decreases nb,
{
    if nb.note is Some && nb.note->0.id == target {
        Some(seq![nb])
    } else {
        match forest_path(nb.children@, target) {
            Some(p) => Some(
                if nb.note is Some {
                    p.push(nb)
                } else {
                    p
                },
            ),
            None => None,
        }
    }
}

/// `ancestor_path` in the first of the sibling subtrees that holds `target`.
pub open spec fn forest_path(cs: Seq<Notebook>, target: NoteId) -> Option<Seq<Notebook>>
    decreases cs,
{
    if cs.len() == 0 {
        None
    } else {
        match ancestor_path(cs[0], target) {
            Some(p) => Some(p),
            None => forest_path(cs.drop_first(), target),
        }
    }
}

/// The plain nodes behind a list of node references.
pub open spec fn deref_nodes(v: Seq<&Notebook>) -> Seq<Notebook> {
    v.map_values(|r: &Notebook| *r)
}

pub proof fn lemma_forest_path_push(cs: Seq<Notebook>, c: Notebook, id: NoteId)
    ensures
        forest_path(cs.push(c), id) == (match forest_path(cs, id) {
            Some(p) => Some(p),
            None => ancestor_path(c, id),
        }),
    decreases cs.len(),
{
    if cs.len() == 0 {
        assert(cs.push(c).drop_first() == Seq::<Notebook>::empty());
        assert(cs.push(c)[0] == c);
        assert(forest_path(Seq::<Notebook>::empty(), id) == None::<Seq<Notebook>>);
    } else {
        assert(cs.push(c).drop_first() == cs.drop_first().push(c));
        assert(cs.push(c)[0] == cs[0]);
        lemma_forest_path_push(cs.drop_first(), c, id);
    }
}

pub proof fn lemma_forest_path_split(cs: Seq<Notebook>, k: int, id: NoteId)
    requires
        0 <= k < cs.len(),
        forest_path(cs.take(k + 1), id) is Some,
    ensures
        forest_path(cs, id) == forest_path(cs.take(k + 1), id),
    decreases cs.len(),
{
    if cs.len() > 0 {
        if ancestor_path(cs[0], id) is None {
            assert(cs.take(k + 1).drop_first() == cs.drop_first().take(k));
            if k > 0 {
                lemma_forest_path_split(cs.drop_first(), k - 1, id);
            } else {
                assert(cs.take(1).drop_first() == Seq::<Notebook>::empty());
            }
        }
    }
}

/// The chain of note-nodes from the top-level down to `target` (excludes the vault
/// root). `acc` is filled deepest-first; the caller reverses it. Returns whether
/// `target` was found; `acc` is untouched when it was not.
pub fn ancestor_chain<'a>(node: &'a Notebook, target: NoteId, acc: &mut Vec<&'a Notebook>) -> (found: bool)
    ensures
        found == ancestor_path(*node, target) is Some,
        found ==> deref_nodes(final(acc)@) == deref_nodes(old(acc)@) + ancestor_path(*node, target)->0,
        !found ==> final(acc)@ == old(acc)@,
    decreases node,
{
    if let Some(n) = &node.note {
        if n.id == target {
            acc.push(node);
            assert(deref_nodes(acc@) == deref_nodes(old(acc)@) + seq![*node]);
            return true;
        }
    }
    let mut k: usize = 0;
    while k < node.children.len()
        invariant
            k <= node.children.len(),
            !(node.note is Some && node.note->0.id == target),
            forest_path(node.children@.take(k as int), target) == None::<Seq<Notebook>>,
            acc@ == old(acc)@,
        decreases node.children.len() - k,
    {
        let c = &node.children[k];
        let ghost before = acc@;
        let hit = ancestor_chain(c, target, acc);
        proof {
            assert(node.children@.take(k + 1) == node.children@.take(k as int).push(*c));
            lemma_forest_path_push(node.children@.take(k as int), *c, target);
        }
        if hit {
            proof {
                lemma_forest_path_split(node.children@, k as int, target);
            }
            if node.note.is_some() {
                let ghost mid = deref_nodes(acc@);
                acc.push(node);
                assert(deref_nodes(acc@) == mid.push(*node));
            }
            return true;
        }
        k += 1;
    }
    assert(node.children@.take(node.children.len() as int) == node.children@);
    false
}

/// Find a note's body by id anywhere in the tree.
pub fn find_note_body(nb: &Notebook, id: NoteId) -> (r: Option<String>)
    ensures
        r matches Some(b) ==> tree_find(*nb, id) matches Some(n) && n.note matches Some(note)
            && b@ == note.body@,
        r is None ==> !(tree_find(*nb, id) matches Some(n) && n.note is Some),
{
    match nb.find(id) {
        Some(node) => match &node.note {
            Some(n) => Some(n.body.clone()),
            None => None,
        },
        None => None,
    }
}

/// The node `find` returns backs a note with the requested id.
pub proof fn lemma_find_has_id(nb: Notebook, id: NoteId)
    ensures
        tree_find(nb, id) matches Some(n) ==> n.note is Some && n.note->0.id == id,
    decreases nb,
{
    lemma_forest_find_has_id(nb.children@, id);
}

pub proof fn lemma_forest_find_has_id(cs: Seq<Notebook>, id: NoteId)
    ensures
        forest_find(cs, id) matches Some(n) ==> n.note is Some && n.note->0.id == id,
    decreases cs,
{
    if cs.len() > 0 {
        lemma_find_has_id(cs[0], id);
        lemma_forest_find_has_id(cs.drop_first(), id);
    }
}

/// A node is found by an id exactly when some note of the tree (virtual ones
/// included, as `every_note` lists them) has that id.
pub proof fn lemma_find_iff_listed(nb: Notebook, id: NoteId)
    ensures
        tree_find(nb, id) is Some <==> exists|k: int|
            0 <= k < tree_notes(nb, true).len() && (#[trigger] tree_notes(nb, true)[k]).id == id,
    decreases nb,
{
    lemma_forest_find_iff_listed(nb.children@, id);
    let own = own_notes(nb, true);
    let rest = forest_notes(nb.children@, true);
    let all = tree_notes(nb, true);
    assert(all == own + rest);
    if tree_find(nb, id) is Some {
        if nb.note is Some && nb.note->0.id == id {
            assert(all[0] == nb.note->0);
        } else {
            let k = choose|k: int| 0 <= k < rest.len() && (#[trigger] rest[k]).id == id;
            assert(all[own.len() + k] == rest[k]);
        }
    } else {
        assert forall|k: int| 0 <= k < all.len() implies (#[trigger] all[k]).id != id by {
            if k < own.len() {
                assert(all[k] == nb.note->0);
            } else {
                assert(all[k] == rest[k - own.len()]);
            }
        }
    }
}

pub proof fn lemma_forest_find_iff_listed(cs: Seq<Notebook>, id: NoteId)
    ensures
        forest_find(cs, id) is Some <==> exists|k: int|
            0 <= k < forest_notes(cs, true).len() && (#[trigger] forest_notes(cs, true)[k]).id == id,
    decreases cs,
{
    if cs.len() > 0 {
        lemma_find_iff_listed(cs[0], id);
        lemma_forest_find_iff_listed(cs.drop_first(), id);
        let a = tree_notes(cs[0], true);
        let b = forest_notes(cs.drop_first(), true);
        let all = forest_notes(cs, true);
        assert(all == a + b);
        if forest_find(cs, id) is Some {
            if tree_find(cs[0], id) is Some {
                let k = choose|k: int| 0 <= k < a.len() && (#[trigger] a[k]).id == id;
                assert(all[k] == a[k]);
            } else {
                let k = choose|k: int| 0 <= k < b.len() && (#[trigger] b[k]).id == id;
                assert(all[a.len() + k] == b[k]);
            }
        } else {
            assert forall|k: int| 0 <= k < all.len() implies (#[trigger] all[k]).id != id by {
                if k < a.len() {
                    assert(all[k] == a[k]);
                } else {
                    assert(all[k] == b[k - a.len()]);
                }
            }
        }
    }
}

} // verus!
