//! Storage of UI elements kept by the UI system itself: the elements by
//! key, the root, the elements changed since the last frame, and the
//! stacking order.
//!
//! An element's type, style and bounds are carried as the caller's values
//! (`T`, `S`, `B`); the storage reads only the style's stacking index,
//! which an element keeps beside its style.

use vstd::prelude::*;
use std::collections::HashMap;
use vstd::std_specs::hash::spec_keys_iter;
use vstd::std_specs::iter::IteratorSpec;
use crate::element::{is_child, is_child_path, lemma_reachable_child, lemma_reachable_self, reachable, vec_without, without, ElementId};
use crate::runtime::new_uuid;

verus! {

broadcast use vstd::std_specs::hash::group_hash_axioms;

/// Internal representation of a UI element.
pub struct InternalElement<T, S, B> {
    pub id: ElementId,
    pub element_type: T,
    pub style: S,
    pub z_index: i32,
    pub bounds: B,
    pub parent: Option<ElementId>,
    pub children: Vec<ElementId>,
    pub text: Option<String>,
    pub visible: bool,
    pub dirty: bool,
}

/// Model of an element, with its child list and text as sequences.
pub struct ElemModel<T, S, B> {
    pub id: ElementId,
    pub element_type: T,
    pub style: S,
    pub z_index: i32,
    pub bounds: B,
    pub parent: Option<ElementId>,
    pub children: Seq<ElementId>,
    pub text: Option<Seq<char>>,
    pub visible: bool,
    pub dirty: bool,
}

impl<T, S, B> View for InternalElement<T, S, B> {
    type V = ElemModel<T, S, B>;

    open spec fn view(&self) -> ElemModel<T, S, B> {
        ElemModel {
            id: self.id,
            element_type: self.element_type,
            style: self.style,
            z_index: self.z_index,
            bounds: self.bounds,
            parent: self.parent,
            children: self.children@,
            text: match self.text {
                Some(t) => Some(t@),
                None => None,
            },
            visible: self.visible,
            dirty: self.dirty,
        }
    }
}

impl<T, S, B> InternalElement<T, S, B> {
    /// A visible element with no parent, children or text, to be drawn.
    pub fn new(id: ElementId, element_type: T, style: S, z_index: i32, bounds: B) -> (e: Self)
        ensures
            e.id == id,
            e.element_type == element_type,
            e.style == style,
            e.z_index == z_index,
            e.bounds == bounds,
            e.parent is None,
            e.children@.len() == 0,
            e.text is None,
            e.visible,
            e.dirty,
    {
        InternalElement {
            id,
            element_type,
            style,
            z_index,
            bounds,
            parent: None,
            children: Vec::new(),
            text: None,
            visible: true,
            dirty: true,
        }
    }

    /// The element with `style` (stacking at `z_index`).
    pub fn with_style(self, style: S, z_index: i32) -> (e: Self)
        ensures
            e@ == (ElemModel { style, z_index, ..self@ }),
    {
        let mut e = self;
        e.style = style;
        e.z_index = z_index;
        e
    }

    /// The element with `bounds`.
    pub fn with_bounds(self, bounds: B) -> (e: Self)
        ensures
            e@ == (ElemModel { bounds, ..self@ }),
    {
        let mut e = self;
        e.bounds = bounds;
        e
    }

    /// The element with `parent`.
    pub fn with_parent(self, parent: Option<ElementId>) -> (e: Self)
        ensures
            e@ == (ElemModel { parent, ..self@ }),
    {
        let mut e = self;
        e.parent = parent;
        e
    }

    /// Adds `child` at the end of the children when it is not one of them.
    pub fn add_child(&mut self, child: ElementId)
        ensures
            old(self)@.children.contains(child) ==> final(self)@ == old(self)@,
            !old(self)@.children.contains(child) ==> final(self)@ == (ElemModel {
                children: old(self)@.children.push(child),
                dirty: true,
                ..old(self)@
            }),
    {
        let mut i: usize = 0;
        while i < self.children.len()
            invariant
                0 <= i <= self.children@.len(),
                forall|j: int| 0 <= j < i ==> self.children@[j] != child,
            decreases self.children@.len() - i,
        {
            if self.children[i] == child {
                return;
            }
            i = i + 1;
        }
        self.children.push(child);
        self.dirty = true;
        proof {
            assert(final(self)@.children =~= old(self)@.children.push(child));
        }
    }

    /// Removes every occurrence of `child` from the children.
    pub fn remove_child(&mut self, child: ElementId)
        ensures
            final(self)@ == (ElemModel { children: without(old(self)@.children, child), dirty: true, ..old(self)@ }),
    {
        self.children = vec_without(&self.children, child);
        self.dirty = true;
    }
}

/// Model of the storage: the elements by key, the root, the changed
/// elements and the stacking order.
pub struct StorageModel<T, S, B> {
    pub elements: Map<ElementId, ElemModel<T, S, B>>,
    pub root: Option<ElementId>,
    pub dirty: Seq<ElementId>,
    pub z_order: Seq<ElementId>,
}

/// The elements after `e`, stored under `id`, is taken out of its parent's children.
pub open spec fn unlink_from_parent<T, S, B>(
    es: Map<ElementId, ElemModel<T, S, B>>,
    id: ElementId,
    e: ElemModel<T, S, B>,
) -> Map<ElementId, ElemModel<T, S, B>> {
    match e.parent {
        Some(p) => if es.contains_key(p) {
            es.insert(p, ElemModel { children: without(es[p].children, id), dirty: true, ..es[p] })
        } else {
            es
        },
        None => es,
    }
}

/// The storage after the element stored under `id` alone is removed: it
/// leaves its parent's children, the elements, the changed list and the
/// stacking order, and stops being the root.
pub open spec fn remove_one<T, S, B>(m: StorageModel<T, S, B>, id: ElementId) -> StorageModel<T, S, B> {
    if m.elements.contains_key(id) {
        StorageModel {
            elements: unlink_from_parent(m.elements, id, m.elements[id]).remove(id),
            root: if m.root == Some(id) { None } else { m.root },
            dirty: without(m.dirty, id),
            z_order: without(m.z_order, id),
        }
    } else {
        m
    }
}

/// Taking an element out of its parent's children keeps the stored keys.
pub proof fn lemma_unlink_keys<T, S, B>(es: Map<ElementId, ElemModel<T, S, B>>, id: ElementId, e: ElemModel<T, S, B>)
    ensures
        unlink_from_parent(es, id, e).dom() == es.dom(),
{
    match e.parent {
        Some(p) => {
            if es.contains_key(p) {
                assert(unlink_from_parent(es, id, e).dom() =~= es.dom());
            }
        },
        None => {},
    }
}

/// Removing a stored element leaves one element fewer, and the stored keys
/// are those before but `id`.
pub proof fn lemma_remove_one_len<T, S, B>(m: StorageModel<T, S, B>, id: ElementId)
    requires
        m.elements.dom().finite(),
    ensures
        remove_one(m, id).elements.dom().finite(),
        remove_one(m, id).elements.dom() == m.elements.dom().remove(id),
        m.elements.contains_key(id) ==> remove_one(m, id).elements.dom().len() == m.elements.dom().len() - 1,
{
    if m.elements.contains_key(id) {
        lemma_unlink_keys(m.elements, id, m.elements[id]);
        assert(remove_one(m, id).elements.dom() =~= m.elements.dom().remove(id));
    } else {
        assert(m.elements.dom().remove(id) =~= m.elements.dom());
    }
}

/// The storage after removing, depth first, the elements named on `stack`
/// (its last entry first) with the elements named as their children, read
/// when each is removed. Names of elements not stored are passed over.
pub open spec fn remove_work<T, S, B>(m: StorageModel<T, S, B>, stack: Seq<ElementId>) -> StorageModel<T, S, B>
    decreases m.elements.dom().len(), stack.len(),
    when m.elements.dom().finite()
{
    if stack.len() == 0 {
        m
    } else {
        let id = stack.last();
        if m.elements.contains_key(id) {
            proof {
                lemma_remove_one_len(m, id);
            }
            remove_work(remove_one(m, id), stack.drop_last() + m.elements[id].children.reverse())
        } else {
            remove_work(m, stack.drop_last())
        }
    }
}

/// Removing elements keeps the storage finite and never adds a key.
pub proof fn lemma_remove_work_keys<T, S, B>(m: StorageModel<T, S, B>, stack: Seq<ElementId>)
    requires
        m.elements.dom().finite(),
    ensures
        remove_work(m, stack).elements.dom().finite(),
        remove_work(m, stack).elements.dom().subset_of(m.elements.dom()),
    decreases m.elements.dom().len(), stack.len(),
{
    if stack.len() > 0 {
        let id = stack.last();
        lemma_remove_one_len(m, id);
        if m.elements.contains_key(id) {
            lemma_remove_work_keys(remove_one(m, id), stack.drop_last() + m.elements[id].children.reverse());
        } else {
            lemma_remove_work_keys(m, stack.drop_last());
        }
    }
}

/// Removing an element leaves it out of the storage.
pub proof fn lemma_remove_element_gone<T, S, B>(m: StorageModel<T, S, B>, id: ElementId)
    requires
        m.elements.dom().finite(),
    ensures
        !remove_work(m, seq![id]).elements.contains_key(id),
{
    assert(seq![id].last() == id);
    lemma_remove_one_len(m, id);
    if m.elements.contains_key(id) {
        let rest = seq![id].drop_last() + m.elements[id].children.reverse();
        assert(remove_work(m, seq![id]) == remove_work(remove_one(m, id), rest));
        lemma_remove_work_keys(remove_one(m, id), rest);
    } else {
        assert(seq![id].drop_last() =~= Seq::<ElementId>::empty());
        assert(remove_work(m, seq![id]) == remove_work(m, Seq::<ElementId>::empty()));
    }
}

/// The child lists of the stored elements.
pub open spec fn child_lists<T, S, B>(es: Map<ElementId, ElemModel<T, S, B>>) -> Map<ElementId, Seq<ElementId>> {
    es.map_values(|e: ElemModel<T, S, B>| e.children)
}

/// `y` is `id` or lies below it along the stored child lists.
pub open spec fn below<T, S, B>(es: Map<ElementId, ElemModel<T, S, B>>, id: ElementId, y: ElementId) -> bool {
    reachable(child_lists(es), id, y)
}

/// Every element named as a child is stored and names its parent back.
pub open spec fn children_link_back<T, S, B>(es: Map<ElementId, ElemModel<T, S, B>>) -> bool {
    forall|p: ElementId, c: ElementId|
        #![trigger es[p].children.contains(c)]
        es.contains_key(p) && es[p].children.contains(c) ==> es.contains_key(c) && es[c].parent == Some(p)
}

/// While `remove_element(id)` works through `stack`, with `es` the elements
/// at the start: only elements below `id` have gone, every other element is
/// as after `id` left its parent's children, the elements below `id` still
/// stored are untouched, and each element waiting on the stack lies below
/// `id` and has a parent that is below `id` and already gone; every child of
/// a gone element below `id` that is still stored waits on the stack.
pub open spec fn removal_invariant<T, S, B>(
    es: Map<ElementId, ElemModel<T, S, B>>,
    id: ElementId,
    now: Map<ElementId, ElemModel<T, S, B>>,
    stack: Seq<ElementId>,
) -> bool {
    let unlinked = unlink_from_parent(es, id, es[id]);
    &&& now.dom().subset_of(es.dom())
    &&& forall|k: ElementId| #[trigger] es.contains_key(k) && !below(es, id, k) ==> now.contains_key(k) && now[k] == unlinked[k]
    &&& forall|k: ElementId| #[trigger] now.contains_key(k) && below(es, id, k) ==> now[k] == es[k]
    &&& forall|i: int| 0 <= i < stack.len() ==> {
        &&& below(es, id, #[trigger] stack[i])
        &&& es.contains_key(stack[i])
        &&& es[stack[i]].parent matches Some(y) && below(es, id, y) && !now.contains_key(y)
    }
    &&& forall|x: ElementId, c: ElementId|
        #![trigger es[x].children.contains(c), now.contains_key(c)]
        es.contains_key(x) && below(es, id, x) && !now.contains_key(x) && es[x].children.contains(c) && now.contains_key(c)
            ==> stack.contains(c)
}

proof fn lemma_removal_step<T, S, B>(
    es: Map<ElementId, ElemModel<T, S, B>>,
    id: ElementId,
    m: StorageModel<T, S, B>,
    stack: Seq<ElementId>,
)
    requires
        m.elements.dom().finite(),
        children_link_back(es),
        removal_invariant(es, id, m.elements, stack),
    ensures
        removal_invariant(es, id, remove_work(m, stack).elements, Seq::<ElementId>::empty()),
    decreases m.elements.dom().len(), stack.len(),
{
    if stack.len() > 0 {
        let s = stack.last();
        assert(stack[stack.len() - 1] == s);
        lemma_remove_one_len(m, s);
        if m.elements.contains_key(s) {
            let e = es[s];
            assert(m.elements[s] == e);
            let y = e.parent->0;
            assert(unlink_from_parent(m.elements, s, m.elements[s]) == m.elements);
            let m1 = remove_one(m, s);
            assert(m1.elements == m.elements.remove(s));
            let next = stack.drop_last() + e.children.reverse();
            assert(m.elements[s].children == e.children);
            assert forall|i: int| 0 <= i < next.len() implies {
                &&& below(es, id, #[trigger] next[i])
                &&& es.contains_key(next[i])
                &&& es[next[i]].parent matches Some(q) && below(es, id, q) && !m1.elements.contains_key(q)
            } by {
                if i < stack.len() - 1 {
                    assert(next[i] == stack[i]);
                } else {
                    let j = i - (stack.len() - 1);
                    let c = e.children.reverse()[j];
                    assert(next[i] == c);
                    assert(c == e.children[e.children.len() - 1 - j]);
                    assert(e.children.contains(c));
                    assert(es.contains_key(c) && es[c].parent == Some(s));
                    assert(child_lists(es).contains_key(s));
                    assert(child_lists(es)[s] == e.children);
                    assert(is_child(child_lists(es), s, c));
                    lemma_reachable_child(child_lists(es), id, s, c);
                }
            }
            assert forall|x: ElementId, c: ElementId|
                es.contains_key(x) && below(es, id, x) && !m1.elements.contains_key(x) && #[trigger] es[x].children.contains(c)
                    && #[trigger] m1.elements.contains_key(c) implies next.contains(c) by {
                if x == s {
                    let j = e.children.index_of(c);
                    assert(e.children.reverse()[e.children.len() - 1 - j] == c);
                    assert(next[stack.len() - 1 + (e.children.len() - 1 - j)] == c);
                } else {
                    assert(stack.contains(c));
                    let j = choose|j: int| 0 <= j < stack.len() && stack[j] == c;
                    assert(j != stack.len() - 1);
                    assert(next[j] == c);
                }
            }
            lemma_removal_step(es, id, m1, next);
        } else {
            let rest = stack.drop_last();
            assert forall|x: ElementId, c: ElementId|
                es.contains_key(x) && below(es, id, x) && !m.elements.contains_key(x) && #[trigger] es[x].children.contains(c)
                    && #[trigger] m.elements.contains_key(c) implies rest.contains(c) by {
                assert(stack.contains(c));
                let j = choose|j: int| 0 <= j < stack.len() && stack[j] == c;
                assert(j != stack.len() - 1);
                assert(rest[j] == c);
            }
            lemma_removal_step(es, id, m, rest);
        }
    }
}

proof fn lemma_path_gone<T, S, B>(
    es: Map<ElementId, ElemModel<T, S, B>>,
    id: ElementId,
    now: Map<ElementId, ElemModel<T, S, B>>,
    path: Seq<ElementId>,
    i: int,
)
    requires
        removal_invariant(es, id, now, Seq::<ElementId>::empty()),
        !now.contains_key(id),
        is_child_path(child_lists(es), path),
        path[0] == id,
        0 <= i < path.len(),
    ensures
        below(es, id, path[i]),
        !now.contains_key(path[i]),
    decreases i,
{
    if i == 0 {
        lemma_reachable_self(child_lists(es), id);
    } else {
        lemma_path_gone(es, id, now, path, i - 1);
        let a = path[i - 1];
        let b = path[i];
        assert(is_child(child_lists(es), path[i - 1], path[(i - 1) + 1]));
        assert(es.contains_key(a));
        assert(child_lists(es)[a] == es[a].children);
        assert(es[a].children.contains(b));
        lemma_reachable_child(child_lists(es), id, a, b);
        if now.contains_key(b) {
            assert(Seq::<ElementId>::empty().contains(b));
        }
    }
}

/// Removing `id` from storage whose child lists name their elements' parents
/// back, where `id`'s parent is not below `id`, takes away exactly `id` and
/// the elements below it, and leaves every other element as it was, but for
/// `id` leaving its parent's children.
pub proof fn lemma_remove_element_spares_others<T, S, B>(m: StorageModel<T, S, B>, id: ElementId)
    requires
        m.elements.dom().finite(),
        m.elements.contains_key(id),
        children_link_back(m.elements),
        m.elements[id].parent matches Some(p) ==> !below(m.elements, id, p),
    ensures
        !remove_work(m, seq![id]).elements.contains_key(id),
        forall|k: ElementId| #[trigger] remove_work(m, seq![id]).elements.contains_key(k) ==> m.elements.contains_key(k),
        forall|k: ElementId| #[trigger] below(m.elements, id, k) ==> !remove_work(m, seq![id]).elements.contains_key(k),
        forall|k: ElementId| #[trigger] m.elements.contains_key(k) && !below(m.elements, id, k) ==> remove_work(m, seq![id]).elements.contains_key(k)
            && remove_work(m, seq![id]).elements[k] == unlink_from_parent(m.elements, id, m.elements[id])[k],
{
    let es = m.elements;
    let e = es[id];
    lemma_remove_element_gone(m, id);
    lemma_remove_one_len(m, id);
    lemma_reachable_self(child_lists(es), id);
    let m1 = remove_one(m, id);
    let st = e.children.reverse();
    assert(seq![id].last() == id);
    assert(seq![id].drop_last() + st =~= st);
    assert(remove_work(m, seq![id]) == remove_work(m1, st));
    let unlinked = unlink_from_parent(es, id, e);
    assert(unlinked.dom() == es.dom()) by {
        lemma_unlink_keys(es, id, e);
    }
    assert forall|k: ElementId| #[trigger] m1.elements.contains_key(k) && below(es, id, k) implies m1.elements[k] == es[k] by {
        if e.parent is Some {
            let p = e.parent->0;
            if k == p {
                assert(below(es, id, p));
            }
        }
    }
    assert forall|i: int| 0 <= i < st.len() implies {
        &&& below(es, id, #[trigger] st[i])
        &&& es.contains_key(st[i])
        &&& es[st[i]].parent matches Some(y) && below(es, id, y) && !m1.elements.contains_key(y)
    } by {
        let c = st[i];
        assert(c == e.children[e.children.len() - 1 - i]);
        assert(e.children.contains(c));
        assert(es.contains_key(c) && es[c].parent == Some(id));
        assert(child_lists(es).contains_key(id));
        assert(child_lists(es)[id] == e.children);
        assert(is_child(child_lists(es), id, c));
        lemma_reachable_child(child_lists(es), id, id, c);
    }
    assert forall|x: ElementId, c: ElementId|
        es.contains_key(x) && below(es, id, x) && !m1.elements.contains_key(x) && #[trigger] es[x].children.contains(c)
            && #[trigger] m1.elements.contains_key(c) implies st.contains(c) by {
        assert(x == id);
        let j = e.children.index_of(c);
        assert(st[e.children.len() - 1 - j] == c);
    }
    assert(removal_invariant(es, id, m1.elements, st));
    lemma_removal_step(es, id, m1, st);
    let r = remove_work(m1, st).elements;
    assert(r.dom().subset_of(es.dom()));
    assert forall|k: ElementId| #[trigger] below(es, id, k) implies !r.contains_key(k) by {
        let path = choose|path: Seq<ElementId>| #![trigger is_child_path(child_lists(es), path)]
            is_child_path(child_lists(es), path) && path[0] == id && path.last() == k;
        lemma_path_gone(es, id, r, path, path.len() - 1);
    }
}

/// The stored elements, each taken by its model.
pub open spec fn elements_view<T, S, B>(es: Map<ElementId, InternalElement<T, S, B>>) -> Map<ElementId, ElemModel<T, S, B>> {
    es.map_values(|e: InternalElement<T, S, B>| e@)
}

/// Storage for UI elements.
pub struct InternalElementStorage<T, S, B> {
    elements: HashMap<ElementId, InternalElement<T, S, B>>,
    root_element: Option<ElementId>,
    dirty_elements: Vec<ElementId>,
    z_order: Vec<ElementId>,
}

impl<T, S, B> View for InternalElementStorage<T, S, B> {
    type V = StorageModel<T, S, B>;

    closed spec fn view(&self) -> StorageModel<T, S, B> {
        StorageModel {
            elements: elements_view(self.elements@),
            root: self.root_element,
            dirty: self.dirty_elements@,
            z_order: self.z_order@,
        }
    }
}

/// A copy of a list of identifiers.
fn copy_ids(v: &Vec<ElementId>) -> (r: Vec<ElementId>)
    ensures
        r@ == v@,
{
    let mut r: Vec<ElementId> = Vec::new();
    let mut i: usize = 0;
    while i < v.len()
        invariant
            0 <= i <= v@.len(),
            r@ == v@.take(i as int),
        decreases v@.len() - i,
    {
        r.push(v[i]);
        proof {
            assert(v@.take(i + 1) =~= v@.take(i as int).push(v@[i as int]));
        }
        i = i + 1;
    }
    proof {
        assert(v@.take(v@.len() as int) =~= v@);
    }
    r
}

/// The keys of `m`, each once, in the map's iteration order.
fn key_list<T, S, B>(m: &HashMap<ElementId, InternalElement<T, S, B>>) -> (ks: Vec<ElementId>)
    ensures
        ks@.no_duplicates(),
        ks@.to_set() == m@.dom(),
{
    let mut ks: Vec<ElementId> = Vec::new();
    let ghost all = spec_keys_iter(m).remaining();
    for k in it: m.keys()
        invariant
            ks@.len() == it.index(),
            it.seq() == all,
            all == spec_keys_iter(m).remaining(),
            forall|i: int| 0 <= i < ks@.len() ==> ks@[i] == *it.seq()[i],
    {
        ks.push(*k);
    }
    proof {
        assert(ks@ =~= all.unref());
    }
    ks
}

/// The identifiers and stacking indices of the elements stored under `ks`, in that order.
pub open spec fn z_pairs<T, S, B>(es: Map<ElementId, ElemModel<T, S, B>>, ks: Seq<ElementId>) -> Seq<(ElementId, i32)> {
    ks.map_values(|k: ElementId| (es[k].id, es[k].z_index))
}

/// `s` is in non-decreasing order of stacking index.
pub open spec fn sorted_by_z(s: Seq<(ElementId, i32)>) -> bool {
    forall|i: int, j: int| 0 <= i < j < s.len() ==> s[i].1 <= s[j].1
}

/// `ks` names every stored element once.
pub open spec fn lists_keys<V>(es: Map<ElementId, V>, ks: Seq<ElementId>) -> bool {
    ks.no_duplicates() && ks.to_set() == es.dom()
}

impl<T, S, B> InternalElementStorage<T, S, B> {
    /// Finitely many elements are stored.
    pub closed spec fn wf(&self) -> bool {
        self@.elements.dom().finite()
    }

    /// Empty storage.
    pub fn new() -> (s: Self)
        ensures
            s.wf(),
            s@.elements == Map::<ElementId, ElemModel<T, S, B>>::empty(),
            s@.root is None,
            s@.dirty.len() == 0,
            s@.z_order.len() == 0,
    {
        let s = InternalElementStorage { elements: HashMap::new(), root_element: None, dirty_elements: Vec::new(), z_order: Vec::new() };
        proof {
            assert(s@.elements =~= Map::<ElementId, ElemModel<T, S, B>>::empty());
        }
        s
    }

    /// Creates an element of `element_type` under a fresh identifier, marks it
    /// changed, and makes it the root when there is none.
    pub fn create_element(&mut self, element_type: T, style: S, z_index: i32, bounds: B) -> (id: ElementId)
        requires
            old(self).wf(),
        ensures
            final(self).wf(),
            final(self)@.elements == old(self)@.elements.insert(id, ElemModel {
                id,
                element_type,
                style,
                z_index,
                bounds,
                parent: None,
                children: Seq::empty(),
                text: None,
                visible: true,
                dirty: true,
            }),
            final(self)@.dirty == old(self)@.dirty.push(id),
            final(self)@.root == (if old(self)@.root is None { Some(id) } else { old(self)@.root }),
            final(self)@.z_order == old(self)@.z_order,
    {
        let id = new_uuid();
        let element = InternalElement::new(id, element_type, style, z_index, bounds);
        self.elements.insert(id, element);
        self.dirty_elements.push(id);
        if self.root_element.is_none() {
            self.root_element = Some(id);
        }
        proof {
            assert(element@.children =~= Seq::<ElementId>::empty());
            assert(self@.elements =~= old(self)@.elements.insert(id, element@));
        }
        id
    }

    /// The element stored under `id`.
    pub fn get_element(&self, id: ElementId) -> (r: Option<&InternalElement<T, S, B>>)
        ensures
            match r {
                Some(e) => self@.elements.contains_key(id) && e@ == self@.elements[id],
                None => !self@.elements.contains_key(id),
            },
    {
        self.elements.get(&id)
    }

    /// Applies `updater` to the element stored under `id`, which is then
    /// marked changed; returns whether there was one.
    pub fn update_element<F>(&mut self, id: ElementId, updater: F) -> (found: bool)
        where
            F: FnOnce(InternalElement<T, S, B>) -> InternalElement<T, S, B>,
        requires
            old(self).wf(),
            forall|e: InternalElement<T, S, B>| updater.requires((e,)),
        ensures
            final(self).wf(),
            found == old(self)@.elements.contains_key(id),
            final(self)@.root == old(self)@.root,
            final(self)@.z_order == old(self)@.z_order,
            !found ==> final(self)@ == old(self)@,
            found ==> final(self)@.dirty == old(self)@.dirty.push(id),
            found ==> exists|a: InternalElement<T, S, B>, b: InternalElement<T, S, B>|
                a@ == old(self)@.elements[id] && updater.ensures((a,), b) && final(self)@.elements
                    == old(self)@.elements.insert(id, ElemModel { dirty: true, ..b@ }),
    {
        match self.elements.remove(&id) {
            Some(e) => {
                let ghost a = e;
                let mut updated = updater(e);
                updated.dirty = true;
                let ghost b = updated;
                self.elements.insert(id, updated);
                self.dirty_elements.push(id);
                proof {
                    assert(self@.elements =~= old(self)@.elements.insert(id, ElemModel { dirty: true, ..b@ }));
                }
                true
            },
            None => {
                proof {
                    assert(self@.elements =~= old(self)@.elements);
                }
                false
            },
        }
    }

    /// Removes the element stored under `id`, with the elements named as its
    /// children, depth first; each removed element leaves its parent's
    /// children, the changed list and the stacking order, and the root when
    /// it is the root. Returns whether `id` was stored.
    pub fn remove_element(&mut self, id: ElementId) -> (removed: bool)
        requires
            old(self).wf(),
        ensures
            final(self).wf(),
            removed == old(self)@.elements.contains_key(id),
            final(self)@ == remove_work(old(self)@, seq![id]),
            !final(self)@.elements.contains_key(id),
    {
        proof {
            lemma_remove_element_gone(self@, id);
            lemma_remove_work_keys(self@, seq![id]);
        }
        if !self.elements.contains_key(&id) {
            proof {
                assert(seq![id].drop_last() =~= Seq::<ElementId>::empty());
                assert(seq![id].last() == id);
                assert(remove_work(self@, seq![id]) == remove_work(self@, Seq::<ElementId>::empty()));
            }
            return false;
        }
        let ghost start = self@;
        let mut stack: Vec<ElementId> = vec![id];
        proof {
            assert(stack@ =~= seq![id]);
        }
        while stack.len() > 0
            invariant
                self.wf(),
                remove_work(start, seq![id]) == remove_work(self@, stack@),
            decreases self@.elements.dom().len(), stack@.len(),
        {
            let top = stack.pop().unwrap();
            let ghost before = self@;
            let ghost rest = stack@;
            proof {
                lemma_remove_one_len(before, top);
                assert(stack@.push(top) == rest.push(top));
            }
            let found = match self.elements.get(&top) {
                Some(e) => Some((copy_ids(&e.children), e.parent)),
                None => None,
            };
            match found {
                Some((children, parent)) => {
                    match parent {
                        Some(p) => {
                            match self.elements.remove(&p) {
                                Some(mut pe) => {
                                    pe.remove_child(top);
                                    self.elements.insert(p, pe);
                                },
                                None => {},
                            }
                        },
                        None => {},
                    }
                    proof {
                        assert(self@.elements =~= unlink_from_parent(before.elements, top, before.elements[top]));
                    }
                    let _ = self.elements.remove(&top);
                    self.dirty_elements = vec_without(&self.dirty_elements, top);
                    self.z_order = vec_without(&self.z_order, top);
                    if self.root_element == Some(top) {
                        self.root_element = None;
                    }
                    proof {
                        assert(self@.elements =~= remove_one(before, top).elements);
                        assert(self@ == remove_one(before, top));
                    }
                    let mut k: usize = children.len();
                    while k > 0
                        invariant
                            0 <= k <= children@.len(),
                            stack@ == rest + children@.subrange(k as int, children@.len() as int).reverse(),
                        decreases k,
                    {
                        k = k - 1;
                        stack.push(children[k]);
                        proof {
                            assert(children@.subrange(k as int, children@.len() as int).reverse() =~= children@.subrange(
                                k + 1,
                                children@.len() as int,
                            ).reverse().push(children@[k as int]));
                        }
                    }
                    proof {
                        assert(children@.subrange(0, children@.len() as int) =~= children@);
                        assert(before.elements[top].children == children@);
                        assert(rest.push(top).drop_last() == rest);
                        assert(rest.push(top).last() == top);
                    }
                },
                None => {
                    proof {
                        assert(rest.push(top).drop_last() == rest);
                        assert(rest.push(top).last() == top);
                    }
                },
            }
        }
        true
    }

    /// The root element.
    pub fn get_root(&self) -> (r: Option<ElementId>)
        ensures
            r == self@.root,
    {
        self.root_element
    }

    /// Sets the root element.
    pub fn set_root(&mut self, id: Option<ElementId>)
        ensures
            final(self)@ == (StorageModel { root: id, ..old(self)@ }),
            final(self).wf() == old(self).wf(),
    {
        self.root_element = id;
    }

    /// The elements changed since the last frame.
    pub fn get_dirty_elements(&self) -> (r: Vec<ElementId>)
        ensures
            r@ == self@.dirty,
    {
        copy_ids(&self.dirty_elements)
    }

    /// Forgets the changed elements and marks every element drawn.
    pub fn clear_dirty(&mut self)
        requires
            old(self).wf(),
        ensures
            final(self).wf(),
            final(self)@.dirty.len() == 0,
            final(self)@.root == old(self)@.root,
            final(self)@.z_order == old(self)@.z_order,
            final(self)@.elements.dom() == old(self)@.elements.dom(),
            forall|k: ElementId| #[trigger] old(self)@.elements.contains_key(k) ==> final(self)@.elements[k] == (
                ElemModel { dirty: false, ..old(self)@.elements[k] }),
    {
        self.dirty_elements.clear();
        let ks = key_list(&self.elements);
        let n = ks.len();
        let mut i: usize = 0;
        proof {
            assert forall|k: ElementId| old(self)@.elements.contains_key(k) implies ks@.contains(k) by {
                assert(ks@.to_set().contains(k));
            }
        }
        while i < n
            invariant
                0 <= i <= n,
                n == ks@.len(),
                ks@.no_duplicates(),
                ks@.to_set() == old(self)@.elements.dom(),
                self@.elements.dom() == old(self)@.elements.dom(),
                self@.root == old(self)@.root,
                self@.z_order == old(self)@.z_order,
                self@.dirty.len() == 0,
                forall|j: int| 0 <= j < i ==> #[trigger] self@.elements[ks@[j]] == (ElemModel { dirty: false, ..old(self)@.elements[ks@[j]] }),
                forall|j: int| i <= j < n ==> #[trigger] self@.elements[ks@[j]] == old(self)@.elements[ks@[j]],
            decreases n - i,
        {
            let k = ks[i];
            let ghost prev = self@.elements;
            proof {
                assert(ks@.to_set().contains(k));
            }
            match self.elements.remove(&k) {
                Some(mut e) => {
                    e.dirty = false;
                    self.elements.insert(k, e);
                },
                None => {},
            }
            proof {
                assert(self@.elements =~= prev.insert(k, (ElemModel { dirty: false, ..prev[k] })));
                assert forall|j: int| i + 1 <= j < n implies #[trigger] self@.elements[ks@[j]] == old(self)@.elements[ks@[j]] by {
                    assert(ks@[j] != ks@[i as int]);
                }
                assert forall|j: int| 0 <= j < i implies #[trigger] self@.elements[ks@[j]] == (ElemModel { dirty: false, ..old(self)@.elements[ks@[j]] }) by {
                    assert(ks@[j] != ks@[i as int]);
                }
            }
            i = i + 1;
        }
        proof {
            assert forall|k: ElementId| #[trigger] old(self)@.elements.contains_key(k) implies self@.elements[k] == (
                ElemModel { dirty: false, ..old(self)@.elements[k] }) by {
                assert(ks@.to_set().contains(k));
                let j = ks@.index_of(k);
                assert(ks@[j] == k);
            }
        }
    }

    /// Orders the elements by stacking index, lowest first.
    pub fn update_z_order(&mut self)
        requires
            old(self).wf(),
        ensures
            final(self).wf(),
            final(self)@.elements == old(self)@.elements,
            final(self)@.root == old(self)@.root,
            final(self)@.dirty == old(self)@.dirty,
            exists|ks: Seq<ElementId>, pairs: Seq<(ElementId, i32)>| {
                &&& lists_keys(old(self)@.elements, ks)
                &&& pairs.to_multiset() == z_pairs(old(self)@.elements, ks).to_multiset()
                &&& sorted_by_z(pairs)
                &&& final(self)@.z_order == pairs.map_values(|p: (ElementId, i32)| p.0)
            },
    {
        let ks = key_list(&self.elements);
        let ghost zs = z_pairs(self@.elements, ks@);
        let mut sorted: Vec<(ElementId, i32)> = Vec::new();
        let mut i: usize = 0;
        proof {
            assert(zs.take(0) =~= Seq::<(ElementId, i32)>::empty());
        }
        while i < ks.len()
            invariant
                0 <= i <= ks@.len(),
                ks@.to_set() == self@.elements.dom(),
                self@ == old(self)@,
                zs == z_pairs(self@.elements, ks@),
                sorted@.to_multiset() == zs.take(i as int).to_multiset(),
                sorted_by_z(sorted@),
            decreases ks@.len() - i,
        {
            let key = ks[i];
            proof {
                assert(ks@.to_set().contains(key));
            }
            let e = self.elements.get(&key).unwrap();
            let item = (e.id, e.z_index);
            proof {
                assert(item == zs[i as int]);
                assert(zs.take(i + 1) =~= zs.take(i as int).push(item));
            }
            // Insert after every pair whose index is not above the new one.
            let mut pos: usize = sorted.len();
            while pos > 0 && sorted[pos - 1].1 > item.1
                invariant
                    0 <= pos <= sorted@.len(),
                    forall|j: int| pos <= j < sorted@.len() ==> sorted@[j].1 > item.1,
                decreases pos,
            {
                pos = pos - 1;
            }
            let ghost before = sorted@;
            sorted.insert(pos, item);
            proof {
                assert(sorted@ =~= before.insert(pos as int, item));
                vstd::seq_lib::to_multiset_insert(before, pos as int, item);
                zs.take(i as int).to_multiset_ensures();
                assert forall|a: int, b: int| 0 <= a < b < sorted@.len() implies sorted@[a].1 <= sorted@[b].1 by {
                    if a < pos && b == pos {
                        assert(before[a].1 <= before[pos - 1].1);
                    } else if a == pos && b > pos {
                        assert(sorted@[b] == before[b - 1]);
                    }
                }
                assert(zs.take(i as int).push(item) =~= zs.take(i + 1));
            }
            i = i + 1;
        }
        let mut ids: Vec<ElementId> = Vec::new();
        let mut k: usize = 0;
        while k < sorted.len()
            invariant
                0 <= k <= sorted@.len(),
                ids@ == sorted@.take(k as int).map_values(|p: (ElementId, i32)| p.0),
            decreases sorted@.len() - k,
        {
            ids.push(sorted[k].0);
            proof {
                assert(sorted@.take(k + 1).map_values(|p: (ElementId, i32)| p.0) =~= sorted@.take(k as int).map_values(
                    |p: (ElementId, i32)| p.0,
                ).push(sorted@[k as int].0));
            }
            k = k + 1;
        }
        proof {
            assert(sorted@.take(sorted@.len() as int) =~= sorted@);
            assert(zs.take(zs.len() as int) =~= zs);
        }
        self.z_order = ids;
        proof {
            assert(lists_keys(old(self)@.elements, ks@));
            assert(sorted@.to_multiset() == z_pairs(old(self)@.elements, ks@).to_multiset());
            assert(self@.z_order == sorted@.map_values(|p: (ElementId, i32)| p.0));
        }
    }

    /// The stacking order.
    pub fn get_z_order(&self) -> (r: Vec<ElementId>)
        ensures
            r@ == self@.z_order,
    {
        copy_ids(&self.z_order)
    }

    /// Removes every element, the root, the changed list and the stacking order.
    pub fn clear(&mut self)
        ensures
            final(self).wf(),
            final(self)@.elements == Map::<ElementId, ElemModel<T, S, B>>::empty(),
            final(self)@.root is None,
            final(self)@.dirty.len() == 0,
            final(self)@.z_order.len() == 0,
    {
        self.elements.clear();
        self.root_element = None;
        self.dirty_elements.clear();
        self.z_order.clear();
        proof {
            assert(self@.elements =~= Map::<ElementId, ElemModel<T, S, B>>::empty());
        }
    }
}

} // verus!
