//! Parent/child hierarchy of UI elements.

use vstd::prelude::*;
use std::collections::HashMap;
use crate::error::UiResult;

verus! {

broadcast use vstd::std_specs::hash::group_hash_axioms;

/// Identifier of a UI element.
pub type ElementId = u128;

/// The elements of `s` for which `gone` does not hold, in order.
pub open spec fn drop_where(s: Seq<ElementId>, gone: spec_fn(ElementId) -> bool) -> Seq<ElementId>
    decreases s.len(),
{
    if s.len() == 0 {
        s
    } else {
        let rest = drop_where(s.drop_last(), gone);
        if gone(s.last()) {
            rest
        } else {
            rest.push(s.last())
        }
    }
}

/// `s` with every occurrence of `x` removed.
pub open spec fn without(s: Seq<ElementId>, x: ElementId) -> Seq<ElementId> {
    drop_where(s, equals(x))
}

/// The predicate "is `x`".
pub open spec fn equals(x: ElementId) -> spec_fn(ElementId) -> bool {
    |y: ElementId| y == x
}

/// The predicate "satisfies `f` or `g`".
pub open spec fn either(f: spec_fn(ElementId) -> bool, g: spec_fn(ElementId) -> bool) -> spec_fn(ElementId) -> bool {
    |y: ElementId| f(y) || g(y)
}

/// Mathematical model of an element graph: the child lists and the parent links.
#[verifier::ext_equal]
pub struct GraphModel {
    pub children: Map<ElementId, Seq<ElementId>>,
    pub parents: Map<ElementId, ElementId>,
}

/// Child lists after `child` is taken out of the list of its recorded parent.
pub open spec fn detach(g: GraphModel, child: ElementId) -> Map<ElementId, Seq<ElementId>> {
    if g.parents.contains_key(child) && g.children.contains_key(g.parents[child]) {
        let p = g.parents[child];
        g.children.insert(p, without(g.children[p], child))
    } else {
        g.children
    }
}

/// Graph after `add_child(parent, child)`.
pub open spec fn add_child_result(g: GraphModel, parent: ElementId, child: ElementId) -> GraphModel {
    let ch = detach(g, child);
    let list = if ch.contains_key(parent) { ch[parent] } else { Seq::empty() };
    GraphModel { children: ch.insert(parent, list.push(child)), parents: g.parents.insert(child, parent) }
}

/// Graph after `remove_child(parent, child)`.
pub open spec fn remove_child_result(g: GraphModel, parent: ElementId, child: ElementId) -> GraphModel {
    let ch = if g.children.contains_key(parent) {
        g.children.insert(parent, without(g.children[parent], child))
    } else {
        g.children
    };
    GraphModel { children: ch, parents: g.parents.remove(child) }
}

/// `y` is in the child list of `x`.
pub open spec fn is_child(c: Map<ElementId, Seq<ElementId>>, x: ElementId, y: ElementId) -> bool {
    c.contains_key(x) && c[x].contains(y)
}

/// `path` leads from its first to its last element along child lists.
pub open spec fn is_child_path(c: Map<ElementId, Seq<ElementId>>, path: Seq<ElementId>) -> bool {
    &&& path.len() >= 1
    &&& forall|i: int| 0 <= i < path.len() - 1 ==> #[trigger] is_child(c, path[i], path[i + 1])
}

/// `y` is `root` or a descendant of `root` along child lists.
pub open spec fn reachable(c: Map<ElementId, Seq<ElementId>>, root: ElementId, y: ElementId) -> bool {
    exists|path: Seq<ElementId>|
        #![trigger is_child_path(c, path)]
        is_child_path(c, path) && path[0] == root && path.last() == y
}

/// The subtree removed by `remove_element(root)`: everything reachable from `root`.
pub open spec fn subtree(g: GraphModel, root: ElementId) -> Set<ElementId> {
    Set::new(|y: ElementId| reachable(g.children, root, y))
}

/// Graph after `remove_element(root)`: every element of the subtree loses its
/// child list and its parent link, and disappears from the list of its recorded parent.
pub open spec fn remove_element_result(g: GraphModel, root: ElementId) -> GraphModel {
    let r = subtree(g, root);
    GraphModel {
        children: Map::new(
            |k: ElementId| g.children.contains_key(k) && !r.contains(k),
            |k: ElementId|
                drop_where(
                    g.children[k],
                    |y: ElementId| r.contains(y) && g.parents.contains_key(y) && g.parents[y] == k,
                ),
        ),
        parents: g.parents.remove_keys(r),
    }
}


/// After `add_child(parent, child)`, `child`'s parent is `parent`, it is the
/// last of `parent`'s children, and it is no longer in the list of a
/// different previous parent.
pub proof fn lemma_add_child_links(g: GraphModel, parent: ElementId, child: ElementId)
    ensures
        add_child_result(g, parent, child).parents.contains_key(child),
        add_child_result(g, parent, child).parents[child] == parent,
        add_child_result(g, parent, child).children.contains_key(parent),
        add_child_result(g, parent, child).children[parent].last() == child,
        (g.parents.contains_key(child) && g.parents[child] != parent && g.children.contains_key(g.parents[child]))
            ==> !add_child_result(g, parent, child).children[g.parents[child]].contains(child),
{
    if g.parents.contains_key(child) && g.children.contains_key(g.parents[child]) {
        let p = g.parents[child];
        lemma_drop_where_contains(g.children[p], equals(child), child);
    }
}

/// The parent links and the child lists agree: `q` is the recorded parent of
/// `x` exactly when `x` is in `q`'s child list, and no list holds an element twice.
pub open spec fn consistent(g: GraphModel) -> bool {
    &&& forall|x: ElementId, q: ElementId|
        #![trigger is_child(g.children, q, x)]
        #![trigger g.parents[x], g.children[q]]
        (g.parents.contains_key(x) && g.parents[x] == q) <==> is_child(g.children, q, x)
    &&& forall|q: ElementId| #[trigger] g.children.contains_key(q) ==> g.children[q].no_duplicates()
}

/// Dropping elements keeps a sequence free of repeats.
pub proof fn lemma_drop_where_no_dups(s: Seq<ElementId>, gone: spec_fn(ElementId) -> bool)
    requires
        s.no_duplicates(),
    ensures
        drop_where(s, gone).no_duplicates(),
    decreases s.len(),
{
    if s.len() > 0 {
        assert(s.drop_last().no_duplicates()) by {
            assert forall|i: int, j: int| 0 <= i < s.len() - 1 && 0 <= j < s.len() - 1 && i != j implies
                s.drop_last()[i] != s.drop_last()[j] by {
                assert(s[i] != s[j]);
            }
        }
        lemma_drop_where_no_dups(s.drop_last(), gone);
        let rest = drop_where(s.drop_last(), gone);
        if !gone(s.last()) {
            lemma_drop_where_contains(s.drop_last(), gone, s.last());
            assert(!s.drop_last().contains(s.last())) by {
                if s.drop_last().contains(s.last()) {
                    let i = choose|i: int| 0 <= i < s.len() - 1 && s.drop_last()[i] == s.last();
                    assert(s[i] == s[s.len() - 1]);
                }
            }
            let r2 = rest.push(s.last());
            assert forall|i: int, j: int| 0 <= i < r2.len() && 0 <= j < r2.len() && i != j implies r2[i] != r2[j] by {
                if i == rest.len() as int {
                    assert(rest[j] == r2[j]);
                    assert(rest.contains(rest[j]));
                } else if j == rest.len() as int {
                    assert(rest[i] == r2[i]);
                    assert(rest.contains(rest[i]));
                }
            }
        }
    }
}

/// `add_child` keeps the parent links and child lists in agreement.
pub proof fn lemma_add_child_consistent(g: GraphModel, parent: ElementId, child: ElementId)
    requires
        consistent(g),
    ensures
        consistent(add_child_result(g, parent, child)),
{
    let r = add_child_result(g, parent, child);
    let ch = detach(g, child);
    let has_old = g.parents.contains_key(child) && g.children.contains_key(g.parents[child]);
    let p = g.parents[child];
    if has_old {
        lemma_drop_where_contains(g.children[p], equals(child), child);
        lemma_drop_where_no_dups(g.children[p], equals(child));
    }
    assert forall|q: ElementId| ch.contains_key(q) implies !(#[trigger] ch[q]).contains(child) && ch[q].no_duplicates() by {
        if !(has_old && q == p) {
            assert(ch[q] == g.children[q]);
            if g.children[q].contains(child) {
                assert(is_child(g.children, q, child));
            }
        }
    }
    assert forall|x: ElementId, q: ElementId| x != child && ch.contains_key(q) implies
        (#[trigger] ch[q].contains(x) <==> g.children[q].contains(x)) by {
        if has_old && q == p {
            lemma_drop_where_contains(g.children[p], equals(child), x);
        }
    }
    let list = if ch.contains_key(parent) { ch[parent] } else { Seq::<ElementId>::empty() };
    assert(list.push(child).last() == child);
    assert(list.push(child).contains(child));
    assert forall|x: ElementId| x != child implies (list.push(child).contains(x) <==> list.contains(x)) by {
        if list.push(child).contains(x) {
            let i = choose|i: int| 0 <= i < list.len() + 1 && list.push(child)[i] == x;
            assert(list[i] == x);
        }
        if list.contains(x) {
            let i = choose|i: int| 0 <= i < list.len() && list[i] == x;
            assert(list.push(child)[i] == x);
        }
    }
    assert forall|x: ElementId, q: ElementId|
        (r.parents.contains_key(x) && r.parents[x] == q) <==> is_child(r.children, q, x) by {
        if x == child {
            if q != parent && is_child(r.children, q, child) {
                assert(r.children[q] == ch[q]);
            }
        } else {
            if q == parent {
                if ch.contains_key(parent) {
                    assert(ch[parent].contains(x) <==> g.children[parent].contains(x));
                }
                assert(is_child(g.children, q, x) <==> (g.parents.contains_key(x) && g.parents[x] == q));
            } else {
                if ch.contains_key(q) {
                    assert(ch[q].contains(x) <==> g.children[q].contains(x));
                }
                assert(is_child(g.children, q, x) <==> (g.parents.contains_key(x) && g.parents[x] == q));
            }
        }
    }
    assert forall|q: ElementId| #[trigger] r.children.contains_key(q) implies r.children[q].no_duplicates() by {
        if q == parent {
            let l2 = list.push(child);
            assert(list.no_duplicates());
            assert forall|i: int, j: int| 0 <= i < l2.len() && 0 <= j < l2.len() && i != j implies l2[i] != l2[j] by {
                if i == list.len() as int {
                    assert(list[j] == l2[j]);
                    assert(list.contains(list[j]));
                } else if j == list.len() as int {
                    assert(list[i] == l2[i]);
                    assert(list.contains(list[i]));
                }
            }
        }
    }
}

/// After `remove_child(parent, child)`, `child` has no parent and is not
/// among `parent`'s children.
pub proof fn lemma_remove_child_unlinks(g: GraphModel, parent: ElementId, child: ElementId)
    ensures
        !remove_child_result(g, parent, child).parents.contains_key(child),
        remove_child_result(g, parent, child).children.contains_key(parent)
            ==> !remove_child_result(g, parent, child).children[parent].contains(child),
{
    if g.children.contains_key(parent) {
        lemma_drop_where_contains(g.children[parent], equals(child), child);
    }
}

/// After `remove_element(root)`, neither `root` nor any element below it has
/// a child list or a parent link.
pub proof fn lemma_remove_element_gone(g: GraphModel, root: ElementId, y: ElementId)
    requires
        reachable(g.children, root, y),
    ensures
        !remove_element_result(g, root).children.contains_key(y),
        !remove_element_result(g, root).parents.contains_key(y),
{
    assert(subtree(g, root).contains(y));
}

/// `root` is below itself, so `remove_element(root)` removes it.
pub proof fn lemma_reachable_self(c: Map<ElementId, Seq<ElementId>>, root: ElementId)
    ensures
        reachable(c, root, root),
{
    let path = seq![root];
    assert(is_child_path(c, path));
}

/// Membership in `drop_where(s, gone)`: exactly the members of `s` that are not gone.
pub proof fn lemma_drop_where_contains(s: Seq<ElementId>, gone: spec_fn(ElementId) -> bool, y: ElementId)
    ensures
        drop_where(s, gone).contains(y) <==> (s.contains(y) && !gone(y)),
    decreases s.len(),
{
    if s.len() > 0 {
        lemma_drop_where_contains(s.drop_last(), gone, y);
        assert(s =~= s.drop_last().push(s.last()));
        if s.contains(y) && !(s.drop_last().contains(y)) {
            let i = choose|i: int| 0 <= i < s.len() && s[i] == y;
            if i < s.len() - 1 {
                assert(s.drop_last()[i] == y);
            }
        }
        let rest = drop_where(s.drop_last(), gone);
        if !gone(s.last()) {
            assert(rest.push(s.last())[rest.len() as int] == s.last());
            if rest.push(s.last()).contains(y) && y != s.last() {
                let i = choose|i: int| 0 <= i < rest.len() + 1 && rest.push(s.last())[i] == y;
                assert(rest[i] == y);
            }
            if rest.contains(y) {
                let i = choose|i: int| 0 <= i < rest.len() && rest[i] == y;
                assert(rest.push(s.last())[i] == y);
            }
        }
        if s.drop_last().contains(y) {
            let i = choose|i: int| 0 <= i < s.len() - 1 && s.drop_last()[i] == y;
            assert(s[i] == y);
        }
    }
}

/// Dropping nothing keeps the sequence.
pub proof fn lemma_drop_where_nothing(s: Seq<ElementId>, gone: spec_fn(ElementId) -> bool)
    requires
        forall|y: ElementId| !#[trigger] gone(y),
    ensures
        drop_where(s, gone) == s,
    decreases s.len(),
{
    if s.len() > 0 {
        lemma_drop_where_nothing(s.drop_last(), gone);
        assert(s =~= s.drop_last().push(s.last()));
    }
}

/// Dropping with pointwise-equal predicates gives the same result.
pub proof fn lemma_drop_where_ext(s: Seq<ElementId>, f: spec_fn(ElementId) -> bool, g: spec_fn(ElementId) -> bool)
    requires
        forall|y: ElementId| #[trigger] f(y) == g(y),
    ensures
        drop_where(s, f) == drop_where(s, g),
{
    assert(f =~= g);
}

/// Dropping twice is dropping by the disjunction.
pub proof fn lemma_drop_where_twice(
    s: Seq<ElementId>,
    f: spec_fn(ElementId) -> bool,
    g: spec_fn(ElementId) -> bool,
)
    ensures
        drop_where(drop_where(s, f), g) == drop_where(s, either(f, g)),
    decreases s.len(),
{
    if s.len() > 0 {
        lemma_drop_where_twice(s.drop_last(), f, g);
        let rest = drop_where(s.drop_last(), f);
        if !f(s.last()) {
            assert(rest.push(s.last()).drop_last() =~= rest);
        }
    }
}

/// Everything on a child path from a member of a set closed under children is in the set.
proof fn lemma_closed_path(c: Map<ElementId, Seq<ElementId>>, d: Set<ElementId>, path: Seq<ElementId>, n: int)
    requires
        is_child_path(c, path),
        d.contains(path[0]),
        forall|x: ElementId, y: ElementId| d.contains(x) && #[trigger] is_child(c, x, y) ==> d.contains(y),
        0 <= n < path.len(),
    ensures
        d.contains(path[n]),
    decreases n,
{
    if n > 0 {
        lemma_closed_path(c, d, path, n - 1);
        let i = n - 1;
        assert(is_child(c, path[i], path[i + 1]));
    }
}

/// A child of a reachable element is reachable.
pub proof fn lemma_reachable_child(c: Map<ElementId, Seq<ElementId>>, root: ElementId, x: ElementId, y: ElementId)
    requires
        reachable(c, root, x),
        is_child(c, x, y),
    ensures
        reachable(c, root, y),
{
    let path = choose|path: Seq<ElementId>| #![trigger is_child_path(c, path)]
        is_child_path(c, path) && path[0] == root && path.last() == x;
    let p2 = path.push(y);
    assert forall|i: int| 0 <= i < p2.len() - 1 implies #[trigger] is_child(c, p2[i], p2[i + 1]) by {
        if i < path.len() - 1 {
            assert(is_child(c, path[i], path[i + 1]));
        }
    }
    assert(is_child_path(c, p2));
}

/// Elements of the subtree gone from the list of parent `k`.
pub open spec fn gone_under(done: Set<ElementId>, parents: Map<ElementId, ElementId>, k: ElementId) -> spec_fn(ElementId) -> bool {
    |y: ElementId| done.contains(y) && parents.contains_key(y) && parents[y] == k
}

/// Graph managing the UI hierarchy.
pub struct ElementGraph {
    children: HashMap<ElementId, Vec<ElementId>>,
    parents: HashMap<ElementId, ElementId>,
}

impl View for ElementGraph {
    type V = GraphModel;

    closed spec fn view(&self) -> GraphModel {
        GraphModel {
            children: self.children@.map_values(|v: Vec<ElementId>| v@),
            parents: self.parents@,
        }
    }
}

/// `v` with every occurrence of `x` removed.
pub fn vec_without(v: &Vec<ElementId>, x: ElementId) -> (r: Vec<ElementId>)
    ensures
        r@ == without(v@, x),
{
    let mut r: Vec<ElementId> = Vec::new();
    let mut i: usize = 0;
    while i < v.len()
        invariant
            0 <= i <= v.len(),
            r@ == without(v@.take(i as int), x),
        decreases v.len() - i,
    {
        proof {
            assert(v@.take(i + 1).drop_last() =~= v@.take(i as int));
        }
        if v[i] != x {
            r.push(v[i]);
        }
        i = i + 1;
    }
    proof {
        assert(v@.take(v@.len() as int) =~= v@);
    }
    r
}

impl ElementGraph {
    pub fn new() -> (g: Self)
        ensures
            g@.children == Map::<ElementId, Seq<ElementId>>::empty(),
            g@.parents == Map::<ElementId, ElementId>::empty(),
    {
        let g = ElementGraph { children: HashMap::new(), parents: HashMap::new() };
        proof {
            assert(g@.children =~= Map::<ElementId, Seq<ElementId>>::empty());
        }
        g
    }

    /// Takes the child list of `key` out of the map, if it has one.
    fn take_children(&mut self, key: ElementId) -> (r: Option<Vec<ElementId>>)
        ensures
            final(self)@.parents == old(self)@.parents,
            final(self)@.children == old(self)@.children.remove(key),
            final(self).children@.dom() == old(self).children@.dom().remove(key),
            match r {
                Some(v) => old(self)@.children.contains_key(key) && v@ == old(self)@.children[key],
                None => !old(self)@.children.contains_key(key),
            },
    {
        let r = self.children.remove(&key);
        proof {
            assert(self.children@.dom() =~= old(self).children@.dom().remove(key));
            assert(self@.children =~= old(self)@.children.remove(key));
        }
        r
    }

    /// Puts `v` as the child list of `key`.
    fn put_children(&mut self, key: ElementId, v: Vec<ElementId>)
        ensures
            final(self)@.parents == old(self)@.parents,
            final(self)@.children == old(self)@.children.insert(key, v@),
            final(self).children@.dom() == old(self).children@.dom().insert(key),
    {
        self.children.insert(key, v);
        proof {
            assert(self.children@.dom() =~= old(self).children@.dom().insert(key));
            assert(self@.children =~= old(self)@.children.insert(key, v@));
        }
    }

    /// Makes `child` a child of `parent`, taking it out of its previous parent's list.
    pub fn add_child(&mut self, parent: ElementId, child: ElementId) -> (r: UiResult<()>)
        ensures
            r is Ok,
            final(self)@ == add_child_result(old(self)@, parent, child),
    {
        let ghost g0 = self@;
        match self.parents.get(&child) {
            Some(old_parent) => {
                let op = *old_parent;
                match self.take_children(op) {
                    Some(siblings) => {
                        let kept = vec_without(&siblings, child);
                        self.put_children(op, kept);
                        proof {
                            assert(self@.children =~= detach(g0, child));
                        }
                    },
                    None => {
                        proof {
                            assert(self@.children =~= detach(g0, child));
                        }
                    },
                }
            },
            None => {},
        }
        let ghost ch = self@.children;
        let mut list = match self.take_children(parent) {
            Some(v) => v,
            None => Vec::new(),
        };
        list.push(child);
        self.put_children(parent, list);
        self.parents.insert(child, parent);
        proof {
            assert(self@.children =~= add_child_result(g0, parent, child).children);
            assert(self@ =~= add_child_result(g0, parent, child));
        }
        Ok(())
    }

    /// Takes `child` out of the list of `parent` and forgets its parent link.
    pub fn remove_child(&mut self, parent: ElementId, child: ElementId) -> (r: UiResult<()>)
        ensures
            r is Ok,
            final(self)@ == remove_child_result(old(self)@, parent, child),
    {
        let ghost g0 = self@;
        match self.take_children(parent) {
            Some(v) => {
                let kept = vec_without(&v, child);
                self.put_children(parent, kept);
            },
            None => {},
        }
        self.parents.remove(&child);
        proof {
            assert(self@.children =~= remove_child_result(g0, parent, child).children);
            assert(self@ =~= remove_child_result(g0, parent, child));
        }
        Ok(())
    }

    pub fn get_children(&self, parent: ElementId) -> (r: Option<&Vec<ElementId>>)
        ensures
            match r {
                Some(v) => self@.children.contains_key(parent) && v@ == self@.children[parent],
                None => !self@.children.contains_key(parent),
            },
    {
        self.children.get(&parent)
    }

    pub fn get_parent(&self, child: ElementId) -> (r: Option<ElementId>)
        ensures
            match r {
                Some(p) => self@.parents.contains_key(child) && p == self@.parents[child],
                None => !self@.parents.contains_key(child),
            },
    {
        match self.parents.get(&child) {
            Some(p) => Some(*p),
            None => None,
        }
    }
}


impl ElementGraph {
    /// Removes `element` and, recursively, all its descendants.
    pub fn remove_element(&mut self, element: ElementId)
        ensures
            final(self)@ == remove_element_result(old(self)@, element),
    {
        let ghost c0 = self@.children;
        let ghost p0 = self@.parents;
        let mut stack: Vec<ElementId> = Vec::new();
        stack.push(element);
        let ghost mut done: Set<ElementId> = Set::empty();
        proof {
            assert(reachable(c0, element, element)) by {
                assert(is_child_path(c0, seq![element]));
            }
            assert(p0.remove_keys(done) =~= p0);
            assert(stack@[0] == element);
            assert forall|k: ElementId| #[trigger] self@.children.contains_key(k) implies self@.children[k] == drop_where(c0[k], gone_under(done, p0, k)) by {
                lemma_drop_where_nothing(c0[k], gone_under(done, p0, k));
            }
        }
        while stack.len() > 0
            invariant
                forall|k: ElementId| #[trigger] self@.children.contains_key(k) <==> c0.contains_key(k) && !done.contains(k),
                forall|k: ElementId| #[trigger] self@.children.contains_key(k) ==> self@.children[k] == drop_where(c0[k], gone_under(done, p0, k)),
                self@.parents == p0.remove_keys(done),
                forall|d: ElementId| #[trigger] done.contains(d) ==> reachable(c0, element, d),
                forall|i: int| 0 <= i < stack.len() ==> reachable(c0, element, #[trigger] stack@[i]),
                forall|x: ElementId, y: ElementId| done.contains(x) && #[trigger] is_child(c0, x, y) ==> done.contains(y) || stack@.contains(y),
                done.contains(element) || stack@.contains(element),
            decreases self.children@.dom().len(), stack.len(),
        {
            let ghost stack0 = stack@;
            let ghost ch0 = self@.children;
            let ghost dom0 = self.children@.dom().len();
            let x = stack.pop().unwrap();
            proof {
                assert(stack0 =~= stack@.push(x));
                assert forall|y: ElementId| stack0.contains(y) && y != x implies stack@.contains(y) by {
                    let i = choose|i: int| 0 <= i < stack0.len() && stack0[i] == y;
                    assert(stack@[i] == y);
                }
                assert(stack0[stack0.len() - 1] == x);
            }
            let ghost d1 = done.insert(x);
            // Detach x from its recorded parent.
            let ghost dom_before = self.children@.dom();
            match self.parents.remove(&x) {
                Some(p) => {
                    proof {
                        assert(p0.contains_key(x) && !done.contains(x) && p == p0[x]);
                    }
                    match self.take_children(p) {
                        Some(siblings) => {
                            let kept = vec_without(&siblings, x);
                            self.put_children(p, kept);
                            proof {
                                assert(ch0.contains_key(p));
                                lemma_drop_where_twice(c0[p], gone_under(done, p0, p), equals(x));
                                lemma_drop_where_ext(c0[p], either(gone_under(done, p0, p), equals(x)), gone_under(d1, p0, p));
                                assert(self@.children[p] == drop_where(c0[p], gone_under(d1, p0, p)));
                                assert(self.children@.dom() =~= dom_before);
                            }
                        },
                        None => {
                            proof {
                                assert(self.children@.dom() =~= dom_before);
                            }
                        },
                    }
                    proof {
                        assert forall|k: ElementId| #[trigger] self@.children.contains_key(k) implies self@.children[k] == drop_where(c0[k], gone_under(d1, p0, k)) by {
                            if k != p {
                                lemma_drop_where_ext(c0[k], gone_under(done, p0, k), gone_under(d1, p0, k));
                            }
                        }
                    }
                },
                None => {
                    proof {
                        assert forall|k: ElementId| #[trigger] self@.children.contains_key(k) implies self@.children[k] == drop_where(c0[k], gone_under(d1, p0, k)) by {
                            lemma_drop_where_ext(c0[k], gone_under(done, p0, k), gone_under(d1, p0, k));
                        }
                    }
                },
            }
            proof {
                assert(self@.parents =~= p0.remove_keys(d1));
                assert(self.children@.dom().len() <= dom0);
            }
            // Queue the children of x.
            let ghost popped = stack@;
            match self.take_children(x) {
                Some(list) => {
                    let ghost stack1 = stack@;
                    let mut j: usize = list.len();
                    while j > 0
                        invariant
                            j <= list.len(),
                            list@ == drop_where(c0[x], gone_under(d1, p0, x)),
                            c0.contains_key(x),
                            reachable(c0, element, x),
                            stack@ == stack1 + list@.subrange(j as int, list@.len() as int).reverse(),
                            forall|i: int| 0 <= i < stack.len() ==> reachable(c0, element, #[trigger] stack@[i]),
                        decreases j,
                    {
                        j = j - 1;
                        let y = list[j];
                        proof {
                            lemma_drop_where_contains(c0[x], gone_under(d1, p0, x), y);
                            assert(list@.contains(y));
                            assert(is_child(c0, x, y));
                            lemma_reachable_child(c0, element, x, y);
                        }
                        stack.push(y);
                        proof {
                            assert(list@.subrange(j as int, list@.len() as int) =~= seq![y] + list@.subrange(j + 1, list@.len() as int));
                            assert(stack@ =~= stack1 + list@.subrange(j as int, list@.len() as int).reverse());
                        }
                    }
                    proof {
                        assert forall|y: ElementId| popped.contains(y) implies #[trigger] stack@.contains(y) by {
                            let i = choose|i: int| 0 <= i < popped.len() && popped[i] == y;
                            assert(stack@[i] == y);
                        }
                        assert forall|y: ElementId| #[trigger] is_child(c0, x, y) implies d1.contains(y) || stack@.contains(y) by {
                            lemma_drop_where_contains(c0[x], gone_under(d1, p0, x), y);
                            if !d1.contains(y) {
                                assert(list@.contains(y));
                                let i = choose|i: int| 0 <= i < list@.len() && list@[i] == y;
                                let rev = list@.subrange(0, list@.len() as int).reverse();
                                assert(list@.subrange(0, list@.len() as int) =~= list@);
                                assert(rev[list@.len() - 1 - i] == y);
                                assert(stack@[stack1.len() + list@.len() - 1 - i] == y);
                            }
                        }
                    }
                },
                None => {
                    proof {
                        assert forall|y: ElementId| #[trigger] is_child(c0, x, y) implies d1.contains(y) || stack@.contains(y) by {
                            assert(!ch0.contains_key(x) || done.contains(x));
                        }
                    }
                },
            }
            proof {
                assert(forall|y: ElementId| popped.contains(y) ==> #[trigger] stack@.contains(y));
                assert forall|a: ElementId, y: ElementId| d1.contains(a) && #[trigger] is_child(c0, a, y) implies d1.contains(y) || stack@.contains(y) by {
                    if a != x {
                        if !d1.contains(y) {
                            assert(stack0.contains(y));
                            assert(popped.contains(y));
                        }
                    }
                }
                if !d1.contains(element) {
                    assert(stack0.contains(element));
                    assert(popped.contains(element));
                }
                assert forall|i: int| 0 <= i < stack.len() implies reachable(c0, element, #[trigger] stack@[i]) by {
                }
            }
            proof {
                done = d1;
            }
        }
        proof {
            let r = subtree(old(self)@, element);
            assert forall|y: ElementId| r.contains(y) <==> done.contains(y) by {
                if r.contains(y) {
                    let path = choose|path: Seq<ElementId>| #![trigger is_child_path(c0, path)]
                        is_child_path(c0, path) && path[0] == element && path.last() == y;
                    lemma_closed_path(c0, done, path, path.len() - 1);
                }
            }
            assert(r =~= done);
            let want = remove_element_result(old(self)@, element);
            assert forall|k: ElementId| #[trigger] self@.children.contains_key(k) implies self@.children[k] == want.children[k] by {
                lemma_drop_where_ext(c0[k], gone_under(done, p0, k), |y: ElementId| r.contains(y) && p0.contains_key(y) && p0[y] == k);
            }
            assert(self@.children =~= want.children);
            assert(self@ =~= want);
        }
    }
}


impl ElementGraph {
    /// Depth-first traversal starting at `root`.
    pub fn iter_depth_first(&self, root: ElementId) -> (it: DepthFirstIterator<'_>)
        ensures
            it.graph() == self@,
            it.pending() == seq![root],
    {
        let mut stack: Vec<ElementId> = Vec::new();
        stack.push(root);
        DepthFirstIterator { graph: self, stack }
    }
}

/// Depth-first traversal of an element graph.
pub struct DepthFirstIterator<'a> {
    graph: &'a ElementGraph,
    stack: Vec<ElementId>,
}

impl<'a> DepthFirstIterator<'a> {
    /// Elements still to visit; the last one is visited next.
    pub closed spec fn pending(&self) -> Seq<ElementId> {
        self.stack@
    }

    /// The graph being traversed.
    pub closed spec fn graph(&self) -> GraphModel {
        self.graph@
    }

    /// Visits the next element and schedules its children so that the first child comes next.
    pub fn next(&mut self) -> (r: Option<ElementId>)
        ensures
            final(self).graph() == old(self).graph(),
            match r {
                None => old(self).pending().len() == 0 && final(self).pending() == old(self).pending(),
                Some(e) => {
                    &&& old(self).pending().len() > 0
                    &&& e == old(self).pending().last()
                    &&& final(self).pending() == old(self).pending().drop_last() + (
                        if old(self).graph().children.contains_key(e) {
                            old(self).graph().children[e].reverse()
                        } else {
                            Seq::empty()
                        })
                },
            },
    {
        match self.stack.pop() {
            Some(element) => {
                let ghost base = self.stack@;
                let ghost g = self.graph();
                match self.graph.get_children(element) {
                    Some(children) => {
                        let mut j: usize = children.len();
                        while j > 0
                            invariant
                                j <= children.len(),
                                self.graph() == g,
                                children@ == g.children[element],
                                self.stack@ == base + children@.subrange(j as int, children@.len() as int).reverse(),
                            decreases j,
                        {
                            j = j - 1;
                            self.stack.push(children[j]);
                            proof {
                                assert(children@.subrange(j as int, children@.len() as int) =~= seq![children@[j as int]] + children@.subrange(j + 1, children@.len() as int));
                                assert(self.stack@ =~= base + children@.subrange(j as int, children@.len() as int).reverse());
                            }
                        }
                        proof {
                            assert(children@.subrange(0, children@.len() as int) =~= children@);
                        }
                    },
                    None => {
                        proof {
                            assert(self.stack@ =~= base + Seq::<ElementId>::empty());
                        }
                    },
                }
                Some(element)
            },
            None => None,
        }
    }
}

} // verus!
