//! A scene graph stored as flat arrays: nodes linked to their parent, first child and next
//! sibling by index, paints and stored paths referred to by index, and the order in which
//! nodes are painted. Generic over what a node draws (`K`), its transform (`T`), the paint
//! (`P`) and the stored path (`S`), which the graph only stores.
use vstd::prelude::*;

verus! {

pub type NodeId = u32;

pub type PaintId = u32;

pub type PathId = u32;

/// The id that stands for "no node".
pub const NODE_NULL: NodeId = 0xFFFF_FFFF;

#[derive(Debug, Clone, Copy)]
pub struct SceneNode<K, T> {
    pub kind: K,
    pub paint_id: PaintId,
    pub transform: T,
    pub parent: NodeId,
    pub first_child: NodeId,
    pub next_sibling: NodeId,
    pub visible: bool,
}

pub struct SceneGraph<K, T, P, S> {
    pub nodes: Vec<SceneNode<K, T>>,
    pub paints: Vec<P>,
    pub paths: Vec<S>,
    pub paint_order: Vec<NodeId>,
}

impl<K: Copy, T: Copy + Default, P, S> SceneGraph<K, T, P, S> {
    pub fn new() -> (g: Self)
        ensures
            g.nodes@ == Seq::<SceneNode<K, T>>::empty(),
            g.paints@ == Seq::<P>::empty(),
            g.paths@ == Seq::<S>::empty(),
            g.paint_order@ == Seq::<NodeId>::empty(),
    {
        Self { nodes: Vec::new(), paints: Vec::new(), paths: Vec::new(), paint_order: Vec::new() }
    }

    /// Stores a paint; its id is the number of paints stored before it (as a `u32`).
    pub fn add_paint(&mut self, paint: P) -> (id: PaintId)
        ensures
            id == old(self).paints@.len() as u32,
            final(self).paints@ == old(self).paints@.push(paint),
            final(self).nodes@ == old(self).nodes@,
            final(self).paths@ == old(self).paths@,
            final(self).paint_order@ == old(self).paint_order@,
    {
        let id = self.paints.len() as PaintId;
        self.paints.push(paint);
        id
    }

    /// Stores a path; its id is the number of paths stored before it (as a `u32`).
    pub fn store_path(&mut self, stored: S) -> (id: PathId)
        ensures
            id == old(self).paths@.len() as u32,
            final(self).paths@ == old(self).paths@.push(stored),
            final(self).nodes@ == old(self).nodes@,
            final(self).paints@ == old(self).paints@,
            final(self).paint_order@ == old(self).paint_order@,
    {
        let id = self.paths.len() as PathId;
        self.paths.push(stored);
        id
    }

    /// The stored path with this id, if there is one.
    pub fn get_path(&self, id: PathId) -> (r: Option<&S>)
        ensures
            (id < self.paths@.len()) == (r is Some),
            id < self.paths@.len() ==> *r.unwrap() == self.paths@[id as int],
    {
        let i = id as usize;
        if i < self.paths.len() {
            Some(&self.paths[i])
        } else {
            None
        }
    }

    /// Adds a visible node with no parent, children or siblings, transformed by
    /// `T::default()`, and paints it after all nodes added before. Its id is the number of
    /// nodes added before it (as a `u32`).
    pub fn add_node(&mut self, kind: K, paint_id: PaintId) -> (id: NodeId)
        ensures
            id == old(self).nodes@.len() as u32,
            final(self).nodes@.len() == old(self).nodes@.len() + 1,
            final(self).nodes@.take(old(self).nodes@.len() as int) == old(self).nodes@,
            ({
                let n = final(self).nodes@.last();
                &&& n.kind == kind
                &&& n.paint_id == paint_id
                &&& n.parent == NODE_NULL
                &&& n.first_child == NODE_NULL
                &&& n.next_sibling == NODE_NULL
                &&& n.visible
                &&& call_ensures(T::default, (), n.transform)
            }),
            final(self).paint_order@ == old(self).paint_order@.push(id),
            final(self).paints@ == old(self).paints@,
            final(self).paths@ == old(self).paths@,
    {
        let id = self.nodes.len() as NodeId;
        self.nodes.push(
            SceneNode {
                kind,
                paint_id,
                transform: T::default(),
                parent: NODE_NULL,
                first_child: NODE_NULL,
                next_sibling: NODE_NULL,
                visible: true,
            },
        );
        self.paint_order.push(id);
        assert(self.nodes@.take(old(self).nodes@.len() as int) =~= old(self).nodes@);
        id
    }

    /// Makes `child` the first child of `parent`; the previous first child of `parent`
    /// becomes the next sibling of `child`.
    pub fn add_child(&mut self, parent: NodeId, child: NodeId)
        requires
            parent < old(self).nodes@.len(),
            child < old(self).nodes@.len(),
        ensures
            final(self).nodes@.len() == old(self).nodes@.len(),
            final(self).nodes@[parent as int].first_child == child,
            final(self).nodes@[child as int].parent == parent,
            final(self).nodes@[child as int].next_sibling == old(self).nodes@[
                parent as int].first_child,
            parent != child ==> {
                &&& final(self).nodes@[parent as int] == (SceneNode {
                    first_child: child,
                    ..old(self).nodes@[parent as int]
                })
                &&& final(self).nodes@[child as int] == (SceneNode {
                    parent,
                    next_sibling: old(self).nodes@[parent as int].first_child,
                    ..old(self).nodes@[child as int]
                })
            },
            parent == child ==> final(self).nodes@[child as int] == (SceneNode {
                first_child: child,
                parent,
                next_sibling: old(self).nodes@[parent as int].first_child,
                ..old(self).nodes@[child as int]
            }),
            forall|i: int|
                0 <= i < old(self).nodes@.len() && i != parent && i != child
                    ==> #[trigger] final(self).nodes@[i] == old(self).nodes@[i],
            final(self).paints@ == old(self).paints@,
            final(self).paths@ == old(self).paths@,
            final(self).paint_order@ == old(self).paint_order@,
    {
        let mut parent_node = self.nodes[parent as usize];
        let old_first = parent_node.first_child;
        parent_node.first_child = child;
        self.nodes.set(parent as usize, parent_node);

        let mut child_node = self.nodes[child as usize];
        child_node.parent = parent;
        child_node.next_sibling = old_first;
        self.nodes.set(child as usize, child_node);
    }

    /// Replaces the transform of a node.
    pub fn set_transform(&mut self, node: NodeId, transform: T)
        requires
            node < old(self).nodes@.len(),
        ensures
            final(self).nodes@ == old(self).nodes@.update(
                node as int,
                SceneNode { transform, ..old(self).nodes@[node as int] },
            ),
            final(self).paints@ == old(self).paints@,
            final(self).paths@ == old(self).paths@,
            final(self).paint_order@ == old(self).paint_order@,
    {
        let mut n = self.nodes[node as usize];
        n.transform = transform;
        self.nodes.set(node as usize, n);
    }
}

impl<K: Copy, T: Copy + Default, P, S> Default for SceneGraph<K, T, P, S> {
    fn default() -> (g: Self)
        ensures
            g.nodes@ == Seq::<SceneNode<K, T>>::empty(),
            g.paints@ == Seq::<P>::empty(),
            g.paths@ == Seq::<S>::empty(),
            g.paint_order@ == Seq::<NodeId>::empty(),
    {
        Self::new()
    }
}

} // verus!
