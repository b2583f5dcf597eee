//! A drawing canvas over a scene graph: a current transform and paint, a stack of saved
//! states, and drawing calls that add painted, transformed nodes. Generic over what a node
//! draws (`K`), the transform (`T`), the paint (`P`) and the stored path (`S`); the canvas
//! stores them and never computes with them.
use vstd::prelude::*;
use crate::scenegraph::{NodeId, PathId, SceneGraph, SceneNode, NODE_NULL};

verus! {

/// The transform and paint that drawing uses.
#[derive(Debug, Clone, Copy)]
pub struct DrawState<T, P> {
    pub transform: T,
    pub paint: P,
}

pub struct Canvas<K, T, P, S> {
    graph: SceneGraph<K, T, P, S>,
    state_stack: Vec<DrawState<T, P>>,
    current: DrawState<T, P>,
}

/// The node that a drawing call adds: `kind`, painted with paint `paint_id`, transformed by
/// `transform`, with no parent, children or siblings, visible.
pub open spec fn drawn_node<K, T>(kind: K, paint_id: u32, transform: T) -> SceneNode<K, T> {
    SceneNode {
        kind,
        paint_id,
        transform,
        parent: NODE_NULL,
        first_child: NODE_NULL,
        next_sibling: NODE_NULL,
        visible: true,
    }
}

impl<K: Copy, T: Copy + Default, P: Copy + Default, S> Canvas<K, T, P, S> {
    pub closed spec fn spec_graph(&self) -> SceneGraph<K, T, P, S> {
        self.graph
    }

    /// The saved states, the last saved last.
    pub closed spec fn spec_stack(&self) -> Seq<DrawState<T, P>> {
        self.state_stack@
    }

    pub closed spec fn spec_current(&self) -> DrawState<T, P> {
        self.current
    }

    /// An empty canvas drawing with `T::default()` and `P::default()`.
    pub fn new() -> (c: Self)
        ensures
            c.spec_graph().nodes@ == Seq::<SceneNode<K, T>>::empty(),
            c.spec_graph().paints@ == Seq::<P>::empty(),
            c.spec_graph().paths@ == Seq::<S>::empty(),
            c.spec_graph().paint_order@ == Seq::<NodeId>::empty(),
            c.spec_stack() == Seq::<DrawState<T, P>>::empty(),
            call_ensures(T::default, (), c.spec_current().transform),
            call_ensures(P::default, (), c.spec_current().paint),
    {
        Self {
            graph: SceneGraph::new(),
            state_stack: Vec::new(),
            current: DrawState { transform: T::default(), paint: P::default() },
        }
    }

    pub fn set_paint(&mut self, paint: P)
        ensures
            (final(self).spec_stack(), final(self).spec_current()) == canvas_step(
                old(self).spec_stack(),
                old(self).spec_current(),
                CanvasOp::SetPaint(paint),
            ),
            final(self).spec_current() == (DrawState { paint, ..old(self).spec_current() }),
            final(self).spec_stack() == old(self).spec_stack(),
            final(self).spec_graph() == old(self).spec_graph(),
    {
        self.current.paint = paint;
    }

    pub fn set_transform(&mut self, transform: T)
        ensures
            (final(self).spec_stack(), final(self).spec_current()) == canvas_step(
                old(self).spec_stack(),
                old(self).spec_current(),
                CanvasOp::SetTransform(transform),
            ),
            final(self).spec_current() == (DrawState { transform, ..old(self).spec_current() }),
            final(self).spec_stack() == old(self).spec_stack(),
            final(self).spec_graph() == old(self).spec_graph(),
    {
        self.current.transform = transform;
    }

    pub fn transform(&self) -> (t: T)
        ensures
            t == self.spec_current().transform,
    {
        self.current.transform
    }

    pub fn paint(&self) -> (p: P)
        ensures
            p == self.spec_current().paint,
    {
        self.current.paint
    }

    /// Pushes the current state.
    pub fn save(&mut self)
        ensures
            (final(self).spec_stack(), final(self).spec_current()) == canvas_step(
                old(self).spec_stack(),
                old(self).spec_current(),
                CanvasOp::Save,
            ),
            final(self).spec_stack() == old(self).spec_stack().push(old(self).spec_current()),
            final(self).spec_current() == old(self).spec_current(),
            final(self).spec_graph() == old(self).spec_graph(),
    {
        self.state_stack.push(self.current);
    }

    /// Pops the last saved state into the current one; does nothing when none is saved.
    pub fn restore(&mut self)
        ensures
            (final(self).spec_stack(), final(self).spec_current()) == canvas_step(
                old(self).spec_stack(),
                old(self).spec_current(),
                CanvasOp::Restore,
            ),
            old(self).spec_stack().len() > 0 ==> {
                &&& final(self).spec_current() == old(self).spec_stack().last()
                &&& final(self).spec_stack() == old(self).spec_stack().drop_last()
            },
            old(self).spec_stack().len() == 0 ==> {
                &&& final(self).spec_current() == old(self).spec_current()
                &&& final(self).spec_stack() == old(self).spec_stack()
            },
            final(self).spec_graph() == old(self).spec_graph(),
    {
        if let Some(state) = self.state_stack.pop() {
            self.current = state;
        }
    }

    /// Adds a node drawing `kind` with the current paint (stored as a new paint) and the
    /// current transform.
    pub fn draw(&mut self, kind: K) -> (id: NodeId)
        requires
            old(self).spec_graph().nodes@.len() < u32::MAX,
        ensures
            (final(self).spec_stack(), final(self).spec_current()) == canvas_step(
                old(self).spec_stack(),
                old(self).spec_current(),
                CanvasOp::Draw,
            ),
            id == old(self).spec_graph().nodes@.len(),
            final(self).spec_graph().paints@ == old(self).spec_graph().paints@.push(
                old(self).spec_current().paint,
            ),
            final(self).spec_graph().nodes@ == old(self).spec_graph().nodes@.push(
                drawn_node(
                    kind,
                    old(self).spec_graph().paints@.len() as u32,
                    old(self).spec_current().transform,
                ),
            ),
            final(self).spec_graph().paths@ == old(self).spec_graph().paths@,
            final(self).spec_graph().paint_order@ == old(self).spec_graph().paint_order@.push(id),
            final(self).spec_current() == old(self).spec_current(),
            final(self).spec_stack() == old(self).spec_stack(),
    {
        let paint_id = self.graph.add_paint(self.current.paint);
        let node = self.graph.add_node(kind, paint_id);
        self.graph.set_transform(node, self.current.transform);
        assert(self.graph.nodes@ =~= old(self).graph.nodes@.push(
            drawn_node(kind, paint_id, self.current.transform),
        ));
        node
    }

    /// Stores a path and adds a node drawing it, `kind_of` giving the node's kind from the
    /// stored path's id, with the current paint (stored as a new paint) and transform.
    pub fn draw_path<F: Fn(PathId) -> K>(&mut self, stored: S, kind_of: F) -> (id: NodeId)
        requires
            old(self).spec_graph().nodes@.len() < u32::MAX,
            forall|p: PathId| call_requires(kind_of, (p,)),
        ensures
            (final(self).spec_stack(), final(self).spec_current()) == canvas_step(
                old(self).spec_stack(),
                old(self).spec_current(),
                CanvasOp::Draw,
            ),
            id == old(self).spec_graph().nodes@.len(),
            final(self).spec_graph().paints@ == old(self).spec_graph().paints@.push(
                old(self).spec_current().paint,
            ),
            final(self).spec_graph().paths@ == old(self).spec_graph().paths@.push(stored),
            final(self).spec_graph().nodes@.len() == old(self).spec_graph().nodes@.len() + 1,
            final(self).spec_graph().nodes@.drop_last() == old(self).spec_graph().nodes@,
            exists|kind: K|
                {
                    &&& #[trigger] call_ensures(
                        kind_of,
                        (old(self).spec_graph().paths@.len() as u32,),
                        kind,
                    )
                    &&& final(self).spec_graph().nodes@.last() == drawn_node(
                        kind,
                        old(self).spec_graph().paints@.len() as u32,
                        old(self).spec_current().transform,
                    )
                },
            final(self).spec_graph().paint_order@ == old(self).spec_graph().paint_order@.push(id),
            final(self).spec_current() == old(self).spec_current(),
            final(self).spec_stack() == old(self).spec_stack(),
    {
        let paint_id = self.graph.add_paint(self.current.paint);
        let path_id = self.graph.store_path(stored);
        let kind = kind_of(path_id);
        let node = self.graph.add_node(kind, paint_id);
        self.graph.set_transform(node, self.current.transform);
        assert(self.graph.nodes@ =~= old(self).graph.nodes@.push(
            drawn_node(kind, paint_id, self.current.transform),
        ));
        assert(self.graph.nodes@.drop_last() =~= old(self).graph.nodes@);
        node
    }

    /// Adds a group node drawing `kind` with the current paint (stored as a new paint); the
    /// group keeps the transform that `T::default()` gives.
    pub fn begin_group(&mut self, kind: K) -> (id: NodeId)
        ensures
            (final(self).spec_stack(), final(self).spec_current()) == canvas_step(
                old(self).spec_stack(),
                old(self).spec_current(),
                CanvasOp::Draw,
            ),
            id == old(self).spec_graph().nodes@.len() as u32,
            final(self).spec_graph().paints@ == old(self).spec_graph().paints@.push(
                old(self).spec_current().paint,
            ),
            final(self).spec_graph().nodes@.len() == old(self).spec_graph().nodes@.len() + 1,
            final(self).spec_graph().nodes@.drop_last() == old(self).spec_graph().nodes@,
            ({
                let n = final(self).spec_graph().nodes@.last();
                &&& n.kind == kind
                &&& n.paint_id == old(self).spec_graph().paints@.len() as u32
                &&& n.parent == NODE_NULL
                &&& n.first_child == NODE_NULL
                &&& n.next_sibling == NODE_NULL
                &&& n.visible
                &&& call_ensures(T::default, (), n.transform)
            }),
            final(self).spec_graph().paths@ == old(self).spec_graph().paths@,
            final(self).spec_graph().paint_order@ == old(self).spec_graph().paint_order@.push(id),
            final(self).spec_current() == old(self).spec_current(),
            final(self).spec_stack() == old(self).spec_stack(),
    {
        let paint_id = self.graph.add_paint(self.current.paint);
        let id = self.graph.add_node(kind, paint_id);
        assert(self.graph.nodes@.drop_last() =~= self.graph.nodes@.take(
            old(self).graph.nodes@.len() as int,
        ));
        id
    }

    /// Ends a group; nothing is recorded.
    pub fn end_group(&mut self)
        ensures
            *final(self) == *old(self),
    {
    }

    pub fn graph(&self) -> (g: &SceneGraph<K, T, P, S>)
        ensures
            *g == self.spec_graph(),
    {
        &self.graph
    }
}

impl<K: Copy, T: Copy + Default, P: Copy + Default, S> Default for Canvas<K, T, P, S> {
    fn default() -> (c: Self)
        ensures
            c.spec_graph().nodes@ == Seq::<SceneNode<K, T>>::empty(),
            c.spec_graph().paints@ == Seq::<P>::empty(),
            c.spec_graph().paths@ == Seq::<S>::empty(),
            c.spec_graph().paint_order@ == Seq::<NodeId>::empty(),
            c.spec_stack() == Seq::<DrawState<T, P>>::empty(),
            call_ensures(T::default, (), c.spec_current().transform),
            call_ensures(P::default, (), c.spec_current().paint),
    {
        Self::new()
    }
}

/// The stack and current state after a save.
pub open spec fn after_save<T, P>(stack: Seq<DrawState<T, P>>, current: DrawState<T, P>) -> (
    Seq<DrawState<T, P>>,
    DrawState<T, P>,
) {
    (stack.push(current), current)
}

/// The stack and current state after a restore.
pub open spec fn after_restore<T, P>(stack: Seq<DrawState<T, P>>, current: DrawState<T, P>) -> (
    Seq<DrawState<T, P>>,
    DrawState<T, P>,
) {
    if stack.len() > 0 {
        (stack.drop_last(), stack.last())
    } else {
        (stack, current)
    }
}

/// A restore undoes a save, whatever was set in between: the stack is as it was before the
/// save and the current state is the one that was saved.
pub proof fn lemma_restore_undoes_save<T, P>(
    stack: Seq<DrawState<T, P>>,
    current: DrawState<T, P>,
    changed: DrawState<T, P>,
)
    ensures
        after_restore(after_save(stack, current).0, changed) == (stack, current),
{
    assert(stack.push(current).drop_last() =~= stack);
}


/// A call on a canvas, as far as its current state and saved states go: drawing calls
/// change neither.
pub enum CanvasOp<T, P> {
    Save,
    Restore,
    SetPaint(P),
    SetTransform(T),
    Draw,
}

/// The saved states and current state after one call.
pub open spec fn canvas_step<T, P>(
    stack: Seq<DrawState<T, P>>,
    current: DrawState<T, P>,
    op: CanvasOp<T, P>,
) -> (Seq<DrawState<T, P>>, DrawState<T, P>) {
    match op {
        CanvasOp::Save => after_save(stack, current),
        CanvasOp::Restore => after_restore(stack, current),
        CanvasOp::SetPaint(paint) => (stack, DrawState { paint, ..current }),
        CanvasOp::SetTransform(transform) => (stack, DrawState { transform, ..current }),
        CanvasOp::Draw => (stack, current),
    }
}

/// The saved states and current state after a run of calls.
pub open spec fn canvas_run<T, P>(
    stack: Seq<DrawState<T, P>>,
    current: DrawState<T, P>,
    ops: Seq<CanvasOp<T, P>>,
) -> (Seq<DrawState<T, P>>, DrawState<T, P>)
    decreases ops.len(),
{
    if ops.len() == 0 {
        (stack, current)
    } else {
        let next = canvas_step(stack, current, ops[0]);
        canvas_run(next.0, next.1, ops.drop_first())
    }
}

/// Whether a run of calls, started with `open` of its own saves pending, never restores a
/// state it did not save.
pub open spec fn restores_within<T, P>(ops: Seq<CanvasOp<T, P>>, open: nat) -> bool
    decreases ops.len(),
{
    if ops.len() == 0 {
        true
    } else {
        match ops[0] {
            CanvasOp::Save => restores_within(ops.drop_first(), open + 1),
            CanvasOp::Restore => open > 0 && restores_within(ops.drop_first(), (open - 1) as nat),
            _ => restores_within(ops.drop_first(), open),
        }
    }
}

/// Saves minus restores in a run of calls.
pub open spec fn save_depth<T, P>(ops: Seq<CanvasOp<T, P>>) -> int
    decreases ops.len(),
{
    if ops.len() == 0 {
        0
    } else {
        match ops[0] {
            CanvasOp::Save => 1 + save_depth(ops.drop_first()),
            CanvasOp::Restore => save_depth(ops.drop_first()) - 1,
            _ => save_depth(ops.drop_first()),
        }
    }
}

/// Running two runs of calls one after the other is running them joined.
proof fn lemma_canvas_run_concat<T, P>(
    stack: Seq<DrawState<T, P>>,
    current: DrawState<T, P>,
    a: Seq<CanvasOp<T, P>>,
    b: Seq<CanvasOp<T, P>>,
)
    ensures
        canvas_run(stack, current, a + b) == canvas_run(
            canvas_run(stack, current, a).0,
            canvas_run(stack, current, a).1,
            b,
        ),
    decreases a.len(),
{
    if a.len() == 0 {
        assert(a + b =~= b);
    } else {
        let next = canvas_step(stack, current, a[0]);
        assert((a + b)[0] == a[0]);
        assert((a + b).drop_first() =~= a.drop_first() + b);
        lemma_canvas_run_concat(next.0, next.1, a.drop_first(), b);
    }
}

/// A run that restores only what it saved leaves the states saved before it alone.
proof fn lemma_canvas_run_keeps_base<T, P>(
    base: Seq<DrawState<T, P>>,
    top: Seq<DrawState<T, P>>,
    current: DrawState<T, P>,
    ops: Seq<CanvasOp<T, P>>,
)
    requires
        restores_within(ops, top.len()),
    ensures
        canvas_run(base + top, current, ops).0.len() == base.len() + top.len() + save_depth(ops),
        canvas_run(base + top, current, ops).0.take(base.len() as int) == base,
    decreases ops.len(),
{
    if ops.len() == 0 {
        assert((base + top).take(base.len() as int) =~= base);
    } else {
        let rest = ops.drop_first();
        match ops[0] {
            CanvasOp::Save => {
                assert((base + top).push(current) =~= base + top.push(current));
                lemma_canvas_run_keeps_base(base, top.push(current), current, rest);
            },
            CanvasOp::Restore => {
                assert((base + top).drop_last() =~= base + top.drop_last());
                assert((base + top).last() == top.last());
                lemma_canvas_run_keeps_base(base, top.drop_last(), top.last(), rest);
            },
            CanvasOp::SetPaint(paint) => {
                lemma_canvas_run_keeps_base(base, top, DrawState { paint, ..current }, rest);
            },
            CanvasOp::SetTransform(transform) => {
                lemma_canvas_run_keeps_base(base, top, DrawState { transform, ..current }, rest);
            },
            CanvasOp::Draw => {
                lemma_canvas_run_keeps_base(base, top, current, rest);
            },
        }
    }
}

/// A restore undoes every change since its matching save: whatever paints, transforms,
/// drawing calls and balanced nested saves and restores come in between, the saved states
/// and the current state afterwards are those before the save.
pub proof fn lemma_restore_undoes_balanced<T, P>(
    stack: Seq<DrawState<T, P>>,
    current: DrawState<T, P>,
    ops: Seq<CanvasOp<T, P>>,
)
    requires
        restores_within(ops, 0),
        save_depth(ops) == 0,
    ensures
        canvas_run(stack, current, seq![CanvasOp::Save] + ops + seq![CanvasOp::Restore]) == (
            stack,
            current,
        ),
{
    let save = seq![CanvasOp::<T, P>::Save];
    let restore = seq![CanvasOp::<T, P>::Restore];
    lemma_canvas_run_concat(stack, current, save + ops, restore);
    lemma_canvas_run_concat(stack, current, save, ops);
    reveal_with_fuel(canvas_run, 2);
    let saved = canvas_run(stack, current, save);
    assert(save[0] == CanvasOp::<T, P>::Save);
    assert(save.drop_first() =~= Seq::<CanvasOp<T, P>>::empty());
    assert(saved == (stack.push(current), current));
    assert(stack.push(current) =~= stack.push(current) + Seq::<DrawState<T, P>>::empty());
    lemma_canvas_run_keeps_base(stack.push(current), Seq::empty(), current, ops);
    let mid = canvas_run(saved.0, saved.1, ops);
    assert(mid.0 =~= stack.push(current));
    assert(restore[0] == CanvasOp::<T, P>::Restore);
    assert(restore.drop_first() =~= Seq::<CanvasOp<T, P>>::empty());
    assert(stack.push(current).drop_last() =~= stack);
    assert(canvas_run(mid.0, mid.1, restore) == (stack, current));
}

} // verus!
