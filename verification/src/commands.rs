//! A path kept as the list of drawing commands it was built from, with chained building.
//! Generic over the point type.
use vstd::prelude::*;

verus! {

/// One drawing command.
pub enum PathCommand<P> {
    MoveTo(P),
    LineTo(P),
    CurveTo(P, P, P),
    Close,
}

/// A path as the commands given to it, in order, and whether it has been closed.
pub struct Path<P> {
    commands: Vec<PathCommand<P>>,
    closed: bool,
}

impl<P> Path<P> {
    pub closed spec fn spec_commands(&self) -> Seq<PathCommand<P>> {
        self.commands@
    }

    /// Whether `close` has been called on the path.
    pub closed spec fn spec_closed(&self) -> bool {
        self.closed
    }

    pub fn new() -> (p: Self)
        ensures
            p.spec_commands() == Seq::<PathCommand<P>>::empty(),
            !p.spec_closed(),
    {
        Self { commands: Vec::new(), closed: false }
    }

    /// Adds a move; returns the path for chaining.
    pub fn move_to(&mut self, p: P) -> (r: &mut Self)
        ensures
            r.spec_commands() == old(self).spec_commands().push(PathCommand::MoveTo(p)),
            r.spec_closed() == old(self).spec_closed(),
            *final(self) == *final(r),
    {
        self.commands.push(PathCommand::MoveTo(p));
        self
    }

    /// Adds a line; returns the path for chaining.
    pub fn line_to(&mut self, p: P) -> (r: &mut Self)
        ensures
            r.spec_commands() == old(self).spec_commands().push(PathCommand::LineTo(p)),
            r.spec_closed() == old(self).spec_closed(),
            *final(self) == *final(r),
    {
        self.commands.push(PathCommand::LineTo(p));
        self
    }

    /// Adds a cubic curve through the control points `c1`, `c2` to `p`; returns the path for
    /// chaining.
    pub fn curve_to(&mut self, c1: P, c2: P, p: P) -> (r: &mut Self)
        ensures
            r.spec_commands() == old(self).spec_commands().push(PathCommand::CurveTo(c1, c2, p)),
            r.spec_closed() == old(self).spec_closed(),
            *final(self) == *final(r),
    {
        self.commands.push(PathCommand::CurveTo(c1, c2, p));
        self
    }

    /// Adds a close and marks the path closed; returns the path for chaining.
    pub fn close(&mut self) -> (r: &mut Self)
        ensures
            r.spec_commands() == old(self).spec_commands().push(PathCommand::Close),
            r.spec_closed(),
            *final(self) == *final(r),
    {
        self.closed = true;
        self.commands.push(PathCommand::Close);
        self
    }

    pub fn commands(&self) -> (c: &[PathCommand<P>])
        ensures
            c@ == self.spec_commands(),
    {
        self.commands.as_slice()
    }

    pub fn is_closed(&self) -> (b: bool)
        ensures
            b == self.spec_closed(),
    {
        self.closed
    }
}

impl<P> Default for Path<P> {
    fn default() -> (p: Self)
        ensures
            p.spec_commands() == Seq::<PathCommand<P>>::empty(),
            !p.spec_closed(),
    {
        Self::new()
    }
}

/// A path is closed exactly when a close is among its commands: every command keeps the
/// flag, and only a close sets it.
pub proof fn lemma_closed_iff_close_command<P>(before: Path<P>, after: Path<P>, c: PathCommand<P>)
    requires
        before.spec_closed() <==> before.spec_commands().contains(PathCommand::Close),
        after.spec_commands() == before.spec_commands().push(c),
        after.spec_closed() == (before.spec_closed() || c == PathCommand::<P>::Close),
    ensures
        after.spec_closed() <==> after.spec_commands().contains(PathCommand::Close),
{
    let s = before.spec_commands();
    if s.contains(PathCommand::Close) {
        let i = choose|i: int| 0 <= i < s.len() && s[i] == PathCommand::<P>::Close;
        assert(s.push(c)[i] == PathCommand::<P>::Close);
    }
    if c == PathCommand::<P>::Close {
        assert(s.push(c)[s.len() as int] == c);
    }
    if after.spec_commands().contains(PathCommand::Close) {
        let i = choose|i: int|
            0 <= i < s.push(c).len() && s.push(c)[i] == PathCommand::<P>::Close;
        if i < s.len() {
            assert(s[i] == PathCommand::<P>::Close);
        }
    }
}

} // verus!
