//! The animation capability the turn flow consumes: an owned,
//! progressable object that walks a path one frame at a time and says
//! whether it is still in progress.  Interpolated world positions are
//! the renderer's business; the core only tracks whole cells.

use vstd::prelude::*;

use crate::movement::GridCoord;

verus! {

/// An in-progress movement animation carrying the animated payload
/// (the unit being moved) until the driver takes it back out.
pub struct Animation<T> {
    /// The cell the movement started from.
    pub start: GridCoord,
    /// The cells entered, in order; the destination last.
    pub path: Vec<GridCoord>,
    /// How many cells of the path have been animated so far.
    pub pos: usize,
    /// The payload that travels along the path.
    pub data: T,
}

impl<T> Animation<T> {
    /// Every cell of the path has been animated.
    pub open spec fn done(&self) -> bool {
        self.pos >= self.path@.len()
    }

    pub fn new(start: GridCoord, path: Vec<GridCoord>, data: T) -> (r: Self)
        ensures
            r.start == start,
            r.path == path,
            r.pos == 0,
            r.data == data,
    {
        Animation { start, path, pos: 0, data }
    }

    /// Advance one frame: the next cell entered while in progress,
    /// `None` once the walk is over.
    pub fn animate_step(&mut self) -> (r: Option<GridCoord>)
        ensures
            final(self).start == old(self).start,
            final(self).path == old(self).path,
            final(self).data == old(self).data,
            if old(self).done() {
                r is None && final(self).pos == old(self).pos
            } else {
                final(self).pos == old(self).pos + 1 && r == Some(
                    old(self).path@[old(self).pos as int],
                )
            },
    {
        if self.pos < self.path.len() {
            let c = self.path[self.pos];
            self.pos = self.pos + 1;
            Some(c)
        } else {
            None
        }
    }

    /// The cell the payload is currently shown at.
    pub fn current(&self) -> (r: GridCoord)
        ensures
            r == if self.pos == 0 {
                self.start
            } else if self.pos <= self.path@.len() {
                self.path@[self.pos - 1]
            } else {
                self.start
            },
    {
        if self.pos == 0 {
            self.start
        } else if self.pos <= self.path.len() {
            self.path[self.pos - 1]
        } else {
            self.start
        }
    }

    /// Take the payload back out once the walk is over.
    pub fn into_data(self) -> (r: T)
        ensures
            r == self.data,
    {
        self.data
    }

    pub fn data(&self) -> (r: &T)
        ensures
            *r == self.data,
    {
        &self.data
    }
}

} // verus!
