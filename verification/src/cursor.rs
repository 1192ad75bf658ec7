//! The scroll position and the selected row of a list shown through a window
//! of fixed height.

use vstd::prelude::*;

verus! {

/// Where a list view stands: the first row shown and the row selected.
#[derive(Clone, Copy, Debug, PartialEq, Eq, Structural)]
pub struct Cursor {
    pub offset: usize,
    pub selected: usize,
}

impl Cursor {
    /// The selected row is one of the `height` rows shown from `offset` on, and
    /// it is a row of the list whenever the list of `n` rows has any.
    pub open spec fn inv(self, n: nat, height: nat) -> bool {
        &&& n > 0 ==> self.selected < n
        &&& self.offset <= self.selected < self.offset + height
    }

    /// The cursor after a step up: the row above becomes selected, if there is
    /// one, and the window follows it.
    pub open spec fn up(self) -> Cursor {
        let selected = if self.selected > 0 {
            (self.selected - 1) as usize
        } else {
            self.selected
        };
        Cursor { offset: if selected < self.offset { selected } else { self.offset }, selected }
    }

    /// The cursor after a step down in a list of `n` rows: the row below becomes
    /// selected, if there is one, and the window of `height` rows follows it.
    pub open spec fn down(self, n: nat, height: nat) -> Cursor {
        let selected = if self.selected + 1 < n {
            (self.selected + 1) as usize
        } else {
            self.selected
        };
        Cursor {
            offset: if selected >= self.offset + height {
                (selected - height + 1) as usize
            } else {
                self.offset
            },
            selected,
        }
    }

    /// The greatest index of a list of `n` rows, or 0 for an empty list.
    pub open spec fn last_index(n: nat) -> usize {
        if n > 0 {
            (n - 1) as usize
        } else {
            0
        }
    }

    /// The cursor brought back into a list that now has `n` rows.
    pub open spec fn clamped(self, n: nat) -> Cursor {
        Cursor {
            offset: if self.offset >= n { Self::last_index(n) } else { self.offset },
            selected: if self.selected >= n { Self::last_index(n) } else { self.selected },
        }
    }

    /// The rows `start..end` of a list of `n` rows that a window of `visible`
    /// rows shows from `offset` on.
    pub open spec fn shown(self, n: nat, visible: nat) -> (int, int) {
        let start = if self.offset <= n { self.offset as int } else { n as int };
        let end = if self.offset + visible <= n { self.offset + visible } else { n as int };
        (start, end)
    }

    /// The cursor at the top of a list.
    pub fn new() -> (c: Cursor)
        ensures
            c == (Cursor { offset: 0, selected: 0 }),
            forall|n: nat, height: nat| height > 0 ==> c.inv(n, height),
    {
        Cursor { offset: 0, selected: 0 }
    }

    /// Selects the row above, scrolling up when it is out of sight.
    pub fn move_up(&mut self)
        ensures
            *final(self) == old(self).up(),
            forall|n: nat, height: nat| old(self).inv(n, height) ==> final(self).inv(n, height),
    {
        if self.selected > 0 {
            self.selected -= 1;
        }
        if self.selected < self.offset {
            self.offset = self.selected;
        }
    }

    /// Selects the row below in a list of `n` rows, scrolling down when it is
    /// out of the `height` rows in sight.
    pub fn move_down(&mut self, n: usize, height: usize)
        requires
            height > 0,
        ensures
            *final(self) == old(self).down(n as nat, height as nat),
            old(self).inv(n as nat, height as nat) ==> final(self).inv(n as nat, height as nat),
    {
        if self.selected < n && self.selected + 1 < n {
            self.selected += 1;
        }
        if self.selected >= self.offset && self.selected - self.offset >= height {
            self.offset = self.selected - height + 1;
        }
    }

    /// Brings the cursor back into a list whose length is now `n`.
    pub fn reclamp(&mut self, n: usize)
        ensures
            *final(self) == old(self).clamped(n as nat),
            n > 0 ==> final(self).selected < n && final(self).offset < n,
            forall|m: nat, height: nat|
                old(self).inv(m, height) ==> final(self).inv(n as nat, height),
    {
        let last = if n > 0 {
            n - 1
        } else {
            0
        };
        if self.offset >= n {
            self.offset = last;
        }
        if self.selected >= n {
            self.selected = last;
        }
    }

    /// The rows to draw, `start..end`, when `visible` rows fit on the screen:
    /// always a range of the list of `n` rows.
    pub fn window(&self, n: usize, visible: usize) -> (r: (usize, usize))
        ensures
            (r.0 as int, r.1 as int) == self.shown(n as nat, visible as nat),
            r.0 <= r.1 <= n,
    {
        let start = if self.offset <= n {
            self.offset
        } else {
            n
        };
        let end = if visible <= n && self.offset <= n - visible {
            self.offset + visible
        } else {
            n
        };
        (start, end)
    }
}

/// One operation on a cursor. `Reclamp` carries the length that the list has
/// from then on.
pub enum Move {
    Up,
    Down,
    Reclamp(usize),
}

/// The cursor and the length of its list after one operation.
pub open spec fn after_move(c: Cursor, n: nat, height: nat, m: Move) -> (Cursor, nat) {
    match m {
        Move::Up => (c.up(), n),
        Move::Down => (c.down(n, height), n),
        Move::Reclamp(len) => (c.clamped(len as nat), len as nat),
    }
}

/// The cursor and the length of its list after a run of operations.
pub open spec fn after_moves(c: Cursor, n: nat, height: nat, moves: Seq<Move>) -> (Cursor, nat)
    decreases moves.len(),
{
    if moves.len() == 0 {
        (c, n)
    } else {
        let (before, len) = after_moves(c, n, height, moves.drop_last());
        after_move(before, len, height, moves.last())
    }
}

/// Any run of steps up, steps down and reclamps keeps the selected row inside
/// the list and inside the window.
pub proof fn lemma_moves_keep_inv(c: Cursor, n: nat, height: nat, moves: Seq<Move>)
    requires
        height > 0,
        n <= usize::MAX,
        c.inv(n, height),
    ensures
        after_moves(c, n, height, moves).0.inv(after_moves(c, n, height, moves).1, height),
        after_moves(c, n, height, moves).1 <= usize::MAX,
    decreases moves.len(),
{
    if moves.len() > 0 {
        lemma_moves_keep_inv(c, n, height, moves.drop_last());
    }
}

/// After a reclamp the selected row is a row of the list, whatever the cursor
/// was before, provided the list has a row.
pub proof fn lemma_reclamp_selects_row(c: Cursor, n: nat)
    requires
        0 < n <= usize::MAX,
    ensures
        c.clamped(n).selected < n,
        c.clamped(n).offset < n,
{
}

} // verus!
