use vstd::prelude::*;

use crate::point::Point2;
use crate::text_buffer::{
    break_line_spec, can_replace, delete_char_spec, insert_char_spec, join_line_spec, replace_char_spec,
    TextBuffer,
};
use crate::width::Ch;

verus! {

/// An edit of the buffer, recorded so that it can be undone and redone.
#[derive(Clone, Copy, Debug)]
pub enum Action {
    Insert(Point2<usize>, char),
    Delete(Point2<usize>, char),
    /// replace character at (cursor, old_char, new_char)
    Replace(Point2<usize>, char, char),
    BreakLine(Point2<usize>),
    JoinLine(Point2<usize>),
}

/// The position an action was made at.
pub open spec fn location_spec(a: Action) -> Point2<usize> {
    match a {
        Action::Insert(p, _) => p,
        Action::Delete(p, _) => p,
        Action::Replace(p, _, _) => p,
        Action::BreakLine(p) => p,
        Action::JoinLine(p) => p,
    }
}

/// The action that undoes `a`.
pub open spec fn invert_spec(a: Action) -> Action {
    match a {
        Action::Insert(p, ch) => Action::Delete(p, ch),
        Action::Delete(p, ch) => Action::Insert(p, ch),
        Action::Replace(p, old_ch, ch) => Action::Replace(p, ch, old_ch),
        Action::BreakLine(p) => Action::JoinLine(p),
        Action::JoinLine(p) => Action::BreakLine(p),
    }
}

/// `a` can be applied to the grid without going out of range.
pub open spec fn action_ok(grid: Seq<Seq<Ch>>, a: Action) -> bool {
    match a {
        Action::Insert(p, _) => p.y < usize::MAX,
        Action::Delete(_, _) => true,
        Action::Replace(p, _, _) => can_replace(grid, p.x, p.y),
        Action::BreakLine(p) => p.y < usize::MAX,
        Action::JoinLine(p) => p.y + 1 < grid.len(),
    }
}

/// The grid once `a` is applied.
pub open spec fn apply_spec(grid: Seq<Seq<Ch>>, a: Action) -> Seq<Seq<Ch>> {
    match a {
        Action::Insert(p, ch) => insert_char_spec(grid, p.x, p.y, ch),
        Action::Delete(p, _) => delete_char_spec(grid, p.x, p.y),
        Action::Replace(p, _, ch) => replace_char_spec(grid, p.x, p.y, ch),
        Action::BreakLine(p) => break_line_spec(grid, p.x, p.y),
        Action::JoinLine(p) => join_line_spec(grid, p.y),
    }
}

/// Both actions are of the same kind.
pub open spec fn same_variant_spec(a: Action, b: Action) -> bool {
    match (a, b) {
        (Action::Insert(..), Action::Insert(..)) => true,
        (Action::Delete(..), Action::Delete(..)) => true,
        (Action::Replace(..), Action::Replace(..)) => true,
        (Action::BreakLine(..), Action::BreakLine(..)) => true,
        (Action::JoinLine(..), Action::JoinLine(..)) => true,
        _ => false,
    }
}

/// Applying the actions in order: the grid, and whether each could be applied.
pub open spec fn apply_seq_state(grid: Seq<Seq<Ch>>, acts: Seq<Action>) -> (Seq<Seq<Ch>>, bool)
    decreases acts.len(),
{
    if acts.len() == 0 {
        (grid, true)
    } else {
        let (g, ok) = apply_seq_state(grid, acts.drop_last());
        (apply_spec(g, acts.last()), ok && action_ok(g, acts.last()))
    }
}

/// The actions that undo `acts`: the inverse of each, last first.
pub open spec fn inverse_seq(acts: Seq<Action>) -> Seq<Action> {
    acts.reverse().map_values(|a: Action| invert_spec(a))
}

pub proof fn lemma_apply_seq_ok_prefix(grid: Seq<Seq<Ch>>, acts: Seq<Action>, k: int)
    requires
        0 <= k <= acts.len(),
        apply_seq_state(grid, acts).1,
    ensures
        apply_seq_state(grid, acts.take(k)).1,
    decreases acts.len() - k,
{
    if k < acts.len() {
        assert(acts.drop_last().take(k) =~= acts.take(k));
        lemma_apply_seq_ok_prefix(grid, acts.drop_last(), k);
    } else {
        assert(acts.take(k) =~= acts);
    }
}

impl Action {
    /// return the location of this action
    pub fn location(&self) -> (p: Point2<usize>)
        ensures
            p == location_spec(*self),
    {
        match self {
            Action::Insert(cursor, _ch) => *cursor,
            Action::Delete(cursor, _ch) => *cursor,
            Action::Replace(cursor, _old_ch, _new_ch) => *cursor,
            Action::BreakLine(cursor) => *cursor,
            Action::JoinLine(cursor) => *cursor,
        }
    }

    pub fn apply(&self, content: &mut TextBuffer)
        requires
            action_ok(old(content).grid(), *self),
        ensures
            final(content).grid() == apply_spec(old(content).grid(), *self),
            final(content).cursor() == old(content).cursor(),
    {
        match *self {
            Action::Insert(cursor, ch) => {
                content.insert_char(cursor.x, cursor.y, ch);
            },
            Action::Delete(cursor, _ch) => {
                content.delete_char(cursor.x, cursor.y);
            },
            Action::Replace(cursor, _old_ch, ch) => {
                content.replace_char(cursor.x, cursor.y, ch);
            },
            Action::BreakLine(loc) => {
                content.break_line(loc.x, loc.y);
            },
            Action::JoinLine(loc) => {
                content.join_line(loc.x, loc.y);
            },
        };
    }

    pub fn invert(&self) -> (r: Action)
        ensures
            r == invert_spec(*self),
    {
        match *self {
            Action::Insert(cursor, ch) => Action::Delete(cursor, ch),
            Action::Delete(cursor, ch) => Action::Insert(cursor, ch),
            Action::Replace(cursor, old_ch, ch) => Action::Replace(cursor, ch, old_ch),
            Action::BreakLine(loc) => Action::JoinLine(loc),
            Action::JoinLine(loc) => Action::BreakLine(loc),
        }
    }

    pub fn same_variant(&self, other: &Action) -> (b: bool)
        ensures
            b == same_variant_spec(*self, *other),
    {
        match (self, other) {
            (Action::Insert(..), Action::Insert(..)) => true,
            (Action::Delete(..), Action::Delete(..)) => true,
            (Action::Replace(..), Action::Replace(..)) => true,
            (Action::BreakLine(..), Action::BreakLine(..)) => true,
            (Action::JoinLine(..), Action::JoinLine(..)) => true,
            _ => false,
        }
    }
}

} // verus!
