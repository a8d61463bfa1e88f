use vstd::prelude::*;

use std::collections::VecDeque;

use crate::action::{
    apply_seq_state, inverse_seq, invert_spec, lemma_apply_seq_ok_prefix, location_spec, same_variant_spec,
    Action,
};
use crate::point::Point2;
use crate::text_buffer::TextBuffer;

verus! {

/// The number of action lists kept for undo.
pub const HISTORY_SIZE: usize = 100;

/// The number of undone action lists kept for redo.
pub const UNDO_SIZE: usize = 100;

/// A group of actions that are undone and redone together.
#[derive(Debug)]
pub struct ActionList {
    actions: Vec<Action>,
}

impl ActionList {
    /// The actions of the group, first made first.
    pub closed spec fn view_actions(&self) -> Seq<Action> {
        self.actions@
    }

    pub fn from(actions: Vec<Action>) -> (r: Self)
        ensures
            r.view_actions() == actions@,
    {
        Self { actions }
    }

    fn same_variant_to_last(&self, action: &Action) -> (b: bool)
        ensures
            b == (self.view_actions().len() > 0 && same_variant_spec(self.view_actions().last(), *action)),
    {
        if self.actions.len() > 0 {
            let last = &self.actions[self.actions.len() - 1];
            last.same_variant(action)
        } else {
            false
        }
    }
}

/// The action lists of a deque, front first.
pub open spec fn lists_view(lists: Seq<ActionList>) -> Seq<Seq<Action>> {
    lists.map_values(|l: ActionList| l.view_actions())
}

/// The history once `act` is recorded: it joins the front group when that
/// group is empty or its last action is of the same kind, else it starts a
/// new group at the front; then groups past `HISTORY_SIZE` are dropped from
/// the back.
pub open spec fn record_history(history: Seq<Seq<Action>>, act: Action) -> Seq<Seq<Action>> {
    let merged = if history.len() > 0 && (history[0].len() == 0 || same_variant_spec(history[0].last(), act)) {
        history.update(0, history[0].push(act))
    } else {
        seq![seq![act]] + history
    };
    keep_front(merged, HISTORY_SIZE as nat)
}

/// The first `n` items, or all of them when there are fewer.
pub open spec fn keep_front<T>(s: Seq<T>, n: nat) -> Seq<T> {
    if s.len() > n {
        s.take(n as int)
    } else {
        s
    }
}

/// The history without the empty groups at its front: the separators
/// `bump_history` left since the last edit, which no undo stops at.
pub open spec fn skip_separators(history: Seq<Seq<Action>>) -> Seq<Seq<Action>>
    decreases history.len(),
{
    if history.len() > 0 && history[0].len() == 0 {
        skip_separators(history.drop_first())
    } else {
        history
    }
}

/// With its front separators skipped, a history starts with a group that
/// holds an edit, if any group is left, and the groups left are those that
/// followed.
pub proof fn lemma_skip_separators(history: Seq<Seq<Action>>)
    ensures
        skip_separators(history).len() > 0 ==> skip_separators(history)[0].len() > 0,
        skip_separators(history).len() <= history.len(),
        skip_separators(history) == history.skip(history.len() - skip_separators(history).len()),
    decreases history.len(),
{
    if history.len() > 0 && history[0].len() == 0 {
        lemma_skip_separators(history.drop_first());
        assert(history.drop_first().skip(history.drop_first().len() - skip_separators(history).len())
            =~= history.skip(history.len() - skip_separators(history).len()));
    } else {
        assert(history.skip(0) =~= history);
    }
}

/// Undoing the front group of `history` that holds an edit, past the
/// separators before it, can be done on `grid`.
pub open spec fn undo_ok(grid: Seq<Seq<crate::width::Ch>>, history: Seq<Seq<Action>>) -> bool {
    let h = skip_separators(history);
    h.len() > 0 ==> apply_seq_state(grid, inverse_seq(h[0])).1
}

/// Redoing the front group of `undone` on `grid` can be done.
pub open spec fn redo_ok(grid: Seq<Seq<crate::width::Ch>>, undone: Seq<Seq<Action>>) -> bool {
    undone.len() > 0 ==> apply_seq_state(grid, undone[0]).1
}

/// The history of edits: groups of actions to undo, most recent first, and
/// the groups undone, most recently undone first.
#[derive(Debug)]
pub struct Recorded {
    history: VecDeque<ActionList>,
    undone: VecDeque<ActionList>,
}

impl Recorded {
    /// The groups that can be undone, most recent first.
    pub closed spec fn history(&self) -> Seq<Seq<Action>> {
        lists_view(self.history@)
    }

    /// The groups that can be redone, most recently undone first.
    pub closed spec fn undone(&self) -> Seq<Seq<Action>> {
        lists_view(self.undone@)
    }

    pub fn new() -> (r: Self)
        ensures
            r.history() == Seq::<Seq<Action>>::empty(),
            r.undone() == Seq::<Seq<Action>>::empty(),
    {
        let r = Recorded { history: VecDeque::new(), undone: VecDeque::new() };
        assert(r.history() =~= Seq::<Seq<Action>>::empty());
        assert(r.undone() =~= Seq::<Seq<Action>>::empty());
        r
    }

    pub fn clear(&mut self)
        ensures
            final(self).history() == Seq::<Seq<Action>>::empty(),
            final(self).undone() == Seq::<Seq<Action>>::empty(),
    {
        self.history.clear();
        self.undone.clear();
        assert(self.history() =~= Seq::<Seq<Action>>::empty());
        assert(self.undone() =~= Seq::<Seq<Action>>::empty());
    }

    /// Skip the merging the action on the next record call
    /// and straigh into making a new action list
    pub fn bump_history(&mut self)
        ensures
            final(self).history() == seq![Seq::<Action>::empty()] + old(self).history(),
            final(self).undone() == old(self).undone(),
    {
        // pushing an empty new action list, will ensure that the next action
        // will in a separate action list from the previous ones
        let empty: Vec<Action> = Vec::new();
        self.history.push_front(ActionList::from(empty));
        assert(self.history() =~= seq![Seq::<Action>::empty()] + old(self).history());
    }

    /// if the last action list is empty use it, otherwise create a new one
    fn record_new(&mut self, act: Action)
        ensures
            final(self).history() == seq![seq![act]] + old(self).history(),
            final(self).undone() == old(self).undone(),
    {
        let mut actions: Vec<Action> = Vec::new();
        actions.push(act);
        self.history.push_front(ActionList::from(actions));
        assert(self.history() =~= seq![seq![act]] + old(self).history());
    }

    /// if the last action list is empty, add it there
    /// if it has content, merge if same variant
    ///
    /// returns Ok if the action `act` is added to history.
    fn try_merge(&mut self, act: Action) -> (r: Result<(), bool>)
        ensures
            final(self).undone() == old(self).undone(),
            r is Ok <==> (old(self).history().len() > 0 && (old(self).history()[0].len() == 0
                || same_variant_spec(old(self).history()[0].last(), act))),
            r is Ok ==> final(self).history() == old(self).history().update(
                0,
                old(self).history()[0].push(act),
            ),
            r is Err ==> final(self).history() == old(self).history(),
    {
        let ghost h = self.history();
        if let Some(mut a) = self.history.pop_front() {
            if a.actions.len() == 0 || a.same_variant_to_last(&act) {
                a.actions.push(act);
                self.history.push_front(a);
                assert(self.history() =~= h.update(0, h[0].push(act)));
                return Ok(());
            }
            self.history.push_front(a);
            assert(self.history() =~= h);
        }
        Err(false)
    }

    fn record(&mut self, act: Action)
        ensures
            final(self).history() == record_history(old(self).history(), act),
            final(self).undone() == Seq::<Seq<Action>>::empty(),
    {
        self.undone.clear();  // we are branching to a new sequence of events
        assert(self.undone() =~= Seq::<Seq<Action>>::empty());
        if self.try_merge(act).is_err() {
            self.record_new(act);
        }
        self.free_some_history();
    }

    /// Records `acts` as a group of their own at the front of the history,
    /// to be undone and redone together.
    pub(crate) fn record_group(&mut self, acts: Vec<Action>)
        ensures
            final(self).history() == keep_front(seq![acts@] + old(self).history(), HISTORY_SIZE as nat),
            final(self).undone() == Seq::<Seq<Action>>::empty(),
    {
        self.undone.clear();
        assert(self.undone() =~= Seq::<Seq<Action>>::empty());
        let ghost a = acts@;
        self.history.push_front(ActionList::from(acts));
        assert(self.history() =~= seq![a] + old(self).history());
        self.free_some_history();
    }

    fn free_some_history(&mut self)
        ensures
            final(self).history() == keep_front(old(self).history(), HISTORY_SIZE as nat),
            final(self).undone() == old(self).undone(),
    {
        let ghost h = self.history();
        while self.history.len() > HISTORY_SIZE
            invariant
                self.history@.len() >= HISTORY_SIZE ==> self.history() == h.take(self.history@.len() as int),
                h.len() <= HISTORY_SIZE ==> self.history() == h,
                h.len() > HISTORY_SIZE ==> self.history@.len() >= HISTORY_SIZE,
                h.len() > HISTORY_SIZE ==> self.history() == h.take(self.history@.len() as int),
                self.history@.len() <= h.len(),
                self.undone() == old(self).undone(),
            decreases self.history@.len(),
        {
            let ghost before = self.history@;
            self.history.pop_back();
            assert(self.history() =~= h.take(self.history@.len() as int));
        }
        assert(h.take(h.len() as int) =~= h);
    }

    fn free_some_undone(&mut self)
        ensures
            final(self).undone() == keep_front(old(self).undone(), UNDO_SIZE as nat),
            final(self).history() == old(self).history(),
    {
        let ghost u = self.undone();
        while self.undone.len() > UNDO_SIZE
            invariant
                self.undone@.len() >= UNDO_SIZE ==> self.undone() == u.take(self.undone@.len() as int),
                u.len() <= UNDO_SIZE ==> self.undone() == u,
                u.len() > UNDO_SIZE ==> self.undone@.len() >= UNDO_SIZE,
                u.len() > UNDO_SIZE ==> self.undone() == u.take(self.undone@.len() as int),
                self.undone@.len() <= u.len(),
                self.history() == old(self).history(),
            decreases self.undone@.len(),
        {
            self.undone.pop_back();
            assert(self.undone() =~= u.take(self.undone@.len() as int));
        }
        assert(u.take(u.len() as int) =~= u);
    }

    /// Drops the separators at the front of the history.
    fn drop_separators(&mut self)
        ensures
            final(self).history() == skip_separators(old(self).history()),
            final(self).undone() == old(self).undone(),
    {
        while self.history.len() > 0 && self.history[0].actions.len() == 0
            invariant
                skip_separators(self.history()) == skip_separators(old(self).history()),
                self.undone() == old(self).undone(),
            decreases self.history@.len(),
        {
            let ghost h = self.history();
            assert(h[0] == self.history@[0].view_actions());
            self.history.pop_front();
            assert(self.history() =~= h.drop_first());
        }
        proof {
            let h = self.history();
            if h.len() > 0 {
                assert(h[0] == self.history@[0].view_actions());
            }
        }
    }

    /// undo the history and return the location of the last occurence
    pub(crate) fn undo(&mut self, text_buffer: &mut TextBuffer) -> (r: Option<Point2<usize>>)
        requires
            undo_ok(old(text_buffer).grid(), old(self).history()),
        ensures
            ({
                let h = skip_separators(old(self).history());
                &&& h.len() == 0 ==> {
                    &&& r is None
                    &&& final(text_buffer).grid() == old(text_buffer).grid()
                    &&& final(self).history() == h
                    &&& final(self).undone() == old(self).undone()
                }
                &&& h.len() > 0 ==> {
                    let group = h[0];
                    &&& final(text_buffer).grid() == apply_seq_state(old(text_buffer).grid(), inverse_seq(group)).0
                    &&& final(self).history() == h.drop_first()
                    &&& final(self).undone() == keep_front(seq![group] + old(self).undone(), UNDO_SIZE as nat)
                    &&& r == Some(location_spec(group[0]))
                }
            }),
            final(text_buffer).cursor() == old(text_buffer).cursor(),
    {
        proof {
            lemma_skip_separators(old(self).history());
        }
        self.drop_separators();
        let mut last_location = None;
        let ghost h = self.history();
        if let Some(to_undo) = self.history.pop_front() {
            let ghost acts = to_undo.actions@;
            let ghost inv = inverse_seq(acts);
            let ghost g0 = text_buffer.grid();
            assert(self.history() =~= h.drop_first());
            let mut k = to_undo.actions.len();
            assert(inv.take(0) =~= Seq::<Action>::empty());
            while k > 0
                invariant
                    k <= acts.len(),
                    acts == to_undo.actions@,
                    inv == inverse_seq(acts),
                    apply_seq_state(g0, inv).1,
                    text_buffer.grid() == apply_seq_state(g0, inv.take(acts.len() - k)).0,
                    text_buffer.cursor() == old(text_buffer).cursor(),
                    k < acts.len() ==> last_location == Some(location_spec(acts[k as int])),
                    k == acts.len() ==> last_location is None,
                decreases k,
            {
                let ghost j: int = acts.len() - k;
                proof {
                    lemma_apply_seq_ok_prefix(g0, inv, j + 1);
                    assert(inv.take(j + 1).drop_last() =~= inv.take(j));
                    assert(inv[j] == invert_spec(acts[k - 1]));
                }
                let inverted = to_undo.actions[k - 1].invert();
                inverted.apply(text_buffer);
                last_location = Some(inverted.location());
                k = k - 1;
            }
            assert(inv.take(acts.len() as int) =~= inv);
            self.undone.push_front(to_undo);
            assert(self.undone() =~= seq![acts] + old(self).undone());
            self.free_some_undone();
        }
        last_location
    }

    pub(crate) fn redo(&mut self, text_buffer: &mut TextBuffer) -> (r: Option<Point2<usize>>)
        requires
            redo_ok(old(text_buffer).grid(), old(self).undone()),
        ensures
            old(self).undone().len() == 0 ==> {
                &&& r is None
                &&& final(text_buffer).grid() == old(text_buffer).grid()
                &&& final(self).history() == old(self).history()
                &&& final(self).undone() == old(self).undone()
            },
            old(self).undone().len() > 0 ==> {
                let group = old(self).undone()[0];
                &&& final(text_buffer).grid() == apply_seq_state(old(text_buffer).grid(), group).0
                &&& final(self).undone() == old(self).undone().drop_first()
                &&& final(self).history() == seq![group] + old(self).history()
                &&& r == (if group.len() > 0 { Some(location_spec(group.last())) } else { None })
            },
            final(text_buffer).cursor() == old(text_buffer).cursor(),
    {
        let mut last_location = None;
        let ghost u = self.undone();
        if let Some(to_redo) = self.undone.pop_front() {
            let ghost acts = to_redo.actions@;
            let ghost g0 = text_buffer.grid();
            assert(self.undone() =~= u.drop_first());
            let mut k: usize = 0;
            assert(acts.take(0) =~= Seq::<Action>::empty());
            while k < to_redo.actions.len()
                invariant
                    k <= acts.len(),
                    acts == to_redo.actions@,
                    apply_seq_state(g0, acts).1,
                    text_buffer.grid() == apply_seq_state(g0, acts.take(k as int)).0,
                    text_buffer.cursor() == old(text_buffer).cursor(),
                    k > 0 ==> last_location == Some(location_spec(acts[k - 1])),
                    k == 0 ==> last_location is None,
                decreases acts.len() - k,
            {
                proof {
                    lemma_apply_seq_ok_prefix(g0, acts, k + 1);
                    assert(acts.take(k + 1).drop_last() =~= acts.take(k as int));
                }
                let tr = to_redo.actions[k];
                tr.apply(text_buffer);
                last_location = Some(tr.location());
                k = k + 1;
            }
            assert(acts.take(acts.len() as int) =~= acts);
            self.history.push_front(to_redo);
            assert(self.history() =~= seq![acts] + old(self).history());
        }
        last_location
    }

    pub(crate) fn insert_char(&mut self, cursor: Point2<usize>, ch: char)
        ensures
            final(self).history() == record_history(old(self).history(), Action::Insert(cursor, ch)),
            final(self).undone() == Seq::<Seq<Action>>::empty(),
    {
        self.record(Action::Insert(cursor, ch));
    }

    pub(crate) fn replace_char(&mut self, cursor: Point2<usize>, old_ch: char, ch: char)
        ensures
            final(self).history() == record_history(old(self).history(), Action::Replace(cursor, old_ch, ch)),
            final(self).undone() == Seq::<Seq<Action>>::empty(),
    {
        self.record(Action::Replace(cursor, old_ch, ch));
    }

    pub(crate) fn delete(&mut self, cursor: Point2<usize>, ch: Option<char>) -> (r: Option<char>)
        ensures
            r == ch,
            ch matches Some(c) ==> final(self).history() == record_history(old(self).history(), Action::Delete(cursor, c))
                && final(self).undone() == Seq::<Seq<Action>>::empty(),
            ch is None ==> final(self).history() == old(self).history() && final(self).undone() == old(self).undone(),
    {
        if let Some(ch) = ch {
            self.record(Action::Delete(cursor, ch));
        }
        ch
    }

    pub(crate) fn break_line(&mut self, loc: Point2<usize>)
        ensures
            final(self).history() == record_history(old(self).history(), Action::BreakLine(loc)),
            final(self).undone() == Seq::<Seq<Action>>::empty(),
    {
        self.record(Action::BreakLine(loc));
    }

    pub(crate) fn join_line(&mut self, loc: Point2<usize>)
        ensures
            final(self).history() == record_history(old(self).history(), Action::JoinLine(loc)),
            final(self).undone() == Seq::<Seq<Action>>::empty(),
    {
        self.record(Action::JoinLine(loc));
    }
}

} // verus!
