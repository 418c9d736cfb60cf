//! The interactive curation state machine.
//!
//! A curation session is an ordered list of candidate papers, sorted
//! descending by publication instant for operator review, a cursor, and an
//! undo stack of removed papers.  The operator's inputs drive a pure
//! transition function; the only externally visible output of a session is
//! its terminal disposition.  Rendering and keyboard reading live outside
//! the library: whatever runs the loop feeds one [`InputEvent`] at a time
//! into [`input_handle`].

use vstd::prelude::*;
use crate::types::{Paper, NewDate};
use vstd::multiset::Multiset;

verus! {

broadcast use vstd::seq_lib::group_to_multiset_ensures;

/// One operator input, already decoded from whatever raw event the
/// terminal produced.
#[derive(Clone, Copy, Debug, PartialEq, Eq, Structural)]
pub enum InputEvent {
    /// Quit without saving anything.
    Quit,
    /// Accept the whole remaining list.
    Accept,
    /// Accept from the cursor to the end, and propose new watermarks drawn
    /// from the already-triaged history.
    AcceptUpTo,
    /// Move the cursor up by one, clamped.
    Up,
    /// Move the cursor down by one, clamped.
    Down,
    /// Remove the paper under the cursor onto the undo stack.
    Remove,
    /// Undo the most recent removal.
    Undo,
    /// Jump to the first row.
    First,
    /// Jump to the last row.
    Last,
}

/// The terminal disposition of a curation session.
#[derive(Debug, PartialEq, Eq)]
pub enum SelectedPapers {
    /// There were no new papers at all; the session never ran.
    NoNew,
    /// The operator accepted the remaining list.
    Selected(Vec<Paper>),
    /// The operator accepted from the cursor onward and proposed new
    /// per-source watermarks drawn from the discarded history.
    SelectedAndSavedAt(Vec<Paper>, NewDate),
    /// Nothing is saved, not even the watermark.
    Abort,
}

/// A running curation session.
pub struct CurationSession {
    /// The remaining candidate list, sorted descending by `published`.
    pub papers: Vec<Paper>,
    /// The cursor, when a row is selected.
    pub cursor: Option<usize>,
    /// The undo stack of removed papers; last removed on top.
    pub history: Vec<Paper>,
    /// For each removed paper, the position it was removed from, so that
    /// undoing puts it back exactly where it stood.
    pub removed_at: Vec<usize>,
}

impl CurationSession {
    /// The cursor, when present, points into the list, and every removal
    /// on the undo stack remembers its position.
    pub open spec fn wf(self) -> bool {
        &&& (self.cursor matches Some(i) ==> (i as int) < self.papers@.len())
        &&& self.history@.len() == self.removed_at@.len()
    }
}

/// Descending order by publication instant.
pub open spec fn spec_sorted_desc(v: Seq<Paper>) -> bool {
    forall|i: int, j: int| 0 <= i < j < v.len() ==> v[i].published >= v[j].published
}

/// Sorts the papers descending by publication instant.  The order among
/// papers published at the same instant is arbitrary.
pub fn sort_papers_desc(papers: &mut Vec<Paper>)
    ensures
        spec_sorted_desc(final(papers)@),
        final(papers)@.to_multiset() == old(papers)@.to_multiset(),
{
    let mut out: Vec<Paper> = Vec::new();
    proof {
        assert(out@.to_multiset().add(papers@.to_multiset()) =~= old(papers)@.to_multiset());
    }
    while papers.len() > 0
        invariant
            spec_sorted_desc(out@),
            out@.to_multiset().add(papers@.to_multiset()) == old(papers)@.to_multiset(),
            forall|a: int, b: int|
                0 <= a < out@.len() && 0 <= b < papers@.len() ==> out@[a].published
                    >= papers@[b].published,
        decreases papers@.len(),
    {
        let n = papers.len();
        let mut best: usize = 0;
        let mut k: usize = 1;
        while k < n
            invariant
                0 < n == papers@.len(),
                best < k <= n,
                forall|t: int| 0 <= t < k ==> papers@[t].published <= papers@[best as int].published,
            decreases n - k,
        {
            if papers[k].published > papers[best].published {
                best = k;
            }
            k += 1;
        }
        let ghost before = papers@;
        let ghost out_before = out@;
        let p = papers.remove(best);
        out.push(p);
        proof {
            assert(before.to_multiset().count(p) > 0);
            assert(out@.to_multiset().add(papers@.to_multiset()) =~= out_before.to_multiset().add(
                before.to_multiset(),
            ));
        }
    }
    proof {
        assert(papers@.to_multiset() =~= Multiset::<Paper>::empty());
        assert(out@.to_multiset().add(papers@.to_multiset()) =~= out@.to_multiset());
    }
    *papers = out;
}

/// Whether `p` belongs to the class picked by `arxiv`: the arXiv class or
/// the ECCC class.
pub open spec fn spec_class_matches(p: Paper, arxiv: bool) -> bool {
    if arxiv {
        p.source.spec_is_arxiv()
    } else {
        p.source.spec_is_eccc()
    }
}

/// The latest publication instant among the entries of `v` in the given
/// source class, if any.
pub open spec fn spec_latest(v: Seq<Paper>, arxiv: bool) -> Option<i64>
    decreases v.len(),
{
    if v.len() == 0 {
        None
    } else {
        let rest = spec_latest(v.drop_last(), arxiv);
        let p = v.last();
        if spec_class_matches(p, arxiv) {
            match rest {
                None => Some(p.published),
                Some(m) => Some(
                    if p.published > m {
                        p.published
                    } else {
                        m
                    },
                ),
            }
        } else {
            rest
        }
    }
}

/// The latest publication instant among the papers of `v` in the given
/// source class.
pub fn latest_published(v: &Vec<Paper>, arxiv: bool) -> (r: Option<i64>)
    ensures
        r == spec_latest(v@, arxiv),
{
    let n = v.len();
    let mut acc: Option<i64> = None;
    let mut i: usize = 0;
    proof {
        assert(v@.take(0) =~= Seq::<Paper>::empty());
    }
    while i < n
        invariant
            i <= n,
            n == v@.len(),
            acc == spec_latest(v@.take(i as int), arxiv),
        decreases n - i,
    {
        let p = &v[i];
        proof {
            assert(v@.take(i + 1).drop_last() =~= v@.take(i as int));
            assert(v@.take(i + 1).last() == v@[i as int]);
        }
        let matches_class = if arxiv {
            p.source.is_arxiv()
        } else {
            p.source.is_eccc()
        };
        if matches_class {
            acc = match acc {
                None => Some(p.published),
                Some(m) => Some(
                    if p.published > m {
                        p.published
                    } else {
                        m
                    },
                ),
            };
        }
        i += 1;
    }
    proof {
        assert(v@.take(n as int) =~= v@);
    }
    acc
}

/// The watermark pair proposed when the operator accepts up to the cursor:
/// per source, the latest instant among the already-triaged (discarded)
/// papers.
pub open spec fn spec_proposed_marks(history: Seq<Paper>) -> NewDate {
    NewDate { eccc: spec_latest(history, false), arxiv: spec_latest(history, true) }
}

/// Where the cursor stands after moving down by one, clamped to the end.
pub open spec fn spec_cursor_down(c: Option<usize>, len: int) -> Option<usize> {
    match c {
        None => if len > 0 {
            Some(0usize)
        } else {
            None
        },
        Some(i) => if i + 1 < len {
            Some((i + 1) as usize)
        } else {
            Some(i)
        },
    }
}

/// Where the cursor stands after moving up by one, clamped to the start.
pub open spec fn spec_cursor_up(c: Option<usize>, len: int) -> Option<usize> {
    match c {
        None => if len > 0 {
            Some(0usize)
        } else {
            None
        },
        Some(i) => if i > 0 {
            Some((i - 1) as usize)
        } else {
            Some(0usize)
        },
    }
}

/// Where the cursor stands after removing the row at `i`: one step up, or
/// cleared when the list became empty.
pub open spec fn spec_cursor_after_remove(i: usize, new_len: int) -> Option<usize> {
    if new_len == 0 {
        None
    } else if i > 0 {
        Some((i - 1) as usize)
    } else {
        Some(0usize)
    }
}

/// Where an undone removal goes back: the position it was removed from,
/// clamped to the current length (later removals may have shortened the
/// list).
pub open spec fn spec_undo_index(idx: usize, len: int) -> int {
    if idx as int <= len {
        idx as int
    } else {
        len
    }
}

/// What one input event makes of a running session: either the session
/// goes on, or it ends with a terminal disposition.
pub enum StepResult {
    /// The session continues in the carried state.
    Continue(CurationSession),
    /// The session ended.
    Done(SelectedPapers),
}

/// Handles one operator input.
///
/// Quitting aborts with nothing saved; accepting returns the remaining
/// list; accepting up to the cursor returns the sublist from the cursor to
/// the end together with watermarks proposed from the discarded history.
/// Cursor moves clamp to the list bounds without wrapping.  Removal pops
/// the row under the cursor onto the undo stack and moves the cursor one
/// step up; undo reinserts the last removal at the position it was
/// removed from and is a no-op on an empty stack, so removing and then
/// undoing gives the list back unchanged.
pub fn input_handle(state: CurationSession, event: InputEvent) -> (r: StepResult)
    requires
        state.wf(),
    ensures
        r matches StepResult::Continue(s) ==> s.wf(),
        match event {
            InputEvent::Quit => r == StepResult::Done(SelectedPapers::Abort),
            InputEvent::Accept => r == StepResult::Done(SelectedPapers::Selected(state.papers)),
            InputEvent::AcceptUpTo => match state.cursor {
                None => r == StepResult::Done(SelectedPapers::Abort),
                Some(i) => r matches StepResult::Done(SelectedPapers::SelectedAndSavedAt(kept, nd))
                    && kept@ == state.papers@.skip(i as int) && nd == spec_proposed_marks(
                    state.history@,
                ),
            },
            InputEvent::Up => r matches StepResult::Continue(s) && s.papers == state.papers
                && s.history == state.history && s.removed_at == state.removed_at && s.cursor
                == spec_cursor_up(
                state.cursor,
                state.papers@.len() as int,
            ),
            InputEvent::Down => r matches StepResult::Continue(s) && s.papers == state.papers
                && s.history == state.history && s.removed_at == state.removed_at && s.cursor
                == spec_cursor_down(
                state.cursor,
                state.papers@.len() as int,
            ),
            InputEvent::First => r matches StepResult::Continue(s) && s.papers == state.papers
                && s.history == state.history && s.removed_at == state.removed_at && s.cursor == (
            if state.papers@.len() > 0 {
                Some(0usize)
            } else {
                None
            }),
            InputEvent::Last => r matches StepResult::Continue(s) && s.papers == state.papers
                && s.history == state.history && s.removed_at == state.removed_at && s.cursor == (
            if state.papers@.len() > 0 {
                Some((state.papers@.len() - 1) as usize)
            } else {
                None
            }),
            InputEvent::Remove => match state.cursor {
                None => r == StepResult::Continue(state),
                Some(i) => r matches StepResult::Continue(s) && s.papers@ == state.papers@.remove(
                    i as int,
                ) && s.history@ == state.history@.push(state.papers@[i as int]) && s.removed_at@
                    == state.removed_at@.push(i) && s.cursor == spec_cursor_after_remove(
                    i,
                    state.papers@.len() - 1,
                ),
            },
            InputEvent::Undo => if state.history@.len() == 0 {
                r == StepResult::Continue(state)
            } else {
                r matches StepResult::Continue(s) && s.history@ == state.history@.drop_last()
                    && s.removed_at@ == state.removed_at@.drop_last() && s.cursor == state.cursor
                    && s.papers@ == state.papers@.insert(
                    spec_undo_index(state.removed_at@.last(), state.papers@.len() as int),
                    state.history@.last(),
                )
            },
        },
{
    match event {
        InputEvent::Quit => StepResult::Done(SelectedPapers::Abort),
        InputEvent::Accept => StepResult::Done(SelectedPapers::Selected(state.papers)),
        InputEvent::AcceptUpTo => {
            match state.cursor {
                None => StepResult::Done(SelectedPapers::Abort),
                Some(i) => {
                    let nd = NewDate {
                        eccc: latest_published(&state.history, false),
                        arxiv: latest_published(&state.history, true),
                    };
                    let mut papers = state.papers;
                    let kept = papers.split_off(i);
                    StepResult::Done(SelectedPapers::SelectedAndSavedAt(kept, nd))
                },
            }
        },
        InputEvent::Up => {
            let len = state.papers.len();
            let cursor = match state.cursor {
                None => if len > 0 {
                    Some(0usize)
                } else {
                    None
                },
                Some(i) => if i > 0 {
                    Some(i - 1)
                } else {
                    Some(0usize)
                },
            };
            StepResult::Continue(CurationSession { cursor, ..state })
        },
        InputEvent::Down => {
            let len = state.papers.len();
            let cursor = match state.cursor {
                None => if len > 0 {
                    Some(0usize)
                } else {
                    None
                },
                Some(i) => if i + 1 < len {
                    Some(i + 1)
                } else {
                    Some(i)
                },
            };
            StepResult::Continue(CurationSession { cursor, ..state })
        },
        InputEvent::First => {
            let len = state.papers.len();
            let cursor = if len > 0 {
                Some(0usize)
            } else {
                None
            };
            StepResult::Continue(CurationSession { cursor, ..state })
        },
        InputEvent::Last => {
            let len = state.papers.len();
            let cursor = if len > 0 {
                Some(len - 1)
            } else {
                None
            };
            StepResult::Continue(CurationSession { cursor, ..state })
        },
        InputEvent::Remove => {
            match state.cursor {
                None => StepResult::Continue(state),
                Some(i) => {
                    let mut papers = state.papers;
                    let mut history = state.history;
                    let mut removed_at = state.removed_at;
                    let removed = papers.remove(i);
                    history.push(removed);
                    removed_at.push(i);
                    let cursor = if papers.len() == 0 {
                        None
                    } else if i > 0 {
                        Some(i - 1)
                    } else {
                        Some(0usize)
                    };
                    StepResult::Continue(CurationSession { papers, cursor, history, removed_at })
                },
            }
        },
        InputEvent::Undo => {
            if state.history.len() == 0 {
                StepResult::Continue(state)
            } else {
                let mut papers = state.papers;
                let mut history = state.history;
                let mut removed_at = state.removed_at;
                let restored = history.pop().unwrap();
                let idx = removed_at.pop().unwrap();
                let at = if idx <= papers.len() {
                    idx
                } else {
                    papers.len()
                };
                papers.insert(at, restored);
                StepResult::Continue(
                    CurationSession { papers, cursor: state.cursor, history, removed_at },
                )
            }
        },
    }
}

/// Opens a curation session over the filtered, deduplicated candidates:
/// sorts them descending by publication instant, puts the cursor on the
/// last (oldest) row, and starts with an empty undo stack.  An empty
/// candidate list yields no session at all — the caller reports the
/// distinguished "nothing new" disposition instead.
pub fn start_session(papers: Vec<Paper>) -> (r: Option<CurationSession>)
    ensures
        match r {
            None => papers@.len() == 0,
            Some(s) => {
                &&& papers@.len() > 0
                &&& s.wf()
                &&& spec_sorted_desc(s.papers@)
                &&& s.papers@.to_multiset() == papers@.to_multiset()
                &&& s.cursor == Some((s.papers@.len() - 1) as usize)
                &&& s.history@ == Seq::<Paper>::empty()
                &&& s.removed_at@ == Seq::<usize>::empty()
            },
        },
{
    if papers.len() == 0 {
        return None;
    }
    let mut papers = papers;
    sort_papers_desc(&mut papers);
    let len = papers.len();
    proof {
        assert(papers@.len() == papers@.to_multiset().len());
    }
    let cursor = Some(len - 1);
    Some(CurationSession { papers, cursor, history: Vec::new(), removed_at: Vec::new() })
}

} // verus!
