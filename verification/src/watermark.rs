//! Watermark reconciliation.
//!
//! Each source has its own watermark: the UTC instant up to which it has
//! been confirmed fully reviewed.  After a curation session ends, the
//! terminal disposition decides what, if anything, is written back:
//! nothing on abort; "now" when there was nothing new; the latest instant
//! seen per source on full acceptance; and, on partial acceptance, the
//! proposed instants guarded so that a stored watermark never moves
//! backward.

use vstd::prelude::*;
use crate::types::{Paper, NewDate};
use crate::curation::{SelectedPapers, spec_class_matches, spec_latest, spec_sorted_desc};

verus! {

/// The monotonicity guard for one stored watermark: the proposal wins only
/// when it is at or after what is stored; an absent proposal changes
/// nothing.
pub open spec fn spec_advance(stored: Option<i64>, proposed: Option<i64>) -> Option<i64> {
    match proposed {
        None => stored,
        Some(p) => match stored {
            None => Some(p),
            Some(s) => if p >= s {
                Some(p)
            } else {
                Some(s)
            },
        },
    }
}

/// The new mark after full acceptance: the latest instant seen for the
/// source, or the stored mark when the filtered set held nothing of it.
pub open spec fn spec_latest_or(latest: Option<i64>, stored: Option<i64>) -> Option<i64> {
    if latest is Some {
        latest
    } else {
        stored
    }
}

/// The new mark after a run that found nothing new: "checked and found
/// nothing" is itself progress, so the mark advances to `now` (or stays,
/// if it already lies past `now`).
pub open spec fn spec_no_new_mark(stored: Option<i64>, now: i64) -> Option<i64> {
    match stored {
        None => Some(now),
        Some(s) => Some(
            if s > now {
                s
            } else {
                now
            },
        ),
    }
}

/// What the reconciler writes for a terminal disposition: nothing at all
/// on abort, and a full watermark pair otherwise.
pub open spec fn spec_reconcile(
    sel: SelectedPapers,
    stored: NewDate,
    latest: NewDate,
    now: i64,
) -> Option<NewDate> {
    match sel {
        SelectedPapers::Abort => None,
        SelectedPapers::NoNew => Some(
            NewDate {
                eccc: spec_no_new_mark(stored.eccc, now),
                arxiv: spec_no_new_mark(stored.arxiv, now),
            },
        ),
        SelectedPapers::Selected(_) => Some(
            NewDate {
                eccc: spec_latest_or(latest.eccc, stored.eccc),
                arxiv: spec_latest_or(latest.arxiv, stored.arxiv),
            },
        ),
        SelectedPapers::SelectedAndSavedAt(_, nd) => Some(
            NewDate {
                eccc: spec_advance(stored.eccc, nd.eccc),
                arxiv: spec_advance(stored.arxiv, nd.arxiv),
            },
        ),
    }
}

/// The watermark pair that ends up persisted: the stored pair when nothing
/// is written, else what the reconciler computed.
pub open spec fn spec_applied(stored: NewDate, r: Option<NewDate>) -> NewDate {
    match r {
        None => stored,
        Some(nd) => nd,
    }
}

/// Computes the watermark pair to persist for a session's terminal
/// disposition, or nothing when the session aborted.  `latest` is the
/// latest published instant per source across the entire filtered set;
/// `now` is the instant of the check.
pub fn reconcile_watermarks(
    sel: &SelectedPapers,
    stored: &NewDate,
    latest: &NewDate,
    now: i64,
) -> (r: Option<NewDate>)
    ensures
        r == spec_reconcile(*sel, *stored, *latest, now),
{
    match sel {
        SelectedPapers::Abort => None,
        SelectedPapers::NoNew => Some(
            NewDate {
                eccc: match stored.eccc {
                    None => Some(now),
                    Some(s) => Some(
                        if s > now {
                            s
                        } else {
                            now
                        },
                    ),
                },
                arxiv: match stored.arxiv {
                    None => Some(now),
                    Some(s) => Some(
                        if s > now {
                            s
                        } else {
                            now
                        },
                    ),
                },
            },
        ),
        SelectedPapers::Selected(_) => Some(
            NewDate {
                eccc: match latest.eccc {
                    Some(l) => Some(l),
                    None => stored.eccc,
                },
                arxiv: match latest.arxiv {
                    Some(l) => Some(l),
                    None => stored.arxiv,
                },
            },
        ),
        SelectedPapers::SelectedAndSavedAt(_, nd) => Some(
            NewDate {
                eccc: advance_mark(stored.eccc, nd.eccc),
                arxiv: advance_mark(stored.arxiv, nd.arxiv),
            },
        ),
    }
}

/// One stored watermark under the monotonicity guard.
fn advance_mark(stored: Option<i64>, proposed: Option<i64>) -> (r: Option<i64>)
    ensures
        r == spec_advance(stored, proposed),
{
    match proposed {
        None => stored,
        Some(p) => match stored {
            None => Some(p),
            Some(s) => if p >= s {
                Some(p)
            } else {
                Some(s)
            },
        },
    }
}

/// A stored watermark after a whole sequence of partial-acceptance
/// proposals, each passed through the monotonicity guard in turn.
pub open spec fn spec_apply_proposals(stored: Option<i64>, proposals: Seq<Option<i64>>) -> Option<
    i64,
>
    decreases proposals.len(),
{
    if proposals.len() == 0 {
        stored
    } else {
        spec_apply_proposals(spec_advance(stored, proposals[0]), proposals.drop_first())
    }
}

/// Monotonicity: a stored watermark never decreases under any sequence of
/// partial-acceptance proposals — whatever is proposed, in whatever order,
/// what ends up stored is at or after what was stored before.
pub proof fn lemma_watermark_monotonic(stored: Option<i64>, proposals: Seq<Option<i64>>)
    requires
        stored is Some,
    ensures
        spec_apply_proposals(stored, proposals) matches Some(v) && v >= stored->Some_0,
    decreases proposals.len(),
{
    if proposals.len() > 0 {
        lemma_watermark_monotonic(spec_advance(stored, proposals[0]), proposals.drop_first());
    }
}

/// A run that ends in abort writes nothing: the stored pair persists, and
/// running again with abort again still leaves it untouched.
pub proof fn lemma_abort_changes_nothing(stored: NewDate, latest: NewDate, now: i64)
    ensures
        spec_applied(stored, spec_reconcile(SelectedPapers::Abort, stored, latest, now)) == stored,
        spec_applied(
            spec_applied(stored, spec_reconcile(SelectedPapers::Abort, stored, latest, now)),
            spec_reconcile(
                SelectedPapers::Abort,
                spec_applied(stored, spec_reconcile(SelectedPapers::Abort, stored, latest, now)),
                latest,
                now,
            ),
        ) == stored,
{
}

/// The first entry of `v` in the given source class, by publication
/// instant.  On a list sorted descending this is the latest such instant —
/// see [`lemma_first_is_latest_when_sorted`].
pub open spec fn spec_first_of_class(v: Seq<Paper>, arxiv: bool) -> Option<i64>
    decreases v.len(),
{
    if v.len() == 0 {
        None
    } else if spec_class_matches(v[0], arxiv) {
        Some(v[0].published)
    } else {
        spec_first_of_class(v.drop_first(), arxiv)
    }
}

/// Reads off, per source, the published instant of the first paper of that
/// source in the list.  The list handed in is sorted descending, so this
/// is the maximum per source.
pub fn get_latest_dates(papers: &Vec<Paper>) -> (r: NewDate)
    ensures
        r.eccc == spec_first_of_class(papers@, false),
        r.arxiv == spec_first_of_class(papers@, true),
{
    let n = papers.len();
    let mut eccc: Option<i64> = None;
    let mut arxiv: Option<i64> = None;
    let mut i: usize = 0;
    while i < n
        invariant
            i <= n,
            n == papers@.len(),
            eccc matches Some(x) ==> spec_first_of_class(papers@, false) == Some(x),
            eccc is None ==> forall|k: int| 0 <= k < i ==> !spec_class_matches(papers@[k], false),
            arxiv matches Some(x) ==> spec_first_of_class(papers@, true) == Some(x),
            arxiv is None ==> forall|k: int| 0 <= k < i ==> !spec_class_matches(papers@[k], true),
        decreases n - i,
    {
        let p = &papers[i];
        if eccc.is_none() && p.source.is_eccc() {
            proof {
                lemma_first_of_class_skip(papers@, i as int, false);
                assert(papers@.skip(i as int)[0] == papers@[i as int]);
            }
            eccc = Some(p.published);
        }
        if arxiv.is_none() && p.source.is_arxiv() {
            proof {
                lemma_first_of_class_skip(papers@, i as int, true);
                assert(papers@.skip(i as int)[0] == papers@[i as int]);
            }
            arxiv = Some(p.published);
        }
        i += 1;
    }
    proof {
        if eccc is None {
            lemma_first_of_class_skip(papers@, n as int, false);
            assert(papers@.skip(n as int) =~= Seq::<Paper>::empty());
        }
        if arxiv is None {
            lemma_first_of_class_skip(papers@, n as int, true);
            assert(papers@.skip(n as int) =~= Seq::<Paper>::empty());
        }
    }
    NewDate { eccc, arxiv }
}

/// The latest instant of a class is attained by some entry of the class
/// and bounds every entry of the class; when it is absent, the class is
/// empty.
proof fn lemma_latest_is_max(v: Seq<Paper>, c: bool)
    ensures
        match spec_latest(v, c) {
            None => forall|i: int| 0 <= i < v.len() ==> !spec_class_matches(v[i], c),
            Some(m) => (exists|i: int|
                0 <= i < v.len() && spec_class_matches(v[i], c) && v[i].published == m) && (
            forall|i: int|
                0 <= i < v.len() && spec_class_matches(v[i], c) ==> v[i].published <= m),
        },
    decreases v.len(),
{
    if v.len() > 0 {
        lemma_latest_is_max(v.drop_last(), c);
        assert(forall|i: int| 0 <= i < v.len() - 1 ==> v.drop_last()[i] == v[i]);
        let last = v.last();
        let rest = spec_latest(v.drop_last(), c);
        if spec_class_matches(last, c) {
            if rest is Some {
                let m0 = rest->Some_0;
                let iw = choose|i: int|
                    0 <= i < v.drop_last().len() && spec_class_matches(v.drop_last()[i], c)
                        && v.drop_last()[i].published == m0;
                if last.published > m0 {
                    assert(spec_class_matches(v[v.len() - 1], c) && v[v.len() - 1].published
                        == last.published);
                } else {
                    assert(spec_class_matches(v[iw], c) && v[iw].published == m0);
                }
            } else {
                assert(spec_class_matches(v[v.len() - 1], c) && v[v.len() - 1].published
                    == last.published);
            }
        } else {
            if rest is Some {
                let m0 = rest->Some_0;
                let iw = choose|i: int|
                    0 <= i < v.drop_last().len() && spec_class_matches(v.drop_last()[i], c)
                        && v.drop_last()[i].published == m0;
                assert(spec_class_matches(v[iw], c) && v[iw].published == m0);
            }
        }
    }
}

/// The first entry of a class is an entry of the class, and nothing of
/// the class stands before it; when it is absent, the class is empty.
proof fn lemma_first_characterized(v: Seq<Paper>, c: bool)
    ensures
        match spec_first_of_class(v, c) {
            None => forall|i: int| 0 <= i < v.len() ==> !spec_class_matches(v[i], c),
            Some(f) => exists|i: int|
                0 <= i < v.len() && spec_class_matches(v[i], c) && v[i].published == f && (
                forall|k: int| 0 <= k < i ==> !spec_class_matches(v[k], c)),
        },
    decreases v.len(),
{
    if v.len() > 0 {
        if spec_class_matches(v[0], c) {
            assert(spec_class_matches(v[0], c) && v[0].published == v[0].published && (forall|
                k: int,
            | 0 <= k < 0 ==> !spec_class_matches(v[k], c)));
        } else {
            lemma_first_characterized(v.drop_first(), c);
            assert(forall|i: int| 0 <= i < v.len() - 1 ==> v.drop_first()[i] == v[i + 1]);
            if spec_first_of_class(v.drop_first(), c) is Some {
                let f = spec_first_of_class(v.drop_first(), c)->Some_0;
                let iw = choose|i: int|
                    0 <= i < v.drop_first().len() && spec_class_matches(v.drop_first()[i], c)
                        && v.drop_first()[i].published == f && (forall|k: int|
                        0 <= k < i ==> !spec_class_matches(v.drop_first()[k], c));
                assert forall|k: int| 0 <= k < iw + 1 implies !spec_class_matches(v[k], c) by {
                    if k >= 1 {
                        assert(v.drop_first()[k - 1] == v[k]);
                        assert(!spec_class_matches(v.drop_first()[k - 1], c));
                    }
                }
                assert(v.drop_first()[iw] == v[iw + 1]);
                assert(spec_class_matches(v[iw + 1], c) && v[iw + 1].published == f && (forall|
                    k: int,
                | 0 <= k < iw + 1 ==> !spec_class_matches(v[k], c)));
            } else {
                assert forall|i: int| 0 <= i < v.len() implies !spec_class_matches(v[i], c) by {
                    if i >= 1 {
                        assert(v.drop_first()[i - 1] == v[i]);
                    }
                }
            }
        }
    }
}

/// On a list sorted descending by publication instant, the first entry of
/// a source class carries the latest instant of that class: reading the
/// new watermark off the top of the sorted list is taking the per-source
/// maximum over the whole set.
pub proof fn lemma_first_is_latest_when_sorted(v: Seq<Paper>, arxiv: bool)
    requires
        spec_sorted_desc(v),
    ensures
        spec_first_of_class(v, arxiv) == spec_latest(v, arxiv),
{
    lemma_latest_is_max(v, arxiv);
    lemma_first_characterized(v, arxiv);
    let first = spec_first_of_class(v, arxiv);
    let latest = spec_latest(v, arxiv);
    if first is Some && latest is Some {
        let f = first->Some_0;
        let m = latest->Some_0;
        let i0 = choose|i: int|
            0 <= i < v.len() && spec_class_matches(v[i], arxiv) && v[i].published == f && (forall|
                k: int,
            | 0 <= k < i ==> !spec_class_matches(v[k], arxiv));
        let im = choose|i: int|
            0 <= i < v.len() && spec_class_matches(v[i], arxiv) && v[i].published == m;
        assert(i0 <= im);
        assert(v[i0].published >= v[im].published);
        assert(f <= m);
    } else if first is Some {
        let f = first->Some_0;
        let i0 = choose|i: int|
            0 <= i < v.len() && spec_class_matches(v[i], arxiv) && v[i].published == f && (forall|
                k: int,
            | 0 <= k < i ==> !spec_class_matches(v[k], arxiv));
        assert(false);
    } else if latest is Some {
        let m = latest->Some_0;
        let im = choose|i: int|
            0 <= i < v.len() && spec_class_matches(v[i], arxiv) && v[i].published == m;
        assert(false);
    }
}

/// If no entry before `i` is in the class, the first of the class over the
/// whole list is the first over the tail from `i`.
proof fn lemma_first_of_class_skip(v: Seq<Paper>, i: int, arxiv: bool)
    requires
        0 <= i <= v.len(),
        forall|k: int| 0 <= k < i ==> !spec_class_matches(v[k], arxiv),
    ensures
        spec_first_of_class(v, arxiv) == spec_first_of_class(v.skip(i), arxiv),
    decreases i,
{
    if i > 0 {
        assert(v.skip(0) =~= v);
        assert(forall|k: int| 0 <= k < i - 1 ==> v.drop_first()[k] == v[k + 1]);
        lemma_first_of_class_skip(v.drop_first(), i - 1, arxiv);
        assert(v.drop_first().skip(i - 1) =~= v.skip(i));
    } else {
        assert(v.skip(0) =~= v);
    }
}

} // verus!
