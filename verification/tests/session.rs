use theory_grabber::types::{Paper, Source, NewDate};
use theory_grabber::curation::{
    CurationSession, InputEvent, SelectedPapers, StepResult, input_handle, start_session,
    latest_published,
};
use theory_grabber::watermark::{reconcile_watermarks, get_latest_dates};
use theory_grabber::config::{Config, read_directory_id, setup};

fn paper(title: &str, source: Source, published: i64) -> Paper {
    Paper {
        title: title.to_string(),
        description: String::new(),
        link: "https://www.example.com".to_string(),
        source,
        published,
        authors: vec!["Jane Doe".to_string()],
    }
}

fn session(papers: Vec<Paper>, cursor: Option<usize>) -> CurationSession {
    CurationSession { papers, cursor, history: Vec::new(), removed_at: Vec::new() }
}

fn three() -> Vec<Paper> {
    vec![
        paper("A", Source::ECCC, 30),
        paper("B", Source::Arxiv(String::new()), 20),
        paper("C", Source::ECCC, 10),
    ]
}

#[test]
fn start_session_sorts_descending() {
    let unsorted = vec![
        paper("C", Source::ECCC, 10),
        paper("A", Source::ECCC, 30),
        paper("B", Source::Arxiv(String::new()), 20),
    ];
    let s = start_session(unsorted).unwrap();
    assert_eq!(s.papers, three());
    assert_eq!(s.cursor, Some(2));
    assert!(s.history.is_empty());
    assert!(start_session(Vec::new()).is_none());
}

#[test]
fn remove_then_undo_at_first_row_restores_list() {
    let s = session(three(), Some(0));
    let s = match input_handle(s, InputEvent::Remove) {
        StepResult::Continue(s) => s,
        StepResult::Done(_) => panic!("session ended"),
    };
    assert_eq!(s.papers.len(), 2);
    assert_eq!(s.cursor, Some(0));
    assert_eq!(s.history.len(), 1);
    let s = match input_handle(s, InputEvent::Undo) {
        StepResult::Continue(s) => s,
        StepResult::Done(_) => panic!("session ended"),
    };
    assert_eq!(s.papers, three());
    assert!(s.history.is_empty());
}

#[test]
fn remove_then_undo_at_middle_row_restores_list() {
    // a session with three rows: removing the row at index 1 and undoing
    // gives back the original list, in content and in order
    let s = session(three(), Some(1));
    let s = match input_handle(s, InputEvent::Remove) {
        StepResult::Continue(s) => s,
        StepResult::Done(_) => panic!("session ended"),
    };
    assert_eq!(s.cursor, Some(0));
    assert_eq!(s.removed_at, vec![1]);
    let s = match input_handle(s, InputEvent::Undo) {
        StepResult::Continue(s) => s,
        StepResult::Done(_) => panic!("session ended"),
    };
    assert_eq!(s.papers, three());
    assert!(s.history.is_empty());
    assert!(s.removed_at.is_empty());
}

#[test]
fn stacked_removals_undo_in_reverse() {
    // removing the last row and then the first, undoing both restores
    // the original list exactly, whatever the cursor did in between
    let s = session(three(), Some(2));
    let s = match input_handle(s, InputEvent::Remove) {
        StepResult::Continue(s) => s,
        _ => panic!(),
    };
    let s = match input_handle(s, InputEvent::First) {
        StepResult::Continue(s) => s,
        _ => panic!(),
    };
    let s = match input_handle(s, InputEvent::Remove) {
        StepResult::Continue(s) => s,
        _ => panic!(),
    };
    assert_eq!(s.papers.len(), 1);
    let s = match input_handle(s, InputEvent::Undo) {
        StepResult::Continue(s) => s,
        _ => panic!(),
    };
    let s = match input_handle(s, InputEvent::Undo) {
        StepResult::Continue(s) => s,
        _ => panic!(),
    };
    assert_eq!(s.papers, three());
}

#[test]
fn undo_on_empty_stack_is_a_no_op() {
    let s = session(three(), Some(2));
    let s = match input_handle(s, InputEvent::Undo) {
        StepResult::Continue(s) => s,
        StepResult::Done(_) => panic!("session ended"),
    };
    assert_eq!(s.papers, three());
    assert_eq!(s.cursor, Some(2));
}

#[test]
fn cursor_moves_clamp() {
    let s = session(three(), Some(2));
    let s = match input_handle(s, InputEvent::Down) {
        StepResult::Continue(s) => s,
        _ => panic!(),
    };
    assert_eq!(s.cursor, Some(2));
    let s = match input_handle(s, InputEvent::First) {
        StepResult::Continue(s) => s,
        _ => panic!(),
    };
    assert_eq!(s.cursor, Some(0));
    let s = match input_handle(s, InputEvent::Up) {
        StepResult::Continue(s) => s,
        _ => panic!(),
    };
    assert_eq!(s.cursor, Some(0));
    let s = match input_handle(s, InputEvent::Last) {
        StepResult::Continue(s) => s,
        _ => panic!(),
    };
    assert_eq!(s.cursor, Some(2));
}

#[test]
fn quit_aborts_and_accept_returns_all() {
    match input_handle(session(three(), Some(2)), InputEvent::Quit) {
        StepResult::Done(SelectedPapers::Abort) => {}
        _ => panic!("expected abort"),
    }
    match input_handle(session(three(), Some(2)), InputEvent::Accept) {
        StepResult::Done(SelectedPapers::Selected(v)) => assert_eq!(v, three()),
        _ => panic!("expected selection"),
    }
}

#[test]
fn accept_up_to_returns_tail_and_marks_from_history() {
    // remove the two newest rows (triaging them), then accept at the
    // cursor: the kept tail is from the cursor on, and the proposed
    // marks are the per-source maxima of the discarded history
    let s = session(three(), Some(0));
    let s = match input_handle(s, InputEvent::Remove) {
        StepResult::Continue(s) => s,
        _ => panic!(),
    };
    let s = match input_handle(s, InputEvent::Remove) {
        StepResult::Continue(s) => s,
        _ => panic!(),
    };
    assert_eq!(s.history.len(), 2);
    match input_handle(s, InputEvent::AcceptUpTo) {
        StepResult::Done(SelectedPapers::SelectedAndSavedAt(kept, marks)) => {
            assert_eq!(kept, vec![paper("C", Source::ECCC, 10)]);
            assert_eq!(marks, NewDate { eccc: Some(30), arxiv: Some(20) });
        }
        _ => panic!("expected partial acceptance"),
    }
}

#[test]
fn latest_published_picks_per_source_maximum() {
    let v = three();
    assert_eq!(latest_published(&v, false), Some(30));
    assert_eq!(latest_published(&v, true), Some(20));
    assert_eq!(latest_published(&Vec::new(), true), None);
}

#[test]
fn get_latest_dates_reads_top_of_sorted_list() {
    let v = three();
    let nd = get_latest_dates(&v);
    assert_eq!(nd, NewDate { eccc: Some(30), arxiv: Some(20) });
    let empty = get_latest_dates(&Vec::new());
    assert_eq!(empty, NewDate { eccc: None, arxiv: None });
}

#[test]
fn reconcile_abort_writes_nothing() {
    let stored = NewDate { eccc: Some(100), arxiv: Some(50) };
    let latest = NewDate { eccc: Some(300), arxiv: Some(400) };
    assert_eq!(reconcile_watermarks(&SelectedPapers::Abort, &stored, &latest, 999), None);
    // twice in a row with no new data: still nothing written
    assert_eq!(reconcile_watermarks(&SelectedPapers::Abort, &stored, &latest, 999), None);
}

#[test]
fn reconcile_no_new_advances_to_now() {
    let stored = NewDate { eccc: Some(100), arxiv: None };
    let latest = NewDate { eccc: None, arxiv: None };
    assert_eq!(
        reconcile_watermarks(&SelectedPapers::NoNew, &stored, &latest, 999),
        Some(NewDate { eccc: Some(999), arxiv: Some(999) })
    );
    // a stored mark already past "now" stays
    let ahead = NewDate { eccc: Some(2000), arxiv: None };
    assert_eq!(
        reconcile_watermarks(&SelectedPapers::NoNew, &ahead, &latest, 999),
        Some(NewDate { eccc: Some(2000), arxiv: Some(999) })
    );
}

#[test]
fn reconcile_accept_all_takes_latest_seen() {
    let stored = NewDate { eccc: Some(100), arxiv: Some(50) };
    let latest = NewDate { eccc: Some(300), arxiv: None };
    assert_eq!(
        reconcile_watermarks(&SelectedPapers::Selected(Vec::new()), &stored, &latest, 999),
        Some(NewDate { eccc: Some(300), arxiv: Some(50) })
    );
}

#[test]
fn reconcile_partial_never_moves_backward() {
    let stored = NewDate { eccc: Some(100), arxiv: Some(50) };
    // a proposal before the stored mark is ignored; one at or after wins
    let proposal = NewDate { eccc: Some(99), arxiv: Some(50) };
    assert_eq!(
        reconcile_watermarks(
            &SelectedPapers::SelectedAndSavedAt(Vec::new(), proposal),
            &stored,
            &NewDate { eccc: None, arxiv: None },
            999
        ),
        Some(NewDate { eccc: Some(100), arxiv: Some(50) })
    );
    let proposal2 = NewDate { eccc: Some(150), arxiv: None };
    assert_eq!(
        reconcile_watermarks(
            &SelectedPapers::SelectedAndSavedAt(Vec::new(), proposal2),
            &stored,
            &NewDate { eccc: None, arxiv: None },
            999
        ),
        Some(NewDate { eccc: Some(150), arxiv: Some(50) })
    );
}

#[test]
fn config_defaults_and_directory_id() {
    let c = Config::default_at(777);
    assert_eq!(c.last_checked_arxiv, Some(777));
    assert_eq!(c.last_checked_eccc, Some(777));
    assert_eq!(c.directory_id, None);
    assert_eq!(read_directory_id(&Some(c)), None);
    assert_eq!(read_directory_id(&None), None);
    let mut c2 = Config::default_at(1);
    c2.directory_id = Some("abc".to_string());
    assert_eq!(setup(&Some(c2)), "abc");
    assert_eq!(setup(&None), "NULL");
}

#[test]
fn apply_marks_overwrites_watermarks() {
    let mut c = Config::default_at(10);
    c.apply_marks(&NewDate { eccc: Some(20), arxiv: None });
    assert_eq!(c.last_checked_eccc, Some(20));
    assert_eq!(c.last_checked_arxiv, None);
    assert_eq!(c.last_checked, 10);
}
