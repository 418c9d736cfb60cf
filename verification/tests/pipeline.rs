use theory_grabber::types::{
    Paper, Source, filter_papers, fuzzy_exists_equal_different_source, dedup_papers,
    sanitize_title,
};
use theory_grabber::eccc::{
    extract_authors, extract_id_rough_date, rough_paper_from_parts, to_paper,
    parse_detail_published, rough_filter_date, filter_rough, DateError,
};
use theory_grabber::dates::CalendarDate;
use theory_grabber::arxiv::paper_from_arxiv_entry;

fn paper(title: &str, description: &str, source: Source, published: i64, authors: &[&str]) -> Paper {
    Paper {
        title: title.to_string(),
        description: description.to_string(),
        link: "https://www.example.com".to_string(),
        source,
        published,
        authors: authors.iter().map(|a| a.to_string()).collect(),
    }
}

// The check instant used by the filter tests: 2024-01-10T12:00:00Z, a
// Wednesday.  The most recently passed New York 14:00 moment before it is
// Tuesday 2024-01-09T19:00:00Z.
const NOW: i64 = 1704888000;
const TUESDAY_CUTOFF: i64 = 1704826800;

#[test]
fn filter_test() {
    let p1 = paper("Test1", "a", Source::ECCC, NOW - 1, &["Author1", "Author2"]);
    let p2 = paper("Test2", "b", Source::Arxiv(String::new()), NOW, &["Author2", "Author1"]);
    let p3 = paper("Test3", "c", Source::Arxiv(String::new()), NOW, &["Author3", "Author2"]);
    let vec = vec![p1, p2.clone(), p3.clone()];
    assert_eq!(filter_papers(vec, NOW), vec![p2, p3]);
}

#[test]
fn eccc_filter_is_inclusive() {
    let at = paper("A", "a", Source::ECCC, NOW, &["X"]);
    let before = paper("B", "b", Source::ECCC, NOW - 1, &["X"]);
    assert_eq!(filter_papers(vec![at.clone(), before], NOW), vec![at]);
}

#[test]
fn embargo_cutoff_boundary() {
    // Checking on a Monday at 10:00 UTC (2024-01-08T10:00:00Z) with New
    // York at UTC-5: the effective cutoff walks back from Monday 19:00
    // UTC (still in the future at check time) through the weekend to the
    // prior Friday's 14:00 EST, i.e. 2024-01-05T19:00:00Z.  A paper at
    // exactly the cutoff does not count; one second later does.
    let monday_ten_utc: i64 = 1704708000;
    let friday_cutoff: i64 = 1704481200;
    let at = paper("At", "a", Source::Arxiv(String::new()), friday_cutoff, &["X"]);
    let after = paper("After", "b", Source::Arxiv(String::new()), friday_cutoff + 1, &["X"]);
    assert_eq!(
        filter_papers(vec![at, after.clone()], monday_ten_utc),
        vec![after]
    );
}

#[test]
fn embargo_cutoff_at_the_release_moment() {
    // a check at exactly 14:00 New York wall clock: that moment has not
    // passed, it *is* the cutoff, so a paper published exactly then does
    // not count and one a second later does
    let friday_two_pm_utc: i64 = 1704481200;
    let at = paper("At", "a", Source::Arxiv(String::new()), friday_two_pm_utc, &["X"]);
    let after = paper("After", "b", Source::Arxiv(String::new()), friday_two_pm_utc + 1, &["X"]);
    assert_eq!(
        filter_papers(vec![at, after.clone()], friday_two_pm_utc),
        vec![after]
    );
}

#[test]
fn embargo_cutoff_all_weekdays() {
    // One check per weekday of 2024-01-08..14, each at 10:00 UTC; the
    // effective cutoff is the most recently passed New York 14:00 (19:00
    // UTC in winter), stepped off Saturday and Sunday onto Friday.
    let day = 86400;
    let mon_check = 1704708000; // 2024-01-08T10:00:00Z
    let fri_cutoff = 1704481200; // 2024-01-05T19:00:00Z
    let expected = [
        fri_cutoff,           // Monday: prior Friday
        fri_cutoff + 3 * day, // Tuesday: Monday's cutoff has passed
        fri_cutoff + 4 * day, // Wednesday
        fri_cutoff + 5 * day, // Thursday
        fri_cutoff + 6 * day, // Friday: Thursday's cutoff
        fri_cutoff + 7 * day, // Saturday: Friday's cutoff
        fri_cutoff + 7 * day, // Sunday: still Friday's cutoff
    ];
    for (i, cutoff) in expected.iter().enumerate() {
        let check = mon_check + (i as i64) * day;
        let at = paper("At", "a", Source::Arxiv(String::new()), *cutoff, &["X"]);
        let after = paper("After", "b", Source::Arxiv(String::new()), *cutoff + 1, &["X"]);
        assert_eq!(
            filter_papers(vec![at, after.clone()], check),
            vec![after],
            "weekday offset {}",
            i
        );
    }
}

#[test]
fn embargo_cutoff_across_dst_transition() {
    // New York sprang forward on Sunday 2024-03-10.  A Monday
    // 2024-03-11T10:00:00Z check walks back through the weekend across
    // the transition; every step lands on a true 14:00 wall-clock
    // moment, so the cutoff is Friday 14:00 EST = 2024-03-08T19:00:00Z,
    // not a fixed number of whole days before a 14:00 EDT moment.
    let monday_check: i64 = 1710151200;
    let friday_cutoff: i64 = 1709924400;
    let at = paper("At", "a", Source::Arxiv(String::new()), friday_cutoff, &["X"]);
    let after = paper("After", "b", Source::Arxiv(String::new()), friday_cutoff + 1, &["X"]);
    assert_eq!(
        filter_papers(vec![at, after.clone()], monday_check),
        vec![after]
    );
    // the Tuesday after the transition cuts off at Monday 14:00 EDT
    let tuesday_check: i64 = 1710237600;
    let monday_cutoff: i64 = 1710180000;
    let at2 = paper("At", "a", Source::Arxiv(String::new()), monday_cutoff, &["X"]);
    let after2 = paper("After", "b", Source::Arxiv(String::new()), monday_cutoff + 1, &["X"]);
    assert_eq!(
        filter_papers(vec![at2, after2.clone()], tuesday_check),
        vec![after2]
    );
}

#[test]
fn fuzzy_exists_test() {
    let p1 = paper("Test1", "a", Source::ECCC, NOW, &["Author1", "Author2"]);
    let p1eq = paper("Test1", "b", Source::Arxiv(String::new()), NOW, &["Author2", "Author1"]);
    let p2 = paper("Test1 t", "c", Source::Arxiv(String::new()), NOW, &["Author3", "Author2"]);
    let vec = vec![p1.clone(), p1eq.clone(), p2.clone()];
    assert!(!fuzzy_exists_equal_different_source(&vec, &p1));
    assert!(fuzzy_exists_equal_different_source(&vec, &p1eq));
    assert!(!fuzzy_exists_equal_different_source(&vec, &p2));
}

#[test]
fn dedup_test() {
    let p1 = paper("Test1", "a", Source::ECCC, NOW, &["Author1", "Author2"]);
    let p1eq = paper("Test1", "b", Source::Arxiv(String::new()), NOW, &["Author2", "Author1"]);
    let p2 = paper("Test1 t", "c", Source::Arxiv(String::new()), NOW, &["Author3", "Author2"]);
    let mut v = vec![p1.clone(), p1eq, p2.clone()];
    dedup_papers(&mut v);
    assert_eq!(vec![p1, p2], v);
}

#[test]
fn fuzzy_reports_same_source_copies() {
    // two distinct arXiv papers with one title duplicate each other;
    // a title carried only once is no duplicate; ECCC entries are never
    // reported, being the copies dedup keeps
    let a1 = paper("Foo", "a", Source::Arxiv("v1".to_string()), NOW, &["X"]);
    let a2 = paper("Foo", "b", Source::Arxiv("v2".to_string()), NOW + 1, &["Y"]);
    let e1 = paper("Bar", "c", Source::ECCC, NOW, &["Z"]);
    let e2 = paper("Bar", "d", Source::ECCC, NOW + 2, &["W"]);
    let v = vec![a1.clone(), a2.clone(), e1.clone(), e2.clone()];
    assert!(fuzzy_exists_equal_different_source(&v, &a1));
    assert!(fuzzy_exists_equal_different_source(&v, &a2));
    assert!(!fuzzy_exists_equal_different_source(&v, &e1));
    assert!(!fuzzy_exists_equal_different_source(&v, &e2));
}

#[test]
fn dedup_collapses_same_source_copies() {
    // several copies of one title within one source: a single survivor,
    // the first seen; with an ECCC copy anywhere, the first ECCC copy
    let a1 = paper("Foo", "a", Source::Arxiv("v1".to_string()), NOW, &["X"]);
    let a2 = paper("Foo", "b", Source::Arxiv("v2".to_string()), NOW + 1, &["Y"]);
    let mut v = vec![a1.clone(), a2];
    dedup_papers(&mut v);
    assert_eq!(v, vec![a1.clone()]);

    let e1 = paper("Foo", "c", Source::ECCC, NOW + 2, &["Z"]);
    let e2 = paper("Foo", "d", Source::ECCC, NOW + 3, &["W"]);
    let mut w = vec![a1, e1.clone(), e2];
    dedup_papers(&mut w);
    assert_eq!(w, vec![e1]);
}

#[test]
fn dedup_prefers_embargo_copy() {
    // two candidates titled "Foo", one from each source: dedup leaves
    // exactly one, and it is the ECCC copy
    let from_arxiv = paper("Foo", "a", Source::Arxiv("v1".to_string()), NOW, &["X"]);
    let from_eccc = paper("Foo", "b", Source::ECCC, NOW + 5, &["X"]);
    let mut v = vec![from_arxiv, from_eccc.clone()];
    dedup_papers(&mut v);
    assert_eq!(v, vec![from_eccc]);
}

#[test]
fn sanitize_title_test() {
    assert_eq!(sanitize_title("A\nB"), "AB");
    assert_eq!(sanitize_title("A  B"), "A B");
    assert_eq!(sanitize_title("A/B"), "AB");
    // a whole run of spaces collapses to one
    assert_eq!(sanitize_title("A    B"), "A B");
    assert_eq!(sanitize_title("On the \nHardness/Easiness  of X"), "On the HardnessEasiness of X");
}

#[test]
fn tokens_split_at_unicode_whitespace() {
    // the no-break space separates words just as an ASCII space does
    let raw = "a b c d e Jane\u{a0}Doe John\u{2009}Q";
    assert_eq!(
        extract_authors(raw),
        vec!["Jane Doe".to_string(), "John Q".to_string()]
    );
}

#[test]
fn extract_authors_test() {
    // the first five words are an id and a link; the rest pair up
    let raw = " TR17-001 | 1st January 2017 Jane Doe John Smith";
    assert_eq!(extract_authors(raw), vec!["Jane Doe".to_string(), "John Smith".to_string()]);
    // an odd leftover word is dropped
    let raw2 = "a b c d e First Last Odd";
    assert_eq!(extract_authors(raw2), vec!["First Last".to_string()]);
    assert_eq!(extract_authors("a b"), Vec::<String>::new());
}

#[test]
fn extract_id_rough_date_test() {
    let (id, date) = extract_id_rough_date("TR17-177 : 16th November 2017").unwrap();
    assert_eq!(id, " TR17-177 :");
    assert_eq!(date, CalendarDate { year: 2017, month: 11, day: 16 });
    assert_eq!(
        extract_id_rough_date("TR17-177 : November 2017").err(),
        Some(DateError::Parse)
    );
}

#[test]
fn rough_paper_from_parts_test() {
    let rp = rough_paper_from_parts(
        "TR17-177 | 16th November 2017",
        " /report/2017/177/ ",
        "  A Nice Result  ",
        "a b c d e Jane Doe",
    )
    .unwrap();
    assert_eq!(rp.title, "A Nice Result");
    assert_eq!(rp.details_link, "https://eccc.weizmann.ac.il/report/2017/177/");
    assert_eq!(rp.rough_published, CalendarDate { year: 2017, month: 11, day: 16 });
    assert_eq!(rp.authors, vec!["Jane Doe".to_string()]);

    let full = to_paper(&rp, "https://example.org/download".to_string(), "abs".to_string(), 77);
    assert_eq!(full.source, Source::ECCC);
    assert_eq!(full.title, "A Nice Result");
    assert_eq!(full.published, 77);
    assert_eq!(full.authors, vec!["Jane Doe".to_string()]);
}

#[test]
fn parse_detail_published_test() {
    // format is "TR17-177 | 16th November 2017 04:24 \n\n {Title}"
    let line = "TR17-177 | 16th November 2017 04:24 \n\n Title";
    assert_eq!(parse_detail_published(line), Ok(1510799040));
    assert_eq!(parse_detail_published("no separator here"), Err(DateError::Parse));
    assert_eq!(parse_detail_published("TR | garbage"), Err(DateError::Parse));
}

#[test]
fn rough_filter_test() {
    let cutoff = rough_filter_date(2017, 11, 16);
    assert_eq!(cutoff, CalendarDate { year: 2017, month: 11, day: 15 });
    assert_eq!(rough_filter_date(2017, 11, 1), CalendarDate { year: 2017, month: 11, day: 1 });
    let mk = |y: i32, m: u8, d: u8| theory_grabber::eccc::RoughPaper {
        title: "T".to_string(),
        details_link: "L".to_string(),
        rough_published: CalendarDate { year: y, month: m, day: d },
        authors: vec![],
    };
    let kept = filter_rough(vec![mk(2017, 11, 14), mk(2017, 11, 15), mk(2017, 12, 1)], &cutoff);
    assert_eq!(kept.len(), 2);
    assert_eq!(kept[0].rough_published, CalendarDate { year: 2017, month: 11, day: 15 });
    assert_eq!(kept[1].rough_published, CalendarDate { year: 2017, month: 12, day: 1 });
}

#[test]
fn author_string_test() {
    let p = paper(
        "T",
        "d",
        Source::ECCC,
        NOW,
        &["Jane Doe", "John Q Smith", "Single", "ann van der Berg"],
    );
    // second word's initial, uppercased; 'N' when there is no second word
    assert_eq!(p.author_string(), "DQNV");
}

#[test]
fn format_author_test() {
    let p = paper("T", "d", Source::ECCC, NOW, &["Jane Doe", "John Q Smith"]);
    assert_eq!(p.format_author(), "Doe, Smith");
    let q = paper("T", "d", Source::ECCC, NOW, &[]);
    assert_eq!(q.format_author(), "");
}

#[test]
fn filename_test() {
    // 1510799040 is 2017-11-16 in UTC
    let p = paper("A Title  ", "d", Source::ECCC, 1510799040, &["Jane Doe"]);
    assert_eq!(p.filename().unwrap(), "2017-11-16-D-A Title.pdf");
    // the instant of the epoch pads its month and day
    let q = paper("T", "d", Source::ECCC, 0, &["Jane Doe"]);
    assert_eq!(q.filename().unwrap(), "1970-01-01-D-T.pdf");
    // titles are cut to 75 characters before trailing spaces go
    let long = "a".repeat(80);
    let r = paper(&long, "d", Source::ECCC, 0, &["Jane Doe"]);
    assert_eq!(r.filename().unwrap(), format!("1970-01-01-D-{}.pdf", "a".repeat(75)));
}

#[test]
fn arxiv_entry_test() {
    let p = paper_from_arxiv_entry(
        "A  Title\nwith mess",
        "summary".to_string(),
        "2017-11-16T02:24:00+00:00",
        "https://export.arxiv.org/abs/1".to_string(),
        vec!["Jane Doe".to_string()],
        "v2".to_string(),
    )
    .unwrap();
    assert_eq!(p.published, 1510799040);
    assert_eq!(p.title, "A Titlewith mess");
    assert_eq!(p.source, Source::Arxiv("v2".to_string()));
    assert!(paper_from_arxiv_entry(
        "T",
        String::new(),
        "yesterday",
        String::new(),
        vec![],
        String::new(),
    )
    .is_err());
    // the offset is honoured, not dropped
    let q = paper_from_arxiv_entry(
        "T",
        String::new(),
        "2017-11-16T02:24:00+02:00",
        String::new(),
        vec![],
        String::new(),
    )
    .unwrap();
    assert_eq!(q.published, 1510799040 - 7200);
}
