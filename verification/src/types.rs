//! The canonical paper record, its source tag, and the cross-source
//! deduplication rule.

use vstd::prelude::*;
use vstd::string::StrSliceExecFns;
use vstd::string::StringExecFns;
use crate::text::{
    spec_strip, spec_collapse_space_runs, strip_char, collapse_space_runs, spec_tokens,
    spec_views, split_tokens, push_char, lemma_tokens_nonempty, spec_rtrim_start, lemma_rtrim_take,
};

verus! {

/// Shows where the paper came from.
#[derive(Debug, PartialEq, Eq)]
pub enum Source {
    /// The source is arXiv.org; the payload is a version tag, possibly empty.
    Arxiv(String),
    /// The source is ECCC (Electronic Colloquium on Computational Complexity).
    ECCC,
}

impl Source {
    /// Whether this tag is the arXiv variant.
    pub open spec fn spec_is_arxiv(&self) -> bool {
        self matches Source::Arxiv(_)
    }

    /// Whether this tag is the ECCC variant.
    pub open spec fn spec_is_eccc(&self) -> bool {
        self matches Source::ECCC
    }

    pub fn is_arxiv(&self) -> (r: bool)
        ensures
            r == self.spec_is_arxiv(),
    {
        matches!(self, Source::Arxiv(_))
    }

    pub fn is_eccc(&self) -> (r: bool)
        ensures
            r == self.spec_is_eccc(),
    {
        matches!(self, Source::ECCC)
    }
}

/// A paper, fully resolved: its publication instant is always a UTC unix
/// timestamp in whole seconds — no naive or zone-less date survives past
/// the parsing boundary.
#[derive(Debug, PartialEq, Eq)]
pub struct Paper {
    /// The title of the paper.
    pub title: String,
    /// Description/abstract of the paper.
    pub description: String,
    /// URL where the paper can be downloaded.
    pub link: String,
    /// Where we parsed the paper from.
    pub source: Source,
    /// The publication instant, as a UTC unix timestamp in seconds.
    pub published: i64,
    /// The authors, in the order the source gives them.
    pub authors: Vec<String>,
}

impl Clone for Source {
    fn clone(&self) -> (r: Self)
        ensures
            r == *self,
    {
        match self {
            Source::Arxiv(s) => Source::Arxiv(s.clone()),
            Source::ECCC => Source::ECCC,
        }
    }
}

impl Clone for Paper {
    fn clone(&self) -> (r: Self)
        ensures
            r.title@ == self.title@,
            r.description@ == self.description@,
            r.link@ == self.link@,
            r.source == self.source,
            r.published == self.published,
            r.authors@ == self.authors@,
    {
        let mut authors: Vec<String> = Vec::new();
        let n = self.authors.len();
        let mut i: usize = 0;
        while i < n
            invariant
                i <= n,
                n == self.authors@.len(),
                authors@ =~= self.authors@.take(i as int),
            decreases n - i,
        {
            authors.push(self.authors[i].clone());
            proof {
                assert(authors@ =~= self.authors@.take(i + 1));
            }
            i += 1;
        }
        proof {
            assert(self.authors@.take(n as int) =~= self.authors@);
        }
        Paper {
            title: self.title.clone(),
            description: self.description.clone(),
            link: self.link.clone(),
            source: self.source.clone(),
            published: self.published,
            authors,
        }
    }
}

/// The ASCII uppercase of `c`; any other character is left alone.
pub open spec fn spec_upper_char(c: char) -> char {
    if 97 <= c as u32 <= 122 {
        ((c as u32 - 32) as u8) as char
    } else {
        c
    }
}

/// Exec mirror of [`spec_upper_char`].
fn upper_char(c: char) -> (r: char)
    ensures
        r == spec_upper_char(c),
{
    let u = c as u32;
    if 97 <= u && u <= 122 {
        ((u - 32) as u8) as char
    } else {
        c
    }
}

/// The initial an author contributes to the filename: the first letter of
/// the second whitespace-separated word (the last name), uppercased; `'N'`
/// (for "No lastname") when there is no second word.
pub open spec fn spec_author_initial(a: Seq<char>) -> char {
    let ts = spec_tokens(a);
    if ts.len() >= 2 {
        spec_upper_char(ts[1][0])
    } else {
        'N'
    }
}

/// One uppercase initial per author, in order.
pub open spec fn spec_author_string(authors: Seq<Seq<char>>) -> Seq<char> {
    Seq::new(authors.len(), |i: int| spec_author_initial(authors[i]))
}

/// The last whitespace-separated word of an author name, or nothing when
/// the name is all whitespace.
pub open spec fn spec_last_name(a: Seq<char>) -> Seq<char> {
    let ts = spec_tokens(a);
    if ts.len() > 0 {
        ts[ts.len() - 1]
    } else {
        Seq::empty()
    }
}

/// The last names of the authors, in order.
pub open spec fn spec_last_names(authors: Seq<Seq<char>>) -> Seq<Seq<char>> {
    authors.map_values(|a: Seq<char>| spec_last_name(a))
}

/// The words joined with `", "` between them.
pub open spec fn spec_comma_join(ts: Seq<Seq<char>>) -> Seq<char>
    decreases ts.len(),
{
    if ts.len() == 0 {
        Seq::empty()
    } else if ts.len() == 1 {
        ts[0]
    } else {
        spec_comma_join(ts.drop_last()) + ", "@ + ts.last()
    }
}

/// A decimal number zero-padded to two digits.
pub open spec fn spec_pad2(n: int) -> Seq<char> {
    if n < 10 {
        seq!['0'] + crate::eccc::spec_dec(n)
    } else {
        crate::eccc::spec_dec(n)
    }
}

/// A decimal number zero-padded to four digits.
pub open spec fn spec_pad4(n: int) -> Seq<char> {
    if n < 10 {
        "000"@ + crate::eccc::spec_dec(n)
    } else if n < 100 {
        "00"@ + crate::eccc::spec_dec(n)
    } else if n < 1000 {
        "0"@ + crate::eccc::spec_dec(n)
    } else {
        crate::eccc::spec_dec(n)
    }
}

/// A title cut to its first 75 characters, with trailing whitespace
/// removed.
pub open spec fn spec_truncated_title(t: Seq<char>) -> Seq<char> {
    let e = if t.len() > 75 {
        75int
    } else {
        t.len() as int
    };
    let cut = t.take(e);
    cut.take(spec_rtrim_start(cut, e))
}

/// The filename a paper is stored under, given the UTC calendar date
/// `(y, mo, d)` of its publication instant: the date, the author
/// initials, and the truncated title, dash-separated, with the `.pdf`
/// extension.
pub open spec fn spec_filename(p: Paper, y: int, mo: int, d: int) -> Seq<char> {
    spec_pad4(y) + seq!['-'] + spec_pad2(mo) + seq!['-'] + spec_pad2(d) + seq!['-']
        + spec_author_string(spec_views(p.authors@)) + seq!['-'] + spec_truncated_title(p.title@)
        + ".pdf"@
}

/// The pair of per-source watermark proposals: for each source, the latest
/// publication instant confirmed reviewed, if any.
#[derive(Clone, Copy, Debug, PartialEq, Eq)]
pub struct NewDate {
    /// Watermark proposal for the ECCC source.
    pub eccc: Option<i64>,
    /// Watermark proposal for the arXiv source.
    pub arxiv: Option<i64>,
}

impl Paper {
    /// The author-initials string used in filenames: one uppercase
    /// initial per author, drawn from each author's second name.
    pub fn author_string(&self) -> (r: String)
        ensures
            r@ == spec_author_string(spec_views(self.authors@)),
    {
        let ghost names = spec_views(self.authors@);
        let n = self.authors.len();
        let mut out = String::new();
        let mut i: usize = 0;
        while i < n
            invariant
                i <= n,
                n == self.authors@.len(),
                names == spec_views(self.authors@),
                out@.len() == i,
                forall|k: int| 0 <= k < i ==> out@[k] == spec_author_initial(names[k]),
            decreases n - i,
        {
            let author = &self.authors[i];
            let toks = split_tokens(author.as_str());
            let c: char = if toks.len() >= 2 {
                proof {
                    lemma_tokens_nonempty(author@);
                    assert(toks@[1]@ == spec_tokens(author@)[1]);
                }
                toks[1].as_str().get_char(0)
            } else {
                'N'
            };
            let u = if toks.len() >= 2 {
                upper_char(c)
            } else {
                'N'
            };
            proof {
                assert(names[i as int] == author@);
            }
            push_char(&mut out, u);
            i += 1;
        }
        proof {
            assert(out@ =~= spec_author_string(names));
        }
        out
    }

    /// The authors' last names, joined with `", "`, for display.
    pub fn format_author(&self) -> (r: String)
        ensures
            r@ == spec_comma_join(spec_last_names(spec_views(self.authors@))),
    {
        let ghost names = spec_last_names(spec_views(self.authors@));
        let n = self.authors.len();
        let mut out = String::new();
        let mut i: usize = 0;
        proof {
            assert(names.take(0) =~= Seq::<Seq<char>>::empty());
        }
        while i < n
            invariant
                i <= n,
                n == self.authors@.len(),
                names == spec_last_names(spec_views(self.authors@)),
                names.len() == n,
                out@ == spec_comma_join(names.take(i as int)),
            decreases n - i,
        {
            if i > 0 {
                out.append(", ");
            }
            let author = &self.authors[i];
            let toks = split_tokens(author.as_str());
            let m = toks.len();
            if m > 0 {
                out.append(toks[m - 1].as_str());
            }
            proof {
                reveal_strlit(", ");
                assert(spec_views(self.authors@)[i as int] == author@);
                assert(names[i as int] == spec_last_name(author@));
                if m > 0 {
                    assert(toks@[m - 1]@ == spec_tokens(author@)[m - 1]);
                }
                assert(names.take(i + 1).drop_last() =~= names.take(i as int));
                assert(names.take(i + 1).last() == names[i as int]);
                if i == 0 {
                    assert(out@ =~= spec_comma_join(names.take(1)));
                } else {
                    assert(out@ =~= spec_comma_join(names.take(i as int)) + ", "@ + names[
                        i as int
                    ]);
                    assert(out@ =~= spec_comma_join(names.take(i + 1)));
                }
            }
            i += 1;
        }
        proof {
            assert(names.take(n as int) =~= names);
        }
        out
    }

    /// The filename this paper is stored under: publication date, author
    /// initials and truncated title, dash-separated, ending in `.pdf`.
    /// Nothing only when the publication instant has no four-digit UTC
    /// year: it lies outside the range the calendar conversion answers
    /// for, or its year does.
    pub fn filename(&self) -> (r: Option<String>)
        ensures
            r matches Some(f) ==> exists|y: int, mo: int, d: int|
                crate::tz::utc_civil_of(self.published as int) == (y, mo, d) && 0 <= y <= 9999
                    && f@ == #[trigger] spec_filename(*self, y, mo, d),
            r is None ==> self.published < -8_000_000_000_000 || self.published
                > 8_000_000_000_000 || crate::tz::utc_civil_of(self.published as int).0 < 0
                || crate::tz::utc_civil_of(self.published as int).0 > 9999,
    {
        let (y, mo, d) = match crate::tz::utc_civil(self.published) {
            Some(c) => c,
            None => { return None },
        };
        if y < 0 || y > 9999 {
            return None;
        }
        let mut out = String::new();
        if y < 10 {
            out.append("000");
        } else if y < 100 {
            out.append("00");
        } else if y < 1000 {
            out.append("0");
        }
        crate::eccc::push_decimal(&mut out, y as u32);
        proof {
            assert(out@ =~= spec_pad4(y as int));
        }
        push_char(&mut out, '-');
        if mo < 10 {
            push_char(&mut out, '0');
        }
        crate::eccc::push_decimal(&mut out, mo as u32);
        proof {
            assert(out@ =~= spec_pad4(y as int) + seq!['-'] + spec_pad2(mo as int));
        }
        push_char(&mut out, '-');
        if d < 10 {
            push_char(&mut out, '0');
        }
        crate::eccc::push_decimal(&mut out, d as u32);
        push_char(&mut out, '-');
        let initials = self.author_string();
        out.append(initials.as_str());
        push_char(&mut out, '-');
        proof {
            assert(out@ =~= spec_pad4(y as int) + seq!['-'] + spec_pad2(mo as int) + seq!['-']
                + spec_pad2(d as int) + seq!['-'] + spec_author_string(spec_views(self.authors@))
                + seq!['-']);
        }
        let title = self.title.as_str();
        let tlen = title.unicode_len();
        let e = if tlen > 75 {
            75
        } else {
            tlen
        };
        let mut b = e;
        loop
            invariant
                0 <= b <= e <= title@.len(),
                spec_rtrim_start(title@, e as int) == spec_rtrim_start(title@, b as int),
            ensures
                0 <= b <= e,
                spec_rtrim_start(title@, e as int) == b,
            decreases b,
        {
            if b > 0 {
                let c = title.get_char(b - 1);
                if crate::text::is_space_char(c) {
                    b -= 1;
                    continue;
                }
            }
            break;
        }
        out.append(title.substring_char(0, b));
        out.append(".pdf");
        proof {
            lemma_rtrim_take(title@, e as int, e as int);
            let ghost cut = title@.take(e as int);
            assert(spec_rtrim_start(cut, e as int) == b);
            assert(title@.subrange(0, b as int) =~= cut.take(b as int));
            assert(out@ =~= spec_filename(*self, y as int, mo as int, d as int));
        }
        Some(out)
    }
}

/// A title after sanitization: newlines removed, then each maximal run of
/// spaces collapsed to a single space, then path separators removed.
pub open spec fn spec_sanitize_title(s: Seq<char>) -> Seq<char> {
    spec_strip(spec_collapse_space_runs(spec_strip(s, '\n')), '/')
}

/// Sanitizes a title for use in filenames and in dedup comparisons.
pub fn sanitize_title(title: &str) -> (r: String)
    ensures
        r@ == spec_sanitize_title(title@),
{
    let no_newlines = strip_char(title, '\n');
    let collapsed = collapse_space_runs(no_newlines.as_str());
    strip_char(collapsed.as_str(), '/')
}

/// Whether `q` is the ECCC twin of the arXiv paper `p`: `p` is from arXiv,
/// `q` is from ECCC, and the (sanitized) titles are exactly equal.
pub open spec fn spec_mirrors(p: Paper, q: Paper) -> bool {
    p.source.spec_is_arxiv() && q.source.spec_is_eccc() && p.title@ == q.title@
}

/// Whether some entry of `v` is the ECCC twin of `p`.
pub open spec fn spec_has_eccc_twin(v: Seq<Paper>, p: Paper) -> bool {
    exists|j: int| 0 <= j < v.len() && spec_mirrors(p, v[j])
}

/// How many entries of `v` carry the title `t`.
pub open spec fn spec_title_count(v: Seq<Paper>, t: Seq<char>) -> int
    decreases v.len(),
{
    if v.len() == 0 {
        0
    } else {
        spec_title_count(v.drop_last(), t) + if v.last().title@ == t {
            1int
        } else {
            0int
        }
    }
}

/// Whether the candidate `p` — expected to be one of the entries of `v` —
/// is announced more than once: it is an arXiv entry and either an ECCC
/// entry carries its title or its title occurs on more than one entry.
/// ECCC entries are never reported; they are the copies dedup keeps.
pub open spec fn spec_is_duplicate(v: Seq<Paper>, p: Paper) -> bool {
    p.source.spec_is_arxiv() && (spec_has_eccc_twin(v, p) || spec_title_count(v, p.title@) >= 2)
}

/// If `p` is an arXiv paper, tests whether the candidate set announces the
/// same paper more than once: an ECCC entry with the same title, or a
/// further entry of either source with the same title.
pub fn fuzzy_exists_equal_different_source(v: &Vec<Paper>, p: &Paper) -> (r: bool)
    ensures
        r == spec_is_duplicate(v@, *p),
{
    if !p.source.is_arxiv() {
        return false;
    }
    let n = v.len();
    let mut same_title: usize = 0;
    let mut has_eccc = false;
    let mut j: usize = 0;
    proof {
        assert(v@.take(0) =~= Seq::<Paper>::empty());
    }
    while j < n
        invariant
            j <= n,
            n == v@.len(),
            p.source.spec_is_arxiv(),
            same_title <= j,
            same_title as int == spec_title_count(v@.take(j as int), p.title@),
            has_eccc == exists|k: int| 0 <= k < j && spec_mirrors(*p, v@[k]),
        decreases n - j,
    {
        let q = &v[j];
        proof {
            assert(v@.take(j + 1).drop_last() =~= v@.take(j as int));
            assert(v@.take(j + 1).last() == v@[j as int]);
        }
        if p.title == q.title {
            same_title += 1;
            if q.source.is_eccc() {
                has_eccc = true;
            }
        }
        j += 1;
    }
    proof {
        assert(v@.take(n as int) =~= v@);
    }
    has_eccc || same_title >= 2
}

/// Whether the entry at position `i` of `v` survives deduplication: no
/// earlier entry of the same source class carries its title (the first of
/// each same-source cluster is the deterministic survivor), and an arXiv
/// entry survives only when no ECCC entry anywhere carries its title.
pub open spec fn spec_keep_at(v: Seq<Paper>, i: int) -> bool {
    &&& !(exists|j: int|
        0 <= j < i && v[j].title@ == v[i].title@ && v[j].source.spec_is_arxiv()
            == v[i].source.spec_is_arxiv())
    &&& (v[i].source.spec_is_arxiv() ==> !spec_has_eccc_twin(v, v[i]))
}

/// What deduplication keeps of the entries at positions `i` and beyond,
/// judged against the whole set `v`.
pub open spec fn spec_dedup_from(v: Seq<Paper>, i: int) -> Seq<Paper>
    decreases v.len() - i,
        when 0 <= i <= v.len()
{
    if i >= v.len() {
        Seq::empty()
    } else if spec_keep_at(v, i) {
        seq![v[i]] + spec_dedup_from(v, i + 1)
    } else {
        spec_dedup_from(v, i + 1)
    }
}

/// What deduplication keeps of a candidate set: one entry per title — the
/// first ECCC copy whenever the title is announced on ECCC at all, and
/// the first copy seen otherwise.
pub open spec fn spec_dedup(v: Seq<Paper>) -> Seq<Paper> {
    spec_dedup_from(v, 0)
}

/// Removes papers that are doubled in the vector, keeping one copy per
/// title and preferring the ECCC copy: every arXiv entry whose title an
/// ECCC entry carries is dropped, and within a same-source cluster of one
/// title only the first entry survives.
pub fn dedup_papers(paper: &mut Vec<Paper>)
    ensures
        final(paper)@ == spec_dedup(old(paper)@),
{
    let ghost orig = paper@;
    let n = paper.len();
    let mut keep: Vec<bool> = Vec::new();
    let mut i: usize = 0;
    while i < n
        invariant
            i <= n,
            n == paper@.len(),
            paper@ == orig,
            keep@.len() == i,
            forall|k: int| 0 <= k < i ==> keep@[k] == spec_keep_at(orig, k),
        decreases n - i,
    {
        let mut blocked = false;
        let mut twin = false;
        let mut j: usize = 0;
        while j < n
            invariant
                j <= n,
                i < n,
                n == paper@.len(),
                paper@ == orig,
                blocked == exists|k: int|
                    0 <= k < j && k < i && orig[k].title@ == orig[i as int].title@
                        && orig[k].source.spec_is_arxiv() == orig[
                        i as int
                    ].source.spec_is_arxiv(),
                twin == exists|k: int| 0 <= k < j && spec_mirrors(orig[i as int], orig[k]),
            decreases n - j,
        {
            let q = &paper[j];
            let same_title = paper[i].title == q.title;
            if j < i && same_title && q.source.is_arxiv() == paper[i].source.is_arxiv() {
                blocked = true;
            }
            if same_title && paper[i].source.is_arxiv() && q.source.is_eccc() {
                twin = true;
            }
            j += 1;
        }
        let f = !blocked && !twin;
        proof {
            assert(f == spec_keep_at(orig, i as int));
        }
        keep.push(f);
        i += 1;
    }
    let mut j: usize = n;
    proof {
        assert(orig.take(n as int) =~= orig);
        assert(spec_dedup_from(orig, n as int) =~= Seq::<Paper>::empty());
        assert(paper@ =~= orig.take(n as int) + spec_dedup_from(orig, n as int));
    }
    while j > 0
        invariant
            j <= n,
            n == orig.len(),
            keep@.len() == n,
            forall|k: int| 0 <= k < n ==> keep@[k] == spec_keep_at(orig, k),
            paper@ == orig.take(j as int) + spec_dedup_from(orig, j as int),
        decreases j,
    {
        j -= 1;
        proof {
            assert(orig.take(j + 1) =~= orig.take(j as int).push(orig[j as int]));
            assert(paper@[j as int] == orig[j as int]);
        }
        if !keep[j] {
            paper.remove(j);
        }
        proof {
            assert(paper@ =~= orig.take(j as int) + spec_dedup_from(orig, j as int));
        }
    }
    proof {
        assert(orig.take(0) =~= Seq::<Paper>::empty());
        assert(paper@ =~= spec_dedup(orig));
    }
}

/// Two surviving positions never agree on the source class and the title:
/// the later one would have been blocked by the earlier; and they never
/// pair an arXiv survivor with an ECCC entry of its title: the arXiv one
/// would have been dropped.
proof fn lemma_kept_distinct(v: Seq<Paper>, k1: int, k2: int)
    requires
        0 <= k1 < k2 < v.len(),
        spec_keep_at(v, k1),
        spec_keep_at(v, k2),
    ensures
        v[k1].title@ != v[k2].title@,
{
    if v[k1].title@ == v[k2].title@ {
        if v[k1].source.spec_is_arxiv() == v[k2].source.spec_is_arxiv() {
            assert(!(spec_keep_at(v, k2)));
        } else if v[k1].source.spec_is_arxiv() {
            assert(spec_mirrors(v[k1], v[k2]));
            assert(spec_has_eccc_twin(v, v[k1]));
        } else {
            assert(spec_mirrors(v[k2], v[k1]));
            assert(spec_has_eccc_twin(v, v[k2]));
        }
    }
}

/// Whether `p` stands at some surviving position of `v` at or after `m`.
pub open spec fn spec_kept_witness(v: Seq<Paper>, m: int, p: Paper) -> bool {
    exists|k: int| m <= k < v.len() && #[trigger] spec_keep_at(v, k) && v[k] == p
}

/// Whether some surviving position of `v` carries the title `t`.
pub open spec fn spec_kept_title(v: Seq<Paper>, t: Seq<char>) -> bool {
    exists|k: int| 0 <= k < v.len() && #[trigger] spec_keep_at(v, k) && v[k].title@ == t
}

/// Whether some entry of `s` carries the title `t`.
pub open spec fn spec_title_appears(s: Seq<Paper>, t: Seq<char>) -> bool {
    exists|x: int| #![trigger s[x]] 0 <= x < s.len() && s[x].title@ == t
}

/// Every retained entry stands at some surviving position of `v` at or
/// after `m`.
proof fn lemma_dedup_from_elems(v: Seq<Paper>, m: int)
    requires
        0 <= m <= v.len(),
    ensures
        forall|x: int|
            0 <= x < spec_dedup_from(v, m).len() ==> spec_kept_witness(
                v,
                m,
                #[trigger] spec_dedup_from(v, m)[x],
            ),
    decreases v.len() - m,
{
    if m < v.len() {
        lemma_dedup_from_elems(v, m + 1);
        assert forall|x: int|
            0 <= x < spec_dedup_from(v, m).len() implies spec_kept_witness(
            v,
            m,
            #[trigger] spec_dedup_from(v, m)[x],
        ) by {
            if spec_keep_at(v, m) && x == 0 {
                assert(spec_keep_at(v, m) && v[m] == spec_dedup_from(v, m)[0]);
            } else {
                let x0 = if spec_keep_at(v, m) {
                    x - 1
                } else {
                    x
                };
                assert(spec_dedup_from(v, m)[x] == spec_dedup_from(v, m + 1)[x0]);
                assert(spec_kept_witness(v, m + 1, spec_dedup_from(v, m + 1)[x0]));
                let k = choose|k: int|
                    m + 1 <= k < v.len() && #[trigger] spec_keep_at(v, k) && v[k]
                        == spec_dedup_from(v, m + 1)[x0];
                assert(spec_keep_at(v, k) && v[k] == spec_dedup_from(v, m)[x]);
            }
        }
    }
}

/// Every surviving position at or after `m` puts its entry into the
/// retained sequence.
proof fn lemma_dedup_from_has(v: Seq<Paper>, m: int, k: int)
    requires
        0 <= m <= k < v.len(),
        spec_keep_at(v, k),
    ensures
        spec_title_appears(spec_dedup_from(v, m), v[k].title@),
    decreases k - m,
{
    if m == k {
        assert(spec_dedup_from(v, m)[0] == v[k]);
    } else {
        lemma_dedup_from_has(v, m + 1, k);
        let x0 = choose|x: int|
            #![trigger spec_dedup_from(v, m + 1)[x]]
            0 <= x < spec_dedup_from(v, m + 1).len() && spec_dedup_from(v, m + 1)[x].title@ == v[
                k
            ].title@;
        if spec_keep_at(v, m) {
            assert(spec_dedup_from(v, m)[x0 + 1] == spec_dedup_from(v, m + 1)[x0]);
        } else {
            assert(spec_dedup_from(v, m)[x0] == spec_dedup_from(v, m + 1)[x0]);
        }
    }
}

/// Retained titles are pairwise distinct from position `m` on.
proof fn lemma_dedup_from_distinct(v: Seq<Paper>, m: int)
    requires
        0 <= m <= v.len(),
    ensures
        forall|x1: int, x2: int|
            0 <= x1 < x2 < spec_dedup_from(v, m).len() ==> #[trigger] spec_dedup_from(
                v,
                m,
            )[x1].title@ != #[trigger] spec_dedup_from(v, m)[x2].title@,
    decreases v.len() - m,
{
    if m < v.len() {
        lemma_dedup_from_distinct(v, m + 1);
        lemma_dedup_from_elems(v, m + 1);
        assert forall|x1: int, x2: int|
            0 <= x1 < x2 < spec_dedup_from(v, m).len() implies #[trigger] spec_dedup_from(
            v,
            m,
        )[x1].title@ != #[trigger] spec_dedup_from(v, m)[x2].title@ by {
            if spec_keep_at(v, m) {
                assert(spec_dedup_from(v, m)[x2] == spec_dedup_from(v, m + 1)[x2 - 1]);
                if x1 == 0 {
                    assert(spec_kept_witness(v, m + 1, spec_dedup_from(v, m + 1)[x2 - 1]));
                    let k = choose|k: int|
                        m + 1 <= k < v.len() && #[trigger] spec_keep_at(v, k) && v[k]
                            == spec_dedup_from(v, m + 1)[x2 - 1];
                    lemma_kept_distinct(v, m, k);
                } else {
                    assert(spec_dedup_from(v, m)[x1] == spec_dedup_from(v, m + 1)[x1 - 1]);
                }
            } else {
                assert(spec_dedup_from(v, m)[x1] == spec_dedup_from(v, m + 1)[x1]);
                assert(spec_dedup_from(v, m)[x2] == spec_dedup_from(v, m + 1)[x2]);
            }
        }
    }
}

/// Every ECCC entry's title has a surviving position.
proof fn lemma_eccc_title_survivor(v: Seq<Paper>, j: int)
    requires
        0 <= j < v.len(),
        v[j].source.spec_is_eccc(),
    ensures
        spec_kept_title(v, v[j].title@),
    decreases j,
{
    if spec_keep_at(v, j) {
        assert(spec_keep_at(v, j) && v[j].title@ == v[j].title@);
    } else {
        let j2 = choose|j2: int|
            0 <= j2 < j && v[j2].title@ == v[j].title@ && v[j2].source.spec_is_arxiv() == v[
                j
            ].source.spec_is_arxiv();
        lemma_eccc_title_survivor(v, j2);
    }
}

/// Every entry's title has a surviving position.
proof fn lemma_title_survivor(v: Seq<Paper>, i: int)
    requires
        0 <= i < v.len(),
    ensures
        spec_kept_title(v, v[i].title@),
    decreases i,
{
    if spec_keep_at(v, i) {
        assert(spec_keep_at(v, i) && v[i].title@ == v[i].title@);
    } else if exists|j: int|
        0 <= j < i && v[j].title@ == v[i].title@ && v[j].source.spec_is_arxiv() == v[
            i
        ].source.spec_is_arxiv() {
        let j2 = choose|j2: int|
            0 <= j2 < i && v[j2].title@ == v[i].title@ && v[j2].source.spec_is_arxiv() == v[
                i
            ].source.spec_is_arxiv();
        lemma_title_survivor(v, j2);
    } else {
        let j = choose|j: int| 0 <= j < v.len() && spec_mirrors(v[i], v[j]);
        lemma_eccc_title_survivor(v, j);
    }
}

/// Dedup symmetry.
///
/// Deduplication is stated over the whole candidate set at once, so no
/// iteration order can change which titles survive.  Over any candidate
/// set: the retained entries have pairwise distinct titles; no input
/// title is lost; every retained entry stands at a surviving position of
/// the input, so no title is invented either — together, the set of
/// surviving titles equals the set of input titles whatever the order;
/// and a surviving arXiv entry never shares its title with an ECCC entry
/// of the set, so whenever both sources announce one title, the single
/// survivor is the ECCC copy.
pub proof fn lemma_dedup_symmetry(v: Seq<Paper>)
    ensures
        forall|x1: int, x2: int|
            0 <= x1 < x2 < spec_dedup(v).len() ==> #[trigger] spec_dedup(v)[x1].title@
                != #[trigger] spec_dedup(v)[x2].title@,
        forall|i: int|
            #![trigger v[i]]
            0 <= i < v.len() ==> spec_title_appears(spec_dedup(v), v[i].title@),
        forall|x: int|
            0 <= x < spec_dedup(v).len() ==> spec_kept_witness(
                v,
                0,
                #[trigger] spec_dedup(v)[x],
            ),
        forall|x: int|
            0 <= x < spec_dedup(v).len() && (#[trigger] spec_dedup(v)[x]).source.spec_is_arxiv()
                ==> !spec_has_eccc_twin(v, spec_dedup(v)[x]),
{
    lemma_dedup_from_distinct(v, 0);
    lemma_dedup_from_elems(v, 0);
    assert forall|i: int|
        #![trigger v[i]]
        0 <= i < v.len() implies spec_title_appears(spec_dedup(v), v[i].title@) by {
        lemma_title_survivor(v, i);
        let k = choose|k: int|
            0 <= k < v.len() && #[trigger] spec_keep_at(v, k) && v[k].title@ == v[i].title@;
        lemma_dedup_from_has(v, 0, k);
    }
    assert forall|x: int|
        0 <= x < spec_dedup(v).len() && (#[trigger] spec_dedup(v)[x]).source.spec_is_arxiv()
            implies !spec_has_eccc_twin(v, spec_dedup(v)[x]) by {
        assert(spec_kept_witness(v, 0, spec_dedup(v)[x]));
        let k = choose|k: int|
            0 <= k < v.len() && #[trigger] spec_keep_at(v, k) && v[k] == spec_dedup(v)[x];
    }
}

/// Seconds in a day.
pub const DAY_SECONDS: i64 = 86400;

/// A positive multiple of a week in seconds, large enough to shift any
/// timestamp a cutoff computation can meet into non-negative territory
/// without changing its weekday.
pub const WEEK_SHIFT: i64 = 12_096_000_000_000;

/// The weekday of the UTC day holding the instant `t`, with Sunday as 0
/// through Saturday as 6.  The shift keeps the dividend non-negative, so
/// division and remainder agree with the executable unsigned arithmetic;
/// day zero of the epoch was a Thursday.
pub open spec fn spec_weekday(t: int) -> int {
    ((t + WEEK_SHIFT) / 86400 + 4) % 7
}

/// Exec mirror of [`spec_weekday`].
pub fn weekday_of(t: i64) -> (r: u8)
    requires
        -10_000_000_000_000 <= t <= 10_000_000_000_000,
    ensures
        r as int == spec_weekday(t as int),
        r <= 6,
{
    let shifted: u64 = (t + WEEK_SHIFT) as u64;
    let r = ((shifted / 86400) + 4) % 7;
    r as u8
}

/// The hour of arXiv's daily release moment, as a New York wall-clock
/// hour.
pub const RELEASE_HOUR: u8 = 14;

/// The release moment of the New York calendar day one before the day of
/// the instant `c`.  Stepping back 24 hours from a release moment lands
/// inside the previous calendar day whatever DST did, and the wall clock
/// is then re-anchored to the release hour of that day.
pub open spec fn spec_prev_release(c: int) -> Option<int> {
    crate::tz::ny_wall_clock_of(c - 86400, RELEASE_HOUR as int)
}

/// The effective arXiv cutoff instant for a check at instant `t`: the most
/// recently passed 14:00 New York wall-clock moment — today's release
/// moment, or the previous calendar day's when today's still lies in the
/// future — walked back from Saturday or Sunday to the prior Friday, since
/// arXiv does not publish on weekends.  Every step moves by one calendar
/// day re-anchored at the release hour, so DST transitions do not drift
/// the cutoff off the wall clock.  Nothing if the timezone step cannot
/// place some day's release moment at all.
pub open spec fn spec_arxiv_cutoff(t: int) -> Option<int> {
    match crate::tz::ny_wall_clock_of(t, RELEASE_HOUR as int) {
        None => None,
        Some(c0) => {
            let latest = if c0 > t {
                spec_prev_release(c0)
            } else {
                Some(c0)
            };
            match latest {
                None => None,
                Some(c1) => {
                    if spec_weekday(c1) == 6 {
                        spec_prev_release(c1)
                    } else if spec_weekday(c1) == 0 {
                        match spec_prev_release(c1) {
                            None => None,
                            Some(c2) => spec_prev_release(c2),
                        }
                    } else {
                        Some(c1)
                    }
                },
            }
        },
    }
}

/// Whether the paper `p` counts as new for a check at instant `t`.
///
/// The ECCC rule is inclusive: `published >= t`.  The arXiv rule is
/// exclusive against the effective cutoff: `published > cutoff`, so a
/// paper submitted just after a naive boundary is not lost.
pub open spec fn spec_is_new(p: Paper, t: int) -> bool {
    match p.source {
        Source::ECCC => p.published >= t,
        Source::Arxiv(_) => match spec_arxiv_cutoff(t) {
            Some(c) => p.published > c,
            None => false,
        },
    }
}

/// The release moment of the calendar day before the day of `c`, executed.
fn prev_release(c: i64) -> (r: Option<i64>)
    requires
        -9_000_000_000_000 <= c <= 9_000_000_000_000,
    ensures
        match r {
            Some(x) => spec_prev_release(c as int) == Some(x as int) && -9_000_000_000_000 <= x
                <= 9_000_000_000_000,
            None => spec_prev_release(c as int) is None,
        },
{
    crate::tz::ny_wall_clock(c - DAY_SECONDS, RELEASE_HOUR)
}

/// Special filter function because arXiv is a bit special: it publishes
/// once a day at a fixed New York wall-clock moment and never on weekends,
/// so the comparison is against the most recently passed cutoff, not
/// against the check instant itself.
pub fn special_filter(date: i64, p: &Paper) -> (r: bool)
    ensures
        r == spec_is_new(*p, date as int),
{
    match &p.source {
        Source::ECCC => p.published >= date,
        Source::Arxiv(_) => {
            let c0 = match crate::tz::ny_wall_clock(date, RELEASE_HOUR) {
                None => { return false },
                Some(c0) => c0,
            };
            let c1 = if c0 > date {
                match prev_release(c0) {
                    None => { return false },
                    Some(c1) => c1,
                }
            } else {
                c0
            };
            let wd = weekday_of(c1);
            let c2 = if wd == 6 {
                match prev_release(c1) {
                    None => { return false },
                    Some(c2) => c2,
                }
            } else if wd == 0 {
                let back_one = match prev_release(c1) {
                    None => { return false },
                    Some(x) => x,
                };
                match prev_release(back_one) {
                    None => { return false },
                    Some(c2) => c2,
                }
            } else {
                c1
            };
            p.published > c2
        },
    }
}

/// The papers of `v` that count as new for a check at instant `t`, in
/// their original order.
pub open spec fn spec_filter_new(v: Seq<Paper>, t: int) -> Seq<Paper> {
    v.filter(|p: Paper| spec_is_new(p, t))
}

proof fn lemma_filter_new_split(a: Seq<Paper>, b: Seq<Paper>, t: int)
    ensures
        spec_filter_new(a + b, t) == spec_filter_new(a, t) + spec_filter_new(b, t),
{
    Seq::<Paper>::filter_distributes_over_add(a, b, |p: Paper| spec_is_new(p, t));
}

proof fn lemma_filter_new_singleton(p: Paper, t: int)
    ensures
        spec_filter_new(seq![p], t) == if spec_is_new(p, t) {
            seq![p]
        } else {
            Seq::<Paper>::empty()
        },
{
    reveal_with_fuel(Seq::filter, 2);
    assert(seq![p].drop_last() =~= Seq::<Paper>::empty());
    assert(Seq::<Paper>::empty().push(p) =~= seq![p]);
}

/// Filters papers against a check instant, applying each source's own
/// notion of "new": inclusive watermark comparison for ECCC, the
/// walked-back New York cutoff for arXiv.
pub fn filter_papers(paper: Vec<Paper>, date: i64) -> (r: Vec<Paper>)
    ensures
        r@ == spec_filter_new(paper@, date as int),
{
    let ghost orig = paper@;
    let mut rest = paper;
    let mut out: Vec<Paper> = Vec::new();
    proof {
        assert(orig.take(0) =~= Seq::<Paper>::empty());
        assert(orig.skip(0) =~= orig);
        reveal_with_fuel(Seq::filter, 1);
        assert(out@ =~= spec_filter_new(orig.take(0), date as int));
    }
    while rest.len() > 0
        invariant
            rest@ == orig.skip(orig.len() - rest@.len()),
            rest@.len() <= orig.len(),
            out@ == spec_filter_new(orig.take(orig.len() - rest@.len()), date as int),
        decreases rest@.len(),
    {
        let ghost k = orig.len() - rest@.len();
        let p = rest.remove(0);
        proof {
            assert(p == orig[k]);
            assert(rest@ =~= orig.skip(k + 1));
            assert(orig.take(k + 1) =~= orig.take(k) + seq![orig[k]]);
            lemma_filter_new_split(orig.take(k), seq![orig[k]], date as int);
            lemma_filter_new_singleton(orig[k], date as int);
        }
        if special_filter(date, &p) {
            out.push(p);
        }
        proof {
            assert(out@ =~= spec_filter_new(orig.take(k + 1), date as int));
        }
    }
    proof {
        assert(orig.take(orig.len() as int) =~= orig);
    }
    out
}

} // verus!
