//! Small string-building helpers shared by title sanitization, author
//! formatting and date printing.

use vstd::prelude::*;
use vstd::string::StrSliceExecFns;

verus! {

/// Relies on std's `String::push`: appends the given character to the end
/// of the string.
#[verifier::external_body]
pub fn push_char(out: &mut String, c: char)
    ensures
        final(out)@ == old(out)@.push(c),
{
    out.push(c);
}

/// Whether `c` is whitespace: the Unicode `White_Space` set, the one
/// word splitting and trimming go by.
pub open spec fn spec_is_space(c: char) -> bool {
    ||| c == ' '
    ||| c == '\t'
    ||| c == '\n'
    ||| c == '\r'
    ||| c as u32 == 0x0B
    ||| c as u32 == 0x0C
    ||| c as u32 == 0x85
    ||| c as u32 == 0xA0
    ||| c as u32 == 0x1680
    ||| (0x2000 <= c as u32 && c as u32 <= 0x200A)
    ||| c as u32 == 0x2028
    ||| c as u32 == 0x2029
    ||| c as u32 == 0x202F
    ||| c as u32 == 0x205F
    ||| c as u32 == 0x3000
}

/// Exec mirror of [`spec_is_space`].
pub fn is_space_char(c: char) -> (r: bool)
    ensures
        r == spec_is_space(c),
{
    let u = c as u32;
    u == 0x20 || u == 0x09 || u == 0x0A || u == 0x0D || u == 0x0B || u == 0x0C || u == 0x85
        || u == 0xA0 || u == 0x1680 || (0x2000 <= u && u <= 0x200A) || u == 0x2028 || u == 0x2029
        || u == 0x202F || u == 0x205F || u == 0x3000
}

/// The position where the run of whitespace starting at `i` ends.
pub open spec fn spec_space_run_end(s: Seq<char>, i: int) -> int
    decreases s.len() - i,
        when 0 <= i <= s.len()
{
    if i < s.len() && spec_is_space(s[i]) {
        spec_space_run_end(s, i + 1)
    } else {
        i
    }
}

proof fn lemma_space_run_end_bounds(s: Seq<char>, i: int)
    requires
        0 <= i <= s.len(),
    ensures
        i <= spec_space_run_end(s, i) <= s.len(),
        forall|k: int| i <= k < spec_space_run_end(s, i) ==> spec_is_space(s[k]),
        spec_space_run_end(s, i) < s.len() ==> !spec_is_space(s[spec_space_run_end(s, i)]),
    decreases s.len() - i,
{
    if i < s.len() && spec_is_space(s[i]) {
        lemma_space_run_end_bounds(s, i + 1);
    }
}

/// Exec mirror of [`spec_space_run_end`].
pub fn space_run_end(s: &str, i: usize) -> (j: usize)
    requires
        i <= s@.len(),
    ensures
        j == spec_space_run_end(s@, i as int),
        i <= j <= s@.len(),
{
    let n = s.unicode_len();
    let mut j = i;
    loop
        invariant
            i <= j <= n,
            n == s@.len(),
            spec_space_run_end(s@, i as int) == spec_space_run_end(s@, j as int),
        ensures
            i <= j <= n,
            spec_space_run_end(s@, i as int) == j,
        decreases n - j,
    {
        if j < n {
            let c = s.get_char(j);
            if is_space_char(c) {
                j += 1;
                continue;
            }
        }
        break;
    }
    j
}

/// The position where the run of non-whitespace starting at `i` ends.
pub open spec fn spec_word_run_end(s: Seq<char>, i: int) -> int
    decreases s.len() - i,
        when 0 <= i <= s.len()
{
    if i < s.len() && !spec_is_space(s[i]) {
        spec_word_run_end(s, i + 1)
    } else {
        i
    }
}

proof fn lemma_word_run_end_bounds(s: Seq<char>, i: int)
    requires
        0 <= i <= s.len(),
    ensures
        i <= spec_word_run_end(s, i) <= s.len(),
        i < s.len() && !spec_is_space(s[i]) ==> spec_word_run_end(s, i) > i,
    decreases s.len() - i,
{
    if i < s.len() && !spec_is_space(s[i]) {
        lemma_word_run_end_bounds(s, i + 1);
    }
}

/// Exec mirror of [`spec_word_run_end`].
pub fn word_run_end(s: &str, i: usize) -> (j: usize)
    requires
        i <= s@.len(),
    ensures
        j == spec_word_run_end(s@, i as int),
        i <= j <= s@.len(),
{
    let n = s.unicode_len();
    let mut j = i;
    loop
        invariant
            i <= j <= n,
            n == s@.len(),
            spec_word_run_end(s@, i as int) == spec_word_run_end(s@, j as int),
        ensures
            i <= j <= n,
            spec_word_run_end(s@, i as int) == j,
        decreases n - j,
    {
        if j < n {
            let c = s.get_char(j);
            if !is_space_char(c) {
                j += 1;
                continue;
            }
        }
        break;
    }
    j
}

/// The whitespace-separated words of `s` from position `i` on: what
/// splitting at whitespace yields.
pub open spec fn spec_tokens_from(s: Seq<char>, i: int) -> Seq<Seq<char>>
    decreases s.len() - i,
        when 0 <= i <= s.len()
        via spec_tokens_from_decreases
{
    let start = spec_space_run_end(s, i);
    if start >= s.len() {
        Seq::empty()
    } else {
        let stop = spec_word_run_end(s, start);
        seq![s.subrange(start, stop)] + spec_tokens_from(s, stop)
    }
}

#[via_fn]
proof fn spec_tokens_from_decreases(s: Seq<char>, i: int) {
    lemma_space_run_end_bounds(s, i);
    let start = spec_space_run_end(s, i);
    if start < s.len() {
        lemma_word_run_end_bounds(s, start);
    }
}

/// The whitespace-separated words of `s`.
pub open spec fn spec_tokens(s: Seq<char>) -> Seq<Seq<char>> {
    spec_tokens_from(s, 0)
}

/// The views of a vector of strings.
pub open spec fn spec_views(ts: Seq<String>) -> Seq<Seq<char>> {
    ts.map_values(|t: String| t@)
}

/// Views of a pushed vector: the view of the new element lands at the
/// end.
pub proof fn lemma_views_push(v: Seq<String>, x: String)
    ensures
        spec_views(v.push(x)) == spec_views(v).push(x@),
{
    assert(spec_views(v.push(x)) =~= spec_views(v).push(x@));
}

/// Splits `s` at whitespace into its words.
pub fn split_tokens(s: &str) -> (r: Vec<String>)
    ensures
        spec_views(r@) == spec_tokens(s@),
{
    let n = s.unicode_len();
    let mut out: Vec<String> = Vec::new();
    let mut i: usize = 0;
    proof {
        assert(spec_views(out@) =~= Seq::<Seq<char>>::empty());
        assert(Seq::<Seq<char>>::empty() + spec_tokens_from(s@, 0) =~= spec_tokens_from(s@, 0));
    }
    loop
        invariant
            i <= n,
            n == s@.len(),
            spec_tokens(s@) == spec_views(out@) + spec_tokens_from(s@, i as int),
        ensures
            spec_tokens(s@) == spec_views(out@),
        decreases n - i,
    {
        let start = space_run_end(s, i);
        if start >= n {
            proof {
                assert(spec_tokens_from(s@, i as int) =~= Seq::<Seq<char>>::empty());
                assert(spec_views(out@) + Seq::<Seq<char>>::empty() =~= spec_views(out@));
            }
            break;
        }
        let stop = word_run_end(s, start);
        let word = s.substring_char(start, stop).to_owned();
        proof {
            let ghost prev = spec_views(out@);
            assert(spec_views(out@.push(word)) =~= prev.push(word@));
            assert((prev + (seq![s@.subrange(start as int, stop as int)] + spec_tokens_from(
                s@,
                stop as int,
            ))) =~= prev.push(word@) + spec_tokens_from(s@, stop as int));
            lemma_word_run_end_bounds(s@, start as int);
        }
        out.push(word);
        i = stop;
    }
    out
}

proof fn lemma_tokens_from_nonempty(s: Seq<char>, i: int)
    requires
        0 <= i <= s.len(),
    ensures
        forall|k: int|
            0 <= k < spec_tokens_from(s, i).len() ==> #[trigger] spec_tokens_from(s, i)[k].len()
                > 0,
    decreases s.len() - i,
{
    lemma_space_run_end_bounds(s, i);
    let start = spec_space_run_end(s, i);
    if start < s.len() {
        lemma_word_run_end_bounds(s, start);
        let stop = spec_word_run_end(s, start);
        lemma_tokens_from_nonempty(s, stop);
        assert forall|k: int|
            0 <= k < spec_tokens_from(s, i).len() implies #[trigger] spec_tokens_from(
            s,
            i,
        )[k].len() > 0 by {
            if k > 0 {
                assert(spec_tokens_from(s, i)[k] == spec_tokens_from(s, stop)[k - 1]);
            }
        }
    }
}

/// Every word that splitting yields is non-empty.
pub proof fn lemma_tokens_nonempty(s: Seq<char>)
    ensures
        forall|k: int|
            0 <= k < spec_tokens(s).len() ==> #[trigger] spec_tokens(s)[k].len() > 0,
{
    lemma_tokens_from_nonempty(s, 0);
}

/// Cutting a string off beyond `j` does not change where its trailing
/// whitespace (looking down from `j`) begins.
pub proof fn lemma_rtrim_take(s: Seq<char>, e: int, j: int)
    requires
        0 <= j <= e <= s.len(),
    ensures
        spec_rtrim_start(s.take(e), j) == spec_rtrim_start(s, j),
    decreases j,
{
    if j > 0 {
        assert(s.take(e)[j - 1] == s[j - 1]);
        if spec_is_space(s[j - 1]) {
            lemma_rtrim_take(s, e, j - 1);
        }
    }
}

/// The words joined with one space before each: the shape of a left fold
/// that appends `" "` and the word.
pub open spec fn spec_join_leading_sp(ts: Seq<Seq<char>>) -> Seq<char>
    decreases ts.len(),
{
    if ts.len() == 0 {
        Seq::empty()
    } else {
        spec_join_leading_sp(ts.drop_last()) + seq![' '] + ts.last()
    }
}

/// Joins words with one space before each.
pub fn join_leading_sp(ts: &Vec<String>) -> (r: String)
    ensures
        r@ == spec_join_leading_sp(spec_views(ts@)),
{
    let n = ts.len();
    let mut out = String::new();
    let mut i: usize = 0;
    proof {
        assert(spec_views(ts@.take(0)) =~= Seq::<Seq<char>>::empty());
        assert(out@ =~= spec_join_leading_sp(spec_views(ts@.take(0))));
    }
    while i < n
        invariant
            i <= n,
            n == ts@.len(),
            out@ == spec_join_leading_sp(spec_views(ts@.take(i as int))),
        decreases n - i,
    {
        out.append(" ");
        out.append(ts[i].as_str());
        proof {
            reveal_strlit(" ");
            let ghost pre = spec_views(ts@.take(i as int));
            let ghost cur = spec_views(ts@.take(i + 1));
            assert(cur.drop_last() =~= pre);
            assert(cur.last() == ts@[i as int]@);
            assert(out@ =~= spec_join_leading_sp(pre) + seq![' '] + cur.last());
        }
        i += 1;
    }
    proof {
        assert(ts@.take(n as int) =~= ts@);
    }
    out
}

/// The position where the run of whitespace ending at `j` begins.
pub open spec fn spec_rtrim_start(s: Seq<char>, j: int) -> int
    decreases j,
        when 0 <= j <= s.len()
{
    if j > 0 && spec_is_space(s[j - 1]) {
        spec_rtrim_start(s, j - 1)
    } else {
        j
    }
}

/// `s` without leading and trailing whitespace.
pub open spec fn spec_trim(s: Seq<char>) -> Seq<char> {
    let a = spec_space_run_end(s, 0);
    let b = spec_rtrim_start(s, s.len() as int);
    if a <= b {
        s.subrange(a, b)
    } else {
        Seq::empty()
    }
}

/// Exec mirror of [`spec_trim`].
pub fn trim(s: &str) -> (r: String)
    ensures
        r@ == spec_trim(s@),
{
    let n = s.unicode_len();
    let a = space_run_end(s, 0);
    let mut b = n;
    loop
        invariant
            0 <= b <= n,
            n == s@.len(),
            spec_rtrim_start(s@, n as int) == spec_rtrim_start(s@, b as int),
        ensures
            0 <= b <= n,
            spec_rtrim_start(s@, n as int) == b,
        decreases b,
    {
        if b > 0 {
            let c = s.get_char(b - 1);
            if is_space_char(c) {
                b -= 1;
                continue;
            }
        }
        break;
    }
    if a <= b {
        s.substring_char(a, b).to_owned()
    } else {
        String::new()
    }
}

/// An element-wise copy of a vector of strings.
pub fn clone_strings(v: &Vec<String>) -> (r: Vec<String>)
    ensures
        r@ == v@,
{
    let n = v.len();
    let mut out: Vec<String> = Vec::new();
    let mut i: usize = 0;
    while i < n
        invariant
            i <= n,
            n == v@.len(),
            out@ =~= v@.take(i as int),
        decreases n - i,
    {
        out.push(v[i].clone());
        proof {
            assert(out@ =~= v@.take(i + 1));
        }
        i += 1;
    }
    proof {
        assert(v@.take(n as int) =~= v@);
    }
    out
}

/// `s` with every occurrence of `bad` removed.
pub open spec fn spec_strip(s: Seq<char>, bad: char) -> Seq<char>
    decreases s.len(),
{
    if s.len() == 0 {
        Seq::empty()
    } else if s[0] == bad {
        spec_strip(s.skip(1), bad)
    } else {
        seq![s[0]] + spec_strip(s.skip(1), bad)
    }
}

/// `s` with each maximal run of space characters collapsed to a single
/// space: a space followed by another space is dropped, so only the last
/// space of every run remains.
pub open spec fn spec_collapse_space_runs(s: Seq<char>) -> Seq<char>
    decreases s.len(),
{
    if s.len() == 0 {
        Seq::empty()
    } else if s.len() >= 2 && s[0] == ' ' && s[1] == ' ' {
        spec_collapse_space_runs(s.skip(1))
    } else {
        seq![s[0]] + spec_collapse_space_runs(s.skip(1))
    }
}

/// Exec mirror of [`spec_strip`].
pub fn strip_char(s: &str, bad: char) -> (r: String)
    ensures
        r@ == spec_strip(s@, bad),
{
    let n = s.unicode_len();
    let mut out = String::new();
    let mut i: usize = 0;
    proof {
        assert(s@.skip(0) =~= s@);
        assert(out@ + spec_strip(s@, bad) =~= spec_strip(s@, bad));
    }
    while i < n
        invariant
            i <= n,
            n == s@.len(),
            spec_strip(s@, bad) == out@ + spec_strip(s@.skip(i as int), bad),
        decreases n - i,
    {
        let c = s.get_char(i);
        proof {
            assert(s@.skip(i as int).skip(1) =~= s@.skip(i + 1));
            assert(s@.skip(i as int)[0] == s@[i as int]);
        }
        if c != bad {
            push_char(&mut out, c);
        }
        i += 1;
    }
    proof {
        assert(s@.skip(n as int) =~= Seq::<char>::empty());
        assert(out@ + Seq::<char>::empty() =~= out@);
    }
    out
}

/// Exec mirror of [`spec_collapse_space_runs`].
pub fn collapse_space_runs(s: &str) -> (r: String)
    ensures
        r@ == spec_collapse_space_runs(s@),
{
    let n = s.unicode_len();
    let mut out = String::new();
    let mut i: usize = 0;
    proof {
        assert(s@.skip(0) =~= s@);
        assert(out@ + spec_collapse_space_runs(s@) =~= spec_collapse_space_runs(s@));
    }
    while i < n
        invariant
            i <= n,
            n == s@.len(),
            spec_collapse_space_runs(s@) == out@ + spec_collapse_space_runs(s@.skip(i as int)),
        decreases n - i,
    {
        let c = s.get_char(i);
        proof {
            assert(s@.skip(i as int).skip(1) =~= s@.skip(i + 1));
            assert(s@.skip(i as int)[0] == s@[i as int]);
            if i + 1 < n {
                assert(s@.skip(i as int)[1] == s@[i + 1]);
            }
        }
        if !(c == ' ' && i + 1 < n && s.get_char(i + 1) == ' ') {
            push_char(&mut out, c);
        }
        i += 1;
    }
    proof {
        assert(s@.skip(n as int) =~= Seq::<char>::empty());
        assert(out@ + Seq::<char>::empty() =~= out@);
    }
    out
}

} // verus!
