//! The text analyzer: derives a word count, an emptiness flag and an ordered
//! list of ATX-style headings from the full text of a document.
//!
//! A heading line is matched by the grammar "one or more `#` characters, a
//! single space, at least one further character on the same line". The match
//! must begin at the start of a line: a `#` run in the middle of a sentence is
//! not a heading. The heading level is the length of the `#` run, clamped to
//! 6; the heading text is the rest of the line after the delimiter space, with
//! trailing whitespace removed; the source offset is the character index of
//! the first `#`.

use vstd::prelude::*;
use vstd::string::*;

use crate::text::{is_whitespace, is_ws_char, word_count_of, word_count_upto};

verus! {

/// Position `i` is the first character of a line.
pub open spec fn line_start(t: Seq<char>, i: int) -> bool {
    i == 0 || t[i - 1] == '\n'
}

/// Length of the maximal run of `#` characters beginning at `i`.
pub open spec fn hash_run_len(t: Seq<char>, i: int) -> int
    decreases t.len() - i,
{
    if 0 <= i < t.len() && t[i] == '#' {
        1 + hash_run_len(t, i + 1)
    } else {
        0
    }
}

/// Index of the first newline at or after `i`, or the length of the text.
pub open spec fn line_end(t: Seq<char>, i: int) -> int
    decreases t.len() - i,
{
    if 0 <= i < t.len() {
        if t[i] == '\n' {
            i
        } else {
            line_end(t, i + 1)
        }
    } else {
        t.len() as int
    }
}

/// Largest position in `[start, end]` with no whitespace directly before it
/// inside `[start, end)`: the end of `t[start..end]` once trailing whitespace
/// is dropped.
pub open spec fn trimmed_end(t: Seq<char>, start: int, end: int) -> int
    decreases end - start,
{
    if end > start && is_ws_char(t[end - 1]) {
        trimmed_end(t, start, end - 1)
    } else {
        end
    }
}

/// A heading match begins at `i`: a line starts there with one or more `#`
/// characters, followed by a single space and at least one further character
/// before the end of the line.
pub open spec fn heading_starts_at(t: Seq<char>, i: int) -> bool {
    let k = hash_run_len(t, i);
    &&& 0 <= i < t.len()
    &&& line_start(t, i)
    &&& k >= 1
    &&& i + k + 1 < t.len()
    &&& t[i + k] == ' '
    &&& t[i + k + 1] != '\n'
}

/// Mathematical model of one heading record.
#[verifier::ext_equal]
pub ghost struct HeadingView {
    pub level: int,
    pub text: Seq<char>,
    pub source_offset: int,
}

/// The heading record described by the match beginning at `i`.
pub open spec fn heading_at(t: Seq<char>, i: int) -> HeadingView {
    let k = hash_run_len(t, i);
    let body = i + k + 1;
    HeadingView {
        level: if k <= 6 { k } else { 6int },
        text: t.subrange(body, trimmed_end(t, body, line_end(t, body))),
        source_offset: i,
    }
}

/// The heading records whose matches begin before position `n`, in order.
pub open spec fn headings_upto(t: Seq<char>, n: int) -> Seq<HeadingView>
    decreases n,
{
    if n <= 0 {
        Seq::empty()
    } else if heading_starts_at(t, n - 1) {
        headings_upto(t, n - 1).push(heading_at(t, n - 1))
    } else {
        headings_upto(t, n - 1)
    }
}

/// All heading records of the text, in document order.
pub open spec fn headings_of(t: Seq<char>) -> Seq<HeadingView> {
    headings_upto(t, t.len() as int)
}

/// One Markdown-style heading found in the text.
pub struct HeadingRecord {
    /// Count of leading `#` characters, clamped to 6.
    pub level: usize,
    /// The display text: the rest of the line after the delimiter space, with
    /// trailing whitespace removed.
    pub text: String,
    /// Character offset of the first `#` of the match in the source text.
    pub source_offset: usize,
}

impl View for HeadingRecord {
    type V = HeadingView;

    open spec fn view(&self) -> HeadingView {
        HeadingView {
            level: self.level as int,
            text: self.text@,
            source_offset: self.source_offset as int,
        }
    }
}

/// The views of a sequence of heading records, in order.
pub open spec fn heading_views(s: Seq<HeadingRecord>) -> Seq<HeadingView> {
    s.map_values(|h: HeadingRecord| h@)
}

/// Mathematical model of an analysis result.
#[verifier::ext_equal]
pub ghost struct AnalysisView {
    pub word_count: int,
    pub is_empty: bool,
    pub headings: Seq<HeadingView>,
}

/// What `analyze` computes from a text: the word count, the emptiness flag
/// (true exactly when the word count is zero), and the headings in document
/// order.
pub open spec fn spec_analyze(t: Seq<char>) -> AnalysisView {
    AnalysisView {
        word_count: word_count_of(t),
        is_empty: word_count_of(t) == 0,
        headings: headings_of(t),
    }
}

/// Derived facts about one revision of a document's text.
pub struct AnalysisResult {
    /// Count of whitespace-delimited words.
    pub word_count: usize,
    /// True exactly when the word count is zero.
    pub is_empty: bool,
    /// The headings of the text, in document order.
    pub headings: Vec<HeadingRecord>,
}

impl View for AnalysisResult {
    type V = AnalysisView;

    open spec fn view(&self) -> AnalysisView {
        AnalysisView {
            word_count: self.word_count as int,
            is_empty: self.is_empty,
            headings: heading_views(self.headings@),
        }
    }
}

proof fn lemma_hash_run_len_from_scan(t: Seq<char>, i: int, j: int)
    requires
        0 <= i <= j <= t.len(),
        forall|m: int| i <= m < j ==> t[m] == '#',
        j == t.len() || t[j] != '#',
    ensures
        hash_run_len(t, i) == j - i,
    decreases j - i,
{
    if i < j {
        lemma_hash_run_len_from_scan(t, i + 1, j);
    }
}

proof fn lemma_line_end_from_scan(t: Seq<char>, i: int, e: int)
    requires
        0 <= i <= e <= t.len(),
        forall|m: int| i <= m < e ==> t[m] != '\n',
        e == t.len() || t[e] == '\n',
    ensures
        line_end(t, i) == e,
    decreases e - i,
{
    if i < e {
        lemma_line_end_from_scan(t, i + 1, e);
    }
}

proof fn lemma_trimmed_end_from_scan(t: Seq<char>, start: int, p: int, end: int)
    requires
        0 <= start <= p <= end <= t.len(),
        forall|m: int| p <= m < end ==> is_ws_char(t[m]),
        p == start || !is_ws_char(t[p - 1]),
    ensures
        trimmed_end(t, start, end) == p,
    decreases end - p,
{
    if p < end {
        lemma_trimmed_end_from_scan(t, start, p, end - 1);
    }
}

proof fn lemma_headings_upto_constant(t: Seq<char>, a: int, b: int)
    requires
        0 <= a <= b,
        forall|j: int| a <= j < b ==> !heading_starts_at(t, j),
    ensures
        headings_upto(t, b) == headings_upto(t, a),
    decreases b - a,
{
    if a < b {
        lemma_headings_upto_constant(t, a, b - 1);
    }
}

proof fn lemma_headings_upto_offsets(t: Seq<char>, n: int)
    requires
        0 <= n,
    ensures
        forall|a: int|
            0 <= a < headings_upto(t, n).len() ==> #[trigger] headings_upto(
                t,
                n,
            )[a].source_offset < n,
        forall|a: int, b: int|
            0 <= a < b < headings_upto(t, n).len() ==> headings_upto(t, n)[a].source_offset
                < headings_upto(t, n)[b].source_offset,
    decreases n,
{
    if n > 0 {
        lemma_headings_upto_offsets(t, n - 1);
        let prev = headings_upto(t, n - 1);
        let cur = headings_upto(t, n);
        assert forall|a: int| 0 <= a < cur.len() implies #[trigger] cur[a].source_offset < n by {
            if a < prev.len() {
                assert(cur[a] == prev[a]);
            }
        }
        assert forall|a: int, b: int| 0 <= a < b < cur.len() implies cur[a].source_offset
            < cur[b].source_offset by {
            assert(cur[a] == prev[a]);
            if b < prev.len() {
                assert(cur[b] == prev[b]);
            }
        }
    }
}

/// Headings appear in document order: along `headings_of(t)`, source offsets
/// are strictly increasing.
pub proof fn lemma_headings_in_document_order(t: Seq<char>)
    ensures
        forall|a: int, b: int|
            0 <= a < b < headings_of(t).len() ==> headings_of(t)[a].source_offset < headings_of(
                t,
            )[b].source_offset,
{
    lemma_headings_upto_offsets(t, t.len() as int);
}

/// Analysis is deterministic: two results derived from the same text are
/// identical.
pub proof fn lemma_analyze_deterministic(t: Seq<char>, r1: AnalysisView, r2: AnalysisView)
    requires
        r1 == spec_analyze(t),
        r2 == spec_analyze(t),
    ensures
        r1 == r2,
{
}

/// Computes the analysis of `text`: its word count, whether it is empty of
/// words, and its headings in document order.
pub fn analyze(text: &str) -> (r: AnalysisResult)
    ensures
        r@ == spec_analyze(text@),
{
    let word_count = crate::text::count_words(text);
    let len = text.unicode_len();
    let mut headings: Vec<HeadingRecord> = Vec::new();
    let mut i: usize = 0;
    while i < len
        invariant
            len == text@.len(),
            i <= len,
            i == len || line_start(text@, i as int),
            heading_views(headings@) == headings_upto(text@, i as int),
        decreases len - i,
    {
        // The end of the line that starts at i.
        let mut e: usize = i;
        while e < len && text.get_char(e) != '\n'
            invariant
                len == text@.len(),
                i <= e <= len,
                forall|m: int| i <= m < e ==> text@[m] != '\n',
            decreases len - e,
        {
            e = e + 1;
        }
        proof {
            lemma_line_end_from_scan(text@, i as int, e as int);
        }
        // The maximal run of '#' characters at i.
        let mut j: usize = i;
        while j < e && text.get_char(j) == '#'
            invariant
                len == text@.len(),
                i <= j <= e <= len,
                forall|m: int| i <= m < e ==> text@[m] != '\n',
                forall|m: int| i <= m < j ==> text@[m] == '#',
            decreases e - j,
        {
            j = j + 1;
        }
        proof {
            // At j the run stops: either the text ends, a newline stands
            // there, or the character is not '#'.
            lemma_hash_run_len_from_scan(text@, i as int, j as int);
        }
        let ghost k: int = hash_run_len(text@, i as int);
        if j > i && j < e && text.get_char(j) == ' ' && j + 1 < e {
            // A heading match: its body runs from after the space to the end
            // of the line, less trailing whitespace.
            let body: usize = j + 1;
            let mut p: usize = e;
            while p > body && is_whitespace(text.get_char(p - 1))
                invariant
                    len == text@.len(),
                    body <= p <= e <= len,
                    forall|m: int| p <= m < e ==> is_ws_char(text@[m]),
                decreases p,
            {
                p = p - 1;
            }
            proof {
                lemma_trimmed_end_from_scan(text@, body as int, p as int, e as int);
                lemma_line_end_from_scan(text@, body as int, e as int);
            }
            let level: usize = if j - i <= 6 {
                j - i
            } else {
                6
            };
            let body_str = text.substring_char(body, p);
            let record = HeadingRecord {
                level,
                text: String::from_str(body_str),
                source_offset: i,
            };
            proof {
                assert(heading_starts_at(text@, i as int));
                assert(record@ == heading_at(text@, i as int));
            }
            headings.push(record);
            proof {
                assert(heading_views(headings@) =~= headings_upto(text@, i as int).push(
                    heading_at(text@, i as int),
                ));
            }
        } else {
            proof {
                // No heading starts at i: each way the test failed refutes
                // one clause of the match.
                assert(!heading_starts_at(text@, i as int));
                assert(heading_views(headings@) =~= headings_upto(text@, i as int + 1));
            }
        }
        proof {
            // No later position of this line is a line start, so no heading
            // match begins between i + 1 and the next line start.
            assert(forall|m: int|
                i as int + 1 <= m < e as int + 1 ==> !heading_starts_at(text@, m));
            lemma_headings_upto_constant(text@, i as int + 1, e as int + 1);
        }
        i = if e < len {
            e + 1
        } else {
            len
        };
    }
    let r = AnalysisResult { word_count, is_empty: word_count == 0, headings };
    proof {
        assert(r@ =~= spec_analyze(text@));
    }
    r
}

} // verus!
