//! Turning text into rows: the text is split into grapheme clusters and
//! lines, and each line is laid out on rows of a given width, with wide
//! graphemes taking two cells.
use vstd::prelude::*;

use crate::builder::{
    entries, graphemes_view, lemma_graphemes_view_push, line_values, materialize_row, wrap_into,
    GraphemeBuf, LineBuf, StoredRow,
};
use crate::cell::{default_style, new_default_style};
use crate::flags::lemma_flag_bits;
use crate::model::{excess, ingest_all, keep_last, rewrap, styles_ok, Grapheme, Line};
use crate::row::{Row, RowContents};
use crate::storage::{
    contents_of, lemma_contents_push, materialize_all, saturating_sum, FlatStorage, StorageState,
};
use crate::storage_lemmas::{all_ok, lemma_rewrap_ok, lines_styles_ok};

verus! {

/// The display width that the `unicode-width` crate gives a character, or
/// `None` for a control character.
pub uninterp spec fn unicode_width_of(c: char) -> Option<usize>;

/// Calls `UnicodeWidthChar::width` of the `unicode-width` crate.
///
/// Trusted: the result is `unicode_width_of(c)`; the crate's source gives
/// `None` below U+0020 and from U+007F up to U+00A0, width 1 for the rest of
/// ASCII, and at most 3 from U+00A0 on.
#[verifier::external_body]
fn char_width(c: char) -> (w: Option<usize>)
    ensures
        w == unicode_width_of(c),
        (c as int) < 0x20 ==> w == None::<usize>,
        0x20 <= (c as int) < 0x7F ==> w == Some(1usize),
        0x7F <= (c as int) < 0xA0 ==> w == None::<usize>,
        (c as int) >= 0xA0 ==> w.is_some() && w.unwrap() <= 3,
{
    unicode_width::UnicodeWidthChar::width(c)
}

/// The display width that the `unicode-width` crate gives a string.
pub uninterp spec fn unicode_str_width_of(s: Seq<char>) -> usize;

/// Calls `UnicodeWidthStr::width` of the `unicode-width` crate on the string
/// made of the given characters.
///
/// Trusted: the result is `unicode_str_width_of(chars@)`. Nothing more is
/// stated: the crate sums per-character widths adjusted by rules for emoji
/// and ligature sequences, which no short statement captures.
#[verifier::external_body]
fn cluster_width(chars: &Vec<char>) -> (w: usize)
    ensures
        w == unicode_str_width_of(chars@),
{
    let s: String = chars.iter().collect();
    unicode_width::UnicodeWidthStr::width(s.as_str())
}

/// The extended grapheme clusters that the `unicode-segmentation` crate
/// splits a text into, each as its characters.
pub uninterp spec fn unicode_graphemes_of(s: Seq<char>) -> Seq<Seq<char>>;

/// The values of a sequence of character vectors.
pub open spec fn clusters_view(v: Seq<Vec<char>>) -> Seq<Seq<char>> {
    v.map_values(|cl: Vec<char>| cl@)
}

/// Calls `UnicodeSegmentation::graphemes(s, true)` of the
/// `unicode-segmentation` crate and gives each cluster as its characters.
///
/// Trusted: the result is `unicode_graphemes_of(s@)`. Nothing more is
/// stated of it.
#[verifier::external_body]
fn grapheme_clusters(s: &str) -> (clusters: Vec<Vec<char>>)
    ensures
        clusters_view(clusters@) == unicode_graphemes_of(s@),
{
    unicode_segmentation::UnicodeSegmentation::graphemes(s, true).map(|g| g.chars().collect()).collect()
}

// ---------------------------------------------------------------------------
// From grapheme clusters to lines
// ---------------------------------------------------------------------------

/// The stored form of a grapheme of display width `w`: its first character,
/// the rest as zero-width characters, wide when `w` is two or more, in the
/// default style.
pub open spec fn cluster_grapheme(cl: Seq<char>, w: usize) -> Grapheme {
    Grapheme { c: cl[0], zerowidth: cl.drop_first(), wide: w >= 2, style: default_style() }
}

/// The lines read so far, and the graphemes of the line being read.
pub struct ParseState {
    pub lines: Seq<Line>,
    pub cur: Seq<Grapheme>,
}

/// Adds one grapheme cluster, whose first character has width `lead` and
/// which as a whole has width `w`: a line break ends the line; a cluster
/// that is empty or starts with a control character is left out; any other
/// cluster becomes a grapheme of the line.
pub open spec fn lines_step(st: ParseState, cl: Seq<char>, lead: Option<usize>, w: usize) -> ParseState {
    if cl.contains('\n') {
        ParseState { lines: st.lines.push(Line { graphemes: st.cur, open: false }), cur: seq![] }
    } else if cl.len() > 0 && lead.is_some() {
        ParseState { lines: st.lines, cur: st.cur.push(cluster_grapheme(cl, w)) }
    } else {
        st
    }
}

pub open spec fn lines_fold(
    clusters: Seq<Seq<char>>,
    leads: Seq<Option<usize>>,
    widths: Seq<usize>,
) -> ParseState
    decreases clusters.len(),
{
    if clusters.len() == 0 || leads.len() == 0 || widths.len() == 0 {
        ParseState { lines: seq![], cur: seq![] }
    } else {
        lines_step(
            lines_fold(clusters.drop_last(), leads.drop_last(), widths.drop_last()),
            clusters.last(),
            leads.last(),
            widths.last(),
        )
    }
}

/// The number of grapheme clusters that hold a line break.
pub open spec fn line_breaks(clusters: Seq<Seq<char>>) -> nat
    decreases clusters.len(),
{
    if clusters.len() == 0 {
        0
    } else {
        line_breaks(clusters.drop_last()) + if clusters.last().contains('\n') {
            1nat
        } else {
            0nat
        }
    }
}

/// Each cluster that holds a line break closes exactly one line, and one
/// that ends the text leaves no graphemes pending.
pub proof fn lemma_lines_fold_count(
    clusters: Seq<Seq<char>>,
    leads: Seq<Option<usize>>,
    widths: Seq<usize>,
)
    requires
        leads.len() == clusters.len(),
        widths.len() == clusters.len(),
    ensures
        lines_fold(clusters, leads, widths).lines.len() == line_breaks(clusters),
        clusters.len() > 0 && clusters.last().contains('\n') ==> lines_fold(
            clusters,
            leads,
            widths,
        ).cur.len() == 0,
    decreases clusters.len(),
{
    if clusters.len() > 0 {
        lemma_lines_fold_count(clusters.drop_last(), leads.drop_last(), widths.drop_last());
    }
}

/// The lines of a text made of the given grapheme clusters: each line break
/// closes one, and the graphemes after the last line break make one more
/// when there are any.
pub open spec fn cluster_lines(
    clusters: Seq<Seq<char>>,
    leads: Seq<Option<usize>>,
    widths: Seq<usize>,
) -> Seq<Line> {
    let st = lines_fold(clusters, leads, widths);
    if st.cur.len() > 0 {
        st.lines.push(Line { graphemes: st.cur, open: false })
    } else {
        st.lines
    }
}

/// The widths of the first characters of grapheme clusters.
pub open spec fn lead_widths(clusters: Seq<Seq<char>>) -> Seq<Option<usize>> {
    Seq::new(
        clusters.len(),
        |i: int|
            if clusters[i].len() > 0 {
                unicode_width_of(clusters[i][0])
            } else {
                None
            },
    )
}

/// The display widths of grapheme clusters.
pub open spec fn cluster_widths(clusters: Seq<Seq<char>>) -> Seq<usize> {
    Seq::new(clusters.len(), |i: int| unicode_str_width_of(clusters[i]))
}

/// The lines of a text.
pub open spec fn text_lines(s: Seq<char>) -> Seq<Line> {
    let g = unicode_graphemes_of(s);
    cluster_lines(g, lead_widths(g), cluster_widths(g))
}

/// The rows of `columns` cells that a text is laid out on.
pub open spec fn text_rows(s: Seq<char>, columns: nat) -> Seq<RowContents> {
    materialize_all(rewrap(text_lines(s), columns), columns)
}

/// Every line is closed and carries the default style.
pub open spec fn parsed_lines_ok(lines: Seq<Line>) -> bool {
    forall|i: int|
        0 <= i < lines.len() ==> {
            &&& !(#[trigger] lines[i]).open
            &&& styles_ok(lines[i].graphemes)
        }
}

pub proof fn lemma_lines_fold_ok(
    clusters: Seq<Seq<char>>,
    leads: Seq<Option<usize>>,
    widths: Seq<usize>,
)
    ensures
        parsed_lines_ok(lines_fold(clusters, leads, widths).lines),
        styles_ok(lines_fold(clusters, leads, widths).cur),
    decreases clusters.len(),
{
    lemma_flag_bits(0, 0);
    if clusters.len() > 0 && leads.len() > 0 && widths.len() > 0 {
        lemma_lines_fold_ok(clusters.drop_last(), leads.drop_last(), widths.drop_last());
        let st = lines_fold(clusters.drop_last(), leads.drop_last(), widths.drop_last());
        let nst = lines_fold(clusters, leads, widths);
        assert forall|i: int| 0 <= i < nst.lines.len() implies {
            &&& !(#[trigger] nst.lines[i]).open
            &&& styles_ok(nst.lines[i].graphemes)
        } by {
            if i < st.lines.len() {
                assert(nst.lines[i] == st.lines[i]);
            }
        }
        assert forall|i: int| 0 <= i < nst.cur.len() implies (
        #[trigger] nst.cur[i]).style.flags.is_style_only() by {
            if i < st.cur.len() && nst.cur.len() > st.cur.len() {
                assert(nst.cur[i] == st.cur[i]);
            }
        }
    }
}

pub proof fn lemma_cluster_lines_ok(
    clusters: Seq<Seq<char>>,
    leads: Seq<Option<usize>>,
    widths: Seq<usize>,
)
    ensures
        parsed_lines_ok(cluster_lines(clusters, leads, widths)),
{
    lemma_lines_fold_ok(clusters, leads, widths);
    let st = lines_fold(clusters, leads, widths);
    let ls = cluster_lines(clusters, leads, widths);
    assert forall|i: int| 0 <= i < ls.len() implies {
        &&& !(#[trigger] ls[i]).open
        &&& styles_ok(ls[i].graphemes)
    } by {
        if i < st.lines.len() {
            assert(ls[i] == st.lines[i]);
        }
    }
}

/// The characters of `v` after the first.
fn chars_after_first(v: &Vec<char>) -> (r: Vec<char>)
    requires
        v@.len() > 0,
    ensures
        r@ == v@.drop_first(),
{
    let mut r: Vec<char> = Vec::new();
    let n = v.len();
    for i in 1..n
        invariant
            n == v@.len(),
            r@ == v@.subrange(1, i as int),
    {
        r.push(v[i]);
        assert(v@.subrange(1, i + 1) =~= v@.subrange(1, i as int).push(v@[i as int]));
    }
    assert(v@.subrange(1, n as int) =~= v@.drop_first());
    r
}

/// Whether a cluster holds a line break.
fn has_line_break(v: &Vec<char>) -> (b: bool)
    ensures
        b == v@.contains('\n'),
{
    let n = v.len();
    for i in 0..n
        invariant
            n == v@.len(),
            forall|k: int| 0 <= k < i ==> v@[k] != '\n',
    {
        if v[i] == '\n' {
            assert(v@[i as int] == '\n');
            return true;
        }
    }
    false
}

/// Reads the lines of a text made of the given grapheme clusters.
fn lines_of_clusters(
    clusters: &Vec<Vec<char>>,
    leads: &Vec<Option<usize>>,
    widths: &Vec<usize>,
) -> (lines: Vec<LineBuf>)
    requires
        clusters@.len() == leads@.len(),
        clusters@.len() == widths@.len(),
    ensures
        line_values(lines@) == cluster_lines(clusters_view(clusters@), leads@, widths@),
{
    let ghost cv = clusters_view(clusters@);
    let n = clusters.len();
    let mut lines: Vec<LineBuf> = Vec::new();
    let mut cur: Vec<GraphemeBuf> = Vec::new();
    for i in 0..n
        invariant
            n == clusters@.len(),
            n == leads@.len(),
            n == widths@.len(),
            cv == clusters_view(clusters@),
            ({
                let st = lines_fold(cv.take(i as int), leads@.take(i as int), widths@.take(i as int));
                &&& line_values(lines@) == st.lines
                &&& graphemes_view(cur@) == st.cur
            }),
    {
        proof {
            assert(cv.take(i + 1).drop_last() =~= cv.take(i as int));
            assert(leads@.take(i + 1).drop_last() =~= leads@.take(i as int));
            assert(widths@.take(i + 1).drop_last() =~= widths@.take(i as int));
            assert(cv.take(i + 1).last() == cv[i as int]);
            assert(leads@.take(i + 1).last() == leads@[i as int]);
            assert(widths@.take(i + 1).last() == widths@[i as int]);
        }
        let v = &clusters[i];
        if has_line_break(v) {
            let done = cur;
            let l = LineBuf { graphemes: done, open: false };
            proof {
                assert(line_values(lines@.push(l)) =~= line_values(lines@).push(l@));
            }
            lines.push(l);
            cur = Vec::new();
            assert(graphemes_view(cur@) =~= Seq::<Grapheme>::empty());
        } else if v.len() > 0 && leads[i].is_some() {
            let g = GraphemeBuf {
                c: v[0],
                zerowidth: chars_after_first(v),
                wide: widths[i] >= 2,
                style: new_default_style(),
            };
            proof {
                lemma_graphemes_view_push(cur@, g);
            }
            cur.push(g);
        }
    }
    proof {
        assert(cv.take(n as int) =~= cv);
        assert(leads@.take(n as int) =~= leads@);
        assert(widths@.take(n as int) =~= widths@);
    }
    if cur.len() > 0 {
        let l = LineBuf { graphemes: cur, open: false };
        proof {
            assert(line_values(lines@.push(l)) =~= line_values(lines@).push(l@));
        }
        lines.push(l);
    }
    lines
}

/// Lays a text out on rows of `columns` cells, given its grapheme clusters,
/// the width of the first character of each, and the display width of each:
/// each line starts a row and wraps onto further rows where it does not fit;
/// a wide grapheme that does not fit at the end of a row moves to the next
/// one.
pub fn layout_clusters(
    clusters: &Vec<Vec<char>>,
    leads: &Vec<Option<usize>>,
    widths: &Vec<usize>,
    columns: usize,
) -> (rows: Vec<Row>)
    requires
        clusters@.len() == leads@.len(),
        clusters@.len() == widths@.len(),
        columns > 0,
    ensures
        contents_of(rows@) == materialize_all(
            rewrap(cluster_lines(clusters_view(clusters@), leads@, widths@), columns as nat),
            columns as nat,
        ),
{
    let lines = lines_of_clusters(clusters, leads, widths);
    let ghost lv = line_values(lines@);
    proof {
        lemma_cluster_lines_ok(clusters_view(clusters@), leads@, widths@);
        assert(lines_styles_ok(lv)) by {
            assert forall|i: int| 0 <= i < lv.len() implies styles_ok((#[trigger] lv[i]).graphemes) by {
            }
        }
    }
    let mut stored: Vec<StoredRow> = Vec::new();
    let m = lines.len();
    for j in 0..m
        invariant
            m == lines@.len(),
            columns > 0,
            lv == line_values(lines@),
            entries(stored@) == rewrap(lv.take(j as int), columns as nat),
    {
        let line = &lines[j];
        proof {
            assert(lv.take(j + 1).drop_last() =~= lv.take(j as int));
            assert(lv.take(j + 1).last() == line@);
        }
        wrap_into(&line.graphemes, columns, line.open, &mut stored);
    }
    proof {
        assert(lv.take(m as int) =~= lv);
        lemma_rewrap_ok(lv, columns as nat);
    }
    let ghost es = entries(stored@);
    let k = stored.len();
    let mut rows: Vec<Row> = Vec::new();
    for i in 0..k
        invariant
            k == stored@.len(),
            columns > 0,
            es == entries(stored@),
            all_ok(es, columns as nat),
            contents_of(rows@) == materialize_all(es, columns as nat).take(i as int),
    {
        assert(es[i as int] == stored@[i as int]@);
        let row = materialize_row(&stored[i], columns);
        proof {
            lemma_contents_push(rows@, row);
            assert(materialize_all(es, columns as nat).take(i + 1) =~= materialize_all(
                es,
                columns as nat,
            ).take(i as int).push(row@));
        }
        rows.push(row);
    }
    proof {
        assert(materialize_all(es, columns as nat).take(k as int) =~= materialize_all(
            es,
            columns as nat,
        ));
    }
    rows
}

/// Lays a text out on rows of `columns` cells: the text is split into
/// extended grapheme clusters by the `unicode-segmentation` crate, and their
/// widths come from the `unicode-width` crate.
pub fn content_to_rows(content: &str, columns: usize) -> (rows: Vec<Row>)
    requires
        columns > 0,
    ensures
        contents_of(rows@) == text_rows(content@, columns as nat),
{
    let clusters = grapheme_clusters(content);
    let ghost g = clusters_view(clusters@);
    let n = clusters.len();
    let mut leads: Vec<Option<usize>> = Vec::new();
    let mut widths: Vec<usize> = Vec::new();
    for i in 0..n
        invariant
            n == clusters@.len(),
            g == clusters_view(clusters@),
            leads@ == lead_widths(g).take(i as int),
            widths@ == cluster_widths(g).take(i as int),
    {
        let v = &clusters[i];
        let lead = if v.len() > 0 {
            char_width(v[0])
        } else {
            None
        };
        let w = cluster_width(v);
        leads.push(lead);
        widths.push(w);
        proof {
            assert(g[i as int] == v@);
            assert(widths@ =~= cluster_widths(g).take(i + 1));
            assert(leads@ =~= lead_widths(g).take(i + 1));
        }
    }
    proof {
        assert(widths@ =~= cluster_widths(g));
        assert(leads@ =~= lead_widths(g));
    }
    layout_clusters(&clusters, &leads, &widths, columns)
}

impl FlatStorage {
    /// A storage of `columns` columns, keeping at most `max_rows` rows when
    /// given, that holds the rows a text is laid out on.
    pub fn from_content_using_rows(content: &str, columns: usize, max_rows: Option<usize>) -> (s:
        FlatStorage)
        requires
            columns > 0,
        ensures
            ({
                let ingested = ingest_all(text_rows(content@, columns as nat), columns as nat);
                s@ == (StorageState {
                    columns: columns as nat,
                    max_rows,
                    rows: keep_last(ingested, max_rows),
                    num_truncated_rows: saturating_sum(0, excess(ingested.len(), max_rows)),
                })
            }),
            columns >= 2 ==> s@.rows == keep_last(
                rewrap(text_lines(content@), columns as nat),
                max_rows,
            ),
    {
        let rows = content_to_rows(content, columns);
        let mut s = FlatStorage::new(columns, max_rows, None);
        s.push_rows(rows.as_slice());
        proof {
            assert(Seq::<crate::model::RowEntry>::empty() + ingest_all(contents_of(rows@), columns as nat)
                =~= ingest_all(contents_of(rows@), columns as nat));
            if columns >= 2 {
                crate::laws::law_text_rows_round_trip(content@, columns as nat);
            }
        }
        s
    }
}

} // verus!
