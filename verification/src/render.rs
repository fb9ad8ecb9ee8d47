//! The rendering engine: a deterministic projection of a diagnostic into an
//! ordered sequence of styled writes, mimicking a compiler's own diagnostic
//! presentation. The spec functions here state the exact write sequence; the
//! executable functions are proved to emit it.

use crate::errors::RenderError;
use crate::model::{
    ChildDiagnostic, ChildDiagnosticView, Diagnostic, DiagnosticView, ErrorLevel, Span,
    SpanLineView, SpanView, opt_str_view,
};
use crate::sink::{Color, OpV, Sink, plain_of};
use crate::text::{
    count_digits, dec_str, lemma_dec_str_len, make_spaces, num_digits, repeat_char, repeat_mark,
    spaces, usize_to_string,
};
use vstd::multiset::Multiset;
use vstd::prelude::*;
use vstd::string::StringExecFns;

verus! {

/// Level prefix text: `error: internal compiler error` for an internal
/// compiler error, the bare level word otherwise.
pub open spec fn level_text(l: ErrorLevel) -> Seq<char> {
    match l {
        ErrorLevel::Ice => "error: internal compiler error"@,
        ErrorLevel::Error => "error"@,
        ErrorLevel::Warning => "warning"@,
        ErrorLevel::Note => "note"@,
        ErrorLevel::Help => "help"@,
    }
}

/// Level color: red for errors, yellow for warnings, green for a top-level
/// note, white for help. A note nested inside a span block is white instead
/// of green, visually subordinating it to its parent.
pub open spec fn level_color(l: ErrorLevel, in_span: bool) -> Color {
    match l {
        ErrorLevel::Ice => Color::Red,
        ErrorLevel::Error => Color::Red,
        ErrorLevel::Warning => Color::Yellow,
        ErrorLevel::Note => if in_span {
            Color::White
        } else {
            Color::Green
        },
        ErrorLevel::Help => Color::White,
    }
}

/// The four kinds of left-gutter prefix, at the view level: the `--> ` lead
/// line, a right-aligned line number, the bare vertical bar, and the `= `
/// leader of a child note.
pub enum LineNumberPrefixView {
    Leading(Seq<char>),
    Lineno(nat),
    Empty,
    Note,
}

/// Padding in front of a line number: the gutter width less the number's
/// digit count, saturating at zero (a number wider than the gutter
/// under-pads rather than failing).
pub open spec fn pad_width(width: nat, n: nat) -> nat {
    if num_digits(n) <= width {
        (width - num_digits(n)) as nat
    } else {
        0
    }
}

/// The styled writes of one gutter prefix of the given width. Every prefix
/// is bold blue and followed by a style reset; the lead line's
/// `file:line:column` text is written unstyled after the reset.
pub open spec fn lineno_prefix_ops(x: LineNumberPrefixView, width: nat) -> Seq<OpV> {
    match x {
        LineNumberPrefixView::Leading(s) => seq![
            OpV::Bold,
            OpV::Fg(Color::Blue),
            OpV::Text(spaces(width) + "--> "@),
            OpV::Reset,
            OpV::Text(s + "\n"@),
        ],
        LineNumberPrefixView::Lineno(n) => seq![
            OpV::Bold,
            OpV::Fg(Color::Blue),
            OpV::Text(spaces(pad_width(width, n)) + dec_str(n) + " | "@),
            OpV::Reset,
        ],
        LineNumberPrefixView::Empty => seq![
            OpV::Bold,
            OpV::Fg(Color::Blue),
            OpV::Text(spaces(width) + " |"@),
            OpV::Reset,
        ],
        LineNumberPrefixView::Note => seq![
            OpV::Bold,
            OpV::Fg(Color::Blue),
            OpV::Text(spaces(width) + " = "@),
            OpV::Reset,
        ],
    }
}

/// The `[code]` writes after the level word, in the level's own style;
/// nothing when the diagnostic has no code.
pub open spec fn code_ops(d: DiagnosticView) -> Seq<OpV> {
    match d.code {
        Option::Some(c) => seq![
            OpV::Bold,
            OpV::Fg(level_color(d.level, false)),
            OpV::Text("["@ + c + "]"@),
        ],
        Option::None => Seq::empty(),
    }
}

/// The header line: the level prefix bolded and colored by level, the
/// optional `[code]` in the same style, then `: message` in bold white, and
/// a final style reset.
pub open spec fn header_ops(d: DiagnosticView) -> Seq<OpV> {
    seq![
        OpV::Bold,
        OpV::Fg(level_color(d.level, false)),
        OpV::Text(level_text(d.level)),
        OpV::Reset,
    ] + code_ops(d) + seq![
        OpV::Bold,
        OpV::Fg(Color::White),
        OpV::Text(": "@ + d.message + "\n"@),
        OpV::Reset,
    ]
}

/// The highlight mark: `^` under a primary span, `-` under a secondary one.
pub open spec fn highlight_mark(is_primary: bool) -> char {
    if is_primary {
        '^'
    } else {
        '-'
    }
}

/// The highlight row's text: `column_start` spaces (the gutter bar carries
/// no trailing space, so this is one space of separation plus
/// `column_start - 1` of offset), a mark per highlighted column, the
/// optional label after a single space, and a terminating newline either
/// way: the highlight row is a full output line of its own.
pub open spec fn highlight_text(
    column_start: nat,
    column_end: nat,
    is_primary: bool,
    label: Option<Seq<char>>,
) -> Seq<char> {
    spaces(column_start) + repeat_char(highlight_mark(is_primary), (column_end - column_start) as nat)
        + match label {
        Option::Some(l) => " "@ + l + "\n"@,
        Option::None => "\n"@,
    }
}

/// The writes of one highlight row.
pub open spec fn highlight_ops(
    column_start: nat,
    column_end: nat,
    is_primary: bool,
    label: Option<Seq<char>>,
) -> Seq<OpV> {
    seq![OpV::Text(highlight_text(column_start, column_end, is_primary, label))]
}

/// The writes of one excerpt row: the line's own number in the gutter, then
/// the literal source text and a newline.
pub open spec fn excerpt_line_ops(l: SpanLineView, width: nat) -> Seq<OpV> {
    lineno_prefix_ops(LineNumberPrefixView::Lineno(l.line_number), width) + seq![
        OpV::Text(l.text + "\n"@),
    ]
}

/// The excerpt rows of a span, in order.
pub open spec fn excerpt_lines_ops(lines: Seq<SpanLineView>, width: nat) -> Seq<OpV>
    decreases lines.len(),
{
    if lines.len() == 0 {
        Seq::empty()
    } else {
        excerpt_lines_ops(lines.drop_last(), width) + excerpt_line_ops(lines.last(), width)
    }
}

/// The writes of one span: its excerpt rows, then a bare gutter row followed
/// by the highlight row.
pub open spec fn span_ops(s: SpanView, width: nat) -> Seq<OpV> {
    excerpt_lines_ops(s.text, width) + lineno_prefix_ops(LineNumberPrefixView::Empty, width)
        + highlight_ops(s.column_start, s.column_end, s.is_primary, s.label)
}

/// The writes of a span list, in the order given.
pub open spec fn spans_ops(ss: Seq<SpanView>, width: nat) -> Seq<OpV>
    decreases ss.len(),
{
    if ss.len() == 0 {
        Seq::empty()
    } else {
        spans_ops(ss.drop_last(), width) + span_ops(ss.last(), width)
    }
}

/// The writes of one child diagnostic: the `= ` gutter leader, the child's
/// level prefix in its nested style, then `: message`.
pub open spec fn child_ops(c: ChildDiagnosticView, width: nat) -> Seq<OpV> {
    lineno_prefix_ops(LineNumberPrefixView::Note, width) + seq![
        OpV::Bold,
        OpV::Fg(level_color(c.level, true)),
        OpV::Text(level_text(c.level)),
        OpV::Reset,
        OpV::Text(": "@ + c.message + "\n"@),
    ]
}

/// The child lines, in input order.
pub open spec fn children_ops(cs: Seq<ChildDiagnosticView>, width: nat) -> Seq<OpV>
    decreases cs.len(),
{
    if cs.len() == 0 {
        Seq::empty()
    } else {
        children_ops(cs.drop_last(), width) + child_ops(cs.last(), width)
    }
}

/// Greatest `line_start` among the spans; zero for an empty list.
pub open spec fn max_line_start(ss: Seq<SpanView>) -> nat
    decreases ss.len(),
{
    if ss.len() == 0 {
        0
    } else if ss.last().line_start >= max_line_start(ss.drop_last()) {
        ss.last().line_start
    } else {
        max_line_start(ss.drop_last())
    }
}

/// Gutter width: the digit count of the greatest `line_start`. This
/// deliberately ignores `line_end`, so rows of very long spans may
/// under-pad; the simple alignment rule is the documented behavior.
pub open spec fn gutter_width(ss: Seq<SpanView>) -> nat {
    num_digits(max_line_start(ss))
}

/// The lead span: the first span marked primary, in input order.
pub open spec fn lead_span(ss: Seq<SpanView>) -> Option<SpanView>
    decreases ss.len(),
{
    if ss.len() == 0 {
        Option::None
    } else if ss.first().is_primary {
        Option::Some(ss.first())
    } else {
        lead_span(ss.drop_first())
    }
}

/// The `file:line:column` text of a lead line.
pub open spec fn lead_text(s: SpanView) -> Seq<char> {
    s.file_name + ":"@ + dec_str(s.line_start) + ":"@ + dec_str(s.column_start)
}

/// The `--> file:line:column` lead line; nothing when no span is primary.
pub open spec fn lead_ops(ss: Seq<SpanView>, width: nat) -> Seq<OpV> {
    match lead_span(ss) {
        Option::Some(s) => lineno_prefix_ops(
            LineNumberPrefixView::Leading(lead_text(s)),
            width,
        ),
        Option::None => Seq::empty(),
    }
}

/// Inserts `x` behind the last span whose `line_start` does not exceed
/// `x.line_start`: stable insertion from the right.
pub open spec fn insert_by_line(s: Seq<SpanView>, x: SpanView) -> Seq<SpanView>
    decreases s.len(),
{
    if s.len() == 0 {
        seq![x]
    } else if s.last().line_start > x.line_start {
        insert_by_line(s.drop_last(), x).push(s.last())
    } else {
        s.push(x)
    }
}

/// Stable sort of the spans by `line_start` alone; spans sharing a start
/// line keep their input order.
pub open spec fn sort_by_line(s: Seq<SpanView>) -> Seq<SpanView>
    decreases s.len(),
{
    if s.len() == 0 {
        Seq::empty()
    } else {
        insert_by_line(sort_by_line(s.drop_last()), s.last())
    }
}

/// Non-strict ordering of a span list by `line_start`.
pub open spec fn sorted_by_line(s: Seq<SpanView>) -> bool {
    forall|i: int, j: int| 0 <= i <= j < s.len() ==> s[i].line_start <= s[j].line_start
}

/// The whole span block: the lead line if a primary span exists, one bare
/// gutter separator row, every span's rows in `line_start` order, then the
/// child lines.
pub open spec fn span_block_ops(d: DiagnosticView) -> Seq<OpV> {
    let w = gutter_width(d.spans);
    lead_ops(d.spans, w) + lineno_prefix_ops(LineNumberPrefixView::Empty, w) + seq![
        OpV::Text("\n"@),
    ] + spans_ops(sort_by_line(d.spans), w) + children_ops(d.children, w)
}

/// Everything one render call writes: the header line, the span block when
/// any span exists, and a trailing blank line separating diagnostics.
pub open spec fn render_ops(d: DiagnosticView) -> Seq<OpV> {
    header_ops(d) + (if d.spans.len() > 0 {
        span_block_ops(d)
    } else {
        Seq::<OpV>::empty()
    }) + seq![OpV::Text("\n"@)]
}

/// Levels a child diagnostic may carry.
pub open spec fn child_level_ok(l: ErrorLevel) -> bool {
    l == ErrorLevel::Note || l == ErrorLevel::Help
}

/// Every span's excerpt covers its line range.
pub open spec fn spans_text_len_ok(ss: Seq<SpanView>) -> bool {
    forall|i: int| 0 <= i < ss.len() ==> (#[trigger] ss[i]).text_len_ok()
}

/// Every child is a note or a help.
pub open spec fn children_ok(cs: Seq<ChildDiagnosticView>) -> bool {
    forall|i: int| 0 <= i < cs.len() ==> child_level_ok((#[trigger] cs[i]).level)
}

/// The renderer's input contract: every span's excerpt covers its line
/// range, and — when a span block is rendered at all — every child is a
/// note or a help. A violation aborts the render call with no output.
pub open spec fn render_accepts(d: DiagnosticView) -> bool {
    spans_text_len_ok(d.spans) && (d.spans.len() > 0 ==> children_ok(d.children))
}

/// The violation reported for a rejected diagnostic; span excerpts are
/// checked before child levels.
pub open spec fn render_error_of(d: DiagnosticView) -> RenderError {
    if !spans_text_len_ok(d.spans) {
        RenderError::SpanTextLengthMismatch
    } else {
        RenderError::UnsupportedChildLevel
    }
}

impl ErrorLevel {
    /// Applies this level's style: bold, then the level color.
    pub fn set_attr(&self, in_span: bool, sink: &mut Sink)
        ensures
            final(sink)@ == old(sink)@ + seq![OpV::Bold, OpV::Fg(level_color(*self, in_span))],
    {
        sink.bold();
        let c = match self {
            ErrorLevel::Ice => Color::Red,
            ErrorLevel::Error => Color::Red,
            ErrorLevel::Warning => Color::Yellow,
            ErrorLevel::Note => if in_span {
                Color::White
            } else {
                Color::Green
            },
            ErrorLevel::Help => Color::White,
        };
        sink.fg(c);
        proof {
            assert(sink@ =~= old(sink)@ + seq![OpV::Bold, OpV::Fg(level_color(*self, in_span))]);
        }
    }

    /// Writes this level's prefix text, then resets styling.
    pub fn output(&self, sink: &mut Sink)
        ensures
            final(sink)@ == old(sink)@ + seq![OpV::Text(level_text(*self)), OpV::Reset],
    {
        let s: &str = match self {
            ErrorLevel::Ice => "error: internal compiler error",
            ErrorLevel::Error => "error",
            ErrorLevel::Warning => "warning",
            ErrorLevel::Note => "note",
            ErrorLevel::Help => "help",
        };
        sink.text(s.to_owned());
        sink.reset();
        proof {
            assert(sink@ =~= old(sink)@ + seq![OpV::Text(level_text(*self)), OpV::Reset]);
        }
    }
}

/// The four kinds of left-gutter prefix a rendered row can start with.
pub enum LineNumberPrefix {
    Leading(String),
    Lineno(usize),
    Empty,
    Note,
}

impl View for LineNumberPrefix {
    type V = LineNumberPrefixView;

    open spec fn view(&self) -> LineNumberPrefixView {
        match self {
            LineNumberPrefix::Leading(s) => LineNumberPrefixView::Leading(s@),
            LineNumberPrefix::Lineno(n) => LineNumberPrefixView::Lineno(*n as nat),
            LineNumberPrefix::Empty => LineNumberPrefixView::Empty,
            LineNumberPrefix::Note => LineNumberPrefixView::Note,
        }
    }
}

/// Renders one gutter prefix of the given width.
pub fn render_lineno(x: LineNumberPrefix, width: usize, sink: &mut Sink)
    ensures
        final(sink)@ == old(sink)@ + lineno_prefix_ops(x@, width as nat),
{
    let ghost xv = x@;
    sink.bold();
    sink.fg(Color::Blue);
    match x {
        LineNumberPrefix::Leading(s) => {
            let mut t = make_spaces(width);
            t.append("--> ");
            sink.text(t);
            sink.reset();
            let mut rest = s;
            rest.append("\n");
            sink.text(rest);
            proof {
                assert(sink@ =~= old(sink)@ + lineno_prefix_ops(xv, width as nat));
            }
        },
        LineNumberPrefix::Lineno(n) => {
            let nd = count_digits(n);
            let pad = if nd <= width {
                width - nd
            } else {
                0
            };
            let mut t = make_spaces(pad);
            let ns = usize_to_string(n);
            t.append(ns.as_str());
            t.append(" | ");
            sink.text(t);
            sink.reset();
            proof {
                assert(pad as nat == pad_width(width as nat, n as nat));
                assert(sink@ =~= old(sink)@ + lineno_prefix_ops(xv, width as nat));
            }
        },
        LineNumberPrefix::Empty => {
            let mut t = make_spaces(width);
            t.append(" |");
            sink.text(t);
            sink.reset();
            proof {
                assert(sink@ =~= old(sink)@ + lineno_prefix_ops(xv, width as nat));
            }
        },
        LineNumberPrefix::Note => {
            let mut t = make_spaces(width);
            t.append(" = ");
            sink.text(t);
            sink.reset();
            proof {
                assert(sink@ =~= old(sink)@ + lineno_prefix_ops(xv, width as nat));
            }
        },
    }
}

/// Renders one highlight row under an excerpt: marks beneath the columns
/// `column_start..column_end` of the span's first line, the label, when one
/// is present, after a single space, and the row's terminating newline.
pub fn render_highlight(
    column_start: usize,
    column_end: usize,
    is_primary: bool,
    label: &Option<String>,
    sink: &mut Sink,
)
    requires
        column_start <= column_end,
    ensures
        final(sink)@ == old(sink)@ + highlight_ops(
            column_start as nat,
            column_end as nat,
            is_primary,
            opt_str_view(*label),
        ),
{
    let mut t = make_spaces(column_start);
    let marks = repeat_mark(is_primary, column_end - column_start);
    t.append(marks.as_str());
    if let Some(l) = label {
        t.append(" ");
        t.append(l.as_str());
    }
    t.append("\n");
    proof {
        assert(t@ =~= highlight_text(
            column_start as nat,
            column_end as nat,
            is_primary,
            opt_str_view(*label),
        ));
    }
    sink.text(t);
    proof {
        assert(sink@ =~= old(sink)@ + highlight_ops(
            column_start as nat,
            column_end as nat,
            is_primary,
            opt_str_view(*label),
        ));
    }
}

/// The views of a span list.
pub open spec fn views_of(s: Seq<Span>) -> Seq<SpanView> {
    s.map_values(|x: Span| x@)
}

/// The views behind a list of span references.
pub open spec fn span_ref_views(s: Seq<&Span>) -> Seq<SpanView> {
    s.map_values(|x: &Span| x@)
}

/// Greatest `line_start` of a non-empty span list, executable.
#[verifier::loop_isolation(false)]
fn max_line_start_exec(spans: &Vec<Span>) -> (r: usize)
    ensures
        r as nat == max_line_start(views_of(spans@)),
{
    let mut m: usize = 0;
    let mut i: usize = 0;
    proof {
        assert(views_of(spans@).take(0) =~= Seq::<SpanView>::empty());
    }
    while i < spans.len()
        invariant
            i <= spans@.len(),
            m as nat == max_line_start(views_of(spans@).take(i as int)),
        decreases spans@.len() - i,
    {
        if spans[i].line_start > m {
            m = spans[i].line_start;
        }
        i = i + 1;
        proof {
            assert(views_of(spans@).take(i as int).drop_last() =~= views_of(spans@).take(i - 1));
            assert(views_of(spans@).take(i as int).last() == spans@[i - 1]@);
        }
    }
    proof {
        assert(views_of(spans@).take(spans@.len() as int) =~= views_of(spans@));
    }
    m
}

/// Skipping a primary-free prefix does not change the lead span.
proof fn lemma_lead_span_skip(s: Seq<SpanView>, i: int)
    requires
        0 <= i <= s.len(),
        forall|k: int| 0 <= k < i ==> !(#[trigger] s[k]).is_primary,
    ensures
        lead_span(s) == lead_span(s.skip(i)),
    decreases i,
{
    if i > 0 {
        assert(!s[0].is_primary);
        assert(s.drop_first() =~= s.skip(1));
        assert forall|k: int| 0 <= k < i - 1 implies !(#[trigger] s.skip(1)[k]).is_primary by {
            assert(s.skip(1)[k] == s[k + 1]);
        }
        lemma_lead_span_skip(s.skip(1), i - 1);
        assert(s.skip(1).skip(i - 1) =~= s.skip(i));
    } else {
        assert(s.skip(0) =~= s);
    }
}

/// The first primary span in input order, executable.
#[verifier::loop_isolation(false)]
fn find_lead<'a>(spans: &'a Vec<Span>) -> (r: Option<&'a Span>)
    ensures
        match r {
            Option::Some(s) => lead_span(views_of(spans@)) == Option::Some(s@),
            Option::None => lead_span(views_of(spans@)) is None,
        },
{
    let ghost vs = views_of(spans@);
    let mut i: usize = 0;
    while i < spans.len()
        invariant
            i <= spans@.len(),
            forall|k: int| 0 <= k < i ==> !(#[trigger] vs[k]).is_primary,
        decreases spans@.len() - i,
    {
        if spans[i].is_primary {
            proof {
                lemma_lead_span_skip(vs, i as int);
                assert(vs.skip(i as int).first() == vs[i as int]);
                assert(vs[i as int] == spans@[i as int]@);
            }
            return Some(&spans[i]);
        }
        proof {
            assert(vs[i as int] == spans@[i as int]@);
        }
        i = i + 1;
    }
    proof {
        lemma_lead_span_skip(vs, vs.len() as int);
        assert(vs.skip(vs.len() as int) =~= Seq::<SpanView>::empty());
    }
    None
}

/// Inserting at the first position whose span starts strictly later is
/// exactly the stable insertion [`insert_by_line`] performs.
proof fn lemma_insert_by_line_at(s: Seq<SpanView>, x: SpanView, j: int)
    requires
        sorted_by_line(s),
        0 <= j <= s.len(),
        forall|k: int| 0 <= k < j ==> (#[trigger] s[k]).line_start <= x.line_start,
        j < s.len() ==> s[j].line_start > x.line_start,
    ensures
        insert_by_line(s, x) == s.take(j) + seq![x] + s.skip(j),
    decreases s.len(),
{
    if s.len() == 0 {
        assert(s.take(0) + seq![x] + s.skip(0) =~= seq![x]);
    } else if j == s.len() {
        assert(s[s.len() - 1].line_start <= x.line_start);
        assert(s.take(j) + seq![x] + s.skip(j) =~= s.push(x));
    } else {
        assert(s[s.len() - 1].line_start >= s[j].line_start);
        let t = s.drop_last();
        assert forall|a: int, b: int| 0 <= a <= b < t.len() implies t[a].line_start
            <= t[b].line_start by {
            assert(t[a] == s[a]);
            assert(t[b] == s[b]);
        }
        assert forall|k: int| 0 <= k < j implies (#[trigger] t[k]).line_start <= x.line_start by {
            assert(t[k] == s[k]);
        }
        if j < t.len() {
            assert(t[j] == s[j]);
        }
        lemma_insert_by_line_at(t, x, j);
        assert(insert_by_line(t, x).push(s.last()) =~= s.take(j) + seq![x] + s.skip(j));
    }
}

/// Inserting at the first strictly-later position keeps the list sorted.
proof fn lemma_sorted_insert(s: Seq<SpanView>, x: SpanView, j: int)
    requires
        sorted_by_line(s),
        0 <= j <= s.len(),
        forall|k: int| 0 <= k < j ==> (#[trigger] s[k]).line_start <= x.line_start,
        j < s.len() ==> s[j].line_start > x.line_start,
    ensures
        sorted_by_line(s.take(j) + seq![x] + s.skip(j)),
{
    let r = s.take(j) + seq![x] + s.skip(j);
    assert forall|a: int, b: int| 0 <= a <= b < r.len() implies r[a].line_start
        <= r[b].line_start by {
        if a < j {
            assert(r[a] == s[a]);
        } else if a > j {
            assert(r[a] == s[a - 1]);
        }
        if b < j {
            assert(r[b] == s[b]);
        } else if b > j {
            assert(r[b] == s[b - 1]);
        }
        if a == j && b > j {
            assert(s[b - 1].line_start >= s[j].line_start);
        }
    }
}

/// Stable insertion sort of the spans by `line_start`, executable: returns
/// references to the spans in sorted order, leaving the input untouched.
#[verifier::loop_isolation(false)]
fn sort_spans<'a>(spans: &'a Vec<Span>) -> (r: Vec<&'a Span>)
    ensures
        span_ref_views(r@) == sort_by_line(views_of(spans@)),
        forall|k: int|
            0 <= k < r@.len() ==> exists|j: int|
                0 <= j < spans@.len() && (#[trigger] span_ref_views(r@)[k]) == views_of(spans@)[j],
{
    let ghost vs = views_of(spans@);
    let mut r: Vec<&'a Span> = Vec::new();
    proof {
        assert(span_ref_views(r@) =~= Seq::<SpanView>::empty());
        assert(vs.take(0) =~= Seq::<SpanView>::empty());
    }
    let mut i: usize = 0;
    while i < spans.len()
        invariant
            i <= spans@.len(),
            r@.len() == i,
            span_ref_views(r@) == sort_by_line(vs.take(i as int)),
            sorted_by_line(span_ref_views(r@)),
            forall|k: int|
                0 <= k < r@.len() ==> exists|j: int|
                    0 <= j < i && (#[trigger] span_ref_views(r@)[k]) == vs[j],
        decreases spans@.len() - i,
    {
        let x: &Span = &spans[i];
        proof {
            assert(x@ == vs[i as int]);
        }
        let ghost rv = span_ref_views(r@);
        let mut j: usize = 0;
        while j < r.len() && r[j].line_start <= x.line_start
            invariant
                j <= r@.len(),
                span_ref_views(r@) == rv,
                forall|k: int| 0 <= k < j ==> (#[trigger] rv[k]).line_start <= x@.line_start,
            decreases r@.len() - j,
        {
            proof {
                assert(rv[j as int] == r@[j as int]@);
            }
            j = j + 1;
        }
        proof {
            if j < r@.len() {
                assert(rv[j as int] == r@[j as int]@);
            }
            lemma_insert_by_line_at(rv, x@, j as int);
            lemma_sorted_insert(rv, x@, j as int);
        }
        r.insert(j, x);
        i = i + 1;
        proof {
            assert(span_ref_views(r@) =~= rv.take(j as int) + seq![x@] + rv.skip(j as int));
            assert(vs.take(i as int).drop_last() =~= vs.take(i - 1));
            assert(vs.take(i as int).last() == vs[i - 1]);
            assert(span_ref_views(r@) == sort_by_line(vs.take(i as int)));
            assert forall|k: int| 0 <= k < r@.len() implies exists|jj: int|
                0 <= jj < i && (#[trigger] span_ref_views(r@)[k]) == vs[jj] by {
                if k < j {
                    assert(span_ref_views(r@)[k] == rv[k]);
                } else if k == j {
                    assert(span_ref_views(r@)[k] == vs[i - 1]);
                } else {
                    assert(span_ref_views(r@)[k] == rv[k - 1]);
                }
            }
        }
    }
    proof {
        assert(vs.take(spans@.len() as int) =~= vs);
    }
    r
}

/// Renders one span: its excerpt rows, then a bare gutter row followed by
/// the highlight row.
#[verifier::loop_isolation(false)]
fn render_one_span(sp: &Span, width: usize, sink: &mut Sink)
    requires
        sp@.wf(),
    ensures
        final(sink)@ == old(sink)@ + span_ops(sp@, width as nat),
{
    let ghost w = width as nat;
    let mut k: usize = 0;
    proof {
        assert(excerpt_lines_ops(sp@.text.take(0), w) =~= Seq::<OpV>::empty());
        assert(sink@ =~= old(sink)@ + excerpt_lines_ops(sp@.text.take(0), w));
    }
    while k < sp.text.len()
        invariant
            k <= sp.text@.len(),
            sink@ == old(sink)@ + excerpt_lines_ops(sp@.text.take(k as int), w),
        decreases sp.text@.len() - k,
    {
        let line = &sp.text[k];
        render_lineno(LineNumberPrefix::Lineno(line.line_number), width, sink);
        let mut t = line.text.clone();
        t.append("\n");
        sink.text(t);
        k = k + 1;
        proof {
            assert(sp@.text[k - 1] == sp.text@[k - 1]@);
            assert(sp@.text.take(k as int).drop_last() =~= sp@.text.take(k - 1));
            assert(sp@.text.take(k as int).last() == sp@.text[k - 1]);
            assert(sink@ =~= old(sink)@ + excerpt_lines_ops(sp@.text.take(k as int), w));
        }
    }
    proof {
        assert(sp@.text.take(sp.text@.len() as int) =~= sp@.text);
    }
    render_lineno(LineNumberPrefix::Empty, width, sink);
    render_highlight(sp.column_start, sp.column_end, sp.is_primary, &sp.label, sink);
    proof {
        assert(sink@ =~= old(sink)@ + span_ops(sp@, w));
    }
}

/// Renders the span block: the lead line when a primary span exists, one
/// bare separator row, every span's excerpt and highlight rows in
/// `line_start` order, then the child lines.
#[verifier::loop_isolation(false)]
fn render_spans(diag: &Diagnostic, sink: &mut Sink)
    requires
        diag@.wf(),
        diag@.spans.len() > 0,
        children_ok(diag@.children),
    ensures
        final(sink)@ == old(sink)@ + span_block_ops(diag@),
{
    let ghost dv = diag@;
    let ghost w = gutter_width(dv.spans);
    proof {
        assert(views_of(diag.spans@) == dv.spans);
    }
    let max = max_line_start_exec(&diag.spans);
    let width = count_digits(max);

    let lead = find_lead(&diag.spans);
    match lead {
        Some(sp) => {
            let mut t = sp.file_name.clone();
            t.append(":");
            let ls = usize_to_string(sp.line_start);
            t.append(ls.as_str());
            t.append(":");
            let cs = usize_to_string(sp.column_start);
            t.append(cs.as_str());
            proof {
                assert(t@ =~= lead_text(sp@));
            }
            render_lineno(LineNumberPrefix::Leading(t), width, sink);
        },
        None => {},
    }
    proof {
        assert(sink@ =~= old(sink)@ + lead_ops(dv.spans, w));
    }
    render_lineno(LineNumberPrefix::Empty, width, sink);
    sink.text("\n".to_owned());
    let ghost base = old(sink)@ + lead_ops(dv.spans, w) + lineno_prefix_ops(
        LineNumberPrefixView::Empty,
        w,
    ) + seq![OpV::Text("\n"@)];
    proof {
        assert(sink@ =~= base);
    }

    let sorted = sort_spans(&diag.spans);
    let ghost sv = sort_by_line(dv.spans);
    proof {
        assert(span_ref_views(sorted@) == sv);
        assert forall|k: int| 0 <= k < sv.len() implies (#[trigger] sv[k]).wf() by {
            let j = choose|j: int|
                0 <= j < diag.spans@.len() && span_ref_views(sorted@)[k] == views_of(
                    diag.spans@,
                )[j];
            assert(dv.spans[j].wf());
        }
    }
    let mut i: usize = 0;
    proof {
        assert(spans_ops(sv.take(0), w) =~= Seq::<OpV>::empty());
        assert(sink@ =~= base + spans_ops(sv.take(0), w));
    }
    while i < sorted.len()
        invariant
            i <= sorted@.len(),
            sink@ == base + spans_ops(sv.take(i as int), w),
        decreases sorted@.len() - i,
    {
        let sp: &Span = sorted[i];
        proof {
            assert(sp@ == sv[i as int]);
            assert(sv[i as int].wf());
        }
        render_one_span(sp, width, sink);
        i = i + 1;
        proof {
            assert(sv.take(i as int).drop_last() =~= sv.take(i - 1));
            assert(sv.take(i as int).last() == sv[i - 1]);
            assert(sink@ =~= base + spans_ops(sv.take(i as int), w));
        }
    }
    proof {
        assert(sv.take(sorted@.len() as int) =~= sv);
        assert(sink@ =~= base + spans_ops(sv, w));
    }

    render_children(&diag.children, width, sink);
    proof {
        assert(sink@ =~= old(sink)@ + span_block_ops(dv));
    }
}

/// Renders the child lines of a diagnostic, in input order.
#[verifier::loop_isolation(false)]
fn render_children(children: &Vec<ChildDiagnostic>, width: usize, sink: &mut Sink)
    ensures
        final(sink)@ == old(sink)@ + children_ops(
            children@.map_values(|c: ChildDiagnostic| c@),
            width as nat,
        ),
{
    let ghost w = width as nat;
    let ghost cv = children@.map_values(|c: ChildDiagnostic| c@);
    let mut c: usize = 0;
    proof {
        assert(children_ops(cv.take(0), w) =~= Seq::<OpV>::empty());
        assert(sink@ =~= old(sink)@ + children_ops(cv.take(0), w));
    }
    while c < children.len()
        invariant
            c <= children@.len(),
            sink@ == old(sink)@ + children_ops(cv.take(c as int), w),
        decreases children@.len() - c,
    {
        let child = &children[c];
        proof {
            assert(child@ == cv[c as int]);
        }
        render_lineno(LineNumberPrefix::Note, width, sink);
        child.level.set_attr(true, sink);
        child.level.output(sink);
        let mut t = ": ".to_owned();
        t.append(child.message.as_str());
        t.append("\n");
        sink.text(t);
        c = c + 1;
        proof {
            assert(cv.take(c as int).drop_last() =~= cv.take(c - 1));
            assert(cv.take(c as int).last() == cv[c - 1]);
            assert(sink@ =~= old(sink)@ + children_ops(cv.take(c as int), w));
        }
    }
    proof {
        assert(cv.take(children@.len() as int) =~= cv);
    }
}

/// Law: a diagnostic without spans renders as exactly its header line and
/// one trailing blank line; no span block and no child lines are emitted,
/// and such a diagnostic is always accepted.
pub proof fn lemma_render_no_spans(d: DiagnosticView)
    requires
        d.spans.len() == 0,
    ensures
        render_accepts(d),
        render_ops(d) == header_ops(d) + seq![OpV::Text("\n"@)],
{
    assert(render_ops(d) =~= header_ops(d) + seq![OpV::Text("\n"@)]);
}

/// Law: when spans exist but none is primary, no `--> ` lead line is
/// emitted, while the separator row, the excerpt rows in `line_start` order
/// and the child lines still render.
pub proof fn lemma_render_no_primary(d: DiagnosticView)
    requires
        d.spans.len() > 0,
        forall|i: int| 0 <= i < d.spans.len() ==> !(#[trigger] d.spans[i]).is_primary,
    ensures
        lead_span(d.spans) is None,
        render_ops(d) == header_ops(d) + lineno_prefix_ops(
            LineNumberPrefixView::Empty,
            gutter_width(d.spans),
        ) + seq![OpV::Text("\n"@)] + spans_ops(sort_by_line(d.spans), gutter_width(d.spans))
            + children_ops(d.children, gutter_width(d.spans)) + seq![OpV::Text("\n"@)],
{
    lemma_lead_span_skip(d.spans, d.spans.len() as int);
    assert(d.spans.skip(d.spans.len() as int) =~= Seq::<SpanView>::empty());
    assert(lead_ops(d.spans, gutter_width(d.spans)) =~= Seq::<OpV>::empty());
    assert(render_ops(d) =~= header_ops(d) + lineno_prefix_ops(
        LineNumberPrefixView::Empty,
        gutter_width(d.spans),
    ) + seq![OpV::Text("\n"@)] + spans_ops(sort_by_line(d.spans), gutter_width(d.spans))
        + children_ops(d.children, gutter_width(d.spans)) + seq![OpV::Text("\n"@)]);
}

/// The greatest `line_start` bounds every span's and is attained by one.
pub proof fn lemma_max_line_start(ss: Seq<SpanView>)
    requires
        ss.len() > 0,
    ensures
        forall|i: int| 0 <= i < ss.len() ==> (#[trigger] ss[i]).line_start <= max_line_start(ss),
        exists|i: int| 0 <= i < ss.len() && (#[trigger] ss[i]).line_start == max_line_start(ss),
    decreases ss.len(),
{
    if ss.len() == 1 {
        assert(ss[0] == ss.last());
    } else {
        lemma_max_line_start(ss.drop_last());
        assert forall|i: int| 0 <= i < ss.len() implies (#[trigger] ss[i]).line_start
            <= max_line_start(ss) by {
            if i < ss.len() - 1 {
                assert(ss.drop_last()[i] == ss[i]);
            }
        }
        if ss.last().line_start >= max_line_start(ss.drop_last()) {
            assert(ss[ss.len() - 1].line_start == max_line_start(ss));
        } else {
            let j = choose|j: int|
                0 <= j < ss.drop_last().len() && (#[trigger] ss.drop_last()[j]).line_start
                    == max_line_start(ss.drop_last());
            assert(ss[j] == ss.drop_last()[j]);
            assert(ss[j].line_start == max_line_start(ss));
        }
    }
}

/// Law: one gutter width serves every row of a span block. It is the digit
/// count of the greatest `line_start` among the spans (never of a
/// `line_end`), and a line number of at most that many digits is padded to
/// exactly the gutter width.
pub proof fn lemma_gutter_alignment(ss: Seq<SpanView>, n: nat)
    requires
        ss.len() > 0,
        num_digits(n) <= gutter_width(ss),
    ensures
        gutter_width(ss) == num_digits(max_line_start(ss)),
        forall|i: int| 0 <= i < ss.len() ==> (#[trigger] ss[i]).line_start <= max_line_start(ss),
        exists|i: int| 0 <= i < ss.len() && (#[trigger] ss[i]).line_start == max_line_start(ss),
        spaces(pad_width(gutter_width(ss), n)).len() + dec_str(n).len() == gutter_width(ss),
{
    lemma_max_line_start(ss);
    lemma_dec_str_len(n);
}

/// Law: the highlight row is `column_start` leading spaces (one separating
/// it from the gutter bar, which carries no trailing space, plus
/// `column_start - 1` of offset), then exactly `column_end - column_start`
/// marks — `^` under a primary span and `-` otherwise — then, when a label
/// is present, the label after one space; the row is newline-terminated
/// whether or not a label is present.
pub proof fn lemma_highlight_shape(
    column_start: nat,
    column_end: nat,
    is_primary: bool,
    label: Option<Seq<char>>,
)
    requires
        column_start <= column_end,
    ensures
        highlight_ops(column_start, column_end, is_primary, label) == seq![
            OpV::Text(highlight_text(column_start, column_end, is_primary, label)),
        ],
        forall|i: int|
            0 <= i < column_start ==> highlight_text(column_start, column_end, is_primary, label)[i]
                == ' ',
        forall|i: int|
            column_start <= i < column_end ==> highlight_text(
                column_start,
                column_end,
                is_primary,
                label,
            )[i] == highlight_mark(is_primary),
        label is None ==> highlight_text(column_start, column_end, is_primary, label).len()
            == column_end + 1,
        label matches Some(l) ==> highlight_text(column_start, column_end, is_primary, label).len()
            == column_end + 2 + l.len(),
        highlight_text(column_start, column_end, is_primary, label).last() == '\n',
{
    reveal_strlit(" ");
    reveal_strlit("\n");
    let t = highlight_text(column_start, column_end, is_primary, label);
    assert forall|i: int| 0 <= i < column_start implies t[i] == ' ' by {
        assert(t[i] == spaces(column_start)[i]);
    }
    assert forall|i: int| column_start <= i < column_end implies t[i] == highlight_mark(
        is_primary,
    ) by {
        let marks = repeat_char(highlight_mark(is_primary), (column_end - column_start) as nat);
        assert(t[i] == marks[i - column_start]);
    }
    match label {
        Option::Some(l) => {
            assert(t.last() == (" "@ + l + "\n"@).last());
        },
        Option::None => {
            assert(t.last() == "\n"@.last());
        },
    }
}

/// Law: the child lines are the children's writes concatenated in input
/// order — at any split point, the lines of the first children precede
/// those of the rest, unchanged.
pub proof fn lemma_children_in_order(cs: Seq<ChildDiagnosticView>, width: nat, k: int)
    requires
        0 <= k <= cs.len(),
    ensures
        children_ops(cs, width) == children_ops(cs.take(k), width) + children_ops(
            cs.skip(k),
            width,
        ),
    decreases cs.len(),
{
    if k == cs.len() {
        assert(cs.take(k) =~= cs);
        assert(cs.skip(k) =~= Seq::<ChildDiagnosticView>::empty());
        assert(children_ops(cs.take(k), width) + children_ops(cs.skip(k), width) =~= children_ops(
            cs,
            width,
        ));
    } else {
        lemma_children_in_order(cs.drop_last(), width, k);
        assert(cs.drop_last().take(k) =~= cs.take(k));
        assert(cs.drop_last().skip(k) =~= cs.skip(k).drop_last());
        assert(cs.skip(k).last() == cs.last());
        assert(children_ops(cs.take(k), width) + children_ops(cs.skip(k).drop_last(), width)
            + child_ops(cs.last(), width) =~= children_ops(cs.take(k), width) + (children_ops(
            cs.skip(k).drop_last(),
            width,
        ) + child_ops(cs.last(), width)));
    }
}

/// The first position, in a sorted list, whose span starts strictly after
/// `x`; the length when none does.
spec fn first_gt(s: Seq<SpanView>, x: SpanView) -> int
    decreases s.len(),
{
    if s.len() == 0 {
        0
    } else if s.last().line_start > x.line_start {
        first_gt(s.drop_last(), x)
    } else {
        s.len() as int
    }
}

proof fn lemma_first_gt_props(s: Seq<SpanView>, x: SpanView)
    requires
        sorted_by_line(s),
    ensures
        0 <= first_gt(s, x) <= s.len(),
        forall|k: int| 0 <= k < first_gt(s, x) ==> (#[trigger] s[k]).line_start <= x.line_start,
        first_gt(s, x) < s.len() ==> s[first_gt(s, x)].line_start > x.line_start,
    decreases s.len(),
{
    if s.len() > 0 {
        if s.last().line_start > x.line_start {
            let t = s.drop_last();
            assert forall|i: int, j: int| 0 <= i <= j < t.len() implies t[i].line_start
                <= t[j].line_start by {
                assert(t[i] == s[i]);
                assert(t[j] == s[j]);
            }
            lemma_first_gt_props(t, x);
            let j = first_gt(s, x);
            assert forall|k: int| 0 <= k < j implies (#[trigger] s[k]).line_start
                <= x.line_start by {
                assert(s[k] == t[k]);
            }
            if j < s.len() && j < t.len() {
                assert(s[j] == t[j]);
            }
        } else {
            assert forall|k: int| 0 <= k < s.len() implies (#[trigger] s[k]).line_start
                <= x.line_start by {
                assert(s[k].line_start <= s[s.len() - 1].line_start);
            }
        }
    }
}

/// Law: the excerpt block's span order is a sorted permutation of the input
/// spans — non-strictly ordered by `line_start`, holding exactly the input
/// spans; ties keep input order by the insertion rule itself.
pub proof fn lemma_sort_by_line_is_sorted_permutation(ss: Seq<SpanView>)
    ensures
        sort_by_line(ss).len() == ss.len(),
        sorted_by_line(sort_by_line(ss)),
        sort_by_line(ss).to_multiset() == ss.to_multiset(),
    decreases ss.len(),
{
    broadcast use vstd::seq_lib::group_to_multiset_ensures;

    if ss.len() > 0 {
        lemma_sort_by_line_is_sorted_permutation(ss.drop_last());
        let t = sort_by_line(ss.drop_last());
        let x = ss.last();
        lemma_first_gt_props(t, x);
        let j = first_gt(t, x);
        lemma_insert_by_line_at(t, x, j);
        lemma_sorted_insert(t, x, j);
        vstd::seq_lib::lemma_multiset_commutative(t.take(j) + seq![x], t.skip(j));
        vstd::seq_lib::lemma_multiset_commutative(t.take(j), seq![x]);
        vstd::seq_lib::lemma_multiset_commutative(t.take(j), t.skip(j));
        assert(t.take(j) + t.skip(j) =~= t);
        assert(seq![x] =~= Seq::<SpanView>::empty().push(x));
        assert(Seq::<SpanView>::empty().to_multiset() =~= Multiset::<SpanView>::empty());
        assert(seq![x].to_multiset() =~= Multiset::<SpanView>::empty().insert(x));
        assert(ss.drop_last().push(x) =~= ss);
        assert(ss.to_multiset() =~= t.to_multiset().insert(x));
        assert(sort_by_line(ss).to_multiset() =~= ss.to_multiset());
    }
}

/// Law: each child diagnostic is written as exactly one `= level: message`
/// line: the `= ` gutter leader, then the level prefix in the nested style —
/// a nested note is white, not green — then `: message`; the plain text of
/// its writes is that single newline-terminated line and nothing more.
pub proof fn lemma_child_line_shape(c: ChildDiagnosticView, width: nat)
    ensures
        child_ops(c, width) == lineno_prefix_ops(LineNumberPrefixView::Note, width) + seq![
            OpV::Bold,
            OpV::Fg(level_color(c.level, true)),
            OpV::Text(level_text(c.level)),
            OpV::Reset,
            OpV::Text(": "@ + c.message + "\n"@),
        ],
        c.level == ErrorLevel::Note ==> level_color(c.level, true) == Color::White,
        plain_of(child_ops(c, width)) == spaces(width) + " = "@ + level_text(c.level) + ": "@
            + c.message + "\n"@,
{
    let gutter = lineno_prefix_ops(LineNumberPrefixView::Note, width);
    let tail = seq![
        OpV::Bold,
        OpV::Fg(level_color(c.level, true)),
        OpV::Text(level_text(c.level)),
        OpV::Reset,
        OpV::Text(": "@ + c.message + "\n"@),
    ];
    crate::sink::lemma_plain_of_append(gutter, tail);
    let e = Seq::<OpV>::empty();
    assert(plain_of(e) =~= Seq::<char>::empty());

    let g1 = e.push(OpV::Bold);
    let g2 = g1.push(OpV::Fg(Color::Blue));
    let g3 = g2.push(OpV::Text(spaces(width) + " = "@));
    let g4 = g3.push(OpV::Reset);
    assert(gutter =~= g4);
    lemma_plain_of_push(e, OpV::Bold);
    lemma_plain_of_push(g1, OpV::Fg(Color::Blue));
    lemma_plain_of_push(g2, OpV::Text(spaces(width) + " = "@));
    lemma_plain_of_push(g3, OpV::Reset);
    assert(plain_of(g4) =~= spaces(width) + " = "@);

    let t1 = e.push(OpV::Bold);
    let t2 = t1.push(OpV::Fg(level_color(c.level, true)));
    let t3 = t2.push(OpV::Text(level_text(c.level)));
    let t4 = t3.push(OpV::Reset);
    let t5 = t4.push(OpV::Text(": "@ + c.message + "\n"@));
    assert(tail =~= t5);
    lemma_plain_of_push(e, OpV::Bold);
    lemma_plain_of_push(t1, OpV::Fg(level_color(c.level, true)));
    lemma_plain_of_push(t2, OpV::Text(level_text(c.level)));
    lemma_plain_of_push(t3, OpV::Reset);
    lemma_plain_of_push(t4, OpV::Text(": "@ + c.message + "\n"@));
    assert(plain_of(t5) =~= level_text(c.level) + (": "@ + c.message + "\n"@));

    assert(plain_of(child_ops(c, width)) =~= spaces(width) + " = "@ + level_text(c.level) + ": "@
        + c.message + "\n"@);
}

/// One write extends the plain text by that write's text contribution.
proof fn lemma_plain_of_push(s: Seq<OpV>, op: OpV)
    ensures
        plain_of(s.push(op)) == plain_of(s) + crate::sink::op_text(op),
{
    assert(s.push(op).drop_last() =~= s);
    assert(s.push(op).last() == op);
}

/// Law: rendering is deterministic and repeatable — the writes appended for
/// a diagnostic are a function of the diagnostic value alone, so rendering
/// the same value twice, onto sinks holding equal contents, leaves
/// byte-identical write sequences.
pub proof fn lemma_render_deterministic(d: DiagnosticView, pre1: Seq<OpV>, pre2: Seq<OpV>)
    requires
        pre1 == pre2,
    ensures
        pre1 + render_ops(d) == pre2 + render_ops(d),
{
}

/// A value that renders itself onto a sink as an ordered sequence of styled
/// writes.
pub trait Render {
    /// The writes appended on success: a function of the value alone.
    spec fn render_model(&self) -> Seq<OpV>;

    /// The structural invariants rendering relies on.
    spec fn render_wf(&self) -> bool;

    /// Whether the value meets the renderer's input contract.
    spec fn render_accepted(&self) -> bool;

    /// The input-contract violation reported when the value is rejected.
    spec fn render_rejection(&self) -> RenderError;

    /// Renders the value: on acceptance appends exactly the model writes; on
    /// rejection appends nothing and reports the violation.
    fn render(&self, sink: &mut Sink) -> (r: Result<(), RenderError>)
        requires
            self.render_wf(),
        ensures
            (r is Ok) <==> self.render_accepted(),
            self.render_accepted() ==> final(sink)@ == old(sink)@ + self.render_model(),
            !self.render_accepted() ==> (final(sink)@ == old(sink)@ && r == Err::<
                (),
                RenderError,
            >(self.render_rejection())),
    ;
}

impl Render for Diagnostic {
    open spec fn render_model(&self) -> Seq<OpV> {
        render_ops(self@)
    }

    open spec fn render_wf(&self) -> bool {
        self@.wf()
    }

    open spec fn render_accepted(&self) -> bool {
        render_accepts(self@)
    }

    open spec fn render_rejection(&self) -> RenderError {
        render_error_of(self@)
    }

    /// Renders one diagnostic: header line, span block when any span exists,
    /// and a trailing blank line. The input contract is validated up front,
    /// so a rejected diagnostic leaves the sink untouched.
    #[verifier::loop_isolation(false)]
    fn render(&self, sink: &mut Sink) -> (r: Result<(), RenderError>) {
        let ghost dv = self@;
        let mut i: usize = 0;
        while i < self.spans.len()
            invariant
                i <= self.spans@.len(),
                forall|k: int| 0 <= k < i ==> (#[trigger] dv.spans[k]).text_len_ok(),
            decreases self.spans@.len() - i,
        {
            let sp = &self.spans[i];
            proof {
                assert(dv.spans[i as int] == self.spans@[i as int]@);
                assert(dv.spans[i as int].wf());
            }
            if sp.text.len() != (sp.line_end - sp.line_start) + 1 {
                proof {
                    assert(!dv.spans[i as int].text_len_ok());
                }
                return Err(RenderError::SpanTextLengthMismatch);
            }
            i = i + 1;
        }
        proof {
            assert(spans_text_len_ok(dv.spans));
        }
        if self.spans.len() > 0 {
            let mut c: usize = 0;
            while c < self.children.len()
                invariant
                    c <= self.children@.len(),
                    forall|k: int| 0 <= k < c ==> child_level_ok((#[trigger] dv.children[k]).level),
                decreases self.children@.len() - c,
            {
                proof {
                    assert(dv.children[c as int] == self.children@[c as int]@);
                }
                let ok = match self.children[c].level {
                    ErrorLevel::Note => true,
                    ErrorLevel::Help => true,
                    _ => false,
                };
                if !ok {
                    return Err(RenderError::UnsupportedChildLevel);
                }
                c = c + 1;
            }
            proof {
                assert(children_ok(dv.children));
            }
        }
        proof {
            assert(render_accepts(dv));
        }

        self.level.set_attr(false, sink);
        self.level.output(sink);
        match &self.code {
            Some(code) => {
                self.level.set_attr(false, sink);
                let mut t = "[".to_owned();
                t.append(code.as_str());
                t.append("]");
                sink.text(t);
            },
            None => {},
        }
        sink.bold();
        sink.fg(Color::White);
        let mut m = ": ".to_owned();
        m.append(self.message.as_str());
        m.append("\n");
        sink.text(m);
        sink.reset();
        proof {
            assert(sink@ =~= old(sink)@ + header_ops(dv));
        }
        if self.spans.len() > 0 {
            render_spans(self, sink);
        }
        sink.text("\n".to_owned());
        proof {
            assert(sink@ =~= old(sink)@ + render_ops(dv));
        }
        Ok(())
    }
}

} // verus!
