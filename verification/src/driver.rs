//! From a payload to the lines of the status line.
//!
//! The host reads the payload and hands over what it parsed, or why it could
//! not; it writes out the lines that come back.

use vstd::prelude::*;
use vstd::string::StringExecFns;

use crate::data_context::DataContext;
use crate::diagnostics::{lemma_reports, texts, Messages};
use crate::layout::laws::{
    all_answer_once, line_comes_out_one_way, opens_once, unstyled_output_is_the_text,
};
use crate::layout::model::{may_show, runs_ansi, ReportView};
use crate::layout::{may_emit, may_open, may_show_ansi, render_with_warn, LayoutObservers};
use crate::segments::builder::dispatch::build_default_segments;
use crate::segments::builder::catalog::HostSegment;
use crate::segments::builder::model::{default_slots, may_be_default, slots_of};
use crate::segments::segment::{LineItem, RenderContext, SegmentBox};
use crate::text::{number_value, parse_number};
use crate::text_laws::{
    digits_are_read_by_their_place, is_digits, lemma_mentions, mentions, place_value,
};
use crate::theme::{run_views, runs_text, RunView, Style, StyledRun};
use crate::value::{Table, Value};

verus! {

// --- Terminal width -----------------------------------------------------

/// The width where neither the terminal nor `COLUMNS` gives one.
pub const DEFAULT_TERMINAL_WIDTH: u16 = 200;

/// The width of the terminal, and what there is to report: what the terminal
/// itself says, else a `COLUMNS` that is a positive number, else the default.
/// A `COLUMNS` that is set and no such number is reported.
pub open spec fn terminal_width(os_width: Option<u16>, columns: Option<Seq<char>>) -> (
    int,
    Seq<Seq<char>>,
) {
    match (os_width, columns) {
        (Some(w), _) => (w as int, seq![]),
        (None, None) => (200, seq![]),
        (None, Some(raw)) => match number_value(raw, 0xffff) {
            Ok(n) => if n > 0 {
                (n as int, seq![])
            } else {
                (200, seq!["COLUMNS='"@ + raw + "' is zero; using 200 cells"@])
            },
            Err(fault) => (
                200,
                seq![
                    "COLUMNS='"@ + raw + "' unparseable ("@ + fault.words() + "); using 200 cells"@,
                ],
            ),
        },
    }
}

/// What a text holds, where there is one.
pub open spec fn text_of(s: Option<&str>) -> Option<Seq<char>> {
    match s {
        Some(s) => Some(s@),
        None => None,
    }
}

/// The width of the terminal in cells.
pub fn resolve_terminal_width(
    os_width: Option<u16>,
    columns: Option<&str>,
    warnings: &mut Messages,
) -> (r: u16)
    ensures
        r == terminal_width(os_width, text_of(columns)).0,
        final(warnings)@ == old(warnings)@ + terminal_width(os_width, text_of(columns)).1,
{
    let ghost before = warnings@;
    proof {
        assert(before + seq![] =~= before);
    }
    if let Some(w) = os_width {
        return w;
    }
    let raw = match columns {
        Some(raw) => raw,
        None => {
            return DEFAULT_TERMINAL_WIDTH;
        },
    };
    let mut message = "COLUMNS='".to_owned();
    message.append(raw);
    match parse_number(raw, 0xffff) {
        Ok(parsed) => {
            if parsed > 0 {
                return parsed as u16;
            }
            message.append("' is zero; using 200 cells");
        },
        Err(fault) => {
            message.append("' unparseable (");
            message.append(fault.message());
            message.append("); using 200 cells");
        },
    }
    proof {
        assert(before + seq![message@] =~= before.push(message@));
    }
    warnings.push(message);
    DEFAULT_TERMINAL_WIDTH
}

/// Where the terminal does not say how wide it is, the width is never zero.
pub proof fn assumed_width_is_positive(columns: Option<Seq<char>>)
    ensures
        terminal_width(None, columns).0 > 0,
{
}

// --- A run --------------------------------------------------------------

/// How to write to the terminal.
#[non_exhaustive]
pub struct RunContext<F> {
    /// The escape sequence that opens a style.
    pub sgr_open: F,
    pub terminal_width: u16,
    /// Where the host looks for a repository; `None` for no look.
    pub cwd: Option<String>,
    /// Does the terminal know hyperlinks?
    pub hyperlinks: bool,
}

impl<F> RunContext<F> {
    /// The context of these parts. A width of zero is no budget at all: every
    /// segment that may go goes.
    #[must_use]
    pub fn new(sgr_open: F, terminal_width: u16, cwd: Option<String>, hyperlinks: bool) -> (r:
        RunContext<F>)
        ensures
            r == (RunContext { sgr_open, terminal_width, cwd, hyperlinks }),
    {
        RunContext { sgr_open, terminal_width, cwd, hyperlinks }
    }
}

/// What a run writes: lines for each of the two streams, and for the log
/// notices at the level of warnings and traces at that of debugging.
#[derive(Debug, PartialEq, Eq)]
pub struct RunOutput {
    pub stdout: Messages,
    pub stderr: Messages,
    pub notices: Messages,
    pub traces: Messages,
}

/// What a run writes, as text.
pub struct OutputView {
    pub stdout: Seq<Seq<char>>,
    pub stderr: Seq<Seq<char>>,
    pub notices: Seq<Seq<char>>,
    pub traces: Seq<Seq<char>>,
}

impl View for RunOutput {
    type V = OutputView;

    open spec fn view(&self) -> OutputView {
        OutputView {
            stdout: self.stdout@,
            stderr: self.stderr@,
            notices: self.notices@,
            traces: self.traces@,
        }
    }
}

/// The reports `warnings`, each under the program's name.
pub open spec fn signed(warnings: Seq<Seq<char>>) -> Seq<Seq<char>> {
    Seq::new(warnings.len(), |i: int| "linesmith: "@ + warnings[i])
}

/// One line as it came out.
pub struct LineView {
    pub text: Seq<char>,
    pub report: ReportView,
}

/// May the line `items` come out as `line`?
pub open spec fn may_come_out<F: Fn(&Style) -> String>(
    items: Seq<LineItem>,
    data: DataContext,
    ctx: RunContext<F>,
    line: LineView,
) -> bool {
    may_show_ansi(
        items,
        data,
        ctx.terminal_width,
        ctx.sgr_open,
        ctx.hyperlinks,
        line.text,
        line.report,
    )
}

/// What is written where the lines come out as `lines`.
pub open spec fn written(lines: Seq<LineView>) -> OutputView
    decreases lines.len(),
{
    if lines.len() == 0 {
        OutputView { stdout: seq![], stderr: seq![], notices: seq![], traces: seq![] }
    } else {
        let before = written(lines.drop_last());
        OutputView {
            stdout: before.stdout.push(lines.last().text),
            stderr: before.stderr + signed(lines.last().report.warnings),
            notices: before.notices + lines.last().report.notices,
            traces: before.traces + lines.last().report.traces,
        }
    }
}

/// May the lines come out as `shown`, each by itself on the same data?
pub open spec fn may_come_out_all<F: Fn(&Style) -> String>(
    lines: Seq<&[LineItem]>,
    data: DataContext,
    ctx: RunContext<F>,
    shown: Seq<LineView>,
) -> bool {
    &&& shown.len() == lines.len()
    &&& forall|i: int|
        0 <= i < lines.len() ==> #[trigger] may_come_out(lines[i]@, data, ctx, shown[i])
}

/// May a run of `lines` write `out`?
pub open spec fn may_write_lines<F: Fn(&Style) -> String>(
    data: Result<&DataContext, &str>,
    lines: Seq<&[LineItem]>,
    ctx: RunContext<F>,
    out: OutputView,
) -> bool {
    match data {
        Err(reason) => out == refused(reason@),
        Ok(d) => exists|shown: Seq<LineView>| #[trigger]
            may_come_out_all(lines, *d, ctx, shown) && out == written(shown),
    }
}

/// May a run of the one line `items` write `out`?
pub open spec fn may_write_line<F: Fn(&Style) -> String>(
    data: Result<&DataContext, &str>,
    items: Seq<LineItem>,
    ctx: RunContext<F>,
    out: OutputView,
) -> bool {
    match data {
        Err(reason) => out == refused(reason@),
        Ok(d) => exists|line: LineView| #[trigger]
            may_come_out(items, *d, ctx, line) && out == written(seq![line]),
    }
}

/// What is written about a payload that could not be parsed: one mark, and
/// the reason.
pub open spec fn refused(reason: Seq<char>) -> OutputView {
    OutputView {
        stdout: seq!["?"@],
        stderr: seq!["linesmith: parse: "@ + reason],
        notices: seq![],
        traces: seq![],
    }
}

fn refuse(reason: &str) -> (r: RunOutput)
    ensures
        r@ == refused(reason@),
{
    let mut out = RunOutput {
        stdout: Messages::new(),
        stderr: Messages::new(),
        notices: Messages::new(),
        traces: Messages::new(),
    };
    let mut message = "linesmith: parse: ".to_owned();
    message.append(reason);
    out.stderr.push(message);
    out.stdout.push("?".to_owned());
    assert(out@.stdout =~= refused(reason@).stdout);
    assert(out@.stderr =~= refused(reason@).stderr);
    out
}

fn sign_all(warnings: &Messages, stderr: &mut Messages)
    ensures
        final(stderr)@ == old(stderr)@ + signed(warnings@),
{
    let ghost before = stderr@;
    let mut i: usize = 0;
    while i < warnings.lines.len()
        invariant
            i <= warnings.lines@.len(),
            stderr@ == before + signed(warnings@).take(i as int),
        decreases warnings.lines@.len() - i,
    {
        let mut message = "linesmith: ".to_owned();
        message.append(warnings.lines[i].as_str());
        proof {
            assert(message@ == signed(warnings@)[i as int]);
            assert(before + signed(warnings@).take(i + 1) =~= (before + signed(warnings@).take(
                i as int,
            )).push(message@));
        }
        stderr.push(message);
        i += 1;
    }
    proof {
        assert(signed(warnings@).take(i as int) =~= signed(warnings@));
    }
}

fn pass_on(from: &Messages, to: &mut Messages)
    ensures
        final(to)@ == old(to)@ + from@,
{
    let ghost before = to@;
    let mut i: usize = 0;
    while i < from.lines.len()
        invariant
            i <= from.lines@.len(),
            to@ == before + from@.take(i as int),
        decreases from.lines@.len() - i,
    {
        let message = from.lines[i].as_str().to_owned();
        proof {
            assert(message@ == from@[i as int]);
            assert(before + from@.take(i + 1) =~= (before + from@.take(i as int)).push(message@));
        }
        to.push(message);
        i += 1;
    }
    proof {
        assert(from@.take(i as int) =~= from@);
    }
}

/// Render each of `lines` by itself within the whole width, all on the same
/// data. A line without segments is still a line. Where the payload could not
/// be parsed, one mark stands in place of all lines.
pub fn run_lines_with_context<F: Fn(&Style) -> String>(
    data: Result<&DataContext, &str>,
    lines: &[&[LineItem]],
    ctx: &RunContext<F>,
) -> (r: RunOutput)
    requires
        forall|i: int| 0 <= i < lines@.len() ==> (#[trigger] lines@[i])@.len() <= 0x1_0001,
        forall|style: &Style| #[trigger] call_requires(ctx.sgr_open, (style,)),
    ensures
        may_write_lines(data, lines@, *ctx, r@),
{
    let data = match data {
        Ok(data) => data,
        Err(reason) => {
            return refuse(reason);
        },
    };
    let mut out = RunOutput {
        stdout: Messages::new(),
        stderr: Messages::new(),
        notices: Messages::new(),
        traces: Messages::new(),
    };
    let ghost mut shown: Seq<LineView> = seq![];
    let mut i: usize = 0;
    while i < lines.len()
        invariant
            i <= lines@.len(),
            shown.len() == i,
            forall|i: int| 0 <= i < lines@.len() ==> (#[trigger] lines@[i])@.len() <= 0x1_0001,
            forall|style: &Style| #[trigger] call_requires(ctx.sgr_open, (style,)),
            forall|k: int|
                0 <= k < i ==> #[trigger] may_come_out(lines@[k]@, *data, *ctx, shown[k]),
            out@ == written(shown),
        decreases lines@.len() - i,
    {
        let mut observers = LayoutObservers::new();
        assert(lines@[i as int]@.len() <= 0x1_0001);
        let line = render_with_warn(
            lines[i],
            data,
            ctx.terminal_width,
            &mut observers,
            &ctx.sgr_open,
            ctx.hyperlinks,
        );
        let ghost view = LineView { text: line@, report: observers@ };
        proof {
            lemma_first_report();
            assert(may_come_out(lines@[i as int]@, *data, *ctx, view));
            assert(shown.push(view).drop_last() =~= shown);
            assert(shown.push(view).last() == view);
            shown = shown.push(view);
        }
        sign_all(&observers.warnings, &mut out.stderr);
        pass_on(&observers.notices, &mut out.notices);
        pass_on(&observers.traces, &mut out.traces);
        out.stdout.push(line);
        i += 1;
    }
    assert(may_come_out_all(lines@, *data, *ctx, shown));
    out
}

proof fn lemma_first_report()
    ensures
        forall|report: ReportView| #[trigger]
            ReportView::empty().then_report(report) == report,
{
    assert forall|report: ReportView| #[trigger]
        ReportView::empty().then_report(report) == report by {
        assert(ReportView::empty().then_report(report).warnings =~= report.warnings);
        assert(ReportView::empty().then_report(report).notices =~= report.notices);
        assert(ReportView::empty().then_report(report).traces =~= report.traces);
        assert(ReportView::empty().then_report(report).decisions =~= report.decisions);
    }
}

/// Render one line.
pub fn run_with_context<F: Fn(&Style) -> String>(
    data: Result<&DataContext, &str>,
    items: &[LineItem],
    ctx: &RunContext<F>,
) -> (r: RunOutput)
    requires
        items@.len() <= 0x1_0001,
        forall|style: &Style| #[trigger] call_requires(ctx.sgr_open, (style,)),
    ensures
        may_write_line(data, items@, *ctx, r@),
{
    let mut lines: Vec<&[LineItem]> = Vec::new();
    lines.push(items);
    let r = run_lines_with_context(data, lines.as_slice(), ctx);
    proof {
        if let Ok(d) = data {
            let shown = choose|shown: Seq<LineView>| #[trigger]
                may_come_out_all(lines@, *d, *ctx, shown) && r@ == written(shown);
            assert(may_come_out(lines@[0]@, *d, *ctx, shown[0]));
            assert(shown =~= seq![shown[0]]);
        }
    }
    r
}

/// May a run write `out` of the line `items`, unstyled?
pub open spec fn may_write_plain(
    data: DataContext,
    items: Seq<LineItem>,
    width: u16,
    out: OutputView,
) -> bool {
    exists|runs: Seq<RunView>, report: ReportView|
        {
            &&& #[trigger] may_show(items, data, width, runs, report)
            &&& out.stdout == seq![runs_text(runs)]
            &&& out.stderr == signed(report.warnings)
            &&& out.notices == report.notices
            &&& out.traces == report.traces
        }
}

/// Render one line of these items, unstyled.
pub fn run_with_segments_and_width(
    data: Result<&DataContext, &str>,
    items: &[LineItem],
    terminal_width: u16,
) -> (r: RunOutput)
    requires
        items@.len() <= 0x1_0001,
    ensures
        match data {
            Err(reason) => r@ == refused(reason@),
            Ok(d) => may_write_plain(*d, items@, terminal_width, r@),
        },
{
    let sgr_open = |style: &Style| -> (open: String)
        ensures
            open@.len() == 0,
        { String::new() };
    let ctx = RunContext::new(sgr_open, terminal_width, None, false);
    let r = run_with_context(data, items, &ctx);
    proof {
        if let Ok(d) = data {
            let line = choose|line: LineView| #[trigger]
                may_come_out(items@, *d, ctx, line) && r@ == written(seq![line]);
            let runs = choose|runs: Seq<StyledRun>|
                {
                    &&& #[trigger] may_emit(ctx.sgr_open, runs, ctx.hyperlinks, line.text)
                    &&& may_show(items@, *d, ctx.terminal_width, run_views(runs), line.report)
                };
            let opens = choose|opens: Seq<String>|
                {
                    &&& #[trigger] may_open(ctx.sgr_open, runs, opens)
                    &&& line.text == runs_ansi(run_views(runs), texts(opens), ctx.hyperlinks)
                };
            assert forall|i: int| 0 <= i < runs.len() implies (#[trigger] texts(opens)[i]).len()
                == 0 by {
                assert(call_ensures(ctx.sgr_open, (&runs[i].style,), opens[i]));
            }
            unstyled_output_is_the_text(run_views(runs), texts(opens));
            assert(seq![line].drop_last() =~= Seq::<LineView>::empty());
            let none = written(Seq::<LineView>::empty());
            assert(written(seq![line]) == (OutputView {
                stdout: none.stdout.push(line.text),
                stderr: none.stderr + signed(line.report.warnings),
                notices: none.notices + line.report.notices,
                traces: none.traces + line.report.traces,
            }));
            lemma_reports(signed(line.report.warnings), seq![], seq![]);
            lemma_reports(line.report.notices, seq![], seq![]);
            lemma_reports(line.report.traces, seq![], seq![]);
            assert(r@.stdout =~= seq![runs_text(run_views(runs))]);
            assert(may_show(items@, *d, terminal_width, run_views(runs), line.report));
        }
    }
    r
}

proof fn lemma_default_line_is_short(segments: Seq<Option<SegmentBox>>)
    ensures
        default_slots(segments).len() <= 2 * segments.len(),
    decreases segments.len(),
{
    if segments.len() > 0 {
        lemma_default_line_is_short(segments.drop_last());
    }
}

/// May a run on `host` write `out`, for the default line?
pub open spec fn may_write_default<H: Fn(&str, Option<&Table<Value>>) -> HostSegment>(
    data: DataContext,
    width: u16,
    host: H,
    out: OutputView,
) -> bool {
    exists|items: Seq<LineItem>, segments: Seq<Option<SegmentBox>>|
        {
            &&& #[trigger] may_be_default(host, segments)
            &&& slots_of(items) == default_slots(segments)
            &&& #[trigger] may_write_plain(data, items, width, out)
        }
}

/// May a run on `host` write `out` within `width` cells?
pub open spec fn may_run<H: Fn(&str, Option<&Table<Value>>) -> HostSegment>(
    data: Result<&DataContext, &str>,
    width: int,
    host: H,
    out: OutputView,
) -> bool {
    match data {
        Err(reason) => out == refused(reason@),
        Ok(d) => may_write_default(*d, width as u16, host, out),
    }
}

/// Render the default line, unstyled, within `terminal_width` cells.
pub fn run_with_width<H: Fn(&str, Option<&Table<Value>>) -> HostSegment>(
    data: Result<&DataContext, &str>,
    terminal_width: u16,
    host: &H,
) -> (r: RunOutput)
    requires
        forall|i: &str, e: Option<&Table<Value>>| #[trigger] call_requires(host, (i, e)),
    ensures
        may_run(data, terminal_width as int, *host, r@),
{
    let items = build_default_segments(host);
    proof {
        let segments = choose|segments: Seq<Option<SegmentBox>>| #[trigger]
            may_be_default(*host, segments) && slots_of(items@) == default_slots(segments);
        lemma_default_line_is_short(segments);
        assert(slots_of(items@).len() == items@.len());
    }
    run_with_segments_and_width(data, items.as_slice(), terminal_width)
}

/// Render the default line, unstyled, within the width that the terminal or
/// `COLUMNS` gives.
pub fn run<H: Fn(&str, Option<&Table<Value>>) -> HostSegment>(
    data: Result<&DataContext, &str>,
    os_width: Option<u16>,
    columns: Option<&str>,
    host: &H,
) -> (r: RunOutput)
    requires
        forall|i: &str, e: Option<&Table<Value>>| #[trigger] call_requires(host, (i, e)),
    ensures
        exists|inner: OutputView| #[trigger]
            may_run(data, terminal_width(os_width, text_of(columns)).0, *host, inner) && r@ == (
            OutputView {
                notices: terminal_width(os_width, text_of(columns)).1 + inner.notices,
                ..inner
            }),
{
    let mut notices = Messages::new();
    let width = resolve_terminal_width(os_width, columns, &mut notices);
    let mut out = run_with_width(data, width, host);
    let ghost inner = out@;
    pass_on(&out.notices, &mut notices);
    out.notices = notices;
    proof {
        let reports = terminal_width(os_width, text_of(columns)).1;
        assert(may_run(data, width as int, *host, inner));
        lemma_reports(reports, seq![], seq![]);
        assert(out@ == (OutputView { notices: reports + inner.notices, ..inner }));
    }
    out
}

/// A run writes one line for each line that was asked for, whatever the
/// segments do.
pub proof fn every_line_is_written(lines: Seq<LineView>)
    ensures
        written(lines).stdout.len() == lines.len(),
        forall|i: int| 0 <= i < lines.len() ==> #[trigger] written(lines).stdout[i]
            == lines[i].text,
    decreases lines.len(),
{
    if lines.len() > 0 {
        every_line_is_written(lines.drop_last());
        assert forall|i: int| 0 <= i < lines.len() implies #[trigger] written(lines).stdout[i]
            == lines[i].text by {
            if i < lines.len() - 1 {
                assert(written(lines.drop_last()).stdout[i] == lines.drop_last()[i].text);
            }
        }
    }
}

/// Every segment of every line has one answer to each question.
pub open spec fn lines_answer_once(lines: Seq<&[LineItem]>, data: DataContext, width: u16) -> bool {
    forall|i: int|
        0 <= i < lines.len() ==> all_answer_once(
            (#[trigger] lines[i])@,
            data,
            (RenderContext { terminal_width: width }),
        )
}

/// Where every segment has one answer to each question and the opener one for
/// a style, `run_lines_with_context` writes line for line what separate calls
/// of `render_with_warn` give, each within the whole width: `separate` is what
/// those calls gave.
pub proof fn lines_are_those_of_separate_calls<F: Fn(&Style) -> String>(
    data: &DataContext,
    lines: Seq<&[LineItem]>,
    ctx: RunContext<F>,
    separate: Seq<LineView>,
    out: OutputView,
)
    requires
        lines_answer_once(lines, *data, ctx.terminal_width),
        opens_once(ctx.sgr_open),
        may_write_lines(Ok(data), lines, ctx, out),
        separate.len() == lines.len(),
        forall|i: int|
            0 <= i < lines.len() ==> may_show_ansi(
                lines[i]@,
                *data,
                ctx.terminal_width,
                ctx.sgr_open,
                ctx.hyperlinks,
                (#[trigger] separate[i]).text,
                separate[i].report,
            ),
    ensures
        out == written(separate),
        out.stdout.len() == lines.len(),
        forall|i: int| 0 <= i < lines.len() ==> #[trigger] out.stdout[i] == separate[i].text,
{
    let shown = choose|shown: Seq<LineView>| #[trigger]
        may_come_out_all(lines, *data, ctx, shown) && out == written(shown);
    assert forall|i: int| 0 <= i < lines.len() implies #[trigger] shown[i] == separate[i] by {
        assert(may_come_out(lines[i]@, *data, ctx, shown[i]));
        line_comes_out_one_way(
            lines[i]@,
            *data,
            ctx.terminal_width,
            ctx.sgr_open,
            ctx.hyperlinks,
            (shown[i].text, separate[i].text),
            (shown[i].report, separate[i].report),
        );
    }
    assert(shown =~= separate);
    every_line_is_written(separate);
}

/// Where every segment has one answer to each question and the opener one for
/// a style, `run_with_context` writes what `run_lines_with_context` writes of
/// that one line, to every stream; so it does where the payload could not be
/// parsed.
pub proof fn one_line_is_a_run_of_one<F: Fn(&Style) -> String>(
    data: Result<&DataContext, &str>,
    items: &[LineItem],
    ctx: RunContext<F>,
    one: OutputView,
    many: OutputView,
)
    requires
        data matches Ok(d) ==> lines_answer_once(seq![items], *d, ctx.terminal_width),
        opens_once(ctx.sgr_open),
        may_write_line(data, items@, ctx, one),
        may_write_lines(data, seq![items], ctx, many),
    ensures
        one == many,
{
    if let Ok(d) = data {
        let line = choose|line: LineView| #[trigger]
            may_come_out(items@, *d, ctx, line) && one == written(seq![line]);
        assert(seq![items][0] == items);
        lines_are_those_of_separate_calls(d, seq![items], ctx, seq![line], many);
    }
}

/// The width is what the terminal says, whatever `COLUMNS` holds. Where it says
/// nothing, `COLUMNS` counts if it writes a number from 1 to what a width can
/// hold; else the width is the default, and a `COLUMNS` that is set is reported
/// as it was written.
pub proof fn width_goes_by_terminal_then_columns(os_width: Option<u16>, columns: Option<Seq<char>>)
    ensures
        ({
            let (width, warnings) = terminal_width(os_width, columns);
            &&& os_width matches Some(w) ==> width == w && warnings.len() == 0
            &&& os_width is None && columns is None ==> width == DEFAULT_TERMINAL_WIDTH
                && warnings.len() == 0
            &&& os_width is None && columns is Some ==> {
                let raw = columns->0;
                let digits = if raw.len() > 1 && raw[0] == '+' {
                    raw.skip(1)
                } else {
                    raw
                };
                let good = raw.len() > 0 && is_digits(digits) && 0 < place_value(digits) <= 0xffff;
                &&& good ==> width == place_value(digits) && warnings.len() == 0
                &&& !good ==> width == DEFAULT_TERMINAL_WIDTH && warnings.len() == 1 && mentions(
                    warnings[0],
                    raw,
                )
            }
        }),
{
    match columns {
        Some(raw) => {
            let digits = if raw.len() > 1 && raw[0] == '+' {
                raw.skip(1)
            } else {
                raw
            };
            digits_are_read_by_their_place(digits, 0xffff);
            lemma_mentions("COLUMNS='"@, raw, "' is zero; using 200 cells"@);
            let zero = "COLUMNS='"@ + raw + "' is zero; using 200 cells"@;
            assert(mentions(zero, raw));
            match number_value(raw, 0xffff) {
                Err(fault) => {
                    let rest = "' unparseable ("@ + fault.words() + "); using 200 cells"@;
                    lemma_mentions("COLUMNS='"@, raw, rest);
                    assert("COLUMNS='"@ + raw + "' unparseable ("@ + fault.words()
                        + "); using 200 cells"@ =~= "COLUMNS='"@ + raw + rest);
                },
                Ok(_) => {},
            }
        },
        None => {},
    }
}

/// A call says the width by the terminal, then by `COLUMNS`, and tells of a
/// `COLUMNS` that is of no use behind what was told before.
pub proof fn resolved_width_goes_by_terminal_then_columns(
    os_width: Option<u16>,
    columns: Option<&str>,
    width: u16,
)
    ensures
        forall|told: &mut Messages| #[trigger]
            call_ensures(resolve_terminal_width, (os_width, columns, told), width) ==> {
                &&& os_width matches Some(w) ==> width == w && final(told)@ == (*told)@
                &&& os_width is None && columns is None ==> width == DEFAULT_TERMINAL_WIDTH
                    && final(told)@ == (*told)@
                &&& os_width is None && columns is Some ==> {
                    let raw = columns->0@;
                    let digits = if raw.len() > 1 && raw[0] == '+' {
                        raw.skip(1)
                    } else {
                        raw
                    };
                    let good = raw.len() > 0 && is_digits(digits) && 0 < place_value(digits)
                        <= 0xffff;
                    &&& good ==> width == place_value(digits) && final(told)@ == (*told)@
                    &&& !good ==> width == DEFAULT_TERMINAL_WIDTH && final(told)@.len() == (
                    *told)@.len() + 1 && mentions(final(told)@.last(), raw)
                }
            },
{
    width_goes_by_terminal_then_columns(os_width, text_of(columns));
    assert forall|told: &mut Messages| #[trigger]
        call_ensures(resolve_terminal_width, (os_width, columns, told), width) implies (
    terminal_width(os_width, text_of(columns)).1.len() == 0 ==> final(told)@ == (*told)@) by {
        assert(terminal_width(os_width, text_of(columns)).1.len() == 0 ==> final(told)@ =~= (
        *told)@);
    }
}

/// Lines are written one behind the other: each gives one line of output, its
/// warnings under the program's name, and its notices and traces as they are.
pub proof fn each_line_is_written_by_itself(a: Seq<LineView>, b: Seq<LineView>, line: LineView)
    ensures
        written(a + b).stdout == written(a).stdout + written(b).stdout,
        written(a + b).stderr == written(a).stderr + written(b).stderr,
        written(a + b).notices == written(a).notices + written(b).notices,
        written(a + b).traces == written(a).traces + written(b).traces,
        written(seq![line]).stdout == seq![line.text],
        written(seq![line]).notices == line.report.notices,
        written(seq![line]).traces == line.report.traces,
        written(seq![line]).stderr.len() == line.report.warnings.len(),
        forall|i: int|
            0 <= i < line.report.warnings.len() ==> #[trigger] written(seq![line]).stderr[i]
                == seq!['l', 'i', 'n', 'e', 's', 'm', 'i', 't', 'h', ':', ' ']
                + line.report.warnings[i],
    decreases b.len(),
{
    reveal_with_fuel(written, 2);
    reveal_strlit("linesmith: ");
    assert("linesmith: "@ =~= seq!['l', 'i', 'n', 'e', 's', 'm', 'i', 't', 'h', ':', ' ']);
    assert(seq![line].drop_last() =~= seq![]);
    assert(written(seq![line]).stdout =~= seq![line.text]);
    assert(written(seq![line]).notices =~= line.report.notices);
    assert(written(seq![line]).traces =~= line.report.traces);
    assert(written(seq![line]).stderr =~= signed(line.report.warnings));
    if b.len() == 0 {
        assert(a + b =~= a);
        assert(written(a + b).stdout =~= written(a).stdout + written(b).stdout);
        assert(written(a + b).stderr =~= written(a).stderr + written(b).stderr);
        assert(written(a + b).notices =~= written(a).notices + written(b).notices);
        assert(written(a + b).traces =~= written(a).traces + written(b).traces);
    } else {
        each_line_is_written_by_itself(a, b.drop_last(), line);
        assert((a + b).drop_last() =~= a + b.drop_last());
        assert((a + b).last() == b.last());
        assert(written(a + b).stdout =~= written(a).stdout + written(b).stdout);
        assert(written(a + b).stderr =~= written(a).stderr + written(b).stderr);
        assert(written(a + b).notices =~= written(a).notices + written(b).notices);
        assert(written(a + b).traces =~= written(a).traces + written(b).traces);
    }
}

/// Where the payload could not be parsed, one mark is all that is shown, and
/// the reason is told once.
pub proof fn unreadable_payload_shows_a_mark<F: Fn(&Style) -> String>(
    reason: &str,
    lines: Seq<&[LineItem]>,
    ctx: RunContext<F>,
    out: OutputView,
)
    requires
        may_write_lines(Err(reason), lines, ctx, out),
    ensures
        out.stdout == seq![seq!['?']],
        out.stderr.len() == 1,
        reason@.is_suffix_of(out.stderr[0]),
        out.notices.len() == 0,
        out.traces.len() == 0,
{
    reveal_strlit("?");
    assert("?"@ =~= seq!['?']);
    let line = "linesmith: parse: "@ + reason@;
    assert(line.skip(line.len() - reason@.len()) =~= reason@);
}

/// Of a payload that could be parsed, every line gives one line of output, in
/// order, each within the whole width and on the same data.
pub proof fn every_line_is_shown<F: Fn(&Style) -> String>(
    data: &DataContext,
    lines: Seq<&[LineItem]>,
    ctx: RunContext<F>,
    out: OutputView,
    i: int,
) -> (report: ReportView)
    requires
        may_write_lines(Ok(data), lines, ctx, out),
        0 <= i < lines.len(),
    ensures
        out.stdout.len() == lines.len(),
        may_show_ansi(
            lines[i]@,
            *data,
            ctx.terminal_width,
            ctx.sgr_open,
            ctx.hyperlinks,
            out.stdout[i],
            report,
        ),
{
    let shown = choose|shown: Seq<LineView>| #[trigger]
        may_come_out_all(lines, *data, ctx, shown) && out == written(shown);
    every_line_is_written(shown);
    assert(may_come_out(lines[i]@, *data, ctx, shown[i]));
    shown[i].report
}

/// A run of the default line shows one line, whatever the segments do, and
/// signs everything that it tells of them.
pub proof fn default_run_shows_one_line<H: Fn(&str, Option<&Table<Value>>) -> HostSegment>(
    data: &DataContext,
    width: int,
    host: H,
    out: OutputView,
) -> (runs: Seq<RunView>)
    requires
        may_run(Ok(data), width, host, out),
    ensures
        out.stdout == seq![runs_text(runs)],
        forall|i: int|
            0 <= i < out.stderr.len() ==> seq![
                'l',
                'i',
                'n',
                'e',
                's',
                'm',
                'i',
                't',
                'h',
                ':',
                ' ',
            ].is_prefix_of(#[trigger] out.stderr[i]),
{
    let (items, segments) = choose|items: Seq<LineItem>, segments: Seq<Option<SegmentBox>>|
        {
            &&& #[trigger] may_be_default(host, segments)
            &&& slots_of(items) == default_slots(segments)
            &&& #[trigger] may_write_plain(*data, items, width as u16, out)
        };
    let (runs, report) = choose|runs: Seq<RunView>, report: ReportView|
        {
            &&& #[trigger] may_show(items, *data, width as u16, runs, report)
            &&& out.stdout == seq![runs_text(runs)]
            &&& out.stderr == signed(report.warnings)
            &&& out.notices == report.notices
            &&& out.traces == report.traces
        };
    reveal_strlit("linesmith: ");
    let name = seq!['l', 'i', 'n', 'e', 's', 'm', 'i', 't', 'h', ':', ' '];
    assert("linesmith: "@ =~= name);
    assert forall|i: int| 0 <= i < out.stderr.len() implies name.is_prefix_of(
        #[trigger] out.stderr[i],
    ) by {
        assert(out.stderr[i].take(name.len() as int) =~= name);
    }
    runs
}

/// A whole run shows one line: the default line, or a mark where the payload
/// could not be parsed, with the reason beside it. What there is to tell of the
/// terminal's width comes before all other notices.
pub proof fn run_shows_one_line<H: Fn(&str, Option<&Table<Value>>) -> HostSegment>(
    data: Result<&DataContext, &str>,
    os_width: Option<u16>,
    columns: Option<&str>,
    host: &H,
    out: RunOutput,
)
    requires
        call_ensures(run::<H>, (data, os_width, columns, host), out),
    ensures
        out@.stdout.len() == 1,
        data matches Err(reason) ==> {
            &&& out@.stdout[0] == seq!['?']
            &&& out@.stderr.len() == 1
            &&& reason@.is_suffix_of(out@.stderr[0])
            &&& out@.traces.len() == 0
        },
        terminal_width(os_width, text_of(columns)).1.is_prefix_of(out@.notices),
{
    let told = terminal_width(os_width, text_of(columns)).1;
    let width = terminal_width(os_width, text_of(columns)).0;
    let inner = choose|inner: OutputView| #[trigger]
        may_run(data, width, *host, inner) && out@ == (OutputView {
            notices: told + inner.notices,
            ..inner
        });
    assert(out@.notices.take(told.len() as int) =~= told);
    match data {
        Ok(d) => {
            let runs = default_run_shows_one_line(d, width, *host, inner);
        },
        Err(reason) => {
            reveal_strlit("?");
            assert("?"@ =~= seq!['?']);
            let line = "linesmith: parse: "@ + reason@;
            assert(line.skip(line.len() - reason@.len()) =~= reason@);
        },
    }
}

} // verus!
