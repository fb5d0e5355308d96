//! What the layout computes, as functions on mathematical values.

use vstd::prelude::*;

use crate::cells::{cell_width, grapheme_clusters, joined};
use crate::data_context::DataContext;
use crate::layout::decision::DecisionView;
use crate::segments::rendered::{GroupColor, RenderedView};
use crate::segments::segment::{LineItem, Outcome, RenderContext, Segment, SegmentBox};
use crate::segments::separator::{SegmentDefaults, SeparatorView, WidthBounds};
use crate::text::decimal;
use crate::theme::{plain_style, role_style, Role, RunView, StyleView};

verus! {

/// A segment that rendered, with what is needed to place it.
pub struct EntryView {
    pub id: Seq<char>,
    pub rendered: RenderedView,
    pub defaults: SegmentDefaults,
    pub segment: SegmentBox,
    /// The color that the segment takes from the lead of its group.
    pub paint: Option<GroupColor>,
}

/// One slot of a line that is laid out.
pub enum ItemView {
    Segment(EntryView),
    Separator(SeparatorView),
}

impl ItemView {
    /// The cells that the slot takes.
    pub open spec fn width(self) -> u16 {
        match self {
            ItemView::Segment(e) => e.rendered.width,
            ItemView::Separator(s) => s.width(),
        }
    }
}

/// What the layout reports: failed segments, segments that broke their word,
/// why segments hide, and what it did.
pub struct ReportView {
    pub warnings: Seq<Seq<char>>,
    pub notices: Seq<Seq<char>>,
    pub traces: Seq<Seq<char>>,
    pub decisions: Seq<DecisionView>,
}

impl ReportView {
    /// Nothing to report.
    pub open spec fn empty() -> ReportView {
        ReportView { warnings: seq![], notices: seq![], traces: seq![], decisions: seq![] }
    }

    /// This report and `more` behind it.
    pub open spec fn then_report(self, more: ReportView) -> ReportView {
        ReportView {
            warnings: self.warnings + more.warnings,
            notices: self.notices + more.notices,
            traces: self.traces + more.traces,
            decisions: self.decisions + more.decisions,
        }
    }
}

// --- Cutting a text -----------------------------------------------------

/// The cells that `clusters` take, each counted by itself.
pub open spec fn used_cells(clusters: Seq<Seq<char>>) -> int
    decreases clusters.len(),
{
    if clusters.len() == 0 {
        0
    } else {
        used_cells(clusters.drop_last()) + cell_width(clusters.last())
    }
}

/// How many of `clusters`, from the left, fit into `budget` cells.
pub open spec fn fitting(clusters: Seq<Seq<char>>, budget: int) -> nat
    decreases clusters.len(),
{
    if clusters.len() == 0 || cell_width(clusters[0]) > budget {
        0
    } else {
        1 + fitting(clusters.skip(1), budget - cell_width(clusters[0]))
    }
}

/// `rendered` cut to at most `max_cells` cells: the clusters that fit beside
/// one cell for the ellipsis, and the ellipsis. The spans are lost.
pub open spec fn truncated(rendered: RenderedView, max_cells: u16) -> RenderedView {
    if max_cells == 0 {
        RenderedView { text: seq![], width: 0, spans: None, ..rendered }
    } else {
        let clusters = grapheme_clusters(rendered.text);
        let kept = clusters.take(fitting(clusters, max_cells - 1) as int);
        RenderedView {
            text: joined(kept).push('…'),
            width: (used_cells(kept) + 1) as u16,
            spans: None,
            ..rendered
        }
    }
}

/// `rendered` within `bounds`: `None` below the lower bound, cut above the
/// upper one.
pub open spec fn bounded(rendered: RenderedView, bounds: Option<WidthBounds>) -> Option<
    RenderedView,
> {
    match bounds {
        None => Some(rendered),
        Some(b) => if rendered.width < b.lo() {
            None
        } else if rendered.width > b.hi() {
            Some(truncated(rendered, b.hi()))
        } else {
            Some(rendered)
        },
    }
}

/// The event that `bounds` cause on a render of `width` cells.
pub open spec fn bound_decisions(id: Seq<char>, width: u16, bounds: Option<WidthBounds>) -> Seq<
    DecisionView,
> {
    match bounds {
        None => seq![],
        Some(b) => if width < b.lo() {
            seq![
                DecisionView::WidthBoundUnderMinDrop { id, rendered_width: width, min: b.lo() },
            ]
        } else if width > b.hi() {
            seq![
                DecisionView::WidthBoundOverMaxTruncate { id, rendered_width: width, max: b.hi() },
            ]
        } else {
            seq![]
        },
    }
}

// --- Collecting the renders ---------------------------------------------

/// A line on its way to the layout, what was reported on the way, and the
/// color of the group that a segment behind it may join.
pub struct CollectedView {
    pub items: Seq<ItemView>,
    pub report: ReportView,
    pub lead: Option<GroupColor>,
}

/// What a segment said when the line was collected: its layout intent, whether
/// the user fixed its color, what its render came to, and why it hides.
pub struct Heard {
    pub defaults: SegmentDefaults,
    pub pinned: bool,
    pub outcome: Outcome,
    pub reason: Option<Seq<char>>,
}

/// The color that a segment lends to its group.
pub open spec fn lead_color(rendered: RenderedView) -> GroupColor {
    GroupColor { role: rendered.style.role, fg: rendered.style.fg }
}

/// `rendered` in the color of its group, where it takes one.
pub open spec fn painted(rendered: RenderedView, paint: Option<GroupColor>) -> RenderedView {
    match paint {
        Some(color) => rendered.recolored(color),
        None => rendered,
    }
}

/// The color of the group that a segment joins: that of the lead to its left,
/// where it fuses with what stands there.
pub open spec fn joined_group(lead: Option<GroupColor>, fuses_left: bool) -> Option<GroupColor> {
    if fuses_left {
        lead
    } else {
        None
    }
}

/// The color that a segment takes from its group: none where the user fixed
/// the segment's own.
pub open spec fn paint_of(group: Option<GroupColor>, pinned: bool) -> Option<GroupColor> {
    if pinned {
        None
    } else {
        group
    }
}

/// `items` without a separator at its end.
pub open spec fn without_trailing(items: Seq<ItemView>) -> Seq<ItemView> {
    if items.len() > 0 && items.last() is Separator {
        items.drop_last()
    } else {
        items
    }
}

/// The line behind a segment of which `heard` was heard. What shows is placed,
/// in the color of its group; the first of a group to show leads it. What does
/// not show takes the separator in front of it away.
pub open spec fn segment_placed(
    before: CollectedView,
    id: Seq<char>,
    segment: SegmentBox,
    fuses_left: bool,
    heard: Heard,
) -> CollectedView {
    let defaults = heard.defaults;
    let group = joined_group(before.lead, fuses_left);
    let paint = paint_of(group, heard.pinned);
    let hidden = CollectedView {
        items: without_trailing(before.items),
        lead: group,
        ..before
    };
    match heard.outcome {
        Ok(Some(r)) => {
            let report = before.report.then_report(
                ReportView {
                    decisions: bound_decisions(id, r.width, defaults.width),
                    ..ReportView::empty()
                },
            );
            match bounded(r, defaults.width) {
                Some(rendered) => CollectedView {
                    items: before.items.push(
                        ItemView::Segment(
                            EntryView {
                                id,
                                rendered: painted(rendered, paint),
                                defaults,
                                segment,
                                paint,
                            },
                        ),
                    ),
                    report,
                    lead: if group is None {
                        Some(lead_color(rendered))
                    } else {
                        group
                    },
                },
                None => CollectedView { report, ..hidden },
            }
        },
        Ok(None) => CollectedView {
            report: before.report.then_report(
                ReportView { traces: reason_traces(heard.reason), ..ReportView::empty() },
            ),
            ..hidden
        },
        Err(words) => CollectedView {
            report: before.report.then_report(
                ReportView { warnings: seq!["segment error: "@ + words], ..ReportView::empty() },
            ),
            ..hidden
        },
    }
}

/// What is traced of a segment that hides for `reason`.
pub open spec fn reason_traces(reason: Option<Seq<char>>) -> Seq<Seq<char>> {
    match reason {
        Some(words) => seq![words],
        None => seq![],
    }
}

/// The line behind a separator: it is placed only right behind a segment.
pub open spec fn separator_placed(before: CollectedView, sep: SeparatorView) -> CollectedView {
    if before.items.len() > 0 && before.items.last() is Segment {
        CollectedView { items: before.items.push(ItemView::Separator(sep)), ..before }
    } else {
        before
    }
}

/// The line behind its slots `items`, of whose segments `heard` was heard.
pub open spec fn placed(items: Seq<LineItem>, heard: Seq<Heard>) -> CollectedView
    decreases items.len(),
{
    if items.len() == 0 {
        CollectedView { items: seq![], report: ReportView::empty(), lead: None }
    } else {
        let before = placed(items.drop_last(), heard);
        match items.last() {
            LineItem::Segment { id, segment, fuses_left } => segment_placed(
                before,
                id@,
                segment,
                fuses_left,
                heard[items.len() - 1],
            ),
            LineItem::Separator(s) => separator_placed(before, s@),
        }
    }
}

/// The separator that `item` prefers on its right.
pub open spec fn preferred_separator(item: ItemView) -> Option<SeparatorView> {
    match item {
        ItemView::Segment(e) => e.rendered.right_separator,
        ItemView::Separator(_) => None,
    }
}

/// `items` with the preference of the segment at `k` taken over by the
/// separator on its right, where there is one.
pub open spec fn preference_at(items: Seq<ItemView>, k: int) -> Seq<ItemView> {
    match preferred_separator(items[k]) {
        Some(s) => if k + 1 < items.len() && items[k + 1] is Separator {
            items.update(k + 1, ItemView::Separator(s))
        } else {
            items
        },
        None => items,
    }
}

/// `items` with every segment's preference taken over by the separator on its
/// right.
pub open spec fn preferences(items: Seq<ItemView>) -> Seq<ItemView> {
    Seq::new(
        items.len(),
        |i: int|
            if i > 0 && items[i] is Separator && preferred_separator(items[i - 1]) is Some {
                ItemView::Separator(preferred_separator(items[i - 1])->0)
            } else {
                items[i]
            },
    )
}

/// The line that goes into the layout.
pub open spec fn collected(items: Seq<LineItem>, heard: Seq<Heard>) -> CollectedView {
    let all = placed(items, heard);
    CollectedView { items: preferences(without_trailing(all.items)), ..all }
}

/// May `heard` be heard of the segments of `items`?
pub open spec fn may_render(
    items: Seq<LineItem>,
    ctx: DataContext,
    rc: RenderContext,
    heard: Seq<Heard>,
) -> bool {
    &&& heard.len() == items.len()
    &&& forall|i: int|
        0 <= i < items.len() ==> (#[trigger] items[i] matches LineItem::Segment { segment, .. }
            ==> may_say_all(segment, ctx, rc, heard[i]))
}

/// May `heard` be heard of `segment`? Only a segment that hides is asked why.
pub open spec fn may_say_all(
    segment: SegmentBox,
    ctx: DataContext,
    rc: RenderContext,
    heard: Heard,
) -> bool {
    &&& segment.segment.declares(heard.defaults)
    &&& segment.segment.pins_color(heard.pinned)
    &&& segment.segment.renders(ctx, rc, heard.outcome)
    &&& heard.outcome == Ok::<Option<RenderedView>, Seq<char>>(None)
        ==> segment.segment.explains(ctx, heard.reason)
}

// --- Fitting the line ---------------------------------------------------

/// The cells that `items` take.
pub open spec fn total(items: Seq<ItemView>) -> int
    decreases items.len(),
{
    if items.len() == 0 {
        0
    } else {
        total(items.drop_last()) + items.last().width()
    }
}

/// The cells that the segments of `items` take.
pub open spec fn segment_cells(items: Seq<ItemView>) -> nat
    decreases items.len(),
{
    if items.len() == 0 {
        0
    } else {
        segment_cells(items.drop_last()) + match items.last() {
            ItemView::Segment(e) => e.rendered.width as nat,
            ItemView::Separator(_) => 0,
        }
    }
}

/// The priority of a segment that may be dropped; 0 for everything else.
pub open spec fn drop_rank(item: ItemView) -> u8 {
    match item {
        ItemView::Segment(e) => e.defaults.priority,
        ItemView::Separator(_) => 0,
    }
}

/// The segment that goes first: of those with the highest priority, above 0,
/// the right-most.
pub open spec fn first_to_go(items: Seq<ItemView>) -> Option<int>
    decreases items.len(),
{
    if items.len() == 0 {
        None
    } else {
        let before = first_to_go(items.drop_last());
        let rank = drop_rank(items.last());
        if rank > 0 && (before is None || drop_rank(items[before->0]) <= rank) {
            Some(items.len() - 1)
        } else {
            before
        }
    }
}

/// Nothing is left to do: the line fits, or nothing may be dropped.
pub open spec fn settled(items: Seq<ItemView>, budget: int) -> bool {
    total(items) <= budget || first_to_go(items) is None
}

/// The fewest cells that a segment's user wants of it.
pub open spec fn floor_of(e: EntryView) -> u16 {
    match e.defaults.width {
        Some(b) => b.lo(),
        None => 0,
    }
}

/// The width that a segment is asked to shrink to when the line is `overflow`
/// cells too wide; `None` where it cannot give that many.
pub open spec fn shrink_target(e: EntryView, overflow: int) -> Option<u16> {
    if overflow <= e.rendered.width && e.rendered.width - overflow >= floor_of(e) {
        Some((e.rendered.width - overflow) as u16)
    } else {
        None
    }
}

/// The compact form, in the color of its group, where it keeps to what was
/// asked.
pub open spec fn accepted(e: EntryView, target: u16, answer: Option<RenderedView>) -> Option<
    RenderedView,
> {
    match answer {
        Some(r) => if floor_of(e) <= r.width <= target {
            Some(painted(r, e.paint))
        } else {
            None
        },
        None => None,
    }
}

/// The segment's own compact form under `overflow`, if it has one that fits.
pub open spec fn compacted(e: EntryView, overflow: int, answer: Option<RenderedView>) -> Option<
    RenderedView,
> {
    match shrink_target(e, overflow) {
        Some(target) => accepted(e, target, answer),
        None => None,
    }
}

/// The fewest cells that a cut may leave: one cluster and the ellipsis, or
/// the user's lower bound.
pub open spec fn cut_floor(e: EntryView) -> u16 {
    if floor_of(e) > 2 {
        floor_of(e)
    } else {
        2
    }
}

/// The segment cut by `overflow` cells; `None` where too little would be left.
pub open spec fn reflowed(e: EntryView, overflow: int) -> Option<RenderedView> {
    if overflow <= e.rendered.width && e.rendered.width - overflow >= cut_floor(e) {
        let cut = truncated(e.rendered, (e.rendered.width - overflow) as u16);
        if cut.width < cut_floor(e) {
            None
        } else {
            Some(cut)
        }
    } else {
        None
    }
}

/// What takes the segment's place: its compact form, else a cut where it
/// allows one, else nothing.
pub open spec fn replacement(e: EntryView, overflow: int, compact: Option<RenderedView>) -> Option<
    RenderedView,
> {
    match compact {
        Some(r) => Some(r),
        None => if e.defaults.truncatable {
            reflowed(e, overflow)
        } else {
            None
        },
    }
}

/// `items` without the segment at `k` and one separator beside it: the right
/// one, or else the left one.
pub open spec fn dropped(items: Seq<ItemView>, k: int) -> Seq<ItemView> {
    if k + 1 < items.len() && items[k + 1] is Separator {
        items.remove(k).remove(k)
    } else if k > 0 && items[k - 1] is Separator {
        items.remove(k).remove(k - 1)
    } else {
        items.remove(k)
    }
}

/// The segment that goes first.
pub open spec fn next_entry(items: Seq<ItemView>) -> EntryView {
    items[first_to_go(items)->0]->Segment_0
}

/// One step of the layout on a line that is not settled, where the segment
/// that goes first has the compact form `compact`.
pub open spec fn stepped(items: Seq<ItemView>, budget: int, compact: Option<RenderedView>) -> Seq<
    ItemView,
> {
    let k = first_to_go(items)->0;
    let e = next_entry(items);
    match replacement(e, total(items) - budget, compact) {
        Some(rendered) => preference_at(
            items.update(k, ItemView::Segment(EntryView { rendered, ..e })),
            k,
        ),
        None => dropped(items, k),
    }
}

/// What that step decides.
pub open spec fn step_decisions(
    items: Seq<ItemView>,
    terminal_width: u16,
    compact: Option<RenderedView>,
) -> Seq<DecisionView> {
    let e = next_entry(items);
    let overflow = total(items) - terminal_width;
    let from = e.rendered.width;
    let target = (from - overflow) as u16;
    match compact {
        Some(r) => seq![DecisionView::ShrinkApplied { id: e.id, from, to: r.width, target }],
        None => match replacement(e, overflow, compact) {
            Some(r) => seq![DecisionView::ReflowApplied { id: e.id, from, to: r.width, target }],
            None => if from >= 1 {
                seq![
                    DecisionView::PriorityDrop {
                        id: e.id,
                        priority: e.defaults.priority,
                        terminal_width,
                        overflow: overflow as u32,
                        dropped_width: from,
                    },
                ]
            } else {
                seq![]
            },
        },
    }
}

/// The notice on a compact form that is wider than the `target` it was asked
/// for.
pub open spec fn width_notices(target: u16, answer: Option<RenderedView>) -> Seq<Seq<char>> {
    match answer {
        Some(r) => if r.width > target {
            seq![
                "segment shrink_to_fit returned width "@ + decimal(r.width as nat) + " > target "@
                    + decimal(target as nat) + "; rejecting"@,
            ]
        } else {
            seq![]
        },
        None => seq![],
    }
}

/// The notice on what a segment answers under `overflow`.
pub open spec fn answer_notices(e: EntryView, overflow: int, answer: Option<RenderedView>) -> Seq<
    Seq<char>,
> {
    match shrink_target(e, overflow) {
        Some(target) => width_notices(target, answer),
        None => seq![],
    }
}

/// The compact form that the segment that goes first has by its `answer`.
pub open spec fn heard_form(items: Seq<ItemView>, budget: int, answer: Option<RenderedView>) -> Option<
    RenderedView,
> {
    compacted(next_entry(items), total(items) - budget, answer)
}

/// What a step reports, after the segment that goes first gave `answer`.
pub open spec fn step_report(
    items: Seq<ItemView>,
    terminal_width: u16,
    answer: Option<RenderedView>,
) -> ReportView {
    ReportView {
        notices: answer_notices(next_entry(items), total(items) - terminal_width, answer),
        decisions: step_decisions(
            items,
            terminal_width,
            heard_form(items, terminal_width as int, answer),
        ),
        ..ReportView::empty()
    }
}

/// The line after one step for each of `answers`.
pub open spec fn fitted(
    items: Seq<ItemView>,
    budget: int,
    answers: Seq<Option<RenderedView>>,
) -> Seq<ItemView>
    decreases answers.len(),
{
    if answers.len() == 0 {
        items
    } else {
        let before = fitted(items, budget, answers.drop_last());
        stepped(before, budget, heard_form(before, budget, answers.last()))
    }
}

/// What those steps report.
pub open spec fn fit_report(
    items: Seq<ItemView>,
    terminal_width: u16,
    answers: Seq<Option<RenderedView>>,
) -> ReportView
    decreases answers.len(),
{
    if answers.len() == 0 {
        ReportView::empty()
    } else {
        fit_report(items, terminal_width, answers.drop_last()).then_report(
            step_report(
                fitted(items, terminal_width as int, answers.drop_last()),
                terminal_width,
                answers.last(),
            ),
        )
    }
}

/// May the segment give `answer` under `overflow`? One that cannot give so
/// many cells is not asked.
pub open spec fn may_say(
    e: EntryView,
    overflow: int,
    ctx: DataContext,
    rc: RenderContext,
    answer: Option<RenderedView>,
) -> bool {
    match shrink_target(e, overflow) {
        Some(target) => e.segment.segment.shrinks(ctx, rc, target, answer),
        None => answer is None,
    }
}

/// May the segment that goes first of `items` give `answer`?
pub open spec fn may_answer(
    items: Seq<ItemView>,
    terminal_width: u16,
    ctx: DataContext,
    rc: RenderContext,
    answer: Option<RenderedView>,
) -> bool {
    may_say(next_entry(items), total(items) - terminal_width, ctx, rc, answer)
}

/// Could the layout of `items` hear `answers`, one after the other, and then
/// be done?
pub open spec fn may_fit(
    items: Seq<ItemView>,
    terminal_width: u16,
    ctx: DataContext,
    rc: RenderContext,
    answers: Seq<Option<RenderedView>>,
) -> bool {
    &&& settled(fitted(items, terminal_width as int, answers), terminal_width as int)
    &&& forall|i: int|
        0 <= i < answers.len() ==> {
            let at = fitted(items, terminal_width as int, #[trigger] answers.take(i));
            !settled(at, terminal_width as int) && may_answer(
                at,
                terminal_width,
                ctx,
                rc,
                answers[i],
            )
        }
}

// --- Emitting the line --------------------------------------------------

/// The style of a separator: a chevron is muted, all else is plain.
pub open spec fn separator_look(sep: SeparatorView) -> StyleView {
    match sep {
        SeparatorView::Powerline { .. } => role_style(Role::Muted),
        _ => plain_style(),
    }
}

/// The runs of one slot: a segment's spans, or the segment as one run; a
/// separator that draws something as one run.
pub open spec fn item_runs(item: ItemView) -> Seq<RunView> {
    match item {
        ItemView::Segment(e) => match e.rendered.spans {
            Some(spans) => spans,
            None => seq![RunView { text: e.rendered.text, style: e.rendered.style }],
        },
        ItemView::Separator(s) => if s.text().len() == 0 {
            seq![]
        } else {
            seq![RunView { text: s.text(), style: separator_look(s) }]
        },
    }
}

/// The runs of a line.
pub open spec fn line_runs(items: Seq<ItemView>) -> Seq<RunView>
    decreases items.len(),
{
    if items.len() == 0 {
        seq![]
    } else {
        line_runs(items.drop_last()) + item_runs(items.last())
    }
}

/// A line of `items` in `terminal_width` cells comes to `runs`, with `report`,
/// where `heard` is heard of its segments, and `answers` under width pressure.
pub open spec fn shown_as(
    items: Seq<LineItem>,
    ctx: DataContext,
    terminal_width: u16,
    heard: Seq<Heard>,
    answers: Seq<Option<RenderedView>>,
    runs: Seq<RunView>,
    report: ReportView,
) -> bool {
    let rc = RenderContext { terminal_width };
    let line = collected(items, heard);
    &&& may_render(items, ctx, rc, heard)
    &&& may_fit(line.items, terminal_width, ctx, rc, answers)
    &&& runs == line_runs(fitted(line.items, terminal_width as int, answers))
    &&& report == line.report.then_report(fit_report(line.items, terminal_width, answers))
}

/// May a line of `items` in `terminal_width` cells come to `runs`, with
/// `report`?
pub open spec fn may_show(
    items: Seq<LineItem>,
    ctx: DataContext,
    terminal_width: u16,
    runs: Seq<RunView>,
    report: ReportView,
) -> bool {
    exists|heard: Seq<Heard>, answers: Seq<Option<RenderedView>>| #[trigger]
        shown_as(items, ctx, terminal_width, heard, answers, runs, report)
}

// --- Escape sequences ---------------------------------------------------

/// `ESC ] 8 ; ; url ESC \`, the url without its control characters.
pub open spec fn link_open(url: Seq<char>) -> Seq<char> {
    "\x1b]8;;"@ + crate::text::printable(url) + "\x1b\\"@
}

/// The text of `run` between what opens its style and a reset; bare where
/// nothing opens it.
pub open spec fn styled_text(run: RunView, open: Seq<char>) -> Seq<char> {
    if open.len() == 0 {
        run.text
    } else {
        open + run.text + "\x1b[0m"@
    }
}

/// `run` as the terminal gets it. A link stands outside of the style.
pub open spec fn run_ansi(run: RunView, open: Seq<char>, hyperlinks: bool) -> Seq<char> {
    match run.style.hyperlink {
        Some(url) => if hyperlinks {
            link_open(url) + styled_text(run, open) + "\x1b]8;;\x1b\\"@
        } else {
            styled_text(run, open)
        },
        None => styled_text(run, open),
    }
}

/// `runs` as the terminal gets them, each opened by its entry in `opens`.
pub open spec fn runs_ansi(runs: Seq<RunView>, opens: Seq<Seq<char>>, hyperlinks: bool) -> Seq<
    char,
>
    decreases runs.len(),
{
    if runs.len() == 0 {
        seq![]
    } else {
        runs_ansi(runs.drop_last(), opens, hyperlinks) + run_ansi(
            runs.last(),
            opens[runs.len() - 1],
            hyperlinks,
        )
    }
}

} // verus!
