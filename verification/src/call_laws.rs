//! What calls of the library give, and how one relates to another.

use vstd::prelude::*;

use crate::cells::{cell_width, columns, text_width};
use crate::config::{find_settings, LineEntry, NamedOverride, SegmentOverride};
use crate::data_context::{DataContext, Percent};
use crate::diagnostics::texts;
use crate::layout::decision::DecisionView;
use crate::layout::laws::{
    fits_or_is_pinned, fitting_line_is_kept, pinned, pinned_segments_stay,
};
use crate::layout::line_laws::run_closes_what_it_opens;
use crate::layout::model::{fit_report, fitted, may_fit, total, truncated, ItemView, ReportView};
use crate::layout::steps::{
    cut_is_the_longest_that_fits, goes_first, is_cut_of, taken_out, within_floor,
};
use crate::layout::{
    apply_layout, apply_override_at, apply_width_bounds, drop_segment_and_adjacent_separator,
    emit_runs, highest_priority_droppable, item_views, separator_style, shrink_request, truncate_to,
    try_reflow, LayoutItem, LayoutObservers, SegmentEntry,
};
use crate::plugins::laws::{
    good_value, plugin_output_is_accepted_by_its_shape, plugin_output_is_what_the_map_says,
    script_finds_every_key, separator_said, style_said, text_under,
};
use crate::plugins::output::{parse_right_separator, validate_return, PluginError};
use crate::plugins::script::{mirrors, toml_table_to_dynamic, ScriptValue};
use crate::presets::{
    body, every_preset_is_found, preset_place, PRESET_BODIES, PRESET_NAMES,
};
use crate::segments::bar_laws::{
    decimal_places_are_the_nearest, half_cells_show_the_half, is_nearest, is_nearest_even,
    size_is_told_exactly, ties_go_to_the_even_number, whole_cells_are_the_nearest,
};
use crate::segments::builder::catalog::{find_built_in, is_built_in, resolve_segment_id};
use crate::segments::builder::entry_laws::{meets_the_next, shares_with_the_next};
use crate::segments::builder::setting_laws::settings_go_by_the_id;
use crate::segments::context_window::format_size;
use crate::segments::git_branch::{
    filled_in, has_placeholder, template_shows_its_count, truncate_middle, FormatTemplate,
};
use crate::segments::git_branch_laws::{middle_cut_stands_for_the_text, stands_for};
use crate::segments::progress_bar::{
    bar_cells, fixed_point_string, pow10, FillMode, PartialFill, Thresholds,
};
use crate::segments::rendered::{lemma_printable, GroupColor, RenderedSegment, RenderedView};
use crate::segments::rendered_laws::{
    icon_goes_in_front, painted_chars, painted_render, rendered_spans_keep_their_look,
    rendered_text_is_plain, visible,
};
use crate::segments::segment::RenderContext;
use crate::segments::separator::{PowerlineWidth, SegmentDefaults, Separator, WidthBounds};
use crate::text::{
    decimal, decimal_string, is_printable, is_white_space, parse_number, printable,
    sanitize_control_chars, to_ascii_lowercase, trim, NumberFault,
};
use crate::text_laws::{
    decimal_is_read_back, is_digits, lower_case_changes_letters_alone, place_value,
    trimming_takes_the_ends_alone,
};
use crate::theme::{run_views, runs_text, Role, Style, StyledRun};
use crate::value::{lookup, Entry, Table, Value};

verus! {

// --- Texts and numbers --------------------------------------------------

/// A number that is written is read back, up to the limit.
pub proof fn written_number_is_read_back(
    n: u64,
    written: String,
    s: &str,
    limit: u32,
    read: Result<u32, NumberFault>,
)
    requires
        call_ensures(decimal_string, (n,), written),
        s@ == written@,
        call_ensures(parse_number, (s, limit), read),
    ensures
        n <= limit ==> read == Ok::<u32, NumberFault>(n as u32),
        n > limit ==> read == Err::<u32, NumberFault>(NumberFault::Overflow),
{
    decimal_is_read_back(n as nat, limit as nat);
}

/// What is stripped holds no control character, and stripping it again changes
/// nothing; a text without any is left as it is.
pub proof fn stripping_is_done_once(s: &str, once: String, t: &str, twice: String)
    requires
        call_ensures(sanitize_control_chars, (s,), once),
        t@ == once@,
        call_ensures(sanitize_control_chars, (t,), twice),
    ensures
        is_printable(once@),
        twice@ == once@,
        is_printable(s@) ==> once@ == s@,
{
    lemma_printable(s@);
    lemma_printable(t@);
}

/// Trimming and lower case may be done twice as well as once.
pub proof fn trimming_and_lower_case_are_done_once(
    s: &str,
    t: &str,
    once: (String, String),
    twice: (String, String),
    u: &str,
)
    requires
        call_ensures(trim, (s,), once.0),
        t@ == once.0@,
        call_ensures(trim, (t,), twice.0),
        call_ensures(to_ascii_lowercase, (s,), once.1),
        u@ == once.1@,
        call_ensures(to_ascii_lowercase, (u,), twice.1),
    ensures
        twice.0@ == once.0@,
        twice.1@ == once.1@,
        once.1@.len() == s@.len(),
{
    let at = trimming_takes_the_ends_alone(s@);
    let again = trimming_takes_the_ends_alone(t@);
    let n = t@.len() as int;
    if n > 0 {
        if again.0 > 0 {
            assert(is_white_space(t@[0]));
        }
        if again.1 < n {
            assert(is_white_space(t@[n - 1]));
        }
    }
    assert(t@.subrange(again.0, again.1) =~= t@);
    lower_case_changes_letters_alone(s@);
    lower_case_changes_letters_alone(u@);
}

// --- Percentages and bounds ---------------------------------------------

/// Every fraction from 0 to 100 is a percentage, and no other; its parts are
/// had back, and its points are the nearest whole number, the even one of two.
pub proof fn percentage_keeps_its_fraction(
    num: u64,
    den: u64,
    made: Option<Percent>,
    parts: (u64, u64),
    points: u8,
)
    requires
        call_ensures(Percent::new, (num, den), made),
        made matches Some(p) ==> call_ensures(Percent::parts, (p,), parts) && call_ensures(
            Percent::round_ties_even,
            (p,),
            points,
        ),
    ensures
        made is Some <==> 1 <= den <= 0x100_0000_0000 && num <= 100 * den,
        made is Some ==> parts == (num, den),
        made is Some ==> is_nearest_even(points as int, num as int, den as int) && points <= 100,
{
    if made is Some {
        ties_go_to_the_even_number(num as int, den as int);
    }
}

/// Bounds that do not cross are kept as they are, and no others are made.
pub proof fn bounds_are_kept(min: u16, max: u16, made: Option<WidthBounds>, lo: u16, hi: u16)
    requires
        call_ensures(WidthBounds::new, (min, max), made),
        made matches Some(b) ==> call_ensures(WidthBounds::min, (b,), lo) && call_ensures(
            WidthBounds::max,
            (b,),
            hi,
        ),
    ensures
        made is None <==> min > max,
        made is Some ==> lo == min && hi == max,
{
}

/// Thresholds that ascend up to 100 are kept as they are, and no others are
/// made; a fill below the first is green, one from the second on red.
pub proof fn thresholds_are_kept(
    green: u8,
    yellow: u8,
    made: Option<Thresholds>,
    n: u8,
    pct: Percent,
    role: Role,
)
    requires
        call_ensures(Thresholds::new, (green, yellow), made),
        n <= 100,
        call_ensures(Percent::whole, (n,), pct),
        made matches Some(t) ==> call_ensures(Thresholds::role_for, (t, pct), role),
    ensures
        made is Some <==> green <= yellow && yellow <= 100,
        made is Some ==> {
            &&& role == Role::Success <==> n < green
            &&& role == Role::Warning <==> green <= n && n < yellow
            &&& role == Role::Error <==> yellow <= n
        },
{
}

/// An intent is changed field by field: the one that is set, and no other.
pub proof fn intent_is_set_field_by_field(
    priority: u8,
    bounds: WidthBounds,
    icon: &'static str,
    cuttable: bool,
    made: (SegmentDefaults, SegmentDefaults, SegmentDefaults, SegmentDefaults),
)
    requires
        call_ensures(SegmentDefaults::with_priority, (priority,), made.0),
        call_ensures(SegmentDefaults::with_width, (made.0, bounds), made.1),
        call_ensures(SegmentDefaults::with_icon, (made.1, icon), made.2),
        call_ensures(SegmentDefaults::with_truncatable, (made.2, cuttable), made.3),
    ensures
        made.3.priority == priority,
        made.3.width == Some(bounds),
        made.3.icon == Some(icon),
        made.3.truncatable == cuttable,
        made.0.width is None && made.0.icon is None && !made.0.truncatable,
        made.1.icon is None && !made.1.truncatable,
        !made.2.truncatable,
{
}

// --- Separators ---------------------------------------------------------

/// A separator is as wide as its text, but for a chevron, whose own cells are
/// configured; only a chevron has a look.
pub proof fn separator_is_as_wide_as_its_text(sep: &Separator, text: &str, width: u16, look: Style)
    requires
        call_ensures(Separator::text, (sep,), text),
        call_ensures(Separator::width, (sep,), width),
        call_ensures(separator_style, (sep,), look),
    ensures
        sep matches Separator::Powerline { width: cells } ==> {
            &&& width == (if *cells == PowerlineWidth::Two {
                4int
            } else {
                3
            })
            &&& text@ == seq![' ', '\u{E0B0}', ' ']
            &&& look.role == Some(Role::Muted)
        },
        !(sep is Powerline) ==> width == cell_width(text@) && look.role is None,
        sep is Space || sep is Theme ==> text@ == seq![' '],
        sep is Empty ==> text@.len() == 0,
        sep matches Separator::Literal(s) ==> text@ == s@,
        look.fg is None && !look.bold && !look.italic && !look.underline && !look.dim,
        look.hyperlink is None,
{
    reveal_strlit(" ");
    reveal_strlit("");
    reveal_strlit(" \u{E0B0} ");
    assert(" "@ =~= seq![' ']);
    assert(" \u{E0B0} "@ =~= seq![' ', '\u{E0B0}', ' ']);
}

// --- Renders ------------------------------------------------------------

/// A render from a text is that text without control characters, as wide as it
/// is; a role and a style are laid on it without touching the rest.
pub proof fn render_is_its_text(
    text: &str,
    sep: Separator,
    role: Role,
    style: Style,
    made: (RenderedSegment, RenderedSegment, RenderedSegment, RenderedSegment),
)
    requires
        call_ensures(RenderedSegment::new, (text,), made.0),
        call_ensures(RenderedSegment::with_separator, (text, sep), made.1),
        call_ensures(RenderedSegment::with_role, (made.1, role), made.2),
        call_ensures(RenderedSegment::with_style, (made.1, style), made.3),
    ensures
        made.0@.text == printable(text@),
        made.0@.width == cell_width(printable(text@)),
        made.0@.right_separator is None,
        made.1@.right_separator == Some(sep@),
        made.1@.text == made.0@.text && made.1@.width == made.0@.width && made.1@.style
            == made.0@.style,
        made.2@.style.role == Some(role),
        made.2@.style.fg is None && !made.2@.style.bold && !made.2@.style.italic,
        made.2@.text == made.1@.text && made.2@.width == made.1@.width && made.2@.right_separator
            == made.1@.right_separator,
        made.3@.style == style@,
        made.3@.text == made.1@.text && made.3@.width == made.1@.width && made.3@.right_separator
            == made.1@.right_separator,
{
    rendered_text_is_plain(text@);
}

/// A render from spans shows every character of them that may be shown, each in
/// the look of its span; an icon goes in front, and the rest stays.
pub proof fn spans_and_icon_keep_their_look(
    spans: Vec<StyledRun>,
    made: RenderedSegment,
    icon: &str,
    with_icon: RenderedSegment,
)
    requires
        call_ensures(RenderedSegment::from_spans, (spans,), made),
        call_ensures(RenderedSegment::with_icon_prefix, (made, icon), with_icon),
    ensures
        painted_render(made@) == visible(painted_chars(run_views(spans@))),
        made@.text == printable(runs_text(run_views(spans@))),
        made@.width == cell_width(made@.text),
        with_icon@.text == printable(icon@) + seq![' '] + made@.text,
        with_icon@.width == cell_width(with_icon@.text),
        painted_render(with_icon@).skip(printable(icon@).len() as int + 1) == painted_render(made@),
{
    rendered_spans_keep_their_look(run_views(spans@));
    icon_goes_in_front(made@, icon@);
    let front = printable(icon@) + seq![' '];
    let look = Seq::new(front.len(), |i: int| (front[i], made@.style));
    assert(painted_render(with_icon@) == look + painted_render(made@));
    assert((look + painted_render(made@)).skip(front.len() as int) =~= painted_render(made@));
}

/// The color of a group changes the color of a render and nothing else of it.
pub proof fn recoloring_changes_the_color_alone(color: GroupColor)
    ensures
        forall|r: &mut RenderedSegment| #[trigger]
            call_ensures(RenderedSegment::recolor_for_group, (r, color), ()) ==> {
                &&& final(r)@.text == (*r)@.text
                &&& final(r)@.width == (*r)@.width
                &&& final(r)@.right_separator == (*r)@.right_separator
                &&& final(r)@.style.role == color.role
                &&& final(r)@.style.fg == color.fg
                &&& final(r)@.style.bold == (*r)@.style.bold
                &&& final(r)@.style.italic == (*r)@.style.italic
                &&& final(r)@.style.underline == (*r)@.style.underline
                &&& final(r)@.style.dim == (*r)@.style.dim
                &&& final(r)@.style.hyperlink == (*r)@.style.hyperlink
            },
{
}

/// A text is as wide as its columns, up to what a width can hold.
pub proof fn width_is_that_of_the_columns(s: &str, width: u16)
    requires
        call_ensures(text_width, (s,), width),
    ensures
        columns(s@) <= 0xffff ==> width == columns(s@),
        columns(s@) > 0xffff ==> width == 0xffff,
{
}

/// A cut render keeps as many clusters as fit beside the ellipsis, and its
/// look; nothing is left where there is no room at all.
pub proof fn cut_render_is_the_longest_that_fits(
    rendered: RenderedSegment,
    max_cells: u16,
    cut: RenderedSegment,
) -> (n: int)
    requires
        call_ensures(truncate_to, (rendered, max_cells), cut),
    ensures
        max_cells > 0 ==> is_cut_of(cut@, rendered@, max_cells as int, n),
        max_cells == 0 ==> cut@.text.len() == 0 && cut@.width == 0,
        cut@.width <= max_cells,
{
    if max_cells > 0 {
        cut_is_the_longest_that_fits(rendered@, max_cells)
    } else {
        0
    }
}

/// A render within bounds is kept as it is, one that is too narrow is dropped,
/// and one that is too wide is cut to the upper bound.
pub proof fn bounds_are_applied(
    rendered: RenderedSegment,
    bounds: WidthBounds,
    out: Option<RenderedSegment>,
    free: Option<RenderedSegment>,
)
    requires
        call_ensures(apply_width_bounds, (rendered, Some(bounds)), out),
        call_ensures(apply_width_bounds, (rendered, None::<WidthBounds>), free),
    ensures
        out is None <==> rendered@.width < bounds.lo(),
        bounds.lo() <= rendered@.width <= bounds.hi() ==> out->0@ == rendered@,
        bounds.lo() <= rendered@.width && rendered@.width > bounds.hi() && bounds.hi() > 0
            ==> exists|n: int| #[trigger]
            is_cut_of(out->0@, rendered@, bounds.hi() as int, n),
        free matches Some(r) && r@ == rendered@,
{
    if bounds.hi() > 0 {
        let n = cut_is_the_longest_that_fits(rendered@, bounds.hi());
        assert(is_cut_of(truncated(rendered@, bounds.hi()), rendered@, bounds.hi() as int, n));
    }
}

/// A segment is asked for the cells that are left of it under an overflow, as
/// long as the user's lower bound allows; a cut of it leaves two cells or more,
/// and no fewer than that bound.
pub proof fn request_and_cut_keep_to_the_floor(
    item: &SegmentEntry<'_>,
    overflow: u32,
    target: Option<u16>,
    cut: Option<RenderedSegment>,
)
    requires
        call_ensures(shrink_request, (item, overflow), target),
        call_ensures(try_reflow, (item, overflow), cut),
    ensures
        target is Some <==> 0 <= item@.rendered.width - overflow && within_floor(
            item@,
            item@.rendered.width - overflow,
        ),
        target matches Some(t) ==> t == item@.rendered.width - overflow,
        cut matches Some(r) ==> {
            &&& 2 <= r@.width <= item@.rendered.width - overflow
            &&& within_floor(item@, r@.width as int)
            &&& exists|n: int| #[trigger]
                is_cut_of(r@, item@.rendered, item@.rendered.width - overflow, n)
        },
{
    match cut {
        Some(r) => {
            let left = (item@.rendered.width - overflow) as u16;
            let n = cut_is_the_longest_that_fits(item@.rendered, left);
            assert(is_cut_of(r@, item@.rendered, item@.rendered.width - overflow, n));
        },
        None => {},
    }
}

// --- The layout ---------------------------------------------------------

/// The segment that is to go is one of the highest priority above 0, the
/// right-most of them; there is none exactly where every segment is pinned.
pub proof fn highest_priority_is_found(items: &Vec<LayoutItem<'_>>, found: Option<usize>)
    requires
        call_ensures(highest_priority_droppable, (items,), found),
    ensures
        found matches Some(k) ==> goes_first(item_views(items@), k as int),
        found is None ==> forall|j: int|
            0 <= j < items@.len() ==> (#[trigger] item_views(items@)[j] matches ItemView::Segment(e)
                ==> e.defaults.priority == 0),
{
    let views = item_views(items@);
    assert forall|j: int| 0 <= j < items@.len() implies #[trigger] views[j] == items@[j]@ by {}
    match found {
        Some(k) => {
            assert(items@[k as int]@ == views[k as int]);
        },
        None => {},
    }
}

/// A segment leaves its line with the separator on its right, or else with the
/// one on its left; a preference reaches the separator on its right alone.
pub proof fn slots_change_side_by_side(idx: usize)
    ensures
        forall|items: &mut Vec<LayoutItem<'_>>| #[trigger]
            call_ensures(drop_segment_and_adjacent_separator, (items, idx), ()) && idx < (
            *items)@.len() ==> taken_out(
                item_views((*items)@),
                item_views(final(items)@),
                idx as int,
            ),
        forall|items: &mut Vec<LayoutItem<'_>>| #[trigger]
            call_ensures(apply_override_at, (items, idx), ()) && idx < (*items)@.len() ==> {
                let was = item_views((*items)@);
                let now = item_views(final(items)@);
                &&& now.len() == was.len()
                &&& forall|j: int| 0 <= j < was.len() && j != idx + 1 ==> #[trigger] now[j] == was[j]
                &&& idx + 1 < was.len() && was[idx + 1] is Segment ==> now[idx + 1] == was[idx + 1]
                &&& idx + 1 < was.len() && was[idx + 1] is Separator ==> (match was[idx as int] {
                    ItemView::Segment(e) => match e.rendered.right_separator {
                        Some(own) => now[idx + 1] == ItemView::Separator(own),
                        None => now[idx + 1] == was[idx + 1],
                    },
                    ItemView::Separator(_) => now[idx + 1] == was[idx + 1],
                })
            },
{
    assert forall|items: &mut Vec<LayoutItem<'_>>| #[trigger]
        call_ensures(drop_segment_and_adjacent_separator, (items, idx), ()) && idx < (
        *items)@.len() implies taken_out(
        item_views((*items)@),
        item_views(final(items)@),
        idx as int,
    ) by {
        let was = item_views((*items)@);
        let k = idx as int;
        assert(was.remove(k) =~= was.take(k) + was.skip(k + 1));
        if k + 1 < was.len() {
            assert(was.remove(k).remove(k) =~= was.take(k) + was.skip(k + 2));
        }
        if k > 0 {
            assert(was.remove(k).remove(k - 1) =~= was.take(k - 1) + was.skip(k + 1));
        }
    }
}

/// A line that is laid out fits, or has only pinned segments left; one that
/// fits before stays as it is, and nothing is told of it. No pinned segment is
/// lost.
pub proof fn line_is_laid_out<'a>(
    items: Vec<LayoutItem<'a>>,
    ctx: &DataContext,
    rc: &RenderContext,
    terminal_width: u16,
    out: Vec<LayoutItem<'a>>,
)
    ensures
        forall|told: &mut LayoutObservers| #[trigger]
            call_ensures(apply_layout, (items, ctx, rc, terminal_width, told), out) ==> {
                let was = item_views(items@);
                let now = item_views(out@);
                &&& total(now) <= terminal_width || forall|j: int|
                    0 <= j < now.len() ==> (#[trigger] now[j] matches ItemView::Segment(e)
                        ==> e.defaults.priority == 0)
                &&& pinned(now) == pinned(was)
                &&& total(was) <= terminal_width ==> now == was && final(told)@ == (*told)@
            },
{
    assert forall|told: &mut LayoutObservers| #[trigger]
        call_ensures(apply_layout, (items, ctx, rc, terminal_width, told), out) implies ({
        let was = item_views(items@);
        let now = item_views(out@);
        &&& total(now) <= terminal_width || forall|j: int|
            0 <= j < now.len() ==> (#[trigger] now[j] matches ItemView::Segment(e)
                ==> e.defaults.priority == 0)
        &&& pinned(now) == pinned(was)
        &&& total(was) <= terminal_width ==> now == was && final(told)@ == (*told)@
    }) by {
        let was = item_views(items@);
        let now = item_views(out@);
        let answers = choose|answers: Seq<Option<RenderedView>>|
            {
                &&& #[trigger] may_fit(was, terminal_width, *ctx, *rc, answers)
                &&& now == fitted(was, terminal_width as int, answers)
                &&& final(told)@ == (*told)@.then_report(fit_report(was, terminal_width, answers))
            };
        fits_or_is_pinned(now, terminal_width as int);
        pinned_segments_stay(was, terminal_width, *ctx, *rc, answers);
        if total(was) <= terminal_width {
            fitting_line_is_kept(was, terminal_width, *ctx, *rc, answers);
            lemma_empty_report((*told)@);
        }
    }
}

proof fn lemma_empty_report(report: ReportView)
    ensures
        report.then_report(ReportView::empty()) == report,
{
    assert(report.warnings + Seq::<Seq<char>>::empty() =~= report.warnings);
    assert(report.notices + Seq::<Seq<char>>::empty() =~= report.notices);
    assert(report.traces + Seq::<Seq<char>>::empty() =~= report.traces);
    assert(report.decisions + Seq::<DecisionView>::empty() =~= report.decisions);
}

// --- Bars ---------------------------------------------------------------

/// The cells of a bar in whole cells, straight from the mode to the numbers:
/// none is partial, and the full ones are the nearest to the exact fill.
pub proof fn whole_bar_has_no_partial_cell<'a>(
    pct: Percent,
    width: u16,
    glyph: &str,
    partial: PartialFill,
    cells: (usize, Option<&'a str>, usize),
)
    requires
        pct.wf(),
        call_ensures(FillMode::partial, (FillMode::Whole, glyph), partial),
        call_ensures(bar_cells, (pct, width, &partial), cells),
    ensures
        cells.1 is None,
        cells.0 + cells.2 == width,
        is_nearest(
            cells.0 as int,
            width * pct.numerator(),
            100 * pct.denominator(),
        ),
{
    whole_cells_are_the_nearest(pct, width as int, glyph@);
}

/// The cells of a bar in half cells: the glyph stands for a cell that is half
/// full or more.
pub proof fn half_bar_shows_the_half<'a>(
    pct: Percent,
    width: u16,
    glyph: &str,
    partial: PartialFill,
    cells: (usize, Option<&'a str>, usize),
)
    requires
        pct.wf(),
        call_ensures(FillMode::partial, (FillMode::Half, glyph), partial),
        call_ensures(bar_cells, (pct, width, &partial), cells),
    ensures
        ({
            let exact = width * pct.numerator();
            let cell = 100 * pct.denominator();
            &&& cells.0 * cell <= exact < (cells.0 + 1) * cell
            &&& cells.1 is Some <==> 2 * (exact - cells.0 * cell) >= cell
            &&& cells.1 matches Some(g) ==> g@ == glyph@
        }),
{
    half_cells_show_the_half(pct, width as int, glyph@);
}

/// A mode is read back from its word, and its cells are its own.
pub proof fn mode_goes_by_its_word(
    s: &str,
    mode: Option<FillMode>,
    cells: (&'static str, &'static str),
)
    requires
        call_ensures(FillMode::parse, (s,), mode),
        mode matches Some(m) ==> call_ensures(FillMode::preset_chars, (m,), cells),
    ensures
        mode == Some(FillMode::Half) <==> s@ == "half"@,
        mode == Some(FillMode::Whole) <==> s@ == "whole"@,
        mode == Some(FillMode::Eighth) <==> s@ == "eighth"@,
        mode == Some(FillMode::Braille) <==> s@ == "braille"@,
        mode == Some(FillMode::Braille) ==> cells.0@ == seq!['⣿'] && cells.1@ == seq!['\u{2800}'],
        mode is Some && mode != Some(FillMode::Braille) ==> cells.0@ == seq!['█'] && cells.1@
            == seq!['░'],
{
    reveal_strlit("half");
    reveal_strlit("whole");
    reveal_strlit("eighth");
    reveal_strlit("braille");
    assert("half"@.len() == 4);
    assert("whole"@.len() == 5);
    assert("eighth"@.len() == 6);
    assert("braille"@.len() == 7);
    reveal_strlit("⣿");
    reveal_strlit("█");
    reveal_strlit("⠀");
    reveal_strlit("░");
    assert("⣿"@ =~= seq!['⣿']);
    assert("█"@ =~= seq!['█']);
    assert("⠀"@ =~= seq!['\u{2800}']);
    assert("░"@ =~= seq!['░']);
}

/// A percentage is written with as many places as asked, the nearest that they
/// can write.
pub proof fn percentage_is_written_to_the_place(pct: Percent, places: u8, text: String) -> (parts: (
    nat,
    Seq<char>,
))
    requires
        pct.wf(),
        call_ensures(fixed_point_string, (pct, places), text),
    ensures
        places == 0 ==> text@ == decimal(parts.0),
        places > 0 ==> text@ == decimal(parts.0) + seq!['.'] + parts.1,
        parts.1.len() == places,
        is_digits(parts.1),
        is_nearest_even(
            (parts.0 * pow10(places as nat) + place_value(parts.1)) as int,
            (pct.numerator() * pow10(places as nat)) as int,
            pct.denominator() as int,
        ),
{
    decimal_places_are_the_nearest(
        pct.numerator() as nat,
        pct.denominator() as nat,
        places as nat,
    )
}

/// The size of a window is written exactly, in the largest unit that it is a
/// whole number of.
pub proof fn size_is_written_exactly(size: u32, text: String) -> (parts: (nat, nat))
    requires
        call_ensures(format_size, (size,), text),
    ensures
        parts.0 * parts.1 == size,
        parts.1 == 1_000_000 ==> text@ == decimal(parts.0) + seq!['M'],
        parts.1 == 1_000 ==> text@ == decimal(parts.0) + seq!['k'] && size % 1_000_000 != 0,
        parts.1 == 1 ==> text@ == decimal(parts.0) && (size % 1_000 != 0 || size == 0),
        parts.1 == 1 || parts.1 == 1_000 || parts.1 == 1_000_000,
{
    size_is_told_exactly(size)
}

// --- Branches -----------------------------------------------------------

/// A text that is cut in its middle stands for the whole of it, within its
/// columns; without a limit, and within it, it is the text itself.
pub proof fn cut_text_stands_for_the_whole(s: &str, max: u16, marker: &str, out: String) -> (at: (
    int,
    int,
))
    requires
        call_ensures(truncate_middle, (s, max, marker), out),
    ensures
        stands_for(out@, s@, max, marker@, at.0, at.1),
        max == 0 || columns(s@) <= max ==> out@ == s@,
{
    middle_cut_stands_for_the_text(s@, max, marker@)
}

/// A template is made of every text with a placeholder, and shows the count
/// wherever it is filled in.
pub proof fn template_fills_in_its_count(
    s: &str,
    made: Option<FormatTemplate>,
    n: u32,
    out: String,
)
    requires
        call_ensures(FormatTemplate::parse, (s,), made),
        made matches Some(t) ==> call_ensures(FormatTemplate::render, (&t, n), out),
    ensures
        made is Some <==> has_placeholder(s@),
        made is Some ==> out@ == filled_in(s@, decimal(n as nat)),
        made is Some ==> exists|i: int|
            0 <= i <= out@.len() - decimal(n as nat).len() && #[trigger] out@.subrange(
                i,
                i + decimal(n as nat).len(),
            ) == decimal(n as nat),
{
    if made is Some {
        template_shows_its_count(s@, decimal(n as nat));
    }
}

// --- Plugins ------------------------------------------------------------

/// A plugin's value is shown, hidden or refused by its shape, under the
/// plugin's own id.
pub proof fn value_is_judged_by_its_shape(
    value: &ScriptValue,
    id: &str,
    out: Result<Option<RenderedSegment>, PluginError>,
)
    requires
        call_ensures(validate_return, (value, id), out),
    ensures
        good_value(*value) <==> (out matches Ok(shown) && shown is Some),
        *value is Unit <==> (out matches Ok(shown) && shown is None),
        out matches Err(PluginError::MalformedReturn { id: who, .. }) ==> who@ == id@,
{
    plugin_output_is_accepted_by_its_shape(*value);
}

/// What is shown of a plugin's value is what its one run says, in the style that
/// the run's map says.
pub proof fn shown_value_is_what_the_map_says(
    value: &ScriptValue,
    id: &str,
    shown: RenderedSegment,
) -> (maps: (Seq<Entry<ScriptValue>>, Seq<Entry<ScriptValue>>, Seq<char>))
    requires
        call_ensures(validate_return, (value, id), Ok(Some(shown))),
    ensures
        *value matches ScriptValue::Table(map) && map@ == maps.0,
        lookup(maps.0, "runs"@) matches Some(ScriptValue::Array(runs)) && runs@.len() == 1 && (
        runs@[0] matches ScriptValue::Table(run) && run@ == maps.1),
        text_under(maps.1, "text"@) == Some(maps.2),
        shown@.text == printable(maps.2),
        shown@.width == cell_width(shown@.text),
        style_said(maps.1, shown@.style),
{
    plugin_output_is_what_the_map_says(*value, shown@)
}

/// The separator that a plugin names is one of three words, or else its text
/// without control characters.
pub proof fn named_separator_is_said(s: &str, sep: Separator)
    requires
        call_ensures(parse_right_separator, (s,), sep),
    ensures
        separator_said(s@, sep@),
{
}

// --- Configuration ------------------------------------------------------

/// An entry meets the next where it says so, and shares its color with it where
/// it says so or meets it without saying otherwise.
pub proof fn entry_tells_merge_and_group(entry: &LineEntry, merge: bool, group: bool)
    requires
        call_ensures(LineEntry::merge, (entry,), merge),
        call_ensures(LineEntry::group, (entry,), group),
    ensures
        merge == meets_the_next(*entry),
        group == shares_with_the_next(*entry),
{
}

/// An id is kept as it is for a slot, borrowed exactly where it is built in.
pub proof fn id_is_kept(
    id: &str,
    found: Option<&'static str>,
    kept: std::borrow::Cow<'static, str>,
)
    requires
        call_ensures(find_built_in, (id,), found),
        call_ensures(resolve_segment_id, (id,), kept),
    ensures
        kept@ == id@,
        found is Some <==> is_built_in(id@),
        found matches Some(name) ==> name@ == id@,
        found is Some <==> kept is Borrowed,
{
}

/// The settings that are found for an id are those of the first entry that
/// names it.
pub proof fn settings_are_found_by_the_id(
    segments: &Vec<NamedOverride>,
    id: &str,
    found: Option<&SegmentOverride>,
)
    requires
        call_ensures(find_settings, (segments, id), found),
    ensures
        found is None <==> forall|i: int|
            0 <= i < segments@.len() ==> (#[trigger] segments@[i]).id@ != id@,
        forall|i: int|
            0 <= i < segments@.len() && (#[trigger] segments@[i]).id@ == id@ && (forall|k: int|
                0 <= k < i ==> (#[trigger] segments@[k]).id@ != id@) ==> found is Some && *(
            found->0) == segments@[i].settings,
{
    settings_go_by_the_id(segments@, id@);
}

/// A preset is had by its name, and by no other.
pub proof fn preset_is_had_by_its_name(name: &str, found: Option<&'static str>, i: int)
    requires
        call_ensures(body, (name,), found),
        0 <= i < 5,
    ensures
        name@ == PRESET_NAMES[i]@ ==> found == Some(PRESET_BODIES[i]),
        (forall|k: int| 0 <= k < 5 ==> (#[trigger] PRESET_NAMES[k])@ != name@) ==> found is None,
{
    every_preset_is_found(i);
    if forall|k: int| 0 <= k < 5 ==> (#[trigger] PRESET_NAMES[k])@ != name@ {
        reveal_with_fuel(preset_place, 6);
        assert(PRESET_NAMES[0]@ != name@);
        assert(PRESET_NAMES[1]@ != name@);
        assert(PRESET_NAMES[2]@ != name@);
        assert(PRESET_NAMES[3]@ != name@);
        assert(PRESET_NAMES[4]@ != name@);
    }
}

/// The map that a plugin gets holds every key of its table, with what stands
/// there, and no others.
pub proof fn plugin_gets_its_table(
    table: &Table<Value>,
    map: Table<ScriptValue>,
    key: &str,
    there: Option<&Value>,
    seen: Option<&ScriptValue>,
)
    requires
        call_ensures(toml_table_to_dynamic, (table,), map),
        call_ensures(Table::<Value>::get, (table, key), there),
        call_ensures(Table::<ScriptValue>::get, (&map, key), seen),
    ensures
        there is None <==> seen is None,
        there matches Some(v) ==> mirrors(*v, *(seen->0)),
{
    script_finds_every_key(table@, map@, key@);
}

// --- Output -------------------------------------------------------------

/// One run is emitted as its text between what opens it and what closes it.
pub proof fn one_run_is_emitted_closed(
    run: StyledRun,
    runs: &[StyledRun],
    open: String,
    opens: Vec<String>,
    links: bool,
    out: String,
)
    requires
        runs@ == seq![run],
        opens@ == seq![open],
        call_ensures(emit_runs, (runs, &opens, links), out),
    ensures
        run@.style.hyperlink is None || !links ==> out@ == (if open@.len() > 0 {
            open@ + run@.text + seq!['\u{1b}', '[', '0', 'm']
        } else {
            run@.text
        }),
{
    run_closes_what_it_opens(run@, open@, links);
    assert(run_views(runs@) =~= seq![run@]);
    assert(texts(opens@) =~= seq![open@]);
}

} // verus!
