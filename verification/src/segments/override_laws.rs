//! What holds of every segment under the configuration that a user lays over
//! it.

use vstd::prelude::*;

use crate::cells::cell_width;
use crate::data_context::{DataContext, DataDep};
use crate::segments::rendered::{lemma_printable, RenderedView};
use crate::segments::rendered_laws::{icon_goes_in_front, lemma_printable_concat, painted_render};
use crate::segments::segment::{
    overridden, Outcome, OverriddenSegment, RenderContext, Segment, SegmentError,
};
use crate::segments::separator::SegmentDefaults;
use crate::text::printable;
use crate::theme::StyleView;

verus! {

/// `top` has the look of the user's style: role, color and decorations are the
/// user's, whatever they were below, on or off. The link is the user's where
/// the user has one.
pub open spec fn takes_style(top: RenderedView, below: RenderedView, user: StyleView) -> bool {
    &&& top.style.role == user.role
    &&& top.style.fg == user.fg
    &&& top.style.bold == user.bold
    &&& top.style.italic == user.italic
    &&& top.style.underline == user.underline
    &&& top.style.dim == user.dim
    &&& user.hyperlink is Some ==> top.style.hyperlink == user.hyperlink
    &&& user.hyperlink is None ==> top.style.hyperlink == below.style.hyperlink
    &&& top.spans is None
}

/// `top` is `below` under the user's style and icon. The icon and a space
/// stand in front of the text; nothing else of the text changes, and without
/// either all stays.
pub open spec fn lies_over(
    top: RenderedView,
    below: RenderedView,
    style: Option<StyleView>,
    icon: Seq<char>,
) -> bool {
    &&& match style {
        Some(user) => takes_style(top, below, user),
        None => top.style == below.style,
    }
    &&& top.right_separator == below.right_separator
    &&& icon.len() == 0 ==> top.text == below.text && top.width == below.width
    &&& icon.len() > 0 ==> {
        &&& top.text == printable(icon) + seq![' '] + below.text
        &&& top.width == cell_width(top.text)
    }
    &&& icon.len() == 0 && style is None ==> top == below
    &&& icon.len() > 0 && style is None && below.wf() ==> painted_render(top) == Seq::new(
        printable(icon).len() + 1,
        |i: int| (top.text[i], below.style),
    ) + painted_render(below)
}

/// The icon in `icon`, empty where there is none.
pub open spec fn icon_or_none(icon: Option<Seq<char>>) -> Seq<char> {
    match icon {
        Some(i) => i,
        None => seq![],
    }
}

proof fn lemma_lies_over(r: RenderedView, style: Option<StyleView>, icon: Option<Seq<char>>)
    ensures
        lies_over(overridden(r, style, icon), r, style, icon_or_none(icon)),
{
    let i = icon_or_none(icon);
    let top = overridden(r, style, icon);
    if i.len() > 0 {
        reveal_strlit(" ");
        assert(" "@ =~= seq![' ']);
        lemma_printable_concat(i, " "@);
        lemma_printable(" "@);
        if style is None && r.wf() {
            icon_goes_in_front(r, i);
            let front = printable(i) + seq![' '];
            assert(Seq::new(front.len(), |k: int| (front[k], r.style)) =~= Seq::new(
                printable(i).len() + 1,
                |k: int| (top.text[k], r.style),
            ));
        }
    }
}

/// What a segment renders shows under the user's style and icon; what it
/// hides, and its failures, come through as they are.
pub proof fn user_configuration_lies_over_the_render(
    segment: OverriddenSegment,
    ctx: DataContext,
    rc: RenderContext,
    out: Outcome,
) -> (below: Outcome)
    requires
        segment.renders(ctx, rc, out),
    ensures
        segment.below().segment.renders(ctx, rc, below),
        match below {
            Ok(Some(r)) => out matches Ok(Some(top)) && lies_over(
                top,
                r,
                segment.style_set(),
                icon_or_none(segment.icon_set()),
            ),
            Ok(None) => out == below,
            Err(_) => out == below,
        },
{
    let below = choose|o: Outcome| #[trigger]
        segment.below().segment.renders(ctx, rc, o) && out == match o {
            Ok(Some(r)) => Ok(Some(overridden(r, segment.style_set(), segment.icon_set()))),
            Ok(None) => Ok(None),
            Err(e) => Err(e),
        };
    match below {
        Ok(Some(r)) => {
            lemma_lies_over(r, segment.style_set(), segment.icon_set());
        },
        _ => {},
    }
    below
}

/// The cells that an icon and its space take in front of a text: at most as
/// many as a width can count.
pub open spec fn cells_in_front(icon: Seq<char>) -> int {
    if icon.len() == 0 {
        0
    } else if cell_width(icon) == 0xffff {
        0xffff
    } else {
        cell_width(icon) + 1
    }
}

/// The compact form is asked for without the cells of the icon, and not asked
/// for where these alone are too many; the user's style and icon lie over what
/// comes back.
pub proof fn compact_form_leaves_room_for_the_icon(
    segment: OverriddenSegment,
    ctx: DataContext,
    rc: RenderContext,
    target: u16,
    out: Option<RenderedView>,
) -> (below: Option<RenderedView>)
    requires
        segment.shrinks(ctx, rc, target, out),
    ensures
        cells_in_front(icon_or_none(segment.icon_set())) > target ==> out is None,
        cells_in_front(icon_or_none(segment.icon_set())) <= target ==> {
            &&& segment.below().segment.shrinks(
                ctx,
                rc,
                (target - cells_in_front(icon_or_none(segment.icon_set()))) as u16,
                below,
            )
            &&& match below {
                Some(r) => out matches Some(top) && lies_over(
                    top,
                    r,
                    segment.style_set(),
                    icon_or_none(segment.icon_set()),
                ),
                None => out is None,
            }
        },
{
    let cells = cells_in_front(icon_or_none(segment.icon_set()));
    if cells > target {
        None
    } else {
        let below = choose|o: Option<RenderedView>| #[trigger]
            segment.below().segment.shrinks(ctx, rc, (target - cells) as u16, o) && out == match o {
                Some(r) => Some(overridden(r, segment.style_set(), segment.icon_set())),
                None => None,
            };
        match below {
            Some(r) => {
                lemma_lies_over(r, segment.style_set(), segment.icon_set());
            },
            None => {},
        }
        below
    }
}

/// A user's priority and width bounds take the place of the segment's, each by
/// itself; icon and truncation stay the segment's. What the segment reads and
/// why it hides stay as well.
pub proof fn user_intent_lies_over_the_segments(
    segment: OverriddenSegment,
    d: SegmentDefaults,
    deps: Seq<DataDep>,
    ctx: DataContext,
    reason: Option<Seq<char>>,
) -> (below: SegmentDefaults)
    requires
        segment.declares(d),
        segment.reads(deps),
        segment.explains(ctx, reason),
    ensures
        segment.below().segment.declares(below),
        segment.below().segment.reads(deps),
        segment.below().segment.explains(ctx, reason),
        segment.priority_set() matches Some(p) ==> d.priority == p,
        segment.priority_set() is None ==> d.priority == below.priority,
        segment.width_set() is Some ==> d.width == segment.width_set(),
        segment.width_set() is None ==> d.width == below.width,
        d.icon == below.icon,
        d.truncatable == below.truncatable,
{
    choose|below: SegmentDefaults| #[trigger]
        segment.below().segment.declares(below)
            && d == crate::segments::segment::intent_over(
            below,
            segment.priority_set(),
            segment.width_set(),
        )
}

/// A segment's color is fixed exactly where the user's style has a role or a
/// color; decorations alone fix nothing.
pub proof fn color_is_fixed_by_role_or_color(segment: OverriddenSegment, fixed: bool)
    requires
        segment.pins_color(fixed),
    ensures
        segment.style_set() is None ==> !fixed,
        segment.style_set() matches Some(s) ==> (fixed <==> !(s.role is None && s.fg is None)),
{
}

/// A failure names its message, and its cause behind a colon and a space.
pub proof fn failure_names_its_cause(e: SegmentError)
    ensures
        e.message@.is_prefix_of(e.words()),
        e.source is None ==> e.words() == e.message@,
        e.source matches Some(cause) ==> e.words().skip(e.message@.len() as int) == seq![':', ' ']
            + cause@,
{
    reveal_strlit(": ");
    assert(": "@ =~= seq![':', ' ']);
    match e.source {
        Some(cause) => {
            assert(e.words().skip(e.message@.len() as int) =~= seq![':', ' '] + cause@);
        },
        None => {},
    }
}

} // verus!
