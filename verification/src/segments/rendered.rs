//! What a segment renders to: text that is free of control characters, its
//! cell width, its colors, and the separator it prefers on its right.

use vstd::prelude::*;
use vstd::string::StringExecFns;

use crate::cells::{cell_width, text_width};
use crate::segments::separator::{separator_in, Separator, SeparatorView};
use crate::text::{is_control, is_printable, printable, sanitize_control_chars};
use crate::theme::{
    copy_runs, join_runs, plain_style, run_views, runs_text, Color, Role, RunView, Style, StyleView,
    StyledRun,
};

verus! {

/// The color that a member of a group takes from the group's lead.
#[derive(Debug, Clone, Copy, PartialEq, Eq, Structural)]
pub struct GroupColor {
    pub role: Option<Role>,
    pub fg: Option<Color>,
}

/// What `RenderedSegment` says.
pub struct RenderedView {
    pub text: Seq<char>,
    pub width: u16,
    pub right_separator: Option<SeparatorView>,
    pub style: StyleView,
    pub spans: Option<Seq<RunView>>,
}

impl RenderedView {
    /// The text holds no control character, and the spans, of which there
    /// are two or more, spell it.
    pub open spec fn wf(self) -> bool {
        &&& is_printable(self.text)
        &&& self.spans matches Some(spans) ==> spans.len() >= 2 && runs_text(spans) == self.text
    }

    /// `text` without its control characters, unstyled.
    pub open spec fn of_text(text: Seq<char>) -> RenderedView {
        RenderedView {
            text: printable(text),
            width: cell_width(printable(text)),
            right_separator: None,
            style: plain_style(),
            spans: None,
        }
    }

    /// The segment that `spans` paint.
    pub open spec fn of_spans(spans: Seq<RunView>) -> RenderedView {
        let m = merged(spans);
        RenderedView {
            text: runs_text(m),
            width: cell_width(runs_text(m)),
            right_separator: None,
            style: if m.len() == 1 {
                m[0].style
            } else {
                plain_style()
            },
            spans: if m.len() >= 2 {
                Some(m)
            } else {
                None
            },
        }
    }

    /// The same segment behind `icon` and a space.
    pub open spec fn behind_icon(self, icon: Seq<char>) -> RenderedView {
        let prefix = printable(icon + " "@);
        RenderedView {
            text: prefix + self.text,
            width: cell_width(prefix + self.text),
            spans: match self.spans {
                Some(spans) => Some(
                    if spans[0].style == self.style {
                        spans.update(
                            0,
                            RunView { text: prefix + spans[0].text, style: self.style },
                        )
                    } else {
                        spans.insert(0, RunView { text: prefix, style: self.style })
                    },
                ),
                None => None,
            },
            ..self
        }
    }

    /// The same segment in the color of its group.
    pub open spec fn recolored(self, color: GroupColor) -> RenderedView {
        RenderedView {
            style: StyleView { role: color.role, fg: color.fg, ..self.style },
            spans: match self.spans {
                Some(spans) => Some(
                    Seq::new(
                        spans.len(),
                        |i: int|
                            RunView {
                                text: spans[i].text,
                                style: StyleView {
                                    role: color.role,
                                    fg: color.fg,
                                    ..spans[i].style
                                },
                            },
                    ),
                ),
                None => None,
            },
            ..self
        }
    }
}

/// `spans` without control characters, without empty spans, and with
/// neighbors of one style made one.
pub open spec fn merged(spans: Seq<RunView>) -> Seq<RunView>
    decreases spans.len(),
{
    if spans.len() == 0 {
        seq![]
    } else {
        let m = merged(spans.drop_last());
        let last = spans.last();
        let text = printable(last.text);
        if text.len() == 0 {
            m
        } else if m.len() > 0 && m.last().style == last.style {
            m.drop_last().push(RunView { text: m.last().text + text, style: last.style })
        } else {
            m.push(RunView { text, style: last.style })
        }
    }
}

/// What is left of a text without its control characters holds none, and a
/// text that holds none is left as it is.
pub proof fn lemma_printable(s: Seq<char>)
    ensures
        is_printable(printable(s)),
        is_printable(s) ==> printable(s) == s,
    decreases s.len(),
{
    reveal(Seq::filter);
    if s.len() > 0 {
        lemma_printable(s.drop_last());
        let rest = printable(s.drop_last());
        assert forall|i: int| 0 <= i < printable(s).len() implies !is_control(
            #[trigger] printable(s)[i],
        ) by {
            if i < rest.len() {
                assert(printable(s)[i] == rest[i]);
            }
        }
        if is_printable(s) {
            assert(is_printable(s.drop_last())) by {
                assert forall|i: int| 0 <= i < s.drop_last().len() implies !is_control(
                    #[trigger] s.drop_last()[i],
                ) by {
                    assert(s.drop_last()[i] == s[i]);
                }
            }
            assert(!is_control(s[s.len() - 1]));
            assert(s =~= s.drop_last().push(s.last()));
        }
    }
}

proof fn lemma_printable_concat(a: Seq<char>, b: Seq<char>)
    requires
        is_printable(a),
        is_printable(b),
    ensures
        is_printable(a + b),
{
    assert forall|i: int| 0 <= i < (a + b).len() implies !is_control(#[trigger] (a + b)[i]) by {
        if i < a.len() {
            assert((a + b)[i] == a[i]);
        } else {
            assert((a + b)[i] == b[i - a.len()]);
        }
    }
}

/// What `from_spans` promises of the runs it keeps: none is empty, none holds
/// a control character, and no two neighbors share a style.
pub proof fn lemma_merged(spans: Seq<RunView>)
    ensures
        is_printable(runs_text(merged(spans))),
        forall|i: int|
            0 <= i < merged(spans).len() ==> (#[trigger] merged(spans)[i]).text.len() > 0
                && is_printable(merged(spans)[i].text),
        forall|i: int|
            0 <= i < merged(spans).len() - 1 ==> (#[trigger] merged(spans)[i]).style != merged(
                spans,
            )[i + 1].style,
    decreases spans.len(),
{
    if spans.len() > 0 {
        let before = spans.drop_last();
        lemma_merged(before);
        let m = merged(before);
        let text = printable(spans.last().text);
        lemma_printable(spans.last().text);
        if text.len() > 0 {
            if m.len() > 0 && m.last().style == spans.last().style {
                let grown = RunView { text: m.last().text + text, style: spans.last().style };
                assert(m.drop_last().push(grown).drop_last() =~= m.drop_last());
                lemma_printable_concat(m.last().text, text);
                assert(runs_text(m.drop_last().push(grown)) =~= runs_text(m) + text);
                lemma_printable_concat(runs_text(m), text);
            } else {
                assert(m.push(RunView { text, style: spans.last().style }).drop_last() =~= m);
                lemma_printable_concat(runs_text(m), text);
            }
        }
    }
}

proof fn lemma_runs_text_first(runs: Seq<RunView>, first: RunView, text: Seq<char>)
    requires
        runs.len() > 0,
        first.text == text + runs[0].text,
    ensures
        runs_text(runs.update(0, first)) == text + runs_text(runs),
    decreases runs.len(),
{
    let out = runs.update(0, first);
    if runs.len() == 1 {
        reveal_with_fuel(runs_text, 2);
        assert(out.drop_last() =~= seq![]);
        assert(runs.drop_last() =~= seq![]);
        assert(runs_text(out) =~= first.text);
        assert(text + runs_text(runs) =~= text + runs[0].text);
    } else {
        assert(out.drop_last() =~= runs.drop_last().update(0, first));
        lemma_runs_text_first(runs.drop_last(), first, text);
        assert(runs_text(out) =~= text + runs_text(runs));
    }
}

proof fn lemma_runs_text_insert(runs: Seq<RunView>, first: RunView)
    ensures
        runs_text(runs.insert(0, first)) == first.text + runs_text(runs),
    decreases runs.len(),
{
    let out = runs.insert(0, first);
    if runs.len() == 0 {
        reveal_with_fuel(runs_text, 2);
        assert(out.drop_last() =~= seq![]);
        assert(runs_text(out) =~= first.text + runs_text(runs));
    } else {
        assert(out.drop_last() =~= runs.drop_last().insert(0, first));
        lemma_runs_text_insert(runs.drop_last(), first);
        assert(runs_text(out) =~= first.text + runs_text(runs));
    }
}

proof fn lemma_runs_text_same(a: Seq<RunView>, b: Seq<RunView>)
    requires
        a.len() == b.len(),
        forall|i: int| 0 <= i < a.len() ==> (#[trigger] a[i]).text == b[i].text,
    ensures
        runs_text(a) == runs_text(b),
    decreases a.len(),
{
    if a.len() > 0 {
        assert forall|i: int| 0 <= i < a.len() - 1 implies (#[trigger] a.drop_last()[i]).text
            == b.drop_last()[i].text by {
            assert(a[i].text == b[i].text);
        }
        lemma_runs_text_same(a.drop_last(), b.drop_last());
        assert(a[a.len() - 1].text == b[b.len() - 1].text);
    }
}

/// However a render comes about, short of being cut, its width is that of its
/// text: out of a text, out of spans, behind an icon, and under another color.
pub proof fn width_is_that_of_the_text(
    text: Seq<char>,
    spans: Seq<RunView>,
    rendered: RenderedView,
    icon: Seq<char>,
    color: GroupColor,
)
    ensures
        RenderedView::of_text(text).width == cell_width(RenderedView::of_text(text).text),
        RenderedView::of_spans(spans).width == cell_width(RenderedView::of_spans(spans).text),
        rendered.behind_icon(icon).width == cell_width(rendered.behind_icon(icon).text),
        rendered.recolored(color).width == rendered.width,
        rendered.recolored(color).text == rendered.text,
{
}

/// A repaint changes color alone, and of two repaints the later one counts.
pub proof fn repaint_changes_color_alone(
    rendered: RenderedView,
    first: GroupColor,
    second: GroupColor,
)
    ensures
        rendered.recolored(first).recolored(second) == rendered.recolored(second),
        rendered.recolored(first).style == (StyleView {
            role: first.role,
            fg: first.fg,
            ..rendered.style
        }),
        rendered.wf() ==> rendered.recolored(first).wf(),
{
    if let Some(spans) = rendered.spans {
        let once = rendered.recolored(first).spans->0;
        assert(rendered.recolored(first).recolored(second).spans->0 =~= rendered.recolored(
            second,
        ).spans->0);
        lemma_runs_text_same(spans, once);
    }
}

/// Output of a successful segment render. The constructors strip control
/// characters, so no render can carry an escape sequence in its text.
#[derive(Debug, PartialEq, Eq)]
#[non_exhaustive]
pub struct RenderedSegment {
    text: String,
    width: u16,
    right_separator: Option<Separator>,
    style: Style,
    spans: Option<Vec<StyledRun>>,
}

impl View for RenderedSegment {
    type V = RenderedView;

    closed spec fn view(&self) -> RenderedView {
        RenderedView {
            text: self.text@,
            width: self.width,
            right_separator: separator_in(self.right_separator),
            style: self.style@,
            spans: match self.spans {
                Some(spans) => Some(run_views(spans@)),
                None => None,
            },
        }
    }
}

impl Clone for RenderedSegment {
    fn clone(&self) -> (r: RenderedSegment)
        ensures
            r@ == self@,
    {
        proof {
            use_type_invariant(self);
        }
        RenderedSegment {
            text: self.text.clone(),
            width: self.width,
            right_separator: match &self.right_separator {
                Some(s) => Some(s.clone()),
                None => None,
            },
            style: self.style.clone(),
            spans: match &self.spans {
                Some(spans) => Some(copy_runs(spans)),
                None => None,
            },
        }
    }
}

impl RenderedSegment {
    #[verifier::type_invariant]
    closed spec fn inv(self) -> bool {
        self@.wf()
    }

    /// `text` without its control characters, its width computed.
    #[must_use]
    pub fn new(text: &str) -> (r: RenderedSegment)
        ensures
            r@ == RenderedView::of_text(text@),
            r@.wf(),
    {
        let text = sanitize_control_chars(text);
        proof {
            lemma_printable(text@);
        }
        let width: u16 = text_width(text.as_str());
        RenderedSegment { text, width, right_separator: None, style: Style::default(), spans: None }
    }

    /// `text`, with `separator` preferred on its right edge.
    #[must_use]
    pub fn with_separator(text: &str, separator: Separator) -> (r: RenderedSegment)
        ensures
            r@ == (RenderedView {
                right_separator: Some(separator@),
                ..RenderedView::of_text(text@)
            }),
            r@.wf(),
    {
        let text = sanitize_control_chars(text);
        let width: u16 = text_width(text.as_str());
        RenderedSegment {
            text,
            width,
            right_separator: Some(separator),
            style: Style::default(),
            spans: None,
        }
    }

    /// A multi-color segment out of styled spans. Spans of one style that
    /// meet are made one; spans that hold nothing are dropped. Where one run
    /// is left, its style is the whole segment's and there are no spans.
    #[must_use]
    pub fn from_spans(spans: Vec<StyledRun>) -> (r: RenderedSegment)
        ensures
            r@ == RenderedView::of_spans(run_views(spans@)),
            r@.wf(),
    {
        let mut merged_runs: Vec<StyledRun> = Vec::new();
        let ghost views = run_views(spans@);
        let mut i: usize = 0;
        while i < spans.len()
            invariant
                i <= spans@.len(),
                views == run_views(spans@),
                run_views(merged_runs@) == merged(views.take(i as int)),
            decreases spans@.len() - i,
        {
            let span = &spans[i];
            let text = sanitize_control_chars(span.text.as_str());
            proof {
                assert(views.take(i + 1).drop_last() =~= views.take(i as int));
                assert(views.take(i + 1).last() == span@);
            }
            let ghost before = merged_runs@;
            if text.as_str().is_empty() {
            } else if merged_runs.len() > 0 && merged_runs[merged_runs.len() - 1].style.same(
                &span.style,
            ) {
                let at: usize = merged_runs.len() - 1;
                let mut grown = merged_runs[at].text.clone();
                grown.append(text.as_str());
                let style = span.style.clone();
                merged_runs.set(at, StyledRun { text: grown, style });
                assert(run_views(before).last() == before[at as int]@);
                assert(run_views(merged_runs@) =~= run_views(before).drop_last().push(
                    merged_runs@[at as int]@,
                ));
            } else {
                merged_runs.push(StyledRun { text, style: span.style.clone() });
                assert(before.len() > 0 ==> run_views(before).last() == before[before.len()
                    - 1]@);
                assert(run_views(merged_runs@) =~= run_views(before).push(
                    merged_runs@[before.len() as int]@,
                ));
            }
            i += 1;
        }
        assert(views.take(i as int) =~= views);
        proof {
            lemma_merged(views);
        }
        let text = join_runs(&merged_runs);
        let width: u16 = text_width(text.as_str());
        if merged_runs.len() >= 2 {
            RenderedSegment {
                text,
                width,
                right_separator: None,
                style: Style::default(),
                spans: Some(merged_runs),
            }
        } else {
            let style = if merged_runs.len() == 1 {
                merged_runs[0].style.clone()
            } else {
                Style::default()
            };
            RenderedSegment { text, width, right_separator: None, style, spans: None }
        }
    }

    /// The same segment with its theme role set; its decorations stay.
    #[must_use]
    pub fn with_role(self, role: Role) -> (r: RenderedSegment)
        ensures
            r@ == (RenderedView {
                style: StyleView { role: Some(role), ..self@.style },
                ..self@
            }),
            r@.wf(),
    {
        proof {
            use_type_invariant(&self);
        }
        RenderedSegment { style: Style { role: Some(role), ..self.style }, ..self }
    }

    /// The same segment with its style replaced.
    #[must_use]
    pub fn with_style(self, style: Style) -> (r: RenderedSegment)
        ensures
            r@ == (RenderedView { style: style@, ..self@ }),
            r@.wf(),
    {
        proof {
            use_type_invariant(&self);
        }
        RenderedSegment { style, ..self }
    }

    /// Style this segment wants applied when it is drawn.
    #[must_use]
    pub fn style(&self) -> (r: &Style)
        ensures
            r@ == self@.style,
    {
        &self.style
    }

    /// The rendered text. It holds no control character.
    #[must_use]
    pub fn text(&self) -> (r: &str)
        ensures
            r@ == self@.text,
            self@.wf(),
    {
        proof {
            use_type_invariant(self);
        }
        self.text.as_str()
    }

    /// Cell width of the rendered text.
    #[must_use]
    pub fn width(&self) -> (r: u16)
        ensures
            r == self@.width,
    {
        self.width
    }

    /// The color spans, if this segment paints more than one color.
    #[must_use]
    pub fn spans(&self) -> (r: Option<&[StyledRun]>)
        ensures
            match r {
                Some(spans) => self@.spans == Some(run_views(spans@)),
                None => self@.spans is None,
            },
            self@.wf(),
    {
        proof {
            use_type_invariant(self);
        }
        match &self.spans {
            Some(spans) => Some(spans.as_slice()),
            None => None,
        }
    }

    /// The same segment as a single run in its own style.
    #[must_use]
    pub fn without_spans(self) -> (r: RenderedSegment)
        ensures
            r@ == (RenderedView { spans: None, ..self@ }),
            r@.wf(),
    {
        proof {
            use_type_invariant(&self);
        }
        RenderedSegment { spans: None, ..self }
    }

    /// The color that this segment lends to its group: that of the whole
    /// segment, whatever its spans paint.
    #[must_use]
    pub fn group_lead_color(&self) -> (r: GroupColor)
        ensures
            r == (GroupColor { role: self@.style.role, fg: self@.style.fg }),
    {
        GroupColor { role: self.style.role, fg: self.style.fg }
    }

    /// Repaint this segment, its spans too, in the color of its group.
    /// Decorations and links stay.
    pub fn recolor_for_group(&mut self, color: GroupColor)
        ensures
            final(self)@ == old(self)@.recolored(color),
    {
        proof {
            use_type_invariant(&*self);
        }
        let mut spans: Option<Vec<StyledRun>> = None;
        if let Some(old_spans) = &self.spans {
            let mut painted: Vec<StyledRun> = Vec::new();
            let mut i: usize = 0;
            while i < old_spans.len()
                invariant
                    i <= old_spans@.len(),
                    painted@.len() == i,
                    forall|k: int|
                        0 <= k < i ==> (#[trigger] painted@[k])@ == (RunView {
                            text: old_spans@[k]@.text,
                            style: StyleView {
                                role: color.role,
                                fg: color.fg,
                                ..old_spans@[k]@.style
                            },
                        }),
                decreases old_spans@.len() - i,
            {
                let span = old_spans[i].clone();
                painted.push(
                    StyledRun {
                        text: span.text,
                        style: Style { role: color.role, fg: color.fg, ..span.style },
                    },
                );
                i += 1;
            }
            proof {
                lemma_runs_text_same(run_views(old_spans@), run_views(painted@));
                assert(Some(run_views(painted@)) =~= self@.recolored(color).spans);
            }
            spans = Some(painted);
        }
        let style = self.style.clone();
        *self = RenderedSegment {
            text: self.text.clone(),
            width: self.width,
            right_separator: match &self.right_separator {
                Some(s) => Some(s.clone()),
                None => None,
            },
            style: Style { role: color.role, fg: color.fg, ..style },
            spans,
        };
    }

    /// The same segment behind `icon` and a space. Where the segment has
    /// spans, the icon joins the first span if that has the segment's style,
    /// and is a span of its own if not.
    #[must_use]
    pub fn with_icon_prefix(self, icon: &str) -> (r: RenderedSegment)
        ensures
            r@ == self@.behind_icon(icon@),
            r@.wf(),
    {
        proof {
            use_type_invariant(&self);
        }
        let ghost before = self@;
        let mut raw = String::new();
        raw.append(icon);
        raw.append(" ");
        let prefix = sanitize_control_chars(raw.as_str());
        assert(raw@ =~= icon@ + " "@);
        let mut text = prefix.clone();
        text.append(self.text.as_str());
        let width: u16 = text_width(text.as_str());
        proof {
            lemma_printable(raw@);
            lemma_printable_concat(prefix@, self.text@);
        }
        let spans = match self.spans {
            Some(old_spans) => {
                let mut spans = old_spans;
                let ghost views = run_views(old_spans@);
                if spans[0].style.same(&self.style) {
                    let mut first = prefix;
                    first.append(spans[0].text.as_str());
                    let run = StyledRun { text: first, style: self.style.clone() };
                    spans.set(0, run);
                    assert(run_views(spans@) =~= views.update(0, run@));
                    proof {
                        lemma_runs_text_first(views, run@, prefix@);
                    }
                } else {
                    let run = StyledRun { text: prefix, style: self.style.clone() };
                    spans.insert(0, run);
                    assert(run_views(spans@) =~= views.insert(0, run@));
                    proof {
                        lemma_runs_text_insert(views, run@);
                    }
                }
                Some(spans)
            },
            None => None,
        };
        RenderedSegment {
            text,
            width,
            right_separator: self.right_separator,
            style: self.style,
            spans,
        }
    }

    /// Separator this render prefers on its right edge, if any.
    #[must_use]
    pub fn right_separator(&self) -> (r: Option<&Separator>)
        ensures
            match r {
                Some(s) => self@.right_separator == Some(s@),
                None => self@.right_separator is None,
            },
    {
        match &self.right_separator {
            Some(s) => Some(s),
            None => None,
        }
    }

    /// The segment `from` with another text of an explicit width, and without
    /// spans. The width need not be that of the text: a cut text is as wide
    /// as the clusters it kept.
    #[must_use]
    pub(crate) fn from_parts(from: RenderedSegment, text: String, width: u16) -> (r: RenderedSegment)
        requires
            is_printable(text@),
        ensures
            r@ == (RenderedView { text: text@, width, spans: None, ..from@ }),
            r@.wf(),
    {
        RenderedSegment { text, width, spans: None, ..from }
    }
}

} // verus!
