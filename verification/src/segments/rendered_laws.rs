//! What holds of every render: which characters it shows, and in which look.

use vstd::prelude::*;

use crate::cells::cell_width;
use crate::segments::rendered::{lemma_printable, merged, GroupColor, RenderedView};
use crate::text::{is_control, is_printable, printable};
use crate::theme::{runs_text, RunView, StyleView};

verus! {

/// The characters of `runs` from left to right, each with its look.
pub open spec fn painted_chars(runs: Seq<RunView>) -> Seq<(char, StyleView)>
    decreases runs.len(),
{
    if runs.len() == 0 {
        seq![]
    } else {
        let last = runs.last();
        painted_chars(runs.drop_last()) + Seq::new(
            last.text.len(),
            |i: int| (last.text[i], last.style),
        )
    }
}

/// The characters of one text in one look.
spec fn in_look(text: Seq<char>, style: StyleView) -> Seq<(char, StyleView)> {
    Seq::new(text.len(), |i: int| (text[i], style))
}

/// What reaches the terminal of painted characters.
pub open spec fn visible(painted: Seq<(char, StyleView)>) -> Seq<(char, StyleView)> {
    painted.filter(|p: (char, StyleView)| !is_control(p.0))
}

proof fn lemma_visible_concat(a: Seq<(char, StyleView)>, b: Seq<(char, StyleView)>)
    ensures
        visible(a + b) == visible(a) + visible(b),
{
    Seq::<(char, StyleView)>::filter_distributes_over_add(
        a,
        b,
        |p: (char, StyleView)| !is_control(p.0),
    );
}

proof fn lemma_visible_text(text: Seq<char>, style: StyleView)
    ensures
        visible(in_look(text, style)) == in_look(printable(text), style),
    decreases text.len(),
{
    reveal(Seq::filter);
    let all = in_look(text, style);
    if text.len() > 0 {
        lemma_visible_text(text.drop_last(), style);
        assert(all.drop_last() =~= in_look(text.drop_last(), style));
        assert(all.last() == (text.last(), style));
        if !is_control(text.last()) {
            assert(printable(text) == printable(text.drop_last()).push(text.last()));
        } else {
            assert(printable(text) == printable(text.drop_last()));
        }
        assert(visible(all) =~= in_look(printable(text), style));
    } else {
        assert(visible(all) =~= in_look(printable(text), style));
    }
}

/// `printable` works character by character.
pub proof fn lemma_printable_concat(a: Seq<char>, b: Seq<char>)
    ensures
        printable(a + b) == printable(a) + printable(b),
{
    Seq::<char>::filter_distributes_over_add(a, b, |c: char| !is_control(c));
}

/// What is painted in spans shows every character of them but the control
/// characters, in the same order, each in the look of its span.
pub proof fn spans_keep_their_look(spans: Seq<RunView>)
    ensures
        painted_chars(merged(spans)) == visible(painted_chars(spans)),
        runs_text(merged(spans)) == printable(runs_text(spans)),
    decreases spans.len(),
{
    reveal(Seq::filter);
    if spans.len() > 0 {
        let front = spans.drop_last();
        let last = spans.last();
        let text = printable(last.text);
        spans_keep_their_look(front);
        lemma_visible_concat(painted_chars(front), in_look(last.text, last.style));
        lemma_visible_text(last.text, last.style);
        lemma_printable_concat(runs_text(front), last.text);
        let m = merged(front);
        let out = merged(spans);
        assert(painted_chars(spans) =~= painted_chars(front) + in_look(last.text, last.style));
        if text.len() == 0 {
            assert(painted_chars(out) =~= painted_chars(m) + in_look(text, last.style));
            assert(runs_text(out) =~= runs_text(m) + text);
        } else if m.len() > 0 && m.last().style == last.style {
            let grown = RunView { text: m.last().text + text, style: last.style };
            assert(out.drop_last() =~= m.drop_last());
            assert(out.last() == grown);
            assert(painted_chars(out) =~= painted_chars(m) + in_look(text, last.style));
            assert(runs_text(out) =~= runs_text(m) + text);
        } else {
            assert(out.drop_last() =~= m);
            assert(painted_chars(out) =~= painted_chars(m) + in_look(text, last.style));
        }
    } else {
        assert(painted_chars(merged(spans)) =~= visible(painted_chars(spans)));
        assert(runs_text(merged(spans)) =~= printable(runs_text(spans)));
    }
}

/// The look of every character of a render: that of its span, or the one look
/// of the whole.
pub open spec fn painted_render(r: RenderedView) -> Seq<(char, StyleView)> {
    match r.spans {
        Some(spans) => painted_chars(spans),
        None => Seq::new(r.text.len(), |i: int| (r.text[i], r.style)),
    }
}

/// A render from spans shows their characters, each in the look of its span,
/// and is as wide as its text.
pub proof fn rendered_spans_keep_their_look(spans: Seq<RunView>)
    ensures
        painted_render(RenderedView::of_spans(spans)) == visible(painted_chars(spans)),
        RenderedView::of_spans(spans).text == printable(runs_text(spans)),
        RenderedView::of_spans(spans).width == cell_width(printable(runs_text(spans))),
        RenderedView::of_spans(spans).right_separator is None,
{
    spans_keep_their_look(spans);
    let m = merged(spans);
    let r = RenderedView::of_spans(spans);
    if m.len() == 1 {
        reveal_with_fuel(painted_chars, 2);
        reveal_with_fuel(runs_text, 2);
        assert(m.drop_last() =~= seq![]);
        assert(r.text =~= m[0].text);
        assert(painted_render(r) =~= painted_chars(m));
    } else if m.len() == 0 {
        assert(painted_render(r) =~= painted_chars(m));
    }
}

/// A render from a text shows every character of it but the control
/// characters, without any look, and is as wide as what it shows.
pub proof fn rendered_text_is_plain(text: Seq<char>)
    ensures
        RenderedView::of_text(text).text == printable(text),
        RenderedView::of_text(text).width == cell_width(printable(text)),
        RenderedView::of_text(text).spans is None,
        RenderedView::of_text(text).right_separator is None,
        RenderedView::of_text(text).style.role is None,
        RenderedView::of_text(text).style.fg is None,
        RenderedView::of_text(text).style.hyperlink is None,
        !RenderedView::of_text(text).style.bold,
        !RenderedView::of_text(text).style.italic,
        !RenderedView::of_text(text).style.underline,
        !RenderedView::of_text(text).style.dim,
        is_printable(text) ==> RenderedView::of_text(text).text == text,
{
    lemma_printable(text);
}

proof fn lemma_painted_first(runs: Seq<RunView>, text: Seq<char>)
    requires
        runs.len() > 0,
    ensures
        painted_chars(
            runs.update(0, RunView { text: text + runs[0].text, style: runs[0].style }),
        ) == in_look(text, runs[0].style) + painted_chars(runs),
    decreases runs.len(),
{
    let first = RunView { text: text + runs[0].text, style: runs[0].style };
    let out = runs.update(0, first);
    if runs.len() == 1 {
        reveal_with_fuel(painted_chars, 2);
        assert(out.drop_last() =~= seq![]);
        assert(runs.drop_last() =~= seq![]);
        assert(painted_chars(out) =~= in_look(text, runs[0].style) + painted_chars(runs));
    } else {
        assert(out.drop_last() =~= runs.drop_last().update(0, first));
        lemma_painted_first(runs.drop_last(), text);
        assert(painted_chars(out) =~= in_look(text, runs[0].style) + painted_chars(runs));
    }
}

proof fn lemma_painted_insert(runs: Seq<RunView>, first: RunView)
    ensures
        painted_chars(runs.insert(0, first)) == in_look(first.text, first.style) + painted_chars(
            runs,
        ),
    decreases runs.len(),
{
    let out = runs.insert(0, first);
    if runs.len() == 0 {
        reveal_with_fuel(painted_chars, 2);
        assert(out.drop_last() =~= seq![]);
        assert(painted_chars(out) =~= in_look(first.text, first.style) + painted_chars(runs));
    } else {
        assert(out.drop_last() =~= runs.drop_last().insert(0, first));
        lemma_painted_insert(runs.drop_last(), first);
        assert(painted_chars(out) =~= in_look(first.text, first.style) + painted_chars(runs));
    }
}

/// An icon stands in front of the segment with a space behind it, in the look
/// of the whole; every other character keeps its own. The width is that of the
/// longer text, and the separator stays.
pub proof fn icon_goes_in_front(r: RenderedView, icon: Seq<char>)
    requires
        r.wf(),
    ensures
        ({
            let out = r.behind_icon(icon);
            let front = printable(icon) + seq![' '];
            &&& out.text == front + r.text
            &&& out.width == cell_width(front + r.text)
            &&& out.style == r.style
            &&& out.right_separator == r.right_separator
            &&& painted_render(out) == Seq::new(front.len(), |i: int| (front[i], r.style))
                + painted_render(r)
        }),
{
    reveal_strlit(" ");
    assert(" "@ =~= seq![' ']);
    lemma_printable_concat(icon, " "@);
    lemma_printable(" "@);
    let front = printable(icon) + seq![' '];
    let out = r.behind_icon(icon);
    match r.spans {
        Some(spans) => {
            lemma_painted_first(spans, front);
            lemma_painted_insert(spans, RunView { text: front, style: r.style });
        },
        None => {
            assert(painted_render(out) =~= in_look(front, r.style) + painted_render(r));
        },
    }
}

/// The look `style` in the color `color`.
pub open spec fn in_color(style: StyleView, color: GroupColor) -> StyleView {
    StyleView { role: color.role, fg: color.fg, ..style }
}

proof fn lemma_painted_len(runs: Seq<RunView>)
    ensures
        painted_chars(runs).len() == runs_text(runs).len(),
    decreases runs.len(),
{
    if runs.len() > 0 {
        lemma_painted_len(runs.drop_last());
    }
}

proof fn lemma_recolored_runs(a: Seq<RunView>, b: Seq<RunView>, color: GroupColor)
    requires
        a.len() == b.len(),
        forall|i: int|
            0 <= i < a.len() ==> (#[trigger] b[i]).text == a[i].text && b[i].style == in_color(
                a[i].style,
                color,
            ),
    ensures
        painted_chars(b) == Seq::new(
            painted_chars(a).len(),
            |i: int| (painted_chars(a)[i].0, in_color(painted_chars(a)[i].1, color)),
        ),
    decreases a.len(),
{
    let want = Seq::new(
        painted_chars(a).len(),
        |i: int| (painted_chars(a)[i].0, in_color(painted_chars(a)[i].1, color)),
    );
    if a.len() > 0 {
        lemma_recolored_runs(a.drop_last(), b.drop_last(), color);
        assert(b[b.len() - 1].text == a[a.len() - 1].text);
        assert(painted_chars(b) =~= want);
    } else {
        assert(painted_chars(b) =~= want);
    }
}

/// The color of a group takes the place of role and color in every character
/// of a segment, and of nothing else: the text, its decorations, its link, its
/// width and its separator stay.
pub proof fn group_color_changes_the_color_alone(r: RenderedView, color: GroupColor)
    ensures
        ({
            let out = r.recolored(color);
            &&& out.text == r.text
            &&& out.width == r.width
            &&& out.right_separator == r.right_separator
            &&& out.style.role == color.role
            &&& out.style.fg == color.fg
            &&& out.style.bold == r.style.bold
            &&& out.style.italic == r.style.italic
            &&& out.style.underline == r.style.underline
            &&& out.style.dim == r.style.dim
            &&& out.style.hyperlink == r.style.hyperlink
            &&& painted_render(out) == Seq::new(
                painted_render(r).len(),
                |i: int| (painted_render(r)[i].0, in_color(painted_render(r)[i].1, color)),
            )
        }),
{
    let out = r.recolored(color);
    match r.spans {
        Some(spans) => {
            lemma_recolored_runs(spans, out.spans->0, color);
        },
        None => {
            assert(painted_render(out) =~= Seq::new(
                painted_render(r).len(),
                |i: int| (painted_render(r)[i].0, in_color(painted_render(r)[i].1, color)),
            ));
        },
    }
}

} // verus!
