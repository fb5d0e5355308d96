//! What holds of every text that the branch segment shows.

use vstd::prelude::*;

use crate::cells::{cell_width, columns, grapheme_clusters, joined};
use crate::data_context::{DataContext, GitContext, Head, RepoKind};
use crate::segments::git_branch::{
    all_columns, compact_words, cut_in_middle, dirty_mark,
    fills_its_end, fills_its_half, filled_in, full_words, has_placeholder, head_text,
    middle_cut_fits, placeholder_at, spaced_out, upstream_mark, ConfigView,
    GitBranchSegment,
};
use crate::segments::rendered::RenderedView;
use crate::segments::segment::{Outcome, RenderContext, Segment};
use crate::text::{decimal, printable};
use crate::text_laws::mentions;
use crate::theme::Role;

verus! {

/// `shown` stands for `name` in `max` columns: it is the name where that fits,
/// or where there is no limit. Else the first `front` and the last `back`
/// clusters of it are left, with the marker between them, and take `max`
/// columns at the most; the front has the larger half. A marker that leaves
/// no room is left out, and with it the back.
pub open spec fn stands_for(
    shown: Seq<char>,
    name: Seq<char>,
    max: u16,
    marker: Seq<char>,
    front: int,
    back: int,
) -> bool {
    let clusters = grapheme_clusters(name);
    let head = clusters.take(front);
    let tail = clusters.skip(clusters.len() - back);
    if max == 0 || columns(name) <= max {
        shown == name
    } else if columns(marker) < max {
        &&& shown == joined(head) + marker + joined(tail)
        &&& all_columns(head) + columns(marker) + all_columns(tail) <= max
        &&& fills_its_half(clusters, (max - columns(marker) + 1) / 2, front)
        &&& fills_its_end(clusters, (max - columns(marker)) / 2, back)
    } else {
        &&& shown == joined(head)
        &&& all_columns(head) <= max
        &&& fills_its_half(clusters, max as int, front)
    }
}

/// `shown` is the start of the commit id `oid`, `len` characters of it or all
/// that there are, in brackets.
pub open spec fn is_short_id(shown: Seq<char>, oid: Seq<char>, len: u8) -> bool {
    &&& shown.len() >= 2
    &&& shown[0] == '('
    &&& shown.last() == ')'
    &&& shown.subrange(1, shown.len() - 1).is_prefix_of(oid)
    &&& shown.len() - 2 <= len
    &&& shown.len() - 2 < len ==> shown.len() - 2 == oid.len()
}

/// `shown` is what the configuration wants to see of `head`.
pub open spec fn shows_head(
    cfg: ConfigView,
    head: Head,
    shown: Seq<char>,
    front: int,
    back: int,
) -> bool {
    match head {
        Head::Branch(name) => stands_for(
            shown,
            name@,
            cfg.max_length,
            cfg.truncation_marker,
            front,
            back,
        ),
        Head::Unborn { symbolic_ref } => stands_for(
            shown,
            symbolic_ref@,
            cfg.max_length,
            cfg.truncation_marker,
            front,
            back,
        ),
        Head::OtherRef { full_name } => stands_for(
            shown,
            full_name@,
            cfg.max_length,
            cfg.truncation_marker,
            front,
            back,
        ),
        Head::Detached(oid) => is_short_id(shown, oid@, cfg.short_sha_length),
    }
}

/// `mark` tells of uncommitted changes: the one indicator where there are
/// some, the other where there are none, and nothing where the mark is off or
/// the terminal is narrower than it wants.
pub open spec fn shows_dirty(
    cfg: ConfigView,
    gc: GitContext,
    rc: RenderContext,
    mark: Seq<char>,
) -> bool {
    &&& !cfg.dirty_enabled ==> mark.len() == 0
    &&& rc.terminal_width < cfg.dirty_hide_below_cells ==> mark.len() == 0
    &&& cfg.dirty_enabled && rc.terminal_width >= cfg.dirty_hide_below_cells ==> {
        &&& gc.dirty ==> mark == cfg.dirty_indicator
        &&& !gc.dirty ==> mark == cfg.clean_indicator
    }
}

/// `mark` compares a branch with its upstream: each count in its own format,
/// the commits ahead first, a count of 0 only where that is wanted. Without an
/// upstream it is a question mark, where that is wanted. What is no branch has
/// no mark, nor has a terminal narrower than the mark wants.
pub open spec fn shows_upstream(
    cfg: ConfigView,
    gc: GitContext,
    rc: RenderContext,
    mark: Seq<char>,
) -> bool {
    let ab = cfg.ahead_behind;
    &&& !ab.enabled ==> mark.len() == 0
    &&& rc.terminal_width < ab.hide_below_cells ==> mark.len() == 0
    &&& !(gc.head is Branch) ==> mark.len() == 0
    &&& ab.enabled && rc.terminal_width >= ab.hide_below_cells && gc.head is Branch
        ==> match gc.upstream {
        None => if ab.hide_when_no_upstream {
            mark.len() == 0
        } else {
            mark == seq!['?']
        },
        Some(state) => {
            let ahead = filled_in(ab.ahead_format, decimal(state.ahead as nat));
            let behind = filled_in(ab.behind_format, decimal(state.behind as nat));
            &&& state.ahead > 0 && state.behind > 0 ==> mark == ahead + seq![' '] + behind
            &&& state.ahead > 0 && state.behind == 0 && ab.hide_when_zero ==> mark == ahead
            &&& state.ahead == 0 && state.behind > 0 && ab.hide_when_zero ==> mark == behind
            &&& state.ahead == 0 && state.behind == 0 && ab.hide_when_zero ==> mark.len() == 0
            &&& !ab.hide_when_zero ==> mark == ahead + seq![' '] + behind
        },
    }
}

/// `text` as the words of a line: one word, or none where it is empty.
pub open spec fn as_word(text: Seq<char>) -> Seq<Seq<char>> {
    if text.len() > 0 {
        seq![text]
    } else {
        seq![]
    }
}

/// One space stands between two words, and nothing else is added.
pub proof fn words_are_one_space_apart(a: Seq<Seq<char>>, b: Seq<Seq<char>>)
    ensures
        a.len() > 0 && b.len() > 0 ==> spaced_out(a + b) == spaced_out(a) + seq![' '] + spaced_out(
            b,
        ),
        b.len() == 1 ==> spaced_out(b) == b[0],
        b.len() == 0 ==> spaced_out(b) == Seq::<char>::empty(),
    decreases b.len(),
{
    reveal_strlit(" ");
    assert(" "@ =~= seq![' ']);
    if a.len() > 0 && b.len() > 0 {
        assert((a + b).drop_last() =~= a + b.drop_last());
        assert((a + b).last() == b.last());
        if b.len() == 1 {
            assert(a + b.drop_last() =~= a);
        } else {
            words_are_one_space_apart(a, b.drop_last());
            assert(spaced_out(a + b) =~= spaced_out(a) + seq![' '] + spaced_out(b));
        }
    }
}

proof fn lemma_words_show(words: Seq<Seq<char>>)
    requires
        forall|i: int| 0 <= i < words.len() ==> (#[trigger] words[i]).len() > 0,
    ensures
        spaced_out(words).len() == 0 <==> words.len() == 0,
    decreases words.len(),
{
    if words.len() > 0 {
        lemma_words_show(words.drop_last());
        assert(words.last().len() > 0);
    }
}

proof fn lemma_head(cfg: ConfigView, head: Head) -> (at: (int, int))
    ensures
        shows_head(cfg, head, head_text(cfg, head), at.0, at.1),
{
    reveal_strlit("(");
    reveal_strlit(")");
    match head {
        Head::Branch(name) => middle_cut_stands_for_the_text(name@, cfg.max_length, cfg.truncation_marker),
        Head::Unborn { symbolic_ref } => middle_cut_stands_for_the_text(
            symbolic_ref@,
            cfg.max_length,
            cfg.truncation_marker,
        ),
        Head::OtherRef { full_name } => middle_cut_stands_for_the_text(
            full_name@,
            cfg.max_length,
            cfg.truncation_marker,
        ),
        Head::Detached(oid) => {
            let shown = head_text(cfg, head);
            let n = shown.len() - 2;
            assert(shown.subrange(1, shown.len() - 1) =~= oid@.take(n));
            (0, 0)
        },
    }
}

/// A text that is cut in its middle stands for the whole of it.
pub proof fn middle_cut_stands_for_the_text(name: Seq<char>, max: u16, marker: Seq<char>) -> (at: (
    int,
    int,
))
    ensures
        stands_for(cut_in_middle(name, max, marker), name, max, marker, at.0, at.1),
{
    let clusters = grapheme_clusters(name);
    if max == 0 || columns(name) <= max {
        (0, 0)
    } else {
        let parts = middle_cut_fits(name, max, marker);
        let front = parts.0.len() as int;
        let back = parts.1.len() as int;
        assert(parts.0 =~= clusters.take(front));
        assert(parts.1 =~= clusters.skip(clusters.len() - back));
        (front, back)
    }
}

proof fn lemma_filled_shows(s: Seq<char>, n: nat)
    requires
        has_placeholder(s),
    ensures
        filled_in(s, decimal(n)).len() > 0,
    decreases s.len(),
{
    let at = choose|i: int| placeholder_at(s, i);
    if placeholder_at(s, 0) {
        assert(decimal(n).len() > 0);
    }
}

/// The segment shows the label, the name of what is checked out, the mark for
/// uncommitted changes and the comparison with the upstream, in this order,
/// with a space between two; and is hidden only where nothing is left to show.
/// Its compact form shows the label and the name alone.
pub proof fn branch_shows_label_name_and_marks(
    segment: GitBranchSegment,
    gc: GitContext,
    ctx: DataContext,
    rc: RenderContext,
    out: Option<RenderedView>,
    target: u16,
    small: Option<RenderedView>,
) -> (parts: (Seq<char>, Seq<char>, Seq<char>, int, int))
    requires
        ctx.git matches Ok(Some(found)) && found == gc,
        gc.repo_kind != RepoKind::Bare,
        has_placeholder(segment.cfg@.ahead_behind.ahead_format),
        has_placeholder(segment.cfg@.ahead_behind.behind_format),
        segment.renders(ctx, rc, Ok(out)),
        segment.shrinks(ctx, rc, target, small),
    ensures
        shows_head(segment.cfg@, gc.head, parts.0, parts.3, parts.4),
        shows_dirty(segment.cfg@, gc, rc, parts.1),
        shows_upstream(segment.cfg@, gc, rc, parts.2),
        ({
            let name = as_word(segment.cfg@.label) + as_word(parts.0);
            let all = name + as_word(parts.1) + as_word(parts.2);
            &&& match out {
                Some(r) => {
                    &&& all.len() > 0
                    &&& r.text == printable(spaced_out(all))
                    &&& r.width == cell_width(r.text)
                    &&& r.style.role == Some(Role::Accent)
                    &&& r.spans is None
                },
                None => all.len() == 0,
            }
            &&& match small {
                Some(r) => {
                    &&& name.len() > 0
                    &&& r.text == printable(spaced_out(name))
                    &&& r.width == cell_width(r.text)
                    &&& r.width <= target
                    &&& r.style.role == Some(Role::Accent)
                    &&& r.spans is None
                },
                None => name.len() == 0 || cell_width(printable(spaced_out(name))) > target,
            }
        }),
{
    let cfg = segment.cfg@;
    let at = lemma_head(cfg, gc.head);
    let shown = head_text(cfg, gc.head);
    let compact = compact_words(cfg, gc);
    let full = full_words(cfg, gc, rc);
    let dirty = if cfg.dirty_enabled && rc.terminal_width >= cfg.dirty_hide_below_cells {
        match dirty_mark(cfg, gc) {
            Some(mark) => mark,
            None => seq![],
        }
    } else {
        seq![]
    };
    let upstream = if cfg.ahead_behind.enabled && rc.terminal_width
        >= cfg.ahead_behind.hide_below_cells {
        match upstream_mark(cfg.ahead_behind, gc) {
            Some(mark) => mark,
            None => seq![],
        }
    } else {
        seq![]
    };
    reveal_strlit("?");
    reveal_strlit(" ");
    assert("?"@ =~= seq!['?']);
    assert(" "@ =~= seq![' ']);
    if gc.upstream is Some {
        let state = gc.upstream->0;
        lemma_filled_shows(cfg.ahead_behind.ahead_format, state.ahead as nat);
        lemma_filled_shows(cfg.ahead_behind.behind_format, state.behind as nat);
    }
    assert(dirty.len() == 0 ==> dirty =~= seq![]);
    if !gc.dirty && cfg.clean_indicator.len() == 0 {
        assert(cfg.clean_indicator =~= seq![]);
    }
    if gc.dirty && cfg.dirty_indicator.len() == 0 {
        assert(cfg.dirty_indicator =~= seq![]);
    }
    assert(compact =~= as_word(cfg.label) + as_word(shown));
    assert(full =~= as_word(cfg.label) + as_word(shown) + as_word(dirty) + as_word(upstream));
    lemma_words_show(compact);
    lemma_words_show(full);
    (shown, dirty, upstream, at.0, at.1)
}

/// Nothing is shown outside of a repository, nor of a bare one, nor where the
/// repository could not be read.
pub proof fn branch_needs_a_work_tree(
    segment: GitBranchSegment,
    ctx: DataContext,
    rc: RenderContext,
    out: Outcome,
    target: u16,
    small: Option<RenderedView>,
)
    requires
        ctx.git matches Ok(Some(gc)) ==> gc.repo_kind == RepoKind::Bare,
        segment.renders(ctx, rc, out),
        segment.shrinks(ctx, rc, target, small),
    ensures
        out == Ok::<Option<RenderedView>, Seq<char>>(None),
        small is None,
{
}

/// A template is kept as it is up to its first placeholder; the count stands
/// in its place, and the rest is filled in the same way.
pub proof fn template_is_kept_around_its_count(a: Seq<char>, b: Seq<char>, count: Seq<char>)
    requires
        !has_placeholder(a + seq!['{', 'n']),
    ensures
        filled_in(a + seq!['{', 'n', '}'] + b, count) == a + count + filled_in(b, count),
        filled_in(a, count) == a,
    decreases a.len(),
{
    let s = a + seq!['{', 'n', '}'] + b;
    if a.len() == 0 {
        assert(placeholder_at(s, 0));
        assert(s.skip(3) =~= b);
        assert(filled_in(s, count) =~= a + count + filled_in(b, count));
    } else {
        let rest = a.skip(1);
        let open = seq!['{', 'n'];
        assert(!placeholder_at(a + open, 0));
        assert(!placeholder_at(s, 0)) by {
            if placeholder_at(s, 0) {
                assert((a + open)[0] == s[0]);
                assert((a + open)[1] == s[1]);
                assert((a + open)[2] == s[2]);
            }
        }
        assert(!placeholder_at(a, 0)) by {
            if placeholder_at(a, 0) {
                assert(placeholder_at(a + open, 0));
            }
        }
        assert(!has_placeholder(rest + open)) by {
            if has_placeholder(rest + open) {
                let i = choose|i: int| placeholder_at(rest + open, i);
                assert(a + open =~= seq![a[0]] + (rest + open));
                assert(placeholder_at(a + open, i + 1));
            }
        }
        template_is_kept_around_its_count(rest, b, count);
        assert(s.skip(1) =~= rest + seq!['{', 'n', '}'] + b);
        assert(filled_in(s, count) =~= a + count + filled_in(b, count));
        assert(filled_in(a, count) =~= a);
    }
}

/// A text holds the placeholder exactly where `{n}` stands somewhere in it.
pub proof fn placeholder_is_found_anywhere(s: Seq<char>)
    ensures
        has_placeholder(s) <==> mentions(s, seq!['{', 'n', '}']),
{
    let mark = seq!['{', 'n', '}'];
    if has_placeholder(s) {
        let i = choose|i: int| placeholder_at(s, i);
        assert(s.subrange(i, i + mark.len()) =~= mark);
    }
    if mentions(s, mark) {
        let at = choose|at: int|
            0 <= at <= s.len() - mark.len() && #[trigger] s.subrange(at, at + mark.len()) == mark;
        let found = s.subrange(at, at + mark.len());
        assert(found[0] == '{' && found[1] == 'n' && found[2] == '}');
        assert(placeholder_at(s, at));
    }
}

} // verus!
