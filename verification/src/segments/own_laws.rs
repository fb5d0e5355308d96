//! What holds of the segments that are built here, beside what they show.

use vstd::prelude::*;

use crate::data_context::{DataContext, DataDep, RepoKind};
use crate::segments::context_bar::ContextBarSegment;
use crate::segments::context_window::ContextWindowSegment;
use crate::segments::git_branch::GitBranchSegment;
use crate::segments::rendered::RenderedView;
use crate::segments::segment::{Outcome, RenderContext, Segment};
use crate::segments::separator::SegmentDefaults;

verus! {

/// Of the segments that are built here the bar goes first under width pressure,
/// then the branch, then the window; none is pinned, none may be cut, and none
/// has bounds of its own.
pub proof fn own_segments_go_in_their_order(
    bar: ContextBarSegment,
    branch: GitBranchSegment,
    declared: (SegmentDefaults, SegmentDefaults, SegmentDefaults),
)
    requires
        bar.declares(declared.0),
        branch.declares(declared.1),
        ContextWindowSegment.declares(declared.2),
    ensures
        declared.0.priority > declared.1.priority > declared.2.priority > 0,
        !declared.0.truncatable && !declared.1.truncatable && !declared.2.truncatable,
        declared.0.width is None && declared.1.width is None && declared.2.width is None,
        declared.0.icon is Some && declared.1.icon is Some && declared.2.icon is None,
{
}

/// `a` and `b` hold the same in each of the sources `deps`.
pub open spec fn agree_on(a: DataContext, b: DataContext, deps: Seq<DataDep>) -> bool {
    &&& deps.contains(DataDep::Status) ==> a.status == b.status
    &&& deps.contains(DataDep::Git) ==> a.git == b.git
}

/// A segment shows by the sources that it declares, and by no others: where two
/// contexts agree on these it answers both alike.
pub proof fn segments_declare_what_they_read(
    bar: ContextBarSegment,
    branch: GitBranchSegment,
    deps: (Seq<DataDep>, Seq<DataDep>, Seq<DataDep>),
    a: DataContext,
    b: DataContext,
    rc: RenderContext,
    out: Outcome,
    target: u16,
    small: Option<RenderedView>,
)
    requires
        bar.reads(deps.0),
        branch.reads(deps.1),
        ContextWindowSegment.reads(deps.2),
    ensures
        agree_on(a, b, deps.0) ==> bar.renders(a, rc, out) == bar.renders(b, rc, out),
        agree_on(a, b, deps.1) ==> branch.renders(a, rc, out) == branch.renders(b, rc, out),
        agree_on(a, b, deps.1) ==> branch.shrinks(a, rc, target, small) == branch.shrinks(
            b,
            rc,
            target,
            small,
        ),
        agree_on(a, b, deps.2) ==> ContextWindowSegment.renders(a, rc, out)
            == ContextWindowSegment.renders(b, rc, out),
        deps.0.len() == 1 && deps.1.len() == 1 && deps.2.len() == 1,
{
    assert(deps.0[0] == DataDep::Status);
    assert(deps.1[0] == DataDep::Git);
    assert(deps.2[0] == DataDep::Status);
    assert(deps.0.contains(DataDep::Status));
    assert(deps.1.contains(DataDep::Git));
    assert(deps.2.contains(DataDep::Status));
}

/// The bar and the window say why they hide exactly where they do; the branch
/// says so of a bare repository alone. None of them fixes its color, and only
/// the branch has a compact form.
pub proof fn segments_say_why_they_hide(
    bar: ContextBarSegment,
    branch: GitBranchSegment,
    ctx: DataContext,
    rc: RenderContext,
    out: (Outcome, Outcome),
    reason: (Option<Seq<char>>, Option<Seq<char>>, Option<Seq<char>>),
    pinned: (bool, bool, bool),
    target: u16,
    small: Option<RenderedView>,
)
    requires
        bar.renders(ctx, rc, out.0),
        ContextWindowSegment.renders(ctx, rc, out.1),
        bar.explains(ctx, reason.0),
        ContextWindowSegment.explains(ctx, reason.1),
        branch.explains(ctx, reason.2),
        bar.pins_color(pinned.0),
        ContextWindowSegment.pins_color(pinned.1),
        branch.pins_color(pinned.2),
    ensures
        out.0 == Ok::<Option<RenderedView>, Seq<char>>(None) <==> reason.0 is Some,
        out.1 == Ok::<Option<RenderedView>, Seq<char>>(None) <==> reason.1 is Some,
        reason.2 is Some <==> (ctx.git matches Ok(Some(gc)) && gc.repo_kind == RepoKind::Bare),
        reason.0 matches Some(why) ==> "context_bar:"@.is_prefix_of(why),
        reason.1 matches Some(why) ==> "context_window:"@.is_prefix_of(why),
        reason.2 matches Some(why) ==> "git_branch:"@.is_prefix_of(why),
        !pinned.0 && !pinned.1 && !pinned.2,
        bar.shrinks(ctx, rc, target, small) ==> small is None,
        ContextWindowSegment.shrinks(ctx, rc, target, small) ==> small is None,
{
    reveal_strlit("context_bar:");
    reveal_strlit("context_window:");
    reveal_strlit("git_branch:");
    reveal_strlit("context_bar: status.context_window absent; hiding");
    reveal_strlit("context_bar: used null; hiding");
    reveal_strlit("context_window: status.context_window absent; hiding");
    reveal_strlit("context_window: used and size both null; hiding");
    reveal_strlit("git_branch: bare repo; hiding");
    match reason.0 {
        Some(why) => {
            assert(why.take("context_bar:"@.len() as int) =~= "context_bar:"@);
        },
        None => {},
    }
    match reason.1 {
        Some(why) => {
            assert(why.take("context_window:"@.len() as int) =~= "context_window:"@);
        },
        None => {},
    }
    match reason.2 {
        Some(why) => {
            assert(why.take("git_branch:"@.len() as int) =~= "git_branch:"@);
        },
        None => {},
    }
}

} // verus!
