//! The segments that need no plugin, by their ids.

use std::borrow::Cow;

use vstd::prelude::*;

use crate::data_context::{DataContext, DataDep};
use crate::diagnostics::{lemma_reports, texts, Messages};
use crate::segments::context_bar::{self, ContextBarSegment};
use crate::segments::context_window::ContextWindowSegment;
use crate::segments::git_branch::{self, GitBranchSegment};
use crate::segments::rendered::RenderedView;
use crate::segments::segment::{Outcome, RenderContext, Segment, SegmentBox};
use crate::segments::separator::SegmentDefaults;
use crate::text::same_text;
use crate::value::{Entry, Table, Value};

verus! {

/// Default segment order when no configuration gives one. Nothing in it asks
/// for a credential or the network.
pub const DEFAULT_SEGMENT_IDS: [&'static str; 6] = [
    "model",
    "context_window",
    "cost",
    "effort",
    "git_branch",
    "workspace",
];

/// Every built-in segment id. A plugin may have none of them.
pub const BUILT_IN_SEGMENT_IDS: [&'static str; 21] = [
    "model",
    "context_window",
    "context_bar",
    "workspace",
    "cost",
    "effort",
    "output_style",
    "vim",
    "agent",
    "git_branch",
    "rate_limit_5h",
    "rate_limit_7d",
    "rate_limit_5h_reset",
    "rate_limit_7d_reset",
    "extra_usage",
    "session_duration",
    "tokens_input",
    "tokens_output",
    "tokens_cached",
    "tokens_total",
    "version",
];

/// Is `id` that of a built-in segment?
pub open spec fn is_built_in(id: Seq<char>) -> bool {
    exists|i: int| 0 <= i < 21 && (#[trigger] BUILT_IN_SEGMENT_IDS[i])@ == id
}

/// Every segment of the default line is built in.
pub proof fn default_line_is_built_in(i: int)
    requires
        0 <= i < 6,
    ensures
        is_built_in(DEFAULT_SEGMENT_IDS[i]@),
{
    assert(BUILT_IN_SEGMENT_IDS[0]@ == "model"@);
    assert(BUILT_IN_SEGMENT_IDS[1]@ == "context_window"@);
    assert(BUILT_IN_SEGMENT_IDS[4]@ == "cost"@);
    assert(BUILT_IN_SEGMENT_IDS[5]@ == "effort"@);
    assert(BUILT_IN_SEGMENT_IDS[9]@ == "git_branch"@);
    assert(BUILT_IN_SEGMENT_IDS[3]@ == "workspace"@);
}

/// The built-in id `id`, where it is one.
pub fn find_built_in(id: &str) -> (r: Option<&'static str>)
    ensures
        match r {
            Some(found) => found@ == id@ && is_built_in(id@),
            None => !is_built_in(id@),
        },
{
    let ids = BUILT_IN_SEGMENT_IDS;
    let mut i: usize = 0;
    while i < 21
        invariant
            i <= 21,
            ids == BUILT_IN_SEGMENT_IDS,
            forall|k: int| 0 <= k < i ==> (#[trigger] BUILT_IN_SEGMENT_IDS[k])@ != id@,
        decreases 21 - i,
    {
        if same_text(ids[i], id) {
            assert(BUILT_IN_SEGMENT_IDS[i as int]@ == id@);
            return Some(ids[i]);
        }
        i += 1;
    }
    None
}

/// `id` for a slot: borrowed for a built-in segment, so that a report on it
/// costs no allocation, owned for any other.
pub fn resolve_segment_id(id: &str) -> (r: Cow<'static, str>)
    ensures
        r@ == id@,
        r is Borrowed <==> is_built_in(id@),
{
    match find_built_in(id) {
        Some(found) => Cow::Borrowed(found),
        None => Cow::Owned(id.to_owned()),
    }
}

/// `b` gives the answers that `s` gives.
pub open spec fn answers_as<S: Segment>(b: SegmentBox, s: S) -> bool {
    &&& forall|ctx: DataContext, rc: RenderContext, out: Outcome| #[trigger]
        b.segment.renders(ctx, rc, out) == s.renders(ctx, rc, out)
    &&& forall|ctx: DataContext, rc: RenderContext, target: u16, out: Option<RenderedView>|
     #[trigger]
        b.segment.shrinks(ctx, rc, target, out) == s.shrinks(ctx, rc, target, out)
    &&& forall|d: SegmentDefaults| #[trigger] b.segment.declares(d) == s.declares(d)
    &&& forall|deps: Seq<DataDep>| #[trigger] b.segment.reads(deps) == s.reads(deps)
    &&& forall|pinned: bool| #[trigger] b.segment.pins_color(pinned) == s.pins_color(pinned)
    &&& forall|ctx: DataContext, reason: Option<Seq<char>>| #[trigger]
        b.segment.explains(ctx, reason) == s.explains(ctx, reason)
}

/// A segment that the host builds, where it has one of that id, and what it
/// reports on the segment's keys.
pub struct HostSegment {
    pub segment: Option<SegmentBox>,
    pub warnings: Vec<String>,
}

/// The segment's own keys.
pub open spec fn keys_of(extras: Option<&Table<Value>>) -> Seq<Entry<Value>> {
    match extras {
        Some(table) => table@,
        None => seq![],
    }
}

/// `b` is the context bar that `keys` configure.
pub open spec fn is_context_bar(b: SegmentBox, keys: Seq<Entry<Value>>) -> bool {
    exists|s: ContextBarSegment|
        s.cfg@ == context_bar::settings(keys).value && #[trigger] answers_as(b, s)
}

/// `b` is the git branch that `keys` configure.
pub open spec fn is_git_branch(b: SegmentBox, keys: Seq<Entry<Value>>) -> bool {
    exists|s: GitBranchSegment|
        s.cfg@ == git_branch::settings(keys).value && #[trigger] answers_as(b, s)
}

/// May the built-in segment of `id` be `segment`, with `warnings` on its keys?
/// The context window, the context bar and the git branch are built here, the
/// other built-in segments by `host`.
pub open spec fn may_build<F: Fn(&str, Option<&Table<Value>>) -> HostSegment>(
    host: F,
    id: &str,
    extras: Option<&Table<Value>>,
    segment: Option<SegmentBox>,
    warnings: Seq<Seq<char>>,
) -> bool {
    let keys = keys_of(extras);
    if id@ == "context_window"@ {
        &&& segment matches Some(b) && answers_as(b, ContextWindowSegment)
        &&& warnings == Seq::<Seq<char>>::empty()
    } else if id@ == "context_bar"@ {
        &&& segment matches Some(b) && is_context_bar(b, keys)
        &&& warnings == context_bar::settings(keys).warnings
    } else if id@ == "git_branch"@ {
        &&& segment matches Some(b) && is_git_branch(b, keys)
        &&& warnings == git_branch::settings(keys).warnings
    } else if is_built_in(id@) {
        exists|h: HostSegment| #[trigger]
            call_ensures(host, (id, extras), h) && segment == h.segment && warnings == texts(
                h.warnings@,
            )
    } else {
        &&& segment is None
        &&& warnings == Seq::<Seq<char>>::empty()
    }
}

/// `host` has a segment for every built-in id that it is asked for.
pub open spec fn is_complete<F: Fn(&str, Option<&Table<Value>>) -> HostSegment>(host: F) -> bool {
    forall|id: &str, extras: Option<&Table<Value>>, h: HostSegment|
        is_built_in(id@) && #[trigger] call_ensures(host, (id, extras), h) ==> h.segment is Some
}

/// On a host that has a segment for every built-in id, an id gives a segment
/// exactly when it is built in.
pub proof fn built_in_ids_resolve<F: Fn(&str, Option<&Table<Value>>) -> HostSegment>(
    host: F,
    id: &str,
    extras: Option<&Table<Value>>,
    segment: Option<SegmentBox>,
    warnings: Seq<Seq<char>>,
)
    requires
        is_complete(host),
        may_build(host, id, extras, segment, warnings),
    ensures
        segment is Some <==> is_built_in(id@),
{
    assert(BUILT_IN_SEGMENT_IDS[1]@ == "context_window"@);
    assert(BUILT_IN_SEGMENT_IDS[2]@ == "context_bar"@);
    assert(BUILT_IN_SEGMENT_IDS[9]@ == "git_branch"@);
}

/// Build the built-in segment of `id`, with its own keys `extras`. An id that
/// is not built in gives `None`.
pub fn built_in_by_id<F: Fn(&str, Option<&Table<Value>>) -> HostSegment>(
    id: &str,
    extras: Option<&Table<Value>>,
    host: &F,
    warnings: &mut Messages,
) -> (r: Option<SegmentBox>)
    requires
        forall|i: &str, e: Option<&Table<Value>>| #[trigger] call_requires(host, (i, e)),
    ensures
        exists|reported: Seq<Seq<char>>|
            {
                &&& #[trigger] may_build(*host, id, extras, r, reported)
                &&& final(warnings)@ == old(warnings)@ + reported
            },
{
    let ghost before = warnings@;
    proof {
        lemma_reports(before, seq![], seq![]);
    }
    if same_text(id, "context_window") {
        let b = SegmentBox { segment: Box::new(ContextWindowSegment) };
        assert(answers_as(b, ContextWindowSegment));
        assert(may_build(*host, id, extras, Some(b), seq![]));
        Some(b)
    } else if same_text(id, "context_bar") {
        let none: Table<Value> = Table::new();
        let table = match extras {
            Some(table) => table,
            None => &none,
        };
        let s = ContextBarSegment::from_extras(table, warnings);
        let ghost built = s;
        let b = SegmentBox { segment: Box::new(s) };
        assert(answers_as(b, built));
        assert(table@ == keys_of(extras));
        assert(is_context_bar(b, keys_of(extras)));
        assert(may_build(
            *host,
            id,
            extras,
            Some(b),
            context_bar::settings(keys_of(extras)).warnings,
        ));
        Some(b)
    } else if same_text(id, "git_branch") {
        let none: Table<Value> = Table::new();
        let table = match extras {
            Some(table) => table,
            None => &none,
        };
        let s = GitBranchSegment::from_extras(table, warnings);
        let ghost built = s;
        let b = SegmentBox { segment: Box::new(s) };
        assert(answers_as(b, built));
        assert(table@ == keys_of(extras));
        assert(is_git_branch(b, keys_of(extras)));
        assert(may_build(
            *host,
            id,
            extras,
            Some(b),
            git_branch::settings(keys_of(extras)).warnings,
        ));
        Some(b)
    } else if find_built_in(id).is_some() {
        let built = host(id, extras);
        let ghost reported = texts(built.warnings@);
        assert(may_build(*host, id, extras, built.segment, reported));
        let lines = built.warnings;
        push_all(warnings, &lines);
        built.segment
    } else {
        assert(may_build(*host, id, extras, None, seq![]));
        None
    }
}

fn push_all(warnings: &mut Messages, lines: &Vec<String>)
    ensures
        final(warnings)@ == old(warnings)@ + texts(lines@),
{
    let ghost before = warnings@;
    let mut i: usize = 0;
    assert(before + texts(lines@).take(0) =~= before);
    while i < lines.len()
        invariant
            i <= lines@.len(),
            warnings@ == before + texts(lines@).take(i as int),
        decreases lines@.len() - i,
    {
        warnings.push(lines[i].clone());
        assert(warnings@ =~= before + texts(lines@).take(i + 1));
        i += 1;
    }
    assert(texts(lines@).take(i as int) =~= texts(lines@));
}

} // verus!
