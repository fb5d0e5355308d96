//! `[segments.<id>]` laid over a segment.

use vstd::prelude::*;
use vstd::string::StringExecFns;

use crate::config::{IconMode, SegmentOverride, UserStyle, WidthBoundsConfig};
use crate::diagnostics::{lemma_reports, Messages};
use crate::segments::builder::catalog::answers_as;
use crate::segments::builder::lines::owned;
use crate::segments::extras::Setting;
use crate::segments::segment::{OverriddenSegment, Segment, SegmentBox};
use crate::segments::separator::{SegmentDefaults, WidthBounds};
use crate::text::{decimal, decimal_string, trim, trimmed};
use crate::theme::{Style, StyleView};

verus! {

/// What is laid over a segment.
pub struct OverlayView {
    pub priority: Option<u8>,
    pub width: Option<(u16, u16)>,
    pub style: Option<StyleView>,
    pub icon: Option<Seq<char>>,
}

/// The user's width bounds. A side that is not written is the segment's own,
/// or open; bounds that cross are reported and dropped.
pub open spec fn width_setting(
    id: Seq<char>,
    base: Option<WidthBounds>,
    width: Option<WidthBoundsConfig>,
) -> Setting<Option<(u16, u16)>> {
    match width {
        None => Setting { value: None, warnings: seq![] },
        Some(w) => {
            let min = match (w.min, base) {
                (Some(n), _) => n,
                (None, Some(b)) => b.lo(),
                (None, None) => 0,
            };
            let max = match (w.max, base) {
                (Some(n), _) => n,
                (None, Some(b)) => b.hi(),
                (None, None) => u16::MAX,
            };
            if min <= max {
                Setting { value: Some((min, max)), warnings: seq![] }
            } else {
                Setting {
                    value: None,
                    warnings: seq![
                        "segments."@ + id + ".width: min ("@ + decimal(min as nat) + ") > max ("@
                            + decimal(max as nat) + "); ignoring override"@,
                    ],
                }
            }
        },
    }
}

/// The user's style. A blank one is none; one that cannot be read is reported
/// and dropped.
pub open spec fn style_setting(id: Seq<char>, style: Option<UserStyle>) -> Setting<
    Option<StyleView>,
> {
    match style {
        None => Setting { value: None, warnings: seq![] },
        Some(s) => if trimmed(s.text@).len() == 0 {
            Setting { value: None, warnings: seq![] }
        } else {
            match s.parsed {
                Ok(style) => Setting { value: Some(style@), warnings: seq![] },
                Err(why) => Setting {
                    value: None,
                    warnings: seq![
                        "segments."@ + id + ".style: "@ + why@ + "; ignoring override"@,
                    ],
                },
            }
        },
    }
}

/// The segment's own icon, where icons are drawn.
pub open spec fn built_in_icon(defaults: SegmentDefaults, icons: IconMode) -> Option<Seq<char>> {
    match (icons, defaults.icon) {
        (IconMode::NerdFont, Some(icon)) => Some(icon@),
        _ => None,
    }
}

/// What is laid over the segment of `id`, of intent `defaults`. `None` where
/// nothing is: there are no settings, and no icon is drawn.
pub open spec fn overlay(
    id: Seq<char>,
    defaults: SegmentDefaults,
    settings: Option<SegmentOverride>,
    icons: IconMode,
) -> Setting<Option<OverlayView>> {
    match settings {
        None => Setting {
            value: match built_in_icon(defaults, icons) {
                Some(icon) => Some(
                    OverlayView { priority: None, width: None, style: None, icon: Some(icon) },
                ),
                None => None,
            },
            warnings: seq![],
        },
        Some(s) => {
            let width = width_setting(id, defaults.width, s.width);
            let style = style_setting(id, s.style);
            Setting {
                value: Some(
                    OverlayView {
                        priority: s.priority,
                        width: width.value,
                        style: style.value,
                        icon: match s.icon {
                            Some(icon) => Some(icon@),
                            None => built_in_icon(defaults, icons),
                        },
                    },
                ),
                warnings: width.warnings + style.warnings,
            }
        },
    }
}

/// `s` lays `o` over `inner`.
pub open spec fn lays(s: OverriddenSegment, inner: SegmentBox, o: OverlayView) -> bool {
    &&& s.below() == inner
    &&& s.priority_set() == o.priority
    &&& s.style_set() == o.style
    &&& s.icon_set() == o.icon
    &&& match (s.width_set(), o.width) {
        (Some(b), Some((lo, hi))) => b.lo() == lo && b.hi() == hi,
        (None, None) => true,
        _ => false,
    }
}

/// `b` is `inner` with `o` laid over it.
pub open spec fn overlaid(inner: SegmentBox, o: Option<OverlayView>, b: SegmentBox) -> bool {
    match o {
        None => b == inner,
        Some(v) => exists|s: OverriddenSegment|
            lays(s, inner, v) && #[trigger] answers_as(b, s),
    }
}

fn resolve_width(
    id: &str,
    base: Option<WidthBounds>,
    width: &Option<WidthBoundsConfig>,
    warnings: &mut Messages,
) -> (r: Option<WidthBounds>)
    ensures
        match (r, width_setting(id@, base, *width).value) {
            (Some(b), Some((lo, hi))) => b.lo() == lo && b.hi() == hi,
            (None, None) => true,
            _ => false,
        },
        final(warnings)@ == old(warnings)@ + width_setting(id@, base, *width).warnings,
{
    let ghost before = warnings@;
    assert(before + seq![] =~= before);
    let w = match width {
        Some(w) => w,
        None => {
            return None;
        },
    };
    let min: u16 = match (w.min, base) {
        (Some(n), _) => n,
        (None, Some(b)) => b.min(),
        (None, None) => 0,
    };
    let max: u16 = match (w.max, base) {
        (Some(n), _) => n,
        (None, Some(b)) => b.max(),
        (None, None) => 65535,
    };
    match WidthBounds::new(min, max) {
        Some(bounds) => Some(bounds),
        None => {
            let mut message = "segments.".to_owned();
            message.append(id);
            message.append(".width: min (");
            message.append(decimal_string(min as u64).as_str());
            message.append(") > max (");
            message.append(decimal_string(max as u64).as_str());
            message.append("); ignoring override");
            warnings.push(message);
            assert(warnings@ =~= before + seq![message@]);
            None
        },
    }
}

fn resolve_style(id: &str, style: &Option<UserStyle>, warnings: &mut Messages) -> (r: Option<Style>)
    ensures
        crate::segments::segment::style_in(r) == style_setting(id@, *style).value,
        final(warnings)@ == old(warnings)@ + style_setting(id@, *style).warnings,
{
    let ghost before = warnings@;
    assert(before + seq![] =~= before);
    match style {
        None => None,
        Some(s) => {
            if trim(s.text.as_str()).as_str().is_empty() {
                return None;
            }
            match &s.parsed {
                Ok(style) => Some(style.clone()),
                Err(why) => {
                    let mut message = "segments.".to_owned();
                    message.append(id);
                    message.append(".style: ");
                    message.append(why.as_str());
                    message.append("; ignoring override");
                    warnings.push(message);
                    assert(warnings@ =~= before + seq![message@]);
                    None
                },
            }
        },
    }
}

/// Lay the settings of `id` over `inner`.
pub fn apply_override(
    id: &str,
    inner: SegmentBox,
    settings: Option<&SegmentOverride>,
    icons: IconMode,
    warnings: &mut Messages,
) -> (r: SegmentBox)
    ensures
        exists|d: SegmentDefaults|
            {
                &&& #[trigger] inner.segment.declares(d)
                &&& overlaid(inner, overlay(id@, d, owned(settings), icons).value, r)
                &&& final(warnings)@ == old(warnings)@ + overlay(
                    id@,
                    d,
                    owned(settings),
                    icons,
                ).warnings
            },
{
    let ghost before = warnings@;
    let ghost start = inner;
    let defaults = inner.segment.defaults();
    assert(start.segment.declares(defaults));
    let own_icon: Option<String> = match (icons, defaults.icon) {
        (IconMode::NerdFont, Some(icon)) => Some(icon.to_owned()),
        _ => None,
    };
    let mut over = OverriddenSegment::new(inner);
    match settings {
        None => {
            proof {
                lemma_reports(before, seq![], seq![]);
            }
            match own_icon {
                None => {
                    return over.into_inner();
                },
                Some(icon) => {
                    over = over.with_icon(icon);
                },
            }
        },
        Some(s) => {
            let ghost a = width_setting(id@, defaults.width, s.width).warnings;
            let ghost b = style_setting(id@, s.style).warnings;
            proof {
                lemma_reports(before, a, b);
            }
            if let Some(p) = s.priority {
                over = over.with_priority(p);
            }
            if let Some(bounds) = resolve_width(id, defaults.width, &s.width, warnings) {
                over = over.with_width(bounds);
            }
            if let Some(style) = resolve_style(id, &s.style, warnings) {
                over = over.with_user_style(style);
            }
            let icon = match &s.icon {
                Some(icon) => Some(icon.clone()),
                None => own_icon,
            };
            if let Some(icon) = icon {
                over = over.with_icon(icon);
            }
        },
    }
    let ghost done = over;
    let r = SegmentBox { segment: Box::new(over) };
    assert(answers_as(r, done));
    proof {
        let v = overlay(id@, defaults, owned(settings), icons).value->0;
        assert(lays(done, start, v));
    }
    r
}

} // verus!
