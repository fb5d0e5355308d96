//! What holds of the settings that lines and segments are built with.

use vstd::prelude::*;

use crate::config::{
    settings_of, Config, IconMode, LayoutMode, LineConfig, LineEntry, NamedOverride, NumberedLine,
    RawEntry, RawField, RawLine, SegmentOverride, WidthBoundsConfig,
};
use crate::segments::builder::catalog::DEFAULT_SEGMENT_IDS;
use crate::segments::builder::lines::{
    empty_line_warnings, entry_lists, icon_mode_of, layout_separator_setting, line_number,
    numbered_line, ordered_lines, place_of, powerline_width_setting, readable_entries,
    separator_setting, LineView,
};
use crate::segments::builder::model::{default_slots, line_lists, shown_line, SlotView};
use crate::segments::builder::overrides::{overlay, width_setting};
use crate::segments::segment::SegmentBox;
use crate::segments::separator::{PowerlineWidth, SegmentDefaults, SeparatorView};
use crate::text::{decimal, lowered, trimmed};
use crate::text_laws::{decimal_is_read_back, lemma_mentions, mentions};
use crate::value::lookup;

verus! {

// --- A segment's settings -----------------------------------------------

/// The settings of an id are those of the first entry that names it; an id that
/// no entry names has none.
pub proof fn settings_go_by_the_id(segments: Seq<NamedOverride>, id: Seq<char>)
    ensures
        settings_of(segments, id) is None <==> forall|i: int|
            0 <= i < segments.len() ==> (#[trigger] segments[i]).id@ != id,
        forall|i: int|
            0 <= i < segments.len() && (#[trigger] segments[i]).id@ == id && (forall|k: int|
                0 <= k < i ==> (#[trigger] segments[k]).id@ != id) ==> settings_of(segments, id)
                == Some(segments[i].settings),
    decreases segments.len(),
{
    if segments.len() > 0 {
        let rest = segments.skip(1);
        settings_go_by_the_id(rest, id);
        assert forall|i: int| 0 <= i < rest.len() implies #[trigger] rest[i] == segments[i + 1] by {
        }
        if segments[0].id@ != id {
            if settings_of(rest, id) is None {
                assert forall|i: int| 0 <= i < segments.len() implies (#[trigger] segments[i]).id@
                    != id by {
                    if i > 0 {
                        assert(rest[i - 1].id@ != id);
                    }
                }
            } else {
                let i = choose|i: int| 0 <= i < rest.len() && (#[trigger] rest[i]).id@ == id;
                assert(segments[i + 1].id@ == id);
            }
            assert forall|i: int|
                0 <= i < segments.len() && (#[trigger] segments[i]).id@ == id && (forall|k: int|
                    0 <= k < i ==> (#[trigger] segments[k]).id@ != id) implies settings_of(
                segments,
                id,
            ) == Some(segments[i].settings) by {
                assert(rest[i - 1].id@ == id);
                assert forall|k: int| 0 <= k < i - 1 implies (#[trigger] rest[k]).id@ != id by {
                    assert(segments[k + 1].id@ != id);
                }
            }
        }
    }
}

/// The user's bounds: a side that the user wrote is the user's, one that the
/// user left out is the segment's own, or open. They count exactly where they
/// do not cross, and are reported exactly where they do.
pub proof fn bounds_are_merged_side_by_side(
    id: Seq<char>,
    defaults: SegmentDefaults,
    s: SegmentOverride,
)
    ensures
        ({
            let setting = width_setting(id, defaults.width, s.width);
            match s.width {
                None => setting.value is None && setting.warnings.len() == 0,
                Some(w) => {
                    let lo: int = if w.min is Some {
                        w.min->0 as int
                    } else if defaults.width is Some {
                        defaults.width->0.lo() as int
                    } else {
                        0
                    };
                    let hi: int = if w.max is Some {
                        w.max->0 as int
                    } else if defaults.width is Some {
                        defaults.width->0.hi() as int
                    } else {
                        0xffff
                    };
                    &&& lo <= hi <==> setting.value is Some
                    &&& lo <= hi <==> setting.warnings.len() == 0
                    &&& setting.value matches Some(b) ==> b.0 == lo && b.1 == hi
                },
            }
        }),
{
}

/// What the user's settings lay over a segment: the user's priority, and the
/// user's style where it can be read and is not blank. The icon is the user's,
/// or else the segment's own where icons are drawn. A style that cannot be read
/// is reported, a blank one is not.
pub proof fn settings_lie_over_the_segment(
    id: Seq<char>,
    defaults: SegmentDefaults,
    s: SegmentOverride,
    icons: IconMode,
)
    ensures
        ({
            let setting = overlay(id, defaults, Some(s), icons);
            let blank = s.style is Some && trimmed(s.style->0.text@).len() == 0;
            &&& setting.value matches Some(o)
            &&& o.priority == s.priority
            &&& o.width == width_setting(id, defaults.width, s.width).value
            &&& match s.style {
                None => o.style is None,
                Some(style) => match style.parsed {
                    Ok(look) => if blank {
                        o.style is None
                    } else {
                        o.style == Some(look@)
                    },
                    Err(_) => o.style is None,
                },
            }
            &&& s.icon matches Some(icon) ==> o.icon == Some(icon@)
            &&& s.icon is None && icons == IconMode::NerdFont ==> o.icon == (
            match defaults.icon {
                Some(icon) => Some(icon@),
                None => None,
            })
            &&& s.icon is None && icons == IconMode::Off ==> o.icon is None
            &&& setting.warnings.len() == width_setting(
                id,
                defaults.width,
                s.width,
            ).warnings.len() + (if s.style is Some && !blank && s.style->0.parsed is Err {
                1nat
            } else {
                0nat
            })
        }),
{
}

/// What is told of a segment's settings names the segment by its id.
pub proof fn settings_are_told_by_the_id(
    id: Seq<char>,
    defaults: SegmentDefaults,
    s: SegmentOverride,
    icons: IconMode,
    i: int,
)
    requires
        0 <= i < overlay(id, defaults, Some(s), icons).warnings.len(),
    ensures
        mentions(overlay(id, defaults, Some(s), icons).warnings[i], id),
        seq!['s', 'e', 'g', 'm', 'e', 'n', 't', 's', '.'].is_prefix_of(
            overlay(id, defaults, Some(s), icons).warnings[i],
        ),
{
    reveal_strlit("segments.");
    let start = seq!['s', 'e', 'g', 'm', 'e', 'n', 't', 's', '.'];
    assert("segments."@ =~= start);
    let told = overlay(id, defaults, Some(s), icons).warnings[i];
    let rest = told.skip((start.len() + id.len()) as int);
    assert(told =~= start + id + rest);
    lemma_mentions(start, id, rest);
    assert(told.take(start.len() as int) =~= start);
}

/// Bounds that cross are told with both sides, the lower one first.
pub proof fn crossed_bounds_are_told(id: Seq<char>, defaults: SegmentDefaults, lo: u16, hi: u16)
    requires
        lo > hi,
    ensures
        ({
            let w = WidthBoundsConfig { min: Some(lo), max: Some(hi) };
            let told = width_setting(id, defaults.width, Some(w)).warnings;
            &&& told.len() == 1
            &&& mentions(
                told[0],
                "min ("@ + decimal(lo as nat) + ") > max ("@ + decimal(hi as nat) + ")"@,
            )
        }),
{
    reveal_strlit(".width: min (");
    reveal_strlit(".width: ");
    reveal_strlit("min (");
    reveal_strlit("); ignoring override");
    reveal_strlit(")");
    reveal_strlit("; ignoring override");
    assert(".width: min ("@ =~= ".width: "@ + "min ("@);
    assert("); ignoring override"@ =~= ")"@ + "; ignoring override"@);
    let w = WidthBoundsConfig { min: Some(lo), max: Some(hi) };
    let told = width_setting(id, defaults.width, Some(w)).warnings[0];
    let a = "segments."@ + id + ".width: "@;
    let both = "min ("@ + decimal(lo as nat) + ") > max ("@ + decimal(hi as nat) + ")"@;
    lemma_mentions(a, both, "; ignoring override"@);
    assert(told =~= a + both + "; ignoring override"@);
}

/// A width of the chevron that is neither one nor two is told as it is, and
/// taken for one.
pub proof fn odd_chevron_is_told(width: u16)
    ensures
        width == 2 <==> powerline_width_setting(width).value == PowerlineWidth::Two,
        width == 1 || width == 2 <==> powerline_width_setting(width).warnings.len() == 0,
        width != 1 && width != 2 ==> mentions(
            powerline_width_setting(width).warnings[0],
            decimal(width as nat),
        ),
{
    lemma_mentions(
        "[layout_options].powerline_width = "@,
        decimal(width as nat),
        " is not 1 or 2; using 1"@,
    );
}

/// Without settings a segment gets its own icon, where icons are drawn, and
/// nothing else; nothing is reported.
pub proof fn bare_segment_gets_its_icon(id: Seq<char>, defaults: SegmentDefaults, icons: IconMode)
    ensures
        ({
            let setting = overlay(id, defaults, None, icons);
            &&& setting.warnings.len() == 0
            &&& icons == IconMode::Off || defaults.icon is None <==> setting.value is None
            &&& setting.value matches Some(o) ==> {
                &&& o.icon == Some(defaults.icon->0@)
                &&& o.priority is None
                &&& o.width is None
                &&& o.style is None
            }
        }),
{
}

// --- The separator of a line --------------------------------------------

/// `value` is `word` in any case, with any white space around it.
pub open spec fn spells(value: Seq<char>, word: Seq<char>) -> bool {
    lowered(trimmed(value)) == word
}

/// The separator between segments: a blank where none is configured; nothing
/// where it is empty; a blank or a chevron where it says so; and else exactly
/// the text that is configured. Two words are kept for later, and reported.
pub proof fn separator_is_what_it_spells(value: Seq<char>, width: PowerlineWidth)
    ensures
        ({
            let setting = separator_setting(value, width);
            let reserved = spells(value, "capsule"@) || spells(value, "flex"@);
            match setting.value {
                SeparatorView::Empty => value.len() == 0,
                SeparatorView::Space => spells(value, "space"@) || reserved,
                SeparatorView::Powerline { width: w } => spells(value, "powerline"@) && w == width,
                SeparatorView::Literal(text) => {
                    &&& text == value
                    &&& value.len() > 0
                    &&& !spells(value, "space"@)
                    &&& !spells(value, "powerline"@)
                    &&& !reserved
                },
                SeparatorView::Theme => false,
            }
        }),
        spells(value, "space"@) ==> separator_setting(value, width).warnings.len() == 0,
        separator_setting(value, width).warnings.len() > 0 ==> spells(value, "capsule"@) || spells(
            value,
            "flex"@,
        ),
        spells(value, "capsule"@) || spells(value, "flex"@) ==> separator_setting(
            value,
            width,
        ).warnings.len() == 1,
{
    reveal_strlit("space");
    reveal_strlit("powerline");
    reveal_strlit("capsule");
    reveal_strlit("flex");
    if value.len() == 0 {
        assert(trimmed(value).len() == 0);
        assert(lowered(trimmed(value)).len() == 0);
    } else {
        let word = lowered(trimmed(value));
        if word == "capsule"@ || word == "flex"@ {
            assert(word[0] == 'c' || word[0] == 'f');
            assert("space"@[0] == 's');
            assert("powerline"@[0] == 'p');
        }
    }
}

/// The separator of a configuration: as its text spells it, with a chevron of
/// one cell unless two are configured; a blank where there is no text. What
/// stands for the chevron's cells and is neither one nor two is reported.
pub proof fn configured_separator_is_found(c: Config)
    ensures
        layout_separator_setting(None).value == SeparatorView::Space,
        layout_separator_setting(None).warnings.len() == 0,
        icon_mode_of(None) == IconMode::NerdFont,
        c.layout_options is None ==> {
            &&& layout_separator_setting(Some(c)).value == SeparatorView::Space
            &&& layout_separator_setting(Some(c)).warnings.len() == 0
            &&& icon_mode_of(Some(c)) == IconMode::NerdFont
        },
        c.layout_options matches Some(o) ==> {
            let cells = if o.powerline_width == Some(2u16) {
                PowerlineWidth::Two
            } else {
                PowerlineWidth::One
            };
            &&& icon_mode_of(Some(c)) == o.icons
            &&& match o.separator {
                Some(text) => layout_separator_setting(Some(c)).value == separator_setting(
                    text@,
                    cells,
                ).value,
                None => layout_separator_setting(Some(c)).value == SeparatorView::Space,
            }
            &&& o.powerline_width matches Some(n) ==> (n != 1 && n != 2
                ==> layout_separator_setting(Some(c)).warnings.len() > 0)
        },
{
}

// --- Numbered lines -----------------------------------------------------

/// Of a numbered line every readable entry stays, in its place among them, and
/// every other is reported.
pub proof fn readable_entries_stay(key: Seq<char>, items: Seq<RawEntry>, i: int)
    requires
        0 <= i < items.len(),
    ensures
        readable_entries(key, items).value.len() + readable_entries(key, items).warnings.len()
            == items.len(),
        items[i] matches RawEntry::Entry(entry) ==> {
            let at = readable_entries(key, items.take(i)).value.len() as int;
            at < readable_entries(key, items).value.len() && readable_entries(key, items).value[at]
                == entry
        },
    decreases items.len(),
{
    let front = items.drop_last();
    if front.len() > 0 {
        readable_entries_stay(
            key,
            front,
            if i < front.len() {
                i
            } else {
                0
            },
        );
    } else {
        assert(front =~= seq![]);
    }
    if i < front.len() {
        assert(front.take(i) =~= items.take(i));
        assert(front[i] == items[i]);
    } else {
        assert(items.take(i) =~= front);
    }
}

/// What a usable key of `[line]` is: a positive number in decimal digits, with
/// a table under it that holds a list of segments.
pub open spec fn is_usable(line: NumberedLine) -> bool {
    &&& line_number(line.key@) is Some
    &&& line.line matches RawLine::Table(fields)
    &&& lookup(fields@, "segments"@) matches Some(RawField::List(_))
}

/// A key of `[line]` gives a line exactly where it is usable: the number that
/// the key writes, with the readable entries of its list. Every other key is
/// reported.
pub proof fn usable_keys_give_lines(line: NumberedLine)
    ensures
        numbered_line(line).value is Some <==> is_usable(line),
        !is_usable(line) ==> numbered_line(line).warnings.len() > 0,
        numbered_line(line).value matches Some(view) ==> {
            &&& line_number(line.key@) == Some(view.number)
            &&& line.line matches RawLine::Table(fields)
            &&& lookup(fields@, "segments"@) matches Some(RawField::List(items))
            &&& view.entries == readable_entries(line.key@, items@).value
        },
{
}

/// A number in decimal is the number of a line, unless it is zero or too large.
pub proof fn line_number_is_written_in_decimal(n: nat)
    ensures
        line_number(decimal(n)) == if 0 < n <= 0xffff_ffff {
            Some(n)
        } else {
            None
        },
{
    decimal_is_read_back(n, u32::MAX as nat);
}

proof fn lemma_place_bound(lines: Seq<LineView>, number: nat)
    ensures
        place_of(lines, number) <= lines.len(),
    decreases lines.len(),
{
    if lines.len() > 0 && lines[0].number <= number {
        lemma_place_bound(lines.skip(1), number);
    }
}

/// `view` is the line of a usable key of `lines`.
pub open spec fn has_key(lines: Seq<NumberedLine>, view: LineView) -> bool {
    exists|i: int|
        0 <= i < lines.len() && is_usable(#[trigger] lines[i]) && numbered_line(lines[i]).value
            == Some(view)
}

/// Every usable key has its line, and there are no other lines.
pub proof fn every_usable_line_is_kept(lines: Seq<NumberedLine>)
    ensures
        forall|i: int|
            0 <= i < lines.len() && is_usable(#[trigger] lines[i]) ==> ordered_lines(
                lines,
            ).value.contains(numbered_line(lines[i]).value->0),
        forall|p: int|
            0 <= p < ordered_lines(lines).value.len() ==> has_key(
                lines,
                #[trigger] ordered_lines(lines).value[p],
            ),
        ordered_lines(lines).value.len() == lines.filter(|l: NumberedLine| is_usable(l)).len(),
    decreases lines.len(),
{
    reveal(Seq::filter);
    if lines.len() > 0 {
        let front = lines.drop_last();
        every_usable_line_is_kept(front);
        usable_keys_give_lines(lines.last());
        let before = ordered_lines(front).value;
        let after = ordered_lines(lines).value;
        match numbered_line(lines.last()).value {
            Some(view) => {
                let at = place_of(before, view.number) as int;
                lemma_place_bound(before, view.number);
                assert(after == before.insert(at, view));
                assert(after[at] == view);
                assert forall|i: int|
                    0 <= i < lines.len() && is_usable(#[trigger] lines[i]) implies after.contains(
                    numbered_line(lines[i]).value->0,
                ) by {
                    if i < front.len() {
                        assert(front[i] == lines[i]);
                        let want = numbered_line(lines[i]).value->0;
                        assert(before.contains(want));
                        let p = before.index_of(want);
                        if p < at {
                            assert(after[p] == want);
                        } else {
                            assert(after[p + 1] == want);
                        }
                    }
                }
                assert forall|p: int| 0 <= p < after.len() implies has_key(
                    lines,
                    #[trigger] after[p],
                ) by {
                    if p == at {
                        assert(is_usable(lines[lines.len() - 1]));
                    } else {
                        let q = if p < at {
                            p
                        } else {
                            p - 1
                        };
                        assert(after[p] == before[q]);
                        assert(has_key(front, before[q]));
                        let i = choose|i: int|
                            0 <= i < front.len() && is_usable(#[trigger] front[i])
                                && numbered_line(front[i]).value == Some(before[q]);
                        assert(is_usable(lines[i]));
                    }
                }
            },
            None => {
                assert forall|i: int|
                    0 <= i < lines.len() && is_usable(#[trigger] lines[i]) implies after.contains(
                    numbered_line(lines[i]).value->0,
                ) by {
                    assert(front[i] == lines[i]);
                }
                assert forall|p: int| 0 <= p < after.len() implies has_key(
                    lines,
                    #[trigger] after[p],
                ) by {
                    assert(has_key(front, before[p]));
                    let i = choose|i: int|
                        0 <= i < front.len() && is_usable(#[trigger] front[i]) && numbered_line(
                            front[i],
                        ).value == Some(before[p]);
                    assert(is_usable(lines[i]));
                }
            },
        }
    }
}

/// Every numbered line without entries is told of once, by its number.
pub proof fn empty_lines_are_told(lines: Seq<LineView>)
    ensures
        empty_line_warnings(lines).len() == lines.filter(
            |l: LineView| l.entries.len() == 0,
        ).len(),
        lines.len() > 0 && lines.last().entries.len() == 0 ==> mentions(
            empty_line_warnings(lines).last(),
            decimal(lines.last().number),
        ),
    decreases lines.len(),
{
    reveal(Seq::filter);
    if lines.len() > 0 {
        empty_lines_are_told(lines.drop_last());
        lemma_mentions(
            "[line."@,
            decimal(lines.last().number),
            "].segments is empty; that line will render nothing"@,
        );
    }
}

// --- Which lines there are ----------------------------------------------

/// Does `[line]` have a usable key?
pub open spec fn has_usable_line(line: LineConfig) -> bool {
    exists|i: int| 0 <= i < line.numbered@.len() && is_usable(#[trigger] line.numbered@[i])
}

/// The lines that are built are the numbered ones in multi-line mode, and
/// where nothing else is configured, as long as one of them is usable. Else it
/// is one line, that of `[line]`, or the default line where there is no
/// `[line]`. What the single-line interface shows is the first of them in
/// multi-line mode, and the one line else.
pub proof fn lines_go_by_the_layout(c: Config, line: LineConfig, defaults: Seq<LineEntry>)
    requires
        c.line == Some(line),
    ensures
        ({
            let usable = has_usable_line(line);
            let numbered = ordered_lines(line.numbered@).value;
            let lists = line_lists(Some(c), defaults).value;
            let first = shown_line(Some(c), defaults).value;
            let many = c.layout == LayoutMode::MultiLine || line.segments@.len() == 0;
            &&& usable && many ==> {
                &&& lists.len() == numbered.len()
                &&& lists.len() > 0
                &&& forall|i: int|
                    0 <= i < lists.len() ==> #[trigger] lists[i] == numbered[i].entries
            }
            &&& !usable || !many ==> lists == seq![line.segments@]
            &&& c.layout == LayoutMode::SingleLine ==> first == line.segments@
            &&& c.layout == LayoutMode::MultiLine ==> first == lists[0]
            &&& c.layout == LayoutMode::MultiLine && !usable ==> line_lists(
                Some(c),
                defaults,
            ).warnings.len() > 0
            &&& line.segments@.len() == 0 && !usable ==> line_lists(
                Some(c),
                defaults,
            ).warnings.len() > 0
            &&& c.layout == LayoutMode::SingleLine && line.numbered@.len() > 0 ==> line_lists(
                Some(c),
                defaults,
            ).warnings.len() > 0
            &&& c.layout == LayoutMode::SingleLine && line.numbered@.len() == 0
                && line.segments@.len() > 0 ==> line_lists(Some(c), defaults).warnings.len() == 0
                && shown_line(Some(c), defaults).warnings.len() == 0
            &&& c.layout == LayoutMode::MultiLine && usable ==> shown_line(
                Some(c),
                defaults,
            ).warnings.len() > 0
        }),
{
    lemma_usable(line);
    assert(entry_lists(ordered_lines(line.numbered@).value).len() == ordered_lines(
        line.numbered@,
    ).value.len());
}

proof fn lemma_usable(line: LineConfig)
    ensures
        has_usable_line(line) <==> ordered_lines(line.numbered@).value.len() > 0,
        has_usable_line(line) ==> line.numbered@.len() > 0,
{
    every_usable_line_is_kept(line.numbered@);
    let numbered = ordered_lines(line.numbered@).value;
    if has_usable_line(line) {
        let i = choose|i: int|
            0 <= i < line.numbered@.len() && is_usable(#[trigger] line.numbered@[i]);
        let view = numbered_line(line.numbered@[i]).value->0;
        assert(numbered.contains(view));
        assert(numbered[numbered.index_of(view)] == view);
        assert(numbered.len() > 0);
    } else if numbered.len() > 0 {
        assert(has_key(line.numbered@, numbered[0]));
        let i = choose|i: int|
            0 <= i < line.numbered@.len() && is_usable(#[trigger] line.numbered@[i])
                && numbered_line(line.numbered@[i]).value == Some(numbered[0]);
        assert(is_usable(line.numbered@[i]));
        assert(has_usable_line(line));
    }
}

/// Without a `[line]` the default line is built, and nothing else.
pub proof fn default_line_stands_in(config: Option<Config>, defaults: Seq<LineEntry>)
    requires
        config matches Some(c) ==> c.line is None,
    ensures
        line_lists(config, defaults).value == seq![defaults],
        shown_line(config, defaults).value == defaults,
{
}

/// The default line holds the default segments that there are, each under its
/// id, in their order.
pub proof fn default_line_holds_what_there_is(segments: Seq<Option<SegmentBox>>, i: int) -> (p: int)
    requires
        0 <= i < segments.len() <= 6,
        segments[i] is Some,
    ensures
        0 <= p < default_slots(segments).len(),
        default_slots(segments)[p] matches SlotView::Segment { id, segment, .. } && id
            == DEFAULT_SEGMENT_IDS[i]@ && segment == segments[i]->0,
        default_slots(segments.take(i)).len() <= p,
    decreases segments.len(),
{
    let front = segments.drop_last();
    if i < front.len() {
        let p = default_line_holds_what_there_is(front, i);
        assert(front.take(i) =~= segments.take(i));
        assert(default_slots(segments)[p] == default_slots(front)[p]);
        p
    } else {
        assert(segments.take(i) =~= front);
        default_slots(segments).len() - 1
    }
}

} // verus!
