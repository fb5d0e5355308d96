//! Which entries make up which line, and what stands between segments.

use std::borrow::Cow;

use vstd::prelude::*;
use vstd::string::StringExecFns;

use crate::config::{
    Config, IconMode, LineConfig, LineEntry, NumberedLine, RawEntry, RawField, RawLine,
};
use crate::diagnostics::{lemma_reports, Messages};
use crate::segments::extras::Setting;
use crate::segments::separator::{PowerlineWidth, Separator, SeparatorView};
use crate::text::{
    decimal, decimal_string, lowered, number_value, parse_number, same_text, to_ascii_lowercase,
    trim, trimmed,
};
use crate::value::lookup;

verus! {

// --- Separators and icons -----------------------------------------------

/// `powerline_width`: 1 or 2, else 1.
pub open spec fn powerline_width_setting(width: u16) -> Setting<PowerlineWidth> {
    if width == 1 {
        Setting { value: PowerlineWidth::One, warnings: seq![] }
    } else if width == 2 {
        Setting { value: PowerlineWidth::Two, warnings: seq![] }
    } else {
        Setting {
            value: PowerlineWidth::One,
            warnings: seq![
                "[layout_options].powerline_width = "@ + decimal(width as nat)
                    + " is not 1 or 2; using 1"@,
            ],
        }
    }
}

/// `separator`: a keyword, in any case and with any white space around it;
/// nothing at all; or a text of the user's own.
pub open spec fn separator_setting(value: Seq<char>, width: PowerlineWidth) -> Setting<
    SeparatorView,
> {
    let word = lowered(trimmed(value));
    if value.len() == 0 {
        Setting { value: SeparatorView::Empty, warnings: seq![] }
    } else if word == "space"@ {
        Setting { value: SeparatorView::Space, warnings: seq![] }
    } else if word == "powerline"@ {
        Setting { value: SeparatorView::Powerline { width }, warnings: seq![] }
    } else if word == "capsule"@ || word == "flex"@ {
        Setting {
            value: SeparatorView::Space,
            warnings: seq![
                "[layout_options].separator '"@ + value
                    + "' is reserved for v0.2+; rendering as 'space'"@,
            ],
        }
    } else {
        Setting { value: SeparatorView::Literal(value), warnings: seq![] }
    }
}

/// The separator between segments that have none of their own.
pub open spec fn layout_separator_setting(config: Option<Config>) -> Setting<SeparatorView> {
    match config {
        Some(c) => match c.layout_options {
            Some(options) => {
                let width = match options.powerline_width {
                    Some(w) => powerline_width_setting(w),
                    None => Setting { value: PowerlineWidth::One, warnings: seq![] },
                };
                match options.separator {
                    Some(s) => {
                        let sep = separator_setting(s@, width.value);
                        Setting { value: sep.value, warnings: width.warnings + sep.warnings }
                    },
                    None => Setting { value: SeparatorView::Space, warnings: width.warnings },
                }
            },
            None => Setting { value: SeparatorView::Space, warnings: seq![] },
        },
        None => Setting { value: SeparatorView::Space, warnings: seq![] },
    }
}

/// Are built-in icons drawn? They are, unless the configuration says no.
pub open spec fn icon_mode_of(config: Option<Config>) -> IconMode {
    match config {
        Some(c) => match c.layout_options {
            Some(options) => options.icons,
            None => IconMode::NerdFont,
        },
        None => IconMode::NerdFont,
    }
}

/// Check `powerline_width`. Only 1 and 2 mean anything; all else is reported
/// and taken for 1.
pub fn validate_powerline_width(width: u16, warnings: &mut Messages) -> (r: PowerlineWidth)
    ensures
        r == powerline_width_setting(width).value,
        final(warnings)@ == old(warnings)@ + powerline_width_setting(width).warnings,
{
    let ghost before = warnings@;
    assert(before + seq![] =~= before);
    if width == 1 {
        PowerlineWidth::One
    } else if width == 2 {
        PowerlineWidth::Two
    } else {
        let mut message = "[layout_options].powerline_width = ".to_owned();
        message.append(decimal_string(width as u64).as_str());
        message.append(" is not 1 or 2; using 1");
        warnings.push(message);
        assert(warnings@ =~= before + seq![message@]);
        PowerlineWidth::One
    }
}

/// Read `separator`. Anything that is no keyword is drawn as it is written,
/// so a misspelt keyword is drawn too, without a report.
pub fn parse_layout_separator(
    value: &str,
    powerline_width: PowerlineWidth,
    warnings: &mut Messages,
) -> (r: Separator)
    ensures
        r@ == separator_setting(value@, powerline_width).value,
        final(warnings)@ == old(warnings)@ + separator_setting(value@, powerline_width).warnings,
{
    let ghost before = warnings@;
    assert(before + seq![] =~= before);
    if value.is_empty() {
        return Separator::Empty;
    }
    let word = to_ascii_lowercase(trim(value).as_str());
    let word = word.as_str();
    if same_text(word, "space") {
        Separator::Space
    } else if same_text(word, "powerline") {
        Separator::Powerline { width: powerline_width }
    } else if same_text(word, "capsule") || same_text(word, "flex") {
        let mut message = "[layout_options].separator '".to_owned();
        message.append(value);
        message.append("' is reserved for v0.2+; rendering as 'space'");
        warnings.push(message);
        assert(warnings@ =~= before + seq![message@]);
        Separator::Space
    } else {
        Separator::Literal(Cow::Owned(value.to_owned()))
    }
}

/// Resolve the separator once for the whole configuration.
pub fn resolve_layout_separator(config: Option<&Config>, warnings: &mut Messages) -> (r: Separator)
    ensures
        r@ == layout_separator_setting(owned(config)).value,
        final(warnings)@ == old(warnings)@ + layout_separator_setting(owned(config)).warnings,
{
    let ghost before = warnings@;
    assert(before + seq![] =~= before);
    let options = match config {
        Some(c) => match &c.layout_options {
            Some(options) => options,
            None => {
                return Separator::Space;
            },
        },
        None => {
            return Separator::Space;
        },
    };
    let width = match options.powerline_width {
        Some(w) => validate_powerline_width(w, warnings),
        None => PowerlineWidth::One,
    };
    match &options.separator {
        Some(s) => {
            let sep = parse_layout_separator(s.as_str(), width, warnings);
            proof {
                let a = match options.powerline_width {
                    Some(w) => powerline_width_setting(w).warnings,
                    None => seq![],
                };
                lemma_reports(before, a, separator_setting(s@, width).warnings);
                assert(warnings@ == before + layout_separator_setting(owned(config)).warnings);
            }
            sep
        },
        None => Separator::Space,
    }
}

/// Resolve the icon mode once for the whole configuration.
pub fn resolve_icon_mode(config: Option<&Config>) -> (r: IconMode)
    ensures
        r == icon_mode_of(owned(config)),
{
    match config {
        Some(c) => match &c.layout_options {
            Some(options) => options.icons,
            None => IconMode::NerdFont,
        },
        None => IconMode::NerdFont,
    }
}

/// What a reference in `o` refers to.
pub open spec fn owned<T>(o: Option<&T>) -> Option<T> {
    match o {
        Some(t) => Some(*t),
        None => None,
    }
}

// --- Numbered lines -----------------------------------------------------

/// The start of a report on item `i` of a numbered line.
pub open spec fn item_place(key: Seq<char>, i: nat) -> Seq<char> {
    "[line."@ + key + "].segments["@ + decimal(i) + "]"@
}

/// The entries of a numbered line; what cannot be read is reported and left
/// out.
pub open spec fn readable_entries(key: Seq<char>, items: Seq<RawEntry>) -> Setting<Seq<LineEntry>>
    decreases items.len(),
{
    if items.len() == 0 {
        Setting { value: seq![], warnings: seq![] }
    } else {
        let before = readable_entries(key, items.drop_last());
        let place = item_place(key, (items.len() - 1) as nat);
        match items.last() {
            RawEntry::Entry(entry) => Setting {
                value: before.value.push(entry),
                warnings: before.warnings,
            },
            RawEntry::Unreadable(why) => Setting {
                value: before.value,
                warnings: before.warnings.push(
                    place + " inline table didn't parse ("@ + why@ + "); skipping that item"@,
                ),
            },
            RawEntry::Other(kind) => Setting {
                value: before.value,
                warnings: before.warnings.push(
                    place + " is a "@ + kind.words()
                        + " (expected a string or inline table); skipping that item"@,
                ),
            },
        }
    }
}

/// The entries of what stands under `key`, where that is a line.
pub open spec fn line_entries(key: Seq<char>, line: RawLine) -> Setting<Option<Seq<LineEntry>>> {
    match line {
        RawLine::Other(kind) => Setting {
            value: None,
            warnings: seq![
                "[line] key '"@ + key + "' is a "@ + kind.words()
                    + " (expected a sub-table with `segments = [...]`); skipping"@,
            ],
        },
        RawLine::Table(fields) => match lookup(fields@, "segments"@) {
            None => Setting {
                value: None,
                warnings: seq!["[line."@ + key + "] has no `segments` array; skipping"@],
            },
            Some(RawField::Other(kind)) => Setting {
                value: None,
                warnings: seq![
                    "[line."@ + key + "].segments is a "@ + kind.words()
                        + " (expected an array of strings or inline tables); skipping"@,
                ],
            },
            Some(RawField::List(items)) => {
                let entries = readable_entries(key, items@);
                Setting { value: Some(entries.value), warnings: entries.warnings }
            },
        },
    }
}

/// A numbered line: its number and its entries.
pub struct LineView {
    pub number: nat,
    pub entries: Seq<LineEntry>,
}

/// The positive number that `key` writes.
pub open spec fn line_number(key: Seq<char>) -> Option<nat> {
    match number_value(key, u32::MAX as nat) {
        Ok(n) => if n > 0 {
            Some(n)
        } else {
            None
        },
        Err(_) => None,
    }
}

/// What a key of `[line]` comes to.
pub open spec fn numbered_line(line: NumberedLine) -> Setting<Option<LineView>> {
    let key = line.key@;
    match line.line {
        RawLine::Other(kind) => Setting {
            value: None,
            warnings: seq![
                "[line] has unknown key '"@ + key + "' ("@ + kind.words()
                    + "); expected `[line.N]` sub-tables only. Skipping."@,
            ],
        },
        RawLine::Table(_) => match line_number(key) {
            None => Setting {
                value: None,
                warnings: seq!["[line."@ + key + "] is not a positive integer key; skipping"@],
            },
            Some(number) => {
                let entries = line_entries(key, line.line);
                Setting {
                    value: match entries.value {
                        Some(e) => Some(LineView { number, entries: e }),
                        None => None,
                    },
                    warnings: entries.warnings,
                }
            },
        },
    }
}

/// How many of `lines`, from the left, have a number of at most `number`.
pub open spec fn place_of(lines: Seq<LineView>, number: nat) -> nat
    decreases lines.len(),
{
    if lines.len() == 0 || lines[0].number > number {
        0
    } else {
        1 + place_of(lines.skip(1), number)
    }
}

/// The lines of `[line]` in the order of their numbers; of equal numbers the
/// earlier key comes first.
pub open spec fn ordered_lines(lines: Seq<NumberedLine>) -> Setting<Seq<LineView>>
    decreases lines.len(),
{
    if lines.len() == 0 {
        Setting { value: seq![], warnings: seq![] }
    } else {
        let before = ordered_lines(lines.drop_last());
        let last = numbered_line(lines.last());
        Setting {
            value: match last.value {
                Some(line) => before.value.insert(
                    place_of(before.value, line.number) as int,
                    line,
                ),
                None => before.value,
            },
            warnings: before.warnings + last.warnings,
        }
    }
}

/// The reports on lines without entries.
pub open spec fn empty_line_warnings(lines: Seq<LineView>) -> Seq<Seq<char>>
    decreases lines.len(),
{
    if lines.len() == 0 {
        seq![]
    } else {
        let before = empty_line_warnings(lines.drop_last());
        if lines.last().entries.len() == 0 {
            before.push(
                "[line."@ + decimal(lines.last().number)
                    + "].segments is empty; that line will render nothing"@,
            )
        } else {
            before
        }
    }
}

/// The entries of each of `lines`.
pub open spec fn entry_lists(lines: Seq<LineView>) -> Seq<Seq<LineEntry>> {
    Seq::new(lines.len(), |i: int| lines[i].entries)
}

/// The usable numbered lines; `None` where there is none.
pub open spec fn numbered_lines(line: Option<LineConfig>) -> Setting<Option<Seq<Seq<LineEntry>>>> {
    match line {
        None => Setting { value: None, warnings: seq![] },
        Some(l) => {
            let lines = ordered_lines(l.numbered@);
            if lines.value.len() == 0 {
                Setting { value: None, warnings: lines.warnings }
            } else {
                Setting {
                    value: Some(entry_lists(lines.value)),
                    warnings: lines.warnings + empty_line_warnings(lines.value),
                }
            }
        },
    }
}

/// Numbered lines come in the order of their numbers.
pub proof fn lines_are_ordered(lines: Seq<NumberedLine>)
    ensures
        forall|i: int, j: int|
            0 <= i < j < ordered_lines(lines).value.len() ==> (#[trigger] ordered_lines(
                lines,
            ).value[i]).number <= (#[trigger] ordered_lines(lines).value[j]).number,
    decreases lines.len(),
{
    if lines.len() > 0 {
        lines_are_ordered(lines.drop_last());
        let before = ordered_lines(lines.drop_last()).value;
        match numbered_line(lines.last()).value {
            Some(line) => {
                lemma_place(before, line.number);
                let at = place_of(before, line.number) as int;
                let out = before.insert(at, line);
                assert forall|i: int, j: int| 0 <= i < j < out.len() implies (
                #[trigger] out[i]).number <= (#[trigger] out[j]).number by {
                    let a = if i < at {
                        i
                    } else {
                        i - 1
                    };
                    let b = if j < at {
                        j
                    } else {
                        j - 1
                    };
                    if i != at {
                        assert(out[i] == before[a]);
                    }
                    if j != at {
                        assert(out[j] == before[b]);
                    }
                    if i != at && j != at {
                        assert(before[a].number <= before[b].number);
                    }
                }
            },
            None => {},
        }
    }
}

proof fn lemma_place(lines: Seq<LineView>, number: nat)
    requires
        forall|i: int, j: int|
            0 <= i < j < lines.len() ==> (#[trigger] lines[i]).number <= (
            #[trigger] lines[j]).number,
    ensures
        place_of(lines, number) <= lines.len(),
        forall|i: int|
            0 <= i < place_of(lines, number) ==> (#[trigger] lines[i]).number <= number,
        forall|i: int|
            place_of(lines, number) <= i < lines.len() ==> (#[trigger] lines[i]).number > number,
    decreases lines.len(),
{
    if lines.len() > 0 && lines[0].number <= number {
        let rest = lines.skip(1);
        assert forall|i: int, j: int| 0 <= i < j < rest.len() implies (#[trigger] rest[i]).number
            <= (#[trigger] rest[j]).number by {
            assert(rest[i] == lines[i + 1] && rest[j] == lines[j + 1]);
        }
        lemma_place(rest, number);
        assert forall|i: int| 0 <= i < place_of(lines, number) implies (#[trigger] lines[i]).number
            <= number by {
            if i > 0 {
                assert(lines[i] == rest[i - 1]);
            }
        }
        assert forall|i: int| place_of(lines, number) <= i < lines.len() implies (
        #[trigger] lines[i]).number > number by {
            assert(lines[i] == rest[i - 1]);
        }
    } else if lines.len() > 0 {
        assert forall|i: int| 0 <= i < lines.len() implies (#[trigger] lines[i]).number > number by {
            if i > 0 {
                assert(lines[0].number <= lines[i].number);
            }
        }
    }
}

/// A numbered line: its number and its entries.
pub struct ParsedLine<'a> {
    pub number: u32,
    pub entries: Vec<&'a LineEntry>,
}

/// The entries that `v` refers to.
pub open spec fn entries_of(v: Seq<&LineEntry>) -> Seq<LineEntry> {
    Seq::new(v.len(), |i: int| *v[i])
}

impl<'a> View for ParsedLine<'a> {
    type V = LineView;

    open spec fn view(&self) -> LineView {
        LineView { number: self.number as nat, entries: entries_of(self.entries@) }
    }
}

/// The lines of `v`.
pub open spec fn line_views(v: Seq<ParsedLine<'_>>) -> Seq<LineView> {
    Seq::new(v.len(), |i: int| v[i]@)
}

fn item_report(key: &str, i: usize) -> (r: String)
    ensures
        r@ == item_place(key@, i as nat),
{
    let mut out = "[line.".to_owned();
    out.append(key);
    out.append("].segments[");
    out.append(decimal_string(i as u64).as_str());
    out.append("]");
    out
}

fn extract_entries<'a>(key: &str, items: &'a Vec<RawEntry>, warnings: &mut Messages) -> (r: Vec<
    &'a LineEntry,
>)
    ensures
        entries_of(r@) == readable_entries(key@, items@).value,
        final(warnings)@ == old(warnings)@ + readable_entries(key@, items@).warnings,
{
    let ghost before = warnings@;
    let mut out: Vec<&'a LineEntry> = Vec::new();
    let mut i: usize = 0;
    assert(entries_of(out@) =~= seq![]);
    assert(before + seq![] =~= before);
    while i < items.len()
        invariant
            i <= items@.len(),
            entries_of(out@) == readable_entries(key@, items@.take(i as int)).value,
            warnings@ == before + readable_entries(key@, items@.take(i as int)).warnings,
        decreases items@.len() - i,
    {
        let ghost so_far = readable_entries(key@, items@.take(i as int));
        assert(items@.take(i + 1).drop_last() =~= items@.take(i as int));
        match &items[i] {
            RawEntry::Entry(entry) => {
                let ghost was = entries_of(out@);
                out.push(entry);
                assert(entries_of(out@) =~= was.push(*entry));
            },
            RawEntry::Unreadable(why) => {
                let mut message = item_report(key, i);
                message.append(" inline table didn't parse (");
                message.append(why.as_str());
                message.append("); skipping that item");
                warnings.push(message);
                assert(warnings@ =~= before + so_far.warnings.push(message@));
            },
            RawEntry::Other(kind) => {
                let mut message = item_report(key, i);
                message.append(" is a ");
                message.append(kind.describe());
                message.append(" (expected a string or inline table); skipping that item");
                warnings.push(message);
                assert(warnings@ =~= before + so_far.warnings.push(message@));
            },
        }
        i += 1;
    }
    assert(items@.take(i as int) =~= items@);
    out
}

fn report(start: &str, key: &str, middle: &str, what: &str, end: &str) -> (r: String)
    ensures
        r@ == start@ + key@ + middle@ + what@ + end@,
{
    let mut out = start.to_owned();
    out.append(key);
    out.append(middle);
    out.append(what);
    out.append(end);
    out
}

/// Take the entries out of what stands under `key` of `[line]`. What has no
/// list of segments is reported and is no line.
pub fn extract_line_segments<'a>(key: &str, line: &'a RawLine, warnings: &mut Messages) -> (r:
    Option<Vec<&'a LineEntry>>)
    ensures
        match r {
            Some(entries) => line_entries(key@, *line).value == Some(entries_of(entries@)),
            None => line_entries(key@, *line).value is None,
        },
        final(warnings)@ == old(warnings)@ + line_entries(key@, *line).warnings,
{
    let ghost before = warnings@;
    match line {
        RawLine::Other(kind) => {
            let message = report(
                "[line] key '",
                key,
                "' is a ",
                kind.describe(),
                " (expected a sub-table with `segments = [...]`); skipping",
            );
            warnings.push(message);
            assert(warnings@ =~= before + seq![message@]);
            None
        },
        RawLine::Table(fields) => match fields.get("segments") {
            None => {
                let mut message = "[line.".to_owned();
                message.append(key);
                message.append("] has no `segments` array; skipping");
                warnings.push(message);
                assert(warnings@ =~= before + seq![message@]);
                None
            },
            Some(RawField::Other(kind)) => {
                let message = report(
                    "[line.",
                    key,
                    "].segments is a ",
                    kind.describe(),
                    " (expected an array of strings or inline tables); skipping",
                );
                warnings.push(message);
                assert(warnings@ =~= before + seq![message@]);
                None
            },
            Some(RawField::List(items)) => Some(extract_entries(key, items, warnings)),
        },
    }
}

fn parse_numbered<'a>(line: &'a NumberedLine, warnings: &mut Messages) -> (r: Option<
    ParsedLine<'a>,
>)
    ensures
        match r {
            Some(parsed) => numbered_line(*line).value == Some(parsed@),
            None => numbered_line(*line).value is None,
        },
        final(warnings)@ == old(warnings)@ + numbered_line(*line).warnings,
{
    let ghost before = warnings@;
    let key = line.key.as_str();
    match &line.line {
        RawLine::Other(kind) => {
            let message = report(
                "[line] has unknown key '",
                key,
                "' (",
                kind.describe(),
                "); expected `[line.N]` sub-tables only. Skipping.",
            );
            warnings.push(message);
            assert(warnings@ =~= before + seq![message@]);
            None
        },
        RawLine::Table(_) => {
            let number: u32 = match parse_number(key, u32::MAX) {
                Ok(n) => n,
                Err(_) => 0,
            };
            if number == 0 {
                let mut message = "[line.".to_owned();
                message.append(key);
                message.append("] is not a positive integer key; skipping");
                warnings.push(message);
                assert(warnings@ =~= before + seq![message@]);
                return None;
            }
            match extract_line_segments(key, &line.line, warnings) {
                Some(entries) => Some(ParsedLine { number, entries }),
                None => None,
            }
        },
    }
}

fn find_place(lines: &Vec<ParsedLine<'_>>, number: u32) -> (r: usize)
    ensures
        r == place_of(line_views(lines@), number as nat),
        r <= lines@.len(),
{
    let ghost views = line_views(lines@);
    let mut i: usize = 0;
    assert(views.skip(0) =~= views);
    while i < lines.len()
        invariant
            i <= lines@.len(),
            views == line_views(lines@),
            place_of(views, number as nat) == i + place_of(views.skip(i as int), number as nat),
        ensures
            place_of(views, number as nat) == i,
        decreases lines@.len() - i,
    {
        assert(views.skip(i as int)[0] == views[i as int]);
        assert(views.skip(i as int).skip(1) =~= views.skip(i + 1));
        if lines[i].number > number {
            break;
        }
        i += 1;
    }
    i
}

/// Check the numbered lines. What is no line is reported and left out; `None`
/// where nothing is left. The lines come in the order of their numbers, so
/// that line 10 follows line 2.
pub fn validated_numbered_lines<'a>(line: Option<&'a LineConfig>, warnings: &mut Messages) -> (r:
    Option<Vec<ParsedLine<'a>>>)
    ensures
        match r {
            Some(lines) => {
                &&& lines@.len() > 0
                &&& line is Some && line_views(lines@) == ordered_lines(line->0.numbered@).value
                &&& numbered_lines(owned(line)).value == Some(entry_lists(line_views(lines@)))
            },
            None => numbered_lines(owned(line)).value is None,
        },
        final(warnings)@ == old(warnings)@ + numbered_lines(owned(line)).warnings,
{
    let ghost before = warnings@;
    assert(before + seq![] =~= before);
    let numbered = match line {
        Some(l) => &l.numbered,
        None => {
            return None;
        },
    };
    let mut lines: Vec<ParsedLine<'a>> = Vec::new();
    let mut i: usize = 0;
    assert(line_views(lines@) =~= seq![]);
    while i < numbered.len()
        invariant
            i <= numbered@.len(),
            line_views(lines@) == ordered_lines(numbered@.take(i as int)).value,
            warnings@ == before + ordered_lines(numbered@.take(i as int)).warnings,
        decreases numbered@.len() - i,
    {
        let ghost so_far = ordered_lines(numbered@.take(i as int));
        assert(numbered@.take(i + 1).drop_last() =~= numbered@.take(i as int));
        proof {
            lemma_reports(before, so_far.warnings, numbered_line(numbered@[i as int]).warnings);
        }
        match parse_numbered(&numbered[i], warnings) {
            Some(parsed) => {
                let at: usize = find_place(&lines, parsed.number);
                let ghost was = line_views(lines@);
                lines.insert(at, parsed);
                assert(line_views(lines@) =~= was.insert(at as int, parsed@));
            },
            None => {},
        }
        i += 1;
    }
    assert(numbered@.take(i as int) =~= numbered@);
    if lines.len() == 0 {
        assert(line_views(lines@).len() == 0);
        return None;
    }
    let ghost views = line_views(lines@);
    let ghost middle = warnings@;
    let mut k: usize = 0;
    assert(middle + seq![] =~= middle);
    while k < lines.len()
        invariant
            k <= lines@.len(),
            views == line_views(lines@),
            warnings@ == middle + empty_line_warnings(views.take(k as int)),
        decreases lines@.len() - k,
    {
        let ghost so_far = empty_line_warnings(views.take(k as int));
        assert(views.take(k + 1).drop_last() =~= views.take(k as int));
        assert(views[k as int] == lines@[k as int]@);
        if lines[k].entries.len() == 0 {
            let mut message = "[line.".to_owned();
            message.append(decimal_string(lines[k].number as u64).as_str());
            message.append("].segments is empty; that line will render nothing");
            warnings.push(message);
            assert(warnings@ =~= middle + so_far.push(message@));
        }
        k += 1;
    }
    assert(views.take(k as int) =~= views);
    proof {
        lemma_reports(
            before,
            ordered_lines(numbered@).warnings,
            empty_line_warnings(views),
        );
        assert(views.len() > 0);
    }
    Some(lines)
}

} // verus!
