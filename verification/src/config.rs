//! The configuration that lines are built from, as plain values.

use vstd::prelude::*;

use crate::text::same_text;
use crate::theme::Style;
use crate::value::{Table, Value, ValueKind};

verus! {

/// One line, or one line for each numbered table.
#[derive(Debug, Clone, Copy, PartialEq, Eq, Structural)]
pub enum LayoutMode {
    SingleLine,
    MultiLine,
}

/// Are built-in icons drawn?
#[derive(Debug, Clone, Copy, PartialEq, Eq, Structural)]
pub enum IconMode {
    NerdFont,
    Off,
}

impl Default for LayoutMode {
    fn default() -> (r: LayoutMode)
        ensures
            r == LayoutMode::SingleLine,
    {
        LayoutMode::SingleLine
    }
}

impl Default for IconMode {
    fn default() -> (r: IconMode)
        ensures
            r == IconMode::NerdFont,
    {
        IconMode::NerdFont
    }
}

/// `[layout_options]`.
#[derive(Debug, PartialEq, Eq)]
pub struct LayoutOptions {
    pub separator: Option<String>,
    pub powerline_width: Option<u16>,
    pub icons: IconMode,
}

/// An inline table in a list of segments: a segment (`type` is its id) or a
/// separator (`type` is `separator`). Keys that it does not know are kept in
/// `extra`.
#[derive(Debug, PartialEq, Eq)]
pub struct LineEntryItem {
    pub kind: Option<String>,
    pub character: Option<String>,
    pub merge: Option<bool>,
    pub group: Option<bool>,
    pub extra: Table<Value>,
}

/// An entry in a list of segments.
#[derive(Debug, PartialEq, Eq)]
pub enum LineEntry {
    /// A bare id.
    Id(String),
    Item(LineEntryItem),
}

impl LineEntry {
    /// The segment id, or `separator`; `None` where the entry has no `type`.
    pub open spec fn spec_kind(self) -> Option<Seq<char>> {
        match self {
            LineEntry::Id(id) => Some(id@),
            LineEntry::Item(item) => crate::theme::text_in(item.kind),
        }
    }

    /// Is the entry an inline table whose `type` is `separator`?
    pub open spec fn is_separator_item(self) -> bool {
        match self {
            LineEntry::Id(_) => false,
            LineEntry::Item(_) => self.spec_kind() == Some("separator"@),
        }
    }

    /// The separator's own text.
    pub open spec fn spec_character(self) -> Option<Seq<char>> {
        match self {
            LineEntry::Id(_) => None,
            LineEntry::Item(item) => crate::theme::text_in(item.character),
        }
    }

    /// `merge`, where it is written.
    pub open spec fn merge_field(self) -> Option<bool> {
        match self {
            LineEntry::Id(_) => None,
            LineEntry::Item(item) => item.merge,
        }
    }

    /// `group`, where it is written.
    pub open spec fn group_field(self) -> Option<bool> {
        match self {
            LineEntry::Id(_) => None,
            LineEntry::Item(item) => item.group,
        }
    }

    /// Does the segment meet its right neighbor without a separator?
    pub open spec fn merges(self) -> bool {
        self.merge_field() == Some(true)
    }

    /// Does the segment share its color with its right neighbor? Segments
    /// that meet do, unless told otherwise.
    pub open spec fn groups(self) -> bool {
        match self.group_field() {
            Some(group) => group,
            None => self.merges(),
        }
    }

    /// The segment id, or `separator`.
    pub fn kind(&self) -> (r: Option<&str>)
        ensures
            match r {
                Some(kind) => self.spec_kind() == Some(kind@),
                None => self.spec_kind() is None,
            },
    {
        match self {
            LineEntry::Id(id) => Some(id.as_str()),
            LineEntry::Item(item) => match &item.kind {
                Some(kind) => Some(kind.as_str()),
                None => None,
            },
        }
    }

    /// Is the entry an inline table whose `type` is `separator`?
    pub fn separator_item(&self) -> (r: bool)
        ensures
            r == self.is_separator_item(),
    {
        match self {
            LineEntry::Id(_) => false,
            LineEntry::Item(item) => match &item.kind {
                Some(kind) => same_text(kind.as_str(), "separator"),
                None => false,
            },
        }
    }

    /// The separator's own text.
    pub fn separator_character(&self) -> (r: Option<&str>)
        ensures
            match r {
                Some(c) => self.spec_character() == Some(c@),
                None => self.spec_character() is None,
            },
    {
        match self {
            LineEntry::Id(_) => None,
            LineEntry::Item(item) => match &item.character {
                Some(c) => Some(c.as_str()),
                None => None,
            },
        }
    }

    /// `merge`, where it is written.
    pub fn merge_flag(&self) -> (r: Option<bool>)
        ensures
            r == self.merge_field(),
    {
        match self {
            LineEntry::Id(_) => None,
            LineEntry::Item(item) => item.merge,
        }
    }

    /// `group`, where it is written.
    pub fn group_flag(&self) -> (r: Option<bool>)
        ensures
            r == self.group_field(),
    {
        match self {
            LineEntry::Id(_) => None,
            LineEntry::Item(item) => item.group,
        }
    }

    /// Does the segment meet its right neighbor without a separator?
    pub fn merge(&self) -> (r: bool)
        ensures
            r == self.merges(),
    {
        match self.merge_flag() {
            Some(merge) => merge,
            None => false,
        }
    }

    /// Does the segment share its color with its right neighbor?
    pub fn group(&self) -> (r: bool)
        ensures
            r == self.groups(),
    {
        match self.group_flag() {
            Some(group) => group,
            None => self.merge(),
        }
    }
}

/// One item of a numbered line's `segments`, as it was read.
#[derive(Debug, PartialEq, Eq)]
pub enum RawEntry {
    /// A string or an inline table that could be read.
    Entry(LineEntry),
    /// An inline table that could not, and why.
    Unreadable(String),
    /// Anything else.
    Other(ValueKind),
}

/// A field of a numbered line, as it was read: a list of items, or something
/// else.
#[derive(Debug, PartialEq, Eq)]
pub enum RawField {
    List(Vec<RawEntry>),
    Other(ValueKind),
}

/// What stands under a key of `[line]` that is not `segments`, as it was read:
/// a table, or something else.
#[derive(Debug, PartialEq, Eq)]
pub enum RawLine {
    Table(Table<RawField>),
    Other(ValueKind),
}

/// A numbered line and its key.
#[derive(Debug, PartialEq, Eq)]
pub struct NumberedLine {
    pub key: String,
    pub line: RawLine,
}

/// `[line]`: the segments of the one line, and the numbered lines in the order
/// of their keys.
#[derive(Debug, PartialEq, Eq)]
pub struct LineConfig {
    pub segments: Vec<LineEntry>,
    pub numbered: Vec<NumberedLine>,
}

/// Half-open width bounds, as they were read.
#[derive(Debug, Clone, Copy, PartialEq, Eq, Structural)]
pub struct WidthBoundsConfig {
    pub min: Option<u16>,
    pub max: Option<u16>,
}

/// A style as the user wrote it, and what it was read as.
#[derive(Debug, PartialEq, Eq)]
pub struct UserStyle {
    pub text: String,
    pub parsed: Result<Style, String>,
}

/// `[segments.<id>]`.
#[derive(Debug, PartialEq, Eq)]
pub struct SegmentOverride {
    pub priority: Option<u8>,
    pub width: Option<WidthBoundsConfig>,
    pub style: Option<UserStyle>,
    pub icon: Option<String>,
    /// The segment's own keys.
    pub extra: Table<Value>,
}

/// What `[segments]` holds under an id.
#[derive(Debug, PartialEq, Eq)]
pub struct NamedOverride {
    pub id: String,
    pub settings: SegmentOverride,
}

/// The configuration.
#[derive(Debug, PartialEq, Eq)]
pub struct Config {
    pub layout: LayoutMode,
    pub line: Option<LineConfig>,
    pub layout_options: Option<LayoutOptions>,
    pub segments: Vec<NamedOverride>,
}

impl Default for Config {
    fn default() -> (r: Config)
        ensures
            r.layout == LayoutMode::SingleLine,
            r.line is None,
            r.layout_options is None,
            r.segments@.len() == 0,
    {
        Config {
            layout: LayoutMode::SingleLine,
            line: None,
            layout_options: None,
            segments: Vec::new(),
        }
    }
}

/// The settings of `id` among `segments`: the first that name it.
pub open spec fn settings_of(segments: Seq<NamedOverride>, id: Seq<char>) -> Option<SegmentOverride>
    decreases segments.len(),
{
    if segments.len() == 0 {
        None
    } else if segments[0].id@ == id {
        Some(segments[0].settings)
    } else {
        settings_of(segments.skip(1), id)
    }
}

/// The settings of `id`.
pub fn find_settings<'a>(segments: &'a Vec<NamedOverride>, id: &str) -> (r: Option<
    &'a SegmentOverride,
>)
    ensures
        match r {
            Some(settings) => settings_of(segments@, id@) == Some(*settings),
            None => settings_of(segments@, id@) is None,
        },
{
    let mut i: usize = 0;
    assert(segments@.skip(0) =~= segments@);
    while i < segments.len()
        invariant
            i <= segments@.len(),
            settings_of(segments@, id@) == settings_of(segments@.skip(i as int), id@),
        decreases segments@.len() - i,
    {
        assert(segments@.skip(i as int)[0] == segments@[i as int]);
        assert(segments@.skip(i as int).skip(1) =~= segments@.skip(i + 1));
        if same_text(segments[i].id.as_str(), id) {
            return Some(&segments[i].settings);
        }
        i += 1;
    }
    None
}

} // verus!
