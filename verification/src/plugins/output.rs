//! What a plugin's `render(ctx)` returns, checked and turned into a rendered
//! segment.
//!
//! A plugin returns the unit value to hide, or a map with `runs`: an array of
//! one map with `text` and, optionally, `role`, `fg`, `bold`, `italic`,
//! `underline`, `dim` and `hyperlink`. Beside `runs` may stand
//! `right_separator`. Other keys are passed over.

use std::borrow::Cow;

use vstd::prelude::*;
use vstd::string::StringExecFns;
use vstd::utf8::encode_utf8;

use crate::plugins::script::ScriptValue;
use crate::segments::rendered::{RenderedSegment, RenderedView};
use crate::segments::segment::rendered_in;
use crate::segments::separator::{Separator, SeparatorView};
use crate::text::{chars_of, printable, same_text, sanitize_control_chars, string_of};
use crate::theme::{text_in, Color, Role, Style, StyleView};
use crate::value::{lookup, Entry, Table};

verus! {

/// Why a plugin's output is of no use.
#[derive(Debug, PartialEq, Eq)]
pub enum PluginError {
    /// `render()` of the plugin `id` returned something it may not.
    MalformedReturn { id: String, message: String },
}

/// The role that `name` names.
pub open spec fn role_named(name: Seq<char>) -> Option<Role> {
    if name == "foreground"@ {
        Some(Role::Foreground)
    } else if name == "background"@ {
        Some(Role::Background)
    } else if name == "muted"@ {
        Some(Role::Muted)
    } else if name == "primary"@ {
        Some(Role::Primary)
    } else if name == "accent"@ {
        Some(Role::Accent)
    } else if name == "success"@ {
        Some(Role::Success)
    } else if name == "warning"@ {
        Some(Role::Warning)
    } else if name == "error"@ {
        Some(Role::Error)
    } else if name == "info"@ {
        Some(Role::Info)
    } else if name == "success_dim"@ {
        Some(Role::SuccessDim)
    } else if name == "warning_dim"@ {
        Some(Role::WarningDim)
    } else if name == "error_dim"@ {
        Some(Role::ErrorDim)
    } else if name == "primary_dim"@ {
        Some(Role::PrimaryDim)
    } else if name == "accent_dim"@ {
        Some(Role::AccentDim)
    } else if name == "surface"@ {
        Some(Role::Surface)
    } else if name == "border"@ {
        Some(Role::Border)
    } else {
        None
    }
}

/// The value of a hexadecimal digit.
pub open spec fn hex_value(c: char) -> Option<int> {
    if '0' <= c <= '9' {
        Some(c as u32 - '0' as u32)
    } else if 'a' <= c <= 'f' {
        Some(c as u32 - 'a' as u32 + 10)
    } else if 'A' <= c <= 'F' {
        Some(c as u32 - 'A' as u32 + 10)
    } else {
        None
    }
}

/// The byte that two hexadecimal digits write.
pub open spec fn hex_byte(a: char, b: char) -> Option<int> {
    match (hex_value(a), hex_value(b)) {
        (Some(high), Some(low)) => Some(16 * high + low),
        _ => None,
    }
}

/// Is `hex` a `#` and six hexadecimal digits?
pub open spec fn writes_color(hex: Seq<char>) -> bool {
    &&& hex.len() == 7
    &&& hex[0] == '#'
    &&& forall|i: int| 1 <= i < 7 ==> hex_value(#[trigger] hex[i]) is Some
}

/// The color that `hex` writes, or why it writes none.
pub open spec fn hex_color(hex: Seq<char>) -> Result<Color, Seq<char>> {
    if writes_color(hex) {
        Ok(
            Color::TrueColor {
                r: hex_byte(hex[1], hex[2])->0 as u8,
                g: hex_byte(hex[3], hex[4])->0 as u8,
                b: hex_byte(hex[5], hex[6])->0 as u8,
            },
        )
    } else if hex.len() == 0 || hex[0] != '#' {
        Err("hex color must start with `#`, got `"@ + hex + "`"@)
    } else if encode_utf8(hex.skip(1)).len() != 6 {
        Err("hex color must be `#rrggbb` (6 hex digits), got `"@ + hex + "`"@)
    } else {
        Err("invalid hex color `"@ + hex + "`"@)
    }
}

/// `role`, where the run has one.
pub open spec fn run_role(run: Seq<Entry<ScriptValue>>) -> Result<Option<Role>, Seq<char>> {
    match lookup(run, "role"@) {
        None => Ok(None),
        Some(ScriptValue::Text(name)) => match role_named(name@) {
            Some(role) => Ok(Some(role)),
            None => Err(
                "unknown role `"@ + name@ + "`; see plugin-api.md §Plugin return shape"@,
            ),
        },
        Some(_) => Err("`role` must be a string"@),
    }
}

/// `fg`, where the run has one.
pub open spec fn run_fg(run: Seq<Entry<ScriptValue>>) -> Result<Option<Color>, Seq<char>> {
    match lookup(run, "fg"@) {
        None => Ok(None),
        Some(ScriptValue::Text(hex)) => match hex_color(hex@) {
            Ok(color) => Ok(Some(color)),
            Err(message) => Err(message),
        },
        Some(_) => Err("`fg` must be a hex color string"@),
    }
}

/// A decoration, off where the run does not have it.
pub open spec fn run_flag(run: Seq<Entry<ScriptValue>>, key: Seq<char>) -> Result<bool, Seq<char>> {
    match lookup(run, key) {
        None => Ok(false),
        Some(ScriptValue::Boolean(b)) => Ok(b),
        Some(_) => Err("`"@ + key + "` must be a bool"@),
    }
}

/// `hyperlink`, where the run has one that is not empty.
pub open spec fn run_link(run: Seq<Entry<ScriptValue>>) -> Result<Option<Seq<char>>, Seq<char>> {
    match lookup(run, "hyperlink"@) {
        None => Ok(None),
        Some(ScriptValue::Text(url)) => if url@.len() == 0 {
            Ok(None)
        } else {
            Ok(Some(url@))
        },
        Some(_) => Err("`hyperlink` must be a string"@),
    }
}

/// The style of a run. The first field that makes no sense decides the error.
pub open spec fn run_style(run: Seq<Entry<ScriptValue>>) -> Result<StyleView, Seq<char>> {
    match (
        run_role(run),
        run_fg(run),
        run_flag(run, "bold"@),
        run_flag(run, "italic"@),
        run_flag(run, "underline"@),
        run_flag(run, "dim"@),
        run_link(run),
    ) {
        (Err(e), _, _, _, _, _, _) => Err(e),
        (_, Err(e), _, _, _, _, _) => Err(e),
        (_, _, Err(e), _, _, _, _) => Err(e),
        (_, _, _, Err(e), _, _, _) => Err(e),
        (_, _, _, _, Err(e), _, _) => Err(e),
        (_, _, _, _, _, Err(e), _) => Err(e),
        (_, _, _, _, _, _, Err(e)) => Err(e),
        (
            Ok(role),
            Ok(fg),
            Ok(bold),
            Ok(italic),
            Ok(underline),
            Ok(dim),
            Ok(hyperlink),
        ) => Ok(StyleView { role, fg, bold, italic, underline, dim, hyperlink }),
    }
}

/// The text and the style of the one run.
pub open spec fn single_run(map: Seq<Entry<ScriptValue>>) -> Result<
    (Seq<char>, StyleView),
    Seq<char>,
> {
    match lookup(map, "runs"@) {
        None => Err("render() return map is missing `runs`"@),
        Some(ScriptValue::Array(runs)) => if runs@.len() == 0 {
            Err("`runs` array must not be empty"@)
        } else if runs@.len() > 1 {
            Err(
                "linesmith currently supports exactly one styled run per render; multi-run output is deferred"@,
            )
        } else {
            match runs@[0] {
                ScriptValue::Table(run) => match lookup(run@, "text"@) {
                    None => Err("run map is missing `text`"@),
                    Some(ScriptValue::Text(text)) => match run_style(run@) {
                        Ok(style) => Ok((text@, style)),
                        Err(e) => Err(e),
                    },
                    Some(_) => Err("`text` must be a string"@),
                },
                _ => Err("each entry in `runs` must be a map"@),
            }
        },
        Some(_) => Err("`runs` must be an array"@),
    }
}

/// The separator that `s` names: a keyword, or itself without its control
/// characters.
pub open spec fn separator_named(s: Seq<char>) -> SeparatorView {
    if s == "space"@ {
        SeparatorView::Space
    } else if s == "theme"@ {
        SeparatorView::Theme
    } else if s == "none"@ {
        SeparatorView::Empty
    } else {
        SeparatorView::Literal(printable(s))
    }
}

/// `right_separator`, where the map has one.
pub open spec fn separator_field(map: Seq<Entry<ScriptValue>>) -> Result<
    Option<SeparatorView>,
    Seq<char>,
> {
    match lookup(map, "right_separator"@) {
        None => Ok(None),
        Some(ScriptValue::Text(s)) => Ok(Some(separator_named(s@))),
        Some(_) => Err("`right_separator` must be a string"@),
    }
}

/// What a plugin's return value comes to, or what is wrong with it.
pub open spec fn returned(value: ScriptValue) -> Result<Option<RenderedView>, Seq<char>> {
    match value {
        ScriptValue::Unit => Ok(None),
        ScriptValue::Table(map) => match (single_run(map@), separator_field(map@)) {
            (Err(e), _) => Err(e),
            (_, Err(e)) => Err(e),
            (Ok(run), Ok(right_separator)) => Ok(
                Some(
                    RenderedView {
                        right_separator,
                        style: run.1,
                        ..RenderedView::of_text(run.0)
                    },
                ),
            ),
        },
        _ => Err("render() must return `()` or a map"@),
    }
}

/// What `r` says; an error by its message.
spec fn said<T>(r: Result<T, String>) -> Result<T, Seq<char>> {
    match r {
        Ok(v) => Ok(v),
        Err(e) => Err(e@),
    }
}

fn parse_role(name: &str) -> (r: Option<Role>)
    ensures
        r == role_named(name@),
{
    if same_text(name, "foreground") {
        Some(Role::Foreground)
    } else if same_text(name, "background") {
        Some(Role::Background)
    } else if same_text(name, "muted") {
        Some(Role::Muted)
    } else if same_text(name, "primary") {
        Some(Role::Primary)
    } else if same_text(name, "accent") {
        Some(Role::Accent)
    } else if same_text(name, "success") {
        Some(Role::Success)
    } else if same_text(name, "warning") {
        Some(Role::Warning)
    } else if same_text(name, "error") {
        Some(Role::Error)
    } else if same_text(name, "info") {
        Some(Role::Info)
    } else if same_text(name, "success_dim") {
        Some(Role::SuccessDim)
    } else if same_text(name, "warning_dim") {
        Some(Role::WarningDim)
    } else if same_text(name, "error_dim") {
        Some(Role::ErrorDim)
    } else if same_text(name, "primary_dim") {
        Some(Role::PrimaryDim)
    } else if same_text(name, "accent_dim") {
        Some(Role::AccentDim)
    } else if same_text(name, "surface") {
        Some(Role::Surface)
    } else if same_text(name, "border") {
        Some(Role::Border)
    } else {
        None
    }
}

fn parse_hex_digit(c: char) -> (r: Option<u8>)
    ensures
        match r {
            Some(n) => hex_value(c) == Some(n as int) && n < 16,
            None => hex_value(c) is None,
        },
{
    if '0' <= c && c <= '9' {
        Some((c as u32 - 48) as u8)
    } else if 'a' <= c && c <= 'f' {
        Some((c as u32 - 97) as u8 + 10)
    } else if 'A' <= c && c <= 'F' {
        Some((c as u32 - 65) as u8 + 10)
    } else {
        None
    }
}

fn parse_hex_byte(a: char, b: char) -> (r: Option<u8>)
    ensures
        match r {
            Some(n) => hex_byte(a, b) == Some(n as int),
            None => hex_byte(a, b) is None,
        },
{
    match (parse_hex_digit(a), parse_hex_digit(b)) {
        (Some(high), Some(low)) => Some(16 * high + low),
        _ => None,
    }
}

fn about(start: &str, subject: &str, end: &str) -> (r: String)
    ensures
        r@ == start@ + subject@ + end@,
{
    let mut out = start.to_owned();
    out.append(subject);
    out.append(end);
    out
}

/// The color that `hex` writes as `#rrggbb`.
pub fn parse_hex_color(hex: &str) -> (r: Result<Color, String>)
    ensures
        match r {
            Ok(color) => hex_color(hex@) == Ok::<Color, Seq<char>>(color),
            Err(message) => hex_color(hex@) == Err::<Color, Seq<char>>(message@),
        },
{
    let chars = chars_of(hex);
    if chars.len() == 7 && chars[0] == '#' {
        match (
            parse_hex_byte(chars[1], chars[2]),
            parse_hex_byte(chars[3], chars[4]),
            parse_hex_byte(chars[5], chars[6]),
        ) {
            (Some(r), Some(g), Some(b)) => {
                assert(writes_color(hex@));
                return Ok(Color::TrueColor { r, g, b });
            },
            _ => {
                proof {
                    if writes_color(hex@) {
                        assert(hex_value(hex@[1]) is Some && hex_value(hex@[2]) is Some);
                        assert(hex_value(hex@[3]) is Some && hex_value(hex@[4]) is Some);
                        assert(hex_value(hex@[5]) is Some && hex_value(hex@[6]) is Some);
                    }
                }
            },
        }
    }
    if chars.len() == 0 || chars[0] != '#' {
        return Err(about("hex color must start with `#`, got `", hex, "`"));
    }
    let body = string_of(&chars, 1, chars.len());
    assert(body@ =~= hex@.skip(1));
    if !has_six_bytes(body.as_str()) {
        return Err(about("hex color must be `#rrggbb` (6 hex digits), got `", hex, "`"));
    }
    Err(about("invalid hex color `", hex, "`"))
}

fn has_six_bytes(s: &str) -> (r: bool)
    ensures
        r == (encode_utf8(s@).len() == 6),
{
    s.as_bytes().len() == 6
}

fn read_role(run: &Table<ScriptValue>) -> (r: Result<Option<Role>, String>)
    ensures
        said(r) == run_role(run@),
{
    match run.get("role") {
        None => Ok(None),
        Some(v) => match v {
            ScriptValue::Text(name) => match parse_role(name.as_str()) {
                Some(role) => Ok(Some(role)),
                None => Err(
                    about(
                        "unknown role `",
                        name.as_str(),
                        "`; see plugin-api.md §Plugin return shape",
                    ),
                ),
            },
            _ => Err("`role` must be a string".to_owned()),
        },
    }
}

fn read_fg(run: &Table<ScriptValue>) -> (r: Result<Option<Color>, String>)
    ensures
        said(r) == run_fg(run@),
{
    match run.get("fg") {
        None => Ok(None),
        Some(v) => match v {
            ScriptValue::Text(hex) => match parse_hex_color(hex.as_str()) {
                Ok(color) => Ok(Some(color)),
                Err(message) => Err(message),
            },
            _ => Err("`fg` must be a hex color string".to_owned()),
        },
    }
}

fn read_decoration(run: &Table<ScriptValue>, key: &str) -> (r: Result<bool, String>)
    ensures
        said(r) == run_flag(run@, key@),
{
    match run.get(key) {
        None => Ok(false),
        Some(v) => match v {
            ScriptValue::Boolean(b) => Ok(*b),
            _ => Err(about("`", key, "` must be a bool")),
        },
    }
}

fn read_link(run: &Table<ScriptValue>) -> (r: Result<Option<String>, String>)
    ensures
        match r {
            Ok(link) => run_link(run@) == Ok::<Option<Seq<char>>, Seq<char>>(text_in(link)),
            Err(message) => run_link(run@) == Err::<Option<Seq<char>>, Seq<char>>(message@),
        },
{
    match run.get("hyperlink") {
        None => Ok(None),
        Some(v) => match v {
            ScriptValue::Text(url) => if url.as_str().is_empty() {
                Ok(None)
            } else {
                Ok(Some(url.clone()))
            },
            _ => Err("`hyperlink` must be a string".to_owned()),
        },
    }
}

fn parse_style(run: &Table<ScriptValue>) -> (r: Result<Style, String>)
    ensures
        match r {
            Ok(style) => run_style(run@) == Ok::<StyleView, Seq<char>>(style@),
            Err(message) => run_style(run@) == Err::<StyleView, Seq<char>>(message@),
        },
{
    let role = match read_role(run) {
        Ok(role) => role,
        Err(message) => {
            return Err(message);
        },
    };
    let fg = match read_fg(run) {
        Ok(fg) => fg,
        Err(message) => {
            return Err(message);
        },
    };
    let bold: bool = match read_decoration(run, "bold") {
        Ok(b) => b,
        Err(message) => {
            return Err(message);
        },
    };
    let italic: bool = match read_decoration(run, "italic") {
        Ok(b) => b,
        Err(message) => {
            return Err(message);
        },
    };
    let underline: bool = match read_decoration(run, "underline") {
        Ok(b) => b,
        Err(message) => {
            return Err(message);
        },
    };
    let dim: bool = match read_decoration(run, "dim") {
        Ok(b) => b,
        Err(message) => {
            return Err(message);
        },
    };
    let hyperlink = match read_link(run) {
        Ok(link) => link,
        Err(message) => {
            return Err(message);
        },
    };
    Ok(Style { role, fg, bold, italic, underline, dim, hyperlink })
}

fn parse_single_run(map: &Table<ScriptValue>) -> (r: Result<(&str, Style), String>)
    ensures
        match r {
            Ok(run) => single_run(map@) == Ok::<(Seq<char>, StyleView), Seq<char>>(
                (run.0@, run.1@),
            ),
            Err(message) => single_run(map@) == Err::<(Seq<char>, StyleView), Seq<char>>(
                message@,
            ),
        },
{
    let runs = match map.get("runs") {
        None => {
            return Err("render() return map is missing `runs`".to_owned());
        },
        Some(ScriptValue::Array(runs)) => runs,
        Some(_) => {
            return Err("`runs` must be an array".to_owned());
        },
    };
    if runs.len() == 0 {
        return Err("`runs` array must not be empty".to_owned());
    }
    if runs.len() > 1 {
        return Err(
            "linesmith currently supports exactly one styled run per render; multi-run output is deferred".to_owned(),
        );
    }
    let run = match &runs[0] {
        ScriptValue::Table(run) => run,
        _ => {
            return Err("each entry in `runs` must be a map".to_owned());
        },
    };
    let text = match run.get("text") {
        None => {
            return Err("run map is missing `text`".to_owned());
        },
        Some(ScriptValue::Text(text)) => text,
        Some(_) => {
            return Err("`text` must be a string".to_owned());
        },
    };
    match parse_style(run) {
        Ok(style) => Ok((text.as_str(), style)),
        Err(message) => Err(message),
    }
}

/// The separator that `s` names.
pub fn parse_right_separator(s: &str) -> (r: Separator)
    ensures
        r@ == separator_named(s@),
{
    if same_text(s, "space") {
        Separator::Space
    } else if same_text(s, "theme") {
        Separator::Theme
    } else if same_text(s, "none") {
        Separator::Empty
    } else {
        // A separator goes straight to the terminal, so it is cleaned here.
        Separator::Literal(Cow::Owned(sanitize_control_chars(s)))
    }
}

/// Turn a plugin's return value into a rendered segment: the unit value hides
/// the segment, and anything but a map of the right shape is refused.
pub fn validate_return(value: &ScriptValue, id: &str) -> (r: Result<
    Option<RenderedSegment>,
    PluginError,
>)
    ensures
        match r {
            Ok(rendered) => returned(*value) == Ok::<Option<RenderedView>, Seq<char>>(
                rendered_in(rendered),
            ),
            Err(PluginError::MalformedReturn { id: who, message }) => who@ == id@ && returned(
                *value,
            ) == Err::<Option<RenderedView>, Seq<char>>(message@),
        },
{
    let map = match value {
        ScriptValue::Unit => {
            return Ok(None);
        },
        ScriptValue::Table(map) => map,
        _ => {
            return Err(malformed(id, "render() must return `()` or a map".to_owned()));
        },
    };
    let (text, style) = match parse_single_run(map) {
        Ok(run) => run,
        Err(message) => {
            return Err(malformed(id, message));
        },
    };
    let rendered = match map.get("right_separator") {
        None => RenderedSegment::new(text),
        Some(ScriptValue::Text(s)) => RenderedSegment::with_separator(
            text,
            parse_right_separator(s.as_str()),
        ),
        Some(_) => {
            return Err(malformed(id, "`right_separator` must be a string".to_owned()));
        },
    };
    Ok(Some(rendered.with_style(style)))
}

fn malformed(id: &str, message: String) -> (r: PluginError)
    ensures
        r matches PluginError::MalformedReturn { id: who, message: what } && who@ == id@ && what
            == message,
{
    PluginError::MalformedReturn { id: id.to_owned(), message }
}

/// No plugin can send the terminal a control character: neither the text nor
/// the separator that its output comes to holds one.
pub proof fn plugin_output_is_printable(value: ScriptValue)
    ensures
        returned(value) matches Ok(Some(r)) ==> crate::text::is_printable(r.text),
        returned(value) matches Ok(Some(r)) ==> (r.right_separator matches Some(
            SeparatorView::Literal(s),
        ) ==> crate::text::is_printable(s)),
{
    match value {
        ScriptValue::Table(map) => {
            match single_run(map@) {
                Ok(run) => {
                    crate::segments::rendered::lemma_printable(run.0);
                },
                Err(_) => {},
            }
            match lookup(map@, "right_separator"@) {
                Some(ScriptValue::Text(s)) => {
                    crate::segments::rendered::lemma_printable(s@);
                },
                _ => {},
            }
        },
        _ => {},
    }
}

} // verus!
