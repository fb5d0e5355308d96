//! What holds of everything that a plugin returns.

use vstd::prelude::*;

use crate::cells::cell_width;
use crate::plugins::output::{
    hex_byte, hex_color, hex_value, returned, role_named, run_fg, run_role, run_style, single_run,
    writes_color,
};
use crate::plugins::script::{mirrors, ScriptValue};
use crate::segments::rendered::RenderedView;
use crate::segments::separator::SeparatorView;
use crate::text::{lowered, printable};
use crate::text_laws::{lemma_mentions, mentions};
use crate::theme::{Color, Role, StyleView};
use crate::value::{lookup, Entry, Value};

verus! {

/// Is the run's map set to true under `key`?
pub open spec fn says_yes(run: Seq<Entry<ScriptValue>>, key: Seq<char>) -> bool {
    lookup(run, key) == Some(ScriptValue::Boolean(true))
}

/// Does the run's map hold nothing but a truth value under `key`, if anything?
pub open spec fn flag_or_nothing(run: Seq<Entry<ScriptValue>>, key: Seq<char>) -> bool {
    match lookup(run, key) {
        None => true,
        Some(v) => v is Boolean,
    }
}

/// The text under `key`, where the map holds one.
pub open spec fn text_under(map: Seq<Entry<ScriptValue>>, key: Seq<char>) -> Option<Seq<char>> {
    match lookup(map, key) {
        Some(ScriptValue::Text(s)) => Some(s@),
        _ => None,
    }
}

/// The word for a role.
pub open spec fn role_word(role: Role) -> Seq<char> {
    match role {
        Role::Foreground => "foreground"@,
        Role::Background => "background"@,
        Role::Muted => "muted"@,
        Role::Primary => "primary"@,
        Role::Accent => "accent"@,
        Role::Success => "success"@,
        Role::Warning => "warning"@,
        Role::Error => "error"@,
        Role::Info => "info"@,
        Role::SuccessDim => "success_dim"@,
        Role::WarningDim => "warning_dim"@,
        Role::ErrorDim => "error_dim"@,
        Role::PrimaryDim => "primary_dim"@,
        Role::AccentDim => "accent_dim"@,
        Role::Surface => "surface"@,
        Role::Border => "border"@,
    }
}

/// The hexadecimal digit for `n`, in lower case.
pub open spec fn hex_digit(n: int) -> char {
    if n < 10 {
        (48 + n) as char
    } else {
        (87 + n) as char
    }
}

/// The color in hexadecimal: a `#`, then two digits for each of red, green and
/// blue.
pub open spec fn hex_text(r: u8, g: u8, b: u8) -> Seq<char> {
    seq![
        '#',
        hex_digit(r as int / 16),
        hex_digit(r as int % 16),
        hex_digit(g as int / 16),
        hex_digit(g as int % 16),
        hex_digit(b as int / 16),
        hex_digit(b as int % 16),
    ]
}

proof fn lemma_hex_byte(high: char, low: char)
    requires
        hex_value(high) is Some,
        hex_value(low) is Some,
    ensures
        hex_byte(high, low) is Some,
        0 <= hex_byte(high, low)->0 < 256,
        hex_byte(high, low)->0 / 16 == hex_value(high)->0,
        hex_byte(high, low)->0 % 16 == hex_value(low)->0,
        crate::text::ascii_lower(high) == hex_digit(hex_value(high)->0),
        crate::text::ascii_lower(low) == hex_digit(hex_value(low)->0),
{
}

/// A color is read back from its writing: in lower case the text is the color
/// in hexadecimal. Only such a text is read.
pub proof fn color_is_what_the_digits_write(hex: Seq<char>)
    ensures
        hex_color(hex) matches Ok(color) ==> (color matches Color::TrueColor { r, g, b } && lowered(
            hex,
        ) == hex_text(r, g, b)),
        (exists|r: u8, g: u8, b: u8| lowered(hex) == #[trigger] hex_text(r, g, b)) ==> hex_color(
            hex,
        ) is Ok,
{
    if writes_color(hex) {
        assert(hex_value(hex[1]) is Some);
        assert(hex_value(hex[2]) is Some);
        assert(hex_value(hex[3]) is Some);
        assert(hex_value(hex[4]) is Some);
        assert(hex_value(hex[5]) is Some);
        assert(hex_value(hex[6]) is Some);
        lemma_hex_byte(hex[1], hex[2]);
        lemma_hex_byte(hex[3], hex[4]);
        lemma_hex_byte(hex[5], hex[6]);
        let color = hex_color(hex)->Ok_0;
        assert(lowered(hex) =~= hex_text(color->r, color->g, color->b));
    } else if exists|r: u8, g: u8, b: u8| lowered(hex) == #[trigger] hex_text(r, g, b) {
        let (r, g, b) = choose|r: u8, g: u8, b: u8| lowered(hex) == #[trigger] hex_text(r, g, b);
        let low = lowered(hex);
        assert(low == hex_text(r, g, b));
        assert(hex_text(r, g, b).len() == 7);
        assert(hex.len() == low.len());
        assert(low[0] == '#');
        assert(hex[0] == '#');
        assert forall|i: int| 1 <= i < 7 implies hex_value(#[trigger] hex[i]) is Some by {
            assert(low[i] == crate::text::ascii_lower(hex[i]));
            lemma_hex_digit(low[i], r, g, b, i);
        }
        assert(writes_color(hex));
    }
}

proof fn lemma_hex_digit(c: char, r: u8, g: u8, b: u8, i: int)
    requires
        1 <= i < 7,
        c == hex_text(r, g, b)[i],
    ensures
        '0' <= c <= '9' || 'a' <= c <= 'f',
{
    assert(0 <= r as int / 16 < 16);
    assert(0 <= g as int / 16 < 16);
    assert(0 <= b as int / 16 < 16);
}

/// `style` is what the map of a run says: each decoration is on exactly where
/// the map holds true under that decoration's own name; the role is the one
/// that the map names, the color the one that it writes, and the link the text
/// that it holds, where that is not empty.
pub open spec fn style_said(run: Seq<Entry<ScriptValue>>, style: StyleView) -> bool {
    &&& style.bold <==> says_yes(run, "bold"@)
    &&& style.italic <==> says_yes(run, "italic"@)
    &&& style.underline <==> says_yes(run, "underline"@)
    &&& style.dim <==> says_yes(run, "dim"@)
    &&& match style.role {
        Some(role) => text_under(run, "role"@) == Some(role_word(role)),
        None => lookup(run, "role"@) is None,
    }
    &&& match style.fg {
        Some(color) => text_under(run, "fg"@) matches Some(hex) && (
        color matches Color::TrueColor { r, g, b } && lowered(hex) == hex_text(r, g, b)),
        None => lookup(run, "fg"@) is None,
    }
    &&& match style.hyperlink {
        Some(url) => text_under(run, "hyperlink"@) == Some(url) && url.len() > 0,
        None => lookup(run, "hyperlink"@) is None || text_under(run, "hyperlink"@) == Some(
            Seq::<char>::empty(),
        ),
    }
}

/// A plugin's output shows what its one run says: the text without control
/// characters, in the style of the run, with the separator that stands beside
/// the run.
pub proof fn plugin_output_is_what_the_map_says(value: ScriptValue, r: RenderedView) -> (maps: (
    Seq<Entry<ScriptValue>>,
    Seq<Entry<ScriptValue>>,
    Seq<char>,
))
    requires
        returned(value) == Ok::<Option<RenderedView>, Seq<char>>(Some(r)),
    ensures
        value matches ScriptValue::Table(map) && map@ == maps.0,
        lookup(maps.0, "runs"@) matches Some(ScriptValue::Array(runs)) && runs@.len() == 1 && (
        runs@[0] matches ScriptValue::Table(run) && run@ == maps.1),
        text_under(maps.1, "text"@) == Some(maps.2),
        r.text == printable(maps.2),
        r.width == cell_width(r.text),
        r.spans is None,
        style_said(maps.1, r.style),
        match r.right_separator {
            None => lookup(maps.0, "right_separator"@) is None,
            Some(s) => text_under(maps.0, "right_separator"@) matches Some(t) && separator_said(
                t,
                s,
            ),
        },
{
    let map = value->Table_0@;
    let runs = lookup(map, "runs"@)->0->Array_0@;
    let run = runs[0]->Table_0@;
    let text = text_under(run, "text"@)->0;
    let style = run_style(run)->Ok_0;
    assert(single_run(map) == Ok::<(Seq<char>, StyleView), Seq<char>>((text, style)));
    match style.fg {
        Some(color) => {
            color_is_what_the_digits_write(text_under(run, "fg"@)->0);
        },
        None => {},
    }
    match lookup(run, "hyperlink"@) {
        Some(ScriptValue::Text(url)) => {
            if url@.len() == 0 {
                assert(url@ =~= Seq::<char>::empty());
            }
        },
        _ => {},
    }
    (map, run, text)
}

/// `s` is the separator that `t` names: one of three words, or else the text
/// itself without its control characters.
pub open spec fn separator_said(t: Seq<char>, s: SeparatorView) -> bool {
    match s {
        SeparatorView::Space => t == "space"@,
        SeparatorView::Theme => t == "theme"@,
        SeparatorView::Empty => t == "none"@,
        SeparatorView::Literal(text) => {
            &&& text == printable(t)
            &&& t != "space"@
            &&& t != "theme"@
            &&& t != "none"@
        },
        SeparatorView::Powerline { .. } => false,
    }
}

/// A run that may be shown: it has a text, and every other key of it that
/// means something holds what it should, if anything.
pub open spec fn good_run(run: Seq<Entry<ScriptValue>>) -> bool {
    &&& text_under(run, "text"@) is Some
    &&& lookup(run, "role"@) is None || exists|role: Role|
        text_under(run, "role"@) == Some(#[trigger] role_word(role))
    &&& lookup(run, "fg"@) is None || (text_under(run, "fg"@) matches Some(hex) && exists|
        r: u8,
        g: u8,
        b: u8,
    |
        lowered(hex) == #[trigger] hex_text(r, g, b))
    &&& flag_or_nothing(run, "bold"@)
    &&& flag_or_nothing(run, "italic"@)
    &&& flag_or_nothing(run, "underline"@)
    &&& flag_or_nothing(run, "dim"@)
    &&& lookup(run, "hyperlink"@) is None || text_under(run, "hyperlink"@) is Some
}

/// A value that a plugin may return to show something.
pub open spec fn good_value(value: ScriptValue) -> bool {
    &&& value matches ScriptValue::Table(map)
    &&& lookup(map@, "runs"@) matches Some(ScriptValue::Array(runs))
    &&& runs@.len() == 1
    &&& runs@[0] matches ScriptValue::Table(run)
    &&& good_run(run@)
    &&& lookup(map@, "right_separator"@) is None || text_under(map@, "right_separator"@) is Some
}

/// A role is named by its word, and by no other.
pub proof fn role_is_named_by_its_word(name: Seq<char>, role: Role)
    ensures
        role_named(name) == Some(role) <==> name == role_word(role),
{
    reveal_strlit("foreground");
    reveal_strlit("background");
    reveal_strlit("muted");
    reveal_strlit("primary");
    reveal_strlit("accent");
    reveal_strlit("success");
    reveal_strlit("warning");
    reveal_strlit("error");
    reveal_strlit("info");
    reveal_strlit("success_dim");
    reveal_strlit("warning_dim");
    reveal_strlit("error_dim");
    reveal_strlit("primary_dim");
    reveal_strlit("accent_dim");
    reveal_strlit("surface");
    reveal_strlit("border");
    if name == role_word(role) {
        let w = name;
        assert(w.len() > 3);
        assert(w[0] == role_word(role)[0]);
        assert(w[1] == role_word(role)[1]);
        assert(w[2] == role_word(role)[2]);
    }
}

/// The unit value hides the segment, a value of the right shape shows, and
/// everything else is refused.
pub proof fn plugin_output_is_accepted_by_its_shape(value: ScriptValue)
    ensures
        value is Unit <==> returned(value) == Ok::<Option<RenderedView>, Seq<char>>(None),
        good_value(value) <==> (returned(value) matches Ok(out) && out is Some),
        !(value is Unit) && !good_value(value) ==> returned(value) is Err,
{
    match value {
        ScriptValue::Table(map) => {
            match lookup(map@, "runs"@) {
                Some(ScriptValue::Array(runs)) => {
                    if runs@.len() == 1 {
                        match runs@[0] {
                            ScriptValue::Table(run) => {
                                lemma_run_is_good(run@);
                            },
                            _ => {},
                        }
                    }
                },
                _ => {},
            }
        },
        _ => {},
    }
}

proof fn lemma_run_is_good(run: Seq<Entry<ScriptValue>>)
    ensures
        good_run(run) <==> text_under(run, "text"@) is Some && run_style(run) is Ok,
{
    match lookup(run, "role"@) {
        Some(ScriptValue::Text(name)) => {
            match role_named(name@) {
                Some(role) => {
                    role_is_named_by_its_word(name@, role);
                    assert(text_under(run, "role"@) == Some(role_word(role)));
                },
                None => {
                    assert forall|role: Role| name@ != #[trigger] role_word(role) by {
                        role_is_named_by_its_word(name@, role);
                    }
                },
            }
        },
        _ => {},
    }
    match lookup(run, "fg"@) {
        Some(ScriptValue::Text(hex)) => {
            color_is_what_the_digits_write(hex@);
        },
        _ => {},
    }
}

// --- What a script sees -------------------------------------------------

/// A script sees a configuration value as what it is: texts, numbers, truth
/// values, lists and tables keep their kind and what they hold, and a point in
/// time is seen as its text.
pub proof fn script_sees_the_value(v: Value, s: ScriptValue)
    requires
        mirrors(v, s),
    ensures
        match v {
            Value::String(a) => s matches ScriptValue::Text(b) && a@ == b@,
            Value::Datetime(a) => s matches ScriptValue::Text(b) && a@ == b@,
            Value::Integer(a) => s == ScriptValue::Integer(a),
            Value::Float(a) => s == ScriptValue::Float(a),
            Value::Boolean(a) => s == ScriptValue::Boolean(a),
            Value::Array(a) => s matches ScriptValue::Array(b) && a@.len() == b@.len()
                && forall|i: int| 0 <= i < a@.len() ==> mirrors(#[trigger] a@[i], b@[i]),
            Value::Table(a) => s matches ScriptValue::Table(b) && a@.len() == b@.len()
                && forall|i: int|
                0 <= i < a@.len() ==> (#[trigger] a@[i]).key@ == b@[i].key@ && mirrors(
                    a@[i].value,
                    b@[i].value,
                ),
        },
{
    reveal_with_fuel(mirrors, 2);
}

/// A script finds under every key what the configuration holds there, and no
/// other key.
pub proof fn script_finds_every_key(
    table: Seq<Entry<Value>>,
    map: Seq<Entry<ScriptValue>>,
    key: Seq<char>,
)
    requires
        table.len() == map.len(),
        forall|i: int|
            0 <= i < table.len() ==> (#[trigger] table[i]).key@ == map[i].key@ && mirrors(
                table[i].value,
                map[i].value,
            ),
    ensures
        lookup(table, key) is None <==> lookup(map, key) is None,
        lookup(table, key) matches Some(v) ==> mirrors(v, lookup(map, key)->0),
    decreases table.len(),
{
    if table.len() > 0 {
        let n = table.len() - 1;
        assert(table[n].key@ == map[n].key@);
        let (a, b) = (table.drop_last(), map.drop_last());
        assert forall|i: int| 0 <= i < a.len() implies (#[trigger] a[i]).key@ == b[i].key@
            && mirrors(a[i].value, b[i].value) by {
            assert(a[i] == table[i] && b[i] == map[i]);
        }
        script_finds_every_key(a, b, key);
    }
}

// --- What is refused ----------------------------------------------------

/// What is wrong with a run's map is told by the first key that is wrong, in
/// the order role, color, decorations, link. A role that there is not and a
/// color that cannot be read are told as they were written.
pub proof fn first_wrong_key_is_told(run: Seq<Entry<ScriptValue>>, message: Seq<char>)
    requires
        run_style(run) == Err::<StyleView, Seq<char>>(message),
    ensures
        match text_under(run, "role"@) {
            Some(name) => role_named(name) is None ==> mentions(message, name),
            None => lookup(run, "role"@) is Some ==> mentions(message, "role"@),
        },
        ({
            let role_fine = run_role(run) is Ok;
            let fg_fine = run_fg(run) is Ok;
            let bold_fine = flag_or_nothing(run, "bold"@);
            let italic_fine = flag_or_nothing(run, "italic"@);
            let underline_fine = flag_or_nothing(run, "underline"@);
            let dim_fine = flag_or_nothing(run, "dim"@);
            &&& role_fine && !fg_fine ==> (match text_under(run, "fg"@) {
                Some(hex) => mentions(message, hex),
                None => mentions(message, "fg"@),
            })
            &&& role_fine && fg_fine && !bold_fine ==> mentions(message, "bold"@)
            &&& role_fine && fg_fine && bold_fine && !italic_fine ==> mentions(message, "italic"@)
            &&& role_fine && fg_fine && bold_fine && italic_fine && !underline_fine ==> mentions(
                message,
                "underline"@,
            )
            &&& role_fine && fg_fine && bold_fine && italic_fine && underline_fine && !dim_fine
                ==> mentions(message, "dim"@)
            &&& role_fine && fg_fine && bold_fine && italic_fine && underline_fine && dim_fine
                ==> mentions(message, "hyperlink"@)
        }),
{
    lemma_mentions("`"@, "bold"@, "` must be a bool"@);
    lemma_mentions("`"@, "italic"@, "` must be a bool"@);
    lemma_mentions("`"@, "underline"@, "` must be a bool"@);
    lemma_mentions("`"@, "dim"@, "` must be a bool"@);
    reveal_strlit("`role` must be a string");
    reveal_strlit("role");
    reveal_strlit("`fg` must be a hex color string");
    reveal_strlit("fg");
    reveal_strlit("`hyperlink` must be a string");
    reveal_strlit("hyperlink");
    assert("`role` must be a string"@.subrange(1, 1int + "role"@.len()) =~= "role"@);
    assert("`fg` must be a hex color string"@.subrange(1, 1int + "fg"@.len()) =~= "fg"@);
    assert("`hyperlink` must be a string"@.subrange(1, 1int + "hyperlink"@.len()) =~= "hyperlink"@);
    match lookup(run, "role"@) {
        Some(ScriptValue::Text(name)) => {
            lemma_mentions("unknown role `"@, name@, "`; see plugin-api.md §Plugin return shape"@);
        },
        _ => {},
    }
    match lookup(run, "fg"@) {
        Some(ScriptValue::Text(hex)) => {
            lemma_mentions("hex color must start with `#`, got `"@, hex@, "`"@);
            lemma_mentions("hex color must be `#rrggbb` (6 hex digits), got `"@, hex@, "`"@);
            lemma_mentions("invalid hex color `"@, hex@, "`"@);
        },
        _ => {},
    }
}

} // verus!
