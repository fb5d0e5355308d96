//! What holds of every bar, and of the numbers beside it.

use vstd::arithmetic::div_mod::lemma_fundamental_div_mod;
use vstd::prelude::*;

use crate::cells::cell_width;
use crate::data_context::{
    round_half_even, round_half_up, ContextWindow, DataContext, Percent,
};
use crate::segments::context_bar::{
    is_bar_of, rounds_to, style_of, ConfigView, ContextBarSegment,
};
use crate::segments::context_window::{size_text, ContextWindowSegment};
use crate::segments::progress_bar::{
    bar_runs, cells_fill_the_width, cells_of, filled_text, fixed_point, padded, pow10, ramp_of,
    repeated, trough_text, BarStyleView, FillMode, Thresholds,
};
use crate::segments::rendered::RenderedView;
use crate::segments::rendered_laws::{
    painted_chars, rendered_spans_keep_their_look, visible,
};
use crate::segments::segment::{Outcome, RenderContext, Segment};
use crate::text::{decimal, digit, printable};
use crate::text_laws::{is_digit, is_digits, place_value};
use crate::theme::{role_style, runs_text, Role, RunView};

verus! {

// --- Rounding -----------------------------------------------------------

/// `q` is the integer nearest to `n / d`.
pub open spec fn is_nearest(q: int, n: int, d: int) -> bool {
    -d <= 2 * (q * d - n) <= d
}

/// `q` is the integer nearest to `n / d`, and even where another is as near.
pub open spec fn is_nearest_even(q: int, n: int, d: int) -> bool {
    &&& is_nearest(q, n, d)
    &&& 2 * (q * d - n) == d || 2 * (q * d - n) == -d ==> q % 2 == 0
}

/// A rounded fraction is the nearest integer; of two that are as near, the
/// even one.
pub proof fn ties_go_to_the_even_number(n: int, d: int)
    requires
        n >= 0,
        d > 0,
    ensures
        is_nearest_even(round_half_even(n, d), n, d),
        round_half_even(n, d) >= 0,
{
    lemma_fundamental_div_mod(n, d);
    let q = n / d;
    assert(0 <= n % d < d) by (nonlinear_arith)
        requires
            d > 0,
    ;
    assert(q >= 0) by (nonlinear_arith)
        requires
            q == n / d,
            n >= 0,
            d > 0,
    ;
    assert(q * d == d * q) by (nonlinear_arith);
    assert((q + 1) * d == d * q + d) by (nonlinear_arith);
}

/// A rounded fraction is the nearest integer; of two that are as near, the
/// upper one.
pub proof fn ties_go_up(n: int, d: int)
    requires
        n >= 0,
        d > 0,
    ensures
        is_nearest(round_half_up(n, d), n, d),
        2 * (round_half_up(n, d) * d - n) > -d,
        round_half_up(n, d) >= 0,
{
    let r = round_half_up(n, d);
    lemma_fundamental_div_mod(2 * n + d, 2 * d);
    let rest = (2 * n + d) % (2 * d);
    assert(0 <= rest < 2 * d) by (nonlinear_arith)
        requires
            d > 0,
            rest == (2 * n + d) % (2 * d),
    ;
    assert((2 * d) * r == 2 * (r * d)) by (nonlinear_arith);
    assert(r >= 0) by (nonlinear_arith)
        requires
            r == (2 * n + d) / (2 * d),
            n >= 0,
            d > 0,
    ;
}

// --- Cells --------------------------------------------------------------

/// A bar in whole cells draws no partial cell, whatever glyph there is for
/// one; the number of its full cells is the nearest to the exact fill.
pub proof fn whole_cells_are_the_nearest(pct: Percent, width: int, half_glyph: Seq<char>)
    requires
        pct.wf(),
        width >= 0,
    ensures
        ({
            let c = cells_of(pct, width, FillMode::Whole.partial_of(half_glyph));
            let exact = width * pct.numerator();
            let cell = 100 * pct.denominator();
            &&& c.partial is None
            &&& c.full + c.empty == width
            &&& is_nearest(c.full, exact, cell)
            &&& 2 * (c.full * cell - exact) > -cell
        }),
{
    let n = width * pct.numerator();
    let d = 100 * pct.denominator() as int;
    assert(n >= 0) by (nonlinear_arith)
        requires
            n == width * pct.numerator(),
            width >= 0,
            pct.numerator() >= 0,
    ;
    ties_go_up(n, d);
}

/// A bar in half cells fills all cells that are wholly full, and draws the
/// glyph in the next one exactly where that is half full or more.
pub proof fn half_cells_show_the_half(pct: Percent, width: int, half_glyph: Seq<char>)
    requires
        pct.wf(),
        width >= 0,
    ensures
        ({
            let c = cells_of(pct, width, FillMode::Half.partial_of(half_glyph));
            let exact = width * pct.numerator();
            let cell = 100 * pct.denominator();
            &&& c.full * cell <= exact < (c.full + 1) * cell
            &&& 2 * (exact - c.full * cell) >= cell ==> c.partial == Some(half_glyph)
            &&& 2 * (exact - c.full * cell) < cell ==> c.partial is None
            &&& c.full + c.empty + (if c.partial is Some {
                1int
            } else {
                0
            }) == width
        }),
{
    let n = width * pct.numerator();
    let d = 100 * pct.denominator() as int;
    lemma_fundamental_div_mod(n, d);
    let q = n / d;
    assert(0 <= n % d < d) by (nonlinear_arith)
        requires
            d > 0,
    ;
    assert(q * d == d * q) by (nonlinear_arith);
    assert((q + 1) * d == d * q + d) by (nonlinear_arith);
    cells_fill_the_width(pct, width, FillMode::Half.partial_of(half_glyph));
}

/// The glyphs of the eighths of a cell, from one eighth to seven: a block that
/// grows from the left, or Braille dots that fill up.
pub open spec fn eighth_glyph(mode: FillMode, eighths: int) -> Seq<char> {
    if mode == FillMode::Braille {
        seq![seq!['⡀', '⡄', '⡆', '⡇', '⣇', '⣧', '⣷'][eighths - 1]]
    } else {
        seq![seq!['▏', '▎', '▍', '▌', '▋', '▊', '▉'][eighths - 1]]
    }
}

proof fn lemma_ramp(mode: FillMode)
    ensures
        ramp_of(mode).len() == 7,
        forall|i: int|
            0 <= i < 7 ==> #[trigger] ramp_of(mode)[i] == eighth_glyph(mode, i + 1),
{
    reveal_strlit("⡀");
    reveal_strlit("⡄");
    reveal_strlit("⡆");
    reveal_strlit("⡇");
    reveal_strlit("⣇");
    reveal_strlit("⣧");
    reveal_strlit("⣷");
    reveal_strlit("▏");
    reveal_strlit("▎");
    reveal_strlit("▍");
    reveal_strlit("▌");
    reveal_strlit("▋");
    reveal_strlit("▊");
    reveal_strlit("▉");
    let ramp = ramp_of(mode);
    assert(ramp[0] =~= eighth_glyph(mode, 1));
    assert(ramp[1] =~= eighth_glyph(mode, 2));
    assert(ramp[2] =~= eighth_glyph(mode, 3));
    assert(ramp[3] =~= eighth_glyph(mode, 4));
    assert(ramp[4] =~= eighth_glyph(mode, 5));
    assert(ramp[5] =~= eighth_glyph(mode, 6));
    assert(ramp[6] =~= eighth_glyph(mode, 7));
}

/// A bar in eighths shows the number of eighths that is nearest to the exact
/// fill: eight for every full cell, and those of the glyph in the next one.
pub proof fn eighths_are_the_nearest(
    pct: Percent,
    width: int,
    mode: FillMode,
    half_glyph: Seq<char>,
) -> (rest: int)
    requires
        pct.wf(),
        width >= 0,
        mode == FillMode::Eighth || mode == FillMode::Braille,
    ensures
        ({
            let c = cells_of(pct, width, mode.partial_of(half_glyph));
            let exact = 8 * (width * pct.numerator());
            let cell = 100 * pct.denominator();
            &&& 0 <= rest < 8
            &&& is_nearest(8 * c.full + rest, exact, cell)
            &&& 2 * ((8 * c.full + rest) * cell - exact) > -cell
            &&& rest == 0 ==> c.partial is None
            &&& rest > 0 ==> c.partial == Some(eighth_glyph(mode, rest))
            &&& c.full + c.empty + (if c.partial is Some {
                1int
            } else {
                0
            }) == width
        }),
{
    lemma_ramp(mode);
    let n = width * pct.numerator();
    let d = 100 * pct.denominator() as int;
    assert(n >= 0) by (nonlinear_arith)
        requires
            n == width * pct.numerator(),
            width >= 0,
            pct.numerator() >= 0,
    ;
    ties_go_up(n * 8, d);
    let steps = round_half_up(n * 8, d);
    let rest = steps % 8;
    assert(steps == 8 * (steps / 8) + rest);
    cells_fill_the_width(pct, width, mode.partial_of(half_glyph));
    rest
}

/// The cells of a bar of `width` cells under `mode` that is full to `points`
/// percent: `full` cells, the glyph `partial` where it is not empty, and
/// `empty` cells.
pub open spec fn shows_fill(
    cfg: ConfigView,
    points: int,
    full: int,
    partial: Seq<char>,
    empty: int,
) -> bool {
    let exact = cfg.width * points;
    &&& 0 <= full
    &&& 0 <= empty
    &&& match cfg.fill {
        FillMode::Whole => {
            &&& full + empty == cfg.width
            &&& partial.len() == 0
            &&& -100 < 2 * (100 * full - exact) <= 100
        },
        FillMode::Half => {
            &&& 100 * full <= exact < 100 * full + 100
            &&& exact < 100 * full + 50 ==> full + empty == cfg.width && partial.len() == 0
            &&& exact >= 100 * full + 50 ==> full + empty + 1 == cfg.width && partial
                == cfg.chars.partial
        },
        _ => exists|rest: int|
            {
                &&& 0 <= rest < 8
                &&& -100 < 2 * (100 * (8 * full + rest) - 8 * exact) <= 100
                &&& rest == 0 ==> full + empty == cfg.width && partial.len() == 0
                &&& rest > 0 ==> full + empty + 1 == cfg.width && partial
                    == #[trigger] eighth_glyph(cfg.fill, rest)
            },
    }
}

proof fn lemma_fill(cfg: ConfigView, p: Percent) -> (parts: (int, Seq<char>, int))
    requires
        p.wf(),
        p.denominator() == 1,
    ensures
        shows_fill(cfg, p.numerator() as int, parts.0, parts.1, parts.2),
        filled_text(p, style_of(cfg)) == repeated(cfg.chars.full, parts.0) + parts.1,
        trough_text(p, style_of(cfg)) == repeated(cfg.chars.empty, parts.2),
{
    let width = cfg.width as int;
    let points = p.numerator() as int;
    let partial = cfg.fill.partial_of(cfg.chars.partial);
    let c = cells_of(p, width, partial);
    cells_fill_the_width(p, width, partial);
    let glyph = match c.partial {
        Some(g) => g,
        None => seq![],
    };
    let cell = 100 * p.denominator() as int;
    assert forall|x: int| #[trigger] (x * cell) == 100 * x by {
        assert(x * cell == 100 * x) by (nonlinear_arith)
            requires
                cell == 100,
        ;
    }
    match cfg.fill {
        FillMode::Whole => {
            whole_cells_are_the_nearest(p, width, cfg.chars.partial);
            assert(c.full * cell == 100 * c.full);
        },
        FillMode::Half => {
            half_cells_show_the_half(p, width, cfg.chars.partial);
            assert(c.full * cell == 100 * c.full);
            assert((c.full + 1) * cell == 100 * (c.full + 1));
        },
        _ => {
            let rest = eighths_are_the_nearest(p, width, cfg.fill, cfg.chars.partial);
            assert((8 * c.full + rest) * cell == 100 * (8 * c.full + rest));
            let glyph_there = eighth_glyph(cfg.fill, rest);
            assert(rest > 0 ==> glyph == glyph_there);
        },
    }
    (c.full, glyph, c.empty)
}

/// The role of a bar that is full to `points` percent: by the side of the two
/// thresholds on which that lies.
pub open spec fn threshold_role(cfg: ConfigView, points: int, role: Role) -> bool {
    &&& points < cfg.green ==> role == Role::Success
    &&& cfg.green <= points < cfg.yellow ==> role == Role::Warning
    &&& cfg.green <= points && cfg.yellow <= points ==> role == Role::Error
}

/// `text` in `role`, where `wanted`.
pub open spec fn part_in_role(text: Seq<char>, role: Role, wanted: bool) -> Seq<RunView> {
    if wanted {
        seq![RunView { text, style: role_style(role) }]
    } else {
        seq![]
    }
}

/// The role of a fill goes by its exact percentage: below the first threshold,
/// below the second, or from there on.
pub proof fn role_goes_by_the_thresholds(t: Thresholds, pct: Percent)
    requires
        t.wf(),
        pct.wf(),
    ensures
        t.role_of(pct) == Role::Success <==> pct.numerator() < t.first() * pct.denominator(),
        t.role_of(pct) == Role::Error <==> pct.numerator() >= t.second() * pct.denominator(),
        t.role_of(pct) == Role::Warning || t.role_of(pct) == Role::Success || t.role_of(pct)
            == Role::Error,
{
    assert(t.first() * pct.denominator() <= t.second() * pct.denominator()) by (nonlinear_arith)
        requires
            t.first() <= t.second(),
            pct.denominator() >= 1,
    ;
}

/// A bar is drawn from left to right: the opening bracket, the full cells and
/// the partial one, the empty cells, the closing bracket, and the percentage
/// with as many places as asked. What is not wanted, and what has no text, is
/// left out; the brackets are muted, and so are the empty cells where that is
/// wanted.
pub proof fn bar_is_drawn_from_left_to_right(pct: Percent, style: BarStyleView, role: Role)
    ensures
        ({
            let c = cells_of(pct, style.width as int, style.chars.partial);
            let cells = repeated(style.chars.full, c.full) + (if c.partial is Some {
                c.partial->0
            } else {
                seq![]
            });
            let trough = repeated(style.chars.empty, c.empty);
            let places = (if style.percentage is Some {
                style.percentage->0
            } else {
                0
            }) as nat;
            let number = seq![' '] + fixed_point(
                pct.numerator() as nat,
                pct.denominator() as nat,
                places,
            ) + seq!['%'];
            bar_runs(pct, style, role) == part_in_role(
                style.chars.open,
                Role::Muted,
                style.brackets,
            ) + part_in_role(cells, role, cells.len() > 0) + part_in_role(
                trough,
                if style.dim_empty {
                    Role::Muted
                } else {
                    role
                },
                trough.len() > 0,
            ) + part_in_role(style.chars.close, Role::Muted, style.brackets) + part_in_role(
                number,
                role,
                style.percentage is Some,
            )
        }),
{
    reveal_strlit(" ");
    reveal_strlit("%");
    assert(" "@ =~= seq![' ']);
    assert("%"@ =~= seq!['%']);
}

/// The bar segment shows the percentage that is nearest to the use: in its
/// cells, in its color and in its number. From left to right stand the opening
/// bracket, the full cells, the empty cells, the closing bracket and the
/// number, each where the configuration wants it; the brackets are muted, and
/// so are the empty cells where that is wanted.
pub proof fn bar_shows_the_use(
    segment: ContextBarSegment,
    ctx: DataContext,
    rc: RenderContext,
    out: Outcome,
    window: ContextWindow,
    used: Percent,
) -> (parts: (int, Role, int, Seq<char>, int))
    requires
        segment.renders(ctx, rc, out),
        ctx.status.context_window == Some(window),
        window.used == Some(used),
        used.wf(),
    ensures
        is_nearest_even(parts.0, used.numerator() as int, used.denominator() as int),
        threshold_role(segment.cfg@, parts.0, parts.1),
        shows_fill(segment.cfg@, parts.0, parts.2, parts.3, parts.4),
        out matches Ok(Some(r)) && ({
            let cfg = segment.cfg@;
            let cells = repeated(cfg.chars.full, parts.2) + parts.3;
            let trough = repeated(cfg.chars.empty, parts.4);
            let number = seq![' '] + decimal(parts.0 as nat) + seq!['%'];
            let empty_role = if cfg.dim_empty {
                Role::Muted
            } else {
                parts.1
            };
            let runs = part_in_role(cfg.chars.open, Role::Muted, cfg.brackets) + part_in_role(
                cells,
                parts.1,
                cells.len() > 0,
            ) + part_in_role(trough, empty_role, trough.len() > 0) + part_in_role(
                cfg.chars.close,
                Role::Muted,
                cfg.brackets,
            ) + part_in_role(number, parts.1, cfg.percentage);
            &&& r.text == printable(runs_text(runs))
            &&& r.width == cell_width(r.text)
            &&& r.style.role == Some(parts.1)
            &&& r.spans matches Some(spans) ==> painted_chars(spans) == visible(
                painted_chars(runs),
            )
        }),
{
    let cfg = segment.cfg@;
    let r = out->Ok_0->0;
    let p = choose|p: Percent| #[trigger] rounds_to(used, p) && is_bar_of(segment.cfg, p, r);
    ties_go_to_the_even_number(used.numerator() as int, used.denominator() as int);
    let points = used.points();
    assert(points <= 100) by (nonlinear_arith)
        requires
            2 * (points * used.denominator() - used.numerator()) <= used.denominator(),
            used.numerator() <= 100 * used.denominator(),
            used.denominator() >= 1,
    ;
    assert(p.wf());
    let parts = lemma_fill(cfg, p);
    let role = segment.cfg.thresholds.role_of(p);
    let runs = bar_runs(p, style_of(cfg), role);
    rendered_spans_keep_their_look(runs);
    reveal_strlit(" ");
    reveal_strlit("%");
    assert(" "@ =~= seq![' ']);
    assert("%"@ =~= seq!['%']);
    assert(round_half_even(points * 1, 1) == points);
    (points, role, parts.0, parts.1, parts.2)
}

/// The bar hides exactly where there is no percentage to show.
pub proof fn bar_needs_a_use(
    segment: ContextBarSegment,
    ctx: DataContext,
    rc: RenderContext,
    out: Outcome,
)
    requires
        segment.renders(ctx, rc, out),
    ensures
        out is Ok,
        out->Ok_0 is None <==> (ctx.status.context_window is None
            || ctx.status.context_window->0.used is None),
{
}

// --- Texts of numbers ---------------------------------------------------

/// A text of `n` copies is one copy behind another.
pub proof fn copies_stand_one_behind_the_other(s: Seq<char>, n: int, m: int)
    requires
        n >= 0,
        m >= 0,
    ensures
        repeated(s, n + m) == repeated(s, n) + repeated(s, m),
        repeated(s, 1) == s,
        repeated(s, 0) == Seq::<char>::empty(),
    decreases m,
{
    reveal_with_fuel(repeated, 2);
    assert(repeated(s, 1) =~= s);
    if m == 0 {
        assert(repeated(s, n + m) =~= repeated(s, n) + repeated(s, m));
    } else {
        copies_stand_one_behind_the_other(s, n, m - 1);
        assert(repeated(s, n + m) =~= repeated(s, n) + repeated(s, m));
    }
}

proof fn lemma_padded(n: nat, d: nat)
    requires
        n < pow10(d),
    ensures
        padded(n, d).len() == d,
        is_digits(padded(n, d)),
        place_value(padded(n, d)) == n,
    decreases d,
{
    let s = padded(n, d);
    if d > 0 {
        assert(n / 10 < pow10((d - 1) as nat));
        lemma_padded(n / 10, (d - 1) as nat);
        assert(s.drop_last() =~= padded(n / 10, (d - 1) as nat));
        assert(s.last() == digit(n % 10));
        assert(digit(n % 10) as u32 == 48 + n % 10);
        assert forall|i: int| 0 <= i < s.len() implies is_digit(#[trigger] s[i]) by {
            if i < s.len() - 1 {
                assert(s[i] == padded(n / 10, (d - 1) as nat)[i]);
            }
        }
    }
}

proof fn lemma_pow10(d: nat)
    ensures
        pow10(d) >= 1,
        pow10(0) == 1,
        pow10(d + 1) == 10 * pow10(d),
    decreases d,
{
    if d > 0 {
        lemma_pow10((d - 1) as nat);
    }
}

/// A number with decimal places is the nearest that so many places can write,
/// of two that are as near the even one: its digits, read without the point,
/// are that many times the fraction.
pub proof fn decimal_places_are_the_nearest(num: nat, den: nat, places: nat) -> (parts: (
    nat,
    Seq<char>,
))
    requires
        den > 0,
    ensures
        places == 0 ==> fixed_point(num, den, places) == decimal(parts.0),
        places > 0 ==> fixed_point(num, den, places) == decimal(parts.0) + seq!['.'] + parts.1,
        parts.1.len() == places,
        is_digits(parts.1),
        is_nearest_even(
            (parts.0 * pow10(places) + place_value(parts.1)) as int,
            (num * pow10(places)) as int,
            den as int,
        ),
        pow10(places + 1) == 10 * pow10(places),
        pow10(0) == 1,
{
    reveal_strlit(".");
    assert("."@ =~= seq!['.']);
    lemma_pow10(places);
    let p = pow10(places);
    assert(num * p >= 0) by (nonlinear_arith);
    ties_go_to_the_even_number((num * p) as int, den as int);
    let scaled = round_half_even((num * p) as int, den as int) as nat;
    lemma_fundamental_div_mod(scaled as int, p as int);
    assert((scaled / p) * p == p * (scaled / p)) by (nonlinear_arith);
    assert(0 <= scaled % p < p) by (nonlinear_arith)
        requires
            p >= 1,
    ;
    let whole = scaled / p;
    let rest = (scaled % p) as nat;
    lemma_padded(rest, places);
    if places == 0 {
        assert(p == 1);
        assert(rest == 0);
        assert(whole * 1 == whole) by (nonlinear_arith);
    }
    (whole, padded(rest, places))
}

/// The size of a window is told exactly: in millions where it is some whole
/// number of them, else in thousands where it is some whole number of those,
/// else in full.
pub proof fn size_is_told_exactly(size: u32) -> (parts: (nat, nat))
    ensures
        parts.0 * parts.1 == size,
        parts.1 == 1_000_000 ==> size_text(size) == decimal(parts.0) + seq!['M'],
        parts.1 == 1_000 ==> size_text(size) == decimal(parts.0) + seq!['k'] && size % 1_000_000
            != 0,
        parts.1 == 1 ==> size_text(size) == decimal(parts.0) && (size % 1_000 != 0 || size == 0),
        parts.1 == 1 || parts.1 == 1_000 || parts.1 == 1_000_000,
{
    reveal_strlit("M");
    reveal_strlit("k");
    assert("M"@ =~= seq!['M']);
    assert("k"@ =~= seq!['k']);
    if size >= 1_000_000 && size % 1_000_000 == 0 {
        ((size / 1_000_000) as nat, 1_000_000)
    } else if size >= 1_000 && size % 1_000 == 0 {
        ((size / 1_000) as nat, 1_000)
    } else {
        (size as nat, 1)
    }
}

/// The window segment shows the percentage that is nearest to the use and the
/// size, with a dot between them where both are known; it hides exactly where
/// neither is.
pub proof fn window_shows_what_is_known(ctx: DataContext, rc: RenderContext, out: Outcome) -> (points:
    int)
    requires
        ContextWindowSegment.renders(ctx, rc, out),
        ctx.status.context_window matches Some(w) ==> (w.used matches Some(used) ==> used.wf()),
    ensures
        ctx.status.context_window is None ==> out == Ok::<Option<RenderedView>, Seq<char>>(None),
        ctx.status.context_window matches Some(w) ==> {
            let percent = decimal(points as nat) + seq!['%'];
            &&& w.used matches Some(used) ==> is_nearest_even(
                points,
                used.numerator() as int,
                used.denominator() as int,
            ) && points >= 0
            &&& out is Ok
            &&& out->Ok_0 is None <==> w.used is None && w.size is None
            &&& out->Ok_0 matches Some(r) ==> {
                &&& r.width == cell_width(r.text)
                &&& r.style.role == Some(Role::Info)
                &&& r.spans is None
                &&& match (w.used, w.size) {
                    (Some(_), Some(size)) => r.text == printable(
                        percent + seq![' ', '·', ' '] + size_text(size),
                    ),
                    (Some(_), None) => r.text == printable(percent),
                    (None, Some(size)) => r.text == printable(size_text(size)),
                    (None, None) => false,
                }
            }
        },
{
    reveal_strlit("% · ");
    reveal_strlit("%");
    assert("%"@ =~= seq!['%']);
    assert("% · "@ =~= seq!['%', ' ', '·', ' ']);
    match ctx.status.context_window {
        Some(w) => match w.used {
            Some(used) => {
                ties_go_to_the_even_number(used.numerator() as int, used.denominator() as int);
                let number = decimal(used.points() as nat);
                match w.size {
                    Some(size) => {
                        assert(number + "% · "@ + size_text(size) =~= (number + seq!['%'])
                            + seq![' ', '·', ' '] + size_text(size));
                    },
                    None => {},
                }
                used.points()
            },
            None => 0,
        },
        None => 0,
    }
}

} // verus!
