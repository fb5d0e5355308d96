//! What holds of the small string operations, on every text.

use vstd::prelude::*;

use crate::text::{
    decimal, digit, digits_value, is_control, is_white_space, lowered, number_value, printable,
    trimmed, trimmed_end, trimmed_start, NumberFault,
};

verus! {

// --- Numbers ------------------------------------------------------------

/// Is `c` one of `0` to `9`?
pub open spec fn is_digit(c: char) -> bool {
    '0' <= c <= '9'
}

/// Is every character of `s` one of `0` to `9`?
pub open spec fn is_digits(s: Seq<char>) -> bool {
    forall|i: int| 0 <= i < s.len() ==> is_digit(#[trigger] s[i])
}

/// The number that the digits `s` write, each worth ten times the one behind
/// it.
pub open spec fn place_value(s: Seq<char>) -> int
    decreases s.len(),
{
    if s.len() == 0 {
        0
    } else {
        10 * place_value(s.drop_last()) + (s.last() as u32 - 48)
    }
}

/// A number in decimal is written in digits, is worth itself, and starts with
/// a zero only where it is zero.
pub proof fn decimal_writes_its_number(n: nat)
    ensures
        is_digits(decimal(n)),
        place_value(decimal(n)) == n,
        decimal(n).len() > 0,
        decimal(n)[0] == '0' ==> n == 0,
    decreases n,
{
    let s = decimal(n);
    assert(digit(n % 10) as u32 == 48 + n % 10);
    if n < 10 {
        reveal_with_fuel(place_value, 2);
        assert(s.drop_last() =~= seq![]);
        assert(n % 10 == n);
    } else {
        decimal_writes_its_number(n / 10);
        assert(s.drop_last() =~= decimal(n / 10));
        assert(s.last() == digit(n % 10));
        assert(s[0] == decimal(n / 10)[0]);
        assert forall|i: int| 0 <= i < s.len() implies is_digit(#[trigger] s[i]) by {
            if i < s.len() - 1 {
                assert(s[i] == decimal(n / 10)[i]);
            }
        }
    }
}

proof fn lemma_place_value_grows(s: Seq<char>, n: int)
    requires
        is_digits(s),
        0 <= n <= s.len(),
    ensures
        0 <= place_value(s.take(n)) <= place_value(s),
    decreases s.len(),
{
    if n == s.len() {
        assert(s.take(n) =~= s);
        if n > 0 {
            let front = s.drop_last();
            assert forall|i: int| 0 <= i < front.len() implies is_digit(#[trigger] front[i]) by {
                assert(front[i] == s[i]);
            }
            lemma_place_value_grows(front, n - 1);
            assert(is_digit(s[n - 1]));
        }
    } else {
        let front = s.drop_last();
        assert forall|i: int| 0 <= i < front.len() implies is_digit(#[trigger] front[i]) by {
            assert(front[i] == s[i]);
        }
        lemma_place_value_grows(front, n);
        lemma_place_value_grows(front, front.len() as int);
        assert(front.take(n) =~= s.take(n));
        assert(front.take(front.len() as int) =~= front);
        assert(is_digit(s[s.len() - 1]));
    }
}

/// Digits are read as the number that they write, and refused as too large
/// exactly where that is above the limit; a text with anything but digits in
/// it is always refused.
pub proof fn digits_are_read_by_their_place(s: Seq<char>, limit: nat)
    ensures
        is_digits(s) && place_value(s) <= limit ==> (digits_value(s, limit) matches Ok(n) && n
            == place_value(s)),
        is_digits(s) && place_value(s) > limit ==> digits_value(s, limit) == Err::<
            nat,
            NumberFault,
        >(NumberFault::Overflow),
        !is_digits(s) ==> digits_value(s, limit) is Err,
    decreases s.len(),
{
    if s.len() > 0 {
        let front = s.drop_last();
        digits_are_read_by_their_place(front, limit);
        if is_digits(s) {
            assert forall|i: int| 0 <= i < front.len() implies is_digit(#[trigger] front[i]) by {
                assert(front[i] == s[i]);
            }
            lemma_place_value_grows(s, s.len() - 1);
            assert(s.take(s.len() - 1) =~= front);
            assert(is_digits(front));
            assert(is_digit(s.last()));
            assert(place_value(s) >= place_value(front));
            let here = s.last() as u32 - '0' as u32;
            match digits_value(front, limit) {
                Ok(v) => {
                    assert(v == place_value(front));
                    assert(v * 10 + here == place_value(s));
                },
                Err(_) => {
                    assert(place_value(front) > limit);
                },
            }
        } else if is_digit(s.last()) {
            let i = choose|i: int| 0 <= i < s.len() && !is_digit(#[trigger] s[i]);
            assert(front[i] == s[i]);
            assert(!is_digits(front));
        }
    }
}

/// A plus sign in front of digits changes nothing; without digits behind it
/// it is no number, and neither is the empty text.
pub proof fn plus_sign_changes_nothing(s: Seq<char>, limit: nat)
    ensures
        s.len() > 0 && is_digits(s) ==> number_value(seq!['+'] + s, limit) == number_value(
            s,
            limit,
        ),
        s.len() > 0 && is_digits(s) ==> number_value(s, limit) == digits_value(s, limit),
        number_value(seq!['+'], limit) is Err,
        number_value(Seq::empty(), limit) == Err::<nat, NumberFault>(NumberFault::Empty),
        number_value(s, limit) is Ok ==> s.len() > 0 && (is_digits(s) || (s[0] == '+' && s.len()
            > 1 && is_digits(s.skip(1)))),
{
    let signed = seq!['+'] + s;
    assert(signed.skip(1) =~= s);
    if s.len() > 0 && is_digits(s) {
        assert(is_digit(s[0]));
    }
    assert(!is_digits(seq!['+'])) by {
        assert(!is_digit(seq!['+'][0]));
    }
    digits_are_read_by_their_place(seq!['+'], limit);
    digits_are_read_by_their_place(s, limit);
    if s.len() > 0 {
        digits_are_read_by_their_place(s.skip(1), limit);
    }
}

/// What is written in decimal is read back, up to the limit.
pub proof fn decimal_is_read_back(n: nat, limit: nat)
    ensures
        n <= limit ==> number_value(decimal(n), limit) == Ok::<nat, NumberFault>(n),
        n > limit ==> number_value(decimal(n), limit) == Err::<nat, NumberFault>(
            NumberFault::Overflow,
        ),
{
    decimal_writes_its_number(n);
    digits_are_read_by_their_place(decimal(n), limit);
    plus_sign_changes_nothing(decimal(n), limit);
}

/// A fault says in words what is wrong: that there is nothing, that something is
/// no digit, or that the number is too large.
pub proof fn fault_says_what_is_wrong(fault: NumberFault)
    ensures
        fault == NumberFault::Empty ==> mentions(fault.words(), "empty"@),
        fault == NumberFault::InvalidDigit ==> mentions(fault.words(), "digit"@),
        fault == NumberFault::Overflow ==> mentions(fault.words(), "too large"@),
{
    reveal_strlit("cannot parse integer from empty string");
    reveal_strlit("invalid digit found in string");
    reveal_strlit("number too large to fit in target type");
    reveal_strlit("empty");
    reveal_strlit("digit");
    reveal_strlit("too large");
    let words = fault.words();
    match fault {
        NumberFault::Empty => {
            assert(words.subrange(26, 26int + "empty"@.len()) =~= "empty"@);
        },
        NumberFault::InvalidDigit => {
            assert(words.subrange(8, 8int + "digit"@.len()) =~= "digit"@);
        },
        NumberFault::Overflow => {
            assert(words.subrange(7, 7int + "too large"@.len()) =~= "too large"@);
        },
    }
}

// --- Texts in texts -----------------------------------------------------

/// `text` stands somewhere in `message`.
pub open spec fn mentions(message: Seq<char>, text: Seq<char>) -> bool {
    exists|at: int|
        0 <= at <= message.len() - text.len() && #[trigger] message.subrange(at, at + text.len())
            == text
}

/// A text that is put between two others stands in what comes of it.
pub proof fn lemma_mentions(a: Seq<char>, text: Seq<char>, b: Seq<char>)
    ensures
        mentions(a + text + b, text),
{
    let message = a + text + b;
    let at = a.len() as int;
    assert(message.subrange(at, at + text.len()) =~= text);
}

// --- White space and control characters ---------------------------------

/// Trimming takes white space from both ends and nothing else: what is left
/// stands in the text as it was, between white space alone, and neither starts
/// nor ends with any.
pub proof fn trimming_takes_the_ends_alone(s: Seq<char>) -> (at: (int, int))
    ensures
        0 <= at.0 <= at.1 <= s.len(),
        trimmed(s) == s.subrange(at.0, at.1),
        forall|i: int| 0 <= i < at.0 ==> is_white_space(#[trigger] s[i]),
        forall|i: int| at.1 <= i < s.len() ==> is_white_space(#[trigger] s[i]),
        trimmed(s).len() > 0 ==> !is_white_space(trimmed(s)[0]) && !is_white_space(
            trimmed(s).last(),
        ),
{
    let from = lemma_trimmed_start(s);
    let rest = s.skip(from);
    let kept = lemma_trimmed_end(rest);
    assert(trimmed(s) =~= s.subrange(from, from + kept));
    assert forall|i: int| from + kept <= i < s.len() implies is_white_space(#[trigger] s[i]) by {
        assert(rest[i - from] == s[i]);
    }
    (from, from + kept)
}

proof fn lemma_trimmed_start(s: Seq<char>) -> (n: int)
    ensures
        0 <= n <= s.len(),
        trimmed_start(s) == s.skip(n),
        forall|i: int| 0 <= i < n ==> is_white_space(#[trigger] s[i]),
        n < s.len() ==> !is_white_space(s[n]),
    decreases s.len(),
{
    if s.len() > 0 && is_white_space(s[0]) {
        let rest = s.skip(1);
        let n = lemma_trimmed_start(rest);
        assert(rest.skip(n) =~= s.skip(n + 1));
        assert forall|i: int| 0 <= i < n + 1 implies is_white_space(#[trigger] s[i]) by {
            if i > 0 {
                assert(rest[i - 1] == s[i]);
            }
        }
        n + 1
    } else {
        assert(s.skip(0) =~= s);
        0
    }
}

proof fn lemma_trimmed_end(s: Seq<char>) -> (n: int)
    ensures
        0 <= n <= s.len(),
        trimmed_end(s) == s.take(n),
        forall|i: int| n <= i < s.len() ==> is_white_space(#[trigger] s[i]),
        n > 0 ==> !is_white_space(s[n - 1]),
    decreases s.len(),
{
    if s.len() > 0 && is_white_space(s.last()) {
        let front = s.drop_last();
        let n = lemma_trimmed_end(front);
        assert(front.take(n) =~= s.take(n));
        assert forall|i: int| n <= i < s.len() implies is_white_space(#[trigger] s[i]) by {
            if i < front.len() {
                assert(front[i] == s[i]);
            }
        }
        n
    } else {
        assert(s.take(s.len() as int) =~= s);
        s.len() as int
    }
}

/// The ASCII characters are split three ways: the control characters, the
/// blank to the tilde, and nothing between; and of those the white space is the
/// tab to the carriage return and the blank.
pub proof fn ascii_is_told_apart(c: char)
    requires
        (c as u32) < 128,
    ensures
        is_control(c) <==> !(' ' <= c <= '~'),
        is_white_space(c) <==> '\t' <= c <= '\r' || c == ' ',
{
}

/// Above ASCII, the control characters are the 32 that follow it.
pub proof fn later_control_characters(c: char)
    requires
        128 <= c as u32,
    ensures
        is_control(c) <==> c as u32 - 128 < 32,
        is_control(c) && is_white_space(c) ==> c == '\u{85}',
{
}

/// Above ASCII, white space is the next line, the spaces that do not break, the
/// spaces of typography, the separators of lines and paragraphs, and the
/// ideographic space.
pub proof fn later_white_space(c: char)
    requires
        128 <= c as u32,
    ensures
        is_white_space(c) <==> c == '\u{85}' || c == '\u{a0}' || c == '\u{1680}' || '\u{2000}'
            <= c <= '\u{200a}' || c == '\u{2028}' || c == '\u{2029}' || c == '\u{202f}' || c
            == '\u{205f}' || c == '\u{3000}',
{
}

/// What is stripped is told character by character: a control character goes,
/// every other stays, in its place.
pub proof fn stripping_goes_by_character(a: Seq<char>, b: Seq<char>, c: char)
    ensures
        printable(a + b) == printable(a) + printable(b),
        is_control(c) ==> printable(seq![c]) == Seq::<char>::empty(),
        !is_control(c) ==> printable(seq![c]) == seq![c],
{
    Seq::<char>::filter_distributes_over_add(a, b, |c: char| !is_control(c));
    reveal(Seq::filter);
    let one = seq![c];
    assert(one.drop_last() =~= seq![]);
    assert(printable(one.drop_last()) =~= seq![]);
    assert(is_control(c) ==> printable(one) =~= seq![]);
    assert(!is_control(c) ==> printable(one) =~= one);
}

/// Lower case changes the letters `A` to `Z` and keeps every place; what is in
/// lower case stays so.
pub proof fn lower_case_changes_letters_alone(s: Seq<char>)
    ensures
        lowered(s).len() == s.len(),
        forall|i: int|
            0 <= i < s.len() ==> (if 65 <= (#[trigger] s[i]) as u32 <= 90 {
                lowered(s)[i] as u32 == s[i] as u32 + 32
            } else {
                lowered(s)[i] == s[i]
            }),
        lowered(lowered(s)) == lowered(s),
{
    assert(lowered(lowered(s)) =~= lowered(s));
}

} // verus!
