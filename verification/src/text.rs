//! Characters and strings: the classes the library asks about, and the small
//! string operations it is built from, each stated over `Seq<char>`.

use vstd::prelude::*;

verus! {

/// A control character: Unicode's general category Cc.
pub open spec fn is_control(c: char) -> bool {
    ||| c as u32 <= 0x1f
    ||| 0x7f <= c as u32 <= 0x9f
}

/// Unicode's White_Space property.
pub open spec fn is_white_space(c: char) -> bool {
    let u = c as u32;
    ||| 0x09 <= u <= 0x0d
    ||| u == 0x20
    ||| u == 0x85
    ||| u == 0xa0
    ||| u == 0x1680
    ||| 0x2000 <= u <= 0x200a
    ||| u == 0x2028
    ||| u == 0x2029
    ||| u == 0x202f
    ||| u == 0x205f
    ||| u == 0x3000
}

/// `s` without its control characters.
pub open spec fn printable(s: Seq<char>) -> Seq<char> {
    s.filter(|c: char| !is_control(c))
}

/// No character of `s` is a control character.
pub open spec fn is_printable(s: Seq<char>) -> bool {
    forall|i: int| 0 <= i < s.len() ==> !is_control(#[trigger] s[i])
}

/// `std::string::String::push` appends one character.
pub assume_specification[ std::string::String::push ](s: &mut std::string::String, c: char)
    ensures
        final(s)@ == old(s)@.push(c),
;

/// Is `c` a control character?
pub fn char_is_control(c: char) -> (r: bool)
    ensures
        r == is_control(c),
{
    let u: u32 = c as u32;
    u <= 0x1f || (0x7f <= u && u <= 0x9f)
}

/// Does `c` have the White_Space property?
pub fn char_is_white_space(c: char) -> (r: bool)
    ensures
        r == is_white_space(c),
{
    let u: u32 = c as u32;
    (0x09 <= u && u <= 0x0d) || u == 0x20 || u == 0x85 || u == 0xa0 || u == 0x1680 || (0x2000 <= u
        && u <= 0x200a) || u == 0x2028 || u == 0x2029 || u == 0x202f || u == 0x205f || u == 0x3000
}

/// The characters of `s`.
pub fn chars_of(s: &str) -> (r: Vec<char>)
    ensures
        r@ == s@,
{
    let mut out: Vec<char> = Vec::new();
    for c in it: s.chars()
        invariant
            it.seq() == s@,
            out@ == s@.take(it.index() as int),
    {
        proof {
            let n = it.index() as int;
            assert(s@.take(n + 1) =~= s@.take(n).push(c));
        }
        out.push(c);
    }
    assert(s@.take(s@.len() as int) =~= s@);
    out
}

/// The string that holds the characters `chars[from..to]`.
pub fn string_of(chars: &Vec<char>, from: usize, to: usize) -> (r: String)
    requires
        from <= to <= chars@.len(),
    ensures
        r@ == chars@.subrange(from as int, to as int),
{
    let mut out = String::new();
    let mut i: usize = from;
    while i < to
        invariant
            from <= i <= to <= chars@.len(),
            out@ == chars@.subrange(from as int, i as int),
        decreases to - i,
    {
        out.push(chars[i]);
        assert(chars@.subrange(from as int, i + 1) =~= chars@.subrange(from as int, i as int).push(
            chars@[i as int],
        ));
        i += 1;
    }
    out
}

/// The decimal digit `d`.
pub open spec fn digit(d: nat) -> char {
    (('0' as u32) + d) as char
}

/// `n` in decimal, without leading zeros.
pub open spec fn decimal(n: nat) -> Seq<char>
    decreases n,
{
    if n < 10 {
        seq![digit(n)]
    } else {
        decimal(n / 10).push(digit(n % 10))
    }
}

/// The character of the decimal digit `d`.
pub fn digit_char(d: u8) -> (c: char)
    requires
        d < 10,
    ensures
        c == digit(d as nat),
{
    (48u8 + d) as char
}

/// `n` in decimal.
pub fn decimal_string(n: u64) -> (r: String)
    ensures
        r@ == decimal(n as nat),
    decreases n,
{
    if n < 10 {
        let mut s = String::new();
        s.push(digit_char(n as u8));
        assert(s@ =~= seq![digit(n as nat)]);
        s
    } else {
        let mut s = decimal_string(n / 10);
        s.push(digit_char((n % 10) as u8));
        s
    }
}

/// Do `a` and `b` hold the same characters?
pub fn same_text(a: &str, b: &str) -> (r: bool)
    ensures
        r == (a@ == b@),
{
    let left = chars_of(a);
    let right = chars_of(b);
    if left.len() != right.len() {
        return false;
    }
    let mut i: usize = 0;
    while i < left.len()
        invariant
            i <= left@.len() == right@.len(),
            left@ == a@,
            right@ == b@,
            forall|k: int| 0 <= k < i ==> left@[k] == right@[k],
        decreases left@.len() - i,
    {
        if left[i] != right[i] {
            return false;
        }
        i += 1;
    }
    assert(left@ =~= right@);
    true
}

/// Strip the control characters from `s`.
pub fn sanitize_control_chars(s: &str) -> (r: String)
    ensures
        r@ == printable(s@),
{
    let mut out = String::new();
    proof {
        reveal(Seq::filter);
    }
    for c in it: s.chars()
        invariant
            it.seq() == s@,
            out@ == printable(s@.take(it.index() as int)),
    {
        proof {
            reveal(Seq::filter);
            let n = it.index() as int;
            assert(s@.take(n + 1).drop_last() =~= s@.take(n));
        }
        if !char_is_control(c) {
            out.push(c);
        }
    }
    assert(s@.take(s@.len() as int) =~= s@);
    out
}

/// `s` without its leading white space.
pub open spec fn trimmed_start(s: Seq<char>) -> Seq<char>
    decreases s.len(),
{
    if s.len() > 0 && is_white_space(s[0]) {
        trimmed_start(s.skip(1))
    } else {
        s
    }
}

/// `s` without its trailing white space.
pub open spec fn trimmed_end(s: Seq<char>) -> Seq<char>
    decreases s.len(),
{
    if s.len() > 0 && is_white_space(s.last()) {
        trimmed_end(s.drop_last())
    } else {
        s
    }
}

/// `s` without the white space around it.
pub open spec fn trimmed(s: Seq<char>) -> Seq<char> {
    trimmed_end(trimmed_start(s))
}

/// `c`, or its lower-case form where `c` is one of `A` to `Z`.
pub open spec fn ascii_lower(c: char) -> char {
    if 'A' <= c <= 'Z' {
        (c as u32 + 32) as char
    } else {
        c
    }
}

/// `s` with `A` to `Z` in lower case.
pub open spec fn lowered(s: Seq<char>) -> Seq<char> {
    Seq::new(s.len(), |i: int| ascii_lower(s[i]))
}

/// `s` without the white space around it.
pub fn trim(s: &str) -> (r: String)
    ensures
        r@ == trimmed(s@),
{
    let chars = chars_of(s);
    let mut from: usize = 0;
    assert(s@.skip(0) =~= s@);
    while from < chars.len() && char_is_white_space(chars[from])
        invariant
            from <= chars@.len(),
            chars@ == s@,
            trimmed_start(s@) == trimmed_start(s@.skip(from as int)),
        decreases chars@.len() - from,
    {
        assert(s@.skip(from as int).skip(1) =~= s@.skip(from + 1));
        from += 1;
    }
    assert(trimmed_start(s@) == s@.skip(from as int));
    let mut to: usize = chars.len();
    assert(s@.skip(from as int) =~= s@.subrange(from as int, to as int));
    while from < to && char_is_white_space(chars[to - 1])
        invariant
            from <= to <= chars@.len(),
            chars@ == s@,
            trimmed(s@) == trimmed_end(s@.subrange(from as int, to as int)),
        decreases to,
    {
        assert(s@.subrange(from as int, to as int).drop_last() =~= s@.subrange(
            from as int,
            to - 1,
        ));
        to -= 1;
    }
    string_of(&chars, from, to)
}

/// `s` with `A` to `Z` in lower case.
pub fn to_ascii_lowercase(s: &str) -> (r: String)
    ensures
        r@ == lowered(s@),
{
    let mut out = String::new();
    for c in it: s.chars()
        invariant
            it.seq() == s@,
            out@ == lowered(s@.take(it.index() as int)),
    {
        let lower: char = if 'A' <= c && c <= 'Z' {
            ((c as u8) + 32) as char
        } else {
            c
        };
        proof {
            let n = it.index() as int;
            assert(lowered(s@.take(n + 1)) =~= lowered(s@.take(n)).push(lower));
        }
        out.push(lower);
    }
    assert(s@.take(s@.len() as int) =~= s@);
    out
}

/// Why a text is not an unsigned decimal number.
#[derive(Debug, Clone, Copy, PartialEq, Eq, Structural)]
pub enum NumberFault {
    /// There is no character at all.
    Empty,
    /// A character stands where a digit belongs.
    InvalidDigit,
    /// The number is above the limit.
    Overflow,
}

impl NumberFault {
    /// The fault in words.
    pub open spec fn words(self) -> Seq<char> {
        match self {
            NumberFault::Empty => "cannot parse integer from empty string"@,
            NumberFault::InvalidDigit => "invalid digit found in string"@,
            NumberFault::Overflow => "number too large to fit in target type"@,
        }
    }

    /// The fault in words.
    pub fn message(self) -> (r: &'static str)
        ensures
            r@ == self.words(),
    {
        match self {
            NumberFault::Empty => "cannot parse integer from empty string",
            NumberFault::InvalidDigit => "invalid digit found in string",
            NumberFault::Overflow => "number too large to fit in target type",
        }
    }
}

/// The value of the digits `s`, read from the left: the first character that
/// is no digit, or that carries the value above `limit`, decides the fault.
pub open spec fn digits_value(s: Seq<char>, limit: nat) -> Result<nat, NumberFault>
    decreases s.len(),
{
    if s.len() == 0 {
        Ok(0)
    } else {
        match digits_value(s.drop_last(), limit) {
            Err(fault) => Err(fault),
            Ok(v) => if !('0' <= s.last() <= '9') {
                Err(NumberFault::InvalidDigit)
            } else if v * 10 + (s.last() as u32 - '0' as u32) > limit {
                Err(NumberFault::Overflow)
            } else {
                Ok((v * 10 + (s.last() as u32 - '0' as u32)) as nat)
            },
        }
    }
}

/// The number that `s` writes: decimal digits, behind at most one `+`.
pub open spec fn number_value(s: Seq<char>, limit: nat) -> Result<nat, NumberFault> {
    if s.len() == 0 {
        Err(NumberFault::Empty)
    } else if s[0] == '+' && s.len() > 1 {
        digits_value(s.skip(1), limit)
    } else {
        digits_value(s, limit)
    }
}

proof fn lemma_digits_fault_stays(s: Seq<char>, n: int, limit: nat)
    requires
        0 <= n <= s.len(),
        digits_value(s.take(n), limit) is Err,
    ensures
        digits_value(s, limit) == digits_value(s.take(n), limit),
    decreases s.len() - n,
{
    if n < s.len() {
        assert(s.take(n + 1).drop_last() =~= s.take(n));
        lemma_digits_fault_stays(s, n + 1, limit);
    } else {
        assert(s.take(n) =~= s);
    }
}

/// Read `s` as an unsigned decimal number of at most `limit`.
pub fn parse_number(s: &str, limit: u32) -> (r: Result<u32, NumberFault>)
    ensures
        match r {
            Ok(n) => n <= limit && number_value(s@, limit as nat) == Ok::<nat, NumberFault>(
                n as nat,
            ),
            Err(fault) => number_value(s@, limit as nat) == Err::<nat, NumberFault>(fault),
        },
{
    let chars = chars_of(s);
    if chars.len() == 0 {
        return Err(NumberFault::Empty);
    }
    let from: usize = if chars[0] == '+' && chars.len() > 1 {
        1
    } else {
        0
    };
    let ghost digits = s@.skip(from as int);
    assert(s@.skip(0) =~= s@);
    let mut value: u64 = 0;
    let mut i: usize = from;
    while i < chars.len()
        invariant
            from <= i <= chars@.len(),
            chars@ == s@,
            digits == s@.skip(from as int),
            number_value(s@, limit as nat) == digits_value(digits, limit as nat),
            value <= limit,
            digits_value(digits.take(i - from), limit as nat) == Ok::<nat, NumberFault>(
                value as nat,
            ),
        decreases chars@.len() - i,
    {
        let c = chars[i];
        proof {
            assert(digits.take(i - from + 1).drop_last() =~= digits.take(i - from));
            assert(digits.take(i - from + 1).last() == c);
        }
        if c < '0' || '9' < c {
            proof {
                lemma_digits_fault_stays(digits, i - from + 1, limit as nat);
            }
            return Err(NumberFault::InvalidDigit);
        }
        value = value * 10 + (c as u32 - 48) as u64;
        if value > limit as u64 {
            proof {
                lemma_digits_fault_stays(digits, i - from + 1, limit as nat);
            }
            return Err(NumberFault::Overflow);
        }
        i += 1;
    }
    assert(digits.take(i - from) =~= digits);
    Ok(value as u32)
}

/// The text as Rust writes a string literal of it: `impl Debug for str`.
pub uninterp spec fn debug_quoted(s: Seq<char>) -> Seq<char>;

/// `std`'s `Debug` of a `str`, through `format!`: the text in double quotes,
/// with escapes where it needs them. It depends on the text alone; the
/// contract gives it a name and says nothing of which characters are escaped.
#[verifier::external_body]
pub(crate) fn quoted(s: &str) -> (r: String)
    ensures
        r@ == debug_quoted(s@),
{
    format!("{s:?}")
}

} // verus!
