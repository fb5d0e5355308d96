//! Terminal cells: how wide a text is, and where it may be cut.

use unicode_segmentation::UnicodeSegmentation;
use unicode_width::UnicodeWidthStr;
use vstd::prelude::*;

verus! {

/// The displayed width of `s` in terminal columns, as `unicode-width` counts
/// it.
pub uninterp spec fn columns(s: Seq<char>) -> nat;

/// The extended grapheme clusters of `s`, as `unicode-segmentation` finds
/// them.
pub uninterp spec fn grapheme_clusters(s: Seq<char>) -> Seq<Seq<char>>;

/// The texts of `v`.
pub open spec fn str_texts(v: Seq<&str>) -> Seq<Seq<char>> {
    Seq::new(v.len(), |i: int| v[i]@)
}

/// The texts of `pieces`, one behind the other.
pub open spec fn joined(pieces: Seq<Seq<char>>) -> Seq<char>
    decreases pieces.len(),
{
    if pieces.len() == 0 {
        seq![]
    } else {
        joined(pieces.drop_last()) + pieces.last()
    }
}

/// The cells that `s` takes on a terminal, at most `u16::MAX`.
pub open spec fn cell_width(s: Seq<char>) -> u16 {
    if columns(s) <= u16::MAX {
        columns(s) as u16
    } else {
        u16::MAX
    }
}

/// Every character of `s` is one from the blank to the tilde.
pub open spec fn is_plain_ascii(s: Seq<char>) -> bool {
    forall|i: int| 0 <= i < s.len() ==> ' ' <= #[trigger] s[i] <= '~'
}

/// `unicode_width::UnicodeWidthStr::width` on `str`: the displayed width of a
/// string, which depends on its characters alone. The contract gives that
/// number a name, and says that the characters from the blank to the tilde
/// take one column each where there are no others. It says nothing of its
/// value on any other string.
#[verifier::external_body]
pub(crate) fn display_width(s: &str) -> (r: usize)
    ensures
        r as nat == columns(s@),
        is_plain_ascii(s@) ==> r as nat == s@.len(),
{
    UnicodeWidthStr::width(s)
}

/// `unicode_segmentation::UnicodeSegmentation::graphemes`, extended clusters:
/// the clusters of a string from left to right. The contract names them, and
/// says that one behind the other they are the string. Where the boundaries
/// fall is not stated.
#[verifier::external_body]
pub(crate) fn graphemes<'a>(s: &'a str) -> (r: Vec<&'a str>)
    ensures
        str_texts(r@) == grapheme_clusters(s@),
        joined(str_texts(r@)) == s@,
{
    s.graphemes(true).collect()
}

/// Cell count of `s` on a standard terminal, saturating at `u16::MAX`.
pub fn text_width(s: &str) -> (r: u16)
    ensures
        r == cell_width(s@),
        is_plain_ascii(s@) && s@.len() <= u16::MAX ==> r == s@.len(),
{
    let width: usize = display_width(s);
    if width <= 65535 {
        width as u16
    } else {
        65535
    }
}

} // verus!
