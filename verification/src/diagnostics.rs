//! Messages for the user, gathered in order.

use vstd::prelude::*;

verus! {

/// The texts of `v`.
pub open spec fn texts(v: Seq<String>) -> Seq<Seq<char>> {
    Seq::new(v.len(), |i: int| v[i]@)
}

/// Messages in the order in which they came up.
#[derive(Debug, PartialEq, Eq)]
pub struct Messages {
    pub lines: Vec<String>,
}

impl View for Messages {
    type V = Seq<Seq<char>>;

    open spec fn view(&self) -> Seq<Seq<char>> {
        texts(self.lines@)
    }
}

impl Default for Messages {
    fn default() -> (r: Messages)
        ensures
            r@ == Seq::<Seq<char>>::empty(),
    {
        Messages::new()
    }
}

impl Messages {
    /// No messages.
    pub fn new() -> (r: Messages)
        ensures
            r@ == Seq::<Seq<char>>::empty(),
    {
        let r = Messages { lines: Vec::new() };
        assert(r@ =~= Seq::<Seq<char>>::empty());
        r
    }

    /// One message more.
    pub fn push(&mut self, message: String)
        ensures
            final(self)@ == old(self)@.push(message@),
    {
        self.lines.push(message);
        assert(self@ =~= old(self)@.push(message@));
    }
}

/// Reports one behind the other may be grouped either way, and an empty one
/// adds nothing.
pub proof fn lemma_reports(before: Seq<Seq<char>>, acc: Seq<Seq<char>>, next: Seq<Seq<char>>)
    ensures
        before + acc + next == before + (acc + next),
        before + seq![] == before,
        Seq::<Seq<char>>::empty() + before == before,
{
    assert(before + acc + next =~= before + (acc + next));
    assert(before + seq![] =~= before);
    assert(Seq::<Seq<char>>::empty() + before =~= before);
}

} // verus!
