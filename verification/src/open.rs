//! Files opened through the system (Open With, or a double click).
//!
//! They arrive in the middle of the run loop, one at a time, and wait here
//! until the loop drains them as one batch.

use crate::runner::texts;
use vstd::prelude::*;

verus! {

/// What the system has asked to open since the last drain.
pub struct Inbox {
    pub paths: Vec<String>,
}

impl View for Inbox {
    type V = Seq<Seq<char>>;

    open spec fn view(&self) -> Seq<Seq<char>> {
        texts(self.paths@)
    }
}

/// An empty inbox, ready before the loop runs: the event of a launch fires
/// at startup.
pub fn install() -> (r: Inbox)
    ensures
        r@ == Seq::<Seq<char>>::empty(),
{
    let r = Inbox { paths: Vec::new() };
    assert(r@ =~= Seq::empty());
    r
}

/// One file to open; an event without a path brings nothing. Whether the
/// loop has to be woken for it.
pub fn on_open(inbox: &mut Inbox, path: Option<String>) -> (wake: bool)
    ensures
        wake == path is Some,
        final(inbox)@ == match path {
            Some(p) => old(inbox)@.push(p@),
            None => old(inbox)@,
        },
{
    match path {
        Some(p) => {
            inbox.paths.push(p);
            assert(inbox@ =~= old(inbox)@.push(p@));
            true
        },
        None => false,
    }
}

/// Takes every path the system has asked to open since the last drain.
pub fn drain(inbox: &mut Inbox) -> (r: Vec<String>)
    ensures
        texts(r@) == old(inbox)@,
        final(inbox)@ == Seq::<Seq<char>>::empty(),
{
    let mut out: Vec<String> = Vec::new();
    std::mem::swap(&mut out, &mut inbox.paths);
    assert(inbox@ =~= Seq::empty());
    out
}

} // verus!
