//! Saving a picture: it is written beside its destination, which is replaced
//! only once everything else has succeeded.

use crate::paths::{replace_extension, with_extension};
use crate::readout::{digits, push_number};
use vstd::prelude::*;
use vstd::string::StringExecFns;

verus! {

/// The extension of the temporary file.
pub open spec fn temporary_extension(process: u32, nonce: u64) -> Seq<char> {
    "png."@ + digits(process as nat) + "."@ + digits(nonce as nat) + ".tmp"@
}

/// The file a picture is first written to: beside its destination, told apart
/// by the process and a number.
pub fn temporary_path(path: &str, process: u32, nonce: u64) -> (r: String)
    ensures
        r@ == with_extension(path@, temporary_extension(process, nonce)),
{
    let mut ext = "png.".to_owned();
    push_number(&mut ext, process as u64);
    ext.append(".");
    push_number(&mut ext, nonce);
    ext.append(".tmp");
    assert(ext@ =~= temporary_extension(process, nonce));
    replace_extension(path, ext.as_str())
}

/// What a save does next.
#[derive(Debug, Clone, Copy, PartialEq, Eq, Structural)]
pub enum SaveStep {
    /// Create the temporary file, which must not exist yet.
    Create,
    Write,
    /// Force it to disk.
    Sync,
    /// Put it in the destination's place.
    Rename,
    /// Remove it again.
    Remove,
    /// The destination holds the picture.
    Done,
    /// The destination is as it was.
    Failed,
}

impl SaveStep {
    /// The step after this one, which went well or not.
    pub open spec fn following(self, ok: bool) -> SaveStep {
        match self {
            SaveStep::Create => if ok { SaveStep::Write } else { SaveStep::Failed },
            SaveStep::Write => if ok { SaveStep::Sync } else { SaveStep::Remove },
            SaveStep::Sync => if ok { SaveStep::Rename } else { SaveStep::Remove },
            SaveStep::Rename => if ok { SaveStep::Done } else { SaveStep::Remove },
            SaveStep::Remove => SaveStep::Failed,
            SaveStep::Done => SaveStep::Done,
            SaveStep::Failed => SaveStep::Failed,
        }
    }

    pub fn next(self, ok: bool) -> (r: SaveStep)
        ensures
            r == self.following(ok),
    {
        match self {
            SaveStep::Create => if ok {
                SaveStep::Write
            } else {
                SaveStep::Failed
            },
            SaveStep::Write => if ok {
                SaveStep::Sync
            } else {
                SaveStep::Remove
            },
            SaveStep::Sync => if ok {
                SaveStep::Rename
            } else {
                SaveStep::Remove
            },
            SaveStep::Rename => if ok {
                SaveStep::Done
            } else {
                SaveStep::Remove
            },
            SaveStep::Remove => SaveStep::Failed,
            SaveStep::Done => SaveStep::Done,
            SaveStep::Failed => SaveStep::Failed,
        }
    }
}

/// The step reached after a run of outcomes.
pub open spec fn reached(outcomes: Seq<bool>) -> SaveStep
    decreases outcomes.len(),
{
    if outcomes.len() == 0 {
        SaveStep::Create
    } else {
        reached(outcomes.drop_last()).following(outcomes.last())
    }
}

/// The destination is only touched after the temporary file was created,
/// written and synced, each of which went well: a save that fails earlier
/// leaves an existing file intact.
pub proof fn the_destination_is_touched_last(outcomes: Seq<bool>)
    ensures
        reached(outcomes) == SaveStep::Rename ==> outcomes.len() == 3 && outcomes[0] && outcomes[1]
            && outcomes[2],
        reached(outcomes) == SaveStep::Done ==> outcomes.len() >= 4 && outcomes[0] && outcomes[1]
            && outcomes[2] && outcomes[3],
        reached(outcomes) == SaveStep::Sync ==> outcomes.len() == 2 && outcomes[0] && outcomes[1],
        reached(outcomes) == SaveStep::Write ==> outcomes.len() == 1 && outcomes[0],
        reached(outcomes) == SaveStep::Create ==> outcomes.len() == 0,
    decreases outcomes.len(),
{
    if outcomes.len() > 0 {
        the_destination_is_touched_last(outcomes.drop_last());
    }
}

/// A save that created its temporary file and then failed removes it: it
/// does not end before it has.
pub proof fn a_failed_save_cleans_up(outcomes: Seq<bool>)
    requires
        reached(outcomes) == SaveStep::Failed,
        outcomes[0],
    ensures
        exists|i: int| 0 <= i < outcomes.len() && #[trigger] reached(outcomes.take(i))
            == SaveStep::Remove,
    decreases outcomes.len(),
{
    assert(outcomes.len() > 0);
    let front = outcomes.drop_last();
    assert(front =~= outcomes.take(outcomes.len() - 1));
    if reached(front) == SaveStep::Remove {
    } else if reached(front) == SaveStep::Failed {
        assert(front.len() > 0);
        a_failed_save_cleans_up(front);
        let i = choose|i: int| 0 <= i < front.len() && #[trigger] reached(front.take(i))
            == SaveStep::Remove;
        assert(front.take(i) =~= outcomes.take(i));
    } else {
        the_destination_is_touched_last(front);
    }
}

/// The temporary file is never the destination itself.
pub proof fn the_temporary_file_differs(path: Seq<char>, process: u32, nonce: u64)
    requires
        with_extension(path, "png"@) == path,
    ensures
        crate::paths::names_file(crate::paths::last_component(path)) ==> with_extension(
            path,
            temporary_extension(process, nonce),
        ) != path,
{
    reveal_strlit("png");
    reveal_strlit("png.");
    reveal_strlit(".tmp");
    reveal_strlit(".");
    assert(with_extension(path, temporary_extension(process, nonce)).len() == with_extension(
        path,
        "png"@,
    ).len() + temporary_extension(process, nonce).len() - 3 || !crate::paths::names_file(
        crate::paths::last_component(path),
    ));
}

} // verus!
