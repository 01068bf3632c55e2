//! The program round a comparison, seen from outside: its command line, its
//! window's pace, what a load leaves, and a save's way to its file.

use crate::app::{AppState, Mode, VideoState};
use crate::pace::{GestureState, PaceState};
use crate::paths::file_name_of;
use crate::runner::{asked, asks_help, request, title, versus, ArgsState};
use crate::save::{reached, SaveStep};
use crate::schedule::due;
use crate::textures::{rank, AlphaMode};
use vstd::prelude::*;

verus! {

/// Whether none of the words from `i` on is an option.
pub open spec fn plain_from(args: Seq<Seq<char>>, i: int) -> bool {
    forall|k: int| i <= k < args.len() ==> (#[trigger] args[k]).len() == 0 || args[k][0] != '-'
}

proof fn lemma_option_words()
    ensures
        "--view"@.len() > 0 && "--view"@[0] == '-',
        "--mask"@.len() > 0 && "--mask"@[0] == '-',
        "-h"@.len() == 2 && "-h"@[0] == '-',
        "--help"@.len() == 6 && "--help"@[0] == '-',
        "--view"@ != "--mask"@,
        "--view"@ != "--help"@ && "--view"@ != "-h"@,
        "--mask"@ != "--help"@ && "--mask"@ != "-h"@,
{
    reveal_strlit("--view");
    reveal_strlit("--mask");
    reveal_strlit("-h");
    reveal_strlit("--help");
    assert("--view"@[2] == 'v' && "--mask"@[2] == 'm' && "--help"@[2] == 'h');
    assert("--view"@.len() == 6 && "--mask"@.len() == 6 && "-h"@.len() == 2);
}

proof fn lemma_plain(
    args: Seq<Seq<char>>,
    i: int,
    mode: Mode,
    mask: bool,
    paths: Seq<Seq<char>>,
)
    requires
        0 <= i <= args.len(),
        plain_from(args, i),
    ensures
        asked(args, i, mode, mask, paths) == (ArgsState::Run {
            mode,
            mask,
            paths: paths + args.skip(i),
        }),
    decreases args.len() - i,
{
    lemma_option_words();
    if i < args.len() {
        assert(args[i].len() == 0 || args[i][0] != '-');
        lemma_plain(args, i + 1, mode, mask, paths.push(args[i]));
        assert(paths.push(args[i]) + args.skip(i + 1) =~= paths + args.skip(i));
    } else {
        assert(paths + args.skip(i) =~= paths);
    }
}

proof fn lemma_no_help(args: Seq<Seq<char>>, from: int)
    requires
        0 <= from <= args.len(),
        plain_from(args, from),
        forall|k: int| 0 <= k < from ==> !asks_help(#[trigger] args[k]),
    ensures
        !exists|i: int| 0 <= i < args.len() && asks_help(#[trigger] args[i]),
{
    lemma_option_words();
    assert forall|i: int| 0 <= i < args.len() implies !asks_help(#[trigger] args[i]) by {
        if i >= from {
            assert(args[i].len() == 0 || args[i][0] != '-');
        }
    }
}

/// Words that are no options are the clips, in their order; without an option
/// they open in overlay.
pub proof fn plain_words_are_the_clips(args: Seq<Seq<char>>)
    requires
        plain_from(args, 0),
    ensures
        request(args) == (ArgsState::Run { mode: Mode::Overlay, mask: false, paths: args }),
{
    lemma_no_help(args, 0);
    lemma_plain(args, 0, Mode::Overlay, false, Seq::empty());
    assert(Seq::<Seq<char>>::empty() + args.skip(0) =~= args);
}

/// `--view` picks the view that its word names, and is refused with any other
/// word or none; `--mask` starts with the mask; an option that does not exist is
/// passed over. The clips are the words after them.
pub proof fn options_come_before_the_clips(clips: Seq<Seq<char>>, word: Seq<char>, other: Seq<char>)
    requires
        plain_from(clips, 0),
        word.len() > 0 && word[0] != '-',
        other.len() > 0 && other[0] == '-',
        other != "--view"@ && other != "--mask"@ && other != "-h"@ && other != "--help"@,
    ensures
        request(seq!["--view"@, word] + clips) == match Mode::named(word) {
            Some(mode) => ArgsState::Run { mode, mask: false, paths: clips },
            None => ArgsState::BadView,
        },
        request(seq!["--view"@]) == ArgsState::BadView,
        request(seq!["--mask"@] + clips) == (ArgsState::Run {
            mode: Mode::Overlay,
            mask: true,
            paths: clips,
        }),
        request(seq![other] + clips) == (ArgsState::Run {
            mode: Mode::Overlay,
            mask: false,
            paths: clips,
        }),
{
    lemma_option_words();
    let e = Seq::<Seq<char>>::empty();
    let v = seq!["--view"@, word] + clips;
    assert forall|k: int| 2 <= k < v.len() implies (#[trigger] v[k]).len() == 0 || v[k][0] != '-' by {
        assert(v[k] == clips[k - 2]);
    }
    assert(!asks_help(v[0]) && !asks_help(v[1]));
    lemma_no_help(v, 2);
    if Mode::named(word) is Some {
        lemma_plain(v, 2, Mode::named(word)->0, false, e);
        assert(e + v.skip(2) =~= clips);
    }
    let b = seq!["--view"@];
    lemma_no_help(b, 1);
    let m = seq!["--mask"@] + clips;
    assert forall|k: int| 1 <= k < m.len() implies (#[trigger] m[k]).len() == 0 || m[k][0] != '-' by {
        assert(m[k] == clips[k - 1]);
    }
    lemma_no_help(m, 1);
    lemma_plain(m, 1, Mode::Overlay, true, e);
    assert(e + m.skip(1) =~= clips);
    let o = seq![other] + clips;
    assert forall|k: int| 1 <= k < o.len() implies (#[trigger] o[k]).len() == 0 || o[k][0] != '-' by {
        assert(o[k] == clips[k - 1]);
    }
    lemma_no_help(o, 1);
    lemma_plain(o, 1, Mode::Overlay, false, e);
    assert(e + o.skip(1) =~= clips);
}

/// Asking for help, anywhere, is all that a command line with it does.
pub proof fn help_goes_before_all(args: Seq<Seq<char>>, i: int)
    requires
        0 <= i < args.len(),
        args[i] == "-h"@ || args[i] == "--help"@,
    ensures
        request(args) == ArgsState::Help,
{
    assert(asks_help(args[i]));
}

/// Every view has its name on the command line, and its number.
pub proof fn every_view_has_its_name()
    ensures
        Mode::named("overlay"@) == Some(Mode::Overlay) && Mode::named("1"@) == Some(Mode::Overlay),
        Mode::named("sbs"@) == Some(Mode::SideBySide) && Mode::named("2"@) == Some(
            Mode::SideBySide,
        ) && Mode::named("side-by-side"@) == Some(Mode::SideBySide),
        Mode::named("delta"@) == Some(Mode::Delta) && Mode::named("3"@) == Some(Mode::Delta),
        Mode::named("split"@) == Some(Mode::Split) && Mode::named("4"@) == Some(Mode::Split),
        Mode::named("checker"@) == Some(Mode::Checker) && Mode::named("5"@) == Some(Mode::Checker),
        Mode::named("blend"@) == Some(Mode::Blend) && Mode::named("6"@) == Some(Mode::Blend),
        forall|m: Mode| #[trigger] Mode::named(m.title()) == Some(m),
{
    reveal_strlit("overlay");
    reveal_strlit("sbs");
    reveal_strlit("side-by-side");
    reveal_strlit("delta");
    reveal_strlit("split");
    reveal_strlit("checker");
    reveal_strlit("blend");
    reveal_strlit("1");
    reveal_strlit("2");
    reveal_strlit("3");
    reveal_strlit("4");
    reveal_strlit("5");
    reveal_strlit("6");
    assert("1"@[0] == '1' && "2"@[0] == '2' && "3"@[0] == '3' && "4"@[0] == '4' && "5"@[0] == '5'
        && "6"@[0] == '6');
    assert("delta"@[0] == 'd' && "split"@[0] == 's' && "blend"@[0] == 'b');
    assert("overlay"@[0] == 'o' && "checker"@[0] == 'c');
    assert("split"@.len() == 5 && "sbs"@.len() == 3 && "side-by-side"@.len() == 12);
    assert("1"@.len() == 1 && "2"@.len() == 1 && "3"@.len() == 1 && "4"@.len() == 1);
    assert(Mode::named("split"@) == Some(Mode::Split));
    assert forall|m: Mode| #[trigger] Mode::named(m.title()) == Some(m) by {
        match m {
            Mode::Overlay => {},
            Mode::SideBySide => {},
            Mode::Delta => {},
            Mode::Split => {},
            Mode::Checker => {},
            Mode::Blend => {},
        }
    }
}

proof fn lemma_versus_of_prefix(a: Seq<VideoState>, b: Seq<VideoState>, n: int)
    requires
        0 <= n <= a.len(),
        n <= b.len(),
        forall|i: int| 0 <= i < n ==> #[trigger] a[i] == b[i],
    ensures
        versus(a, n) == versus(b, n),
    decreases n,
{
    if n > 1 {
        lemma_versus_of_prefix(a, b, n - 1);
        assert(a[n - 1] == b[n - 1]);
    } else if n == 1 {
        assert(a[0] == b[0]);
    }
}

/// The window's title names the clips in their order, each but the first after a
/// "vs".
pub proof fn the_title_names_the_clips(videos: Seq<VideoState>, v: VideoState)
    ensures
        title(Seq::<VideoState>::empty()) == "abner"@,
        title(seq![v]) == "abner — "@ + file_name_of(v.info.path),
        videos.len() > 0 ==> title(videos.push(v)) == title(videos) + " vs "@ + file_name_of(
            v.info.path,
        ),
{
    if videos.len() > 0 {
        let n = videos.len() as int;
        lemma_versus_of_prefix(videos, videos.push(v), n);
        let names = versus(videos, n);
        assert("abner — "@ + (names + " vs "@ + file_name_of(v.info.path)) =~= ("abner — "@ + names)
            + " vs "@ + file_name_of(v.info.path));
    }
}

/// A frame moves the clock by the time since the last, but never by more than
/// fifty milliseconds, and never back.
pub proof fn a_frame_never_jumps(s: PaceState, now: u64)
    ensures
        now <= s.last_frame ==> s.step(now) == 0,
        s.last_frame <= now <= s.last_frame + 50_000_000 ==> s.step(now) == now - s.last_frame,
        now >= s.last_frame + 50_000_000 ==> s.step(now) == 50_000_000,
{
}

/// Frames that move something come four milliseconds apart; a hidden window is
/// drawn every tenth of a second whatever it has to show, and a still one at its
/// deadline or then, whichever is sooner.
pub proof fn the_window_keeps_its_pace(
    animating: bool,
    redraw_at: Option<u64>,
    last: u64,
)
    ensures
        due(true, false, redraw_at, last) == last + 4_000_000,
        due(animating, true, redraw_at, last) == last + 100_000_000,
        due(false, false, None, last) == last + 100_000_000,
        redraw_at matches Some(at) ==> due(false, false, redraw_at, last) == if at < last
            + 100_000_000 {
            at as int
        } else {
            last + 100_000_000
        },
{
}

/// What was dropped is one gesture and what the system opened another, the drop
/// first; each is taken once, whole, and only a drop replaces, with the key held.
pub proof fn gestures_are_taken_whole(s: PaceState, held: bool, opened: Seq<Seq<char>>)
    ensures
        ({
            let g = s.gestures(held, opened);
            let n = s.dropped.len();
            &&& g.len() == (if n > 0 { 1int } else { 0 }) + (if opened.len() > 0 { 1int } else { 0 })
            &&& n > 0 ==> g[0] == (GestureState { paths: s.dropped, replace: held })
            &&& opened.len() > 0 ==> g.last() == (GestureState { paths: opened, replace: false })
            &&& s.emptied(opened).dropped.len() == 0
            &&& n > 0 || opened.len() > 0 ==> s.emptied(opened).animating
            &&& s.emptied(opened).occluded == s.occluded
            &&& s.emptied(opened).last_frame == s.last_frame
        }),
{
}

/// A load keeps what was set for the view, and starts at the fit, at full speed
/// and from the beginning; a load of nothing changes nothing.
pub proof fn a_load_keeps_the_settings(s: AppState, new: Seq<VideoState>, replace: bool)
    requires
        s.wf(),
    ensures
        ({
            let a = s.joined(new, replace);
            &&& new.len() == 0 ==> a == s
            &&& new.len() > 0 ==> {
                &&& a.mode == s.mode && a.gain == s.gain && a.blend == s.blend
                &&& a.checker_px == s.checker_px && a.brush_diameter == s.brush_diameter
                &&& a.show_ui == s.show_ui && a.fullscreen == s.fullscreen && a.vp == s.vp
                &&& a.zoom == 1_000_000_000 && a.center == (500_000_000i64, 500_000_000i64)
                &&& a.speed == 1_000_000_000 && a.t == 0 && a.playing && !a.started
                &&& a.active == 0 && !a.mask_mode && !a.drag_hover && a.drag is None
                &&& a.masks.len() == a.videos.len()
            }
        }),
{
    reveal(AppState::joined);
    reveal(AppState::joined_clips);
    reveal(AppState::joined_masks);
}

/// A save whose every step goes well gets to its file, in four steps and no
/// fewer: create, write, sync and rename.
pub proof fn a_save_that_goes_well_is_done(outcomes: Seq<bool>)
    requires
        forall|i: int| 0 <= i < outcomes.len() ==> #[trigger] outcomes[i],
    ensures
        outcomes.len() == 0 ==> reached(outcomes) == SaveStep::Create,
        outcomes.len() == 1 ==> reached(outcomes) == SaveStep::Write,
        outcomes.len() == 2 ==> reached(outcomes) == SaveStep::Sync,
        outcomes.len() == 3 ==> reached(outcomes) == SaveStep::Rename,
        outcomes.len() >= 4 ==> reached(outcomes) == SaveStep::Done,
    decreases outcomes.len(),
{
    if outcomes.len() > 0 {
        let front = outcomes.drop_last();
        assert forall|i: int| 0 <= i < front.len() implies #[trigger] front[i] by {
            assert(front[i] == outcomes[i]);
        }
        a_save_that_goes_well_is_done(front);
        assert(outcomes[outcomes.len() - 1]);
    }
}

/// A step that fails ends the save without its file: at once where nothing had
/// been made yet, else once what was made has been removed.
pub proof fn a_step_that_fails_ends_the_save(outcomes: Seq<bool>, k: int)
    requires
        0 <= k < 4,
        k < outcomes.len(),
        forall|i: int| 0 <= i < k ==> #[trigger] outcomes[i],
        !outcomes[k],
    ensures
        k == 0 ==> reached(outcomes) == SaveStep::Failed,
        k > 0 && outcomes.len() == k + 1 ==> reached(outcomes) == SaveStep::Remove,
        k > 0 && outcomes.len() > k + 1 ==> reached(outcomes) == SaveStep::Failed,
    decreases outcomes.len(),
{
    let front = outcomes.drop_last();
    if outcomes.len() == k + 1 {
        assert forall|i: int| 0 <= i < front.len() implies #[trigger] front[i] by {
            assert(front[i] == outcomes[i]);
        }
        a_save_that_goes_well_is_done(front);
    } else {
        assert forall|i: int| 0 <= i < k implies #[trigger] front[i] by {
            assert(front[i] == outcomes[i]);
        }
        assert(front[k] == outcomes[k]);
        a_step_that_fails_ends_the_save(front, k);
    }
}

/// A window that can be seen through blends as it was drawn: premultiplied alpha
/// goes before postmultiplied, that before opaque, and any other comes last.
pub proof fn premultiplied_alpha_is_preferred()
    ensures
        rank(AlphaMode::Premultiplied) > rank(AlphaMode::Postmultiplied),
        rank(AlphaMode::Postmultiplied) > rank(AlphaMode::Opaque),
        rank(AlphaMode::Opaque) > rank(AlphaMode::Other),
{
}

} // verus!
