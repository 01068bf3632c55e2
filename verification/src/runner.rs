//! The window loop's decisions: the command line, the title, which clips a
//! gesture brought, and how long a frame took.

use crate::app::{Mode, Video, VideoState};
use crate::paths::{file_name, file_name_of};
use vstd::prelude::*;
use vstd::string::StringExecFns;

verus! {

pub const USAGE: &'static str = "\
abner — A/B video comparison player

usage: abner [--view <overlay|sbs|delta|split|checker|blend>] [--mask] [<video-a> <video-b> [more...]]

Run with no arguments (or launched from the .app bundle) to open the
launch window, then drag clips onto it: the clips fill the next free
slots and start playing. Dropping onto a running comparison ADDS streams;
hold Cmd while dropping to replace the whole set.

keys:
  Enter        flip to the next video (overlay mode)
  Space        pause / play
  < >  (, .)   frame-step back / forward
  ← →          seek ±1s
  [ ]          slow down / speed up playback (Backspace resets)
  1..9         show clip 1, 2, ... directly
  V            next view, Shift-V previous: overlay  side-by-side  delta  split  checker  blend
  - =          adjust delta gain / blend / checker size
  pinch        zoom on the pointer, photo-style (drag or scroll to pan; synced)
  M            mask painting on the focused video (+ - brush size, S save)
  Z            reset zoom
  F            fullscreen (borderless, same Space)
  Tab          toggle info overlay
  Q            quit
  Esc          leave fullscreen, else quit
";

/// What is said of a view that does not exist.
pub const VIEW_HINT: &'static str = "--view needs one of: overlay sbs delta split checker blend";

/// What the command line asks for.
pub enum Args {
    Help,
    /// `--view` without a view that exists.
    BadView,
    Run { mode: Mode, mask: bool, paths: Vec<String> },
}

/// A request's content.
pub enum ArgsState {
    Help,
    BadView,
    Run { mode: Mode, mask: bool, paths: Seq<Seq<char>> },
}

impl View for Args {
    type V = ArgsState;

    open spec fn view(&self) -> ArgsState {
        match *self {
            Args::Help => ArgsState::Help,
            Args::BadView => ArgsState::BadView,
            Args::Run { mode, mask, paths } => ArgsState::Run { mode, mask, paths: texts(paths@) },
        }
    }
}

/// The content of several texts.
pub open spec fn texts(v: Seq<String>) -> Seq<Seq<char>> {
    Seq::new(v.len(), |i: int| v[i]@)
}

/// Whether a word asks for help.
pub open spec fn asks_help(arg: Seq<char>) -> bool {
    arg == "-h"@ || arg == "--help"@
}

/// Whether a word is an option.
pub open spec fn is_option(arg: Seq<char>) -> bool {
    arg.len() > 0 && arg[0] == '-'
}

/// What the words from `i` on add to what was asked for so far. Options that
/// do not exist are passed over.
pub open spec fn asked(
    args: Seq<Seq<char>>,
    i: int,
    mode: Mode,
    mask: bool,
    paths: Seq<Seq<char>>,
) -> ArgsState
    decreases args.len() - i,
{
    if i >= args.len() {
        ArgsState::Run { mode, mask, paths }
    } else if args[i] == "--view"@ {
        if i + 1 < args.len() && Mode::named(args[i + 1]) is Some {
            asked(args, i + 2, Mode::named(args[i + 1])->0, mask, paths)
        } else {
            ArgsState::BadView
        }
    } else if args[i] == "--mask"@ {
        asked(args, i + 1, mode, true, paths)
    } else if is_option(args[i]) {
        asked(args, i + 1, mode, mask, paths)
    } else {
        asked(args, i + 1, mode, mask, paths.push(args[i]))
    }
}

/// What a command line asks for. Asking for help anywhere is all it does.
pub open spec fn request(args: Seq<Seq<char>>) -> ArgsState {
    if exists|i: int| 0 <= i < args.len() && asks_help(#[trigger] args[i]) {
        ArgsState::Help
    } else {
        asked(args, 0, Mode::Overlay, false, Seq::empty())
    }
}

fn same_text(a: &String, b: &str) -> (r: bool)
    ensures
        r == (a@ == b@),
{
    let w = b.to_owned();
    *a == w
}

fn starts_with_dash(s: &String) -> (r: bool)
    ensures
        r == is_option(s@),
{
    let all = crate::parse::chars_of(s.as_str());
    all.len() > 0 && all[0] == '-'
}

/// Reads the command line, without the program's own name.
pub fn parse_args(args: &Vec<String>) -> (r: Args)
    ensures
        r@ == request(texts(args@)),
{
    let ghost words = texts(args@);
    let mut i: usize = 0;
    while i < args.len()
        invariant
            i <= args@.len(),
            words == texts(args@),
            forall|k: int| 0 <= k < i ==> !asks_help(#[trigger] words[k]),
        decreases args@.len() - i,
    {
        assert(words[i as int] == args@[i as int]@);
        if same_text(&args[i], "-h") || same_text(&args[i], "--help") {
            return Args::Help;
        }
        i = i + 1;
    }
    let mut mode = Mode::Overlay;
    let mut mask = false;
    let mut paths: Vec<String> = Vec::new();
    i = 0;
    assert(texts(paths@) =~= Seq::empty());
    while i < args.len()
        invariant
            i <= args@.len(),
            words == texts(args@),
            request(words) == asked(words, i as int, mode, mask, texts(paths@)),
        decreases args@.len() - i,
    {
        assert(words[i as int] == args@[i as int]@);
        if same_text(&args[i], "--view") {
            if i + 1 >= args.len() {
                return Args::BadView;
            }
            assert(words[i + 1] == args@[i + 1]@);
            match Mode::parse(args[i + 1].as_str()) {
                Some(m) => {
                    mode = m;
                },
                None => {
                    return Args::BadView;
                },
            }
            i = i + 2;
        } else if same_text(&args[i], "--mask") {
            mask = true;
            i = i + 1;
        } else if starts_with_dash(&args[i]) {
            i = i + 1;
        } else {
            let ghost before = texts(paths@);
            paths.push(args[i].as_str().to_owned());
            assert(texts(paths@) =~= before.push(words[i as int]));
            i = i + 1;
        }
    }
    Args::Run { mode, mask, paths }
}

/// Clip names joined by " vs ".
pub open spec fn versus(videos: Seq<VideoState>, n: int) -> Seq<char>
    decreases n,
{
    if n <= 0 {
        Seq::empty()
    } else if n == 1 {
        file_name_of(videos[0].info.path)
    } else {
        versus(videos, n - 1) + " vs "@ + file_name_of(videos[n - 1].info.path)
    }
}

/// The window's title.
pub open spec fn title(videos: Seq<VideoState>) -> Seq<char> {
    if videos.len() == 0 {
        "abner"@
    } else {
        "abner — "@ + versus(videos, videos.len() as int)
    }
}

/// `title`.
pub fn title_for(videos: &Vec<Video>) -> (r: String)
    ensures
        r@ == title(crate::app::video_states(videos@)),
{
    if videos.len() == 0 {
        return "abner".to_owned();
    }
    let ghost states = crate::app::video_states(videos@);
    let mut names = file_name(videos[0].info.path.as_str());
    let mut i: usize = 1;
    while i < videos.len()
        invariant
            1 <= i <= videos@.len(),
            states == crate::app::video_states(videos@),
            names@ == versus(states, i as int),
        decreases videos@.len() - i,
    {
        names.append(" vs ");
        names.append(file_name(videos[i].info.path.as_str()).as_str());
        i = i + 1;
    }
    let mut r = "abner — ".to_owned();
    r.append(names.as_str());
    r
}

/// The clip a reader thread works for, by its player's number; a clip that
/// is gone stops its reader.
pub fn find_player(videos: &Vec<Video>, id: u64) -> (r: Option<usize>)
    ensures
        match r {
            Some(i) => {
                &&& i < videos@.len()
                &&& videos@[i as int]@.player.id == id
                &&& forall|k: int| 0 <= k < i ==> (#[trigger] videos@[k])@.player.id != id
            },
            None => forall|k: int|
                0 <= k < videos@.len() ==> (#[trigger] videos@[k])@.player.id != id,
        },
{
    let mut i: usize = 0;
    while i < videos.len()
        invariant
            i <= videos@.len(),
            forall|k: int| 0 <= k < i ==> (#[trigger] videos@[k])@.player.id != id,
        decreases videos@.len() - i,
    {
        if videos[i].player.id == id {
            return Some(i);
        }
        i = i + 1;
    }
    None
}

} // verus!
