//! Mask ids over the life of a comparison: one that has been given is not
//! given again.

use crate::app::{following, ids_ok, AppState, Key, Target, VideoState};
use crate::mask::MaskState;
use crate::tick::ReplyState;
use vstd::prelude::*;

verus! {

/// Whether one of the masks has that id.
pub open spec fn has_id(masks: Seq<Option<MaskState>>, id: u64) -> bool {
    exists|i: int| 0 <= i < masks.len() && (#[trigger] masks[i] matches Some(m) && m.id == id)
}

/// The counter has not gone back, and the ids that were not there before are
/// ones it had yet to give.
pub open spec fn ids_move_on(s: AppState, t: AppState) -> bool {
    &&& s.next_mask_id <= t.next_mask_id
    &&& forall|id: u64| #[trigger]
        has_id(t.masks, id) ==> has_id(s.masks, id) || id >= s.next_mask_id
}

/// What can happen to a comparison.
pub enum Happening {
    Keyed(Key),
    Pressed(i32, i32),
    Moved(i32, i32),
    Released,
    Left,
    Scrolled(int, int),
    Pinched(int),
    Ticked(int, (u32, u32), ReplyState),
    Joined(Seq<VideoState>, bool),
}

impl AppState {
    /// The comparison afterwards.
    pub open spec fn after(self, h: Happening) -> AppState {
        match h {
            Happening::Keyed(k) => self.keyed(k),
            Happening::Pressed(x, y) => self.pressed(x, y),
            Happening::Moved(x, y) => self.moved(x, y),
            Happening::Released => self.released(),
            Happening::Left => AppState { cursor_inside: false, ..self }.released(),
            Happening::Scrolled(dx, dy) => self.scrolled(dx, dy),
            Happening::Pinched(delta) => self.pinched(delta),
            Happening::Ticked(dt, vp, reply) => self.ticked(dt, vp, reply),
            Happening::Joined(videos, replace) => self.joined(videos, replace),
        }
    }
}

/// The masks stay as they are.
spec fn stays(s: AppState, t: AppState) -> bool {
    t.masks == s.masks && t.next_mask_id == s.next_mask_id
}

proof fn lemma_with_mask(s: AppState)
    requires
        s.active < s.masks.len(),
    ensures
        ids_move_on(s, s.with_mask()),
{
    reveal(AppState::with_mask);
    let t = s.with_mask();
    assert forall|id: u64| #[trigger] has_id(t.masks, id) implies has_id(s.masks, id) || id
        >= s.next_mask_id by {
        let i = choose|i: int|
            0 <= i < t.masks.len() && (#[trigger] t.masks[i] matches Some(m) && m.id == id);
        if i != s.active || s.masks[s.active as int] is Some {
            assert(s.masks[i] == t.masks[i]);
        }
    }
}

proof fn lemma_painted(s: AppState)
    requires
        s.active < s.masks.len(),
        s.masks[s.active as int] is Some,
    ensures
        ids_move_on(s, s.painted()),
{
    reveal(AppState::painted);
    reveal(AppState::brushed);
    let t = s.painted();
    assert forall|id: u64| #[trigger] has_id(t.masks, id) implies has_id(s.masks, id) by {
        let i = choose|i: int|
            0 <= i < t.masks.len() && (#[trigger] t.masks[i] matches Some(m) && m.id == id);
        assert(s.masks[i] is Some && s.masks[i]->0.id == id);
    }
}

proof fn lemma_joined(s: AppState, videos: Seq<VideoState>, replace: bool)
    ensures
        ids_move_on(s, s.joined(videos, replace)),
{
    reveal(AppState::joined);
    reveal(AppState::joined_masks);
    let t = s.joined(videos, replace);
    assert forall|id: u64| #[trigger] has_id(t.masks, id) implies has_id(s.masks, id) by {
        let i = choose|i: int|
            0 <= i < t.masks.len() && (#[trigger] t.masks[i] matches Some(m) && m.id == id);
        assert(s.masks[i] == t.masks[i]);
    }
}

proof fn lemma_seeking_stays(s: AppState, target: int)
    ensures
        stays(s, s.sought(target)),
{
    reveal(AppState::sought);
}

proof fn lemma_stepping_stays(s: AppState, forward: bool)
    ensures
        stays(s, s.stepped(forward)),
{
    reveal(AppState::stepped);
    lemma_seeking_stays(AppState { playing: false, ..s }, s.step_target(forward));
}

proof fn lemma_selected(s: AppState, idx: int)
    requires
        0 <= idx < s.masks.len() <= usize::MAX,
    ensures
        ids_move_on(s, s.selected(idx)),
{
    reveal(AppState::selected);
    let t = AppState { active: idx as usize, badge_flash: 1_200_000_000, ..s }.released();
    lemma_with_mask(t);
}

proof fn lemma_launch_stays(s: AppState, k: Key)
    ensures
        stays(s, s.launch_keyed(k)),
        stays(s, s.escaped()),
        stays(s, s.fullscreen_toggled()),
{
    reveal(AppState::launch_keyed);
    reveal(AppState::escaped);
    reveal(AppState::fullscreen_toggled);
}

proof fn lemma_mask_keys_stay(s: AppState, k: Key)
    ensures
        stays(s, s.mask_keyed(k)),
{
    reveal(AppState::mask_keyed);
    reveal(AppState::brush_resized);
    reveal(AppState::saved);
}

proof fn lemma_char_keyed(s: AppState, c: char)
    requires
        s.videos.len() <= s.masks.len() <= usize::MAX,
    ensures
        ids_move_on(s, s.char_keyed(c)),
{
    reveal(AppState::char_keyed);
    if '1' <= c && c <= '9' {
        if (c as int - '1' as int) < s.videos.len() {
            lemma_selected(s, c as int - '1' as int);
        }
    } else {
        lemma_launch_stays(s, Key::Escape);
        lemma_stepping_stays(s, true);
        lemma_stepping_stays(s, false);
        reveal(AppState::adjusted);
    }
}

proof fn lemma_compare_keyed(s: AppState, k: Key)
    requires
        s.videos.len() <= s.masks.len() <= usize::MAX,
        s.active < s.videos.len(),
    ensures
        ids_move_on(s, s.compare_keyed(k)),
{
    reveal(AppState::compare_keyed);
    match k {
        Key::Enter => lemma_selected(s, following(s.active as int, s.videos.len() as int)),
        Key::Char(c) => lemma_char_keyed(s, c),
        _ => {
            lemma_launch_stays(s, k);
            reveal(AppState::nudged);
            reveal(AppState::sought);
        },
    }
}

proof fn lemma_keyed(s: AppState, k: Key)
    requires
        s.wf(),
    ensures
        ids_move_on(s, s.keyed(k)),
{
    if !s.is_ready() {
        lemma_launch_stays(s, k);
    } else if k == Key::Char('m') || k == Key::Char('M') {
        reveal(AppState::mask_toggled);
        let t = AppState { mask_mode: !s.mask_mode, ..s }.released();
        lemma_with_mask(AppState { playing: false, ..t });
    } else if s.mask_mode && AppState::is_mask_key(k) {
        lemma_mask_keys_stay(s, k);
    } else {
        lemma_compare_keyed(s, k);
        lemma_compare_keyed(AppState { stroke_last: None, ..s }, k);
    }
}

proof fn lemma_pressed(s: AppState, x: i32, y: i32)
    requires
        s.wf(),
    ensures
        ids_move_on(s, s.pressed(x, y)),
{
    reveal(AppState::pressed);
    if s.mask_mode {
        reveal(AppState::brush_down);
        reveal(AppState::hovering);
        let h = s.hovering(x, y);
        if h.brush_visible() {
            reveal(AppState::brush_visible);
            lemma_painted(AppState { painting: true, stroke_last: None, ..h });
        }
    } else {
        let t = AppState { since_pointer: 0, ..s };
        match t.target(x as int, y as int) {
            Target::Prev => lemma_stepping_stays(t, false),
            Target::Next => lemma_stepping_stays(t, true),
            Target::Seek => {
                reveal(AppState::scrubbed);
                reveal(AppState::sought);
            },
            _ => {},
        }
    }
}

proof fn lemma_moved(s: AppState, x: i32, y: i32)
    requires
        s.wf(),
    ensures
        ids_move_on(s, s.moved(x, y)),
{
    reveal(AppState::moved);
    reveal(AppState::hovering);
    if s.mask_mode {
        if s.painting {
            lemma_painted(s.hovering(x, y));
        }
    } else {
        reveal(AppState::scrubbed);
        reveal(AppState::sought);
        reveal(AppState::dragged);
    }
}

proof fn lemma_ticking_stays(s: AppState, dt: int, vp: (u32, u32), reply: ReplyState)
    ensures
        stays(s, s.ticked(dt, vp, reply)),
{
    reveal(AppState::sized);
    reveal(AppState::replied);
    reveal(AppState::clocked);
    reveal(AppState::looped);
    reveal(AppState::drained);
    let t = s.sized(vp).replied(reply).clocked(dt);
    lemma_seeking_stays(t, 0);
}

/// Whatever happens to a comparison, its counter of mask ids never goes back,
/// and a mask that was not there before has an id the counter had yet to
/// give.
pub proof fn mask_ids_only_move_on(s: AppState, h: Happening)
    requires
        s.wf(),
    ensures
        ids_move_on(s, s.after(h)),
{
    match h {
        Happening::Keyed(k) => lemma_keyed(s, k),
        Happening::Pressed(x, y) => lemma_pressed(s, x, y),
        Happening::Moved(x, y) => lemma_moved(s, x, y),
        Happening::Scrolled(_, _) => reveal(AppState::scrolled),
        Happening::Pinched(_) => reveal(AppState::pinched),
        Happening::Ticked(dt, vp, reply) => lemma_ticking_stays(s, dt, vp, reply),
        Happening::Joined(videos, replace) => lemma_joined(s, videos, replace),
        _ => {},
    }
}

/// The ids move on over any number of happenings.
pub proof fn moving_on_adds_up(s: AppState, t: AppState, u: AppState)
    requires
        ids_move_on(s, t),
        ids_move_on(t, u),
    ensures
        ids_move_on(s, s),
        ids_move_on(s, u),
{
}

/// An id that has been given is not given again: once no mask has it, none
/// gets it, whatever happens, until the numbers run out.
pub proof fn an_id_is_not_given_again(s: AppState, t: AppState, u: AppState, id: u64)
    requires
        s.wf(),
        s.next_mask_id < u64::MAX,
        has_id(s.masks, id),
        ids_move_on(s, t),
        !has_id(t.masks, id),
        ids_move_on(t, u),
    ensures
        !has_id(u.masks, id),
{
    reveal(ids_ok);
    let i = choose|i: int|
        0 <= i < s.masks.len() && (#[trigger] s.masks[i] matches Some(m) && m.id == id);
    assert(s.masks[i]->0.id < s.next_mask_id);
}

} // verus!
