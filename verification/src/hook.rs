//! Tap detection for the left and right Alt keys.
//!
//! A key-down of an Alt key arms that key's tap flag; a key-down of any other
//! key disarms both flags; the release of an armed Alt key disarms it and asks
//! for the IME to be switched: off for the left Alt key, on for the right one.
//! Every Alt key-down also asks for the menu-bar activation to be cancelled by
//! injecting the unassigned key `VK_SUPPRESS`, whose own events are ignored.

use vstd::prelude::*;

verus! {

/// Virtual-key code of the left Alt key.
pub const VK_LMENU: u32 = 0xA4;
/// Virtual-key code of the right Alt key.
pub const VK_RMENU: u32 = 0xA5;
/// Unassigned virtual-key code injected to cancel the menu-bar activation.
pub const VK_SUPPRESS: u32 = 0x07;

/// Key pressed (the low-level hook's `wparam`).
pub const WM_KEYDOWN: u32 = 0x0100;
/// Key released.
pub const WM_KEYUP: u32 = 0x0101;
/// Key pressed while Alt is held; an Alt press alone arrives this way.
pub const WM_SYSKEYDOWN: u32 = 0x0104;
/// Key released while Alt is held.
pub const WM_SYSKEYUP: u32 = 0x0105;

/// `dwFlags` bit of a keyboard input that marks a release.
pub const KEYEVENTF_KEYUP: u32 = 0x0002;

/// One call of the low-level keyboard hook: the hook code, the message and
/// the virtual-key code of the key.
#[derive(Clone, Copy, Debug, PartialEq, Eq)]
pub struct KeyEvent {
    pub code: i32,
    pub wparam: usize,
    pub vk_code: u32,
}

/// The two tap flags: an Alt key is "clean" while it is held down and no
/// other key has been pressed since.
#[derive(Clone, Copy, Debug, PartialEq, Eq)]
pub struct KeyState {
    pub lalt_clean: bool,
    pub ralt_clean: bool,
}

/// What one hook call asks of the rest of the program.
#[derive(Clone, Copy, Debug, PartialEq, Eq)]
pub struct HookRequests {
    /// Inject `VK_SUPPRESS` (down, then up) to cancel the menu bar.
    pub suppress_menu: bool,
    /// Switch the IME: `Some(false)` off, `Some(true)` on.
    pub ime_toggle: Option<bool>,
}

/// One injected keyboard input: its virtual-key code and its `dwFlags`.
#[derive(Clone, Copy, Debug, PartialEq, Eq)]
pub struct KeyInput {
    pub vk: u16,
    pub flags: u32,
}

/// The event is one the tap logic looks at: a hook code that may be
/// processed, and a key other than the injected one.
pub open spec fn counts(ev: KeyEvent) -> bool {
    ev.code >= 0 && ev.vk_code != VK_SUPPRESS
}

pub open spec fn is_down(ev: KeyEvent) -> bool {
    ev.wparam == WM_KEYDOWN as usize || ev.wparam == WM_SYSKEYDOWN as usize
}

pub open spec fn is_up(ev: KeyEvent) -> bool {
    ev.wparam == WM_KEYUP as usize || ev.wparam == WM_SYSKEYUP as usize
}

pub open spec fn is_alt(vk: u32) -> bool {
    vk == VK_LMENU || vk == VK_RMENU
}

/// The tap flags after the event `ev`.
pub open spec fn step(s: KeyState, ev: KeyEvent) -> KeyState {
    if !counts(ev) {
        s
    } else if ev.vk_code == VK_LMENU {
        if is_down(ev) {
            KeyState { lalt_clean: true, ..s }
        } else if is_up(ev) {
            KeyState { lalt_clean: false, ..s }
        } else {
            s
        }
    } else if ev.vk_code == VK_RMENU {
        if is_down(ev) {
            KeyState { ralt_clean: true, ..s }
        } else if is_up(ev) {
            KeyState { ralt_clean: false, ..s }
        } else {
            s
        }
    } else if is_down(ev) {
        KeyState { lalt_clean: false, ralt_clean: false }
    } else {
        s
    }
}

/// What the event `ev` asks for, in the state `s` that precedes it.
pub open spec fn requests(s: KeyState, ev: KeyEvent) -> HookRequests {
    HookRequests {
        suppress_menu: counts(ev) && is_alt(ev.vk_code) && is_down(ev),
        ime_toggle: if counts(ev) && is_up(ev) && ev.vk_code == VK_LMENU && s.lalt_clean {
            Some(false)
        } else if counts(ev) && is_up(ev) && ev.vk_code == VK_RMENU && s.ralt_clean {
            Some(true)
        } else {
            None
        },
    }
}

impl KeyState {
    /// Both flags down, as at start-up.
    pub open spec fn initial() -> KeyState {
        KeyState { lalt_clean: false, ralt_clean: false }
    }

    pub fn new() -> (s: KeyState)
        ensures
            s == KeyState::initial(),
    {
        KeyState { lalt_clean: false, ralt_clean: false }
    }
}

/// Processes one low-level keyboard event: updates the tap flags and says
/// whether to cancel the menu bar and whether to switch the IME.
pub fn on_key_event(state: &mut KeyState, ev: KeyEvent) -> (r: HookRequests)
    ensures
        *final(state) == step(*old(state), ev),
        r == requests(*old(state), ev),
{
    let mut r = HookRequests { suppress_menu: false, ime_toggle: None };
    if ev.code >= 0 && ev.vk_code != VK_SUPPRESS {
        let down = ev.wparam == WM_KEYDOWN as usize || ev.wparam == WM_SYSKEYDOWN as usize;
        let up = ev.wparam == WM_KEYUP as usize || ev.wparam == WM_SYSKEYUP as usize;
        if ev.vk_code == VK_LMENU {
            if down {
                state.lalt_clean = true;
                r.suppress_menu = true;
            } else if up {
                let was_clean = state.lalt_clean;
                state.lalt_clean = false;
                if was_clean {
                    r.ime_toggle = Some(false);
                }
            }
        } else if ev.vk_code == VK_RMENU {
            if down {
                state.ralt_clean = true;
                r.suppress_menu = true;
            } else if up {
                let was_clean = state.ralt_clean;
                state.ralt_clean = false;
                if was_clean {
                    r.ime_toggle = Some(true);
                }
            }
        } else if down {
            state.lalt_clean = false;
            state.ralt_clean = false;
        }
    }
    r
}

/// The `wparam` that carries an IME switch request to the tray window:
/// 1 for on, 0 for off.
pub fn ime_toggle_wparam(on: bool) -> (w: usize)
    ensures
        w == (if on { 1usize } else { 0usize }),
{
    if on {
        1
    } else {
        0
    }
}

/// The two inputs that cancel the menu-bar activation: `VK_SUPPRESS`
/// pressed, then released.
pub fn suppress_menu_inputs() -> (inputs: Vec<KeyInput>)
    ensures
        inputs@ == seq![
            KeyInput { vk: VK_SUPPRESS as u16, flags: 0 },
            KeyInput { vk: VK_SUPPRESS as u16, flags: KEYEVENTF_KEYUP },
        ],
{
    let mut inputs: Vec<KeyInput> = Vec::new();
    inputs.push(KeyInput { vk: VK_SUPPRESS as u16, flags: 0 });
    inputs.push(KeyInput { vk: VK_SUPPRESS as u16, flags: KEYEVENTF_KEYUP });
    assert(inputs@ =~= seq![
        KeyInput { vk: VK_SUPPRESS as u16, flags: 0 },
        KeyInput { vk: VK_SUPPRESS as u16, flags: KEYEVENTF_KEYUP },
    ]);
    inputs
}

/// The tap flags after the events `evs`, starting from `s`.
pub open spec fn run(s: KeyState, evs: Seq<KeyEvent>) -> KeyState
    decreases evs.len(),
{
    if evs.len() == 0 {
        s
    } else {
        step(run(s, evs.drop_last()), evs.last())
    }
}

/// `ev` presses the Alt key `vk`.
pub open spec fn arms(ev: KeyEvent, vk: u32) -> bool {
    counts(ev) && is_down(ev) && ev.vk_code == vk
}

/// `ev` spoils a tap of the Alt key `vk`: another, non-Alt key is pressed,
/// or `vk` itself is released.
pub open spec fn disarms(ev: KeyEvent, vk: u32) -> bool {
    counts(ev) && ((is_down(ev) && !is_alt(ev.vk_code)) || (is_up(ev) && ev.vk_code == vk))
}

/// In `evs`, the Alt key `vk` has been pressed, and since that press no
/// other key has been pressed and `vk` has not been released.
pub open spec fn tapped(evs: Seq<KeyEvent>, vk: u32) -> bool {
    exists|j: int|
        0 <= j < evs.len() && #[trigger] arms(evs[j], vk) && forall|k: int|
            j < k < evs.len() ==> !disarms(#[trigger] evs[k], vk)
}

/// The flag of the Alt key `vk` in `s`.
pub open spec fn flag(s: KeyState, vk: u32) -> bool {
    if vk == VK_LMENU {
        s.lalt_clean
    } else {
        s.ralt_clean
    }
}

proof fn lemma_tapped_last(evs: Seq<KeyEvent>, vk: u32)
    requires
        evs.len() > 0,
    ensures
        tapped(evs, vk) == (arms(evs.last(), vk) || (tapped(evs.drop_last(), vk) && !disarms(
            evs.last(),
            vk,
        ))),
{
    let p = evs.drop_last();
    let n = evs.len() - 1;
    if tapped(evs, vk) && !arms(evs.last(), vk) {
        let j = choose|j: int|
            0 <= j < evs.len() && #[trigger] arms(evs[j], vk) && forall|k: int|
                j < k < evs.len() ==> !disarms(#[trigger] evs[k], vk);
        assert(j < n);
        assert(arms(p[j], vk));
        assert forall|k: int| j < k < p.len() implies !disarms(#[trigger] p[k], vk) by {
            assert(p[k] == evs[k]);
        }
        assert(!disarms(evs[n], vk));
    }
    if arms(evs.last(), vk) {
        assert(arms(evs[n], vk));
    }
    if tapped(p, vk) && !disarms(evs.last(), vk) {
        let j = choose|j: int|
            0 <= j < p.len() && #[trigger] arms(p[j], vk) && forall|k: int|
                j < k < p.len() ==> !disarms(#[trigger] p[k], vk);
        assert(arms(evs[j], vk));
        assert forall|k: int| j < k < evs.len() implies !disarms(#[trigger] evs[k], vk) by {
            if k < n {
                assert(p[k] == evs[k]);
            }
        }
    }
}

/// Each tap flag, from start-up on, is set exactly when its Alt key has
/// been pressed and, since that press, no other key has been pressed and the
/// Alt key has not been released.
pub proof fn lemma_flags_follow_taps(evs: Seq<KeyEvent>)
    ensures
        run(KeyState::initial(), evs).lalt_clean == tapped(evs, VK_LMENU),
        run(KeyState::initial(), evs).ralt_clean == tapped(evs, VK_RMENU),
    decreases evs.len(),
{
    if evs.len() > 0 {
        lemma_flags_follow_taps(evs.drop_last());
        lemma_tapped_last(evs, VK_LMENU);
        lemma_tapped_last(evs, VK_RMENU);
    }
}

/// After any events from start-up, releasing the left Alt key asks for the
/// IME to be switched off, and releasing the right one asks for it to be
/// switched on, exactly when that key was tapped cleanly; no other event asks
/// for a switch.
pub proof fn lemma_switch_exactly_on_clean_tap(evs: Seq<KeyEvent>, ev: KeyEvent)
    ensures
        requests(run(KeyState::initial(), evs), ev).ime_toggle == Some(false) <==> (counts(ev)
            && is_up(ev) && ev.vk_code == VK_LMENU && tapped(evs, VK_LMENU)),
        requests(run(KeyState::initial(), evs), ev).ime_toggle == Some(true) <==> (counts(ev)
            && is_up(ev) && ev.vk_code == VK_RMENU && tapped(evs, VK_RMENU)),
{
    lemma_flags_follow_taps(evs);
}

/// An Alt key pressed and released with nothing in between switches the IME,
/// whatever state came before: off for the left key, on for the right key.
pub proof fn lemma_lone_tap_switches(s: KeyState, down: KeyEvent, up: KeyEvent)
    requires
        counts(down),
        is_down(down),
        counts(up),
        is_up(up),
        down.vk_code == up.vk_code,
        is_alt(down.vk_code),
    ensures
        requests(step(s, down), up).ime_toggle == Some(down.vk_code == VK_RMENU),
        requests(s, down).suppress_menu,
{
}

/// Pressing any other key while an Alt key is held cancels the tap: the
/// following Alt release switches nothing.
pub proof fn lemma_other_key_cancels(s: KeyState, other: KeyEvent, up: KeyEvent)
    requires
        counts(other),
        is_down(other),
        !is_alt(other.vk_code),
    ensures
        requests(step(s, other), up).ime_toggle is None,
{
}

/// A release that switched the IME clears its flag, so a repeated release
/// switches nothing.
pub proof fn lemma_no_double_switch(s: KeyState, up: KeyEvent)
    requires
        requests(s, up).ime_toggle is Some,
    ensures
        requests(step(s, up), up).ime_toggle is None,
{
}

/// Events the tap logic does not look at (a negative hook code, or the
/// injected `VK_SUPPRESS` key, such as the inputs of
/// `suppress_menu_inputs`) change nothing and ask for nothing.
pub proof fn lemma_ignored_events_are_inert(s: KeyState, ev: KeyEvent)
    requires
        ev.code < 0 || ev.vk_code == VK_SUPPRESS,
    ensures
        step(s, ev) == s,
        requests(s, ev) == (HookRequests { suppress_menu: false, ime_toggle: None }),
{
}

/// Only a press of an Alt key (left 0xA4 or right 0xA5, `WM_KEYDOWN` or
/// `WM_SYSKEYDOWN`, with a hook code that may be processed) asks for the
/// menu-bar suppression; no release and no other key ever does.
pub proof fn lemma_suppress_only_on_alt_press(s: KeyState, ev: KeyEvent)
    ensures
        requests(s, ev).suppress_menu <==> (ev.code >= 0 && (ev.wparam == 0x0100usize
            || ev.wparam == 0x0104usize) && (ev.vk_code == 0xA4 || ev.vk_code == 0xA5)),
{
}

/// The IME is switched off exactly when the left Alt key (0xA4) is released
/// (`WM_KEYUP` or `WM_SYSKEYUP`, processable hook code) while its tap flag is
/// set, and on exactly when the right Alt key (0xA5) is released while its
/// flag is set; no press ever switches it.
pub proof fn lemma_switch_only_on_clean_release(s: KeyState, ev: KeyEvent)
    ensures
        requests(s, ev).ime_toggle == Some(false) <==> (ev.code >= 0 && (ev.wparam == 0x0101usize
            || ev.wparam == 0x0105usize) && ev.vk_code == 0xA4 && s.lalt_clean),
        requests(s, ev).ime_toggle == Some(true) <==> (ev.code >= 0 && (ev.wparam == 0x0101usize
            || ev.wparam == 0x0105usize) && ev.vk_code == 0xA5 && s.ralt_clean),
        (ev.wparam == 0x0100usize || ev.wparam == 0x0104usize) ==> requests(s, ev).ime_toggle is None,
{
}

/// The tap flags change as follows: an Alt press sets that key's flag, an
/// Alt release clears that key's flag, a press of any other key clears
/// both, and every other event (releases of other keys, the injected key
/// 0x07, negative hook codes) leaves them as they were.
pub proof fn lemma_flag_changes(s: KeyState, ev: KeyEvent)
    ensures
        ({
            let live = ev.code >= 0 && ev.vk_code != 0x07;
            let down = ev.wparam == 0x0100usize || ev.wparam == 0x0104usize;
            let up = ev.wparam == 0x0101usize || ev.wparam == 0x0105usize;
            let other = ev.vk_code != 0xA4 && ev.vk_code != 0xA5;
            &&& step(s, ev).lalt_clean == (if live && down && ev.vk_code == 0xA4 {
                true
            } else if live && ((up && ev.vk_code == 0xA4) || (down && other)) {
                false
            } else {
                s.lalt_clean
            })
            &&& step(s, ev).ralt_clean == (if live && down && ev.vk_code == 0xA5 {
                true
            } else if live && ((up && ev.vk_code == 0xA5) || (down && other)) {
                false
            } else {
                s.ralt_clean
            })
        }),
{
}

} // verus!
