//! Giving focus back to the previous window and pasting into it (Ctrl+V).
//! Window handles are kept as `isize`.
use vstd::prelude::*;

verus! {

/// Virtual-key code of the Ctrl key.
pub const VK_CONTROL: u16 = 0x11;

/// Virtual-key code of the V key.
pub const VK_V: u16 = 0x56;

/// Pause before giving the focus back, in milliseconds: the system does not
/// hand it over at once.
pub const FOCUS_DELAY_MS: u64 = 80;

/// Pause between giving the focus back and pressing the keys, in milliseconds:
/// keys sent to a window not yet active are lost.
pub const KEYS_DELAY_MS: u64 = 60;

/// One key event to synthesize.
#[derive(Debug, Clone, Copy, PartialEq, Eq, Structural)]
pub struct KeyStroke {
    pub key: u16,
    pub up: bool,
}

/// Ctrl down, V down, V up, Ctrl up.
pub open spec fn spec_paste_keystrokes() -> Seq<KeyStroke> {
    seq![
        KeyStroke { key: VK_CONTROL, up: false },
        KeyStroke { key: VK_V, up: false },
        KeyStroke { key: VK_V, up: true },
        KeyStroke { key: VK_CONTROL, up: true },
    ]
}

/// What pasting into window `hwnd` takes: no window (0) means nothing to do;
/// otherwise the keys of Ctrl+V, in order, to send once the window has the
/// focus again.
pub fn paste_plan(hwnd: isize) -> (r: Option<Vec<KeyStroke>>)
    ensures
        hwnd == 0 ==> r is None,
        hwnd != 0 ==> (r matches Some(keys) && keys@ == spec_paste_keystrokes()),
{
    if hwnd == 0 {
        return None;
    }
    let mut keys = Vec::new();
    keys.push(KeyStroke { key: VK_CONTROL, up: false });
    keys.push(KeyStroke { key: VK_V, up: false });
    keys.push(KeyStroke { key: VK_V, up: true });
    keys.push(KeyStroke { key: VK_CONTROL, up: true });
    assert(keys@ =~= spec_paste_keystrokes());
    Some(keys)
}

/// The cursor position from a `GetCursorPos` call that returned `ok` and
/// filled in `(x, y)`: known only when the call succeeded (`ok != 0`).
pub fn cursor_from_query(ok: i32, x: i32, y: i32) -> (r: Option<(i32, i32)>)
    ensures
        r == if ok != 0 { Some((x, y)) } else { None::<(i32, i32)> },
{
    if ok != 0 { Some((x, y)) } else { None }
}

/// The window active before ours, where no window system reports one: none (0).
pub fn foreground_window() -> (r: isize)
    ensures
        r == 0,
{
    0
}

/// The mouse cursor position, where no window system reports one: unknown.
pub fn cursor_pos() -> (r: Option<(i32, i32)>)
    ensures
        r is None,
{
    None
}

/// Gives the focus back to `hwnd` and pastes into it, where there is no
/// window system to do it with: nothing happens.
pub fn restore_and_paste(hwnd: isize) {
}

} // verus!
