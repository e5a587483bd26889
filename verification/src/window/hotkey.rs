//! The hotkey that brings the window to the front or hides it.

use vstd::prelude::*;

verus! {

/// The key combination, as the user set it.
pub struct HotkeyConfig {
    pub ctrl: bool,
    pub alt: bool,
    pub shift: bool,
    pub win: bool,
    /// The key; NUL if there is none.
    pub key: char,
}

/// The flag of the Alt key.
pub const MOD_ALT: u32 = 1;

/// The flag of the Control key.
pub const MOD_CONTROL: u32 = 2;

/// The flag of the Shift key.
pub const MOD_SHIFT: u32 = 4;

/// The flag of the Windows key.
pub const MOD_WIN: u32 = 8;

/// `flag` if `set`, else 0.
pub open spec fn flag_if(set: bool, flag: u32) -> int {
    if set {
        flag as int
    } else {
        0
    }
}

impl HotkeyConfig {
    /// The flags of the modifier keys.
    pub open spec fn flags(self) -> int {
        flag_if(self.ctrl, MOD_CONTROL) + flag_if(self.alt, MOD_ALT) + flag_if(
            self.shift,
            MOD_SHIFT,
        ) + flag_if(self.win, MOD_WIN)
    }

    /// The flags of the modifier keys.
    pub fn modifiers(&self) -> (r: u32)
        ensures
            r == self.flags(),
    {
        let mut flags: u32 = 0;
        if self.ctrl {
            flags = flags + MOD_CONTROL;
        }
        if self.alt {
            flags = flags + MOD_ALT;
        }
        if self.shift {
            flags = flags + MOD_SHIFT;
        }
        if self.win {
            flags = flags + MOD_WIN;
        }
        flags
    }

    /// The code of the key, by which the keyboard layout is asked for it; `None` without a key and for
    /// a character beyond the first 65536.
    pub fn key_code(&self) -> (r: Option<u16>)
        ensures
            match r {
                Some(code) => code == self.key as u32 && self.key != '\0',
                None => self.key == '\0' || self.key as u32 > u16::MAX,
            },
    {
        if self.key == '\0' {
            return None;
        }
        let code: u32 = self.key as u32;
        if code > u16::MAX as u32 {
            None
        } else {
            Some(code as u16)
        }
    }
}

/// The virtual key in the answer of the keyboard layout: its low byte, unless that says that the layout
/// does not have the character.
pub open spec fn low_byte(scan: i16) -> int {
    scan as int % 256
}

/// The virtual key in the answer of the keyboard layout: its low byte, unless that says that the layout
/// does not have the character.
pub fn virtual_key(scan: i16) -> (r: Option<u32>)
    ensures
        match r {
            Some(key) => key == low_byte(scan) && key != 255,
            None => low_byte(scan) == 255,
        },
{
    let low: u32 = ((scan as i32 + 65536) as u32) % 256;
    if low == 255 {
        None
    } else {
        Some(low)
    }
}

/// Two combinations have the same flags only if they have the same modifier keys.
pub proof fn law_flags_tell_the_modifiers(a: HotkeyConfig, b: HotkeyConfig)
    requires
        a.flags() == b.flags(),
    ensures
        a.ctrl == b.ctrl,
        a.alt == b.alt,
        a.shift == b.shift,
        a.win == b.win,
{
}

/// Whether the thread that listens for the hotkey is told to quit: one without an identifier never
/// started.
pub fn quits_listener(thread_id: u32) -> (r: bool)
    ensures
        r == (thread_id != 0),
{
    thread_id != 0
}

/// Each modifier key adds its own flag: Alt 1, Control 2, Shift 4 and Windows 8.
pub proof fn law_modifiers_have_their_flags(hotkey: HotkeyConfig, r: u32)
    requires
        call_ensures(HotkeyConfig::modifiers, (&hotkey,), r),
    ensures
        r < 16,
        hotkey.alt <==> r % 2 == 1,
        hotkey.ctrl <==> (r / 2) % 2 == 1,
        hotkey.shift <==> (r / 4) % 2 == 1,
        hotkey.win <==> (r / 8) % 2 == 1,
{
}

/// A key goes by its character code where that fits; the layout's answer holds the virtual key in its low
/// byte, and 255 there means that it has none; a listener without an identifier never started.
pub proof fn law_key_codes(
    hotkey: HotkeyConfig,
    code: Option<u16>,
    scan: i16,
    key: Option<u32>,
    thread_id: u32,
    quits: bool,
)
    requires
        call_ensures(HotkeyConfig::key_code, (&hotkey,), code),
        call_ensures(virtual_key, (scan,), key),
        call_ensures(quits_listener, (thread_id,), quits),
    ensures
        hotkey.key == '\0' ==> code is None,
        hotkey.key as u32 > 65535 ==> code is None,
        0 < hotkey.key as u32 <= 65535 ==> (code matches Some(c) && c == hotkey.key as u32),
        key matches Some(k) ==> 0 <= k < 255 && (scan - k) % 256 == 0,
        key is None <==> (scan - 255) % 256 == 0,
        quits <==> thread_id != 0,
{
}

} // verus!
