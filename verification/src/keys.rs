//! Names of keys as the device's input command knows them.

use vstd::prelude::*;
use crate::text::str_eq;

verus! {

/// The result of `str::to_lowercase` on `s` (Unicode lower case).
pub uninterp spec fn lowercase(s: Seq<char>) -> Seq<char>;

/// `str::to_lowercase`: the string in lower case. Its result is named by
/// [`lowercase`]; what the Unicode rules give is not restated here.
#[verifier::external_body]
pub(crate) fn to_lower(s: &str) -> (r: String)
    ensures
        r@ == lowercase(s@),
{
    s.to_lowercase()
}

/// The key code of a key name already in lower case, if it is one of the
/// known names.
pub open spec fn keycode_of(k: Seq<char>) -> Option<Seq<char>> {
    if k == "esc"@ || k == "escape"@ {
        Some("KEYCODE_ESCAPE"@)
    } else if k == "enter"@ {
        Some("KEYCODE_ENTER"@)
    } else if k == "back"@ {
        Some("KEYCODE_BACK"@)
    } else if k == "home"@ {
        Some("KEYCODE_HOME"@)
    } else if k == "menu"@ {
        Some("KEYCODE_MENU"@)
    } else if k == "power"@ {
        Some("KEYCODE_POWER"@)
    } else if k == "volume_up"@ {
        Some("KEYCODE_VOLUME_UP"@)
    } else if k == "volume_down"@ {
        Some("KEYCODE_VOLUME_DOWN"@)
    } else if k == "tab"@ {
        Some("KEYCODE_TAB"@)
    } else if k == "space"@ {
        Some("KEYCODE_SPACE"@)
    } else if k == "del"@ {
        Some("KEYCODE_DEL"@)
    } else if k == "delete"@ {
        Some("KEYCODE_FORWARD_DEL"@)
    } else if k == "up"@ {
        Some("KEYCODE_DPAD_UP"@)
    } else if k == "down"@ {
        Some("KEYCODE_DPAD_DOWN"@)
    } else if k == "left"@ {
        Some("KEYCODE_DPAD_LEFT"@)
    } else if k == "right"@ {
        Some("KEYCODE_DPAD_RIGHT"@)
    } else if k == "center"@ {
        Some("KEYCODE_DPAD_CENTER"@)
    } else if k == "f1"@ {
        Some("KEYCODE_F1"@)
    } else if k == "f2"@ {
        Some("KEYCODE_F2"@)
    } else if k == "f3"@ {
        Some("KEYCODE_F3"@)
    } else if k == "f4"@ {
        Some("KEYCODE_F4"@)
    } else if k == "f5"@ {
        Some("KEYCODE_F5"@)
    } else if k == "f6"@ {
        Some("KEYCODE_F6"@)
    } else if k == "f7"@ {
        Some("KEYCODE_F7"@)
    } else if k == "f8"@ {
        Some("KEYCODE_F8"@)
    } else if k == "f9"@ {
        Some("KEYCODE_F9"@)
    } else if k == "f10"@ {
        Some("KEYCODE_F10"@)
    } else if k == "f11"@ {
        Some("KEYCODE_F11"@)
    } else if k == "f12"@ {
        Some("KEYCODE_F12"@)
    } else if k == "a"@ {
        Some("KEYCODE_A"@)
    } else if k == "b"@ {
        Some("KEYCODE_B"@)
    } else if k == "c"@ {
        Some("KEYCODE_C"@)
    } else if k == "d"@ {
        Some("KEYCODE_D"@)
    } else if k == "e"@ {
        Some("KEYCODE_E"@)
    } else if k == "f"@ {
        Some("KEYCODE_F"@)
    } else if k == "g"@ {
        Some("KEYCODE_G"@)
    } else if k == "h"@ {
        Some("KEYCODE_H"@)
    } else if k == "i"@ {
        Some("KEYCODE_I"@)
    } else if k == "j"@ {
        Some("KEYCODE_J"@)
    } else if k == "k"@ {
        Some("KEYCODE_K"@)
    } else if k == "l"@ {
        Some("KEYCODE_L"@)
    } else if k == "m"@ {
        Some("KEYCODE_M"@)
    } else if k == "n"@ {
        Some("KEYCODE_N"@)
    } else if k == "o"@ {
        Some("KEYCODE_O"@)
    } else if k == "p"@ {
        Some("KEYCODE_P"@)
    } else if k == "q"@ {
        Some("KEYCODE_Q"@)
    } else if k == "r"@ {
        Some("KEYCODE_R"@)
    } else if k == "s"@ {
        Some("KEYCODE_S"@)
    } else if k == "t"@ {
        Some("KEYCODE_T"@)
    } else if k == "u"@ {
        Some("KEYCODE_U"@)
    } else if k == "v"@ {
        Some("KEYCODE_V"@)
    } else if k == "w"@ {
        Some("KEYCODE_W"@)
    } else if k == "x"@ {
        Some("KEYCODE_X"@)
    } else if k == "y"@ {
        Some("KEYCODE_Y"@)
    } else if k == "z"@ {
        Some("KEYCODE_Z"@)
    } else if k == "0"@ {
        Some("KEYCODE_0"@)
    } else if k == "1"@ {
        Some("KEYCODE_1"@)
    } else if k == "2"@ {
        Some("KEYCODE_2"@)
    } else if k == "3"@ {
        Some("KEYCODE_3"@)
    } else if k == "4"@ {
        Some("KEYCODE_4"@)
    } else if k == "5"@ {
        Some("KEYCODE_5"@)
    } else if k == "6"@ {
        Some("KEYCODE_6"@)
    } else if k == "7"@ {
        Some("KEYCODE_7"@)
    } else if k == "8"@ {
        Some("KEYCODE_8"@)
    } else if k == "9"@ {
        Some("KEYCODE_9"@)
    } else {
        None
    }
}

fn lookup_keycode(k: &str) -> (r: Option<&'static str>)
    ensures
        r matches Some(c) ==> keycode_of(k@) == Some(c@),
        r is None ==> keycode_of(k@) is None,
{
    if str_eq(k, "esc") || str_eq(k, "escape") {
        Some("KEYCODE_ESCAPE")
    } else if str_eq(k, "enter") {
        Some("KEYCODE_ENTER")
    } else if str_eq(k, "back") {
        Some("KEYCODE_BACK")
    } else if str_eq(k, "home") {
        Some("KEYCODE_HOME")
    } else if str_eq(k, "menu") {
        Some("KEYCODE_MENU")
    } else if str_eq(k, "power") {
        Some("KEYCODE_POWER")
    } else if str_eq(k, "volume_up") {
        Some("KEYCODE_VOLUME_UP")
    } else if str_eq(k, "volume_down") {
        Some("KEYCODE_VOLUME_DOWN")
    } else if str_eq(k, "tab") {
        Some("KEYCODE_TAB")
    } else if str_eq(k, "space") {
        Some("KEYCODE_SPACE")
    } else if str_eq(k, "del") {
        Some("KEYCODE_DEL")
    } else if str_eq(k, "delete") {
        Some("KEYCODE_FORWARD_DEL")
    } else if str_eq(k, "up") {
        Some("KEYCODE_DPAD_UP")
    } else if str_eq(k, "down") {
        Some("KEYCODE_DPAD_DOWN")
    } else if str_eq(k, "left") {
        Some("KEYCODE_DPAD_LEFT")
    } else if str_eq(k, "right") {
        Some("KEYCODE_DPAD_RIGHT")
    } else if str_eq(k, "center") {
        Some("KEYCODE_DPAD_CENTER")
    } else if str_eq(k, "f1") {
        Some("KEYCODE_F1")
    } else if str_eq(k, "f2") {
        Some("KEYCODE_F2")
    } else if str_eq(k, "f3") {
        Some("KEYCODE_F3")
    } else if str_eq(k, "f4") {
        Some("KEYCODE_F4")
    } else if str_eq(k, "f5") {
        Some("KEYCODE_F5")
    } else if str_eq(k, "f6") {
        Some("KEYCODE_F6")
    } else if str_eq(k, "f7") {
        Some("KEYCODE_F7")
    } else if str_eq(k, "f8") {
        Some("KEYCODE_F8")
    } else if str_eq(k, "f9") {
        Some("KEYCODE_F9")
    } else if str_eq(k, "f10") {
        Some("KEYCODE_F10")
    } else if str_eq(k, "f11") {
        Some("KEYCODE_F11")
    } else if str_eq(k, "f12") {
        Some("KEYCODE_F12")
    } else if str_eq(k, "a") {
        Some("KEYCODE_A")
    } else if str_eq(k, "b") {
        Some("KEYCODE_B")
    } else if str_eq(k, "c") {
        Some("KEYCODE_C")
    } else if str_eq(k, "d") {
        Some("KEYCODE_D")
    } else if str_eq(k, "e") {
        Some("KEYCODE_E")
    } else if str_eq(k, "f") {
        Some("KEYCODE_F")
    } else if str_eq(k, "g") {
        Some("KEYCODE_G")
    } else if str_eq(k, "h") {
        Some("KEYCODE_H")
    } else if str_eq(k, "i") {
        Some("KEYCODE_I")
    } else if str_eq(k, "j") {
        Some("KEYCODE_J")
    } else if str_eq(k, "k") {
        Some("KEYCODE_K")
    } else if str_eq(k, "l") {
        Some("KEYCODE_L")
    } else if str_eq(k, "m") {
        Some("KEYCODE_M")
    } else if str_eq(k, "n") {
        Some("KEYCODE_N")
    } else if str_eq(k, "o") {
        Some("KEYCODE_O")
    } else if str_eq(k, "p") {
        Some("KEYCODE_P")
    } else if str_eq(k, "q") {
        Some("KEYCODE_Q")
    } else if str_eq(k, "r") {
        Some("KEYCODE_R")
    } else if str_eq(k, "s") {
        Some("KEYCODE_S")
    } else if str_eq(k, "t") {
        Some("KEYCODE_T")
    } else if str_eq(k, "u") {
        Some("KEYCODE_U")
    } else if str_eq(k, "v") {
        Some("KEYCODE_V")
    } else if str_eq(k, "w") {
        Some("KEYCODE_W")
    } else if str_eq(k, "x") {
        Some("KEYCODE_X")
    } else if str_eq(k, "y") {
        Some("KEYCODE_Y")
    } else if str_eq(k, "z") {
        Some("KEYCODE_Z")
    } else if str_eq(k, "0") {
        Some("KEYCODE_0")
    } else if str_eq(k, "1") {
        Some("KEYCODE_1")
    } else if str_eq(k, "2") {
        Some("KEYCODE_2")
    } else if str_eq(k, "3") {
        Some("KEYCODE_3")
    } else if str_eq(k, "4") {
        Some("KEYCODE_4")
    } else if str_eq(k, "5") {
        Some("KEYCODE_5")
    } else if str_eq(k, "6") {
        Some("KEYCODE_6")
    } else if str_eq(k, "7") {
        Some("KEYCODE_7")
    } else if str_eq(k, "8") {
        Some("KEYCODE_8")
    } else if str_eq(k, "9") {
        Some("KEYCODE_9")
    } else {
        None
    }
}

/// The key code the device is sent for the key name `key`: the code of its
/// lower-case form when that is a known name, else the name as given.
pub open spec fn key_code(key: Seq<char>) -> Seq<char> {
    key_code_from(key, lowercase(key))
}

/// The key code for the key named `key` whose lower-case form is `lower`:
/// the code of `lower` when that is a known name, else the name as given.
pub open spec fn key_code_from(key: Seq<char>, lower: Seq<char>) -> Seq<char> {
    match keycode_of(lower) {
        Some(c) => c,
        None => key,
    }
}

/// The shell command that presses the key named `key`, given its lower-case
/// form `lower`.
pub fn key_event_command_for(key: &str, lower: &str) -> (r: String)
    ensures
        r@ == "input keyevent "@ + key_code_from(key@, lower@),
{
    let code: &str = match lookup_keycode(lower) {
        Some(c) => c,
        None => key,
    };
    let cmd = String::from_str("input keyevent ");
    cmd.concat(code)
}

/// The shell command that presses the key named `key`.
pub fn key_event_command(key: &str) -> (r: String)
    ensures
        r@ == "input keyevent "@ + key_code(key@),
{
    let lower = to_lower(key);
    key_event_command_for(key, lower.as_str())
}

} // verus!
