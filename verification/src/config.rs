//! The global shortcut setting: parsing strings such as `Ctrl+Shift+V`
//! into a set of modifiers and one main key.
use vstd::prelude::*;

use crate::text::{chars_of, split_chars, split_on, spells, string_of, trim, trim_chars, views_of};

verus! {

/// The shortcut the configuration starts with.
pub const DEFAULT_SHORTCUT: &'static str = "Ctrl+Shift+V";

/// The background colour the configuration starts with.
pub fn default_bg_color() -> (r: String)
    ensures
        r@ == "#0f0f0f"@,
{
    String::from_str("#0f0f0f")
}

/// The main keys a shortcut can have.
#[derive(Debug, Clone, Copy, PartialEq, Eq, Structural)]
pub enum KeyCode {
    KeyA,
    KeyB,
    KeyC,
    KeyD,
    KeyE,
    KeyF,
    KeyG,
    KeyH,
    KeyI,
    KeyJ,
    KeyK,
    KeyL,
    KeyM,
    KeyN,
    KeyO,
    KeyP,
    KeyQ,
    KeyR,
    KeyS,
    KeyT,
    KeyU,
    KeyV,
    KeyW,
    KeyX,
    KeyY,
    KeyZ,
    Digit0,
    Digit1,
    Digit2,
    Digit3,
    Digit4,
    Digit5,
    Digit6,
    Digit7,
    Digit8,
    Digit9,
    F1,
    F2,
    F3,
    F4,
    F5,
    F6,
    F7,
    F8,
    F9,
    F10,
    F11,
    F12,
    Space,
    Escape,
    Enter,
    Tab,
    Backspace,
    Delete,
    Insert,
    Home,
    End,
    PageUp,
    PageDown,
    ArrowUp,
    ArrowDown,
    ArrowLeft,
    ArrowRight,
    Comma,
    Period,
    Slash,
    Backslash,
    Semicolon,
    Quote,
    BracketLeft,
    BracketRight,
    Minus,
    Equal,
    Backquote,
}

/// The modifier keys a shortcut holds.
#[derive(Debug, Clone, Copy, PartialEq, Eq, Structural)]
pub struct ModifierSet {
    pub control: bool,
    pub shift: bool,
    pub alt: bool,
    pub super_key: bool,
}

/// A global shortcut: modifiers and one main key.
#[derive(Debug, Clone, Copy, PartialEq, Eq, Structural)]
pub struct Shortcut {
    pub modifiers: ModifierSet,
    pub code: KeyCode,
}

/// One modifier key.
#[derive(Debug, Clone, Copy, PartialEq, Eq, Structural)]
pub enum Modifier {
    Control,
    Shift,
    Alt,
    Super,
}

impl ModifierSet {
    /// No modifier.
    pub open spec fn none() -> ModifierSet {
        ModifierSet { control: false, shift: false, alt: false, super_key: false }
    }

    /// This set with `m` added.
    pub open spec fn with(self, m: Modifier) -> ModifierSet {
        match m {
            Modifier::Control => ModifierSet { control: true, ..self },
            Modifier::Shift => ModifierSet { shift: true, ..self },
            Modifier::Alt => ModifierSet { alt: true, ..self },
            Modifier::Super => ModifierSet { super_key: true, ..self },
        }
    }
}

/// The letter keys: `KeyA`, `A` or `a` name the A key, and so on.
pub open spec fn letter_code(k: Seq<char>) -> Option<KeyCode> {
    if k == "KeyA"@ || k == "A"@ || k == "a"@ {
        Some(KeyCode::KeyA)
    } else if k == "KeyB"@ || k == "B"@ || k == "b"@ {
        Some(KeyCode::KeyB)
    } else if k == "KeyC"@ || k == "C"@ || k == "c"@ {
        Some(KeyCode::KeyC)
    } else if k == "KeyD"@ || k == "D"@ || k == "d"@ {
        Some(KeyCode::KeyD)
    } else if k == "KeyE"@ || k == "E"@ || k == "e"@ {
        Some(KeyCode::KeyE)
    } else if k == "KeyF"@ || k == "F"@ || k == "f"@ {
        Some(KeyCode::KeyF)
    } else if k == "KeyG"@ || k == "G"@ || k == "g"@ {
        Some(KeyCode::KeyG)
    } else if k == "KeyH"@ || k == "H"@ || k == "h"@ {
        Some(KeyCode::KeyH)
    } else if k == "KeyI"@ || k == "I"@ || k == "i"@ {
        Some(KeyCode::KeyI)
    } else if k == "KeyJ"@ || k == "J"@ || k == "j"@ {
        Some(KeyCode::KeyJ)
    } else if k == "KeyK"@ || k == "K"@ || k == "k"@ {
        Some(KeyCode::KeyK)
    } else if k == "KeyL"@ || k == "L"@ || k == "l"@ {
        Some(KeyCode::KeyL)
    } else if k == "KeyM"@ || k == "M"@ || k == "m"@ {
        Some(KeyCode::KeyM)
    } else if k == "KeyN"@ || k == "N"@ || k == "n"@ {
        Some(KeyCode::KeyN)
    } else if k == "KeyO"@ || k == "O"@ || k == "o"@ {
        Some(KeyCode::KeyO)
    } else if k == "KeyP"@ || k == "P"@ || k == "p"@ {
        Some(KeyCode::KeyP)
    } else if k == "KeyQ"@ || k == "Q"@ || k == "q"@ {
        Some(KeyCode::KeyQ)
    } else if k == "KeyR"@ || k == "R"@ || k == "r"@ {
        Some(KeyCode::KeyR)
    } else if k == "KeyS"@ || k == "S"@ || k == "s"@ {
        Some(KeyCode::KeyS)
    } else if k == "KeyT"@ || k == "T"@ || k == "t"@ {
        Some(KeyCode::KeyT)
    } else if k == "KeyU"@ || k == "U"@ || k == "u"@ {
        Some(KeyCode::KeyU)
    } else if k == "KeyV"@ || k == "V"@ || k == "v"@ {
        Some(KeyCode::KeyV)
    } else if k == "KeyW"@ || k == "W"@ || k == "w"@ {
        Some(KeyCode::KeyW)
    } else if k == "KeyX"@ || k == "X"@ || k == "x"@ {
        Some(KeyCode::KeyX)
    } else if k == "KeyY"@ || k == "Y"@ || k == "y"@ {
        Some(KeyCode::KeyY)
    } else if k == "KeyZ"@ || k == "Z"@ || k == "z"@ {
        Some(KeyCode::KeyZ)
    } else {
        None
    }
}

/// The letter keys: `KeyA`, `A` or `a` name the A key, and so on.
fn letter_code_exec(k: &Vec<char>) -> (r: Option<KeyCode>)
    ensures
        r == letter_code(k@),
{
    if spells(k, "KeyA") || spells(k, "A") || spells(k, "a") {
        Some(KeyCode::KeyA)
    } else if spells(k, "KeyB") || spells(k, "B") || spells(k, "b") {
        Some(KeyCode::KeyB)
    } else if spells(k, "KeyC") || spells(k, "C") || spells(k, "c") {
        Some(KeyCode::KeyC)
    } else if spells(k, "KeyD") || spells(k, "D") || spells(k, "d") {
        Some(KeyCode::KeyD)
    } else if spells(k, "KeyE") || spells(k, "E") || spells(k, "e") {
        Some(KeyCode::KeyE)
    } else if spells(k, "KeyF") || spells(k, "F") || spells(k, "f") {
        Some(KeyCode::KeyF)
    } else if spells(k, "KeyG") || spells(k, "G") || spells(k, "g") {
        Some(KeyCode::KeyG)
    } else if spells(k, "KeyH") || spells(k, "H") || spells(k, "h") {
        Some(KeyCode::KeyH)
    } else if spells(k, "KeyI") || spells(k, "I") || spells(k, "i") {
        Some(KeyCode::KeyI)
    } else if spells(k, "KeyJ") || spells(k, "J") || spells(k, "j") {
        Some(KeyCode::KeyJ)
    } else if spells(k, "KeyK") || spells(k, "K") || spells(k, "k") {
        Some(KeyCode::KeyK)
    } else if spells(k, "KeyL") || spells(k, "L") || spells(k, "l") {
        Some(KeyCode::KeyL)
    } else if spells(k, "KeyM") || spells(k, "M") || spells(k, "m") {
        Some(KeyCode::KeyM)
    } else if spells(k, "KeyN") || spells(k, "N") || spells(k, "n") {
        Some(KeyCode::KeyN)
    } else if spells(k, "KeyO") || spells(k, "O") || spells(k, "o") {
        Some(KeyCode::KeyO)
    } else if spells(k, "KeyP") || spells(k, "P") || spells(k, "p") {
        Some(KeyCode::KeyP)
    } else if spells(k, "KeyQ") || spells(k, "Q") || spells(k, "q") {
        Some(KeyCode::KeyQ)
    } else if spells(k, "KeyR") || spells(k, "R") || spells(k, "r") {
        Some(KeyCode::KeyR)
    } else if spells(k, "KeyS") || spells(k, "S") || spells(k, "s") {
        Some(KeyCode::KeyS)
    } else if spells(k, "KeyT") || spells(k, "T") || spells(k, "t") {
        Some(KeyCode::KeyT)
    } else if spells(k, "KeyU") || spells(k, "U") || spells(k, "u") {
        Some(KeyCode::KeyU)
    } else if spells(k, "KeyV") || spells(k, "V") || spells(k, "v") {
        Some(KeyCode::KeyV)
    } else if spells(k, "KeyW") || spells(k, "W") || spells(k, "w") {
        Some(KeyCode::KeyW)
    } else if spells(k, "KeyX") || spells(k, "X") || spells(k, "x") {
        Some(KeyCode::KeyX)
    } else if spells(k, "KeyY") || spells(k, "Y") || spells(k, "y") {
        Some(KeyCode::KeyY)
    } else if spells(k, "KeyZ") || spells(k, "Z") || spells(k, "z") {
        Some(KeyCode::KeyZ)
    } else {
        None
    }
}

/// The digit keys: `Digit0` or `0`, and so on.
pub open spec fn digit_code(k: Seq<char>) -> Option<KeyCode> {
    if k == "Digit0"@ || k == "0"@ {
        Some(KeyCode::Digit0)
    } else if k == "Digit1"@ || k == "1"@ {
        Some(KeyCode::Digit1)
    } else if k == "Digit2"@ || k == "2"@ {
        Some(KeyCode::Digit2)
    } else if k == "Digit3"@ || k == "3"@ {
        Some(KeyCode::Digit3)
    } else if k == "Digit4"@ || k == "4"@ {
        Some(KeyCode::Digit4)
    } else if k == "Digit5"@ || k == "5"@ {
        Some(KeyCode::Digit5)
    } else if k == "Digit6"@ || k == "6"@ {
        Some(KeyCode::Digit6)
    } else if k == "Digit7"@ || k == "7"@ {
        Some(KeyCode::Digit7)
    } else if k == "Digit8"@ || k == "8"@ {
        Some(KeyCode::Digit8)
    } else if k == "Digit9"@ || k == "9"@ {
        Some(KeyCode::Digit9)
    } else {
        None
    }
}

/// The digit keys: `Digit0` or `0`, and so on.
fn digit_code_exec(k: &Vec<char>) -> (r: Option<KeyCode>)
    ensures
        r == digit_code(k@),
{
    if spells(k, "Digit0") || spells(k, "0") {
        Some(KeyCode::Digit0)
    } else if spells(k, "Digit1") || spells(k, "1") {
        Some(KeyCode::Digit1)
    } else if spells(k, "Digit2") || spells(k, "2") {
        Some(KeyCode::Digit2)
    } else if spells(k, "Digit3") || spells(k, "3") {
        Some(KeyCode::Digit3)
    } else if spells(k, "Digit4") || spells(k, "4") {
        Some(KeyCode::Digit4)
    } else if spells(k, "Digit5") || spells(k, "5") {
        Some(KeyCode::Digit5)
    } else if spells(k, "Digit6") || spells(k, "6") {
        Some(KeyCode::Digit6)
    } else if spells(k, "Digit7") || spells(k, "7") {
        Some(KeyCode::Digit7)
    } else if spells(k, "Digit8") || spells(k, "8") {
        Some(KeyCode::Digit8)
    } else if spells(k, "Digit9") || spells(k, "9") {
        Some(KeyCode::Digit9)
    } else {
        None
    }
}

/// The function keys `F1` to `F12`.
pub open spec fn function_code(k: Seq<char>) -> Option<KeyCode> {
    if k == "F1"@ {
        Some(KeyCode::F1)
    } else if k == "F2"@ {
        Some(KeyCode::F2)
    } else if k == "F3"@ {
        Some(KeyCode::F3)
    } else if k == "F4"@ {
        Some(KeyCode::F4)
    } else if k == "F5"@ {
        Some(KeyCode::F5)
    } else if k == "F6"@ {
        Some(KeyCode::F6)
    } else if k == "F7"@ {
        Some(KeyCode::F7)
    } else if k == "F8"@ {
        Some(KeyCode::F8)
    } else if k == "F9"@ {
        Some(KeyCode::F9)
    } else if k == "F10"@ {
        Some(KeyCode::F10)
    } else if k == "F11"@ {
        Some(KeyCode::F11)
    } else if k == "F12"@ {
        Some(KeyCode::F12)
    } else {
        None
    }
}

/// The function keys `F1` to `F12`.
fn function_code_exec(k: &Vec<char>) -> (r: Option<KeyCode>)
    ensures
        r == function_code(k@),
{
    if spells(k, "F1") {
        Some(KeyCode::F1)
    } else if spells(k, "F2") {
        Some(KeyCode::F2)
    } else if spells(k, "F3") {
        Some(KeyCode::F3)
    } else if spells(k, "F4") {
        Some(KeyCode::F4)
    } else if spells(k, "F5") {
        Some(KeyCode::F5)
    } else if spells(k, "F6") {
        Some(KeyCode::F6)
    } else if spells(k, "F7") {
        Some(KeyCode::F7)
    } else if spells(k, "F8") {
        Some(KeyCode::F8)
    } else if spells(k, "F9") {
        Some(KeyCode::F9)
    } else if spells(k, "F10") {
        Some(KeyCode::F10)
    } else if spells(k, "F11") {
        Some(KeyCode::F11)
    } else if spells(k, "F12") {
        Some(KeyCode::F12)
    } else {
        None
    }
}

/// The named keys, with their short names.
pub open spec fn named_code(k: Seq<char>) -> Option<KeyCode> {
    if k == "Space"@ || k == " "@ {
        Some(KeyCode::Space)
    } else if k == "Escape"@ || k == "Esc"@ {
        Some(KeyCode::Escape)
    } else if k == "Enter"@ || k == "Return"@ {
        Some(KeyCode::Enter)
    } else if k == "Tab"@ {
        Some(KeyCode::Tab)
    } else if k == "Backspace"@ {
        Some(KeyCode::Backspace)
    } else if k == "Delete"@ || k == "Del"@ {
        Some(KeyCode::Delete)
    } else if k == "Insert"@ || k == "Ins"@ {
        Some(KeyCode::Insert)
    } else if k == "Home"@ {
        Some(KeyCode::Home)
    } else if k == "End"@ {
        Some(KeyCode::End)
    } else if k == "PageUp"@ || k == "PgUp"@ {
        Some(KeyCode::PageUp)
    } else if k == "PageDown"@ || k == "PgDn"@ {
        Some(KeyCode::PageDown)
    } else if k == "ArrowUp"@ || k == "Up"@ {
        Some(KeyCode::ArrowUp)
    } else if k == "ArrowDown"@ || k == "Down"@ {
        Some(KeyCode::ArrowDown)
    } else if k == "ArrowLeft"@ || k == "Left"@ {
        Some(KeyCode::ArrowLeft)
    } else if k == "ArrowRight"@ || k == "Right"@ {
        Some(KeyCode::ArrowRight)
    } else {
        None
    }
}

/// The named keys, with their short names.
fn named_code_exec(k: &Vec<char>) -> (r: Option<KeyCode>)
    ensures
        r == named_code(k@),
{
    if spells(k, "Space") || spells(k, " ") {
        Some(KeyCode::Space)
    } else if spells(k, "Escape") || spells(k, "Esc") {
        Some(KeyCode::Escape)
    } else if spells(k, "Enter") || spells(k, "Return") {
        Some(KeyCode::Enter)
    } else if spells(k, "Tab") {
        Some(KeyCode::Tab)
    } else if spells(k, "Backspace") {
        Some(KeyCode::Backspace)
    } else if spells(k, "Delete") || spells(k, "Del") {
        Some(KeyCode::Delete)
    } else if spells(k, "Insert") || spells(k, "Ins") {
        Some(KeyCode::Insert)
    } else if spells(k, "Home") {
        Some(KeyCode::Home)
    } else if spells(k, "End") {
        Some(KeyCode::End)
    } else if spells(k, "PageUp") || spells(k, "PgUp") {
        Some(KeyCode::PageUp)
    } else if spells(k, "PageDown") || spells(k, "PgDn") {
        Some(KeyCode::PageDown)
    } else if spells(k, "ArrowUp") || spells(k, "Up") {
        Some(KeyCode::ArrowUp)
    } else if spells(k, "ArrowDown") || spells(k, "Down") {
        Some(KeyCode::ArrowDown)
    } else if spells(k, "ArrowLeft") || spells(k, "Left") {
        Some(KeyCode::ArrowLeft)
    } else if spells(k, "ArrowRight") || spells(k, "Right") {
        Some(KeyCode::ArrowRight)
    } else {
        None
    }
}

/// The punctuation keys, by name or by the character they type.
pub open spec fn symbol_code(k: Seq<char>) -> Option<KeyCode> {
    if k == "Comma"@ || k == ","@ {
        Some(KeyCode::Comma)
    } else if k == "Period"@ || k == "."@ {
        Some(KeyCode::Period)
    } else if k == "Slash"@ || k == "/"@ {
        Some(KeyCode::Slash)
    } else if k == "Backslash"@ || k == "\\"@ {
        Some(KeyCode::Backslash)
    } else if k == "Semicolon"@ || k == ";"@ {
        Some(KeyCode::Semicolon)
    } else if k == "Quote"@ || k == "\""@ {
        Some(KeyCode::Quote)
    } else if k == "BracketLeft"@ || k == "["@ {
        Some(KeyCode::BracketLeft)
    } else if k == "BracketRight"@ || k == "]"@ {
        Some(KeyCode::BracketRight)
    } else if k == "Minus"@ || k == "-"@ {
        Some(KeyCode::Minus)
    } else if k == "Equal"@ || k == "="@ {
        Some(KeyCode::Equal)
    } else if k == "Backquote"@ || k == "`"@ {
        Some(KeyCode::Backquote)
    } else {
        None
    }
}

/// The punctuation keys, by name or by the character they type.
fn symbol_code_exec(k: &Vec<char>) -> (r: Option<KeyCode>)
    ensures
        r == symbol_code(k@),
{
    if spells(k, "Comma") || spells(k, ",") {
        Some(KeyCode::Comma)
    } else if spells(k, "Period") || spells(k, ".") {
        Some(KeyCode::Period)
    } else if spells(k, "Slash") || spells(k, "/") {
        Some(KeyCode::Slash)
    } else if spells(k, "Backslash") || spells(k, "\\") {
        Some(KeyCode::Backslash)
    } else if spells(k, "Semicolon") || spells(k, ";") {
        Some(KeyCode::Semicolon)
    } else if spells(k, "Quote") || spells(k, "\"") {
        Some(KeyCode::Quote)
    } else if spells(k, "BracketLeft") || spells(k, "[") {
        Some(KeyCode::BracketLeft)
    } else if spells(k, "BracketRight") || spells(k, "]") {
        Some(KeyCode::BracketRight)
    } else if spells(k, "Minus") || spells(k, "-") {
        Some(KeyCode::Minus)
    } else if spells(k, "Equal") || spells(k, "=") {
        Some(KeyCode::Equal)
    } else if spells(k, "Backquote") || spells(k, "`") {
        Some(KeyCode::Backquote)
    } else {
        None
    }
}

/// The main key that `k` names, if any.
pub open spec fn key_code_of(k: Seq<char>) -> Option<KeyCode> {
    if letter_code(k) is Some {
        letter_code(k)
    } else if digit_code(k) is Some {
        digit_code(k)
    } else if function_code(k) is Some {
        function_code(k)
    } else if named_code(k) is Some {
        named_code(k)
    } else {
        symbol_code(k)
    }
}

/// The message for a key name that names no key.
pub open spec fn unsupported_key_message(key: Seq<char>) -> Seq<char> {
    "不支持的按键: "@ + key
}

/// The main key that `key` names.
pub fn parse_code(key: &str) -> (r: Result<KeyCode, String>)
    ensures
        match r {
            Ok(c) => key_code_of(key@) == Some(c),
            Err(m) => key_code_of(key@) is None && m@ == unsupported_key_message(key@),
        },
{
    let k = chars_of(key);
    let found = if let Some(c) = letter_code_exec(&k) {
        Some(c)
    } else if let Some(c) = digit_code_exec(&k) {
        Some(c)
    } else if let Some(c) = function_code_exec(&k) {
        Some(c)
    } else if let Some(c) = named_code_exec(&k) {
        Some(c)
    } else {
        symbol_code_exec(&k)
    };
    match found {
        Some(c) => Ok(c),
        None => Err(String::from_str("不支持的按键: ").concat(key)),
    }
}

/// The modifier that `part` names, if any.
pub open spec fn modifier_of(part: Seq<char>) -> Option<Modifier> {
    if part == "Ctrl"@ || part == "Control"@ {
        Some(Modifier::Control)
    } else if part == "Shift"@ {
        Some(Modifier::Shift)
    } else if part == "Alt"@ {
        Some(Modifier::Alt)
    } else if part == "Super"@ || part == "Meta"@ || part == "Win"@ {
        Some(Modifier::Super)
    } else {
        None
    }
}

/// The modifier that `part` names, if any.
fn modifier_exec(part: &Vec<char>) -> (r: Option<Modifier>)
    ensures
        r == modifier_of(part@),
{
    if spells(part, "Ctrl") || spells(part, "Control") {
        Some(Modifier::Control)
    } else if spells(part, "Shift") {
        Some(Modifier::Shift)
    } else if spells(part, "Alt") {
        Some(Modifier::Alt)
    } else if spells(part, "Super") || spells(part, "Meta") || spells(part, "Win") {
        Some(Modifier::Super)
    } else {
        None
    }
}

/// The message for a shortcut with no or too many parts.
pub open spec fn invalid_shortcut_message(s: Seq<char>) -> Seq<char> {
    "无效的快捷键: "@ + s
}

/// The message for a shortcut with two main keys.
pub open spec fn two_keys_message(s: Seq<char>) -> Seq<char> {
    "快捷键不能有多个主键: "@ + s
}

/// The message for a shortcut without a main key.
pub open spec fn no_key_message(s: Seq<char>) -> Seq<char> {
    "快捷键缺少主键: "@ + s
}

/// The parts of a shortcut string: the pieces between `+` signs, trimmed.
pub open spec fn shortcut_parts(s: Seq<char>) -> Seq<Seq<char>> {
    split_on(s, '+').map_values(|p: Seq<char>| trim(p))
}

/// Reading one more part of shortcut `s`, with modifiers `m` and main key
/// `code` so far: a modifier name adds the modifier; any other part is the
/// main key, which must be the first and must name a key.
pub open spec fn read_part(m: ModifierSet, code: Option<KeyCode>, part: Seq<char>, s: Seq<char>) -> Result<
    (ModifierSet, Option<KeyCode>),
    Seq<char>,
> {
    match modifier_of(part) {
        Some(md) => Ok((m.with(md), code)),
        None => if code is Some {
            Err(two_keys_message(s))
        } else {
            match key_code_of(part) {
                Some(k) => Ok((m, Some(k))),
                None => Err(unsupported_key_message(part)),
            }
        },
    }
}

/// Reading the parts of shortcut `s` in order; the first refused part
/// gives the error.
pub open spec fn read_parts(parts: Seq<Seq<char>>, s: Seq<char>) -> Result<
    (ModifierSet, Option<KeyCode>),
    Seq<char>,
>
    decreases parts.len(),
{
    if parts.len() == 0 {
        Ok((ModifierSet::none(), None))
    } else {
        match read_parts(parts.drop_last(), s) {
            Ok((m, code)) => read_part(m, code, parts.last(), s),
            Err(e) => Err(e),
        }
    }
}

/// What the shortcut string `s` parses to: at most five parts, modifiers
/// in any order and exactly one main key; or the message saying why not.
pub open spec fn shortcut_of(s: Seq<char>) -> Result<Shortcut, Seq<char>> {
    let parts = shortcut_parts(s);
    if parts.len() == 0 || parts.len() > 5 {
        Err(invalid_shortcut_message(s))
    } else {
        match read_parts(parts, s) {
            Ok((m, Some(k))) => Ok(Shortcut { modifiers: m, code: k }),
            Ok((m, None)) => Err(no_key_message(s)),
            Err(e) => Err(e),
        }
    }
}

/// Parses a shortcut string such as `Ctrl+Shift+V`.
pub fn parse_shortcut_str(s: &str) -> (r: Result<Shortcut, String>)
    ensures
        match r {
            Ok(sc) => shortcut_of(s@) == Ok::<Shortcut, Seq<char>>(sc),
            Err(m) => shortcut_of(s@) == Err::<Shortcut, Seq<char>>(m@),
        },
{
    let cs = chars_of(s);
    let pieces = split_chars(&cs, '+');
    let ghost parts = shortcut_parts(s@);
    assert(parts.len() == pieces@.len());
    if pieces.len() == 0 || pieces.len() > 5 {
        return Err(String::from_str("无效的快捷键: ").concat(s));
    }
    let mut modifiers = ModifierSet { control: false, shift: false, alt: false, super_key: false };
    let mut code: Option<KeyCode> = None;
    let mut i: usize = 0;
    while i < pieces.len()
        invariant
            i <= pieces@.len(),
            parts == shortcut_parts(s@),
            parts.len() == pieces@.len(),
            0 < parts.len() <= 5,
            views_of(pieces@) == split_on(s@, '+'),
            read_parts(parts.take(i as int), s@) == Ok::<
                (ModifierSet, Option<KeyCode>),
                Seq<char>,
            >((modifiers, code)),
        decreases pieces.len() - i,
    {
        let part = trim_chars(&pieces[i]);
        assert(part@ == parts[i as int]);
        assert(parts.take(i + 1).drop_last() =~= parts.take(i as int));
        assert(parts.take(i + 1).last() == part@);
        match modifier_exec(&part) {
            Some(Modifier::Control) => {
                modifiers.control = true;
            },
            Some(Modifier::Shift) => {
                modifiers.shift = true;
            },
            Some(Modifier::Alt) => {
                modifiers.alt = true;
            },
            Some(Modifier::Super) => {
                modifiers.super_key = true;
            },
            None => {
                if code.is_some() {
                    assert(read_parts(parts.take(i + 1), s@) == Err::<
                        (ModifierSet, Option<KeyCode>),
                        Seq<char>,
                    >(two_keys_message(s@)));
                    proof {
                        lemma_read_parts_err_stays(parts, i as int + 1, s@);
                    }
                    return Err(String::from_str("快捷键不能有多个主键: ").concat(s));
                }
                let key = string_of(&part);
                match parse_code(key.as_str()) {
                    Ok(k) => {
                        code = Some(k);
                    },
                    Err(m) => {
                        assert(read_parts(parts.take(i + 1), s@) == Err::<
                            (ModifierSet, Option<KeyCode>),
                            Seq<char>,
                        >(unsupported_key_message(part@)));
                        proof {
                            lemma_read_parts_err_stays(parts, i as int + 1, s@);
                        }
                        return Err(m);
                    },
                }
            },
        }
        i = i + 1;
    }
    assert(parts.take(parts.len() as int) =~= parts);
    match code {
        Some(k) => Ok(Shortcut { modifiers: modifiers, code: k }),
        None => Err(String::from_str("快捷键缺少主键: ").concat(s)),
    }
}

/// Once reading a prefix of the parts fails, reading all of them fails
/// with the same message.
pub proof fn lemma_read_parts_err_stays(parts: Seq<Seq<char>>, i: int, s: Seq<char>)
    requires
        0 <= i <= parts.len(),
        read_parts(parts.take(i), s) is Err,
    ensures
        read_parts(parts, s) == read_parts(parts.take(i), s),
    decreases parts.len() - i,
{
    if i < parts.len() {
        assert(parts.take(i + 1).drop_last() =~= parts.take(i));
        lemma_read_parts_err_stays(parts, i + 1, s);
    } else {
        assert(parts.take(i) =~= parts);
    }
}

/// Whether `parts` holds a modifier part naming `md`.
pub open spec fn has_modifier(parts: Seq<Seq<char>>, md: Modifier) -> bool {
    exists|i: int| 0 <= i < parts.len() && modifier_of(#[trigger] parts[i]) == Some(md)
}

/// The modifiers that the parts name.
pub open spec fn gathered(parts: Seq<Seq<char>>) -> ModifierSet {
    ModifierSet {
        control: has_modifier(parts, Modifier::Control),
        shift: has_modifier(parts, Modifier::Shift),
        alt: has_modifier(parts, Modifier::Alt),
        super_key: has_modifier(parts, Modifier::Super),
    }
}

/// Whether some part is not a modifier, i.e. is meant as the main key.
pub open spec fn has_key_part(parts: Seq<Seq<char>>) -> bool {
    exists|i: int| 0 <= i < parts.len() && modifier_of(#[trigger] parts[i]) is None
}

/// The key that the (first) non-modifier part names, if there is one.
pub open spec fn key_of(parts: Seq<Seq<char>>) -> Option<KeyCode> {
    if has_key_part(parts) {
        key_code_of(
            parts[choose|i: int| 0 <= i < parts.len() && modifier_of(#[trigger] parts[i]) is None],
        )
    } else {
        None
    }
}

/// Whether every non-modifier part names a key and at most one part is
/// not a modifier.
pub open spec fn parts_fine(parts: Seq<Seq<char>>) -> bool {
    &&& forall|i: int|
        0 <= i < parts.len() && modifier_of(#[trigger] parts[i]) is None ==> key_code_of(
            parts[i],
        ) is Some
    &&& forall|i: int, j: int|
        0 <= i < parts.len() && 0 <= j < parts.len() && modifier_of(#[trigger] parts[i]) is None
            && modifier_of(#[trigger] parts[j]) is None ==> i == j
}

/// Reading parts in order succeeds exactly when the parts are fine, and
/// then gives the modifiers they name and the key of the non-modifier part.
pub proof fn lemma_read_parts_meaning(parts: Seq<Seq<char>>, s: Seq<char>)
    ensures
        (read_parts(parts, s) is Ok) == parts_fine(parts),
        parts_fine(parts) ==> read_parts(parts, s) == Ok::<
            (ModifierSet, Option<KeyCode>),
            Seq<char>,
        >((gathered(parts), key_of(parts))),
    decreases parts.len(),
{
    if parts.len() == 0 {
        assert(gathered(parts) == ModifierSet::none());
    } else {
        let n = parts.len() as int;
        let p0 = parts.drop_last();
        let x = parts.last();
        lemma_read_parts_meaning(p0, s);
        assert forall|i: int| 0 <= i < p0.len() implies #[trigger] p0[i] == parts[i] by {}
        if !parts_fine(p0) {
            if forall|i: int|
                0 <= i < p0.len() && modifier_of(#[trigger] p0[i]) is None ==> key_code_of(
                    p0[i],
                ) is Some {
                let (i, j) = choose|i: int, j: int|
                    0 <= i < p0.len() && 0 <= j < p0.len() && modifier_of(#[trigger] p0[i]) is None
                        && modifier_of(#[trigger] p0[j]) is None && i != j;
                assert(p0[i] == parts[i] && p0[j] == parts[j]);
            } else {
                let i = choose|i: int|
                    0 <= i < p0.len() && modifier_of(#[trigger] p0[i]) is None && key_code_of(
                        p0[i],
                    ) is None;
                assert(p0[i] == parts[i]);
            }
            assert(!parts_fine(parts));
        } else {
            let m = gathered(p0);
            let c = key_of(p0);
            assert(parts[n - 1] == x);
            match modifier_of(x) {
                Some(md) => {
                    assert forall|i: int| 0 <= i < parts.len() && modifier_of(#[trigger] parts[i]) is None
                        implies key_code_of(parts[i]) is Some by {
                        assert(i < n - 1);
                        assert(p0[i] == parts[i]);
                    }
                    assert forall|i: int, j: int|
                        0 <= i < parts.len() && 0 <= j < parts.len() && modifier_of(
                            #[trigger] parts[i],
                        ) is None && modifier_of(#[trigger] parts[j]) is None implies i == j by {
                        assert(p0[i] == parts[i] && p0[j] == parts[j]);
                    }
                    assert forall|mm: Modifier| has_modifier(parts, mm) == (has_modifier(p0, mm)
                        || md == mm) by {
                        if has_modifier(parts, mm) {
                            let i = choose|i: int|
                                0 <= i < parts.len() && modifier_of(#[trigger] parts[i]) == Some(mm);
                            if i < n - 1 {
                                assert(p0[i] == parts[i]);
                            }
                        }
                        if has_modifier(p0, mm) {
                            let i = choose|i: int|
                                0 <= i < p0.len() && modifier_of(#[trigger] p0[i]) == Some(mm);
                            assert(p0[i] == parts[i]);
                        }
                    }
                    assert(gathered(parts) == m.with(md));
                    assert(has_key_part(parts) == has_key_part(p0)) by {
                        if has_key_part(parts) {
                            let i = choose|i: int|
                                0 <= i < parts.len() && modifier_of(#[trigger] parts[i]) is None;
                            assert(p0[i] == parts[i]);
                        }
                        if has_key_part(p0) {
                            let i = choose|i: int|
                                0 <= i < p0.len() && modifier_of(#[trigger] p0[i]) is None;
                            assert(p0[i] == parts[i]);
                        }
                    }
                    if has_key_part(parts) {
                        let i = choose|i: int|
                            0 <= i < parts.len() && modifier_of(#[trigger] parts[i]) is None;
                        let j = choose|j: int| 0 <= j < p0.len() && modifier_of(#[trigger] p0[j]) is None;
                        assert(p0[j] == parts[j]);
                        assert(i == j);
                    }
                    assert(key_of(parts) == c);
                },
                None => {
                    assert(modifier_of(parts[n - 1]) is None);
                    if c is Some {
                        assert(has_key_part(p0));
                        let j = choose|j: int| 0 <= j < p0.len() && modifier_of(#[trigger] p0[j]) is None;
                        assert(p0[j] == parts[j]);
                        assert(!parts_fine(parts));
                    } else {
                        assert(!has_key_part(p0));
                        assert forall|i: int| 0 <= i < n - 1 implies modifier_of(
                            #[trigger] parts[i],
                        ) is Some by {
                            assert(p0[i] == parts[i]);
                        }
                        if key_code_of(x) is None {
                            assert(!parts_fine(parts));
                        } else {
                            assert forall|i: int|
                                0 <= i < parts.len() && modifier_of(#[trigger] parts[i]) is None
                                implies i == n - 1 by {}
                            assert(has_key_part(parts));
                            let i = choose|i: int|
                                0 <= i < parts.len() && modifier_of(#[trigger] parts[i]) is None;
                            assert(i == n - 1);
                            assert(key_of(parts) == key_code_of(x));
                            assert forall|mm: Modifier| has_modifier(parts, mm) == has_modifier(
                                p0,
                                mm,
                            ) by {
                                if has_modifier(parts, mm) {
                                    let i = choose|i: int|
                                        0 <= i < parts.len() && modifier_of(#[trigger] parts[i])
                                            == Some(mm);
                                    assert(i < n - 1);
                                    assert(p0[i] == parts[i]);
                                }
                                if has_modifier(p0, mm) {
                                    let i = choose|i: int|
                                        0 <= i < p0.len() && modifier_of(#[trigger] p0[i]) == Some(
                                            mm,
                                        );
                                    assert(p0[i] == parts[i]);
                                }
                            }
                            assert(gathered(parts) == m);
                        }
                    }
                },
            }
        }
    }
}

/// Reordering the parts of a shortcut, or padding them with white space,
/// changes nothing: if the trimmed parts of `t` are those of `s` in
/// another order (`f` maps each part of `t` to its part of `s`, `g` back),
/// then `t` parses exactly when `s` does, and to the same shortcut.
pub proof fn lemma_shortcut_order_free(
    s: Seq<char>,
    t: Seq<char>,
    f: spec_fn(int) -> int,
    g: spec_fn(int) -> int,
)
    requires
        shortcut_parts(t).len() == shortcut_parts(s).len(),
        forall|i: int|
            0 <= i < shortcut_parts(t).len() ==> {
                &&& 0 <= #[trigger] f(i) < shortcut_parts(s).len()
                &&& g(f(i)) == i
                &&& shortcut_parts(t)[i] == shortcut_parts(s)[f(i)]
            },
        forall|j: int|
            0 <= j < shortcut_parts(s).len() ==> 0 <= #[trigger] g(j) < shortcut_parts(t).len()
                && f(g(j)) == j,
    ensures
        (shortcut_of(t) is Ok) == (shortcut_of(s) is Ok),
        shortcut_of(s) is Ok ==> shortcut_of(t) == shortcut_of(s),
{
    let ps = shortcut_parts(s);
    let pt = shortcut_parts(t);
    lemma_read_parts_meaning(ps, s);
    lemma_read_parts_meaning(pt, t);
    // Being fine carries over both ways.
    assert(parts_fine(pt) == parts_fine(ps)) by {
        if parts_fine(ps) {
            assert forall|i: int| 0 <= i < pt.len() && modifier_of(#[trigger] pt[i]) is None implies key_code_of(
                pt[i],
            ) is Some by {
                assert(pt[i] == ps[f(i)]);
            }
            assert forall|i: int, j: int|
                0 <= i < pt.len() && 0 <= j < pt.len() && modifier_of(#[trigger] pt[i]) is None
                    && modifier_of(#[trigger] pt[j]) is None implies i == j by {
                assert(pt[i] == ps[f(i)] && pt[j] == ps[f(j)]);
                assert(f(i) == f(j));
            }
        }
        if parts_fine(pt) {
            assert forall|j: int| 0 <= j < ps.len() && modifier_of(#[trigger] ps[j]) is None implies key_code_of(
                ps[j],
            ) is Some by {
                assert(pt[g(j)] == ps[f(g(j))]);
            }
            assert forall|i: int, j: int|
                0 <= i < ps.len() && 0 <= j < ps.len() && modifier_of(#[trigger] ps[i]) is None
                    && modifier_of(#[trigger] ps[j]) is None implies i == j by {
                assert(pt[g(i)] == ps[f(g(i))] && pt[g(j)] == ps[f(g(j))]);
                assert(g(i) == g(j));
            }
        }
    }
    assert forall|mm: Modifier| has_modifier(pt, mm) == has_modifier(ps, mm) by {
        if has_modifier(pt, mm) {
            let i = choose|i: int| 0 <= i < pt.len() && modifier_of(#[trigger] pt[i]) == Some(mm);
            assert(pt[i] == ps[f(i)]);
        }
        if has_modifier(ps, mm) {
            let j = choose|j: int| 0 <= j < ps.len() && modifier_of(#[trigger] ps[j]) == Some(mm);
            assert(pt[g(j)] == ps[f(g(j))]);
        }
    }
    assert(gathered(pt) == gathered(ps));
    assert(has_key_part(pt) == has_key_part(ps)) by {
        if has_key_part(pt) {
            let i = choose|i: int| 0 <= i < pt.len() && modifier_of(#[trigger] pt[i]) is None;
            assert(pt[i] == ps[f(i)]);
        }
        if has_key_part(ps) {
            let j = choose|j: int| 0 <= j < ps.len() && modifier_of(#[trigger] ps[j]) is None;
            assert(pt[g(j)] == ps[f(g(j))]);
        }
    }
    if parts_fine(ps) && has_key_part(ps) {
        let i = choose|i: int| 0 <= i < pt.len() && modifier_of(#[trigger] pt[i]) is None;
        let j = choose|j: int| 0 <= j < ps.len() && modifier_of(#[trigger] ps[j]) is None;
        assert(pt[i] == ps[f(i)]);
        assert(f(i) == j);
        assert(key_of(pt) == key_of(ps));
    }
}

/// The letter a letter key types, in upper case; none for other keys.
pub open spec fn letter_of(k: KeyCode) -> Option<char> {
    match k {
        KeyCode::KeyA => Some('A'),
        KeyCode::KeyB => Some('B'),
        KeyCode::KeyC => Some('C'),
        KeyCode::KeyD => Some('D'),
        KeyCode::KeyE => Some('E'),
        KeyCode::KeyF => Some('F'),
        KeyCode::KeyG => Some('G'),
        KeyCode::KeyH => Some('H'),
        KeyCode::KeyI => Some('I'),
        KeyCode::KeyJ => Some('J'),
        KeyCode::KeyK => Some('K'),
        KeyCode::KeyL => Some('L'),
        KeyCode::KeyM => Some('M'),
        KeyCode::KeyN => Some('N'),
        KeyCode::KeyO => Some('O'),
        KeyCode::KeyP => Some('P'),
        KeyCode::KeyQ => Some('Q'),
        KeyCode::KeyR => Some('R'),
        KeyCode::KeyS => Some('S'),
        KeyCode::KeyT => Some('T'),
        KeyCode::KeyU => Some('U'),
        KeyCode::KeyV => Some('V'),
        KeyCode::KeyW => Some('W'),
        KeyCode::KeyX => Some('X'),
        KeyCode::KeyY => Some('Y'),
        KeyCode::KeyZ => Some('Z'),
        _ => None,
    }
}

/// The digit a digit key types; none for other keys.
pub open spec fn digit_of(k: KeyCode) -> Option<char> {
    match k {
        KeyCode::Digit0 => Some('0'),
        KeyCode::Digit1 => Some('1'),
        KeyCode::Digit2 => Some('2'),
        KeyCode::Digit3 => Some('3'),
        KeyCode::Digit4 => Some('4'),
        KeyCode::Digit5 => Some('5'),
        KeyCode::Digit6 => Some('6'),
        KeyCode::Digit7 => Some('7'),
        KeyCode::Digit8 => Some('8'),
        KeyCode::Digit9 => Some('9'),
        _ => None,
    }
}

/// What the letter key names spell, character by character.
proof fn lemma_letter_names()
    ensures
        "KeyA"@.len() == 4 && "KeyA"@[0] == 'K' && "KeyA"@[1] == 'e' && "KeyA"@[2] == 'y' && "KeyA"@[3] == 'A',
        "A"@.len() == 1 && "A"@[0] == 'A',
        "a"@.len() == 1 && "a"@[0] == 'a',
        "KeyB"@.len() == 4 && "KeyB"@[0] == 'K' && "KeyB"@[1] == 'e' && "KeyB"@[2] == 'y' && "KeyB"@[3] == 'B',
        "B"@.len() == 1 && "B"@[0] == 'B',
        "b"@.len() == 1 && "b"@[0] == 'b',
        "KeyC"@.len() == 4 && "KeyC"@[0] == 'K' && "KeyC"@[1] == 'e' && "KeyC"@[2] == 'y' && "KeyC"@[3] == 'C',
        "C"@.len() == 1 && "C"@[0] == 'C',
        "c"@.len() == 1 && "c"@[0] == 'c',
        "KeyD"@.len() == 4 && "KeyD"@[0] == 'K' && "KeyD"@[1] == 'e' && "KeyD"@[2] == 'y' && "KeyD"@[3] == 'D',
        "D"@.len() == 1 && "D"@[0] == 'D',
        "d"@.len() == 1 && "d"@[0] == 'd',
        "KeyE"@.len() == 4 && "KeyE"@[0] == 'K' && "KeyE"@[1] == 'e' && "KeyE"@[2] == 'y' && "KeyE"@[3] == 'E',
        "E"@.len() == 1 && "E"@[0] == 'E',
        "e"@.len() == 1 && "e"@[0] == 'e',
        "KeyF"@.len() == 4 && "KeyF"@[0] == 'K' && "KeyF"@[1] == 'e' && "KeyF"@[2] == 'y' && "KeyF"@[3] == 'F',
        "F"@.len() == 1 && "F"@[0] == 'F',
        "f"@.len() == 1 && "f"@[0] == 'f',
        "KeyG"@.len() == 4 && "KeyG"@[0] == 'K' && "KeyG"@[1] == 'e' && "KeyG"@[2] == 'y' && "KeyG"@[3] == 'G',
        "G"@.len() == 1 && "G"@[0] == 'G',
        "g"@.len() == 1 && "g"@[0] == 'g',
        "KeyH"@.len() == 4 && "KeyH"@[0] == 'K' && "KeyH"@[1] == 'e' && "KeyH"@[2] == 'y' && "KeyH"@[3] == 'H',
        "H"@.len() == 1 && "H"@[0] == 'H',
        "h"@.len() == 1 && "h"@[0] == 'h',
        "KeyI"@.len() == 4 && "KeyI"@[0] == 'K' && "KeyI"@[1] == 'e' && "KeyI"@[2] == 'y' && "KeyI"@[3] == 'I',
        "I"@.len() == 1 && "I"@[0] == 'I',
        "i"@.len() == 1 && "i"@[0] == 'i',
        "KeyJ"@.len() == 4 && "KeyJ"@[0] == 'K' && "KeyJ"@[1] == 'e' && "KeyJ"@[2] == 'y' && "KeyJ"@[3] == 'J',
        "J"@.len() == 1 && "J"@[0] == 'J',
        "j"@.len() == 1 && "j"@[0] == 'j',
        "KeyK"@.len() == 4 && "KeyK"@[0] == 'K' && "KeyK"@[1] == 'e' && "KeyK"@[2] == 'y' && "KeyK"@[3] == 'K',
        "K"@.len() == 1 && "K"@[0] == 'K',
        "k"@.len() == 1 && "k"@[0] == 'k',
        "KeyL"@.len() == 4 && "KeyL"@[0] == 'K' && "KeyL"@[1] == 'e' && "KeyL"@[2] == 'y' && "KeyL"@[3] == 'L',
        "L"@.len() == 1 && "L"@[0] == 'L',
        "l"@.len() == 1 && "l"@[0] == 'l',
        "KeyM"@.len() == 4 && "KeyM"@[0] == 'K' && "KeyM"@[1] == 'e' && "KeyM"@[2] == 'y' && "KeyM"@[3] == 'M',
        "M"@.len() == 1 && "M"@[0] == 'M',
        "m"@.len() == 1 && "m"@[0] == 'm',
        "KeyN"@.len() == 4 && "KeyN"@[0] == 'K' && "KeyN"@[1] == 'e' && "KeyN"@[2] == 'y' && "KeyN"@[3] == 'N',
        "N"@.len() == 1 && "N"@[0] == 'N',
        "n"@.len() == 1 && "n"@[0] == 'n',
        "KeyO"@.len() == 4 && "KeyO"@[0] == 'K' && "KeyO"@[1] == 'e' && "KeyO"@[2] == 'y' && "KeyO"@[3] == 'O',
        "O"@.len() == 1 && "O"@[0] == 'O',
        "o"@.len() == 1 && "o"@[0] == 'o',
        "KeyP"@.len() == 4 && "KeyP"@[0] == 'K' && "KeyP"@[1] == 'e' && "KeyP"@[2] == 'y' && "KeyP"@[3] == 'P',
        "P"@.len() == 1 && "P"@[0] == 'P',
        "p"@.len() == 1 && "p"@[0] == 'p',
        "KeyQ"@.len() == 4 && "KeyQ"@[0] == 'K' && "KeyQ"@[1] == 'e' && "KeyQ"@[2] == 'y' && "KeyQ"@[3] == 'Q',
        "Q"@.len() == 1 && "Q"@[0] == 'Q',
        "q"@.len() == 1 && "q"@[0] == 'q',
        "KeyR"@.len() == 4 && "KeyR"@[0] == 'K' && "KeyR"@[1] == 'e' && "KeyR"@[2] == 'y' && "KeyR"@[3] == 'R',
        "R"@.len() == 1 && "R"@[0] == 'R',
        "r"@.len() == 1 && "r"@[0] == 'r',
        "KeyS"@.len() == 4 && "KeyS"@[0] == 'K' && "KeyS"@[1] == 'e' && "KeyS"@[2] == 'y' && "KeyS"@[3] == 'S',
        "S"@.len() == 1 && "S"@[0] == 'S',
        "s"@.len() == 1 && "s"@[0] == 's',
        "KeyT"@.len() == 4 && "KeyT"@[0] == 'K' && "KeyT"@[1] == 'e' && "KeyT"@[2] == 'y' && "KeyT"@[3] == 'T',
        "T"@.len() == 1 && "T"@[0] == 'T',
        "t"@.len() == 1 && "t"@[0] == 't',
        "KeyU"@.len() == 4 && "KeyU"@[0] == 'K' && "KeyU"@[1] == 'e' && "KeyU"@[2] == 'y' && "KeyU"@[3] == 'U',
        "U"@.len() == 1 && "U"@[0] == 'U',
        "u"@.len() == 1 && "u"@[0] == 'u',
        "KeyV"@.len() == 4 && "KeyV"@[0] == 'K' && "KeyV"@[1] == 'e' && "KeyV"@[2] == 'y' && "KeyV"@[3] == 'V',
        "V"@.len() == 1 && "V"@[0] == 'V',
        "v"@.len() == 1 && "v"@[0] == 'v',
        "KeyW"@.len() == 4 && "KeyW"@[0] == 'K' && "KeyW"@[1] == 'e' && "KeyW"@[2] == 'y' && "KeyW"@[3] == 'W',
        "W"@.len() == 1 && "W"@[0] == 'W',
        "w"@.len() == 1 && "w"@[0] == 'w',
        "KeyX"@.len() == 4 && "KeyX"@[0] == 'K' && "KeyX"@[1] == 'e' && "KeyX"@[2] == 'y' && "KeyX"@[3] == 'X',
        "X"@.len() == 1 && "X"@[0] == 'X',
        "x"@.len() == 1 && "x"@[0] == 'x',
        "KeyY"@.len() == 4 && "KeyY"@[0] == 'K' && "KeyY"@[1] == 'e' && "KeyY"@[2] == 'y' && "KeyY"@[3] == 'Y',
        "Y"@.len() == 1 && "Y"@[0] == 'Y',
        "y"@.len() == 1 && "y"@[0] == 'y',
        "KeyZ"@.len() == 4 && "KeyZ"@[0] == 'K' && "KeyZ"@[1] == 'e' && "KeyZ"@[2] == 'y' && "KeyZ"@[3] == 'Z',
        "Z"@.len() == 1 && "Z"@[0] == 'Z',
        "z"@.len() == 1 && "z"@[0] == 'z',
{
    reveal_strlit("KeyA");
    reveal_strlit("A");
    reveal_strlit("a");
    reveal_strlit("KeyB");
    reveal_strlit("B");
    reveal_strlit("b");
    reveal_strlit("KeyC");
    reveal_strlit("C");
    reveal_strlit("c");
    reveal_strlit("KeyD");
    reveal_strlit("D");
    reveal_strlit("d");
    reveal_strlit("KeyE");
    reveal_strlit("E");
    reveal_strlit("e");
    reveal_strlit("KeyF");
    reveal_strlit("F");
    reveal_strlit("f");
    reveal_strlit("KeyG");
    reveal_strlit("G");
    reveal_strlit("g");
    reveal_strlit("KeyH");
    reveal_strlit("H");
    reveal_strlit("h");
    reveal_strlit("KeyI");
    reveal_strlit("I");
    reveal_strlit("i");
    reveal_strlit("KeyJ");
    reveal_strlit("J");
    reveal_strlit("j");
    reveal_strlit("KeyK");
    reveal_strlit("K");
    reveal_strlit("k");
    reveal_strlit("KeyL");
    reveal_strlit("L");
    reveal_strlit("l");
    reveal_strlit("KeyM");
    reveal_strlit("M");
    reveal_strlit("m");
    reveal_strlit("KeyN");
    reveal_strlit("N");
    reveal_strlit("n");
    reveal_strlit("KeyO");
    reveal_strlit("O");
    reveal_strlit("o");
    reveal_strlit("KeyP");
    reveal_strlit("P");
    reveal_strlit("p");
    reveal_strlit("KeyQ");
    reveal_strlit("Q");
    reveal_strlit("q");
    reveal_strlit("KeyR");
    reveal_strlit("R");
    reveal_strlit("r");
    reveal_strlit("KeyS");
    reveal_strlit("S");
    reveal_strlit("s");
    reveal_strlit("KeyT");
    reveal_strlit("T");
    reveal_strlit("t");
    reveal_strlit("KeyU");
    reveal_strlit("U");
    reveal_strlit("u");
    reveal_strlit("KeyV");
    reveal_strlit("V");
    reveal_strlit("v");
    reveal_strlit("KeyW");
    reveal_strlit("W");
    reveal_strlit("w");
    reveal_strlit("KeyX");
    reveal_strlit("X");
    reveal_strlit("x");
    reveal_strlit("KeyY");
    reveal_strlit("Y");
    reveal_strlit("y");
    reveal_strlit("KeyZ");
    reveal_strlit("Z");
    reveal_strlit("z");
}

/// Every letter names its own key: for an upper-case letter `u` and its
/// lower-case form `l`, the names `Key` + `u`, `u` and `l` all give the
/// same key, and that key types `u`.
pub proof fn lemma_letter_keys(u: char, l: char)
    requires
        'A' <= u <= 'Z',
        l as int == u as int + 32,
    ensures
        key_code_of(seq![u]) matches Some(k) && letter_of(k) == Some(u),
        key_code_of(seq!['K', 'e', 'y', u]) == key_code_of(seq![u]),
        key_code_of(seq![l]) == key_code_of(seq![u]),
{
    lemma_letter_names();
    let k1 = seq![u];
    let k2 = seq!['K', 'e', 'y', u];
    let k3 = seq![l];
    assert(k1.len() == 1 && k1[0] == u);
    assert(k2.len() == 4 && k2[0] == 'K' && k2[1] == 'e' && k2[2] == 'y' && k2[3] == u);
    assert(k3.len() == 1 && k3[0] == l);
    if u == 'A' {
        assert(k1 =~= "A"@);
        assert(k2 =~= "KeyA"@);
        assert(k3 =~= "a"@);
    } else if u == 'B' {
        assert(k1 =~= "B"@);
        assert(k2 =~= "KeyB"@);
        assert(k3 =~= "b"@);
    } else if u == 'C' {
        assert(k1 =~= "C"@);
        assert(k2 =~= "KeyC"@);
        assert(k3 =~= "c"@);
    } else if u == 'D' {
        assert(k1 =~= "D"@);
        assert(k2 =~= "KeyD"@);
        assert(k3 =~= "d"@);
    } else if u == 'E' {
        assert(k1 =~= "E"@);
        assert(k2 =~= "KeyE"@);
        assert(k3 =~= "e"@);
    } else if u == 'F' {
        assert(k1 =~= "F"@);
        assert(k2 =~= "KeyF"@);
        assert(k3 =~= "f"@);
    } else if u == 'G' {
        assert(k1 =~= "G"@);
        assert(k2 =~= "KeyG"@);
        assert(k3 =~= "g"@);
    } else if u == 'H' {
        assert(k1 =~= "H"@);
        assert(k2 =~= "KeyH"@);
        assert(k3 =~= "h"@);
    } else if u == 'I' {
        assert(k1 =~= "I"@);
        assert(k2 =~= "KeyI"@);
        assert(k3 =~= "i"@);
    } else if u == 'J' {
        assert(k1 =~= "J"@);
        assert(k2 =~= "KeyJ"@);
        assert(k3 =~= "j"@);
    } else if u == 'K' {
        assert(k1 =~= "K"@);
        assert(k2 =~= "KeyK"@);
        assert(k3 =~= "k"@);
    } else if u == 'L' {
        assert(k1 =~= "L"@);
        assert(k2 =~= "KeyL"@);
        assert(k3 =~= "l"@);
    } else if u == 'M' {
        assert(k1 =~= "M"@);
        assert(k2 =~= "KeyM"@);
        assert(k3 =~= "m"@);
    } else if u == 'N' {
        assert(k1 =~= "N"@);
        assert(k2 =~= "KeyN"@);
        assert(k3 =~= "n"@);
    } else if u == 'O' {
        assert(k1 =~= "O"@);
        assert(k2 =~= "KeyO"@);
        assert(k3 =~= "o"@);
    } else if u == 'P' {
        assert(k1 =~= "P"@);
        assert(k2 =~= "KeyP"@);
        assert(k3 =~= "p"@);
    } else if u == 'Q' {
        assert(k1 =~= "Q"@);
        assert(k2 =~= "KeyQ"@);
        assert(k3 =~= "q"@);
    } else if u == 'R' {
        assert(k1 =~= "R"@);
        assert(k2 =~= "KeyR"@);
        assert(k3 =~= "r"@);
    } else if u == 'S' {
        assert(k1 =~= "S"@);
        assert(k2 =~= "KeyS"@);
        assert(k3 =~= "s"@);
    } else if u == 'T' {
        assert(k1 =~= "T"@);
        assert(k2 =~= "KeyT"@);
        assert(k3 =~= "t"@);
    } else if u == 'U' {
        assert(k1 =~= "U"@);
        assert(k2 =~= "KeyU"@);
        assert(k3 =~= "u"@);
    } else if u == 'V' {
        assert(k1 =~= "V"@);
        assert(k2 =~= "KeyV"@);
        assert(k3 =~= "v"@);
    } else if u == 'W' {
        assert(k1 =~= "W"@);
        assert(k2 =~= "KeyW"@);
        assert(k3 =~= "w"@);
    } else if u == 'X' {
        assert(k1 =~= "X"@);
        assert(k2 =~= "KeyX"@);
        assert(k3 =~= "x"@);
    } else if u == 'Y' {
        assert(k1 =~= "Y"@);
        assert(k2 =~= "KeyY"@);
        assert(k3 =~= "y"@);
    } else if u == 'Z' {
        assert(k1 =~= "Z"@);
        assert(k2 =~= "KeyZ"@);
        assert(k3 =~= "z"@);
    }
}


/// Distinct letters name distinct keys, in either case.
pub proof fn lemma_letter_keys_distinct(u: char, l: char, v: char, m: char)
    requires
        'A' <= u <= 'Z',
        l as int == u as int + 32,
        'A' <= v <= 'Z',
        m as int == v as int + 32,
        u != v,
    ensures
        key_code_of(seq![u]) != key_code_of(seq![v]),
        key_code_of(seq![l]) != key_code_of(seq![m]),
        key_code_of(seq!['K', 'e', 'y', u]) != key_code_of(seq!['K', 'e', 'y', v]),
{
    lemma_letter_keys(u, l);
    lemma_letter_keys(v, m);
}

/// What the digit key names spell, character by character.
proof fn lemma_digit_names()
    ensures
        "Digit0"@.len() == 6 && "Digit0"@[0] == 'D' && "Digit0"@[1] == 'i' && "Digit0"@[2] == 'g' && "Digit0"@[3] == 'i' && "Digit0"@[4] == 't' && "Digit0"@[5] == '0',
        "0"@.len() == 1 && "0"@[0] == '0',
        "Digit1"@.len() == 6 && "Digit1"@[0] == 'D' && "Digit1"@[1] == 'i' && "Digit1"@[2] == 'g' && "Digit1"@[3] == 'i' && "Digit1"@[4] == 't' && "Digit1"@[5] == '1',
        "1"@.len() == 1 && "1"@[0] == '1',
        "Digit2"@.len() == 6 && "Digit2"@[0] == 'D' && "Digit2"@[1] == 'i' && "Digit2"@[2] == 'g' && "Digit2"@[3] == 'i' && "Digit2"@[4] == 't' && "Digit2"@[5] == '2',
        "2"@.len() == 1 && "2"@[0] == '2',
        "Digit3"@.len() == 6 && "Digit3"@[0] == 'D' && "Digit3"@[1] == 'i' && "Digit3"@[2] == 'g' && "Digit3"@[3] == 'i' && "Digit3"@[4] == 't' && "Digit3"@[5] == '3',
        "3"@.len() == 1 && "3"@[0] == '3',
        "Digit4"@.len() == 6 && "Digit4"@[0] == 'D' && "Digit4"@[1] == 'i' && "Digit4"@[2] == 'g' && "Digit4"@[3] == 'i' && "Digit4"@[4] == 't' && "Digit4"@[5] == '4',
        "4"@.len() == 1 && "4"@[0] == '4',
        "Digit5"@.len() == 6 && "Digit5"@[0] == 'D' && "Digit5"@[1] == 'i' && "Digit5"@[2] == 'g' && "Digit5"@[3] == 'i' && "Digit5"@[4] == 't' && "Digit5"@[5] == '5',
        "5"@.len() == 1 && "5"@[0] == '5',
        "Digit6"@.len() == 6 && "Digit6"@[0] == 'D' && "Digit6"@[1] == 'i' && "Digit6"@[2] == 'g' && "Digit6"@[3] == 'i' && "Digit6"@[4] == 't' && "Digit6"@[5] == '6',
        "6"@.len() == 1 && "6"@[0] == '6',
        "Digit7"@.len() == 6 && "Digit7"@[0] == 'D' && "Digit7"@[1] == 'i' && "Digit7"@[2] == 'g' && "Digit7"@[3] == 'i' && "Digit7"@[4] == 't' && "Digit7"@[5] == '7',
        "7"@.len() == 1 && "7"@[0] == '7',
        "Digit8"@.len() == 6 && "Digit8"@[0] == 'D' && "Digit8"@[1] == 'i' && "Digit8"@[2] == 'g' && "Digit8"@[3] == 'i' && "Digit8"@[4] == 't' && "Digit8"@[5] == '8',
        "8"@.len() == 1 && "8"@[0] == '8',
        "Digit9"@.len() == 6 && "Digit9"@[0] == 'D' && "Digit9"@[1] == 'i' && "Digit9"@[2] == 'g' && "Digit9"@[3] == 'i' && "Digit9"@[4] == 't' && "Digit9"@[5] == '9',
        "9"@.len() == 1 && "9"@[0] == '9',
{
    reveal_strlit("Digit0");
    reveal_strlit("0");
    reveal_strlit("Digit1");
    reveal_strlit("1");
    reveal_strlit("Digit2");
    reveal_strlit("2");
    reveal_strlit("Digit3");
    reveal_strlit("3");
    reveal_strlit("Digit4");
    reveal_strlit("4");
    reveal_strlit("Digit5");
    reveal_strlit("5");
    reveal_strlit("Digit6");
    reveal_strlit("6");
    reveal_strlit("Digit7");
    reveal_strlit("7");
    reveal_strlit("Digit8");
    reveal_strlit("8");
    reveal_strlit("Digit9");
    reveal_strlit("9");
}

/// Every digit names its own key: the names `Digit` + `d` and `d` give
/// the same key, and that key types `d`.
pub proof fn lemma_digit_keys(d: char)
    requires
        '0' <= d <= '9',
    ensures
        key_code_of(seq![d]) matches Some(k) && digit_of(k) == Some(d),
        key_code_of(seq!['D', 'i', 'g', 'i', 't', d]) == key_code_of(seq![d]),
{
    lemma_letter_names();
    lemma_digit_names();
    let k1 = seq![d];
    let k2 = seq!['D', 'i', 'g', 'i', 't', d];
    assert(k1.len() == 1 && k1[0] == d);
    assert(k2.len() == 6 && k2[0] == 'D' && k2[1] == 'i' && k2[2] == 'g' && k2[3] == 'i' && k2[4] == 't' && k2[5] == d);
    if d == '0' {
        assert(k1 =~= "0"@);
        assert(k2 =~= "Digit0"@);
    } else if d == '1' {
        assert(k1 =~= "1"@);
        assert(k2 =~= "Digit1"@);
    } else if d == '2' {
        assert(k1 =~= "2"@);
        assert(k2 =~= "Digit2"@);
    } else if d == '3' {
        assert(k1 =~= "3"@);
        assert(k2 =~= "Digit3"@);
    } else if d == '4' {
        assert(k1 =~= "4"@);
        assert(k2 =~= "Digit4"@);
    } else if d == '5' {
        assert(k1 =~= "5"@);
        assert(k2 =~= "Digit5"@);
    } else if d == '6' {
        assert(k1 =~= "6"@);
        assert(k2 =~= "Digit6"@);
    } else if d == '7' {
        assert(k1 =~= "7"@);
        assert(k2 =~= "Digit7"@);
    } else if d == '8' {
        assert(k1 =~= "8"@);
        assert(k2 =~= "Digit8"@);
    } else if d == '9' {
        assert(k1 =~= "9"@);
        assert(k2 =~= "Digit9"@);
    }
}

/// Distinct digits name distinct keys.
pub proof fn lemma_digit_keys_distinct(d: char, e: char)
    requires
        '0' <= d <= '9',
        '0' <= e <= '9',
        d != e,
    ensures
        key_code_of(seq![d]) != key_code_of(seq![e]),
{
    lemma_digit_keys(d);
    lemma_digit_keys(e);
}

} // verus!
