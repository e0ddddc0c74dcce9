//! Input events: keys, mouse buttons and their states.
use vstd::prelude::*;

verus! {

/// Mouse buttons.
#[derive(Copy, Clone, Debug, Eq, PartialEq, Structural)]
pub enum MouseButton {
    Left,
    Middle,
    Right,
    Other(u16),
    Back,
    Forward,
}

/// Whether a key or button went down or up.
#[derive(Copy, Clone, Debug, Eq, PartialEq, Structural)]
pub enum KeyState {
    Pressed,
    Released,
}

/// State of the modifier keys.
#[allow(unused)]
#[derive(Copy, Clone, Debug)]
pub struct ModifierState {
    pub(crate) shift: bool,
    pub(crate) alt: bool,
    pub(crate) ctrl: bool,
}

/// Keyboard keys, by their position on a US layout. Keys without a name of
/// their own are `NotImplemented`.
#[derive(Hash, Eq, PartialEq, Debug, Copy, Clone, Structural)]
pub enum Key {
    Escape,
    F1,
    F2,
    F3,
    F4,
    F5,
    F6,
    F7,
    F8,
    F9,
    F10,
    F11,
    F12,
    Grave,
    Key1,
    Key2,
    Key3,
    Key4,
    Key5,
    Key6,
    Key7,
    Key8,
    Key9,
    Key0,
    Minus,
    Equals,
    BackSpace,
    Tab,
    Q,
    W,
    E,
    R,
    T,
    Y,
    U,
    I,
    O,
    P,
    LBracket,
    RBracket,
    BackSlash,
    CapsLock,
    A,
    S,
    D,
    F,
    G,
    H,
    J,
    K,
    L,
    SemiColon,
    Apostrophe,
    Enter,
    LShift,
    Z,
    X,
    C,
    V,
    B,
    N,
    M,
    Comma,
    Period,
    ForwardSlash,
    RShift,
    LCtrl,
    LWin,
    LAlt,
    Space,
    RAlt,
    RWin,
    RCtrl,
    PrintScreen,
    ScrollLock,
    Pause,
    Insert,
    Home,
    PageUp,
    Delete,
    End,
    PageDown,
    Up,
    Left,
    Down,
    Right,
    NumLock,
    NumDivide,
    NumMultiply,
    NumSubtract,
    Num7,
    Num8,
    Num9,
    NumAdd,
    Num4,
    Num5,
    Num6,
    Num1,
    Num2,
    Num3,
    NumEnter,
    Num0,
    NumDecimal,
    NotImplemented,
}

/// The number that identifies `key`: its position in the list of keys.
pub open spec fn key_code(key: Key) -> u32 {
    match key {
        Key::Escape => 0,
        Key::F1 => 1,
        Key::F2 => 2,
        Key::F3 => 3,
        Key::F4 => 4,
        Key::F5 => 5,
        Key::F6 => 6,
        Key::F7 => 7,
        Key::F8 => 8,
        Key::F9 => 9,
        Key::F10 => 10,
        Key::F11 => 11,
        Key::F12 => 12,
        Key::Grave => 13,
        Key::Key1 => 14,
        Key::Key2 => 15,
        Key::Key3 => 16,
        Key::Key4 => 17,
        Key::Key5 => 18,
        Key::Key6 => 19,
        Key::Key7 => 20,
        Key::Key8 => 21,
        Key::Key9 => 22,
        Key::Key0 => 23,
        Key::Minus => 24,
        Key::Equals => 25,
        Key::BackSpace => 26,
        Key::Tab => 27,
        Key::Q => 28,
        Key::W => 29,
        Key::E => 30,
        Key::R => 31,
        Key::T => 32,
        Key::Y => 33,
        Key::U => 34,
        Key::I => 35,
        Key::O => 36,
        Key::P => 37,
        Key::LBracket => 38,
        Key::RBracket => 39,
        Key::BackSlash => 40,
        Key::CapsLock => 41,
        Key::A => 42,
        Key::S => 43,
        Key::D => 44,
        Key::F => 45,
        Key::G => 46,
        Key::H => 47,
        Key::J => 48,
        Key::K => 49,
        Key::L => 50,
        Key::SemiColon => 51,
        Key::Apostrophe => 52,
        Key::Enter => 53,
        Key::LShift => 54,
        Key::Z => 55,
        Key::X => 56,
        Key::C => 57,
        Key::V => 58,
        Key::B => 59,
        Key::N => 60,
        Key::M => 61,
        Key::Comma => 62,
        Key::Period => 63,
        Key::ForwardSlash => 64,
        Key::RShift => 65,
        Key::LCtrl => 66,
        Key::LWin => 67,
        Key::LAlt => 68,
        Key::Space => 69,
        Key::RAlt => 70,
        Key::RWin => 71,
        Key::RCtrl => 72,
        Key::PrintScreen => 73,
        Key::ScrollLock => 74,
        Key::Pause => 75,
        Key::Insert => 76,
        Key::Home => 77,
        Key::PageUp => 78,
        Key::Delete => 79,
        Key::End => 80,
        Key::PageDown => 81,
        Key::Up => 82,
        Key::Left => 83,
        Key::Down => 84,
        Key::Right => 85,
        Key::NumLock => 86,
        Key::NumDivide => 87,
        Key::NumMultiply => 88,
        Key::NumSubtract => 89,
        Key::Num7 => 90,
        Key::Num8 => 91,
        Key::Num9 => 92,
        Key::NumAdd => 93,
        Key::Num4 => 94,
        Key::Num5 => 95,
        Key::Num6 => 96,
        Key::Num1 => 97,
        Key::Num2 => 98,
        Key::Num3 => 99,
        Key::NumEnter => 100,
        Key::Num0 => 101,
        Key::NumDecimal => 102,
        Key::NotImplemented => 103,
    }
}

/// The key that `code` identifies; codes past the last named key stand for
/// `NotImplemented`.
pub open spec fn key_of_code(code: u32) -> Key {
    match code {
        0 => Key::Escape,
        1 => Key::F1,
        2 => Key::F2,
        3 => Key::F3,
        4 => Key::F4,
        5 => Key::F5,
        6 => Key::F6,
        7 => Key::F7,
        8 => Key::F8,
        9 => Key::F9,
        10 => Key::F10,
        11 => Key::F11,
        12 => Key::F12,
        13 => Key::Grave,
        14 => Key::Key1,
        15 => Key::Key2,
        16 => Key::Key3,
        17 => Key::Key4,
        18 => Key::Key5,
        19 => Key::Key6,
        20 => Key::Key7,
        21 => Key::Key8,
        22 => Key::Key9,
        23 => Key::Key0,
        24 => Key::Minus,
        25 => Key::Equals,
        26 => Key::BackSpace,
        27 => Key::Tab,
        28 => Key::Q,
        29 => Key::W,
        30 => Key::E,
        31 => Key::R,
        32 => Key::T,
        33 => Key::Y,
        34 => Key::U,
        35 => Key::I,
        36 => Key::O,
        37 => Key::P,
        38 => Key::LBracket,
        39 => Key::RBracket,
        40 => Key::BackSlash,
        41 => Key::CapsLock,
        42 => Key::A,
        43 => Key::S,
        44 => Key::D,
        45 => Key::F,
        46 => Key::G,
        47 => Key::H,
        48 => Key::J,
        49 => Key::K,
        50 => Key::L,
        51 => Key::SemiColon,
        52 => Key::Apostrophe,
        53 => Key::Enter,
        54 => Key::LShift,
        55 => Key::Z,
        56 => Key::X,
        57 => Key::C,
        58 => Key::V,
        59 => Key::B,
        60 => Key::N,
        61 => Key::M,
        62 => Key::Comma,
        63 => Key::Period,
        64 => Key::ForwardSlash,
        65 => Key::RShift,
        66 => Key::LCtrl,
        67 => Key::LWin,
        68 => Key::LAlt,
        69 => Key::Space,
        70 => Key::RAlt,
        71 => Key::RWin,
        72 => Key::RCtrl,
        73 => Key::PrintScreen,
        74 => Key::ScrollLock,
        75 => Key::Pause,
        76 => Key::Insert,
        77 => Key::Home,
        78 => Key::PageUp,
        79 => Key::Delete,
        80 => Key::End,
        81 => Key::PageDown,
        82 => Key::Up,
        83 => Key::Left,
        84 => Key::Down,
        85 => Key::Right,
        86 => Key::NumLock,
        87 => Key::NumDivide,
        88 => Key::NumMultiply,
        89 => Key::NumSubtract,
        90 => Key::Num7,
        91 => Key::Num8,
        92 => Key::Num9,
        93 => Key::NumAdd,
        94 => Key::Num4,
        95 => Key::Num5,
        96 => Key::Num6,
        97 => Key::Num1,
        98 => Key::Num2,
        99 => Key::Num3,
        100 => Key::NumEnter,
        101 => Key::Num0,
        102 => Key::NumDecimal,
        _ => Key::NotImplemented,
    }
}

/// Every key is recovered from its code.
pub proof fn lemma_key_code_inverse(key: Key)
    ensures
        key_of_code(key_code(key)) == key,
{
}

/// Different keys have different codes.
pub proof fn lemma_key_code_injective(a: Key, b: Key)
    ensures
        key_code(a) == key_code(b) <==> a == b,
{
    lemma_key_code_inverse(a);
    lemma_key_code_inverse(b);
}

impl Key {
    /// The number that identifies this key.
    pub fn code(&self) -> (c: u32)
        ensures
            c == key_code(*self),
    {
        match self {
            Key::Escape => 0,
            Key::F1 => 1,
            Key::F2 => 2,
            Key::F3 => 3,
            Key::F4 => 4,
            Key::F5 => 5,
            Key::F6 => 6,
            Key::F7 => 7,
            Key::F8 => 8,
            Key::F9 => 9,
            Key::F10 => 10,
            Key::F11 => 11,
            Key::F12 => 12,
            Key::Grave => 13,
            Key::Key1 => 14,
            Key::Key2 => 15,
            Key::Key3 => 16,
            Key::Key4 => 17,
            Key::Key5 => 18,
            Key::Key6 => 19,
            Key::Key7 => 20,
            Key::Key8 => 21,
            Key::Key9 => 22,
            Key::Key0 => 23,
            Key::Minus => 24,
            Key::Equals => 25,
            Key::BackSpace => 26,
            Key::Tab => 27,
            Key::Q => 28,
            Key::W => 29,
            Key::E => 30,
            Key::R => 31,
            Key::T => 32,
            Key::Y => 33,
            Key::U => 34,
            Key::I => 35,
            Key::O => 36,
            Key::P => 37,
            Key::LBracket => 38,
            Key::RBracket => 39,
            Key::BackSlash => 40,
            Key::CapsLock => 41,
            Key::A => 42,
            Key::S => 43,
            Key::D => 44,
            Key::F => 45,
            Key::G => 46,
            Key::H => 47,
            Key::J => 48,
            Key::K => 49,
            Key::L => 50,
            Key::SemiColon => 51,
            Key::Apostrophe => 52,
            Key::Enter => 53,
            Key::LShift => 54,
            Key::Z => 55,
            Key::X => 56,
            Key::C => 57,
            Key::V => 58,
            Key::B => 59,
            Key::N => 60,
            Key::M => 61,
            Key::Comma => 62,
            Key::Period => 63,
            Key::ForwardSlash => 64,
            Key::RShift => 65,
            Key::LCtrl => 66,
            Key::LWin => 67,
            Key::LAlt => 68,
            Key::Space => 69,
            Key::RAlt => 70,
            Key::RWin => 71,
            Key::RCtrl => 72,
            Key::PrintScreen => 73,
            Key::ScrollLock => 74,
            Key::Pause => 75,
            Key::Insert => 76,
            Key::Home => 77,
            Key::PageUp => 78,
            Key::Delete => 79,
            Key::End => 80,
            Key::PageDown => 81,
            Key::Up => 82,
            Key::Left => 83,
            Key::Down => 84,
            Key::Right => 85,
            Key::NumLock => 86,
            Key::NumDivide => 87,
            Key::NumMultiply => 88,
            Key::NumSubtract => 89,
            Key::Num7 => 90,
            Key::Num8 => 91,
            Key::Num9 => 92,
            Key::NumAdd => 93,
            Key::Num4 => 94,
            Key::Num5 => 95,
            Key::Num6 => 96,
            Key::Num1 => 97,
            Key::Num2 => 98,
            Key::Num3 => 99,
            Key::NumEnter => 100,
            Key::Num0 => 101,
            Key::NumDecimal => 102,
            Key::NotImplemented => 103,
        }
    }
}

} // verus!
