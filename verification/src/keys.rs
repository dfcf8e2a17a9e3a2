//! Virtual-key codes and the physical keys that stand for them.
use vstd::prelude::*;

verus! {
/// The virtual-key code `VK_BACK`.
pub const VK_BACK: u16 = 0x08;
/// The virtual-key code `VK_TAB`.
pub const VK_TAB: u16 = 0x09;
/// The virtual-key code `VK_RETURN`.
pub const VK_RETURN: u16 = 0x0D;
/// The virtual-key code `VK_SHIFT`.
pub const VK_SHIFT: u16 = 0x10;
/// The virtual-key code `VK_CONTROL`.
pub const VK_CONTROL: u16 = 0x11;
/// The virtual-key code `VK_MENU`.
pub const VK_MENU: u16 = 0x12;
/// The virtual-key code `VK_CAPITAL`.
pub const VK_CAPITAL: u16 = 0x14;
/// The virtual-key code `VK_ESCAPE`.
pub const VK_ESCAPE: u16 = 0x1B;
/// The virtual-key code `VK_SPACE`.
pub const VK_SPACE: u16 = 0x20;
/// The virtual-key code `VK_PRIOR`.
pub const VK_PRIOR: u16 = 0x21;
/// The virtual-key code `VK_NEXT`.
pub const VK_NEXT: u16 = 0x22;
/// The virtual-key code `VK_END`.
pub const VK_END: u16 = 0x23;
/// The virtual-key code `VK_HOME`.
pub const VK_HOME: u16 = 0x24;
/// The virtual-key code `VK_LEFT`.
pub const VK_LEFT: u16 = 0x25;
/// The virtual-key code `VK_UP`.
pub const VK_UP: u16 = 0x26;
/// The virtual-key code `VK_RIGHT`.
pub const VK_RIGHT: u16 = 0x27;
/// The virtual-key code `VK_DOWN`.
pub const VK_DOWN: u16 = 0x28;
/// The virtual-key code `VK_INSERT`.
pub const VK_INSERT: u16 = 0x2D;
/// The virtual-key code `VK_DELETE`.
pub const VK_DELETE: u16 = 0x2E;
/// The virtual-key code `VK_LWIN`.
pub const VK_LWIN: u16 = 0x5B;
/// The virtual-key code `VK_RWIN`.
pub const VK_RWIN: u16 = 0x5C;
/// The virtual-key code `VK_F1`.
pub const VK_F1: u16 = 0x70;
/// The virtual-key code `VK_LSHIFT`.
pub const VK_LSHIFT: u16 = 0xA0;
/// The virtual-key code `VK_RSHIFT`.
pub const VK_RSHIFT: u16 = 0xA1;
/// The virtual-key code `VK_LCONTROL`.
pub const VK_LCONTROL: u16 = 0xA2;
/// The virtual-key code `VK_RCONTROL`.
pub const VK_RCONTROL: u16 = 0xA3;
/// The virtual-key code `VK_LMENU`.
pub const VK_LMENU: u16 = 0xA4;
/// The virtual-key code `VK_RMENU`.
pub const VK_RMENU: u16 = 0xA5;
/// The virtual-key code `VK_OEM_1`.
pub const VK_OEM_1: u16 = 0xBA;
/// The virtual-key code `VK_OEM_PLUS`.
pub const VK_OEM_PLUS: u16 = 0xBB;
/// The virtual-key code `VK_OEM_COMMA`.
pub const VK_OEM_COMMA: u16 = 0xBC;
/// The virtual-key code `VK_OEM_MINUS`.
pub const VK_OEM_MINUS: u16 = 0xBD;
/// The virtual-key code `VK_OEM_PERIOD`.
pub const VK_OEM_PERIOD: u16 = 0xBE;
/// The virtual-key code `VK_OEM_2`.
pub const VK_OEM_2: u16 = 0xBF;
/// The virtual-key code `VK_OEM_3`.
pub const VK_OEM_3: u16 = 0xC0;
/// The virtual-key code `VK_OEM_4`.
pub const VK_OEM_4: u16 = 0xDB;
/// The virtual-key code `VK_OEM_5`.
pub const VK_OEM_5: u16 = 0xDC;
/// The virtual-key code `VK_OEM_6`.
pub const VK_OEM_6: u16 = 0xDD;
/// The virtual-key code `VK_OEM_7`.
pub const VK_OEM_7: u16 = 0xDE;
/// The virtual-key code `VK_OEM_102`.
pub const VK_OEM_102: u16 = 0xE2;

/// A physical key whose state the keyboard reports.
#[derive(Clone, Copy, Debug, PartialEq, Eq, Structural, Hash)]
pub enum KeyCode {
    LControl,
    RControl,
    LAlt,
    RAlt,
    LShift,
    RShift,
    LMeta,
    RMeta,
    A,
    B,
    C,
    D,
    E,
    F,
    G,
    H,
    I,
    J,
    K,
    L,
    M,
    N,
    O,
    P,
    Q,
    R,
    S,
    T,
    U,
    V,
    W,
    X,
    Y,
    Z,
    Key0,
    Key1,
    Key2,
    Key3,
    Key4,
    Key5,
    Key6,
    Key7,
    Key8,
    Key9,
    F1,
    F2,
    F3,
    F4,
    F5,
    F6,
    F7,
    F8,
    F9,
    F10,
    F11,
    F12,
    F13,
    F14,
    F15,
    F16,
    F17,
    F18,
    F19,
    F20,
    Space,
    Enter,
    Tab,
    Backspace,
    Escape,
    Delete,
    Insert,
    Home,
    End,
    PageUp,
    PageDown,
    Up,
    Down,
    Left,
    Right,
    CapsLock,
    Comma,
    Dot,
    Slash,
    Semicolon,
    Apostrophe,
    LeftBracket,
    RightBracket,
    BackSlash,
    Grave,
    Minus,
    Equal,
}

/// The physical keys that stand for the virtual-key code `vk`; empty for a
/// code that has none.
pub open spec fn vk_keycodes(vk: u16) -> Seq<KeyCode> {
    match vk {
        0x11 => seq![KeyCode::LControl, KeyCode::RControl],  // VK_CONTROL
        0x12 => seq![KeyCode::LAlt, KeyCode::RAlt],  // VK_MENU
        0x10 => seq![KeyCode::LShift, KeyCode::RShift],  // VK_SHIFT
        0xA2 => seq![KeyCode::LControl],  // VK_LCONTROL
        0xA3 => seq![KeyCode::RControl],  // VK_RCONTROL
        0xA0 => seq![KeyCode::LShift],  // VK_LSHIFT
        0xA1 => seq![KeyCode::RShift],  // VK_RSHIFT
        0xA4 => seq![KeyCode::LAlt],  // VK_LMENU
        0xA5 => seq![KeyCode::RAlt],  // VK_RMENU
        0x5B => seq![KeyCode::LMeta],  // VK_LWIN
        0x5C => seq![KeyCode::RMeta],  // VK_RWIN
        0x41 => seq![KeyCode::A],
        0x42 => seq![KeyCode::B],
        0x43 => seq![KeyCode::C],
        0x44 => seq![KeyCode::D],
        0x45 => seq![KeyCode::E],
        0x46 => seq![KeyCode::F],
        0x47 => seq![KeyCode::G],
        0x48 => seq![KeyCode::H],
        0x49 => seq![KeyCode::I],
        0x4A => seq![KeyCode::J],
        0x4B => seq![KeyCode::K],
        0x4C => seq![KeyCode::L],
        0x4D => seq![KeyCode::M],
        0x4E => seq![KeyCode::N],
        0x4F => seq![KeyCode::O],
        0x50 => seq![KeyCode::P],
        0x51 => seq![KeyCode::Q],
        0x52 => seq![KeyCode::R],
        0x53 => seq![KeyCode::S],
        0x54 => seq![KeyCode::T],
        0x55 => seq![KeyCode::U],
        0x56 => seq![KeyCode::V],
        0x57 => seq![KeyCode::W],
        0x58 => seq![KeyCode::X],
        0x59 => seq![KeyCode::Y],
        0x5A => seq![KeyCode::Z],
        0x30 => seq![KeyCode::Key0],
        0x31 => seq![KeyCode::Key1],
        0x32 => seq![KeyCode::Key2],
        0x33 => seq![KeyCode::Key3],
        0x34 => seq![KeyCode::Key4],
        0x35 => seq![KeyCode::Key5],
        0x36 => seq![KeyCode::Key6],
        0x37 => seq![KeyCode::Key7],
        0x38 => seq![KeyCode::Key8],
        0x39 => seq![KeyCode::Key9],
        0x70 => seq![KeyCode::F1],
        0x71 => seq![KeyCode::F2],
        0x72 => seq![KeyCode::F3],
        0x73 => seq![KeyCode::F4],
        0x74 => seq![KeyCode::F5],
        0x75 => seq![KeyCode::F6],
        0x76 => seq![KeyCode::F7],
        0x77 => seq![KeyCode::F8],
        0x78 => seq![KeyCode::F9],
        0x79 => seq![KeyCode::F10],
        0x7A => seq![KeyCode::F11],
        0x7B => seq![KeyCode::F12],
        0x7C => seq![KeyCode::F13],
        0x7D => seq![KeyCode::F14],
        0x7E => seq![KeyCode::F15],
        0x7F => seq![KeyCode::F16],
        0x80 => seq![KeyCode::F17],
        0x81 => seq![KeyCode::F18],
        0x82 => seq![KeyCode::F19],
        0x83 => seq![KeyCode::F20],
        0x20 => seq![KeyCode::Space],  // VK_SPACE
        0x0D => seq![KeyCode::Enter],  // VK_RETURN
        0x09 => seq![KeyCode::Tab],  // VK_TAB
        0x08 => seq![KeyCode::Backspace],  // VK_BACK
        0x1B => seq![KeyCode::Escape],  // VK_ESCAPE
        0x2E => seq![KeyCode::Delete],  // VK_DELETE
        0x2D => seq![KeyCode::Insert],  // VK_INSERT
        0x24 => seq![KeyCode::Home],  // VK_HOME
        0x23 => seq![KeyCode::End],  // VK_END
        0x21 => seq![KeyCode::PageUp],  // VK_PRIOR
        0x22 => seq![KeyCode::PageDown],  // VK_NEXT
        0x26 => seq![KeyCode::Up],  // VK_UP
        0x28 => seq![KeyCode::Down],  // VK_DOWN
        0x25 => seq![KeyCode::Left],  // VK_LEFT
        0x27 => seq![KeyCode::Right],  // VK_RIGHT
        0x14 => seq![KeyCode::CapsLock],  // VK_CAPITAL
        0xBC => seq![KeyCode::Comma],  // VK_OEM_COMMA
        0xBE => seq![KeyCode::Dot],  // VK_OEM_PERIOD
        0xBF => seq![KeyCode::Slash],  // VK_OEM_2
        0xBA => seq![KeyCode::Semicolon],  // VK_OEM_1
        0xDE => seq![KeyCode::Apostrophe],  // VK_OEM_7
        0xDB => seq![KeyCode::LeftBracket],  // VK_OEM_4
        0xDD => seq![KeyCode::RightBracket],  // VK_OEM_6
        0xDC => seq![KeyCode::BackSlash],  // VK_OEM_5
        0xC0 => seq![KeyCode::Grave],  // VK_OEM_3
        0xBD => seq![KeyCode::Minus],  // VK_OEM_MINUS
        0xBB => seq![KeyCode::Equal],  // VK_OEM_PLUS
        _ => seq![],
    }
}

/// The physical keys that stand for the virtual-key code `vk` (only its low
/// 16 bits count).
pub fn vk_to_keycodes(vk: i32) -> (codes: Vec<KeyCode>)
    ensures
        codes@ == vk_keycodes(vk as u16),
{
    match vk as u16 {
        0x11 => vec![KeyCode::LControl, KeyCode::RControl],  // VK_CONTROL
        0x12 => vec![KeyCode::LAlt, KeyCode::RAlt],  // VK_MENU
        0x10 => vec![KeyCode::LShift, KeyCode::RShift],  // VK_SHIFT
        0xA2 => vec![KeyCode::LControl],  // VK_LCONTROL
        0xA3 => vec![KeyCode::RControl],  // VK_RCONTROL
        0xA0 => vec![KeyCode::LShift],  // VK_LSHIFT
        0xA1 => vec![KeyCode::RShift],  // VK_RSHIFT
        0xA4 => vec![KeyCode::LAlt],  // VK_LMENU
        0xA5 => vec![KeyCode::RAlt],  // VK_RMENU
        0x5B => vec![KeyCode::LMeta],  // VK_LWIN
        0x5C => vec![KeyCode::RMeta],  // VK_RWIN
        0x41 => vec![KeyCode::A],
        0x42 => vec![KeyCode::B],
        0x43 => vec![KeyCode::C],
        0x44 => vec![KeyCode::D],
        0x45 => vec![KeyCode::E],
        0x46 => vec![KeyCode::F],
        0x47 => vec![KeyCode::G],
        0x48 => vec![KeyCode::H],
        0x49 => vec![KeyCode::I],
        0x4A => vec![KeyCode::J],
        0x4B => vec![KeyCode::K],
        0x4C => vec![KeyCode::L],
        0x4D => vec![KeyCode::M],
        0x4E => vec![KeyCode::N],
        0x4F => vec![KeyCode::O],
        0x50 => vec![KeyCode::P],
        0x51 => vec![KeyCode::Q],
        0x52 => vec![KeyCode::R],
        0x53 => vec![KeyCode::S],
        0x54 => vec![KeyCode::T],
        0x55 => vec![KeyCode::U],
        0x56 => vec![KeyCode::V],
        0x57 => vec![KeyCode::W],
        0x58 => vec![KeyCode::X],
        0x59 => vec![KeyCode::Y],
        0x5A => vec![KeyCode::Z],
        0x30 => vec![KeyCode::Key0],
        0x31 => vec![KeyCode::Key1],
        0x32 => vec![KeyCode::Key2],
        0x33 => vec![KeyCode::Key3],
        0x34 => vec![KeyCode::Key4],
        0x35 => vec![KeyCode::Key5],
        0x36 => vec![KeyCode::Key6],
        0x37 => vec![KeyCode::Key7],
        0x38 => vec![KeyCode::Key8],
        0x39 => vec![KeyCode::Key9],
        0x70 => vec![KeyCode::F1],
        0x71 => vec![KeyCode::F2],
        0x72 => vec![KeyCode::F3],
        0x73 => vec![KeyCode::F4],
        0x74 => vec![KeyCode::F5],
        0x75 => vec![KeyCode::F6],
        0x76 => vec![KeyCode::F7],
        0x77 => vec![KeyCode::F8],
        0x78 => vec![KeyCode::F9],
        0x79 => vec![KeyCode::F10],
        0x7A => vec![KeyCode::F11],
        0x7B => vec![KeyCode::F12],
        0x7C => vec![KeyCode::F13],
        0x7D => vec![KeyCode::F14],
        0x7E => vec![KeyCode::F15],
        0x7F => vec![KeyCode::F16],
        0x80 => vec![KeyCode::F17],
        0x81 => vec![KeyCode::F18],
        0x82 => vec![KeyCode::F19],
        0x83 => vec![KeyCode::F20],
        0x20 => vec![KeyCode::Space],  // VK_SPACE
        0x0D => vec![KeyCode::Enter],  // VK_RETURN
        0x09 => vec![KeyCode::Tab],  // VK_TAB
        0x08 => vec![KeyCode::Backspace],  // VK_BACK
        0x1B => vec![KeyCode::Escape],  // VK_ESCAPE
        0x2E => vec![KeyCode::Delete],  // VK_DELETE
        0x2D => vec![KeyCode::Insert],  // VK_INSERT
        0x24 => vec![KeyCode::Home],  // VK_HOME
        0x23 => vec![KeyCode::End],  // VK_END
        0x21 => vec![KeyCode::PageUp],  // VK_PRIOR
        0x22 => vec![KeyCode::PageDown],  // VK_NEXT
        0x26 => vec![KeyCode::Up],  // VK_UP
        0x28 => vec![KeyCode::Down],  // VK_DOWN
        0x25 => vec![KeyCode::Left],  // VK_LEFT
        0x27 => vec![KeyCode::Right],  // VK_RIGHT
        0x14 => vec![KeyCode::CapsLock],  // VK_CAPITAL
        0xBC => vec![KeyCode::Comma],  // VK_OEM_COMMA
        0xBE => vec![KeyCode::Dot],  // VK_OEM_PERIOD
        0xBF => vec![KeyCode::Slash],  // VK_OEM_2
        0xBA => vec![KeyCode::Semicolon],  // VK_OEM_1
        0xDE => vec![KeyCode::Apostrophe],  // VK_OEM_7
        0xDB => vec![KeyCode::LeftBracket],  // VK_OEM_4
        0xDD => vec![KeyCode::RightBracket],  // VK_OEM_6
        0xDC => vec![KeyCode::BackSlash],  // VK_OEM_5
        0xC0 => vec![KeyCode::Grave],  // VK_OEM_3
        0xBD => vec![KeyCode::Minus],  // VK_OEM_MINUS
        0xBB => vec![KeyCode::Equal],  // VK_OEM_PLUS
        _ => vec![],
    }
}

/// Whether some physical key standing for `vk` is among the `pressed` keys.
pub open spec fn key_down(vk: i32, pressed: Seq<KeyCode>) -> bool {
    exists|k: KeyCode| vk_keycodes(vk as u16).contains(k) && pressed.contains(k)
}

/// Whether the key `vk` is held down, given the keys that are `pressed`.
pub fn is_vk_down(vk: i32, pressed: &[KeyCode]) -> (down: bool)
    ensures
        down == key_down(vk, pressed@),
{
    let codes = vk_to_keycodes(vk);
    if codes.len() == 0 {
        return false;
    }
    let mut i: usize = 0;
    while i < codes.len()
        invariant
            codes@ == vk_keycodes(vk as u16),
            i <= codes@.len(),
            forall|a: int| 0 <= a < i ==> !pressed@.contains(#[trigger] codes@[a]),
        decreases codes@.len() - i,
    {
        let mut j: usize = 0;
        while j < pressed.len()
            invariant
                codes@ == vk_keycodes(vk as u16),
                i < codes@.len(),
                j <= pressed@.len(),
                forall|b: int| 0 <= b < j ==> pressed@[b] != codes@[i as int],
            decreases pressed@.len() - j,
        {
            if pressed[j] == codes[i] {
                assert(pressed@[j as int] == codes@[i as int]);
                assert(pressed@.contains(codes@[i as int]));
                assert(codes@.contains(codes@[i as int]));
                return true;
            }
            j = j + 1;
        }
        i = i + 1;
    }
    assert forall|k: KeyCode| vk_keycodes(vk as u16).contains(k) implies !pressed@.contains(k) by {
        let a = choose|a: int| 0 <= a < codes@.len() && codes@[a] == k;
        assert(!pressed@.contains(codes@[a]));
    }
    false
}

} // verus!
