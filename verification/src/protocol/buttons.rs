//! Button assignment: EEPROM matrix 0x60..0x9F (16 slots of 4 bytes).
//!
//! A slot is `[type][b1][b2][0x55 - sum]`, where
//! `type | b1 << 8 | b2 << 16` is the firmware "hw value" of the function
//! (0x101 is stored as `01 01 00`).
use vstd::prelude::*;
use super::packet::{
    checksum, checksum_spec, hex_byte, hex_char, hex_digit_value, hex_u32, hex_value, parse_hex_u32,
    push_hex_byte,
};
use vstd::utf8::{is_ascii_chars, is_ascii_chars_encode_utf8};
use vstd::string::StringSliceAdditionalSpecFns;

verus! {

/// Slots in the button matrix.
pub const SLOTS: usize = 16;

/// Physical buttons of the mouse: caption and slot in the matrix
/// (button 4 lives in slot 5, button 5 in slot 4).
pub const PHYSICAL: [(&'static str, usize); 6] = [
    ("Левая кнопка", 0),
    ("Правая кнопка", 1),
    ("Колесо (нажатие)", 2),
    ("Боковая передняя", 4),
    ("Боковая задняя", 3),
    ("Кнопка DPI", 5),
];

/// Slots of the physical buttons, in the order of `PHYSICAL`.
pub open spec fn physical_slots() -> Seq<int> {
    seq![0int, 1, 2, 4, 3, 5]
}

#[derive(Clone, Copy, Debug, PartialEq, Eq)]
pub enum ButtonAction {
    Left,
    Right,
    Middle,
    Back,
    Forward,
    DpiLoop,
    DpiUp,
    DpiDown,
    Disabled,
    /// A function this library does not edit (macro, "fire", multimedia...),
    /// kept as it is and written back unchanged.
    Other([u8; 3]),
}

impl ButtonAction {
    /// Choices offered for editing.
    pub const CHOICES: [ButtonAction; 9] = [
        ButtonAction::Left,
        ButtonAction::Right,
        ButtonAction::Middle,
        ButtonAction::Back,
        ButtonAction::Forward,
        ButtonAction::DpiLoop,
        ButtonAction::DpiUp,
        ButtonAction::DpiDown,
        ButtonAction::Disabled,
    ];

    /// The three bytes of the action.
    pub open spec fn code(self) -> [u8; 3] {
        match self {
            ButtonAction::Left => [0x01u8, 0x01, 0x00],
            ButtonAction::Right => [0x01u8, 0x02, 0x00],
            ButtonAction::Middle => [0x01u8, 0x04, 0x00],
            ButtonAction::Back => [0x01u8, 0x08, 0x00],
            ButtonAction::Forward => [0x01u8, 0x10, 0x00],
            ButtonAction::DpiLoop => [0x02u8, 0x01, 0x00],
            ButtonAction::DpiUp => [0x02u8, 0x02, 0x00],
            ButtonAction::DpiDown => [0x02u8, 0x03, 0x00],
            ButtonAction::Disabled => [0x00u8, 0x00, 0x00],
            ButtonAction::Other(b) => b,
        }
    }

    /// The action stored as bytes `b`: the choice with these bytes, or
    /// `Other(b)` when no choice has them.
    pub open spec fn of_code(b: [u8; 3]) -> ButtonAction {
        if b@ == seq![0x01u8, 0x01, 0x00] {
            ButtonAction::Left
        } else if b@ == seq![0x01u8, 0x02, 0x00] {
            ButtonAction::Right
        } else if b@ == seq![0x01u8, 0x04, 0x00] {
            ButtonAction::Middle
        } else if b@ == seq![0x01u8, 0x08, 0x00] {
            ButtonAction::Back
        } else if b@ == seq![0x01u8, 0x10, 0x00] {
            ButtonAction::Forward
        } else if b@ == seq![0x02u8, 0x01, 0x00] {
            ButtonAction::DpiLoop
        } else if b@ == seq![0x02u8, 0x02, 0x00] {
            ButtonAction::DpiUp
        } else if b@ == seq![0x02u8, 0x03, 0x00] {
            ButtonAction::DpiDown
        } else if b@ == seq![0x00u8, 0x00, 0x00] {
            ButtonAction::Disabled
        } else {
            ButtonAction::Other(b)
        }
    }

    /// The action is in the form `of_code` gives: not an `Other` holding the
    /// bytes of a choice.
    pub open spec fn is_canonical(self) -> bool {
        ButtonAction::of_code(self.code()) == self
    }

    /// The four bytes of a matrix slot.
    pub open spec fn slot_bytes(self) -> Seq<u8> {
        self.code()@.push(checksum_spec(self.code()@))
    }

    /// Caption of the action.
    pub open spec fn label_text(self) -> Seq<char> {
        match self {
            ButtonAction::Left => "Левый клик"@,
            ButtonAction::Right => "Правый клик"@,
            ButtonAction::Middle => "Средний клик"@,
            ButtonAction::Back => "Назад"@,
            ButtonAction::Forward => "Вперёд"@,
            ButtonAction::DpiLoop => "Цикл DPI"@,
            ButtonAction::DpiUp => "DPI +"@,
            ButtonAction::DpiDown => "DPI −"@,
            ButtonAction::Disabled => "Отключена"@,
            ButtonAction::Other(b) => other_kind(b[0]) + " ("@ + hex_byte(b[0], true) + " "@
                + hex_byte(b[1], true) + " "@ + hex_byte(b[2], true) + ")"@,
        }
    }

    /// Identifier of the action: its bytes as six lower-case hex digits.
    pub open spec fn id_text(self) -> Seq<char> {
        hex_byte(self.code()[0], false) + hex_byte(self.code()[1], false) + hex_byte(
            self.code()[2],
            false,
        )
    }

    pub fn bytes(self) -> (r: [u8; 3])
        ensures
            r == self.code(),
    {
        match self {
            ButtonAction::Left => [0x01, 0x01, 0x00],
            ButtonAction::Right => [0x01, 0x02, 0x00],
            ButtonAction::Middle => [0x01, 0x04, 0x00],
            ButtonAction::Back => [0x01, 0x08, 0x00],
            ButtonAction::Forward => [0x01, 0x10, 0x00],
            ButtonAction::DpiLoop => [0x02, 0x01, 0x00],
            ButtonAction::DpiUp => [0x02, 0x02, 0x00],
            ButtonAction::DpiDown => [0x02, 0x03, 0x00],
            ButtonAction::Disabled => [0x00, 0x00, 0x00],
            ButtonAction::Other(b) => b,
        }
    }

    /// The choice whose bytes are `b`, else `Other(b)`.
    pub fn from_bytes(b: [u8; 3]) -> (r: Self)
        ensures
            r == Self::of_code(b),
    {
        let choices = Self::CHOICES;
        let mut i: usize = 0;
        while i < 9
            invariant
                i <= 9,
                choices@ == Self::CHOICES@,
                forall|j: int| 0 <= j < i ==> choices@[j].code()@ != b@,
            decreases 9 - i,
        {
            let c = choices[i].bytes();
            if c[0] == b[0] && c[1] == b[1] && c[2] == b[2] {
                assert(c@ =~= b@);
                return choices[i];
            }
            assert(c@ != b@);
            i = i + 1;
        }
        ButtonAction::Other(b)
    }

    /// The four slot bytes `[type][b1][b2][checksum]`.
    pub fn encode(self) -> (r: [u8; 4])
        ensures
            r@ == self.slot_bytes(),
    {
        let b = self.bytes();
        let c = checksum(&b);
        let r = [b[0], b[1], b[2], c];
        assert(r@ =~= self.slot_bytes());
        r
    }

    /// Parses a slot. `None` on a short slot or a broken checksum.
    pub fn decode(raw: &[u8]) -> (r: Option<Self>)
        ensures
            r == (if raw@.len() < 4 || raw@[3] != checksum_spec(raw@.take(3)) {
                None
            } else {
                Some(Self::of_code([raw@[0], raw@[1], raw@[2]]))
            }),
    {
        if raw.len() < 4 {
            return None;
        }
        let head = &raw[0..3];
        assert(head@ =~= raw@.take(3));
        if raw[3] != checksum(head) {
            return None;
        }
        Some(Self::from_bytes([raw[0], raw[1], raw[2]]))
    }

    pub fn label(self) -> (r: String)
        ensures
            r@ == self.label_text(),
    {
        match self {
            ButtonAction::Left => String::from_str("Левый клик"),
            ButtonAction::Right => String::from_str("Правый клик"),
            ButtonAction::Middle => String::from_str("Средний клик"),
            ButtonAction::Back => String::from_str("Назад"),
            ButtonAction::Forward => String::from_str("Вперёд"),
            ButtonAction::DpiLoop => String::from_str("Цикл DPI"),
            ButtonAction::DpiUp => String::from_str("DPI +"),
            ButtonAction::DpiDown => String::from_str("DPI −"),
            ButtonAction::Disabled => String::from_str("Отключена"),
            ButtonAction::Other(b) => {
                let mut s = String::from_str(other_kind_str(b[0]));
                s.append(" (");
                push_hex_byte(&mut s, b[0], true);
                s.append(" ");
                push_hex_byte(&mut s, b[1], true);
                s.append(" ");
                push_hex_byte(&mut s, b[2], true);
                s.append(")");
                s
            },
        }
    }

    /// The two actions are the same value.
    pub fn same(self, other: Self) -> (r: bool)
        ensures
            r == (self == other),
    {
        match (self, other) {
            (ButtonAction::Other(x), ButtonAction::Other(y)) => {
                let eq = x[0] == y[0] && x[1] == y[1] && x[2] == y[2];
                if eq {
                    assert(x =~= y);
                }
                eq
            },
            (ButtonAction::Other(_), _) => false,
            (_, ButtonAction::Other(_)) => false,
            _ => {
                let x = self.bytes();
                let y = other.bytes();
                x[0] == y[0] && x[1] == y[1] && x[2] == y[2]
            },
        }
    }

    /// Identifier for a drop-down list: the bytes as lower-case hex.
    pub fn id(self) -> (r: String)
        ensures
            r@ == self.id_text(),
    {
        let b = self.bytes();
        let mut s = String::new();
        push_hex_byte(&mut s, b[0], false);
        push_hex_byte(&mut s, b[1], false);
        push_hex_byte(&mut s, b[2], false);
        s
    }

    /// Parses an identifier as `u32::from_str_radix(id, 16)` and takes the low
    /// three bytes of the value (big-endian). `None` when it is not a
    /// hexadecimal `u32`.
    pub fn from_id(id: &str) -> (r: Option<Self>)
        ensures
            r == (match hex_u32(id.spec_bytes()) {
                Some(v) => Some(Self::of_code([(v / 65536 % 256) as u8, (v / 256 % 256) as u8, (v % 256) as u8])),
                None => None,
            }),
    {
        let v = match parse_hex_u32(id.as_bytes()) {
            Some(v) => v,
            None => return None,
        };
        assert((v >> 16) as u8 == (v / 65536 % 256) as u8) by (bit_vector);
        assert((v >> 8) as u8 == (v / 256 % 256) as u8) by (bit_vector);
        assert(v as u8 == (v % 256) as u8) by (bit_vector);
        Some(Self::from_bytes([(v >> 16) as u8, (v >> 8) as u8, v as u8]))
    }
}

/// Caption of the kind of an uneditable function, by its type byte.
pub open spec fn other_kind(t: u8) -> Seq<char> {
    if t == 0x04 {
        "Кнопка «Огонь»"@
    } else if t == 0x05 {
        "Клавиша клавиатуры"@
    } else if t == 0x06 {
        "Макрос"@
    } else {
        "Спецфункция"@
    }
}

fn other_kind_str(t: u8) -> (r: &'static str)
    ensures
        r@ == other_kind(t),
{
    match t {
        0x04 => "Кнопка «Огонь»",
        0x05 => "Клавиша клавиатуры",
        0x06 => "Макрос",
        _ => "Спецфункция",
    }
}

/// `from_bytes` keeps the bytes: the action it gives is stored as `b`, and
/// it is canonical.
pub proof fn of_code_keeps_bytes(b: [u8; 3])
    ensures
        ButtonAction::of_code(b).code() == b,
        ButtonAction::of_code(b).is_canonical(),
{
    assert(ButtonAction::of_code(b).code()@ =~= b@);
}

/// Every choice is canonical: reading its bytes back gives the choice.
pub proof fn choices_are_canonical(i: int)
    requires
        0 <= i < 9,
    ensures
        ButtonAction::CHOICES@[i].is_canonical(),
{
    let a = ButtonAction::CHOICES@[i];
    assert(a.code()@ =~= a.code()@);
}

/// `Other(b)` is canonical exactly when `b` is not the code of a choice.
pub proof fn other_canonical(b: [u8; 3])
    ensures
        ButtonAction::Other(b).is_canonical() <==> forall|i: int|
            0 <= i < 9 ==> ButtonAction::CHOICES@[i].code()@ != b@,
{
}

/// A slot written by `encode` is read back by `decode` as the canonical form
/// of the action.
pub proof fn slot_roundtrip(a: ButtonAction)
    ensures
        a.slot_bytes().len() == 4,
        a.slot_bytes()[3] == checksum_spec(a.slot_bytes().take(3)),
        [a.slot_bytes()[0], a.slot_bytes()[1], a.slot_bytes()[2]] == a.code(),
{
    assert(a.slot_bytes().take(3) =~= a.code()@);
    assert([a.slot_bytes()[0], a.slot_bytes()[1], a.slot_bytes()[2]]@ =~= a.code()@);
}

/// A slot that decodes to an action is written back unchanged by `encode`.
pub proof fn slot_decode_encode(raw: Seq<u8>)
    requires
        raw.len() >= 4,
        raw[3] == checksum_spec(raw.take(3)),
    ensures
        ButtonAction::of_code([raw[0], raw[1], raw[2]]).slot_bytes() == raw.take(4),
{
    let b = [raw[0], raw[1], raw[2]];
    of_code_keeps_bytes(b);
    assert(b@ =~= raw.take(3));
    assert(ButtonAction::of_code(b).slot_bytes() =~= raw.take(4));
}

proof fn lemma_hex_digit_back(n: int)
    requires
        0 <= n < 16,
    ensures
        hex_digit_value(hex_char(n, false) as u8) == Some(n),
        '\0' <= hex_char(n, false) <= '\u{7f}',
{
}

proof fn lemma_bytes_of_value(c0: u8, c1: u8, c2: u8)
    ensures
        (c0 * 65536 + c1 * 256 + c2) / 65536 % 256 == c0,
        (c0 * 65536 + c1 * 256 + c2) / 256 % 256 == c1,
        (c0 * 65536 + c1 * 256 + c2) % 256 == c2,
        c0 * 65536 + c1 * 256 + c2 <= u32::MAX,
{
    let v: int = c0 * 65536 + c1 * 256 + c2;
    let w: int = c1 * 256 + c2;
    assert(0 <= w < 65536);
    assert(v / 65536 == c0) by (nonlinear_arith)
        requires
            v == c0 * 65536 + w,
            0 <= w < 65536,
    ;
    assert(v / 256 == c0 * 256 + c1) by (nonlinear_arith)
        requires
            v == (c0 * 256 + c1) * 256 + c2,
            0 <= c2 < 256,
    ;
    assert(v % 256 == c2) by (nonlinear_arith)
        requires
            v == (c0 * 256 + c1) * 256 + c2,
            0 <= c2 < 256,
    ;
}

proof fn lemma_hex6(t: Seq<u8>, d: Seq<u8>)
    requires
        t.len() == 6,
        d.len() == 6,
        forall|i: int| 0 <= i < 6 ==> hex_digit_value(#[trigger] t[i]) == Some(d[i] as int),
    ensures
        hex_value(t) == Some(((d[0] * 16 + d[1]) * 256 + (d[2] * 16 + d[3])) * 256 + (d[4] * 16 + d[5])),
{
    assert(hex_digit_value(t[0]) == Some(d[0] as int));
    assert(hex_digit_value(t[1]) == Some(d[1] as int));
    assert(hex_digit_value(t[2]) == Some(d[2] as int));
    assert(hex_digit_value(t[3]) == Some(d[3] as int));
    assert(hex_digit_value(t[4]) == Some(d[4] as int));
    assert(hex_digit_value(t[5]) == Some(d[5] as int));
    let t0 = t.take(0);
    let t1 = t.take(1);
    let t2 = t.take(2);
    let t3 = t.take(3);
    let t4 = t.take(4);
    let t5 = t.take(5);
    assert(t1.drop_last() =~= t0);
    assert(t2.drop_last() =~= t1);
    assert(t3.drop_last() =~= t2);
    assert(t4.drop_last() =~= t3);
    assert(t5.drop_last() =~= t4);
    assert(t.drop_last() =~= t5);
    assert(hex_value(t0) == Some(0int));
    assert(hex_value(t1) == Some(d[0] as int));
    assert(hex_value(t2) == Some(d[0] * 16 + d[1]));
    assert(hex_value(t3) == Some((d[0] * 16 + d[1]) * 16 + d[2]));
    assert(hex_value(t4) == Some(((d[0] * 16 + d[1]) * 16 + d[2]) * 16 + d[3]));
    assert(hex_value(t5) == Some((((d[0] * 16 + d[1]) * 16 + d[2]) * 16 + d[3]) * 16 + d[4]));
}

/// The identifier of an action parses back (`from_id(id(a))`) to its
/// canonical form.
pub proof fn id_roundtrip(a: ButtonAction, s: &str)
    requires
        s@ == a.id_text(),
    ensures
        hex_u32(s.spec_bytes()) matches Some(v) && ButtonAction::of_code(
            [(v / 65536 % 256) as u8, (v / 256 % 256) as u8, (v % 256) as u8],
        ) == ButtonAction::of_code(a.code()),
{
    let c = a.code();
    let d = seq![c[0] / 16, c[0] % 16, c[1] / 16, c[1] % 16, c[2] / 16, c[2] % 16];
    assert forall|i: int| 0 <= i < 6 implies s@[i] == hex_char(d[i] as int, false) by {};
    assert forall|i: int| 0 <= i < 6 implies #[trigger] hex_digit_value(hex_char(d[i] as int, false) as u8) == Some(d[i] as int)
        && '\0' <= hex_char(d[i] as int, false) <= '\u{7f}' by {
        lemma_hex_digit_back(d[i] as int);
    };
    assert(is_ascii_chars(s@));
    is_ascii_chars_encode_utf8(s@);
    let t = s.spec_bytes();
    assert(t.len() == 6);
    assert forall|i: int| 0 <= i < 6 implies hex_digit_value(#[trigger] t[i]) == Some(d[i] as int) by {
        assert(t[i] == s@[i] as u8);
    };
    assert(t[0] != 43);
    lemma_hex6(t, d);
    let v: int = c[0] * 65536 + c[1] * 256 + c[2];
    assert(hex_value(t) == Some(v));
    lemma_bytes_of_value(c[0], c[1], c[2]);
    assert(hex_u32(t) == Some(v as u32));
    let vv = v as u32;
    let b = [(vv / 65536 % 256) as u8, (vv / 256 % 256) as u8, (vv % 256) as u8];
    assert(b =~= c);
}

/// Matrix codes of the actions: mouse buttons are group 0x01 with bit
/// 0x01 left, 0x02 right, 0x04 middle, 0x08 back, 0x10 forward; DPI
/// switching is group 0x02 with 1 loop, 2 up, 3 down; all zeros disables
/// the button. Each code reads back as its action.
pub proof fn button_codes()
    ensures
        ButtonAction::Left.code()@ == seq![0x01u8, 0x01, 0x00],
        ButtonAction::Right.code()@ == seq![0x01u8, 0x02, 0x00],
        ButtonAction::Middle.code()@ == seq![0x01u8, 0x04, 0x00],
        ButtonAction::Back.code()@ == seq![0x01u8, 0x08, 0x00],
        ButtonAction::Forward.code()@ == seq![0x01u8, 0x10, 0x00],
        ButtonAction::DpiLoop.code()@ == seq![0x02u8, 0x01, 0x00],
        ButtonAction::DpiUp.code()@ == seq![0x02u8, 0x02, 0x00],
        ButtonAction::DpiDown.code()@ == seq![0x02u8, 0x03, 0x00],
        ButtonAction::Disabled.code()@ == seq![0x00u8, 0x00, 0x00],
        ButtonAction::of_code([0x01u8, 0x01, 0x00]) == ButtonAction::Left,
        ButtonAction::of_code([0x01u8, 0x02, 0x00]) == ButtonAction::Right,
        ButtonAction::of_code([0x01u8, 0x04, 0x00]) == ButtonAction::Middle,
        ButtonAction::of_code([0x01u8, 0x08, 0x00]) == ButtonAction::Back,
        ButtonAction::of_code([0x01u8, 0x10, 0x00]) == ButtonAction::Forward,
        ButtonAction::of_code([0x02u8, 0x01, 0x00]) == ButtonAction::DpiLoop,
        ButtonAction::of_code([0x02u8, 0x02, 0x00]) == ButtonAction::DpiUp,
        ButtonAction::of_code([0x02u8, 0x03, 0x00]) == ButtonAction::DpiDown,
        ButtonAction::of_code([0x00u8, 0x00, 0x00]) == ButtonAction::Disabled,
{
    assert([0x01u8, 0x01, 0x00]@ =~= seq![0x01u8, 0x01, 0x00]);
    assert([0x01u8, 0x02, 0x00]@ =~= seq![0x01u8, 0x02, 0x00]);
    assert([0x01u8, 0x04, 0x00]@ =~= seq![0x01u8, 0x04, 0x00]);
    assert([0x01u8, 0x08, 0x00]@ =~= seq![0x01u8, 0x08, 0x00]);
    assert([0x01u8, 0x10, 0x00]@ =~= seq![0x01u8, 0x10, 0x00]);
    assert([0x02u8, 0x01, 0x00]@ =~= seq![0x02u8, 0x01, 0x00]);
    assert([0x02u8, 0x02, 0x00]@ =~= seq![0x02u8, 0x02, 0x00]);
    assert([0x02u8, 0x03, 0x00]@ =~= seq![0x02u8, 0x03, 0x00]);
    assert([0x00u8, 0x00, 0x00]@ =~= seq![0x00u8, 0x00, 0x00]);
}

} // verus!
