//! JM03 packets.
//!
//! A request is HID feature report 0x08 (16 data bytes), 17 bytes with the
//! report ID:
//!
//! ```text
//! [0]  0x08        report ID
//! [1]  cmd         command code
//! [2]  0x00
//! [3]  addr_hi     EEPROM address (0 for other commands)
//! [4]  addr_lo
//! [5]  len         data length (at most 10)
//! [6..16] data
//! [16] checksum    0x55 - sum of [0..16]
//! ```
//!
//! The answer is input report 0x09 of the same shape:
//! `[0x09][cmd][status][addr_hi][addr_lo][len][data x 10][checksum]`,
//! `status == 0` meaning success.
pub mod cmd;

use vstd::prelude::*;
use vstd::arithmetic::div_mod::lemma_sub_mod_noop;

verus! {

/// Report ID of a request (feature report).
pub const REPORT_ID: u8 = 0x08;
/// Report ID of a response (input report).
pub const RESPONSE_ID: u8 = 0x09;
/// Packet size including the report ID.
pub const PACKET_SIZE: usize = 17;
/// Start value of every JM03 checksum ('U').
pub const CHECKSUM_BASE: u8 = 0x55;
/// Most payload bytes in one packet.
pub const MAX_DATA: usize = 10;

/// Sum of the bytes of `s`, as an integer.
pub open spec fn byte_sum(s: Seq<u8>) -> int
    decreases s.len(),
{
    if s.len() == 0 {
        0
    } else {
        byte_sum(s.drop_last()) + s.last()
    }
}

/// The JM03 checksum: `0x55 - sum(s)` modulo 256.
pub open spec fn checksum_spec(s: Seq<u8>) -> u8 {
    ((CHECKSUM_BASE - byte_sum(s)) % 256) as u8
}

/// High byte of a big-endian address.
pub open spec fn addr_hi(a: u16) -> u8 {
    (a / 256) as u8
}

/// Low byte of a big-endian address.
pub open spec fn addr_lo(a: u16) -> u8 {
    (a % 256) as u8
}

/// The first 16 bytes of a frame: header, payload, zero padding up to 10
/// payload bytes.
pub open spec fn frame_body(id: u8, cmd: u8, b2: u8, addr: u16, len: u8, data: Seq<u8>) -> Seq<u8> {
    seq![id, cmd, b2, addr_hi(addr), addr_lo(addr), len] + data + Seq::new(
        (10 - data.len()) as nat,
        |i: int| 0u8,
    )
}

/// A body followed by its checksum.
pub open spec fn framed(body: Seq<u8>) -> Seq<u8> {
    body.push(checksum_spec(body))
}

/// What a raw input report must be for `Response::parse` to accept it.
pub open spec fn is_response(report: Seq<u8>) -> bool {
    &&& report.len() >= PACKET_SIZE
    &&& report[0] == RESPONSE_ID
    &&& report[16] == checksum_spec(report.take(16))
}

/// Big-endian address stored at bytes 3 and 4 of a frame.
pub open spec fn frame_addr(f: Seq<u8>) -> u16 {
    (f[3] * 256 + f[4]) as u16
}

/// Hexadecimal digit of `n < 16`.
pub open spec fn hex_char(n: int, upper: bool) -> char {
    if n < 10 {
        (48 + n) as char
    } else if upper {
        (55 + n) as char
    } else {
        (87 + n) as char
    }
}

/// Two hexadecimal digits of a byte (`{:02X}` or `{:02x}`).
pub open spec fn hex_byte(b: u8, upper: bool) -> Seq<char> {
    seq![hex_char((b / 16) as int, upper), hex_char((b % 16) as int, upper)]
}

/// Upper-case hexadecimal bytes separated by single spaces.
pub open spec fn hex_join(s: Seq<u8>) -> Seq<char>
    decreases s.len(),
{
    if s.len() == 0 {
        Seq::empty()
    } else if s.len() == 1 {
        hex_byte(s[0], true)
    } else {
        hex_join(s.drop_last()) + seq![' '] + hex_byte(s.last(), true)
    }
}

proof fn lemma_checksum_step(s: Seq<u8>, i: int, acc: u8)
    requires
        0 <= i < s.len(),
        acc == checksum_spec(s.take(i)),
    ensures
        acc.wrapping_sub(s[i]) == checksum_spec(s.take(i + 1)),
{
    assert(s.take(i + 1).drop_last() =~= s.take(i));
    let x = CHECKSUM_BASE - byte_sum(s.take(i));
    lemma_sub_mod_noop(x, s[i] as int, 256);
    assert((s[i] as int) % 256 == s[i] as int);
    assert(x - s[i] == CHECKSUM_BASE - byte_sum(s.take(i + 1)));
}

/// JM03 checksum: `0x55 - sum(bytes)` (mod 256).
pub fn checksum(bytes: &[u8]) -> (r: u8)
    ensures
        r == checksum_spec(bytes@),
{
    let mut acc: u8 = CHECKSUM_BASE;
    let mut i: usize = 0;
    assert(bytes@.take(0) =~= Seq::<u8>::empty());
    while i < bytes.len()
        invariant
            i <= bytes.len(),
            acc == checksum_spec(bytes@.take(i as int)),
        decreases bytes.len() - i,
    {
        proof {
            lemma_checksum_step(bytes@, i as int, acc);
        }
        acc = acc.wrapping_sub(bytes[i]);
        i = i + 1;
    }
    assert(bytes@.take(bytes.len() as int) =~= bytes@);
    acc
}

/// Checksum of the first 16 bytes of a 17-byte frame.
fn head_checksum(buf: &[u8; PACKET_SIZE]) -> (r: u8)
    ensures
        r == checksum_spec(buf@.take(16)),
{
    let head = &buf[0..16];
    assert(head@ =~= buf@.take(16));
    checksum(head)
}

/// Writes a frame `[id][cmd][b2][addr][len][data, zero-padded][checksum]`.
fn build_frame(id: u8, cmd: u8, b2: u8, addr: u16, len: u8, data: &[u8]) -> (r: [u8; PACKET_SIZE])
    requires
        data.len() <= MAX_DATA,
    ensures
        r@ == framed(frame_body(id, cmd, b2, addr, len, data@)),
{
    let mut buf = [0u8; PACKET_SIZE];
    buf[0] = id;
    buf[1] = cmd;
    buf[2] = b2;
    buf[3] = (addr / 256) as u8;
    buf[4] = (addr % 256) as u8;
    buf[5] = len;
    let mut i: usize = 0;
    while i < data.len()
        invariant
            i <= data.len() <= MAX_DATA,
            buf@.len() == PACKET_SIZE,
            buf@[0] == id,
            buf@[1] == cmd,
            buf@[2] == b2,
            buf@[3] == addr_hi(addr),
            buf@[4] == addr_lo(addr),
            buf@[5] == len,
            forall|j: int| 0 <= j < i ==> buf@[6 + j] == data@[j],
            forall|j: int| 6 + i <= j < PACKET_SIZE ==> buf@[j] == 0,
        decreases data.len() - i,
    {
        buf[6 + i] = data[i];
        i = i + 1;
    }
    assert(buf@.take(16) =~= frame_body(id, cmd, b2, addr, len, data@));
    buf[16] = head_checksum(&buf);
    assert(buf@ =~= framed(frame_body(id, cmd, b2, addr, len, data@)));
    buf
}

/// An assembled 17-byte request.
#[derive(Clone, Copy, Debug, PartialEq, Eq)]
pub struct Packet(pub [u8; PACKET_SIZE]);

impl Packet {
    /// The request bytes.
    pub open spec fn bytes(&self) -> Seq<u8> {
        self.0@
    }

    /// General command: `cmd`, address and up to 10 payload bytes.
    pub fn new(cmd: u8, addr: u16, data: &[u8]) -> (p: Self)
        requires
            data.len() <= MAX_DATA,
        ensures
            p.bytes() == framed(frame_body(REPORT_ID, cmd, 0, addr, data.len() as u8, data@)),
    {
        Packet(build_frame(REPORT_ID, cmd, 0, addr, data.len() as u8, data))
    }

    /// Command without address and data (status, battery...).
    pub fn simple(cmd: u8) -> (p: Self)
        ensures
            p.bytes() == framed(frame_body(REPORT_ID, cmd, 0, 0, 0, Seq::empty())),
    {
        let empty: [u8; 0] = [];
        let p = Self::new(cmd, 0, &empty);
        assert(empty@ =~= Seq::<u8>::empty());
        p
    }

    /// Read `len` EEPROM bytes starting at `addr`.
    pub fn read_eeprom(addr: u16, len: u8) -> (p: Self)
        requires
            len as usize <= MAX_DATA,
        ensures
            p.bytes() == framed(frame_body(REPORT_ID, cmd::READ_EEPROM, 0, addr, len, Seq::empty())),
    {
        let empty: [u8; 0] = [];
        assert(empty@ =~= Seq::<u8>::empty());
        Packet(build_frame(REPORT_ID, cmd::READ_EEPROM, 0, addr, len, &empty))
    }

    /// Write `data` to the EEPROM starting at `addr`.
    pub fn write_eeprom(addr: u16, data: &[u8]) -> (p: Self)
        requires
            data.len() <= MAX_DATA,
        ensures
            p.bytes() == framed(
                frame_body(REPORT_ID, cmd::WRITE_EEPROM, 0, addr, data.len() as u8, data@),
            ),
    {
        Self::new(cmd::WRITE_EEPROM, addr, data)
    }

    pub fn cmd(&self) -> (r: u8)
        ensures
            r == self.bytes()[1],
    {
        self.0[1]
    }

    pub fn addr(&self) -> (r: u16)
        ensures
            r == frame_addr(self.bytes()),
    {
        self.0[3] as u16 * 256 + self.0[4] as u16
    }

    pub fn len(&self) -> (r: usize)
        ensures
            r == self.bytes()[5],
    {
        self.0[5] as usize
    }

    /// The payload: `len` bytes after the header, at most 10.
    pub fn data(&self) -> (r: &[u8])
        ensures
            r@ == self.bytes().subrange(6, 6 + if self.bytes()[5] <= 10 { self.bytes()[5] as int } else { 10 }),
    {
        let n = if self.len() <= MAX_DATA { self.len() } else { MAX_DATA };
        &self.0[6..6 + n]
    }

    /// The report ID is 0x08 and the checksum matches.
    pub open spec fn verify_spec(&self) -> bool {
        self.bytes()[0] == REPORT_ID && self.bytes()[16] == checksum_spec(self.bytes().take(16))
    }

    /// The report ID is 0x08 and the checksum matches.
    pub fn verify(&self) -> (r: bool)
        ensures
            r == self.verify_spec(),
    {
        self.0[0] == REPORT_ID && self.0[16] == head_checksum(&self.0)
    }

    pub fn to_hex(&self) -> (r: String)
        ensures
            r@ == hex_join(self.bytes()),
    {
        to_hex(&self.0)
    }
}

/// A parsed device answer (input report 0x09).
#[derive(Clone, Debug, PartialEq, Eq)]
pub struct Response {
    pub cmd: u8,
    pub status: u8,
    pub addr: u16,
    pub len: u8,
    pub data: [u8; MAX_DATA],
}

impl Response {
    /// Length of the payload: `len`, at most 10.
    pub open spec fn payload_len(&self) -> int {
        if self.len <= 10 { self.len as int } else { 10 }
    }

    /// Parses a raw input report. `None` when it is not a JM03 answer (for
    /// instance a keyboard report of the same interface) or its checksum is
    /// broken.
    pub fn parse(report: &[u8]) -> (r: Option<Self>)
        ensures
            r is Some <==> is_response(report@),
            r matches Some(resp) ==> {
                &&& resp.cmd == report@[1]
                &&& resp.status == report@[2]
                &&& resp.addr == frame_addr(report@)
                &&& resp.len == report@[5]
                &&& resp.data@ == report@.subrange(6, 16)
            },
    {
        if report.len() < PACKET_SIZE || report[0] != RESPONSE_ID {
            return None;
        }
        let head = &report[0..16];
        assert(head@ =~= report@.take(16));
        if report[16] != checksum(head) {
            return None;
        }
        let mut data = [0u8; MAX_DATA];
        let mut i: usize = 0;
        while i < MAX_DATA
            invariant
                i <= MAX_DATA,
                report@.len() >= PACKET_SIZE,
                data@.len() == MAX_DATA,
                forall|j: int| 0 <= j < i ==> data@[j] == report@[6 + j],
            decreases MAX_DATA - i,
        {
            data[i] = report[6 + i];
            i = i + 1;
        }
        assert(data@ =~= report@.subrange(6, 16));
        Some(
            Response {
                cmd: report[1],
                status: report[2],
                addr: report[3] as u16 * 256 + report[4] as u16,
                len: report[5],
                data,
            },
        )
    }

    /// Assembles an answer (for the simulator and the tests).
    pub fn build(cmd: u8, status: u8, addr: u16, data: &[u8]) -> (r: [u8; PACKET_SIZE])
        requires
            data.len() <= MAX_DATA,
        ensures
            r@ == framed(frame_body(RESPONSE_ID, cmd, status, addr, data.len() as u8, data@)),
    {
        build_frame(RESPONSE_ID, cmd, status, addr, data.len() as u8, data)
    }

    /// The first `len` data bytes (at most 10).
    pub fn payload(&self) -> (r: &[u8])
        ensures
            r@ == self.data@.take(self.payload_len()),
    {
        let n = if (self.len as usize) <= MAX_DATA { self.len as usize } else { MAX_DATA };
        let p = &self.data[0..n];
        assert(p@ =~= self.data@.take(self.payload_len()));
        p
    }
}

pub(crate) fn digit_str(n: u8, upper: bool) -> (r: &'static str)
    requires
        n < 16,
    ensures
        r@ == seq![hex_char(n as int, upper)],
{
    match n {
        0 => { proof { reveal_strlit("0"); } "0" },
        1 => { proof { reveal_strlit("1"); } "1" },
        2 => { proof { reveal_strlit("2"); } "2" },
        3 => { proof { reveal_strlit("3"); } "3" },
        4 => { proof { reveal_strlit("4"); } "4" },
        5 => { proof { reveal_strlit("5"); } "5" },
        6 => { proof { reveal_strlit("6"); } "6" },
        7 => { proof { reveal_strlit("7"); } "7" },
        8 => { proof { reveal_strlit("8"); } "8" },
        9 => { proof { reveal_strlit("9"); } "9" },
        10 => if upper { proof { reveal_strlit("A"); } "A" } else { proof { reveal_strlit("a"); } "a" },
        11 => if upper { proof { reveal_strlit("B"); } "B" } else { proof { reveal_strlit("b"); } "b" },
        12 => if upper { proof { reveal_strlit("C"); } "C" } else { proof { reveal_strlit("c"); } "c" },
        13 => if upper { proof { reveal_strlit("D"); } "D" } else { proof { reveal_strlit("d"); } "d" },
        14 => if upper { proof { reveal_strlit("E"); } "E" } else { proof { reveal_strlit("e"); } "e" },
        _ => if upper { proof { reveal_strlit("F"); } "F" } else { proof { reveal_strlit("f"); } "f" },
    }
}

/// Appends the two hexadecimal digits of `b`.
pub(crate) fn push_hex_byte(out: &mut String, b: u8, upper: bool)
    ensures
        final(out)@ == old(out)@ + hex_byte(b, upper),
{
    out.append(digit_str(b / 16, upper));
    out.append(digit_str(b % 16, upper));
}

/// Upper-case hexadecimal bytes separated by spaces (`"08 04 00 ..."`).
pub fn to_hex(bytes: &[u8]) -> (r: String)
    ensures
        r@ == hex_join(bytes@),
{
    let mut out = String::new();
    let mut i: usize = 0;
    assert(bytes@.take(0) =~= Seq::<u8>::empty());
    while i < bytes.len()
        invariant
            i <= bytes.len(),
            out@ == hex_join(bytes@.take(i as int)),
        decreases bytes.len() - i,
    {
        assert(bytes@.take(i + 1).drop_last() =~= bytes@.take(i as int));
        if i > 0 {
            proof { reveal_strlit(" "); }
            out.append(" ");
        }
        push_hex_byte(&mut out, bytes[i], true);
        i = i + 1;
    }
    assert(bytes@.take(bytes.len() as int) =~= bytes@);
    out
}

/// Value of an ASCII hexadecimal digit (either case).
pub open spec fn hex_digit_value(c: u8) -> Option<int> {
    if 48 <= c <= 57 {
        Some(c - 48)
    } else if 65 <= c <= 70 {
        Some(c - 55)
    } else if 97 <= c <= 102 {
        Some(c - 87)
    } else {
        None
    }
}

/// Value of a string of hexadecimal digits (0 for no digits).
pub open spec fn hex_value(s: Seq<u8>) -> Option<int>
    decreases s.len(),
{
    if s.len() == 0 {
        Some(0)
    } else {
        match (hex_value(s.drop_last()), hex_digit_value(s.last())) {
            (Some(v), Some(d)) => Some(v * 16 + d),
            _ => None,
        }
    }
}

/// `u32::from_str_radix(s, 16)` on the bytes of `s`: an optional leading `+`,
/// then at least one hexadecimal digit, the value at most `u32::MAX`.
pub open spec fn hex_u32(s: Seq<u8>) -> Option<u32> {
    let digits = if s.len() > 0 && s[0] == 43 { s.drop_first() } else { s };
    if s.len() == 0 || digits.len() == 0 {
        None
    } else {
        match hex_value(digits) {
            Some(v) => if v <= u32::MAX { Some(v as u32) } else { None },
            None => None,
        }
    }
}

proof fn lemma_hex_value_grows(s: Seq<u8>, k: int)
    requires
        0 <= k <= s.len(),
        hex_value(s) is Some,
    ensures
        hex_value(s.take(k)) is Some,
        hex_value(s.take(k))->0 <= hex_value(s)->0,
        hex_value(s.take(k))->0 >= 0,
    decreases s.len() - k,
{
    if k == s.len() {
        assert(s.take(k) =~= s);
        lemma_hex_value_nonneg(s);
    } else {
        lemma_hex_value_grows(s, k + 1);
        assert(s.take(k + 1).drop_last() =~= s.take(k));
        lemma_hex_value_nonneg(s.take(k));
    }
}

proof fn lemma_hex_value_nonneg(s: Seq<u8>)
    requires
        hex_value(s) is Some,
    ensures
        hex_value(s)->0 >= 0,
    decreases s.len(),
{
    if s.len() > 0 {
        lemma_hex_value_nonneg(s.drop_last());
    }
}

/// Hexadecimal digit value of a byte.
fn digit_value(c: u8) -> (r: Option<u8>)
    ensures
        r matches Some(d) ==> hex_digit_value(c) == Some(d as int),
        r is None ==> hex_digit_value(c) is None,
{
    if 48 <= c && c <= 57 {
        Some(c - 48)
    } else if 65 <= c && c <= 70 {
        Some(c - 55)
    } else if 97 <= c && c <= 102 {
        Some(c - 87)
    } else {
        None
    }
}

/// Parses hexadecimal text as `u32::from_str_radix(_, 16)` does.
pub(crate) fn parse_hex_u32(s: &[u8]) -> (r: Option<u32>)
    ensures
        r == hex_u32(s@),
{
    if s.len() == 0 {
        return None;
    }
    let start: usize = if s[0] == 43 { 1 } else { 0 };
    if start == s.len() {
        return None;
    }
    let ghost digits = if s@[0] == 43 { s@.drop_first() } else { s@ };
    assert(digits =~= s@.subrange(start as int, s@.len() as int));
    let mut acc: u64 = 0;
    let mut i: usize = start;
    assert(digits.take(0) =~= Seq::<u8>::empty());
    while i < s.len()
        invariant
            start <= i <= s.len(),
            start < s.len(),
            digits == s@.subrange(start as int, s@.len() as int),
            digits == (if s@[0] == 43 { s@.drop_first() } else { s@ }),
            hex_value(digits.take(i - start)) == Some(acc as int),
            acc <= u32::MAX,
        decreases s.len() - i,
    {
        let ghost k = i - start;
        assert(digits.take(k + 1).drop_last() =~= digits.take(k));
        assert(digits[k] == s@[i as int]);
        let d = match digit_value(s[i]) {
            Some(d) => d,
            None => {
                proof {
                    assert(hex_value(digits.take(k + 1)) is None);
                    if hex_value(digits) is Some {
                        lemma_hex_value_grows(digits, k + 1);
                    }
                    assert(hex_value(digits) is None);
                }
                return None;
            },
        };
        acc = acc * 16 + d as u64;
        assert(hex_value(digits.take(k + 1)) == Some(acc as int));
        if acc > 0xFFFF_FFFF {
            proof {
                if hex_value(digits) is Some {
                    lemma_hex_value_grows(digits, k + 1);
                    assert(hex_value(digits)->0 > u32::MAX);
                }
            }
            return None;
        }
        i = i + 1;
    }
    assert(digits.take(digits.len() as int) =~= digits);
    Some(acc as u32)
}

proof fn lemma_byte_sum_update(s: Seq<u8>, i: int, v: u8)
    requires
        0 <= i < s.len(),
    ensures
        byte_sum(s.update(i, v)) == byte_sum(s) - s[i] + v,
    decreases s.len(),
{
    if i == s.len() - 1 {
        assert(s.update(i, v).drop_last() =~= s.drop_last());
    } else {
        assert(s.update(i, v).drop_last() =~= s.drop_last().update(i, v));
        lemma_byte_sum_update(s.drop_last(), i, v);
    }
}

/// The checksum of nothing is 0x55; swapping two bytes keeps the checksum
/// (so it does not depend on the order of the bytes); changing one byte
/// changes it.
pub proof fn checksum_laws(s: Seq<u8>, i: int, j: int, v: u8)
    requires
        0 <= i < s.len(),
        0 <= j < s.len(),
    ensures
        CHECKSUM_BASE == 0x55,
        checksum_spec(Seq::empty()) == 0x55,
        checksum_spec(s.push(v)) == checksum_spec(s).wrapping_sub(v),
        checksum_spec(s.update(i, s[j]).update(j, s[i])) == checksum_spec(s),
        v != s[i] ==> checksum_spec(s.update(i, v)) != checksum_spec(s),
{
    assert(s.push(v).drop_last() =~= s);
    lemma_checksum_step(s.push(v), s.len() as int, checksum_spec(s.push(v).take(s.len() as int)));
    assert(s.push(v).take(s.len() as int) =~= s);
    assert(s.push(v).take(s.len() + 1int) =~= s.push(v));
    let t = s.update(i, s[j]);
    lemma_byte_sum_update(s, i, s[j]);
    lemma_byte_sum_update(t, j, s[i]);
    if i != j {
        assert(t[j] == s[j]);
    }
    assert(byte_sum(t.update(j, s[i])) == byte_sum(s));
    lemma_byte_sum_update(s, i, v);
    let x = CHECKSUM_BASE - byte_sum(s);
    let y = CHECKSUM_BASE - byte_sum(s.update(i, v));
    assert(y == x + s[i] - v);
    if v != s[i] {
        assert(x % 256 != y % 256) by {
            assert(0 < s[i] - v < 256 || -256 < s[i] - v < 0);
        };
    }
}

/// A request built by `Packet::new` passes `Packet::verify`, and its header
/// fields read back as given.
pub proof fn packet_fields_read_back(cmd: u8, addr: u16, data: Seq<u8>)
    requires
        data.len() <= MAX_DATA,
    ensures
        ({
            let f = framed(frame_body(REPORT_ID, cmd, 0, addr, data.len() as u8, data));
            &&& f.len() == PACKET_SIZE
            &&& f[0] == REPORT_ID
            &&& f[16] == checksum_spec(f.take(16))
            &&& f[1] == cmd
            &&& frame_addr(f) == addr
            &&& f[5] == data.len()
            &&& f.subrange(6, 6 + data.len() as int) == data
        }),
{
    let body = frame_body(REPORT_ID, cmd, 0, addr, data.len() as u8, data);
    let f = framed(body);
    assert(f.take(16) =~= body);
    assert(f.subrange(6, 6 + data.len() as int) =~= data);
}

/// An answer assembled by `Response::build` is accepted by `Response::parse`
/// with the same command, status, address, length and payload.
pub proof fn response_build_parse(cmd: u8, status: u8, addr: u16, data: Seq<u8>)
    requires
        data.len() <= MAX_DATA,
    ensures
        ({
            let f = framed(frame_body(RESPONSE_ID, cmd, status, addr, data.len() as u8, data));
            &&& is_response(f)
            &&& f[1] == cmd
            &&& f[2] == status
            &&& frame_addr(f) == addr
            &&& f[5] == data.len()
            &&& f.subrange(6, 16).take(data.len() as int) == data
        }),
{
    let body = frame_body(RESPONSE_ID, cmd, status, addr, data.len() as u8, data);
    let f = framed(body);
    assert(f.take(16) =~= body);
    assert(f.subrange(6, 16).take(data.len() as int) =~= data);
}

} // verus!
