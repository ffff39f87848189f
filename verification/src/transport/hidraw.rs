//! Recognition of the mouse's command interface among `/dev/hidraw*`.
//!
//! The receiver has two HID interfaces with the same VID/PID: `:1.0` is a
//! boot mouse, `:1.1` a keyboard plus vendor collections, among them feature
//! report 0x08 (commands) and input report 0x09 (answers). The command
//! interface is the one whose report descriptor has feature report 0x08.
use vstd::prelude::*;
use vstd::string::StringSliceAdditionalSpecFns;
use crate::protocol::packet::{hex_u32, parse_hex_u32};

verus! {

pub const VID: u16 = 0x25A7;
/// Wired connection.
pub const PID_WIRED: u16 = 0xFA7B;
/// 2.4G receiver.
pub const PID_DONGLE: u16 = 0xFA7C;

/// `HIDIOCSFEATURE(len)`: `_IOC(_IOC_READ | _IOC_WRITE, 'H', 0x06, len)` from
/// `<linux/hidraw.h>`, the ioctl request that sends a feature report.
pub fn hidiocsfeature(len: usize) -> (r: u32)
    ensures
        r == (0xC000_0000u32 | ((len as u32) << 16u32) | 0x4806u32),
{
    let l = len as u32;
    assert((3u32 << 30u32) | (l << 16u32) | (0x48u32 << 8u32) | 0x06u32 == 0xC000_0000u32 | (l << 16u32) | 0x4806u32) by (bit_vector);
    (3u32 << 30u32) | (l << 16u32) | (0x48u32 << 8u32) | 0x06u32
}

/// The USB IDs are those of the mouse: the receiver or the wired mouse.
pub fn is_mouse(vid: u16, pid: u16) -> (r: bool)
    ensures
        r == (vid == VID && (pid == PID_DONGLE || pid == PID_WIRED)),
{
    vid == VID && (pid == PID_DONGLE || pid == PID_WIRED)
}

/// How the mouse is connected, by the product ID.
pub open spec fn link_kind(pid: u16) -> Seq<char> {
    if pid == PID_DONGLE { "2.4G-приёмник"@ } else { "USB-кабель"@ }
}

/// Name of a hidraw transport: the kind of link and the device file, as
/// `"2.4G-приёмник · hidraw3"`.
pub fn transport_name(pid: u16, file: &str) -> (r: String)
    ensures
        r@ == link_kind(pid) + " · "@ + file@,
{
    let mut s = if pid == PID_DONGLE {
        String::from_str("2.4G-приёмник")
    } else {
        String::from_str("USB-кабель")
    };
    s.append(" · ");
    s.append(file);
    s
}

/// What an attempt to read an input report came to.
#[derive(Clone, Copy, Debug, PartialEq, Eq, Structural)]
pub enum ReadOutcome {
    /// No report now: the wait timed out, was interrupted or found nothing.
    Nothing,
    /// The device is gone (unplugged).
    Gone,
    /// Another I/O error.
    Failed,
    /// A report is there.
    Report,
}

/// After waiting with `poll`: `rc` is its result, `interrupted` tells that a
/// failed call was interrupted by a signal, `hangup` that the returned events
/// hold a hang-up, an error or an invalid descriptor.
pub fn after_poll(rc: i32, interrupted: bool, hangup: bool) -> (r: ReadOutcome)
    ensures
        r == (if rc < 0 {
            if interrupted { ReadOutcome::Nothing } else { ReadOutcome::Failed }
        } else if rc == 0 {
            ReadOutcome::Nothing
        } else if hangup {
            ReadOutcome::Gone
        } else {
            ReadOutcome::Report
        }),
{
    if rc < 0 {
        if interrupted { ReadOutcome::Nothing } else { ReadOutcome::Failed }
    } else if rc == 0 {
        ReadOutcome::Nothing
    } else if hangup {
        ReadOutcome::Gone
    } else {
        ReadOutcome::Report
    }
}

/// After `read`: `n` is its result; for a failed call, `retry` tells that it
/// would block or was interrupted, `no_device` that the device is gone
/// (`ENODEV`).
pub fn after_read(n: isize, retry: bool, no_device: bool) -> (r: ReadOutcome)
    ensures
        r == (if n < 0 {
            if retry {
                ReadOutcome::Nothing
            } else if no_device {
                ReadOutcome::Gone
            } else {
                ReadOutcome::Failed
            }
        } else {
            ReadOutcome::Report
        }),
{
    if n < 0 {
        if retry {
            ReadOutcome::Nothing
        } else if no_device {
            ReadOutcome::Gone
        } else {
            ReadOutcome::Failed
        }
    } else {
        ReadOutcome::Report
    }
}

/// A found interface, not opened yet.
#[derive(Debug, Clone, PartialEq, Eq)]
pub struct Candidate {
    pub path: String,
    pub pid: u16,
}

/// Index of the first byte `c` at or after `i`, or the length.
pub open spec fn next_of(s: Seq<u8>, i: int, c: u8) -> int
    decreases s.len() - i,
{
    if i < 0 {
        0
    } else if i >= s.len() || s[i] == c {
        i
    } else {
        next_of(s, i + 1, c)
    }
}

/// Bounds of `next_of`.
pub proof fn lemma_next_of(s: Seq<u8>, i: int, c: u8)
    requires
        0 <= i <= s.len(),
    ensures
        i <= next_of(s, i, c) <= s.len(),
        next_of(s, i, c) < s.len() ==> s[next_of(s, i, c)] == c,
        forall|k: int| i <= k < next_of(s, i, c) ==> s[k] != c,
    decreases s.len() - i,
{
    if i < s.len() && s[i] != c {
        lemma_next_of(s, i + 1, c);
    }
}

/// `HID_ID=` in ASCII.
pub open spec fn hid_id_key() -> Seq<u8> {
    seq![72u8, 73, 68, 95, 73, 68, 61]
}

/// The value of the first line (of `s` from `start`) that begins with
/// `HID_ID=`, as `str::lines` cuts lines: at `\n`, a `\r` before the `\n`
/// dropped.
pub open spec fn hid_id_value(s: Seq<u8>, start: int) -> Option<Seq<u8>>
    decreases s.len() - start,
{
    if start < 0 || start >= s.len() {
        None
    } else {
        let e = next_of(s, start, 10);
        let stop = if e < s.len() && e > start && s[e - 1] == 13 { e - 1 } else { e };
        let line = s.subrange(start, stop);
        if line.len() >= 7 && line.take(7) == hid_id_key() {
            Some(line.skip(7))
        } else if e < s.len() {
            proof {
                lemma_next_of(s, start, 10);
            }
            hid_id_value(s, e + 1)
        } else {
            None
        }
    }
}

/// `bus:vid:pid[:...]` to (VID, PID): the second and third `:`-separated
/// fields parsed as hexadecimal `u32` and cut to 16 bits.
pub open spec fn hid_ids(v: Seq<u8>) -> Option<(u16, u16)> {
    let c1 = next_of(v, 0, 58);
    let c2 = next_of(v, c1 + 1, 58);
    let c3 = next_of(v, c2 + 1, 58);
    if c1 >= v.len() || c2 >= v.len() {
        None
    } else {
        match (hex_u32(v.subrange(c1 + 1, c2)), hex_u32(v.subrange(c2 + 1, c3))) {
            (Some(a), Some(b)) => Some(((a % 65536) as u16, (b % 65536) as u16)),
            _ => None,
        }
    }
}

/// Index of the first byte `c` at or after `i`, or the length.
fn find_from(s: &[u8], i: usize, c: u8) -> (r: usize)
    requires
        i <= s.len(),
    ensures
        r == next_of(s@, i as int, c),
        i <= r <= s.len(),
{
    let mut k = i;
    proof {
        lemma_next_of(s@, i as int, c);
    }
    while k < s.len() && s[k] != c
        invariant
            i <= k <= s.len(),
            next_of(s@, k as int, c) == next_of(s@, i as int, c),
        decreases s.len() - k,
    {
        k = k + 1;
    }
    assert(next_of(s@, k as int, c) == k as int);
    k
}

/// `HID_ID=0003:000025A7:0000FA7C` to (VID, PID).
pub fn parse_hid_id(uevent: &str) -> (r: Option<(u16, u16)>)
    ensures
        r == match hid_id_value(uevent.spec_bytes(), 0) {
            Some(v) => hid_ids(v),
            None => None,
        },
{
    let s = uevent.as_bytes();
    let mut start: usize = 0;
    while start < s.len()
        invariant
            start <= s.len(),
            s@ == uevent.spec_bytes(),
            hid_id_value(s@, start as int) == hid_id_value(s@, 0),
        decreases s.len() - start,
    {
        let e = find_from(s, start, 10);
        let stop = if e < s.len() && e > start && s[e - 1] == 13 { e - 1 } else { e };
        let line = &s[start..stop];
        if line.len() >= 7 && line[0] == 72 && line[1] == 73 && line[2] == 68 && line[3] == 95
            && line[4] == 73 && line[5] == 68 && line[6] == 61 {
            assert(line@.take(7) =~= hid_id_key());
            let rest = &line[7..line.len()];
            assert(rest@ =~= line@.skip(7));
            assert(hid_id_value(s@, start as int) == Some(line@.skip(7)));
            return parse_ids(rest);
        }
        assert(!(line@.len() >= 7 && line@.take(7) == hid_id_key())) by {
            if line@.len() >= 7 && line@.take(7) == hid_id_key() {
                assert(line@[0] == line@.take(7)[0]);
                assert(line@[1] == line@.take(7)[1]);
                assert(line@[2] == line@.take(7)[2]);
                assert(line@[3] == line@.take(7)[3]);
                assert(line@[4] == line@.take(7)[4]);
                assert(line@[5] == line@.take(7)[5]);
                assert(line@[6] == line@.take(7)[6]);
            }
        };
        if e >= s.len() {
            assert(hid_id_value(s@, start as int) is None);
            return None;
        }
        assert(hid_id_value(s@, start as int) == hid_id_value(s@, e + 1));
        start = e + 1;
    }
    None
}

fn parse_ids(v: &[u8]) -> (r: Option<(u16, u16)>)
    ensures
        r == hid_ids(v@),
{
    let c1 = find_from(v, 0, 58);
    if c1 >= v.len() {
        return None;
    }
    let c2 = find_from(v, c1 + 1, 58);
    if c2 >= v.len() {
        return None;
    }
    let c3 = find_from(v, c2 + 1, 58);
    let vid = match parse_hex_u32(&v[c1 + 1..c2]) {
        Some(x) => x,
        None => return None,
    };
    let pid = match parse_hex_u32(&v[c2 + 1..c3]) {
        Some(x) => x,
        None => return None,
    };
    assert(vid as u16 == (vid % 65536) as u16) by (bit_vector);
    assert(pid as u16 == (pid % 65536) as u16) by (bit_vector);
    Some((vid as u16, pid as u16))
}

/// Size of the data of a short item with this prefix.
pub open spec fn item_size(prefix: u8) -> int {
    if prefix % 4 == 3 { 4 } else { (prefix % 4) as int }
}

/// Scans the report descriptor from index `i`, `cur` being the current
/// report ID: a FEATURE item (tag 0xB0) under report ID `id` is found.
pub open spec fn feature_from(desc: Seq<u8>, i: int, cur: u8, id: u8) -> bool
    decreases (if i < desc.len() { desc.len() - i } else { 0 }),
{
    if i < 0 || i >= desc.len() {
        false
    } else {
        let prefix = desc[i];
        let next_byte: u8 = if i + 1 < desc.len() { desc[i + 1] } else { 0 };
        if prefix == 0xFE {
            feature_from(desc, i + 3 + next_byte, cur, id)
        } else {
            let tag = prefix - prefix % 4;
            if tag == 0x84 {
                feature_from(desc, i + 1 + item_size(prefix), next_byte, id)
            } else if tag == 0xB0 && cur == id {
                true
            } else {
                feature_from(desc, i + 1 + item_size(prefix), cur, id)
            }
        }
    }
}

/// The report descriptor has a FEATURE item (0xB1) under report ID `id`.
pub fn has_feature_report(desc: &[u8], id: u8) -> (r: bool)
    ensures
        r == feature_from(desc@, 0, 0, id),
{
    let mut i: usize = 0;
    let mut cur_id: u8 = 0;
    while i < desc.len()
        invariant
            feature_from(desc@, i as int, cur_id, id) == feature_from(desc@, 0, 0, id),
        decreases (if i < desc.len() { desc.len() - i } else { 0 }),
    {
        let prefix = desc[i];
        let next_byte = if i + 1 < desc.len() { desc[i + 1] } else { 0 };
        let ghost gi = i as int;
        let ghost size_spec = item_size(prefix);
        if prefix == 0xFE {
            assert(feature_from(desc@, gi, cur_id, id) == feature_from(desc@, gi + 3 + next_byte, cur_id, id));
            // long item
            match i.checked_add(3 + next_byte as usize) {
                Some(n) => {
                    i = n;
                },
                None => {
                    return false;
                },
            }
            continue;
        }
        assert(prefix & 0x03 == prefix % 4) by (bit_vector);
        assert(prefix & 0xFC == prefix - prefix % 4) by (bit_vector);
        let size: usize = match prefix & 0x03 {
            3 => 4,
            n => n as usize,
        };
        let tag = prefix & 0xFC;
        assert(size == size_spec);
        let ghost old_cur = cur_id;
        if tag == 0x84 {
            assert(feature_from(desc@, gi, old_cur, id) == feature_from(desc@, gi + 1 + size_spec, next_byte, id));
            cur_id = next_byte;
        } else if tag == 0xB0 && cur_id == id {
            return true;
        } else {
            assert(feature_from(desc@, gi, old_cur, id) == feature_from(desc@, gi + 1 + size_spec, old_cur, id));
        }
        match i.checked_add(1 + size) {
            Some(n) => {
                i = n;
            },
            None => {
                return false;
            },
        }
    }
    assert(!feature_from(desc@, i as int, cur_id, id));
    false
}

} // verus!
