//! What writing regions does to a profile image, and what reading it back
//! gives.
use vstd::prelude::*;
use super::{
    DeviceConfig, Region, REGION_COUNT, PROFILE_LEN, DPI_SLOTS, region_addr, pair_bytes, pair_at,
    field_at, field_ok, slice_at, level_dpi_at, level_color_at, level_at, button_slot_at,
    button_at, led_at, decoded, warnings, note, dpi_table_bad, buttons_bad, changed_upto,
    color_bytes, flag_byte, flag_or, field_or, dpi_table_bytes, dpi_color_bytes, button_bytes,
    PollingRate, addr,
};
use crate::protocol::buttons::{ButtonAction, slot_roundtrip};
use crate::protocol::dpi::{snap_spec, level_bytes, level_roundtrip, level_value};
use crate::protocol::led::{LedConfig, clamp_level, led_bytes, led_encode_decode, led_value};
use crate::protocol::packet::{checksum_spec, CHECKSUM_BASE};

verus! {

/// The image after writing `data` at address `a`.
pub open spec fn write_at(mem: Seq<u8>, a: int, data: Seq<u8>) -> Seq<u8> {
    mem.take(a) + data + mem.skip(a + data.len())
}

/// The image after writing the regions in order.
pub open spec fn write_all(mem: Seq<u8>, rs: Seq<Region>) -> Seq<u8>
    decreases rs.len(),
{
    if rs.len() == 0 {
        mem
    } else {
        write_at(write_all(mem, rs.drop_last()), rs.last().addr as int, rs.last().data@)
    }
}

/// The image after writing the first `n` regions of a profile, in order.
pub open spec fn image_of(base: Seq<u8>, cfg: DeviceConfig, n: int) -> Seq<u8>
    decreases n,
{
    if n <= 0 {
        base
    } else {
        write_at(image_of(base, cfg, n - 1), region_addr(n - 1) as int, cfg.region_data(n - 1))
    }
}

/// Size of region `i`.
pub open spec fn region_size(i: int) -> int {
    if i == 4 || i == 5 {
        32
    } else if i == 6 {
        64
    } else if i == 7 {
        7
    } else {
        2
    }
}

/// Bytes of region `i` in an image.
pub open spec fn region_in(mem: Seq<u8>, i: int) -> Seq<u8> {
    mem.subrange(region_addr(i) as int, region_addr(i) + region_size(i))
}

/// The image holds every region of the profile.
pub open spec fn holds(mem: Seq<u8>, cfg: DeviceConfig) -> bool {
    &&& mem.len() >= PROFILE_LEN
    &&& forall|i: int| 0 <= i < REGION_COUNT ==> #[trigger] region_in(mem, i) == cfg.region_data(i)
}

impl DeviceConfig {
    /// A profile that reads back unchanged once written: every field in the
    /// range `decode` accepts, DPI values on the grid, lighting levels in
    /// 1..=10 and every button action canonical.
    pub open spec fn is_writable(self) -> bool {
        &&& 1 <= self.dpi_count <= DPI_SLOTS
        &&& self.dpi_active < self.dpi_count
        &&& forall|i: int| 0 <= i < DPI_SLOTS ==> snap_spec(#[trigger] self.dpi[i].dpi) == self.dpi[i].dpi
        &&& 1 <= self.lod <= 2
        &&& self.debounce_ms <= 30
        &&& self.sleep_x10s > 0
        &&& 1 <= self.led.speed <= 10
        &&& 1 <= self.led.brightness <= 10
        &&& forall|i: int| 0 <= i < 16 ==> (#[trigger] self.buttons[i]).is_canonical()
    }
}

pub(crate) proof fn lemma_region_len(cfg: DeviceConfig, i: int)
    requires
        0 <= i < REGION_COUNT,
    ensures
        cfg.region_data(i).len() == region_size(i),
        region_addr(i) + region_size(i) <= PROFILE_LEN,
{
}

/// Writing the regions a profile gives, in order, builds `image_of`; each
/// region lies inside the profile range.
pub proof fn regions_write_image(base: Seq<u8>, cfg: DeviceConfig, rs: Seq<Region>, j: int)
    requires
        0 <= j <= rs.len(),
        rs.len() == REGION_COUNT,
        forall|i: int| 0 <= i < REGION_COUNT ==> cfg.is_region(i, #[trigger] rs[i]),
    ensures
        write_all(base, rs.take(j)) == image_of(base, cfg, j),
        j < REGION_COUNT ==> rs[j].addr == region_addr(j) && rs[j].data@.len() == region_size(j)
            && region_addr(j) + region_size(j) <= PROFILE_LEN,
    decreases j,
{
    if j < REGION_COUNT {
        assert(cfg.is_region(j, rs[j]));
        lemma_region_len(cfg, j);
    }
    if j == 0 {
        assert(rs.take(0) =~= Seq::<Region>::empty());
    } else {
        regions_write_image(base, cfg, rs, j - 1);
        assert(rs.take(j).drop_last() =~= rs.take(j - 1));
        assert(rs.take(j).last() == rs[j - 1]);
        assert(cfg.is_region(j - 1, rs[j - 1]));
    }
}

proof fn lemma_regions_disjoint(i: int, j: int)
    requires
        0 <= i < REGION_COUNT,
        0 <= j < REGION_COUNT,
        i != j,
    ensures
        region_addr(i) + region_size(i) <= region_addr(j) || region_addr(j) + region_size(j)
            <= region_addr(i),
{
}

proof fn lemma_write_at(mem: Seq<u8>, a: int, data: Seq<u8>, lo: int, hi: int)
    requires
        0 <= a,
        a + data.len() <= mem.len(),
        0 <= lo <= hi <= mem.len(),
    ensures
        write_at(mem, a, data).len() == mem.len(),
        write_at(mem, a, data).subrange(a, a + data.len()) == data,
        hi <= a || a + data.len() <= lo ==> write_at(mem, a, data).subrange(lo, hi) == mem.subrange(lo, hi),
{
    let w = write_at(mem, a, data);
    assert(w.subrange(a, a + data.len()) =~= data);
    if hi <= a || a + data.len() <= lo {
        assert(w.subrange(lo, hi) =~= mem.subrange(lo, hi));
    }
}

/// Writing regions with increasing indices puts each written region in place
/// and leaves the others as they were.
proof fn lemma_write_regions(mem: Seq<u8>, cfg: DeviceConfig, rs: Seq<Region>, idx: Seq<int>)
    requires
        mem.len() >= PROFILE_LEN,
        rs.len() == idx.len(),
        forall|j: int| 0 <= j < idx.len() ==> 0 <= #[trigger] idx[j] < REGION_COUNT,
        forall|j: int| 0 <= j < idx.len() ==> cfg.is_region(idx[j], #[trigger] rs[j]),
        forall|j: int, k: int| 0 <= j < k < idx.len() ==> idx[j] < idx[k],
    ensures
        write_all(mem, rs).len() == mem.len(),
        forall|i: int|
            0 <= i < REGION_COUNT ==> #[trigger] region_in(write_all(mem, rs), i) == if idx.contains(i) {
                cfg.region_data(i)
            } else {
                region_in(mem, i)
            },
    decreases rs.len(),
{
    if rs.len() > 0 {
        let n = rs.len() - 1;
        lemma_write_regions(mem, cfg, rs.drop_last(), idx.drop_last());
        let before = write_all(mem, rs.drop_last());
        let last = idx[n];
        assert(cfg.is_region(last, rs[n]));
        assert(rs.last() == rs[n]);
        assert(write_all(mem, rs) == write_at(before, region_addr(last) as int, rs[n].data@));
        lemma_region_len(cfg, last);
        assert forall|i: int| 0 <= i < REGION_COUNT implies #[trigger] region_in(write_all(mem, rs), i)
            == if idx.contains(i) { cfg.region_data(i) } else { region_in(mem, i) } by {
            lemma_region_len(cfg, i);
            lemma_write_at(
                before,
                region_addr(last) as int,
                rs[n].data@,
                region_addr(i) as int,
                region_addr(i) + region_size(i),
            );
            if i == last {
                assert(idx[n] == i);
                assert(idx.contains(i));
                assert(region_in(write_all(mem, rs), i) == rs[n].data@);
            } else {
                assert(region_in(write_all(mem, rs), i) == region_in(before, i));
                lemma_regions_disjoint(i, last);
                assert(idx.contains(i) == idx.drop_last().contains(i)) by {
                    if idx.contains(i) {
                        let j = choose|j: int| 0 <= j < idx.len() && idx[j] == i;
                        assert(j != n);
                        assert(idx.drop_last()[j] == i);
                    }
                };
            }
        };
        lemma_write_at(before, region_addr(last) as int, rs[n].data@, 0, 0);
    }
}

proof fn lemma_pair_read(mem: Seq<u8>, a: u16, v: u8)
    requires
        a as int + 2 <= mem.len(),
        mem.subrange(a as int, a + 2) == pair_bytes(v),
    ensures
        pair_at(mem, a as int) == Some(v),
{
    assert(mem[a as int] == mem.subrange(a as int, a + 2)[0]);
    assert(mem[a + 1] == mem.subrange(a as int, a + 2)[1]);
}

/// A profile image that holds every region of a writable profile decodes to
/// that profile, without warnings.
pub proof fn written_profile_decodes(mem: Seq<u8>, cfg: DeviceConfig)
    requires
        holds(mem, cfg),
        cfg.is_writable(),
    ensures
        decoded(mem) == cfg,
        warnings(mem) == Seq::<Seq<char>>::empty(),
{
    assert forall|i: int| 0 <= i < REGION_COUNT implies region_in(mem, i) == cfg.region_data(i) by {};
    assert(region_in(mem, 0) == cfg.region_data(0));
    assert(region_in(mem, 1) == cfg.region_data(1));
    assert(region_in(mem, 2) == cfg.region_data(2));
    assert(region_in(mem, 3) == cfg.region_data(3));
    assert(region_in(mem, 4) == cfg.region_data(4));
    assert(region_in(mem, 5) == cfg.region_data(5));
    assert(region_in(mem, 6) == cfg.region_data(6));
    assert(region_in(mem, 7) == cfg.region_data(7));
    assert(region_in(mem, 8) == cfg.region_data(8));
    assert(region_in(mem, 9) == cfg.region_data(9));
    assert(region_in(mem, 10) == cfg.region_data(10));
    assert(region_in(mem, 11) == cfg.region_data(11));
    assert(region_in(mem, 12) == cfg.region_data(12));
    lemma_pair_read(mem, addr::POLLING, cfg.polling.hw_code());
    lemma_pair_read(mem, addr::DPI_COUNT, cfg.dpi_count);
    lemma_pair_read(mem, addr::DPI_ACTIVE, cfg.active_written());
    lemma_pair_read(mem, addr::LOD, cfg.lod);
    lemma_pair_read(mem, addr::DEBOUNCE, cfg.debounce_ms);
    lemma_pair_read(mem, addr::SLEEP, cfg.sleep_x10s);
    lemma_pair_read(mem, addr::ANGLE_SNAP, flag_byte(cfg.angle_snap));
    lemma_pair_read(mem, addr::RIPPLE, flag_byte(cfg.ripple));
    lemma_pair_read(mem, addr::LED_OFF_MOVING, flag_byte(cfg.led_off_moving));
    assert(field_at(mem, addr::POLLING) == Some(cfg.polling.hw_code()));
    assert(field_at(mem, addr::DPI_COUNT) == Some(cfg.dpi_count));
    assert(field_at(mem, addr::DPI_ACTIVE) == Some(cfg.dpi_active));
    assert(field_at(mem, addr::LOD) == Some(cfg.lod));
    assert(field_at(mem, addr::DEBOUNCE) == Some(cfg.debounce_ms));
    assert(field_at(mem, addr::SLEEP) == Some(cfg.sleep_x10s));
    assert(field_at(mem, addr::ANGLE_SNAP) == Some(flag_byte(cfg.angle_snap)));
    assert(field_at(mem, addr::RIPPLE) == Some(flag_byte(cfg.ripple)));
    assert(field_at(mem, addr::LED_OFF_MOVING) == Some(flag_byte(cfg.led_off_moving)));
    lemma_levels_read(mem, cfg);
    lemma_buttons_read(mem, cfg);
    lemma_led_read(mem, cfg);
    let d = decoded(mem);
    assert(d.dpi =~= cfg.dpi);
    assert(d.buttons =~= cfg.buttons);
    assert(!dpi_table_bad(mem, cfg.dpi_count));
    assert(!buttons_bad(mem));
    assert(warnings(mem) =~= Seq::<Seq<char>>::empty());
}

proof fn lemma_levels_read(mem: Seq<u8>, cfg: DeviceConfig)
    requires
        holds(mem, cfg),
        cfg.is_writable(),
    ensures
        forall|i: int| 0 <= i < 8 ==> #[trigger] level_dpi_at(mem, i) == Some(cfg.dpi[i].dpi),
        forall|i: int| 0 <= i < 8 ==> #[trigger] level_color_at(mem, i) == Some(cfg.dpi[i].color),
        forall|i: int| 0 <= i < 8 ==> #[trigger] level_at(mem, i) == cfg.dpi[i],
{
    assert(region_in(mem, 4) == cfg.region_data(4));
    assert(region_in(mem, 5) == cfg.region_data(5));
    assert forall|i: int| 0 <= i < 8 implies #[trigger] level_dpi_at(mem, i) == Some(cfg.dpi[i].dpi) by {
        let raw = mem.subrange(addr::DPI_TABLE + 4 * i, addr::DPI_TABLE + 4 * i + 4);
        assert(raw =~= level_bytes(cfg.dpi[i].dpi)) by {
            assert forall|k: int| 0 <= k < 4 implies raw[k] == level_bytes(cfg.dpi[i].dpi)[k] by {
                assert(raw[k] == region_in(mem, 4)[4 * i + k]);
                assert((4 * i + k) / 4 == i);
                assert((4 * i + k) % 4 == k);
            };
        };
        level_roundtrip(cfg.dpi[i].dpi);
        assert(snap_spec(cfg.dpi[i].dpi) == cfg.dpi[i].dpi);
    };
    assert forall|i: int| 0 <= i < 8 implies #[trigger] level_color_at(mem, i) == Some(cfg.dpi[i].color) by {
        let c = mem.subrange(addr::DPI_COLORS + 4 * i, addr::DPI_COLORS + 4 * i + 4);
        let col = cfg.dpi[i].color;
        assert(c =~= color_bytes(col)) by {
            assert forall|k: int| 0 <= k < 4 implies c[k] == color_bytes(col)[k] by {
                assert(c[k] == region_in(mem, 5)[4 * i + k]);
                assert((4 * i + k) / 4 == i);
                assert((4 * i + k) % 4 == k);
            };
        };
        assert(c.take(3) =~= seq![col.r, col.g, col.b]);
    };
    assert forall|i: int| 0 <= i < 8 implies #[trigger] level_at(mem, i) == cfg.dpi[i] by {
        assert(level_dpi_at(mem, i) == Some(cfg.dpi[i].dpi));
        assert(level_color_at(mem, i) == Some(cfg.dpi[i].color));
    };
}

proof fn lemma_buttons_read(mem: Seq<u8>, cfg: DeviceConfig)
    requires
        holds(mem, cfg),
        cfg.is_writable(),
    ensures
        forall|i: int| 0 <= i < 16 ==> #[trigger] button_slot_at(mem, i) == Some(cfg.buttons[i]),
        forall|i: int| 0 <= i < 16 ==> #[trigger] button_at(mem, i) == cfg.buttons[i],
{
    assert(region_in(mem, 6) == cfg.region_data(6));
    assert forall|i: int| 0 <= i < 16 implies #[trigger] button_slot_at(mem, i) == Some(cfg.buttons[i]) by {
        let b = cfg.buttons[i];
        let raw = mem.subrange(addr::BUTTONS + 4 * i, addr::BUTTONS + 4 * i + 4);
        assert(raw =~= b.slot_bytes()) by {
            assert forall|k: int| 0 <= k < 4 implies raw[k] == b.slot_bytes()[k] by {
                assert(raw[k] == region_in(mem, 6)[4 * i + k]);
                assert((4 * i + k) / 4 == i);
                assert((4 * i + k) % 4 == k);
            };
        };
        slot_roundtrip(b);
        assert(b.is_canonical());
    };
    assert forall|i: int| 0 <= i < 16 implies #[trigger] button_at(mem, i) == cfg.buttons[i] by {
        assert(button_slot_at(mem, i) == Some(cfg.buttons[i]));
    };
}

proof fn lemma_led_read(mem: Seq<u8>, cfg: DeviceConfig)
    requires
        holds(mem, cfg),
        cfg.is_writable(),
    ensures
        led_at(mem) == Some(cfg.led),
{
    assert(region_in(mem, 7) == cfg.region_data(7));
    led_encode_decode(cfg.led);
    let l = cfg.led;
    assert(clamp_level(l.speed) == l.speed);
    assert(clamp_level(l.brightness) == l.brightness);
    assert(LedConfig { speed: clamp_level(l.speed), brightness: clamp_level(l.brightness), ..l } == l);
}

/// Writing every region of a profile into an image (at least `PROFILE_LEN`
/// bytes) gives an image that holds the profile.
pub proof fn writing_all_regions_holds(mem: Seq<u8>, cfg: DeviceConfig, rs: Seq<Region>)
    requires
        mem.len() >= PROFILE_LEN,
        rs.len() == REGION_COUNT,
        forall|i: int| 0 <= i < REGION_COUNT ==> cfg.is_region(i, #[trigger] rs[i]),
    ensures
        holds(write_all(mem, rs), cfg),
{
    let idx = Seq::new(REGION_COUNT as nat, |i: int| i);
    lemma_write_regions(mem, cfg, rs, idx);
    assert forall|i: int| 0 <= i < REGION_COUNT implies #[trigger] region_in(write_all(mem, rs), i) == cfg.region_data(i) by {
        assert(idx[i] == i);
        assert(idx.contains(i));
    };
}

proof fn lemma_changed_upto(new: DeviceConfig, old: DeviceConfig, n: int)
    requires
        0 <= n,
    ensures
        forall|j: int| 0 <= j < changed_upto(new, old, n).len() ==> 0 <= #[trigger] changed_upto(new, old, n)[j] < n,
        forall|j: int, k: int|
            0 <= j < k < changed_upto(new, old, n).len() ==> changed_upto(new, old, n)[j]
                < changed_upto(new, old, n)[k],
        forall|i: int|
            0 <= i < n ==> (#[trigger] changed_upto(new, old, n).contains(i) <==> new.region_data(i)
                != old.region_data(i)),
    decreases n,
{
    if n > 0 {
        lemma_changed_upto(new, old, n - 1);
        let prev = changed_upto(new, old, n - 1);
        let cur = changed_upto(new, old, n);
        assert forall|i: int| 0 <= i < n implies (cur.contains(i) <==> new.region_data(i) != old.region_data(i)) by {
            if new.region_data(n - 1) != old.region_data(n - 1) {
                assert(cur == prev.push(n - 1));
                if i < n - 1 {
                    if cur.contains(i) {
                        let j = choose|j: int| 0 <= j < cur.len() && cur[j] == i;
                        assert(j < prev.len());
                        assert(prev[j] == i);
                    }
                    if prev.contains(i) {
                        let j = choose|j: int| 0 <= j < prev.len() && prev[j] == i;
                        assert(cur[j] == i);
                    }
                } else {
                    assert(cur[cur.len() - 1] == i);
                }
            } else {
                if i == n - 1 {
                    if cur.contains(i) {
                        let j = choose|j: int| 0 <= j < cur.len() && cur[j] == i;
                        assert(cur[j] < n - 1);
                    }
                }
            }
        };
    }
}

/// Writing only the changed regions of `new` over an image that holds `old`
/// gives an image that holds `new`.
pub proof fn writing_changed_regions_holds(
    mem: Seq<u8>,
    new: DeviceConfig,
    old: DeviceConfig,
    rs: Seq<Region>,
)
    requires
        holds(mem, old),
        rs.len() == changed_upto(new, old, REGION_COUNT as int).len(),
        forall|j: int|
            0 <= j < rs.len() ==> new.is_region(
                changed_upto(new, old, REGION_COUNT as int)[j],
                #[trigger] rs[j],
            ),
    ensures
        holds(write_all(mem, rs), new),
{
    let idx = changed_upto(new, old, REGION_COUNT as int);
    lemma_changed_upto(new, old, REGION_COUNT as int);
    lemma_write_regions(mem, new, rs, idx);
    assert forall|i: int| 0 <= i < REGION_COUNT implies #[trigger] region_in(write_all(mem, rs), i) == new.region_data(i) by {
        assert(region_in(mem, i) == old.region_data(i));
    };
}

/// The read-modify-write cycle: over an image that holds `old`, writing the
/// regions that changed in a writable `new` and decoding gives `new` back
/// without warnings.
pub proof fn read_modify_write_cycle(mem: Seq<u8>, new: DeviceConfig, old: DeviceConfig, rs: Seq<Region>)
    requires
        holds(mem, old),
        new.is_writable(),
        rs.len() == changed_upto(new, old, REGION_COUNT as int).len(),
        forall|j: int|
            0 <= j < rs.len() ==> new.is_region(
                changed_upto(new, old, REGION_COUNT as int)[j],
                #[trigger] rs[j],
            ),
    ensures
        decoded(write_all(mem, rs)) == new,
        warnings(write_all(mem, rs)) == Seq::<Seq<char>>::empty(),
{
    writing_changed_regions_holds(mem, new, old, rs);
    written_profile_decodes(write_all(mem, rs), new);
}

proof fn lemma_note_contains(a: Seq<Seq<char>>, cond: bool, name: Seq<char>, x: Seq<char>)
    ensures
        (a + note(cond, name)).contains(x) <==> (a.contains(x) || (cond && x == name)),
{
    let b = a + note(cond, name);
    if b.contains(x) {
        let k = choose|k: int| 0 <= k < b.len() && b[k] == x;
        if k >= a.len() {
            assert(note(cond, name)[k - a.len()] == x);
        }
    }
    if a.contains(x) {
        let k = choose|k: int| 0 <= k < a.len() && a[k] == x;
        assert(b[k] == x);
    }
    if cond && x == name {
        assert(b[a.len() as int] == x);
    }
}

/// Names of the decode warnings, in the order they are given.
pub open spec fn warning_names() -> Seq<Seq<char>> {
    seq![
        "частота опроса"@,
        "число ступеней DPI"@,
        "активная ступень DPI"@,
        "LOD"@,
        "debounce"@,
        "время до сна"@,
        "выпрямление линии"@,
        "ripple"@,
        "гашение подсветки"@,
        "таблица DPI"@,
        "назначение кнопок"@,
        "подсветка"@,
    ]
}

/// Conditions of the decode warnings, in the same order.
pub open spec fn warning_conds(mem: Seq<u8>) -> Seq<bool> {
    seq![
        field_at(mem, addr::POLLING) is None,
        field_at(mem, addr::DPI_COUNT) is None,
        field_at(mem, addr::DPI_ACTIVE) is None,
        field_at(mem, addr::LOD) is None,
        field_at(mem, addr::DEBOUNCE) is None,
        field_at(mem, addr::SLEEP) is None,
        field_at(mem, addr::ANGLE_SNAP) is None,
        field_at(mem, addr::RIPPLE) is None,
        field_at(mem, addr::LED_OFF_MOVING) is None,
        dpi_table_bad(mem, field_or(mem, addr::DPI_COUNT, 6)),
        buttons_bad(mem),
        led_at(mem) is None,
    ]
}

/// The first `n` notes of the warnings.
spec fn notes_upto(mem: Seq<u8>, n: int) -> Seq<Seq<char>>
    decreases n,
{
    if n <= 0 {
        Seq::empty()
    } else {
        notes_upto(mem, n - 1) + note(warning_conds(mem)[n - 1], warning_names()[n - 1])
    }
}

proof fn lemma_notes_upto_contains(mem: Seq<u8>, n: int, x: Seq<char>)
    requires
        0 <= n <= 12,
    ensures
        notes_upto(mem, n).contains(x) <==> exists|k: int|
            0 <= k < n && warning_conds(mem)[k] && #[trigger] warning_names()[k] == x,
    decreases n,
{
    if n > 0 {
        lemma_notes_upto_contains(mem, n - 1, x);
        lemma_note_contains(notes_upto(mem, n - 1), warning_conds(mem)[n - 1], warning_names()[n - 1], x);
        if notes_upto(mem, n).contains(x) && !notes_upto(mem, n - 1).contains(x) {
            assert(warning_names()[n - 1] == x);
        }
    }
}

proof fn lemma_warning_names_distinct()
    ensures
        forall|j: int, k: int| 0 <= j < 12 && 0 <= k < 12 && j != k ==> #[trigger] warning_names()[j] != #[trigger] warning_names()[k],
{
    reveal_strlit("частота опроса");
    reveal_strlit("число ступеней DPI");
    reveal_strlit("активная ступень DPI");
    reveal_strlit("LOD");
    reveal_strlit("debounce");
    reveal_strlit("время до сна");
    reveal_strlit("выпрямление линии");
    reveal_strlit("ripple");
    reveal_strlit("гашение подсветки");
    reveal_strlit("таблица DPI");
    reveal_strlit("назначение кнопок");
    reveal_strlit("подсветка");
    let w = warning_names();
    assert forall|j: int, k: int| 0 <= j < 12 && 0 <= k < 12 && j != k implies #[trigger] w[j] != #[trigger] w[k] by {
        if w[j].len() == w[k].len() {
            assert(w[j][0] != w[k][0] || w[j][1] != w[k][1]);
        }
    };
}

proof fn lemma_warning_contains(mem: Seq<u8>, k: int)
    requires
        0 <= k < 12,
    ensures
        warning_conds(mem)[k] <==> warnings(mem).contains(warning_names()[k]),
{
    lemma_notes_upto_contains(mem, 12, warning_names()[k]);
    lemma_warning_names_distinct();
    reveal_with_fuel(notes_upto, 13);
    assert(notes_upto(mem, 12) =~= warnings(mem));
}

/// A single-byte field reads back when its check byte is `0x55 - v` and its
/// value is in range; otherwise it is broken.
pub proof fn pair_field_bytes(mem: Seq<u8>)
    ensures
        forall|a: u16|
            #[trigger] field_at(mem, a) == (if a + 1 < mem.len() && mem[a + 1] == CHECKSUM_BASE.wrapping_sub(
                mem[a as int],
            ) && field_ok(a, mem[a as int]) {
                Some(mem[a as int])
            } else {
                None
            }),
{
    assert forall|a: u16|
        #[trigger] field_at(mem, a) == (if a + 1 < mem.len() && mem[a + 1] == CHECKSUM_BASE.wrapping_sub(
            mem[a as int],
        ) && field_ok(a, mem[a as int]) {
            Some(mem[a as int])
        } else {
            None
        }) by {
        if a + 1 < mem.len() {
            super::lemma_pair_checksum(mem[a as int]);
        }
    };
}

/// Every warning of `decode` is given exactly when its condition holds: a
/// single-byte field is broken (its pair damaged or its value out of range,
/// see `pair_field_bytes`), a DPI level in use is broken, a physical button
/// slot is broken, or the lighting block is broken. The names are distinct,
/// so each names one part.
pub proof fn decode_names_broken_fields(mem: Seq<u8>)
    ensures
        forall|j: int, k: int| 0 <= j < 12 && 0 <= k < 12 && j != k ==> #[trigger] warning_names()[j] != #[trigger] warning_names()[k],
        forall|k: int| 0 <= k < 12 ==> (#[trigger] warning_conds(mem)[k] <==> warnings(mem).contains(warning_names()[k])),
{
    lemma_warning_names_distinct();
    assert forall|k: int| 0 <= k < 12 implies (#[trigger] warning_conds(mem)[k] <==> warnings(mem).contains(warning_names()[k])) by {
        lemma_warning_contains(mem, k);
    };
}

proof fn lemma_notes_no_duplicates(mem: Seq<u8>, n: int)
    requires
        0 <= n <= 12,
    ensures
        notes_upto(mem, n).no_duplicates(),
    decreases n,
{
    if n > 0 {
        lemma_notes_no_duplicates(mem, n - 1);
        let p = notes_upto(mem, n - 1);
        let x = warning_names()[n - 1];
        lemma_notes_upto_contains(mem, n - 1, x);
        lemma_warning_names_distinct();
        if p.contains(x) {
            let k = choose|k: int| 0 <= k < n - 1 && warning_conds(mem)[k] && #[trigger] warning_names()[k] == x;
            assert(warning_names()[k] != warning_names()[n - 1]);
        }
        let cur = notes_upto(mem, n);
        if warning_conds(mem)[n - 1] {
            assert(cur =~= p.push(x));
            assert forall|i: int, j: int| 0 <= i < cur.len() && 0 <= j < cur.len() && i != j implies cur[i] != cur[j] by {
                if j == p.len() {
                    assert(p.contains(p[i]));
                } else if i == p.len() {
                    assert(p.contains(p[j]));
                }
            };
        } else {
            assert(cur =~= p);
        }
    }
}

/// Whatever the image, even an empty or short one, `decode` gives a
/// profile within the ranges it accepts, and its warnings name each part at
/// most once.
pub proof fn decoded_in_range(mem: Seq<u8>)
    ensures
        1 <= decoded(mem).dpi_count <= 8,
        decoded(mem).dpi_active < decoded(mem).dpi_count,
        1 <= decoded(mem).lod <= 2,
        decoded(mem).debounce_ms <= 30,
        decoded(mem).sleep_x10s > 0,
        forall|i: int| 0 <= i < 8 ==> 50 <= #[trigger] decoded(mem).dpi[i].dpi <= 38_000,
        1 <= decoded(mem).led.speed <= 10,
        1 <= decoded(mem).led.brightness <= 10,
        warnings(mem).no_duplicates(),
{
    let c = decoded(mem);
    lemma_led_in_range(mem);
    assert forall|i: int| 0 <= i < 8 implies 50 <= #[trigger] c.dpi[i].dpi <= 38_000 by {
        lemma_level_in_range(mem, i);
        assert(c.dpi[i] == level_at(mem, i));
    };
    lemma_warnings_no_duplicates(mem);
}

proof fn lemma_led_in_range(mem: Seq<u8>)
    ensures
        1 <= decoded(mem).led.speed <= 10,
        1 <= decoded(mem).led.brightness <= 10,
{
    if let Some(raw) = slice_at(mem, addr::LED as int, 7) {
        crate::protocol::led::led_decode_meaning(raw);
    }
}

proof fn lemma_level_in_range(mem: Seq<u8>, i: int)
    requires
        0 <= i < 8,
    ensures
        50 <= level_at(mem, i).dpi <= 38_000,
{
}

proof fn lemma_warnings_no_duplicates(mem: Seq<u8>)
    ensures
        warnings(mem).no_duplicates(),
{
    lemma_notes_no_duplicates(mem, 12);
    reveal_with_fuel(notes_upto, 13);
    assert(notes_upto(mem, 12) =~= warnings(mem));
}

/// The regions `changed_regions` writes are exactly those whose bytes
/// differ, each once, in increasing order; against an equal profile there
/// are none.
pub proof fn changed_regions_exact(new: DeviceConfig, old: DeviceConfig)
    ensures
        ({
            let c = changed_upto(new, old, REGION_COUNT as int);
            &&& forall|j: int| 0 <= j < c.len() ==> 0 <= #[trigger] c[j] < REGION_COUNT
            &&& forall|j: int, k: int| 0 <= j < k < c.len() ==> c[j] < c[k]
            &&& forall|i: int|
                0 <= i < REGION_COUNT ==> (#[trigger] c.contains(i) <==> new.region_data(i)
                    != old.region_data(i))
            &&& new == old ==> c.len() == 0
        }),
{
    lemma_changed_upto(new, old, REGION_COUNT as int);
    if new == old {
        unchanged_profile_has_no_regions(new);
    }
}

/// A profile has no changed regions against itself.
pub proof fn unchanged_profile_has_no_regions(cfg: DeviceConfig)
    ensures
        changed_upto(cfg, cfg, REGION_COUNT as int).len() == 0,
{
    lemma_changed_upto(cfg, cfg, REGION_COUNT as int);
    let c = changed_upto(cfg, cfg, REGION_COUNT as int);
    if c.len() > 0 {
        let x = c[0];
        assert(0 <= x < REGION_COUNT);
        assert(c.contains(x));
        assert(cfg.region_data(x) != cfg.region_data(x));
    }
}

/// The factory profile is writable.
pub proof fn factory_is_writable()
    ensures
        DeviceConfig::factory().is_writable(),
{
    let f = DeviceConfig::factory();
    assert forall|i: int| 0 <= i < DPI_SLOTS implies snap_spec(#[trigger] f.dpi[i].dpi) == f.dpi[i].dpi by {};
    assert forall|i: int| 0 <= i < 16 implies (#[trigger] f.buttons[i]).is_canonical() by {
        assert(f.buttons[i].code()@ =~= f.buttons[i].code()@);
    };
}

} // verus!
