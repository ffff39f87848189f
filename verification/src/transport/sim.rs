//! Mouse simulator: keeps an EEPROM image in memory and answers JM03 commands
//! like the live receiver does (checksums included).
use vstd::prelude::*;
use std::collections::VecDeque;
use crate::protocol::eeprom::{DeviceConfig, Region, REGION_COUNT};
use crate::protocol::eeprom::{changed_upto, decoded, warnings};
use crate::protocol::eeprom::image::{
    holds, image_of, write_all, write_at, regions_write_image, writing_all_regions_holds,
    lemma_region_len, read_modify_write_cycle,
};
use crate::transport::{chunk_count, chunk_len, collect, response_of, write_chunk, write_request_bytes};
use crate::protocol::packet::{
    cmd, frame_addr, frame_body, framed, is_response, packet_fields_read_back, response_build_parse,
    Packet, Response, MAX_DATA, REPORT_ID, RESPONSE_ID,
};

verus! {

/// Size of the simulated EEPROM.
pub const SIM_MEM: usize = 0x200;

/// Erased EEPROM: every byte 0xFF.
pub open spec fn erased() -> Seq<u8> {
    Seq::new(SIM_MEM as nat, |k: int| 0xFFu8)
}

/// Payload length of a request: its length byte, at most 10.
pub open spec fn req_len(p: Seq<u8>) -> int {
    if p[5] <= 10 { p[5] as int } else { 10 }
}

/// `n` bytes of the image at `a`, zeros when the range leaves the image.
pub open spec fn read_data(mem: Seq<u8>, a: int, n: int) -> Seq<u8> {
    if a + n <= SIM_MEM {
        mem.subrange(a, a + n)
    } else {
        Seq::new(n as nat, |k: int| 0u8)
    }
}

/// The image after the simulator handled request `p`.
pub open spec fn mem_after(mem: Seq<u8>, asleep: bool, p: Seq<u8>) -> Seq<u8> {
    let a = frame_addr(p) as int;
    let n = req_len(p);
    if p[1] == cmd::WRITE_EEPROM && !asleep && a + n <= SIM_MEM {
        write_at(mem, a, p.subrange(6, 6 + n))
    } else {
        mem
    }
}

/// The answer of the simulator to request `p`, if any.
pub open spec fn answer(mem: Seq<u8>, asleep: bool, battery: u8, charging: bool, p: Seq<u8>) -> Option<
    Seq<u8>,
> {
    let c = p[1];
    let a = frame_addr(p);
    let n = req_len(p);
    if c == cmd::CONNECT_STATUS {
        Some(framed(frame_body(RESPONSE_ID, c, 0, 0, 1, seq![if asleep { 0u8 } else { 1u8 }])))
    } else if c == cmd::BATTERY {
        Some(
            framed(
                frame_body(RESPONSE_ID, c, 0, 0, 2, seq![battery, if charging { 1u8 } else { 0u8 }]),
            ),
        )
    } else if c == cmd::READ_EEPROM && !asleep {
        Some(framed(frame_body(RESPONSE_ID, c, 0, a, n as u8, read_data(mem, a as int, n))))
    } else if c == cmd::WRITE_EEPROM && !asleep {
        let status: u8 = if a + n <= SIM_MEM { 0 } else { 1 };
        Some(framed(frame_body(RESPONSE_ID, c, status, a, 0, Seq::empty())))
    } else {
        None
    }
}

pub struct SimTransport {
    pub mem: [u8; 0x200],
    /// The mouse "sleeps": the receiver answers, EEPROM reads and writes get
    /// no answer.
    pub asleep: bool,
    pub battery: u8,
    pub charging: bool,
    /// Simulated radio delay, in milliseconds.
    pub latency: u64,
    /// Answers not read yet, oldest first.
    pub queue: VecDeque<Vec<u8>>,
}

impl SimTransport {
    /// The EEPROM image.
    pub open spec fn image(&self) -> Seq<u8> {
        self.mem@
    }

    /// The mouse is asleep.
    pub open spec fn is_asleep(&self) -> bool {
        self.asleep
    }

    /// Reported charge.
    pub open spec fn charge(&self) -> u8 {
        self.battery
    }

    /// Simulated radio delay, in milliseconds.
    pub open spec fn delay(&self) -> u64 {
        self.latency
    }

    /// Reported charging flag.
    pub open spec fn is_charging(&self) -> bool {
        self.charging
    }

    /// Answers not read yet, oldest first.
    pub open spec fn pending(&self) -> Seq<Seq<u8>> {
        self.queue@.map_values(|v: Vec<u8>| v@)
    }

    /// An awake simulator holding the factory profile over erased memory,
    /// battery 76 % and not charging, no delay, no answers pending.
    pub fn new() -> (s: Self)
        ensures
            s.image() == image_of(erased(), DeviceConfig::factory(), REGION_COUNT as int),
            s.image().len() == SIM_MEM,
            holds(s.image(), DeviceConfig::factory()),
            decoded(s.image()) == DeviceConfig::factory(),
            warnings(s.image()) == Seq::<Seq<char>>::empty(),
            !s.is_asleep(),
            s.charge() == 76,
            !s.is_charging(),
            s.delay() == 0,
            s.pending() == Seq::<Seq<u8>>::empty(),
    {
        let mut mem = [0xFFu8; 0x200];
        let regs = DeviceConfig::default().regions();
        let ghost base = mem@;
        assert(base =~= erased());
        let mut j: usize = 0;
        while j < regs.len()
            invariant
                j <= regs@.len() == REGION_COUNT,
                forall|i: int| 0 <= i < REGION_COUNT ==> DeviceConfig::factory().is_region(i, #[trigger] regs@[i]),
                mem@ == write_all(erased(), regs@.take(j as int)),
            decreases regs.len() - j,
        {
            let r = &regs[j];
            let a = r.addr as usize;
            proof {
                regions_write_image(erased(), DeviceConfig::factory(), regs@, j as int);
            }
            assert(a + r.data@.len() <= SIM_MEM);
            let ghost before = mem@;
            let mut k: usize = 0;
            while k < r.data.len()
                invariant
                    k <= r.data@.len(),
                    a + r.data@.len() <= SIM_MEM,
                    mem@.len() == SIM_MEM,
                    forall|x: int| 0 <= x < SIM_MEM ==> #[trigger] mem@[x] == if a <= x < a + k {
                        r.data@[x - a]
                    } else {
                        before[x]
                    },
                decreases r.data.len() - k,
            {
                mem[a + k] = r.data[k];
                k = k + 1;
            }
            assert(regs@.take(j + 1).drop_last() =~= regs@.take(j as int));
            assert(mem@ =~= write_at(before, a as int, r.data@));
            j = j + 1;
        }
        assert(regs@.take(REGION_COUNT as int) =~= regs@);
        proof {
            regions_write_image(erased(), DeviceConfig::factory(), regs@, REGION_COUNT as int);
            writing_all_regions_holds(erased(), DeviceConfig::factory(), regs@);
        }
        proof {
            crate::protocol::eeprom::image::factory_is_writable();
            crate::protocol::eeprom::image::written_profile_decodes(mem@, DeviceConfig::factory());
        }
        let s = SimTransport {
            mem,
            asleep: false,
            battery: 76,
            charging: false,
            latency: 0,
            queue: VecDeque::new(),
        };
        assert(s.pending() =~= Seq::<Seq<u8>>::empty());
        s
    }

    /// Handles a request whose checksum is correct: updates the image and
    /// gives the answer, if the device gives one.
    pub fn respond(&mut self, pkt: &Packet) -> (r: Option<[u8; 17]>)
        ensures
            final(self).image().len() == SIM_MEM,
            final(self).image() == mem_after(old(self).image(), old(self).is_asleep(), pkt.bytes()),
            final(self).is_asleep() == old(self).is_asleep(),
            final(self).charge() == old(self).charge(),
            final(self).is_charging() == old(self).is_charging(),
            final(self).delay() == old(self).delay(),
            final(self).pending() == old(self).pending(),
            match answer(old(self).image(), old(self).is_asleep(), old(self).charge(), old(self).is_charging(), pkt.bytes()) {
                Some(a) => r matches Some(b) && b@ == a,
                None => r is None,
            },
    {
        let addr = pkt.addr() as usize;
        let c = pkt.cmd();
        let n = if pkt.len() <= MAX_DATA { pkt.len() } else { MAX_DATA };
        if c == cmd::CONNECT_STATUS {
            let d = [if self.asleep { 0u8 } else { 1u8 }];
            assert(d@ =~= seq![if self.asleep { 0u8 } else { 1u8 }]);
            Some(Response::build(cmd::CONNECT_STATUS, 0, 0, &d))
        } else if c == cmd::BATTERY {
            let d = [self.battery, if self.charging { 1u8 } else { 0u8 }];
            assert(d@ =~= seq![self.battery, if self.charging { 1u8 } else { 0u8 }]);
            Some(Response::build(cmd::BATTERY, 0, 0, &d))
        } else if c == cmd::READ_EEPROM && !self.asleep {
            let mut data = [0u8; MAX_DATA];
            if addr + n <= SIM_MEM {
                let mut k: usize = 0;
                while k < n
                    invariant
                        k <= n <= MAX_DATA,
                        addr + n <= SIM_MEM,
                        data@.len() == MAX_DATA,
                        forall|x: int| 0 <= x < k ==> data@[x] == self.mem@[addr + x],
                        forall|x: int| k <= x < MAX_DATA ==> data@[x] == 0,
                    decreases n - k,
                {
                    data[k] = self.mem[addr + k];
                    k = k + 1;
                }
            }
            let part = &data[0..n];
            assert(part@ =~= read_data(self.mem@, addr as int, n as int));
            Some(Response::build(cmd::READ_EEPROM, 0, pkt.addr(), part))
        } else if c == cmd::WRITE_EEPROM && !self.asleep {
            let data = pkt.data();
            let status: u8 = if addr + data.len() <= SIM_MEM {
                let ghost before = self.mem@;
                let mut k: usize = 0;
                while k < data.len()
                    invariant
                        k <= data@.len(),
                        addr + data@.len() <= SIM_MEM,
                        self.mem@.len() == SIM_MEM,
                        self.asleep == old(self).is_asleep(),
                        self.battery == old(self).charge(),
                        self.charging == old(self).is_charging(),
                        self.latency == old(self).latency,
                        self.queue@ == old(self).queue@,
                        forall|x: int| 0 <= x < SIM_MEM ==> #[trigger] self.mem@[x] == if addr <= x < addr + k {
                            data@[x - addr]
                        } else {
                            before[x]
                        },
                    decreases data.len() - k,
                {
                    self.mem[addr + k] = data[k];
                    k = k + 1;
                }
                assert(self.mem@ =~= write_at(before, addr as int, data@));
                0
            } else {
                1
            };
            let empty: [u8; 0] = [];
            assert(empty@ =~= Seq::<u8>::empty());
            Some(Response::build(cmd::WRITE_EEPROM, status, pkt.addr(), &empty))
        } else {
            None
        }
    }

    /// Receives a request: one with a broken checksum is ignored, as the live
    /// device does; the answer to any other is queued.
    pub fn receive(&mut self, pkt: &Packet)
        ensures
            final(self).image().len() == SIM_MEM,
            !pkt.verify_spec() ==> *final(self) == *old(self),
            pkt.verify_spec() ==> {
                &&& final(self).image() == mem_after(old(self).image(), old(self).is_asleep(), pkt.bytes())
                &&& final(self).is_asleep() == old(self).is_asleep()
                &&& final(self).charge() == old(self).charge()
                &&& final(self).is_charging() == old(self).is_charging()
                &&& final(self).delay() == old(self).delay()
                &&& final(self).pending() == match answer(
                    old(self).image(),
                    old(self).is_asleep(),
                    old(self).charge(),
                    old(self).is_charging(),
                    pkt.bytes(),
                ) {
                    Some(a) => old(self).pending().push(a),
                    None => old(self).pending(),
                }
            },
    {
        if !pkt.verify() {
            return;
        }
        match self.respond(pkt) {
            Some(r) => {
                let v = vstd::slice::slice_to_vec(&r);
                let ghost before = self.queue@;
                self.queue.push_back(v);
                assert(self.pending() =~= old(self).pending().push(r@));
            },
            None => {},
        }
    }

    /// The oldest unread answer, if any.
    pub fn next_report(&mut self) -> (r: Option<Vec<u8>>)
        ensures
            old(self).pending().len() == 0 ==> r is None && final(self).pending() == old(self).pending(),
            old(self).pending().len() > 0 ==> (r matches Some(v) && v@ == old(self).pending()[0]
                && final(self).pending() == old(self).pending().drop_first()),
            final(self).image() == old(self).image(),
            final(self).image().len() == SIM_MEM,
            final(self).is_asleep() == old(self).is_asleep(),
            final(self).charge() == old(self).charge(),
            final(self).is_charging() == old(self).is_charging(),
            final(self).delay() == old(self).delay(),
    {
        let r = self.queue.pop_front();
        proof {
            if old(self).pending().len() > 0 {
                assert(self.pending() =~= old(self).pending().drop_first());
            }
        }
        r
    }

    pub fn name(&self) -> (r: String)
        ensures
            r@ == "симулятор"@,
    {
        String::from_str("симулятор")
    }
}

impl Default for SimTransport {
    fn default() -> (s: Self)
        ensures
            s.image() == image_of(erased(), DeviceConfig::factory(), REGION_COUNT as int),
            s.image().len() == SIM_MEM,
            holds(s.image(), DeviceConfig::factory()),
            decoded(s.image()) == DeviceConfig::factory(),
            warnings(s.image()) == Seq::<Seq<char>>::empty(),
            !s.is_asleep(),
            s.charge() == 76,
            !s.is_charging(),
            s.delay() == 0,
            s.pending() == Seq::<Seq<u8>>::empty(),
    {
        Self::new()
    }
}

/// The simulator reads back what it was written: after an awake simulator
/// handles a write of `d` at `a`, a read of `n <= d.len()` bytes at `a` is
/// answered with an accepted response carrying `d[..n]`.
pub proof fn sim_read_after_write(mem: Seq<u8>, battery: u8, charging: bool, a: u16, d: Seq<u8>, n: u8)
    requires
        mem.len() == SIM_MEM,
        1 <= d.len() <= MAX_DATA,
        a + d.len() <= SIM_MEM,
        n <= d.len(),
    ensures
        ({
            let w = framed(frame_body(crate::protocol::packet::REPORT_ID, cmd::WRITE_EEPROM, 0, a, d.len() as u8, d));
            let rq = framed(frame_body(crate::protocol::packet::REPORT_ID, cmd::READ_EEPROM, 0, a, n, Seq::empty()));
            let mem2 = mem_after(mem, false, w);
            let ans = answer(mem2, false, battery, charging, rq);
            &&& ans is Some
            &&& is_response(ans->0)
            &&& ans->0[1] == cmd::READ_EEPROM
            &&& ans->0[2] == 0
            &&& ans->0[5] == n
            &&& ans->0.subrange(6, 6 + n as int) == d.take(n as int)
        }),
{
    let w = framed(frame_body(crate::protocol::packet::REPORT_ID, cmd::WRITE_EEPROM, 0, a, d.len() as u8, d));
    let rq = framed(frame_body(crate::protocol::packet::REPORT_ID, cmd::READ_EEPROM, 0, a, n, Seq::empty()));
    crate::protocol::packet::packet_fields_read_back(cmd::WRITE_EEPROM, a, d);
    crate::protocol::packet::packet_fields_read_back(cmd::READ_EEPROM, a, Seq::empty());
    assert(rq[5] == n) by {
        assert(rq.take(16) =~= frame_body(crate::protocol::packet::REPORT_ID, cmd::READ_EEPROM, 0, a, n, Seq::empty()));
    };
    assert(frame_addr(rq) == a) by {
        assert(rq[3] == (a / 256) as u8);
        assert(rq[4] == (a % 256) as u8);
    };
    let mem2 = mem_after(mem, false, w);
    assert(w.subrange(6, 6 + req_len(w)) == d);
    assert(mem2 == write_at(mem, a as int, d));
    let rd = read_data(mem2, a as int, n as int);
    assert(rd =~= d.take(n as int));
    crate::protocol::packet::response_build_parse(cmd::READ_EEPROM, 0, a, rd);
    let f = framed(frame_body(RESPONSE_ID, cmd::READ_EEPROM, 0, a, n, rd));
    assert(f.subrange(6, 6 + n as int) =~= f.subrange(6, 16).take(n as int));
}

/// The image after an awake simulator handled the first `n` write requests
/// for `d` at `a`.
pub open spec fn image_after_writes(mem: Seq<u8>, a: u16, d: Seq<u8>, n: int) -> Seq<u8>
    decreases n,
{
    if n <= 0 {
        mem
    } else {
        mem_after(image_after_writes(mem, a, d, n - 1), false, write_request_bytes(a, d, n - 1))
    }
}

proof fn lemma_write_request(a: u16, d: Seq<u8>, k: int)
    requires
        0 <= k < chunk_count(d.len() as int),
        a + d.len() <= SIM_MEM,
    ensures
        ({
            let p = write_request_bytes(a, d, k);
            &&& p[1] == cmd::WRITE_EEPROM
            &&& frame_addr(p) == a + 10 * k
            &&& req_len(p) == chunk_len(d.len() as int, k)
            &&& p.subrange(6, 6 + req_len(p)) == d.subrange(10 * k, 10 * k + chunk_len(d.len() as int, k))
        }),
{
    let c = write_chunk(d, k);
    assert(c.len() == chunk_len(d.len() as int, k));
    packet_fields_read_back(cmd::WRITE_EEPROM, (a + 10 * k) as u16, c);
}

/// An awake simulator that handles, in order, the write requests
/// `write_packets(a, d)` for a range inside its memory accepts each of them
/// (status 0) and ends up with `d` written at `a`, the rest unchanged.
pub proof fn sim_writes_data(mem: Seq<u8>, battery: u8, charging: bool, a: u16, d: Seq<u8>)
    requires
        mem.len() == SIM_MEM,
        a + d.len() <= SIM_MEM,
    ensures
        image_after_writes(mem, a, d, chunk_count(d.len() as int)) == write_at(mem, a as int, d),
        forall|k: int|
            0 <= k < chunk_count(d.len() as int) ==> #[trigger] answer(
                image_after_writes(mem, a, d, k),
                false,
                battery,
                charging,
                write_request_bytes(a, d, k),
            ) == Some(framed(frame_body(RESPONSE_ID, cmd::WRITE_EEPROM, 0, (a + 10 * k) as u16, 0, Seq::empty()))),
{
    lemma_writes_prefix(mem, a, d, chunk_count(d.len() as int));
    let n = d.len() as int;
    assert(d.take(if 10 * chunk_count(n) < n { 10 * chunk_count(n) } else { n }) =~= d);
    assert forall|k: int| 0 <= k < chunk_count(d.len() as int) implies #[trigger] answer(
        image_after_writes(mem, a, d, k),
        false,
        battery,
        charging,
        write_request_bytes(a, d, k),
    ) == Some(framed(frame_body(RESPONSE_ID, cmd::WRITE_EEPROM, 0, (a + 10 * k) as u16, 0, Seq::empty()))) by {
        lemma_write_request(a, d, k);
    };
}

proof fn lemma_writes_prefix(mem: Seq<u8>, a: u16, d: Seq<u8>, n: int)
    requires
        mem.len() == SIM_MEM,
        a + d.len() <= SIM_MEM,
        0 <= n <= chunk_count(d.len() as int),
    ensures
        image_after_writes(mem, a, d, n) == write_at(
            mem,
            a as int,
            d.take(if 10 * n < d.len() { 10 * n } else { d.len() as int }),
        ),
    decreases n,
{
    if n == 0 {
        assert(write_at(mem, a as int, d.take(0)) =~= mem);
    } else {
        lemma_writes_prefix(mem, a, d, n - 1);
        lemma_write_request(a, d, n - 1);
        let k = n - 1;
        let len = chunk_len(d.len() as int, k);
        let prev = d.take(10 * k);
        assert(10 * k < d.len());
        let cur = d.take(if 10 * n < d.len() { 10 * n } else { d.len() as int });
        assert(cur.len() == 10 * k + len);
        let w = write_at(mem, a as int, prev);
        assert(write_at(w, a + 10 * k, d.subrange(10 * k, 10 * k + len)) =~= write_at(mem, a as int, cur));
    }
}

/// Read request `k` of a read of `len` bytes at `a`.
pub open spec fn read_request(a: u16, len: int, k: int) -> Seq<u8> {
    framed(frame_body(REPORT_ID, cmd::READ_EEPROM, 0, (a + 10 * k) as u16, chunk_len(len, k) as u8, Seq::empty()))
}

/// An awake simulator's answers to the read requests of a range inside its
/// memory, taken as `EepromRead` takes them, give that range of the memory.
pub proof fn sim_reads_data(mem: Seq<u8>, battery: u8, charging: bool, a: u16, len: int, answers: Seq<Response>)
    requires
        mem.len() == SIM_MEM,
        0 <= len,
        a + len <= SIM_MEM,
        answers.len() == chunk_count(len),
        forall|k: int|
            0 <= k < answers.len() ==> #[trigger] answers[k] == response_of(
                answer(mem, false, battery, charging, read_request(a, len, k))->0,
            ),
    ensures
        collect(len, answers) == mem.subrange(a as int, a + len),
{
    crate::transport::eeprom_read_plan(len, answers);
    let c = collect(len, answers);
    assert forall|i: int| 0 <= i < len implies c[i] == mem[a + i] by {
        let k = i / 10;
        assert(0 <= k < answers.len());
        let n = chunk_len(len, k);
        assert(10 * k <= i < 10 * k + n);
        let rq = read_request(a, len, k);
        packet_fields_read_back(cmd::READ_EEPROM, (a + 10 * k) as u16, Seq::empty());
        assert(rq[5] == n) by {
            assert(rq.take(16) =~= frame_body(REPORT_ID, cmd::READ_EEPROM, 0, (a + 10 * k) as u16, n as u8, Seq::empty()));
        };
        assert(frame_addr(rq) == a + 10 * k) by {
            assert(rq[3] == ((a + 10 * k) as u16 / 256) as u8);
            assert(rq[4] == ((a + 10 * k) as u16 % 256) as u8);
        };
        let rd = read_data(mem, a + 10 * k, n);
        assert(rd =~= mem.subrange(a + 10 * k, a + 10 * k + n));
        let f = framed(frame_body(RESPONSE_ID, cmd::READ_EEPROM, 0, (a + 10 * k) as u16, n as u8, rd));
        assert(answer(mem, false, battery, charging, rq) == Some(f));
        response_build_parse(cmd::READ_EEPROM, 0, (a + 10 * k) as u16, rd);
        crate::transport::lemma_response_of_fields(f);
        assert(answers[k].data@ == f.subrange(6, 16));
        assert(c.subrange(10 * k, 10 * k + n)[i - 10 * k] == c[i]);
        assert(answers[k].data@.take(n)[i - 10 * k] == rd[i - 10 * k]);
    };
    assert(c =~= mem.subrange(a as int, a + len));
}

/// The image after an awake simulator handled the write requests of each
/// region, region after region.
pub open spec fn image_after_regions(mem: Seq<u8>, rs: Seq<Region>) -> Seq<u8>
    decreases rs.len(),
{
    if rs.len() == 0 {
        mem
    } else {
        let r = rs.last();
        image_after_writes(
            image_after_regions(mem, rs.drop_last()),
            r.addr,
            r.data@,
            chunk_count(r.data@.len() as int),
        )
    }
}

/// Writing regions through an awake simulator, each as `write_packets`
/// cuts it, writes each region's bytes at its address, in order.
pub proof fn sim_writes_regions(mem: Seq<u8>, rs: Seq<Region>)
    requires
        mem.len() == SIM_MEM,
        forall|j: int| 0 <= j < rs.len() ==> #[trigger] rs[j].addr + rs[j].data@.len() <= SIM_MEM,
    ensures
        image_after_regions(mem, rs) == write_all(mem, rs),
        image_after_regions(mem, rs).len() == SIM_MEM,
    decreases rs.len(),
{
    if rs.len() > 0 {
        let prev = rs.drop_last();
        assert forall|j: int| 0 <= j < prev.len() implies #[trigger] prev[j].addr + prev[j].data@.len() <= SIM_MEM by {
            assert(prev[j] == rs[j]);
        };
        sim_writes_regions(mem, prev);
        let r = rs.last();
        assert(rs[rs.len() - 1] == r);
        sim_writes_data(write_all(mem, prev), 0, false, r.addr, r.data@);
    }
}

/// The read-modify-write cycle through the simulator: over an image that
/// holds `old`, an awake simulator that handles the write requests of the
/// regions that changed in a writable `new` ends up with an image that
/// decodes to `new`, without warnings.
pub proof fn sim_read_modify_write(mem: Seq<u8>, new: DeviceConfig, old: DeviceConfig, rs: Seq<Region>)
    requires
        mem.len() == SIM_MEM,
        holds(mem, old),
        new.is_writable(),
        rs.len() == changed_upto(new, old, REGION_COUNT as int).len(),
        forall|j: int|
            0 <= j < rs.len() ==> new.is_region(
                changed_upto(new, old, REGION_COUNT as int)[j],
                #[trigger] rs[j],
            ),
    ensures
        decoded(image_after_regions(mem, rs)) == new,
        warnings(image_after_regions(mem, rs)) == Seq::<Seq<char>>::empty(),
{
    crate::protocol::eeprom::image::changed_regions_exact(new, old);
    assert forall|j: int| 0 <= j < rs.len() implies #[trigger] rs[j].addr + rs[j].data@.len() <= SIM_MEM by {
        let i = changed_upto(new, old, REGION_COUNT as int)[j];
        assert(new.is_region(i, rs[j]));
        lemma_region_len(new, i);
    };
    sim_writes_regions(mem, rs);
    read_modify_write_cycle(mem, new, old, rs);
}

} // verus!
