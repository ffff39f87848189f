//! Command exchange with the simulator, driven through the library's state
//! machines by a synchronous test driver.
use ardor_mouse::protocol::eeprom::{DecodeWarnings, DeviceConfig, PollingRate, Region, PROFILE_LEN};
use ardor_mouse::protocol::led::LedMode;
use ardor_mouse::protocol::packet::{cmd, Packet, Response};
use ardor_mouse::transport::sim::SimTransport;
use ardor_mouse::transport::{
    link_up, write_packets, write_plan, Battery, EepromRead, Error, Event, Exchange, Step,
    WriteAction, RETRIES,
};

/// Test driver: the simulator answers at once, so a wait on an empty queue
/// lasts until the deadline.
struct Device {
    sim: SimTransport,
    sent: usize,
}

impl Device {
    fn new(sim: SimTransport) -> Self {
        Device { sim, sent: 0 }
    }

    fn transact(&mut self, pkt: &Packet) -> Result<Response, Error> {
        let mut ex = Exchange::new(pkt.clone());
        let mut step = Step::Drain;
        loop {
            let ev = match step {
                Step::Drain => Event::Drained(self.sim.next_report().is_some()),
                Step::Send => {
                    self.sent += 1;
                    self.sim.receive(ex.packet());
                    Event::Sent
                }
                Step::Await => match self.sim.next_report() {
                    Some(r) => Event::Report(r),
                    None => Event::TimedOut,
                },
                Step::Pause => Event::Paused,
                Step::Done(r) => return r,
            };
            step = ex.next(ev);
        }
    }

    fn is_connected(&mut self) -> Result<bool, Error> {
        let r = self.transact(&Packet::simple(cmd::CONNECT_STATUS))?;
        Ok(link_up(&r))
    }

    fn battery(&mut self) -> Result<Battery, Error> {
        let r = self.transact(&Packet::simple(cmd::BATTERY))?;
        Ok(Battery::from_response(&r))
    }

    fn read_eeprom(&mut self, addr: u16, len: usize) -> Result<Vec<u8>, Error> {
        let mut rd = EepromRead::new(addr, len);
        while let Some(p) = rd.next_request() {
            let r = self.transact(&p)?;
            rd.accept(&r);
        }
        Ok(rd.finish())
    }

    fn write_eeprom(&mut self, addr: u16, data: &[u8]) -> Result<(), Error> {
        for p in write_packets(addr, data) {
            self.transact(&p)?;
        }
        Ok(())
    }

    fn read_config(&mut self) -> Result<(DeviceConfig, DecodeWarnings), Error> {
        let mem = self.read_eeprom(0, PROFILE_LEN)?;
        Ok(DeviceConfig::decode(&mem))
    }

    fn write_regions(
        &mut self,
        regions: &[Region],
        mut progress: impl FnMut(usize, usize, &str),
    ) -> Result<(), Error> {
        for action in write_plan(&regions.to_vec()) {
            match action {
                WriteAction::Progress { index, total, name } => progress(index, total, name),
                WriteAction::Send(p) => {
                    self.transact(&p)?;
                }
            }
        }
        Ok(())
    }
}

fn sim_device() -> Device {
    Device::new(SimTransport::new())
}

#[test]
fn status_commands() {
    let mut d = sim_device();
    assert!(d.is_connected().unwrap());
    let b = d.battery().unwrap();
    assert!(b.percent <= 100);
}

#[test]
fn full_read_modify_write_cycle() {
    let mut d = sim_device();
    let (orig, warn) = d.read_config().unwrap();
    assert!(warn.is_empty(), "{warn:?}");

    let mut cfg = orig.clone();
    cfg.polling = PollingRate::Hz500;
    cfg.dpi[3].dpi = 12_300;
    cfg.led.mode = LedMode::Neon;
    cfg.debounce_ms = 8;
    let regions = cfg.changed_regions(&orig);
    assert_eq!(regions.len(), 4);
    let mut seen = Vec::new();
    d.write_regions(&regions, |_, _, n| seen.push(n.to_string())).unwrap();
    assert_eq!(seen.len(), 4);

    let (back, warn) = d.read_config().unwrap();
    assert!(warn.is_empty(), "{warn:?}");
    assert_eq!(back, cfg);
}

#[test]
fn asleep_mouse_times_out() {
    let mut sim = SimTransport::new();
    sim.asleep = true;
    let mut d = Device::new(sim);
    assert!(!d.is_connected().unwrap());
    assert!(matches!(d.read_eeprom(0, 2), Err(Error::Timeout { cmd: 0x08 })));
    assert_eq!(d.sent, 1 + RETRIES as usize);
}

#[test]
fn battery_and_link_from_answers() {
    let raw = Response::build(cmd::BATTERY, 0, 0, &[150, 1]);
    let b = Battery::from_response(&Response::parse(&raw).unwrap());
    assert_eq!(b, Battery { percent: 100, charging: true });
    let raw = Response::build(cmd::BATTERY, 0, 0, &[]);
    let b = Battery::from_response(&Response::parse(&raw).unwrap());
    assert_eq!(b, Battery { percent: 0, charging: false });
    let raw = Response::build(cmd::CONNECT_STATUS, 0, 0, &[2]);
    assert!(!link_up(&Response::parse(&raw).unwrap()));
    let mut sim = SimTransport::new();
    sim.battery = 42;
    sim.charging = true;
    let mut d = Device::new(sim);
    assert_eq!(d.battery().unwrap(), Battery { percent: 42, charging: true });
}

#[test]
fn rejected_write_retries_then_fails() {
    let mut d = sim_device();
    // the simulated EEPROM ends at 0x200
    let err = d.write_eeprom(0x1FF, &[1, 2]).unwrap_err();
    assert!(matches!(err, Error::Rejected { cmd: 0x07, status: 1 }));
    assert_eq!(d.sent, RETRIES as usize);
}

#[test]
fn exchange_ignores_foreign_reports() {
    let pkt = Packet::simple(cmd::BATTERY);
    let mut ex = Exchange::new(pkt);
    assert!(matches!(ex.next(Event::Drained(true)), Step::Drain));
    assert!(matches!(ex.next(Event::Drained(false)), Step::Send));
    assert!(matches!(ex.next(Event::Sent), Step::Await));
    let other = Response::build(cmd::CONNECT_STATUS, 0, 0, &[1]).to_vec();
    assert!(matches!(ex.next(Event::Report(other)), Step::Await));
    assert!(matches!(ex.next(Event::Report(vec![1, 2, 3])), Step::Await));
    assert!(matches!(ex.next(Event::Idle), Step::Await));
    let ok = Response::build(cmd::BATTERY, 0, 0, &[40, 0]).to_vec();
    match ex.next(Event::Report(ok)) {
        Step::Done(Ok(r)) => assert_eq!(r.payload(), &[40, 0]),
        other => panic!("{other:?}"),
    }
}

#[test]
fn exchange_gives_up_after_retries() {
    let mut ex = Exchange::new(Packet::simple(cmd::BATTERY));
    for _ in 0..RETRIES - 1 {
        assert!(matches!(ex.next(Event::TimedOut), Step::Pause));
        assert!(matches!(ex.next(Event::Paused), Step::Drain));
    }
    assert!(matches!(ex.next(Event::TimedOut), Step::Pause));
    assert!(matches!(ex.next(Event::Paused), Step::Done(Err(Error::Timeout { cmd: 0x04 }))));
    let mut ex = Exchange::new(Packet::simple(cmd::BATTERY));
    assert!(matches!(ex.next(Event::Failed(Error::NotFound)), Step::Done(Err(Error::NotFound))));
}

#[test]
fn write_and_read_plans() {
    let data: Vec<u8> = (0..25).collect();
    let ps = write_packets(0x60, &data);
    assert_eq!(ps.len(), 3);
    assert_eq!(ps[0].addr(), 0x60);
    assert_eq!(ps[1].addr(), 0x6A);
    assert_eq!(ps[2].addr(), 0x74);
    assert_eq!(ps[2].data(), &[20, 21, 22, 23, 24]);
    assert!(write_packets(0, &[]).is_empty());

    let mut rd = EepromRead::new(0x10, 12);
    let p = rd.next_request().unwrap();
    assert_eq!((p.addr(), p.len()), (0x10, 10));
    rd.accept(&Response::parse(&Response::build(cmd::READ_EEPROM, 0, 0x10, &[7; 10])).unwrap());
    let p = rd.next_request().unwrap();
    assert_eq!((p.addr(), p.len()), (0x1A, 2));
    rd.accept(&Response::parse(&Response::build(cmd::READ_EEPROM, 0, 0x1A, &[8, 9])).unwrap());
    assert!(rd.next_request().is_none());
    let mut expect = vec![7u8; 10];
    expect.extend_from_slice(&[8, 9]);
    assert_eq!(rd.finish(), expect);
}

#[test]
fn transfers_up_to_the_last_address() {
    let ps = write_packets(0xFFF5, &[1; 11]);
    assert_eq!(ps.len(), 2);
    assert_eq!((ps[1].addr(), ps[1].data()), (0xFFFF, &[1u8][..]));

    let mut rd = EepromRead::new(0xFFFF, 2);
    let p = rd.next_request().unwrap();
    assert_eq!((p.addr(), p.len()), (0xFFFF, 2));
    rd.accept(&Response::parse(&Response::build(cmd::READ_EEPROM, 0, 0xFFFF, &[5, 6])).unwrap());
    assert!(rd.next_request().is_none());
    assert_eq!(rd.finish(), vec![5, 6]);
}

#[test]
fn error_messages() {
    assert_eq!(Error::NotFound.message(), "приёмник мыши не найден");
    assert_eq!(
        Error::Timeout { cmd: 0x08 }.message(),
        "мышь не ответила на команду 0x08 — пошевелите ей"
    );
    assert_eq!(
        Error::Rejected { cmd: 0x07, status: 0x1F }.message(),
        "мышь отклонила команду 0x07 (статус 0x1F)"
    );
    assert_eq!(
        Error::Permission("/dev/hidraw3".into()).message(),
        "нет доступа к /dev/hidraw3 — установите udev-правило"
    );
    let e: Error = std::io::Error::new(std::io::ErrorKind::Other, "boom").into();
    assert_eq!(e.message(), "ошибка ввода-вывода: boom");
}

#[test]
fn simulator_reads_back_writes_and_ignores_broken_packets() {
    let mut sim = SimTransport::new();
    let mut bad = Packet::write_eeprom(0x100, &[1, 2, 3]);
    bad.0[16] ^= 1;
    sim.receive(&bad);
    assert!(sim.next_report().is_none());
    sim.receive(&Packet::write_eeprom(0x100, &[1, 2, 3]));
    let r = Response::parse(&sim.next_report().unwrap()).unwrap();
    assert_eq!((r.cmd, r.status), (cmd::WRITE_EEPROM, 0));
    sim.receive(&Packet::read_eeprom(0x100, 3));
    let r = Response::parse(&sim.next_report().unwrap()).unwrap();
    assert_eq!(r.payload(), &[1, 2, 3]);
    assert_eq!(&sim.mem[0x100..0x103], &[1, 2, 3]);
    assert_eq!(sim.name(), "симулятор");
    assert_eq!(sim.latency, 0);
    // unknown commands get no answer
    sim.receive(&Packet::simple(cmd::FACTORY_RESET));
    assert!(sim.next_report().is_none());
}

#[test]
fn write_plan_reports_each_region_before_its_packets() {
    let regions = vec![
        Region { addr: 0x00, data: vec![1, 0x54], name: "a" },
        Region { addr: 0x60, data: (0..25).collect(), name: "b" },
    ];
    let plan = write_plan(&regions);
    assert_eq!(plan.len(), 1 + 1 + 1 + 3);
    assert!(matches!(plan[0], WriteAction::Progress { index: 0, total: 2, name: "a" }));
    assert!(matches!(&plan[1], WriteAction::Send(p) if p.addr() == 0x00 && p.data() == &[1, 0x54]));
    assert!(matches!(plan[2], WriteAction::Progress { index: 1, total: 2, name: "b" }));
    let addrs: Vec<u16> = plan[3..]
        .iter()
        .map(|a| match a {
            WriteAction::Send(p) => p.addr(),
            _ => panic!("a request expected"),
        })
        .collect();
    assert_eq!(addrs, vec![0x60, 0x6A, 0x74]);
    assert!(write_plan(&vec![]).is_empty());
}

#[test]
fn failed_region_write_stops_the_plan() {
    let mut sim = SimTransport::new();
    sim.asleep = true;
    let mut d = Device::new(sim);
    let cfg = DeviceConfig::default();
    let mut new = cfg.clone();
    new.debounce_ms = 8;
    new.lod = 2;
    let regions = new.changed_regions(&cfg);
    assert_eq!(regions.len(), 2);
    let mut seen = Vec::new();
    let r = d.write_regions(&regions, |i, n, name| seen.push((i, n, name.to_string())));
    assert!(matches!(r, Err(Error::Timeout { cmd: 0x07 })));
    assert_eq!(seen.len(), 1);
    assert_eq!((seen[0].0, seen[0].1), (0, 2));
}

#[test]
fn simulator_starts_with_the_factory_profile_and_keeps_writes() {
    let mut sim = SimTransport::new();
    assert_eq!(DeviceConfig::decode(&sim.mem), (DeviceConfig::default(), vec![]));
    assert!(sim.queue.is_empty());
    sim.receive(&Packet::write_eeprom(0x1F8, &[1, 2, 3, 4, 5, 6, 7, 8]));
    assert_eq!(&sim.mem[0x1F8..0x200], &[1, 2, 3, 4, 5, 6, 7, 8]);
    let r = Response::parse(&sim.next_report().unwrap()).unwrap();
    assert_eq!(r.status, 0);
    sim.receive(&Packet::write_eeprom(0x1FA, &[9; 8]));
    let r = Response::parse(&sim.next_report().unwrap()).unwrap();
    assert_eq!(r.status, 1);
    assert_eq!(&sim.mem[0x1F8..0x200], &[1, 2, 3, 4, 5, 6, 7, 8]);
    sim.asleep = true;
    sim.receive(&Packet::read_eeprom(0, 2));
    assert!(sim.next_report().is_none());
}
