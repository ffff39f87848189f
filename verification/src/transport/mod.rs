//! Decisions of the command exchange with the mouse: how an answer is
//! recognised, when a command is retried or given up, how EEPROM transfers
//! are cut into packets, and what the status answers mean. The transport
//! that performs them (HID device, simulator) drives these state machines.
pub mod hidraw;
pub mod sim;

use vstd::prelude::*;
use crate::protocol::eeprom::Region;
use crate::protocol::packet::{
    self, cmd, frame_addr, framed, frame_body, hex_byte, is_response, push_hex_byte, Packet,
    Response, MAX_DATA, REPORT_ID,
};

verus! {

#[verifier::external_type_specification]
#[verifier::external_body]
pub struct ExIoError(std::io::Error);

/// Attempts per command.
pub const RETRIES: u8 = 3;
/// How long to wait for an answer after sending, in milliseconds.
pub const RESPONSE_TIMEOUT_MS: u64 = 1000;
/// Pause after a failed attempt, in milliseconds.
pub const RETRY_PAUSE_MS: u64 = 50;
/// Pause between write packets, in milliseconds.
pub const WRITE_GAP_MS: u64 = 10;

#[derive(Debug)]
pub enum Error {
    /// Receiver 25a7:fa7c / mouse 25a7:fa7b not connected.
    NotFound,
    /// No permission on `/dev/hidrawN` (a udev rule is needed).
    Permission(String),
    Io(std::io::Error),
    /// The device did not answer (a wireless mouse is usually asleep).
    Timeout { cmd: u8 },
    /// The device answered with an error.
    Rejected { cmd: u8, status: u8 },
}

/// `m` is the user text of `e`. For an I/O error only the prefix is fixed:
/// the rest is the operating system's description.
pub open spec fn fits_message(e: Error, m: Seq<char>) -> bool {
    match e {
        Error::NotFound => m == "приёмник мыши не найден"@,
        Error::Permission(p) => m == "нет доступа к "@ + p@ + " — установите udev-правило"@,
        Error::Io(_) => m.len() >= "ошибка ввода-вывода: "@.len() && m.take(
            "ошибка ввода-вывода: "@.len() as int,
        ) == "ошибка ввода-вывода: "@,
        Error::Timeout { cmd } => m == "мышь не ответила на команду 0x"@ + hex_byte(cmd, true)
            + " — пошевелите ей"@,
        Error::Rejected { cmd, status } => m == "мышь отклонила команду 0x"@ + hex_byte(cmd, true)
            + " (статус 0x"@ + hex_byte(status, true) + ")"@,
    }
}

impl Error {
    /// Text of the error for the user.
    pub fn message(&self) -> (r: String)
        ensures
            fits_message(*self, r@),
    {
        match self {
            Error::NotFound => String::from_str("приёмник мыши не найден"),
            Error::Permission(p) => {
                let mut s = String::from_str("нет доступа к ");
                s.append(p.as_str());
                s.append(" — установите udev-правило");
                s
            },
            Error::Io(e) => {
                let mut s = String::from_str("ошибка ввода-вывода: ");
                let ghost head = s@;
                let t = io_error_text(e);
                s.append(t.as_str());
                assert(s@.take(head.len() as int) =~= head);
                s
            },
            Error::Timeout { cmd } => {
                let mut s = String::from_str("мышь не ответила на команду 0x");
                push_hex_byte(&mut s, *cmd, true);
                s.append(" — пошевелите ей");
                s
            },
            Error::Rejected { cmd, status } => {
                let mut s = String::from_str("мышь отклонила команду 0x");
                push_hex_byte(&mut s, *cmd, true);
                s.append(" (статус 0x");
                push_hex_byte(&mut s, *status, true);
                s.append(")");
                s
            },
        }
    }
}

/// `std::io::Error`'s `Display` text (`ToString::to_string`). Nothing is
/// stated of the text: it comes from the operating system's error message.
#[verifier::external_body]
fn io_error_text(e: &std::io::Error) -> String {
    e.to_string()
}

impl From<std::io::Error> for Error {
    fn from(e: std::io::Error) -> (r: Self) {
        Error::Io(e)
    }
}

impl vstd::std_specs::convert::FromSpecImpl<std::io::Error> for Error {
    open spec fn obeys_from_spec() -> bool {
        true
    }

    open spec fn from_spec(v: std::io::Error) -> Self {
        Error::Io(v)
    }
}

#[derive(Clone, Copy, Debug, PartialEq, Eq, Structural)]
pub struct Battery {
    pub percent: u8,
    pub charging: bool,
}

impl Battery {
    /// Battery state from the answer to `cmd::BATTERY`: the first payload byte
    /// is the charge (capped at 100, 0 when absent), the second the charging
    /// flag.
    pub fn from_response(r: &Response) -> (b: Battery)
        ensures
            b.percent == (if r.payload_len() >= 1 {
                if r.data@[0] > 100 { 100 } else { r.data@[0] }
            } else {
                0
            }),
            b.charging == (r.payload_len() >= 2 && r.data@[1] != 0),
    {
        let d = r.payload();
        let p = if d.len() >= 1 { d[0] } else { 0 };
        Battery { percent: if p > 100 { 100 } else { p }, charging: d.len() >= 2 && d[1] != 0 }
    }
}

/// The mouse is linked to the receiver: the answer to
/// `cmd::CONNECT_STATUS` carries 1 as its first payload byte.
pub fn link_up(r: &Response) -> (b: bool)
    ensures
        b == (r.payload_len() >= 1 && r.data@[0] == 1),
{
    let d = r.payload();
    d.len() >= 1 && d[0] == 1
}

/// What the transport is asked to do next in a command exchange.
#[derive(Debug)]
pub enum Step {
    /// Read one pending input report without waiting, to discard it.
    Drain,
    /// Send the request.
    Send,
    /// Wait for the next input report, until `RESPONSE_TIMEOUT_MS` after the
    /// request was sent.
    Await,
    /// Pause for `RETRY_PAUSE_MS`.
    Pause,
    /// The exchange is over.
    Done(Result<Response, Error>),
}

/// What the transport reports back.
#[derive(Debug)]
pub enum Event {
    /// A draining read: `true` when a report was discarded, `false` when
    /// nothing was pending.
    Drained(bool),
    /// The request went out.
    Sent,
    /// An input report arrived while waiting.
    Report(Vec<u8>),
    /// A wait ended without a report before the deadline.
    Idle,
    /// The deadline passed.
    TimedOut,
    /// The pause is over.
    Paused,
    /// The transport failed.
    Failed(Error),
}

/// The answer `Response::parse` gives for an accepted report.
pub open spec fn response_of(raw: Seq<u8>) -> Response {
    choose|r: Response|
        r.cmd == raw[1] && r.status == raw[2] && r.addr == frame_addr(raw) && r.len == raw[5]
            && r.data@ == raw.subrange(6, 16)
}

proof fn lemma_response_of(resp: Response, raw: Seq<u8>)
    requires
        resp.cmd == raw[1],
        resp.status == raw[2],
        resp.addr == frame_addr(raw),
        resp.len == raw[5],
        resp.data@ == raw.subrange(6, 16),
    ensures
        resp == response_of(raw),
{
    let r = response_of(raw);
    assert(r.data =~= resp.data);
}

pub(crate) proof fn lemma_response_of_fields(raw: Seq<u8>)
    requires
        raw.len() >= 16,
    ensures
        ({
            let r = response_of(raw);
            r.cmd == raw[1] && r.status == raw[2] && r.addr == frame_addr(raw) && r.len == raw[5]
                && r.data@ == raw.subrange(6, 16)
        }),
{
    let w = Response {
        cmd: raw[1],
        status: raw[2],
        addr: frame_addr(raw),
        len: raw[5],
        data: [raw[6], raw[7], raw[8], raw[9], raw[10], raw[11], raw[12], raw[13], raw[14], raw[15]],
    };
    assert(w.data@ =~= raw.subrange(6, 16));
}

/// The events that can answer a step: a drain gives what it found, a send
/// that it went out, a wait a report, nothing or the deadline, a pause its
/// end; any of the first three may fail. Nothing answers `Step::Done`.
pub open spec fn answers(step: Step, ev: Event) -> bool {
    match step {
        Step::Drain => ev is Drained || ev is Failed,
        Step::Send => ev is Sent || ev is Failed,
        Step::Await => ev is Report || ev is Idle || ev is TimedOut || ev is Failed,
        Step::Pause => ev is Paused,
        Step::Done(_) => false,
    }
}

/// One command exchange: drain stale reports, send, wait for the answer with
/// the same command code, and retry up to `RETRIES` times.
pub struct Exchange {
    pkt: Packet,
    attempt: u8,
    last: Error,
}

impl Exchange {
    pub closed spec fn request(&self) -> Packet {
        self.pkt
    }

    /// Attempts already finished.
    pub closed spec fn attempts(&self) -> u8 {
        self.attempt
    }

    /// Error of the last finished attempt.
    pub closed spec fn last_error(&self) -> Error {
        self.last
    }

    /// Attempts stay below `RETRIES`.
    pub open spec fn wf(&self) -> bool {
        self.attempts() < RETRIES
    }

    /// The exchange `new` starts for `pkt`.
    pub closed spec fn start(pkt: Packet) -> Exchange {
        Exchange { pkt, attempt: 0, last: Error::Timeout { cmd: pkt.bytes()[1] } }
    }

    /// The state and the step after an event, as `next` takes them.
    pub closed spec fn after(self, ev: Event) -> (Exchange, Step) {
        let c = self.pkt.bytes()[1];
        match ev {
            Event::Drained(more) => (self, if more { Step::Drain } else { Step::Send }),
            Event::Sent => (self, Step::Await),
            Event::Idle => (self, Step::Await),
            Event::Report(raw) => if !is_response(raw@) || raw@[1] != c {
                (self, Step::Await)
            } else if raw@[2] != 0 {
                (Exchange { last: Error::Rejected { cmd: c, status: raw@[2] }, ..self }, Step::Pause)
            } else {
                (self, Step::Done(Ok(response_of(raw@))))
            },
            Event::TimedOut => (Exchange { last: Error::Timeout { cmd: c }, ..self }, Step::Pause),
            Event::Paused => if self.attempt + 1 < RETRIES {
                (Exchange { attempt: (self.attempt + 1) as u8, ..self }, Step::Drain)
            } else {
                (Exchange { last: Error::Timeout { cmd: c }, ..self }, Step::Done(Err(self.last)))
            },
            Event::Failed(e) => (self, Step::Done(Err(e))),
        }
    }

    /// A new exchange for `pkt`. The first step is `Step::Drain`.
    pub fn new(pkt: Packet) -> (r: Self)
        ensures
            r.request() == pkt,
            r.attempts() == 0,
            r.last_error() == (Error::Timeout { cmd: pkt.bytes()[1] }),
            r.wf(),
            r == Exchange::start(pkt),
    {
        let c = pkt.cmd();
        Exchange { pkt, attempt: 0, last: Error::Timeout { cmd: c } }
    }

    /// The request to send.
    pub fn packet(&self) -> (r: &Packet)
        ensures
            *r == self.request(),
    {
        &self.pkt
    }

    /// The next step after an event.
    pub fn next(&mut self, ev: Event) -> (r: Step)
        requires
            old(self).wf(),
        ensures
            final(self).wf(),
            final(self).request() == old(self).request(),
            (*final(self), r) == old(self).after(ev),
            match ev {
                Event::Drained(more) => {
                    &&& r == (if more { Step::Drain } else { Step::Send })
                    &&& *final(self) == *old(self)
                },
                Event::Sent => r == Step::Await && *final(self) == *old(self),
                Event::Idle => r == Step::Await && *final(self) == *old(self),
                Event::Report(raw) => {
                    let c = old(self).request().bytes()[1];
                    if !is_response(raw@) || raw@[1] != c {
                        r == Step::Await && *final(self) == *old(self)
                    } else if raw@[2] != 0 {
                        &&& r == Step::Pause
                        &&& final(self).attempts() == old(self).attempts()
                        &&& final(self).last_error() == (Error::Rejected { cmd: c, status: raw@[2] })
                    } else {
                        &&& *final(self) == *old(self)
                        &&& r matches Step::Done(Ok(resp))
                        &&& resp.cmd == c
                        &&& resp.status == 0
                        &&& resp.addr == frame_addr(raw@)
                        &&& resp.len == raw@[5]
                        &&& resp.data@ == raw@.subrange(6, 16)
                    }
                },
                Event::TimedOut => {
                    &&& r == Step::Pause
                    &&& final(self).attempts() == old(self).attempts()
                    &&& final(self).last_error() == (Error::Timeout {
                        cmd: old(self).request().bytes()[1],
                    })
                },
                Event::Paused => if old(self).attempts() + 1 < RETRIES {
                    &&& r == Step::Drain
                    &&& final(self).attempts() == old(self).attempts() + 1
                    &&& final(self).last_error() == old(self).last_error()
                } else {
                    r == Step::Done(Err(old(self).last_error()))
                },
                Event::Failed(e) => r == Step::Done(Err(e)) && *final(self) == *old(self),
            },
    {
        match ev {
            Event::Drained(more) => if more {
                Step::Drain
            } else {
                Step::Send
            },
            Event::Sent => Step::Await,
            Event::Idle => Step::Await,
            Event::Report(raw) => {
                let c = self.pkt.cmd();
                match Response::parse(raw.as_slice()) {
                    None => Step::Await,
                    Some(resp) => {
                        if resp.cmd != c {
                            Step::Await
                        } else if resp.status != 0 {
                            self.last = Error::Rejected { cmd: resp.cmd, status: resp.status };
                            Step::Pause
                        } else {
                            proof {
                                lemma_response_of(resp, raw@);
                            }
                            Step::Done(Ok(resp))
                        }
                    },
                }
            },
            Event::TimedOut => {
                self.last = Error::Timeout { cmd: self.pkt.cmd() };
                Step::Pause
            },
            Event::Paused => {
                if self.attempt + 1 < RETRIES {
                    self.attempt = self.attempt + 1;
                    Step::Drain
                } else {
                    let mut e = Error::Timeout { cmd: self.pkt.cmd() };
                    core::mem::swap(&mut e, &mut self.last);
                    Step::Done(Err(e))
                }
            },
            Event::Failed(e) => Step::Done(Err(e)),
        }
    }
}

/// The error an exchange for command `c` ends with after its last attempt:
/// no answer, or the device refused the command.
pub open spec fn gave_up_with(err: Error, c: u8) -> bool {
    match err {
        Error::Timeout { cmd } => cmd == c,
        Error::Rejected { cmd, status } => cmd == c && status != 0,
        _ => false,
    }
}

/// States and steps of an exchange for `pkt` driven by the events `evs`:
/// it starts at `Step::Drain` and each event leads, through `next`, to the
/// following state and step.
pub open spec fn trace(pkt: Packet, evs: Seq<Event>) -> Seq<(Exchange, Step)>
    decreases evs.len(),
{
    if evs.len() == 0 {
        seq![(Exchange::start(pkt), Step::Drain)]
    } else {
        let t = trace(pkt, evs.drop_last());
        t.push(t.last().0.after(evs.last()))
    }
}

/// Every event answers the step it follows.
pub open spec fn driven(pkt: Packet, evs: Seq<Event>) -> bool
    decreases evs.len(),
{
    evs.len() == 0 || (driven(pkt, evs.drop_last()) && answers(
        trace(pkt, evs.drop_last()).last().1,
        evs.last(),
    ))
}

/// Number of `Step::Send` steps in the trace: how many times the request
/// goes out.
pub open spec fn sends(pkt: Packet, evs: Seq<Event>) -> int
    decreases evs.len(),
{
    if evs.len() == 0 {
        0
    } else {
        sends(pkt, evs.drop_last()) + if trace(pkt, evs).last().1 is Send { 1int } else { 0int }
    }
}

proof fn lemma_run(pkt: Packet, evs: Seq<Event>)
    requires
        driven(pkt, evs),
    ensures
        trace(pkt, evs).len() == evs.len() + 1,
        ({
            let (e, st) = trace(pkt, evs).last();
            let c = pkt.bytes()[1];
            &&& e.pkt == pkt
            &&& e.attempt < RETRIES
            &&& gave_up_with(e.last, c)
            &&& st is Drain ==> sends(pkt, evs) == e.attempt
            &&& (st is Send || st is Await || st is Pause) ==> sends(pkt, evs) == e.attempt + 1
            &&& st is Done ==> sends(pkt, evs) <= e.attempt + 1
        }),
    decreases evs.len(),
{
    if evs.len() > 0 {
        lemma_run(pkt, evs.drop_last());
    }
}

proof fn lemma_trace_index(pkt: Packet, evs: Seq<Event>)
    requires
        driven(pkt, evs),
    ensures
        trace(pkt, evs).len() == evs.len() + 1,
        trace(pkt, evs)[0] == (Exchange::start(pkt), Step::Drain),
        forall|i: int|
            0 <= i < evs.len() ==> #[trigger] trace(pkt, evs)[i + 1] == trace(pkt, evs)[i].0.after(evs[i])
                && answers(trace(pkt, evs)[i].1, evs[i]),
    decreases evs.len(),
{
    if evs.len() > 0 {
        let prev = evs.drop_last();
        lemma_trace_index(pkt, prev);
        let t = trace(pkt, evs);
        let tp = trace(pkt, prev);
        assert forall|i: int| 0 <= i < evs.len() implies #[trigger] t[i + 1] == t[i].0.after(evs[i])
            && answers(t[i].1, evs[i]) by {
            if i < prev.len() {
                assert(t[i + 1] == tp[i + 1]);
                assert(t[i] == tp[i]);
                assert(evs[i] == prev[i]);
            }
        };
    }
}

/// A command exchange driven by any events that answer its steps: the
/// request is the one given and goes out at most `RETRIES` times; nothing
/// follows the end; a success is the first accepted answer with the same
/// command code and status 0, the report it came in being the last event; a
/// failure is either the transport's error, ending the exchange at once, or,
/// after `RETRIES` attempts, a timeout or the device's refusal of that
/// command. The request goes out exactly after a drain that found nothing
/// pending, and only the last step ends the exchange.
pub proof fn exchange_run(pkt: Packet, evs: Seq<Event>, more: Event)
    requires
        driven(pkt, evs),
    ensures
        trace(pkt, evs).len() == evs.len() + 1,
        forall|i: int| 0 <= i < evs.len() ==> !((#[trigger] trace(pkt, evs)[i]).1 is Done),
        forall|i: int|
            0 <= i < evs.len() ==> ((#[trigger] trace(pkt, evs)[i + 1]).1 is Send <==> (trace(pkt, evs)[i].1 is Drain
                && evs[i] == Event::Drained(false))),
        forall|i: int|
            0 <= i < evs.len() ==> (evs[i] matches Event::Failed(e) ==> (#[trigger] trace(pkt, evs)[i + 1]).1
                == Step::Done(Err(e))),
        trace(pkt, evs).last().0.request() == pkt,
        0 <= sends(pkt, evs) <= RETRIES,
        trace(pkt, evs).last().1 is Done ==> !driven(pkt, evs.push(more)),
        trace(pkt, evs).last().1 matches Step::Done(Ok(r)) ==> {
            &&& evs.len() > 0
            &&& evs.last() matches Event::Report(raw)
            &&& is_response(raw@)
            &&& r == response_of(raw@)
            &&& r.cmd == pkt.bytes()[1]
            &&& r.status == 0
        },
        trace(pkt, evs).last().1 matches Step::Done(Err(err)) ==> {
            &&& evs.len() > 0
            &&& (evs.last() == Event::Failed(err) || (evs.last() is Paused && sends(pkt, evs) == RETRIES
                && gave_up_with(err, pkt.bytes()[1])))
        },
{
    lemma_run(pkt, evs);
    lemma_trace_index(pkt, evs);
    let t = trace(pkt, evs);
    assert forall|i: int| 0 <= i < evs.len() implies !((#[trigger] t[i]).1 is Done) by {
        assert(t[i + 1] == t[i].0.after(evs[i]) && answers(t[i].1, evs[i]));
    };
    assert(evs.push(more).drop_last() =~= evs);
    if evs.len() > 0 {
        lemma_run(pkt, evs.drop_last());
        assert(t.last() == trace(pkt, evs.drop_last()).last().0.after(evs.last()));
        if let Event::Report(raw) = evs.last() {
            if is_response(raw@) {
                lemma_response_of_fields(raw@);
            }
        }
    }
}

/// A transfer of `len` bytes from `addr` in packets of 10 bytes has every
/// packet's address below 0x10000.
pub open spec fn chunks_fit(addr: u16, len: int) -> bool {
    len <= 0 || addr + 10 * ((len - 1) / 10) <= 0xFFFF
}

/// Payload size of the next read packet when `got` of `len` bytes are in:
/// what is left, at most 10.
pub open spec fn chunk_at(len: int, got: int) -> int {
    let left = len - got;
    if left < MAX_DATA { left } else { MAX_DATA as int }
}

/// What a read of `len` bytes has collected after taking `answers`, each as
/// `EepromRead::accept` takes it.
pub open spec fn collect(len: int, answers: Seq<Response>) -> Seq<u8>
    decreases answers.len(),
{
    if answers.len() == 0 {
        Seq::empty()
    } else {
        let c = collect(len, answers.drop_last());
        c + answers.last().data@.take(chunk_at(len, c.len() as int))
    }
}

/// Size of packet `k` of a transfer of `len` bytes.
pub open spec fn chunk_len(len: int, k: int) -> int {
    if len - 10 * k < 10 { len - 10 * k } else { 10 }
}

/// A read of `len` bytes takes `chunk_count(len)` answers: before answer
/// `k` it has 10 `k` bytes, so request `k` asks for `chunk_len(len, k)`
/// bytes at `addr + 10 k`; bytes `10 k ..` of the result are the first
/// `chunk_len(len, k)` data bytes of answer `k`; after the last answer it
/// has exactly `len` bytes.
pub proof fn eeprom_read_plan(len: int, answers: Seq<Response>)
    requires
        0 <= len,
        answers.len() <= chunk_count(len),
    ensures
        answers.len() < chunk_count(len) ==> collect(len, answers).len() == 10 * answers.len()
            && chunk_at(len, collect(len, answers).len() as int) == chunk_len(len, answers.len() as int),
        answers.len() == chunk_count(len) ==> collect(len, answers).len() == len,
        forall|k: int|
            0 <= k < answers.len() ==> 0 < chunk_len(len, k) <= MAX_DATA
                && #[trigger] collect(len, answers).subrange(10 * k, 10 * k + chunk_len(len, k))
                == answers[k].data@.take(chunk_len(len, k)),
    decreases answers.len(),
{
    if answers.len() > 0 {
        let prev = answers.drop_last();
        eeprom_read_plan(len, prev);
        let c = collect(len, prev);
        let n = answers.len() - 1;
        assert(c.len() == 10 * n);
        let cur = collect(len, answers);
        assert(cur == c + answers.last().data@.take(chunk_at(len, c.len() as int)));
        assert forall|k: int| 0 <= k < answers.len() implies 0 < chunk_len(len, k) <= MAX_DATA
            && #[trigger] cur.subrange(10 * k, 10 * k + chunk_len(len, k))
            == answers[k].data@.take(chunk_len(len, k)) by {
            if k < n {
                assert(prev[k] == answers[k]);
                assert(cur.subrange(10 * k, 10 * k + chunk_len(len, k)) =~= c.subrange(
                    10 * k,
                    10 * k + chunk_len(len, k),
                ));
            } else {
                assert(cur.subrange(10 * k, 10 * k + chunk_len(len, k)) =~= answers.last().data@.take(
                    chunk_len(len, k),
                ));
            }
        };
    }
}

/// Reading `len` EEPROM bytes from `addr` in packets of at most 10 bytes.
pub struct EepromRead {
    addr: u16,
    len: usize,
    out: Vec<u8>,
}

impl EepromRead {
    pub closed spec fn start(&self) -> u16 {
        self.addr
    }

    pub closed spec fn total(&self) -> usize {
        self.len
    }

    /// Bytes collected so far.
    pub closed spec fn collected(&self) -> Seq<u8> {
        self.out@
    }

    /// Every request starts below 0x10000, and until the end whole packets
    /// of 10 bytes have been collected.
    pub open spec fn wf(&self) -> bool {
        &&& chunks_fit(self.start(), self.total() as int)
        &&& self.collected().len() <= self.total()
        &&& (self.collected().len() % 10 == 0 || self.collected().len() == self.total())
    }

    /// Size of the next packet's payload.
    pub open spec fn chunk(&self) -> int {
        chunk_at(self.total() as int, self.collected().len() as int)
    }

    pub fn new(addr: u16, len: usize) -> (r: Self)
        requires
            chunks_fit(addr, len as int),
        ensures
            r.wf(),
            r.start() == addr,
            r.total() == len,
            r.collected() == Seq::<u8>::empty(),
    {
        EepromRead { addr, len, out: Vec::new() }
    }

    /// The next request, `None` once every byte is read.
    pub fn next_request(&self) -> (r: Option<Packet>)
        requires
            self.wf(),
        ensures
            r is None <==> self.collected().len() == self.total(),
            r matches Some(p) ==> p.bytes() == framed(
                frame_body(
                    REPORT_ID,
                    cmd::READ_EEPROM,
                    0,
                    (self.start() + self.collected().len()) as u16,
                    self.chunk() as u8,
                    Seq::empty(),
                ),
            ),
    {
        if self.out.len() >= self.len {
            return None;
        }
        let left = self.len - self.out.len();
        let n = if left < MAX_DATA { left } else { MAX_DATA };
        let a = self.addr + self.out.len() as u16;
        Some(Packet::read_eeprom(a, n as u8))
    }

    /// Takes the answer to the last request: its first `chunk()` data bytes.
    pub fn accept(&mut self, r: &Response)
        requires
            old(self).wf(),
            old(self).collected().len() < old(self).total(),
        ensures
            final(self).wf(),
            final(self).start() == old(self).start(),
            final(self).total() == old(self).total(),
            final(self).collected() == old(self).collected() + r.data@.take(old(self).chunk()),
    {
        let left = self.len - self.out.len();
        let n = if left < MAX_DATA { left } else { MAX_DATA };
        let mut i: usize = 0;
        let ghost before = self.out@;
        while i < n
            invariant
                i <= n <= MAX_DATA,
                self.out@ == before + r.data@.take(i as int),
                self.addr == old(self).addr,
                self.len == old(self).len,
                before == old(self).out@,
            decreases n - i,
        {
            self.out.push(r.data[i]);
            assert(r.data@.take(i + 1) =~= r.data@.take(i as int).push(r.data@[i as int]));
            i = i + 1;
        }
    }

    /// The bytes read.
    pub fn finish(self) -> (r: Vec<u8>)
        ensures
            r@ == self.collected(),
    {
        self.out
    }
}

/// Bytes `[10 i, min(10 i + 10, len))` of `data`.
pub open spec fn write_chunk(data: Seq<u8>, i: int) -> Seq<u8> {
    data.subrange(10 * i, if 10 * i + 10 < data.len() { 10 * i + 10 } else { data.len() as int })
}

/// Number of packets needed for `n` bytes.
pub open spec fn chunk_count(n: int) -> int {
    (n + 9) / 10
}

/// The write requests for `data` at `addr`: one packet per 10 bytes.
#[verifier::rlimit(40)]
#[verifier::spinoff_prover]
pub fn write_packets(addr: u16, data: &[u8]) -> (r: Vec<Packet>)
    requires
        chunks_fit(addr, data.len() as int),
    ensures
        r@.len() == chunk_count(data@.len() as int),
        forall|i: int|
            0 <= i < r@.len() ==> (#[trigger] r@[i]).bytes() == framed(
                frame_body(
                    REPORT_ID,
                    cmd::WRITE_EEPROM,
                    0,
                    (addr + 10 * i) as u16,
                    write_chunk(data@, i).len() as u8,
                    write_chunk(data@, i),
                ),
            ),
{
    let n = data.len();
    let count = (n + 9) / 10;
    let mut out: Vec<Packet> = Vec::new();
    let mut i: usize = 0;
    while i < count
        invariant
            n == data@.len(),
            count == chunk_count(n as int),
            chunks_fit(addr, n as int),
            i <= count,
            out@.len() == i,
            forall|j: int|
                0 <= j < out@.len() ==> (#[trigger] out@[j]).bytes() == framed(
                    frame_body(
                        REPORT_ID,
                        cmd::WRITE_EEPROM,
                        0,
                        (addr + 10 * j) as u16,
                        write_chunk(data@, j).len() as u8,
                        write_chunk(data@, j),
                    ),
                ),
        decreases count - i,
    {
        let off = i * 10;
        let end = if n - off > MAX_DATA { off + MAX_DATA } else { n };
        let chunk = &data[off..end];
        assert(chunk@ =~= write_chunk(data@, i as int));
        let p = Packet::write_eeprom(addr + off as u16, chunk);
        out.push(p);
        i = i + 1;
    }
    out
}

/// One action of writing regions: report progress before a region, or send
/// a write request.
#[derive(Debug)]
pub enum WriteAction {
    /// Region `index` of `total`, named `name`, is about to be written.
    Progress { index: usize, total: usize, name: &'static str },
    /// A write request to send.
    Send(Packet),
}

/// Number of actions for the regions `rs`: one progress report and one
/// request per 10 bytes for each.
pub open spec fn plan_len(rs: Seq<Region>) -> int
    decreases rs.len(),
{
    if rs.len() == 0 {
        0
    } else {
        plan_len(rs.drop_last()) + 1 + chunk_count(rs.last().data@.len() as int)
    }
}

/// Every region can be cut into write requests.
pub open spec fn regions_fit(rs: Seq<Region>) -> bool {
    forall|i: int| 0 <= i < rs.len() ==> chunks_fit(#[trigger] rs[i].addr, rs[i].data@.len() as int)
}

proof fn lemma_plan_len_take(rs: Seq<Region>, i: int, j: int)
    requires
        0 <= i <= j <= rs.len(),
    ensures
        plan_len(rs.take(i)) <= plan_len(rs.take(j)),
        j == i + 1 ==> plan_len(rs.take(j)) == plan_len(rs.take(i)) + 1 + chunk_count(
            rs[i].data@.len() as int,
        ),
    decreases j - i,
{
    if i < j {
        lemma_plan_len_take(rs, i, j - 1);
        assert(rs.take(j).drop_last() =~= rs.take(j - 1));
        assert(rs.take(j).last() == rs[j - 1]);
    }
}

/// Write request `k` of `write_packets(a, d)`, as its bytes.
pub open spec fn write_request_bytes(a: u16, d: Seq<u8>, k: int) -> Seq<u8> {
    framed(
        frame_body(
            REPORT_ID,
            cmd::WRITE_EEPROM,
            0,
            (a + 10 * k) as u16,
            write_chunk(d, k).len() as u8,
            write_chunk(d, k),
        ),
    )
}

/// Region `j` of `rs` in the actions `acts`: at position
/// `plan_len(rs[..j])` its progress report `(j, rs.len(), name)`, then its
/// write requests as `write_packets` cuts it.
pub open spec fn plan_entry(acts: Seq<WriteAction>, rs: Seq<Region>, j: int) -> bool {
    let s = plan_len(rs.take(j));
    let rg = rs[j];
    &&& acts[s] matches WriteAction::Progress { index, total, name } && index == j && total == rs.len()
        && name == rg.name
    &&& forall|k: int|
        0 <= k < chunk_count(rg.data@.len() as int) ==> (#[trigger] acts[s + 1 + k] matches WriteAction::Send(
            p,
        ) && p.bytes() == write_request_bytes(rg.addr, rg.data@, k))
}

/// The actions `acts` write the first `i` of `rs` in order.
pub open spec fn plan_holds(acts: Seq<WriteAction>, rs: Seq<Region>, i: int) -> bool {
    forall|j: int| 0 <= j < i ==> #[trigger] plan_entry(acts, rs, j)
}

#[verifier::spinoff_prover]
proof fn lemma_plan_extend(
    rs: Seq<Region>,
    i: int,
    before: Seq<WriteAction>,
    out: Seq<WriteAction>,
    ps: Seq<Packet>,
)
    requires
        0 <= i < rs.len(),
        before.len() == plan_len(rs.take(i)),
        plan_holds(before, rs, i),
        ps.len() == chunk_count(rs[i].data@.len() as int),
        forall|k: int| 0 <= k < ps.len() ==> (#[trigger] ps[k]).bytes() == write_request_bytes(rs[i].addr, rs[i].data@, k),
        out.len() == before.len() + 1 + ps.len(),
        out.take(before.len() as int) == before,
        out[before.len() as int] == (WriteAction::Progress { index: i as usize, total: rs.len() as usize, name: rs[i].name }),
        i == i as usize,
        rs.len() == rs.len() as usize,
        forall|k: int| 0 <= k < ps.len() ==> #[trigger] out[before.len() + 1 + k] == WriteAction::Send(ps[k]),
    ensures
        out.len() == plan_len(rs.take(i + 1)),
        plan_holds(out, rs, i + 1),
{
    lemma_plan_len_take(rs, i, i + 1);
    assert forall|j: int| 0 <= j < i + 1 implies #[trigger] plan_entry(out, rs, j) by {
        if j < i {
            assert(plan_entry(before, rs, j));
            lemma_plan_keeps(rs, i, j, before, out);
        } else {
            let rg = rs[j];
            assert forall|k: int| 0 <= k < chunk_count(rg.data@.len() as int) implies (#[trigger] out[before.len() + 1 + k] matches WriteAction::Send(
                p,
            ) && p.bytes() == write_request_bytes(rg.addr, rg.data@, k)) by {
                assert(out[before.len() + 1 + k] == WriteAction::Send(ps[k]));
                assert(ps[k].bytes() == write_request_bytes(rs[i].addr, rs[i].data@, k));
            };
        }
    };
}

proof fn lemma_plan_keeps(rs: Seq<Region>, i: int, j: int, before: Seq<WriteAction>, out: Seq<WriteAction>)
    requires
        0 <= j < i < rs.len(),
        before.len() == plan_len(rs.take(i)),
        out.len() >= before.len(),
        out.take(before.len() as int) == before,
        plan_entry(before, rs, j),
    ensures
        plan_entry(out, rs, j),
        out[plan_len(rs.take(j))] == before[plan_len(rs.take(j))],
        forall|k: int|
            0 <= k < chunk_count(rs[j].data@.len() as int) ==> #[trigger] out[plan_len(rs.take(j)) + 1 + k]
                == before[plan_len(rs.take(j)) + 1 + k],
{
    lemma_plan_len_take(rs, j, j + 1);
    lemma_plan_len_take(rs, j + 1, i);
    lemma_plan_len_take(rs, 0, j);
    assert(rs.take(0) =~= Seq::<Region>::empty());
    let s = plan_len(rs.take(j));
    assert(s >= 0);
    assert(s + 1 + chunk_count(rs[j].data@.len() as int) <= before.len());
    assert(out[s] == out.take(before.len() as int)[s]);
    assert forall|k: int| 0 <= k < chunk_count(rs[j].data@.len() as int) implies #[trigger] out[s + 1 + k]
        == before[s + 1 + k] by {
        assert(out[s + 1 + k] == out.take(before.len() as int)[s + 1 + k]);
    };
}

/// Appends a `Send` of each packet, in order.
fn push_sends(out: &mut Vec<WriteAction>, ps: &Vec<Packet>)
    ensures
        final(out)@.len() == old(out)@.len() + ps@.len(),
        final(out)@.take(old(out)@.len() as int) == old(out)@,
        forall|k: int| 0 <= k < ps@.len() ==> #[trigger] final(out)@[old(out)@.len() + k] == WriteAction::Send(ps@[k]),
{
    let ghost start = out@;
    let mut j: usize = 0;
    while j < ps.len()
        invariant
            j <= ps@.len(),
            out@.len() == start.len() + j,
            out@.take(start.len() as int) == start,
            forall|k: int| 0 <= k < j ==> #[trigger] out@[start.len() + k] == WriteAction::Send(ps@[k]),
        decreases ps.len() - j,
    {
        let ghost prev = out@;
        let p = ps[j];
        out.push(WriteAction::Send(p));
        assert(out@.take(start.len() as int) =~= prev.take(start.len() as int));
        assert(out@[start.len() + j] == WriteAction::Send(ps@[j as int]));
        j = j + 1;
    }
}

/// The actions that write `regions` in order: for each region its progress
/// report, then its write requests (see `plan_holds`). Whoever runs the plan
/// stops at the first request that fails; what was sent before stays
/// written.
#[verifier::spinoff_prover]
pub fn write_plan(regions: &Vec<Region>) -> (r: Vec<WriteAction>)
    requires
        regions_fit(regions@),
    ensures
        r@.len() == plan_len(regions@),
        plan_holds(r@, regions@, regions@.len() as int),
{
    let mut out: Vec<WriteAction> = Vec::new();
    let mut i: usize = 0;
    let n = regions.len();
    assert(regions@.take(0) =~= Seq::<Region>::empty());
    while i < n
        invariant
            n == regions@.len(),
            i <= n,
            regions_fit(regions@),
            out@.len() == plan_len(regions@.take(i as int)),
            plan_holds(out@, regions@, i as int),
        decreases n - i,
    {
        let rg = &regions[i];
        assert(chunks_fit(regions@[i as int].addr, regions@[i as int].data@.len() as int));
        let ghost before = out@;
        out.push(WriteAction::Progress { index: i, total: n, name: rg.name });
        let ghost mid = out@;
        assert(mid.take(before.len() as int) =~= before);
        let ps = write_packets(rg.addr, rg.data.as_slice());
        push_sends(&mut out, &ps);
        proof {
            assert(out@.take(before.len() as int) =~= mid.take(before.len() as int));
            assert(out@[before.len() as int] == out@.take(mid.len() as int)[before.len() as int]);
            lemma_plan_extend(regions@, i as int, before, out@, ps@);
        }
        i = i + 1;
    }
    assert(regions@.take(n as int) =~= regions@);
    out
}

/// The write requests cover the data exactly: their payloads, in order, are
/// the data.
pub proof fn write_chunks_cover(data: Seq<u8>)
    ensures
        forall|i: int| 0 <= i < chunk_count(data.len() as int) ==> #[trigger] write_chunk(data, i).len() <= MAX_DATA,
        data == Seq::new(data.len(), |k: int| write_chunk(data, k / 10)[k % 10]),
{
    assert(data =~= Seq::new(data.len(), |k: int| write_chunk(data, k / 10)[k % 10]));
}

} // verus!
