use freedsp::band::{BandIn, CoefSet};
use freedsp::dsp;
use freedsp::frame::build_frame;
use freedsp::hid;
use freedsp::ledger::Turn;
use freedsp::sequence::{bank_steps, mode_steps, preset_steps, send_ack};
use freedsp::transport::{accept_input, input_buffer, perform, Cable, Reply, Step, Transport};
use std::cell::RefCell;
use std::rc::Rc;

fn reply(ok: bool, report: &[u8]) -> Reply {
    Reply { ok, report: report.to_vec() }
}

fn mode_reply(idx: i32) -> Reply {
    reply(true, &build_frame(0x5a, 0x81, &[0x5a, idx]))
}

enum Record {
    Sent(Vec<u8>),
    Got(bool),
    Waited(u64),
}

/// A cable that gives recorded replies, then fails, and keeps a log.
struct Recording {
    pid: u16,
    replies: RefCell<Vec<Reply>>,
    log: Rc<RefCell<Vec<Record>>>,
}

impl Transport for Recording {
    fn set_output(&self, frame: &[u8], _turn: Turn<Self>) -> bool {
        self.log.borrow_mut().push(Record::Sent(frame.to_vec()));
        true
    }

    fn get_input(&self, _turn: Turn<Self>) -> (bool, Vec<u8>) {
        let mut replies = self.replies.borrow_mut();
        let r = if replies.is_empty() { reply(false, &[]) } else { replies.remove(0) };
        self.log.borrow_mut().push(Record::Got(r.ok));
        (r.ok, r.report)
    }

    fn pause(&self, millis: u64, _turn: Turn<Self>) {
        self.log.borrow_mut().push(Record::Waited(millis));
    }

    fn pid(&self) -> u16 {
        self.pid
    }

    fn product(&self) -> &str {
        "a cable"
    }
}

type Log = Rc<RefCell<Vec<Record>>>;

fn logged(pid: u16, replies: Vec<Reply>) -> (Cable<Recording>, Log) {
    let log: Log = Rc::new(RefCell::new(Vec::new()));
    let dev = Recording { pid, replies: RefCell::new(replies), log: log.clone() };
    (Cable::new(dev), log)
}

fn cable(pid: u16, replies: Vec<Reply>) -> Cable<Recording> {
    logged(pid, replies).0
}

fn lines(log: &Log) -> Vec<String> {
    log.borrow()
        .iter()
        .map(|r| match r {
            Record::Sent(f) => format!("send {:02x} {:02x} {}", f[4], f[5], f[10]),
            Record::Got(ok) => format!("got {}", ok),
            Record::Waited(ms) => format!("wait {}", ms),
        })
        .collect()
}

fn flat_bank() -> Vec<BandIn> {
    let c = CoefSet { b0: 4194304, b1: 0, b2: 0, a1: 0, a2: 0, kb0: 1, kb1: 0, kb2: 0 };
    (0..9)
        .map(|_| BandIn {
            freq: 1000,
            gain: 0,
            q: 256,
            typ: "PK".to_string(),
            active: false,
            coefs: [c; 5],
        })
        .collect()
}

#[test]
fn mode_of_a_good_reply() {
    let (mut dev, log) = logged(0x1499, vec![mode_reply(3)]);
    assert_eq!(dsp::read_mode(&mut dev), Some(3));
    assert_eq!(lines(&log), ["send 5a 01 90", "wait 10", "got true"]);
}

#[test]
fn mode_of_other_replies() {
    let good = build_frame(0x5a, 0x81, &[0x5a, -7]);
    assert_eq!(dsp::parse_mode(true, &good), Some(-7));
    assert_eq!(dsp::parse_mode(true, &good[..18]), Some(-7));
    assert_eq!(dsp::parse_mode(true, &good[..17]), None);
    assert_eq!(dsp::parse_mode(true, &[]), None);
    assert_eq!(dsp::parse_mode(false, &good), None);
    assert_eq!(dsp::parse_mode(true, &build_frame(0x5b, 0x81, &[0x5a, 1])), None);
}

#[test]
fn bank_of_nine_bands() {
    let mut replies = Vec::new();
    for n in 1..=9 {
        replies.push(if n == 4 {
            reply(false, &[0; 62])
        } else {
            reply(true, &build_frame(0xdd, 0x80, &[0, n, 100 * n, 256 * n, n % 3, n]))
        });
    }
    let (mut dev, log) = logged(0x1496, replies);
    let bands = dsp::read_bank(&mut dev);
    assert_eq!(bands.len(), 9);
    for (k, b) in bands.iter().enumerate() {
        let n = k as i32 + 1;
        assert_eq!(b.band as i32, n);
        if n == 4 {
            assert!(!b.ok);
            assert_eq!((b.freq, b.gain, b.q), (0, 0, 0));
        } else {
            assert!(b.ok);
            assert_eq!((b.freq, b.gain, b.q), (100 * n, n, 256 * n));
        }
    }
    let log = lines(&log);
    assert_eq!(log.len(), 27);
    assert_eq!(log[..4], ["send dd 01 1", "wait 12", "got true", "send dd 01 2"]);
    assert_eq!(log[24..], ["send dd 01 9", "wait 12", "got true"]);
}

#[test]
fn reading_only_asks() {
    for steps in [mode_steps(), bank_steps()] {
        for s in steps {
            if let Step::Send(f) = s {
                assert_eq!(f[5], 1);
            }
        }
    }
}

#[test]
fn preset_is_selected_committed_and_read() {
    let (mut dev, log) = logged(0x1499, vec![reply(false, &[]), reply(true, &[1, 2]), mode_reply(4)]);
    assert_eq!(dsp::set_preset(&mut dev, 4), Some(4));
    assert_eq!(
        lines(&log),
        [
            "send 5a 00 90",
            "got false",
            "wait 12",
            "send dc 00 255",
            "got true",
            "wait 12",
            "send 5a 01 90",
            "wait 10",
            "got true"
        ]
    );
    match &log.borrow()[0] {
        Record::Sent(f) => assert_eq!(f[..], build_frame(0x5a, 0, &[0x5a, 4])),
        _ => panic!("a frame comes first"),
    };
}

#[test]
fn selected_profile_reads_back() {
    for idx in [0, 1, 5, -1, i32::MAX] {
        match &preset_steps(idx)[0] {
            Step::Send(f) => assert_eq!(dsp::parse_mode(true, f), Some(idx)),
            _ => panic!("a frame comes first"),
        }
    }
}

#[test]
fn write_counts_what_was_acknowledged() {
    let mut replies: Vec<Reply> = (0..56).map(|_| reply(true, &[1, 2])).collect();
    replies.push(mode_reply(0));
    let (mut dev, log) = logged(0x1499, replies);
    let w = dsp::write_bank(&mut dev, &flat_bank(), true);
    assert_eq!((w.acked, w.active), (54, Some(0)));
    assert_eq!(log.borrow().len(), 171);
}

#[test]
fn write_does_not_count_the_switch_nor_the_commit() {
    let mut replies: Vec<Reply> = (0..57).map(|_| reply(true, &[1, 2])).collect();
    replies[0].ok = false;
    replies[55].ok = false;
    let mut dev = cable(0x1499, replies);
    let w = dsp::write_bank(&mut dev, &flat_bank(), true);
    assert_eq!((w.acked, w.active), (54, None));
}

#[test]
fn write_to_a_silent_cable() {
    let (mut dev, log) = logged(0x1499, vec![]);
    let w = dsp::write_bank(&mut dev, &flat_bank(), false);
    assert_eq!((w.acked, w.active), (0, None));
    assert_eq!(log.borrow().len(), 171);
}

#[test]
fn one_reply_per_fetch() {
    let mut steps = Vec::new();
    send_ack(&mut steps, build_frame(1, 0, &[]));
    steps.push(Step::Pause(3));
    steps.push(Step::Receive);
    let (mut dev, log) = logged(0, vec![reply(true, &[7])]);
    let replies = perform(&mut dev, &steps);
    assert_eq!(replies.len(), 2);
    assert!(replies[0].ok);
    assert_eq!(replies[0].report, [7]);
    assert!(!replies[1].ok);
    assert_eq!(lines(&log), ["send 01 00 0", "got true", "wait 3", "got false"]);
}

#[test]
fn connecting_a_cable() {
    let mut session = hid::Session::new();
    assert_eq!(hid::expected_pid(&session), None);
    let (dev, log) = logged(0x1497, vec![]);
    let info = hid::open(&mut session, Ok(&dev)).ok().unwrap();
    assert_eq!(info.name, "MAY");
    assert_eq!((info.vid, info.pid), (0x35D8, 0x1497));
    assert_eq!(info.has_presets, Some(true));
    assert_eq!(info.presets[&2], "Bass Head");
    assert_eq!(hid::expected_pid(&session), Some(0x1497));
    assert!(log.borrow().is_empty());
    hid::close(&mut session);
    assert_eq!(hid::expected_pid(&session), None);
}

#[test]
fn connecting_fails_where_nothing_opened() {
    let mut session = hid::Session::new();
    let dev = cable(0x1497, vec![]);
    assert!(hid::open(&mut session, Ok(&dev)).is_ok());
    let r = hid::open::<Recording>(&mut session, Err("no Moondrop cable found".to_string()));
    assert_eq!(r.err().unwrap(), "no Moondrop cable found");
    assert_eq!(hid::expected_pid(&session), Some(0x1497));
}

#[test]
fn wrong_cable_is_not_written() {
    let mut session = hid::Session::new();
    assert!(hid::open(&mut session, Ok(&cable(0x1499, vec![]))).is_ok());
    let (mut other, log) = logged(0x1497, vec![mode_reply(1)]);
    let want = "Wrong cable connected: expected DUSK-SP, found MAY. Nothing was written.";
    assert_eq!(hid::guard(&session, &other).err().unwrap(), want);
    assert_eq!(hid::set_preset(&session, Ok(&mut other), 1).err().unwrap(), want);
    assert_eq!(
        hid::write_bank(&session, Ok(&mut other), &flat_bank(), true).err().unwrap(),
        want
    );
    assert!(log.borrow().is_empty());
    // Reading is not refused.
    assert_eq!(hid::read_mode(Ok(&mut other)), Ok(Some(1)));
    assert_eq!(hid::read_bank(Ok(&mut other)).ok().unwrap().len(), 9);
}

#[test]
fn wrong_cable_is_refused_whatever_the_bank() {
    let mut session = hid::Session::new();
    assert!(hid::open(&mut session, Ok(&cable(0x1499, vec![]))).is_ok());
    let (mut other, log) = logged(0x1497, vec![]);
    let bank = flat_bank();
    for n in 0..=9 {
        assert_eq!(
            hid::write_bank(&session, Ok(&mut other), &bank[..n], false).err().unwrap(),
            "Wrong cable connected: expected DUSK-SP, found MAY. Nothing was written."
        );
        let failed = Err::<&mut Cable<Recording>, String>("why".to_string());
        assert_eq!(hid::write_bank(&session, failed, &bank[..n], false).err().unwrap(), "why");
    }
    assert!(log.borrow().is_empty());
    assert_eq!(hid::expected_pid(&session), Some(0x1499));
}

#[test]
fn connecting_prefers_no_cable() {
    let mut session = hid::Session::new();
    assert_eq!(hid::preferred_pid(&session, true), None);
    assert_eq!(hid::preferred_pid(&session, false), None);
    assert!(hid::open(&mut session, Ok(&cable(0x1499, vec![]))).is_ok());
    assert_eq!(hid::preferred_pid(&session, true), None);
    assert_eq!(hid::preferred_pid(&session, false), Some(0x1499));
}

#[test]
fn connected_cable_is_written() {
    let mut session = hid::Session::new();
    let mut dev = cable(0x1499, vec![reply(true, &[]), reply(true, &[]), mode_reply(2)]);
    assert!(hid::guard(&session, &dev).is_ok());
    assert!(hid::open(&mut session, Ok(&dev)).is_ok());
    assert!(hid::guard(&session, &dev).is_ok());
    assert_eq!(hid::set_preset(&session, Ok(&mut dev), 2), Ok(Some(2)));
    let w = hid::write_bank(&session, Ok(&mut dev), &flat_bank(), true).ok().unwrap();
    assert_eq!(w.acked, 0);
}

#[test]
fn any_cable_is_written_where_none_is_connected() {
    let mut session = hid::Session::new();
    assert!(hid::open(&mut session, Ok(&cable(0x1499, vec![]))).is_ok());
    hid::close(&mut session);
    let mut other = cable(0x1497, vec![]);
    assert_eq!(hid::set_preset(&session, Ok(&mut other), 1), Ok(None));
}

#[test]
fn failed_open_is_passed_on() {
    let why = || Err::<&mut Cable<Recording>, String>("why".to_string());
    let session = hid::Session::new();
    assert_eq!(hid::read_mode(why()), Err("why".to_string()));
    assert_eq!(hid::read_bank(why()).err().unwrap(), "why");
    assert_eq!(hid::set_preset(&session, why(), 1), Err("why".to_string()));
    assert_eq!(hid::write_bank(&session, why(), &flat_bank(), true).err().unwrap(), "why");
}

#[test]
fn buffers_for_reports() {
    let mut want = vec![0u8; 62];
    want[0] = 1;
    assert_eq!(input_buffer(62), want);
    assert_eq!(input_buffer(2), [1, 0]);
    assert_eq!(input_buffer(0), [1, 0]);
}

#[test]
fn short_reports_stay_short() {
    assert_eq!(accept_input(Some(3), vec![1, 2, 3, 4]), (true, vec![1, 2, 3]));
    assert_eq!(accept_input(Some(2), vec![1, 2, 3, 4]), (true, vec![1, 2]));
    assert_eq!(accept_input(Some(9), vec![1, 2, 3, 4]), (true, vec![1, 2, 3, 4]));
    assert_eq!(accept_input(Some(1), vec![1, 2, 3, 4]), (false, vec![1, 2, 3, 4]));
    assert_eq!(accept_input(None, vec![1, 2, 3, 4]), (false, vec![1, 2, 3, 4]));
}

struct Echo {
    last: RefCell<Vec<u8>>,
}

impl Transport for Echo {
    fn set_output(&self, frame: &[u8], _turn: Turn<Self>) -> bool {
        *self.last.borrow_mut() = frame.to_vec();
        true
    }

    fn get_input(&self, _turn: Turn<Self>) -> (bool, Vec<u8>) {
        (true, self.last.borrow().clone())
    }

    fn pause(&self, _millis: u64, _turn: Turn<Self>) {}

    fn pid(&self) -> u16 {
        0x1496
    }

    fn product(&self) -> &str {
        ""
    }
}

#[test]
fn cable_that_echoes() {
    let mut dev = Cable::new(Echo { last: RefCell::new(Vec::new()) });
    assert_eq!((dev.pid(), dev.product()), (0x1496, ""));
    // The question has no profile word, so its echo names profile 0.
    assert_eq!(dsp::read_mode(&mut dev), Some(0));
    let bands = dsp::read_bank(&mut dev);
    assert!(bands.iter().all(|b| !b.ok && b.freq == 0));
    assert_eq!(dsp::write_bank(&mut dev, &flat_bank(), true).acked, 54);
}
