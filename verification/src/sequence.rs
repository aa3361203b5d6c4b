//! The command sequences: which frames an operation sends, when it fetches a report and how long
//! it waits in between.
use vstd::prelude::*;

use crate::band::{
    preamp_band, sample_rate, type_code, BandIn, CoefSet, BANDS, RATES,
};
use crate::frame::{
    build_frame, encode_gain24, CMD_MODE, CMD_READ, CMD_WRITE, COMMIT_WORD, FLAG_READ, FLAG_WRITE,
    FRAME_LEN, MODE_WORD, REPORT_ID,
};
use crate::transport::Step;

verus! {

use crate::band::{coef_words, last_active, preamp_carrier, record_words};
use crate::frame::{frame, law_frame_opening};
use crate::transport::{is_frame, lemma_receives_add, plan, receives, sends_frames, StepView};

/// How many coefficient sets a bank has.
pub const COEF_SETS: usize = 45;

/// Sends a frame and fetches what the cable makes of it.
pub open spec fn exchange(f: Seq<u8>) -> Seq<StepView> {
    seq![StepView::Send(f), StepView::Receive]
}

/// Asks which profile is active.
pub open spec fn mode_plan() -> Seq<StepView> {
    seq![
        StepView::Send(frame(CMD_MODE, FLAG_READ, seq![MODE_WORD])),
        StepView::Pause(10),
        StepView::Receive,
    ]
}

/// Asks for the records of the first `n` bands.
pub open spec fn bank_plan(n: int) -> Seq<StepView>
    decreases n,
{
    if n <= 0 {
        Seq::empty()
    } else {
        bank_plan(n - 1) + seq![
            StepView::Send(frame(CMD_READ, FLAG_READ, seq![n as i32])),
            StepView::Pause(12),
            StepView::Receive,
        ]
    }
}

/// The frame that makes profile `idx` active.
pub open spec fn select_frame(idx: i32) -> Seq<u8> {
    frame(CMD_MODE, FLAG_WRITE, seq![MODE_WORD, idx])
}

/// The frame that has the cable keep what it was sent.
pub open spec fn commit_frame() -> Seq<u8> {
    frame(CMD_WRITE, FLAG_WRITE, seq![COMMIT_WORD])
}

/// The frame that writes the record of band `i`.
pub open spec fn record_frame(bands: Seq<BandIn>, i: int) -> Seq<u8> {
    frame(CMD_WRITE, FLAG_WRITE, record_words(i, bands[i]))
}

/// The frame that writes the coefficients of band `i` at sample rate `j`.
pub open spec fn coef_frame(
    bands: Seq<BandIn>,
    carrier: Option<int>,
    i: int,
    j: int,
) -> Seq<u8> {
    frame(CMD_WRITE, FLAG_WRITE, coef_words(i, j, bands[i].coefs@[j], carrier == Some(i)))
}

/// Makes profile `idx` active, commits, and asks which profile is active.
pub open spec fn preset_plan(idx: i32) -> Seq<StepView> {
    exchange(select_frame(idx)) + seq![StepView::Pause(12)] + exchange(commit_frame()) + seq![
        StepView::Pause(12),
    ] + mode_plan()
}

/// Writes the records of the first `n` bands.
pub open spec fn records_plan(bands: Seq<BandIn>, n: int) -> Seq<StepView>
    decreases n,
{
    if n <= 0 {
        Seq::empty()
    } else {
        records_plan(bands, n - 1) + exchange(record_frame(bands, n - 1)) + seq![
            StepView::Pause(6),
        ]
    }
}

/// Writes the first `n` coefficient sets: band by band, each at one sample rate after the other.
pub open spec fn coefs_plan(bands: Seq<BandIn>, carrier: Option<int>, n: int) -> Seq<StepView>
    decreases n,
{
    if n <= 0 {
        Seq::empty()
    } else {
        coefs_plan(bands, carrier, n - 1) + exchange(
            coef_frame(bands, carrier, (n - 1) / RATES as int, (n - 1) % RATES as int),
        ) + seq![StepView::Pause(6)]
    }
}

/// Makes the custom bank active, writes all records, then all coefficient sets, commits, and asks
/// which profile is active.
pub open spec fn write_plan(bands: Seq<BandIn>, flat: bool) -> Seq<StepView> {
    exchange(select_frame(0)) + seq![StepView::Pause(6)] + records_plan(bands, BANDS as int)
        + coefs_plan(bands, preamp_carrier(bands, flat), COEF_SETS as int) + exchange(
        commit_frame(),
    ) + seq![StepView::Pause(10)] + mode_plan()
}

/// Adds a step to a list.
fn then_do(steps: &mut Vec<Step>, step: Step)
    ensures
        plan(final(steps)@) == plan(old(steps)@) + seq![step@],
{
    steps.push(step);
    assert(plan(steps@) =~= plan(old(steps)@) + seq![step@]);
}

/// Adds an exchange to a list of steps.
pub fn send_ack(steps: &mut Vec<Step>, frame: [u8; FRAME_LEN])
    ensures
        plan(final(steps)@) == plan(old(steps)@) + exchange(frame@),
{
    then_do(steps, Step::Send(frame));
    then_do(steps, Step::Receive);
    assert(plan(steps@) =~= plan(old(steps)@) + exchange(frame@));
}

fn then_ask_mode(steps: &mut Vec<Step>)
    ensures
        plan(final(steps)@) == plan(old(steps)@) + mode_plan(),
{
    let words = [MODE_WORD];
    assert(words@ =~= seq![MODE_WORD]);
    then_do(steps, Step::Send(build_frame(CMD_MODE, FLAG_READ, &words)));
    then_do(steps, Step::Pause(10));
    then_do(steps, Step::Receive);
    assert(plan(steps@) =~= plan(old(steps)@) + mode_plan());
}

fn select(idx: i32) -> (f: [u8; FRAME_LEN])
    ensures
        f@ == select_frame(idx),
{
    let words = [MODE_WORD, idx];
    assert(words@ =~= seq![MODE_WORD, idx]);
    build_frame(CMD_MODE, FLAG_WRITE, &words)
}

fn commit() -> (f: [u8; FRAME_LEN])
    ensures
        f@ == commit_frame(),
{
    let words = [COMMIT_WORD];
    assert(words@ =~= seq![COMMIT_WORD]);
    build_frame(CMD_WRITE, FLAG_WRITE, &words)
}

fn record(bands: &[BandIn], i: usize) -> (f: [u8; FRAME_LEN])
    requires
        i < BANDS,
        i < bands@.len(),
    ensures
        f@ == record_frame(bands@, i as int),
{
    let e = &bands[i];
    let words = [
        0i32,
        i as i32 + 1,
        e.freq,
        e.q,
        type_code(e.typ.as_str()),
        encode_gain24(e.gain),
    ];
    assert(words@ =~= record_words(i as int, bands@[i as int]));
    build_frame(CMD_WRITE, FLAG_WRITE, &words)
}

fn coef_set(i: usize, j: usize, c: CoefSet, lifted: bool) -> (f: [u8; FRAME_LEN])
    requires
        i < BANDS,
        j < RATES,
    ensures
        f@ == frame(CMD_WRITE, FLAG_WRITE, coef_words(i as int, j as int, c, lifted)),
{
    let (rate, _hz) = sample_rate(j);
    let words = [
        rate,
        i as i32 + 1,
        3i32,
        if lifted { c.kb0 } else { c.b0 },
        if lifted { c.kb1 } else { c.b1 },
        if lifted { c.kb2 } else { c.b2 },
        c.a1,
        c.a2,
    ];
    assert(words@ =~= coef_words(i as int, j as int, c, lifted));
    build_frame(CMD_WRITE, FLAG_WRITE, &words)
}

/// The steps that ask which profile is active.
pub fn mode_steps() -> (steps: Vec<Step>)
    ensures
        plan(steps@) == mode_plan(),
{
    let mut steps: Vec<Step> = Vec::new();
    then_ask_mode(&mut steps);
    assert(plan(steps@) =~= mode_plan());
    steps
}

/// The steps that ask for all nine band records.
pub fn bank_steps() -> (steps: Vec<Step>)
    ensures
        plan(steps@) == bank_plan(BANDS as int),
{
    let mut steps: Vec<Step> = Vec::new();
    let mut n: i32 = 0;
    assert(plan(steps@) =~= bank_plan(0));
    while n < BANDS as i32
        invariant
            0 <= n <= BANDS,
            plan(steps@) == bank_plan(n as int),
        decreases BANDS - n,
    {
        n = n + 1;
        let words = [n];
        assert(words@ =~= seq![n]);
        then_do(&mut steps, Step::Send(build_frame(CMD_READ, FLAG_READ, &words)));
        then_do(&mut steps, Step::Pause(12));
        then_do(&mut steps, Step::Receive);
        assert(plan(steps@) =~= bank_plan(n as int));
    }
    steps
}

/// The steps that make profile `idx` active.
pub fn preset_steps(idx: i32) -> (steps: Vec<Step>)
    ensures
        plan(steps@) == preset_plan(idx),
{
    let mut steps: Vec<Step> = Vec::new();
    send_ack(&mut steps, select(idx));
    then_do(&mut steps, Step::Pause(12));
    send_ack(&mut steps, commit());
    then_do(&mut steps, Step::Pause(12));
    then_ask_mode(&mut steps);
    assert(plan(steps@) =~= preset_plan(idx));
    steps
}

/// The steps that write a bank. `flat` says that the preamp factor is one.
pub fn write_steps(bands: &[BandIn], flat: bool) -> (steps: Vec<Step>)
    requires
        bands@.len() >= BANDS,
    ensures
        plan(steps@) == write_plan(bands@, flat),
{
    let carrier = preamp_band(bands, flat);
    let ghost on = preamp_carrier(bands@, flat);
    let mut steps: Vec<Step> = Vec::new();
    send_ack(&mut steps, select(0));
    then_do(&mut steps, Step::Pause(6));
    let ghost head = exchange(select_frame(0)) + seq![StepView::Pause(6)];
    let mut i: usize = 0;
    assert(plan(steps@) =~= head + records_plan(bands@, 0));
    while i < BANDS
        invariant
            i <= BANDS <= bands@.len(),
            plan(steps@) == head + records_plan(bands@, i as int),
        decreases BANDS - i,
    {
        send_ack(&mut steps, record(bands, i));
        then_do(&mut steps, Step::Pause(6));
        i = i + 1;
        assert(plan(steps@) =~= head + records_plan(bands@, i as int));
    }
    let ghost body = head + records_plan(bands@, BANDS as int);
    let mut k: usize = 0;
    assert(plan(steps@) =~= body + coefs_plan(bands@, on, 0));
    while k < COEF_SETS
        invariant
            k <= COEF_SETS,
            BANDS <= bands@.len(),
            on == match carrier {
                Some(c) => Some(c as int),
                None => None::<int>,
            },
            plan(steps@) == body + coefs_plan(bands@, on, k as int),
        decreases COEF_SETS - k,
    {
        let i: usize = k / RATES;
        let j: usize = k % RATES;
        let lifted = match carrier {
            Some(c) => c == i,
            None => false,
        };
        send_ack(&mut steps, coef_set(i, j, bands[i].coefs[j], lifted));
        then_do(&mut steps, Step::Pause(6));
        k = k + 1;
        assert(plan(steps@) =~= body + coefs_plan(bands@, on, k as int));
    }
    send_ack(&mut steps, commit());
    then_do(&mut steps, Step::Pause(10));
    then_ask_mode(&mut steps);
    assert(plan(steps@) =~= write_plan(bands@, flat));
    steps
}

/// The plan changes nothing on the cable: every frame that it sends only asks.
pub open spec fn only_asks(plan: Seq<StepView>) -> bool {
    forall|k: int|
        0 <= k < plan.len() ==> (#[trigger] plan[k] matches StepView::Send(f) ==> f[5]
            == FLAG_READ)
}

proof fn lemma_sends_frames_add(a: Seq<StepView>, b: Seq<StepView>)
    requires
        sends_frames(a),
        sends_frames(b),
    ensures
        sends_frames(a + b),
{
    assert forall|k: int| 0 <= k < (a + b).len() implies is_frame(#[trigger] (a + b)[k]) by {
        if k < a.len() {
            assert((a + b)[k] == a[k]);
        } else {
            assert((a + b)[k] == b[k - a.len()]);
        }
    }
}

/// An exchange and the pause behind it.
proof fn lemma_exchange(f: Seq<u8>, millis: int)
    requires
        f.len() == FRAME_LEN,
        f[0] == REPORT_ID,
    ensures
        sends_frames(exchange(f)),
        sends_frames(seq![StepView::Pause(millis)]),
        receives(exchange(f)) == 1,
        receives(seq![StepView::Pause(millis)]) == 0,
{
    reveal_with_fuel(receives, 3);
    assert(exchange(f).drop_last() =~= seq![StepView::Send(f)]);
}

/// Asking for the active profile takes frames only, changes nothing and gives one reply.
pub proof fn law_mode_plan()
    ensures
        sends_frames(mode_plan()),
        only_asks(mode_plan()),
        receives(mode_plan()) == 1,
{
    reveal_with_fuel(receives, 4);
    law_frame_opening(CMD_MODE, FLAG_READ, seq![MODE_WORD]);
    let p = mode_plan();
    assert(p.drop_last() =~= seq![p[0], p[1]]);
    assert(p.drop_last().drop_last() =~= seq![p[0]]);
}

/// Asking for the band records takes frames only, changes nothing and gives one reply per band.
pub proof fn law_bank_plan(n: int)
    requires
        0 <= n <= BANDS,
    ensures
        sends_frames(bank_plan(n)),
        only_asks(bank_plan(n)),
        receives(bank_plan(n)) == n,
    decreases n,
{
    if n > 0 {
        law_bank_plan(n - 1);
        let f = frame(CMD_READ, FLAG_READ, seq![n as i32]);
        law_frame_opening(CMD_READ, FLAG_READ, seq![n as i32]);
        let p = seq![StepView::Send(f), StepView::Pause(12), StepView::Receive];
        reveal_with_fuel(receives, 4);
        assert(p.drop_last() =~= seq![p[0], p[1]]);
        assert(p.drop_last().drop_last() =~= seq![p[0]]);
        lemma_sends_frames_add(bank_plan(n - 1), p);
        lemma_receives_add(bank_plan(n - 1), p);
        assert forall|k: int| 0 <= k < bank_plan(n).len() implies (#[trigger] bank_plan(
            n,
        )[k] matches StepView::Send(g) ==> g[5] == FLAG_READ) by {
            if k < bank_plan(n - 1).len() {
                assert(bank_plan(n)[k] == bank_plan(n - 1)[k]);
            } else {
                assert(bank_plan(n)[k] == p[k - bank_plan(n - 1).len()]);
            }
        }
    }
}

/// Switching the profile takes frames only and gives three replies.
pub proof fn law_preset_plan(idx: i32)
    ensures
        sends_frames(preset_plan(idx)),
        receives(preset_plan(idx)) == 3,
{
    let wait = seq![StepView::Pause(12)];
    lemma_exchange(select_frame(idx), 12);
    lemma_exchange(commit_frame(), 12);
    law_mode_plan();
    let a = exchange(select_frame(idx)) + wait;
    lemma_sends_frames_add(exchange(select_frame(idx)), wait);
    lemma_receives_add(exchange(select_frame(idx)), wait);
    let b = a + exchange(commit_frame());
    lemma_sends_frames_add(a, exchange(commit_frame()));
    lemma_receives_add(a, exchange(commit_frame()));
    let c = b + wait;
    lemma_sends_frames_add(b, wait);
    lemma_receives_add(b, wait);
    lemma_sends_frames_add(c, mode_plan());
    lemma_receives_add(c, mode_plan());
}

proof fn lemma_records_plan(bands: Seq<BandIn>, n: int)
    requires
        0 <= n <= BANDS,
    ensures
        sends_frames(records_plan(bands, n)),
        receives(records_plan(bands, n)) == n,
        records_plan(bands, n).len() == 3 * n,
        forall|i: int|
            0 <= i < n ==> #[trigger] records_plan(bands, n)[3 * i] == StepView::Send(
                record_frame(bands, i),
            ),
    decreases n,
{
    if n > 0 {
        lemma_records_plan(bands, n - 1);
        let before = records_plan(bands, n - 1);
        let f = record_frame(bands, n - 1);
        let wait = seq![StepView::Pause(6)];
        lemma_exchange(f, 6);
        lemma_sends_frames_add(before, exchange(f));
        lemma_receives_add(before, exchange(f));
        lemma_sends_frames_add(before + exchange(f), wait);
        lemma_receives_add(before + exchange(f), wait);
        assert forall|i: int| 0 <= i < n implies #[trigger] records_plan(bands, n)[3 * i]
            == StepView::Send(record_frame(bands, i)) by {
            if i < n - 1 {
                assert(records_plan(bands, n)[3 * i] == before[3 * i]);
            }
        }
    } else {
        assert(records_plan(bands, n) =~= Seq::empty());
    }
}

proof fn lemma_coefs_plan(bands: Seq<BandIn>, carrier: Option<int>, n: int)
    requires
        0 <= n <= COEF_SETS,
    ensures
        sends_frames(coefs_plan(bands, carrier, n)),
        receives(coefs_plan(bands, carrier, n)) == n,
        coefs_plan(bands, carrier, n).len() == 3 * n,
        forall|k: int|
            0 <= k < n ==> #[trigger] coefs_plan(bands, carrier, n)[3 * k] == StepView::Send(
                coef_frame(bands, carrier, k / RATES as int, k % RATES as int),
            ),
    decreases n,
{
    if n > 0 {
        lemma_coefs_plan(bands, carrier, n - 1);
        let before = coefs_plan(bands, carrier, n - 1);
        let f = coef_frame(bands, carrier, (n - 1) / RATES as int, (n - 1) % RATES as int);
        let wait = seq![StepView::Pause(6)];
        lemma_exchange(f, 6);
        lemma_sends_frames_add(before, exchange(f));
        lemma_receives_add(before, exchange(f));
        lemma_sends_frames_add(before + exchange(f), wait);
        lemma_receives_add(before + exchange(f), wait);
        assert forall|k: int| 0 <= k < n implies #[trigger] coefs_plan(bands, carrier, n)[3 * k]
            == StepView::Send(
            coef_frame(bands, carrier, k / RATES as int, k % RATES as int),
        ) by {
            if k < n - 1 {
                assert(coefs_plan(bands, carrier, n)[3 * k] == before[3 * k]);
            }
        }
    } else {
        assert(coefs_plan(bands, carrier, n) =~= Seq::empty());
    }
}

/// Writing a bank takes frames only and gives 57 replies. The custom bank is made active before
/// anything else; then every band's record goes out once, then every band's coefficients once at
/// every sample rate; the commit comes behind all of them, and the question for the active
/// profile comes last.
pub proof fn law_write_plan(bands: Seq<BandIn>, flat: bool)
    ensures
        sends_frames(write_plan(bands, flat)),
        receives(write_plan(bands, flat)) == 57,
        write_plan(bands, flat).len() == 171,
        write_plan(bands, flat)[0] == StepView::Send(select_frame(0)),
        forall|i: int|
            0 <= i < BANDS ==> #[trigger] write_plan(bands, flat)[3 + 3 * i] == StepView::Send(
                record_frame(bands, i),
            ),
        forall|i: int, j: int|
            0 <= i < BANDS && 0 <= j < RATES ==> #[trigger] write_plan(bands, flat)[30 + 15 * i + 3
                * j] == StepView::Send(
                coef_frame(bands, preamp_carrier(bands, flat), i, j),
            ),
        write_plan(bands, flat)[165] == StepView::Send(commit_frame()),
        write_plan(bands, flat).skip(168) == mode_plan(),
{
    let carrier = preamp_carrier(bands, flat);
    let wait = seq![StepView::Pause(6)];
    let last_wait = seq![StepView::Pause(10)];
    let records = records_plan(bands, BANDS as int);
    let coefs = coefs_plan(bands, carrier, COEF_SETS as int);
    lemma_exchange(select_frame(0), 6);
    lemma_exchange(commit_frame(), 10);
    lemma_records_plan(bands, BANDS as int);
    lemma_coefs_plan(bands, carrier, COEF_SETS as int);
    law_mode_plan();
    let a = exchange(select_frame(0)) + wait;
    lemma_sends_frames_add(exchange(select_frame(0)), wait);
    lemma_receives_add(exchange(select_frame(0)), wait);
    let b = a + records;
    lemma_sends_frames_add(a, records);
    lemma_receives_add(a, records);
    let c = b + coefs;
    lemma_sends_frames_add(b, coefs);
    lemma_receives_add(b, coefs);
    let d = c + exchange(commit_frame());
    lemma_sends_frames_add(c, exchange(commit_frame()));
    lemma_receives_add(c, exchange(commit_frame()));
    let e = d + last_wait;
    lemma_sends_frames_add(d, last_wait);
    lemma_receives_add(d, last_wait);
    lemma_sends_frames_add(e, mode_plan());
    lemma_receives_add(e, mode_plan());
    let p = write_plan(bands, flat);
    assert(p == e + mode_plan());
    assert forall|i: int| 0 <= i < BANDS implies #[trigger] p[3 + 3 * i] == StepView::Send(
        record_frame(bands, i),
    ) by {
        assert(p[3 + 3 * i] == records[3 * i]);
    }
    assert forall|i: int, j: int| 0 <= i < BANDS && 0 <= j < RATES implies #[trigger] p[30 + 15 * i
        + 3 * j] == StepView::Send(coef_frame(bands, carrier, i, j)) by {
        let k = RATES * i + j;
        assert(k / RATES as int == i);
        assert(k % RATES as int == j);
        assert(p[30 + 15 * i + 3 * j] == coefs[3 * k]);
    }
    assert(p.skip(168) =~= mode_plan());
}

proof fn lemma_coefs_agree(bands: Seq<BandIn>, p: int, n: int)
    requires
        0 <= n <= COEF_SETS,
    ensures
        coefs_plan(bands, None, n).len() == 3 * n,
        coefs_plan(bands, Some(p), n).len() == 3 * n,
        forall|k: int|
            0 <= k < 3 * n && !(15 * p <= k < 15 * p + 15) ==> coefs_plan(bands, None, n)[k]
                == #[trigger] coefs_plan(bands, Some(p), n)[k],
    decreases n,
{
    if n > 0 {
        lemma_coefs_agree(bands, p, n - 1);
        let i = (n - 1) / RATES as int;
        let j = (n - 1) % RATES as int;
        if i != p {
            assert(coef_frame(bands, None, i, j) == coef_frame(bands, Some(p), i, j));
        } else {
            assert(15 * p <= 3 * (n - 1) && 3 * n <= 15 * p + 15);
        }
        assert forall|k: int|
            0 <= k < 3 * n && !(15 * p <= k < 15 * p + 15) implies coefs_plan(bands, None, n)[k]
            == #[trigger] coefs_plan(bands, Some(p), n)[k] by {
            if k < 3 * (n - 1) {
                assert(coefs_plan(bands, Some(p), n)[k] == coefs_plan(bands, Some(p), n - 1)[k]);
                assert(coefs_plan(bands, None, n)[k] == coefs_plan(bands, None, n - 1)[k]);
            }
        }
    } else {
        assert(coefs_plan(bands, None, n) =~= Seq::empty());
        assert(coefs_plan(bands, Some(p), n) =~= Seq::empty());
    }
}

/// A preamp rides on one band alone: what is written with it differs from what is written
/// without it at most in the five coefficient frames of the last active band.
pub proof fn law_preamp_rides_on_one_band(bands: Seq<BandIn>, k: int)
    requires
        0 <= k < 171,
        !(30 + 15 * last_active(bands, BANDS as int) <= k < 45 + 15 * last_active(
            bands,
            BANDS as int,
        )),
    ensures
        write_plan(bands, true)[k] == write_plan(bands, false)[k],
{
    let p = last_active(bands, BANDS as int);
    let records = records_plan(bands, BANDS as int);
    let plain = coefs_plan(bands, None, COEF_SETS as int);
    let lifted = coefs_plan(bands, Some(p), COEF_SETS as int);
    lemma_records_plan(bands, BANDS as int);
    lemma_coefs_agree(bands, p, COEF_SETS as int);
    if 30 <= k < 165 {
        assert(write_plan(bands, true)[k] == plain[k - 30]);
        assert(write_plan(bands, false)[k] == lifted[k - 30]);
    }
}

} // verus!
