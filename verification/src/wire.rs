//! What goes over the wire, byte by byte, and what a reply says, byte by byte.
//!
//! The laws here speak of bytes, offsets and the numbers of the protocol. They hold the sequences
//! and the parsers to what the cable expects and answers.
use vstd::prelude::*;

use crate::band::BandIn;
use crate::frame::{CMD_MODE, CMD_READ, CMD_WRITE, COMMIT_WORD, FLAG_READ, FLAG_WRITE, MODE_WORD};
use crate::transport::{Cable, Transport};

verus! {

use crate::band::{
    band_in_reply, coef_words, filter_name, filter_number, last_active, preamp_carrier, rate_code,
    rate_hz, record_words,
};
use crate::bytes::{le_bytes, le_i32, pattern};
use crate::dsp::{acks, mode_in_reply, same_mode};
use crate::frame::{frame, gain_word, le_i24};
use crate::sequence::{
    bank_plan, coef_frame, coefs_plan, commit_frame, exchange, law_write_plan, mode_plan,
    preset_plan, record_frame, records_plan, select_frame, write_plan,
};
use crate::transport::{
    answered, asked, between, law_answers_in_order, Event, ReplyView, StepView,
};

/// The four bytes at `at`, least significant first, are those of `v`; a negative number is there
/// as its two's complement.
pub open spec fn holds(f: Seq<u8>, at: int, v: int) -> bool {
    f[at] + 0x100 * f[at + 1] + 0x1_0000 * f[at + 2] + 0x100_0000 * f[at + 3] == if v < 0 {
        v + 0x1_0000_0000
    } else {
        v
    }
}

/// The step sends 62 bytes: the ten that open every frame, with this command and flag in it, then
/// the words, then zeros.
pub open spec fn sends(step: StepView, cmd: int, flag: int, words: Seq<int>) -> bool {
    &&& step matches StepView::Send(f)
    &&& f.len() == 62
    &&& f[0] == 0x01 && f[1] == 0 && f[2] == 0x0d && f[3] == 0
    &&& f[4] == cmd
    &&& f[5] == flag
    &&& f[6] == 0 && f[7] == 0x23 && f[8] == 0x2d && f[9] == 0xb3
    &&& forall|k: int| 0 <= k < words.len() ==> holds(f, 10 + 4 * k, #[trigger] words[k])
    &&& forall|k: int| 10 + 4 * words.len() <= k < 62 ==> f[k] == 0
}

/// The encoding of a number is four bytes, of which the first counts once, the second 256 times
/// and so on.
pub proof fn law_encoded_number(v: i32)
    ensures
        le_bytes(v).len() == 4,
        holds(le_bytes(v), 0, v as int),
{
    let u = pattern(v);
    assert(u % 256 + 256 * (u / 256 % 256) + 65536 * (u / 65536 % 256) + 16777216 * (u / 16777216)
        == u);
}

/// What four bytes read as is a 32-bit number whose bytes they are.
pub proof fn law_decoded_number(s: Seq<u8>, at: int)
    ensures
        -0x8000_0000 <= le_i32(s, at) < 0x8000_0000,
        holds(s, at, le_i32(s, at)),
{
}

/// A frame of up to thirteen words is 62 bytes: the fixed ones, the command at 4, the flag at 5,
/// word `k` at `10 + 4 * k`, and zeros behind the last.
pub proof fn law_frame_bytes(cmd: u8, flag: u8, words: Seq<i32>)
    requires
        words.len() <= 13,
    ensures
        sends(
            StepView::Send(frame(cmd, flag, words)),
            cmd as int,
            flag as int,
            words.map_values(|w: i32| w as int),
        ),
{
    let f = frame(cmd, flag, words);
    let ints = words.map_values(|w: i32| w as int);
    assert forall|k: int| 0 <= k < ints.len() implies holds(f, 10 + 4 * k, #[trigger] ints[k]) by {
        let at = 10 + 4 * k;
        assert forall|j: int| 0 <= j < 4 implies f[at + j] == le_bytes(words[k])[j] by {
            assert((at + j - 10) / 4 == k);
            assert((at + j - 10) % 4 == j);
        }
        assert(f[at] == f[at + 0]);
        law_encoded_number(words[k]);
    }
}

/// The word of a gain is the gain itself, or 2^24 more where the gain is negative; so it is the
/// gain modulo 2^24.
pub proof fn law_gain_word(g: int)
    ensures
        g >= 0 ==> gain_word(g) == g,
        g < 0 ==> gain_word(g) - g == 0x100_0000,
{
}

/// A gain reads from three bytes as the number from -2^23 up to 2^23 whose 24 bits they are.
pub proof fn law_decoded_gain(s: Seq<u8>, at: int)
    ensures
        -0x80_0000 <= le_i24(s, at) < 0x80_0000,
        s[at] + 0x100 * s[at + 1] + 0x1_0000 * s[at + 2] == if le_i24(s, at) < 0 {
            le_i24(s, at) + 0x100_0000
        } else {
            le_i24(s, at)
        },
{
}

/// The cable numbers low shelves 1 and high shelves 2; every other name counts as a peak, number
/// 0. Back from the number, each of the three has its name, and every other number has none.
pub proof fn law_filter_numbers(t: Seq<char>, code: int)
    ensures
        filter_number(t) == 1 <==> t == seq!['L', 'S', 'Q'],
        filter_number(t) == 2 <==> t == seq!['H', 'S', 'Q'],
        0 <= filter_number(t) <= 2,
        filter_name(code) == seq!['P', 'K'] <==> code == 0,
        filter_name(code) == seq!['L', 'S', 'Q'] <==> code == 1,
        filter_name(code) == seq!['H', 'S', 'Q'] <==> code == 2,
        filter_name(code) == seq!['?'] <==> code < 0 || code > 2,
{
    reveal_strlit("PK");
    reveal_strlit("LSQ");
    reveal_strlit("HSQ");
    reveal_strlit("?");
    assert("PK"@ =~= seq!['P', 'K']);
    assert("LSQ"@ =~= seq!['L', 'S', 'Q']);
    assert("HSQ"@ =~= seq!['H', 'S', 'Q']);
    assert("?"@ =~= seq!['?']);
    assert(seq!['L', 'S', 'Q'][0] != seq!['H', 'S', 'Q'][0]);
    assert(seq!['P', 'K'].len() == 2 && seq!['?'].len() == 1);
    assert(seq!['L', 'S', 'Q'].len() == 3 && seq!['H', 'S', 'Q'].len() == 3);
}

/// The five sample rates have the codes 4 to 8, in rising order.
pub proof fn law_sample_rates(j: int)
    requires
        0 <= j < 5,
    ensures
        rate_code(j) == 4 + j,
        j == 0 ==> rate_hz(j) == 44_100,
        j == 1 ==> rate_hz(j) == 48_000,
        j >= 2 ==> rate_hz(j) == 96_000 * (if j == 2 {
            1int
        } else if j == 3 {
            2
        } else {
            4
        }),
{
}

/// A band reads from a reply at fixed offsets. The frequency is the word at 18, the quality factor
/// the word at 22, the filter type the word at 26 and the gain the three bytes at 30. The reply
/// is good where it answers a band request, command 0xdd, with the top bit of the flag set. A
/// failed fetch, or a reply of under 34 bytes, gives a peak filter that does nothing.
pub proof fn law_band_reply(n: int, ok: bool, d: Seq<u8>)
    ensures
        ({
            let b = band_in_reply(n, ok, d);
            let whole = ok && d.len() >= 34;
            let first = if whole {
                d[26] as int
            } else {
                0
            };
            let single = !whole || (d[27] == 0 && d[28] == 0 && d[29] == 0);
            &&& b.band == n
            &&& b.ok <==> whole && d[4] == 0xdd && d[5] >= 128
            &&& whole ==> {
                &&& -0x8000_0000 <= b.freq < 0x8000_0000
                &&& holds(d, 18, b.freq)
                &&& -0x8000_0000 <= b.q < 0x8000_0000
                &&& holds(d, 22, b.q)
                &&& -0x80_0000 <= b.gain < 0x80_0000
                &&& d[30] + 0x100 * d[31] + 0x1_0000 * d[32] == b.gain + if b.gain < 0 {
                    0x100_0000int
                } else {
                    0
                }
            }
            &&& !whole ==> b.freq == 0 && b.q == 0 && b.gain == 0
            &&& b.typ == seq!['P', 'K'] <==> single && first == 0
            &&& b.typ == seq!['L', 'S', 'Q'] <==> single && first == 1
            &&& b.typ == seq!['H', 'S', 'Q'] <==> single && first == 2
            &&& b.typ == seq!['?'] <==> !(single && first <= 2)
        }),
{
    let whole = ok && d.len() >= 34;
    let code = if whole {
        le_i32(d, 26)
    } else {
        0
    };
    law_filter_numbers(Seq::empty(), code);
    law_decoded_number(d, 18);
    law_decoded_number(d, 22);
    law_decoded_number(d, 26);
    law_decoded_gain(d, 30);
    assert(band_in_reply(n, ok, d).typ == filter_name(code));
}

/// A reply names the active profile where the fetch succeeded, the reply has at least 18 bytes and
/// it answers command 0x5a; the profile is then the word at 14.
pub proof fn law_mode_reply(r: ReplyView)
    ensures
        mode_in_reply(r) is Some <==> r.ok && r.report.len() >= 18 && r.report[4] == 0x5a,
        mode_in_reply(r) matches Some(m) ==> -0x8000_0000 <= m < 0x8000_0000 && holds(
            r.report,
            14,
            m,
        ),
{
    law_decoded_number(r.report, 14);
}

/// Two optional profiles are the same where both name one and it is the same number, or neither
/// names any.
pub proof fn law_same_mode(a: Option<i32>, b: Option<int>)
    ensures
        same_mode(a, b) <==> (a is Some <==> b is Some) && (a is Some ==> a->0 == b->0),
{
}

/// Acknowledgements add up: those of two runs of replies are those of the one and those of the
/// other, and a single reply counts once where its fetch succeeded and not at all where it failed.
pub proof fn law_acks_add_up(a: Seq<ReplyView>, b: Seq<ReplyView>, r: ReplyView)
    ensures
        acks(a + b) == acks(a) + acks(b),
        acks(seq![r]) == if r.ok {
            1int
        } else {
            0
        },
    decreases b.len(),
{
    reveal_with_fuel(acks, 2);
    assert(seq![r].drop_last() =~= Seq::empty());
    if b.len() == 0 {
        assert(a + b =~= a);
    } else {
        assert((a + b).drop_last() =~= a + b.drop_last());
        law_acks_add_up(a, b.drop_last(), r);
    }
}

/// A send that is to be acknowledged is the send and one fetch, with nothing in between.
pub proof fn law_acknowledged_send(f: Seq<u8>)
    ensures
        exchange(f) == seq![StepView::Send(f), StepView::Receive],
{
}

/// Steps `at` to `at + 2` of a plan ask which profile is active: command 0x5a, flag 1, the word
/// 0x5a; ten milliseconds; a fetch.
pub open spec fn asks_mode(plan: Seq<StepView>, at: int) -> bool {
    &&& sends(plan[at], 0x5a, 0x01, seq![0x5a])
    &&& plan[at + 1] == StepView::Pause(10)
    &&& plan[at + 2] == StepView::Receive
}

/// The step commits: command 0xdc, flag 0, the word 0xff.
pub open spec fn commits(step: StepView) -> bool {
    sends(step, 0xdc, 0x00, seq![0xff])
}

/// Reading the active profile is the question for it and nothing else.
pub proof fn law_mode_is_asked()
    ensures
        mode_plan().len() == 3,
        asks_mode(mode_plan(), 0),
{
    let words = seq![MODE_WORD];
    law_frame_bytes(CMD_MODE, FLAG_READ, words);
    assert(words.map_values(|w: i32| w as int) =~= seq![0x5aint]);
}

/// The requests for the first `n` bands: band `k + 1` is asked for in step `3 * k`.
proof fn lemma_bank_requests(n: int)
    requires
        0 <= n <= 9,
    ensures
        bank_plan(n).len() == 3 * n,
        forall|k: int|
            #![trigger bank_plan(n)[3 * k]]
            0 <= k < n ==> {
                &&& sends(bank_plan(n)[3 * k], 0xdd, 0x01, seq![k + 1])
                &&& bank_plan(n)[3 * k + 1] == StepView::Pause(12)
                &&& bank_plan(n)[3 * k + 2] == StepView::Receive
            },
    decreases n,
{
    if n > 0 {
        lemma_bank_requests(n - 1);
        let words = seq![n as i32];
        law_frame_bytes(CMD_READ, FLAG_READ, words);
        assert(words.map_values(|w: i32| w as int) =~= seq![n]);
        let before = bank_plan(n - 1);
        assert forall|k: int|
            #![trigger bank_plan(n)[3 * k]]
            0 <= k < n implies {
                &&& sends(bank_plan(n)[3 * k], 0xdd, 0x01, seq![k + 1])
                &&& bank_plan(n)[3 * k + 1] == StepView::Pause(12)
                &&& bank_plan(n)[3 * k + 2] == StepView::Receive
            } by {
            if k < n - 1 {
                assert(bank_plan(n)[3 * k] == before[3 * k]);
                assert(bank_plan(n)[3 * k + 1] == before[3 * k + 1]);
                assert(bank_plan(n)[3 * k + 2] == before[3 * k + 2]);
            }
        }
    } else {
        assert(bank_plan(n) =~= Seq::empty());
    }
}

/// Reading the bank takes 27 steps, three for each band: a request with command 0xdd and flag 1
/// whose only word is the band's number, counted from 1; twelve milliseconds; a fetch.
pub proof fn law_bank_requests_each_band(k: int)
    requires
        0 <= k < 9,
    ensures
        bank_plan(9).len() == 27,
        sends(bank_plan(9)[3 * k], 0xdd, 0x01, seq![k + 1]),
        bank_plan(9)[3 * k + 1] == StepView::Pause(12),
        bank_plan(9)[3 * k + 2] == StepView::Receive,
{
    lemma_bank_requests(9);
}

/// Switching to profile `idx`, whatever its number, takes nine steps: the switch, with command
/// 0x5a, flag 0 and the words 0x5a and `idx`; the commit; the question for the active profile.
/// The first two are each fetched after and followed by twelve milliseconds.
pub proof fn law_preset_selects_the_profile(idx: i32)
    ensures
        preset_plan(idx).len() == 9,
        sends(preset_plan(idx)[0], 0x5a, 0x00, seq![0x5a, idx as int]),
        preset_plan(idx)[1] == StepView::Receive,
        preset_plan(idx)[2] == StepView::Pause(12),
        commits(preset_plan(idx)[3]),
        preset_plan(idx)[4] == StepView::Receive,
        preset_plan(idx)[5] == StepView::Pause(12),
        asks_mode(preset_plan(idx), 6),
{
    lemma_select_frame(idx);
    lemma_commit_frame();
    law_mode_is_asked();
    let p = preset_plan(idx);
    assert(p[6] == mode_plan()[0]);
    assert(p[7] == mode_plan()[1]);
    assert(p[8] == mode_plan()[2]);
}

proof fn lemma_select_frame(idx: i32)
    ensures
        sends(StepView::Send(select_frame(idx)), 0x5a, 0x00, seq![0x5a, idx as int]),
{
    let words = seq![MODE_WORD, idx];
    law_frame_bytes(CMD_MODE, FLAG_WRITE, words);
    assert(words.map_values(|w: i32| w as int) =~= seq![0x5a, idx as int]);
}

proof fn lemma_commit_frame()
    ensures
        commits(StepView::Send(commit_frame())),
{
    let words = seq![COMMIT_WORD];
    law_frame_bytes(CMD_WRITE, FLAG_WRITE, words);
    assert(words.map_values(|w: i32| w as int) =~= seq![0xffint]);
}

/// Band `i` is the one for the preamp to ride on: the last of the nine that is active, or the
/// ninth where none is.
pub open spec fn last_of_the_active(bands: Seq<BandIn>, i: int) -> bool {
    ||| {
        &&& 0 <= i < 9
        &&& i < bands.len()
        &&& bands[i].active
        &&& forall|k: int| i < k < 9 && k < bands.len() ==> !(#[trigger] bands[k]).active
    }
    ||| {
        &&& i == 8
        &&& forall|k: int| 0 <= k < 9 && k < bands.len() ==> !(#[trigger] bands[k]).active
    }
}

proof fn lemma_last_active(bands: Seq<BandIn>, n: int)
    requires
        0 <= n <= 9,
        forall|k: int| n <= k < 9 && k < bands.len() ==> !(#[trigger] bands[k]).active,
    ensures
        last_of_the_active(bands, last_active(bands, n)),
    decreases n,
{
    if n > 0 && !(n - 1 < bands.len() && bands[n - 1].active) {
        lemma_last_active(bands, n - 1);
    }
}

/// A flat preamp rides on no band. Any other rides on one of the nine bands, and on no other than
/// the last active one, or the ninth where none is active.
pub proof fn law_preamp_rides_on_the_last_active_band(bands: Seq<BandIn>, flat: bool)
    ensures
        flat <==> preamp_carrier(bands, flat) is None,
        preamp_carrier(bands, flat) matches Some(p) ==> 0 <= p < 9 && last_of_the_active(bands, p),
        forall|i: int|
            !flat && #[trigger] last_of_the_active(bands, i) ==> preamp_carrier(bands, flat) == Some(
                i,
            ),
{
    lemma_last_active(bands, 9);
    let p = last_active(bands, 9);
    assert forall|i: int| #[trigger] last_of_the_active(bands, i) implies i == p by {
        if i < p {
            assert(!(p < bands.len() && bands[p].active));
            assert(i < bands.len() && bands[i].active);
            assert(false);
        }
        if p < i {
            assert(p < bands.len() && bands[p].active);
        }
    }
}

/// The words that write the coefficients `c` of band `i` at sample rate `j`.
proof fn lemma_coef_frame(bands: Seq<BandIn>, carrier: Option<int>, i: int, j: int)
    requires
        0 <= i < 9,
        0 <= j < 5,
    ensures
        ({
            let c = bands[i].coefs@[j];
            let lifted = carrier == Some(i);
            sends(
                StepView::Send(coef_frame(bands, carrier, i, j)),
                0xdc,
                0x00,
                seq![
                    4 + j,
                    i + 1,
                    3,
                    if lifted { c.kb0 as int } else { c.b0 as int },
                    if lifted { c.kb1 as int } else { c.b1 as int },
                    if lifted { c.kb2 as int } else { c.b2 as int },
                    c.a1 as int,
                    c.a2 as int,
                ],
            )
        }),
{
    let c = bands[i].coefs@[j];
    let lifted = carrier == Some(i);
    let words = coef_words(i, j, c, lifted);
    law_frame_bytes(CMD_WRITE, FLAG_WRITE, words);
    assert(words.map_values(|w: i32| w as int) =~= seq![
        4 + j,
        i + 1,
        3,
        if lifted { c.kb0 as int } else { c.b0 as int },
        if lifted { c.kb1 as int } else { c.b1 as int },
        if lifted { c.kb2 as int } else { c.b2 as int },
        c.a1 as int,
        c.a2 as int,
    ]);
}

/// The coefficients of band `i` at sample rate `j` go out in step `30 + 15 * i + 3 * j` of a
/// write: the code of the rate, the number of the band, a three, the numerator, and the
/// denominator as it is. The numerator is the one with the preamp in it exactly where the preamp
/// is not flat and the band is the last active one, or the ninth where none is active.
pub proof fn law_write_sends_the_coefficients(bands: Seq<BandIn>, flat: bool, i: int, j: int)
    requires
        0 <= i < 9,
        0 <= j < 5,
    ensures
        ({
            let c = bands[i].coefs@[j];
            let lifted = !flat && last_of_the_active(bands, i);
            let step = write_plan(bands, flat)[30 + 15 * i + 3 * j];
            &&& sends(
                step,
                0xdc,
                0x00,
                seq![
                    4 + j,
                    i + 1,
                    3,
                    if lifted { c.kb0 as int } else { c.b0 as int },
                    if lifted { c.kb1 as int } else { c.b1 as int },
                    if lifted { c.kb2 as int } else { c.b2 as int },
                    c.a1 as int,
                    c.a2 as int,
                ],
            )
            &&& step matches StepView::Send(f) ==> {
                &&& holds(f, 10, 4 + j)
                &&& holds(f, 14, i + 1)
                &&& holds(f, 18, 3)
                &&& holds(f, 34, c.a1 as int)
                &&& holds(f, 38, c.a2 as int)
                &&& lifted ==> holds(f, 22, c.kb0 as int) && holds(f, 26, c.kb1 as int) && holds(
                    f,
                    30,
                    c.kb2 as int,
                )
                &&& !lifted ==> holds(f, 22, c.b0 as int) && holds(f, 26, c.b1 as int) && holds(
                    f,
                    30,
                    c.b2 as int,
                )
            }
        }),
{
    let carrier = preamp_carrier(bands, flat);
    law_write_plan(bands, flat);
    assert(write_plan(bands, flat)[30 + 15 * i + 3 * j] == StepView::Send(
        coef_frame(bands, carrier, i, j),
    ));
    law_preamp_rides_on_the_last_active_band(bands, flat);
    lemma_coef_frame(bands, carrier, i, j);
    let c = bands[i].coefs@[j];
    let lifted = !flat && last_of_the_active(bands, i);
    assert(lifted <==> carrier == Some(i));
    let words = seq![
        4 + j,
        i + 1,
        3,
        if lifted { c.kb0 as int } else { c.b0 as int },
        if lifted { c.kb1 as int } else { c.b1 as int },
        if lifted { c.kb2 as int } else { c.b2 as int },
        c.a1 as int,
        c.a2 as int,
    ];
    assert(words[0] == 4 + j && words[1] == i + 1 && words[2] == 3);
    assert(words[3] == if lifted { c.kb0 as int } else { c.b0 as int });
    assert(words[4] == if lifted { c.kb1 as int } else { c.b1 as int });
    assert(words[5] == if lifted { c.kb2 as int } else { c.b2 as int });
    assert(words[6] == c.a1 && words[7] == c.a2);
}

/// The step sends a frame with these three words as the numerator.
pub open spec fn sends_numerator(step: StepView, b0: i32, b1: i32, b2: i32) -> bool {
    &&& step matches StepView::Send(f)
    &&& holds(f, 22, b0 as int)
    &&& holds(f, 26, b1 as int)
    &&& holds(f, 30, b2 as int)
}

/// The frame of band `i` at sample rate `j` has the numerator with the preamp in it.
pub open spec fn written_with_preamp(bands: Seq<BandIn>, flat: bool, i: int, j: int) -> bool {
    let c = bands[i].coefs@[j];
    sends_numerator(write_plan(bands, flat)[30 + 15 * i + 3 * j], c.kb0, c.kb1, c.kb2)
}

/// The frame of band `i` at sample rate `j` has the band's own numerator.
pub open spec fn written_plainly(bands: Seq<BandIn>, flat: bool, i: int, j: int) -> bool {
    let c = bands[i].coefs@[j];
    sends_numerator(write_plan(bands, flat)[30 + 15 * i + 3 * j], c.b0, c.b1, c.b2)
}

/// Where the preamp is not flat there is a band for it: one of the nine, active with no active
/// band behind it, or the ninth where none is active; at all five sample rates it is written with
/// the numerator that has the preamp in it, and every other band with its own. Where the preamp is
/// flat, every band is written with its own numerator.
pub proof fn law_preamp_is_written(bands: Seq<BandIn>, flat: bool)
    ensures
        !flat ==> exists|p: int|
            {
                &&& 0 <= p < 9
                &&& #[trigger] last_of_the_active(bands, p)
                &&& forall|j: int| 0 <= j < 5 ==> #[trigger] written_with_preamp(bands, flat, p, j)
                &&& forall|i: int, j: int|
                    0 <= i < 9 && i != p && 0 <= j < 5 ==> #[trigger] written_plainly(
                        bands,
                        flat,
                        i,
                        j,
                    )
            },
        flat ==> forall|i: int, j: int|
            0 <= i < 9 && 0 <= j < 5 ==> #[trigger] written_plainly(bands, flat, i, j),
{
    if flat {
        assert forall|i: int, j: int| 0 <= i < 9 && 0 <= j < 5 implies #[trigger] written_plainly(
            bands,
            flat,
            i,
            j,
        ) by {
            law_write_sends_the_coefficients(bands, flat, i, j);
        }
    } else {
        let p = last_active(bands, 9);
        lemma_last_active(bands, 9);
        law_preamp_rides_on_the_last_active_band(bands, flat);
        assert(last_of_the_active(bands, p));
        assert forall|j: int| 0 <= j < 5 implies #[trigger] written_with_preamp(
            bands,
            flat,
            p,
            j,
        ) by {
            law_write_sends_the_coefficients(bands, flat, p, j);
        }
        assert forall|i: int, j: int|
            0 <= i < 9 && i != p && 0 <= j < 5 implies #[trigger] written_plainly(
            bands,
            flat,
            i,
            j,
        ) by {
            law_write_sends_the_coefficients(bands, flat, i, j);
        }
    }
}

/// The record of band `i` goes out in step `3 + 3 * i` of a write: a zero, the number of the band,
/// the frequency, the quality factor, the number of the filter type, and the gain in 24 bits.
pub proof fn law_write_sends_the_records(bands: Seq<BandIn>, flat: bool, i: int)
    requires
        0 <= i < 9,
    ensures
        ({
            let e = bands[i];
            sends(
                write_plan(bands, flat)[3 + 3 * i],
                0xdc,
                0x00,
                seq![
                    0,
                    i + 1,
                    e.freq as int,
                    e.q as int,
                    if e.typ@ == seq!['L', 'S', 'Q'] {
                        1
                    } else if e.typ@ == seq!['H', 'S', 'Q'] {
                        2
                    } else {
                        0
                    },
                    if e.gain < 0 {
                        e.gain + 0x100_0000
                    } else {
                        e.gain as int
                    },
                ],
            )
        }),
{
    let e = bands[i];
    let words = record_words(i, e);
    law_write_plan(bands, flat);
    assert(write_plan(bands, flat)[3 + 3 * i] == StepView::Send(record_frame(bands, i)));
    law_frame_bytes(CMD_WRITE, FLAG_WRITE, words);
    law_filter_numbers(e.typ@, 0);
    law_gain_word(e.gain as int);
    assert(words.map_values(|w: i32| w as int) =~= seq![
        0,
        i + 1,
        e.freq as int,
        e.q as int,
        if e.typ@ == seq!['L', 'S', 'Q'] {
            1
        } else if e.typ@ == seq!['H', 'S', 'Q'] {
            2
        } else {
            0
        },
        if e.gain < 0 {
            e.gain + 0x100_0000
        } else {
            e.gain as int
        },
    ]);
}

proof fn lemma_records_wait(bands: Seq<BandIn>, n: int)
    requires
        0 <= n <= 9,
    ensures
        records_plan(bands, n).len() == 3 * n,
        forall|k: int|
            #![trigger records_plan(bands, n)[3 * k + 1]]
            #![trigger records_plan(bands, n)[3 * k + 2]]
            0 <= k < n ==> records_plan(bands, n)[3 * k + 1] == StepView::Receive && records_plan(
                bands,
                n,
            )[3 * k + 2] == StepView::Pause(6),
    decreases n,
{
    if n > 0 {
        lemma_records_wait(bands, n - 1);
        let before = records_plan(bands, n - 1);
        let now = records_plan(bands, n);
        assert forall|k: int| 0 <= k < n implies #[trigger] now[3 * k + 1] == StepView::Receive
            && #[trigger] now[3 * k + 2] == StepView::Pause(6) by {
            if k < n - 1 {
                assert(now[3 * k + 1] == before[3 * k + 1]);
                assert(now[3 * k + 2] == before[3 * k + 2]);
            }
        }
    } else {
        assert(records_plan(bands, n) =~= Seq::empty());
    }
}

proof fn lemma_coefs_wait(bands: Seq<BandIn>, carrier: Option<int>, n: int)
    requires
        0 <= n <= 45,
    ensures
        coefs_plan(bands, carrier, n).len() == 3 * n,
        forall|k: int|
            #![trigger coefs_plan(bands, carrier, n)[3 * k + 1]]
            #![trigger coefs_plan(bands, carrier, n)[3 * k + 2]]
            0 <= k < n ==> coefs_plan(bands, carrier, n)[3 * k + 1] == StepView::Receive
                && coefs_plan(bands, carrier, n)[3 * k + 2] == StepView::Pause(6),
    decreases n,
{
    if n > 0 {
        lemma_coefs_wait(bands, carrier, n - 1);
        let before = coefs_plan(bands, carrier, n - 1);
        let now = coefs_plan(bands, carrier, n);
        assert forall|k: int| 0 <= k < n implies #[trigger] now[3 * k + 1] == StepView::Receive
            && #[trigger] now[3 * k + 2] == StepView::Pause(6) by {
            if k < n - 1 {
                assert(now[3 * k + 1] == before[3 * k + 1]);
                assert(now[3 * k + 2] == before[3 * k + 2]);
            }
        }
    } else {
        assert(coefs_plan(bands, carrier, n) =~= Seq::empty());
    }
}

/// A write takes 171 steps. It opens with the switch to profile 0; behind the records and the
/// coefficients comes the commit, and last the question for the active profile. Each of the 56
/// frames before that question is fetched after; six milliseconds follow, or ten behind the
/// commit.
pub proof fn law_write_waits_for_each_frame(bands: Seq<BandIn>, flat: bool, m: int)
    requires
        0 <= m < 56,
    ensures
        write_plan(bands, flat).len() == 171,
        sends(write_plan(bands, flat)[0], 0x5a, 0x00, seq![0x5a, 0]),
        write_plan(bands, flat)[3 * m + 1] == StepView::Receive,
        write_plan(bands, flat)[3 * m + 2] == StepView::Pause(
            if m < 55 {
                6
            } else {
                10
            },
        ),
        commits(write_plan(bands, flat)[165]),
        asks_mode(write_plan(bands, flat), 168),
{
    let p = write_plan(bands, flat);
    let carrier = preamp_carrier(bands, flat);
    let records = records_plan(bands, 9);
    let coefs = coefs_plan(bands, carrier, 45);
    law_write_plan(bands, flat);
    lemma_select_frame(0);
    lemma_commit_frame();
    law_mode_is_asked();
    lemma_records_wait(bands, 9);
    lemma_coefs_wait(bands, carrier, 45);
    assert(p[168] == p.skip(168)[0] && p[169] == p.skip(168)[1] && p[170] == p.skip(168)[2]);
    if 1 <= m < 10 {
        assert(p[3 * m + 1] == records[3 * (m - 1) + 1]);
        assert(p[3 * m + 2] == records[3 * (m - 1) + 2]);
    } else if 10 <= m < 55 {
        assert(p[3 * m + 1] == coefs[3 * (m - 10) + 1]);
        assert(p[3 * m + 2] == coefs[3 * (m - 10) + 2]);
    }
}

/// Of each three of the first `3 * n` events, the one at `off` is a fetch and no other is: the
/// replies are then those of the fetches, in order.
proof fn lemma_one_fetch_in_three(events: Seq<Event>, n: int, off: int)
    requires
        0 <= n,
        0 <= off < 3,
        3 * n <= events.len(),
        forall|k: int, r: int|
            #![trigger events[3 * k + r]]
            0 <= k < n && 0 <= r < 3 ==> (events[3 * k + r] is Received <==> r == off),
    ensures
        answered(events.take(3 * n)).len() == n,
        forall|k: int|
            #![trigger answered(events.take(3 * n))[k]]
            0 <= k < n ==> events[3 * k + off] == (Event::Received {
                reply: answered(events.take(3 * n))[k],
            }),
    decreases n,
{
    if n == 0 {
        assert(events.take(0) =~= Seq::empty());
    } else {
        lemma_one_fetch_in_three(events, n - 1, off);
        let before = events.take(3 * (n - 1));
        let x = events[3 * (n - 1) + 0];
        let y = events[3 * (n - 1) + 1];
        let z = events[3 * (n - 1) + 2];
        lemma_three_events(x, y, z);
        assert(events.take(3 * n) =~= before + seq![x, y, z]);
        law_answers_in_order(before, seq![x, y, z], x);
        let now = answered(events.take(3 * n));
        assert forall|k: int| 0 <= k < n implies events[3 * k + off] == (Event::Received {
            reply: #[trigger] now[k],
        }) by {
            if k < n - 1 {
                assert(now[k] == answered(before)[k]);
            }
        }
    }
}

/// The replies of three events of which at least one is a fetch.
proof fn lemma_three_events(x: Event, y: Event, z: Event)
    ensures
        x is Received && !(y is Received) && !(z is Received) ==> answered(seq![x, y, z]) == seq![
            x->reply,
        ],
        !(x is Received) && y is Received && !(z is Received) ==> answered(seq![x, y, z]) == seq![
            y->reply,
        ],
        !(x is Received) && !(y is Received) && z is Received ==> answered(seq![x, y, z]) == seq![
            z->reply,
        ],
{
    law_answers_in_order(seq![x], seq![y], x);
    law_answers_in_order(seq![x], seq![y], y);
    law_answers_in_order(seq![x] + seq![y], seq![z], z);
    assert(seq![x, y, z] =~= seq![x] + seq![y] + seq![z]);
    let got = answered(seq![x, y, z]);
    assert(got == answered(seq![x]) + answered(seq![y]) + answered(seq![z]));
    if x is Received && !(y is Received) && !(z is Received) {
        assert(got =~= seq![x->reply]);
    } else if !(x is Received) && y is Received && !(z is Received) {
        assert(got =~= seq![y->reply]);
    } else if !(x is Received) && !(y is Received) && z is Received {
        assert(got =~= seq![z->reply]);
    }
}

/// What was done, as events: each is the outcome of the step in the same place of the plan.
proof fn lemma_done<T: Transport>(before: Cable<T>, plan: Seq<StepView>, after: Cable<T>)
    requires
        before.did(plan, after),
    ensures
        ({
            let events = between(before.history(), after.history());
            &&& events.len() == plan.len()
            &&& after.history().len() == before.history().len() + plan.len()
            &&& forall|k: int|
                0 <= k < plan.len() ==> (#[trigger] events[k]).step() == plan[k] && events[k]
                    == after.history()[before.history().len() + k]
        }),
{
    let events = between(before.history(), after.history());
    assert(asked(events).len() == events.len());
    assert forall|k: int| 0 <= k < plan.len() implies (#[trigger] events[k]).step() == plan[k]
        && events[k] == after.history()[before.history().len() + k] by {
        assert(asked(events)[k] == events[k].step());
    }
}

/// Reading the active profile hears one reply, and it is what came of the fetch behind the
/// question.
pub proof fn law_mode_reply_answers_the_question<T: Transport>(before: Cable<T>, after: Cable<T>)
    requires
        before.did(mode_plan(), after),
    ensures
        before.heard(after).len() == 1,
        after.history()[before.history().len() as int + 2] == (Event::Received {
            reply: before.heard(after)[0],
        }),
{
    let events = between(before.history(), after.history());
    law_mode_is_asked();
    lemma_done(before, mode_plan(), after);
    lemma_three_events(events[0], events[1], events[2]);
    assert(events =~= seq![events[0], events[1], events[2]]);
}

/// Reading the bank hears nine replies, and reply `k`, which becomes band `k + 1`, is what came of
/// the fetch behind the request for band `k + 1`.
pub proof fn law_bank_replies_answer_their_requests<T: Transport>(
    before: Cable<T>,
    after: Cable<T>,
    k: int,
)
    requires
        before.did(bank_plan(9), after),
        0 <= k < 9,
    ensures
        ({
            let n = before.history().len() as int;
            &&& before.heard(after).len() == 9
            &&& after.history()[n + 3 * k] matches Event::Sent { frame, ok }
            &&& sends(StepView::Send(frame), 0xdd, 0x01, seq![k + 1])
            &&& after.history()[n + 3 * k + 2] == (Event::Received {
                reply: before.heard(after)[k],
            })
        }),
{
    let events = between(before.history(), after.history());
    let plan = bank_plan(9);
    law_bank_requests_each_band(k);
    lemma_done(before, plan, after);
    assert forall|j: int, r: int|
        #![trigger events[3 * j + r]]
        0 <= j < 9 && 0 <= r < 3 implies (events[3 * j + r] is Received <==> r == 2) by {
        law_bank_requests_each_band(j);
        assert(events[3 * j + r].step() == plan[3 * j + r]);
    }
    lemma_one_fetch_in_three(events, 9, 2);
    assert(events.take(27) =~= events);
    assert(answered(events.take(27))[k] == before.heard(after)[k]);
    assert(events[3 * k].step() == plan[3 * k]);
    assert(events[3 * k + 2] == after.history()[before.history().len() + (3 * k + 2)]);
}

/// Switching the profile hears three replies: what came of the switch, what came of the commit,
/// and what came of the question for the active profile.
pub proof fn law_preset_replies<T: Transport>(before: Cable<T>, after: Cable<T>, idx: i32)
    requires
        before.did(preset_plan(idx), after),
    ensures
        ({
            let n = before.history().len() as int;
            let replies = before.heard(after);
            &&& replies.len() == 3
            &&& after.history()[n + 1] == (Event::Received { reply: replies[0] })
            &&& after.history()[n + 4] == (Event::Received { reply: replies[1] })
            &&& after.history()[n + 8] == (Event::Received { reply: replies[2] })
        }),
{
    let events = between(before.history(), after.history());
    let plan = preset_plan(idx);
    law_preset_selects_the_profile(idx);
    lemma_done(before, plan, after);
    assert forall|j: int, r: int|
        #![trigger events[3 * j + r]]
        0 <= j < 2 && 0 <= r < 3 implies (events[3 * j + r] is Received <==> r == 1) by {
        assert(events[3 * j + r].step() == plan[3 * j + r]);
    }
    lemma_one_fetch_in_three(events, 2, 1);
    lemma_mode_behind(events, 6);
    let replies = before.heard(after);
    assert(answered(events.take(6))[0] == replies[0]);
    assert(answered(events.take(6))[1] == replies[1]);
}

/// A write hears 57 replies. Reply `m` of the first 56 is what came of the fetch behind frame `m`:
/// the switch, then the nine records, then the 45 coefficient sets, then the commit. The last is
/// what came of the question for the active profile.
pub proof fn law_write_replies<T: Transport>(
    before: Cable<T>,
    after: Cable<T>,
    bands: Seq<BandIn>,
    flat: bool,
    m: int,
)
    requires
        before.did(write_plan(bands, flat), after),
        0 <= m < 56,
    ensures
        ({
            let n = before.history().len() as int;
            let replies = before.heard(after);
            &&& replies.len() == 57
            &&& after.history()[n + 3 * m + 1] == (Event::Received { reply: replies[m] })
            &&& after.history()[n + 170] == (Event::Received { reply: replies[56] })
        }),
{
    let plan = write_plan(bands, flat);
    let events = between(before.history(), after.history());
    law_write_waits_for_each_frame(bands, flat, m);
    lemma_done(before, plan, after);
    assert forall|j: int, r: int|
        #![trigger events[3 * j + r]]
        0 <= j < 56 && 0 <= r < 3 implies (events[3 * j + r] is Received <==> r == 1) by {
        lemma_write_fetches(bands, flat, j, r);
        assert(events[3 * j + r].step() == plan[3 * j + r]);
    }
    lemma_one_fetch_in_three(events, 56, 1);
    assert(events[168].step() == plan[168]);
    assert(events[169].step() == plan[169]);
    assert(events[170].step() == plan[170]);
    lemma_mode_behind(events, 168);
    let replies = before.heard(after);
    assert(answered(events.take(168))[m] == replies[m]);
    assert(events[3 * m + 1] == after.history()[before.history().len() + (3 * m + 1)]);
}

/// Of the steps of a write before the last question, those behind a frame are fetches and no other
/// is.
proof fn lemma_write_fetches(bands: Seq<BandIn>, flat: bool, m: int, r: int)
    requires
        0 <= m < 56,
        0 <= r < 3,
    ensures
        write_plan(bands, flat)[3 * m + r] is Receive <==> r == 1,
{
    let plan = write_plan(bands, flat);
    law_write_waits_for_each_frame(bands, flat, m);
    if r == 0 {
        if 1 <= m < 10 {
            law_write_sends_the_records(bands, flat, m - 1);
            assert(3 * m + r == 3 + 3 * (m - 1));
        } else if 10 <= m < 55 {
            let i = (m - 10) / 5;
            let j = (m - 10) % 5;
            law_write_sends_the_coefficients(bands, flat, i, j);
            assert(3 * m + r == 30 + 15 * i + 3 * j);
        }
    }
}

/// The replies where the last three events are a question with its fetch.
proof fn lemma_mode_behind(events: Seq<Event>, n: int)
    requires
        0 <= n,
        events.len() == n + 3,
        !(events[n] is Received),
        !(events[n + 1] is Received),
        events[n + 2] is Received,
    ensures
        answered(events) == answered(events.take(n)).push(events[n + 2]->reply),
{
    let first = events.take(n);
    let rest = seq![events[n], events[n + 1], events[n + 2]];
    lemma_three_events(events[n], events[n + 1], events[n + 2]);
    assert(events =~= first + rest);
    law_answers_in_order(first, rest, events[n]);
    assert(answered(events) =~= answered(first).push(events[n + 2]->reply));
}

} // verus!
