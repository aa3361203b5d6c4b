//! The nine bands: what the cable stores of each, and what is written for each.
//!
//! A band lives on the cable twice. Its record holds whole numbers and is what reads back. Its
//! coefficient sets, one per sample rate, are what filters the sound.
use vstd::prelude::*;

use crate::bytes::read_le_i32;
use crate::frame::{decode_gain24, CMD_READ, CMD_WRITE, FLAG_WRITE};
use crate::text::same_text;

verus! {

use crate::bytes::{le_bytes, le_i32};
use crate::frame::{frame, gain_word, le_i24, law_frame_word_reads_back, law_gain_reads_back};

/// How many bands a bank has.
pub const BANDS: usize = 9;

/// How many sample rates the cable keeps coefficients for.
pub const RATES: usize = 5;

/// The shortest reply that holds a band record.
pub const BAND_REPLY_LEN: usize = 34;

/// A band as it reads back from the cable.
pub struct Band {
    /// Whether the reply is the cable's answer to a band request.
    pub ok: bool,
    /// The band's number, from 1.
    pub band: u8,
    /// Frequency in hertz.
    pub freq: i32,
    /// Gain in whole decibels.
    pub gain: i32,
    /// Quality factor in 256ths.
    pub q: i32,
    /// `PK`, `LSQ`, `HSQ`, or `?` where the cable names no known filter.
    pub typ: String,
}

/// What a `Band` says, its text taken as characters.
pub struct BandView {
    pub ok: bool,
    pub band: int,
    pub freq: int,
    pub gain: int,
    pub q: int,
    pub typ: Seq<char>,
}

impl View for Band {
    type V = BandView;

    open spec fn view(&self) -> BandView {
        BandView {
            ok: self.ok,
            band: self.band as int,
            freq: self.freq as int,
            gain: self.gain as int,
            q: self.q as int,
            typ: self.typ@,
        }
    }
}

/// One band's coefficients at one sample rate, in units of 2^-22.
#[derive(Clone, Copy)]
pub struct CoefSet {
    /// Numerator.
    pub b0: i32,
    pub b1: i32,
    pub b2: i32,
    /// Denominator, sign reversed, without its leading one.
    pub a1: i32,
    pub a2: i32,
    /// Numerator times the preamp factor.
    pub kb0: i32,
    pub kb1: i32,
    pub kb2: i32,
}

/// A band to be written.
pub struct BandIn {
    /// Frequency in hertz, rounded.
    pub freq: i32,
    /// Gain in decibels, rounded.
    pub gain: i32,
    /// Quality factor in 256ths, rounded.
    pub q: i32,
    /// `PK`, `LSQ` or `HSQ`; anything else counts as `PK`.
    pub typ: String,
    /// Whether the gain, before rounding, is anything but zero.
    pub active: bool,
    /// The coefficients at each sample rate.
    pub coefs: [CoefSet; RATES],
}

/// The name of a filter type.
pub open spec fn filter_name(code: int) -> Seq<char> {
    if code == 0 {
        "PK"@
    } else if code == 1 {
        "LSQ"@
    } else if code == 2 {
        "HSQ"@
    } else {
        "?"@
    }
}

/// The number of a filter type.
pub open spec fn filter_number(t: Seq<char>) -> int {
    if t == "LSQ"@ {
        1
    } else if t == "HSQ"@ {
        2
    } else {
        0
    }
}

/// The name of the filter type that the cable numbers `code`.
pub fn ftype(code: i32) -> (t: &'static str)
    ensures
        t@ == filter_name(code as int),
{
    match code {
        0 => "PK",
        1 => "LSQ",
        2 => "HSQ",
        _ => "?",
    }
}

/// The number that the cable has for the filter type named `t`.
pub fn type_code(t: &str) -> (code: i32)
    ensures
        code == filter_number(t@),
{
    if same_text(t, "LSQ") {
        1
    } else if same_text(t, "HSQ") {
        2
    } else {
        0
    }
}

/// The code of sample rate `j`.
pub open spec fn rate_code(j: int) -> int {
    j + 4
}

/// The sample rates in hertz.
pub open spec fn rate_hz(j: int) -> int {
    seq![44100int, 48000, 96000, 192000, 384000][j]
}

/// The code and the frequency of sample rate `j`.
pub fn sample_rate(j: usize) -> (r: (i32, u32))
    requires
        j < RATES,
    ensures
        r.0 == rate_code(j as int),
        r.1 == rate_hz(j as int),
{
    let hz: [u32; RATES] = [44100, 48000, 96000, 192000, 384000];
    (j as i32 + 4, hz[j])
}

/// What a reply `d` to the request for band `n` says; `ok` is whether there was one.
pub open spec fn band_in_reply(n: int, ok: bool, d: Seq<u8>) -> BandView {
    if !ok || d.len() < BAND_REPLY_LEN {
        BandView { ok: false, band: n, freq: 0, gain: 0, q: 0, typ: "PK"@ }
    } else {
        BandView {
            ok: d[4] == CMD_READ && d[5] >= 0x80,
            band: n,
            freq: le_i32(d, 18),
            gain: le_i24(d, 30),
            q: le_i32(d, 22),
            typ: filter_name(le_i32(d, 26)),
        }
    }
}

/// Reads the band record out of a reply.
pub fn parse_band(n: u8, ok: bool, d: &[u8]) -> (b: Band)
    ensures
        b@ == band_in_reply(n as int, ok, d@),
{
    if !ok || d.len() < BAND_REPLY_LEN {
        return Band { ok: false, band: n, freq: 0, gain: 0, q: 0, typ: "PK".to_owned() };
    }
    Band {
        ok: d[4] == CMD_READ && d[5] >= 0x80,
        band: n,
        freq: read_le_i32(d, 18),
        gain: decode_gain24(d, 30),
        q: read_le_i32(d, 22),
        typ: ftype(read_le_i32(d, 26)).to_owned(),
    }
}

/// The band, of the first `n`, that is the last to be active; the last of all where none is.
pub open spec fn last_active(bands: Seq<BandIn>, n: int) -> int
    decreases n,
{
    if n <= 0 {
        BANDS - 1
    } else if n - 1 < bands.len() && bands[n - 1].active {
        n - 1
    } else {
        last_active(bands, n - 1)
    }
}

/// The band that carries the preamp. `flat` says that the preamp changes nothing.
pub open spec fn preamp_carrier(bands: Seq<BandIn>, flat: bool) -> Option<int> {
    if flat {
        None
    } else {
        Some(last_active(bands, BANDS as int))
    }
}

/// Picks the band whose numerator carries the preamp: the last active one, so that the rest of
/// the cascade runs at full level ahead of the attenuation.
pub fn preamp_band(bands: &[BandIn], flat: bool) -> (p: Option<usize>)
    ensures
        match p {
            None => preamp_carrier(bands@, flat) is None,
            Some(i) => i < BANDS && preamp_carrier(bands@, flat) == Some(i as int),
        },
{
    if flat {
        return None;
    }
    let mut n: usize = BANDS;
    while n > 0
        invariant
            !flat,
            n <= BANDS,
            last_active(bands@, BANDS as int) == last_active(bands@, n as int),
        decreases n,
    {
        if n - 1 < bands.len() && bands[n - 1].active {
            return Some(n - 1);
        }
        n = n - 1;
    }
    Some(BANDS - 1)
}

/// The words of the frame that writes the record of band `i`.
pub open spec fn record_words(i: int, e: BandIn) -> Seq<i32> {
    seq![
        0i32,
        (i + 1) as i32,
        e.freq,
        e.q,
        filter_number(e.typ@) as i32,
        gain_word(e.gain as int) as i32,
    ]
}

/// The words of the frame that writes the coefficients of band `i` at sample rate `j`; `lifted`
/// says that the band carries the preamp.
pub open spec fn coef_words(i: int, j: int, c: CoefSet, lifted: bool) -> Seq<i32> {
    seq![
        rate_code(j) as i32,
        (i + 1) as i32,
        3i32,
        if lifted { c.kb0 } else { c.b0 },
        if lifted { c.kb1 } else { c.b1 },
        if lifted { c.kb2 } else { c.b2 },
        c.a1,
        c.a2,
    ]
}

/// The three filter types keep their name through the number that the cable has for them, and
/// their number through the name; any other name ends up as `PK`.
pub proof fn law_filter_types_correspond(t: Seq<char>, code: int)
    ensures
        filter_name(filter_number(t)) == if t == "LSQ"@ || t == "HSQ"@ { t } else { "PK"@ },
        0 <= code <= 2 ==> filter_number(filter_name(code)) == code,
{
    reveal_strlit("PK");
    reveal_strlit("LSQ");
    reveal_strlit("HSQ");
    assert("LSQ"@[0] != "HSQ"@[0]);
    assert("PK"@.len() != "LSQ"@.len());
    assert("PK"@.len() != "HSQ"@.len());
}

/// The preamp sits on the last active band: no band behind it is active, and it is itself active
/// unless none of the nine is, in which case it is the ninth.
pub proof fn law_preamp_is_on_the_last_active_band(bands: Seq<BandIn>)
    requires
        bands.len() >= BANDS,
    ensures
        ({
            let p = last_active(bands, BANDS as int);
            &&& 0 <= p < BANDS
            &&& forall|i: int| p < i < BANDS ==> !bands[i].active
            &&& bands[p].active || (p == BANDS - 1 && forall|i: int|
                0 <= i < BANDS ==> !bands[i].active)
        }),
{
    lemma_last_active(bands, BANDS as int);
}

proof fn lemma_last_active(bands: Seq<BandIn>, n: int)
    requires
        0 <= n <= BANDS,
        bands.len() >= BANDS,
    ensures
        ({
            let p = last_active(bands, n);
            &&& 0 <= p < BANDS
            &&& forall|i: int| p < i < n ==> !bands[i].active
            &&& (p < n && bands[p].active) || (p == BANDS - 1 && forall|i: int|
                0 <= i < n ==> !bands[i].active)
        }),
    decreases n,
{
    if n > 0 && !bands[n - 1].active {
        lemma_last_active(bands, n - 1);
    }
}

/// What is written reads back: a reply that carries the record bytes of the frame that wrote
/// band `i` gives its frequency, its quality factor and its filter type, and its gain modulo
/// 2^24, which is the gain itself where it fits into 24 bits.
pub proof fn law_written_record_reads_back(i: int, e: BandIn, n: int, d: Seq<u8>)
    requires
        0 <= i < BANDS,
        d.len() >= BAND_REPLY_LEN,
        d.subrange(18, 34) == frame(CMD_WRITE, FLAG_WRITE, record_words(i, e)).subrange(18, 34),
    ensures
        ({
            let b = band_in_reply(n, true, d);
            &&& b.freq == e.freq
            &&& b.q == e.q
            &&& b.typ == filter_name(filter_number(e.typ@))
            &&& (b.gain - e.gain) % 0x100_0000 == 0
            &&& -0x80_0000 <= e.gain < 0x80_0000 ==> b.gain == e.gain
        }),
{
    let words = record_words(i, e);
    let f = frame(CMD_WRITE, FLAG_WRITE, words);
    assert forall|k: int| 18 <= k < 34 implies d[k] == f[k] by {
        assert(d[k] == d.subrange(18, 34)[k - 18]);
        assert(f[k] == f.subrange(18, 34)[k - 18]);
    }
    law_frame_word_reads_back(CMD_WRITE, FLAG_WRITE, words, 2);
    law_frame_word_reads_back(CMD_WRITE, FLAG_WRITE, words, 3);
    law_frame_word_reads_back(CMD_WRITE, FLAG_WRITE, words, 4);
    law_gain_reads_back(e.gain);
    assert forall|k: int| 30 <= k < 33 implies f[k] == le_bytes(words[5])[k - 30] by {
        assert((k - 10) / 4 == 5);
        assert((k - 10) % 4 == k - 30);
    }
}

/// The preamp changes nothing but the numerator of a coefficient frame: the sample rate, the band
/// and the denominator stay as they are.
pub proof fn law_preamp_keeps_the_denominator(i: int, j: int, c: CoefSet)
    ensures
        ({
            let plain = coef_words(i, j, c, false);
            let lifted = coef_words(i, j, c, true);
            &&& plain.len() == lifted.len()
            &&& forall|k: int| 0 <= k < 8 && !(3 <= k < 6) ==> lifted[k] == plain[k]
            &&& lifted.subrange(3, 6) == seq![c.kb0, c.kb1, c.kb2]
            &&& plain.subrange(3, 6) == seq![c.b0, c.b1, c.b2]
        }),
{
    assert(coef_words(i, j, c, true).subrange(3, 6) =~= seq![c.kb0, c.kb1, c.kb2]);
    assert(coef_words(i, j, c, false).subrange(3, 6) =~= seq![c.b0, c.b1, c.b2]);
}

/// What is seen of a band is all that it holds.
pub proof fn law_band_is_seen_whole(b: Band)
    ensures
        b@.ok == b.ok,
        b@.band == b.band,
        b@.freq == b.freq,
        b@.gain == b.gain,
        b@.q == b.q,
        b@.typ == b.typ@,
{
}

} // verus!
