//! The operations on an open cable.
use vstd::prelude::*;

use crate::band::{parse_band, Band, BandIn, BANDS};
use crate::bytes::read_le_i32;
use crate::frame::CMD_MODE;
use crate::sequence::{bank_steps, mode_steps, preset_steps, write_steps};
use crate::transport::{perform, Cable, Reply, Transport};

verus! {

use crate::band::band_in_reply;
use crate::bytes::le_i32;
use crate::frame::{law_frame_word_reads_back, FLAG_WRITE, MODE_WORD};
use crate::sequence::{
    bank_plan, law_bank_plan, law_mode_plan, law_preset_plan, law_write_plan, mode_plan,
    preset_plan, select_frame, write_plan,
};
use crate::transport::{views, ReplyView};

/// The shortest reply that holds the active profile.
pub const MODE_REPLY_LEN: usize = 18;

/// How many frames a write counts the acknowledgements of: the records and the coefficient sets.
pub const COUNTED: usize = 54;

/// How a write went.
pub struct WriteResult {
    /// How many records and coefficient sets were acknowledged.
    pub acked: u32,
    /// The profile that the cable then said is active.
    pub active: Option<i32>,
}

/// The active profile that a reply names, if it names one.
pub open spec fn mode_in_reply(r: ReplyView) -> Option<int> {
    if r.ok && r.report.len() >= MODE_REPLY_LEN && r.report[4] == CMD_MODE {
        Some(le_i32(r.report, 14))
    } else {
        None
    }
}

/// An executable optional number says the same as a mathematical one.
pub open spec fn same_mode(a: Option<i32>, b: Option<int>) -> bool {
    match a {
        Some(m) => b == Some(m as int),
        None => b is None,
    }
}

/// Reads the active profile out of a reply.
pub fn parse_mode(ok: bool, d: &[u8]) -> (mode: Option<i32>)
    ensures
        same_mode(mode, mode_in_reply(ReplyView { ok, report: d@ })),
{
    if ok && d.len() >= MODE_REPLY_LEN && d[4] == CMD_MODE {
        Some(read_le_i32(d, 14))
    } else {
        None
    }
}

/// Reads the nine bands out of the replies to the nine requests.
pub fn parse_bank(replies: &Vec<Reply>) -> (bands: Vec<Band>)
    requires
        replies@.len() == BANDS,
    ensures
        bands@.len() == BANDS,
        forall|k: int|
            #![trigger bands@[k]]
            0 <= k < BANDS ==> bands@[k]@ == band_in_reply(
                k + 1,
                replies@[k].ok,
                replies@[k].report@,
            ),
{
    let mut bands: Vec<Band> = Vec::new();
    let mut n: u8 = 0;
    while (n as usize) < BANDS
        invariant
            n <= BANDS,
            replies@.len() == BANDS,
            bands@.len() == n,
            forall|k: int|
                #![trigger bands@[k]]
                0 <= k < n ==> bands@[k]@ == band_in_reply(
                    k + 1,
                    replies@[k].ok,
                    replies@[k].report@,
                ),
        decreases BANDS - n,
    {
        let r = &replies[n as usize];
        bands.push(parse_band(n + 1, r.ok, r.report.as_slice()));
        n = n + 1;
    }
    bands
}

/// How many of the replies are acknowledgements.
pub open spec fn acks(replies: Seq<ReplyView>) -> nat
    decreases replies.len(),
{
    if replies.len() == 0 {
        0
    } else {
        acks(replies.drop_last()) + if replies.last().ok {
            1nat
        } else {
            0
        }
    }
}

/// Judges a write by its replies. The first answers the switch to the custom bank and the last
/// but one answers the commit; neither counts. The last names the active profile.
pub fn parse_write(replies: &Vec<Reply>) -> (w: WriteResult)
    requires
        replies@.len() == COUNTED + 3,
    ensures
        w.acked == acks(views(replies@).subrange(1, 1 + COUNTED)),
        w.acked <= COUNTED,
        same_mode(w.active, mode_in_reply(replies@[COUNTED + 2]@)),
{
    let mut acked: u32 = 0;
    let mut k: usize = 1;
    let ghost seen = views(replies@);
    assert(seen.subrange(1, 1) =~= Seq::empty());
    while k < 1 + COUNTED
        invariant
            1 <= k <= 1 + COUNTED,
            replies@.len() == COUNTED + 3,
            seen == views(replies@),
            acked == acks(seen.subrange(1, k as int)),
            acked < k,
        decreases 1 + COUNTED - k,
    {
        assert(seen.subrange(1, k + 1).drop_last() =~= seen.subrange(1, k as int));
        assert(seen.subrange(1, k + 1).last() == replies@[k as int]@);
        if replies[k].ok {
            acked = acked + 1;
        }
        k = k + 1;
    }
    let last = &replies[COUNTED + 2];
    WriteResult { acked, active: parse_mode(last.ok, last.report.as_slice()) }
}

/// Asks the cable which profile is active.
pub fn read_mode<T: Transport>(dev: &mut Cable<T>) -> (mode: Option<i32>)
    ensures
        old(dev).did(mode_plan(), *final(dev)),
        old(dev).heard(*final(dev)).len() == 1,
        same_mode(
            mode,
            mode_in_reply(old(dev).heard(*final(dev))[0]),
        ),
{
    proof {
        law_mode_plan();
    }
    let replies = perform(dev, &mode_steps());
    assert(views(replies@)[0] == replies@[0]@);
    parse_mode(replies[0].ok, replies[0].report.as_slice())
}

/// Reads the nine bands that the cable holds.
pub fn read_bank<T: Transport>(dev: &mut Cable<T>) -> (bands: Vec<Band>)
    ensures
        old(dev).did(bank_plan(BANDS as int), *final(dev)),
        old(dev).heard(*final(dev)).len() == BANDS,
        bands@.len() == BANDS,
        forall|k: int|
            #![trigger bands@[k]]
            0 <= k < BANDS ==> bands@[k]@ == band_in_reply(
                k + 1,
                old(dev).heard(*final(dev))[k].ok,
                old(dev).heard(*final(dev))[k].report,
            ),
{
    proof {
        law_bank_plan(BANDS as int);
    }
    let replies = perform(dev, &bank_steps());
    assert forall|k: int| 0 <= k < BANDS implies views(replies@)[k] == (#[trigger] replies@[k])@ by {
    }
    parse_bank(&replies)
}

/// Makes profile `idx` active and asks the cable which one then is.
pub fn set_preset<T: Transport>(dev: &mut Cable<T>, idx: i32) -> (mode: Option<i32>)
    ensures
        old(dev).did(preset_plan(idx), *final(dev)),
        old(dev).heard(*final(dev)).len() == 3,
        same_mode(
            mode,
            mode_in_reply(old(dev).heard(*final(dev))[2]),
        ),
{
    proof {
        law_preset_plan(idx);
    }
    let replies = perform(dev, &preset_steps(idx));
    assert(views(replies@)[2] == replies@[2]@);
    parse_mode(replies[2].ok, replies[2].report.as_slice())
}

/// Writes the first nine of `bands` into the custom bank. `flat` says that the preamp factor is
/// one, so that no band carries it.
pub fn write_bank<T: Transport>(dev: &mut Cable<T>, bands: &[BandIn], flat: bool) -> (w:
    WriteResult)
    requires
        bands@.len() >= BANDS,
    ensures
        old(dev).did(write_plan(bands@, flat), *final(dev)),
        old(dev).heard(*final(dev)).len() == COUNTED + 3,
        w.acked == acks(
            old(dev).heard(*final(dev)).subrange(1, 1 + COUNTED),
        ),
        w.acked <= COUNTED,
        same_mode(
            w.active,
            mode_in_reply(
                old(dev).heard(*final(dev))[COUNTED + 2],
            ),
        ),
{
    proof {
        law_write_plan(bands@, flat);
    }
    let replies = perform(dev, &write_steps(bands, flat));
    assert(views(replies@)[COUNTED + 2] == replies@[COUNTED + 2]@);
    parse_write(&replies)
}

/// No more acknowledgements than replies, and as many only where every reply is one.
pub proof fn law_acks_count(replies: Seq<ReplyView>)
    ensures
        acks(replies) <= replies.len(),
        acks(replies) == replies.len() <==> forall|k: int|
            0 <= k < replies.len() ==> (#[trigger] replies[k]).ok,
    decreases replies.len(),
{
    if replies.len() > 0 {
        let front = replies.drop_last();
        law_acks_count(front);
        assert forall|k: int| 0 <= k < front.len() implies front[k] == #[trigger] replies[k] by {
        }
        if acks(replies) == replies.len() {
            assert forall|k: int| 0 <= k < replies.len() implies (#[trigger] replies[k]).ok by {
                if k < front.len() {
                    assert(front[k].ok);
                }
            }
        }
        if forall|k: int| 0 <= k < replies.len() ==> (#[trigger] replies[k]).ok {
            assert(replies[replies.len() - 1].ok);
            assert forall|k: int| 0 <= k < front.len() implies (#[trigger] front[k]).ok by {
                assert(replies[k].ok);
            }
        }
    }
}

/// The profile that a switch asked for is what the active profile reads as from a reply that
/// carries the frame's own profile word.
pub proof fn law_selected_profile_reads_back(idx: i32, r: ReplyView)
    requires
        r.ok,
        r.report.len() >= MODE_REPLY_LEN,
        r.report[4] == CMD_MODE,
        r.report.subrange(14, 18) == select_frame(idx).subrange(14, 18),
    ensures
        mode_in_reply(r) == Some(idx as int),
{
    let f = select_frame(idx);
    law_frame_word_reads_back(CMD_MODE, FLAG_WRITE, seq![MODE_WORD, idx], 1);
    assert forall|k: int| 14 <= k < 18 implies r.report[k] == f[k] by {
        assert(r.report[k] == r.report.subrange(14, 18)[k - 14]);
        assert(f[k] == f.subrange(14, 18)[k - 14]);
    }
}

} // verus!
