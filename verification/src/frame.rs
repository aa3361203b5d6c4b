//! The frame: one HID report of the cable, in either direction.
//!
//! Byte 0 is the report ID and the remaining 61 are payload. The payload opens with nine fixed or
//! command bytes; from offset 10 on it carries little-endian 32-bit words.
use vstd::prelude::*;

use crate::bytes::to_le_bytes;

verus! {

use crate::bytes::{le_bytes, le_i32, law_le_bytes_read_back, pattern};

/// The USB vendor of every supported cable.
pub const MOONDROP_VID: u16 = 0x35D8;

/// How many bytes a frame has.
pub const FRAME_LEN: usize = 62;

/// The report ID that byte 0 of every frame holds.
pub const REPORT_ID: u8 = 0x01;

/// How many bytes come before the first word.
pub const HEADER_LEN: usize = 10;

/// How many words fit behind the header.
pub const MAX_WORDS: usize = 13;

/// Command byte: the active profile.
pub const CMD_MODE: u8 = 0x5a;

/// Command byte: write a band record or a coefficient set, or commit.
pub const CMD_WRITE: u8 = 0xdc;

/// Command byte: read a band record.
pub const CMD_READ: u8 = 0xdd;

/// Flag byte of a frame that changes something.
pub const FLAG_WRITE: u8 = 0x00;

/// Flag byte of a frame that only asks.
pub const FLAG_READ: u8 = 0x01;

/// The word that follows `CMD_MODE`.
pub const MODE_WORD: i32 = 0x5a;

/// The word that makes a `CMD_WRITE` frame a commit.
pub const COMMIT_WORD: i32 = 0xff;

/// The ten bytes that open a frame.
pub open spec fn header(cmd: u8, flag: u8) -> Seq<u8> {
    seq![REPORT_ID, 0u8, 0x0du8, 0u8, cmd, flag, 0u8, 0x23u8, 0x2du8, 0xb3u8]
}

/// The frame that carries `words`: the header, the words one behind the other, zeros to the end.
pub open spec fn frame(cmd: u8, flag: u8, words: Seq<i32>) -> Seq<u8> {
    Seq::new(
        FRAME_LEN as nat,
        |k: int|
            if k < HEADER_LEN {
                header(cmd, flag)[k]
            } else if k < HEADER_LEN + 4 * words.len() {
                le_bytes(words[(k - HEADER_LEN) / 4])[(k - HEADER_LEN) % 4]
            } else {
                0u8
            },
    )
}

/// Builds the frame of a command, a flag and up to thirteen words.
pub fn build_frame(cmd: u8, flag: u8, dwords: &[i32]) -> (b: [u8; FRAME_LEN])
    requires
        dwords@.len() <= MAX_WORDS,
    ensures
        b@ == frame(cmd, flag, dwords@),
{
    let mut b = [0u8; FRAME_LEN];
    b[0] = REPORT_ID;
    b[2] = 0x0d;
    b[4] = cmd;
    b[5] = flag;
    b[7] = 0x23;
    b[8] = 0x2d;
    b[9] = 0xb3;
    let mut i: usize = 0;
    while i < dwords.len()
        invariant
            i <= dwords@.len() <= MAX_WORDS,
            b@ == frame(cmd, flag, dwords@.take(i as int)),
        decreases dwords@.len() - i,
    {
        let ghost before = b@;
        let d = to_le_bytes(dwords[i]);
        let o: usize = HEADER_LEN + 4 * i;
        b[o] = d[0];
        b[o + 1] = d[1];
        b[o + 2] = d[2];
        b[o + 3] = d[3];
        proof {
            let longer = dwords@.take(i + 1);
            let shorter = dwords@.take(i as int);
            let next = frame(cmd, flag, longer);
            assert forall|k: int| 0 <= k < FRAME_LEN implies b@[k] == next[k] by {
                if HEADER_LEN <= k < o {
                    assert((k - HEADER_LEN) / 4 < i);
                    assert(shorter[(k - HEADER_LEN) / 4] == longer[(k - HEADER_LEN) / 4]);
                    assert(before[k] == frame(cmd, flag, shorter)[k]);
                } else if o <= k < o + 4 {
                    assert((k - HEADER_LEN) / 4 == i);
                    assert((k - HEADER_LEN) % 4 == k - o);
                } else {
                    assert(before[k] == frame(cmd, flag, shorter)[k]);
                }
            }
            assert(b@ =~= next);
        }
        i = i + 1;
    }
    assert(dwords@.take(dwords@.len() as int) =~= dwords@);
    b
}

/// The 24-bit two's complement pattern of a gain, as the word that carries it.
pub open spec fn gain_word(g: int) -> int {
    if g < 0 {
        0x100_0000 + g
    } else {
        g
    }
}

/// The word that carries a gain of `g` whole decibels.
pub fn encode_gain24(g: i32) -> (w: i32)
    ensures
        w == gain_word(g as int),
{
    if g < 0 {
        0x100_0000 + g
    } else {
        g
    }
}

/// The 24-bit number whose bytes, least significant first, start at `at` in `s`.
pub open spec fn le_i24(s: Seq<u8>, at: int) -> int {
    let u = s[at] + 256 * s[at + 1] + 65536 * s[at + 2];
    if u < 0x80_0000 {
        u
    } else {
        u - 0x100_0000
    }
}

/// The gain, in whole decibels, whose 24 bits start at `at` in `d`.
pub fn decode_gain24(d: &[u8], at: usize) -> (g: i32)
    requires
        at + 3 <= d@.len(),
    ensures
        g == le_i24(d@, at as int),
        -0x80_0000 <= g < 0x80_0000,
{
    let u: i32 = d[at] as i32 + 256 * d[at + 1] as i32 + 65536 * d[at + 2] as i32;
    if u < 0x80_0000 {
        u
    } else {
        u - 0x100_0000
    }
}

/// Every frame is `FRAME_LEN` bytes with the report ID first, the command at 4 and the flag at 5.
pub proof fn law_frame_opening(cmd: u8, flag: u8, words: Seq<i32>)
    requires
        words.len() <= MAX_WORDS,
    ensures
        frame(cmd, flag, words).len() == FRAME_LEN,
        frame(cmd, flag, words)[0] == REPORT_ID,
        frame(cmd, flag, words)[4] == cmd,
        frame(cmd, flag, words)[5] == flag,
{
}

/// Word `k` of a frame reads back, at its offset, as what was put in.
pub proof fn law_frame_word_reads_back(cmd: u8, flag: u8, words: Seq<i32>, k: int)
    requires
        words.len() <= MAX_WORDS,
        0 <= k < words.len(),
    ensures
        le_i32(frame(cmd, flag, words), HEADER_LEN + 4 * k) == words[k],
{
    let f = frame(cmd, flag, words);
    let at = HEADER_LEN + 4 * k;
    assert forall|j: int| 0 <= j < 4 implies f[at + j] == le_bytes(words[k])[j] by {
        assert((at + j - HEADER_LEN) / 4 == k);
        assert((at + j - HEADER_LEN) % 4 == j);
    }
    assert(f.subrange(at, at + 4) =~= le_bytes(words[k]));
    law_le_bytes_read_back(words[k], f, at);
}

/// Two frames of equally many words are the same only where command, flag and words are.
pub proof fn law_frame_is_injective(
    cmd1: u8,
    flag1: u8,
    words1: Seq<i32>,
    cmd2: u8,
    flag2: u8,
    words2: Seq<i32>,
)
    requires
        words1.len() <= MAX_WORDS,
        words1.len() == words2.len(),
        frame(cmd1, flag1, words1) == frame(cmd2, flag2, words2),
    ensures
        cmd1 == cmd2,
        flag1 == flag2,
        words1 == words2,
{
    law_frame_opening(cmd1, flag1, words1);
    law_frame_opening(cmd2, flag2, words2);
    assert forall|k: int| 0 <= k < words1.len() implies words1[k] == words2[k] by {
        law_frame_word_reads_back(cmd1, flag1, words1, k);
        law_frame_word_reads_back(cmd2, flag2, words2, k);
    }
    assert(words1 =~= words2);
}

/// A gain that was encoded into a word reads back, from the word's low 24 bits, as the same gain
/// modulo 2^24, and so exactly where it fits into 24 bits.
pub proof fn law_gain_reads_back(g: i32)
    ensures
        (le_i24(le_bytes(gain_word(g as int) as i32), 0) - g) % 0x100_0000 == 0,
        -0x80_0000 <= g < 0x80_0000 ==> le_i24(le_bytes(gain_word(g as int) as i32), 0) == g,
{
    let w = gain_word(g as int) as i32;
    let u = pattern(w);
    assert(u % 256 + 256 * (u / 256 % 256) + 65536 * (u / 65536 % 256) == u % 0x100_0000);
    assert(0 <= u % 0x100_0000 < 0x100_0000);
    assert((u - g) % 0x100_0000 == 0);
}

} // verus!
