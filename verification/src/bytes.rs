//! Little-endian integers, as the cable stores them.
use vstd::prelude::*;

verus! {

/// The two's complement pattern of `v`, read as an unsigned 32-bit number.
pub open spec fn pattern(v: i32) -> int {
    if v < 0 {
        v + 0x1_0000_0000
    } else {
        v as int
    }
}

/// The four bytes of `v`, least significant first.
pub open spec fn le_bytes(v: i32) -> Seq<u8> {
    seq![
        (pattern(v) % 256) as u8,
        (pattern(v) / 256 % 256) as u8,
        (pattern(v) / 65536 % 256) as u8,
        (pattern(v) / 16777216) as u8,
    ]
}

/// The unsigned number whose four bytes, least significant first, start at `at` in `s`.
pub open spec fn le_pattern(s: Seq<u8>, at: int) -> int {
    s[at] + 256 * s[at + 1] + 65536 * s[at + 2] + 16777216 * s[at + 3]
}

/// The signed 32-bit number whose bytes start at `at` in `s`.
pub open spec fn le_i32(s: Seq<u8>, at: int) -> int {
    if le_pattern(s, at) < 0x8000_0000 {
        le_pattern(s, at)
    } else {
        le_pattern(s, at) - 0x1_0000_0000
    }
}

/// The four bytes of `v`, least significant first.
pub fn to_le_bytes(v: i32) -> (b: [u8; 4])
    ensures
        b@ == le_bytes(v),
{
    let wide: i64 = if v < 0 {
        v as i64 + 0x1_0000_0000
    } else {
        v as i64
    };
    let u: u32 = wide as u32;
    [(u % 256) as u8, (u / 256 % 256) as u8, (u / 65536 % 256) as u8, (u / 16777216) as u8]
}

/// The signed number whose bytes, least significant first, start at `at` in `d`.
pub fn read_le_i32(d: &[u8], at: usize) -> (v: i32)
    requires
        at + 4 <= d@.len(),
    ensures
        v == le_i32(d@, at as int),
{
    let u: i64 = d[at] as i64 + 256 * d[at + 1] as i64 + 65536 * d[at + 2] as i64 + 16777216
        * d[at + 3] as i64;
    if u < 0x8000_0000 {
        u as i32
    } else {
        (u - 0x1_0000_0000) as i32
    }
}

/// Whether two byte strings are the same.
pub fn same_bytes(a: &[u8], b: &[u8]) -> (same: bool)
    ensures
        same == (a@ == b@),
{
    if a.len() != b.len() {
        return false;
    }
    let mut i: usize = 0;
    while i < a.len()
        invariant
            i <= a@.len(),
            a@.len() == b@.len(),
            forall|j: int| 0 <= j < i ==> a@[j] == b@[j],
        decreases a@.len() - i,
    {
        if a[i] != b[i] {
            assert(a@[i as int] != b@[i as int]);
            return false;
        }
        i = i + 1;
    }
    assert(a@ =~= b@);
    true
}

/// Reading four bytes that hold the encoding of `v` gives `v` back.
pub proof fn law_le_bytes_read_back(v: i32, s: Seq<u8>, at: int)
    requires
        0 <= at,
        at + 4 <= s.len(),
        s.subrange(at, at + 4) == le_bytes(v),
    ensures
        le_i32(s, at) == v,
{
    let b = s.subrange(at, at + 4);
    assert(s[at] == b[0] && s[at + 1] == b[1] && s[at + 2] == b[2] && s[at + 3] == b[3]);
    let u = pattern(v);
    assert(u % 256 + 256 * (u / 256 % 256) + 65536 * (u / 65536 % 256) + 16777216 * (u / 16777216)
        == u);
}

/// The base-256 digits of a number of four digits.
proof fn lemma_digits(a: int, b: int, c: int, d: int)
    requires
        0 <= a < 256,
        0 <= b < 256,
        0 <= c < 256,
        0 <= d < 256,
    ensures
        ({
            let u = a + 256 * b + 65536 * c + 16777216 * d;
            &&& 0 <= u < 0x1_0000_0000
            &&& u % 256 == a
            &&& u / 256 % 256 == b
            &&& u / 65536 % 256 == c
            &&& u / 16777216 == d
        }),
{
    let u = a + 256 * b + 65536 * c + 16777216 * d;
    assert(u / 256 == b + 256 * c + 65536 * d);
    assert(u / 65536 == c + 256 * d);
}

/// Encoding what four bytes read as gives those bytes back: every four bytes encode a number.
pub proof fn law_le_i32_encodes_back(s: Seq<u8>, at: int)
    requires
        0 <= at,
        at + 4 <= s.len(),
    ensures
        i32::MIN <= le_i32(s, at) <= i32::MAX,
        le_bytes(le_i32(s, at) as i32) == s.subrange(at, at + 4),
{
    let u = le_pattern(s, at);
    lemma_digits(s[at] as int, s[at + 1] as int, s[at + 2] as int, s[at + 3] as int);
    assert(pattern(le_i32(s, at) as i32) == u);
    assert(le_bytes(le_i32(s, at) as i32) =~= s.subrange(at, at + 4));
}

} // verus!
