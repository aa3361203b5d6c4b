use freedsp::band::{
    ftype, parse_band, preamp_band, sample_rate, type_code, BandIn, CoefSet, BANDS, RATES,
};
use freedsp::frame::build_frame;
use freedsp::sequence::write_steps;
use freedsp::transport::Step;

fn coefs(base: i32) -> CoefSet {
    CoefSet {
        b0: base,
        b1: base + 1,
        b2: base + 2,
        a1: base + 3,
        a2: base + 4,
        kb0: base + 50,
        kb1: base + 51,
        kb2: base + 52,
    }
}

fn band(i: i32, active: bool) -> BandIn {
    BandIn {
        freq: 100 * (i + 1),
        gain: -i,
        q: 181 + i,
        typ: ["PK", "LSQ", "HSQ"][(i % 3) as usize].to_string(),
        active,
        coefs: std::array::from_fn(|j| coefs(1000 * i + 100 * j as i32)),
    }
}

fn bank(active: &[i32]) -> Vec<BandIn> {
    (0..9).map(|i| band(i, active.contains(&i))).collect()
}

fn frames(steps: &[Step]) -> Vec<Vec<u8>> {
    let mut out = Vec::new();
    for s in steps {
        if let Step::Send(f) = s {
            out.push(f.to_vec());
        }
    }
    out
}

#[test]
fn filter_types() {
    assert_eq!(ftype(0), "PK");
    assert_eq!(ftype(1), "LSQ");
    assert_eq!(ftype(2), "HSQ");
    assert_eq!(ftype(3), "?");
    assert_eq!(ftype(-1), "?");
    assert_eq!(type_code("PK"), 0);
    assert_eq!(type_code("LSQ"), 1);
    assert_eq!(type_code("HSQ"), 2);
    assert_eq!(type_code("?"), 0);
    assert_eq!(type_code(""), 0);
    assert_eq!(type_code("lsq"), 0);
}

#[test]
fn filter_types_correspond() {
    for code in 0..3 {
        assert_eq!(type_code(ftype(code)), code);
    }
    assert_eq!(ftype(type_code("notch")), "PK");
}

#[test]
fn sample_rates() {
    let all: Vec<(i32, u32)> = (0..RATES).map(sample_rate).collect();
    assert_eq!(all, [(4, 44100), (5, 48000), (6, 96000), (7, 192000), (8, 384000)]);
}

#[test]
fn a_reply_that_failed_or_is_short() {
    for (ok, d) in [(false, vec![0xddu8; 62]), (true, vec![0xdd; 33]), (true, vec![])] {
        let b = parse_band(4, ok, &d);
        assert!(!b.ok);
        assert_eq!((b.band, b.freq, b.gain, b.q, b.typ.as_str()), (4, 0, 0, 0, "PK"));
    }
}

#[test]
fn a_reply_that_holds_a_band() {
    let mut d = build_frame(0xdd, 0x81, &[0, 3, 1000, 256, 2, 0xff_fff4]).to_vec();
    d.truncate(34);
    let b = parse_band(3, true, &d);
    assert!(b.ok);
    assert_eq!((b.band, b.freq, b.gain, b.q, b.typ.as_str()), (3, 1000, -12, 256, "HSQ"));
    d[5] = 0x01;
    assert!(!parse_band(3, true, &d).ok);
    d[5] = 0x80;
    assert!(parse_band(3, true, &d).ok);
    d[4] = 0xdc;
    assert!(!parse_band(3, true, &d).ok);
    d[26] = 9;
    assert_eq!(parse_band(3, true, &d).typ, "?");
}

#[test]
fn what_is_written_reads_back() {
    let bands = bank(&[]);
    let sent = frames(&write_steps(&bands, true));
    for i in 0..BANDS {
        let b = parse_band(i as u8 + 1, true, &sent[1 + i]);
        assert_eq!(b.freq, bands[i].freq);
        assert_eq!(b.gain, bands[i].gain);
        assert_eq!(b.q, bands[i].q);
        assert_eq!(b.typ, bands[i].typ);
    }
}

#[test]
fn the_preamp_goes_to_the_last_active_band() {
    assert_eq!(preamp_band(&bank(&[0, 3, 5]), false), Some(5));
    assert_eq!(preamp_band(&bank(&[0]), false), Some(0));
    assert_eq!(preamp_band(&bank(&[8]), false), Some(8));
    assert_eq!(preamp_band(&bank(&[]), false), Some(8));
    assert_eq!(preamp_band(&bank(&[0, 3, 5]), true), None);
    let mut longer = bank(&[2]);
    longer.push(band(9, true));
    assert_eq!(preamp_band(&longer, false), Some(2));
    assert_eq!(preamp_band(&bank(&[1, 7])[..4], false), Some(1));
}

#[test]
fn a_write_without_preamp() {
    let bands = bank(&[0, 3, 5]);
    let steps = write_steps(&bands, true);
    assert_eq!(steps.len(), 171);
    let sent = frames(&steps);
    assert_eq!(sent.len(), 57);
    assert_eq!(sent[0], build_frame(0x5a, 0, &[0x5a, 0]));
    assert_eq!(sent[1], build_frame(0xdc, 0, &[0, 1, 100, 181, 0, 0]));
    assert_eq!(sent[2], build_frame(0xdc, 0, &[0, 2, 200, 182, 1, 0xff_ffff]));
    assert_eq!(sent[9], build_frame(0xdc, 0, &[0, 9, 900, 189, 2, 0xff_fff8]));
    assert_eq!(sent[10], build_frame(0xdc, 0, &[4, 1, 3, 0, 1, 2, 3, 4]));
    assert_eq!(sent[14], build_frame(0xdc, 0, &[8, 1, 3, 400, 401, 402, 403, 404]));
    assert_eq!(sent[54], build_frame(0xdc, 0, &[8, 9, 3, 8400, 8401, 8402, 8403, 8404]));
    assert_eq!(sent[55], build_frame(0xdc, 0, &[0xff]));
    assert_eq!(sent[56], build_frame(0x5a, 1, &[0x5a]));
}

#[test]
fn a_write_with_preamp_differs_in_one_band() {
    let bands = bank(&[0, 3, 5]);
    let plain = frames(&write_steps(&bands, true));
    let lifted = frames(&write_steps(&bands, false));
    for k in 0..57 {
        if (35..40).contains(&k) {
            let base = 5000 + 100 * (k as i32 - 35);
            assert_eq!(
                lifted[k],
                build_frame(
                    0xdc,
                    0,
                    &[
                        4 + (k as i32 - 35),
                        6,
                        3,
                        base + 50,
                        base + 51,
                        base + 52,
                        base + 3,
                        base + 4
                    ]
                )
            );
        } else {
            assert_eq!(plain[k], lifted[k]);
        }
    }
}

#[test]
fn a_write_waits_between_frames() {
    let steps = write_steps(&bank(&[]), true);
    let waits: Vec<u64> = steps
        .iter()
        .filter_map(|s| match s {
            Step::Pause(ms) => Some(*ms),
            _ => None,
        })
        .collect();
    let mut want = vec![6u64; 55];
    want.extend([10, 10]);
    assert_eq!(waits, want);
}
