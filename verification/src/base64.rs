//! Base64 with the standard alphabet and padding: the encoding used for
//! the body in the returned result. Both directions are verified, and
//! decoding an encoded buffer is proved to give the original bytes back.

use vstd::prelude::*;

verus! {

/// The padding byte `=`.
pub const B64_PAD: u8 = 61;

/// The alphabet byte of a six-bit value: `A`..`Z`, `a`..`z`, `0`..`9`,
/// `+`, `/`.
pub open spec fn spec_b64_char(v: u8) -> u8 {
    if v < 26 {
        (65 + v) as u8
    } else if v < 52 {
        (97 + (v - 26)) as u8
    } else if v < 62 {
        (48 + (v - 52)) as u8
    } else if v == 62 {
        43
    } else {
        47
    }
}

/// The six-bit value of an alphabet byte; `None` outside the alphabet.
pub open spec fn spec_b64_val(c: u8) -> Option<u8> {
    if 65 <= c && c <= 90 {
        Some((c - 65) as u8)
    } else if 97 <= c && c <= 122 {
        Some((c - 97 + 26) as u8)
    } else if 48 <= c && c <= 57 {
        Some((c - 48 + 52) as u8)
    } else if c == 43 {
        Some(62u8)
    } else if c == 47 {
        Some(63u8)
    } else {
        None
    }
}

/// Decoding inverts the alphabet, and no data byte is the padding byte.
pub proof fn lemma_b64_char_val(v: u8)
    requires
        v < 64,
    ensures
        spec_b64_val(spec_b64_char(v)) == Some(v),
        spec_b64_char(v) != B64_PAD,
{
}

/// The encoding: three input bytes become four alphabet bytes; a final
/// group of one or two bytes is padded with `=` to a multiple of four.
pub open spec fn spec_b64_encode(s: Seq<u8>) -> Seq<u8>
    decreases s.len(),
{
    if s.len() == 0 {
        Seq::empty()
    } else if s.len() == 1 {
        seq![
            spec_b64_char(s[0] >> 2),
            spec_b64_char((s[0] & 3) << 4),
            B64_PAD,
            B64_PAD,
        ]
    } else if s.len() == 2 {
        seq![
            spec_b64_char(s[0] >> 2),
            spec_b64_char(((s[0] & 3) << 4) | (s[1] >> 4)),
            spec_b64_char((s[1] & 15) << 2),
            B64_PAD,
        ]
    } else {
        seq![
            spec_b64_char(s[0] >> 2),
            spec_b64_char(((s[0] & 3) << 4) | (s[1] >> 4)),
            spec_b64_char(((s[1] & 15) << 2) | (s[2] >> 6)),
            spec_b64_char(s[2] & 63),
        ] + spec_b64_encode(s.skip(3))
    }
}

/// The decoding: four alphabet bytes back to three, padding closing the
/// buffer; `None` on anything that is not a padded base64 encoding.
pub open spec fn spec_b64_decode(s: Seq<u8>) -> Option<Seq<u8>>
    decreases s.len(),
{
    if s.len() == 0 {
        Some(Seq::empty())
    } else if s.len() < 4 {
        None
    } else {
        match (spec_b64_val(s[0]), spec_b64_val(s[1])) {
            (Some(v0), Some(v1)) => {
                if s[2] == B64_PAD {
                    if s[3] == B64_PAD && s.len() == 4 {
                        Some(seq![(v0 << 2) | (v1 >> 4)])
                    } else {
                        None
                    }
                } else {
                    match spec_b64_val(s[2]) {
                        Some(v2) => {
                            if s[3] == B64_PAD {
                                if s.len() == 4 {
                                    Some(seq![(v0 << 2) | (v1 >> 4), ((v1 & 15) << 4) | (v2 >> 2)])
                                } else {
                                    None
                                }
                            } else {
                                match spec_b64_val(s[3]) {
                                    Some(v3) => match spec_b64_decode(s.skip(4)) {
                                        Some(rest) => Some(
                                            seq![
                                                (v0 << 2) | (v1 >> 4),
                                                ((v1 & 15) << 4) | (v2 >> 2),
                                                ((v2 & 3) << 6) | v3,
                                            ] + rest,
                                        ),
                                        None => None,
                                    },
                                    None => None,
                                }
                            }
                        },
                        None => None,
                    }
                }
            },
            _ => None,
        }
    }
}

/// Round-trip law: decoding an encoded buffer gives the original bytes
/// back, whatever they were.
pub proof fn lemma_b64_round_trip(s: Seq<u8>)
    ensures
        spec_b64_decode(spec_b64_encode(s)) == Some(s),
    decreases s.len(),
{
    let e = spec_b64_encode(s);
    if s.len() == 0 {
    } else if s.len() == 1 {
        let b0 = s[0];
        assert((b0 >> 2) < 64 && ((b0 & 3) << 4) < 64) by (bit_vector);
        lemma_b64_char_val(b0 >> 2);
        lemma_b64_char_val((b0 & 3) << 4);
        assert((((b0 >> 2) << 2) | (((b0 & 3) << 4) >> 4)) == b0) by (bit_vector);
        assert(seq![b0] =~= s);
    } else if s.len() == 2 {
        let b0 = s[0];
        let b1 = s[1];
        assert((b0 >> 2) < 64 && (((b0 & 3) << 4) | (b1 >> 4)) < 64 && ((b1 & 15) << 2) < 64)
            by (bit_vector);
        lemma_b64_char_val(b0 >> 2);
        lemma_b64_char_val(((b0 & 3) << 4) | (b1 >> 4));
        lemma_b64_char_val((b1 & 15) << 2);
        assert((((b0 >> 2) << 2) | ((((b0 & 3) << 4) | (b1 >> 4)) >> 4)) == b0) by (bit_vector);
        assert(((((((b0 & 3) << 4) | (b1 >> 4)) & 15) << 4) | (((b1 & 15) << 2) >> 2)) == b1)
            by (bit_vector);
        assert(seq![b0, b1] =~= s);
    } else {
        let b0 = s[0];
        let b1 = s[1];
        let b2 = s[2];
        let g = seq![
            spec_b64_char(b0 >> 2),
            spec_b64_char(((b0 & 3) << 4) | (b1 >> 4)),
            spec_b64_char(((b1 & 15) << 2) | (b2 >> 6)),
            spec_b64_char(b2 & 63),
        ];
        let tail = spec_b64_encode(s.skip(3));
        assert(e == g + tail);
        assert((b0 >> 2) < 64 && (((b0 & 3) << 4) | (b1 >> 4)) < 64 && (((b1 & 15) << 2) | (b2
            >> 6)) < 64 && (b2 & 63) < 64) by (bit_vector);
        lemma_b64_char_val(b0 >> 2);
        lemma_b64_char_val(((b0 & 3) << 4) | (b1 >> 4));
        lemma_b64_char_val(((b1 & 15) << 2) | (b2 >> 6));
        lemma_b64_char_val(b2 & 63);
        assert(e[0] == g[0] && e[1] == g[1] && e[2] == g[2] && e[3] == g[3]);
        assert(e.skip(4) =~= tail);
        lemma_b64_round_trip(s.skip(3));
        assert((((b0 >> 2) << 2) | ((((b0 & 3) << 4) | (b1 >> 4)) >> 4)) == b0) by (bit_vector);
        assert(((((((b0 & 3) << 4) | (b1 >> 4)) & 15) << 4) | ((((b1 & 15) << 2) | (b2 >> 6))
            >> 2)) == b1) by (bit_vector);
        assert((((((((b1 & 15) << 2) | (b2 >> 6))) & 3) << 6) | (b2 & 63)) == b2) by (bit_vector);
        assert(seq![b0, b1, b2] + s.skip(3) =~= s);
    }
}

fn b64_char(v: u8) -> (r: u8)
    requires
        v < 64,
    ensures
        r == spec_b64_char(v),
{
    if v < 26 {
        65 + v
    } else if v < 52 {
        97 + (v - 26)
    } else if v < 62 {
        48 + (v - 52)
    } else if v == 62 {
        43
    } else {
        47
    }
}

fn b64_val(c: u8) -> (r: Option<u8>)
    ensures
        r == spec_b64_val(c),
{
    if 65 <= c && c <= 90 {
        Some(c - 65)
    } else if 97 <= c && c <= 122 {
        Some(c - 97 + 26)
    } else if 48 <= c && c <= 57 {
        Some(c - 48 + 52)
    } else if c == 43 {
        Some(62)
    } else if c == 47 {
        Some(63)
    } else {
        None
    }
}

/// Encode a buffer with the standard alphabet, padded.
#[verifier::loop_isolation(false)]
#[verifier::rlimit(60)]
pub fn b64_encode(s: &Vec<u8>) -> (r: Vec<u8>)
    ensures
        r@ == spec_b64_encode(s@),
{
    let n: usize = s.len();
    let mut out: Vec<u8> = Vec::new();
    let mut i: usize = 0;
    proof {
        assert(s@.skip(0) =~= s@);
    }
    while n - i >= 3
        invariant
            i <= n,
            spec_b64_encode(s@) == out@ + spec_b64_encode(s@.skip(i as int)),
        decreases n - i,
    {
        let ghost old_out = out@;
        let b0 = s[i];
        let b1 = s[i + 1];
        let b2 = s[i + 2];
        proof {
            assert(s@.skip(i as int)[0] == b0);
            assert(s@.skip(i as int)[1] == b1);
            assert(s@.skip(i as int)[2] == b2);
            assert(s@.skip(i as int).skip(3) =~= s@.skip(i + 3));
            assert((b0 >> 2) < 64 && (((b0 & 3) << 4) | (b1 >> 4)) < 64 && (((b1 & 15) << 2) | (
            b2 >> 6)) < 64 && (b2 & 63) < 64) by (bit_vector);
        }
        out.push(b64_char(b0 >> 2));
        out.push(b64_char(((b0 & 3) << 4) | (b1 >> 4)));
        out.push(b64_char(((b1 & 15) << 2) | (b2 >> 6)));
        out.push(b64_char(b2 & 63));
        proof {
            let g = seq![
                spec_b64_char(b0 >> 2),
                spec_b64_char(((b0 & 3) << 4) | (b1 >> 4)),
                spec_b64_char(((b1 & 15) << 2) | (b2 >> 6)),
                spec_b64_char(b2 & 63),
            ];
            assert(out@ =~= old_out + g);
            assert(spec_b64_encode(s@.skip(i as int)) == g + spec_b64_encode(s@.skip(i + 3)));
            assert(old_out + (g + spec_b64_encode(s@.skip(i + 3))) =~= (old_out + g)
                + spec_b64_encode(s@.skip(i + 3)));
        }
        i = i + 3;
    }
    if n - i == 1 {
        let ghost old_out = out@;
        let b0 = s[i];
        proof {
            assert(s@.skip(i as int)[0] == b0);
            assert(s@.skip(i as int).len() == 1);
            assert((b0 >> 2) < 64 && ((b0 & 3) << 4) < 64) by (bit_vector);
        }
        out.push(b64_char(b0 >> 2));
        out.push(b64_char((b0 & 3) << 4));
        out.push(B64_PAD);
        out.push(B64_PAD);
        proof {
            let g = seq![spec_b64_char(b0 >> 2), spec_b64_char((b0 & 3) << 4), B64_PAD, B64_PAD];
            assert(out@ =~= old_out + g);
            assert(spec_b64_encode(s@.skip(i as int)) == g);
        }
    } else if n - i == 2 {
        let ghost old_out = out@;
        let b0 = s[i];
        let b1 = s[i + 1];
        proof {
            assert(s@.skip(i as int)[0] == b0);
            assert(s@.skip(i as int)[1] == b1);
            assert(s@.skip(i as int).len() == 2);
            assert((b0 >> 2) < 64 && (((b0 & 3) << 4) | (b1 >> 4)) < 64 && ((b1 & 15) << 2) < 64)
                by (bit_vector);
        }
        out.push(b64_char(b0 >> 2));
        out.push(b64_char(((b0 & 3) << 4) | (b1 >> 4)));
        out.push(b64_char((b1 & 15) << 2));
        out.push(B64_PAD);
        proof {
            let g = seq![
                spec_b64_char(b0 >> 2),
                spec_b64_char(((b0 & 3) << 4) | (b1 >> 4)),
                spec_b64_char((b1 & 15) << 2),
                B64_PAD,
            ];
            assert(out@ =~= old_out + g);
            assert(spec_b64_encode(s@.skip(i as int)) == g);
        }
    } else {
        proof {
            assert(s@.skip(i as int).len() == 0);
            assert(spec_b64_encode(s@.skip(i as int)) =~= Seq::<u8>::empty());
        }
    }
    proof {
        assert(out@ =~= out@ + Seq::<u8>::empty());
    }
    out
}

/// Prefix an already-decoded run onto a decoding outcome.
pub open spec fn prepend_opt(p: Seq<u8>, r: Option<Seq<u8>>) -> Option<Seq<u8>> {
    match r {
        Some(t) => Some(p + t),
        None => None,
    }
}

/// Decode a padded base64 buffer; `None` on anything else.
#[verifier::loop_isolation(false)]
#[verifier::rlimit(100)]
pub fn b64_decode(s: &Vec<u8>) -> (r: Option<Vec<u8>>)
    ensures
        r is None ==> spec_b64_decode(s@) is None,
        r matches Some(v) ==> spec_b64_decode(s@) == Some(v@),
{
    let n: usize = s.len();
    let mut out: Vec<u8> = Vec::new();
    let mut i: usize = 0;
    proof {
        assert(s@.skip(0) =~= s@);
        if spec_b64_decode(s@) is Some {
            let t = spec_b64_decode(s@)->Some_0;
            assert(Seq::<u8>::empty() + t =~= t);
        }
    }
    while n - i >= 4
        invariant
            i <= n,
            spec_b64_decode(s@) == prepend_opt(out@, spec_b64_decode(s@.skip(i as int))),
        decreases n - i,
    {
        let ghost old_out = out@;
        let ghost rem = s@.skip(i as int);
        let c0 = s[i];
        let c1 = s[i + 1];
        let c2 = s[i + 2];
        let c3 = s[i + 3];
        proof {
            assert(rem[0] == c0);
            assert(rem[1] == c1);
            assert(rem[2] == c2);
            assert(rem[3] == c3);
        }
        let v0 = match b64_val(c0) {
            Some(v) => v,
            None => {
                return None;
            },
        };
        let v1 = match b64_val(c1) {
            Some(v) => v,
            None => {
                return None;
            },
        };
        if c2 == B64_PAD {
            if c3 == B64_PAD && n - i == 4 {
                out.push((v0 << 2) | (v1 >> 4));
                proof {
                    assert(spec_b64_decode(rem) == Some(seq![(v0 << 2) | (v1 >> 4)]));
                    assert(old_out + seq![(v0 << 2) | (v1 >> 4)] =~= out@);
                }
                return Some(out);
            } else {
                return None;
            }
        }
        let v2 = match b64_val(c2) {
            Some(v) => v,
            None => {
                return None;
            },
        };
        if c3 == B64_PAD {
            if n - i == 4 {
                out.push((v0 << 2) | (v1 >> 4));
                out.push(((v1 & 15) << 4) | (v2 >> 2));
                proof {
                    assert(spec_b64_decode(rem) == Some(
                        seq![(v0 << 2) | (v1 >> 4), ((v1 & 15) << 4) | (v2 >> 2)],
                    ));
                    assert(old_out + seq![(v0 << 2) | (v1 >> 4), ((v1 & 15) << 4) | (v2 >> 2)]
                        =~= out@);
                }
                return Some(out);
            } else {
                return None;
            }
        }
        let v3 = match b64_val(c3) {
            Some(v) => v,
            None => {
                return None;
            },
        };
        out.push((v0 << 2) | (v1 >> 4));
        out.push(((v1 & 15) << 4) | (v2 >> 2));
        out.push(((v2 & 3) << 6) | v3);
        proof {
            let g = seq![(v0 << 2) | (v1 >> 4), ((v1 & 15) << 4) | (v2 >> 2), ((v2 & 3) << 6) | v3];
            assert(rem.skip(4) =~= s@.skip(i + 4));
            assert(spec_b64_decode(rem) == prepend_opt(g, spec_b64_decode(s@.skip(i + 4))));
            assert(out@ =~= old_out + g);
            if spec_b64_decode(s@.skip(i + 4)) is Some {
                let t = spec_b64_decode(s@.skip(i + 4))->Some_0;
                assert(old_out + (g + t) =~= (old_out + g) + t);
            }
        }
        i = i + 4;
    }
    if n - i == 0 {
        proof {
            assert(s@.skip(i as int).len() == 0);
            assert(out@ + Seq::<u8>::empty() =~= out@);
        }
        Some(out)
    } else {
        proof {
            assert(0 < s@.skip(i as int).len() < 4);
        }
        None
    }
}

} // verus!
