use vstd::prelude::*;
use vstd::string::*;
use crate::textutil::push_char;

verus! {

/// The character of the standard base-64 alphabet for a 6-bit value.
pub open spec fn b64_char(v: u8) -> char
    recommends
        v < 64,
{
    if v < 26 {
        ((65 + v) as u8) as char
    } else if v < 52 {
        ((97 + (v - 26)) as u8) as char
    } else if v < 62 {
        ((48 + (v - 52)) as u8) as char
    } else if v == 62 {
        '+'
    } else {
        '/'
    }
}

/// Whether a character belongs to the standard base-64 alphabet.
pub open spec fn is_b64_char(c: char) -> bool {
    (65 <= c as u32 && c as u32 <= 90)
    || (97 <= c as u32 && c as u32 <= 122)
    || (48 <= c as u32 && c as u32 <= 57)
    || c == '+'
    || c == '/'
}

/// The 6-bit value of a base-64 alphabet character.
pub open spec fn b64_val(c: char) -> u8
    recommends
        is_b64_char(c),
{
    if 65 <= c as u32 && c as u32 <= 90 {
        (c as u32 - 65) as u8
    } else if 97 <= c as u32 && c as u32 <= 122 {
        (c as u32 - 97 + 26) as u8
    } else if 48 <= c as u32 && c as u32 <= 57 {
        (c as u32 - 48 + 52) as u8
    } else if c == '+' {
        62
    } else {
        63
    }
}

/// The four output characters for one full 3-byte group.
pub open spec fn b64_group3(b0: u8, b1: u8, b2: u8) -> Seq<char> {
    seq![
        b64_char((b0 / 4) as u8),
        b64_char(((b0 % 4) * 16 + b1 / 16) as u8),
        b64_char(((b1 % 16) * 4 + b2 / 64) as u8),
        b64_char((b2 % 64) as u8),
    ]
}

/// Standard base-64 encoding with `=` padding, 3 input bytes per 4 output
/// characters.
pub open spec fn spec_b64_encode(data: Seq<u8>) -> Seq<char>
    decreases data.len(),
{
    if data.len() == 0 {
        Seq::<char>::empty()
    } else if data.len() == 1 {
        seq![
            b64_char((data[0] / 4) as u8),
            b64_char(((data[0] % 4) * 16) as u8),
            '=',
            '=',
        ]
    } else if data.len() == 2 {
        seq![
            b64_char((data[0] / 4) as u8),
            b64_char(((data[0] % 4) * 16 + data[1] / 16) as u8),
            b64_char(((data[1] % 16) * 4) as u8),
            '=',
        ]
    } else {
        b64_group3(data[0], data[1], data[2]) + spec_b64_encode(data.skip(3))
    }
}

/// Executable base-64 alphabet lookup.
fn b64_char_at(v: u8) -> (c: char)
    requires
        v < 64,
    ensures
        c == b64_char(v),
{
    if v < 26 {
        (65 + v) as char
    } else if v < 52 {
        (97 + (v - 26)) as char
    } else if v < 62 {
        (48 + (v - 52)) as char
    } else if v == 62 {
        '+'
    } else {
        '/'
    }
}

/// Encodes bytes with the standard base-64 alphabet and `=` padding,
/// processing the input in 3-byte groups.
pub fn base64_encode(data: &[u8]) -> (r: String)
    ensures
        r@ == spec_b64_encode(data@),
{
    let mut out = String::new();
    let mut i: usize = 0;
    proof {
        assert(data@.skip(0) =~= data@);
    }
    while data.len() - i >= 3
        invariant
            i <= data.len(),
            i % 3 == 0,
            out@ + spec_b64_encode(data@.skip(i as int)) == spec_b64_encode(data@),
        decreases data.len() - i,
    {
        let b0 = data[i];
        let b1 = data[i + 1];
        let b2 = data[i + 2];
        proof {
            assert(data@.skip(i as int).len() >= 3);
            assert(data@.skip(i as int)[0] == b0);
            assert(data@.skip(i as int)[1] == b1);
            assert(data@.skip(i as int)[2] == b2);
            assert(data@.skip(i as int).skip(3) =~= data@.skip(i as int + 3));
        }
        push_char(&mut out, b64_char_at(b0 / 4));
        push_char(&mut out, b64_char_at((b0 % 4) * 16 + b1 / 16));
        push_char(&mut out, b64_char_at((b1 % 16) * 4 + b2 / 64));
        push_char(&mut out, b64_char_at(b2 % 64));
        i = i + 3;
    }
    if data.len() - i == 1 {
        let b0 = data[i];
        proof {
            assert(data@.skip(i as int).len() == 1);
            assert(data@.skip(i as int)[0] == b0);
        }
        push_char(&mut out, b64_char_at(b0 / 4));
        push_char(&mut out, b64_char_at((b0 % 4) * 16));
        push_char(&mut out, '=');
        push_char(&mut out, '=');
    } else if data.len() - i == 2 {
        let b0 = data[i];
        let b1 = data[i + 1];
        proof {
            assert(data@.skip(i as int).len() == 2);
            assert(data@.skip(i as int)[0] == b0);
            assert(data@.skip(i as int)[1] == b1);
        }
        push_char(&mut out, b64_char_at(b0 / 4));
        push_char(&mut out, b64_char_at((b0 % 4) * 16 + b1 / 16));
        push_char(&mut out, b64_char_at((b1 % 16) * 4));
        push_char(&mut out, '=');
    } else {
        proof {
            assert(data@.skip(i as int).len() == 0);
        }
    }
    proof {
        assert(out@ =~= spec_b64_encode(data@));
    }
    out
}

/// Standard base-64 decoding: `None` on any text the encoder cannot have
/// produced, except that unused low bits of a final partial group are not
/// checked.
pub open spec fn spec_b64_decode(s: Seq<char>) -> Option<Seq<u8>>
    decreases s.len(),
{
    if s.len() == 0 {
        Some(Seq::<u8>::empty())
    } else if s.len() % 4 != 0 {
        None::<Seq<u8>>
    } else {
        let c0 = s[0];
        let c1 = s[1];
        let c2 = s[2];
        let c3 = s[3];
        if !is_b64_char(c0) || !is_b64_char(c1) {
            None::<Seq<u8>>
        } else {
            let v0 = b64_val(c0);
            let v1 = b64_val(c1);
            if c2 == '=' {
                if c3 == '=' && s.len() == 4 {
                    Some(seq![(v0 * 4 + v1 / 16) as u8])
                } else {
                    None::<Seq<u8>>
                }
            } else if !is_b64_char(c2) {
                None::<Seq<u8>>
            } else {
                let v2 = b64_val(c2);
                if c3 == '=' {
                    if s.len() == 4 {
                        Some(seq![(v0 * 4 + v1 / 16) as u8, ((v1 % 16) * 16 + v2 / 4) as u8])
                    } else {
                        None::<Seq<u8>>
                    }
                } else if !is_b64_char(c3) {
                    None::<Seq<u8>>
                } else {
                    let v3 = b64_val(c3);
                    match spec_b64_decode(s.skip(4)) {
                        Some(rest) => Some(
                            seq![
                                (v0 * 4 + v1 / 16) as u8,
                                ((v1 % 16) * 16 + v2 / 4) as u8,
                                ((v2 % 4) * 64 + v3) as u8,
                            ] + rest,
                        ),
                        None => None::<Seq<u8>>,
                    }
                }
            }
        }
    }
}

/// Executable base-64 alphabet membership and value.
fn b64_val_of(c: char) -> (r: Option<u8>)
    ensures
        r is Some <==> is_b64_char(c),
        r is Some ==> r->0 == b64_val(c),
{
    let u = c as u32;
    if 65 <= u && u <= 90 {
        Some((u - 65) as u8)
    } else if 97 <= u && u <= 122 {
        Some((u - 97 + 26) as u8)
    } else if 48 <= u && u <= 57 {
        Some((u - 48 + 52) as u8)
    } else if c == '+' {
        Some(62)
    } else if c == '/' {
        Some(63)
    } else {
        None
    }
}

/// Decodes a base-64 string back to its bytes; `None` where the text is not
/// a padded base-64 encoding.
pub fn base64_decode(s: &str) -> (r: Option<Vec<u8>>)
    ensures
        match r {
            Some(v) => spec_b64_decode(s@) == Some(v@),
            None => spec_b64_decode(s@) is None,
        },
{
    let n = s.unicode_len();
    if n % 4 != 0 {
        return None;
    }
    let mut out: Vec<u8> = Vec::new();
    let mut i: usize = 0;
    proof {
        assert(s@.skip(0) =~= s@);
    }
    while i < n
        invariant
            i <= n,
            i % 4 == 0,
            n % 4 == 0,
            n == s@.len(),
            (spec_b64_decode(s@.skip(i as int)) matches Some(rest) ==> spec_b64_decode(s@)
                == Some(out@ + rest)),
            (spec_b64_decode(s@.skip(i as int)) is None ==> spec_b64_decode(s@) is None),
        decreases n - i,
    {
        let ghost tail = s@.skip(i as int);
        let c0 = s.get_char(i);
        let c1 = s.get_char(i + 1);
        let c2 = s.get_char(i + 2);
        let c3 = s.get_char(i + 3);
        proof {
            assert(tail.len() == n - i);
            assert(tail.len() % 4 == 0 && tail.len() != 0);
            assert(tail[0] == c0 && tail[1] == c1 && tail[2] == c2 && tail[3] == c3);
            assert(tail.skip(4) =~= s@.skip(i as int + 4));
        }
        let v0 = match b64_val_of(c0) {
            Some(v) => v,
            None => {
                return None;
            },
        };
        let v1 = match b64_val_of(c1) {
            Some(v) => v,
            None => {
                return None;
            },
        };
        if c2 == '=' {
            if c3 == '=' && i + 4 == n {
                out.push(v0 * 4 + v1 / 16);
                proof {
                    assert(spec_b64_decode(tail) == Some(seq![(v0 * 4 + v1 / 16) as u8]));
                    assert(out@ =~= out@.subrange(0, out@.len() - 1) + seq![(v0 * 4 + v1 / 16) as u8]);
                }
                return Some(out);
            } else {
                return None;
            }
        }
        let v2 = match b64_val_of(c2) {
            Some(v) => v,
            None => {
                return None;
            },
        };
        if c3 == '=' {
            if i + 4 == n {
                out.push(v0 * 4 + v1 / 16);
                out.push((v1 % 16) * 16 + v2 / 4);
                proof {
                    assert(spec_b64_decode(tail) == Some(
                        seq![(v0 * 4 + v1 / 16) as u8, ((v1 % 16) * 16 + v2 / 4) as u8],
                    ));
                }
                return Some(out);
            } else {
                return None;
            }
        }
        let v3 = match b64_val_of(c3) {
            Some(v) => v,
            None => {
                return None;
            },
        };
        out.push(v0 * 4 + v1 / 16);
        out.push((v1 % 16) * 16 + v2 / 4);
        out.push((v2 % 4) * 64 + v3);
        i = i + 4;
    }
    proof {
        assert(s@.skip(n as int) =~= Seq::<char>::empty());
        assert(spec_b64_decode(s@.skip(n as int)) == Some(Seq::<u8>::empty()));
        assert(out@ + Seq::<u8>::empty() =~= out@);
    }
    Some(out)
}

/// A 6-bit value comes back unchanged from its alphabet character.
proof fn lemma_b64_char_val(v: u8)
    requires
        v < 64,
    ensures
        is_b64_char(b64_char(v)),
        b64_val(b64_char(v)) == v,
        b64_char(v) != '=',
{
}

/// The encoding of n bytes has 4 * ceil(n / 3) characters.
pub proof fn lemma_b64_encode_len(data: Seq<u8>)
    ensures
        spec_b64_encode(data).len() == 4 * ((data.len() + 2) / 3),
    decreases data.len(),
{
    if data.len() >= 3 {
        lemma_b64_encode_len(data.skip(3));
    }
}

/// Decoding a produced encoding yields back the exact original bytes.
pub proof fn lemma_base64_round_trip(data: Seq<u8>)
    ensures
        spec_b64_decode(spec_b64_encode(data)) == Some(data),
    decreases data.len(),
{
    let e = spec_b64_encode(data);
    if data.len() == 0 {
        assert(spec_b64_decode(e) == Some(Seq::<u8>::empty()));
        assert(data =~= Seq::<u8>::empty());
    } else if data.len() == 1 {
        let b0 = data[0];
        lemma_b64_char_val((b0 / 4) as u8);
        lemma_b64_char_val(((b0 % 4) * 16) as u8);
        assert(spec_b64_decode(e) == Some(seq![((b0 / 4) * 4 + ((b0 % 4) * 16) / 16) as u8]));
        assert((b0 / 4) * 4 + ((b0 % 4) * 16) / 16 == b0);
        assert(seq![(((b0 / 4) * 4 + ((b0 % 4) * 16) / 16)) as u8] =~= data);
    } else if data.len() == 2 {
        let b0 = data[0];
        let b1 = data[1];
        lemma_b64_char_val((b0 / 4) as u8);
        lemma_b64_char_val(((b0 % 4) * 16 + b1 / 16) as u8);
        lemma_b64_char_val(((b1 % 16) * 4) as u8);
        let v0 = (b0 / 4) as u8;
        let v1 = ((b0 % 4) * 16 + b1 / 16) as u8;
        let v2 = ((b1 % 16) * 4) as u8;
        assert(spec_b64_decode(e) == Some(
            seq![(v0 * 4 + v1 / 16) as u8, ((v1 % 16) * 16 + v2 / 4) as u8],
        ));
        assert(v0 * 4 + v1 / 16 == b0);
        assert((v1 % 16) * 16 + v2 / 4 == b1);
        assert(seq![(v0 * 4 + v1 / 16) as u8, ((v1 % 16) * 16 + v2 / 4) as u8] =~= data);
    } else {
        let b0 = data[0];
        let b1 = data[1];
        let b2 = data[2];
        lemma_b64_char_val((b0 / 4) as u8);
        lemma_b64_char_val(((b0 % 4) * 16 + b1 / 16) as u8);
        lemma_b64_char_val(((b1 % 16) * 4 + b2 / 64) as u8);
        lemma_b64_char_val((b2 % 64) as u8);
        lemma_base64_round_trip(data.skip(3));
        lemma_b64_encode_len(data.skip(3));
        let rest = spec_b64_encode(data.skip(3));
        assert(e == b64_group3(b0, b1, b2) + rest);
        assert(e.len() % 4 == 0 && e.len() != 0);
        let v0 = (b0 / 4) as u8;
        let v1 = ((b0 % 4) * 16 + b1 / 16) as u8;
        let v2 = ((b1 % 16) * 4 + b2 / 64) as u8;
        let v3 = (b2 % 64) as u8;
        assert(e[0] == b64_char(v0) && e[1] == b64_char(v1) && e[2] == b64_char(v2) && e[3]
            == b64_char(v3));
        assert(e.skip(4) =~= rest);
        assert(v0 * 4 + v1 / 16 == b0);
        assert((v1 % 16) * 16 + v2 / 4 == b1);
        assert((v2 % 4) * 64 + v3 == b2);
        assert(spec_b64_decode(e) == Some(seq![b0, b1, b2] + data.skip(3)));
        assert(seq![b0, b1, b2] + data.skip(3) =~= data);
    }
}

} // verus!

