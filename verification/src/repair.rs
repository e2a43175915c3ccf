//! Repair of the archive's malformed unicode escapes.
//!
//! The archive encodes a non-ASCII character by splitting its UTF-8 bytes
//! into consecutive six-byte escape tokens of the shape `\uXXXX`, where the
//! four hex digits carry a single byte value. A run of consecutive tokens is
//! collected into a byte buffer and decoded once as UTF-8, because one
//! character may span several tokens. A `\u` that follows an odd number of
//! literal backslashes is ordinary text (an escaped backslash followed by the
//! letter `u`) and is never treated as a token.

use vstd::prelude::*;
use vstd::string::StringExecFns;
use vstd::utf8::{decode_utf8, valid_utf8};
use crate::strutil::{push_char, string_from_utf8};

verus! {

/// Error reported when the repaired input is irrecoverably corrupt.
#[derive(Debug, Clone, Copy, PartialEq, Eq, Structural)]
pub enum RepairError {
    /// The bytes collected from a run of escape tokens are not a valid UTF-8
    /// encoding.
    MalformedEscapeSequence,
}

/// Whether a byte is an ASCII hex digit.
pub open spec fn is_hex_digit(b: u8) -> bool {
    (48 <= b <= 57) || (97 <= b <= 102) || (65 <= b <= 70)
}

/// The value of an ASCII hex digit.
pub open spec fn hex_val(b: u8) -> int
    recommends
        is_hex_digit(b),
{
    if 48 <= b <= 57 {
        b - 48
    } else if 97 <= b <= 102 {
        b - 87
    } else {
        b - 55
    }
}

/// The value carried by the four hex digits of the escape token at `a`.
pub open spec fn token_val(s: Seq<u8>, a: int) -> int {
    hex_val(s[a + 2]) * 4096 + hex_val(s[a + 3]) * 256 + hex_val(s[a + 4]) * 16 + hex_val(
        s[a + 5],
    )
}

/// Whether a well-formed escape token starts at position `a`: six bytes
/// `\uXXXX` whose hex digits carry a single byte value.
pub open spec fn token_at(s: Seq<u8>, a: int) -> bool {
    &&& 0 <= a
    &&& a + 6 <= s.len()
    &&& s[a] == 92u8
    &&& s[a + 1] == 117u8
    &&& is_hex_digit(s[a + 2])
    &&& is_hex_digit(s[a + 3])
    &&& is_hex_digit(s[a + 4])
    &&& is_hex_digit(s[a + 5])
    &&& token_val(s, a) <= 255
}

/// The byte carried by the escape token at `a`.
pub open spec fn token_byte(s: Seq<u8>, a: int) -> u8
    recommends
        token_at(s, a),
{
    token_val(s, a) as u8
}

/// The bytes carried by the run of consecutive escape tokens starting at `a`.
pub open spec fn run_bytes(s: Seq<u8>, a: int) -> Seq<u8>
    decreases s.len() - a,
{
    if token_at(s, a) {
        seq![token_byte(s, a)] + run_bytes(s, a + 6)
    } else {
        Seq::empty()
    }
}

/// The length in input bytes of the run of consecutive escape tokens
/// starting at `a`.
pub open spec fn run_len(s: Seq<u8>, a: int) -> int
    decreases s.len() - a,
{
    if token_at(s, a) {
        6 + run_len(s, a + 6)
    } else {
        0
    }
}

/// A token run is at least one token long and stays inside the input.
proof fn lemma_run_bounds(s: Seq<u8>, a: int)
    requires
        token_at(s, a),
    ensures
        6 <= run_len(s, a),
        a + run_len(s, a) <= s.len(),
    decreases s.len() - a,
{
    if token_at(s, a + 6) {
        lemma_run_bounds(s, a + 6);
    } else {
        assert(run_len(s, a + 6) == 0);
    }
    assert(run_len(s, a) == 6 + run_len(s, a + 6));
}

/// The repaired text of the input from position `a` on, given that `bs`
/// literal backslashes were just emitted, or nothing when a collected token
/// run is not valid UTF-8.
pub open spec fn spec_repair_from(s: Seq<u8>, a: int, bs: int) -> Option<Seq<char>>
    decreases s.len() - a,
    via spec_repair_from_dec
{
    if a < 0 || a >= s.len() {
        Some(Seq::empty())
    } else if token_at(s, a) && bs % 2 == 0 {
        let buf = run_bytes(s, a);
        if valid_utf8(buf) {
            match spec_repair_from(s, a + run_len(s, a), 0) {
                Some(rest) => Some(decode_utf8(buf) + rest),
                None => None,
            }
        } else {
            None
        }
    } else {
        let nbs: int = if s[a] == 92u8 {
            bs + 1
        } else {
            0
        };
        match spec_repair_from(s, a + 1, nbs) {
            Some(rest) => Some(seq![s[a] as char] + rest),
            None => None,
        }
    }
}

#[via_fn]
proof fn spec_repair_from_dec(s: Seq<u8>, a: int, bs: int) {
    if !(a < 0 || a >= s.len()) && token_at(s, a) && bs % 2 == 0 {
        lemma_run_bounds(s, a);
    }
}

/// The repaired text of the whole input, or nothing when a collected token
/// run is not valid UTF-8.
pub open spec fn spec_repair(s: Seq<u8>) -> Option<Seq<char>> {
    spec_repair_from(s, 0, 0)
}

proof fn lemma_repair_from_no_backslash(s: Seq<u8>, a: int, bs: int)
    requires
        0 <= a <= s.len(),
        forall|i: int| 0 <= i < s.len() ==> s[i] != 92u8,
    ensures
        spec_repair_from(s, a, bs) == Some(Seq::new((s.len() - a) as nat, |i: int| s[a + i] as char)),
    decreases s.len() - a,
{
    if a >= s.len() {
        assert(Seq::new((s.len() - a) as nat, |i: int| s[a + i] as char) =~= Seq::<char>::empty());
    } else {
        assert(!token_at(s, a));
        lemma_repair_from_no_backslash(s, a + 1, 0);
        assert(seq![s[a] as char] + Seq::new(
            (s.len() - a - 1) as nat,
            |i: int| s[a + 1 + i] as char,
        ) =~= Seq::new((s.len() - a) as nat, |i: int| s[a + i] as char));
    }
}

/// On input that holds no backslash the repair is the identity: every byte
/// comes out as the character with that byte's value.
pub proof fn lemma_repair_identity_no_backslash(s: Seq<u8>)
    requires
        forall|i: int| 0 <= i < s.len() ==> s[i] != 92u8,
    ensures
        spec_repair(s) == Some(Seq::new(s.len(), |i: int| s[i] as char)),
{
    lemma_repair_from_no_backslash(s, 0, 0);
    assert(Seq::new(s.len(), |i: int| s[0 + i] as char) =~= Seq::new(
        s.len(),
        |i: int| s[i] as char,
    ));
}

/// The lower-case ASCII hex digit for a value below sixteen.
pub open spec fn spec_hex_digit_byte(d: int) -> u8
    recommends
        0 <= d <= 15,
{
    if d < 10 {
        (48 + d) as u8
    } else {
        (87 + d) as u8
    }
}

/// The canonical six-byte escape token that carries the byte `b`.
pub open spec fn spec_token_bytes(b: u8) -> Seq<u8> {
    seq![
        92u8,
        117u8,
        48u8,
        48u8,
        spec_hex_digit_byte(b as int / 16),
        spec_hex_digit_byte(b as int % 16),
    ]
}

/// The input rendering of a byte sequence as a run of consecutive escape
/// tokens, one token per byte.
pub open spec fn spec_token_run(bs: Seq<u8>) -> Seq<u8>
    decreases bs.len(),
{
    if bs.len() == 0 {
        Seq::empty()
    } else {
        spec_token_bytes(bs[0]) + spec_token_run(bs.drop_first())
    }
}

proof fn lemma_token_run_len(bs: Seq<u8>)
    ensures
        spec_token_run(bs).len() == 6 * bs.len(),
    decreases bs.len(),
{
    if bs.len() > 0 {
        lemma_token_run_len(bs.drop_first());
    }
}

/// A token run read from any position equals the run read from the start of
/// the suffix at that position.
proof fn lemma_run_shift(s: Seq<u8>, m: int)
    requires
        0 <= m <= s.len(),
    ensures
        run_bytes(s, m) == run_bytes(s.skip(m), 0),
        run_len(s, m) == run_len(s.skip(m), 0),
    decreases s.len() - m,
{
    let t = s.skip(m);
    assert(forall|i: int| 0 <= i < t.len() ==> t[i] == s[m + i]);
    if token_at(s, m) {
        assert(token_at(t, 0));
        assert(token_byte(t, 0) == token_byte(s, m));
        lemma_run_shift(s, m + 6);
        lemma_run_shift(t, 6);
        assert(t.skip(6) =~= s.skip(m + 6));
        assert(run_bytes(s, m) =~= run_bytes(t, 0));
    } else {
        assert(!token_at(t, 0));
        assert(run_bytes(s, m) =~= run_bytes(t, 0));
    }
}

proof fn lemma_token_run_structure(bs: Seq<u8>)
    ensures
        run_bytes(spec_token_run(bs), 0) == bs,
        run_len(spec_token_run(bs), 0) == 6 * bs.len(),
    decreases bs.len(),
{
    let s = spec_token_run(bs);
    lemma_token_run_len(bs);
    if bs.len() == 0 {
        assert(!token_at(s, 0));
        assert(run_bytes(s, 0) =~= bs);
    } else {
        let b = bs[0];
        let d_hi = b as int / 16;
        let d_lo = b as int % 16;
        assert(0 <= d_hi <= 15 && 0 <= d_lo <= 15);
        assert(s[0] == 92u8 && s[1] == 117u8 && s[2] == 48u8 && s[3] == 48u8);
        assert(s[4] == spec_hex_digit_byte(d_hi) && s[5] == spec_hex_digit_byte(d_lo));
        assert(is_hex_digit(spec_hex_digit_byte(d_hi)) && hex_val(spec_hex_digit_byte(d_hi))
            == d_hi);
        assert(is_hex_digit(spec_hex_digit_byte(d_lo)) && hex_val(spec_hex_digit_byte(d_lo))
            == d_lo);
        assert(is_hex_digit(48u8) && hex_val(48u8) == 0);
        assert(token_val(s, 0) == d_hi * 16 + d_lo);
        assert(d_hi * 16 + d_lo == b as int);
        assert(token_at(s, 0));
        assert(token_byte(s, 0) == b);
        lemma_token_run_structure(bs.drop_first());
        lemma_run_shift(s, 6);
        assert(s.skip(6) =~= spec_token_run(bs.drop_first()));
        assert(run_bytes(s, 0) == seq![b] + run_bytes(s, 6));
        assert(run_bytes(s, 0) =~= bs);
        assert(run_len(s, 0) == 6 + run_len(s, 6));
    }
}

/// A run of consecutive escape tokens whose carried bytes form a valid UTF-8
/// encoding repairs to exactly the characters those bytes encode, however
/// many tokens the run spans.
pub proof fn lemma_repair_token_run(bs: Seq<u8>)
    requires
        bs.len() > 0,
        valid_utf8(bs),
    ensures
        spec_repair(spec_token_run(bs)) == Some(decode_utf8(bs)),
{
    let s = spec_token_run(bs);
    lemma_token_run_len(bs);
    lemma_token_run_structure(bs);
    assert(token_at(s, 0));
    assert(spec_repair_from(s, 6 * bs.len() as int, 0) == Some(Seq::<char>::empty()));
    assert(spec_repair_from(s, 0, 0) == Some(decode_utf8(bs) + Seq::<char>::empty()));
    assert(decode_utf8(bs) + Seq::<char>::empty() =~= decode_utf8(bs));
}

/// The value of an ASCII hex digit.
fn hex_digit_val(b: u8) -> (r: u8)
    requires
        is_hex_digit(b),
    ensures
        r == hex_val(b),
{
    if 48 <= b && b <= 57 {
        b - 48
    } else if 97 <= b && b <= 102 {
        b - 87
    } else {
        b - 55
    }
}

/// Whether a well-formed escape token starts at position `a`.
fn is_token_at(s: &[u8], a: usize) -> (r: bool)
    requires
        a <= s@.len(),
    ensures
        r == token_at(s@, a as int),
{
    if s.len() - a >= 6 {
        if s[a] == 92 && s[a + 1] == 117 {
            let d2 = s[a + 2];
            let d3 = s[a + 3];
            let d4 = s[a + 4];
            let d5 = s[a + 5];
            if is_hex_digit_byte(d2) && is_hex_digit_byte(d3) && is_hex_digit_byte(d4)
                && is_hex_digit_byte(d5) {
                let v: u32 = (hex_digit_val(d2) as u32) * 4096 + (hex_digit_val(d3) as u32) * 256
                    + (hex_digit_val(d4) as u32) * 16 + (hex_digit_val(d5) as u32);
                v <= 255
            } else {
                false
            }
        } else {
            false
        }
    } else {
        false
    }
}

/// Whether a byte is an ASCII hex digit.
fn is_hex_digit_byte(b: u8) -> (r: bool)
    ensures
        r == is_hex_digit(b),
{
    (48 <= b && b <= 57) || (97 <= b && b <= 102) || (65 <= b && b <= 70)
}

/// The byte carried by the escape token at `a`.
fn token_byte_at(s: &[u8], a: usize) -> (r: u8)
    requires
        token_at(s@, a as int),
    ensures
        r == token_byte(s@, a as int),
{
    // Binding the length bounds the indices below by a machine word.
    let n: usize = s.len();
    let v: u32 = (hex_digit_val(s[a + 2]) as u32) * 4096 + (hex_digit_val(s[a + 3]) as u32) * 256
        + (hex_digit_val(s[a + 4]) as u32) * 16 + (hex_digit_val(s[a + 5]) as u32);
    v as u8
}

/// Reconstructs proper text from the archive's malformed unicode escapes.
///
/// Scans the bytes left to right. A `\u` that starts a well-formed token and
/// follows an even number of consecutive literal backslashes opens a token
/// run: the bytes carried by the run are decoded as UTF-8 and appended to the
/// output. Every other byte is emitted literally. A truncated or ill-formed
/// trailing escape is left as literal text rather than read past the end; a
/// token run whose bytes are not valid UTF-8 is reported as an error.
pub fn unfuck_facebook_unicode_escapes(json_data: &[u8]) -> (r: Result<String, RepairError>)
    ensures
        match r {
            Ok(out) => spec_repair(json_data@) == Some(out@),
            Err(e) => spec_repair(json_data@) is None && e == RepairError::MalformedEscapeSequence,
        },
{
    let ghost s = json_data@;
    let n: usize = json_data.len();
    let mut out = String::new();
    let mut prev_backslashes: usize = 0;
    let mut a: usize = 0;
    while a < n
        invariant
            n == s.len(),
            s == json_data@,
            a <= n,
            prev_backslashes <= a,
            spec_repair(s) == (match spec_repair_from(s, a as int, prev_backslashes as int) {
                Some(rest) => Some(out@ + rest),
                None => None::<Seq<char>>,
            }),
        decreases n - a,
    {
        let ghost bs0 = prev_backslashes as int;
        let cond = is_token_at(json_data, a) && prev_backslashes % 2 == 0;
        if cond {
            let ghost a0 = a as int;
            proof {
                lemma_run_bounds(s, a0);
            }
            let mut buf: Vec<u8> = Vec::new();
            let mut more = is_token_at(json_data, a);
            while more
                invariant
                    n == s.len(),
                    s == json_data@,
                    a <= n,
                    more == token_at(s, a as int),
                    buf@ + run_bytes(s, a as int) == run_bytes(s, a0),
                    a0 + run_len(s, a0) == a + run_len(s, a as int),
                decreases n - a,
            {
                let b = token_byte_at(json_data, a);
                proof {
                    lemma_run_bounds(s, a as int);
                    assert(run_bytes(s, a as int) == seq![token_byte(s, a as int)] + run_bytes(
                        s,
                        a as int + 6,
                    ));
                    assert(run_len(s, a as int) == 6 + run_len(s, a as int + 6));
                }
                let ghost buf_old = buf@;
                buf.push(b);
                a = a + 6;
                proof {
                    assert(buf@ + run_bytes(s, a as int) =~= buf_old + run_bytes(
                        s,
                        a as int - 6,
                    ));
                }
                more = is_token_at(json_data, a);
            }
            proof {
                assert(run_bytes(s, a as int) =~= Seq::<u8>::empty());
                assert(buf@ =~= run_bytes(s, a0));
                assert(run_len(s, a as int) == 0);
                assert(a as int == a0 + run_len(s, a0));
            }
            let ghost buf_view = buf@;
            match string_from_utf8(buf) {
                Some(decoded) => {
                    let ghost out_old = out@;
                    out.append(decoded.as_str());
                    prev_backslashes = 0;
                    proof {
                        match spec_repair_from(s, a as int, 0) {
                            Some(rest) => {
                                assert(spec_repair_from(s, a0, bs0) == Some(
                                    decode_utf8(buf_view) + rest,
                                ));
                                assert(out_old + (decode_utf8(buf_view) + rest) =~= out@ + rest);
                            },
                            None => {
                                assert(spec_repair_from(s, a0, bs0) is None);
                            },
                        }
                    }
                },
                None => {
                    proof {
                        assert(spec_repair_from(s, a0, bs0) is None);
                    }
                    return Err(RepairError::MalformedEscapeSequence);
                },
            }
        } else {
            let b = json_data[a];
            let ghost out_old = out@;
            push_char(&mut out, b as char);
            if b == 92 {
                prev_backslashes = prev_backslashes + 1;
            } else {
                prev_backslashes = 0;
            }
            a = a + 1;
            proof {
                match spec_repair_from(s, a as int, prev_backslashes as int) {
                    Some(rest) => {
                        assert(spec_repair_from(s, a as int - 1, bs0) == Some(
                            seq![s[a as int - 1] as char] + rest,
                        ));
                        assert(out_old + (seq![s[a as int - 1] as char] + rest) =~= out@ + rest);
                    },
                    None => {
                        assert(spec_repair_from(s, a as int - 1, bs0) is None);
                    },
                }
            }
        }
    }
    proof {
        assert(spec_repair_from(s, a as int, prev_backslashes as int) == Some(
            Seq::<char>::empty(),
        ));
        assert(out@ + Seq::<char>::empty() =~= out@);
    }
    Ok(out)
}

} // verus!
