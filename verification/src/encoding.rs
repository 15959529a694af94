//! The canonical binary encoding that every hashed or signed value goes
//! through: little-endian integers, length-prefixed byte strings and
//! sequences, and the hexadecimal text form used by human-readable
//! renderings of keys and signatures.

use vstd::prelude::*;

verus! {

/// Little-endian encoding of a `u32` into four bytes.
pub open spec fn enc_u32(x: u32) -> Seq<u8> {
    seq![
        (x & 0xff) as u8,
        ((x >> 8) & 0xff) as u8,
        ((x >> 16) & 0xff) as u8,
        ((x >> 24) & 0xff) as u8,
    ]
}

/// Little-endian encoding of a `u64` into eight bytes.
pub open spec fn enc_u64(x: u64) -> Seq<u8> {
    seq![
        (x & 0xff) as u8,
        ((x >> 8) & 0xff) as u8,
        ((x >> 16) & 0xff) as u8,
        ((x >> 24) & 0xff) as u8,
        ((x >> 32) & 0xff) as u8,
        ((x >> 40) & 0xff) as u8,
        ((x >> 48) & 0xff) as u8,
        ((x >> 56) & 0xff) as u8,
    ]
}

/// A byte string, prefixed with its length.
pub open spec fn enc_bytes(b: Seq<u8>) -> Seq<u8> {
    enc_u64(b.len() as u64) + b
}

/// Two `u64` values with the same encoding are equal.
pub proof fn lemma_enc_u64_injective(x: u64, y: u64)
    requires
        enc_u64(x) == enc_u64(y),
    ensures
        x == y,
{
    assert(x & 0xff < 256 && (x >> 8) & 0xff < 256 && (x >> 16) & 0xff < 256 && (x >> 24) & 0xff
        < 256 && (x >> 32) & 0xff < 256 && (x >> 40) & 0xff < 256 && (x >> 48) & 0xff < 256 && (x
        >> 56) & 0xff < 256) by (bit_vector);
    assert(y & 0xff < 256 && (y >> 8) & 0xff < 256 && (y >> 16) & 0xff < 256 && (y >> 24) & 0xff
        < 256 && (y >> 32) & 0xff < 256 && (y >> 40) & 0xff < 256 && (y >> 48) & 0xff < 256 && (y
        >> 56) & 0xff < 256) by (bit_vector);
    assert((x & 0xff) as u8 == (y & 0xff) as u8);
    assert(((x >> 8) & 0xff) as u8 == ((y >> 8) & 0xff) as u8);
    assert(((x >> 16) & 0xff) as u8 == ((y >> 16) & 0xff) as u8);
    assert(((x >> 24) & 0xff) as u8 == ((y >> 24) & 0xff) as u8);
    assert(((x >> 32) & 0xff) as u8 == ((y >> 32) & 0xff) as u8);
    assert(((x >> 40) & 0xff) as u8 == ((y >> 40) & 0xff) as u8);
    assert(((x >> 48) & 0xff) as u8 == ((y >> 48) & 0xff) as u8);
    assert(((x >> 56) & 0xff) as u8 == ((y >> 56) & 0xff) as u8);
    assert(x == y) by (bit_vector)
        requires
            x & 0xff == y & 0xff,
            (x >> 8) & 0xff == (y >> 8) & 0xff,
            (x >> 16) & 0xff == (y >> 16) & 0xff,
            (x >> 24) & 0xff == (y >> 24) & 0xff,
            (x >> 32) & 0xff == (y >> 32) & 0xff,
            (x >> 40) & 0xff == (y >> 40) & 0xff,
            (x >> 48) & 0xff == (y >> 48) & 0xff,
            (x >> 56) & 0xff == (y >> 56) & 0xff,
    ;
}

pub fn write_u32(out: &mut Vec<u8>, x: u32)
    ensures
        final(out)@ == old(out)@ + enc_u32(x),
{
    out.push((x & 0xff) as u8);
    out.push(((x >> 8) & 0xff) as u8);
    out.push(((x >> 16) & 0xff) as u8);
    out.push(((x >> 24) & 0xff) as u8);
    proof {
        assert(out@ =~= old(out)@ + enc_u32(x));
    }
}

pub fn write_u64(out: &mut Vec<u8>, x: u64)
    ensures
        final(out)@ == old(out)@ + enc_u64(x),
{
    out.push((x & 0xff) as u8);
    out.push(((x >> 8) & 0xff) as u8);
    out.push(((x >> 16) & 0xff) as u8);
    out.push(((x >> 24) & 0xff) as u8);
    out.push(((x >> 32) & 0xff) as u8);
    out.push(((x >> 40) & 0xff) as u8);
    out.push(((x >> 48) & 0xff) as u8);
    out.push(((x >> 56) & 0xff) as u8);
    proof {
        assert(out@ =~= old(out)@ + enc_u64(x));
    }
}

pub fn write_bytes(out: &mut Vec<u8>, b: &[u8])
    ensures
        final(out)@ == old(out)@ + enc_bytes(b@),
{
    write_u64(out, b.len() as u64);
    let ghost mid = out@;
    let mut i: usize = 0;
    while i < b.len()
        invariant
            0 <= i <= b@.len(),
            out@ == mid + b@.take(i as int),
        decreases b@.len() - i,
    {
        out.push(b[i]);
        proof {
            assert(out@ =~= mid + b@.take(i + 1 as int));
        }
        i = i + 1;
    }
    proof {
        assert(b@.take(b@.len() as int) =~= b@);
        assert(out@ =~= old(out)@ + enc_bytes(b@));
    }
}

/// The lowercase hexadecimal digit for a value below sixteen.
pub open spec fn hex_digit(n: u8) -> char {
    if n == 0 {
        '0'
    } else if n == 1 {
        '1'
    } else if n == 2 {
        '2'
    } else if n == 3 {
        '3'
    } else if n == 4 {
        '4'
    } else if n == 5 {
        '5'
    } else if n == 6 {
        '6'
    } else if n == 7 {
        '7'
    } else if n == 8 {
        '8'
    } else if n == 9 {
        '9'
    } else if n == 10 {
        'a'
    } else if n == 11 {
        'b'
    } else if n == 12 {
        'c'
    } else if n == 13 {
        'd'
    } else if n == 14 {
        'e'
    } else {
        'f'
    }
}

/// The lowercase hexadecimal rendering of a byte string, two digits per
/// byte.
pub open spec fn hex_of(b: Seq<u8>) -> Seq<char>
    decreases b.len(),
{
    if b.len() == 0 {
        Seq::empty()
    } else {
        hex_of(b.drop_last()) + seq![hex_digit(b.last() / 16), hex_digit(b.last() % 16)]
    }
}

/// Whether `c` is an upper- or lowercase hexadecimal digit.
pub open spec fn is_hex_char(c: char) -> bool {
    c == '0' || c == '1' || c == '2' || c == '3' || c == '4' || c == '5' || c == '6' || c == '7'
        || c == '8' || c == '9' || c == 'a' || c == 'b' || c == 'c' || c == 'd' || c == 'e' || c
        == 'f' || c == 'A' || c == 'B' || c == 'C' || c == 'D' || c == 'E' || c == 'F'
}

/// The value of a hexadecimal digit, either case.
pub open spec fn hex_val(c: char) -> u8 {
    if c == '0' {
        0
    } else if c == '1' {
        1
    } else if c == '2' {
        2
    } else if c == '3' {
        3
    } else if c == '4' {
        4
    } else if c == '5' {
        5
    } else if c == '6' {
        6
    } else if c == '7' {
        7
    } else if c == '8' {
        8
    } else if c == '9' {
        9
    } else if c == 'a' || c == 'A' {
        10
    } else if c == 'b' || c == 'B' {
        11
    } else if c == 'c' || c == 'C' {
        12
    } else if c == 'd' || c == 'D' {
        13
    } else if c == 'e' || c == 'E' {
        14
    } else {
        15
    }
}

/// Whether `s` is a well-formed hexadecimal string: an even number of
/// digits of either case.
pub open spec fn valid_hex(s: Seq<char>) -> bool {
    s.len() % 2 == 0 && (forall|i: int| 0 <= i < s.len() ==> is_hex_char(#[trigger] s[i]))
}

/// The bytes spelled by a hexadecimal string.
pub open spec fn hex_bytes_of(s: Seq<char>) -> Seq<u8>
    decreases s.len(),
{
    if s.len() < 2 {
        Seq::empty()
    } else {
        hex_bytes_of(s.take(s.len() - 2)) + seq![
            (hex_val(s[s.len() - 2]) * 16 + hex_val(s[s.len() - 1])) as u8,
        ]
    }
}

/// Hexadecimal round trip: decoding an encoded byte string reproduces the
/// original bytes exactly.
pub proof fn lemma_hex_round_trip(b: Seq<u8>)
    ensures
        valid_hex(hex_of(b)),
        hex_of(b).len() == 2 * b.len(),
        hex_bytes_of(hex_of(b)) == b,
    decreases b.len(),
{
    if b.len() == 0 {
    } else {
        let pre = b.drop_last();
        let x = b.last();
        lemma_hex_round_trip(pre);
        let h = hex_of(b);
        assert(h.take(h.len() - 2) =~= hex_of(pre));
        assert(is_hex_char(hex_digit(x / 16)) && hex_val(hex_digit(x / 16)) == x / 16);
        assert(is_hex_char(hex_digit(x % 16)) && hex_val(hex_digit(x % 16)) == x % 16);
        assert(x / 16 * 16 + x % 16 == x) by (nonlinear_arith);
        assert(hex_bytes_of(h) =~= b);
    }
}

/// Reads one byte at `pos`; fails exactly when the input is too short.
pub fn read_u8(b: &[u8], pos: usize) -> (r: Option<(u8, usize)>)
    ensures
        r is Some <==> pos + 1 <= b@.len(),
        r matches Some((v, p)) ==> p == pos + 1 && b@.subrange(pos as int, p as int) == seq![v],
{
    if pos < b.len() {
        let v = b[pos];
        proof {
            assert(b@.subrange(pos as int, pos + 1 as int) =~= seq![v]);
        }
        Some((v, pos + 1))
    } else {
        None
    }
}

/// Reads a little-endian `u64` at `pos`; fails exactly when the input is
/// too short.
pub fn read_u64(b: &[u8], pos: usize) -> (r: Option<(u64, usize)>)
    ensures
        r is Some <==> pos + 8 <= b@.len(),
        r matches Some((v, p)) ==> p == pos + 8 && b@.subrange(pos as int, p as int) == enc_u64(v),
{
    if pos <= b.len() && b.len() - pos >= 8 {
        let b0 = b[pos] as u64;
        let b1 = b[pos + 1] as u64;
        let b2 = b[pos + 2] as u64;
        let b3 = b[pos + 3] as u64;
        let b4 = b[pos + 4] as u64;
        let b5 = b[pos + 5] as u64;
        let b6 = b[pos + 6] as u64;
        let b7 = b[pos + 7] as u64;
        let v = b0 | (b1 << 8) | (b2 << 16) | (b3 << 24) | (b4 << 32) | (b5 << 40) | (b6 << 48)
            | (b7 << 56);
        proof {
            assert(v & 0xff == b0 && (v >> 8) & 0xff == b1 && (v >> 16) & 0xff == b2 && (v >> 24)
                & 0xff == b3 && (v >> 32) & 0xff == b4 && (v >> 40) & 0xff == b5 && (v >> 48)
                & 0xff == b6 && (v >> 56) & 0xff == b7) by (bit_vector)
                requires
                    v == b0 | (b1 << 8) | (b2 << 16) | (b3 << 24) | (b4 << 32) | (b5 << 40) | (
                    b6 << 48) | (b7 << 56),
                    b0 < 256,
                    b1 < 256,
                    b2 < 256,
                    b3 < 256,
                    b4 < 256,
                    b5 < 256,
                    b6 < 256,
                    b7 < 256,
            ;
            assert(b@.subrange(pos as int, pos + 8 as int) =~= enc_u64(v));
        }
        Some((v, pos + 8))
    } else {
        None
    }
}

/// Reads a length-prefixed byte string at `pos`; fails exactly when the
/// input is too short for the prefix or for the announced length.
pub fn read_bytes(b: &[u8], pos: usize) -> (r: Option<(Vec<u8>, usize)>)
    ensures
        r is Some <==> (exists|n: u64|
            pos + 8 <= b@.len() && b@.subrange(pos as int, pos + 8) == enc_u64(n) && pos + 8 + n
                <= b@.len()),
        r matches Some((v, p)) ==> pos + 8 + v@.len() == p && p <= b@.len() && b@.subrange(
            pos as int,
            p as int,
        ) == enc_bytes(v@),
{
    let ghost input = b@;
    match read_u64(b, pos) {
        None => None,
        Some((n, p1)) => {
            let blen: usize = b.len();
            if (blen - p1) as u64 >= n {
                let len: usize = n as usize;
                let mut v: Vec<u8> = Vec::new();
                let mut i: usize = 0;
                while i < len
                    invariant
                        0 <= i <= len,
                        p1 + len <= blen,
                        blen == b@.len(),
                        b@ == input,
                        v@ =~= b@.subrange(p1 as int, p1 + i as int),
                    decreases len - i,
                {
                    v.push(b[p1 + i]);
                    proof {
                        assert(v@ =~= b@.subrange(p1 as int, p1 + (i + 1) as int));
                    }
                    i = i + 1;
                }
                proof {
                    assert(input.subrange(pos as int, pos + 8 + v@.len()) =~= enc_u64(n) + v@);
                }
                Some((v, p1 + len))
            } else {
                proof {
                    if exists|m: u64|
                        pos + 8 <= input.len() && input.subrange(pos as int, pos + 8) == enc_u64(m)
                            && pos + 8 + m <= input.len() {
                        let m = choose|m: u64|
                            pos + 8 <= input.len() && input.subrange(pos as int, pos + 8)
                                == enc_u64(m) && pos + 8 + m <= input.len();
                        lemma_enc_u64_injective(n, m);
                    }
                }
                None
            }
        },
    }
}

} // verus!
