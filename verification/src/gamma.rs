use crate::error::{agrees, Error};
use vstd::prelude::*;

verus! {

/// Number of bytes that the shortest gamma form of `i` takes: 1 to 5.
pub open spec fn spec_gamma_length(i: u32) -> nat {
    if i < 0x80 {
        1
    } else if i < 0x4000 {
        2
    } else if i < 0x20_0000 {
        3
    } else if i < 0x1000_0000 {
        4
    } else {
        5
    }
}

/// The shortest gamma form of `i`: the prefix bits of the first byte give the
/// length, the rest is the value, most significant byte first.
pub open spec fn gamma_bytes(i: u32) -> Seq<u8> {
    if i < 0x80 {
        seq![i as u8]
    } else if i < 0x4000 {
        seq![(0x80 + i / 0x100) as u8, (i % 0x100) as u8]
    } else if i < 0x20_0000 {
        seq![(0xC0 + i / 0x1_0000) as u8, (i / 0x100 % 0x100) as u8, (i % 0x100) as u8]
    } else if i < 0x1000_0000 {
        seq![
            (0xE0 + i / 0x100_0000) as u8,
            (i / 0x1_0000 % 0x100) as u8,
            (i / 0x100 % 0x100) as u8,
            (i % 0x100) as u8,
        ]
    } else {
        seq![
            0xF0u8,
            (i / 0x100_0000) as u8,
            (i / 0x1_0000 % 0x100) as u8,
            (i / 0x100 % 0x100) as u8,
            (i % 0x100) as u8,
        ]
    }
}

/// Number of bytes that a gamma starting with byte `b0` takes.
pub open spec fn gamma_width(b0: u8) -> int {
    if b0 < 0x80 {
        1
    } else if b0 < 0xC0 {
        2
    } else if b0 < 0xE0 {
        3
    } else if b0 < 0xF0 {
        4
    } else {
        5
    }
}

/// Reading a gamma from `s` at `pos`: the value and the position after it, or
/// `Truncated` when `s` ends inside it. In the five-byte form the low four
/// bits of the first byte are not looked at.
pub open spec fn spec_parse_gamma(s: Seq<u8>, pos: int) -> Result<(u32, int), Error> {
    if pos < 0 || pos >= s.len() {
        Err(Error::Truncated)
    } else if pos + gamma_width(s[pos]) > s.len() {
        Err(Error::Truncated)
    } else {
        let b0 = s[pos];
        if b0 < 0x80 {
            Ok((b0 as u32, pos + 1))
        } else if b0 < 0xC0 {
            Ok((((b0 - 0x80) * 0x100 + s[pos + 1]) as u32, pos + 2))
        } else if b0 < 0xE0 {
            Ok((((b0 - 0xC0) * 0x1_0000 + s[pos + 1] * 0x100 + s[pos + 2]) as u32, pos + 3))
        } else if b0 < 0xF0 {
            Ok(
                (
                    ((b0 - 0xE0) * 0x100_0000 + s[pos + 1] * 0x1_0000 + s[pos + 2] * 0x100 + s[pos
                        + 3]) as u32,
                    pos + 4,
                ),
            )
        } else {
            Ok(
                (
                    (s[pos + 1] * 0x100_0000 + s[pos + 2] * 0x1_0000 + s[pos + 3] * 0x100 + s[pos
                        + 4]) as u32,
                    pos + 5,
                ),
            )
        }
    }
}

/// Number of bytes that `write_gamma` emits for `i`.
pub fn gamma_length(i: u32) -> (n: u32)
    ensures
        n == spec_gamma_length(i),
        1 <= n <= 5,
{
    if i < 0x80 {
        1
    } else if i < 0x4000 {
        2
    } else if i < 0x20_0000 {
        3
    } else if i < 0x1000_0000 {
        4
    } else {
        5
    }
}

/// Reads one gamma from `data` at `pos`.
pub fn parse_gamma(data: &[u8], pos: usize) -> (res: Result<(u32, usize), Error>)
    ensures
        agrees(res, spec_parse_gamma(data@, pos as int)),
        res matches Ok((_, p)) ==> pos < p <= data.len() && p - pos <= 5,
{
    if pos >= data.len() {
        return Err(Error::Truncated);
    }
    let b0: u8 = data[pos];
    let left: usize = data.len() - pos;
    if b0 < 0x80 {
        Ok((b0 as u32, pos + 1))
    } else if b0 < 0xC0 {
        if left < 2 {
            return Err(Error::Truncated);
        }
        let b1: u32 = data[pos + 1] as u32;
        Ok(((b0 as u32 - 0x80) * 0x100 + b1, pos + 2))
    } else if b0 < 0xE0 {
        if left < 3 {
            return Err(Error::Truncated);
        }
        let b1: u32 = data[pos + 1] as u32;
        let b2: u32 = data[pos + 2] as u32;
        Ok(((b0 as u32 - 0xC0) * 0x1_0000 + b1 * 0x100 + b2, pos + 3))
    } else if b0 < 0xF0 {
        if left < 4 {
            return Err(Error::Truncated);
        }
        let b1: u32 = data[pos + 1] as u32;
        let b2: u32 = data[pos + 2] as u32;
        let b3: u32 = data[pos + 3] as u32;
        Ok(((b0 as u32 - 0xE0) * 0x100_0000 + b1 * 0x1_0000 + b2 * 0x100 + b3, pos + 4))
    } else {
        if left < 5 {
            return Err(Error::Truncated);
        }
        let b1: u32 = data[pos + 1] as u32;
        let b2: u32 = data[pos + 2] as u32;
        let b3: u32 = data[pos + 3] as u32;
        let b4: u32 = data[pos + 4] as u32;
        Ok((b1 * 0x100_0000 + b2 * 0x1_0000 + b3 * 0x100 + b4, pos + 5))
    }
}

/// Appends the shortest gamma form of `i` to `out`.
pub fn write_gamma(i: u32, out: &mut Vec<u8>)
    ensures
        final(out)@ == old(out)@ + gamma_bytes(i),
{
    if i < 0x80 {
        out.push(i as u8);
    } else if i < 0x4000 {
        out.push((0x80 + i / 0x100) as u8);
        out.push((i % 0x100) as u8);
    } else if i < 0x20_0000 {
        out.push((0xC0 + i / 0x1_0000) as u8);
        out.push((i / 0x100 % 0x100) as u8);
        out.push((i % 0x100) as u8);
    } else if i < 0x1000_0000 {
        out.push((0xE0 + i / 0x100_0000) as u8);
        out.push((i / 0x1_0000 % 0x100) as u8);
        out.push((i / 0x100 % 0x100) as u8);
        out.push((i % 0x100) as u8);
    } else {
        out.push(0xF0u8);
        out.push((i / 0x100_0000) as u8);
        out.push((i / 0x1_0000 % 0x100) as u8);
        out.push((i / 0x100 % 0x100) as u8);
        out.push((i % 0x100) as u8);
    }
    assert(out@ =~= old(out)@ + gamma_bytes(i));
}

/// An unsigned 32-bit integer that travels in gamma form.
#[derive(Debug, Clone, Copy, PartialEq, Eq, Structural)]
pub struct Gamma {
    pub value: u32,
}

impl Gamma {
    /// Reads one gamma from `data` at `pos`.
    pub fn read(data: &[u8], pos: usize) -> (res: Result<(Gamma, usize), Error>)
        ensures
            match spec_parse_gamma(data@, pos as int) {
                Ok((v, q)) => res == Ok::<(Gamma, usize), Error>((Gamma { value: v }, q as usize))
                    && q <= data.len(),
                Err(e) => res == Err::<(Gamma, usize), Error>(e),
            },
    {
        match parse_gamma(data, pos) {
            Ok((v, p)) => Ok((Gamma { value: v }, p)),
            Err(e) => Err(e),
        }
    }

    /// Appends the shortest form of the value to `out`.
    pub fn write(&self, out: &mut Vec<u8>)
        ensures
            final(out)@ == old(out)@ + gamma_bytes(self.value),
    {
        write_gamma(self.value, out)
    }

    /// Number of bytes that `write` emits.
    pub fn byte_len(&self) -> (n: u32)
        ensures
            n == spec_gamma_length(self.value),
    {
        gamma_length(self.value)
    }
}

/// The shortest form has the length that `gamma_length` gives.
pub proof fn lemma_gamma_bytes_len(u: u32)
    ensures
        gamma_bytes(u).len() == spec_gamma_length(u),
        1 <= spec_gamma_length(u) <= 5,
{
}

/// Wherever the shortest form of `u` stands in `s`, reading at that place
/// gives `u` back and stops right behind it.
pub proof fn lemma_gamma_parse_at(s: Seq<u8>, pos: int, u: u32)
    requires
        0 <= pos,
        pos + gamma_bytes(u).len() <= s.len(),
        s.subrange(pos, pos + gamma_bytes(u).len()) == gamma_bytes(u),
    ensures
        spec_parse_gamma(s, pos) == Ok::<(u32, int), Error>((u, pos + spec_gamma_length(u))),
{
    let g = gamma_bytes(u);
    let t = s.subrange(pos, pos + g.len());
    assert(forall|k: int| 0 <= k < g.len() ==> s[pos + k] == #[trigger] t[k]);
    assert(t[0] == g[0]);
    if u >= 0x80 {
        assert(t[1] == g[1]);
    }
    if u >= 0x4000 {
        assert(t[2] == g[2]);
    }
    if u >= 0x20_0000 {
        assert(t[3] == g[3]);
    }
    if u >= 0x1000_0000 {
        assert(t[4] == g[4]);
    }
}

/// Gamma round trip: for every `u`, reading what `write_gamma` wrote gives `u`
/// back, whatever follows, and consumes `gamma_length(u)` bytes, which is the
/// number of bytes written.
pub proof fn lemma_gamma_round_trip(u: u32, rest: Seq<u8>)
    ensures
        spec_parse_gamma(gamma_bytes(u) + rest, 0) == Ok::<(u32, int), Error>(
            (u, spec_gamma_length(u) as int),
        ),
        gamma_bytes(u).len() == spec_gamma_length(u),
{
    let s = gamma_bytes(u) + rest;
    assert(s.subrange(0, gamma_bytes(u).len() as int) =~= gamma_bytes(u));
    lemma_gamma_parse_at(s, 0, u);
}

/// A number put together from a head and one, two or three bytes comes
/// apart into that head and those bytes.
proof fn lemma_split_bytes(a: int, b: int, c: int, d: int)
    requires
        0 <= a,
        0 <= b < 0x100,
        0 <= c < 0x100,
        0 <= d < 0x100,
    ensures
        (a * 0x100 + b) / 0x100 == a,
        (a * 0x100 + b) % 0x100 == b,
        (a * 0x1_0000 + b * 0x100 + c) / 0x1_0000 == a,
        (a * 0x1_0000 + b * 0x100 + c) / 0x100 % 0x100 == b,
        (a * 0x1_0000 + b * 0x100 + c) % 0x100 == c,
        (a * 0x100_0000 + b * 0x1_0000 + c * 0x100 + d) / 0x100_0000 == a,
        (a * 0x100_0000 + b * 0x1_0000 + c * 0x100 + d) / 0x1_0000 % 0x100 == b,
        (a * 0x100_0000 + b * 0x1_0000 + c * 0x100 + d) / 0x100 % 0x100 == c,
        (a * 0x100_0000 + b * 0x1_0000 + c * 0x100 + d) % 0x100 == d,
{
}

/// Shortest form: no byte run that reads as `u` is shorter than what
/// `write_gamma` emits for `u`, and one of that same length is what
/// `write_gamma` emits, byte for byte, up to the low four bits of the first
/// byte of a five-byte form, which the reader does not look at.
pub proof fn lemma_gamma_shortest(s: Seq<u8>, pos: int, u: u32, end: int)
    requires
        spec_parse_gamma(s, pos) == Ok::<(u32, int), Error>((u, end)),
    ensures
        end - pos >= spec_gamma_length(u),
        end - pos == spec_gamma_length(u) ==> s.subrange(pos + 1, end) == gamma_bytes(u).subrange(
            1,
            spec_gamma_length(u) as int,
        ) && (if u < 0x1000_0000 {
            s[pos] == gamma_bytes(u)[0]
        } else {
            s[pos] >= 0xF0
        }),
{
    let b0 = s[pos];
    let w = gamma_width(b0);
    assert(end == pos + w);
    let g = gamma_bytes(u);
    if w == 1 {
        assert(u == b0);
    } else if w == 2 {
        let a = (b0 - 0x80) as int;
        lemma_split_bytes(a, s[pos + 1] as int, 0, 0);
        assert(u == a * 0x100 + s[pos + 1]);
    } else if w == 3 {
        let a = (b0 - 0xC0) as int;
        lemma_split_bytes(a, s[pos + 1] as int, s[pos + 2] as int, 0);
        assert(u == a * 0x1_0000 + s[pos + 1] * 0x100 + s[pos + 2]);
    } else if w == 4 {
        let a = (b0 - 0xE0) as int;
        lemma_split_bytes(a, s[pos + 1] as int, s[pos + 2] as int, s[pos + 3] as int);
        assert(u == a * 0x100_0000 + s[pos + 1] * 0x1_0000 + s[pos + 2] * 0x100 + s[pos + 3]);
    } else {
        lemma_split_bytes(s[pos + 1] as int, s[pos + 2] as int, s[pos + 3] as int, s[pos + 4] as int);
        assert(u == s[pos + 1] * 0x100_0000 + s[pos + 2] * 0x1_0000 + s[pos + 3] * 0x100 + s[pos + 4]);
    }
    if end - pos == spec_gamma_length(u) {
        let l = s.subrange(pos + 1, end);
        let r = g.subrange(1, spec_gamma_length(u) as int);
        assert(l.len() == r.len());
        assert forall|k: int| 0 <= k < l.len() implies l[k] == r[k] by {
            assert(l[k] == s[pos + 1 + k]);
            assert(r[k] == g[1 + k]);
        }
        assert(l =~= r);
    }
}

} // verus!
