use crate::error::{agrees, Error};
use vstd::prelude::*;
use vstd::slice::slice_subrange;

verus! {

/// `t` stands in `s` at `pos`.
pub open spec fn has_at(s: Seq<u8>, pos: int, t: Seq<u8>) -> bool {
    0 <= pos && pos + t.len() <= s.len() && s.subrange(pos, pos + t.len()) == t
}

/// Where `a + b` stands, `a` stands, and `b` right behind it.
pub proof fn lemma_has_at_split(s: Seq<u8>, pos: int, a: Seq<u8>, b: Seq<u8>)
    requires
        has_at(s, pos, a + b),
    ensures
        has_at(s, pos, a),
        has_at(s, pos + a.len(), b),
{
    let t = s.subrange(pos, pos + (a + b).len());
    assert(s.subrange(pos, pos + a.len()) =~= t.subrange(0, a.len() as int));
    assert(t.subrange(0, a.len() as int) =~= a);
    assert(s.subrange(pos + a.len(), pos + a.len() + b.len()) =~= t.subrange(
        a.len() as int,
        (a + b).len() as int,
    ));
    assert(t.subrange(a.len() as int, (a + b).len() as int) =~= b);
}

/// The bytes of `t` are those of `s` from `pos` on.
pub proof fn lemma_has_at_index(s: Seq<u8>, pos: int, t: Seq<u8>, k: int)
    requires
        has_at(s, pos, t),
        0 <= k < t.len(),
    ensures
        s[pos + k] == t[k],
{
    assert(s.subrange(pos, pos + t.len())[k] == t[k]);
}

/// The `n` bytes of `s` from `pos` on, or `Truncated` when `s` is too short.
pub open spec fn spec_take(s: Seq<u8>, pos: int, n: int) -> Result<(Seq<u8>, int), Error> {
    if pos < 0 || n < 0 || pos + n > s.len() {
        Err(Error::Truncated)
    } else {
        Ok((s.subrange(pos, pos + n), pos + n))
    }
}

/// Copies `n` bytes of `data` from `pos` on.
pub fn take_bytes(data: &[u8], pos: usize, n: usize) -> (res: Result<(Vec<u8>, usize), Error>)
    ensures
        agrees(res, spec_take(data@, pos as int, n as int)),
{
    if pos > data.len() || n > data.len() - pos {
        return Err(Error::Truncated);
    }
    let mut out: Vec<u8> = Vec::new();
    out.extend_from_slice(slice_subrange(data, pos, pos + n));
    assert(out@ =~= data@.subrange(pos as int, pos + n));
    Ok((out, pos + n))
}

/// Appends `bytes` to `out`.
pub fn put_bytes(bytes: &[u8], out: &mut Vec<u8>)
    ensures
        final(out)@ == old(out)@ + bytes@,
{
    out.extend_from_slice(bytes);
}

/// A copy of `v`.
pub fn clone_bytes(v: &Vec<u8>) -> (res: Vec<u8>)
    ensures
        res@ == v@,
{
    let mut out: Vec<u8> = Vec::new();
    out.extend_from_slice(v.as_slice());
    assert(out@ =~= v@);
    out
}

/// Whether two byte runs are the same.
pub fn bytes_eq(a: &[u8], b: &[u8]) -> (res: bool)
    ensures
        res == (a@ == b@),
{
    if a.len() != b.len() {
        return false;
    }
    let mut i: usize = 0;
    while i < a.len()
        invariant
            a.len() == b.len(),
            i <= a.len(),
            forall|k: int| 0 <= k < i ==> a@[k] == b@[k],
        decreases a.len() - i,
    {
        if a[i] != b[i] {
            return false;
        }
        i = i + 1;
    }
    assert(a@ =~= b@);
    true
}

/// The unsigned number that the `w` bytes of `s` from `pos` on spell, most
/// significant byte first; `w` is 1, 2, 4 or 8.
pub open spec fn uint_at(s: Seq<u8>, pos: int, w: int) -> int {
    if w == 1 {
        s[pos] as int
    } else if w == 2 {
        s[pos] * 0x100 + s[pos + 1]
    } else if w == 4 {
        s[pos] * 0x100_0000 + s[pos + 1] * 0x1_0000 + s[pos + 2] * 0x100 + s[pos + 3]
    } else {
        (s[pos] * 0x100_0000 + s[pos + 1] * 0x1_0000 + s[pos + 2] * 0x100 + s[pos + 3])
            * 0x1_0000_0000 + (s[pos + 4] * 0x100_0000 + s[pos + 5] * 0x1_0000 + s[pos + 6] * 0x100
            + s[pos + 7])
    }
}

/// The `w` bytes that spell the unsigned number `v`, most significant first.
pub open spec fn uint_bytes(v: int, w: int) -> Seq<u8> {
    if w == 1 {
        seq![v as u8]
    } else if w == 2 {
        seq![(v / 0x100) as u8, (v % 0x100) as u8]
    } else if w == 4 {
        seq![
            (v / 0x100_0000) as u8,
            (v / 0x1_0000 % 0x100) as u8,
            (v / 0x100 % 0x100) as u8,
            (v % 0x100) as u8,
        ]
    } else {
        seq![
            (v / 0x100_0000_0000_0000) as u8,
            (v / 0x1_0000_0000_0000 % 0x100) as u8,
            (v / 0x100_0000_0000 % 0x100) as u8,
            (v / 0x1_0000_0000 % 0x100) as u8,
            (v / 0x100_0000 % 0x100) as u8,
            (v / 0x1_0000 % 0x100) as u8,
            (v / 0x100 % 0x100) as u8,
            (v % 0x100) as u8,
        ]
    }
}

/// One more than the largest unsigned number of `w` bytes.
pub open spec fn uint_limit(w: int) -> int {
    if w == 1 {
        0x100
    } else if w == 2 {
        0x1_0000
    } else if w == 4 {
        0x1_0000_0000
    } else {
        0x1_0000_0000_0000_0000
    }
}

/// Whether `w` is the width of a wire integer.
pub open spec fn is_width(w: int) -> bool {
    w == 1 || w == 2 || w == 4 || w == 8
}

/// Whether `x` is a value of the integer type of `w` bytes, signed or not.
pub open spec fn int_fits(x: int, w: int, signed: bool) -> bool {
    if signed {
        -(uint_limit(w) / 2) <= x < uint_limit(w) / 2
    } else {
        0 <= x < uint_limit(w)
    }
}

/// The integer of `w` bytes that stands in `s` at `pos`: two's complement
/// when signed.
pub open spec fn int_at(s: Seq<u8>, pos: int, w: int, signed: bool) -> int {
    let v = uint_at(s, pos, w);
    if signed && v >= uint_limit(w) / 2 {
        v - uint_limit(w)
    } else {
        v
    }
}

/// The `w` bytes of the integer `x`: two's complement when signed.
pub open spec fn int_bytes(x: int, w: int, signed: bool) -> Seq<u8> {
    if signed && x < 0 {
        uint_bytes(x + uint_limit(w), w)
    } else {
        uint_bytes(x, w)
    }
}

/// An integer's bytes are as many as its width.
pub proof fn lemma_int_bytes_len(x: int, w: int, signed: bool)
    requires
        is_width(w),
    ensures
        int_bytes(x, w, signed).len() == w,
{
}

/// A 16-bit number is the sum of its two bytes, each at its place.
proof fn lemma_u16_parts(v: u16)
    by (bit_vector)
    ensures
        v / 0x100 < 0x100,
        v == (v / 0x100) * 0x100 + v % 0x100,
{
}

/// A 32-bit number is the sum of its four bytes, each at its place.
pub proof fn lemma_u32_parts(v: u32)
    by (bit_vector)
    ensures
        v / 0x100_0000 < 0x100,
        v == (v / 0x100_0000) * 0x100_0000 + (v / 0x1_0000 % 0x100) * 0x1_0000 + (v / 0x100
            % 0x100) * 0x100 + v % 0x100,
{
}

/// A 64-bit number is the sum of its eight bytes, each at its place.
proof fn lemma_u64_parts(v: u64)
    by (bit_vector)
    ensures
        v / 0x100_0000_0000_0000 < 0x100,
        v == (v / 0x100_0000_0000_0000) * 0x100_0000_0000_0000 + (v / 0x1_0000_0000_0000
            % 0x100) * 0x1_0000_0000_0000 + (v / 0x100_0000_0000 % 0x100) * 0x100_0000_0000 + (v
            / 0x1_0000_0000 % 0x100) * 0x1_0000_0000 + (v / 0x100_0000 % 0x100) * 0x100_0000 + (v
            / 0x1_0000 % 0x100) * 0x1_0000 + (v / 0x100 % 0x100) * 0x100 + v % 0x100,
{
}

/// Reading the bytes of an unsigned number gives the number back.
pub proof fn lemma_uint_round_trip(s: Seq<u8>, pos: int, v: int, w: int)
    requires
        is_width(w),
        0 <= v < uint_limit(w),
        has_at(s, pos, uint_bytes(v, w)),
    ensures
        uint_at(s, pos, w) == v,
{
    let t = uint_bytes(v, w);
    if w == 1 {
        lemma_has_at_index(s, pos, t, 0);
    } else if w == 2 {
        lemma_has_at_index(s, pos, t, 0);
        lemma_has_at_index(s, pos, t, 1);
        lemma_u16_parts(v as u16);
    } else if w == 4 {
        lemma_has_at_index(s, pos, t, 0);
        lemma_has_at_index(s, pos, t, 1);
        lemma_has_at_index(s, pos, t, 2);
        lemma_has_at_index(s, pos, t, 3);
        lemma_u32_parts(v as u32);
    } else {
        lemma_has_at_index(s, pos, t, 0);
        lemma_has_at_index(s, pos, t, 1);
        lemma_has_at_index(s, pos, t, 2);
        lemma_has_at_index(s, pos, t, 3);
        lemma_has_at_index(s, pos, t, 4);
        lemma_has_at_index(s, pos, t, 5);
        lemma_has_at_index(s, pos, t, 6);
        lemma_has_at_index(s, pos, t, 7);
        lemma_u64_parts(v as u64);
        let b0 = s[pos] as int;
        let b1 = s[pos + 1] as int;
        let b2 = s[pos + 2] as int;
        let b3 = s[pos + 3] as int;
        let b4 = s[pos + 4] as int;
        let b5 = s[pos + 5] as int;
        let b6 = s[pos + 6] as int;
        let b7 = s[pos + 7] as int;
        assert(b0 == v / 0x100_0000_0000_0000);
        assert(b1 == v / 0x1_0000_0000_0000 % 0x100);
        assert(b2 == v / 0x100_0000_0000 % 0x100);
        assert(b3 == v / 0x1_0000_0000 % 0x100);
        assert(b4 == v / 0x100_0000 % 0x100);
        assert(b5 == v / 0x1_0000 % 0x100);
        assert(b6 == v / 0x100 % 0x100);
        assert(b7 == v % 0x100);
        assert(uint_at(s, pos, 8) == (b0 * 0x100_0000 + b1 * 0x1_0000 + b2 * 0x100 + b3)
            * 0x1_0000_0000 + (b4 * 0x100_0000 + b5 * 0x1_0000 + b6 * 0x100 + b7));
    }
}

/// Reading the bytes of an integer gives the integer back.
pub proof fn lemma_int_round_trip(s: Seq<u8>, pos: int, x: int, w: int, signed: bool)
    requires
        is_width(w),
        int_fits(x, w, signed),
        has_at(s, pos, int_bytes(x, w, signed)),
    ensures
        int_at(s, pos, w, signed) == x,
{
    if signed && x < 0 {
        lemma_uint_round_trip(s, pos, x + uint_limit(w), w);
    } else {
        lemma_uint_round_trip(s, pos, x, w);
    }
}

/// A head and three bytes, each at its place, come apart again.
pub proof fn lemma_join_bytes(a: int, b: int, c: int, d: int)
    requires
        0 <= a,
        0 <= b < 0x100,
        0 <= c < 0x100,
        0 <= d < 0x100,
    ensures
        (a * 0x100 + b) / 0x100 == a,
        (a * 0x100 + b) % 0x100 == b,
        (a * 0x100_0000 + b * 0x1_0000 + c * 0x100 + d) / 0x100_0000 == a,
        (a * 0x100_0000 + b * 0x1_0000 + c * 0x100 + d) / 0x1_0000 % 0x100 == b,
        (a * 0x100_0000 + b * 0x1_0000 + c * 0x100 + d) / 0x100 % 0x100 == c,
        (a * 0x100_0000 + b * 0x1_0000 + c * 0x100 + d) % 0x100 == d,
{
}

/// Eight bytes, each at its place, come apart again.
proof fn lemma_join_eight(hi: int, lo: int)
    requires
        0 <= hi < 0x1_0000_0000,
        0 <= lo < 0x1_0000_0000,
    ensures
        (hi * 0x1_0000_0000 + lo) / 0x100_0000_0000_0000 == hi / 0x100_0000,
        (hi * 0x1_0000_0000 + lo) / 0x1_0000_0000_0000 % 0x100 == hi / 0x1_0000 % 0x100,
        (hi * 0x1_0000_0000 + lo) / 0x100_0000_0000 % 0x100 == hi / 0x100 % 0x100,
        (hi * 0x1_0000_0000 + lo) / 0x1_0000_0000 % 0x100 == hi % 0x100,
        (hi * 0x1_0000_0000 + lo) / 0x100_0000 % 0x100 == lo / 0x100_0000,
        (hi * 0x1_0000_0000 + lo) / 0x1_0000 % 0x100 == lo / 0x1_0000 % 0x100,
        (hi * 0x1_0000_0000 + lo) / 0x100 % 0x100 == lo / 0x100 % 0x100,
        (hi * 0x1_0000_0000 + lo) % 0x100 == lo % 0x100,
{
    let v = (hi * 0x1_0000_0000 + lo) as u64;
    let h = hi as u32;
    let l = lo as u32;
    assert(v / 0x100_0000_0000_0000 == h as u64 / 0x100_0000 && v / 0x1_0000_0000_0000 % 0x100
        == h as u64 / 0x1_0000 % 0x100 && v / 0x100_0000_0000 % 0x100 == h as u64 / 0x100 % 0x100
        && v / 0x1_0000_0000 % 0x100 == h as u64 % 0x100 && v / 0x100_0000 % 0x100 == l as u64
        / 0x100_0000 && v / 0x1_0000 % 0x100 == l as u64 / 0x1_0000 % 0x100 && v / 0x100 % 0x100
        == l as u64 / 0x100 % 0x100 && v % 0x100 == l as u64 % 0x100) by (bit_vector)
        requires
            v == (h as u64) * 0x1_0000_0000 + (l as u64),
    ;
}

/// The bytes of the unsigned number that stands in `s` at `pos` are the
/// bytes that stand there.
pub proof fn lemma_uint_bytes_at(s: Seq<u8>, pos: int, w: int)
    requires
        is_width(w),
        0 <= pos,
        pos + w <= s.len(),
    ensures
        uint_bytes(uint_at(s, pos, w), w) == s.subrange(pos, pos + w),
        0 <= uint_at(s, pos, w) < uint_limit(w),
{
    let v = uint_at(s, pos, w);
    let t = s.subrange(pos, pos + w);
    if w == 1 {
    } else if w == 2 {
        lemma_join_bytes(s[pos] as int, s[pos + 1] as int, 0, 0);
    } else if w == 4 {
        lemma_join_bytes(s[pos] as int, s[pos + 1] as int, s[pos + 2] as int, s[pos + 3] as int);
    } else {
        let hi = s[pos] * 0x100_0000 + s[pos + 1] * 0x1_0000 + s[pos + 2] * 0x100 + s[pos + 3];
        let lo = s[pos + 4] * 0x100_0000 + s[pos + 5] * 0x1_0000 + s[pos + 6] * 0x100 + s[pos
            + 7];
        lemma_join_eight(hi, lo);
        lemma_join_bytes(s[pos] as int, s[pos + 1] as int, s[pos + 2] as int, s[pos + 3] as int);
        lemma_join_bytes(
            s[pos + 4] as int,
            s[pos + 5] as int,
            s[pos + 6] as int,
            s[pos + 7] as int,
        );
    }
    assert(uint_bytes(v, w) =~= t);
}

/// The bytes of the integer that stands in `s` at `pos` are the bytes that
/// stand there.
pub proof fn lemma_int_bytes_at(s: Seq<u8>, pos: int, w: int, signed: bool)
    requires
        is_width(w),
        0 <= pos,
        pos + w <= s.len(),
    ensures
        int_bytes(int_at(s, pos, w, signed), w, signed) == s.subrange(pos, pos + w),
{
    lemma_uint_bytes_at(s, pos, w);
}

/// A fixed-width integer as it travels on the wire: big-endian, two's
/// complement when signed.
pub trait WireInt: Sized + Copy {
    /// Number of bytes on the wire.
    spec fn spec_width() -> int;

    /// Whether the type is signed.
    spec fn spec_signed() -> bool;

    /// The value as a mathematical integer.
    spec fn as_int(self) -> int;

    /// The width is 1, 2, 4 or 8, and every value fits it.
    proof fn lemma_wire_int(self)
        ensures
            is_width(Self::spec_width()),
            int_fits(self.as_int(), Self::spec_width(), Self::spec_signed()),
    ;

    /// Number of bytes on the wire.
    fn width() -> (w: usize)
        ensures
            w == Self::spec_width(),
            is_width(w as int),
    ;

    /// The value whose bytes stand in `data` at `pos`.
    fn read_at(data: &[u8], pos: usize) -> (v: Self)
        requires
            pos + Self::spec_width() <= data.len(),
        ensures
            v.as_int() == int_at(data@, pos as int, Self::spec_width(), Self::spec_signed()),
    ;

    /// Appends the value's bytes to `out`.
    fn write_to(self, out: &mut Vec<u8>)
        ensures
            final(out)@ == old(out)@ + int_bytes(
                self.as_int(),
                Self::spec_width(),
                Self::spec_signed(),
            ),
    ;
}

impl WireInt for u8 {
    open spec fn spec_width() -> int {
        1
    }

    open spec fn spec_signed() -> bool {
        false
    }

    open spec fn as_int(self) -> int {
        self as int
    }

    proof fn lemma_wire_int(self) {
    }

    fn width() -> (w: usize) {
        1
    }

    fn read_at(data: &[u8], pos: usize) -> (v: Self) {
        data[pos]
    }

    fn write_to(self, out: &mut Vec<u8>) {
        out.push(self);
        assert(out@ =~= old(out)@ + int_bytes(self as int, 1, false));
    }
}

impl WireInt for i8 {
    open spec fn spec_width() -> int {
        1
    }

    open spec fn spec_signed() -> bool {
        true
    }

    open spec fn as_int(self) -> int {
        self as int
    }

    proof fn lemma_wire_int(self) {
    }

    fn width() -> (w: usize) {
        1
    }

    fn read_at(data: &[u8], pos: usize) -> (v: Self) {
        let b: u8 = data[pos];
        if b < 0x80 {
            b as i8
        } else {
            (b as i16 - 0x100) as i8
        }
    }

    fn write_to(self, out: &mut Vec<u8>) {
        let b: u8 = if self < 0 {
            (self as i16 + 0x100) as u8
        } else {
            self as u8
        };
        out.push(b);
        assert(out@ =~= old(out)@ + int_bytes(self as int, 1, true));
    }
}

/// The unsigned 16-bit number in `data` at `pos`.
fn get_u16(data: &[u8], pos: usize) -> (v: u16)
    requires
        pos + 2 <= data.len(),
    ensures
        v == uint_at(data@, pos as int, 2),
{
    let hi: u16 = data[pos] as u16;
    let lo: u16 = data[pos + 1] as u16;
    hi * 0x100 + lo
}

/// The unsigned 32-bit number in `data` at `pos`.
fn get_u32(data: &[u8], pos: usize) -> (v: u32)
    requires
        pos + 4 <= data.len(),
    ensures
        v == uint_at(data@, pos as int, 4),
{
    let b0: u32 = data[pos] as u32;
    let b1: u32 = data[pos + 1] as u32;
    let b2: u32 = data[pos + 2] as u32;
    let b3: u32 = data[pos + 3] as u32;
    b0 * 0x100_0000 + b1 * 0x1_0000 + b2 * 0x100 + b3
}

/// The unsigned 64-bit number in `data` at `pos`.
fn get_u64(data: &[u8], pos: usize) -> (v: u64)
    requires
        pos + 8 <= data.len(),
    ensures
        v == uint_at(data@, pos as int, 8),
{
    let hi: u64 = get_u32(data, pos) as u64;
    let lo: u64 = get_u32(data, pos + 4) as u64;
    hi * 0x1_0000_0000 + lo
}

/// Appends the two bytes of `v`.
fn put_u16(v: u16, out: &mut Vec<u8>)
    ensures
        final(out)@ == old(out)@ + uint_bytes(v as int, 2),
{
    out.push((v / 0x100) as u8);
    out.push((v % 0x100) as u8);
    assert(out@ =~= old(out)@ + uint_bytes(v as int, 2));
}

/// Appends the four bytes of `v`.
fn put_u32(v: u32, out: &mut Vec<u8>)
    ensures
        final(out)@ == old(out)@ + uint_bytes(v as int, 4),
{
    out.push((v / 0x100_0000) as u8);
    out.push((v / 0x1_0000 % 0x100) as u8);
    out.push((v / 0x100 % 0x100) as u8);
    out.push((v % 0x100) as u8);
    assert(out@ =~= old(out)@ + uint_bytes(v as int, 4));
}

/// Appends the eight bytes of `v`.
fn put_u64(v: u64, out: &mut Vec<u8>)
    ensures
        final(out)@ == old(out)@ + uint_bytes(v as int, 8),
{
    out.push((v / 0x100_0000_0000_0000) as u8);
    out.push((v / 0x1_0000_0000_0000 % 0x100) as u8);
    out.push((v / 0x100_0000_0000 % 0x100) as u8);
    out.push((v / 0x1_0000_0000 % 0x100) as u8);
    out.push((v / 0x100_0000 % 0x100) as u8);
    out.push((v / 0x1_0000 % 0x100) as u8);
    out.push((v / 0x100 % 0x100) as u8);
    out.push((v % 0x100) as u8);
    assert(out@ =~= old(out)@ + uint_bytes(v as int, 8));
}

impl WireInt for u16 {
    open spec fn spec_width() -> int {
        2
    }

    open spec fn spec_signed() -> bool {
        false
    }

    open spec fn as_int(self) -> int {
        self as int
    }

    proof fn lemma_wire_int(self) {
    }

    fn width() -> (w: usize) {
        2
    }

    fn read_at(data: &[u8], pos: usize) -> (v: Self) {
        get_u16(data, pos)
    }

    fn write_to(self, out: &mut Vec<u8>) {
        put_u16(self, out)
    }
}

impl WireInt for i16 {
    open spec fn spec_width() -> int {
        2
    }

    open spec fn spec_signed() -> bool {
        true
    }

    open spec fn as_int(self) -> int {
        self as int
    }

    proof fn lemma_wire_int(self) {
    }

    fn width() -> (w: usize) {
        2
    }

    fn read_at(data: &[u8], pos: usize) -> (v: Self) {
        let u: u16 = get_u16(data, pos);
        if u < 0x8000 {
            u as i16
        } else {
            (u as i32 - 0x1_0000) as i16
        }
    }

    fn write_to(self, out: &mut Vec<u8>) {
        let u: u16 = if self < 0 {
            (self as i32 + 0x1_0000) as u16
        } else {
            self as u16
        };
        put_u16(u, out)
    }
}

impl WireInt for u32 {
    open spec fn spec_width() -> int {
        4
    }

    open spec fn spec_signed() -> bool {
        false
    }

    open spec fn as_int(self) -> int {
        self as int
    }

    proof fn lemma_wire_int(self) {
    }

    fn width() -> (w: usize) {
        4
    }

    fn read_at(data: &[u8], pos: usize) -> (v: Self) {
        get_u32(data, pos)
    }

    fn write_to(self, out: &mut Vec<u8>) {
        put_u32(self, out)
    }
}

impl WireInt for i32 {
    open spec fn spec_width() -> int {
        4
    }

    open spec fn spec_signed() -> bool {
        true
    }

    open spec fn as_int(self) -> int {
        self as int
    }

    proof fn lemma_wire_int(self) {
    }

    fn width() -> (w: usize) {
        4
    }

    fn read_at(data: &[u8], pos: usize) -> (v: Self) {
        let u: u32 = get_u32(data, pos);
        if u < 0x8000_0000 {
            u as i32
        } else {
            (u as i64 - 0x1_0000_0000) as i32
        }
    }

    fn write_to(self, out: &mut Vec<u8>) {
        let u: u32 = if self < 0 {
            (self as i64 + 0x1_0000_0000) as u32
        } else {
            self as u32
        };
        put_u32(u, out)
    }
}

impl WireInt for u64 {
    open spec fn spec_width() -> int {
        8
    }

    open spec fn spec_signed() -> bool {
        false
    }

    open spec fn as_int(self) -> int {
        self as int
    }

    proof fn lemma_wire_int(self) {
    }

    fn width() -> (w: usize) {
        8
    }

    fn read_at(data: &[u8], pos: usize) -> (v: Self) {
        get_u64(data, pos)
    }

    fn write_to(self, out: &mut Vec<u8>) {
        put_u64(self, out)
    }
}

impl WireInt for i64 {
    open spec fn spec_width() -> int {
        8
    }

    open spec fn spec_signed() -> bool {
        true
    }

    open spec fn as_int(self) -> int {
        self as int
    }

    proof fn lemma_wire_int(self) {
    }

    fn width() -> (w: usize) {
        8
    }

    fn read_at(data: &[u8], pos: usize) -> (v: Self) {
        let u: u64 = get_u64(data, pos);
        if u < 0x8000_0000_0000_0000 {
            u as i64
        } else {
            (u as i128 - 0x1_0000_0000_0000_0000) as i64
        }
    }

    fn write_to(self, out: &mut Vec<u8>) {
        let u: u64 = if self < 0 {
            (self as i128 + 0x1_0000_0000_0000_0000) as u64
        } else {
            self as u64
        };
        put_u64(u, out)
    }
}

/// Reading one integer of type `T` from `s` at `pos`.
pub open spec fn spec_read_int<T: WireInt>(s: Seq<u8>, pos: int) -> Result<(int, int), Error> {
    if pos < 0 || pos + T::spec_width() > s.len() {
        Err(Error::Truncated)
    } else {
        Ok((int_at(s, pos, T::spec_width(), T::spec_signed()), pos + T::spec_width()))
    }
}

/// Reads one integer from `data` at `pos`.
pub fn read_int<T: WireInt>(data: &[u8], pos: usize) -> (res: Result<(T, usize), Error>)
    ensures
        match spec_read_int::<T>(data@, pos as int) {
            Ok((x, q)) => res matches Ok((v, p)) && v.as_int() == x && p == q && p <= data.len(),
            Err(e) => res matches Err(f) && e == f,
        },
{
    let w = T::width();
    if pos > data.len() || w > data.len() - pos {
        return Err(Error::Truncated);
    }
    Ok((T::read_at(data, pos), pos + w))
}

} // verus!
