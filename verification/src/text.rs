use crate::error::{agrees, Error};
use crate::gamma::{
    gamma_bytes, gamma_length, lemma_gamma_parse_at, parse_gamma, spec_gamma_length,
    spec_parse_gamma, write_gamma,
};
use crate::wire::{
    bytes_eq, clone_bytes, has_at, lemma_has_at_split, put_bytes, spec_take, take_bytes,
};
use vstd::prelude::*;
use vstd::string::StringSliceAdditionalSpecFns;
use vstd::utf8::{encode_utf8, valid_utf8};

verus! {

/// What `String::from_utf8_lossy` makes of `bytes`: their text, with the
/// replacement character in place of what is not UTF-8.
pub uninterp spec fn lossy_text(bytes: Seq<u8>) -> Seq<char>;

/// `String::from_utf8_lossy`: the text is a function of the bytes, and for
/// bytes that are valid UTF-8 it is the text that they encode.
#[verifier::external_body]
fn utf8_lossy(bytes: &[u8]) -> (s: String)
    ensures
        s@ == lossy_text(bytes@),
        valid_utf8(bytes@) ==> encode_utf8(s@) == bytes@,
{
    String::from_utf8_lossy(bytes).into_owned()
}

/// `String::from_utf8`: the text that the bytes encode when they are valid
/// UTF-8, and nothing when they are not.
#[verifier::external_body]
fn utf8_checked(bytes: &[u8]) -> (r: Option<String>)
    ensures
        match r {
            Some(s) => valid_utf8(bytes@) && encode_utf8(s@) == bytes@,
            None => !valid_utf8(bytes@),
        },
{
    String::from_utf8(bytes.to_vec()).ok()
}

/// Whether every byte is an ASCII character.
pub open spec fn is_ascii_bytes(bytes: Seq<u8>) -> bool {
    forall|i: int| 0 <= i < bytes.len() ==> #[trigger] bytes[i] < 0x80
}

/// ASCII characters are valid UTF-8.
pub proof fn lemma_ascii_is_utf8(bytes: Seq<u8>)
    requires
        is_ascii_bytes(bytes),
    ensures
        valid_utf8(bytes),
    decreases bytes.len(),
{
    if bytes.len() > 0 {
        let b = bytes[0];
        assert(b < 0x80);
        assert((b & 0x7f) as u32 <= 0x7f) by (bit_vector);
        let rest = bytes.subrange(1, bytes.len() as int);
        assert forall|i: int| 0 <= i < rest.len() implies #[trigger] rest[i] < 0x80 by {
            assert(rest[i] == bytes[i + 1]);
        }
        lemma_ascii_is_utf8(rest);
        assert(vstd::utf8::valid_first_scalar(bytes));
        assert(vstd::utf8::pop_first_scalar(bytes) == rest);
    }
}

/// A string as it stands in a save: its bytes, kept as they are, so that
/// writing gives back what was read even where the bytes are not UTF-8.
#[derive(Debug, Clone, PartialEq, Eq, Hash)]
pub struct TableString {
    pub value: Vec<u8>,
}

impl View for TableString {
    type V = Seq<u8>;

    open spec fn view(&self) -> Seq<u8> {
        self.value@
    }
}

/// The wire form of a string: its length as a gamma, then its bytes.
pub open spec fn text_bytes(t: Seq<u8>) -> Seq<u8> {
    gamma_bytes(t.len() as u32) + t
}

/// Number of bytes of the wire form of a string.
pub open spec fn text_len(t: Seq<u8>) -> nat {
    spec_gamma_length(t.len() as u32) + t.len()
}

/// Reading a string from `s` at `pos`.
pub open spec fn spec_parse_text(s: Seq<u8>, pos: int) -> Result<(Seq<u8>, int), Error> {
    match spec_parse_gamma(s, pos) {
        Err(e) => Err(e),
        Ok((n, q)) => spec_take(s, q, n as int),
    }
}

/// The wire form of a string is as long as `text_len` says.
pub proof fn lemma_text_bytes_len(t: Seq<u8>)
    ensures
        text_bytes(t).len() == text_len(t),
        text_len(t) >= 1,
{
}

/// Wherever the wire form of a string of at most `u32::MAX` bytes stands,
/// reading there gives the string back and stops right behind it.
pub proof fn lemma_text_round_trip(s: Seq<u8>, pos: int, t: Seq<u8>)
    requires
        t.len() <= u32::MAX,
        has_at(s, pos, text_bytes(t)),
    ensures
        spec_parse_text(s, pos) == Ok::<(Seq<u8>, int), Error>((t, pos + text_len(t))),
{
    let g = gamma_bytes(t.len() as u32);
    lemma_has_at_split(s, pos, g, t);
    lemma_gamma_parse_at(s, pos, t.len() as u32);
}

impl TableString {
    /// The string with these bytes.
    pub fn new(value: Vec<u8>) -> (r: TableString)
        ensures
            r@ == value@,
    {
        TableString { value }
    }

    /// The string with the bytes of `s`.
    pub fn from_text(s: &str) -> (r: TableString)
        ensures
            r@ == s.spec_bytes(),
    {
        let mut value: Vec<u8> = Vec::new();
        put_bytes(s.as_bytes(), &mut value);
        assert(value@ =~= s.spec_bytes());
        TableString { value }
    }

    /// Number of bytes.
    pub fn len(&self) -> (n: usize)
        ensures
            n == self@.len(),
    {
        self.value.len()
    }

    /// The bytes.
    pub fn as_bytes(&self) -> (b: &[u8])
        ensures
            b@ == self@,
    {
        self.value.as_slice()
    }

    /// A copy.
    pub fn duplicate(&self) -> (r: TableString)
        ensures
            r@ == self@,
    {
        TableString { value: clone_bytes(&self.value) }
    }

    /// Whether the two strings have the same bytes.
    pub fn same_as(&self, other: &TableString) -> (b: bool)
        ensures
            b == (self@ == other@),
    {
        bytes_eq(self.value.as_slice(), other.value.as_slice())
    }

    /// Whether the string has the bytes of `s`.
    pub fn is_text(&self, s: &str) -> (b: bool)
        ensures
            b == (self@ == s.spec_bytes()),
    {
        bytes_eq(self.value.as_slice(), s.as_bytes())
    }

    /// The text, with the replacement character where the bytes are not
    /// UTF-8.
    pub fn to_string_lossy(&self) -> (s: String)
        ensures
            s@ == lossy_text(self@),
            valid_utf8(self@) ==> encode_utf8(s@) == self@,
    {
        utf8_lossy(self.value.as_slice())
    }

    /// The text, when the bytes are UTF-8; `InvalidUtf8` when they are not.
    pub fn to_utf8(&self) -> (r: Result<String, Error>)
        ensures
            match r {
                Ok(s) => valid_utf8(self@) && encode_utf8(s@) == self@,
                Err(e) => !valid_utf8(self@) && e == Error::InvalidUtf8,
            },
    {
        match utf8_checked(self.value.as_slice()) {
            Some(s) => Ok(s),
            None => Err(Error::InvalidUtf8),
        }
    }

    /// Reads a string from `data` at `pos`.
    pub fn read(data: &[u8], pos: usize) -> (res: Result<(TableString, usize), Error>)
        ensures
            agrees(res, spec_parse_text(data@, pos as int)),
            res matches Ok((_, p)) ==> pos < p <= data.len(),
    {
        let (n, q) = match parse_gamma(data, pos) {
            Ok(r) => r,
            Err(e) => {
                return Err(e);
            },
        };
        match take_bytes(data, q, n as usize) {
            Ok((value, p)) => Ok((TableString { value }, p)),
            Err(e) => Err(e),
        }
    }

    /// Appends the wire form to `out`.
    pub fn write(&self, out: &mut Vec<u8>)
        requires
            self@.len() <= u32::MAX,
        ensures
            final(out)@ == old(out)@ + text_bytes(self@),
    {
        write_gamma(self.value.len() as u32, out);
        put_bytes(self.value.as_slice(), out);
        assert(out@ =~= old(out)@ + text_bytes(self@));
    }

    /// Number of bytes of the wire form.
    pub fn byte_len(&self) -> (n: usize)
        requires
            self@.len() <= u32::MAX,
            text_len(self@) <= usize::MAX,
        ensures
            n == text_len(self@),
    {
        gamma_length(self.value.len() as u32) as usize + self.value.len()
    }
}

} // verus!
