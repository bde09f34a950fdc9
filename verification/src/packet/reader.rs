use vstd::prelude::*;
use vstd::slice::slice_to_vec;
use vstd::utf8::{decode_utf8, encode_utf8, valid_utf8};

verus! {

broadcast use vstd::utf8::encode_utf8_decode_utf8;

/// The value of two bytes read as a big-endian 16-bit integer.
pub open spec fn be_u16(hi: u8, lo: u8) -> u16 {
    (hi as nat * 256 + lo as nat) as u16
}

/// Reading one byte from `s`: the byte (or the error) and what is left to read.
pub open spec fn read_u8_from(s: Seq<u8>) -> (Result<u8, &'static str>, Seq<u8>) {
    if s.len() == 0 {
        (Err("Buffer underflow while reading u8"), s)
    } else {
        (Ok(s[0]), s.drop_first())
    }
}

/// Reading a big-endian 16-bit integer from `s`.
pub open spec fn read_u16_from(s: Seq<u8>) -> (Result<u16, &'static str>, Seq<u8>) {
    if s.len() < 2 {
        (Err("Buffer underflow while reading u16"), s)
    } else {
        (Ok(be_u16(s[0], s[1])), s.subrange(2, s.len() as int))
    }
}

/// Reading a length-prefixed UTF-8 string from `s`: a big-endian 16-bit length, then that
/// many bytes, which must be valid UTF-8. On an error after the length was read, the length
/// stays consumed.
pub open spec fn read_string_from(s: Seq<u8>) -> (Result<Seq<char>, &'static str>, Seq<u8>) {
    match read_u16_from(s) {
        (Err(e), r) => (Err(e), r),
        (Ok(n), r) => if r.len() < n {
            (Err("Buffer underflow while reading string"), r)
        } else if !valid_utf8(r.take(n as int)) {
            (Err("Invalid UTF-8 string"), r)
        } else {
            (Ok(decode_utf8(r.take(n as int))), r.skip(n as int))
        },
    }
}

/// Reading a length-prefixed byte string from `s`: a big-endian 16-bit length, then that
/// many bytes.
pub open spec fn read_bytes_from(s: Seq<u8>) -> (Result<Seq<u8>, &'static str>, Seq<u8>) {
    match read_u16_from(s) {
        (Err(e), r) => (Err(e), r),
        (Ok(n), r) => if r.len() < n {
            (Err("Buffer underflow while reading bytes"), r)
        } else {
            (Ok(r.take(n as int)), r.skip(n as int))
        },
    }
}

/// The string that `bytes` holds, when they are valid UTF-8 (`std::str::from_utf8`, which
/// accepts exactly the valid UTF-8 byte sequences and then views the same bytes as text).
#[verifier::external_body]
fn utf8_text(bytes: &[u8]) -> (r: Option<&str>)
    ensures
        r is Some <==> valid_utf8(bytes@),
        r matches Some(s) ==> encode_utf8(s@) == bytes@,
{
    std::str::from_utf8(bytes).ok()
}

/// A cursor over a byte slice that reads the fields of a packet body in order.
pub struct BufferReader<'a> {
    slice: &'a [u8],
}

impl<'a> View for BufferReader<'a> {
    type V = Seq<u8>;

    /// The bytes that are left to read.
    closed spec fn view(&self) -> Seq<u8> {
        self.slice@
    }
}

impl<'a> BufferReader<'a> {
    /// A reader over all of `slice`.
    pub fn new(slice: &'a [u8]) -> (r: Self)
        ensures
            r@ == slice@,
    {
        Self { slice }
    }

    /// Whether nothing is left to read.
    pub fn is_empty(&self) -> (r: bool)
        ensures
            r == (self@.len() == 0),
    {
        self.slice.is_empty()
    }

    /// How many bytes are left to read.
    pub fn len(&self) -> (r: usize)
        ensures
            r == self@.len(),
    {
        self.slice.len()
    }

    /// Reads one byte.
    pub fn read_u8(&mut self) -> (r: Result<u8, &'static str>)
        ensures
            (r, final(self)@) == read_u8_from(old(self)@),
    {
        if self.slice.is_empty() {
            return Err("Buffer underflow while reading u8");
        }
        let byte = self.slice[0];
        let (_, rest) = self.slice.split_at(1);
        self.slice = rest;
        assert(self.slice@ =~= old(self)@.drop_first());
        Ok(byte)
    }

    /// Reads a big-endian 16-bit integer.
    pub fn read_u16(&mut self) -> (r: Result<u16, &'static str>)
        ensures
            (r, final(self)@) == read_u16_from(old(self)@),
    {
        if self.slice.len() < 2 {
            return Err("Buffer underflow while reading u16");
        }
        let value = (self.slice[0] as u16) * 256 + (self.slice[1] as u16);
        let (_, rest) = self.slice.split_at(2);
        self.slice = rest;
        Ok(value)
    }

    /// Reads a length-prefixed UTF-8 string.
    pub fn read_string(&mut self) -> (r: Result<String, &'static str>)
        ensures
            r is Ok <==> read_string_from(old(self)@).0 is Ok,
            r matches Ok(s) ==> read_string_from(old(self)@).0 == Ok::<Seq<char>, &'static str>(s@),
            r matches Err(e) ==> read_string_from(old(self)@).0 == Err::<Seq<char>, &'static str>(e),
            final(self)@ == read_string_from(old(self)@).1,
    {
        let len = self.read_u16()? as usize;
        if self.slice.len() < len {
            return Err("Buffer underflow while reading string");
        }
        let (text, rest) = self.slice.split_at(len);
        assert(text@ =~= self@.take(len as int));
        let s = match utf8_text(text) {
            Some(t) => t.to_owned(),
            None => return Err("Invalid UTF-8 string"),
        };
        self.slice = rest;
        assert(rest@ =~= old(self)@.subrange(2, old(self)@.len() as int).skip(len as int));
        Ok(s)
    }

    /// Reads a length-prefixed byte string.
    pub fn read_bytes(&mut self) -> (r: Result<Vec<u8>, &'static str>)
        ensures
            r is Ok <==> read_bytes_from(old(self)@).0 is Ok,
            r matches Ok(v) ==> read_bytes_from(old(self)@).0 == Ok::<Seq<u8>, &'static str>(v@),
            r matches Err(e) ==> read_bytes_from(old(self)@).0 == Err::<Seq<u8>, &'static str>(e),
            final(self)@ == read_bytes_from(old(self)@).1,
    {
        let len = self.read_u16()? as usize;
        if self.slice.len() < len {
            return Err("Buffer underflow while reading bytes");
        }
        let (data, rest) = self.slice.split_at(len);
        let vec = slice_to_vec(data);
        self.slice = rest;
        assert(vec@ =~= old(self)@.subrange(2, old(self)@.len() as int).take(len as int));
        assert(rest@ =~= old(self)@.subrange(2, old(self)@.len() as int).skip(len as int));
        Ok(vec)
    }

    /// Reads everything that is left.
    pub fn read_remaining(&mut self) -> (r: Vec<u8>)
        ensures
            r@ == old(self)@,
            final(self)@.len() == 0,
    {
        let vec = slice_to_vec(self.slice);
        let (_, rest) = self.slice.split_at(self.slice.len());
        self.slice = rest;
        vec
    }
}

} // verus!
