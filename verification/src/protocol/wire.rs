//! Little-endian message encoding shared by every Soulseek message family.
//!
//! Integers are little-endian, strings and byte blobs carry a 32-bit length
//! prefix.  Strings are read as UTF-8 and, when the bytes are not valid
//! UTF-8, as Latin-1 (the encoding of legacy clients).
use vstd::prelude::*;
use vstd::utf8::*;

verus! {

broadcast use vstd::seq::group_seq_axioms;

// ---------------------------------------------------------------------
// Integers as byte sequences
// ---------------------------------------------------------------------

/// Value of a little-endian byte sequence.
pub open spec fn le_value(bytes: Seq<u8>) -> nat
    decreases bytes.len(),
{
    if bytes.len() == 0 {
        0
    } else {
        bytes[0] as nat + 256 * le_value(bytes.drop_first())
    }
}

/// The `n` lowest little-endian bytes of `value`.
pub open spec fn le_bytes(value: nat, n: nat) -> Seq<u8>
    decreases n,
{
    if n == 0 {
        Seq::empty()
    } else {
        seq![(value % 256) as u8].add(le_bytes(value / 256, (n - 1) as nat))
    }
}

/// `256` to the power `n`.
pub open spec fn byte_pow(n: nat) -> nat
    decreases n,
{
    if n == 0 {
        1
    } else {
        256 * byte_pow((n - 1) as nat)
    }
}

pub proof fn lemma_le_bytes_len(value: nat, n: nat)
    ensures
        le_bytes(value, n).len() == n,
    decreases n,
{
    if n > 0 {
        lemma_le_bytes_len(value / 256, (n - 1) as nat);
    }
}

pub proof fn lemma_byte_pow_positive(n: nat)
    ensures
        byte_pow(n) >= 1,
    decreases n,
{
    if n > 0 {
        lemma_byte_pow_positive((n - 1) as nat);
    }
}

/// Encoding `n` bytes and decoding them again keeps the value modulo `256^n`.
pub proof fn lemma_le_value_of_bytes(value: nat, n: nat)
    ensures
        le_value(le_bytes(value, n)) == value % byte_pow(n),
    decreases n,
{
    lemma_le_bytes_len(value, n);
    if n == 0 {
        assert(le_bytes(value, n) =~= Seq::<u8>::empty());
    } else {
        let rest = le_bytes(value / 256, (n - 1) as nat);
        let bytes = le_bytes(value, n);
        assert(bytes.drop_first() =~= rest);
        lemma_le_value_of_bytes(value / 256, (n - 1) as nat);
        lemma_byte_pow_positive((n - 1) as nat);
        let p = byte_pow((n - 1) as nat);
        assert(value % (256 * p) == 256 * ((value / 256) % p) + value % 256) by {
            vstd::arithmetic::div_mod::lemma_mod_breakdown(value as int, 256, p as int);
            vstd::arithmetic::mul::lemma_mul_is_commutative(256, p as int);
        }
    }
}

/// A little-endian sequence of `n` bytes holds a value below `256^n`.
pub proof fn lemma_le_value_bound(bytes: Seq<u8>)
    ensures
        le_value(bytes) < byte_pow(bytes.len()),
    decreases bytes.len(),
{
    if bytes.len() > 0 {
        lemma_le_value_bound(bytes.drop_first());
    }
}

/// Decoding a byte sequence and encoding the value again gives the same bytes.
pub proof fn lemma_le_bytes_of_value(bytes: Seq<u8>)
    ensures
        le_bytes(le_value(bytes), bytes.len()) == bytes,
    decreases bytes.len(),
{
    if bytes.len() == 0 {
        assert(le_bytes(0, 0) =~= bytes);
    } else {
        let rest = bytes.drop_first();
        lemma_le_bytes_of_value(rest);
        let v = le_value(bytes);
        assert(v == bytes[0] as nat + 256 * le_value(rest));
        assert(v % 256 == bytes[0] as nat && v / 256 == le_value(rest)) by {
            vstd::arithmetic::div_mod::lemma_fundamental_div_mod_converse(
                v as int,
                256,
                le_value(rest) as int,
                bytes[0] as int,
            );
        }
        assert(le_bytes(v, bytes.len()) =~= bytes);
    }
}

pub proof fn lemma_byte_pow_values()
    ensures
        byte_pow(1) == 0x100,
        byte_pow(2) == 0x1_0000,
        byte_pow(4) == 0x1_0000_0000,
        byte_pow(8) == 0x1_0000_0000_0000_0000,
{
    reveal_with_fuel(byte_pow, 9);
}

// ---------------------------------------------------------------------
// Text
// ---------------------------------------------------------------------

/// Latin-1 reading of bytes: each byte is the character with that code.
pub open spec fn latin1_chars(bytes: Seq<u8>) -> Seq<char> {
    bytes.map_values(|b: u8| b as char)
}

/// Text carried by the bytes of a protocol string: UTF-8 where the bytes
/// are valid UTF-8, Latin-1 (legacy clients) otherwise.
pub open spec fn wire_text(bytes: Seq<u8>) -> Seq<char> {
    if valid_utf8(bytes) {
        decode_utf8(bytes)
    } else {
        latin1_chars(bytes)
    }
}

/// Every character of the text has a code of at most 0xFF.
pub open spec fn latin1_encodable(text: Seq<char>) -> bool {
    forall|i: int| 0 <= i < text.len() ==> (#[trigger] text[i]) as u32 <= 0xFF
}

/// Bytes of a string in the encoding used for legacy clients: Latin-1 where
/// every character fits, UTF-8 otherwise.
pub open spec fn legacy_bytes(text: Seq<char>) -> Seq<u8> {
    if latin1_encodable(text) {
        text.map_values(|c: char| c as u8)
    } else {
        encode_utf8(text)
    }
}

/// A blob with its 32-bit length prefix.
pub open spec fn framed_blob(content: Seq<u8>) -> Seq<u8> {
    le_bytes((content.len() as u32) as nat, 4) + content
}

/// A string as it stands on the wire: length prefix and UTF-8 bytes.
pub open spec fn framed_text(text: Seq<char>) -> Seq<u8> {
    framed_blob(encode_utf8(text))
}

// ---------------------------------------------------------------------
// Errors
// ---------------------------------------------------------------------

#[verifier::external_type_specification]
#[verifier::external_body]
pub struct ExIoError(std::io::Error);

/// What can go wrong while decoding a message.
#[derive(Debug)]
pub enum ProtocolError {
    UnexpectedEof { offset: usize, needed: usize, available: usize },
    UnknownMessageCode { family: &'static str, code: u32 },
    Decompress(std::io::Error),
    DecompressedTooLarge { limit: usize },
    TooManyEntries { what: &'static str, count: usize, limit: usize },
    InvalidValue { field: &'static str, value: u64 },
    InvalidConnectionType { value: String },
}

/// The error of a read of `needed` bytes at `pos` in `data`.
pub open spec fn eof_error(data: Seq<u8>, pos: int, needed: int) -> ProtocolError {
    ProtocolError::UnexpectedEof {
        offset: pos as usize,
        needed: needed as usize,
        available: data.len() as usize,
    }
}

// ---------------------------------------------------------------------
// Reading, as functions of the buffer and a position
// ---------------------------------------------------------------------

/// Outcome of decoding at a position: the value and the position after it,
/// or the error and the position at which reading stopped.
pub type Decoded<T> = Result<(T, int), (ProtocolError, int)>;

pub open spec fn sp_take(data: Seq<u8>, pos: int, n: int) -> Decoded<Seq<u8>> {
    if pos + n <= data.len() {
        Ok((data.subrange(pos, pos + n), pos + n))
    } else {
        Err((eof_error(data, pos, n), pos))
    }
}

#[verifier::opaque]
pub open spec fn sp_u8(data: Seq<u8>, pos: int) -> Decoded<u8> {
    match sp_take(data, pos, 1) {
        Ok((b, q)) => Ok((b[0], q)),
        Err(e) => Err(e),
    }
}

#[verifier::opaque]
pub open spec fn sp_bool(data: Seq<u8>, pos: int) -> Decoded<bool> {
    match sp_u8(data, pos) {
        Ok((b, q)) => Ok((b != 0, q)),
        Err(e) => Err(e),
    }
}

#[verifier::opaque]
pub open spec fn sp_u16(data: Seq<u8>, pos: int) -> Decoded<u16> {
    match sp_take(data, pos, 2) {
        Ok((b, q)) => Ok((le_value(b) as u16, q)),
        Err(e) => Err(e),
    }
}

/// A 16-bit number in a 32-bit field: the value of the first two of four bytes.
#[verifier::opaque]
pub open spec fn sp_u16_padded(data: Seq<u8>, pos: int) -> Decoded<u16> {
    match sp_take(data, pos, 4) {
        Ok((b, q)) => Ok((le_value(b.subrange(0, 2)) as u16, q)),
        Err(e) => Err(e),
    }
}

#[verifier::opaque]
pub open spec fn sp_u32(data: Seq<u8>, pos: int) -> Decoded<u32> {
    match sp_take(data, pos, 4) {
        Ok((b, q)) => Ok((le_value(b) as u32, q)),
        Err(e) => Err(e),
    }
}

#[verifier::opaque]
pub open spec fn sp_i32(data: Seq<u8>, pos: int) -> Decoded<i32> {
    match sp_take(data, pos, 4) {
        Ok((b, q)) => Ok((le_value(b) as i32, q)),
        Err(e) => Err(e),
    }
}

#[verifier::opaque]
pub open spec fn sp_u64(data: Seq<u8>, pos: int) -> Decoded<u64> {
    match sp_take(data, pos, 8) {
        Ok((b, q)) => Ok((le_value(b) as u64, q)),
        Err(e) => Err(e),
    }
}

/// A file size: eight bytes, of which only the low four count when the
/// last byte is 255 (a sign-extended 32-bit size from old clients).
#[verifier::opaque]
pub open spec fn sp_file_size(data: Seq<u8>, pos: int) -> Decoded<u64> {
    match sp_take(data, pos, 8) {
        Ok((b, q)) => Ok(
            (
                if b[7] == 255 {
                    le_value(b.subrange(0, 4)) as u64
                } else {
                    le_value(b) as u64
                },
                q,
            ),
        ),
        Err(e) => Err(e),
    }
}

#[verifier::opaque]
pub open spec fn sp_bytes(data: Seq<u8>, pos: int) -> Decoded<Seq<u8>> {
    match sp_u32(data, pos) {
        Ok((n, q)) => sp_take(data, q, n as int),
        Err(e) => Err(e),
    }
}

#[verifier::opaque]
pub open spec fn sp_string(data: Seq<u8>, pos: int) -> Decoded<Seq<char>> {
    match sp_bytes(data, pos) {
        Ok((b, q)) => Ok((wire_text(b), q)),
        Err(e) => Err(e),
    }
}

/// Encodings of strings, one after another.
pub open spec fn framed_texts(list: Seq<Seq<char>>) -> Seq<u8>
    decreases list.len(),
{
    if list.len() == 0 {
        Seq::empty()
    } else {
        framed_text(list[0]) + framed_texts(list.drop_first())
    }
}

/// A list of strings: its 32-bit count, then the strings.
pub open spec fn framed_text_list(list: Seq<Seq<char>>) -> Seq<u8> {
    le_bytes((list.len() as u32) as nat, 4) + framed_texts(list)
}

/// The characters of each string.
pub open spec fn strings_view(v: Seq<String>) -> Seq<Seq<char>> {
    v.map_values(|s: String| s@)
}

/// Reads `n` strings, appending them to `acc`.
pub open spec fn sp_texts_from(data: Seq<u8>, pos: int, n: nat, acc: Seq<Seq<char>>) -> Decoded<
    Seq<Seq<char>>,
>
    decreases n,
{
    if n == 0 {
        Ok((acc, pos))
    } else {
        match sp_string(data, pos) {
            Ok((s, q)) => sp_texts_from(data, q, (n - 1) as nat, acc.push(s)),
            Err(e) => Err(e),
        }
    }
}

/// A list of strings: a 32-bit count, then that many strings.
pub open spec fn sp_text_list(data: Seq<u8>, pos: int) -> Decoded<Seq<Seq<char>>> {
    match sp_u32(data, pos) {
        Ok((n, q)) => sp_texts_from(data, q, n as nat, Seq::empty()),
        Err(e) => Err(e),
    }
}

/// `res` and the reader position `after` are what `step` describes.
pub open spec fn reads<T>(res: Result<T, ProtocolError>, step: Decoded<T>, after: int) -> bool {
    match step {
        Ok((v, q)) => res == Ok::<T, ProtocolError>(v) && after == q,
        Err((e, q)) => res == Err::<T, ProtocolError>(e) && after == q,
    }
}

/// As `reads`, for a string result compared by its characters.
pub open spec fn reads_text(
    res: Result<String, ProtocolError>,
    step: Decoded<Seq<char>>,
    after: int,
) -> bool {
    match step {
        Ok((v, q)) => (res matches Ok(s) && s@ == v) && after == q,
        Err((e, q)) => res == Err::<String, ProtocolError>(e) && after == q,
    }
}

/// As `reads`, for a byte vector compared by its contents.
pub open spec fn reads_blob(
    res: Result<Vec<u8>, ProtocolError>,
    step: Decoded<Seq<u8>>,
    after: int,
) -> bool {
    match step {
        Ok((v, q)) => (res matches Ok(s) && s@ == v) && after == q,
        Err((e, q)) => res == Err::<Vec<u8>, ProtocolError>(e) && after == q,
    }
}

// ---------------------------------------------------------------------
// Calls into std
// ---------------------------------------------------------------------

/// `std::str::from_utf8`, with its error dropped: the bytes as a `str`
/// exactly when they are valid UTF-8 (the documented behaviour), with the
/// characters that the UTF-8 decoding of the bytes gives.
#[verifier::external_body]
fn utf8_str(bytes: &[u8]) -> (res: Option<&str>)
    ensures
        res is Some <==> valid_utf8(bytes@),
        res matches Some(s) ==> s@ == decode_utf8(bytes@),
{
    std::str::from_utf8(bytes).ok()
}

/// `String::push`: appends one character.
#[verifier::external_body]
pub(crate) fn push_char(text: &mut String, c: char)
    ensures
        final(text)@ == old(text)@.push(c),
{
    text.push(c)
}

/// Latin-1 decoding, for strings of legacy clients that are not UTF-8.
pub fn decode_legacy_latin1(content: &[u8]) -> (text: String)
    ensures
        text@ == latin1_chars(content@),
{
    let mut text = String::new();
    let mut i: usize = 0;
    while i < content.len()
        invariant
            i <= content@.len(),
            text@ == latin1_chars(content@.subrange(0, i as int)),
        decreases content@.len() - i,
    {
        let b = content[i];
        push_char(&mut text, b as char);
        proof {
            assert(latin1_chars(content@.subrange(0, i + 1)) =~= latin1_chars(
                content@.subrange(0, i as int),
            ).push(b as char));
        }
        i = i + 1;
    }
    proof {
        assert(content@.subrange(0, i as int) =~= content@);
    }
    text
}

// ---------------------------------------------------------------------
// Reader
// ---------------------------------------------------------------------

/// Sequential reader over the payload of one message.
pub struct MessageReader<'a> {
    buf: &'a [u8],
    offset: usize,
}

impl<'a> MessageReader<'a> {
    /// The bytes being read.
    pub closed spec fn data(&self) -> Seq<u8> {
        self.buf@
    }

    /// The position of the next byte to read.
    pub closed spec fn pos(&self) -> int {
        self.offset as int
    }

    /// The position lies within the bytes, which fit in memory.
    pub open spec fn wf(&self) -> bool {
        0 <= self.pos() <= self.data().len() && self.data().len() <= usize::MAX
    }

    pub fn new(buf: &'a [u8]) -> (r: Self)
        ensures
            r.data() == buf@,
            r.pos() == 0,
            r.wf(),
    {
        assert(buf@.len() == buf.len());
        Self { buf, offset: 0 }
    }

    fn take(&mut self, len: usize) -> (res: Result<&'a [u8], ProtocolError>)
        requires
            old(self).wf(),
        ensures
            final(self).wf(),
            final(self).data() == old(self).data(),
            match sp_take(old(self).data(), old(self).pos(), len as int) {
                Ok((b, q)) => (res matches Ok(s) && s@ == b) && final(self).pos() == q,
                Err((e, q)) => res == Err::<&'a [u8], ProtocolError>(e) && final(self).pos() == q,
            },
    {
        if len <= self.buf.len() - self.offset {
            let end = self.offset + len;
            let slice = &self.buf[self.offset..end];
            self.offset = end;
            Ok(slice)
        } else {
            Err(
                ProtocolError::UnexpectedEof {
                    offset: self.offset,
                    needed: len,
                    available: self.buf.len(),
                },
            )
        }
    }

    pub fn has_remaining(&self) -> (b: bool)
        requires
            self.wf(),
        ensures
            b == (self.pos() < self.data().len()),
    {
        self.offset < self.buf.len()
    }

    pub fn remaining(&self) -> (n: usize)
        requires
            self.wf(),
        ensures
            n == self.data().len() - self.pos(),
    {
        self.buf.len() - self.offset
    }

    pub fn rest(&mut self) -> (slice: &'a [u8])
        requires
            old(self).wf(),
        ensures
            final(self).wf(),
            final(self).data() == old(self).data(),
            slice@ == old(self).data().subrange(old(self).pos(), old(self).data().len() as int),
            final(self).pos() == old(self).data().len(),
    {
        let slice = &self.buf[self.offset..self.buf.len()];
        self.offset = self.buf.len();
        slice
    }

    pub fn skip(&mut self, len: usize) -> (res: Result<(), ProtocolError>)
        requires
            old(self).wf(),
        ensures
            final(self).wf(),
            final(self).data() == old(self).data(),
            match sp_take(old(self).data(), old(self).pos(), len as int) {
                Ok((_, q)) => res is Ok && final(self).pos() == q,
                Err((e, q)) => res == Err::<(), ProtocolError>(e) && final(self).pos() == q,
            },
    {
        match self.take(len) {
            Ok(_) => Ok(()),
            Err(e) => Err(e),
        }
    }

    pub fn read_u8(&mut self) -> (res: Result<u8, ProtocolError>)
        requires
            old(self).wf(),
        ensures
            final(self).wf(),
            final(self).data() == old(self).data(),
            reads(res, sp_u8(old(self).data(), old(self).pos()), final(self).pos()),
    {
        proof {
            reveal(sp_u8);
        }
        let b = self.take(1)?;
        Ok(b[0])
    }

    pub fn read_bool(&mut self) -> (res: Result<bool, ProtocolError>)
        requires
            old(self).wf(),
        ensures
            final(self).wf(),
            final(self).data() == old(self).data(),
            reads(res, sp_bool(old(self).data(), old(self).pos()), final(self).pos()),
    {
        proof {
            reveal(sp_bool);
        }
        let b = self.read_u8()?;
        Ok(b != 0)
    }

    pub fn read_u16(&mut self) -> (res: Result<u16, ProtocolError>)
        requires
            old(self).wf(),
        ensures
            final(self).wf(),
            final(self).data() == old(self).data(),
            reads(res, sp_u16(old(self).data(), old(self).pos()), final(self).pos()),
    {
        proof {
            reveal(sp_u16);
        }
        let b = self.take(2)?;
        proof {
            reveal_with_fuel(le_value, 3);
            assert(b@.drop_first().drop_first() =~= Seq::<u8>::empty());
        }
        let v: u16 = (b[0] as u16) + 256 * (b[1] as u16);
        Ok(v)
    }

    /// A 16-bit number sent in a 32-bit field: four bytes are consumed and
    /// the number is in the first two.
    pub fn read_u16_padded(&mut self) -> (res: Result<u16, ProtocolError>)
        requires
            old(self).wf(),
        ensures
            final(self).wf(),
            final(self).data() == old(self).data(),
            reads(res, sp_u16_padded(old(self).data(), old(self).pos()), final(self).pos()),
    {
        proof {
            reveal(sp_u16_padded);
        }
        let b = self.take(4)?;
        proof {
            reveal_with_fuel(le_value, 3);
            let low = b@.subrange(0, 2);
            assert(low.drop_first().drop_first() =~= Seq::<u8>::empty());
            assert(low[0] == b@[0] && low[1] == b@[1]);
            assert(low.drop_first()[0] == b@[1]);
        }
        let v: u16 = (b[0] as u16) + 256 * (b[1] as u16);
        Ok(v)
    }

    pub fn read_u32(&mut self) -> (res: Result<u32, ProtocolError>)
        requires
            old(self).wf(),
        ensures
            final(self).wf(),
            final(self).data() == old(self).data(),
            reads(res, sp_u32(old(self).data(), old(self).pos()), final(self).pos()),
    {
        proof {
            reveal(sp_u32);
        }
        let b = self.take(4)?;
        let v: u32 = (b[0] as u32) + 256 * ((b[1] as u32) + 256 * ((b[2] as u32) + 256 * (
        b[3] as u32)));
        proof {
            lemma_le4(b@);
        }
        Ok(v)
    }

    pub fn read_i32(&mut self) -> (res: Result<i32, ProtocolError>)
        requires
            old(self).wf(),
        ensures
            final(self).wf(),
            final(self).data() == old(self).data(),
            reads(res, sp_i32(old(self).data(), old(self).pos()), final(self).pos()),
    {
        proof {
            reveal(sp_i32);
        }
        let b = self.take(4)?;
        let v: u32 = (b[0] as u32) + 256 * ((b[1] as u32) + 256 * ((b[2] as u32) + 256 * (
        b[3] as u32)));
        proof {
            lemma_le4(b@);
        }
        Ok(v as i32)
    }

    pub fn read_u64(&mut self) -> (res: Result<u64, ProtocolError>)
        requires
            old(self).wf(),
        ensures
            final(self).wf(),
            final(self).data() == old(self).data(),
            reads(res, sp_u64(old(self).data(), old(self).pos()), final(self).pos()),
    {
        proof {
            reveal(sp_u64);
        }
        let b = self.take(8)?;
        let v = le8(b);
        Ok(v)
    }

    /// An IPv4 address, sent as a little-endian 32-bit number.
    pub fn read_ip(&mut self) -> (res: Result<u32, ProtocolError>)
        requires
            old(self).wf(),
        ensures
            final(self).wf(),
            final(self).data() == old(self).data(),
            reads(res, sp_u32(old(self).data(), old(self).pos()), final(self).pos()),
    {
        self.read_u32()
    }

    pub fn read_bytes(&mut self) -> (res: Result<Vec<u8>, ProtocolError>)
        requires
            old(self).wf(),
        ensures
            final(self).wf(),
            final(self).data() == old(self).data(),
            reads_blob(res, sp_bytes(old(self).data(), old(self).pos()), final(self).pos()),
    {
        proof {
            reveal(sp_bytes);
        }
        let len = self.read_u32()?;
        let content = self.take(len as usize)?;
        Ok(vstd::slice::slice_to_vec(content))
    }

    pub fn read_string(&mut self) -> (res: Result<String, ProtocolError>)
        requires
            old(self).wf(),
        ensures
            final(self).wf(),
            final(self).data() == old(self).data(),
            reads_text(res, sp_string(old(self).data(), old(self).pos()), final(self).pos()),
    {
        proof {
            reveal(sp_string);
            reveal(sp_bytes);
        }
        let len = self.read_u32()?;
        let content = self.take(len as usize)?;
        match utf8_str(content) {
            Some(s) => Ok(s.to_owned()),
            None => Ok(decode_legacy_latin1(content)),
        }
    }

    /// A list of strings: a 32-bit count, then that many strings.
    pub fn read_string_list(&mut self) -> (res: Result<Vec<String>, ProtocolError>)
        requires
            old(self).wf(),
        ensures
            final(self).wf(),
            final(self).data() == old(self).data(),
            match sp_text_list(old(self).data(), old(self).pos()) {
                Ok((v, q)) => (res matches Ok(items) && strings_view(items@) == v)
                    && final(self).pos() == q,
                Err((e, q)) => res == Err::<Vec<String>, ProtocolError>(e) && final(self).pos() == q,
            },
    {
        let num = self.read_u32()?;
        let mut items: Vec<String> = Vec::new();
        let mut i: u32 = 0;
        proof {
            assert(strings_view(items@) =~= Seq::<Seq<char>>::empty());
        }
        while i < num
            invariant
                self.wf(),
                self.data() == old(self).data(),
                i <= num,
                sp_text_list(old(self).data(), old(self).pos()) == sp_texts_from(
                    self.data(),
                    self.pos(),
                    (num - i) as nat,
                    strings_view(items@),
                ),
            decreases num - i,
        {
            let ghost before = strings_view(items@);
            let item = self.read_string()?;
            items.push(item);
            proof {
                assert(strings_view(items@) =~= before.push(item@));
            }
            i = i + 1;
        }
        Ok(items)
    }

    pub fn read_file_size(&mut self) -> (res: Result<u64, ProtocolError>)
        requires
            old(self).wf(),
        ensures
            final(self).wf(),
            final(self).data() == old(self).data(),
            reads(res, sp_file_size(old(self).data(), old(self).pos()), final(self).pos()),
    {
        proof {
            reveal(sp_file_size);
        }
        let size_bytes = self.take(8)?;
        if size_bytes[7] == 255 {
            let v: u32 = (size_bytes[0] as u32) + 256 * ((size_bytes[1] as u32) + 256 * ((
            size_bytes[2] as u32) + 256 * (size_bytes[3] as u32)));
            proof {
                lemma_le4(size_bytes@.subrange(0, 4));
            }
            Ok(v as u64)
        } else {
            Ok(le8(size_bytes))
        }
    }
}

proof fn lemma_le4(b: Seq<u8>)
    requires
        b.len() == 4,
    ensures
        le_value(b) == b[0] as nat + 256 * (b[1] as nat + 256 * (b[2] as nat + 256 * b[3] as nat)),
        le_value(b) < 0x1_0000_0000,
{
    reveal_with_fuel(le_value, 5);
    assert(b.drop_first().drop_first().drop_first().drop_first() =~= Seq::<u8>::empty());
}

proof fn lemma_le8(b: Seq<u8>)
    requires
        b.len() == 8,
    ensures
        le_value(b) == b[0] as nat + 256 * (b[1] as nat + 256 * (b[2] as nat + 256 * (b[3] as nat
            + 256 * (b[4] as nat + 256 * (b[5] as nat + 256 * (b[6] as nat + 256 * b[7] as nat)))))),
        le_value(b) < 0x1_0000_0000_0000_0000,
{
    reveal_with_fuel(le_value, 9);
    assert(b.drop_first().drop_first().drop_first().drop_first().drop_first().drop_first().drop_first().drop_first()
        =~= Seq::<u8>::empty());
}

fn le8(b: &[u8]) -> (v: u64)
    requires
        b@.len() == 8,
    ensures
        v == le_value(b@),
{
    proof {
        lemma_le8(b@);
    }
    (b[0] as u64) + 256 * ((b[1] as u64) + 256 * ((b[2] as u64) + 256 * ((b[3] as u64) + 256 * ((
    b[4] as u64) + 256 * ((b[5] as u64) + 256 * ((b[6] as u64) + 256 * (b[7] as u64)))))))
}


/// The characters of a string, in order.
pub fn chars_of(text: &str) -> (chars: Vec<char>)
    ensures
        chars@ == text@,
{
    let mut chars: Vec<char> = Vec::new();
    for c in it: text.chars()
        invariant
            it.seq() == text@,
            chars@ == it.seq().take(it.index() as int),
        ensures
            chars@ == text@,
    {
        chars.push(c);
        proof {
            assert(it.seq().take(it.index() + 1) =~= it.seq().take(it.index() as int).push(c));
        }
    }
    chars
}


/// Appends the `n` lowest little-endian bytes of `value`.
fn push_le(buf: &mut Vec<u8>, value: u64, n: usize)
    ensures
        final(buf)@ == old(buf)@ + le_bytes(value as nat, n as nat),
{
    let ghost start = buf@;
    let mut cur = value;
    let mut i: usize = 0;
    while i < n
        invariant
            i <= n,
            buf@ + le_bytes(cur as nat, (n - i) as nat) == start + le_bytes(value as nat, n as nat),
        decreases n - i,
    {
        let ghost before = buf@;
        let ghost k = (n - i) as nat;
        buf.push((cur % 256) as u8);
        proof {
            assert(le_bytes(cur as nat, k) == seq![((cur as nat) % 256) as u8].add(
                le_bytes((cur as nat) / 256, (k - 1) as nat),
            ));
            assert(buf@ + le_bytes((cur / 256) as nat, (k - 1) as nat) =~= before + le_bytes(
                cur as nat,
                k,
            ));
        }
        cur = cur / 256;
        i = i + 1;
    }
    proof {
        assert(buf@ + le_bytes(cur as nat, 0) =~= buf@);
    }
}

/// Builder of one message payload.
pub struct MessageWriter {
    buf: Vec<u8>,
}

impl View for MessageWriter {
    type V = Seq<u8>;

    closed spec fn view(&self) -> Seq<u8> {
        self.buf@
    }
}

impl Default for MessageWriter {
    fn default() -> (w: Self)
        ensures
            w@ == Seq::<u8>::empty(),
    {
        Self { buf: Vec::new() }
    }
}

impl MessageWriter {
    pub fn new() -> (w: Self)
        ensures
            w@ == Seq::<u8>::empty(),
    {
        Self::default()
    }

    pub fn into_bytes(self) -> (bytes: Vec<u8>)
        ensures
            bytes@ == self@,
    {
        self.buf
    }

    pub fn write_u8(&mut self, value: u8)
        ensures
            final(self)@ == old(self)@.push(value),
    {
        self.buf.push(value);
    }

    pub fn write_bool(&mut self, value: bool)
        ensures
            final(self)@ == old(self)@.push(if value { 1u8 } else { 0u8 }),
    {
        self.buf.push(if value { 1u8 } else { 0u8 });
    }

    pub fn write_u16(&mut self, value: u16)
        ensures
            final(self)@ == old(self)@ + le_bytes(value as nat, 2),
    {
        push_le(&mut self.buf, value as u64, 2);
    }

    pub fn write_u32(&mut self, value: u32)
        ensures
            final(self)@ == old(self)@ + le_bytes(value as nat, 4),
    {
        push_le(&mut self.buf, value as u64, 4);
    }

    /// Two's complement: the bytes of the same bits read as unsigned.
    pub fn write_i32(&mut self, value: i32)
        ensures
            final(self)@ == old(self)@ + le_bytes((value as u32) as nat, 4),
    {
        push_le(&mut self.buf, (value as u32) as u64, 4);
    }

    pub fn write_u64(&mut self, value: u64)
        ensures
            final(self)@ == old(self)@ + le_bytes(value as nat, 8),
    {
        push_le(&mut self.buf, value, 8);
    }

    /// An IPv4 address, as the little-endian 32-bit number of its bits.
    pub fn write_ip(&mut self, value: u32)
        ensures
            final(self)@ == old(self)@ + le_bytes(value as nat, 4),
    {
        self.write_u32(value);
    }

    /// A blob with its 32-bit length prefix (the length is cut to 32 bits).
    pub fn write_bytes(&mut self, content: &[u8])
        ensures
            final(self)@ == old(self)@ + framed_blob(content@),
    {
        self.write_u32(content.len() as u32);
        self.buf.extend_from_slice(content);
        proof {
            assert(final(self)@ =~= old(self)@ + framed_blob(content@));
        }
    }

    /// A string: its UTF-8 bytes with their length prefix.
    pub fn write_string(&mut self, content: &str)
        ensures
            final(self)@ == old(self)@ + framed_text(content@),
    {
        self.write_bytes(content.as_bytes());
    }

    /// A string for a legacy client: Latin-1 where every character fits,
    /// UTF-8 otherwise.
    pub fn write_string_legacy(&mut self, content: &str)
        ensures
            final(self)@ == old(self)@ + framed_blob(legacy_bytes(content@)),
    {
        let chars = chars_of(content);
        let mut fits = true;
        let mut i: usize = 0;
        while i < chars.len()
            invariant
                i <= chars@.len(),
                fits == forall|j: int| 0 <= j < i ==> (#[trigger] chars@[j]) as u32 <= 0xFF,
            decreases chars@.len() - i,
        {
            if (chars[i] as u32) > 0xFF {
                fits = false;
            }
            i = i + 1;
        }
        if fits {
            let mut encoded: Vec<u8> = Vec::new();
            let mut k: usize = 0;
            while k < chars.len()
                invariant
                    k <= chars@.len(),
                    encoded@ =~= chars@.subrange(0, k as int).map_values(|c: char| c as u8),
                decreases chars@.len() - k,
            {
                encoded.push(chars[k] as u8);
                k = k + 1;
            }
            proof {
                assert(chars@.subrange(0, k as int) =~= content@);
            }
            self.write_bytes(encoded.as_slice());
        } else {
            self.write_bytes(content.as_bytes());
        }
    }

    pub fn write_raw(&mut self, content: &[u8])
        ensures
            final(self)@ == old(self)@ + content@,
    {
        self.buf.extend_from_slice(content);
    }
}


// ---------------------------------------------------------------------
// Round trips: what a write puts down, a read at the same place gives back
// ---------------------------------------------------------------------

/// Reading `n` bytes where the `n`-byte encoding of `value` stands gives
/// back `value`, when it fits in `n` bytes.
pub proof fn lemma_read_le(data: Seq<u8>, pos: int, value: nat, n: nat)
    requires
        0 <= pos,
        pos + n <= data.len(),
        data.subrange(pos, pos + n) == le_bytes(value, n),
        value < byte_pow(n),
    ensures
        sp_take(data, pos, n as int) == Decoded::<Seq<u8>>::Ok((le_bytes(value, n), pos + n)),
        le_value(le_bytes(value, n)) == value,
{
    lemma_le_value_of_bytes(value, n);
    vstd::arithmetic::div_mod::lemma_small_mod(value, byte_pow(n));
}

/// A `u8` read where one was written.
pub proof fn law_u8_roundtrip(data: Seq<u8>, pos: int, value: u8)
    requires
        0 <= pos < data.len(),
        data[pos] == value,
    ensures
        sp_u8(data, pos) == Decoded::<u8>::Ok((value, pos + 1)),
{
    reveal(sp_u8);
}

/// A `bool` read where one was written.
pub proof fn law_bool_roundtrip(data: Seq<u8>, pos: int, value: bool)
    requires
        0 <= pos < data.len(),
        data[pos] == (if value { 1u8 } else { 0u8 }),
    ensures
        sp_bool(data, pos) == Decoded::<bool>::Ok((value, pos + 1)),
{
    reveal(sp_bool);
    reveal(sp_u8);
}

/// A `u16` read where one was written.
pub proof fn law_u16_roundtrip(data: Seq<u8>, pos: int, value: u16)
    requires
        0 <= pos,
        pos + 2 <= data.len(),
        data.subrange(pos, pos + 2) == le_bytes(value as nat, 2),
    ensures
        sp_u16(data, pos) == Decoded::<u16>::Ok((value, pos + 2)),
{
    reveal(sp_u16);
    lemma_byte_pow_values();
    lemma_read_le(data, pos, value as nat, 2);
}

/// A `u32` read where one was written.
pub proof fn law_u32_roundtrip(data: Seq<u8>, pos: int, value: u32)
    requires
        0 <= pos,
        pos + 4 <= data.len(),
        data.subrange(pos, pos + 4) == le_bytes(value as nat, 4),
    ensures
        sp_u32(data, pos) == Decoded::<u32>::Ok((value, pos + 4)),
{
    reveal(sp_u32);
    lemma_byte_pow_values();
    lemma_read_le(data, pos, value as nat, 4);
}

/// An `i32` read where one was written.
pub proof fn law_i32_roundtrip(data: Seq<u8>, pos: int, value: i32)
    requires
        0 <= pos,
        pos + 4 <= data.len(),
        data.subrange(pos, pos + 4) == le_bytes((value as u32) as nat, 4),
    ensures
        sp_i32(data, pos) == Decoded::<i32>::Ok((value, pos + 4)),
{
    reveal(sp_i32);
    lemma_byte_pow_values();
    lemma_read_le(data, pos, (value as u32) as nat, 4);
    assert((value as u32) as i32 == value) by (bit_vector);
}

/// A `u64` read where one was written.
pub proof fn law_u64_roundtrip(data: Seq<u8>, pos: int, value: u64)
    requires
        0 <= pos,
        pos + 8 <= data.len(),
        data.subrange(pos, pos + 8) == le_bytes(value as nat, 8),
    ensures
        sp_u64(data, pos) == Decoded::<u64>::Ok((value, pos + 8)),
{
    reveal(sp_u64);
    lemma_byte_pow_values();
    lemma_read_le(data, pos, value as nat, 8);
}

/// A file size read where a `u64` was written, unless its top byte is 255.
pub proof fn law_file_size_roundtrip(data: Seq<u8>, pos: int, value: u64)
    requires
        0 <= pos,
        pos + 8 <= data.len(),
        data.subrange(pos, pos + 8) == le_bytes(value as nat, 8),
        value / 0x100_0000_0000_0000 != 255,
    ensures
        sp_file_size(data, pos) == Decoded::<u64>::Ok((value, pos + 8)),
{
    reveal(sp_file_size);
    lemma_byte_pow_values();
    lemma_read_le(data, pos, value as nat, 8);
    let b = le_bytes(value as nat, 8);
    lemma_le8(b);
    lemma_le_bytes_len(value as nat, 8);
    assert(b[7] as nat == (value as nat) / 0x100_0000_0000_0000) by {
        reveal_with_fuel(le_bytes, 9);
        assert(b[7] as nat == ((((((((value as nat) / 256) / 256) / 256) / 256) / 256) / 256) / 256) % 256);
        assert(((((((((value as nat) / 256) / 256) / 256) / 256) / 256) / 256) / 256) == (value as nat) / 0x100_0000_0000_0000) by (nonlinear_arith);
        assert((value as nat) / 0x100_0000_0000_0000 < 256) by (nonlinear_arith)
            requires value < 0x1_0000_0000_0000_0000;
    }
}

/// A blob read where one was written with its length prefix.
pub proof fn law_blob_roundtrip(data: Seq<u8>, pos: int, content: Seq<u8>)
    requires
        0 <= pos,
        content.len() <= u32::MAX,
        pos + framed_blob(content).len() <= data.len(),
        data.subrange(pos, pos + framed_blob(content).len()) == framed_blob(content),
    ensures
        framed_blob(content).len() == 4 + content.len(),
        sp_bytes(data, pos) == Decoded::<Seq<u8>>::Ok((content, pos + 4 + content.len())),
{
    reveal(sp_bytes);
    let n = content.len() as u32;
    lemma_le_bytes_len(n as nat, 4);
    let f = framed_blob(content);
    assert(data.subrange(pos, pos + 4) =~= f.subrange(0, 4));
    assert(f.subrange(0, 4) =~= le_bytes(n as nat, 4));
    law_u32_roundtrip(data, pos, n);
    assert(f.len() == 4 + content.len());
    assert(f.subrange(4, f.len() as int) =~= content);
    assert(data.subrange(pos + 4, pos + 4 + content.len()) =~= f.subrange(4, f.len() as int));
}

/// A string read where one was written: the same characters come back.
pub proof fn law_text_roundtrip(data: Seq<u8>, pos: int, text: Seq<char>)
    requires
        0 <= pos,
        encode_utf8(text).len() <= u32::MAX,
        pos + framed_text(text).len() <= data.len(),
        data.subrange(pos, pos + framed_text(text).len()) == framed_text(text),
    ensures
        framed_text(text).len() == 4 + encode_utf8(text).len(),
        sp_string(data, pos) == Decoded::<Seq<char>>::Ok(
            (text, pos + 4 + encode_utf8(text).len()),
        ),
{
    reveal(sp_string);
    law_blob_roundtrip(data, pos, encode_utf8(text));
    encode_utf8_valid_utf8(text);
    encode_utf8_decode_utf8(text);
}

/// Legacy strings of ASCII characters read back unchanged.
pub proof fn law_legacy_ascii_roundtrip(data: Seq<u8>, pos: int, text: Seq<char>)
    requires
        0 <= pos,
        is_ascii_chars(text),
        text.len() <= u32::MAX,
        pos + framed_blob(legacy_bytes(text)).len() <= data.len(),
        data.subrange(pos, pos + framed_blob(legacy_bytes(text)).len()) == framed_blob(
            legacy_bytes(text),
        ),
    ensures
        sp_string(data, pos) == Decoded::<Seq<char>>::Ok((text, pos + 4 + text.len())),
{
    assert(latin1_encodable(text));
    is_ascii_chars_encode_utf8(text);
    assert(legacy_bytes(text) =~= encode_utf8(text));
    law_text_roundtrip(data, pos, text);
}


pub proof fn lemma_framed_texts_push(list: Seq<Seq<char>>, text: Seq<char>)
    ensures
        framed_texts(list.push(text)) == framed_texts(list) + framed_text(text),
    decreases list.len(),
{
    if list.len() == 0 {
        reveal_with_fuel(framed_texts, 2);
        assert(list.push(text).drop_first() =~= Seq::<Seq<char>>::empty());
        assert(framed_texts(list.push(text)) =~= framed_text(text));
    } else {
        lemma_framed_texts_push(list.drop_first(), text);
        assert(list.push(text).drop_first() =~= list.drop_first().push(text));
        assert(framed_texts(list.push(text)) =~= framed_texts(list) + framed_text(text));
    }
}

/// Every string of the list fits its 32-bit length prefix.
pub open spec fn texts_fit(list: Seq<Seq<char>>) -> bool {
    forall|i: int| 0 <= i < list.len() ==> encode_utf8(#[trigger] list[i]).len() <= u32::MAX
}

proof fn law_texts_from_roundtrip(
    list: Seq<Seq<char>>,
    data: Seq<u8>,
    pos: int,
    acc: Seq<Seq<char>>,
)
    requires
        texts_fit(list),
        0 <= pos,
        pos + framed_texts(list).len() <= data.len(),
        data.subrange(pos, pos + framed_texts(list).len()) == framed_texts(list),
    ensures
        sp_texts_from(data, pos, list.len(), acc) == Decoded::<Seq<Seq<char>>>::Ok(
            (acc + list, pos + framed_texts(list).len()),
        ),
    decreases list.len(),
{
    if list.len() == 0 {
        assert(acc + list =~= acc);
    } else {
        let head = framed_text(list[0]);
        let tail = framed_texts(list.drop_first());
        let whole = framed_texts(list);
        assert(whole == head + tail);
        assert(encode_utf8(list[0]).len() <= u32::MAX);
        assert(whole.subrange(0, head.len() as int) =~= head);
        assert(data.subrange(pos, pos + head.len()) =~= whole.subrange(0, head.len() as int));
        law_text_roundtrip(data, pos, list[0]);
        let q = pos + head.len();
        assert(whole.subrange(head.len() as int, whole.len() as int) =~= tail);
        assert(data.subrange(q, q + tail.len()) =~= whole.subrange(
            head.len() as int,
            whole.len() as int,
        ));
        assert(texts_fit(list.drop_first())) by {
            assert forall|i: int| 0 <= i < list.drop_first().len() implies encode_utf8(
                #[trigger] list.drop_first()[i],
            ).len() <= u32::MAX by {
                assert(list.drop_first()[i] == list[i + 1]);
            }
        }
        law_texts_from_roundtrip(list.drop_first(), data, q, acc.push(list[0]));
        assert(acc.push(list[0]) + list.drop_first() =~= acc + list);
    }
}

/// A list of strings reads back as written.
pub proof fn law_text_list_roundtrip(data: Seq<u8>, pos: int, list: Seq<Seq<char>>)
    requires
        list.len() <= u32::MAX,
        texts_fit(list),
        0 <= pos,
        pos + framed_text_list(list).len() <= data.len(),
        data.subrange(pos, pos + framed_text_list(list).len()) == framed_text_list(list),
    ensures
        framed_text_list(list).len() == 4 + framed_texts(list).len(),
        sp_text_list(data, pos) == Decoded::<Seq<Seq<char>>>::Ok(
            (list, pos + framed_text_list(list).len()),
        ),
{
    let n = list.len() as u32;
    lemma_le_bytes_len(n as nat, 4);
    let f = framed_text_list(list);
    assert(data.subrange(pos, pos + 4) =~= f.subrange(0, 4));
    assert(f.subrange(0, 4) =~= le_bytes(n as nat, 4));
    law_u32_roundtrip(data, pos, n);
    let body = framed_texts(list);
    assert(f.subrange(4, f.len() as int) =~= body);
    assert(data.subrange(pos + 4, pos + 4 + body.len()) =~= f.subrange(4, f.len() as int));
    law_texts_from_roundtrip(list, data, pos + 4, Seq::empty());
    assert(Seq::<Seq<char>>::empty() + list =~= list);
}

// ---------------------------------------------------------------------
// Reading a value that stands between other bytes
// ---------------------------------------------------------------------

/// The text fits its 32-bit length prefix.
pub open spec fn text_fits(text: Seq<char>) -> bool {
    encode_utf8(text).len() <= u32::MAX
}

pub proof fn lemma_piece(pre: Seq<u8>, piece: Seq<u8>, post: Seq<u8>)
    ensures
        (pre + piece + post).subrange(pre.len() as int, pre.len() + piece.len() as int) == piece,
        (pre + piece + post).len() == pre.len() + piece.len() + post.len(),
{
    assert((pre + piece + post).subrange(pre.len() as int, pre.len() + piece.len() as int) =~= piece);
}

pub proof fn lemma_u8_at(pre: Seq<u8>, value: u8, post: Seq<u8>)
    ensures
        sp_u8(pre + seq![value] + post, pre.len() as int) == Decoded::<u8>::Ok(
            (value, pre.len() as int + 1),
        ),
{
    assert((pre + seq![value] + post)[pre.len() as int] == value);
    law_u8_roundtrip(pre + seq![value] + post, pre.len() as int, value);
}

pub proof fn lemma_bool_at(pre: Seq<u8>, value: bool, post: Seq<u8>)
    ensures
        sp_bool(pre + seq![if value { 1u8 } else { 0u8 }] + post, pre.len() as int)
            == Decoded::<bool>::Ok((value, pre.len() as int + 1)),
{
    let b = seq![if value { 1u8 } else { 0u8 }];
    assert((pre + b + post)[pre.len() as int] == b[0]);
    law_bool_roundtrip(pre + b + post, pre.len() as int, value);
}

pub proof fn lemma_u32_at(pre: Seq<u8>, value: u32, post: Seq<u8>)
    ensures
        le_bytes(value as nat, 4).len() == 4,
        sp_u32(pre + le_bytes(value as nat, 4) + post, pre.len() as int) == Decoded::<u32>::Ok(
            (value, pre.len() as int + 4),
        ),
{
    lemma_le_bytes_len(value as nat, 4);
    lemma_piece(pre, le_bytes(value as nat, 4), post);
    law_u32_roundtrip(pre + le_bytes(value as nat, 4) + post, pre.len() as int, value);
}

pub proof fn lemma_u64_at(pre: Seq<u8>, value: u64, post: Seq<u8>)
    ensures
        le_bytes(value as nat, 8).len() == 8,
        sp_u64(pre + le_bytes(value as nat, 8) + post, pre.len() as int) == Decoded::<u64>::Ok(
            (value, pre.len() as int + 8),
        ),
{
    lemma_le_bytes_len(value as nat, 8);
    lemma_piece(pre, le_bytes(value as nat, 8), post);
    law_u64_roundtrip(pre + le_bytes(value as nat, 8) + post, pre.len() as int, value);
}

pub proof fn lemma_file_size_at(pre: Seq<u8>, value: u64, post: Seq<u8>)
    requires
        value / 0x100_0000_0000_0000 != 255,
    ensures
        le_bytes(value as nat, 8).len() == 8,
        sp_file_size(pre + le_bytes(value as nat, 8) + post, pre.len() as int)
            == Decoded::<u64>::Ok((value, pre.len() as int + 8)),
{
    lemma_le_bytes_len(value as nat, 8);
    lemma_piece(pre, le_bytes(value as nat, 8), post);
    law_file_size_roundtrip(pre + le_bytes(value as nat, 8) + post, pre.len() as int, value);
}

pub proof fn lemma_blob_at(pre: Seq<u8>, content: Seq<u8>, post: Seq<u8>)
    requires
        content.len() <= u32::MAX,
    ensures
        framed_blob(content).len() == 4 + content.len(),
        sp_bytes(pre + framed_blob(content) + post, pre.len() as int)
            == Decoded::<Seq<u8>>::Ok((content, pre.len() + 4 + content.len() as int)),
{
    lemma_le_bytes_len((content.len() as u32) as nat, 4);
    lemma_piece(pre, framed_blob(content), post);
    law_blob_roundtrip(pre + framed_blob(content) + post, pre.len() as int, content);
}

pub proof fn lemma_text_at(pre: Seq<u8>, text: Seq<char>, post: Seq<u8>)
    requires
        text_fits(text),
    ensures
        framed_text(text).len() == 4 + encode_utf8(text).len(),
        sp_string(pre + framed_text(text) + post, pre.len() as int)
            == Decoded::<Seq<char>>::Ok((text, pre.len() + framed_text(text).len() as int)),
{
    lemma_le_bytes_len((encode_utf8(text).len() as u32) as nat, 4);
    lemma_piece(pre, framed_text(text), post);
    law_text_roundtrip(pre + framed_text(text) + post, pre.len() as int, text);
}

} // verus!
