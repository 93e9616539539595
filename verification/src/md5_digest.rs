//! The 128-bit content digest and the streaming hasher that produces it.

use vstd::prelude::*;
use crate::text::{chars_of, push_char, utf8};

verus! {

/// 16 to the power `n`.
pub open spec fn pow16(n: nat) -> nat
    decreases n,
{
    if n == 0 {
        1
    } else {
        16 * pow16((n - 1) as nat)
    }
}

/// 256 to the power `n`.
pub open spec fn pow256(n: nat) -> nat
    decreases n,
{
    if n == 0 {
        1
    } else {
        256 * pow256((n - 1) as nat)
    }
}

/// The lowercase hexadecimal character for a value below 16.
pub open spec fn hex_char(n: nat) -> char {
    if n < 10 {
        ((48 + n) as u8) as char
    } else {
        ((87 + n) as u8) as char
    }
}

/// The value of a hexadecimal character of either case, if it is one.
pub open spec fn hex_value(c: char) -> Option<nat> {
    if '0' <= c <= '9' {
        Some((c as u8 - 48) as nat)
    } else if 'a' <= c <= 'f' {
        Some((c as u8 - 87) as nat)
    } else if 'A' <= c <= 'F' {
        Some((c as u8 - 55) as nat)
    } else {
        None
    }
}

/// Whether every character of `s` is a hexadecimal digit.
pub open spec fn all_hex(s: Seq<char>) -> bool {
    forall|i: int| 0 <= i < s.len() ==> (#[trigger] hex_value(s[i])) is Some
}

/// Whether `s` is the text of a digest: 32 hexadecimal characters.
pub open spec fn is_digest_text(s: Seq<char>) -> bool {
    s.len() == 32 && all_hex(s)
}

/// The number that a hexadecimal text denotes, most significant digit first.
pub open spec fn hex_number(s: Seq<char>) -> nat
    decreases s.len(),
{
    if s.len() == 0 {
        0
    } else {
        hex_number(s.drop_last()) * 16 + match hex_value(s.last()) {
            Some(d) => d,
            None => 0,
        }
    }
}

/// The `width` low hexadecimal digits of `v`, most significant first, in
/// lower case.
pub open spec fn hex_text(v: nat, width: nat) -> Seq<char>
    decreases width,
{
    if width == 0 {
        Seq::empty()
    } else {
        hex_text(v / 16, (width - 1) as nat).push(hex_char(v % 16))
    }
}

/// The number that a byte string denotes, most significant byte first.
pub open spec fn be_number(b: Seq<u8>) -> nat
    decreases b.len(),
{
    if b.len() == 0 {
        0
    } else {
        be_number(b.drop_last()) * 256 + b.last() as nat
    }
}

/// Why a text is not a digest.
#[derive(Clone, Copy, Debug, PartialEq, Eq, Structural)]
pub enum InvalidDigest {
    /// The text does not have 32 characters.
    Length,
    /// A character is not a hexadecimal digit.
    NonHex,
}

/// A 128-bit content digest. The all-zero value marks a manifest that
/// stands in for missing data.
#[derive(Clone, Copy, Debug, PartialEq, Eq, Structural, Hash, PartialOrd, Ord)]
pub struct Md5Digest {
    value: u128,
}

impl View for Md5Digest {
    type V = u128;

    closed spec fn view(&self) -> u128 {
        self.value
    }
}

/// 16 to the 32 is 2 to the 128.
pub proof fn lemma_pow16_32()
    ensures
        pow16(32) == 0x1_0000_0000_0000_0000_0000_0000_0000_0000,
{
    reveal_with_fuel(pow16, 33);
}

/// 256 to the 16 is 2 to the 128.
pub proof fn lemma_pow256_16()
    ensures
        pow256(16) == 0x1_0000_0000_0000_0000_0000_0000_0000_0000,
{
    reveal_with_fuel(pow256, 17);
}

/// The powers of 16 are positive and do not fall.
pub proof fn lemma_pow16_increases(a: nat, b: nat)
    requires
        a <= b,
    ensures
        0 < pow16(a) <= pow16(b),
    decreases b,
{
    if b > 0 {
        if a == b {
            lemma_pow16_increases((a - 1) as nat, (b - 1) as nat);
        } else {
            lemma_pow16_increases(a, (b - 1) as nat);
        }
    }
}

/// The powers of 256 are positive and do not fall.
pub proof fn lemma_pow256_increases(a: nat, b: nat)
    requires
        a <= b,
    ensures
        0 < pow256(a) <= pow256(b),
    decreases b,
{
    if b > 0 {
        if a == b {
            lemma_pow256_increases((a - 1) as nat, (b - 1) as nat);
        } else {
            lemma_pow256_increases(a, (b - 1) as nat);
        }
    }
}

/// A hexadecimal text of `n` digits denotes a number below 16 to the `n`.
pub proof fn lemma_hex_number_bound(s: Seq<char>)
    ensures
        hex_number(s) < pow16(s.len()),
    decreases s.len(),
{
    if s.len() > 0 {
        lemma_hex_number_bound(s.drop_last());
    }
}

/// A byte string of `n` bytes denotes a number below 256 to the `n`.
pub proof fn lemma_be_number_bound(b: Seq<u8>)
    ensures
        be_number(b) < pow256(b.len()),
    decreases b.len(),
{
    if b.len() > 0 {
        lemma_be_number_bound(b.drop_last());
    }
}

/// The text of a number has the asked width and only hexadecimal digits.
pub proof fn lemma_hex_text_shape(v: nat, width: nat)
    ensures
        hex_text(v, width).len() == width,
        all_hex(hex_text(v, width)),
    decreases width,
{
    if width > 0 {
        lemma_hex_text_shape(v / 16, (width - 1) as nat);
        let t = hex_text(v, width);
        assert forall|i: int| 0 <= i < t.len() implies (#[trigger] hex_value(t[i])) is Some by {
            if i < width - 1 {
                assert(t[i] == hex_text(v / 16, (width - 1) as nat)[i]);
            } else {
                assert(t[i] == hex_char(v % 16));
            }
        }
    }
}

/// Reading back the text of a number gives the number, when it fits the
/// width.
pub proof fn lemma_hex_text_number(v: nat, width: nat)
    requires
        v < pow16(width),
    ensures
        hex_number(hex_text(v, width)) == v,
    decreases width,
{
    if width > 0 {
        let t = hex_text(v, width);
        assert(t.drop_last() == hex_text(v / 16, (width - 1) as nat));
        assert(t.last() == hex_char(v % 16));
        assert(hex_value(hex_char(v % 16)) == Some(v % 16));
        lemma_hex_text_number(v / 16, (width - 1) as nat);
    }
}

/// Writing a digest as text and reading the text back gives the digest.
pub proof fn lemma_hex_round_trip(d: Md5Digest)
    ensures
        is_digest_text(d.hex()),
        hex_number(d.hex()) == d@,
{
    lemma_pow16_32();
    lemma_hex_text_shape(d@ as nat, 32);
    lemma_hex_text_number(d@ as nat, 32);
}

/// Appends the `width` low hexadecimal digits of `v`.
fn push_hex(out: &mut String, v: u128, width: u32)
    ensures
        final(out)@ == old(out)@ + hex_text(v as nat, width as nat),
    decreases width,
{
    if width == 0 {
        assert(old(out)@ + hex_text(v as nat, 0) == old(out)@);
    } else {
        push_hex(out, v / 16, width - 1);
        let d: u8 = (v % 16) as u8;
        let c = if d < 10 {
            (48 + d) as char
        } else {
            (87 + d) as char
        };
        push_char(out, c);
        assert((old(out)@ + hex_text((v / 16) as nat, (width - 1) as nat)).push(c) == old(out)@
            + hex_text(v as nat, width as nat));
    }
}

/// The value of one hexadecimal character.
fn hex_digit(c: char) -> (r: Option<u8>)
    ensures
        match r {
            Some(d) => hex_value(c) == Some(d as nat) && d < 16,
            None => hex_value(c) is None,
        },
{
    if c >= '0' && c <= '9' {
        Some(c as u8 - 48)
    } else if c >= 'a' && c <= 'f' {
        Some(c as u8 - 87)
    } else if c >= 'A' && c <= 'F' {
        Some(c as u8 - 55)
    } else {
        None
    }
}

impl Md5Digest {
    /// The text of this digest: 32 lowercase hexadecimal characters.
    pub open spec fn hex(&self) -> Seq<char> {
        hex_text(self@ as nat, 32)
    }

    /// Whether this is the all-zero digest.
    pub open spec fn is_invalid(&self) -> bool {
        self@ == 0
    }

    /// Reads a digest from its text of 32 hexadecimal characters of either
    /// case.
    pub fn new(hex: &str) -> (r: Result<Md5Digest, InvalidDigest>)
        ensures
            r is Ok <==> is_digest_text(hex@),
            r matches Ok(d) ==> d@ == hex_number(hex@),
            r matches Err(e) ==> e == (if hex@.len() != 32 {
                InvalidDigest::Length
            } else {
                InvalidDigest::NonHex
            }),
    {
        let chars = chars_of(hex);
        Md5Digest::from_chars(&chars)
    }

    /// Reads a digest from the 32 hexadecimal characters of its text.
    pub fn from_chars(chars: &Vec<char>) -> (r: Result<Md5Digest, InvalidDigest>)
        ensures
            r is Ok <==> is_digest_text(chars@),
            r matches Ok(d) ==> d@ == hex_number(chars@),
            r matches Err(e) ==> e == (if chars@.len() != 32 {
                InvalidDigest::Length
            } else {
                InvalidDigest::NonHex
            }),
    {
        if chars.len() != 32 {
            return Err(InvalidDigest::Length);
        }
        let mut value: u128 = 0;
        let mut i: usize = 0;
        while i < 32
            invariant
                i <= 32,
                chars.len() == 32,
                value == hex_number(chars@.take(i as int)),
                all_hex(chars@.take(i as int)),
            decreases 32 - i,
        {
            let d = match hex_digit(chars[i]) {
                Some(d) => d,
                None => {
                    assert(hex_value(chars@[i as int]) is None);
                    return Err(InvalidDigest::NonHex);
                },
            };
            proof {
                let next = chars@.take(i + 1);
                assert(next.drop_last() == chars@.take(i as int));
                assert(next.last() == chars@[i as int]);
                lemma_hex_number_bound(next);
                lemma_pow16_increases((i + 1) as nat, 32);
                lemma_pow16_32();
                assert forall|j: int| 0 <= j < next.len() implies (#[trigger] hex_value(
                    next[j],
                )) is Some by {
                    if j < i {
                        assert(next[j] == chars@.take(i as int)[j]);
                    }
                }
            }
            value = value * 16 + d as u128;
            i += 1;
        }
        assert(chars@.take(32) == chars@);
        Ok(Md5Digest { value })
    }

    /// The digest whose 16 bytes, most significant first, are `bytes`.
    pub fn from_bytes(bytes: &[u8; 16]) -> (d: Md5Digest)
        ensures
            d@ == be_number(bytes@),
    {
        let mut value: u128 = 0;
        let mut i: usize = 0;
        while i < 16
            invariant
                i <= 16,
                value == be_number(bytes@.take(i as int)),
            decreases 16 - i,
        {
            proof {
                let next = bytes@.take(i + 1);
                assert(next.drop_last() == bytes@.take(i as int));
                assert(next.last() == bytes@[i as int]);
                lemma_be_number_bound(next);
                lemma_pow256_increases((i + 1) as nat, 16);
                lemma_pow256_16();
            }
            value = value * 256 + bytes[i] as u128;
            i += 1;
        }
        assert(bytes@.take(16) == bytes@);
        Md5Digest { value }
    }

    /// The digest with the given 128-bit value.
    pub fn from_value(value: u128) -> (d: Md5Digest)
        ensures
            d@ == value,
    {
        Md5Digest { value }
    }

    /// The 128-bit value of this digest.
    pub fn value(&self) -> (v: u128)
        ensures
            v == self@,
    {
        self.value
    }

    /// The all-zero digest, which no content is expected to have.
    pub fn invalid() -> (d: Md5Digest)
        ensures
            d@ == 0,
    {
        Md5Digest { value: 0 }
    }

    /// Whether this is the all-zero digest.
    pub fn is_zero(&self) -> (b: bool)
        ensures
            b == self.is_invalid(),
    {
        self.value == 0
    }

    /// The text of this digest: 32 lowercase hexadecimal characters.
    pub fn to_hex(&self) -> (s: String)
        ensures
            s@ == self.hex(),
    {
        let mut s = String::new();
        push_hex(&mut s, self.value, 32);
        assert(Seq::<char>::empty() + self.hex() == self.hex());
        s
    }

    /// The text of this digest, as `to_hex` gives it.
    pub fn to_string(&self) -> (s: String)
        ensures
            s@ == self.hex(),
    {
        self.to_hex()
    }

    /// Whether this digest and `other` are the same.
    pub fn same_as(&self, other: &Md5Digest) -> (b: bool)
        ensures
            b == (self@ == other@),
            b == (*self == *other),
    {
        self.value == other.value
    }

    /// Whether this digest comes before `other` when both are read as 16
    /// bytes, most significant first.
    pub fn precedes(&self, other: &Md5Digest) -> (b: bool)
        ensures
            b == (self@ < other@),
    {
        self.value < other.value
    }
}

impl Default for Md5Digest {
    fn default() -> (d: Md5Digest)
        ensures
            d@ == 0,
    {
        Md5Digest { value: 0 }
    }
}

/// The MD5 hash of a byte string, as 16 bytes.
pub uninterp spec fn md5_of(data: Seq<u8>) -> Seq<u8>;

/// The digest of a byte string.
pub open spec fn digest_of(data: Seq<u8>) -> u128 {
    be_number(md5_of(data)) as u128
}

/// A running MD5 computation of the md5 crate over the bytes fed to it so
/// far. Its state is not read here: what it holds is named by
/// `hasher_input`.
#[verifier::external_body]
pub struct Md5Hasher {
    inner: md5::Md5,
}

/// The bytes that a hasher has been fed, in order.
pub uninterp spec fn hasher_input(h: Md5Hasher) -> Seq<u8>;

impl Md5Hasher {
    /// Calls `Digest::new` of the md5 crate: a hasher that has been fed
    /// nothing.
    #[verifier::external_body]
    pub(crate) fn new() -> (h: Md5Hasher)
        ensures
            hasher_input(h) == Seq::<u8>::empty(),
    {
        Md5Hasher { inner: <md5::Md5 as md5::Digest>::new() }
    }

    /// Calls `Digest::update` of the md5 crate: the bytes are added after
    /// those fed before.
    #[verifier::external_body]
    pub(crate) fn update(&mut self, data: &[u8])
        ensures
            hasher_input(*final(self)) == hasher_input(*old(self)) + data@,
    {
        md5::Digest::update(&mut self.inner, data)
    }

    /// Calls `Digest::finalize` of the md5 crate: the 16 bytes of the MD5
    /// hash of all that was fed.
    #[verifier::external_body]
    fn finalize(self) -> (out: [u8; 16])
        ensures
            out@ == md5_of(hasher_input(self)),
    {
        md5::Digest::finalize(self.inner).into()
    }

    /// Feeds the UTF-8 bytes of a text.
    pub(crate) fn update_text(&mut self, text: &str)
        ensures
            hasher_input(*final(self)) == hasher_input(*old(self)) + utf8(text@),
    {
        self.update(text.as_bytes());
    }

    /// Ends the computation with the digest of all that was fed.
    pub(crate) fn finish(self) -> (d: Md5Digest)
        ensures
            d@ == digest_of(hasher_input(self)),
    {
        let out = self.finalize();
        proof {
            lemma_be_number_bound(out@);
            lemma_pow256_16();
        }
        Md5Digest::from_bytes(&out)
    }
}

/// The digest of a byte string held in memory.
pub fn digest_bytes(data: &[u8]) -> (d: Md5Digest)
    ensures
        d@ == digest_of(data@),
{
    let mut h = Md5Hasher::new();
    h.update(data);
    assert(Seq::<u8>::empty() + data@ == data@);
    h.finish()
}

/// The digest of a file that is read piece by piece, together with the
/// number of bytes read.
pub struct FileDigest {
    hasher: Md5Hasher,
    length: u64,
}

impl FileDigest {
    /// The bytes fed so far.
    pub closed spec fn content(&self) -> Seq<u8> {
        hasher_input(self.hasher)
    }

    /// The length is the number of bytes fed.
    pub closed spec fn well_formed(&self) -> bool {
        self.length == hasher_input(self.hasher).len()
    }

    /// A computation over no bytes yet.
    pub fn new() -> (f: FileDigest)
        ensures
            f.well_formed(),
            f.content() == Seq::<u8>::empty(),
    {
        FileDigest { hasher: Md5Hasher::new(), length: 0 }
    }

    /// Feeds the next piece of the file. Returns `false`, and leaves the
    /// computation as it was, when the file would then be longer than a
    /// length can say.
    pub fn update(&mut self, chunk: &[u8]) -> (fed: bool)
        requires
            old(self).well_formed(),
        ensures
            final(self).well_formed(),
            fed == (old(self).content().len() + chunk@.len() <= u64::MAX),
            fed ==> final(self).content() == old(self).content() + chunk@,
            !fed ==> final(self).content() == old(self).content(),
    {
        if chunk.len() as u64 > u64::MAX - self.length {
            return false;
        }
        self.hasher.update(chunk);
        self.length = self.length + chunk.len() as u64;
        true
    }

    /// The number of bytes fed so far.
    pub fn length(&self) -> (n: u64)
        requires
            self.well_formed(),
        ensures
            n == self.content().len(),
    {
        self.length
    }

    /// Ends the computation: the digest of the bytes fed, and how many
    /// they were.
    pub fn finish(self) -> (r: (Md5Digest, u64))
        requires
            self.well_formed(),
        ensures
            r.0@ == digest_of(self.content()),
            r.1 == self.content().len(),
    {
        let length = self.length;
        (self.hasher.finish(), length)
    }
}

} // verus!
