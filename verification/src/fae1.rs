//! The FAE 1.0 footer: a trailer of little-endian words read backwards from
//! the end of an image, protected by a CRC-32.

pub mod registry;

use vstd::prelude::*;
use vstd::string::StringSliceAdditionalSpecFns;
use vstd::utf8::{decode_utf8, encode_utf8, encode_utf8_decode_utf8, encode_utf8_valid_utf8, valid_utf8};

use crate::common::{
    le_bytes, le_word, le_words, lemma_le_bytes_len, lemma_le_word_in_middle,
    lemma_le_word_of_bytes_in_middle, lemma_le_words_len, push_word, read_le_word,
};

verus! {

pub const MAGIC_AND_VERSION: u32 = 0xFAEC_0D10;

pub const FIXED_WORD_COUNT: usize = 5;

pub const FIXED_SIZE: usize = 20;

pub const MAX_EXTRA_WORDS: usize = 15;

#[derive(Debug, Clone, PartialEq, Eq)]
#[allow(inconsistent_fields)]
pub enum Error {
    TooManyExtraWords { kind: &'static str, count: usize },
    InvalidInlineBits(u16),
    InvalidAbiFamily(u32),
    InvalidExtraFieldsDescriptor(u32),
    Truncated,
    InvalidMagic(u32),
    FooterSizeOverflow,
    CrcMismatch { stored: u32, computed: u32 },
    WrongAbi { expected: u32, actual: u32 },
    WrongExtraWordCount { expected: usize, actual: usize },
    InvalidRustletProfile(u16),
    RustletMemoryRequirementTooLarge { kind: &'static str, bytes: u32 },
    InvalidRiscvIsa(&'static str),
}

// ---------------------------------------------------------------------------
// Descriptors
// ---------------------------------------------------------------------------
#[derive(Debug, Clone, Copy, PartialEq, Eq)]
pub struct IsaDescriptor {
    pub family: u8,
    pub subgroup: u8,
    pub inline_bits: u16,
    pub extra_word_count: u8,
}

impl IsaDescriptor {
    /// Each field fits the bits that the descriptor word gives it.
    pub open spec fn wf(self) -> bool {
        self.inline_bits <= 0x0FFF && self.extra_word_count <= 15
    }

    pub open spec fn spec_encode(self) -> u32 {
        ((self.family as u32) << 24u32) | ((self.subgroup as u32) << 16u32) | ((
        self.inline_bits as u32) << 4u32) | (self.extra_word_count as u32)
    }

    pub open spec fn spec_decode(word: u32) -> IsaDescriptor {
        IsaDescriptor {
            family: (word >> 24u32) as u8,
            subgroup: ((word >> 16u32) & 0xFF) as u8,
            inline_bits: ((word >> 4u32) & 0x0FFF) as u16,
            extra_word_count: (word & 0x0F) as u8,
        }
    }

    pub fn new(family: u8, subgroup: u8, inline_bits: u16, extra_word_count: usize) -> (r: Result<
        Self,
        Error,
    >)
        ensures
            inline_bits > 0x0FFF ==> r == Err::<Self, Error>(Error::InvalidInlineBits(inline_bits)),
            inline_bits <= 0x0FFF && extra_word_count > MAX_EXTRA_WORDS ==> r == Err::<Self, Error>(
                Error::TooManyExtraWords { kind: "ISA", count: extra_word_count },
            ),
            inline_bits <= 0x0FFF && extra_word_count <= MAX_EXTRA_WORDS ==> r == Ok::<Self, Error>(
                IsaDescriptor {
                    family,
                    subgroup,
                    inline_bits,
                    extra_word_count: extra_word_count as u8,
                },
            ),
    {
        if inline_bits > 0x0FFF {
            return Err(Error::InvalidInlineBits(inline_bits));
        }
        let extra_word_count = checked_count("ISA", extra_word_count)?;
        Ok(Self { family, subgroup, inline_bits, extra_word_count })
    }

    pub fn encode(self) -> (r: u32)
        ensures
            r == self.spec_encode(),
    {
        ((self.family as u32) << 24u32) | ((self.subgroup as u32) << 16u32) | ((
        self.inline_bits as u32) << 4u32) | (self.extra_word_count as u32)
    }

    pub fn decode(word: u32) -> (r: Self)
        ensures
            r == Self::spec_decode(word),
            r.wf(),
    {
        proof {
            lemma_isa_decode_wf(word);
        }
        Self {
            family: (word >> 24u32) as u8,
            subgroup: ((word >> 16u32) & 0xFF) as u8,
            inline_bits: ((word >> 4u32) & 0x0FFF) as u16,
            extra_word_count: (word & 0x0F) as u8,
        }
    }
}

proof fn lemma_isa_decode_wf(word: u32)
    ensures
        IsaDescriptor::spec_decode(word).wf(),
{
    assert((word >> 4u32) & 0x0FFF <= 0x0FFF) by (bit_vector);
    assert(word & 0x0F <= 15) by (bit_vector);
}

/// Decoding an encoded well-formed ISA descriptor gives it back.
pub proof fn lemma_isa_descriptor_round_trip(d: IsaDescriptor)
    requires
        d.wf(),
    ensures
        IsaDescriptor::spec_decode(d.spec_encode()) == d,
{
    let f = d.family as u32;
    let s = d.subgroup as u32;
    let i = d.inline_bits as u32;
    let c = d.extra_word_count as u32;
    let w = d.spec_encode();
    assert(f <= 0xFF && s <= 0xFF && i <= 0x0FFF && c <= 15 && w == (f << 24u32) | (s << 16u32) | (
    i << 4u32) | c ==> w >> 24u32 == f && (w >> 16u32) & 0xFF == s && (w >> 4u32) & 0x0FFF == i
        && w & 0x0F == c) by (bit_vector);
}

/// Every descriptor word is the encoding of the descriptor it decodes to.
pub proof fn lemma_isa_word_round_trip(w: u32)
    ensures
        IsaDescriptor::spec_decode(w).spec_encode() == w,
{
    let d = IsaDescriptor::spec_decode(w);
    assert(((w >> 24u32) as u8) as u32 == w >> 24u32 && (((w >> 16u32) & 0xFF) as u8) as u32 == (w
        >> 16u32) & 0xFF && (((w >> 4u32) & 0x0FFF) as u16) as u32 == (w >> 4u32) & 0x0FFF && ((w
        & 0x0F) as u8) as u32 == w & 0x0F) by (bit_vector);
    assert(((w >> 24u32) << 24u32) | (((w >> 16u32) & 0xFF) << 16u32) | (((w >> 4u32) & 0x0FFF)
        << 4u32) | (w & 0x0F) == w) by (bit_vector);
}

#[derive(Debug, Clone, Copy, PartialEq, Eq)]
pub struct AbiDescriptor {
    pub family: u32,
    pub extra_word_count: u8,
}

impl AbiDescriptor {
    /// Each field fits the bits that the descriptor word gives it.
    pub open spec fn wf(self) -> bool {
        self.family <= 0x0FFF_FFFF && self.extra_word_count <= 15
    }

    pub open spec fn spec_encode(self) -> u32 {
        (self.family << 4u32) | (self.extra_word_count as u32)
    }

    pub open spec fn spec_decode(word: u32) -> AbiDescriptor {
        AbiDescriptor { family: word >> 4u32, extra_word_count: (word & 0x0F) as u8 }
    }

    pub fn new(family: u32, extra_word_count: usize) -> (r: Result<Self, Error>)
        ensures
            family > 0x0FFF_FFFF ==> r == Err::<Self, Error>(Error::InvalidAbiFamily(family)),
            family <= 0x0FFF_FFFF && extra_word_count > MAX_EXTRA_WORDS ==> r == Err::<
                Self,
                Error,
            >(Error::TooManyExtraWords { kind: "ABI", count: extra_word_count }),
            family <= 0x0FFF_FFFF && extra_word_count <= MAX_EXTRA_WORDS ==> r == Ok::<Self, Error>(
                AbiDescriptor { family, extra_word_count: extra_word_count as u8 },
            ),
    {
        if family > 0x0FFF_FFFF {
            return Err(Error::InvalidAbiFamily(family));
        }
        Ok(Self { family, extra_word_count: checked_count("ABI", extra_word_count)? })
    }

    pub fn encode(self) -> (r: u32)
        ensures
            r == self.spec_encode(),
    {
        (self.family << 4u32) | (self.extra_word_count as u32)
    }

    pub fn decode(word: u32) -> (r: Self)
        ensures
            r == Self::spec_decode(word),
            r.wf(),
    {
        proof {
            assert(word >> 4u32 <= 0x0FFF_FFFF) by (bit_vector);
            assert(word & 0x0F <= 15) by (bit_vector);
        }
        Self { family: word >> 4u32, extra_word_count: (word & 0x0F) as u8 }
    }
}

/// Decoding an encoded well-formed ABI descriptor gives it back.
pub proof fn lemma_abi_descriptor_round_trip(d: AbiDescriptor)
    requires
        d.wf(),
    ensures
        AbiDescriptor::spec_decode(d.spec_encode()) == d,
{
    let f = d.family;
    let c = d.extra_word_count as u32;
    let w = d.spec_encode();
    assert(f <= 0x0FFF_FFFF && c <= 15 && w == (f << 4u32) | c ==> w >> 4u32 == f && w & 0x0F == c)
        by (bit_vector);
}

/// Every descriptor word is the encoding of the descriptor it decodes to.
pub proof fn lemma_abi_word_round_trip(w: u32)
    ensures
        AbiDescriptor::spec_decode(w).spec_encode() == w,
{
    assert(((w & 0x0F) as u8) as u32 == w & 0x0F) by (bit_vector);
    assert(((w >> 4u32) << 4u32) | (w & 0x0F) == w) by (bit_vector);
}

fn checked_count(kind: &'static str, count: usize) -> (r: Result<u8, Error>)
    ensures
        count > MAX_EXTRA_WORDS ==> r == Err::<u8, Error>(Error::TooManyExtraWords { kind, count }),
        count <= MAX_EXTRA_WORDS ==> r == Ok::<u8, Error>(count as u8),
{
    if count > MAX_EXTRA_WORDS {
        return Err(Error::TooManyExtraWords { kind, count });
    }
    Ok(count as u8)
}

// ---------------------------------------------------------------------------
// Footer
// ---------------------------------------------------------------------------
#[derive(Debug, Clone, PartialEq, Eq)]
pub struct Footer {
    pub isa: IsaDescriptor,
    pub abi: AbiDescriptor,
    pub extra_words: Vec<u32>,
    pub isa_extra_words: Vec<u32>,
    pub abi_extra_words: Vec<u32>,
}

/// The mathematical content of a footer.
pub struct FooterView {
    pub isa: IsaDescriptor,
    pub abi: AbiDescriptor,
    pub extra_words: Seq<u32>,
    pub isa_extra_words: Seq<u32>,
    pub abi_extra_words: Seq<u32>,
}

impl View for Footer {
    type V = FooterView;

    open spec fn view(&self) -> FooterView {
        FooterView {
            isa: self.isa,
            abi: self.abi,
            extra_words: self.extra_words@,
            isa_extra_words: self.isa_extra_words@,
            abi_extra_words: self.abi_extra_words@,
        }
    }
}

#[derive(Debug, Clone, PartialEq, Eq)]
pub struct DecodedFooter {
    pub footer: Footer,
    pub footer_size: usize,
    pub stored_crc: u32,
}

/// Words of a footer: the fixed five, the generic extras and both descriptors' extras.
pub open spec fn footer_word_count(extra_count: int, isa_count: int, abi_count: int) -> int {
    FIXED_WORD_COUNT + extra_count + isa_count + abi_count
}

pub open spec fn spec_footer_size(extra_count: int, isa_count: int, abi_count: int) -> Result<
    usize,
    Error,
> {
    if 4 * footer_word_count(extra_count, isa_count, abi_count) <= usize::MAX {
        Ok((4 * footer_word_count(extra_count, isa_count, abi_count)) as usize)
    } else {
        Err(Error::FooterSizeOverflow)
    }
}

fn footer_size(extra_count: usize, isa_count: u8, abi_count: u8) -> (r: Result<usize, Error>)
    ensures
        r == spec_footer_size(extra_count as int, isa_count as int, abi_count as int),
{
    let words = FIXED_WORD_COUNT.checked_add(extra_count);
    let words = match words {
        Some(v) => v.checked_add(isa_count as usize),
        None => None,
    };
    let words = match words {
        Some(v) => v.checked_add(abi_count as usize),
        None => None,
    };
    let bytes = match words {
        Some(v) => v.checked_mul(4),
        None => None,
    };
    match bytes {
        Some(v) => Ok(v),
        None => Err(Error::FooterSizeOverflow),
    }
}

/// The extension words as they lie in the image: each group reversed, so that
/// reading backwards from the end meets them in logical order.
pub open spec fn extension_bytes(f: FooterView) -> Seq<u8> {
    le_words(f.abi_extra_words.reverse()) + le_words(f.isa_extra_words.reverse()) + le_words(
        f.extra_words.reverse(),
    )
}

/// The four words after the CRC: extra word count, ABI, ISA, magic.
pub open spec fn trailer_bytes(f: FooterView) -> Seq<u8> {
    le_bytes(f.extra_words.len() as u32) + le_bytes(f.abi.spec_encode()) + le_bytes(
        f.isa.spec_encode(),
    ) + le_bytes(MAGIC_AND_VERSION)
}

/// `image` followed by the footer `f`, its CRC computed over the whole result
/// with the CRC word zeroed.
pub open spec fn spec_appended(image: Seq<u8>, f: FooterView) -> Seq<u8> {
    let prefix = image + extension_bytes(f);
    prefix + le_bytes(spec_crc32(prefix + le_bytes(0) + trailer_bytes(f))) + trailer_bytes(f)
}

/// Why `append_to` refuses a footer, if it does.
pub open spec fn append_error(f: FooterView) -> Option<Error> {
    if f.isa.extra_word_count != f.isa_extra_words.len() {
        Some(
            Error::WrongExtraWordCount {
                expected: f.isa.extra_word_count as usize,
                actual: f.isa_extra_words.len() as usize,
            },
        )
    } else if f.abi.extra_word_count != f.abi_extra_words.len() {
        Some(
            Error::WrongExtraWordCount {
                expected: f.abi.extra_word_count as usize,
                actual: f.abi_extra_words.len() as usize,
            },
        )
    } else if spec_footer_size(
        f.extra_words.len() as int,
        f.isa.extra_word_count as int,
        f.abi.extra_word_count as int,
    ) is Err || f.extra_words.len() > u32::MAX {
        Some(Error::FooterSizeOverflow)
    } else {
        None
    }
}

impl Footer {
    pub fn new(
        family: u8,
        subgroup: u8,
        inline_bits: u16,
        extra_words: Vec<u32>,
        isa_extra_words: Vec<u32>,
        abi_family: u32,
        abi_extra_words: Vec<u32>,
    ) -> (r: Result<Self, Error>)
        ensures
            ({
                let isa = IsaDescriptor::new_result(
                    family,
                    subgroup,
                    inline_bits,
                    isa_extra_words@.len(),
                );
                let abi = AbiDescriptor::new_result(abi_family, abi_extra_words@.len());
                match isa {
                    Err(e) => r == Err::<Self, Error>(e),
                    Ok(isa) => match abi {
                        Err(e) => r == Err::<Self, Error>(e),
                        Ok(abi) => r is Ok && r->Ok_0@ == FooterView {
                            isa,
                            abi,
                            extra_words: extra_words@,
                            isa_extra_words: isa_extra_words@,
                            abi_extra_words: abi_extra_words@,
                        },
                    },
                }
            }),
    {
        let isa = IsaDescriptor::new(family, subgroup, inline_bits, isa_extra_words.len())?;
        let abi = AbiDescriptor::new(abi_family, abi_extra_words.len())?;
        Ok(Self { isa, abi, extra_words, isa_extra_words, abi_extra_words })
    }

    /// The footer's size in bytes.
    pub fn size(&self) -> (r: Result<usize, Error>)
        ensures
            r == spec_footer_size(
                self.extra_words@.len() as int,
                self.isa.extra_word_count as int,
                self.abi.extra_word_count as int,
            ),
    {
        footer_size(self.extra_words.len(), self.isa.extra_word_count, self.abi.extra_word_count)
    }

    /// Appends the footer to `image`, CRC included.
    pub fn append_to(&self, image: &mut Vec<u8>) -> (r: Result<(), Error>)
        ensures
            r is Ok <==> append_error(self@) is None,
            r matches Err(e) ==> append_error(self@) == Some(e),
            r is Ok ==> final(image)@ == spec_appended(old(image)@, self@),
            r is Err && spec_footer_size(
                self@.extra_words.len() as int,
                self.isa.extra_word_count as int,
                self.abi.extra_word_count as int,
            ) is Ok && self.isa.extra_word_count == self.isa_extra_words@.len()
                && self.abi.extra_word_count == self.abi_extra_words@.len() ==> final(image)@ == old(
                image,
            )@ + extension_bytes(self@) + le_bytes(0),
            r is Err && !(spec_footer_size(
                self@.extra_words.len() as int,
                self.isa.extra_word_count as int,
                self.abi.extra_word_count as int,
            ) is Ok && self.isa.extra_word_count == self.isa_extra_words@.len()
                && self.abi.extra_word_count == self.abi_extra_words@.len()) ==> final(image)@ == old(
                image,
            )@,
    {
        validate_extra_lengths(self)?;
        let _footer_size = self.size()?;
        let ghost start = image@;

        push_words_reversed(image, &self.abi_extra_words);
        push_words_reversed(image, &self.isa_extra_words);
        push_words_reversed(image, &self.extra_words);
        assert(image@ =~= start + extension_bytes(self@));
        let ghost prefix = image@;
        push_word(image, 0);
        if self.extra_words.len() > 0xFFFF_FFFF {
            return Err(Error::FooterSizeOverflow);
        }
        let count = self.extra_words.len() as u32;
        push_word(image, count);
        push_word(image, self.abi.encode());
        push_word(image, self.isa.encode());
        push_word(image, MAGIC_AND_VERSION);
        assert(image@ =~= prefix + le_bytes(0) + trailer_bytes(self@));
        proof {
            crate::common::lemma_le_bytes_len(0);
        }
        let crc_offset = image.len() - 20;
        assert(image@.subrange(0, crc_offset as int) =~= prefix);
        assert(image@.subrange(crc_offset + 4, image@.len() as int) =~= trailer_bytes(self@));
        let crc = crc32_with_zeroed_field(image, crc_offset);
        let crc = match crc {
            Ok(c) => c,
            Err(e) => {
                assert(false);
                return Err(e);
            },
        };
        assert(zeroed_field(image@, crc_offset as int) =~= prefix + le_bytes(0) + trailer_bytes(
            self@,
        ));
        let ghost before_crc = image@;
        let bytes = crate::common::to_word(crc);
        image.set(crc_offset, bytes[0]);
        image.set(crc_offset + 1, bytes[1]);
        image.set(crc_offset + 2, bytes[2]);
        image.set(crc_offset + 3, bytes[3]);
        assert(image@ =~= spec_appended(start, self@));
        Ok(())
    }
}

/// Spec form of `IsaDescriptor::new`.
impl IsaDescriptor {
    pub open spec fn new_result(family: u8, subgroup: u8, inline_bits: u16, count: nat) -> Result<
        IsaDescriptor,
        Error,
    > {
        if inline_bits > 0x0FFF {
            Err(Error::InvalidInlineBits(inline_bits))
        } else if count > MAX_EXTRA_WORDS {
            Err(Error::TooManyExtraWords { kind: "ISA", count: count as usize })
        } else {
            Ok(IsaDescriptor { family, subgroup, inline_bits, extra_word_count: count as u8 })
        }
    }
}

/// Spec form of `AbiDescriptor::new`.
impl AbiDescriptor {
    pub open spec fn new_result(family: u32, count: nat) -> Result<AbiDescriptor, Error> {
        if family > 0x0FFF_FFFF {
            Err(Error::InvalidAbiFamily(family))
        } else if count > MAX_EXTRA_WORDS {
            Err(Error::TooManyExtraWords { kind: "ABI", count: count as usize })
        } else {
            Ok(AbiDescriptor { family, extra_word_count: count as u8 })
        }
    }
}

fn push_words_reversed(image: &mut Vec<u8>, words: &Vec<u32>)
    ensures
        final(image)@ == old(image)@ + le_words(words@.reverse()),
{
    let ghost start = image@;
    let mut i = words.len();
    while i > 0
        invariant
            i <= words@.len(),
            image@ == start + le_words(words@.subrange(i as int, words@.len() as int).reverse()),
        decreases i,
    {
        i = i - 1;
        let ghost before = image@;
        push_word(image, words[i]);
        proof {
            let tail = words@.subrange(i as int, words@.len() as int);
            let old_tail = words@.subrange(i + 1, words@.len() as int);
            assert(tail.reverse() =~= old_tail.reverse().push(words@[i as int]));
            crate::common::lemma_le_words_push(old_tail.reverse(), words@[i as int]);
        }
    }
    assert(words@.subrange(0, words@.len() as int) =~= words@);
}

fn validate_extra_lengths(footer: &Footer) -> (r: Result<(), Error>)
    ensures
        footer.isa.extra_word_count != footer.isa_extra_words@.len() ==> r == Err::<(), Error>(
            Error::WrongExtraWordCount {
                expected: footer.isa.extra_word_count as usize,
                actual: footer.isa_extra_words@.len() as usize,
            },
        ),
        footer.isa.extra_word_count == footer.isa_extra_words@.len()
            && footer.abi.extra_word_count != footer.abi_extra_words@.len() ==> r == Err::<
            (),
            Error,
        >(
            Error::WrongExtraWordCount {
                expected: footer.abi.extra_word_count as usize,
                actual: footer.abi_extra_words@.len() as usize,
            },
        ),
        footer.isa.extra_word_count == footer.isa_extra_words@.len()
            && footer.abi.extra_word_count == footer.abi_extra_words@.len() ==> r is Ok,
{
    if (footer.isa.extra_word_count as usize) != footer.isa_extra_words.len() {
        return Err(
            Error::WrongExtraWordCount {
                expected: footer.isa.extra_word_count as usize,
                actual: footer.isa_extra_words.len(),
            },
        );
    }
    if (footer.abi.extra_word_count as usize) != footer.abi_extra_words.len() {
        return Err(
            Error::WrongExtraWordCount {
                expected: footer.abi.extra_word_count as usize,
                actual: footer.abi_extra_words.len(),
            },
        );
    }
    Ok(())
}

// ---------------------------------------------------------------------------
// CRC
// ---------------------------------------------------------------------------
/// One bit of the reflected CRC-32 division: shift right, folding in the
/// reflected polynomial 0xEDB88320 when a one is shifted out.
pub open spec fn crc32_shift(c: u32) -> u32 {
    if c & 1 == 1 {
        (c >> 1) ^ 0xEDB8_8320u32
    } else {
        c >> 1
    }
}

/// `n` bits of the division.
pub open spec fn crc32_shifts(c: u32, n: nat) -> u32
    decreases n,
{
    if n == 0 {
        c
    } else {
        crc32_shifts(crc32_shift(c), (n - 1) as nat)
    }
}

/// The CRC register after `bytes`: it starts at all ones, and each byte, in
/// order, is folded into its low bits and divided through.
pub open spec fn crc32_register(bytes: Seq<u8>) -> u32
    decreases bytes.len(),
{
    if bytes.len() == 0 {
        0xFFFF_FFFFu32
    } else {
        crc32_shifts(crc32_register(bytes.drop_last()) ^ (bytes.last() as u32), 8)
    }
}

/// The CRC-32/ISO-HDLC (IEEE 802.3) checksum of a byte string: the register
/// after the bytes, complemented.
#[verifier::opaque]
pub open spec fn spec_crc32(bytes: Seq<u8>) -> u32 {
    crc32_register(bytes) ^ 0xFFFF_FFFFu32
}

/// Calls `crc32fast::hash`, which returns the CRC-32/ISO-HDLC checksum of
/// `bytes` (reflected polynomial 0xEDB88320, register starting at all ones,
/// result complemented), as `spec_crc32` states it.
#[verifier::external_body]
fn crc32(bytes: &[u8]) -> (r: u32)
    ensures
        r == spec_crc32(bytes@),
{
    crc32fast::hash(bytes)
}

/// `image` with the four bytes at `offset` replaced by zeros.
pub open spec fn zeroed_field(image: Seq<u8>, offset: int) -> Seq<u8> {
    image.subrange(0, offset) + le_bytes(0) + image.subrange(offset + 4, image.len() as int)
}

/// The CRC-32 of `image` with its four bytes at `crc_offset` read as zeros.
pub fn crc32_with_zeroed_field(image: &[u8], crc_offset: usize) -> (r: Result<u32, Error>)
    ensures
        crc_offset + 4 > usize::MAX ==> r == Err::<u32, Error>(Error::FooterSizeOverflow),
        crc_offset + 4 <= usize::MAX && crc_offset + 4 > image@.len() ==> r == Err::<u32, Error>(
            Error::Truncated,
        ),
        crc_offset + 4 <= image@.len() ==> r == Ok::<u32, Error>(
            spec_crc32(zeroed_field(image@, crc_offset as int)),
        ),
{
    let len = image.len();
    let crc_end = match crc_offset.checked_add(4) {
        Some(v) => v,
        None => {
            return Err(Error::FooterSizeOverflow);
        },
    };
    if crc_end > len {
        return Err(Error::Truncated);
    }
    let mut buf: Vec<u8> = Vec::new();
    let mut i: usize = 0;
    while i < crc_offset
        invariant
            i <= crc_offset,
            crc_offset + 4 <= image@.len(),
            buf@ == image@.subrange(0, i as int),
        decreases crc_offset - i,
    {
        buf.push(image[i]);
        i = i + 1;
        assert(buf@ =~= image@.subrange(0, i as int));
    }
    push_word(&mut buf, 0);
    let mut j: usize = crc_end;
    while j < image.len()
        invariant
            crc_end == crc_offset + 4,
            crc_end <= j <= image@.len(),
            buf@ == image@.subrange(0, crc_offset as int) + le_bytes(0) + image@.subrange(
                crc_end as int,
                j as int,
            ),
        decreases image@.len() - j,
    {
        buf.push(image[j]);
        j = j + 1;
        assert(buf@ =~= image@.subrange(0, crc_offset as int) + le_bytes(0) + image@.subrange(
            crc_end as int,
            j as int,
        ));
    }
    Ok(crc32(buf.as_slice()))
}


// ---------------------------------------------------------------------------
// Decoding
// ---------------------------------------------------------------------------
/// The little-endian word that ends `distance - 4` bytes before the end of `image`.
pub open spec fn word_from_end(image: Seq<u8>, distance: int) -> u32 {
    le_word(image, image.len() - distance)
}

/// `count` words read backwards, the first one `distance` bytes from the end.
pub open spec fn words_from_end(image: Seq<u8>, distance: int, count: nat) -> Seq<u32> {
    Seq::new(count, |k: int| word_from_end(image, distance + 4 * k))
}

pub open spec fn decoded_isa(image: Seq<u8>) -> IsaDescriptor {
    IsaDescriptor::spec_decode(word_from_end(image, 8))
}

pub open spec fn decoded_abi(image: Seq<u8>) -> AbiDescriptor {
    AbiDescriptor::spec_decode(word_from_end(image, 12))
}

pub open spec fn decoded_extra_count(image: Seq<u8>) -> nat {
    (word_from_end(image, 16) & 0xFF) as nat
}

pub open spec fn decoded_footer_size(image: Seq<u8>) -> int {
    4 * footer_word_count(
        decoded_extra_count(image) as int,
        decoded_isa(image).extra_word_count as int,
        decoded_abi(image).extra_word_count as int,
    )
}

/// Why `decode` refuses an image, if it does, checked in this order.
pub open spec fn decode_error(image: Seq<u8>) -> Option<Error> {
    if image.len() < FIXED_SIZE {
        Some(Error::Truncated)
    } else if word_from_end(image, 4) != MAGIC_AND_VERSION {
        Some(Error::InvalidMagic(word_from_end(image, 4)))
    } else if word_from_end(image, 16) & 0xFFFF_FF00 != 0 {
        Some(Error::InvalidExtraFieldsDescriptor(word_from_end(image, 16)))
    } else if decoded_footer_size(image) > image.len() {
        Some(Error::Truncated)
    } else if word_from_end(image, 20) != spec_crc32(zeroed_field(image, image.len() - 20)) {
        Some(
            Error::CrcMismatch {
                stored: word_from_end(image, 20),
                computed: spec_crc32(zeroed_field(image, image.len() - 20)),
            },
        )
    } else {
        None
    }
}

/// The footer that `decode` reads from an image it accepts.
pub open spec fn decoded_footer(image: Seq<u8>) -> FooterView {
    let n = decoded_extra_count(image);
    let isa = decoded_isa(image);
    let abi = decoded_abi(image);
    FooterView {
        isa,
        abi,
        extra_words: words_from_end(image, 24, n),
        isa_extra_words: words_from_end(image, 24 + 4 * n as int, isa.extra_word_count as nat),
        abi_extra_words: words_from_end(
            image,
            24 + 4 * n as int + 4 * isa.extra_word_count as int,
            abi.extra_word_count as nat,
        ),
    }
}

/// The result of `read_word_from_end`.
pub open spec fn spec_read_word_from_end(image: Seq<u8>, distance: int) -> Result<u32, Error> {
    if distance > image.len() {
        Err(Error::Truncated)
    } else if image.len() - distance + 4 > usize::MAX {
        Err(Error::FooterSizeOverflow)
    } else if distance < 4 {
        Err(Error::Truncated)
    } else {
        Ok(word_from_end(image, distance))
    }
}

/// Reads the little-endian word that starts `distance` bytes before the end of `image`.
pub fn read_word_from_end(image: &[u8], distance: usize) -> (r: Result<u32, Error>)
    ensures
        r == spec_read_word_from_end(image@, distance as int),
{
    let len = image.len();
    if distance > len {
        return Err(Error::Truncated);
    }
    let start = len - distance;
    if start > usize::MAX - 4 {
        return Err(Error::FooterSizeOverflow);
    }
    if distance < 4 {
        return Err(Error::Truncated);
    }
    Ok(read_le_word(image, start))
}

/// Reads the FAE 1.0 footer at the end of `image` and checks its CRC.
pub fn decode(image: &[u8]) -> (r: Result<DecodedFooter, Error>)
    ensures
        r is Ok <==> decode_error(image@) is None,
        r matches Err(e) ==> decode_error(image@) == Some(e),
        r matches Ok(d) ==> {
            &&& d.footer@ == decoded_footer(image@)
            &&& d.footer_size == decoded_footer_size(image@)
            &&& d.stored_crc == word_from_end(image@, 20)
        },
{
    let len = image.len();
    if len < FIXED_SIZE {
        return Err(Error::Truncated);
    }
    let magic = read_le_word(image, len - 4);
    if magic != MAGIC_AND_VERSION {
        return Err(Error::InvalidMagic(magic));
    }
    let isa = IsaDescriptor::decode(read_le_word(image, len - 8));
    let abi = AbiDescriptor::decode(read_le_word(image, len - 12));
    let extra_descriptor = read_le_word(image, len - 16);
    if extra_descriptor & 0xFFFF_FF00 != 0 {
        return Err(Error::InvalidExtraFieldsDescriptor(extra_descriptor));
    }
    let extra_count = (extra_descriptor & 0xFF) as usize;
    proof {
        assert(extra_descriptor & 0xFF <= 0xFF) by (bit_vector);
    }
    let footer_size = (FIXED_WORD_COUNT + extra_count + isa.extra_word_count as usize
        + abi.extra_word_count as usize) * 4;
    if footer_size > len {
        return Err(Error::Truncated);
    }
    let stored_crc = read_le_word(image, len - 20);
    let computed_crc = match crc32_with_zeroed_field(image, len - 20) {
        Ok(c) => c,
        Err(e) => {
            return Err(e);
        },
    };
    if stored_crc != computed_crc {
        return Err(Error::CrcMismatch { stored: stored_crc, computed: computed_crc });
    }
    let extra_words = read_words_from_end(image, 24, extra_count);
    let isa_extra_words = read_words_from_end(
        image,
        24 + 4 * extra_count,
        isa.extra_word_count as usize,
    );
    let abi_extra_words = read_words_from_end(
        image,
        24 + 4 * extra_count + 4 * isa.extra_word_count as usize,
        abi.extra_word_count as usize,
    );
    Ok(
        DecodedFooter {
            footer: Footer { isa, abi, extra_words, isa_extra_words, abi_extra_words },
            footer_size,
            stored_crc,
        },
    )
}

fn read_words_from_end(image: &[u8], distance: usize, count: usize) -> (r: Vec<u32>)
    requires
        distance >= 4,
        distance + 4 * count <= image@.len() + 4,
    ensures
        r@ == words_from_end(image@, distance as int, count as nat),
{
    let len = image.len();
    let mut out: Vec<u32> = Vec::new();
    let mut k: usize = 0;
    while k < count
        invariant
            len == image@.len(),
            distance >= 4,
            distance + 4 * count <= len + 4,
            k <= count,
            out@ == words_from_end(image@, distance as int, k as nat),
        decreases count - k,
    {
        out.push(read_le_word(image, len - (distance + 4 * k)));
        k = k + 1;
        assert(out@ =~= words_from_end(image@, distance as int, k as nat));
    }
    out
}


proof fn lemma_appended_fixed_words(image: Seq<u8>, f: FooterView)
    ensures
        spec_appended(image, f).len() == image.len() + extension_bytes(f).len() + 20,
        extension_bytes(f).len() == 4 * (f.abi_extra_words.len() + f.isa_extra_words.len()
            + f.extra_words.len()),
        word_from_end(spec_appended(image, f), 4) == MAGIC_AND_VERSION,
        word_from_end(spec_appended(image, f), 8) == f.isa.spec_encode(),
        word_from_end(spec_appended(image, f), 12) == f.abi.spec_encode(),
        word_from_end(spec_appended(image, f), 16) == f.extra_words.len() as u32,
        word_from_end(spec_appended(image, f), 20) == spec_crc32(
            image + extension_bytes(f) + le_bytes(0) + trailer_bytes(f),
        ),
        zeroed_field(spec_appended(image, f), spec_appended(image, f).len() - 20) == image
            + extension_bytes(f) + le_bytes(0) + trailer_bytes(f),
{
    lemma_le_words_len(f.abi_extra_words.reverse());
    lemma_le_words_len(f.isa_extra_words.reverse());
    lemma_le_words_len(f.extra_words.reverse());
    let p = image + extension_bytes(f);
    let crc = spec_crc32(p + le_bytes(0) + trailer_bytes(f));
    let count = f.extra_words.len() as u32;
    let c = le_bytes(crc);
    let t1 = le_bytes(count);
    let t2 = le_bytes(f.abi.spec_encode());
    let t3 = le_bytes(f.isa.spec_encode());
    let t4 = le_bytes(MAGIC_AND_VERSION);
    lemma_le_bytes_len(crc);
    lemma_le_bytes_len(count);
    lemma_le_bytes_len(f.abi.spec_encode());
    lemma_le_bytes_len(f.isa.spec_encode());
    lemma_le_bytes_len(MAGIC_AND_VERSION);
    lemma_le_bytes_len(0);
    let full = spec_appended(image, f);
    assert(full == p + c + (t1 + t2 + t3 + t4));
    assert(full =~= (p + c + t1 + t2 + t3) + t4 + Seq::<u8>::empty());
    lemma_le_word_of_bytes_in_middle(p + c + t1 + t2 + t3, MAGIC_AND_VERSION, Seq::empty());
    assert(full =~= (p + c + t1 + t2) + t3 + t4);
    lemma_le_word_of_bytes_in_middle(p + c + t1 + t2, f.isa.spec_encode(), t4);
    assert(full =~= (p + c + t1) + t2 + (t3 + t4));
    lemma_le_word_of_bytes_in_middle(p + c + t1, f.abi.spec_encode(), t3 + t4);
    assert(full =~= (p + c) + t1 + (t2 + t3 + t4));
    lemma_le_word_of_bytes_in_middle(p + c, count, t2 + t3 + t4);
    lemma_le_word_of_bytes_in_middle(p, crc, t1 + t2 + t3 + t4);
    assert(zeroed_field(full, full.len() - 20) =~= p + le_bytes(0) + trailer_bytes(f));
}

proof fn lemma_appended_extension_words(image: Seq<u8>, f: FooterView)
    ensures
        words_from_end(spec_appended(image, f), 24, f.extra_words.len()) == f.extra_words,
        words_from_end(
            spec_appended(image, f),
            24 + 4 * f.extra_words.len() as int,
            f.isa_extra_words.len(),
        ) == f.isa_extra_words,
        words_from_end(
            spec_appended(image, f),
            24 + 4 * f.extra_words.len() as int + 4 * f.isa_extra_words.len() as int,
            f.abi_extra_words.len(),
        ) == f.abi_extra_words,
{
    let e = f.extra_words.len() as int;
    let i = f.isa_extra_words.len() as int;
    let a = f.abi_extra_words.len() as int;
    let la = le_words(f.abi_extra_words.reverse());
    let li = le_words(f.isa_extra_words.reverse());
    let lx = le_words(f.extra_words.reverse());
    lemma_le_words_len(f.abi_extra_words.reverse());
    lemma_le_words_len(f.isa_extra_words.reverse());
    lemma_le_words_len(f.extra_words.reverse());
    let p = image + extension_bytes(f);
    let crc = spec_crc32(p + le_bytes(0) + trailer_bytes(f));
    let tail = le_bytes(crc) + trailer_bytes(f);
    lemma_le_bytes_len(crc);
    lemma_le_bytes_len(f.extra_words.len() as u32);
    lemma_le_bytes_len(f.abi.spec_encode());
    lemma_le_bytes_len(f.isa.spec_encode());
    lemma_le_bytes_len(MAGIC_AND_VERSION);
    let full = spec_appended(image, f);
    assert(tail.len() == 20);
    assert forall|k: int| 0 <= k < e implies #[trigger] words_from_end(full, 24, e as nat)[k]
        == f.extra_words[k] by {
        assert(full =~= (image + la + li) + lx + tail);
        lemma_le_word_in_middle(image + la + li, f.extra_words.reverse(), tail, e - 1 - k);
    }
    assert(words_from_end(full, 24, e as nat) =~= f.extra_words);
    assert forall|k: int| 0 <= k < i implies #[trigger] words_from_end(
        full,
        24 + 4 * e,
        i as nat,
    )[k] == f.isa_extra_words[k] by {
        assert(full =~= (image + la) + li + (lx + tail));
        lemma_le_word_in_middle(image + la, f.isa_extra_words.reverse(), lx + tail, i - 1 - k);
    }
    assert(words_from_end(full, 24 + 4 * e, i as nat) =~= f.isa_extra_words);
    assert forall|k: int| 0 <= k < a implies #[trigger] words_from_end(
        full,
        24 + 4 * e + 4 * i,
        a as nat,
    )[k] == f.abi_extra_words[k] by {
        assert(full =~= image + la + (li + lx + tail));
        lemma_le_word_in_middle(image, f.abi_extra_words.reverse(), li + lx + tail, a - 1 - k);
    }
    assert(words_from_end(full, 24 + 4 * e + 4 * i, a as nat) =~= f.abi_extra_words);
}

/// A footer appended to an image reads back as that footer, with its size and
/// the CRC that was written.
pub proof fn lemma_footer_round_trip(image: Seq<u8>, f: FooterView)
    requires
        append_error(f) is None,
        f.isa.wf(),
        f.abi.wf(),
        f.extra_words.len() <= 0xFF,
    ensures
        decode_error(spec_appended(image, f)) is None,
        decoded_footer(spec_appended(image, f)) == f,
        decoded_footer_size(spec_appended(image, f)) == 4 * footer_word_count(
            f.extra_words.len() as int,
            f.isa_extra_words.len() as int,
            f.abi_extra_words.len() as int,
        ),
        word_from_end(spec_appended(image, f), 20) == spec_crc32(
            image + extension_bytes(f) + le_bytes(0) + trailer_bytes(f),
        ),
{
    lemma_appended_fixed_words(image, f);
    lemma_appended_extension_words(image, f);
    let count = f.extra_words.len() as u32;
    assert(count <= 0xFF ==> count & 0xFFFF_FF00 == 0 && count & 0xFF == count) by (bit_vector);
    lemma_isa_descriptor_round_trip(f.isa);
    lemma_abi_descriptor_round_trip(f.abi);
}


// ---------------------------------------------------------------------------
// ABI profiles
// ---------------------------------------------------------------------------
/// Why a footer does not carry the profile `family` with `words` extra words, if it does not.
pub open spec fn profile_error(f: FooterView, family: u32, words: nat) -> Option<Error> {
    if f.abi.family != family {
        Some(Error::WrongAbi { expected: family, actual: f.abi.family })
    } else if f.abi_extra_words.len() != words {
        Some(
            Error::WrongExtraWordCount {
                expected: words as usize,
                actual: f.abi_extra_words.len() as usize,
            },
        )
    } else {
        None
    }
}

fn require_profile(footer: &Footer, family: u32, words: usize) -> (r: Result<(), Error>)
    ensures
        r is Ok <==> profile_error(footer@, family, words as nat) is None,
        r matches Err(e) ==> profile_error(footer@, family, words as nat) == Some(e),
{
    if footer.abi.family != family {
        return Err(Error::WrongAbi { expected: family, actual: footer.abi.family });
    }
    if footer.abi_extra_words.len() != words {
        return Err(
            Error::WrongExtraWordCount { expected: words, actual: footer.abi_extra_words.len() },
        );
    }
    Ok(())
}

#[derive(Debug, Clone, Copy, PartialEq, Eq)]
pub struct XipfsProfile {
    pub ram_size: u32,
    pub got_size: u32,
    pub rom_size: u32,
    pub rom_ram_size: u32,
    pub entrypoint_offset: u32,
    pub startup_code_size: u32,
}

impl XipfsProfile {
    pub const EXTRA_WORD_COUNT: usize = 6;

    pub open spec fn spec_words(self) -> Seq<u32> {
        seq![
            self.ram_size,
            self.got_size,
            self.rom_size,
            self.rom_ram_size,
            self.entrypoint_offset,
            self.startup_code_size,
        ]
    }

    /// The profile's ABI extra words, in footer order.
    pub fn words(self) -> (r: Vec<u32>)
        ensures
            r@ == self.spec_words(),
    {
        let mut v: Vec<u32> = Vec::new();
        v.push(self.ram_size);
        v.push(self.got_size);
        v.push(self.rom_size);
        v.push(self.rom_ram_size);
        v.push(self.entrypoint_offset);
        v.push(self.startup_code_size);
        assert(v@ =~= self.spec_words());
        v
    }

    /// Reads the XiPFS profile from a footer that carries it.
    pub fn decode(footer: &Footer) -> (r: Result<Self, Error>)
        ensures
            r is Ok <==> profile_error(footer@, registry::abi::XIPFS, 6) is None,
            r matches Err(e) ==> profile_error(footer@, registry::abi::XIPFS, 6) == Some(e),
            r matches Ok(p) ==> p.spec_words() == footer@.abi_extra_words,
    {
        require_profile(footer, registry::abi::XIPFS, Self::EXTRA_WORD_COUNT)?;
        let w = &footer.abi_extra_words;
        let p = Self {
            ram_size: w[0],
            got_size: w[1],
            rom_size: w[2],
            rom_ram_size: w[3],
            entrypoint_offset: w[4],
            startup_code_size: w[5],
        };
        assert(p.spec_words() =~= footer@.abi_extra_words);
        Ok(p)
    }
}

/// A footer that carries a profile's words under the XiPFS family reads back
/// as that profile: the check passes, and only the profile has those words.
pub proof fn lemma_xipfs_profile_round_trip(p: XipfsProfile, f: FooterView)
    requires
        f.abi.family == registry::abi::XIPFS,
        f.abi_extra_words == p.spec_words(),
    ensures
        profile_error(f, registry::abi::XIPFS, 6) is None,
        forall|q: XipfsProfile| #[trigger] q.spec_words() == f.abi_extra_words ==> q == p,
{
    assert forall|q: XipfsProfile| #[trigger] q.spec_words() == f.abi_extra_words implies q == p by {
        assert(q.spec_words()[0] == p.spec_words()[0]);
        assert(q.spec_words()[1] == p.spec_words()[1]);
        assert(q.spec_words()[2] == p.spec_words()[2]);
        assert(q.spec_words()[3] == p.spec_words()[3]);
        assert(q.spec_words()[4] == p.spec_words()[4]);
        assert(q.spec_words()[5] == p.spec_words()[5]);
    }
}

#[derive(Debug, Clone, Copy, PartialEq, Eq)]
pub struct AbiVersion {
    pub major: u8,
    pub minor: u8,
    pub patch: u8,
    pub revision: u8,
}

impl AbiVersion {
    /// The minor, patch and revision numbers fit in a nibble each.
    pub open spec fn wf(self) -> bool {
        self.minor <= 0x0F && self.patch <= 0x0F && self.revision <= 0x0F
    }

    pub open spec fn spec_encode(self) -> u32 {
        ((self.major as u32) << 12u32) | ((self.minor as u32) << 8u32) | ((self.patch as u32)
            << 4u32) | (self.revision as u32)
    }

    pub open spec fn spec_decode(word: u32) -> AbiVersion {
        AbiVersion {
            major: ((word >> 12u32) & 0xFF) as u8,
            minor: ((word >> 8u32) & 0x0F) as u8,
            patch: ((word >> 4u32) & 0x0F) as u8,
            revision: (word & 0x0F) as u8,
        }
    }

    pub fn encode(self) -> (r: Result<u32, Error>)
        ensures
            self.wf() ==> r == Ok::<u32, Error>(self.spec_encode()),
            !self.wf() ==> r == Err::<u32, Error>(Error::InvalidRustletProfile(0)),
    {
        if self.minor > 0x0F || self.patch > 0x0F || self.revision > 0x0F {
            return Err(Error::InvalidRustletProfile(0));
        }
        Ok(((self.major as u32) << 12u32) | ((self.minor as u32) << 8u32) | ((self.patch as u32)
            << 4u32) | (self.revision as u32))
    }

    pub fn decode(word: u32) -> (r: Self)
        ensures
            r == Self::spec_decode(word),
            r.wf(),
    {
        proof {
            assert((word >> 8u32) & 0x0F <= 0x0F && (word >> 4u32) & 0x0F <= 0x0F && word & 0x0F
                <= 0x0F) by (bit_vector);
        }
        Self {
            major: ((word >> 12u32) & 0xFF) as u8,
            minor: ((word >> 8u32) & 0x0F) as u8,
            patch: ((word >> 4u32) & 0x0F) as u8,
            revision: (word & 0x0F) as u8,
        }
    }
}

/// Decoding an encoded well-formed version gives it back.
pub proof fn lemma_abi_version_round_trip(v: AbiVersion)
    requires
        v.wf(),
    ensures
        AbiVersion::spec_decode(v.spec_encode()) == v,
        v.spec_encode() <= 0xF_FFFF,
{
    let a = v.major as u32;
    let b = v.minor as u32;
    let c = v.patch as u32;
    let d = v.revision as u32;
    let w = v.spec_encode();
    assert(a <= 0xFF && b <= 0x0F && c <= 0x0F && d <= 0x0F && w == (a << 12u32) | (b << 8u32) | (c
        << 4u32) | d ==> (w >> 12u32) & 0xFF == a && (w >> 8u32) & 0x0F == b && (w >> 4u32) & 0x0F
        == c && w & 0x0F == d && w <= 0xF_FFFF) by (bit_vector);
}

#[derive(Debug, Clone, Copy, PartialEq, Eq)]
pub enum RustletProfileKind {
    Application,
    SecurityDomain,
}

impl RustletProfileKind {
    pub open spec fn spec_marker(self) -> u16 {
        match self {
            RustletProfileKind::Application => registry::abi::RUSTLET_APPLICATION,
            RustletProfileKind::SecurityDomain => registry::abi::RUSTLET_SECURITY_DOMAIN,
        }
    }

    fn marker(self) -> (r: u16)
        ensures
            r == self.spec_marker(),
    {
        match self {
            Self::Application => registry::abi::RUSTLET_APPLICATION,
            Self::SecurityDomain => registry::abi::RUSTLET_SECURITY_DOMAIN,
        }
    }

    pub open spec fn spec_from_marker(marker: u16) -> Result<RustletProfileKind, Error> {
        if marker == registry::abi::RUSTLET_APPLICATION {
            Ok(RustletProfileKind::Application)
        } else if marker == registry::abi::RUSTLET_SECURITY_DOMAIN {
            Ok(RustletProfileKind::SecurityDomain)
        } else {
            Err(Error::InvalidRustletProfile(marker))
        }
    }

    fn from_marker(marker: u16) -> (r: Result<Self, Error>)
        ensures
            r == Self::spec_from_marker(marker),
    {
        if marker == registry::abi::RUSTLET_APPLICATION {
            Ok(Self::Application)
        } else if marker == registry::abi::RUSTLET_SECURITY_DOMAIN {
            Ok(Self::SecurityDomain)
        } else {
            Err(Error::InvalidRustletProfile(marker))
        }
    }
}

#[derive(Debug, Clone, Copy, PartialEq, Eq)]
pub struct OxideSeProfile {
    pub kind: RustletProfileKind,
    pub minimum_version: AbiVersion,
    pub writable_ram_size: u32,
    pub stack_size: u32,
}

/// The number of 32-byte units that cover `bytes`, when it fits in 16 bits.
pub open spec fn spec_memory_units(kind: &'static str, bytes: u32) -> Result<u16, Error> {
    if bytes + 31 <= u32::MAX && (bytes + 31) / 32 <= u16::MAX {
        Ok(((bytes + 31) / 32) as u16)
    } else {
        Err(Error::RustletMemoryRequirementTooLarge { kind, bytes })
    }
}

fn encode_memory_units(kind: &'static str, bytes: u32) -> (r: Result<u16, Error>)
    ensures
        r == spec_memory_units(kind, bytes),
{
    let units = match bytes.checked_add(OxideSeProfile::MEMORY_UNIT - 1) {
        Some(v) => v / OxideSeProfile::MEMORY_UNIT,
        None => {
            return Err(Error::RustletMemoryRequirementTooLarge { kind, bytes });
        },
    };
    if units > 0xFFFF {
        return Err(Error::RustletMemoryRequirementTooLarge { kind, bytes });
    }
    Ok(units as u16)
}

impl OxideSeProfile {
    pub const EXTRA_WORD_COUNT: usize = 2;

    pub const MEMORY_UNIT: u32 = 32;

    /// `u16::MAX` units of 32 bytes.
    pub const MAX_MEMORY_REQUIREMENT: u32 = 2_097_120;

    /// The first word: the profile marker above the minimum ABI version.
    pub open spec fn spec_version_word(self) -> u32 {
        ((self.kind.spec_marker() as u32) << 20u32) | self.minimum_version.spec_encode()
    }

    /// The second word: writable RAM units above stack units.
    pub open spec fn spec_memory_word(writable_units: u16, stack_units: u16) -> u32 {
        ((writable_units as u32) << 16u32) | (stack_units as u32)
    }

    /// Why `words` refuses a profile, if it does, checked in this order.
    pub open spec fn words_error(self) -> Option<Error> {
        if !self.minimum_version.wf() {
            Some(Error::InvalidRustletProfile(0))
        } else if spec_memory_units("writable RAM", self.writable_ram_size) is Err {
            Some(spec_memory_units("writable RAM", self.writable_ram_size)->Err_0)
        } else if spec_memory_units("stack", self.stack_size) is Err {
            Some(spec_memory_units("stack", self.stack_size)->Err_0)
        } else {
            None
        }
    }

    /// The profile's two ABI extra words.
    pub fn words(self) -> (r: Result<Vec<u32>, Error>)
        ensures
            r is Ok <==> self.words_error() is None,
            r matches Err(e) ==> self.words_error() == Some(e),
            r matches Ok(w) ==> w@ == seq![
                self.spec_version_word(),
                Self::spec_memory_word(
                    spec_memory_units("writable RAM", self.writable_ram_size)->Ok_0,
                    spec_memory_units("stack", self.stack_size)->Ok_0,
                ),
            ],
    {
        let version = self.minimum_version.encode()?;
        let profile_version = ((self.kind.marker() as u32) << 20u32) | version;
        let writable_ram_units = encode_memory_units("writable RAM", self.writable_ram_size)?;
        let stack_units = encode_memory_units("stack", self.stack_size)?;
        let mut v: Vec<u32> = Vec::new();
        v.push(profile_version);
        v.push(((writable_ram_units as u32) << 16u32) | (stack_units as u32));
        assert(v@ =~= seq![
            self.spec_version_word(),
            Self::spec_memory_word(writable_ram_units, stack_units),
        ]);
        Ok(v)
    }

    pub open spec fn spec_decoded(w0: u32, kind: RustletProfileKind, w1: u32) -> OxideSeProfile {
        OxideSeProfile {
            kind,
            minimum_version: AbiVersion::spec_decode(w0 & 0x000F_FFFF),
            writable_ram_size: (((w1 >> 16u32) & 0xFFFF) * 32) as u32,
            stack_size: ((w1 & 0xFFFF) * 32) as u32,
        }
    }

    /// Reads the Rustlet profile from a footer that carries it.
    pub fn decode(footer: &Footer) -> (r: Result<Self, Error>)
        ensures
            ({
                let w = footer@.abi_extra_words;
                match profile_error(footer@, registry::abi::OXIDE_SE, 2) {
                    Some(e) => r == Err::<Self, Error>(e),
                    None => match RustletProfileKind::spec_from_marker((w[0] >> 20u32) as u16) {
                        Err(e) => r == Err::<Self, Error>(e),
                        Ok(kind) => r == Ok::<Self, Error>(Self::spec_decoded(w[0], kind, w[1])),
                    },
                }
            }),
    {
        require_profile(footer, registry::abi::OXIDE_SE, Self::EXTRA_WORD_COUNT)?;
        let w = &footer.abi_extra_words;
        let marker = (w[0] >> 20u32) as u16;
        let kind = RustletProfileKind::from_marker(marker)?;
        proof {
            let w1 = w@[1];
            assert((w1 >> 16u32) & 0xFFFF <= 0xFFFF && w1 & 0xFFFF <= 0xFFFF) by (bit_vector);
        }
        Ok(
            Self {
                kind,
                minimum_version: AbiVersion::decode(w[0] & 0x000F_FFFF),
                writable_ram_size: ((w[1] >> 16u32) & 0xFFFF) * Self::MEMORY_UNIT,
                stack_size: (w[1] & 0xFFFF) * Self::MEMORY_UNIT,
            },
        )
    }
}

/// `bytes` rounded up to the next multiple of 32.
pub open spec fn round_up_32(bytes: u32) -> int {
    (bytes + 31) / 32 * 32
}

/// A Rustlet profile written as ABI words reads back with the same kind and
/// version, and with each memory requirement rounded up to whole 32-byte units.
pub proof fn lemma_oxide_se_round_trip(p: OxideSeProfile)
    requires
        p.words_error() is None,
    ensures
        ({
            let wu = spec_memory_units("writable RAM", p.writable_ram_size)->Ok_0;
            let su = spec_memory_units("stack", p.stack_size)->Ok_0;
            let w0 = p.spec_version_word();
            let w1 = OxideSeProfile::spec_memory_word(wu, su);
            &&& RustletProfileKind::spec_from_marker((w0 >> 20u32) as u16) == Ok::<
                RustletProfileKind,
                Error,
            >(p.kind)
            &&& OxideSeProfile::spec_decoded(w0, p.kind, w1) == OxideSeProfile {
                writable_ram_size: round_up_32(p.writable_ram_size) as u32,
                stack_size: round_up_32(p.stack_size) as u32,
                ..p
            }
            &&& round_up_32(p.writable_ram_size) <= u32::MAX
            &&& round_up_32(p.stack_size) <= u32::MAX
        }),
{
    let wu = spec_memory_units("writable RAM", p.writable_ram_size)->Ok_0;
    let su = spec_memory_units("stack", p.stack_size)->Ok_0;
    let m = p.kind.spec_marker() as u32;
    let v = p.minimum_version.spec_encode();
    lemma_abi_version_round_trip(p.minimum_version);
    let w0 = p.spec_version_word();
    assert(m <= 0xFFF && v <= 0xF_FFFF && w0 == (m << 20u32) | v ==> w0 >> 20u32 == m && w0
        & 0x000F_FFFF == v) by (bit_vector);
    assert((m as u16) as u32 == m);
    let a = wu as u32;
    let b = su as u32;
    let w1 = OxideSeProfile::spec_memory_word(wu, su);
    assert(a <= 0xFFFF && b <= 0xFFFF && w1 == (a << 16u32) | b ==> (w1 >> 16u32) & 0xFFFF == a
        && w1 & 0xFFFF == b) by (bit_vector);
}


// ---------------------------------------------------------------------------
// RISC-V ISA strings
// ---------------------------------------------------------------------------
/// A byte allowed in a canonical ISA string: lowercase ASCII letter, digit or '_'.
pub open spec fn is_canonical_isa_byte(c: u8) -> bool {
    (97 <= c && c <= 122) || (48 <= c && c <= 57) || c == 95
}

/// The text starts with "rv32" or "rv64".
pub open spec fn has_rv_prefix(b: Seq<u8>) -> bool {
    b.len() >= 4 && b[0] == 114 && b[1] == 118 && ((b[2] == 51 && b[3] == 50) || (b[2] == 54 && b[3]
        == 52))
}

/// Words needed for the text and its NUL terminator.
pub open spec fn isa_word_count(len: int) -> int {
    (len + 4) / 4
}

/// `b` followed by zeros up to `n` bytes.
pub open spec fn zero_padded(b: Seq<u8>, n: int) -> Seq<u8> {
    b + Seq::new((n - b.len()) as nat, |i: int| 0u8)
}

/// The little-endian words of the NUL-padded text.
pub open spec fn isa_text_words(b: Seq<u8>) -> Seq<u32> {
    let n = isa_word_count(b.len() as int);
    Seq::new(n as nat, |k: int| le_word(zero_padded(b, 4 * n), 4 * k))
}

/// What `encode_riscv_isa` gives for a text with UTF-8 bytes `b`.
pub open spec fn encode_isa_result(b: Seq<u8>) -> Result<Seq<u32>, Error> {
    if !has_rv_prefix(b) {
        Err(Error::InvalidRiscvIsa("must start with rv32 or rv64"))
    } else if !(forall|i: int| 0 <= i < b.len() ==> is_canonical_isa_byte(#[trigger] b[i])) {
        Err(Error::InvalidRiscvIsa("must use canonical lowercase ASCII"))
    } else if b.len() + 4 > usize::MAX {
        Err(Error::FooterSizeOverflow)
    } else if isa_word_count(b.len() as int) > MAX_EXTRA_WORDS {
        Err(
            Error::TooManyExtraWords {
                kind: "ISA",
                count: isa_word_count(b.len() as int) as usize,
            },
        )
    } else {
        Ok(isa_text_words(b))
    }
}

/// Encodes a canonical RISC-V ISA string as NUL-terminated little-endian words.
pub fn encode_riscv_isa(isa: &str) -> (r: Result<Vec<u32>, Error>)
    ensures
        match encode_isa_result(isa.spec_bytes()) {
            Ok(w) => r is Ok && r->Ok_0@ == w,
            Err(e) => r == Err::<Vec<u32>, Error>(e),
        },
{
    let b = isa.as_bytes();
    let len = b.len();
    let prefixed = len >= 4 && b[0] == 114 && b[1] == 118 && ((b[2] == 51 && b[3] == 50) || (b[2]
        == 54 && b[3] == 52));
    if !prefixed {
        return Err(Error::InvalidRiscvIsa("must start with rv32 or rv64"));
    }
    let mut i: usize = 0;
    while i < len
        invariant
            len == b@.len(),
            b@ == isa.spec_bytes(),
            has_rv_prefix(b@),
            i <= len,
            forall|j: int| 0 <= j < i ==> is_canonical_isa_byte(#[trigger] b@[j]),
        decreases len - i,
    {
        let c = b[i];
        if !((97 <= c && c <= 122) || (48 <= c && c <= 57) || c == 95) {
            assert(!is_canonical_isa_byte(b@[i as int]));
            return Err(Error::InvalidRiscvIsa("must use canonical lowercase ASCII"));
        }
        i = i + 1;
    }
    if len > usize::MAX - 4 {
        return Err(Error::FooterSizeOverflow);
    }
    let word_count = (len + 4) / 4;
    checked_count("ISA", word_count)?;
    let ghost padded = zero_padded(b@, 4 * word_count);
    let mut words: Vec<u32> = Vec::new();
    let mut k: usize = 0;
    while k < word_count
        invariant
            len == b@.len(),
            word_count == isa_word_count(len as int),
            word_count <= MAX_EXTRA_WORDS,
            padded == zero_padded(b@, 4 * word_count),
            k <= word_count,
            words@ == Seq::new(k as nat, |j: int| le_word(padded, 4 * j)),
        decreases word_count - k,
    {
        let b0 = padded_byte(b, 4 * k);
        let b1 = padded_byte(b, 4 * k + 1);
        let b2 = padded_byte(b, 4 * k + 2);
        let b3 = padded_byte(b, 4 * k + 3);
        words.push((b0 as u32) + 256 * (b1 as u32) + 65536 * (b2 as u32) + 16777216 * (b3 as u32));
        k = k + 1;
        assert(words@ =~= Seq::new(k as nat, |j: int| le_word(padded, 4 * j)));
    }
    Ok(words)
}

fn padded_byte(b: &[u8], i: usize) -> (r: u8)
    ensures
        r == (if i < b@.len() {
            b@[i as int]
        } else {
            0u8
        }),
{
    if i < b.len() {
        b[i]
    } else {
        0
    }
}

/// The index of the first zero byte of `b`, when there is one.
pub open spec fn first_zero(b: Seq<u8>) -> int {
    choose|n: int| 0 <= n < b.len() && b[n] == 0 && forall|j: int| 0 <= j < n ==> b[j] != 0
}

pub open spec fn has_zero(b: Seq<u8>) -> bool {
    exists|n: int| 0 <= n < b.len() && b[n] == 0
}

/// What `decode_riscv_isa` reads from `words`: the UTF-8 bytes of the text.
pub open spec fn decode_isa_result(words: Seq<u32>) -> Result<Seq<u8>, Error> {
    let b = le_words(words);
    if words.len() == 0 || words.len() > MAX_EXTRA_WORDS {
        Err(Error::InvalidRiscvIsa("invalid word count"))
    } else if !has_zero(b) {
        Err(Error::InvalidRiscvIsa("missing NUL terminator"))
    } else if exists|j: int| first_zero(b) < j < b.len() && b[j] != 0 {
        Err(Error::InvalidRiscvIsa("non-zero byte after terminator"))
    } else if !valid_utf8(b.subrange(0, first_zero(b))) {
        Err(Error::InvalidRiscvIsa("not UTF-8"))
    } else {
        match encode_isa_result(b.subrange(0, first_zero(b))) {
            Err(e) => Err(e),
            Ok(_) => Ok(b.subrange(0, first_zero(b))),
        }
    }
}

/// `core::str::Utf8Error`, the error of `from_utf8`, carried through opaque.
#[verifier::external_type_specification]
#[verifier::external_body]
pub struct ExUtf8Error(core::str::Utf8Error);

/// `core::str::from_utf8` accepts exactly the valid UTF-8 byte strings, and
/// the `str` it returns has those bytes, as its documentation says. Which
/// error it gives for invalid bytes is not stated.
pub assume_specification<'a>[ core::str::from_utf8 ](v: &'a [u8]) -> (r: Result<
    &'a str,
    core::str::Utf8Error,
>)
    ensures
        r is Ok <==> valid_utf8(v@),
        r matches Ok(s) ==> s.spec_bytes() == v@,
;

/// Reads back a canonical RISC-V ISA string from its words.
pub fn decode_riscv_isa(words: &[u32]) -> (r: Result<String, Error>)
    ensures
        match decode_isa_result(words@) {
            Ok(b) => r is Ok && r->Ok_0@ == decode_utf8(b),
            Err(e) => r == Err::<String, Error>(e),
        },
{
    if words.len() == 0 || words.len() > MAX_EXTRA_WORDS {
        return Err(Error::InvalidRiscvIsa("invalid word count"));
    }
    let mut bytes: Vec<u8> = Vec::new();
    let mut k: usize = 0;
    while k < words.len()
        invariant
            k <= words@.len(),
            bytes@ == le_words(words@.subrange(0, k as int)),
        decreases words@.len() - k,
    {
        let ghost before = bytes@;
        push_word(&mut bytes, words[k]);
        proof {
            assert(words@.subrange(0, k + 1) =~= words@.subrange(0, k as int).push(words@[k as int]));
            crate::common::lemma_le_words_push(words@.subrange(0, k as int), words@[k as int]);
        }
        k = k + 1;
    }
    assert(words@.subrange(0, words@.len() as int) =~= words@);
    let ghost b = le_words(words@);
    let n = bytes.len();
    let mut nul: usize = 0;
    while nul < n && bytes[nul] != 0
        invariant
            n == bytes@.len(),
            nul <= n,
            forall|j: int| 0 <= j < nul ==> bytes@[j] != 0,
        decreases n - nul,
    {
        nul = nul + 1;
    }
    if nul == n {
        return Err(Error::InvalidRiscvIsa("missing NUL terminator"));
    }
    assert(has_zero(b));
    assert(first_zero(b) == nul) by {
        let c = first_zero(b);
        if c < nul {
            assert(b[c] == 0);
        } else if c > nul {
            assert(b[nul as int] == 0);
        }
    }
    let mut j: usize = nul + 1;
    while j < n && bytes[j] == 0
        invariant
            n == bytes@.len(),
            nul < j <= n,
            forall|t: int| nul < t < j ==> bytes@[t] == 0,
        decreases n - j,
    {
        j = j + 1;
    }
    if j < n {
        assert(first_zero(b) < j < b.len() && b[j as int] != 0);
        return Err(Error::InvalidRiscvIsa("non-zero byte after terminator"));
    }
    let mut text_bytes: Vec<u8> = Vec::new();
    let mut t: usize = 0;
    while t < nul
        invariant
            nul < n == bytes@.len(),
            t <= nul,
            text_bytes@ == bytes@.subrange(0, t as int),
        decreases nul - t,
    {
        text_bytes.push(bytes[t]);
        t = t + 1;
        assert(text_bytes@ =~= bytes@.subrange(0, t as int));
    }
    let text = match core::str::from_utf8(text_bytes.as_slice()) {
        Ok(s) => s,
        Err(_) => {
            return Err(Error::InvalidRiscvIsa("not UTF-8"));
        },
    };
    encode_riscv_isa(text)?;
    let out = text.to_owned();
    proof {
        encode_utf8_decode_utf8(text@);
    }
    Ok(out)
}

/// A canonical ISA string written as words reads back as the same text.
pub proof fn lemma_riscv_isa_round_trip(chars: Seq<char>)
    requires
        encode_isa_result(encode_utf8(chars)) is Ok,
    ensures
        decode_isa_result(encode_isa_result(encode_utf8(chars))->Ok_0) == Ok::<Seq<u8>, Error>(
            encode_utf8(chars),
        ),
        decode_utf8(encode_utf8(chars)) == chars,
{
    let b = encode_utf8(chars);
    let n = isa_word_count(b.len() as int);
    let words = isa_text_words(b);
    let padded = zero_padded(b, 4 * n);
    encode_utf8_valid_utf8(chars);
    encode_utf8_decode_utf8(chars);
    lemma_words_of_padded(padded, n as nat);
    let lw = le_words(words);
    assert(lw == padded);
    assert(padded[b.len() as int] == 0);
    assert(has_zero(lw));
    assert(b[0] == 114);
    assert(first_zero(lw) == b.len()) by {
        let c = first_zero(lw);
        if c < b.len() {
            assert(is_canonical_isa_byte(b[c]));
        } else if c > b.len() {
            assert(lw[b.len() as int] == 0);
        }
    }
    assert(lw.subrange(0, b.len() as int) =~= b);
}

/// Cutting a byte string into little-endian words and writing them back gives it again.
proof fn lemma_words_of_padded(p: Seq<u8>, n: nat)
    requires
        p.len() == 4 * n,
    ensures
        le_words(Seq::new(n, |k: int| le_word(p, 4 * k))) == p,
    decreases n,
{
    let ws = Seq::new(n, |k: int| le_word(p, 4 * k));
    if n > 0 {
        let q = p.subrange(0, 4 * (n - 1));
        lemma_words_of_padded(q, (n - 1) as nat);
        assert(ws.drop_last() =~= Seq::new((n - 1) as nat, |k: int| le_word(q, 4 * k)));
        let last = le_word(p, 4 * (n - 1));
        let i = 4 * (n - 1);
        assert(p[i] + 256 * p[i + 1] + 65536 * p[i + 2] + 16777216 * p[i + 3] < 0x1_0000_0000);
        let x = last;
        assert(x % 256 == p[i] && (x / 256) % 256 == p[i + 1] && (x / 65536) % 256 == p[i + 2] && x
            / 16777216 == p[i + 3]) by (nonlinear_arith)
            requires
                x == p[i] + 256 * p[i + 1] + 65536 * p[i + 2] + 16777216 * p[i + 3],
                p[i] < 256,
                p[i + 1] < 256,
                p[i + 2] < 256,
                p[i + 3] < 256,
        ;
        assert(le_bytes(last) =~= p.subrange(i, i + 4));
        assert(p =~= q + p.subrange(i, i + 4));
    }
}

} // verus!
