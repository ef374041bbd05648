use vstd::prelude::*;

verus! {

/// The four little-endian bytes of a word.
pub open spec fn le_bytes(x: u32) -> Seq<u8> {
    seq![
        (x % 256) as u8,
        ((x / 256) % 256) as u8,
        ((x / 65536) % 256) as u8,
        (x / 16777216) as u8,
    ]
}

/// The little-endian word stored at `s[i..i + 4]`.
pub open spec fn le_word(s: Seq<u8>, i: int) -> u32 {
    (s[i] + 256 * s[i + 1] + 65536 * s[i + 2] + 16777216 * s[i + 3]) as u32
}

/// The concatenation of the little-endian encodings of `words`.
pub open spec fn le_words(words: Seq<u32>) -> Seq<u8>
    decreases words.len(),
{
    if words.len() == 0 {
        Seq::empty()
    } else {
        le_words(words.drop_last()) + le_bytes(words.last())
    }
}

pub proof fn lemma_le_bytes_len(x: u32)
    ensures
        le_bytes(x).len() == 4,
{
}

/// Reading back the bytes of a word gives the word.
pub proof fn lemma_le_word_of_bytes(x: u32)
    ensures
        le_word(le_bytes(x), 0) == x,
{
    let s = le_bytes(x);
    assert((x % 256) as u8 + 256 * ((x / 256) % 256) as u8 + 65536 * ((x / 65536) % 256) as u8
        + 16777216 * (x / 16777216) as u8 == x) by (bit_vector);
}

/// The word read at `i` is that of the four bytes there, whatever surrounds them.
pub proof fn lemma_le_word_at(s: Seq<u8>, i: int, x: u32)
    requires
        0 <= i,
        i + 4 <= s.len(),
        s.subrange(i, i + 4) == le_bytes(x),
    ensures
        le_word(s, i) == x,
{
    let t = s.subrange(i, i + 4);
    assert(s[i] == t[0] && s[i + 1] == t[1] && s[i + 2] == t[2] && s[i + 3] == t[3]);
    lemma_le_word_of_bytes(x);
}

pub proof fn lemma_le_words_len(words: Seq<u32>)
    ensures
        le_words(words).len() == 4 * words.len(),
    decreases words.len(),
{
    if words.len() > 0 {
        lemma_le_words_len(words.drop_last());
    }
}

/// Word `k` of a run of encoded words reads back as `words[k]`.
pub proof fn lemma_le_words_index(words: Seq<u32>, k: int)
    requires
        0 <= k < words.len(),
    ensures
        le_words(words).subrange(4 * k, 4 * k + 4) == le_bytes(words[k]),
        le_word(le_words(words), 4 * k) == words[k],
    decreases words.len(),
{
    let w = words.drop_last();
    lemma_le_words_len(w);
    lemma_le_words_len(words);
    if k == words.len() - 1 {
        assert(le_words(words).subrange(4 * k, 4 * k + 4) =~= le_bytes(words[k]));
    } else {
        lemma_le_words_index(w, k);
        assert(le_words(words).subrange(4 * k, 4 * k + 4) =~= le_words(w).subrange(
            4 * k,
            4 * k + 4,
        ));
    }
    lemma_le_word_at(le_words(words), 4 * k, words[k]);
}

pub proof fn lemma_le_words_push(words: Seq<u32>, x: u32)
    ensures
        le_words(words.push(x)) == le_words(words) + le_bytes(x),
{
    assert(words.push(x).drop_last() =~= words);
}

/// A word of an encoded run, read in place among other bytes.
pub proof fn lemma_le_word_in_middle(x: Seq<u8>, words: Seq<u32>, y: Seq<u8>, j: int)
    requires
        0 <= j < words.len(),
    ensures
        le_word(x + le_words(words) + y, x.len() + 4 * j) == words[j],
{
    lemma_le_words_len(words);
    lemma_le_words_index(words, j);
    let s = x + le_words(words) + y;
    assert(s.subrange(x.len() + 4 * j, x.len() + 4 * j + 4) =~= le_words(words).subrange(
        4 * j,
        4 * j + 4,
    ));
    lemma_le_word_at(s, x.len() + 4 * j, words[j]);
}

/// A word read in place among other bytes.
pub proof fn lemma_le_word_of_bytes_in_middle(x: Seq<u8>, w: u32, y: Seq<u8>)
    ensures
        le_word(x + le_bytes(w) + y, x.len() as int) == w,
{
    let s = x + le_bytes(w) + y;
    assert(s.subrange(x.len() as int, x.len() as int + 4) =~= le_bytes(w));
    lemma_le_word_at(s, x.len() as int, w);
}

/// The four little-endian bytes of `x`.
pub fn to_word(x: u32) -> (r: [u8; 4])
    ensures
        r@ == le_bytes(x),
{
    let r = [(x % 256) as u8, ((x / 256) % 256) as u8, ((x / 65536) % 256) as u8, (x / 16777216) as u8];
    assert(r@ =~= le_bytes(x));
    r
}

/// Appends the little-endian bytes of `x`.
pub fn push_word(out: &mut Vec<u8>, x: u32)
    ensures
        final(out)@ == old(out)@ + le_bytes(x),
{
    out.push((x % 256) as u8);
    out.push(((x / 256) % 256) as u8);
    out.push(((x / 65536) % 256) as u8);
    out.push((x / 16777216) as u8);
    assert(out@ =~= old(out)@ + le_bytes(x));
}

/// Appends a copy of `src`.
pub fn append_slice(out: &mut Vec<u8>, src: &[u8])
    ensures
        final(out)@ == old(out)@ + src@,
{
    let ghost start = out@;
    let mut i: usize = 0;
    while i < src.len()
        invariant
            i <= src@.len(),
            out@ == start + src@.subrange(0, i as int),
        decreases src@.len() - i,
    {
        out.push(src[i]);
        i = i + 1;
        assert(out@ =~= start + src@.subrange(0, i as int));
    }
    assert(src@.subrange(0, src@.len() as int) =~= src@);
}

/// `n` copies of `value`.
pub open spec fn fill(value: u8, n: nat) -> Seq<u8> {
    Seq::new(n, |i: int| value)
}

/// Appends `n` copies of `value`.
pub fn append_fill(out: &mut Vec<u8>, value: u8, n: usize)
    ensures
        final(out)@ == old(out)@ + fill(value, n as nat),
{
    let ghost start = out@;
    let mut i: usize = 0;
    while i < n
        invariant
            i <= n,
            out@ == start + fill(value, i as nat),
        decreases n - i,
    {
        out.push(value);
        i = i + 1;
        assert(out@ =~= start + fill(value, i as nat));
    }
}

/// Reads the little-endian word at `s[i..i + 4]`.
pub fn read_le_word(s: &[u8], i: usize) -> (r: u32)
    requires
        i + 4 <= s@.len(),
    ensures
        r == le_word(s@, i as int),
{
    let b0 = s[i] as u32;
    let b1 = s[i + 1] as u32;
    let b2 = s[i + 2] as u32;
    let b3 = s[i + 3] as u32;
    b0 + 256 * b1 + 65536 * b2 + 16777216 * b3
}

/// Where a word read starts: a negative start counts back from the end.
pub open spec fn word_read_start(len: int, start: int) -> int {
    if start < 0 {
        len + start
    } else {
        start
    }
}

/// A word read that does not lie inside the buffer.
#[derive(Debug, Clone, Copy, PartialEq, Eq)]
pub struct WordReadError {
    pub start: isize,
    pub size: usize,
}

impl WordReadError {
    /// The diagnostic text of the error.
    pub fn message(&self) -> (r: String)
        ensures
            r@ == "out-of-bounds word read at "@ + decimal_signed(self.start as int)
                + " for size "@ + decimal(self.size as nat),
    {
        let mut out = String::from_str("out-of-bounds word read at ");
        push_signed_decimal(&mut out, self.start as i64);
        out.append(" for size ");
        push_decimal(&mut out, self.size as u64);
        out
    }
}

/// Reads the little-endian word that starts at `start_index_in_bytes`, a
/// negative index counting back from the end of `buf`.
pub fn get_word_from_slice(buf: &[u8], start_index_in_bytes: isize) -> (r: Result<
    u32,
    WordReadError,
>)
    requires
        buf@.len() <= isize::MAX,
        word_read_start(buf@.len() as int, start_index_in_bytes as int) + 4 <= isize::MAX,
    ensures
        ({
            let s = word_read_start(buf@.len() as int, start_index_in_bytes as int);
            match r {
                Ok(w) => 0 <= s && s + 4 <= buf@.len() && w == le_word(buf@, s),
                Err(e) => !(0 <= s && s + 4 <= buf@.len()) && e == WordReadError {
                    start: start_index_in_bytes,
                    size: buf@.len() as usize,
                },
            }
        }),
{
    let len = buf.len() as isize;
    let start = if start_index_in_bytes < 0 {
        len + start_index_in_bytes
    } else {
        start_index_in_bytes
    };
    let end = start + 4;
    if start < 0 || end > len {
        return Err(WordReadError { start: start_index_in_bytes, size: buf.len() });
    }
    let s = start as usize;
    Ok(read_le_word(buf, s))
}

/// `x` rounded up by the mask of `y`: the next multiple of `y` when `y` is a
/// power of two.
pub open spec fn spec_round_up_pow2(x: usize, y: usize) -> usize {
    ((x + y - 1) as usize) & !((y - 1) as usize)
}

pub open spec fn is_power_of_two(y: usize) -> bool {
    y > 0 && y & ((y - 1) as usize) == 0
}

proof fn lemma_mask_bounds(v: usize, m: usize)
    ensures
        v - m <= v & !m <= v,
{
    assert((v & !m) + (v & m) == v && v & m <= m && v & !m <= v) by (bit_vector);
}

proof fn lemma_mask_zero_mod(r: usize, y: usize)
    requires
        is_power_of_two(y),
        r & ((y - 1) as usize) == 0,
    ensures
        r % y == 0,
    decreases y,
{
    if y > 1 {
        let m = (y - 1) as usize;
        let h = (y / 2) as usize;
        let hm = (h - 1) as usize;
        assert(y > 1 && y & m == 0 && m + 1 == y && h == y / 2 && hm + 1 == h ==> y % 2 == 0 && h
            & hm == 0 && h > 0 && r & m == 0 ==> (r % 2 == 0 && (r / 2) & hm == 0))
            by (bit_vector);
        assert(y > 1 && y & m == 0 && m + 1 == y ==> y % 2 == 0) by (bit_vector);
        assert(h > 0);
        assert(h & hm == 0) by {
            assert(y > 1 && y & m == 0 && m + 1 == y && h == y / 2 && hm + 1 == h ==> h & hm == 0)
                by (bit_vector);
        }
        assert(r % 2 == 0 && (r / 2) & hm == 0) by {
            assert(y > 1 && y & m == 0 && m + 1 == y && h == y / 2 && hm + 1 == h && r & m == 0
                ==> (r % 2 == 0 && (r / 2) & hm == 0)) by (bit_vector);
        }
        lemma_mask_zero_mod((r / 2) as usize, h);
        let q = r / 2;
        assert(r % y == 0) by (nonlinear_arith)
            requires
                r % 2 == 0,
                q == r / 2,
                q % h == 0,
                y == 2 * h,
                h > 0,
        {
            assert(r == 2 * q);
            assert(q == h * (q / h));
            assert(r == y * (q / h));
        }
    }
}

proof fn lemma_mask_multiple(v: usize, y: usize)
    requires
        is_power_of_two(y),
    ensures
        (v & !((y - 1) as usize)) % y == 0,
{
    let m = (y - 1) as usize;
    assert((v & !m) & m == 0) by (bit_vector);
    lemma_mask_zero_mod(v & !m, y);
}

/// `x` rounded up to the next multiple of the power of two `y`: computed as
/// `(x + y - 1) & !(y - 1)`, which is never below `x` nor above `x + y - 1`.
pub fn round_up_pow2(x: usize, y: usize) -> (r: usize)
    requires
        y >= 1,
        x + y - 1 <= usize::MAX,
    ensures
        r == spec_round_up_pow2(x, y),
        x <= r <= x + y - 1,
        is_power_of_two(y) ==> r % y == 0,
{
    proof {
        lemma_mask_bounds((x + y - 1) as usize, (y - 1) as usize);
        if is_power_of_two(y) {
            lemma_mask_multiple((x + y - 1) as usize, y);
        }
    }
    let v = x + (y - 1);
    v & !(y - 1)
}

/// The rounded value lies between `x` and `x + y - 1`, and is a multiple of
/// `y` when `y` is a power of two.
pub proof fn lemma_round_up_pow2(x: usize, y: usize)
    requires
        y >= 1,
        x + y - 1 <= usize::MAX,
    ensures
        x <= spec_round_up_pow2(x, y) <= x + y - 1,
        is_power_of_two(y) ==> spec_round_up_pow2(x, y) % y == 0,
{
    lemma_mask_bounds((x + y - 1) as usize, (y - 1) as usize);
    if is_power_of_two(y) {
        lemma_mask_multiple((x + y - 1) as usize, y);
    }
}

/// "bytes" for more than one byte, "byte" otherwise.
pub fn get_bytes_text_suffix(value: usize) -> (r: &'static str)
    ensures
        r@ == (if value > 1 {
            "bytes"@
        } else {
            "byte"@
        }),
{
    if value > 1 {
        "bytes"
    } else {
        "byte"
    }
}

/// The character of the decimal digit `d`.
pub open spec fn digit_char(d: nat) -> char {
    if d == 0 {
        '0'
    } else if d == 1 {
        '1'
    } else if d == 2 {
        '2'
    } else if d == 3 {
        '3'
    } else if d == 4 {
        '4'
    } else if d == 5 {
        '5'
    } else if d == 6 {
        '6'
    } else if d == 7 {
        '7'
    } else if d == 8 {
        '8'
    } else {
        '9'
    }
}

/// The decimal text of `n`, without leading zeros.
pub open spec fn decimal(n: nat) -> Seq<char>
    decreases n,
{
    if n < 10 {
        seq![digit_char(n)]
    } else {
        decimal(n / 10).push(digit_char(n % 10))
    }
}

/// The decimal text of `n`, with a leading '-' when it is negative.
pub open spec fn decimal_signed(n: int) -> Seq<char> {
    if n < 0 {
        seq!['-'] + decimal((-n) as nat)
    } else {
        decimal(n as nat)
    }
}

/// `String::push` appends the character to the string, as its documentation
/// says; nothing more is stated.
pub assume_specification[ String::push ](s: &mut String, ch: char)
    ensures
        final(s)@ == old(s)@.push(ch),
;

fn digit(d: u64) -> (c: char)
    requires
        d < 10,
    ensures
        c == digit_char(d as nat),
{
    if d == 0 {
        '0'
    } else if d == 1 {
        '1'
    } else if d == 2 {
        '2'
    } else if d == 3 {
        '3'
    } else if d == 4 {
        '4'
    } else if d == 5 {
        '5'
    } else if d == 6 {
        '6'
    } else if d == 7 {
        '7'
    } else if d == 8 {
        '8'
    } else {
        '9'
    }
}

/// Appends the decimal text of `value`.
pub fn push_decimal(out: &mut String, value: u64)
    ensures
        final(out)@ == old(out)@ + decimal(value as nat),
    decreases value,
{
    if value >= 10 {
        push_decimal(out, value / 10);
    }
    out.push(digit(value % 10));
    assert(out@ =~= old(out)@ + decimal(value as nat));
}

/// Appends the decimal text of `value`, with a leading '-' when it is negative.
pub fn push_signed_decimal(out: &mut String, value: i64)
    ensures
        final(out)@ == old(out)@ + decimal_signed(value as int),
{
    if value < 0 {
        out.push('-');
        let magnitude: u64 = if value == i64::MIN {
            9223372036854775808u64
        } else {
            (-value) as u64
        };
        push_decimal(out, magnitude);
        assert(out@ =~= old(out)@ + decimal_signed(value as int));
    } else {
        push_decimal(out, value as u64);
    }
}

/// The lower-case hexadecimal digit of `d`.
pub open spec fn hex_digit_char(d: nat) -> char {
    if d < 10 {
        digit_char(d)
    } else if d == 10 {
        'a'
    } else if d == 11 {
        'b'
    } else if d == 12 {
        'c'
    } else if d == 13 {
        'd'
    } else if d == 14 {
        'e'
    } else {
        'f'
    }
}

/// The eight lower-case hexadecimal digits of `x`, most significant first.
pub open spec fn hex8(x: u32) -> Seq<char> {
    Seq::new(8, |k: int| hex_digit_char(((x as nat) / pow16((7 - k) as nat)) % 16))
}

/// `16^n`.
pub open spec fn pow16(n: nat) -> nat
    decreases n,
{
    if n == 0 {
        1
    } else {
        16 * pow16((n - 1) as nat)
    }
}

fn hex_digit(d: u32) -> (c: char)
    requires
        d < 16,
    ensures
        c == hex_digit_char(d as nat),
{
    if d < 10 {
        digit(d as u64)
    } else if d == 10 {
        'a'
    } else if d == 11 {
        'b'
    } else if d == 12 {
        'c'
    } else if d == 13 {
        'd'
    } else if d == 14 {
        'e'
    } else {
        'f'
    }
}

/// Appends the eight lower-case hexadecimal digits of `x`.
pub fn push_hex8(out: &mut String, x: u32)
    ensures
        final(out)@ == old(out)@ + hex8(x),
{
    let ghost start = out@;
    let mut k: u32 = 0;
    let mut div: u32 = 0x1000_0000;
    proof {
        reveal_with_fuel(pow16, 8);
        assert(pow16(7) == 0x1000_0000);
    }
    while k < 8
        invariant
            k <= 8,
            div as nat == pow16((7 - k) as nat) || (k == 8 && div == 0),
            out@ == start + hex8(x).take(k as int),
        decreases 8 - k,
    {
        proof {
            reveal_with_fuel(pow16, 8);
        }
        let d = (x / div) % 16;
        out.push(hex_digit(d));
        assert(out@ =~= start + hex8(x).take(k + 1));
        k = k + 1;
        div = div / 16;
        proof {
            if k < 8 {
                assert(pow16((7 - (k - 1)) as nat) == 16 * pow16((7 - k) as nat));
            }
        }
    }
    assert(hex8(x).take(8) =~= hex8(x));
}


/// The upper-case hexadecimal digit of `d`.
pub open spec fn upper_hex_digit_char(d: nat) -> char {
    if d < 10 {
        digit_char(d)
    } else if d == 10 {
        'A'
    } else if d == 11 {
        'B'
    } else if d == 12 {
        'C'
    } else if d == 13 {
        'D'
    } else if d == 14 {
        'E'
    } else {
        'F'
    }
}

/// The eight upper-case hexadecimal digits of `x`, most significant first.
pub open spec fn upper_hex8(x: u32) -> Seq<char> {
    Seq::new(8, |k: int| upper_hex_digit_char(((x as nat) / pow16((7 - k) as nat)) % 16))
}

fn upper_hex_digit(d: u32) -> (c: char)
    requires
        d < 16,
    ensures
        c == upper_hex_digit_char(d as nat),
{
    if d < 10 {
        digit(d as u64)
    } else if d == 10 {
        'A'
    } else if d == 11 {
        'B'
    } else if d == 12 {
        'C'
    } else if d == 13 {
        'D'
    } else if d == 14 {
        'E'
    } else {
        'F'
    }
}

/// Appends the eight upper-case hexadecimal digits of `x`.
pub fn push_upper_hex8(out: &mut String, x: u32)
    ensures
        final(out)@ == old(out)@ + upper_hex8(x),
{
    let ghost start = out@;
    let mut k: u32 = 0;
    let mut div: u32 = 0x1000_0000;
    proof {
        reveal_with_fuel(pow16, 8);
        assert(pow16(7) == 0x1000_0000);
    }
    while k < 8
        invariant
            k <= 8,
            div as nat == pow16((7 - k) as nat) || (k == 8 && div == 0),
            out@ == start + upper_hex8(x).take(k as int),
        decreases 8 - k,
    {
        proof {
            reveal_with_fuel(pow16, 8);
        }
        let d = (x / div) % 16;
        out.push(upper_hex_digit(d));
        assert(out@ =~= start + upper_hex8(x).take(k + 1));
        k = k + 1;
        div = div / 16;
        proof {
            if k < 8 {
                assert(pow16((7 - (k - 1)) as nat) == 16 * pow16((7 - k) as nat));
            }
        }
    }
    assert(upper_hex8(x).take(8) =~= upper_hex8(x));
}

} // verus!
