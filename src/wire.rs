//! Fixed-width integers and fixed-width text fields as they stand on the wire.
use vstd::prelude::*;

verus! {

/// The little-endian `u16` at position `p` of `b`.
pub open spec fn le16(b: Seq<u8>, p: int) -> nat {
    b[p] as nat + 256 * (b[p + 1] as nat)
}

/// The little-endian `u32` at position `p` of `b`.
pub open spec fn le32(b: Seq<u8>, p: int) -> nat {
    b[p] as nat + 256 * (b[p + 1] as nat) + 65536 * (b[p + 2] as nat) + 16777216 * (
    b[p + 3] as nat)
}

/// The two little-endian bytes of `x`.
pub open spec fn le16_bytes(x: u16) -> Seq<u8> {
    seq![(x % 256) as u8, (x / 256) as u8]
}

/// The two big-endian bytes of `x`.
pub open spec fn be16_bytes(x: u16) -> Seq<u8> {
    seq![(x / 256) as u8, (x % 256) as u8]
}

/// The four little-endian bytes of `x`.
pub open spec fn le32_bytes(x: u32) -> Seq<u8> {
    seq![
        (x % 256) as u8,
        ((x / 256) % 256) as u8,
        ((x / 65536) % 256) as u8,
        (x / 16777216) as u8,
    ]
}

/// The two's-complement bit pattern of `x`.
pub open spec fn i16_bits(x: i16) -> u16 {
    if x < 0 {
        (x + 65536) as u16
    } else {
        x as u16
    }
}

/// The little-endian `u32` words of `s`, one after the other.
pub open spec fn words_bytes(s: Seq<u32>) -> Seq<u8>
    decreases s.len(),
{
    if s.len() == 0 {
        Seq::empty()
    } else {
        words_bytes(s.drop_last()) + le32_bytes(s.last())
    }
}

/// `count` little-endian `u32` words read from `b` from position `p` on.
pub open spec fn words_at(b: Seq<u8>, p: int, count: nat) -> Seq<u32> {
    Seq::new(count, |i: int| le32(b, p + 4 * i) as u32)
}

/// The bytes of `s` up to, not including, its first zero byte.
pub open spec fn until_nul(s: Seq<u8>) -> Seq<u8>
    decreases s.len(),
{
    if s.len() == 0 {
        s
    } else if s[0] == 0 {
        Seq::empty()
    } else {
        seq![s[0]] + until_nul(s.drop_first())
    }
}

/// `n` zero bytes.
pub open spec fn zeros(n: nat) -> Seq<u8> {
    Seq::new(n, |i: int| 0u8)
}

pub proof fn lemma_le16(pre: Seq<u8>, x: u16, post: Seq<u8>)
    ensures
        le16(pre + le16_bytes(x) + post, pre.len() as int) == x,
{
    let b = pre + le16_bytes(x) + post;
    assert(b[pre.len() as int] == le16_bytes(x)[0]);
    assert(b[pre.len() as int + 1] == le16_bytes(x)[1]);
}

pub proof fn lemma_le32(pre: Seq<u8>, x: u32, post: Seq<u8>)
    ensures
        le32(pre + le32_bytes(x) + post, pre.len() as int) == x,
{
    let b = pre + le32_bytes(x) + post;
    let p = pre.len() as int;
    assert(b[p] == le32_bytes(x)[0]);
    assert(b[p + 1] == le32_bytes(x)[1]);
    assert(b[p + 2] == le32_bytes(x)[2]);
    assert(b[p + 3] == le32_bytes(x)[3]);
}

pub proof fn lemma_words_bytes_len(s: Seq<u32>)
    ensures
        words_bytes(s).len() == 4 * s.len(),
    decreases s.len(),
{
    if s.len() > 0 {
        lemma_words_bytes_len(s.drop_last());
    }
}

/// Reading back the words that `words_bytes` wrote gives them back.
pub proof fn lemma_words_read(pre: Seq<u8>, s: Seq<u32>, post: Seq<u8>)
    ensures
        words_at(pre + words_bytes(s) + post, pre.len() as int, s.len()) == s,
    decreases s.len(),
{
    lemma_words_bytes_len(s);
    if s.len() > 0 {
        let t = s.drop_last();
        lemma_words_bytes_len(t);
        let rest = le32_bytes(s.last()) + post;
        let b = pre + words_bytes(s) + post;
        let p = pre.len() as int;
        assert(b =~= pre + words_bytes(t) + rest);
        lemma_words_read(pre, t, rest);
        assert(b =~= (pre + words_bytes(t)) + le32_bytes(s.last()) + post);
        lemma_le32(pre + words_bytes(t), s.last(), post);
        assert((pre + words_bytes(t)).len() == p + 4 * (s.len() - 1));
        assert forall|i: int| 0 <= i < s.len() implies #[trigger] words_at(b, p, s.len())[i]
            == s[i] by {
            if i < s.len() - 1 {
                assert(words_at(b, p, t.len())[i] == t[i]);
            }
        }
        assert(words_at(b, p, s.len()) =~= s);
    } else {
        assert(words_at(pre + words_bytes(s) + post, pre.len() as int, s.len()) =~= s);
    }
}

/// `until_nul` stops at position `j` when the bytes before it are non-zero and
/// `j` is a zero byte or the end.
pub proof fn lemma_until_nul(s: Seq<u8>, j: int)
    requires
        0 <= j <= s.len(),
        forall|i: int| 0 <= i < j ==> s[i] != 0,
        j == s.len() || s[j] == 0,
    ensures
        until_nul(s) == s.subrange(0, j),
    decreases j,
{
    if j == 0 {
        assert(s.subrange(0, 0) =~= Seq::<u8>::empty());
        if s.len() > 0 {
            assert(s[0] == 0);
        }
    } else {
        lemma_until_nul(s.drop_first(), j - 1);
        assert(seq![s[0]] + s.drop_first().subrange(0, j - 1) =~= s.subrange(0, j));
    }
}

/// A zero-padded text field gives back the text, when the text has no zero byte.
pub proof fn lemma_until_nul_padded(e: Seq<u8>, n: nat)
    requires
        !e.contains(0u8),
    ensures
        until_nul(e + zeros(n)) == e,
{
    let s = e + zeros(n);
    assert forall|i: int| 0 <= i < e.len() implies s[i] != 0 by {
        if s[i] == 0 {
            assert(e[i] == 0u8);
        }
    }
    lemma_until_nul(s, e.len() as int);
    assert(s.subrange(0, e.len() as int) =~= e);
}

/// Reads the little-endian `u16` at `pos`.
pub fn read_u16_le(buf: &[u8], pos: usize) -> (r: u16)
    requires
        pos + 2 <= buf@.len(),
    ensures
        r == le16(buf@, pos as int),
{
    buf[pos] as u16 + (buf[pos + 1] as u16) * 256
}

/// Reads the little-endian `u32` at `pos`.
pub fn read_u32_le(buf: &[u8], pos: usize) -> (r: u32)
    requires
        pos + 4 <= buf@.len(),
    ensures
        r == le32(buf@, pos as int),
{
    buf[pos] as u32 + (buf[pos + 1] as u32) * 256 + (buf[pos + 2] as u32) * 65536 + (buf[pos
        + 3] as u32) * 16777216
}

/// Reads `count` little-endian `u32` words from `pos` on.
pub fn read_words(buf: &[u8], pos: usize, count: usize) -> (r: Vec<u32>)
    requires
        pos + 4 * count <= buf@.len(),
    ensures
        r@ == words_at(buf@, pos as int, count as nat),
{
    let mut v: Vec<u32> = Vec::new();
    let mut k: usize = 0;
    let len = buf.len();
    while k < count
        invariant
            k <= count,
            len == buf@.len(),
            pos + 4 * count <= buf@.len(),
            v@ =~= words_at(buf@, pos as int, k as nat),
        decreases count - k,
    {
        let w = read_u32_le(buf, pos + 4 * k);
        v.push(w);
        k = k + 1;
        assert(v@ =~= words_at(buf@, pos as int, k as nat));
    }
    v
}

pub fn push_u8(out: &mut Vec<u8>, x: u8)
    ensures
        final(out)@ == old(out)@ + seq![x],
{
    out.push(x);
    assert(final(out)@ =~= old(out)@ + seq![x]);
}

pub fn push_u16_le(out: &mut Vec<u8>, x: u16)
    ensures
        final(out)@ == old(out)@ + le16_bytes(x),
{
    out.push((x % 256) as u8);
    out.push((x / 256) as u8);
    assert(final(out)@ =~= old(out)@ + le16_bytes(x));
}

pub fn push_u16_be(out: &mut Vec<u8>, x: u16)
    ensures
        final(out)@ == old(out)@ + be16_bytes(x),
{
    out.push((x / 256) as u8);
    out.push((x % 256) as u8);
    assert(final(out)@ =~= old(out)@ + be16_bytes(x));
}

pub fn push_i16_le(out: &mut Vec<u8>, x: i16)
    ensures
        final(out)@ == old(out)@ + le16_bytes(i16_bits(x)),
{
    let bits: u16 = if x < 0 {
        (x as i32 + 65536) as u16
    } else {
        x as u16
    };
    push_u16_le(out, bits);
}

pub fn push_u32_le(out: &mut Vec<u8>, x: u32)
    ensures
        final(out)@ == old(out)@ + le32_bytes(x),
{
    out.push((x % 256) as u8);
    out.push(((x / 256) % 256) as u8);
    out.push(((x / 65536) % 256) as u8);
    out.push((x / 16777216) as u8);
    assert(final(out)@ =~= old(out)@ + le32_bytes(x));
}

/// Appends the words of `s`.
pub fn push_words(out: &mut Vec<u8>, s: &Vec<u32>)
    ensures
        final(out)@ == old(out)@ + words_bytes(s@),
{
    let mut k: usize = 0;
    assert(s@.subrange(0, 0) =~= Seq::<u32>::empty());
    assert(out@ =~= old(out)@ + words_bytes(s@.subrange(0, 0)));
    while k < s.len()
        invariant
            k <= s@.len(),
            out@ == old(out)@ + words_bytes(s@.subrange(0, k as int)),
        decreases s@.len() - k,
    {
        push_u32_le(out, s[k]);
        assert(s@.subrange(0, k + 1).drop_last() =~= s@.subrange(0, k as int));
        k = k + 1;
        assert(out@ =~= old(out)@ + words_bytes(s@.subrange(0, k as int)));
    }
    assert(s@.subrange(0, s@.len() as int) =~= s@);
}

/// Appends `n` zero bytes.
pub fn push_zeros(out: &mut Vec<u8>, n: usize)
    ensures
        final(out)@ == old(out)@ + zeros(n as nat),
{
    let mut k: usize = 0;
    while k < n
        invariant
            k <= n,
            out@ =~= old(out)@ + zeros(k as nat),
        decreases n - k,
    {
        out.push(0);
        k = k + 1;
    }
}

} // verus!
