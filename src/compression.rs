//! Zero-suppression compression that wraps every datagram.
//!
//! The input is cut into groups of eight bytes. Each group is written as one
//! mask byte, whose bit `i` is set when byte `i` of the group is non-zero,
//! followed by the non-zero bytes of the group in order.
use vstd::arithmetic::power2::{lemma2_to64, lemma_pow2_unfold, pow2};
use vstd::prelude::*;

verus! {

/// Largest compressed datagram, and largest decompressed length.
pub const MAX_BUFFER_SIZE: usize = 1024;

/// Why compression or decompression failed.
#[derive(Debug, Clone, Copy, PartialEq, Eq)]
pub enum CompressionError {
    /// The compressed output would exceed `MAX_BUFFER_SIZE` bytes.
    Overflow,
    /// The requested decompressed length exceeds `MAX_BUFFER_SIZE`.
    Oversize,
    /// A data byte that a mask announces is missing.
    Truncated,
}

/// Number of positions in the group that starts a sequence of `n` bytes.
pub open spec fn group_len(n: nat) -> nat {
    if n < 8 {
        n
    } else {
        8
    }
}

/// Mask of a group: bit `i` is set exactly when byte `i` is non-zero.
pub open spec fn group_mask(g: Seq<u8>) -> nat
    decreases g.len(),
{
    if g.len() == 0 {
        0
    } else {
        (if g[0] != 0 {
            1nat
        } else {
            0nat
        }) + 2 * group_mask(g.drop_first())
    }
}

/// The non-zero bytes of `g`, in order.
pub open spec fn nonzero_bytes(g: Seq<u8>) -> Seq<u8>
    decreases g.len(),
{
    if g.len() == 0 {
        Seq::empty()
    } else if g[0] != 0 {
        seq![g[0]] + nonzero_bytes(g.drop_first())
    } else {
        nonzero_bytes(g.drop_first())
    }
}

/// The compressed form of `x`: for each group, its mask and then its non-zero bytes.
pub open spec fn squeezed(x: Seq<u8>) -> Seq<u8>
    decreases x.len(),
{
    if x.len() == 0 {
        Seq::empty()
    } else {
        let k = group_len(x.len());
        let g = x.subrange(0, k as int);
        seq![group_mask(g) as u8] + nonzero_bytes(g) + squeezed(x.subrange(k as int, x.len() as int))
    }
}

/// What `compress_packet` returns for `x`.
pub open spec fn compressed(x: Seq<u8>) -> Result<Seq<u8>, CompressionError> {
    if squeezed(x).len() > MAX_BUFFER_SIZE {
        Err(CompressionError::Overflow)
    } else {
        Ok(squeezed(x))
    }
}

/// Expands `count` positions under `mask` (lowest bit first), taking the byte
/// of each set position from `data`. Gives the bytes produced and the number of
/// data bytes read, or `None` when `data` runs out.
pub open spec fn expand_group(mask: nat, data: Seq<u8>, count: nat) -> Option<(Seq<u8>, nat)>
    decreases count,
{
    if count == 0 {
        Some((Seq::empty(), 0nat))
    } else if mask % 2 == 1 {
        if data.len() == 0 {
            None
        } else {
            match expand_group(mask / 2, data.drop_first(), (count - 1) as nat) {
                Some((out, used)) => Some((seq![data[0]] + out, used + 1)),
                None => None,
            }
        }
    } else {
        match expand_group(mask / 2, data, (count - 1) as nat) {
            Some((out, used)) => Some((seq![0u8] + out, used)),
            None => None,
        }
    }
}

/// Expands `c` into at most `n` bytes. Expansion stops when `n` bytes were
/// produced or when the input ends where a mask byte would stand; it fails
/// when a data byte is missing.
pub open spec fn expanded(c: Seq<u8>, n: nat) -> Option<Seq<u8>>
    decreases n,
{
    if n == 0 || c.len() == 0 {
        Some(Seq::empty())
    } else {
        let k = group_len(n);
        match expand_group(c[0] as nat, c.drop_first(), k) {
            None => None,
            Some((out, used)) => match expanded(c.drop_first().skip(used as int), (n - k) as nat) {
                Some(rest) => Some(out + rest),
                None => None,
            },
        }
    }
}

/// What `decompress_packet` returns for `c` and an original length `n`.
pub open spec fn decompressed(c: Seq<u8>, n: nat) -> Result<Seq<u8>, CompressionError> {
    if n > MAX_BUFFER_SIZE {
        Err(CompressionError::Oversize)
    } else {
        match expanded(c, n) {
            Some(v) => Ok(v),
            None => Err(CompressionError::Truncated),
        }
    }
}

/// The original length that `decompress_packet` uses for its argument.
pub open spec fn length_or_default(original_length: Option<usize>) -> nat {
    match original_length {
        Some(n) => n as nat,
        None => MAX_BUFFER_SIZE as nat,
    }
}

pub open spec fn prepend(p: Seq<u8>, r: Option<Seq<u8>>) -> Option<Seq<u8>> {
    match r {
        Some(s) => Some(p + s),
        None => None,
    }
}

pub open spec fn prepend_group(p: Seq<u8>, k: nat, r: Option<(Seq<u8>, nat)>) -> Option<(Seq<u8>, nat)> {
    match r {
        Some((s, u)) => Some((p + s, u + k)),
        None => None,
    }
}

proof fn lemma_group_mask_bound(g: Seq<u8>)
    ensures
        group_mask(g) < pow2(g.len()),
    decreases g.len(),
{
    if g.len() > 0 {
        lemma_group_mask_bound(g.drop_first());
        lemma_pow2_unfold(g.len());
    } else {
        lemma2_to64();
    }
}

proof fn lemma_group_mask_byte(g: Seq<u8>)
    requires
        g.len() <= 8,
    ensures
        group_mask(g) < 256,
{
    lemma_group_mask_bound(g);
    lemma2_to64();
    if g.len() < 8 {
        vstd::arithmetic::power2::lemma_pow2_strictly_increases(g.len(), 8);
    }
}

/// Expanding the compressed form of one group gives the group back and reads
/// exactly its non-zero bytes.
proof fn lemma_expand_group(g: Seq<u8>, s: Seq<u8>)
    ensures
        expand_group(group_mask(g), nonzero_bytes(g) + s, g.len())
            == Some((g, nonzero_bytes(g).len())),
    decreases g.len(),
{
    if g.len() > 0 {
        let t = g.drop_first();
        lemma_expand_group(t, s);
        if g[0] != 0 {
            assert((nonzero_bytes(g) + s).drop_first() =~= nonzero_bytes(t) + s);
        }
        assert(seq![g[0]] + t =~= g);
    }
}

/// Decompressing the compressed form of `x` to its own length gives `x` back.
pub proof fn lemma_squeeze_expand(x: Seq<u8>)
    ensures
        expanded(squeezed(x), x.len()) == Some(x),
    decreases x.len(),
{
    if x.len() > 0 {
        let k = group_len(x.len());
        let g = x.subrange(0, k as int);
        let r = x.subrange(k as int, x.len() as int);
        let c = squeezed(x);
        lemma_group_mask_byte(g);
        assert(c.drop_first() =~= nonzero_bytes(g) + squeezed(r));
        lemma_expand_group(g, squeezed(r));
        assert(c.drop_first().skip(nonzero_bytes(g).len() as int) =~= squeezed(r));
        lemma_squeeze_expand(r);
        assert(g + r =~= x);
    }
}

/// Round trip: whenever a sequence of at most `MAX_BUFFER_SIZE` bytes
/// compresses, decompressing the result to the original length gives the
/// sequence back.
pub proof fn lemma_round_trip(x: Seq<u8>)
    requires
        x.len() <= MAX_BUFFER_SIZE,
    ensures
        compressed(x) matches Ok(c) ==> decompressed(c, x.len()) == Ok::<Seq<u8>, CompressionError>(x),
{
    lemma_squeeze_expand(x);
}

proof fn lemma_nonzero_of_zeros(n: nat)
    ensures
        nonzero_bytes(Seq::new(n, |i: int| 0u8)) =~= Seq::<u8>::empty(),
    decreases n,
{
    if n > 0 {
        lemma_nonzero_of_zeros((n - 1) as nat);
        assert(Seq::new(n, |i: int| 0u8).drop_first() =~= Seq::new((n - 1) as nat, |i: int| 0u8));
    }
}

/// A run of `n` zero bytes compresses to one mask byte per group: `⌈n/8⌉` bytes.
pub proof fn lemma_zero_run(n: nat)
    ensures
        squeezed(Seq::new(n, |i: int| 0u8)).len() == (n + 7) / 8,
    decreases n,
{
    if n > 0 {
        let x = Seq::new(n, |i: int| 0u8);
        let k = group_len(n);
        lemma_nonzero_of_zeros(k);
        assert(x.subrange(0, k as int) =~= Seq::new(k, |i: int| 0u8));
        assert(x.subrange(k as int, n as int) =~= Seq::new((n - k) as nat, |i: int| 0u8));
        lemma_zero_run((n - k) as nat);
    }
}

proof fn lemma_nonzero_len(g: Seq<u8>)
    ensures
        nonzero_bytes(g).len() <= g.len(),
    decreases g.len(),
{
    if g.len() > 0 {
        lemma_nonzero_len(g.drop_first());
    }
}

/// Compression adds at most one mask byte per group.
pub proof fn lemma_squeezed_len(x: Seq<u8>)
    ensures
        squeezed(x).len() <= x.len() + (x.len() + 7) / 8,
    decreases x.len(),
{
    if x.len() > 0 {
        let k = group_len(x.len());
        lemma_nonzero_len(x.subrange(0, k as int));
        lemma_squeezed_len(x.subrange(k as int, x.len() as int));
    }
}

/// Any input of at most 910 bytes compresses within `MAX_BUFFER_SIZE`.
pub proof fn lemma_compress_fits(x: Seq<u8>)
    requires
        x.len() <= 910,
    ensures
        compressed(x) == Ok::<Seq<u8>, CompressionError>(squeezed(x)),
{
    lemma_squeezed_len(x);
}

/// Compresses `input` group by group.
///
/// Fails with `Overflow` exactly when the compressed form would exceed
/// `MAX_BUFFER_SIZE` bytes. An empty input gives an empty output.
#[verifier::spinoff_prover]
pub fn compress_packet(input: &[u8]) -> (r: Result<Vec<u8>, CompressionError>)
    ensures
        match r {
            Ok(v) => compressed(input@) == Ok::<Seq<u8>, CompressionError>(v@),
            Err(e) => compressed(input@) == Err::<Seq<u8>, CompressionError>(e),
        },
{
    let n = input.len();
    let mut out: Vec<u8> = Vec::new();
    let mut in_pos: usize = 0;
    assert(input@.subrange(0, n as int) =~= input@);
    assert(out@ + squeezed(input@) =~= squeezed(input@));
    while in_pos < n
        invariant
            in_pos <= n,
            n == input@.len(),
            out@.len() <= MAX_BUFFER_SIZE,
            squeezed(input@) == out@ + squeezed(input@.subrange(in_pos as int, n as int)),
        decreases n - in_pos,
    {
        let end: usize = if n - in_pos < 8 {
            n
        } else {
            in_pos + 8
        };
        let ghost g = input@.subrange(in_pos as int, end as int);
        let mut mask: u16 = 0;
        let mut weight: u16 = 1;
        let mut group: Vec<u8> = Vec::new();
        let mut i: usize = in_pos;
        proof {
            lemma2_to64();
        }
        while i < end
            invariant
                in_pos <= i <= end <= n,
                end - in_pos <= 8,
                n == input@.len(),
                g == input@.subrange(in_pos as int, end as int),
                weight as nat == pow2((i - in_pos) as nat),
                mask < weight,
                group@.len() <= i - in_pos,
                group_mask(g) == mask + weight * group_mask(input@.subrange(i as int, end as int)),
                nonzero_bytes(g) == group@ + nonzero_bytes(input@.subrange(i as int, end as int)),
            decreases end - i,
        {
            let v = input[i];
            let ghost rest = input@.subrange(i as int, end as int);
            let ghost later = input@.subrange(i + 1, end as int);
            assert(rest.drop_first() =~= later);
            proof {
                lemma_pow2_unfold((i + 1 - in_pos) as nat);
                lemma2_to64();
                vstd::arithmetic::power2::lemma_pow2_strictly_increases(
                    (i - in_pos) as nat,
                    8,
                );
            }
            let ghost bit: nat = if v != 0 {
                1
            } else {
                0
            };
            assert(mask + weight * (bit + 2 * group_mask(later)) == (mask + weight * bit) + (2
                * weight) * group_mask(later)) by (nonlinear_arith);
            if v != 0 {
                mask = mask + weight;
                group.push(v);
                assert(group@ + nonzero_bytes(later) =~= group@.drop_last() + (seq![v]
                    + nonzero_bytes(later)));
            }
            weight = weight * 2;
            i = i + 1;
        }
        assert(input@.subrange(end as int, end as int) =~= Seq::<u8>::empty());
        assert(group@ + Seq::<u8>::empty() =~= group@);
        proof {
            lemma_group_mask_byte(g);
        }
        let ghost tail = input@.subrange(in_pos as int, n as int);
        assert(tail.subrange(0, (end - in_pos) as int) =~= g);
        assert(tail.subrange((end - in_pos) as int, tail.len() as int) =~= input@.subrange(
            end as int,
            n as int,
        ));
        if out.len() + 1 + group.len() > MAX_BUFFER_SIZE {
            return Err(CompressionError::Overflow);
        }
        let ghost before = out@;
        let ghost rest = input@.subrange(end as int, n as int);
        assert(tail.len() > 0);
        assert(group_len(tail.len()) == end - in_pos);
        let ghost z = group_mask(input@.subrange(end as int, end as int));
        assert(z == 0);
        assert(weight * z == 0) by (nonlinear_arith)
            requires
                z == 0,
        ;
        assert(mask == group_mask(g));
        assert(group@ == nonzero_bytes(g));
        assert(squeezed(tail) == seq![mask as u8] + group@ + squeezed(rest));
        out.push(mask as u8);
        out.append(&mut group);
        assert(before + squeezed(tail) =~= out@ + squeezed(input@.subrange(end as int, n as int)));
        in_pos = end;
    }
    assert(input@.subrange(n as int, n as int) =~= Seq::<u8>::empty());
    assert(out@ + Seq::<u8>::empty() =~= out@);
    Ok(out)
}

/// Decompresses `compressed_buffer` into at most `original_length` bytes
/// (`MAX_BUFFER_SIZE` when none is given).
///
/// Fails with `Oversize` when the length exceeds `MAX_BUFFER_SIZE`, and with
/// `Truncated` when a data byte announced by a mask is missing. Input that
/// follows the last needed group is ignored; input that ends where a mask
/// byte would stand ends the output early, which is how a datagram shorter
/// than the default length is read.
#[verifier::spinoff_prover]
pub fn decompress_packet(compressed_buffer: &[u8], original_length: Option<usize>) -> (r: Result<
    Vec<u8>,
    CompressionError,
>)
    ensures
        match r {
            Ok(v) => decompressed(compressed_buffer@, length_or_default(original_length)) == Ok::<
                Seq<u8>,
                CompressionError,
            >(v@),
            Err(e) => decompressed(compressed_buffer@, length_or_default(original_length)) == Err::<
                Seq<u8>,
                CompressionError,
            >(e),
        },
{
    let n: usize = match original_length {
        Some(n) => n,
        None => MAX_BUFFER_SIZE,
    };
    if n > MAX_BUFFER_SIZE {
        return Err(CompressionError::Oversize);
    }
    let ghost c = compressed_buffer@;
    let mut out: Vec<u8> = Vec::new();
    let mut read_pos: usize = 0;
    assert(c.skip(0) =~= c);
    assert forall|s: Seq<u8>| #![auto] out@ + s =~= s by {}
    while read_pos < compressed_buffer.len() && out.len() < n
        invariant
            read_pos <= c.len(),
            c == compressed_buffer@,
            n as nat == length_or_default(original_length),
            out@.len() <= n <= MAX_BUFFER_SIZE,
            expanded(c, n as nat) == prepend(out@, expanded(c.skip(read_pos as int), (n - out@.len()) as nat)),
        decreases n - out@.len(),
    {
        let ghost mask_pos = read_pos;
        let ghost out0 = out@;
        let mask = compressed_buffer[read_pos];
        read_pos = read_pos + 1;
        let remaining = n - out.len();
        let count: usize = if remaining < 8 {
            remaining
        } else {
            8
        };
        let ghost rp0 = read_pos;
        let mut m: u8 = mask;
        let mut bit: usize = 0;
        let ghost mut produced: Seq<u8> = Seq::empty();
        assert(c.skip(mask_pos as int).drop_first() =~= c.skip(rp0 as int));
        while bit < count
            invariant
                bit <= count <= 8,
                count == group_len((n - out0.len()) as nat),
                out0.len() < n <= MAX_BUFFER_SIZE,
                mask_pos < c.len(),
                rp0 == mask_pos + 1,
                c[mask_pos as int] == mask,
                c.skip(mask_pos as int).drop_first() == c.skip(rp0 as int),
                expanded(c, n as nat) == prepend(
                    out0,
                    expanded(c.skip(mask_pos as int), (n - out0.len()) as nat),
                ),
                rp0 <= read_pos <= c.len(),
                c == compressed_buffer@,
                n as nat == length_or_default(original_length),
                out@ == out0 + produced,
                produced.len() == bit,
                expand_group(mask as nat, c.skip(rp0 as int), count as nat) == prepend_group(
                    produced,
                    (read_pos - rp0) as nat,
                    expand_group(m as nat, c.skip(read_pos as int), (count - bit) as nat),
                ),
            decreases count - bit,
        {
            if m % 2 == 1 {
                if read_pos >= compressed_buffer.len() {
                    assert(c.skip(read_pos as int).len() == 0);
                    assert(expand_group(m as nat, c.skip(read_pos as int), (count - bit) as nat)
                        is None);
                    assert(expand_group(mask as nat, c.skip(rp0 as int), count as nat) is None);
                    let ghost cm = c.skip(mask_pos as int);
                    assert(cm.len() > 0 && cm[0] == mask);
                    assert(expanded(cm, (n - out0.len()) as nat) is None);
                    return Err(CompressionError::Truncated);
                }
                let b = compressed_buffer[read_pos];
                assert(c.skip(read_pos as int).drop_first() =~= c.skip(read_pos + 1));
                out.push(b);
                read_pos = read_pos + 1;
                proof {
                    assert(produced + (seq![b] + Seq::<u8>::empty()) =~= produced.push(b) + Seq::<
                        u8,
                    >::empty());
                    produced = produced.push(b);
                }
            } else {
                out.push(0);
                proof {
                    produced = produced.push(0u8);
                }
            }
            m = m / 2;
            bit = bit + 1;
            proof {
                assert forall|s: Seq<u8>| #![auto]
                    produced.drop_last() + (seq![produced.last()] + s) =~= produced + s by {}
            }
        }
        assert(produced + Seq::<u8>::empty() =~= produced);
        assert(c.skip(rp0 as int).skip((read_pos - rp0) as int) =~= c.skip(read_pos as int));
        proof {
            assert forall|s: Seq<u8>| #![auto] out0 + (produced + s) =~= (out0 + produced) + s by {}
        }
    }
    assert(c.skip(c.len() as int) =~= Seq::<u8>::empty());
    assert(out@ + Seq::<u8>::empty() =~= out@);
    Ok(out)
}

} // verus!
