//! Reassembly of little-endian PCM bytes into whole samples, carrying the
//! bytes of an incomplete sample over to the next chunk.

use vstd::arithmetic::div_mod::{
    lemma_fundamental_div_mod, lemma_fundamental_div_mod_converse_div,
    lemma_fundamental_div_mod_converse_mod, lemma_mod_pos_bound,
};
use vstd::prelude::*;

verus! {

/// Sample encoding of the incoming stream (mono, little endian).
#[derive(Debug, Clone, Copy, PartialEq, Eq, Structural)]
pub enum PcmFormat {
    I16LE,
    F32LE,
}

impl PcmFormat {
    /// Bytes per sample.
    pub open spec fn width(self) -> nat {
        match self {
            PcmFormat::I16LE => 2,
            PcmFormat::F32LE => 4,
        }
    }

    pub fn sample_width(self) -> (r: usize)
        ensures
            r == self.width(),
    {
        match self {
            PcmFormat::I16LE => 2,
            PcmFormat::F32LE => 4,
        }
    }
}

impl Default for PcmFormat {
    fn default() -> (r: Self)
        ensures
            r == PcmFormat::I16LE,
    {
        PcmFormat::I16LE
    }
}

/// Number of leading bytes of a stream of `n` bytes that form whole samples.
pub open spec fn whole_len(n: nat, width: nat) -> nat {
    (n - n % width) as nat
}

/// The trailing bytes of `bytes` that do not fill a whole sample.
pub open spec fn carry_of(bytes: Seq<u8>, width: nat) -> Seq<u8> {
    bytes.subrange(whole_len(bytes.len(), width) as int, bytes.len() as int)
}

/// `bytes` cut into consecutive groups of `width` bytes; an incomplete
/// trailing group is left out.
pub open spec fn groups_of(bytes: Seq<u8>, width: nat) -> Seq<Seq<u8>> {
    Seq::new(
        bytes.len() / width,
        |k: int| bytes.subrange(k * width, k * width + width),
    )
}

/// The signed 16-bit integer whose little-endian bytes are `lo`, `hi`.
pub open spec fn i16_from_le(lo: u8, hi: u8) -> i16 {
    let v = lo as int + 256 * hi as int;
    if v >= 32768 {
        (v - 65536) as i16
    } else {
        v as i16
    }
}

/// The unsigned 32-bit integer whose little-endian bytes are `g[0..4]`.
pub open spec fn u32_from_le(g: Seq<u8>) -> u32 {
    (g[0] as int + 256 * g[1] as int + 65536 * g[2] as int + 16777216 * g[3] as int) as u32
}

/// The 16-bit samples held by the whole sample groups of `bytes`.
pub open spec fn decode_i16le(bytes: Seq<u8>) -> Seq<i16> {
    groups_of(bytes, 2).map_values(|g: Seq<u8>| i16_from_le(g[0], g[1]))
}

/// The 32-bit words (IEEE-754 bit patterns for `F32LE`) held by the whole
/// sample groups of `bytes`.
pub open spec fn decode_u32le(bytes: Seq<u8>) -> Seq<u32> {
    groups_of(bytes, 4).map_values(|g: Seq<u8>| u32_from_le(g))
}

/// Little-endian bytes of one 16-bit sample.
pub open spec fn i16_le_bytes(s: i16) -> Seq<u8> {
    let u = if s < 0 {
        s as int + 65536
    } else {
        s as int
    };
    seq![(u % 256) as u8, (u / 256) as u8]
}

/// Little-endian bytes of a run of 16-bit samples.
pub open spec fn encode_i16le(samples: Seq<i16>) -> Seq<u8>
    decreases samples.len(),
{
    if samples.len() == 0 {
        Seq::empty()
    } else {
        encode_i16le(samples.drop_last()) + i16_le_bytes(samples.last())
    }
}

/// 16-bit samples decoded from `chunks` handed over one at a time, starting
/// with the carried bytes `carry`.
pub open spec fn stream_i16le(carry: Seq<u8>, chunks: Seq<Seq<u8>>) -> Seq<i16>
    decreases chunks.len(),
{
    if chunks.len() == 0 {
        Seq::empty()
    } else {
        let data = carry + chunks[0];
        decode_i16le(data) + stream_i16le(carry_of(data, 2), chunks.drop_first())
    }
}

/// 32-bit words decoded from `chunks` handed over one at a time.
pub open spec fn stream_u32le(carry: Seq<u8>, chunks: Seq<Seq<u8>>) -> Seq<u32>
    decreases chunks.len(),
{
    if chunks.len() == 0 {
        Seq::empty()
    } else {
        let data = carry + chunks[0];
        decode_u32le(data) + stream_u32le(carry_of(data, 4), chunks.drop_first())
    }
}

/// Bytes carried after `chunks` were handed over one at a time.
pub open spec fn stream_carry(carry: Seq<u8>, chunks: Seq<Seq<u8>>, width: nat) -> Seq<u8>
    decreases chunks.len(),
{
    if chunks.len() == 0 {
        carry
    } else {
        stream_carry(carry_of(carry + chunks[0], width), chunks.drop_first(), width)
    }
}

proof fn lemma_whole_len(n: nat, width: nat)
    requires
        width > 0,
    ensures
        whole_len(n, width) == width * (n / width),
        whole_len(n, width) <= n,
        n - whole_len(n, width) < width,
{
    lemma_fundamental_div_mod(n as int, width as int);
    lemma_mod_pos_bound(n as int, width as int);
}

/// Cutting `a + b` into groups is cutting `a`, then its carry followed by `b`.
proof fn lemma_groups_split(a: Seq<u8>, b: Seq<u8>, width: nat)
    requires
        width > 0,
    ensures
        groups_of(a + b, width) == groups_of(a, width) + groups_of(carry_of(a, width) + b, width),
        carry_of(a + b, width) == carry_of(carry_of(a, width) + b, width),
{
    let w = width as int;
    let q = (a.len() / width) as int;
    let c = carry_of(a, width);
    let x = c + b;
    lemma_whole_len(a.len(), width);
    lemma_whole_len(x.len(), width);
    lemma_whole_len((a + b).len(), width);
    let qx = (x.len() / width) as int;
    let rx = (x.len() % width) as int;
    lemma_fundamental_div_mod(x.len() as int, w);
    lemma_mod_pos_bound(x.len() as int, w);
    assert((a + b).len() == (q + qx) * w + rx) by (nonlinear_arith)
        requires
            (a + b).len() == w * q + x.len(),
            x.len() == w * qx + rx,
    ;
    lemma_fundamental_div_mod_converse_div((a + b).len() as int, w, q + qx, rx);
    lemma_fundamental_div_mod_converse_mod((a + b).len() as int, w, q + qx, rx);
    let lhs = groups_of(a + b, width);
    let rhs = groups_of(a, width) + groups_of(x, width);
    assert(lhs.len() == rhs.len());
    assert forall|k: int| 0 <= k < lhs.len() implies lhs[k] == rhs[k] by {
        if k < q {
            assert(k * w + w <= q * w) by (nonlinear_arith)
                requires
                    k < q,
                    w > 0,
            ;
            assert(lhs[k] =~= rhs[k]);
        } else {
            let j = k - q;
            assert(k * w == q * w + j * w) by (nonlinear_arith)
                requires
                    j == k - q,
            ;
            assert(j * w + w <= qx * w) by (nonlinear_arith)
                requires
                    j < qx,
                    w > 0,
            ;
            assert(lhs[k] =~= rhs[k]);
        }
    }
    assert(lhs =~= rhs);
    assert(carry_of(a + b, width) =~= carry_of(x, width));
}

/// Decoding `a + b` is decoding `a`, then its carry followed by `b`.
proof fn lemma_decode_split(a: Seq<u8>, b: Seq<u8>)
    ensures
        decode_i16le(a + b) == decode_i16le(a) + decode_i16le(carry_of(a, 2) + b),
        decode_u32le(a + b) == decode_u32le(a) + decode_u32le(carry_of(a, 4) + b),
        carry_of(a + b, 2) == carry_of(carry_of(a, 2) + b, 2),
        carry_of(a + b, 4) == carry_of(carry_of(a, 4) + b, 4),
{
    lemma_groups_split(a, b, 2);
    lemma_groups_split(a, b, 4);
    assert(decode_i16le(a + b) =~= decode_i16le(a) + decode_i16le(carry_of(a, 2) + b));
    assert(decode_u32le(a + b) =~= decode_u32le(a) + decode_u32le(carry_of(a, 4) + b));
}

proof fn lemma_stream_from_i16le(carry: Seq<u8>, chunks: Seq<Seq<u8>>)
    requires
        carry.len() < 2,
    ensures
        stream_i16le(carry, chunks) == decode_i16le(carry + chunks.flatten()),
        stream_carry(carry, chunks, 2) == carry_of(carry + chunks.flatten(), 2),
    decreases chunks.len(),
{
    if chunks.len() == 0 {
        assert(carry + chunks.flatten() =~= carry);
        lemma_empty_carry_decodes(carry);
    } else {
        let rest = chunks.drop_first();
        assert(chunks.flatten() == chunks[0] + rest.flatten());
        assert(carry + chunks.flatten() =~= (carry + chunks[0]) + rest.flatten());
        lemma_decode_split(carry + chunks[0], rest.flatten());
        lemma_whole_len((carry + chunks[0]).len(), 2);
        lemma_stream_from_i16le(carry_of(carry + chunks[0], 2), rest);
    }
}

proof fn lemma_stream_from_u32le(carry: Seq<u8>, chunks: Seq<Seq<u8>>)
    requires
        carry.len() < 4,
    ensures
        stream_u32le(carry, chunks) == decode_u32le(carry + chunks.flatten()),
        stream_carry(carry, chunks, 4) == carry_of(carry + chunks.flatten(), 4),
    decreases chunks.len(),
{
    if chunks.len() == 0 {
        assert(carry + chunks.flatten() =~= carry);
        lemma_empty_carry_decodes(carry);
    } else {
        let rest = chunks.drop_first();
        assert(chunks.flatten() == chunks[0] + rest.flatten());
        assert(carry + chunks.flatten() =~= (carry + chunks[0]) + rest.flatten());
        lemma_decode_split(carry + chunks[0], rest.flatten());
        lemma_whole_len((carry + chunks[0]).len(), 4);
        lemma_stream_from_u32le(carry_of(carry + chunks[0], 4), rest);
    }
}

/// A carry shorter than one sample decodes to nothing.
proof fn lemma_empty_carry_decodes(carry: Seq<u8>)
    ensures
        carry.len() < 2 ==> decode_i16le(carry).len() == 0,
        carry.len() < 4 ==> decode_u32le(carry).len() == 0,
        carry.len() < 2 ==> carry_of(carry, 2) == carry,
        carry.len() < 4 ==> carry_of(carry, 4) == carry,
{
    if carry.len() < 4 {
        assert(carry.len() % 4 == carry.len());
        assert(carry_of(carry, 4) =~= carry);
    }
    if carry.len() < 2 {
        assert(carry.len() % 2 == carry.len());
        assert(carry_of(carry, 2) =~= carry);
    }
}

/// Fewer than two bytes hold no 16-bit sample and are all carried.
proof fn lemma_short_decodes_empty(bytes: Seq<u8>)
    requires
        bytes.len() < 2,
    ensures
        decode_i16le(bytes) == Seq::<i16>::empty(),
        carry_of(bytes, 2) == bytes,
{
    lemma_empty_carry_decodes(bytes);
    assert(decode_i16le(bytes) =~= Seq::<i16>::empty());
}

/// A carried byte `c` followed by `bytes` decodes to the sample of `c` and
/// the first byte, then to what the remaining bytes decode to.
proof fn lemma_carry_joins_first_byte(c: u8, bytes: Seq<u8>)
    requires
        bytes.len() >= 1,
    ensures
        decode_i16le(seq![c] + bytes) == seq![i16_from_le(c, bytes[0])] + decode_i16le(
            bytes.subrange(1, bytes.len() as int),
        ),
        carry_of(seq![c] + bytes, 2) == carry_of(bytes.subrange(1, bytes.len() as int), 2),
{
    let pair = seq![c, bytes[0]];
    let rest = bytes.subrange(1, bytes.len() as int);
    assert(seq![c] + bytes =~= pair + rest);
    lemma_decode_split(pair, rest);
    assert(carry_of(pair, 2) =~= Seq::<u8>::empty());
    assert(Seq::<u8>::empty() + rest =~= rest);
    assert(decode_i16le(pair) =~= seq![i16_from_le(c, bytes[0])]);
}

/// Streaming: handing a byte stream over in arbitrary chunks yields the same
/// samples as decoding it in one piece, and leaves carried only the bytes of
/// the incomplete last sample (at most one byte for `I16LE`, three for
/// `F32LE`).
pub proof fn lemma_chunked_decoding_matches_whole(chunks: Seq<Seq<u8>>)
    ensures
        stream_i16le(Seq::empty(), chunks) == decode_i16le(chunks.flatten()),
        stream_u32le(Seq::empty(), chunks) == decode_u32le(chunks.flatten()),
        stream_carry(Seq::empty(), chunks, 2) == carry_of(chunks.flatten(), 2),
        stream_carry(Seq::empty(), chunks, 4) == carry_of(chunks.flatten(), 4),
        stream_carry(Seq::empty(), chunks, 2).len() <= 1,
        stream_carry(Seq::empty(), chunks, 4).len() <= 3,
{
    lemma_stream_from_i16le(Seq::empty(), chunks);
    lemma_stream_from_u32le(Seq::empty(), chunks);
    assert(Seq::<u8>::empty() + chunks.flatten() =~= chunks.flatten());
    lemma_whole_len(chunks.flatten().len(), 2);
    lemma_whole_len(chunks.flatten().len(), 4);
}

/// Concatenation of two byte slices.
fn join_bytes(a: &[u8], b: &[u8]) -> (r: Vec<u8>)
    ensures
        r@ == a@ + b@,
{
    let mut r: Vec<u8> = Vec::new();
    let mut i: usize = 0;
    while i < a.len()
        invariant
            i <= a@.len(),
            r@ == a@.subrange(0, i as int),
        decreases a@.len() - i,
    {
        r.push(a[i]);
        i = i + 1;
        assert(r@ =~= a@.subrange(0, i as int));
    }
    let mut j: usize = 0;
    while j < b.len()
        invariant
            j <= b@.len(),
            r@ == a@ + b@.subrange(0, j as int),
        decreases b@.len() - j,
    {
        r.push(b[j]);
        j = j + 1;
        assert(r@ =~= a@ + b@.subrange(0, j as int));
    }
    assert(b@.subrange(0, b@.len() as int) =~= b@);
    r
}

/// Replaces `leftover` with `data[from..]`.
fn keep_tail(data: &[u8], from: usize, leftover: &mut Vec<u8>)
    requires
        from <= data@.len(),
    ensures
        final(leftover)@ == data@.subrange(from as int, data@.len() as int),
{
    leftover.clear();
    let mut i: usize = from;
    while i < data.len()
        invariant
            from <= i <= data@.len(),
            leftover@ == data@.subrange(from as int, i as int),
        decreases data@.len() - i,
    {
        leftover.push(data[i]);
        i = i + 1;
        assert(leftover@ =~= data@.subrange(from as int, i as int));
    }
}

/// The 16-bit sample stored little endian in `lo`, `hi`.
pub fn sample_from_le(lo: u8, hi: u8) -> (r: i16)
    ensures
        r == i16_from_le(lo, hi),
{
    let v: i32 = lo as i32 + 256 * hi as i32;
    if v >= 32768 {
        (v - 65536) as i16
    } else {
        v as i16
    }
}

/// The 32-bit word stored little endian in `b0..b3`.
fn word_from_le(b0: u8, b1: u8, b2: u8, b3: u8) -> (r: u32)
    ensures
        r == u32_from_le(seq![b0, b1, b2, b3]),
{
    b0 as u32 + 256 * b1 as u32 + 65536 * b2 as u32 + 16777216 * b3 as u32
}

/// Appends the samples of the whole two-byte groups of `data` to `out`;
/// returns the number of bytes they take.
fn decode_i16_into(data: &[u8], out: &mut Vec<i16>) -> (used: usize)
    ensures
        final(out)@ == old(out)@ + decode_i16le(data@),
        used == whole_len(data@.len(), 2),
{
    let ghost whole = decode_i16le(data@);
    let ghost start = out@;
    let mut idx: usize = 0;
    let mut count: usize = 0;
    while data.len() - idx >= 2
        invariant
            idx <= data@.len(),
            idx == 2 * count,
            whole == decode_i16le(data@),
            count <= whole.len(),
            out@ == start + whole.subrange(0, count as int),
        decreases data@.len() - idx,
    {
        proof {
            assert(data@.len() / 2 >= count + 1) by (nonlinear_arith)
                requires
                    data@.len() >= 2 * count + 2,
            ;
        }
        out.push(sample_from_le(data[idx], data[idx + 1]));
        idx = idx + 2;
        count = count + 1;
        assert(out@ =~= start + whole.subrange(0, count as int));
    }
    proof {
        lemma_whole_len(data@.len(), 2);
        assert(whole.subrange(0, count as int) =~= whole);
    }
    idx
}

/// Appends the words of the whole four-byte groups of `data` to `out`;
/// returns the number of bytes they take.
fn decode_u32_into(data: &[u8], out: &mut Vec<u32>) -> (used: usize)
    ensures
        final(out)@ == old(out)@ + decode_u32le(data@),
        used == whole_len(data@.len(), 4),
{
    let ghost whole = decode_u32le(data@);
    let ghost start = out@;
    let mut idx: usize = 0;
    let mut count: usize = 0;
    while data.len() - idx >= 4
        invariant
            idx <= data@.len(),
            idx == 4 * count,
            whole == decode_u32le(data@),
            count <= whole.len(),
            out@ == start + whole.subrange(0, count as int),
        decreases data@.len() - idx,
    {
        proof {
            assert(data@.len() / 4 >= count + 1) by (nonlinear_arith)
                requires
                    data@.len() >= 4 * count + 4,
            ;
            let g = data@.subrange(idx as int, idx + 4);
            assert(g =~= seq![data@[idx as int], data@[idx + 1], data@[idx + 2], data@[idx + 3]]);
        }
        out.push(word_from_le(data[idx], data[idx + 1], data[idx + 2], data[idx + 3]));
        idx = idx + 4;
        count = count + 1;
        assert(out@ =~= start + whole.subrange(0, count as int));
    }
    proof {
        lemma_whole_len(data@.len(), 4);
        assert(whole.subrange(0, count as int) =~= whole);
    }
    idx
}

/// Decodes the 16-bit samples of `leftover` followed by `bytes`; the byte of
/// an incomplete last sample, if any, becomes the new `leftover`.
pub fn parse_pcm16le_to_i16(bytes: &[u8], leftover: &mut Vec<u8>) -> (samples: Vec<i16>)
    ensures
        samples@ == decode_i16le(old(leftover)@ + bytes@),
        final(leftover)@ == carry_of(old(leftover)@ + bytes@, 2),
        final(leftover)@.len() <= 1,
{
    let ghost l0 = leftover@;
    let mut samples: Vec<i16> = Vec::new();
    let used = decode_i16_into(leftover.as_slice(), &mut samples);
    proof {
        lemma_decode_split(l0, bytes@);
        lemma_whole_len(l0.len(), 2);
        lemma_whole_len((l0 + bytes@).len(), 2);
    }
    if used < leftover.len() {
        let c = leftover[used];
        assert(carry_of(l0, 2) =~= seq![c]);
        if bytes.len() == 0 {
            leftover.clear();
            leftover.push(c);
            proof {
                assert(seq![c] + bytes@ =~= seq![c]);
                lemma_short_decodes_empty(seq![c]);
                assert(samples@ =~= decode_i16le(l0) + Seq::<i16>::empty());
            }
            return samples;
        }
        samples.push(sample_from_le(c, bytes[0]));
        let (_, rest) = bytes.split_at(1);
        let used2 = decode_i16_into(rest, &mut samples);
        keep_tail(rest, used2, leftover);
        proof {
            lemma_carry_joins_first_byte(c, bytes@);
            lemma_whole_len(rest@.len(), 2);
            assert(samples@ =~= decode_i16le(l0) + decode_i16le(seq![c] + bytes@));
        }
    } else {
        let used2 = decode_i16_into(bytes, &mut samples);
        keep_tail(bytes, used2, leftover);
        proof {
            assert(carry_of(l0, 2) + bytes@ =~= bytes@);
            lemma_whole_len(bytes@.len(), 2);
        }
    }
    samples
}

/// Decodes the 32-bit words of `leftover` followed by `bytes`; the bytes of an
/// incomplete last word, if any, become the new `leftover`.
pub fn parse_pcm32le_words(bytes: &[u8], leftover: &mut Vec<u8>) -> (words: Vec<u32>)
    ensures
        words@ == decode_u32le(old(leftover)@ + bytes@),
        final(leftover)@ == carry_of(old(leftover)@ + bytes@, 4),
        final(leftover)@.len() <= 3,
{
    let ghost l0 = leftover@;
    let mut words: Vec<u32> = Vec::new();
    let used = decode_u32_into(leftover.as_slice(), &mut words);
    proof {
        lemma_decode_split(l0, bytes@);
        lemma_whole_len(l0.len(), 4);
        lemma_whole_len((l0 + bytes@).len(), 4);
    }
    let carried = leftover.len() - used;
    if carried == 0 {
        let used2 = decode_u32_into(bytes, &mut words);
        keep_tail(bytes, used2, leftover);
        proof {
            assert(carry_of(l0, 4) + bytes@ =~= bytes@);
            lemma_whole_len(bytes@.len(), 4);
        }
        return words;
    }
    let (_, carry) = leftover.as_slice().split_at(used);
    assert(carry@ == carry_of(l0, 4));
    if bytes.len() < 4 - carried {
        let joined = join_bytes(carry, bytes);
        *leftover = joined;
        proof {
            lemma_empty_carry_decodes(carry@ + bytes@);
            assert(decode_u32le(carry@ + bytes@) =~= Seq::<u32>::empty());
            assert(words@ =~= decode_u32le(l0) + Seq::<u32>::empty());
        }
        return words;
    }
    let (b_head, b_rest) = bytes.split_at(4 - carried);
    let head = join_bytes(carry, b_head);
    words.push(word_from_le(head[0], head[1], head[2], head[3]));
    let used2 = decode_u32_into(b_rest, &mut words);
    keep_tail(b_rest, used2, leftover);
    proof {
        assert(carry@ + bytes@ =~= head@ + b_rest@);
        lemma_decode_split(head@, b_rest@);
        lemma_whole_len(4, 4);
        assert(carry_of(head@, 4) =~= Seq::<u8>::empty());
        assert(Seq::<u8>::empty() + b_rest@ =~= b_rest@);
        assert(head@ =~= seq![head@[0], head@[1], head@[2], head@[3]]);
        assert(decode_u32le(head@) =~= seq![u32_from_le(head@)]);
        lemma_whole_len(b_rest@.len(), 4);
        assert(words@ =~= decode_u32le(l0) + decode_u32le(carry@ + bytes@));
    }
    words
}

/// Little-endian bytes of `samples`.
pub fn encode_pcm16le(samples: &[i16]) -> (r: Vec<u8>)
    ensures
        r@ == encode_i16le(samples@),
        r@.len() == 2 * samples@.len(),
{
    let mut r: Vec<u8> = Vec::new();
    let mut i: usize = 0;
    while i < samples.len()
        invariant
            i <= samples@.len(),
            r@ == encode_i16le(samples@.subrange(0, i as int)),
            r@.len() == 2 * i,
        decreases samples@.len() - i,
    {
        let s = samples[i];
        let u: u32 = if s < 0 {
            (s as i32 + 65536) as u32
        } else {
            s as u32
        };
        r.push((u % 256) as u8);
        r.push((u / 256) as u8);
        proof {
            let pre = samples@.subrange(0, i as int);
            let post = samples@.subrange(0, i + 1);
            assert(post.drop_last() =~= pre);
            assert(post.last() == s);
        }
        i = i + 1;
        assert(r@ =~= encode_i16le(samples@.subrange(0, i as int)));
    }
    assert(samples@.subrange(0, samples@.len() as int) =~= samples@);
    r
}

proof fn lemma_encode_len(samples: Seq<i16>)
    ensures
        encode_i16le(samples).len() == 2 * samples.len(),
    decreases samples.len(),
{
    if samples.len() > 0 {
        lemma_encode_len(samples.drop_last());
    }
}

proof fn lemma_sample_round_trip(s: i16)
    ensures
        i16_from_le(i16_le_bytes(s)[0], i16_le_bytes(s)[1]) == s,
{
}

/// Decoding the little-endian encoding of 16-bit samples gives the samples
/// back, with nothing carried.
pub proof fn lemma_decode_encode_i16le(samples: Seq<i16>)
    ensures
        decode_i16le(encode_i16le(samples)) == samples,
        carry_of(encode_i16le(samples), 2).len() == 0,
    decreases samples.len(),
{
    lemma_encode_len(samples);
    lemma_whole_len(encode_i16le(samples).len(), 2);
    if samples.len() > 0 {
        let init = samples.drop_last();
        let tail = i16_le_bytes(samples.last());
        lemma_decode_encode_i16le(init);
        lemma_decode_split(encode_i16le(init), tail);
        assert(Seq::<u8>::empty() + tail =~= tail);
        assert(carry_of(encode_i16le(init), 2) =~= Seq::<u8>::empty());
        lemma_sample_round_trip(samples.last());
        assert(decode_i16le(tail) =~= seq![samples.last()]);
        assert(samples =~= init.push(samples.last()));
        assert(decode_i16le(encode_i16le(samples)) =~= samples);
    }
}

} // verus!
