use vstd::prelude::*;
use crate::ivf::{le_at, read_u64};

verus! {

/// The FNV-1a offset basis.
pub const FNV_OFFSET: u64 = 0xcbf2_9ce4_8422_2325;

/// The FNV-1a prime.
pub const FNV_PRIME: u64 = 0x0000_0100_0000_01b3;

/// One FNV-1a step: mix in a value, then multiply modulo 2^64.
pub open spec fn fnv_step(hash: u64, value: u64) -> u64 {
    (hash ^ value).wrapping_mul(FNV_PRIME)
}

/// The hash after mixing in the first `n` little-endian 8-byte words of `data`.
pub open spec fn hash_words(hash: u64, data: Seq<u8>, n: nat) -> u64
    decreases n,
{
    if n == 0 {
        hash
    } else {
        fnv_step(hash_words(hash, data, (n - 1) as nat), le_at(data, 8 * (n - 1), 8) as u64)
    }
}

/// The hash after mixing in `n` single bytes of `data` from `start`.
pub open spec fn hash_bytes(hash: u64, data: Seq<u8>, start: int, n: nat) -> u64
    decreases n,
{
    if n == 0 {
        hash
    } else {
        fnv_step(hash_bytes(hash, data, start, (n - 1) as nat), data[start + n - 1] as u64)
    }
}

/// The hash after one plane: its whole 8-byte words, then its remaining bytes.
pub open spec fn hash_plane(hash: u64, data: Seq<u8>) -> u64 {
    let words = data.len() / 8;
    hash_bytes(hash_words(hash, data, words), data, 8 * words as int, data.len() % 8)
}

/// The hash of the planes, in order, from the offset basis.
pub open spec fn hash_planes(planes: Seq<Seq<u8>>) -> u64
    decreases planes.len(),
{
    if planes.len() == 0 {
        FNV_OFFSET
    } else {
        hash_plane(hash_planes(planes.drop_last()), planes.last())
    }
}

fn mix_plane(hash: u64, data: &[u8]) -> (mixed: u64)
    ensures
        mixed == hash_plane(hash, data@),
{
    let words = data.len() / 8;
    let mut h = hash;
    let mut k: usize = 0;
    while k < words
        invariant
            words == data.len() / 8,
            k <= words,
            h == hash_words(hash, data@, k as nat),
        decreases words - k,
    {
        assert(8 * k + 8 <= data.len()) by (nonlinear_arith)
            requires
                k < words,
                words == data.len() / 8,
        ;
        let word = read_u64(data, 8 * k);
        h = (h ^ word).wrapping_mul(FNV_PRIME);
        k = k + 1;
    }
    let start = 8 * words;
    assert(start + data.len() % 8 == data.len()) by (nonlinear_arith)
        requires
            start == 8 * words,
            words == data.len() / 8,
    ;
    let tail = data.len() % 8;
    let mut t: usize = 0;
    while t < tail
        invariant
            start + tail == data.len(),
            t <= tail,
            h == hash_bytes(hash_words(hash, data@, words as nat), data@, start as int, t as nat),
        decreases tail - t,
    {
        h = (h ^ (data[start + t] as u64)).wrapping_mul(FNV_PRIME);
        t = t + 1;
    }
    h
}

/// The FNV-1a content hash of a frame's planes: each plane's little-endian
/// 8-byte words, then its remaining bytes, plane after plane.
pub fn content_hash(planes: &[Vec<u8>]) -> (hash: u64)
    ensures
        hash == hash_planes(planes@.map_values(|p: Vec<u8>| p@)),
{
    let ghost all = planes@.map_values(|p: Vec<u8>| p@);
    let mut h = FNV_OFFSET;
    let mut i: usize = 0;
    while i < planes.len()
        invariant
            i <= planes.len(),
            all == planes@.map_values(|p: Vec<u8>| p@),
            h == hash_planes(all.take(i as int)),
        decreases planes.len() - i,
    {
        proof {
            assert(all.take(i + 1).drop_last() =~= all.take(i as int));
        }
        h = mix_plane(h, planes[i].as_slice());
        i = i + 1;
    }
    proof {
        assert(all.take(all.len() as int) =~= all);
    }
    h
}

/// The hash of no planes is the FNV-1a offset basis; an empty plane changes
/// nothing; a one-byte plane is one FNV-1a step (xor, then multiply by the
/// prime modulo 2^64); an 8-byte plane is one step with its little-endian word.
pub proof fn lemma_content_hash_steps(planes: Seq<Seq<u8>>, b: u8, word: Seq<u8>)
    requires
        word.len() == 8,
    ensures
        hash_planes(Seq::empty()) == FNV_OFFSET,
        hash_planes(planes.push(Seq::empty())) == hash_planes(planes),
        hash_planes(seq![seq![b]]) == (FNV_OFFSET ^ (b as u64)).wrapping_mul(FNV_PRIME),
        hash_planes(seq![word]) == (FNV_OFFSET ^ (le_at(word, 0, 8) as u64)).wrapping_mul(
            FNV_PRIME,
        ),
        FNV_OFFSET == 14695981039346656037u64,
        FNV_PRIME == 1099511628211u64,
{
    let one = seq![seq![b]];
    assert(one.drop_last() =~= Seq::<Seq<u8>>::empty());
    assert(planes.push(Seq::empty()).drop_last() =~= planes);
    let w = seq![word];
    assert(w.drop_last() =~= Seq::<Seq<u8>>::empty());
    let d = seq![b];
    assert(d.len() / 8 == 0 && d.len() % 8 == 1);
    assert(hash_words(FNV_OFFSET, d, 0) == FNV_OFFSET);
    assert(hash_bytes(FNV_OFFSET, d, 0, 0) == FNV_OFFSET);
    assert(hash_bytes(FNV_OFFSET, d, 0, 1) == fnv_step(FNV_OFFSET, d[0] as u64));
    assert(hash_plane(FNV_OFFSET, d) == fnv_step(FNV_OFFSET, b as u64));
    assert(hash_planes(one) == hash_plane(hash_planes(one.drop_last()), d));
    assert(word.len() / 8 == 1 && word.len() % 8 == 0);
    assert(hash_words(FNV_OFFSET, word, 0) == FNV_OFFSET);
    assert(hash_words(FNV_OFFSET, word, 1) == fnv_step(FNV_OFFSET, le_at(word, 0, 8) as u64));
    assert(hash_plane(FNV_OFFSET, word) == hash_words(FNV_OFFSET, word, 1));
    assert(hash_planes(w) == hash_plane(hash_planes(w.drop_last()), word));
}

} // verus!
