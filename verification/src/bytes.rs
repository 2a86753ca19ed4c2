//! Little-endian words in byte sequences: reading them at an offset and
//! writing them out, with the facts that tie the two together.

use vstd::prelude::*;
use vstd::bytes::spec_u32_from_le_bytes;
use vstd::bytes::spec_u32_to_le_bytes;
use vstd::bytes::u32_from_le_bytes;
use vstd::bytes::u32_to_le_bytes;
use vstd::bytes::lemma_auto_spec_u32_to_from_le_bytes;

verus! {

/// The little-endian word stored at byte offset `pos`.
pub open spec fn word_at(s: Seq<u8>, pos: int) -> u32 {
    spec_u32_from_le_bytes(s.subrange(pos, pos + 4))
}

/// The words stored at `pos`, `pos + 4`, ..., `n` of them.
pub open spec fn words_at(s: Seq<u8>, pos: int, n: nat) -> Seq<u32> {
    Seq::new(n, |i: int| word_at(s, pos + 4 * i))
}

/// The bytes of a sequence of words, each written little-endian, in order.
pub open spec fn words_bytes(w: Seq<u32>) -> Seq<u8>
    decreases w.len(),
{
    if w.len() == 0 {
        Seq::empty()
    } else {
        words_bytes(w.drop_last()) + spec_u32_to_le_bytes(w.last())
    }
}

/// A word written little-endian reads back as itself.
pub proof fn lemma_word_roundtrip(x: u32)
    ensures
        spec_u32_to_le_bytes(x).len() == 4,
        word_at(spec_u32_to_le_bytes(x), 0) == x,
{
    lemma_auto_spec_u32_to_from_le_bytes();
    assert(spec_u32_to_le_bytes(x).subrange(0, 4) =~= spec_u32_to_le_bytes(x));
}

/// Reading inside the first part of a concatenation ignores the second part.
pub proof fn lemma_word_at_prefix(a: Seq<u8>, b: Seq<u8>, pos: int)
    requires
        0 <= pos,
        pos + 4 <= a.len(),
    ensures
        word_at(a + b, pos) == word_at(a, pos),
{
    assert((a + b).subrange(pos, pos + 4) =~= a.subrange(pos, pos + 4));
}

/// Reading inside the second part of a concatenation ignores the first part.
pub proof fn lemma_word_at_suffix(a: Seq<u8>, b: Seq<u8>, pos: int)
    requires
        0 <= pos,
        pos + 4 <= b.len(),
    ensures
        word_at(a + b, a.len() + pos) == word_at(b, pos),
{
    assert((a + b).subrange(a.len() + pos, a.len() + pos + 4) =~= b.subrange(pos, pos + 4));
}

/// Words read inside the first part of a concatenation ignore the second part.
pub proof fn lemma_words_at_prefix(a: Seq<u8>, b: Seq<u8>, pos: int, n: nat)
    requires
        0 <= pos,
        pos + 4 * n <= a.len(),
    ensures
        words_at(a + b, pos, n) == words_at(a, pos, n),
{
    assert forall|i: int| 0 <= i < n implies #[trigger] word_at(a + b, pos + 4 * i) == word_at(a, pos + 4 * i) by {
        lemma_word_at_prefix(a, b, pos + 4 * i);
    }
    assert(words_at(a + b, pos, n) =~= words_at(a, pos, n));
}

/// Words read inside the second part of a concatenation ignore the first part.
pub proof fn lemma_words_at_suffix(a: Seq<u8>, b: Seq<u8>, pos: int, n: nat)
    requires
        0 <= pos,
        pos + 4 * n <= b.len(),
    ensures
        words_at(a + b, a.len() + pos, n) == words_at(b, pos, n),
{
    assert forall|i: int| 0 <= i < n implies #[trigger] word_at(a + b, a.len() + pos + 4 * i) == word_at(b, pos + 4 * i) by {
        lemma_word_at_suffix(a, b, pos + 4 * i);
    }
    assert(words_at(a + b, a.len() + pos, n) =~= words_at(b, pos, n));
}

/// Writing words and reading them back gives the same words.
pub proof fn lemma_words_bytes(w: Seq<u32>)
    ensures
        words_bytes(w).len() == 4 * w.len(),
        words_at(words_bytes(w), 0, w.len()) == w,
    decreases w.len(),
{
    if w.len() > 0 {
        let init = w.drop_last();
        lemma_words_bytes(init);
        lemma_word_roundtrip(w.last());
        let a = words_bytes(init);
        let b = spec_u32_to_le_bytes(w.last());
        assert forall|i: int| 0 <= i < w.len() implies #[trigger] word_at(a + b, 4 * i) == w[i] by {
            if i < init.len() {
                lemma_word_at_prefix(a, b, 4 * i);
                assert(word_at(a, 0 + 4 * i) == init[i]);
            } else {
                lemma_word_at_suffix(a, b, 0);
            }
        }
        assert(words_at(words_bytes(w), 0, w.len()) =~= w);
    }
}

/// Reading words out of bytes and writing them back gives the same bytes.
pub proof fn lemma_words_at_bytes(s: Seq<u8>, pos: int, n: nat)
    requires
        0 <= pos,
        pos + 4 * n <= s.len(),
    ensures
        words_bytes(words_at(s, pos, n)) == s.subrange(pos, pos + 4 * n),
    decreases n,
{
    lemma_auto_spec_u32_to_from_le_bytes();
    if n > 0 {
        let m = (n - 1) as nat;
        lemma_words_at_bytes(s, pos, m);
        assert(words_at(s, pos, n).drop_last() =~= words_at(s, pos, m));
        assert(s.subrange(pos + 4 * m, pos + 4 * m + 4).len() == 4);
        assert(spec_u32_to_le_bytes(word_at(s, pos + 4 * m)) == s.subrange(pos + 4 * m, pos + 4 * m + 4));
        assert(s.subrange(pos, pos + 4 * n) =~= s.subrange(pos, pos + 4 * m) + s.subrange(
            pos + 4 * m,
            pos + 4 * m + 4,
        ));
    }
}

/// Reads `n` words at byte offset `pos`.
pub fn read_words_at(data: &[u8], pos: usize, n: usize) -> (r: Vec<u32>)
    requires
        pos + 4 * n <= data@.len(),
    ensures
        r@ == words_at(data@, pos as int, n as nat),
{
    let len = data.len();
    let mut out: Vec<u32> = Vec::new();
    let mut i: usize = 0;
    while i < n
        invariant
            len == data@.len(),
            pos + 4 * n <= data@.len(),
            i <= n,
            out@ == words_at(data@, pos as int, i as nat),
        decreases n - i,
    {
        let p = pos + 4 * i;
        let w = u32_from_le_bytes(&data[p..p + 4]);
        out.push(w);
        i = i + 1;
        assert(out@ =~= words_at(data@, pos as int, i as nat));
    }
    out
}

/// Appends `x` to `out` as four little-endian bytes.
pub fn push_u32_le(out: &mut Vec<u8>, x: u32)
    ensures
        final(out)@ == old(out)@ + spec_u32_to_le_bytes(x),
{
    let b = u32_to_le_bytes(x);
    let mut i: usize = 0;
    let ghost start = out@;
    while i < 4
        invariant
            b@ == spec_u32_to_le_bytes(x),
            b@.len() == 4,
            i <= 4,
            out@ == start + b@.subrange(0, i as int),
        decreases 4 - i,
    {
        out.push(b[i]);
        i = i + 1;
        assert(out@ =~= start + b@.subrange(0, i as int));
    }
    assert(b@.subrange(0, 4) =~= b@);
}

/// Appends each word of `w` to `out` as four little-endian bytes.
pub fn push_words_le(out: &mut Vec<u8>, w: &[u32])
    ensures
        final(out)@ == old(out)@ + words_bytes(w@),
{
    let ghost start = out@;
    let mut i: usize = 0;
    assert(w@.subrange(0, 0) =~= Seq::<u32>::empty());
    while i < w.len()
        invariant
            i <= w@.len(),
            out@ == start + words_bytes(w@.subrange(0, i as int)),
        decreases w@.len() - i,
    {
        push_u32_le(out, w[i]);
        i = i + 1;
        assert(w@.subrange(0, i as int).drop_last() =~= w@.subrange(0, i - 1));
        assert(out@ =~= start + words_bytes(w@.subrange(0, i as int)));
    }
    assert(w@.subrange(0, w@.len() as int) =~= w@);
}

} // verus!
