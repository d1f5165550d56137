//! A bit field: flags packed sixty-four to a word.
use vstd::prelude::*;

verus! {

/// Whether flag `i` is up in `words`.
pub open spec fn bit_at(words: Seq<u64>, i: int) -> bool {
    (words[i / 64] >> ((i % 64) as u64)) & 1 == 1
}

/// The number of words that hold `n` flags.
pub open spec fn words_for(n: int) -> int {
    (n + 63) / 64
}

proof fn lemma_raise(word: u64, b: u64, c: u64)
    requires
        b < 64,
        c < 64,
    ensures
        (((word | (1u64 << b)) >> c) & 1 == 1) == (c == b || (word >> c) & 1 == 1),
{
    assert((((word | (1u64 << b)) >> c) & 1 == 1) == (c == b || (word >> c) & 1 == 1))
        by (bit_vector)
        requires
            b < 64,
            c < 64,
    ;
}

proof fn lemma_lower(word: u64, b: u64, c: u64)
    requires
        b < 64,
        c < 64,
    ensures
        (((word & !(1u64 << b)) >> c) & 1 == 1) == (c != b && (word >> c) & 1 == 1),
{
    assert((((word & !(1u64 << b)) >> c) & 1 == 1) == (c != b && (word >> c) & 1 == 1))
        by (bit_vector)
        requires
            b < 64,
            c < 64,
    ;
}

proof fn lemma_zero_word(c: u64)
    requires
        c < 64,
    ensures
        (0u64 >> c) & 1 == 0,
{
    assert((0u64 >> c) & 1 == 0) by (bit_vector)
        requires
            c < 64,
    ;
}

/// A field of `n` flags, all down.
pub fn cleared(n: usize) -> (words: Vec<u64>)
    requires
        n + 63 <= usize::MAX,
    ensures
        words.len() == words_for(n as int),
        forall|i: int| 0 <= i < words.len() * 64 ==> !bit_at(words@, i),
{
    let words = vec![0u64; (n + 63) / 64];
    proof {
        assert forall|i: int| 0 <= i < words.len() * 64 implies !bit_at(words@, i) by {
            lemma_zero_word((i % 64) as u64);
        }
    }
    words
}

/// Lowers every flag.
pub fn lower_all(words: &mut Vec<u64>)
    ensures
        final(words).len() == old(words).len(),
        forall|i: int| 0 <= i < final(words).len() * 64 ==> !bit_at(final(words)@, i),
{
    let n = words.len();
    for at in 0..n
        invariant
            n == words.len(),
            words.len() == old(words).len(),
            forall|k: int| 0 <= k < at ==> words@[k] == 0,
    {
        words[at] = 0;
    }
    proof {
        assert forall|i: int| 0 <= i < words.len() * 64 implies !bit_at(words@, i) by {
            lemma_zero_word((i % 64) as u64);
        }
    }
}

/// Reads flag `i`.
pub fn read_bit(words: &Vec<u64>, i: usize) -> (up: bool)
    requires
        i < words.len() * 64,
    ensures
        up == bit_at(words@, i as int),
{
    let shift: u64 = (i % 64) as u64;
    (words[i / 64] >> shift) & 1 == 1
}

/// Raises or lowers flag `i`, and leaves every other flag as it is.
pub fn write_bit(words: &mut Vec<u64>, i: usize, value: bool)
    requires
        i < old(words).len() * 64,
    ensures
        final(words).len() == old(words).len(),
        bit_at(final(words)@, i as int) == value,
        forall|j: int|
            0 <= j < old(words).len() * 64 && j != i ==> bit_at(final(words)@, j) == bit_at(
                old(words)@,
                j,
            ),
{
    let at: usize = i / 64;
    let shift: u64 = (i % 64) as u64;
    let word: u64 = words[at];
    let changed: u64 = if value {
        word | (1u64 << shift)
    } else {
        word & !(1u64 << shift)
    };
    words[at] = changed;
    proof {
        lemma_raise(word, shift, shift);
        lemma_lower(word, shift, shift);
        assert forall|j: int| 0 <= j < old(words).len() * 64 && j != i implies bit_at(words@, j)
            == bit_at(old(words)@, j) by {
            if j / 64 == at {
                lemma_raise(word, shift, (j % 64) as u64);
                lemma_lower(word, shift, (j % 64) as u64);
            }
        }
    }
}

} // verus!
