use vstd::prelude::*;

verus! {

/// The most words that one push-constant write may carry.
pub const PUSH_CONSTANT_CLEAR_WORDS: u32 = 64;

/// One write of zeros: `size_words` words at byte offset `offset`.
#[derive(Clone, Copy, Debug, PartialEq, Eq, Structural)]
pub struct PushConstantWrite {
    pub offset: u32,
    pub size_words: u32,
}

/// How many writes zeroing `size_words` words takes.
pub open spec fn clear_write_count(size_words: int) -> int {
    (size_words + PUSH_CONSTANT_CLEAR_WORDS - 1) / PUSH_CONSTANT_CLEAR_WORDS as int
}

/// The `i`-th write of zeroing `size_words` words from byte `offset` on: a
/// full chunk, or what is left.
pub open spec fn clear_write(offset: int, size_words: int, i: int) -> (int, int) {
    let done = PUSH_CONSTANT_CLEAR_WORDS * i;
    let left = size_words - done;
    (offset + 4 * done, if left < PUSH_CONSTANT_CLEAR_WORDS { left } else { PUSH_CONSTANT_CLEAR_WORDS as int })
}

/// The writes that zero `size_words` words from byte `offset` on carry
/// between one and `PUSH_CONSTANT_CLEAR_WORDS` words each; the first starts at
/// `offset`, each next one where the one before ends, and the last ends at
/// the end of the range: no gap, no overlap.
pub proof fn lemma_clear_writes_cover(offset: int, size_words: int)
    requires
        size_words >= 0,
    ensures
        forall|i: int|
            0 <= i < clear_write_count(size_words) ==> 0 < (#[trigger] clear_write(offset, size_words, i)).1
                <= PUSH_CONSTANT_CLEAR_WORDS,
        forall|i: int|
            0 <= i && i + 1 < clear_write_count(size_words) ==> #[trigger] clear_write(offset, size_words, i + 1).0
                == clear_write(offset, size_words, i).0 + 4 * clear_write(offset, size_words, i).1,
        clear_write_count(size_words) > 0 ==> clear_write(offset, size_words, 0).0 == offset,
        clear_write_count(size_words) > 0 ==> clear_write(offset, size_words, clear_write_count(size_words) - 1).0
            + 4 * clear_write(offset, size_words, clear_write_count(size_words) - 1).1 == offset + 4 * size_words,
        clear_write_count(size_words) == 0 <==> size_words == 0,
{
}

/// `w` is the write at byte offset `expected.0` of `expected.1` words.
pub open spec fn write_is(w: PushConstantWrite, expected: (int, int)) -> bool {
    w.offset == expected.0 && w.size_words == expected.1
}

/// Splits the zeroing of `size_bytes` bytes of push constants from byte
/// `offset` on into writes of at most `PUSH_CONSTANT_CLEAR_WORDS` words each,
/// in order, contiguous, covering every whole word of the range.
pub fn push_constant_clear(offset: u32, size_bytes: u32) -> (r: Vec<PushConstantWrite>)
    requires
        offset + size_bytes <= u32::MAX,
    ensures
        r@.len() == clear_write_count(size_bytes as int / 4),
        forall|i: int|
            0 <= i < r@.len() ==> write_is(#[trigger] r@[i], clear_write(offset as int, size_bytes as int / 4, i)),
{
    let size_words = size_bytes / 4;
    let mut count_words: u32 = 0;
    let mut r: Vec<PushConstantWrite> = Vec::new();
    while count_words < size_words
        invariant
            size_words == size_bytes / 4,
            offset + size_bytes <= u32::MAX,
            count_words <= size_words,
            count_words < size_words ==> count_words == PUSH_CONSTANT_CLEAR_WORDS * r@.len(),
            r@.len() == clear_write_count(count_words as int),
            forall|i: int|
                0 <= i < r@.len() ==> write_is(#[trigger] r@[i], clear_write(offset as int, size_words as int, i)),
        decreases size_words - count_words,
    {
        let count_bytes = count_words * 4;
        let left = size_words - count_words;
        let size_to_write_words = if left < PUSH_CONSTANT_CLEAR_WORDS {
            left
        } else {
            PUSH_CONSTANT_CLEAR_WORDS
        };
        let ghost prev = r@;
        r.push(PushConstantWrite { offset: offset + count_bytes, size_words: size_to_write_words });
        count_words = count_words + size_to_write_words;
        assert forall|i: int|
            0 <= i < r@.len() implies write_is(#[trigger] r@[i], clear_write(offset as int, size_words as int, i)) by {
            if i < prev.len() {
                assert(r@[i] == prev[i]);
            }
        }
    }
    r
}

} // verus!
