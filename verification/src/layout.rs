//! Where each byte of a filled buffer comes from.
//!
//! A buffer of `n` bytes is cut into a head that ends where the first native
//! word of `w` bytes can start, a middle of whole words, and a tail. The words
//! of the middle are drawn first, one for each slot. The head and the tail are
//! then served together, byte after byte, from further words, and a new word
//! is drawn only when the last one is used up.
use vstd::prelude::*;

verus! {

/// Bytes before the middle. `lead` is the distance from the start of the
/// buffer to the next word boundary; a buffer of at most one word, or one that
/// ends before the boundary, has no middle.
pub open spec fn head_len(n: nat, w: nat, lead: nat) -> nat {
    if n <= w || lead > n {
        n
    } else {
        lead
    }
}

/// Bytes of the middle: as many whole words as fit behind the head.
pub open spec fn mid_len(n: nat, w: nat, lead: nat) -> nat {
    let rest = (n - head_len(n, w, lead)) as nat;
    (rest - rest % w) as nat
}

/// Whether byte `i` lies in the middle.
pub open spec fn in_mid(n: nat, w: nat, lead: nat, i: int) -> bool {
    head_len(n, w, lead) <= i < head_len(n, w, lead) + mid_len(n, w, lead)
}

/// The place of byte `i` among the bytes of its part: counted from the start
/// of the middle for a byte of the middle, and through head and tail together
/// for the others.
pub open spec fn place(n: nat, w: nat, lead: nat, i: int) -> int {
    if in_mid(n, w, lead, i) {
        i - head_len(n, w, lead)
    } else if i < head_len(n, w, lead) {
        i
    } else {
        i - mid_len(n, w, lead)
    }
}

/// The number, in the order of drawing, of the word that byte `i` comes from.
pub open spec fn source_word(n: nat, w: nat, lead: nat, i: int) -> int {
    if in_mid(n, w, lead, i) {
        place(n, w, lead, i) / (w as int)
    } else {
        (mid_len(n, w, lead) / w) + place(n, w, lead, i) / (w as int)
    }
}

/// The number of the byte within its word that byte `i` comes from.
pub open spec fn source_byte(n: nat, w: nat, lead: nat, i: int) -> int {
    place(n, w, lead, i) % (w as int)
}

/// The number of words that filling the buffer draws.
pub open spec fn words_needed(n: nat, w: nat, lead: nat) -> nat {
    let mid = mid_len(n, w, lead);
    (mid / w + ((n - mid) + w - 1) / (w as int)) as nat
}

/// Byte `b` of `word`, the lowest first.
pub open spec fn byte_of(word: u64, b: int) -> u8 {
    ((word >> ((8 * b) as u64)) & 0xff) as u8
}

/// The buffer `dest` after the words `words` were drawn for it: each byte
/// whose word was drawn holds its byte of that word, the others are as before.
pub open spec fn written(dest: Seq<u8>, w: nat, lead: nat, words: Seq<u64>) -> Seq<u8> {
    Seq::new(
        dest.len(),
        |i: int|
            if source_word(dest.len(), w, lead, i) < words.len() {
                byte_of(
                    words[source_word(dest.len(), w, lead, i)],
                    source_byte(dest.len(), w, lead, i),
                )
            } else {
                dest[i]
            },
    )
}

/// Byte `b` of `word`, the lowest first.
pub fn byte_at(word: u64, b: usize) -> (r: u8)
    requires
        b < 8,
    ensures
        r == byte_of(word, b as int),
{
    let shift: u64 = 8 * (b as u64);
    ((word >> shift) & 0xff) as u8
}

/// The middle is made of whole words and lies within the buffer, and what is
/// left of the buffer beside head and middle is less than a word.
pub proof fn lemma_layout(n: nat, w: nat, lead: nat)
    requires
        w == 4 || w == 8,
    ensures
        head_len(n, w, lead) <= n,
        ((n - head_len(n, w, lead)) % (w as int)) <= n - head_len(n, w, lead),
        mid_len(n, w, lead) % w == 0,
        head_len(n, w, lead) + mid_len(n, w, lead) <= n,
        n - head_len(n, w, lead) - mid_len(n, w, lead) < w,
{
    let rest = n - head_len(n, w, lead);
    if w == 4 {
        assert(rest % 4 <= rest && (rest - rest % 4) % 4 == 0 && rest % 4 < 4);
    } else {
        assert(rest % 8 <= rest && (rest - rest % 8) % 8 == 0 && rest % 8 < 8);
    }
}

/// A place is given by its word and its byte within the word.
proof fn lemma_place_by_word_and_byte(w: int, x: int, y: int)
    requires
        w == 4 || w == 8,
        x / w == y / w,
        x % w == y % w,
    ensures
        x == y,
{
    if w == 4 {
        assert(x == 4 * (x / 4) + x % 4 && y == 4 * (y / 4) + y % 4);
    } else {
        assert(x == 8 * (x / 8) + x % 8 && y == 8 * (y / 8) + y % 8);
    }
}

/// Every byte of the buffer has a source: a byte of one of the words that
/// filling the buffer draws.
pub proof fn lemma_source_is_drawn(n: nat, w: nat, lead: nat, i: int)
    requires
        w == 4 || w == 8,
        0 <= i < n,
    ensures
        0 <= source_word(n, w, lead, i) < words_needed(n, w, lead),
        0 <= source_byte(n, w, lead, i) < w,
{
    let head = head_len(n, w, lead);
    let mid = mid_len(n, w, lead);
    lemma_layout(n, w, lead);
    lemma_word_division(w as int, mid as int, place(n, w, lead, i), n - mid);
    lemma_word_division(w as int, mid as int, 0, place(n, w, lead, i));
}

/// No two bytes of the buffer have the same source: no byte of a drawn word
/// is used twice.
pub proof fn lemma_sources_differ(n: nat, w: nat, lead: nat, i: int, j: int)
    requires
        w == 4 || w == 8,
        0 <= i < n,
        0 <= j < n,
        i != j,
    ensures
        source_word(n, w, lead, i) != source_word(n, w, lead, j) || source_byte(n, w, lead, i)
            != source_byte(n, w, lead, j),
{
    let head = head_len(n, w, lead);
    let mid = mid_len(n, w, lead);
    let pi = place(n, w, lead, i);
    let pj = place(n, w, lead, j);
    lemma_layout(n, w, lead);
    lemma_word_division(w as int, mid as int, pi, pj);
    lemma_word_division(w as int, mid as int, pj, pi);
    if in_mid(n, w, lead, i) == in_mid(n, w, lead, j) {
        assert(pi != pj);
        if pi / (w as int) == pj / (w as int) && pi % (w as int) == pj % (w as int) {
            lemma_place_by_word_and_byte(w as int, pi, pj);
        }
    }
}

/// Once every word that the buffer needs is drawn, every byte of the buffer
/// holds its byte of its word, and none is as it was before.
pub proof fn lemma_written_in_full(dest: Seq<u8>, w: nat, lead: nat, words: Seq<u64>)
    requires
        w == 4 || w == 8,
        words.len() == words_needed(dest.len(), w, lead),
    ensures
        written(dest, w, lead, words).len() == dest.len(),
        forall|i: int|
            0 <= i < dest.len() ==> #[trigger] written(dest, w, lead, words)[i] == byte_of(
                words[source_word(dest.len(), w, lead, i)],
                source_byte(dest.len(), w, lead, i),
            ),
{
    assert forall|i: int| 0 <= i < dest.len() implies #[trigger] written(dest, w, lead, words)[i]
        == byte_of(
        words[source_word(dest.len(), w, lead, i)],
        source_byte(dest.len(), w, lead, i),
    ) by {
        lemma_source_is_drawn(dest.len(), w, lead, i);
    }
}

/// Facts of division by the size of a word that the layout rests on.
pub proof fn lemma_word_division(w: int, mid: int, x: int, p: int)
    requires
        w == 4 || w == 8,
        0 <= mid,
        mid % w == 0,
        0 <= x,
        0 <= p,
    ensures
        x < mid ==> x / w < mid / w,
        x >= mid ==> x / w >= mid / w,
        x < p ==> x / w < (p + w - 1) / w,
        p % w == 0 ==> (p + w - 1) / w == p / w,
        p % w == 0 ==> (x < p <==> x / w < p / w),
        p % w != 0 ==> (p + w - 1) / w == p / w + 1,
        (p + 1 + w - 1) / w == p / w + 1,
        0 <= p % w < w,
        (p + w) / w == p / w + 1,
        (p + w) % w == p % w,
{
    if w == 4 {
        assert(x < mid && mid % 4 == 0 ==> x / 4 < mid / 4);
        assert(x >= mid ==> x / 4 >= mid / 4);
        assert(x < p ==> x / 4 < (p + 3) / 4);
        assert(p % 4 == 0 ==> (p + 3) / 4 == p / 4);
        assert(p % 4 == 0 ==> (x < p <==> x / 4 < p / 4));
        assert(p % 4 != 0 ==> (p + 3) / 4 == p / 4 + 1);
        assert((p + 4) / 4 == p / 4 + 1);
        assert((p + 4) % 4 == p % 4);
    } else {
        assert(x < mid && mid % 8 == 0 ==> x / 8 < mid / 8);
        assert(x >= mid ==> x / 8 >= mid / 8);
        assert(x < p ==> x / 8 < (p + 7) / 8);
        assert(p % 8 == 0 ==> (p + 7) / 8 == p / 8);
        assert(p % 8 == 0 ==> (x < p <==> x / 8 < p / 8));
        assert(p % 8 != 0 ==> (p + 7) / 8 == p / 8 + 1);
        assert((p + 8) / 8 == p / 8 + 1);
        assert((p + 8) % 8 == p % 8);
    }
}

} // verus!
