//! The byte format of what clients and daemons exchange: words of four bytes, most significant
//! byte first.

use vstd::prelude::*;

verus! {

/// The four bytes of `word`, most significant first.
pub open spec fn word_bytes(word: u32) -> Seq<u8> {
    seq![
        (word / 0x100_0000) as u8,
        (word / 0x1_0000 % 0x100) as u8,
        (word / 0x100 % 0x100) as u8,
        (word % 0x100) as u8,
    ]
}

/// The word that the four bytes of `bytes` from `at` on stand for.
pub open spec fn word_of(bytes: Seq<u8>, at: int) -> u32 {
    (bytes[at] * 0x100_0000 + bytes[at + 1] * 0x1_0000 + bytes[at + 2] * 0x100 + bytes[at
        + 3]) as u32
}

/// The bytes of `words`, one after the other.
pub open spec fn words_to_bytes(words: Seq<u32>) -> Seq<u8> {
    Seq::new(4 * words.len(), |k: int| word_bytes(words[k / 4])[k % 4])
}

/// The words in `bytes`; what is left after the last complete word does not count.
pub open spec fn bytes_to_words(bytes: Seq<u8>) -> Seq<u32> {
    Seq::new(bytes.len() / 4, |i: int| word_of(bytes, 4 * i))
}

/// The word by which a process id is sent: its two's complement.
pub open spec fn pid_to_word(pid: i32) -> u32 {
    if pid >= 0 {
        pid as u32
    } else {
        (pid + 0x1_0000_0000) as u32
    }
}

/// The process id that `word` stands for.
pub open spec fn word_to_pid(word: u32) -> i32 {
    if word < 0x8000_0000 {
        word as i32
    } else {
        (word - 0x1_0000_0000) as i32
    }
}

/// The words by which `pids` are sent.
pub open spec fn pids_to_words(pids: Seq<i32>) -> Seq<u32> {
    pids.map_values(|pid: i32| pid_to_word(pid))
}

/// The process ids that `words` stand for.
pub open spec fn words_to_pids(words: Seq<u32>) -> Seq<i32> {
    words.map_values(|word: u32| word_to_pid(word))
}

/// Appends the bytes of `word`.
pub fn push_word(bytes: &mut Vec<u8>, word: u32)
    ensures
        final(bytes)@ == old(bytes)@ + word_bytes(word),
{
    bytes.push((word / 0x100_0000) as u8);
    bytes.push((word / 0x1_0000 % 0x100) as u8);
    bytes.push((word / 0x100 % 0x100) as u8);
    bytes.push((word % 0x100) as u8);
    assert(bytes@ =~= old(bytes)@ + word_bytes(word));
}

/// The word that starts at `at`.
pub fn word_at(bytes: &[u8], at: usize) -> (word: u32)
    requires
        at + 4 <= bytes@.len(),
    ensures
        word == word_of(bytes@, at as int),
{
    bytes[at] as u32 * 0x100_0000 + bytes[at + 1] as u32 * 0x1_0000 + bytes[at + 2] as u32 * 0x100
        + bytes[at + 3] as u32
}

/// The bytes by which `words` are sent.
pub fn encode_words(words: &[u32]) -> (bytes: Vec<u8>)
    ensures
        bytes@ == words_to_bytes(words@),
{
    let mut bytes: Vec<u8> = Vec::new();
    let mut i: usize = 0;
    while i < words.len()
        invariant
            i <= words@.len(),
            bytes@ == words_to_bytes(words@.take(i as int)),
        decreases words@.len() - i,
    {
        push_word(&mut bytes, words[i]);
        i = i + 1;
        assert(bytes@ =~= words_to_bytes(words@.take(i as int)));
    }
    assert(words@.take(i as int) =~= words@);
    bytes
}

/// The words that were sent as `bytes`.
pub fn decode_words(bytes: &[u8]) -> (words: Vec<u32>)
    ensures
        words@ == bytes_to_words(bytes@),
{
    let mut words: Vec<u32> = Vec::new();
    let len: usize = bytes.len();
    let count: usize = len / 4;
    let mut i: usize = 0;
    while i < count
        invariant
            i <= count,
            len == bytes@.len(),
            count == len / 4,
            words@ == bytes_to_words(bytes@).take(i as int),
        decreases count - i,
    {
        words.push(word_at(bytes, 4 * i));
        i = i + 1;
        assert(words@ =~= bytes_to_words(bytes@).take(i as int));
    }
    assert(bytes_to_words(bytes@).take(i as int) =~= bytes_to_words(bytes@));
    words
}

/// The bytes by which a client names the processes it asks for.
pub fn encode_pids(pids: &[i32]) -> (bytes: Vec<u8>)
    ensures
        bytes@ == words_to_bytes(pids_to_words(pids@)),
{
    let mut words: Vec<u32> = Vec::new();
    let mut i: usize = 0;
    while i < pids.len()
        invariant
            i <= pids@.len(),
            words@ == pids_to_words(pids@.take(i as int)),
        decreases pids@.len() - i,
    {
        let pid: i32 = pids[i];
        if pid >= 0 {
            words.push(pid as u32);
        } else {
            words.push((pid as i64 + 0x1_0000_0000) as u32);
        }
        i = i + 1;
        assert(words@ =~= pids_to_words(pids@.take(i as int)));
    }
    assert(pids@.take(i as int) =~= pids@);
    encode_words(words.as_slice())
}

/// The processes that a client asks for with `bytes`; an incomplete last id is dropped.
pub fn decode_pids(bytes: &[u8]) -> (pids: Vec<i32>)
    ensures
        pids@ == words_to_pids(bytes_to_words(bytes@)),
{
    let words: Vec<u32> = decode_words(bytes);
    let mut pids: Vec<i32> = Vec::new();
    let mut i: usize = 0;
    while i < words.len()
        invariant
            i <= words@.len(),
            pids@ == words_to_pids(words@.take(i as int)),
        decreases words@.len() - i,
    {
        let word: u32 = words[i];
        if word < 0x8000_0000 {
            pids.push(word as i32);
        } else {
            pids.push((word as i64 - 0x1_0000_0000) as i32);
        }
        i = i + 1;
        assert(pids@ =~= words_to_pids(words@.take(i as int)));
    }
    assert(words@.take(i as int) =~= words@);
    pids
}

/// A word is read back from its bytes, wherever they stand.
pub proof fn word_roundtrip(bytes: Seq<u8>, at: int, word: u32)
    requires
        0 <= at,
        at + 4 <= bytes.len(),
        bytes.subrange(at, at + 4) == word_bytes(word),
    ensures
        word_of(bytes, at) == word,
{
    let sub = bytes.subrange(at, at + 4);
    assert(bytes[at] == sub[0] && bytes[at + 1] == sub[1] && bytes[at + 2] == sub[2] && bytes[at
        + 3] == sub[3]);
}

/// What was sent as words is read back as the same words, also where a few more bytes follow that
/// make no complete word.
pub proof fn words_roundtrip(words: Seq<u32>, rest: Seq<u8>)
    requires
        rest.len() < 4,
    ensures
        bytes_to_words(words_to_bytes(words) + rest) == words,
{
    let bytes = words_to_bytes(words) + rest;
    assert forall|i: int| 0 <= i < words.len() implies #[trigger] word_of(bytes, 4 * i)
        == words[i] by {
        assert(bytes.subrange(4 * i, 4 * i + 4) =~= word_bytes(words[i]));
        word_roundtrip(bytes, 4 * i, words[i]);
    }
    assert(bytes_to_words(bytes) =~= words);
}

/// The daemon reads the process ids that the client sent, and drops an incomplete last one.
pub proof fn pids_roundtrip(pids: Seq<i32>, rest: Seq<u8>)
    requires
        rest.len() < 4,
    ensures
        words_to_pids(bytes_to_words(words_to_bytes(pids_to_words(pids)) + rest)) == pids,
{
    words_roundtrip(pids_to_words(pids), rest);
    lemma_pids_through_words(pids);
}

proof fn lemma_pids_through_words(pids: Seq<i32>)
    ensures
        words_to_pids(pids_to_words(pids)) == pids,
{
    assert forall|i: int| 0 <= i < pids.len() implies #[trigger] words_to_pids(
        pids_to_words(pids),
    )[i] == pids[i] by {
        assert(pids_to_words(pids)[i] == pid_to_word(pids[i]));
    }
}

/// The bytes of a word are its digits to the base 256, the highest first.
pub proof fn word_bytes_are_its_digits(word: u32)
    ensures
        word_bytes(word).len() == 4,
        word == word_bytes(word)[0] * 0x100_0000 + word_bytes(word)[1] * 0x1_0000 + word_bytes(
            word,
        )[2] * 0x100 + word_bytes(word)[3],
{
}

/// The word that four bytes stand for has these bytes.
pub proof fn bytes_roundtrip(bytes: Seq<u8>, at: int)
    requires
        0 <= at,
        at + 4 <= bytes.len(),
    ensures
        word_bytes(word_of(bytes, at)) == bytes.subrange(at, at + 4),
{
    lemma_digits(bytes[at], bytes[at + 1], bytes[at + 2], bytes[at + 3], word_of(bytes, at));
    assert(word_bytes(word_of(bytes, at)) =~= bytes.subrange(at, at + 4));
}

proof fn lemma_digits(a: u8, b: u8, c: u8, d: u8, word: u32)
    requires
        word == a * 0x100_0000 + b * 0x1_0000 + c * 0x100 + d,
    ensures
        word / 0x100_0000 == a,
        word / 0x1_0000 % 0x100 == b,
        word / 0x100 % 0x100 == c,
        word % 0x100 == d,
{
    assert(word / 0x1_0000 == a * 0x100 + b);
    assert(word / 0x100 == a * 0x1_0000 + b * 0x100 + c);
}

/// Words are sent one after the other, each as its own four bytes.
pub proof fn words_are_sent_in_turn(words: Seq<u32>, word: u32)
    ensures
        words_to_bytes(Seq::empty()) == Seq::<u8>::empty(),
        words_to_bytes(words.push(word)) == words_to_bytes(words) + word_bytes(word),
{
    assert(words_to_bytes(Seq::empty()) =~= Seq::<u8>::empty());
    let longer = words.push(word);
    assert(words_to_bytes(longer) =~= words_to_bytes(words) + word_bytes(word)) by {
        assert forall|k: int| 0 <= k < 4 * longer.len() implies words_to_bytes(longer)[k] == (
        words_to_bytes(words) + word_bytes(word))[k] by {
            if k < 4 * words.len() {
                assert(longer[k / 4] == words[k / 4]);
            } else {
                assert(k / 4 == words.len() && k % 4 == k - 4 * words.len());
            }
        }
    }
}

/// As many words are read as there are complete ones, and each has the bytes that stand in its
/// place.
pub proof fn words_are_read_in_turn(bytes: Seq<u8>, i: int)
    requires
        0 <= i,
        4 * i + 4 <= bytes.len(),
    ensures
        4 * bytes_to_words(bytes).len() <= bytes.len() < 4 * bytes_to_words(bytes).len() + 4,
        i < bytes_to_words(bytes).len(),
        word_bytes(bytes_to_words(bytes)[i]) == bytes.subrange(4 * i, 4 * i + 4),
{
    bytes_roundtrip(bytes, 4 * i);
}

/// A process id and its word differ by a multiple of 2 to the power of 32: they have the same bits.
pub proof fn pid_and_word_are_congruent(pid: i32, word: u32)
    ensures
        pid_to_word(pid) == pid || pid_to_word(pid) == pid + 0x1_0000_0000,
        word == word_to_pid(word) || word == word_to_pid(word) + 0x1_0000_0000,
{
}

/// Each id of a request is sent as its own word, in its own place.
pub proof fn pids_are_sent_in_turn(pids: Seq<i32>, i: int)
    requires
        0 <= i < pids.len(),
    ensures
        pids_to_words(pids).len() == pids.len(),
        pids_to_words(pids)[i] == pids[i] || pids_to_words(pids)[i] == pids[i] + 0x1_0000_0000,
{
}

} // verus!
