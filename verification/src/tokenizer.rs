//! Words to token ids and back.
//!
//! A vocabulary grows as text is tokenized: a word that it has not seen takes
//! the next free id. Words are the runs of text between whitespace, in lower
//! case.

use vstd::prelude::*;

verus! {

/// Whether `c` is whitespace: a character with the Unicode property
/// `White_Space`.
pub open spec fn is_whitespace(c: char) -> bool {
    let n = c as u32;
    ||| 0x9 <= n <= 0xd
    ||| n == 0x20
    ||| n == 0x85
    ||| n == 0xa0
    ||| n == 0x1680
    ||| 0x2000 <= n <= 0x200a
    ||| n == 0x2028
    ||| n == 0x2029
    ||| n == 0x202f
    ||| n == 0x205f
    ||| n == 0x3000
}

/// `word`, if it has a character, as the one word of a sequence.
pub open spec fn finished(word: Seq<char>) -> Seq<Seq<char>> {
    if word.len() > 0 {
        seq![word]
    } else {
        seq![]
    }
}

/// The words of `text` where `word` holds the characters of the word that is
/// being read: whitespace ends a word, and any other character joins it.
pub open spec fn words_from(text: Seq<char>, word: Seq<char>) -> Seq<Seq<char>>
    decreases text.len(),
{
    if text.len() == 0 {
        finished(word)
    } else if is_whitespace(text[0]) {
        finished(word) + words_from(text.skip(1), seq![])
    } else {
        words_from(text.skip(1), word.push(text[0]))
    }
}

/// The words of `text`: its maximal runs of characters that are not
/// whitespace, in order.
pub open spec fn words_of(text: Seq<char>) -> Seq<Seq<char>> {
    words_from(text, seq![])
}

/// The lower-case form of `word` under the Unicode case mapping.
pub uninterp spec fn lowercased(word: Seq<char>) -> Seq<char>;

/// The words of `text`, each in lower case.
pub open spec fn lowered_words(text: Seq<char>) -> Seq<Seq<char>> {
    Seq::new(words_of(text).len(), |i: int| lowercased(words_of(text)[i]))
}

/// `vocab` after it has taken in the first `n` of `words`, each at the end
/// unless it was there already.
pub open spec fn extended(vocab: Seq<Seq<char>>, words: Seq<Seq<char>>, n: nat) -> Seq<Seq<char>>
    decreases n,
{
    if n == 0 {
        vocab
    } else {
        let before = extended(vocab, words, (n - 1) as nat);
        if before.contains(words[n - 1]) {
            before
        } else {
            before.push(words[n - 1])
        }
    }
}

/// No word stands twice in `vocab`.
pub open spec fn distinct(vocab: Seq<Seq<char>>) -> bool {
    forall|i: int, j: int| 0 <= i < j < vocab.len() ==> vocab[i] != vocab[j]
}

/// Calls `str::split_whitespace` and collects what it yields. The words are
/// the maximal runs of characters of `text` that are not whitespace, in the
/// order of the text.
#[verifier::external_body]
fn split_whitespace(text: &str) -> (words: Vec<String>)
    ensures
        words@.len() == words_of(text@).len(),
        forall|i: int| 0 <= i < words@.len() ==> (#[trigger] words@[i])@ == words_of(text@)[i],
{
    text.split_whitespace().map(String::from).collect()
}

/// Calls `str::to_lowercase`. The result is the lower-case form of `word`,
/// which depends on the characters of `word` alone.
#[verifier::external_body]
fn to_lowercase(word: &str) -> (lower: String)
    ensures
        lower@ == lowercased(word@),
{
    word.to_lowercase()
}

/// A vocabulary: the words seen so far, each at the index that is its id.
pub struct Tokenizer {
    vocab: Vec<String>,
}

impl View for Tokenizer {
    type V = Seq<Seq<char>>;

    closed spec fn view(&self) -> Seq<Seq<char>> {
        Seq::new(self.vocab@.len(), |i: int| self.vocab@[i]@)
    }
}

impl Tokenizer {
    /// No word stands twice in the vocabulary.
    pub open spec fn wf(&self) -> bool {
        distinct(self@)
    }

    /// An empty vocabulary.
    pub fn new() -> (tokenizer: Tokenizer)
        ensures
            tokenizer.wf(),
            tokenizer@ == Seq::<Seq<char>>::empty(),
    {
        let tokenizer = Tokenizer { vocab: Vec::new() };
        assert(tokenizer@ =~= Seq::<Seq<char>>::empty());
        tokenizer
    }

    /// The id of `word`, which joins the vocabulary at the end if it is new.
    pub fn intern(&mut self, word: String) -> (token: usize)
        requires
            old(self).wf(),
        ensures
            final(self).wf(),
            final(self)@ == (if old(self)@.contains(word@) {
                old(self)@
            } else {
                old(self)@.push(word@)
            }),
            token < final(self)@.len(),
            final(self)@[token as int] == word@,
    {
        let mut index: usize = 0;
        while index < self.vocab.len()
            invariant
                *self == *old(self),
                self.wf(),
                index <= self.vocab@.len(),
                forall|k: int| 0 <= k < index ==> self@[k] != word@,
            decreases self.vocab@.len() - index,
        {
            if self.vocab[index] == word {
                assert(self@[index as int] == word@);
                return index;
            }
            index += 1;
        }
        let token = self.vocab.len();
        self.vocab.push(word);
        assert(self@ =~= old(self)@.push(word@));
        token
    }

    /// The ids of the words of `text`, in order. Words that are new join the
    /// vocabulary in the order in which they first occur.
    pub fn tokenize(&mut self, text: &str) -> (tokens: Vec<usize>)
        requires
            old(self).wf(),
        ensures
            final(self).wf(),
            final(self)@ == extended(
                old(self)@,
                lowered_words(text@),
                lowered_words(text@).len(),
            ),
            tokens@.len() == lowered_words(text@).len(),
            forall|i: int|
                0 <= i < tokens@.len() ==> (#[trigger] tokens@[i]) < final(self)@.len()
                    && final(self)@[tokens@[i] as int] == lowered_words(text@)[i],
    {
        let words = split_whitespace(text);
        let ghost lowered = lowered_words(text@);
        let mut tokens: Vec<usize> = Vec::new();
        let mut n: usize = 0;
        while n < words.len()
            invariant
                self.wf(),
                n <= words@.len(),
                words@.len() == lowered.len(),
                lowered == lowered_words(text@),
                forall|i: int| 0 <= i < words@.len() ==> (#[trigger] words@[i])@ == words_of(text@)[i],
                self@ == extended(old(self)@, lowered, n as nat),
                tokens@.len() == n,
                forall|i: int|
                    0 <= i < n ==> (#[trigger] tokens@[i]) < self@.len()
                        && self@[tokens@[i] as int] == lowered[i],
            decreases words@.len() - n,
        {
            let word = to_lowercase(words[n].as_str());
            assert(word@ == lowered[n as int]);
            let ghost before = self@;
            let ghost tokens_before = tokens@;
            let token = self.intern(word);
            tokens.push(token);
            assert forall|i: int| 0 <= i < n + 1 implies (#[trigger] tokens@[i]) < self@.len()
                && self@[tokens@[i] as int] == lowered[i] by {
                if i < n {
                    assert(tokens@[i] == tokens_before[i]);
                    assert(self@[tokens_before[i] as int] == before[tokens_before[i] as int]);
                }
            }
            n += 1;
        }
        tokens
    }

    /// The number of words in the vocabulary.
    pub fn vocab_size(&self) -> (size: usize)
        ensures
            size == self@.len(),
    {
        self.vocab.len()
    }

    /// The word with the id `token`.
    pub fn decode(&self, token: usize) -> (word: &str)
        requires
            token < self@.len(),
        ensures
            word@ == self@[token as int],
    {
        self.vocab[token].as_str()
    }
}

} // verus!
