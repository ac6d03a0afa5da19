//! A whitespace tokenizer over a growing vocabulary.

use vstd::prelude::*;
use vstd::hash_map::StringHashMap;
use vstd::string::StrSliceExecFns;

verus! {

/// The id of the padding token `<pad>`.
pub const PAD_ID: usize = 0;

/// The id of the token `<unk>`, which stands for every unknown word.
pub const UNK_ID: usize = 1;

/// Maps words to ids. Ids are handed out in the order in which words are
/// registered: a new word gets the number of words known before it.
pub struct Tokenizer {
    vocab: StringHashMap<usize>,
}

/// Whether `c` separates words: the characters with the Unicode property
/// `White_Space`.
pub open spec fn is_space(c: char) -> bool {
    let u = c as u32;
    ||| 0x09 <= u <= 0x0d
    ||| u == 0x20
    ||| u == 0x85
    ||| u == 0xa0
    ||| u == 0x1680
    ||| 0x2000 <= u <= 0x200a
    ||| u == 0x2028
    ||| u == 0x2029
    ||| u == 0x202f
    ||| u == 0x205f
    ||| u == 0x3000
}

/// The text read so far, as the words that have ended and the word that
/// is still open (empty between words).
pub open spec fn split(s: Seq<char>) -> (Seq<Seq<char>>, Seq<char>)
    decreases s.len(),
{
    if s.len() == 0 {
        (Seq::empty(), Seq::empty())
    } else {
        let (done, open) = split(s.drop_last());
        if !is_space(s.last()) {
            (done, open.push(s.last()))
        } else if open.len() > 0 {
            (done.push(open), Seq::empty())
        } else {
            (done, open)
        }
    }
}

/// The words of a text: its maximal runs of characters that are not
/// white space, in order.
pub open spec fn words(s: Seq<char>) -> Seq<Seq<char>> {
    let (done, open) = split(s);
    if open.len() > 0 {
        done.push(open)
    } else {
        done
    }
}

/// The id of a word: the one the vocabulary gives it, or that of `<unk>`.
pub open spec fn lookup(vocab: Map<Seq<char>, usize>, word: Seq<char>) -> usize {
    if vocab.contains_key(word) {
        vocab[word]
    } else {
        UNK_ID
    }
}

/// The ids of the words of a text.
pub open spec fn token_ids(vocab: Map<Seq<char>, usize>, text: Seq<char>) -> Seq<usize> {
    Seq::new(words(text).len(), |k: int| lookup(vocab, words(text)[k]))
}

/// The vocabulary after `token` is registered: a known word keeps its id,
/// a new one gets the number of words known so far.
pub open spec fn register(vocab: Map<Seq<char>, usize>, token: Seq<char>) -> Map<
    Seq<char>,
    usize,
> {
    if vocab.contains_key(token) {
        vocab
    } else {
        vocab.insert(token, vocab.len() as usize)
    }
}

/// The vocabulary after the first `n` of `tokens` are registered in turn.
pub open spec fn register_all(vocab: Map<Seq<char>, usize>, tokens: Seq<&str>, n: nat) -> Map<
    Seq<char>,
    usize,
>
    decreases n,
{
    if n == 0 {
        vocab
    } else {
        register(register_all(vocab, tokens, (n - 1) as nat), tokens[n - 1]@)
    }
}

/// A sequence of ids filled up with `<pad>` to `max_length`; one that is
/// already as long, or longer, is left as it is.
pub open spec fn padded(ids: Seq<usize>, max_length: nat) -> Seq<usize> {
    if ids.len() >= max_length {
        ids
    } else {
        ids + Seq::new((max_length - ids.len()) as nat, |k: int| PAD_ID)
    }
}

impl View for Tokenizer {
    type V = Map<Seq<char>, usize>;

    closed spec fn view(&self) -> Map<Seq<char>, usize> {
        self.vocab@
    }
}

/// Whether `c` separates words.
pub fn is_whitespace(c: char) -> (r: bool)
    ensures
        r == is_space(c),
{
    let u = c as u32;
    (0x09 <= u && u <= 0x0d) || u == 0x20 || u == 0x85 || u == 0xa0 || u == 0x1680 || (0x2000 <= u
        && u <= 0x200a) || u == 0x2028 || u == 0x2029 || u == 0x202f || u == 0x205f || u == 0x3000
}

impl Tokenizer {
    /// A tokenizer that knows `<pad>` as `0` and `<unk>` as `1`.
    pub fn new() -> (t: Self)
        ensures
            t@ == Map::<Seq<char>, usize>::empty().insert("<pad>"@, PAD_ID).insert(
                "<unk>"@,
                UNK_ID,
            ),
    {
        let mut vocab = StringHashMap::new();
        vocab.insert("<pad>".to_owned(), PAD_ID);
        vocab.insert("<unk>".to_owned(), UNK_ID);
        Tokenizer { vocab }
    }

    /// The number of words the tokenizer knows.
    pub fn vocab_size(&self) -> (n: usize)
        ensures
            n == self@.len(),
    {
        self.vocab.len()
    }

    /// The id of one word: the one the vocabulary gives it, or that of
    /// `<unk>`.
    pub fn token_id(&self, word: &str) -> (id: usize)
        ensures
            id == lookup(self@, word@),
    {
        match self.vocab.get(word) {
            Some(id) => *id,
            None => UNK_ID,
        }
    }

    /// Splits `text` at white space and gives the id of each word; a word
    /// the vocabulary lacks counts as `<unk>`.
    pub fn tokenize(&self, text: &str) -> (ids: Vec<usize>)
        ensures
            ids@ == token_ids(self@, text@),
    {
        broadcast use vstd::string::axiom_spec_iter;

        let n = text.unicode_len();
        let mut ids: Vec<usize> = Vec::new();
        let mut start: usize = 0;
        let mut i: usize = 0;
        for c in it: text.chars()
            invariant
                it.seq() == text@,
                i == it.index(),
                n == text@.len(),
                start <= i,
                split(text@.take(i as int)).1 == text@.subrange(start as int, i as int),
                ids@.len() == split(text@.take(i as int)).0.len(),
                forall|k: int|
                    0 <= k < ids@.len() ==> ids@[k] == lookup(
                        self@,
                        split(text@.take(i as int)).0[k],
                    ),
        {
            proof {
                let next = text@.take(i + 1);
                assert(next.drop_last() =~= text@.take(i as int));
            }
            if is_whitespace(c) {
                if start < i {
                    ids.push(self.token_id(text.substring_char(start, i)));
                }
                start = i + 1;
            }
            i += 1;
        }
        assert(text@.take(n as int) =~= text@);
        if start < n {
            ids.push(self.token_id(text.substring_char(start, n)));
        }
        ids
    }

    /// Registers each of `tokens` in turn: a word that is known keeps its
    /// id, a new word gets the number of words known so far.
    pub fn register_tokens(&mut self, tokens: &[&str])
        ensures
            final(self)@ == register_all(old(self)@, tokens@, tokens@.len()),
    {
        let n = tokens.len();
        let mut k: usize = 0;
        while k < n
            invariant
                k <= n,
                n == tokens@.len(),
                self@ == register_all(old(self)@, tokens@, k as nat),
            decreases n - k,
        {
            let token = tokens[k];
            if !self.vocab.contains_key(token) {
                let next_index = self.vocab.len();
                self.vocab.insert(token.to_owned(), next_index);
            }
            k += 1;
        }
    }

    /// Fills every sequence shorter than `max_length` up to that length
    /// with `<pad>`; longer ones stay as they are.
    pub fn pad_sequences(&self, sequences: &mut Vec<Vec<usize>>, max_length: usize)
        ensures
            final(sequences)@.len() == old(sequences)@.len(),
            forall|s: int|
                0 <= s < old(sequences)@.len() ==> (#[trigger] final(sequences)@[s])@ == padded(
                    old(sequences)@[s]@,
                    max_length as nat,
                ),
    {
        let n = sequences.len();
        let mut s: usize = 0;
        while s < n
            invariant
                s <= n,
                n == sequences@.len(),
                n == old(sequences)@.len(),
                forall|t: int|
                    0 <= t < s ==> (#[trigger] sequences@[t])@ == padded(
                        old(sequences)@[t]@,
                        max_length as nat,
                    ),
                forall|t: int| s <= t < n ==> sequences@[t] == old(sequences)@[t],
            decreases n - s,
        {
            pad_sequence(&mut sequences[s], max_length);
            s += 1;
        }
    }
}

/// Fills `ids` up to `max_length` with `<pad>`; a sequence that is already
/// as long, or longer, stays as it is.
pub fn pad_sequence(ids: &mut Vec<usize>, max_length: usize)
    ensures
        final(ids)@ == padded(old(ids)@, max_length as nat),
{
    let ghost before = ids@;
    while ids.len() < max_length
        invariant
            before == old(ids)@,
            ids@.len() >= before.len(),
            before.len() >= max_length ==> ids@ == before,
            before.len() < max_length ==> ids@.len() <= max_length && ids@ == before + Seq::new(
                (ids@.len() - before.len()) as nat,
                |k: int| PAD_ID,
            ),
        decreases max_length - ids.len(),
    {
        ids.push(PAD_ID);
    }
}

impl Default for Tokenizer {
    /// The tokenizer of [`Tokenizer::new`].
    fn default() -> (t: Self)
        ensures
            t@ == Map::<Seq<char>, usize>::empty().insert("<pad>"@, PAD_ID).insert(
                "<unk>"@,
                UNK_ID,
            ),
    {
        Tokenizer::new()
    }
}

/// A sequence of characters none of which is white space.
pub open spec fn solid(word: Seq<char>) -> bool {
    forall|j: int| 0 <= j < word.len() ==> !is_space(#[trigger] word[j])
}

/// While a text is read, every word that has ended is non-empty and free
/// of white space, and so is what is read of the open word.
pub proof fn lemma_split_is_clean(s: Seq<char>)
    ensures
        solid(split(s).1),
        forall|k: int|
            0 <= k < split(s).0.len() ==> (#[trigger] split(s).0[k]).len() > 0 && solid(
                split(s).0[k],
            ),
    decreases s.len(),
{
    if s.len() > 0 {
        lemma_split_is_clean(s.drop_last());
    }
}

/// Every word of a text is non-empty and holds no white space.
pub proof fn lemma_words_are_clean(s: Seq<char>)
    ensures
        forall|k: int|
            0 <= k < words(s).len() ==> (#[trigger] words(s)[k]).len() > 0 && solid(words(s)[k]),
{
    lemma_split_is_clean(s);
}

/// The characters of a text that are not white space, in order.
pub open spec fn without_space(s: Seq<char>) -> Seq<char>
    decreases s.len(),
{
    if s.len() == 0 {
        s
    } else if is_space(s.last()) {
        without_space(s.drop_last())
    } else {
        without_space(s.drop_last()).push(s.last())
    }
}

/// While a text is read, the words that have ended and the open word
/// together hold the characters read that are not white space, in order.
pub proof fn lemma_split_keeps_the_text(s: Seq<char>)
    ensures
        split(s).0.flatten() + split(s).1 == without_space(s),
    decreases s.len(),
{
    if s.len() > 0 {
        lemma_split_keeps_the_text(s.drop_last());
        let (done, open) = split(s.drop_last());
        if is_space(s.last()) && open.len() > 0 {
            done.lemma_flatten_push(open);
        }
    }
}

/// The words of a text, put one behind the other, are the text without
/// its white space: splitting loses no character and adds none.
pub proof fn lemma_words_keep_the_text(s: Seq<char>)
    ensures
        words(s).flatten() == without_space(s),
{
    lemma_split_keeps_the_text(s);
    let (done, open) = split(s);
    if open.len() > 0 {
        done.lemma_flatten_push(open);
    }
}

/// Registering words never takes a word away nor changes the id of a
/// known one, and every word that was registered is known afterwards.
pub proof fn lemma_register_keeps_ids(vocab: Map<Seq<char>, usize>, tokens: Seq<&str>, n: nat)
    requires
        n <= tokens.len(),
    ensures
        forall|w: Seq<char>| #[trigger]
            vocab.contains_key(w) ==> register_all(vocab, tokens, n).contains_key(w)
                && register_all(vocab, tokens, n)[w] == vocab[w],
        forall|k: int|
            0 <= k < n ==> register_all(vocab, tokens, n).contains_key(#[trigger] tokens[k]@),
    decreases n,
{
    if n > 0 {
        lemma_register_keeps_ids(vocab, tokens, (n - 1) as nat);
    }
}

} // verus!
