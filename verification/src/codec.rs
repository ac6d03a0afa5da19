//! Values as bytes: four bytes for each, least significant first, and a
//! reader that takes them back in turn.
//!
//! A word is the 32-bit pattern of one stored value.

use vstd::prelude::*;
use crate::error::ModelError;

verus! {

/// The four bytes of a value, least significant first.
pub open spec fn word_bytes(w: u32) -> Seq<u8> {
    seq![
        (w % 256) as u8,
        ((w / 256) % 256) as u8,
        ((w / 65536) % 256) as u8,
        (w / 16777216) as u8,
    ]
}

/// The value whose four bytes, least significant first, stand at `at`.
pub open spec fn word_at(data: Seq<u8>, at: int) -> u32 {
    (data[at] + 256 * data[at + 1] + 65536 * data[at + 2] + 16777216 * data[at + 3]) as u32
}

/// The bytes of a sequence of values, four for each, in order.
pub open spec fn words_bytes(ws: Seq<u32>) -> Seq<u8>
    decreases ws.len(),
{
    if ws.len() == 0 {
        Seq::empty()
    } else {
        words_bytes(ws.drop_last()) + word_bytes(ws.last())
    }
}

/// The `n` values whose bytes start at `at`.
pub open spec fn words_at(data: Seq<u8>, at: int, n: nat) -> Seq<u32> {
    Seq::new(n, |j: int| word_at(data, at + 4 * j))
}

/// A value is read back from its own bytes.
pub proof fn lemma_word_round_trip(w: u32)
    ensures
        word_bytes(w).len() == 4,
        word_at(word_bytes(w), 0) == w,
{
}

/// The bytes of `n` values are `4 * n` long.
pub proof fn lemma_words_bytes_len(ws: Seq<u32>)
    ensures
        words_bytes(ws).len() == 4 * ws.len(),
    decreases ws.len(),
{
    if ws.len() > 0 {
        lemma_words_bytes_len(ws.drop_last());
    }
}

/// Storing two runs of values one after the other stores their
/// concatenation.
pub proof fn lemma_words_bytes_concat(a: Seq<u32>, b: Seq<u32>)
    ensures
        words_bytes(a + b) == words_bytes(a) + words_bytes(b),
    decreases b.len(),
{
    if b.len() > 0 {
        lemma_words_bytes_concat(a, b.drop_last());
        assert((a + b).drop_last() =~= a + b.drop_last());
    }
}

/// Value `j` of a stored run is read back from its place, whatever stands
/// before and after the run.
pub proof fn lemma_stored_word(before: Seq<u8>, ws: Seq<u32>, after: Seq<u8>, j: int)
    requires
        0 <= j < ws.len(),
    ensures
        word_at(before + words_bytes(ws) + after, before.len() + 4 * j) == ws[j],
    decreases ws.len(),
{
    let data = before + words_bytes(ws) + after;
    lemma_words_bytes_len(ws);
    lemma_words_bytes_len(ws.drop_last());
    if j == ws.len() - 1 {
        lemma_word_round_trip(ws.last());
    } else {
        let tail = word_bytes(ws.last()) + after;
        assert(before + words_bytes(ws.drop_last()) + tail =~= data);
        lemma_stored_word(before, ws.drop_last(), tail, j);
    }
}

/// A stored run of values is read back whole.
pub proof fn lemma_stored_words(before: Seq<u8>, ws: Seq<u32>, after: Seq<u8>)
    ensures
        words_at(before + words_bytes(ws) + after, before.len() as int, ws.len()) == ws,
{
    let data = before + words_bytes(ws) + after;
    assert forall|j: int| 0 <= j < ws.len() implies word_at(data, before.len() + 4 * j)
        == ws[j] by {
        lemma_stored_word(before, ws, after, j);
    }
}

/// A run of values read from a longer run is a part of it.
pub proof fn lemma_words_at_part(data: Seq<u8>, at: int, total: nat, from: int, n: nat)
    requires
        0 <= from,
        from + n <= total,
    ensures
        words_at(data, at + 4 * from, n) == words_at(data, at, total).subrange(
            from,
            from + n as int,
        ),
{
}

/// Storing the first `i` of some runs and then run `i` stores the first
/// `i + 1` runs.
pub proof fn lemma_store_next_part(before: Seq<u8>, parts: Seq<Seq<u32>>, i: int)
    requires
        0 <= i < parts.len(),
    ensures
        before + words_bytes(parts.take(i).flatten()) + words_bytes(parts[i]) == before
            + words_bytes(parts.take(i + 1).flatten()),
{
    let done = parts.take(i);
    let next = parts.take(i + 1);
    assert(next =~= done.push(parts[i]));
    done.lemma_flatten_push(parts[i]);
    lemma_words_bytes_concat(done.flatten(), parts[i]);
}

/// Appends the four bytes of `w` to `writer`.
pub fn write_word(w: u32, writer: &mut Vec<u8>)
    ensures
        final(writer)@ == old(writer)@ + word_bytes(w),
{
    writer.push((w % 256) as u8);
    writer.push(((w / 256) % 256) as u8);
    writer.push(((w / 65536) % 256) as u8);
    writer.push((w / 16777216) as u8);
}

/// Appends the bytes of every value of `ws`, in order, to `writer`.
pub fn save_words(ws: &Vec<u32>, writer: &mut Vec<u8>)
    ensures
        final(writer)@ == old(writer)@ + words_bytes(ws@),
{
    let n = ws.len();
    let mut j: usize = 0;
    while j < n
        invariant
            j <= n,
            n == ws@.len(),
            writer@ == old(writer)@ + words_bytes(ws@.take(j as int)),
        decreases n - j,
    {
        write_word(ws[j], writer);
        proof {
            let next = ws@.take(j + 1);
            assert(next.drop_last() =~= ws@.take(j as int));
        }
        j += 1;
    }
    assert(ws@.take(n as int) =~= ws@);
}

/// A place in a run of bytes from which values are read in turn.
#[derive(Debug, Clone, Copy)]
pub struct ByteReader<'a> {
    pub data: &'a [u8],
    pub pos: usize,
}

impl<'a> ByteReader<'a> {
    /// The place lies within the bytes, or just behind them.
    pub open spec fn wf(&self) -> bool {
        self.pos <= self.data@.len()
    }

    /// The number of bytes not read yet.
    pub open spec fn remaining(&self) -> nat {
        (self.data@.len() - self.pos) as nat
    }

    /// Whether the place lies within the bytes, or just behind them.
    pub fn is_well_formed(&self) -> (ok: bool)
        ensures
            ok == self.wf(),
    {
        self.pos <= self.data.len()
    }

    /// Whether `words` values are left to read.
    pub fn holds(&self, words: usize) -> (ok: bool)
        requires
            self.wf(),
        ensures
            ok == (self.remaining() >= 4 * words),
    {
        (self.data.len() - self.pos) / 4 >= words
    }

    /// A reader at the start of `data`.
    pub fn new(data: &'a [u8]) -> (reader: Self)
        ensures
            reader.wf(),
            reader.data@ == data@,
            reader.pos == 0,
    {
        ByteReader { data, pos: 0 }
    }

    /// The number of bytes not read yet.
    pub fn bytes_left(&self) -> (n: usize)
        requires
            self.wf(),
        ensures
            n == self.remaining(),
    {
        self.data.len() - self.pos
    }
}

/// Reads one value. Four bytes must be left; with fewer the bytes are
/// corrupt and the reader stays where it is.
pub fn read_word(reader: &mut ByteReader) -> (r: Result<u32, ModelError>)
    requires
        old(reader).wf(),
    ensures
        final(reader).wf(),
        final(reader).data@ == old(reader).data@,
        old(reader).remaining() >= 4 ==> r == Ok::<u32, ModelError>(
            word_at(old(reader).data@, old(reader).pos as int),
        ) && final(reader).pos == old(reader).pos + 4,
        old(reader).remaining() < 4 ==> r == Err::<u32, ModelError>(ModelError::CheckpointCorrupt)
            && final(reader).pos == old(reader).pos,
{
    if reader.data.len() - reader.pos < 4 {
        return Err(ModelError::CheckpointCorrupt);
    }
    let at = reader.pos;
    let b0 = reader.data[at] as u32;
    let b1 = reader.data[at + 1] as u32;
    let b2 = reader.data[at + 2] as u32;
    let b3 = reader.data[at + 3] as u32;
    reader.pos = at + 4;
    Ok(b0 + 256 * b1 + 65536 * b2 + 16777216 * b3)
}

/// Reads `n` values. `4 * n` bytes must be left; with fewer the bytes are
/// corrupt and the reader stays where it is.
pub fn load_words(reader: &mut ByteReader, n: usize) -> (r: Result<Vec<u32>, ModelError>)
    requires
        old(reader).wf(),
    ensures
        final(reader).wf(),
        final(reader).data@ == old(reader).data@,
        old(reader).remaining() >= 4 * n ==> r is Ok && r->Ok_0@ == words_at(
            old(reader).data@,
            old(reader).pos as int,
            n as nat,
        ) && final(reader).pos == old(reader).pos + 4 * n,
        old(reader).remaining() < 4 * n ==> r == Err::<Vec<u32>, ModelError>(
            ModelError::CheckpointCorrupt,
        ) && final(reader).pos == old(reader).pos,
{
    if !reader.holds(n) {
        return Err(ModelError::CheckpointCorrupt);
    }
    let mut ws: Vec<u32> = Vec::new();
    let mut j: usize = 0;
    while j < n
        invariant
            j <= n,
            reader.wf(),
            reader.data@ == old(reader).data@,
            old(reader).remaining() >= 4 * n,
            reader.pos == old(reader).pos + 4 * j,
            ws@ == words_at(old(reader).data@, old(reader).pos as int, j as nat),
        decreases n - j,
    {
        let w = match read_word(reader) {
            Ok(w) => w,
            Err(e) => {
                return Err(e);
            },
        };
        ws.push(w);
        j += 1;
    }
    Ok(ws)
}

} // verus!
