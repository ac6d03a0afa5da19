//! Runs of values that stand in longer runs: where a part lies when parts
//! are put one behind the other, and what is found there again.

use vstd::prelude::*;

verus! {

/// The run `piece` stands in `ws` from place `at`.
pub open spec fn located(ws: Seq<u32>, at: int, piece: Seq<u32>) -> bool {
    &&& 0 <= at
    &&& at + piece.len() <= ws.len()
    &&& ws.subrange(at, at + piece.len()) == piece
}

/// What stands in a run still stands there when more is appended.
pub proof fn lemma_located_left(a: Seq<u32>, b: Seq<u32>, at: int, piece: Seq<u32>)
    requires
        located(a, at, piece),
    ensures
        located(a + b, at, piece),
{
    assert((a + b).subrange(at, at + piece.len()) =~= a.subrange(at, at + piece.len()));
}

/// What stands in a run stands further back by the length of what is put
/// before it.
pub proof fn lemma_located_right(a: Seq<u32>, b: Seq<u32>, at: int, piece: Seq<u32>)
    requires
        located(b, at, piece),
    ensures
        located(a + b, a.len() + at, piece),
{
    assert((a + b).subrange(a.len() + at, a.len() + at + piece.len()) =~= b.subrange(
        at,
        at + piece.len(),
    ));
}

/// A piece of a piece stands in the whole at the sum of the two places.
pub proof fn lemma_located_within(
    ws: Seq<u32>,
    outer_at: int,
    outer: Seq<u32>,
    at: int,
    piece: Seq<u32>,
)
    requires
        located(ws, outer_at, outer),
        located(outer, at, piece),
    ensures
        located(ws, outer_at + at, piece),
{
    assert(ws.subrange(outer_at + at, outer_at + at + piece.len()) =~= ws.subrange(
        outer_at,
        outer_at + outer.len(),
    ).subrange(at, at + piece.len()));
}

/// Runs of one length, put one behind the other, each stand at a multiple
/// of that length.
pub proof fn lemma_uniform_flatten(parts: Seq<Seq<u32>>, size: nat)
    requires
        forall|i: int| 0 <= i < parts.len() ==> (#[trigger] parts[i]).len() == size,
    ensures
        parts.flatten().len() == parts.len() * size,
        forall|i: int|
            0 <= i < parts.len() ==> located(parts.flatten(), i * size, #[trigger] parts[i]),
    decreases parts.len(),
{
    if parts.len() == 0 {
        assert(parts.len() * size == 0) by (nonlinear_arith)
            requires
                parts.len() == 0,
        ;
    } else {
        let init = parts.drop_last();
        let last = parts.last();
        lemma_uniform_flatten(init, size);
        init.lemma_flatten_push(last);
        assert(parts =~= init.push(last));
        assert(init.len() * size + size == parts.len() * size) by (nonlinear_arith)
            requires
                init.len() + 1 == parts.len(),
        ;
        assert forall|i: int| 0 <= i < parts.len() implies located(
            parts.flatten(),
            i * size,
            #[trigger] parts[i],
        ) by {
            if i < init.len() {
                lemma_located_left(init.flatten(), last, i * size, init[i]);
            } else {
                assert(last.subrange(0, last.len() as int) =~= last);
                lemma_located_right(init.flatten(), last, 0, last);
            }
        }
    }
}

/// Where part `i` starts when the parts stand one behind the other: the
/// length of all parts before it.
pub open spec fn start_of(parts: Seq<Seq<u32>>, i: int) -> int {
    parts.take(i).flatten().len() as int
}

/// Part `i` starts where part `i - 1` ends, the first at the front, and
/// behind the last part the run ends.
pub proof fn lemma_start_of(parts: Seq<Seq<u32>>, i: int)
    requires
        0 <= i < parts.len(),
    ensures
        start_of(parts, 0) == 0,
        start_of(parts, i + 1) == start_of(parts, i) + parts[i].len(),
        start_of(parts, i + 1) <= parts.flatten().len(),
        start_of(parts, parts.len() as int) == parts.flatten().len(),
        located(parts.flatten(), start_of(parts, i), parts[i]),
{
    let done = parts.take(i);
    let next = parts.take(i + 1);
    assert(parts.take(parts.len() as int) =~= parts);
    assert(next =~= done.push(parts[i]));
    done.lemma_flatten_push(parts[i]);
    assert(next.flatten().subrange(done.flatten().len() as int, next.flatten().len() as int)
        =~= parts[i]);
    lemma_prefix_located(parts, i + 1, start_of(parts, i), parts[i]);
}

/// What stands in the first `n` parts stands at the same place in all of
/// them.
pub proof fn lemma_prefix_located(parts: Seq<Seq<u32>>, n: int, at: int, piece: Seq<u32>)
    requires
        0 <= n <= parts.len(),
        located(parts.take(n).flatten(), at, piece),
    ensures
        located(parts.flatten(), at, piece),
    decreases parts.len() - n,
{
    if n < parts.len() {
        let done = parts.take(n);
        let next = parts.take(n + 1);
        assert(next =~= done.push(parts[n]));
        done.lemma_flatten_push(parts[n]);
        lemma_located_left(done.flatten(), parts[n], at, piece);
        lemma_prefix_located(parts, n + 1, at, piece);
    } else {
        assert(parts.take(n) =~= parts);
    }
}

/// Having the first `i` parts behind a run and then part `i` is having
/// the first `i + 1` parts behind it.
pub proof fn lemma_next_part(before: Seq<u32>, parts: Seq<Seq<u32>>, i: int)
    requires
        0 <= i < parts.len(),
    ensures
        before + parts.take(i).flatten() + parts[i] == before + parts.take(i + 1).flatten(),
        before + parts.take(0).flatten() == before,
        before + parts.take(parts.len() as int).flatten() == before + parts.flatten(),
{
    let done = parts.take(i);
    assert(parts.take(i + 1) =~= done.push(parts[i]));
    done.lemma_flatten_push(parts[i]);
    assert(parts.take(parts.len() as int) =~= parts);
}

/// The pieces of `g` that lie where parts of the lengths of `parts`
/// would, one behind the other from place `base`.
pub open spec fn pieces(parts: Seq<Seq<u32>>, g: Seq<u32>, base: int) -> Seq<Seq<u32>> {
    Seq::new(
        parts.len(),
        |i: int| g.subrange(base + start_of(parts, i), base + start_of(parts, i) + parts[i].len()),
    )
}

/// Pieces that are cut from a run one behind the other make up, put
/// together again, the stretch of the run they were cut from.
pub proof fn lemma_pieces_make_the_run(parts: Seq<Seq<u32>>, g: Seq<u32>, base: int)
    requires
        0 <= base,
        base + parts.flatten().len() <= g.len(),
    ensures
        pieces(parts, g, base).flatten() == g.subrange(base, base + parts.flatten().len()),
    decreases parts.len(),
{
    if parts.len() == 0 {
    } else {
        let last = parts.len() - 1;
        let init = parts.drop_last();
        lemma_start_of(parts, last);
        assert forall|i: int| 0 <= i < init.len() implies start_of(init, i) == start_of(
            parts,
            i,
        ) by {
            assert(init.take(i) =~= parts.take(i));
        }
        lemma_pieces_make_the_run(init, g, base);
        let cut = pieces(parts, g, base);
        assert(cut.drop_last() =~= pieces(init, g, base));
        assert(cut =~= cut.drop_last().push(cut.last()));
        cut.drop_last().lemma_flatten_push(cut.last());
    }
}

} // verus!
