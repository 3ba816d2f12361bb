//! The batch composer: drawing a fixed-size batch from one or two buffers.
//!
//! A draw shuffles the buffer, removes the requested number of records, and
//! hands their targets out; each drawn record returns to its buffer only
//! while uses remain after the draw. In the mixed phase half the batch comes
//! from each buffer; otherwise all of it comes from the exploitation buffer.

use vstd::prelude::*;
use vstd::seq_lib::lemma_multiset_commutative;
use crate::buffer::{spec_reuse, TargetWithContext};
use crate::rng::shuffle_vec;
use crate::target::{Target, TargetV};

verus! {

/// The records that return to a buffer after the records of `s` are drawn:
/// those with a use left, each with one use spent.
pub open spec fn spec_reused(s: Seq<TargetWithContext>) -> Seq<TargetWithContext>
    decreases s.len(),
{
    if s.len() == 0 {
        Seq::empty()
    } else {
        match spec_reuse(s.last()) {
            Some(r) => spec_reused(s.drop_last()).push(r),
            None => spec_reused(s.drop_last()),
        }
    }
}

/// The targets of a run of records.
pub open spec fn target_views(s: Seq<TargetWithContext>) -> Seq<TargetV> {
    s.map_values(|r: TargetWithContext| r.target@)
}

/// The mathematical values of a batch.
pub open spec fn batch_views(s: Seq<Target>) -> Seq<TargetV> {
    s.map_values(|t: Target| t@)
}

/// One draw of `n` records from a buffer: some `drawn` records leave the
/// `before` buffer, their targets make up the output, and the `after` buffer
/// holds the untouched records together with the drawn ones that had a use
/// left, each with one use spent.
pub open spec fn draw_ok(
    before: Seq<TargetWithContext>,
    after: Seq<TargetWithContext>,
    out: Seq<TargetV>,
    kept: Seq<TargetWithContext>,
    drawn: Seq<TargetWithContext>,
    n: int,
) -> bool {
    &&& drawn.len() == n
    &&& before.to_multiset() == kept.to_multiset().add(drawn.to_multiset())
    &&& after.to_multiset() == kept.to_multiset().add(spec_reused(drawn).to_multiset())
    &&& out == target_views(drawn)
}

/// A mixed draw: one half-batch from each buffer, exploitation first.
pub open spec fn mixed_draw_ok(
    before_e: Seq<TargetWithContext>,
    after_e: Seq<TargetWithContext>,
    before_r: Seq<TargetWithContext>,
    after_r: Seq<TargetWithContext>,
    out: Seq<TargetV>,
    kept_e: Seq<TargetWithContext>,
    drawn_e: Seq<TargetWithContext>,
    kept_r: Seq<TargetWithContext>,
    drawn_r: Seq<TargetWithContext>,
    n: int,
) -> bool {
    &&& draw_ok(before_e, after_e, out.take(n / 2), kept_e, drawn_e, n / 2)
    &&& draw_ok(before_r, after_r, out.skip(n / 2), kept_r, drawn_r, n / 2)
}

/// Some draw of `n` records explains the step from `before` to `after`.
pub open spec fn drawn_from(
    before: Seq<TargetWithContext>,
    after: Seq<TargetWithContext>,
    out: Seq<TargetV>,
    n: int,
) -> bool {
    exists|kept: Seq<TargetWithContext>, drawn: Seq<TargetWithContext>| draw_ok(
        before,
        after,
        out,
        kept,
        drawn,
        n,
    )
}

/// Some mixed draw of `n` records explains the step of both buffers.
pub open spec fn mixed_drawn_from(
    before_e: Seq<TargetWithContext>,
    after_e: Seq<TargetWithContext>,
    before_r: Seq<TargetWithContext>,
    after_r: Seq<TargetWithContext>,
    out: Seq<TargetV>,
    n: int,
) -> bool {
    exists|
        kept_e: Seq<TargetWithContext>,
        drawn_e: Seq<TargetWithContext>,
        kept_r: Seq<TargetWithContext>,
        drawn_r: Seq<TargetWithContext>,
    | mixed_draw_ok(
        before_e,
        after_e,
        before_r,
        after_r,
        out,
        kept_e,
        drawn_e,
        kept_r,
        drawn_r,
        n,
    )
}

/// Draws `count` records from the buffer after a shuffle: returns their
/// targets and applies the reuse accounting to the buffer.
#[verifier::loop_isolation(false)]
#[verifier::rlimit(60)]
pub fn draw_from_buffer(
    buffer: &mut Vec<TargetWithContext>,
    count: usize,
    rng: &mut rand::rngs::StdRng,
) -> (batch: Vec<Target>)
    requires
        old(buffer)@.len() >= count,
    ensures
        batch@.len() == count,
        drawn_from(old(buffer)@, final(buffer)@, batch_views(batch@), count as int),
{
    shuffle_vec(buffer, rng);
    let ghost shuffled = buffer@;
    let ghost bound = shuffled.len() as int;
    let ghost kept = shuffled.take(bound - count);
    // Remove the drawn records from the buffer's end.
    let mut drawn_recs: Vec<TargetWithContext> = Vec::new();
    proof {
        broadcast use vstd::multiset::group_multiset_axioms;

        drawn_recs@.to_multiset_ensures();
        vstd::multiset::lemma_multiset_empty_len(drawn_recs@.to_multiset());
        assert(drawn_recs@.to_multiset().add(buffer@.to_multiset()) =~= buffer@.to_multiset());
        assert(buffer@ =~= shuffled.take(bound - 0));
    }
    let mut i: usize = 0;
    while i < count
        invariant
            i <= count,
            buffer@ == shuffled.take(bound - i),
            drawn_recs@.len() == i,
            drawn_recs@.to_multiset().add(buffer@.to_multiset()) == shuffled.to_multiset(),
        decreases count - i,
    {
        let ghost bufpre = buffer@;
        let ghost dpre = drawn_recs@;
        let x = buffer.pop().unwrap();
        drawn_recs.push(x);
        i = i + 1;
        proof {
            buffer@.to_multiset_ensures();
            dpre.to_multiset_ensures();
            assert(buffer@ =~= shuffled.take(bound - i));
            assert(bufpre =~= buffer@.push(x));
            assert(bufpre.to_multiset() =~= buffer@.to_multiset().insert(x));
            assert(drawn_recs@.to_multiset() =~= dpre.to_multiset().insert(x));
            assert(drawn_recs@.to_multiset().add(buffer@.to_multiset()) =~= dpre.to_multiset().add(
                bufpre.to_multiset(),
            ));
        }
    }
    let ghost drawn = drawn_recs@;
    proof {
        // The untouched prefix and the drawn records split the buffer.
        assert(buffer@ == kept);
        assert(shuffled =~= kept + shuffled.skip(bound - count));
        lemma_multiset_commutative(kept, shuffled.skip(bound - count));
        broadcast use vstd::multiset::group_multiset_axioms;

        assert(drawn.to_multiset().add(kept.to_multiset()) == kept.to_multiset().add(
            shuffled.skip(bound - count).to_multiset(),
        ));
        assert forall|x: TargetWithContext| #[trigger] drawn.to_multiset().count(x)
            == shuffled.skip(bound - count).to_multiset().count(x) by {
            assert(drawn.to_multiset().add(kept.to_multiset()).count(x) == kept.to_multiset().add(
                shuffled.skip(bound - count).to_multiset(),
            ).count(x));
        }
        assert(drawn.to_multiset() =~= shuffled.skip(bound - count).to_multiset());
        assert(old(buffer)@.to_multiset() == kept.to_multiset().add(drawn.to_multiset()));
    }
    // The batch: the targets of the drawn records.
    let mut batch: Vec<Target> = Vec::new();
    let mut m: usize = 0;
    while m < drawn_recs.len()
        invariant
            m <= drawn_recs@.len(),
            drawn_recs@ == drawn,
            batch@.len() == m,
            forall|q: int| 0 <= q < m ==> batch@[q]@ == drawn[q].target@,
        decreases drawn_recs@.len() - m,
    {
        batch.push(drawn_recs[m].target.clone());
        m = m + 1;
    }
    proof {
        assert(batch_views(batch@) =~= target_views(drawn));
    }
    // Reuse accounting: drawn records with a use left go back.
    proof {
        broadcast use vstd::multiset::group_multiset_axioms;

        assert(drawn.skip(0) =~= drawn);
        assert(drawn.take(0) =~= Seq::<TargetWithContext>::empty());
        assert(spec_reused(drawn.take(0)) =~= Seq::<TargetWithContext>::empty());
        Seq::<TargetWithContext>::empty().to_multiset_ensures();
        vstd::multiset::lemma_multiset_empty_len(Seq::<TargetWithContext>::empty().to_multiset());
        assert(buffer@.to_multiset() =~= kept.to_multiset().add(
            spec_reused(drawn.take(0)).to_multiset(),
        ));
    }
    while drawn_recs.len() > 0
        invariant
            drawn_recs@.len() <= drawn.len(),
            drawn_recs@ == drawn.skip(drawn.len() - drawn_recs@.len()),
            buffer@.to_multiset() == kept.to_multiset().add(
                spec_reused(drawn.take(drawn.len() - drawn_recs@.len())).to_multiset(),
            ),
        decreases drawn_recs@.len(),
    {
        let ghost c = drawn.len() - drawn_recs@.len();
        let x = drawn_recs.remove(0);
        proof {
            assert(drawn.skip(c)[0] == drawn[c]);
            assert(x == drawn[c]);
            assert(drawn_recs@ =~= drawn.skip(c + 1));
            assert(drawn.take(c + 1).drop_last() =~= drawn.take(c));
            assert(drawn.take(c + 1).last() == drawn[c]);
        }
        let ghost bufpre = buffer@;
        match x.reuse() {
            Some(y) => {
                buffer.push(y);
                proof {
                    bufpre.to_multiset_ensures();
                    assert(buffer@.to_multiset() =~= bufpre.to_multiset().insert(y));
                    assert(spec_reused(drawn.take(c + 1)) =~= spec_reused(drawn.take(c)).push(y));
                    spec_reused(drawn.take(c)).to_multiset_ensures();
                    assert(spec_reused(drawn.take(c + 1)).to_multiset() =~= spec_reused(
                        drawn.take(c),
                    ).to_multiset().insert(y));
                    assert(buffer@.to_multiset() =~= kept.to_multiset().add(
                        spec_reused(drawn.take(c + 1)).to_multiset(),
                    ));
                }
            }
            None => {
                proof {
                    assert(spec_reused(drawn.take(c + 1)) =~= spec_reused(drawn.take(c)));
                }
            }
        }
    }
    proof {
        assert(drawn.take(drawn.len() as int) =~= drawn);
        assert(draw_ok(
            old(buffer)@,
            buffer@,
            batch_views(batch@),
            kept,
            drawn,
            count as int,
        ));
        assert(drawn_from(old(buffer)@, buffer@, batch_views(batch@), count as int));
    }
    batch
}

/// Composes one training batch. In the mixed phase half the batch is drawn
/// from each buffer, exploitation first; otherwise the whole batch is drawn
/// from the exploitation buffer and the reanalyze buffer is not consulted.
pub fn create_batch(
    using_reanalyze: bool,
    batch_size: usize,
    exploitation_buffer: &mut Vec<TargetWithContext>,
    reanalyze_buffer: &mut Vec<TargetWithContext>,
    rng: &mut rand::rngs::StdRng,
) -> (batch: Vec<Target>)
    requires
        batch_size >= 1,
        using_reanalyze ==> batch_size >= 2 && batch_size % 2 == 0,
        !using_reanalyze ==> old(exploitation_buffer)@.len() >= batch_size,
        using_reanalyze ==> old(exploitation_buffer)@.len() >= batch_size / 2 && old(
            reanalyze_buffer,
        )@.len() >= batch_size / 2,
    ensures
        batch@.len() == batch_size,
        !using_reanalyze ==> final(reanalyze_buffer)@ == old(reanalyze_buffer)@,
        !using_reanalyze ==> drawn_from(
            old(exploitation_buffer)@,
            final(exploitation_buffer)@,
            batch_views(batch@),
            batch_size as int,
        ),
        using_reanalyze ==> mixed_drawn_from(
            old(exploitation_buffer)@,
            final(exploitation_buffer)@,
            old(reanalyze_buffer)@,
            final(reanalyze_buffer)@,
            batch_views(batch@),
            batch_size as int,
        ),
{
    if using_reanalyze {
        let half = batch_size / 2;
        let mut batch = draw_from_buffer(exploitation_buffer, half, rng);
        let ghost first = batch@;
        let mut second = draw_from_buffer(reanalyze_buffer, half, rng);
        let ghost sec = second@;
        batch.append(&mut second);
        proof {
            assert(batch@ == first + sec);
            assert(batch_views(batch@).take(half as int) =~= batch_views(first));
            assert(batch_views(batch@).skip(half as int) =~= batch_views(sec));
            assert(drawn_from(
                old(exploitation_buffer)@,
                exploitation_buffer@,
                batch_views(first),
                half as int,
            ));
            assert(drawn_from(
                old(reanalyze_buffer)@,
                reanalyze_buffer@,
                batch_views(sec),
                half as int,
            ));
            let (ke, de) = choose|ke: Seq<TargetWithContext>, de: Seq<TargetWithContext>|
                draw_ok(
                    old(exploitation_buffer)@,
                    exploitation_buffer@,
                    batch_views(first),
                    ke,
                    de,
                    half as int,
                );
            let (kr, dr) = choose|kr: Seq<TargetWithContext>, dr: Seq<TargetWithContext>|
                draw_ok(
                    old(reanalyze_buffer)@,
                    reanalyze_buffer@,
                    batch_views(sec),
                    kr,
                    dr,
                    half as int,
                );
            assert(mixed_draw_ok(
                old(exploitation_buffer)@,
                exploitation_buffer@,
                old(reanalyze_buffer)@,
                reanalyze_buffer@,
                batch_views(batch@),
                ke,
                de,
                kr,
                dr,
                batch_size as int,
            ));
            assert(mixed_drawn_from(
                old(exploitation_buffer)@,
                exploitation_buffer@,
                old(reanalyze_buffer)@,
                reanalyze_buffer@,
                batch_views(batch@),
                batch_size as int,
            ));
        }
        batch
    } else {
        draw_from_buffer(exploitation_buffer, batch_size, rng)
    }
}

} // verus!

