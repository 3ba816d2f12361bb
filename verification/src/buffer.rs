//! The replay buffer: bounded storage of targets with reuse and eviction.
//!
//! A buffered record wraps a target with `uses_available`, the number of
//! batches the record may still be drawn into, and `model_steps`, the
//! training-step count at the moment of ingestion. When a buffer outgrows
//! its capacity it keeps the records with the highest priority: primarily
//! the newest ingestion step, secondarily the most remaining uses.

use vstd::prelude::*;
use vstd::multiset::Multiset;
use vstd::seq_lib::lemma_multiset_commutative;
use crate::target::{Target, TargetV};

verus! {

/// A target together with its reuse and recency bookkeeping.
#[derive(Debug)]
pub struct TargetWithContext {
    /// The target.
    pub target: Target,
    /// How many batches may still draw this record.
    pub uses_available: u32,
    /// The training-step count when this record was ingested.
    pub model_steps: u64,
}

/// The mathematical value of a buffered record.
pub ghost struct BufferedV {
    pub target: TargetV,
    pub uses_available: u32,
    pub model_steps: u64,
}

impl View for TargetWithContext {
    type V = BufferedV;

    open spec fn view(&self) -> BufferedV {
        BufferedV {
            target: self.target@,
            uses_available: self.uses_available,
            model_steps: self.model_steps,
        }
    }
}

/// The mathematical value of a whole buffer.
pub open spec fn buf_view(s: Seq<TargetWithContext>) -> Seq<BufferedV> {
    s.map_values(|r: TargetWithContext| r@)
}

/// What `TargetWithContext::reuse` returns: the record with one use spent,
/// or nothing once no further use remains.
pub open spec fn spec_reuse(r: TargetWithContext) -> Option<TargetWithContext> {
    if r.uses_available > 1 {
        Some(TargetWithContext { uses_available: (r.uses_available - 1) as u32, ..r })
    } else {
        None
    }
}

impl TargetWithContext {
    /// Spends one use of a drawn record: the record returns to the buffer
    /// only while uses remain after the decrement.
    pub fn reuse(self) -> (r: Option<Self>)
        ensures
            r == spec_reuse(self),
    {
        if self.uses_available > 1 {
            Some(TargetWithContext { uses_available: self.uses_available - 1, ..self })
        } else {
            None
        }
    }
}

/// The number of batches a buffered record is drawn into before it is
/// gone: each draw spends one use, and the record returns to its buffer
/// only while a use remains after the decrement.
pub open spec fn spec_lifetime(r: TargetWithContext) -> nat
    decreases r.uses_available,
{
    match spec_reuse(r) {
        Some(r2) => 1 + spec_lifetime(r2),
        None => 1,
    }
}

/// A record seeded with at least one use is drawn into exactly
/// `uses_available` batches over its lifetime — barring eviction — and is
/// absent from the buffer thereafter.
pub proof fn lemma_record_lifetime(r: TargetWithContext)
    requires
        r.uses_available >= 1,
    ensures
        spec_lifetime(r) == r.uses_available,
    decreases r.uses_available,
{
    match spec_reuse(r) {
        Some(r2) => {
            lemma_record_lifetime(r2);
        }
        None => {}
    }
}

/// Eviction priority: `a` ranks no higher than `b`. Primary key is the
/// ingestion step, secondary key the remaining uses, both the larger the
/// better.
pub open spec fn key_le(a: TargetWithContext, b: TargetWithContext) -> bool {
    ||| a.model_steps < b.model_steps
    ||| (a.model_steps == b.model_steps && a.uses_available <= b.uses_available)
}

/// The sequence is ordered from highest to lowest priority.
pub open spec fn sorted_desc(s: Seq<TargetWithContext>) -> bool {
    forall|i: int, j: int| 0 <= i <= j < s.len() ==> key_le(#[trigger] s[j], #[trigger] s[i])
}

/// Compares priorities; the order is total: of any two records one ranks no
/// higher than the other.
fn key_le_exec(a: &TargetWithContext, b: &TargetWithContext) -> (r: bool)
    ensures
        r == key_le(*a, *b),
{
    a.model_steps < b.model_steps
        || (a.model_steps == b.model_steps && a.uses_available <= b.uses_available)
}

/// Reorders the records from highest to lowest eviction priority.
fn sort_by_priority(v: &mut Vec<TargetWithContext>)
    ensures
        sorted_desc(final(v)@),
        final(v)@.to_multiset() == old(v)@.to_multiset(),
        final(v)@.len() == old(v)@.len(),
{
    let ghost orig = v@;
    let mut tmp: Vec<TargetWithContext> = Vec::new();
    proof {
        broadcast use vstd::multiset::group_multiset_axioms;

        tmp@.to_multiset_ensures();
        vstd::multiset::lemma_multiset_empty_len(tmp@.to_multiset());
        assert(tmp@.to_multiset().add(v@.to_multiset()) =~= v@.to_multiset());
    }
    while v.len() > 0
        invariant
            tmp@.to_multiset().add(v@.to_multiset()) == orig.to_multiset(),
        decreases v@.len(),
    {
        let ghost vpre = v@;
        let ghost tpre = tmp@;
        let x = v.pop().unwrap();
        tmp.push(x);
        proof {
            v@.to_multiset_ensures();
            tpre.to_multiset_ensures();
            assert(vpre =~= v@.push(x));
            assert(vpre.to_multiset() =~= v@.to_multiset().insert(x));
            assert(tmp@.to_multiset() =~= tpre.to_multiset().insert(x));
            assert(tmp@.to_multiset().add(v@.to_multiset()) =~= tpre.to_multiset().add(
                vpre.to_multiset(),
            ));
        }
    }
    proof {
        broadcast use vstd::multiset::group_multiset_axioms;

        v@.to_multiset_ensures();
        vstd::multiset::lemma_multiset_empty_len(v@.to_multiset());
        assert(tmp@.to_multiset().add(v@.to_multiset()) =~= tmp@.to_multiset());
    }
    // Insert each record of `tmp` at its place in the already sorted `v`.
    while tmp.len() > 0
        invariant
            sorted_desc(v@),
            tmp@.to_multiset().add(v@.to_multiset()) == orig.to_multiset(),
        decreases tmp@.len(),
    {
        let ghost tpre = tmp@;
        let x = tmp.pop().unwrap();
        proof {
            tmp@.to_multiset_ensures();
            assert(tpre =~= tmp@.push(x));
            assert(tpre.to_multiset() =~= tmp@.to_multiset().insert(x));
        }
        let ghost before = v@;
        // Find the first place whose record does not outrank `x`.
        let mut p: usize = 0;
        loop
            invariant
                p <= v@.len(),
                v@ == before,
                forall|k: int| 0 <= k < p ==> !key_le(#[trigger] v@[k], x),
            ensures
                p <= v@.len(),
                v@ == before,
                forall|k: int| 0 <= k < p ==> !key_le(#[trigger] v@[k], x),
                p == v@.len() || key_le(v@[p as int], x),
            decreases v@.len() - p,
        {
            if p == v.len() {
                break;
            }
            if key_le_exec(&v[p], &x) {
                break;
            }
            p = p + 1;
        }
        let ghost pos = p as int;
        v.insert(p, x);
        proof {
            // Sortedness: before the insertion point every record outranks
            // `x` (the order is total), from it on none does.
            assert forall|i: int, j: int| 0 <= i <= j < v@.len() implies key_le(
                #[trigger] v@[j],
                #[trigger] v@[i],
            ) by {
                if j < pos {
                    assert(v@[i] == before[i] && v@[j] == before[j]);
                } else if i > pos {
                    assert(v@[i] == before[i - 1] && v@[j] == before[j - 1]);
                } else if i < pos && j == pos {
                    assert(v@[i] == before[i]);
                    assert(!key_le(before[i], x));
                } else if i == pos && j > pos {
                    assert(v@[j] == before[j - 1]);
                    assert(key_le(before[pos], x));
                    assert(key_le(before[j - 1], before[pos]));
                } else if i < pos && j > pos {
                    assert(v@[i] == before[i] && v@[j] == before[j - 1]);
                    assert(key_le(before[j - 1], before[i]));
                }
            }
            // Multiset: the insertion adds exactly `x`.
            let front = before.take(pos);
            let back = before.skip(pos);
            assert(v@ =~= front + seq![x] + back);
            assert(before =~= front + back);
            lemma_multiset_commutative(front + seq![x], back);
            lemma_multiset_commutative(front, seq![x]);
            lemma_multiset_commutative(front, back);
            front.to_multiset_ensures();
            Seq::<TargetWithContext>::empty().to_multiset_ensures();
            assert(seq![x] =~= Seq::<TargetWithContext>::empty().push(x));
            assert(seq![x].to_multiset() =~= Multiset::<TargetWithContext>::empty().insert(x));
            assert(v@.to_multiset() =~= before.to_multiset().insert(x));
            assert(tmp@.to_multiset().add(v@.to_multiset()) =~= tpre.to_multiset().add(
                before.to_multiset(),
            ));
        }
    }
    proof {
        broadcast use vstd::multiset::group_multiset_axioms;

        tmp@.to_multiset_ensures();
        vstd::multiset::lemma_multiset_empty_len(tmp@.to_multiset());
        assert(tmp@.to_multiset().add(v@.to_multiset()) =~= v@.to_multiset());
        v@.to_multiset_ensures();
        orig.to_multiset_ensures();
        assert(v@.len() == orig.len());
    }
}

/// Truncates the buffer to its capacity. Records are ranked by priority —
/// newest ingestion first, then most remaining uses — and only the best
/// `max_length` records are kept; the rest are discarded for good. A buffer
/// already within its capacity is left alone.
pub fn truncate_buffer_if_needed(buffer: &mut Vec<TargetWithContext>, max_length: usize)
    ensures
        final(buffer)@.len() == vstd::math::min(old(buffer)@.len() as int, max_length as int),
        old(buffer)@.len() <= max_length ==> final(buffer)@ == old(buffer)@,
        old(buffer)@.len() > max_length ==> exists|s: Seq<TargetWithContext>|
            s.to_multiset() == old(buffer)@.to_multiset() && sorted_desc(s) && final(buffer)@
                == s.take(max_length as int),
{
    if buffer.len() > max_length {
        sort_by_priority(buffer);
        let ghost s = buffer@;
        buffer.truncate(max_length);
        proof {
            assert(s.to_multiset() == old(buffer)@.to_multiset());
            assert(sorted_desc(s));
            assert(buffer@ =~= s.take(max_length as int));
        }
    }
}

} // verus!
