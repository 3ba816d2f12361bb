//! The bootstrapper: synthesizing targets from random episodes.
//!
//! When no checkpoint exists, training starts from a pool of synthetic
//! records. An episode — the visited states, each with its legal actions,
//! and the terminal outcome — is turned into targets by walking the states
//! in reverse: each gets a uniform policy over its legal actions, a value
//! equal to the outcome negated once per ply, and a fixed placeholder
//! uncertainty. The pool is then serialized in full for inspection and
//! consumed in fixed-size, non-overlapping chunks.

use vstd::prelude::*;
use crate::codec::{spec_line, target_to_line};
use crate::target::{PolicyEntry, Target, TargetV, NEWLINE, UBE_SCALE, VALUE_SCALE};

verus! {

/// One visited state of an episode: its descriptor and its legal actions.
pub struct EpisodeState {
    pub state: Vec<u8>,
    pub actions: Vec<u64>,
}

/// A usable episode state: at least one legal action, no action named
/// twice, and a descriptor free of line separators.
pub open spec fn episode_state_wf(e: EpisodeState) -> bool {
    &&& e.actions@.len() >= 1
    &&& forall|i: int, j: int| 0 <= i < j < e.actions@.len() ==> e.actions@[i] != e.actions@[j]
    &&& forall|i: int| 0 <= i < e.state@.len() ==> e.state@[i] != NEWLINE
}

/// The uniform policy over a set of actions: every action with weight one.
pub open spec fn uniform_policy(actions: Seq<u64>) -> Seq<PolicyEntry> {
    actions.map_values(|a: u64| PolicyEntry { action: a, weight: 1 })
}

/// The value of the target built from the state `i` plies before the end:
/// the terminal outcome, negated once per ply.
pub open spec fn alternating(outcome: int, i: int) -> int {
    if i % 2 == 0 {
        -outcome
    } else {
        outcome
    }
}

/// Builds one target: a uniform policy over the state's actions.
#[verifier::loop_isolation(false)]
fn uniform_target(state: Vec<u8>, actions: &Vec<u64>, value: i32) -> (t: Target)
    requires
        actions@.len() >= 1,
        forall|i: int, j: int| 0 <= i < j < actions@.len() ==> actions@[i] != actions@[j],
        forall|i: int| 0 <= i < state@.len() ==> state@[i] != NEWLINE,
        -(VALUE_SCALE as int) <= value <= VALUE_SCALE as int,
    ensures
        t@.state == state@,
        t@.policy == uniform_policy(actions@),
        t@.value == value as int,
        t@.ube == UBE_SCALE as int,
        t.wf(),
{
    let mut policy: Vec<PolicyEntry> = Vec::new();
    let mut i: usize = 0;
    while i < actions.len()
        invariant
            i <= actions@.len(),
            policy@ == uniform_policy(actions@.take(i as int)),
        decreases actions@.len() - i,
    {
        policy.push(PolicyEntry { action: actions[i], weight: 1 });
        i = i + 1;
        proof {
            assert(actions@.take(i as int) =~= actions@.take(i - 1).push(actions@[i - 1]));
            assert(policy@ =~= uniform_policy(actions@.take(i as int)));
        }
    }
    proof {
        assert(actions@.take(actions@.len() as int) =~= actions@);
    }
    let t = Target { state, policy, value, ube: UBE_SCALE };
    proof {
        let p = uniform_policy(actions@);
        assert(t@.policy == p);
        assert(p.len() == actions@.len());
        assert(p[0].weight == 1);
        assert forall|i: int, j: int| 0 <= i < j < p.len() implies p[i].action != p[j].action by {
            assert(p[i].action == actions@[i] && p[j].action == actions@[j]);
        }
        assert(t.wf());
    }
    t
}

/// Turns one finished episode into targets, last state first. The target of
/// the state `i` plies before the end carries the outcome negated `i + 1`
/// times, a uniform policy over that state's legal actions, and the
/// placeholder uncertainty.
#[verifier::loop_isolation(false)]
pub fn episode_targets(states: Vec<EpisodeState>, outcome: i32) -> (r: Vec<Target>)
    requires
        -(VALUE_SCALE as int) <= outcome <= VALUE_SCALE as int,
        forall|i: int| 0 <= i < states@.len() ==> episode_state_wf(#[trigger] states@[i]),
    ensures
        r@.len() == states@.len(),
        forall|i: int| 0 <= i < r@.len() ==> {
            let s = states@[states@.len() - 1 - i];
            &&& (#[trigger] r@[i])@.state == s.state@
            &&& r@[i]@.policy == uniform_policy(s.actions@)
            &&& r@[i]@.value == alternating(outcome as int, i)
            &&& r@[i]@.ube == UBE_SCALE as int
            &&& r@[i].wf()
        },
{
    let ghost orig = states@;
    proof {
        assert forall|i: int| 0 <= i < orig.len() implies episode_state_wf(#[trigger] orig[i]) by {
            assert(episode_state_wf(states@[i]));
        }
    }
    let mut states = states;
    let mut r: Vec<Target> = Vec::new();
    let mut value = outcome;
    while states.len() > 0
        invariant
            states@ == orig.take(orig.len() - r@.len()),
            r@.len() <= orig.len(),
            value as int == if r@.len() % 2 == 0 {
                outcome as int
            } else {
                -(outcome as int)
            },
            -(VALUE_SCALE as int) <= value <= VALUE_SCALE as int,
            forall|i: int| 0 <= i < r@.len() ==> {
                let s = orig[orig.len() - 1 - i];
                &&& (#[trigger] r@[i])@.state == s.state@
                &&& r@[i]@.policy == uniform_policy(s.actions@)
                &&& r@[i]@.value == alternating(outcome as int, i)
                &&& r@[i]@.ube == UBE_SCALE as int
                &&& r@[i].wf()
            },
        decreases states@.len(),
    {
        let ghost c = r@.len() as int;
        let e = states.pop().unwrap();
        proof {
            assert(states@ =~= orig.take(orig.len() - (c + 1)));
            assert(e == orig[orig.len() - 1 - c]);
            assert(episode_state_wf(e));
        }
        value = -value;
        let t = uniform_target(e.state, &e.actions, value);
        r.push(t);
        proof {
            assert(alternating(outcome as int, c) == value as int);
        }
    }
    proof {
        assert(r@.len() == orig.len());
    }
    r
}

/// Prints a pool of records, one line each, every line closed by the
/// separator.
pub open spec fn spec_pool_bytes(ts: Seq<TargetV>) -> Seq<u8>
    decreases ts.len(),
{
    if ts.len() == 0 {
        Seq::empty()
    } else {
        spec_pool_bytes(ts.drop_last()) + spec_line(ts.last()) + seq![NEWLINE]
    }
}

/// The pool's mathematical values.
pub open spec fn pool_views(s: Seq<Target>) -> Seq<TargetV> {
    s.map_values(|t: Target| t@)
}

/// Serializes the whole synthetic pool for offline inspection.
#[verifier::loop_isolation(false)]
pub fn render_pool(pool: &Vec<Target>) -> (r: Vec<u8>)
    requires
        forall|i: int| 0 <= i < pool@.len() ==> (#[trigger] pool@[i]).wf(),
    ensures
        r@ == spec_pool_bytes(pool_views(pool@)),
{
    let mut r: Vec<u8> = Vec::new();
    let mut i: usize = 0;
    while i < pool.len()
        invariant
            i <= pool@.len(),
            r@ == spec_pool_bytes(pool_views(pool@).take(i as int)),
        decreases pool@.len() - i,
    {
        let mut line = target_to_line(&pool[i]);
        r.append(&mut line);
        r.push(NEWLINE);
        i = i + 1;
        proof {
            let views = pool_views(pool@);
            assert(views.take(i as int).drop_last() =~= views.take(i - 1));
            assert(views.take(i as int).last() == views[i - 1]);
            assert(r@ =~= spec_pool_bytes(views.take(i as int)));
        }
    }
    proof {
        assert(pool_views(pool@).take(pool@.len() as int) =~= pool_views(pool@));
    }
    r
}

/// Whether the synthetic pool has reached the configured size.
pub fn pool_complete(pool_len: usize, initial_random_targets: usize) -> (r: bool)
    ensures
        r == (pool_len >= initial_random_targets),
{
    pool_len >= initial_random_targets
}

/// The `step`-th fixed-size chunk of the shuffled pool: records
/// `step * batch_size` up to the following multiple, cloned for training.
#[verifier::loop_isolation(false)]
pub fn pre_training_batch(pool: &Vec<Target>, batch_size: usize, step: usize) -> (r: Vec<Target>)
    requires
        batch_size >= 1,
        (step + 1) * batch_size <= pool@.len(),
    ensures
        r@.len() == batch_size,
        forall|q: int| 0 <= q < batch_size ==> (#[trigger] r@[q])@ == pool@[step * batch_size
            + q]@,
{
    let total = pool.len();
    proof {
        assert(step * batch_size + batch_size <= pool@.len()) by (nonlinear_arith)
            requires
                (step + 1) * batch_size <= pool@.len(),
        ;
        assert(pool@.len() == total as int);
    }
    let start = step * batch_size;
    let mut r: Vec<Target> = Vec::new();
    let mut q: usize = 0;
    while q < batch_size
        invariant
            q <= batch_size,
            start == step * batch_size,
            start + batch_size <= pool@.len(),
            r@.len() == q,
            forall|m: int| 0 <= m < q ==> (#[trigger] r@[m])@ == pool@[start + m]@,
        decreases batch_size - q,
    {
        r.push(pool[start + q].clone());
        q = q + 1;
    }
    r
}

} // verus!
