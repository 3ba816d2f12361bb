//! The target record: one labeled training example.
//!
//! A record carries an environment state descriptor, a policy distribution
//! over the legal actions, a scalar value estimate and a scalar uncertainty
//! estimate. Scalars are held in fixed point: `VALUE_SCALE` parts stand for
//! `1.0`, so a value lies in `[-VALUE_SCALE, VALUE_SCALE]` and an uncertainty
//! in `[0, UBE_SCALE]`. A policy entry holds an unnormalized weight; the
//! probability of an action is its weight divided by the sum of all weights
//! of the record.

use vstd::prelude::*;

verus! {

/// Fixed-point scale of the value estimate: this many parts stand for `1.0`.
pub const VALUE_SCALE: i32 = 1000;

/// Fixed-point scale of the uncertainty estimate.
pub const UBE_SCALE: u32 = 1000;

/// The line separator of the stream files.
pub const NEWLINE: u8 = 10;

/// One entry of a policy distribution: an action identifier together with
/// its unnormalized weight.
#[derive(Clone, Copy, Debug, PartialEq, Eq, Structural)]
pub struct PolicyEntry {
    pub action: u64,
    pub weight: u32,
}

/// One training target.
#[derive(Debug, PartialEq, Eq)]
pub struct Target {
    /// Environment state descriptor, opaque to the training loop.
    pub state: Vec<u8>,
    /// Policy distribution over the legal actions of the state.
    pub policy: Vec<PolicyEntry>,
    /// Value estimate in fixed point, within `[-VALUE_SCALE, VALUE_SCALE]`.
    pub value: i32,
    /// Uncertainty estimate in fixed point, within `[0, UBE_SCALE]`.
    pub ube: u32,
}

/// The mathematical value of a target.
pub ghost struct TargetV {
    pub state: Seq<u8>,
    pub policy: Seq<PolicyEntry>,
    pub value: int,
    pub ube: int,
}

impl View for Target {
    type V = TargetV;

    open spec fn view(&self) -> TargetV {
        TargetV {
            state: self.state@,
            policy: self.policy@,
            value: self.value as int,
            ube: self.ube as int,
        }
    }
}

/// A policy distribution is well formed when it is nonempty, at least one
/// weight is positive, and no action appears twice.
pub open spec fn policy_wf(p: Seq<PolicyEntry>) -> bool {
    &&& p.len() >= 1
    &&& exists|i: int| 0 <= i < p.len() && p[i].weight > 0
    &&& forall|i: int, j: int| 0 <= i < j < p.len() ==> p[i].action != p[j].action
}

/// A well-formed target: valid policy, scalars within their scales, and a
/// state descriptor free of line separators, so that the record can stand on
/// one line of a stream file.
pub open spec fn target_wf(t: TargetV) -> bool {
    &&& policy_wf(t.policy)
    &&& -(VALUE_SCALE as int) <= t.value <= VALUE_SCALE as int
    &&& 0 <= t.ube <= UBE_SCALE as int
    &&& forall|i: int| 0 <= i < t.state.len() ==> t.state[i] != NEWLINE
}

impl Target {
    pub open spec fn wf(&self) -> bool {
        target_wf(self@)
    }
}

/// Copies a byte vector.
pub fn clone_bytes(v: &Vec<u8>) -> (r: Vec<u8>)
    ensures
        r@ == v@,
{
    let mut r: Vec<u8> = Vec::new();
    let mut i: usize = 0;
    while i < v.len()
        invariant
            i <= v@.len(),
            r@ == v@.subrange(0, i as int),
        decreases v@.len() - i,
    {
        r.push(v[i]);
        i = i + 1;
        proof {
            assert(r@ =~= v@.subrange(0, i as int));
        }
    }
    proof {
        assert(r@ =~= v@);
    }
    r
}

/// Copies a policy distribution.
pub fn clone_policy(v: &Vec<PolicyEntry>) -> (r: Vec<PolicyEntry>)
    ensures
        r@ == v@,
{
    let mut r: Vec<PolicyEntry> = Vec::new();
    let mut i: usize = 0;
    while i < v.len()
        invariant
            i <= v@.len(),
            r@ == v@.subrange(0, i as int),
        decreases v@.len() - i,
    {
        r.push(v[i]);
        i = i + 1;
        proof {
            assert(r@ =~= v@.subrange(0, i as int));
        }
    }
    proof {
        assert(r@ =~= v@);
    }
    r
}

impl Clone for Target {
    /// A clone of a target has the same mathematical value.
    fn clone(&self) -> (r: Self)
        ensures
            r@ == self@,
    {
        Target {
            state: clone_bytes(&self.state),
            policy: clone_policy(&self.policy),
            value: self.value,
            ube: self.ube,
        }
    }
}

} // verus!
