//! The training scheduler: the decisions of one loop iteration.
//!
//! A session holds the step counter, the two replay buffers with their
//! stream cursors, and the configuration. Each iteration ingests the new
//! stream bytes into the buffers, enforces the capacity bound, and — when
//! every required buffer holds enough records — composes one batch and
//! advances the step counter. Below the reanalyze-activation threshold the
//! session is in the exploitation-only phase: the reanalyze stream is not
//! read, its buffer is not consulted for readiness and not drawn from, and
//! the phase change at the threshold is one-directional, as the step counter
//! never decreases.

use vstd::prelude::*;
use crate::buffer::{buf_view, sorted_desc, truncate_buffer_if_needed, TargetWithContext};
use crate::compose::{batch_views, create_batch, drawn_from, mixed_drawn_from};
use crate::reader::{fill_buffer_with_targets, spec_lines, spec_new_records};
use crate::target::Target;

verus! {

/// The training configuration.
#[derive(Clone, Copy, Debug)]
pub struct Config {
    /// Records per training batch; even, as the mixed phase splits it.
    pub batch_size: usize,
    /// Steps between writes of the rolling latest snapshot.
    pub steps_per_save: u64,
    /// Steps between numbered checkpoints.
    pub steps_per_checkpoint: u64,
    /// Exploitation records required before any batch is composed.
    pub min_exploitation_buffer_len: usize,
    /// Capacity of the exploitation buffer.
    pub max_exploitation_buffer_len: usize,
    /// Capacity of the reanalyze buffer.
    pub max_reanalyze_buffer_len: usize,
    /// Reuse seed of ingested exploitation records.
    pub exploitation_target_uses: u32,
    /// Reuse seed of ingested reanalyze records.
    pub reanalyze_target_uses: u32,
    /// Step count at which the mixed phase begins, for good.
    pub steps_before_reanalyze: u64,
    /// Synthetic records generated before training starts from nothing.
    pub initial_random_targets: usize,
    /// Training steps taken on the synthetic pool.
    pub pre_training_steps: u64,
}

impl Config {
    pub open spec fn wf(&self) -> bool {
        &&& self.batch_size >= 2
        &&& self.batch_size % 2 == 0
        &&& self.min_exploitation_buffer_len >= self.batch_size
        &&& self.steps_per_save >= 1
        &&& self.steps_per_checkpoint >= 1
    }
}

impl Default for Config {
    /// The stock configuration.
    fn default() -> (c: Config)
        ensures
            c.wf(),
            c.batch_size == 128,
            c.steps_per_save == 10,
            c.steps_per_checkpoint == 1000,
            c.min_exploitation_buffer_len == 2000,
            c.max_exploitation_buffer_len == 10000,
            c.max_reanalyze_buffer_len == 10000,
            c.exploitation_target_uses == 1,
            c.reanalyze_target_uses == 1,
            c.steps_before_reanalyze == 5000,
            c.initial_random_targets == 256000,
            c.pre_training_steps == 1000,
    {
        Config {
            batch_size: 128,
            steps_per_save: 10,
            steps_per_checkpoint: 1000,
            min_exploitation_buffer_len: 2000,
            max_exploitation_buffer_len: 10000,
            max_reanalyze_buffer_len: 10000,
            exploitation_target_uses: 1,
            reanalyze_target_uses: 1,
            steps_before_reanalyze: 5000,
            initial_random_targets: 256000,
            pre_training_steps: 1000,
        }
    }
}

/// The states of the training scheduler. `Bootstrapping` is entered only
/// at startup, when no prior progress exists; after it the phase is a
/// function of the step count alone.
#[derive(Clone, Copy, Debug, PartialEq, Eq, Structural)]
pub enum Phase {
    Bootstrapping,
    ExploitationOnly,
    Mixed,
}

/// The mixed phase holds from the threshold on; the transition is
/// irreversible because the step counter never decreases.
pub open spec fn spec_using_reanalyze(steps: u64, c: Config) -> bool {
    steps >= c.steps_before_reanalyze
}

/// The state the scheduler starts in: bootstrapping when resuming from
/// step zero, otherwise the phase of the resume step.
pub fn startup_phase(starting_steps: u64, c: &Config) -> (r: Phase)
    ensures
        r == Phase::Bootstrapping <==> starting_steps == 0,
        r == Phase::Mixed <==> (starting_steps != 0 && spec_using_reanalyze(starting_steps, *c)),
        r == Phase::ExploitationOnly <==> (starting_steps != 0 && !spec_using_reanalyze(
            starting_steps,
            *c,
        )),
{
    if starting_steps == 0 {
        Phase::Bootstrapping
    } else if starting_steps >= c.steps_before_reanalyze {
        Phase::Mixed
    } else {
        Phase::ExploitationOnly
    }
}

/// Once the mixed phase is reached it is never left: the step counter only
/// grows, and every later step count stays at or above the threshold.
pub proof fn lemma_phase_irreversible(earlier: u64, later: u64, c: Config)
    requires
        earlier <= later,
        spec_using_reanalyze(earlier, c),
    ensures
        spec_using_reanalyze(later, c),
{
}

/// One ingestion of a stream into a buffer: the parsed new records are
/// appended and the cursor advances to the line count; an unreadable stream
/// leaves buffer and cursor alone.
pub open spec fn filled(
    before: Seq<TargetWithContext>,
    bytes: Option<Vec<u8>>,
    k_before: int,
    k_after: int,
    after: Seq<TargetWithContext>,
    uses: u32,
    steps: u64,
) -> bool {
    match bytes {
        Some(b) => buf_view(after) == buf_view(before) + spec_new_records(
            spec_lines(b@),
            k_before,
            uses,
            steps,
        ) && k_after == vstd::math::max(k_before, spec_lines(b@).len() as int),
        None => after == before && k_after == k_before,
    }
}

/// One capacity pass over a buffer: within capacity nothing moves; over it,
/// only the `max` records of highest priority remain.
pub open spec fn truncated(
    before: Seq<TargetWithContext>,
    max: int,
    after: Seq<TargetWithContext>,
) -> bool {
    &&& after.len() == vstd::math::min(before.len() as int, max)
    &&& (before.len() <= max ==> after == before)
    &&& (before.len() > max ==> exists|s: Seq<TargetWithContext>|
        s.to_multiset() == before.to_multiset() && sorted_desc(s) && after == s.take(max))
}

/// The training session: step counter, buffers, cursors, configuration.
pub struct Session {
    pub config: Config,
    /// Count of completed training steps.
    pub model_steps: u64,
    pub exploitation_buffer: Vec<TargetWithContext>,
    /// Lines already consumed from the exploitation stream.
    pub exploitation_targets_read: usize,
    pub reanalyze_buffer: Vec<TargetWithContext>,
    /// Lines already consumed from the reanalyze stream.
    pub reanalyze_targets_read: usize,
}

/// Enough records to compose a batch: the exploitation buffer meets its
/// minimum, and in the mixed phase the reanalyze buffer can supply its half.
/// Below the threshold the reanalyze buffer plays no part.
pub open spec fn spec_ready(s: Session) -> bool {
    &&& s.exploitation_buffer@.len() >= s.config.min_exploitation_buffer_len
    &&& (spec_using_reanalyze(s.model_steps, s.config) ==> s.reanalyze_buffer@.len()
        >= s.config.batch_size / 2)
}

/// A ready session can supply the whole batch: in the exploitation-only
/// phase the exploitation buffer holds at least a full batch, and in the
/// mixed phase each buffer holds at least half of one. No batch is ever
/// composed otherwise.
pub proof fn lemma_ready_supplies_batch(s: Session)
    requires
        s.wf(),
        spec_ready(s),
    ensures
        s.exploitation_buffer@.len() >= s.config.batch_size,
        spec_using_reanalyze(s.model_steps, s.config) ==> s.reanalyze_buffer@.len()
            >= s.config.batch_size / 2,
{
}

impl Session {
    pub open spec fn wf(&self) -> bool {
        self.config.wf()
    }

    /// A fresh session: empty buffers, cursors at zero, the counter at the
    /// resume point.
    pub fn new(config: Config, starting_steps: u64) -> (s: Session)
        requires
            config.wf(),
        ensures
            s.wf(),
            s.config == config,
            s.model_steps == starting_steps,
            s.exploitation_buffer@ == Seq::<TargetWithContext>::empty(),
            s.reanalyze_buffer@ == Seq::<TargetWithContext>::empty(),
            s.exploitation_targets_read == 0,
            s.reanalyze_targets_read == 0,
    {
        Session {
            config,
            model_steps: starting_steps,
            exploitation_buffer: Vec::new(),
            exploitation_targets_read: 0,
            reanalyze_buffer: Vec::new(),
            reanalyze_targets_read: 0,
        }
    }

    /// Whether the session is in the mixed phase.
    pub fn using_reanalyze(&self) -> (r: bool)
        ensures
            r == spec_using_reanalyze(self.model_steps, self.config),
    {
        self.model_steps >= self.config.steps_before_reanalyze
    }

    /// The running phase of the current step count.
    pub fn phase(&self) -> (r: Phase)
        ensures
            r == Phase::Mixed <==> spec_using_reanalyze(self.model_steps, self.config),
            r == Phase::ExploitationOnly <==> !spec_using_reanalyze(self.model_steps, self.config),
    {
        if self.model_steps >= self.config.steps_before_reanalyze {
            Phase::Mixed
        } else {
            Phase::ExploitationOnly
        }
    }

    /// Ingests the new bytes of both streams and enforces the capacity
    /// bounds. The reanalyze stream is touched only in the mixed phase; an
    /// unreadable stream is skipped and retried on the next iteration.
    pub fn fill_buffers(
        &mut self,
        selfplay_bytes: Option<Vec<u8>>,
        reanalyze_bytes: Option<Vec<u8>>,
    )
        requires
            old(self).wf(),
        ensures
            final(self).wf(),
            final(self).config == old(self).config,
            final(self).model_steps == old(self).model_steps,
            exists|mid: Seq<TargetWithContext>|
                filled(
                    old(self).exploitation_buffer@,
                    selfplay_bytes,
                    old(self).exploitation_targets_read as int,
                    final(self).exploitation_targets_read as int,
                    mid,
                    old(self).config.exploitation_target_uses,
                    old(self).model_steps,
                ) && truncated(
                    mid,
                    old(self).config.max_exploitation_buffer_len as int,
                    final(self).exploitation_buffer@,
                ),
            spec_using_reanalyze(old(self).model_steps, old(self).config) ==> exists|
                mid: Seq<TargetWithContext>,
            |
                filled(
                    old(self).reanalyze_buffer@,
                    reanalyze_bytes,
                    old(self).reanalyze_targets_read as int,
                    final(self).reanalyze_targets_read as int,
                    mid,
                    old(self).config.reanalyze_target_uses,
                    old(self).model_steps,
                ) && truncated(
                    mid,
                    old(self).config.max_reanalyze_buffer_len as int,
                    final(self).reanalyze_buffer@,
                ),
            !spec_using_reanalyze(old(self).model_steps, old(self).config)
                ==> (final(self).reanalyze_buffer@ == old(self).reanalyze_buffer@
                && final(self).reanalyze_targets_read == old(self).reanalyze_targets_read),
    {
        let using_reanalyze = self.using_reanalyze();
        let uses = self.config.exploitation_target_uses;
        let steps = self.model_steps;
        match selfplay_bytes {
            Some(b) => {
                fill_buffer_with_targets(
                    &mut self.exploitation_buffer,
                    &mut self.exploitation_targets_read,
                    &b,
                    uses,
                    steps,
                );
            }
            None => {}
        }
        let ghost mid_e = self.exploitation_buffer@;
        let max_e = self.config.max_exploitation_buffer_len;
        truncate_buffer_if_needed(&mut self.exploitation_buffer, max_e);
        proof {
            assert(filled(
                old(self).exploitation_buffer@,
                selfplay_bytes,
                old(self).exploitation_targets_read as int,
                self.exploitation_targets_read as int,
                mid_e,
                old(self).config.exploitation_target_uses,
                old(self).model_steps,
            ) && truncated(
                mid_e,
                old(self).config.max_exploitation_buffer_len as int,
                self.exploitation_buffer@,
            ));
        }
        if using_reanalyze {
            let r_uses = self.config.reanalyze_target_uses;
            match reanalyze_bytes {
                Some(b) => {
                    fill_buffer_with_targets(
                        &mut self.reanalyze_buffer,
                        &mut self.reanalyze_targets_read,
                        &b,
                        r_uses,
                        steps,
                    );
                }
                None => {}
            }
            let ghost mid_r = self.reanalyze_buffer@;
            let max_r = self.config.max_reanalyze_buffer_len;
            truncate_buffer_if_needed(&mut self.reanalyze_buffer, max_r);
            proof {
                assert(filled(
                    old(self).reanalyze_buffer@,
                    reanalyze_bytes,
                    old(self).reanalyze_targets_read as int,
                    self.reanalyze_targets_read as int,
                    mid_r,
                    old(self).config.reanalyze_target_uses,
                    old(self).model_steps,
                ) && truncated(
                    mid_r,
                    old(self).config.max_reanalyze_buffer_len as int,
                    self.reanalyze_buffer@,
                ));
            }
        }
        proof {
            assert(filled(
                old(self).exploitation_buffer@,
                selfplay_bytes,
                old(self).exploitation_targets_read as int,
                self.exploitation_targets_read as int,
                mid_e,
                old(self).config.exploitation_target_uses,
                old(self).model_steps,
            ) && truncated(
                mid_e,
                old(self).config.max_exploitation_buffer_len as int,
                self.exploitation_buffer@,
            ));
        }
    }

    /// Whether enough records are present to compose a batch.
    pub fn ready(&self) -> (r: bool)
        requires
            self.wf(),
        ensures
            r == spec_ready(*self),
    {
        let enough_exploitation = self.exploitation_buffer.len()
            >= self.config.min_exploitation_buffer_len;
        let enough_reanalyze = !self.using_reanalyze() || self.reanalyze_buffer.len()
            >= self.config.batch_size / 2;
        enough_exploitation && enough_reanalyze
    }

    /// Composes one batch and advances the step counter — but only when
    /// every required buffer holds enough records; otherwise nothing
    /// changes and the scheduler is to wait and retry ingestion.
    #[verifier::rlimit(100)]
    pub fn try_create_batch(&mut self, rng: &mut rand::rngs::StdRng) -> (r: Option<Vec<Target>>)
        requires
            old(self).wf(),
            old(self).model_steps < u64::MAX,
        ensures
            final(self).wf(),
            r is Some <==> spec_ready(*old(self)),
            r is None ==> *final(self) == *old(self),
            r is Some ==> final(self).model_steps == old(self).model_steps + 1,
            r is Some ==> final(self).config == old(self).config,
            r is Some ==> final(self).exploitation_targets_read
                == old(self).exploitation_targets_read,
            r is Some ==> final(self).reanalyze_targets_read == old(self).reanalyze_targets_read,
            r matches Some(batch) ==> batch@.len() == old(self).config.batch_size,
            (r is Some && !spec_using_reanalyze(old(self).model_steps, old(self).config))
                ==> final(self).reanalyze_buffer@ == old(self).reanalyze_buffer@,
            r matches Some(batch) ==> !spec_using_reanalyze(
                old(self).model_steps,
                old(self).config,
            ) ==> drawn_from(
                old(self).exploitation_buffer@,
                final(self).exploitation_buffer@,
                batch_views(batch@),
                old(self).config.batch_size as int,
            ),
            r matches Some(batch) ==> spec_using_reanalyze(
                old(self).model_steps,
                old(self).config,
            ) ==> mixed_drawn_from(
                old(self).exploitation_buffer@,
                final(self).exploitation_buffer@,
                old(self).reanalyze_buffer@,
                final(self).reanalyze_buffer@,
                batch_views(batch@),
                old(self).config.batch_size as int,
            ),
    {
        if !self.ready() {
            return None;
        }
        let using_reanalyze = self.using_reanalyze();
        let batch_size = self.config.batch_size;
        // Work on the buffers as locals: the records move out and back.
        let mut eb: Vec<TargetWithContext> = Vec::new();
        let mut rb: Vec<TargetWithContext> = Vec::new();
        core::mem::swap(&mut eb, &mut self.exploitation_buffer);
        core::mem::swap(&mut rb, &mut self.reanalyze_buffer);
        let ghost pre_e = eb@;
        let ghost pre_r = rb@;
        let batch = create_batch(using_reanalyze, batch_size, &mut eb, &mut rb, rng);
        let ghost eb_post = eb@;
        let ghost rb_post = rb@;
        core::mem::swap(&mut eb, &mut self.exploitation_buffer);
        core::mem::swap(&mut rb, &mut self.reanalyze_buffer);
        self.model_steps = self.model_steps + 1;
        proof {
            assert(pre_e == old(self).exploitation_buffer@);
            assert(pre_r == old(self).reanalyze_buffer@);
            assert(self.exploitation_buffer@ == eb_post);
            assert(self.reanalyze_buffer@ == rb_post);
            if !using_reanalyze {
                assert(drawn_from(
                    old(self).exploitation_buffer@,
                    self.exploitation_buffer@,
                    batch_views(batch@),
                    old(self).config.batch_size as int,
                ));
            } else {
                assert(mixed_drawn_from(
                    old(self).exploitation_buffer@,
                    self.exploitation_buffer@,
                    old(self).reanalyze_buffer@,
                    self.reanalyze_buffer@,
                    batch_views(batch@),
                    old(self).config.batch_size as int,
                ));
            }
        }
        Some(batch)
    }

    /// After a completed step: whether the rolling snapshot and the numbered
    /// checkpoint are due, by the configured cadences on the count of
    /// completed steps.
    pub fn save_due(&self) -> (r: (bool, bool))
        requires
            self.wf(),
        ensures
            r.0 == (self.model_steps % self.config.steps_per_save == 0),
            r.1 == (self.model_steps % self.config.steps_per_checkpoint == 0),
    {
        (
            self.model_steps % self.config.steps_per_save == 0,
            self.model_steps % self.config.steps_per_checkpoint == 0,
        )
    }
}

} // verus!
