use vstd::prelude::*;

verus! {

/// The settings that steer the training loop.
pub struct TrainSchedule {
    /// Epochs in one cycle of the learning-rate schedule.
    pub epochs: i64,
    /// How many times the schedule is run through.
    pub cycles: i64,
    /// Validate after every `eval_freq`-th epoch.
    pub eval_freq: i64,
    /// Log every `print_freq`-th step.
    pub print_freq: usize,
    /// Stop each epoch after a few steps.
    pub debug: bool,
    /// Whether the network is pruned during training.
    pub prune_net: bool,
    /// The epochs at whose start the network is pruned once more.
    pub prune_step_epochs: Vec<i64>,
}

/// Whether the network is validated after `epoch` of `total_epochs`, validating every
/// `eval_freq`-th epoch: when `epoch + 1` is a multiple of `eval_freq` (as `%` finds it), or the
/// epoch is one of the last ten.
pub open spec fn validation_epoch(epoch: i64, total_epochs: i64, eval_freq: i64) -> bool {
    ((epoch + 1) as i64).checked_rem(eval_freq) == Some(0i64) || epoch > total_epochs - 10
}

/// The number of epochs of training: the epochs of a cycle times the cycles.
pub open spec fn total_epochs_of(s: TrainSchedule) -> int {
    s.epochs * s.cycles
}

impl TrainSchedule {
    /// The number of epochs of training; the product must fit in `i64`.
    pub fn total_epochs(&self) -> (r: i64)
        requires
            i64::MIN <= total_epochs_of(*self) <= i64::MAX,
        ensures
            r == total_epochs_of(*self),
    {
        self.epochs * self.cycles
    }

    /// Whether the network is pruned at the start of `epoch`.
    pub fn prunes_at(&self, epoch: i64) -> (r: bool)
        ensures
            r == (self.prune_net && self.prune_step_epochs@.contains(epoch)),
    {
        if !self.prune_net {
            return false;
        }
        let mut k: usize = 0;
        while k < self.prune_step_epochs.len()
            invariant
                self.prune_net,
                k <= self.prune_step_epochs@.len(),
                forall|j: int| 0 <= j < k ==> self.prune_step_epochs@[j] != epoch,
            decreases self.prune_step_epochs@.len() - k,
        {
            if self.prune_step_epochs[k] == epoch {
                assert(self.prune_step_epochs@[k as int] == epoch);
                return true;
            }
            k = k + 1;
        }
        false
    }

    /// The epoch within its cycle, which the learning-rate schedule follows; the remainder of
    /// `epoch` by the epochs of a cycle, as `%` computes it.
    pub fn effective_epoch(&self, epoch: i64) -> (r: i64)
        requires
            epoch.checked_rem(self.epochs) is Some,
        ensures
            Some(r) == epoch.checked_rem(self.epochs),
    {
        match epoch.checked_rem(self.epochs) {
            Some(v) => v,
            None => 0,
        }
    }

    /// Whether the loop leaves an epoch before step `i`: only when debugging, after step 10.
    pub fn stops_early(&self, i: usize) -> (r: bool)
        ensures
            r == (i > 10 && self.debug),
    {
        i > 10 && self.debug
    }

    /// Whether step `i` of `num_batches` is logged: every `print_freq`-th step and the last one.
    pub fn logs_step(&self, i: usize, num_batches: usize) -> (r: bool)
        requires
            self.print_freq > 0,
            num_batches > 0,
        ensures
            r == (i % self.print_freq == 0 || i == num_batches - 1),
    {
        i % self.print_freq == 0 || i == num_batches - 1
    }

    /// Whether the network is validated after `epoch` of `total_epochs`: after every
    /// `eval_freq`-th epoch and after each of the last ten.
    pub fn validates_after(&self, epoch: i64, total_epochs: i64) -> (r: bool)
        requires
            0 <= epoch < total_epochs,
            self.eval_freq != 0,
        ensures
            r == validation_epoch(epoch, total_epochs, self.eval_freq),
    {
        let next = epoch + 1;
        let remainder = match next.checked_rem(self.eval_freq) {
            Some(v) => v,
            None => 1,
        };
        remainder == 0 || epoch > total_epochs - 10
    }
}

/// A cycle restarts the learning-rate schedule: an epoch one cycle later has the same
/// place in its cycle, for a positive cycle length and a non-negative epoch.
pub proof fn lemma_cycles_repeat(epochs: i64, epoch: i64)
    requires
        epochs > 0,
        epoch >= 0,
        epoch + epochs <= i64::MAX,
    ensures
        epoch.checked_rem(epochs) is Some,
        ((epoch + epochs) as i64).checked_rem(epochs) == epoch.checked_rem(epochs),
        0 <= epoch.checked_rem(epochs).unwrap() < epochs,
{
    let e = epoch as int;
    let d = epochs as int;
    vstd::arithmetic::div_mod::lemma_mod_add_multiples_vanish(e, d);
    vstd::arithmetic::div_mod::lemma_mod_pos_bound(e, d);
    assert((d + e) % d == e % d);
    let next = (epoch + epochs) as i64;
    assert(next as int == e + d);
    assert(next.checked_rem(epochs) == Some(((e + d) % d) as i64));
    if e == 0 {
        assert(epoch.checked_rem(epochs) == Some(0i64));
        assert(0int % d == 0) by {
            vstd::arithmetic::div_mod::lemma_small_mod(0, d as nat);
        }
    } else {
        assert(epoch.checked_rem(epochs) == Some((e % d) as i64));
    }
}

/// Training never runs `eval_freq` epochs in a row without a validation: among any
/// `eval_freq` consecutive epochs of the run, at least one is validated.
pub proof fn lemma_validation_spacing(first: i64, total_epochs: i64, eval_freq: i64)
    requires
        eval_freq > 0,
        0 <= first,
        first + eval_freq <= total_epochs,
    ensures
        exists|k: i64| first <= k < first + eval_freq && #[trigger] validation_epoch(k, total_epochs, eval_freq),
{
    let d = eval_freq as int;
    let x = first + d;
    let q = x / d;
    let m = q * d;
    vstd::arithmetic::div_mod::lemma_fundamental_div_mod(x, d);
    vstd::arithmetic::div_mod::lemma_mod_pos_bound(x, d);
    vstd::arithmetic::div_mod::lemma_mod_multiples_basic(q, d);
    assert(m == x - x % d);
    assert(first + 1 <= m <= first + d);
    let k = (m - 1) as i64;
    assert(((k + 1) as i64) as int == m);
    assert(((k + 1) as i64).checked_rem(eval_freq) == Some(0i64));
    assert(validation_epoch(k, total_epochs, eval_freq));
}

/// The settings that steer the evaluation loop.
pub struct EvalSchedule {
    /// Log every `print_freq`-th step.
    pub print_freq: usize,
    /// Stop after a few steps.
    pub debug: bool,
    /// Time repeated forward passes to measure frames per second.
    pub eval_fps: bool,
    /// The number of frames in a batch.
    pub batch_size: usize,
    /// The bit width of quantisation, or `-1` for none.
    pub quant_bit: i64,
}

impl EvalSchedule {
    /// How many forward passes each batch gets: ten when measuring speed, else one.
    pub fn forward_passes(&self) -> (r: usize)
        ensures
            r == if self.eval_fps { 10usize } else { 1usize },
    {
        if self.eval_fps { 10 } else { 1 }
    }

    /// Whether the weights are quantised before evaluating.
    pub fn quantizes(&self) -> (r: bool)
        ensures
            r == (self.quant_bit != -1),
    {
        self.quant_bit != -1
    }

    /// Whether the loop stops before step `i`: only when debugging, after step 10.
    pub fn stops_early(&self, i: usize) -> (r: bool)
        ensures
            r == (i > 10 && self.debug),
    {
        i > 10 && self.debug
    }

    /// Whether step `i` is logged: every `print_freq`-th step.
    pub fn logs_step(&self, i: usize) -> (r: bool)
        requires
            self.print_freq > 0,
        ensures
            r == (i % self.print_freq == 0),
    {
        i % self.print_freq == 0
    }

    /// The frame numbers of the images that step `i` dumps, given that the batch produced
    /// `produced` images: the first `min(batch_size, produced)` frames of the batch.
    pub fn dump_indices(&self, i: usize, produced: usize) -> (r: Vec<usize>)
        requires
            i * self.batch_size + self.batch_size <= usize::MAX,
        ensures
            r@.len() == if self.batch_size < produced { self.batch_size } else { produced },
            forall|k: int| 0 <= k < r@.len() ==> #[trigger] r@[k] == i * self.batch_size + k,
    {
        let bs = self.batch_size;
        let n = if bs < produced { bs } else { produced };
        proof {
            assert(i * bs + n <= usize::MAX);
        }
        let base = i * bs;
        let mut out: Vec<usize> = Vec::new();
        let mut k: usize = 0;
        while k < n
            invariant
                k <= n,
                n <= bs,
                base == i * bs,
                base + n <= usize::MAX,
                out@.len() == k,
                forall|j: int| 0 <= j < k ==> #[trigger] out@[j] == base + j,
            decreases n - k,
        {
            out.push(base + k);
            k = k + 1;
        }
        out
    }
}

} // verus!
