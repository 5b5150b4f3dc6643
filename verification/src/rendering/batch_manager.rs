//! Batching of render commands: commands collect until a batch is full or a
//! frame's time has passed, then leave together.

use vstd::prelude::*;
use std::time::Instant;

verus! {

#[verifier::external_type_specification]
#[verifier::external_body]
pub struct ExInstant(Instant);

/// `Instant::now`: the current moment of the monotonic clock.
#[verifier::external_body]
fn instant_now() -> Instant {
    Instant::now()
}

/// `Instant::elapsed`, in nanoseconds: the time since `start` by the
/// monotonic clock, which depends on when it is called.
#[verifier::external_body]
fn nanos_since(start: &Instant) -> u128 {
    start.elapsed().as_nanos()
}

/// Nanoseconds in a millisecond.
pub const NANOS_PER_MILLI: u128 = 1_000_000;

/// Commands a batch holds before it is flushed.
pub const MAX_COMMANDS_PER_BATCH: usize = 1000;

/// Pending commands above which a batch is ready to flush whatever the time.
pub const READY_PENDING_COMMANDS: usize = 100;

/// Statistics about a batch manager; times are in nanoseconds.
#[derive(Debug, Clone, Copy)]
pub struct BatchStats {
    pub pending_commands: usize,
    pub batch_commands: usize,
    pub time_since_flush: u128,
    pub target_frame_time: u128,
}

impl BatchStats {
    /// A frame's time has passed since the last flush, or more than a
    /// hundred commands are pending.
    pub fn is_ready_to_flush(&self) -> (r: bool)
        ensures
            r == (self.time_since_flush >= self.target_frame_time || self.pending_commands > READY_PENDING_COMMANDS),
    {
        self.time_since_flush >= self.target_frame_time || self.pending_commands > READY_PENDING_COMMANDS
    }
}

/// Manages render command batching and frame timing.
pub struct RenderBatchManager<C> {
    current_batch: Vec<C>,
    pending_commands: Vec<C>,
    last_flush: Instant,
    target_frame_time: u128,
    max_commands_per_batch: usize,
}

/// Model of a batch manager: the batch being built, the pending commands and
/// the frame time in nanoseconds.
pub struct BatchModel<C> {
    pub batch: Seq<C>,
    pub pending: Seq<C>,
    pub target_frame_time: nat,
}

impl<C> View for RenderBatchManager<C> {
    type V = BatchModel<C>;

    closed spec fn view(&self) -> BatchModel<C> {
        BatchModel { batch: self.current_batch@, pending: self.pending_commands@, target_frame_time: self.target_frame_time as nat }
    }
}

impl<C> RenderBatchManager<C> {
    /// Fewer commands than the batch limit are pending.
    pub closed spec fn wf(&self) -> bool {
        &&& self.max_commands_per_batch == MAX_COMMANDS_PER_BATCH
        &&& self.pending_commands@.len() < MAX_COMMANDS_PER_BATCH
    }

    /// An empty manager aiming at 60 frames a second (16 ms a frame).
    pub fn new() -> (m: Self)
        ensures
            m.wf(),
            m@.batch.len() == 0,
            m@.pending.len() == 0,
            m@.target_frame_time == 16 * NANOS_PER_MILLI,
    {
        RenderBatchManager {
            current_batch: Vec::new(),
            pending_commands: Vec::new(),
            last_flush: instant_now(),
            target_frame_time: 16 * NANOS_PER_MILLI,
            max_commands_per_batch: MAX_COMMANDS_PER_BATCH,
        }
    }

    /// Sets the frame rate: a frame lasts `1000 / fps` whole milliseconds.
    pub fn set_target_fps(&mut self, fps: u32)
        requires
            fps > 0,
        ensures
            final(self).wf() == old(self).wf(),
            final(self)@.batch == old(self)@.batch,
            final(self)@.pending == old(self)@.pending,
            final(self)@.target_frame_time == (1000nat / (fps as nat)) * NANOS_PER_MILLI,
    {
        let millis: u64 = 1000 / (fps as u64);
        self.target_frame_time = (millis as u128) * NANOS_PER_MILLI;
    }

    /// Moves the pending commands into the batch and hands the batch out,
    /// starting an empty one and the next frame's clock.
    fn flush_internal(&mut self) -> (b: Vec<C>)
        requires
            old(self).max_commands_per_batch == MAX_COMMANDS_PER_BATCH,
        ensures
            final(self).wf(),
            b@ == old(self)@.batch + old(self)@.pending,
            final(self)@.batch.len() == 0,
            final(self)@.pending.len() == 0,
            final(self)@.target_frame_time == old(self)@.target_frame_time,
    {
        self.current_batch.append(&mut self.pending_commands);
        let mut flushed: Vec<C> = Vec::new();
        std::mem::swap(&mut flushed, &mut self.current_batch);
        self.last_flush = instant_now();
        flushed
    }

    /// Moves the pending commands to the end of the current batch, which
    /// keeps them until the next flush.
    fn batch_pending(&mut self)
        requires
            old(self).max_commands_per_batch == MAX_COMMANDS_PER_BATCH,
        ensures
            final(self).wf(),
            final(self)@.batch == old(self)@.batch + old(self)@.pending,
            final(self)@.pending.len() == 0,
            final(self)@.target_frame_time == old(self)@.target_frame_time,
    {
        self.current_batch.append(&mut self.pending_commands);
    }

    /// Adds a command to the current batch: it is pending until the pending
    /// commands reach the batch limit, and then they all join the batch.
    pub fn add_command(&mut self, command: C)
        requires
            old(self).wf(),
        ensures
            final(self).wf(),
            final(self)@.target_frame_time == old(self)@.target_frame_time,
            final(self)@.batch + final(self)@.pending == old(self)@.batch + old(self)@.pending.push(command),
            old(self)@.pending.len() + 1 >= MAX_COMMANDS_PER_BATCH ==> final(self)@.pending.len() == 0,
            old(self)@.pending.len() + 1 < MAX_COMMANDS_PER_BATCH ==> {
                &&& final(self)@.batch == old(self)@.batch
                &&& final(self)@.pending == old(self)@.pending.push(command)
            },
    {
        self.pending_commands.push(command);
        if self.pending_commands.len() >= self.max_commands_per_batch {
            self.batch_pending();
            proof {
                assert(self@.batch + self@.pending =~= old(self)@.batch + old(self)@.pending.push(command));
            }
        }
    }

    /// Adds commands to the current batch: they are pending until the
    /// pending commands reach the batch limit, and then they all join the batch.
    pub fn add_commands(&mut self, commands: Vec<C>)
        requires
            old(self).wf(),
        ensures
            final(self).wf(),
            final(self)@.target_frame_time == old(self)@.target_frame_time,
            final(self)@.batch + final(self)@.pending == old(self)@.batch + old(self)@.pending + commands@,
            old(self)@.pending.len() + commands@.len() >= MAX_COMMANDS_PER_BATCH ==> final(self)@.pending.len() == 0,
            old(self)@.pending.len() + commands@.len() < MAX_COMMANDS_PER_BATCH ==> {
                &&& final(self)@.batch == old(self)@.batch
                &&& final(self)@.pending == old(self)@.pending + commands@
            },
    {
        let mut more = commands;
        self.pending_commands.append(&mut more);
        if self.pending_commands.len() >= self.max_commands_per_batch {
            self.batch_pending();
            proof {
                assert(self@.batch + self@.pending =~= old(self)@.batch + old(self)@.pending + commands@);
            }
        } else {
            proof {
                assert(self@.batch + self@.pending =~= old(self)@.batch + old(self)@.pending + commands@);
            }
        }
    }

    /// Whether `elapsed` nanoseconds since the last flush make a frame.
    pub fn should_flush_after(&self, elapsed: u128) -> (r: bool)
        ensures
            r == (elapsed >= self@.target_frame_time),
    {
        elapsed >= self.target_frame_time
    }

    /// Whether a frame's time has passed since the last flush; always so
    /// when frames take no time (more than a thousand a second).
    pub fn should_flush(&self) -> (r: bool)
        ensures
            self@.target_frame_time == 0 ==> r,
    {
        let elapsed = nanos_since(&self.last_flush);
        self.should_flush_after(elapsed)
    }

    /// Flushes the pending commands with the batch and hands the batch out;
    /// nothing when no command is batched or pending.
    pub fn flush(&mut self) -> (b: Option<Vec<C>>)
        requires
            old(self).wf(),
        ensures
            final(self).wf(),
            final(self)@.target_frame_time == old(self)@.target_frame_time,
            old(self)@.batch.len() + old(self)@.pending.len() == 0 ==> b is None && final(self)@ == old(self)@,
            old(self)@.batch.len() + old(self)@.pending.len() > 0 ==> {
                &&& b matches Some(v) && v@ == old(self)@.batch + old(self)@.pending
                &&& final(self)@.batch.len() == 0
                &&& final(self)@.pending.len() == 0
            },
    {
        if self.pending_commands.len() == 0 && self.current_batch.len() == 0 {
            return None;
        }
        Some(self.flush_internal())
    }

    /// The statistics, given `elapsed` nanoseconds since the last flush.
    pub fn stats_after(&self, elapsed: u128) -> (s: BatchStats)
        ensures
            s.pending_commands == self@.pending.len(),
            s.batch_commands == self@.batch.len(),
            s.time_since_flush == elapsed,
            s.target_frame_time == self@.target_frame_time,
    {
        BatchStats {
            pending_commands: self.pending_commands.len(),
            batch_commands: self.current_batch.len(),
            time_since_flush: elapsed,
            target_frame_time: self.target_frame_time,
        }
    }

    /// The statistics now.
    pub fn get_stats(&self) -> (s: BatchStats)
        ensures
            s.pending_commands == self@.pending.len(),
            s.batch_commands == self@.batch.len(),
            s.target_frame_time == self@.target_frame_time,
    {
        let elapsed = nanos_since(&self.last_flush);
        self.stats_after(elapsed)
    }

    /// Drops the pending commands and the batch without flushing.
    pub fn clear(&mut self)
        requires
            old(self).wf(),
        ensures
            final(self).wf(),
            final(self)@.batch.len() == 0,
            final(self)@.pending.len() == 0,
            final(self)@.target_frame_time == old(self)@.target_frame_time,
    {
        self.pending_commands.clear();
        self.current_batch = Vec::new();
    }
}

} // verus!
