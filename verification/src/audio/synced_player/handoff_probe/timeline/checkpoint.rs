//! The device's publication of its position together with its cadence and the
//! frame it output last.
//!
//! `Memory` is a model of the cells of a publication. The laws about what a read gives back
//! are laws of that model; the contracts of the operations say which of its steps they make
//! on the cells, and what they read of them. That the cells hold what was last stored there
//! is what the model takes for granted.
use crate::audio::sync_correction::CorrectionSchedule;
use crate::audio::synced_player::ingress::checkpoint::{coherent, is_coherent, SourcePosition};
use crate::audio::synced_player::ingress::{ControlGate, GateView, Observation};
use crate::audio::synced_player::shared::{
    added, added_to, got_bool, got_i32, got_i64, got_u64, got_usize, made_bool, made_i32, made_u64,
    made_usize, put_bool, put_i32, put_i64, put_u64, put_usize,
};
use std::sync::atomic::{AtomicBool, AtomicI32, AtomicI64, AtomicU64, AtomicUsize, Ordering};
use vstd::prelude::*;

verus! {

/// A schedule, and how far its counters have come.
#[derive(Clone, Copy, Debug, PartialEq, Eq, Structural)]
pub struct Cadence {
    pub schedule: CorrectionSchedule,
    pub insert_counter: u32,
    pub drop_counter: u32,
}

/// A coherent reading of everything that the device publishes.
#[derive(Debug)]
pub struct Snapshot<'a> {
    pub view: Observation<'a>,
    pub cadence: Cadence,
    pub last: Vec<i32>,
    pub source_frames: u64,
    pub output_frames: u64,
    pub position: SourcePosition,
}

/// Two counts in one word.
pub open spec fn pair_word(high: u32, low: u32) -> u64 {
    (high as u64) << 32 | low as u64
}

pub fn pack_pair(high: u32, low: u32) -> (word: u64)
    ensures
        word == pair_word(high, low),
{
    (high as u64) << 32 | low as u64
}

/// The two counts of a word.
pub open spec fn word_pair(word: u64) -> (u32, u32) {
    ((word >> 32) as u32, word as u32)
}

pub fn unpack_pair(word: u64) -> (pair: (u32, u32))
    ensures
        pair == word_pair(word),
{
    ((word >> 32) as u32, word as u32)
}

/// Two counts come back as they were packed.
pub proof fn pairs_come_back(high: u32, low: u32)
    ensures
        word_pair(pair_word(high, low)) == (high, low),
{
    assert((((high as u64) << 32 | low as u64) >> 32) as u32 == high && ((high as u64) << 32
        | low as u64) as u32 == low) by (bit_vector);
}

/// The words of a published cadence.
pub open spec fn cadence_words(cadence: Cadence) -> (u64, u64) {
    (
        pair_word(cadence.schedule.insert_every_n_frames, cadence.schedule.drop_every_n_frames),
        pair_word(cadence.insert_counter, cadence.drop_counter),
    )
}

pub fn encode_cadence(cadence: Cadence) -> (words: (u64, u64))
    ensures
        words == cadence_words(cadence),
{
    (
        pack_pair(cadence.schedule.insert_every_n_frames, cadence.schedule.drop_every_n_frames),
        pack_pair(cadence.insert_counter, cadence.drop_counter),
    )
}

/// The cadence that two words stand for. A published cadence is never a reanchor.
pub open spec fn words_cadence(schedule: u64, counters: u64) -> Cadence {
    Cadence {
        schedule: CorrectionSchedule {
            insert_every_n_frames: word_pair(schedule).0,
            drop_every_n_frames: word_pair(schedule).1,
            reanchor: false,
        },
        insert_counter: word_pair(counters).0,
        drop_counter: word_pair(counters).1,
    }
}

pub fn decode_cadence(schedule: u64, counters: u64) -> (cadence: Cadence)
    ensures
        cadence == words_cadence(schedule, counters),
{
    let (insert_every_n_frames, drop_every_n_frames): (u32, u32) = unpack_pair(schedule);
    let (insert_counter, drop_counter): (u32, u32) = unpack_pair(counters);
    Cadence {
        schedule: CorrectionSchedule {
            insert_every_n_frames,
            drop_every_n_frames,
            reanchor: false,
        },
        insert_counter,
        drop_counter,
    }
}

/// What a read gives back is what was published, for every cadence that is not a
/// reanchor.
pub proof fn a_cadence_comes_back(cadence: Cadence)
    requires
        !cadence.schedule.reanchor,
    ensures
        words_cadence(cadence_words(cadence).0, cadence_words(cadence).1) == cadence,
{
    pairs_come_back(
        cadence.schedule.insert_every_n_frames,
        cadence.schedule.drop_every_n_frames,
    );
    pairs_come_back(cadence.insert_counter, cadence.drop_counter);
}

/// What a publication writes, besides the frame output last: where the device is,
/// and its cadence in two words.
#[derive(Clone, Copy, Debug, PartialEq, Eq, Structural)]
pub struct CheckpointWords {
    pub retired_through: u64,
    pub index: usize,
    pub cursor_us: i64,
    pub cursor_remainder: i64,
    pub schedule: u64,
    pub counters: u64,
}

/// The words of a cadence and a position. The current source is not among them: the
/// control gate holds it.
pub open spec fn checkpoint_words(cadence: Cadence, position: SourcePosition) -> CheckpointWords {
    CheckpointWords {
        retired_through: position.retired_through,
        index: position.index,
        cursor_us: position.cursor_us,
        cursor_remainder: position.cursor_remainder,
        schedule: cadence_words(cadence).0,
        counters: cadence_words(cadence).1,
    }
}

pub fn encode_checkpoint(cadence: Cadence, position: SourcePosition) -> (words: CheckpointWords)
    ensures
        words == checkpoint_words(cadence, position),
{
    let (schedule, counters): (u64, u64) = encode_cadence(cadence);
    CheckpointWords {
        retired_through: position.retired_through,
        index: position.index,
        cursor_us: position.cursor_us,
        cursor_remainder: position.cursor_remainder,
        schedule,
        counters,
    }
}

/// What words say, with the current source that the control gate shows.
pub open spec fn words_checkpoint(words: CheckpointWords, current: u64) -> (
    Cadence,
    SourcePosition,
) {
    (
        words_cadence(words.schedule, words.counters),
        SourcePosition {
            retired_through: words.retired_through,
            current,
            index: words.index,
            cursor_us: words.cursor_us,
            cursor_remainder: words.cursor_remainder,
        },
    )
}

pub fn decode_checkpoint(words: CheckpointWords, current: u64) -> (said: (
    Cadence,
    SourcePosition,
))
    ensures
        said == words_checkpoint(words, current),
{
    (
        decode_cadence(words.schedule, words.counters),
        SourcePosition {
            retired_through: words.retired_through,
            current,
            index: words.index,
            cursor_us: words.cursor_us,
            cursor_remainder: words.cursor_remainder,
        },
    )
}

/// A read gives back what was published: the cadence and the position, under the
/// current source that was published with them.
pub proof fn a_publication_comes_back(cadence: Cadence, position: SourcePosition)
    requires
        !cadence.schedule.reanchor,
    ensures
        words_checkpoint(checkpoint_words(cadence, position), position.current) == (
            cadence,
            position,
        ),
{
    a_cadence_comes_back(cadence);
}

/// What the cells of a checkpoint hold.
#[verifier::ext_equal]
pub struct Memory {
    pub valid: bool,
    pub output_frames: u64,
    pub words: CheckpointWords,
    pub last: Seq<i32>,
}

/// One operation on a checkpoint.
pub enum CheckpointStep {
    Publish { cadence: Cadence, position: SourcePosition, visited: usize, last: Option<Seq<i32>> },
    Read,
    InvalidateForReanchor,
    InvalidateAfterClear,
}

/// A count with so much more, around the largest one.
pub open spec fn wrapped_sum(count: u64, more: int) -> u64 {
    ((count + more) % 0x1_0000_0000_0000_0000) as u64
}

impl Memory {
    /// A checkpoint that nothing was published in.
    pub open spec fn fresh(channels: nat) -> Memory {
        Memory {
            valid: false,
            output_frames: 0,
            words: CheckpointWords {
                retired_through: 0,
                index: 0,
                cursor_us: 0,
                cursor_remainder: 0,
                schedule: 0,
                counters: 0,
            },
            last: Seq::new(channels, |i: int| 0i32),
        }
    }

    /// What an operation leaves. A publication adds to the output and keeps the last frame
    /// where it has none of its own. A new timeline keeps everything but the validity; a
    /// clear also forgets the output, the place in the source and the last frame.
    pub open spec fn after(self, step: CheckpointStep) -> Memory {
        match step {
            CheckpointStep::Publish { cadence, position, visited, last } => Memory {
                valid: true,
                output_frames: wrapped_sum(self.output_frames, visited as int),
                words: checkpoint_words(cadence, position),
                last: match last {
                    Some(frame) => frame,
                    None => self.last,
                },
            },
            CheckpointStep::Read => self,
            CheckpointStep::InvalidateForReanchor => Memory { valid: false, ..self },
            CheckpointStep::InvalidateAfterClear => Memory {
                valid: false,
                output_frames: 0,
                words: CheckpointWords { index: 0, ..self.words },
                last: Seq::new(self.last.len(), |i: int| 0i32),
            },
        }
    }

    /// What operations leave, one after the other.
    pub open spec fn after_all(self, steps: Seq<CheckpointStep>) -> Memory
        decreases steps.len(),
    {
        if steps.len() == 0 {
            self
        } else {
            self.after_all(steps.drop_last()).after(steps.last())
        }
    }

    /// What a read finds that nothing interferes with: everything, or nothing where what
    /// is published does not count. `current` is the source that the control gate shows,
    /// and `progress` the frames that were consumed.
    pub open spec fn read(self, current: u64, progress: u64) -> Option<Found> {
        if self.valid {
            let (cadence, position) = words_checkpoint(self.words, current);
            Some(
                Found {
                    cadence,
                    position,
                    last: self.last,
                    source_frames: progress,
                    output_frames: self.output_frames,
                },
            )
        } else {
            None
        }
    }
}

/// What a read finds of a checkpoint.
#[verifier::ext_equal]
pub struct Found {
    pub cadence: Cadence,
    pub position: SourcePosition,
    pub last: Seq<i32>,
    pub source_frames: u64,
    pub output_frames: u64,
}

/// What a reading finds around the cells: the frames consumed, and whether what is published
/// was still valid and the observation still stood afterwards.
pub struct ReadFound {
    pub memory: Memory,
    pub source_frames: u64,
    pub still: bool,
    pub stood: bool,
}

/// What is found in a snapshot, if there is one.
pub open spec fn found_of(snapshot: Option<Snapshot<'_>>) -> Option<Found> {
    match snapshot {
        Some(s) => Some(found_in(s)),
        None => None,
    }
}

/// What is found in a snapshot.
pub open spec fn found_in(snapshot: Snapshot<'_>) -> Found {
    Found {
        cadence: snapshot.cadence,
        position: snapshot.position,
        last: snapshot.last@,
        source_frames: snapshot.source_frames,
        output_frames: snapshot.output_frames,
    }
}

/// A whole publication comes back: after it, and as long as only reads follow, a read finds
/// its cadence, its position and its last frame, with the frames consumed and the output
/// counted so far.
pub proof fn the_last_publication_is_found(
    memory: Memory,
    cadence: Cadence,
    position: SourcePosition,
    visited: usize,
    last: Seq<i32>,
    reads: Seq<CheckpointStep>,
    progress: u64,
)
    requires
        !cadence.schedule.reanchor,
        forall|i: int| 0 <= i < reads.len() ==> (#[trigger] reads[i]) is Read,
    ensures
        memory.after(
            CheckpointStep::Publish { cadence, position, visited, last: Some(last) },
        ).after_all(reads).read(position.current, progress) == Some(
            Found {
                cadence,
                position,
                last,
                source_frames: progress,
                output_frames: wrapped_sum(memory.output_frames, visited as int),
            },
        ),
    decreases reads.len(),
{
    if reads.len() > 0 {
        the_last_publication_is_found(
            memory,
            cadence,
            position,
            visited,
            last,
            reads.drop_last(),
            progress,
        );
        assert(reads.last() is Read);
    } else {
        a_publication_comes_back(cadence, position);
    }
}

/// Nothing is found of a checkpoint that does not count, however often it is read, and
/// reading changes nothing.
pub proof fn an_invalid_checkpoint_is_not_found(
    memory: Memory,
    reads: Seq<CheckpointStep>,
    current: u64,
    progress: u64,
)
    requires
        !memory.valid,
        forall|i: int| 0 <= i < reads.len() ==> (#[trigger] reads[i]) is Read,
    ensures
        memory.after_all(reads) == memory,
        memory.after_all(reads).read(current, progress) is None,
    decreases reads.len(),
{
    if reads.len() > 0 {
        an_invalid_checkpoint_is_not_found(memory, reads.drop_last(), current, progress);
        assert(reads.last() is Read);
    }
}

/// A publication without a frame keeps the last one, while its cadence and its position are
/// its own and its output is added.
pub proof fn a_publication_without_a_frame_keeps_the_last(
    memory: Memory,
    cadence: Cadence,
    position: SourcePosition,
    visited: usize,
    progress: u64,
)
    requires
        !cadence.schedule.reanchor,
    ensures
        memory.after(
            CheckpointStep::Publish { cadence, position, visited, last: None },
        ).read(position.current, progress) == Some(
            Found {
                cadence,
                position,
                last: memory.last,
                source_frames: progress,
                output_frames: wrapped_sum(memory.output_frames, visited as int),
            },
        ),
{
    a_publication_comes_back(cadence, position);
}

/// The frames that were published since the last clear.
pub open spec fn visited_since_clear(steps: Seq<CheckpointStep>) -> int
    decreases steps.len(),
{
    if steps.len() == 0 {
        0
    } else {
        match steps.last() {
            CheckpointStep::Publish { visited, .. } => visited_since_clear(steps.drop_last())
                + visited,
            CheckpointStep::InvalidateAfterClear => 0,
            _ => visited_since_clear(steps.drop_last()),
        }
    }
}

/// The published output adds up: whatever was done, it is the sum of what was published
/// since the beginning or the last clear, around the largest count.
pub proof fn published_output_adds_up(channels: nat, steps: Seq<CheckpointStep>)
    ensures
        Memory::fresh(channels).after_all(steps).output_frames == wrapped_sum(
            0,
            visited_since_clear(steps),
        ),
        visited_since_clear(steps) >= 0,
    decreases steps.len(),
{
    if steps.len() > 0 {
        published_output_adds_up(channels, steps.drop_last());
        let sum = visited_since_clear(steps.drop_last());
        match steps.last() {
            CheckpointStep::Publish { visited, .. } => {
                lemma_wrapped_sums(sum, visited as int);
            },
            _ => {},
        }
    }
}

proof fn lemma_wrapped_sums(a: int, b: int)
    requires
        a >= 0,
        b >= 0,
    ensures
        wrapped_sum(wrapped_sum(0, a), b) == wrapped_sum(0, a + b),
{
    let m = 0x1_0000_0000_0000_0000int;
    assert((a % m + b) % m == (a + b) % m) by (nonlinear_arith)
        requires
            m == 0x1_0000_0000_0000_0000int,
            a >= 0,
            b >= 0,
    ;
}

/// A new timeline keeps the output, the place in the source and the last frame, but nothing
/// is found of them. The next publication, even one without a frame, is found with the
/// output added and the frame that was kept.
pub proof fn a_new_timeline_keeps_the_output(
    memory: Memory,
    cadence: Cadence,
    position: SourcePosition,
    visited: usize,
    progress: u64,
)
    requires
        !cadence.schedule.reanchor,
    ensures
        ({
            let moved = memory.after(CheckpointStep::InvalidateForReanchor);
            &&& !moved.valid
            &&& moved.read(position.current, progress) is None
            &&& moved.output_frames == memory.output_frames
            &&& moved.words.index == memory.words.index
            &&& moved.last == memory.last
            &&& moved.after(
                CheckpointStep::Publish { cadence, position, visited, last: None },
            ).read(position.current, progress) == Some(
                Found {
                    cadence,
                    position,
                    last: memory.last,
                    source_frames: progress,
                    output_frames: wrapped_sum(memory.output_frames, visited as int),
                },
            )
        }),
{
    a_publication_comes_back(cadence, position);
}

/// A clear forgets the output, the place in the source and the last frame, and nothing is
/// found until the next publication. That one shows its own output, and silence where it
/// has no frame. Clearing twice is clearing once.
pub proof fn a_clear_forgets_the_output(
    memory: Memory,
    cadence: Cadence,
    position: SourcePosition,
    visited: usize,
    progress: u64,
)
    requires
        !cadence.schedule.reanchor,
    ensures
        ({
            let cleared = memory.after(CheckpointStep::InvalidateAfterClear);
            let silence = Seq::new(memory.last.len(), |i: int| 0i32);
            &&& !cleared.valid
            &&& cleared.read(position.current, progress) is None
            &&& cleared.output_frames == 0
            &&& cleared.words.index == 0
            &&& cleared.last == silence
            &&& cleared.after(CheckpointStep::InvalidateAfterClear) == cleared
            &&& cleared.after(
                CheckpointStep::Publish { cadence, position, visited, last: None },
            ).read(position.current, progress) == Some(
                Found {
                    cadence,
                    position,
                    last: silence,
                    source_frames: progress,
                    output_frames: visited as u64,
                },
            )
        }),
{
    a_publication_comes_back(cadence, position);
    let cleared = memory.after(CheckpointStep::InvalidateAfterClear);
    assert(cleared.after(CheckpointStep::InvalidateAfterClear) =~= cleared);
}

fn widened(count: usize) -> (wide: u64)
    ensures
        wide == count,
{
    count as u64
}

/// The cells that the device writes while its callback is active.
#[derive(Debug)]
pub struct PublishedCheckpoint {
    valid: AtomicBool,
    output_frames: AtomicU64,
    retired_through: AtomicU64,
    index: AtomicUsize,
    cursor_us: AtomicI64,
    cursor_remainder: AtomicI64,
    schedule: AtomicU64,
    counters: AtomicU64,
    last: Vec<AtomicI32>,
}

impl PublishedCheckpoint {
    /// The channels of the last frame.
    pub closed spec fn channels(&self) -> nat {
        self.last@.len()
    }

    /// Nothing is published yet, and the last frame is silence.
    pub closed spec fn is_fresh(&self) -> bool {
        &&& made_bool(self.valid, false)
        &&& made_u64(self.output_frames, 0)
        &&& made_usize(self.index, 0)
        &&& forall|i: int| 0 <= i < self.last@.len() ==> made_i32(#[trigger] self.last@[i], 0)
    }

    /// The words of a publication were stored.
    pub closed spec fn stores(&self, words: CheckpointWords) -> bool {
        &&& put_u64(self.retired_through, words.retired_through)
        &&& put_usize(self.index, words.index)
        &&& put_i64(self.cursor_us, words.cursor_us)
        &&& put_i64(self.cursor_remainder, words.cursor_remainder)
        &&& put_u64(self.schedule, words.schedule)
        &&& put_u64(self.counters, words.counters)
    }

    /// A frame was stored as the last one.
    pub closed spec fn stores_frame(&self, frame: Seq<i32>) -> bool {
        forall|i: int|
            0 <= i < self.last@.len() ==> put_i32(#[trigger] self.last@[i], frame[i])
    }

    /// So much output was added.
    pub closed spec fn adds_output(&self, visited: int) -> bool {
        added(self.output_frames, visited as u64)
    }

    /// What is published was made valid, or invalid.
    pub closed spec fn sets_valid(&self, valid: bool) -> bool {
        put_bool(self.valid, valid)
    }

    /// The output and the place in the source were forgotten.
    pub closed spec fn forgets_output(&self) -> bool {
        &&& put_u64(self.output_frames, 0)
        &&& put_usize(self.index, 0)
    }

    /// Whether what is published is valid was read.
    pub closed spec fn reads_valid(&self, valid: bool) -> bool {
        got_bool(self.valid, valid)
    }

    /// The output was read.
    pub closed spec fn reads_output(&self, output_frames: u64) -> bool {
        got_u64(self.output_frames, output_frames)
    }

    /// Whether what is published counts was read once more.
    pub closed spec fn reads_valid_again(&self, valid: bool) -> bool {
        call_ensures(PublishedCheckpoint::valid_again, (self,), valid)
    }

    /// The place in the source was read.
    pub closed spec fn reads_index(&self, index: usize) -> bool {
        got_usize(self.index, index)
    }

    /// All of this was read from the cells.
    pub closed spec fn reads(&self, memory: Memory) -> bool {
        &&& got_bool(self.valid, memory.valid)
        &&& got_u64(self.output_frames, memory.output_frames)
        &&& got_u64(self.retired_through, memory.words.retired_through)
        &&& got_usize(self.index, memory.words.index)
        &&& got_i64(self.cursor_us, memory.words.cursor_us)
        &&& got_i64(self.cursor_remainder, memory.words.cursor_remainder)
        &&& got_u64(self.schedule, memory.words.schedule)
        &&& got_u64(self.counters, memory.words.counters)
        &&& memory.last.len() == self.last@.len()
        &&& forall|i: int|
            0 <= i < self.last@.len() ==> got_i32(self.last@[i], #[trigger] memory.last[i])
    }

    /// An operation was made on the cells, as the model has it. A read leaves them alone.
    pub open spec fn makes(&self, step: CheckpointStep) -> bool {
        match step {
            CheckpointStep::Publish { cadence, position, visited, last } => {
                &&& self.adds_output(visited as int)
                &&& self.stores(checkpoint_words(cadence, position))
                &&& last matches Some(frame) ==> self.stores_frame(frame)
                &&& self.sets_valid(true)
            },
            CheckpointStep::Read => true,
            CheckpointStep::InvalidateForReanchor => self.sets_valid(false),
            CheckpointStep::InvalidateAfterClear => {
                &&& self.sets_valid(false)
                &&& self.forgets_output()
                &&& self.stores_frame(Seq::new(self.channels(), |i: int| 0i32))
            },
        }
    }

    /// A reading under an observation found this. Nothing is read under an active callback,
    /// and only the validity where what is published does not count.
    pub open spec fn finds(
        &self,
        gate: ControlGate,
        seen: GateView,
        progress: AtomicU64,
        found: ReadFound,
    ) -> bool {
        !seen.says().active ==> {
            &&& self.reads_valid(found.memory.valid)
            &&& found.memory.valid ==> {
                &&& self.reads(found.memory)
                &&& got_u64(progress, found.source_frames)
                &&& self.reads_valid_again(found.still)
                &&& gate.validates(seen, found.stood)
            }
        }
    }

    /// A reading under an observation was tried, and this came of it: what the model reads
    /// of the cells, as long as they were valid before and after and the observation stood.
    pub open spec fn is_read(
        &self,
        gate: ControlGate,
        seen: GateView,
        progress: AtomicU64,
        read: Option<Found>,
    ) -> bool {
        exists|found: ReadFound| #[trigger]
            self.finds(gate, seen, progress, found) && read == if coherent(
                seen.says().active,
                found.memory.valid,
                found.still,
                found.stood,
            ) {
                found.memory.read(seen.current, found.source_frames)
            } else {
                None
            }
    }

    pub fn new(channels: usize) -> (checkpoint: PublishedCheckpoint)
        ensures
            checkpoint.channels() == channels,
            checkpoint.is_fresh(),
    {
        let mut last: Vec<AtomicI32> = Vec::new();
        let mut i: usize = 0;
        while i < channels
            invariant
                i <= channels,
                last@.len() == i,
                forall|k: int| 0 <= k < i ==> made_i32(#[trigger] last@[k], 0),
            decreases channels - i,
        {
            last.push(AtomicI32::new(0));
            i += 1;
        }
        PublishedCheckpoint {
            valid: AtomicBool::new(false),
            output_frames: AtomicU64::new(0),
            retired_through: AtomicU64::new(0),
            index: AtomicUsize::new(0),
            cursor_us: AtomicI64::new(0),
            cursor_remainder: AtomicI64::new(0),
            schedule: AtomicU64::new(0),
            counters: AtomicU64::new(0),
            last,
        }
    }

    /// Publish what a callback has reached: `visited` frames more were output, and
    /// `last` is the frame output last, if there was one.
    pub fn publish(
        &self,
        cadence: Cadence,
        position: SourcePosition,
        visited: usize,
        last: Option<&[i32]>,
    )
        requires
            last matches Some(frame) ==> frame@.len() == self.channels(),
        ensures
            self.makes(
                CheckpointStep::Publish {
                    cadence,
                    position,
                    visited,
                    last: match last {
                        Some(frame) => Some(frame@),
                        None => None,
                    },
                },
            ),
    {
        let more: u64 = widened(visited);
        let before: u64 = self.output_frames.fetch_add(more, Ordering::Relaxed);
        assert(added_to(self.output_frames, more, before));
        let words = encode_checkpoint(cadence, position);
        self.retired_through.store(words.retired_through, Ordering::Relaxed);
        self.index.store(words.index, Ordering::Relaxed);
        self.cursor_us.store(words.cursor_us, Ordering::Relaxed);
        self.cursor_remainder.store(words.cursor_remainder, Ordering::Relaxed);
        self.schedule.store(words.schedule, Ordering::Relaxed);
        self.counters.store(words.counters, Ordering::Relaxed);
        match last {
            Some(frame) => {
                let mut i: usize = 0;
                while i < self.last.len()
                    invariant
                        i <= self.last@.len(),
                        frame@.len() == self.last@.len(),
                        forall|k: int|
                            0 <= k < i ==> put_i32(#[trigger] self.last@[k], frame@[k]),
                    decreases self.last@.len() - i,
                {
                    self.last[i].store(frame[i], Ordering::Relaxed);
                    i += 1;
                }
            },
            None => {},
        }
        self.valid.store(true, Ordering::Release);
    }

    /// The channels of the last frame.
    pub fn frame_channels(&self) -> (channels: usize)
        ensures
            channels == self.channels(),
    {
        self.last.len()
    }

    pub fn output_frames(&self) -> (frames: u64)
        ensures
            self.reads_output(frames),
    {
        self.output_frames.load(Ordering::Relaxed)
    }

    pub fn source_index(&self) -> (index: usize)
        ensures
            self.reads_index(index),
    {
        self.index.load(Ordering::Relaxed)
    }

    /// Whether what is published counts, once it was read.
    fn valid_again(&self) -> (valid: bool)
        ensures
            got_bool(self.valid, valid),
    {
        self.valid.load(Ordering::Acquire)
    }

    pub fn is_valid(&self) -> (valid: bool)
        ensures
            self.reads_valid(valid),
    {
        self.valid.load(Ordering::Acquire)
    }

    /// Observe the control gate and read.
    pub fn read<'a>(&self, gate: &'a ControlGate, progress: &AtomicU64) -> (snapshot: Option<
        Snapshot<'a>,
    >)
        ensures
            snapshot matches Some(s) ==> s.view.of() == gate && s.last@.len() == self.channels()
                && !s.view.seen().says().active,
            exists|seen: Option<GateView>| #[trigger]
                gate.observes(seen) && match seen {
                    Some(view) => self.is_read(*gate, view, *progress, found_of(snapshot)),
                    None => snapshot is None,
                },
    {
        match gate.observe() {
            Some(view) => {
                assert(gate.observes(Some(view.seen())));
                self.read_observed(view, progress)
            },
            None => {
                assert(gate.observes(None));
                None
            },
        }
    }

    /// Read under an observation, which is validated after the last cell was
    /// read.
    pub fn read_observed<'a>(&self, view: Observation<'a>, progress: &AtomicU64) -> (snapshot:
        Option<Snapshot<'a>>)
        ensures
            view.seen().says().active ==> snapshot is None,
            snapshot matches Some(s) ==> s.view == view && s.last@.len() == self.channels(),
            self.is_read(*view.of(), view.seen(), *progress, found_of(snapshot)),
    {
        let gate = view.gate();
        let ghost seen = view.seen();
        let active: bool = view.view().callback_active();
        let ghost mut found = ReadFound {
            memory: Memory::fresh(0),
            source_frames: 0,
            still: false,
            stood: false,
        };
        if active {
            assert(self.finds(*gate, seen, *progress, found));
            return None;
        }
        if !self.is_valid() {
            assert(self.finds(*gate, seen, *progress, found));
            return None;
        }
        let schedule: u64 = self.schedule.load(Ordering::Relaxed);
        let counters: u64 = self.counters.load(Ordering::Relaxed);
        let current: u64 = view.view().current();
        let mut last: Vec<i32> = Vec::new();
        let mut i: usize = 0;
        while i < self.last.len()
            invariant
                i <= self.last@.len(),
                last@.len() == i,
                forall|k: int| 0 <= k < i ==> got_i32(self.last@[k], #[trigger] last@[k]),
            decreases self.last@.len() - i,
        {
            last.push(self.last[i].load(Ordering::Relaxed));
            i += 1;
        }
        let source_frames: u64 = progress.load(Ordering::Acquire);
        let output_frames: u64 = self.output_frames();
        let words = CheckpointWords {
            retired_through: self.retired_through.load(Ordering::Relaxed),
            index: self.index.load(Ordering::Relaxed),
            cursor_us: self.cursor_us.load(Ordering::Relaxed),
            cursor_remainder: self.cursor_remainder.load(Ordering::Relaxed),
            schedule,
            counters,
        };
        let (cadence, position): (Cadence, SourcePosition) = decode_checkpoint(words, current);
        let still: bool = self.valid_again();
        let stood: bool = gate.validate(&view);
        proof {
            let memory = Memory { valid: true, output_frames, words, last: last@ };
            found = ReadFound { memory, source_frames, still, stood };
            assert(self.finds(*gate, seen, *progress, found));
        }
        if is_coherent(active, true, still, stood) {
            let snapshot = Snapshot {
                view,
                cadence,
                last,
                source_frames,
                output_frames,
                position,
            };
            assert(found_of(Some(snapshot)) == found.memory.read(seen.current, source_frames));
            Some(snapshot)
        } else {
            None
        }
    }

    /// What is published no longer counts: the timeline has been moved.
    pub fn invalidate_for_reanchor(&self)
        ensures
            self.makes(CheckpointStep::InvalidateForReanchor),
    {
        self.valid.store(false, Ordering::Release);
    }

    /// What is published no longer counts, and nothing has been output since: the
    /// source has been cleared. Called by the serialized owner once the clear has
    /// revoked the old output, and before a new source is published.
    pub fn invalidate_after_clear(&self)
        ensures
            self.makes(CheckpointStep::InvalidateAfterClear),
    {
        self.valid.store(false, Ordering::Release);
        self.output_frames.store(0, Ordering::Relaxed);
        self.index.store(0, Ordering::Relaxed);
        let mut i: usize = 0;
        while i < self.last.len()
            invariant
                i <= self.last@.len(),
                forall|k: int| 0 <= k < i ==> put_i32(#[trigger] self.last@[k], 0),
            decreases self.last@.len() - i,
        {
            self.last[i].store(0, Ordering::Relaxed);
            i += 1;
        }
    }
}

/// What a reading of the cells came upon is what the model's memory holds, and nothing
/// interfered with it.
pub open spec fn came_upon(
    checkpoint: PublishedCheckpoint,
    gate: ControlGate,
    seen: GateView,
    progress: AtomicU64,
    memory: Memory,
    frames: u64,
) -> bool {
    forall|found: ReadFound| #[trigger]
        checkpoint.finds(gate, seen, progress, found) ==> {
            &&& found.memory.valid == memory.valid
            &&& memory.valid ==> found.memory == memory && found.source_frames == frames
                && found.still && found.stood
        }
}

/// A reading follows the model: as long as the cells hold what the operations that were made
/// on them leave in the model, a read that nothing interferes with gives what the model's
/// read gives. So what the laws of the model say of a history of operations, a reading after
/// these operations gives back.
pub proof fn a_reading_follows_the_model(
    checkpoint: PublishedCheckpoint,
    gate: ControlGate,
    seen: GateView,
    progress: AtomicU64,
    read: Option<Found>,
    steps: Seq<CheckpointStep>,
    frames: u64,
)
    requires
        forall|i: int| 0 <= i < steps.len() ==> checkpoint.makes(#[trigger] steps[i]),
        checkpoint.is_read(gate, seen, progress, read),
        !seen.says().active,
        came_upon(
            checkpoint,
            gate,
            seen,
            progress,
            Memory::fresh(checkpoint.channels()).after_all(steps),
            frames,
        ),
    ensures
        read == Memory::fresh(checkpoint.channels()).after_all(steps).read(seen.current, frames),
{
}

} // verus!
