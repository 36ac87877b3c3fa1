//! The sound of Teams and that of the microphone, made into one.
//!
//! The sound of Teams sets the pace: whenever a piece of it comes, as much of
//! the microphone is added to it as is there.

use std::collections::VecDeque;

use vstd::prelude::*;

verus! {

/// How many samples of the microphone wait at most: two seconds. If Teams is
/// silent for longer, the oldest are dropped.
pub const MIC_BUFFER_CAP_SAMPLES: usize = 192_000;

/// The samples of the microphone that wait to be added.
pub struct AudioMixer {
    pub mic_queue: VecDeque<i16>,
}

/// The last samples of a queue, as many as may wait.
pub open spec fn newest(s: Seq<i16>) -> Seq<i16> {
    if s.len() <= MIC_BUFFER_CAP_SAMPLES {
        s
    } else {
        s.skip(s.len() - MIC_BUFFER_CAP_SAMPLES)
    }
}

/// The sum of two samples, within the range of a sample.
pub open spec fn clamped_sum(a: i16, b: i16) -> i16 {
    if a + b > i16::MAX {
        i16::MAX
    } else if a + b < i16::MIN {
        i16::MIN
    } else {
        (a + b) as i16
    }
}

/// A piece of sound with as much of the queue added to it as there is.
pub open spec fn mix(queue: Seq<i16>, samples: Seq<i16>) -> Seq<i16> {
    Seq::new(
        samples.len(),
        |i: int|
            if i < queue.len() {
                clamped_sum(samples[i], queue[i])
            } else {
                samples[i]
            },
    )
}

/// What is left of the queue once so many samples of it were added.
pub open spec fn after(queue: Seq<i16>, count: nat) -> Seq<i16> {
    if count < queue.len() {
        queue.skip(count as int)
    } else {
        Seq::empty()
    }
}

impl AudioMixer {
    /// No more samples wait than may.
    pub open spec fn wf(&self) -> bool {
        self.mic_queue@.len() <= MIC_BUFFER_CAP_SAMPLES
    }

    /// At first no sample waits.
    pub fn new() -> (r: Self)
        ensures
            r.wf(),
            r.mic_queue@ == Seq::<i16>::empty(),
    {
        AudioMixer { mic_queue: VecDeque::new() }
    }

    /// Samples of the microphone come.
    pub fn push_mic(&mut self, samples: &[i16])
        requires
            old(self).wf(),
        ensures
            final(self).wf(),
            final(self).mic_queue@ == newest(old(self).mic_queue@ + samples@),
    {
        let ghost start = self.mic_queue@;
        let mut i: usize = 0;
        assert(start + samples@.take(0) =~= start);
        while i < samples.len()
            invariant
                i <= samples@.len(),
                self.wf(),
                self.mic_queue@ == newest(start + samples@.take(i as int)),
            decreases samples@.len() - i,
        {
            let ghost whole = start + samples@.take(i as int);
            let ghost longer = start + samples@.take(i + 1);
            assert(longer =~= whole.push(samples@[i as int]));
            if self.mic_queue.len() == MIC_BUFFER_CAP_SAMPLES {
                self.mic_queue.pop_front();
            }
            self.mic_queue.push_back(samples[i]);
            assert(self.mic_queue@ =~= newest(longer));
            i += 1;
        }
        assert(samples@.take(i as int) =~= samples@);
    }

    /// A piece of the sound of Teams comes: the piece that is recorded.
    pub fn push_loopback(&mut self, samples: &[i16]) -> (r: Vec<i16>)
        requires
            old(self).wf(),
        ensures
            final(self).wf(),
            r@ == mix(old(self).mic_queue@, samples@),
            final(self).mic_queue@ == after(old(self).mic_queue@, samples@.len()),
    {
        let ghost queue = self.mic_queue@;
        let mut mixed: Vec<i16> = Vec::new();
        let mut i: usize = 0;
        assert(after(queue, 0) =~= queue);
        while i < samples.len()
            invariant
                i <= samples@.len(),
                self.wf(),
                self.mic_queue@ == after(queue, i as nat),
                mixed@.len() == i,
                forall|j: int| 0 <= j < i ==> #[trigger] mixed@[j] == mix(queue, samples@)[j],
            decreases samples@.len() - i,
        {
            let s: i16 = samples[i];
            match self.mic_queue.pop_front() {
                Some(m) => {
                    assert(m == queue[i as int]);
                    let sum: i32 = (s as i32) + (m as i32);
                    let kept: i32 = if sum > 32767 {
                        32767
                    } else if sum < -32768 {
                        -32768
                    } else {
                        sum
                    };
                    mixed.push(kept as i16);
                },
                None => {
                    mixed.push(s);
                },
            }
            assert(self.mic_queue@ =~= after(queue, (i + 1) as nat));
            i += 1;
        }
        assert(mixed@ =~= mix(queue, samples@));
        mixed
    }
}

/// It does not matter into which pieces the sound of Teams is cut: two pieces
/// one after the other are recorded as one piece that holds both.
pub proof fn law_pieces_do_not_matter(queue: Seq<i16>, a: Seq<i16>, b: Seq<i16>)
    ensures
        mix(queue, a + b) == mix(queue, a) + mix(after(queue, a.len()), b),
        after(queue, (a + b).len()) == after(after(queue, a.len()), b.len()),
{
    let rest = after(queue, a.len());
    assert(mix(queue, a + b) =~= mix(queue, a) + mix(rest, b));
    assert(after(queue, (a + b).len()) =~= after(rest, b.len()));
}

/// Without anything from the microphone the sound of Teams is recorded as it
/// is, and silence from Teams lets the microphone through as it is.
pub proof fn law_silence_changes_nothing(queue: Seq<i16>, samples: Seq<i16>)
    ensures
        mix(Seq::empty(), samples) == samples,
        forall|i: int|
            0 <= i < samples.len() && i < queue.len() && samples[i] == 0 ==> #[trigger] mix(
                queue,
                samples,
            )[i] == queue[i],
{
    assert(mix(Seq::empty(), samples) =~= samples);
}

/// Each sample that is recorded is the sum of both sounds, or the largest or
/// smallest sample where the sum is out of range; where nothing of the microphone
/// is left it is the sound of Teams. No sample is left out.
pub proof fn law_both_sounds_are_heard(queue: Seq<i16>, samples: Seq<i16>, i: int)
    requires
        0 <= i < samples.len(),
    ensures
        mix(queue, samples).len() == samples.len(),
        i >= queue.len() ==> mix(queue, samples)[i] == samples[i],
        i < queue.len() && -32768 <= samples[i] + queue[i] <= 32767 ==> mix(queue, samples)[i]
            == samples[i] + queue[i],
        i < queue.len() && samples[i] + queue[i] > 32767 ==> mix(queue, samples)[i] == 32767,
        i < queue.len() && samples[i] + queue[i] < -32768 ==> mix(queue, samples)[i] == -32768,
{
}

/// What was added waits no longer, and what was not added still waits, in order.
/// The microphone never waits for more than its last 192000 samples, and none of
/// those is dropped.
pub proof fn law_the_newest_samples_wait(queue: Seq<i16>, count: nat)
    ensures
        after(queue, count).len() == if count < queue.len() {
            queue.len() - count
        } else {
            0
        },
        forall|i: int|
            0 <= i < after(queue, count).len() ==> #[trigger] after(queue, count)[i] == queue[count
                + i],
        newest(queue).len() == if queue.len() < 192_000 {
            queue.len() as int
        } else {
            192_000
        },
        forall|i: int|
            0 <= i < newest(queue).len() ==> #[trigger] newest(queue)[i] == queue[queue.len()
                - newest(queue).len() + i],
{
}

} // verus!
