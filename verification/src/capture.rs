//! The sample queue between the real-time audio callback and the
//! coordinator: a bounded lock-free ring plus a growable overflow buffer.
//! The ring is shared across two threads, so no call can promise what the
//! other side does meanwhile; each half instead carries the ghost history of
//! what it has observed — the samples the ring accepted, the samples popped
//! out — and the routing around the ring is verified against those
//! histories: no sample is dropped and no sample is invented.
use vstd::prelude::*;

verus! {

use vstd::seq_lib::*;

/// Holds a `ringbuf` producer, which Verus cannot look into.
#[verifier::external_body]
pub struct RawProducer {
    inner: ringbuf::HeapProducer<i16>,
}

/// Holds a `ringbuf` consumer, which Verus cannot look into.
#[verifier::external_body]
pub struct RawConsumer {
    inner: ringbuf::HeapConsumer<i16>,
}

/// The producer half of the sample ring; lives with the real-time callback.
/// `pushed` is the history of every sample the ring has accepted through
/// this half, in order.
pub struct SampleProducer {
    pub raw: RawProducer,
    pub pushed: Ghost<Seq<i16>>,
}

/// The consumer half of the sample ring; lives with the coordinator.
/// `popped` is the history of every sample this half has taken out of the
/// ring, in order.
pub struct SampleConsumer {
    pub raw: RawConsumer,
    pub popped: Ghost<Seq<i16>>,
}

/// Relies on `HeapRb::new` and `SharedRb::split`: one bounded
/// single-producer single-consumer ring of `capacity` samples, split into
/// its two halves. `new` asserts a positive capacity (`SharedStorage::new`
/// panics on zero), so that input is excluded.
#[verifier::external_body]
fn new_raw_ring(capacity: usize) -> (halves: (RawProducer, RawConsumer))
    requires
        capacity >= 1,
{
    let ring = ringbuf::HeapRb::new(capacity);
    let (producer, consumer) = ring.split();
    (RawProducer { inner: producer }, RawConsumer { inner: consumer })
}

/// Relies on `Producer::push`: the sample enters the ring exactly when the
/// ring is not full, and the call never panics. The consumer runs on
/// another thread, so whether the push is accepted cannot be promised here.
#[verifier::external_body]
fn raw_push(producer: &mut RawProducer, sample: i16) -> (accepted: bool) {
    producer.inner.push(sample).is_ok()
}

/// Relies on `Consumer::pop`: one sample leaves the ring in arrival order,
/// or nothing when the ring is empty at the moment of the call; never
/// panics.
#[verifier::external_body]
fn raw_pop(consumer: &mut RawConsumer) -> (sample: Option<i16>) {
    consumer.inner.pop()
}

/// A fresh ring of `capacity` samples; both histories start empty.
pub fn new_sample_ring(capacity: usize) -> (halves: (SampleProducer, SampleConsumer))
    requires
        capacity >= 1,
    ensures
        halves.0.pushed@ == Seq::<i16>::empty(),
        halves.1.popped@ == Seq::<i16>::empty(),
{
    let (raw_producer, raw_consumer) = new_raw_ring(capacity);
    (
        SampleProducer { raw: raw_producer, pushed: Ghost(Seq::empty()) },
        SampleConsumer { raw: raw_consumer, popped: Ghost(Seq::empty()) },
    )
}

/// Offers one sample to the ring; the history records exactly the accepted
/// ones, in order.
pub fn ring_push(producer: &mut SampleProducer, sample: i16) -> (accepted: bool)
    ensures
        accepted ==> final(producer).pushed@ == old(producer).pushed@.push(sample),
        !accepted ==> final(producer).pushed@ == old(producer).pushed@,
{
    let accepted = raw_push(&mut producer.raw, sample);
    if accepted {
        let ghost extended = producer.pushed@.push(sample);
        producer.pushed = Ghost(extended);
    }
    accepted
}

/// Takes one sample out of the ring, appending it to the history.
pub fn ring_pop(consumer: &mut SampleConsumer) -> (sample: Option<i16>)
    ensures
        match sample {
            Option::Some(s) => final(consumer).popped@ == old(consumer).popped@.push(s),
            Option::None => final(consumer).popped@ == old(consumer).popped@,
        },
{
    let sample = raw_pop(&mut consumer.raw);
    match sample {
        Option::Some(s) => {
            let ghost extended = consumer.popped@.push(s);
            consumer.popped = Ghost(extended);
            Option::Some(s)
        },
        Option::None => Option::None,
    }
}

/// The capacity the daemon records through: thirty seconds of audio at the
/// configured rate, floored at one second of 16 kHz audio, clamped to what
/// a `usize` can carry.
pub open spec fn spec_ring_capacity(sample_rate: nat) -> nat {
    let wanted = if 30 * sample_rate >= 16000 {
        30 * sample_rate
    } else {
        16000
    };
    if wanted <= usize::MAX {
        wanted
    } else {
        usize::MAX as nat
    }
}

/// The ring capacity for a sample rate; always positive.
pub fn ring_capacity_for(sample_rate: u32) -> (c: usize)
    ensures
        c == spec_ring_capacity(sample_rate as nat),
        c >= 1,
{
    let seconds: u64 = 30;
    let wanted: u64 = (sample_rate as u64) * seconds;
    let floor: u64 = 16_000;
    let capacity: u64 = if wanted < floor {
        floor
    } else {
        wanted
    };
    if capacity <= usize::MAX as u64 {
        capacity as usize
    } else {
        usize::MAX
    }
}

/// The ring the daemon records through, sized by `ring_capacity_for`.
pub fn thirty_second_ring(sample_rate: u32) -> (halves: (SampleProducer, SampleConsumer))
    ensures
        halves.0.pushed@ == Seq::<i16>::empty(),
        halves.1.popped@ == Seq::<i16>::empty(),
{
    let capacity = ring_capacity_for(sample_rate);
    new_sample_ring(capacity)
}

/// The real-time push path: a prefix of the samples enters the ring, in
/// order; from the first refusal on (or from the start, when overflow was
/// already in force) every remaining sample goes to the overflow scratch,
/// in order. Nothing is lost and nothing is invented: the ring's accepted
/// history and the scratch together take up exactly the samples. Returns
/// whether overflow is in force afterwards.
pub fn push_samples(
    producer: &mut SampleProducer,
    scratch: &mut Vec<i16>,
    force_overflow: bool,
    samples: &Vec<i16>,
) -> (force: bool)
    ensures
        exists|k: int|
            {
                &&& 0 <= k <= samples@.len()
                &&& final(producer).pushed@ == old(producer).pushed@ + #[trigger] samples@.take(k)
                &&& final(scratch)@ == old(scratch)@ + samples@.skip(k)
                &&& force == (force_overflow || k < samples@.len())
                &&& (force_overflow ==> k == 0)
            },
{
    let mut force: bool = force_overflow;
    let ghost mut spill_from: int = samples@.len() as int;
    let mut i: usize = 0;
    proof {
        if force_overflow {
            spill_from = 0;
        }
        assert(samples@.skip(samples@.len() as int) =~= Seq::<i16>::empty());
        assert(producer.pushed@ + samples@.take(0) =~= producer.pushed@);
    }
    while i < samples.len()
        invariant
            i <= samples@.len(),
            !force ==> scratch@ == old(scratch)@ && spill_from == samples@.len()
                && producer.pushed@ == old(producer).pushed@ + samples@.take(i as int),
            force ==> 0 <= spill_from <= i && scratch@ == old(scratch)@ + samples@.subrange(
                spill_from,
                i as int,
            ) && producer.pushed@ == old(producer).pushed@ + samples@.take(spill_from),
            force ==> force_overflow || spill_from < samples@.len(),
            force_overflow ==> force && spill_from == 0,
        decreases samples@.len() - i,
    {
        let sample = samples[i];
        if force {
            scratch.push(sample);
            proof {
                assert(scratch@ =~= old(scratch)@ + samples@.subrange(spill_from, i + 1));
            }
        } else {
            let accepted = ring_push(producer, sample);
            if accepted {
                proof {
                    assert(old(producer).pushed@ + samples@.take(i + 1) =~= (old(
                        producer,
                    ).pushed@ + samples@.take(i as int)).push(samples@[i as int]));
                }
            } else {
                scratch.push(sample);
                force = true;
                proof {
                    spill_from = i as int;
                    assert(scratch@ =~= old(scratch)@ + samples@.subrange(spill_from, i + 1));
                    assert(old(producer).pushed@ + samples@.take(spill_from) =~= old(
                        producer,
                    ).pushed@ + samples@.take(i as int));
                }
            }
        }
        i = i + 1;
    }
    proof {
        if force {
            assert(samples@.subrange(spill_from, samples@.len() as int) =~= samples@.skip(
                spill_from,
            ));
            assert(scratch@ == old(scratch)@ + samples@.skip(spill_from));
        } else {
            assert(samples@.take(samples@.len() as int) =~= samples@);
            assert(scratch@ =~= old(scratch)@ + samples@.skip(samples@.len() as int));
            assert(scratch@ == old(scratch)@ + samples@.skip(samples@.len() as int));
        }
    }
    force
}

/// One coordinator drain of the ring: pops until the ring reports empty (or
/// at most `max` samples) and appends exactly what was popped, in order —
/// the popped history's growth and the buffer's growth are the same
/// samples.
pub fn drain_ring(consumer: &mut SampleConsumer, out: &mut Vec<i16>, max: usize)
    ensures
        old(consumer).popped@.is_prefix_of(final(consumer).popped@),
        final(out)@ == old(out)@ + final(consumer).popped@.skip(
            old(consumer).popped@.len() as int,
        ),
{
    let ghost base = consumer.popped@;
    let mut i: usize = 0;
    proof {
        assert(base.is_prefix_of(consumer.popped@));
        assert(consumer.popped@.skip(base.len() as int) =~= Seq::<i16>::empty());
        assert(out@ =~= old(out)@ + consumer.popped@.skip(base.len() as int));
    }
    while i < max
        invariant
            base == old(consumer).popped@,
            base.is_prefix_of(consumer.popped@),
            out@ == old(out)@ + consumer.popped@.skip(base.len() as int),
        decreases max - i,
    {
        match ring_pop(consumer) {
            Option::Some(sample) => {
                out.push(sample);
                proof {
                    assert(consumer.popped@.skip(base.len() as int) =~= consumer.popped@.drop_last(
                    ).skip(base.len() as int).push(sample));
                    assert(base.is_prefix_of(consumer.popped@)) by {
                        assert(base =~= consumer.popped@.subrange(0, base.len() as int));
                    }
                    assert(out@ =~= old(out)@ + consumer.popped@.skip(base.len() as int));
                }
            },
            Option::None => {
                return ;
            },
        }
        i = i + 1;
    }
}

/// Merges the overflow buffer into the accumulation buffer: every spilled
/// sample follows the ring samples already drained, in order, and the
/// overflow buffer is left empty. Returns how many samples were merged, so
/// the overflow condition can be logged once, not per sample.
pub fn merge_overflow(overflow: &mut Vec<i16>, out: &mut Vec<i16>) -> (drained: usize)
    ensures
        final(out)@ == old(out)@ + old(overflow)@,
        final(overflow)@.len() == 0,
        drained == old(overflow)@.len(),
{
    let drained = overflow.len();
    out.append(overflow);
    drained
}

} // verus!
