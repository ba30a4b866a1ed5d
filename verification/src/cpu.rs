//! Processor time: the ticks counted in total and the ticks spent idle.

use vstd::prelude::*;
use crate::counter::{saturating_difference, CounterPair, Ratio};
use crate::decoder::{values_in, Decoder, Endianness};
use crate::error::Error;

verus! {

/// Position, among the tick counters of one sample, of the idle ticks.
pub const IDLE_POSITION: usize = 4;

/// The tick counters of the processor over the last two samples.
#[derive(Clone, Copy, Debug, PartialEq, Eq, Structural)]
pub struct Cpu {
    pub total: CounterPair,
    pub idle: CounterPair,
}

/// The sum of `values`.
pub open spec fn sum_of(values: Seq<nat>) -> nat
    decreases values.len(),
{
    if values.len() == 0 {
        0
    } else {
        sum_of(values.drop_last()) + values.last()
    }
}

/// The sum of a part of a sequence is no greater than the sum of all of it.
pub proof fn lemma_sum_of_prefix(values: Seq<nat>, n: int)
    requires
        0 <= n <= values.len(),
    ensures
        sum_of(values.take(n)) <= sum_of(values),
    decreases values.len() - n,
{
    if n < values.len() {
        lemma_sum_of_prefix(values, n + 1);
        assert(values.take(n + 1).drop_last() =~= values.take(n));
    } else {
        assert(values.take(n) =~= values);
    }
}

/// What one sample of tick counters gives: the total of all counters and the
/// idle ticks, which are the counter at `IDLE_POSITION` or zero where the
/// sample is too short to have it.
pub open spec fn sample_of(bytes: Seq<u8>, order: Endianness) -> Result<(u64, u64), Error> {
    let values = values_in(bytes, 8, order);
    if bytes.len() % 8 != 0 {
        Err(Error::CorruptBinaryStream)
    } else if sum_of(values) > u64::MAX {
        Err(Error::CounterOutOfRange)
    } else {
        Ok(
            (
                sum_of(values) as u64,
                if values.len() > IDLE_POSITION {
                    values[IDLE_POSITION as int] as u64
                } else {
                    0
                },
            ),
        )
    }
}

impl Cpu {
    /// A processor of which no sample was taken.
    pub fn new() -> (cpu: Cpu)
        ensures
            cpu.total.is_cold(),
            cpu.idle.is_cold(),
            cpu.total.current == 0,
            cpu.idle.current == 0,
    {
        Cpu { total: CounterPair::new(), idle: CounterPair::new() }
    }

    /// The share of busy ticks among the ticks between the two samples.
    pub open spec fn usage(&self) -> Option<Ratio> {
        if self.total.is_cold() {
            None
        } else {
            let ticks = saturating_difference(self.total.current, self.total.previous);
            let idle = saturating_difference(self.idle.current, self.idle.previous);
            Some(Ratio { numerator: saturating_difference(ticks, idle), denominator: ticks })
        }
    }

    /// Takes a sample from the rest of the stream: eight-byte tick counters
    /// up to its end. On an error nothing changes.
    pub fn update(&mut self, decoder: &mut Decoder) -> (done: Result<(), Error>)
        requires
            old(decoder).wf(),
        ensures
            final(decoder).wf(),
            final(decoder).order() == old(decoder).order(),
            match sample_of(old(decoder).remaining(), old(decoder).order()) {
                Ok((total, idle)) => {
                    &&& done is Ok
                    &&& final(self).total == (CounterPair {
                        previous: old(self).total.current,
                        current: total,
                    })
                    &&& final(self).idle == (CounterPair {
                        previous: old(self).idle.current,
                        current: idle,
                    })
                },
                Err(error) => done == Err::<(), Error>(error) && *final(self) == *old(self),
            },
            final(decoder).remaining() == old(decoder).remaining().skip(
                old(decoder).remaining().len() - old(decoder).remaining().len() % 8,
            ),
    {
        let ghost bytes = decoder.remaining();
        let ghost order = decoder.order();
        let values = match decoder.read_u64_sequence() {
            Ok(values) => values,
            Err(error) => {
                return Err(error);
            },
        };
        let ghost seen = values@.map_values(|v: u64| v as nat);
        let mut total: u64 = 0;
        let mut i: usize = 0;
        while i < values.len()
            invariant
                i <= values.len(),
                decoder.wf(),
                decoder.order() == order,
                decoder.remaining() == bytes.skip(bytes.len() - bytes.len() % 8),
                order == old(decoder).order(),
                bytes == old(decoder).remaining(),
                bytes.len() % 8 == 0,
                *self == *old(self),
                seen == values@.map_values(|v: u64| v as nat),
                seen == values_in(bytes, 8, order),
                total == sum_of(seen.take(i as int)),
            decreases values.len() - i,
        {
            proof {
                assert(seen.take(i + 1).drop_last() =~= seen.take(i as int));
                lemma_sum_of_prefix(seen, i + 1);
            }
            total = match total.checked_add(values[i]) {
                Some(sum) => sum,
                None => {
                    return Err(Error::CounterOutOfRange);
                },
            };
            i += 1;
        }
        assert(seen.take(values.len() as int) =~= seen);
        let idle = if values.len() > IDLE_POSITION {
            values[IDLE_POSITION]
        } else {
            0
        };
        self.total.record(total);
        self.idle.record(idle);
        Ok(())
    }

    /// The share of busy ticks among all ticks since the previous sample, as
    /// a ratio; scaled by 100 it is the usage in percent. `None` until a
    /// previous sample exists.
    pub fn usage_percent(self) -> (usage: Option<Ratio>)
        ensures
            usage == self.usage(),
            self.total.is_cold() ==> usage is None,
    {
        match self.total.delta() {
            Some(ticks) => {
                let idle = self.idle.current.saturating_sub(self.idle.previous);
                Some(Ratio { numerator: ticks.saturating_sub(idle), denominator: ticks })
            },
            None => None,
        }
    }
}

/// A processor of which only one sample was taken has no usage: it is
/// absent, which is not the same as a usage of nothing.
pub proof fn lemma_cold_cpu_has_no_usage(cpu: Cpu)
    requires
        cpu.total.is_cold(),
    ensures
        cpu.usage() is None,
{
}

/// Where the counters grew and the idle ticks did not grow by more than all
/// ticks, the usage is the busy ticks over all ticks: in percent,
/// `((total - total_previous) - (idle - idle_previous)) * 100 / (total - total_previous)`.
pub proof fn lemma_usage_of_growing_counters(cpu: Cpu)
    requires
        !cpu.total.is_cold(),
        cpu.total.current > cpu.total.previous,
        cpu.idle.current >= cpu.idle.previous,
        cpu.idle.current - cpu.idle.previous <= cpu.total.current - cpu.total.previous,
    ensures
        cpu.usage() matches Some(ratio) && ratio.scaled_value(100) == Some(
            (((cpu.total.current - cpu.total.previous) - (cpu.idle.current - cpu.idle.previous))
                * 100 / (cpu.total.current - cpu.total.previous)) as u128,
        ),
{
}

} // verus!
