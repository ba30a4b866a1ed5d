//! The sysctls that are read on every tick, in one command.
//!
//! The command prints, in binary and in this order: the numbers of inactive,
//! cached and free pages; the value of every thermal sensor; the tick
//! counters of the processor. The tick counters come last because their
//! number is not known beforehand: they run to the end of the output.

use vstd::prelude::*;
use vstd::string::StringExecFns;
use crate::counter::CounterPair;
use crate::cpu::{sample_of, Cpu};
use crate::decoder::{value_of, Decoder, Endianness};
use crate::error::Error;
use crate::memory::{used_pages_of, Memory};
use crate::temperature_sysctl::TemperatureSysctl;

verus! {

/// The command that prints the values that change.
#[derive(Debug)]
pub struct Exec {
    command: String,
}

/// The part of the command that asks for the sensors of the given names,
/// each name in single quotes behind a space.
pub open spec fn sensor_arguments(names: Seq<Seq<char>>) -> Seq<char>
    decreases names.len(),
{
    if names.len() == 0 {
        Seq::empty()
    } else {
        sensor_arguments(names.drop_last()) + " '"@ + names.last() + "'"@
    }
}

/// The text of the command for the sensors of the given names.
pub open spec fn command_text(names: Seq<Seq<char>>) -> Seq<char> {
    "/sbin/sysctl -b vm.stats.vm.v_inactive_count vm.stats.vm.v_cache_count vm.stats.vm.v_free_count"@
        + sensor_arguments(names) + " kern.cp_time"@
}

/// The names of the sensors.
pub open spec fn sensor_names(sensors: Seq<TemperatureSysctl>) -> Seq<Seq<char>> {
    sensors.map_values(|sensor: TemperatureSysctl| sensor.name@)
}

/// The values of the sensors.
pub open spec fn sensor_values(sensors: Seq<TemperatureSysctl>) -> Seq<u32> {
    sensors.map_values(|sensor: TemperatureSysctl| sensor.value)
}

/// What one output of the command gives.
pub struct Batch {
    /// The number of pages in use.
    pub used_pages: u32,
    /// The value of each sensor, in the order of the sensors.
    pub sensors: Seq<u32>,
    /// The total of the tick counters.
    pub total: u64,
    /// The idle ticks.
    pub idle: u64,
}

/// What the output `bytes` gives where `num_pages` pages exist and
/// `sensors` sensors are read: the page counts in the first twelve bytes,
/// then four bytes for each sensor, then the tick counters.
pub open spec fn batch_of(num_pages: u32, sensors: nat, bytes: Seq<u8>, order: Endianness) -> Result<
    Batch,
    Error,
> {
    match used_pages_of(num_pages, bytes, order) {
        Err(error) => Err(error),
        Ok(used_pages) => if bytes.len() < 12 + 4 * sensors {
            Err(Error::CorruptBinaryStream)
        } else {
            match sample_of(bytes.skip(12 + 4 * sensors as int), order) {
                Err(error) => Err(error),
                Ok((total, idle)) => Ok(
                    Batch {
                        used_pages,
                        sensors: Seq::new(
                            sensors,
                            |i: int| value_of(bytes.subrange(12 + 4 * i, 16 + 4 * i), order) as u32,
                        ),
                        total,
                        idle,
                    },
                ),
            }
        },
    }
}

impl View for Exec {
    type V = Seq<char>;

    /// The text of the command.
    closed spec fn view(&self) -> Seq<char> {
        self.command@
    }
}

impl Exec {
    /// The command that reads, besides memory and processor, the given
    /// sensors.
    pub fn new(temperature_sysctls: &Vec<TemperatureSysctl>) -> (exec: Exec)
        ensures
            exec@ == command_text(sensor_names(temperature_sysctls@)),
    {
        let ghost names = sensor_names(temperature_sysctls@);
        let mut command = String::from_str(
            "/sbin/sysctl -b vm.stats.vm.v_inactive_count vm.stats.vm.v_cache_count vm.stats.vm.v_free_count",
        );
        let ghost head = command@;
        let mut i: usize = 0;
        while i < temperature_sysctls.len()
            invariant
                i <= temperature_sysctls.len(),
                names == sensor_names(temperature_sysctls@),
                command@ == head + sensor_arguments(names.take(i as int)),
            decreases temperature_sysctls.len() - i,
        {
            proof {
                assert(names.take(i + 1).drop_last() =~= names.take(i as int));
            }
            command.append(" '");
            command.append(temperature_sysctls[i].name.as_str());
            command.append("'");
            i += 1;
        }
        assert(names.take(temperature_sysctls.len() as int) =~= names);
        command.append(" kern.cp_time");
        Exec { command }
    }

    /// The text of the command.
    pub fn command(&self) -> (command: &str)
        ensures
            command@ == self@,
    {
        self.command.as_str()
    }

    /// Reads one output of the command into the memory, the sensors and the
    /// processor. Where the output cannot be read to its end, nothing
    /// changes.
    #[verifier::loop_isolation(false)]
    pub fn run(
        &self,
        cpu: &mut Cpu,
        memory: &mut Memory,
        temperature_sysctls: &mut Vec<TemperatureSysctl>,
        decoder: Decoder,
    ) -> (done: Result<(), Error>)
        requires
            decoder.wf(),
        ensures
            final(temperature_sysctls).len() == old(temperature_sysctls).len(),
            sensor_names(final(temperature_sysctls)@) == sensor_names(old(temperature_sysctls)@),
            match batch_of(
                old(memory).num_pages,
                old(temperature_sysctls).len() as nat,
                decoder.remaining(),
                decoder.order(),
            ) {
                Ok(batch) => {
                    &&& done is Ok
                    &&& *final(memory) == (Memory { used_pages: batch.used_pages, ..*old(memory) })
                    &&& sensor_values(final(temperature_sysctls)@) == batch.sensors
                    &&& final(cpu).total == (CounterPair {
                        previous: old(cpu).total.current,
                        current: batch.total,
                    })
                    &&& final(cpu).idle == (CounterPair {
                        previous: old(cpu).idle.current,
                        current: batch.idle,
                    })
                },
                Err(error) => {
                    &&& done == Err::<(), Error>(error)
                    &&& *final(memory) == *old(memory)
                    &&& *final(cpu) == *old(cpu)
                    &&& final(temperature_sysctls)@ == old(temperature_sysctls)@
                },
            },
    {
        let ghost bytes = decoder.remaining();
        let ghost order = decoder.order();
        let mut decoder = decoder;
        let count = temperature_sysctls.len();
        let mut new_memory = *memory;
        match new_memory.update(&mut decoder) {
            Ok(()) => {},
            Err(error) => {
                return Err(error);
            },
        }
        let mut values: Vec<u32> = Vec::new();
        let mut i: usize = 0;
        while i < count
            invariant
                i <= count,
                values.len() == i,
                decoder.wf(),
                decoder.order() == order,
                bytes.len() >= 12 + 4 * i,
                decoder.remaining() == bytes.skip(12 + 4 * i),
                forall|k: int|
                    0 <= k < i ==> (#[trigger] values@[k]) == value_of(
                        bytes.subrange(12 + 4 * k, 16 + 4 * k),
                        order,
                    ) as u32,
            decreases count - i,
        {
            let ghost before = decoder.remaining();
            match decoder.read_u32() {
                Ok(value) => {
                    proof {
                        assert(before.take(4) =~= bytes.subrange(12 + 4 * i, 16 + 4 * i));
                    }
                    values.push(value);
                },
                Err(error) => {
                    return Err(error);
                },
            }
            i += 1;
        }
        let mut new_cpu = *cpu;
        match new_cpu.update(&mut decoder) {
            Ok(()) => {},
            Err(error) => {
                return Err(error);
            },
        }
        *memory = new_memory;
        *cpu = new_cpu;
        let ghost names = sensor_names(temperature_sysctls@);
        i = 0;
        while i < count
            invariant
                i <= count,
                count == values.len(),
                count == temperature_sysctls.len(),
                sensor_names(temperature_sysctls@) == names,
                forall|k: int|
                    0 <= k < i ==> (#[trigger] temperature_sysctls@[k]).value == values@[k],
            decreases count - i,
        {
            let value = values[i];
            temperature_sysctls[i].value = value;
            i += 1;
        }
        Ok(())
    }
}

} // verus!
