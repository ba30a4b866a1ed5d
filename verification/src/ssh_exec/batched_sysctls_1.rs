//! The sysctls that are read once, when the dashboard starts.

use vstd::prelude::*;
use crate::boot_time::{boot_time_of, BootTime};
use crate::decoder::{Decoder, Endianness};
use crate::error::Error;
use crate::memory::{memory_of, Memory};

verus! {

/// The command that prints the time of the start, the size of memory and the
/// number of pages, in binary.
pub fn command() -> (command: &'static str)
    ensures
        command@ == "/sbin/sysctl -b kern.boottime hw.physmem vm.stats.vm.v_page_count"@,
{
    "/sbin/sysctl -b kern.boottime hw.physmem vm.stats.vm.v_page_count"
}

/// What the output of the command gives: the time of the start, read from
/// the first sixteen bytes, and the memory, read from what follows.
pub open spec fn startup_of(bytes: Seq<u8>, order: Endianness) -> Result<
    (BootTime, Memory),
    Error,
> {
    match boot_time_of(bytes, order) {
        Ok(boot_time) => match memory_of(bytes.skip(16), order) {
            Ok(memory) => Ok((boot_time, memory)),
            Err(error) => Err(error),
        },
        Err(error) => Err(error),
    }
}

/// Reads the output of the command.
pub fn run(decoder: Decoder) -> (read: Result<(BootTime, Memory), Error>)
    requires
        decoder.wf(),
    ensures
        read == startup_of(decoder.remaining(), decoder.order()),
{
    let ghost bytes = decoder.remaining();
    let mut decoder = decoder;
    let boot_time = match BootTime::parse(&mut decoder) {
        Ok(boot_time) => boot_time,
        Err(error) => {
            return Err(error);
        },
    };
    assert(decoder.remaining() =~= bytes.skip(16));
    match Memory::parse(&mut decoder) {
        Ok(memory) => Ok((boot_time, memory)),
        Err(error) => Err(error),
    }
}

} // verus!
