//! Physical memory and the pages of it in use.

use vstd::prelude::*;
use crate::decoder::{rest_after, value_of, Decoder, Endianness};
use crate::error::Error;

verus! {

/// The size of memory and the number of pages in use.
#[derive(Clone, Copy, Debug, PartialEq, Eq, Structural)]
pub struct Memory {
    pub physical: u64,
    pub num_pages: u32,
    pub used_pages: u32,
}

/// The pages in use where `num_pages` pages exist and the stream gives the
/// numbers of inactive, cached and free pages, four bytes each.
pub open spec fn used_pages_of(num_pages: u32, bytes: Seq<u8>, order: Endianness) -> Result<
    u32,
    Error,
> {
    if bytes.len() < 12 {
        Err(Error::CorruptBinaryStream)
    } else {
        let inactive = value_of(bytes.subrange(0, 4), order);
        let cache = value_of(bytes.subrange(4, 8), order);
        let free = value_of(bytes.subrange(8, 12), order);
        if inactive + cache + free > num_pages {
            Err(Error::CounterOutOfRange)
        } else {
            Ok((num_pages - inactive - cache - free) as u32)
        }
    }
}

/// The memory that the stream describes: the physical size in eight bytes,
/// then the number of pages in four.
pub open spec fn memory_of(bytes: Seq<u8>, order: Endianness) -> Result<Memory, Error> {
    if bytes.len() < 12 {
        Err(Error::CorruptBinaryStream)
    } else {
        Ok(
            Memory {
                physical: value_of(bytes.subrange(0, 8), order) as u64,
                num_pages: value_of(bytes.subrange(8, 12), order) as u32,
                used_pages: 0,
            },
        )
    }
}

impl Memory {
    /// Reads the size of memory and the number of pages; no page counts as
    /// used yet.
    pub fn parse(decoder: &mut Decoder) -> (memory: Result<Memory, Error>)
        requires
            old(decoder).wf(),
        ensures
            final(decoder).wf(),
            final(decoder).order() == old(decoder).order(),
            memory == memory_of(old(decoder).remaining(), old(decoder).order()),
            final(decoder).remaining() == (if old(decoder).remaining().len() < 8 {
                old(decoder).remaining()
            } else {
                rest_after(old(decoder).remaining().skip(8), 4)
            }),
    {
        let ghost bytes = decoder.remaining();
        let physical = match decoder.read_u64() {
            Ok(value) => value,
            Err(error) => {
                return Err(error);
            },
        };
        let num_pages = match decoder.read_u32() {
            Ok(value) => value,
            Err(error) => {
                return Err(error);
            },
        };
        proof {
            assert(bytes.skip(8).take(4) =~= bytes.subrange(8, 12));
        }
        Ok(Memory { physical, num_pages, used_pages: 0 })
    }

    /// Reads the numbers of inactive, cached and free pages and takes them
    /// from the number of pages. On an error nothing changes.
    pub fn update(&mut self, decoder: &mut Decoder) -> (done: Result<(), Error>)
        requires
            old(decoder).wf(),
        ensures
            final(decoder).wf(),
            final(decoder).order() == old(decoder).order(),
            match used_pages_of(
                old(self).num_pages,
                old(decoder).remaining(),
                old(decoder).order(),
            ) {
                Ok(used) => done is Ok && *final(self) == (Memory { used_pages: used, ..*old(self) }),
                Err(error) => done == Err::<(), Error>(error) && *final(self) == *old(self),
            },
            final(decoder).remaining() == rest_after(
                rest_after(rest_after(old(decoder).remaining(), 4), 4),
                4,
            ),
    {
        let ghost bytes = decoder.remaining();
        let inactive = match decoder.read_u32() {
            Ok(value) => value,
            Err(error) => {
                return Err(error);
            },
        };
        let cache = match decoder.read_u32() {
            Ok(value) => value,
            Err(error) => {
                return Err(error);
            },
        };
        let free = match decoder.read_u32() {
            Ok(value) => value,
            Err(error) => {
                return Err(error);
            },
        };
        proof {
            assert(bytes.skip(4).take(4) =~= bytes.subrange(4, 8));
            assert(bytes.skip(4).skip(4).take(4) =~= bytes.subrange(8, 12));
        }
        let taken: u64 = inactive as u64 + cache as u64 + free as u64;
        if taken > self.num_pages as u64 {
            return Err(Error::CounterOutOfRange);
        }
        self.used_pages = (self.num_pages as u64 - taken) as u32;
        Ok(())
    }
}

} // verus!
