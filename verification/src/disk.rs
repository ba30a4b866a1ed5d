//! The disks and their health.

use vstd::prelude::*;
use vstd::string::StrSliceExecFns;
use crate::sort::{lemma_sorted_by_name_map, sort_by_name, sorted_by_name, Named, NamedSpec};
use crate::ssh_exec::smartctl_a::{command_text, Exec};
use crate::text::{bounds_within, chars_of, fields_at, split, split_bounds, texts};

verus! {

/// A disk, the command that reports its health, and what the command
/// reported last.
#[derive(Debug)]
pub struct Disk {
    pub name: String,
    pub serial_number: String,
    pub smart_status_exec: Exec,
    pub smart_passed: bool,
    /// Degrees Celsius.
    pub temperature: u32,
}

/// A disk with its texts as characters.
pub struct DiskView {
    pub name: Seq<char>,
    pub serial_number: Seq<char>,
    pub command: Seq<char>,
    pub smart_passed: bool,
    pub temperature: u32,
}

impl View for Disk {
    type V = DiskView;

    open spec fn view(&self) -> DiskView {
        DiskView {
            name: self.name@,
            serial_number: self.serial_number@,
            command: self.smart_status_exec@,
            smart_passed: self.smart_passed,
            temperature: self.temperature,
        }
    }
}

impl NamedSpec for Disk {
    open spec fn name_view(&self) -> Seq<char> {
        self.name@
    }
}

impl NamedSpec for DiskView {
    open spec fn name_view(&self) -> Seq<char> {
        self.name
    }
}

impl Named for Disk {
    fn name(&self) -> (name: &str) {
        self.name.as_str()
    }
}

/// The disks, as views.
pub open spec fn disk_views(disks: Seq<Disk>) -> Seq<DiskView> {
    disks.map_values(|disk: Disk| disk@)
}

/// Those of `fields` that are not empty, in their order.
pub open spec fn non_empty(fields: Seq<Seq<char>>) -> Seq<Seq<char>>
    decreases fields.len(),
{
    if fields.len() == 0 {
        Seq::empty()
    } else if fields.last().len() == 0 {
        non_empty(fields.drop_last())
    } else {
        non_empty(fields.drop_last()).push(fields.last())
    }
}

/// The names of the disks that `line` lists: what stands between its
/// spaces.
pub open spec fn disk_names(line: Seq<char>) -> Seq<Seq<char>> {
    non_empty(split(line, ' '))
}

/// A disk of which no report was read.
pub open spec fn unread(name: Seq<char>, serial_number: Seq<char>) -> DiskView {
    DiskView {
        name,
        serial_number,
        command: command_text(name),
        smart_passed: false,
        temperature: 0,
    }
}

/// Disks, given by name and serial number, of which no report was read.
pub open spec fn unread_disks(identified: Seq<(String, String)>) -> Seq<DiskView> {
    identified.map_values(|pair: (String, String)| unread(pair.0@, pair.1@))
}

impl Disk {
    /// The names of the disks that `line` lists.
    pub fn names(line: &str) -> (names: Vec<String>)
        ensures
            texts(names@) == disk_names(line@),
    {
        let owned = chars_of(line);
        let chars = owned.as_slice();
        let bounds = split_bounds(chars, ' ');
        let ghost fields = split(line@, ' ');
        let mut names: Vec<String> = Vec::new();
        let mut i: usize = 0;
        while i < bounds.len()
            invariant
                i <= bounds.len(),
                chars@ == line@,
                bounds_within(bounds@, chars@.len()),
                fields_at(chars@, bounds@) == fields,
                texts(names@) == non_empty(fields.take(i as int)),
            decreases bounds.len() - i,
        {
            proof {
                assert(fields.take(i + 1).drop_last() =~= fields.take(i as int));
            }
            let (from, to) = bounds[i];
            if from < to {
                let name = line.substring_char(from, to).to_owned();
                names.push(name);
            }
            i += 1;
        }
        assert(fields.take(bounds.len() as int) =~= fields);
        names
    }

    /// A disk of which no report was read.
    pub fn new(name: String, serial_number: String) -> (disk: Disk)
        ensures
            disk@ == unread(name@, serial_number@),
    {
        let smart_status_exec = Exec::new(name.as_str());
        Disk { name, serial_number, smart_status_exec, smart_passed: false, temperature: 0 }
    }

    /// The disks of the given names and serial numbers, sorted by name.
    pub fn get_all(identified: Vec<(String, String)>) -> (disks: Vec<Disk>)
        ensures
            disk_views(disks@) == sorted_by_name(unread_disks(identified@)),
    {
        let ghost all = identified@;
        let mut found: Vec<Disk> = Vec::new();
        for pair in it: identified
            invariant
                it.seq() == all,
                disk_views(found@) == unread_disks(all.take(it.index() as int)),
        {
            let (name, serial_number) = pair;
            let disk = Disk::new(name, serial_number);
            found.push(disk);
            proof {
                assert(unread_disks(all.take(it.index() + 1)) =~= unread_disks(
                    all.take(it.index() as int),
                ).push(disk@));
            }
        }
        assert(all.take(all.len() as int) =~= all);
        let ghost unsorted = found@;
        let disks = sort_by_name(found);
        proof {
            lemma_sorted_by_name_map(unsorted, |disk: Disk| disk@);
        }
        disks
    }

    /// Takes in a report: whether the disk passed its self-test, and its
    /// temperature.
    pub fn update(&mut self, passed: bool, temperature: u32)
        ensures
            final(self)@ == (DiskView { smart_passed: passed, temperature, ..old(self)@ }),
    {
        self.smart_passed = passed;
        self.temperature = temperature;
    }
}

} // verus!
