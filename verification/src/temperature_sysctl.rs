//! Thermal sensors that the system reports as sysctl values.

use vstd::prelude::*;
use crate::decoder::{rest_after, value_of, Decoder};
use crate::error::Error;
use crate::sort::{lemma_sorted_by_name_map, sort_by_name, sorted_by_name, Named, NamedSpec};
use crate::text::{chars_of, contains, find, texts};

verus! {

/// A thermal sensor: the name of its sysctl and the value read last, in
/// tenths of a kelvin.
#[derive(Debug)]
pub struct TemperatureSysctl {
    pub name: String,
    pub value: u32,
}

/// A thermal sensor with its name as characters.
pub struct TemperatureSysctlView {
    pub name: Seq<char>,
    pub value: u32,
}

impl View for TemperatureSysctl {
    type V = TemperatureSysctlView;

    open spec fn view(&self) -> TemperatureSysctlView {
        TemperatureSysctlView { name: self.name@, value: self.value }
    }
}

impl NamedSpec for TemperatureSysctl {
    open spec fn name_view(&self) -> Seq<char> {
        self.name@
    }
}

impl NamedSpec for TemperatureSysctlView {
    open spec fn name_view(&self) -> Seq<char> {
        self.name
    }
}

impl Named for TemperatureSysctl {
    fn name(&self) -> (name: &str) {
        self.name.as_str()
    }
}

/// The sensors, as views.
pub open spec fn sensor_views(sensors: Seq<TemperatureSysctl>) -> Seq<TemperatureSysctlView> {
    sensors.map_values(|sensor: TemperatureSysctl| sensor@)
}

/// The sensors among the sysctls of the given names: those whose name holds
/// `temperature`, in the order of the names, none of them read yet.
pub open spec fn sensors_among(names: Seq<Seq<char>>) -> Seq<TemperatureSysctlView>
    decreases names.len(),
{
    if names.len() == 0 {
        Seq::empty()
    } else if contains(names.last(), "temperature"@) {
        sensors_among(names.drop_last()).push(
            TemperatureSysctlView { name: names.last(), value: 0 },
        )
    } else {
        sensors_among(names.drop_last())
    }
}

impl TemperatureSysctl {
    /// The thermal sensors among the sysctls of the given names, sorted by
    /// name.
    pub fn get_all(names: Vec<String>) -> (sensors: Vec<TemperatureSysctl>)
        ensures
            sensor_views(sensors@) == sorted_by_name(sensors_among(texts(names@))),
    {
        let ghost all = texts(names@);
        let word = chars_of("temperature");
        let mut found: Vec<TemperatureSysctl> = Vec::new();
        for name in it: names
            invariant
                texts(it.seq()) == all,
                word@ == "temperature"@,
                sensor_views(found@) == sensors_among(all.take(it.index() as int)),
        {
            proof {
                assert(all.take(it.index() + 1).drop_last() =~= all.take(it.index() as int));
            }
            let chars = chars_of(name.as_str());
            if find(chars.as_slice(), word.as_slice()).is_some() {
                found.push(TemperatureSysctl { name, value: 0 });
            }
        }
        assert(all.take(all.len() as int) =~= all);
        let ghost unsorted = found@;
        let sensors = sort_by_name(found);
        proof {
            lemma_sorted_by_name_map(unsorted, |sensor: TemperatureSysctl| sensor@);
        }
        sensors
    }

    /// Reads the value of the sensor, four bytes. On an error nothing
    /// changes.
    pub fn update(&mut self, decoder: &mut Decoder) -> (done: Result<(), Error>)
        requires
            old(decoder).wf(),
        ensures
            final(decoder).wf(),
            final(decoder).order() == old(decoder).order(),
            final(self).name == old(self).name,
            final(decoder).remaining() == rest_after(old(decoder).remaining(), 4),
            match done {
                Ok(_) => {
                    &&& old(decoder).remaining().len() >= 4
                    &&& final(self).value == value_of(
                        old(decoder).remaining().take(4),
                        old(decoder).order(),
                    )
                },
                Err(error) => {
                    &&& old(decoder).remaining().len() < 4
                    &&& error == Error::CorruptBinaryStream
                    &&& *final(self) == *old(self)
                },
            },
    {
        match decoder.read_u32() {
            Ok(value) => {
                self.value = value;
                Ok(())
            },
            Err(error) => Err(error),
        }
    }
}

} // verus!
