//! The gateways and what their monitors report.

use vstd::prelude::*;
use crate::error::{Error, ErrorView};
use crate::sort::{search, sort_unique, strictly_ordered, text_le, unique_sorted};
use crate::ssh_exec::dpinger::{get_statistics, statistics_of, StatisticsView};
use crate::text::{chars_of, texts};

verus! {

/// What a monitor reports about its gateway. The latencies are in
/// microseconds, the loss is in percent.
#[derive(Clone, Copy, Debug, PartialEq, Eq, Structural)]
pub struct Gateway {
    pub latency_average: u64,
    pub latency_stddev: u64,
    pub ping_packet_loss: u64,
}

/// The gateways, sorted by name and each of them once, with what was
/// reported about each in the last update. A gateway of which nothing was
/// reported has no monitor running.
#[derive(Debug)]
pub struct Gateways {
    names: Vec<String>,
    states: Vec<Option<Gateway>>,
}

/// The names of the gateways of a configuration.
pub open spec fn gateway_names(gateways: Seq<crate::pfconfig::Gateway>) -> Seq<Seq<char>> {
    gateways.map_values(|gateway: crate::pfconfig::Gateway| gateway.name@)
}

/// The reports that the lines before the first line that writes none
/// write: all reports, where every line writes one.
pub open spec fn leading_reports(lines: Seq<Seq<char>>) -> Seq<StatisticsView>
    decreases lines.len(),
{
    if lines.len() == 0 {
        Seq::empty()
    } else {
        let before = leading_reports(lines.drop_last());
        match statistics_of(lines.last()) {
            Some(report) => if before.len() == lines.len() - 1 {
                before.push(report)
            } else {
                before
            },
            None => before,
        }
    }
}

/// The leading reports are the reports of the first lines, one for each,
/// and the line that follows them, if there is one, writes no report.
pub proof fn lemma_leading_reports(lines: Seq<Seq<char>>)
    ensures
        leading_reports(lines).len() <= lines.len(),
        forall|k: int|
            0 <= k < leading_reports(lines).len() ==> statistics_of(#[trigger] lines[k]) == Some(
                leading_reports(lines)[k],
            ),
        leading_reports(lines).len() < lines.len() ==> statistics_of(
            lines[leading_reports(lines).len() as int],
        ) is None,
    decreases lines.len(),
{
    if lines.len() > 0 {
        let front = lines.drop_last();
        lemma_leading_reports(front);
        assert forall|k: int| 0 <= k < leading_reports(lines).len() implies statistics_of(
            #[trigger] lines[k],
        ) == Some(leading_reports(lines)[k]) by {
            if k < leading_reports(front).len() {
                assert(front[k] == lines[k]);
            }
        }
        if leading_reports(front).len() < front.len() {
            assert(front[leading_reports(front).len() as int] == lines[leading_reports(
                front,
            ).len() as int]);
        }
    }
}

/// Once a line writes no report, the lines after it add nothing to the
/// leading reports.
pub proof fn lemma_leading_reports_end(lines: Seq<Seq<char>>, n: int)
    requires
        0 <= n <= lines.len(),
        leading_reports(lines.take(n)).len() < n,
    ensures
        leading_reports(lines) == leading_reports(lines.take(n)),
    decreases lines.len() - n,
{
    if n < lines.len() {
        assert(lines.take(n + 1).drop_last() =~= lines.take(n));
        lemma_leading_reports_end(lines, n + 1);
    } else {
        assert(lines.take(n) =~= lines);
    }
}

/// What `reports` say about the gateway `name`: what the last report about
/// it says, or nothing where no report is about it.
pub open spec fn state_of(name: Seq<char>, reports: Seq<StatisticsView>) -> Option<Gateway>
    decreases reports.len(),
{
    if reports.len() == 0 {
        None
    } else if reports.last().name == name {
        Some(
            Gateway {
                latency_average: reports.last().latency_average,
                latency_stddev: reports.last().latency_stddev,
                ping_packet_loss: reports.last().ping_packet_loss,
            },
        )
    } else {
        state_of(name, reports.drop_last())
    }
}

/// What `reports` say about each of the gateways `names`.
pub open spec fn states_of(names: Seq<Seq<char>>, reports: Seq<StatisticsView>) -> Seq<
    Option<Gateway>,
> {
    Seq::new(names.len(), |i: int| state_of(names[i], reports))
}

impl Gateways {
    /// The names are strictly ordered and each has a state.
    pub closed spec fn wf(&self) -> bool {
        &&& self.names.len() == self.states.len()
        &&& strictly_ordered(texts(self.names@))
    }

    /// The names of the gateways, in order.
    pub closed spec fn names(&self) -> Seq<Seq<char>> {
        texts(self.names@)
    }

    /// What is known of each gateway, in the order of the names.
    pub closed spec fn states(&self) -> Seq<Option<Gateway>> {
        self.states@
    }

    /// The gateways of a configuration; nothing is known of any of them.
    pub fn new(gateways: Vec<crate::pfconfig::Gateway>) -> (made: Gateways)
        ensures
            made.wf(),
            made.names() == unique_sorted(gateway_names(gateways@)),
            made.states() == Seq::new(made.names().len(), |i: int| None::<Gateway>),
    {
        let ghost all = gateway_names(gateways@);
        let mut wanted: Vec<String> = Vec::new();
        for gateway in it: gateways
            invariant
                gateway_names(it.seq()) == all,
                texts(wanted@) == all.take(it.index() as int),
        {
            let ghost before = texts(wanted@);
            wanted.push(gateway.name);
            assert(texts(wanted@) =~= before.push(gateway.name@));
        }
        assert(all.take(all.len() as int) =~= all);
        let names = sort_unique(wanted);
        let mut states: Vec<Option<Gateway>> = Vec::new();
        let mut i: usize = 0;
        while i < names.len()
            invariant
                i <= names.len(),
                states.len() == i,
                forall|k: int| 0 <= k < i ==> states@[k] is None,
            decreases names.len() - i,
        {
            states.push(None);
            i += 1;
        }
        let made = Gateways { names, states };
        made
    }

    /// Each gateway with what is known of it, in the order of the names.
    pub fn iter(&self) -> (all: Vec<(&str, Option<Gateway>)>)
        requires
            self.wf(),
        ensures
            all.len() == self.names().len(),
            forall|i: int|
                0 <= i < all.len() ==> (#[trigger] all@[i]).0@ == self.names()[i] && all@[i].1
                    == self.states()[i],
    {
        let mut all: Vec<(&str, Option<Gateway>)> = Vec::new();
        let mut i: usize = 0;
        while i < self.names.len()
            invariant
                self.wf(),
                i <= self.names.len(),
                all.len() == i,
                forall|k: int|
                    0 <= k < i ==> (#[trigger] all@[k]).0@ == self.names()[k] && all@[k].1
                        == self.states()[k],
            decreases self.names.len() - i,
        {
            all.push((self.names[i].as_str(), self.states[i]));
            i += 1;
        }
        all
    }

    /// Takes in the reports that `lines` write, one to a line. First what was
    /// known before is forgotten; then the lines are read one after another,
    /// and of each gateway is known what the last report about it says. A
    /// report about a gateway that is not among the gateways is passed over.
    /// A line that writes no report ends the update with an error: what the
    /// lines before it reported stays, and nothing of what was known before.
    pub fn update(&mut self, lines: &Vec<String>) -> (done: Result<(), Error>)
        requires
            old(self).wf(),
        ensures
            final(self).wf(),
            final(self).names() == old(self).names(),
            final(self).states() == states_of(
                old(self).names(),
                leading_reports(texts(lines@)),
            ),
            match done {
                Ok(_) => leading_reports(texts(lines@)).len() == lines.len(),
                Err(error) => {
                    &&& leading_reports(texts(lines@)).len() < lines.len()
                    &&& error@ == ErrorView::StructuredDecode("dpinger output is malformed"@)
                },
            },
    {
        let ghost written = texts(lines@);
        let ghost names = self.names();
        let count = self.states.len();
        let mut i: usize = 0;
        while i < count
            invariant
                i <= count,
                count == self.states.len(),
                self.names == old(self).names,
                forall|k: int| 0 <= k < i ==> self.states@[k] is None,
            decreases count - i,
        {
            self.states.set(i, None);
            i += 1;
        }
        assert(written.take(0) =~= Seq::<Seq<char>>::empty());
        assert(self.states@ =~= states_of(names, leading_reports(written.take(0))));
        i = 0;
        while i < lines.len()
            invariant
                i <= lines.len(),
                self.wf(),
                self.names == old(self).names,
                names == texts(self.names@),
                written == texts(lines@),
                leading_reports(written.take(i as int)).len() == i,
                self.states@ == states_of(names, leading_reports(written.take(i as int))),
            decreases lines.len() - i,
        {
            let ghost read = leading_reports(written.take(i as int));
            proof {
                assert(written.take(i + 1).drop_last() =~= written.take(i as int));
                assert(written.take(i + 1).last() == lines@[i as int]@);
            }
            match get_statistics(lines[i].as_str()) {
                Ok(report) => {
                    assert(leading_reports(written.take(i + 1)) == read.push(report@));
                    assert(read.push(report@).drop_last() =~= read);
                    let key = chars_of(report.name.as_str());
                    match search(&self.names, key.as_slice()) {
                        Ok(at) => {
                            self.states.set(
                                at,
                                Some(
                                    Gateway {
                                        latency_average: report.latency_average,
                                        latency_stddev: report.latency_stddev,
                                        ping_packet_loss: report.ping_packet_loss,
                                    },
                                ),
                            );
                            proof {
                                assert forall|k: int|
                                    0 <= k < names.len() && k != at implies names[k] != key@ by {
                                    if k < at {
                                        assert(text_le(names[k], names[at as int]) && names[k]
                                            != names[at as int]);
                                    } else {
                                        assert(text_le(names[at as int], names[k])
                                            && names[at as int] != names[k]);
                                    }
                                }
                                assert(self.states@ =~= states_of(names, read.push(report@)));
                            }
                        },
                        Err(_) => {
                            proof {
                                assert forall|k: int| 0 <= k < names.len() implies names[k]
                                    != key@ by {
                                    assert(names.contains(names[k]));
                                }
                                assert(self.states@ =~= states_of(names, read.push(report@)));
                            }
                        },
                    }
                },
                Err(error) => {
                    proof {
                        assert(leading_reports(written.take(i + 1)) == read);
                        lemma_leading_reports_end(written, i + 1);
                    }
                    return Err(error);
                },
            }
            i += 1;
        }
        assert(written.take(lines.len() as int) =~= written);
        Ok(())
    }
}

} // verus!
