//! What the gateway monitor reports about each gateway.

use vstd::prelude::*;
use vstd::string::StrSliceExecFns;
use crate::error::Error;
use crate::text::{chars_of, field, parse_unsigned, split, split_bounds, unsigned_literal};

verus! {

/// One report of the gateway monitor. The latencies are in microseconds, the
/// loss is in percent.
#[derive(Debug)]
pub struct Statistics {
    pub name: String,
    pub latency_average: u64,
    pub latency_stddev: u64,
    pub ping_packet_loss: u64,
}

/// A report with its name as characters.
pub struct StatisticsView {
    pub name: Seq<char>,
    pub latency_average: u64,
    pub latency_stddev: u64,
    pub ping_packet_loss: u64,
}

impl View for Statistics {
    type V = StatisticsView;

    open spec fn view(&self) -> StatisticsView {
        StatisticsView {
            name: self.name@,
            latency_average: self.latency_average,
            latency_stddev: self.latency_stddev,
            ping_packet_loss: self.ping_packet_loss,
        }
    }
}

/// The command that asks every monitor for its report.
pub fn command() -> (command: &'static str)
    ensures
        command@
            == "for f in /var/run/dpinger_*.sock; do /usr/bin/nc -U \"$f\" 2>/dev/null || :; done"@,
{
    "for f in /var/run/dpinger_*.sock; do /usr/bin/nc -U \"$f\" 2>/dev/null || :; done"
}

/// The report that `line` writes: a name and three unsigned numbers with one
/// space between each two. What follows the third number is not looked at.
pub open spec fn statistics_of(line: Seq<char>) -> Option<StatisticsView> {
    let parts = split(line, ' ');
    if parts.len() < 4 {
        None
    } else {
        match (
            unsigned_literal(parts[1], u64::MAX as nat),
            unsigned_literal(parts[2], u64::MAX as nat),
            unsigned_literal(parts[3], u64::MAX as nat),
        ) {
            (Some(average), Some(stddev), Some(loss)) => Some(
                StatisticsView {
                    name: parts[0],
                    latency_average: average as u64,
                    latency_stddev: stddev as u64,
                    ping_packet_loss: loss as u64,
                },
            ),
            _ => None,
        }
    }
}

/// The error for a line that is no report.
pub fn malformed() -> (error: Error)
    ensures
        error matches Error::StructuredDecode(detail) && detail@ == "dpinger output is malformed"@,
{
    Error::StructuredDecode("dpinger output is malformed".to_owned())
}

/// Reads one line of the output of the command.
pub fn get_statistics(line: &str) -> (report: Result<Statistics, Error>)
    ensures
        match report {
            Ok(statistics) => statistics_of(line@) == Some(statistics@),
            Err(error) => {
                &&& statistics_of(line@) is None
                &&& error matches Error::StructuredDecode(detail)
                &&& detail@ == "dpinger output is malformed"@
            },
        },
{
    let owned = chars_of(line);
    let chars = owned.as_slice();
    let bounds = split_bounds(chars, ' ');
    if bounds.len() < 4 {
        return Err(malformed());
    }
    let latency_average = match parse_unsigned(field(chars, &bounds, 1), u64::MAX) {
        Some(value) => value,
        None => {
            return Err(malformed());
        },
    };
    let latency_stddev = match parse_unsigned(field(chars, &bounds, 2), u64::MAX) {
        Some(value) => value,
        None => {
            return Err(malformed());
        },
    };
    let ping_packet_loss = match parse_unsigned(field(chars, &bounds, 3), u64::MAX) {
        Some(value) => value,
        None => {
            return Err(malformed());
        },
    };
    let (from, to) = bounds[0];
    Ok(
        Statistics {
            name: line.substring_char(from, to).to_owned(),
            latency_average,
            latency_stddev,
            ping_packet_loss,
        },
    )
}

} // verus!
