//! The model behind a dashboard for a router.
//!
//! The dashboard runs commands on the router once a second and shows what
//! they print. This crate holds everything of it that is not input or
//! output: the commands and the reading of their output, the state that is
//! kept between ticks, and the order of a tick.
//!
//! - [`decoder`] reads the binary counters that `sysctl -b` prints;
//!   [`counter`] turns counters that only grow into rates, for the
//!   processor ([`cpu`]) and for the interfaces ([`interface`]).
//! - [`firewall_logs`] reads the lines of the filter log and keeps the
//!   newest events; [`log_tailer`] says what the task that follows the log
//!   does next.
//! - [`poll`] says in which order a tick refreshes everything, and that a
//!   failure ends it.
//! - [`pfconfig`] reads the configuration of the router, an XML document.
//!
//! Texts are handled as sequences of characters ([`text`]), names are
//! ordered character by character ([`sort`]).

use vstd::prelude::*;

pub mod boot_time;
pub mod config;
pub mod counter;
pub mod cpu;
pub mod decoder;
pub mod disk;
pub mod error;
pub mod firewall_logs;
pub mod gateway;
pub mod interface;
pub mod layout;
pub mod log_tailer;
pub mod memory;
pub mod net;
pub mod pfconfig;
pub mod poll;
pub mod service;
pub mod sort;
pub mod ssh_exec;
pub mod temperature_sysctl;
pub mod text;
pub mod text_map;
pub mod version_info;
pub mod xml;

verus! {

/// Colour code for something that is either up or down.
pub fn get_color_for_up_down(is_up: bool) -> (color: &'static str)
    ensures
        is_up ==> color@ == "1;32"@,
        !is_up ==> color@ == "0;31"@,
{
    if is_up {
        "1;32"
    } else {
        "0;31"
    }
}

} // verus!
