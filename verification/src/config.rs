//! What the user configures: the router to watch and the services to show.

use vstd::prelude::*;

verus! {

/// How to reach the router.
#[derive(Clone, Debug, PartialEq, Eq)]
pub struct Ssh {
    pub hostname: String,
    pub username: String,
}

/// A service that the user describes: its name, its executable and, where
/// it keeps one, its pid file.
#[derive(Clone, Debug, PartialEq, Eq)]
pub struct CustomService {
    pub name: String,
    pub executable: String,
    pub pidfile: Option<String>,
}

/// The services to show, besides those of installed packages: built-in
/// services, given by name, and services that the user describes.
#[derive(Clone, Debug, PartialEq, Eq)]
pub struct Services {
    pub builtin: Vec<String>,
    pub custom: Vec<CustomService>,
}

/// The configuration of the dashboard.
#[derive(Clone, Debug, PartialEq, Eq)]
pub struct Config {
    pub ssh: Ssh,
    pub services: Option<Services>,
}

} // verus!
