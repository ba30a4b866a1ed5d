//! The services whose processes are watched.

use vstd::prelude::*;
use crate::config::{CustomService, Services};
use crate::error::Error;
use crate::sort::{lemma_sorted_by_name_map, sort_by_name, sorted_by_name, Named, NamedSpec};
use crate::ssh_exec::pgrep::{command_text, Exec};
use crate::text::{chars_of, is_text, texts};

verus! {

/// A service, the command that looks for its process, and whether the
/// process was found when last looked for.
#[derive(Debug)]
pub struct Service {
    pub name: String,
    pub is_running_exec: Exec,
    pub is_running: bool,
}

/// A service with its texts as characters.
pub struct ServiceView {
    pub name: Seq<char>,
    pub command: Seq<char>,
    pub is_running: bool,
}

impl View for Service {
    type V = ServiceView;

    open spec fn view(&self) -> ServiceView {
        ServiceView {
            name: self.name@,
            command: self.is_running_exec@,
            is_running: self.is_running,
        }
    }
}

impl NamedSpec for Service {
    open spec fn name_view(&self) -> Seq<char> {
        self.name@
    }
}

impl NamedSpec for ServiceView {
    open spec fn name_view(&self) -> Seq<char> {
        self.name
    }
}

impl Named for Service {
    fn name(&self) -> (name: &str) {
        self.name.as_str()
    }
}

/// The services, as views.
pub open spec fn service_views(services: Seq<Service>) -> Seq<ServiceView> {
    services.map_values(|service: Service| service@)
}

/// The executable and the pid file of a built-in service.
pub open spec fn builtin_service(name: Seq<char>) -> Option<(Seq<char>, Option<Seq<char>>)> {
    if name == "dhcpd"@ {
        Some(("dhcpd"@, None))
    } else if name == "ntpd"@ {
        Some(("ntpd"@, Some("/var/run/ntpd.pid"@)))
    } else if name == "radvd"@ {
        Some(("radvd"@, Some("/var/run/radvd.pid"@)))
    } else if name == "sshd"@ {
        Some(("sshd"@, Some("/var/run/sshd.pid"@)))
    } else if name == "syslogd"@ {
        Some(("syslogd"@, Some("/var/run/syslog.pid"@)))
    } else if name == "unbound"@ {
        Some(("unbound"@, Some("/var/run/unbound.pid"@)))
    } else {
        None
    }
}

/// A service that was not looked for yet.
pub open spec fn entry(name: Seq<char>, executable: Seq<char>, pidfile: Option<Seq<char>>) -> ServiceView {
    ServiceView { name, command: command_text(executable, pidfile), is_running: false }
}

/// The built-in services of the given names, or the first of the names that
/// is not the name of one.
pub open spec fn builtin_entries(names: Seq<Seq<char>>) -> Result<Seq<ServiceView>, Seq<char>>
    decreases names.len(),
{
    if names.len() == 0 {
        Ok(Seq::empty())
    } else {
        match builtin_entries(names.drop_last()) {
            Err(name) => Err(name),
            Ok(entries) => match builtin_service(names.last()) {
                Some((executable, pidfile)) => Ok(
                    entries.push(entry(names.last(), executable, pidfile)),
                ),
                None => Err(names.last()),
            },
        }
    }
}

/// The text of an optional string.
pub open spec fn optional_text(text: Option<String>) -> Option<Seq<char>> {
    match text {
        Some(text) => Some(text@),
        None => None,
    }
}

/// The services that the user describes.
pub open spec fn custom_entries(custom: Seq<CustomService>) -> Seq<ServiceView> {
    custom.map_values(
        |service: CustomService|
            entry(service.name@, service.executable@, optional_text(service.pidfile)),
    )
}

/// The services of installed packages; none of them keeps a pid file.
pub open spec fn package_entries(packages: Seq<crate::pfconfig::Service>) -> Seq<ServiceView> {
    packages.map_values(
        |service: crate::pfconfig::Service| entry(service.name@, service.executable@, None),
    )
}

/// The built-in names and the described services of a configuration, both
/// empty where there is none.
pub open spec fn configured(services: Option<Services>) -> (Seq<Seq<char>>, Seq<CustomService>) {
    match services {
        Some(services) => (texts(services.builtin@), services.custom@),
        None => (Seq::empty(), Seq::empty()),
    }
}

/// All services to watch, sorted by name: the built-in ones first among
/// services of one name, then the described ones, then those of installed
/// packages. A built-in name that is not known is an error.
pub open spec fn services_of(
    services: Option<Services>,
    packages: Seq<crate::pfconfig::Service>,
) -> Result<Seq<ServiceView>, Seq<char>> {
    match builtin_entries(configured(services).0) {
        Err(name) => Err(name),
        Ok(builtin) => Ok(
            sorted_by_name(
                builtin + custom_entries(configured(services).1) + package_entries(packages),
            ),
        ),
    }
}

fn builtin_lookup(name: &str) -> (found: Option<(&'static str, Option<&'static str>)>)
    ensures
        match found {
            Some((executable, pidfile)) => builtin_service(name@) == Some(
                (
                    executable@,
                    match pidfile {
                        Some(pidfile) => Some(pidfile@),
                        None => None,
                    },
                ),
            ),
            None => builtin_service(name@) is None,
        },
{
    let owned = chars_of(name);
    let chars = owned.as_slice();
    if is_text(chars, "dhcpd") {
        Some(("dhcpd", None))
    } else if is_text(chars, "ntpd") {
        Some(("ntpd", Some("/var/run/ntpd.pid")))
    } else if is_text(chars, "radvd") {
        Some(("radvd", Some("/var/run/radvd.pid")))
    } else if is_text(chars, "sshd") {
        Some(("sshd", Some("/var/run/sshd.pid")))
    } else if is_text(chars, "syslogd") {
        Some(("syslogd", Some("/var/run/syslog.pid")))
    } else if is_text(chars, "unbound") {
        Some(("unbound", Some("/var/run/unbound.pid")))
    } else {
        None
    }
}

impl Service {
    /// A service that was not looked for yet.
    pub fn new(name: String, executable: &str, pidfile: Option<&str>) -> (service: Service)
        ensures
            service@ == entry(
                name@,
                executable@,
                match pidfile {
                    Some(pidfile) => Some(pidfile@),
                    None => None,
                },
            ),
            service.name == name,
    {
        Service { name, is_running_exec: Exec::new(executable, pidfile), is_running: false }
    }

    /// All services to watch, sorted by name.
    pub fn get_all(
        services: Option<Services>,
        installed_package_services: Vec<crate::pfconfig::Service>,
    ) -> (all: Result<Vec<Service>, Error>)
        ensures
            match all {
                Ok(list) => services_of(services, installed_package_services@) == Ok::<
                    Seq<ServiceView>,
                    Seq<char>,
                >(service_views(list@)),
                Err(error) => {
                    &&& services_of(services, installed_package_services@) matches Err(name)
                    &&& error matches Error::UnknownBuiltinService(unknown)
                    &&& unknown@ == name
                },
            },
    {
        let ghost names = configured(services).0;
        let ghost described = configured(services).1;
        let (builtin, custom): (Vec<String>, Vec<CustomService>) = match services {
            Some(Services { builtin, custom }) => (builtin, custom),
            None => (Vec::new(), Vec::new()),
        };
        let mut found: Vec<Service> = Vec::new();
        assert(service_views(found@) =~= Seq::<ServiceView>::empty());
        for name in it: builtin
            invariant
                texts(it.seq()) == names,
                names == configured(services).0,
                builtin_entries(names.take(it.index() as int)) == Ok::<
                    Seq<ServiceView>,
                    Seq<char>,
                >(service_views(found@)),
        {
            proof {
                assert(names.take(it.index() + 1).drop_last() =~= names.take(it.index() as int));
            }
            match builtin_lookup(name.as_str()) {
                Some((executable, pidfile)) => {
                    let ghost before = found@;
                    let service = Service::new(name, executable, pidfile);
                    found.push(service);
                    assert(service_views(found@) =~= service_views(before).push(service@));
                },
                None => {
                    proof {
                        lemma_builtin_error(names, it.index() + 1);
                    }
                    return Err(Error::UnknownBuiltinService(name));
                },
            }
        }
        assert(names.take(names.len() as int) =~= names);
        let ghost first = service_views(found@);
        for service in it: custom
            invariant
                it.seq() == described,
                service_views(found@) == first + custom_entries(
                    described.take(it.index() as int),
                ),
        {
            let ghost before = found@;
            let CustomService { name, executable, pidfile } = service;
            let made = match &pidfile {
                Some(pidfile) => Service::new(name, executable.as_str(), Some(pidfile.as_str())),
                None => Service::new(name, executable.as_str(), None),
            };
            found.push(made);
            proof {
                assert(service_views(found@) =~= service_views(before).push(made@));
            }
        }
        assert(described.take(described.len() as int) =~= described);
        let ghost second = service_views(found@);
        let ghost packages = installed_package_services@;
        for service in it: installed_package_services
            invariant
                it.seq() == packages,
                service_views(found@) == second + package_entries(
                    packages.take(it.index() as int),
                ),
        {
            let ghost before = found@;
            let crate::pfconfig::Service { name, executable } = service;
            let made = Service::new(name, executable.as_str(), None);
            found.push(made);
            proof {
                assert(service_views(found@) =~= service_views(before).push(made@));
            }
        }
        assert(packages.take(packages.len() as int) =~= packages);
        let ghost unsorted = found@;
        let sorted = sort_by_name(found);
        proof {
            lemma_sorted_by_name_map(unsorted, |service: Service| service@);
        }
        Ok(sorted)
    }

    /// Takes in the line that the command printed.
    pub fn update(&mut self, line: &str)
        ensures
            final(self)@ == (ServiceView { is_running: line@ == "0"@, ..old(self)@ }),
            final(self).name == old(self).name,
    {
        self.is_running = Exec::is_running(line);
    }

    /// The command that looks for the process of the service.
    pub fn command(&self) -> (command: &str)
        ensures
            command@ == self@.command,
    {
        self.is_running_exec.command()
    }
}

/// An error among the first `n` names is the error of all names.
pub proof fn lemma_builtin_error(names: Seq<Seq<char>>, n: int)
    requires
        0 <= n <= names.len(),
        builtin_entries(names.take(n)) is Err,
    ensures
        builtin_entries(names) == builtin_entries(names.take(n)),
    decreases names.len() - n,
{
    if n < names.len() {
        assert(names.take(n + 1).drop_last() =~= names.take(n));
        lemma_builtin_error(names, n + 1);
    } else {
        assert(names.take(n) =~= names);
    }
}

} // verus!
