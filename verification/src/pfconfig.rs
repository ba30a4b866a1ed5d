//! What the configuration of the router says about interfaces, gateways,
//! bridges and the services of installed packages.
//!
//! The configuration is an XML document. Of the children of its root
//! element four are looked at, those with the tags `bridges`, `interfaces`,
//! `gateways` and `installedpackages`; where a tag stands more than once,
//! the last one counts. From them come the names of the devices, sorted into
//! those that carry a gateway, those that are bridges, and the rest.

use vstd::prelude::*;
use vstd::string::StringExecFns;
use crate::error::{Error, ErrorView};
use crate::sort::{
    lemma_owner_absent, lemma_owner_is_first, owner, search, sort_unique, strictly_ordered,
    text_le, unique_sorted,
};
use crate::text::{chars_of, is_text, texts};
use crate::text_map::{collected, keys_of, pair_views, values_of, TextMap};
use crate::xml::{
    children, children_of, is_element, is_element_at, node_count, node_text, parse,
    parse_failure, root_element, root_element_of, source, tag, tag_of, text_of,
};

verus! {

/// A gateway and the device on which it is reached.
#[derive(Clone, Debug, PartialEq, Eq)]
pub struct Gateway {
    pub name: String,
    pub interface: String,
}

/// A service of an installed package.
#[derive(Clone, Debug, PartialEq, Eq)]
pub struct Service {
    pub name: String,
    pub executable: String,
}

/// What the dashboard takes from the configuration of the router.
#[derive(Clone, Debug, PartialEq, Eq)]
pub struct PfConfig {
    /// The devices of the gateways, in the order of the names of the
    /// gateways.
    pub gateway_interfaces: Vec<String>,
    /// The bridges, in the order of the document.
    pub bridge_interfaces: Vec<String>,
    /// The devices that neither carry a gateway nor are bridges, sorted.
    pub other_interfaces: Vec<String>,
    /// The gateways, sorted by name.
    pub gateways: Vec<Gateway>,
    /// The services of installed packages, in the order of the document.
    pub services: Vec<Service>,
}

/// A configuration with its texts as characters; a gateway is its name with
/// its device, a service its name with its executable.
pub struct PfConfigView {
    pub gateway_interfaces: Seq<Seq<char>>,
    pub bridge_interfaces: Seq<Seq<char>>,
    pub other_interfaces: Seq<Seq<char>>,
    pub gateways: Seq<(Seq<char>, Seq<char>)>,
    pub services: Seq<(Seq<char>, Seq<char>)>,
}

/// The gateways as pairs of name and device.
pub open spec fn gateway_pairs(gateways: Seq<Gateway>) -> Seq<(Seq<char>, Seq<char>)> {
    gateways.map_values(|gateway: Gateway| (gateway.name@, gateway.interface@))
}

/// The services as pairs of name and executable.
pub open spec fn service_pairs(services: Seq<Service>) -> Seq<(Seq<char>, Seq<char>)> {
    services.map_values(|service: Service| (service.name@, service.executable@))
}

impl View for PfConfig {
    type V = PfConfigView;

    open spec fn view(&self) -> PfConfigView {
        PfConfigView {
            gateway_interfaces: texts(self.gateway_interfaces@),
            bridge_interfaces: texts(self.bridge_interfaces@),
            other_interfaces: texts(self.other_interfaces@),
            gateways: gateway_pairs(self.gateways@),
            services: service_pairs(self.services@),
        }
    }
}

/// The four parts of the configuration that are read.
#[derive(Clone, Copy, Debug, PartialEq, Eq, Structural)]
pub enum Section {
    Bridges,
    Interfaces,
    Gateways,
    InstalledPackages,
}

/// What was read of each part, where the part was there.
pub struct Sections {
    pub bridges: Option<Seq<(Seq<char>, Seq<char>)>>,
    pub interfaces: Option<Seq<(Seq<char>, Seq<char>)>>,
    pub gateways: Option<Seq<(Seq<char>, Seq<char>)>>,
    pub installed_packages: Option<Seq<(Seq<char>, Seq<char>)>>,
}

/// Whether the tag of a node is `name`, without a namespace.
pub open spec fn has_plain_tag(document: &roxmltree::Document<'_>, node: nat, name: Seq<char>) -> bool {
    tag(document, node).0 is None && tag(document, node).1 == name
}

/// The first of the nodes `among` whose tag is `name`.
pub open spec fn first_named(
    document: &roxmltree::Document<'_>,
    among: Seq<nat>,
    name: Seq<char>,
) -> Option<nat>
    decreases among.len(),
{
    if among.len() == 0 {
        None
    } else {
        match first_named(document, among.drop_last(), name) {
            Some(node) => Some(node),
            None => if has_plain_tag(document, among.last(), name) {
                Some(among.last())
            } else {
                None
            },
        }
    }
}

/// The text of the first child of `node` whose tag is `name`. `path` names
/// the child in the errors for a child that is not there or holds no text.
pub open spec fn field_text(
    document: &roxmltree::Document<'_>,
    node: nat,
    name: Seq<char>,
    path: Seq<char>,
) -> Result<Seq<char>, ErrorView> {
    match first_named(document, children(document, node), name) {
        None => Err(not_found(path)),
        Some(child) => match node_text(document, child) {
            None => Err(ErrorView::StructuredDecode(path + " is not a text node"@)),
            Some(found) => Ok(found),
        },
    }
}

/// The tag of a part of the configuration.
pub open spec fn section_tag(section: Section) -> Seq<char> {
    match section {
        Section::Bridges => "bridges"@,
        Section::Interfaces => "interfaces"@,
        Section::Gateways => "gateways"@,
        Section::InstalledPackages => "installedpackages"@,
    }
}

/// The part of the configuration that a node is, by its tag.
pub open spec fn section_of(document: &roxmltree::Document<'_>, node: nat) -> Option<Section> {
    if has_plain_tag(document, node, section_tag(Section::Bridges)) {
        Some(Section::Bridges)
    } else if has_plain_tag(document, node, section_tag(Section::Interfaces)) {
        Some(Section::Interfaces)
    } else if has_plain_tag(document, node, section_tag(Section::Gateways)) {
        Some(Section::Gateways)
    } else if has_plain_tag(document, node, section_tag(Section::InstalledPackages)) {
        Some(Section::InstalledPackages)
    } else {
        None
    }
}

/// Whether a child of a part is one of its items: a bridge is a `bridged`,
/// an interface is any element, a gateway is a `gateway_item`, a service is
/// a `service`.
pub open spec fn is_item(document: &roxmltree::Document<'_>, node: nat, section: Section) -> bool {
    match section {
        Section::Bridges => has_plain_tag(document, node, "bridged"@),
        Section::Interfaces => is_element(document, node),
        Section::Gateways => has_plain_tag(document, node, "gateway_item"@),
        Section::InstalledPackages => has_plain_tag(document, node, "service"@),
    }
}

/// What an item says: a bridge its device, an interface its tag and its
/// device, a gateway its name and the tag of its interface, a service its
/// name and its executable.
pub open spec fn item_of(document: &roxmltree::Document<'_>, node: nat, section: Section) -> Result<
    (Seq<char>, Seq<char>),
    ErrorView,
> {
    match section {
        Section::Bridges => match field_text(
            document,
            node,
            "bridgeif"@,
            "bridges.*.bridgeif"@,
        ) {
            Ok(device) => Ok((device, Seq::empty())),
            Err(error) => Err(error),
        },
        Section::Interfaces => match field_text(document, node, "if"@, "interfaces.*.if"@) {
            Ok(device) => Ok((tag(document, node).1, device)),
            Err(error) => Err(error),
        },
        Section::Gateways => match field_text(
            document,
            node,
            "interface"@,
            "gateways.gateway_item.interface"@,
        ) {
            Ok(interface) => match field_text(
                document,
                node,
                "name"@,
                "gateways.gateway_item.name"@,
            ) {
                Ok(name) => Ok((name, interface)),
                Err(error) => Err(error),
            },
            Err(error) => Err(error),
        },
        Section::InstalledPackages => match field_text(
            document,
            node,
            "name"@,
            "installedpackages.service.name"@,
        ) {
            Ok(name) => match field_text(
                document,
                node,
                "executable"@,
                "installedpackages.service.executable"@,
            ) {
                Ok(executable) => Ok((name, executable)),
                Err(error) => Err(error),
            },
            Err(error) => Err(error),
        },
    }
}

/// What the items among the nodes `among` say, in their order, or the error
/// of the first item that cannot be read.
pub open spec fn items_of(
    document: &roxmltree::Document<'_>,
    among: Seq<nat>,
    section: Section,
) -> Result<Seq<(Seq<char>, Seq<char>)>, ErrorView>
    decreases among.len(),
{
    if among.len() == 0 {
        Ok(Seq::empty())
    } else {
        match items_of(document, among.drop_last(), section) {
            Err(error) => Err(error),
            Ok(items) => if is_item(document, among.last(), section) {
                match item_of(document, among.last(), section) {
                    Ok(item) => Ok(items.push(item)),
                    Err(error) => Err(error),
                }
            } else {
                Ok(items)
            },
        }
    }
}

/// No part was read.
pub open spec fn no_sections() -> Sections {
    Sections { bridges: None, interfaces: None, gateways: None, installed_packages: None }
}

/// `sections` with the items of one part.
pub open spec fn with_section(
    sections: Sections,
    section: Section,
    items: Seq<(Seq<char>, Seq<char>)>,
) -> Sections {
    match section {
        Section::Bridges => Sections { bridges: Some(items), ..sections },
        Section::Interfaces => Sections { interfaces: Some(items), ..sections },
        Section::Gateways => Sections { gateways: Some(items), ..sections },
        Section::InstalledPackages => Sections { installed_packages: Some(items), ..sections },
    }
}

/// The parts that stand among the nodes `among`, each with its items, or
/// the error of the first part that cannot be read.
pub open spec fn sections_of(document: &roxmltree::Document<'_>, among: Seq<nat>) -> Result<
    Sections,
    ErrorView,
>
    decreases among.len(),
{
    if among.len() == 0 {
        Ok(no_sections())
    } else {
        match sections_of(document, among.drop_last()) {
            Err(error) => Err(error),
            Ok(sections) => match section_of(document, among.last()) {
                None => Ok(sections),
                Some(section) => match items_of(
                    document,
                    children(document, among.last()),
                    section,
                ) {
                    Ok(items) => Ok(with_section(sections, section, items)),
                    Err(error) => Err(error),
                },
            },
        }
    }
}

/// The error for a gateway on an interface that is not there.
pub open spec fn missing_interface(gateway: Seq<char>, interface: Seq<char>) -> ErrorView {
    ErrorView::Configuration(
        "gateway "@ + gateway + " is defined on interface "@ + interface
            + " but this interface does not exist"@,
    )
}

/// The error for a bridge that is no interface.
pub open spec fn missing_bridge(bridge: Seq<char>) -> ErrorView {
    ErrorView::Configuration("bridge "@ + bridge + " does not exist as an interface"@)
}

/// The gateways with their devices, and the interfaces that are left. The
/// gateways are taken in their order; each takes its interface out of
/// `interfaces`, so that an interface carries one gateway at most.
pub open spec fn gateways_resolved(
    gateways: Seq<(Seq<char>, Seq<char>)>,
    interfaces: Seq<(Seq<char>, Seq<char>)>,
) -> Result<(Seq<(Seq<char>, Seq<char>)>, Seq<(Seq<char>, Seq<char>)>), ErrorView>
    decreases gateways.len(),
{
    if gateways.len() == 0 {
        Ok((Seq::empty(), interfaces))
    } else {
        match gateways_resolved(gateways.drop_last(), interfaces) {
            Err(error) => Err(error),
            Ok((done, left)) => match owner(keys_of(left), gateways.last().1) {
                Some(i) => Ok((done.push((gateways.last().0, left[i].1)), left.remove(i))),
                None => Err(missing_interface(gateways.last().0, gateways.last().1)),
            },
        }
    }
}

/// The devices that are left when the bridges are taken out of `devices`,
/// one after another.
pub open spec fn bridges_resolved(bridges: Seq<Seq<char>>, devices: Seq<Seq<char>>) -> Result<
    Seq<Seq<char>>,
    ErrorView,
>
    decreases bridges.len(),
{
    if bridges.len() == 0 {
        Ok(devices)
    } else {
        match bridges_resolved(bridges.drop_last(), devices) {
            Err(error) => Err(error),
            Ok(left) => match owner(left, bridges.last()) {
                Some(i) => Ok(left.remove(i)),
                None => Err(missing_bridge(bridges.last())),
            },
        }
    }
}

/// The configuration that the parts make. The interfaces and the gateways
/// are taken as maps, by tag and by name; the devices of the interfaces
/// that carry no gateway are sorted, each of them once, and the bridges
/// are taken out of them.
pub open spec fn resolved(
    interfaces: Seq<(Seq<char>, Seq<char>)>,
    gateways: Seq<(Seq<char>, Seq<char>)>,
    bridges: Seq<Seq<char>>,
    services: Seq<(Seq<char>, Seq<char>)>,
) -> Result<PfConfigView, ErrorView> {
    match gateways_resolved(collected(gateways), collected(interfaces)) {
        Err(error) => Err(error),
        Ok((done, left)) => match bridges_resolved(bridges, unique_sorted(values_of(left))) {
            Err(error) => Err(error),
            Ok(others) => Ok(
                PfConfigView {
                    gateway_interfaces: values_of(done),
                    bridge_interfaces: bridges,
                    other_interfaces: others,
                    gateways: done,
                    services,
                },
            ),
        },
    }
}

/// The bridges of the parts: none where the part is not there.
pub open spec fn bridges_in(sections: Sections) -> Seq<Seq<char>> {
    match sections.bridges {
        Some(items) => keys_of(items),
        None => Seq::empty(),
    }
}

/// The error for a part that the document has not.
pub open spec fn not_found(path: Seq<char>) -> ErrorView {
    ErrorView::StructuredDecode(path + " not found in config.xml"@)
}

/// The configuration that a document holds.
pub open spec fn config_of(document: &roxmltree::Document<'_>) -> Result<PfConfigView, ErrorView> {
    match sections_of(document, children(document, root_element(document))) {
        Err(error) => Err(error),
        Ok(sections) => match (sections.interfaces, sections.gateways, sections.installed_packages) {
            (None, _, _) => Err(not_found("interfaces"@)),
            (_, None, _) => Err(not_found("gateways"@)),
            (_, _, None) => Err(not_found("installed packages"@)),
            (Some(interfaces), Some(gateways), Some(services)) => resolved(
                interfaces,
                gateways,
                bridges_in(sections),
                services,
            ),
        },
    }
}

/// Whether `read` is what reading gives where `wanted` is to be read.
pub open spec fn reads<T: View>(read: Result<T, Error>, wanted: Result<T::V, ErrorView>) -> bool {
    match read {
        Ok(value) => wanted == Ok::<T::V, ErrorView>(value@),
        Err(error) => wanted == Err::<T::V, ErrorView>(error@),
    }
}

/// Whether `document` was parsed from `text` and `read` is what reading it
/// gives.
pub open spec fn holds(
    document: &roxmltree::Document<'_>,
    text: Seq<char>,
    read: Result<PfConfig, Error>,
) -> bool {
    source(document) == text && reads(read, config_of(document))
}

/// Whether `read` is what loading `text` gives: the refusal of the parser
/// where it takes the text for no document, else what reading a document
/// gives that was parsed from the text.
pub open spec fn loads(read: Result<PfConfig, Error>, text: Seq<char>) -> bool {
    match parse_failure(text) {
        Some(words) => read matches Err(error) && error@ == ErrorView::StructuredDecode(words),
        None => exists|document: &roxmltree::Document<'_>| #[trigger] holds(document, text, read),
    }
}

/// The nodes of the given numbers.
pub open spec fn as_nodes(numbers: Seq<usize>) -> Seq<nat> {
    numbers.map_values(|child: usize| child as nat)
}

fn plain_tag(document: &roxmltree::Document<'_>, node: usize, name: &str) -> (same: bool)
    requires
        node < node_count(document),
    ensures
        same == has_plain_tag(document, node as nat, name@),
{
    let (namespace, local) = tag_of(document, node);
    let chars = chars_of(local.as_str());
    namespace.is_none() && is_text(chars.as_slice(), name)
}

fn decode_error(path: &str, what: &str) -> (error: Error)
    ensures
        error@ == ErrorView::StructuredDecode(path@ + what@),
{
    let mut words = String::from_str(path);
    words.append(what);
    Error::StructuredDecode(words)
}

fn field(document: &roxmltree::Document<'_>, node: usize, name: &str, path: &str) -> (found:
    Result<String, Error>)
    requires
        node < node_count(document),
    ensures
        match found {
            Ok(value) => field_text(document, node as nat, name@, path@) == Ok::<
                Seq<char>,
                ErrorView,
            >(value@),
            Err(error) => field_text(document, node as nat, name@, path@) == Err::<
                Seq<char>,
                ErrorView,
            >(error@),
        },
{
    let among = children_of(document, node);
    let ghost nodes = children(document, node as nat);
    let mut i: usize = 0;
    while i < among.len()
        invariant
            i <= among.len(),
            nodes == as_nodes(among@),
            nodes == children(document, node as nat),
            forall|k: int| 0 <= k < among.len() ==> (#[trigger] among@[k]) < node_count(document),
            first_named(document, nodes.take(i as int), name@) is None,
        decreases among.len() - i,
    {
        proof {
            assert(nodes.take(i + 1).drop_last() =~= nodes.take(i as int));
        }
        let child = among[i];
        if plain_tag(document, child, name) {
            proof {
                lemma_first_named_found(document, nodes, name@, i + 1);
            }
            return match text_of(document, child) {
                Some(value) => Ok(value),
                None => Err(decode_error(path, " is not a text node")),
            };
        }
        i += 1;
    }
    assert(nodes.take(among.len() as int) =~= nodes);
    Err(decode_error(path, " not found in config.xml"))
}

fn item(document: &roxmltree::Document<'_>, node: usize, section: Section) -> (read: Result<
    (String, String),
    Error,
>)
    requires
        node < node_count(document),
    ensures
        match read {
            Ok(pair) => item_of(document, node as nat, section) == Ok::<
                (Seq<char>, Seq<char>),
                ErrorView,
            >((pair.0@, pair.1@)),
            Err(error) => item_of(document, node as nat, section) == Err::<
                (Seq<char>, Seq<char>),
                ErrorView,
            >(error@),
        },
{
    match section {
        Section::Bridges => match field(document, node, "bridgeif", "bridges.*.bridgeif") {
            Ok(device) => Ok((device, String::new())),
            Err(error) => Err(error),
        },
        Section::Interfaces => match field(document, node, "if", "interfaces.*.if") {
            Ok(device) => {
                let (_, name) = tag_of(document, node);
                Ok((name, device))
            },
            Err(error) => Err(error),
        },
        Section::Gateways => {
            let interface = match field(
                document,
                node,
                "interface",
                "gateways.gateway_item.interface",
            ) {
                Ok(interface) => interface,
                Err(error) => {
                    return Err(error);
                },
            };
            match field(document, node, "name", "gateways.gateway_item.name") {
                Ok(name) => Ok((name, interface)),
                Err(error) => Err(error),
            }
        },
        Section::InstalledPackages => {
            let name = match field(document, node, "name", "installedpackages.service.name") {
                Ok(name) => name,
                Err(error) => {
                    return Err(error);
                },
            };
            match field(document, node, "executable", "installedpackages.service.executable") {
                Ok(executable) => Ok((name, executable)),
                Err(error) => Err(error),
            }
        },
    }
}

fn selected(document: &roxmltree::Document<'_>, node: usize, section: Section) -> (item: bool)
    requires
        node < node_count(document),
    ensures
        item == is_item(document, node as nat, section),
{
    match section {
        Section::Bridges => plain_tag(document, node, "bridged"),
        Section::Interfaces => is_element_at(document, node),
        Section::Gateways => plain_tag(document, node, "gateway_item"),
        Section::InstalledPackages => plain_tag(document, node, "service"),
    }
}

fn items(document: &roxmltree::Document<'_>, node: usize, section: Section) -> (read: Result<
    Vec<(String, String)>,
    Error,
>)
    requires
        node < node_count(document),
    ensures
        match read {
            Ok(pairs) => items_of(document, children(document, node as nat), section) == Ok::<
                Seq<(Seq<char>, Seq<char>)>,
                ErrorView,
            >(pair_views(pairs@)),
            Err(error) => items_of(document, children(document, node as nat), section) == Err::<
                Seq<(Seq<char>, Seq<char>)>,
                ErrorView,
            >(error@),
        },
{
    let among = children_of(document, node);
    let ghost nodes = children(document, node as nat);
    let mut pairs: Vec<(String, String)> = Vec::new();
    let mut i: usize = 0;
    assert(pair_views(pairs@) =~= Seq::<(Seq<char>, Seq<char>)>::empty());
    while i < among.len()
        invariant
            i <= among.len(),
            nodes == as_nodes(among@),
            nodes == children(document, node as nat),
            forall|k: int| 0 <= k < among.len() ==> (#[trigger] among@[k]) < node_count(document),
            items_of(document, nodes.take(i as int), section) == Ok::<
                Seq<(Seq<char>, Seq<char>)>,
                ErrorView,
            >(pair_views(pairs@)),
        decreases among.len() - i,
    {
        proof {
            assert(nodes.take(i + 1).drop_last() =~= nodes.take(i as int));
        }
        let child = among[i];
        if selected(document, child, section) {
            match item(document, child, section) {
                Ok(pair) => {
                    let ghost before = pair_views(pairs@);
                    pairs.push(pair);
                    assert(pair_views(pairs@) =~= before.push((pair.0@, pair.1@)));
                },
                Err(error) => {
                    proof {
                        lemma_items_failure(document, nodes, section, i + 1);
                    }
                    return Err(error);
                },
            }
        }
        i += 1;
    }
    assert(nodes.take(among.len() as int) =~= nodes);
    Ok(pairs)
}

fn section_at(document: &roxmltree::Document<'_>, node: usize) -> (section: Option<Section>)
    requires
        node < node_count(document),
    ensures
        section == section_of(document, node as nat),
{
    if plain_tag(document, node, "bridges") {
        Some(Section::Bridges)
    } else if plain_tag(document, node, "interfaces") {
        Some(Section::Interfaces)
    } else if plain_tag(document, node, "gateways") {
        Some(Section::Gateways)
    } else if plain_tag(document, node, "installedpackages") {
        Some(Section::InstalledPackages)
    } else {
        None
    }
}

/// The texts of optional pairs.
pub open spec fn optional_pairs(pairs: Option<Vec<(String, String)>>) -> Option<
    Seq<(Seq<char>, Seq<char>)>,
> {
    match pairs {
        Some(pairs) => Some(pair_views(pairs@)),
        None => None,
    }
}

fn message(parts: &Vec<&str>) -> (words: String)
    ensures
        words@ == joined(parts@),
{
    let mut words = String::new();
    let mut i: usize = 0;
    while i < parts.len()
        invariant
            i <= parts.len(),
            words@ == joined(parts@.take(i as int)),
        decreases parts.len() - i,
    {
        proof {
            assert(parts@.take(i + 1).drop_last() =~= parts@.take(i as int));
        }
        words.append(parts[i]);
        i += 1;
    }
    assert(parts@.take(parts.len() as int) =~= parts@);
    words
}

/// The texts `parts`, one behind another.
pub open spec fn joined(parts: Seq<&str>) -> Seq<char>
    decreases parts.len(),
{
    if parts.len() == 0 {
        Seq::empty()
    } else {
        joined(parts.drop_last()) + parts.last()@
    }
}

impl PfConfig {
    /// Reads the configuration out of the text of the document. A text that
    /// is no document is refused in the words of the parser; of any other
    /// text comes what a document parsed from it holds.
    pub fn load(text: &str) -> (config: Result<PfConfig, Error>)
        ensures
            loads(config, text@),
            config matches Err(error) ==> error is StructuredDecode || error is Configuration,
    {
        match parse(text) {
            Ok(document) => {
                let config = PfConfig::from_document(&document);
                proof {
                    lemma_config_errors(&document);
                    assert(holds(&document, text@, config));
                }
                config
            },
            Err(words) => Err(Error::StructuredDecode(words)),
        }
    }

    /// Reads the configuration out of a parsed document.
    #[verifier::loop_isolation(false)]
    pub fn from_document(document: &roxmltree::Document<'_>) -> (config: Result<PfConfig, Error>)
        ensures
            reads(config, config_of(document)),
    {
        let root = root_element_of(document);
        let among = children_of(document, root);
        let ghost nodes = children(document, root as nat);
        let mut bridges: Option<Vec<(String, String)>> = None;
        let mut interfaces: Option<Vec<(String, String)>> = None;
        let mut gateways: Option<Vec<(String, String)>> = None;
        let mut installed_packages: Option<Vec<(String, String)>> = None;
        let mut i: usize = 0;
        while i < among.len()
            invariant
                i <= among.len(),
                root == root_element(document),
                nodes == as_nodes(among@),
                nodes == children(document, root as nat),
                forall|k: int|
                    0 <= k < among.len() ==> (#[trigger] among@[k]) < node_count(document),
                sections_of(document, nodes.take(i as int)) == Ok::<Sections, ErrorView>(
                    Sections {
                        bridges: optional_pairs(bridges),
                        interfaces: optional_pairs(interfaces),
                        gateways: optional_pairs(gateways),
                        installed_packages: optional_pairs(installed_packages),
                    },
                ),
            decreases among.len() - i,
        {
            proof {
                assert(nodes.take(i + 1).drop_last() =~= nodes.take(i as int));
            }
            let child = among[i];
            match section_at(document, child) {
                Some(section) => {
                    let read = match items(document, child, section) {
                        Ok(read) => read,
                        Err(error) => {
                            proof {
                                lemma_sections_failure(document, nodes, i + 1);
                            }
                            return Err(error);
                        },
                    };
                    match section {
                        Section::Bridges => {
                            bridges = Some(read);
                        },
                        Section::Interfaces => {
                            interfaces = Some(read);
                        },
                        Section::Gateways => {
                            gateways = Some(read);
                        },
                        Section::InstalledPackages => {
                            installed_packages = Some(read);
                        },
                    }
                },
                None => {},
            }
            i += 1;
        }
        assert(nodes.take(among.len() as int) =~= nodes);
        let interfaces = match interfaces {
            Some(interfaces) => interfaces,
            None => {
                return Err(decode_error("interfaces", " not found in config.xml"));
            },
        };
        let gateways = match gateways {
            Some(gateways) => gateways,
            None => {
                return Err(decode_error("gateways", " not found in config.xml"));
            },
        };
        let installed_packages = match installed_packages {
            Some(installed_packages) => installed_packages,
            None => {
                return Err(decode_error("installed packages", " not found in config.xml"));
            },
        };
        let mut names: Vec<String> = Vec::new();
        match bridges {
            Some(bridges) => {
                let ghost all = keys_of(pair_views(bridges@));
                for bridge in it: bridges
                    invariant
                        keys_of(pair_views(it.seq())) == all,
                        texts(names@) == all.take(it.index() as int),
                {
                    names.push(bridge.0);
                }
                assert(all.take(all.len() as int) =~= all);
            },
            None => {
                assert(texts(names@) =~= Seq::<Seq<char>>::empty());
            },
        }
        PfConfig::resolve(interfaces, gateways, names, installed_packages)
    }

    /// Puts the parts of a configuration together.
    #[verifier::loop_isolation(false)]
    pub fn resolve(
        interfaces: Vec<(String, String)>,
        gateways: Vec<(String, String)>,
        bridges: Vec<String>,
        services: Vec<(String, String)>,
    ) -> (config: Result<PfConfig, Error>)
        ensures
            reads(
                config,
                resolved(
                    pair_views(interfaces@),
                    pair_views(gateways@),
                    texts(bridges@),
                    pair_views(services@),
                ),
            ),
    {
        let mut left = TextMap::collect(interfaces);
        let wanted = TextMap::collect(gateways);
        let ghost sorted = wanted.entries();
        let ghost start = left.entries();
        let mut gateway_interfaces: Vec<String> = Vec::new();
        let mut made: Vec<Gateway> = Vec::new();
        let count = wanted.len();
        let mut i: usize = 0;
        assert(gateway_pairs(made@) =~= Seq::<(Seq<char>, Seq<char>)>::empty());
        while i < count
            invariant
                i <= count,
                count == sorted.len(),
                wanted.wf(),
                left.wf(),
                sorted == wanted.entries(),
                gateways_resolved(sorted.take(i as int), start) == Ok::<
                    (Seq<(Seq<char>, Seq<char>)>, Seq<(Seq<char>, Seq<char>)>),
                    ErrorView,
                >((gateway_pairs(made@), left.entries())),
                texts(gateway_interfaces@) == values_of(gateway_pairs(made@)),
            decreases count - i,
        {
            proof {
                assert(sorted.take(i + 1).drop_last() =~= sorted.take(i as int));
            }
            let name = wanted.key(i);
            let key = wanted.value(i);
            let chars = chars_of(key);
            match left.remove(chars.as_slice()) {
                Some(device) => {
                    let ghost before = gateway_pairs(made@);
                    let ghost devices = texts(gateway_interfaces@);
                    gateway_interfaces.push(device.clone());
                    made.push(Gateway { name: name.to_owned(), interface: device });
                    proof {
                        assert(gateway_pairs(made@) =~= before.push((name@, device@)));
                        assert(texts(gateway_interfaces@) =~= devices.push(device@));
                    }
                },
                None => {
                    proof {
                        lemma_gateways_failure(sorted, start, i + 1);
                    }
                    let parts = vec![
                        "gateway ",
                        name,
                        " is defined on interface ",
                        key,
                        " but this interface does not exist",
                    ];
                    proof {
                        lemma_joined_five(parts@);
                    }
                    return Err(Error::Configuration(message(&parts)));
                },
            }
            i += 1;
        }
        assert(sorted.take(count as int) =~= sorted);
        let mut others = sort_unique(left.into_values());
        let ghost devices = texts(others@);
        let ghost all = texts(bridges@);
        i = 0;
        while i < bridges.len()
            invariant
                i <= bridges.len(),
                all == texts(bridges@),
                strictly_ordered(texts(others@)),
                bridges_resolved(all.take(i as int), devices) == Ok::<Seq<Seq<char>>, ErrorView>(
                    texts(others@),
                ),
            decreases bridges.len() - i,
        {
            proof {
                assert(all.take(i + 1).drop_last() =~= all.take(i as int));
            }
            let ghost held = texts(others@);
            let chars = chars_of(bridges[i].as_str());
            match search(&others, chars.as_slice()) {
                Ok(at) => {
                    proof {
                        assert forall|k: int| 0 <= k < at implies held[k] != chars@ by {
                            assert(text_le(held[k], held[at as int]) && held[k]
                                != held[at as int]);
                        }
                        lemma_owner_is_first(held, chars@, at as int);
                    }
                    let _ = others.remove(at);
                    proof {
                        assert(texts(others@) =~= held.remove(at as int));
                        assert forall|a: int, b: int|
                            0 <= a < b < held.len() - 1 implies text_le(
                            #[trigger] held.remove(at as int)[a],
                            #[trigger] held.remove(at as int)[b],
                        ) && held.remove(at as int)[a] != held.remove(at as int)[b] by {
                            let x = if a < at {
                                a
                            } else {
                                a + 1
                            };
                            let y = if b < at {
                                b
                            } else {
                                b + 1
                            };
                        }
                    }
                },
                Err(_) => {
                    proof {
                        assert forall|k: int| 0 <= k < held.len() implies held[k] != chars@ by {
                        }
                        lemma_owner_absent(held, chars@);
                        lemma_bridges_failure(all, devices, i + 1);
                    }
                    let parts = vec!["bridge ", bridges[i].as_str(), " does not exist as an interface"];
                    proof {
                        lemma_joined_three(parts@);
                    }
                    return Err(Error::Configuration(message(&parts)));
                },
            }
            i += 1;
        }
        assert(all.take(bridges.len() as int) =~= all);
        let ghost listed = pair_views(services@);
        let mut packages: Vec<Service> = Vec::new();
        for service in it: services
            invariant
                pair_views(it.seq()) == listed,
                service_pairs(packages@) == listed.take(it.index() as int),
        {
            let (name, executable) = service;
            packages.push(Service { name, executable });
        }
        assert(listed.take(listed.len() as int) =~= listed);
        Ok(
            PfConfig {
                gateway_interfaces,
                bridge_interfaces: bridges,
                other_interfaces: others,
                gateways: made,
                services: packages,
            },
        )
    }
}

/// Three texts, one behind another.
pub proof fn lemma_joined_three(parts: Seq<&str>)
    requires
        parts.len() == 3,
    ensures
        joined(parts) == parts[0]@ + parts[1]@ + parts[2]@,
{
    reveal_with_fuel(joined, 4);
}

/// Five texts, one behind another.
pub proof fn lemma_joined_five(parts: Seq<&str>)
    requires
        parts.len() == 5,
    ensures
        joined(parts) == parts[0]@ + parts[1]@ + parts[2]@ + parts[3]@ + parts[4]@,
{
    reveal_with_fuel(joined, 6);
}

/// Where one of the first `n` nodes has the tag, the first of them that has
/// it is the first of all nodes that has it.
pub proof fn lemma_first_named_found(
    document: &roxmltree::Document<'_>,
    among: Seq<nat>,
    name: Seq<char>,
    n: int,
)
    requires
        0 <= n <= among.len(),
        first_named(document, among.take(n), name) is Some,
    ensures
        first_named(document, among, name) == first_named(document, among.take(n), name),
    decreases among.len() - n,
{
    if n < among.len() {
        assert(among.take(n + 1).drop_last() =~= among.take(n));
        lemma_first_named_found(document, among, name, n + 1);
    } else {
        assert(among.take(n) =~= among);
    }
}

/// An error among the first `n` nodes is the error of all nodes.
pub proof fn lemma_items_failure(
    document: &roxmltree::Document<'_>,
    among: Seq<nat>,
    section: Section,
    n: int,
)
    requires
        0 <= n <= among.len(),
        items_of(document, among.take(n), section) is Err,
    ensures
        items_of(document, among, section) == items_of(document, among.take(n), section),
    decreases among.len() - n,
{
    if n < among.len() {
        assert(among.take(n + 1).drop_last() =~= among.take(n));
        lemma_items_failure(document, among, section, n + 1);
    } else {
        assert(among.take(n) =~= among);
    }
}

/// An error among the first `n` parts is the error of all parts.
pub proof fn lemma_sections_failure(document: &roxmltree::Document<'_>, among: Seq<nat>, n: int)
    requires
        0 <= n <= among.len(),
        sections_of(document, among.take(n)) is Err,
    ensures
        sections_of(document, among) == sections_of(document, among.take(n)),
    decreases among.len() - n,
{
    if n < among.len() {
        assert(among.take(n + 1).drop_last() =~= among.take(n));
        lemma_sections_failure(document, among, n + 1);
    } else {
        assert(among.take(n) =~= among);
    }
}

/// An error among the first `n` gateways is the error of all gateways.
pub proof fn lemma_gateways_failure(
    gateways: Seq<(Seq<char>, Seq<char>)>,
    interfaces: Seq<(Seq<char>, Seq<char>)>,
    n: int,
)
    requires
        0 <= n <= gateways.len(),
        gateways_resolved(gateways.take(n), interfaces) is Err,
    ensures
        gateways_resolved(gateways, interfaces) == gateways_resolved(gateways.take(n), interfaces),
    decreases gateways.len() - n,
{
    if n < gateways.len() {
        assert(gateways.take(n + 1).drop_last() =~= gateways.take(n));
        lemma_gateways_failure(gateways, interfaces, n + 1);
    } else {
        assert(gateways.take(n) =~= gateways);
    }
}

/// An error among the first `n` bridges is the error of all bridges.
pub proof fn lemma_bridges_failure(bridges: Seq<Seq<char>>, devices: Seq<Seq<char>>, n: int)
    requires
        0 <= n <= bridges.len(),
        bridges_resolved(bridges.take(n), devices) is Err,
    ensures
        bridges_resolved(bridges, devices) == bridges_resolved(bridges.take(n), devices),
    decreases bridges.len() - n,
{
    if n < bridges.len() {
        assert(bridges.take(n + 1).drop_last() =~= bridges.take(n));
        lemma_bridges_failure(bridges, devices, n + 1);
    } else {
        assert(bridges.take(n) =~= bridges);
    }
}

/// Reading a configuration fails in two ways only: the document has not the
/// shape of a configuration, or it names something that is not there.
pub proof fn lemma_config_errors(document: &roxmltree::Document<'_>)
    ensures
        config_of(document) matches Err(error) ==> error is StructuredDecode || error
            is Configuration,
{
    let nodes = children(document, root_element(document));
    lemma_sections_errors(document, nodes);
    match sections_of(document, nodes) {
        Ok(sections) => {
            match (sections.interfaces, sections.gateways, sections.installed_packages) {
                (Some(interfaces), Some(gateways), Some(services)) => {
                    lemma_gateways_errors(collected(gateways), collected(interfaces));
                    match gateways_resolved(collected(gateways), collected(interfaces)) {
                        Ok((done, left)) => {
                            lemma_bridges_errors(
                                bridges_in(sections),
                                unique_sorted(values_of(left)),
                            );
                        },
                        Err(_) => {},
                    }
                },
                _ => {},
            }
        },
        Err(_) => {},
    }
}

/// Reading the parts fails only for a document that has not the shape of a
/// configuration.
pub proof fn lemma_sections_errors(document: &roxmltree::Document<'_>, among: Seq<nat>)
    ensures
        sections_of(document, among) matches Err(error) ==> error is StructuredDecode,
    decreases among.len(),
{
    if among.len() > 0 {
        lemma_sections_errors(document, among.drop_last());
        match section_of(document, among.last()) {
            Some(section) => {
                lemma_items_errors(document, children(document, among.last()), section);
            },
            None => {},
        }
    }
}

/// Reading items fails only for a document that has not the shape of a
/// configuration.
pub proof fn lemma_items_errors(
    document: &roxmltree::Document<'_>,
    among: Seq<nat>,
    section: Section,
)
    ensures
        items_of(document, among, section) matches Err(error) ==> error is StructuredDecode,
    decreases among.len(),
{
    if among.len() > 0 {
        lemma_items_errors(document, among.drop_last(), section);
    }
}

/// Gateways fail only for an interface that is not there.
pub proof fn lemma_gateways_errors(
    gateways: Seq<(Seq<char>, Seq<char>)>,
    interfaces: Seq<(Seq<char>, Seq<char>)>,
)
    ensures
        gateways_resolved(gateways, interfaces) matches Err(error) ==> error is Configuration,
    decreases gateways.len(),
{
    if gateways.len() > 0 {
        lemma_gateways_errors(gateways.drop_last(), interfaces);
    }
}

/// Bridges fail only for a bridge that is no interface.
pub proof fn lemma_bridges_errors(bridges: Seq<Seq<char>>, devices: Seq<Seq<char>>)
    ensures
        bridges_resolved(bridges, devices) matches Err(error) ==> error is Configuration,
    decreases bridges.len(),
{
    if bridges.len() > 0 {
        lemma_bridges_errors(bridges.drop_last(), devices);
    }
}

} // verus!
