use pfsense_dashboard::error::Error;
use pfsense_dashboard::pfconfig::{Gateway, PfConfig, Service};
use pfsense_dashboard::text_map::TextMap;

const CONFIG: &str = r#"<?xml version="1.0"?>
<pfsense>
    <version>19.1</version>
    <interfaces>
        <wan>
            <enable></enable>
            <if>igb0</if>
            <descr><![CDATA[WAN]]></descr>
        </wan>
        <lan>
            <if>bridge0</if>
        </lan>
        <!-- a comment between interfaces -->
        <opt1><if>igb1</if></opt1>
        <opt2><if>igb2</if></opt2>
        <opt3><if>igb1</if></opt3>
    </interfaces>
    <gateways>
        <gateway_item>
            <interface>wan</interface>
            <gateway>dynamic</gateway>
            <name>WAN_DHCP6</name>
        </gateway_item>
        <gateway_item>
            <name>OPT2_GW</name>
            <interface>opt2</interface>
        </gateway_item>
        <defaultgw4>WAN_DHCP</defaultgw4>
    </gateways>
    <bridges>
        <bridged>
            <members>opt1,opt3</members>
            <bridgeif>bridge0</bridgeif>
        </bridged>
    </bridges>
    <installedpackages>
        <package><name>avahi</name></package>
        <service>
            <name>avahi</name>
            <rcfile>avahi-daemon.sh</rcfile>
            <executable>avahi-daemon</executable>
        </service>
        <service><executable>b</executable><name>a</name></service>
    </installedpackages>
</pfsense>
"#;

fn strings(names: &[&str]) -> Vec<String> {
    names.iter().map(|name| name.to_string()).collect()
}

fn pairs(all: &[(&str, &str)]) -> Vec<(String, String)> {
    all.iter().map(|(a, b)| (a.to_string(), b.to_string())).collect()
}

fn shape(words: &str) -> Result<PfConfig, Error> {
    Err(Error::StructuredDecode(words.to_string()))
}

#[test]
fn configuration_is_read() {
    let config = PfConfig::load(CONFIG).expect("configuration");
    assert_eq!(
        config,
        PfConfig {
            gateway_interfaces: strings(&["igb2", "igb0"]),
            bridge_interfaces: strings(&["bridge0"]),
            other_interfaces: strings(&["igb1"]),
            gateways: vec![
                Gateway { name: "OPT2_GW".to_string(), interface: "igb2".to_string() },
                Gateway { name: "WAN_DHCP6".to_string(), interface: "igb0".to_string() },
            ],
            services: vec![
                Service { name: "avahi".to_string(), executable: "avahi-daemon".to_string() },
                Service { name: "a".to_string(), executable: "b".to_string() },
            ],
        }
    );
    let document = roxmltree::Document::parse(CONFIG).expect("document");
    assert_eq!(PfConfig::from_document(&document), Ok(config));
}

#[test]
fn text_that_is_no_document_is_an_error() {
    assert!(matches!(PfConfig::load(""), Err(Error::StructuredDecode(_))));
    assert!(matches!(PfConfig::load("<pfsense>"), Err(Error::StructuredDecode(_))));
    assert!(matches!(PfConfig::load("no xml"), Err(Error::StructuredDecode(_))));
}

#[test]
fn text_that_is_no_document_is_refused_in_the_words_of_the_parser() {
    for text in ["", "<pfsense>", "no xml", "<a></b>", "<a/><b/>", "<!DOCTYPE a []><a/>"] {
        let words = roxmltree::Document::parse(text).expect_err("no document").to_string();
        assert!(!words.is_empty());
        assert_eq!(PfConfig::load(text), Err(Error::StructuredDecode(words)), "{:?}", text);
    }
}

#[test]
fn loading_is_reading_the_parsed_document() {
    for text in [
        CONFIG,
        "<pfsense/>",
        "<p><interfaces><wan/></interfaces></p>",
        "<p><interfaces><a><if>x</if></a></interfaces><gateways><gateway_item><interface>b</interface><name>G</name></gateway_item></gateways><installedpackages/></p>",
    ] {
        let document = roxmltree::Document::parse(text).expect("document");
        assert_eq!(document.input_text(), text);
        assert_eq!(PfConfig::load(text), PfConfig::from_document(&document));
    }
}

#[test]
fn parts_have_to_be_there() {
    assert_eq!(PfConfig::load("<pfsense/>"), shape("interfaces not found in config.xml"));
    assert_eq!(
        PfConfig::load("<pfsense><gateways/><bridges/><installedpackages/></pfsense>"),
        shape("interfaces not found in config.xml")
    );
    assert_eq!(
        PfConfig::load("<pfsense><interfaces/><installedpackages/></pfsense>"),
        shape("gateways not found in config.xml")
    );
    assert_eq!(
        PfConfig::load("<pfsense><interfaces/><gateways/></pfsense>"),
        shape("installed packages not found in config.xml")
    );
    assert_eq!(
        PfConfig::load("<p><installedpackages/><gateways/><interfaces/></p>"),
        Ok(PfConfig {
            gateway_interfaces: Vec::new(),
            bridge_interfaces: Vec::new(),
            other_interfaces: Vec::new(),
            gateways: Vec::new(),
            services: Vec::new(),
        })
    );
    // A tag in a namespace is not the tag of a part.
    assert_eq!(
        PfConfig::load("<p xmlns:x='urn:x'><x:interfaces/><gateways/><installedpackages/></p>"),
        shape("interfaces not found in config.xml")
    );
    // Parts are looked for among the children of the root only.
    assert_eq!(
        PfConfig::load("<p><q><interfaces/></q><gateways/><installedpackages/></p>"),
        shape("interfaces not found in config.xml")
    );
}

fn with_parts(interfaces: &str, gateways: &str, bridges: &str, packages: &str) -> String {
    format!(
        "<p><interfaces>{}</interfaces><gateways>{}</gateways><bridges>{}</bridges><installedpackages>{}</installedpackages></p>",
        interfaces, gateways, bridges, packages
    )
}

#[test]
fn items_have_to_be_whole() {
    let load = |i: &str, g: &str, b: &str, p: &str| PfConfig::load(&with_parts(i, g, b, p));
    assert_eq!(load("<wan/>", "", "", ""), shape("interfaces.*.if not found in config.xml"));
    assert_eq!(load("<wan><if/></wan>", "", "", ""), shape("interfaces.*.if is not a text node"));
    assert_eq!(
        load("<wan><if><x/>igb0</if></wan>", "", "", ""),
        shape("interfaces.*.if is not a text node")
    );
    assert_eq!(
        load("", "<gateway_item><name>a</name></gateway_item>", "", ""),
        shape("gateways.gateway_item.interface not found in config.xml")
    );
    assert_eq!(
        load("", "<gateway_item><interface>a</interface></gateway_item>", "", ""),
        shape("gateways.gateway_item.name not found in config.xml")
    );
    assert_eq!(
        load("", "<gateway_item><interface>a</interface><name/></gateway_item>", "", ""),
        shape("gateways.gateway_item.name is not a text node")
    );
    assert_eq!(load("", "", "<bridged/>", ""), shape("bridges.*.bridgeif not found in config.xml"));
    assert_eq!(
        load("", "", "<bridged><bridgeif/></bridged>", ""),
        shape("bridges.*.bridgeif is not a text node")
    );
    assert_eq!(
        load("", "", "", "<service><executable>x</executable></service>"),
        shape("installedpackages.service.name not found in config.xml")
    );
    assert_eq!(
        load("", "", "", "<service><name>x</name></service>"),
        shape("installedpackages.service.executable not found in config.xml")
    );
    assert_eq!(
        load("", "", "", "<service><name>x</name><executable/></service>"),
        shape("installedpackages.service.executable is not a text node")
    );
    // The first error in the order of the document is the one that is reported.
    assert_eq!(load("<wan/>", "<gateway_item/>", "", ""), shape("interfaces.*.if not found in config.xml"));
    // What is no item is passed over.
    assert!(load("text<!-- c -->", "<other/>", "<other/>", "<package/>").is_ok());
    // Of two children of one tag the first counts.
    let config = load("<wan><if>a</if><if>b</if></wan>", "", "", "").expect("configuration");
    assert_eq!(config.other_interfaces, strings(&["a"]));
}

#[test]
fn last_of_repeated_parts_counts() {
    let text = "<p><interfaces><a><if>x</if></a></interfaces><gateways/><installedpackages/><interfaces><b><if>y</if></b></interfaces></p>";
    assert_eq!(PfConfig::load(text).expect("configuration").other_interfaces, strings(&["y"]));
    let text = "<p><interfaces><a/></interfaces><gateways/><installedpackages/><interfaces/></p>";
    assert_eq!(PfConfig::load(text), shape("interfaces.*.if not found in config.xml"));
}

#[test]
fn parts_are_put_together() {
    let config = PfConfig::resolve(
        pairs(&[("wan", "igb0"), ("opt1", "igb3"), ("lan", "igb1"), ("opt2", "igb1"), ("wan", "igb9")]),
        pairs(&[("B", "wan"), ("A", "lan"), ("B", "opt1")]),
        strings(&["igb1"]),
        pairs(&[("s", "e")]),
    )
    .expect("configuration");
    assert_eq!(config.gateway_interfaces, strings(&["igb1", "igb3"]));
    assert_eq!(
        config.gateways,
        vec![
            Gateway { name: "A".to_string(), interface: "igb1".to_string() },
            Gateway { name: "B".to_string(), interface: "igb3".to_string() },
        ]
    );
    assert_eq!(config.bridge_interfaces, strings(&["igb1"]));
    assert_eq!(config.other_interfaces, strings(&["igb9"]));
    assert_eq!(config.services, vec![Service { name: "s".to_string(), executable: "e".to_string() }]);
}

#[test]
fn gateway_needs_its_interface() {
    let missing = PfConfig::resolve(pairs(&[("lan", "igb1")]), pairs(&[("GW", "wan")]), Vec::new(), Vec::new());
    assert_eq!(
        missing,
        Err(Error::Configuration(
            "gateway GW is defined on interface wan but this interface does not exist".to_string()
        ))
    );
    // An interface carries one gateway at most.
    let twice = PfConfig::resolve(
        pairs(&[("wan", "igb0")]),
        pairs(&[("GW4", "wan"), ("GW6", "wan")]),
        Vec::new(),
        Vec::new(),
    );
    assert_eq!(
        twice,
        Err(Error::Configuration(
            "gateway GW6 is defined on interface wan but this interface does not exist".to_string()
        ))
    );
}

#[test]
fn bridge_has_to_be_an_interface() {
    let interfaces = pairs(&[("lan", "bridge0"), ("wan", "igb0"), ("opt1", "bridge1")]);
    let missing = PfConfig::resolve(interfaces.clone(), Vec::new(), strings(&["bridge0", "bridge2"]), Vec::new());
    assert_eq!(
        missing,
        Err(Error::Configuration("bridge bridge2 does not exist as an interface".to_string()))
    );
    let twice = PfConfig::resolve(interfaces.clone(), Vec::new(), strings(&["bridge0", "bridge0"]), Vec::new());
    assert_eq!(
        twice,
        Err(Error::Configuration("bridge bridge0 does not exist as an interface".to_string()))
    );
    // A device that carries a gateway is no bridge any more.
    let taken = PfConfig::resolve(interfaces.clone(), pairs(&[("GW", "lan")]), strings(&["bridge0"]), Vec::new());
    assert_eq!(
        taken,
        Err(Error::Configuration("bridge bridge0 does not exist as an interface".to_string()))
    );
    let config = PfConfig::resolve(interfaces, Vec::new(), strings(&["bridge1", "bridge0"]), Vec::new())
        .expect("configuration");
    assert_eq!(config.bridge_interfaces, strings(&["bridge1", "bridge0"]));
    assert_eq!(config.other_interfaces, strings(&["igb0"]));
}

#[test]
fn map_is_kept_in_the_order_of_its_keys() {
    let mut map = TextMap::collect(pairs(&[("b", "1"), ("a", "2"), ("c", "3"), ("a", "4"), ("", "5")]));
    assert_eq!(map.len(), 4);
    let entries: Vec<(&str, &str)> = (0..map.len()).map(|i| (map.key(i), map.value(i))).collect();
    assert_eq!(entries, vec![("", "5"), ("a", "4"), ("b", "1"), ("c", "3")]);
    let key: Vec<char> = "b".chars().collect();
    assert_eq!(map.remove(&key), Some("1".to_string()));
    assert_eq!(map.remove(&key), None);
    assert_eq!(map.len(), 3);
    map.insert("bb".to_string(), "6".to_string());
    map.insert("c".to_string(), "7".to_string());
    assert_eq!(map.into_values(), strings(&["5", "4", "6", "7"]));
    assert_eq!(TextMap::new().len(), 0);
}
