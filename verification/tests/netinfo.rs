use ipwatch::addr::{parse, IpAddr};
use ipwatch::netinfo::{
    adapter_dns_servers, collect, collect_dns_servers, collect_internal_ips, parse_resolv_conf,
    Adapter, NetInfo, NetInfoError, ResolvConf,
};

fn ips(list: &[&str]) -> Vec<IpAddr> {
    list.iter().map(|s| parse(s).unwrap()).collect()
}

#[test]
fn parses_multiple_nameservers_in_order() {
    let input = "nameserver 1.1.1.1\nnameserver 8.8.8.8\n";
    assert_eq!(parse_resolv_conf(input), ips(&["1.1.1.1", "8.8.8.8"]));
}

#[test]
fn ignores_comments_blank_lines_and_other_directives() {
    let input = "\
# a comment
; also a comment

search example.com
domain example.com
options timeout:2
nameserver 9.9.9.9
";
    assert_eq!(parse_resolv_conf(input), ips(&["9.9.9.9"]));
}

#[test]
fn tolerates_extra_and_tab_whitespace() {
    let input = "  nameserver\t\t127.0.0.53  \n\tnameserver   10.0.0.1\t\n";
    assert_eq!(parse_resolv_conf(input), ips(&["127.0.0.53", "10.0.0.1"]));
}

#[test]
fn parses_ipv6_nameserver() {
    let input = "nameserver 2001:4860:4860::8888\n";
    assert_eq!(parse_resolv_conf(input), ips(&["2001:4860:4860::8888"]));
}

#[test]
fn skips_malformed_nameserver_line() {
    let input = "nameserver not-an-address\nnameserver 4.4.4.4\n";
    assert_eq!(parse_resolv_conf(input), ips(&["4.4.4.4"]));
}

#[test]
fn empty_input_yields_empty_vec() {
    assert_eq!(parse_resolv_conf(""), Vec::<IpAddr>::new());
}

#[test]
fn carriage_returns_trailing_words_and_bare_directives_are_tolerated() {
    let input = "nameserver 1.1.1.1 # primary\r\nnameserver\r\nnameservers 2.2.2.2\r\n";
    assert_eq!(parse_resolv_conf(input), ips(&["1.1.1.1"]));
}

#[test]
fn loopback_interfaces_are_left_out() {
    let all = ips(&["127.0.0.1", "192.168.1.5", "::1", "fe80::1", "127.8.9.10"]);
    assert_eq!(collect_internal_ips(Ok(all)), Ok(ips(&["192.168.1.5", "fe80::1"])));
    assert_eq!(
        collect_internal_ips(Err("no netlink".to_string())),
        Err(NetInfoError::Interfaces("no netlink".to_string()))
    );
}

#[test]
fn resolvers_of_adapters_that_are_up_are_listed_once() {
    let adapters = vec![
        Adapter { up: true, dns_servers: ips(&["1.1.1.1", "8.8.8.8"]) },
        Adapter { up: false, dns_servers: ips(&["9.9.9.9"]) },
        Adapter { up: true, dns_servers: ips(&["8.8.8.8", "4.4.4.4"]) },
    ];
    assert_eq!(adapter_dns_servers(&adapters), ips(&["1.1.1.1", "8.8.8.8", "4.4.4.4"]));
}

#[test]
fn a_missing_resolv_conf_configures_nothing() {
    assert_eq!(collect_dns_servers(ResolvConf::Missing), Ok(Vec::new()));
    assert_eq!(
        collect_dns_servers(ResolvConf::Contents("nameserver 1.1.1.1".to_string())),
        Ok(ips(&["1.1.1.1"]))
    );
    assert_eq!(
        collect_dns_servers(ResolvConf::Unreadable("denied".to_string())),
        Err("denied".to_string())
    );
}

#[test]
fn unreadable_dns_configuration_does_not_fail_the_collection() {
    let info = collect(
        Ok(ips(&["192.168.1.5"])),
        Err("denied".to_string()),
        "laptop".to_string(),
    )
    .expect("collect() should succeed");
    assert_eq!(info.internal_ips, ips(&["192.168.1.5"]));
    assert!(info.dns_servers.is_empty());
    assert_eq!(info.hostname.as_deref(), Some("laptop"));
}

#[test]
fn unlisted_interfaces_fail_the_collection() {
    let err = collect(Err("no netlink".to_string()), Ok(Vec::new()), "laptop".to_string())
        .expect_err("interfaces are indispensable");
    assert_eq!(err.message(), "could not enumerate local interfaces: no netlink");
    assert_eq!(
        NetInfoError::Dns("denied".to_string()).message(),
        "could not read DNS configuration: denied"
    );
}

#[test]
fn network_facts_are_empty_by_default_and_can_be_copied() {
    let empty = NetInfo::default();
    assert!(empty.internal_ips.is_empty() && empty.dns_servers.is_empty());
    assert_eq!(empty.hostname, None);
    let info = NetInfo {
        internal_ips: ips(&["192.168.1.5"]),
        dns_servers: ips(&["1.1.1.1"]),
        hostname: Some("laptop".to_string()),
    };
    assert_eq!(info.clone(), info);
}

#[test]
fn collect_smoke_test() {
    let info = collect(Ok(Vec::new()), Ok(Vec::new()), "laptop".to_string())
        .expect("collect() should succeed");
    assert!(info.hostname.is_some(), "expected a hostname to be present");
}
