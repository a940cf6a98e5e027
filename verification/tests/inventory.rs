use observatory::inventory::adguard::{
    artifact_id, parse_address, push_port, service_ports, value_u16, DnsSection, PortMapping, PortSections, PortValue, TlsSection,
};
use observatory::inventory::docker::{containers_endpoint, extract_domainish};
use observatory::inventory::raw_configs_nginx::{substitute_nginx_variables, substitute_once};
use observatory::inventory::projects::{
    descends_into, git_output, is_ignored_dir, search_continues, MAX_DEPTH, MAX_REPOS, parse_ahead_behind, repo_summary, status_is_dirty, worktree_paths, RepoSummary,
};
use observatory::inventory::remote_configs::{
    config_batch_command, framed_batch_command, parse_records, remote_failure_warning, remote_records_outcome, soft_collector_budget, RemoteConfigKind,
};
use observatory::inventory::storage::InventoryPaths;
use observatory::inventory::unifi::{
    encode_path_segment, endpoint_failure, endpoint_status_error, fallback_site, network_detail_requests,
    network_error_reported, request_site_key, site_requests, unifi_endpoint, RequestKind, RequestSpec, SiteRef,
};

const MS: u64 = 1_000_000;

#[test]
fn record_parser_preserves_typed_complete_frames() {
    let records = parse_records(
        "noise\n\u{1e}proxy\t/tmp/a.conf\nserver_name a.test;\u{1f}\n\u{1e}compose\t/tmp/b.yml\nservices:\n  app:\n    image: test\u{1f}\n",
    );

    assert_eq!(records.len(), 2);
    assert_eq!(records[0].kind, RemoteConfigKind::Proxy);
    assert_eq!(records[0].path, "/tmp/a.conf");
    assert_eq!(records[0].body, "server_name a.test;");
    assert_eq!(records[1].kind, RemoteConfigKind::Compose);
    assert_eq!(records[1].path, "/tmp/b.yml");
    assert_eq!(records[1].body, "services:\n  app:\n    image: test");
}

#[test]
fn record_parser_drops_incomplete_trailing_frame() {
    let records = parse_records(
        "\u{1e}compose\t/tmp/ok.yml\nservices: {}\u{1f}\n\u{1e}adguard\t/tmp/config.yaml\ndns:\n  port: 53",
    );

    assert_eq!(records.len(), 1);
    assert_eq!(records[0].path, "/tmp/ok.yml");
}

#[test]
fn record_parser_keeps_unicode_and_trims_trailing_newlines() {
    let records = parse_records("\u{1e}adguard\t/tmp/ü.yaml\nname: café\n\n\u{1f}\u{1e}other\t/x\nbody\u{1f}\n");
    assert_eq!(records.len(), 1);
    assert_eq!(records[0].kind, RemoteConfigKind::AdGuard);
    assert_eq!(records[0].path, "/tmp/ü.yaml");
    assert_eq!(records[0].body, "name: café");
}

#[test]
fn remote_config_kinds_parse_by_name() {
    assert_eq!(RemoteConfigKind::parse("compose"), Some(RemoteConfigKind::Compose));
    assert_eq!(RemoteConfigKind::parse("proxy"), Some(RemoteConfigKind::Proxy));
    assert_eq!(RemoteConfigKind::parse("adguard"), Some(RemoteConfigKind::AdGuard));
    assert_eq!(RemoteConfigKind::parse("Compose"), None);
}

#[test]
fn collector_budget_keeps_a_bounded_margin() {
    assert_eq!(soft_collector_budget(0), 0);
    assert_eq!(soft_collector_budget(10 * MS), 9 * MS);
    assert_eq!(soft_collector_budget(1000 * MS), 950 * MS);
    assert_eq!(soft_collector_budget(60_000 * MS), 59_750 * MS);
    assert_eq!(soft_collector_budget(500_000), 0);
}

#[test]
fn unifi_path_segments_are_percent_encoded() {
    assert_eq!(encode_path_segment("default"), "default");
    assert_eq!(encode_path_segment("site /?"), "site%20%2F%3F");
}

#[test]
fn unifi_fallback_site_and_request_keys() {
    let site = fallback_site();
    assert_eq!(site.id, None);
    assert_eq!(site.internal_reference, "default");
    let with_site = RequestSpec { kind: RequestKind::Devices, path: "/a".to_string(), site_id: Some("s1".to_string()) };
    assert_eq!(request_site_key(&with_site), "s1");
    let without_site = RequestSpec { kind: RequestKind::LegacyNetworks, path: "/b".to_string(), site_id: None };
    assert_eq!(request_site_key(&without_site), "/b");
    assert_eq!(encode_path_segment("é~"), "%C3%A9~");
}

#[test]
fn inventory_paths_layout() {
    let paths = InventoryPaths::new(b"/var/cache/inventory".to_vec());
    assert_eq!(paths.raw_dir, b"/var/cache/inventory/raw".to_vec());
    assert_eq!(paths.normalized_dir, b"/var/cache/inventory/normalized".to_vec());
    assert_eq!(paths.normalized_json, b"/var/cache/inventory/normalized/homelab.json".to_vec());
    assert_eq!(paths.collection_state_json, b"/var/cache/inventory/collection-state.json".to_vec());
    assert_eq!(paths.lock_file, b"/var/cache/inventory/refresh.lock".to_vec());
    assert_eq!(paths.raw_artifact_path("run-1", "docker"), b"/var/cache/inventory/raw/run-1/docker.txt".to_vec());
    assert_eq!(paths.private_dirs(), vec![paths.root.clone(), paths.raw_dir.clone(), paths.normalized_dir.clone()]);
    let trailing = InventoryPaths::new(b"cache/".to_vec());
    assert_eq!(trailing.raw_dir, b"cache/raw".to_vec());
    assert_eq!(trailing.raw_artifact_path("/abs", "x"), b"/abs/x.txt".to_vec());
}

#[test]
fn ahead_behind_counts_come_from_the_branch_line() {
    assert_eq!(parse_ahead_behind("## main...origin/main [ahead 2, behind 3]\n M file\n"), (Some(2), Some(3)));
    assert_eq!(parse_ahead_behind(" M file\n## main...origin/main [behind 7]\r\n"), (None, Some(7)));
    assert_eq!(parse_ahead_behind("## main\n"), (None, None));
    assert_eq!(parse_ahead_behind("M file"), (None, None));
    assert_eq!(parse_ahead_behind("## x [ahead 99999999999]"), (None, None));
}

#[test]
fn ignored_directories_by_file_name() {
    assert!(is_ignored_dir(b"/repo/target"));
    assert!(is_ignored_dir(b"/repo/node_modules/"));
    assert!(is_ignored_dir(b".git"));
    assert!(!is_ignored_dir(b"/repo/src"));
    assert!(!is_ignored_dir(b"/"));
    assert!(!is_ignored_dir(b"/repo/target/.."));
}

#[test]
fn listening_addresses_split_at_the_last_colon() {
    assert_eq!(parse_address("0.0.0.0:3000"), Some(("0.0.0.0".to_string(), 3000)));
    assert_eq!(parse_address("[::1]:80"), Some(("::1".to_string(), 80)));
    assert_eq!(parse_address("host:+8080"), Some(("host".to_string(), 8080)));
    assert_eq!(parse_address("host:70000"), None);
    assert_eq!(parse_address("host"), None);
    assert_eq!(parse_address(":53"), Some((String::new(), 53)));
}

#[test]
fn port_mappings_are_deduplicated() {
    let mut ports = Vec::new();
    push_port(&mut ports, Some("0.0.0.0".to_string()), Some(53), "udp");
    push_port(&mut ports, Some("0.0.0.0".to_string()), Some(53), "tcp");
    push_port(&mut ports, Some("0.0.0.0".to_string()), Some(53), "udp");
    push_port(&mut ports, None, None, "tcp");
    assert_eq!(
        ports,
        vec![
            PortMapping { host_ip: Some("0.0.0.0".to_string()), host_port: Some(53), container_port: Some(53), protocol: "udp".to_string() },
            PortMapping { host_ip: Some("0.0.0.0".to_string()), host_port: Some(53), container_port: Some(53), protocol: "tcp".to_string() },
        ]
    );
}

fn nginx_vars(pairs: &[(&str, &str)]) -> Vec<(String, String)> {
    pairs.iter().map(|(k, v)| (k.to_string(), v.to_string())).collect()
}

#[test]
fn nginx_substitution_replaces_bare_and_braced_names() {
    let vars = nginx_vars(&[("upstream_app", "grafana"), ("upstream_port", "3000")]);
    let (text, changed) = substitute_once("http://$upstream_app:${upstream_port}/", &vars);
    assert_eq!(text, "http://grafana:3000/");
    assert!(changed);
}

#[test]
fn nginx_substitution_keeps_unknown_and_bare_dollars() {
    let vars = nginx_vars(&[("known", "x")]);
    let (text, changed) = substitute_once("$unknown ${missing} $ $-é $", &vars);
    assert_eq!(text, "$unknown ${missing} $ $-é $");
    assert!(!changed);
}

#[test]
fn nginx_substitution_keeps_unclosed_brace_tail() {
    let vars = nginx_vars(&[("a", "1")]);
    let (text, changed) = substitute_once("$a ${a", &vars);
    assert_eq!(text, "1 ${a");
    assert!(changed);
}

#[test]
fn nginx_substitution_resolves_chained_variables() {
    let vars = nginx_vars(&[("a", "$b"), ("b", "${c}"), ("c", "done")]);
    assert_eq!(substitute_nginx_variables("<$a>", &vars), "<done>");
}

#[test]
fn nginx_substitution_stops_after_eight_passes() {
    let vars = nginx_vars(&[("loop", "x$loop")]);
    assert_eq!(substitute_nginx_variables("$loop", &vars), "xxxxxxxx$loop");
}

#[test]
fn nginx_substitution_name_ends_at_non_word_byte() {
    let vars = nginx_vars(&[("host", "example.test"), ("h", "wrong")]);
    let (text, _) = substitute_once("$host.local/$hostx ${h}ost", &vars);
    assert_eq!(text, "example.test.local/$hostx wrongost");
}

const RAW_ARTIFACT_LIMIT: usize = 2 * 1024 * 1024;

#[test]
fn config_batch_command_covers_compose_proxy_and_adguard_roots_once() {
    let command = config_batch_command(RAW_ARTIFACT_LIMIT);

    assert!(command.contains("/mnt/compose"));
    assert!(command.contains("/mnt/appdata/swag/nginx/proxy-confs"));
    assert!(command.contains("/mnt/appdata/adguard/etc"));
    assert!(command.contains("AdGuardHome.yaml"));
    assert!(command.contains("\\036compose\\t"));
    assert!(command.contains("\\036proxy\\t"));
    assert!(command.contains("\\036adguard\\t"));
    assert!(command.contains("\\037\\n"));
}

#[test]
fn framed_batch_command_reads_one_byte_past_the_artifact_limit() {
    let command = framed_batch_command("proxy", "find /x", 9);
    assert_eq!(
        command,
        "find /x | while IFS= read -r f; do [ -f \"$f\" ] || continue; printf '\\036proxy\\t%s\\n' \"$f\"; head -c 10 -- \"$f\"; printf '\\037\\n'; done"
    );
    let batch = config_batch_command(0);
    assert_eq!(batch.matches("head -c 1 --").count(), 3);
    let adguard = batch.find("\\036adguard").unwrap();
    let proxy = batch.find("\\036proxy").unwrap();
    let compose = batch.find("\\036compose").unwrap();
    assert!(adguard < proxy && proxy < compose);
}

#[test]
fn domainish_words_need_a_dot_and_four_characters() {
    assert_eq!(
        extract_domainish("Host(`app.example.com`) || Host(`a.b`), tls=x.y.z; é-n.io"),
        vec!["app.example.com".to_string(), "x.y.z".to_string(), "-n.io".to_string()]
    );
    assert!(extract_domainish("no domains here").is_empty());
    assert_eq!(extract_domainish("10.0.0.1:8080"), vec!["10.0.0.1".to_string()]);
}

fn mapping(host: Option<&str>, port: u16, protocol: &str) -> PortMapping {
    PortMapping {
        host_ip: host.map(str::to_string),
        host_port: Some(port),
        container_port: Some(port),
        protocol: protocol.to_string(),
    }
}

#[test]
fn adguard_ports_cover_dns_web_and_enabled_tls() {
    let sections = PortSections {
        dns: Some(DnsSection {
            port: Some(PortValue::Text("53".to_string())),
            bind_hosts: Some(vec![Some("192.168.1.2".to_string()), None, Some("192.168.1.2".to_string())]),
        }),
        http_address: Some("[::]:3000".to_string()),
        tls: Some(TlsSection {
            enabled: true,
            port_https: Some(PortValue::Number(443)),
            port_dns_over_tls: Some(PortValue::Number(0)),
            port_dns_over_quic: Some(PortValue::Number(853)),
            port_dnscrypt: Some(PortValue::Other),
        }),
    };
    assert_eq!(
        service_ports(&sections),
        vec![
            mapping(Some("192.168.1.2"), 53, "udp"),
            mapping(Some("192.168.1.2"), 53, "tcp"),
            mapping(Some("::"), 3000, "tcp"),
            mapping(None, 443, "tcp"),
            mapping(None, 853, "udp"),
        ]
    );
}

#[test]
fn adguard_ports_default_bind_host_and_skip_disabled_tls() {
    let sections = PortSections {
        dns: Some(DnsSection { port: Some(PortValue::Number(5353)), bind_hosts: None }),
        http_address: Some("no-port".to_string()),
        tls: Some(TlsSection {
            enabled: false,
            port_https: Some(PortValue::Number(443)),
            port_dns_over_tls: None,
            port_dns_over_quic: None,
            port_dnscrypt: None,
        }),
    };
    assert_eq!(
        service_ports(&sections),
        vec![mapping(Some("0.0.0.0"), 5353, "udp"), mapping(Some("0.0.0.0"), 5353, "tcp")]
    );
    let no_port = PortSections {
        dns: Some(DnsSection { port: Some(PortValue::Number(70000)), bind_hosts: None }),
        http_address: None,
        tls: None,
    };
    assert!(service_ports(&no_port).is_empty());
}

#[test]
fn adguard_port_values_accept_integers_and_numeric_strings() {
    assert_eq!(value_u16(&Some(PortValue::Number(65535))), Some(65535));
    assert_eq!(value_u16(&Some(PortValue::Number(65536))), None);
    assert_eq!(value_u16(&Some(PortValue::Text("+80".to_string()))), Some(80));
    assert_eq!(value_u16(&Some(PortValue::Text("eighty".to_string()))), None);
    assert_eq!(value_u16(&Some(PortValue::Other)), None);
    assert_eq!(value_u16(&None), None);
}

#[test]
fn adguard_artifact_ids_are_short_path_digests() {
    assert_eq!(artifact_id("/etc/AdGuardHome.yaml"), "adguard:54a802431518687a2479cad60c435558");
}

#[test]
fn git_output_is_trimmed_and_needs_success() {
    assert_eq!(git_output(Some(0), "  main\n"), Some("main".to_string()));
    assert_eq!(git_output(Some(1), "main\n"), None);
    assert_eq!(git_output(None, "main\n"), None);
}

#[test]
fn status_lines_follow_str_lines() {
    assert!(!status_is_dirty("## main...origin/main\n"));
    assert!(status_is_dirty("## main\n M src/lib.rs"));
    assert!(status_is_dirty("## main\n\n"));
    assert!(!status_is_dirty(""));
    assert_eq!(parse_ahead_behind("## x [ahead 5\r"), (None, None));
    assert_eq!(parse_ahead_behind("## x [ahead 5\r\n"), (Some(5), None));
}

#[test]
fn worktree_list_paths_keep_their_text() {
    let body = "worktree /repo/main\nHEAD abc\nbranch refs/heads/main\n\nworktree /repo/wt é\r\nbare\nworktree\n";
    assert_eq!(worktree_paths(body), vec!["/repo/main".to_string(), "/repo/wt é".to_string()]);
}

#[test]
fn repo_summary_needs_status_and_drops_an_empty_branch() {
    assert_eq!(repo_summary("/r", Some("main".into()), None, None, None), None);
    let summary = repo_summary(
        "/r",
        Some(String::new()),
        Some("abc1234".into()),
        Some("## main...origin/main [ahead 1]\n?? new".into()),
        Some("worktree /r\nworktree /r-wt".into()),
    )
    .unwrap();
    assert_eq!(
        summary,
        RepoSummary {
            path: "/r".to_string(),
            branch: None,
            head: Some("abc1234".to_string()),
            dirty: true,
            ahead: Some(1),
            behind: None,
            worktrees: vec!["/r".to_string(), "/r-wt".to_string()],
        }
    );
    let clean = repo_summary("/r", Some("dev".into()), None, Some("## dev".into()), None).unwrap();
    assert_eq!(clean.branch, Some("dev".to_string()));
    assert!(!clean.dirty);
    assert!(clean.worktrees.is_empty());
}

#[test]
fn project_search_limits_and_descent() {
    assert!(search_continues(0, MAX_DEPTH));
    assert!(!search_continues(0, MAX_DEPTH + 1));
    assert!(!search_continues(MAX_REPOS, 0));
    assert!(descends_into(b"/src/app", true));
    assert!(!descends_into(b"/src/node_modules", true));
    assert!(!descends_into(b"/src/app", false));
}

#[test]
fn endpoints_drop_trailing_slashes_from_the_base() {
    assert_eq!(unifi_endpoint("https://unifi.local//", "/proxy/network/api"), "https://unifi.local/proxy/network/api");
    assert_eq!(containers_endpoint("http://docker:2375/"), "http://docker:2375/containers/json?all=1");
    assert_eq!(containers_endpoint("http://docker:2375"), "http://docker:2375/containers/json?all=1");
}

#[test]
fn unifi_endpoint_errors_name_the_path() {
    assert_eq!(endpoint_status_error("/sites", 200), None);
    assert_eq!(endpoint_status_error("/sites", 399), None);
    assert_eq!(endpoint_status_error("/sites", 401), Some("UniFi endpoint /sites returned HTTP 401".to_string()));
    assert_eq!(endpoint_failure("/sites", "timeout"), "UniFi endpoint /sites failed: timeout");
}

#[test]
fn remote_records_warns_when_malformed_frames_are_dropped() {
    let (records, warnings) = remote_records_outcome(
        "host",
        Some(0),
        false,
        "\u{1e}compose\t/tmp/ok.yml\nservices: {}\u{1f}\n\u{1e}adguard\t/tmp/config.yaml\ndns:\n  port: 53",
        "",
    );
    assert_eq!(records.len(), 1);
    assert!(warnings.iter().any(|warning| {
        warning.message.contains("dropped 1 incomplete or malformed record frame") && warning.message.contains("host")
    }));
}

#[test]
fn remote_batch_outcome_keeps_records_and_reports_problems() {
    let stdout = "\u{1e}proxy\t/a.conf\nserver {}\u{1f}\n\u{1e}compose\t/b.yml\nservices:";
    let (records, warnings) = remote_records_outcome("nas", Some(0), true, stdout, "");
    assert_eq!(records.len(), 1);
    assert_eq!(records[0].path, "/a.conf");
    assert_eq!(warnings.len(), 2);
    assert_eq!(warnings[0].category, "remote_config_truncated");
    assert_eq!(
        warnings[0].message,
        "ssh config collection output was truncated on nas; complete records were preserved"
    );
    assert_eq!(warnings[1].category, "remote_config_malformed");
    let (records, warnings) = remote_records_outcome("nas", Some(0), false, stdout, "");
    assert_eq!(records.len(), 1);
    assert_eq!(warnings.len(), 1);
    assert_eq!(
        warnings[0].message,
        "ssh config collection on nas dropped 1 incomplete or malformed record frame(s)"
    );
    let complete = "noise\u{1e}proxy\t/a.conf\nserver {}\u{1f}\n";
    let (records, warnings) = remote_records_outcome("nas", Some(0), false, complete, "");
    assert_eq!(records.len(), 1);
    assert!(warnings.is_empty());
    let (records, warnings) = remote_records_outcome("nas", Some(255), false, stdout, "Permission denied");
    assert!(records.is_empty());
    assert_eq!(warnings[0].category, "remote_config");
    assert_eq!(warnings[0].message, "ssh config collection failed on nas: Permission denied");
    let failure = remote_failure_warning("nas", "timed out");
    assert_eq!(failure.message, "ssh config collection failed on nas: timed out");
}

#[test]
fn unifi_site_requests_cover_devices_and_both_network_apis() {
    let sites = vec![
        SiteRef { id: Some("s 1".to_string()), internal_reference: "default".to_string() },
        SiteRef { id: None, internal_reference: "a/b".to_string() },
    ];
    let requests = site_requests(&sites);
    let paths: Vec<&str> = requests.iter().map(|r| r.path.as_str()).collect();
    assert_eq!(
        paths,
        vec![
            "/proxy/network/api/s/default/stat/device",
            "/proxy/network/api/s/default/rest/networkconf",
            "/proxy/network/integration/v1/sites/s%201/networks?offset=0&limit=200",
            "/proxy/network/api/s/a%2Fb/stat/device",
            "/proxy/network/api/s/a%2Fb/rest/networkconf",
        ]
    );
    assert_eq!(requests[2].kind, RequestKind::ModernNetworks);
    assert_eq!(requests[2].site_id.as_deref(), Some("s 1"));
    assert_eq!(requests[3].site_id, None);

    let details = network_detail_requests("s 1", &vec!["n1".to_string(), "n/2".to_string()]);
    assert_eq!(details.len(), 2);
    assert_eq!(details[1].path, "/proxy/network/integration/v1/sites/s%201/networks/n%2F2");
    assert_eq!(details[1].kind, RequestKind::NetworkDetails);

    let legacy_ok = vec!["s 1".to_string()];
    assert!(!network_error_reported(RequestKind::ModernNetworks, "s 1", &legacy_ok, &vec![]));
    assert!(network_error_reported(RequestKind::LegacyNetworks, "s 1", &legacy_ok, &vec![]));
    assert!(network_error_reported(RequestKind::Devices, "s 1", &legacy_ok, &legacy_ok));
}
