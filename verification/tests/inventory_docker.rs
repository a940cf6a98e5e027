use observatory::inventory::docker::{
    container_service, hosts_missing_warning, normalize_containers, record_host_listing, ContainerListing,
    ContainerService, DockerContainer, DockerNetwork, DockerPort,
};

fn text(s: &str) -> String {
    s.to_string()
}

fn container(id: &str, name: &str, networks: &[&str]) -> DockerContainer {
    DockerContainer {
        id: Some(text(id)),
        first_name: Some(format!("/{name}")),
        image: Some(text("nginx:latest")),
        state: Some(text("running")),
        labels: vec![
            (text("com.docker.compose.project"), text("web")),
            (text("maintainer"), text("ops@example.org")),
            (text("traefik.http.routers.web.rule"), text("Host(`web.example.org`) || Host(`alt.example.org`)")),
        ],
        ports: vec![
            DockerPort { ip: Some(text("0.0.0.0")), public_port: Some(8080), private_port: Some(80), protocol: None },
            DockerPort { ip: None, public_port: Some(70000), private_port: Some(53), protocol: Some(text("udp")) },
        ],
        networks: networks.iter().map(|n| text(n)).collect(),
    }
}

#[test]
fn container_service_reads_names_ports_domains_and_labels() {
    let service = container_service("http://docker-a:2375", &container("abc123", "web", &["front"]));
    assert_eq!(service.id, "docker:http://docker-a:2375:abc123");
    assert_eq!(service.name, "web");
    assert_eq!(service.kind, "docker_container");
    assert_eq!(service.host, "http://docker-a:2375");
    assert_eq!(service.image.as_deref(), Some("nginx:latest"));
    assert_eq!(service.status.as_deref(), Some("running"));
    assert_eq!(service.domains, vec!["web.example.org", "alt.example.org"]);
    assert_eq!(service.ports.len(), 2);
    assert_eq!(service.ports[0].host_port, Some(8080));
    assert_eq!(service.ports[0].container_port, Some(80));
    assert_eq!(service.ports[0].protocol, "tcp");
    assert_eq!(service.ports[1].host_port, None);
    assert_eq!(service.ports[1].protocol, "udp");
    assert_eq!(
        service.labels,
        vec![
            (text("com.docker.compose.project"), text("web")),
            (text("traefik.http.routers.web.rule"), text("Host(`web.example.org`) || Host(`alt.example.org`)")),
        ]
    );
}

#[test]
fn container_without_id_or_name_is_unknown() {
    let bare = DockerContainer {
        id: None,
        first_name: None,
        image: None,
        state: None,
        labels: vec![],
        ports: vec![],
        networks: vec![],
    };
    let service = container_service("h", &bare);
    assert_eq!(service.id, "docker:h:unknown");
    assert_eq!(service.name, "unknown");
    assert!(service.domains.is_empty());
}

#[test]
fn networks_group_members_by_name_in_order() {
    let mut services: Vec<ContainerService> = Vec::new();
    let mut networks: Vec<DockerNetwork> = Vec::new();
    let items = vec![
        container("1", "zeta", &["front", "back"]),
        container("2", "alpha", &["front"]),
        container("3", "alpha", &["front"]),
    ];
    normalize_containers("host-a", &items, &mut services, &mut networks);
    normalize_containers("host-b", &vec![container("4", "beta", &["back", "db"])], &mut services, &mut networks);
    assert_eq!(services.len(), 4);
    let names: Vec<&str> = networks.iter().map(|n| n.name.as_str()).collect();
    assert_eq!(names, vec!["back", "db", "front"]);
    assert_eq!(networks[0].members, vec!["beta", "zeta"]);
    assert_eq!(networks[0].source_host, "host-a");
    assert_eq!(networks[1].source_host, "host-b");
    assert_eq!(networks[2].members, vec!["alpha", "zeta"]);
    assert!(networks.iter().all(|n| n.kind == "docker"));
}

#[test]
fn at_most_two_hundred_containers_are_read_per_host() {
    let items: Vec<DockerContainer> = (0..205).map(|i| container(&i.to_string(), &format!("c{i}"), &[])).collect();
    let mut services = Vec::new();
    let mut networks = Vec::new();
    normalize_containers("h", &items, &mut services, &mut networks);
    assert_eq!(services.len(), 200);
    assert_eq!(services[199].id, "docker:h:199");
    assert!(networks.is_empty());
}

#[test]
fn host_listing_outcomes_warn_or_record() {
    let mut services = Vec::new();
    let mut networks = Vec::new();
    let warning = record_host_listing(
        "h",
        &ContainerListing::Response { status: 503, containers: Some(vec![container("1", "a", &["n"])]) },
        &mut services,
        &mut networks,
    )
    .unwrap();
    assert_eq!(warning.category, "containers");
    assert_eq!(warning.message, "Docker h returned HTTP 503");
    assert!(services.is_empty() && networks.is_empty());

    let warning = record_host_listing("h", &ContainerListing::Response { status: 200, containers: None }, &mut services, &mut networks).unwrap();
    assert_eq!(warning.message, "Docker h response was not an array");

    let warning = record_host_listing("h", &ContainerListing::Unavailable { error: text("connection refused") }, &mut services, &mut networks).unwrap();
    assert_eq!(warning.message, "Docker h unavailable: connection refused");

    let none = record_host_listing(
        "h",
        &ContainerListing::Response { status: 200, containers: Some(vec![container("1", "a", &["n"])]) },
        &mut services,
        &mut networks,
    );
    assert!(none.is_none());
    assert_eq!(services.len(), 1);
    assert_eq!(networks.len(), 1);
}

#[test]
fn missing_docker_hosts_skip_collection_with_a_config_warning() {
    let warning = hosts_missing_warning(&Vec::new()).unwrap();
    assert_eq!(warning.category, "config");
    assert_eq!(warning.message, "CORTEX_DOCKER_HOSTS not set; Docker API collection skipped");
    assert!(hosts_missing_warning(&vec![text("http://docker:2375")]).is_none());
}
