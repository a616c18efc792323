use cdn_sync::cdn::{Hosts, Probe, ProbeError, Server};

fn pool(servers: Vec<Server>) -> Hosts {
    Hosts { servers, active_index: None, active: None }
}

fn host(name: &'static str, rating: u8, latency: Option<u128>) -> Server {
    Server { host: name, rating, latency }
}

#[test]
fn new_server_is_unrated() {
    let s = Server::new("cdn.example.org");
    assert_eq!(s.host, "cdn.example.org");
    assert_eq!(s.rating, 255);
    assert_eq!(s.latency, None);
}

#[test]
fn server_url_is_https() {
    assert_eq!(Server::new("cdn.example.org").url(), "https://cdn.example.org/");
    assert_eq!(Server::new("").url(), "https:///");
}

#[test]
fn default_pool_has_two_unrated_hosts() {
    let hosts = Hosts::new();
    assert_eq!(hosts.servers.len(), 2);
    assert_eq!(hosts.servers[0].host, "cdn.alterware.ovh");
    assert_eq!(hosts.servers[1].host, "us-cdn.alterware.ovh");
    assert!(hosts.servers.iter().all(|s| s.rating == 255 && s.latency.is_none()));
    assert_eq!(hosts.active_index, None);
    assert_eq!(hosts.active_url(), None);
    assert_eq!(hosts.get_master_url(), None);
}

#[test]
fn tie_of_scores_goes_to_the_lower_latency() {
    let mut hosts = pool(vec![
        host("a", 200, Some(80)),
        host("b", 200, Some(40)),
        host("c", 199, Some(1)),
    ]);
    assert!(hosts.next());
    assert_eq!(hosts.active_index, Some(1));
    assert_eq!(hosts.active_url(), Some("https://b/".to_string()));
    assert_eq!(hosts.get_master_url(), Some("https://b/".to_string()));
}

#[test]
fn empty_pool_selects_nothing() {
    let mut hosts = pool(vec![]);
    assert!(!hosts.next());
    assert_eq!(hosts.active_index, None);
    assert_eq!(hosts.active_url(), None);
}

#[test]
fn higher_score_beats_lower_latency() {
    let mut hosts = pool(vec![host("slow", 201, Some(400)), host("fast", 200, Some(1))]);
    assert!(hosts.next());
    assert_eq!(hosts.active_index, Some(0));
}

#[test]
fn measured_latency_beats_none() {
    let mut hosts = pool(vec![
        host("a", 255, None),
        host("b", 255, Some(u128::MAX)),
        host("c", 255, None),
    ]);
    assert!(hosts.next());
    assert_eq!(hosts.active_index, Some(1));
}

#[test]
fn full_tie_goes_to_the_last() {
    let mut hosts = pool(vec![host("a", 255, None), host("b", 255, None)]);
    assert!(hosts.next());
    assert_eq!(hosts.active_index, Some(1));
    let mut hosts = pool(vec![
        host("a", 100, Some(7)),
        host("b", 100, Some(7)),
        host("c", 100, Some(8)),
    ]);
    assert!(hosts.next());
    assert_eq!(hosts.active_index, Some(1));
}

#[test]
fn single_host_is_selected() {
    let mut hosts = pool(vec![host("only", 0, None)]);
    assert!(hosts.next());
    assert_eq!(hosts.active_index, Some(0));
    assert_eq!(hosts.active.map(|s| s.host), Some("only"));
}

#[test]
fn outranks_orders_by_score_then_latency() {
    let a = host("a", 10, Some(5));
    assert!(a.outranks(&host("b", 9, Some(1))));
    assert!(!a.outranks(&host("b", 11, None)));
    assert!(a.outranks(&host("b", 10, Some(6))));
    assert!(!a.outranks(&host("b", 10, Some(5))));
    assert!(!a.outranks(&host("b", 10, Some(4))));
    assert!(a.outranks(&host("b", 10, None)));
    assert!(!host("c", 10, None).outranks(&a));
    assert!(!host("c", 10, None).outranks(&host("d", 10, None)));
}

#[test]
fn rating_pass_rates_every_host_and_selects() {
    let mut hosts = Hosts::new();
    hosts.rate(
        64512,
        &vec![
            Ok(Probe { latency: 180, is_cloudflare: true }),
            Ok(Probe { latency: 60, is_cloudflare: false }),
        ],
    );
    assert_eq!(hosts.servers[0].rating, 150);
    assert_eq!(hosts.servers[0].latency, Some(180));
    assert_eq!(hosts.servers[1].rating, 230);
    assert_eq!(hosts.servers[1].latency, Some(60));
    assert_eq!(hosts.active_index, Some(1));
    assert_eq!(hosts.active_url(), Some("https://us-cdn.alterware.ovh/".to_string()));
}

#[test]
fn rating_pass_applies_the_peering_penalty() {
    let mut hosts = Hosts::new();
    hosts.rate(
        3320,
        &vec![
            Ok(Probe { latency: 10, is_cloudflare: true }),
            Ok(Probe { latency: 450, is_cloudflare: false }),
        ],
    );
    assert_eq!(hosts.servers[0].rating, 24);
    assert_eq!(hosts.servers[1].rating, 131);
    assert_eq!(hosts.active_index, Some(1));
}

#[test]
fn unreachable_host_never_beats_a_reachable_one() {
    let mut hosts = Hosts::new();
    hosts.rate(
        5483,
        &vec![
            Ok(Probe { latency: 9000, is_cloudflare: true }),
            Err(ProbeError::Timeout),
        ],
    );
    assert_eq!(hosts.servers[0].rating, 10);
    assert_eq!(hosts.servers[1].rating, 0);
    assert_eq!(hosts.servers[1].latency, None);
    assert_eq!(hosts.active_index, Some(0));
}

#[test]
fn rating_pass_replaces_the_earlier_selection() {
    let mut hosts = Hosts::new();
    hosts.rate(
        0,
        &vec![Ok(Probe { latency: 10, is_cloudflare: false }), Err(ProbeError::ConnectionFailed)],
    );
    assert_eq!(hosts.active_index, Some(0));
    hosts.rate(
        0,
        &vec![Err(ProbeError::ConnectionFailed), Ok(Probe { latency: 300, is_cloudflare: false })],
    );
    assert_eq!(hosts.active_index, Some(1));
    assert_eq!(hosts.active.map(|s| s.rating), Some(136));
    assert_eq!(hosts.active_url(), Some("https://us-cdn.alterware.ovh/".to_string()));
}

#[test]
fn all_hosts_unreachable_still_selects_one() {
    let mut hosts = Hosts::new();
    hosts.rate(0, &vec![Err(ProbeError::Timeout), Err(ProbeError::Timeout)]);
    assert_eq!(hosts.active_index, Some(1));
    assert_eq!(hosts.active.map(|s| s.rating), Some(0));
}

#[test]
fn rating_pass_over_an_empty_pool() {
    let mut hosts = pool(vec![]);
    hosts.active = Some(Server::new("stale"));
    hosts.rate(0, &vec![]);
    assert_eq!(hosts.active_index, None);
    assert!(hosts.active.is_none());
    assert_eq!(hosts.active_url(), None);
}

#[test]
fn ranking_lists_every_host_best_first() {
    let hosts = pool(vec![
        host("a", 200, Some(80)),
        host("b", 200, Some(40)),
        host("c", 199, Some(1)),
        host("d", 0, None),
        host("e", 200, None),
    ]);
    assert_eq!(hosts.ranking(), vec![1, 0, 4, 2, 3]);
    assert_eq!(pool(vec![]).ranking(), Vec::<usize>::new());
    assert_eq!(pool(vec![host("a", 1, None)]).ranking(), vec![0]);
}

#[test]
fn ranking_starts_with_the_selected_host() {
    let mut hosts = pool(vec![
        host("a", 255, None),
        host("b", 255, None),
        host("c", 10, Some(3)),
        host("d", 255, None),
    ]);
    assert_eq!(hosts.ranking(), vec![3, 1, 0, 2]);
    assert!(hosts.next());
    assert_eq!(hosts.active_index, Some(hosts.ranking()[0]));
}

#[test]
fn unrated_pool_is_not_unreachable() {
    assert!(!Hosts::new().all_unreachable());
    assert!(pool(vec![]).all_unreachable());
    assert!(pool(vec![host("a", 0, None), host("b", 0, None)]).all_unreachable());
    assert!(!pool(vec![host("a", 0, None), host("b", 1, None)]).all_unreachable());
}
