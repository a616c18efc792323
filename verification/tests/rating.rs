use cdn_sync::cdn::{Probe, ProbeError, Server};
use cdn_sync::rating::{has_poor_peering, probe_timeout};

fn float_curve(ms: u128) -> u8 {
    let ms = ms as f32;
    let rating = if ms <= 50.0 {
        240.0
    } else if ms <= 100.0 {
        240.0 - (ms - 50.0) * 1.0
    } else if ms <= 200.0 {
        190.0 - (ms - 100.0) * 0.5
    } else if ms <= 500.0 {
        140.0 - (ms - 200.0) * 0.033
    } else {
        100.0
    };
    rating.clamp(1.0, 255.0) as u8
}

#[test]
fn curve_at_the_breakpoints() {
    let s = Server::new("host");
    assert_eq!(s.rate_latency(0), 240);
    assert_eq!(s.rate_latency(50), 240);
    assert_eq!(s.rate_latency(51), 239);
    assert_eq!(s.rate_latency(75), 215);
    assert_eq!(s.rate_latency(100), 190);
    assert_eq!(s.rate_latency(101), 189);
    assert_eq!(s.rate_latency(102), 189);
    assert_eq!(s.rate_latency(150), 165);
    assert_eq!(s.rate_latency(200), 140);
    assert_eq!(s.rate_latency(201), 139);
    assert_eq!(s.rate_latency(230), 139);
    assert_eq!(s.rate_latency(231), 138);
    assert_eq!(s.rate_latency(350), 135);
    assert_eq!(s.rate_latency(500), 130);
    assert_eq!(s.rate_latency(501), 100);
    assert_eq!(s.rate_latency(u128::MAX), 100);
}

#[test]
fn curve_agrees_with_the_formula_in_floating_point() {
    let s = Server::new("host");
    for ms in 0..=2000u128 {
        assert_eq!(s.rate_latency(ms), float_curve(ms), "at {} ms", ms);
    }
}

#[test]
fn slower_never_scores_higher() {
    let s = Server::new("host");
    for edge in [false, true] {
        for asn in [0u32, 3320] {
            let mut last = 255u8;
            for ms in 0..=600u128 {
                let now = s.calculate_rating(ms, edge, asn);
                assert!(now <= last, "{} ms scores {} after {}", ms, now, last);
                last = now;
            }
        }
    }
}

#[test]
fn a_host_that_answered_never_scores_zero() {
    let s = Server::new("host");
    for ms in [0u128, 1, 500, 501, 1_000_000, u128::MAX] {
        for asn in [0u32, 3320, 5483] {
            assert!(s.calculate_rating(ms, true, asn) >= 10);
            assert!(s.calculate_rating(ms, false, asn) >= 100);
        }
    }
}

#[test]
fn unreachable_host_scores_zero() {
    for error in [ProbeError::Timeout, ProbeError::ConnectionFailed] {
        let mut s = Server::new("host");
        s.rate(3320, Ok(Probe { latency: 20, is_cloudflare: false }));
        assert_eq!(s.rating, 240);
        assert_eq!(s.latency, Some(20));
        s.rate(3320, Err(error));
        assert_eq!(s.rating, 0);
        assert_eq!(s.latency, None);
        assert_eq!(s.host, "host");
    }
}

#[test]
fn probe_sets_latency_and_score() {
    let mut s = Server::new("host");
    s.rate(64512, Ok(Probe { latency: 120, is_cloudflare: true }));
    assert_eq!(s.rating, 180);
    assert_eq!(s.latency, Some(120));
}

#[test]
fn penalty_is_a_tenth_rounded_down() {
    let s = Server::new("host");
    for ms in 0..=600u128 {
        let plain = s.calculate_rating(ms, true, 64512);
        assert_eq!(s.calculate_rating(ms, true, 3320), plain / 10);
        assert_eq!(s.calculate_rating(ms, true, 5483), plain / 10);
        assert_eq!(
            s.calculate_rating(ms, true, 3320),
            (plain as f32 * 0.1) as u8
        );
    }
    assert_eq!(s.calculate_rating(40, true, 3320), 24);
    assert_eq!(s.calculate_rating(75, true, 3320), 21);
    assert_eq!(s.calculate_rating(501, true, 5483), 10);
}

#[test]
fn penalty_needs_the_edge_network() {
    let s = Server::new("host");
    assert_eq!(s.calculate_rating(40, false, 3320), 240);
    assert_eq!(s.calculate_rating(40, false, 5483), 240);
    assert_eq!(s.calculate_rating(40, true, 3321), 240);
}

#[test]
fn penalty_table() {
    assert!(has_poor_peering(3320));
    assert!(has_poor_peering(5483));
    assert!(!has_poor_peering(0));
    assert!(!has_poor_peering(3319));
    assert!(!has_poor_peering(u32::MAX));
}

#[test]
fn first_pass_probes_with_the_short_timeout() {
    assert_eq!(probe_timeout(true), 1000);
    assert_eq!(probe_timeout(false), 5000);
}
