use std::collections::HashMap;

use gateway_routing::api::{Backend, BackendProtocol};
use gateway_routing::upstream::{HealthStatus, HealthTracker, LoadBalancer};

fn make_backend(address: &str, weight: u32) -> Backend {
    Backend {
        address: address.to_string(),
        weight,
        protocol: BackendProtocol::Http.as_i32(),
    }
}

fn fail_times(tracker: &mut HealthTracker, address: &str, n: usize) {
    for _ in 0..n {
        tracker.record_failure(address);
    }
}

fn select(lb: &mut LoadBalancer, backends: &[Backend], n: usize) -> Vec<String> {
    (0..n).map(|_| lb.next(backends).unwrap().address.clone()).collect()
}

// ========== Phase 1: HealthTracker - Basic Status Tracking ==========

#[test]
fn test_health_tracker_new_backends_are_healthy() {
    let tracker = HealthTracker::new(3);
    assert!(tracker.is_healthy("backend:8080"));
    assert!(tracker.is_healthy("unknown:9090"));
}

#[test]
fn test_health_tracker_record_success_keeps_healthy() {
    let mut tracker = HealthTracker::new(3);
    tracker.record_success("backend:8080");
    assert!(tracker.is_healthy("backend:8080"));
}

#[test]
fn test_health_tracker_single_failure_stays_healthy() {
    let mut tracker = HealthTracker::new(3);
    tracker.record_failure("backend:8080");
    assert!(tracker.is_healthy("backend:8080"));
}

#[test]
fn test_health_tracker_threshold_failures_becomes_unhealthy() {
    let mut tracker = HealthTracker::new(3);
    tracker.record_failure("backend:8080");
    tracker.record_failure("backend:8080");
    tracker.record_failure("backend:8080");
    assert!(!tracker.is_healthy("backend:8080"));
}

#[test]
fn test_health_tracker_success_resets_failure_count() {
    let mut tracker = HealthTracker::new(3);
    tracker.record_failure("backend:8080");
    tracker.record_failure("backend:8080");
    tracker.record_success("backend:8080");
    tracker.record_failure("backend:8080");
    tracker.record_failure("backend:8080");
    assert!(tracker.is_healthy("backend:8080"));
}

#[test]
fn test_health_tracker_success_restores_unhealthy_backend() {
    let mut tracker = HealthTracker::new(3);
    fail_times(&mut tracker, "backend:8080", 3);
    assert!(!tracker.is_healthy("backend:8080"));
    tracker.record_success("backend:8080");
    assert!(tracker.is_healthy("backend:8080"));
}

#[test]
fn test_health_tracker_reset_clears_status() {
    let mut tracker = HealthTracker::new(3);
    fail_times(&mut tracker, "backend:8080", 3);
    assert!(!tracker.is_healthy("backend:8080"));
    tracker.reset("backend:8080");
    assert!(tracker.is_healthy("backend:8080"));
}

#[test]
fn test_health_tracker_healthy_count() {
    let mut tracker = HealthTracker::new(3);
    let backends = vec![make_backend("a:8080", 1), make_backend("b:8080", 1), make_backend("c:8080", 1)];
    assert_eq!(tracker.healthy_count(&backends), 3);
    fail_times(&mut tracker, "b:8080", 3);
    assert_eq!(tracker.healthy_count(&backends), 2);
}

// ========== Phase 2: LoadBalancer - Basic Round-Robin ==========

#[test]
fn test_load_balancer_single_backend_always_selected() {
    let tracker = HealthTracker::new(3);
    let mut lb = LoadBalancer::new(tracker);
    let backends = vec![make_backend("a:8080", 1)];
    for _ in 0..5 {
        let selected = lb.next(&backends).unwrap();
        assert_eq!(selected.address, "a:8080");
    }
}

#[test]
fn test_load_balancer_two_backends_alternates() {
    let tracker = HealthTracker::new(3);
    let mut lb = LoadBalancer::new(tracker);
    let backends = vec![make_backend("a:8080", 1), make_backend("b:8080", 1)];
    let selections = select(&mut lb, &backends, 4);
    assert_eq!(selections, vec!["a:8080", "b:8080", "a:8080", "b:8080"]);
}

#[test]
fn test_load_balancer_three_backends_cycles() {
    let tracker = HealthTracker::new(3);
    let mut lb = LoadBalancer::new(tracker);
    let backends = vec![make_backend("a:8080", 1), make_backend("b:8080", 1), make_backend("c:8080", 1)];
    let selections = select(&mut lb, &backends, 6);
    assert_eq!(
        selections,
        vec!["a:8080", "b:8080", "c:8080", "a:8080", "b:8080", "c:8080"]
    );
}

#[test]
fn test_load_balancer_wraps_around() {
    let tracker = HealthTracker::new(3);
    let mut lb = LoadBalancer::new(tracker);
    let backends = vec![make_backend("a:8080", 1), make_backend("b:8080", 1), make_backend("c:8080", 1)];
    let mut counts = HashMap::new();
    for _ in 0..99 {
        let addr = lb.next(&backends).unwrap().address.clone();
        *counts.entry(addr).or_insert(0) += 1;
    }
    assert_eq!(counts.get("a:8080"), Some(&33));
    assert_eq!(counts.get("b:8080"), Some(&33));
    assert_eq!(counts.get("c:8080"), Some(&33));
}

// ========== Phase 3: LoadBalancer - Weighted Round-Robin ==========

#[test]
fn test_weighted_round_robin_basic() {
    let tracker = HealthTracker::new(3);
    let mut lb = LoadBalancer::new(tracker);
    let backends = vec![make_backend("a:8080", 2), make_backend("b:8080", 1)];
    let selections = select(&mut lb, &backends, 6);
    assert_eq!(
        selections,
        vec!["a:8080", "a:8080", "b:8080", "a:8080", "a:8080", "b:8080"]
    );
}

#[test]
fn test_weighted_round_robin_distribution_80_20() {
    let tracker = HealthTracker::new(3);
    let mut lb = LoadBalancer::new(tracker);
    let backends = vec![make_backend("a:8080", 80), make_backend("b:8080", 20)];
    let mut a_count = 0;
    let mut b_count = 0;
    for _ in 0..100 {
        let addr = lb.next(&backends).unwrap().address.clone();
        if addr == "a:8080" {
            a_count += 1;
        } else {
            b_count += 1;
        }
    }
    assert_eq!(a_count, 80);
    assert_eq!(b_count, 20);
}

#[test]
fn test_weighted_round_robin_zero_weight_treated_as_one() {
    let tracker = HealthTracker::new(3);
    let mut lb = LoadBalancer::new(tracker);
    let backends = vec![make_backend("a:8080", 1), make_backend("b:8080", 0)];
    let selections = select(&mut lb, &backends, 4);
    assert_eq!(selections, vec!["a:8080", "b:8080", "a:8080", "b:8080"]);
}

#[test]
fn test_weighted_round_robin_large_weights() {
    let tracker = HealthTracker::new(3);
    let mut lb = LoadBalancer::new(tracker);
    let backends = vec![make_backend("a:8080", 100), make_backend("b:8080", 1)];
    let mut a_count = 0;
    let mut b_count = 0;
    for _ in 0..101 {
        let addr = lb.next(&backends).unwrap().address.clone();
        if addr == "a:8080" {
            a_count += 1;
        } else {
            b_count += 1;
        }
    }
    assert_eq!(a_count, 100);
    assert_eq!(b_count, 1);
}

// ========== Phase 4: Unhealthy Backend Skipping ==========

#[test]
fn test_load_balancer_skips_unhealthy_backend() {
    let mut lb = LoadBalancer::new(HealthTracker::new(3));
    let backends = vec![make_backend("a:8080", 1), make_backend("b:8080", 1), make_backend("c:8080", 1)];
    // Mark b as unhealthy on the tracker the load balancer consults
    fail_times(lb.health_tracker_mut(), "b:8080", 3);
    let selections = select(&mut lb, &backends, 4);
    assert_eq!(selections, vec!["a:8080", "c:8080", "a:8080", "c:8080"]);
}

#[test]
fn test_load_balancer_all_healthy_restored() {
    let mut lb = LoadBalancer::new(HealthTracker::new(3));
    let backends = vec![make_backend("a:8080", 1), make_backend("b:8080", 1)];
    // Mark b as unhealthy
    fail_times(lb.health_tracker_mut(), "b:8080", 3);
    let addr1 = lb.next(&backends).unwrap().address.clone();
    let addr2 = lb.next(&backends).unwrap().address.clone();
    assert_eq!(addr1, "a:8080");
    assert_eq!(addr2, "a:8080");
    // Restore b: the next selections include it again
    lb.health_tracker_mut().record_success("b:8080");
    let selections = select(&mut lb, &backends, 4);
    assert_eq!(selections, vec!["a:8080", "b:8080", "a:8080", "b:8080"]);
}

#[test]
fn test_load_balancer_weighted_with_unhealthy() {
    let mut lb = LoadBalancer::new(HealthTracker::new(3));
    let backends = vec![make_backend("a:8080", 2), make_backend("b:8080", 1), make_backend("c:8080", 1)];
    // Mark a (weight=2) as unhealthy
    fail_times(lb.health_tracker_mut(), "a:8080", 3);
    let selections = select(&mut lb, &backends, 4);
    assert_eq!(selections, vec!["b:8080", "c:8080", "b:8080", "c:8080"]);
}

#[test]
fn test_load_balancer_all_backends_unhealthy_returns_none() {
    let mut lb = LoadBalancer::new(HealthTracker::new(3));
    let backends = vec![make_backend("a:8080", 1), make_backend("b:8080", 1)];
    // Mark all as unhealthy
    fail_times(lb.health_tracker_mut(), "a:8080", 3);
    fail_times(lb.health_tracker_mut(), "b:8080", 3);
    assert!(lb.next(&backends).is_none());
}

#[test]
fn test_load_balancer_empty_backends_returns_none() {
    let tracker = HealthTracker::new(3);
    let mut lb = LoadBalancer::new(tracker);
    let backends: Vec<Backend> = vec![];
    assert!(lb.next(&backends).is_none());
}

#[test]
fn test_healthy_backends_returns_only_healthy() {
    let mut lb = LoadBalancer::new(HealthTracker::new(3));
    let backends = vec![make_backend("a:8080", 1), make_backend("b:8080", 1), make_backend("c:8080", 1)];
    // Mark b as unhealthy
    fail_times(lb.health_tracker_mut(), "b:8080", 3);
    let healthy = lb.healthy_backends(&backends);
    let addresses: Vec<&str> = healthy.iter().map(|b| b.address.as_str()).collect();
    assert_eq!(addresses, vec!["a:8080", "c:8080"]);
}

#[test]
fn test_healthy_backends_empty_when_all_unhealthy() {
    let mut lb = LoadBalancer::new(HealthTracker::new(3));
    let backends = vec![make_backend("a:8080", 1), make_backend("b:8080", 1)];
    // Mark all as unhealthy
    fail_times(lb.health_tracker_mut(), "a:8080", 3);
    fail_times(lb.health_tracker_mut(), "b:8080", 3);
    assert!(lb.healthy_backends(&backends).is_empty());
}

#[test]
fn test_load_balancer_is_send_and_sync() {
    fn assert_send_sync<T: Send + Sync>() {}
    assert_send_sync::<LoadBalancer>();
    assert_send_sync::<HealthTracker>();
}

// ========== Further cases ==========

#[test]
fn test_failure_count_tracks_consecutive_failures() {
    let mut tracker = HealthTracker::new(3);
    assert_eq!(tracker.failure_count("a:8080"), 0);
    fail_times(&mut tracker, "a:8080", 2);
    assert_eq!(tracker.failure_count("a:8080"), 2);
    assert_eq!(tracker.failure_count("b:8080"), 0);
    tracker.record_success("a:8080");
    assert_eq!(tracker.failure_count("a:8080"), 0);
    fail_times(&mut tracker, "a:8080", 4);
    assert_eq!(tracker.failure_count("a:8080"), 4);
    tracker.reset("a:8080");
    assert_eq!(tracker.failure_count("a:8080"), 0);
}

#[test]
fn test_unhealthy_stays_unhealthy_past_threshold() {
    let mut tracker = HealthTracker::new(2);
    fail_times(&mut tracker, "a:8080", 2);
    assert!(!tracker.is_healthy("a:8080"));
    fail_times(&mut tracker, "a:8080", 5);
    assert!(!tracker.is_healthy("a:8080"));
    assert!(tracker.is_healthy("b:8080"));
}

#[test]
fn test_threshold_zero_or_one_marks_on_first_failure() {
    let mut zero = HealthTracker::new(0);
    zero.record_failure("a:8080");
    assert!(!zero.is_healthy("a:8080"));
    let mut one = HealthTracker::new(1);
    assert!(one.is_healthy("a:8080"));
    one.record_failure("a:8080");
    assert!(!one.is_healthy("a:8080"));
}

#[test]
fn test_round_robin_rotates_from_counter() {
    let tracker = HealthTracker::new(3);
    let mut lb = LoadBalancer::new(tracker);
    let backends = vec![make_backend("a:8080", 1), make_backend("b:8080", 2)];
    // cycle: a, b, b
    let first = select(&mut lb, &backends, 1);
    assert_eq!(first, vec!["a:8080"]);
    let window = select(&mut lb, &backends, 3);
    assert_eq!(window, vec!["b:8080", "b:8080", "a:8080"]);
}

#[test]
fn test_empty_list_keeps_counter() {
    let tracker = HealthTracker::new(3);
    let mut lb = LoadBalancer::new(tracker);
    let none: Vec<Backend> = vec![];
    assert!(lb.next(&none).is_none());
    let backends = vec![make_backend("a:8080", 1), make_backend("b:8080", 1)];
    assert_eq!(select(&mut lb, &backends, 2), vec!["a:8080", "b:8080"]);
}

#[test]
fn test_health_status_values() {
    assert_eq!(HealthStatus::Healthy, HealthStatus::Healthy);
    assert_ne!(HealthStatus::Healthy, HealthStatus::Unhealthy);
}

#[test]
fn test_health_tracker_accessor() {
    let mut tracker = HealthTracker::new(3);
    fail_times(&mut tracker, "a:8080", 3);
    let lb = LoadBalancer::new(tracker);
    assert!(!lb.health_tracker().is_healthy("a:8080"));
    assert!(lb.health_tracker().is_healthy("b:8080"));
}

#[test]
fn test_failures_after_success_count_afresh() {
    let mut tracker = HealthTracker::new(3);
    fail_times(&mut tracker, "a:8080", 5);
    tracker.record_success("a:8080");
    fail_times(&mut tracker, "a:8080", 2);
    fail_times(&mut tracker, "b:8080", 4);
    assert_eq!(tracker.failure_count("a:8080"), 2);
    assert!(tracker.is_healthy("a:8080"));
    tracker.record_failure("a:8080");
    assert!(!tracker.is_healthy("a:8080"));
    tracker.reset("a:8080");
    tracker.record_failure("a:8080");
    assert_eq!(tracker.failure_count("a:8080"), 1);
    assert!(tracker.is_healthy("a:8080"));
    assert!(!tracker.is_healthy("b:8080"));
}
