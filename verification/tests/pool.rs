use falcotcp::enums::CompressionAlgorithm;
use falcotcp::errors::FalcoError;
use falcotcp::falco_client::FalcoClient;
use falcotcp::falco_pipeline::CompressionChoice;
use falcotcp::falco_pipeline::Var;

fn pool_of(n: usize) -> FalcoClient {
    let var = Var::new(None, CompressionChoice::Fixed(CompressionAlgorithm::Plain)).unwrap();
    FalcoClient::new(n, var, "127.0.0.1", 12701).unwrap()
}

#[test]
fn empty_pool_is_invalid_configuration() {
    let var = Var::new(None, CompressionChoice::Fixed(CompressionAlgorithm::Plain)).unwrap();
    match FalcoClient::new(0, var, "127.0.0.1", 12701) {
        Ok(_) => panic!("an empty pool must be refused"),
        Err(err) => assert_eq!(err, FalcoError::InvalidConfiguration),
    }
}

#[test]
fn every_entry_services_a_request() {
    // a pool of 3 and 7 sequential requests: round robin reaches all
    let mut pool = pool_of(3);
    let mut hits = [0usize; 3];
    for _ in 0..7 {
        hits[pool.get_handle()] += 1;
    }
    assert!(hits.iter().all(|&h| h >= 1));
}

#[test]
fn selection_is_round_robin() {
    let mut pool = pool_of(2);
    assert_eq!(pool.get_handle(), 0);
    assert_eq!(pool.get_handle(), 1);
    assert_eq!(pool.get_handle(), 0);
    assert_eq!(pool.get_handle(), 1);
}

#[test]
fn broken_pipe_mitigation_keeps_the_pool_size() {
    let mut pool = pool_of(2);
    let before = [pool.entry(0).id, pool.entry(1).id];
    // entry 0 hit a broken pipe after one request; repair it
    let fresh = pool.mitigate(0).unwrap();
    assert_eq!(pool.len(), 2);
    assert!(fresh != before[0] && fresh != before[1]);
    let after = [pool.entry(0).id, pool.entry(1).id];
    assert!(after.contains(&fresh));
    assert!(!after.contains(&before[0]));
}

#[test]
fn retry_budget_rules() {
    assert_eq!(FalcoClient::plan_after_failure(true, 255), Some(254));
    assert_eq!(FalcoClient::plan_after_failure(true, 1), Some(0));
    assert_eq!(FalcoClient::plan_after_failure(true, 0), None);
    assert_eq!(FalcoClient::plan_after_failure(false, 255), None);
}

#[test]
fn set_timeout_reaches_every_entry() {
    let mut pool = pool_of(3);
    pool.set_timeout(250_000);
    for i in 0..3 {
        assert_eq!(pool.entry(i).timeout, 250_000);
    }
    // the cheap variant touches only the pool-wide value
    pool.cheap_set_timeout(9);
    for i in 0..3 {
        assert_eq!(pool.entry(i).timeout, 250_000);
    }
    // a replacement entry inherits the pool-wide value
    pool.mitigate(1).unwrap();
    assert_eq!(pool.entry(2).timeout, 9);
}

#[test]
fn generate_appends_fresh_entries() {
    let mut pool = pool_of(2);
    pool.generate(3).unwrap();
    assert_eq!(pool.len(), 5);
    let mut ids: Vec<u64> = (0..5).map(|i| pool.entry(i).id).collect();
    ids.sort();
    ids.dedup();
    assert_eq!(ids.len(), 5);
}

#[test]
fn pool_target_is_kept() {
    let pool = pool_of(1);
    assert_eq!(pool.host().as_str(), "127.0.0.1");
    assert_eq!(pool.port(), 12701);
}
