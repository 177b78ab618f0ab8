use chesscoin::adapters::{DeterministicSampler, ToyHash};
use chesscoin::domain::Digest;
use chesscoin::ports::{HashPort, SamplingPort};

#[test]
fn sampler_is_deterministic_and_unique() {
    let sampler = DeterministicSampler;
    let root = Digest::from_bytes([7; 32]);

    let first = sampler.sample_indices(16, 6, root, 99);
    let second = sampler.sample_indices(16, 6, root, 99);

    assert_eq!(first, second);
    assert_eq!(first.len(), 6);
    let mut unique = first.clone();
    unique.sort_unstable();
    unique.dedup();
    assert_eq!(unique.len(), first.len());
}

#[test]
fn sampler_returns_all_indices_when_sample_count_exceeds_trace() {
    let sampler = DeterministicSampler;

    assert_eq!(
        sampler.sample_indices(4, 99, Digest::from_bytes([1; 32]), 42),
        vec![0, 1, 2, 3]
    );
}

#[test]
fn sampler_returns_nothing_for_nothing() {
    let sampler = DeterministicSampler::default();
    let root = Digest::from_bytes([1; 32]);

    assert_eq!(sampler.sample_indices(0, 5, root, 42), Vec::<usize>::new());
    assert_eq!(sampler.sample_indices(5, 0, root, 42), Vec::<usize>::new());
}

#[test]
fn sampler_picks_known_indices_in_order() {
    assert_eq!(
        DeterministicSampler.sample_indices(16, 6, Digest::from_bytes([7; 32]), 99),
        vec![2, 3, 4, 9, 12, 13]
    );
}

#[test]
fn sampler_works_through_a_reference() {
    let sampler = &DeterministicSampler;
    assert_eq!(
        (&sampler).sample_indices(16, 6, Digest::from_bytes([7; 32]), 99),
        vec![2, 3, 4, 9, 12, 13]
    );
}

#[test]
fn toy_hash_of_nothing() {
    assert_eq!(
        ToyHash.digest(b"").to_hex(),
        "36afad3b3e03e0e94946f25199a9c7df005aa6334f7943ab7849f453fe2854ef"
    );
}

#[test]
fn toy_hash_of_three_bytes() {
    assert_eq!(
        ToyHash::default().digest(b"abc").to_hex(),
        "f18af3294cadca31ee15b429037ac79dfd015e8313b2b03634c13bf32997bdd6"
    );
}
