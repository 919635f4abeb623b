use bamsample::pipeline::{emit_records, sample_records, sample_templates};
use bamsample::record::{Record, Template};
use bamsample::sampler::Sampler;

fn rec(key: &str, payload: u32) -> Record<u32> {
    Record { key: key.as_bytes().to_vec(), payload }
}

fn single(key: &str, payload: u32) -> Template<u32> {
    Template::new(vec![rec(key, payload)])
}

fn distinct_singles(count: u32) -> Vec<Template<u32>> {
    let mut out: Vec<Template<u32>> = Vec::new();
    let mut i: u32 = 0;
    while i < count {
        out.push(single(&format!("t{}", i), i));
        i += 1;
    }
    out
}

fn payloads(templates: &Vec<Template<u32>>) -> Vec<u32> {
    let mut out: Vec<u32> = Vec::new();
    for t in templates {
        for r in t.records() {
            out.push(r.payload);
        }
    }
    out
}

#[test]
fn output_size_is_min_of_capacity_and_count() {
    for capacity in [0usize, 1, 2, 3, 5, 10] {
        for count in [0u32, 1, 2, 3, 4, 7] {
            let out = sample_templates(distinct_singles(count), capacity, 42);
            let expected = if capacity < count as usize { capacity } else { count as usize };
            assert_eq!(out.len(), expected);
        }
    }
}

#[test]
fn capacity_zero_gives_empty_output() {
    for seed in [0u64, 1, 99] {
        let out = sample_templates(distinct_singles(25), 0, seed);
        assert_eq!(out.len(), 0);
    }
    let records = vec![rec("A", 1), rec("A", 2), rec("B", 3)];
    let out = sample_records(records, 0, 7);
    assert_eq!(out.len(), 0);
}

#[test]
fn capacity_covering_input_keeps_everything_in_order() {
    for capacity in [4usize, 5, 100] {
        let out = sample_templates(distinct_singles(4), capacity, 13);
        assert_eq!(payloads(&out), vec![0, 1, 2, 3]);
    }
}

#[test]
fn same_seed_reproduces_bit_identical_output() {
    for seed in [0u64, 1, 2, 43, u64::MAX] {
        let a = sample_templates(distinct_singles(50), 5, seed);
        let b = sample_templates(distinct_singles(50), 5, seed);
        assert_eq!(payloads(&a), payloads(&b));
    }
}

#[test]
fn two_of_three_survive_and_rerun_matches() {
    for seed in [0u64, 1, 2, 3, 4, 5, 6, 7, 8, 9] {
        let first = sample_templates(distinct_singles(3), 2, seed);
        assert_eq!(first.len(), 2);
        let kept = payloads(&first);
        assert_ne!(kept[0], kept[1]);
        assert!(kept[0] < 3 && kept[1] < 3);
        let second = sample_templates(distinct_singles(3), 2, seed);
        assert_eq!(kept, payloads(&second), "same seed, same pair, same slots");
    }
}

#[test]
fn inclusion_frequency_converges_to_capacity_over_count() {
    let count: u32 = 10;
    let capacity: usize = 3;
    let trials: u64 = 2000;
    let mut hits = [0u64; 10];
    for seed in 0..trials {
        let out = sample_templates(distinct_singles(count), capacity, seed);
        assert_eq!(out.len(), capacity);
        for p in payloads(&out) {
            hits[p as usize] += 1;
        }
    }
    // Expected inclusion probability is 3/10; five binomial standard
    // deviations around it over 2000 trials is about 0.05.
    for h in hits {
        let freq = h as f64 / trials as f64;
        assert!(freq > 0.25 && freq < 0.35, "frequency {} outside tolerance", freq);
    }
}

#[test]
fn sampled_template_stays_whole_and_ordered() {
    let records = vec![rec("A", 1), rec("A", 2), rec("B", 3), rec("B", 4)];
    let out = sample_records(records, 1, 5);
    assert_eq!(out.len(), 2);
    assert_eq!(out[0].key, out[1].key);
    assert!(out[1].payload == out[0].payload + 1);
}

#[test]
fn whole_pass_with_ample_capacity_returns_all_records() {
    let records = vec![rec("A", 1), rec("A", 2), rec("B", 3), rec("C", 4), rec("C", 5)];
    let out = sample_records(records, 100, 11);
    let got: Vec<u32> = out.iter().map(|r| r.payload).collect();
    assert_eq!(got, vec![1, 2, 3, 4, 5]);
}

#[test]
fn emit_preserves_slot_order_and_record_order() {
    let templates = vec![
        Template::new(vec![rec("k1", 10), rec("k1", 11)]),
        Template::new(vec![rec("k2", 20)]),
    ];
    let out = emit_records(templates);
    let got: Vec<u32> = out.iter().map(|r| r.payload).collect();
    assert_eq!(got, vec![10, 11, 20]);
}

#[test]
fn sampler_counts_every_offer() {
    let mut s: Sampler<u32> = Sampler::new(2, 99);
    assert_eq!(s.templates_seen(), 0);
    assert_eq!(s.capacity(), 2);
    for t in distinct_singles(6) {
        s.observe(t);
    }
    assert_eq!(s.templates_seen(), 6);
    let kept = s.finalize();
    assert_eq!(kept.len(), 2);
}

#[test]
fn empty_stream_yields_empty_reservoir() {
    let s: Sampler<u32> = Sampler::new(5, 1);
    assert_eq!(s.finalize().len(), 0);
    let out = sample_records(Vec::<Record<u32>>::new(), 5, 1);
    assert_eq!(out.len(), 0);
}
