use bamsample::grouper::{group_records, Grouper};
use bamsample::record::Record;

fn rec(key: &str, payload: u32) -> Record<u32> {
    Record { key: key.as_bytes().to_vec(), payload }
}

fn keys_and_payloads(templates: &Vec<bamsample::record::Template<u32>>) -> Vec<Vec<(Vec<u8>, u32)>> {
    let mut out: Vec<Vec<(Vec<u8>, u32)>> = Vec::new();
    for t in templates {
        let mut group: Vec<(Vec<u8>, u32)> = Vec::new();
        for r in t.records() {
            group.push((r.key.clone(), r.payload));
        }
        out.push(group);
    }
    out
}

#[test]
fn groups_contiguous_runs() {
    let input = vec![
        rec("A", 1),
        rec("A", 2),
        rec("B", 3),
        rec("C", 4),
        rec("C", 5),
        rec("C", 6),
    ];
    let templates = group_records(input);
    let groups = keys_and_payloads(&templates);
    assert_eq!(groups.len(), 3);
    assert_eq!(groups[0], vec![(b"A".to_vec(), 1), (b"A".to_vec(), 2)]);
    assert_eq!(groups[1], vec![(b"B".to_vec(), 3)]);
    assert_eq!(groups[2], vec![(b"C".to_vec(), 4), (b"C".to_vec(), 5), (b"C".to_vec(), 6)]);
}

#[test]
fn grouping_twice_gives_identical_boundaries() {
    let make = || {
        vec![rec("x", 0), rec("x", 1), rec("y", 2), rec("z", 3), rec("z", 4)]
    };
    let first = keys_and_payloads(&group_records(make()));
    let second = keys_and_payloads(&group_records(make()));
    assert_eq!(first, second);
    assert_eq!(first.len(), 3);
}

#[test]
fn empty_input_gives_no_templates() {
    let templates = group_records(Vec::<Record<u32>>::new());
    assert_eq!(templates.len(), 0);
}

#[test]
fn single_key_input_gives_one_template() {
    let input = vec![rec("only", 7), rec("only", 8)];
    let templates = group_records(input);
    assert_eq!(templates.len(), 1);
    assert_eq!(templates[0].len(), 2);
    assert_eq!(templates[0].records().len(), 2);
}

#[test]
fn reappearing_key_is_split_silently() {
    let input = vec![rec("A", 1), rec("B", 2), rec("A", 3)];
    let groups = keys_and_payloads(&group_records(input));
    assert_eq!(groups.len(), 3);
    assert_eq!(groups[0], vec![(b"A".to_vec(), 1)]);
    assert_eq!(groups[1], vec![(b"B".to_vec(), 2)]);
    assert_eq!(groups[2], vec![(b"A".to_vec(), 3)]);
}

#[test]
fn streaming_grouper_emits_on_key_change() {
    let mut g: Grouper<u32> = Grouper::new();
    assert!(g.push(rec("A", 1)).is_none());
    assert!(g.push(rec("A", 2)).is_none());
    let t = g.push(rec("B", 3)).expect("a completed template");
    assert_eq!(t.records().len(), 2);
    assert_eq!(t.records()[0].payload, 1);
    assert_eq!(t.records()[1].payload, 2);
    let last = g.finish().expect("the open run");
    assert_eq!(last.records().len(), 1);
    assert_eq!(last.records()[0].payload, 3);
}

#[test]
fn finish_on_empty_grouper_is_none() {
    let g: Grouper<u32> = Grouper::new();
    assert!(g.finish().is_none());
}
