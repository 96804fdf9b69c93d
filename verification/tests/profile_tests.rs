use womir_analyze::document::{document, Item};
use womir_analyze::profile::{summarize, ProfileReport};

#[test]
fn all_zero_counts_give_an_idle_report() {
    for len in [0usize, 1, 7, 1000] {
        let counts = vec![0u32; len];
        let report = summarize(&counts);
        assert_eq!(report.program_len, len);
        assert_eq!(report.max_count, 0);
        assert_eq!(report.data_points, 0);
        assert_eq!(report.total_instructions, 0);
        assert_eq!(report.pc_range(), (0, 0));
    }
}

#[test]
fn two_hits_are_counted_and_bracketed() {
    let counts = vec![0u32, 3, 0, 5, 0];
    let report = summarize(&counts);
    assert_eq!(
        report,
        ProfileReport {
            program_len: 5,
            max_count: 5,
            total_instructions: 8,
            data_points: 2,
            pc_start: 1,
            pc_end: 3,
        }
    );
    assert_eq!(report.pc_range(), (1, 3));
}

#[test]
fn single_hit_at_address_zero() {
    let report = summarize(&vec![4u32, 0, 0]);
    assert_eq!(report.max_count, 4);
    assert_eq!(report.data_points, 1);
    assert_eq!(report.total_instructions, 4);
    assert_eq!(report.pc_range(), (0, 0));
}

#[test]
fn single_hit_at_the_last_address() {
    let report = summarize(&vec![0u32, 0, 9]);
    assert_eq!(report.pc_range(), (2, 2));
    assert_eq!(report.data_points, 1);
}

#[test]
fn maximum_is_found_wherever_it_stands() {
    assert_eq!(summarize(&vec![9u32, 1, 2]).max_count, 9);
    assert_eq!(summarize(&vec![1u32, 9, 2]).max_count, 9);
    assert_eq!(summarize(&vec![1u32, 2, 9]).max_count, 9);
    assert_eq!(summarize(&vec![7u32, 7, 7]).max_count, 7);
}

#[test]
fn total_does_not_wrap_at_32_bits() {
    let counts = vec![u32::MAX, u32::MAX, 2];
    let report = summarize(&counts);
    assert_eq!(report.total_instructions, 2 * (u32::MAX as u128) + 2);
    assert_eq!(report.max_count, u32::MAX);
    assert_eq!(report.data_points, 3);
    assert_eq!(report.pc_range(), (0, 2));
}

#[test]
fn document_lists_the_report_in_order() {
    let counts = vec![0u32, 3, 0, 5, 0];
    let report = summarize(&counts);
    let fields = document(&report, &counts);
    let keys: Vec<&str> = fields.iter().map(|f| f.key.as_str()).collect();
    assert_eq!(
        keys,
        vec!["pc_counter", "max_count", "total_instructions", "data_points", "pc_range"]
    );
    match &fields[0].item {
        Item::Numbers(list) => assert_eq!(list, &counts),
        _ => panic!("pc_counter is a list"),
    }
    let numbers: Vec<u128> = fields[1..4]
        .iter()
        .map(|f| match &f.item {
            Item::Number(n) => *n,
            _ => panic!("a number"),
        })
        .collect();
    assert_eq!(numbers, vec![5, 8, 2]);
    match &fields[4].item {
        Item::Group(entries) => {
            assert_eq!(entries.len(), 2);
            assert_eq!(entries[0].key, "start");
            assert_eq!(entries[0].value, 1);
            assert_eq!(entries[1].key, "end");
            assert_eq!(entries[1].value, 3);
        }
        _ => panic!("pc_range is a group"),
    }
}
