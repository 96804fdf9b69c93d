use womir_analyze::labels::{is_inner, CrowdedAddress, Label, LabelIndex, LabelSlot};
use womir_analyze::render::{
    block_group, directive_line, disassemble, inline_line, label_line, render_block,
    render_inline, Style,
};

fn label(name: &str, pc: u32) -> Label {
    Label { name: name.to_string(), pc }
}

fn program(directives: &[&str]) -> Vec<String> {
    directives.iter().map(|d| d.to_string()).collect()
}

#[test]
fn inner_names_start_with_two_underscores() {
    assert!(is_inner("__loop_1"));
    assert!(is_inner("__"));
    assert!(!is_inner("_loop"));
    assert!(!is_inner("f__"));
    assert!(!is_inner("_"));
    assert!(!is_inner(""));
}

#[test]
fn index_classifies_each_address() {
    let table = vec![label("main", 1), label("__loop", 3), label("body", 3), label("far", 9)];
    let index = LabelIndex::build(table, 4).unwrap();
    assert_eq!(index.len(), 4);
    assert_eq!(index.slot(0), LabelSlot::Empty);
    assert_eq!(index.slot(1), LabelSlot::Single { label: 0 });
    assert_eq!(index.slot(2), LabelSlot::Empty);
    assert_eq!(index.slot(3), LabelSlot::Pair { outer: 2, inner: 1 });
    assert_eq!(index.label(3).name, "far");
    assert_eq!(index.labels().len(), 4);
}

#[test]
fn pair_without_a_prefix_takes_the_second_as_inner() {
    let index = LabelIndex::build(vec![label("a", 0), label("b", 0)], 1).unwrap();
    assert_eq!(index.slot(0), LabelSlot::Pair { outer: 0, inner: 1 });
    let index = LabelIndex::build(vec![label("__a", 0), label("__b", 0)], 1).unwrap();
    assert_eq!(index.slot(0), LabelSlot::Pair { outer: 1, inner: 0 });
}

#[test]
fn third_label_at_an_address_is_refused() {
    let table = vec![label("a", 2), label("b", 1), label("c", 2), label("d", 2), label("e", 2)];
    match LabelIndex::build(table, 3) {
        Err(fault) => assert_eq!(fault, CrowdedAddress { pc: 2, label: 3 }),
        Ok(_) => panic!("three labels share address 2"),
    }
}

#[test]
fn crowd_past_the_end_of_the_program_is_ignored() {
    let table = vec![label("a", 5), label("b", 5), label("c", 5)];
    let index = LabelIndex::build(table, 2).unwrap();
    assert_eq!(index.slot(0), LabelSlot::Empty);
    assert_eq!(index.slot(1), LabelSlot::Empty);
}

#[test]
fn lines_are_indented_by_four_spaces() {
    assert_eq!(directive_line("nop"), "    nop");
    assert_eq!(directive_line(""), "    ");
    assert_eq!(label_line("f", true), "    f:");
    assert_eq!(label_line("f", false), "f:");
}

#[test]
fn block_style_without_labels_is_one_line_per_address() {
    let lines = disassemble(&program(&["a", "b", "c"]), vec![], Style::Block).unwrap();
    assert_eq!(lines, vec!["    a", "    b", "    c"]);
}

#[test]
fn block_style_puts_a_single_label_above_its_directive() {
    let lines =
        disassemble(&program(&["a", "b"]), vec![label("main", 1)], Style::Block).unwrap();
    assert_eq!(lines, vec!["    a", "    main:", "    b"]);
}

#[test]
fn block_style_nests_the_inner_label_whatever_the_order() {
    let expected = vec!["    a", "", "body:", "    __loop:", "    b", "    c"];
    let one = vec![label("__loop", 1), label("body", 1)];
    let other = vec![label("body", 1), label("__loop", 1)];
    let prog = program(&["a", "b", "c"]);
    assert_eq!(disassemble(&prog, one, Style::Block).unwrap(), expected);
    assert_eq!(disassemble(&prog, other, Style::Block).unwrap(), expected);
}

#[test]
fn block_style_keeps_every_address_in_order() {
    let table = vec![label("f", 0), label("__l", 2), label("g", 2), label("h", 3)];
    let prog = program(&["d0", "d1", "d2", "d3", "d4"]);
    let index = LabelIndex::build(table, prog.len()).unwrap();
    let lines = render_block(&prog, &index);
    assert_eq!(
        lines,
        vec![
            "    f:", "    d0", "    d1", "", "g:", "    __l:", "    d2", "    h:", "    d3",
            "    d4",
        ]
    );
    let directives: Vec<&String> =
        lines.iter().filter(|l| !l.is_empty() && !l.ends_with(':')).collect();
    assert_eq!(directives, vec!["    d0", "    d1", "    d2", "    d3", "    d4"]);
    assert_eq!(block_group(&index, 2, "d2"), vec!["", "g:", "    __l:", "    d2"]);
    assert_eq!(block_group(&index, 4, "d4"), vec!["    d4"]);
}

#[test]
fn inline_style_aligns_unlabelled_lines_with_two_tabs() {
    let index = LabelIndex::build(vec![], 1).unwrap();
    assert_eq!(inline_line(&index, 0, "nop"), "\t\tnop");
    assert_eq!(inline_line(&index, 0, ""), "\t\t");
}

#[test]
fn inline_style_joins_labels_in_table_order() {
    let table = vec![label("body", 1), label("__loop", 1), label("main", 0)];
    let prog = program(&["a", "b", "c"]);
    let lines = disassemble(&prog, table, Style::Inline).unwrap();
    assert_eq!(lines, vec!["main:\ta", "body, __loop:\tb", "\t\tc"]);
    let table = vec![label("__loop", 1), label("body", 1)];
    let index = LabelIndex::build(table, 3).unwrap();
    assert_eq!(render_inline(&prog, &index), vec!["\t\ta", "__loop, body:\tb", "\t\tc"]);
}

#[test]
fn listing_is_refused_for_a_crowded_address() {
    let table = vec![label("a", 0), label("b", 0), label("c", 0)];
    let prog = program(&["x"]);
    assert_eq!(
        disassemble(&prog, table.clone(), Style::Block),
        Err(CrowdedAddress { pc: 0, label: 2 })
    );
    assert_eq!(
        disassemble(&prog, table, Style::Inline),
        Err(CrowdedAddress { pc: 0, label: 2 })
    );
}

#[test]
fn empty_program_has_an_empty_listing() {
    assert!(disassemble(&vec![], vec![label("a", 0)], Style::Block).unwrap().is_empty());
    assert!(disassemble(&vec![], vec![], Style::Inline).unwrap().is_empty());
}

#[test]
fn names_beyond_ascii_are_kept() {
    let lines = disassemble(&program(&["é"]), vec![label("__ü", 0), label("ö", 0)], Style::Block)
        .unwrap();
    assert_eq!(lines, vec!["", "ö:", "    __ü:", "    é"]);
}
