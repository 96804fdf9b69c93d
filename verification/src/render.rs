//! Disassembly listings of a flat program, in block style and inline style.

use crate::labels::{
    crowded, hits, is_inner_name, lemma_hits_within, slot_of, CrowdedAddress, Label, LabelIndex,
    LabelSlot,
};
use crate::text::joined;
use vstd::prelude::*;
use vstd::string::*;

verus! {

/// The characters of each line.
pub open spec fn texts(lines: Seq<String>) -> Seq<Seq<char>> {
    lines.map_values(|line: String| line@)
}

/// Four spaces.
pub open spec fn indent() -> Seq<char> {
    seq![' ', ' ', ' ', ' ']
}

/// A directive on a line of its own.
pub open spec fn directive_text(directive: Seq<char>) -> Seq<char> {
    indent() + directive
}

/// A label name followed by a colon, indented or not.
pub open spec fn label_text(name: Seq<char>, indented: bool) -> Seq<char> {
    if indented {
        indent() + name + seq![':']
    } else {
        name + seq![':']
    }
}

/// The lines that block style gives one address: its labels, then its
/// directive. A pair is set off by a blank line, the outer label unindented.
pub open spec fn block_group_text(table: Seq<Label>, slot: LabelSlot, directive: Seq<char>) -> Seq<
    Seq<char>,
> {
    match slot {
        LabelSlot::Empty => seq![directive_text(directive)],
        LabelSlot::Single { label } => seq![
            label_text(table[label as int].name@, true),
            directive_text(directive),
        ],
        LabelSlot::Pair { outer, inner } => seq![
            Seq::empty(),
            label_text(table[outer as int].name@, false),
            label_text(table[inner as int].name@, true),
            directive_text(directive),
        ],
    }
}

/// Block style for a whole program: the groups of its addresses in ascending
/// order.
pub open spec fn block_text(table: Seq<Label>, slots: Seq<LabelSlot>, program: Seq<String>) -> Seq<
    Seq<char>,
>
    decreases program.len(),
{
    if program.len() == 0 {
        Seq::empty()
    } else {
        block_text(table, slots, program.drop_last()) + block_group_text(
            table,
            slots[program.len() - 1],
            program.last()@,
        )
    }
}

/// Number of lines in the group of a slot.
pub open spec fn group_len(slot: LabelSlot) -> int {
    match slot {
        LabelSlot::Empty => 1,
        LabelSlot::Single { .. } => 2,
        LabelSlot::Pair { .. } => 4,
    }
}

/// Number of lines that block style gives the addresses below `addr`.
pub open spec fn group_start(slots: Seq<LabelSlot>, addr: int) -> int
    decreases addr,
{
    if addr <= 0 {
        0
    } else {
        group_start(slots, addr - 1) + group_len(slots[addr - 1])
    }
}

/// The line of the block listing that holds the directive of `addr`.
pub open spec fn directive_at(slots: Seq<LabelSlot>, addr: int) -> int {
    group_start(slots, addr + 1) - 1
}

/// The names of the labels of a slot, in the order of the table.
pub open spec fn slot_names(table: Seq<Label>, slot: LabelSlot) -> Seq<Seq<char>> {
    match slot {
        LabelSlot::Empty => Seq::empty(),
        LabelSlot::Single { label } => seq![table[label as int].name@],
        LabelSlot::Pair { outer, inner } => if outer < inner {
            seq![table[outer as int].name@, table[inner as int].name@]
        } else {
            seq![table[inner as int].name@, table[outer as int].name@]
        },
    }
}

/// The line that inline style gives one address: two tabs and the directive
/// where there is no label, else the names joined by a comma and a space, a
/// colon, a tab and the directive.
pub open spec fn inline_text(names: Seq<Seq<char>>, directive: Seq<char>) -> Seq<char> {
    if names.len() == 0 {
        seq!['\t', '\t'] + directive
    } else {
        joined(names, seq![',', ' ']) + seq![':', '\t'] + directive
    }
}

/// Writes a directive as block style shows it.
pub fn directive_line(directive: &str) -> (line: String)
    ensures
        line@ == directive_text(directive@),
{
    let mut line = String::from_str("    ");
    line.append(directive);
    proof {
        reveal_strlit("    ");
        assert(line@ =~= directive_text(directive@));
    }
    line
}

/// Writes a label as block style shows it.
pub fn label_line(name: &str, indented: bool) -> (line: String)
    ensures
        line@ == label_text(name@, indented),
{
    let mut line = if indented {
        String::from_str("    ")
    } else {
        String::new()
    };
    line.append(name);
    line.append(":");
    proof {
        reveal_strlit("    ");
        reveal_strlit(":");
        assert(line@ =~= label_text(name@, indented));
    }
    line
}

/// The lines of one address in block style.
pub fn block_group(index: &LabelIndex, addr: usize, directive: &str) -> (lines: Vec<String>)
    requires
        index.wf(),
        addr < index.slots().len(),
    ensures
        texts(lines@) == block_group_text(index.table(), index.slots()[addr as int], directive@),
{
    let mut lines: Vec<String> = Vec::new();
    match index.slot(addr) {
        LabelSlot::Empty => {},
        LabelSlot::Single { label } => {
            lines.push(label_line(index.label(label).name.as_str(), true));
        },
        LabelSlot::Pair { outer, inner } => {
            lines.push(String::new());
            lines.push(label_line(index.label(outer).name.as_str(), false));
            lines.push(label_line(index.label(inner).name.as_str(), true));
        },
    }
    lines.push(directive_line(directive));
    proof {
        assert(texts(lines@) =~= block_group_text(
            index.table(),
            index.slots()[addr as int],
            directive@,
        ));
    }
    lines
}

/// The whole program in block style.
pub fn render_block(program: &Vec<String>, index: &LabelIndex) -> (lines: Vec<String>)
    requires
        index.wf(),
        index.slots().len() == program.len(),
    ensures
        texts(lines@) == block_text(index.table(), index.slots(), program@),
{
    let mut lines: Vec<String> = Vec::new();
    let mut addr: usize = 0;
    assert(texts(lines@) =~= block_text(index.table(), index.slots(), program@.take(0)));
    while addr < program.len()
        invariant
            addr <= program.len(),
            index.wf(),
            index.slots().len() == program.len(),
            texts(lines@) == block_text(index.table(), index.slots(), program@.take(addr as int)),
        decreases program.len() - addr,
    {
        let mut group = block_group(index, addr, program[addr].as_str());
        let ghost before = lines@;
        let ghost added = group@;
        lines.append(&mut group);
        proof {
            assert(program@.take(addr + 1).drop_last() =~= program@.take(addr as int));
            assert(program@.take(addr + 1).last() == program[addr as int]);
            assert(texts(before + added) =~= texts(before) + texts(added));
        }
        addr = addr + 1;
    }
    assert(program@.take(addr as int) =~= program@);
    lines
}

/// The line of one address in inline style.
pub fn inline_line(index: &LabelIndex, addr: usize, directive: &str) -> (line: String)
    requires
        index.wf(),
        addr < index.slots().len(),
    ensures
        line@ == inline_text(
            slot_names(index.table(), index.slots()[addr as int]),
            directive@,
        ),
{
    let ghost names = slot_names(index.table(), index.slots()[addr as int]);
    let mut line = String::new();
    match index.slot(addr) {
        LabelSlot::Empty => {
            line.append("\t\t");
        },
        LabelSlot::Single { label } => {
            line.append(index.label(label).name.as_str());
            line.append(":\t");
        },
        LabelSlot::Pair { outer, inner } => {
            let (first, second) = if outer < inner {
                (outer, inner)
            } else {
                (inner, outer)
            };
            line.append(index.label(first).name.as_str());
            line.append(", ");
            line.append(index.label(second).name.as_str());
            line.append(":\t");
            proof {
                assert(names.drop_last() =~= seq![names[0]]);
                assert(joined(names.drop_last(), seq![',', ' ']) == names[0]);
            }
        },
    }
    line.append(directive);
    proof {
        reveal_strlit("\t\t");
        reveal_strlit(":\t");
        reveal_strlit(", ");
        assert(line@ =~= inline_text(names, directive@));
    }
    line
}

/// The whole program in inline style, one line per address.
pub fn render_inline(program: &Vec<String>, index: &LabelIndex) -> (lines: Vec<String>)
    requires
        index.wf(),
        index.slots().len() == program.len(),
    ensures
        lines.len() == program.len(),
        forall|addr: int|
            0 <= addr < program.len() ==> (#[trigger] lines[addr])@ == inline_text(
                slot_names(index.table(), index.slots()[addr]),
                program[addr]@,
            ),
{
    let mut lines: Vec<String> = Vec::new();
    let mut addr: usize = 0;
    while addr < program.len()
        invariant
            addr <= program.len(),
            index.wf(),
            index.slots().len() == program.len(),
            lines.len() == addr,
            forall|a: int|
                0 <= a < addr ==> (#[trigger] lines[a])@ == inline_text(
                    slot_names(index.table(), index.slots()[a]),
                    program[a]@,
                ),
        decreases program.len() - addr,
    {
        lines.push(inline_line(index, addr, program[addr].as_str()));
        addr = addr + 1;
    }
    lines
}

/// The two styles of listing.
#[derive(Clone, Copy, Debug, PartialEq, Eq, Structural)]
pub enum Style {
    /// Labels on lines of their own above the directive, a label pair nested.
    Block,
    /// One line per address: the labels, a colon, a tab, the directive.
    Inline,
}

/// The slots that a label table gives the addresses below `len`.
pub open spec fn slots_of(table: Seq<Label>, len: nat) -> Seq<LabelSlot> {
    Seq::new(len, |addr: int| slot_of(table, addr).unwrap())
}

/// Inline style for a whole program.
pub open spec fn inline_listing(table: Seq<Label>, slots: Seq<LabelSlot>, program: Seq<String>)
    -> Seq<Seq<char>> {
    Seq::new(
        program.len(),
        |addr: int| inline_text(slot_names(table, slots[addr]), program[addr]@),
    )
}

/// The listing of `program` under the label table `table` in one style.
pub open spec fn listing_of(table: Seq<Label>, program: Seq<String>, style: Style) -> Seq<
    Seq<char>,
> {
    match style {
        Style::Block => block_text(table, slots_of(table, program.len()), program),
        Style::Inline => inline_listing(table, slots_of(table, program.len()), program),
    }
}

/// Lists `program`, one directive per address, with the labels of `labels`
/// in the chosen style. Gives no listing if some address of the program
/// carries more than two labels, and names the first label that is one too
/// many.
pub fn disassemble(program: &Vec<String>, labels: Vec<Label>, style: Style) -> (listing: Result<
    Vec<String>,
    CrowdedAddress,
>)
    ensures
        listing is Ok <==> !crowded(labels@, program.len() as int),
        listing matches Ok(lines) ==> texts(lines@) == listing_of(labels@, program@, style),
        listing matches Err(fault) ==> {
            &&& fault.label < labels.len()
            &&& fault.pc == labels[fault.label as int].pc
            &&& fault.pc < program.len()
            &&& !crowded(labels@.take(fault.label as int), program.len() as int)
            &&& hits(labels@.take(fault.label + 1), fault.pc as int).len() == 3
        },
{
    match LabelIndex::build(labels, program.len()) {
        Ok(index) => {
            assert(index.slots() =~= slots_of(labels@, program.len() as nat));
            match style {
                Style::Block => Ok(render_block(program, &index)),
                Style::Inline => {
                    let lines = render_inline(program, &index);
                    assert(texts(lines@) =~= inline_listing(
                        index.table(),
                        index.slots(),
                        program@,
                    ));
                    Ok(lines)
                },
            }
        },
        Err(fault) => Err(fault),
    }
}

/// Where the block listing of a program is kept: under `target/analyze`,
/// named after the program, `stem` being the name of the program's file
/// without its extension.
pub fn listing_path(stem: &str) -> (path: String)
    ensures
        path@ == "target/analyze/"@ + stem@ + ".womir"@,
{
    let mut path = String::from_str("target/analyze/");
    path.append(stem);
    path.append(".womir");
    path
}

/// The block listing has as many lines as its groups have together.
proof fn lemma_block_len(table: Seq<Label>, slots: Seq<LabelSlot>, program: Seq<String>)
    ensures
        block_text(table, slots, program).len() == group_start(slots, program.len() as int),
    decreases program.len(),
{
    if program.len() > 0 {
        lemma_block_len(table, slots, program.drop_last());
    }
}

/// Groups start further down as addresses rise, each by at least one line.
proof fn lemma_group_start_rises(slots: Seq<LabelSlot>, a: int, b: int)
    requires
        0 <= a <= b,
    ensures
        0 <= group_start(slots, a),
        group_start(slots, a) + (b - a) <= group_start(slots, b),
    decreases b,
{
    if a < b {
        lemma_group_start_rises(slots, a, b - 1);
    } else if a > 0 {
        lemma_group_start_rises(slots, a - 1, a - 1);
    }
}

/// The block listing holds the group of every address, whole and at its
/// place: the groups follow one another in ascending address order.
pub proof fn lemma_block_layout(
    table: Seq<Label>,
    slots: Seq<LabelSlot>,
    program: Seq<String>,
    addr: int,
)
    requires
        0 <= addr < program.len(),
    ensures
        0 <= group_start(slots, addr) < group_start(slots, addr + 1) <= block_text(
            table,
            slots,
            program,
        ).len(),
        block_text(table, slots, program).len() == group_start(slots, program.len() as int),
        block_text(table, slots, program).subrange(
            group_start(slots, addr),
            group_start(slots, addr + 1),
        ) == block_group_text(table, slots[addr], program[addr]@),
    decreases program.len(),
{
    let rest = program.drop_last();
    let text = block_text(table, slots, program);
    let group = block_group_text(table, slots[program.len() - 1], program.last()@);
    lemma_block_len(table, slots, program);
    lemma_block_len(table, slots, rest);
    lemma_group_start_rises(slots, addr, addr + 1);
    lemma_group_start_rises(slots, addr + 1, program.len() as int);
    if addr == program.len() - 1 {
        assert(text.subrange(group_start(slots, addr), group_start(slots, addr + 1)) =~= group);
    } else {
        lemma_block_layout(table, slots, rest, addr);
        assert(text.subrange(group_start(slots, addr), group_start(slots, addr + 1))
            =~= block_text(table, slots, rest).subrange(
            group_start(slots, addr),
            group_start(slots, addr + 1),
        ));
    }
}

/// In block style the directive of every address stands on a line of its
/// own, the last line of the listing is the last directive, and the
/// directive of a lower address stands above that of a higher one.
pub proof fn lemma_directives_in_order(
    table: Seq<Label>,
    slots: Seq<LabelSlot>,
    program: Seq<String>,
    low: int,
    high: int,
)
    requires
        0 <= low <= high < program.len(),
    ensures
        0 <= directive_at(slots, low) <= directive_at(slots, high) < block_text(
            table,
            slots,
            program,
        ).len(),
        low < high ==> directive_at(slots, low) < directive_at(slots, high),
        block_text(table, slots, program)[directive_at(slots, low)] == directive_text(
            program[low]@,
        ),
        block_text(table, slots, program).len() == directive_at(slots, program.len() - 1) + 1,
{
    let text = block_text(table, slots, program);
    lemma_block_layout(table, slots, program, low);
    lemma_block_layout(table, slots, program, high);
    lemma_group_start_rises(slots, low + 1, high + 1);
    let from = group_start(slots, low);
    let to = group_start(slots, low + 1);
    assert(text.subrange(from, to)[to - from - 1] == text[to - 1]);
}

/// Every line of the block listing belongs to the group of exactly one
/// address. It is that address's directive if it is the last line of the
/// group; any other line is blank or ends in a colon. So each address
/// appears once and none is skipped.
pub proof fn lemma_line_owner(
    table: Seq<Label>,
    slots: Seq<LabelSlot>,
    program: Seq<String>,
    line: int,
) -> (addr: int)
    requires
        0 <= line < block_text(table, slots, program).len(),
    ensures
        0 <= addr < program.len(),
        group_start(slots, addr) <= line <= directive_at(slots, addr),
        line == directive_at(slots, addr) ==> block_text(table, slots, program)[line]
            == directive_text(program[addr]@),
        line < directive_at(slots, addr) ==> block_text(table, slots, program)[line].len() == 0
            || block_text(table, slots, program)[line].last() == ':',
    decreases program.len(),
{
    let rest = program.drop_last();
    let last = program.len() - 1;
    lemma_block_len(table, slots, rest);
    if line < group_start(slots, last) {
        let addr = lemma_line_owner(table, slots, rest, line);
        assert(block_text(table, slots, program)[line] == block_text(table, slots, rest)[line]);
        addr
    } else {
        lemma_block_layout(table, slots, program, last);
        let text = block_text(table, slots, program);
        let from = group_start(slots, last);
        let group = block_group_text(table, slots[last], program[last]@);
        assert(text.subrange(from, group_start(slots, last + 1))[line - from] == text[line]);
        assert(group[line - from] == text[line]);
        last
    }
}

/// The label names of a slot of the index are the names of the labels that
/// the table binds to its address, in the order of the table.
pub proof fn lemma_slot_names(index: &LabelIndex, addr: int)
    requires
        index.wf(),
        0 <= addr < index.slots().len(),
    ensures
        slot_names(index.table(), index.slots()[addr]) == hits(index.table(), addr).map_values(
            |at: usize| index.table()[at as int].name@,
        ),
{
    lemma_hits_within(index.table(), addr);
    let found = hits(index.table(), addr);
    assert(Some(index.slots()[addr]) == slot_of(index.table(), addr));
    if found.len() == 2 {
        assert(found[0] < found[1]);
    }
    assert(slot_names(index.table(), index.slots()[addr]) =~= found.map_values(
        |at: usize| index.table()[at as int].name@,
    ));
}

/// Inline style, said of the label table: an address to which the table
/// binds no label gets two tabs and then its directive; any other address
/// gets the names of its labels in the order of the table, joined by a comma
/// and a space, then a colon, a tab and its directive.
pub proof fn lemma_inline_labels(index: &LabelIndex, directive: Seq<char>, addr: int)
    requires
        index.wf(),
        0 <= addr < index.slots().len(),
    ensures
        ({
            let names = hits(index.table(), addr).map_values(
                |at: usize| index.table()[at as int].name@,
            );
            let line = inline_text(slot_names(index.table(), index.slots()[addr]), directive);
            &&& names.len() == 0 ==> line.len() == directive.len() + 2 && line[0] == '\t'
                && line[1] == '\t' && line.skip(2) == directive
            &&& names.len() > 0 ==> line == joined(names, seq![',', ' ']) + seq![':', '\t']
                + directive
        }),
{
    lemma_slot_names(index, addr);
    let line = inline_text(slot_names(index.table(), index.slots()[addr]), directive);
    if hits(index.table(), addr).len() == 0 {
        assert(line.skip(2) =~= directive);
    }
}

/// An address with exactly one label: block style puts the label, indented,
/// on the line just above the directive, and the group has no other line, so
/// no blank line comes with it.
pub proof fn lemma_single_label(index: &LabelIndex, program: Seq<String>, addr: int)
    requires
        index.wf(),
        index.slots().len() == program.len(),
        0 <= addr < program.len(),
        hits(index.table(), addr).len() == 1,
    ensures
        ({
            let text = block_text(index.table(), index.slots(), program);
            let at = directive_at(index.slots(), addr);
            let name = index.table()[hits(index.table(), addr)[0] as int].name@;
            &&& at == group_start(index.slots(), addr) + 1
            &&& 1 <= at < text.len()
            &&& text[at - 1] == label_text(name, true)
            &&& text[at] == directive_text(program[addr]@)
        }),
{
    let text = block_text(index.table(), index.slots(), program);
    let from = group_start(index.slots(), addr);
    let to = group_start(index.slots(), addr + 1);
    lemma_block_layout(index.table(), index.slots(), program, addr);
    assert(Some(index.slots()[addr]) == slot_of(index.table(), addr));
    assert(text.subrange(from, to)[0] == text[from]);
    assert(text.subrange(from, to)[1] == text[from + 1]);
}

/// An address with two labels of which exactly one carries the inner prefix:
/// block style puts a blank line, then the outer label unindented, then the
/// inner label indented, then the directive, whichever of the two comes
/// first in the table.
pub proof fn lemma_label_pair(index: &LabelIndex, program: Seq<String>, addr: int)
    requires
        index.wf(),
        index.slots().len() == program.len(),
        0 <= addr < program.len(),
        hits(index.table(), addr).len() == 2,
        is_inner_name(index.table()[hits(index.table(), addr)[0] as int].name@) != is_inner_name(
            index.table()[hits(index.table(), addr)[1] as int].name@,
        ),
    ensures
        ({
            let text = block_text(index.table(), index.slots(), program);
            let at = directive_at(index.slots(), addr);
            let first = index.table()[hits(index.table(), addr)[0] as int].name@;
            let second = index.table()[hits(index.table(), addr)[1] as int].name@;
            let inner = if is_inner_name(first) { first } else { second };
            let outer = if is_inner_name(first) { second } else { first };
            &&& is_inner_name(inner) && !is_inner_name(outer)
            &&& at == group_start(index.slots(), addr) + 3
            &&& 3 <= at < text.len()
            &&& text[at - 3].len() == 0
            &&& text[at - 2] == label_text(outer, false)
            &&& text[at - 1] == label_text(inner, true)
            &&& text[at] == directive_text(program[addr]@)
        }),
{
    let text = block_text(index.table(), index.slots(), program);
    let from = group_start(index.slots(), addr);
    let to = group_start(index.slots(), addr + 1);
    lemma_block_layout(index.table(), index.slots(), program, addr);
    assert(Some(index.slots()[addr]) == slot_of(index.table(), addr));
    assert(text.subrange(from, to)[0] == text[from]);
    assert(text.subrange(from, to)[1] == text[from + 1]);
    assert(text.subrange(from, to)[2] == text[from + 2]);
    assert(text.subrange(from, to)[3] == text[from + 3]);
}

} // verus!
