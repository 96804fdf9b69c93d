//! The profile report laid out for output: as a document of keys and values,
//! ready to be written in any nested key/value format, and as summary lines.

use crate::profile::ProfileReport;
use crate::text::{decimal, decimal_text};
use vstd::prelude::*;
use vstd::string::*;

verus! {

/// A key with a number, inside a group.
pub struct Entry {
    pub key: String,
    pub value: u128,
}

/// The value of a field of the document.
pub enum Item {
    /// One number.
    Number(u128),
    /// A list of numbers.
    Numbers(Vec<u32>),
    /// A nested group of keys with numbers.
    Group(Vec<Entry>),
}

/// A key of the document with its value.
pub struct Field {
    pub key: String,
    pub item: Item,
}

/// What an `Item` holds, as mathematical values.
pub enum ItemModel {
    Number(int),
    Numbers(Seq<u32>),
    Group(Seq<(Seq<char>, int)>),
}

impl Entry {
    /// The key's characters and the number.
    pub open spec fn model(self) -> (Seq<char>, int) {
        (self.key@, self.value as int)
    }
}

impl Item {
    /// The item as mathematical values.
    pub open spec fn model(self) -> ItemModel {
        match self {
            Item::Number(n) => ItemModel::Number(n as int),
            Item::Numbers(list) => ItemModel::Numbers(list@),
            Item::Group(entries) => ItemModel::Group(
                entries@.map_values(|entry: Entry| entry.model()),
            ),
        }
    }
}

impl Field {
    /// The key's characters and the item's model.
    pub open spec fn model(self) -> (Seq<char>, ItemModel) {
        (self.key@, self.item.model())
    }
}

/// The document of a report: the counts themselves, the three totals, and
/// the range of executed addresses as a group of its two ends.
pub open spec fn document_of(report: ProfileReport, counts: Seq<u32>) -> Seq<
    (Seq<char>, ItemModel),
> {
    seq![
        ("pc_counter"@, ItemModel::Numbers(counts)),
        ("max_count"@, ItemModel::Number(report.max_count as int)),
        ("total_instructions"@, ItemModel::Number(report.total_instructions as int)),
        ("data_points"@, ItemModel::Number(report.data_points as int)),
        (
            "pc_range"@,
            ItemModel::Group(
                seq![("start"@, report.pc_start as int), ("end"@, report.pc_end as int)],
            ),
        ),
    ]
}

/// A field that holds one number.
fn number_field(key: &str, value: u128) -> (field: Field)
    ensures
        field.model() == (key@, ItemModel::Number(value as int)),
{
    Field { key: String::from_str(key), item: Item::Number(value) }
}

/// Lays out `report` and the counts that it summarizes as a document.
pub fn document(report: &ProfileReport, counts: &Vec<u32>) -> (fields: Vec<Field>)
    ensures
        fields@.map_values(|field: Field| field.model()) == document_of(*report, counts@),
{
    let mut copy: Vec<u32> = Vec::new();
    let mut pc: usize = 0;
    while pc < counts.len()
        invariant
            pc <= counts.len(),
            copy@ == counts@.take(pc as int),
        decreases counts.len() - pc,
    {
        copy.push(counts[pc]);
        assert(copy@ =~= counts@.take(pc + 1));
        pc = pc + 1;
    }
    assert(counts@.take(pc as int) =~= counts@);
    let mut range: Vec<Entry> = Vec::new();
    range.push(Entry { key: String::from_str("start"), value: report.pc_start as u128 });
    range.push(Entry { key: String::from_str("end"), value: report.pc_end as u128 });
    assert(range@.map_values(|entry: Entry| entry.model()) =~= seq![
        ("start"@, report.pc_start as int),
        ("end"@, report.pc_end as int),
    ]);
    let mut fields: Vec<Field> = Vec::new();
    fields.push(Field { key: String::from_str("pc_counter"), item: Item::Numbers(copy) });
    fields.push(number_field("max_count", report.max_count as u128));
    fields.push(number_field("total_instructions", report.total_instructions));
    fields.push(number_field("data_points", report.data_points as u128));
    fields.push(Field { key: String::from_str("pc_range"), item: Item::Group(range) });
    assert(fields@.map_values(|field: Field| field.model()) =~= document_of(*report, counts@));
    fields
}

/// The two summary lines of a report: the totals, then the range of executed
/// addresses.
pub open spec fn summary_of(report: ProfileReport) -> Seq<Seq<char>> {
    seq![
        "Histogram data: "@ + decimal_text(report.data_points as nat)
            + " data points, max count: "@ + decimal_text(report.max_count as nat)
            + ", total instructions: "@ + decimal_text(report.total_instructions as nat),
        "PC range: "@ + decimal_text(report.pc_start as nat) + " to "@ + decimal_text(
            report.pc_end as nat,
        ),
    ]
}

/// Writes the summary lines of `report`.
pub fn summary_lines(report: &ProfileReport) -> (lines: Vec<String>)
    ensures
        lines@.map_values(|line: String| line@) == summary_of(*report),
{
    let mut totals = String::from_str("Histogram data: ");
    totals.append(decimal(report.data_points as u128).as_str());
    totals.append(" data points, max count: ");
    totals.append(decimal(report.max_count as u128).as_str());
    totals.append(", total instructions: ");
    totals.append(decimal(report.total_instructions).as_str());
    let mut range = String::from_str("PC range: ");
    range.append(decimal(report.pc_start as u128).as_str());
    range.append(" to ");
    range.append(decimal(report.pc_end as u128).as_str());
    let mut lines: Vec<String> = Vec::new();
    lines.push(totals);
    lines.push(range);
    assert(lines@.map_values(|line: String| line@) =~= summary_of(*report));
    lines
}

} // verus!
