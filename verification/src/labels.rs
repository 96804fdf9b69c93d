//! Address-label index: which labels are anchored at each program address.

use vstd::prelude::*;
use vstd::string::*;

verus! {

/// A named anchor bound to one program address.
#[derive(Clone, Debug)]
pub struct Label {
    pub name: String,
    pub pc: u32,
}

/// Names that begin with two underscores mark a loop re-entry point.
pub open spec fn is_inner_name(name: Seq<char>) -> bool {
    name.len() >= 2 && name[0] == '_' && name[1] == '_'
}

/// Tells whether `name` carries the reserved prefix of inner labels.
pub fn is_inner(name: &str) -> (inner: bool)
    ensures
        inner == is_inner_name(name@),
{
    let len: usize = name.unicode_len();
    len >= 2 && name.get_char(0) == '_' && name.get_char(1) == '_'
}

/// Positions in `table`, ascending, of the labels bound to `addr`.
pub open spec fn hits(table: Seq<Label>, addr: int) -> Seq<usize>
    decreases table.len(),
{
    if table.len() == 0 {
        Seq::empty()
    } else if table.last().pc == addr {
        hits(table.drop_last(), addr).push((table.len() - 1) as usize)
    } else {
        hits(table.drop_last(), addr)
    }
}

/// What is anchored at one address. The fields are positions in the label
/// table.
#[derive(Clone, Copy, Debug, PartialEq, Eq, Structural)]
pub enum LabelSlot {
    /// No label.
    Empty,
    /// Exactly one label.
    Single { label: usize },
    /// A loop header (`inner`) that shares its address with the enclosing
    /// block (`outer`).
    Pair { outer: usize, inner: usize },
}

impl LabelSlot {
    /// Every position that the slot holds lies inside a table of `len` labels.
    pub open spec fn within(self, len: int) -> bool {
        match self {
            LabelSlot::Empty => true,
            LabelSlot::Single { label } => label < len,
            LabelSlot::Pair { outer, inner } => outer < len && inner < len,
        }
    }
}

/// The slot for an address whose labels sit at the positions `found`; `None`
/// for more than two labels. Of two labels, the first is taken as the inner
/// one if its name carries the reserved prefix, else the second.
pub open spec fn slot_for(table: Seq<Label>, found: Seq<usize>) -> Option<LabelSlot> {
    if found.len() == 0 {
        Some(LabelSlot::Empty)
    } else if found.len() == 1 {
        Some(LabelSlot::Single { label: found[0] })
    } else if found.len() == 2 {
        if is_inner_name(table[found[0] as int].name@) {
            Some(LabelSlot::Pair { outer: found[1], inner: found[0] })
        } else {
            Some(LabelSlot::Pair { outer: found[0], inner: found[1] })
        }
    } else {
        None
    }
}

/// The slot of `addr` under `table`.
pub open spec fn slot_of(table: Seq<Label>, addr: int) -> Option<LabelSlot> {
    slot_for(table, hits(table, addr))
}

/// Some address below `len` carries more than two labels.
pub open spec fn crowded(table: Seq<Label>, len: int) -> bool {
    exists|addr: int| 0 <= addr < len && #[trigger] hits(table, addr).len() > 2
}

/// An address that carries more than two labels: `label` is the position in
/// the table of the third label bound to `pc`.
#[derive(Clone, Copy, Debug, PartialEq, Eq, Structural)]
pub struct CrowdedAddress {
    pub pc: u32,
    pub label: usize,
}

/// Every position in `hits` lies inside the table and holds a label bound to
/// `addr`, and the positions ascend.
pub proof fn lemma_hits_within(table: Seq<Label>, addr: int)
    requires
        table.len() <= usize::MAX,
    ensures
        hits(table, addr).len() <= table.len(),
        forall|i: int, j: int|
            0 <= i < j < hits(table, addr).len() ==> (#[trigger] hits(table, addr)[i]) < (
            #[trigger] hits(table, addr)[j]),
        forall|i: int|
            0 <= i < hits(table, addr).len() ==> (#[trigger] hits(table, addr)[i]) < table.len()
                && table[hits(table, addr)[i] as int].pc == addr,
    decreases table.len(),
{
    if table.len() > 0 {
        let rest = table.drop_last();
        lemma_hits_within(rest, addr);
        assert forall|i: int| 0 <= i < hits(table, addr).len() implies (#[trigger] hits(
            table,
            addr,
        )[i]) < table.len() && table[hits(table, addr)[i] as int].pc == addr by {
            if i < hits(rest, addr).len() {
                assert(hits(table, addr)[i] == hits(rest, addr)[i]);
                assert(rest[hits(rest, addr)[i] as int] == table[hits(rest, addr)[i] as int]);
            }
        }
    }
}

/// A prefix of the table binds no more labels to an address than the table.
pub proof fn lemma_hits_grow(table: Seq<Label>, k: int, addr: int)
    requires
        0 <= k <= table.len(),
    ensures
        hits(table.take(k), addr).len() <= hits(table, addr).len(),
    decreases table.len(),
{
    if k == table.len() {
        assert(table.take(k) =~= table);
    } else {
        lemma_hits_grow(table.drop_last(), k, addr);
        assert(table.drop_last().take(k) =~= table.take(k));
    }
}

/// For each address of a program, the labels anchored there, classified once.
pub struct LabelIndex {
    labels: Vec<Label>,
    slots: Vec<LabelSlot>,
}

impl LabelIndex {
    /// The label table that the index was built from.
    pub closed spec fn table(&self) -> Seq<Label> {
        self.labels@
    }

    /// One slot per address.
    pub closed spec fn slots(&self) -> Seq<LabelSlot> {
        self.slots@
    }

    /// Each slot is the one that the table gives its address.
    pub open spec fn wf(&self) -> bool {
        &&& self.table().len() <= usize::MAX
        &&& forall|addr: int|
            0 <= addr < self.slots().len() ==> {
                &&& Some(#[trigger] self.slots()[addr]) == slot_of(self.table(), addr)
                &&& self.slots()[addr].within(self.table().len() as int)
            }
    }

    /// Number of addresses that the index covers.
    pub fn len(&self) -> (len: usize)
        ensures
            len == self.slots().len(),
    {
        self.slots.len()
    }

    /// The slot of `addr`.
    pub fn slot(&self, addr: usize) -> (slot: LabelSlot)
        requires
            addr < self.slots().len(),
        ensures
            slot == self.slots()[addr as int],
    {
        self.slots[addr]
    }

    /// The label at `position` in the table.
    pub fn label(&self, position: usize) -> (label: &Label)
        requires
            position < self.table().len(),
        ensures
            *label == self.table()[position as int],
    {
        &self.labels[position]
    }

    /// The whole label table, in the order in which it was given.
    pub fn labels(&self) -> (labels: &Vec<Label>)
        ensures
            labels@ == self.table(),
    {
        &self.labels
    }

    /// Groups `labels` by address, for a program of `len` addresses. Labels
    /// bound past the end of the program are kept in the table and belong to
    /// no slot. Fails at the first label that is the third at its address.
    pub fn build(labels: Vec<Label>, len: usize) -> (built: Result<LabelIndex, CrowdedAddress>)
        ensures
            built is Ok <==> !crowded(labels@, len as int),
            built matches Ok(index) ==> index.wf() && index.table() == labels@
                && index.slots().len() == len,
            built matches Err(fault) ==> {
                &&& fault.label < labels.len()
                &&& fault.pc == labels[fault.label as int].pc
                &&& fault.pc < len
                &&& !crowded(labels@.take(fault.label as int), len as int)
                &&& hits(labels@.take(fault.label + 1), fault.pc as int).len() == 3
            },
    {
        let mut slots: Vec<LabelSlot> = Vec::new();
        let mut addr: usize = 0;
        while addr < len
            invariant
                addr <= len,
                slots.len() == addr,
                forall|a: int| 0 <= a < addr ==> slots[a] == LabelSlot::Empty,
            decreases len - addr,
        {
            slots.push(LabelSlot::Empty);
            addr = addr + 1;
        }
        let mut k: usize = 0;
        while k < labels.len()
            invariant
                k <= labels.len(),
                slots.len() == len,
                forall|a: int|
                    0 <= a < len ==> {
                        &&& Some(#[trigger] slots[a]) == slot_for(
                            labels@,
                            hits(labels@.take(k as int), a),
                        )
                        &&& slots[a].within(k as int)
                    },
            decreases labels.len() - k,
        {
            let pc: u32 = labels[k].pc;
            proof {
                assert(labels@.take(k + 1).drop_last() =~= labels@.take(k as int));
                assert(labels@.take(k + 1).last() == labels[k as int]);
                assert forall|a: int| 0 <= a < len implies hits(labels@.take(k as int), a).len()
                    <= 2 by {
                    assert(Some(slots[a]) == slot_for(labels@, hits(labels@.take(k as int), a)));
                }
            }
            if (pc as usize) < len {
                let at: usize = pc as usize;
                let ghost before = hits(labels@.take(k as int), at as int);
                assert(hits(labels@.take(k + 1), at as int) == before.push(k));
                assert(Some(slots[at as int]) == slot_for(labels@, before));
                let next: LabelSlot = match slots[at] {
                    LabelSlot::Empty => LabelSlot::Single { label: k },
                    LabelSlot::Single { label } => {
                        assert(before[0] == label);
                        if is_inner(labels[label].name.as_str()) {
                            LabelSlot::Pair { outer: k, inner: label }
                        } else {
                            LabelSlot::Pair { outer: label, inner: k }
                        }
                    },
                    LabelSlot::Pair { .. } => {
                        proof {
                            assert(!crowded(labels@.take(k as int), len as int));
                            lemma_hits_grow(labels@, k + 1, at as int);
                            assert(hits(labels@, at as int).len() > 2);
                        }
                        return Err(CrowdedAddress { pc, label: k });
                    },
                };
                slots.set(at, next);
            }
            k = k + 1;
        }
        proof {
            assert(labels@.take(k as int) =~= labels@);
            assert forall|a: int| 0 <= a < len implies hits(labels@, a).len() <= 2 by {
                assert(Some(slots[a]) == slot_for(labels@, hits(labels@, a)));
            }
        }
        Ok(LabelIndex { labels, slots })
    }
}

} // verus!
