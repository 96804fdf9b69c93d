//! Host-call table: the named operations that a running program may ask of
//! its environment, answered from a fixed array of input words.

use crate::text::{decimal, decimal_text, join, joined, same_text};
use vstd::prelude::*;
use vstd::string::*;

verus! {

/// The operations that the table knows, and one for every other name.
#[derive(Clone, Copy, Debug, PartialEq, Eq, Structural)]
pub enum HostOp {
    /// `env.read_u32`: read one input word by its position.
    ReadU32,
    /// `env.abort`: stop the run.
    Abort,
    /// Any other pair of names.
    Unsupported,
}

/// Why a host call gives no result.
#[derive(Clone, Copy, Debug, PartialEq, Eq, Structural)]
pub enum HostFault {
    /// `read_u32` was called without a position.
    MissingArgument,
    /// `read_u32` was asked for a position past the end of the input words.
    OutOfBounds { index: u32, len: usize },
    /// The program called `abort`.
    Aborted,
    /// The table has no operation of that name.
    Unsupported,
}

/// The operation that a module name and a function name stand for.
pub open spec fn op_of(module: Seq<char>, function: Seq<char>) -> HostOp {
    if module == "env"@ && function == "read_u32"@ {
        HostOp::ReadU32
    } else if module == "env"@ && function == "abort"@ {
        HostOp::Abort
    } else {
        HostOp::Unsupported
    }
}

/// What a call answers over the input words `values`: `read_u32` gives the
/// word at the position that its first argument names; everything else is a
/// fault.
pub open spec fn outcome_of(values: Seq<u32>, op: HostOp, args: Seq<u32>) -> Result<
    Seq<u32>,
    HostFault,
> {
    match op {
        HostOp::ReadU32 => if args.len() == 0 {
            Err(HostFault::MissingArgument)
        } else if args[0] < values.len() {
            Ok(seq![values[args[0] as int]])
        } else {
            Err(HostFault::OutOfBounds { index: args[0], len: values.len() as usize })
        },
        HostOp::Abort => Err(HostFault::Aborted),
        HostOp::Unsupported => Err(HostFault::Unsupported),
    }
}

/// Finds the operation that `module` and `function` name.
pub fn resolve(module: &str, function: &str) -> (op: HostOp)
    ensures
        op == op_of(module@, function@),
{
    if same_text(module, "env") && same_text(function, "read_u32") {
        HostOp::ReadU32
    } else if same_text(module, "env") && same_text(function, "abort") {
        HostOp::Abort
    } else {
        HostOp::Unsupported
    }
}

/// The host-call table of one run, with the input words that it serves.
pub struct DataInput {
    values: Vec<u32>,
}

impl View for DataInput {
    type V = Seq<u32>;

    closed spec fn view(&self) -> Seq<u32> {
        self.values@
    }
}

impl DataInput {
    /// A table that serves `values`.
    pub fn new(values: Vec<u32>) -> (input: Self)
        ensures
            input@ == values@,
    {
        Self { values }
    }

    /// Answers a host call, or says why it has no answer. The input words
    /// are not changed.
    pub fn try_call(&self, module: &str, function: &str, args: &[u32]) -> (answer: Result<
        Vec<u32>,
        HostFault,
    >)
        ensures
            match outcome_of(self@, op_of(module@, function@), args@) {
                Ok(words) => answer matches Ok(found) && found@ == words,
                Err(fault) => answer matches Err(given) && given == fault,
            },
    {
        match resolve(module, function) {
            HostOp::ReadU32 => {
                if args.len() == 0 {
                    return Err(HostFault::MissingArgument);
                }
                let index: u32 = args[0];
                if (index as usize) < self.values.len() {
                    let mut words: Vec<u32> = Vec::new();
                    words.push(self.values[index as usize]);
                    assert(words@ =~= seq![self@[index as int]]);
                    Ok(words)
                } else {
                    Err(HostFault::OutOfBounds { index, len: self.values.len() })
                }
            },
            HostOp::Abort => Err(HostFault::Aborted),
            HostOp::Unsupported => Err(HostFault::Unsupported),
        }
    }

    /// Answers a host call that has an answer: `env.read_u32` with a position
    /// inside the input words. The input words are not changed.
    pub fn call(&mut self, module: &str, function: &str, args: &[u32]) -> (words: Vec<u32>)
        requires
            outcome_of(old(self)@, op_of(module@, function@), args@) is Ok,
        ensures
            final(self)@ == old(self)@,
            Ok::<Seq<u32>, HostFault>(words@) == outcome_of(
                old(self)@,
                op_of(module@, function@),
                args@,
            ),
    {
        let index: u32 = args[0];
        let mut words: Vec<u32> = Vec::new();
        words.push(self.values[index as usize]);
        assert(words@ =~= seq![self@[index as int]]);
        words
    }
}

/// A list of words as text: in square brackets, separated by a comma and a
/// space.
pub open spec fn list_text(words: Seq<u32>) -> Seq<char> {
    seq!['['] + joined(words.map_values(|word: u32| decimal_text(word as nat)), seq![',', ' '])
        + seq![']']
}

/// The message that reports a fault of the call of `module.function` with
/// `args`.
pub open spec fn fault_text(
    fault: HostFault,
    module: Seq<char>,
    function: Seq<char>,
    args: Seq<u32>,
) -> Seq<char> {
    match fault {
        HostFault::MissingArgument => "index out of bounds: the len is 0 but the index is 0"@,
        HostFault::OutOfBounds { index, len } => "index out of bounds: the len is "@
            + decimal_text(len as nat) + " but the index is "@ + decimal_text(index as nat),
        HostFault::Aborted => "Abort called with args: "@ + list_text(args),
        HostFault::Unsupported => "External function not implemented: "@ + module + seq!['.']
            + function + " with args: "@ + list_text(args),
    }
}

/// Writes a list of words as text.
pub fn list_message(words: &[u32]) -> (text: String)
    ensures
        text@ == list_text(words@),
{
    let mut parts: Vec<String> = Vec::new();
    let mut at: usize = 0;
    while at < words.len()
        invariant
            at <= words.len(),
            parts.len() == at,
            forall|i: int| 0 <= i < at ==> (#[trigger] parts[i])@ == decimal_text(words[i] as nat),
        decreases words.len() - at,
    {
        parts.push(decimal(words[at] as u128));
        at = at + 1;
    }
    assert(parts@.map_values(|part: String| part@) =~= words@.map_values(
        |word: u32| decimal_text(word as nat),
    ));
    let mut text = String::from_str("[");
    text.append(join(&parts, ", ").as_str());
    text.append("]");
    proof {
        reveal_strlit("[");
        reveal_strlit(", ");
        reveal_strlit("]");
        assert("["@ =~= seq!['[']);
        assert(", "@ =~= seq![',', ' ']);
        assert("]"@ =~= seq![']']);
    }
    text
}

/// Writes the message that reports `fault` for the call of
/// `module.function` with `args`.
pub fn fault_message(fault: HostFault, module: &str, function: &str, args: &[u32]) -> (text:
    String)
    ensures
        text@ == fault_text(fault, module@, function@, args@),
{
    match fault {
        HostFault::MissingArgument => String::from_str(
            "index out of bounds: the len is 0 but the index is 0",
        ),
        HostFault::OutOfBounds { index, len } => {
            let mut text = String::from_str("index out of bounds: the len is ");
            text.append(decimal(len as u128).as_str());
            text.append(" but the index is ");
            text.append(decimal(index as u128).as_str());
            text
        },
        HostFault::Aborted => {
            let mut text = String::from_str("Abort called with args: ");
            text.append(list_message(args).as_str());
            text
        },
        HostFault::Unsupported => {
            let mut text = String::from_str("External function not implemented: ");
            text.append(module);
            text.append(".");
            text.append(function);
            text.append(" with args: ");
            text.append(list_message(args).as_str());
            proof {
                reveal_strlit(".");
                assert("."@ =~= seq!['.']);
            }
            text
        },
    }
}

} // verus!
