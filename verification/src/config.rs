//! The opcode table handed to the assembler as data: one entry per mnemonic,
//! giving its binary encoding and the arity and kinds of its arguments.

use vstd::prelude::*;

verus! {

/// The argument kind an opcode position expects.
#[derive(Clone, Copy, Debug, PartialEq, Eq, Structural)]
pub enum OpcodeArg {
    /// An indirect number, referring to a memory location.
    Indirect,

    /// A direct/immediate number.
    Immediate,
}

/// The mathematical value of an opcode definition.
pub ghost struct SpecOpcode {
    pub mnemonic: Seq<char>,
    pub binary: u8,
    pub args: Seq<OpcodeArg>,
}

/// An opcode definition consumed by the assembler.
#[derive(Clone, Debug, PartialEq, Eq)]
pub struct Opcode {
    /// The name of the opcode. Matched case-sensitively.
    pub mnemonic: String,

    /// The binary representation of the opcode, as a byte.
    pub binary: u8,

    /// The expected argument kinds, one entry per argument *byte*. A numeric
    /// argument occupies one byte; a label argument occupies two.
    pub args: Vec<OpcodeArg>,
}

impl View for Opcode {
    type V = SpecOpcode;

    open spec fn view(&self) -> SpecOpcode {
        SpecOpcode { mnemonic: self.mnemonic@, binary: self.binary, args: self.args@ }
    }
}

/// The main configuration type for the assembler.
#[derive(Clone, Debug, PartialEq, Eq)]
pub struct AssemblerConfig {
    /// The opcodes known to the assembler.
    pub opcodes: Vec<Opcode>,
}

impl View for AssemblerConfig {
    type V = Seq<SpecOpcode>;

    open spec fn view(&self) -> Seq<SpecOpcode> {
        Seq::new(self.opcodes@.len(), |i: int| self.opcodes@[i]@)
    }
}

/// The first opcode in `ops` whose mnemonic is `name`, if any.
pub open spec fn spec_get_opcode(ops: Seq<SpecOpcode>, name: Seq<char>) -> Option<SpecOpcode>
    decreases ops.len(),
{
    if ops.len() == 0 {
        None
    } else if ops[0].mnemonic == name {
        Some(ops[0])
    } else {
        spec_get_opcode(ops.drop_first(), name)
    }
}

impl AssemblerConfig {
    /// Gets an opcode by its name: the first entry whose mnemonic equals
    /// `mnemonic`, or `None` when no entry matches.
    pub fn get_opcode(&self, mnemonic: &str) -> (r: Option<&Opcode>)
        ensures
            match r {
                Some(op) => spec_get_opcode(self@, mnemonic@) == Some(op@),
                None => spec_get_opcode(self@, mnemonic@) is None,
            },
    {
        let wanted: String = mnemonic.to_owned();
        let n = self.opcodes.len();
        proof {
            assert(self@.skip(0) =~= self@);
        }
        for i in 0..n
            invariant
                n == self.opcodes@.len(),
                wanted@ == mnemonic@,
                spec_get_opcode(self@, mnemonic@) == spec_get_opcode(
                    self@.skip(i as int),
                    mnemonic@,
                ),
                forall|j: int| 0 <= j < i ==> self.opcodes@[j]@.mnemonic != mnemonic@,
        {
            proof {
                assert(self@.skip(i as int)[0] == self.opcodes@[i as int]@);
                assert(self@.skip(i as int).drop_first() =~= self@.skip(i + 1));
            }
            if self.opcodes[i].mnemonic == wanted {
                return Some(&self.opcodes[i]);
            }
        }
        proof {
            assert(self@.skip(n as int) =~= Seq::<SpecOpcode>::empty());
        }
        None
    }
}

} // verus!
