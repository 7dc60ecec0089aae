//! The statement list the parser produces, together with the symbol table of
//! label offsets. Byte lengths of statements are known here, before any label
//! is resolved, which is what makes forward references work.

use vstd::prelude::*;

use crate::position::Position;

verus! {

/// The size of an emitted label address, in bytes. Label addresses are always
/// encoded as this many bytes, regardless of context.
pub const LABEL_SIZE: u16 = 2;

/// A label name.
pub type Label = String;

/// The mathematical value of an argument.
pub ghost struct SpecArg<T> {
    pub kind: SpecArgKind<T>,
    pub span: Position,
}

/// The mathematical value of an argument's kind.
pub ghost enum SpecArgKind<T> {
    ImmediateNumber(T),
    IndirectNumber(T),
    Label(Seq<char>),
}

/// The kind of argument an instruction takes. `T` is the integer width of a
/// numeric argument: 8 bits for opcode arguments, 16 bits for directive
/// arguments.
#[derive(Clone, Debug, PartialEq, Eq)]
pub enum ArgumentKind<T> {
    /// A direct or immediate numeric value.
    ImmediateNumber(T),

    /// An indirect numeric value, referencing a point in memory.
    IndirectNumber(T),

    /// A label, which stands for the address it was defined at.
    Label(Label),
}

/// An argument to a directive or opcode, with its source span.
#[derive(Clone, Debug, PartialEq, Eq)]
pub struct Argument<T> {
    /// The kind of argument.
    pub kind: ArgumentKind<T>,

    /// The span of the argument in the source code.
    pub span: Position,
}

impl<T> View for ArgumentKind<T> {
    type V = SpecArgKind<T>;

    open spec fn view(&self) -> SpecArgKind<T> {
        match self {
            ArgumentKind::ImmediateNumber(v) => SpecArgKind::ImmediateNumber(*v),
            ArgumentKind::IndirectNumber(v) => SpecArgKind::IndirectNumber(*v),
            ArgumentKind::Label(l) => SpecArgKind::Label(l@),
        }
    }
}

impl<T> View for Argument<T> {
    type V = SpecArg<T>;

    open spec fn view(&self) -> SpecArg<T> {
        SpecArg { kind: self.kind@, span: self.span }
    }
}

impl<T> Argument<T> {
    /// Create a new argument.
    pub fn new(kind: ArgumentKind<T>, span: Position) -> (r: Argument<T>)
        ensures
            r@ == (SpecArg { kind: kind@, span }),
    {
        Argument { kind, span }
    }
}

/// The directives the assembler understands.
#[derive(Clone, Copy, Debug, PartialEq, Eq, Structural)]
pub enum Keyword {
    /// The `.org` directive, which relocates the write cursor.
    Org,

    /// The `.byte` directive, which emits its arguments' bytes directly.
    Byte,
}

/// The views of a sequence of arguments.
pub open spec fn args_view<T>(args: Seq<Argument<T>>) -> Seq<SpecArg<T>> {
    args.map_values(|a: Argument<T>| a@)
}

/// The mathematical value of a statement's kind.
pub ghost enum SpecInstructionKind {
    Label(Seq<char>),
    Opcode { mnemonic: Seq<char>, arguments: Seq<SpecArg<u8>> },
    Keyword { keyword: Keyword, arguments: Seq<SpecArg<u16>> },
}

/// One statement of the source: a label definition, an opcode instruction, or
/// a directive.
#[derive(Clone, Debug, PartialEq, Eq)]
pub enum InstructionKind {
    /// A label definition: a name followed by a colon.
    Label(Label),

    /// An opcode: a mnemonic followed by its arguments.
    Opcode {
        /// The mnemonic of the opcode.
        mnemonic: String,
        /// The arguments of the opcode, 8 bits wide.
        arguments: Vec<Argument<u8>>,
    },

    /// A directive: a keyword followed by its arguments.
    Keyword {
        /// The directive in question.
        keyword: Keyword,
        /// The arguments of the directive, 16 bits wide.
        arguments: Vec<Argument<u16>>,
    },
}

impl View for InstructionKind {
    type V = SpecInstructionKind;

    open spec fn view(&self) -> SpecInstructionKind {
        match self {
            InstructionKind::Label(l) => SpecInstructionKind::Label(l@),
            InstructionKind::Opcode { mnemonic, arguments } => SpecInstructionKind::Opcode {
                mnemonic: mnemonic@,
                arguments: args_view(arguments@),
            },
            InstructionKind::Keyword { keyword, arguments } => SpecInstructionKind::Keyword {
                keyword: *keyword,
                arguments: args_view(arguments@),
            },
        }
    }
}

/// The mathematical value of a statement.
pub ghost struct SpecInstruction {
    pub kind: SpecInstructionKind,
    pub instruction_span: Position,
    pub token_span: Position,
}

/// A statement with its source spans.
#[derive(Clone, Debug, PartialEq, Eq)]
pub struct Instruction {
    /// The kind of statement.
    pub kind: InstructionKind,

    /// The span of the whole statement, arguments included.
    pub instruction_span: Position,

    /// The span of the statement's first token alone: the opcode, keyword or
    /// label, without any arguments.
    pub token_span: Position,
}

impl View for Instruction {
    type V = SpecInstruction;

    open spec fn view(&self) -> SpecInstruction {
        SpecInstruction {
            kind: self.kind@,
            instruction_span: self.instruction_span,
            token_span: self.token_span,
        }
    }
}

/// Addition on 16-bit offsets that sticks at the largest representable
/// offset instead of wrapping: the image is never larger than 65535 bytes.
pub open spec fn sat_add16(a: u16, b: u16) -> u16 {
    if a + b > 0xFFFF {
        0xFFFF
    } else {
        (a + b) as u16
    }
}

/// The number of image bytes an 8-bit argument occupies: one for a numeric
/// value, [`LABEL_SIZE`] for a label address.
pub open spec fn spec_arg8_width(a: SpecArg<u8>) -> u16 {
    match a.kind {
        SpecArgKind::Label(_) => LABEL_SIZE,
        _ => 1,
    }
}

/// The number of image bytes a 16-bit directive argument occupies: its value
/// in little-endian order with the trailing zero byte trimmed (so one byte
/// for values up to 255, two bytes above), and [`LABEL_SIZE`] for a label.
pub open spec fn spec_arg16_width(a: SpecArg<u16>) -> u16 {
    match a.kind {
        SpecArgKind::ImmediateNumber(v) => if v > 0xFF {
            2
        } else {
            1
        },
        SpecArgKind::IndirectNumber(v) => if v > 0xFF {
            2
        } else {
            1
        },
        SpecArgKind::Label(_) => LABEL_SIZE,
    }
}

/// The total width of an opcode's arguments, in bytes.
pub open spec fn spec_args8_width(args: Seq<SpecArg<u8>>) -> u16
    decreases args.len(),
{
    if args.len() == 0 {
        0
    } else {
        sat_add16(spec_args8_width(args.drop_last()), spec_arg8_width(args.last()))
    }
}

/// The total width of a directive's arguments, in bytes.
pub open spec fn spec_args16_width(args: Seq<SpecArg<u16>>) -> u16
    decreases args.len(),
{
    if args.len() == 0 {
        0
    } else {
        sat_add16(spec_args16_width(args.drop_last()), spec_arg16_width(args.last()))
    }
}

/// The number of image bytes a statement occupies: nothing for a label or an
/// `.org` relocation, the arguments' bytes for `.byte`, and one opcode byte
/// plus the arguments' bytes for an opcode.
pub open spec fn spec_binary_len(k: SpecInstructionKind) -> u16 {
    match k {
        SpecInstructionKind::Label(_) => 0,
        SpecInstructionKind::Opcode { arguments, .. } => sat_add16(1, spec_args8_width(arguments)),
        SpecInstructionKind::Keyword { keyword, arguments } => match keyword {
            Keyword::Org => 0,
            Keyword::Byte => spec_args16_width(arguments),
        },
    }
}

/// Saturating 16-bit addition; the executable mirror of [`sat_add16`].
pub fn sat_add16_exec(a: u16, b: u16) -> (r: u16)
    ensures
        r == sat_add16(a, b),
{
    if a > 0xFFFF - b {
        0xFFFF
    } else {
        a + b
    }
}

impl Instruction {
    /// Create a new statement.
    pub fn new(kind: InstructionKind, instruction_span: Position, token_span: Position) -> (r:
        Instruction)
        ensures
            r@ == (SpecInstruction { kind: kind@, instruction_span, token_span }),
    {
        Instruction { kind, instruction_span, token_span }
    }

    /// The number of image bytes this statement occupies, used to compute the
    /// offset of everything that follows it before any label is resolved.
    pub fn binary_len(&self) -> (r: u16)
        ensures
            r == spec_binary_len(self@.kind),
    {
        match &self.kind {
            InstructionKind::Label(_) => 0,
            InstructionKind::Opcode { arguments, .. } => {
                let mut total: u16 = 0;
                let n = arguments.len();
                for i in 0..n
                    invariant
                        n == arguments@.len(),
                        total == spec_args8_width(args_view(arguments@).take(i as int)),
                {
                    let w: u16 = match &arguments[i].kind {
                        ArgumentKind::Label(_) => LABEL_SIZE,
                        _ => 1,
                    };
                    proof {
                        assert(args_view(arguments@).take(i + 1).drop_last() =~= args_view(
                            arguments@,
                        ).take(i as int));
                        assert(args_view(arguments@).take(i + 1).last() == arguments@[i as int]@);
                    }
                    total = sat_add16_exec(total, w);
                }
                proof {
                    assert(args_view(arguments@).take(n as int) =~= args_view(arguments@));
                }
                sat_add16_exec(1, total)
            },
            InstructionKind::Keyword { keyword, arguments } => match keyword {
                Keyword::Org => 0,
                Keyword::Byte => {
                    let mut total: u16 = 0;
                    let n = arguments.len();
                    for i in 0..n
                        invariant
                            n == arguments@.len(),
                            total == spec_args16_width(args_view(arguments@).take(i as int)),
                    {
                        let w: u16 = match &arguments[i].kind {
                            ArgumentKind::Label(_) => LABEL_SIZE,
                            ArgumentKind::ImmediateNumber(v) => if *v > 0xFF {
                                2
                            } else {
                                1
                            },
                            ArgumentKind::IndirectNumber(v) => if *v > 0xFF {
                                2
                            } else {
                                1
                            },
                        };
                        proof {
                            assert(args_view(arguments@).take(i + 1).drop_last() =~= args_view(
                                arguments@,
                            ).take(i as int));
                            assert(args_view(arguments@).take(i + 1).last() == arguments@[i as int]@);
                        }
                        total = sat_add16_exec(total, w);
                    }
                    proof {
                        assert(args_view(arguments@).take(n as int) =~= args_view(arguments@));
                    }
                    total
                },
            },
        }
    }
}

/// The value a symbol table stands for: label names with their offsets, in
/// the order they were recorded.
pub type SpecSymbols = Seq<(Seq<char>, u16)>;

/// The offset recorded for `name`, the last definition winning, or `None`
/// when `name` was never defined.
pub open spec fn st_get(s: SpecSymbols, name: Seq<char>) -> Option<u16>
    decreases s.len(),
{
    if s.len() == 0 {
        None
    } else if s.last().0 == name {
        Some(s.last().1)
    } else {
        st_get(s.drop_last(), name)
    }
}

/// The symbol table: the mapping from label names to their resolved 16-bit
/// offsets, fully built by the parsing pass before code generation reads it.
/// When a name is defined more than once, the last definition wins.
#[derive(Clone, Debug, PartialEq, Eq)]
pub struct SymbolTable {
    entries: Vec<(Label, u16)>,
}

impl View for SymbolTable {
    type V = SpecSymbols;

    closed spec fn view(&self) -> SpecSymbols {
        self.entries@.map_values(|p: (Label, u16)| (p.0@, p.1))
    }
}

impl SymbolTable {
    /// Creates an empty symbol table.
    pub fn new() -> (r: SymbolTable)
        ensures
            r@ == Seq::<(Seq<char>, u16)>::empty(),
    {
        let r = SymbolTable { entries: Vec::new() };
        proof {
            assert(r@ =~= Seq::<(Seq<char>, u16)>::empty());
        }
        r
    }

    /// Records `name` at `location`. A later record of the same name shadows
    /// this one.
    pub fn insert(&mut self, name: Label, location: u16)
        ensures
            final(self)@ == old(self)@.push((name@, location)),
    {
        let ghost n = name@;
        self.entries.push((name, location));
        proof {
            assert(self@ =~= old(self)@.push((n, location)));
        }
    }

    /// Looks `name` up: the offset of its last definition, or `None` when it
    /// was never defined.
    pub fn get(&self, name: &str) -> (r: Option<u16>)
        ensures
            r == st_get(self@, name@),
    {
        let wanted: String = name.to_owned();
        let mut i = self.entries.len();
        proof {
            assert(self@.take(self.entries@.len() as int) =~= self@);
        }
        while i > 0
            invariant
                i <= self.entries@.len(),
                wanted@ == name@,
                self@.len() == self.entries@.len(),
                st_get(self@, name@) == st_get(self@.take(i as int), name@),
            decreases i,
        {
            i = i - 1;
            proof {
                assert(self@.take(i + 1).drop_last() =~= self@.take(i as int));
                assert(self@.take(i + 1).last() == self@[i as int]);
                assert(self@[i as int] == (self.entries@[i as int].0@, self.entries@[i as int].1));
            }
            if self.entries[i].0 == wanted {
                return Some(self.entries[i].1);
            }
        }
        proof {
            assert(self@.take(0) =~= Seq::<(Seq<char>, u16)>::empty());
        }
        None
    }

    /// The number of recorded definitions.
    pub fn len(&self) -> (r: usize)
        ensures
            r == self@.len(),
    {
        self.entries.len()
    }
}

/// The mathematical value of a parse: the statements in source order and the
/// completed symbol table.
pub ghost struct SpecAst {
    pub instructions: Seq<SpecInstruction>,
    pub symbols: SpecSymbols,
}

/// The entire parse result: the statement list, and the symbol table built
/// alongside it.
#[derive(Clone, Debug, PartialEq, Eq)]
pub struct Ast {
    /// The statements, in source order.
    pub instructions: Vec<Instruction>,

    /// The symbol table: every label definition with its resolved offset.
    pub symbols: SymbolTable,
}

impl View for Ast {
    type V = SpecAst;

    open spec fn view(&self) -> SpecAst {
        SpecAst {
            instructions: self.instructions@.map_values(|i: Instruction| i@),
            symbols: self.symbols@,
        }
    }
}

impl Ast {
    /// Create a new, empty statement list.
    pub fn empty() -> (r: Ast)
        ensures
            r@.instructions == Seq::<SpecInstruction>::empty(),
            r@.symbols == Seq::<(Seq<char>, u16)>::empty(),
    {
        let r = Ast { instructions: Vec::new(), symbols: SymbolTable::new() };
        proof {
            assert(r@.instructions =~= Seq::<SpecInstruction>::empty());
        }
        r
    }

    /// Create a new, empty statement list.
    pub fn new() -> (r: Ast)
        ensures
            r@.instructions == Seq::<SpecInstruction>::empty(),
            r@.symbols == Seq::<(Seq<char>, u16)>::empty(),
    {
        Ast::empty()
    }

    /// The number of statements.
    pub fn len(&self) -> (r: usize)
        ensures
            r == self@.instructions.len(),
    {
        self.instructions.len()
    }

    /// Whether the statement list is empty.
    pub fn is_empty(&self) -> (r: bool)
        ensures
            r == (self@.instructions.len() == 0),
    {
        self.instructions.len() == 0
    }

    /// The statements, in source order.
    pub fn statements(&self) -> (r: &Vec<Instruction>)
        ensures
            r@.map_values(|i: Instruction| i@) == self@.instructions,
    {
        &self.instructions
    }
}

} // verus!
