//! A small, configurable two-pass assembler.
//!
//! The instruction set (mnemonics, opcode bytes, argument arity and kinds) is
//! supplied as data through [`config::AssemblerConfig`], so the same core can
//! serve many target machines.  Source text flows strictly forward:
//! text -> tokens -> statements + symbol table -> bytes.  Every phase collects
//! diagnostics instead of aborting, so one call surfaces every independent
//! problem in the source, and bytes are returned only when the diagnostic
//! list is empty.

pub mod ast;
pub mod codegen;
pub mod config;
pub mod errors;
pub mod formatter;
pub mod lexer;
pub mod parser;
pub mod position;
pub mod token;
pub mod values;

use vstd::prelude::*;

use crate::ast::Ast;
use crate::codegen::{aerr_views, spec_resolve};
use crate::config::{AssemblerConfig, SpecOpcode};
use crate::errors::{AssemblerError, ParsingError, SpecAssemblerError, SpecParsingError};
use crate::parser::{perr_views, spec_parse, Parser};
use crate::token::TokenKind;

verus! {

/// What one `assemble` call returns, as a function of the configuration and
/// the source text alone: the parse's diagnostics (wrapped as assembler
/// errors) when there are any; otherwise the resolution's diagnostics when
/// there are any; otherwise the assembled image.
pub open spec fn spec_assemble(cfg: Seq<SpecOpcode>, s: Seq<char>) -> Result<
    Seq<u8>,
    Seq<SpecAssemblerError>,
> {
    let po = spec_parse(s);
    if po.diags.len() > 0 {
        Err(po.diags.map_values(|e: SpecParsingError| SpecAssemblerError::Parsing { source: e }))
    } else {
        let ro = spec_resolve(po.instrs, po.syms, cfg);
        if ro.diags.len() > 0 {
            Err(ro.diags)
        } else {
            Ok(ro.image)
        }
    }
}

/// Copies a list of token kinds.
fn copy_kinds(v: &Vec<TokenKind>) -> (r: Vec<TokenKind>)
    ensures
        r@ == v@,
{
    let mut out: Vec<TokenKind> = Vec::new();
    let n = v.len();
    for i in 0..n
        invariant
            n == v@.len(),
            out@ == v@.take(i as int),
    {
        out.push(v[i]);
        proof {
            assert(out@ =~= v@.take(i + 1));
        }
    }
    proof {
        assert(v@.take(n as int) =~= v@);
    }
    out
}

/// Copies a diagnostic. The copy stands for the same error.
fn copy_parsing_error(e: &ParsingError) -> (r: ParsingError)
    ensures
        r@ == e@,
{
    match e {
        ParsingError::UnknownCharacter { character, span } => ParsingError::UnknownCharacter {
            character: *character,
            span: *span,
        },
        ParsingError::Unexpected { expected, found, span } => ParsingError::Unexpected {
            expected: copy_kinds(expected),
            found: *found,
            span: *span,
        },
        ParsingError::Overflow { literal, span } => ParsingError::Overflow {
            literal: literal.clone(),
            span: *span,
        },
        ParsingError::Underflow { literal, span } => ParsingError::Underflow {
            literal: literal.clone(),
            span: *span,
        },
        ParsingError::EmptyLiteral { span } => ParsingError::EmptyLiteral { span: *span },
        ParsingError::KeywordDNE { mnemonic, span } => ParsingError::KeywordDNE {
            mnemonic: mnemonic.clone(),
            span: *span,
        },
    }
}

/// Wraps the parse phase's diagnostics as assembler errors, keeping their
/// order.
fn wrap_parse_errors(v: &Vec<ParsingError>) -> (r: Vec<AssemblerError>)
    ensures
        aerr_views(r@) == perr_views(v@).map_values(
            |e: SpecParsingError| SpecAssemblerError::Parsing { source: e },
        ),
{
    let ghost target = perr_views(v@).map_values(
        |e: SpecParsingError| SpecAssemblerError::Parsing { source: e },
    );
    let mut out: Vec<AssemblerError> = Vec::new();
    let n = v.len();
    proof {
        assert(aerr_views(out@) =~= target.take(0));
    }
    for i in 0..n
        invariant
            n == v@.len(),
            target.len() == n,
            target == perr_views(v@).map_values(
                |e: SpecParsingError| SpecAssemblerError::Parsing { source: e },
            ),
            aerr_views(out@) == target.take(i as int),
            out@.len() == i,
    {
        let ghost pre = aerr_views(out@);
        let source = copy_parsing_error(&v[i]);
        let ghost sv = source@;
        out.push(AssemblerError::Parsing { source });
        proof {
            assert(target[i as int] == (SpecAssemblerError::Parsing { source: v@[i as int]@ }));
            assert(aerr_views(out@) =~= pre.push(SpecAssemblerError::Parsing { source: sv }));
            assert(target.take(i + 1) =~= target.take(i as int).push(target[i as int]));
        }
    }
    proof {
        assert(target.take(n as int) =~= target);
    }
    out
}

/// The main assembler structure: it retains only the opcode configuration,
/// which persists across calls; everything else is per-call scratch state.
pub struct Assembler {
    /// The configuration for the assembler.
    config: AssemblerConfig,
}

impl Assembler {
    /// The retained configuration, as the specification sees it.
    pub closed spec fn cfg(&self) -> Seq<SpecOpcode> {
        self.config@
    }

    /// Create a new assembler with the given configuration.
    pub fn new(config: AssemblerConfig) -> (r: Assembler)
        ensures
            r.cfg() == config@,
    {
        Assembler { config }
    }

    /// Replaces the configuration of the assembler with the given one.
    pub fn set_config(&mut self, config: AssemblerConfig)
        ensures
            final(self).cfg() == config@,
    {
        self.config = config;
    }

    /// Assembles the given assembly code into binary.
    pub fn assemble(&mut self, source: &str) -> (r: Result<Vec<u8>, Vec<AssemblerError>>)
        requires
            source@.len() <= u32::MAX,
        ensures
            final(self).cfg() == old(self).cfg(),
            match r {
                Ok(bytes) => spec_assemble(old(self).cfg(), source@) matches Ok(img) && bytes@
                    == img && bytes@.len() <= 0xFFFF,
                Err(ds) => spec_assemble(old(self).cfg(), source@) matches Err(es) && aerr_views(
                    ds@,
                ) == es,
            },
    {
        match self.assemble_with_ast(source) {
            Ok(p) => Ok(p.0),
            Err(ds) => Err(ds),
        }
    }

    /// Assembles the given assembly code into binary, together with the
    /// statement list and symbol table it was generated from.
    pub fn assemble_with_ast(&mut self, source: &str) -> (r: Result<
        (Vec<u8>, Ast),
        Vec<AssemblerError>,
    >)
        requires
            source@.len() <= u32::MAX,
        ensures
            final(self).cfg() == old(self).cfg(),
            match r {
                Ok(p) => {
                    &&& spec_assemble(old(self).cfg(), source@) matches Ok(img) && p.0@ == img
                    &&& p.0@.len() <= 0xFFFF
                    &&& p.1@.instructions == spec_parse(source@).instrs
                    &&& p.1@.symbols == spec_parse(source@).syms
                },
                Err(ds) => spec_assemble(old(self).cfg(), source@) matches Err(es) && aerr_views(
                    ds@,
                ) == es,
            },
    {
        let parser = Parser::new(source).unwrap();
        match parser.parse() {
            Err(pds) => Err(wrap_parse_errors(&pds)),
            Ok(ast) => {
                match crate::codegen::resolve(&ast.instructions, &ast.symbols, &self.config) {
                    Err(ds) => Err(ds),
                    Ok(bytes) => Ok((bytes, ast)),
                }
            },
        }
    }
}

/// Determinism: `assemble` is a function of the retained configuration and
/// the source text alone, so two calls with unchanged configuration and
/// source yield byte-identical output or identical diagnostic lists.
pub proof fn lemma_assemble_deterministic(
    cfg: Seq<SpecOpcode>,
    s: Seq<char>,
    r1: Result<Seq<u8>, Seq<SpecAssemblerError>>,
    r2: Result<Seq<u8>, Seq<SpecAssemblerError>>,
)
    requires
        r1 == spec_assemble(cfg, s),
        r2 == spec_assemble(cfg, s),
    ensures
        r1 == r2,
{
}

/// Empty input: with any configuration, assembling the empty source yields
/// an empty byte sequence and no diagnostic.
pub proof fn lemma_assemble_empty(cfg: Seq<SpecOpcode>)
    ensures
        spec_assemble(cfg, Seq::<char>::empty()) == Ok::<Seq<u8>, Seq<SpecAssemblerError>>(
            Seq::<u8>::empty(),
        ),
{
    let s = Seq::<char>::empty();
    crate::lexer::lemma_token_at(s, 0);
    crate::parser::lemma_read(s, 0, Seq::empty());
    let po = spec_parse(s);
    assert(po.instrs =~= Seq::<crate::ast::SpecInstruction>::empty());
    assert(po.diags =~= Seq::<SpecParsingError>::empty());
    let ro = spec_resolve(po.instrs, po.syms, cfg);
    assert(ro.image =~= Seq::<u8>::empty());
    assert(ro.diags =~= Seq::<SpecAssemblerError>::empty());
}

/// Forward label references: the bytes emitted for a label reference are a
/// function of the completed symbol table alone. Two references to the same
/// label, standing anywhere in the program (before or after its
/// definition, in any generator state, under any source span), contribute
/// the same two little-endian address bytes.
pub proof fn lemma_label_ref_position_independent(
    st1: crate::codegen::RState,
    st2: crate::codegen::RState,
    syms: crate::ast::SpecSymbols,
    a1: crate::ast::SpecArg<u8>,
    a2: crate::ast::SpecArg<u8>,
    name: Seq<char>,
    addr: u16,
)
    requires
        a1.kind == crate::ast::SpecArgKind::<u8>::Label(name),
        a2.kind == crate::ast::SpecArgKind::<u8>::Label(name),
        crate::ast::st_get(syms, name) == Some(addr),
    ensures
        crate::codegen::spec_emit_arg8(st1, syms, a1) == crate::codegen::spec_write_byte(
            crate::codegen::spec_write_byte(st1, crate::codegen::le_bytes(addr)[0]),
            crate::codegen::le_bytes(addr)[1],
        ),
        crate::codegen::spec_emit_arg8(st2, syms, a2) == crate::codegen::spec_write_byte(
            crate::codegen::spec_write_byte(st2, crate::codegen::le_bytes(addr)[0]),
            crate::codegen::le_bytes(addr)[1],
        ),
{
    assert(crate::codegen::le_bytes(addr)[0] == (addr % 256) as u8);
    assert(crate::codegen::le_bytes(addr)[1] == (addr / 256) as u8);
}


} // verus!
