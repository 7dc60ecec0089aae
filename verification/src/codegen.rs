//! The resolver / code generator: a single forward pass over the statement
//! list, with the completed symbol table in hand, that validates each opcode
//! against the configuration and emits the final byte image. The pass never
//! stops at a semantic error: it records the diagnostic, substitutes a
//! placeholder, and finishes the list, and bytes are returned only when no
//! diagnostic at all was recorded.

use vstd::prelude::*;

use crate::ast::{
    sat_add16, spec_args8_width, st_get, Argument, ArgumentKind, Instruction, InstructionKind,
    Keyword, SpecArg, SpecArgKind, SpecInstruction, SpecInstructionKind, SpecSymbols, SymbolTable,
};
use crate::config::{spec_get_opcode, AssemblerConfig, OpcodeArg, SpecOpcode};
use crate::errors::{AssemblerError, SpecAssemblerError};
use crate::position::{spec_join, Position};

verus! {

/// The views of a list of collected diagnostics.
pub open spec fn aerr_views(v: Seq<AssemblerError>) -> Seq<SpecAssemblerError> {
    v.map_values(|e: AssemblerError| e@)
}

/// The generator's state: the image built so far, the write cursor, and the
/// diagnostics recorded so far.
pub ghost struct RState {
    pub image: Seq<u8>,
    pub cursor: u16,
    pub diags: Seq<SpecAssemblerError>,
}

/// The generator's invariant: the cursor never leaves the image, and the
/// image never exceeds 65535 bytes.
pub open spec fn rstate_wf(st: RState) -> bool {
    st.cursor <= st.image.len() <= 0xFFFF
}

/// Writing one byte at the cursor: bytes inside the image overwrite, a byte
/// at its end extends it, and a byte beyond the 65535-byte capacity is
/// dropped. The cursor advances, sticking at the last offset.
pub open spec fn spec_write_byte(st: RState, b: u8) -> RState {
    let image = if st.cursor < st.image.len() {
        st.image.update(st.cursor as int, b)
    } else if st.image.len() < 0xFFFF {
        st.image.push(b)
    } else {
        st.image
    };
    let cursor: u16 = if st.cursor < 0xFFFF {
        (st.cursor + 1) as u16
    } else {
        st.cursor
    };
    RState { image, cursor, diags: st.diags }
}

/// Relocating the cursor to `addr`, zero-filling the image up to `addr`
/// when it grows.
pub open spec fn spec_relocate(st: RState, addr: u16) -> RState {
    let image = if addr > st.image.len() {
        st.image + Seq::new((addr - st.image.len()) as nat, |i: int| 0u8)
    } else {
        st.image
    };
    RState { image, cursor: addr, diags: st.diags }
}

/// The little-endian bytes of a label address.
pub open spec fn le_bytes(addr: u16) -> Seq<u8> {
    seq![(addr % 256) as u8, (addr / 256) as u8]
}

/// Emitting a resolved label address: two little-endian bytes, or the
/// placeholder `0xFFFF` with a diagnostic when the label was never defined.
pub open spec fn spec_emit_label(
    st: RState,
    syms: SpecSymbols,
    name: Seq<char>,
    span: Position,
) -> RState {
    match st_get(syms, name) {
        Some(addr) => {
            spec_write_byte(spec_write_byte(st, (addr % 256) as u8), (addr / 256) as u8)
        },
        None => {
            let st1 = RState {
                image: st.image,
                cursor: st.cursor,
                diags: st.diags.push(SpecAssemblerError::LabelDNE { mnemonic: name, span }),
            };
            spec_write_byte(spec_write_byte(st1, 0xFF), 0xFF)
        },
    }
}

/// Emitting one opcode argument: a numeric value is its single byte, a
/// label is its two address bytes.
pub open spec fn spec_emit_arg8(st: RState, syms: SpecSymbols, a: SpecArg<u8>) -> RState {
    match a.kind {
        SpecArgKind::ImmediateNumber(v) => spec_write_byte(st, v),
        SpecArgKind::IndirectNumber(v) => spec_write_byte(st, v),
        SpecArgKind::Label(name) => spec_emit_label(st, syms, name, a.span),
    }
}

/// Emitting every opcode argument in order.
pub open spec fn spec_emit_args8(st: RState, syms: SpecSymbols, args: Seq<SpecArg<u8>>) -> RState
    decreases args.len(),
{
    if args.len() == 0 {
        st
    } else {
        spec_emit_args8(spec_emit_arg8(st, syms, args[0]), syms, args.drop_first())
    }
}

/// Emitting one `.byte` argument: a numeric value is its little-endian
/// bytes with the trailing zero trimmed (one byte up to 255, two above), a
/// label is its two address bytes.
pub open spec fn spec_emit_arg16(st: RState, syms: SpecSymbols, a: SpecArg<u16>) -> RState {
    match a.kind {
        SpecArgKind::ImmediateNumber(v) => if v > 0xFF {
            spec_write_byte(spec_write_byte(st, (v % 256) as u8), (v / 256) as u8)
        } else {
            spec_write_byte(st, v as u8)
        },
        SpecArgKind::IndirectNumber(v) => if v > 0xFF {
            spec_write_byte(spec_write_byte(st, (v % 256) as u8), (v / 256) as u8)
        } else {
            spec_write_byte(st, v as u8)
        },
        SpecArgKind::Label(name) => spec_emit_label(st, syms, name, a.span),
    }
}

/// Emitting every `.byte` argument in order.
pub open spec fn spec_emit_args16(st: RState, syms: SpecSymbols, args: Seq<SpecArg<u16>>) -> RState
    decreases args.len(),
{
    if args.len() == 0 {
        st
    } else {
        spec_emit_args16(spec_emit_arg16(st, syms, args[0]), syms, args.drop_first())
    }
}

/// A count clamped into a 16-bit diagnostic field.
pub open spec fn sat_len16(n: nat) -> u16 {
    if n > 0xFFFF {
        0xFFFF
    } else {
        n as u16
    }
}

/// The span of a statement's arguments: every argument span joined onto the
/// mnemonic's own span, which alone remains when there is no argument.
pub open spec fn spec_args_span<T>(base: Position, args: Seq<SpecArg<T>>) -> Position
    decreases args.len(),
{
    if args.len() == 0 {
        base
    } else {
        spec_args_span(spec_join(base, args[0].span), args.drop_first())
    }
}

/// The argument kind an argument presents: labels count as immediate
/// values, since their address is encoded directly into the stream.
pub open spec fn spec_arg_kind(a: SpecArg<u8>) -> OpcodeArg {
    match a.kind {
        SpecArgKind::IndirectNumber(_) => OpcodeArg::Indirect,
        SpecArgKind::ImmediateNumber(_) => OpcodeArg::Immediate,
        SpecArgKind::Label(_) => OpcodeArg::Immediate,
    }
}

/// Kind validation: each argument is checked against the expected kind at
/// its starting byte position; positions advance by the argument's width,
/// with the same 16-bit saturation as every offset. A position beyond the
/// expected list (an arity error reported separately) is not checked.
pub open spec fn spec_kind_diags(
    mnemonic: Seq<char>,
    tspan: Position,
    expected: Seq<OpcodeArg>,
    args: Seq<SpecArg<u8>>,
    posn: u16,
) -> Seq<SpecAssemblerError>
    decreases args.len(),
{
    if args.len() == 0 {
        Seq::empty()
    } else {
        let a = args[0];
        let w: u16 = match a.kind {
            SpecArgKind::Label(_) => 2,
            _ => 1,
        };
        let given = spec_arg_kind(a);
        let head: Seq<SpecAssemblerError> = if posn < expected.len() && expected[posn as int]
            != given {
            seq![
                SpecAssemblerError::WrongArgType {
                    mnemonic,
                    expected: expected[posn as int],
                    given,
                    mnemonic_span: tspan,
                    arg_span: a.span,
                },
            ]
        } else {
            Seq::empty()
        };
        head + spec_kind_diags(mnemonic, tspan, expected, args.drop_first(), sat_add16(posn, w))
    }
}

/// The mnemonic text of a directive.
pub open spec fn spec_kw_text(kw: Keyword) -> Seq<char> {
    match kw {
        Keyword::Org => seq!['.', 'o', 'r', 'g'],
        Keyword::Byte => seq!['.', 'b', 'y', 't', 'e'],
    }
}

/// Resolving one statement, as described by the configuration: labels emit
/// nothing; `.org` demands exactly one argument and relocates the cursor;
/// `.byte` emits its arguments' bytes; an opcode is looked up, its argument
/// byte-width and kinds validated, and its binary byte and argument bytes
/// emitted. An unknown mnemonic is reported once and a synthetic opcode
/// (binary `0xFF`, arity as given) substituted, so no spurious arity error
/// follows and emission still proceeds.
pub open spec fn spec_resolve_stmt(
    st: RState,
    syms: SpecSymbols,
    cfg: Seq<SpecOpcode>,
    instr: SpecInstruction,
) -> RState {
    match instr.kind {
        SpecInstructionKind::Label(_) => st,
        SpecInstructionKind::Keyword { keyword: Keyword::Org, arguments } => {
            let st1 = if arguments.len() != 1 {
                RState {
                    image: st.image,
                    cursor: st.cursor,
                    diags: st.diags.push(
                        SpecAssemblerError::WrongNumArgs {
                            mnemonic: spec_kw_text(Keyword::Org),
                            expected: 1,
                            given: sat_len16(arguments.len()),
                            mnemonic_span: instr.token_span,
                            args_span: spec_args_span(instr.token_span, arguments),
                        },
                    ),
                }
            } else {
                st
            };
            if arguments.len() == 1 {
                match arguments[0].kind {
                    SpecArgKind::ImmediateNumber(v) => spec_relocate(st1, v),
                    SpecArgKind::IndirectNumber(v) => spec_relocate(st1, v),
                    SpecArgKind::Label(name) => match st_get(syms, name) {
                        Some(addr) => spec_relocate(st1, addr),
                        None => RState {
                            image: st1.image,
                            cursor: st1.cursor,
                            diags: st1.diags.push(
                                SpecAssemblerError::LabelDNE {
                                    mnemonic: name,
                                    span: arguments[0].span,
                                },
                            ),
                        },
                    },
                }
            } else {
                st1
            }
        },
        SpecInstructionKind::Keyword { keyword: Keyword::Byte, arguments } => {
            spec_emit_args16(st, syms, arguments)
        },
        SpecInstructionKind::Opcode { mnemonic, arguments } => {
            match spec_get_opcode(cfg, mnemonic) {
                None => {
                    let st1 = RState {
                        image: st.image,
                        cursor: st.cursor,
                        diags: st.diags.push(
                            SpecAssemblerError::OpcodeDNE { mnemonic, span: instr.token_span },
                        ),
                    };
                    spec_emit_args8(spec_write_byte(st1, 0xFF), syms, arguments)
                },
                Some(op) => {
                    let given = spec_args8_width(arguments);
                    let expected = sat_len16(op.args.len());
                    let d1 = if given != expected {
                        st.diags.push(
                            SpecAssemblerError::WrongNumArgs {
                                mnemonic,
                                expected,
                                given,
                                mnemonic_span: instr.token_span,
                                args_span: spec_args_span(instr.token_span, arguments),
                            },
                        )
                    } else {
                        st.diags
                    };
                    let d2 = d1 + spec_kind_diags(
                        mnemonic,
                        instr.token_span,
                        op.args,
                        arguments,
                        0,
                    );
                    let st1 = RState { image: st.image, cursor: st.cursor, diags: d2 };
                    spec_emit_args8(spec_write_byte(st1, op.binary), syms, arguments)
                },
            }
        },
    }
}

/// The generator's state after the first `i` statements.
pub open spec fn spec_resolve_upto(
    instrs: Seq<SpecInstruction>,
    syms: SpecSymbols,
    cfg: Seq<SpecOpcode>,
    i: int,
) -> RState
    decreases i,
{
    if i <= 0 {
        RState { image: Seq::empty(), cursor: 0, diags: Seq::empty() }
    } else {
        spec_resolve_stmt(spec_resolve_upto(instrs, syms, cfg, i - 1), syms, cfg, instrs[i - 1])
    }
}

/// The whole resolution pass over a statement list.
pub open spec fn spec_resolve(
    instrs: Seq<SpecInstruction>,
    syms: SpecSymbols,
    cfg: Seq<SpecOpcode>,
) -> RState {
    spec_resolve_upto(instrs, syms, cfg, instrs.len() as int)
}

/// A generator state assembled from its parts.
pub open spec fn mk_rstate(image: Seq<u8>, cursor: u16, diags: Seq<SpecAssemblerError>) -> RState {
    RState { image, cursor, diags }
}

/// Writes one byte at the cursor; the executable mirror of
/// [`spec_write_byte`]. `d` is the diagnostics recorded so far, which the
/// write leaves alone.
fn write_byte(image: &mut Vec<u8>, cursor: &mut u16, b: u8, Ghost(d): Ghost<Seq<SpecAssemblerError>>)
    requires
        rstate_wf(mk_rstate(old(image)@, *old(cursor), d)),
    ensures
        ({
            let st2 = spec_write_byte(mk_rstate(old(image)@, *old(cursor), d), b);
            &&& final(image)@ == st2.image
            &&& *final(cursor) == st2.cursor
            &&& rstate_wf(st2)
        }),
{
    let c = *cursor;
    if (c as usize) < image.len() {
        image.set(c as usize, b);
    } else if image.len() < 0xFFFF {
        image.push(b);
    }
    if c < 0xFFFF {
        *cursor = c + 1;
    }
}

/// Moves the cursor to `addr`, zero-filling the image up to it when it
/// grows; the executable mirror of [`spec_relocate`].
fn relocate(image: &mut Vec<u8>, cursor: &mut u16, addr: u16, Ghost(d): Ghost<Seq<SpecAssemblerError>>)
    requires
        rstate_wf(mk_rstate(old(image)@, *old(cursor), d)),
    ensures
        ({
            let st2 = spec_relocate(mk_rstate(old(image)@, *old(cursor), d), addr);
            &&& final(image)@ == st2.image
            &&& *final(cursor) == st2.cursor
            &&& rstate_wf(st2)
        }),
{
    let ghost img0 = image@;
    while image.len() < addr as usize
        invariant
            img0.len() <= image@.len() <= vstd::math::max(img0.len() as int, addr as int),
            image@ == img0 + Seq::new((image@.len() - img0.len()) as nat, |i: int| 0u8),
        decreases addr as int - image@.len(),
    {
        let ghost pre = image@;
        image.push(0);
        proof {
            assert(image@ =~= img0 + Seq::new((image@.len() - img0.len()) as nat, |i: int| 0u8));
        }
    }
    *cursor = addr;
    proof {
        if addr > img0.len() {
            assert(image@ =~= img0 + Seq::new((addr - img0.len()) as nat, |i: int| 0u8));
        } else {
            assert(image@ =~= img0);
        }
    }
}

/// Emits a label's address bytes, or the placeholder with its diagnostic;
/// the executable mirror of [`spec_emit_label`].
fn emit_label(
    image: &mut Vec<u8>,
    cursor: &mut u16,
    diags: &mut Vec<AssemblerError>,
    symbols: &SymbolTable,
    name: &String,
    span: Position,
)
    requires
        rstate_wf(mk_rstate(old(image)@, *old(cursor), aerr_views(old(diags)@))),
    ensures
        ({
            let st2 = spec_emit_label(
                mk_rstate(old(image)@, *old(cursor), aerr_views(old(diags)@)),
                symbols@,
                name@,
                span,
            );
            &&& final(image)@ == st2.image
            &&& *final(cursor) == st2.cursor
            &&& aerr_views(final(diags)@) == st2.diags
            &&& rstate_wf(st2)
        }),
{
    match symbols.get(name.as_str()) {
        Some(addr) => {
            let ghost d = aerr_views(diags@);
            write_byte(image, cursor, (addr % 256) as u8, Ghost(d));
            write_byte(image, cursor, (addr / 256) as u8, Ghost(d));
        },
        None => {
            let ghost d0 = aerr_views(diags@);
            diags.push(AssemblerError::LabelDNE { mnemonic: name.clone(), span });
            proof {
                assert(aerr_views(diags@) =~= d0.push(
                    SpecAssemblerError::LabelDNE { mnemonic: name@, span },
                ));
            }
            let ghost d = aerr_views(diags@);
            write_byte(image, cursor, 0xFF, Ghost(d));
            write_byte(image, cursor, 0xFF, Ghost(d));
        },
    }
}

/// Emits every opcode argument; the executable mirror of
/// [`spec_emit_args8`].
fn emit_args8(
    image: &mut Vec<u8>,
    cursor: &mut u16,
    diags: &mut Vec<AssemblerError>,
    symbols: &SymbolTable,
    args: &Vec<Argument<u8>>,
)
    requires
        rstate_wf(mk_rstate(old(image)@, *old(cursor), aerr_views(old(diags)@))),
    ensures
        ({
            let st2 = spec_emit_args8(
                mk_rstate(old(image)@, *old(cursor), aerr_views(old(diags)@)),
                symbols@,
                args@.map_values(|a: Argument<u8>| a@),
            );
            &&& final(image)@ == st2.image
            &&& *final(cursor) == st2.cursor
            &&& aerr_views(final(diags)@) == st2.diags
            &&& rstate_wf(st2)
        }),
{
    let ghost avs = args@.map_values(|a: Argument<u8>| a@);
    let ghost st0 = mk_rstate(image@, *cursor, aerr_views(diags@));
    let n = args.len();
    let mut j: usize = 0;
    proof {
        assert(avs.skip(0) =~= avs);
    }
    while j < n
        invariant
            j <= n,
            n == args@.len(),
            avs == args@.map_values(|a: Argument<u8>| a@),
            rstate_wf(mk_rstate(image@, *cursor, aerr_views(diags@))),
            spec_emit_args8(st0, symbols@, avs) == spec_emit_args8(
                mk_rstate(image@, *cursor, aerr_views(diags@)),
                symbols@,
                avs.skip(j as int),
            ),
        decreases n - j,
    {
        proof {
            assert(avs.skip(j as int)[0] == args@[j as int]@);
            assert(avs.skip(j as int).drop_first() =~= avs.skip(j + 1));
        }
        let span = args[j].span;
        match &args[j].kind {
            ArgumentKind::ImmediateNumber(v) => {
                write_byte(image, cursor, *v, Ghost(aerr_views(diags@)));
            },
            ArgumentKind::IndirectNumber(v) => {
                write_byte(image, cursor, *v, Ghost(aerr_views(diags@)));
            },
            ArgumentKind::Label(name) => {
                emit_label(image, cursor, diags, symbols, name, span);
            },
        }
        j = j + 1;
    }
    proof {
        assert(avs.skip(n as int) =~= Seq::<SpecArg<u8>>::empty());
    }
}

/// Emits every `.byte` argument; the executable mirror of
/// [`spec_emit_args16`].
fn emit_args16(
    image: &mut Vec<u8>,
    cursor: &mut u16,
    diags: &mut Vec<AssemblerError>,
    symbols: &SymbolTable,
    args: &Vec<Argument<u16>>,
)
    requires
        rstate_wf(mk_rstate(old(image)@, *old(cursor), aerr_views(old(diags)@))),
    ensures
        ({
            let st2 = spec_emit_args16(
                mk_rstate(old(image)@, *old(cursor), aerr_views(old(diags)@)),
                symbols@,
                args@.map_values(|a: Argument<u16>| a@),
            );
            &&& final(image)@ == st2.image
            &&& *final(cursor) == st2.cursor
            &&& aerr_views(final(diags)@) == st2.diags
            &&& rstate_wf(st2)
        }),
{
    let ghost avs = args@.map_values(|a: Argument<u16>| a@);
    let ghost st0 = mk_rstate(image@, *cursor, aerr_views(diags@));
    let n = args.len();
    let mut j: usize = 0;
    proof {
        assert(avs.skip(0) =~= avs);
    }
    while j < n
        invariant
            j <= n,
            n == args@.len(),
            avs == args@.map_values(|a: Argument<u16>| a@),
            rstate_wf(mk_rstate(image@, *cursor, aerr_views(diags@))),
            spec_emit_args16(st0, symbols@, avs) == spec_emit_args16(
                mk_rstate(image@, *cursor, aerr_views(diags@)),
                symbols@,
                avs.skip(j as int),
            ),
        decreases n - j,
    {
        proof {
            assert(avs.skip(j as int)[0] == args@[j as int]@);
            assert(avs.skip(j as int).drop_first() =~= avs.skip(j + 1));
        }
        let span = args[j].span;
        match &args[j].kind {
            ArgumentKind::ImmediateNumber(v) => {
                if *v > 0xFF {
                    write_byte(image, cursor, (*v % 256) as u8, Ghost(aerr_views(diags@)));
                    write_byte(image, cursor, (*v / 256) as u8, Ghost(aerr_views(diags@)));
                } else {
                    write_byte(image, cursor, *v as u8, Ghost(aerr_views(diags@)));
                }
            },
            ArgumentKind::IndirectNumber(v) => {
                if *v > 0xFF {
                    write_byte(image, cursor, (*v % 256) as u8, Ghost(aerr_views(diags@)));
                    write_byte(image, cursor, (*v / 256) as u8, Ghost(aerr_views(diags@)));
                } else {
                    write_byte(image, cursor, *v as u8, Ghost(aerr_views(diags@)));
                }
            },
            ArgumentKind::Label(name) => {
                emit_label(image, cursor, diags, symbols, name, span);
            },
        }
        j = j + 1;
    }
    proof {
        assert(avs.skip(n as int) =~= Seq::<SpecArg<u16>>::empty());
    }
}

/// The span of a statement's arguments, folded onto the mnemonic's span;
/// the executable mirror of [`spec_args_span`].
fn args_span_exec<T>(base: Position, args: &Vec<Argument<T>>) -> (r: Position)
    ensures
        r == spec_args_span(base, args@.map_values(|a: Argument<T>| a@)),
{
    let ghost avs = args@.map_values(|a: Argument<T>| a@);
    let mut acc = base;
    let n = args.len();
    let mut j: usize = 0;
    proof {
        assert(avs.skip(0) =~= avs);
    }
    while j < n
        invariant
            j <= n,
            n == args@.len(),
            avs == args@.map_values(|a: Argument<T>| a@),
            spec_args_span(base, avs) == spec_args_span(acc, avs.skip(j as int)),
        decreases n - j,
    {
        proof {
            assert(avs.skip(j as int)[0] == args@[j as int]@);
            assert(avs.skip(j as int).drop_first() =~= avs.skip(j + 1));
        }
        acc = acc.join(&args[j].span);
        j = j + 1;
    }
    proof {
        assert(avs.skip(n as int) =~= Seq::<SpecArg<T>>::empty());
    }
    acc
}

/// The total byte width of an opcode's arguments; the executable mirror of
/// [`spec_args8_width`].
fn args8_width(args: &Vec<Argument<u8>>) -> (r: u16)
    ensures
        r == spec_args8_width(args@.map_values(|a: Argument<u8>| a@)),
{
    let ghost avs = args@.map_values(|a: Argument<u8>| a@);
    let mut total: u16 = 0;
    let n = args.len();
    let mut j: usize = 0;
    while j < n
        invariant
            j <= n,
            n == args@.len(),
            avs == args@.map_values(|a: Argument<u8>| a@),
            total == spec_args8_width(avs.take(j as int)),
        decreases n - j,
    {
        let w: u16 = match &args[j].kind {
            ArgumentKind::Label(_) => 2,
            _ => 1,
        };
        proof {
            assert(avs.take(j + 1).drop_last() =~= avs.take(j as int));
            assert(avs.take(j + 1).last() == args@[j as int]@);
        }
        total = crate::ast::sat_add16_exec(total, w);
        j = j + 1;
    }
    proof {
        assert(avs.take(n as int) =~= avs);
    }
    total
}

/// Resolves one statement; the executable mirror of [`spec_resolve_stmt`].
fn resolve_statement(
    image: &mut Vec<u8>,
    cursor: &mut u16,
    diags: &mut Vec<AssemblerError>,
    symbols: &SymbolTable,
    config: &AssemblerConfig,
    instr: &Instruction,
)
    requires
        rstate_wf(mk_rstate(old(image)@, *old(cursor), aerr_views(old(diags)@))),
    ensures
        ({
            let st2 = spec_resolve_stmt(
                mk_rstate(old(image)@, *old(cursor), aerr_views(old(diags)@)),
                symbols@,
                config@,
                instr@,
            );
            &&& final(image)@ == st2.image
            &&& *final(cursor) == st2.cursor
            &&& aerr_views(final(diags)@) == st2.diags
            &&& rstate_wf(st2)
        }),
{
    match &instr.kind {
        InstructionKind::Label(_) => {},
        InstructionKind::Keyword { keyword, arguments } => match keyword {
            Keyword::Org => {
                if arguments.len() != 1 {
                    let given: u16 = if arguments.len() > 0xFFFF {
                        0xFFFF
                    } else {
                        arguments.len() as u16
                    };
                    let asp = args_span_exec(instr.token_span, arguments);
                    let m = String::from_str(".org");
                    proof {
                        reveal_strlit(".org");
                        assert(m@ =~= spec_kw_text(Keyword::Org));
                    }
                    let ghost d0 = aerr_views(diags@);
                    let ghost mn = m@;
                    diags.push(
                        AssemblerError::WrongNumArgs {
                            mnemonic: m,
                            expected: 1,
                            given,
                            mnemonic_span: instr.token_span,
                            args_span: asp,
                        },
                    );
                    proof {
                        assert(aerr_views(diags@) =~= d0.push(
                            SpecAssemblerError::WrongNumArgs {
                                mnemonic: mn,
                                expected: 1,
                                given,
                                mnemonic_span: instr@.token_span,
                                args_span: asp,
                            },
                        ));
                    }
                }
                if arguments.len() == 1 {
                    proof {
                        assert(arguments@.map_values(|a: Argument<u16>| a@)[0] == arguments@[0]@);
                    }
                    let span = arguments[0].span;
                    match &arguments[0].kind {
                        ArgumentKind::ImmediateNumber(v) => {
                            relocate(image, cursor, *v, Ghost(aerr_views(diags@)));
                        },
                        ArgumentKind::IndirectNumber(v) => {
                            relocate(image, cursor, *v, Ghost(aerr_views(diags@)));
                        },
                        ArgumentKind::Label(name) => match symbols.get(name.as_str()) {
                            Some(addr) => {
                                relocate(image, cursor, addr, Ghost(aerr_views(diags@)));
                            },
                            None => {
                                let ghost d0 = aerr_views(diags@);
                                diags.push(
                                    AssemblerError::LabelDNE { mnemonic: name.clone(), span },
                                );
                                proof {
                                    assert(aerr_views(diags@) =~= d0.push(
                                        SpecAssemblerError::LabelDNE { mnemonic: name@, span },
                                    ));
                                }
                            },
                        },
                    }
                }
            },
            Keyword::Byte => {
                emit_args16(image, cursor, diags, symbols, arguments);
            },
        },
        InstructionKind::Opcode { mnemonic, arguments } => {
            match config.get_opcode(mnemonic.as_str()) {
                None => {
                    let ghost d0 = aerr_views(diags@);
                    diags.push(
                        AssemblerError::OpcodeDNE {
                            mnemonic: mnemonic.clone(),
                            span: instr.token_span,
                        },
                    );
                    proof {
                        assert(aerr_views(diags@) =~= d0.push(
                            SpecAssemblerError::OpcodeDNE {
                                mnemonic: mnemonic@,
                                span: instr@.token_span,
                            },
                        ));
                    }
                    write_byte(image, cursor, 0xFF, Ghost(aerr_views(diags@)));
                    emit_args8(image, cursor, diags, symbols, arguments);
                },
                Some(op) => {
                    let expected: u16 = if op.args.len() > 0xFFFF {
                        0xFFFF
                    } else {
                        op.args.len() as u16
                    };
                    let given = args8_width(arguments);
                    if given != expected {
                        let asp = args_span_exec(instr.token_span, arguments);
                        let ghost d0 = aerr_views(diags@);
                        diags.push(
                            AssemblerError::WrongNumArgs {
                                mnemonic: mnemonic.clone(),
                                expected,
                                given,
                                mnemonic_span: instr.token_span,
                                args_span: asp,
                            },
                        );
                        proof {
                            assert(aerr_views(diags@) =~= d0.push(
                                SpecAssemblerError::WrongNumArgs {
                                    mnemonic: mnemonic@,
                                    expected,
                                    given,
                                    mnemonic_span: instr@.token_span,
                                    args_span: asp,
                                },
                            ));
                        }
                    }
                    let ghost avs = arguments@.map_values(|a: Argument<u8>| a@);
                    let ghost d1 = aerr_views(diags@);
                    let binary = op.binary;
                    let ghost opv = op@;
                    let n = arguments.len();
                    let mut posn: u16 = 0;
                    let mut j: usize = 0;
                    proof {
                        assert(avs.skip(0) =~= avs);
                        assert(d1 + Seq::<SpecAssemblerError>::empty() =~= d1);
                    }
                    while j < n
                        invariant
                            j <= n,
                            n == arguments@.len(),
                            avs == arguments@.map_values(|a: Argument<u8>| a@),
                            opv.args == op@.args,
                            d1 + spec_kind_diags(mnemonic@, instr@.token_span, opv.args, avs, 0)
                                == aerr_views(diags@) + spec_kind_diags(
                                mnemonic@,
                                instr@.token_span,
                                opv.args,
                                avs.skip(j as int),
                                posn,
                            ),
                            image@ == old(image)@,
                            *cursor == *old(cursor),
                            rstate_wf(mk_rstate(image@, *cursor, aerr_views(diags@))),
                        decreases n - j,
                    {
                        proof {
                            assert(avs.skip(j as int)[0] == arguments@[j as int]@);
                            assert(avs.skip(j as int).drop_first() =~= avs.skip(j + 1));
                        }
                        let w: u16 = match &arguments[j].kind {
                            ArgumentKind::Label(_) => 2,
                            _ => 1,
                        };
                        let given_kind: OpcodeArg = match &arguments[j].kind {
                            ArgumentKind::IndirectNumber(_) => OpcodeArg::Indirect,
                            ArgumentKind::ImmediateNumber(_) => OpcodeArg::Immediate,
                            ArgumentKind::Label(_) => OpcodeArg::Immediate,
                        };
                        let ghost dpre = aerr_views(diags@);
                        if (posn as usize) < op.args.len() {
                            let exp = op.args[posn as usize];
                            if exp != given_kind {
                                let arg_span = arguments[j].span;
                                diags.push(
                                    AssemblerError::WrongArgType {
                                        mnemonic: mnemonic.clone(),
                                        expected: exp,
                                        given: given_kind,
                                        mnemonic_span: instr.token_span,
                                        arg_span,
                                    },
                                );
                                proof {
                                    assert(aerr_views(diags@) =~= dpre.push(
                                        SpecAssemblerError::WrongArgType {
                                            mnemonic: mnemonic@,
                                            expected: exp,
                                            given: given_kind,
                                            mnemonic_span: instr@.token_span,
                                            arg_span,
                                        },
                                    ));
                                    assert(dpre + (seq![
                                        SpecAssemblerError::WrongArgType {
                                            mnemonic: mnemonic@,
                                            expected: exp,
                                            given: given_kind,
                                            mnemonic_span: instr@.token_span,
                                            arg_span,
                                        },
                                    ] + spec_kind_diags(
                                        mnemonic@,
                                        instr@.token_span,
                                        opv.args,
                                        avs.skip(j + 1),
                                        sat_add16(posn, w),
                                    )) =~= aerr_views(diags@) + spec_kind_diags(
                                        mnemonic@,
                                        instr@.token_span,
                                        opv.args,
                                        avs.skip(j + 1),
                                        sat_add16(posn, w),
                                    ));
                                }
                            } else {
                                proof {
                                    assert(Seq::<SpecAssemblerError>::empty() + spec_kind_diags(
                                        mnemonic@,
                                        instr@.token_span,
                                        opv.args,
                                        avs.skip(j + 1),
                                        sat_add16(posn, w),
                                    ) =~= spec_kind_diags(
                                        mnemonic@,
                                        instr@.token_span,
                                        opv.args,
                                        avs.skip(j + 1),
                                        sat_add16(posn, w),
                                    ));
                                }
                            }
                        } else {
                            proof {
                                assert(Seq::<SpecAssemblerError>::empty() + spec_kind_diags(
                                    mnemonic@,
                                    instr@.token_span,
                                    opv.args,
                                    avs.skip(j + 1),
                                    sat_add16(posn, w),
                                ) =~= spec_kind_diags(
                                    mnemonic@,
                                    instr@.token_span,
                                    opv.args,
                                    avs.skip(j + 1),
                                    sat_add16(posn, w),
                                ));
                            }
                        }
                        posn = crate::ast::sat_add16_exec(posn, w);
                        j = j + 1;
                    }
                    proof {
                        assert(avs.skip(n as int) =~= Seq::<SpecArg<u8>>::empty());
                        assert(aerr_views(diags@) + Seq::<SpecAssemblerError>::empty()
                            =~= aerr_views(diags@));
                    }
                    write_byte(image, cursor, binary, Ghost(aerr_views(diags@)));
                    emit_args8(image, cursor, diags, symbols, arguments);
                },
            }
        },
    }
}

/// Resolves a statement list against the configuration: the assembled byte
/// image when no semantic problem was found, or every diagnostic otherwise.
pub fn resolve(
    instructions: &Vec<Instruction>,
    symbols: &SymbolTable,
    config: &AssemblerConfig,
) -> (r: Result<Vec<u8>, Vec<AssemblerError>>)
    ensures
        ({
            let ro = spec_resolve(
                instructions@.map_values(|i: Instruction| i@),
                symbols@,
                config@,
            );
            match r {
                Ok(bytes) => ro.diags.len() == 0 && bytes@ == ro.image && bytes@.len() <= 0xFFFF,
                Err(ds) => ro.diags.len() > 0 && aerr_views(ds@) == ro.diags,
            }
        }),
{
    let ghost ivs = instructions@.map_values(|i: Instruction| i@);
    let mut image: Vec<u8> = Vec::new();
    let mut cursor: u16 = 0;
    let mut diags: Vec<AssemblerError> = Vec::new();
    let n = instructions.len();
    proof {
        assert(aerr_views(diags@) =~= Seq::<SpecAssemblerError>::empty());
        assert(image@ =~= Seq::<u8>::empty());
    }
    let mut i: usize = 0;
    while i < n
        invariant
            i <= n,
            n == instructions@.len(),
            ivs == instructions@.map_values(|x: Instruction| x@),
            mk_rstate(image@, cursor, aerr_views(diags@)) == spec_resolve_upto(
                ivs,
                symbols@,
                config@,
                i as int,
            ),
            rstate_wf(mk_rstate(image@, cursor, aerr_views(diags@))),
        decreases n - i,
    {
        proof {
            assert(ivs[i as int] == instructions@[i as int]@);
        }
        resolve_statement(&mut image, &mut cursor, &mut diags, symbols, config, &instructions[i]);
        i = i + 1;
    }
    if diags.len() == 0 {
        proof {
            assert(aerr_views(diags@) =~= Seq::<SpecAssemblerError>::empty());
        }
        Ok(image)
    } else {
        Err(diags)
    }
}


/// Diagnostic spans are never negative-length ranges: the span reported for
/// a statement's arguments is well formed whenever the mnemonic's span and
/// the argument spans are, and with no argument at all it is exactly the
/// mnemonic's own span.
pub proof fn lemma_args_span_wf<T>(base: Position, args: Seq<SpecArg<T>>)
    requires
        crate::position::pos_wf(base),
        forall|k: int| 0 <= k < args.len() ==> crate::position::pos_wf((#[trigger] args[k]).span),
    ensures
        crate::position::pos_wf(spec_args_span(base, args)),
        args.len() == 0 ==> spec_args_span(base, args) == base,
    decreases args.len(),
{
    if args.len() > 0 {
        crate::position::lemma_join_covers(base, args[0].span);
        assert forall|k: int| 0 <= k < args.drop_first().len() implies crate::position::pos_wf(
            (#[trigger] args.drop_first()[k]).span,
        ) by {
            assert(args.drop_first()[k] == args[k + 1]);
        }
        lemma_args_span_wf(spec_join(base, args[0].span), args.drop_first());
    }
}


/// Emitting opcode arguments keeps the generator's invariant.
pub proof fn lemma_emit_args8_wf(st: RState, syms: SpecSymbols, args: Seq<SpecArg<u8>>)
    requires
        rstate_wf(st),
    ensures
        rstate_wf(spec_emit_args8(st, syms, args)),
    decreases args.len(),
{
    if args.len() > 0 {
        lemma_emit_args8_wf(spec_emit_arg8(st, syms, args[0]), syms, args.drop_first());
    }
}

/// Emitting `.byte` arguments keeps the generator's invariant.
pub proof fn lemma_emit_args16_wf(st: RState, syms: SpecSymbols, args: Seq<SpecArg<u16>>)
    requires
        rstate_wf(st),
    ensures
        rstate_wf(spec_emit_args16(st, syms, args)),
    decreases args.len(),
{
    if args.len() > 0 {
        lemma_emit_args16_wf(spec_emit_arg16(st, syms, args[0]), syms, args.drop_first());
    }
}

/// Resolving one statement keeps the generator's invariant.
pub proof fn lemma_resolve_stmt_wf(
    st: RState,
    syms: SpecSymbols,
    cfg: Seq<SpecOpcode>,
    instr: SpecInstruction,
)
    requires
        rstate_wf(st),
    ensures
        rstate_wf(spec_resolve_stmt(st, syms, cfg, instr)),
{
    match instr.kind {
        SpecInstructionKind::Label(_) => {},
        SpecInstructionKind::Keyword { keyword: Keyword::Org, arguments } => {},
        SpecInstructionKind::Keyword { keyword: Keyword::Byte, arguments } => {
            lemma_emit_args16_wf(st, syms, arguments);
        },
        SpecInstructionKind::Opcode { mnemonic, arguments } => {
            match spec_get_opcode(cfg, mnemonic) {
                None => {
                    let st1 = RState {
                        image: st.image,
                        cursor: st.cursor,
                        diags: st.diags.push(
                            SpecAssemblerError::OpcodeDNE { mnemonic, span: instr.token_span },
                        ),
                    };
                    lemma_emit_args8_wf(spec_write_byte(st1, 0xFF), syms, arguments);
                },
                Some(op) => {
                    let given = spec_args8_width(arguments);
                    let expected = sat_len16(op.args.len());
                    let d1 = if given != expected {
                        st.diags.push(
                            SpecAssemblerError::WrongNumArgs {
                                mnemonic,
                                expected,
                                given,
                                mnemonic_span: instr.token_span,
                                args_span: spec_args_span(instr.token_span, arguments),
                            },
                        )
                    } else {
                        st.diags
                    };
                    let d2 = d1 + spec_kind_diags(
                        mnemonic,
                        instr.token_span,
                        op.args,
                        arguments,
                        0,
                    );
                    let st1 = RState { image: st.image, cursor: st.cursor, diags: d2 };
                    lemma_emit_args8_wf(spec_write_byte(st1, op.binary), syms, arguments);
                },
            }
        },
    }
}

/// The image never exceeds 65535 bytes, and the cursor never leaves it: the
/// generator's invariant holds after any number of statements, whatever the
/// source and configuration.
pub proof fn lemma_resolve_image_bounded(
    instrs: Seq<SpecInstruction>,
    syms: SpecSymbols,
    cfg: Seq<SpecOpcode>,
    i: int,
)
    requires
        0 <= i,
    ensures
        rstate_wf(spec_resolve_upto(instrs, syms, cfg, i)),
        spec_resolve_upto(instrs, syms, cfg, i).image.len() <= 0xFFFF,
    decreases i,
{
    if i > 0 {
        lemma_resolve_image_bounded(instrs, syms, cfg, i - 1);
        lemma_resolve_stmt_wf(spec_resolve_upto(instrs, syms, cfg, i - 1), syms, cfg, instrs[i - 1]);
    }
}


/// How many arity diagnostics a list holds.
pub open spec fn count_wrong_num_args(ds: Seq<SpecAssemblerError>) -> int
    decreases ds.len(),
{
    if ds.len() == 0 {
        0
    } else {
        count_wrong_num_args(ds.drop_last()) + (match ds.last() {
            SpecAssemblerError::WrongNumArgs { .. } => 1int,
            _ => 0int,
        })
    }
}

/// Counting arity diagnostics distributes over concatenation.
pub proof fn lemma_count_concat(a: Seq<SpecAssemblerError>, b: Seq<SpecAssemblerError>)
    ensures
        count_wrong_num_args(a + b) == count_wrong_num_args(a) + count_wrong_num_args(b),
    decreases b.len(),
{
    if b.len() == 0 {
        assert(a + b =~= a);
    } else {
        lemma_count_concat(a, b.drop_last());
        assert((a + b).drop_last() =~= a + b.drop_last());
        assert((a + b).last() == b.last());
    }
}

/// Kind validation never reports an arity problem.
pub proof fn lemma_kind_diags_no_arity(
    mnemonic: Seq<char>,
    tspan: Position,
    expected: Seq<OpcodeArg>,
    args: Seq<SpecArg<u8>>,
    posn: u16,
)
    ensures
        count_wrong_num_args(spec_kind_diags(mnemonic, tspan, expected, args, posn)) == 0,
    decreases args.len(),
{
    if args.len() == 0 {
    } else {
        let a = args[0];
        let w: u16 = match a.kind {
            SpecArgKind::Label(_) => 2,
            _ => 1,
        };
        let given = spec_arg_kind(a);
        let head: Seq<SpecAssemblerError> = if posn < expected.len() && expected[posn as int]
            != given {
            seq![
                SpecAssemblerError::WrongArgType {
                    mnemonic,
                    expected: expected[posn as int],
                    given,
                    mnemonic_span: tspan,
                    arg_span: a.span,
                },
            ]
        } else {
            Seq::empty()
        };
        lemma_kind_diags_no_arity(mnemonic, tspan, expected, args.drop_first(), sat_add16(posn, w));
        lemma_count_concat(
            head,
            spec_kind_diags(mnemonic, tspan, expected, args.drop_first(), sat_add16(posn, w)),
        );
        if head.len() == 1 {
            let d = SpecAssemblerError::WrongArgType {
                mnemonic,
                expected: expected[posn as int],
                given,
                mnemonic_span: tspan,
                arg_span: a.span,
            };
            assert(head.last() == d);
            assert(head.drop_last() =~= Seq::<SpecAssemblerError>::empty());
            assert(count_wrong_num_args(Seq::<SpecAssemblerError>::empty()) == 0);
            assert(count_wrong_num_args(head) == 0);
        } else {
            assert(head =~= Seq::<SpecAssemblerError>::empty());
            assert(count_wrong_num_args(head) == 0);
        }
    }
}

/// Emitting argument bytes never reports an arity problem: only missing
/// labels are recorded there.
pub proof fn lemma_emit_args8_no_arity(st: RState, syms: SpecSymbols, args: Seq<SpecArg<u8>>)
    ensures
        count_wrong_num_args(spec_emit_args8(st, syms, args).diags) == count_wrong_num_args(
            st.diags,
        ),
    decreases args.len(),
{
    if args.len() > 0 {
        let st1 = spec_emit_arg8(st, syms, args[0]);
        match args[0].kind {
            SpecArgKind::ImmediateNumber(_) => {},
            SpecArgKind::IndirectNumber(_) => {},
            SpecArgKind::Label(name) => {
                match st_get(syms, name) {
                    Some(_) => {},
                    None => {
                        let pushed = st.diags.push(
                            SpecAssemblerError::LabelDNE { mnemonic: name, span: args[0].span },
                        );
                        assert(pushed.drop_last() =~= st.diags);
                    },
                }
            },
        }
        lemma_emit_args8_no_arity(st1, syms, args.drop_first());
    }
}

/// Arity validation reports exactly one problem: an opcode whose argument
/// byte-width differs from its declared arity adds exactly one
/// `WrongNumArgs`, with the correct expected and given counts and the
/// mnemonic's own span, however many arguments were given (none included);
/// a matching width adds no arity diagnostic at all; and an unknown
/// mnemonic adds none either, because the substituted synthetic opcode
/// takes the width as given.
pub proof fn lemma_arity_diagnostic_exact(
    st: RState,
    syms: SpecSymbols,
    cfg: Seq<SpecOpcode>,
    mnemonic: Seq<char>,
    arguments: Seq<SpecArg<u8>>,
    instruction_span: Position,
    token_span: Position,
)
    ensures
        ({
            let instr = SpecInstruction {
                kind: SpecInstructionKind::Opcode { mnemonic, arguments },
                instruction_span,
                token_span,
            };
            let out = spec_resolve_stmt(st, syms, cfg, instr);
            match spec_get_opcode(cfg, mnemonic) {
                Some(op) => {
                    let given = spec_args8_width(arguments);
                    let expected = sat_len16(op.args.len());
                    if given != expected {
                        &&& count_wrong_num_args(out.diags) == count_wrong_num_args(st.diags) + 1
                        &&& out.diags[st.diags.len() as int] == (SpecAssemblerError::WrongNumArgs {
                            mnemonic,
                            expected,
                            given,
                            mnemonic_span: token_span,
                            args_span: spec_args_span(token_span, arguments),
                        })
                    } else {
                        count_wrong_num_args(out.diags) == count_wrong_num_args(st.diags)
                    }
                },
                None => count_wrong_num_args(out.diags) == count_wrong_num_args(st.diags),
            }
        }),
{
    let instr = SpecInstruction {
        kind: SpecInstructionKind::Opcode { mnemonic, arguments },
        instruction_span,
        token_span,
    };
    match spec_get_opcode(cfg, mnemonic) {
        Some(op) => {
            let given = spec_args8_width(arguments);
            let expected = sat_len16(op.args.len());
            let d1 = if given != expected {
                st.diags.push(
                    SpecAssemblerError::WrongNumArgs {
                        mnemonic,
                        expected,
                        given,
                        mnemonic_span: token_span,
                        args_span: spec_args_span(token_span, arguments),
                    },
                )
            } else {
                st.diags
            };
            if given != expected {
                assert(d1.drop_last() =~= st.diags);
            }
            let kd = spec_kind_diags(mnemonic, token_span, op.args, arguments, 0);
            lemma_kind_diags_no_arity(mnemonic, token_span, op.args, arguments, 0);
            lemma_count_concat(d1, kd);
            let st1 = RState { image: st.image, cursor: st.cursor, diags: d1 + kd };
            lemma_emit_args8_no_arity(spec_write_byte(st1, op.binary), syms, arguments);
            if given != expected {
                assert((d1 + kd)[st.diags.len() as int] == d1[st.diags.len() as int]);
                lemma_emit_args8_diags_prefix(spec_write_byte(st1, op.binary), syms, arguments);
            }
        },
        None => {
            let st1 = RState {
                image: st.image,
                cursor: st.cursor,
                diags: st.diags.push(
                    SpecAssemblerError::OpcodeDNE { mnemonic, span: token_span },
                ),
            };
            assert(st1.diags.drop_last() =~= st.diags);
            lemma_emit_args8_no_arity(spec_write_byte(st1, 0xFF), syms, arguments);
        },
    }
}

/// Emitting argument bytes only appends diagnostics: what was recorded
/// before stays, at its place.
pub proof fn lemma_emit_args8_diags_prefix(st: RState, syms: SpecSymbols, args: Seq<SpecArg<u8>>)
    ensures
        ({
            let out = spec_emit_args8(st, syms, args);
            &&& out.diags.len() >= st.diags.len()
            &&& forall|k: int| 0 <= k < st.diags.len() ==> out.diags[k] == st.diags[k]
        }),
    decreases args.len(),
{
    if args.len() > 0 {
        lemma_emit_args8_diags_prefix(spec_emit_arg8(st, syms, args[0]), syms, args.drop_first());
    }
}


/// The generator's state after `i` statements reads only those statements:
/// two lists that agree on their first `i` entries resolve to the same
/// state there.
pub proof fn lemma_resolve_upto_agrees(
    s1: Seq<SpecInstruction>,
    s2: Seq<SpecInstruction>,
    syms: SpecSymbols,
    cfg: Seq<SpecOpcode>,
    i: int,
)
    requires
        0 <= i <= s1.len(),
        i <= s2.len(),
        forall|k: int| 0 <= k < i ==> s1[k] == s2[k],
    ensures
        spec_resolve_upto(s1, syms, cfg, i) == spec_resolve_upto(s2, syms, cfg, i),
    decreases i,
{
    if i > 0 {
        lemma_resolve_upto_agrees(s1, s2, syms, cfg, i - 1);
    }
}

/// Why forward references resolve like backward ones: a label definition
/// statement is inert in generation. It emits nothing and changes nothing,
/// so the image and the diagnostics are the same wherever the definition
/// stands in the statement list — before its uses, after them, or nowhere.
/// Only the symbol table, completed before this pass begins, gives a label
/// reference its two address bytes.
pub proof fn lemma_label_definition_position_free(
    before: Seq<SpecInstruction>,
    def: SpecInstruction,
    after: Seq<SpecInstruction>,
    syms: SpecSymbols,
    cfg: Seq<SpecOpcode>,
)
    requires
        def.kind is Label,
    ensures
        spec_resolve(before + seq![def] + after, syms, cfg) == spec_resolve(
            before + after,
            syms,
            cfg,
        ),
    decreases after.len(),
{
    let with_def = before + seq![def] + after;
    let without = before + after;
    if after.len() == 0 {
        assert(without =~= before);
        assert(with_def.len() == before.len() + 1);
        assert(with_def[before.len() as int] == def);
        lemma_resolve_upto_agrees(with_def, before, syms, cfg, before.len() as int);
    } else {
        let shorter = after.drop_last();
        lemma_label_definition_position_free(before, def, shorter, syms, cfg);
        assert(before + seq![def] + shorter =~= with_def.drop_last());
        assert(before + shorter =~= without.drop_last());
        assert(with_def[with_def.len() - 1] == after.last());
        assert(without[without.len() - 1] == after.last());
        lemma_resolve_upto_agrees(with_def, with_def.drop_last(), syms, cfg, with_def.len() - 1);
        lemma_resolve_upto_agrees(without, without.drop_last(), syms, cfg, without.len() - 1);
    }
}


} // verus!
