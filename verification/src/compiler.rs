//! Code generation: walking the statement tree and emitting assembly.
//!
//! The generator owns a string-constant pool (deduplicated by exact text)
//! and a process-wide monotonically increasing label counter.  Each
//! function is compiled under a fresh frame context — an offset table
//! assigning every variable one 8-byte slot in first-use order from
//! offset 8, the function's epilogue label, and the set of variables last
//! assigned a string-producing expression — so function scopes are
//! isolated by construction.
//!
//! `sg_toplevel` and its companions are the mathematical code generator;
//! the executable methods are proved to produce exactly its instructions,
//! and `Compiler::compile` renders them to the final text lines.

use vstd::prelude::*;
use vstd::string::*;
use crate::ast::{BinaryOperator, Expression, ExpressionView, Statement, StatementView, expr_view,
    stmt_view, exprs_view, stmts_view, lemma_exprs_view, lemma_stmts_view};
use crate::emit::{Instr, InstrView, instrs_view, LabelCat, LabelId, CmpKind, lemma_instrs_view_push,
    lemma_instrs_view_concat, spec_render, render_instr, spec_escape, escape_text, spec_udec,
    u64_dec};

verus! {

/// The highest stack offset the frame allocator will hand out; a frame
/// that would grow past it is refused.  This is a machine limit of the
/// 64-bit offset arithmetic, unreachable in practice.
pub const MAX_FRAME: u64 = 0x7FFF_FFFF_FFFF_FF00;

/// A fatal code-generation error.
#[derive(Debug, PartialEq)]
pub enum CodegenError {
    /// A reference to a name with no assigned stack slot.
    UndefinedVariable(String),
    /// A tree shape the generator does not accept: a parameter that is
    /// not a bare name.
    UnrecognizedShape,
    /// A call or parameter list longer than the argument-register
    /// sequence.
    TooManyArguments,
    /// The label counter is exhausted; a machine limit, unreachable in
    /// practice.
    TooManyLabels,
    /// The frame allocator is exhausted; a machine limit, unreachable in
    /// practice.
    FrameTooLarge,
}

/// The mathematical image of a `CodegenError`.
pub enum CodegenErrorView {
    UndefinedVariable(Seq<char>),
    UnrecognizedShape,
    TooManyArguments,
    TooManyLabels,
    FrameTooLarge,
}

impl View for CodegenError {
    type V = CodegenErrorView;

    open spec fn view(&self) -> CodegenErrorView {
        match self {
            CodegenError::UndefinedVariable(s) => CodegenErrorView::UndefinedVariable(s@),
            CodegenError::UnrecognizedShape => CodegenErrorView::UnrecognizedShape,
            CodegenError::TooManyArguments => CodegenErrorView::TooManyArguments,
            CodegenError::TooManyLabels => CodegenErrorView::TooManyLabels,
            CodegenError::FrameTooLarge => CodegenErrorView::FrameTooLarge,
        }
    }
}

/// The generator's global state: the string pool and the label counter.
pub struct GenState {
    pub strings: Seq<Seq<char>>,
    pub labels: int,
}

/// A function's frame context: the offset table, the next free offset,
/// the epilogue label number, and the string-typed classification
/// records (looked up from the most recent entry backwards).
pub struct FrameView {
    pub offsets: Seq<(Seq<char>, u64)>,
    pub next: int,
    pub epilogue: u64,
    pub svars: Seq<(Seq<char>, bool)>,
}

/// The code generator: string pool and label counter.
pub struct Compiler {
    pub strings: Vec<String>,
    pub label_count: u64,
}

/// The executable frame context, mirroring `FrameView`.
pub struct FrameCtx {
    pub offsets: Vec<(String, u64)>,
    pub next_offset: u64,
    pub epilogue: u64,
    pub svars: Vec<(String, bool)>,
}

impl View for Compiler {
    type V = GenState;

    open spec fn view(&self) -> GenState {
        GenState {
            strings: self.strings@.map_values(|s: String| s@),
            labels: self.label_count as int,
        }
    }
}

impl View for FrameCtx {
    type V = FrameView;

    open spec fn view(&self) -> FrameView {
        FrameView {
            offsets: self.offsets@.map_values(|p: (String, u64)| (p.0@, p.1)),
            next: self.next_offset as int,
            epilogue: self.epilogue,
            svars: self.svars@.map_values(|p: (String, bool)| (p.0@, p.1)),
        }
    }
}

/// The stack offset assigned to a name, if any: the first matching
/// entry.
pub open spec fn lookup_offset(offsets: Seq<(Seq<char>, u64)>, name: Seq<char>) -> Option<u64>
    decreases offsets.len(),
{
    if offsets.len() == 0 {
        None
    } else if offsets[0].0 == name {
        Some(offsets[0].1)
    } else {
        lookup_offset(offsets.drop_first(), name)
    }
}

/// Whether a name was last classified as holding a string: the most
/// recent record wins; an unrecorded name is not string-typed.
pub open spec fn lookup_svar(svars: Seq<(Seq<char>, bool)>, name: Seq<char>) -> bool
    decreases svars.len(),
{
    if svars.len() == 0 {
        false
    } else if svars.last().0 == name {
        svars.last().1
    } else {
        lookup_svar(svars.drop_last(), name)
    }
}

/// The index of the first pool entry with this exact text, or negative
/// one.
pub open spec fn pool_find(pool: Seq<Seq<char>>, t: Seq<char>) -> int
    decreases pool.len(),
{
    if pool.len() == 0 {
        -1
    } else if pool[0] == t {
        0
    } else {
        let r = pool_find(pool.drop_first(), t);
        if r < 0 {
            -1
        } else {
            r + 1
        }
    }
}

/// `pool_find` names the first matching entry, or rules every entry out.
pub proof fn lemma_pool_find(pool: Seq<Seq<char>>, t: Seq<char>)
    ensures
        pool_find(pool, t) < 0 ==> forall|k: int| 0 <= k < pool.len() ==> pool[k] != t,
        pool_find(pool, t) >= 0 ==> 0 <= pool_find(pool, t) < pool.len() && pool[pool_find(
            pool,
            t,
        )] == t && forall|k: int| 0 <= k < pool_find(pool, t) ==> pool[k] != t,
    decreases pool.len(),
{
    if pool.len() > 0 && pool[0] != t {
        lemma_pool_find(pool.drop_first(), t);
        assert(forall|k: int|
            1 <= k < pool.len() ==> pool[k] == pool.drop_first()[k - 1]);
    }
}

/// Registers a string literal: an existing entry is reused, a new text
/// is appended; the result is the entry's index.
pub open spec fn sg_register_string(st: GenState, t: Seq<char>) -> (GenState, int) {
    let pf = pool_find(st.strings, t);
    if pf >= 0 {
        (st, pf)
    } else {
        (GenState { strings: st.strings.push(t), labels: st.labels }, st.strings.len() as int)
    }
}

/// Draws the next label number, unless the counter is exhausted.
pub open spec fn sg_new_label(st: GenState) -> Result<(GenState, u64), CodegenErrorView> {
    if st.labels >= u64::MAX {
        Err(CodegenErrorView::TooManyLabels)
    } else {
        Ok((GenState { strings: st.strings, labels: st.labels + 1 }, st.labels as u64))
    }
}

/// Resolves a name to its slot, allocating the next 8-byte-aligned
/// offset on first use.
pub open spec fn sg_alloc(fr: FrameView, name: Seq<char>) -> Result<
    (FrameView, u64),
    CodegenErrorView,
> {
    match lookup_offset(fr.offsets, name) {
        Some(off) => Ok((fr, off)),
        None => {
            if fr.next > MAX_FRAME {
                Err(CodegenErrorView::FrameTooLarge)
            } else {
                Ok(
                    (
                        FrameView {
                            offsets: fr.offsets.push((name, fr.next as u64)),
                            next: fr.next + 8,
                            epilogue: fr.epilogue,
                            svars: fr.svars,
                        },
                        fr.next as u64,
                    ),
                )
            }
        },
    }
}

/// Whether an expression is statically known to produce a string
/// address: a string literal or a fetch result.
pub open spec fn is_stringy_expr(e: ExpressionView) -> bool {
    e is StringLiteral || e is Fetch
}

/// Whether a print of this expression selects the string format: a
/// string-producing expression, or a variable last classified as one.
pub open spec fn print_is_string(fr: FrameView, e: ExpressionView) -> bool {
    is_stringy_expr(e) || match e {
        ExpressionView::Variable(name) => lookup_svar(fr.svars, name),
        ExpressionView::FunctionArg(name) => lookup_svar(fr.svars, name),
        _ => false,
    }
}

/// The combining instructions of a binary operation, applied with the
/// left operand in the secondary location and the right in the primary.
/// Subtraction and division correct the operand order; comparisons
/// compare left against right and materialize a 0/1 result.
pub open spec fn sg_op_code(op: BinaryOperator) -> Seq<InstrView> {
    match op {
        BinaryOperator::Add => seq![InstrView::AddRaxRcx],
        BinaryOperator::Sub => seq![InstrView::SubRcxRax, InstrView::MovRaxRcx],
        BinaryOperator::Mul => seq![InstrView::ImulRaxRcx],
        BinaryOperator::Div => seq![
            InstrView::MovRbxRax,
            InstrView::MovRaxRcx,
            InstrView::ZeroRdx,
            InstrView::IdivRbx,
        ],
        BinaryOperator::Eq => seq![
            InstrView::CmpRcxRax,
            InstrView::SetCmp(CmpKind::Eq),
            InstrView::MovzxRaxAl,
        ],
        BinaryOperator::NEq => seq![
            InstrView::CmpRcxRax,
            InstrView::SetCmp(CmpKind::Ne),
            InstrView::MovzxRaxAl,
        ],
        BinaryOperator::Lt => seq![
            InstrView::CmpRcxRax,
            InstrView::SetCmp(CmpKind::Lt),
            InstrView::MovzxRaxAl,
        ],
        BinaryOperator::LtEq => seq![
            InstrView::CmpRcxRax,
            InstrView::SetCmp(CmpKind::Le),
            InstrView::MovzxRaxAl,
        ],
        BinaryOperator::Gt => seq![
            InstrView::CmpRcxRax,
            InstrView::SetCmp(CmpKind::Gt),
            InstrView::MovzxRaxAl,
        ],
    }
}

/// The pops that move pushed arguments into the register sequence, in
/// reverse order: the last argument leaves the stack first.
pub open spec fn sg_pop_args(n: int) -> Seq<InstrView>
    decreases n,
{
    if n <= 0 {
        Seq::empty()
    } else {
        seq![InstrView::PopArg((n - 1) as u64)] + sg_pop_args(n - 1)
    }
}

/// The instructions that leave an expression's value in the primary
/// result location, with the state they leave behind.
pub open spec fn sg_expr(st: GenState, fr: FrameView, e: ExpressionView) -> Result<
    (GenState, Seq<InstrView>),
    CodegenErrorView,
>
    decreases e, 1int,
{
    match e {
        ExpressionView::Integer(n) => Ok((st, seq![InstrView::MovRaxImm(n)])),
        ExpressionView::StringLiteral(t) => {
            let (st2, idx) = sg_register_string(st, t);
            Ok((st2, seq![InstrView::LeaRaxStr(idx as usize)]))
        },
        ExpressionView::Variable(name) => {
            match lookup_offset(fr.offsets, name) {
                Some(off) => Ok((st, seq![InstrView::LoadVar(off)])),
                None => Err(CodegenErrorView::UndefinedVariable(name)),
            }
        },
        ExpressionView::FunctionArg(name) => {
            match lookup_offset(fr.offsets, name) {
                Some(off) => Ok((st, seq![InstrView::LoadVar(off)])),
                None => Err(CodegenErrorView::UndefinedVariable(name)),
            }
        },
        ExpressionView::BinaryOp { left, op, right } => {
            match sg_expr(st, fr, *left) {
                Ok((st1, c1)) => {
                    match sg_expr(st1, fr, *right) {
                        Ok((st2, c2)) => Ok(
                            (
                                st2,
                                c1 + seq![InstrView::PushRax] + c2 + seq![InstrView::PopRcx]
                                    + sg_op_code(op),
                            ),
                        ),
                        Err(e2) => Err(e2),
                    }
                },
                Err(e1) => Err(e1),
            }
        },
        ExpressionView::FunctionCall { name, args } => {
            if args.len() > 6 {
                Err(CodegenErrorView::TooManyArguments)
            } else {
                match sg_arg_list(st, fr, args) {
                    Ok((st1, code)) => Ok(
                        (
                            st1,
                            code + sg_pop_args(args.len() as int) + seq![
                                InstrView::ZeroRax,
                                InstrView::CallFn(name),
                            ],
                        ),
                    ),
                    Err(e1) => Err(e1),
                }
            }
        },
        ExpressionView::Fetch { method, url, body } => {
            match sg_expr(st, fr, *method) {
                Ok((st1, cm)) => {
                    match sg_expr(st1, fr, *url) {
                        Ok((st2, cu)) => {
                            let body_r = match body {
                                Some(b) => sg_expr(st2, fr, *b),
                                None => Ok((st2, seq![InstrView::ZeroRax])),
                            };
                            match body_r {
                                Ok((st3, cb)) => Ok(
                                    (
                                        st3,
                                        cm + seq![InstrView::PushRax] + cu + seq![
                                            InstrView::PushRax,
                                        ] + cb + seq![
                                            InstrView::PushRax,
                                            InstrView::PopArg(2),
                                            InstrView::PopArg(1),
                                            InstrView::PopArg(0),
                                            InstrView::ZeroRax,
                                            InstrView::CallFetch,
                                        ],
                                    ),
                                ),
                                Err(e3) => Err(e3),
                            }
                        },
                        Err(e2) => Err(e2),
                    }
                },
                Err(e1) => Err(e1),
            }
        },
    }
}

/// Evaluates each argument left to right, pushing each result onto the
/// stack so a later argument's evaluation cannot destroy an earlier
/// one's.
pub open spec fn sg_arg_list(st: GenState, fr: FrameView, args: Seq<ExpressionView>) -> Result<
    (GenState, Seq<InstrView>),
    CodegenErrorView,
>
    decreases args, 0int,
{
    if args.len() == 0 {
        Ok((st, Seq::empty()))
    } else {
        match sg_expr(st, fr, args[0]) {
            Ok((st1, c1)) => {
                match sg_arg_list(st1, fr, args.drop_first()) {
                    Ok((st2, cr)) => Ok((st2, c1 + seq![InstrView::PushRax] + cr)),
                    Err(e2) => Err(e2),
                }
            },
            Err(e1) => Err(e1),
        }
    }
}

/// The instructions of one statement, with the state and frame left
/// behind.
pub open spec fn sg_stmt(st: GenState, fr: FrameView, s: StatementView) -> Result<
    (GenState, FrameView, Seq<InstrView>),
    CodegenErrorView,
>
    decreases s, 1int,
{
    match s {
        StatementView::Assign { name, value } => {
            match sg_alloc(fr, name) {
                Ok((fr1, off)) => {
                    match sg_expr(st, fr1, value) {
                        Ok((st1, code)) => {
                            let fr2 = FrameView {
                                offsets: fr1.offsets,
                                next: fr1.next,
                                epilogue: fr1.epilogue,
                                svars: fr1.svars.push((name, is_stringy_expr(value))),
                            };
                            Ok((st1, fr2, code + seq![InstrView::StoreVar(off)]))
                        },
                        Err(e) => Err(e),
                    }
                },
                Err(e) => Err(e),
            }
        },
        StatementView::Print(e) => {
            let fmt = if print_is_string(fr, e) {
                InstrView::LeaRdiFmtStr
            } else {
                InstrView::LeaRdiFmtInt
            };
            match sg_expr(st, fr, e) {
                Ok((st1, code)) => Ok(
                    (
                        st1,
                        fr,
                        code + seq![
                            InstrView::MovRsiRax,
                            fmt,
                            InstrView::ZeroRax,
                            InstrView::CallPrintf,
                        ],
                    ),
                ),
                Err(err) => Err(err),
            }
        },
        StatementView::Send(e) => {
            match sg_expr(st, fr, e) {
                Ok((st1, code)) => Ok(
                    (
                        st1,
                        fr,
                        code + seq![
                            InstrView::Jmp(LabelId { cat: LabelCat::Epilogue, n: fr.epilogue }),
                        ],
                    ),
                ),
                Err(err) => Err(err),
            }
        },
        StatementView::FunctionCall { name, args } => {
            if args.len() > 6 {
                Err(CodegenErrorView::TooManyArguments)
            } else {
                match sg_arg_list(st, fr, args) {
                    Ok((st1, code)) => Ok(
                        (
                            st1,
                            fr,
                            code + sg_pop_args(args.len() as int) + seq![
                                InstrView::ZeroRax,
                                InstrView::CallFn(name),
                            ],
                        ),
                    ),
                    Err(e1) => Err(e1),
                }
            }
        },
        StatementView::Fetch { method, url, body } => {
            match sg_expr(st, fr, method) {
                Ok((st1, cm)) => {
                    match sg_expr(st1, fr, url) {
                        Ok((st2, cu)) => {
                            let body_r = match body {
                                Some(b) => sg_expr(st2, fr, b),
                                None => Ok((st2, seq![InstrView::ZeroRax])),
                            };
                            match body_r {
                                Ok((st3, cb)) => Ok(
                                    (
                                        st3,
                                        fr,
                                        cm + seq![InstrView::PushRax] + cu + seq![
                                            InstrView::PushRax,
                                        ] + cb + seq![
                                            InstrView::PushRax,
                                            InstrView::PopArg(2),
                                            InstrView::PopArg(1),
                                            InstrView::PopArg(0),
                                            InstrView::ZeroRax,
                                            InstrView::CallFetch,
                                        ],
                                    ),
                                ),
                                Err(e3) => Err(e3),
                            }
                        },
                        Err(e2) => Err(e2),
                    }
                },
                Err(e1) => Err(e1),
            }
        },
        StatementView::If { condition, then_body, else_body } => {
            match sg_expr(st, fr, condition) {
                Ok((st1, ccode)) => {
                    match sg_new_label(st1) {
                        Ok((st2, end_n)) => {
                            let end_l = LabelId { cat: LabelCat::Endif, n: end_n };
                            match else_body {
                                Some(els) => {
                                    match sg_new_label(st2) {
                                        Ok((st3, else_n)) => {
                                            let else_l = LabelId {
                                                cat: LabelCat::Else,
                                                n: else_n,
                                            };
                                            match sg_stmts(st3, fr, then_body) {
                                                Ok((st4, fr4, tcode)) => {
                                                    match sg_stmts(st4, fr4, els) {
                                                        Ok((st5, fr5, ecode)) => Ok(
                                                            (
                                                                st5,
                                                                fr5,
                                                                ccode + seq![
                                                                    InstrView::CmpRaxZero,
                                                                    InstrView::Je(else_l),
                                                                ] + tcode + seq![
                                                                    InstrView::Jmp(end_l),
                                                                    InstrView::LabelDef(else_l),
                                                                ] + ecode + seq![
                                                                    InstrView::LabelDef(end_l),
                                                                ],
                                                            ),
                                                        ),
                                                        Err(e5) => Err(e5),
                                                    }
                                                },
                                                Err(e4) => Err(e4),
                                            }
                                        },
                                        Err(e3) => Err(e3),
                                    }
                                },
                                None => {
                                    match sg_stmts(st2, fr, then_body) {
                                        Ok((st4, fr4, tcode)) => Ok(
                                            (
                                                st4,
                                                fr4,
                                                ccode + seq![
                                                    InstrView::CmpRaxZero,
                                                    InstrView::Je(end_l),
                                                ] + tcode + seq![InstrView::LabelDef(end_l)],
                                            ),
                                        ),
                                        Err(e4) => Err(e4),
                                    }
                                },
                            }
                        },
                        Err(e2) => Err(e2),
                    }
                },
                Err(e1) => Err(e1),
            }
        },
        StatementView::While { condition, body } => {
            match sg_new_label(st) {
                Ok((st1, start_n)) => {
                    match sg_new_label(st1) {
                        Ok((st2, end_n)) => {
                            let start_l = LabelId { cat: LabelCat::WhileStart, n: start_n };
                            let end_l = LabelId { cat: LabelCat::WhileEnd, n: end_n };
                            match sg_expr(st2, fr, condition) {
                                Ok((st3, ccode)) => {
                                    match sg_stmts(st3, fr, body) {
                                        Ok((st4, fr4, bcode)) => Ok(
                                            (
                                                st4,
                                                fr4,
                                                seq![InstrView::LabelDef(start_l)] + ccode + seq![
                                                    InstrView::CmpRaxZero,
                                                    InstrView::Je(end_l),
                                                ] + bcode + seq![
                                                    InstrView::Jmp(start_l),
                                                    InstrView::LabelDef(end_l),
                                                ],
                                            ),
                                        ),
                                        Err(e4) => Err(e4),
                                    }
                                },
                                Err(e3) => Err(e3),
                            }
                        },
                        Err(e2) => Err(e2),
                    }
                },
                Err(e1) => Err(e1),
            }
        },
        StatementView::Function { name, params, body } => {
            match sg_function(st, name, params, body) {
                Ok((st1, code)) => Ok((st1, fr, code)),
                Err(e1) => Err(e1),
            }
        },
    }
}

/// The instructions of a statement sequence, threading state and frame
/// left to right.
pub open spec fn sg_stmts(st: GenState, fr: FrameView, ss: Seq<StatementView>) -> Result<
    (GenState, FrameView, Seq<InstrView>),
    CodegenErrorView,
>
    decreases ss, 0int,
{
    if ss.len() == 0 {
        Ok((st, fr, Seq::empty()))
    } else {
        match sg_stmt(st, fr, ss[0]) {
            Ok((st1, fr1, c1)) => {
                match sg_stmts(st1, fr1, ss.drop_first()) {
                    Ok((st2, fr2, cr)) => Ok((st2, fr2, c1 + cr)),
                    Err(e2) => Err(e2),
                }
            },
            Err(e1) => Err(e1),
        }
    }
}

/// The spills that move the incoming argument registers into the
/// parameters' stack slots, in declaration order; a parameter that is
/// not a bare name is refused.
pub open spec fn sg_params(fr: FrameView, params: Seq<ExpressionView>, idx: int) -> Result<
    (FrameView, Seq<InstrView>),
    CodegenErrorView,
>
    decreases params,
{
    if params.len() == 0 {
        Ok((fr, Seq::empty()))
    } else {
        match params[0] {
            ExpressionView::FunctionArg(name) => {
                match sg_alloc(fr, name) {
                    Ok((fr1, off)) => {
                        match sg_params(fr1, params.drop_first(), idx + 1) {
                            Ok((fr2, cr)) => Ok(
                                (fr2, seq![InstrView::SpillArg { idx: idx as u64, off }] + cr),
                            ),
                            Err(e2) => Err(e2),
                        }
                    },
                    Err(e1) => Err(e1),
                }
            },
            _ => Err(CodegenErrorView::UnrecognizedShape),
        }
    }
}

/// The name of the entry function, which is not re-exported.
pub open spec fn main_name() -> Seq<char> {
    "main"@
}

/// The rounded frame size: the slot space in use, rounded up to
/// 16-byte alignment.
pub open spec fn sg_frame_size(next: int) -> int {
    ((next - 8 + 15) / 16) * 16
}

/// The instructions of one function definition: export and label,
/// prologue with the back-patched frame reservation, parameter spills,
/// the body, and the shared epilogue (default return value, the
/// epilogue label, teardown, return) reachable by fall-through and by
/// any send's jump.
pub open spec fn sg_function(
    st: GenState,
    name: Seq<char>,
    params: Seq<ExpressionView>,
    body: Seq<StatementView>,
) -> Result<(GenState, Seq<InstrView>), CodegenErrorView>
    decreases body, 1int,
{
    match sg_new_label(st) {
        Ok((st1, epi)) => {
            if params.len() > 6 {
                Err(CodegenErrorView::TooManyArguments)
            } else {
                let fr0 = FrameView {
                    offsets: Seq::empty(),
                    next: 8,
                    epilogue: epi,
                    svars: Seq::empty(),
                };
                match sg_params(fr0, params, 0) {
                    Ok((fr1, spill)) => {
                        match sg_stmts(st1, fr1, body) {
                            Ok((st2, fr2, bcode)) => {
                                let size = sg_frame_size(fr2.next) as u64;
                                let epi_l = LabelId { cat: LabelCat::Epilogue, n: epi };
                                let head = if name == main_name() {
                                    Seq::empty()
                                } else {
                                    seq![InstrView::GlobalSym(name)]
                                };
                                Ok(
                                    (
                                        st2,
                                        head + seq![
                                            InstrView::FuncLabel(name),
                                            InstrView::PushRbp,
                                            InstrView::MovRbpRsp,
                                            InstrView::SubRsp(size),
                                        ] + spill + bcode + seq![
                                            InstrView::ZeroRax,
                                            InstrView::LabelDef(epi_l),
                                            InstrView::MovRspRbp,
                                            InstrView::PopRbp,
                                            InstrView::Ret,
                                        ],
                                    ),
                                )
                            },
                            Err(e2) => Err(e2),
                        }
                    },
                    Err(e1) => Err(e1),
                }
            }
        },
        Err(e0) => Err(e0),
    }
}

/// The instructions of the whole program: each top-level function
/// definition is compiled; other top-level statements are skipped.
pub open spec fn sg_toplevel(st: GenState, ss: Seq<StatementView>) -> Result<
    (GenState, Seq<InstrView>),
    CodegenErrorView,
>
    decreases ss,
{
    if ss.len() == 0 {
        Ok((st, Seq::empty()))
    } else {
        match ss[0] {
            StatementView::Function { name, params, body } => {
                match sg_function(st, name, params, body) {
                    Ok((st1, c1)) => {
                        match sg_toplevel(st1, ss.drop_first()) {
                            Ok((st2, cr)) => Ok((st2, c1 + cr)),
                            Err(e2) => Err(e2),
                        }
                    },
                    Err(e1) => Err(e1),
                }
            },
            _ => sg_toplevel(st, ss.drop_first()),
        }
    }
}

/// The data-section entry of one pooled string literal.
pub open spec fn rodata_line(i: int, text: Seq<char>) -> Seq<char> {
    "str_"@ + spec_udec(i as nat) + ": db \""@ + spec_escape(text) + "\", 0"@
}

/// The data-section entries of the pool from index `i` on.
pub open spec fn rodata_lines(pool: Seq<Seq<char>>, i: int) -> Seq<Seq<char>>
    decreases pool.len() - i,
{
    if !(0 <= i < pool.len()) {
        Seq::empty()
    } else {
        seq![rodata_line(i, pool[i])] + rodata_lines(pool, i + 1)
    }
}

/// The module header: the external routine declarations, the read-only
/// data section with the two format strings and one entry per pooled
/// literal, the exported entry point, and the code section marker.
pub open spec fn spec_header(pool: Seq<Seq<char>>) -> Seq<Seq<char>> {
    seq![
        "extern _printf"@,
        "extern _fetch"@,
        "section .rodata"@,
        "fmt: db \"%ld\", 10, 0"@,
        "fmt_str: db \"%s\", 10, 0"@,
    ] + rodata_lines(pool, 0) + seq!["global _main"@, "section .text"@]
}

/// The views of a line sequence, in order.
pub open spec fn lines_view(s: Seq<String>) -> Seq<Seq<char>> {
    s.map_values(|l: String| l@)
}

/// The view of a pushed line vector is the pushed view sequence.
pub proof fn lemma_lines_view_push(s: Seq<String>, l: String)
    ensures
        lines_view(s.push(l)) == lines_view(s).push(l@),
{
    assert(lines_view(s.push(l)) =~= lines_view(s).push(l@));
}

/// The rendered text of an instruction sequence, in order.
pub open spec fn render_lines(code: Seq<InstrView>) -> Seq<Seq<char>> {
    code.map_values(|iv: InstrView| spec_render(iv))
}

/// The text lines of the whole compilation: the header built from the
/// final string pool, then each generated instruction's line.
pub open spec fn sg_compile(st: GenState, ss: Seq<StatementView>) -> Result<
    Seq<Seq<char>>,
    CodegenErrorView,
> {
    match sg_toplevel(st, ss) {
        Ok((st2, code)) => Ok(spec_header(st2.strings) + render_lines(code)),
        Err(e) => Err(e),
    }
}

/// The slot assigned to a name in this frame, if any; mirrors
/// `lookup_offset`.
fn frame_lookup(fr: &FrameCtx, name: &String) -> (o: Option<u64>)
    ensures
        o == lookup_offset(fr@.offsets, name@),
{
    let ghost offs = fr@.offsets;
    let n = fr.offsets.len();
    proof {
        assert(offs.skip(0) =~= offs);
    }
    let mut i: usize = 0;
    while i < n
        invariant
            n == fr.offsets@.len(),
            offs == fr@.offsets,
            i <= n,
            lookup_offset(offs, name@) == lookup_offset(offs.skip(i as int), name@),
        decreases n - i,
    {
        proof {
            assert(offs.skip(i as int)[0] == offs[i as int]);
            assert(offs.skip(i as int).drop_first() =~= offs.skip(i as int + 1));
        }
        if fr.offsets[i].0.eq(name) {
            return Some(fr.offsets[i].1);
        }
        i = i + 1;
    }
    proof {
        assert(offs.skip(n as int) =~= Seq::<(Seq<char>, u64)>::empty());
    }
    None
}

/// Whether this frame last classified a name as string-typed; mirrors
/// `lookup_svar`.
fn svar_lookup(fr: &FrameCtx, name: &String) -> (b: bool)
    ensures
        b == lookup_svar(fr@.svars, name@),
{
    let ghost sv = fr@.svars;
    let n = fr.svars.len();
    proof {
        assert(sv.take(n as int) =~= sv);
    }
    let mut i: usize = n;
    while i > 0
        invariant
            n == fr.svars@.len(),
            sv == fr@.svars,
            i <= n,
            lookup_svar(sv, name@) == lookup_svar(sv.take(i as int), name@),
        decreases i,
    {
        proof {
            assert(sv.take(i as int).last() == sv[i as int - 1]);
            assert(sv.take(i as int).drop_last() =~= sv.take(i as int - 1));
        }
        if fr.svars[i - 1].0.eq(name) {
            return fr.svars[i - 1].1;
        }
        i = i - 1;
    }
    proof {
        assert(sv.take(0) =~= Seq::<(Seq<char>, bool)>::empty());
    }
    false
}

/// Whether this expression is statically known to produce a string
/// address; mirrors `is_stringy_expr`.
fn expr_stringy(e: &Expression) -> (b: bool)
    ensures
        b == is_stringy_expr(e@),
{
    match e {
        Expression::StringLiteral(_) => true,
        Expression::Fetch { .. } => true,
        _ => false,
    }
}

/// Resolves a name to its stack slot, allocating the next free
/// 8-byte-aligned offset on first use; mirrors `sg_alloc`.
fn alloc_slot(fr: &mut FrameCtx, name: &String) -> (r: Result<u64, CodegenError>)
    ensures
        match (r, sg_alloc(old(fr)@, name@)) {
            (Ok(off), Ok((fr2, offv))) => off == offv && final(fr)@ == fr2,
            (Err(e), Err(ev)) => e@ == ev && *final(fr) == *old(fr),
            _ => false,
        },
{
    match frame_lookup(fr, name) {
        Some(off) => Ok(off),
        None => {
            if fr.next_offset > MAX_FRAME {
                Err(CodegenError::FrameTooLarge)
            } else {
                let off = fr.next_offset;
                fr.offsets.push((name.clone(), off));
                fr.next_offset = off + 8;
                proof {
                    assert(fr@.offsets =~= old(fr)@.offsets.push((name@, off)));
                }
                Ok(off)
            }
        },
    }
}

/// Appends the combining instructions of a binary operation; mirrors
/// `sg_op_code`.
fn push_op_code(out: &mut Vec<Instr>, op: BinaryOperator)
    ensures
        instrs_view(final(out)@) == instrs_view(old(out)@) + sg_op_code(op),
{
    let ghost out0 = old(out)@;
    match op {
        BinaryOperator::Add => {
            out.push(Instr::AddRaxRcx);
        },
        BinaryOperator::Sub => {
            out.push(Instr::SubRcxRax);
            out.push(Instr::MovRaxRcx);
        },
        BinaryOperator::Mul => {
            out.push(Instr::ImulRaxRcx);
        },
        BinaryOperator::Div => {
            out.push(Instr::MovRbxRax);
            out.push(Instr::MovRaxRcx);
            out.push(Instr::ZeroRdx);
            out.push(Instr::IdivRbx);
        },
        BinaryOperator::Eq => {
            out.push(Instr::CmpRcxRax);
            out.push(Instr::SetCmp(CmpKind::Eq));
            out.push(Instr::MovzxRaxAl);
        },
        BinaryOperator::NEq => {
            out.push(Instr::CmpRcxRax);
            out.push(Instr::SetCmp(CmpKind::Ne));
            out.push(Instr::MovzxRaxAl);
        },
        BinaryOperator::Lt => {
            out.push(Instr::CmpRcxRax);
            out.push(Instr::SetCmp(CmpKind::Lt));
            out.push(Instr::MovzxRaxAl);
        },
        BinaryOperator::LtEq => {
            out.push(Instr::CmpRcxRax);
            out.push(Instr::SetCmp(CmpKind::Le));
            out.push(Instr::MovzxRaxAl);
        },
        BinaryOperator::Gt => {
            out.push(Instr::CmpRcxRax);
            out.push(Instr::SetCmp(CmpKind::Gt));
            out.push(Instr::MovzxRaxAl);
        },
    }
    proof {
        assert(instrs_view(out@) =~= instrs_view(out0) + sg_op_code(op));
    }
}

/// Appends the pops that move pushed arguments into the register
/// sequence; mirrors `sg_pop_args`.
fn push_pop_args(out: &mut Vec<Instr>, n: usize)
    requires
        n <= 6,
    ensures
        instrs_view(final(out)@) == instrs_view(old(out)@) + sg_pop_args(n as int),
{
    let ghost out0 = old(out)@;
    let mut k = n;
    while k > 0
        invariant
            k <= n <= 6,
            instrs_view(out@) + sg_pop_args(k as int) == instrs_view(out0) + sg_pop_args(n as int),
        decreases k,
    {
        let ghost before = out@;
        out.push(Instr::PopArg((k - 1) as u64));
        proof {
            lemma_instrs_view_push(before, Instr::PopArg((k - 1) as u64));
            assert(instrs_view(before).push(InstrView::PopArg((k - 1) as u64)) + sg_pop_args(
                k as int - 1,
            ) =~= instrs_view(before) + sg_pop_args(k as int));
        }
        k = k - 1;
    }
    proof {
        assert(instrs_view(out@) + sg_pop_args(0) =~= instrs_view(out@));
    }
}

impl Compiler {
    /// A generator with an empty string pool and the label counter at
    /// zero.
    pub fn new() -> (c: Compiler)
        ensures
            c@.strings == Seq::<Seq<char>>::empty(),
            c@.labels == 0,
    {
        let c = Compiler { strings: Vec::new(), label_count: 0 };
        proof {
            assert(c@.strings =~= Seq::<Seq<char>>::empty());
        }
        c
    }

    /// Draws the next label number, with its globally unique value;
    /// mirrors `sg_new_label`.
    fn new_label(&mut self) -> (r: Result<u64, CodegenError>)
        ensures
            match (r, sg_new_label(old(self)@)) {
                (Ok(n), Ok((st2, nv))) => n == nv && final(self)@ == st2,
                (Err(e), Err(ev)) => e@ == ev && *final(self) == *old(self),
                _ => false,
            },
    {
        if self.label_count == u64::MAX {
            Err(CodegenError::TooManyLabels)
        } else {
            let n = self.label_count;
            self.label_count = n + 1;
            Ok(n)
        }
    }

    /// Registers a string literal in the pool, reusing the entry of an
    /// identical text; returns the entry's index; mirrors
    /// `sg_register_string`.
    fn register_string_literal(&mut self, text: &String) -> (idx: usize)
        ensures
            ({
                let (st2, iv) = sg_register_string(old(self)@, text@);
                final(self)@ == st2 && idx as int == iv
            }),
    {
        let ghost pool = self@.strings;
        let n = self.strings.len();
        let mut i: usize = 0;
        while i < n
            invariant
                n == self.strings@.len(),
                pool == self@.strings,
                self == old(self),
                i <= n,
                forall|k: int| 0 <= k < i ==> pool[k] != text@,
            decreases n - i,
        {
            if self.strings[i].eq(text) {
                proof {
                    lemma_pool_find(pool, text@);
                    assert(pool[i as int] == text@);
                    let pf = pool_find(pool, text@);
                    if pf < 0 {
                        assert(pool[i as int] != text@);
                    }
                    if pf < i {
                        assert(pool[pf] != text@);
                    }
                    if pf > i {
                        assert(pool[i as int] != text@);
                    }
                    assert(pf == i as int);
                }
                return i;
            }
            i = i + 1;
        }
        proof {
            lemma_pool_find(pool, text@);
        }
        self.strings.push(text.clone());
        proof {
            assert(self@.strings =~= pool.push(text@));
        }
        n
    }

    /// Appends the instructions that leave `e`'s value in the primary
    /// result location; mirrors `sg_expr`.
    #[verifier::rlimit(100)]
    #[verifier::spinoff_prover]
    fn compile_expression(&mut self, fr: &FrameCtx, e: &Expression, out: &mut Vec<Instr>) -> (r:
        Result<(), CodegenError>)
        ensures
            match (r, sg_expr(old(self)@, fr@, e@)) {
                (Ok(()), Ok((st, code))) => final(self)@ == st && instrs_view(final(out)@)
                    == instrs_view(old(out)@) + code,
                (Err(er), Err(ev)) => er@ == ev,
                _ => false,
            },
        decreases e, 1int,
    {
        let ghost st0 = self@;
        let ghost out0 = out@;
        match e {
            Expression::Integer(n) => {
                out.push(Instr::MovRaxImm(*n));
                proof {
                    lemma_instrs_view_push(out0, Instr::MovRaxImm(*n));
                    assert(instrs_view(out@) =~= instrs_view(out0) + seq![
                        InstrView::MovRaxImm(*n),
                    ]);
                }
                Ok(())
            },
            Expression::StringLiteral(t) => {
                let idx = self.register_string_literal(t);
                out.push(Instr::LeaRaxStr(idx));
                proof {
                    lemma_instrs_view_push(out0, Instr::LeaRaxStr(idx));
                    assert(instrs_view(out@) =~= instrs_view(out0) + seq![
                        InstrView::LeaRaxStr(idx),
                    ]);
                }
                Ok(())
            },
            Expression::Variable(name) => {
                match frame_lookup(fr, name) {
                    Some(off) => {
                        out.push(Instr::LoadVar(off));
                        proof {
                            lemma_instrs_view_push(out0, Instr::LoadVar(off));
                            assert(instrs_view(out@) =~= instrs_view(out0) + seq![
                                InstrView::LoadVar(off),
                            ]);
                        }
                        Ok(())
                    },
                    None => Err(CodegenError::UndefinedVariable(name.clone())),
                }
            },
            Expression::FunctionArg(name) => {
                match frame_lookup(fr, name) {
                    Some(off) => {
                        out.push(Instr::LoadVar(off));
                        proof {
                            lemma_instrs_view_push(out0, Instr::LoadVar(off));
                            assert(instrs_view(out@) =~= instrs_view(out0) + seq![
                                InstrView::LoadVar(off),
                            ]);
                        }
                        Ok(())
                    },
                    None => Err(CodegenError::UndefinedVariable(name.clone())),
                }
            },
            Expression::BinaryOp { left, op, right } => {
                match self.compile_expression(fr, &**left, out) {
                    Err(e1) => Err(e1),
                    Ok(()) => {
                        let ghost (st1, c1) = sg_expr(st0, fr@, expr_view(**left))->Ok_0;
                        let ghost before1 = out@;
                        out.push(Instr::PushRax);
                        proof {
                            lemma_instrs_view_push(before1, Instr::PushRax);
                            assert(instrs_view(out@) =~= instrs_view(out0) + (c1 + seq![
                                InstrView::PushRax,
                            ]));
                        }
                        match self.compile_expression(fr, &**right, out) {
                            Err(e2) => Err(e2),
                            Ok(()) => {
                                let ghost (st2, c2) = sg_expr(st1, fr@, expr_view(**right))->Ok_0;
                                let ghost before2 = out@;
                                out.push(Instr::PopRcx);
                                proof {
                                    lemma_instrs_view_push(before2, Instr::PopRcx);
                                }
                                push_op_code(out, *op);
                                proof {
                                    assert(instrs_view(out@) =~= instrs_view(out0) + (c1 + seq![
                                        InstrView::PushRax,
                                    ] + c2 + seq![InstrView::PopRcx] + sg_op_code(*op)));
                                }
                                Ok(())
                            },
                        }
                    },
                }
            },
            Expression::FunctionCall { name, args } => {
                proof {
                    lemma_exprs_view(args@);
                }
                if args.len() > 6 {
                    Err(CodegenError::TooManyArguments)
                } else {
                    match self.compile_arg_list(fr, args, out) {
                        Err(e1) => Err(e1),
                        Ok(()) => {
                            let ghost (st1, c1) = sg_arg_list(
                                st0,
                                fr@,
                                exprs_view(args@),
                            )->Ok_0;
                            push_pop_args(out, args.len());
                            let ghost before1 = out@;
                            out.push(Instr::ZeroRax);
                            proof {
                                lemma_instrs_view_push(before1, Instr::ZeroRax);
                            }
                            let ghost before2 = out@;
                            let cf = Instr::CallFn(name.clone());
                            proof {
                                lemma_instrs_view_push(before2, cf);
                            }
                            out.push(cf);
                            proof {
                                assert(instrs_view(out@) =~= instrs_view(out0) + (c1 + sg_pop_args(
                                    args@.len() as int,
                                ) + seq![InstrView::ZeroRax, InstrView::CallFn(name@)]));
                            }
                            Ok(())
                        },
                    }
                }
            },
            Expression::Fetch { method, url, body } => {
                match self.compile_expression(fr, &**method, out) {
                    Err(e1) => Err(e1),
                    Ok(()) => {
                        let ghost (st1, cm) = sg_expr(st0, fr@, expr_view(**method))->Ok_0;
                        let ghost before1 = out@;
                        out.push(Instr::PushRax);
                        proof {
                            lemma_instrs_view_push(before1, Instr::PushRax);
                            assert(instrs_view(out@) =~= instrs_view(out0) + (cm + seq![
                                InstrView::PushRax,
                            ]));
                        }
                        match self.compile_expression(fr, &**url, out) {
                            Err(e2) => Err(e2),
                            Ok(()) => {
                                let ghost (st2, cu) = sg_expr(st1, fr@, expr_view(**url))->Ok_0;
                                let ghost before2 = out@;
                                out.push(Instr::PushRax);
                                proof {
                                    lemma_instrs_view_push(before2, Instr::PushRax);
                                    assert(instrs_view(out@) =~= instrs_view(out0) + (cm + seq![
                                        InstrView::PushRax,
                                    ] + cu + seq![InstrView::PushRax]));
                                }
                                let ghost mid = out@;
                                let body_r: Result<(), CodegenError> = match body {
                                    Some(b) => self.compile_expression(fr, &**b, out),
                                    None => {
                                        out.push(Instr::ZeroRax);
                                        proof {
                                            lemma_instrs_view_push(mid, Instr::ZeroRax);
                                        }
                                        Ok(())
                                    },
                                };
                                match body_r {
                                    Err(e3) => Err(e3),
                                    Ok(()) => {
                                        let ghost body_s = match e@ {
                                            ExpressionView::Fetch { body: bv, .. } => match bv {
                                                Some(b2) => sg_expr(st2, fr@, *b2),
                                                None => Ok((st2, seq![InstrView::ZeroRax])),
                                            },
                                            _ => Ok((st2, seq![InstrView::ZeroRax])),
                                        };
                                        let ghost (st3, cb) = body_s->Ok_0;
                                        proof {
                                            assert(instrs_view(out@) =~= instrs_view(mid) + cb);
                                        }
                                        let ghost b0 = out@;
                                        out.push(Instr::PushRax);
                                        proof {
                                            lemma_instrs_view_push(b0, Instr::PushRax);
                                        }
                                        let ghost b1 = out@;
                                        out.push(Instr::PopArg(2));
                                        proof {
                                            lemma_instrs_view_push(b1, Instr::PopArg(2));
                                        }
                                        let ghost b2 = out@;
                                        out.push(Instr::PopArg(1));
                                        proof {
                                            lemma_instrs_view_push(b2, Instr::PopArg(1));
                                        }
                                        let ghost b3 = out@;
                                        out.push(Instr::PopArg(0));
                                        proof {
                                            lemma_instrs_view_push(b3, Instr::PopArg(0));
                                        }
                                        let ghost b4 = out@;
                                        out.push(Instr::ZeroRax);
                                        proof {
                                            lemma_instrs_view_push(b4, Instr::ZeroRax);
                                        }
                                        let ghost b5 = out@;
                                        out.push(Instr::CallFetch);
                                        proof {
                                            lemma_instrs_view_push(b5, Instr::CallFetch);
                                            assert(instrs_view(out@) =~= instrs_view(out0) + (cm
                                                + seq![InstrView::PushRax] + cu + seq![
                                                InstrView::PushRax,
                                            ] + cb + seq![
                                                InstrView::PushRax,
                                                InstrView::PopArg(2),
                                                InstrView::PopArg(1),
                                                InstrView::PopArg(0),
                                                InstrView::ZeroRax,
                                                InstrView::CallFetch,
                                            ]));
                                        }
                                        Ok(())
                                    },
                                }
                            },
                        }
                    },
                }
            },
        }
    }

    /// Appends the evaluation-and-push of each argument, left to right;
    /// mirrors `sg_arg_list`.
    fn compile_arg_list(
        &mut self,
        fr: &FrameCtx,
        args: &Vec<Expression>,
        out: &mut Vec<Instr>,
    ) -> (r: Result<(), CodegenError>)
        ensures
            match (r, sg_arg_list(old(self)@, fr@, exprs_view(args@))) {
                (Ok(()), Ok((st, code))) => final(self)@ == st && instrs_view(final(out)@)
                    == instrs_view(old(out)@) + code,
                (Err(er), Err(ev)) => er@ == ev,
                _ => false,
            },
        decreases args@, 0int,
    {
        let ghost st0 = self@;
        let ghost out0 = out@;
        let ghost frv = fr@;
        let ghost argsv = exprs_view(args@);
        proof {
            lemma_exprs_view(args@);
        }
        let n = args.len();
        let mut i: usize = 0;
        let ghost mut emitted: Seq<InstrView> = Seq::empty();
        proof {
            assert(instrs_view(out@) =~= instrs_view(out0) + emitted);
            assert(argsv.skip(0) =~= argsv);
            if let Ok((stx, crx)) = sg_arg_list(self@, frv, argsv) {
                assert(emitted + crx =~= crx);
            }
        }
        while i < n
            invariant
                old(self)@ == st0,
                old(out)@ == out0,
                frv == fr@,
                argsv == exprs_view(args@),
                n == args@.len(),
                argsv.len() == n,
                forall|k: int| 0 <= k < n ==> argsv[k] == expr_view(#[trigger] args@[k]),
                i <= n,
                instrs_view(out@) == instrs_view(out0) + emitted,
                sg_arg_list(st0, frv, argsv) == (match sg_arg_list(
                    self@,
                    frv,
                    argsv.skip(i as int),
                ) {
                    Ok((st2, cr)) => Ok::<(GenState, Seq<InstrView>), CodegenErrorView>(
                        (st2, emitted + cr),
                    ),
                    Err(e) => Err(e),
                }),
            decreases n - i,
        {
            let ghost rem = argsv.skip(i as int);
            let ghost st_pre = self@;
            let ghost em_pre = emitted;
            proof {
                assert(rem[0] == argsv[i as int]);
                assert(rem.drop_first() =~= argsv.skip(i as int + 1));
            }
            match self.compile_expression(fr, &args[i], out) {
                Err(e) => {
                    return Err(e);
                },
                Ok(()) => {
                    let ghost before = out@;
                    out.push(Instr::PushRax);
                    proof {
                        lemma_instrs_view_push(before, Instr::PushRax);
                        let (st1, c1) = sg_expr(st_pre, frv, rem[0])->Ok_0;
                        emitted = em_pre + c1 + seq![InstrView::PushRax];
                        assert(instrs_view(out@) =~= instrs_view(out0) + emitted);
                        if let Ok((st2, cr)) = sg_arg_list(self@, frv, argsv.skip(i as int + 1)) {
                            assert(em_pre + (c1 + seq![InstrView::PushRax] + cr) =~= emitted + cr);
                        }
                    }
                    i = i + 1;
                },
            }
        }
        proof {
            assert(argsv.skip(n as int) =~= Seq::<ExpressionView>::empty());
            assert(emitted + Seq::<InstrView>::empty() =~= emitted);
        }
        Ok(())
    }
}

/// A successful compilation keeps the frame's next offset within the
/// allocator's bounds.
pub proof fn lemma_stmt_frame(st: GenState, fr: FrameView, s: StatementView)
    requires
        8 <= fr.next <= MAX_FRAME + 8,
    ensures
        sg_stmt(st, fr, s) is Ok ==> {
            let (st2, fr2, code) = sg_stmt(st, fr, s)->Ok_0;
            8 <= fr2.next <= MAX_FRAME + 8
        },
    decreases s, 1int,
{
    match s {
        StatementView::If { condition, then_body, else_body } => {
            if sg_stmt(st, fr, s) is Ok {
                let (st1, ccode) = sg_expr(st, fr, condition)->Ok_0;
                let (st2, end_n) = sg_new_label(st1)->Ok_0;
                match else_body {
                    Some(els) => {
                        let (st3, else_n) = sg_new_label(st2)->Ok_0;
                        lemma_stmts_frame(st3, fr, then_body);
                        let (st4, fr4, tcode) = sg_stmts(st3, fr, then_body)->Ok_0;
                        lemma_stmts_frame(st4, fr4, els);
                    },
                    None => {
                        lemma_stmts_frame(st2, fr, then_body);
                    },
                }
            }
        },
        StatementView::While { condition, body } => {
            if sg_stmt(st, fr, s) is Ok {
                let (st1, start_n) = sg_new_label(st)->Ok_0;
                let (st2, end_n) = sg_new_label(st1)->Ok_0;
                let (st3, ccode) = sg_expr(st2, fr, condition)->Ok_0;
                lemma_stmts_frame(st3, fr, body);
            }
        },
        _ => {},
    }
}

/// A successful statement sequence keeps the frame's next offset within
/// the allocator's bounds.
pub proof fn lemma_stmts_frame(st: GenState, fr: FrameView, ss: Seq<StatementView>)
    requires
        8 <= fr.next <= MAX_FRAME + 8,
    ensures
        sg_stmts(st, fr, ss) is Ok ==> {
            let (st2, fr2, code) = sg_stmts(st, fr, ss)->Ok_0;
            8 <= fr2.next <= MAX_FRAME + 8
        },
    decreases ss, 0int,
{
    if ss.len() > 0 && sg_stmts(st, fr, ss) is Ok {
        lemma_stmt_frame(st, fr, ss[0]);
        let (st1, fr1, c1) = sg_stmt(st, fr, ss[0])->Ok_0;
        lemma_stmts_frame(st1, fr1, ss.drop_first());
    }
}

/// A successful parameter spill keeps the frame's next offset within the
/// allocator's bounds.
pub proof fn lemma_params_frame(fr: FrameView, params: Seq<ExpressionView>, idx: int)
    requires
        8 <= fr.next <= MAX_FRAME + 8,
    ensures
        sg_params(fr, params, idx) is Ok ==> {
            let (fr2, code) = sg_params(fr, params, idx)->Ok_0;
            8 <= fr2.next <= MAX_FRAME + 8
        },
    decreases params,
{
    if params.len() > 0 && sg_params(fr, params, idx) is Ok {
        match params[0] {
            ExpressionView::FunctionArg(name) => {
                let (fr1, off) = sg_alloc(fr, name)->Ok_0;
                lemma_params_frame(fr1, params.drop_first(), idx + 1);
            },
            _ => {},
        }
    }
}

/// Whether this name is the entry function's.
fn name_is_main(name: &String) -> (b: bool)
    ensures
        b == (name@ == main_name()),
{
    let m = String::from_str("main");
    *name == m
}

/// Whether printing this expression selects the string format; mirrors
/// `print_is_string`.
fn print_format_is_string(fr: &FrameCtx, e: &Expression) -> (b: bool)
    ensures
        b == print_is_string(fr@, e@),
{
    if expr_stringy(e) {
        true
    } else {
        match e {
            Expression::Variable(name) => svar_lookup(fr, name),
            Expression::FunctionArg(name) => svar_lookup(fr, name),
            _ => false,
        }
    }
}

/// Appends the spills of the incoming argument registers into the
/// parameters' slots; mirrors `sg_params`.
fn compile_params(fr: &mut FrameCtx, params: &Vec<Expression>, out: &mut Vec<Instr>) -> (r: Result<
    (),
    CodegenError,
>)
    ensures
        match (r, sg_params(old(fr)@, exprs_view(params@), 0)) {
            (Ok(()), Ok((fr2, code))) => final(fr)@ == fr2 && instrs_view(final(out)@)
                == instrs_view(old(out)@) + code,
            (Err(er), Err(ev)) => er@ == ev,
            _ => false,
        },
{
    let ghost fr0 = fr@;
    let ghost out0 = out@;
    let ghost pv = exprs_view(params@);
    proof {
        lemma_exprs_view(params@);
    }
    let n = params.len();
    let mut i: usize = 0;
    let ghost mut emitted: Seq<InstrView> = Seq::empty();
    proof {
        assert(instrs_view(out@) =~= instrs_view(out0) + emitted);
        assert(pv.skip(0) =~= pv);
        if let Ok((f2, c2)) = sg_params(fr@, pv, 0) {
            assert(emitted + c2 =~= c2);
        }
    }
    while i < n
        invariant
            old(fr)@ == fr0,
            old(out)@ == out0,
            pv == exprs_view(params@),
            n == params@.len(),
            pv.len() == n,
            forall|k: int| 0 <= k < n ==> pv[k] == expr_view(#[trigger] params@[k]),
            i <= n,
            instrs_view(out@) == instrs_view(out0) + emitted,
            sg_params(fr0, pv, 0) == (match sg_params(fr@, pv.skip(i as int), i as int) {
                Ok((f2, c2)) => Ok::<(FrameView, Seq<InstrView>), CodegenErrorView>(
                    (f2, emitted + c2),
                ),
                Err(e) => Err(e),
            }),
        decreases n - i,
    {
        let ghost rem = pv.skip(i as int);
        let ghost fr_pre = fr@;
        let ghost em_pre = emitted;
        proof {
            assert(rem[0] == pv[i as int]);
            assert(rem.drop_first() =~= pv.skip(i as int + 1));
        }
        match &params[i] {
            Expression::FunctionArg(pname) => {
                match alloc_slot(fr, pname) {
                    Err(e) => {
                        return Err(e);
                    },
                    Ok(off) => {
                        let ghost before = out@;
                        out.push(Instr::SpillArg { idx: i as u64, off });
                        proof {
                            lemma_instrs_view_push(
                                before,
                                Instr::SpillArg { idx: i as u64, off },
                            );
                            emitted = em_pre + seq![
                                InstrView::SpillArg { idx: i as u64, off },
                            ];
                            assert(instrs_view(out@) =~= instrs_view(out0) + emitted);
                            if let Ok((f2, c2)) = sg_params(
                                fr@,
                                pv.skip(i as int + 1),
                                i as int + 1,
                            ) {
                                assert(em_pre + (seq![
                                    InstrView::SpillArg { idx: i as u64, off },
                                ] + c2) =~= emitted + c2);
                            }
                        }
                        i = i + 1;
                    },
                }
            },
            _ => {
                return Err(CodegenError::UnrecognizedShape);
            },
        }
    }
    proof {
        assert(pv.skip(n as int) =~= Seq::<ExpressionView>::empty());
        assert(emitted + Seq::<InstrView>::empty() =~= emitted);
    }
    Ok(())
}

impl Compiler {
    /// Appends the assignment's instructions: resolve or allocate the
    /// slot, classify the name, evaluate, store; mirrors the assignment
    /// case of `sg_stmt`.
    fn compile_assignment(
        &mut self,
        fr: &mut FrameCtx,
        name: &String,
        value: &Expression,
        out: &mut Vec<Instr>,
    ) -> (r: Result<(), CodegenError>)
        ensures
            match (
                r,
                sg_stmt(
                    old(self)@,
                    old(fr)@,
                    StatementView::Assign { name: name@, value: value@ },
                ),
            ) {
                (Ok(()), Ok((st, frv, code))) => final(self)@ == st && final(fr)@ == frv
                    && instrs_view(final(out)@) == instrs_view(old(out)@) + code,
                (Err(er), Err(ev)) => er@ == ev,
                _ => false,
            },
    {
        let ghost st0 = self@;
        let ghost out0 = out@;
        match alloc_slot(fr, name) {
            Err(e) => Err(e),
            Ok(off) => {
                match self.compile_expression(&*fr, value, out) {
                    Err(e) => Err(e),
                    Ok(()) => {
                        let stringy = expr_stringy(value);
                        fr.svars.push((name.clone(), stringy));
                        let ghost before = out@;
                        out.push(Instr::StoreVar(off));
                        proof {
                            lemma_instrs_view_push(before, Instr::StoreVar(off));
                            let (fr1, offv) = sg_alloc(old(fr)@, name@)->Ok_0;
                            let (st1, code) = sg_expr(st0, fr1, value@)->Ok_0;
                            assert(fr@.svars =~= fr1.svars.push((name@, is_stringy_expr(value@))));
                            assert(instrs_view(out@) =~= instrs_view(out0) + (code + seq![
                                InstrView::StoreVar(off),
                            ]));
                        }
                        Ok(())
                    },
                }
            },
        }
    }

    /// Appends the print's instructions: evaluate, move into the value
    /// argument, select the format, call the native print routine;
    /// mirrors the print case of `sg_stmt`.
    fn compile_print(&mut self, fr: &FrameCtx, e: &Expression, out: &mut Vec<Instr>) -> (r: Result<
        (),
        CodegenError,
    >)
        ensures
            match (r, sg_stmt(old(self)@, fr@, StatementView::Print(e@))) {
                (Ok(()), Ok((st, frv, code))) => final(self)@ == st && frv == fr@ && instrs_view(
                    final(out)@,
                ) == instrs_view(old(out)@) + code,
                (Err(er), Err(ev)) => er@ == ev,
                _ => false,
            },
    {
        let ghost st0 = self@;
        let ghost out0 = out@;
        let is_str = print_format_is_string(fr, e);
        match self.compile_expression(fr, e, out) {
            Err(er) => Err(er),
            Ok(()) => {
                let ghost (st1, code) = sg_expr(st0, fr@, e@)->Ok_0;
                let ghost b0 = out@;
                out.push(Instr::MovRsiRax);
                proof {
                    lemma_instrs_view_push(b0, Instr::MovRsiRax);
                }
                let ghost b1 = out@;
                if is_str {
                    out.push(Instr::LeaRdiFmtStr);
                    proof {
                        lemma_instrs_view_push(b1, Instr::LeaRdiFmtStr);
                    }
                } else {
                    out.push(Instr::LeaRdiFmtInt);
                    proof {
                        lemma_instrs_view_push(b1, Instr::LeaRdiFmtInt);
                    }
                }
                let ghost b2 = out@;
                out.push(Instr::ZeroRax);
                proof {
                    lemma_instrs_view_push(b2, Instr::ZeroRax);
                }
                let ghost b3 = out@;
                out.push(Instr::CallPrintf);
                proof {
                    lemma_instrs_view_push(b3, Instr::CallPrintf);
                    let fmt = if print_is_string(fr@, e@) {
                        InstrView::LeaRdiFmtStr
                    } else {
                        InstrView::LeaRdiFmtInt
                    };
                    assert(instrs_view(out@) =~= instrs_view(out0) + (code + seq![
                        InstrView::MovRsiRax,
                        fmt,
                        InstrView::ZeroRax,
                        InstrView::CallPrintf,
                    ]));
                }
                Ok(())
            },
        }
    }

    /// Appends the loop's instructions: start label, condition, exit
    /// branch, body, back jump, end label; mirrors the loop case of
    /// `sg_stmt`.
    fn compile_while(
        &mut self,
        fr: &mut FrameCtx,
        cond: &Expression,
        body: &Vec<Statement>,
        out: &mut Vec<Instr>,
    ) -> (r: Result<(), CodegenError>)
        ensures
            match (
                r,
                sg_stmt(
                    old(self)@,
                    old(fr)@,
                    StatementView::While { condition: cond@, body: stmts_view(body@) },
                ),
            ) {
                (Ok(()), Ok((st, frv, code))) => final(self)@ == st && final(fr)@ == frv
                    && instrs_view(final(out)@) == instrs_view(old(out)@) + code,
                (Err(er), Err(ev)) => er@ == ev,
                _ => false,
            },
        decreases body@, 1int,
    {
        let ghost st0 = self@;
        let ghost out0 = out@;
        let start_n = match self.new_label() {
            Err(e) => {
                return Err(e);
            },
            Ok(n) => n,
        };
        let end_n = match self.new_label() {
            Err(e) => {
                return Err(e);
            },
            Ok(n) => n,
        };
        let start_l = LabelId { cat: LabelCat::WhileStart, n: start_n };
        let end_l = LabelId { cat: LabelCat::WhileEnd, n: end_n };
        let ghost b0 = out@;
        out.push(Instr::LabelDef(start_l));
        proof {
            lemma_instrs_view_push(b0, Instr::LabelDef(start_l));
        }
        match self.compile_expression(&*fr, cond, out) {
            Err(e) => Err(e),
            Ok(()) => {
                let ghost (st3, ccode) = sg_expr(
                    sg_new_label(sg_new_label(st0)->Ok_0.0)->Ok_0.0,
                    fr@,
                    cond@,
                )->Ok_0;
                let ghost b1 = out@;
                out.push(Instr::CmpRaxZero);
                proof {
                    lemma_instrs_view_push(b1, Instr::CmpRaxZero);
                }
                let ghost b2 = out@;
                out.push(Instr::Je(end_l));
                proof {
                    lemma_instrs_view_push(b2, Instr::Je(end_l));
                }
                let ghost fr_b = fr@;
                match self.compile_statements(fr, body, out) {
                    Err(e) => Err(e),
                    Ok(()) => {
                        let ghost (st4, fr4, bcode) = sg_stmts(st3, fr_b, stmts_view(body@))->Ok_0;
                        let ghost b3 = out@;
                        out.push(Instr::Jmp(start_l));
                        proof {
                            lemma_instrs_view_push(b3, Instr::Jmp(start_l));
                        }
                        let ghost b4 = out@;
                        out.push(Instr::LabelDef(end_l));
                        proof {
                            lemma_instrs_view_push(b4, Instr::LabelDef(end_l));
                            assert(instrs_view(out@) =~= instrs_view(out0) + (seq![
                                InstrView::LabelDef(start_l),
                            ] + ccode + seq![InstrView::CmpRaxZero, InstrView::Je(end_l)] + bcode
                                + seq![InstrView::Jmp(start_l), InstrView::LabelDef(end_l)]));
                        }
                        Ok(())
                    },
                }
            },
        }
    }

    /// Appends the conditional's instructions: condition, branch to the
    /// else or end label on zero, bodies, labels; mirrors the
    /// conditional case of `sg_stmt`.
    #[verifier::rlimit(100)]
    #[verifier::spinoff_prover]
    fn compile_if(&mut self, fr: &mut FrameCtx, s: &Statement, out: &mut Vec<Instr>) -> (r: Result<
        (),
        CodegenError,
    >)
        requires
            s is If,
        ensures
            match (r, sg_stmt(old(self)@, old(fr)@, s@)) {
                (Ok(()), Ok((st, frv, code))) => final(self)@ == st && final(fr)@ == frv
                    && instrs_view(final(out)@) == instrs_view(old(out)@) + code,
                (Err(er), Err(ev)) => er@ == ev,
                _ => false,
            },
        decreases s, 0int,
    {
        let ghost st0 = self@;
        let ghost out0 = out@;
        match s {
            Statement::If { condition, then_body, else_body } => {
                proof {
                    lemma_stmts_view(then_body@);
                }
                match self.compile_expression(&*fr, condition, out) {
                    Err(e) => Err(e),
                    Ok(()) => {
                        let ghost (st1, ccode) = sg_expr(st0, fr@, condition@)->Ok_0;
                        let ghost b0 = out@;
                        out.push(Instr::CmpRaxZero);
                        proof {
                            lemma_instrs_view_push(b0, Instr::CmpRaxZero);
                        }
                        let end_n = match self.new_label() {
                            Err(e) => {
                                return Err(e);
                            },
                            Ok(n) => n,
                        };
                        let end_l = LabelId { cat: LabelCat::Endif, n: end_n };
                        match else_body {
                            Some(els) => {
                                let else_n = match self.new_label() {
                                    Err(e) => {
                                        return Err(e);
                                    },
                                    Ok(n) => n,
                                };
                                let else_l = LabelId { cat: LabelCat::Else, n: else_n };
                                let ghost st3 = self@;
                                let ghost b1 = out@;
                                out.push(Instr::Je(else_l));
                                proof {
                                    lemma_instrs_view_push(b1, Instr::Je(else_l));
                                }
                                match self.compile_statements(fr, then_body, out) {
                                    Err(e) => Err(e),
                                    Ok(()) => {
                                        let ghost (st4, fr4, tcode) = sg_stmts(
                                            st3,
                                            old(fr)@,
                                            stmts_view(then_body@),
                                        )->Ok_0;
                                        let ghost b2 = out@;
                                        out.push(Instr::Jmp(end_l));
                                        proof {
                                            lemma_instrs_view_push(b2, Instr::Jmp(end_l));
                                        }
                                        let ghost b3 = out@;
                                        out.push(Instr::LabelDef(else_l));
                                        proof {
                                            lemma_instrs_view_push(b3, Instr::LabelDef(else_l));
                                        }
                                        match self.compile_statements(fr, els, out) {
                                            Err(e) => Err(e),
                                            Ok(()) => {
                                                let ghost (st5, fr5, ecode) = sg_stmts(
                                                    st4,
                                                    fr4,
                                                    stmts_view(els@),
                                                )->Ok_0;
                                                let ghost b4 = out@;
                                                out.push(Instr::LabelDef(end_l));
                                                proof {
                                                    lemma_instrs_view_push(
                                                        b4,
                                                        Instr::LabelDef(end_l),
                                                    );
                                                    assert(instrs_view(out@) =~= instrs_view(out0)
                                                        + (ccode + seq![
                                                        InstrView::CmpRaxZero,
                                                        InstrView::Je(else_l),
                                                    ] + tcode + seq![
                                                        InstrView::Jmp(end_l),
                                                        InstrView::LabelDef(else_l),
                                                    ] + ecode + seq![
                                                        InstrView::LabelDef(end_l),
                                                    ]));
                                                }
                                                Ok(())
                                            },
                                        }
                                    },
                                }
                            },
                            None => {
                                let ghost b1 = out@;
                                out.push(Instr::Je(end_l));
                                proof {
                                    lemma_instrs_view_push(b1, Instr::Je(end_l));
                                }
                                let ghost st2 = self@;
                                match self.compile_statements(fr, then_body, out) {
                                    Err(e) => Err(e),
                                    Ok(()) => {
                                        let ghost (st4, fr4, tcode) = sg_stmts(
                                            st2,
                                            old(fr)@,
                                            stmts_view(then_body@),
                                        )->Ok_0;
                                        let ghost b2 = out@;
                                        out.push(Instr::LabelDef(end_l));
                                        proof {
                                            lemma_instrs_view_push(b2, Instr::LabelDef(end_l));
                                            assert(instrs_view(out@) =~= instrs_view(out0) + (ccode
                                                + seq![
                                                InstrView::CmpRaxZero,
                                                InstrView::Je(end_l),
                                            ] + tcode + seq![InstrView::LabelDef(end_l)]));
                                        }
                                        Ok(())
                                    },
                                }
                            },
                        }
                    },
                }
            },
            _ => {
                proof {
                    assert(false);
                }
                Err(CodegenError::UnrecognizedShape)
            },
        }
    }

    /// Appends one statement's instructions, dispatching on its shape;
    /// mirrors `sg_stmt`.
    #[verifier::rlimit(100)]
    #[verifier::spinoff_prover]
    fn compile_statement(
        &mut self,
        fr: &mut FrameCtx,
        s: &Statement,
        out: &mut Vec<Instr>,
    ) -> (r: Result<(), CodegenError>)
        ensures
            match (r, sg_stmt(old(self)@, old(fr)@, s@)) {
                (Ok(()), Ok((st, frv, code))) => final(self)@ == st && final(fr)@ == frv
                    && instrs_view(final(out)@) == instrs_view(old(out)@) + code,
                (Err(er), Err(ev)) => er@ == ev,
                _ => false,
            },
        decreases s, 1int,
    {
        let ghost st0 = self@;
        let ghost out0 = out@;
        match s {
            Statement::Assign { name, value } => self.compile_assignment(fr, name, value, out),
            Statement::Print(e) => self.compile_print(&*fr, e, out),
            Statement::Send(e) => {
                match self.compile_expression(&*fr, e, out) {
                    Err(er) => Err(er),
                    Ok(()) => {
                        let epi_l = LabelId { cat: LabelCat::Epilogue, n: fr.epilogue };
                        let ghost b0 = out@;
                        out.push(Instr::Jmp(epi_l));
                        proof {
                            lemma_instrs_view_push(b0, Instr::Jmp(epi_l));
                            let (st1, code) = sg_expr(st0, fr@, e@)->Ok_0;
                            assert(instrs_view(out@) =~= instrs_view(out0) + (code + seq![
                                InstrView::Jmp(epi_l),
                            ]));
                        }
                        Ok(())
                    },
                }
            },
            Statement::FunctionCall { name, args } => {
                proof {
                    lemma_exprs_view(args@);
                }
                if args.len() > 6 {
                    Err(CodegenError::TooManyArguments)
                } else {
                    match self.compile_arg_list(&*fr, args, out) {
                        Err(e1) => Err(e1),
                        Ok(()) => {
                            let ghost (st1, c1) = sg_arg_list(st0, fr@, exprs_view(args@))->Ok_0;
                            push_pop_args(out, args.len());
                            let ghost b1 = out@;
                            out.push(Instr::ZeroRax);
                            proof {
                                lemma_instrs_view_push(b1, Instr::ZeroRax);
                            }
                            let ghost b2 = out@;
                            let cf = Instr::CallFn(name.clone());
                            proof {
                                lemma_instrs_view_push(b2, cf);
                            }
                            out.push(cf);
                            proof {
                                assert(instrs_view(out@) =~= instrs_view(out0) + (c1 + sg_pop_args(
                                    args@.len() as int,
                                ) + seq![InstrView::ZeroRax, InstrView::CallFn(name@)]));
                            }
                            Ok(())
                        },
                    }
                }
            },
            Statement::Fetch { method, url, body } => {
                match self.compile_expression(&*fr, method, out) {
                    Err(e1) => Err(e1),
                    Ok(()) => {
                        let ghost (st1, cm) = sg_expr(st0, fr@, method@)->Ok_0;
                        let ghost b0 = out@;
                        out.push(Instr::PushRax);
                        proof {
                            lemma_instrs_view_push(b0, Instr::PushRax);
                        }
                        match self.compile_expression(&*fr, url, out) {
                            Err(e2) => Err(e2),
                            Ok(()) => {
                                let ghost (st2, cu) = sg_expr(st1, fr@, url@)->Ok_0;
                                let ghost b1 = out@;
                                out.push(Instr::PushRax);
                                proof {
                                    lemma_instrs_view_push(b1, Instr::PushRax);
                                }
                                let ghost mid = out@;
                                let body_r: Result<(), CodegenError> = match body {
                                    Some(b) => self.compile_expression(&*fr, b, out),
                                    None => {
                                        out.push(Instr::ZeroRax);
                                        proof {
                                            lemma_instrs_view_push(mid, Instr::ZeroRax);
                                        }
                                        Ok(())
                                    },
                                };
                                match body_r {
                                    Err(e3) => Err(e3),
                                    Ok(()) => {
                                        let ghost body_s = match s@ {
                                            StatementView::Fetch { body: bv, .. } => match bv {
                                                Some(b2) => sg_expr(st2, fr@, b2),
                                                None => Ok((st2, seq![InstrView::ZeroRax])),
                                            },
                                            _ => Ok((st2, seq![InstrView::ZeroRax])),
                                        };
                                        let ghost (st3, cb) = body_s->Ok_0;
                                        proof {
                                            assert(instrs_view(out@) =~= instrs_view(mid) + cb);
                                        }
                                        let ghost b2 = out@;
                                        out.push(Instr::PushRax);
                                        proof {
                                            lemma_instrs_view_push(b2, Instr::PushRax);
                                        }
                                        let ghost b3 = out@;
                                        out.push(Instr::PopArg(2));
                                        proof {
                                            lemma_instrs_view_push(b3, Instr::PopArg(2));
                                        }
                                        let ghost b4 = out@;
                                        out.push(Instr::PopArg(1));
                                        proof {
                                            lemma_instrs_view_push(b4, Instr::PopArg(1));
                                        }
                                        let ghost b5 = out@;
                                        out.push(Instr::PopArg(0));
                                        proof {
                                            lemma_instrs_view_push(b5, Instr::PopArg(0));
                                        }
                                        let ghost b6 = out@;
                                        out.push(Instr::ZeroRax);
                                        proof {
                                            lemma_instrs_view_push(b6, Instr::ZeroRax);
                                        }
                                        let ghost b7 = out@;
                                        out.push(Instr::CallFetch);
                                        proof {
                                            lemma_instrs_view_push(b7, Instr::CallFetch);
                                            assert(instrs_view(out@) =~= instrs_view(out0) + (cm
                                                + seq![InstrView::PushRax] + cu + seq![
                                                InstrView::PushRax,
                                            ] + cb + seq![
                                                InstrView::PushRax,
                                                InstrView::PopArg(2),
                                                InstrView::PopArg(1),
                                                InstrView::PopArg(0),
                                                InstrView::ZeroRax,
                                                InstrView::CallFetch,
                                            ]));
                                        }
                                        Ok(())
                                    },
                                }
                            },
                        }
                    },
                }
            },
            Statement::If { .. } => self.compile_if(fr, s, out),
            Statement::While { condition, body } => self.compile_while(fr, condition, body, out),
            Statement::Function { name, params, body } => {
                match self.compile_function(name, params, body, out) {
                    Err(e) => Err(e),
                    Ok(()) => Ok(()),
                }
            },
        }
    }

    /// Appends a statement sequence's instructions, threading the state
    /// and frame left to right; mirrors `sg_stmts`.
    fn compile_statements(
        &mut self,
        fr: &mut FrameCtx,
        ss: &Vec<Statement>,
        out: &mut Vec<Instr>,
    ) -> (r: Result<(), CodegenError>)
        ensures
            match (r, sg_stmts(old(self)@, old(fr)@, stmts_view(ss@))) {
                (Ok(()), Ok((st, frv, code))) => final(self)@ == st && final(fr)@ == frv
                    && instrs_view(final(out)@) == instrs_view(old(out)@) + code,
                (Err(er), Err(ev)) => er@ == ev,
                _ => false,
            },
        decreases ss@, 0int,
    {
        let ghost st0 = self@;
        let ghost fr0 = fr@;
        let ghost out0 = out@;
        let ghost ssv = stmts_view(ss@);
        proof {
            lemma_stmts_view(ss@);
        }
        let n = ss.len();
        let mut i: usize = 0;
        let ghost mut emitted: Seq<InstrView> = Seq::empty();
        proof {
            assert(instrs_view(out@) =~= instrs_view(out0) + emitted);
            assert(ssv.skip(0) =~= ssv);
            if let Ok((stx, frx, crx)) = sg_stmts(self@, fr@, ssv) {
                assert(emitted + crx =~= crx);
            }
        }
        while i < n
            invariant
                old(self)@ == st0,
                old(fr)@ == fr0,
                old(out)@ == out0,
                ssv == stmts_view(ss@),
                n == ss@.len(),
                ssv.len() == n,
                forall|k: int| 0 <= k < n ==> ssv[k] == stmt_view(#[trigger] ss@[k]),
                i <= n,
                instrs_view(out@) == instrs_view(out0) + emitted,
                sg_stmts(st0, fr0, ssv) == (match sg_stmts(self@, fr@, ssv.skip(i as int)) {
                    Ok((st2, fr2, cr)) => Ok::<
                        (GenState, FrameView, Seq<InstrView>),
                        CodegenErrorView,
                    >((st2, fr2, emitted + cr)),
                    Err(e) => Err(e),
                }),
            decreases n - i,
        {
            let ghost rem = ssv.skip(i as int);
            let ghost st_pre = self@;
            let ghost fr_pre = fr@;
            let ghost em_pre = emitted;
            proof {
                assert(rem[0] == ssv[i as int]);
                assert(rem.drop_first() =~= ssv.skip(i as int + 1));
            }
            match self.compile_statement(fr, &ss[i], out) {
                Err(e) => {
                    return Err(e);
                },
                Ok(()) => {
                    proof {
                        let (st1, fr1, c1) = sg_stmt(st_pre, fr_pre, rem[0])->Ok_0;
                        emitted = em_pre + c1;
                        assert(instrs_view(out@) =~= instrs_view(out0) + emitted);
                        if let Ok((st2, fr2, cr)) = sg_stmts(self@, fr@, ssv.skip(i as int + 1)) {
                            assert(em_pre + (c1 + cr) =~= emitted + cr);
                        }
                    }
                    i = i + 1;
                },
            }
        }
        proof {
            assert(ssv.skip(n as int) =~= Seq::<StatementView>::empty());
            assert(emitted + Seq::<InstrView>::empty() =~= emitted);
        }
        Ok(())
    }

    /// Appends one function definition's instructions, compiled in two
    /// passes: parameter spills and body first into buffers, then the
    /// prologue with the now-known 16-byte-aligned frame size, then the
    /// buffers, then the shared epilogue; mirrors `sg_function`.
    #[verifier::rlimit(100)]
    #[verifier::spinoff_prover]
    fn compile_function(
        &mut self,
        name: &String,
        params: &Vec<Expression>,
        body: &Vec<Statement>,
        out: &mut Vec<Instr>,
    ) -> (r: Result<(), CodegenError>)
        ensures
            match (
                r,
                sg_function(old(self)@, name@, exprs_view(params@), stmts_view(body@)),
            ) {
                (Ok(()), Ok((st, code))) => final(self)@ == st && instrs_view(final(out)@)
                    == instrs_view(old(out)@) + code,
                (Err(er), Err(ev)) => er@ == ev,
                _ => false,
            },
        decreases body@, 1int,
    {
        let ghost st0 = self@;
        let ghost out0 = out@;
        proof {
            lemma_exprs_view(params@);
            lemma_stmts_view(body@);
        }
        let epi = match self.new_label() {
            Err(e) => {
                return Err(e);
            },
            Ok(n) => n,
        };
        if params.len() > 6 {
            return Err(CodegenError::TooManyArguments);
        }
        let mut frame = FrameCtx {
            offsets: Vec::new(),
            next_offset: 8,
            epilogue: epi,
            svars: Vec::new(),
        };
        let ghost fr0 = frame@;
        proof {
            assert(fr0.offsets =~= Seq::<(Seq<char>, u64)>::empty());
            assert(fr0.svars =~= Seq::<(Seq<char>, bool)>::empty());
        }
        let mut spill: Vec<Instr> = Vec::new();
        match compile_params(&mut frame, params, &mut spill) {
            Err(e) => {
                return Err(e);
            },
            Ok(()) => {},
        }
        let ghost (fr1, spillv) = sg_params(fr0, exprs_view(params@), 0)->Ok_0;
        proof {
            assert(instrs_view(spill@) =~= spillv);
            lemma_params_frame(fr0, exprs_view(params@), 0);
        }
        let mut bodybuf: Vec<Instr> = Vec::new();
        let ghost st1 = self@;
        match self.compile_statements(&mut frame, body, &mut bodybuf) {
            Err(e) => {
                return Err(e);
            },
            Ok(()) => {},
        }
        let ghost (st2, fr2, bcode) = sg_stmts(st1, fr1, stmts_view(body@))->Ok_0;
        proof {
            assert(instrs_view(bodybuf@) =~= bcode);
            lemma_stmts_frame(st1, fr1, stmts_view(body@));
        }
        let used = frame.next_offset - 8;
        let size = ((used + 15) / 16) * 16;
        proof {
            assert(size as int == sg_frame_size(fr2.next));
        }
        let epi_l = LabelId { cat: LabelCat::Epilogue, n: epi };
        let is_main = name_is_main(name);
        let ghost head: Seq<InstrView> = if name@ == main_name() {
            Seq::empty()
        } else {
            seq![InstrView::GlobalSym(name@)]
        };
        if !is_main {
            let ghost bh = out@;
            let gs = Instr::GlobalSym(name.clone());
            proof {
                lemma_instrs_view_push(bh, gs);
            }
            out.push(gs);
        }
        proof {
            if name@ == main_name() {
                assert(instrs_view(out@) =~= instrs_view(out0) + head);
            } else {
                assert(instrs_view(out@) =~= instrs_view(out0) + head);
            }
        }
        let ghost b0 = out@;
        let fl = Instr::FuncLabel(name.clone());
        proof {
            lemma_instrs_view_push(b0, fl);
        }
        out.push(fl);
        let ghost b1 = out@;
        out.push(Instr::PushRbp);
        proof {
            lemma_instrs_view_push(b1, Instr::PushRbp);
        }
        let ghost b2 = out@;
        out.push(Instr::MovRbpRsp);
        proof {
            lemma_instrs_view_push(b2, Instr::MovRbpRsp);
        }
        let ghost b3 = out@;
        out.push(Instr::SubRsp(size));
        proof {
            lemma_instrs_view_push(b3, Instr::SubRsp(size));
        }
        let ghost b4 = out@;
        out.append(&mut spill);
        proof {
            lemma_instrs_view_concat(b4, old(out)@);
            assert(instrs_view(out@) =~= instrs_view(b4) + spillv);
        }
        let ghost b5 = out@;
        out.append(&mut bodybuf);
        proof {
            assert(instrs_view(out@) =~= instrs_view(b5) + bcode);
        }
        let ghost b6 = out@;
        out.push(Instr::ZeroRax);
        proof {
            lemma_instrs_view_push(b6, Instr::ZeroRax);
        }
        let ghost b7 = out@;
        out.push(Instr::LabelDef(epi_l));
        proof {
            lemma_instrs_view_push(b7, Instr::LabelDef(epi_l));
        }
        let ghost b8 = out@;
        out.push(Instr::MovRspRbp);
        proof {
            lemma_instrs_view_push(b8, Instr::MovRspRbp);
        }
        let ghost b9 = out@;
        out.push(Instr::PopRbp);
        proof {
            lemma_instrs_view_push(b9, Instr::PopRbp);
        }
        let ghost b10 = out@;
        out.push(Instr::Ret);
        proof {
            lemma_instrs_view_push(b10, Instr::Ret);
            assert(instrs_view(out@) =~= instrs_view(out0) + (head + seq![
                InstrView::FuncLabel(name@),
                InstrView::PushRbp,
                InstrView::MovRbpRsp,
                InstrView::SubRsp(size),
            ] + spillv + bcode + seq![
                InstrView::ZeroRax,
                InstrView::LabelDef(epi_l),
                InstrView::MovRspRbp,
                InstrView::PopRbp,
                InstrView::Ret,
            ]));
        }
        Ok(())
    }

    /// Appends the whole program's instructions: each top-level function
    /// definition in order, other top-level statements skipped; mirrors
    /// `sg_toplevel`.
    fn compile_toplevel(&mut self, ss: &Vec<Statement>, out: &mut Vec<Instr>) -> (r: Result<
        (),
        CodegenError,
    >)
        ensures
            match (r, sg_toplevel(old(self)@, stmts_view(ss@))) {
                (Ok(()), Ok((st, code))) => final(self)@ == st && instrs_view(final(out)@)
                    == instrs_view(old(out)@) + code,
                (Err(er), Err(ev)) => er@ == ev,
                _ => false,
            },
    {
        let ghost st0 = self@;
        let ghost out0 = out@;
        let ghost ssv = stmts_view(ss@);
        proof {
            lemma_stmts_view(ss@);
        }
        let n = ss.len();
        let mut i: usize = 0;
        let ghost mut emitted: Seq<InstrView> = Seq::empty();
        proof {
            assert(instrs_view(out@) =~= instrs_view(out0) + emitted);
            assert(ssv.skip(0) =~= ssv);
            if let Ok((stx, crx)) = sg_toplevel(self@, ssv) {
                assert(emitted + crx =~= crx);
            }
        }
        while i < n
            invariant
                old(self)@ == st0,
                old(out)@ == out0,
                ssv == stmts_view(ss@),
                n == ss@.len(),
                ssv.len() == n,
                forall|k: int| 0 <= k < n ==> ssv[k] == stmt_view(#[trigger] ss@[k]),
                i <= n,
                instrs_view(out@) == instrs_view(out0) + emitted,
                sg_toplevel(st0, ssv) == (match sg_toplevel(self@, ssv.skip(i as int)) {
                    Ok((st2, cr)) => Ok::<(GenState, Seq<InstrView>), CodegenErrorView>(
                        (st2, emitted + cr),
                    ),
                    Err(e) => Err(e),
                }),
            decreases n - i,
        {
            let ghost rem = ssv.skip(i as int);
            let ghost st_pre = self@;
            let ghost em_pre = emitted;
            proof {
                assert(rem[0] == ssv[i as int]);
                assert(rem.drop_first() =~= ssv.skip(i as int + 1));
            }
            match &ss[i] {
                Statement::Function { name, params, body } => {
                    match self.compile_function(name, params, body, out) {
                        Err(e) => {
                            return Err(e);
                        },
                        Ok(()) => {
                            proof {
                                let (st1, c1) = sg_function(
                                    st_pre,
                                    name@,
                                    exprs_view(params@),
                                    stmts_view(body@),
                                )->Ok_0;
                                emitted = em_pre + c1;
                                assert(instrs_view(out@) =~= instrs_view(out0) + emitted);
                                if let Ok((st2, cr)) = sg_toplevel(
                                    self@,
                                    ssv.skip(i as int + 1),
                                ) {
                                    assert(em_pre + (c1 + cr) =~= emitted + cr);
                                }
                            }
                            i = i + 1;
                        },
                    }
                },
                _ => {
                    i = i + 1;
                },
            }
        }
        proof {
            assert(ssv.skip(n as int) =~= Seq::<StatementView>::empty());
            assert(emitted + Seq::<InstrView>::empty() =~= emitted);
        }
        Ok(())
    }

    /// The module header: external declarations, the read-only data
    /// section with the format strings and one entry per pooled literal,
    /// the exported entry point, and the code section marker; mirrors
    /// `spec_header`.
    pub fn emit_data(&self) -> (r: Vec<String>)
        ensures
            lines_view(r@) == spec_header(self@.strings),
    {
        let ghost pool = self@.strings;
        let mut lines: Vec<String> = Vec::new();
        lines.push(String::from_str("extern _printf"));
        lines.push(String::from_str("extern _fetch"));
        lines.push(String::from_str("section .rodata"));
        lines.push(String::from_str("fmt: db \"%ld\", 10, 0"));
        lines.push(String::from_str("fmt_str: db \"%s\", 10, 0"));
        let ghost prefix = lines_view(lines@);
        proof {
            assert(prefix =~= seq![
                "extern _printf"@,
                "extern _fetch"@,
                "section .rodata"@,
                "fmt: db \"%ld\", 10, 0"@,
                "fmt_str: db \"%s\", 10, 0"@,
            ]);
        }
        let n = self.strings.len();
        let mut i: usize = 0;
        let ghost mut emitted: Seq<Seq<char>> = Seq::empty();
        proof {
            assert(lines_view(lines@) =~= prefix + emitted);
            assert(emitted + rodata_lines(pool, 0) =~= rodata_lines(pool, 0));
        }
        while i < n
            invariant
                pool == self@.strings,
                n == self.strings@.len(),
                pool.len() == n,
                i <= n,
                lines_view(lines@) == prefix + emitted,
                rodata_lines(pool, 0) == emitted + rodata_lines(pool, i as int),
            decreases n - i,
        {
            let ghost em_pre = emitted;
            let mut line = String::from_str("str_");
            let d = u64_dec(i as u64);
            line.append(d.as_str());
            line.append(": db \"");
            let esc = escape_text(&self.strings[i]);
            line.append(esc.as_str());
            line.append("\", 0");
            proof {
                assert(pool[i as int] == self.strings@[i as int]@);
                assert(line@ =~= rodata_line(i as int, pool[i as int]));
            }
            let ghost lines_pre = lines@;
            let ghost linev = line@;
            lines.push(line);
            proof {
                lemma_lines_view_push(lines_pre, lines@.last());
                emitted = em_pre + seq![rodata_line(i as int, pool[i as int])];
                assert((prefix + em_pre).push(linev) =~= prefix + emitted);
                assert(lines_view(lines@) =~= prefix + emitted);
                assert(em_pre + (seq![rodata_line(i as int, pool[i as int])] + rodata_lines(
                    pool,
                    i as int + 1,
                )) =~= emitted + rodata_lines(pool, i as int + 1));
            }
            i = i + 1;
        }
        proof {
            assert(rodata_lines(pool, n as int) =~= Seq::<Seq<char>>::empty());
            assert(emitted + Seq::<Seq<char>>::empty() =~= emitted);
        }
        lines.push(String::from_str("global _main"));
        lines.push(String::from_str("section .text"));
        proof {
            assert(lines_view(lines@) =~= spec_header(pool));
        }
        lines
    }

    /// Compiles a statement tree to its instruction sequence alone,
    /// exactly the instructions of `sg_toplevel`; the string pool and
    /// label counter stay in the generator for `emit_data`.
    pub fn compile_instructions(&mut self, ast: &Vec<Statement>) -> (r: Result<
        Vec<Instr>,
        CodegenError,
    >)
        ensures
            match (r, sg_toplevel(old(self)@, stmts_view(ast@))) {
                (Ok(code), Ok((st, codev))) => final(self)@ == st && instrs_view(code@) == codev,
                (Err(er), Err(ev)) => er@ == ev,
                _ => false,
            },
    {
        let mut out: Vec<Instr> = Vec::new();
        match self.compile_toplevel(ast, &mut out) {
            Err(e) => Err(e),
            Ok(()) => {
                proof {
                    if let Ok((st, codev)) = sg_toplevel(old(self)@, stmts_view(ast@)) {
                        assert(instrs_view(out@) =~= codev);
                    }
                }
                Ok(out)
            },
        }
    }

    /// Compiles a statement tree to the final assembly lines: the
    /// header built from the string pool the walk produced, then each
    /// generated instruction's text; exactly `sg_compile`.
    pub fn compile(&mut self, ast: Vec<Statement>) -> (r: Result<Vec<String>, CodegenError>)
        ensures
            match (r, sg_compile(old(self)@, stmts_view(ast@))) {
                (Ok(lines), Ok(lv)) => lines_view(lines@) == lv,
                (Err(er), Err(ev)) => er@ == ev,
                _ => false,
            },
    {
        let ghost st0 = self@;
        let mut code: Vec<Instr> = Vec::new();
        match self.compile_toplevel(&ast, &mut code) {
            Err(e) => Err(e),
            Ok(()) => {
                let ghost (st2, codev) = sg_toplevel(st0, stmts_view(ast@))->Ok_0;
                proof {
                    assert(instrs_view(code@) =~= codev);
                }
                let mut lines = self.emit_data();
                let ghost header = spec_header(self@.strings);
                let n = code.len();
                let mut i: usize = 0;
                let ghost mut rendered: Seq<Seq<char>> = Seq::empty();
                proof {
                    assert(lines_view(lines@) =~= header + rendered);
                    assert(render_lines(codev.subrange(0, 0)) =~= rendered);
                }
                while i < n
                    invariant
                        n == code@.len(),
                        codev == instrs_view(code@),
                        codev.len() == n,
                        i <= n,
                        lines_view(lines@) == header + rendered,
                        rendered == render_lines(codev.subrange(0, i as int)),
                    decreases n - i,
                {
                    let ghost r_pre = rendered;
                    let line = render_instr(&code[i]);
                    proof {
                        assert(codev[i as int] == code@[i as int]@);
                    }
                    let ghost lines_pre = lines@;
                    let ghost linev = line@;
                    lines.push(line);
                    proof {
                        lemma_lines_view_push(lines_pre, lines@.last());
                        rendered = r_pre.push(spec_render(codev[i as int]));
                        assert((header + r_pre).push(linev) =~= header + rendered);
                        assert(lines_view(lines@) =~= header + rendered);
                        assert(render_lines(codev.subrange(0, i as int + 1)) =~= rendered);
                    }
                    i = i + 1;
                }
                proof {
                    assert(codev.subrange(0, n as int) =~= codev);
                    assert(lines_view(lines@) =~= header + render_lines(codev));
                }
                Ok(lines)
            },
        }
    }
}

} // verus!
