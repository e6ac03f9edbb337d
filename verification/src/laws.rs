//! The library's laws, proved over the specification functions that the
//! executable pipeline's contracts pin every result to.
//!
//! Each law speaks about `spec_lex`, `sp_program`, `sg_compile` and the
//! machine semantics; because the executable lexer, parser, code
//! generator and machine are proved to return exactly those functions'
//! results, the laws carry over to every execution.

use vstd::prelude::*;
use vstd::arithmetic::div_mod::{lemma_div_nonincreasing, lemma_div_pos_is_pos};
use crate::tokens::TokenView;
use crate::ast::{BinaryOperator, ExpressionView, StatementView};
use crate::lexer::spec_lex;
use crate::parser::sp_program;
use crate::emit::{InstrView, LabelId, LabelCat, spec_udec, spec_label, cat_prefix, dec_digit};
use crate::compiler::{GenState, FrameView, CodegenErrorView, sg_compile, sg_toplevel, sg_stmt,
    sg_stmts, sg_expr, sg_arg_list, sg_function, sg_register_string, sg_new_label, sg_alloc,
    sg_params, sg_op_code, sg_pop_args, sg_frame_size, main_name, pool_find, lemma_pool_find,
    lookup_svar, print_is_string, is_stringy_expr, rodata_lines};
use crate::machine::{MachineView, run_line, spec_step_basic, spec_tdiv};

verus! {

/// The generator's initial state: an empty string pool and the label
/// counter at zero, as `Compiler::new` establishes.
pub open spec fn init_state() -> GenState {
    GenState { strings: Seq::empty(), labels: 0 }
}

/// The whole pipeline on one source text: tokens, statement tree,
/// assembly lines; `None` when any stage reports an error.
pub open spec fn pipeline_lines(src: Seq<char>) -> Option<Seq<Seq<char>>> {
    match spec_lex(src, 0) {
        Ok(ts) => match sp_program(ts, 0) {
            Ok((ss, _)) => match sg_compile(init_state(), ss) {
                Ok(lines) => Some(lines),
                Err(_) => None,
            },
            Err(_) => None,
        },
        Err(_) => None,
    }
}

/// Determinism of the whole compilation: every stage's outcome is a
/// mathematical function of its input alone, so compiling twice from
/// identical source — or, a fortiori, from identical token input —
/// yields byte-identical assembly lines.  The executable pipeline's
/// contracts pin each stage's result to these functions, so this law
/// holds of every pair of runs.
pub proof fn lemma_pipeline_deterministic(src: Seq<char>, l1: Seq<Seq<char>>, l2: Seq<Seq<char>>)
    requires
        pipeline_lines(src) == Some(l1),
        pipeline_lines(src) == Some(l2),
    ensures
        l1 == l2,
{
}

/// Determinism from token input: one token sequence, one statement
/// tree, one line sequence.
pub proof fn lemma_compile_deterministic(
    ts: Seq<TokenView>,
    l1: Seq<Seq<char>>,
    l2: Seq<Seq<char>>,
)
    requires
        match sp_program(ts, 0) {
            Ok((ss, _)) => sg_compile(init_state(), ss) == Ok::<Seq<Seq<char>>, CodegenErrorView>(
                l1,
            ) && sg_compile(init_state(), ss) == Ok::<Seq<Seq<char>>, CodegenErrorView>(l2),
            Err(_) => false,
        },
    ensures
        l1 == l2,
{
}

/// No two entries of a string pool hold the same text.
pub open spec fn pool_distinct(pool: Seq<Seq<char>>) -> bool {
    forall|i: int, j: int| 0 <= i < j < pool.len() ==> pool[i] != pool[j]
}

/// The second pool preserves the first: same entries at the same
/// indices, possibly more after them.
pub open spec fn pool_extends(p1: Seq<Seq<char>>, p2: Seq<Seq<char>>) -> bool {
    p1.len() <= p2.len() && forall|i: int| 0 <= i < p1.len() ==> p2[i] == p1[i]
}

/// Registering a text yields an entry holding that text, extends the
/// pool, and keeps its entries distinct.
pub proof fn lemma_register_string(st: GenState, t: Seq<char>)
    ensures
        ({
            let (st2, idx) = sg_register_string(st, t);
            &&& 0 <= idx < st2.strings.len()
            &&& st2.strings[idx] == t
            &&& pool_extends(st.strings, st2.strings)
            &&& st2.labels == st.labels
            &&& (pool_distinct(st.strings) ==> pool_distinct(st2.strings))
        }),
{
    lemma_pool_find(st.strings, t);
}

/// After a text is registered once, its pool entry is found again.
pub proof fn lemma_pool_find_push(pool: Seq<Seq<char>>, t: Seq<char>)
    requires
        pool_find(pool, t) < 0,
    ensures
        pool_find(pool.push(t), t) == pool.len(),
    decreases pool.len(),
{
    if pool.len() == 0 {
        assert(pool.push(t)[0] == t);
    } else {
        assert(pool.push(t)[0] == pool[0]);
        assert(pool.push(t).drop_first() =~= pool.drop_first().push(t));
        lemma_pool_find_push(pool.drop_first(), t);
    }
}

/// Two occurrences of the same literal text resolve to the same pool
/// entry, hence the same data-section label: registering a second time
/// returns the same index and leaves the pool unchanged.
pub proof fn lemma_string_literal_dedup(st: GenState, t: Seq<char>)
    ensures
        ({
            let (st1, i1) = sg_register_string(st, t);
            let (st2, i2) = sg_register_string(st1, t);
            i2 == i1 && st2 == st1
        }),
{
    lemma_pool_find(st.strings, t);
    if pool_find(st.strings, t) < 0 {
        lemma_pool_find_push(st.strings, t);
    }
}

/// Two distinct literal texts resolve to distinct pool entries, hence
/// distinct data-section labels.
pub proof fn lemma_distinct_literals(st: GenState, t1: Seq<char>, t2: Seq<char>)
    requires
        t1 != t2,
    ensures
        ({
            let (st1, i1) = sg_register_string(st, t1);
            let (st2, i2) = sg_register_string(st1, t2);
            i1 != i2
        }),
{
    lemma_register_string(st, t1);
    lemma_register_string(sg_register_string(st, t1).0, t2);
}

/// Expression compilation only appends to the string pool, keeps its
/// entries distinct, and leaves the label counter unchanged.
pub proof fn lemma_expr_pool(st: GenState, fr: FrameView, e: ExpressionView)
    ensures
        sg_expr(st, fr, e) is Ok ==> ({
            let (st2, code) = sg_expr(st, fr, e)->Ok_0;
            &&& pool_extends(st.strings, st2.strings)
            &&& (pool_distinct(st.strings) ==> pool_distinct(st2.strings))
            &&& st2.labels == st.labels
        }),
    decreases e, 1int,
{
    match e {
        ExpressionView::StringLiteral(t) => {
            lemma_register_string(st, t);
        },
        ExpressionView::BinaryOp { left, op, right } => {
            lemma_expr_pool(st, fr, *left);
            if sg_expr(st, fr, *left) is Ok {
                let (st1, _) = sg_expr(st, fr, *left)->Ok_0;
                lemma_expr_pool(st1, fr, *right);
            }
        },
        ExpressionView::FunctionCall { name, args } => {
            lemma_arg_list_pool(st, fr, args);
        },
        ExpressionView::Fetch { method, url, body } => {
            lemma_expr_pool(st, fr, *method);
            if sg_expr(st, fr, *method) is Ok {
                let (st1, _) = sg_expr(st, fr, *method)->Ok_0;
                lemma_expr_pool(st1, fr, *url);
                if sg_expr(st1, fr, *url) is Ok {
                    let (st2, _) = sg_expr(st1, fr, *url)->Ok_0;
                    match body {
                        Some(b) => {
                            lemma_expr_pool(st2, fr, *b);
                        },
                        None => {},
                    }
                }
            }
        },
        _ => {},
    }
}

/// Argument-list compilation only appends to the string pool, keeps its
/// entries distinct, and leaves the label counter unchanged.
pub proof fn lemma_arg_list_pool(st: GenState, fr: FrameView, args: Seq<ExpressionView>)
    ensures
        sg_arg_list(st, fr, args) is Ok ==> ({
            let (st2, code) = sg_arg_list(st, fr, args)->Ok_0;
            &&& pool_extends(st.strings, st2.strings)
            &&& (pool_distinct(st.strings) ==> pool_distinct(st2.strings))
            &&& st2.labels == st.labels
        }),
    decreases args, 0int,
{
    if args.len() > 0 {
        lemma_expr_pool(st, fr, args[0]);
        if sg_expr(st, fr, args[0]) is Ok {
            let (st1, _) = sg_expr(st, fr, args[0])->Ok_0;
            lemma_arg_list_pool(st1, fr, args.drop_first());
        }
    }
}

/// Statement compilation only appends to the string pool, keeps its
/// entries distinct, and never decreases the label counter.
pub proof fn lemma_stmt_pool(st: GenState, fr: FrameView, s: StatementView)
    ensures
        sg_stmt(st, fr, s) is Ok ==> ({
            let (st2, fr2, code) = sg_stmt(st, fr, s)->Ok_0;
            &&& pool_extends(st.strings, st2.strings)
            &&& (pool_distinct(st.strings) ==> pool_distinct(st2.strings))
            &&& st2.labels >= st.labels
        }),
    decreases s, 1int,
{
    match s {
        StatementView::Assign { name, value } => {
            if sg_alloc(fr, name) is Ok {
                let (fr1, _) = sg_alloc(fr, name)->Ok_0;
                lemma_expr_pool(st, fr1, value);
            }
        },
        StatementView::Print(e) => {
            lemma_expr_pool(st, fr, e);
        },
        StatementView::Send(e) => {
            lemma_expr_pool(st, fr, e);
        },
        StatementView::FunctionCall { name, args } => {
            lemma_arg_list_pool(st, fr, args);
        },
        StatementView::Fetch { method, url, body } => {
            lemma_expr_pool(st, fr, method);
            if sg_expr(st, fr, method) is Ok {
                let (st1, _) = sg_expr(st, fr, method)->Ok_0;
                lemma_expr_pool(st1, fr, url);
                if sg_expr(st1, fr, url) is Ok {
                    let (st2, _) = sg_expr(st1, fr, url)->Ok_0;
                    match body {
                        Some(b) => {
                            lemma_expr_pool(st2, fr, b);
                        },
                        None => {},
                    }
                }
            }
        },
        StatementView::If { condition, then_body, else_body } => {
            lemma_expr_pool(st, fr, condition);
            if sg_expr(st, fr, condition) is Ok {
                let (st1, _) = sg_expr(st, fr, condition)->Ok_0;
                if sg_new_label(st1) is Ok {
                    let (st2, _) = sg_new_label(st1)->Ok_0;
                    match else_body {
                        Some(els) => {
                            if sg_new_label(st2) is Ok {
                                let (st3, _) = sg_new_label(st2)->Ok_0;
                                lemma_stmts_pool(st3, fr, then_body);
                                if sg_stmts(st3, fr, then_body) is Ok {
                                    let (st4, fr4, _) = sg_stmts(st3, fr, then_body)->Ok_0;
                                    lemma_stmts_pool(st4, fr4, els);
                                }
                            }
                        },
                        None => {
                            lemma_stmts_pool(st2, fr, then_body);
                        },
                    }
                }
            }
        },
        StatementView::While { condition, body } => {
            if sg_new_label(st) is Ok {
                let (st1, _) = sg_new_label(st)->Ok_0;
                if sg_new_label(st1) is Ok {
                    let (st2, _) = sg_new_label(st1)->Ok_0;
                    lemma_expr_pool(st2, fr, condition);
                    if sg_expr(st2, fr, condition) is Ok {
                        let (st3, _) = sg_expr(st2, fr, condition)->Ok_0;
                        lemma_stmts_pool(st3, fr, body);
                    }
                }
            }
        },
        StatementView::Function { name, params, body } => {
            lemma_function_pool(st, name, params, body);
        },
    }
}

/// Statement-sequence compilation only appends to the string pool,
/// keeps its entries distinct, and never decreases the label counter.
pub proof fn lemma_stmts_pool(st: GenState, fr: FrameView, ss: Seq<StatementView>)
    ensures
        sg_stmts(st, fr, ss) is Ok ==> ({
            let (st2, fr2, code) = sg_stmts(st, fr, ss)->Ok_0;
            &&& pool_extends(st.strings, st2.strings)
            &&& (pool_distinct(st.strings) ==> pool_distinct(st2.strings))
            &&& st2.labels >= st.labels
        }),
    decreases ss, 0int,
{
    if ss.len() > 0 {
        lemma_stmt_pool(st, fr, ss[0]);
        if sg_stmt(st, fr, ss[0]) is Ok {
            let (st1, fr1, _) = sg_stmt(st, fr, ss[0])->Ok_0;
            lemma_stmts_pool(st1, fr1, ss.drop_first());
        }
    }
}

/// Function compilation only appends to the string pool, keeps its
/// entries distinct, and never decreases the label counter.
pub proof fn lemma_function_pool(
    st: GenState,
    name: Seq<char>,
    params: Seq<ExpressionView>,
    body: Seq<StatementView>,
)
    ensures
        sg_function(st, name, params, body) is Ok ==> ({
            let (st2, code) = sg_function(st, name, params, body)->Ok_0;
            &&& pool_extends(st.strings, st2.strings)
            &&& (pool_distinct(st.strings) ==> pool_distinct(st2.strings))
            &&& st2.labels >= st.labels
        }),
    decreases body, 1int,
{
    if sg_new_label(st) is Ok {
        let (st1, epi) = sg_new_label(st)->Ok_0;
        if params.len() <= 6 {
            let fr0 = FrameView {
                offsets: Seq::empty(),
                next: 8,
                epilogue: epi,
                svars: Seq::empty(),
            };
            if sg_params(fr0, params, 0) is Ok {
                let (fr1, _) = sg_params(fr0, params, 0)->Ok_0;
                lemma_stmts_pool(st1, fr1, body);
            }
        }
    }
}

/// A whole compilation from a distinct pool keeps the pool distinct: in
/// particular, a compilation from a fresh generator ends with a data
/// section holding exactly one entry per distinct literal text.
pub proof fn lemma_data_section_unique(st: GenState, ss: Seq<StatementView>)
    requires
        pool_distinct(st.strings),
    ensures
        sg_toplevel(st, ss) is Ok ==> pool_distinct(sg_toplevel(st, ss)->Ok_0.0.strings),
    decreases ss,
{
    if ss.len() > 0 {
        match ss[0] {
            StatementView::Function { name, params, body } => {
                lemma_function_pool(st, name, params, body);
                if sg_function(st, name, params, body) is Ok {
                    let (st1, _) = sg_function(st, name, params, body)->Ok_0;
                    lemma_data_section_unique(st1, ss.drop_first());
                }
            },
            _ => {
                lemma_data_section_unique(st, ss.drop_first());
            },
        }
    }
}

/// The data section holds exactly one entry per pool entry: the entry
/// lines of the pool from index `i` on, one line each.
pub proof fn lemma_one_entry_per_literal(pool: Seq<Seq<char>>, i: int)
    requires
        0 <= i <= pool.len(),
    ensures
        rodata_lines(pool, i).len() == pool.len() - i,
    decreases pool.len() - i,
{
    if i < pool.len() {
        lemma_one_entry_per_literal(pool, i + 1);
    }
}

/// An assignment classifies its target by the shape of the assigned
/// expression alone: a later print of that variable selects the string
/// format exactly when the assigned expression was a string literal or
/// a fetch result.  Because the classification record is appended on
/// every assignment and looked up from the most recent entry, a
/// reassignment overwrites the earlier classification.
pub proof fn lemma_print_format_after_assign(
    st: GenState,
    fr: FrameView,
    name: Seq<char>,
    value: ExpressionView,
)
    requires
        sg_stmt(st, fr, StatementView::Assign { name, value }) is Ok,
    ensures
        ({
            let (st1, fr1, code) = sg_stmt(st, fr, StatementView::Assign { name, value })->Ok_0;
            print_is_string(fr1, ExpressionView::Variable(name)) == is_stringy_expr(value)
        }),
{
    let (fr_a, off) = sg_alloc(fr, name)->Ok_0;
    let svars2 = fr_a.svars.push((name, is_stringy_expr(value)));
    assert(svars2.last() == (name, is_stringy_expr(value)));
    assert(lookup_svar(svars2, name) == is_stringy_expr(value));
}

/// A print of a variable emits the format selector that the variable's
/// current classification demands: the string format for a variable
/// last assigned a string literal or fetch result, the integer format
/// otherwise.
pub proof fn lemma_print_selects_format(st: GenState, fr: FrameView, name: Seq<char>)
    requires
        sg_stmt(st, fr, StatementView::Print(ExpressionView::Variable(name))) is Ok,
    ensures
        ({
            let (st1, fr1, code) = sg_stmt(
                st,
                fr,
                StatementView::Print(ExpressionView::Variable(name)),
            )->Ok_0;
            &&& code.len() >= 3
            &&& code[code.len() - 3] == (if lookup_svar(fr.svars, name) {
                InstrView::LeaRdiFmtStr
            } else {
                InstrView::LeaRdiFmtInt
            })
        }),
{
}

/// Decimal text is nonempty and holds digit characters alone.
pub proof fn lemma_udec_digits(n: nat)
    ensures
        spec_udec(n).len() >= 1,
        forall|i: int| 0 <= i < spec_udec(n).len() ==> 48 <= (#[trigger] spec_udec(n)[i]) as u32
            <= 57,
    decreases n,
{
    if n >= 10 {
        lemma_udec_digits(n / 10);
        assert(forall|i: int| 0 <= i < spec_udec(n / 10).len() ==> spec_udec(n)[i] == spec_udec(
            n / 10,
        )[i]);
        assert(spec_udec(n)[spec_udec(n).len() - 1] == dec_digit(n % 10));
    }
}

/// Decimal text determines the value: distinct numbers render to
/// distinct digit strings.
pub proof fn lemma_udec_injective(n1: nat, n2: nat)
    requires
        spec_udec(n1) == spec_udec(n2),
    ensures
        n1 == n2,
    decreases n1,
{
    lemma_udec_digits(n1);
    lemma_udec_digits(n2);
    if n1 < 10 && n2 < 10 {
        assert(spec_udec(n1)[0] == dec_digit(n1));
        assert(spec_udec(n2)[0] == dec_digit(n2));
    } else if n1 < 10 {
        lemma_udec_digits(n2 / 10);
        assert(spec_udec(n2).len() >= 2);
    } else if n2 < 10 {
        lemma_udec_digits(n1 / 10);
        assert(spec_udec(n1).len() >= 2);
    } else {
        let a = spec_udec(n1 / 10);
        let b = spec_udec(n2 / 10);
        assert(spec_udec(n1).last() == dec_digit(n1 % 10));
        assert(spec_udec(n2).last() == dec_digit(n2 % 10));
        assert(n1 % 10 == n2 % 10);
        assert((a + seq![dec_digit(n1 % 10)]).drop_last() =~= a);
        assert((b + seq![dec_digit(n2 % 10)]).drop_last() =~= b);
        assert(a == b);
        lemma_udec_injective(n1 / 10, n2 / 10);
    }
}

/// Generated label text determines the label: two labels render to the
/// same text only when category and number agree.  Every drawn label
/// number is fresh — the counter only grows, and each draw advances it
/// — so the labels of any two constructs in one compilation are
/// pairwise distinct as text.
pub proof fn lemma_label_text_injective(l1: LabelId, l2: LabelId)
    requires
        spec_label(l1) == spec_label(l2),
    ensures
        l1 == l2,
{
    reveal_strlit("endif");
    reveal_strlit("else");
    reveal_strlit("while_start");
    reveal_strlit("while_end");
    reveal_strlit("epilogue");
    reveal_strlit("_");
    lemma_udec_digits(l1.n as nat);
    lemma_udec_digits(l2.n as nat);
    let p1 = cat_prefix(l1.cat);
    let p2 = cat_prefix(l2.cat);
    let d1 = spec_udec(l1.n as nat);
    let d2 = spec_udec(l2.n as nat);
    let s = spec_label(l1);
    assert(s.len() == p1.len() + 1 + d1.len());
    assert(s.len() == p2.len() + 1 + d2.len());
    if p1.len() < p2.len() {
        assert(s[p2.len() as int] == '_');
        assert(s[p2.len() as int] == d1[p2.len() - p1.len() - 1]);
        assert(48 <= '_' as u32 <= 57);
        assert(false);
    }
    if p2.len() < p1.len() {
        assert(s[p1.len() as int] == '_');
        assert(s[p1.len() as int] == d2[p1.len() - p2.len() - 1]);
        assert(48 <= '_' as u32 <= 57);
        assert(false);
    }
    assert(p1.len() == p2.len());
    assert(l1.cat == l2.cat);
    assert forall|i: int| 0 <= i < d1.len() implies d1[i] == d2[i] by {
        assert(d1[i] == s[p1.len() + 1 + i]);
        assert(d2[i] == s[p2.len() + 1 + i]);
    }
    assert(d1 =~= d2);
    lemma_udec_injective(l1.n as nat, l2.n as nat);
}

/// No instruction of this sequence defines a generated label.
pub open spec fn no_label_defs(code: Seq<InstrView>) -> bool {
    forall|i: int| 0 <= i < code.len() ==> !((#[trigger] code[i]) is LabelDef)
}

/// Every label defined in this sequence has a number in `[lo, hi)`.
pub open spec fn label_defs_bounded(code: Seq<InstrView>, lo: int, hi: int) -> bool {
    forall|i: int| 0 <= i < code.len() && (#[trigger] code[i]) is LabelDef ==> lo
        <= code[i]->LabelDef_0.n < hi
}

/// No two instructions of this sequence define the same label.
pub open spec fn label_defs_distinct(code: Seq<InstrView>) -> bool {
    forall|i: int, j: int|
        0 <= i < j < code.len() && (#[trigger] code[i]) is LabelDef && (#[trigger] code[j]) is LabelDef
            ==> code[i]->LabelDef_0 != code[j]->LabelDef_0
}

/// A label-free sequence is bounded by any range and trivially
/// distinct.
pub proof fn lemma_no_labels_facts(code: Seq<InstrView>, lo: int, hi: int)
    requires
        no_label_defs(code),
    ensures
        label_defs_bounded(code, lo, hi),
        label_defs_distinct(code),
{
}

/// Concatenating label-free sequences gives a label-free sequence.
pub proof fn lemma_no_labels_concat(a: Seq<InstrView>, b: Seq<InstrView>)
    requires
        no_label_defs(a),
        no_label_defs(b),
    ensures
        no_label_defs(a + b),
{
    assert forall|i: int| 0 <= i < (a + b).len() implies !((#[trigger] (a + b)[i]) is LabelDef) by {
        if i < a.len() {
            assert((a + b)[i] == a[i]);
        } else {
            assert((a + b)[i] == b[i - a.len()]);
        }
    }
}

/// Concatenating sequences whose label-number ranges are disjoint keeps
/// the labels pairwise distinct and bounded by the union range.
pub proof fn lemma_labels_disjoint_concat(
    a: Seq<InstrView>,
    b: Seq<InstrView>,
    alo: int,
    ahi: int,
    blo: int,
    bhi: int,
    lo: int,
    hi: int,
)
    requires
        label_defs_bounded(a, alo, ahi),
        label_defs_distinct(a),
        label_defs_bounded(b, blo, bhi),
        label_defs_distinct(b),
        ahi <= blo || bhi <= alo,
        lo <= alo,
        ahi <= hi,
        lo <= blo,
        bhi <= hi,
    ensures
        label_defs_bounded(a + b, lo, hi),
        label_defs_distinct(a + b),
{
    let c = a + b;
    assert forall|i: int| 0 <= i < c.len() && (#[trigger] c[i]) is LabelDef implies lo
        <= c[i]->LabelDef_0.n < hi by {
        if i < a.len() {
            assert(c[i] == a[i]);
        } else {
            assert(c[i] == b[i - a.len()]);
        }
    }
    assert forall|i: int, j: int|
        0 <= i < j < c.len() && (#[trigger] c[i]) is LabelDef && (#[trigger] c[j]) is LabelDef implies c[i]->LabelDef_0
        != c[j]->LabelDef_0 by {
        if j < a.len() {
            assert(c[i] == a[i] && c[j] == a[j]);
        } else if i >= a.len() {
            assert(c[i] == b[i - a.len()] && c[j] == b[j - a.len()]);
        } else {
            assert(c[i] == a[i] && c[j] == b[j - a.len()]);
        }
    }
}

/// The combining code of a binary operation defines no labels.
pub proof fn lemma_op_code_no_labels(op: BinaryOperator)
    ensures
        no_label_defs(sg_op_code(op)),
{
}

/// The argument pops define no labels.
pub proof fn lemma_pop_args_no_labels(n: int)
    ensures
        no_label_defs(sg_pop_args(n)),
    decreases n,
{
    if n > 0 {
        lemma_pop_args_no_labels(n - 1);
        lemma_no_labels_concat(seq![InstrView::PopArg((n - 1) as u64)], sg_pop_args(n - 1));
    }
}

/// Expression code defines no labels.
pub proof fn lemma_expr_no_labels(st: GenState, fr: FrameView, e: ExpressionView)
    ensures
        sg_expr(st, fr, e) is Ok ==> no_label_defs(sg_expr(st, fr, e)->Ok_0.1),
    decreases e, 1int,
{
    match e {
        ExpressionView::BinaryOp { left, op, right } => {
            lemma_expr_no_labels(st, fr, *left);
            if sg_expr(st, fr, *left) is Ok {
                let (st1, c1) = sg_expr(st, fr, *left)->Ok_0;
                lemma_expr_no_labels(st1, fr, *right);
                if sg_expr(st1, fr, *right) is Ok {
                    let (st2, c2) = sg_expr(st1, fr, *right)->Ok_0;
                    lemma_op_code_no_labels(op);
                    lemma_no_labels_concat(c1, seq![InstrView::PushRax]);
                    lemma_no_labels_concat(c1 + seq![InstrView::PushRax], c2);
                    lemma_no_labels_concat(c1 + seq![InstrView::PushRax] + c2, seq![InstrView::PopRcx]);
                    lemma_no_labels_concat(
                        c1 + seq![InstrView::PushRax] + c2 + seq![InstrView::PopRcx],
                        sg_op_code(op),
                    );
                }
            }
        },
        ExpressionView::FunctionCall { name, args } => {
            lemma_arg_list_no_labels(st, fr, args);
            if args.len() <= 6 && sg_arg_list(st, fr, args) is Ok {
                let (st1, code) = sg_arg_list(st, fr, args)->Ok_0;
                lemma_pop_args_no_labels(args.len() as int);
                lemma_no_labels_concat(code, sg_pop_args(args.len() as int));
                lemma_no_labels_concat(
                    code + sg_pop_args(args.len() as int),
                    seq![InstrView::ZeroRax, InstrView::CallFn(name)],
                );
            }
        },
        ExpressionView::Fetch { method, url, body } => {
            lemma_expr_no_labels(st, fr, *method);
            if sg_expr(st, fr, *method) is Ok {
                let (st1, cm) = sg_expr(st, fr, *method)->Ok_0;
                lemma_expr_no_labels(st1, fr, *url);
                if sg_expr(st1, fr, *url) is Ok {
                    let (st2, cu) = sg_expr(st1, fr, *url)->Ok_0;
                    let body_r = match body {
                        Some(b) => sg_expr(st2, fr, *b),
                        None => Ok::<(GenState, Seq<InstrView>), CodegenErrorView>(
                            (st2, seq![InstrView::ZeroRax]),
                        ),
                    };
                    match body {
                        Some(b) => {
                            lemma_expr_no_labels(st2, fr, *b);
                        },
                        None => {},
                    }
                    if body_r is Ok {
                        let (st3, cb) = body_r->Ok_0;
                        lemma_no_labels_concat(cm, seq![InstrView::PushRax]);
                        lemma_no_labels_concat(cm + seq![InstrView::PushRax], cu);
                        lemma_no_labels_concat(
                            cm + seq![InstrView::PushRax] + cu,
                            seq![InstrView::PushRax],
                        );
                        lemma_no_labels_concat(
                            cm + seq![InstrView::PushRax] + cu + seq![InstrView::PushRax],
                            cb,
                        );
                        lemma_no_labels_concat(
                            cm + seq![InstrView::PushRax] + cu + seq![InstrView::PushRax] + cb,
                            seq![
                                InstrView::PushRax,
                                InstrView::PopArg(2),
                                InstrView::PopArg(1),
                                InstrView::PopArg(0),
                                InstrView::ZeroRax,
                                InstrView::CallFetch,
                            ],
                        );
                    }
                }
            }
        },
        _ => {},
    }
}

/// Argument-list code defines no labels.
pub proof fn lemma_arg_list_no_labels(st: GenState, fr: FrameView, args: Seq<ExpressionView>)
    ensures
        sg_arg_list(st, fr, args) is Ok ==> no_label_defs(sg_arg_list(st, fr, args)->Ok_0.1),
    decreases args, 0int,
{
    if args.len() > 0 {
        lemma_expr_no_labels(st, fr, args[0]);
        if sg_expr(st, fr, args[0]) is Ok {
            let (st1, c1) = sg_expr(st, fr, args[0])->Ok_0;
            lemma_arg_list_no_labels(st1, fr, args.drop_first());
            if sg_arg_list(st1, fr, args.drop_first()) is Ok {
                let (st2, cr) = sg_arg_list(st1, fr, args.drop_first())->Ok_0;
                lemma_no_labels_concat(c1, seq![InstrView::PushRax]);
                lemma_no_labels_concat(c1 + seq![InstrView::PushRax], cr);
            }
        }
    }
}

/// Parameter-spill code defines no labels.
pub proof fn lemma_params_no_labels(fr: FrameView, params: Seq<ExpressionView>, idx: int)
    ensures
        sg_params(fr, params, idx) is Ok ==> no_label_defs(sg_params(fr, params, idx)->Ok_0.1),
    decreases params,
{
    if params.len() > 0 {
        match params[0] {
            ExpressionView::FunctionArg(name) => {
                if sg_alloc(fr, name) is Ok {
                    let (fr1, off) = sg_alloc(fr, name)->Ok_0;
                    lemma_params_no_labels(fr1, params.drop_first(), idx + 1);
                    if sg_params(fr1, params.drop_first(), idx + 1) is Ok {
                        let (fr2, cr) = sg_params(fr1, params.drop_first(), idx + 1)->Ok_0;
                        lemma_no_labels_concat(
                            seq![InstrView::SpillArg { idx: idx as u64, off }],
                            cr,
                        );
                    }
                }
            },
            _ => {},
        }
    }
}

/// One statement's labels are pairwise distinct and drawn from the
/// counter interval the statement consumed.
#[verifier::rlimit(100)]
#[verifier::spinoff_prover]
pub proof fn lemma_stmt_labels(st: GenState, fr: FrameView, s: StatementView)
    requires
        0 <= st.labels,
    ensures
        sg_stmt(st, fr, s) is Ok ==> ({
            let (st2, fr2, code) = sg_stmt(st, fr, s)->Ok_0;
            &&& st.labels <= st2.labels
            &&& label_defs_bounded(code, st.labels, st2.labels)
            &&& label_defs_distinct(code)
        }),
    decreases s, 1int,
{
    match s {
        StatementView::Assign { name, value } => {
            if sg_alloc(fr, name) is Ok {
                let (fr1, off) = sg_alloc(fr, name)->Ok_0;
                lemma_expr_no_labels(st, fr1, value);
                lemma_expr_pool(st, fr1, value);
                if sg_expr(st, fr1, value) is Ok {
                    let (st1, code) = sg_expr(st, fr1, value)->Ok_0;
                    lemma_no_labels_concat(code, seq![InstrView::StoreVar(off)]);
                    lemma_no_labels_facts(code + seq![InstrView::StoreVar(off)], st.labels, st1.labels);
                }
            }
        },
        StatementView::Print(e) => {
            lemma_expr_no_labels(st, fr, e);
            lemma_expr_pool(st, fr, e);
            if sg_expr(st, fr, e) is Ok {
                let (st1, code) = sg_expr(st, fr, e)->Ok_0;
                let fmt = if print_is_string(fr, e) {
                    InstrView::LeaRdiFmtStr
                } else {
                    InstrView::LeaRdiFmtInt
                };
                lemma_no_labels_concat(
                    code,
                    seq![InstrView::MovRsiRax, fmt, InstrView::ZeroRax, InstrView::CallPrintf],
                );
                lemma_no_labels_facts(
                    code + seq![InstrView::MovRsiRax, fmt, InstrView::ZeroRax, InstrView::CallPrintf],
                    st.labels,
                    st1.labels,
                );
            }
        },
        StatementView::Send(e) => {
            lemma_expr_no_labels(st, fr, e);
            lemma_expr_pool(st, fr, e);
            if sg_expr(st, fr, e) is Ok {
                let (st1, code) = sg_expr(st, fr, e)->Ok_0;
                let j = seq![InstrView::Jmp(LabelId { cat: LabelCat::Epilogue, n: fr.epilogue })];
                lemma_no_labels_concat(code, j);
                lemma_no_labels_facts(code + j, st.labels, st1.labels);
            }
        },
        StatementView::FunctionCall { name, args } => {
            lemma_arg_list_no_labels(st, fr, args);
            lemma_arg_list_pool(st, fr, args);
            if args.len() <= 6 && sg_arg_list(st, fr, args) is Ok {
                let (st1, code) = sg_arg_list(st, fr, args)->Ok_0;
                lemma_pop_args_no_labels(args.len() as int);
                lemma_no_labels_concat(code, sg_pop_args(args.len() as int));
                lemma_no_labels_concat(
                    code + sg_pop_args(args.len() as int),
                    seq![InstrView::ZeroRax, InstrView::CallFn(name)],
                );
                lemma_no_labels_facts(
                    code + sg_pop_args(args.len() as int) + seq![
                        InstrView::ZeroRax,
                        InstrView::CallFn(name),
                    ],
                    st.labels,
                    st1.labels,
                );
            }
        },
        StatementView::Fetch { method, url, body } => {
            lemma_expr_no_labels(st, fr, method);
            lemma_expr_pool(st, fr, method);
            if sg_expr(st, fr, method) is Ok {
                let (st1, cm) = sg_expr(st, fr, method)->Ok_0;
                lemma_expr_no_labels(st1, fr, url);
                lemma_expr_pool(st1, fr, url);
                if sg_expr(st1, fr, url) is Ok {
                    let (st2, cu) = sg_expr(st1, fr, url)->Ok_0;
                    let body_r = match body {
                        Some(b) => sg_expr(st2, fr, b),
                        None => Ok::<(GenState, Seq<InstrView>), CodegenErrorView>(
                            (st2, seq![InstrView::ZeroRax]),
                        ),
                    };
                    match body {
                        Some(b) => {
                            lemma_expr_no_labels(st2, fr, b);
                            lemma_expr_pool(st2, fr, b);
                        },
                        None => {},
                    }
                    if body_r is Ok {
                        let (st3, cb) = body_r->Ok_0;
                        let tail = seq![
                            InstrView::PushRax,
                            InstrView::PopArg(2),
                            InstrView::PopArg(1),
                            InstrView::PopArg(0),
                            InstrView::ZeroRax,
                            InstrView::CallFetch,
                        ];
                        lemma_no_labels_concat(cm, seq![InstrView::PushRax]);
                        lemma_no_labels_concat(cm + seq![InstrView::PushRax], cu);
                        lemma_no_labels_concat(
                            cm + seq![InstrView::PushRax] + cu,
                            seq![InstrView::PushRax],
                        );
                        lemma_no_labels_concat(
                            cm + seq![InstrView::PushRax] + cu + seq![InstrView::PushRax],
                            cb,
                        );
                        lemma_no_labels_concat(
                            cm + seq![InstrView::PushRax] + cu + seq![InstrView::PushRax] + cb,
                            tail,
                        );
                        lemma_no_labels_facts(
                            cm + seq![InstrView::PushRax] + cu + seq![InstrView::PushRax] + cb
                                + tail,
                            st.labels,
                            st3.labels,
                        );
                    }
                }
            }
        },
        StatementView::If { condition, then_body, else_body } => {
            lemma_expr_no_labels(st, fr, condition);
            lemma_expr_pool(st, fr, condition);
            if sg_expr(st, fr, condition) is Ok {
                let (st1, ccode) = sg_expr(st, fr, condition)->Ok_0;
                if sg_new_label(st1) is Ok {
                    let (st2, end_n) = sg_new_label(st1)->Ok_0;
                    let end_l = LabelId { cat: LabelCat::Endif, n: end_n };
                    match else_body {
                        Some(els) => {
                            if sg_new_label(st2) is Ok {
                                let (st3, else_n) = sg_new_label(st2)->Ok_0;
                                let else_l = LabelId { cat: LabelCat::Else, n: else_n };
                                lemma_stmts_labels(st3, fr, then_body);
                                if sg_stmts(st3, fr, then_body) is Ok {
                                    let (st4, fr4, tcode) = sg_stmts(st3, fr, then_body)->Ok_0;
                                    lemma_stmts_labels(st4, fr4, els);
                                    if sg_stmts(st4, fr4, els) is Ok {
                                        let (st5, fr5, ecode) = sg_stmts(st4, fr4, els)->Ok_0;
                                        let a1 = ccode + seq![
                                            InstrView::CmpRaxZero,
                                            InstrView::Je(else_l),
                                        ];
                                        lemma_no_labels_concat(
                                            ccode,
                                            seq![InstrView::CmpRaxZero, InstrView::Je(else_l)],
                                        );
                                        lemma_no_labels_facts(a1, st3.labels, st3.labels);
                                        lemma_labels_disjoint_concat(
                                            a1,
                                            tcode,
                                            st3.labels,
                                            st3.labels,
                                            st3.labels,
                                            st4.labels,
                                            st3.labels,
                                            st4.labels,
                                        );
                                        let a2 = a1 + tcode;
                                        let mid = seq![
                                            InstrView::Jmp(end_l),
                                            InstrView::LabelDef(else_l),
                                        ];
                                        assert(label_defs_bounded(
                                            mid,
                                            else_n as int,
                                            else_n + 1,
                                        ));
                                        assert(label_defs_distinct(mid));
                                        lemma_labels_disjoint_concat(
                                            a2,
                                            mid,
                                            st3.labels,
                                            st4.labels,
                                            else_n as int,
                                            else_n + 1,
                                            else_n as int,
                                            st4.labels,
                                        );
                                        let a3 = a2 + mid;
                                        lemma_labels_disjoint_concat(
                                            a3,
                                            ecode,
                                            else_n as int,
                                            st4.labels,
                                            st4.labels,
                                            st5.labels,
                                            else_n as int,
                                            st5.labels,
                                        );
                                        let a4 = a3 + ecode;
                                        let endseq = seq![InstrView::LabelDef(end_l)];
                                        assert(label_defs_bounded(
                                            endseq,
                                            end_n as int,
                                            end_n + 1,
                                        ));
                                        assert(label_defs_distinct(endseq));
                                        lemma_labels_disjoint_concat(
                                            a4,
                                            endseq,
                                            else_n as int,
                                            st5.labels,
                                            end_n as int,
                                            end_n + 1,
                                            end_n as int,
                                            st5.labels,
                                        );
                                    }
                                }
                            }
                        },
                        None => {
                            lemma_stmts_labels(st2, fr, then_body);
                            if sg_stmts(st2, fr, then_body) is Ok {
                                let (st4, fr4, tcode) = sg_stmts(st2, fr, then_body)->Ok_0;
                                let a1 = ccode + seq![InstrView::CmpRaxZero, InstrView::Je(end_l)];
                                lemma_no_labels_concat(
                                    ccode,
                                    seq![InstrView::CmpRaxZero, InstrView::Je(end_l)],
                                );
                                lemma_no_labels_facts(a1, st2.labels, st2.labels);
                                lemma_labels_disjoint_concat(
                                    a1,
                                    tcode,
                                    st2.labels,
                                    st2.labels,
                                    st2.labels,
                                    st4.labels,
                                    st2.labels,
                                    st4.labels,
                                );
                                let a2 = a1 + tcode;
                                let endseq = seq![InstrView::LabelDef(end_l)];
                                assert(label_defs_bounded(endseq, end_n as int, end_n + 1));
                                assert(label_defs_distinct(endseq));
                                lemma_labels_disjoint_concat(
                                    a2,
                                    endseq,
                                    st2.labels,
                                    st4.labels,
                                    end_n as int,
                                    end_n + 1,
                                    end_n as int,
                                    st4.labels,
                                );
                            }
                        },
                    }
                }
            }
        },
        StatementView::While { condition, body } => {
            if sg_new_label(st) is Ok {
                let (st1, start_n) = sg_new_label(st)->Ok_0;
                if sg_new_label(st1) is Ok {
                    let (st2, end_n) = sg_new_label(st1)->Ok_0;
                    let start_l = LabelId { cat: LabelCat::WhileStart, n: start_n };
                    let end_l = LabelId { cat: LabelCat::WhileEnd, n: end_n };
                    lemma_expr_no_labels(st2, fr, condition);
                    lemma_expr_pool(st2, fr, condition);
                    if sg_expr(st2, fr, condition) is Ok {
                        let (st3, ccode) = sg_expr(st2, fr, condition)->Ok_0;
                        lemma_stmts_labels(st3, fr, body);
                        if sg_stmts(st3, fr, body) is Ok {
                            let (st4, fr4, bcode) = sg_stmts(st3, fr, body)->Ok_0;
                            let startseq = seq![InstrView::LabelDef(start_l)];
                            assert(label_defs_bounded(startseq, start_n as int, start_n + 1));
                            assert(label_defs_distinct(startseq));
                            let m1 = ccode + seq![InstrView::CmpRaxZero, InstrView::Je(end_l)];
                            lemma_no_labels_concat(
                                ccode,
                                seq![InstrView::CmpRaxZero, InstrView::Je(end_l)],
                            );
                            let tail = seq![InstrView::Jmp(start_l), InstrView::LabelDef(end_l)];
                            assert(label_defs_bounded(tail, end_n as int, end_n + 1));
                            assert(label_defs_distinct(tail));
                            // The end label's number sits below the body's
                            // labels, so group the body with the tail first.
                            lemma_labels_disjoint_concat(
                                bcode,
                                tail,
                                st3.labels,
                                st4.labels,
                                end_n as int,
                                end_n + 1,
                                end_n as int,
                                st4.labels,
                            );
                            lemma_no_labels_facts(m1, end_n as int, end_n as int);
                            lemma_labels_disjoint_concat(
                                m1,
                                bcode + tail,
                                end_n as int,
                                end_n as int,
                                end_n as int,
                                st4.labels,
                                end_n as int,
                                st4.labels,
                            );
                            lemma_labels_disjoint_concat(
                                startseq,
                                m1 + (bcode + tail),
                                start_n as int,
                                start_n + 1,
                                end_n as int,
                                st4.labels,
                                start_n as int,
                                st4.labels,
                            );
                            assert(startseq + m1 + bcode + tail =~= startseq + (m1 + (bcode
                                + tail)));
                        }
                    }
                }
            }
        },
        StatementView::Function { name, params, body } => {
            lemma_function_labels(st, name, params, body);
        },
    }
}

/// A statement sequence's labels are pairwise distinct and drawn from
/// the counter interval the sequence consumed.
pub proof fn lemma_stmts_labels(st: GenState, fr: FrameView, ss: Seq<StatementView>)
    requires
        0 <= st.labels,
    ensures
        sg_stmts(st, fr, ss) is Ok ==> ({
            let (st2, fr2, code) = sg_stmts(st, fr, ss)->Ok_0;
            &&& st.labels <= st2.labels
            &&& label_defs_bounded(code, st.labels, st2.labels)
            &&& label_defs_distinct(code)
        }),
    decreases ss, 0int,
{
    if ss.len() > 0 {
        lemma_stmt_labels(st, fr, ss[0]);
        if sg_stmt(st, fr, ss[0]) is Ok {
            let (st1, fr1, c1) = sg_stmt(st, fr, ss[0])->Ok_0;
            lemma_stmts_labels(st1, fr1, ss.drop_first());
            if sg_stmts(st1, fr1, ss.drop_first()) is Ok {
                let (st2, fr2, cr) = sg_stmts(st1, fr1, ss.drop_first())->Ok_0;
                lemma_labels_disjoint_concat(
                    c1,
                    cr,
                    st.labels,
                    st1.labels,
                    st1.labels,
                    st2.labels,
                    st.labels,
                    st2.labels,
                );
            }
        }
    }
}

/// A function's labels are pairwise distinct and drawn from the counter
/// interval the function consumed.
pub proof fn lemma_function_labels(
    st: GenState,
    name: Seq<char>,
    params: Seq<ExpressionView>,
    body: Seq<StatementView>,
)
    requires
        0 <= st.labels,
    ensures
        sg_function(st, name, params, body) is Ok ==> ({
            let (st2, code) = sg_function(st, name, params, body)->Ok_0;
            &&& st.labels <= st2.labels
            &&& label_defs_bounded(code, st.labels, st2.labels)
            &&& label_defs_distinct(code)
        }),
    decreases body, 1int,
{
    if sg_new_label(st) is Ok {
        let (st1, epi) = sg_new_label(st)->Ok_0;
        if params.len() <= 6 {
            let fr0 = FrameView {
                offsets: Seq::empty(),
                next: 8,
                epilogue: epi,
                svars: Seq::empty(),
            };
            lemma_params_no_labels(fr0, params, 0);
            if sg_params(fr0, params, 0) is Ok {
                let (fr1, spill) = sg_params(fr0, params, 0)->Ok_0;
                lemma_stmts_labels(st1, fr1, body);
                if sg_stmts(st1, fr1, body) is Ok {
                    let (st2, fr2, bcode) = sg_stmts(st1, fr1, body)->Ok_0;
                    let size = sg_frame_size(fr2.next) as u64;
                    let epi_l = LabelId { cat: LabelCat::Epilogue, n: epi };
                    let head: Seq<InstrView> = if name == main_name() {
                        Seq::empty()
                    } else {
                        seq![InstrView::GlobalSym(name)]
                    };
                    let pro = seq![
                        InstrView::FuncLabel(name),
                        InstrView::PushRbp,
                        InstrView::MovRbpRsp,
                        InstrView::SubRsp(size),
                    ];
                    lemma_no_labels_concat(head, pro);
                    lemma_no_labels_concat(head + pro, spill);
                    lemma_no_labels_facts(head + pro + spill, st1.labels, st1.labels);
                    lemma_labels_disjoint_concat(
                        head + pro + spill,
                        bcode,
                        st1.labels,
                        st1.labels,
                        st1.labels,
                        st2.labels,
                        st1.labels,
                        st2.labels,
                    );
                    let a1 = head + pro + spill + bcode;
                    let tail = seq![
                        InstrView::ZeroRax,
                        InstrView::LabelDef(epi_l),
                        InstrView::MovRspRbp,
                        InstrView::PopRbp,
                        InstrView::Ret,
                    ];
                    assert(label_defs_bounded(tail, epi as int, epi + 1));
                    assert(label_defs_distinct(tail));
                    lemma_labels_disjoint_concat(
                        a1,
                        tail,
                        st1.labels,
                        st2.labels,
                        epi as int,
                        epi + 1,
                        epi as int,
                        st2.labels,
                    );
                }
            }
        }
    }
}

/// For any two syntactically independent control-flow constructs in one
/// program, all generated labels are pairwise distinct: every label is
/// drawn from the strictly increasing counter, so a whole compilation
/// defines each label identity at most once — and by
/// `lemma_label_text_injective` each label text at most once.
pub proof fn lemma_program_labels_distinct(st: GenState, ss: Seq<StatementView>)
    requires
        0 <= st.labels,
    ensures
        sg_toplevel(st, ss) is Ok ==> ({
            let (st2, code) = sg_toplevel(st, ss)->Ok_0;
            &&& label_defs_bounded(code, st.labels, st2.labels)
            &&& label_defs_distinct(code)
            &&& st.labels <= st2.labels
        }),
    decreases ss,
{
    if ss.len() > 0 {
        match ss[0] {
            StatementView::Function { name, params, body } => {
                lemma_function_labels(st, name, params, body);
                if sg_function(st, name, params, body) is Ok {
                    let (st1, c1) = sg_function(st, name, params, body)->Ok_0;
                    lemma_program_labels_distinct(st1, ss.drop_first());
                    if sg_toplevel(st1, ss.drop_first()) is Ok {
                        let (st2, cr) = sg_toplevel(st1, ss.drop_first())->Ok_0;
                        lemma_labels_disjoint_concat(
                            c1,
                            cr,
                            st.labels,
                            st1.labels,
                            st1.labels,
                            st2.labels,
                            st.labels,
                            st2.labels,
                        );
                    }
                }
            },
            _ => {
                lemma_program_labels_distinct(st, ss.drop_first());
            },
        }
    }
}

/// The mathematical relation a comparison operator denotes.
pub open spec fn cmp_relation(op: BinaryOperator, l: i64, r: i64) -> bool {
    match op {
        BinaryOperator::Eq => l == r,
        BinaryOperator::NEq => l != r,
        BinaryOperator::Lt => l < r,
        BinaryOperator::LtEq => l <= r,
        BinaryOperator::Gt => l > r,
        _ => false,
    }
}

/// Binary subtraction: with the left operand in the secondary location
/// and the right in the primary — as the evaluation scheme leaves them
/// — the emitted combining code puts exactly `left - right` in the
/// result register, whenever that value is representable.
pub proof fn lemma_sub_code_semantics(m: MachineView, l: i64, r: i64)
    requires
        m.rcx == l,
        m.rax == r,
        i64::MIN <= l - r <= i64::MAX,
    ensures
        ({
            let out = run_line(m, sg_op_code(BinaryOperator::Sub));
            &&& out is Some
            &&& out->0.rax == l - r
        }),
{
    reveal_with_fuel(run_line, 4);
    let code = sg_op_code(BinaryOperator::Sub);
    let m1 = spec_step_basic(m, code[0])->0;
    assert(m1.rcx == l - r);
    assert(code.drop_first() =~= seq![InstrView::MovRaxRcx]);
    assert(code.drop_first().drop_first() =~= Seq::<InstrView>::empty());
}

/// Binary division: with a nonnegative left operand in the secondary
/// location and a nonzero right operand in the primary, the emitted
/// combining code puts exactly the signed truncating quotient
/// `left / right` in the result register.  A negative left operand is
/// outside this law: the generated code clears the high half rather
/// than sign-extending it, so the hardware dividend is then not the
/// left operand.
pub proof fn lemma_div_code_semantics(m: MachineView, l: i64, r: i64)
    requires
        m.rcx == l,
        m.rax == r,
        l >= 0,
        r != 0,
    ensures
        ({
            let out = run_line(m, sg_op_code(BinaryOperator::Div));
            &&& out is Some
            &&& out->0.rax == spec_tdiv(l as int, r as int)
        }),
{
    reveal_with_fuel(run_line, 6);
    let code = sg_op_code(BinaryOperator::Div);
    let m1 = spec_step_basic(m, code[0])->0;
    let m2 = spec_step_basic(m1, InstrView::MovRaxRcx)->0;
    let m3 = spec_step_basic(m2, InstrView::ZeroRdx)->0;
    assert(m3.rax == l && m3.rbx == r && m3.rdx == 0);
    let q = spec_tdiv(l as int, r as int);
    if r > 0 {
        lemma_div_pos_is_pos(l as int, r as int);
        lemma_div_nonincreasing(l as int, r as int);
        assert(0 <= q <= l);
    } else {
        lemma_div_pos_is_pos(l as int, -(r as int));
        lemma_div_nonincreasing(l as int, -(r as int));
        assert(-(l as int) <= q <= 0);
    }
    assert(spec_step_basic(m3, InstrView::IdivRbx) is Some);
    assert(code.drop_first() =~= seq![InstrView::MovRaxRcx, InstrView::ZeroRdx, InstrView::IdivRbx]);
    assert(code.drop_first().drop_first() =~= seq![InstrView::ZeroRdx, InstrView::IdivRbx]);
    assert(code.drop_first().drop_first().drop_first() =~= seq![InstrView::IdivRbx]);
    assert(code.drop_first().drop_first().drop_first().drop_first() =~= Seq::<InstrView>::empty());
}

/// Comparisons: with the left operand in the secondary location and the
/// right in the primary, the emitted combining code puts exactly `1` in
/// the result register when the mathematical relation between left and
/// right holds, and exactly `0` otherwise — not reversed.
#[verifier::rlimit(100)]
#[verifier::spinoff_prover]
pub proof fn lemma_cmp_code_semantics(m: MachineView, l: i64, r: i64, op: BinaryOperator)
    requires
        m.rcx == l,
        m.rax == r,
        op is Eq || op is NEq || op is Lt || op is LtEq || op is Gt,
    ensures
        ({
            let out = run_line(m, sg_op_code(op));
            &&& out is Some
            &&& out->0.rax == (if cmp_relation(op, l, r) {
                1i64
            } else {
                0i64
            })
        }),
{
    reveal_with_fuel(run_line, 5);
    let code = sg_op_code(op);
    let m1 = spec_step_basic(m, code[0])->0;
    assert(m1.cmp == Some((l, r)));
    let m2 = spec_step_basic(m1, code[1])->0;
    assert(code.drop_first() =~= seq![code[1], code[2]]);
    assert(code.drop_first().drop_first() =~= seq![code[2]]);
    assert(code.drop_first().drop_first().drop_first() =~= Seq::<InstrView>::empty());
}

} // verus!
