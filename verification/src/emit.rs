//! The assembly vocabulary: structured instructions, generated-label
//! identity, and the exact text each instruction renders to.
//!
//! The code generator emits `Instr` values; `render_instr` turns one into
//! its NASM text line and is proved to produce exactly `spec_render` of
//! the instruction's view.  Generated labels carry a category and a
//! process-wide monotonically increasing number, so label text never
//! collides across constructs.

use vstd::prelude::*;
use vstd::string::*;

verus! {

/// The category of a generated label.
#[derive(Debug, Clone, Copy, PartialEq, Eq, Structural)]
pub enum LabelCat {
    /// The join point after a conditional.
    Endif,
    /// The start of an else-branch.
    Else,
    /// The head of a loop.
    WhileStart,
    /// The exit of a loop.
    WhileEnd,
    /// A function's shared cleanup path.
    Epilogue,
}

/// A generated label: a category and a unique number.
#[derive(Debug, Clone, Copy, PartialEq, Eq, Structural)]
pub struct LabelId {
    pub cat: LabelCat,
    pub n: u64,
}

/// The comparison materialized by a set-on-condition instruction.
#[derive(Debug, Clone, Copy, PartialEq, Eq, Structural)]
pub enum CmpKind {
    Eq,
    Ne,
    Lt,
    Le,
    Gt,
}

/// One assembly instruction or line of the generated module.
#[derive(Debug, PartialEq)]
pub enum Instr {
    /// Exports a non-entry function: `global _name`.
    GlobalSym(String),
    /// A function's own label: `_name:`.
    FuncLabel(String),
    PushRbp,
    MovRbpRsp,
    /// Reserves the frame: `sub rsp, size`.
    SubRsp(u64),
    MovRspRbp,
    PopRbp,
    Ret,
    /// Loads an integer constant into the result register.
    MovRaxImm(i64),
    /// Loads a variable's stack slot: `mov rax, [rbp - off]`.
    LoadVar(u64),
    /// Stores the result register into a stack slot: `mov [rbp - off], rax`.
    StoreVar(u64),
    /// Loads the address of the pooled string literal with this index.
    LeaRaxStr(usize),
    PushRax,
    PopRcx,
    /// Pops into the argument register with this position (0 through 5).
    PopArg(u64),
    /// Spills the incoming argument register `idx` into a stack slot.
    SpillArg { idx: u64, off: u64 },
    MovRsiRax,
    /// Loads the integer format string's address into the first argument.
    LeaRdiFmtInt,
    /// Loads the string format string's address into the first argument.
    LeaRdiFmtStr,
    /// Clears the result register, also the variadic float count.
    ZeroRax,
    AddRaxRcx,
    SubRcxRax,
    MovRaxRcx,
    ImulRaxRcx,
    MovRbxRax,
    ZeroRdx,
    IdivRbx,
    /// Compares the left operand against the right: `cmp rcx, rax`.
    CmpRcxRax,
    /// Compares the result register against zero.
    CmpRaxZero,
    /// Materializes a comparison into the low result byte.
    SetCmp(CmpKind),
    MovzxRaxAl,
    /// Defines a generated label.
    LabelDef(LabelId),
    Jmp(LabelId),
    Je(LabelId),
    /// Calls a defined function: `call _name`.
    CallFn(String),
    /// Calls the native formatted-print routine.
    CallPrintf,
    /// Calls the external fetch routine.
    CallFetch,
}

/// The mathematical image of an `Instr`: names become character
/// sequences.
pub enum InstrView {
    GlobalSym(Seq<char>),
    FuncLabel(Seq<char>),
    PushRbp,
    MovRbpRsp,
    SubRsp(u64),
    MovRspRbp,
    PopRbp,
    Ret,
    MovRaxImm(i64),
    LoadVar(u64),
    StoreVar(u64),
    LeaRaxStr(usize),
    PushRax,
    PopRcx,
    PopArg(u64),
    SpillArg { idx: u64, off: u64 },
    MovRsiRax,
    LeaRdiFmtInt,
    LeaRdiFmtStr,
    ZeroRax,
    AddRaxRcx,
    SubRcxRax,
    MovRaxRcx,
    ImulRaxRcx,
    MovRbxRax,
    ZeroRdx,
    IdivRbx,
    CmpRcxRax,
    CmpRaxZero,
    SetCmp(CmpKind),
    MovzxRaxAl,
    LabelDef(LabelId),
    Jmp(LabelId),
    Je(LabelId),
    CallFn(Seq<char>),
    CallPrintf,
    CallFetch,
}

impl View for Instr {
    type V = InstrView;

    open spec fn view(&self) -> InstrView {
        match self {
            Instr::GlobalSym(s) => InstrView::GlobalSym(s@),
            Instr::FuncLabel(s) => InstrView::FuncLabel(s@),
            Instr::PushRbp => InstrView::PushRbp,
            Instr::MovRbpRsp => InstrView::MovRbpRsp,
            Instr::SubRsp(n) => InstrView::SubRsp(*n),
            Instr::MovRspRbp => InstrView::MovRspRbp,
            Instr::PopRbp => InstrView::PopRbp,
            Instr::Ret => InstrView::Ret,
            Instr::MovRaxImm(v) => InstrView::MovRaxImm(*v),
            Instr::LoadVar(o) => InstrView::LoadVar(*o),
            Instr::StoreVar(o) => InstrView::StoreVar(*o),
            Instr::LeaRaxStr(i) => InstrView::LeaRaxStr(*i),
            Instr::PushRax => InstrView::PushRax,
            Instr::PopRcx => InstrView::PopRcx,
            Instr::PopArg(i) => InstrView::PopArg(*i),
            Instr::SpillArg { idx, off } => InstrView::SpillArg { idx: *idx, off: *off },
            Instr::MovRsiRax => InstrView::MovRsiRax,
            Instr::LeaRdiFmtInt => InstrView::LeaRdiFmtInt,
            Instr::LeaRdiFmtStr => InstrView::LeaRdiFmtStr,
            Instr::ZeroRax => InstrView::ZeroRax,
            Instr::AddRaxRcx => InstrView::AddRaxRcx,
            Instr::SubRcxRax => InstrView::SubRcxRax,
            Instr::MovRaxRcx => InstrView::MovRaxRcx,
            Instr::ImulRaxRcx => InstrView::ImulRaxRcx,
            Instr::MovRbxRax => InstrView::MovRbxRax,
            Instr::ZeroRdx => InstrView::ZeroRdx,
            Instr::IdivRbx => InstrView::IdivRbx,
            Instr::CmpRcxRax => InstrView::CmpRcxRax,
            Instr::CmpRaxZero => InstrView::CmpRaxZero,
            Instr::SetCmp(k) => InstrView::SetCmp(*k),
            Instr::MovzxRaxAl => InstrView::MovzxRaxAl,
            Instr::LabelDef(l) => InstrView::LabelDef(*l),
            Instr::Jmp(l) => InstrView::Jmp(*l),
            Instr::Je(l) => InstrView::Je(*l),
            Instr::CallFn(s) => InstrView::CallFn(s@),
            Instr::CallPrintf => InstrView::CallPrintf,
            Instr::CallFetch => InstrView::CallFetch,
        }
    }
}

/// The views of an instruction sequence, in order.
pub open spec fn instrs_view(s: Seq<Instr>) -> Seq<InstrView> {
    s.map_values(|i: Instr| i@)
}

/// The view of a pushed instruction vector is the pushed view sequence.
pub proof fn lemma_instrs_view_push(s: Seq<Instr>, i: Instr)
    ensures
        instrs_view(s.push(i)) == instrs_view(s).push(i@),
{
    assert(instrs_view(s.push(i)) =~= instrs_view(s).push(i@));
}

/// The view of concatenated instruction sequences is the concatenation of
/// the views.
pub proof fn lemma_instrs_view_concat(a: Seq<Instr>, b: Seq<Instr>)
    ensures
        instrs_view(a + b) == instrs_view(a) + instrs_view(b),
{
    assert(instrs_view(a + b) =~= instrs_view(a) + instrs_view(b));
}

/// The decimal digit character for a value below ten.
pub open spec fn dec_digit(d: nat) -> char {
    if d == 0 {
        '0'
    } else if d == 1 {
        '1'
    } else if d == 2 {
        '2'
    } else if d == 3 {
        '3'
    } else if d == 4 {
        '4'
    } else if d == 5 {
        '5'
    } else if d == 6 {
        '6'
    } else if d == 7 {
        '7'
    } else if d == 8 {
        '8'
    } else {
        '9'
    }
}

/// The decimal text of an unsigned value.
pub open spec fn spec_udec(n: nat) -> Seq<char>
    decreases n,
{
    if n < 10 {
        seq![dec_digit(n)]
    } else {
        spec_udec(n / 10) + seq![dec_digit(n % 10)]
    }
}

/// The decimal text of a signed value.
pub open spec fn spec_idec(n: int) -> Seq<char> {
    if n < 0 {
        seq!['-'] + spec_udec((-n) as nat)
    } else {
        spec_udec(n as nat)
    }
}

/// The one-character string for a decimal digit.
fn digit_str(d: u64) -> (s: &'static str)
    requires
        d < 10,
    ensures
        s@ == seq![dec_digit(d as nat)],
{
    if d == 0 {
        proof {
            reveal_strlit("0");
        }
        "0"
    } else if d == 1 {
        proof {
            reveal_strlit("1");
        }
        "1"
    } else if d == 2 {
        proof {
            reveal_strlit("2");
        }
        "2"
    } else if d == 3 {
        proof {
            reveal_strlit("3");
        }
        "3"
    } else if d == 4 {
        proof {
            reveal_strlit("4");
        }
        "4"
    } else if d == 5 {
        proof {
            reveal_strlit("5");
        }
        "5"
    } else if d == 6 {
        proof {
            reveal_strlit("6");
        }
        "6"
    } else if d == 7 {
        proof {
            reveal_strlit("7");
        }
        "7"
    } else if d == 8 {
        proof {
            reveal_strlit("8");
        }
        "8"
    } else {
        proof {
            reveal_strlit("9");
        }
        "9"
    }
}

/// The decimal text of an unsigned value, exactly `spec_udec`.
pub fn u64_dec(n: u64) -> (s: String)
    ensures
        s@ == spec_udec(n as nat),
    decreases n,
{
    if n < 10 {
        String::from_str(digit_str(n))
    } else {
        let mut s = u64_dec(n / 10);
        s.append(digit_str(n % 10));
        s
    }
}

/// The decimal text of a signed value, exactly `spec_idec`.
pub fn i64_dec(n: i64) -> (s: String)
    ensures
        s@ == spec_idec(n as int),
{
    if n >= 0 {
        u64_dec(n as u64)
    } else {
        let mag: u64 = ((-(n + 1)) as u64) + 1;
        let mut s = String::from_str("-");
        proof {
            reveal_strlit("-");
            assert("-"@ =~= seq!['-']);
        }
        let d = u64_dec(mag);
        s.append(d.as_str());
        s
    }
}

/// The escape of one character inside a data-section string entry: a
/// quote becomes a backslash-quote pair, anything else stands verbatim.
pub open spec fn esc_char(c: char) -> Seq<char> {
    if c == '"' {
        seq!['\\', '"']
    } else {
        seq![c]
    }
}

/// The escaped text of a string literal, character by character.
pub open spec fn spec_escape(s: Seq<char>) -> Seq<char>
    decreases s.len(),
{
    if s.len() == 0 {
        Seq::empty()
    } else {
        spec_escape(s.drop_last()) + esc_char(s.last())
    }
}

/// Escapes a string literal's text for its data-section entry, exactly
/// `spec_escape`.
pub fn escape_text(s: &String) -> (r: String)
    ensures
        r@ == spec_escape(s@),
{
    let n = s.as_str().unicode_len();
    let mut out = String::new();
    proof {
        assert(s@.subrange(0, 0) =~= Seq::<char>::empty());
    }
    let mut i: usize = 0;
    while i < n
        invariant
            n == s@.len(),
            i <= n,
            out@ == spec_escape(s@.subrange(0, i as int)),
        decreases n - i,
    {
        let ghost pre = s@.subrange(0, i as int);
        let ghost pre1 = s@.subrange(0, i as int + 1);
        proof {
            assert(pre1.drop_last() =~= pre);
            assert(pre1.last() == s@[i as int]);
        }
        let c = s.as_str().get_char(i);
        if c == '"' {
            out.append("\\\"");
            proof {
                reveal_strlit("\\\"");
                assert("\\\""@ =~= seq!['\\', '"']);
            }
        } else {
            let piece = s.as_str().substring_char(i, i + 1);
            proof {
                assert(piece@ =~= seq![s@[i as int]]);
            }
            out.append(piece);
        }
        i = i + 1;
    }
    proof {
        assert(s@.subrange(0, n as int) =~= s@);
    }
    out
}

/// The text prefix of a label category.
pub open spec fn cat_prefix(cat: LabelCat) -> Seq<char> {
    match cat {
        LabelCat::Endif => "endif"@,
        LabelCat::Else => "else"@,
        LabelCat::WhileStart => "while_start"@,
        LabelCat::WhileEnd => "while_end"@,
        LabelCat::Epilogue => "epilogue"@,
    }
}

/// The text of a generated label: its category prefix, an underscore,
/// and its number.
pub open spec fn spec_label(l: LabelId) -> Seq<char> {
    cat_prefix(l.cat) + "_"@ + spec_udec(l.n as nat)
}

/// The text of a generated label, exactly `spec_label`.
pub fn label_text(l: LabelId) -> (s: String)
    ensures
        s@ == spec_label(l),
{
    let mut s = match l.cat {
        LabelCat::Endif => String::from_str("endif"),
        LabelCat::Else => String::from_str("else"),
        LabelCat::WhileStart => String::from_str("while_start"),
        LabelCat::WhileEnd => String::from_str("while_end"),
        LabelCat::Epilogue => String::from_str("epilogue"),
    };
    s.append("_");
    let d = u64_dec(l.n);
    s.append(d.as_str());
    s
}

/// The register for argument position `i` in the fixed calling sequence.
pub open spec fn arg_reg(i: int) -> Seq<char> {
    if i == 0 {
        "rdi"@
    } else if i == 1 {
        "rsi"@
    } else if i == 2 {
        "rdx"@
    } else if i == 3 {
        "rcx"@
    } else if i == 4 {
        "r8"@
    } else {
        "r9"@
    }
}

/// The register name for argument position `i`, exactly `arg_reg`.
fn arg_reg_str(i: u64) -> (s: &'static str)
    ensures
        s@ == arg_reg(i as int),
{
    if i == 0 {
        "rdi"
    } else if i == 1 {
        "rsi"
    } else if i == 2 {
        "rdx"
    } else if i == 3 {
        "rcx"
    } else if i == 4 {
        "r8"
    } else {
        "r9"
    }
}

/// The exact text line of one instruction.
pub open spec fn spec_render(iv: InstrView) -> Seq<char> {
    match iv {
        InstrView::GlobalSym(name) => "global _"@ + name,
        InstrView::FuncLabel(name) => "_"@ + name + ":"@,
        InstrView::PushRbp => "    push rbp"@,
        InstrView::MovRbpRsp => "    mov rbp, rsp"@,
        InstrView::SubRsp(n) => "    sub rsp, "@ + spec_udec(n as nat),
        InstrView::MovRspRbp => "    mov rsp, rbp"@,
        InstrView::PopRbp => "    pop rbp"@,
        InstrView::Ret => "    ret"@,
        InstrView::MovRaxImm(v) => "    mov rax, "@ + spec_idec(v as int),
        InstrView::LoadVar(o) => "    mov rax, [rbp - "@ + spec_udec(o as nat) + "]"@,
        InstrView::StoreVar(o) => "    mov [rbp - "@ + spec_udec(o as nat) + "], rax"@,
        InstrView::LeaRaxStr(i) => "    lea rax, [rel str_"@ + spec_udec(i as nat) + "]"@,
        InstrView::PushRax => "    push rax"@,
        InstrView::PopRcx => "    pop rcx"@,
        InstrView::PopArg(i) => "    pop "@ + arg_reg(i as int),
        InstrView::SpillArg { idx, off } => "    mov [rbp - "@ + spec_udec(off as nat) + "], "@
            + arg_reg(idx as int),
        InstrView::MovRsiRax => "    mov rsi, rax"@,
        InstrView::LeaRdiFmtInt => "    lea rdi, [rel fmt]"@,
        InstrView::LeaRdiFmtStr => "    lea rdi, [rel fmt_str]"@,
        InstrView::ZeroRax => "    mov rax, 0"@,
        InstrView::AddRaxRcx => "    add rax, rcx"@,
        InstrView::SubRcxRax => "    sub rcx, rax"@,
        InstrView::MovRaxRcx => "    mov rax, rcx"@,
        InstrView::ImulRaxRcx => "    imul rax, rcx"@,
        InstrView::MovRbxRax => "    mov rbx, rax"@,
        InstrView::ZeroRdx => "    mov rdx, 0"@,
        InstrView::IdivRbx => "    idiv rbx"@,
        InstrView::CmpRcxRax => "    cmp rcx, rax"@,
        InstrView::CmpRaxZero => "    cmp rax, 0"@,
        InstrView::SetCmp(k) => match k {
            CmpKind::Eq => "    sete al"@,
            CmpKind::Ne => "    setne al"@,
            CmpKind::Lt => "    setl al"@,
            CmpKind::Le => "    setle al"@,
            CmpKind::Gt => "    setg al"@,
        },
        InstrView::MovzxRaxAl => "    movzx rax, al"@,
        InstrView::LabelDef(l) => spec_label(l) + ":"@,
        InstrView::Jmp(l) => "    jmp "@ + spec_label(l),
        InstrView::Je(l) => "    je "@ + spec_label(l),
        InstrView::CallFn(name) => "    call _"@ + name,
        InstrView::CallPrintf => "    call _printf"@,
        InstrView::CallFetch => "    call _fetch"@,
    }
}

/// Renders one instruction to its text line, exactly `spec_render`.
pub fn render_instr(i: &Instr) -> (s: String)
    ensures
        s@ == spec_render(i@),
{
    match i {
        Instr::GlobalSym(name) => {
            let mut s = String::from_str("global _");
            s.append(name.as_str());
            s
        },
        Instr::FuncLabel(name) => {
            let mut s = String::from_str("_");
            s.append(name.as_str());
            s.append(":");
            s
        },
        Instr::PushRbp => String::from_str("    push rbp"),
        Instr::MovRbpRsp => String::from_str("    mov rbp, rsp"),
        Instr::SubRsp(n) => {
            let mut s = String::from_str("    sub rsp, ");
            let d = u64_dec(*n);
            s.append(d.as_str());
            s
        },
        Instr::MovRspRbp => String::from_str("    mov rsp, rbp"),
        Instr::PopRbp => String::from_str("    pop rbp"),
        Instr::Ret => String::from_str("    ret"),
        Instr::MovRaxImm(v) => {
            let mut s = String::from_str("    mov rax, ");
            let d = i64_dec(*v);
            s.append(d.as_str());
            s
        },
        Instr::LoadVar(o) => {
            let mut s = String::from_str("    mov rax, [rbp - ");
            let d = u64_dec(*o);
            s.append(d.as_str());
            s.append("]");
            s
        },
        Instr::StoreVar(o) => {
            let mut s = String::from_str("    mov [rbp - ");
            let d = u64_dec(*o);
            s.append(d.as_str());
            s.append("], rax");
            s
        },
        Instr::LeaRaxStr(i0) => {
            let mut s = String::from_str("    lea rax, [rel str_");
            let d = u64_dec(*i0 as u64);
            s.append(d.as_str());
            s.append("]");
            s
        },
        Instr::PushRax => String::from_str("    push rax"),
        Instr::PopRcx => String::from_str("    pop rcx"),
        Instr::PopArg(i0) => {
            let mut s = String::from_str("    pop ");
            s.append(arg_reg_str(*i0));
            s
        },
        Instr::SpillArg { idx, off } => {
            let mut s = String::from_str("    mov [rbp - ");
            let d = u64_dec(*off);
            s.append(d.as_str());
            s.append("], ");
            s.append(arg_reg_str(*idx));
            s
        },
        Instr::MovRsiRax => String::from_str("    mov rsi, rax"),
        Instr::LeaRdiFmtInt => String::from_str("    lea rdi, [rel fmt]"),
        Instr::LeaRdiFmtStr => String::from_str("    lea rdi, [rel fmt_str]"),
        Instr::ZeroRax => String::from_str("    mov rax, 0"),
        Instr::AddRaxRcx => String::from_str("    add rax, rcx"),
        Instr::SubRcxRax => String::from_str("    sub rcx, rax"),
        Instr::MovRaxRcx => String::from_str("    mov rax, rcx"),
        Instr::ImulRaxRcx => String::from_str("    imul rax, rcx"),
        Instr::MovRbxRax => String::from_str("    mov rbx, rax"),
        Instr::ZeroRdx => String::from_str("    mov rdx, 0"),
        Instr::IdivRbx => String::from_str("    idiv rbx"),
        Instr::CmpRcxRax => String::from_str("    cmp rcx, rax"),
        Instr::CmpRaxZero => String::from_str("    cmp rax, 0"),
        Instr::SetCmp(k) => match k {
            CmpKind::Eq => String::from_str("    sete al"),
            CmpKind::Ne => String::from_str("    setne al"),
            CmpKind::Lt => String::from_str("    setl al"),
            CmpKind::Le => String::from_str("    setle al"),
            CmpKind::Gt => String::from_str("    setg al"),
        },
        Instr::MovzxRaxAl => String::from_str("    movzx rax, al"),
        Instr::LabelDef(l) => {
            let mut s = label_text(*l);
            s.append(":");
            s
        },
        Instr::Jmp(l) => {
            let mut s = String::from_str("    jmp ");
            let t = label_text(*l);
            s.append(t.as_str());
            s
        },
        Instr::Je(l) => {
            let mut s = String::from_str("    je ");
            let t = label_text(*l);
            s.append(t.as_str());
            s
        },
        Instr::CallFn(name) => {
            let mut s = String::from_str("    call _");
            s.append(name.as_str());
            s
        },
        Instr::CallPrintf => String::from_str("    call _printf"),
        Instr::CallFetch => String::from_str("    call _fetch"),
    }
}

} // verus!
