//! An executable semantics for the generated instructions: a small
//! register machine with a qword stack, used to state and prove what the
//! arithmetic snippets compute and to execute generated programs in
//! tests.
//!
//! The model keeps the set-on-condition byte in a register of its own,
//! models comparison flags as the pair of compared values, and treats
//! string and format addresses as distinguished integer handles.  The
//! signed divide takes its dividend from the high and low halves as the
//! hardware does, but models only a zero or all-ones high half; other
//! high halves fault.  Frame reservations are capped at a model limit.
//! `spec_step_basic` is the meaning of one non-control instruction;
//! `step_basic` is proved to implement it exactly.

use vstd::prelude::*;
use vstd::string::*;
use vstd::arithmetic::div_mod::lemma_fundamental_div_mod;
use crate::emit::{Instr, InstrView, CmpKind, LabelId};

verus! {

/// The address handle of the pooled string literal with index `i`.
pub open spec fn str_handle(i: int) -> int {
    0x100_0000_0000 + i
}

/// The address handle of the integer format string.
pub const FMT_INT_ADDR: i64 = 0xF0_0000_0001;

/// The address handle of the string format string.
pub const FMT_STR_ADDR: i64 = 0xF0_0000_0002;

/// The address handle an external fetch returns.
pub const FETCH_RESULT_ADDR: i64 = 0xF0_0000_0003;

/// The largest frame reservation the model executes.
pub const MAX_MODEL_FRAME: u64 = 65536;

/// A recorded interaction with a native routine.
#[derive(Debug, Clone, Copy, PartialEq, Eq, Structural)]
pub enum Event {
    /// A print through the integer format, with the printed value.
    PrintInt(i64),
    /// A print through the string format, with the printed handle.
    PrintStr(i64),
    /// An external fetch with its three argument values.
    Fetch { method: i64, url: i64, body: i64 },
}

/// The machine: the registers the generated code uses, the
/// set-on-condition byte, the stack (one qword per entry, the top at the
/// end), the frame base as a stack index, the last comparison, and the
/// recorded native-routine events.
#[derive(Debug)]
pub struct Machine {
    pub rax: i64,
    pub rbx: i64,
    pub rcx: i64,
    pub rdx: i64,
    pub rdi: i64,
    pub rsi: i64,
    pub r8: i64,
    pub r9: i64,
    pub al: u8,
    pub stack: Vec<i64>,
    pub rbp: usize,
    pub cmp: Option<(i64, i64)>,
    pub events: Vec<Event>,
}

/// The mathematical image of the machine.
pub struct MachineView {
    pub rax: i64,
    pub rbx: i64,
    pub rcx: i64,
    pub rdx: i64,
    pub rdi: i64,
    pub rsi: i64,
    pub r8: i64,
    pub r9: i64,
    pub al: u8,
    pub stack: Seq<i64>,
    pub rbp: int,
    pub cmp: Option<(i64, i64)>,
    pub events: Seq<Event>,
}

impl View for Machine {
    type V = MachineView;

    open spec fn view(&self) -> MachineView {
        MachineView {
            rax: self.rax,
            rbx: self.rbx,
            rcx: self.rcx,
            rdx: self.rdx,
            rdi: self.rdi,
            rsi: self.rsi,
            r8: self.r8,
            r9: self.r9,
            al: self.al,
            stack: self.stack@,
            rbp: self.rbp as int,
            cmp: self.cmp,
            events: self.events@,
        }
    }
}

/// The value of an argument-register position.
pub open spec fn arg_reg_val(m: MachineView, i: int) -> i64 {
    if i == 0 {
        m.rdi
    } else if i == 1 {
        m.rsi
    } else if i == 2 {
        m.rdx
    } else if i == 3 {
        m.rcx
    } else if i == 4 {
        m.r8
    } else {
        m.r9
    }
}

/// Truncating signed division, as the hardware divide computes it.
pub open spec fn spec_tdiv(a: int, b: int) -> int {
    if a >= 0 && b > 0 {
        a / b
    } else if a >= 0 && b < 0 {
        -(a / -b)
    } else if a < 0 && b > 0 {
        -((-a) / b)
    } else {
        (-a) / (-b)
    }
}

/// The matching truncating remainder: what the divide leaves in the
/// high half.
pub open spec fn spec_tmod(a: int, b: int) -> int {
    a - spec_tdiv(a, b) * b
}

/// The 128-bit dividend the divide reads from the high and low halves:
/// defined for a zero or all-ones high half only.
pub open spec fn dividend_of(rdx: i64, rax: i64) -> Option<int> {
    if rdx == 0 {
        if rax >= 0 {
            Some(rax as int)
        } else {
            Some(0x1_0000_0000_0000_0000 + rax)
        }
    } else if rdx == -1 && rax < 0 {
        Some(rax as int)
    } else {
        None
    }
}

/// Whether a comparison kind holds of a compared pair.
pub open spec fn cmp_holds(k: CmpKind, a: i64, b: i64) -> bool {
    match k {
        CmpKind::Eq => a == b,
        CmpKind::Ne => a != b,
        CmpKind::Lt => a < b,
        CmpKind::Le => a <= b,
        CmpKind::Gt => a > b,
    }
}

/// The stack index of the slot `off` bytes below the frame base, if the
/// offset is 8-byte aligned and the slot exists.
pub open spec fn slot_index(m: MachineView, off: u64) -> Option<int> {
    if off < 8 || off % 8 != 0 {
        None
    } else {
        let idx = m.rbp + off as int / 8 - 1;
        if 0 <= idx < m.stack.len() {
            Some(idx)
        } else {
            None
        }
    }
}

/// The meaning of one non-control instruction: the next machine state,
/// or `None` on a fault or an instruction the straight-line model does
/// not cover.
pub open spec fn spec_step_basic(m: MachineView, iv: InstrView) -> Option<MachineView> {
    match iv {
        InstrView::MovRaxImm(v) => Some(MachineView { rax: v, ..m }),
        InstrView::LoadVar(off) => match slot_index(m, off) {
            Some(idx) => Some(MachineView { rax: m.stack[idx], ..m }),
            None => None,
        },
        InstrView::StoreVar(off) => match slot_index(m, off) {
            Some(idx) => Some(MachineView { stack: m.stack.update(idx, m.rax), ..m }),
            None => None,
        },
        InstrView::LeaRaxStr(i) => {
            if i <= 0xFFFF_FFFF {
                Some(MachineView { rax: str_handle(i as int) as i64, ..m })
            } else {
                None
            }
        },
        InstrView::PushRax => Some(MachineView { stack: m.stack.push(m.rax), ..m }),
        InstrView::PopRcx => {
            if m.stack.len() == 0 {
                None
            } else {
                Some(
                    MachineView {
                        rcx: m.stack.last(),
                        stack: m.stack.drop_last(),
                        ..m
                    },
                )
            }
        },
        InstrView::PopArg(i) => {
            if m.stack.len() == 0 || i > 5 {
                None
            } else {
                let v = m.stack.last();
                let m2 = MachineView { stack: m.stack.drop_last(), ..m };
                Some(
                    if i == 0 {
                        MachineView { rdi: v, ..m2 }
                    } else if i == 1 {
                        MachineView { rsi: v, ..m2 }
                    } else if i == 2 {
                        MachineView { rdx: v, ..m2 }
                    } else if i == 3 {
                        MachineView { rcx: v, ..m2 }
                    } else if i == 4 {
                        MachineView { r8: v, ..m2 }
                    } else {
                        MachineView { r9: v, ..m2 }
                    },
                )
            }
        },
        InstrView::SpillArg { idx, off } => {
            if idx > 5 {
                None
            } else {
                match slot_index(m, off) {
                    Some(si) => Some(
                        MachineView { stack: m.stack.update(si, arg_reg_val(m, idx as int)), ..m },
                    ),
                    None => None,
                }
            }
        },
        InstrView::MovRsiRax => Some(MachineView { rsi: m.rax, ..m }),
        InstrView::LeaRdiFmtInt => Some(MachineView { rdi: FMT_INT_ADDR, ..m }),
        InstrView::LeaRdiFmtStr => Some(MachineView { rdi: FMT_STR_ADDR, ..m }),
        InstrView::ZeroRax => Some(MachineView { rax: 0, ..m }),
        InstrView::AddRaxRcx => Some(
            MachineView { rax: vstd::wrapping::i64_specs::wrapping_add(m.rax, m.rcx), ..m },
        ),
        InstrView::SubRcxRax => Some(
            MachineView { rcx: vstd::wrapping::i64_specs::wrapping_sub(m.rcx, m.rax), ..m },
        ),
        InstrView::MovRaxRcx => Some(MachineView { rax: m.rcx, ..m }),
        InstrView::ImulRaxRcx => Some(
            MachineView { rax: vstd::wrapping::i64_specs::wrapping_mul(m.rax, m.rcx), ..m },
        ),
        InstrView::MovRbxRax => Some(MachineView { rbx: m.rax, ..m }),
        InstrView::ZeroRdx => Some(MachineView { rdx: 0, ..m }),
        InstrView::IdivRbx => {
            if m.rbx == 0 {
                None
            } else {
                match dividend_of(m.rdx, m.rax) {
                    Some(d) => {
                        let q = spec_tdiv(d, m.rbx as int);
                        if i64::MIN <= q <= i64::MAX {
                            Some(
                                MachineView {
                                    rax: q as i64,
                                    rdx: spec_tmod(d, m.rbx as int) as i64,
                                    ..m
                                },
                            )
                        } else {
                            None
                        }
                    },
                    None => None,
                }
            }
        },
        InstrView::CmpRcxRax => Some(MachineView { cmp: Some((m.rcx, m.rax)), ..m }),
        InstrView::CmpRaxZero => Some(MachineView { cmp: Some((m.rax, 0)), ..m }),
        InstrView::SetCmp(k) => match m.cmp {
            Some((a, b)) => Some(
                MachineView {
                    al: if cmp_holds(k, a, b) {
                        1
                    } else {
                        0
                    },
                    ..m
                },
            ),
            None => None,
        },
        InstrView::MovzxRaxAl => Some(MachineView { rax: m.al as i64, ..m }),
        InstrView::PushRbp => {
            if m.rbp > i64::MAX {
                None
            } else {
                Some(MachineView { stack: m.stack.push(m.rbp as i64), ..m })
            }
        },
        InstrView::MovRbpRsp => Some(MachineView { rbp: m.stack.len() as int, ..m }),
        InstrView::SubRsp(n) => {
            if n > MAX_MODEL_FRAME {
                None
            } else {
                Some(
                    MachineView {
                        stack: m.stack + Seq::new((n / 8) as nat, |i: int| 0i64),
                        ..m
                    },
                )
            }
        },
        InstrView::MovRspRbp => {
            if 0 <= m.rbp <= m.stack.len() {
                Some(MachineView { stack: m.stack.take(m.rbp), ..m })
            } else {
                None
            }
        },
        InstrView::PopRbp => {
            if m.stack.len() == 0 || m.stack.last() < 0 || m.stack.last() > usize::MAX {
                None
            } else {
                Some(
                    MachineView {
                        rbp: m.stack.last() as int,
                        stack: m.stack.drop_last(),
                        ..m
                    },
                )
            }
        },
        _ => None,
    }
}

/// Running a straight-line instruction sequence, one step at a time.
pub open spec fn run_line(m: MachineView, code: Seq<InstrView>) -> Option<MachineView>
    decreases code.len(),
{
    if code.len() == 0 {
        Some(m)
    } else {
        match spec_step_basic(m, code[0]) {
            Some(m2) => run_line(m2, code.drop_first()),
            None => None,
        }
    }
}

/// The magnitude of a negative value, exactly.
fn neg_mag(x: i64) -> (r: u64)
    requires
        x < 0,
    ensures
        r as int == -(x as int),
{
    ((-(x + 1)) as u64) + 1
}

/// The hardware divide on the modeled dividends: the quotient and
/// remainder, or `None` on a fault.
fn exec_idiv(rdx: i64, rax: i64, rbx: i64) -> (r: Option<(i64, i64)>)
    ensures
        r == ({
            if rbx == 0 {
                None
            } else {
                match dividend_of(rdx, rax) {
                    Some(d) => {
                        let q = spec_tdiv(d, rbx as int);
                        if i64::MIN <= q <= i64::MAX {
                            Some((q as i64, spec_tmod(d, rbx as int) as i64))
                        } else {
                            None
                        }
                    },
                    None => None,
                }
            }
        }),
{
    if rbx == 0 {
        return None;
    }
    if rdx == 0 {
        let du: u64 = if rax >= 0 {
            rax as u64
        } else {
            let mag = neg_mag(rax);
            0u64.wrapping_sub(mag)
        };
        proof {
            if rax >= 0 {
                assert(du as int == rax as int);
            } else {
                assert(du as int == 0x1_0000_0000_0000_0000 + rax);
            }
        }
        let ghost d: int = du as int;
        if rbx > 0 {
            let bu: u64 = rbx as u64;
            let qu: u64 = du / bu;
            let ru: u64 = du % bu;
            proof {
                lemma_fundamental_div_mod(d, bu as int);
                assert(qu as int == d / (bu as int));
                assert(ru as int == d % (bu as int));
                assert(spec_tdiv(d, rbx as int) == qu as int);
                assert(spec_tmod(d, rbx as int) == ru as int);
            }
            if qu <= 0x7FFF_FFFF_FFFF_FFFFu64 {
                Some((qu as i64, ru as i64))
            } else {
                None
            }
        } else {
            let bu: u64 = neg_mag(rbx);
            let qu: u64 = du / bu;
            let ru: u64 = du % bu;
            proof {
                lemma_fundamental_div_mod(d, bu as int);
                assert(qu as int == d / (bu as int));
                assert(ru as int == d % (bu as int));
                assert(spec_tdiv(d, rbx as int) == -(qu as int));
                assert((-(qu as int)) * (rbx as int) == (qu as int) * (bu as int))
                    by (nonlinear_arith)
                    requires
                        rbx as int == -(bu as int),
                ;
                assert(spec_tmod(d, rbx as int) == ru as int);
            }
            if qu == 0 {
                Some((0, ru as i64))
            } else if qu <= 0x7FFF_FFFF_FFFF_FFFFu64 {
                Some((-(qu as i64), ru as i64))
            } else if qu == 0x8000_0000_0000_0000u64 {
                Some((i64::MIN, ru as i64))
            } else {
                None
            }
        }
    } else if rdx == -1 && rax < 0 {
        let du: u64 = neg_mag(rax);
        let ghost d: int = rax as int;
        if rbx > 0 {
            let bu: u64 = rbx as u64;
            let qu: u64 = du / bu;
            let ru: u64 = du % bu;
            proof {
                lemma_fundamental_div_mod(du as int, bu as int);
                assert(qu as int == du as int / (bu as int));
                assert(ru as int == du as int % (bu as int));
                assert(d == -(du as int));
                assert(spec_tdiv(d, rbx as int) == -(qu as int));
                assert((-(qu as int)) * (rbx as int) == -((qu as int) * (bu as int)))
                    by (nonlinear_arith)
                    requires
                        rbx as int == bu as int,
                ;
                assert(spec_tmod(d, rbx as int) == -(ru as int));
            }
            if qu == 0 {
                Some((0, -(ru as i64)))
            } else if qu <= 0x7FFF_FFFF_FFFF_FFFFu64 {
                Some((-(qu as i64), -(ru as i64)))
            } else if qu == 0x8000_0000_0000_0000u64 {
                Some((i64::MIN, -(ru as i64)))
            } else {
                None
            }
        } else {
            let bu: u64 = neg_mag(rbx);
            let qu: u64 = du / bu;
            let ru: u64 = du % bu;
            proof {
                lemma_fundamental_div_mod(du as int, bu as int);
                assert(qu as int == du as int / (bu as int));
                assert(ru as int == du as int % (bu as int));
                assert(d == -(du as int));
                assert(spec_tdiv(d, rbx as int) == qu as int);
                assert((qu as int) * (rbx as int) == -((qu as int) * (bu as int)))
                    by (nonlinear_arith)
                    requires
                        rbx as int == -(bu as int),
                ;
                assert(spec_tmod(d, rbx as int) == -(ru as int));
            }
            if qu <= 0x7FFF_FFFF_FFFF_FFFFu64 {
                Some((qu as i64, -(ru as i64)))
            } else {
                None
            }
        }
    } else {
        None
    }
}

impl Machine {
    /// A machine with cleared registers, an empty stack and no recorded
    /// events.
    pub fn new() -> (m: Machine)
        ensures
            m@.rax == 0 && m@.rbx == 0 && m@.rcx == 0 && m@.rdx == 0,
            m@.rdi == 0 && m@.rsi == 0 && m@.r8 == 0 && m@.r9 == 0,
            m@.al == 0,
            m@.stack == Seq::<i64>::empty(),
            m@.rbp == 0,
            m@.cmp is None,
            m@.events == Seq::<Event>::empty(),
    {
        let m = Machine {
            rax: 0,
            rbx: 0,
            rcx: 0,
            rdx: 0,
            rdi: 0,
            rsi: 0,
            r8: 0,
            r9: 0,
            al: 0,
            stack: Vec::new(),
            rbp: 0,
            cmp: None,
            events: Vec::new(),
        };
        proof {
            assert(m@.stack =~= Seq::<i64>::empty());
            assert(m@.events =~= Seq::<Event>::empty());
        }
        m
    }

    /// Executes one non-control instruction, exactly `spec_step_basic`;
    /// a `false` result is a fault.
    #[verifier::rlimit(60)]
    pub fn step_basic(&mut self, i: &Instr) -> (ok: bool)
        ensures
            match spec_step_basic(old(self)@, i@) {
                Some(mv) => ok && final(self)@ == mv,
                None => !ok,
            },
    {
        match i {
            Instr::MovRaxImm(v) => {
                self.rax = *v;
                true
            },
            Instr::LoadVar(off) => {
                let slen = self.stack.len();
                if *off < 8 || *off % 8 != 0 {
                    return false;
                }
                if *off / 8 > (usize::MAX as u64) {
                    return false;
                }
                let k = (*off / 8) as usize;
                if self.rbp > usize::MAX - k {
                    return false;
                }
                let idx = self.rbp + k - 1;
                if idx >= slen {
                    return false;
                }
                self.rax = self.stack[idx];
                true
            },
            Instr::StoreVar(off) => {
                let slen = self.stack.len();
                if *off < 8 || *off % 8 != 0 {
                    return false;
                }
                if *off / 8 > (usize::MAX as u64) {
                    return false;
                }
                let k = (*off / 8) as usize;
                if self.rbp > usize::MAX - k {
                    return false;
                }
                let idx = self.rbp + k - 1;
                if idx >= slen {
                    return false;
                }
                self.stack[idx] = self.rax;
                true
            },
            Instr::LeaRaxStr(ix) => {
                if *ix as u64 > 0xFFFF_FFFFu64 {
                    return false;
                }
                self.rax = 0x100_0000_0000i64 + (*ix as i64);
                true
            },
            Instr::PushRax => {
                let v = self.rax;
                self.stack.push(v);
                true
            },
            Instr::PopRcx => {
                match self.stack.pop() {
                    Some(v) => {
                        self.rcx = v;
                        true
                    },
                    None => false,
                }
            },
            Instr::PopArg(k) => {
                if *k > 5 {
                    return false;
                }
                match self.stack.pop() {
                    Some(v) => {
                        if *k == 0 {
                            self.rdi = v;
                        } else if *k == 1 {
                            self.rsi = v;
                        } else if *k == 2 {
                            self.rdx = v;
                        } else if *k == 3 {
                            self.rcx = v;
                        } else if *k == 4 {
                            self.r8 = v;
                        } else {
                            self.r9 = v;
                        }
                        true
                    },
                    None => false,
                }
            },
            Instr::SpillArg { idx, off } => {
                let slen = self.stack.len();
                if *idx > 5 {
                    return false;
                }
                if *off < 8 || *off % 8 != 0 {
                    return false;
                }
                if *off / 8 > (usize::MAX as u64) {
                    return false;
                }
                let k = (*off / 8) as usize;
                if self.rbp > usize::MAX - k {
                    return false;
                }
                let si = self.rbp + k - 1;
                if si >= slen {
                    return false;
                }
                let v = if *idx == 0 {
                    self.rdi
                } else if *idx == 1 {
                    self.rsi
                } else if *idx == 2 {
                    self.rdx
                } else if *idx == 3 {
                    self.rcx
                } else if *idx == 4 {
                    self.r8
                } else {
                    self.r9
                };
                self.stack[si] = v;
                true
            },
            Instr::MovRsiRax => {
                self.rsi = self.rax;
                true
            },
            Instr::LeaRdiFmtInt => {
                self.rdi = FMT_INT_ADDR;
                true
            },
            Instr::LeaRdiFmtStr => {
                self.rdi = FMT_STR_ADDR;
                true
            },
            Instr::ZeroRax => {
                self.rax = 0;
                true
            },
            Instr::AddRaxRcx => {
                self.rax = self.rax.wrapping_add(self.rcx);
                true
            },
            Instr::SubRcxRax => {
                self.rcx = self.rcx.wrapping_sub(self.rax);
                true
            },
            Instr::MovRaxRcx => {
                self.rax = self.rcx;
                true
            },
            Instr::ImulRaxRcx => {
                self.rax = self.rax.wrapping_mul(self.rcx);
                true
            },
            Instr::MovRbxRax => {
                self.rbx = self.rax;
                true
            },
            Instr::ZeroRdx => {
                self.rdx = 0;
                true
            },
            Instr::IdivRbx => {
                match exec_idiv(self.rdx, self.rax, self.rbx) {
                    Some((q, rem)) => {
                        self.rax = q;
                        self.rdx = rem;
                        true
                    },
                    None => false,
                }
            },
            Instr::CmpRcxRax => {
                self.cmp = Some((self.rcx, self.rax));
                true
            },
            Instr::CmpRaxZero => {
                self.cmp = Some((self.rax, 0));
                true
            },
            Instr::SetCmp(k) => {
                match self.cmp {
                    Some((a, b)) => {
                        let holds = match k {
                            CmpKind::Eq => a == b,
                            CmpKind::Ne => a != b,
                            CmpKind::Lt => a < b,
                            CmpKind::Le => a <= b,
                            CmpKind::Gt => a > b,
                        };
                        self.al = if holds {
                            1
                        } else {
                            0
                        };
                        true
                    },
                    None => false,
                }
            },
            Instr::MovzxRaxAl => {
                self.rax = self.al as i64;
                true
            },
            Instr::PushRbp => {
                if self.rbp as u64 > 0x7FFF_FFFF_FFFF_FFFFu64 {
                    return false;
                }
                let v = self.rbp as i64;
                self.stack.push(v);
                true
            },
            Instr::MovRbpRsp => {
                self.rbp = self.stack.len();
                true
            },
            Instr::SubRsp(n) => {
                if *n > MAX_MODEL_FRAME {
                    return false;
                }
                let slots = (*n / 8) as usize;
                let ghost base = self.stack@;
                let mut j: usize = 0;
                while j < slots
                    invariant
                        j <= slots,
                        self.stack@ == base + Seq::new(j as nat, |i: int| 0i64),
                        *self == (Machine { stack: self.stack, ..*old(self) }),
                    decreases slots - j,
                {
                    let ghost pre = self.stack@;
                    self.stack.push(0);
                    proof {
                        assert(self.stack@ =~= base + Seq::new((j + 1) as nat, |i: int| 0i64));
                    }
                    j = j + 1;
                }
                proof {
                    assert(self.stack@ =~= base + Seq::new((*n / 8) as nat, |i: int| 0i64));
                }
                true
            },
            Instr::MovRspRbp => {
                if self.rbp > self.stack.len() {
                    return false;
                }
                let r = self.rbp;
                self.stack.truncate(r);
                proof {
                    assert(self.stack@ =~= old(self)@.stack.take(old(self)@.rbp));
                }
                true
            },
            Instr::PopRbp => {
                if self.stack.len() == 0 {
                    return false;
                }
                match self.stack.pop() {
                    Some(v) => {
                        if v < 0 || v as u64 > usize::MAX as u64 {
                            return false;
                        }
                        self.rbp = v as usize;
                        true
                    },
                    None => false,
                }
            },
            _ => false,
        }
    }
}

/// The outcome of running a generated program on the model.
#[derive(Debug)]
pub enum RunResult {
    /// The entry function returned; the machine holds the result and
    /// the recorded events.
    Finished(Machine),
    /// The program faulted: an out-of-model instruction, a missing
    /// label, or a machine fault.
    Fault,
    /// The fuel ran out before the program returned.
    OutOfFuel,
}

/// The index of a function's own label in the instruction sequence.
fn find_func(code: &Vec<Instr>, name: &String) -> (r: Option<usize>)
    ensures
        match r {
            Some(i) => i < code@.len(),
            None => true,
        },
{
    let n = code.len();
    let mut i: usize = 0;
    while i < n
        invariant
            i <= n,
            n == code@.len(),
        decreases n - i,
    {
        match &code[i] {
            Instr::FuncLabel(s) => {
                if s.eq(name) {
                    return Some(i);
                }
            },
            _ => {},
        }
        i = i + 1;
    }
    None
}

/// The index of a generated label's definition, if any.
fn find_label(code: &Vec<Instr>, l: LabelId) -> (r: Option<usize>)
    ensures
        match r {
            Some(i) => i < code@.len(),
            None => true,
        },
{
    let n = code.len();
    let mut i: usize = 0;
    while i < n
        invariant
            i <= n,
            n == code@.len(),
        decreases n - i,
    {
        match &code[i] {
            Instr::LabelDef(l2) => {
                if l2.cat == l.cat && l2.n == l.n {
                    return Some(i);
                }
            },
            _ => {},
        }
        i = i + 1;
    }
    None
}

/// Runs a generated program from its entry function with the given
/// fuel, recording every native-routine interaction.  This is the
/// executable reference semantics the scenario tests run generated code
/// on; each non-control step is pinned to `spec_step_basic`.
pub fn run_program(code: &Vec<Instr>, fuel: u64) -> (r: RunResult) {
    if code.len() as u64 >= 0x7FFF_FFFFu64 {
        return RunResult::Fault;
    }
    let main_name = String::from_str("main");
    let entry = match find_func(code, &main_name) {
        Some(i) => i,
        None => {
            return RunResult::Fault;
        },
    };
    let mut m = Machine::new();
    m.stack.push(-1i64);
    let mut pc: usize = entry;
    let mut left = fuel;
    while left > 0
        invariant
            pc <= code@.len(),
            code@.len() < 0x7FFF_FFFF,
        decreases left,
    {
        left = left - 1;
        if pc >= code.len() {
            return RunResult::Fault;
        }
        match &code[pc] {
            Instr::GlobalSym(_) => {
                pc = pc + 1;
            },
            Instr::FuncLabel(_) => {
                pc = pc + 1;
            },
            Instr::LabelDef(_) => {
                pc = pc + 1;
            },
            Instr::Jmp(l) => {
                match find_label(code, *l) {
                    Some(t) => {
                        pc = t;
                    },
                    None => {
                        return RunResult::Fault;
                    },
                }
            },
            Instr::Je(l) => {
                match m.cmp {
                    None => {
                        return RunResult::Fault;
                    },
                    Some((a, b)) => {
                        if a == b {
                            match find_label(code, *l) {
                                Some(t) => {
                                    pc = t;
                                },
                                None => {
                                    return RunResult::Fault;
                                },
                            }
                        } else {
                            pc = pc + 1;
                        }
                    },
                }
            },
            Instr::CallFn(name) => {
                match find_func(code, name) {
                    Some(t) => {
                        let ret = (pc + 1) as i64;
                        m.stack.push(ret);
                        pc = t;
                    },
                    None => {
                        return RunResult::Fault;
                    },
                }
            },
            Instr::CallPrintf => {
                let ev = if m.rdi == FMT_STR_ADDR {
                    Event::PrintStr(m.rsi)
                } else {
                    Event::PrintInt(m.rsi)
                };
                m.events.push(ev);
                m.rax = 0;
                pc = pc + 1;
            },
            Instr::CallFetch => {
                m.events.push(Event::Fetch { method: m.rdi, url: m.rsi, body: m.rdx });
                m.rax = FETCH_RESULT_ADDR;
                pc = pc + 1;
            },
            Instr::Ret => {
                match m.stack.pop() {
                    None => {
                        return RunResult::Fault;
                    },
                    Some(v) => {
                        if v == -1 {
                            return RunResult::Finished(m);
                        }
                        if v < 0 {
                            return RunResult::Fault;
                        }
                        let t = v as usize;
                        if t > code.len() {
                            return RunResult::Fault;
                        }
                        pc = t;
                    },
                }
            },
            other => {
                let ok = m.step_basic(other);
                if !ok {
                    return RunResult::Fault;
                }
                pc = pc + 1;
            },
        }
    }
    RunResult::OutOfFuel
}

} // verus!
