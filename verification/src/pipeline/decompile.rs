//! Decompilation of a ScratchGraph project back to a SAIR module: one
//! void function per custom procedure, its parameters as `i32`
//! parameters, one stack slot per variable the procedure uses, and its
//! statements as blocks of SAIR instructions.

use vstd::prelude::*;

use crate::ir::builder::{
    appended, appended_value, last_block_replaced, last_instruction, opened_block, same_outside_current, terminated,
    IrBuilder,
};
use crate::ir::instruction::{Instruction, Terminator};
use crate::ir::module::last_function_index;
use crate::interpreter::machine::{instr_spec, read_spec, top, written, Machine};
use crate::interpreter::values::{int_bits_of, lemma_arithmetic_i32, Fault, RuntimeValue};
use crate::ir::types::IrType;
use vstd::arithmetic::div_mod::lemma_small_mod;
use crate::ir::value::{Constant, SsaValue, ValueId};
use crate::opt::analysis::labels_in;
use crate::ir::module::IrModule;
use crate::pipeline::scratch::{Expr, Procedure, Project, Sprite, Stmt, Value};
use crate::llvm::chars::str_equal;
use crate::strings::{decimal, owned, push_decimal, push_str};

verus! {

/// `a` comes before `b` in character order (a proper prefix comes first).
pub open spec fn text_less(a: Seq<char>, b: Seq<char>) -> bool
    decreases a.len(),
{
    if a.len() == 0 {
        b.len() > 0
    } else if b.len() == 0 {
        false
    } else if a[0] != b[0] {
        (a[0] as int) < (b[0] as int)
    } else {
        text_less(a.drop_first(), b.drop_first())
    }
}

proof fn lemma_text_less_irreflexive(a: Seq<char>)
    ensures
        !text_less(a, a),
    decreases a.len(),
{
    if a.len() > 0 {
        lemma_text_less_irreflexive(a.drop_first());
    }
}

proof fn lemma_text_less_total(a: Seq<char>, b: Seq<char>)
    ensures
        a == b || text_less(a, b) || text_less(b, a),
        !(text_less(a, b) && text_less(b, a)),
    decreases a.len(),
{
    if a.len() > 0 && b.len() > 0 && a[0] == b[0] {
        lemma_text_less_total(a.drop_first(), b.drop_first());
        if a.drop_first() == b.drop_first() {
            assert(a =~= seq![a[0]] + a.drop_first());
            assert(b =~= seq![b[0]] + b.drop_first());
            assert(a =~= b);
        }
    } else if a.len() == 0 && b.len() == 0 {
        assert(a =~= b);
    }
}

proof fn lemma_text_less_transitive(a: Seq<char>, b: Seq<char>, c: Seq<char>)
    requires
        text_less(a, b),
        text_less(b, c),
    ensures
        text_less(a, c),
    decreases a.len(),
{
    if a.len() > 0 && b.len() > 0 && c.len() > 0 && a[0] == b[0] && b[0] == c[0] {
        lemma_text_less_transitive(a.drop_first(), b.drop_first(), c.drop_first());
    }
}

/// Each of `v` comes before the next, in character order.
pub open spec fn sorted_texts(v: Seq<String>) -> bool {
    forall|i: int, j: int| 0 <= i < j < v.len() ==> text_less(#[trigger] v[i]@, #[trigger] v[j]@)
}

/// Whether `a` comes before `b` in character order.
fn text_before(a: &String, b: &String) -> (r: bool)
    ensures
        r == text_less(a@, b@),
{
    let sa = a.as_str();
    let sb = b.as_str();
    let na = sa.unicode_len();
    let nb = sb.unicode_len();
    let mut i: usize = 0;
    assert(a@.subrange(0, na as int) =~= a@);
    assert(b@.subrange(0, nb as int) =~= b@);
    while i < na && i < nb
        invariant
            sa@ == a@,
            sb@ == b@,
            na == a@.len(),
            nb == b@.len(),
            i <= na,
            i <= nb,
            text_less(a@, b@) == text_less(a@.subrange(i as int, na as int), b@.subrange(i as int, nb as int)),
        decreases na - i,
    {
        let ca = sa.get_char(i);
        let cb = sb.get_char(i);
        proof {
            let x = a@.subrange(i as int, na as int);
            let y = b@.subrange(i as int, nb as int);
            assert(x[0] == ca && y[0] == cb);
            assert(x.drop_first() =~= a@.subrange(i + 1, na as int));
            assert(y.drop_first() =~= b@.subrange(i + 1, nb as int));
        }
        if ca != cb {
            return ca < cb;
        }
        i = i + 1;
    }
    proof {
        let x = a@.subrange(i as int, na as int);
        let y = b@.subrange(i as int, nb as int);
        assert(x.len() == 0 || y.len() == 0);
    }
    i == na && i < nb
}

/// Add `name` to the sorted, repeat-free `names` unless it is there.
fn insert_name(names: &mut Vec<String>, name: &String)
    requires
        sorted_texts(old(names)@),
    ensures
        sorted_texts(final(names)@),
        labels_in(final(names)@) == labels_in(old(names)@).insert(name@),
{
    let mut p: usize = 0;
    while p < names.len() && text_before(&names[p], name)
        invariant
            p <= names@.len(),
            sorted_texts(names@),
            names@ == old(names)@,
            forall|q: int| 0 <= q < p ==> text_less(#[trigger] names@[q]@, name@),
        decreases names.len() - p,
    {
        p = p + 1;
    }
    if p < names.len() && names[p] == *name {
        proof {
            assert(labels_in(names@) =~= labels_in(names@).insert(name@));
        }
        return;
    }
    let ghost before = names@;
    proof {
        if p < before.len() {
            lemma_text_less_total(before[p as int]@, name@);
        }
    }
    names.insert(p, name.clone());
    proof {
        assert(names@ == before.insert(p as int, names@[p as int]));
        assert forall|i: int, j: int| 0 <= i < j < names@.len() implies text_less(#[trigger] names@[i]@, #[trigger] names@[j]@) by {
            if j < p {
                assert(text_less(before[i]@, before[j]@));
            } else if j == p {
                assert(text_less(before[i]@, name@));
            } else if i == p {
                if j - 1 > p {
                    assert(text_less(before[p as int]@, before[j - 1]@));
                    lemma_text_less_transitive(name@, before[p as int]@, before[j - 1]@);
                }
            } else if i < p {
                assert(text_less(before[i]@, name@));
                if p < before.len() {
                    assert(text_less(before[i]@, before[j - 1]@));
                }
            } else {
                assert(text_less(before[i - 1]@, before[j - 1]@));
            }
        }
        assert forall|x: Seq<char>| labels_in(names@).contains(x) <==> labels_in(before).insert(name@).contains(x) by {
            if labels_in(names@).contains(x) {
                let k = choose|k: int| 0 <= k < names@.len() && #[trigger] names@[k]@ == x;
                if k < p {
                    assert(before[k]@ == x);
                } else if k > p {
                    assert(before[k - 1]@ == x);
                }
            }
            if labels_in(before).contains(x) {
                let k = choose|k: int| 0 <= k < before.len() && #[trigger] before[k]@ == x;
                if k < p {
                    assert(names@[k]@ == x);
                } else {
                    assert(names@[k + 1]@ == x);
                }
            }
            if x == name@ {
                assert(names@[p as int]@ == x);
            }
        }
        assert(labels_in(names@) =~= labels_in(before).insert(name@));
    }
}

/// The variables expression `e` reads, in order.
pub open spec fn expr_vars(e: Expr) -> Seq<Seq<char>>
    decreases e,
{
    match e {
        Expr::Variable(name) => seq![name@],
        Expr::Operator { args, .. } => exprs_vars(args@),
        _ => seq![],
    }
}

/// The variables expressions `es` read, in order.
pub open spec fn exprs_vars(es: Seq<Expr>) -> Seq<Seq<char>>
    decreases es,
{
    if es.len() == 0 {
        seq![]
    } else {
        exprs_vars(es.subrange(0, es.len() - 1)) + expr_vars(es[es.len() - 1])
    }
}

/// The variables statement `s` sets, changes or reads, in order (a
/// broadcast's message is not looked at).
pub open spec fn stmt_vars(s: Stmt) -> Seq<Seq<char>>
    decreases s,
{
    match s {
        Stmt::SetVariable { var, value } => seq![var@] + expr_vars(value),
        Stmt::ChangeVariable { var, delta } => seq![var@] + expr_vars(delta),
        Stmt::Call { args, .. } => exprs_vars(args@),
        Stmt::If { condition, then_body, else_body } => expr_vars(condition) + stmts_vars(then_body@) + stmts_vars(
            else_body@,
        ),
        Stmt::Repeat { times, body } => expr_vars(times) + stmts_vars(body@),
        Stmt::RepeatUntil { condition, body } => expr_vars(condition) + stmts_vars(body@),
        Stmt::Forever { body } => stmts_vars(body@),
        _ => seq![],
    }
}

/// The variables statements `ss` set, change or read, in order.
pub open spec fn stmts_vars(ss: Seq<Stmt>) -> Seq<Seq<char>>
    decreases ss,
{
    if ss.len() == 0 {
        seq![]
    } else {
        stmts_vars(ss.subrange(0, ss.len() - 1)) + stmt_vars(ss[ss.len() - 1])
    }
}

/// The variables procedure `p` uses, each once, in character order.
pub open spec fn procedure_vars(p: Procedure, names: Seq<String>) -> bool {
    &&& sorted_texts(names)
    &&& labels_in(names) == stmts_vars(p.body@).to_set()
}

proof fn lemma_to_set_append(a: Seq<Seq<char>>, b: Seq<Seq<char>>)
    ensures
        (a + b).to_set() == a.to_set().union(b.to_set()),
{
    assert forall|x: Seq<char>| (a + b).to_set().contains(x) <==> a.to_set().union(b.to_set()).contains(x) by {
        if (a + b).to_set().contains(x) {
            let k = choose|k: int| 0 <= k < (a + b).len() && (a + b)[k] == x;
            if k < a.len() {
                assert(a[k] == x);
            } else {
                assert(b[k - a.len()] == x);
            }
        }
        if a.to_set().contains(x) {
            let k = choose|k: int| 0 <= k < a.len() && a[k] == x;
            assert((a + b)[k] == x);
        }
        if b.to_set().contains(x) {
            let k = choose|k: int| 0 <= k < b.len() && b[k] == x;
            assert((a + b)[a.len() + k] == x);
        }
    }
    assert((a + b).to_set() =~= a.to_set().union(b.to_set()));
}

fn collect_expr_vars(e: &Expr, names: &mut Vec<String>)
    requires
        sorted_texts(old(names)@),
    ensures
        sorted_texts(final(names)@),
        labels_in(final(names)@) == labels_in(old(names)@).union(expr_vars(*e).to_set()),
    decreases e,
{
    match e {
        Expr::Variable(name) => {
            insert_name(names, name);
            proof {
                assert(seq![name@][0] == name@);
                assert forall|x: Seq<char>| seq![name@].to_set().contains(x) <==> x == name@ by {
                    if seq![name@].to_set().contains(x) {
                        let k = choose|k: int| 0 <= k < 1 && seq![name@][k] == x;
                    }
                }
                assert(seq![name@].to_set() =~= set![name@]);
                assert(labels_in(old(names)@).insert(name@) =~= labels_in(old(names)@).union(set![name@]));
            }
        },
        Expr::Operator { args, .. } => {
            collect_exprs_vars(args, names);
        },
        _ => {
            proof {
                assert(labels_in(old(names)@).union(expr_vars(*e).to_set()) =~= labels_in(old(names)@));
            }
        },
    }
}

fn collect_exprs_vars(es: &Vec<Expr>, names: &mut Vec<String>)
    requires
        sorted_texts(old(names)@),
    ensures
        sorted_texts(final(names)@),
        labels_in(final(names)@) == labels_in(old(names)@).union(exprs_vars(es@).to_set()),
    decreases es@,
{
    let mut i: usize = 0;
    proof {
        assert(es@.subrange(0, 0) =~= Seq::<Expr>::empty());
        assert(labels_in(names@) =~= labels_in(old(names)@).union(exprs_vars(es@.subrange(0, 0)).to_set()));
    }
    while i < es.len()
        invariant
            i <= es@.len(),
            sorted_texts(names@),
            labels_in(names@) == labels_in(old(names)@).union(exprs_vars(es@.subrange(0, i as int)).to_set()),
        decreases es.len() - i,
    {
        let ghost before = labels_in(names@);
        proof {
            assert(decreases_to!(es@ => es@[i as int]));
        }
        collect_expr_vars(&es[i], names);
        proof {
            let t = es@.subrange(0, i + 1);
            assert(t.subrange(0, t.len() - 1) =~= es@.subrange(0, i as int));
            assert(t[t.len() - 1] == es@[i as int]);
            lemma_to_set_append(exprs_vars(es@.subrange(0, i as int)), expr_vars(es@[i as int]));
            assert(labels_in(names@) =~= labels_in(old(names)@).union(exprs_vars(t).to_set()));
        }
        i = i + 1;
    }
    proof {
        assert(es@.subrange(0, i as int) =~= es@);
    }
}

fn collect_stmt_vars(st: &Stmt, names: &mut Vec<String>)
    requires
        sorted_texts(old(names)@),
    ensures
        sorted_texts(final(names)@),
        labels_in(final(names)@) == labels_in(old(names)@).union(stmt_vars(*st).to_set()),
    decreases st,
{
    let ghost start = labels_in(names@);
    match st {
        Stmt::SetVariable { var, value } | Stmt::ChangeVariable { var, delta: value } => {
            insert_name(names, var);
            collect_expr_vars(value, names);
            proof {
                lemma_to_set_append(seq![var@], expr_vars(*value));
                assert(seq![var@][0] == var@);
                assert forall|x: Seq<char>| seq![var@].to_set().contains(x) <==> x == var@ by {
                    if seq![var@].to_set().contains(x) {
                        let k = choose|k: int| 0 <= k < 1 && seq![var@][k] == x;
                    }
                }
                assert(labels_in(names@) =~= start.union(stmt_vars(*st).to_set()));
            }
        },
        Stmt::Call { args, .. } => {
            collect_exprs_vars(args, names);
        },
        Stmt::If { condition, then_body, else_body } => {
            collect_expr_vars(condition, names);
            collect_stmts_vars(then_body, names);
            collect_stmts_vars(else_body, names);
            proof {
                lemma_to_set_append(expr_vars(*condition), stmts_vars(then_body@));
                lemma_to_set_append(expr_vars(*condition) + stmts_vars(then_body@), stmts_vars(else_body@));
                assert(labels_in(names@) =~= start.union(stmt_vars(*st).to_set()));
            }
        },
        Stmt::Repeat { times: head, body } | Stmt::RepeatUntil { condition: head, body } => {
            collect_expr_vars(head, names);
            collect_stmts_vars(body, names);
            proof {
                lemma_to_set_append(expr_vars(*head), stmts_vars(body@));
                assert(labels_in(names@) =~= start.union(stmt_vars(*st).to_set()));
            }
        },
        Stmt::Forever { body } => {
            collect_stmts_vars(body, names);
        },
        _ => {
            proof {
                assert(start.union(stmt_vars(*st).to_set()) =~= start);
            }
        },
    }
}

fn collect_stmts_vars(ss: &Vec<Stmt>, names: &mut Vec<String>)
    requires
        sorted_texts(old(names)@),
    ensures
        sorted_texts(final(names)@),
        labels_in(final(names)@) == labels_in(old(names)@).union(stmts_vars(ss@).to_set()),
    decreases ss@,
{
    let mut i: usize = 0;
    proof {
        assert(ss@.subrange(0, 0) =~= Seq::<Stmt>::empty());
        assert(labels_in(names@) =~= labels_in(old(names)@).union(stmts_vars(ss@.subrange(0, 0)).to_set()));
    }
    while i < ss.len()
        invariant
            i <= ss@.len(),
            sorted_texts(names@),
            labels_in(names@) == labels_in(old(names)@).union(stmts_vars(ss@.subrange(0, i as int)).to_set()),
        decreases ss.len() - i,
    {
        proof {
            assert(decreases_to!(ss@ => ss@[i as int]));
        }
        collect_stmt_vars(&ss[i], names);
        proof {
            let t = ss@.subrange(0, i + 1);
            assert(t.subrange(0, t.len() - 1) =~= ss@.subrange(0, i as int));
            assert(t[t.len() - 1] == ss@[i as int]);
            lemma_to_set_append(stmts_vars(ss@.subrange(0, i as int)), stmt_vars(ss@[i as int]));
            assert(labels_in(names@) =~= labels_in(old(names)@).union(stmts_vars(t).to_set()));
        }
        i = i + 1;
    }
    proof {
        assert(ss@.subrange(0, i as int) =~= ss@);
    }
}

/// The variables `p` uses, each once, in character order.
fn collect_variables(p: &Procedure) -> (names: Vec<String>)
    ensures
        procedure_vars(*p, names@),
{
    let mut names: Vec<String> = Vec::new();
    collect_stmts_vars(&p.body, &mut names);
    proof {
        assert(labels_in(Seq::<String>::empty()) =~= Set::empty());
        assert(labels_in(names@) =~= stmts_vars(p.body@).to_set());
    }
    names
}

/// One step of building a module, as the decompiler takes it.
pub enum Build {
    /// Open a function of this name returning nothing.
    Start(Seq<char>),
    /// Add an `i32` parameter of this name.
    Param(Seq<char>),
    /// Take a fresh pointer value (a variable's slot).
    Slot,
    /// Append a value-defining instruction of this type.
    Define(Instruction, IrType),
    /// Append a store of the first value to the address in the second.
    Store(ValueId, ValueId),
    /// Append a call of the named procedure with these arguments, returning
    /// nothing.
    CallVoid(Seq<char>, Seq<ValueId>),
    /// End the current block with a branch to this label.
    Branch(Seq<char>),
    /// End the current block with a branch on the value to one of two
    /// labels.
    CondBranch(ValueId, Seq<char>, Seq<char>),
    /// Open a block of this label.
    Open(Seq<char>),
    /// Append an instruction to the function's last block.
    PushLast(Instruction),
    /// End the function's last block with a return of nothing.
    ReturnLast,
    /// The same, unless that block already ends in a return.
    ReturnLastUnlessReturning,
}

/// `b1` is `b0` with the function's last block's terminator set to a
/// return of nothing.
pub open spec fn last_block_returns_nothing(b0: IrBuilder, b1: IrBuilder) -> bool {
    &&& last_block_replaced(b0, b1, b1.current_function().blocks@.last())
    &&& b1.current_function().blocks@.last().terminator == (Terminator::Return { value: None })
    &&& b1.current_function().blocks@.last().instructions == b0.current_function().blocks@.last().instructions
    &&& b1.current_function().blocks@.last().debug_locs == b0.current_function().blocks@.last().debug_locs
}

/// `b1` is `b0` after step `st`.
pub open spec fn step_done(b0: IrBuilder, st: Build, b1: IrBuilder) -> bool {
    let f0 = b0.current_function();
    let f1 = b1.current_function();
    match st {
        Build::Start(name) => {
            &&& b1.module.functions@.len() == b0.module.functions@.len() + 1
            &&& b1.module.functions@.drop_last() == b0.module.functions@
            &&& b1.module.entry == b0.module.entry
            &&& b1.module.static_data == b0.module.static_data
            &&& b1.current_function_name() == Some(name)
            &&& b1.current_block_label() is None
            &&& b1.function_slot() == Some(b0.module.functions@.len() as int)
            &&& f1.name@ == name
            &&& f1.return_ty == IrType::Void
            &&& f1.params@.len() == 0
            &&& f1.blocks@.len() == 0
            &&& f1.values@.len() == 0
            &&& f1.entry_block@ == "entry"@
            &&& f1.next_id() == 0
        },
        Build::Param(name) => {
            &&& b1.module.functions@.len() == b0.module.functions@.len()
            &&& forall|j: int|
                0 <= j < b0.module.functions@.len() && j != b0.function_slot()->0 ==> #[trigger] b1.module.functions@[j]
                    == b0.module.functions@[j]
            &&& b1.module.entry == b0.module.entry
            &&& b1.module.static_data == b0.module.static_data
            &&& b1.current_function_name() == b0.current_function_name()
            &&& b1.current_block_label() == b0.current_block_label()
            &&& b1.function_slot() == b0.function_slot()
            &&& b1.block_slot() == b0.block_slot()
            &&& f1.next_id() == f0.next_id() + 1
            &&& f1.params@.drop_last() == f0.params@
            &&& f1.params@.last().0 == IrType::I32
            &&& f1.params@.last().1@ == name
            &&& f1.values@.drop_last() == f0.values@
            &&& f1.values@.last().id == f0.next_id()
            &&& f1.values@.last().ty == IrType::I32
            &&& f1.name == f0.name
            &&& f1.return_ty == f0.return_ty
            &&& f1.blocks == f0.blocks
            &&& f1.entry_block == f0.entry_block
        },
        Build::Slot => {
            &&& same_outside_current(b0, b1)
            &&& f1.next_id() == f0.next_id() + 1
            &&& f1.values@ == f0.values@.push(SsaValue { id: f0.value_counter, ty: IrType::Pointer, name: None })
            &&& f1.blocks == f0.blocks
        },
        Build::Define(instr, ty) => appended_value(b0, b1, instr, ty, f0.value_counter),
        Build::Store(value, addr) => appended(
            b0,
            b1,
            Instruction::Store { ty: IrType::I32, value, addr },
            f0.values@,
            f0.next_id(),
        ),
        Build::CallVoid(callee, args) => {
            &&& last_instruction(b1) matches Instruction::Call { return_ty: IrType::Void, callee: c, args: a }
                && c@ == callee && a@ == args
            &&& appended(b0, b1, last_instruction(b1), f0.values@, f0.next_id())
        },
        Build::Branch(target) => {
            &&& b1.current_block().terminator matches Terminator::Branch { target: t } && t@ == target
            &&& terminated(b0, b1, b1.current_block().terminator)
        },
        Build::CondBranch(condition, on_true, on_false) => {
            &&& b1.current_block().terminator matches Terminator::CondBranch {
                condition: c,
                true_target: t,
                false_target: e,
            } && c == condition && t@ == on_true && e@ == on_false
            &&& terminated(b0, b1, b1.current_block().terminator)
        },
        Build::Open(label) => opened_block(b0, b1, label),
        Build::PushLast(instr) => {
            &&& last_block_replaced(b0, b1, f1.blocks@.last())
            &&& f1.blocks@.last().terminator == f0.blocks@.last().terminator
            &&& f1.blocks@.last().instructions@ == f0.blocks@.last().instructions@.push(instr)
            &&& f1.blocks@.last().debug_locs@ == f0.blocks@.last().debug_locs@.push(None)
        },
        Build::ReturnLast => last_block_returns_nothing(b0, b1),
        Build::ReturnLastUnlessReturning => if f0.blocks@.last().terminator is Return {
            b1 == b0
        } else {
            last_block_returns_nothing(b0, b1)
        },
    }
}

/// `b1` is `b0` after the steps `steps`, one after another.
pub open spec fn built(b0: IrBuilder, steps: Seq<Build>, b1: IrBuilder) -> bool
    decreases steps.len(),
{
    if steps.len() == 0 {
        b1 == b0
    } else {
        exists|mid: IrBuilder|
            #[trigger] step_done(mid, steps.last(), b1) && built(b0, steps.subrange(0, steps.len() - 1), mid)
    }
}

proof fn lemma_built_step(b0: IrBuilder, steps: Seq<Build>, mid: IrBuilder, st: Build, b1: IrBuilder)
    requires
        built(b0, steps, mid),
        step_done(mid, st, b1),
    ensures
        built(b0, steps.push(st), b1),
{
    assert(steps.push(st).subrange(0, steps.len() as int) =~= steps);
    assert(steps.push(st).last() == st);
}

proof fn lemma_built_concat(b0: IrBuilder, s1: Seq<Build>, mid: IrBuilder, s2: Seq<Build>, b1: IrBuilder)
    requires
        built(b0, s1, mid),
        built(mid, s2, b1),
    ensures
        built(b0, s1 + s2, b1),
    decreases s2.len(),
{
    if s2.len() == 0 {
        assert(s1 + s2 =~= s1);
    } else {
        let m2 = choose|m2: IrBuilder| #[trigger] step_done(m2, s2.last(), b1) && built(mid, s2.subrange(0, s2.len() - 1), m2);
        lemma_built_concat(b0, s1, mid, s2.subrange(0, s2.len() - 1), m2);
        assert((s1 + s2).subrange(0, (s1 + s2).len() - 1) =~= s1 + s2.subrange(0, s2.len() - 1));
        assert((s1 + s2).last() == s2.last());
    }
}

proof fn lemma_built_none(b0: IrBuilder)
    ensures
        built(b0, Seq::<Build>::empty(), b0),
{
}

/// The size of expression `e`: its nodes.
pub open spec fn expr_size(e: Expr) -> nat
    decreases e,
{
    match e {
        Expr::Operator { args, .. } => 1 + exprs_size(args@),
        _ => 1,
    }
}

/// The size of expressions `es`.
pub open spec fn exprs_size(es: Seq<Expr>) -> nat
    decreases es,
{
    if es.len() == 0 {
        0
    } else {
        exprs_size(es.subrange(0, es.len() - 1)) + expr_size(es[es.len() - 1])
    }
}

/// The slot of variable `name` in `vars`: that of its first entry.
pub open spec fn slot_of(vars: Seq<(Seq<char>, ValueId)>, name: Seq<char>) -> Option<ValueId>
    decreases vars.len(),
{
    if vars.len() == 0 {
        None
    } else {
        match slot_of(vars.drop_last(), name) {
            Some(a) => Some(a),
            None => if vars.last().0 == name {
                Some(vars.last().1)
            } else {
                None
            },
        }
    }
}

/// The position of the first parameter named `name`.
pub open spec fn param_position(params: Seq<(IrType, String)>, name: Seq<char>) -> Option<nat>
    decreases params.len(),
{
    if params.len() == 0 {
        None
    } else {
        match param_position(params.drop_last(), name) {
            Some(i) => Some(i),
            None => if params.last().1@ == name {
                Some((params.len() - 1) as nat)
            } else {
                None
            },
        }
    }
}

/// The texts of the variable slots `vars`.
pub open spec fn vars_view(vars: Seq<(String, ValueId)>) -> Seq<(Seq<char>, ValueId)> {
    vars.map_values(|v: (String, ValueId)| (v.0@, v.1))
}

/// The constant `0` that stands for what cannot be decompiled.
pub open spec fn zero_const() -> Instruction {
    Instruction::Const(Constant::I32(0))
}

/// The step that defines literal `v`: a number as the low 32 bits of its
/// bit pattern, a string as its length in UTF-8 bytes, a boolean as an
/// `i1`.
pub open spec fn literal_step(v: Value) -> Build {
    match v {
        Value::Number(bits) => Build::Define(Instruction::Const(Constant::I32(bits as u32)), IrType::I32),
        Value::String(s) => Build::Define(
            Instruction::Const(Constant::I32((vstd::utf8::encode_utf8(s@).len() as usize) as u32)),
            IrType::I32,
        ),
        Value::Bool(b) => Build::Define(Instruction::Const(Constant::I1(b)), IrType::I1),
    }
}

/// The instruction an operator `opcode` on `l` and `r` becomes; an
/// unknown operator adds.
pub open spec fn operator_instruction(opcode: Seq<char>, l: ValueId, r: ValueId) -> Instruction {
    if opcode == "operator_subtract"@ {
        Instruction::Sub { ty: IrType::I32, lhs: l, rhs: r }
    } else if opcode == "operator_multiply"@ {
        Instruction::Mul { ty: IrType::I32, lhs: l, rhs: r }
    } else if opcode == "operator_divide"@ {
        Instruction::Div { ty: IrType::I32, lhs: l, rhs: r }
    } else if opcode == "operator_equals"@ {
        Instruction::Eq { ty: IrType::I32, lhs: l, rhs: r }
    } else if opcode == "operator_lt"@ {
        Instruction::Lt { ty: IrType::I32, lhs: l, rhs: r }
    } else if opcode == "operator_gt"@ {
        Instruction::Gt { ty: IrType::I32, lhs: l, rhs: r }
    } else {
        Instruction::Add { ty: IrType::I32, lhs: l, rhs: r }
    }
}

/// The instruction each operator word decompiles to.
proof fn lemma_operator_instructions(l: ValueId, r: ValueId)
    ensures
        operator_instruction("operator_lt"@, l, r) == (Instruction::Lt { ty: IrType::I32, lhs: l, rhs: r }),
        operator_instruction("operator_gt"@, l, r) == (Instruction::Gt { ty: IrType::I32, lhs: l, rhs: r }),
        operator_instruction("operator_equals"@, l, r) == (Instruction::Eq { ty: IrType::I32, lhs: l, rhs: r }),
        operator_instruction("operator_subtract"@, l, r) == (Instruction::Sub { ty: IrType::I32, lhs: l, rhs: r }),
        operator_instruction("operator_multiply"@, l, r) == (Instruction::Mul { ty: IrType::I32, lhs: l, rhs: r }),
        operator_instruction("operator_divide"@, l, r) == (Instruction::Div { ty: IrType::I32, lhs: l, rhs: r }),
        operator_instruction("operator_add"@, l, r) == (Instruction::Add { ty: IrType::I32, lhs: l, rhs: r }),
{
    reveal_strlit("operator_subtract");
    reveal_strlit("operator_multiply");
    reveal_strlit("operator_divide");
    reveal_strlit("operator_equals");
    reveal_strlit("operator_lt");
    reveal_strlit("operator_gt");
    reveal_strlit("operator_add");
    assert("operator_multiply"@[9] != "operator_subtract"@[9]);
    assert("operator_divide"@.len() != "operator_subtract"@.len());
    assert("operator_divide"@.len() != "operator_multiply"@.len());
    assert("operator_equals"@.len() != "operator_subtract"@.len());
    assert("operator_equals"@.len() != "operator_multiply"@.len());
    assert("operator_equals"@[9] != "operator_divide"@[9]);
    assert("operator_lt"@.len() != "operator_subtract"@.len());
    assert("operator_lt"@.len() != "operator_multiply"@.len());
    assert("operator_lt"@.len() != "operator_divide"@.len());
    assert("operator_lt"@.len() != "operator_equals"@.len());
    assert("operator_gt"@.len() != "operator_subtract"@.len());
    assert("operator_gt"@.len() != "operator_multiply"@.len());
    assert("operator_gt"@.len() != "operator_divide"@.len());
    assert("operator_gt"@.len() != "operator_equals"@.len());
    assert("operator_gt"@[9] != "operator_lt"@[9]);
    assert("operator_add"@.len() != "operator_subtract"@.len());
    assert("operator_add"@.len() != "operator_multiply"@.len());
    assert("operator_add"@.len() != "operator_divide"@.len());
    assert("operator_add"@.len() != "operator_equals"@.len());
    assert("operator_add"@.len() != "operator_lt"@.len());
    assert("operator_add"@.len() != "operator_gt"@.len());
}

/// The `i32` comparisons compare the words.
proof fn lemma_comparison_steps(m: IrModule, limit: u32, s: Machine, l: ValueId, r: ValueId, a: u32, b: u32)
    requires
        read_spec(top(s), l) == Ok::<RuntimeValue, Fault>(RuntimeValue::I32(a)),
        read_spec(top(s), r) == Ok::<RuntimeValue, Fault>(RuntimeValue::I32(b)),
    ensures
        instr_spec(m, limit, s, Instruction::Lt { ty: IrType::I32, lhs: l, rhs: r }) == Ok::<Machine, Fault>(
            written(m, s, RuntimeValue::I1(a < b)),
        ),
        instr_spec(m, limit, s, Instruction::Gt { ty: IrType::I32, lhs: l, rhs: r }) == Ok::<Machine, Fault>(
            written(m, s, RuntimeValue::I1(a > b)),
        ),
        instr_spec(m, limit, s, Instruction::Eq { ty: IrType::I32, lhs: l, rhs: r }) == Ok::<Machine, Fault>(
            written(m, s, RuntimeValue::I1(a == b)),
        ),
{
    lemma_small_mod(a as nat, 0x1_0000_0000);
    lemma_small_mod(b as nat, 0x1_0000_0000);
    assert(int_bits_of(RuntimeValue::I32(a), IrType::I32) == a);
    assert(int_bits_of(RuntimeValue::I32(b), IrType::I32) == b);
}

/// Each Scratch operator decompiles to an instruction that computes that
/// operator on its two operands, in every machine whose running frame holds
/// the `i32` words `a` and `b` at the operands' ids: `operator_lt`,
/// `operator_gt` and `operator_equals` give whether `a < b`, `a > b`,
/// `a == b` as an `i1`; `operator_add`, `operator_subtract` and
/// `operator_multiply` give the sum, difference and product modulo 2^32;
/// `operator_divide` gives the quotient, and a zero divisor faults.
pub proof fn lemma_operator_meaning(m: IrModule, limit: u32, s: Machine, l: ValueId, r: ValueId, a: u32, b: u32)
    requires
        read_spec(top(s), l) == Ok::<RuntimeValue, Fault>(RuntimeValue::I32(a)),
        read_spec(top(s), r) == Ok::<RuntimeValue, Fault>(RuntimeValue::I32(b)),
    ensures
        instr_spec(m, limit, s, operator_instruction("operator_lt"@, l, r)) == Ok::<Machine, Fault>(
            written(m, s, RuntimeValue::I1(a < b)),
        ),
        instr_spec(m, limit, s, operator_instruction("operator_gt"@, l, r)) == Ok::<Machine, Fault>(
            written(m, s, RuntimeValue::I1(a > b)),
        ),
        instr_spec(m, limit, s, operator_instruction("operator_equals"@, l, r)) == Ok::<Machine, Fault>(
            written(m, s, RuntimeValue::I1(a == b)),
        ),
        instr_spec(m, limit, s, operator_instruction("operator_add"@, l, r)) == Ok::<Machine, Fault>(
            written(m, s, RuntimeValue::I32(((a + b) % 0x1_0000_0000) as u32)),
        ),
        instr_spec(m, limit, s, operator_instruction("operator_subtract"@, l, r)) == Ok::<Machine, Fault>(
            written(m, s, RuntimeValue::I32(((a - b) % 0x1_0000_0000) as u32)),
        ),
        instr_spec(m, limit, s, operator_instruction("operator_multiply"@, l, r)) == Ok::<Machine, Fault>(
            written(m, s, RuntimeValue::I32(((a * b) % 0x1_0000_0000) as u32)),
        ),
        b != 0 ==> instr_spec(m, limit, s, operator_instruction("operator_divide"@, l, r)) == Ok::<Machine, Fault>(
            written(m, s, RuntimeValue::I32(a / b)),
        ),
        b == 0 ==> instr_spec(m, limit, s, operator_instruction("operator_divide"@, l, r)) == Err::<Machine, Fault>(
            Fault::DivisionByZero,
        ),
{
    lemma_operator_instructions(l, r);
    lemma_comparison_steps(m, limit, s, l, r, a, b);
    lemma_arithmetic_i32(a, b);
}

/// The type of the value an operator `opcode` yields.
pub open spec fn operator_type(opcode: Seq<char>) -> IrType {
    if opcode == "operator_subtract"@ || opcode == "operator_multiply"@ || opcode == "operator_divide"@ {
        IrType::I32
    } else if opcode == "operator_equals"@ || opcode == "operator_lt"@ || opcode == "operator_gt"@ {
        IrType::I1
    } else {
        IrType::I32
    }
}

/// The steps that decompile expression `e`, the value it yields and the
/// next value id, when `n` is the next value id before; `vars` are the
/// variable slots and `params` the function's parameters.
pub open spec fn expr_steps(
    e: Expr,
    vars: Seq<(Seq<char>, ValueId)>,
    params: Seq<(IrType, String)>,
    n: nat,
) -> (Seq<Build>, nat, nat)
    decreases e,
{
    match e {
        Expr::Literal(v) => (seq![literal_step(v)], n, n + 1),
        Expr::Variable(name) => match slot_of(vars, name@) {
            Some(a) => (seq![Build::Define(Instruction::Load { ty: IrType::I32, addr: a }, IrType::I32)], n, n + 1),
            None => (seq![Build::Define(zero_const(), IrType::I32)], n, n + 1),
        },
        Expr::ProcedureParam(name) => match param_position(params, name@) {
            Some(i) => (seq![], i, n),
            None => (seq![Build::Define(zero_const(), IrType::I32)], n, n + 1),
        },
        Expr::Operator { opcode, args } => {
            let left = operand_steps(args@, 0, vars, params, n);
            let right = operand_steps(args@, 1, vars, params, left.2);
            (
                left.0 + right.0 + seq![
                    Build::Define(
                        operator_instruction(opcode@, left.1 as ValueId, right.1 as ValueId),
                        operator_type(opcode@),
                    ),
                ],
                right.2,
                right.2 + 1,
            )
        },
        Expr::Other => (seq![Build::Define(zero_const(), IrType::I32)], n, n + 1),
    }
}

/// The steps for operand `k` of `args` (a zero constant when missing).
pub open spec fn operand_steps(
    args: Seq<Expr>,
    k: int,
    vars: Seq<(Seq<char>, ValueId)>,
    params: Seq<(IrType, String)>,
    n: nat,
) -> (Seq<Build>, nat, nat)
    decreases args,
{
    if 0 <= k < args.len() {
        expr_steps(args[k], vars, params, n)
    } else {
        (seq![Build::Define(zero_const(), IrType::I32)], n, n + 1)
    }
}

/// The builder is ready to take an instruction in function `name`.
pub open spec fn ready(b: IrBuilder, name: Seq<char>) -> bool {
    &&& b.wf()
    &&& b.block_slot() is Some
    &&& b.current_function_name() == Some(name)
    &&& b.current_function().blocks@.len() > 0
}

proof fn lemma_exprs_size_split(es: Seq<Expr>, k: int)
    requires
        0 <= k < es.len(),
    ensures
        expr_size(es[k]) <= exprs_size(es),
    decreases es.len(),
{
    if k < es.len() - 1 {
        lemma_exprs_size_split(es.subrange(0, es.len() - 1), k);
        assert(es.subrange(0, es.len() - 1)[k] == es[k]);
    }
}

proof fn lemma_exprs_size_two(es: Seq<Expr>)
    requires
        es.len() >= 2,
    ensures
        expr_size(es[0]) + expr_size(es[1]) <= exprs_size(es),
    decreases es.len(),
{
    let p = es.subrange(0, es.len() - 1);
    if es.len() > 2 {
        lemma_exprs_size_two(p);
        assert(p[0] == es[0] && p[1] == es[1]);
    } else {
        assert(p.subrange(0, 0) =~= Seq::<Expr>::empty());
        assert(p[0] == es[0]);
        assert(exprs_size(p) == exprs_size(p.subrange(0, 0)) + expr_size(p[0]));
    }
}

/// The slot of `name` in `vars`, if any.
fn find_slot(vars: &Vec<(String, ValueId)>, name: &String) -> (r: Option<ValueId>)
    ensures
        r == slot_of(vars_view(vars@), name@),
{
    let mut i: usize = 0;
    while i < vars.len()
        invariant
            i <= vars@.len(),
            slot_of(vars_view(vars@.subrange(0, i as int)), name@) is None,
        decreases vars.len() - i,
    {
        proof {
            let t = vars@.subrange(0, i + 1);
            assert(vars_view(t).drop_last() =~= vars_view(vars@.subrange(0, i as int)));
        }
        if vars[i].0 == *name {
            proof {
                assert(vars_view(vars@).subrange(0, i + 1) =~= vars_view(vars@.subrange(0, i + 1)));
                lemma_slot_of_prefix(vars_view(vars@), name@, i + 1);
            }
            return Some(vars[i].1);
        }
        i = i + 1;
    }
    proof {
        assert(vars@.subrange(0, i as int) =~= vars@);
    }
    None
}

proof fn lemma_slot_of_prefix(vars: Seq<(Seq<char>, ValueId)>, name: Seq<char>, k: int)
    requires
        0 <= k <= vars.len(),
        slot_of(vars.subrange(0, k), name) is Some,
    ensures
        slot_of(vars, name) == slot_of(vars.subrange(0, k), name),
    decreases vars.len() - k,
{
    if k < vars.len() {
        let t = vars.subrange(0, k + 1);
        assert(t.drop_last() =~= vars.subrange(0, k));
        lemma_slot_of_prefix(vars, name, k + 1);
    } else {
        assert(vars.subrange(0, k) =~= vars);
    }
}

proof fn lemma_one_step(b0: IrBuilder, st: Build, b1: IrBuilder)
    requires
        step_done(b0, st, b1),
    ensures
        built(b0, seq![st], b1),
{
    lemma_built_step(b0, Seq::<Build>::empty(), b0, st, b1);
    assert(Seq::<Build>::empty().push(st) =~= seq![st]);
}

proof fn lemma_param_position_prefix(params: Seq<(IrType, String)>, name: Seq<char>, k: int)
    requires
        0 <= k <= params.len(),
        param_position(params.subrange(0, k), name) is Some,
    ensures
        param_position(params, name) == param_position(params.subrange(0, k), name),
    decreases params.len() - k,
{
    if k < params.len() {
        let t = params.subrange(0, k + 1);
        assert(t.drop_last() =~= params.subrange(0, k));
        lemma_param_position_prefix(params, name, k + 1);
    } else {
        assert(params.subrange(0, k) =~= params);
    }
}

/// The position of the first parameter of the function being built named
/// `name`.
fn find_param(builder: &IrBuilder, func_name: &String, name: &String) -> (r: Option<usize>)
    requires
        builder.current_function_name() == Some(func_name@),
        builder.block_slot() is Some,
    ensures
        r matches Some(i) ==> param_position(builder.current_function().params@, name@) == Some(i as nat),
        r is None ==> param_position(builder.current_function().params@, name@) is None,
{
    assert(builder.function_slot() == last_function_index(builder.module.functions@, func_name@));
    let f = builder.module.get_function(func_name.as_str()).unwrap();
    let ghost ps = f.params@;
    assert(ps == builder.current_function().params@);
    let mut i: usize = 0;
    while i < f.params.len()
        invariant
            ps == f.params@,
            ps == builder.current_function().params@,
            i <= ps.len(),
            param_position(ps.subrange(0, i as int), name@) is None,
        decreases f.params.len() - i,
    {
        proof {
            let t = ps.subrange(0, i + 1);
            assert(t.drop_last() =~= ps.subrange(0, i as int));
        }
        if f.params[i].1 == *name {
            proof {
                let t = ps.subrange(0, i + 1);
                assert(t.last() == ps[i as int]);
                assert(param_position(t, name@) == Some(i as nat));
                lemma_param_position_prefix(ps, name@, i + 1);
            }
            return Some(i);
        }
        i = i + 1;
    }
    proof {
        assert(ps.subrange(0, i as int) =~= ps);
    }
    None
}

/// Decompile expression `e` into the current block; returns the value it
/// yields.
fn decompile_expr(builder: &mut IrBuilder, vars: &Vec<(String, ValueId)>, e: &Expr, func_name: &String) -> (id: ValueId)
    requires
        ready(*old(builder), func_name@),
        old(builder).current_function().next_id() + 3 * expr_size(*e) < usize::MAX,
    ensures
        ready(*final(builder), func_name@),
        final(builder).current_function().params == old(builder).current_function().params,
        built(
            *old(builder),
            expr_steps(*e, vars_view(vars@), old(builder).current_function().params@, old(builder).current_function().next_id()).0,
            *final(builder),
        ),
        id == expr_steps(*e, vars_view(vars@), old(builder).current_function().params@, old(builder).current_function().next_id()).1,
        final(builder).current_function().next_id() == expr_steps(
            *e,
            vars_view(vars@),
            old(builder).current_function().params@,
            old(builder).current_function().next_id(),
        ).2,
        final(builder).current_function().next_id() <= old(builder).current_function().next_id() + 3 * expr_size(*e),
    decreases e,
{
    let ghost b0 = *builder;
    match e {
        Expr::Literal(v) => {
            let id = match v {
                Value::Number(bits) => builder.const_i32(*bits as u32),
                Value::String(text) => builder.const_i32(text.as_str().len() as u32),
                Value::Bool(flag) => builder.const_i1(*flag),
            };
            proof {
                lemma_one_step(b0, literal_step(*v), *builder);
            }
            id
        },
        Expr::Variable(name) => {
            let id = match find_slot(vars, name) {
                Some(a) => builder.load(IrType::I32, a),
                None => builder.const_i32(0),
            };
            proof {
                let st = match slot_of(vars_view(vars@), name@) {
                    Some(a) => Build::Define(Instruction::Load { ty: IrType::I32, addr: a }, IrType::I32),
                    None => Build::Define(zero_const(), IrType::I32),
                };
                lemma_one_step(b0, st, *builder);
            }
            id
        },
        Expr::ProcedureParam(name) => {
            match find_param(builder, func_name, name) {
                Some(i) => {
                    proof {
                        lemma_built_none(b0);
                    }
                    i
                },
                None => {
                    let id = builder.const_i32(0);
                    proof {
                        lemma_one_step(b0, Build::Define(zero_const(), IrType::I32), *builder);
                    }
                    id
                },
            }
        },
        Expr::Operator { opcode, args } => decompile_operator(builder, vars, opcode, args, func_name),
        Expr::Other => {
            let id = builder.const_i32(0);
            proof {
                lemma_one_step(b0, Build::Define(zero_const(), IrType::I32), *builder);
            }
            id
        },
    }
}

/// Append the instruction of operator `opcode` on `l` and `r`.
fn emit_operator(builder: &mut IrBuilder, opcode: &String, l: ValueId, r: ValueId) -> (id: ValueId)
    requires
        old(builder).wf(),
        old(builder).can_emit(),
    ensures
        final(builder).wf(),
        step_done(*old(builder), Build::Define(operator_instruction(opcode@, l, r), operator_type(opcode@)), *final(builder)),
        id == old(builder).current_function().next_id(),
{
    let op = opcode.as_str();
    if str_equal(op, "operator_subtract") {
        builder.sub(IrType::I32, l, r)
    } else if str_equal(op, "operator_multiply") {
        builder.mul(IrType::I32, l, r)
    } else if str_equal(op, "operator_divide") {
        builder.div(IrType::I32, l, r)
    } else if str_equal(op, "operator_equals") {
        builder.eq(IrType::I32, l, r)
    } else if str_equal(op, "operator_lt") {
        builder.lt(IrType::I32, l, r)
    } else if str_equal(op, "operator_gt") {
        builder.gt(IrType::I32, l, r)
    } else {
        builder.add(IrType::I32, l, r)
    }
}

/// Decompile operator `opcode` on its first two operands `args` (a
/// missing operand reads as zero).
fn decompile_operator(
    builder: &mut IrBuilder,
    vars: &Vec<(String, ValueId)>,
    opcode: &String,
    args: &Vec<Expr>,
    func_name: &String,
) -> (id: ValueId)
    requires
        ready(*old(builder), func_name@),
        old(builder).current_function().next_id() + 3 * (1 + exprs_size(args@)) < usize::MAX,
    ensures
        ready(*final(builder), func_name@),
        final(builder).current_function().params == old(builder).current_function().params,
        built(
            *old(builder),
            expr_steps(
                Expr::Operator { opcode: *opcode, args: *args },
                vars_view(vars@),
                old(builder).current_function().params@,
                old(builder).current_function().next_id(),
            ).0,
            *final(builder),
        ),
        id == expr_steps(
            Expr::Operator { opcode: *opcode, args: *args },
            vars_view(vars@),
            old(builder).current_function().params@,
            old(builder).current_function().next_id(),
        ).1,
        final(builder).current_function().next_id() == expr_steps(
            Expr::Operator { opcode: *opcode, args: *args },
            vars_view(vars@),
            old(builder).current_function().params@,
            old(builder).current_function().next_id(),
        ).2,
        final(builder).current_function().next_id() <= old(builder).current_function().next_id() + 3 * (1 + exprs_size(args@)),
    decreases args@,
{
    let ghost b0 = *builder;
    let ghost vv = vars_view(vars@);
    let ghost ps = b0.current_function().params@;
    let ghost n = b0.current_function().next_id();
    proof {
        if args@.len() >= 2 {
            lemma_exprs_size_two(args@);
        }
        if args@.len() >= 1 {
            lemma_exprs_size_split(args@, 0);
        }
    }
    let left = if args.len() > 0 {
        proof {
            assert(decreases_to!(args@ => args@[0]));
        }
        decompile_expr(builder, vars, &args[0], func_name)
    } else {
        let id = builder.const_i32(0);
        proof {
            lemma_one_step(b0, Build::Define(zero_const(), IrType::I32), *builder);
        }
        id
    };
    let ghost bl = *builder;
    let ghost lsteps = operand_steps(args@, 0, vv, ps, n);
    assert(built(b0, lsteps.0, bl) && left == lsteps.1 && bl.current_function().next_id() == lsteps.2);
    let right = if args.len() > 1 {
        proof {
            assert(decreases_to!(args@ => args@[1]));
        }
        decompile_expr(builder, vars, &args[1], func_name)
    } else {
        let id = builder.const_i32(0);
        proof {
            lemma_one_step(bl, Build::Define(zero_const(), IrType::I32), *builder);
        }
        id
    };
    let ghost br = *builder;
    let ghost rsteps = operand_steps(args@, 1, vv, ps, lsteps.2);
    assert(built(bl, rsteps.0, br) && right == rsteps.1 && br.current_function().next_id() == rsteps.2);
    let id = emit_operator(builder, opcode, left, right);
    proof {
        let st = Build::Define(operator_instruction(opcode@, left, right), operator_type(opcode@));
        lemma_built_concat(b0, lsteps.0, bl, rsteps.0, br);
        lemma_built_step(b0, lsteps.0 + rsteps.0, br, st, *builder);
        assert((lsteps.0 + rsteps.0).push(st) =~= lsteps.0 + rsteps.0 + seq![st]);
    }
    id
}

/// The label of a fresh block named after `prefix`, the `k`-th taken in
/// the function.
pub open spec fn fresh_label(prefix: Seq<char>, k: nat) -> Seq<char> {
    prefix + "_"@ + decimal(k)
}

/// The size of statement `s`: its nodes and those of its expressions.
pub open spec fn stmt_size(s: Stmt) -> nat
    decreases s,
{
    match s {
        Stmt::SetVariable { value, .. } => 1 + expr_size(value),
        Stmt::ChangeVariable { delta, .. } => 1 + expr_size(delta),
        Stmt::Call { args, .. } => 1 + exprs_size(args@),
        Stmt::Broadcast { message } => 1 + expr_size(message),
        Stmt::If { condition, then_body, else_body } => 1 + expr_size(condition) + stmts_size(then_body@) + stmts_size(
            else_body@,
        ),
        Stmt::Repeat { times, body } => 1 + expr_size(times) + stmts_size(body@),
        Stmt::RepeatUntil { condition, body } => 1 + expr_size(condition) + stmts_size(body@),
        Stmt::Forever { body } => 1 + stmts_size(body@),
        _ => 1,
    }
}

/// The size of statements `ss`.
pub open spec fn stmts_size(ss: Seq<Stmt>) -> nat
    decreases ss,
{
    if ss.len() == 0 {
        0
    } else {
        stmts_size(ss.subrange(0, ss.len() - 1)) + stmt_size(ss[ss.len() - 1])
    }
}

/// The steps that decompile arguments `args` in order, their values and
/// the next value id.
pub open spec fn args_steps(
    args: Seq<Expr>,
    vars: Seq<(Seq<char>, ValueId)>,
    params: Seq<(IrType, String)>,
    n: nat,
) -> (Seq<Build>, Seq<ValueId>, nat)
    decreases args.len(),
{
    if args.len() == 0 {
        (seq![], seq![], n)
    } else {
        let before = args_steps(args.subrange(0, args.len() - 1), vars, params, n);
        let last = expr_steps(args[args.len() - 1], vars, params, before.2);
        (before.0 + last.0, before.1.push(last.1 as ValueId), last.2)
    }
}

/// The steps that decompile statement `s`, the fresh-label count and the
/// next value id after it, when `k` labels were taken and `n` is the next
/// value id before.
pub open spec fn stmt_steps(
    s: Stmt,
    vars: Seq<(Seq<char>, ValueId)>,
    params: Seq<(IrType, String)>,
    k: nat,
    n: nat,
) -> (Seq<Build>, nat, nat)
    decreases s,
{
    match s {
        Stmt::SetVariable { var, value } => {
            let v = expr_steps(value, vars, params, n);
            match slot_of(vars, var@) {
                Some(a) => (v.0.push(Build::Store(v.1 as ValueId, a)), k, v.2),
                None => (v.0, k, v.2),
            }
        },
        Stmt::ChangeVariable { var, delta } => {
            let d = expr_steps(delta, vars, params, n);
            match slot_of(vars, var@) {
                Some(a) => (
                    d.0 + seq![
                        Build::Define(Instruction::Load { ty: IrType::I32, addr: a }, IrType::I32),
                        Build::Define(
                            Instruction::Add { ty: IrType::I32, lhs: d.2 as ValueId, rhs: d.1 as ValueId },
                            IrType::I32,
                        ),
                        Build::Store((d.2 + 1) as ValueId, a),
                    ],
                    k,
                    d.2 + 2,
                ),
                None => (d.0, k, d.2),
            }
        },
        Stmt::Call { proc, args } => {
            let a = args_steps(args@, vars, params, n);
            (a.0.push(Build::CallVoid(proc@, a.1)), k, a.2)
        },
        Stmt::Broadcast { message } => {
            let m = expr_steps(message, vars, params, n);
            (m.0, k, m.2)
        },
        Stmt::If { condition, then_body, else_body } => {
            let c = expr_steps(condition, vars, params, n);
            let on_true = fresh_label("then"@, k);
            let on_false = fresh_label("else"@, k + 1);
            let merge = fresh_label("merge"@, k + 2);
            let t = stmts_steps(then_body@, vars, params, k + 3, c.2);
            let e = stmts_steps(else_body@, vars, params, t.1, t.2);
            (
                c.0 + seq![Build::CondBranch(c.1 as ValueId, on_true, on_false), Build::Open(on_true)] + t.0 + seq![
                    Build::Branch(merge),
                    Build::Open(on_false),
                ] + e.0 + seq![Build::Branch(merge), Build::Open(merge)],
                e.1,
                e.2,
            )
        },
        Stmt::Repeat { times, body } => {
            let c = expr_steps(times, vars, params, n);
            let header = fresh_label("loop_header"@, k);
            let inner = fresh_label("loop_body"@, k + 1);
            let b = stmts_steps(body@, vars, params, k + 2, c.2);
            let end = fresh_label("loop_end"@, b.1);
            (
                c.0 + seq![Build::Branch(header), Build::Open(header), Build::Branch(inner), Build::Open(inner)] + b.0
                    + seq![Build::Branch(header), Build::Open(end)],
                b.1 + 1,
                b.2,
            )
        },
        Stmt::RepeatUntil { condition, body } => {
            let header = fresh_label("loop_header"@, k);
            let inner = fresh_label("loop_body"@, k + 1);
            let end = fresh_label("loop_end"@, k + 2);
            let c = expr_steps(condition, vars, params, n);
            let b = stmts_steps(body@, vars, params, k + 3, c.2);
            (
                seq![Build::Branch(header), Build::Open(header)] + c.0 + seq![
                    Build::CondBranch(c.1 as ValueId, end, inner),
                    Build::Open(inner),
                ] + b.0 + seq![Build::Branch(header), Build::Open(end)],
                b.1,
                b.2,
            )
        },
        Stmt::Forever { body } => {
            let inner = fresh_label("forever_body"@, k);
            let b = stmts_steps(body@, vars, params, k + 1, n);
            (seq![Build::Branch(inner), Build::Open(inner)] + b.0 + seq![Build::Branch(inner)], b.1, b.2)
        },
        Stmt::Stop => (seq![Build::ReturnLast, Build::Open(fresh_label("unreachable"@, k))], k + 1, n),
        Stmt::Other => (seq![], k, n),
    }
}

/// The steps that decompile statements `ss` in order.
pub open spec fn stmts_steps(
    ss: Seq<Stmt>,
    vars: Seq<(Seq<char>, ValueId)>,
    params: Seq<(IrType, String)>,
    k: nat,
    n: nat,
) -> (Seq<Build>, nat, nat)
    decreases ss,
{
    if ss.len() == 0 {
        (seq![], k, n)
    } else {
        let before = stmts_steps(ss.subrange(0, ss.len() - 1), vars, params, k, n);
        let last = stmt_steps(ss[ss.len() - 1], vars, params, before.1, before.2);
        (before.0 + last.0, last.1, last.2)
    }
}

/// Take the next fresh label named after `prefix`.
fn fresh_block(counter: &mut u32, prefix: &str) -> (label: String)
    requires
        *old(counter) < u32::MAX,
    ensures
        label@ == fresh_label(prefix@, *old(counter) as nat),
        *final(counter) == *old(counter) + 1,
{
    let mut label = owned(prefix);
    push_str(&mut label, "_");
    push_decimal(&mut label, *counter as u64);
    *counter = *counter + 1;
    label
}

proof fn lemma_exprs_size_prefix(es: Seq<Expr>, k: int)
    requires
        0 <= k <= es.len(),
    ensures
        exprs_size(es.subrange(0, k)) <= exprs_size(es),
    decreases es.len() - k,
{
    if k < es.len() {
        lemma_exprs_size_prefix(es, k + 1);
        let t = es.subrange(0, k + 1);
        assert(t.subrange(0, t.len() - 1) =~= es.subrange(0, k));
    } else {
        assert(es.subrange(0, k) =~= es);
    }
}

/// Decompile arguments `args` in order; returns their values.
fn decompile_args(builder: &mut IrBuilder, vars: &Vec<(String, ValueId)>, args: &Vec<Expr>, func_name: &String) -> (ids: Vec<ValueId>)
    requires
        ready(*old(builder), func_name@),
        old(builder).current_function().next_id() + 3 * exprs_size(args@) < usize::MAX,
    ensures
        ready(*final(builder), func_name@),
        final(builder).current_function().params == old(builder).current_function().params,
        built(
            *old(builder),
            args_steps(args@, vars_view(vars@), old(builder).current_function().params@, old(builder).current_function().next_id()).0,
            *final(builder),
        ),
        ids@ == args_steps(
            args@,
            vars_view(vars@),
            old(builder).current_function().params@,
            old(builder).current_function().next_id(),
        ).1,
        final(builder).current_function().next_id() == args_steps(
            args@,
            vars_view(vars@),
            old(builder).current_function().params@,
            old(builder).current_function().next_id(),
        ).2,
        final(builder).current_function().next_id() <= old(builder).current_function().next_id() + 3 * exprs_size(args@),
{
    let ghost b0 = *builder;
    let ghost vv = vars_view(vars@);
    let ghost ps = b0.current_function().params@;
    let ghost n = b0.current_function().next_id();
    let mut ids: Vec<ValueId> = Vec::new();
    let mut i: usize = 0;
    proof {
        assert(args@.subrange(0, 0) =~= Seq::<Expr>::empty());
        lemma_built_none(b0);
    }
    while i < args.len()
        invariant
            i <= args@.len(),
            ready(*builder, func_name@),
            builder.current_function().params == b0.current_function().params,
            ps == b0.current_function().params@,
            b0.current_function().next_id() + 3 * exprs_size(args@) < usize::MAX,
            n == b0.current_function().next_id(),
            vv == vars_view(vars@),
            built(b0, args_steps(args@.subrange(0, i as int), vv, ps, n).0, *builder),
            ids@ == args_steps(args@.subrange(0, i as int), vv, ps, n).1,
            builder.current_function().next_id() == args_steps(args@.subrange(0, i as int), vv, ps, n).2,
            builder.current_function().next_id() <= n + 3 * exprs_size(args@.subrange(0, i as int)),
        decreases args.len() - i,
    {
        let ghost bm = *builder;
        let ghost t = args@.subrange(0, i + 1);
        proof {
            assert(t.subrange(0, t.len() - 1) =~= args@.subrange(0, i as int));
            assert(t[t.len() - 1] == args@[i as int]);
            lemma_exprs_size_prefix(args@, i + 1);
        }
        let id = decompile_expr(builder, vars, &args[i], func_name);
        ids.push(id);
        proof {
            let before = args_steps(args@.subrange(0, i as int), vv, ps, n);
            lemma_built_concat(b0, before.0, bm, expr_steps(args@[i as int], vv, ps, before.2).0, *builder);
        }
        i = i + 1;
    }
    proof {
        assert(args@.subrange(0, i as int) =~= args@);
    }
    ids
}

/// `b1` and `k1` are `b0` and `k0` after the steps that decompile `s`,
/// which take at most three values and three fresh labels per node.
pub open spec fn stmt_done(
    b0: IrBuilder,
    k0: u32,
    vars: Seq<(String, ValueId)>,
    s: Stmt,
    b1: IrBuilder,
    k1: u32,
    name: Seq<char>,
) -> bool {
    let st = stmt_steps(s, vars_view(vars), b0.current_function().params@, k0 as nat, b0.current_function().next_id());
    &&& ready(b1, name)
    &&& b1.current_function().params == b0.current_function().params
    &&& built(b0, st.0, b1)
    &&& k1 == st.1
    &&& b1.current_function().next_id() == st.2
    &&& b1.current_function().next_id() <= b0.current_function().next_id() + 3 * stmt_size(s)
    &&& k1 <= k0 + 3 * stmt_size(s)
}

/// As [`stmt_done`], for statements `ss` in order.
pub open spec fn stmts_done(
    b0: IrBuilder,
    k0: u32,
    vars: Seq<(String, ValueId)>,
    ss: Seq<Stmt>,
    b1: IrBuilder,
    k1: u32,
    name: Seq<char>,
) -> bool {
    let st = stmts_steps(ss, vars_view(vars), b0.current_function().params@, k0 as nat, b0.current_function().next_id());
    &&& ready(b1, name)
    &&& b1.current_function().params == b0.current_function().params
    &&& built(b0, st.0, b1)
    &&& k1 == st.1
    &&& b1.current_function().next_id() == st.2
    &&& b1.current_function().next_id() <= b0.current_function().next_id() + 3 * stmts_size(ss)
    &&& k1 <= k0 + 3 * stmts_size(ss)
}

/// `b` can take the steps of something of size `size` with `k` labels taken.
pub open spec fn room(b: IrBuilder, k: u32, size: nat) -> bool {
    &&& b.current_function().next_id() + 3 * size < usize::MAX
    &&& k + 3 * size <= u32::MAX
}

proof fn lemma_built_three(b0: IrBuilder, s0: Seq<Build>, b1: IrBuilder, x: Build, b2: IrBuilder, y: Build, b3: IrBuilder, z: Build, b4: IrBuilder)
    requires
        built(b0, s0, b1),
        step_done(b1, x, b2),
        step_done(b2, y, b3),
        step_done(b3, z, b4),
    ensures
        built(b0, s0 + seq![x, y, z], b4),
{
    lemma_built_step(b0, s0, b1, x, b2);
    lemma_built_step(b0, s0.push(x), b2, y, b3);
    lemma_built_step(b0, s0.push(x).push(y), b3, z, b4);
    assert(s0.push(x).push(y).push(z) =~= s0 + seq![x, y, z]);
}

proof fn lemma_built_two(b0: IrBuilder, s0: Seq<Build>, b1: IrBuilder, x: Build, b2: IrBuilder, y: Build, b3: IrBuilder)
    requires
        built(b0, s0, b1),
        step_done(b1, x, b2),
        step_done(b2, y, b3),
    ensures
        built(b0, s0 + seq![x, y], b3),
{
    lemma_built_step(b0, s0, b1, x, b2);
    lemma_built_step(b0, s0.push(x), b2, y, b3);
    assert(s0.push(x).push(y) =~= s0 + seq![x, y]);
}

/// Decompile statement `st` into the function being built.
fn decompile_stmt(builder: &mut IrBuilder, counter: &mut u32, vars: &Vec<(String, ValueId)>, st: &Stmt, func_name: &String)
    requires
        ready(*old(builder), func_name@),
        room(*old(builder), *old(counter), stmt_size(*st)),
    ensures
        stmt_done(*old(builder), *old(counter), vars@, *st, *final(builder), *final(counter), func_name@),
    decreases stmt_size(*st), 1nat,
{
    let ghost b0 = *builder;
    let ghost k0 = *counter;
    let ghost vv = vars_view(vars@);
    let ghost ps = b0.current_function().params@;
    let ghost n0 = b0.current_function().next_id();
    match st {
        Stmt::SetVariable { var, value } => {
            let v = decompile_expr(builder, vars, value, func_name);
            let ghost bm = *builder;
            match find_slot(vars, var) {
                Some(a) => {
                    builder.store(IrType::I32, v, a);
                    proof {
                        lemma_built_step(b0, expr_steps(*value, vv, ps, n0).0, bm, Build::Store(v, a), *builder);
                    }
                },
                None => {},
            }
        },
        Stmt::ChangeVariable { var, delta } => {
            let d = decompile_expr(builder, vars, delta, func_name);
            let ghost bm = *builder;
            match find_slot(vars, var) {
                Some(a) => {
                    let cur = builder.load(IrType::I32, a);
                    let ghost b2 = *builder;
                    let nv = builder.add(IrType::I32, cur, d);
                    let ghost b3 = *builder;
                    builder.store(IrType::I32, nv, a);
                    proof {
                        lemma_built_three(
                            b0,
                            expr_steps(*delta, vv, ps, n0).0,
                            bm,
                            Build::Define(Instruction::Load { ty: IrType::I32, addr: a }, IrType::I32),
                            b2,
                            Build::Define(Instruction::Add { ty: IrType::I32, lhs: cur, rhs: d }, IrType::I32),
                            b3,
                            Build::Store(nv, a),
                            *builder,
                        );
                    }
                },
                None => {},
            }
        },
        Stmt::Call { proc, args } => {
            let ids = decompile_args(builder, vars, args, func_name);
            let ghost bm = *builder;
            let ghost ids_view = ids@;
            builder.call(IrType::Void, proc.as_str(), ids);
            proof {
                lemma_built_step(b0, args_steps(args@, vv, ps, n0).0, bm, Build::CallVoid(proc@, ids_view), *builder);
            }
        },
        Stmt::Broadcast { message } => {
            let _message = decompile_expr(builder, vars, message, func_name);
        },
        Stmt::If { .. } => {
            decompile_if(builder, counter, vars, st, func_name);
        },
        Stmt::Repeat { .. } => {
            decompile_repeat(builder, counter, vars, st, func_name);
        },
        Stmt::RepeatUntil { .. } => {
            decompile_repeat_until(builder, counter, vars, st, func_name);
        },
        Stmt::Forever { .. } => {
            decompile_forever(builder, counter, vars, st, func_name);
        },
        Stmt::Stop => {
            builder.return_from_last_block();
            let ghost bm = *builder;
            let label = fresh_block(counter, "unreachable");
            builder.new_block(label.as_str());
            proof {
                lemma_built_two(b0, Seq::<Build>::empty(), b0, Build::ReturnLast, bm, Build::Open(label@), *builder);
                assert(Seq::<Build>::empty() + seq![Build::ReturnLast, Build::Open(label@)] =~= seq![
                    Build::ReturnLast,
                    Build::Open(label@),
                ]);
            }
        },
        Stmt::Other => {
            proof {
                lemma_built_none(b0);
            }
        },
    }
}

proof fn lemma_stmts_size_prefix(ss: Seq<Stmt>, k: int)
    requires
        0 <= k <= ss.len(),
    ensures
        stmts_size(ss.subrange(0, k)) <= stmts_size(ss),
    decreases ss.len() - k,
{
    if k < ss.len() {
        lemma_stmts_size_prefix(ss, k + 1);
        let t = ss.subrange(0, k + 1);
        assert(t.subrange(0, t.len() - 1) =~= ss.subrange(0, k));
    } else {
        assert(ss.subrange(0, k) =~= ss);
    }
}

/// Decompile statements `ss` in order into the function being built.
fn decompile_stmts(builder: &mut IrBuilder, counter: &mut u32, vars: &Vec<(String, ValueId)>, ss: &Vec<Stmt>, func_name: &String)
    requires
        ready(*old(builder), func_name@),
        room(*old(builder), *old(counter), stmts_size(ss@)),
    ensures
        stmts_done(*old(builder), *old(counter), vars@, ss@, *final(builder), *final(counter), func_name@),
    decreases stmts_size(ss@), 2nat,
{
    let ghost b0 = *builder;
    let ghost k0 = *counter;
    let ghost vv = vars_view(vars@);
    let ghost ps = b0.current_function().params@;
    let ghost n0 = b0.current_function().next_id();
    let mut i: usize = 0;
    proof {
        assert(ss@.subrange(0, 0) =~= Seq::<Stmt>::empty());
        lemma_built_none(b0);
    }
    while i < ss.len()
        invariant
            i <= ss@.len(),
            ready(b0, func_name@),
            room(b0, k0, stmts_size(ss@)),
            vv == vars_view(vars@),
            ps == b0.current_function().params@,
            n0 == b0.current_function().next_id(),
            stmts_done(b0, k0, vars@, ss@.subrange(0, i as int), *builder, *counter, func_name@),
        decreases ss.len() - i,
    {
        let ghost bm = *builder;
        let ghost km = *counter;
        proof {
            let t = ss@.subrange(0, i + 1);
            assert(t.subrange(0, t.len() - 1) =~= ss@.subrange(0, i as int));
            assert(t[t.len() - 1] == ss@[i as int]);
            lemma_stmts_size_prefix(ss@, i + 1);
        }
        decompile_stmt(builder, counter, vars, &ss[i], func_name);
        proof {
            let before = stmts_steps(ss@.subrange(0, i as int), vv, ps, k0 as nat, n0);
            lemma_built_concat(b0, before.0, bm, stmt_steps(ss@[i as int], vv, ps, before.1, before.2).0, *builder);
        }
        i = i + 1;
    }
    proof {
        assert(ss@.subrange(0, i as int) =~= ss@);
    }
}

/// Decompile an `If`: the condition, a branch to a `then` and an `else`
/// block, each branching to a `merge` block, which stays open.
fn decompile_if(builder: &mut IrBuilder, counter: &mut u32, vars: &Vec<(String, ValueId)>, st: &Stmt, func_name: &String)
    requires
        *st is If,
        ready(*old(builder), func_name@),
        room(*old(builder), *old(counter), stmt_size(*st)),
    ensures
        stmt_done(*old(builder), *old(counter), vars@, *st, *final(builder), *final(counter), func_name@),
    decreases stmt_size(*st), 0nat,
{
    let ghost b0 = *builder;
    let ghost k0 = *counter;
    let ghost vv = vars_view(vars@);
    let ghost ps = b0.current_function().params@;
    let ghost n0 = b0.current_function().next_id();
    match st {
        Stmt::If { condition, then_body, else_body } => {
            let c = decompile_expr(builder, vars, condition, func_name);
            let ghost b1 = *builder;
            let on_true = fresh_block(counter, "then");
            let on_false = fresh_block(counter, "else");
            let merge = fresh_block(counter, "merge");
            builder.cond_br(c, on_true.as_str(), on_false.as_str());
            let ghost b2 = *builder;
            builder.new_block(on_true.as_str());
            let ghost b3 = *builder;
            decompile_stmts(builder, counter, vars, then_body, func_name);
            let ghost b4 = *builder;
            builder.br(merge.as_str());
            let ghost b5 = *builder;
            builder.new_block(on_false.as_str());
            let ghost b6 = *builder;
            decompile_stmts(builder, counter, vars, else_body, func_name);
            let ghost b7 = *builder;
            builder.br(merge.as_str());
            let ghost b8 = *builder;
            builder.new_block(merge.as_str());
            proof {
                let cs = expr_steps(*condition, vv, ps, n0);
                lemma_built_two(b0, cs.0, b1, Build::CondBranch(c, on_true@, on_false@), b2, Build::Open(on_true@), b3);
                let s1 = cs.0 + seq![Build::CondBranch(c, on_true@, on_false@), Build::Open(on_true@)];
                let t = stmts_steps(then_body@, vv, ps, (k0 + 3) as nat, cs.2);
                lemma_built_concat(b0, s1, b3, t.0, b4);
                lemma_built_two(b0, s1 + t.0, b4, Build::Branch(merge@), b5, Build::Open(on_false@), b6);
                let s2 = s1 + t.0 + seq![Build::Branch(merge@), Build::Open(on_false@)];
                let e = stmts_steps(else_body@, vv, ps, t.1, t.2);
                lemma_built_concat(b0, s2, b6, e.0, b7);
                lemma_built_two(b0, s2 + e.0, b7, Build::Branch(merge@), b8, Build::Open(merge@), *builder);
            }
        },
        _ => {
            proof {
                assert(false);
            }
        },
    }
}

/// Decompile a `Repeat`: the count, a header block that enters the body,
/// a body that loops back to the header, and an end block left open.
fn decompile_repeat(builder: &mut IrBuilder, counter: &mut u32, vars: &Vec<(String, ValueId)>, st: &Stmt, func_name: &String)
    requires
        *st is Repeat,
        ready(*old(builder), func_name@),
        room(*old(builder), *old(counter), stmt_size(*st)),
    ensures
        stmt_done(*old(builder), *old(counter), vars@, *st, *final(builder), *final(counter), func_name@),
    decreases stmt_size(*st), 0nat,
{
    let ghost b0 = *builder;
    let ghost k0 = *counter;
    let ghost vv = vars_view(vars@);
    let ghost ps = b0.current_function().params@;
    let ghost n0 = b0.current_function().next_id();
    match st {
        Stmt::Repeat { times, body } => {
            let _times = decompile_expr(builder, vars, times, func_name);
            let ghost b1 = *builder;
            let header = fresh_block(counter, "loop_header");
            let inner = fresh_block(counter, "loop_body");
            builder.br(header.as_str());
            let ghost b2 = *builder;
            builder.new_block(header.as_str());
            let ghost b3 = *builder;
            builder.br(inner.as_str());
            let ghost b4 = *builder;
            builder.new_block(inner.as_str());
            let ghost b5 = *builder;
            decompile_stmts(builder, counter, vars, body, func_name);
            let ghost b6 = *builder;
            builder.br(header.as_str());
            let ghost b7 = *builder;
            let end = fresh_block(counter, "loop_end");
            builder.new_block(end.as_str());
            proof {
                let cs = expr_steps(*times, vv, ps, n0);
                lemma_built_two(b0, cs.0, b1, Build::Branch(header@), b2, Build::Open(header@), b3);
                let s0 = cs.0 + seq![Build::Branch(header@), Build::Open(header@)];
                lemma_built_two(b0, s0, b3, Build::Branch(inner@), b4, Build::Open(inner@), b5);
                let s1 = cs.0 + seq![
                    Build::Branch(header@),
                    Build::Open(header@),
                    Build::Branch(inner@),
                    Build::Open(inner@),
                ];
                assert(s0 + seq![Build::Branch(inner@), Build::Open(inner@)] =~= s1);
                let b = stmts_steps(body@, vv, ps, (k0 + 2) as nat, cs.2);
                lemma_built_concat(b0, s1, b5, b.0, b6);
                lemma_built_two(b0, s1 + b.0, b6, Build::Branch(header@), b7, Build::Open(end@), *builder);
            }
        },
        _ => {
            proof {
                assert(false);
            }
        },
    }
}

/// Decompile a `RepeatUntil`: a header block that tests the condition and
/// leaves to the end block or enters the body, which loops back.
fn decompile_repeat_until(builder: &mut IrBuilder, counter: &mut u32, vars: &Vec<(String, ValueId)>, st: &Stmt, func_name: &String)
    requires
        *st is RepeatUntil,
        ready(*old(builder), func_name@),
        room(*old(builder), *old(counter), stmt_size(*st)),
    ensures
        stmt_done(*old(builder), *old(counter), vars@, *st, *final(builder), *final(counter), func_name@),
    decreases stmt_size(*st), 0nat,
{
    let ghost b0 = *builder;
    let ghost k0 = *counter;
    let ghost vv = vars_view(vars@);
    let ghost ps = b0.current_function().params@;
    let ghost n0 = b0.current_function().next_id();
    match st {
        Stmt::RepeatUntil { condition, body } => {
            let header = fresh_block(counter, "loop_header");
            let inner = fresh_block(counter, "loop_body");
            let end = fresh_block(counter, "loop_end");
            builder.br(header.as_str());
            let ghost b1 = *builder;
            builder.new_block(header.as_str());
            let ghost b2 = *builder;
            let c = decompile_expr(builder, vars, condition, func_name);
            let ghost b3 = *builder;
            builder.cond_br(c, end.as_str(), inner.as_str());
            let ghost b4 = *builder;
            builder.new_block(inner.as_str());
            let ghost b5 = *builder;
            decompile_stmts(builder, counter, vars, body, func_name);
            let ghost b6 = *builder;
            builder.br(header.as_str());
            let ghost b7 = *builder;
            builder.new_block(end.as_str());
            proof {
                lemma_built_none(b0);
                lemma_built_two(b0, Seq::<Build>::empty(), b0, Build::Branch(header@), b1, Build::Open(header@), b2);
                let s0 = seq![Build::Branch(header@), Build::Open(header@)];
                assert(Seq::<Build>::empty() + s0 =~= s0);
                let cs = expr_steps(*condition, vv, ps, n0);
                lemma_built_concat(b0, s0, b2, cs.0, b3);
                lemma_built_two(b0, s0 + cs.0, b3, Build::CondBranch(c, end@, inner@), b4, Build::Open(inner@), b5);
                let s1 = s0 + cs.0 + seq![Build::CondBranch(c, end@, inner@), Build::Open(inner@)];
                let b = stmts_steps(body@, vv, ps, (k0 + 3) as nat, cs.2);
                lemma_built_concat(b0, s1, b5, b.0, b6);
                lemma_built_two(b0, s1 + b.0, b6, Build::Branch(header@), b7, Build::Open(end@), *builder);
            }
        },
        _ => {
            proof {
                assert(false);
            }
        },
    }
}

/// Decompile a `Forever`: a body block that loops back to itself.
fn decompile_forever(builder: &mut IrBuilder, counter: &mut u32, vars: &Vec<(String, ValueId)>, st: &Stmt, func_name: &String)
    requires
        *st is Forever,
        ready(*old(builder), func_name@),
        room(*old(builder), *old(counter), stmt_size(*st)),
    ensures
        stmt_done(*old(builder), *old(counter), vars@, *st, *final(builder), *final(counter), func_name@),
    decreases stmt_size(*st), 0nat,
{
    let ghost b0 = *builder;
    let ghost k0 = *counter;
    let ghost vv = vars_view(vars@);
    let ghost ps = b0.current_function().params@;
    let ghost n0 = b0.current_function().next_id();
    match st {
        Stmt::Forever { body } => {
            let inner = fresh_block(counter, "forever_body");
            builder.br(inner.as_str());
            let ghost b1 = *builder;
            builder.new_block(inner.as_str());
            let ghost b2 = *builder;
            decompile_stmts(builder, counter, vars, body, func_name);
            let ghost b3 = *builder;
            builder.br(inner.as_str());
            proof {
                lemma_built_none(b0);
                lemma_built_two(b0, Seq::<Build>::empty(), b0, Build::Branch(inner@), b1, Build::Open(inner@), b2);
                let s0 = seq![Build::Branch(inner@), Build::Open(inner@)];
                assert(Seq::<Build>::empty() + s0 =~= s0);
                let b = stmts_steps(body@, vv, ps, (k0 + 1) as nat, n0);
                lemma_built_concat(b0, s0, b2, b.0, b3);
                lemma_built_step(b0, s0 + b.0, b3, Build::Branch(inner@), *builder);
                assert((s0 + b.0).push(Build::Branch(inner@)) =~= s0 + b.0 + seq![Build::Branch(inner@)]);
            }
        },
        _ => {
            proof {
                assert(false);
            }
        },
    }
}

proof fn lemma_names_fit(names: Seq<String>, uses: Seq<Seq<char>>)
    requires
        sorted_texts(names),
        labels_in(names) == uses.to_set(),
    ensures
        names.len() <= uses.len(),
{
    let vs = names.map_values(|t: String| t@);
    assert forall|i: int, j: int| 0 <= i < vs.len() && 0 <= j < vs.len() && i != j implies vs[i] != vs[j] by {
        if i < j {
            assert(text_less(names[i]@, names[j]@));
            if vs[i] == vs[j] {
                lemma_text_less_irreflexive(names[i]@);
            }
        } else {
            assert(text_less(names[j]@, names[i]@));
            if vs[i] == vs[j] {
                lemma_text_less_irreflexive(names[j]@);
            }
        }
    }
    vs.unique_seq_to_set();
    assert forall|x: Seq<char>| vs.to_set().contains(x) <==> labels_in(names).contains(x) by {
        if vs.to_set().contains(x) {
            let k = choose|k: int| 0 <= k < vs.len() && vs[k] == x;
            assert(names[k]@ == x);
        }
        if labels_in(names).contains(x) {
            let k = choose|k: int| 0 <= k < names.len() && #[trigger] names[k]@ == x;
            assert(vs[k] == x);
        }
    }
    assert(vs.to_set() =~= labels_in(names));
    uses.lemma_cardinality_of_set();
}

/// The value ids and steps of procedure `p` fit the machine: its
/// parameters, the variables it uses and three values and three fresh
/// labels per node of its body.
pub open spec fn procedure_fits(p: Procedure) -> bool {
    &&& p.prototype.params@.len() + stmts_vars(p.body@).len() + 3 * stmts_size(p.body@) < usize::MAX
    &&& 3 * stmts_size(p.body@) <= u32::MAX
}

/// The stack slots of variables `names`, the first at value id `base`.
pub open spec fn slots(names: Seq<String>, base: nat) -> Seq<(Seq<char>, ValueId)> {
    Seq::new(names.len(), |i: int| (names[i]@, (base + i) as ValueId))
}

/// One parameter step per parameter of `params`.
pub open spec fn param_steps(params: Seq<crate::pipeline::scratch::Param>) -> Seq<Build> {
    Seq::new(params.len(), |i: int| Build::Param(params[i].name@))
}

/// Step `st`, `n` times.
pub open spec fn repeated(st: Build, n: nat) -> Seq<Build> {
    Seq::new(n, |i: int| st)
}

/// The steps that decompile procedure `p` whose variables are `names`, when
/// the function it becomes has parameters `params`: start a void function,
/// add the parameters, a slot value per variable, open the entry block, an
/// `alloca` per variable, the body's statements, and a return of nothing
/// unless the last block returns already.
pub open spec fn procedure_steps(p: Procedure, names: Seq<String>, params: Seq<(IrType, String)>) -> Seq<Build> {
    let np = p.prototype.params@.len();
    let nv = names.len();
    seq![Build::Start(p.prototype.name@)] + param_steps(p.prototype.params@) + repeated(Build::Slot, nv) + seq![
        Build::Open("entry"@),
    ] + repeated(Build::PushLast(Instruction::Alloca { ty: IrType::I32, count: 1 }), nv) + stmts_steps(
        p.body@,
        slots(names, np),
        params,
        0,
        np + nv,
    ).0 + seq![Build::ReturnLastUnlessReturning]
}

/// `b1` is `b0` after procedure `p` was decompiled into it.
pub open spec fn procedure_done(b0: IrBuilder, p: Procedure, b1: IrBuilder) -> bool {
    let ps = b1.current_function().params@;
    &&& b1.wf()
    &&& b1.current_function_name() == Some(p.prototype.name@)
    &&& ps.len() == p.prototype.params@.len()
    &&& forall|i: int| 0 <= i < ps.len() ==> (#[trigger] ps[i]).0 == IrType::I32 && ps[i].1@ == p.prototype.params@[i].name@
    &&& exists|names: Seq<String>| procedure_vars(p, names) && #[trigger] built(b0, procedure_steps(p, names, ps), b1)
}

/// `b1` is `b0` after procedures `ps` were decompiled into it in order.
pub open spec fn procedures_done(b0: IrBuilder, ps: Seq<Procedure>, b1: IrBuilder) -> bool
    decreases ps.len(),
{
    if ps.len() == 0 {
        b1 == b0
    } else {
        exists|mid: IrBuilder| #[trigger] procedure_done(mid, ps.last(), b1) && procedures_done(b0, ps.drop_last(), mid)
    }
}

proof fn lemma_procedures_step(b0: IrBuilder, ps: Seq<Procedure>, mid: IrBuilder, p: Procedure, b1: IrBuilder)
    requires
        procedures_done(b0, ps, mid),
        procedure_done(mid, p, b1),
    ensures
        procedures_done(b0, ps.push(p), b1),
{
    assert(ps.push(p).drop_last() =~= ps);
    assert(ps.push(p).last() == p);
}

proof fn lemma_procedures_concat(b0: IrBuilder, s1: Seq<Procedure>, mid: IrBuilder, s2: Seq<Procedure>, b1: IrBuilder)
    requires
        procedures_done(b0, s1, mid),
        procedures_done(mid, s2, b1),
    ensures
        procedures_done(b0, s1 + s2, b1),
    decreases s2.len(),
{
    if s2.len() == 0 {
        assert(s1 + s2 =~= s1);
    } else {
        let m2 = choose|m2: IrBuilder| #[trigger] procedure_done(m2, s2.last(), b1) && procedures_done(mid, s2.drop_last(), m2);
        lemma_procedures_concat(b0, s1, mid, s2.drop_last(), m2);
        assert((s1 + s2).drop_last() =~= s1 + s2.drop_last());
        assert((s1 + s2).last() == s2.last());
    }
}

/// Decompile procedure `p` into a new void function of the module.
fn decompile_procedure(builder: &mut IrBuilder, p: &Procedure)
    requires
        old(builder).wf(),
        procedure_fits(*p),
    ensures
        procedure_done(*old(builder), *p, *final(builder)),
{
    let ghost b0 = *builder;
    let ghost pp = p.prototype.params@;
    let ghost np = pp.len();
    let func_name = owned(p.prototype.name.as_str());
    builder.start_function(func_name.as_str(), IrType::Void);
    let ghost b1 = *builder;
    proof {
        lemma_built_none(b0);
        lemma_built_step(b0, Seq::<Build>::empty(), b0, Build::Start(p.prototype.name@), b1);
        assert(Seq::<Build>::empty().push(Build::Start(p.prototype.name@)) =~= seq![Build::Start(p.prototype.name@)]);
        lemma_built_none(b1);
        assert(param_steps(pp.subrange(0, 0)) =~= Seq::<Build>::empty());
    }
    let mut i: usize = 0;
    while i < p.prototype.params.len()
        invariant
            i <= pp.len(),
            pp == p.prototype.params@,
            np == pp.len(),
            procedure_fits(*p),
            builder.wf(),
            builder.current_function_name() == Some(func_name@),
            func_name@ == p.prototype.name@,
            builder.function_slot() == b1.function_slot(),
            builder.current_function().next_id() == i,
            builder.current_function().blocks@.len() == 0,
            builder.current_function().params@.len() == i,
            forall|q: int|
                0 <= q < i ==> (#[trigger] builder.current_function().params@[q]).0 == IrType::I32
                    && builder.current_function().params@[q].1@ == pp[q].name@,
            built(b1, param_steps(pp.subrange(0, i as int)), *builder),
            b1.in_function(),
        decreases pp.len() - i,
    {
        let ghost bm = *builder;
        builder.add_param(IrType::I32, p.prototype.params[i].name.as_str());
        proof {
            lemma_built_step(b1, param_steps(pp.subrange(0, i as int)), bm, Build::Param(pp[i as int].name@), *builder);
            assert(param_steps(pp.subrange(0, i as int)).push(Build::Param(pp[i as int].name@)) =~= param_steps(
                pp.subrange(0, i + 1),
            ));
            assert forall|q: int| 0 <= q < i + 1 implies (#[trigger] builder.current_function().params@[q]).0
                == IrType::I32 && builder.current_function().params@[q].1@ == pp[q].name@ by {
                if q < i {
                    assert(builder.current_function().params@[q] == builder.current_function().params@.drop_last()[q]);
                }
            }
        }
        i = i + 1;
    }
    let ghost b2 = *builder;
    proof {
        assert(pp.subrange(0, i as int) =~= pp);
    }
    let names = collect_variables(p);
    proof {
        lemma_names_fit(names@, stmts_vars(p.body@));
        lemma_built_none(b2);
        assert(repeated(Build::Slot, 0) =~= Seq::<Build>::empty());
        assert(slots(names@, np).subrange(0, 0) =~= Seq::<(Seq<char>, ValueId)>::empty());
    }
    let mut vars: Vec<(String, ValueId)> = Vec::new();
    let mut j: usize = 0;
    while j < names.len()
        invariant
            j <= names@.len(),
            names@.len() <= stmts_vars(p.body@).len(),
            procedure_fits(*p),
            np == p.prototype.params@.len(),
            builder.wf(),
            builder.current_function_name() == Some(func_name@),
            builder.function_slot() == b2.function_slot(),
            b2.in_function(),
            builder.current_function().next_id() == np + j,
            builder.current_function().params == b2.current_function().params,
            builder.current_function().blocks@.len() == 0,
            vars_view(vars@) == slots(names@, np).subrange(0, j as int),
            built(b2, repeated(Build::Slot, j as nat), *builder),
        decreases names@.len() - j,
    {
        let ghost bm = *builder;
        let id = builder.new_value(IrType::Pointer, None);
        let ghost before = vars@;
        let text = owned(names[j].as_str());
        vars.push((text, id));
        proof {
            assert(vars_view(before).len() == j);
            assert(before.len() == j);
            assert(vars@ == before.push((text, id)));
            assert forall|q: int| 0 <= q < j + 1 implies #[trigger] vars_view(vars@)[q] == slots(names@, np).subrange(
                0,
                j + 1,
            )[q] by {
                if q < j {
                    assert(vars@[q] == before[q]);
                    assert(vars_view(before)[q] == slots(names@, np).subrange(0, j as int)[q]);
                } else {
                    assert(vars@[q] == (text, id));
                }
            }
            lemma_built_step(b2, repeated(Build::Slot, j as nat), bm, Build::Slot, *builder);
            assert(repeated(Build::Slot, j as nat).push(Build::Slot) =~= repeated(Build::Slot, (j + 1) as nat));
            assert(vars_view(vars@) =~= slots(names@, np).subrange(0, j + 1));
        }
        j = j + 1;
    }
    let ghost b3 = *builder;
    proof {
        assert(slots(names@, np).subrange(0, j as int) =~= slots(names@, np));
    }
    builder.new_block("entry");
    let ghost b4 = *builder;
    proof {
        lemma_built_none(b4);
        assert(repeated(Build::PushLast(Instruction::Alloca { ty: IrType::I32, count: 1 }), 0) =~= Seq::<Build>::empty());
    }
    let mut k: usize = 0;
    while k < names.len()
        invariant
            k <= names@.len(),
            names@.len() <= stmts_vars(p.body@).len(),
            builder.wf(),
            builder.current_function_name() == Some(func_name@),
            builder.function_slot() == b4.function_slot(),
            builder.block_slot() is Some,
            b4.in_function(),
            builder.current_function().next_id() == b4.current_function().next_id(),
            builder.current_function().params == b4.current_function().params,
            builder.current_function().blocks@.len() > 0,
            built(b4, repeated(Build::PushLast(Instruction::Alloca { ty: IrType::I32, count: 1 }), k as nat), *builder),
        decreases names@.len() - k,
    {
        let ghost bm = *builder;
        builder.push_to_last_block(Instruction::Alloca { ty: IrType::I32, count: 1 });
        proof {
            let a = Build::PushLast(Instruction::Alloca { ty: IrType::I32, count: 1 });
            lemma_built_step(b4, repeated(a, k as nat), bm, a, *builder);
            assert(repeated(a, k as nat).push(a) =~= repeated(a, (k + 1) as nat));
        }
        k = k + 1;
    }
    let ghost b5 = *builder;
    let mut counter: u32 = 0;
    decompile_stmts(builder, &mut counter, &vars, &p.body, &func_name);
    let ghost b6 = *builder;
    let ends_in_return = match builder.last_block_terminator() {
        Terminator::Return { .. } => true,
        _ => false,
    };
    if !ends_in_return {
        builder.return_from_last_block();
    }
    proof {
        let ps = builder.current_function().params@;
        let a = Build::PushLast(Instruction::Alloca { ty: IrType::I32, count: 1 });
        let nv = names@.len();
        let s0 = seq![Build::Start(p.prototype.name@)];
        lemma_built_concat(b0, s0, b1, param_steps(pp), b2);
        let s1 = s0 + param_steps(pp);
        lemma_built_concat(b0, s1, b2, repeated(Build::Slot, nv), b3);
        let s2 = s1 + repeated(Build::Slot, nv);
        lemma_built_step(b0, s2, b3, Build::Open("entry"@), b4);
        let s3 = s2.push(Build::Open("entry"@));
        assert(s3 =~= s2 + seq![Build::Open("entry"@)]);
        lemma_built_concat(b0, s3, b4, repeated(a, nv), b5);
        let s4 = s3 + repeated(a, nv);
        let body = stmts_steps(p.body@, slots(names@, np), ps, 0, np + nv).0;
        lemma_built_concat(b0, s4, b5, body, b6);
        lemma_built_step(b0, s4 + body, b6, Build::ReturnLastUnlessReturning, *builder);
        assert((s4 + body).push(Build::ReturnLastUnlessReturning) =~= procedure_steps(*p, names@, ps));
        assert(procedure_vars(*p, names@) && built(b0, procedure_steps(*p, names@, ps), *builder));
    }
}

/// The procedures of sprites `sprites`, sprite by sprite.
pub open spec fn sprite_procedures(sprites: Seq<Sprite>) -> Seq<Procedure>
    decreases sprites.len(),
{
    if sprites.len() == 0 {
        seq![]
    } else {
        sprite_procedures(sprites.drop_last()) + sprites.last().procedures@
    }
}

/// The procedures of project `p`: the stage's, then each sprite's.
pub open spec fn project_procedures(p: Project) -> Seq<Procedure> {
    p.stage.procedures@ + sprite_procedures(p.sprites@)
}

/// Decompile procedures `procs` in order.
fn decompile_procedures(builder: &mut IrBuilder, procs: &Vec<Procedure>)
    requires
        old(builder).wf(),
        forall|i: int| 0 <= i < procs@.len() ==> procedure_fits(#[trigger] procs@[i]),
    ensures
        final(builder).wf(),
        procedures_done(*old(builder), procs@, *final(builder)),
{
    let ghost b0 = *builder;
    let mut i: usize = 0;
    proof {
        assert(procs@.subrange(0, 0) =~= Seq::<Procedure>::empty());
    }
    while i < procs.len()
        invariant
            i <= procs@.len(),
            builder.wf(),
            forall|q: int| 0 <= q < procs@.len() ==> procedure_fits(#[trigger] procs@[q]),
            procedures_done(b0, procs@.subrange(0, i as int), *builder),
        decreases procs@.len() - i,
    {
        let ghost bm = *builder;
        decompile_procedure(builder, &procs[i]);
        proof {
            lemma_procedures_step(b0, procs@.subrange(0, i as int), bm, procs@[i as int], *builder);
            assert(procs@.subrange(0, i as int).push(procs@[i as int]) =~= procs@.subrange(0, i + 1));
        }
        i = i + 1;
    }
    proof {
        assert(procs@.subrange(0, i as int) =~= procs@);
    }
}

/// Every procedure of project `p` fits the machine.
pub open spec fn project_fits(p: Project) -> bool {
    &&& forall|q: int| 0 <= q < p.stage.procedures@.len() ==> procedure_fits(#[trigger] p.stage.procedures@[q])
    &&& forall|i: int, q: int|
        0 <= i < p.sprites@.len() && 0 <= q < p.sprites@[i].procedures@.len() ==> procedure_fits(
            #[trigger] p.sprites@[i].procedures@[q],
        )
}

/// A fresh builder for a module whose entry function is `main`.
pub open spec fn fresh_builder(b: IrBuilder) -> bool {
    &&& b.wf()
    &&& b.module.functions@.len() == 0
    &&& b.module.entry@ == "main"@
    &&& b.module.static_data.image@.len() == 0
    &&& b.current_function_name() is None
    &&& b.current_block_label() is None
}

/// Decompiles a ScratchGraph project into a SAIR module.
#[derive(Debug, Clone)]
pub struct Decompiler;

impl Default for Decompiler {
    fn default() -> (r: Self)
        ensures
            r == Decompiler,
    {
        Decompiler
    }
}

impl Decompiler {
    /// A decompiler.
    pub fn new() -> (r: Self)
        ensures
            r == Decompiler,
    {
        Decompiler
    }

    /// Decompile every procedure of `project`, the stage's first and then
    /// each sprite's, into one void function each of a module whose entry
    /// is `main`.
    pub fn decompile(&self, project: &Project) -> (r: Result<IrModule, String>)
        requires
            project_fits(*project),
        ensures
            r matches Ok(m) && exists|b0: IrBuilder, b1: IrBuilder|
                fresh_builder(b0) && #[trigger] procedures_done(b0, project_procedures(*project), b1) && b1.module
                    == m,
    {
        let mut builder = IrBuilder::new("main");
        let ghost b0 = builder;
        proof {
            reveal_strlit("main");
        }
        decompile_procedures(&mut builder, &project.stage.procedures);
        let mut i: usize = 0;
        proof {
            assert(project.sprites@.subrange(0, 0) =~= Seq::<Sprite>::empty());
            assert(project.stage.procedures@ + sprite_procedures(Seq::<Sprite>::empty()) =~= project.stage.procedures@);
        }
        while i < project.sprites.len()
            invariant
                i <= project.sprites@.len(),
                builder.wf(),
                fresh_builder(b0),
                project_fits(*project),
                procedures_done(
                    b0,
                    project.stage.procedures@ + sprite_procedures(project.sprites@.subrange(0, i as int)),
                    builder,
                ),
            decreases project.sprites@.len() - i,
        {
            let ghost bm = *&builder;
            let ghost before = project.stage.procedures@ + sprite_procedures(project.sprites@.subrange(0, i as int));
            let ghost next = project.sprites@[i as int].procedures@;
            proof {
                let t = project.sprites@.subrange(0, i + 1);
                assert(t.drop_last() =~= project.sprites@.subrange(0, i as int));
                assert(before + next =~= project.stage.procedures@ + sprite_procedures(t));
                assert forall|q: int| 0 <= q < next.len() implies procedure_fits(#[trigger] next[q]) by {
                    assert(project.sprites@[i as int].procedures@[q] == next[q]);
                }
            }
            decompile_procedures(&mut builder, &project.sprites[i].procedures);
            proof {
                lemma_procedures_concat(b0, before, bm, next, builder);
            }
            i = i + 1;
        }
        proof {
            assert(project.sprites@.subrange(0, i as int) =~= project.sprites@);
        }
        let ghost b1 = builder;
        let m = builder.finish();
        proof {
            assert(fresh_builder(b0) && procedures_done(b0, project_procedures(*project), b1) && b1.module == m);
        }
        Ok(m)
    }
}

} // verus!
