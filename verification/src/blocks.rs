//! Laws of basic blocks: every block that the generator emits ends with one
//! terminator, and nothing stands between a terminator and the label of
//! the next block.

use crate::ir::Inst;
use crate::laws::{
    else_arm_entry, first_arm_entry, grows, lemma_call_grows, lemma_call_straight,
    lemma_expr_grows, lemma_expr_straight, lemma_no_terminators, lemma_signatures_quiet,
    lemma_statement_grows, lemma_statement_straight, straight, terminators,
};
use crate::lower::{
    bind_parameters, can_reserve, closed, declare, declare_signatures, emit, enter_body,
    is_statement, leave_arm, lower_block, lower_expr, lower_fundef, lower_ifelse, lower_program,
    lower_return, lower_statement, prologue, reserve, GenState,
};
use crate::parser::Tree;
use vstd::prelude::*;

verus! {

/// Whether `inst` sets a label, and so starts a basic block.
pub open spec fn starts_block(inst: Inst) -> bool {
    inst is Label
}

/// Whether `inst` closes the body of a function.
pub open spec fn ends_function(inst: Inst) -> bool {
    inst is EndDefine
}

/// Whether the instruction at `i` stands where the blocks let it: a label
/// only right after a terminator, and right after a terminator nothing but a
/// label or the end of the function.
pub open spec fn in_order(code: Seq<Inst>, i: int) -> bool {
    &&& starts_block(code[i]) ==> i > 0 && code[i - 1].is_terminator()
    &&& i > 0 && code[i - 1].is_terminator() ==> starts_block(code[i]) || ends_function(code[i])
}

/// Whether `t` has emitted all that `s` had, and every instruction since
/// stands where the blocks let it.
pub open spec fn keeps_blocks(s: GenState, t: GenState) -> bool {
    &&& s.code.len() <= t.code.len()
    &&& forall|i: int| 0 <= i < s.code.len() ==> #[trigger] t.code[i] == s.code[i]
    &&& forall|i: int| s.code.len() <= i < t.code.len() ==> #[trigger] in_order(t.code, i)
}

/// Stretches that keep the blocks compose.
pub proof fn lemma_blocks_transitive(a: GenState, b: GenState, c: GenState)
    requires
        keeps_blocks(a, b),
        keeps_blocks(b, c),
    ensures
        keeps_blocks(a, c),
{
    assert forall|i: int| 0 <= i < a.code.len() implies #[trigger] c.code[i] == a.code[i] by {
        assert(b.code[i] == a.code[i]);
    }
    assert forall|i: int| a.code.len() <= i < c.code.len() implies #[trigger] in_order(
        c.code,
        i,
    ) by {
        if i < b.code.len() {
            assert(in_order(b.code, i));
            assert(c.code[i] == b.code[i]);
            if i > 0 {
                assert(c.code[i - 1] == b.code[i - 1]);
            }
        }
    }
}

/// One more instruction keeps the blocks where it is a label after a
/// terminator, the end of a function, or anything but a label in a block
/// that is still open.
pub proof fn lemma_blocks_emit(s: GenState, t: GenState, inst: Inst)
    requires
        keeps_blocks(s, t),
        starts_block(inst) ==> closed(t),
        closed(t) ==> starts_block(inst) || ends_function(inst),
    ensures
        keeps_blocks(s, emit(t, inst)),
        closed(emit(t, inst)) == inst.is_terminator(),
{
    let u = emit(t, inst);
    assert forall|i: int| s.code.len() <= i < u.code.len() implies #[trigger] in_order(
        u.code,
        i,
    ) by {
        if i < t.code.len() {
            assert(in_order(t.code, i));
            assert(u.code[i] == t.code[i]);
            if i > 0 {
                assert(u.code[i - 1] == t.code[i - 1]);
            }
        } else if i > 0 {
            assert(u.code[i - 1] == t.code.last());
        }
    }
}

/// A stretch without labels and terminators that starts in an open block
/// keeps the blocks, and leaves the block open.
pub proof fn lemma_blocks_straight(s: GenState, t: GenState, u: GenState)
    requires
        keeps_blocks(s, t),
        grows(t, u),
        straight(t, u),
        !closed(t),
    ensures
        keeps_blocks(s, u),
        !closed(u),
{
    assert forall|i: int| t.code.len() <= i < u.code.len() implies #[trigger] in_order(
        u.code,
        i,
    ) by {
        assert(crate::laws::inside_block(u.code[i]));
        if i > t.code.len() {
            assert(crate::laws::inside_block(u.code[i - 1]));
        } else if i > 0 {
            assert(u.code[i - 1] == t.code[i - 1]);
        }
    }
    if u.code.len() > t.code.len() {
        assert(crate::laws::inside_block(u.code[u.code.len() - 1]));
    } else if u.code.len() > 0 {
        assert(u.code[u.code.len() - 1] == t.code[u.code.len() - 1]);
    }
    assert(keeps_blocks(t, u));
    lemma_blocks_transitive(s, t, u);
}

/// The end of an arm keeps the blocks and leaves the block of the arm
/// closed.
pub proof fn lemma_blocks_leave_arm(s: GenState, t: GenState, merge: int)
    requires
        keeps_blocks(s, t),
    ensures
        keeps_blocks(s, leave_arm(t, merge)),
        closed(leave_arm(t, merge)),
{
    if !closed(t) {
        lemma_blocks_emit(s, t, Inst::Jump { label: merge });
    }
}

/// The parameters get their slots in the open block in which the body of a
/// function starts.
pub proof fn lemma_parameters_keep_blocks(
    params: Seq<(Seq<char>, Seq<char>)>,
    first: int,
    count: int,
    s0: GenState,
    s: GenState,
)
    requires
        keeps_blocks(s0, s),
        !closed(s),
    ensures
        keeps_blocks(s0, bind_parameters(params, first, count, s)),
        !closed(bind_parameters(params, first, count, s)),
    decreases count,
{
    if count > 0 {
        lemma_parameters_keep_blocks(params, first, count - 1, s0, s);
        let before = bind_parameters(params, first, count - 1, s);
        let (ty, name) = params[count - 1];
        let id = first + count - 1;
        let a = Inst::Alloca { dst: id, ty };
        let b = Inst::StoreParam { ty, name, to: id };
        lemma_blocks_emit(s0, before, a);
        lemma_blocks_emit(s0, emit(before, a), b);
        assert(bind_parameters(params, first, count, s).code == emit(emit(before, a), b).code);
    }
}

/// A return in an open block keeps the blocks.
pub proof fn lemma_return_keeps_blocks(e: Tree, s: GenState)
    requires
        !closed(s),
    ensures
        keeps_blocks(s, lower_return(e, s).0),
{
    if !(s.depth == crate::lower::global_depth() || s.result == "void"@) {
        let ty = s.result;
        lemma_expr_grows(e, s);
        lemma_expr_straight(e, s);
        let (s1, value) = lower_expr(e, s);
        lemma_blocks_straight(s, s, s1);
        if let Ok(v) = value {
            if can_reserve(s1, 1) {
                let load = Inst::Load { dst: s1.next, ty, from: v };
                assert(keeps_blocks(s, reserve(s1, 1)));
                lemma_blocks_emit(s, reserve(s1, 1), load);
                lemma_blocks_emit(s, emit(reserve(s1, 1), load), Inst::Ret { ty, src: s1.next });
            }
        }
    }
}

/// A conditional in an open block keeps the blocks, whatever its arms hold.
pub proof fn lemma_ifelse_keeps_blocks(
    condition: Tree,
    if_body: Seq<Tree>,
    elif_body: Option<Seq<Tree>>,
    else_body: Option<Seq<Tree>>,
    s: GenState,
)
    requires
        !closed(s),
    ensures
        keeps_blocks(s, lower_ifelse(condition, if_body, elif_body, else_body, s).0),
    decreases crate::lower::conditional(condition, if_body, elif_body, else_body), 0nat,
{
    if elif_body is None {
        lemma_expr_grows(condition, s);
        lemma_expr_straight(condition, s);
        let (tested, test) = lower_expr(condition, s);
        lemma_blocks_straight(s, s, tested);
        if let Ok(flag) = test {
            let has_else = else_body is Some;
            let count: int = if has_else {
                4
            } else {
                3
            };
            if can_reserve(tested, count) {
                let base = tested.next;
                let merge = crate::lower::merge_label(base);
                let drawn = reserve(tested, count);
                let i1 = Inst::LoadPtr { dst: base, ty: "i1"@, from: flag };
                let i2 = Inst::Branch {
                    cond: base,
                    then_label: crate::lower::then_label(base),
                    else_label: if has_else {
                        crate::lower::else_label(base)
                    } else {
                        merge
                    },
                };
                let i3 = Inst::Label { id: crate::lower::then_label(base) };
                assert(keeps_blocks(s, drawn));
                lemma_blocks_emit(s, drawn, i1);
                lemma_blocks_emit(s, emit(drawn, i1), i2);
                lemma_blocks_emit(s, emit(emit(drawn, i1), i2), i3);
                let entry = first_arm_entry(flag, has_else, tested);
                match crate::lower::conditional(condition, if_body, elif_body, else_body) {
                    Tree::IfElse {
                        condition: _,
                        if_body: first_arm,
                        elif_body: _,
                        else_body: else_arm,
                    } => {
                        lemma_block_keeps_blocks(first_arm, entry);
                        let (done, first) = lower_block(first_arm, entry);
                        lemma_blocks_transitive(s, entry, done);
                        if first is Ok {
                            let left = leave_arm(done, merge);
                            let landing = Inst::Label { id: merge };
                            lemma_blocks_leave_arm(s, done, merge);
                            match else_arm {
                                None => {
                                    lemma_blocks_emit(s, left, landing);
                                },
                                Some(body) => {
                                    let label = Inst::Label { id: crate::lower::else_label(base) };
                                    let other_entry = else_arm_entry(base, done);
                                    lemma_blocks_emit(s, left, label);
                                    lemma_block_keeps_blocks(body, other_entry);
                                    let (other_done, second) = lower_block(body, other_entry);
                                    lemma_blocks_transitive(s, other_entry, other_done);
                                    if second is Ok {
                                        lemma_blocks_leave_arm(s, other_done, merge);
                                        lemma_blocks_emit(
                                            s,
                                            leave_arm(other_done, merge),
                                            landing,
                                        );
                                    }
                                },
                            }
                        }
                    },
                    _ => {},
                }
            }
        }
    }
}

/// A function definition in an open block keeps the blocks.
pub proof fn lemma_fundef_keeps_blocks(
    fn_name: Seq<char>,
    parameters: Seq<(Seq<char>, Seq<char>)>,
    ret_type: Option<Seq<char>>,
    body: Seq<Tree>,
    s: GenState,
)
    requires
        !closed(s),
    ensures
        keeps_blocks(s, lower_fundef(fn_name, parameters, ret_type, body, s).0),
    decreases body, 1nat,
{
    if s.depth == 1 && crate::lower::return_type(ret_type) is Some
        && crate::lower::parameters_lowerable(parameters) && can_reserve(
        s,
        parameters.len() as int + 1,
    ) {
        let ret = crate::lower::return_type(ret_type)->0;
        let params = crate::lower::lowered_parameters(parameters);
        let count = parameters.len() as int + 1;
        let define = Inst::Define { ret, name: fn_name, params };
        let s1 = emit(reserve(s, count), define);
        assert(keeps_blocks(s, reserve(s, count)));
        lemma_blocks_emit(s, reserve(s, count), define);
        let entered = enter_body(
            declare(
                s1,
                crate::lower::global_depth(),
                fn_name,
                crate::lower::signature_info(fn_name, ret, params),
            ),
            ret,
        );
        assert(entered.code == s1.code);
        assert(keeps_blocks(s, entered));
        lemma_parameters_keep_blocks(params, s.next, params.len() as int, s, entered);
        let s3 = bind_parameters(params, s.next, params.len() as int, entered);
        lemma_block_keeps_blocks(body, s3);
        let (s4, lowered) = lower_block(body, s3);
        lemma_blocks_transitive(s, s3, s4);
        if lowered is Ok {
            let s5 = if ret == "void"@ && !closed(s4) {
                emit(s4, Inst::RetVoid)
            } else {
                s4
            };
            if ret == "void"@ && !closed(s4) {
                lemma_blocks_emit(s, s4, Inst::RetVoid);
            }
            lemma_blocks_emit(s, s5, Inst::EndDefine);
            assert(lower_fundef(fn_name, parameters, ret_type, body, s).0.code == emit(
                s5,
                Inst::EndDefine,
            ).code);
        }
    }
}

/// A statement keeps the blocks, in whatever state it is lowered: after a
/// terminator it emits nothing.
pub proof fn lemma_statement_keeps_blocks(t: Tree, s: GenState)
    ensures
        keeps_blocks(s, lower_statement(t, s).0),
    decreases t, 1nat,
{
    if !(closed(s) && is_statement(t)) {
        match t {
            Tree::FunctionDefinition { fn_name, parameters, ret_type, body } => {
                lemma_fundef_keeps_blocks(fn_name, parameters, ret_type, body, s);
            },
            Tree::Return(e) => {
                lemma_return_keeps_blocks(*e, s);
            },
            Tree::IfElse { condition, if_body, elif_body, else_body } => {
                lemma_ifelse_keeps_blocks(*condition, if_body, elif_body, else_body, s);
            },
            Tree::VariableDefinition { .. } => {
                lemma_statement_grows(t, s);
                lemma_statement_straight(t, s);
                lemma_blocks_straight(s, s, lower_statement(t, s).0);
            },
            Tree::Assignment { .. } => {
                lemma_statement_grows(t, s);
                lemma_statement_straight(t, s);
                lemma_blocks_straight(s, s, lower_statement(t, s).0);
            },
            Tree::FunctionCall { fn_name, argument } => {
                lemma_call_grows(fn_name, argument, s);
                lemma_call_straight(fn_name, argument, s);
                lemma_blocks_straight(s, s, lower_statement(t, s).0);
            },
            _ => {},
        }
    }
}

/// A list of statements keeps the blocks, in whatever state it is lowered.
pub proof fn lemma_block_keeps_blocks(stmts: Seq<Tree>, s: GenState)
    ensures
        keeps_blocks(s, lower_block(stmts, s).0),
    decreases stmts, 0nat,
{
    if stmts.len() > 0 {
        lemma_block_keeps_blocks(stmts.drop_last(), s);
        let (s1, earlier) = lower_block(stmts.drop_last(), s);
        if earlier is Ok {
            lemma_statement_keeps_blocks(stmts.last(), s1);
            lemma_blocks_transitive(s, s1, lower_statement(stmts.last(), s1).0);
        }
    }
}

/// A generator whose block is open keeps the blocks in all that it emits
/// for a program, whether the lowering ends well or with an error: every
/// label comes right after a terminator, and after a terminator nothing
/// comes but a label or the end of the function.
pub proof fn lemma_program_keeps_blocks(t: Tree, triple: Seq<char>, s: GenState)
    requires
        !closed(s),
    ensures
        keeps_blocks(s, lower_program(t, triple, s).0),
{
    let lines = crate::lower::runtime_declarations();
    let s1 = emit(s, Inst::Target { triple });
    let s2 = emit(s1, Inst::Extern { line: lines[0] });
    let s3 = emit(s2, Inst::Extern { line: lines[1] });
    let s4 = emit(s3, Inst::Extern { line: lines[2] });
    let s5 = emit(s4, Inst::Extern { line: lines[3] });
    let s6 = emit(s5, Inst::Extern { line: lines[4] });
    assert(keeps_blocks(s, s));
    lemma_blocks_emit(s, s, Inst::Target { triple });
    lemma_blocks_emit(s, s1, Inst::Extern { line: lines[0] });
    lemma_blocks_emit(s, s2, Inst::Extern { line: lines[1] });
    lemma_blocks_emit(s, s3, Inst::Extern { line: lines[2] });
    lemma_blocks_emit(s, s4, Inst::Extern { line: lines[3] });
    lemma_blocks_emit(s, s5, Inst::Extern { line: lines[4] });
    assert(prologue(triple, s).code == s6.code);
    assert(keeps_blocks(s, prologue(triple, s)));
    match t {
        Tree::Program(stmts) => {
            let start = declare_signatures(stmts, prologue(triple, s));
            lemma_signatures_quiet(stmts, prologue(triple, s));
            assert(keeps_blocks(s, start));
            lemma_block_keeps_blocks(stmts, start);
            lemma_blocks_transitive(s, start, lower_block(stmts, start).0);
        },
        _ => {},
    }
}

/// The module of a new generator keeps the blocks: in all that it emits
/// for any tree, every label comes right after a terminator, and after a
/// terminator nothing comes but a label or the end of the function.
pub proof fn lemma_module_keeps_blocks(t: Tree, triple: Seq<char>)
    ensures
        keeps_blocks(
            crate::lower::fresh_state(),
            crate::lower::lower_module(t, triple, crate::lower::fresh_state()).0,
        ),
{
    let start = crate::lower::open_registry(crate::lower::fresh_state());
    lemma_program_keeps_blocks(t, triple, start);
}

/// Whether the instructions from `p` up to the label at `q` are one basic
/// block, or the end of one: no label and no end of a function stands
/// between the two.
pub open spec fn block_before_label(code: Seq<Inst>, p: int, q: int) -> bool {
    &&& 0 <= p < q < code.len()
    &&& starts_block(code[q])
    &&& forall|i: int| p < i < q ==> !starts_block(#[trigger] code[i]) && !ends_function(code[i])
}

/// Where the blocks are kept, every block ends with one terminator: of the
/// instructions from `p` up to the next label the last one is a terminator
/// and no other is.
pub proof fn lemma_block_ends_once(s: GenState, t: GenState, p: int, q: int)
    requires
        keeps_blocks(s, t),
        s.code.len() <= p,
        block_before_label(t.code, p, q),
    ensures
        t.code[q - 1].is_terminator(),
        forall|i: int| p <= i < q - 1 ==> !(#[trigger] t.code[i]).is_terminator(),
        terminators(t.code.subrange(p, q)) == 1,
{
    assert(in_order(t.code, q));
    assert forall|i: int| p <= i < q - 1 implies !(#[trigger] t.code[i]).is_terminator() by {
        assert(in_order(t.code, i + 1));
        assert(!starts_block(t.code[i + 1]) && !ends_function(t.code[i + 1]));
    }
    let block = t.code.subrange(p, q);
    let head = t.code.subrange(p, q - 1);
    assert(block.drop_last() =~= head);
    assert(block.last() == t.code[q - 1]);
    assert forall|i: int| 0 <= i < head.len() implies !(#[trigger] head[i]).is_terminator() by {
        assert(head[i] == t.code[p + i]);
    }
    lemma_no_terminators(head);
}

/// Every block of a conditional ends with one terminator, whatever its arms
/// hold: returns, conditionals of their own, or neither. In what a
/// conditional emits in an open block, each label comes right after a
/// terminator, and from any instruction up to the next label there is one
/// terminator, the last of them.
pub proof fn lemma_conditional_blocks(
    condition: Tree,
    if_body: Seq<Tree>,
    elif_body: Option<Seq<Tree>>,
    else_body: Option<Seq<Tree>>,
    s: GenState,
    p: int,
    q: int,
)
    requires
        !closed(s),
        s.code.len() <= p,
        block_before_label(
            lower_ifelse(condition, if_body, elif_body, else_body, s).0.code,
            p,
            q,
        ),
    ensures
        lower_ifelse(condition, if_body, elif_body, else_body, s).0.code[q - 1].is_terminator(),
        terminators(
            lower_ifelse(condition, if_body, elif_body, else_body, s).0.code.subrange(p, q),
        ) == 1,
{
    lemma_ifelse_keeps_blocks(condition, if_body, elif_body, else_body, s);
    lemma_block_ends_once(s, lower_ifelse(condition, if_body, elif_body, else_body, s).0, p, q);
}

/// The end of an arm, lowered in an open block from state `entry`: the arm
/// keeps the blocks and ends with a terminator, which is the jump to the
/// merge block where the arm left its block open, and the terminator of its
/// own last statement where it did not.
pub proof fn lemma_arm_ends_once(arm: Seq<Tree>, entry: GenState, merge: int)
    ensures
        closed(leave_arm(lower_block(arm, entry).0, merge)),
        keeps_blocks(entry, leave_arm(lower_block(arm, entry).0, merge)),
        !closed(lower_block(arm, entry).0) ==> leave_arm(
            lower_block(arm, entry).0,
            merge,
        ).code.last() == (Inst::Jump { label: merge }),
        closed(lower_block(arm, entry).0) ==> leave_arm(lower_block(arm, entry).0, merge)
            == lower_block(arm, entry).0,
{
    lemma_block_keeps_blocks(arm, entry);
    lemma_blocks_leave_arm(entry, lower_block(arm, entry).0, merge);
}

/// Whether the arm that was lowered from `entry` to `done` stands in `code`
/// as a stretch of blocks of its own: the label `label` right before it, a
/// terminator at its end and a label right after that.
pub open spec fn arm_in_place(
    code: Seq<Inst>,
    entry: GenState,
    done: GenState,
    label: int,
    merge: int,
) -> bool {
    let left = leave_arm(done, merge);
    &&& 0 < entry.code.len() <= done.code.len() <= left.code.len() < code.len()
    &&& code[entry.code.len() - 1] == (Inst::Label { id: label })
    &&& code[left.code.len() - 1].is_terminator()
    &&& closed(done) || code[left.code.len() - 1] == (Inst::Jump { label: merge })
    &&& starts_block(code[left.code.len() as int])
}

/// The shape of a conditional that was lowered in an open block, whatever
/// its arms hold.
///
/// The merge label is set once, by the last instruction. Each arm stands
/// after its own label and ends with a terminator that a label follows:
/// the jump to the merge label, unless the last statement of the arm ended
/// its block itself. All that the conditional emitted keeps the blocks, so
/// that each of its blocks has one terminator.
pub proof fn lemma_conditional_shape(
    condition: Tree,
    if_body: Seq<Tree>,
    elif_body: Option<Seq<Tree>>,
    else_body: Option<Seq<Tree>>,
    s: GenState,
)
    requires
        !closed(s),
        lower_ifelse(condition, if_body, elif_body, else_body, s).1 is Ok,
    ensures
        ({
            let t = lower_ifelse(condition, if_body, elif_body, else_body, s).0;
            let tested = lower_expr(condition, s).0;
            let flag = lower_expr(condition, s).1->Ok_0;
            let base = tested.next;
            let merge = crate::lower::merge_label(base);
            let entry = first_arm_entry(flag, else_body is Some, tested);
            let done = lower_block(if_body, entry).0;
            &&& keeps_blocks(s, t)
            &&& t.code.last() == (Inst::Label { id: merge })
            &&& crate::laws::label_count(crate::laws::emitted(s, t), merge) == 1
            &&& arm_in_place(t.code, entry, done, crate::lower::then_label(base), merge)
            &&& match else_body {
                None => true,
                Some(body) => {
                    let other_entry = else_arm_entry(base, done);
                    arm_in_place(
                        t.code,
                        other_entry,
                        lower_block(body, other_entry).0,
                        crate::lower::else_label(base),
                        merge,
                    )
                },
            }
        }),
{
    let t = lower_ifelse(condition, if_body, elif_body, else_body, s).0;
    let tested = lower_expr(condition, s).0;
    let flag = lower_expr(condition, s).1->Ok_0;
    let base = tested.next;
    let merge = crate::lower::merge_label(base);
    let has_else = else_body is Some;
    let entry = first_arm_entry(flag, has_else, tested);
    let done = lower_block(if_body, entry).0;
    let left = leave_arm(done, merge);
    let landing = Inst::Label { id: merge };

    lemma_ifelse_keeps_blocks(condition, if_body, elif_body, else_body, s);
    crate::laws::lemma_conditional_merges_once(condition, if_body, elif_body, else_body, s);
    crate::laws::lemma_entry_grows(flag, has_else, tested);
    lemma_arm_ends_once(if_body, entry, merge);
    match else_body {
        None => {
            assert(t == emit(left, landing));
            assert(t.code[entry.code.len() - 1] == left.code[entry.code.len() - 1]);
            assert(t.code[left.code.len() - 1] == left.code.last());
        },
        Some(body) => {
            let label = Inst::Label { id: crate::lower::else_label(base) };
            let other_entry = else_arm_entry(base, done);
            let other_done = lower_block(body, other_entry).0;
            let other_left = leave_arm(other_done, merge);
            lemma_arm_ends_once(body, other_entry, merge);
            assert(other_entry == emit(left, label));
            assert(t == emit(other_left, landing));
            assert(t.code[other_left.code.len() - 1] == other_left.code.last());
            assert(t.code[other_entry.code.len() - 1] == other_left.code[other_entry.code.len()
                - 1]);
            assert(other_left.code[other_entry.code.len() - 1] == other_entry.code.last());
            assert(t.code[left.code.len() as int] == other_left.code[left.code.len() as int]);
            assert(other_left.code[left.code.len() as int]
                == other_entry.code[left.code.len() as int]);
            assert(t.code[left.code.len() - 1] == other_left.code[left.code.len() - 1]);
            assert(other_left.code[left.code.len() - 1] == other_entry.code[left.code.len() - 1]);
            assert(t.code[entry.code.len() - 1] == other_left.code[entry.code.len() - 1]);
            assert(other_left.code[entry.code.len() - 1] == other_entry.code[entry.code.len() - 1]);
            assert(other_entry.code[entry.code.len() - 1] == left.code[entry.code.len() - 1]);
        },
    }
}

} // verus!
