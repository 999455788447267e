//! Laws of lowering: what holds of the instructions, the counter and the
//! registry whatever tree is lowered.

use crate::ir::{global_symbol, register, Inst};
use crate::lower::{
    bind_parameters, can_reserve, closed, declare, declare_signatures, defined_id, defines_within,
    emit, enter_body, ids_below, leave_arm, leave_body, lower_args, lower_assignment, lower_block,
    lower_call, lower_expr, lower_fundef, lower_identifier, lower_ifelse, lower_infix,
    lower_invocation, lower_number, lower_program, lower_return, lower_statement, lower_string,
    lower_vardef, pass_argument, prologue, reserve, slots_below, GenState, InfoView,
};
use crate::parser::Tree;
use vstd::prelude::*;

verus! {

/// Whether `t` can come after `s` in one run of a generator: the counter
/// has not gone back, everything that `s` had emitted stands unchanged at
/// the start of what `t` has emitted, and every id defined since was drawn
/// from the counter in between.
pub open spec fn grows(s: GenState, t: GenState) -> bool {
    &&& s.next <= t.next
    &&& s.code.len() <= t.code.len()
    &&& forall|i: int| 0 <= i < s.code.len() ==> #[trigger] t.code[i] == s.code[i]
    &&& forall|i: int|
        s.code.len() <= i < t.code.len() ==> defines_within(#[trigger] t.code[i], s.next, t.next)
}

/// What `t` has emitted since `s`.
pub open spec fn emitted(s: GenState, t: GenState) -> Seq<Inst> {
    t.code.skip(s.code.len() as int)
}

/// Growth composes.
pub proof fn lemma_grows_transitive(a: GenState, b: GenState, c: GenState)
    requires
        grows(a, b),
        grows(b, c),
    ensures
        grows(a, c),
{
    assert forall|i: int| 0 <= i < a.code.len() implies #[trigger] c.code[i] == a.code[i] by {
        assert(b.code[i] == a.code[i]);
    }
    assert forall|i: int| a.code.len() <= i < c.code.len() implies defines_within(
        #[trigger] c.code[i],
        a.next,
        c.next,
    ) by {
        if i < b.code.len() {
            assert(c.code[i] == b.code[i]);
            assert(defines_within(b.code[i], a.next, b.next));
        }
    }
}

/// Emitting an instruction that defines nothing, or an id drawn since `s`,
/// keeps growth from `s`.
pub proof fn lemma_emit_grows(s: GenState, t: GenState, inst: Inst)
    requires
        grows(s, t),
        defines_within(inst, s.next, t.next),
    ensures
        grows(s, emit(t, inst)),
{
    let u = emit(t, inst);
    assert forall|i: int| 0 <= i < s.code.len() implies #[trigger] u.code[i] == s.code[i] by {
        assert(t.code[i] == s.code[i]);
    }
    assert forall|i: int| s.code.len() <= i < u.code.len() implies defines_within(
        #[trigger] u.code[i],
        s.next,
        u.next,
    ) by {
        if i < t.code.len() {
            assert(u.code[i] == t.code[i]);
        }
    }
}

/// Drawing ids keeps growth.
pub proof fn lemma_reserve_grows(s: GenState, t: GenState, count: int)
    requires
        grows(s, t),
        count >= 0,
    ensures
        grows(s, reserve(t, count)),
{
    let u = reserve(t, count);
    assert forall|i: int| s.code.len() <= i < u.code.len() implies defines_within(
        #[trigger] u.code[i],
        s.next,
        u.next,
    ) by {
        assert(defines_within(t.code[i], s.next, t.next));
    }
}

/// A change of the registry or of the depth alone keeps growth.
pub proof fn lemma_same_output_grows(s: GenState, t: GenState, u: GenState)
    requires
        grows(s, t),
        u.next == t.next,
        u.code == t.code,
    ensures
        grows(s, u),
{
}

/// Lowering a literal, a reference or an operation on lowered operands
/// grows the state.
pub proof fn lemma_leaves_grow(s: GenState)
    ensures
        forall|text: Seq<char>| grows(s, #[trigger] lower_number(text, s).0),
        forall|text: Seq<char>| grows(s, #[trigger] lower_string(text, s).0),
        forall|name: Seq<char>| grows(s, #[trigger] lower_identifier(name, s).0),
        forall|ty: Seq<char>, value: Seq<char>| grows(s, #[trigger] pass_argument(ty, value, s).0),
{
    assert forall|text: Seq<char>| grows(s, #[trigger] lower_number(text, s).0) by {
        if s.depth != 1 && can_reserve(s, 1) {
            lemma_reserve_grows(s, s, 1);
            let s1 = reserve(s, 1);
            let a = Inst::Alloca { dst: s.next, ty: "i32"@ };
            lemma_emit_grows(s, s1, a);
            lemma_emit_grows(s, emit(s1, a), Inst::StoreImm { ty: "i32"@, value: text, to: s.next });
        }
    }
    assert forall|text: Seq<char>| grows(s, #[trigger] lower_string(text, s).0) by {
        if s.depth != 1 && can_reserve(s, 1) {
            lemma_reserve_grows(s, s, 1);
            let s1 = reserve(s, 1);
            let ty = crate::lower::array_type(text);
            let a = Inst::Alloca { dst: s.next, ty };
            lemma_emit_grows(s, s1, a);
            lemma_emit_grows(
                s,
                emit(s1, a),
                Inst::StoreImm { ty, value: crate::lower::array_literal(text), to: s.next },
            );
        }
    }
    assert forall|ty: Seq<char>, value: Seq<char>|
        grows(s, #[trigger] pass_argument(ty, value, s).0) by {
        if !crate::lower::is_reference_type(ty) && can_reserve(s, 1) {
            lemma_reserve_grows(s, s, 1);
            lemma_emit_grows(s, reserve(s, 1), Inst::LoadArg { dst: s.next, ty, from: value });
        }
    }
}

/// Lowering a binary operation on lowered operands grows the state.
pub proof fn lemma_infix_grows(op: Seq<char>, left: Seq<char>, right: Seq<char>, s: GenState)
    ensures
        grows(s, lower_infix(op, left, right, s).0),
{
    if s.depth != 1 {
        match crate::lower::binary_operator(op) {
            None => {},
            Some(operator) => {
                if can_reserve(s, 4) {
                    let n = s.next;
                    let ty = crate::ir::result_type(operator);
                    lemma_reserve_grows(s, s, 4);
                    let i1 = Inst::Load { dst: n, ty: "i32"@, from: left };
                    let i2 = Inst::Load { dst: n + 1, ty: "i32"@, from: right };
                    let i3 = Inst::Binary { dst: n + 2, op: operator, lhs: n, rhs: n + 1 };
                    let i4 = Inst::Alloca { dst: n + 3, ty };
                    let i5 = Inst::StorePtr { ty, src: n + 2, to: n + 3 };
                    let s1 = emit(reserve(s, 4), i1);
                    let s2 = emit(s1, i2);
                    let s3 = emit(s2, i3);
                    let s4 = emit(s3, i4);
                    lemma_emit_grows(s, reserve(s, 4), i1);
                    lemma_emit_grows(s, s1, i2);
                    lemma_emit_grows(s, s2, i3);
                    lemma_emit_grows(s, s3, i4);
                    lemma_emit_grows(s, s4, i5);
                }
            },
        }
    }
}

/// Emitting a call grows the state.
pub proof fn lemma_invocation_grows(
    name: Seq<char>,
    ret: Seq<char>,
    args: Seq<(Seq<char>, Seq<char>)>,
    s: GenState,
)
    ensures
        grows(s, lower_invocation(name, ret, args, s).0),
{
    if ret == "void"@ {
        if can_reserve(s, 1) {
            lemma_reserve_grows(s, s, 1);
            lemma_emit_grows(s, reserve(s, 1), Inst::Call { result: None, ret, name, args });
        }
    } else if can_reserve(s, 2) {
        let n = s.next;
        lemma_reserve_grows(s, s, 2);
        let i1 = Inst::Call { result: Some(n), ret, name, args };
        let i2 = Inst::AllocaResult { dst: n + 1, ty: ret };
        let i3 = Inst::StoreResult { ty: ret, src: n, to: n + 1 };
        let s1 = emit(reserve(s, 2), i1);
        let s2 = emit(s1, i2);
        lemma_emit_grows(s, reserve(s, 2), i1);
        lemma_emit_grows(s, s1, i2);
        lemma_emit_grows(s, s2, i3);
    }
}

/// Lowering an expression grows the state: the counter never goes back,
/// nothing emitted is ever changed, and every new register takes a fresh id.
pub proof fn lemma_expr_grows(e: Tree, s: GenState)
    ensures
        grows(s, lower_expr(e, s).0),
    decreases e, 0nat,
{
    lemma_leaves_grow(s);
    match e {
        Tree::InfixExpression { left_expr, op, right_expr } => {
            lemma_expr_grows(*left_expr, s);
            let (s1, left) = lower_expr(*left_expr, s);
            if let Ok(l) = left {
                lemma_expr_grows(*right_expr, s1);
                let (s2, right) = lower_expr(*right_expr, s1);
                lemma_grows_transitive(s, s1, s2);
                if let Ok(r) = right {
                    lemma_infix_grows(op, l, r, s2);
                    lemma_grows_transitive(s, s2, lower_infix(op, l, r, s2).0);
                }
            }
        },
        Tree::FunctionCall { fn_name, argument } => {
            lemma_call_grows(fn_name, argument, s);
        },
        _ => {},
    }
}

/// Lowering the arguments of a call grows the state.
pub proof fn lemma_args_grow(args: Seq<Tree>, types: Seq<Seq<char>>, s: GenState)
    ensures
        grows(s, lower_args(args, types, s).0),
    decreases args, 0nat,
{
    if args.len() > 0 {
        lemma_args_grow(args.drop_last(), types, s);
        let (s1, earlier) = lower_args(args.drop_last(), types, s);
        if earlier is Ok {
            lemma_expr_grows(args.last(), s1);
            let (s2, value) = lower_expr(args.last(), s1);
            lemma_grows_transitive(s, s1, s2);
            if let Ok(v) = value {
                lemma_leaves_grow(s2);
                let s3 = pass_argument(types[args.len() - 1], v, s2).0;
                lemma_grows_transitive(s, s2, s3);
            }
        }
    }
}

/// Lowering a call grows the state.
pub proof fn lemma_call_grows(name: Seq<char>, args: Seq<Tree>, s: GenState)
    ensures
        grows(s, lower_call(name, args, s).0),
    decreases args, 1nat,
{
    match crate::lower::find_function(s.frames, name) {
        None => {},
        Some(callee) => {
            let types = callee->Function_paras;
            if args.len() == types.len() {
                lemma_args_grow(args, types, s);
                let (s1, lowered) = lower_args(args, types, s);
                if let Ok(passed) = lowered {
                    lemma_invocation_grows(name, callee->Function_ret_ty, passed, s1);
                    lemma_grows_transitive(
                        s,
                        s1,
                        lower_invocation(name, callee->Function_ret_ty, passed, s1).0,
                    );
                }
            }
        },
    }
}

/// Lowering a variable definition grows the state.
pub proof fn lemma_vardef_grows(
    var_type: Seq<char>,
    identifier: Seq<char>,
    var_value: Option<Box<Tree>>,
    s: GenState,
)
    ensures
        grows(s, lower_vardef(var_type, identifier, var_value, s).0),
    decreases var_value, 1nat,
{
    match crate::lower::llvm_type(var_type) {
        None => {},
        Some(ty) => {
            if can_reserve(s, 1) {
                let id = s.next;
                lemma_reserve_grows(s, s, 1);
                if s.depth != 1 {
                    let s1 = emit(reserve(s, 1), Inst::Alloca { dst: id, ty });
                    lemma_emit_grows(s, reserve(s, 1), Inst::Alloca { dst: id, ty });
                    match var_value {
                        None => {
                            lemma_same_output_grows(
                                s,
                                s1,
                                lower_vardef(var_type, identifier, var_value, s).0,
                            );
                        },
                        Some(e) => {
                            lemma_expr_grows(*e, s1);
                            let (s3, value) = lower_expr(*e, s1);
                            lemma_grows_transitive(s, s1, s3);
                            if let Ok(v) = value {
                                if can_reserve(s3, 1) {
                                    lemma_reserve_grows(s, s3, 1);
                                    let load = Inst::Load { dst: s3.next, ty, from: v };
                                    let s4 = emit(reserve(s3, 1), load);
                                    lemma_emit_grows(s, reserve(s3, 1), load);
                                    let store = Inst::Store { ty, src: s3.next, to: id };
                                    lemma_emit_grows(s, s4, store);
                                    lemma_same_output_grows(
                                        s,
                                        emit(s4, store),
                                        lower_vardef(var_type, identifier, var_value, s).0,
                                    );
                                }
                            }
                        },
                    }
                } else {
                    let s1 = reserve(s, 1);
                    match var_value {
                        None => {
                            let global = Inst::Global { id, ty, init: "0"@ };
                            lemma_emit_grows(s, s1, global);
                            lemma_same_output_grows(
                                s,
                                emit(s1, global),
                                lower_vardef(var_type, identifier, var_value, s).0,
                            );
                        },
                        Some(e) => {
                            lemma_expr_grows(*e, s1);
                            let (s2, init) = lower_expr(*e, s1);
                            lemma_grows_transitive(s, s1, s2);
                            if let Ok(value) = init {
                                let global = Inst::Global { id, ty, init: value };
                                lemma_emit_grows(s, s2, global);
                                lemma_same_output_grows(
                                    s,
                                    emit(s2, global),
                                    lower_vardef(var_type, identifier, var_value, s).0,
                                );
                            }
                        },
                    }
                }
            }
        },
    }
}

/// Lowering an assignment grows the state.
pub proof fn lemma_assignment_grows(
    identifier: Seq<char>,
    var_value: Option<Box<Tree>>,
    s: GenState,
)
    ensures
        grows(s, lower_assignment(identifier, var_value, s).0),
    decreases var_value, 1nat,
{
    match crate::lower::find_variable(s.frames, identifier, s.depth) {
        None => {},
        Some(target) => match var_value {
            None => {},
            Some(e) => {
                lemma_expr_grows(*e, s);
                let (s1, value) = lower_expr(*e, s);
                if let Ok(v) = value {
                    if can_reserve(s1, 1) {
                        let ty = target->Variable_ty;
                        lemma_reserve_grows(s, s1, 1);
                        let load = Inst::LoadPtr { dst: s1.next, ty, from: v };
                        lemma_emit_grows(s, reserve(s1, 1), load);
                        lemma_emit_grows(
                            s,
                            emit(reserve(s1, 1), load),
                            Inst::StoreVar { ty, src: s1.next, target: target->Variable_tmp_name },
                        );
                    }
                }
            },
        },
    }
}

/// Lowering a return grows the state.
pub proof fn lemma_return_grows(e: Tree, s: GenState)
    ensures
        grows(s, lower_return(e, s).0),
    decreases e, 1nat,
{
    if !(s.depth == crate::lower::global_depth() || s.result == "void"@) {
        let ty = s.result;
        lemma_expr_grows(e, s);
        let (s1, value) = lower_expr(e, s);
        if let Ok(v) = value {
            if can_reserve(s1, 1) {
                lemma_reserve_grows(s, s1, 1);
                let load = Inst::Load { dst: s1.next, ty, from: v };
                lemma_emit_grows(s, reserve(s1, 1), load);
                lemma_emit_grows(s, emit(reserve(s1, 1), load), Inst::Ret { ty, src: s1.next });
            }
        }
    }
}

/// Giving the parameters their slots grows the state, provided their ids
/// were drawn.
pub proof fn lemma_parameters_grow(
    params: Seq<(Seq<char>, Seq<char>)>,
    first: int,
    count: int,
    s0: GenState,
    s: GenState,
)
    requires
        grows(s0, s),
        s0.next <= first,
        first + count <= s.next,
    ensures
        grows(s0, bind_parameters(params, first, count, s)),
        bind_parameters(params, first, count, s).next == s.next,
        bind_parameters(params, first, count, s).depth == s.depth,
    decreases count,
{
    if count > 0 {
        lemma_parameters_grow(params, first, count - 1, s0, s);
        let before = bind_parameters(params, first, count - 1, s);
        let (ty, name) = params[count - 1];
        let id = first + count - 1;
        let a = Inst::Alloca { dst: id, ty };
        lemma_emit_grows(s0, before, a);
        let b = Inst::StoreParam { ty, name, to: id };
        lemma_emit_grows(s0, emit(before, a), b);
        lemma_same_output_grows(
            s0,
            emit(emit(before, a), b),
            bind_parameters(params, first, count, s),
        );
    }
}

/// Lowering a conditional grows the state.
pub proof fn lemma_ifelse_grows(
    condition: Tree,
    if_body: Seq<Tree>,
    elif_body: Option<Seq<Tree>>,
    else_body: Option<Seq<Tree>>,
    s: GenState,
)
    ensures
        grows(s, lower_ifelse(condition, if_body, elif_body, else_body, s).0),
    decreases crate::lower::conditional(condition, if_body, elif_body, else_body), 0nat,
{
    lemma_expr_grows(condition, s);
    let (s1, tested) = lower_expr(condition, s);
    if let Ok(flag) = tested {
        let count: int = if else_body is Some {
            4
        } else {
            3
        };
        if can_reserve(s1, count) {
            let base = s1.next;
            let merge = crate::lower::merge_label(base);
            let other = if else_body is Some {
                crate::lower::else_label(base)
            } else {
                merge
            };
            lemma_reserve_grows(s, s1, count);
            let i1 = Inst::LoadPtr { dst: base, ty: "i1"@, from: flag };
            let i2 = Inst::Branch {
                cond: base,
                then_label: crate::lower::then_label(base),
                else_label: other,
            };
            let i3 = Inst::Label { id: crate::lower::then_label(base) };
            let s2 = emit(reserve(s1, count), i1);
            let s3 = emit(s2, i2);
            let s4 = emit(s3, i3);
            lemma_emit_grows(s, reserve(s1, count), i1);
            lemma_emit_grows(s, s2, i2);
            lemma_emit_grows(s, s3, i3);
            match crate::lower::conditional(condition, if_body, elif_body, else_body) {
                Tree::IfElse { condition: _, if_body: first_arm, elif_body: _, else_body: else_arm } => {
                    lemma_block_grows(first_arm, s4);
                    let (s5, first) = lower_block(first_arm, s4);
                    lemma_grows_transitive(s, s4, s5);
                    if first is Ok {
                        let s6 = leave_arm(s5, merge);
                        lemma_leave_arm(s, s5, merge);
                        match else_arm {
                            None => {
                                lemma_emit_grows(s, s6, Inst::Label { id: merge });
                            },
                            Some(body) => {
                                let label = Inst::Label { id: crate::lower::else_label(base) };
                                let s7 = emit(s6, label);
                                lemma_emit_grows(s, s6, label);
                                lemma_block_grows(body, s7);
                                let (s8, second) = lower_block(body, s7);
                                lemma_grows_transitive(s, s7, s8);
                                if second is Ok {
                                    lemma_leave_arm(s, s8, merge);
                                    lemma_emit_grows(
                                        s,
                                        leave_arm(s8, merge),
                                        Inst::Label { id: merge },
                                    );
                                }
                            },
                        }
                    }
                },
                _ => {},
            }
        }
    }
}

/// Lowering a function definition grows the state.
pub proof fn lemma_fundef_grows(
    fn_name: Seq<char>,
    parameters: Seq<(Seq<char>, Seq<char>)>,
    ret_type: Option<Seq<char>>,
    body: Seq<Tree>,
    s: GenState,
)
    ensures
        grows(s, lower_fundef(fn_name, parameters, ret_type, body, s).0),
    decreases body, 1nat,
{
    if s.depth == 1 && crate::lower::return_type(ret_type) is Some
        && crate::lower::parameters_lowerable(parameters) && can_reserve(
        s,
        parameters.len() as int + 1,
    ) {
        let ret = crate::lower::return_type(ret_type)->0;
        let params = crate::lower::lowered_parameters(parameters);
        lemma_reserve_grows(s, s, parameters.len() as int + 1);
        let define = Inst::Define { ret, name: fn_name, params };
        let s1 = emit(reserve(s, parameters.len() as int + 1), define);
        lemma_emit_grows(s, reserve(s, parameters.len() as int + 1), define);
        let s2 = declare(
            s1,
            crate::lower::global_depth(),
            fn_name,
            crate::lower::signature_info(fn_name, ret, params),
        );
        let entered = enter_body(s2, ret);
        lemma_same_output_grows(s, s1, entered);
        lemma_parameters_grow(params, s.next, params.len() as int, s, entered);
        let s3 = bind_parameters(params, s.next, params.len() as int, entered);
        lemma_block_grows(body, s3);
        let (s4, lowered) = lower_block(body, s3);
        lemma_grows_transitive(s, s3, s4);
        if lowered is Ok {
            let s5 = if ret == "void"@ && !closed(s4) {
                emit(s4, Inst::RetVoid)
            } else {
                s4
            };
            if ret == "void"@ && !closed(s4) {
                lemma_emit_grows(s, s4, Inst::RetVoid);
            }
            lemma_emit_grows(s, s5, Inst::EndDefine);
            lemma_same_output_grows(
                s,
                emit(s5, Inst::EndDefine),
                lower_fundef(fn_name, parameters, ret_type, body, s).0,
            );
        }
    }
}

/// Lowering a statement grows the state.
pub proof fn lemma_statement_grows(t: Tree, s: GenState)
    ensures
        grows(s, lower_statement(t, s).0),
    decreases t, 1nat,
{
    match t {
        Tree::VariableDefinition { var_type, identifier, var_value } => {
            lemma_vardef_grows(var_type, identifier, var_value, s);
        },
        Tree::Assignment { identifier, var_value } => {
            lemma_assignment_grows(identifier, var_value, s);
        },
        Tree::FunctionDefinition { fn_name, parameters, ret_type, body } => {
            lemma_fundef_grows(fn_name, parameters, ret_type, body, s);
        },
        Tree::Return(e) => {
            lemma_return_grows(*e, s);
        },
        Tree::IfElse { condition, if_body, elif_body, else_body } => {
            lemma_ifelse_grows(*condition, if_body, elif_body, else_body, s);
        },
        Tree::FunctionCall { fn_name, argument } => {
            lemma_call_grows(fn_name, argument, s);
        },
        _ => {},
    }
}

/// Lowering a block grows the state.
pub proof fn lemma_block_grows(stmts: Seq<Tree>, s: GenState)
    ensures
        grows(s, lower_block(stmts, s).0),
    decreases stmts, 0nat,
{
    if stmts.len() > 0 {
        lemma_block_grows(stmts.drop_last(), s);
        let (s1, earlier) = lower_block(stmts.drop_last(), s);
        if earlier is Ok {
            lemma_statement_grows(stmts.last(), s1);
            lemma_grows_transitive(s, s1, lower_statement(stmts.last(), s1).0);
        }
    }
}

/// Declaring signatures emits nothing and draws no id.
pub proof fn lemma_signatures_quiet(stmts: Seq<Tree>, s: GenState)
    ensures
        declare_signatures(stmts, s).code == s.code,
        declare_signatures(stmts, s).next == s.next,
        declare_signatures(stmts, s).depth == s.depth,
        declare_signatures(stmts, s).result == s.result,
    decreases stmts.len(),
{
    if stmts.len() > 0 {
        lemma_signatures_quiet(stmts.drop_last(), s);
        let before = declare_signatures(stmts.drop_last(), s);
        assert(declare_signatures(stmts, s) == crate::lower::declare_signature(
            stmts.last(),
            before,
        ));
    }
}

/// Signatures are declared in the same way with another past.
pub proof fn lemma_signatures_rebased(
    stmts: Seq<Tree>,
    s: GenState,
    history: Seq<Inst>,
    from: int,
)
    ensures
        declare_signatures(stmts, rebased(s, history, from)) == rebased(
            declare_signatures(stmts, s),
            history,
            from,
        ),
    decreases stmts.len(),
{
    if stmts.len() > 0 {
        lemma_signatures_rebased(stmts.drop_last(), s, history, from);
        let before = declare_signatures(stmts.drop_last(), s);
        assert(declare_signatures(stmts, s) == crate::lower::declare_signature(
            stmts.last(),
            before,
        ));
        assert(declare_signatures(stmts, rebased(s, history, from))
            == crate::lower::declare_signature(stmts.last(), rebased(before, history, from)));
    }
}

/// `s` after the module prologue has emitted the head of the module and
/// nothing else, and has drawn no id.
pub proof fn lemma_prologue(triple: Seq<char>, s: GenState)
    ensures
        grows(s, prologue(triple, s)),
        defines_once(s, prologue(triple, s)),
        prologue(triple, s).next == s.next,
{
    let lines = crate::lower::runtime_declarations();
    lemma_once_start(s);
    let s1 = emit(s, Inst::Target { triple });
    lemma_once_emit_plain(s, s, Inst::Target { triple }, s.next);
    let s2 = emit(s1, Inst::Extern { line: lines[0] });
    lemma_once_emit_plain(s, s1, Inst::Extern { line: lines[0] }, s.next);
    let s3 = emit(s2, Inst::Extern { line: lines[1] });
    lemma_once_emit_plain(s, s2, Inst::Extern { line: lines[1] }, s.next);
    let s4 = emit(s3, Inst::Extern { line: lines[2] });
    lemma_once_emit_plain(s, s3, Inst::Extern { line: lines[2] }, s.next);
    let s5 = emit(s4, Inst::Extern { line: lines[3] });
    lemma_once_emit_plain(s, s4, Inst::Extern { line: lines[3] }, s.next);
    let s6 = emit(s5, Inst::Extern { line: lines[4] });
    lemma_once_emit_plain(s, s5, Inst::Extern { line: lines[4] }, s.next);
    lemma_once_same_output(s, s6, prologue(triple, s));
}

/// The synthetic id counter only moves forward, nothing that was emitted
/// is ever changed, and every register, static symbol and label that a
/// module defines takes an id that was drawn for it: this holds from the
/// state in which the lowering of a program starts to the state in which it
/// ends, whether it ends well or with an error.
pub proof fn lemma_program_grows(t: Tree, triple: Seq<char>, s: GenState)
    ensures
        grows(s, lower_program(t, triple, s).0),
{
    lemma_prologue(triple, s);
    match t {
        Tree::Program(stmts) => {
            let start = declare_signatures(stmts, prologue(triple, s));
            lemma_signatures_quiet(stmts, prologue(triple, s));
            lemma_same_output_grows(s, prologue(triple, s), start);
            lemma_block_grows(stmts, start);
            lemma_grows_transitive(s, start, lower_block(stmts, start).0);
        },
        _ => {},
    }
}

/// What was emitted from `s` to `u` is what was emitted from `s` to `t`
/// followed by what was emitted from `t` to `u`.
pub proof fn lemma_emitted_concat(s: GenState, t: GenState, u: GenState)
    requires
        grows(s, t),
        grows(t, u),
    ensures
        emitted(s, u) == emitted(s, t) + emitted(t, u),
{
    assert forall|i: int| 0 <= i < emitted(s, t).len() implies emitted(s, u)[i] == emitted(
        s,
        t,
    )[i] by {
        assert(u.code[s.code.len() + i] == t.code[s.code.len() + i]);
    }
    assert(emitted(s, u) =~= emitted(s, t) + emitted(t, u));
}

/// What was emitted by one more instruction.
pub proof fn lemma_emitted_push(s: GenState, t: GenState, inst: Inst)
    requires
        grows(s, t),
    ensures
        emitted(s, emit(t, inst)) == emitted(s, t).push(inst),
{
    assert(emitted(s, emit(t, inst)) =~= emitted(s, t).push(inst));
}

/// Whether `inst` neither ends a basic block nor starts one.
pub open spec fn inside_block(inst: Inst) -> bool {
    !inst.is_terminator() && !(inst is Label)
}

/// Whether everything that was emitted from `s` to `t` stays inside one
/// basic block.
pub open spec fn straight(s: GenState, t: GenState) -> bool {
    forall|i: int| s.code.len() <= i < t.code.len() ==> inside_block(#[trigger] t.code[i])
}

/// Straight stretches compose.
pub proof fn lemma_straight_transitive(a: GenState, b: GenState, c: GenState)
    requires
        grows(a, b),
        grows(b, c),
        straight(a, b),
        straight(b, c),
    ensures
        straight(a, c),
{
    assert forall|i: int| a.code.len() <= i < c.code.len() implies inside_block(
        #[trigger] c.code[i],
    ) by {
        if i < b.code.len() {
            assert(c.code[i] == b.code[i]);
        }
    }
}

/// One more instruction that stays inside the block keeps a stretch
/// straight.
pub proof fn lemma_straight_emit(s: GenState, t: GenState, inst: Inst)
    requires
        straight(s, t),
        s.code.len() <= t.code.len(),
        inside_block(inst),
    ensures
        straight(s, emit(t, inst)),
{
    let u = emit(t, inst);
    assert forall|i: int| s.code.len() <= i < u.code.len() implies inside_block(
        #[trigger] u.code[i],
    ) by {
        if i < t.code.len() {
            assert(u.code[i] == t.code[i]);
        }
    }
}

/// An expression is lowered into one straight stretch: no label and no
/// terminator.
pub proof fn lemma_expr_straight(e: Tree, s: GenState)
    ensures
        straight(s, lower_expr(e, s).0),
    decreases e, 0nat,
{
    match e {
        Tree::InfixExpression { left_expr, op, right_expr } => {
            lemma_expr_straight(*left_expr, s);
            lemma_expr_grows(*left_expr, s);
            let (s1, left) = lower_expr(*left_expr, s);
            if let Ok(l) = left {
                lemma_expr_straight(*right_expr, s1);
                lemma_expr_grows(*right_expr, s1);
                let (s2, right) = lower_expr(*right_expr, s1);
                lemma_straight_transitive(s, s1, s2);
                lemma_grows_transitive(s, s1, s2);
                if let Ok(r) = right {
                    lemma_infix_grows(op, l, r, s2);
                    lemma_straight_transitive(s, s2, lower_infix(op, l, r, s2).0);
                }
            }
        },
        Tree::FunctionCall { fn_name, argument } => {
            lemma_call_straight(fn_name, argument, s);
        },
        _ => {},
    }
}

/// The arguments of a call are lowered into one straight stretch.
pub proof fn lemma_args_straight(args: Seq<Tree>, types: Seq<Seq<char>>, s: GenState)
    ensures
        straight(s, lower_args(args, types, s).0),
    decreases args, 0nat,
{
    if args.len() > 0 {
        lemma_args_straight(args.drop_last(), types, s);
        lemma_args_grow(args.drop_last(), types, s);
        let (s1, earlier) = lower_args(args.drop_last(), types, s);
        if earlier is Ok {
            lemma_expr_straight(args.last(), s1);
            lemma_expr_grows(args.last(), s1);
            let (s2, value) = lower_expr(args.last(), s1);
            lemma_straight_transitive(s, s1, s2);
            lemma_grows_transitive(s, s1, s2);
            if let Ok(v) = value {
                lemma_leaves_grow(s2);
                let s3 = pass_argument(types[args.len() - 1], v, s2).0;
                lemma_straight_transitive(s, s2, s3);
            }
        }
    }
}

/// A call is lowered into one straight stretch.
pub proof fn lemma_call_straight(name: Seq<char>, args: Seq<Tree>, s: GenState)
    ensures
        straight(s, lower_call(name, args, s).0),
    decreases args, 1nat,
{
    match crate::lower::find_function(s.frames, name) {
        None => {},
        Some(callee) => {
            let types = callee->Function_paras;
            if args.len() == types.len() {
                lemma_args_straight(args, types, s);
                lemma_args_grow(args, types, s);
                let (s1, lowered) = lower_args(args, types, s);
                if let Ok(passed) = lowered {
                    lemma_invocation_grows(name, callee->Function_ret_ty, passed, s1);
                    lemma_straight_transitive(
                        s,
                        s1,
                        lower_invocation(name, callee->Function_ret_ty, passed, s1).0,
                    );
                }
            }
        },
    }
}

/// Whether a statement is free of control flow: no return, no conditional
/// and no function definition.
pub open spec fn plain(t: Tree) -> bool {
    !(t is Return) && !(t is IfElse) && !(t is FunctionDefinition)
}

/// A statement that is free of control flow is lowered into one straight
/// stretch.
pub proof fn lemma_statement_straight(t: Tree, s: GenState)
    requires
        plain(t),
    ensures
        straight(s, lower_statement(t, s).0),
{
    match t {
        Tree::VariableDefinition { var_type, identifier, var_value } => {
            match crate::lower::llvm_type(var_type) {
                None => {},
                Some(ty) => {
                    if can_reserve(s, 1) {
                        let id = s.next;
                        if s.depth != 1 {
                            let s1 = emit(reserve(s, 1), Inst::Alloca { dst: id, ty });
                            lemma_reserve_grows(s, s, 1);
                            lemma_emit_grows(s, reserve(s, 1), Inst::Alloca { dst: id, ty });
                            match var_value {
                                None => {},
                                Some(e) => {
                                    lemma_expr_straight(*e, s1);
                                    lemma_expr_grows(*e, s1);
                                    let (s3, value) = lower_expr(*e, s1);
                                    lemma_straight_transitive(s, s1, s3);
                                    lemma_grows_transitive(s, s1, s3);
                                    if let Ok(v) = value {
                                        if can_reserve(s3, 1) {
                                            let load = Inst::Load { dst: s3.next, ty, from: v };
                                            lemma_straight_emit(s, reserve(s3, 1), load);
                                            lemma_straight_emit(
                                                s,
                                                emit(reserve(s3, 1), load),
                                                Inst::Store { ty, src: s3.next, to: id },
                                            );
                                        }
                                    }
                                },
                            }
                        } else {
                            let s1 = reserve(s, 1);
                            match var_value {
                                None => {},
                                Some(e) => {
                                    lemma_expr_straight(*e, s1);
                                    lemma_expr_grows(*e, s1);
                                    let (s2, init) = lower_expr(*e, s1);
                                    if let Ok(value) = init {
                                        lemma_straight_emit(
                                            s,
                                            s2,
                                            Inst::Global { id, ty, init: value },
                                        );
                                    }
                                },
                            }
                        }
                    }
                },
            }
        },
        Tree::Assignment { identifier, var_value } => {
            match crate::lower::find_variable(s.frames, identifier, s.depth) {
                None => {},
                Some(target) => match var_value {
                    None => {},
                    Some(e) => {
                        lemma_expr_straight(*e, s);
                        lemma_expr_grows(*e, s);
                        let (s1, value) = lower_expr(*e, s);
                        if let Ok(v) = value {
                            if can_reserve(s1, 1) {
                                let ty = target->Variable_ty;
                                let load = Inst::LoadPtr { dst: s1.next, ty, from: v };
                                lemma_straight_emit(s, reserve(s1, 1), load);
                                lemma_straight_emit(
                                    s,
                                    emit(reserve(s1, 1), load),
                                    Inst::StoreVar {
                                        ty,
                                        src: s1.next,
                                        target: target->Variable_tmp_name,
                                    },
                                );
                            }
                        }
                    },
                },
            }
        },
        Tree::FunctionCall { fn_name, argument } => {
            lemma_call_straight(fn_name, argument, s);
        },
        _ => {},
    }
}

/// How many instructions of `code` end a basic block.
pub open spec fn terminators(code: Seq<Inst>) -> nat
    decreases code.len(),
{
    if code.len() == 0 {
        0
    } else if code.last().is_terminator() {
        terminators(code.drop_last()) + 1
    } else {
        terminators(code.drop_last())
    }
}

/// How many instructions of `code` set the label `id`.
pub open spec fn label_count(code: Seq<Inst>, id: int) -> nat
    decreases code.len(),
{
    if code.len() == 0 {
        0
    } else if code.last() == (Inst::Label { id }) {
        label_count(code.drop_last(), id) + 1
    } else {
        label_count(code.drop_last(), id)
    }
}

/// The settings of a label in two stretches joined are those in both.
pub proof fn lemma_label_count_concat(a: Seq<Inst>, b: Seq<Inst>, id: int)
    ensures
        label_count(a + b, id) == label_count(a, id) + label_count(b, id),
    decreases b.len(),
{
    if b.len() == 0 {
        assert(a + b =~= a);
    } else {
        assert((a + b).drop_last() =~= a + b.drop_last());
        lemma_label_count_concat(a, b.drop_last(), id);
    }
}

/// A stretch of instructions none of which is a terminator has none.
pub proof fn lemma_no_terminators(code: Seq<Inst>)
    requires
        forall|i: int| 0 <= i < code.len() ==> !(#[trigger] code[i]).is_terminator(),
    ensures
        terminators(code) == 0,
    decreases code.len(),
{
    if code.len() > 0 {
        assert(!code[code.len() - 1].is_terminator());
        assert forall|i: int| 0 <= i < code.drop_last().len() implies !(
        #[trigger] code.drop_last()[i]).is_terminator() by {
            assert(code.drop_last()[i] == code[i]);
        }
        lemma_no_terminators(code.drop_last());
    }
}

/// A label whose id was drawn before a stretch began, or not until it had
/// ended, is not set in it.
pub proof fn lemma_label_absent(s: GenState, t: GenState, id: int)
    requires
        grows(s, t),
        id < s.next || id >= t.next,
    ensures
        label_count(emitted(s, t), id) == 0,
{
    let code = emitted(s, t);
    assert forall|i: int| 0 <= i < code.len() implies (#[trigger] code[i]) != (Inst::Label {
        id,
    }) by {
        assert(defines_within(t.code[s.code.len() + i], s.next, t.next));
    }
    lemma_no_label(code, id);
}

/// A stretch of instructions none of which sets label `id` has no setting
/// of it.
pub proof fn lemma_no_label(code: Seq<Inst>, id: int)
    requires
        forall|i: int| 0 <= i < code.len() ==> (#[trigger] code[i]) != (Inst::Label { id }),
    ensures
        label_count(code, id) == 0,
    decreases code.len(),
{
    if code.len() > 0 {
        assert(code[code.len() - 1] != (Inst::Label { id }));
        assert forall|i: int| 0 <= i < code.drop_last().len() implies (
        #[trigger] code.drop_last()[i]) != (Inst::Label { id }) by {
            assert(code.drop_last()[i] == code[i]);
        }
        lemma_no_label(code.drop_last(), id);
    }
}

/// The state in which the first arm of a conditional is lowered: after the
/// condition, which left its value at `flag` and the generator in `tested`,
/// the labels are drawn, the flag is loaded, the branch is taken and the
/// block of the first arm is opened.
pub open spec fn first_arm_entry(flag: Seq<char>, has_else: bool, tested: GenState) -> GenState {
    let base = tested.next;
    let count: int = if has_else {
        4
    } else {
        3
    };
    let other = if has_else {
        crate::lower::else_label(base)
    } else {
        crate::lower::merge_label(base)
    };
    emit(
        emit(
            emit(reserve(tested, count), Inst::LoadPtr { dst: base, ty: "i1"@, from: flag }),
            Inst::Branch { cond: base, then_label: crate::lower::then_label(base), else_label: other },
        ),
        Inst::Label { id: crate::lower::then_label(base) },
    )
}

/// The state in which the else arm of a conditional is lowered: after the
/// first arm, which left the generator in `first_done`, the block of the
/// first arm is ended and the block of the else arm is opened.
pub open spec fn else_arm_entry(base: int, first_done: GenState) -> GenState {
    emit(
        leave_arm(first_done, crate::lower::merge_label(base)),
        Inst::Label { id: crate::lower::else_label(base) },
    )
}

/// Counting the settings of a label after one more instruction.
pub proof fn lemma_label_count_push(code: Seq<Inst>, inst: Inst, id: int)
    ensures
        label_count(code.push(inst), id) == label_count(code, id) + if inst == (Inst::Label {
            id,
        }) {
            1nat
        } else {
            0nat
        },
{
    assert(code.push(inst).drop_last() =~= code);
}

/// A conditional sets its merge label exactly once, with its last
/// instruction.
pub proof fn lemma_conditional_merges_once(
    condition: Tree,
    if_body: Seq<Tree>,
    elif_body: Option<Seq<Tree>>,
    else_body: Option<Seq<Tree>>,
    s: GenState,
)
    requires
        lower_ifelse(condition, if_body, elif_body, else_body, s).1 is Ok,
    ensures
        ({
            let t = lower_ifelse(condition, if_body, elif_body, else_body, s).0;
            let merge = crate::lower::merge_label(lower_expr(condition, s).0.next);
            &&& grows(s, t)
            &&& t.code.last() == (Inst::Label { id: merge })
            &&& label_count(emitted(s, t), merge) == 1
        }),
{
    let t = lower_ifelse(condition, if_body, elif_body, else_body, s).0;
    let tested = lower_expr(condition, s).0;
    let flag = lower_expr(condition, s).1->Ok_0;
    let base = tested.next;
    let merge = crate::lower::merge_label(base);
    let has_else = else_body is Some;
    let entry = first_arm_entry(flag, has_else, tested);
    let done = lower_block(if_body, entry).0;
    let landing = Inst::Label { id: merge };
    let after_jump = leave_arm(done, merge);

    lemma_ifelse_grows(condition, if_body, elif_body, else_body, s);
    lemma_expr_grows(condition, s);
    lemma_entry_grows(flag, has_else, tested);
    lemma_block_grows(if_body, entry);
    lemma_grows_transitive(s, tested, entry);
    lemma_grows_transitive(s, entry, done);

    // the merge label is not set before the first arm, nor in it
    lemma_label_absent(s, tested, merge);
    lemma_label_absent(entry, done, merge);
    lemma_emitted_concat(s, tested, entry);
    lemma_emitted_concat(s, entry, done);
    lemma_label_count_concat(emitted(s, tested), emitted(tested, entry), merge);
    lemma_label_count_concat(emitted(s, entry), emitted(entry, done), merge);
    lemma_leave_arm(s, done, merge);
    match else_body {
        None => {
            lemma_emitted_push(s, after_jump, landing);
            lemma_label_count_push(emitted(s, after_jump), landing, merge);
        },
        Some(body) => {
            let label = Inst::Label { id: crate::lower::else_label(base) };
            let other_entry = else_arm_entry(base, done);
            let other_done = lower_block(body, other_entry).0;
            lemma_block_grows(body, other_entry);
            lemma_emit_grows(s, after_jump, label);
            lemma_emitted_push(s, after_jump, label);
            lemma_label_count_push(emitted(s, after_jump), label, merge);
            lemma_label_absent(other_entry, other_done, merge);
            lemma_emitted_concat(s, other_entry, other_done);
            lemma_label_count_concat(
                emitted(s, other_entry),
                emitted(other_entry, other_done),
                merge,
            );
            lemma_grows_transitive(s, other_entry, other_done);
            let last_jump = leave_arm(other_done, merge);
            lemma_leave_arm(s, other_done, merge);
            lemma_emitted_push(s, last_jump, landing);
            lemma_label_count_push(emitted(s, last_jump), landing, merge);
        },
    }
}

/// The end of an arm defines no id and sets no label: it emits a jump or
/// nothing, and leaves the block closed.
pub proof fn lemma_leave_arm(s: GenState, t: GenState, merge: int)
    requires
        grows(s, t),
    ensures
        grows(s, leave_arm(t, merge)),
        grows(t, leave_arm(t, merge)),
        leave_arm(t, merge).next == t.next,
        leave_arm(t, merge).depth == t.depth,
        leave_arm(t, merge).result == t.result,
        leave_arm(t, merge).frames == t.frames,
        !closed(t) ==> closed(leave_arm(t, merge)),
        forall|id: int|
            label_count(#[trigger] emitted(s, leave_arm(t, merge)), id) == label_count(
                emitted(s, t),
                id,
            ),
        forall|id: int|
            id_count(#[trigger] emitted(s, leave_arm(t, merge)), id) == id_count(
                emitted(s, t),
                id,
            ),
        defines_once(s, t) ==> defines_once(s, leave_arm(t, merge)),
{
    let jump = Inst::Jump { label: merge };
    if !closed(t) {
        lemma_emit_grows(s, t, jump);
        lemma_emit_grows(t, t, jump);
        lemma_emitted_push(s, t, jump);
        assert forall|id: int|
            label_count(#[trigger] emitted(s, leave_arm(t, merge)), id) == label_count(
                emitted(s, t),
                id,
            ) by {
            lemma_label_count_push(emitted(s, t), jump, id);
        }
        assert forall|id: int|
            id_count(#[trigger] emitted(s, leave_arm(t, merge)), id) == id_count(
                emitted(s, t),
                id,
            ) by {
            lemma_id_count_push(emitted(s, t), jump, id);
        }
        if defines_once(s, t) {
            assert forall|id: int| #[trigger] id_count(emitted(s, leave_arm(t, merge)), id)
                <= 1 by {
                lemma_id_count_push(emitted(s, t), jump, id);
                assert(id_count(emitted(s, t), id) <= 1);
            }
        }
    }
}

/// Opening the first arm of a conditional grows the state, and sets no
/// label but the arm's own.
pub proof fn lemma_entry_grows(flag: Seq<char>, has_else: bool, tested: GenState)
    requires
        can_reserve(tested, if has_else {
            4
        } else {
            3
        }),
    ensures
        grows(tested, first_arm_entry(flag, has_else, tested)),
        label_count(
            emitted(tested, first_arm_entry(flag, has_else, tested)),
            crate::lower::merge_label(tested.next),
        ) == 0,
        first_arm_entry(flag, has_else, tested).code.last() == (Inst::Label {
            id: crate::lower::then_label(tested.next),
        }),
{
    let base = tested.next;
    let merge = crate::lower::merge_label(base);
    let count: int = if has_else {
        4
    } else {
        3
    };
    let drawn = reserve(tested, count);
    let i1 = Inst::LoadPtr { dst: base, ty: "i1"@, from: flag };
    let i2 = Inst::Branch {
        cond: base,
        then_label: crate::lower::then_label(base),
        else_label: if has_else {
            crate::lower::else_label(base)
        } else {
            merge
        },
    };
    let i3 = Inst::Label { id: crate::lower::then_label(base) };
    lemma_reserve_grows(tested, tested, count);
    lemma_emit_grows(tested, drawn, i1);
    lemma_emit_grows(tested, emit(drawn, i1), i2);
    lemma_emit_grows(tested, emit(emit(drawn, i1), i2), i3);
    assert(emitted(tested, first_arm_entry(flag, has_else, tested)) =~= seq![i1, i2, i3]);
    lemma_no_label(seq![i1, i2, i3], merge);
}


/// Whether `value` names a register.
pub open spec fn names_register(value: Seq<char>) -> bool {
    exists|id: int| value == #[trigger] register(id)
}

/// Whether `value` names a static symbol.
pub open spec fn names_global(value: Seq<char>) -> bool {
    exists|id: int| value == #[trigger] global_symbol(id)
}

/// Whether `value` names a storage location: a register or a static symbol.
pub open spec fn storage_reference(value: Seq<char>) -> bool {
    names_register(value) || names_global(value)
}

/// Whether the depth of `s` has a frame in its registry.
pub open spec fn depth_in_registry(s: GenState) -> bool {
    0 <= s.depth < s.frames.len()
}

/// Lowering an expression declares nothing and stays at its depth.
pub proof fn lemma_expr_keeps_scope(e: Tree, s: GenState)
    ensures
        lower_expr(e, s).0.frames == s.frames,
        lower_expr(e, s).0.depth == s.depth,
    decreases e, 0nat,
{
    match e {
        Tree::InfixExpression { left_expr, op, right_expr } => {
            lemma_expr_keeps_scope(*left_expr, s);
            let (s1, left) = lower_expr(*left_expr, s);
            if left is Ok {
                lemma_expr_keeps_scope(*right_expr, s1);
            }
        },
        Tree::FunctionCall { fn_name, argument } => {
            lemma_call_keeps_scope(fn_name, argument, s);
        },
        _ => {},
    }
}

/// Lowering the arguments of a call declares nothing and stays at its
/// depth.
pub proof fn lemma_args_keep_scope(args: Seq<Tree>, types: Seq<Seq<char>>, s: GenState)
    ensures
        lower_args(args, types, s).0.frames == s.frames,
        lower_args(args, types, s).0.depth == s.depth,
    decreases args, 0nat,
{
    if args.len() > 0 {
        lemma_args_keep_scope(args.drop_last(), types, s);
        let (s1, earlier) = lower_args(args.drop_last(), types, s);
        if earlier is Ok {
            lemma_expr_keeps_scope(args.last(), s1);
        }
    }
}

/// Lowering a call declares nothing and stays at its depth.
pub proof fn lemma_call_keeps_scope(name: Seq<char>, args: Seq<Tree>, s: GenState)
    ensures
        lower_call(name, args, s).0.frames == s.frames,
        lower_call(name, args, s).0.depth == s.depth,
    decreases args, 1nat,
{
    match crate::lower::find_function(s.frames, name) {
        None => {},
        Some(callee) => {
            if args.len() == callee->Function_paras.len() {
                lemma_args_keep_scope(args, callee->Function_paras, s);
            }
        },
    }
}

/// The nearest binding of a name lies within the registry.
pub proof fn lemma_binding_depth(frames: Seq<Map<Seq<char>, InfoView>>, name: Seq<char>, from: int)
    requires
        -1 <= from < frames.len(),
    ensures
        -1 <= crate::lower::binding_depth(frames, name, from) <= from,
        crate::lower::binding_depth(frames, name, from) >= 0 ==> frames[crate::lower::binding_depth(
            frames,
            name,
            from,
        )].contains_key(name),
        forall|d: int|
            crate::lower::binding_depth(frames, name, from) < d <= from ==> !(
            #[trigger] frames[d]).contains_key(name),
    decreases from + 1,
{
    if from >= 0 && !frames[from].contains_key(name) {
        lemma_binding_depth(frames, name, from - 1);
    }
}

/// In a function, the value of an expression is never a bare literal: it is
/// a storage location, or nothing at all where the expression is a call of
/// a function that produces no value.
pub proof fn lemma_local_value_is_storage(e: Tree, s: GenState)
    requires
        s.depth != crate::lower::global_depth(),
        depth_in_registry(s),
        slots_below(s),
    ensures
        match lower_expr(e, s).1 {
            Ok(value) => storage_reference(value) || (e is FunctionCall && value
                == Seq::<char>::empty()),
            Err(_) => true,
        },
{
    match e {
        Tree::InfixExpression { left_expr, op, right_expr } => {
            lemma_expr_keeps_scope(*left_expr, s);
            let (s1, left) = lower_expr(*left_expr, s);
            if let Ok(l) = left {
                lemma_expr_keeps_scope(*right_expr, s1);
                let (s2, right) = lower_expr(*right_expr, s1);
                if let Ok(r) = right {
                    if let Ok(value) = lower_infix(op, l, r, s2).1 {
                        assert(value == register(s2.next + 3));
                    }
                }
            }
        },
        Tree::Number(text) => {
            if let Ok(value) = lower_number(text, s).1 {
                assert(value == register(s.next));
            }
        },
        Tree::String(text) => {
            if let Ok(value) = lower_string(text, s).1 {
                assert(value == register(s.next));
            }
        },
        Tree::Identifier(name) => {
            lemma_binding_depth(s.frames, name, s.depth);
        },
        Tree::FunctionCall { fn_name, argument } => {
            lemma_call_value(fn_name, argument, s);
        },
        _ => {},
    }
}

/// The value of a call is the slot that holds its result, or nothing at all
/// where the callee produces no value.
pub proof fn lemma_call_value(name: Seq<char>, args: Seq<Tree>, s: GenState)
    ensures
        match lower_call(name, args, s).1 {
            Ok(value) => names_register(value) || value == Seq::<char>::empty(),
            Err(_) => true,
        },
{
    match crate::lower::find_function(s.frames, name) {
        None => {},
        Some(callee) => {
            let types = callee->Function_paras;
            if args.len() == types.len() {
                let (s1, lowered) = lower_args(args, types, s);
                if let Ok(passed) = lowered {
                    let ret = callee->Function_ret_ty;
                    if let Ok(value) = lower_invocation(name, ret, passed, s1).1 {
                        if ret != "void"@ {
                            assert(value == register(s1.next + 1));
                        }
                    }
                }
            }
        },
    }
}

/// Whether an expression is a constant: a literal, or an operation on
/// constants.
pub open spec fn constant(e: Tree) -> bool
    decreases e,
{
    match e {
        Tree::Number(_) => true,
        Tree::String(_) => true,
        Tree::InfixExpression { left_expr, op, right_expr } => constant(*left_expr) && constant(
            *right_expr,
        ),
        _ => false,
    }
}

/// In the global scope a constant expression is folded without a trace: no
/// instruction is emitted and no id is drawn.
pub proof fn lemma_constant_is_silent(e: Tree, s: GenState)
    requires
        s.depth == crate::lower::global_depth(),
        constant(e),
    ensures
        lower_expr(e, s).0 == s,
    decreases e,
{
    match e {
        Tree::InfixExpression { left_expr, op, right_expr } => {
            lemma_constant_is_silent(*left_expr, s);
            lemma_constant_is_silent(*right_expr, s);
        },
        _ => {},
    }
}

/// A global variable with a constant initial value is lowered into its
/// declaration and nothing else: one instruction, which is no runtime
/// instruction, holding the folded value.
pub proof fn lemma_global_definition(
    var_type: Seq<char>,
    identifier: Seq<char>,
    e: Tree,
    s: GenState,
)
    requires
        s.depth == crate::lower::global_depth(),
        constant(e),
        lower_vardef(var_type, identifier, Some(Box::new(e)), s).1 is Ok,
    ensures
        lower_expr(e, s).1 is Ok,
        crate::lower::llvm_type(var_type) is Some,
        emitted(s, lower_vardef(var_type, identifier, Some(Box::new(e)), s).0) == seq![
            Inst::Global {
                id: s.next,
                ty: crate::lower::llvm_type(var_type)->0,
                init: lower_expr(e, s).1->Ok_0,
            },
        ],
{
    lemma_constant_is_silent(e, reserve(s, 1));
    lemma_constant_value(e, s, reserve(s, 1));
    let t = lower_vardef(var_type, identifier, Some(Box::new(e)), s).0;
    assert(emitted(s, t) =~= seq![
        Inst::Global {
            id: s.next,
            ty: crate::lower::llvm_type(var_type)->0,
            init: lower_expr(e, s).1->Ok_0,
        },
    ]);
}

/// In the global scope the value of a constant expression depends on the
/// expression alone.
pub proof fn lemma_constant_value(e: Tree, s: GenState, t: GenState)
    requires
        s.depth == crate::lower::global_depth(),
        t.depth == crate::lower::global_depth(),
        constant(e),
    ensures
        lower_expr(e, s).1 == lower_expr(e, t).1,
    decreases e,
{
    match e {
        Tree::InfixExpression { left_expr, op, right_expr } => {
            lemma_constant_is_silent(*left_expr, s);
            lemma_constant_is_silent(*left_expr, t);
            lemma_constant_value(*left_expr, s, t);
            lemma_constant_is_silent(*right_expr, s);
            lemma_constant_is_silent(*right_expr, t);
            lemma_constant_value(*right_expr, s, t);
        },
        _ => {},
    }
}

/// A declaration hides the same name in every shallower frame and leaves
/// shallower scopes alone: with `name` declared at depth `inner`, a lookup
/// from `inner` or deeper stops at or above `inner`, and finds the new
/// declaration where no deeper frame binds the name; a lookup from a
/// shallower depth finds what it found before.
pub proof fn lemma_declaration_shadows(
    s: GenState,
    inner: int,
    name: Seq<char>,
    info: InfoView,
    from: int,
)
    requires
        0 <= inner < s.frames.len(),
        0 <= from < s.frames.len(),
    ensures
        from >= inner ==> crate::lower::binding_depth(
            declare(s, inner, name, info).frames,
            name,
            from,
        ) >= inner,
        from == inner && info is Variable ==> crate::lower::find_variable(
            declare(s, inner, name, info).frames,
            name,
            from,
        ) == Some(info),
        from < inner ==> crate::lower::find_variable(
            declare(s, inner, name, info).frames,
            name,
            from,
        ) == crate::lower::find_variable(s.frames, name, from),
    decreases from + 1,
{
    let after = declare(s, inner, name, info).frames;
    if from > inner {
        if !after[from].contains_key(name) {
            lemma_declaration_shadows(s, inner, name, info, from - 1);
        }
    } else if from < inner {
        lemma_binding_unchanged(s.frames, after, name, from);
    }
}

/// A lookup sees only the frames from its depth down.
pub proof fn lemma_binding_unchanged(
    before: Seq<Map<Seq<char>, InfoView>>,
    after: Seq<Map<Seq<char>, InfoView>>,
    name: Seq<char>,
    from: int,
)
    requires
        from < before.len(),
        from < after.len(),
        forall|d: int| 0 <= d <= from ==> #[trigger] after[d] == before[d],
    ensures
        crate::lower::binding_depth(after, name, from) == crate::lower::binding_depth(
            before,
            name,
            from,
        ),
        crate::lower::find_variable(after, name, from) == crate::lower::find_variable(
            before,
            name,
            from,
        ),
    decreases from + 1,
{
    if from >= 0 {
        assert(after[from] == before[from]);
        if !before[from].contains_key(name) {
            lemma_binding_unchanged(before, after, name, from - 1);
        }
        lemma_binding_depth(before, name, from);
        let d = crate::lower::binding_depth(before, name, from);
        if d >= 0 {
            assert(after[d] == before[d]);
        }
    }
}

/// Lowering is repeatable: two generators in the same state, such as two
/// new ones, turn the same tree into the same instructions, with the same
/// ids, and so into the same text.
pub proof fn lemma_lowering_repeatable(t: Tree, triple: Seq<char>, first: GenState, second: GenState)
    requires
        first == second,
    ensures
        lower_program(t, triple, first) == lower_program(t, triple, second),
        crate::ir::render(lower_program(t, triple, first).0.code) == crate::ir::render(
            lower_program(t, triple, second).0.code,
        ),
{
}

/// How many instructions of `code` define the id `id`.
pub open spec fn id_count(code: Seq<Inst>, id: int) -> nat
    decreases code.len(),
{
    if code.len() == 0 {
        0
    } else if defined_id(code.last()) == Some(id) {
        id_count(code.drop_last(), id) + 1
    } else {
        id_count(code.drop_last(), id)
    }
}

/// Whether `t` can come after `s` and no id was defined twice in between.
pub open spec fn defines_once(s: GenState, t: GenState) -> bool {
    &&& grows(s, t)
    &&& forall|id: int| #[trigger] id_count(emitted(s, t), id) <= 1
}

/// Whether no id from `low` on was defined between `s` and `t`.
pub open spec fn unused_from(s: GenState, t: GenState, low: int) -> bool {
    forall|id: int| id >= low ==> #[trigger] id_count(emitted(s, t), id) == 0
}

/// The definitions of an id in two stretches joined are those in both.
pub proof fn lemma_id_count_concat(a: Seq<Inst>, b: Seq<Inst>, id: int)
    ensures
        id_count(a + b, id) == id_count(a, id) + id_count(b, id),
    decreases b.len(),
{
    if b.len() == 0 {
        assert(a + b =~= a);
    } else {
        assert((a + b).drop_last() =~= a + b.drop_last());
        lemma_id_count_concat(a, b.drop_last(), id);
    }
}

/// Counting the definitions of an id after one more instruction.
pub proof fn lemma_id_count_push(code: Seq<Inst>, inst: Inst, id: int)
    ensures
        id_count(code.push(inst), id) == id_count(code, id) + if defined_id(inst) == Some(id) {
            1nat
        } else {
            0nat
        },
{
    assert(code.push(inst).drop_last() =~= code);
}

/// A stretch none of whose instructions defines `id` has no definition of
/// it.
pub proof fn lemma_id_undefined(code: Seq<Inst>, id: int)
    requires
        forall|i: int| 0 <= i < code.len() ==> defined_id(#[trigger] code[i]) != Some(id),
    ensures
        id_count(code, id) == 0,
    decreases code.len(),
{
    if code.len() > 0 {
        assert(defined_id(code[code.len() - 1]) != Some(id));
        assert forall|i: int| 0 <= i < code.drop_last().len() implies defined_id(
            #[trigger] code.drop_last()[i],
        ) != Some(id) by {
            assert(code.drop_last()[i] == code[i]);
        }
        lemma_id_undefined(code.drop_last(), id);
    }
}

/// An id that was drawn before a stretch began, or not until it had ended,
/// is not defined in it.
pub proof fn lemma_id_absent(s: GenState, t: GenState, id: int)
    requires
        grows(s, t),
        id < s.next || id >= t.next,
    ensures
        id_count(emitted(s, t), id) == 0,
{
    let code = emitted(s, t);
    assert forall|i: int| 0 <= i < code.len() implies defined_id(#[trigger] code[i]) != Some(
        id,
    ) by {
        assert(defines_within(t.code[s.code.len() + i], s.next, t.next));
    }
    lemma_id_undefined(code, id);
}

/// After a stretch no id from the counter on is defined.
pub proof fn lemma_unused_from_counter(s: GenState, t: GenState)
    requires
        grows(s, t),
    ensures
        unused_from(s, t, t.next),
{
    assert forall|id: int| id >= t.next implies #[trigger] id_count(emitted(s, t), id) == 0 by {
        lemma_id_absent(s, t, id);
    }
}

/// Stretches in which no id is defined twice compose.
pub proof fn lemma_once_transitive(a: GenState, b: GenState, c: GenState)
    requires
        defines_once(a, b),
        defines_once(b, c),
    ensures
        defines_once(a, c),
{
    lemma_grows_transitive(a, b, c);
    lemma_emitted_concat(a, b, c);
    assert forall|id: int| #[trigger] id_count(emitted(a, c), id) <= 1 by {
        lemma_id_count_concat(emitted(a, b), emitted(b, c), id);
        if id < b.next {
            lemma_id_absent(b, c, id);
        } else {
            lemma_id_absent(a, b, id);
        }
    }
}

/// Drawing ids defines none.
pub proof fn lemma_once_reserve(s: GenState, t: GenState, count: int, low: int)
    requires
        defines_once(s, t),
        unused_from(s, t, low),
        count >= 0,
    ensures
        defines_once(s, reserve(t, count)),
        unused_from(s, reserve(t, count), low),
{
    lemma_reserve_grows(s, t, count);
    assert(emitted(s, reserve(t, count)) == emitted(s, t));
}

/// A change of the registry or of the depth alone defines no id.
pub proof fn lemma_once_same_output(s: GenState, t: GenState, u: GenState)
    requires
        defines_once(s, t),
        u.next == t.next,
        u.code == t.code,
    ensures
        defines_once(s, u),
{
    assert(emitted(s, u) == emitted(s, t));
}

/// An instruction that defines no id keeps every id defined at most once.
pub proof fn lemma_once_emit_plain(s: GenState, t: GenState, inst: Inst, low: int)
    requires
        defines_once(s, t),
        unused_from(s, t, low),
        defined_id(inst) is None,
    ensures
        defines_once(s, emit(t, inst)),
        unused_from(s, emit(t, inst), low),
{
    lemma_emit_grows(s, t, inst);
    lemma_emitted_push(s, t, inst);
    assert forall|id: int| #[trigger] id_count(emitted(s, emit(t, inst)), id) == id_count(
        emitted(s, t),
        id,
    ) by {
        lemma_id_count_push(emitted(s, t), inst, id);
    }
    assert forall|id: int| #[trigger] id_count(emitted(s, emit(t, inst)), id) <= 1 by {
        assert(id_count(emitted(s, t), id) <= 1);
    }
    assert forall|id: int| id >= low implies #[trigger] id_count(
        emitted(s, emit(t, inst)),
        id,
    ) == 0 by {
        assert(id_count(emitted(s, t), id) == 0);
    }
}

/// An instruction that defines an id which was drawn and is not yet defined
/// keeps every id defined at most once.
pub proof fn lemma_once_emit(s: GenState, t: GenState, inst: Inst, id: int)
    requires
        defines_once(s, t),
        defined_id(inst) == Some(id),
        s.next <= id < t.next,
        id_count(emitted(s, t), id) == 0,
    ensures
        defines_once(s, emit(t, inst)),
        forall|other: int|
            other != id ==> id_count(emitted(s, emit(t, inst)), other) == id_count(
                emitted(s, t),
                other,
            ),
{
    lemma_emit_grows(s, t, inst);
    lemma_emitted_push(s, t, inst);
    assert forall|other: int| #[trigger] id_count(emitted(s, emit(t, inst)), other) <= 1
        && (other != id ==> id_count(emitted(s, emit(t, inst)), other) == id_count(
        emitted(s, t),
        other,
    )) by {
        lemma_id_count_push(emitted(s, t), inst, other);
        assert(id_count(emitted(s, t), other) <= 1);
    }
}

/// An instruction that defines the first id not yet in use keeps every id
/// defined at most once, and leaves the ids after it unused.
pub proof fn lemma_once_emit_next(s: GenState, t: GenState, inst: Inst, low: int, id: int)
    requires
        defines_once(s, t),
        unused_from(s, t, low),
        defined_id(inst) == Some(id),
        s.next <= id < t.next,
        low <= id,
    ensures
        defines_once(s, emit(t, inst)),
        unused_from(s, emit(t, inst), id + 1),
{
    assert(id_count(emitted(s, t), id) == 0);
    lemma_once_emit(s, t, inst, id);
    assert forall|other: int| other >= id + 1 implies #[trigger] id_count(
        emitted(s, emit(t, inst)),
        other,
    ) == 0 by {
        assert(id_count(emitted(s, t), other) == 0);
    }
}

/// Nothing is defined where nothing was emitted.
pub proof fn lemma_once_start(s: GenState)
    ensures
        defines_once(s, s),
        unused_from(s, s, s.next),
{
    assert(emitted(s, s) =~= Seq::<Inst>::empty());
}

/// A slot for a literal and the load of an argument define fresh ids.
pub proof fn lemma_leaves_define_once(s: GenState)
    ensures
        forall|text: Seq<char>| defines_once(s, #[trigger] lower_number(text, s).0),
        forall|text: Seq<char>| defines_once(s, #[trigger] lower_string(text, s).0),
        forall|name: Seq<char>| defines_once(s, #[trigger] lower_identifier(name, s).0),
        forall|ty: Seq<char>, value: Seq<char>|
            defines_once(s, #[trigger] pass_argument(ty, value, s).0),
{
    lemma_once_start(s);
    assert forall|text: Seq<char>| defines_once(s, #[trigger] lower_number(text, s).0) by {
        if s.depth != 1 && can_reserve(s, 1) {
            lemma_once_reserve(s, s, 1, s.next);
            let a = Inst::Alloca { dst: s.next, ty: "i32"@ };
            lemma_once_emit_next(s, reserve(s, 1), a, s.next, s.next);
            lemma_once_emit_plain(
                s,
                emit(reserve(s, 1), a),
                Inst::StoreImm { ty: "i32"@, value: text, to: s.next },
                s.next + 1,
            );
        }
    }
    assert forall|text: Seq<char>| defines_once(s, #[trigger] lower_string(text, s).0) by {
        if s.depth != 1 && can_reserve(s, 1) {
            lemma_once_reserve(s, s, 1, s.next);
            let ty = crate::lower::array_type(text);
            let a = Inst::Alloca { dst: s.next, ty };
            lemma_once_emit_next(s, reserve(s, 1), a, s.next, s.next);
            lemma_once_emit_plain(
                s,
                emit(reserve(s, 1), a),
                Inst::StoreImm { ty, value: crate::lower::array_literal(text), to: s.next },
                s.next + 1,
            );
        }
    }
    assert forall|ty: Seq<char>, value: Seq<char>|
        defines_once(s, #[trigger] pass_argument(ty, value, s).0) by {
        if !crate::lower::is_reference_type(ty) && can_reserve(s, 1) {
            lemma_once_reserve(s, s, 1, s.next);
            lemma_once_emit_next(
                s,
                reserve(s, 1),
                Inst::LoadArg { dst: s.next, ty, from: value },
                s.next,
                s.next,
            );
        }
    }
}

/// A binary operation defines fresh ids.
pub proof fn lemma_infix_defines_once(op: Seq<char>, left: Seq<char>, right: Seq<char>, s: GenState)
    ensures
        defines_once(s, lower_infix(op, left, right, s).0),
{
    lemma_once_start(s);
    if s.depth != 1 {
        match crate::lower::binary_operator(op) {
            None => {},
            Some(operator) => {
                if can_reserve(s, 4) {
                    let n = s.next;
                    let ty = crate::ir::result_type(operator);
                    lemma_once_reserve(s, s, 4, n);
                    let i1 = Inst::Load { dst: n, ty: "i32"@, from: left };
                    let i2 = Inst::Load { dst: n + 1, ty: "i32"@, from: right };
                    let i3 = Inst::Binary { dst: n + 2, op: operator, lhs: n, rhs: n + 1 };
                    let i4 = Inst::Alloca { dst: n + 3, ty };
                    let i5 = Inst::StorePtr { ty, src: n + 2, to: n + 3 };
                    let s1 = emit(reserve(s, 4), i1);
                    let s2 = emit(s1, i2);
                    let s3 = emit(s2, i3);
                    let s4 = emit(s3, i4);
                    lemma_once_emit_next(s, reserve(s, 4), i1, n, n);
                    lemma_once_emit_next(s, s1, i2, n + 1, n + 1);
                    lemma_once_emit_next(s, s2, i3, n + 2, n + 2);
                    lemma_once_emit_next(s, s3, i4, n + 3, n + 3);
                    lemma_once_emit_plain(s, s4, i5, n + 4);
                }
            },
        }
    }
}

/// A call instruction and the slot of its result define fresh ids.
pub proof fn lemma_invocation_defines_once(
    name: Seq<char>,
    ret: Seq<char>,
    args: Seq<(Seq<char>, Seq<char>)>,
    s: GenState,
)
    ensures
        defines_once(s, lower_invocation(name, ret, args, s).0),
{
    lemma_once_start(s);
    let n = s.next;
    if ret == "void"@ {
        if can_reserve(s, 1) {
            lemma_once_reserve(s, s, 1, n);
            lemma_once_emit_plain(
                s,
                reserve(s, 1),
                Inst::Call { result: None, ret, name, args },
                n,
            );
        }
    } else if can_reserve(s, 2) {
        lemma_once_reserve(s, s, 2, n);
        let i1 = Inst::Call { result: Some(n), ret, name, args };
        let i2 = Inst::AllocaResult { dst: n + 1, ty: ret };
        let i3 = Inst::StoreResult { ty: ret, src: n, to: n + 1 };
        let s1 = emit(reserve(s, 2), i1);
        let s2 = emit(s1, i2);
        lemma_once_emit_next(s, reserve(s, 2), i1, n, n);
        lemma_once_emit_next(s, s1, i2, n + 1, n + 1);
        lemma_once_emit_plain(s, s2, i3, n + 2);
    }
}

/// An expression defines every id at most once.
pub proof fn lemma_expr_defines_once(e: Tree, s: GenState)
    ensures
        defines_once(s, lower_expr(e, s).0),
    decreases e, 0nat,
{
    lemma_leaves_define_once(s);
    lemma_once_start(s);
    match e {
        Tree::InfixExpression { left_expr, op, right_expr } => {
            lemma_expr_defines_once(*left_expr, s);
            let (s1, left) = lower_expr(*left_expr, s);
            if let Ok(l) = left {
                lemma_expr_defines_once(*right_expr, s1);
                let (s2, right) = lower_expr(*right_expr, s1);
                lemma_once_transitive(s, s1, s2);
                if let Ok(r) = right {
                    lemma_infix_defines_once(op, l, r, s2);
                    lemma_once_transitive(s, s2, lower_infix(op, l, r, s2).0);
                }
            }
        },
        Tree::FunctionCall { fn_name, argument } => {
            lemma_call_defines_once(fn_name, argument, s);
        },
        _ => {},
    }
}

/// The arguments of a call define every id at most once.
pub proof fn lemma_args_define_once(args: Seq<Tree>, types: Seq<Seq<char>>, s: GenState)
    ensures
        defines_once(s, lower_args(args, types, s).0),
    decreases args, 0nat,
{
    lemma_once_start(s);
    if args.len() > 0 {
        lemma_args_define_once(args.drop_last(), types, s);
        let (s1, earlier) = lower_args(args.drop_last(), types, s);
        if earlier is Ok {
            lemma_expr_defines_once(args.last(), s1);
            let (s2, value) = lower_expr(args.last(), s1);
            lemma_once_transitive(s, s1, s2);
            if let Ok(v) = value {
                lemma_leaves_define_once(s2);
                let s3 = pass_argument(types[args.len() - 1], v, s2).0;
                lemma_once_transitive(s, s2, s3);
            }
        }
    }
}

/// A call defines every id at most once.
pub proof fn lemma_call_defines_once(name: Seq<char>, args: Seq<Tree>, s: GenState)
    ensures
        defines_once(s, lower_call(name, args, s).0),
    decreases args, 1nat,
{
    lemma_once_start(s);
    match crate::lower::find_function(s.frames, name) {
        None => {},
        Some(callee) => {
            let types = callee->Function_paras;
            if args.len() == types.len() {
                lemma_args_define_once(args, types, s);
                let (s1, lowered) = lower_args(args, types, s);
                if let Ok(passed) = lowered {
                    lemma_invocation_defines_once(name, callee->Function_ret_ty, passed, s1);
                    lemma_once_transitive(
                        s,
                        s1,
                        lower_invocation(name, callee->Function_ret_ty, passed, s1).0,
                    );
                }
            }
        },
    }
}

/// A variable definition defines every id at most once.
pub proof fn lemma_vardef_defines_once(
    var_type: Seq<char>,
    identifier: Seq<char>,
    var_value: Option<Box<Tree>>,
    s: GenState,
)
    ensures
        defines_once(s, lower_vardef(var_type, identifier, var_value, s).0),
    decreases var_value, 1nat,
{
    lemma_once_start(s);
    match crate::lower::llvm_type(var_type) {
        None => {},
        Some(ty) => {
            if can_reserve(s, 1) {
                let id = s.next;
                let done = lower_vardef(var_type, identifier, var_value, s).0;
                lemma_once_reserve(s, s, 1, id);
                if s.depth != 1 {
                    let slot = Inst::Alloca { dst: id, ty };
                    let s1 = emit(reserve(s, 1), slot);
                    lemma_once_emit_next(s, reserve(s, 1), slot, id, id);
                    match var_value {
                        None => {
                            lemma_once_same_output(s, s1, done);
                        },
                        Some(e) => {
                            lemma_expr_defines_once(*e, s1);
                            let (s3, value) = lower_expr(*e, s1);
                            lemma_once_transitive(s, s1, s3);
                            if let Ok(v) = value {
                                if can_reserve(s3, 1) {
                                    lemma_unused_from_counter(s, s3);
                                    lemma_once_reserve(s, s3, 1, s3.next);
                                    let load = Inst::Load { dst: s3.next, ty, from: v };
                                    let s4 = emit(reserve(s3, 1), load);
                                    lemma_once_emit_next(s, reserve(s3, 1), load, s3.next, s3.next);
                                    let store = Inst::Store { ty, src: s3.next, to: id };
                                    lemma_once_emit_plain(s, s4, store, s3.next + 1);
                                    lemma_once_same_output(s, emit(s4, store), done);
                                }
                            }
                        },
                    }
                } else {
                    let s1 = reserve(s, 1);
                    match var_value {
                        None => {
                            let global = Inst::Global { id, ty, init: "0"@ };
                            lemma_once_emit_next(s, s1, global, id, id);
                            lemma_once_same_output(s, emit(s1, global), done);
                        },
                        Some(e) => {
                            lemma_expr_defines_once(*e, s1);
                            lemma_expr_grows(*e, s1);
                            let (s2, init) = lower_expr(*e, s1);
                            lemma_once_transitive(s, s1, s2);
                            if let Ok(value) = init {
                                let global = Inst::Global { id, ty, init: value };
                                // the id of the symbol was drawn before its value was lowered
                                lemma_emitted_concat(s, s1, s2);
                                lemma_id_count_concat(emitted(s, s1), emitted(s1, s2), id);
                                lemma_id_absent(s1, s2, id);
                                lemma_once_emit(s, s2, global, id);
                                lemma_once_same_output(s, emit(s2, global), done);
                            }
                        },
                    }
                }
            }
        },
    }
}

/// An assignment defines every id at most once.
pub proof fn lemma_assignment_defines_once(
    identifier: Seq<char>,
    var_value: Option<Box<Tree>>,
    s: GenState,
)
    ensures
        defines_once(s, lower_assignment(identifier, var_value, s).0),
    decreases var_value, 1nat,
{
    lemma_once_start(s);
    match crate::lower::find_variable(s.frames, identifier, s.depth) {
        None => {},
        Some(target) => match var_value {
            None => {},
            Some(e) => {
                lemma_expr_defines_once(*e, s);
                let (s1, value) = lower_expr(*e, s);
                if let Ok(v) = value {
                    if can_reserve(s1, 1) {
                        let ty = target->Variable_ty;
                        lemma_unused_from_counter(s, s1);
                        lemma_once_reserve(s, s1, 1, s1.next);
                        let load = Inst::LoadPtr { dst: s1.next, ty, from: v };
                        lemma_once_emit_next(s, reserve(s1, 1), load, s1.next, s1.next);
                        lemma_once_emit_plain(
                            s,
                            emit(reserve(s1, 1), load),
                            Inst::StoreVar { ty, src: s1.next, target: target->Variable_tmp_name },
                            s1.next + 1,
                        );
                    }
                }
            },
        },
    }
}

/// A return defines every id at most once.
pub proof fn lemma_return_defines_once(e: Tree, s: GenState)
    ensures
        defines_once(s, lower_return(e, s).0),
    decreases e, 1nat,
{
    lemma_once_start(s);
    if !(s.depth == crate::lower::global_depth() || s.result == "void"@) {
        let ty = s.result;
        lemma_expr_defines_once(e, s);
        let (s1, value) = lower_expr(e, s);
        if let Ok(v) = value {
            if can_reserve(s1, 1) {
                lemma_unused_from_counter(s, s1);
                lemma_once_reserve(s, s1, 1, s1.next);
                let load = Inst::Load { dst: s1.next, ty, from: v };
                lemma_once_emit_next(s, reserve(s1, 1), load, s1.next, s1.next);
                lemma_once_emit_plain(
                    s,
                    emit(reserve(s1, 1), load),
                    Inst::Ret { ty, src: s1.next },
                    s1.next + 1,
                );
            }
        }
    }
}

/// The slots of the parameters define fresh ids, one after the other.
pub proof fn lemma_parameters_define_once(
    params: Seq<(Seq<char>, Seq<char>)>,
    first: int,
    count: int,
    s0: GenState,
    s: GenState,
)
    requires
        defines_once(s0, s),
        unused_from(s0, s, first),
        s0.next <= first,
        0 <= count,
        first + count <= s.next,
    ensures
        defines_once(s0, bind_parameters(params, first, count, s)),
        unused_from(s0, bind_parameters(params, first, count, s), first + count),
        bind_parameters(params, first, count, s).next == s.next,
    decreases count,
{
    if count > 0 {
        lemma_parameters_define_once(params, first, count - 1, s0, s);
        let before = bind_parameters(params, first, count - 1, s);
        let (ty, name) = params[count - 1];
        let id = first + count - 1;
        let a = Inst::Alloca { dst: id, ty };
        lemma_once_emit_next(s0, before, a, id, id);
        let b = Inst::StoreParam { ty, name, to: id };
        lemma_once_emit_plain(s0, emit(before, a), b, id + 1);
        lemma_once_same_output(
            s0,
            emit(emit(before, a), b),
            bind_parameters(params, first, count, s),
        );
        assert(emitted(s0, bind_parameters(params, first, count, s)) == emitted(
            s0,
            emit(emit(before, a), b),
        ));
    }
}

/// Opening the first arm of a conditional defines the register of the
/// loaded flag and the label of the arm, and neither of the two labels that
/// are set later.
pub proof fn lemma_entry_defines_once(flag: Seq<char>, has_else: bool, s: GenState, tested: GenState)
    requires
        defines_once(s, tested),
        can_reserve(tested, if has_else {
            4
        } else {
            3
        }),
    ensures
        defines_once(s, first_arm_entry(flag, has_else, tested)),
        unused_from(s, first_arm_entry(flag, has_else, tested), tested.next + 2),
        first_arm_entry(flag, has_else, tested).next == tested.next + if has_else {
            4int
        } else {
            3int
        },
{
    let base = tested.next;
    let merge = crate::lower::merge_label(base);
    let count: int = if has_else {
        4
    } else {
        3
    };
    let drawn = reserve(tested, count);
    let i1 = Inst::LoadPtr { dst: base, ty: "i1"@, from: flag };
    let i2 = Inst::Branch {
        cond: base,
        then_label: crate::lower::then_label(base),
        else_label: if has_else {
            crate::lower::else_label(base)
        } else {
            merge
        },
    };
    let i3 = Inst::Label { id: crate::lower::then_label(base) };
    lemma_unused_from_counter(s, tested);
    lemma_once_reserve(s, tested, count, base);
    lemma_once_emit_next(s, drawn, i1, base, base);
    lemma_once_emit_plain(s, emit(drawn, i1), i2, base + 1);
    lemma_once_emit_next(s, emit(emit(drawn, i1), i2), i3, base + 1, base + 1);
}

/// A conditional defines every id at most once: the register of the loaded
/// flag, the labels of its blocks, and what its condition and its arms
/// define.
pub proof fn lemma_ifelse_defines_once(
    condition: Tree,
    if_body: Seq<Tree>,
    elif_body: Option<Seq<Tree>>,
    else_body: Option<Seq<Tree>>,
    s: GenState,
)
    ensures
        defines_once(s, lower_ifelse(condition, if_body, elif_body, else_body, s).0),
    decreases crate::lower::conditional(condition, if_body, elif_body, else_body), 0nat,
{
    lemma_expr_defines_once(condition, s);
    let (tested, test) = lower_expr(condition, s);
    if let Ok(flag) = test {
        let has_else = else_body is Some;
        let count: int = if has_else {
            4
        } else {
            3
        };
        if can_reserve(tested, count) {
            let base = tested.next;
            let merge = crate::lower::merge_label(base);
            let other = crate::lower::else_label(base);
            let entry = first_arm_entry(flag, has_else, tested);
            lemma_entry_defines_once(flag, has_else, s, tested);
            match crate::lower::conditional(condition, if_body, elif_body, else_body) {
                Tree::IfElse { condition: _, if_body: first_arm, elif_body: _, else_body: else_arm } => {
                    lemma_block_defines_once(first_arm, entry);
                    let (done, first) = lower_block(first_arm, entry);
                    lemma_once_transitive(s, entry, done);
                    if first is Ok {
                        let landing = Inst::Label { id: merge };
                        let jumped = leave_arm(done, merge);
                        // neither pending label is set in the first arm
                        lemma_emitted_concat(s, entry, done);
                        lemma_id_count_concat(emitted(s, entry), emitted(entry, done), merge);
                        lemma_id_absent(entry, done, merge);
                        lemma_leave_arm(s, done, merge);
                        match else_arm {
                            None => {
                                lemma_once_emit(s, jumped, landing, merge);
                            },
                            Some(body) => {
                                let label = Inst::Label { id: other };
                                let other_entry = else_arm_entry(base, done);
                                lemma_id_count_concat(
                                    emitted(s, entry),
                                    emitted(entry, done),
                                    other,
                                );
                                lemma_id_absent(entry, done, other);
                                lemma_once_emit(s, jumped, label, other);
                                lemma_block_defines_once(body, other_entry);
                                let (other_done, second) = lower_block(body, other_entry);
                                lemma_once_transitive(s, other_entry, other_done);
                                if second is Ok {
                                    lemma_emitted_concat(s, other_entry, other_done);
                                    lemma_id_count_concat(
                                        emitted(s, other_entry),
                                        emitted(other_entry, other_done),
                                        merge,
                                    );
                                    lemma_id_absent(other_entry, other_done, merge);
                                    lemma_leave_arm(s, other_done, merge);
                                    lemma_once_emit(
                                        s,
                                        leave_arm(other_done, merge),
                                        landing,
                                        merge,
                                    );
                                }
                            },
                        }
                    }
                },
                _ => {},
            }
        }
    }
}

/// A function definition defines every id at most once.
pub proof fn lemma_fundef_defines_once(
    fn_name: Seq<char>,
    parameters: Seq<(Seq<char>, Seq<char>)>,
    ret_type: Option<Seq<char>>,
    body: Seq<Tree>,
    s: GenState,
)
    ensures
        defines_once(s, lower_fundef(fn_name, parameters, ret_type, body, s).0),
    decreases body, 1nat,
{
    lemma_once_start(s);
    if s.depth == 1 && crate::lower::return_type(ret_type) is Some
        && crate::lower::parameters_lowerable(parameters) && can_reserve(
        s,
        parameters.len() as int + 1,
    ) {
        let ret = crate::lower::return_type(ret_type)->0;
        let params = crate::lower::lowered_parameters(parameters);
        let count = parameters.len() as int + 1;
        lemma_once_reserve(s, s, count, s.next);
        let define = Inst::Define { ret, name: fn_name, params };
        let s1 = emit(reserve(s, count), define);
        lemma_once_emit_plain(s, reserve(s, count), define, s.next);
        let s2 = declare(
            s1,
            crate::lower::global_depth(),
            fn_name,
            crate::lower::signature_info(fn_name, ret, params),
        );
        let entered = enter_body(s2, ret);
        lemma_once_same_output(s, s1, entered);
        assert(emitted(s, entered) == emitted(s, s1));
        lemma_parameters_define_once(params, s.next, params.len() as int, s, entered);
        let s3 = bind_parameters(params, s.next, params.len() as int, entered);
        lemma_block_defines_once(body, s3);
        let (s4, lowered) = lower_block(body, s3);
        lemma_once_transitive(s, s3, s4);
        if lowered is Ok {
            lemma_unused_from_counter(s, s4);
            let s5 = if ret == "void"@ && !closed(s4) {
                emit(s4, Inst::RetVoid)
            } else {
                s4
            };
            if ret == "void"@ && !closed(s4) {
                lemma_once_emit_plain(s, s4, Inst::RetVoid, s4.next);
            }
            lemma_once_emit_plain(s, s5, Inst::EndDefine, s4.next);
            lemma_once_same_output(
                s,
                emit(s5, Inst::EndDefine),
                lower_fundef(fn_name, parameters, ret_type, body, s).0,
            );
        }
    }
}

/// A statement defines every id at most once.
pub proof fn lemma_statement_defines_once(t: Tree, s: GenState)
    ensures
        defines_once(s, lower_statement(t, s).0),
    decreases t, 1nat,
{
    lemma_once_start(s);
    match t {
        Tree::VariableDefinition { var_type, identifier, var_value } => {
            lemma_vardef_defines_once(var_type, identifier, var_value, s);
        },
        Tree::Assignment { identifier, var_value } => {
            lemma_assignment_defines_once(identifier, var_value, s);
        },
        Tree::FunctionDefinition { fn_name, parameters, ret_type, body } => {
            lemma_fundef_defines_once(fn_name, parameters, ret_type, body, s);
        },
        Tree::Return(e) => {
            lemma_return_defines_once(*e, s);
        },
        Tree::IfElse { condition, if_body, elif_body, else_body } => {
            lemma_ifelse_defines_once(*condition, if_body, elif_body, else_body, s);
        },
        Tree::FunctionCall { fn_name, argument } => {
            lemma_call_defines_once(fn_name, argument, s);
        },
        _ => {},
    }
}

/// A block defines every id at most once.
pub proof fn lemma_block_defines_once(stmts: Seq<Tree>, s: GenState)
    ensures
        defines_once(s, lower_block(stmts, s).0),
    decreases stmts, 0nat,
{
    lemma_once_start(s);
    if stmts.len() > 0 {
        lemma_block_defines_once(stmts.drop_last(), s);
        let (s1, earlier) = lower_block(stmts.drop_last(), s);
        if earlier is Ok {
            lemma_statement_defines_once(stmts.last(), s1);
            lemma_once_transitive(s, s1, lower_statement(stmts.last(), s1).0);
        }
    }
}

/// No synthetic id is ever used twice: in all that the lowering of a program
/// emits, whether it ends well or with an error, every id is defined by at
/// most one instruction, so that no two registers, static symbols or labels
/// of a module share their number.
pub proof fn lemma_program_defines_once(t: Tree, triple: Seq<char>, s: GenState)
    ensures
        defines_once(s, lower_program(t, triple, s).0),
        forall|id: int| id_count(emitted(s, lower_program(t, triple, s).0), id) <= 1,
{
    lemma_prologue(triple, s);
    match t {
        Tree::Program(stmts) => {
            let start = declare_signatures(stmts, prologue(triple, s));
            lemma_signatures_quiet(stmts, prologue(triple, s));
            lemma_once_same_output(s, prologue(triple, s), start);
            lemma_block_defines_once(stmts, start);
            lemma_once_transitive(s, start, lower_block(stmts, start).0);
        },
        _ => {},
    }
}

/// A conditional that is lowered leaves the generator at the depth at which
/// it started.
pub proof fn lemma_ifelse_keeps_depth(
    condition: Tree,
    if_body: Seq<Tree>,
    elif_body: Option<Seq<Tree>>,
    else_body: Option<Seq<Tree>>,
    s: GenState,
)
    requires
        lower_ifelse(condition, if_body, elif_body, else_body, s).1 is Ok,
    ensures
        lower_ifelse(condition, if_body, elif_body, else_body, s).0.depth == s.depth,
    decreases crate::lower::conditional(condition, if_body, elif_body, else_body), 0nat,
{
    lemma_expr_keeps_scope(condition, s);
    let (tested, test) = lower_expr(condition, s);
    let flag = test->Ok_0;
    let entry = first_arm_entry(flag, else_body is Some, tested);
    match crate::lower::conditional(condition, if_body, elif_body, else_body) {
        Tree::IfElse { condition: _, if_body: first_arm, elif_body: _, else_body: else_arm } => {
            lemma_block_keeps_depth(first_arm, entry);
            let done = lower_block(first_arm, entry).0;
            match else_arm {
                None => {},
                Some(body) => {
                    lemma_block_keeps_depth(body, else_arm_entry(tested.next, done));
                },
            }
        },
        _ => {},
    }
}

/// A statement that is lowered leaves the generator at the depth at which
/// it started: the depth of a function body is left again at the end of the
/// function.
pub proof fn lemma_statement_keeps_depth(t: Tree, s: GenState)
    requires
        lower_statement(t, s).1 is Ok,
    ensures
        lower_statement(t, s).0.depth == s.depth,
    decreases t, 1nat,
{
    match t {
        Tree::VariableDefinition { var_type, identifier, var_value } => {
            if let Some(e) = var_value {
                let ty = crate::lower::llvm_type(var_type)->0;
                if s.depth != 1 {
                    lemma_expr_keeps_scope(
                        *e,
                        emit(reserve(s, 1), Inst::Alloca { dst: s.next, ty }),
                    );
                } else {
                    lemma_expr_keeps_scope(*e, reserve(s, 1));
                }
            }
        },
        Tree::Assignment { identifier, var_value } => {
            if let Some(e) = var_value {
                lemma_expr_keeps_scope(*e, s);
            }
        },
        Tree::Return(e) => {
            lemma_expr_keeps_scope(*e, s);
        },
        Tree::IfElse { condition, if_body, elif_body, else_body } => {
            lemma_ifelse_keeps_depth(*condition, if_body, elif_body, else_body, s);
        },
        Tree::FunctionCall { fn_name, argument } => {
            lemma_call_keeps_scope(fn_name, argument, s);
        },
        _ => {},
    }
}

/// A block that is lowered leaves the generator at the depth at which it
/// started.
pub proof fn lemma_block_keeps_depth(stmts: Seq<Tree>, s: GenState)
    requires
        lower_block(stmts, s).1 is Ok,
    ensures
        lower_block(stmts, s).0.depth == s.depth,
    decreases stmts, 0nat,
{
    if stmts.len() > 0 {
        lemma_block_keeps_depth(stmts.drop_last(), s);
        lemma_statement_keeps_depth(stmts.last(), lower_block(stmts.drop_last(), s).0);
    }
}

/// `s` with another past: `history` in place of the first `from`
/// instructions that `s` has emitted.
pub open spec fn rebased(s: GenState, history: Seq<Inst>, from: int) -> GenState {
    GenState { code: history + s.code.skip(from), ..s }
}

/// Whether the open block ends in the same way in `s` with another past:
/// what is refused after a terminator is refused in both.
pub open spec fn same_end(s: GenState, history: Seq<Inst>, from: int) -> bool {
    closed(rebased(s, history, from)) == closed(s)
}

/// A generator whose block ended in the same way with another past still
/// does so after it has emitted more.
pub proof fn lemma_same_end(s: GenState, t: GenState, history: Seq<Inst>, from: int)
    requires
        grows(s, t),
        0 <= from <= s.code.len(),
        same_end(s, history, from) || t.code.len() > s.code.len(),
    ensures
        same_end(t, history, from),
{
    if t.code.len() > s.code.len() {
        assert((history + t.code.skip(from)).last() == t.code.last());
    } else {
        assert(t.code =~= s.code);
    }
}

/// The end of an arm is the same with another past.
pub proof fn lemma_leave_arm_rebased(s: GenState, merge: int, history: Seq<Inst>, from: int)
    requires
        0 <= from <= s.code.len(),
        same_end(s, history, from),
    ensures
        leave_arm(rebased(s, history, from), merge) == rebased(
            leave_arm(s, merge),
            history,
            from,
        ),
        leave_arm(s, merge).code.len() >= s.code.len(),
{
    if !closed(s) {
        lemma_emit_rebased(s, Inst::Jump { label: merge }, history, from);
    }
}

/// Emitting commutes with a change of the past.
pub proof fn lemma_emit_rebased(s: GenState, inst: Inst, history: Seq<Inst>, from: int)
    requires
        0 <= from <= s.code.len(),
    ensures
        emit(rebased(s, history, from), inst) == rebased(emit(s, inst), history, from),
{
    assert((history + s.code.skip(from)).push(inst) =~= history + s.code.push(inst).skip(from));
}

/// A binary operation on lowered operands does the same with another past.
pub proof fn lemma_infix_rebased(
    op: Seq<char>,
    left: Seq<char>,
    right: Seq<char>,
    s: GenState,
    history: Seq<Inst>,
    from: int,
)
    requires
        0 <= from <= s.code.len(),
    ensures
        lower_infix(op, left, right, rebased(s, history, from)) == (
            rebased(lower_infix(op, left, right, s).0, history, from),
            lower_infix(op, left, right, s).1,
        ),
{
    if s.depth != 1 {
        match crate::lower::binary_operator(op) {
            None => {},
            Some(operator) => {
                if can_reserve(s, 4) {
                    let n = s.next;
                    let ty = crate::ir::result_type(operator);
                    let i1 = Inst::Load { dst: n, ty: "i32"@, from: left };
                    let i2 = Inst::Load { dst: n + 1, ty: "i32"@, from: right };
                    let i3 = Inst::Binary { dst: n + 2, op: operator, lhs: n, rhs: n + 1 };
                    let i4 = Inst::Alloca { dst: n + 3, ty };
                    let i5 = Inst::StorePtr { ty, src: n + 2, to: n + 3 };
                    let s0 = reserve(s, 4);
                    let s1 = emit(s0, i1);
                    let s2 = emit(s1, i2);
                    let s3 = emit(s2, i3);
                    let s4 = emit(s3, i4);
                    assert(reserve(rebased(s, history, from), 4) == rebased(s0, history, from));
                    lemma_emit_rebased(s0, i1, history, from);
                    lemma_emit_rebased(s1, i2, history, from);
                    lemma_emit_rebased(s2, i3, history, from);
                    lemma_emit_rebased(s3, i4, history, from);
                    lemma_emit_rebased(s4, i5, history, from);
                }
            },
        }
    }
}

/// A literal does the same with another past.
pub proof fn lemma_literal_rebased(text: Seq<char>, s: GenState, history: Seq<Inst>, from: int)
    requires
        0 <= from <= s.code.len(),
    ensures
        lower_number(text, rebased(s, history, from)) == (
            rebased(lower_number(text, s).0, history, from),
            lower_number(text, s).1,
        ),
        lower_string(text, rebased(s, history, from)) == (
            rebased(lower_string(text, s).0, history, from),
            lower_string(text, s).1,
        ),
{
    if s.depth != 1 && can_reserve(s, 1) {
        let s0 = reserve(s, 1);
        assert(reserve(rebased(s, history, from), 1) == rebased(s0, history, from));
        let a = Inst::Alloca { dst: s.next, ty: "i32"@ };
        lemma_emit_rebased(s0, a, history, from);
        lemma_emit_rebased(
            emit(s0, a),
            Inst::StoreImm { ty: "i32"@, value: text, to: s.next },
            history,
            from,
        );
        let ty = crate::lower::array_type(text);
        let b = Inst::Alloca { dst: s.next, ty };
        lemma_emit_rebased(s0, b, history, from);
        lemma_emit_rebased(
            emit(s0, b),
            Inst::StoreImm { ty, value: crate::lower::array_literal(text), to: s.next },
            history,
            from,
        );
    }
}

/// Passing an argument does the same with another past.
pub proof fn lemma_pass_rebased(
    ty: Seq<char>,
    value: Seq<char>,
    s: GenState,
    history: Seq<Inst>,
    from: int,
)
    requires
        0 <= from <= s.code.len(),
    ensures
        pass_argument(ty, value, rebased(s, history, from)) == (
            rebased(pass_argument(ty, value, s).0, history, from),
            pass_argument(ty, value, s).1,
        ),
{
    if !crate::lower::is_reference_type(ty) && can_reserve(s, 1) {
        assert(reserve(rebased(s, history, from), 1) == rebased(reserve(s, 1), history, from));
        lemma_emit_rebased(
            reserve(s, 1),
            Inst::LoadArg { dst: s.next, ty, from: value },
            history,
            from,
        );
    }
}

/// Emitting a call does the same with another past.
pub proof fn lemma_invocation_rebased(
    name: Seq<char>,
    ret: Seq<char>,
    args: Seq<(Seq<char>, Seq<char>)>,
    s: GenState,
    history: Seq<Inst>,
    from: int,
)
    requires
        0 <= from <= s.code.len(),
    ensures
        lower_invocation(name, ret, args, rebased(s, history, from)) == (
            rebased(lower_invocation(name, ret, args, s).0, history, from),
            lower_invocation(name, ret, args, s).1,
        ),
{
    let n = s.next;
    if ret == "void"@ {
        if can_reserve(s, 1) {
            assert(reserve(rebased(s, history, from), 1) == rebased(reserve(s, 1), history, from));
            lemma_emit_rebased(
                reserve(s, 1),
                Inst::Call { result: None, ret, name, args },
                history,
                from,
            );
        }
    } else if can_reserve(s, 2) {
        let s0 = reserve(s, 2);
        assert(reserve(rebased(s, history, from), 2) == rebased(s0, history, from));
        let i1 = Inst::Call { result: Some(n), ret, name, args };
        let i2 = Inst::AllocaResult { dst: n + 1, ty: ret };
        let i3 = Inst::StoreResult { ty: ret, src: n, to: n + 1 };
        lemma_emit_rebased(s0, i1, history, from);
        lemma_emit_rebased(emit(s0, i1), i2, history, from);
        lemma_emit_rebased(emit(emit(s0, i1), i2), i3, history, from);
    }
}

/// An expression is lowered in the same way with another past.
pub proof fn lemma_expr_rebased(e: Tree, s: GenState, history: Seq<Inst>, from: int)
    requires
        0 <= from <= s.code.len(),
    ensures
        lower_expr(e, rebased(s, history, from)) == (
            rebased(lower_expr(e, s).0, history, from),
            lower_expr(e, s).1,
        ),
    decreases e, 0nat,
{
    let r = rebased(s, history, from);
    match e {
        Tree::InfixExpression { left_expr, op, right_expr } => {
            lemma_expr_rebased(*left_expr, s, history, from);
            lemma_expr_grows(*left_expr, s);
            let (s1, left) = lower_expr(*left_expr, s);
            if let Ok(l) = left {
                lemma_expr_rebased(*right_expr, s1, history, from);
                lemma_expr_grows(*right_expr, s1);
                let (s2, right) = lower_expr(*right_expr, s1);
                if let Ok(rv) = right {
                    lemma_infix_rebased(op, l, rv, s2, history, from);
                }
            }
        },
        Tree::Number(text) => {
            lemma_literal_rebased(text, s, history, from);
        },
        Tree::String(text) => {
            lemma_literal_rebased(text, s, history, from);
        },
        Tree::Identifier(name) => {},
        Tree::FunctionCall { fn_name, argument } => {
            lemma_call_rebased(fn_name, argument, s, history, from);
        },
        _ => {},
    }
}

/// The arguments of a call are lowered in the same way with another past.
pub proof fn lemma_args_rebased(
    args: Seq<Tree>,
    types: Seq<Seq<char>>,
    s: GenState,
    history: Seq<Inst>,
    from: int,
)
    requires
        0 <= from <= s.code.len(),
    ensures
        lower_args(args, types, rebased(s, history, from)) == (
            rebased(lower_args(args, types, s).0, history, from),
            lower_args(args, types, s).1,
        ),
    decreases args, 0nat,
{
    if args.len() > 0 {
        lemma_args_rebased(args.drop_last(), types, s, history, from);
        lemma_args_grow(args.drop_last(), types, s);
        let (s1, earlier) = lower_args(args.drop_last(), types, s);
        if earlier is Ok {
            lemma_expr_rebased(args.last(), s1, history, from);
            lemma_expr_grows(args.last(), s1);
            let (s2, value) = lower_expr(args.last(), s1);
            if let Ok(v) = value {
                lemma_pass_rebased(types[args.len() - 1], v, s2, history, from);
            }
        }
    }
}

/// A call is lowered in the same way with another past.
pub proof fn lemma_call_rebased(
    name: Seq<char>,
    args: Seq<Tree>,
    s: GenState,
    history: Seq<Inst>,
    from: int,
)
    requires
        0 <= from <= s.code.len(),
    ensures
        lower_call(name, args, rebased(s, history, from)) == (
            rebased(lower_call(name, args, s).0, history, from),
            lower_call(name, args, s).1,
        ),
    decreases args, 1nat,
{
    match crate::lower::find_function(s.frames, name) {
        None => {},
        Some(callee) => {
            let types = callee->Function_paras;
            if args.len() == types.len() {
                lemma_args_rebased(args, types, s, history, from);
                lemma_args_grow(args, types, s);
                let (s1, lowered) = lower_args(args, types, s);
                if let Ok(passed) = lowered {
                    lemma_invocation_rebased(
                        name,
                        callee->Function_ret_ty,
                        passed,
                        s1,
                        history,
                        from,
                    );
                }
            }
        },
    }
}

/// A variable definition is lowered in the same way with another past.
pub proof fn lemma_vardef_rebased(
    var_type: Seq<char>,
    identifier: Seq<char>,
    var_value: Option<Box<Tree>>,
    s: GenState,
    history: Seq<Inst>,
    from: int,
)
    requires
        0 <= from <= s.code.len(),
    ensures
        lower_vardef(var_type, identifier, var_value, rebased(s, history, from)) == (
            rebased(lower_vardef(var_type, identifier, var_value, s).0, history, from),
            lower_vardef(var_type, identifier, var_value, s).1,
        ),
    decreases var_value, 1nat,
{
    match crate::lower::llvm_type(var_type) {
        None => {},
        Some(ty) => {
            if can_reserve(s, 1) {
                let id = s.next;
                let s0 = reserve(s, 1);
                assert(reserve(rebased(s, history, from), 1) == rebased(s0, history, from));
                if s.depth != 1 {
                    let slot = Inst::Alloca { dst: id, ty };
                    let s1 = emit(s0, slot);
                    lemma_emit_rebased(s0, slot, history, from);
                    match var_value {
                        None => {},
                        Some(e) => {
                            lemma_expr_rebased(*e, s1, history, from);
                            lemma_expr_grows(*e, s1);
                            let (s3, value) = lower_expr(*e, s1);
                            if let Ok(v) = value {
                                if can_reserve(s3, 1) {
                                    assert(reserve(rebased(s3, history, from), 1) == rebased(
                                        reserve(s3, 1),
                                        history,
                                        from,
                                    ));
                                    let load = Inst::Load { dst: s3.next, ty, from: v };
                                    lemma_emit_rebased(reserve(s3, 1), load, history, from);
                                    lemma_emit_rebased(
                                        emit(reserve(s3, 1), load),
                                        Inst::Store { ty, src: s3.next, to: id },
                                        history,
                                        from,
                                    );
                                }
                            }
                        },
                    }
                } else {
                    match var_value {
                        None => {
                            lemma_emit_rebased(
                                s0,
                                Inst::Global { id, ty, init: "0"@ },
                                history,
                                from,
                            );
                        },
                        Some(e) => {
                            lemma_expr_rebased(*e, s0, history, from);
                            lemma_expr_grows(*e, s0);
                            let (s2, init) = lower_expr(*e, s0);
                            if let Ok(value) = init {
                                lemma_emit_rebased(
                                    s2,
                                    Inst::Global { id, ty, init: value },
                                    history,
                                    from,
                                );
                            }
                        },
                    }
                }
            }
        },
    }
}

/// An assignment and a return are lowered in the same way with another
/// past.
pub proof fn lemma_simple_statements_rebased(
    identifier: Seq<char>,
    var_value: Option<Box<Tree>>,
    e: Tree,
    s: GenState,
    history: Seq<Inst>,
    from: int,
)
    requires
        0 <= from <= s.code.len(),
    ensures
        lower_assignment(identifier, var_value, rebased(s, history, from)) == (
            rebased(lower_assignment(identifier, var_value, s).0, history, from),
            lower_assignment(identifier, var_value, s).1,
        ),
        lower_return(e, rebased(s, history, from)) == (
            rebased(lower_return(e, s).0, history, from),
            lower_return(e, s).1,
        ),
{
    match crate::lower::find_variable(s.frames, identifier, s.depth) {
        None => {},
        Some(target) => match var_value {
            None => {},
            Some(value) => {
                lemma_expr_rebased(*value, s, history, from);
                lemma_expr_grows(*value, s);
                let (s1, lowered) = lower_expr(*value, s);
                if let Ok(v) = lowered {
                    if can_reserve(s1, 1) {
                        let ty = target->Variable_ty;
                        assert(reserve(rebased(s1, history, from), 1) == rebased(
                            reserve(s1, 1),
                            history,
                            from,
                        ));
                        let load = Inst::LoadPtr { dst: s1.next, ty, from: v };
                        lemma_emit_rebased(reserve(s1, 1), load, history, from);
                        lemma_emit_rebased(
                            emit(reserve(s1, 1), load),
                            Inst::StoreVar { ty, src: s1.next, target: target->Variable_tmp_name },
                            history,
                            from,
                        );
                    }
                }
            },
        },
    }
    if !(s.depth == crate::lower::global_depth() || s.result == "void"@) {
        let ty = s.result;
        lemma_expr_rebased(e, s, history, from);
        lemma_expr_grows(e, s);
        let (s1, lowered) = lower_expr(e, s);
        if let Ok(v) = lowered {
            if can_reserve(s1, 1) {
                assert(reserve(rebased(s1, history, from), 1) == rebased(
                    reserve(s1, 1),
                    history,
                    from,
                ));
                let load = Inst::Load { dst: s1.next, ty, from: v };
                lemma_emit_rebased(reserve(s1, 1), load, history, from);
                lemma_emit_rebased(
                    emit(reserve(s1, 1), load),
                    Inst::Ret { ty, src: s1.next },
                    history,
                    from,
                );
            }
        }
    }
}

/// The parameters get their slots in the same way with another past.
pub proof fn lemma_parameters_rebased(
    params: Seq<(Seq<char>, Seq<char>)>,
    first: int,
    count: int,
    s: GenState,
    history: Seq<Inst>,
    from: int,
)
    requires
        0 <= from <= s.code.len(),
    ensures
        bind_parameters(params, first, count, rebased(s, history, from)) == rebased(
            bind_parameters(params, first, count, s),
            history,
            from,
        ),
        bind_parameters(params, first, count, s).code.len() >= s.code.len(),
    decreases count,
{
    if count > 0 {
        lemma_parameters_rebased(params, first, count - 1, s, history, from);
        let before = bind_parameters(params, first, count - 1, s);
        let (ty, name) = params[count - 1];
        let id = first + count - 1;
        let a = Inst::Alloca { dst: id, ty };
        lemma_emit_rebased(before, a, history, from);
        lemma_emit_rebased(emit(before, a), Inst::StoreParam { ty, name, to: id }, history, from);
    }
}

/// A conditional is lowered in the same way with another past.
pub proof fn lemma_ifelse_rebased(
    condition: Tree,
    if_body: Seq<Tree>,
    elif_body: Option<Seq<Tree>>,
    else_body: Option<Seq<Tree>>,
    s: GenState,
    history: Seq<Inst>,
    from: int,
)
    requires
        0 <= from <= s.code.len(),
        same_end(s, history, from),
    ensures
        lower_ifelse(condition, if_body, elif_body, else_body, rebased(s, history, from)) == (
            rebased(
                lower_ifelse(condition, if_body, elif_body, else_body, s).0,
                history,
                from,
            ),
            lower_ifelse(condition, if_body, elif_body, else_body, s).1,
        ),
    decreases crate::lower::conditional(condition, if_body, elif_body, else_body), 0nat,
{
    lemma_expr_rebased(condition, s, history, from);
    lemma_expr_grows(condition, s);
    let (tested, test) = lower_expr(condition, s);
    if let Ok(flag) = test {
        let has_else = else_body is Some;
        let count: int = if has_else {
            4
        } else {
            3
        };
        if can_reserve(tested, count) {
            let base = tested.next;
            let merge = crate::lower::merge_label(base);
            let drawn = reserve(tested, count);
            assert(reserve(rebased(tested, history, from), count) == rebased(
                drawn,
                history,
                from,
            ));
            let i1 = Inst::LoadPtr { dst: base, ty: "i1"@, from: flag };
            let i2 = Inst::Branch {
                cond: base,
                then_label: crate::lower::then_label(base),
                else_label: if has_else {
                    crate::lower::else_label(base)
                } else {
                    merge
                },
            };
            let i3 = Inst::Label { id: crate::lower::then_label(base) };
            lemma_emit_rebased(drawn, i1, history, from);
            lemma_emit_rebased(emit(drawn, i1), i2, history, from);
            lemma_emit_rebased(emit(emit(drawn, i1), i2), i3, history, from);
            let entry = first_arm_entry(flag, has_else, tested);
            lemma_entry_grows(flag, has_else, tested);
            lemma_same_end(tested, entry, history, from);
            match crate::lower::conditional(condition, if_body, elif_body, else_body) {
                Tree::IfElse { condition: _, if_body: first_arm, elif_body: _, else_body: else_arm } => {
                    lemma_block_rebased(first_arm, entry, history, from);
                    lemma_block_grows(first_arm, entry);
                    let (done, first) = lower_block(first_arm, entry);
                    if first is Ok {
                        let landing = Inst::Label { id: merge };
                        let left = leave_arm(done, merge);
                        lemma_same_end(entry, done, history, from);
                        lemma_leave_arm_rebased(done, merge, history, from);
                        match else_arm {
                            None => {
                                lemma_emit_rebased(left, landing, history, from);
                            },
                            Some(body) => {
                                let label = Inst::Label { id: crate::lower::else_label(base) };
                                lemma_emit_rebased(left, label, history, from);
                                let other_entry = else_arm_entry(base, done);
                                assert((history + other_entry.code.skip(from)).last()
                                    == other_entry.code.last());
                                lemma_block_rebased(body, other_entry, history, from);
                                lemma_block_grows(body, other_entry);
                                let (other_done, second) = lower_block(body, other_entry);
                                if second is Ok {
                                    lemma_same_end(other_entry, other_done, history, from);
                                    lemma_leave_arm_rebased(other_done, merge, history, from);
                                    lemma_emit_rebased(
                                        leave_arm(other_done, merge),
                                        landing,
                                        history,
                                        from,
                                    );
                                }
                            },
                        }
                    }
                },
                _ => {},
            }
        }
    }
}

/// A function definition is lowered in the same way with another past.
pub proof fn lemma_fundef_rebased(
    fn_name: Seq<char>,
    parameters: Seq<(Seq<char>, Seq<char>)>,
    ret_type: Option<Seq<char>>,
    body: Seq<Tree>,
    s: GenState,
    history: Seq<Inst>,
    from: int,
)
    requires
        0 <= from <= s.code.len(),
        same_end(s, history, from),
    ensures
        lower_fundef(fn_name, parameters, ret_type, body, rebased(s, history, from)) == (
            rebased(lower_fundef(fn_name, parameters, ret_type, body, s).0, history, from),
            lower_fundef(fn_name, parameters, ret_type, body, s).1,
        ),
    decreases body, 1nat,
{
    if s.depth == 1 && crate::lower::return_type(ret_type) is Some
        && crate::lower::parameters_lowerable(parameters) && can_reserve(
        s,
        parameters.len() as int + 1,
    ) {
        let ret = crate::lower::return_type(ret_type)->0;
        let params = crate::lower::lowered_parameters(parameters);
        let count = parameters.len() as int + 1;
        let s0 = reserve(s, count);
        assert(reserve(rebased(s, history, from), count) == rebased(s0, history, from));
        let define = Inst::Define { ret, name: fn_name, params };
        let s1 = emit(s0, define);
        lemma_emit_rebased(s0, define, history, from);
        let info = crate::lower::signature_info(fn_name, ret, params);
        let entered = enter_body(declare(s1, crate::lower::global_depth(), fn_name, info), ret);
        assert(enter_body(
            declare(rebased(s1, history, from), crate::lower::global_depth(), fn_name, info),
            ret,
        ) == rebased(entered, history, from));
        lemma_parameters_rebased(params, s.next, params.len() as int, entered, history, from);
        let s3 = bind_parameters(params, s.next, params.len() as int, entered);
        assert(s3.code.len() > from);
        assert((history + s3.code.skip(from)).last() == s3.code.last());
        lemma_block_rebased(body, s3, history, from);
        lemma_block_grows(body, s3);
        let (s4, lowered) = lower_block(body, s3);
        if lowered is Ok {
            lemma_same_end(s3, s4, history, from);
            let s5 = if ret == "void"@ && !closed(s4) {
                emit(s4, Inst::RetVoid)
            } else {
                s4
            };
            if ret == "void"@ && !closed(s4) {
                lemma_emit_rebased(s4, Inst::RetVoid, history, from);
            }
            lemma_emit_rebased(s5, Inst::EndDefine, history, from);
            assert(leave_body(
                rebased(emit(s5, Inst::EndDefine), history, from),
                rebased(s, history, from),
            ) == rebased(leave_body(emit(s5, Inst::EndDefine), s), history, from));
        }
    }
}

/// A statement is lowered in the same way with another past.
pub proof fn lemma_statement_rebased(t: Tree, s: GenState, history: Seq<Inst>, from: int)
    requires
        0 <= from <= s.code.len(),
        same_end(s, history, from),
    ensures
        lower_statement(t, rebased(s, history, from)) == (
            rebased(lower_statement(t, s).0, history, from),
            lower_statement(t, s).1,
        ),
    decreases t, 1nat,
{
    match t {
        Tree::VariableDefinition { var_type, identifier, var_value } => {
            lemma_vardef_rebased(var_type, identifier, var_value, s, history, from);
        },
        Tree::Assignment { identifier, var_value } => {
            lemma_simple_statements_rebased(identifier, var_value, t, s, history, from);
        },
        Tree::FunctionDefinition { fn_name, parameters, ret_type, body } => {
            lemma_fundef_rebased(fn_name, parameters, ret_type, body, s, history, from);
        },
        Tree::Return(e) => {
            lemma_simple_statements_rebased(Seq::empty(), None, *e, s, history, from);
        },
        Tree::IfElse { condition, if_body, elif_body, else_body } => {
            lemma_ifelse_rebased(*condition, if_body, elif_body, else_body, s, history, from);
        },
        Tree::FunctionCall { fn_name, argument } => {
            lemma_call_rebased(fn_name, argument, s, history, from);
        },
        _ => {},
    }
}

/// A block is lowered in the same way with another past.
pub proof fn lemma_block_rebased(stmts: Seq<Tree>, s: GenState, history: Seq<Inst>, from: int)
    requires
        0 <= from <= s.code.len(),
        same_end(s, history, from),
    ensures
        lower_block(stmts, rebased(s, history, from)) == (
            rebased(lower_block(stmts, s).0, history, from),
            lower_block(stmts, s).1,
        ),
    decreases stmts, 0nat,
{
    if stmts.len() > 0 {
        lemma_block_rebased(stmts.drop_last(), s, history, from);
        lemma_block_grows(stmts.drop_last(), s);
        let (s1, earlier) = lower_block(stmts.drop_last(), s);
        if earlier is Ok {
            lemma_same_end(s, s1, history, from);
            lemma_statement_rebased(stmts.last(), s1, history, from);
        }
    }
}

/// What a generator emits for a program does not depend on what it emitted
/// before: two generators whose counters, depths and registries agree turn
/// the same tree into the same instructions with the same ids, draw the same
/// ids, declare the same names and end with the same result, whatever each
/// of them had emitted earlier.
pub proof fn lemma_lowering_ignores_history(
    t: Tree,
    triple: Seq<char>,
    first: GenState,
    second: GenState,
)
    requires
        first.next == second.next,
        first.depth == second.depth,
        first.result == second.result,
        first.frames == second.frames,
    ensures
        lower_program(t, triple, first).1 == lower_program(t, triple, second).1,
        lower_program(t, triple, first).0.next == lower_program(t, triple, second).0.next,
        lower_program(t, triple, first).0.depth == lower_program(t, triple, second).0.depth,
        lower_program(t, triple, first).0.frames == lower_program(t, triple, second).0.frames,
        emitted(first, lower_program(t, triple, first).0) == emitted(
            second,
            lower_program(t, triple, second).0,
        ),
{
    let from = first.code.len() as int;
    let history = second.code;
    assert(rebased(first, history, from) == second) by {
        assert(history + first.code.skip(from) =~= second.code);
    }
    let lines = crate::lower::runtime_declarations();
    let i0 = Inst::Target { triple };
    let s1 = emit(first, i0);
    let s2 = emit(s1, Inst::Extern { line: lines[0] });
    let s3 = emit(s2, Inst::Extern { line: lines[1] });
    let s4 = emit(s3, Inst::Extern { line: lines[2] });
    let s5 = emit(s4, Inst::Extern { line: lines[3] });
    lemma_emit_rebased(first, i0, history, from);
    lemma_emit_rebased(s1, Inst::Extern { line: lines[0] }, history, from);
    lemma_emit_rebased(s2, Inst::Extern { line: lines[1] }, history, from);
    lemma_emit_rebased(s3, Inst::Extern { line: lines[2] }, history, from);
    lemma_emit_rebased(s4, Inst::Extern { line: lines[3] }, history, from);
    lemma_emit_rebased(s5, Inst::Extern { line: lines[4] }, history, from);
    assert(prologue(triple, rebased(first, history, from)) == rebased(
        prologue(triple, first),
        history,
        from,
    ));
    match t {
        Tree::Program(stmts) => {
            let start = declare_signatures(stmts, prologue(triple, first));
            lemma_signatures_rebased(stmts, prologue(triple, first), history, from);
            lemma_signatures_quiet(stmts, prologue(triple, first));
            assert(start.code == prologue(triple, first).code);
            assert(start.code.last() == Inst::Extern { line: lines[4] });
            assert((history + start.code.skip(from)).last() == start.code.last());
            lemma_block_rebased(stmts, start, history, from);
        },
        _ => {},
    }
    lemma_program_grows(t, triple, first);
    let done = lower_program(t, triple, first).0;
    assert(lower_program(t, triple, second).0 == rebased(done, history, from));
    assert(emitted(second, rebased(done, history, from)) =~= emitted(first, done));
}

/// Whether `t` differs from `s` in no frame but that of function bodies.
pub open spec fn same_outer_frames(s: GenState, t: GenState) -> bool {
    &&& t.frames.len() == s.frames.len()
    &&& forall|d: int|
        0 <= d < s.frames.len() && d != crate::lower::body_depth() ==> #[trigger] t.frames[d]
            == s.frames[d]
}

/// Whether `s` stands in the body of a function, with a frame for it.
pub open spec fn in_body(s: GenState) -> bool {
    s.depth == crate::lower::body_depth() && s.frames.len() > crate::lower::body_depth()
}

/// In the body of a function a conditional declares into the frame of the
/// body alone.
pub proof fn lemma_ifelse_keeps_outer_frames(
    condition: Tree,
    if_body: Seq<Tree>,
    elif_body: Option<Seq<Tree>>,
    else_body: Option<Seq<Tree>>,
    s: GenState,
)
    requires
        in_body(s),
    ensures
        same_outer_frames(s, lower_ifelse(condition, if_body, elif_body, else_body, s).0),
    decreases crate::lower::conditional(condition, if_body, elif_body, else_body), 0nat,
{
    if elif_body is None {
        lemma_expr_keeps_scope(condition, s);
        let (tested, test) = lower_expr(condition, s);
        if let Ok(flag) = test {
            let has_else = else_body is Some;
            let count: int = if has_else {
                4
            } else {
                3
            };
            if can_reserve(tested, count) {
                let entry = first_arm_entry(flag, has_else, tested);
                match crate::lower::conditional(condition, if_body, elif_body, else_body) {
                    Tree::IfElse {
                        condition: _,
                        if_body: first_arm,
                        elif_body: _,
                        else_body: else_arm,
                    } => {
                        lemma_block_keeps_outer_frames(first_arm, entry);
                        let (done, first) = lower_block(first_arm, entry);
                        if first is Ok {
                            lemma_block_keeps_depth(first_arm, entry);
                            match else_arm {
                                None => {},
                                Some(body) => {
                                    lemma_block_keeps_outer_frames(
                                        body,
                                        else_arm_entry(tested.next, done),
                                    );
                                },
                            }
                        }
                    },
                    _ => {},
                }
            }
        }
    }
}

/// In the body of a function a statement declares into the frame of the
/// body alone.
pub proof fn lemma_statement_keeps_outer_frames(t: Tree, s: GenState)
    requires
        in_body(s),
    ensures
        same_outer_frames(s, lower_statement(t, s).0),
    decreases t, 1nat,
{
    match t {
        Tree::VariableDefinition { var_type, identifier, var_value } => {
            if let Some(e) = var_value {
                if let Some(ty) = crate::lower::llvm_type(var_type) {
                    lemma_expr_keeps_scope(
                        *e,
                        emit(reserve(s, 1), Inst::Alloca { dst: s.next, ty }),
                    );
                }
            }
        },
        Tree::Assignment { identifier, var_value } => {
            if let Some(e) = var_value {
                lemma_expr_keeps_scope(*e, s);
            }
        },
        Tree::Return(e) => {
            lemma_expr_keeps_scope(*e, s);
        },
        Tree::IfElse { condition, if_body, elif_body, else_body } => {
            lemma_ifelse_keeps_outer_frames(*condition, if_body, elif_body, else_body, s);
        },
        Tree::FunctionCall { fn_name, argument } => {
            lemma_call_keeps_scope(fn_name, argument, s);
        },
        _ => {},
    }
}

/// In the body of a function a block declares into the frame of the body
/// alone.
pub proof fn lemma_block_keeps_outer_frames(stmts: Seq<Tree>, s: GenState)
    requires
        in_body(s),
    ensures
        same_outer_frames(s, lower_block(stmts, s).0),
    decreases stmts, 0nat,
{
    if stmts.len() > 0 {
        lemma_block_keeps_outer_frames(stmts.drop_last(), s);
        let (s1, earlier) = lower_block(stmts.drop_last(), s);
        if earlier is Ok {
            lemma_block_keeps_depth(stmts.drop_last(), s);
            lemma_statement_keeps_outer_frames(stmts.last(), s1);
        }
    }
}

/// The parameters are declared in the frame of the body alone.
pub proof fn lemma_parameters_keep_outer_frames(
    params: Seq<(Seq<char>, Seq<char>)>,
    first: int,
    count: int,
    s: GenState,
)
    requires
        in_body(s),
    ensures
        same_outer_frames(s, bind_parameters(params, first, count, s)),
        in_body(bind_parameters(params, first, count, s)),
    decreases count,
{
    if count > 0 {
        lemma_parameters_keep_outer_frames(params, first, count - 1, s);
    }
}

/// While the body of a function is lowered, a parameter resolves to its own
/// slot: parameter `i` lives in register `first + i` with its lowered type,
/// provided no later parameter has its name. The slots of different
/// parameters differ.
pub proof fn lemma_parameter_resolves(
    params: Seq<(Seq<char>, Seq<char>)>,
    first: int,
    count: int,
    s: GenState,
    i: int,
)
    requires
        in_body(s),
        0 <= i < count <= params.len(),
        forall|j: int| i < j < count ==> (#[trigger] params[j]).1 != params[i].1,
    ensures
        crate::lower::find_variable(
            bind_parameters(params, first, count, s).frames,
            params[i].1,
            crate::lower::body_depth(),
        ) == Some(
            crate::lower::variable_info(
                register(first + i),
                params[i].0,
                crate::lower::body_depth(),
            ),
        ),
        bind_parameters(params, first, count, s).frames[crate::lower::body_depth()].contains_key(
            params[i].1,
        ),
        forall|a: int, b: int| a != b ==> #[trigger] register(a) != #[trigger] register(b),
    decreases count,
{
    lemma_parameters_keep_outer_frames(params, first, count - 1, s);
    lemma_parameters_keep_outer_frames(params, first, count, s);
    let before = bind_parameters(params, first, count - 1, s);
    let after = bind_parameters(params, first, count, s);
    let body = crate::lower::body_depth();
    let info = crate::lower::variable_info(register(first + i), params[i].0, body);
    assert(after.frames[body] == before.frames[body].insert(
        params[count - 1].1,
        crate::lower::variable_info(register(first + count - 1), params[count - 1].0, body),
    ));
    if i < count - 1 {
        lemma_parameter_resolves(params, first, count - 1, s, i);
        assert(params[count - 1].1 != params[i].1);
        lemma_nearest_declaration_is_found(before.frames, params[i].1, body);
        assert(before.frames[body][params[i].1] == info);
    }
    assert(after.frames[body].contains_key(params[i].1));
    assert(after.frames[body][params[i].1] == info);
    lemma_nearest_declaration(after.frames, params[i].1, body, body);
    assert forall|a: int, b: int| a != b implies #[trigger] register(a) != #[trigger] register(
        b,
    ) by {
        crate::ir::lemma_names_differ(a, b);
    }
}

/// What a function declares for itself does not outlive it. After a
/// function definition is lowered, the registry is what it was but for the
/// signature of the function in the global frame: the frame of the body is
/// as it was found, so that no parameter and no local of the function
/// resolves any more, at the global depth or in the body of a later
/// function, and a name resolves to what it resolved to before.
pub proof fn lemma_function_leaves_no_declaration(
    fn_name: Seq<char>,
    parameters: Seq<(Seq<char>, Seq<char>)>,
    ret_type: Option<Seq<char>>,
    body: Seq<Tree>,
    s: GenState,
)
    requires
        s.frames.len() > crate::lower::body_depth(),
        lower_fundef(fn_name, parameters, ret_type, body, s).1 is Ok,
    ensures
        ({
            let t = lower_fundef(fn_name, parameters, ret_type, body, s).0;
            &&& t.depth == s.depth
            &&& t.result == s.result
            &&& t.frames == s.frames.update(
                crate::lower::global_depth(),
                s.frames[crate::lower::global_depth()].insert(
                    fn_name,
                    crate::lower::signature_info(
                        fn_name,
                        crate::lower::return_type(ret_type)->0,
                        crate::lower::lowered_parameters(parameters),
                    ),
                ),
            )
            &&& forall|name: Seq<char>, from: int|
                name != fn_name && 0 <= from < s.frames.len()
                    ==> #[trigger] crate::lower::find_variable(t.frames, name, from)
                    == crate::lower::find_variable(s.frames, name, from)
        }),
{
    let t = lower_fundef(fn_name, parameters, ret_type, body, s).0;
    let ret = crate::lower::return_type(ret_type)->0;
    let params = crate::lower::lowered_parameters(parameters);
    let s1 = emit(
        reserve(s, parameters.len() as int + 1),
        Inst::Define { ret, name: fn_name, params },
    );
    let info = crate::lower::signature_info(fn_name, ret, params);
    let s2 = declare(s1, crate::lower::global_depth(), fn_name, info);
    let entered = enter_body(s2, ret);
    lemma_parameters_keep_outer_frames(params, s.next, params.len() as int, entered);
    let s3 = bind_parameters(params, s.next, params.len() as int, entered);
    lemma_block_keeps_outer_frames(body, s3);
    let s4 = lower_block(body, s3).0;
    let after = s.frames.update(
        crate::lower::global_depth(),
        s.frames[crate::lower::global_depth()].insert(fn_name, info),
    );
    assert(t.frames =~= after) by {
        assert forall|d: int| 0 <= d < after.len() implies t.frames[d] == after[d] by {
            if d != crate::lower::body_depth() {
                assert(s4.frames[d] == s3.frames[d]);
                assert(s3.frames[d] == entered.frames[d]);
            }
        }
    }
    assert forall|name: Seq<char>, from: int|
        name != fn_name && 0 <= from < s.frames.len() implies #[trigger] crate::lower::find_variable(
        t.frames,
        name,
        from,
    ) == crate::lower::find_variable(s.frames, name, from) by {
        lemma_lookup_elsewhere(s.frames, after, name, from);
    }
}

/// A lookup of a name sees only what the frames hold under that name.
pub proof fn lemma_lookup_elsewhere(
    before: Seq<Map<Seq<char>, InfoView>>,
    after: Seq<Map<Seq<char>, InfoView>>,
    name: Seq<char>,
    from: int,
)
    requires
        from < before.len(),
        before.len() == after.len(),
        forall|d: int|
            0 <= d <= from ==> (#[trigger] after[d]).contains_key(name) == before[d].contains_key(
                name,
            ) && (before[d].contains_key(name) ==> after[d][name] == before[d][name]),
    ensures
        crate::lower::binding_depth(after, name, from) == crate::lower::binding_depth(
            before,
            name,
            from,
        ),
        crate::lower::find_variable(after, name, from) == crate::lower::find_variable(
            before,
            name,
            from,
        ),
    decreases from + 1,
{
    if from >= 0 {
        assert(after[from].contains_key(name) == before[from].contains_key(name));
        if !before[from].contains_key(name) {
            lemma_lookup_elsewhere(before, after, name, from - 1);
        }
        lemma_binding_depth(before, name, from);
        let d = crate::lower::binding_depth(before, name, from);
        if d >= 0 {
            assert(after[d].contains_key(name));
        }
    }
}

/// A lookup from a frame that binds the name stops there.
pub proof fn lemma_nearest_declaration_is_found(
    frames: Seq<Map<Seq<char>, InfoView>>,
    name: Seq<char>,
    from: int,
)
    requires
        0 <= from < frames.len(),
        frames[from].contains_key(name),
    ensures
        crate::lower::binding_depth(frames, name, from) == from,
{
}

/// A reference binds to the nearest declaration: where the frame at depth
/// `near` declares a variable under `name` and no deeper frame up to `from`
/// binds the name, a lookup from `from` finds that variable, whatever the
/// frames further out hold under the name.
pub proof fn lemma_nearest_declaration(
    frames: Seq<Map<Seq<char>, InfoView>>,
    name: Seq<char>,
    near: int,
    from: int,
)
    requires
        0 <= near <= from < frames.len(),
        frames[near].contains_key(name),
        frames[near][name] is Variable,
        forall|d: int| near < d <= from ==> !(#[trigger] frames[d]).contains_key(name),
    ensures
        crate::lower::binding_depth(frames, name, from) == near,
        crate::lower::find_variable(frames, name, from) == Some(frames[near][name]),
    decreases from - near,
{
    if from > near {
        assert(!frames[from].contains_key(name));
        lemma_nearest_declaration(frames, name, near, from - 1);
    }
}

/// A register and a static symbol never have the same name.
pub proof fn lemma_register_is_no_global(a: int, b: int)
    ensures
        register(a) != global_symbol(b),
{
    reveal_strlit("%");
    reveal_strlit("@");
    assert(register(a)[0] == '%');
    assert(global_symbol(b)[0] == '@');
}

/// A local gets a slot of its own. A variable defined in a function is
/// declared in the frame of the current depth and in no other, it lives in
/// the register of the id that the counter showed, and that register is the
/// slot of no variable that the registry held before: a declaration further
/// out under the same name keeps its own slot, and the two resolve
/// independently.
pub proof fn lemma_local_slot_is_fresh(
    var_type: Seq<char>,
    identifier: Seq<char>,
    var_value: Option<Box<Tree>>,
    s: GenState,
)
    requires
        s.depth != crate::lower::global_depth(),
        depth_in_registry(s),
        slots_below(s),
        lower_vardef(var_type, identifier, var_value, s).1 is Ok,
    ensures
        ({
            let t = lower_vardef(var_type, identifier, var_value, s).0;
            &&& t.frames.len() == s.frames.len()
            &&& forall|d: int|
                0 <= d < s.frames.len() && d != s.depth ==> #[trigger] t.frames[d] == s.frames[d]
            &&& t.frames[s.depth] == s.frames[s.depth].insert(
                identifier,
                crate::lower::variable_info(
                    register(s.next),
                    crate::lower::llvm_type(var_type)->0,
                    s.depth,
                ),
            )
            &&& forall|d: int, name: Seq<char>|
                0 <= d < s.frames.len() && (#[trigger] s.frames[d].contains_key(name))
                    && s.frames[d][name] is Variable ==> s.frames[d][name]->Variable_tmp_name
                    != register(s.next)
        }),
{
    let ty = crate::lower::llvm_type(var_type)->0;
    let s1 = emit(reserve(s, 1), Inst::Alloca { dst: s.next, ty });
    if let Some(e) = var_value {
        lemma_expr_keeps_scope(*e, s1);
    }
    assert forall|d: int, name: Seq<char>|
        0 <= d < s.frames.len() && (#[trigger] s.frames[d].contains_key(name))
            && s.frames[d][name] is Variable implies s.frames[d][name]->Variable_tmp_name
        != register(s.next) by {
        let value = s.frames[d][name]->Variable_tmp_name;
        assert(crate::lower::drawn(s.frames[d][name], s.next));
        if crate::lower::register_below(value, s.next) {
            let id = choose|id: int| id < s.next && value == #[trigger] register(id);
            crate::ir::lemma_names_differ(id, s.next);
        } else {
            let id = choose|id: int| id < s.next && value == #[trigger] global_symbol(id);
            lemma_register_is_no_global(s.next, id);
        }
    }
}

/// The merge label of a conditional occurs once in all that the generator
/// has emitted, not only in what the conditional emitted: nothing emitted
/// earlier can have set it, since every id in the earlier code was drawn
/// before the label was.
pub proof fn lemma_merge_label_once_overall(
    condition: Tree,
    if_body: Seq<Tree>,
    elif_body: Option<Seq<Tree>>,
    else_body: Option<Seq<Tree>>,
    s: GenState,
)
    requires
        ids_below(s),
        lower_ifelse(condition, if_body, elif_body, else_body, s).1 is Ok,
    ensures
        ({
            let t = lower_ifelse(condition, if_body, elif_body, else_body, s).0;
            let merge = crate::lower::merge_label(lower_expr(condition, s).0.next);
            &&& s.next <= merge < t.next
            &&& t.code.last() == (Inst::Label { id: merge })
            &&& label_count(t.code, merge) == 1
        }),
{
    let t = lower_ifelse(condition, if_body, elif_body, else_body, s).0;
    let tested = lower_expr(condition, s).0;
    let merge = crate::lower::merge_label(tested.next);
    lemma_conditional_merges_once(condition, if_body, elif_body, else_body, s);
    lemma_expr_grows(condition, s);
    assert forall|i: int| 0 <= i < s.code.len() implies (#[trigger] s.code[i]) != (Inst::Label {
        id: merge,
    }) by {
        assert(defines_within(s.code[i], 0, s.next));
    }
    lemma_no_label(s.code, merge);
    assert(t.code =~= s.code + emitted(s, t));
    lemma_label_count_concat(s.code, emitted(s, t), merge);
    assert(defines_within(t.code[t.code.len() - 1], s.next, t.next));
}

} // verus!
