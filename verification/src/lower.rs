//! What lowering means: the instructions, the registry and the counter that
//! result from lowering a syntax tree, as functions of the tree and of the
//! state in which lowering starts.

use crate::ir::{global_symbol, register, BinOp, Inst};
use crate::parser::Tree;
use crate::text::{decimal, parse_i32, signed_decimal};
use vstd::prelude::*;

verus! {

/// The kinds of lowering error.
#[derive(Debug, Clone, Copy, PartialEq, Eq, Structural)]
pub enum CodegenErrorKind {
    /// A variable or function name that no visible declaration binds.
    UnresolvedReference,
    /// A source type name without a lowered type.
    TypeLowering,
    /// A call whose argument count differs from the callee's parameter count.
    MalformedCall,
    /// A node of a kind that is not accepted where it stands: in expression
    /// position, as an operator, as an assignment without a value, as a
    /// function definition inside a function, as a return outside a function
    /// that produces a value, as a conditional with an arm that has no
    /// condition, or as a statement after the return that ends its block.
    InvalidNode,
    /// A constant expression that cannot be evaluated: an operand that is no
    /// 32-bit integer, a result outside the 32-bit range, a division by zero.
    ConstantFold,
    /// No synthetic id is left: the counter would pass the largest `i64`.
    IdExhausted,
}

/// Why a tree cannot be lowered: the kind of the error, and the name it is
/// about. The name is the variable or function that is not declared, the
/// type or the function whose types cannot be lowered, the callee of a
/// malformed call, the operator that is not known or cannot be folded, the
/// target of an assignment without a value, or the function that is defined
/// inside another; it is empty where the error is about no name.
#[derive(Debug, Clone, PartialEq)]
pub struct CodegenError {
    pub kind: CodegenErrorKind,
    pub name: String,
}

/// A lowering error as a mathematical value.
pub struct Failure {
    pub kind: CodegenErrorKind,
    pub name: Seq<char>,
}

impl View for CodegenError {
    type V = Failure;

    open spec fn view(&self) -> Failure {
        Failure { kind: self.kind, name: self.name@ }
    }
}

/// The error of kind `kind` about `name`.
pub open spec fn failure(kind: CodegenErrorKind, name: Seq<char>) -> Failure {
    Failure { kind, name }
}

/// The error that no synthetic id is left.
pub open spec fn exhausted() -> Failure {
    failure(CodegenErrorKind::IdExhausted, Seq::empty())
}

/// What went wrong, in words, for each kind of lowering error.
pub open spec fn kind_text(kind: CodegenErrorKind) -> Seq<char> {
    match kind {
        CodegenErrorKind::UnresolvedReference => "reference to a name that is not declared"@,
        CodegenErrorKind::TypeLowering => "a type that has no lowered type"@,
        CodegenErrorKind::MalformedCall => "a call with the wrong number of arguments"@,
        CodegenErrorKind::InvalidNode => "a node that cannot be lowered where it stands"@,
        CodegenErrorKind::ConstantFold => "a global initializer that is no 32-bit constant"@,
        CodegenErrorKind::IdExhausted => "no synthetic id is left"@,
    }
}

/// The message of a lowering error: what went wrong, then the name it is
/// about.
pub open spec fn error_text(err: Failure) -> Seq<char> {
    kind_text(err.kind) + ": "@ + err.name
}

impl CodegenErrorKind {
    /// What went wrong, in words.
    pub fn describe(&self) -> (text: &'static str)
        ensures
            text@ == kind_text(*self),
    {
        match self {
            CodegenErrorKind::UnresolvedReference => "reference to a name that is not declared",
            CodegenErrorKind::TypeLowering => "a type that has no lowered type",
            CodegenErrorKind::MalformedCall => "a call with the wrong number of arguments",
            CodegenErrorKind::InvalidNode => "a node that cannot be lowered where it stands",
            CodegenErrorKind::ConstantFold => "a global initializer that is no 32-bit constant",
            CodegenErrorKind::IdExhausted => "no synthetic id is left",
        }
    }
}

impl CodegenError {
    /// The error of kind `kind` about `name`.
    pub fn new(kind: CodegenErrorKind, name: &str) -> (err: Self)
        ensures
            err@ == failure(kind, name@),
    {
        CodegenError { kind, name: String::from_str(name) }
    }

    /// The error of kind `kind` about no name.
    pub fn unnamed(kind: CodegenErrorKind) -> (err: Self)
        ensures
            err@ == failure(kind, Seq::empty()),
    {
        CodegenError { kind, name: String::new() }
    }

    /// The message of this error: what went wrong, then the name it is
    /// about.
    pub fn message(&self) -> (text: String)
        ensures
            text@ == error_text(self@),
    {
        let mut text = String::from_str(self.kind.describe());
        text.append(": ");
        text.append(self.name.as_str());
        text
    }
}

/// What the registry records of a declared name, as plain values.
pub enum InfoView {
    Variable { tmp_name: Seq<char>, ty: Seq<char>, scope: usize, size: i64 },
    Function { tmp_name: Seq<char>, ret_ty: Seq<char>, paras: Seq<Seq<char>>, scope: usize },
}

/// The state of a generator: the next synthetic id, the current scope depth
/// (1 is the global scope), the lowered return type of the function whose
/// body is being lowered, the registry by depth, and what was emitted.
pub struct GenState {
    pub next: int,
    pub depth: int,
    pub result: Seq<char>,
    pub frames: Seq<Map<Seq<char>, InfoView>>,
    pub code: Seq<Inst>,
}

/// The final state of a lowering step, and its value or the reason why it
/// stopped.
pub type Lowered<T> = (GenState, Result<T, Failure>);

/// The depth of the global scope.
pub open spec fn global_depth() -> int {
    1
}

/// The depth at which the body of a function is lowered.
pub open spec fn body_depth() -> int {
    2
}

/// The number of frames that a module's lowering adds to the registry.
pub open spec fn frame_count() -> int {
    5
}

/// The state of a new generator: nothing emitted, a registry without any
/// frame, the counter at zero, in the global scope.
pub open spec fn fresh_state() -> GenState {
    GenState {
        next: 0,
        depth: global_depth(),
        result: Seq::empty(),
        frames: Seq::empty(),
        code: Seq::empty(),
    }
}

/// `s` with the empty frames of one more module added to its registry.
pub open spec fn open_registry(s: GenState) -> GenState {
    GenState { frames: s.frames + Seq::new(frame_count() as nat, |i: int| Map::empty()), ..s }
}

/// The synthetic id that an instruction defines: the register it assigns,
/// the static symbol it declares, or the label it sets.
pub open spec fn defined_id(inst: Inst) -> Option<int> {
    match inst {
        Inst::Global { id, .. } => Some(id),
        Inst::Alloca { dst, .. } => Some(dst),
        Inst::AllocaResult { dst, .. } => Some(dst),
        Inst::Load { dst, .. } => Some(dst),
        Inst::LoadPtr { dst, .. } => Some(dst),
        Inst::LoadArg { dst, .. } => Some(dst),
        Inst::Binary { dst, .. } => Some(dst),
        Inst::Call { result, .. } => result,
        Inst::Label { id } => Some(id),
        _ => None,
    }
}

/// Whether `inst` defines nothing, or an id from `low` up to but not
/// including `high`.
pub open spec fn defines_within(inst: Inst, low: int, high: int) -> bool {
    match defined_id(inst) {
        Some(id) => low <= id < high,
        None => true,
    }
}

/// Whether `value` names a register whose id lies below `high`.
pub open spec fn register_below(value: Seq<char>, high: int) -> bool {
    exists|id: int| id < high && value == #[trigger] register(id)
}

/// Whether `value` names a static symbol whose id lies below `high`.
pub open spec fn global_below(value: Seq<char>, high: int) -> bool {
    exists|id: int| id < high && value == #[trigger] global_symbol(id)
}

/// Whether what the registry records under a name is in order for a counter
/// at `high`: a variable lives in a register or a static symbol whose id
/// was drawn.
pub open spec fn drawn(info: InfoView, high: int) -> bool {
    info is Variable ==> register_below(info->Variable_tmp_name, high) || global_below(
        info->Variable_tmp_name,
        high,
    )
}

/// Whether every id that the emitted code defines was drawn from the counter.
pub open spec fn ids_below(s: GenState) -> bool {
    forall|i: int| 0 <= i < s.code.len() ==> defines_within(#[trigger] s.code[i], 0, s.next)
}

/// Whether every variable of the registry lives in a register or a static
/// symbol whose id was drawn from the counter.
pub open spec fn slots_below(s: GenState) -> bool {
    forall|depth: int, name: Seq<char>|
        0 <= depth < s.frames.len() && (#[trigger] s.frames[depth].contains_key(name)) ==> drawn(
            s.frames[depth][name],
            s.next,
        )
}

/// `s` with `inst` emitted.
pub open spec fn emit(s: GenState, inst: Inst) -> GenState {
    GenState { code: s.code.push(inst), ..s }
}

/// Whether `count` more ids can be drawn in `s`.
pub open spec fn can_reserve(s: GenState, count: int) -> bool {
    s.next + count <= i64::MAX
}

/// `s` with the ids `s.next .. s.next + count` drawn.
pub open spec fn reserve(s: GenState, count: int) -> GenState {
    GenState { next: s.next + count, ..s }
}

/// `s` with `name` bound to `info` in the frame at `depth`.
pub open spec fn declare(s: GenState, depth: int, name: Seq<char>, info: InfoView) -> GenState {
    GenState { frames: s.frames.update(depth, s.frames[depth].insert(name, info)), ..s }
}

/// `s` at scope depth `depth`.
pub open spec fn at_depth(s: GenState, depth: int) -> GenState {
    GenState { depth: depth, ..s }
}

/// The depth of the nearest frame, from `from` down to zero, that binds
/// `name`; -1 when none does.
pub open spec fn binding_depth(
    frames: Seq<Map<Seq<char>, InfoView>>,
    name: Seq<char>,
    from: int,
) -> int
    decreases from + 1,
{
    if from < 0 {
        -1
    } else if frames[from].contains_key(name) {
        from
    } else {
        binding_depth(frames, name, from - 1)
    }
}

/// The variable that `name` resolves to from depth `from`: the binding in the
/// nearest frame that binds the name, provided it is a variable.
pub open spec fn find_variable(
    frames: Seq<Map<Seq<char>, InfoView>>,
    name: Seq<char>,
    from: int,
) -> Option<InfoView> {
    let depth = binding_depth(frames, name, from);
    if depth >= 0 && frames[depth][name] is Variable {
        Some(frames[depth][name])
    } else {
        None
    }
}

/// The function that `name` resolves to: the binding in the global frame,
/// provided it is a function.
pub open spec fn find_function(
    frames: Seq<Map<Seq<char>, InfoView>>,
    name: Seq<char>,
) -> Option<InfoView> {
    if frames[global_depth()].contains_key(name) && frames[global_depth()][name] is Function {
        Some(frames[global_depth()][name])
    } else {
        None
    }
}

/// The lowered type of a source type name, if it has one.
pub open spec fn llvm_type(ty: Seq<char>) -> Option<Seq<char>> {
    if ty == "i32"@ {
        Some("i32"@)
    } else if ty == "str"@ {
        Some("i8*"@)
    } else if ty == "ptr"@ {
        Some("ptr"@)
    } else if ty == "void"@ {
        Some("void"@)
    } else {
        None
    }
}

/// Whether a value of lowered type `ty` is handed to a callee as the
/// reference to its storage rather than loaded first.
pub open spec fn is_reference_type(ty: Seq<char>) -> bool {
    ty == "i8*"@ || ty == "i32*"@ || ty == "ptr"@
}

/// The operator that `op` writes, if any.
pub open spec fn binary_operator(op: Seq<char>) -> Option<BinOp> {
    if op == "+"@ {
        Some(BinOp::Add)
    } else if op == "-"@ {
        Some(BinOp::Sub)
    } else if op == "*"@ {
        Some(BinOp::Mul)
    } else if op == "/"@ {
        Some(BinOp::Div)
    } else if op == "=="@ {
        Some(BinOp::Equal)
    } else {
        None
    }
}

/// The magnitude of `i`.
pub open spec fn magnitude(i: int) -> int {
    if i < 0 {
        -i
    } else {
        i
    }
}

/// The quotient of `a` by `b`, rounded toward zero.
pub open spec fn truncated_quotient(a: int, b: int) -> int {
    if (a < 0) == (b < 0) {
        magnitude(a) / magnitude(b)
    } else {
        -(magnitude(a) / magnitude(b))
    }
}

/// The value of `a op b` on 32-bit integers: `None` for a division by zero
/// and for a result outside the 32-bit range. A comparison gives 1 or 0.
pub open spec fn fold_value(op: BinOp, a: int, b: int) -> Option<int> {
    let value = match op {
        BinOp::Add => a + b,
        BinOp::Sub => a - b,
        BinOp::Mul => a * b,
        BinOp::Div => truncated_quotient(a, b),
        BinOp::Equal => if a == b {
            1
        } else {
            0
        },
    };
    if (op == BinOp::Div && b == 0) || value < i32::MIN || value > i32::MAX {
        None
    } else {
        Some(value)
    }
}

/// The literal that a binary operation on two constant operands folds to.
pub open spec fn fold_constant(op: Seq<char>, left: Seq<char>, right: Seq<char>) -> Result<
    Seq<char>,
    Failure,
> {
    match binary_operator(op) {
        None => Err(failure(CodegenErrorKind::InvalidNode, op)),
        Some(operator) => match (parse_i32(left), parse_i32(right)) {
            (Some(a), Some(b)) => match fold_value(operator, a, b) {
                Some(value) => Ok(signed_decimal(value)),
                None => Err(failure(CodegenErrorKind::ConstantFold, op)),
            },
            _ => Err(failure(CodegenErrorKind::ConstantFold, op)),
        },
    }
}

/// The number of bytes of `text` in UTF-8, as the machine counts them.
pub open spec fn byte_length(text: Seq<char>) -> usize {
    vstd::utf8::encode_utf8(text).len() as usize
}

/// The type of the byte array that holds `text` and its terminating NUL.
pub open spec fn array_type(text: Seq<char>) -> Seq<char> {
    "["@ + decimal((byte_length(text) + 1) as nat) + " x i8]"@
}

/// The NUL-terminated byte array literal of `text`.
pub open spec fn array_literal(text: Seq<char>) -> Seq<char> {
    "c\""@ + text + "\\00\""@
}

/// An integer literal: a slot that holds it, or in the global scope the
/// literal itself.
pub open spec fn lower_number(text: Seq<char>, s: GenState) -> Lowered<Seq<char>> {
    if s.depth == global_depth() {
        (s, Ok(text))
    } else if !can_reserve(s, 1) {
        (s, Err(exhausted()))
    } else {
        (
            emit(
                emit(reserve(s, 1), Inst::Alloca { dst: s.next, ty: "i32"@ }),
                Inst::StoreImm { ty: "i32"@, value: text, to: s.next },
            ),
            Ok(register(s.next)),
        )
    }
}

/// A string literal: a slot that holds its byte array, or in the global scope
/// the typed array literal.
pub open spec fn lower_string(text: Seq<char>, s: GenState) -> Lowered<Seq<char>> {
    if s.depth == global_depth() {
        (s, Ok(array_type(text) + " "@ + array_literal(text)))
    } else if !can_reserve(s, 1) {
        (s, Err(exhausted()))
    } else {
        (
            emit(
                emit(reserve(s, 1), Inst::Alloca { dst: s.next, ty: array_type(text) }),
                Inst::StoreImm { ty: array_type(text), value: array_literal(text), to: s.next },
            ),
            Ok(register(s.next)),
        )
    }
}

/// A reference to a variable: the storage of the nearest declaration.
pub open spec fn lower_identifier(name: Seq<char>, s: GenState) -> Lowered<Seq<char>> {
    match find_variable(s.frames, name, s.depth) {
        Some(info) => (s, Ok(info->Variable_tmp_name)),
        None => (s, Err(failure(CodegenErrorKind::UnresolvedReference, name))),
    }
}

/// A binary operation on two lowered operands. In a function: both operands
/// are loaded, the operation is computed, and its result is stored in a new
/// slot, which is the value. In the global scope: the folded literal.
pub open spec fn lower_infix(
    op: Seq<char>,
    left: Seq<char>,
    right: Seq<char>,
    s: GenState,
) -> Lowered<Seq<char>> {
    if s.depth == global_depth() {
        (s, fold_constant(op, left, right))
    } else {
        match binary_operator(op) {
            None => (s, Err(failure(CodegenErrorKind::InvalidNode, op))),
            Some(operator) => if !can_reserve(s, 4) {
                (s, Err(exhausted()))
            } else {
                let n = s.next;
                let ty = crate::ir::result_type(operator);
                let s1 = emit(reserve(s, 4), Inst::Load { dst: n, ty: "i32"@, from: left });
                let s2 = emit(s1, Inst::Load { dst: n + 1, ty: "i32"@, from: right });
                let s3 = emit(s2, Inst::Binary { dst: n + 2, op: operator, lhs: n, rhs: n + 1 });
                let s4 = emit(s3, Inst::Alloca { dst: n + 3, ty });
                let s5 = emit(s4, Inst::StorePtr { ty, src: n + 2, to: n + 3 });
                (s5, Ok(register(n + 3)))
            },
        }
    }
}

/// One lowered argument as the callee receives it: the reference itself for
/// a reference type, the loaded value otherwise.
pub open spec fn pass_argument(ty: Seq<char>, value: Seq<char>, s: GenState) -> Lowered<Seq<char>> {
    if is_reference_type(ty) {
        (s, Ok(value))
    } else if !can_reserve(s, 1) {
        (s, Err(exhausted()))
    } else {
        (
            emit(reserve(s, 1), Inst::LoadArg { dst: s.next, ty, from: value }),
            Ok(register(s.next)),
        )
    }
}

/// The call itself, once its arguments are lowered. A callee without a value
/// yields the empty text; any other yields the slot that holds its result.
pub open spec fn lower_invocation(
    name: Seq<char>,
    ret: Seq<char>,
    args: Seq<(Seq<char>, Seq<char>)>,
    s: GenState,
) -> Lowered<Seq<char>> {
    if ret == "void"@ {
        if !can_reserve(s, 1) {
            (s, Err(exhausted()))
        } else {
            (emit(reserve(s, 1), Inst::Call { result: None, ret, name, args }), Ok(Seq::empty()))
        }
    } else if !can_reserve(s, 2) {
        (s, Err(exhausted()))
    } else {
        let n = s.next;
        let s1 = emit(reserve(s, 2), Inst::Call { result: Some(n), ret, name, args });
        let s2 = emit(s1, Inst::AllocaResult { dst: n + 1, ty: ret });
        let s3 = emit(s2, Inst::StoreResult { ty: ret, src: n, to: n + 1 });
        (s3, Ok(register(n + 1)))
    }
}

/// Whether lowering an expression looks a name up in the registry: it holds
/// a reference to a variable or a call.
pub open spec fn reads_registry(e: Tree) -> bool
    decreases e,
{
    match e {
        Tree::Identifier(_) => true,
        Tree::FunctionCall { .. } => true,
        Tree::InfixExpression { left_expr, op, right_expr } => reads_registry(*left_expr)
            || reads_registry(*right_expr),
        _ => false,
    }
}

/// An expression: where its value lives, or in the global scope its literal.
pub open spec fn lower_expr(e: Tree, s: GenState) -> Lowered<Seq<char>>
    decreases e, 0nat,
{
    match e {
        Tree::InfixExpression { left_expr, op, right_expr } => {
            let (s1, left) = lower_expr(*left_expr, s);
            match left {
                Err(err) => (s1, Err(err)),
                Ok(l) => {
                    let (s2, right) = lower_expr(*right_expr, s1);
                    match right {
                        Err(err) => (s2, Err(err)),
                        Ok(r) => lower_infix(op, l, r, s2),
                    }
                },
            }
        },
        Tree::Number(text) => lower_number(text, s),
        Tree::String(text) => lower_string(text, s),
        Tree::Identifier(name) => lower_identifier(name, s),
        Tree::FunctionCall { fn_name, argument } => lower_call(fn_name, argument, s),
        _ => (s, Err(failure(CodegenErrorKind::InvalidNode, Seq::empty()))),
    }
}

/// The arguments of a call, lowered left to right, each as (type, operand).
pub open spec fn lower_args(args: Seq<Tree>, types: Seq<Seq<char>>, s: GenState) -> Lowered<
    Seq<(Seq<char>, Seq<char>)>,
>
    decreases args, 0nat,
{
    if args.len() == 0 {
        (s, Ok(Seq::empty()))
    } else {
        let (s1, earlier) = lower_args(args.drop_last(), types, s);
        match earlier {
            Err(err) => (s1, Err(err)),
            Ok(passed) => {
                let (s2, value) = lower_expr(args.last(), s1);
                match value {
                    Err(err) => (s2, Err(err)),
                    Ok(v) => {
                        let ty = types[args.len() - 1];
                        let (s3, operand) = pass_argument(ty, v, s2);
                        match operand {
                            Err(err) => (s3, Err(err)),
                            Ok(o) => (s3, Ok(passed.push((ty, o)))),
                        }
                    },
                }
            },
        }
    }
}

/// A call: the callee is resolved in the global frame, the argument count is
/// held against its parameters, the arguments are lowered and the call is
/// emitted.
pub open spec fn lower_call(name: Seq<char>, args: Seq<Tree>, s: GenState) -> Lowered<Seq<char>>
    decreases args, 1nat,
{
    match find_function(s.frames, name) {
        None => (s, Err(failure(CodegenErrorKind::UnresolvedReference, name))),
        Some(callee) => {
            let types = callee->Function_paras;
            if args.len() != types.len() {
                (s, Err(failure(CodegenErrorKind::MalformedCall, name)))
            } else {
                let (s1, lowered) = lower_args(args, types, s);
                match lowered {
                    Err(err) => (s1, Err(err)),
                    Ok(passed) => lower_invocation(name, callee->Function_ret_ty, passed, s1),
                }
            }
        },
    }
}

/// What the registry records of a variable stored at `storage`.
pub open spec fn variable_info(storage: Seq<char>, ty: Seq<char>, scope: int) -> InfoView {
    InfoView::Variable { tmp_name: storage, ty, scope: scope as usize, size: 32 }
}

/// A variable definition. In a function: a slot, into which the initial value
/// is copied if there is one. In the global scope: a global symbol with the
/// constant initial value, or zero. Either way the name is then declared at
/// the current depth.
pub open spec fn lower_vardef(
    var_type: Seq<char>,
    identifier: Seq<char>,
    var_value: Option<Box<Tree>>,
    s: GenState,
) -> Lowered<()>
    decreases var_value, 1nat,
{
    match llvm_type(var_type) {
        None => (s, Err(failure(CodegenErrorKind::TypeLowering, var_type))),
        Some(ty) => if !can_reserve(s, 1) {
            (s, Err(exhausted()))
        } else if s.depth != global_depth() {
            let id = s.next;
            let s1 = emit(reserve(s, 1), Inst::Alloca { dst: id, ty });
            let (s2, copied) = match var_value {
                None => (s1, Ok(())),
                Some(e) => {
                    let (s3, value) = lower_expr(*e, s1);
                    match value {
                        Err(err) => (s3, Err(err)),
                        Ok(v) => if !can_reserve(s3, 1) {
                            (s3, Err(exhausted()))
                        } else {
                            let s4 = emit(
                                reserve(s3, 1),
                                Inst::Load { dst: s3.next, ty, from: v },
                            );
                            (emit(s4, Inst::Store { ty, src: s3.next, to: id }), Ok(()))
                        },
                    }
                },
            };
            match copied {
                Err(err) => (s2, Err(err)),
                Ok(_) => (
                    declare(s2, s2.depth, identifier, variable_info(register(id), ty, s2.depth)),
                    Ok(()),
                ),
            }
        } else {
            let id = s.next;
            let s1 = reserve(s, 1);
            let (s2, init) = match var_value {
                None => (s1, Ok("0"@)),
                Some(e) => lower_expr(*e, s1),
            };
            match init {
                Err(err) => (s2, Err(err)),
                Ok(value) => (
                    declare(
                        emit(s2, Inst::Global { id, ty, init: value }),
                        s2.depth,
                        identifier,
                        variable_info(global_symbol(id), ty, global_depth()),
                    ),
                    Ok(()),
                ),
            }
        },
    }
}

/// An assignment: the value is lowered, loaded and stored into the storage
/// of the nearest declaration of the target.
pub open spec fn lower_assignment(
    identifier: Seq<char>,
    var_value: Option<Box<Tree>>,
    s: GenState,
) -> Lowered<()>
    decreases var_value, 1nat,
{
    match find_variable(s.frames, identifier, s.depth) {
        None => (s, Err(failure(CodegenErrorKind::UnresolvedReference, identifier))),
        Some(target) => match var_value {
            None => (s, Err(failure(CodegenErrorKind::InvalidNode, identifier))),
            Some(e) => {
                let (s1, value) = lower_expr(*e, s);
                match value {
                    Err(err) => (s1, Err(err)),
                    Ok(v) => if !can_reserve(s1, 1) {
                        (s1, Err(exhausted()))
                    } else {
                        let ty = target->Variable_ty;
                        let s2 = emit(
                            reserve(s1, 1),
                            Inst::LoadPtr { dst: s1.next, ty, from: v },
                        );
                        (
                            emit(
                                s2,
                                Inst::StoreVar { ty, src: s1.next, target: target->Variable_tmp_name },
                            ),
                            Ok(()),
                        )
                    },
                }
            },
        },
    }
}

/// A return, which only the body of a function that produces a value
/// accepts: the value is lowered, loaded as a value of the function's return
/// type, and returned.
pub open spec fn lower_return(e: Tree, s: GenState) -> Lowered<()>
    decreases e, 1nat,
{
    if s.depth == global_depth() || s.result == "void"@ {
        (s, Err(failure(CodegenErrorKind::InvalidNode, Seq::empty())))
    } else {
        let ty = s.result;
        let (s1, value) = lower_expr(e, s);
        match value {
            Err(err) => (s1, Err(err)),
            Ok(v) => if !can_reserve(s1, 1) {
                (s1, Err(exhausted()))
            } else {
                let s2 = emit(reserve(s1, 1), Inst::Load { dst: s1.next, ty, from: v });
                (emit(s2, Inst::Ret { ty, src: s1.next }), Ok(()))
            },
        }
    }
}

/// The label of the merge block of a conditional whose condition left the
/// counter at `base`.
pub open spec fn merge_label(base: int) -> int {
    base + 2
}

/// The label of the block taken when the condition holds.
pub open spec fn then_label(base: int) -> int {
    base + 1
}

/// The label of the block taken when the condition fails and there is an
/// else arm.
pub open spec fn else_label(base: int) -> int {
    base + 3
}

/// The node that a conditional's parts make up.
pub open spec fn conditional(
    condition: Tree,
    if_body: Seq<Tree>,
    elif_body: Option<Seq<Tree>>,
    else_body: Option<Seq<Tree>>,
) -> Tree {
    Tree::IfElse { condition: Box::new(condition), if_body, elif_body, else_body }
}

/// Whether the basic block that `s` is emitting into has got its
/// terminator: the last instruction is a branch or a return, so that only a
/// label, which opens the next block, can follow.
pub open spec fn closed(s: GenState) -> bool {
    s.code.len() > 0 && s.code.last().is_terminator()
}

/// `s` at the end of an arm of a conditional: a block that is still open is
/// ended by a jump to the merge label; a block that the arm has ended
/// itself, by a return, gets no second terminator.
pub open spec fn leave_arm(s: GenState, merge: int) -> GenState {
    if closed(s) {
        s
    } else {
        emit(s, Inst::Jump { label: merge })
    }
}

/// A conditional. An arm between the first and the else arm has no
/// condition of its own in the tree, so a conditional that holds one is
/// refused. Otherwise the condition is lowered and loaded, and control branches
/// to the block of the first arm, or else to the block of the else arm where
/// there is one and to the merge block where there is none. An arm whose
/// block is still open at its end jumps to the merge block, whose label
/// comes last.
pub open spec fn lower_ifelse(
    condition: Tree,
    if_body: Seq<Tree>,
    elif_body: Option<Seq<Tree>>,
    else_body: Option<Seq<Tree>>,
    s: GenState,
) -> Lowered<()>
    decreases conditional(condition, if_body, elif_body, else_body), 0nat,
{
    let (s1, tested) = if elif_body is Some {
        (s, Err(failure(CodegenErrorKind::InvalidNode, Seq::empty())))
    } else {
        lower_expr(condition, s)
    };
    match tested {
        Err(err) => (s1, Err(err)),
        Ok(flag) => {
            let count: int = if else_body is Some {
                4
            } else {
                3
            };
            if !can_reserve(s1, count) {
                (s1, Err(exhausted()))
            } else {
                let base = s1.next;
                let merge = merge_label(base);
                let other = if else_body is Some {
                    else_label(base)
                } else {
                    merge
                };
                let s2 = emit(
                    reserve(s1, count),
                    Inst::LoadPtr { dst: base, ty: "i1"@, from: flag },
                );
                let s3 = emit(
                    s2,
                    Inst::Branch { cond: base, then_label: then_label(base), else_label: other },
                );
                let s4 = emit(s3, Inst::Label { id: then_label(base) });
                match conditional(condition, if_body, elif_body, else_body) {
                    Tree::IfElse { condition: _, if_body: first_arm, elif_body: _, else_body: else_arm } => {
                        let (s5, first) = lower_block(first_arm, s4);
                        match first {
                            Err(err) => (s5, Err(err)),
                            Ok(_) => {
                                let s6 = leave_arm(s5, merge);
                                match else_arm {
                                    None => (emit(s6, Inst::Label { id: merge }), Ok(())),
                                    Some(body) => {
                                        let s7 = emit(s6, Inst::Label { id: else_label(base) });
                                        let (s8, second) = lower_block(body, s7);
                                        match second {
                                            Err(err) => (s8, Err(err)),
                                            Ok(_) => (
                                                emit(leave_arm(s8, merge), Inst::Label { id: merge }),
                                                Ok(()),
                                            ),
                                        }
                                    },
                                }
                            },
                        }
                    },
                    _ => (s4, Ok(())),
                }
            }
        },
    }
}

/// Whether every parameter type has a lowered type.
pub open spec fn parameters_lowerable(params: Seq<(Seq<char>, Seq<char>)>) -> bool {
    forall|i: int| 0 <= i < params.len() ==> llvm_type((#[trigger] params[i]).0) is Some
}

/// The parameters with each type lowered.
pub open spec fn lowered_parameters(params: Seq<(Seq<char>, Seq<char>)>) -> Seq<
    (Seq<char>, Seq<char>),
> {
    Seq::new(params.len(), |i: int| (llvm_type(params[i].0)->0, params[i].1))
}

/// The types of a list of (type, name) pairs.
pub open spec fn types_of(params: Seq<(Seq<char>, Seq<char>)>) -> Seq<Seq<char>> {
    Seq::new(params.len(), |i: int| params[i].0)
}

/// `s` after the first `count` parameters got their slots: parameter `i`
/// lives in slot `first + i`, the incoming value is stored there, and the
/// name is declared in the frame of the body.
pub open spec fn bind_parameters(
    params: Seq<(Seq<char>, Seq<char>)>,
    first: int,
    count: int,
    s: GenState,
) -> GenState
    decreases count,
{
    if count <= 0 {
        s
    } else {
        let before = bind_parameters(params, first, count - 1, s);
        let (ty, name) = params[count - 1];
        let id = first + count - 1;
        declare(
            emit(
                emit(before, Inst::Alloca { dst: id, ty }),
                Inst::StoreParam { ty, name, to: id },
            ),
            body_depth(),
            name,
            variable_info(register(id), ty, body_depth()),
        )
    }
}

/// The lowered return type: `void` where none is declared.
pub open spec fn return_type(ret_type: Option<Seq<char>>) -> Option<Seq<char>> {
    match ret_type {
        None => Some("void"@),
        Some(ty) => llvm_type(ty),
    }
}

/// The first of the parameter types that has no lowered type; the empty
/// text where each has one.
pub open spec fn first_unlowerable(params: Seq<(Seq<char>, Seq<char>)>) -> Seq<char>
    decreases params.len(),
{
    if params.len() == 0 {
        Seq::empty()
    } else if llvm_type(params[0].0) is None {
        params[0].0
    } else {
        first_unlowerable(params.drop_first())
    }
}

/// The type of a signature that has no lowered type: the return type if it
/// has none, else the first such parameter type.
pub open spec fn unlowerable_type(
    params: Seq<(Seq<char>, Seq<char>)>,
    ret_type: Option<Seq<char>>,
) -> Seq<char> {
    if return_type(ret_type) is None {
        ret_type->0
    } else {
        first_unlowerable(params)
    }
}

/// What the registry records of a function with lowered return type `ret`
/// and lowered parameters `params`.
pub open spec fn signature_info(
    fn_name: Seq<char>,
    ret: Seq<char>,
    params: Seq<(Seq<char>, Seq<char>)>,
) -> InfoView {
    InfoView::Function { tmp_name: fn_name, ret_ty: ret, paras: types_of(params), scope: 1 }
}

/// `s` on entering the body of a function that returns `ret`: one depth
/// further in, with a frame of its own in which nothing is declared yet.
pub open spec fn enter_body(s: GenState, ret: Seq<char>) -> GenState {
    GenState {
        depth: body_depth(),
        result: ret,
        frames: s.frames.update(body_depth(), Map::empty()),
        ..s
    }
}

/// `s` on leaving the body of a function that was entered from `outside`:
/// back at the global depth, with the frame of the body as it was found, so
/// that nothing that the function declared for itself outlives it.
pub open spec fn leave_body(s: GenState, outside: GenState) -> GenState {
    GenState {
        depth: global_depth(),
        result: outside.result,
        frames: s.frames.update(body_depth(), outside.frames[body_depth()]),
        ..s
    }
}

/// A function definition, which only the global scope accepts: the head, the
/// signature declared in the global frame so that the body can call the
/// function, then in a frame of their own a slot for each parameter and the
/// body, a `ret void` when the function produces no value, and the end. One
/// id is drawn between the slots and the body. What the function declared
/// for itself is gone when it ends.
pub open spec fn lower_fundef(
    fn_name: Seq<char>,
    parameters: Seq<(Seq<char>, Seq<char>)>,
    ret_type: Option<Seq<char>>,
    body: Seq<Tree>,
    s: GenState,
) -> Lowered<()>
    decreases body, 1nat,
{
    if s.depth != global_depth() {
        (s, Err(failure(CodegenErrorKind::InvalidNode, fn_name)))
    } else if return_type(ret_type) is None || !parameters_lowerable(parameters) {
        (s, Err(failure(CodegenErrorKind::TypeLowering, unlowerable_type(parameters, ret_type))))
    } else if !can_reserve(s, parameters.len() as int + 1) {
        (s, Err(exhausted()))
    } else {
        let ret = return_type(ret_type)->0;
        let params = lowered_parameters(parameters);
        let s1 = emit(
            reserve(s, parameters.len() as int + 1),
            Inst::Define { ret, name: fn_name, params },
        );
        let s2 = declare(s1, global_depth(), fn_name, signature_info(fn_name, ret, params));
        let s3 = bind_parameters(params, s.next, params.len() as int, enter_body(s2, ret));
        let (s4, lowered) = lower_block(body, s3);
        match lowered {
            Err(err) => (s4, Err(err)),
            Ok(_) => {
                let s5 = if ret == "void"@ && !closed(s4) {
                    emit(s4, Inst::RetVoid)
                } else {
                    s4
                };
                (leave_body(emit(s5, Inst::EndDefine), s), Ok(()))
            },
        }
    }
}

/// How many frames the registry needs, counted from the outermost, for the
/// statement `t` to be lowered at depth `depth`: the frames up to the
/// current depth where the statement declares a name or looks one up, the
/// frame of a body as well where it defines a function, and none where it
/// does neither.
pub open spec fn frames_read(t: Tree, depth: int) -> int
    decreases t, 1nat,
{
    match t {
        Tree::VariableDefinition { .. } => depth + 1,
        Tree::Assignment { .. } => depth + 1,
        Tree::FunctionCall { .. } => depth + 1,
        Tree::FunctionDefinition { .. } => body_depth() + 1,
        Tree::Return(e) => if reads_registry(*e) {
            depth + 1
        } else {
            0
        },
        Tree::IfElse { condition, if_body, elif_body, else_body } => {
            let for_condition = if reads_registry(*condition) {
                depth + 1
            } else {
                0
            };
            let for_first = block_frames_read(if_body, depth);
            let for_else = match else_body {
                Some(body) => block_frames_read(body, depth),
                None => 0,
            };
            vstd::math::max(for_condition, vstd::math::max(for_first, for_else))
        },
        _ => 0,
    }
}

/// How many frames the registry needs for the statements `stmts` to be
/// lowered at depth `depth`: as many as the statement that needs most.
pub open spec fn block_frames_read(stmts: Seq<Tree>, depth: int) -> int
    decreases stmts, 0nat,
{
    if stmts.len() == 0 {
        0
    } else {
        vstd::math::max(
            block_frames_read(stmts.drop_last(), depth),
            frames_read(stmts.last(), depth),
        )
    }
}

/// How many frames the registry needs for the program `t` to be lowered
/// at depth `depth`: as many as its statements need.
pub open spec fn program_frames_read(t: Tree, depth: int) -> int {
    match t {
        Tree::Program(stmts) => block_frames_read(stmts, depth),
        _ => 0,
    }
}

/// Whether a node is a statement, which emits instructions where it is
/// lowered.
pub open spec fn is_statement(t: Tree) -> bool {
    t is VariableDefinition || t is Assignment || t is FunctionDefinition || t is Return
        || t is IfElse || t is FunctionCall
}

/// A statement. A node of any other kind emits nothing. A statement that
/// follows a terminator in its block can never be reached and would come
/// after the end of the block, so it is refused.
pub open spec fn lower_statement(t: Tree, s: GenState) -> Lowered<()>
    decreases t, 2nat,
{
    if closed(s) && is_statement(t) {
        (s, Err(failure(CodegenErrorKind::InvalidNode, Seq::empty())))
    } else {
        lower_open_statement(t, s)
    }
}

/// A statement in a block that is still open.
pub open spec fn lower_open_statement(t: Tree, s: GenState) -> Lowered<()>
    decreases t, 1nat,
{
    match t {
        Tree::VariableDefinition { var_type, identifier, var_value } => lower_vardef(
            var_type,
            identifier,
            var_value,
            s,
        ),
        Tree::Assignment { identifier, var_value } => lower_assignment(identifier, var_value, s),
        Tree::FunctionDefinition { fn_name, parameters, ret_type, body } => lower_fundef(
            fn_name,
            parameters,
            ret_type,
            body,
            s,
        ),
        Tree::Return(e) => lower_return(*e, s),
        Tree::IfElse { condition, if_body, elif_body, else_body } => lower_ifelse(
            *condition,
            if_body,
            elif_body,
            else_body,
            s,
        ),
        Tree::FunctionCall { fn_name, argument } => {
            let (s1, called) = lower_call(fn_name, argument, s);
            match called {
                Err(err) => (s1, Err(err)),
                Ok(_) => (s1, Ok(())),
            }
        },
        _ => (s, Ok(())),
    }
}

/// A list of statements, in order, up to the first that cannot be lowered.
pub open spec fn lower_block(stmts: Seq<Tree>, s: GenState) -> Lowered<()>
    decreases stmts, 0nat,
{
    if stmts.len() == 0 {
        (s, Ok(()))
    } else {
        let (s1, earlier) = lower_block(stmts.drop_last(), s);
        match earlier {
            Err(err) => (s1, Err(err)),
            Ok(_) => lower_statement(stmts.last(), s1),
        }
    }
}

/// The lines that declare the runtime library: the functions `echo`,
/// `string` and `len`, the primitive `write` that they rest on, and the
/// buffer in which a number is written out.
pub open spec fn runtime_declarations() -> Seq<Seq<char>> {
    seq![
        "declare i32 @echo(i8*, i32) nounwind\n"@,
        "declare i8* @string(i32*) nounwind\n"@,
        "declare i32 @len(i8*) nounwind\n"@,
        "declare i32 @write(i32, i8*, i32) nounwind\n"@,
        "@int_to_string.result =  external global [12 x i8] \n"@,
    ]
}

/// What the registry records of the runtime's `echo`.
pub open spec fn echo_info() -> InfoView {
    InfoView::Function {
        tmp_name: "echo"@,
        ret_ty: "i32"@,
        paras: seq!["i8*"@, "i32"@],
        scope: 1,
    }
}

/// What the registry records of the runtime's `string`.
pub open spec fn string_info() -> InfoView {
    InfoView::Function { tmp_name: "string"@, ret_ty: "i8*"@, paras: seq!["i32*"@], scope: 1 }
}

/// `s` after the module prologue: the target line, the declarations of the
/// runtime library, and the runtime's callable functions in the global frame.
pub open spec fn prologue(triple: Seq<char>, s: GenState) -> GenState {
    let lines = runtime_declarations();
    let s1 = emit(s, Inst::Target { triple });
    let s2 = emit(s1, Inst::Extern { line: lines[0] });
    let s3 = emit(s2, Inst::Extern { line: lines[1] });
    let s4 = emit(s3, Inst::Extern { line: lines[2] });
    let s5 = emit(s4, Inst::Extern { line: lines[3] });
    let s6 = emit(s5, Inst::Extern { line: lines[4] });
    declare(
        declare(s6, global_depth(), "echo"@, echo_info()),
        global_depth(),
        "string"@,
        string_info(),
    )
}

/// `s` with the signature of a function definition declared in the global
/// frame, where its types can be lowered; `s` itself for any other node.
pub open spec fn declare_signature(t: Tree, s: GenState) -> GenState {
    match t {
        Tree::FunctionDefinition { fn_name, parameters, ret_type, body } => if return_type(
            ret_type,
        ) is Some && parameters_lowerable(parameters) {
            declare(
                s,
                global_depth(),
                fn_name,
                signature_info(fn_name, return_type(ret_type)->0, lowered_parameters(parameters)),
            )
        } else {
            s
        },
        _ => s,
    }
}

/// `s` with the signatures of all the functions that the statements define
/// declared in the global frame, in order, so that a function can be called
/// before the place of its definition.
pub open spec fn declare_signatures(stmts: Seq<Tree>, s: GenState) -> GenState
    decreases stmts.len(),
{
    if stmts.len() == 0 {
        s
    } else {
        declare_signature(stmts.last(), declare_signatures(stmts.drop_last(), s))
    }
}

/// A whole module: the prologue, the signatures of the program's functions,
/// then the top-level declarations of the program in order. A root that is
/// no program gives the prologue alone.
pub open spec fn lower_program(t: Tree, triple: Seq<char>, s: GenState) -> Lowered<()> {
    match t {
        Tree::Program(stmts) => lower_block(stmts, declare_signatures(stmts, prologue(triple, s))),
        _ => (prologue(triple, s), Ok(())),
    }
}

/// A whole module lowered by a generator in state `s`: the registry gets the
/// frames of the module, and the program is lowered.
pub open spec fn lower_module(t: Tree, triple: Seq<char>, s: GenState) -> Lowered<()> {
    lower_program(t, triple, open_registry(s))
}

} // verus!
