//! The code generator: lowers a syntax tree into the text of an IR module,
//! keeping the registry of declared names and the counter of synthetic ids.

use crate::codegen_lib::generate_lib;
use crate::ir::{render, render_op, BinOp, Inst, Op};
use crate::lower::{
    binary_operator, can_reserve, declare, defines_within, drawn, find_function, find_variable,
    fold_constant, fold_value, fresh_state, ids_below, llvm_type, slots_below, CodegenError,
    CodegenErrorKind, Failure,
    GenState, InfoView,
};
use crate::parser::ASTNode;
use crate::table::StrMap;
use crate::text::{decimal_string, signed_string, turn_string_to_int};
use crate::SrcInfo;
use vstd::prelude::*;

verus! {

/// What the registry records of a declared name.
#[derive(Debug, Clone)]
pub enum Info {
    Variable {
        /// Where the value lives: a register or a static symbol.
        tmp_name: String,
        /// The lowered type.
        ty: String,
        scope: usize,
        size: i64,
    },
    Function {
        tmp_name: String,
        /// The lowered return type.
        ret_ty: String,
        /// The lowered parameter types, in order.
        paras: Vec<String>,
        scope: usize,
    },
}

/// A list of strings as plain text.
pub open spec fn strings_view(strings: Seq<String>) -> Seq<Seq<char>> {
    Seq::new(strings.len(), |i: int| strings[i]@)
}

impl View for Info {
    type V = InfoView;

    open spec fn view(&self) -> InfoView {
        match *self {
            Info::Variable { tmp_name, ty, scope, size } => InfoView::Variable {
                tmp_name: tmp_name@,
                ty: ty@,
                scope,
                size,
            },
            Info::Function { tmp_name, ret_ty, paras, scope } => InfoView::Function {
                tmp_name: tmp_name@,
                ret_ty: ret_ty@,
                paras: strings_view(paras@),
                scope,
            },
        }
    }
}

/// The registry as plain values: for each depth, what each name is bound to.
pub open spec fn frames_view(table: Seq<StrMap<Info>>) -> Seq<Map<Seq<char>, InfoView>> {
    Seq::new(table.len(), |i: int| table[i]@)
}

/// An expression's value, or the reason for its absence, as plain text.
pub open spec fn value_view(r: Result<String, CodegenError>) -> Result<Seq<char>, Failure> {
    match r {
        Ok(text) => Ok(text@),
        Err(err) => Err(err@),
    }
}

/// Whether a statement was lowered, or the reason why not, as plain values.
pub open spec fn outcome(r: Result<(), CodegenError>) -> Result<(), Failure> {
    match r {
        Ok(_) => Ok(()),
        Err(err) => Err(err@),
    }
}

/// The generator.
pub struct Codegen {
    output: String,
    tmp: i64,
    scope: usize,
    result: String,
    closed: bool,
    /// The registry: for each scope depth, the names declared there.
    pub sym_table: Vec<StrMap<Info>>,
    trace: Ghost<Seq<Inst>>,
}

impl View for Codegen {
    type V = GenState;

    closed spec fn view(&self) -> GenState {
        GenState {
            next: self.tmp as int,
            depth: self.scope as int,
            result: self.result@,
            frames: frames_view(self.sym_table@),
            code: self.trace@,
        }
    }
}

/// The lowered type of source type `ty`, where it has one.
pub fn turn_to_llvm_type(ty: &str) -> (r: Result<String, CodegenError>)
    ensures
        match r {
            Ok(lowered) => llvm_type(ty@) == Some(lowered@),
            Err(err) => llvm_type(ty@) is None && err@ == crate::lower::failure(
                CodegenErrorKind::TypeLowering,
                ty@,
            ),
        },
{
    if *ty == *"i32" {
        Ok(String::from_str("i32"))
    } else if *ty == *"str" {
        Ok(String::from_str("i8*"))
    } else if *ty == *"ptr" {
        Ok(String::from_str("ptr"))
    } else if *ty == *"void" {
        Ok(String::from_str("void"))
    } else {
        Err(CodegenError::new(CodegenErrorKind::TypeLowering, ty))
    }
}

/// The operator that `op` writes, if any.
fn operator_of(op: &str) -> (r: Option<BinOp>)
    ensures
        r == binary_operator(op@),
{
    if *op == *"+" {
        Some(BinOp::Add)
    } else if *op == *"-" {
        Some(BinOp::Sub)
    } else if *op == *"*" {
        Some(BinOp::Mul)
    } else if *op == *"/" {
        Some(BinOp::Div)
    } else if *op == *"==" {
        Some(BinOp::Equal)
    } else {
        None
    }
}

/// The value of `a op b`, where it exists and fits.
fn fold(op: BinOp, a: i32, b: i32) -> (r: Option<i32>)
    ensures
        match r {
            Some(v) => fold_value(op, a as int, b as int) == Some(v as int),
            None => fold_value(op, a as int, b as int) is None,
        },
{
    let x: i64 = a as i64;
    let y: i64 = b as i64;
    let value: i64 = match op {
        BinOp::Add => x + y,
        BinOp::Sub => x - y,
        BinOp::Mul => {
            assert(-0x4000_0000_0000_0000 <= x * y <= 0x4000_0000_0000_0000) by (nonlinear_arith)
                requires
                    -0x8000_0000 <= x <= 0x7fff_ffff,
                    -0x8000_0000 <= y <= 0x7fff_ffff,
            ;
            x * y
        },
        BinOp::Div => {
            if y == 0 {
                return None;
            }
            let p: u64 = if x < 0 {
                (-x) as u64
            } else {
                x as u64
            };
            let q: u64 = if y < 0 {
                (-y) as u64
            } else {
                y as u64
            };
            let quotient: u64 = p / q;
            if (x < 0) == (y < 0) {
                quotient as i64
            } else {
                -(quotient as i64)
            }
        },
        BinOp::Equal => if x == y {
            1
        } else {
            0
        },
    };
    if value < -0x8000_0000 || value > 0x7fff_ffff {
        None
    } else {
        Some(value as i32)
    }
}

/// The literal that `left op right` folds to.
fn fold_text(op: &str, left: &str, right: &str) -> (r: Result<String, CodegenError>)
    ensures
        value_view(r) == fold_constant(op@, left@, right@),
{
    match operator_of(op) {
        None => Err(CodegenError::new(CodegenErrorKind::InvalidNode, op)),
        Some(operator) => match turn_string_to_int(left) {
            None => Err(CodegenError::new(CodegenErrorKind::ConstantFold, op)),
            Some(a) => match turn_string_to_int(right) {
                None => Err(CodegenError::new(CodegenErrorKind::ConstantFold, op)),
                Some(b) => match fold(operator, a, b) {
                    None => Err(CodegenError::new(CodegenErrorKind::ConstantFold, op)),
                    Some(value) => Ok(signed_string(value as i64)),
                },
            },
        },
    }
}

/// A copy of a list of strings.
fn clone_strings(strings: &Vec<String>) -> (copy: Vec<String>)
    ensures
        strings_view(copy@) == strings_view(strings@),
{
    let mut copy: Vec<String> = Vec::new();
    let mut i: usize = 0;
    while i < strings.len()
        invariant
            i <= strings.len(),
            copy@.len() == i,
            forall|j: int| 0 <= j < i ==> (#[trigger] copy@[j])@ == strings@[j]@,
        decreases strings.len() - i,
    {
        copy.push(strings[i].clone());
        i = i + 1;
    }
    assert(strings_view(copy@) =~= strings_view(strings@));
    copy
}

impl Codegen {
    /// The text emitted so far.
    pub closed spec fn text(&self) -> Seq<char> {
        self.output@
    }

    /// Whether the generator has noted that the block it emits into has got
    /// its terminator.
    pub closed spec fn block_closed(&self) -> bool {
        self.closed
    }

    /// Whether the generator is in order: its text is the text of what it
    /// emitted, its counter has not gone below zero, it stands in the global
    /// scope or in a function, it knows whether its block is closed, and
    /// every id that its code defines and every slot that its registry names
    /// was drawn from the counter.
    pub open spec fn sane(&self) -> bool {
        &&& self.text() == render(self@.code)
        &&& self@.next >= 0
        &&& (self@.depth == 1 || self@.depth == 2)
        &&& self.block_closed() == crate::lower::closed(self@)
        &&& ids_below(self@)
        &&& slots_below(self@)
    }

    /// Whether the generator is in order and its registry has a frame for
    /// every depth from the current one outward, as a lookup needs.
    pub open spec fn reaches(&self) -> bool {
        &&& self.sane()
        &&& self@.frames.len() > self@.depth
    }

    /// Whether the generator is in order and its registry has a frame for
    /// each depth that lowering can reach, as it has once the lowering of a
    /// module has begun.
    pub open spec fn wf(&self) -> bool {
        &&& self.sane()
        &&& self@.frames.len() >= 3
    }

    /// A generator that has emitted nothing, with a registry without frames.
    pub fn new() -> (generator: Self)
        ensures
            generator.sane(),
            generator@ == fresh_state(),
    {
        let generator = Codegen {
            output: String::new(),
            tmp: 0,
            scope: 1,
            result: String::new(),
            closed: false,
            sym_table: Vec::new(),
            trace: Ghost(Seq::empty()),
        };
        assert(generator@.frames =~= fresh_state().frames);
        generator
    }

    /// Emits `op`.
    fn emit(&mut self, op: Op)
        requires
            old(self).sane(),
            defines_within(op@, 0, old(self)@.next),
        ensures
            final(self).sane(),
            final(self)@ == crate::lower::emit(old(self)@, op@),
    {
        let line = render_op(&op);
        self.output.append(line.as_str());
        self.closed = ends_block(&op);
        proof {
            crate::ir::lemma_render_push(self.trace@, op@);
        }
        self.trace = Ghost(self.trace@.push(op@));
        proof {
            assert forall|i: int| 0 <= i < self@.code.len() implies defines_within(
                #[trigger] self@.code[i],
                0,
                self@.next,
            ) by {
                if i < old(self)@.code.len() {
                    assert(self@.code[i] == old(self)@.code[i]);
                }
            }
            assert(self@.frames == old(self)@.frames);
        }
    }

    /// Draws `count` consecutive synthetic ids and returns the first.
    fn reserve(&mut self, count: i64) -> (r: Result<i64, CodegenError>)
        requires
            old(self).sane(),
            0 <= count,
        ensures
            final(self).sane(),
            match r {
                Ok(first) => can_reserve(old(self)@, count as int) && first == old(self)@.next
                    && final(self)@ == crate::lower::reserve(old(self)@, count as int),
                Err(err) => !can_reserve(old(self)@, count as int) && err@
                    == crate::lower::exhausted() && final(self)@ == old(self)@,
            },
    {
        if self.tmp > i64::MAX - count {
            Err(CodegenError::unnamed(CodegenErrorKind::IdExhausted))
        } else {
            let first = self.tmp;
            self.tmp = self.tmp + count;
            proof {
                lemma_counter_moves(old(self)@, self@);
            }
            Ok(first)
        }
    }

    /// Draws one synthetic id.
    fn new_tmp(&mut self) -> (r: Result<i64, CodegenError>)
        requires
            old(self).sane(),
        ensures
            final(self).sane(),
            match r {
                Ok(id) => can_reserve(old(self)@, 1) && id == old(self)@.next && final(self)@
                    == crate::lower::reserve(old(self)@, 1),
                Err(err) => !can_reserve(old(self)@, 1) && err@ == crate::lower::exhausted()
                    && final(self)@ == old(self)@,
            },
    {
        self.reserve(1)
    }

    /// Binds `name` to `info` in the frame at depth `scope`.
    fn add_to_symbol(&mut self, scope: usize, name: String, info: Info)
        requires
            old(self).sane(),
            scope < old(self)@.frames.len(),
            drawn(info@, old(self)@.next),
        ensures
            final(self).sane(),
            final(self)@ == declare(old(self)@, scope as int, name@, info@),
    {
        self.sym_table[scope].insert(name, info);
        assert(self@.frames =~= old(self)@.frames.update(
            scope as int,
            old(self)@.frames[scope as int].insert(name@, info@),
        ));
    }

    /// The function that `name` resolves to, as (name, return type, parameter
    /// types, scope).
    pub fn get_funinfo(&self, name: &str) -> (r: Option<(String, String, Vec<String>, usize)>)
        requires
            self.reaches(),
        ensures
            match r {
                Some(found) => find_function(self@.frames, name@) == Some(
                    InfoView::Function {
                        tmp_name: found.0@,
                        ret_ty: found.1@,
                        paras: strings_view(found.2@),
                        scope: found.3,
                    },
                ),
                None => find_function(self@.frames, name@) is None,
            },
    {
        match self.sym_table[1].get(name) {
            Some(Info::Function { tmp_name, ret_ty, paras, scope }) => Some(
                (tmp_name.clone(), ret_ty.clone(), clone_strings(paras), *scope),
            ),
            _ => None,
        }
    }

    /// The variable that `name` resolves to from the current depth, as
    /// (storage, type, scope, size).
    pub fn get_varinfo(&self, name: &str) -> (r: Option<(String, String, usize, i64)>)
        requires
            self.reaches(),
        ensures
            match r {
                Some(found) => find_variable(self@.frames, name@, self@.depth) == Some(
                    InfoView::Variable {
                        tmp_name: found.0@,
                        ty: found.1@,
                        scope: found.2,
                        size: found.3,
                    },
                ),
                None => find_variable(self@.frames, name@, self@.depth) is None,
            },
    {
        let mut s: usize = self.scope;
        loop
            invariant
                self.reaches(),
                s <= self.scope,
                crate::lower::binding_depth(self@.frames, name@, self@.depth)
                    == crate::lower::binding_depth(self@.frames, name@, s as int),
            decreases s,
        {
            match self.sym_table[s].get(name) {
                Some(info) => {
                    return match info {
                        Info::Variable { tmp_name, ty, scope, size } => Some(
                            (tmp_name.clone(), ty.clone(), *scope, *size),
                        ),
                        _ => None,
                    };
                },
                None => {
                    if s == 0 {
                        assert(crate::lower::binding_depth(self@.frames, name@, -1) == -1);
                        return None;
                    }
                    s = s - 1;
                },
            }
        }
    }

    /// Lowers an integer literal.
    fn number(&mut self, text: &str) -> (r: Result<String, CodegenError>)
        requires
            old(self).sane(),
        ensures
            final(self).sane(),
            crate::lower::lower_number(text@, old(self)@) == (final(self)@, value_view(r)),
    {
        if self.scope == 1 {
            Ok(String::from_str(text))
        } else {
            match self.new_tmp() {
                Err(err) => Err(err),
                Ok(id) => {
                    self.emit(Op::Alloca { dst: id, ty: "i32" });
                    self.emit(Op::StoreImm { ty: "i32", value: text, to: id });
                    Ok(register_name(id))
                },
            }
        }
    }

    /// Lowers a string literal.
    fn string_literal(&mut self, text: &str) -> (r: Result<String, CodegenError>)
        requires
            old(self).sane(),
        ensures
            final(self).sane(),
            crate::lower::lower_string(text@, old(self)@) == (final(self)@, value_view(r)),
    {
        let length: usize = text.len();
        let mut array = String::from_str("[");
        array.append(decimal_string(length as u128 + 1).as_str());
        array.append(" x i8]");
        let mut literal = String::from_str("c\"");
        literal.append(text);
        literal.append("\\00\"");
        if self.scope == 1 {
            array.append(" ");
            array.append(literal.as_str());
            Ok(array)
        } else {
            match self.new_tmp() {
                Err(err) => Err(err),
                Ok(id) => {
                    self.emit(Op::Alloca { dst: id, ty: array.as_str() });
                    self.emit(
                        Op::StoreImm { ty: array.as_str(), value: literal.as_str(), to: id },
                    );
                    Ok(register_name(id))
                },
            }
        }
    }

    /// Lowers a reference to a variable.
    fn identifier(&self, name: &str) -> (r: Result<String, CodegenError>)
        requires
            self.reaches(),
        ensures
            crate::lower::lower_identifier(name@, self@) == (self@, value_view(r)),
    {
        match self.get_varinfo(name) {
            Some(found) => Ok(found.0),
            None => Err(CodegenError::new(CodegenErrorKind::UnresolvedReference, name)),
        }
    }

    /// Lowers a binary operation on two lowered operands.
    fn infix(&mut self, op: &str, left: &str, right: &str) -> (r: Result<String, CodegenError>)
        requires
            old(self).sane(),
        ensures
            final(self).sane(),
            crate::lower::lower_infix(op@, left@, right@, old(self)@) == (
                final(self)@,
                value_view(r),
            ),
    {
        if self.scope == 1 {
            fold_text(op, left, right)
        } else {
            match operator_of(op) {
                None => Err(CodegenError::new(CodegenErrorKind::InvalidNode, op)),
                Some(operator) => match self.reserve(4) {
                    Err(err) => Err(err),
                    Ok(n) => {
                        let ty = match operator {
                            BinOp::Equal => "i1",
                            _ => "i32",
                        };
                        self.emit(Op::Load { dst: n, ty: "i32", from: left });
                        self.emit(Op::Load { dst: n + 1, ty: "i32", from: right });
                        self.emit(Op::Binary { dst: n + 2, op: operator, lhs: n, rhs: n + 1 });
                        self.emit(Op::Alloca { dst: n + 3, ty });
                        self.emit(Op::StorePtr { ty, src: n + 2, to: n + 3 });
                        Ok(register_name(n + 3))
                    },
                },
            }
        }
    }

    /// Turns a lowered argument into the operand that the callee receives.
    fn pass_argument(&mut self, ty: &str, value: String) -> (r: Result<String, CodegenError>)
        requires
            old(self).sane(),
        ensures
            final(self).sane(),
            crate::lower::pass_argument(ty@, value@, old(self)@) == (final(self)@, value_view(r)),
    {
        if *ty == *"i8*" || *ty == *"i32*" || *ty == *"ptr" {
            Ok(value)
        } else {
            match self.new_tmp() {
                Err(err) => Err(err),
                Ok(id) => {
                    self.emit(Op::LoadArg { dst: id, ty, from: value.as_str() });
                    Ok(register_name(id))
                },
            }
        }
    }

    /// Emits a call whose arguments are lowered.
    fn invocation(&mut self, name: &str, ret: &str, args: &Vec<(String, String)>) -> (r: Result<
        String,
        CodegenError,
    >)
        requires
            old(self).sane(),
        ensures
            final(self).sane(),
            crate::lower::lower_invocation(
                name@,
                ret@,
                crate::sema::pairs_view(args@),
                old(self)@,
            ) == (final(self)@, value_view(r)),
    {
        if *ret == *"void" {
            match self.new_tmp() {
                Err(err) => Err(err),
                Ok(_) => {
                    self.emit(Op::Call { result: None, ret, name, args });
                    Ok(String::new())
                },
            }
        } else {
            match self.reserve(2) {
                Err(err) => Err(err),
                Ok(n) => {
                    self.emit(Op::Call { result: Some(n), ret, name, args });
                    self.emit(Op::AllocaResult { dst: n + 1, ty: ret });
                    self.emit(Op::StoreResult { ty: ret, src: n, to: n + 1 });
                    Ok(register_name(n + 1))
                },
            }
        }
    }

    /// Lowers an expression. The value is where the result lives or, in the
    /// global scope, the constant itself.
    pub fn generate_code_expression(&mut self, ast: &ASTNode) -> (r: Result<String, CodegenError>)
        requires
            old(self).sane(),
            crate::lower::reads_registry(ast@) ==> old(self).reaches(),
        ensures
            final(self).sane(),
            final(self)@.depth == old(self)@.depth,
            final(self)@.frames.len() == old(self)@.frames.len(),
            final(self)@.next >= old(self)@.next,
            crate::lower::lower_expr(ast@, old(self)@) == (final(self)@, value_view(r)),
        decreases ast, 0nat,
    {
        match ast {
            ASTNode::InfixExpression { left_expr, op, right_expr } => {
                let left = match self.generate_code_expression(left_expr) {
                    Ok(value) => value,
                    Err(err) => {
                        return Err(err);
                    },
                };
                let right = match self.generate_code_expression(right_expr) {
                    Ok(value) => value,
                    Err(err) => {
                        return Err(err);
                    },
                };
                self.infix(op.as_str(), left.as_str(), right.as_str())
            },
            ASTNode::Number(text) => self.number(text.as_str()),
            ASTNode::String(text) => self.string_literal(text.as_str()),
            ASTNode::Identifier(name) => self.identifier(name.as_str()),
            ASTNode::FunctionCall { fn_name, argument } => self.generate_code_funcall(
                fn_name.as_str(),
                argument,
            ),
            _ => Err(CodegenError::unnamed(CodegenErrorKind::InvalidNode)),
        }
    }

    /// Lowers a call.
    pub fn generate_code_funcall(&mut self, fn_name: &str, argument: &Vec<ASTNode>) -> (r: Result<
        String,
        CodegenError,
    >)
        requires
            old(self).reaches(),
        ensures
            final(self).sane(),
            final(self)@.frames.len() == old(self)@.frames.len(),
            final(self)@.depth == old(self)@.depth,
            final(self)@.next >= old(self)@.next,
            crate::lower::lower_call(fn_name@, crate::parser::trees(argument@), old(self)@) == (
                final(self)@,
                value_view(r),
            ),
        decreases argument, 1nat,
    {
        let callee = match self.get_funinfo(fn_name) {
            Some(found) => found,
            None => {
                return Err(CodegenError::new(CodegenErrorKind::UnresolvedReference, fn_name));
            },
        };
        let types = &callee.2;
        proof {
            crate::parser::lemma_trees(argument@);
        }
        if argument.len() != types.len() {
            return Err(CodegenError::new(CodegenErrorKind::MalformedCall, fn_name));
        }
        let ghost start = self@;
        let ghost args = crate::parser::trees(argument@);
        let ghost tys = strings_view(types@);
        let mut passed: Vec<(String, String)> = Vec::new();
        let mut i: usize = 0;
        assert(args.take(0) =~= Seq::<crate::parser::Tree>::empty());
        assert(crate::sema::pairs_view(passed@) =~= Seq::<(Seq<char>, Seq<char>)>::empty());
        while i < argument.len()
            invariant
                self.reaches(),
                self@.depth == old(self)@.depth,
                self@.frames.len() == old(self)@.frames.len(),
                i <= argument.len(),
                argument.len() == types.len(),
                args == crate::parser::trees(argument@),
                args.len() == argument.len(),
                tys == strings_view(types@),
                crate::lower::lower_args(args.take(i as int), tys, start) == (
                    self@,
                    Ok::<Seq<(Seq<char>, Seq<char>)>, Failure>(
                        crate::sema::pairs_view(passed@),
                    ),
                ),
                start == old(self)@,
                self@.next >= start.next,
                find_function(start.frames, fn_name@) == Some(
                    InfoView::Function {
                        tmp_name: callee.0@,
                        ret_ty: callee.1@,
                        paras: tys,
                        scope: callee.3,
                    },
                ),
            decreases argument.len() - i,
        {
            proof {
                crate::parser::lemma_trees(argument@);
                assert(args.take(i as int + 1).drop_last() =~= args.take(i as int));
                assert(args.take(i as int + 1).last() == argument@[i as int]@);
                assert(decreases_to!(*argument => argument@[i as int]));
            }
            let ghost before = crate::sema::pairs_view(passed@);
            let value = match self.generate_code_expression(&argument[i]) {
                Ok(value) => value,
                Err(err) => {
                    proof {
                        lemma_args_stop(args, tys, start, i as int + 1);
                    }
                    return Err(err);
                },
            };
            let operand = match self.pass_argument(types[i].as_str(), value) {
                Ok(operand) => operand,
                Err(err) => {
                    proof {
                        lemma_args_stop(args, tys, start, i as int + 1);
                    }
                    return Err(err);
                },
            };
            passed.push((types[i].clone(), operand));
            assert(crate::sema::pairs_view(passed@) =~= before.push((tys[i as int], operand@)));
            i = i + 1;
        }
        assert(args.take(argument.len() as int) =~= args);
        self.invocation(fn_name, callee.1.as_str(), &passed)
    }

    /// Enters the body of a function that returns `ret`, and hands back what
    /// the frame of the body held and what the return type was.
    fn enter_body(&mut self, ret: &str) -> (found: (StrMap<Info>, String))
        requires
            old(self).wf(),
        ensures
            final(self).wf(),
            final(self)@ == crate::lower::enter_body(old(self)@, ret@),
            found.0@ == old(self)@.frames[crate::lower::body_depth()],
            found.1@ == old(self)@.result,
    {
        self.scope = 2;
        let mut result = String::from_str(ret);
        std::mem::swap(&mut self.result, &mut result);
        let frame = self.sym_table[2].take();
        assert(self@.frames =~= old(self)@.frames.update(
            crate::lower::body_depth(),
            Map::<Seq<char>, InfoView>::empty(),
        ));
        (frame, result)
    }

    /// Leaves the body of a function: back at the global depth, with `frame`
    /// as the frame of the body and `result` as the return type.
    fn leave_body(&mut self, frame: StrMap<Info>, result: String)
        requires
            old(self).wf(),
            forall|name: Seq<char>| #[trigger]
                frame@.contains_key(name) ==> drawn(frame@[name], old(self)@.next),
        ensures
            final(self).wf(),
            final(self)@ == (GenState {
                depth: crate::lower::global_depth(),
                result: result@,
                frames: old(self)@.frames.update(crate::lower::body_depth(), frame@),
                ..old(self)@
            }),
    {
        self.scope = 1;
        self.result = result;
        self.sym_table.set(2, frame);
        assert(self@.frames =~= old(self)@.frames.update(crate::lower::body_depth(), frame@));
    }

    /// Lowers the definition of variable `identifier` and declares it at the
    /// current depth.
    pub fn generate_code_vardef(
        &mut self,
        var_type: &str,
        identifier: &str,
        var_value: &Option<Box<ASTNode>>,
    ) -> (r: Result<(), CodegenError>)
        requires
            old(self).reaches(),
        ensures
            final(self).sane(),
            final(self)@.frames.len() == old(self)@.frames.len(),
            final(self)@.next >= old(self)@.next,
            crate::lower::lower_vardef(
                var_type@,
                identifier@,
                crate::parser::boxed_tree(*var_value),
                old(self)@,
            ) == (final(self)@, outcome(r)),
        decreases var_value, 1nat,
    {
        let ty = match turn_to_llvm_type(var_type) {
            Ok(ty) => ty,
            Err(err) => {
                return Err(err);
            },
        };
        let id = match self.new_tmp() {
            Ok(id) => id,
            Err(err) => {
                return Err(err);
            },
        };
        if self.scope != 1 {
            self.emit(Op::Alloca { dst: id, ty: ty.as_str() });
            match var_value {
                Some(expr) => {
                    let value = match self.generate_code_expression(expr) {
                        Ok(value) => value,
                        Err(err) => {
                            return Err(err);
                        },
                    };
                    let loaded = match self.new_tmp() {
                        Ok(loaded) => loaded,
                        Err(err) => {
                            return Err(err);
                        },
                    };
                    self.emit(Op::Load { dst: loaded, ty: ty.as_str(), from: value.as_str() });
                    self.emit(Op::Store { ty: ty.as_str(), src: loaded, to: id });
                },
                None => {},
            }
            let info = Info::Variable {
                tmp_name: register_name(id),
                ty,
                scope: self.scope,
                size: 32,
            };
            self.add_to_symbol(self.scope, String::from_str(identifier), info);
            Ok(())
        } else {
            let init = match var_value {
                Some(expr) => match self.generate_code_expression(expr) {
                    Ok(value) => value,
                    Err(err) => {
                        return Err(err);
                    },
                },
                None => String::from_str("0"),
            };
            self.emit(Op::Global { id, ty: ty.as_str(), init: init.as_str() });
            let info = Info::Variable { tmp_name: global_name(id), ty, scope: 1, size: 32 };
            self.add_to_symbol(self.scope, String::from_str(identifier), info);
            Ok(())
        }
    }

    /// Lowers an assignment to variable `identifier`.
    pub fn generate_code_assignment(
        &mut self,
        identifier: &str,
        var_value: &Option<Box<ASTNode>>,
    ) -> (r: Result<(), CodegenError>)
        requires
            old(self).reaches(),
        ensures
            final(self).sane(),
            final(self)@.frames.len() == old(self)@.frames.len(),
            final(self)@.next >= old(self)@.next,
            crate::lower::lower_assignment(
                identifier@,
                crate::parser::boxed_tree(*var_value),
                old(self)@,
            ) == (final(self)@, outcome(r)),
        decreases var_value, 1nat,
    {
        let target = match self.get_varinfo(identifier) {
            Some(found) => found,
            None => {
                return Err(CodegenError::new(CodegenErrorKind::UnresolvedReference, identifier));
            },
        };
        let expr = match var_value {
            Some(expr) => expr,
            None => {
                return Err(CodegenError::new(CodegenErrorKind::InvalidNode, identifier));
            },
        };
        let value = match self.generate_code_expression(expr) {
            Ok(value) => value,
            Err(err) => {
                return Err(err);
            },
        };
        let loaded = match self.new_tmp() {
            Ok(loaded) => loaded,
            Err(err) => {
                return Err(err);
            },
        };
        self.emit(Op::LoadPtr { dst: loaded, ty: target.1.as_str(), from: value.as_str() });
        self.emit(Op::StoreVar { ty: target.1.as_str(), src: loaded, target: target.0.as_str() });
        Ok(())
    }

    /// Lowers a return of the value of `ast`, as a value of the return type
    /// of the function whose body is being lowered.
    pub fn generate_code_return(&mut self, ast: &ASTNode) -> (r: Result<(), CodegenError>)
        requires
            old(self).sane(),
            crate::lower::reads_registry(ast@) ==> old(self).reaches(),
        ensures
            final(self).sane(),
            final(self)@.frames.len() == old(self)@.frames.len(),
            final(self)@.next >= old(self)@.next,
            crate::lower::lower_return(ast@, old(self)@) == (final(self)@, outcome(r)),
        decreases ast, 1nat,
    {
        if self.scope == 1 || *self.result.as_str() == *"void" {
            return Err(CodegenError::unnamed(CodegenErrorKind::InvalidNode));
        }
        let ty = self.result.clone();
        let value = match self.generate_code_expression(ast) {
            Ok(value) => value,
            Err(err) => {
                return Err(err);
            },
        };
        let loaded = match self.new_tmp() {
            Ok(loaded) => loaded,
            Err(err) => {
                return Err(err);
            },
        };
        self.emit(Op::Load { dst: loaded, ty: ty.as_str(), from: value.as_str() });
        self.emit(Op::Ret { ty: ty.as_str(), src: loaded });
        Ok(())
    }

    /// Lowers a list of statements in order, up to the first that fails.
    pub fn generate_block(&mut self, stmts: &Vec<ASTNode>) -> (r: Result<(), CodegenError>)
        requires
            old(self).sane(),
            old(self)@.frames.len() >= crate::lower::block_frames_read(
                crate::parser::trees(stmts@),
                old(self)@.depth,
            ),
        ensures
            final(self).sane(),
            final(self)@.frames.len() == old(self)@.frames.len(),
            final(self)@.next >= old(self)@.next,
            r is Ok ==> final(self)@.depth == old(self)@.depth,
            crate::lower::lower_block(crate::parser::trees(stmts@), old(self)@) == (
                final(self)@,
                outcome(r),
            ),
        decreases stmts, 0nat,
    {
        let ghost start = self@;
        let ghost all = crate::parser::trees(stmts@);
        let mut i: usize = 0;
        proof {
            crate::parser::lemma_trees(stmts@);
            assert(all.take(0) =~= Seq::<crate::parser::Tree>::empty());
        }
        while i < stmts.len()
            invariant
                self.sane(),
                self@.frames.len() == start.frames.len(),
                self@.depth == start.depth,
                start.frames.len() >= crate::lower::block_frames_read(all, start.depth),
                i <= stmts.len(),
                all == crate::parser::trees(stmts@),
                all.len() == stmts.len(),
                start == old(self)@,
                self@.next >= start.next,
                crate::lower::lower_block(all.take(i as int), start) == (
                    self@,
                    Ok::<(), Failure>(()),
                ),
            decreases stmts.len() - i,
        {
            proof {
                crate::parser::lemma_trees(stmts@);
                assert(all.take(i as int + 1).drop_last() =~= all.take(i as int));
                assert(all.take(i as int + 1).last() == stmts@[i as int]@);
                assert(decreases_to!(*stmts => stmts@[i as int]));
                lemma_frames_read_in_block(all, start.depth, i as int);
            }
            match self.generate_statement(&stmts[i]) {
                Ok(_) => {},
                Err(err) => {
                    proof {
                        lemma_block_stop(all, start, i as int + 1);
                    }
                    return Err(err);
                },
            }
            i = i + 1;
        }
        assert(all.take(stmts.len() as int) =~= all);
        Ok(())
    }

    /// Ends an arm of a conditional: jumps to the merge block unless the
    /// arm has ended its block itself.
    fn leave_arm(&mut self, merge: i64)
        requires
            old(self).sane(),
        ensures
            final(self).sane(),
            final(self)@ == crate::lower::leave_arm(old(self)@, merge as int),
    {
        if !self.closed {
            self.emit(Op::Jump { label: merge });
        }
    }

    /// Lowers a conditional.
    pub fn generate_code_ifelse(
        &mut self,
        condition: &ASTNode,
        if_body: &Vec<ASTNode>,
        elif_body: &Option<Vec<ASTNode>>,
        else_body: &Option<Vec<ASTNode>>,
    ) -> (r: Result<(), CodegenError>)
        requires
            old(self).sane(),
            old(self)@.frames.len() >= crate::lower::frames_read(
                crate::lower::conditional(
                    condition@,
                    crate::parser::trees(if_body@),
                    crate::parser::optional_trees(*elif_body),
                    crate::parser::optional_trees(*else_body),
                ),
                old(self)@.depth,
            ),
        ensures
            final(self).sane(),
            final(self)@.frames.len() == old(self)@.frames.len(),
            final(self)@.next >= old(self)@.next,
            r is Ok ==> final(self)@.depth == old(self)@.depth,
            crate::lower::lower_ifelse(
                condition@,
                crate::parser::trees(if_body@),
                crate::parser::optional_trees(*elif_body),
                crate::parser::optional_trees(*else_body),
                old(self)@,
            ) == (final(self)@, outcome(r)),
        decreases conditional_node(condition, if_body, elif_body, else_body), 0nat,
    {
        proof {
            let node = conditional_node(condition, if_body, elif_body, else_body);
            match node {
                ASTNode::IfElse { condition: c, if_body: first, elif_body: _, else_body: other } => {
                    assert(decreases_to!(node => first));
                    assert(decreases_to!(node => other));
                    match other {
                        Some(body) => {
                            assert(decreases_to!(other => body));
                        },
                        None => {},
                    }
                },
                _ => {},
            }
        }
        if elif_body.is_some() {
            return Err(CodegenError::unnamed(CodegenErrorKind::InvalidNode));
        }
        let flag = match self.generate_code_expression(condition) {
            Ok(value) => value,
            Err(err) => {
                return Err(err);
            },
        };
        let count: i64 = if else_body.is_some() {
            4
        } else {
            3
        };
        let base = match self.reserve(count) {
            Ok(base) => base,
            Err(err) => {
                return Err(err);
            },
        };
        let merge: i64 = base + 2;
        let other: i64 = if else_body.is_some() {
            base + 3
        } else {
            merge
        };
        self.emit(Op::LoadPtr { dst: base, ty: "i1", from: flag.as_str() });
        self.emit(Op::Branch { cond: base, then_label: base + 1, else_label: other });
        self.emit(Op::Label { id: base + 1 });
        match self.generate_block(if_body) {
            Ok(_) => {},
            Err(err) => {
                return Err(err);
            },
        }
        self.leave_arm(merge);
        match else_body {
            Some(body) => {
                self.emit(Op::Label { id: base + 3 });
                match self.generate_block(body) {
                    Ok(_) => {},
                    Err(err) => {
                        return Err(err);
                    },
                }
                self.leave_arm(merge);
            },
            None => {},
        }
        self.emit(Op::Label { id: merge });
        Ok(())
    }

    /// Lowers the definition of function `fn_name`: declares its signature
    /// in the global frame, and lowers its parameters and its body in a frame
    /// of their own, which is left as it was found.
    pub fn generate_code_fundef(
        &mut self,
        fn_name: &str,
        parameters: &Vec<(String, String)>,
        ret_type: &Option<String>,
        body: &Vec<ASTNode>,
    ) -> (r: Result<(), CodegenError>)
        requires
            old(self).wf(),
        ensures
            final(self).wf(),
            final(self)@.frames.len() == old(self)@.frames.len(),
            final(self)@.next >= old(self)@.next,
            r is Ok ==> final(self)@.depth == old(self)@.depth,
            crate::lower::lower_fundef(
                fn_name@,
                crate::sema::pairs_view(parameters@),
                crate::sema::option_view(*ret_type),
                crate::parser::trees(body@),
                old(self)@,
            ) == (final(self)@, outcome(r)),
            r is Ok ==> final(self)@.frames == old(self)@.frames.update(
                crate::lower::global_depth(),
                old(self)@.frames[crate::lower::global_depth()].insert(
                    fn_name@,
                    crate::lower::signature_info(
                        fn_name@,
                        crate::lower::return_type(crate::sema::option_view(*ret_type))->0,
                        crate::lower::lowered_parameters(crate::sema::pairs_view(parameters@)),
                    ),
                ),
            ),
        decreases body, 1nat,
    {
        let ghost source = crate::sema::pairs_view(parameters@);
        let ghost lowered = crate::lower::lowered_parameters(source);
        if self.scope != 1 {
            return Err(CodegenError::new(CodegenErrorKind::InvalidNode, fn_name));
        }
        let (ret, params, types) = match lower_signature(parameters, ret_type) {
            Ok(signature) => signature,
            Err(err) => {
                return Err(err);
            },
        };
        if parameters.len() as u64 >= 0x7fff_ffff_ffff_ffffu64 {
            return Err(CodegenError::unnamed(CodegenErrorKind::IdExhausted));
        }
        let first = match self.reserve(parameters.len() as i64 + 1) {
            Ok(first) => first,
            Err(err) => {
                return Err(err);
            },
        };
        self.emit(Op::Define { ret: ret.as_str(), name: fn_name, params: &params });
        let info = Info::Function {
            tmp_name: String::from_str(fn_name),
            ret_ty: ret.clone(),
            paras: types,
            scope: 1,
        };
        self.add_to_symbol(1, String::from_str(fn_name), info);
        let (frame, result) = self.enter_body(ret.as_str());
        let ghost entered = self@;
        let mut k: usize = 0;
        while k < params.len()
            invariant
                self.wf(),
                self@.frames.len() == old(self)@.frames.len(),
                self@.depth == crate::lower::body_depth(),
                k <= params.len(),
                params@.len() == parameters@.len(),
                lowered == crate::sema::pairs_view(params@),
                first >= 0,
                first + params.len() < self@.next,
                self@ == crate::lower::bind_parameters(lowered, first as int, k as int, entered),
            decreases params.len() - k,
        {
            let id: i64 = first + k as i64;
            self.emit(Op::Alloca { dst: id, ty: params[k].0.as_str() });
            self.emit(
                Op::StoreParam { ty: params[k].0.as_str(), name: params[k].1.as_str(), to: id },
            );
            let info = Info::Variable {
                tmp_name: register_name(id),
                ty: params[k].0.clone(),
                scope: 2,
                size: 32,
            };
            self.add_to_symbol(2, params[k].1.clone(), info);
            k = k + 1;
        }
        proof {
            lemma_frames_read_bound(crate::parser::trees(body@), self@.depth);
        }
        match self.generate_block(body) {
            Ok(_) => {},
            Err(err) => {
                return Err(err);
            },
        }
        if *ret.as_str() == *"void" && !self.closed {
            self.emit(Op::RetVoid);
        }
        self.emit(Op::EndDefine);
        self.leave_body(frame, result);
        proof {
            let lowered = crate::lower::lower_fundef(
                fn_name@,
                source,
                crate::sema::option_view(*ret_type),
                crate::parser::trees(body@),
                old(self)@,
            );
            assert(lowered.0 == self@);
            assert(lowered.1 is Ok);
            crate::laws::lemma_function_leaves_no_declaration(
                fn_name@,
                source,
                crate::sema::option_view(*ret_type),
                crate::parser::trees(body@),
                old(self)@,
            );
        }
        Ok(())
    }

    /// Lowers one statement. A node that is no statement emits nothing. A
    /// statement that follows a terminator in its block is refused: nothing
    /// may stand between a terminator and the next label.
    pub fn generate_statement(&mut self, stat: &ASTNode) -> (r: Result<(), CodegenError>)
        requires
            old(self).sane(),
            old(self)@.frames.len() >= crate::lower::frames_read(stat@, old(self)@.depth),
        ensures
            final(self).sane(),
            final(self)@.frames.len() == old(self)@.frames.len(),
            final(self)@.next >= old(self)@.next,
            r is Ok ==> final(self)@.depth == old(self)@.depth,
            crate::lower::lower_statement(stat@, old(self)@) == (final(self)@, outcome(r)),
        decreases stat, 1nat,
    {
        if self.closed && is_statement(stat) {
            return Err(CodegenError::unnamed(CodegenErrorKind::InvalidNode));
        }
        proof {
            if crate::lower::lower_statement(stat@, self@).1 is Ok {
                crate::laws::lemma_statement_keeps_depth(stat@, self@);
            }
        }
        match stat {
            ASTNode::VariableDefinition { var_type, identifier, var_value } => {
                self.generate_code_vardef(var_type.as_str(), identifier.as_str(), var_value)
            },
            ASTNode::Assignment { identifier, var_value } => self.generate_code_assignment(
                identifier.as_str(),
                var_value,
            ),
            ASTNode::FunctionDefinition { fn_name, parameters, ret_type, body } => {
                self.generate_code_fundef(fn_name.as_str(), parameters, ret_type, body)
            },
            ASTNode::Return(ast) => self.generate_code_return(ast),
            ASTNode::IfElse { condition, if_body, elif_body, else_body } => {
                self.generate_code_ifelse(condition, if_body, elif_body, else_body)
            },
            ASTNode::FunctionCall { fn_name, argument } => {
                match self.generate_code_funcall(fn_name.as_str(), argument) {
                    Ok(_) => Ok(()),
                    Err(err) => Err(err),
                }
            },
            _ => Ok(()),
        }
    }

    /// Declares in the global frame the signatures of the functions that
    /// `stmts` define.
    fn declare_signatures(&mut self, stmts: &Vec<ASTNode>)
        requires
            old(self).sane(),
            old(self)@.frames.len() > crate::lower::global_depth(),
        ensures
            final(self).sane(),
            final(self)@.frames.len() == old(self)@.frames.len(),
            final(self)@.depth == old(self)@.depth,
            final(self)@.next == old(self)@.next,
            final(self)@ == crate::lower::declare_signatures(
                crate::parser::trees(stmts@),
                old(self)@,
            ),
    {
        let ghost start = self@;
        let ghost all = crate::parser::trees(stmts@);
        let mut i: usize = 0;
        proof {
            crate::parser::lemma_trees(stmts@);
            assert(all.take(0) =~= Seq::<crate::parser::Tree>::empty());
        }
        while i < stmts.len()
            invariant
                self.sane(),
                self@.frames.len() == start.frames.len(),
                self@.frames.len() > crate::lower::global_depth(),
                self@.depth == start.depth,
                i <= stmts.len(),
                all == crate::parser::trees(stmts@),
                all.len() == stmts.len(),
                self@.next == start.next,
                self@ == crate::lower::declare_signatures(all.take(i as int), start),
            decreases stmts.len() - i,
        {
            proof {
                crate::parser::lemma_trees(stmts@);
                assert(all.take(i as int + 1).drop_last() =~= all.take(i as int));
                assert(all.take(i as int + 1).last() == stmts@[i as int]@);
            }
            match &stmts[i] {
                ASTNode::FunctionDefinition { fn_name, parameters, ret_type, body } => {
                    match lower_signature(parameters, ret_type) {
                        Ok((ret, _, types)) => {
                            let info = Info::Function {
                                tmp_name: fn_name.clone(),
                                ret_ty: ret,
                                paras: types,
                                scope: 1,
                            };
                            self.add_to_symbol(1, fn_name.clone(), info);
                        },
                        Err(_) => {},
                    }
                },
                _ => {},
            }
            i = i + 1;
        }
        assert(all.take(stmts.len() as int) =~= all);
    }

    /// Lowers a whole program after the module prologue, which declares the
    /// runtime's functions in the global frame.
    pub fn generate_program(&mut self, ast: &ASTNode, info: &SrcInfo) -> (r: Result<
        (),
        CodegenError,
    >)
        requires
            old(self).sane(),
            old(self)@.frames.len() > crate::lower::global_depth(),
            old(self)@.frames.len() >= crate::lower::program_frames_read(ast@, old(self)@.depth),
        ensures
            final(self).sane(),
            final(self)@.frames.len() == old(self)@.frames.len(),
            final(self)@.next >= old(self)@.next,
            crate::lower::lower_program(ast@, info.target_triple@, old(self)@) == (
                final(self)@,
                outcome(r),
            ),
    {
        self.emit(Op::Target { triple: info.target_triple.as_str() });
        let lines = generate_lib();
        assert(lines@.len() == 5 && lines@[0]@ == crate::lower::runtime_declarations()[0]
            && lines@[1]@ == crate::lower::runtime_declarations()[1] && lines@[2]@
            == crate::lower::runtime_declarations()[2] && lines@[3]@
            == crate::lower::runtime_declarations()[3] && lines@[4]@
            == crate::lower::runtime_declarations()[4]) by {
            assert(strings_view(lines@).len() == 5);
            assert(strings_view(lines@)[0] == lines@[0]@);
            assert(strings_view(lines@)[1] == lines@[1]@);
            assert(strings_view(lines@)[2] == lines@[2]@);
            assert(strings_view(lines@)[3] == lines@[3]@);
            assert(strings_view(lines@)[4] == lines@[4]@);
        }
        self.emit(Op::Extern { line: lines[0].as_str() });
        self.emit(Op::Extern { line: lines[1].as_str() });
        self.emit(Op::Extern { line: lines[2].as_str() });
        self.emit(Op::Extern { line: lines[3].as_str() });
        self.emit(Op::Extern { line: lines[4].as_str() });
        let mut echo_paras: Vec<String> = Vec::new();
        echo_paras.push(String::from_str("i8*"));
        echo_paras.push(String::from_str("i32"));
        let echo = Info::Function {
            tmp_name: String::from_str("echo"),
            ret_ty: String::from_str("i32"),
            paras: echo_paras,
            scope: 1,
        };
        assert(strings_view(echo_paras@) =~= seq!["i8*"@, "i32"@]);
        self.add_to_symbol(1, String::from_str("echo"), echo);
        let mut string_paras: Vec<String> = Vec::new();
        string_paras.push(String::from_str("i32*"));
        let string = Info::Function {
            tmp_name: String::from_str("string"),
            ret_ty: String::from_str("i8*"),
            paras: string_paras,
            scope: 1,
        };
        assert(strings_view(string_paras@) =~= seq!["i32*"@]);
        self.add_to_symbol(1, String::from_str("string"), string);
        match ast {
            ASTNode::Program(stmts) => {
                self.declare_signatures(stmts);
                self.generate_block(stmts)
            },
            _ => Ok(()),
        }
    }

    /// Adds the frames of a module to the registry, lowers a whole program
    /// into a module and returns the text of all that this generator has
    /// emitted.
    pub fn generate_code(&mut self, ast: &ASTNode, info: &SrcInfo) -> (r: Result<
        String,
        CodegenError,
    >)
        requires
            old(self).sane(),
        ensures
            final(self).wf(),
            final(self)@.next >= old(self)@.next,
            crate::lower::lower_module(ast@, info.target_triple@, old(self)@).0 == final(self)@,
            match r {
                Ok(module) => crate::lower::lower_module(
                    ast@,
                    info.target_triple@,
                    old(self)@,
                ).1 is Ok && module@ == render(final(self)@.code),
                Err(err) => crate::lower::lower_module(ast@, info.target_triple@, old(self)@).1
                    == Err::<(), Failure>(err@),
            },
    {
        self.sym_table.push(StrMap::new());
        self.sym_table.push(StrMap::new());
        self.sym_table.push(StrMap::new());
        self.sym_table.push(StrMap::new());
        self.sym_table.push(StrMap::new());
        assert(self@.frames =~= crate::lower::open_registry(old(self)@).frames);
        proof {
            if let crate::parser::Tree::Program(stmts) = ast@ {
                lemma_frames_read_bound(stmts, self@.depth);
            }
        }
        match self.generate_program(ast, info) {
            Ok(_) => {
                let module = self.output.clone();
                assert(module@ == self.text());
                Ok(module)
            },
            Err(err) => Err(err),
        }
    }
}

/// The lowered return type and the lowered parameters of a signature, and
/// the parameters' lowered types alone.
fn lower_signature(parameters: &Vec<(String, String)>, ret_type: &Option<String>) -> (r: Result<
    (String, Vec<(String, String)>, Vec<String>),
    CodegenError,
>)
    ensures
        match r {
            Ok(signature) => {
                let source = crate::sema::pairs_view(parameters@);
                &&& crate::lower::return_type(crate::sema::option_view(*ret_type)) == Some(
                    signature.0@,
                )
                &&& crate::lower::parameters_lowerable(source)
                &&& crate::sema::pairs_view(signature.1@) == crate::lower::lowered_parameters(
                    source,
                )
                &&& strings_view(signature.2@) == crate::lower::types_of(
                    crate::lower::lowered_parameters(source),
                )
            },
            Err(err) => err@ == crate::lower::failure(
                CodegenErrorKind::TypeLowering,
                crate::lower::unlowerable_type(
                    crate::sema::pairs_view(parameters@),
                    crate::sema::option_view(*ret_type),
                ),
            ) && (crate::lower::return_type(crate::sema::option_view(*ret_type)) is None
                || !crate::lower::parameters_lowerable(crate::sema::pairs_view(parameters@))),
        },
{
    let ghost source = crate::sema::pairs_view(parameters@);
    let ret = match ret_type {
        None => String::from_str("void"),
        Some(ty) => match turn_to_llvm_type(ty.as_str()) {
            Ok(ty) => ty,
            Err(err) => {
                return Err(err);
            },
        },
    };
    let mut params: Vec<(String, String)> = Vec::new();
    let mut types: Vec<String> = Vec::new();
    let mut i: usize = 0;
    assert(source.skip(0) =~= source);
    while i < parameters.len()
        invariant
            i <= parameters.len(),
            source == crate::sema::pairs_view(parameters@),
            params@.len() == i,
            types@.len() == i,
            crate::lower::return_type(crate::sema::option_view(*ret_type)) is Some,
            crate::lower::first_unlowerable(source) == crate::lower::first_unlowerable(
                source.skip(i as int),
            ),
            forall|j: int|
                0 <= j < i ==> llvm_type((#[trigger] source[j]).0) == Some(params@[j].0@)
                    && params@[j].1@ == source[j].1 && types@[j]@ == params@[j].0@,
        decreases parameters.len() - i,
    {
        proof {
            assert(source.skip(i as int)[0] == source[i as int]);
            assert(source.skip(i as int).drop_first() =~= source.skip(i as int + 1));
        }
        let ty = match turn_to_llvm_type(parameters[i].0.as_str()) {
            Ok(ty) => ty,
            Err(err) => {
                assert(llvm_type(source[i as int].0) is None);
                return Err(err);
            },
        };
        types.push(ty.clone());
        params.push((ty, parameters[i].1.clone()));
        i = i + 1;
    }
    let ghost lowered = crate::lower::lowered_parameters(source);
    assert(crate::sema::pairs_view(params@) =~= lowered);
    assert(strings_view(types@) =~= crate::lower::types_of(lowered));
    assert(crate::lower::parameters_lowerable(source));
    Ok((ret, params, types))
}

/// No block needs more frames than the frame of a function body and those
/// outside it.
proof fn lemma_frames_read_bound(stmts: Seq<crate::parser::Tree>, depth: int)
    requires
        depth <= crate::lower::body_depth(),
    ensures
        crate::lower::block_frames_read(stmts, depth) <= crate::lower::body_depth() + 1,
    decreases stmts, 0nat,
{
    if stmts.len() > 0 {
        lemma_frames_read_bound(stmts.drop_last(), depth);
        lemma_statement_frames_read_bound(stmts.last(), depth);
    }
}

/// No statement needs more frames than the frame of a function body and
/// those outside it.
proof fn lemma_statement_frames_read_bound(t: crate::parser::Tree, depth: int)
    requires
        depth <= crate::lower::body_depth(),
    ensures
        crate::lower::frames_read(t, depth) <= crate::lower::body_depth() + 1,
    decreases t, 1nat,
{
    match t {
        crate::parser::Tree::IfElse { condition, if_body, elif_body, else_body } => {
            lemma_frames_read_bound(if_body, depth);
            match else_body {
                Some(body) => {
                    lemma_frames_read_bound(body, depth);
                },
                None => {},
            }
        },
        _ => {},
    }
}

/// A block needs at least the frames that each of its statements needs.
proof fn lemma_frames_read_in_block(stmts: Seq<crate::parser::Tree>, depth: int, i: int)
    requires
        0 <= i < stmts.len(),
    ensures
        crate::lower::frames_read(stmts[i], depth) <= crate::lower::block_frames_read(
            stmts,
            depth,
        ),
    decreases stmts.len(),
{
    if i < stmts.len() - 1 {
        lemma_frames_read_in_block(stmts.drop_last(), depth, i);
    }
}

/// Once a prefix of a block cannot be lowered, no longer prefix can: the
/// whole block stops in the same state with the same error.
proof fn lemma_block_stop(stmts: Seq<crate::parser::Tree>, s: GenState, k: int)
    requires
        0 <= k <= stmts.len(),
        crate::lower::lower_block(stmts.take(k), s).1 is Err,
    ensures
        crate::lower::lower_block(stmts, s) == crate::lower::lower_block(stmts.take(k), s),
    decreases stmts.len() - k,
{
    if k == stmts.len() {
        assert(stmts.take(k) =~= stmts);
    } else {
        assert(stmts.take(k + 1).drop_last() =~= stmts.take(k));
        lemma_block_stop(stmts, s, k + 1);
    }
}

/// The node that a conditional's parts make up.
pub open spec fn conditional_node(
    condition: &ASTNode,
    if_body: &Vec<ASTNode>,
    elif_body: &Option<Vec<ASTNode>>,
    else_body: &Option<Vec<ASTNode>>,
) -> ASTNode {
    ASTNode::IfElse {
        condition: Box::new(*condition),
        if_body: *if_body,
        elif_body: *elif_body,
        else_body: *else_body,
    }
}

/// What was drawn from a counter stays drawn when the counter moves on.
proof fn lemma_counter_moves(s: GenState, t: GenState)
    requires
        ids_below(s),
        slots_below(s),
        s.next <= t.next,
        t.code == s.code,
        t.frames == s.frames,
    ensures
        ids_below(t),
        slots_below(t),
{
    assert forall|i: int| 0 <= i < t.code.len() implies defines_within(
        #[trigger] t.code[i],
        0,
        t.next,
    ) by {
        assert(defines_within(s.code[i], 0, s.next));
    }
    assert forall|depth: int, name: Seq<char>|
        0 <= depth < t.frames.len() && (#[trigger] t.frames[depth].contains_key(
            name,
        )) implies drawn(t.frames[depth][name], t.next) by {
        lemma_drawn_stays(s.frames[depth][name], s.next, t.next);
    }
}

/// What was drawn below a bound was drawn below every higher bound.
proof fn lemma_drawn_stays(info: InfoView, low: int, high: int)
    requires
        drawn(info, low),
        low <= high,
    ensures
        drawn(info, high),
{
    if info is Variable {
        let value = info->Variable_tmp_name;
        if crate::lower::register_below(value, low) {
            let id = choose|id: int| id < low && value == #[trigger] crate::ir::register(id);
            assert(id < high && value == crate::ir::register(id));
        } else {
            let id = choose|id: int| id < low && value == #[trigger] crate::ir::global_symbol(id);
            assert(id < high && value == crate::ir::global_symbol(id));
        }
    }
}

/// Whether `node` is a statement.
fn is_statement(node: &ASTNode) -> (b: bool)
    ensures
        b == crate::lower::is_statement(node@),
{
    match node {
        ASTNode::VariableDefinition { .. } => true,
        ASTNode::Assignment { .. } => true,
        ASTNode::FunctionDefinition { .. } => true,
        ASTNode::Return(_) => true,
        ASTNode::IfElse { .. } => true,
        ASTNode::FunctionCall { .. } => true,
        _ => false,
    }
}

/// Whether `op` ends a basic block.
fn ends_block(op: &Op) -> (b: bool)
    ensures
        b == op@.is_terminator(),
{
    match op {
        Op::Ret { .. } => true,
        Op::RetVoid => true,
        Op::Branch { .. } => true,
        Op::Jump { .. } => true,
        _ => false,
    }
}

/// The text that names register `id`.
fn register_name(id: i64) -> (name: String)
    ensures
        name@ == crate::ir::register(id as int),
{
    let mut name = String::from_str("%");
    name.append(signed_string(id).as_str());
    name
}

/// The text that names the static symbol `id`.
fn global_name(id: i64) -> (name: String)
    ensures
        name@ == crate::ir::global_symbol(id as int),
{
    let mut name = String::from_str("@");
    name.append(signed_string(id).as_str());
    name
}

/// Once a prefix of the arguments cannot be lowered, no longer prefix can:
/// the whole list stops in the same state with the same error.
proof fn lemma_args_stop(
    args: Seq<crate::parser::Tree>,
    types: Seq<Seq<char>>,
    s: GenState,
    k: int,
)
    requires
        0 <= k <= args.len(),
        crate::lower::lower_args(args.take(k), types, s).1 is Err,
    ensures
        crate::lower::lower_args(args, types, s) == crate::lower::lower_args(
            args.take(k),
            types,
            s,
        ),
    decreases args.len() - k,
{
    if k == args.len() {
        assert(args.take(k) =~= args);
    } else {
        assert(args.take(k + 1).drop_last() =~= args.take(k));
        lemma_args_stop(args, types, s, k + 1);
    }
}

} // verus!
