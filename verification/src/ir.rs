//! The intermediate representation: the instructions that lowering emits, and
//! the text of each.

use crate::text::{signed_decimal, signed_string};
use vstd::prelude::*;

verus! {

/// The binary operators that the language knows.
#[derive(Debug, Clone, Copy, PartialEq, Eq, Structural)]
pub enum BinOp {
    Add,
    Sub,
    Mul,
    Div,
    Equal,
}

/// One emitted piece of a module, as a mathematical value. Registers and
/// labels are named by their synthetic ids; operands that may be either a
/// register or a static symbol are kept as text.
pub enum Inst {
    /// The module header that names the target platform.
    Target { triple: Seq<char> },
    /// One declaration of the runtime library, as its full line.
    Extern { line: Seq<char> },
    /// A global symbol with its constant initial value.
    Global { id: int, ty: Seq<char>, init: Seq<char> },
    /// The head of a function definition and its entry label.
    Define { ret: Seq<char>, name: Seq<char>, params: Seq<(Seq<char>, Seq<char>)> },
    /// The end of a function definition.
    EndDefine,
    /// A fresh storage slot of type `ty`.
    Alloca { dst: int, ty: Seq<char> },
    /// The storage slot that receives a call's result.
    AllocaResult { dst: int, ty: Seq<char> },
    /// A load from a slot through a typed pointer.
    Load { dst: int, ty: Seq<char>, from: Seq<char> },
    /// A load from a slot through an untyped pointer.
    LoadPtr { dst: int, ty: Seq<char>, from: Seq<char> },
    /// The load of a call argument that is passed by value.
    LoadArg { dst: int, ty: Seq<char>, from: Seq<char> },
    /// A store of a register into a slot through a typed pointer.
    Store { ty: Seq<char>, src: int, to: int },
    /// A store of a register into a slot through an untyped pointer.
    StorePtr { ty: Seq<char>, src: int, to: int },
    /// The store of an incoming parameter into its slot.
    StoreParam { ty: Seq<char>, name: Seq<char>, to: int },
    /// The store of a call's result into its slot.
    StoreResult { ty: Seq<char>, src: int, to: int },
    /// A store of a literal into a slot.
    StoreImm { ty: Seq<char>, value: Seq<char>, to: int },
    /// A store of a register into the storage of a named variable.
    StoreVar { ty: Seq<char>, src: int, target: Seq<char> },
    /// An arithmetic operation or comparison on two registers.
    Binary { dst: int, op: BinOp, lhs: int, rhs: int },
    /// A call; `result` is absent when the callee produces no value. Each
    /// argument is (type, operand).
    Call {
        result: Option<int>,
        ret: Seq<char>,
        name: Seq<char>,
        args: Seq<(Seq<char>, Seq<char>)>,
    },
    /// A return of the value of type `ty` in `src`.
    Ret { ty: Seq<char>, src: int },
    /// A return without a value.
    RetVoid,
    /// A conditional branch on the boolean in `cond`.
    Branch { cond: int, then_label: int, else_label: int },
    /// An unconditional branch.
    Jump { label: int },
    /// The start of the basic block named by `id`.
    Label { id: int },
}

impl Inst {
    /// Whether this instruction ends a basic block.
    pub open spec fn is_terminator(self) -> bool {
        self is Ret || self is RetVoid || self is Branch || self is Jump
    }

    /// Whether this instruction allocates a storage slot.
    pub open spec fn is_allocation(self) -> bool {
        self is Alloca || self is AllocaResult
    }
}

/// The text that names register `id`.
pub open spec fn register(id: int) -> Seq<char> {
    "%"@ + signed_decimal(id)
}

/// The text that names the static symbol `id`.
pub open spec fn global_symbol(id: int) -> Seq<char> {
    "@"@ + signed_decimal(id)
}

/// Different ids name different registers and different static symbols.
pub proof fn lemma_names_differ(a: int, b: int)
    requires
        a != b,
    ensures
        register(a) != register(b),
        global_symbol(a) != global_symbol(b),
{
    if register(a) == register(b) {
        let prefix = "%"@;
        assert((prefix + signed_decimal(a)).skip(prefix.len() as int) =~= signed_decimal(a));
        assert((prefix + signed_decimal(b)).skip(prefix.len() as int) =~= signed_decimal(b));
        crate::text::lemma_signed_decimal_injective(a, b);
    }
    if global_symbol(a) == global_symbol(b) {
        let prefix = "@"@;
        assert((prefix + signed_decimal(a)).skip(prefix.len() as int) =~= signed_decimal(a));
        assert((prefix + signed_decimal(b)).skip(prefix.len() as int) =~= signed_decimal(b));
        crate::text::lemma_signed_decimal_injective(a, b);
    }
}

/// The text of the type and mnemonic of a binary operation.
pub open spec fn mnemonic(op: BinOp) -> Seq<char> {
    match op {
        BinOp::Add => "add i32"@,
        BinOp::Sub => "sub i32"@,
        BinOp::Mul => "mul i32"@,
        BinOp::Div => "udiv i32"@,
        BinOp::Equal => "icmp eq i32"@,
    }
}

/// The type of the result of a binary operation: a boolean for a
/// comparison, an integer otherwise.
pub open spec fn result_type(op: BinOp) -> Seq<char> {
    match op {
        BinOp::Equal => "i1"@,
        _ => "i32"@,
    }
}

/// The call's arguments, each as its type and operand, separated by commas.
pub open spec fn arguments_text(args: Seq<(Seq<char>, Seq<char>)>) -> Seq<char> {
    pairs_text(args, ","@, " "@)
}

/// The parameters of a definition, each as its type and register name,
/// separated by a comma and a space.
pub open spec fn parameters_text(params: Seq<(Seq<char>, Seq<char>)>) -> Seq<char> {
    pairs_text(params, ", "@, " %"@)
}

/// The text of one instruction, line end included.
pub open spec fn inst_text(inst: Inst) -> Seq<char> {
    match inst {
        Inst::Target { triple } => "target triple = \""@ + triple + "\"\n"@,
        Inst::Extern { line } => line,
        Inst::Global { id, ty, init } => if ty == "i8*"@ {
            "@"@ + signed_decimal(id) + " = global "@ + " "@ + init + "\n"@
        } else {
            "@"@ + signed_decimal(id) + " = global "@ + ty + " "@ + init + "\n"@
        },
        Inst::Define { ret, name, params } => "define "@ + ret + " @"@ + name + "("@
            + parameters_text(params) + ") {\n"@ + "entry:\n"@,
        Inst::EndDefine => "}\n"@,
        Inst::Alloca { dst, ty } => "\t%"@ + signed_decimal(dst) + " = alloca "@ + ty + "\n"@,
        Inst::AllocaResult { dst, ty } => "\t%"@ + signed_decimal(dst) + " = alloca "@ + ty
            + " \n"@,
        Inst::Load { dst, ty, from } => "\t%"@ + signed_decimal(dst) + " = load "@ + ty + ", "@
            + ty + "* "@ + from + "\n"@,
        Inst::LoadPtr { dst, ty, from } => "\t%"@ + signed_decimal(dst) + " = load "@ + ty
            + ", ptr "@ + from + "\n"@,
        Inst::LoadArg { dst, ty, from } => "\t%"@ + signed_decimal(dst) + " = load "@ + ty
            + " , "@ + ty + "* "@ + from + "\n"@,
        Inst::Store { ty, src, to } => "\tstore "@ + ty + " %"@ + signed_decimal(src) + ", "@ + ty
            + "* %"@ + signed_decimal(to) + "\n"@,
        Inst::StorePtr { ty, src, to } => "\tstore "@ + ty + " %"@ + signed_decimal(src)
            + ", ptr %"@ + signed_decimal(to) + "\n"@,
        Inst::StoreParam { ty, name, to } => "\tstore "@ + ty + " %"@ + name + ",ptr %"@
            + signed_decimal(to) + "\n"@,
        Inst::StoreResult { ty, src, to } => "\tstore "@ + ty + " %"@ + signed_decimal(src)
            + ",ptr %"@ + signed_decimal(to) + " \n"@,
        Inst::StoreImm { ty, value, to } => "\tstore "@ + ty + " "@ + value + ", "@ + ty + "* %"@
            + signed_decimal(to) + "\n"@,
        Inst::StoreVar { ty, src, target } => "\tstore "@ + ty + " %"@ + signed_decimal(src)
            + ", ptr "@ + target + "\n"@,
        Inst::Binary { dst, op, lhs, rhs } => "\t%"@ + signed_decimal(dst) + " = "@ + mnemonic(op)
            + " %"@ + signed_decimal(lhs) + ", %"@ + signed_decimal(rhs) + "\n"@,
        Inst::Call { result, ret, name, args } => match result {
            Some(id) => "\t%"@ + signed_decimal(id) + " = call "@ + ret + " @"@ + name + "("@
                + arguments_text(args) + ")\n"@,
            None => "\tcall "@ + ret + " @"@ + name + "("@ + arguments_text(args) + ")\n"@,
        },
        Inst::Ret { ty, src } => "\tret "@ + ty + " %"@ + signed_decimal(src) + "\n"@,
        Inst::RetVoid => "ret void\n"@,
        Inst::Branch { cond, then_label, else_label } => "\tbr i1 %"@ + signed_decimal(cond)
            + ", label %__"@ + signed_decimal(then_label) + ", label %__"@ + signed_decimal(
            else_label,
        ) + "\n"@,
        Inst::Jump { label } => "\tbr label %__"@ + signed_decimal(label) + "\n"@,
        Inst::Label { id } => "__"@ + signed_decimal(id) + ":\n"@,
    }
}

/// The text of a sequence of instructions: the text of each, in order.
pub open spec fn render(code: Seq<Inst>) -> Seq<char>
    decreases code.len(),
{
    if code.len() == 0 {
        Seq::empty()
    } else {
        render(code.drop_last()) + inst_text(code.last())
    }
}

/// The text of a sequence with one more instruction is the text of the
/// sequence followed by the text of that instruction.
pub proof fn lemma_render_push(code: Seq<Inst>, inst: Inst)
    ensures
        render(code.push(inst)) == render(code) + inst_text(inst),
{
    assert(code.push(inst).drop_last() =~= code);
}

/// The text of two sequences joined is the two texts joined.
pub proof fn lemma_render_concat(a: Seq<Inst>, b: Seq<Inst>)
    ensures
        render(a + b) == render(a) + render(b),
    decreases b.len(),
{
    if b.len() == 0 {
        assert(a + b =~= a);
        assert(render(a) + render(b) =~= render(a));
    } else {
        lemma_render_concat(a, b.drop_last());
        assert((a + b).drop_last() =~= a + b.drop_last());
        assert(render(a + b) =~= render(a) + render(b));
    }
}

/// An instruction about to be emitted, with its operands borrowed from the
/// generator.
pub enum Op<'a> {
    Target { triple: &'a str },
    Extern { line: &'a str },
    Global { id: i64, ty: &'a str, init: &'a str },
    Define { ret: &'a str, name: &'a str, params: &'a Vec<(String, String)> },
    EndDefine,
    Alloca { dst: i64, ty: &'a str },
    AllocaResult { dst: i64, ty: &'a str },
    Load { dst: i64, ty: &'a str, from: &'a str },
    LoadPtr { dst: i64, ty: &'a str, from: &'a str },
    LoadArg { dst: i64, ty: &'a str, from: &'a str },
    Store { ty: &'a str, src: i64, to: i64 },
    StorePtr { ty: &'a str, src: i64, to: i64 },
    StoreParam { ty: &'a str, name: &'a str, to: i64 },
    StoreResult { ty: &'a str, src: i64, to: i64 },
    StoreImm { ty: &'a str, value: &'a str, to: i64 },
    StoreVar { ty: &'a str, src: i64, target: &'a str },
    Binary { dst: i64, op: BinOp, lhs: i64, rhs: i64 },
    Call { result: Option<i64>, ret: &'a str, name: &'a str, args: &'a Vec<(String, String)> },
    Ret { ty: &'a str, src: i64 },
    RetVoid,
    Branch { cond: i64, then_label: i64, else_label: i64 },
    Jump { label: i64 },
    Label { id: i64 },
}

impl<'a> View for Op<'a> {
    type V = Inst;

    open spec fn view(&self) -> Inst {
        match *self {
            Op::Target { triple } => Inst::Target { triple: triple@ },
            Op::Extern { line } => Inst::Extern { line: line@ },
            Op::Global { id, ty, init } => Inst::Global { id: id as int, ty: ty@, init: init@ },
            Op::Define { ret, name, params } => Inst::Define {
                ret: ret@,
                name: name@,
                params: crate::sema::pairs_view(params@),
            },
            Op::EndDefine => Inst::EndDefine,
            Op::Alloca { dst, ty } => Inst::Alloca { dst: dst as int, ty: ty@ },
            Op::AllocaResult { dst, ty } => Inst::AllocaResult { dst: dst as int, ty: ty@ },
            Op::Load { dst, ty, from } => Inst::Load { dst: dst as int, ty: ty@, from: from@ },
            Op::LoadPtr { dst, ty, from } => Inst::LoadPtr {
                dst: dst as int,
                ty: ty@,
                from: from@,
            },
            Op::LoadArg { dst, ty, from } => Inst::LoadArg {
                dst: dst as int,
                ty: ty@,
                from: from@,
            },
            Op::Store { ty, src, to } => Inst::Store { ty: ty@, src: src as int, to: to as int },
            Op::StorePtr { ty, src, to } => Inst::StorePtr {
                ty: ty@,
                src: src as int,
                to: to as int,
            },
            Op::StoreParam { ty, name, to } => Inst::StoreParam {
                ty: ty@,
                name: name@,
                to: to as int,
            },
            Op::StoreResult { ty, src, to } => Inst::StoreResult {
                ty: ty@,
                src: src as int,
                to: to as int,
            },
            Op::StoreImm { ty, value, to } => Inst::StoreImm {
                ty: ty@,
                value: value@,
                to: to as int,
            },
            Op::StoreVar { ty, src, target } => Inst::StoreVar {
                ty: ty@,
                src: src as int,
                target: target@,
            },
            Op::Binary { dst, op, lhs, rhs } => Inst::Binary {
                dst: dst as int,
                op,
                lhs: lhs as int,
                rhs: rhs as int,
            },
            Op::Call { result, ret, name, args } => Inst::Call {
                result: match result {
                    Some(id) => Some(id as int),
                    None => None,
                },
                ret: ret@,
                name: name@,
                args: crate::sema::pairs_view(args@),
            },
            Op::Ret { ty, src } => Inst::Ret { ty: ty@, src: src as int },
            Op::RetVoid => Inst::RetVoid,
            Op::Branch { cond, then_label, else_label } => Inst::Branch {
                cond: cond as int,
                then_label: then_label as int,
                else_label: else_label as int,
            },
            Op::Jump { label } => Inst::Jump { label: label as int },
            Op::Label { id } => Inst::Label { id: id as int },
        }
    }
}

/// Appends to `out` the pairs of `items`, each as its first part, `inner`
/// and its second part, with `outer` between one pair and the next.
fn append_pairs(out: &mut String, items: &Vec<(String, String)>, outer: &str, inner: &str)
    ensures
        final(out)@ == old(out)@ + pairs_text(crate::sema::pairs_view(items@), outer@, inner@),
{
    let ghost pairs = crate::sema::pairs_view(items@);
    let mut i: usize = 0;
    assert(out@ =~= old(out)@ + pairs_text(pairs.take(0), outer@, inner@));
    while i < items.len()
        invariant
            i <= items.len(),
            pairs == crate::sema::pairs_view(items@),
            out@ == old(out)@ + pairs_text(pairs.take(i as int), outer@, inner@),
        decreases items.len() - i,
    {
        let ghost before = pairs.take(i as int);
        let ghost after = pairs.take(i as int + 1);
        assert(after.drop_last() =~= before);
        assert(after.last() == (items@[i as int].0@, items@[i as int].1@));
        if i > 0 {
            out.append(outer);
        }
        out.append(items[i].0.as_str());
        out.append(inner);
        out.append(items[i].1.as_str());
        assert(out@ =~= old(out)@ + pairs_text(after, outer@, inner@));
        i = i + 1;
    }
    assert(pairs.take(items.len() as int) =~= pairs);
}

/// A list of pairs as text: each pair as its first part, `inner` and its
/// second part, with `outer` between one pair and the next.
pub open spec fn pairs_text(
    pairs: Seq<(Seq<char>, Seq<char>)>,
    outer: Seq<char>,
    inner: Seq<char>,
) -> Seq<char>
    decreases pairs.len(),
{
    if pairs.len() == 0 {
        Seq::empty()
    } else if pairs.len() == 1 {
        pairs[0].0 + inner + pairs[0].1
    } else {
        pairs_text(pairs.drop_last(), outer, inner) + outer + pairs.last().0 + inner
            + pairs.last().1
    }
}

/// The text of `op`.
pub fn render_op(op: &Op) -> (s: String)
    ensures
        s@ == inst_text(op@),
{
    match *op {
        Op::Target { triple } => {
            let mut s = String::from_str("target triple = \"");
            s.append(triple);
            s.append("\"\n");
            s
        },
        Op::Extern { line } => String::from_str(line),
        Op::Global { id, ty, init } => {
            let mut s = String::from_str("@");
            s.append(signed_string(id).as_str());
            s.append(" = global ");
            if *ty == *"i8*" {
                s.append(" ");
            } else {
                s.append(ty);
                s.append(" ");
            }
            s.append(init);
            s.append("\n");
            s
        },
        Op::Define { ret, name, params } => {
            let mut s = String::from_str("define ");
            s.append(ret);
            s.append(" @");
            s.append(name);
            s.append("(");
            append_pairs(&mut s, params, ", ", " %");
            s.append(") {\n");
            s.append("entry:\n");
            s
        },
        Op::EndDefine => String::from_str("}\n"),
        Op::Alloca { dst, ty } => {
            let mut s = String::from_str("\t%");
            s.append(signed_string(dst).as_str());
            s.append(" = alloca ");
            s.append(ty);
            s.append("\n");
            s
        },
        Op::AllocaResult { dst, ty } => {
            let mut s = String::from_str("\t%");
            s.append(signed_string(dst).as_str());
            s.append(" = alloca ");
            s.append(ty);
            s.append(" \n");
            s
        },
        Op::Load { dst, ty, from } => {
            let mut s = String::from_str("\t%");
            s.append(signed_string(dst).as_str());
            s.append(" = load ");
            s.append(ty);
            s.append(", ");
            s.append(ty);
            s.append("* ");
            s.append(from);
            s.append("\n");
            s
        },
        Op::LoadPtr { dst, ty, from } => {
            let mut s = String::from_str("\t%");
            s.append(signed_string(dst).as_str());
            s.append(" = load ");
            s.append(ty);
            s.append(", ptr ");
            s.append(from);
            s.append("\n");
            s
        },
        Op::LoadArg { dst, ty, from } => {
            let mut s = String::from_str("\t%");
            s.append(signed_string(dst).as_str());
            s.append(" = load ");
            s.append(ty);
            s.append(" , ");
            s.append(ty);
            s.append("* ");
            s.append(from);
            s.append("\n");
            s
        },
        Op::Store { ty, src, to } => {
            let mut s = String::from_str("\tstore ");
            s.append(ty);
            s.append(" %");
            s.append(signed_string(src).as_str());
            s.append(", ");
            s.append(ty);
            s.append("* %");
            s.append(signed_string(to).as_str());
            s.append("\n");
            s
        },
        Op::StorePtr { ty, src, to } => {
            let mut s = String::from_str("\tstore ");
            s.append(ty);
            s.append(" %");
            s.append(signed_string(src).as_str());
            s.append(", ptr %");
            s.append(signed_string(to).as_str());
            s.append("\n");
            s
        },
        Op::StoreParam { ty, name, to } => {
            let mut s = String::from_str("\tstore ");
            s.append(ty);
            s.append(" %");
            s.append(name);
            s.append(",ptr %");
            s.append(signed_string(to).as_str());
            s.append("\n");
            s
        },
        Op::StoreResult { ty, src, to } => {
            let mut s = String::from_str("\tstore ");
            s.append(ty);
            s.append(" %");
            s.append(signed_string(src).as_str());
            s.append(",ptr %");
            s.append(signed_string(to).as_str());
            s.append(" \n");
            s
        },
        Op::StoreImm { ty, value, to } => {
            let mut s = String::from_str("\tstore ");
            s.append(ty);
            s.append(" ");
            s.append(value);
            s.append(", ");
            s.append(ty);
            s.append("* %");
            s.append(signed_string(to).as_str());
            s.append("\n");
            s
        },
        Op::StoreVar { ty, src, target } => {
            let mut s = String::from_str("\tstore ");
            s.append(ty);
            s.append(" %");
            s.append(signed_string(src).as_str());
            s.append(", ptr ");
            s.append(target);
            s.append("\n");
            s
        },
        Op::Binary { dst, op, lhs, rhs } => {
            let mut s = String::from_str("\t%");
            s.append(signed_string(dst).as_str());
            s.append(" = ");
            s.append(mnemonic_of(op));
            s.append(" %");
            s.append(signed_string(lhs).as_str());
            s.append(", %");
            s.append(signed_string(rhs).as_str());
            s.append("\n");
            s
        },
        Op::Call { result, ret, name, args } => {
            let mut s = match result {
                Some(id) => {
                    let mut head = String::from_str("\t%");
                    head.append(signed_string(id).as_str());
                    head.append(" = call ");
                    head
                },
                None => String::from_str("\tcall "),
            };
            s.append(ret);
            s.append(" @");
            s.append(name);
            s.append("(");
            append_pairs(&mut s, args, ",", " ");
            s.append(")\n");
            s
        },
        Op::Ret { ty, src } => {
            let mut s = String::from_str("\tret ");
            s.append(ty);
            s.append(" %");
            s.append(signed_string(src).as_str());
            s.append("\n");
            s
        },
        Op::RetVoid => String::from_str("ret void\n"),
        Op::Branch { cond, then_label, else_label } => {
            let mut s = String::from_str("\tbr i1 %");
            s.append(signed_string(cond).as_str());
            s.append(", label %__");
            s.append(signed_string(then_label).as_str());
            s.append(", label %__");
            s.append(signed_string(else_label).as_str());
            s.append("\n");
            s
        },
        Op::Jump { label } => {
            let mut s = String::from_str("\tbr label %__");
            s.append(signed_string(label).as_str());
            s.append("\n");
            s
        },
        Op::Label { id } => {
            let mut s = String::from_str("__");
            s.append(signed_string(id).as_str());
            s.append(":\n");
            s
        },
    }
}

/// The type and mnemonic of a binary operation.
fn mnemonic_of(op: BinOp) -> (s: &'static str)
    ensures
        s@ == mnemonic(op),
{
    match op {
        BinOp::Add => "add i32",
        BinOp::Sub => "sub i32",
        BinOp::Mul => "mul i32",
        BinOp::Div => "udiv i32",
        BinOp::Equal => "icmp eq i32",
    }
}

} // verus!
