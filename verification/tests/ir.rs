use ika::codegen_lib::generate_lib;
use ika::ir::{render_op, BinOp, Op};

fn pairs(items: &[(&str, &str)]) -> Vec<(String, String)> {
    items.iter().map(|(a, b)| (a.to_string(), b.to_string())).collect()
}

#[test]
fn module_head() {
    assert_eq!(
        render_op(&Op::Target { triple: "x86_64-apple-darwin" }),
        "target triple = \"x86_64-apple-darwin\"\n"
    );
    assert_eq!(render_op(&Op::Extern { line: "declare i32 @len(i8*) nounwind\n" }),
        "declare i32 @len(i8*) nounwind\n");
}

#[test]
fn runtime_library() {
    assert_eq!(
        generate_lib(),
        vec![
            "declare i32 @echo(i8*, i32) nounwind\n".to_string(),
            "declare i8* @string(i32*) nounwind\n".to_string(),
            "declare i32 @len(i8*) nounwind\n".to_string(),
            "declare i32 @write(i32, i8*, i32) nounwind\n".to_string(),
            "@int_to_string.result =  external global [12 x i8] \n".to_string(),
        ]
    );
}

#[test]
fn global_instructions() {
    assert_eq!(render_op(&Op::Global { id: 3, ty: "i32", init: "6" }), "@3 = global i32 6\n");
    assert_eq!(
        render_op(&Op::Global { id: 0, ty: "i8*", init: "[3 x i8] c\"hi\\00\"" }),
        "@0 = global  [3 x i8] c\"hi\\00\"\n"
    );
}

#[test]
fn definitions() {
    let none = pairs(&[]);
    let one = pairs(&[("i32", "a")]);
    let two = pairs(&[("i32", "a"), ("i8*", "s")]);
    assert_eq!(
        render_op(&Op::Define { ret: "void", name: "f", params: &none }),
        "define void @f() {\nentry:\n"
    );
    assert_eq!(
        render_op(&Op::Define { ret: "i32", name: "g", params: &one }),
        "define i32 @g(i32 %a) {\nentry:\n"
    );
    assert_eq!(
        render_op(&Op::Define { ret: "i32", name: "main", params: &two }),
        "define i32 @main(i32 %a, i8* %s) {\nentry:\n"
    );
    assert_eq!(render_op(&Op::EndDefine), "}\n");
}

#[test]
fn slots() {
    assert_eq!(render_op(&Op::Alloca { dst: 12, ty: "i32" }), "\t%12 = alloca i32\n");
    assert_eq!(render_op(&Op::AllocaResult { dst: 5, ty: "i8*" }), "\t%5 = alloca i8* \n");
}

#[test]
fn loads() {
    assert_eq!(
        render_op(&Op::Load { dst: 2, ty: "i32", from: "%1" }),
        "\t%2 = load i32, i32* %1\n"
    );
    assert_eq!(
        render_op(&Op::LoadPtr { dst: 2, ty: "i1", from: "@1" }),
        "\t%2 = load i1, ptr @1\n"
    );
    assert_eq!(
        render_op(&Op::LoadArg { dst: 2, ty: "i32", from: "%1" }),
        "\t%2 = load i32 , i32* %1\n"
    );
}

#[test]
fn stores() {
    assert_eq!(
        render_op(&Op::Store { ty: "i32", src: 2, to: 1 }),
        "\tstore i32 %2, i32* %1\n"
    );
    assert_eq!(
        render_op(&Op::StorePtr { ty: "i1", src: 2, to: 3 }),
        "\tstore i1 %2, ptr %3\n"
    );
    assert_eq!(
        render_op(&Op::StoreParam { ty: "i32", name: "a", to: 0 }),
        "\tstore i32 %a,ptr %0\n"
    );
    assert_eq!(
        render_op(&Op::StoreResult { ty: "i32", src: 4, to: 5 }),
        "\tstore i32 %4,ptr %5 \n"
    );
    assert_eq!(
        render_op(&Op::StoreImm { ty: "i32", value: "7", to: 1 }),
        "\tstore i32 7, i32* %1\n"
    );
    assert_eq!(
        render_op(&Op::StoreVar { ty: "i32", src: 4, target: "@0" }),
        "\tstore i32 %4, ptr @0\n"
    );
}

#[test]
fn operations() {
    let cases = [
        (BinOp::Add, "add i32"),
        (BinOp::Sub, "sub i32"),
        (BinOp::Mul, "mul i32"),
        (BinOp::Div, "udiv i32"),
        (BinOp::Equal, "icmp eq i32"),
    ];
    for (op, text) in cases {
        assert_eq!(
            render_op(&Op::Binary { dst: 3, op, lhs: 1, rhs: 2 }),
            format!("\t%3 = {} %1, %2\n", text)
        );
    }
}

#[test]
fn call_instructions() {
    let none = pairs(&[]);
    let one = pairs(&[("i32", "%1")]);
    let three = pairs(&[("i8*", "%1"), ("i32", "%2"), ("i32", "%2")]);
    assert_eq!(
        render_op(&Op::Call { result: None, ret: "void", name: "f", args: &none }),
        "\tcall void @f()\n"
    );
    assert_eq!(
        render_op(&Op::Call { result: Some(9), ret: "i32", name: "g", args: &one }),
        "\t%9 = call i32 @g(i32 %1)\n"
    );
    assert_eq!(
        render_op(&Op::Call { result: Some(9), ret: "i32", name: "echo", args: &three }),
        "\t%9 = call i32 @echo(i8* %1,i32 %2,i32 %2)\n"
    );
}

#[test]
fn control_flow() {
    assert_eq!(render_op(&Op::Ret { ty: "i32", src: 8 }), "\tret i32 %8\n");
    assert_eq!(render_op(&Op::Ret { ty: "i8*", src: 2 }), "\tret i8* %2\n");
    assert_eq!(render_op(&Op::RetVoid), "ret void\n");
    assert_eq!(
        render_op(&Op::Branch { cond: 4, then_label: 5, else_label: 7 }),
        "\tbr i1 %4, label %__5, label %__7\n"
    );
    assert_eq!(render_op(&Op::Jump { label: 6 }), "\tbr label %__6\n");
    assert_eq!(render_op(&Op::Label { id: 6 }), "__6:\n");
}
