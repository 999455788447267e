use ika::codegen::{turn_to_llvm_type, Codegen, Info};
use ika::lexer::{tokenization, Token, TokenType, LEXER};
use ika::lower::{CodegenError, CodegenErrorKind};
use ika::parser::{ASTNode, Parser};
use ika::sema::lib_insert_symbol;
use ika::SrcInfo;

fn prologue() -> String {
    let mut text = String::from("target triple = \"x86_64-unknown-linux-gnu\"\n");
    text.push_str("declare i32 @echo(i8*, i32) nounwind\n");
    text.push_str("declare i8* @string(i32*) nounwind\n");
    text.push_str("declare i32 @len(i8*) nounwind\n");
    text.push_str("declare i32 @write(i32, i8*, i32) nounwind\n");
    text.push_str("@int_to_string.result =  external global [12 x i8] \n");
    text
}

fn linux() -> SrcInfo {
    SrcInfo { target_triple: String::from("x86_64-unknown-linux-gnu") }
}

fn number(text: &str) -> ASTNode {
    ASTNode::Number(String::from(text))
}

fn text(value: &str) -> ASTNode {
    ASTNode::String(String::from(value))
}

fn name(value: &str) -> ASTNode {
    ASTNode::Identifier(String::from(value))
}

fn infix(left: ASTNode, op: &str, right: ASTNode) -> ASTNode {
    ASTNode::InfixExpression {
        left_expr: Box::new(left),
        op: String::from(op),
        right_expr: Box::new(right),
    }
}

fn variable(ty: &str, identifier: &str, value: Option<ASTNode>) -> ASTNode {
    ASTNode::VariableDefinition {
        var_type: String::from(ty),
        identifier: String::from(identifier),
        var_value: value.map(Box::new),
    }
}

fn assign(identifier: &str, value: ASTNode) -> ASTNode {
    ASTNode::Assignment { identifier: String::from(identifier), var_value: Some(Box::new(value)) }
}

fn call(callee: &str, argument: Vec<ASTNode>) -> ASTNode {
    ASTNode::FunctionCall { fn_name: String::from(callee), argument }
}

fn ret(value: ASTNode) -> ASTNode {
    ASTNode::Return(Box::new(value))
}

fn function(fn_name: &str, parameters: &[(&str, &str)], ret_type: Option<&str>, body: Vec<ASTNode>) -> ASTNode {
    ASTNode::FunctionDefinition {
        fn_name: String::from(fn_name),
        parameters: parameters.iter().map(|(t, n)| (t.to_string(), n.to_string())).collect(),
        ret_type: ret_type.map(String::from),
        body,
    }
}

fn conditional(condition: ASTNode, if_body: Vec<ASTNode>, else_body: Option<Vec<ASTNode>>) -> ASTNode {
    ASTNode::IfElse { condition: Box::new(condition), if_body, elif_body: None, else_body }
}

/// The module of a program, without the prologue.
fn lowered(statements: Vec<ASTNode>) -> String {
    let mut generator = Codegen::new();
    let module = generator.generate_code(&ASTNode::Program(statements), &linux()).unwrap();
    let head = prologue();
    assert!(module.starts_with(&head));
    module[head.len()..].to_string()
}

fn error(statements: Vec<ASTNode>) -> CodegenError {
    let mut generator = Codegen::new();
    generator.generate_code(&ASTNode::Program(statements), &linux()).unwrap_err()
}

fn failure(statements: Vec<ASTNode>) -> CodegenErrorKind {
    error(statements).kind
}

/// The instructions of the body of `main`, lowered after the module
/// prologue, without the head and the end of the definition.
fn in_main(body: Vec<ASTNode>) -> String {
    let module = lowered(vec![function("main", &[], Some("i32"), body)]);
    let head = "define i32 @main() {\nentry:\n";
    assert!(module.starts_with(head));
    assert!(module.ends_with("}\n"));
    module[head.len()..module.len() - 2].to_string()
}

fn fails_in_main(body: Vec<ASTNode>) -> CodegenErrorKind {
    failure(vec![function("main", &[], Some("i32"), body)])
}

#[test]
fn global_initializer_is_folded() {
    let module = lowered(vec![variable(
        "i32",
        "a",
        Some(infix(infix(number("1"), "*", number("2")), "+", number("4"))),
    )]);
    assert_eq!(module, "@0 = global i32 6\n");
}

#[test]
fn module_starts_with_the_prologue() {
    let mut generator = Codegen::new();
    let module = generator.generate_code(&ASTNode::Program(vec![]), &linux()).unwrap();
    assert_eq!(module, prologue());
    let mut generator = Codegen::new();
    let other = SrcInfo { target_triple: String::from("x86_64-pc-windows-msvc") };
    let module = generator.generate_code(&number("1"), &other).unwrap();
    assert!(module.starts_with("target triple = \"x86_64-pc-windows-msvc\"\ndeclare i32 @echo"));
    assert_eq!(module.lines().count(), 6);
}

#[test]
fn globals() {
    assert_eq!(lowered(vec![variable("i32", "a", Some(number("5")))]), "@0 = global i32 5\n");
    assert_eq!(lowered(vec![variable("i32", "a", None)]), "@0 = global i32 0\n");
    assert_eq!(
        lowered(vec![variable("str", "s", Some(text("hi")))]),
        "@0 = global  [3 x i8] c\"hi\\00\"\n"
    );
    assert_eq!(lowered(vec![variable("str", "s", None)]), "@0 = global  0\n");
    assert_eq!(
        lowered(vec![variable("i32", "a", Some(number("007"))), variable("ptr", "p", None)]),
        "@0 = global i32 007\n@1 = global ptr 0\n"
    );
    assert_eq!(
        lowered(vec![variable("i32", "a", Some(number("1"))), variable("i32", "b", Some(name("a")))]),
        "@0 = global i32 1\n@1 = global i32 @0\n"
    );
}

#[test]
fn constant_folding() {
    let fold = |left: &str, op: &str, right: &str| {
        lowered(vec![variable("i32", "a", Some(infix(number(left), op, number(right))))])
    };
    assert_eq!(fold("2", "+", "3"), "@0 = global i32 5\n");
    assert_eq!(fold("2", "-", "3"), "@0 = global i32 -1\n");
    assert_eq!(fold("6", "*", "7"), "@0 = global i32 42\n");
    assert_eq!(fold("7", "/", "2"), "@0 = global i32 3\n");
    assert_eq!(fold("1", "==", "1"), "@0 = global i32 1\n");
    assert_eq!(fold("1", "==", "2"), "@0 = global i32 0\n");
    assert_eq!(fold("2147483647", "+", "0"), "@0 = global i32 2147483647\n");
    assert_eq!(fold("46341", "*", "46340"), "@0 = global i32 2147441940\n");
}

#[test]
fn division_rounds_toward_zero() {
    let minus = |value: &str| infix(number("0"), "-", number(value));
    let fold = |left: ASTNode, right: ASTNode| {
        lowered(vec![variable("i32", "a", Some(infix(left, "/", right)))])
    };
    assert_eq!(fold(minus("7"), number("2")), "@0 = global i32 -3\n");
    assert_eq!(fold(number("7"), minus("2")), "@0 = global i32 -3\n");
    assert_eq!(fold(minus("7"), minus("2")), "@0 = global i32 3\n");
    assert_eq!(fold(minus("1"), number("2")), "@0 = global i32 0\n");
}

#[test]
fn constants_that_cannot_be_folded() {
    let fold = |left: ASTNode, op: &str, right: ASTNode| {
        failure(vec![variable("i32", "a", Some(infix(left, op, right)))])
    };
    assert_eq!(fold(number("1"), "/", number("0")), CodegenErrorKind::ConstantFold);
    assert_eq!(fold(number("2147483647"), "+", number("1")), CodegenErrorKind::ConstantFold);
    assert_eq!(fold(number("65536"), "*", number("65536")), CodegenErrorKind::ConstantFold);
    assert_eq!(
        fold(infix(number("0"), "-", number("2147483647")), "-", number("2")),
        CodegenErrorKind::ConstantFold
    );
    assert_eq!(fold(number("2147483648"), "+", number("0")), CodegenErrorKind::ConstantFold);
    assert_eq!(fold(text("a"), "+", number("1")), CodegenErrorKind::ConstantFold);
    assert_eq!(fold(number("1"), "%", number("2")), CodegenErrorKind::InvalidNode);
    assert_eq!(
        failure(vec![
            variable("i32", "a", Some(number("1"))),
            variable("i32", "b", Some(infix(name("a"), "+", number("1")))),
        ]),
        CodegenErrorKind::ConstantFold
    );
}

#[test]
fn local_sum_uses_three_slots() {
    let body = in_main(vec![
        variable("i32", "a", Some(infix(number("1"), "+", number("2")))),
        ret(name("a")),
    ]);
    let expected = "\t%1 = alloca i32\n\
\t%2 = alloca i32\n\tstore i32 1, i32* %2\n\
\t%3 = alloca i32\n\tstore i32 2, i32* %3\n\
\t%4 = load i32, i32* %2\n\t%5 = load i32, i32* %3\n\
\t%6 = add i32 %4, %5\n\
\t%7 = alloca i32\n\tstore i32 %6, ptr %7\n\
\t%8 = load i32, i32* %7\n\tstore i32 %8, i32* %1\n\
\t%9 = load i32, i32* %1\n\tret i32 %9\n";
    assert_eq!(body, expected);
    assert!(body.matches(" = alloca ").count() >= 3);
}

#[test]
fn local_operations() {
    for (op, instruction, ty) in [
        ("+", "add i32", "i32"),
        ("-", "sub i32", "i32"),
        ("*", "mul i32", "i32"),
        ("/", "udiv i32", "i32"),
        ("==", "icmp eq i32", "i1"),
    ] {
        let body = in_main(vec![variable("i32", "a", None), ret(infix(name("a"), op, name("a")))]);
        let expected = format!(
            "\t%1 = alloca i32\n\
\t%2 = load i32, i32* %1\n\t%3 = load i32, i32* %1\n\
\t%4 = {instruction} %2, %3\n\
\t%5 = alloca {ty}\n\tstore {ty} %4, ptr %5\n\
\t%6 = load i32, i32* %5\n\tret i32 %6\n"
        );
        assert_eq!(body, expected);
    }
}

#[test]
fn local_literals() {
    assert_eq!(
        in_main(vec![variable("str", "s", Some(text("hi")))]),
        "\t%1 = alloca i8*\n\
\t%2 = alloca [3 x i8]\n\tstore [3 x i8] c\"hi\\00\", [3 x i8]* %2\n\
\t%3 = load i8*, i8** %2\n\tstore i8* %3, i8** %1\n"
    );
    assert_eq!(
        in_main(vec![ret(text(""))]),
        "\t%1 = alloca [1 x i8]\n\tstore [1 x i8] c\"\\00\", [1 x i8]* %1\n\
\t%2 = load i32, i32* %1\n\tret i32 %2\n"
    );
    assert_eq!(
        in_main(vec![ret(text("é語"))]),
        "\t%1 = alloca [6 x i8]\n\tstore [6 x i8] c\"é語\\00\", [6 x i8]* %1\n\
\t%2 = load i32, i32* %1\n\tret i32 %2\n"
    );
}

#[test]
fn parameters_get_slots() {
    let module = lowered(vec![function(
        "add",
        &[("i32", "a"), ("str", "s")],
        Some("i32"),
        vec![ret(infix(name("a"), "+", name("a")))],
    )]);
    let expected = "define i32 @add(i32 %a, i8* %s) {\nentry:\n\
\t%0 = alloca i32\n\tstore i32 %a,ptr %0\n\
\t%1 = alloca i8*\n\tstore i8* %s,ptr %1\n\
\t%3 = load i32, i32* %0\n\t%4 = load i32, i32* %0\n\
\t%5 = add i32 %3, %4\n\
\t%6 = alloca i32\n\tstore i32 %5, ptr %6\n\
\t%7 = load i32, i32* %6\n\tret i32 %7\n\
}\n";
    assert_eq!(module, expected);
}

#[test]
fn function_without_value_returns_void() {
    assert_eq!(
        lowered(vec![function("f", &[], None, vec![])]),
        "define void @f() {\nentry:\nret void\n}\n"
    );
    assert_eq!(
        lowered(vec![function("f", &[], Some("void"), vec![])]),
        "define void @f() {\nentry:\nret void\n}\n"
    );
    assert_eq!(
        lowered(vec![function("f", &[], Some("str"), vec![])]),
        "define i8* @f() {\nentry:\n}\n"
    );
}

#[test]
fn calls_pass_values_and_references() {
    let body = in_main(vec![call("echo", vec![text("hi"), number("2")])]);
    let expected = "\t%1 = alloca [3 x i8]\n\tstore [3 x i8] c\"hi\\00\", [3 x i8]* %1\n\
\t%2 = alloca i32\n\tstore i32 2, i32* %2\n\
\t%3 = load i32 , i32* %2\n\
\t%4 = call i32 @echo(i8* %1,i32 %3)\n\
\t%5 = alloca i32 \n\tstore i32 %4,ptr %5 \n";
    assert_eq!(body, expected);
}

#[test]
fn pointer_parameters_receive_the_slot() {
    let body = in_main(vec![variable("i32", "n", None), ret(call("string", vec![name("n")]))]);
    let expected = "\t%1 = alloca i32\n\
\t%2 = call i8* @string(i32* %1)\n\
\t%3 = alloca i8* \n\tstore i8* %2,ptr %3 \n\
\t%4 = load i32, i32* %3\n\tret i32 %4\n";
    assert_eq!(body, expected);
}

#[test]
fn call_of_a_function_without_value() {
    let module = lowered(vec![
        function("f", &[("i32", "x"), ("str", "s")], None, vec![]),
        function("main", &[], Some("i32"), vec![call("f", vec![number("1"), text("a")]), ret(number("0"))]),
    ]);
    let expected = "define void @f(i32 %x, i8* %s) {\nentry:\n\
\t%0 = alloca i32\n\tstore i32 %x,ptr %0\n\
\t%1 = alloca i8*\n\tstore i8* %s,ptr %1\n\
ret void\n}\n\
define i32 @main() {\nentry:\n\
\t%4 = alloca i32\n\tstore i32 1, i32* %4\n\
\t%5 = load i32 , i32* %4\n\
\t%6 = alloca [2 x i8]\n\tstore [2 x i8] c\"a\\00\", [2 x i8]* %6\n\
\tcall void @f(i32 %5,i8* %6)\n\
\t%8 = alloca i32\n\tstore i32 0, i32* %8\n\
\t%9 = load i32, i32* %8\n\tret i32 %9\n\
}\n";
    assert_eq!(module, expected);
}

#[test]
fn assignment_stores_the_loaded_value() {
    let body = in_main(vec![variable("i32", "a", None), assign("a", number("2"))]);
    let expected = "\t%1 = alloca i32\n\
\t%2 = alloca i32\n\tstore i32 2, i32* %2\n\
\t%3 = load i32, ptr %2\n\tstore i32 %3, ptr %1\n";
    assert_eq!(body, expected);
    let module = lowered(vec![
        variable("i32", "g", Some(number("1"))),
        function("main", &[], Some("i32"), vec![assign("g", name("g"))]),
    ]);
    assert_eq!(
        module,
        "@0 = global i32 1\ndefine i32 @main() {\nentry:\n\
\t%2 = load i32, ptr @0\n\tstore i32 %2, ptr @0\n}\n"
    );
}

#[test]
fn conditional_with_else() {
    let body = in_main(vec![
        variable("i32", "a", None),
        conditional(
            infix(name("a"), "==", name("a")),
            vec![assign("a", name("a"))],
            Some(vec![ret(name("a"))]),
        ),
    ]);
    let expected = "\t%1 = alloca i32\n\
\t%2 = load i32, i32* %1\n\t%3 = load i32, i32* %1\n\
\t%4 = icmp eq i32 %2, %3\n\
\t%5 = alloca i1\n\tstore i1 %4, ptr %5\n\
\t%6 = load i1, ptr %5\n\
\tbr i1 %6, label %__7, label %__9\n\
__7:\n\
\t%10 = load i32, ptr %1\n\tstore i32 %10, ptr %1\n\
\tbr label %__8\n\
__9:\n\
\t%11 = load i32, i32* %1\n\tret i32 %11\n\
__8:\n";
    assert_eq!(body, expected);
}

#[test]
fn conditional_without_else() {
    let body = in_main(vec![
        variable("i32", "a", None),
        conditional(name("a"), vec![], None),
        ret(name("a")),
    ]);
    let expected = "\t%1 = alloca i32\n\
\t%2 = load i1, ptr %1\n\
\tbr i1 %2, label %__3, label %__4\n\
__3:\n\
\tbr label %__4\n\
__4:\n\
\t%5 = load i32, i32* %1\n\tret i32 %5\n";
    assert_eq!(body, expected);
}

/// The blocks of a function body: each a label and the lines up to the
/// next label.
fn blocks(body: &str) -> Vec<(String, Vec<String>)> {
    let mut found: Vec<(String, Vec<String>)> = vec![(String::from("entry"), vec![])];
    for line in body.lines() {
        if line.starts_with("__") && line.ends_with(':') {
            found.push((line[..line.len() - 1].to_string(), vec![]));
        } else {
            found.last_mut().unwrap().1.push(line.to_string());
        }
    }
    found
}

fn is_terminator(line: &str) -> bool {
    line.starts_with("\tbr ") || line.starts_with("\tret ") || line == "ret void"
}

#[test]
fn arms_end_with_one_jump_to_the_merge_label() {
    for with_else in [false, true] {
        let else_body = if with_else {
            Some(vec![assign("a", number("3")), call("echo", vec![text("no"), number("2")])])
        } else {
            None
        };
        let body = in_main(vec![
            variable("i32", "a", Some(number("1"))),
            conditional(
                infix(name("a"), "==", number("1")),
                vec![assign("a", infix(name("a"), "+", number("2"))), variable("i32", "b", None)],
                else_body,
            ),
            ret(name("a")),
        ]);
        let found = blocks(&body);
        let arms = if with_else { 2 } else { 1 };
        assert_eq!(found.len(), arms + 2);
        let merge = found.last().unwrap().0.clone();
        let labels: Vec<&String> = found.iter().map(|(label, _)| label).collect();
        assert_eq!(labels.iter().filter(|label| ***label == merge).count(), 1);
        for (label, lines) in &found[1..=arms] {
            assert_ne!(*label, merge);
            let terminators = lines.iter().filter(|line| is_terminator(line)).count();
            assert_eq!(terminators, 1, "block {}", label);
            assert_eq!(lines.last().unwrap(), &format!("\tbr label %{}", merge));
        }
        let entry = &found[0].1;
        assert_eq!(entry.iter().filter(|line| is_terminator(line)).count(), 1);
        assert!(entry.last().unwrap().starts_with("\tbr i1 "));
    }
}

#[test]
fn nested_conditionals_have_labels_of_their_own() {
    let inner = conditional(name("a"), vec![assign("a", number("1"))], Some(vec![]));
    let body = in_main(vec![
        variable("i32", "a", None),
        conditional(name("a"), vec![inner], None),
        conditional(name("a"), vec![], None),
    ]);
    let found = blocks(&body);
    let mut labels: Vec<String> = found.iter().map(|(label, _)| label.clone()).collect();
    assert_eq!(labels.len(), 8);
    labels.sort();
    labels.dedup();
    assert_eq!(labels.len(), 8);
}

#[test]
fn arm_without_condition_is_refused() {
    let with = ASTNode::IfElse {
        condition: Box::new(name("a")),
        if_body: vec![],
        elif_body: Some(vec![assign("a", number("1"))]),
        else_body: None,
    };
    assert_eq!(fails_in_main(vec![variable("i32", "a", None), with]), CodegenErrorKind::InvalidNode);
    let empty = ASTNode::IfElse {
        condition: Box::new(name("a")),
        if_body: vec![],
        elif_body: Some(vec![]),
        else_body: Some(vec![]),
    };
    assert_eq!(fails_in_main(vec![variable("i32", "a", None), empty]), CodegenErrorKind::InvalidNode);
}

#[test]
fn nearest_declaration_wins() {
    let through_parameter = lowered(vec![function("f", &[("i32", "a")], Some("i32"), vec![ret(name("a"))])]);
    assert!(through_parameter.ends_with("\t%2 = load i32, i32* %0\n\tret i32 %2\n}\n"));
    let through_local = lowered(vec![function(
        "f",
        &[("i32", "a")],
        Some("i32"),
        vec![assign("a", name("a")), variable("i32", "a", None), ret(name("a"))],
    )]);
    let expected = "define i32 @f(i32 %a) {\nentry:\n\
\t%0 = alloca i32\n\tstore i32 %a,ptr %0\n\
\t%2 = load i32, ptr %0\n\tstore i32 %2, ptr %0\n\
\t%3 = alloca i32\n\
\t%4 = load i32, i32* %3\n\tret i32 %4\n\
}\n";
    assert_eq!(through_local, expected);
}

#[test]
fn local_hides_global() {
    let module = lowered(vec![
        variable("i32", "a", Some(number("1"))),
        function(
            "f",
            &[],
            Some("i32"),
            vec![assign("a", name("a")), variable("i32", "a", None), ret(name("a"))],
        ),
    ]);
    let expected = "@0 = global i32 1\n\
define i32 @f() {\nentry:\n\
\t%2 = load i32, ptr @0\n\tstore i32 %2, ptr @0\n\
\t%3 = alloca i32\n\
\t%4 = load i32, i32* %3\n\tret i32 %4\n\
}\n";
    assert_eq!(module, expected);
}

#[test]
fn new_generator_has_no_frames() {
    let generator = Codegen::new();
    assert!(generator.sym_table.is_empty());
    let mut generator = Codegen::new();
    generator.generate_code(&ASTNode::Program(vec![]), &linux()).unwrap();
    assert_eq!(generator.sym_table.len(), 5);
    generator.generate_code(&ASTNode::Program(vec![]), &linux()).unwrap();
    assert_eq!(generator.sym_table.len(), 10);
}

#[test]
fn registry_records_global_declarations() {
    let mut generator = Codegen::new();
    generator
        .generate_code(
            &ASTNode::Program(vec![
                variable("str", "g", None),
                function("f", &[("str", "p")], Some("i32"), vec![variable("i32", "l", None)]),
            ]),
            &linux(),
        )
        .unwrap();
    match generator.sym_table[1].get("g") {
        Some(Info::Variable { tmp_name, ty, scope, size }) => {
            assert_eq!((tmp_name.as_str(), ty.as_str(), *scope, *size), ("@0", "i8*", 1, 32));
        }
        other => panic!("{:?}", other),
    }
    match generator.sym_table[1].get("f") {
        Some(Info::Function { tmp_name, ret_ty, paras, scope }) => {
            assert_eq!(tmp_name, "f");
            assert_eq!(ret_ty, "i32");
            assert_eq!(paras, &vec![String::from("i8*")]);
            assert_eq!(*scope, 1);
        }
        other => panic!("{:?}", other),
    }
    match generator.sym_table[1].get("echo") {
        Some(Info::Function { ret_ty, paras, .. }) => {
            assert_eq!(ret_ty, "i32");
            assert_eq!(paras, &vec![String::from("i8*"), String::from("i32")]);
        }
        other => panic!("{:?}", other),
    }
    assert!(generator.sym_table[0].get("g").is_none());
}

#[test]
fn function_leaves_nothing_of_its_own() {
    let mut generator = Codegen::new();
    generator
        .generate_code(
            &ASTNode::Program(vec![function(
                "f",
                &[("str", "p")],
                Some("i32"),
                vec![variable("i32", "l", None)],
            )]),
            &linux(),
        )
        .unwrap();
    for frame in &generator.sym_table {
        assert!(frame.get("p").is_none());
        assert!(frame.get("l").is_none());
    }
    assert_eq!(
        failure(vec![
            function("f", &[("i32", "p")], None, vec![variable("i32", "l", None)]),
            function("g", &[], Some("i32"), vec![ret(name("p"))]),
        ]),
        CodegenErrorKind::UnresolvedReference
    );
    assert_eq!(
        failure(vec![
            function("f", &[("i32", "p")], None, vec![variable("i32", "l", None)]),
            function("g", &[], Some("i32"), vec![ret(name("l"))]),
        ]),
        CodegenErrorKind::UnresolvedReference
    );
    assert_eq!(
        failure(vec![
            function("f", &[("i32", "p")], None, vec![]),
            variable("i32", "q", Some(name("p"))),
        ]),
        CodegenErrorKind::UnresolvedReference
    );
}

#[test]
fn parameter_is_not_hidden_by_an_earlier_function() {
    let module = lowered(vec![
        function("f", &[], None, vec![variable("i32", "a", Some(number("1")))]),
        function("g", &[("i32", "a")], Some("i32"), vec![ret(name("a"))]),
    ]);
    let expected = "define void @f() {\nentry:\n\
\t%1 = alloca i32\n\
\t%2 = alloca i32\n\tstore i32 1, i32* %2\n\
\t%3 = load i32, i32* %2\n\tstore i32 %3, i32* %1\n\
ret void\n}\n\
define i32 @g(i32 %a) {\nentry:\n\
\t%4 = alloca i32\n\tstore i32 %a,ptr %4\n\
\t%6 = load i32, i32* %4\n\tret i32 %6\n\
}\n";
    assert_eq!(module, expected);
}

#[test]
fn parameters_resolve_to_their_own_slots() {
    let module = lowered(vec![function(
        "f",
        &[("i32", "a"), ("str", "b"), ("i32", "c")],
        Some("i32"),
        vec![assign("c", name("a")), assign("a", name("c")), ret(name("b"))],
    )]);
    let expected = "define i32 @f(i32 %a, i8* %b, i32 %c) {\nentry:\n\
\t%0 = alloca i32\n\tstore i32 %a,ptr %0\n\
\t%1 = alloca i8*\n\tstore i8* %b,ptr %1\n\
\t%2 = alloca i32\n\tstore i32 %c,ptr %2\n\
\t%4 = load i32, ptr %0\n\tstore i32 %4, ptr %2\n\
\t%5 = load i32, ptr %2\n\tstore i32 %5, ptr %0\n\
\t%6 = load i32, i32* %1\n\tret i32 %6\n\
}\n";
    assert_eq!(module, expected);
}

#[test]
fn return_has_the_type_of_the_function() {
    let module = lowered(vec![function(
        "f",
        &[("str", "s"), ("ptr", "p")],
        Some("str"),
        vec![ret(name("s"))],
    )]);
    assert!(module.ends_with("\t%3 = load i8*, i8** %0\n\tret i8* %3\n}\n"));
    let module = lowered(vec![function("f", &[("ptr", "p")], Some("ptr"), vec![ret(name("p"))])]);
    assert!(module.ends_with("\t%2 = load ptr, ptr* %0\n\tret ptr %2\n}\n"));
}

#[test]
fn return_needs_a_function_with_a_value() {
    assert_eq!(failure(vec![ret(number("1"))]), CodegenErrorKind::InvalidNode);
    assert_eq!(
        failure(vec![function("f", &[], None, vec![ret(number("1"))])]),
        CodegenErrorKind::InvalidNode
    );
    assert_eq!(
        failure(vec![function("f", &[], Some("void"), vec![ret(number("1"))])]),
        CodegenErrorKind::InvalidNode
    );
}

#[test]
fn runtime_functions_are_declared() {
    let module = lowered(vec![function(
        "main",
        &[],
        Some("str"),
        vec![variable("i32", "n", None), ret(call("string", vec![name("n")]))],
    )]);
    assert!(module.contains("call i8* @string(i32* %1)"));
    let head = prologue();
    for callee in ["echo", "string"] {
        assert_eq!(head.matches(&format!("@{}(", callee)).count(), 1);
    }
    assert_eq!(head.matches("external global").count(), 1);
    assert!(head.contains("declare i32 @len(i8*) nounwind\n"));
    assert!(head.contains("declare i32 @write(i32, i8*, i32) nounwind\n"));
    assert!(!head.contains("itos"));
}

#[test]
fn errors_have_messages() {
    let message = |kind: CodegenErrorKind, name: &str| CodegenError::new(kind, name).message();
    assert_eq!(
        message(CodegenErrorKind::UnresolvedReference, "x"),
        "reference to a name that is not declared: x"
    );
    assert_eq!(message(CodegenErrorKind::TypeLowering, "bool"), "a type that has no lowered type: bool");
    assert_eq!(
        message(CodegenErrorKind::MalformedCall, "echo"),
        "a call with the wrong number of arguments: echo"
    );
    assert_eq!(
        CodegenError::unnamed(CodegenErrorKind::InvalidNode).message(),
        "a node that cannot be lowered where it stands: "
    );
    assert_eq!(
        message(CodegenErrorKind::ConstantFold, "/"),
        "a global initializer that is no 32-bit constant: /"
    );
    assert_eq!(CodegenError::unnamed(CodegenErrorKind::IdExhausted).message(), "no synthetic id is left: ");
    assert_eq!(CodegenErrorKind::IdExhausted.describe(), "no synthetic id is left");
}

#[test]
fn errors_name_what_they_are_about() {
    let named = |statements: Vec<ASTNode>| {
        let err = error(statements);
        (err.kind, err.name)
    };
    let in_main = |body: Vec<ASTNode>| named(vec![function("main", &[], Some("i32"), body)]);
    assert_eq!(
        in_main(vec![ret(name("missing"))]),
        (CodegenErrorKind::UnresolvedReference, String::from("missing"))
    );
    assert_eq!(
        in_main(vec![assign("target", number("1"))]),
        (CodegenErrorKind::UnresolvedReference, String::from("target"))
    );
    assert_eq!(
        in_main(vec![call("callee", vec![])]),
        (CodegenErrorKind::UnresolvedReference, String::from("callee"))
    );
    assert_eq!(
        in_main(vec![call("echo", vec![])]),
        (CodegenErrorKind::MalformedCall, String::from("echo"))
    );
    assert_eq!(
        in_main(vec![variable("bool", "b", None)]),
        (CodegenErrorKind::TypeLowering, String::from("bool"))
    );
    assert_eq!(
        named(vec![function("f", &[("bool", "b")], None, vec![])]),
        (CodegenErrorKind::TypeLowering, String::from("bool"))
    );
    assert_eq!(
        named(vec![function("f", &[("i32", "a"), ("i64", "b"), ("bool", "c")], None, vec![])]),
        (CodegenErrorKind::TypeLowering, String::from("i64"))
    );
    assert_eq!(
        named(vec![function("f", &[("bool", "b")], Some("char"), vec![])]),
        (CodegenErrorKind::TypeLowering, String::from("char"))
    );
    assert_eq!(
        in_main(vec![ret(infix(number("1"), "%", number("2")))]),
        (CodegenErrorKind::InvalidNode, String::from("%"))
    );
    assert_eq!(
        in_main(vec![function("inner", &[], None, vec![])]),
        (CodegenErrorKind::InvalidNode, String::from("inner"))
    );
    assert_eq!(
        in_main(vec![
            variable("i32", "a", None),
            ASTNode::Assignment { identifier: String::from("a"), var_value: None },
        ]),
        (CodegenErrorKind::InvalidNode, String::from("a"))
    );
    assert_eq!(
        named(vec![variable("i32", "a", Some(infix(number("1"), "/", number("0"))))]),
        (CodegenErrorKind::ConstantFold, String::from("/"))
    );
    assert_eq!(
        in_main(vec![ret(ASTNode::Program(vec![]))]),
        (CodegenErrorKind::InvalidNode, String::new())
    );
}

#[test]
fn unresolved_references() {
    assert_eq!(fails_in_main(vec![ret(name("x"))]), CodegenErrorKind::UnresolvedReference);
    assert_eq!(fails_in_main(vec![assign("x", number("1"))]), CodegenErrorKind::UnresolvedReference);
    assert_eq!(fails_in_main(vec![call("g", vec![])]), CodegenErrorKind::UnresolvedReference);
    assert_eq!(
        failure(vec![variable("i32", "v", None), function("f", &[], None, vec![call("v", vec![])])]),
        CodegenErrorKind::UnresolvedReference
    );
    assert_eq!(
        failure(vec![function("f", &[], None, vec![]), function("g", &[], Some("i32"), vec![ret(name("f"))])]),
        CodegenErrorKind::UnresolvedReference
    );
}

#[test]
fn function_may_call_itself_and_later_functions() {
    let module = lowered(vec![function(
        "f",
        &[("i32", "n")],
        Some("i32"),
        vec![ret(call("f", vec![name("n")]))],
    )]);
    assert!(module.contains("\t%3 = call i32 @f(i32 %2)\n"));
    let module = lowered(vec![
        function("f", &[], Some("i32"), vec![ret(call("g", vec![]))]),
        function("g", &[], Some("i32"), vec![ret(number("1"))]),
    ]);
    assert!(module.contains("\t%1 = call i32 @g()\n"));
    let module = lowered(vec![
        function("g", &[], Some("i32"), vec![]),
        function("f", &[], Some("i32"), vec![ret(call("g", vec![]))]),
    ]);
    assert!(module.contains("\t%2 = call i32 @g()\n"));
    let mut generator = Codegen::new();
    generator.generate_code(&ASTNode::Program(vec![]), &linux()).unwrap();
    assert_eq!(
        generator.generate_code_fundef(
            "h",
            &vec![],
            &Some(String::from("i32")),
            &vec![ret(call("h", vec![]))]
        ),
        Ok(())
    );
    assert_eq!(
        failure(vec![
            function("f", &[], Some("i32"), vec![ret(call("g", vec![]))]),
            function("g", &[], Some("bool"), vec![]),
        ]),
        CodegenErrorKind::UnresolvedReference
    );
}

#[test]
fn unknown_types() {
    assert_eq!(failure(vec![variable("bool", "a", None)]), CodegenErrorKind::TypeLowering);
    assert_eq!(fails_in_main(vec![variable("i64", "a", None)]), CodegenErrorKind::TypeLowering);
    assert_eq!(
        failure(vec![function("f", &[("i32", "a"), ("bool", "b")], None, vec![])]),
        CodegenErrorKind::TypeLowering
    );
    assert_eq!(
        failure(vec![function("f", &[], Some("bool"), vec![])]),
        CodegenErrorKind::TypeLowering
    );
}

#[test]
fn type_table() {
    assert_eq!(turn_to_llvm_type("i32"), Ok(String::from("i32")));
    assert_eq!(turn_to_llvm_type("str"), Ok(String::from("i8*")));
    assert_eq!(turn_to_llvm_type("ptr"), Ok(String::from("ptr")));
    assert_eq!(turn_to_llvm_type("void"), Ok(String::from("void")));
    assert_eq!(
        turn_to_llvm_type("i8*"),
        Err(CodegenError { kind: CodegenErrorKind::TypeLowering, name: String::from("i8*") })
    );
    assert_eq!(turn_to_llvm_type("").map_err(|e| e.kind), Err(CodegenErrorKind::TypeLowering));
}

#[test]
fn argument_count_is_checked() {
    assert_eq!(fails_in_main(vec![call("echo", vec![text("a")])]), CodegenErrorKind::MalformedCall);
    assert_eq!(
        fails_in_main(vec![call("echo", vec![text("a"), number("1"), number("2")])]),
        CodegenErrorKind::MalformedCall
    );
    assert_eq!(fails_in_main(vec![call("string", vec![])]), CodegenErrorKind::MalformedCall);
}

#[test]
fn nodes_out_of_place() {
    assert_eq!(fails_in_main(vec![ret(ASTNode::Program(vec![]))]), CodegenErrorKind::InvalidNode);
    assert_eq!(fails_in_main(vec![ret(ret(number("1")))]), CodegenErrorKind::InvalidNode);
    assert_eq!(
        fails_in_main(vec![ret(ASTNode::Expression(Box::new(number("1"))))]),
        CodegenErrorKind::InvalidNode
    );
    assert_eq!(
        fails_in_main(vec![
            variable("i32", "a", None),
            ASTNode::Assignment { identifier: String::from("a"), var_value: None },
        ]),
        CodegenErrorKind::InvalidNode
    );
    assert_eq!(
        fails_in_main(vec![ret(infix(number("1"), "%", number("2")))]),
        CodegenErrorKind::InvalidNode
    );
    assert_eq!(
        fails_in_main(vec![function("inner", &[], None, vec![])]),
        CodegenErrorKind::InvalidNode
    );
}

#[test]
fn nodes_that_are_no_statements_emit_nothing() {
    assert_eq!(lowered(vec![number("1"), name("nothing"), text("s")]), "");
    assert_eq!(
        lowered(vec![infix(number("1"), "+", number("2")), ASTNode::Program(vec![variable("i32", "a", None)])]),
        ""
    );
}

#[test]
fn lowering_is_repeatable() {
    let program = || {
        ASTNode::Program(vec![
            variable("i32", "g", Some(number("1"))),
            function(
                "main",
                &[("i32", "a")],
                Some("i32"),
                vec![
                    conditional(
                        infix(name("a"), "==", name("g")),
                        vec![call("echo", vec![text("yes"), number("3")])],
                        Some(vec![assign("a", number("0"))]),
                    ),
                    ret(name("a")),
                ],
            ),
        ])
    };
    let mut first = Codegen::new();
    let mut second = Codegen::new();
    let one = first.generate_code(&program(), &linux()).unwrap();
    let two = second.generate_code(&program().clone(), &linux()).unwrap();
    assert_eq!(program().clone(), program());
    assert_eq!(one, two);
}

#[test]
fn generator_keeps_counting() {
    let mut generator = Codegen::new();
    let first = generator.generate_code(&ASTNode::Program(vec![variable("i32", "a", None)]), &linux()).unwrap();
    let both = generator.generate_code(&ASTNode::Program(vec![variable("i32", "b", None)]), &linux()).unwrap();
    assert_eq!(first, format!("{}@0 = global i32 0\n", prologue()));
    assert_eq!(both, format!("{}{}@1 = global i32 0\n", first, prologue()));
}

#[test]
fn statements_one_by_one() {
    let mut generator = Codegen::new();
    let head = generator.generate_code(&ASTNode::Program(vec![]), &linux()).unwrap();
    assert_eq!(head, prologue());
    assert_eq!(generator.generate_code_vardef("i32", "a", &Some(Box::new(number("4")))), Ok(()));
    assert_eq!(generator.generate_statement(&variable("i32", "b", Some(name("a")))), Ok(()));
    assert_eq!(
        generator.generate_code_fundef("f", &vec![], &Some(String::from("i32")), &vec![ret(name("b"))]),
        Ok(())
    );
    assert_eq!(generator.generate_code_expression(&infix(number("2"), "*", number("3"))), Ok(String::from("6")));
    assert_eq!(generator.generate_code_expression(&name("a")), Ok(String::from("@0")));
    assert_eq!(generator.generate_code_expression(&text("a")), Ok(String::from("[2 x i8] c\"a\\00\"")));
    assert_eq!(
        generator.generate_code_expression(&name("z")),
        Err(CodegenError { kind: CodegenErrorKind::UnresolvedReference, name: String::from("z") })
    );
    assert_eq!(generator.generate_code_funcall("f", &vec![]), Ok(String::from("%5")));
    assert_eq!(generator.generate_block(&vec![variable("i32", "c", None), name("c")]), Ok(()));
    assert_eq!(
        generator.generate_code_return(&name("c")).map_err(|e| e.kind),
        Err(CodegenErrorKind::InvalidNode)
    );
    assert_eq!(generator.generate_code_assignment("c", &Some(Box::new(number("1")))), Ok(()));
    assert_eq!(
        generator.generate_code_ifelse(&name("c"), &vec![], &None, &None),
        Ok(())
    );
    let module = generator.generate_code(&ASTNode::Program(vec![]), &linux()).unwrap();
    let expected = "@0 = global i32 4\n\
@1 = global i32 @0\n\
define i32 @f() {\nentry:\n\
\t%3 = load i32, i32* @1\n\tret i32 %3\n\
}\n\
\t%4 = call i32 @f()\n\t%5 = alloca i32 \n\tstore i32 %4,ptr %5 \n\
@6 = global i32 0\n\
\t%7 = load i32, ptr 1\n\tstore i32 %7, ptr @6\n\
\t%8 = load i1, ptr @6\n\
\tbr i1 %8, label %__9, label %__10\n\
__9:\n\
\tbr label %__10\n\
__10:\n";
    assert_eq!(module, format!("{}{}{}", prologue(), expected, prologue()));
}

#[test]
fn source_to_module() {
    let source = "i32 total = 2 * 3 + 1;\n\
// adds one\n\
sub inc(i32 n) -> i32 { ret n + 1; }\n\
sub main() -> i32 { i32 x = inc(total); echo(\"done\", 4); ret x; }\n";
    let mut lexer = LEXER::new(source);
    let mut tokens = tokenization(&mut lexer).unwrap();
    tokens.push(Token { token_type: TokenType::EOF, value: String::new() });
    let mut parser = Parser::new(tokens);
    lib_insert_symbol(&mut parser.scopes);
    let tree = parser.parse_program().unwrap();
    let mut generator = Codegen::new();
    let module = generator.generate_code(&tree, &linux()).unwrap();
    let expected = "@0 = global i32 7\n\
define i32 @inc(i32 %n) {\nentry:\n\
\t%1 = alloca i32\n\tstore i32 %n,ptr %1\n\
\t%3 = alloca i32\n\tstore i32 1, i32* %3\n\
\t%4 = load i32, i32* %1\n\t%5 = load i32, i32* %3\n\
\t%6 = add i32 %4, %5\n\
\t%7 = alloca i32\n\tstore i32 %6, ptr %7\n\
\t%8 = load i32, i32* %7\n\tret i32 %8\n\
}\n\
define i32 @main() {\nentry:\n\
\t%10 = alloca i32\n\
\t%11 = load i32 , i32* @0\n\
\t%12 = call i32 @inc(i32 %11)\n\
\t%13 = alloca i32 \n\tstore i32 %12,ptr %13 \n\
\t%14 = load i32, i32* %13\n\tstore i32 %14, i32* %10\n\
\t%15 = alloca [5 x i8]\n\tstore [5 x i8] c\"done\\00\", [5 x i8]* %15\n\
\t%16 = alloca i32\n\tstore i32 4, i32* %16\n\
\t%17 = load i32 , i32* %16\n\
\t%18 = call i32 @echo(i8* %15,i32 %17)\n\
\t%19 = alloca i32 \n\tstore i32 %18,ptr %19 \n\
\t%20 = load i32, i32* %10\n\tret i32 %20\n\
}\n";
    assert_eq!(module, format!("{}{}", prologue(), expected));
}

#[test]
fn values_in_functions_are_storage_locations() {
    let body = in_main(vec![
        variable("i32", "a", Some(infix(infix(number("1"), "+", number("2")), "*", number("3")))),
        variable("str", "s", Some(text("x"))),
        assign("a", call("echo", vec![name("s"), infix(name("a"), "-", number("1"))])),
        conditional(infix(name("a"), "==", number("9")), vec![ret(name("a"))], None),
        ret(infix(name("a"), "/", name("a"))),
    ]);
    let mut loads = 0;
    for line in body.lines().filter(|line| line.contains(" = load ")) {
        let operand = line.rsplit(' ').next().unwrap();
        assert!(operand.starts_with('%') || operand.starts_with('@'), "{}", line);
        assert!(operand[1..].chars().all(|c| c.is_ascii_digit()), "{}", line);
        loads += 1;
    }
    assert_eq!(loads, 17);
}

#[test]
fn every_register_and_label_is_defined_once() {
    let inner = conditional(name("a"), vec![assign("a", number("1"))], Some(vec![ret(name("a"))]));
    let module = lowered(vec![
        variable("i32", "g", None),
        function(
            "f",
            &[("i32", "a"), ("i32", "b")],
            Some("i32"),
            vec![
                conditional(infix(name("a"), "==", name("b")), vec![inner], Some(vec![])),
                ret(call("echo", vec![text("z"), name("g")])),
            ],
        ),
        function("h", &[], None, vec![call("f", vec![number("1"), number("2")])]),
    ]);
    let mut defined: Vec<String> = Vec::new();
    for line in module.lines() {
        if line.starts_with("__") {
            defined.push(line[2..line.len() - 1].to_string());
        } else if let Some(rest) = line.strip_prefix("\t%") {
            if let Some((id, _)) = rest.split_once(" = ") {
                defined.push(id.to_string());
            }
        } else if let Some(rest) = line.strip_prefix('@') {
            if let Some((id, _)) = rest.split_once(" = ") {
                defined.push(id.to_string());
            }
        }
    }
    let count = defined.len();
    assert!(count > 20);
    defined.sort();
    defined.dedup();
    assert_eq!(defined.len(), count);
}

#[test]
fn odd_sources_are_compiled_or_rejected() {
    let sources = [
        "",
        "/",
        "//",
        "-",
        "=",
        "\"",
        "@",
        "(",
        "sub",
        "sub f",
        "sub f(",
        "sub f()",
        "sub f() ->",
        "sub f() -> i32",
        "sub f() {",
        "sub f() { ret",
        "sub f() { ret 1",
        "i32",
        "i32 a",
        "i32 a =",
        "i32 a = (",
        "i32 a = ((1)",
        "i32 a = 1 +",
        "i32 a = 1 + * 2;",
        "i32 a = @",
        "i32 a = @a",
        "a",
        "a(",
        "a(1",
        "a(1,",
        "echo(",
        "echo(echo(echo(",
        "str s = \"unterminated",
        "i32 a = 1 / 0;",
        "i32 a = 99999999999 * 99999999999;",
        "sub f(i32 a, i32 a) { ret a; }",
        "sub f() { sub g() { } }",
        "sub f() -> bool { }",
        "sub f(str s) -> str { ret s; } sub g() { f(\"x\"); }",
        "i32 a = 1; sub f() -> i32 { a = a + 1; ret a * (a - @a) / 2; }",
        "1 + 2",
        "\u{3000}i32\u{a0}é = 1;",
        "#",
    ];
    for source in sources {
        let mut lexer = LEXER::new(source);
        let mut tokens = tokenization(&mut lexer).unwrap();
        for with_end in [false, true] {
            if with_end {
                tokens.push(Token { token_type: TokenType::EOF, value: String::new() });
            }
            let mut parser = Parser::new(tokens.clone());
            lib_insert_symbol(&mut parser.scopes);
            if let Ok(tree) = parser.parse_program() {
                let mut generator = Codegen::new();
                if let Ok(module) = generator.generate_code(&tree, &linux()) {
                    assert!(module.starts_with(&prologue()), "{}", source);
                }
            }
        }
    }
}

/// Every stretch of `body` that a label ends holds one terminator, its last
/// line.
fn assert_blocks_end_once(body: &str) {
    let found = blocks(body);
    assert!(found.len() > 1);
    for (label, lines) in &found[..found.len() - 1] {
        let terminators = lines.iter().filter(|line| is_terminator(line)).count();
        assert_eq!(terminators, 1, "block {} of\n{}", label, body);
        assert!(is_terminator(lines.last().unwrap()), "block {} of\n{}", label, body);
    }
}

#[test]
fn arm_that_returns_does_not_jump() {
    let body = in_main(vec![
        variable("i32", "a", None),
        conditional(name("a"), vec![ret(number("1"))], None),
        ret(number("2")),
    ]);
    let expected = "\t%1 = alloca i32\n\
\t%2 = load i1, ptr %1\n\
\tbr i1 %2, label %__3, label %__4\n\
__3:\n\
\t%5 = alloca i32\n\tstore i32 1, i32* %5\n\
\t%6 = load i32, i32* %5\n\tret i32 %6\n\
__4:\n\
\t%7 = alloca i32\n\tstore i32 2, i32* %7\n\
\t%8 = load i32, i32* %7\n\tret i32 %8\n";
    assert_eq!(body, expected);
    assert_blocks_end_once(&body);
}

#[test]
fn every_block_of_a_conditional_ends_once() {
    let returns = || vec![assign("a", number("1")), ret(name("a"))];
    let plain = || vec![assign("a", number("2"))];
    let nested = || vec![conditional(name("a"), returns(), Some(plain()))];
    let both_return = || vec![conditional(name("a"), returns(), Some(returns()))];
    let arms: Vec<Box<dyn Fn() -> Vec<ASTNode>>> = vec![
        Box::new(|| vec![]),
        Box::new(plain),
        Box::new(returns),
        Box::new(nested),
        Box::new(both_return),
    ];
    for first in &arms {
        for second in &arms {
            for with_else in [false, true] {
                let else_body = if with_else { Some(second()) } else { None };
                let body = in_main(vec![
                    variable("i32", "a", None),
                    conditional(infix(name("a"), "==", number("3")), first(), else_body),
                    ret(name("a")),
                ]);
                assert_blocks_end_once(&body);
                for (at, line) in body.lines().enumerate() {
                    if at > 0 && is_terminator(body.lines().nth(at - 1).unwrap()) {
                        assert!(line.starts_with("__"), "{} after a terminator in\n{}", line, body);
                    }
                }
            }
        }
    }
}

#[test]
fn statement_after_a_terminator_is_refused() {
    assert_eq!(
        fails_in_main(vec![ret(number("1")), ret(number("2"))]),
        CodegenErrorKind::InvalidNode
    );
    assert_eq!(
        fails_in_main(vec![
            variable("i32", "a", None),
            ret(name("a")),
            assign("a", number("2")),
        ]),
        CodegenErrorKind::InvalidNode
    );
    assert_eq!(
        fails_in_main(vec![
            variable("i32", "a", None),
            conditional(name("a"), vec![ret(name("a")), variable("i32", "b", None)], None),
        ]),
        CodegenErrorKind::InvalidNode
    );
    // a node that is no statement emits nothing, after a terminator as before one
    let body = in_main(vec![ret(number("1")), number("2")]);
    assert_eq!(
        body,
        "\t%1 = alloca i32\n\tstore i32 1, i32* %1\n\t%2 = load i32, i32* %1\n\tret i32 %2\n"
    );
    // the block after a conditional whose arms both return is open again
    let body = in_main(vec![
        variable("i32", "a", None),
        conditional(name("a"), vec![ret(number("1"))], Some(vec![ret(number("2"))])),
        ret(number("3")),
    ]);
    assert_blocks_end_once(&body);
    assert!(!body.contains("\tbr label "), "{}", body);
    let found = blocks(&body);
    assert_eq!(found.len(), 4);
    assert_eq!(found[3].0, "__4");
    assert!(found[3].1.last().unwrap().starts_with("\tret i32 "), "{}", body);
}

#[test]
fn new_generator_folds_constants() {
    let mut generator = Codegen::new();
    let folded = infix(number("7"), "-", infix(number("4"), "/", number("2")));
    assert_eq!(generator.generate_code_expression(&folded), Ok(String::from("5")));
    assert_eq!(
        generator.generate_code_expression(&text("aaa")),
        Ok(String::from("[4 x i8] c\"aaa\\00\""))
    );
    assert_eq!(generator.generate_code_expression(&number("12")), Ok(String::from("12")));
    assert_eq!(
        generator.generate_code_expression(&infix(number("1"), "/", number("0"))).map_err(|e| e.kind),
        Err(CodegenErrorKind::ConstantFold)
    );
    assert!(generator.sym_table.is_empty());
    // nothing was emitted and no id was drawn
    let module = generator.generate_code(&ASTNode::Program(vec![variable("i32", "a", None)]), &linux());
    assert_eq!(module, Ok(format!("{}@0 = global i32 0\n", prologue())));
}

#[test]
fn lookups_find_the_nearest_declaration() {
    let mut generator = Codegen::new();
    generator
        .generate_code(
            &ASTNode::Program(vec![
                variable("i32", "a", Some(number("1"))),
                variable("str", "s", None),
                function("f", &[("i32", "a"), ("str", "t")], Some("i32"), vec![ret(name("a"))]),
            ]),
            &linux(),
        )
        .unwrap();
    assert_eq!(
        generator.get_varinfo("a"),
        Some((String::from("@0"), String::from("i32"), 1, 32))
    );
    assert_eq!(generator.get_varinfo("s").map(|v| (v.0, v.1)), Some((String::from("@1"), String::from("i8*"))));
    assert_eq!(generator.get_varinfo("t"), None);
    assert_eq!(generator.get_varinfo("f"), None);
    assert_eq!(generator.get_varinfo("missing"), None);
    assert_eq!(
        generator.get_funinfo("f"),
        Some((String::from("f"), String::from("i32"), vec![String::from("i32"), String::from("i8*")], 1))
    );
    assert_eq!(generator.get_funinfo("a"), None);
    assert_eq!(generator.get_funinfo("missing"), None);
    assert!(generator.get_funinfo("echo").is_some());
}

#[test]
fn statements_that_read_no_frame_need_none() {
    let mut generator = Codegen::new();
    assert_eq!(generator.generate_statement(&number("1")), Ok(()));
    assert_eq!(generator.generate_statement(&name("nowhere")), Ok(()));
    assert_eq!(generator.generate_block(&vec![]), Ok(()));
    assert_eq!(generator.generate_block(&vec![text("a"), number("2")]), Ok(()));
    assert_eq!(
        generator.generate_code_return(&number("1")).map_err(|e| e.kind),
        Err(CodegenErrorKind::InvalidNode)
    );
    assert_eq!(
        generator
            .generate_code_ifelse(&number("1"), &vec![], &Some(vec![]), &None)
            .map_err(|e| e.kind),
        Err(CodegenErrorKind::InvalidNode)
    );
    assert!(generator.sym_table.is_empty());
    let module = generator.generate_code(&ASTNode::Program(vec![]), &linux());
    assert_eq!(module, Ok(prologue()));
    let mut generator = Codegen::new();
    assert_eq!(generator.generate_code_ifelse(&number("1"), &vec![number("2")], &None, &None), Ok(()));
    let module = generator.generate_code(&ASTNode::Program(vec![]), &linux()).unwrap();
    let expected = "\t%0 = load i1, ptr 1\n\
\tbr i1 %0, label %__1, label %__2\n\
__1:\n\
\tbr label %__2\n\
__2:\n";
    assert_eq!(module, format!("{}{}", expected, prologue()));
}
