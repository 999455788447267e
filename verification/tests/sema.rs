use ika::sema::{
    current_index, get_fun, get_var, has_var, insert_var, lib_insert_symbol, Function,
    ScopeManager, SymbolTable,
};

#[test]
fn add_has_value() {
    let mut st = SymbolTable::new();
    st.add_variable("a".to_string(), "i32".to_string());
    let res1 = st.has_variable("a");
    let res2 = st.has_variable("b");

    assert_eq!(res1, true);
    assert_eq!(res2, false);
}

#[test]
fn lookup() {
    let mut st = SymbolTable::new();
    st.add_variable("a".to_string(), "i32".to_string());
    let res1 = st.lookup_variable("a");
    let res2 = st.lookup_variable("b");
    assert_eq!(res1, Some("i32".to_string()));
    assert_eq!(res2, None);
}

#[test]
fn later_declaration_replaces_earlier() {
    let mut st = SymbolTable::new();
    st.add_variable("a".to_string(), "i32".to_string());
    st.add_variable("a".to_string(), "str".to_string());
    assert_eq!(st.lookup_variable("a"), Some("str".to_string()));
}

#[test]
fn functions_and_variables_are_apart() {
    let mut st = SymbolTable::new();
    st.add_function(
        "f".to_string(),
        Function {
            fn_name: "f".to_string(),
            paras: vec![("i32".to_string(), "x".to_string())],
            ret_type: Some("i32".to_string()),
        },
    );
    assert!(st.has_function("f"));
    assert!(!st.has_variable("f"));
    assert!(!st.has_function("g"));
    let found = st.lookup_function("f").unwrap();
    assert_eq!(found.fn_name, "f");
    assert_eq!(found.paras, vec![("i32".to_string(), "x".to_string())]);
    assert_eq!(found.ret_type, Some("i32".to_string()));
    assert!(st.lookup_function("g").is_none());
}

#[test]
fn new_stack_holds_the_global_frame() {
    let scopes = ScopeManager::new();
    assert_eq!(scopes.stack.len(), 1);
    assert!(scopes.is_global_scope());
    assert_eq!(current_index(&scopes), 0);
}

#[test]
fn push_and_pop() {
    let mut scopes = ScopeManager::new();
    scopes.push_scope();
    assert!(!scopes.is_global_scope());
    assert_eq!(current_index(&scopes), 1);
    scopes.current_scope_mut().add_variable("a".to_string(), "i32".to_string());
    assert!(scopes.current_scope().has_variable("a"));
    assert!(!scopes.global_scope().has_variable("a"));
    scopes.pop_scope();
    assert!(scopes.is_global_scope());
    assert!(!scopes.current_scope().has_variable("a"));
}

#[test]
fn walk_finds_the_nearest_declaration() {
    let mut scopes = ScopeManager::new();
    insert_var(&mut scopes, "a".to_string(), "i32".to_string());
    insert_var(&mut scopes, "g".to_string(), "i32".to_string());
    scopes.push_scope();
    insert_var(&mut scopes, "a".to_string(), "str".to_string());

    let mut depth = 1;
    assert!(has_var(&scopes, "a", &mut depth));
    assert_eq!(depth, 1);
    assert_eq!(scopes.stack[depth].lookup_variable("a"), Some("str".to_string()));

    let mut depth = 1;
    assert!(has_var(&scopes, "g", &mut depth));
    assert_eq!(depth, 0);

    let mut depth = 1;
    assert!(!has_var(&scopes, "missing", &mut depth));
    assert_eq!(depth, 0);

    scopes.pop_scope();
    let mut depth = 0;
    assert!(has_var(&scopes, "a", &mut depth));
    assert_eq!(depth, 0);
    assert_eq!(scopes.stack[depth].lookup_variable("a"), Some("i32".to_string()));
}

#[test]
fn runtime_functions_are_global() {
    let mut scopes = ScopeManager::new();
    lib_insert_symbol(&mut scopes);
    let echo = get_fun(&scopes, "echo").unwrap();
    assert_eq!(echo.fn_name, "echo");
    assert_eq!(
        echo.paras,
        vec![("str".to_string(), "string".to_string()), ("i32".to_string(), "len".to_string())]
    );
    assert_eq!(echo.ret_type, None);
    let string = get_fun(&scopes, "string").unwrap();
    assert_eq!(string.paras, vec![("i32*".to_string(), "num".to_string())]);
    assert!(get_fun(&scopes, "itos").is_none());
}

#[test]
fn global_variables() {
    let mut scopes = ScopeManager::new();
    insert_var(&mut scopes, "g".to_string(), "str".to_string());
    scopes.push_scope();
    insert_var(&mut scopes, "l".to_string(), "i32".to_string());
    assert_eq!(get_var(&scopes, "g"), Some("str".to_string()));
    assert_eq!(get_var(&scopes, "l"), None);
    scopes.global_scope_mut().add_variable("h".to_string(), "i32".to_string());
    assert_eq!(get_var(&scopes, "h"), Some("i32".to_string()));
}
