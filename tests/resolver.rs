use jeko::ast::{BeforeBlock, ElifBranch, Expr, Literal, Stmt, Token};
use jeko::resolver::{ResolveError, Resolver};
use std::rc::Rc;

fn tok(s: &str) -> Token {
    Token { lexeme: s.to_string(), line: 1 }
}

fn var_ref(id: usize, name: &str) -> Expr {
    Expr::Variable { id, name: tok(name) }
}

fn num(id: usize, n: i64) -> Expr {
    Expr::Literal { id, value: Literal::Number(n) }
}

fn var_decl(name: &str, init: Expr) -> Stmt {
    Stmt::Var { name: tok(name), initializer: init }
}

fn block(statements: Vec<Stmt>) -> Stmt {
    Stmt::Block { statements }
}

fn print(e: Expr) -> Stmt {
    Stmt::Print { expression: e }
}

fn resolve(program: Vec<Stmt>) -> Result<std::collections::HashMap<usize, usize>, ResolveError> {
    Resolver::new().resolve(&program)
}

#[test]
fn reading_local_in_own_initializer_fails() {
    // var x = 1; { var x = x + 1; print x; }
    let inner_init = Expr::Binary {
        id: 3,
        left: Box::new(var_ref(2, "x")),
        operator: tok("+"),
        right: Box::new(num(4, 1)),
    };
    let program = vec![
        var_decl("x", num(1, 1)),
        block(vec![var_decl("x", inner_init), print(var_ref(5, "x"))]),
    ];
    assert_eq!(resolve(program).unwrap_err(), ResolveError::ReadInOwnInitializer);
}

#[test]
fn redeclaring_in_one_block_fails() {
    let program = vec![block(vec![var_decl("a", num(1, 1)), var_decl("a", num(2, 2))])];
    assert_eq!(resolve(program).unwrap_err(), ResolveError::Redeclared);
}

#[test]
fn redeclaring_at_global_level_is_allowed() {
    let program = vec![var_decl("a", num(1, 1)), var_decl("a", num(2, 2))];
    assert!(resolve(program).unwrap().is_empty());
}

#[test]
fn shadowing_in_an_inner_block_is_allowed() {
    let program = vec![block(vec![
        var_decl("a", num(1, 1)),
        block(vec![var_decl("a", num(2, 2)), print(var_ref(3, "a"))]),
    ])];
    let locals = resolve(program).unwrap();
    assert_eq!(locals.get(&3), Some(&0));
}

#[test]
fn break_outside_loop_fails() {
    let program = vec![
        Stmt::WhileStmt {
            condition: Expr::Literal { id: 1, value: Literal::True },
            body: Box::new(block(vec![print(num(2, 1))])),
        },
        Stmt::BreakStmt { keyword: tok("break") },
    ];
    assert_eq!(resolve(program).unwrap_err(), ResolveError::BreakOutsideLoop);
}

#[test]
fn break_inside_loop_is_allowed() {
    let program = vec![Stmt::WhileStmt {
        condition: Expr::Literal { id: 1, value: Literal::True },
        body: Box::new(block(vec![Stmt::BreakStmt { keyword: tok("break") }])),
    }];
    assert!(resolve(program).is_ok());
}

#[test]
fn return_outside_function_fails() {
    let program = vec![Stmt::ReturnStmt { keyword: tok("return"), value: None }];
    assert_eq!(resolve(program).unwrap_err(), ResolveError::ReturnOutsideFunction);
}

#[test]
fn distance_counts_enclosing_scopes() {
    // { var a = 1; { { print a; } } }
    let program = vec![block(vec![
        var_decl("a", num(1, 1)),
        block(vec![block(vec![print(var_ref(2, "a"))])]),
    ])];
    let locals = resolve(program).unwrap();
    assert_eq!(locals.get(&2), Some(&2));
    assert_eq!(locals.len(), 1);
}

#[test]
fn global_references_get_no_distance() {
    let program = vec![var_decl("g", num(1, 1)), print(var_ref(2, "g"))];
    assert!(resolve(program).unwrap().is_empty());
}

#[test]
fn parameters_and_captured_locals_resolve() {
    // fun counter() { var i = 0; fun inc() { i = i + 1; return i; } return inc; }
    let assign = Expr::Assign {
        id: 10,
        name: tok("i"),
        value: Box::new(Expr::Binary {
            id: 11,
            left: Box::new(var_ref(12, "i")),
            operator: tok("+"),
            right: Box::new(num(13, 1)),
        }),
    };
    let inc = Stmt::Function {
        name: tok("inc"),
        params: vec![],
        body: Rc::new(vec![
            Stmt::Expression { expression: assign },
            Stmt::ReturnStmt { keyword: tok("return"), value: Some(var_ref(14, "i")) },
        ]),
    };
    let counter = Stmt::Function {
        name: tok("counter"),
        params: vec![],
        body: Rc::new(vec![
            var_decl("i", num(1, 0)),
            inc,
            Stmt::ReturnStmt { keyword: tok("return"), value: Some(var_ref(15, "inc")) },
        ]),
    };
    let locals = resolve(vec![counter]).unwrap();
    assert_eq!(locals.get(&10), Some(&1));
    assert_eq!(locals.get(&12), Some(&1));
    assert_eq!(locals.get(&14), Some(&1));
    assert_eq!(locals.get(&15), Some(&0));
}

#[test]
fn function_parameter_has_distance_zero() {
    let f = Stmt::Function {
        name: tok("f"),
        params: vec![tok("x")],
        body: Rc::new(vec![Stmt::ReturnStmt { keyword: tok("return"), value: Some(var_ref(1, "x")) }]),
    };
    let locals = resolve(vec![f]).unwrap();
    assert_eq!(locals.get(&1), Some(&0));
}

#[test]
fn duplicate_parameter_fails() {
    let f = Stmt::Function {
        name: tok("f"),
        params: vec![tok("x"), tok("x")],
        body: Rc::new(vec![]),
    };
    assert_eq!(resolve(vec![f]).unwrap_err(), ResolveError::Redeclared);
}

#[test]
fn class_member_that_is_not_a_function_fails() {
    let class = Stmt::Class {
        name: tok("A"),
        methods: vec![var_decl("x", num(1, 1))],
        superclass: None,
    };
    assert_eq!(resolve(vec![class]).unwrap_err(), ResolveError::NotAMethod);
}

#[test]
fn return_in_method_is_allowed() {
    let method = Stmt::Function {
        name: tok("m"),
        params: vec![],
        body: Rc::new(vec![Stmt::ReturnStmt { keyword: tok("return"), value: None }]),
    };
    let class = Stmt::Class {
        name: tok("A"),
        methods: vec![method],
        superclass: Some(var_ref(1, "B")),
    };
    assert!(resolve(vec![class]).unwrap().is_empty());
}

#[test]
fn anonymous_function_body_is_a_function_scope() {
    let anon = Expr::AnonFunction {
        id: 1,
        paren: tok("("),
        arguments: vec![tok("y")],
        body: Rc::new(vec![Stmt::ReturnStmt { keyword: tok("return"), value: Some(var_ref(2, "y")) }]),
    };
    let locals = resolve(vec![Stmt::Expression { expression: anon }]).unwrap();
    assert_eq!(locals.get(&2), Some(&0));
}

#[test]
fn call_callee_gets_a_distance() {
    // { fun g() {} g(); }
    let g = Stmt::Function { name: tok("g"), params: vec![], body: Rc::new(vec![]) };
    let call = Expr::Call {
        id: 1,
        callee: Box::new(var_ref(2, "g")),
        paren: tok(")"),
        arguments: vec![],
    };
    let locals = resolve(vec![block(vec![g, Stmt::Expression { expression: call }])]).unwrap();
    assert_eq!(locals.get(&2), Some(&0));
}

#[test]
fn error_messages_name_the_rule() {
    assert_eq!(
        ResolveError::ReadInOwnInitializer.message(),
        "Can't read local variable in its own initializer"
    );
    assert_eq!(
        ResolveError::BreakOutsideLoop.message(),
        "Break statement is not allowed outside of a loop"
    );
}

#[test]
fn elif_and_else_branches_are_resolved() {
    // { var a = 1; if (a) print a; elif (a) { var a = a; } }
    let if_stmt = Stmt::IfStmt {
        predicate: var_ref(2, "a"),
        then: Box::new(print(var_ref(3, "a"))),
        elif_branches: vec![ElifBranch {
            predicate: var_ref(4, "a"),
            body: Box::new(block(vec![var_decl("a", var_ref(5, "a"))])),
        }],
        els: None,
    };
    let program = vec![block(vec![var_decl("a", num(1, 1)), if_stmt])];
    assert_eq!(resolve(program).unwrap_err(), ResolveError::ReadInOwnInitializer);
}

#[test]
fn wait_before_block_is_resolved() {
    // { var t = 1; wait (t) { print t; } before (t) { print t; } }
    let wait = Stmt::WaitStmt {
        time: var_ref(2, "t"),
        body: Box::new(block(vec![print(var_ref(3, "t"))])),
        before: Some(Box::new(BeforeBlock {
            time: var_ref(4, "t"),
            body: Box::new(block(vec![print(var_ref(5, "t"))])),
        })),
    };
    let locals = resolve(vec![block(vec![var_decl("t", num(1, 1)), wait])]).unwrap();
    assert_eq!(locals.get(&2), Some(&0));
    assert_eq!(locals.get(&3), Some(&1));
    assert_eq!(locals.get(&4), Some(&0));
    assert_eq!(locals.get(&5), Some(&1));
}

#[test]
fn break_in_function_inside_loop_is_allowed() {
    let f = Stmt::Function {
        name: tok("f"),
        params: vec![],
        body: Rc::new(vec![Stmt::BreakStmt { keyword: tok("break") }]),
    };
    let program = vec![Stmt::WhileStmt {
        condition: Expr::Literal { id: 1, value: Literal::True },
        body: Box::new(block(vec![f])),
    }];
    assert!(resolve(program).is_ok());
}

#[test]
fn function_and_variable_of_one_name_in_a_block_fail() {
    let f = Stmt::Function { name: tok("f"), params: vec![], body: Rc::new(vec![]) };
    let program = vec![block(vec![f, var_decl("f", num(1, 1))])];
    assert_eq!(resolve(program).unwrap_err(), ResolveError::Redeclared);
}
