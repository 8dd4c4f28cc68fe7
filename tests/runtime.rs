use jeko::ast::{Stmt, Token};
use jeko::environment::{EnvError, Environment};
use jeko::interpreter::{loop_continues, select_branch, split_command, Branch, InterpretError, Interpreter};
use jeko::libs::{include_array_natives, include_math_natives};
use jeko::value::{ClassValue, FunctionValue, Value};
use std::collections::HashMap;
use std::rc::Rc;

fn tok(s: &str) -> Token {
    Token { lexeme: s.to_string(), line: 1 }
}

fn name(s: &str) -> String {
    s.to_string()
}

fn number(v: Result<&Value, EnvError>) -> i64 {
    match v {
        Ok(Value::Number(n)) => *n,
        _ => panic!("not a number"),
    }
}

fn copy_fn(f: &FunctionValue) -> FunctionValue {
    FunctionValue {
        name: f.name.clone(),
        arity: f.arity,
        params: f.params.clone(),
        body: Rc::clone(&f.body),
        closure: f.closure,
    }
}

fn method(n: &str) -> Stmt {
    Stmt::Function { name: tok(n), params: vec![], body: Rc::new(vec![]) }
}

#[test]
fn define_overwrites_in_the_current_frame() {
    let mut env = Environment::new(HashMap::new());
    env.define(name("a"), Value::Number(1));
    env.define(name("a"), Value::Number(2));
    assert_eq!(number(env.get(&name("a"))), 2);
    assert_eq!(env.frames[0].bindings.len(), 1);
}

#[test]
fn get_at_reads_exactly_that_frame() {
    let mut env = Environment::new(HashMap::new());
    env.define(name("a"), Value::Number(1));
    env.enclose();
    env.define(name("a"), Value::Number(2));
    assert_eq!(number(env.get_at(0, &name("a"))), 2);
    assert_eq!(number(env.get_at(1, &name("a"))), 1);
    assert!(matches!(env.get_at(2, &name("a")), Err(EnvError::UnboundVariable)));
    assert!(matches!(env.get_at(0, &name("b")), Err(EnvError::UnboundVariable)));
}

#[test]
fn get_falls_back_along_the_chain() {
    let mut env = Environment::new(HashMap::new());
    env.define(name("g"), Value::Number(7));
    env.enclose();
    env.enclose();
    assert_eq!(number(env.get(&name("g"))), 7);
    assert!(matches!(env.get(&name("missing")), Err(EnvError::UnboundVariable)));
}

#[test]
fn assign_at_overwrites_the_enclosing_binding() {
    let mut env = Environment::new(HashMap::new());
    env.enclose();
    env.define(name("i"), Value::Number(0));
    env.enclose();
    assert!(env.assign_at(1, name("i"), Value::Number(5)).is_ok());
    assert_eq!(number(env.get_at(1, &name("i"))), 5);
    assert!(env.assign_at(0, name("i"), Value::Number(6)).is_err());
}

#[test]
fn assign_global_needs_an_existing_binding() {
    let mut env = Environment::new(HashMap::new());
    assert!(!env.assign_global(name("x"), Value::Number(1)));
    env.define(name("x"), Value::Nil);
    env.enclose();
    assert!(env.assign_global(name("x"), Value::Number(3)));
    assert_eq!(number(env.get(&name("x"))), 3);
}

#[test]
fn leaving_a_block_restores_the_outer_frame() {
    let mut env = Environment::new(HashMap::new());
    let outer = env.enclose();
    env.define(name("inner"), Value::Number(1));
    env.set_current(outer);
    assert!(env.get(&name("inner")).is_err());
}

#[test]
fn counter_closure_shares_its_captured_frame() {
    // fun counter() { var i = 0; fun inc() { i = i + 1; return i; } return inc; }
    let mut it = Interpreter::new();
    let counter = Stmt::Function { name: tok("counter"), params: vec![], body: Rc::new(vec![]) };
    it.define_function(&counter);
    let counter_fn = match it.environment.get(&name("counter")) {
        Ok(Value::Function(f)) => copy_fn(f),
        _ => panic!("counter is not a function"),
    };
    // Calling counter: its body declares i and inc, and returns inc.
    let caller = it.begin_call(&counter_fn, vec![]).unwrap();
    it.exec_var(&tok("i"), Value::Number(0));
    let inc = Stmt::Function { name: tok("inc"), params: vec![], body: Rc::new(vec![]) };
    it.define_function(&inc);
    let inc_fn = match it.environment.get(&name("inc")) {
        Ok(Value::Function(f)) => copy_fn(f),
        _ => panic!("inc is not a function"),
    };
    it.record_return(None);
    it.finish_call(caller);
    // Two calls of inc: i = i + 1; return i;
    let mut results = vec![];
    for _ in 0..2 {
        let caller = it.begin_call(&inc_fn, vec![]).unwrap();
        let i = number(it.environment.get_at(1, &name("i")));
        it.environment.assign_at(1, name("i"), Value::Number(i + 1)).unwrap();
        let now = number(it.environment.get_at(1, &name("i")));
        it.record_return(Some(Value::Number(now)));
        match it.finish_call(caller) {
            Value::Number(n) => results.push(n),
            _ => panic!("inc returned something else"),
        }
    }
    assert_eq!(results, vec![1, 2]);
}

#[test]
fn closures_in_a_loop_see_their_own_iteration() {
    let mut it = Interpreter::new();
    let mut closures = vec![];
    for k in 0..3 {
        let outer = it.enter_block();
        it.exec_var(&tok("j"), Value::Number(k));
        let f = Stmt::Function { name: tok("f"), params: vec![], body: Rc::new(vec![]) };
        it.define_function(&f);
        match it.environment.get(&name("f")) {
            Ok(Value::Function(f)) => closures.push(copy_fn(f)),
            _ => panic!("f is not a function"),
        }
        it.leave_block::<()>(outer, Ok(())).unwrap();
    }
    for (k, f) in closures.iter().enumerate() {
        let caller = it.begin_call(f, vec![]).unwrap();
        assert_eq!(number(it.environment.get_at(1, &name("j"))), k as i64);
        it.finish_call(caller);
    }
}

#[test]
fn call_binds_parameters_in_a_new_frame() {
    let mut it = Interpreter::new();
    let f = Stmt::Function { name: tok("add"), params: vec![tok("a"), tok("b")], body: Rc::new(vec![]) };
    it.define_function(&f);
    let add = match it.environment.get(&name("add")) {
        Ok(Value::Function(f)) => copy_fn(f),
        _ => panic!("add is not a function"),
    };
    assert!(matches!(it.begin_call(&add, vec![Value::Nil]), Err(InterpretError::ArityMismatch)));
    assert_eq!(it.environment.frames.len(), 1);
    let caller = it.begin_call(&add, vec![Value::Number(1), Value::Number(2)]).unwrap();
    assert_eq!(number(it.environment.get_at(0, &name("a"))), 1);
    assert_eq!(number(it.environment.get_at(0, &name("b"))), 2);
    assert_eq!(it.environment.frames[it.environment.current].enclosing, Some(0));
    assert!(matches!(it.finish_call(caller), Value::Nil));
    assert_eq!(it.environment.current, 0);
}

#[test]
fn leaving_a_failed_block_restores_and_passes_the_failure_on() {
    let mut it = Interpreter::new();
    let outer = it.enter_block();
    it.exec_var(&tok("x"), Value::Number(1));
    let r = it.leave_block(outer, Err("boom".to_string()));
    assert_eq!(r, Err("boom".to_string()));
    assert_eq!(it.environment.current, 0);
    assert!(it.environment.get(&name("x")).is_err());
}

#[test]
fn branch_and_loop_decisions_follow_truthiness() {
    assert_eq!(select_branch(&Value::Bool(true), true), Branch::Then);
    assert_eq!(select_branch(&Value::Nil, true), Branch::Else);
    assert_eq!(select_branch(&Value::Bool(false), false), Branch::Skip);
    assert_eq!(select_branch(&Value::Number(0), false), Branch::Then);
    assert!(loop_continues(&Value::Text(name(""))));
    assert!(!loop_continues(&Value::Bool(false)));
}

#[test]
fn failed_superclass_leaves_the_environment_alone() {
    let mut it = Interpreter::new();
    assert!(it.declare_class(&tok("C"), Some(Value::Bool(true)), &vec![method("m")]).is_err());
    assert_eq!(it.environment.frames.len(), 1);
    assert!(it.environment.get(&name("C")).is_err());
}

#[test]
fn superclass_must_be_a_class() {
    let mut it = Interpreter::new();
    let r = it.declare_class(&tok("C"), Some(Value::Number(3)), &vec![]);
    match r {
        Err(e) => {
            assert!(matches!(e, InterpretError::SuperclassNotClass(_)));
            assert_eq!(e.message(), "Superclass must be a class, not Number");
        }
        Ok(()) => panic!("a number was accepted as a superclass"),
    }
}

#[test]
fn class_without_superclass_is_bound_globally() {
    let mut it = Interpreter::new();
    assert!(it.declare_class(&tok("B"), None, &vec![method("m")]).is_ok());
    assert_eq!(it.environment.current, 0);
    match it.environment.get(&name("B")) {
        Ok(Value::Class(c)) => {
            assert_eq!(c.name, "B");
            assert!(c.superclass.is_none());
            assert_eq!(c.methods.len(), 1);
            assert_eq!(c.methods[0].1.closure, 1);
        }
        _ => panic!("B is not a class"),
    }
}

#[test]
fn non_function_member_is_refused() {
    let mut it = Interpreter::new();
    let member = Stmt::Exits;
    assert!(matches!(
        it.declare_class(&tok("B"), None, &vec![member]),
        Err(InterpretError::NotAMethod)
    ));
    assert_eq!(it.environment.current, 0);
}

#[test]
fn class_in_a_block_without_global_binding_fails() {
    let mut it = Interpreter::new();
    it.environment.enclose();
    match it.declare_class(&tok("Local"), None, &vec![]) {
        Err(e) => {
            assert!(matches!(&e, InterpretError::ClassDefinitionFailed(n) if n == "Local"));
            assert_eq!(e.message(), "Class definition failed for Local");
        }
        Ok(()) => panic!("the class was bound"),
    }
}

#[test]
fn super_is_the_immediate_superclass() {
    let mut it = Interpreter::new();
    it.declare_class(&tok("A"), None, &vec![method("greet")]).unwrap();
    let a = it.environment.get(&name("A")).unwrap();
    let a = match a {
        Value::Class(c) => Value::Class(Rc::clone(c)),
        _ => panic!("A is not a class"),
    };
    it.declare_class(&tok("B"), Some(a), &vec![method("greet")]).unwrap();
    let b = match it.environment.get(&name("B")).unwrap() {
        Value::Class(c) => Value::Class(Rc::clone(c)),
        _ => panic!("B is not a class"),
    };
    it.declare_class(&tok("C"), Some(b), &vec![method("other")]).unwrap();
    let c: Rc<ClassValue> = match it.environment.get(&name("C")).unwrap() {
        Value::Class(c) => Rc::clone(c),
        _ => panic!("C is not a class"),
    };
    // C's methods close over a frame whose `super` is B, whatever the instance.
    let frame = c.methods[0].1.closure;
    it.environment.set_current(frame);
    match it.environment.get_at(0, &name("super")).unwrap() {
        Value::Class(s) => {
            assert_eq!(s.name, "B");
            let greet = s.find_method(&name("greet")).unwrap();
            let b_frame = match it.environment.get(&name("B")).unwrap() {
                Value::Class(b) => b.methods[0].1.closure,
                _ => panic!("B is not a class"),
            };
            assert_eq!(greet.closure, b_frame);
        }
        _ => panic!("super is not a class"),
    }
    // An instance of C finds `greet` along the chain, in B.
    assert_eq!(c.find_method(&name("greet")).unwrap().closure, {
        match c.superclass.as_ref() {
            Some(b) => b.methods[0].1.closure,
            None => panic!("C has no superclass"),
        }
    });
    assert!(c.find_method(&name("missing")).is_none());
}

#[test]
fn command_words_drop_quotes() {
    let words = split_command(&name("echo \"hello\" world"));
    assert_eq!(words, vec!["echo", "hello", "world"]);
}

#[test]
fn command_words_split_at_every_space() {
    assert_eq!(split_command(&name("a  b")), vec!["a", "", "b"]);
    assert_eq!(split_command(&name("")), vec![""]);
    assert_eq!(split_command(&name("\"say hi\"")), vec!["say", "hi"]);
}

#[test]
fn command_function_is_a_native_of_no_arguments() {
    let mut it = Interpreter::new();
    it.define_cmd_function(&tok("list"), &name("ls \"-l\""));
    match it.environment.get(&name("list")) {
        Ok(Value::Native(n)) => {
            assert_eq!(n.arity, 0);
            assert_eq!(n.name, "list");
            assert_eq!(n.command.clone().unwrap(), vec!["ls", "-l"]);
        }
        _ => panic!("list is not a native function"),
    }
}

#[test]
fn return_defaults_to_nil() {
    let mut it = Interpreter::new();
    it.record_return(None);
    assert!(matches!(it.return_value, Some(Value::Nil)));
    it.record_return(Some(Value::Number(4)));
    assert!(matches!(it.return_value, Some(Value::Number(4))));
}

#[test]
fn for_anon_opens_a_child_frame() {
    let mut env = Environment::new(HashMap::new());
    env.define(name("outer"), Value::Bool(true));
    let it = Interpreter::for_anon(env);
    assert_eq!(it.environment.current, 1);
    assert_eq!(it.environment.frames[1].enclosing, Some(0));
    assert!(it.environment.get_at(1, &name("outer")).is_ok());
}

#[test]
fn with_env_and_resolve_keep_the_environment() {
    let env = Environment::new(HashMap::new());
    let mut it = Interpreter::with_env(env);
    let mut locals = HashMap::new();
    locals.insert(3usize, 1usize);
    it.resolve(locals);
    assert_eq!(it.environment.locals.get(&3), Some(&1));
    assert!(it.return_value.is_none());
}

#[test]
fn natives_are_registered() {
    let mut env = Environment::new(HashMap::new());
    env.define(name("keep"), Value::Number(1));
    include_array_natives(&mut env);
    include_math_natives(&mut env);
    for n in ["push", "join", "pop", "shift", "sin", "asin", "cos", "acos", "tan", "atan", "round", "floor", "to_degrees", "to_radians"] {
        match env.get(&name(n)) {
            Ok(Value::Native(v)) => {
                assert_eq!(v.name, n);
                assert_eq!(v.arity, 1);
            }
            _ => panic!("{} is not registered", n),
        }
    }
    assert_eq!(number(env.get(&name("keep"))), 1);
}

#[test]
fn runtime_type_names() {
    assert_eq!(Value::Number(1).to_type(), "Number");
    assert_eq!(Value::Text(name("s")).to_type(), "String");
    assert_eq!(Value::Nil.to_type(), "Nil");
}

#[test]
fn lookup_uses_the_recorded_distance() {
    let mut locals = HashMap::new();
    locals.insert(1usize, 1usize);
    let mut env = Environment::new(locals);
    env.define(name("x"), Value::Number(1));
    env.enclose();
    env.define(name("x"), Value::Number(2));
    // id 1 was resolved one frame out; id 2 has no distance and walks the chain.
    assert_eq!(number(env.lookup(1, &name("x"))), 1);
    assert_eq!(number(env.lookup(2, &name("x"))), 2);
}

#[test]
fn assign_uses_the_recorded_distance_or_the_global_frame() {
    let mut locals = HashMap::new();
    locals.insert(1usize, 1usize);
    let mut env = Environment::new(locals);
    env.define(name("x"), Value::Number(1));
    env.enclose();
    env.define(name("x"), Value::Number(2));
    assert!(env.assign(1, name("x"), Value::Number(10)).is_ok());
    assert_eq!(number(env.get_at(1, &name("x"))), 10);
    assert_eq!(number(env.get_at(0, &name("x"))), 2);
    assert!(env.assign(2, name("x"), Value::Number(20)).is_ok());
    assert_eq!(number(env.get_at(1, &name("x"))), 20);
    assert!(matches!(env.assign(3, name("y"), Value::Nil), Err(EnvError::UnboundVariable)));
}
