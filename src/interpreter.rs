//! The runtime side: the interpreter's state and the statement forms whose
//! work is binding and scoping (functions and closures, classes, blocks,
//! command-backed functions, the return slot).
use crate::ast::{Stmt, Token};
use crate::environment::Environment;
use crate::value::{runtime_type, truthy, ClassValue, FunctionValue, NativeValue, Value};
use std::collections::HashMap;
use std::rc::Rc;
use vstd::prelude::*;

verus! {

/// A failure that the program's run reports to its caller.
#[derive(Debug)]
pub enum InterpretError {
    /// A superclass expression gave something other than a class; the
    /// runtime type that it gave.
    SuperclassNotClass(String),
    /// The class name was not bound in the global frame.
    ClassDefinitionFailed(String),
    /// A class member that is not a function declaration.
    NotAMethod,
    /// A call with a number of arguments other than the function's arity.
    ArityMismatch,
}

/// Which body of an `if` runs.
#[derive(Clone, Copy, PartialEq, Eq, Structural, Debug)]
pub enum Branch {
    Then,
    Else,
    Skip,
}

/// The frame of a call before the body runs: `params` bound, in order, to
/// `args` (a later parameter of the same name wins).
pub open spec fn params_bound(m: Map<Seq<char>, Value>, params: Seq<String>, args: Seq<Value>) -> Map<Seq<char>, Value>
    decreases params.len(),
{
    if params.len() == 0 || args.len() == 0 {
        m
    } else {
        params_bound(
            m.insert(params[0]@, args[0]),
            params.subrange(1, params.len() as int),
            args.subrange(1, args.len() as int),
        )
    }
}

/// The branch an `if` takes on its predicate's value.
pub fn select_branch(predicate: &Value, has_else: bool) -> (r: Branch)
    ensures
        truthy(*predicate) ==> r == Branch::Then,
        !truthy(*predicate) && has_else ==> r == Branch::Else,
        !truthy(*predicate) && !has_else ==> r == Branch::Skip,
{
    if predicate.is_truthy() {
        Branch::Then
    } else if has_else {
        Branch::Else
    } else {
        Branch::Skip
    }
}

/// Whether a `while` runs its body once more, on its condition's value.
pub fn loop_continues(condition: &Value) -> (r: bool)
    ensures
        r == truthy(*condition),
{
    condition.is_truthy()
}

impl InterpretError {
    pub fn message(&self) -> (r: String)
        ensures
            *self matches InterpretError::SuperclassNotClass(t) ==> r@ == "Superclass must be a class, not "@ + t@,
            *self matches InterpretError::ClassDefinitionFailed(n) ==> r@ == "Class definition failed for "@ + n@,
            *self is NotAMethod ==> r@ == "Something that was not a function was in the methods of a class"@,
    {
        proof {
            reveal_strlit("Superclass must be a class, not ");
            reveal_strlit("Class definition failed for ");
            reveal_strlit("Something that was not a function was in the methods of a class");
        }
        match self {
            InterpretError::SuperclassNotClass(t) => {
                "Superclass must be a class, not ".to_string().concat(t.as_str())
            },
            InterpretError::ClassDefinitionFailed(n) => {
                "Class definition failed for ".to_string().concat(n.as_str())
            },
            InterpretError::ArityMismatch => {
                "Wrong number of arguments".to_string()
            },
            InterpretError::NotAMethod => {
                "Something that was not a function was in the methods of a class".to_string()
            },
        }
    }
}

/// The words of a command line: split at every space, with every double
/// quote character dropped from each word.
pub open spec fn command_parts(s: Seq<char>) -> Seq<Seq<char>>
    decreases s.len(),
{
    if s.len() == 0 {
        seq![Seq::empty()]
    } else {
        let p = command_parts(s.drop_last());
        let c = s.last();
        if c == ' ' {
            p.push(Seq::empty())
        } else if c == '"' {
            p
        } else {
            p.update(p.len() - 1, p.last().push(c))
        }
    }
}

proof fn lemma_command_parts_nonempty(s: Seq<char>)
    ensures
        command_parts(s).len() >= 1,
    decreases s.len(),
{
    if s.len() > 0 {
        lemma_command_parts_nonempty(s.drop_last());
    }
}

/// Relies on std's `FromIterator<char>` for `String`: the string holds
/// exactly the characters given, in order.
#[verifier::external_body]
fn string_from_chars(chars: &Vec<char>) -> (r: String)
    ensures
        r@ == chars@,
{
    chars.iter().collect()
}

/// Splits a command line into the program and its arguments.
pub fn split_command(cmd: &String) -> (r: Vec<String>)
    ensures
        r@.len() == command_parts(cmd@).len(),
        forall|i: int| 0 <= i < r@.len() ==> (#[trigger] r@[i])@ == command_parts(cmd@)[i],
{
    let text = cmd.as_str();
    let n = text.unicode_len();
    let mut parts: Vec<Vec<char>> = Vec::new();
    parts.push(Vec::new());
    let mut i: usize = 0;
    while i < n
        invariant
            i <= n,
            n == cmd@.len(),
            text@ == cmd@,
            parts@.len() == command_parts(cmd@.take(i as int)).len(),
            forall|k: int| 0 <= k < parts@.len() ==> (#[trigger] parts@[k])@ == command_parts(cmd@.take(i as int))[k],
        decreases n - i,
    {
        proof {
            assert(cmd@.take(i + 1).drop_last() =~= cmd@.take(i as int));
            lemma_command_parts_nonempty(cmd@.take(i as int));
        }
        let c = text.get_char(i);
        if c == ' ' {
            parts.push(Vec::new());
        } else if c != '"' {
            let last = parts.len() - 1;
            parts[last].push(c);
        }
        i += 1;
        proof {
            assert forall|k: int| 0 <= k < parts@.len() implies (#[trigger] parts@[k])@ == command_parts(cmd@.take(i as int))[k] by {
                if c != ' ' && c != '"' && k == parts@.len() - 1 {
                    assert(parts@[k]@ =~= command_parts(cmd@.take(i as int))[k]);
                }
            }
        }
    }
    proof {
        assert(cmd@.take(n as int) =~= cmd@);
    }
    let mut r: Vec<String> = Vec::new();
    let mut j: usize = 0;
    while j < parts.len()
        invariant
            j <= parts@.len(),
            r@.len() == j,
            forall|k: int| 0 <= k < j ==> (#[trigger] r@[k])@ == parts@[k]@,
        decreases parts@.len() - j,
    {
        r.push(string_from_chars(&parts[j]));
        j += 1;
    }
    r
}

pub struct Interpreter {
    /// The value that the latest `return` produced, if any.
    pub return_value: Option<Value>,
    pub environment: Environment,
}

/// `f` is the function value of the declaration `decl` closed over `frame`.
pub open spec fn declares(f: FunctionValue, decl: Stmt, frame: usize) -> bool {
    &&& decl is Function
    &&& f.name@ == decl->Function_name.lexeme@
    &&& f.arity == decl->Function_params@.len()
    &&& f.params@.map_values(|p: String| p@) == param_names(decl->Function_params@)
    &&& f.body == decl->Function_body
    &&& f.closure == frame
}

/// The parameter names of a declaration.
pub open spec fn param_names(params: Seq<Token>) -> Seq<Seq<char>> {
    params.map_values(|t: Token| t.lexeme@)
}

impl Interpreter {
    pub fn new() -> (r: Self)
        ensures
            r.environment.wf(),
            r.environment.frames@.len() == 1,
            r.environment.current == 0,
            r.environment.frame_map(0) == Map::<Seq<char>, Value>::empty(),
            r.environment.locals@ == Map::<usize, usize>::empty(),
            r.return_value is None,
    {
        Self { return_value: None, environment: Environment::new(HashMap::new()) }
    }

    /// Takes the distances that the resolver computed.
    pub fn resolve(&mut self, locals: HashMap<usize, usize>)
        ensures
            final(self).environment.frames@ == old(self).environment.frames@,
            final(self).environment.current == old(self).environment.current,
            final(self).environment.locals@ == locals@,
            final(self).return_value == old(self).return_value,
    {
        self.environment.resolve(locals);
    }

    pub fn with_env(env: Environment) -> (r: Self)
        ensures
            r.environment == env,
            r.return_value is None,
    {
        Self { return_value: None, environment: env }
    }

    /// An interpreter whose current frame is a new one enclosed by the
    /// parent's current frame, as for the body of an anonymous function.
    pub fn for_anon(parent: Environment) -> (r: Self)
        requires
            parent.wf(),
            parent.frames@.len() < usize::MAX,
        ensures
            r.environment.wf(),
            r.environment.frames@.len() == parent.frames@.len() + 1,
            r.environment.frames@.take(parent.frames@.len() as int) == parent.frames@,
            r.environment.frames@.last().enclosing == Some(parent.current),
            r.environment.frame_map(parent.frames@.len() as int) == Map::<Seq<char>, Value>::empty(),
            r.environment.current == parent.frames@.len(),
            r.return_value is None,
    {
        let mut env = parent;
        env.enclose();
        proof {
            assert(env.frames@.take(parent.frames@.len() as int) =~= parent.frames@);
        }
        Self { return_value: None, environment: env }
    }

    /// A function value for a declaration: its name, its parameters, its
    /// body, and the current frame as its closure.
    fn make_function(&self, fn_stmt: &Stmt) -> (r: FunctionValue)
        requires
            *fn_stmt is Function,
        ensures
            declares(r, *fn_stmt, self.environment.current),
    {
        if let Stmt::Function { name, params, body } = fn_stmt {
            let mut names: Vec<String> = Vec::new();
            let mut i: usize = 0;
            while i < params.len()
                invariant
                    i <= params@.len(),
                    names@.len() == i,
                    forall|k: int| 0 <= k < i ==> (#[trigger] names@[k])@ == params@[k].lexeme@,
                decreases params@.len() - i,
            {
                names.push(params[i].lexeme.clone());
                i += 1;
            }
            proof {
                assert(names@.map_values(|p: String| p@) =~= param_names(params@));
            }
            FunctionValue {
                name: name.lexeme.clone(),
                arity: params.len(),
                params: names,
                body: Rc::clone(body),
                closure: self.environment.current,
            }
        } else {
            FunctionValue {
                name: String::new(),
                arity: 0,
                params: Vec::new(),
                body: Rc::new(Vec::new()),
                closure: self.environment.current,
            }
        }
    }

    /// A function declaration: binds its name, in the current frame, to a
    /// function that closes over that frame.
    pub fn define_function(&mut self, stmt: &Stmt)
        requires
            *stmt is Function,
            old(self).environment.wf(),
        ensures
            final(self).environment.wf(),
            final(self).environment.same_but(
                &old(self).environment,
                old(self).environment.current as int,
            ),
            final(self).environment.frame_map(old(self).environment.current as int).remove(
                stmt->Function_name.lexeme@,
            ) == old(self).environment.frame_map(old(self).environment.current as int).remove(
                stmt->Function_name.lexeme@,
            ),
            final(self).environment.frame_map(old(self).environment.current as int)[stmt->Function_name.lexeme@] is Function,
            declares(
                final(self).environment.frame_map(old(self).environment.current as int)[stmt->Function_name.lexeme@]->Function_0,
                *stmt,
                old(self).environment.current,
            ),
            final(self).return_value == old(self).return_value,
    {
        let f = self.make_function(stmt);
        if let Stmt::Function { name, .. } = stmt {
            self.environment.define(name.lexeme.clone(), Value::Function(f));
        }
    }

    /// A command-backed function declaration: binds its name, in the current
    /// frame, to a native function of no arguments that runs the command.
    pub fn define_cmd_function(&mut self, name: &Token, cmd: &String)
        requires
            old(self).environment.wf(),
        ensures
            final(self).environment.wf(),
            final(self).environment.same_but(
                &old(self).environment,
                old(self).environment.current as int,
            ),
            final(self).environment.frame_map(old(self).environment.current as int).remove(name.lexeme@)
                == old(self).environment.frame_map(old(self).environment.current as int).remove(name.lexeme@),
            ({
                let v = final(self).environment.frame_map(old(self).environment.current as int)[name.lexeme@];
                &&& v is Native
                &&& v->Native_0.name@ == name.lexeme@
                &&& v->Native_0.arity == 0
                &&& v->Native_0.command is Some
                &&& v->Native_0.command->Some_0@.map_values(|w: String| w@) == command_parts(cmd@)
            }),
            final(self).return_value == old(self).return_value,
    {
        let words = split_command(cmd);
        proof {
            assert(words@.map_values(|w: String| w@) =~= command_parts(cmd@));
        }
        let native = NativeValue { name: name.lexeme.clone(), arity: 0, command: Some(words) };
        self.environment.define(name.lexeme.clone(), Value::Native(native));
    }

    /// A `return`: stores its value, nil where it has none.
    pub fn record_return(&mut self, value: Option<Value>)
        ensures
            final(self).environment == old(self).environment,
            final(self).return_value == Some(
                match value {
                    Some(v) => v,
                    None => Value::Nil,
                },
            ),
    {
        let v = match value {
            Some(v) => v,
            None => Value::Nil,
        };
        self.return_value = Some(v);
    }

    /// A class declaration, given the value of its superclass expression.
    /// The class name is first bound to nil in the current frame; the
    /// methods close over a new frame that binds `super` to the superclass;
    /// the finished class then replaces the name's binding in the global
    /// frame, and the frame that was current is current again.
    pub fn declare_class(&mut self, name: &Token, superclass: Option<Value>, methods: &Vec<Stmt>) -> (r: Result<(), InterpretError>)
        requires
            old(self).environment.wf(),
            old(self).environment.frames@.len() < usize::MAX,
        ensures
            final(self).environment.wf(),
            final(self).environment.current == old(self).environment.current,
            final(self).return_value == old(self).return_value,
            superclass is Some && !(superclass->Some_0 is Class) ==> r is Err
                && r->Err_0 is SuperclassNotClass
                && r->Err_0->SuperclassNotClass_0@ == runtime_type(superclass->Some_0)
                && final(self).environment == old(self).environment,
            (superclass is None || superclass->Some_0 is Class) && (exists|i: int|
                0 <= i < methods@.len() && !(#[trigger] methods@[i] is Function)) ==> r is Err
                && r->Err_0 is NotAMethod,
            (superclass is None || superclass->Some_0 is Class) && (forall|i: int|
                0 <= i < methods@.len() ==> #[trigger] methods@[i] is Function) ==> (r is Ok <==> (
            old(self).environment.current == 0 || old(self).environment.frame_map(0).contains_key(
                name.lexeme@,
            ))),
            r is Err && !(r->Err_0 is SuperclassNotClass) && !(r->Err_0 is NotAMethod) ==> (
            r->Err_0 is ClassDefinitionFailed && r->Err_0->ClassDefinitionFailed_0@ == name.lexeme@),
            r is Ok ==> ({
                let k = old(self).environment.frames@.len() as int;
                let global = final(self).environment.frame_map(0);
                &&& final(self).environment.frames@.len() == k + 1
                &&& final(self).environment.frames@[k].enclosing == Some(old(self).environment.current)
                &&& final(self).environment.frame_map(k) == match superclass {
                    Some(sc) => Map::<Seq<char>, Value>::empty().insert("super"@, sc),
                    None => Map::<Seq<char>, Value>::empty(),
                }
                &&& global.contains_key(name.lexeme@)
                &&& global[name.lexeme@] is Class
                &&& global[name.lexeme@]->Class_0.name@ == name.lexeme@
                &&& global[name.lexeme@]->Class_0.methods@.len() == methods@.len()
                &&& forall|i: int| 0 <= i < methods@.len() ==> {
                    &&& (#[trigger] global[name.lexeme@]->Class_0.methods@[i]).0@
                        == methods@[i]->Function_name.lexeme@
                    &&& declares(global[name.lexeme@]->Class_0.methods@[i].1, methods@[i], k as usize)
                }
                &&& match superclass {
                    Some(sc) => global[name.lexeme@]->Class_0.superclass == Some(sc->Class_0),
                    None => global[name.lexeme@]->Class_0.superclass is None,
                }
            }),
    {
        let superclass_value: Option<Rc<ClassValue>> = match &superclass {
            Some(Value::Class(c)) => Some(Rc::clone(c)),
            Some(other) => {
                return Err(InterpretError::SuperclassNotClass(other.to_type()));
            },
            None => None,
        };
        self.environment.define(name.lexeme.clone(), Value::Nil);
        let ghost placed = self.environment;
        let previous = self.environment.enclose();
        let ghost k = self.environment.current as int;
        if let Some(sc) = superclass {
            proof {
                reveal_strlit("super");
            }
            self.environment.define("super".to_string(), sc);
        }
        let ghost with_super = self.environment;
        let mut methods_table: Vec<(String, FunctionValue)> = Vec::new();
        let mut i: usize = 0;
        while i < methods.len()
            invariant
                self.environment == with_super,
                self.environment.wf(),
                self.return_value == old(self).return_value,
                previous == old(self).environment.current,
                previous < self.environment.frames@.len(),
                superclass is None || superclass->Some_0 is Class,
                self.environment.current == k,
                i <= methods@.len(),
                methods_table@.len() == i,
                forall|j: int| 0 <= j < i ==> #[trigger] methods@[j] is Function,
                forall|j: int| 0 <= j < i ==> {
                    &&& (#[trigger] methods_table@[j]).0@ == methods@[j]->Function_name.lexeme@
                    &&& declares(methods_table@[j].1, methods@[j], k as usize)
                },
            decreases methods@.len() - i,
        {
            let method = &methods[i];
            match method {
                Stmt::Function { name: method_name, .. } => {
                    let function = self.make_function(method);
                    methods_table.push((method_name.lexeme.clone(), function));
                },
                _ => {
                    self.environment.set_current(previous);
                    return Err(InterpretError::NotAMethod);
                },
            }
            i += 1;
        }
        let klass = ClassValue {
            name: name.lexeme.clone(),
            methods: methods_table,
            superclass: superclass_value,
        };
        proof {
            assert(placed.frame_map(0).contains_key(name.lexeme@) <==> (
                old(self).environment.current == 0
                    || old(self).environment.frame_map(0).contains_key(name.lexeme@)));
            assert(self.environment.frame_map(0) == placed.frame_map(0));
        }
        if !self.environment.assign_global(name.lexeme.clone(), Value::Class(Rc::new(klass))) {
            self.environment.set_current(previous);
            return Err(InterpretError::ClassDefinitionFailed(name.lexeme.clone()));
        }
        self.environment.set_current(previous);
        Ok(())
    }

    /// A variable declaration, given its initializer's value: binds it in
    /// the current frame.
    pub fn exec_var(&mut self, name: &Token, value: Value)
        requires
            old(self).environment.wf(),
        ensures
            final(self).environment.wf(),
            final(self).environment.same_but(&old(self).environment, old(self).environment.current as int),
            final(self).environment.frame_map(old(self).environment.current as int)
                == old(self).environment.frame_map(old(self).environment.current as int).insert(
                name.lexeme@,
                value,
            ),
            final(self).return_value == old(self).return_value,
    {
        self.environment.define(name.lexeme.clone(), value);
    }

    /// Entering a block: a new frame enclosed by the current one becomes
    /// current; the frame that was current is returned for `leave_block`.
    pub fn enter_block(&mut self) -> (previous: usize)
        requires
            old(self).environment.wf(),
            old(self).environment.frames@.len() < usize::MAX,
        ensures
            final(self).environment.wf(),
            previous == old(self).environment.current,
            final(self).environment.frames@.len() == old(self).environment.frames@.len() + 1,
            final(self).environment.frames@.take(old(self).environment.frames@.len() as int)
                == old(self).environment.frames@,
            final(self).environment.frames@.last().enclosing == Some(previous),
            final(self).environment.frame_map(old(self).environment.frames@.len() as int)
                == Map::<Seq<char>, Value>::empty(),
            final(self).environment.current == old(self).environment.frames@.len(),
            final(self).environment.locals@ == old(self).environment.locals@,
            final(self).return_value == old(self).return_value,
    {
        let previous = self.environment.enclose();
        proof {
            assert(self.environment.frames@.take(old(self).environment.frames@.len() as int)
                =~= old(self).environment.frames@);
        }
        previous
    }

    /// Leaving a block, whether its statements succeeded or failed: the
    /// frame that was current before it is current again, and the block's
    /// own result is passed on.
    pub fn leave_block<E>(&mut self, previous: usize, inner: Result<(), E>) -> (r: Result<(), E>)
        requires
            old(self).environment.wf(),
            previous < old(self).environment.frames@.len(),
        ensures
            final(self).environment.wf(),
            final(self).environment.frames@ == old(self).environment.frames@,
            final(self).environment.locals@ == old(self).environment.locals@,
            final(self).environment.current == previous,
            final(self).return_value == old(self).return_value,
            r == inner,
    {
        self.environment.set_current(previous);
        inner
    }

    /// Entering a call of `f` with `args`: a new frame enclosed by the
    /// function's closure frame, binding its parameters, becomes current; the
    /// frame that was current is returned for `finish_call`. A call with the
    /// wrong number of arguments changes nothing.
    pub fn begin_call(&mut self, f: &FunctionValue, args: Vec<Value>) -> (r: Result<usize, InterpretError>)
        requires
            old(self).environment.wf(),
            f.closure < old(self).environment.frames@.len(),
            old(self).environment.frames@.len() < usize::MAX,
        ensures
            final(self).environment.wf(),
            final(self).return_value == old(self).return_value,
            args@.len() != f.params@.len() ==> r is Err && r->Err_0 is ArityMismatch
                && final(self).environment == old(self).environment,
            args@.len() == f.params@.len() ==> ({
                let k = old(self).environment.frames@.len() as int;
                &&& r == Ok::<usize, InterpretError>(old(self).environment.current)
                &&& final(self).environment.frames@.len() == k + 1
                &&& forall|j: int| 0 <= j < k ==> #[trigger] final(self).environment.frames@[j]
                    == old(self).environment.frames@[j]
                &&& final(self).environment.frames@[k].enclosing == Some(f.closure)
                &&& final(self).environment.current == k
                &&& final(self).environment.locals@ == old(self).environment.locals@
                &&& final(self).environment.frame_map(k) == params_bound(
                    Map::empty(),
                    f.params@,
                    args@,
                )
            }),
    {
        if args.len() != f.params.len() {
            return Err(InterpretError::ArityMismatch);
        }
        let caller = self.environment.current;
        self.environment.set_current(f.closure);
        self.environment.enclose();
        self.environment.set_current(self.environment.frames.len() - 1);
        let ghost k = old(self).environment.frames@.len() as int;
        let mut rest = args;
        proof {
            assert(f.params@.subrange(0, f.params@.len() as int) =~= f.params@);
        }
        let mut i: usize = 0;
        while i < f.params.len()
            invariant
                self.environment.wf(),
                self.return_value == old(self).return_value,
                caller == old(self).environment.current,
                caller < k,
                i <= f.params@.len(),
                rest@.len() == f.params@.len() - i,
                self.environment.frames@.len() == k + 1,
                self.environment.current == k,
                self.environment.locals@ == old(self).environment.locals@,
                forall|j: int| 0 <= j < k ==> #[trigger] self.environment.frames@[j] == old(self).environment.frames@[j],
                self.environment.frames@[k].enclosing == Some(f.closure),
                params_bound(Map::empty(), f.params@, args@) == params_bound(
                    self.environment.frame_map(k),
                    f.params@.subrange(i as int, f.params@.len() as int),
                    rest@,
                ),
            decreases f.params@.len() - i,
        {
            let ghost before = self.environment;
            let ghost old_rest = rest@;
            let value = rest.remove(0);
            proof {
                assert(f.params@.subrange(i as int, f.params@.len() as int).subrange(1, f.params@.len() - i)
                    =~= f.params@.subrange(i + 1, f.params@.len() as int));
                assert(f.params@.subrange(i as int, f.params@.len() as int)[0] == f.params@[i as int]);
            }
            proof {
                assert(old_rest.subrange(1, old_rest.len() as int) =~= rest@);
            }
            self.environment.define(f.params[i].clone(), value);
            proof {
                assert forall|j: int| 0 <= j < k implies #[trigger] self.environment.frames@[j] == old(self).environment.frames@[j] by {
                    assert(self.environment.frames@[j] == before.frames@[j]);
                }
            }
            i += 1;
        }
        proof {
            assert(f.params@.subrange(f.params@.len() as int, f.params@.len() as int) =~= Seq::<String>::empty());
        }
        Ok(caller)
    }

    /// Leaving a call: the caller's frame is current again, and the value the
    /// body returned (nil where it returned none) is handed back.
    pub fn finish_call(&mut self, previous: usize) -> (r: Value)
        requires
            old(self).environment.wf(),
            previous < old(self).environment.frames@.len(),
        ensures
            final(self).environment.wf(),
            final(self).environment.frames@ == old(self).environment.frames@,
            final(self).environment.locals@ == old(self).environment.locals@,
            final(self).environment.current == previous,
            final(self).return_value is None,
            r == match old(self).return_value {
                Some(v) => v,
                None => Value::Nil,
            },
    {
        self.environment.set_current(previous);
        match self.return_value.take() {
            Some(v) => v,
            None => Value::Nil,
        }
    }
}

} // verus!
