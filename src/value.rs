//! Runtime values, callables and classes.
use crate::ast::Stmt;
use std::rc::Rc;
use vstd::prelude::*;

verus! {

/// A user-defined function: its formal parameters, its body, and the
/// environment frame that was current where it was declared (its closure).
pub struct FunctionValue {
    pub name: String,
    pub arity: usize,
    pub params: Vec<String>,
    pub body: Rc<Vec<Stmt>>,
    pub closure: usize,
}

/// A host-provided function of fixed arity. A command-backed one carries the
/// command line, already split into program and arguments.
pub struct NativeValue {
    pub name: String,
    pub arity: usize,
    pub command: Option<Vec<String>>,
}

/// A class: its name, its own methods, and at most one superclass.
pub struct ClassValue {
    pub name: String,
    pub methods: Vec<(String, FunctionValue)>,
    pub superclass: Option<Rc<ClassValue>>,
}

pub enum Value {
    Nil,
    Bool(bool),
    Number(i64),
    Text(String),
    Array(Vec<Value>),
    Function(FunctionValue),
    Native(NativeValue),
    Class(Rc<ClassValue>),
}

/// The name of a value's runtime type, as error messages show it.
pub open spec fn runtime_type(v: Value) -> Seq<char> {
    match v {
        Value::Nil => "Nil"@,
        Value::Bool(_) => "Bool"@,
        Value::Number(_) => "Number"@,
        Value::Text(_) => "String"@,
        Value::Array(_) => "Array"@,
        Value::Function(_) => "Function"@,
        Value::Native(_) => "NativeFunction"@,
        Value::Class(_) => "Class"@,
    }
}

/// Only `nil` and `false` are falsy.
pub open spec fn truthy(v: Value) -> bool {
    !(v is Nil || v == Value::Bool(false))
}

impl Value {
    pub fn is_truthy(&self) -> (r: bool)
        ensures
            r == truthy(*self),
    {
        match self {
            Value::Nil => false,
            Value::Bool(b) => *b,
            _ => true,
        }
    }

    pub fn to_type(&self) -> (r: String)
        ensures
            r@ == runtime_type(*self),
    {
        proof {
            reveal_strlit("Nil");
            reveal_strlit("Bool");
            reveal_strlit("Number");
            reveal_strlit("String");
            reveal_strlit("Array");
            reveal_strlit("Function");
            reveal_strlit("NativeFunction");
            reveal_strlit("Class");
        }
        match self {
            Value::Nil => "Nil".to_string(),
            Value::Bool(_) => "Bool".to_string(),
            Value::Number(_) => "Number".to_string(),
            Value::Text(_) => "String".to_string(),
            Value::Array(_) => "Array".to_string(),
            Value::Function(_) => "Function".to_string(),
            Value::Native(_) => "NativeFunction".to_string(),
            Value::Class(_) => "Class".to_string(),
        }
    }
}

/// The method that an instance of `c` finds under `name`: its own table
/// first, then its superclass chain.
pub open spec fn method_of(c: ClassValue, name: Seq<char>) -> Option<FunctionValue>
    decreases c,
{
    match own_method(c.methods@, name) {
        Some(f) => Some(f),
        None => match c.superclass {
            Some(sc) => method_of(*sc, name),
            None => None,
        },
    }
}

/// The last entry of a method table under `name`.
pub open spec fn own_method(ms: Seq<(String, FunctionValue)>, name: Seq<char>) -> Option<FunctionValue>
    decreases ms.len(),
{
    if ms.len() == 0 {
        None
    } else if ms.last().0@ == name {
        Some(ms.last().1)
    } else {
        own_method(ms.drop_last(), name)
    }
}

impl ClassValue {
    /// Looks a method up along the class chain.
    pub fn find_method(&self, name: &String) -> (r: Option<&FunctionValue>)
        ensures
            match method_of(*self, name@) {
                Some(f) => r is Some && *r->Some_0 == f,
                None => r is None,
            },
        decreases *self,
    {
        let mut i: usize = self.methods.len();
        proof {
            assert(self.methods@.take(i as int) =~= self.methods@);
        }
        while i > 0
            invariant
                i <= self.methods.len(),
                own_method(self.methods@, name@) == own_method(self.methods@.take(i as int), name@),
            decreases i,
        {
            proof {
                assert(self.methods@.take(i as int).drop_last() =~= self.methods@.take(i - 1));
            }
            if self.methods[i - 1].0 == *name {
                return Some(&self.methods[i - 1].1);
            }
            i -= 1;
        }
        match &self.superclass {
            Some(sc) => sc.find_method(name),
            None => None,
        }
    }
}

} // verus!
