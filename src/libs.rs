//! Registration of the built-in native functions in an environment.
use crate::environment::Environment;
use crate::value::{NativeValue, Value};
use vstd::prelude::*;

verus! {

/// `v` is the native function `name` of the given arity.
pub open spec fn is_native(v: Value, name: Seq<char>, arity: usize) -> bool {
    &&& v is Native
    &&& v->Native_0.name@ == name
    &&& v->Native_0.arity == arity
    &&& v->Native_0.command is None
}

/// After registering `names` of the given arity in frame `cur`: each of them
/// is bound to its native function there, every other binding is as before,
/// and the other frames are untouched.
pub open spec fn registered(
    after: Environment,
    before: Environment,
    names: Seq<Seq<char>>,
    arity: usize,
) -> bool {
    let cur = before.current as int;
    &&& after.wf()
    &&& after.same_but(&before, cur)
    &&& forall|i: int|
        0 <= i < names.len() ==> after.frame_map(cur).contains_key(#[trigger] names[i])
            && is_native(after.frame_map(cur)[names[i]], names[i], arity)
    &&& forall|k: Seq<char>|
        !names.contains(k) ==> (#[trigger] after.frame_map(cur).contains_key(k)
            == before.frame_map(cur).contains_key(k)) && (before.frame_map(cur).contains_key(k)
            ==> after.frame_map(cur)[k] == before.frame_map(cur)[k])
}

pub open spec fn array_native_names() -> Seq<Seq<char>> {
    seq!["push"@, "join"@, "pop"@, "shift"@]
}

pub open spec fn math_native_names() -> Seq<Seq<char>> {
    seq![
        "sin"@,
        "asin"@,
        "cos"@,
        "acos"@,
        "tan"@,
        "atan"@,
        "round"@,
        "floor"@,
        "to_degrees"@,
        "to_radians"@,
    ]
}

fn define_native(environment: &mut Environment, name: &str, arity: usize)
    requires
        old(environment).wf(),
    ensures
        final(environment).wf(),
        final(environment).same_but(old(environment), old(environment).current as int),
        final(environment).frame_map(old(environment).current as int) == old(environment).frame_map(
            old(environment).current as int,
        ).insert(name@, final(environment).frame_map(old(environment).current as int)[name@]),
        is_native(final(environment).frame_map(old(environment).current as int)[name@], name@, arity),
{
    let native = NativeValue { name: String::from_str(name), arity, command: None };
    environment.define(String::from_str(name), Value::Native(native));
}

/// Registers the array functions `push`, `join`, `pop` and `shift`, each of
/// one argument.
pub fn include_array_natives(environment: &mut Environment)
    requires
        old(environment).wf(),
    ensures
        registered(*final(environment), *old(environment), array_native_names(), 1),
{
    proof {
        reveal_strlit("push");
        reveal_strlit("join");
        reveal_strlit("pop");
        reveal_strlit("shift");
    }
    define_native(environment, "push", 1);
    define_native(environment, "join", 1);
    define_native(environment, "pop", 1);
    define_native(environment, "shift", 1);
    proof {
        let names = array_native_names();
        assert forall|k: Seq<char>| !names.contains(k) implies k != names[0] && k != names[1] && k
            != names[2] && k != names[3] by {
            if k == names[0] {
                assert(names.contains(names[0]));
            }
            if k == names[1] {
                assert(names.contains(names[1]));
            }
            if k == names[2] {
                assert(names.contains(names[2]));
            }
            if k == names[3] {
                assert(names.contains(names[3]));
            }
        }
    }
}


/// Registers the math functions `sin`, `asin`, `cos`, `acos`, `tan`, `atan`,
/// `round`, `floor`, `to_degrees` and `to_radians`, each of one argument.
pub fn include_math_natives(environment: &mut Environment)
    requires
        old(environment).wf(),
    ensures
        registered(*final(environment), *old(environment), math_native_names(), 1),
{
    proof {
        reveal_strlit("sin");
        reveal_strlit("asin");
        reveal_strlit("cos");
        reveal_strlit("acos");
        reveal_strlit("tan");
        reveal_strlit("atan");
        reveal_strlit("round");
        reveal_strlit("floor");
        reveal_strlit("to_degrees");
        reveal_strlit("to_radians");
    }
    define_native(environment, "sin", 1);
    define_native(environment, "asin", 1);
    define_native(environment, "cos", 1);
    define_native(environment, "acos", 1);
    define_native(environment, "tan", 1);
    define_native(environment, "atan", 1);
    define_native(environment, "round", 1);
    define_native(environment, "floor", 1);
    define_native(environment, "to_degrees", 1);
    define_native(environment, "to_radians", 1);
    proof {
        let names = math_native_names();
        assert forall|k: Seq<char>, i: int|
            #![trigger names.contains(k), names[i]]
            0 <= i < names.len() && k == names[i] implies names.contains(k) by {}
    }
}

} // verus!
