//! Where expressions look up their names.

use vstd::prelude::*;

use crate::number::Number;
use crate::value;
use crate::value::{Value, ValueView};

verus! {

/// A function made by `DEF FN`: its parameter and its text.
pub struct UserFn {
    pub param: String,
    pub body: String,
}

/// What a `UserFn` stands for.
pub struct UserFnView {
    pub param: Seq<char>,
    pub body: Seq<char>,
}

impl View for UserFn {
    type V = UserFnView;

    open spec fn view(&self) -> UserFnView {
        UserFnView { param: self.param@, body: self.body@ }
    }
}

/// How an environment answers a call of a built-in function.
pub enum Called {
    /// With a value.
    Value(Value),
    /// With a text, to be evaluated in the same environment.
    Evaluate(String),
}

/// What a `Called` stands for.
pub enum CalledView {
    Value(ValueView),
    Evaluate(Seq<char>),
}

impl View for Called {
    type V = CalledView;

    open spec fn view(&self) -> CalledView {
        match self {
            Called::Value(v) => CalledView::Value(v@),
            Called::Evaluate(s) => CalledView::Evaluate(s@),
        }
    }
}

/// The lookups of an environment as functions.
pub struct EnvView {
    pub var: spec_fn(Seq<char>) -> Option<ValueView>,
    pub element: spec_fn(Seq<char>, Number) -> Option<ValueView>,
    pub user_fn: spec_fn(Seq<char>) -> Option<UserFnView>,
    pub call: spec_fn(Seq<char>, Seq<ValueView>, u64) -> (Option<CalledView>, u64),
}

/// Variable lookup and function dispatch.
pub trait Env {
    /// The lookups answer as `model` says. Nothing is promised of an
    /// environment that leaves this as it is.
    open spec fn lawful(&self) -> bool {
        false
    }

    open spec fn model(&self) -> EnvView {
        arbitrary()
    }

    /// The value of a variable.
    fn get_var(&self, name: &str) -> (r: Option<Value>)
        ensures
            self.lawful() ==> value::option_view(r) == (self.model().var)(name@),
    ;

    /// An element of an array.
    fn get_array(&self, name: &str, index: Number) -> (r: Option<Value>)
        ensures
            self.lawful() ==> value::option_view(r) == (self.model().element)(name@, index),
    ;

    /// A function made by `DEF FN`.
    fn get_user_fn(&self, name: &str) -> (r: Option<UserFn>)
        ensures
            self.lawful() ==> user_fn_view(r) == (self.model().user_fn)(name@),
    ;

    /// Call a built-in function. `seed` is the state of the random numbers.
    fn call_fn(&self, name: &str, args: &[Value], seed: &mut u64) -> (r: Option<Called>)
        ensures
            self.lawful() ==> (called_view(r), *final(seed)) == (self.model().call)(
                name@,
                values_view(args@),
                *old(seed),
            ),
    ;
}

pub open spec fn user_fn_view(f: Option<UserFn>) -> Option<UserFnView> {
    match f {
        Some(f) => Some(f@),
        None => None,
    }
}

pub open spec fn called_view(c: Option<Called>) -> Option<CalledView> {
    match c {
        Some(c) => Some(c@),
        None => None,
    }
}

pub open spec fn values_view(args: Seq<Value>) -> Seq<ValueView> {
    args.map_values(|v: Value| v@)
}

/// An environment with no variables and no functions.
pub struct EmptyEnv;

impl Env for EmptyEnv {
    open spec fn lawful(&self) -> bool {
        true
    }

    open spec fn model(&self) -> EnvView {
        EnvView {
            var: |name: Seq<char>| None,
            element: |name: Seq<char>, index: Number| None,
            user_fn: |name: Seq<char>| None,
            call: |name: Seq<char>, args: Seq<ValueView>, seed: u64| (None, seed),
        }
    }

    fn get_var(&self, name: &str) -> (r: Option<Value>) {
        None
    }

    fn get_array(&self, name: &str, index: Number) -> (r: Option<Value>) {
        None
    }

    fn get_user_fn(&self, name: &str) -> (r: Option<UserFn>) {
        None
    }

    fn call_fn(&self, name: &str, args: &[Value], seed: &mut u64) -> (r: Option<Called>) {
        None
    }
}

} // verus!
