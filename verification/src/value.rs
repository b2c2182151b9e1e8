use vstd::prelude::*;

verus! {

/// The Lua values that the libraries take and hand back.  Functions,
/// tables and threads live in the runtime and are carried by their handle.
pub enum Value {
    Nil,
    Boolean(bool),
    Integer(i64),
    String(Vec<u8>),
    Function(u64),
    Table(u64),
    Thread(u64),
}

/// What a [`Value`] is, with a string taken by its bytes.
pub enum ValueView {
    Nil,
    Boolean(bool),
    Integer(i64),
    String(Seq<u8>),
    Function(u64),
    Table(u64),
    Thread(u64),
}

impl View for Value {
    type V = ValueView;

    open spec fn view(&self) -> ValueView {
        match self {
            Value::Nil => ValueView::Nil,
            Value::Boolean(b) => ValueView::Boolean(*b),
            Value::Integer(i) => ValueView::Integer(*i),
            Value::String(s) => ValueView::String(s@),
            Value::Function(f) => ValueView::Function(*f),
            Value::Table(t) => ValueView::Table(*t),
            Value::Thread(t) => ValueView::Thread(*t),
        }
    }
}

/// The views of a sequence of values.
pub open spec fn values_view(vs: Seq<Value>) -> Seq<ValueView> {
    vs.map_values(|v: Value| v@)
}

/// Why a library callback could not run.
#[derive(Clone, Copy, PartialEq, Eq, Structural)]
pub enum CallError {
    /// An argument is not of the kind the callback takes.
    BadArgument,
    /// The first argument, which should have been a thread, is not one.
    ThreadExpected,
    /// The function argument of `coroutine.create` cannot be called.
    NotCallable,
    /// The replacement of `string.gsub` is not a string, a table or a
    /// function.
    BadReplacement,
}

/// The `k`-th argument (0-based); an argument that was not given is `nil`.
pub open spec fn arg(args: Seq<ValueView>, k: int) -> ValueView {
    if 0 <= k < args.len() {
        args[k]
    } else {
        ValueView::Nil
    }
}

/// The bytes of a string argument.
pub open spec fn as_bytes(v: ValueView) -> Option<Seq<u8>> {
    match v {
        ValueView::String(s) => Some(s),
        _ => None,
    }
}

/// An integer argument.
pub open spec fn as_integer(v: ValueView) -> Option<i64> {
    match v {
        ValueView::Integer(i) => Some(i),
        _ => None,
    }
}

/// An optional integer argument: `nil` is `None`, an integer is `Some`,
/// and anything else is not an optional integer.
pub open spec fn as_opt_integer(v: ValueView) -> Option<Option<i64>> {
    match v {
        ValueView::Nil => Some(None),
        ValueView::Integer(i) => Some(Some(i)),
        _ => None,
    }
}

/// A thread argument.
pub open spec fn as_thread(v: ValueView) -> Option<u64> {
    match v {
        ValueView::Thread(t) => Some(t),
        _ => None,
    }
}

proof fn lemma_arg_view(args: &[Value], k: usize)
    requires
        k < args@.len(),
    ensures
        arg(values_view(args@), k as int) == args@[k as int]@,
{
}

/// The `k`-th argument where it is a string.
pub fn string_arg(args: &[Value], k: usize) -> (r: Option<&Vec<u8>>)
    ensures
        match as_bytes(arg(values_view(args@), k as int)) {
            Some(b) => r matches Some(v) && v@ == b,
            None => r is None,
        },
{
    if k < args.len() {
        proof {
            lemma_arg_view(args, k);
        }
        match &args[k] {
            Value::String(b) => Some(b),
            _ => None,
        }
    } else {
        None
    }
}

/// The `k`-th argument where it is an integer.
pub fn integer_arg(args: &[Value], k: usize) -> (r: Option<i64>)
    ensures
        r == as_integer(arg(values_view(args@), k as int)),
{
    if k < args.len() {
        proof {
            lemma_arg_view(args, k);
        }
        match &args[k] {
            Value::Integer(i) => Some(*i),
            _ => None,
        }
    } else {
        None
    }
}

/// The `k`-th argument where it is `nil` or an integer.
pub fn opt_integer_arg(args: &[Value], k: usize) -> (r: Option<Option<i64>>)
    ensures
        r == as_opt_integer(arg(values_view(args@), k as int)),
{
    if k < args.len() {
        proof {
            lemma_arg_view(args, k);
        }
        match &args[k] {
            Value::Nil => Some(None),
            Value::Integer(i) => Some(Some(*i)),
            _ => None,
        }
    } else {
        Some(None)
    }
}

/// The `k`-th argument where it is a thread.
pub fn thread_arg(args: &[Value], k: usize) -> (r: Option<u64>)
    ensures
        r == as_thread(arg(values_view(args@), k as int)),
{
    if k < args.len() {
        proof {
            lemma_arg_view(args, k);
        }
        match &args[k] {
            Value::Thread(t) => Some(*t),
            _ => None,
        }
    } else {
        None
    }
}

} // verus!
