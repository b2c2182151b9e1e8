use vstd::prelude::*;

use crate::registry::Builtin;
use crate::registry::Context;
use crate::registry::Table;
use crate::value::arg;
use crate::value::as_thread;
use crate::value::thread_arg;
use crate::value::values_view;
use crate::value::CallError;
use crate::value::Value;
use crate::value::ValueView;

verus! {

/// The state of a Lua thread, as `coroutine.status` reports it.
#[derive(Clone, Copy, PartialEq, Eq, Structural)]
pub enum ThreadMode {
    /// The thread has finished or stopped on an error.
    Stopped,
    /// The thread has a result ready to be taken.
    Result,
    /// The thread has resumed another thread and waits for it.
    Normal,
    /// The thread has been created or has yielded, and can be resumed.
    Suspended,
    /// The thread waits on a sequence it called.
    Waiting,
    /// The thread is running.
    Running,
}

/// The name that `coroutine.status` gives a thread in each state, as
/// ASCII bytes: "dead", "running", "normal" or "suspended".
pub open spec fn status_bytes(mode: ThreadMode) -> Seq<u8> {
    match mode {
        ThreadMode::Stopped => seq![100u8, 101, 97, 100],
        ThreadMode::Running | ThreadMode::Waiting => seq![114u8, 117, 110, 110, 105, 110, 103],
        ThreadMode::Normal => seq![110u8, 111, 114, 109, 97, 108],
        ThreadMode::Result | ThreadMode::Suspended => seq![
            115u8,
            117,
            115,
            112,
            101,
            110,
            100,
            101,
            100,
        ],
    }
}

/// The name of the state of a thread, as `coroutine.status` gives it.
pub fn status_name(mode: ThreadMode) -> (r: Vec<u8>)
    ensures
        r@ == status_bytes(mode),
{
    let r: Vec<u8> = match mode {
        ThreadMode::Stopped => vec![100u8, 101, 97, 100],
        ThreadMode::Running | ThreadMode::Waiting => vec![114u8, 117, 110, 110, 105, 110, 103],
        ThreadMode::Normal => vec![110u8, 111, 114, 109, 97, 108],
        ThreadMode::Result | ThreadMode::Suspended => vec![
            115u8,
            117,
            115,
            112,
            101,
            110,
            100,
            101,
            100,
        ],
    };
    assert(r@ =~= status_bytes(mode));
    r
}

/// What runs in the calling thread once the thread it handed control to
/// gives control back.
#[derive(Clone, Copy, PartialEq, Eq, Structural)]
pub enum Sequel {
    /// Return `true` and the results, or `false` and the error, as
    /// `pcall` does.
    PCall,
}

/// How a library callback hands control on.
pub enum CallbackReturn<T> {
    /// Return the values left on the stack.
    Return,
    /// Resume `thread` with the values on the stack, then run `then`.
    Resume { thread: T, then: Option<Sequel> },
    /// Yield the values on the stack, to `to_thread` if given, then run
    /// `then`.
    Yield { to_thread: Option<T>, then: Option<Sequel> },
}

/// The callbacks of the coroutine library that hand control to another
/// thread.
#[derive(Clone, Copy, PartialEq, Eq, Structural)]
pub enum TransferOp {
    /// `coroutine.resume`
    Resume,
    /// `coroutine.continue`
    Continue,
    /// `coroutine.yield`
    Yield,
    /// `coroutine.yieldto`
    YieldTo,
}

/// The control transfer of `coroutine.resume`, `coroutine.continue`,
/// `coroutine.yield` and `coroutine.yieldto`.  `thread` is the first
/// argument where it is a thread.  `resume` catches the errors of the
/// resumed thread (the `PCall` sequel), `continue` lets them through;
/// `yield` yields to the resumer, `yieldto` to the given thread.
pub fn transfer<T>(op: TransferOp, thread: Option<T>) -> (r: Result<CallbackReturn<T>, CallError>)
    ensures
        match op {
            TransferOp::Resume => match thread {
                Some(t) => r == Ok::<CallbackReturn<T>, CallError>(
                    CallbackReturn::Resume { thread: t, then: Some(Sequel::PCall) },
                ),
                None => r == Err::<CallbackReturn<T>, CallError>(CallError::ThreadExpected),
            },
            TransferOp::Continue => match thread {
                Some(t) => r == Ok::<CallbackReturn<T>, CallError>(
                    CallbackReturn::Resume { thread: t, then: None },
                ),
                None => r == Err::<CallbackReturn<T>, CallError>(CallError::ThreadExpected),
            },
            TransferOp::Yield => r == Ok::<CallbackReturn<T>, CallError>(
                CallbackReturn::Yield { to_thread: None, then: None },
            ),
            TransferOp::YieldTo => match thread {
                Some(t) => r == Ok::<CallbackReturn<T>, CallError>(
                    CallbackReturn::Yield { to_thread: Some(t), then: None },
                ),
                None => r == Err::<CallbackReturn<T>, CallError>(CallError::ThreadExpected),
            },
        },
{
    match op {
        TransferOp::Yield => Ok(CallbackReturn::Yield { to_thread: None, then: None }),
        TransferOp::Resume => match thread {
            Some(t) => Ok(CallbackReturn::Resume { thread: t, then: Some(Sequel::PCall) }),
            None => Err(CallError::ThreadExpected),
        },
        TransferOp::Continue => match thread {
            Some(t) => Ok(CallbackReturn::Resume { thread: t, then: None }),
            None => Err(CallError::ThreadExpected),
        },
        TransferOp::YieldTo => match thread {
            Some(t) => Ok(CallbackReturn::Yield { to_thread: Some(t), then: None }),
            None => Err(CallError::ThreadExpected),
        },
    }
}

/// What the runtime knows that the coroutine callbacks need: the answers
/// to the questions that only the runtime can answer for one call.
pub struct CoroutineRuntime {
    /// Whether the first argument can be called (a function, or a value
    /// with a `__call` metamethod).
    pub first_callable: bool,
    /// The thread that `coroutine.create` makes, suspended on the function.
    pub new_thread: u64,
    /// The state of the thread given as the first argument.
    pub thread_mode: ThreadMode,
    /// The running thread.
    pub current_thread: u64,
    /// Whether the running thread is the main one.
    pub current_is_main: bool,
}

/// The callbacks of the `coroutine` library.
pub open spec fn is_coroutine_builtin(b: Builtin) -> bool {
    ||| b == Builtin::CoroutineCreate
    ||| b == Builtin::CoroutineResume
    ||| b == Builtin::CoroutineContinue
    ||| b == Builtin::CoroutineStatus
    ||| b == Builtin::CoroutineYield
    ||| b == Builtin::CoroutineYieldTo
    ||| b == Builtin::CoroutineRunning
}

/// What calling the coroutine callback `b` with the arguments `args` does:
/// how it hands control on and what it leaves on the stack, or why it
/// fails.  `resume`, `continue` and `yieldto` take the thread from the
/// front of the stack and leave the other arguments; `yield` leaves all of
/// them.
pub open spec fn coroutine_call(b: Builtin, args: Seq<ValueView>, rt: CoroutineRuntime) -> Result<
    (CallbackReturn<u64>, Seq<ValueView>),
    CallError,
> {
    match b {
        Builtin::CoroutineCreate => if rt.first_callable {
            Ok((CallbackReturn::Return, seq![ValueView::Thread(rt.new_thread)]))
        } else {
            Err(CallError::NotCallable)
        },
        Builtin::CoroutineResume => match as_thread(arg(args, 0)) {
            Some(t) => Ok(
                (
                    CallbackReturn::Resume { thread: t, then: Some(Sequel::PCall) },
                    args.drop_first(),
                ),
            ),
            None => Err(CallError::ThreadExpected),
        },
        Builtin::CoroutineContinue => match as_thread(arg(args, 0)) {
            Some(t) => Ok((CallbackReturn::Resume { thread: t, then: None }, args.drop_first())),
            None => Err(CallError::ThreadExpected),
        },
        Builtin::CoroutineStatus => match as_thread(arg(args, 0)) {
            Some(_) => Ok(
                (CallbackReturn::Return, seq![ValueView::String(status_bytes(rt.thread_mode))]),
            ),
            None => Err(CallError::ThreadExpected),
        },
        Builtin::CoroutineYield => Ok((CallbackReturn::Yield { to_thread: None, then: None }, args)),
        Builtin::CoroutineYieldTo => match as_thread(arg(args, 0)) {
            Some(t) => Ok(
                (CallbackReturn::Yield { to_thread: Some(t), then: None }, args.drop_first()),
            ),
            None => Err(CallError::ThreadExpected),
        },
        _ => Ok(
            (
                CallbackReturn::Return,
                seq![ValueView::Thread(rt.current_thread), ValueView::Boolean(rt.current_is_main)],
            ),
        ),
    }
}

/// Calls the coroutine callback `b`: `stack` holds its arguments on entry
/// and what it leaves (its results, or the values it passes on) on exit.
pub fn call_coroutine(b: Builtin, stack: &mut Vec<Value>, rt: &CoroutineRuntime) -> (r: Result<
    CallbackReturn<u64>,
    CallError,
>)
    requires
        is_coroutine_builtin(b),
    ensures
        match coroutine_call(b, values_view(old(stack)@), *rt) {
            Ok((c, vs)) => r == Ok::<CallbackReturn<u64>, CallError>(c) && values_view(
                final(stack)@,
            ) == vs,
            Err(e) => r == Err::<CallbackReturn<u64>, CallError>(e),
        },
{
    let ghost args = values_view(stack@);
    match b {
        Builtin::CoroutineCreate => {
            if !rt.first_callable {
                return Err(CallError::NotCallable);
            }
            stack.clear();
            stack.push(Value::Thread(rt.new_thread));
            assert(values_view(stack@) =~= seq![ValueView::Thread(rt.new_thread)]);
            Ok(CallbackReturn::Return)
        },
        Builtin::CoroutineStatus => {
            if thread_arg(stack.as_slice(), 0).is_none() {
                return Err(CallError::ThreadExpected);
            }
            stack.clear();
            stack.push(Value::String(status_name(rt.thread_mode)));
            assert(values_view(stack@) =~= seq![
                ValueView::String(status_bytes(rt.thread_mode)),
            ]);
            Ok(CallbackReturn::Return)
        },
        Builtin::CoroutineRunning => {
            stack.clear();
            stack.push(Value::Thread(rt.current_thread));
            stack.push(Value::Boolean(rt.current_is_main));
            assert(values_view(stack@) =~= seq![
                ValueView::Thread(rt.current_thread),
                ValueView::Boolean(rt.current_is_main),
            ]);
            Ok(CallbackReturn::Return)
        },
        Builtin::CoroutineYield => transfer(TransferOp::Yield, None),
        _ => {
            let op = if b == Builtin::CoroutineResume {
                TransferOp::Resume
            } else if b == Builtin::CoroutineContinue {
                TransferOp::Continue
            } else {
                TransferOp::YieldTo
            };
            let thread = thread_arg(stack.as_slice(), 0);
            if thread.is_some() {
                let ghost before = stack@;
                stack.remove(0);
                assert(values_view(stack@) =~= values_view(before).drop_first());
            }
            transfer(op, thread)
        },
    }
}

/// `coroutine.resume`, `coroutine.continue` and `coroutine.yieldto`, given
/// a thread as first argument, hand control to (or yield to) that thread
/// and pass on every other argument, in order: the thread put back in front
/// of what is left on the stack gives the arguments again.
pub proof fn lemma_transfer_passes_arguments(args: Seq<ValueView>, rt: CoroutineRuntime, t: u64)
    requires
        args.len() >= 1,
        args[0] == ValueView::Thread(t),
    ensures
        coroutine_call(Builtin::CoroutineResume, args, rt) matches Ok((c, rest)) && c == (
        CallbackReturn::Resume { thread: t, then: Some(Sequel::PCall) }) && seq![args[0]] + rest
            == args && rest.len() == args.len() - 1,
        coroutine_call(Builtin::CoroutineContinue, args, rt) matches Ok((c, rest)) && c == (
        CallbackReturn::<u64>::Resume { thread: t, then: None }) && seq![args[0]] + rest == args
            && rest.len() == args.len() - 1,
        coroutine_call(Builtin::CoroutineYieldTo, args, rt) matches Ok((c, rest)) && c == (
        CallbackReturn::<u64>::Yield { to_thread: Some(t), then: None }) && seq![args[0]] + rest
            == args && rest.len() == args.len() - 1,
{
    assert(seq![args[0]] + args.drop_first() =~= args);
}

/// `coroutine.yield` yields to the thread that resumed this one and leaves
/// all of its arguments on the stack, unchanged and in order, however many
/// there are.
pub proof fn lemma_yield_keeps_arguments(args: Seq<ValueView>, rt: CoroutineRuntime)
    ensures
        coroutine_call(Builtin::CoroutineYield, args, rt) matches Ok((c, rest)) && c == (
        CallbackReturn::<u64>::Yield { to_thread: None, then: None }) && rest == args,
{
}

/// The `coroutine` library table: each name and the callback it stands
/// for.
pub open spec fn coroutine_library() -> Map<Seq<char>, Builtin> {
    Map::empty().insert("create"@, Builtin::CoroutineCreate).insert(
        "resume"@,
        Builtin::CoroutineResume,
    ).insert("continue"@, Builtin::CoroutineContinue).insert(
        "status"@,
        Builtin::CoroutineStatus,
    ).insert("yield"@, Builtin::CoroutineYield).insert("yieldto"@, Builtin::CoroutineYieldTo).insert(
        "running"@,
        Builtin::CoroutineRunning,
    )
}

/// Registers the `coroutine` library as the global `coroutine`, in place of
/// any global of that name.
pub fn load_coroutine(ctx: &mut Context)
    ensures
        final(ctx)@ == old(ctx)@.insert("coroutine"@, coroutine_library()),
{
    let mut coroutine: Table<Builtin> = Table::new();
    coroutine.set("create".to_owned(), Builtin::CoroutineCreate);
    coroutine.set("resume".to_owned(), Builtin::CoroutineResume);
    coroutine.set("continue".to_owned(), Builtin::CoroutineContinue);
    coroutine.set("status".to_owned(), Builtin::CoroutineStatus);
    coroutine.set("yield".to_owned(), Builtin::CoroutineYield);
    coroutine.set("yieldto".to_owned(), Builtin::CoroutineYieldTo);
    coroutine.set("running".to_owned(), Builtin::CoroutineRunning);
    ctx.set_global("coroutine".to_owned(), coroutine);
}

} // verus!
