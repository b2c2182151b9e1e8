use piccolo_stdlib::coroutine::status_name;
use piccolo_stdlib::coroutine::transfer;
use piccolo_stdlib::coroutine::CallbackReturn;
use piccolo_stdlib::coroutine::Sequel;
use piccolo_stdlib::coroutine::ThreadMode;
use piccolo_stdlib::coroutine::TransferOp;
use piccolo_stdlib::coroutine::call_coroutine;
use piccolo_stdlib::coroutine::CoroutineRuntime;
use piccolo_stdlib::registry::Builtin;
use piccolo_stdlib::value::CallError;
use piccolo_stdlib::value::Value;

#[test]
fn status_names() {
    assert_eq!(status_name(ThreadMode::Stopped), b"dead".to_vec());
    assert_eq!(status_name(ThreadMode::Running), b"running".to_vec());
    assert_eq!(status_name(ThreadMode::Waiting), b"running".to_vec());
    assert_eq!(status_name(ThreadMode::Normal), b"normal".to_vec());
    assert_eq!(status_name(ThreadMode::Result), b"suspended".to_vec());
    assert_eq!(status_name(ThreadMode::Suspended), b"suspended".to_vec());
}

#[test]
fn resume_catches_errors_continue_does_not() {
    match transfer(TransferOp::Resume, Some(7u32)) {
        Ok(CallbackReturn::Resume { thread: 7, then: Some(Sequel::PCall) }) => {}
        _ => panic!("resume"),
    }
    match transfer(TransferOp::Continue, Some(7u32)) {
        Ok(CallbackReturn::Resume { thread: 7, then: None }) => {}
        _ => panic!("continue"),
    }
}

#[test]
fn yield_and_yieldto() {
    match transfer::<u32>(TransferOp::Yield, None) {
        Ok(CallbackReturn::Yield { to_thread: None, then: None }) => {}
        _ => panic!("yield"),
    }
    match transfer(TransferOp::Yield, Some(3u32)) {
        Ok(CallbackReturn::Yield { to_thread: None, then: None }) => {}
        _ => panic!("yield ignores its arguments"),
    }
    match transfer(TransferOp::YieldTo, Some(3u32)) {
        Ok(CallbackReturn::Yield { to_thread: Some(3), then: None }) => {}
        _ => panic!("yieldto"),
    }
}

#[test]
fn missing_thread_is_an_error() {
    for op in [TransferOp::Resume, TransferOp::Continue, TransferOp::YieldTo] {
        match transfer::<u32>(op, None) {
            Err(CallError::ThreadExpected) => {}
            _ => panic!("expected an error"),
        }
    }
}

fn rt(callable: bool, mode: ThreadMode) -> CoroutineRuntime {
    CoroutineRuntime {
        first_callable: callable,
        new_thread: 42,
        thread_mode: mode,
        current_thread: 1,
        current_is_main: true,
    }
}

fn is_bytes(v: &Value, expected: &[u8]) -> bool {
    matches!(v, Value::String(s) if s.as_slice() == expected)
}

#[test]
fn call_create_makes_a_thread_or_fails() {
    let mut stack = vec![Value::Function(5), Value::Integer(1)];
    assert!(matches!(
        call_coroutine(Builtin::CoroutineCreate, &mut stack, &rt(true, ThreadMode::Suspended)),
        Ok(CallbackReturn::Return)
    ));
    assert_eq!(stack.len(), 1);
    assert!(matches!(stack[0], Value::Thread(42)));
    let mut stack = vec![Value::Integer(1)];
    assert!(matches!(
        call_coroutine(Builtin::CoroutineCreate, &mut stack, &rt(false, ThreadMode::Suspended)),
        Err(CallError::NotCallable)
    ));
}

#[test]
fn call_resume_takes_the_thread_and_leaves_the_arguments() {
    let mut stack = vec![Value::Thread(9), Value::Integer(1), Value::Boolean(false)];
    match call_coroutine(Builtin::CoroutineResume, &mut stack, &rt(false, ThreadMode::Normal)) {
        Ok(CallbackReturn::Resume { thread: 9, then: Some(Sequel::PCall) }) => {}
        _ => panic!("resume"),
    }
    assert_eq!(stack.len(), 2);
    assert!(matches!(stack[0], Value::Integer(1)));
    assert!(matches!(stack[1], Value::Boolean(false)));

    let mut stack = vec![Value::Thread(9)];
    match call_coroutine(Builtin::CoroutineContinue, &mut stack, &rt(false, ThreadMode::Normal)) {
        Ok(CallbackReturn::Resume { thread: 9, then: None }) => {}
        _ => panic!("continue"),
    }
    assert!(stack.is_empty());

    let mut stack = vec![Value::Integer(3)];
    assert!(matches!(
        call_coroutine(Builtin::CoroutineResume, &mut stack, &rt(false, ThreadMode::Normal)),
        Err(CallError::ThreadExpected)
    ));
}

#[test]
fn call_yield_and_yieldto() {
    let mut stack = vec![Value::Integer(7)];
    match call_coroutine(Builtin::CoroutineYield, &mut stack, &rt(false, ThreadMode::Normal)) {
        Ok(CallbackReturn::Yield { to_thread: None, then: None }) => {}
        _ => panic!("yield"),
    }
    assert_eq!(stack.len(), 1);
    let mut stack = vec![Value::Thread(4), Value::Integer(7)];
    match call_coroutine(Builtin::CoroutineYieldTo, &mut stack, &rt(false, ThreadMode::Normal)) {
        Ok(CallbackReturn::Yield { to_thread: Some(4), then: None }) => {}
        _ => panic!("yieldto"),
    }
    assert_eq!(stack.len(), 1);
    let mut stack: Vec<Value> = Vec::new();
    assert!(matches!(
        call_coroutine(Builtin::CoroutineYieldTo, &mut stack, &rt(false, ThreadMode::Normal)),
        Err(CallError::ThreadExpected)
    ));
}

#[test]
fn call_status_and_running() {
    let mut stack = vec![Value::Thread(2)];
    assert!(call_coroutine(Builtin::CoroutineStatus, &mut stack, &rt(false, ThreadMode::Stopped)).is_ok());
    assert_eq!(stack.len(), 1);
    assert!(is_bytes(&stack[0], b"dead"));
    let mut stack = vec![Value::Nil];
    assert!(matches!(
        call_coroutine(Builtin::CoroutineStatus, &mut stack, &rt(false, ThreadMode::Stopped)),
        Err(CallError::ThreadExpected)
    ));
    let mut stack = vec![Value::Integer(0)];
    assert!(call_coroutine(Builtin::CoroutineRunning, &mut stack, &rt(false, ThreadMode::Running)).is_ok());
    assert_eq!(stack.len(), 2);
    assert!(matches!(stack[0], Value::Thread(1)));
    assert!(matches!(stack[1], Value::Boolean(true)));
}
