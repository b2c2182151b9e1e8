use piccolo_stdlib::registry::Builtin;
use piccolo_stdlib::string::call_searching;
use piccolo_stdlib::string::SearchOutcome;
use piccolo_stdlib::gsub::replacement_action;
use piccolo_stdlib::gsub::prep_metaop_call;
use piccolo_stdlib::gsub::gsub_run;
use piccolo_stdlib::gsub::MetaResult;
use piccolo_stdlib::gsub::GsubState;
use piccolo_stdlib::gsub::ReplAction;
use piccolo_stdlib::gsub::ReplKind;
use piccolo_stdlib::matching::gmatch_run;
use piccolo_stdlib::matching::match_to_values;
use piccolo_stdlib::matching::table_key;
use piccolo_stdlib::matching::Capture;
use piccolo_stdlib::matching::GmatchState;
use piccolo_stdlib::matching::GmatchStep;
use piccolo_stdlib::matching::Match;
use piccolo_stdlib::value::CallError;
use piccolo_stdlib::value::Value;

fn plain(start: usize, end: usize) -> Match {
    Match { start, end, captures: Vec::new() }
}

fn is_string(v: &Value, expected: &[u8]) -> bool {
    matches!(v, Value::String(s) if s.as_slice() == expected)
}

#[test]
fn match_values_whole_match_or_captures() {
    let s = b"key=value";
    let vs = match_to_values(s, &plain(0, 9));
    assert_eq!(vs.len(), 1);
    assert!(is_string(&vs[0], b"key=value"));

    let m = Match {
        start: 0,
        end: 9,
        captures: vec![
            Capture { start: 0, end: 3, pos: false },
            Capture { start: 4, end: 4, pos: true },
            Capture { start: 4, end: 9, pos: false },
        ],
    };
    let vs = match_to_values(s, &m);
    assert_eq!(vs.len(), 3);
    assert!(is_string(&vs[0], b"key"));
    assert!(matches!(vs[1], Value::Integer(5)));
    assert!(is_string(&vs[2], b"value"));
}

#[test]
fn table_key_first_capture_or_match() {
    let s = b"abc";
    assert!(is_string(&table_key(s, &plain(1, 3)), b"bc"));
    let m = Match { start: 0, end: 3, captures: vec![Capture { start: 2, end: 2, pos: true }] };
    assert!(matches!(table_key(s, &m), Value::Integer(3)));
}

#[test]
fn replacement_actions() {
    let s = b"abc";
    let m = plain(0, 1);
    assert!(matches!(replacement_action(ReplKind::String, s, &m), Ok(ReplAction::Expand)));
    match replacement_action(ReplKind::Table, s, &m) {
        Ok(ReplAction::Index(k)) => assert!(is_string(&k, b"a")),
        _ => panic!("table"),
    }
    match replacement_action(ReplKind::Function, s, &m) {
        Ok(ReplAction::Call(args)) => {
            assert_eq!(args.len(), 1);
            assert!(is_string(&args[0], b"a"));
        }
        _ => panic!("function"),
    }
    assert!(matches!(
        replacement_action(ReplKind::Other, s, &m),
        Err(CallError::BadReplacement)
    ));
}

#[test]
fn gmatch_steps() {
    let s = b"one two";
    let mut st = GmatchState::new(7, None);
    assert_eq!(st.cur_idx, 0);
    match st.step(s, Some(&plain(0, 3))) {
        GmatchStep::Done(vs) => assert!(is_string(&vs[0], b"one")),
        _ => panic!("first"),
    }
    assert_eq!(st.cur_idx, 3);
    assert_eq!(st.last_match_end, Some(3));
    // an empty match where the last one ended is skipped
    assert!(matches!(st.step(s, Some(&plain(3, 3))), GmatchStep::Retry));
    assert_eq!(st.cur_idx, 4);
    match st.step(s, Some(&plain(4, 7))) {
        GmatchStep::Done(vs) => assert!(is_string(&vs[0], b"two")),
        _ => panic!("second"),
    }
    match st.step(s, None) {
        GmatchStep::Done(vs) => {
            assert_eq!(vs.len(), 1);
            assert!(matches!(vs[0], Value::Nil));
        }
        _ => panic!("end"),
    }
    assert_eq!(st.cur_idx, 7);
}

#[test]
fn gmatch_init() {
    assert_eq!(GmatchState::new(7, Some(-3)).cur_idx, 4);
    assert_eq!(GmatchState::new(7, Some(2)).cur_idx, 1);
    assert!(GmatchState::new(7, Some(2)).last_match_end.is_none());
}

#[test]
fn gsub_without_replacements_gives_the_subject() {
    let s = b"hello";
    let st = GsubState::new(s, None);
    let (out, n) = st.finish(s);
    assert_eq!(out, s.to_vec());
    assert_eq!(n, 0);
}

#[test]
fn gsub_replaces_and_keeps() {
    // gsub("hello world", "o", ...) with replacements "0" then nil
    let s = b"hello world";
    let mut st = GsubState::new(s, None);
    assert_eq!(st.search_start(), 0);
    assert!(st.accept(s, 4, 5));
    assert!(!st.replace(s, 4, 5, Some(b"0")));
    assert_eq!(st.search_start(), 5);
    assert!(st.accept(s, 7, 8));
    assert!(!st.replace(s, 7, 8, None));
    let (out, n) = st.finish(s);
    assert_eq!(out, b"hell0 world".to_vec());
    assert_eq!(n, 2);
}

#[test]
fn gsub_growth_and_identity() {
    let s = b"a-b-c";
    let mut st = GsubState::new(s, None);
    assert!(st.accept(s, 1, 2));
    st.replace(s, 1, 2, Some(b"--"));
    assert!(st.accept(s, 3, 4));
    st.replace(s, 3, 4, Some(b"-"));
    let (out, _) = st.finish(s);
    assert_eq!(out, b"a--b-c".to_vec());
    assert_eq!(out.len(), s.len() + 1);
}

#[test]
fn gsub_empty_matches_and_limit() {
    // gsub("ab", "x*", "-", 2): empty matches at 0 and 1
    let s = b"ab";
    let mut st = GsubState::new(s, Some(2));
    assert!(st.accept(s, 0, 0));
    assert!(!st.replace(s, 0, 0, Some(b"-")));
    // the same empty match again is skipped
    assert!(!st.accept(s, 0, 0));
    assert_eq!(st.search_start(), 1);
    assert!(st.accept(s, 1, 1));
    assert!(st.replace(s, 1, 1, Some(b"-")));
    let (out, n) = st.finish(s);
    assert_eq!(out, b"-a-b".to_vec());
    assert_eq!(n, 2);
}

#[test]
fn gsub_replacing_each_match_by_itself_gives_the_subject() {
    let s = b"abcabc";
    let mut st = GsubState::new(s, None);
    assert!(st.accept(s, 0, 2));
    st.replace(s, 0, 2, Some(&s[0..2]));
    assert!(st.accept(s, 3, 5));
    st.replace(s, 3, 5, Some(&s[3..5]));
    let (out, n) = st.finish(s);
    assert_eq!(out, s.to_vec());
    assert_eq!(n, 2);
}

#[test]
fn prep_metaop_call_pushes_value_or_arguments() {
    let mut stack: Vec<Value> = vec![Value::Nil];
    let r = prep_metaop_call::<u8>(&mut stack, MetaResult::Value(Value::Integer(4)));
    assert!(r.is_none());
    assert_eq!(stack.len(), 2);
    assert!(matches!(stack[1], Value::Integer(4)));
    let r = prep_metaop_call(
        &mut stack,
        MetaResult::Call { function: 9u8, args: vec![Value::Boolean(true), Value::Integer(1)] },
    );
    assert_eq!(r, Some(9));
    assert_eq!(stack.len(), 4);
    assert!(matches!(stack[2], Value::Boolean(true)));
    assert!(matches!(stack[3], Value::Integer(1)));
}

fn text(b: &[u8]) -> Value {
    Value::String(b.to_vec())
}

#[test]
fn gmatch_run_values_in_order_then_nil() {
    // gmatch("one two", "%a*"): "one" at 0..3, empty at 3 (skipped), "two" at 4..7,
    // empty at 7 (skipped), then no match
    let s = b"one two";
    let args = vec![text(s), text(b"%a*")];
    let found = vec![
        Some(plain(0, 3)),
        Some(plain(3, 3)),
        Some(plain(4, 7)),
        Some(plain(7, 7)),
        None,
    ];
    let calls = gmatch_run(&args, &found).ok().expect("runs");
    assert_eq!(calls.len(), 3);
    assert!(is_string(&calls[0][0], b"one"));
    assert!(is_string(&calls[1][0], b"two"));
    assert!(matches!(calls[2][0], Value::Nil));
}

#[test]
fn gmatch_run_bad_arguments() {
    let args = vec![text(b"abc"), Value::Integer(1)];
    assert!(matches!(gmatch_run(&args, &vec![None]), Err(CallError::BadArgument)));
    let args = vec![text(b"abc"), text(b"a"), Value::Boolean(true)];
    assert!(matches!(gmatch_run(&args, &vec![None]), Err(CallError::BadArgument)));
}

#[test]
fn gsub_run_replaces_all_or_up_to_the_limit() {
    // gsub("hello world", "o", "0") and gsub("hello world", "o", "0", 1)
    let s = b"hello world";
    let found = vec![Some(plain(4, 5)), Some(plain(7, 8)), None];
    let texts = vec![Some(b"0".to_vec()), Some(b"0".to_vec())];
    let args = vec![text(s), text(b"o"), text(b"0")];
    let run = gsub_run(&args, &found, &texts).ok().expect("runs");
    assert_eq!(run.output, b"hell0 w0rld".to_vec());
    assert_eq!(run.count, 2);
    assert_eq!(run.actions.len(), 2);
    assert!(matches!(run.actions[0], ReplAction::Expand));

    let args = vec![text(s), text(b"o"), text(b"0"), Value::Integer(1)];
    let run = gsub_run(&args, &found, &texts).ok().expect("runs");
    assert_eq!(run.output, b"hell0 world".to_vec());
    assert_eq!(run.count, 1);
}

#[test]
fn gsub_run_without_match_ignores_the_replacement() {
    let s = b"abc";
    let args = vec![text(s), text(b"x"), Value::Boolean(true)];
    let run = gsub_run(&args, &vec![None], &Vec::new()).ok().expect("runs");
    assert_eq!(run.output, s.to_vec());
    assert_eq!(run.count, 0);
    assert!(run.actions.is_empty());
}

#[test]
fn gsub_run_bad_replacement_once_there_is_a_match() {
    let s = b"abc";
    let args = vec![text(s), text(b"b"), Value::Integer(1)];
    let found = vec![Some(plain(1, 2)), None];
    assert!(matches!(
        gsub_run(&args, &found, &Vec::new()),
        Err(CallError::BadReplacement)
    ));
}

#[test]
fn gsub_run_function_gets_the_captures_and_nil_keeps() {
    // gsub("k=v;a=b", "(%w)=(%w)", f) where f returns "X" then nil
    let s = b"k=v;a=b";
    let m1 = Match {
        start: 0,
        end: 3,
        captures: vec![Capture { start: 0, end: 1, pos: false }, Capture { start: 2, end: 3, pos: false }],
    };
    let m2 = Match {
        start: 4,
        end: 7,
        captures: vec![Capture { start: 4, end: 5, pos: false }, Capture { start: 6, end: 7, pos: false }],
    };
    let args = vec![text(s), text(b"(%w)=(%w)"), Value::Function(3)];
    let run = gsub_run(&args, &vec![Some(m1), Some(m2), None], &vec![Some(b"X".to_vec()), None])
        .ok()
        .expect("runs");
    assert_eq!(run.output, b"X;a=b".to_vec());
    assert_eq!(run.count, 2);
    match &run.actions[1] {
        ReplAction::Call(args) => {
            assert_eq!(args.len(), 2);
            assert!(is_string(&args[0], b"a"));
            assert!(is_string(&args[1], b"b"));
        }
        _ => panic!("call"),
    }
}

#[test]
fn gsub_run_table_is_indexed_with_the_first_capture() {
    let s = b"ab";
    let args = vec![text(s), text(b"."), Value::Table(8)];
    let run = gsub_run(&args, &vec![Some(plain(0, 1)), Some(plain(1, 2)), None], &vec![None, Some(b"B".to_vec())])
        .ok()
        .expect("runs");
    assert_eq!(run.output, b"aB".to_vec());
    match &run.actions[0] {
        ReplAction::Index(k) => assert!(is_string(k, b"a")),
        _ => panic!("index"),
    }
}

#[test]
fn registered_gmatch_and_gsub_run_through_call_searching() {
    let s = b"a1b2";
    let found = vec![Some(plain(1, 2)), Some(plain(3, 4)), None];
    let args = vec![text(s), text(b"%d")];
    match call_searching(Builtin::StringGmatch, &args, &found, &Vec::new()) {
        Ok(SearchOutcome::Gmatch(calls)) => {
            assert_eq!(calls.len(), 3);
            assert!(is_string(&calls[0][0], b"1"));
            assert!(is_string(&calls[1][0], b"2"));
            assert!(matches!(calls[2][0], Value::Nil));
        }
        _ => panic!("gmatch"),
    }
    let args = vec![text(s), text(b"%d"), text(b"#")];
    let texts = vec![Some(b"#".to_vec()), Some(b"#".to_vec())];
    match call_searching(Builtin::StringGsub, &args, &found, &texts) {
        Ok(SearchOutcome::Gsub(run)) => {
            assert_eq!(run.output, b"a#b#".to_vec());
            assert_eq!(run.count, 2);
        }
        _ => panic!("gsub"),
    }
}
