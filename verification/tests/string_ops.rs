use piccolo_stdlib::registry::Builtin;
use piccolo_stdlib::string;
use piccolo_stdlib::string::call_string;
use piccolo_stdlib::value::CallError;
use piccolo_stdlib::value::Value;

#[test]
fn convert_index_positive_zero_and_negative() {
    assert_eq!(string::convert_index(0, 5), Some(0));
    assert_eq!(string::convert_index(1, 5), Some(0));
    assert_eq!(string::convert_index(3, 5), Some(2));
    // a positive index is not bounded by the length
    assert_eq!(string::convert_index(9, 5), Some(8));
    assert_eq!(string::convert_index(-1, 5), Some(4));
    assert_eq!(string::convert_index(-5, 5), Some(0));
    assert_eq!(string::convert_index(-10, 5), Some(0));
}

#[test]
fn convert_index_end_positive_and_negative() {
    assert_eq!(string::convert_index_end(0, 5), Some(0));
    assert_eq!(string::convert_index_end(3, 5), Some(3));
    assert_eq!(string::convert_index_end(9, 5), Some(9));
    assert_eq!(string::convert_index_end(-1, 5), Some(5));
    assert_eq!(string::convert_index_end(-5, 5), Some(1));
    assert_eq!(string::convert_index_end(-6, 5), Some(0));
    assert_eq!(string::convert_index_end(-100, 5), Some(0));
}

#[test]
fn negative_offsets_name_the_same_bytes_as_positive_ones() {
    let len: usize = 7;
    for k in 1..=7i64 {
        assert_eq!(
            string::convert_index(-k, len),
            string::convert_index(len as i64 - k + 1, len)
        );
        assert_eq!(
            string::convert_index_end(-k, len),
            string::convert_index_end(len as i64 - k + 1, len)
        );
    }
}

#[test]
fn sub_ranges() {
    let s = b"hello world";
    assert_eq!(string::sub(s, 1, None), b"hello world");
    assert_eq!(string::sub(s, 1, Some(-1)), b"hello world");
    assert_eq!(string::sub(s, 1, Some(5)), b"hello");
    assert_eq!(string::sub(s, 7, None), b"world");
    assert_eq!(string::sub(s, -5, None), b"world");
    assert_eq!(string::sub(s, -5, Some(-2)), b"worl");
    assert_eq!(string::sub(s, 0, Some(0)), b"");
    assert_eq!(string::sub(s, 5, Some(3)), b"");
    assert_eq!(string::sub(s, 3, Some(100)), b"llo world");
    assert_eq!(string::sub(s, 100, None), b"");
    assert_eq!(string::sub(s, -100, Some(2)), b"he");
    assert_eq!(string::sub(b"", 1, Some(-1)), b"");
}

#[test]
fn byte_defaults_and_ranges() {
    let s = b"ABC";
    assert_eq!(string::string_byte(s, None, None), vec![65]);
    assert_eq!(string::string_byte(s, Some(2), None), vec![66]);
    assert_eq!(string::string_byte(s, Some(1), Some(-1)), vec![65, 66, 67]);
    assert_eq!(string::string_byte(s, Some(-1), None), vec![67]);
    assert_eq!(string::string_byte(s, Some(10), None), Vec::<i64>::new());
}

#[test]
fn char_builds_bytes_and_rejects_out_of_range() {
    assert_eq!(string::string_char(&[72, 105]), Some(b"Hi".to_vec()));
    assert_eq!(string::string_char(&[]), Some(Vec::new()));
    assert_eq!(string::string_char(&[0, 255]), Some(vec![0u8, 255]));
    assert_eq!(string::string_char(&[65, 256]), None);
    assert_eq!(string::string_char(&[-1]), None);
}

#[test]
fn char_of_byte_round_trips() {
    let s = b"\x00round trip\xff";
    let codes = string::string_byte(s, Some(1), Some(-1));
    assert_eq!(string::string_char(&codes), Some(s.to_vec()));
}

#[test]
fn len_counts_bytes() {
    assert_eq!(string::string_len(b""), 0);
    assert_eq!(string::string_len("h\u{e9}".as_bytes()), 3);
}

#[test]
fn lower_and_upper_touch_only_ascii_letters() {
    assert_eq!(string::lower(b"Hello, World! 123"), b"hello, world! 123".to_vec());
    assert_eq!(string::upper(b"Hello, World! 123"), b"HELLO, WORLD! 123".to_vec());
    assert_eq!(string::lower(b"@[`{\xc0\xdd"), b"@[`{\xc0\xdd".to_vec());
    assert_eq!(string::upper(b"@[`{\xe0\xfd"), b"@[`{\xe0\xfd".to_vec());
    let s = b"MiXeD cAsE";
    assert_eq!(string::lower(&string::lower(s)), string::lower(s));
    assert_eq!(string::lower(&string::upper(s)), string::lower(s));
    assert_eq!(string::upper(&string::upper(s)), string::upper(s));
}

#[test]
fn reverse_reverses_and_twice_restores() {
    assert_eq!(string::reverse(b"abc"), b"cba".to_vec());
    assert_eq!(string::reverse(b""), Vec::<u8>::new());
    let s = b"palindrome?";
    assert_eq!(string::reverse(&string::reverse(s)), s.to_vec());
}

#[test]
fn rep_repeats() {
    assert_eq!(string::rep(b"ab", 3), b"ababab".to_vec());
    assert_eq!(string::rep(b"ab", 0), Vec::<u8>::new());
    assert_eq!(string::rep(b"", 5), Vec::<u8>::new());
    assert_eq!(string::rep(b"", -1), Vec::<u8>::new());
    assert_eq!(string::rep(b"xyz", 4).len(), 12);
}

#[test]
fn gmatch_start_positions() {
    assert_eq!(string::gmatch_start(10, None), 0);
    assert_eq!(string::gmatch_start(10, Some(0)), 0);
    assert_eq!(string::gmatch_start(10, Some(1)), 0);
    assert_eq!(string::gmatch_start(10, Some(4)), 3);
    assert_eq!(string::gmatch_start(10, Some(20)), 19);
    assert_eq!(string::gmatch_start(10, Some(-3)), 7);
    assert_eq!(string::gmatch_start(10, Some(-30)), 0);
}

fn call(b: Builtin, args: Vec<Value>) -> Result<Vec<Value>, CallError> {
    let mut stack = args;
    call_string(b, &mut stack).map(|_| stack)
}

fn bytes_of(v: &Value) -> Vec<u8> {
    match v {
        Value::String(s) => s.clone(),
        _ => panic!("not a string"),
    }
}

fn text(b: &[u8]) -> Value {
    Value::String(b.to_vec())
}

#[test]
fn call_byte() {
    let r = call(Builtin::StringByte, vec![text(b"hello")]).ok().unwrap();
    assert!(matches!(r.as_slice(), [Value::Integer(104)]));
    let r = call(Builtin::StringByte, vec![text(b"hello"), Value::Integer(-1)]).ok().unwrap();
    assert!(matches!(r.as_slice(), [Value::Integer(111)]));
    let r = call(Builtin::StringByte, vec![text(b"hello"), Value::Integer(2), Value::Integer(4)]).ok().unwrap();
    assert!(matches!(r.as_slice(), [Value::Integer(101), Value::Integer(108), Value::Integer(108)]));
    let r = call(Builtin::StringByte, vec![text(b"hello"), Value::Integer(10)]).ok().unwrap();
    assert!(r.is_empty());
    assert!(matches!(call(Builtin::StringByte, vec![Value::Integer(1)]), Err(CallError::BadArgument)));
}

#[test]
fn call_char_and_round_trip() {
    let r = call(Builtin::StringChar, vec![Value::Integer(72), Value::Integer(105)]).ok().unwrap();
    assert_eq!(bytes_of(&r[0]), b"Hi".to_vec());
    let r = call(Builtin::StringChar, Vec::new()).ok().unwrap();
    assert_eq!(bytes_of(&r[0]), Vec::<u8>::new());
    assert!(matches!(call(Builtin::StringChar, vec![Value::Integer(256)]), Err(CallError::BadArgument)));
    assert!(matches!(call(Builtin::StringChar, vec![Value::Table(1)]), Err(CallError::BadArgument)));
    let s = b"\x00any\xffbytes";
    let codes = call(Builtin::StringByte, vec![text(s), Value::Integer(1), Value::Integer(-1)]).ok().unwrap();
    let back = call(Builtin::StringChar, codes).ok().unwrap();
    assert_eq!(bytes_of(&back[0]), s.to_vec());
}

#[test]
fn call_sub_len_and_case() {
    let r = call(Builtin::StringSub, vec![text(b"hello"), Value::Integer(2), Value::Integer(3)]).ok().unwrap();
    assert_eq!(bytes_of(&r[0]), b"el".to_vec());
    let r = call(Builtin::StringSub, vec![text(b"hello"), Value::Integer(-3)]).ok().unwrap();
    assert_eq!(bytes_of(&r[0]), b"llo".to_vec());
    assert!(matches!(call(Builtin::StringSub, vec![text(b"hello")]), Err(CallError::BadArgument)));
    let r = call(Builtin::StringLen, vec![text(b"hello")]).ok().unwrap();
    assert!(matches!(r.as_slice(), [Value::Integer(5)]));
    let r = call(Builtin::StringLower, vec![text(b"HeLLo")]).ok().unwrap();
    assert_eq!(bytes_of(&r[0]), b"hello".to_vec());
    let r = call(Builtin::StringUpper, vec![text(b"HeLLo")]).ok().unwrap();
    assert_eq!(bytes_of(&r[0]), b"HELLO".to_vec());
    let r = call(Builtin::StringReverse, vec![text(b"abc")]).ok().unwrap();
    assert_eq!(bytes_of(&r[0]), b"cba".to_vec());
    let r = call(Builtin::StringRep, vec![text(b"ab"), Value::Integer(3)]).ok().unwrap();
    assert_eq!(bytes_of(&r[0]), b"ababab".to_vec());
    assert!(matches!(call(Builtin::StringRep, vec![text(b"ab")]), Err(CallError::BadArgument)));
}
