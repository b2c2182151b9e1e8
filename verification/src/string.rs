use vstd::prelude::*;

use crate::registry::Builtin;
use crate::registry::Context;
use crate::registry::Table;
use crate::value::arg;
use crate::value::as_bytes;
use crate::value::as_integer;
use crate::value::as_opt_integer;
use crate::value::integer_arg;
use crate::value::opt_integer_arg;
use crate::value::string_arg;
use crate::value::values_view;
use crate::value::CallError;
use crate::value::Value;
use crate::value::ValueView;
use vstd::slice::slice_to_vec;
use crate::gsub::action_view;
use crate::gsub::gsub_call;
use crate::gsub::gsub_run;
use crate::gsub::texts_view;
use crate::gsub::GsubRun;
use crate::gsub::ReplAction;
use crate::gsub::ReplActionView;
use crate::matching::calls_view;
use crate::matching::found_fits;
use crate::matching::gmatch_call;
use crate::matching::gmatch_run;
use crate::matching::Match;

verus! {

// ---------------------------------------------------------------------------
// Offsets
// ---------------------------------------------------------------------------

/// Where a Lua 1-based start offset lands as a 0-based index: `0` and `1`
/// both mean the first byte, a negative offset counts back from the end and
/// is clamped at the start of the string.
pub open spec fn start_offset(i: int, len: int) -> int {
    if i == 0 {
        0
    } else if i > 0 {
        i - 1
    } else if len + i > 0 {
        len + i
    } else {
        0
    }
}

/// Where a Lua 1-based end offset (inclusive) lands as a 0-based exclusive
/// index: a non-negative offset stays as it is, a negative one counts back
/// from the end (`-1` is the end of the string) and is clamped at `0`.
pub open spec fn end_offset(j: int, len: int) -> int {
    if j >= 0 {
        j
    } else if len + j + 1 > 0 {
        len + j + 1
    } else {
        0
    }
}

/// The bytes that the Lua range `i ..= j` selects from `s`: the end is
/// clamped at the length of `s`, and a range whose start does not come
/// before its end is empty.
pub open spec fn substring(s: Seq<u8>, i: int, j: int) -> Seq<u8> {
    let start = start_offset(i, s.len() as int);
    let e = end_offset(j, s.len() as int);
    let end = if e < s.len() {
        e
    } else {
        s.len() as int
    };
    if start < end {
        s.subrange(start, end)
    } else {
        Seq::empty()
    }
}

/// Converts a Lua 1-indexed slice offset, which may be relative to the
/// string length, to a zero-indexed index.  A positive offset is not bounded
/// by `len`.  The conversion fails only where the offset does not fit in a
/// `usize`.
pub fn convert_index(i: i64, len: usize) -> (r: Option<usize>)
    requires
        len <= i64::MAX,
    ensures
        start_offset(i as int, len as int) <= usize::MAX ==> r == Some(
            start_offset(i as int, len as int) as usize,
        ),
        start_offset(i as int, len as int) > usize::MAX ==> r is None,
{
    let val: i64 = if i == 0 {
        0
    } else if i >= 1 {
        i - 1
    } else {
        let v: i64 = len as i64 + i;
        if v < 0 {
            0
        } else {
            v
        }
    };
    usize::try_from(val).ok()
}

/// Converts a Lua 1-indexed inclusive end offset, which may be relative to
/// the string length, to a zero-indexed exclusive index.  A positive offset
/// is not bounded by `len`.  The conversion fails only where the offset does
/// not fit in a `usize`.
pub fn convert_index_end(i: i64, len: usize) -> (r: Option<usize>)
    requires
        len <= i64::MAX,
    ensures
        end_offset(i as int, len as int) <= usize::MAX ==> r == Some(
            end_offset(i as int, len as int) as usize,
        ),
        end_offset(i as int, len as int) > usize::MAX ==> r is None,
{
    let val: i64 = if i >= 0 {
        i
    } else {
        let v: i64 = len as i64 + i + 1;
        if v < 0 {
            0
        } else {
            v
        }
    };
    usize::try_from(val).ok()
}

/// The Lua substring `string[i ..= j]`, with `j` defaulting to the end of
/// the string.
pub fn sub(string: &[u8], i: i64, j: Option<i64>) -> (r: &[u8])
    requires
        string@.len() <= i64::MAX,
    ensures
        r@ == substring(
            string@,
            i as int,
            match j {
                Some(j) => j as int,
                None => string@.len() as int,
            },
        ),
{
    let len = string.len();
    let i = match convert_index(i, len) {
        Some(v) => v,
        None => usize::MAX,
    };
    let j_end: i64 = match j {
        Some(j) => j,
        None => len as i64,
    };
    let j = match convert_index_end(j_end, len) {
        Some(v) => v,
        None => usize::MAX,
    };
    let j = if j < len {
        j
    } else {
        len
    };
    if i > j {
        let r = &string[0..0];
        assert(r@ =~= Seq::<u8>::empty());
        r
    } else {
        &string[i..j]
    }
}

// ---------------------------------------------------------------------------
// The string library's byte-level operations
// ---------------------------------------------------------------------------

/// `string.len`: the number of bytes of `s`.
pub fn string_len(s: &[u8]) -> (r: i64)
    requires
        s@.len() <= i64::MAX,
    ensures
        r == s@.len(),
{
    s.len() as i64
}

/// `string.byte(s, i, j)`: the bytes of `s[i ..= j]` as integers, where `i`
/// defaults to `1` and `j` to `i`.
pub fn string_byte(s: &[u8], i: Option<i64>, j: Option<i64>) -> (r: Vec<i64>)
    requires
        s@.len() <= i64::MAX,
    ensures
        r@ == byte_codes(
            substring(
                s@,
                match i {
                    Some(i) => i as int,
                    None => 1,
                },
                match j {
                    Some(j) => j as int,
                    None => match i {
                        Some(i) => i as int,
                        None => 1,
                    },
                },
            ),
        ),
{
    let i: i64 = match i {
        Some(i) => i,
        None => 1,
    };
    let j: Option<i64> = match j {
        Some(j) => Some(j),
        None => Some(i),
    };
    let bytes = self::sub(s, i, j);
    let mut r: Vec<i64> = Vec::new();
    let mut k: usize = 0;
    while k < bytes.len()
        invariant
            k <= bytes@.len(),
            r@ == byte_codes(bytes@.take(k as int)),
        decreases bytes@.len() - k,
    {
        r.push(bytes[k] as i64);
        assert(bytes@.take(k as int + 1) =~= bytes@.take(k as int).push(bytes@[k as int]));
        k = k + 1;
    }
    assert(bytes@.take(bytes@.len() as int) =~= bytes@);
    r
}

/// The byte values of `s`, one integer each.
pub open spec fn byte_codes(s: Seq<u8>) -> Seq<i64> {
    s.map_values(|b: u8| b as i64)
}

/// Whether every code lies in the byte range `0 ..= 255`.
pub open spec fn all_byte_codes(codes: Seq<i64>) -> bool {
    forall|k: int| 0 <= k < codes.len() ==> 0 <= #[trigger] codes[k] <= 255
}

/// The bytes whose values the codes are.
pub open spec fn bytes_of_codes(codes: Seq<i64>) -> Seq<u8> {
    codes.map_values(|c: i64| c as u8)
}

/// `string.char(...)`: the string made of the given byte values; `None`
/// where some value lies outside `0 ..= 255`.
pub fn string_char(codes: &[i64]) -> (r: Option<Vec<u8>>)
    ensures
        r is Some <==> all_byte_codes(codes@),
        r matches Some(v) ==> v@ == bytes_of_codes(codes@),
{
    let mut v: Vec<u8> = Vec::new();
    let mut k: usize = 0;
    while k < codes.len()
        invariant
            k <= codes@.len(),
            all_byte_codes(codes@.take(k as int)),
            v@ == bytes_of_codes(codes@.take(k as int)),
        decreases codes@.len() - k,
    {
        let c = codes[k];
        if c < 0 || c > 255 {
            assert(!(0 <= codes@[k as int] <= 255));
            return None;
        }
        v.push(c as u8);
        assert(codes@.take(k as int + 1) =~= codes@.take(k as int).push(c));
        k = k + 1;
    }
    assert(codes@.take(codes@.len() as int) =~= codes@);
    Some(v)
}

/// ASCII lower case of one byte; other bytes stay as they are.
pub open spec fn lower_byte(b: u8) -> u8 {
    if 65 <= b <= 90 {
        (b + 32) as u8
    } else {
        b
    }
}

/// ASCII upper case of one byte; other bytes stay as they are.
pub open spec fn upper_byte(b: u8) -> u8 {
    if 97 <= b <= 122 {
        (b - 32) as u8
    } else {
        b
    }
}

/// `s` with every ASCII letter in lower case.
pub open spec fn lowered(s: Seq<u8>) -> Seq<u8> {
    s.map_values(|b: u8| lower_byte(b))
}

/// `s` with every ASCII letter in upper case.
pub open spec fn uppered(s: Seq<u8>) -> Seq<u8> {
    s.map_values(|b: u8| upper_byte(b))
}

fn ascii_lowercase(b: u8) -> (r: u8)
    ensures
        r == lower_byte(b),
{
    if 65 <= b && b <= 90 {
        b + 32
    } else {
        b
    }
}

fn ascii_uppercase(b: u8) -> (r: u8)
    ensures
        r == upper_byte(b),
{
    if 97 <= b && b <= 122 {
        b - 32
    } else {
        b
    }
}

/// `string.lower`: ASCII letters to lower case, other bytes unchanged.
pub fn lower(s: &[u8]) -> (r: Vec<u8>)
    ensures
        r@ == lowered(s@),
{
    let mut r: Vec<u8> = Vec::new();
    let mut k: usize = 0;
    while k < s.len()
        invariant
            k <= s@.len(),
            r@ == lowered(s@.take(k as int)),
        decreases s@.len() - k,
    {
        r.push(ascii_lowercase(s[k]));
        assert(s@.take(k as int + 1) =~= s@.take(k as int).push(s@[k as int]));
        k = k + 1;
    }
    assert(s@.take(s@.len() as int) =~= s@);
    r
}

/// `string.upper`: ASCII letters to upper case, other bytes unchanged.
pub fn upper(s: &[u8]) -> (r: Vec<u8>)
    ensures
        r@ == uppered(s@),
{
    let mut r: Vec<u8> = Vec::new();
    let mut k: usize = 0;
    while k < s.len()
        invariant
            k <= s@.len(),
            r@ == uppered(s@.take(k as int)),
        decreases s@.len() - k,
    {
        r.push(ascii_uppercase(s[k]));
        assert(s@.take(k as int + 1) =~= s@.take(k as int).push(s@[k as int]));
        k = k + 1;
    }
    assert(s@.take(s@.len() as int) =~= s@);
    r
}

/// `string.reverse`: the bytes of `s` in reverse order.
pub fn reverse(s: &[u8]) -> (r: Vec<u8>)
    ensures
        r@ == s@.reverse(),
{
    let mut r: Vec<u8> = Vec::new();
    let mut k: usize = s.len();
    while k > 0
        invariant
            k <= s@.len(),
            r@ == s@.skip(k as int).reverse(),
        decreases k,
    {
        k = k - 1;
        r.push(s[k]);
        assert(s@.skip(k as int).reverse() =~= s@.skip(k as int + 1).reverse().push(s@[k as int]));
    }
    assert(s@.skip(0) =~= s@);
    r
}

/// `s` written `n` times in a row.
pub open spec fn repeated(s: Seq<u8>, n: nat) -> Seq<u8>
    decreases n,
{
    if n == 0 {
        Seq::empty()
    } else {
        repeated(s, (n - 1) as nat) + s
    }
}

/// `string.rep(s, n)` is `n` times as long as `s`.
pub proof fn lemma_repeated_len(s: Seq<u8>, n: nat)
    ensures
        repeated(s, n).len() == s.len() * n,
    decreases n,
{
    if n > 0 {
        lemma_repeated_len(s, (n - 1) as nat);
        assert(s.len() * n == s.len() * (n - 1) + s.len()) by (nonlinear_arith);
    } else {
        assert(s.len() * 0 == 0) by (nonlinear_arith);
    }
}

proof fn lemma_repeated_empty(s: Seq<u8>, n: nat)
    requires
        s.len() == 0,
    ensures
        repeated(s, n) =~= Seq::<u8>::empty(),
    decreases n,
{
    if n > 0 {
        lemma_repeated_empty(s, (n - 1) as nat);
    }
}

/// `string.rep(s, count)`: `s` repeated `count` times, the count taken as a
/// `usize`, so that a negative count asks for more copies than memory holds
/// unless `s` is empty.
pub fn rep(s: &[u8], count: i64) -> (r: Vec<u8>)
    requires
        s@.len() * ((count as usize) as nat) <= usize::MAX,
    ensures
        r@ == repeated(s@, (count as usize) as nat),
{
    let n: usize = count as usize;
    let mut r: Vec<u8> = Vec::new();
    if s.len() == 0 {
        proof {
            lemma_repeated_empty(s@, n as nat);
        }
        return r;
    }
    let mut copies: usize = 0;
    while copies < n
        invariant
            copies <= n,
            s@.len() > 0,
            s@.len() * (n as nat) <= usize::MAX,
            r@ == repeated(s@, copies as nat),
        decreases n - copies,
    {
        let ghost before = r@;
        let mut k: usize = 0;
        while k < s.len()
            invariant
                k <= s@.len(),
                r@ == before + s@.take(k as int),
            decreases s@.len() - k,
        {
            r.push(s[k]);
            assert(s@.take(k as int + 1) =~= s@.take(k as int).push(s@[k as int]));
            k = k + 1;
        }
        assert(s@.take(s@.len() as int) =~= s@);
        copies = copies + 1;
    }
    r
}

/// The 0-based position where `string.gmatch` starts searching a string of
/// length `len` for `init`: `0` for no `init` or `0`, `init - 1` for a
/// positive one, and for a negative one `len + init`, clamped at `0`.
pub open spec fn gmatch_start_spec(len: int, init: Option<i64>) -> int {
    match init {
        None => 0,
        Some(v) => if v == 0 {
            0
        } else if v >= 1 {
            v - 1
        } else if len + v > 0 {
            len + v
        } else {
            0
        },
    }
}

/// The 0-based position where `string.gmatch` starts searching a string of
/// length `len`; the position is taken as a `usize`.
pub fn gmatch_start(len: i64, init: Option<i64>) -> (r: usize)
    requires
        len >= 0,
    ensures
        r == gmatch_start_spec(len as int, init) as usize,
{
    match init {
        None => 0,
        Some(v) => {
            if v == 0 {
                0
            } else if v >= 1 {
                (v - 1) as usize
            } else {
                let w: i64 = len + v;
                if w > 0 {
                    w as usize
                } else {
                    0
                }
            }
        },
    }
}

// ---------------------------------------------------------------------------
// Calling the registered callbacks
// ---------------------------------------------------------------------------

/// The callbacks of the `string` library that compute their results from
/// their arguments alone.
pub open spec fn is_direct_string_builtin(b: Builtin) -> bool {
    ||| b == Builtin::StringLen
    ||| b == Builtin::StringByte
    ||| b == Builtin::StringChar
    ||| b == Builtin::StringSub
    ||| b == Builtin::StringLower
    ||| b == Builtin::StringReverse
    ||| b == Builtin::StringUpper
    ||| b == Builtin::StringRep
}

/// Bytes as integer values.
pub open spec fn integer_values(b: Seq<u8>) -> Seq<ValueView> {
    b.map_values(|x: u8| ValueView::Integer(x as i64))
}

/// Every argument is an integer in the byte range `0 ..= 255`.
pub open spec fn all_byte_args(args: Seq<ValueView>) -> bool {
    forall|k: int|
        0 <= k < args.len() ==> match as_integer(#[trigger] args[k]) {
            Some(c) => 0 <= c <= 255,
            None => false,
        }
}

/// The bytes whose values the (integer) arguments are.
pub open spec fn bytes_of_args(args: Seq<ValueView>) -> Seq<u8> {
    args.map_values(
        |v: ValueView|
            match as_integer(v) {
                Some(c) => c as u8,
                None => 0u8,
            },
    )
}

/// What the string callback `b` returns for the arguments `args`, or why
/// it fails: `len`, `lower`, `upper` and `reverse` take a string; `byte`
/// a string and two optional integers; `char` integers in `0 ..= 255`;
/// `sub` a string, an integer and an optional integer; `rep` a string and
/// an integer.  An argument that was not given is `nil`.  It speaks of
/// these callbacks only (`is_direct_string_builtin`).
pub open spec fn string_call(b: Builtin, args: Seq<ValueView>) -> Result<Seq<ValueView>, CallError>
    recommends
        is_direct_string_builtin(b),
{
    let s = as_bytes(arg(args, 0));
    match b {
        Builtin::StringLen => match s {
            Some(s) => Ok(seq![ValueView::Integer(s.len() as i64)]),
            None => Err(CallError::BadArgument),
        },
        Builtin::StringByte => match (s, as_opt_integer(arg(args, 1)), as_opt_integer(arg(args, 2))) {
            (Some(s), Some(i), Some(j)) => {
                let i = match i {
                    Some(i) => i as int,
                    None => 1,
                };
                let j = match j {
                    Some(j) => j as int,
                    None => i,
                };
                Ok(integer_values(substring(s, i, j)))
            },
            _ => Err(CallError::BadArgument),
        },
        Builtin::StringChar => if all_byte_args(args) {
            Ok(seq![ValueView::String(bytes_of_args(args))])
        } else {
            Err(CallError::BadArgument)
        },
        Builtin::StringSub => match (s, as_integer(arg(args, 1)), as_opt_integer(arg(args, 2))) {
            (Some(s), Some(i), Some(j)) => Ok(
                seq![
                    ValueView::String(
                        substring(
                            s,
                            i as int,
                            match j {
                                Some(j) => j as int,
                                None => s.len() as int,
                            },
                        ),
                    ),
                ],
            ),
            _ => Err(CallError::BadArgument),
        },
        Builtin::StringLower => match s {
            Some(s) => Ok(seq![ValueView::String(lowered(s))]),
            None => Err(CallError::BadArgument),
        },
        Builtin::StringUpper => match s {
            Some(s) => Ok(seq![ValueView::String(uppered(s))]),
            None => Err(CallError::BadArgument),
        },
        Builtin::StringReverse => match s {
            Some(s) => Ok(seq![ValueView::String(s.reverse())]),
            None => Err(CallError::BadArgument),
        },
        Builtin::StringRep => match (s, as_integer(arg(args, 1))) {
            (Some(s), Some(n)) => Ok(seq![ValueView::String(repeated(s, (n as usize) as nat))]),
            _ => Err(CallError::BadArgument),
        },
        _ => arbitrary(),
    }
}

/// The arguments of `string.rep` do not ask for more bytes than a `usize`
/// counts.
pub open spec fn rep_fits(args: Seq<ValueView>) -> bool {
    match (as_bytes(arg(args, 0)), as_integer(arg(args, 1))) {
        (Some(s), Some(n)) => s.len() * ((n as usize) as nat) <= usize::MAX,
        _ => true,
    }
}

fn push_integers(out: &mut Vec<Value>, codes: &Vec<i64>, Ghost(b): Ghost<Seq<u8>>)
    requires
        codes@ == byte_codes(b),
    ensures
        values_view(final(out)@) == values_view(old(out)@) + integer_values(b),
{
    let ghost start = values_view(out@);
    let mut k: usize = 0;
    while k < codes.len()
        invariant
            k <= codes@.len(),
            codes@ == byte_codes(b),
            values_view(out@) == start + integer_values(b.take(k as int)),
        decreases codes@.len() - k,
    {
        let ghost before = values_view(out@);
        out.push(Value::Integer(codes[k]));
        assert(values_view(out@) =~= before.push(ValueView::Integer(codes@[k as int])));
        assert(integer_values(b.take(k as int + 1)) =~= integer_values(b.take(k as int)).push(
            ValueView::Integer(b[k as int] as i64),
        ));
        k = k + 1;
    }
    assert(b.take(b.len() as int) =~= b);
}

/// Calls the string callback `b`: `stack` holds its arguments on entry and
/// its results on exit.
pub fn call_string(b: Builtin, stack: &mut Vec<Value>) -> (r: Result<(), CallError>)
    requires
        is_direct_string_builtin(b),
        as_bytes(arg(values_view(old(stack)@), 0)) matches Some(s) ==> s.len() <= i64::MAX,
        b == Builtin::StringRep ==> rep_fits(values_view(old(stack)@)),
    ensures
        match string_call(b, values_view(old(stack)@)) {
            Ok(vs) => r is Ok && values_view(final(stack)@) == vs,
            Err(e) => r == Err::<(), CallError>(e),
        },
{
    let mut args: Vec<Value> = Vec::new();
    std::mem::swap(&mut args, stack);
    let ghost a = values_view(args@);
    assert(values_view(stack@) =~= Seq::<ValueView>::empty());
    if b == Builtin::StringChar {
        let mut codes: Vec<i64> = Vec::new();
        let mut k: usize = 0;
        while k < args.len()
            invariant
                a == values_view(args@),
                a == values_view(old(stack)@),
                b == Builtin::StringChar,
                k <= args@.len(),
                forall|j: int|
                    0 <= j < k ==> (#[trigger] as_integer(a[j])) == Some(codes@[j]),
                codes@.len() == k,
            decreases args@.len() - k,
        {
            match integer_arg(args.as_slice(), k) {
                Some(c) => codes.push(c),
                None => {
                    assert(as_integer(arg(a, k as int)) is None);
                    assert(arg(a, k as int) == a[k as int]);
                    assert(!all_byte_args(a));
                    return Err(CallError::BadArgument);
                },
            }
            k = k + 1;
        }
        match string_char(codes.as_slice()) {
            Some(v) => {
                assert(bytes_of_codes(codes@) =~= bytes_of_args(a));
                stack.push(Value::String(v));
                assert(values_view(stack@) =~= seq![ValueView::String(bytes_of_args(a))]);
                return Ok(());
            },
            None => {
                proof {
                    let j = choose|j: int| 0 <= j < codes@.len() && !(0 <= #[trigger] codes@[j] <= 255);
                    assert(as_integer(a[j]) == Some(codes@[j]));
                }
                return Err(CallError::BadArgument);
            },
        }
    }
    let s = match string_arg(args.as_slice(), 0) {
        Some(s) => s,
        None => {
            return Err(CallError::BadArgument);
        },
    };
    if b == Builtin::StringLen {
        stack.push(Value::Integer(string_len(s.as_slice())));
    } else if b == Builtin::StringByte {
        let i = match opt_integer_arg(args.as_slice(), 1) {
            Some(i) => i,
            None => {
                return Err(CallError::BadArgument);
            },
        };
        let j = match opt_integer_arg(args.as_slice(), 2) {
            Some(j) => j,
            None => {
                return Err(CallError::BadArgument);
            },
        };
        let codes = string_byte(s.as_slice(), i, j);
        let ghost range = substring(
            s@,
            match i {
                Some(i) => i as int,
                None => 1,
            },
            match j {
                Some(j) => j as int,
                None => match i {
                    Some(i) => i as int,
                    None => 1,
                },
            },
        );
        push_integers(stack, &codes, Ghost(range));
    } else if b == Builtin::StringSub {
        let i = match integer_arg(args.as_slice(), 1) {
            Some(i) => i,
            None => {
                return Err(CallError::BadArgument);
            },
        };
        let j = match opt_integer_arg(args.as_slice(), 2) {
            Some(j) => j,
            None => {
                return Err(CallError::BadArgument);
            },
        };
        stack.push(Value::String(slice_to_vec(self::sub(s.as_slice(), i, j))));
    } else if b == Builtin::StringLower {
        stack.push(Value::String(lower(s.as_slice())));
    } else if b == Builtin::StringUpper {
        stack.push(Value::String(upper(s.as_slice())));
    } else if b == Builtin::StringReverse {
        stack.push(Value::String(reverse(s.as_slice())));
    } else {
        let n = match integer_arg(args.as_slice(), 1) {
            Some(n) => n,
            None => {
                return Err(CallError::BadArgument);
            },
        };
        stack.push(Value::String(rep(s.as_slice(), n)));
    }
    assert(values_view(stack@) =~= string_call(b, a)->Ok_0);
    Ok(())
}

/// The callbacks of the `string` library that scan the subject with a
/// pattern and take the results of those searches from the runtime.
pub open spec fn is_searching_string_builtin(b: Builtin) -> bool {
    b == Builtin::StringGmatch || b == Builtin::StringGsub
}

/// What a scanning callback gives: the values of each call of the
/// `string.gmatch` iterator, or the outcome of `string.gsub`.
pub enum SearchOutcome {
    Gmatch(Vec<Vec<Value>>),
    Gsub(GsubRun),
}

/// What a [`SearchOutcome`] is, with values taken by their views.
pub enum SearchOutcomeView {
    Gmatch(Seq<Seq<ValueView>>),
    Gsub(Seq<u8>, i64, Seq<ReplActionView>),
}

/// The view of a scanning callback's outcome.
pub open spec fn search_outcome_view(o: SearchOutcome) -> SearchOutcomeView {
    match o {
        SearchOutcome::Gmatch(calls) => SearchOutcomeView::Gmatch(calls_view(calls@)),
        SearchOutcome::Gsub(run) => SearchOutcomeView::Gsub(
            run.output@,
            run.count,
            run.actions@.map_values(|a: ReplAction| action_view(a)),
        ),
    }
}

/// What the scanning callback `b` gives for the arguments `args`, the
/// results `found` of its successive searches and, for `gsub`, the
/// replacement texts: `gmatch` as `gmatch_call` says, `gsub` as
/// `gsub_call` says.  It speaks of these two callbacks only.
pub open spec fn searching_call(
    b: Builtin,
    args: Seq<ValueView>,
    found: Seq<Option<Match>>,
    texts: Seq<Option<Seq<u8>>>,
) -> Result<SearchOutcomeView, CallError>
    recommends
        is_searching_string_builtin(b),
{
    match b {
        Builtin::StringGmatch => match gmatch_call(args, found) {
            Ok(calls) => Ok(SearchOutcomeView::Gmatch(calls)),
            Err(e) => Err(e),
        },
        Builtin::StringGsub => match gsub_call(args, found, texts) {
            Ok((out, count, actions)) => Ok(SearchOutcomeView::Gsub(out, count, actions)),
            Err(e) => Err(e),
        },
        _ => arbitrary(),
    }
}

/// The search results fit the subject of the scanning callback `b`: each
/// match lies inside it and starts no earlier than the search that found
/// it, the first search starting at `0` for `gsub` and at the position
/// that `init` gives for `gmatch`.
pub open spec fn search_fits(b: Builtin, args: Seq<ValueView>, found: Seq<Option<Match>>) -> bool {
    as_bytes(arg(args, 0)) matches Some(s) ==> {
        &&& s.len() <= i64::MAX
        &&& found.len() < i64::MAX
        &&& b == Builtin::StringGsub ==> found_fits(s, 0, found)
        &&& b == Builtin::StringGmatch ==> (as_opt_integer(arg(args, 2)) matches Some(init)
            ==> found_fits(s, (gmatch_start_spec(s.len() as int, init) as usize) as int, found))
    }
}

/// Calls the scanning callback `b` (`gmatch` or `gsub`) with the arguments
/// `args`, against the results `found` of its successive searches and the
/// replacement texts `texts`.
pub fn call_searching(
    b: Builtin,
    args: &[Value],
    found: &Vec<Option<Match>>,
    texts: &Vec<Option<Vec<u8>>>,
) -> (r: Result<SearchOutcome, CallError>)
    requires
        is_searching_string_builtin(b),
        found@.len() < i64::MAX,
        search_fits(b, values_view(args@), found@),
    ensures
        match searching_call(b, values_view(args@), found@, texts_view(texts@)) {
            Ok(o) => r matches Ok(x) && search_outcome_view(x) == o,
            Err(e) => r == Err::<SearchOutcome, CallError>(e),
        },
{
    if b == Builtin::StringGmatch {
        match gmatch_run(args, found) {
            Ok(calls) => Ok(SearchOutcome::Gmatch(calls)),
            Err(e) => Err(e),
        }
    } else {
        match gsub_run(args, found, texts) {
            Ok(run) => Ok(SearchOutcome::Gsub(run)),
            Err(e) => Err(e),
        }
    }
}

// ---------------------------------------------------------------------------
// The library table
// ---------------------------------------------------------------------------

/// The `string` library table: each name and the callback it stands for.
pub open spec fn string_library() -> Map<Seq<char>, Builtin> {
    Map::empty().insert("len"@, Builtin::StringLen).insert("byte"@, Builtin::StringByte).insert(
        "char"@,
        Builtin::StringChar,
    ).insert("sub"@, Builtin::StringSub).insert("lower"@, Builtin::StringLower).insert(
        "reverse"@,
        Builtin::StringReverse,
    ).insert("upper"@, Builtin::StringUpper).insert("rep"@, Builtin::StringRep).insert(
        "find"@,
        Builtin::StringFind,
    ).insert("match"@, Builtin::StringMatch).insert("gmatch"@, Builtin::StringGmatch).insert(
        "gsub"@,
        Builtin::StringGsub,
    )
}

/// Registers the `string` library as the global `string`, in place of any
/// global of that name.
pub fn load_string(ctx: &mut Context)
    ensures
        final(ctx)@ == old(ctx)@.insert("string"@, string_library()),
{
    let mut string: Table<Builtin> = Table::new();
    string.set("len".to_owned(), Builtin::StringLen);
    string.set("byte".to_owned(), Builtin::StringByte);
    string.set("char".to_owned(), Builtin::StringChar);
    string.set("sub".to_owned(), Builtin::StringSub);
    string.set("lower".to_owned(), Builtin::StringLower);
    string.set("reverse".to_owned(), Builtin::StringReverse);
    string.set("upper".to_owned(), Builtin::StringUpper);
    string.set("rep".to_owned(), Builtin::StringRep);
    string.set("find".to_owned(), Builtin::StringFind);
    string.set("match".to_owned(), Builtin::StringMatch);
    string.set("gmatch".to_owned(), Builtin::StringGmatch);
    string.set("gsub".to_owned(), Builtin::StringGsub);
    ctx.set_global("string".to_owned(), string);
}

// ---------------------------------------------------------------------------
// Laws
// ---------------------------------------------------------------------------

/// A negative start offset `-k` names the same byte as the positive offset
/// `len - k + 1`.
pub proof fn lemma_negative_start_offset(k: int, len: int)
    requires
        1 <= k <= len,
    ensures
        start_offset(-k, len) == start_offset(len - k + 1, len),
{
}

/// A negative end offset `-k` ends the range where the positive offset
/// `len - k + 1` does.
pub proof fn lemma_negative_end_offset(k: int, len: int)
    requires
        1 <= k <= len,
    ensures
        end_offset(-k, len) == end_offset(len - k + 1, len),
{
}

/// A range that starts at or before the first byte and ends at or after
/// the last one selects the whole string (as `string.sub(s, 1, -1)` does).
pub proof fn lemma_substring_whole(s: Seq<u8>, i: int, j: int)
    requires
        start_offset(i, s.len() as int) == 0,
        end_offset(j, s.len() as int) >= s.len(),
    ensures
        substring(s, i, j) == s,
{
    if s.len() > 0 {
        assert(s.subrange(0, s.len() as int) =~= s);
    } else {
        assert(substring(s, i, j) =~= s);
    }
}

/// Adjacent ranges join without loss: `s[i ..= j]` followed by
/// `s[j + 1 ..= k]` is `s[i ..= k]`.
pub proof fn lemma_substring_split(s: Seq<u8>, i: int, j: int, k: int)
    requires
        1 <= i <= j + 1,
        j <= k <= s.len(),
    ensures
        substring(s, i, j) + substring(s, j + 1, k) == substring(s, i, k),
{
    assert(substring(s, i, j) + substring(s, j + 1, k) =~= substring(s, i, k));
}

/// A substring is as long as its range, clamped to the string, says.
pub proof fn lemma_substring_len(s: Seq<u8>, i: int, j: int)
    ensures
        substring(s, i, j).len() == ({
            let start = start_offset(i, s.len() as int);
            let e = end_offset(j, s.len() as int);
            let end = if e < s.len() {
                e
            } else {
                s.len() as int
            };
            if start < end {
                end - start
            } else {
                0
            }
        }),
{
}

/// `string.char` of the codes that `string.byte` gives back the bytes.
pub proof fn lemma_char_of_byte(s: Seq<u8>)
    ensures
        all_byte_codes(byte_codes(s)),
        bytes_of_codes(byte_codes(s)) == s,
{
    assert(bytes_of_codes(byte_codes(s)) =~= s);
}

/// Through the registered callbacks: `string.byte(s, 1, -1)` gives the
/// byte values of `s`, and `string.char` of those values gives `s` back.
pub proof fn lemma_char_of_byte_call(s: Seq<u8>)
    ensures
        string_call(
            Builtin::StringByte,
            seq![ValueView::String(s), ValueView::Integer(1i64), ValueView::Integer(-1i64)],
        ) == Ok::<Seq<ValueView>, CallError>(integer_values(s)),
        string_call(Builtin::StringChar, integer_values(s)) == Ok::<Seq<ValueView>, CallError>(
            seq![ValueView::String(s)],
        ),
{
    lemma_substring_whole(s, 1, -1);
    let args = integer_values(s);
    assert forall|k: int| 0 <= k < args.len() implies match as_integer(#[trigger] args[k]) {
        Some(c) => 0 <= c <= 255,
        None => false,
    } by {}
    assert(bytes_of_args(args) =~= s);
}

/// Through the registered callbacks: `string.lower` and `string.upper`
/// give the same result when applied a second time.
pub proof fn lemma_case_call_idempotent(s: Seq<u8>)
    ensures
        string_call(Builtin::StringLower, seq![ValueView::String(lowered(s))]) == string_call(
            Builtin::StringLower,
            seq![ValueView::String(s)],
        ),
        string_call(Builtin::StringUpper, seq![ValueView::String(uppered(s))]) == string_call(
            Builtin::StringUpper,
            seq![ValueView::String(s)],
        ),
{
    lemma_case_idempotent(s);
}

/// The registered `string.lower` leaves no ASCII capital in its result and
/// changes no byte except by turning a capital into its small letter
/// (`b + 32`); `string.upper` leaves no ASCII small letter and changes no
/// byte except by turning a small letter into its capital.  Both keep the
/// length.
pub proof fn lemma_case_call_letters(s: Seq<u8>)
    ensures
        string_call(Builtin::StringLower, seq![ValueView::String(s)]) == Ok::<
            Seq<ValueView>,
            CallError,
        >(seq![ValueView::String(lowered(s))]),
        string_call(Builtin::StringUpper, seq![ValueView::String(s)]) == Ok::<
            Seq<ValueView>,
            CallError,
        >(seq![ValueView::String(uppered(s))]),
        lowered(s).len() == s.len(),
        uppered(s).len() == s.len(),
        forall|i: int|
            0 <= i < s.len() ==> !(65 <= #[trigger] lowered(s)[i] <= 90) && (lowered(s)[i] == s[i]
                || (65 <= s[i] <= 90 && lowered(s)[i] == s[i] + 32)),
        forall|i: int|
            0 <= i < s.len() ==> !(97 <= #[trigger] uppered(s)[i] <= 122) && (uppered(s)[i] == s[i]
                || (97 <= s[i] <= 122 && uppered(s)[i] + 32 == s[i])),
{
}

/// Reversing twice gives the string back.
pub proof fn lemma_reverse_twice(s: Seq<u8>)
    ensures
        s.reverse().reverse() == s,
{
    assert(s.reverse().reverse() =~= s);
}

/// Case mapping keeps the length, and mapping again changes nothing.
pub proof fn lemma_case_idempotent(s: Seq<u8>)
    ensures
        lowered(s).len() == s.len(),
        uppered(s).len() == s.len(),
        lowered(lowered(s)) == lowered(s),
        uppered(uppered(s)) == uppered(s),
        lowered(uppered(s)) == lowered(s),
        uppered(lowered(s)) == uppered(s),
{
    assert(lowered(lowered(s)) =~= lowered(s));
    assert(uppered(uppered(s)) =~= uppered(s));
    assert(lowered(uppered(s)) =~= lowered(s));
    assert(uppered(lowered(s)) =~= uppered(s));
}

} // verus!
