use vstd::prelude::*;
use vstd::slice::slice_to_vec;

use crate::string::gmatch_start;
use crate::string::gmatch_start_spec;
use crate::value::arg;
use crate::value::as_bytes;
use crate::value::as_opt_integer;
use crate::value::opt_integer_arg;
use crate::value::string_arg;
use crate::value::CallError;
use crate::value::Value;
use crate::value::ValueView;
use crate::value::values_view;

verus! {

// ---------------------------------------------------------------------------
// Matches and their captures
// ---------------------------------------------------------------------------

/// One capture of a pattern match: a byte range of the subject, or, for a
/// position capture `()`, the position `start`.
#[derive(Clone, Copy)]
pub struct Capture {
    pub start: usize,
    pub end: usize,
    pub pos: bool,
}

/// One match of a pattern in a subject string: the matched byte range and
/// the captures, in the order in which the pattern opens them.
pub struct Match {
    pub start: usize,
    pub end: usize,
    pub captures: Vec<Capture>,
}

/// A capture lies inside a subject of `len` bytes.
pub open spec fn capture_wf(len: int, c: Capture) -> bool {
    if c.pos {
        c.start <= len
    } else {
        c.start <= c.end <= len
    }
}

/// A match lies inside a subject of `len` bytes, and so do its captures.
pub open spec fn match_wf(len: int, m: Match) -> bool {
    &&& len < i64::MAX
    &&& len < usize::MAX
    &&& m.start <= m.end <= len
    &&& forall|k: int| 0 <= k < m.captures@.len() ==> capture_wf(len, #[trigger] m.captures@[k])
}

/// The value of a capture: its 1-based position for a position capture,
/// else the captured bytes.
pub open spec fn capture_value(s: Seq<u8>, c: Capture) -> ValueView {
    if c.pos {
        ValueView::Integer((c.start + 1) as i64)
    } else {
        ValueView::String(s.subrange(c.start as int, c.end as int))
    }
}

/// The values that a match stands for: the whole match where the pattern
/// has no captures, else the value of each capture.
pub open spec fn match_values(s: Seq<u8>, m: Match) -> Seq<ValueView> {
    if m.captures@.len() == 0 {
        seq![ValueView::String(s.subrange(m.start as int, m.end as int))]
    } else {
        m.captures@.map_values(|c: Capture| capture_value(s, c))
    }
}

fn capture_to_value(s: &[u8], c: Capture) -> (r: Value)
    requires
        s@.len() < i64::MAX,
        capture_wf(s@.len() as int, c),
    ensures
        r@ == capture_value(s@, c),
{
    if c.pos {
        Value::Integer(c.start as i64 + 1)
    } else {
        Value::String(slice_to_vec(&s[c.start..c.end]))
    }
}

/// The values that a match stands for: the whole match where the pattern
/// has no captures, else one value per capture.
pub fn match_to_values(s: &[u8], m: &Match) -> (r: Vec<Value>)
    requires
        match_wf(s@.len() as int, *m),
    ensures
        values_view(r@) == match_values(s@, *m),
{
    let mut r: Vec<Value> = Vec::new();
    if m.captures.len() == 0 {
        r.push(Value::String(slice_to_vec(&s[m.start..m.end])));
        assert(values_view(r@) =~= match_values(s@, *m));
        return r;
    }
    let mut k: usize = 0;
    while k < m.captures.len()
        invariant
            k <= m.captures@.len(),
            match_wf(s@.len() as int, *m),
            values_view(r@) =~= m.captures@.take(k as int).map_values(
                |c: Capture| capture_value(s@, c),
            ),
        decreases m.captures@.len() - k,
    {
        let c = m.captures[k];
        assert(capture_wf(s@.len() as int, m.captures@[k as int]));
        let v = capture_to_value(s, c);
        let ghost before = r@;
        r.push(v);
        assert(values_view(r@) =~= values_view(before).push(capture_value(s@, c)));
        assert(m.captures@.take(k as int + 1) =~= m.captures@.take(k as int).push(c));
        k = k + 1;
    }
    assert(m.captures@.take(m.captures@.len() as int) =~= m.captures@);
    r
}

/// The key under which `string.gsub` looks a match up in a replacement
/// table: the first capture, or the whole match where there is none.
pub fn table_key(s: &[u8], m: &Match) -> (r: Value)
    requires
        match_wf(s@.len() as int, *m),
    ensures
        r@ == match_values(s@, *m)[0],
{
    let first: (usize, usize, bool) = if m.captures.len() > 0 {
        let c = m.captures[0];
        (c.start, c.end, c.pos)
    } else {
        (m.start, m.end, false)
    };
    if m.captures.len() > 0 {
        assert(capture_wf(s@.len() as int, m.captures@[0]));
    }
    if !first.2 {
        Value::String(slice_to_vec(&s[first.0..first.1]))
    } else {
        Value::Integer(first.0 as i64 + 1)
    }
}

// ---------------------------------------------------------------------------
// string.gmatch
// ---------------------------------------------------------------------------

/// The state of a `string.gmatch` iterator: where the next search starts,
/// and where the last match that was handed out ended.
pub struct GmatchState {
    pub cur_idx: usize,
    pub last_match_end: Option<usize>,
}

/// What one call of a `string.gmatch` iterator does after a search.
pub enum GmatchStep {
    /// The match found is an empty one at the end of the previous match:
    /// search again from the next position.
    Retry,
    /// Return these values to the caller.
    Done(Vec<Value>),
}

impl GmatchState {
    /// A fresh iterator over a subject of `len` bytes, starting at `init`.
    pub fn new(len: i64, init: Option<i64>) -> (r: GmatchState)
        requires
            len >= 0,
        ensures
            r.cur_idx == gmatch_start_spec(len as int, init) as usize,
            r.last_match_end is None,
    {
        GmatchState { cur_idx: gmatch_start(len, init), last_match_end: None }
    }

    /// Takes the result of a search from `cur_idx` and decides what the
    /// iterator does: no match returns `nil` and moves to the end of the
    /// subject; a match that ends where the last one ended is skipped; any
    /// other match returns its values and moves the search to its end.
    pub fn step(&mut self, s: &[u8], found: Option<&Match>) -> (r: GmatchStep)
        requires
            found matches Some(m) ==> match_wf(s@.len() as int, *m),
        ensures
            match found {
                None => {
                    &&& final(self).cur_idx == s@.len()
                    &&& final(self).last_match_end == old(self).last_match_end
                    &&& r matches GmatchStep::Done(vs) && values_view(vs@) == seq![ValueView::Nil]
                },
                Some(m) => if old(self).last_match_end == Some(m.end) {
                    &&& final(self).cur_idx == m.end + 1
                    &&& final(self).last_match_end == old(self).last_match_end
                    &&& r is Retry
                } else {
                    &&& final(self).cur_idx == m.end
                    &&& final(self).last_match_end == Some(m.end)
                    &&& r matches GmatchStep::Done(vs) && values_view(vs@) == match_values(s@, *m)
                },
            },
    {
        match found {
            Some(m) => {
                if self.last_match_end == Some(m.end) {
                    self.cur_idx = m.end + 1;
                    return GmatchStep::Retry;
                } else {
                    self.cur_idx = m.end;
                }
                self.last_match_end = Some(m.end);
                GmatchStep::Done(match_to_values(s, m))
            },
            None => {
                self.cur_idx = s.len();
                let mut vs: Vec<Value> = Vec::new();
                vs.push(Value::Nil);
                assert(values_view(vs@) =~= seq![ValueView::Nil]);
                GmatchStep::Done(vs)
            },
        }
    }
}

// ---------------------------------------------------------------------------
// A whole scan
// ---------------------------------------------------------------------------

/// The matches that a scan accepts, in order, from the results of its
/// successive searches: it stops at the first search that finds nothing,
/// and skips a match that ends where the last accepted one ended.
pub open spec fn scan_accepted(last: Option<usize>, found: Seq<Option<Match>>) -> Seq<Match>
    decreases found.len(),
{
    if found.len() == 0 {
        Seq::empty()
    } else {
        match found[0] {
            None => Seq::empty(),
            Some(m) => if last == Some(m.end) {
                scan_accepted(last, found.drop_first())
            } else {
                seq![m] + scan_accepted(Some(m.end), found.drop_first())
            },
        }
    }
}

/// Where each of the successive searches of a scan starts, the first at
/// `cur`: after an accepted match at its end, after a skipped one just past
/// it.  The `k`-th search result of a scan is the result of a search from
/// the `k`-th of these positions.
pub open spec fn scan_starts(cur: int, last: Option<usize>, found: Seq<Option<Match>>) -> Seq<int>
    decreases found.len(),
{
    if found.len() == 0 {
        Seq::empty()
    } else {
        seq![cur] + match found[0] {
            None => Seq::empty(),
            Some(m) => if last == Some(m.end) {
                scan_starts(m.end + 1, last, found.drop_first())
            } else {
                scan_starts(m.end as int, Some(m.end), found.drop_first())
            },
        }
    }
}

/// The search results of a scan that starts at `start` fit the subject
/// `s`: each match lies inside it and starts no earlier than the search
/// that found it.
pub open spec fn found_fits(s: Seq<u8>, start: int, found: Seq<Option<Match>>) -> bool {
    forall|k: int|
        0 <= k < found.len() ==> (#[trigger] found[k] matches Some(m) ==> {
            &&& match_wf(s.len() as int, m)
            &&& k < scan_starts(start, None, found).len() ==> scan_starts(start, None, found)[k]
                <= m.start
        })
}

/// Some search of the scan finds nothing.
pub open spec fn scan_exhausted(found: Seq<Option<Match>>) -> bool {
    exists|k: int| 0 <= k < found.len() && found[k] is None
}

/// The views of the values of each call of an iterator.
pub open spec fn calls_view(calls: Seq<Vec<Value>>) -> Seq<Seq<ValueView>> {
    calls.map_values(|vs: Vec<Value>| values_view(vs@))
}

/// What the successive calls of the iterator that `string.gmatch(s, pat,
/// init)` returns give back, for the results `found` of its searches: the
/// values of each accepted match in order, then `nil` once a search finds
/// nothing; or why the call fails (`s` or `pat` not a string, `init` not
/// an optional integer).  The searches start at `gmatch_start(len, init)`
/// and go on as `scan_starts` says.
pub open spec fn gmatch_call(args: Seq<ValueView>, found: Seq<Option<Match>>) -> Result<
    Seq<Seq<ValueView>>,
    CallError,
> {
    match (as_bytes(arg(args, 0)), as_bytes(arg(args, 1)), as_opt_integer(arg(args, 2))) {
        (Some(s), Some(_), Some(_)) => Ok(
            scan_accepted(None, found).map_values(|m: Match| match_values(s, m)) + if scan_exhausted(
                found,
            ) {
                seq![seq![ValueView::Nil]]
            } else {
                Seq::empty()
            },
        ),
        _ => Err(CallError::BadArgument),
    }
}

/// The first call of a `string.gmatch` iterator returns the values of the
/// first search's match, whatever its range (an empty match at the start
/// position included): nothing has been returned yet, so nothing is
/// skipped.  Where the pattern has no captures, that is the matched bytes.
pub proof fn lemma_gmatch_first_match_returned(
    args: Seq<ValueView>,
    found: Seq<Option<Match>>,
    s: Seq<u8>,
    m: Match,
)
    requires
        as_bytes(arg(args, 0)) == Some(s),
        as_bytes(arg(args, 1)) is Some,
        as_opt_integer(arg(args, 2)) is Some,
        found.len() >= 1,
        found[0] == Some(m),
    ensures
        gmatch_call(args, found) matches Ok(calls) && calls.len() >= 1 && calls[0] == match_values(
            s,
            m,
        ),
        m.captures@.len() == 0 ==> gmatch_call(args, found)->Ok_0[0] == seq![
            ValueView::String(s.subrange(m.start as int, m.end as int)),
        ],
{
    let acc = scan_accepted(None, found);
    assert(acc == seq![m] + scan_accepted(Some(m.end), found.drop_first()));
    assert(acc[0] == m);
}

proof fn lemma_skip_unfold(found: Seq<Option<Match>>, k: int)
    requires
        0 <= k < found.len(),
    ensures
        found.skip(k).len() > 0,
        found.skip(k)[0] == found[k],
        found.skip(k).drop_first() == found.skip(k + 1),
{
    assert(found.skip(k).drop_first() =~= found.skip(k + 1));
}

/// `string.gmatch` over the arguments `args` (subject, pattern, optional
/// start), run to the end against the results `found` of its successive
/// searches: the values returned by each call of the iterator.
pub fn gmatch_run(args: &[Value], found: &Vec<Option<Match>>) -> (r: Result<
    Vec<Vec<Value>>,
    CallError,
>)
    requires
        as_bytes(arg(values_view(args@), 0)) matches Some(s) ==> s.len() <= i64::MAX,
        as_bytes(arg(values_view(args@), 0)) matches Some(s) ==> (as_opt_integer(
            arg(values_view(args@), 2),
        ) matches Some(init) ==> found_fits(
            s,
            (gmatch_start_spec(s.len() as int, init) as usize) as int,
            found@,
        )),
    ensures
        match gmatch_call(values_view(args@), found@) {
            Ok(calls) => r matches Ok(v) && calls_view(v@) == calls,
            Err(e) => r matches Err(e2) && e2 == e,
        },
{
    let s = match string_arg(args, 0) {
        Some(s) => s,
        None => {
            return Err(CallError::BadArgument);
        },
    };
    if string_arg(args, 1).is_none() {
        return Err(CallError::BadArgument);
    }
    let init = match opt_integer_arg(args, 2) {
        Some(i) => i,
        None => {
            return Err(CallError::BadArgument);
        },
    };
    let ghost sv = s@;
    assert(found_fits(sv, (gmatch_start_spec(sv.len() as int, init) as usize) as int, found@));
    assert forall|j: int|
        0 <= j < found@.len() implies (#[trigger] found@[j] matches Some(m) ==> match_wf(
            sv.len() as int,
            m,
        )) by {}
    let mut st = GmatchState::new(s.len() as i64, init);
    let mut out: Vec<Vec<Value>> = Vec::new();
    let ghost mut acc: Seq<Match> = Seq::empty();
    let mut k: usize = 0;
    let mut done = false;
    proof {
        assert(found@.skip(0) =~= found@);
        assert(acc + scan_accepted(None, found@) =~= scan_accepted(None, found@));
        assert(calls_view(out@) =~= acc.map_values(|m: Match| match_values(sv, m)));
    }
    while k < found.len() && !done
        invariant
            sv == s@,
            k <= found@.len(),
            forall|j: int|
                0 <= j < found@.len() ==> (#[trigger] found@[j] matches Some(m) ==> match_wf(
                    sv.len() as int,
                    m,
                )),
            scan_accepted(None, found@) == acc + scan_accepted(st.last_match_end, found@.skip(k as int)),
            !done ==> forall|j: int| 0 <= j < k ==> (#[trigger] found@[j]) is Some,
            !done ==> calls_view(out@) == acc.map_values(|m: Match| match_values(sv, m)),
            done ==> k < found@.len() && found@[k as int] is None,
            done ==> calls_view(out@) == acc.map_values(|m: Match| match_values(sv, m)) + seq![
                seq![ValueView::Nil],
            ],
        decreases found@.len() - k + (if done {
            0int
        } else {
            1int
        }),
    {
        proof {
            lemma_skip_unfold(found@, k as int);
        }
        let ghost before = calls_view(out@);
        match &found[k] {
            None => {
                let step = st.step(s.as_slice(), None);
                match step {
                    GmatchStep::Done(vs) => {
                        out.push(vs);
                    },
                    GmatchStep::Retry => {},
                }
                assert(calls_view(out@) =~= before.push(seq![ValueView::Nil]));
                done = true;
            },
            Some(m) => {
                let ghost old_last = st.last_match_end;
                let step = st.step(s.as_slice(), Some(m));
                match step {
                    GmatchStep::Done(vs) => {
                        out.push(vs);
                        proof {
                            assert(calls_view(out@) =~= before.push(match_values(sv, *m)));
                            assert(acc.push(*m).map_values(|m: Match| match_values(sv, m))
                                =~= acc.map_values(|m: Match| match_values(sv, m)).push(
                                match_values(sv, *m),
                            ));
                            assert(acc + scan_accepted(old_last, found@.skip(k as int)) =~= acc.push(
                                *m,
                            ) + scan_accepted(Some(m.end), found@.skip(k + 1)));
                            acc = acc.push(*m);
                        }
                    },
                    GmatchStep::Retry => {},
                }
                k = k + 1;
            },
        }
    }
    proof {
        if !done {
            assert(found@.skip(k as int) =~= Seq::<Option<Match>>::empty());
            assert(!scan_exhausted(found@));
            assert(acc + Seq::<Match>::empty() =~= acc);
        } else {
            assert(scan_exhausted(found@));
            assert(acc + Seq::<Match>::empty() =~= acc);
        }
        assert(calls_view(out@) =~= gmatch_call(values_view(args@), found@)->Ok_0);
    }
    Ok(out)
}

} // verus!
