use vstd::prelude::*;
use vstd::slice::slice_to_vec;

use crate::matching::match_to_values;
use crate::matching::match_values;
use crate::matching::match_wf;
use crate::matching::table_key;
use crate::matching::Match;
use crate::matching::scan_accepted;
use crate::matching::scan_starts;
use crate::matching::found_fits;
use crate::value::arg;
use crate::value::as_bytes;
use crate::value::as_opt_integer;
use crate::value::opt_integer_arg;
use crate::value::string_arg;
use crate::value::CallError;
use crate::value::Value;
use crate::value::ValueView;
use crate::value::values_view;

verus! {

/// One replacement made by `string.gsub`: the bytes `start .. end` of the
/// subject give way to `text`.
pub type Edit = (int, int, Seq<u8>);

/// Where the last of the edits ends (`0` where there is none).
pub open spec fn edits_end(edits: Seq<Edit>) -> int {
    if edits.len() == 0 {
        0
    } else {
        edits.last().1
    }
}

/// The edits lie inside a subject of `len` bytes, each one after the one
/// before it.
pub open spec fn edits_in_order(len: int, edits: Seq<Edit>) -> bool {
    &&& forall|k: int| 0 <= k < edits.len() ==> 0 <= #[trigger] edits[k].0 <= edits[k].1 <= len
    &&& forall|a: int, b: int|
        0 <= a < b < edits.len() ==> #[trigger] edits[a].1 <= #[trigger] edits[b].0
}

/// The output of `string.gsub` up to the end of the last edit: the subject
/// with each edited range replaced by its text.
pub open spec fn rewritten(s: Seq<u8>, edits: Seq<Edit>) -> Seq<u8>
    decreases edits.len(),
{
    if edits.len() == 0 {
        Seq::empty()
    } else {
        let prev = edits.drop_last();
        rewritten(s, prev) + s.subrange(edits_end(prev), edits.last().0) + edits.last().2
    }
}

/// The whole output of `string.gsub` for these edits: the rewritten part,
/// then the rest of the subject unchanged.
pub open spec fn edited(s: Seq<u8>, edits: Seq<Edit>) -> Seq<u8> {
    rewritten(s, edits) + s.subrange(edits_end(edits), s.len() as int)
}

/// A `string.gsub` run over one subject: the position where the next search
/// starts, where the last accepted match ended, the number of matches
/// handled, and the output built so far (none until the first replacement).
pub struct GsubState {
    match_count: i64,
    cur_idx: usize,
    last_end: Option<usize>,
    output_end: usize,
    buffer: Option<Vec<u8>>,
    match_limit: Option<i64>,
    edits: Ghost<Seq<Edit>>,
}

impl GsubState {
    /// The number of matches handled.
    pub closed spec fn count(&self) -> int {
        self.match_count as int
    }

    /// Where the next search starts.
    pub closed spec fn next_start(&self) -> int {
        self.cur_idx as int
    }

    /// Where the last accepted match ended.
    pub closed spec fn last_match_end(&self) -> Option<usize> {
        self.last_end
    }

    /// How far into the subject the output has been built.
    pub closed spec fn output_end(&self) -> int {
        self.output_end as int
    }

    /// The most matches to handle, where there is a limit.
    pub closed spec fn limit(&self) -> Option<i64> {
        self.match_limit
    }

    /// The replacements made so far, in order.
    pub closed spec fn edits(&self) -> Seq<Edit> {
        self.edits@
    }

    /// The state is one of a run over the subject `s`.
    pub closed spec fn wf(&self, s: Seq<u8>) -> bool {
        &&& self.output_end <= self.cur_idx
        &&& self.output_end <= s.len()
        &&& self.match_count >= 0
        &&& edits_in_order(s.len() as int, self.edits@)
        &&& edits_end(self.edits@) == self.output_end
        &&& (self.buffer is None <==> self.edits@.len() == 0)
        &&& (self.buffer matches Some(b) ==> b@ == rewritten(s, self.edits@))
    }

    /// A run over `s` that stops after `match_limit` matches, if given.
    pub fn new(s: &[u8], match_limit: Option<i64>) -> (r: GsubState)
        ensures
            r.wf(s@),
            r.count() == 0,
            r.next_start() == 0,
            r.last_match_end() is None,
            r.limit() == match_limit,
            r.edits() == Seq::<Edit>::empty(),
    {
        GsubState {
            match_count: 0,
            cur_idx: 0,
            last_end: None,
            output_end: 0,
            buffer: None,
            match_limit,
            edits: Ghost(Seq::empty()),
        }
    }

    /// Where the next search starts.
    pub fn search_start(&self) -> (r: usize)
        ensures
            r == self.next_start(),
    {
        self.cur_idx
    }

    /// Takes a match `m_start .. m_end` found from the search start, and
    /// says whether to handle it: a match that ends where the last accepted
    /// one ended is skipped and the search moves one position on; any other
    /// match is accepted and the search moves to its end.
    pub fn accept(&mut self, s: &[u8], m_start: usize, m_end: usize) -> (r: bool)
        requires
            old(self).wf(s@),
            old(self).next_start() <= m_start <= m_end <= s@.len(),
            s@.len() < usize::MAX,
        ensures
            final(self).wf(s@),
            r == (old(self).last_match_end() != Some(m_end)),
            r ==> final(self).next_start() == m_end && final(self).last_match_end() == Some(
                m_end,
            ),
            !r ==> final(self).next_start() == m_end + 1 && final(self).last_match_end()
                == old(self).last_match_end(),
            final(self).count() == old(self).count(),
            final(self).output_end() == old(self).output_end(),
            final(self).limit() == old(self).limit(),
            final(self).edits() == old(self).edits(),
    {
        if self.last_end == Some(m_end) {
            self.cur_idx = m_end + 1;
            false
        } else {
            self.cur_idx = m_end;
            self.last_end = Some(m_end);
            true
        }
    }

    /// Handles the accepted match `m_start .. m_end`: `Some(text)` replaces
    /// it by `text` in the output, `None` (the replacement was `nil` or
    /// `false`) keeps the original bytes.  Returns whether the match limit
    /// has been reached.
    pub fn replace(&mut self, s: &[u8], m_start: usize, m_end: usize, text: Option<&[u8]>) -> (r:
        bool)
        requires
            old(self).wf(s@),
            old(self).output_end() <= m_start <= m_end <= old(self).next_start(),
            m_end <= s@.len(),
            old(self).count() < i64::MAX,
        ensures
            final(self).wf(s@),
            final(self).count() == old(self).count() + 1,
            r == (old(self).limit() matches Some(l) && final(self).count() >= l),
            final(self).next_start() == old(self).next_start(),
            final(self).last_match_end() == old(self).last_match_end(),
            final(self).limit() == old(self).limit(),
            match text {
                None => {
                    &&& final(self).edits() == old(self).edits()
                    &&& final(self).output_end() == old(self).output_end()
                },
                Some(t) => {
                    &&& final(self).edits() == old(self).edits().push(
                        (m_start as int, m_end as int, t@),
                    )
                    &&& final(self).output_end() == m_end
                },
            },
    {
        match text {
            None => {},
            Some(t) => {
                let ghost old_edits = self.edits@;
                let ghost e: Edit = (m_start as int, m_end as int, t@);
                let mut buf = match self.buffer.take() {
                    None => slice_to_vec(&s[0..m_start]),
                    Some(o) => {
                        let mut o = o;
                        o.extend_from_slice(&s[self.output_end..m_start]);
                        o
                    },
                };
                assert(buf@ =~= rewritten(s@, old_edits) + s@.subrange(
                    edits_end(old_edits),
                    m_start as int,
                ));
                let ghost before = buf@;
                buf.extend_from_slice(t);
                assert(buf@ =~= before + t@);
                self.buffer = Some(buf);
                self.output_end = m_end;
                self.edits = Ghost(old_edits.push(e));
                proof {
                    assert(old_edits.push(e).drop_last() =~= old_edits);
                    assert(self.buffer.unwrap()@ =~= rewritten(s@, self.edits@));
                    assert forall|a: int, b: int|
                        0 <= a < b < self.edits@.len() implies #[trigger] self.edits@[a].1
                        <= #[trigger] self.edits@[b].0 by {
                        if b == old_edits.len() && old_edits.len() > 0 {
                            assert(old_edits[a].1 <= old_edits.last().1);
                        }
                    }
                }
            },
        }
        self.match_count = self.match_count + 1;
        match self.match_limit {
            Some(l) => self.match_count >= l,
            None => false,
        }
    }

    /// Ends the run: the output (the subject with the replacements made)
    /// and the number of matches handled.
    pub fn finish(self, s: &[u8]) -> (r: (Vec<u8>, i64))
        requires
            self.wf(s@),
        ensures
            r.0@ == edited(s@, self.edits()),
            r.1 == self.count(),
            edits_in_order(s@.len() as int, self.edits()),
    {
        let out = match self.buffer {
            None => {
                let v = slice_to_vec(s);
                assert(v@ =~= edited(s@, self.edits@));
                v
            },
            Some(o) => {
                let mut o = o;
                o.extend_from_slice(&s[self.output_end..s.len()]);
                o
            },
        };
        (out, self.match_count)
    }
}

/// The kind of the replacement argument of `string.gsub`.
#[derive(Clone, Copy, PartialEq, Eq, Structural)]
pub enum ReplKind {
    String,
    Table,
    Function,
    /// Any other value.
    Other,
}

/// How `string.gsub` finds the replacement for one match.
pub enum ReplAction {
    /// Expand the replacement string, with its `%` escapes, for the match.
    Expand,
    /// Look this key up in the replacement table.
    Index(Value),
    /// Call the replacement function with these arguments.
    Call(Vec<Value>),
}

/// What a [`ReplAction`] is, with values taken by their views.
pub enum ReplActionView {
    Expand,
    Index(ValueView),
    Call(Seq<ValueView>),
}

/// The view of a replacement action.
pub open spec fn action_view(a: ReplAction) -> ReplActionView {
    match a {
        ReplAction::Expand => ReplActionView::Expand,
        ReplAction::Index(k) => ReplActionView::Index(k@),
        ReplAction::Call(args) => ReplActionView::Call(values_view(args@)),
    }
}

/// How the replacement of kind `kind` is found for the match `m` of `s`
/// (`kind` being a string, a table or a function).
pub open spec fn action_spec(kind: ReplKind, s: Seq<u8>, m: Match) -> ReplActionView {
    match kind {
        ReplKind::Table => ReplActionView::Index(match_values(s, m)[0]),
        ReplKind::Function => ReplActionView::Call(match_values(s, m)),
        _ => ReplActionView::Expand,
    }
}

/// How `string.gsub` finds the replacement for the match `m` of `s`: a
/// string is expanded, a table is indexed with the first capture (or the
/// whole match), a function is called with the captures (or the whole
/// match); any other replacement is an error.
pub fn replacement_action(kind: ReplKind, s: &[u8], m: &Match) -> (r: Result<ReplAction, CallError>)
    requires
        match_wf(s@.len() as int, *m),
    ensures
        kind == ReplKind::Other ==> r matches Err(CallError::BadReplacement),
        kind != ReplKind::Other ==> (r matches Ok(a) && action_view(a) == action_spec(kind, s@, *m)),
{
    match kind {
        ReplKind::String => Ok(ReplAction::Expand),
        ReplKind::Table => Ok(ReplAction::Index(table_key(s, m))),
        ReplKind::Function => Ok(ReplAction::Call(match_to_values(s, m))),
        ReplKind::Other => Err(CallError::BadReplacement),
    }
}

/// The outcome of a metamethod-aware operation: a value at once, or a
/// function to call with arguments.
pub enum MetaResult<F> {
    Value(Value),
    Call { function: F, args: Vec<Value> },
}

/// Gets the stack ready for the outcome of a table lookup: a value is
/// pushed as the replacement, while for a call the arguments are pushed and
/// the function to call is handed back.
pub fn prep_metaop_call<F>(stack: &mut Vec<Value>, res: MetaResult<F>) -> (r: Option<F>)
    ensures
        match res {
            MetaResult::Value(v) => final(stack)@ == old(stack)@.push(v) && r is None,
            MetaResult::Call { function, args } => final(stack)@ == old(stack)@ + args@ && r
                == Some(function),
        },
{
    match res {
        MetaResult::Value(v) => {
            stack.push(v);
            None
        },
        MetaResult::Call { function, args } => {
            let mut args = args;
            stack.append(&mut args);
            Some(function)
        },
    }
}

/// `string.gsub` that replaces nothing gives the subject back unchanged.
pub proof fn lemma_gsub_without_edits(s: Seq<u8>)
    ensures
        edited(s, Seq::empty()) == s,
{
    assert(edited(s, Seq::empty()) =~= s);
}

proof fn lemma_identity_rewritten(s: Seq<u8>, edits: Seq<Edit>)
    requires
        edits_in_order(s.len() as int, edits),
        forall|k: int| 0 <= k < edits.len() ==> (#[trigger] edits[k]).2 == s.subrange(edits[k].0, edits[k].1),
    ensures
        rewritten(s, edits) == s.subrange(0, edits_end(edits)),
    decreases edits.len(),
{
    if edits.len() == 0 {
        assert(s.subrange(0, 0) =~= Seq::<u8>::empty());
    } else {
        let prev = edits.drop_last();
        let e = edits.last();
        assert(edits[edits.len() - 1] == e);
        assert forall|k: int| 0 <= k < prev.len() implies 0 <= #[trigger] prev[k].0 <= prev[k].1 <= s.len() by {
            assert(prev[k] == edits[k]);
        }
        assert forall|a: int, b: int| 0 <= a < b < prev.len() implies #[trigger] prev[a].1 <= #[trigger] prev[b].0 by {
            assert(prev[a] == edits[a]);
            assert(prev[b] == edits[b]);
        }
        assert forall|k: int| 0 <= k < prev.len() implies (#[trigger] prev[k]).2 == s.subrange(prev[k].0, prev[k].1) by {
            assert(prev[k] == edits[k]);
        }
        lemma_identity_rewritten(s, prev);
        if prev.len() > 0 {
            assert(prev.last() == edits[prev.len() - 1]);
        }
        assert(s.subrange(0, edits_end(prev)) + s.subrange(edits_end(prev), e.0) + e.2 =~= s.subrange(0, e.1));
    }
}

/// `string.gsub` in which every replacement is the text that it replaces
/// gives the subject back unchanged.
pub proof fn lemma_gsub_identity_edits(s: Seq<u8>, edits: Seq<Edit>)
    requires
        edits_in_order(s.len() as int, edits),
        forall|k: int| 0 <= k < edits.len() ==> (#[trigger] edits[k]).2 == s.subrange(edits[k].0, edits[k].1),
    ensures
        edited(s, edits) == s,
{
    lemma_identity_rewritten(s, edits);
    if edits.len() > 0 {
        assert(edits[edits.len() - 1] == edits.last());
    }
    assert(s.subrange(0, edits_end(edits)) + s.subrange(edits_end(edits), s.len() as int) =~= s);
}

/// How much longer the edits make the output than the subject.
pub open spec fn growth(edits: Seq<Edit>) -> int
    decreases edits.len(),
{
    if edits.len() == 0 {
        0
    } else {
        growth(edits.drop_last()) + edits.last().2.len() - (edits.last().1 - edits.last().0)
    }
}

proof fn lemma_rewritten_len(s: Seq<u8>, edits: Seq<Edit>)
    requires
        edits_in_order(s.len() as int, edits),
    ensures
        rewritten(s, edits).len() == edits_end(edits) + growth(edits),
    decreases edits.len(),
{
    if edits.len() > 0 {
        let prev = edits.drop_last();
        assert(edits[edits.len() - 1] == edits.last());
        assert forall|k: int| 0 <= k < prev.len() implies 0 <= #[trigger] prev[k].0 <= prev[k].1
            <= s.len() by {
            assert(prev[k] == edits[k]);
        }
        assert forall|a: int, b: int| 0 <= a < b < prev.len() implies #[trigger] prev[a].1
            <= #[trigger] prev[b].0 by {
            assert(prev[a] == edits[a]);
            assert(prev[b] == edits[b]);
        }
        lemma_rewritten_len(s, prev);
        if prev.len() > 0 {
            assert(prev.last() == edits[prev.len() - 1]);
        }
    }
}

/// The output of `string.gsub` is as long as the subject plus, for each
/// replacement, the length of its text less the length of what it replaces.
pub proof fn lemma_gsub_output_len(s: Seq<u8>, edits: Seq<Edit>)
    requires
        edits_in_order(s.len() as int, edits),
    ensures
        edited(s, edits).len() == s.len() + growth(edits),
{
    lemma_rewritten_len(s, edits);
    if edits.len() > 0 {
        assert(edits[edits.len() - 1] == edits.last());
    }
}

// ---------------------------------------------------------------------------
// A whole run
// ---------------------------------------------------------------------------

/// The kind of a replacement value.
pub open spec fn repl_kind(v: ValueView) -> ReplKind {
    match v {
        ValueView::String(_) => ReplKind::String,
        ValueView::Table(_) => ReplKind::Table,
        ValueView::Function(_) => ReplKind::Function,
        _ => ReplKind::Other,
    }
}

fn repl_kind_arg(args: &[Value], k: usize) -> (r: ReplKind)
    ensures
        r == repl_kind(arg(values_view(args@), k as int)),
{
    if k < args.len() {
        match &args[k] {
            Value::String(_) => ReplKind::String,
            Value::Table(_) => ReplKind::Table,
            Value::Function(_) => ReplKind::Function,
            _ => ReplKind::Other,
        }
    } else {
        ReplKind::Other
    }
}

/// How many of `n` accepted matches a run handles: all of them, or, with a
/// limit, no more than the limit, and always the first one (the limit is
/// checked after each match).
pub open spec fn handled_count(n: int, limit: Option<i64>) -> int {
    match limit {
        None => n,
        Some(l) => {
            let cap: int = if l < 1 {
                1
            } else {
                l as int
            };
            if n < cap {
                n
            } else {
                cap
            }
        },
    }
}

/// The replacement texts by their bytes.
pub open spec fn texts_view(texts: Seq<Option<Vec<u8>>>) -> Seq<Option<Seq<u8>>> {
    texts.map_values(
        |t: Option<Vec<u8>>|
            match t {
                Some(v) => Some(v@),
                None => None,
            },
    )
}

/// The replacement text for the `k`-th handled match; `None` (the
/// replacement was `nil` or `false`, or none was given) keeps the match.
pub open spec fn text_at(texts: Seq<Option<Seq<u8>>>, k: int) -> Option<Seq<u8>> {
    if 0 <= k < texts.len() {
        texts[k]
    } else {
        None
    }
}

/// The edits that the first `n` accepted matches make, with the texts that
/// replace them.
pub open spec fn gsub_edits(acc: Seq<Match>, texts: Seq<Option<Seq<u8>>>, n: nat) -> Seq<Edit>
    decreases n,
{
    if n == 0 {
        Seq::empty()
    } else {
        let prev = gsub_edits(acc, texts, (n - 1) as nat);
        match text_at(texts, n - 1) {
            Some(t) => prev.push((acc[n - 1].start as int, acc[n - 1].end as int, t)),
            None => prev,
        }
    }
}

proof fn lemma_gsub_edits_prefix(a: Seq<Match>, b: Seq<Match>, texts: Seq<Option<Seq<u8>>>, n: nat)
    requires
        n <= a.len(),
        n <= b.len(),
        forall|j: int| 0 <= j < n ==> a[j] == b[j],
    ensures
        gsub_edits(a, texts, n) == gsub_edits(b, texts, n),
    decreases n,
{
    if n > 0 {
        lemma_gsub_edits_prefix(a, b, texts, (n - 1) as nat);
    }
}

/// The outcome of a whole `string.gsub` call.
pub struct GsubRun {
    /// The subject with the replacements made.
    pub output: Vec<u8>,
    /// The number of matches handled.
    pub count: i64,
    /// How the replacement was found for each handled match, in order.
    pub actions: Vec<ReplAction>,
}

/// What `string.gsub(s, pat, repl, n)` gives for the arguments `args`, the
/// results `found` of its successive searches (from the positions that
/// `scan_starts(0, None, found)` gives) and the replacement texts `texts`
/// (one per handled match, as the expansion, lookup or call produced it):
/// the output, the count, and how each replacement was to be found; or why
/// it fails.  Without an accepted match the subject comes back with count
/// `0`, whatever the replacement; with one, a replacement that is not a
/// string, table or function is an error.
pub open spec fn gsub_call(
    args: Seq<ValueView>,
    found: Seq<Option<Match>>,
    texts: Seq<Option<Seq<u8>>>,
) -> Result<(Seq<u8>, i64, Seq<ReplActionView>), CallError> {
    match (as_bytes(arg(args, 0)), as_bytes(arg(args, 1)), as_opt_integer(arg(args, 3))) {
        (Some(s), Some(_), Some(limit)) => {
            let acc = scan_accepted(None, found);
            let n = handled_count(acc.len() as int, limit);
            let kind = repl_kind(arg(args, 2));
            if n > 0 && kind == ReplKind::Other {
                Err(CallError::BadReplacement)
            } else {
                Ok(
                    (
                        edited(s, gsub_edits(acc, texts, n as nat)),
                        n as i64,
                        Seq::new(n as nat, |j: int| action_spec(kind, s, acc[j])),
                    ),
                )
            }
        },
        _ => Err(CallError::BadArgument),
    }
}

proof fn lemma_found_unfold(found: Seq<Option<Match>>, k: int)
    requires
        0 <= k < found.len(),
    ensures
        found.skip(k).len() > 0,
        found.skip(k)[0] == found[k],
        found.skip(k).drop_first() == found.skip(k + 1),
{
    assert(found.skip(k).drop_first() =~= found.skip(k + 1));
}

/// `string.gsub` over the arguments `args` (subject, pattern, replacement,
/// optional limit), run against the results `found` of its successive
/// searches and the replacement texts `texts`.
pub fn gsub_run(args: &[Value], found: &Vec<Option<Match>>, texts: &Vec<Option<Vec<u8>>>) -> (r:
    Result<GsubRun, CallError>)
    requires
        found@.len() < i64::MAX,
        as_bytes(arg(values_view(args@), 0)) matches Some(s) ==> found_fits(s, 0, found@),
    ensures
        match gsub_call(values_view(args@), found@, texts_view(texts@)) {
            Ok((out, count, actions)) => r matches Ok(run) && run.output@ == out && run.count
                == count && run.actions@.map_values(|a: ReplAction| action_view(a)) == actions,
            Err(e) => r matches Err(e2) && e2 == e,
        },
{
    let s = match string_arg(args, 0) {
        Some(s) => s,
        None => {
            return Err(CallError::BadArgument);
        },
    };
    if string_arg(args, 1).is_none() {
        return Err(CallError::BadArgument);
    }
    let limit = match opt_integer_arg(args, 3) {
        Some(l) => l,
        None => {
            return Err(CallError::BadArgument);
        },
    };
    let kind = repl_kind_arg(args, 2);
    let ghost sv = s@;
    let ghost tv = texts_view(texts@);
    let ghost total = scan_accepted(None, found@);
    let ghost starts = scan_starts(0, None, found@);
    let mut st = GsubState::new(s.as_slice(), limit);
    let mut actions: Vec<ReplAction> = Vec::new();
    let ghost mut acc: Seq<Match> = Seq::empty();
    let ghost mut pre: Seq<int> = Seq::empty();
    let mut handled: usize = 0;
    let mut k: usize = 0;
    let mut done = false;
    let mut stopped = false;
    proof {
        assert(found@.skip(0) =~= found@);
        assert(acc + total =~= total);
        assert(pre + starts =~= starts);
        assert(actions@.map_values(|a: ReplAction| action_view(a)) =~= Seq::new(
            0,
            |j: int| action_spec(kind, sv, acc[j]),
        ));
    }
    while k < found.len() && !done
        invariant
            sv == s@,
            tv == texts_view(texts@),
            total == scan_accepted(None, found@),
            starts == scan_starts(0, None, found@),
            found@.len() < i64::MAX,
            found_fits(sv, 0, found@),
            kind == repl_kind(arg(values_view(args@), 2)),
            as_bytes(arg(values_view(args@), 0)) == Some(sv),
            as_bytes(arg(values_view(args@), 1)) is Some,
            as_opt_integer(arg(values_view(args@), 3)) == Some(limit),
            k <= found@.len(),
            st.wf(sv),
            st.limit() == limit,
            total == acc + scan_accepted(st.last_match_end(), found@.skip(k as int)),
            starts == pre + scan_starts(
                st.next_start(),
                st.last_match_end(),
                found@.skip(k as int),
            ),
            pre.len() == k,
            acc.len() == handled,
            st.count() == handled,
            handled <= k,
            st.edits() == gsub_edits(acc, tv, handled as nat),
            actions@.map_values(|a: ReplAction| action_view(a)) == Seq::new(
                handled as nat,
                |j: int| action_spec(kind, sv, acc[j]),
            ),
            kind != ReplKind::Other || handled == 0,
            !stopped ==> (limit matches Some(l) ==> handled < (if l < 1 {
                1
            } else {
                l as int
            })),
            stopped ==> done && (limit matches Some(l) && handled == (if l < 1 {
                1
            } else {
                l as int
            })),
            done && !stopped ==> k < found@.len() && found@[k as int] is None,
        decreases found@.len() - k + (if done {
            0int
        } else {
            1int
        }),
    {
        proof {
            lemma_found_unfold(found@, k as int);
        }
        match &found[k] {
            None => {
                done = true;
            },
            Some(m) => {
                let ghost old_last = st.last_match_end();
                let ghost old_start = st.next_start();
                proof {
                    assert(starts[k as int] == old_start);
                    assert(found@[k as int] matches Some(mm) && mm == *m);
                }
                if st.accept(s.as_slice(), m.start, m.end) {
                    let a = match replacement_action(kind, s.as_slice(), m) {
                        Ok(a) => a,
                        Err(e) => {
                            proof {
                                assert(total =~= seq![*m] + scan_accepted(
                                    Some(m.end),
                                    found@.skip(k + 1),
                                ));
                            }
                            return Err(e);
                        },
                    };
                    let ghost old_actions = actions@;
                    actions.push(a);
                    proof {
                        assert(actions@ =~= old_actions.push(a));
                        assert(actions@.map_values(|a: ReplAction| action_view(a))
                            =~= old_actions.map_values(|a: ReplAction| action_view(a)).push(
                            action_view(a),
                        ));
                    }
                    let text: Option<&[u8]> = if handled < texts.len() {
                        match &texts[handled] {
                            Some(t) => Some(t.as_slice()),
                            None => None,
                        }
                    } else {
                        None
                    };
                    proof {
                        if handled < texts@.len() {
                            assert(tv[handled as int] == match texts@[handled as int] {
                                Some(v) => Some(v@),
                                None => None,
                            });
                        }
                        assert(text_at(tv, handled as int) == match text {
                            Some(t) => Some(t@),
                            None => None::<Seq<u8>>,
                        });
                    }
                    let stop = st.replace(s.as_slice(), m.start, m.end, text);
                    proof {
                        let acc2 = acc.push(*m);
                        lemma_gsub_edits_prefix(acc, acc2, tv, handled as nat);
                        assert(acc2[handled as int] == *m);
                        assert(actions@.map_values(|a: ReplAction| action_view(a)) =~= Seq::new(
                            (handled + 1) as nat,
                            |j: int| action_spec(kind, sv, acc2[j]),
                        ));
                        assert(acc + scan_accepted(old_last, found@.skip(k as int)) =~= acc2
                            + scan_accepted(Some(m.end), found@.skip(k + 1)));
                        assert(pre + scan_starts(old_start, old_last, found@.skip(k as int))
                            =~= pre.push(old_start) + scan_starts(
                            m.end as int,
                            Some(m.end),
                            found@.skip(k + 1),
                        ));
                        acc = acc2;
                        pre = pre.push(old_start);
                    }
                    handled = handled + 1;
                    if stop {
                        done = true;
                        stopped = true;
                    }
                } else {
                    proof {
                        assert(pre + scan_starts(old_start, old_last, found@.skip(k as int))
                            =~= pre.push(old_start) + scan_starts(
                            m.end + 1,
                            old_last,
                            found@.skip(k + 1),
                        ));
                        pre = pre.push(old_start);
                    }
                }
                k = k + 1;
            },
        }
    }
    proof {
        if !stopped {
            if done {
                assert(scan_accepted(st.last_match_end(), found@.skip(k as int)) =~= Seq::<
                    Match,
                >::empty());
            } else {
                assert(found@.skip(k as int) =~= Seq::<Option<Match>>::empty());
            }
            assert(total =~= acc);
        } else {
            assert forall|j: int| 0 <= j < handled implies acc[j] == total[j] by {
                assert(total[j] == (acc + scan_accepted(
                    st.last_match_end(),
                    found@.skip(k as int),
                ))[j]);
            }
            lemma_gsub_edits_prefix(acc, total, tv, handled as nat);
        }
        assert(handled_count(total.len() as int, limit) == handled);
    }
    let (output, count) = st.finish(s.as_slice());
    proof {
        assert(Seq::new(handled as nat, |j: int| action_spec(kind, sv, acc[j])) =~= Seq::new(
            handled as nat,
            |j: int| action_spec(kind, sv, total[j]),
        ));
    }
    Ok(GsubRun { output, count, actions })
}

/// `string.gsub` without an accepted match gives the subject back with a
/// count of `0`, whatever the replacement is.
pub proof fn lemma_gsub_no_match(
    args: Seq<ValueView>,
    found: Seq<Option<Match>>,
    texts: Seq<Option<Seq<u8>>>,
    s: Seq<u8>,
)
    requires
        as_bytes(arg(args, 0)) == Some(s),
        as_bytes(arg(args, 1)) is Some,
        as_opt_integer(arg(args, 3)) is Some,
        scan_accepted(None, found).len() == 0,
    ensures
        gsub_call(args, found, texts) matches Ok((out, count, actions)) && out == s && count == 0
            && actions.len() == 0,
{
    lemma_gsub_without_edits(s);
}

/// Every handled match whose replacement text is given becomes an edit of
/// its whole range with that text, an empty match included.
pub proof fn lemma_gsub_edits_cover_texts(
    acc: Seq<Match>,
    texts: Seq<Option<Seq<u8>>>,
    n: nat,
    k: int,
    t: Seq<u8>,
)
    requires
        n <= acc.len(),
        0 <= k < n,
        text_at(texts, k) == Some(t),
    ensures
        gsub_edits(acc, texts, n).contains((acc[k].start as int, acc[k].end as int, t)),
    decreases n,
{
    if k < n - 1 {
        lemma_gsub_edits_cover_texts(acc, texts, (n - 1) as nat, k, t);
        let prev = gsub_edits(acc, texts, (n - 1) as nat);
        let e = (acc[k].start as int, acc[k].end as int, t);
        let j = choose|j: int| 0 <= j < prev.len() && prev[j] == e;
        assert(gsub_edits(acc, texts, n)[j] == e);
    } else {
        let cur = gsub_edits(acc, texts, n);
        assert(cur[cur.len() - 1] == (acc[k].start as int, acc[k].end as int, t));
    }
}

/// `string.gsub` with a string replacement and a single match `start ..
/// end` replaced by `t` gives the subject with that range replaced: the
/// bytes before it, then `t`, then the bytes after it (for an empty match
/// at `p`, `s[..p] + t + s[p..]`), and a count of `1`.
pub proof fn lemma_gsub_single_match(s: Seq<u8>, pat: Seq<u8>, repl: Seq<u8>, m: Match, t: Seq<u8>)
    requires
        match_wf(s.len() as int, m),
    ensures
        gsub_call(
            seq![ValueView::String(s), ValueView::String(pat), ValueView::String(repl)],
            seq![Some(m), None],
            seq![Some(t)],
        ) matches Ok((out, count, actions)) && out == s.subrange(0, m.start as int) + t
            + s.subrange(m.end as int, s.len() as int) && count == 1 && actions.len() == 1,
{
    let args = seq![ValueView::String(s), ValueView::String(pat), ValueView::String(repl)];
    let found = seq![Some(m), None::<Match>];
    assert(found.drop_first() =~= seq![None::<Match>]);
    assert(scan_accepted(Some(m.end), found.drop_first()) =~= Seq::<Match>::empty());
    let acc = scan_accepted(None, found);
    assert(acc =~= seq![m]);
    let texts = seq![Some(t)];
    let edits = gsub_edits(acc, texts, 1);
    assert(gsub_edits(acc, texts, 0) =~= Seq::<Edit>::empty());
    assert(edits =~= seq![(m.start as int, m.end as int, t)]);
    assert(edits.drop_last() =~= Seq::<Edit>::empty());
    assert(edits.last() == (m.start as int, m.end as int, t));
    assert(rewritten(s, Seq::<Edit>::empty()) =~= Seq::<u8>::empty());
    assert(rewritten(s, edits) =~= s.subrange(0, m.start as int) + t);
    assert(edits_end(edits) == m.end);
    assert(edited(s, edits) =~= s.subrange(0, m.start as int) + t + s.subrange(
        m.end as int,
        s.len() as int,
    ));
}

/// `string.gsub` never handles more matches than it accepts, nor more than
/// a limit of at least `1`.
pub proof fn lemma_gsub_count_within_limit(
    args: Seq<ValueView>,
    found: Seq<Option<Match>>,
    texts: Seq<Option<Seq<u8>>>,
)
    requires
        gsub_call(args, found, texts) is Ok,
    ensures
        gsub_call(args, found, texts)->Ok_0.1 <= scan_accepted(None, found).len(),
        as_opt_integer(arg(args, 3)) matches Some(Some(l)) ==> (l >= 1 ==> gsub_call(
            args,
            found,
            texts,
        )->Ok_0.1 <= l),
{
}

/// The edits of `string.gsub` replace only the leading handled matches:
/// each edit is the range of one of the first `n` accepted matches, and
/// the `k`-th handled match gives way to the `k`-th text.
pub proof fn lemma_gsub_edits_leading(acc: Seq<Match>, texts: Seq<Option<Seq<u8>>>, n: nat)
    requires
        n <= acc.len(),
    ensures
        forall|i: int|
            0 <= i < gsub_edits(acc, texts, n).len() ==> exists|j: int|
                0 <= j < n && (#[trigger] gsub_edits(acc, texts, n)[i]).0 == acc[j].start
                    && gsub_edits(acc, texts, n)[i].1 == acc[j].end && text_at(texts, j) == Some(
                    gsub_edits(acc, texts, n)[i].2,
                ),
        gsub_edits(acc, texts, n).len() <= n,
    decreases n,
{
    if n > 0 {
        lemma_gsub_edits_leading(acc, texts, (n - 1) as nat);
        let prev = gsub_edits(acc, texts, (n - 1) as nat);
        let cur = gsub_edits(acc, texts, n);
        assert forall|i: int| 0 <= i < cur.len() implies exists|j: int|
            0 <= j < n && (#[trigger] cur[i]).0 == acc[j].start && cur[i].1 == acc[j].end
                && text_at(texts, j) == Some(cur[i].2) by {
            if i < prev.len() {
                assert(cur[i] == prev[i]);
                let j = choose|j: int|
                    0 <= j < n - 1 && (#[trigger] prev[i]).0 == acc[j].start && prev[i].1
                        == acc[j].end && text_at(texts, j) == Some(prev[i].2);
                assert(0 <= j < n);
            } else {
                assert(text_at(texts, n - 1) is Some);
                assert(cur[i].0 == acc[n - 1].start);
            }
        }
    }
}

} // verus!
