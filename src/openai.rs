use vstd::prelude::*;
use crate::events::{CallView, ProviderEvent, Usage, call_view, tool_call_record};
use crate::json::{Json, field, field2, text_of, uint_of, get_text, parse_json, parsed, items_of, i32_of};
use crate::text::{chars_of, copy_text, join, slice_text, same_text, starts_with};

verus! {

/// One piece of a streamed tool call: the call's ordinal in the turn and
/// the fields that this piece carries.
#[derive(Clone, Debug, PartialEq)]
pub struct CallDelta {
    pub index: u64,
    pub id: Option<String>,
    pub kind: Option<String>,
    pub name: Option<String>,
    pub arguments: Option<String>,
}

pub struct DeltaView {
    pub index: u64,
    pub id: Option<Seq<char>>,
    pub kind: Option<Seq<char>>,
    pub name: Option<Seq<char>>,
    pub arguments: Option<Seq<char>>,
}

pub open spec fn opt_view(o: Option<String>) -> Option<Seq<char>> {
    match o {
        Some(s) => Some(s@),
        None => None,
    }
}

impl View for CallDelta {
    type V = DeltaView;

    open spec fn view(&self) -> DeltaView {
        DeltaView {
            index: self.index,
            id: opt_view(self.id),
            kind: opt_view(self.kind),
            name: opt_view(self.name),
            arguments: opt_view(self.arguments),
        }
    }
}

pub open spec fn or_empty(o: Option<Seq<char>>) -> Seq<char> {
    match o {
        Some(s) => s,
        None => Seq::empty(),
    }
}

/// A call before any piece of it arrived.
pub open spec fn blank_call() -> CallView {
    CallView { id: Seq::empty(), kind: "function"@, name: Seq::empty(), arguments: Seq::empty() }
}

/// One piece merged into a call: `id` and `type` replace, `name` and
/// `arguments` append.
pub open spec fn merge(c: CallView, d: DeltaView) -> CallView {
    CallView {
        id: match d.id { Some(i) => i, None => c.id },
        kind: match d.kind { Some(k) => k, None => c.kind },
        name: c.name + or_empty(d.name),
        arguments: c.arguments + or_empty(d.arguments),
    }
}

/// The call with ordinal `index` assembled from the pieces, if any piece has it.
pub open spec fn assembled(ds: Seq<DeltaView>, index: u64) -> Option<CallView>
    decreases ds.len(),
{
    if ds.len() == 0 {
        None
    } else {
        let prev = assembled(ds.drop_last(), index);
        if ds.last().index == index {
            Some(merge(match prev { Some(c) => c, None => blank_call() }, ds.last()))
        } else {
            prev
        }
    }
}

/// The names of the pieces with ordinal `index`, joined.
pub open spec fn names_at(ds: Seq<DeltaView>, index: u64) -> Seq<char>
    decreases ds.len(),
{
    if ds.len() == 0 {
        Seq::empty()
    } else if ds.last().index == index {
        names_at(ds.drop_last(), index) + or_empty(ds.last().name)
    } else {
        names_at(ds.drop_last(), index)
    }
}

/// The argument texts of the pieces with ordinal `index`, joined.
pub open spec fn arguments_at(ds: Seq<DeltaView>, index: u64) -> Seq<char>
    decreases ds.len(),
{
    if ds.len() == 0 {
        Seq::empty()
    } else if ds.last().index == index {
        arguments_at(ds.drop_last(), index) + or_empty(ds.last().arguments)
    } else {
        arguments_at(ds.drop_last(), index)
    }
}

/// The ids of the pieces with ordinal `index`, joined.
pub open spec fn ids_at(ds: Seq<DeltaView>, index: u64) -> Seq<char>
    decreases ds.len(),
{
    if ds.len() == 0 {
        Seq::empty()
    } else if ds.last().index == index {
        ids_at(ds.drop_last(), index) + or_empty(ds.last().id)
    } else {
        ids_at(ds.drop_last(), index)
    }
}

/// How many pieces with ordinal `index` carry an id.
pub open spec fn id_count(ds: Seq<DeltaView>, index: u64) -> nat
    decreases ds.len(),
{
    if ds.len() == 0 {
        0
    } else if ds.last().index == index && ds.last().id is Some {
        id_count(ds.drop_last(), index) + 1
    } else {
        id_count(ds.drop_last(), index)
    }
}

/// Delta assembly: a call is assembled exactly for the ordinals that some
/// piece has; its name and arguments are the pieces' names and arguments
/// joined in order; where at most one piece carries an id, its id is the
/// pieces' ids joined.
pub proof fn lemma_assembly(ds: Seq<DeltaView>, index: u64)
    ensures
        assembled(ds, index) is Some <==> exists|i: int| 0 <= i < ds.len() && ds[i].index == index,
        assembled(ds, index) matches Some(c) ==> c.name == names_at(ds, index)
            && c.arguments == arguments_at(ds, index)
            && (id_count(ds, index) <= 1 ==> c.id == ids_at(ds, index)),
    decreases ds.len(),
{
    if ds.len() > 0 {
        let p = ds.drop_last();
        lemma_assembly(p, index);
        assert forall|i: int| 0 <= i < p.len() implies p[i] == ds[i] by {}
        if ds.last().index == index {
            assert(ds[ds.len() - 1].index == index);
            if assembled(p, index) is None {
                lemma_none_empty(p, index);
                assert(Seq::<char>::empty() + or_empty(ds.last().name) =~= or_empty(ds.last().name));
                assert(Seq::<char>::empty() + or_empty(ds.last().arguments) =~= or_empty(ds.last().arguments));
                assert(Seq::<char>::empty() + or_empty(ds.last().id) =~= or_empty(ds.last().id));
            } else {
                if ds.last().id is Some && id_count(ds, index) <= 1 {
                    lemma_count_zero(p, index);
                    assert(Seq::<char>::empty() + or_empty(ds.last().id) =~= or_empty(ds.last().id));
                }
                if ds.last().id is None {
                    assert(ids_at(p, index) + Seq::<char>::empty() =~= ids_at(p, index));
                }
            }
        } else {
            if exists|i: int| 0 <= i < ds.len() && ds[i].index == index {
                let i = choose|i: int| 0 <= i < ds.len() && ds[i].index == index;
                assert(i < ds.len() - 1);
                assert(p[i].index == index);
            }
        }
    }
}

proof fn lemma_count_zero(ds: Seq<DeltaView>, index: u64)
    requires
        id_count(ds, index) == 0,
    ensures
        ids_at(ds, index) == Seq::<char>::empty(),
    decreases ds.len(),
{
    if ds.len() > 0 {
        lemma_count_zero(ds.drop_last(), index);
        if ds.last().index == index {
            assert(Seq::<char>::empty() + Seq::<char>::empty() =~= Seq::<char>::empty());
        }
    }
}

proof fn lemma_none_empty(ds: Seq<DeltaView>, index: u64)
    requires
        assembled(ds, index) is None,
    ensures
        names_at(ds, index) == Seq::<char>::empty(),
        arguments_at(ds, index) == Seq::<char>::empty(),
        ids_at(ds, index) == Seq::<char>::empty(),
        id_count(ds, index) == 0,
    decreases ds.len(),
{
    if ds.len() > 0 {
        lemma_none_empty(ds.drop_last(), index);
    }
}

pub struct PartialCall {
    pub id: String,
    pub kind: String,
    pub name: String,
    pub arguments: String,
}

pub open spec fn partial_view(p: PartialCall) -> CallView {
    CallView { id: p.id@, kind: p.kind@, name: p.name@, arguments: p.arguments@ }
}

/// Whether `out` lists, by ascending ordinal, every call assembled from `ds`.
pub open spec fn flush_of(out: Seq<(u64, CallView)>, ds: Seq<DeltaView>) -> bool {
    &&& forall|i: int, j: int| 0 <= i < j < out.len() ==> out[i].0 < out[j].0
    &&& forall|i: int| 0 <= i < out.len() ==> assembled(ds, #[trigger] out[i].0) == Some(out[i].1)
    &&& forall|k: u64| #[trigger] assembled(ds, k) is Some ==> exists|i: int| 0 <= i < out.len() && out[i].0 == k
}

/// Tool calls under assembly, by ordinal.
pub struct CallAccumulator {
    entries: Vec<(u64, PartialCall)>,
    seen: Ghost<Seq<DeltaView>>,
}

impl CallAccumulator {
    /// The pieces taken since the last flush.
    pub closed spec fn seen(&self) -> Seq<DeltaView> {
        self.seen@
    }

    /// The calls under assembly, by ascending ordinal.
    pub closed spec fn pending(&self) -> Seq<(u64, CallView)> {
        self.entries@.map_values(|e: (u64, PartialCall)| (e.0, partial_view(e.1)))
    }

    pub open spec fn wf(&self) -> bool {
        flush_of(self.pending(), self.seen())
    }

    pub fn new() -> (r: CallAccumulator)
        ensures
            r.wf(),
            r.seen().len() == 0,
            r.pending().len() == 0,
    {
        let r = CallAccumulator { entries: Vec::new(), seen: Ghost(Seq::empty()) };
        assert(r.pending() =~= Seq::<(u64, CallView)>::empty());
        r
    }

    pub fn is_empty(&self) -> (r: bool)
        ensures
            r == (self.pending().len() == 0),
    {
        self.entries.len() == 0
    }

    /// Takes one piece.
    pub fn apply(&mut self, d: CallDelta)
        requires
            old(self).wf(),
        ensures
            final(self).wf(),
            final(self).seen() == old(self).seen().push(d@),
    {
        let ghost dv = d@;
        let ghost old_seen = self.seen@;
        let ghost before = self.pending();
        let mut p: usize = 0;
        while p < self.entries.len() && self.entries[p].0 < d.index
            invariant
                p <= self.entries@.len(),
                forall|j: int| 0 <= j < p ==> self.entries@[j].0 < d.index,
            decreases self.entries@.len() - p,
        {
            p = p + 1;
        }
        assert(forall|j: int| 0 <= j < p ==> before[j].0 < dv.index);
        let ghost new_seen = old_seen.push(dv);
        assert(new_seen.drop_last() =~= old_seen);
        if p < self.entries.len() && self.entries[p].0 == d.index {
            let (idx, cur) = self.entries.remove(p);
            let merged = merge_into(cur, d);
            self.entries.insert(p, (idx, merged));
            self.seen = Ghost(new_seen);
            assert(forall|j: int| 0 <= j < before.len() && j != p ==> self.pending()[j] == before[j]);
            assert(self.pending()[p as int].0 == d.index);
            assert(before[p as int].0 == dv.index);
            assert forall|i: int, j: int| 0 <= i < j < self.pending().len()
                implies self.pending()[i].0 < self.pending()[j].0 by {
                assert(self.pending()[i].0 == before[i].0);
                assert(self.pending()[j].0 == before[j].0);
            }
            assert forall|i: int| 0 <= i < self.pending().len()
                implies assembled(new_seen, #[trigger] self.pending()[i].0) == Some(self.pending()[i].1) by {
                if i != p {
                    assert(before[i].0 != dv.index);
                    assert(assembled(new_seen, before[i].0) == assembled(old_seen, before[i].0));
                } else {
                    assert(assembled(old_seen, dv.index) == Some(before[p as int].1));
                }
            }
            assert forall|k: u64| #[trigger] assembled(new_seen, k) is Some implies
                exists|i: int| 0 <= i < self.pending().len() && self.pending()[i].0 == k by {
                if k != dv.index {
                    assert(assembled(new_seen, k) == assembled(old_seen, k));
                    let i = choose|i: int| 0 <= i < before.len() && before[i].0 == k;
                    assert(self.pending()[i].0 == k);
                } else {
                    assert(self.pending()[p as int].0 == k);
                }
            }
        } else {
            let index = d.index;
            let merged = merge_into(blank_partial(), d);
            self.entries.insert(p, (index, merged));
            self.seen = Ghost(new_seen);
            assert(forall|j: int| 0 <= j < p ==> self.pending()[j] == before[j]);
            assert(forall|j: int| p < j < self.pending().len() ==> self.pending()[j] == before[j - 1]);
            assert(self.pending()[p as int] == (dv.index, merge(blank_call(), dv)));
            assert forall|j: int| p <= j < before.len() implies before[j].0 > dv.index by {
                assert(before[p as int].0 <= before[j].0 || j == p);
            }
            assert forall|i: int, j: int| 0 <= i < j < self.pending().len()
                implies self.pending()[i].0 < self.pending()[j].0 by {
                if j < p {
                    assert(self.pending()[i] == before[i] && self.pending()[j] == before[j]);
                } else if j == p {
                    assert(self.pending()[i] == before[i]);
                } else if i < p {
                    assert(self.pending()[i] == before[i] && self.pending()[j] == before[j - 1]);
                } else if i == p {
                    assert(self.pending()[j] == before[j - 1]);
                } else {
                    assert(self.pending()[i] == before[i - 1] && self.pending()[j] == before[j - 1]);
                }
            }
            assert(assembled(old_seen, dv.index) is None) by {
                if assembled(old_seen, dv.index) is Some {
                    let i = choose|i: int| 0 <= i < before.len() && before[i].0 == dv.index;
                    if i < p {
                    } else {
                        assert(before[p as int].0 <= before[i].0);
                    }
                }
            }
            assert forall|i: int| 0 <= i < self.pending().len()
                implies assembled(new_seen, #[trigger] self.pending()[i].0) == Some(self.pending()[i].1) by {
                if i < p {
                    assert(assembled(new_seen, before[i].0) == assembled(old_seen, before[i].0));
                } else if i > p {
                    assert(assembled(new_seen, before[i - 1].0) == assembled(old_seen, before[i - 1].0));
                }
            }
            assert forall|k: u64| #[trigger] assembled(new_seen, k) is Some implies
                exists|i: int| 0 <= i < self.pending().len() && self.pending()[i].0 == k by {
                if k != dv.index {
                    assert(assembled(new_seen, k) == assembled(old_seen, k));
                    let i = choose|i: int| 0 <= i < before.len() && before[i].0 == k;
                    if i < p {
                        assert(self.pending()[i].0 == k);
                    } else {
                        assert(self.pending()[i + 1].0 == k);
                    }
                } else {
                    assert(self.pending()[p as int].0 == k);
                }
            }
        }
    }

    /// Hands out the assembled calls by ascending ordinal and starts afresh.
    pub fn flush(&mut self) -> (r: Vec<Json>)
        requires
            old(self).wf(),
        ensures
            final(self).wf(),
            final(self).seen().len() == 0,
            final(self).pending().len() == 0,
            r@.len() == old(self).pending().len(),
            forall|i: int| 0 <= i < r@.len() ==> call_view(#[trigger] r@[i]) == Some(old(self).pending()[i].1),
    {
        let ghost before = self.pending();
        let mut entries: Vec<(u64, PartialCall)> = Vec::new();
        core::mem::swap(&mut entries, &mut self.entries);
        self.seen = Ghost(Seq::empty());
        assert(self.pending() =~= Seq::<(u64, CallView)>::empty());
        let mut out: Vec<Json> = Vec::new();
        let n = entries.len();
        let mut k: usize = 0;
        while k < n
            invariant
                n == entries@.len(),
                k <= n,
                out@.len() == k,
                before == entries@.map_values(|e: (u64, PartialCall)| (e.0, partial_view(e.1))),
                forall|i: int| 0 <= i < k ==> call_view(#[trigger] out@[i]) == Some(before[i].1),
            decreases n - k,
        {
            let e = &entries[k];
            let rec = tool_call_record(
                copy_text(e.1.id.as_str()),
                copy_text(e.1.kind.as_str()),
                copy_text(e.1.name.as_str()),
                copy_text(e.1.arguments.as_str()),
            );
            out.push(rec);
            k = k + 1;
        }
        out
    }
}

fn blank_partial() -> (r: PartialCall)
    ensures
        partial_view(r) == blank_call(),
{
    PartialCall { id: String::new(), kind: copy_text("function"), name: String::new(), arguments: String::new() }
}

fn merge_into(cur: PartialCall, d: CallDelta) -> (r: PartialCall)
    ensures
        partial_view(r) == merge(partial_view(cur), d@),
{
    let PartialCall { id, kind, mut name, mut arguments } = cur;
    let id = match d.id { Some(i) => i, None => id };
    let kind = match d.kind { Some(k) => k, None => kind };
    match &d.name {
        Some(n) => name.append(n.as_str()),
        None => {},
    }
    match &d.arguments {
        Some(a) => arguments.append(a.as_str()),
        None => {},
    }
    proof {
        assert(name@ == partial_view(cur).name + or_empty(d@.name));
        assert(arguments@ == partial_view(cur).arguments + or_empty(d@.arguments));
    }
    PartialCall { id, kind, name, arguments }
}

} // verus!

verus! {

/// Whether `pat` occurs in `s` at `i`.
pub open spec fn occurs_at(s: Seq<char>, pat: Seq<char>, i: int) -> bool {
    0 <= i && i + pat.len() <= s.len() && s.subrange(i, i + pat.len()) == pat
}

/// The first place at or after `i` where `pat` occurs in `s`, or -1.
pub open spec fn find_from(s: Seq<char>, pat: Seq<char>, i: int) -> int
    decreases s.len() + 1 - i,
{
    if i < 0 || i + pat.len() > s.len() {
        -1
    } else if occurs_at(s, pat, i) {
        i
    } else {
        find_from(s, pat, i + 1)
    }
}

pub open spec fn find_first(s: Seq<char>, pat: Seq<char>) -> int {
    find_from(s, pat, 0)
}

proof fn lemma_find_from(s: Seq<char>, pat: Seq<char>, i: int)
    requires
        0 <= i,
    ensures
        find_from(s, pat, i) == -1 || (i <= find_from(s, pat, i) && occurs_at(s, pat, find_from(s, pat, i))),
    decreases s.len() + 1 - i,
{
    if i + pat.len() <= s.len() && !occurs_at(s, pat, i) {
        lemma_find_from(s, pat, i + 1);
    }
}

fn occurs(s: &[char], pat: &[char], i: usize) -> (r: bool)
    requires
        i + pat@.len() <= s@.len(),
    ensures
        r == occurs_at(s@, pat@, i as int),
{
    let n = s.len();
    let mut k: usize = 0;
    while k < pat.len()
        invariant
            k <= pat@.len(),
            i + pat@.len() <= s@.len(),
            n == s@.len(),
            forall|m: int| 0 <= m < k ==> s@[i + m] == pat@[m],
        decreases pat@.len() - k,
    {
        if s[i + k] != pat[k] {
            assert(s@.subrange(i as int, i + pat@.len())[k as int] != pat@[k as int]);
            return false;
        }
        k = k + 1;
    }
    assert(s@.subrange(i as int, i + pat@.len()) =~= pat@);
    true
}

/// The first place where `pat` occurs in `s`.
pub fn find_text(s: &[char], pat: &[char]) -> (r: Option<usize>)
    ensures
        r matches Some(i) ==> i as int == find_first(s@, pat@) && occurs_at(s@, pat@, i as int),
        r is None ==> find_first(s@, pat@) == -1,
{
    if pat.len() > s.len() {
        return None;
    }
    if pat.len() == 0 {
        assert(occurs_at(s@, pat@, 0)) by { assert(s@.subrange(0, 0) =~= pat@); }
        return Some(0);
    }
    let mut i: usize = 0;
    while i <= s.len() - pat.len()
        invariant
            1 <= pat@.len() <= s@.len(),
            i <= s@.len() - pat@.len() + 1,
            find_from(s@, pat@, i as int) == find_first(s@, pat@),
        decreases s@.len() + 1 - i,
    {
        if occurs(s, pat, i) {
            return Some(i);
        }
        i = i + 1;
    }
    None
}

/// The characters of `s` before index `k`, without trailing `>`s.
pub open spec fn strip_gt_end(s: Seq<char>, k: int) -> int
    decreases k,
{
    if k > 0 && s[k - 1] == '>' {
        strip_gt_end(s, k - 1)
    } else {
        k
    }
}

proof fn lemma_strip_gt_bounds(s: Seq<char>, k: int)
    requires
        0 <= k <= s.len(),
    ensures
        0 <= strip_gt_end(s, k) <= k,
    decreases k,
{
    if k > 0 && s[k - 1] == '>' {
        lemma_strip_gt_bounds(s, k - 1);
    }
}

pub open spec fn open_marker() -> Seq<char> {
    "<function="@
}

pub open spec fn close_marker() -> Seq<char> {
    "</function>"@
}

/// The tool name and argument text of a generation in the form
/// `<function=NAME{ARGS}></function>`, where ARGS parses as JSON.
pub open spec fn groq_call(g: Seq<char>) -> Option<(Seq<char>, Seq<char>)> {
    let start = find_first(g, open_marker());
    let end = find_first(g, close_marker());
    if start < 0 || end < 0 || end < start + open_marker().len() {
        None
    } else {
        let inner = g.subrange(start + open_marker().len(), strip_gt_end(g, end));
        let brace = find_first(inner, seq!['{']);
        if brace < 0 {
            None
        } else if parsed(inner.subrange(brace, inner.len() as int)) is None {
            None
        } else {
            Some((crate::lines::trimmed(inner.subrange(0, brace)), inner.subrange(brace, inner.len() as int)))
        }
    }
}

/// Reads the tool name and argument text out of a failed generation.
pub fn parse_groq_call(g: &str) -> (r: Option<(String, String)>)
    ensures
        r matches Some((n, a)) ==> groq_call(g@) == Some((n@, a@)),
        r is None ==> groq_call(g@) is None,
{
    let cs = chars_of(g);
    let open = chars_of("<function=");
    let close = chars_of("</function>");
    let start = match find_text(cs.as_slice(), open.as_slice()) {
        Some(i) => i,
        None => return None,
    };
    let end = match find_text(cs.as_slice(), close.as_slice()) {
        Some(i) => i,
        None => return None,
    };
    proof {
        reveal_strlit("<function=");
        lemma_find_from(cs@, open@, 0);
        lemma_find_from(cs@, close@, 0);
        lemma_strip_gt_bounds(cs@, end as int);
    }
    if end < start || end - start < 10 {
        return None;
    }
    let lo = start + 10;
    assert(cs@[lo - 1] == '=') by {
        assert(cs@.subrange(start as int, start + 10)[9] == open@[9]);
    }
    let mut stop: usize = end;
    while stop > lo && cs[stop - 1] == '>'
        invariant
            lo <= stop <= end <= cs@.len(),
            cs@[lo - 1] == '=',
            strip_gt_end(cs@, stop as int) == strip_gt_end(cs@, end as int),
        decreases stop,
    {
        stop = stop - 1;
    }
    assert(stop == strip_gt_end(cs@, end as int)) by {
        if stop == lo {
            assert(cs@[stop - 1] != '>');
        }
    }
    let inner = slice_text(cs.as_slice(), lo, stop);
    let ics = chars_of(inner.as_str());
    let brace_pat = vec!['{'];
    assert(brace_pat@ =~= seq!['{']);
    let brace = match find_text(ics.as_slice(), brace_pat.as_slice()) {
        Some(b) => b,
        None => return None,
    };
    proof { lemma_find_from(ics@, seq!['{'], 0); }
    let args = slice_text(ics.as_slice(), brace, ics.len());
    match parse_json(args.as_str()) {
        Some(_) => {},
        None => return None,
    }
    let head: Vec<char> = chars_of(slice_text(ics.as_slice(), 0, brace).as_str());
    let (a, b) = crate::lines::trim_bounds(head.as_slice());
    let name = slice_text(head.as_slice(), a, b);
    Some((name, args))
}

} // verus!

verus! {

/// Relies on uuid's `Uuid::new_v4` and its hyphenated text form: a fresh
/// random identifier. Nothing is known of its value.
#[verifier::external_body]
pub(crate) fn fresh_uuid() -> (r: String) {
    uuid::Uuid::new_v4().to_string()
}

/// The characters before the first `-`, or all of them.
pub open spec fn before_dash(s: Seq<char>) -> Seq<char> {
    let i = find_first(s, seq!['-']);
    if i < 0 { s } else { s.subrange(0, i) }
}

pub open spec fn groq_id(u: Seq<char>) -> Seq<char> {
    "groq_call_"@ + before_dash(u)
}

/// The id given to a repaired call: `groq_call_` and the first group of a uuid.
pub fn groq_call_id(u: &str) -> (r: String)
    ensures
        r@ == groq_id(u@),
{
    let cs = chars_of(u);
    let dash = vec!['-'];
    assert(dash@ =~= seq!['-']);
    let head = match find_text(cs.as_slice(), dash.as_slice()) {
        Some(i) => {
            proof { lemma_find_from(cs@, seq!['-'], 0); }
            slice_text(cs.as_slice(), 0, i)
        },
        None => string_of_all(cs.as_slice()),
    };
    join("groq_call_", head.as_str())
}

fn string_of_all(cs: &[char]) -> (r: String)
    ensures
        r@ == cs@,
{
    let r = slice_text(cs, 0, cs.len());
    assert(cs@.subrange(0, cs@.len() as int) =~= cs@);
    r
}

/// The piece that a `tool_calls` element of a delta carries, where it has an index.
pub open spec fn delta_of(c: Json) -> Option<DeltaView> {
    match uint_of(field(c, "index"@)) {
        Some(index) => Some(DeltaView {
            index,
            id: text_of(field(c, "id"@)),
            kind: text_of(field(c, "type"@)),
            name: text_of(field2(c, "function"@, "name"@)),
            arguments: text_of(field2(c, "function"@, "arguments"@)),
        }),
        None => None,
    }
}

/// The pieces of a list of `tool_calls` elements, in order.
pub open spec fn deltas_of(cs: Seq<Json>) -> Seq<DeltaView>
    decreases cs.len(),
{
    if cs.len() == 0 {
        Seq::empty()
    } else {
        match delta_of(cs.last()) {
            Some(d) => deltas_of(cs.drop_last()).push(d),
            None => deltas_of(cs.drop_last()),
        }
    }
}

/// The pieces of one choice of a chunk.
pub open spec fn choice_deltas(choice: Json) -> Seq<DeltaView> {
    match items_of(field2(choice, "delta"@, "tool_calls"@)) {
        Some(cs) => deltas_of(cs),
        None => Seq::empty(),
    }
}

/// The text of one choice of a chunk, where it is not empty.
pub open spec fn choice_text(choice: Json) -> Option<Seq<char>> {
    match text_of(field2(choice, "delta"@, "content"@)) {
        Some(t) => if t.len() > 0 { Some(t) } else { None },
        None => None,
    }
}

pub open spec fn choice_finishes(choice: Json) -> bool {
    text_of(field(choice, "finish_reason"@)) is Some
}

fn opt_text(v: &Json, key: &str) -> (r: Option<String>)
    ensures
        opt_view(r) == text_of(field(*v, key@)),
{
    match get_text(v, key) {
        Some(s) => Some(copy_text(s.as_str())),
        None => None,
    }
}

fn read_delta(c: &Json) -> (r: Option<CallDelta>)
    ensures
        r matches Some(d) ==> delta_of(*c) == Some(d@),
        r is None ==> delta_of(*c) is None,
{
    let index = match c.get("index") {
        Some(i) => match i.as_u64() {
            Some(u) => u,
            None => return None,
        },
        None => return None,
    };
    let (name, arguments) = match c.get("function") {
        Some(f) => (opt_text(f, "name"), opt_text(f, "arguments")),
        None => (None, None),
    };
    Some(CallDelta { index, id: opt_text(c, "id"), kind: opt_text(c, "type"), name, arguments })
}

/// The state of one OpenAI-style reply stream.
pub struct OpenAIStream {
    pub calls: CallAccumulator,
}

pub open spec fn calls_of(out: Seq<ProviderEvent>, pending: Seq<(u64, CallView)>) -> bool {
    out.len() == pending.len()
        && forall|i: int| 0 <= i < out.len() ==> crate::events::is_call(#[trigger] out[i], pending[i].1)
}

impl OpenAIStream {
    pub fn new() -> (r: OpenAIStream)
        ensures
            r.calls.wf(),
            r.calls.seen().len() == 0,
            r.calls.pending().len() == 0,
    {
        OpenAIStream { calls: CallAccumulator::new() }
    }

    fn flush_into(&mut self, out: &mut Vec<ProviderEvent>)
        requires
            old(self).calls.wf(),
        ensures
            final(self).calls.wf(),
            final(self).calls.seen().len() == 0,
            final(self).calls.pending().len() == 0,
            final(out)@.len() >= old(out)@.len(),
            final(out)@.subrange(0, old(out)@.len() as int) == old(out)@,
            calls_of(final(out)@.subrange(old(out)@.len() as int, final(out)@.len() as int), old(self).calls.pending()),
    {
        let ghost start = out@;
        let ghost pending = self.calls.pending();
        let mut calls = self.calls.flush();
        let n = calls.len();
        let mut k: usize = 0;
        while k < n
            invariant
                n == calls@.len() + k,
                n == pending.len(),
                out@.len() == start.len() + k,
                out@.subrange(0, start.len() as int) == start,
                forall|i: int| 0 <= i < calls@.len() ==> crate::events::call_view(#[trigger] calls@[i]) == Some(pending[k + i].1),
                forall|i: int| 0 <= i < k ==> crate::events::is_call(#[trigger] out@[start.len() + i], pending[i].1),
            decreases n - k,
        {
            let ghost prev = calls@;
            let c = calls.remove(0);
            out.push(ProviderEvent::ToolCall(c));
            proof {
                assert forall|i: int| 0 <= i < calls@.len() implies
                    crate::events::call_view(#[trigger] calls@[i]) == Some(pending[k + 1 + i].1) by {
                    assert(calls@[i] == prev[i + 1]);
                }
            }
            k = k + 1;
            assert(out@.subrange(0, start.len() as int) =~= start);
        }
        let ghost tail = out@.subrange(start.len() as int, out@.len() as int);
        assert forall|i: int| 0 <= i < tail.len() implies crate::events::is_call(#[trigger] tail[i], pending[i].1) by {
            assert(tail[i] == out@[start.len() + i]);
        }
    }
}

} // verus!

verus! {

/// What one choice of a chunk yields, read after pieces `seen`: its text,
/// where not empty; then, where the choice finishes, every call assembled
/// so far by ascending ordinal, after which assembly starts afresh.
pub open spec fn choice_result(seen: Seq<DeltaView>, choice: Json, out: Seq<ProviderEvent>,
    seen_after: Seq<DeltaView>) -> bool {
    let ds = seen + choice_deltas(choice);
    let c: int = if choice_text(choice) is Some { 1 } else { 0 };
    &&& out.len() >= c
    &&& (choice_text(choice) matches Some(t) ==> crate::events::is_content(out[0], t))
    &&& if choice_finishes(choice) {
        seen_after.len() == 0 && exists|p: Seq<(u64, CallView)>| flush_of(p, ds)
            && calls_of(#[trigger] out.subrange(c, out.len() as int), p)
    } else {
        seen_after == ds && out.len() == c
    }
}

/// What the choices of a chunk yield, one after the other, read after
/// pieces `seen`, leaving pieces `after`.
pub open spec fn choices_result(seen: Seq<DeltaView>, cs: Seq<Json>, out: Seq<ProviderEvent>,
    after: Seq<DeltaView>) -> bool
    decreases cs.len(),
{
    if cs.len() == 0 {
        out.len() == 0 && after == seen
    } else {
        exists|k: int, mid: Seq<DeltaView>| 0 <= k <= out.len()
            && choices_result(seen, cs.drop_last(), out.subrange(0, k), mid)
            && #[trigger] choice_result(mid, cs.last(), out.subrange(k, out.len() as int), after)
    }
}

/// Whether `out` is what a chunk `v` yields: a chunk without a `choices`
/// array is skipped; otherwise its usage report, where it has one, then the
/// events of its choices.
pub open spec fn chunk_result(seen: Seq<DeltaView>, v: Json, out: Seq<ProviderEvent>, after: Seq<DeltaView>) -> bool {
    let u: int = if field(v, "usage"@) matches Some(Json::Object(_)) { 1 } else { 0 };
    match items_of(field(v, "choices"@)) {
        Some(cs) => {
            &&& out.len() >= u
            &&& (u == 1 ==> out[0] == ProviderEvent::Usage(usage_event(field(v, "usage"@)->0)))
            &&& choices_result(seen, cs, out.subrange(u, out.len() as int), after)
        },
        None => out.len() == 0 && after == seen,
    }
}

/// Whether `data` is a failed generation that the repair reads as a call:
/// its name and argument text.
pub open spec fn repaired(data: Seq<char>) -> Option<(Seq<char>, Seq<char>)> {
    match parsed(data) {
        Some(v) => if text_of(field2(v, "error"@, "code"@)) == Some("tool_use_failed"@) {
            match text_of(field2(v, "error"@, "failed_generation"@)) {
                Some(g) => groq_call(g),
                None => None,
            }
        } else {
            None
        },
        None => None,
    }
}

/// One repaired call with the given name and arguments, of type `function`,
/// whose id begins with `groq_call_`.
pub open spec fn repair_result(r: Seq<ProviderEvent>, call: (Seq<char>, Seq<char>)) -> bool {
    r.len() == 1 && (r[0] matches ProviderEvent::ToolCall(c) && (crate::events::call_view(c) matches Some(v)
        && v.name == call.0 && v.arguments == call.1 && v.kind == "function"@
        && starts_with(v.id, "groq_call_"@)))
}

pub open spec fn usage_event(u: Json) -> Usage {
    Usage {
        prompt_tokens: i32_of(field(u, "prompt_tokens"@)),
        completion_tokens: i32_of(field(u, "completion_tokens"@)),
        total_tokens: i32_of(field(u, "total_tokens"@)),
    }
}

fn read_i32(v: &Json, key: &str) -> (r: Option<i32>)
    ensures
        r == i32_of(field(*v, key@)),
{
    match v.get(key) {
        Some(x) => x.as_i32(),
        None => None,
    }
}

impl OpenAIStream {
    /// One choice of a chunk: its text, its tool call pieces, and its finish.
    pub fn apply_choice(&mut self, choice: &Json, out: &mut Vec<ProviderEvent>)
        requires
            old(self).calls.wf(),
        ensures
            final(self).calls.wf(),
            final(out)@.len() >= old(out)@.len(),
            final(out)@.subrange(0, old(out)@.len() as int) == old(out)@,
            choice_result(old(self).calls.seen(), *choice,
                final(out)@.subrange(old(out)@.len() as int, final(out)@.len() as int), final(self).calls.seen()),
    {
        let ghost start = out@;
        let ghost seen0 = self.calls.seen();
        match choice.get("delta") {
            Some(delta) => {
                match get_text(delta, "content") {
                    Some(t) => {
                        if !t.as_str().is_empty() {
                            out.push(ProviderEvent::Content(copy_text(t.as_str())));
                        }
                    },
                    None => {},
                }
                assert(out@.len() == start.len() + (if choice_text(*choice) is Some { 1int } else { 0int }));
                assert(out@.subrange(0, start.len() as int) =~= start);
                assert(choice_text(*choice) matches Some(t) ==> crate::events::is_content(out@[start.len() as int], t));
                match delta.get("tool_calls") {
                    Some(tc) => match tc.as_array() {
                        Some(items) => {
                            let mut i: usize = 0;
                            while i < items.len()
                                invariant
                                    i <= items@.len(),
                                    self.calls.wf(),
                                    self.calls.seen() == seen0 + deltas_of(items@.subrange(0, i as int)),
                                decreases items@.len() - i,
                            {
                                assert(items@.subrange(0, i + 1).drop_last() =~= items@.subrange(0, i as int));
                                match read_delta(&items[i]) {
                                    Some(d) => {
                                        self.calls.apply(d);
                                        assert(seen0 + deltas_of(items@.subrange(0, i + 1))
                                            =~= (seen0 + deltas_of(items@.subrange(0, i as int))).push(d@));
                                    },
                                    None => {},
                                }
                                i = i + 1;
                            }
                            assert(items@.subrange(0, items@.len() as int) =~= items@);
                        },
                        None => {
                            assert(seen0 + Seq::<DeltaView>::empty() =~= seen0);
                        },
                    },
                    None => {
                        assert(seen0 + Seq::<DeltaView>::empty() =~= seen0);
                    },
                }
            },
            None => {
                assert(seen0 + Seq::<DeltaView>::empty() =~= seen0);
                assert(out@.subrange(0, start.len() as int) =~= start);
            },
        }
        let ghost mid = out@;
        assert(mid.len() == start.len() + (if choice_text(*choice) is Some { 1int } else { 0int }));
        assert(self.calls.seen() == seen0 + choice_deltas(*choice));
        assert(mid.subrange(0, start.len() as int) == start);
        let ghost pending = self.calls.pending();
        let ghost ds = self.calls.seen();
        if get_text(choice, "finish_reason").is_some() {
            self.flush_into(out);
            proof {
                let c: int = mid.len() - start.len();
                let all = out@.subrange(start.len() as int, out@.len() as int);
                assert(all.subrange(c, all.len() as int) =~= out@.subrange(mid.len() as int, out@.len() as int));
                assert(out@.subrange(0, mid.len() as int) == mid);
                assert(flush_of(pending, ds));
                assert(calls_of(all.subrange(c, all.len() as int), pending));
                if choice_text(*choice) is Some {
                    assert(all[0] == mid[start.len() as int]);
                }
                assert(choice_result(seen0, *choice, all, self.calls.seen()));
            }
        }
        proof {
            if !choice_finishes(*choice) {
                let all = out@.subrange(start.len() as int, out@.len() as int);
                if choice_text(*choice) is Some {
                    assert(all[0] == mid[start.len() as int]);
                }
                assert(choice_result(seen0, *choice, all, self.calls.seen()));
            }
            assert(out@.subrange(0, start.len() as int) =~= start) by {
                assert(out@.subrange(0, mid.len() as int) == mid);
                assert(mid.subrange(0, start.len() as int) == start);
            }
        }
    }

    /// One `data:` payload of the stream.
    pub fn process_data_line(&mut self, data: &str) -> (r: Vec<ProviderEvent>)
        requires
            old(self).calls.wf(),
        ensures
            final(self).calls.wf(),
            data@ == "[DONE]"@ ==> calls_of(r@, old(self).calls.pending())
                && final(self).calls.pending().len() == 0 && final(self).calls.seen().len() == 0,
            data@ != "[DONE]"@ && parsed(data@) is None ==> r@.len() == 0
                && final(self).calls.seen() == old(self).calls.seen()
                && final(self).calls.pending() == old(self).calls.pending(),
            data@ != "[DONE]"@ && repaired(data@) is Some ==> repair_result(r@, repaired(data@)->0)
                && final(self).calls.seen() == old(self).calls.seen()
                && final(self).calls.pending() == old(self).calls.pending(),
            data@ != "[DONE]"@ && repaired(data@) is None && parsed(data@) is Some
                ==> chunk_result(old(self).calls.seen(), parsed(data@)->0, r@, final(self).calls.seen()),
    {
        let mut out: Vec<ProviderEvent> = Vec::new();
        if same_text(data, "[DONE]") {
            self.flush_into(&mut out);
            assert(out@.subrange(0, out@.len() as int) =~= out@);
            return out;
        }
        let v = match parse_json(data) {
            Some(v) => v,
            None => return out,
        };
        match v.get("error") {
            Some(err) => {
                let failed = match get_text(err, "code") {
                    Some(code) => same_text(code.as_str(), "tool_use_failed"),
                    None => false,
                };
                if failed {
                    match get_text(err, "failed_generation") {
                        Some(g) => match parse_groq_call(g.as_str()) {
                            Some((name, args)) => {
                                let u = fresh_uuid();
                                let id = groq_call_id(u.as_str());
                                let rec = tool_call_record(id, copy_text("function"), name, args);
                                out.push(ProviderEvent::ToolCall(rec));
                                proof {
                                    reveal_strlit("groq_call_");
                                    assert(("groq_call_"@ + before_dash(u@)).subrange(0, 10) =~= "groq_call_"@);
                                }
                                return out;
                            },
                            None => {},
                        },
                        None => {},
                    }
                }
            },
            None => {},
        }
        let ghost seen0 = self.calls.seen();
        let items: &Vec<Json> = match v.get("choices") {
            Some(cs) => match cs.as_array() {
                Some(items) => items,
                None => return out,
            },
            None => return out,
        };
        match v.get("usage") {
            Some(u) => match u {
                Json::Object(_) => {
                    out.push(ProviderEvent::Usage(Usage {
                        prompt_tokens: read_i32(u, "prompt_tokens"),
                        completion_tokens: read_i32(u, "completion_tokens"),
                        total_tokens: read_i32(u, "total_tokens"),
                    }));
                },
                _ => {},
            },
            None => {},
        }
        let ghost head = out@;
        let ghost u: int = if field(v, "usage"@) matches Some(Json::Object(_)) { 1 } else { 0 };
        assert(head.len() == u);
        let mut i: usize = 0;
        assert(out@.subrange(u, out@.len() as int) =~= Seq::<ProviderEvent>::empty());
        assert(items@.subrange(0, 0) =~= Seq::<Json>::empty());
        while i < items.len()
            invariant
                i <= items@.len(),
                self.calls.wf(),
                out@.len() >= u,
                out@.subrange(0, u) == head,
                head.len() == u,
                choices_result(seen0, items@.subrange(0, i as int), out@.subrange(u, out@.len() as int),
                    self.calls.seen()),
            decreases items@.len() - i,
        {
            let ghost before = out@;
            let ghost mid = self.calls.seen();
            self.apply_choice(&items[i], &mut out);
            proof {
                let sub = items@.subrange(0, i + 1);
                assert(sub.drop_last() =~= items@.subrange(0, i as int));
                assert(sub.last() == items@[i as int]);
                let rest = out@.subrange(u, out@.len() as int);
                let k = before.len() - u;
                assert(rest.subrange(0, k) =~= before.subrange(u, before.len() as int));
                assert(rest.subrange(k, rest.len() as int) =~= out@.subrange(before.len() as int, out@.len() as int));
                assert(choice_result(mid, sub.last(), rest.subrange(k, rest.len() as int), self.calls.seen()));
                assert(out@.subrange(0, u) =~= before.subrange(0, u));
            }
            i = i + 1;
        }
        assert(items@.subrange(0, items@.len() as int) =~= items@);
        proof {
            if u == 1 {
                assert(out@[0] == out@.subrange(0, u)[0]);
                assert(out@[0] == ProviderEvent::Usage(usage_event(field(v, "usage"@)->0)));
            }
            assert(chunk_result(seen0, v, out@, self.calls.seen()));
        }
        out
    }
}

} // verus!

verus! {

/// The state of the stream as far as events go: the pieces taken since the
/// last flush, and the calls under assembly.
pub open spec fn state_of(s: &OpenAIStream) -> (Seq<DeltaView>, Seq<(u64, CallView)>) {
    (s.calls.seen(), s.calls.pending())
}

/// What one payload does: from state `st`, the events `out`, leaving `after`.
pub open spec fn payload_step(st: (Seq<DeltaView>, Seq<(u64, CallView)>), data: Seq<char>, out: Seq<ProviderEvent>,
    after: (Seq<DeltaView>, Seq<(u64, CallView)>)) -> bool {
    &&& flush_of(after.1, after.0)
    &&& if data == "[DONE]"@ {
        calls_of(out, st.1) && after.0.len() == 0 && after.1.len() == 0
    } else if parsed(data) is None {
        out.len() == 0 && after == st
    } else if repaired(data) is Some {
        repair_result(out, repaired(data)->0) && after == st
    } else {
        chunk_result(st.0, parsed(data)->0, out, after.0)
    }
}

/// A run of payloads read from state `st`: the events, and the state after.
pub open spec fn run_events(st: (Seq<DeltaView>, Seq<(u64, CallView)>), ps: Seq<(Option<Seq<char>>, Seq<char>)>,
    out: Seq<ProviderEvent>, after: (Seq<DeltaView>, Seq<(u64, CallView)>)) -> bool
    decreases ps.len(),
{
    if ps.len() == 0 {
        out.len() == 0 && after == st
    } else {
        exists|k: int, mid: (Seq<DeltaView>, Seq<(u64, CallView)>)| 0 <= k <= out.len()
            && run_events(st, ps.drop_last(), out.subrange(0, k), mid)
            && #[trigger] payload_step(mid, ps.last().1, out.subrange(k, out.len() as int), after)
    }
}

/// Stream fidelity: however the body is cut into chunks, the events and the
/// final state are those of the same run of payloads.
pub proof fn lemma_openai_split_invariant(c1: Seq<Seq<u8>>, c2: Seq<Seq<u8>>, st: (Seq<DeltaView>, Seq<(u64, CallView)>),
    out: Seq<ProviderEvent>, after: (Seq<DeltaView>, Seq<(u64, CallView)>))
    requires
        c1.flatten() == c2.flatten(),
    ensures
        run_events(st, crate::lines::sse_fold(None, crate::lines::scan_chunks(Seq::empty(), c1).0).1, out, after)
            == run_events(st, crate::lines::sse_fold(None, crate::lines::scan_chunks(Seq::empty(), c2).0).1, out, after),
{
    crate::lines::lemma_sse_split_invariant(c1, c2);
}

/// An OpenAI-style reply body read chunk by chunk.
pub struct OpenAIBody {
    pub body: crate::lines::EventStream,
    pub state: OpenAIStream,
}

impl OpenAIBody {
    pub fn new() -> (r: OpenAIBody)
        ensures
            r.body.pending().len() == 0,
            r.body.event() is None,
            r.state.calls.wf(),
            r.state.calls.seen().len() == 0,
            r.state.calls.pending().len() == 0,
    {
        OpenAIBody { body: crate::lines::EventStream::new(), state: OpenAIStream::new() }
    }

    /// At the end of the body: the events of a last line without a newline.
    pub fn finish(&mut self) -> (r: Vec<ProviderEvent>)
        requires
            old(self).state.calls.wf(),
        ensures
            final(self).state.calls.wf(),
            final(self).body.pending().len() == 0,
            old(self).body.pending().len() == 0 ==> r@.len() == 0 && state_of(&final(self).state) == state_of(&old(self).state),
            old(self).body.pending().len() > 0 ==> match crate::lines::sse_step(old(self).body.event(), old(self).body.pending()).1 {
                Some(x) => payload_step(state_of(&old(self).state), x.1, r@, state_of(&final(self).state)),
                None => r@.len() == 0 && state_of(&final(self).state) == state_of(&old(self).state),
            },
    {
        match self.body.finish() {
            Some(d) => self.state.process_data_line(d.data.as_str()),
            None => Vec::new(),
        }
    }

    /// The events of the payloads that one chunk completes.
    pub fn feed(&mut self, chunk: &[u8]) -> (r: Vec<ProviderEvent>)
        requires
            old(self).state.calls.wf(),
        ensures
            final(self).state.calls.wf(),
            final(self).body.pending() == crate::lines::scan(old(self).body.pending(), chunk@).1,
            final(self).body.event() == crate::lines::sse_fold(old(self).body.event(),
                crate::lines::scan(old(self).body.pending(), chunk@).0).0,
            run_events(state_of(&old(self).state), crate::lines::sse_fold(old(self).body.event(),
                crate::lines::scan(old(self).body.pending(), chunk@).0).1, r@, state_of(&final(self).state)),
    {
        let ghost s0 = state_of(&self.state);
        let ds = self.body.feed(chunk);
        let ghost ps = crate::lines::data_views(ds@);
        let ghost body_after = self.body;
        let mut out: Vec<ProviderEvent> = Vec::new();
        let mut i: usize = 0;
        while i < ds.len()
            invariant
                i <= ds@.len(),
                ps == crate::lines::data_views(ds@),
                self.body == body_after,
                self.state.calls.wf(),
                run_events(s0, ps.subrange(0, i as int), out@, state_of(&self.state)),
            decreases ds@.len() - i,
        {
            let ghost before = out@;
            let ghost mid = state_of(&self.state);
            let mut evs = self.state.process_data_line(ds[i].data.as_str());
            let ghost ev = evs@;
            out.append(&mut evs);
            proof {
                let sub = ps.subrange(0, i + 1);
                assert(sub.drop_last() =~= ps.subrange(0, i as int));
                assert(sub.last().1 == ds@[i as int].data@);
                assert(out@.subrange(0, before.len() as int) =~= before);
                assert(out@.subrange(before.len() as int, out@.len() as int) =~= ev);
                assert(payload_step(mid, sub.last().1, out@.subrange(before.len() as int, out@.len() as int),
                    state_of(&self.state)));
            }
            i = i + 1;
        }
        assert(ps.subrange(0, ds@.len() as int) =~= ps);
        out
    }
}

} // verus!
