//! Runs of a canvas pipeline: their identifiers, time-prefixed so they sort
//! chronologically with a counter so two runs started in the same
//! millisecond do not collide, and the registry a surface polls for each
//! run's streamed output, cost and state.
use vstd::prelude::*;
use crate::api::{string_views, ApiError, ErrorCode};
use crate::chars::contains_seq;
use crate::entry::{dec_digits, decimal, zero_pad, zeros};
use crate::mcp::{join_into, joined};
use crate::platform::has;
use crate::ledger::string_opt;
use crate::listing::{lex_less, lex_lt};
use crate::text::{chars_of, own, push_chars, str_eq, string_of};

verus! {

/// Appends `n` in decimal, zero-padded to at least `w` characters.
pub fn push_zero_padded(out: &mut Vec<char>, n: u64, w: usize)
    ensures
        final(out)@ == old(out)@ + zero_pad(n as nat, w as int),
{
    let ghost base = out@;
    let d = decimal(n);
    let ds = chars_of(d.as_str());
    let pad: usize = if w > ds.len() {
        w - ds.len()
    } else {
        0
    };
    let mut z: usize = 0;
    while z < pad
        invariant
            0 <= z <= pad,
            out@ == base + zeros(z as int),
        decreases pad - z,
    {
        out.push('0');
        z = z + 1;
    }
    proof {
        if pad == 0 {
            assert(zeros(w - dec_digits(n as nat).len()) == zeros(0));
        }
    }
    crate::chars::extend(out, ds.as_slice());
    assert(out@ =~= base + zero_pad(n as nat, w as int));
}

/// `{ms:013}-{count % 10000:04}`.
pub open spec fn run_id_text(ms: u64, count: u64) -> Seq<char> {
    zero_pad(ms as nat, 13) + seq!['-'] + zero_pad((count % 10000) as nat, 4)
}

/// The id of a run started at `ms` milliseconds since the epoch, as the
/// `count`-th run of this process.
pub fn run_id(ms: u64, count: u64) -> (r: String)
    ensures
        r@ == run_id_text(ms, count),
{
    let mut out: Vec<char> = Vec::new();
    push_zero_padded(&mut out, ms, 13);
    out.push('-');
    push_zero_padded(&mut out, count % 10000, 4);
    assert(out@ =~= run_id_text(ms, count));
    string_of(out.as_slice())
}

/// Milliseconds since the Unix epoch, from the system clock
/// (`SystemTime::now`, then `Duration::as_millis`); 0 for a clock set before
/// the epoch.
///
/// Trusted, and nothing is claimed of the value: it depends on the clock.
#[verifier::external_body]
fn unix_now_millis() -> (r: u128) {
    std::time::SystemTime::now()
        .duration_since(std::time::UNIX_EPOCH)
        .map(|d| d.as_millis())
        .unwrap_or(0)
}

/// A run id that sorts chronologically: the clock's milliseconds, then the
/// caller's run counter, which this call advances by one (wrapping).
///
/// The counter is held by the caller: one per process gives ids that do not
/// collide within a millisecond.
pub fn next_run_id(counter: &mut u64) -> (r: String)
    ensures
        *final(counter) == (if *old(counter) == u64::MAX { 0 } else { *old(counter) + 1 }),
        exists|ms: u64| r@ == run_id_text(ms, *old(counter)),
{
    let now = unix_now_millis();
    let ms: u64 = if now <= 18446744073709551615u128 {
        now as u64
    } else {
        18446744073709551615u64
    };
    let count = *counter;
    *counter = if count == u64::MAX {
        0
    } else {
        count + 1
    };
    run_id(ms, count)
}

pub open spec fn pow10(w: nat) -> nat
    decreases w,
{
    if w == 0 {
        1
    } else {
        10 * pow10((w - 1) as nat)
    }
}

/// `a` comes before `b` in lexicographic order, deciding at some position.
pub open spec fn lex_before(a: Seq<char>, b: Seq<char>) -> bool {
    exists|i: int| 0 <= i < a.len() && i < b.len() && a.take(i) == b.take(i) && #[trigger] a[i] < b[i]
}

proof fn lemma_pad_step(n: nat, w: nat)
    requires
        w >= 1,
    ensures
        zero_pad(n, (w + 1) as int) == zero_pad(n / 10, w as int).push(crate::entry::digit((n % 10) as int)),
{
    let d = crate::entry::digit((n % 10) as int);
    if n >= 10 {
        assert(dec_digits(n) == dec_digits(n / 10).push(d));
        assert(dec_digits(n).len() == dec_digits(n / 10).len() + 1);
        assert((w + 1) - dec_digits(n).len() == w - dec_digits(n / 10).len());
        assert(zero_pad(n, (w + 1) as int) =~= zero_pad(n / 10, w as int).push(d));
    } else {
        assert(dec_digits(n) == seq![d]);
        assert(n / 10 == 0);
        assert(dec_digits(0) == seq![crate::entry::digit(0)]);
        assert(zeros(w as int) == zeros(w - 1).push('0'));
        assert(zero_pad(n, (w + 1) as int) =~= zeros(w as int).push(d));
        assert(zero_pad(0, w as int) =~= zeros(w - 1) + seq!['0']);
        assert(zeros(w - 1) + seq!['0'] =~= zeros(w - 1).push('0'));
    }
}

proof fn lemma_pad_len(n: nat, w: nat)
    requires
        w >= 1,
        n < pow10(w),
    ensures
        zero_pad(n, w as int).len() == w,
    decreases w,
{
    if w == 1 {
        reveal_with_fuel(pow10, 2);
        assert(n < 10);
        assert(dec_digits(n) == seq![crate::entry::digit(n as int)]);
    } else {
        let v = (w - 1) as nat;
        assert(n / 10 < pow10(v)) by (nonlinear_arith)
            requires
                n < pow10(w),
                pow10(w) == 10 * pow10(v),
        ;
        lemma_pad_len(n / 10, v);
        lemma_pad_step(n, v);
    }
}

proof fn lemma_pad_order(a: nat, b: nat, w: nat)
    requires
        w >= 1,
        a < b < pow10(w),
    ensures
        exists|i: int|
            0 <= i < w && zero_pad(a, w as int).take(i) == zero_pad(b, w as int).take(i)
                && #[trigger] zero_pad(a, w as int)[i] < zero_pad(b, w as int)[i],
    decreases w,
{
    if w == 1 {
        reveal_with_fuel(pow10, 2);
        assert(a < 10 && b < 10);
        assert(dec_digits(a) == seq![crate::entry::digit(a as int)]);
        assert(dec_digits(b) == seq![crate::entry::digit(b as int)]);
        assert(zero_pad(a, 1) =~= seq![crate::entry::digit(a as int)]);
        assert(zero_pad(b, 1) =~= seq![crate::entry::digit(b as int)]);
        assert(zero_pad(a, 1).take(0) =~= zero_pad(b, 1).take(0));
        assert(zero_pad(a, 1)[0] < zero_pad(b, 1)[0]);
    } else {
        let v = (w - 1) as nat;
        assert(a / 10 <= b / 10 && b / 10 < pow10(v)) by (nonlinear_arith)
            requires
                a < b,
                b < pow10(w),
                pow10(w) == 10 * pow10(v),
        ;
        lemma_pad_step(a, v);
        lemma_pad_step(b, v);
        lemma_pad_len(a / 10, v);
        lemma_pad_len(b / 10, v);
        let pa = zero_pad(a / 10, v as int);
        let pb = zero_pad(b / 10, v as int);
        if a / 10 < b / 10 {
            lemma_pad_order(a / 10, b / 10, v);
            let i = choose|i: int| 0 <= i < v && pa.take(i) == pb.take(i) && #[trigger] pa[i] < pb[i];
            assert(zero_pad(a, w as int).take(i) =~= pa.take(i));
            assert(zero_pad(b, w as int).take(i) =~= pb.take(i));
            assert(zero_pad(a, w as int)[i] == pa[i]);
            assert(zero_pad(b, w as int)[i] == pb[i]);
        } else {
            assert(a % 10 < b % 10) by (nonlinear_arith)
                requires
                    a < b,
                    a / 10 == b / 10,
            ;
            let i = v as int;
            assert(zero_pad(a, w as int).take(i) =~= pa);
            assert(zero_pad(b, w as int).take(i) =~= pb);
            assert(zero_pad(a, w as int)[i] == crate::entry::digit((a % 10) as int));
            assert(zero_pad(b, w as int)[i] == crate::entry::digit((b % 10) as int));
        }
    }
}

/// Run ids sort chronologically: a run started in an earlier millisecond
/// has an id that sorts first, and within one millisecond the counter
/// decides, for every time before the year 2286, when milliseconds since
/// the epoch first need a fourteenth digit.
pub proof fn law_run_ids_sort_chronologically(ms1: u64, c1: u64, ms2: u64, c2: u64)
    requires
        ms1 < 10000000000000,
        ms2 < 10000000000000,
        ms1 < ms2 || (ms1 == ms2 && c1 % 10000 < c2 % 10000),
    ensures
        lex_before(run_id_text(ms1, c1), run_id_text(ms2, c2)),
{
    reveal_with_fuel(pow10, 14);
    assert(pow10(13) == 10000000000000);
    assert(pow10(4) == 10000);
    let a = run_id_text(ms1, c1);
    let b = run_id_text(ms2, c2);
    let pa = zero_pad(ms1 as nat, 13);
    let pb = zero_pad(ms2 as nat, 13);
    lemma_pad_len(ms1 as nat, 13);
    lemma_pad_len(ms2 as nat, 13);
    let qa = zero_pad((c1 % 10000) as nat, 4);
    let qb = zero_pad((c2 % 10000) as nat, 4);
    lemma_pad_len((c1 % 10000) as nat, 4);
    lemma_pad_len((c2 % 10000) as nat, 4);
    if ms1 < ms2 {
        lemma_pad_order(ms1 as nat, ms2 as nat, 13);
        let i = choose|i: int| 0 <= i < 13 && pa.take(i) == pb.take(i) && #[trigger] pa[i] < pb[i];
        assert(a.take(i) =~= pa.take(i));
        assert(b.take(i) =~= pb.take(i));
        assert(a[i] == pa[i] && b[i] == pb[i]);
    } else {
        lemma_pad_order((c1 % 10000) as nat, (c2 % 10000) as nat, 4);
        let j = choose|j: int| 0 <= j < 4 && qa.take(j) == qb.take(j) && #[trigger] qa[j] < qb[j];
        let i = 14 + j;
        assert(a.take(i) =~= pa + seq!['-'] + qa.take(j));
        assert(b.take(i) =~= pb + seq!['-'] + qb.take(j));
        assert(a[i] == qa[j] && b[i] == qb[j]);
    }
}

// ── the registry of runs ─────────────────────────────────────────────────────

/// How many runs the registry keeps once finished ones can be dropped.
pub const KEEP: usize = 20;

/// Where a run stands.
#[derive(Debug, Clone, Copy, PartialEq, Eq, Structural)]
pub enum RunState {
    Running,
    Done,
    Cancelled,
    Failed,
    /// Stopped before vault content would leave the machine, waiting for a
    /// person to approve it: a decision, not a failure.
    NeedsEgressApproval,
}

/// What running one node cost, as the runtime measured it.
#[derive(Debug, Clone, Copy, PartialEq, Eq, Structural)]
pub struct RunCost {
    pub tokens: u64,
    pub elapsed_ms: u64,
    /// The runtime's tokens-per-second figure, carried as the bits of its
    /// `f64`: the registry stores it and never computes with it.
    pub tokens_per_sec_bits: u64,
    pub peak_rss_bytes: u64,
}

/// One node of a run, as a surface polls it.
#[derive(Debug, PartialEq, Eq)]
pub struct RunNodeState {
    pub id: String,
    pub kind: String,
    pub running: bool,
    /// Everything streamed so far, or the final output once finished.
    pub output: String,
    pub tokens: Option<u64>,
    pub tokens_per_sec_bits: Option<u64>,
    pub elapsed_ms: Option<u64>,
    pub peak_rss_bytes: Option<u64>,
    /// Where the node's result was proposed, once it was.
    pub proposed_to: Option<String>,
}

/// A node of a run, as plain values.
#[verifier::ext_equal]
pub struct NodeModel {
    pub id: Seq<char>,
    pub kind: Seq<char>,
    pub running: bool,
    pub output: Seq<char>,
    pub tokens: Option<u64>,
    pub tokens_per_sec_bits: Option<u64>,
    pub elapsed_ms: Option<u64>,
    pub peak_rss_bytes: Option<u64>,
    pub proposed_to: Option<Seq<char>>,
}

fn copy_opt(o: &Option<String>) -> (r: Option<String>)
    ensures
        string_opt(r) == string_opt(*o),
{
    match o {
        Some(s) => Some(s.clone()),
        None => None,
    }
}

impl View for RunNodeState {
    type V = NodeModel;

    open spec fn view(&self) -> NodeModel {
        NodeModel {
            id: self.id@,
            kind: self.kind@,
            running: self.running,
            output: self.output@,
            tokens: self.tokens,
            tokens_per_sec_bits: self.tokens_per_sec_bits,
            elapsed_ms: self.elapsed_ms,
            peak_rss_bytes: self.peak_rss_bytes,
            proposed_to: string_opt(self.proposed_to),
        }
    }
}

impl RunNodeState {
    /// An equal node, owned separately.
    pub fn copied(&self) -> (r: RunNodeState)
        ensures
            r@ == self@,
    {
        RunNodeState {
            id: self.id.clone(),
            kind: self.kind.clone(),
            running: self.running,
            output: self.output.clone(),
            tokens: self.tokens,
            tokens_per_sec_bits: self.tokens_per_sec_bits,
            elapsed_ms: self.elapsed_ms,
            peak_rss_bytes: self.peak_rss_bytes,
            proposed_to: copy_opt(&self.proposed_to),
        }
    }
}

/// One run, as a surface polls it.
#[derive(Debug, PartialEq, Eq)]
pub struct RunStatus {
    pub id: String,
    pub canvas: String,
    pub target: String,
    pub state: RunState,
    pub nodes: Vec<RunNodeState>,
    pub total_tokens: u64,
    pub elapsed_ms: u128,
    pub error: Option<String>,
    /// Where vault content is going, while it is going there.
    pub egress_to: Option<String>,
    pub egress_bytes: Option<u64>,
}

/// A run, as plain values.
#[verifier::ext_equal]
pub struct RunModel {
    pub id: Seq<char>,
    pub canvas: Seq<char>,
    pub target: Seq<char>,
    pub state: RunState,
    pub nodes: Seq<NodeModel>,
    pub total_tokens: u64,
    pub elapsed_ms: u128,
    pub error: Option<Seq<char>>,
    pub egress_to: Option<Seq<char>>,
    pub egress_bytes: Option<u64>,
}

pub open spec fn node_views(ns: Seq<RunNodeState>) -> Seq<NodeModel> {
    ns.map_values(|n: RunNodeState| n@)
}

impl View for RunStatus {
    type V = RunModel;

    open spec fn view(&self) -> RunModel {
        RunModel {
            id: self.id@,
            canvas: self.canvas@,
            target: self.target@,
            state: self.state,
            nodes: node_views(self.nodes@),
            total_tokens: self.total_tokens,
            elapsed_ms: self.elapsed_ms,
            error: string_opt(self.error),
            egress_to: string_opt(self.egress_to),
            egress_bytes: self.egress_bytes,
        }
    }
}

impl RunStatus {
    /// An equal status, owned separately.
    pub fn copied(&self) -> (r: RunStatus)
        ensures
            r@ == self@,
    {
        let mut nodes: Vec<RunNodeState> = Vec::new();
        let mut k: usize = 0;
        while k < self.nodes.len()
            invariant
                0 <= k <= self.nodes@.len(),
                nodes@.len() == k,
                node_views(nodes@) == node_views(self.nodes@).take(k as int),
            decreases self.nodes@.len() - k,
        {
            let ghost before = nodes@;
            nodes.push(self.nodes[k].copied());
            assert forall|j: int| 0 <= j <= k implies #[trigger] node_views(nodes@)[j] == node_views(
                self.nodes@,
            )[j] by {
                if j < k {
                    assert(nodes@[j] == before[j]);
                    assert(node_views(before)[j] == node_views(self.nodes@).take(k as int)[j]);
                }
            }
            assert(node_views(nodes@) =~= node_views(self.nodes@).take(k + 1));
            k = k + 1;
        }
        assert(node_views(self.nodes@).take(self.nodes@.len() as int) =~= node_views(self.nodes@));
        RunStatus {
            id: self.id.clone(),
            canvas: self.canvas.clone(),
            target: self.target.clone(),
            state: self.state,
            nodes,
            total_tokens: self.total_tokens,
            elapsed_ms: self.elapsed_ms,
            error: copy_opt(&self.error),
            egress_to: copy_opt(&self.egress_to),
            egress_bytes: self.egress_bytes,
        }
    }
}

/// A run just started: running, with no nodes, no cost and no error yet.
pub open spec fn fresh_run(id: Seq<char>, canvas: Seq<char>, target: Seq<char>) -> RunModel {
    RunModel {
        id,
        canvas,
        target,
        state: RunState::Running,
        nodes: seq![],
        total_tokens: 0,
        elapsed_ms: 0,
        error: None,
        egress_to: None,
        egress_bytes: None,
    }
}

/// No two runs share an id.
pub open spec fn ids_distinct(s: Seq<RunModel>) -> bool {
    forall|i: int, j: int| 0 <= i < j < s.len() ==> #[trigger] s[i].id != #[trigger] s[j].id
}

/// Where the run with this id is.
pub open spec fn position(s: Seq<RunModel>, id: Seq<char>) -> Option<int> {
    if exists|i: int| 0 <= i < s.len() && #[trigger] s[i].id == id {
        Some(choose|i: int| 0 <= i < s.len() && #[trigger] s[i].id == id)
    } else {
        None
    }
}

/// `r` recorded under its id: in place of the run that had it, else added.
pub open spec fn put(s: Seq<RunModel>, r: RunModel) -> Seq<RunModel> {
    match position(s, r.id) {
        Some(i) => s.update(i, r),
        None => s.push(r),
    }
}

/// The run with this id changed by `f`; nothing when there is none.
pub open spec fn on_run(s: Seq<RunModel>, id: Seq<char>, f: spec_fn(RunModel) -> RunModel) -> Seq<RunModel> {
    match position(s, id) {
        Some(i) => s.update(i, f(s[i])),
        None => s,
    }
}

pub open spec fn is_finished(r: RunModel) -> bool {
    r.state != RunState::Running
}

/// The finished run with the least id, scanning from the front and keeping
/// the first of any equals.
pub open spec fn least_finished(s: Seq<RunModel>) -> Option<int>
    decreases s.len(),
{
    if s.len() == 0 {
        None
    } else {
        let p = least_finished(s.drop_last());
        let l = s.len() - 1;
        if !is_finished(s[l]) {
            p
        } else {
            match p {
                None => Some(l),
                Some(i) => if lex_lt(s[l].id, s[i].id) {
                    Some(l)
                } else {
                    Some(i)
                },
            }
        }
    }
}

/// Up to `n` finished runs dropped, least id first; running ones are never
/// dropped.
pub open spec fn pruned(s: Seq<RunModel>, n: nat) -> Seq<RunModel>
    decreases n,
{
    if n == 0 {
        s
    } else {
        match least_finished(s) {
            None => s,
            Some(i) => pruned(s.remove(i), (n - 1) as nat),
        }
    }
}

/// What the registry keeps: all of it up to `KEEP` runs, and past that as
/// many of the finished runs dropped as bring it back to `KEEP`.
pub open spec fn kept(s: Seq<RunModel>) -> Seq<RunModel> {
    if s.len() <= KEEP {
        s
    } else {
        pruned(s, (s.len() - KEEP) as nat)
    }
}

/// Every run this process knows about: the runs in flight and the most
/// recent finished ones.
pub struct Runs {
    runs: Vec<RunStatus>,
}

impl View for Runs {
    type V = Seq<RunModel>;

    closed spec fn view(&self) -> Seq<RunModel> {
        self.runs@.map_values(|r: RunStatus| r@)
    }
}

impl Runs {
    /// A registry is well formed when no two runs share an id.
    pub open spec fn wf(&self) -> bool {
        ids_distinct(self@)
    }

    pub fn new() -> (r: Runs)
        ensures
            r.wf(),
            r@ == Seq::<RunModel>::empty(),
    {
        let r = Runs { runs: Vec::new() };
        assert(r@ =~= Seq::<RunModel>::empty());
        r
    }

    fn find(&self, id: &str) -> (r: Option<usize>)
        requires
            self.wf(),
        ensures
            match r {
                Some(i) => position(self@, id@) == Some(i as int) && i < self@.len(),
                None => position(self@, id@) is None,
            },
    {
        let ghost s = self@;
        let mut k: usize = 0;
        while k < self.runs.len()
            invariant
                0 <= k <= self.runs@.len(),
                s == self@,
                ids_distinct(s),
                s.len() == self.runs@.len(),
                forall|j: int| 0 <= j < k ==> #[trigger] s[j].id != id@,
            decreases self.runs@.len() - k,
        {
            assert(s[k as int] == self.runs@[k as int]@);
            if str_eq(self.runs[k].id.as_str(), id) {
                proof {
                    assert(s[k as int].id == id@);
                    let c = choose|i: int| 0 <= i < s.len() && #[trigger] s[i].id == id@;
                    if c < k as int {
                        assert(s[c].id != s[k as int].id);
                    } else if c > k as int {
                        assert(s[k as int].id != s[c].id);
                    }
                }
                return Some(k);
            }
            k = k + 1;
        }
        None
    }

    /// The run with this id, as it stands.
    pub fn get(&self, id: &str) -> (r: Option<RunStatus>)
        requires
            self.wf(),
        ensures
            match position(self@, id@) {
                Some(i) => r matches Some(st) && st@ == self@[i],
                None => r is None,
            },
    {
        match self.find(id) {
            Some(i) => {
                let st = self.runs[i].copied();
                assert(self@[i as int] == self.runs@[i as int]@);
                Some(st)
            },
            None => None,
        }
    }
}


/// The first node with this id.
pub open spec fn first_node(ns: Seq<NodeModel>, node: Seq<char>) -> Option<int> {
    if exists|k: int| 0 <= k < ns.len() && #[trigger] ns[k].id == node {
        Some(
            choose|k: int|
                0 <= k < ns.len() && #[trigger] ns[k].id == node && forall|j: int|
                    0 <= j < k ==> #[trigger] ns[j].id != node,
        )
    } else {
        None
    }
}

/// The first node with this id changed by `g`; nothing when there is none.
pub open spec fn on_node(r: RunModel, node: Seq<char>, g: spec_fn(NodeModel) -> NodeModel) -> RunModel {
    match first_node(r.nodes, node) {
        Some(k) => RunModel { nodes: r.nodes.update(k, g(r.nodes[k])), ..r },
        None => r,
    }
}

/// A node just started: running, with nothing streamed yet.
pub open spec fn fresh_node(node: Seq<char>, kind: Seq<char>) -> NodeModel {
    NodeModel {
        id: node,
        kind,
        running: true,
        output: seq![],
        tokens: None,
        tokens_per_sec_bits: None,
        elapsed_ms: None,
        peak_rss_bytes: None,
        proposed_to: None,
    }
}

pub open spec fn started(r: RunModel, node: Seq<char>, kind: Seq<char>) -> RunModel {
    RunModel { nodes: r.nodes.push(fresh_node(node, kind)), ..r }
}

pub open spec fn streamed(n: NodeModel, text: Seq<char>) -> NodeModel {
    NodeModel { output: n.output + text, ..n }
}

pub open spec fn node_done(n: NodeModel, output: Seq<char>, cost: Option<RunCost>) -> NodeModel {
    match cost {
        Some(c) => NodeModel {
            running: false,
            output,
            tokens: Some(c.tokens),
            tokens_per_sec_bits: Some(c.tokens_per_sec_bits),
            elapsed_ms: Some(c.elapsed_ms),
            peak_rss_bytes: Some(c.peak_rss_bytes),
            ..n
        },
        None => NodeModel { running: false, output, ..n },
    }
}

/// A node finished: its output final, its cost recorded, and the cost's
/// tokens added to the run's total.
pub open spec fn finished_node(r: RunModel, node: Seq<char>, output: Seq<char>, cost: Option<RunCost>) -> RunModel {
    match first_node(r.nodes, node) {
        Some(k) => RunModel {
            nodes: r.nodes.update(k, node_done(r.nodes[k], output, cost)),
            total_tokens: match cost {
                Some(c) => (r.total_tokens + c.tokens) as u64,
                None => r.total_tokens,
            },
            ..r
        },
        None => r,
    }
}

/// Whether finishing this node keeps the run's token total in range.
pub open spec fn tokens_fit(s: Seq<RunModel>, id: Seq<char>, node: Seq<char>, cost: Option<RunCost>) -> bool {
    match (position(s, id), cost) {
        (Some(i), Some(c)) => first_node(s[i].nodes, node) is Some ==> s[i].total_tokens + c.tokens
            <= u64::MAX,
        _ => true,
    }
}

pub open spec fn egressed(r: RunModel, destination: Seq<char>, bytes: u64) -> RunModel {
    RunModel {
        egress_to: Some(destination),
        egress_bytes: Some(
            (match r.egress_bytes {
                Some(b) => b + bytes,
                None => bytes as int,
            }) as u64,
        ),
        ..r
    }
}

/// Whether recording this egress keeps the run's byte count in range.
pub open spec fn bytes_fit(s: Seq<RunModel>, id: Seq<char>, bytes: u64) -> bool {
    match position(s, id) {
        Some(i) => match s[i].egress_bytes {
            Some(b) => b + bytes <= u64::MAX,
            None => true,
        },
        None => true,
    }
}

pub open spec fn stopped(n: NodeModel) -> NodeModel {
    NodeModel { running: false, ..n }
}

/// A run finished: in `state` unless it was cancelled, which it stays, with
/// the error and the time recorded and no node left running.
pub open spec fn finished_run(r: RunModel, state: RunState, error: Option<Seq<char>>, elapsed_ms: u128) -> RunModel {
    RunModel {
        state: if r.state == RunState::Cancelled {
            RunState::Cancelled
        } else {
            state
        },
        error,
        elapsed_ms,
        nodes: r.nodes.map_values(|n: NodeModel| stopped(n)),
        ..r
    }
}

pub open spec fn cancelled(r: RunModel) -> RunModel {
    RunModel { state: RunState::Cancelled, ..r }
}

pub open spec fn proposed(n: NodeModel, path: Seq<char>) -> NodeModel {
    NodeModel { proposed_to: Some(path), ..n }
}

fn find_node(ns: &Vec<RunNodeState>, node: &str) -> (r: Option<usize>)
    ensures
        match r {
            Some(k) => first_node(node_views(ns@), node@) == Some(k as int) && k < ns@.len(),
            None => first_node(node_views(ns@), node@) is None,
        },
{
    let ghost v = node_views(ns@);
    let mut k: usize = 0;
    while k < ns.len()
        invariant
            0 <= k <= ns@.len(),
            v == node_views(ns@),
            v.len() == ns@.len(),
            forall|j: int| 0 <= j < k ==> #[trigger] v[j].id != node@,
        decreases ns@.len() - k,
    {
        assert(v[k as int] == ns@[k as int]@);
        if str_eq(ns[k].id.as_str(), node) {
            proof {
                let kk = k as int;
                assert(0 <= kk < v.len() && v[kk].id == node@ && forall|j: int| 0 <= j < kk ==> #[trigger] v[j].id != node@);
                let c = choose|c: int|
                    0 <= c < v.len() && #[trigger] v[c].id == node@ && forall|j: int|
                        0 <= j < c ==> #[trigger] v[j].id != node@;
                if c > kk {
                    assert(v[kk].id != node@);
                }
            }
            return Some(k);
        }
        k = k + 1;
    }
    None
}

impl Runs {
    /// Takes the status at `i` out; `put_back` returns it.
    fn take(&mut self, i: usize) -> (st: RunStatus)
        requires
            i < old(self)@.len(),
        ensures
            st@ == old(self)@[i as int],
            final(self).runs@ == old(self).runs@.remove(i as int),
    {
        proof {
            assert(old(self)@[i as int] == old(self).runs@[i as int]@);
        }
        self.runs.remove(i)
    }

    fn put_back(&mut self, i: usize, st: RunStatus, Ghost(before): Ghost<Seq<RunStatus>>)
        requires
            i < before.len(),
            old(self).runs@ == before.remove(i as int),
        ensures
            final(self)@ == before.map_values(|r: RunStatus| r@).update(i as int, st@),
    {
        let ghost sv = st@;
        self.runs.insert(i, st);
        assert(self.runs@ =~= before.update(i as int, self.runs@[i as int]));
        assert(self@ =~= before.map_values(|r: RunStatus| r@).update(i as int, sv));
    }
}

impl Runs {
    /// Marks a run cancelled; false when there is no such run.
    pub fn cancel(&mut self, id: &str) -> (found: bool)
        requires
            old(self).wf(),
        ensures
            final(self).wf(),
            found == (position(old(self)@, id@) is Some),
            final(self)@ == on_run(old(self)@, id@, |r: RunModel| cancelled(r)),
    {
        match self.find(id) {
            Some(i) => {
                let ghost before = self.runs@;
                let ghost s = self@;
                let mut st = self.take(i);
                st.state = RunState::Cancelled;
                self.put_back(i, st, Ghost(before));
                proof {
                    assert(before.map_values(|r: RunStatus| r@) =~= s);
                    assert(self@ =~= s.update(i as int, cancelled(s[i as int])));
                    lemma_update_keeps_ids(s, i as int, cancelled(s[i as int]));
                }
                true
            },
            None => false,
        }
    }

    /// Adds a node to a run, running and with nothing streamed yet.
    pub fn node_started(&mut self, id: &str, node: &str, kind: &str)
        requires
            old(self).wf(),
        ensures
            final(self).wf(),
            final(self)@ == on_run(old(self)@, id@, |r: RunModel| started(r, node@, kind@)),
    {
        if let Some(i) = self.find(id) {
            let ghost before = self.runs@;
            let ghost s = self@;
            let mut st = self.take(i);
            let ghost old_nodes = node_views(st.nodes@);
            st.nodes.push(
                RunNodeState {
                    id: own(node),
                    kind: own(kind),
                    running: true,
                    output: String::new(),
                    tokens: None,
                    tokens_per_sec_bits: None,
                    elapsed_ms: None,
                    peak_rss_bytes: None,
                    proposed_to: None,
                },
            );
            proof {
                assert(node_views(st.nodes@) =~= old_nodes.push(fresh_node(node@, kind@)));
            }
            self.put_back(i, st, Ghost(before));
            proof {
                assert(before.map_values(|r: RunStatus| r@) =~= s);
                assert(self@ =~= s.update(i as int, started(s[i as int], node@, kind@)));
                lemma_update_keeps_ids(s, i as int, started(s[i as int], node@, kind@));
            }
        }
    }

    /// Appends streamed text to a node's output.
    pub fn token(&mut self, id: &str, node: &str, text: &str)
        requires
            old(self).wf(),
        ensures
            final(self).wf(),
            final(self)@ == on_run(
                old(self)@,
                id@,
                |r: RunModel| on_node(r, node@, |n: NodeModel| streamed(n, text@)),
            ),
    {
        if let Some(i) = self.find(id) {
            let ghost before = self.runs@;
            let ghost s = self@;
            let mut st = self.take(i);
            let ghost r0 = st@;
            if let Some(k) = find_node(&st.nodes, node) {
                let ghost nodes0 = st.nodes@;
                let mut n = st.nodes.remove(k);
                push_chars(&mut n.output, text);
                let ghost nv = n@;
                st.nodes.insert(k, n);
                proof {
                    assert(nodes0[k as int]@ == r0.nodes[k as int]);
                    assert(nv == streamed(r0.nodes[k as int], text@));
                    assert(st.nodes@ =~= nodes0.update(k as int, st.nodes@[k as int]));
                    assert(node_views(st.nodes@) =~= r0.nodes.update(k as int, nv));
                }
            }
            assert(st@ == on_node(r0, node@, |n: NodeModel| streamed(n, text@)));
            self.put_back(i, st, Ghost(before));
            proof {
                let f = |r: RunModel| on_node(r, node@, |n: NodeModel| streamed(n, text@));
                assert(before.map_values(|r: RunStatus| r@) =~= s);
                assert(self@ =~= s.update(i as int, f(s[i as int])));
                lemma_update_keeps_ids(s, i as int, f(s[i as int]));
            }
        }
    }

    /// A node finished: its output final, its cost recorded and counted.
    #[verifier::rlimit(80)]
    #[verifier::spinoff_prover]
    pub fn node_finished(&mut self, id: &str, node: &str, output: &str, cost: Option<RunCost>)
        requires
            old(self).wf(),
            tokens_fit(old(self)@, id@, node@, cost),
        ensures
            final(self).wf(),
            final(self)@ == on_run(
                old(self)@,
                id@,
                |r: RunModel| finished_node(r, node@, output@, cost),
            ),
    {
        if let Some(i) = self.find(id) {
            let ghost before = self.runs@;
            let ghost s = self@;
            let mut st = self.take(i);
            let ghost r0 = st@;
            if let Some(k) = find_node(&st.nodes, node) {
                let ghost nodes0 = st.nodes@;
                let mut n = st.nodes.remove(k);
                n.running = false;
                n.output = own(output);
                if let Some(c) = cost {
                    n.tokens = Some(c.tokens);
                    n.tokens_per_sec_bits = Some(c.tokens_per_sec_bits);
                    n.elapsed_ms = Some(c.elapsed_ms);
                    n.peak_rss_bytes = Some(c.peak_rss_bytes);
                    st.total_tokens = st.total_tokens + c.tokens;
                }
                let ghost nv = n@;
                st.nodes.insert(k, n);
                proof {
                    assert(nodes0[k as int]@ == r0.nodes[k as int]);
                    assert(nv == node_done(r0.nodes[k as int], output@, cost));
                    assert(st.nodes@ =~= nodes0.update(k as int, st.nodes@[k as int]));
                    assert(node_views(st.nodes@) =~= r0.nodes.update(k as int, nv));
                }
            }
            assert(st@ == finished_node(r0, node@, output@, cost));
            self.put_back(i, st, Ghost(before));
            proof {
                let f = |r: RunModel| finished_node(r, node@, output@, cost);
                assert(before.map_values(|r: RunStatus| r@) =~= s);
                assert(self@ =~= s.update(i as int, f(s[i as int])));
                lemma_update_keeps_ids(s, i as int, f(s[i as int]));
            }
        }
    }

    /// Raises the in-flight egress indicator: where content is going, and
    /// the bytes sent so far. Called after the ledger entry is written and
    /// before any byte leaves.
    pub fn egress(&mut self, id: &str, destination: &str, bytes: u64)
        requires
            old(self).wf(),
            bytes_fit(old(self)@, id@, bytes),
        ensures
            final(self).wf(),
            final(self)@ == on_run(old(self)@, id@, |r: RunModel| egressed(r, destination@, bytes)),
    {
        if let Some(i) = self.find(id) {
            let ghost before = self.runs@;
            let ghost s = self@;
            let mut st = self.take(i);
            let sent: u64 = match st.egress_bytes {
                Some(b) => b,
                None => 0,
            };
            st.egress_to = Some(own(destination));
            st.egress_bytes = Some(sent + bytes);
            self.put_back(i, st, Ghost(before));
            proof {
                assert(before.map_values(|r: RunStatus| r@) =~= s);
                assert(self@ =~= s.update(i as int, egressed(s[i as int], destination@, bytes)));
                lemma_update_keeps_ids(s, i as int, egressed(s[i as int], destination@, bytes));
            }
        }
    }

    /// Ends a run: its state (a cancelled run stays cancelled, so the error
    /// the cancellation caused does not overwrite why it stopped), its error
    /// and its time, with no node left running.
    pub fn finish(&mut self, id: &str, state: RunState, error: Option<String>, elapsed_ms: u128)
        requires
            old(self).wf(),
        ensures
            final(self).wf(),
            final(self)@ == on_run(
                old(self)@,
                id@,
                |r: RunModel| finished_run(r, state, string_opt(error), elapsed_ms),
            ),
    {
        if let Some(i) = self.find(id) {
            let ghost before = self.runs@;
            let ghost s = self@;
            let mut st = self.take(i);
            let ghost r0 = st@;
            if st.state != RunState::Cancelled {
                st.state = state;
            }
            st.error = error;
            st.elapsed_ms = elapsed_ms;
            let mut ns: Vec<RunNodeState> = Vec::new();
            std::mem::swap(&mut ns, &mut st.nodes);
            let mut k: usize = 0;
            while k < ns.len()
                invariant
                    0 <= k <= ns@.len(),
                    ns@.len() == r0.nodes.len(),
                    forall|j: int| 0 <= j < k ==> #[trigger] node_views(ns@)[j] == stopped(r0.nodes[j]),
                    forall|j: int| k <= j < ns@.len() ==> #[trigger] node_views(ns@)[j] == r0.nodes[j],
                decreases ns@.len() - k,
            {
                let ghost nodes0 = ns@;
                let mut n = ns.remove(k);
                n.running = false;
                ns.insert(k, n);
                proof {
                    assert forall|j: int| 0 <= j < ns@.len() && j != k implies ns@[j] == nodes0[j] by {
                    }
                    assert forall|j: int| 0 <= j <= k implies #[trigger] node_views(ns@)[j] == stopped(
                        r0.nodes[j],
                    ) by {
                        if j < k {
                            assert(node_views(nodes0)[j] == stopped(r0.nodes[j]));
                        } else {
                            assert(node_views(nodes0)[j] == r0.nodes[j]);
                        }
                    }
                    assert forall|j: int| k < j < ns@.len() implies #[trigger] node_views(ns@)[j]
                        == r0.nodes[j] by {
                        assert(node_views(nodes0)[j] == r0.nodes[j]);
                    }
                }
                k = k + 1;
            }
            proof {
                assert(node_views(ns@) =~= r0.nodes.map_values(|n: NodeModel| stopped(n)));
            }
            st.nodes = ns;
            assert(st@ == finished_run(r0, state, string_opt(error), elapsed_ms));
            self.put_back(i, st, Ghost(before));
            proof {
                let f = |r: RunModel| finished_run(r, state, string_opt(error), elapsed_ms);
                assert(before.map_values(|r: RunStatus| r@) =~= s);
                assert(self@ =~= s.update(i as int, f(s[i as int])));
                lemma_update_keeps_ids(s, i as int, f(s[i as int]));
            }
        }
    }

    /// Records where a node's result was proposed.
    #[verifier::rlimit(40)]
    pub fn set_proposed(&mut self, id: &str, node: &str, path: &str)
        requires
            old(self).wf(),
        ensures
            final(self).wf(),
            final(self)@ == on_run(
                old(self)@,
                id@,
                |r: RunModel| on_node(r, node@, |n: NodeModel| proposed(n, path@)),
            ),
    {
        if let Some(i) = self.find(id) {
            let ghost before = self.runs@;
            let ghost s = self@;
            let mut st = self.take(i);
            let ghost r0 = st@;
            if let Some(k) = find_node(&st.nodes, node) {
                let ghost nodes0 = st.nodes@;
                let mut n = st.nodes.remove(k);
                n.proposed_to = Some(own(path));
                let ghost nv = n@;
                st.nodes.insert(k, n);
                proof {
                    assert(nodes0[k as int]@ == r0.nodes[k as int]);
                    assert(nv == proposed(r0.nodes[k as int], path@));
                    assert(st.nodes@ =~= nodes0.update(k as int, st.nodes@[k as int]));
                    assert(node_views(st.nodes@) =~= r0.nodes.update(k as int, nv));
                }
            }
            assert(st@ == on_node(r0, node@, |n: NodeModel| proposed(n, path@)));
            self.put_back(i, st, Ghost(before));
            proof {
                let f = |r: RunModel| on_node(r, node@, |n: NodeModel| proposed(n, path@));
                assert(before.map_values(|r: RunStatus| r@) =~= s);
                assert(self@ =~= s.update(i as int, f(s[i as int])));
                lemma_update_keeps_ids(s, i as int, f(s[i as int]));
            }
        }
    }
}

/// Changing a run without changing its id keeps the ids distinct.
proof fn lemma_update_keeps_ids(s: Seq<RunModel>, i: int, r: RunModel)
    requires
        ids_distinct(s),
        0 <= i < s.len(),
        r.id == s[i].id,
    ensures
        ids_distinct(s.update(i, r)),
{
    let t = s.update(i, r);
    assert forall|a: int, b: int| 0 <= a < b < t.len() implies #[trigger] t[a].id != #[trigger] t[b].id by {
        assert(t[a].id == s[a].id);
        assert(t[b].id == s[b].id);
    }
}


pub open spec fn status_views(v: Seq<RunStatus>) -> Seq<RunModel> {
    v.map_values(|r: RunStatus| r@)
}

/// Ordered by id, each strictly before the next.
pub open spec fn ordered_by_id(s: Seq<RunModel>) -> bool {
    forall|i: int, j: int| 0 <= i < j < s.len() ==> lex_lt(#[trigger] s[i].id, #[trigger] s[j].id)
}

impl Runs {
    fn least_finished_index(&self) -> (r: Option<usize>)
        ensures
            match r {
                Some(i) => least_finished(self@) == Some(i as int) && i < self@.len(),
                None => least_finished(self@) is None,
            },
    {
        let ghost s = self@;
        let mut best: Option<usize> = None;
        let mut best_key: Vec<char> = Vec::new();
        let mut k: usize = 0;
        assert(s.take(0) =~= Seq::<RunModel>::empty());
        while k < self.runs.len()
            invariant
                0 <= k <= self.runs@.len(),
                s == self@,
                s.len() == self.runs@.len(),
                match best {
                    Some(b) => least_finished(s.take(k as int)) == Some(b as int) && b < k && best_key@
                        == s[b as int].id,
                    None => least_finished(s.take(k as int)) is None,
                },
            decreases self.runs@.len() - k,
        {
            proof {
                assert(s.take(k + 1).drop_last() =~= s.take(k as int));
                assert(s.take(k + 1)[k as int] == s[k as int]);
                if let Some(b) = best {
                    assert(s.take(k + 1)[b as int] == s[b as int]);
                }
            }
            assert(s[k as int] == self.runs@[k as int]@);
            if self.runs[k].state != RunState::Running {
                let key = chars_of(self.runs[k].id.as_str());
                match best {
                    None => {
                        best = Some(k);
                        best_key = key;
                    },
                    Some(b) => {
                        if lex_less(key.as_slice(), best_key.as_slice()) {
                            best = Some(k);
                            best_key = key;
                        }
                    },
                }
            }
            k = k + 1;
        }
        assert(s.take(s.len() as int) =~= s);
        best
    }

    /// Drops the oldest finished runs past `KEEP`: a canvas session can start
    /// many runs, and none of them are worth keeping forever.
    fn prune(&mut self)
        requires
            old(self).wf(),
        ensures
            final(self).wf(),
            final(self)@ == kept(old(self)@),
    {
        if self.runs.len() <= KEEP {
            return;
        }
        let excess = self.runs.len() - KEEP;
        let ghost target = pruned(self@, excess as nat);
        assert(target == kept(old(self)@));
        let mut k: usize = 0;
        while k < excess
            invariant
                0 <= k <= excess,
                self.wf(),
                pruned(self@, (excess - k) as nat) == target,
                target == kept(old(self)@),
            decreases excess - k,
        {
            match self.least_finished_index() {
                None => {
                    assert(pruned(self@, (excess - k) as nat) == self@);
                    return;
                },
                Some(i) => {
                    let ghost before = self@;
                    let ghost rs = self.runs@;
                    self.runs.remove(i);
                    proof {
                        assert(self@ =~= before.remove(i as int)) by {
                            assert(self.runs@ =~= rs.remove(i as int));
                        }
                        let t = before.remove(i as int);
                        assert forall|a: int, b: int| 0 <= a < b < t.len() implies #[trigger] t[a].id
                            != #[trigger] t[b].id by {
                            let a0 = if a < i { a } else { a + 1 };
                            let b0 = if b < i { b } else { b + 1 };
                            assert(t[a] == before[a0] && t[b] == before[b0]);
                        }
                    }
                },
            }
            k = k + 1;
        }
    }

    /// Starts a run: recorded as running under its id (in place of any
    /// earlier run with that id), then the oldest finished runs past `KEEP`
    /// dropped.
    pub fn start(&mut self, id: &str, canvas: &str, target: &str)
        requires
            old(self).wf(),
        ensures
            final(self).wf(),
            final(self)@ == kept(put(old(self)@, fresh_run(id@, canvas@, target@))),
    {
        let st = RunStatus {
            id: own(id),
            canvas: own(canvas),
            target: own(target),
            state: RunState::Running,
            nodes: Vec::new(),
            total_tokens: 0,
            elapsed_ms: 0,
            error: None,
            egress_to: None,
            egress_bytes: None,
        };
        let ghost fresh = fresh_run(id@, canvas@, target@);
        assert(st@ =~= fresh);
        let ghost s = self@;
        match self.find(id) {
            Some(i) => {
                let ghost before = self.runs@;
                let _ = self.take(i);
                self.put_back(i, st, Ghost(before));
                proof {
                    assert(before.map_values(|r: RunStatus| r@) =~= s);
                    assert(self@ =~= s.update(i as int, fresh));
                    lemma_update_keeps_ids(s, i as int, fresh);
                }
            },
            None => {
                let ghost rs = self.runs@;
                self.runs.push(st);
                proof {
                    assert(self@ =~= s.push(fresh)) by {
                        assert(self.runs@ =~= rs.push(self.runs@[rs.len() as int]));
                    }
                    let t = s.push(fresh);
                    assert forall|a: int, b: int| 0 <= a < b < t.len() implies #[trigger] t[a].id
                        != #[trigger] t[b].id by {
                        if b == s.len() {
                            assert(t[a] == s[a]);
                        }
                    }
                }
            },
        }
        self.prune();
    }

    /// Every run, ordered by id, which is the order they started in.
    pub fn list(&self) -> (r: Vec<RunStatus>)
        requires
            self.wf(),
        ensures
            status_views(r@).to_multiset() == self@.to_multiset(),
            ordered_by_id(status_views(r@)),
    {
        let ghost s = self@;
        let mut out: Vec<RunStatus> = Vec::new();
        let mut keys: Vec<Vec<char>> = Vec::new();
        let mut k: usize = 0;
        assert(s.take(0) =~= Seq::<RunModel>::empty());
        assert(status_views(out@) =~= Seq::<RunModel>::empty());
        while k < self.runs.len()
            invariant
                0 <= k <= self.runs@.len(),
                s == self@,
                ids_distinct(s),
                s.len() == self.runs@.len(),
                out@.len() == keys@.len(),
                forall|j: int| 0 <= j < keys@.len() ==> #[trigger] keys@[j]@ == status_views(out@)[j].id,
                ordered_by_id(status_views(out@)),
                status_views(out@).to_multiset() == s.take(k as int).to_multiset(),
            decreases self.runs@.len() - k,
        {
            let c = self.runs[k].copied();
            assert(c@ == s[k as int]);
            let key = chars_of(c.id.as_str());
            let ghost kv = key@;
            assert(kv == s[k as int].id);
            let ghost before = status_views(out@);
            proof {
                assert(before.to_multiset() == s.take(k as int).to_multiset());
                assert forall|j: int| 0 <= j < before.len() implies #[trigger] before[j].id != kv by {
                    assert(before.contains(before[j]));
                    vstd::seq_lib::to_multiset_contains(before, before[j]);
                    vstd::seq_lib::to_multiset_contains(s.take(k as int), before[j]);
                    assert(s.take(k as int).contains(before[j]));
                    let m = choose|m: int| 0 <= m < k && s.take(k as int)[m] == before[j];
                    assert(s[m] == before[j]);
                    assert(s[m].id != s[k as int].id);
                }
            }
            let mut p: usize = 0;
            while p < out.len() && lex_less(keys[p].as_slice(), key.as_slice())
                invariant
                    0 <= p <= out@.len(),
                    out@.len() == keys@.len(),
                    before == status_views(out@),
                    forall|j: int| 0 <= j < keys@.len() ==> #[trigger] keys@[j]@ == status_views(out@)[j].id,
                    forall|j: int| 0 <= j < p ==> lex_lt(#[trigger] before[j].id, kv),
                    kv == key@,
                decreases out@.len() - p,
            {
                p = p + 1;
            }
            proof {
                if p < out@.len() {
                    assert(!lex_lt(before[p as int].id, kv));
                    crate::listing::lemma_lex_total(before[p as int].id, kv);
                    assert(lex_lt(kv, before[p as int].id));
                    assert forall|j: int| p < j < before.len() implies lex_lt(kv, #[trigger] before[j].id) by {
                        crate::listing::lemma_lex_transitive(kv, before[p as int].id, before[j].id);
                    }
                }
            }
            let ghost cv = c@;
            let ghost outs = out@;
            out.insert(p, c);
            keys.insert(p, key);
            proof {
                assert(status_views(out@) =~= before.insert(p as int, cv)) by {
                    assert(out@ =~= outs.insert(p as int, out@[p as int]));
                }
                let t = status_views(out@);
                assert forall|a: int, b: int| 0 <= a < b < t.len() implies lex_lt(#[trigger] t[a].id, #[trigger] t[b].id) by {
                    if b < p as int {
                        assert(t[a] == before[a] && t[b] == before[b]);
                    } else if b == p as int {
                        assert(t[a] == before[a]);
                    } else if a < p as int {
                        assert(t[a] == before[a] && t[b] == before[b - 1]);
                        crate::listing::lemma_lex_transitive(before[a].id, kv, before[b - 1].id);
                    } else if a == p as int {
                        assert(t[b] == before[b - 1]);
                    } else {
                        assert(t[a] == before[a - 1] && t[b] == before[b - 1]);
                    }
                }
                assert forall|j: int| 0 <= j < keys@.len() implies #[trigger] keys@[j]@ == status_views(out@)[j].id by {
                    if j < p as int {
                        assert(t[j] == before[j]);
                    } else if j > p as int {
                        assert(t[j] == before[j - 1]);
                    }
                }
                assert(s.take(k + 1) =~= s.take(k as int).insert(k as int, s[k as int]));
                vstd::seq_lib::to_multiset_insert(s.take(k as int), k as int, s[k as int]);
                vstd::seq_lib::to_multiset_insert(before, p as int, cv);
            }
            k = k + 1;
        }
        assert(s.take(s.len() as int) =~= s);
        out
    }
}


/// Pruning drops the oldest finished runs first: of all the finished runs,
/// the one the registry drops next has the least id, and ids start with the
/// time the run started. With nothing finished, nothing is dropped.
pub proof fn law_pruning_drops_the_oldest_finished_run_first(s: Seq<RunModel>)
    ensures
        match least_finished(s) {
            Some(i) => 0 <= i < s.len() && is_finished(s[i]) && forall|j: int|
                0 <= j < s.len() && is_finished(#[trigger] s[j]) ==> s[i].id == s[j].id || lex_lt(
                    s[i].id,
                    s[j].id,
                ),
            None => forall|j: int| 0 <= j < s.len() ==> !is_finished(#[trigger] s[j]),
        },
    decreases s.len(),
{
    if s.len() > 0 {
        let d = s.drop_last();
        let l = s.len() - 1;
        law_pruning_drops_the_oldest_finished_run_first(d);
        assert forall|j: int| 0 <= j < l implies #[trigger] s[j] == d[j] by {}
        match least_finished(d) {
            Some(i) => {
                if is_finished(s[l]) && lex_lt(s[l].id, s[i].id) {
                    assert forall|j: int| 0 <= j < s.len() && is_finished(#[trigger] s[j]) implies s[l].id
                        == s[j].id || lex_lt(s[l].id, s[j].id) by {
                        if j < l {
                            assert(is_finished(d[j]));
                            if s[i].id != s[j].id {
                                crate::listing::lemma_lex_transitive(s[l].id, s[i].id, s[j].id);
                            }
                        }
                    }
                } else if is_finished(s[l]) {
                    crate::listing::lemma_lex_total(s[i].id, s[l].id);
                    assert forall|j: int| 0 <= j < s.len() && is_finished(#[trigger] s[j]) implies s[i].id
                        == s[j].id || lex_lt(s[i].id, s[j].id) by {
                        if j < l {
                            assert(is_finished(d[j]));
                        }
                    }
                } else {
                    assert forall|j: int| 0 <= j < s.len() && is_finished(#[trigger] s[j]) implies s[i].id
                        == s[j].id || lex_lt(s[i].id, s[j].id) by {
                        if j < l {
                            assert(is_finished(d[j]));
                        }
                    }
                }
            },
            None => {
                assert forall|j: int| 0 <= j < l implies !is_finished(#[trigger] s[j]) by {
                    assert(!is_finished(d[j]));
                }
            },
        }
    }
}

/// Pruning never drops a run that is still running, and it stops either
/// having dropped `n` runs or with nothing finished left to drop.
pub proof fn law_pruning_keeps_every_running_run(s: Seq<RunModel>, n: nat)
    ensures
        forall|i: int| 0 <= i < s.len() && !is_finished(#[trigger] s[i]) ==> pruned(s, n).contains(s[i]),
        pruned(s, n).len() + n == s.len() || forall|j: int|
            0 <= j < pruned(s, n).len() ==> !is_finished(#[trigger] pruned(s, n)[j]),
    decreases n,
{
    if n > 0 {
        law_pruning_drops_the_oldest_finished_run_first(s);
        if let Some(i) = least_finished(s) {
            let t = s.remove(i);
            law_pruning_keeps_every_running_run(t, (n - 1) as nat);
            assert forall|k: int| 0 <= k < s.len() && !is_finished(#[trigger] s[k]) implies pruned(s, n).contains(s[k]) by {
                let k2 = if k < i { k } else { k - 1 };
                assert(k != i);
                assert(t[k2] == s[k]);
            }
        }
    }
}

/// The registry comes back to `KEEP` runs whenever enough of them have
/// finished: after a start, it holds at most `KEEP`, or only runs still
/// running past those, and every run that was running is still there.
pub proof fn law_the_registry_keeps_running_runs_and_at_most_keep_finished(s: Seq<RunModel>)
    ensures
        kept(s).len() <= KEEP || forall|j: int| 0 <= j < kept(s).len() ==> !is_finished(#[trigger] kept(s)[j]),
        forall|i: int| 0 <= i < s.len() && !is_finished(#[trigger] s[i]) ==> kept(s).contains(s[i]),
{
    if s.len() > KEEP {
        law_pruning_keeps_every_running_run(s, (s.len() - KEEP) as nat);
    } else {
        assert forall|i: int| 0 <= i < s.len() && !is_finished(#[trigger] s[i]) implies kept(s).contains(s[i]) by {
            assert(s[i] == kept(s)[i]);
        }
    }
}

/// Where a run is does not move when it changes without changing its id.
proof fn lemma_position_after_update(s: Seq<RunModel>, i: int, r: RunModel)
    requires
        ids_distinct(s),
        position(s, s[i].id) == Some(i),
        0 <= i < s.len(),
        r.id == s[i].id,
    ensures
        position(s.update(i, r), r.id) == Some(i),
{
    let t = s.update(i, r);
    assert(t[i].id == r.id);
    let c = choose|c: int| 0 <= c < t.len() && #[trigger] t[c].id == r.id;
    if c != i {
        assert(t[c] == s[c]);
        if c < i {
            assert(s[c].id != s[i].id);
        } else {
            assert(s[i].id != s[c].id);
        }
    }
}

/// A cancelled run stays cancelled: whatever state a run is finished with
/// after it was cancelled, including the failure the cancellation caused, it
/// reads back as cancelled.
pub proof fn law_a_cancelled_run_is_not_relabelled(
    s: Seq<RunModel>,
    id: Seq<char>,
    state: RunState,
    error: Option<Seq<char>>,
    elapsed_ms: u128,
)
    requires
        ids_distinct(s),
        position(s, id) is Some,
    ensures
        ({
            let c = on_run(s, id, |r: RunModel| cancelled(r));
            let f = on_run(c, id, |r: RunModel| finished_run(r, state, error, elapsed_ms));
            &&& position(f, id) == position(s, id)
            &&& f[position(s, id)->0].state == RunState::Cancelled
        }),
{
    let i = position(s, id)->0;
    assert(s[i].id == id);
    let c = on_run(s, id, |r: RunModel| cancelled(r));
    assert(c == s.update(i, cancelled(s[i])));
    lemma_position_after_update(s, i, cancelled(s[i]));
    lemma_update_keeps_ids(s, i, cancelled(s[i]));
    let f = on_run(c, id, |r: RunModel| finished_run(r, state, error, elapsed_ms));
    assert(f == c.update(i, finished_run(c[i], state, error, elapsed_ms)));
    lemma_position_after_update(c, i, finished_run(c[i], state, error, elapsed_ms));
}


/// Why a run cannot start, known before anything runs: a cycle on the
/// canvas, or a target that is not one of its runnable nodes. `cycle` and
/// `runnable` are what the pipeline's graph reports for the canvas.
pub fn run_precheck(cycle: &Vec<String>, runnable: &Vec<String>, target: &str) -> (r: Result<(), ApiError>)
    ensures
        cycle@.len() > 0 ==> (r matches Err(e) && e.code == ErrorCode::Config && e.message@
            == "this canvas has a cycle: "@ + joined(string_views(cycle@), ", "@)),
        cycle@.len() == 0 && !is_runnable(runnable@, target@) ==> (r matches Err(e) && e.code
            == ErrorCode::NoteNotFound && e.message@ == "no runnable node "@ + target@
            + " on this canvas"@),
        cycle@.len() == 0 && is_runnable(runnable@, target@) ==> r is Ok,
{
    if cycle.len() > 0 {
        let mut names = String::new();
        join_into(&mut names, cycle, ", ");
        let mut m = own("this canvas has a cycle: ");
        push_chars(&mut m, names.as_str());
        return Err(ApiError::new(ErrorCode::Config, m.as_str()));
    }
    let mut i: usize = 0;
    while i < runnable.len()
        invariant
            0 <= i <= runnable@.len(),
            cycle@.len() == 0,
            forall|j: int| 0 <= j < i ==> #[trigger] runnable@[j]@ != target@,
        decreases runnable@.len() - i,
    {
        if str_eq(runnable[i].as_str(), target) {
            return Ok(());
        }
        i = i + 1;
    }
    let mut m = own("no runnable node ");
    push_chars(&mut m, target);
    push_chars(&mut m, " on this canvas");
    Err(ApiError::new(ErrorCode::NoteNotFound, m.as_str()))
}

/// `target` is one of the runnable nodes.
pub open spec fn is_runnable(runnable: Seq<String>, target: Seq<char>) -> bool {
    exists|j: int| 0 <= j < runnable.len() && #[trigger] runnable[j]@ == target
}

/// The state a run that stopped with an error ends in: waiting for approval
/// when the runtime says it needs approval, which is a decision waiting on a
/// person and not a failure; cancelled when it says it was cancelled; failed
/// otherwise.
pub fn failure_state(message: &str) -> (r: RunState)
    ensures
        r == (if contains_seq(message@, "needs approval"@) {
            RunState::NeedsEgressApproval
        } else if contains_seq(message@, "cancelled"@) {
            RunState::Cancelled
        } else {
            RunState::Failed
        }),
{
    let t = chars_of(message);
    if has(t.as_slice(), "needs approval") {
        RunState::NeedsEgressApproval
    } else if has(t.as_slice(), "cancelled") {
        RunState::Cancelled
    } else {
        RunState::Failed
    }
}

/// What a poll for an unknown run is answered.
pub fn no_run(id: &str) -> (r: ApiError)
    ensures
        r.code == ErrorCode::NoteNotFound,
        r.message@ == "no run "@ + id@,
{
    let mut m = own("no run ");
    push_chars(&mut m, id);
    ApiError::new(ErrorCode::NoteNotFound, m.as_str())
}

/// A run's status for a surface that polls it, or that there is no such run.
pub fn run_status(runs: &Runs, id: &str) -> (r: Result<RunStatus, ApiError>)
    requires
        runs.wf(),
    ensures
        match position(runs@, id@) {
            Some(i) => r matches Ok(st) && st@ == runs@[i],
            None => r matches Err(e) && e.code == ErrorCode::NoteNotFound && e.message@ == "no run "@ + id@,
        },
{
    match runs.get(id) {
        Some(st) => Ok(st),
        None => Err(no_run(id)),
    }
}

/// Cancels a run, or says there is no such run.
pub fn cancel_run(runs: &mut Runs, id: &str) -> (r: Result<(), ApiError>)
    requires
        old(runs).wf(),
    ensures
        final(runs).wf(),
        final(runs)@ == on_run(old(runs)@, id@, |r: RunModel| cancelled(r)),
        position(old(runs)@, id@) is Some <==> r is Ok,
        r matches Err(e) ==> e.code == ErrorCode::NoteNotFound && e.message@ == "no run "@ + id@,
{
    if runs.cancel(id) {
        Ok(())
    } else {
        Err(no_run(id))
    }
}


} // verus!
