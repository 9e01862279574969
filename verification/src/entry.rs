//! What a ledger entry is: who changed a note, when, what kind of change,
//! why, and the content hashes needed to prove it and to put it back.
use vstd::prelude::*;
use crate::calendar::{civil, civil_from_days, div_euclid};
use crate::text::{own, string_of};

verus! {

#[derive(Debug, Clone, Copy, PartialEq, Eq, Structural)]
pub enum ActorKind {
    Human,
    Agent,
}

/// Who made a change.
#[derive(Debug, Clone, PartialEq, Eq)]
pub struct Actor {
    pub kind: ActorKind,
    /// The person, or the agent's name.
    pub id: String,
    /// The model, for an agent.
    pub model: Option<String>,
    /// The run this belongs to.
    pub session: Option<String>,
}

impl Actor {
    pub fn human(id: &str) -> (r: Actor)
        ensures
            r.kind == ActorKind::Human,
            r.id@ == id@,
            r.model is None,
            r.session is None,
    {
        Actor { kind: ActorKind::Human, id: own(id), model: None, session: None }
    }

    pub fn agent(id: &str, model: &str, session: &str) -> (r: Actor)
        ensures
            r.kind == ActorKind::Agent,
            r.id@ == id@,
            r.model matches Some(m) && m@ == model@,
            r.session matches Some(s) && s@ == session@,
    {
        Actor {
            kind: ActorKind::Agent,
            id: own(id),
            model: Some(own(model)),
            session: Some(own(session)),
        }
    }

    pub fn is_agent(&self) -> (r: bool)
        ensures
            r == (self.kind == ActorKind::Agent),
    {
        self.kind == ActorKind::Agent
    }
}

/// What happened.
#[derive(Debug, Clone, Copy, PartialEq, Eq, Structural)]
pub enum Op {
    Create,
    Edit,
    Rename,
    Delete,
    /// An agent suggested a change; the file is not touched.
    Propose,
    /// A proposal was applied; the entry that changes the file.
    Accept,
    /// A proposal was discarded; the file was never touched.
    Reject,
    /// Vault bytes left this machine.
    Egress,
}

pub open spec fn op_touches_file(op: Op) -> bool {
    op == Op::Create || op == Op::Edit || op == Op::Rename || op == Op::Delete || op == Op::Accept
}

impl Op {
    /// Whether this operation changes the file on disk: `propose`, `reject`
    /// and `egress` never do.
    pub fn touches_file(self) -> (r: bool)
        ensures
            r == op_touches_file(self),
    {
        match self {
            Op::Create | Op::Edit | Op::Rename | Op::Delete | Op::Accept => true,
            _ => false,
        }
    }

    /// The wire name of the operation.
    pub fn as_str(self) -> (r: &'static str)
        ensures
            r@ == op_name(self),
    {
        match self {
            Op::Create => "create",
            Op::Edit => "edit",
            Op::Rename => "rename",
            Op::Delete => "delete",
            Op::Propose => "propose",
            Op::Accept => "accept",
            Op::Reject => "reject",
            Op::Egress => "egress",
        }
    }
}

pub open spec fn op_name(op: Op) -> Seq<char> {
    match op {
        Op::Create => "create"@,
        Op::Edit => "edit"@,
        Op::Rename => "rename"@,
        Op::Delete => "delete"@,
        Op::Propose => "propose"@,
        Op::Accept => "accept"@,
        Op::Reject => "reject"@,
        Op::Egress => "egress"@,
    }
}

/// One line of the ledger.
#[derive(Debug, Clone, PartialEq, Eq)]
pub struct Entry {
    /// RFC 3339, UTC.
    pub ts: String,
    pub actor: Actor,
    pub op: Op,
    /// Why, in the actor's words.
    pub reason: String,
    /// Content hash before; absent for `create`.
    pub before: Option<String>,
    /// Content hash after; absent for `delete` and `reject`'s prior state.
    pub after: Option<String>,
    /// A unified diff, for display only; restore never uses it.
    pub patch: Option<String>,
    /// The path before a rename.
    pub from_path: Option<String>,
    /// Where bytes went, for an `egress` entry.
    pub destination: Option<String>,
    pub bytes: Option<u64>,
}

impl Entry {
    /// A new entry stamped with the current time, carrying no hashes yet.
    pub fn new(actor: Actor, op: Op, reason: &str) -> (r: Entry)
        ensures
            exists|secs: i64| r.ts@ == rfc3339(secs as int),
            r.actor == actor,
            r.op == op,
            r.reason@ == reason@,
            r.before is None,
            r.after is None,
            r.patch is None,
            r.from_path is None,
            r.destination is None,
            r.bytes is None,
    {
        Entry {
            ts: now_rfc3339(),
            actor,
            op,
            reason: own(reason),
            before: None,
            after: None,
            patch: None,
            from_path: None,
            destination: None,
            bytes: None,
        }
    }

    pub fn with_hashes(self, before: Option<String>, after: Option<String>) -> (r: Entry)
        ensures
            r == (Entry { before, after, ..self }),
    {
        let mut e = self;
        e.before = before;
        e.after = after;
        e
    }

    pub fn with_patch(self, patch: Option<String>) -> (r: Entry)
        ensures
            r == (Entry { patch, ..self }),
    {
        let mut e = self;
        e.patch = patch;
        e
    }
}

pub open spec fn digit(n: int) -> char {
    (48 + n) as char
}

/// Decimal digits of a natural number, most significant first.
pub open spec fn dec_digits(n: nat) -> Seq<char>
    decreases n,
{
    if n < 10 {
        seq![digit(n as int)]
    } else {
        dec_digits(n / 10).push(digit((n % 10) as int))
    }
}

pub open spec fn zeros(k: int) -> Seq<char>
    decreases k,
{
    if k <= 0 {
        seq![]
    } else {
        zeros(k - 1).push('0')
    }
}

/// `n` in decimal, zero-padded to at least `w` characters.
pub open spec fn zero_pad(n: nat, w: int) -> Seq<char> {
    zeros(w - dec_digits(n).len()) + dec_digits(n)
}

/// `{:04}` of a signed year: a sign counts towards the width.
pub open spec fn year_text(y: int) -> Seq<char> {
    if y < 0 {
        seq!['-'] + zero_pad((-y) as nat, 3)
    } else {
        zero_pad(y as nat, 4)
    }
}

/// `YYYY-MM-DDTHH:MM:SSZ` for a count of seconds since the Unix epoch.
pub open spec fn rfc3339(secs: int) -> Seq<char> {
    let days = secs / 86400;
    let rem = secs % 86400;
    let (y, m, d) = civil_from_days(days);
    year_text(y) + seq!['-'] + zero_pad(m as nat, 2) + seq!['-'] + zero_pad(d as nat, 2) + seq!['T']
        + zero_pad((rem / 3600) as nat, 2) + seq![':'] + zero_pad(((rem % 3600) / 60) as nat, 2)
        + seq![':'] + zero_pad((rem % 60) as nat, 2) + seq!['Z']
}

fn push_digits(out: &mut Vec<char>, n: u64)
    ensures
        final(out)@ == old(out)@ + dec_digits(n as nat),
    decreases n,
{
    if n >= 10 {
        push_digits(out, n / 10);
    }
    out.push(((n % 10) as u8 + 48u8) as char);
}

proof fn lemma_digits_len(n: nat)
    ensures
        dec_digits(n).len() >= 1,
        n >= 10000 ==> dec_digits(n).len() >= 5,
        n < 10 ==> dec_digits(n).len() == 1,
        10 <= n < 100 ==> dec_digits(n).len() == 2,
        100 <= n < 1000 ==> dec_digits(n).len() == 3,
        1000 <= n < 10000 ==> dec_digits(n).len() == 4,
    decreases n,
{
    if n >= 10 {
        lemma_digits_len(n / 10);
    }
}

fn push_padded(out: &mut Vec<char>, n: u64, w: usize)
    requires
        w <= 4,
    ensures
        final(out)@ == old(out)@ + zero_pad(n as nat, w as int),
{
    proof {
        lemma_digits_len(n as nat);
    }
    let len: usize = if n < 10 {
        1
    } else if n < 100 {
        2
    } else if n < 1000 {
        3
    } else {
        4
    };
    let ghost base = old(out)@;
    let mut k: usize = len;
    let ghost target = zeros(w - dec_digits(n as nat).len());
    let mut z: usize = 0;
    let pad: usize = if w > len {
        w - len
    } else {
        0
    };
    proof {
        if n < 10000 {
            assert(dec_digits(n as nat).len() == len);
        }
    }
    while z < pad
        invariant
            0 <= z <= pad,
            out@ == base + zeros(z as int),
        decreases pad - z,
    {
        out.push('0');
        z = z + 1;
    }
    proof {
        if n < 10000 {
            assert(pad == w - dec_digits(n as nat).len() || (pad == 0 && w <= len));
        } else {
            assert(pad == 0);
        }
        if pad == 0 {
            lemma_zeros_nonpositive(w - dec_digits(n as nat).len());
            lemma_zeros_nonpositive(pad as int);
        }
        assert(zeros(pad as int) == zeros(w - dec_digits(n as nat).len()));
    }
    push_digits(out, n);
    assert(out@ =~= base + zero_pad(n as nat, w as int));
}

proof fn lemma_zeros_nonpositive(k: int)
    requires
        k <= 0,
    ensures
        zeros(k) == Seq::<char>::empty(),
{
}

/// A number in decimal.
pub fn decimal(n: u64) -> (r: String)
    ensures
        r@ == dec_digits(n as nat),
{
    let mut out: Vec<char> = Vec::new();
    push_digits(&mut out, n);
    assert(out@ =~= dec_digits(n as nat));
    string_of(out.as_slice())
}

/// RFC 3339 in UTC, to the second.
pub fn format_rfc3339(unix_secs: i64) -> (r: String)
    ensures
        r@ == rfc3339(unix_secs as int),
{
    let (days, rem) = div_euclid(unix_secs, 86400);
    assert(-200_000_000_000_000 < days < 200_000_000_000_000) by (nonlinear_arith)
        requires
            days == unix_secs / 86400,
            i64::MIN <= unix_secs <= i64::MAX,
    ;
    let (y, m, d) = civil(days);
    let h = (rem / 3600) as u64;
    let mi = ((rem % 3600) / 60) as u64;
    let s = (rem % 60) as u64;
    let mut out: Vec<char> = Vec::new();
    if y < 0 {
        out.push('-');
        push_padded(&mut out, (-y) as u64, 3);
    } else {
        push_padded(&mut out, y as u64, 4);
    }
    out.push('-');
    push_padded(&mut out, m, 2);
    out.push('-');
    push_padded(&mut out, d, 2);
    out.push('T');
    push_padded(&mut out, h, 2);
    out.push(':');
    push_padded(&mut out, mi, 2);
    out.push(':');
    push_padded(&mut out, s, 2);
    out.push('Z');
    assert(out@ =~= rfc3339(unix_secs as int));
    string_of(out.as_slice())
}

/// Seconds since the Unix epoch, from the system clock (`SystemTime::now`).
///
/// Trusted, and nothing is claimed of the value: it depends on the clock.
#[verifier::external_body]
fn unix_now_secs() -> (r: i64) {
    std::time::SystemTime::now()
        .duration_since(std::time::UNIX_EPOCH)
        .map(|d| d.as_secs() as i64)
        .unwrap_or(0)
}

/// The current time, RFC 3339 in UTC.
pub fn now_rfc3339() -> (r: String)
    ensures
        exists|secs: i64| r@ == rfc3339(secs as int),
{
    let secs = unix_now_secs();
    format_rfc3339(secs)
}


/// `n` as exactly `w` decimal digits, most significant first.
pub open spec fn fixed_digits(n: int, w: nat) -> Seq<char>
    decreases w,
{
    if w == 0 {
        seq![]
    } else {
        fixed_digits(n / 10, (w - 1) as nat).push(digit(n % 10))
    }
}

pub open spec fn ten_to(w: nat) -> int
    decreases w,
{
    if w == 0 {
        1
    } else {
        10 * ten_to((w - 1) as nat)
    }
}

/// Whether `s` sorts before `t`, character by character: at the first place
/// they differ `s` has the smaller character, or `s` is a proper prefix of
/// `t`. For ASCII text this is the order of `<` on strings.
pub open spec fn sorts_before(s: Seq<char>, t: Seq<char>) -> bool {
    ||| exists|i: int|
        0 <= i < s.len() && i < t.len() && #[trigger] s.take(i) == t.take(i) && (s[i] as u32) < (t[i] as u32)
    ||| (s.len() < t.len() && t.take(s.len() as int) == s)
}

proof fn lemma_fixed_len(n: int, w: nat)
    ensures
        fixed_digits(n, w).len() == w,
    decreases w,
{
    if w > 0 {
        lemma_fixed_len(n / 10, (w - 1) as nat);
    }
}

/// Numbers of the same width sort as their digits do.
proof fn lemma_fixed_order(a: int, b: int, w: nat)
    requires
        0 <= a < b < ten_to(w),
    ensures
        sorts_before(fixed_digits(a, w), fixed_digits(b, w)),
    decreases w,
{
    let p = fixed_digits(a / 10, (w - 1) as nat);
    let q = fixed_digits(b / 10, (w - 1) as nat);
    lemma_fixed_len(a / 10, (w - 1) as nat);
    lemma_fixed_len(b / 10, (w - 1) as nat);
    let fa = fixed_digits(a, w);
    let fb = fixed_digits(b, w);
    assert(w > 0);
    if a / 10 < b / 10 {
        lemma_fixed_order(a / 10, b / 10, (w - 1) as nat);
        let i = choose|i: int| 0 <= i < p.len() && i < q.len() && #[trigger] p.take(i) == q.take(i) && (p[i] as u32) < (q[i] as u32);
        assert(fa.take(i) =~= p.take(i));
        assert(fb.take(i) =~= q.take(i));
        assert(fa.take(i) == fb.take(i));
    } else {
        assert(a / 10 == b / 10);
        let i = (w - 1) as int;
        assert(fa.take(i) =~= p);
        assert(fb.take(i) =~= q);
        assert(fa.take(i) == fb.take(i));
        assert((fa[i] as u32) < (fb[i] as u32));
    }
}

/// Text that starts alike, or starts earlier at the same length, sorts
/// accordingly whatever follows.
proof fn lemma_sorts_before_then(p1: Seq<char>, p2: Seq<char>, q1: Seq<char>, q2: Seq<char>)
    requires
        p1.len() == p2.len(),
        sorts_before(p1, p2) || (p1 == p2 && sorts_before(q1, q2)),
    ensures
        sorts_before(p1 + q1, p2 + q2),
{
    let s = p1 + q1;
    let t = p2 + q2;
    if sorts_before(p1, p2) {
        let i = choose|i: int| 0 <= i < p1.len() && i < p2.len() && #[trigger] p1.take(i) == p2.take(i) && (p1[i] as u32) < (p2[i] as u32);
        assert(s.take(i) =~= p1.take(i));
        assert(t.take(i) =~= p2.take(i));
        assert(s.take(i) == t.take(i));
    } else if exists|i: int| 0 <= i < q1.len() && i < q2.len() && #[trigger] q1.take(i) == q2.take(i) && (q1[i] as u32) < (q2[i] as u32) {
        let i = choose|i: int| 0 <= i < q1.len() && i < q2.len() && #[trigger] q1.take(i) == q2.take(i) && (q1[i] as u32) < (q2[i] as u32);
        let j = p1.len() + i;
        assert(s.take(j) =~= p1 + q1.take(i));
        assert(t.take(j) =~= p2 + q2.take(i));
        assert(s.take(j) == t.take(j));
        assert(s[j] == q1[i]);
        assert(t[j] == q2[i]);
    } else {
        assert(t.take(s.len() as int) =~= s);
    }
}

proof fn lemma_pad_fixed(n: int, w: nat)
    requires
        w == 2 || w == 4,
        0 <= n < ten_to(w),
    ensures
        zero_pad(n as nat, w as int) == fixed_digits(n, w),
{
    reveal_with_fuel(fixed_digits, 5);
    reveal_with_fuel(zeros, 5);
    reveal_with_fuel(ten_to, 5);
    lemma_digits_len(n as nat);
    let k = n as nat;
    if k < 10 {
        assert(dec_digits(k) == seq![digit(n)]);
    } else if k < 100 {
        assert(dec_digits(k / 10) == seq![digit(n / 10)]);
    } else if k < 1000 {
        assert(dec_digits(k / 10 / 10) == seq![digit(n / 100)]);
        assert(dec_digits(k / 10) == seq![digit(n / 100), digit((n / 10) % 10)]);
    } else {
        assert(dec_digits(k / 10 / 10 / 10) == seq![digit(n / 1000)]);
        assert(dec_digits(k / 10 / 10) == seq![digit(n / 1000), digit((n / 100) % 10)]);
        assert(dec_digits(k / 10) == seq![digit(n / 1000), digit((n / 100) % 10), digit((n / 10) % 10)]);
    }
    assert(digit(0) == '0');
    assert(zero_pad(n as nat, w as int) =~= fixed_digits(n, w));
}


proof fn lemma_field_then(a: int, b: int, w: nat, q1: Seq<char>, q2: Seq<char>)
    requires
        0 <= a < ten_to(w),
        0 <= b < ten_to(w),
        a < b || (a == b && sorts_before(q1, q2)),
    ensures
        sorts_before(fixed_digits(a, w) + q1, fixed_digits(b, w) + q2),
{
    lemma_fixed_len(a, w);
    lemma_fixed_len(b, w);
    if a < b {
        lemma_fixed_order(a, b, w);
    }
    lemma_sorts_before_then(fixed_digits(a, w), fixed_digits(b, w), q1, q2);
}

proof fn lemma_char_then(c: char, q1: Seq<char>, q2: Seq<char>)
    requires
        sorts_before(q1, q2),
    ensures
        sorts_before(seq![c] + q1, seq![c] + q2),
{
    lemma_sorts_before_then(seq![c], seq![c], q1, q2);
}

/// A timestamp's text from its parts, each at its fixed width.
pub open spec fn stamp(t: (int, int, int, int, int, int)) -> Seq<char> {
    fixed_digits(t.0, 4) + (seq!['-'] + (fixed_digits(t.1, 2) + (seq!['-'] + (fixed_digits(t.2, 2) + (seq!['T']
        + (fixed_digits(t.3, 2) + (seq![':'] + (fixed_digits(t.4, 2) + (seq![':'] + (fixed_digits(t.5, 2)
        + seq!['Z']))))))))))
}

/// The parts of the timestamp for `secs`: year, month, day, hour, minute,
/// second.
pub open spec fn stamp_parts(secs: int) -> (int, int, int, int, int, int) {
    let (y, m, d) = civil_from_days(secs / 86400);
    let rem = secs % 86400;
    (y, m, d, rem / 3600, (rem % 3600) / 60, rem % 60)
}

/// Whether the parts `a` come before the parts `b`, field by field.
pub open spec fn parts_before(a: (int, int, int, int, int, int), b: (int, int, int, int, int, int)) -> bool {
    a.0 < b.0 || (a.0 == b.0 && (a.1 < b.1 || (a.1 == b.1 && (a.2 < b.2 || (a.2 == b.2 && (a.3 < b.3 || (a.3
        == b.3 && (a.4 < b.4 || (a.4 == b.4 && a.5 < b.5)))))))))
}

proof fn lemma_stamp_order(a: (int, int, int, int, int, int), b: (int, int, int, int, int, int))
    requires
        0 <= a.0 < 10000 && 0 <= b.0 < 10000,
        0 <= a.1 < 100 && 0 <= b.1 < 100,
        0 <= a.2 < 100 && 0 <= b.2 < 100,
        0 <= a.3 < 100 && 0 <= b.3 < 100,
        0 <= a.4 < 100 && 0 <= b.4 < 100,
        0 <= a.5 < 100 && 0 <= b.5 < 100,
        parts_before(a, b),
    ensures
        sorts_before(stamp(a), stamp(b)),
{
    reveal_with_fuel(ten_to, 5);
    let z = seq!['Z'];
    let r6a = fixed_digits(a.5, 2) + z;
    let r6b = fixed_digits(b.5, 2) + z;
    let lt6 = a.5 < b.5;
    if lt6 {
        lemma_field_then(a.5, b.5, 2, z, z);
        lemma_char_then(':', r6a, r6b);
    }
    let r5a = seq![':'] + r6a;
    let r5b = seq![':'] + r6b;
    let r4a = fixed_digits(a.4, 2) + r5a;
    let r4b = fixed_digits(b.4, 2) + r5b;
    let lt5 = a.4 < b.4 || (a.4 == b.4 && lt6);
    if lt5 {
        lemma_field_then(a.4, b.4, 2, r5a, r5b);
        lemma_char_then(':', r4a, r4b);
    }
    let r3a = seq![':'] + r4a;
    let r3b = seq![':'] + r4b;
    let r2a = fixed_digits(a.3, 2) + r3a;
    let r2b = fixed_digits(b.3, 2) + r3b;
    let lt4 = a.3 < b.3 || (a.3 == b.3 && lt5);
    if lt4 {
        lemma_field_then(a.3, b.3, 2, r3a, r3b);
        lemma_char_then('T', r2a, r2b);
    }
    let r1a = seq!['T'] + r2a;
    let r1b = seq!['T'] + r2b;
    let r0a = fixed_digits(a.2, 2) + r1a;
    let r0b = fixed_digits(b.2, 2) + r1b;
    let lt3 = a.2 < b.2 || (a.2 == b.2 && lt4);
    if lt3 {
        lemma_field_then(a.2, b.2, 2, r1a, r1b);
        lemma_char_then('-', r0a, r0b);
    }
    let qa = seq!['-'] + r0a;
    let qb = seq!['-'] + r0b;
    let pa = fixed_digits(a.1, 2) + qa;
    let pb = fixed_digits(b.1, 2) + qb;
    let lt2 = a.1 < b.1 || (a.1 == b.1 && lt3);
    if lt2 {
        lemma_field_then(a.1, b.1, 2, qa, qb);
        lemma_char_then('-', pa, pb);
    }
    lemma_field_then(a.0, b.0, 4, seq!['-'] + pa, seq!['-'] + pb);
}

/// For 0 to the end of 9999, the text of a timestamp is its parts at fixed
/// width.
#[verifier::rlimit(40)]
proof fn lemma_rfc3339_stamp(secs: int)
    requires
        0 <= secs <= 253_402_300_799,
    ensures
        rfc3339(secs) == stamp(stamp_parts(secs)),
        1970 <= stamp_parts(secs).0 <= 9999,
        1 <= stamp_parts(secs).1 <= 12,
        1 <= stamp_parts(secs).2 <= 31,
        0 <= stamp_parts(secs).3 < 24,
        0 <= stamp_parts(secs).4 < 60,
        0 <= stamp_parts(secs).5 < 60,
{
    let days = secs / 86400;
    let rem = secs % 86400;
    let c = civil_from_days(days);
    let t = stamp_parts(secs);
    assert(t == (c.0, c.1, c.2, rem / 3600, (rem % 3600) / 60, rem % 60));
    crate::calendar::lemma_four_digit_years(days);
    crate::calendar::lemma_civil_exists(days);
    assert(ten_to(2) == 100 && ten_to(4) == 10000) by {
        reveal_with_fuel(ten_to, 5);
    }
    assert(0 <= rem / 3600 < 24 && 0 <= (rem % 3600) / 60 < 60 && 0 <= rem % 60 < 60);
    lemma_pad_fixed(t.0, 4);
    lemma_pad_fixed(t.1, 2);
    lemma_pad_fixed(t.2, 2);
    lemma_pad_fixed(t.3, 2);
    lemma_pad_fixed(t.4, 2);
    lemma_pad_fixed(t.5, 2);
    let text = year_text(c.0) + seq!['-'] + zero_pad(c.1 as nat, 2) + seq!['-'] + zero_pad(c.2 as nat, 2)
        + seq!['T'] + zero_pad((rem / 3600) as nat, 2) + seq![':'] + zero_pad(((rem % 3600) / 60) as nat, 2)
        + seq![':'] + zero_pad((rem % 60) as nat, 2) + seq!['Z'];
    assert(rfc3339(secs) == text);
    assert(year_text(c.0) == fixed_digits(t.0, 4));
    assert(text =~= stamp(t));
}

proof fn lemma_stamp_len(t: (int, int, int, int, int, int))
    ensures
        stamp(t).len() == 20,
        stamp(t).last() == 'Z',
{
    lemma_fixed_len(t.0, 4);
    lemma_fixed_len(t.1, 2);
    lemma_fixed_len(t.2, 2);
    lemma_fixed_len(t.3, 2);
    lemma_fixed_len(t.4, 2);
    lemma_fixed_len(t.5, 2);
}

/// A later second has later parts.
proof fn lemma_parts_in_order(a: int, b: int)
    requires
        0 <= a < b,
    ensures
        parts_before(stamp_parts(a), stamp_parts(b)),
{
    let da = a / 86400;
    let db = b / 86400;
    vstd::arithmetic::div_mod::lemma_fundamental_div_mod(a, 86400);
    vstd::arithmetic::div_mod::lemma_fundamental_div_mod(b, 86400);
    if da < db {
        crate::calendar::lemma_later_days_later_dates(da, db);
    } else {
        assert(da == db);
        let ra = a % 86400;
        let rb = b % 86400;
        assert(ra < rb);
        vstd::arithmetic::div_mod::lemma_fundamental_div_mod(ra, 3600);
        vstd::arithmetic::div_mod::lemma_fundamental_div_mod(rb, 3600);
        vstd::arithmetic::div_mod::lemma_fundamental_div_mod(ra % 3600, 60);
        vstd::arithmetic::div_mod::lemma_fundamental_div_mod(rb % 3600, 60);
    }
}

/// Timestamps of the years 1970 to 9999 are twenty characters long, end in
/// `Z`, and sort as the seconds they stand for: the text of a later second
/// sorts after the text of an earlier one, so a ledger kept in text order is
/// kept in time order.
pub proof fn law_timestamps_sort_as_their_seconds(a: int, b: int)
    requires
        0 <= a < b <= 253_402_300_799,
    ensures
        rfc3339(a).len() == 20,
        rfc3339(b).len() == 20,
        rfc3339(a).last() == 'Z',
        sorts_before(rfc3339(a), rfc3339(b)),
{
    lemma_rfc3339_stamp(a);
    lemma_rfc3339_stamp(b);
    let ta = stamp_parts(a);
    let tb = stamp_parts(b);
    lemma_stamp_len(ta);
    lemma_stamp_len(tb);
    lemma_parts_in_order(a, b);
    lemma_stamp_order(ta, tb);
}

} // verus!
