//! The decisions a vault makes around its writes: what a new note's bytes
//! are, what a trashed copy is called, and when a trashed copy may go.
//!
//! The reads and writes themselves, atomic replacement and directory walks,
//! belong to the shell that owns the disk.
use vstd::prelude::*;
use vstd::utf8::encode_utf8;
use crate::chars::{find_from, first_occurrence, replace, replace_all, replace_from, slice_of};
use crate::entry::{decimal, dec_digits};
use crate::hash::blake3_hex;
use crate::text::{chars_of, own, push_str, sb, string_of};

verus! {

/// What a save actually did.
#[derive(Debug, Clone, Copy, PartialEq, Eq, Structural)]
pub enum Saved {
    /// Bytes were written.
    Written { bytes: usize },
    /// The encoded bytes matched what is already on disk, so nothing was
    /// written and the file's mtime is untouched.
    Unchanged,
}

/// What a save does with the bytes it encoded, given what is on disk now: a
/// file that already holds them is left alone.
pub fn save_outcome(on_disk: Option<&[u8]>, encoded: &[u8]) -> (r: Saved)
    ensures
        r == (if on_disk matches Some(cur) && cur@ == encoded@ {
            Saved::Unchanged
        } else {
            Saved::Written { bytes: encoded@.len() as usize }
        }),
{
    if let Some(cur) = on_disk {
        if cur.len() == encoded.len() {
            let mut i: usize = 0;
            let mut same = true;
            while i < cur.len()
                invariant
                    cur.len() == encoded.len(),
                    0 <= i <= cur.len(),
                    same == (forall|k: int| 0 <= k < i ==> cur@[k] == encoded@[k]),
                decreases cur.len() - i,
            {
                if cur[i] != encoded[i] {
                    same = false;
                }
                i = i + 1;
            }
            if same {
                assert(cur@ =~= encoded@);
                return Saved::Unchanged;
            }
        }
    }
    Saved::Written { bytes: encoded.len() }
}

pub open spec fn crlf() -> Seq<char> {
    seq!['\r', '\n']
}

/// A new note's text: LF line endings, and a trailing newline unless empty.
pub open spec fn new_note_text(text: Seq<char>) -> Seq<char> {
    let body = replace_all(text, crlf(), seq!['\n']);
    if body.len() > 0 && body.last() != '\n' {
        body.push('\n')
    } else {
        body
    }
}

/// The text a new note is written with. New files are LF with a trailing
/// newline; existing files keep whatever they already had.
pub fn new_note_body(text: &str) -> (r: String)
    ensures
        r@ == new_note_text(text@),
{
    let cs = chars_of(text);
    let p: [char; 2] = ['\r', '\n'];
    let n: [char; 1] = ['\n'];
    assert(p@ =~= crlf());
    assert(n@ =~= seq!['\n']);
    let mut body = replace(cs.as_slice(), &p, &n);
    if body.len() > 0 && body[body.len() - 1] != '\n' {
        body.push('\n');
    }
    string_of(body.as_slice())
}

/// The trash bucket a note's copies go in: the first 16 hex digits of the
/// BLAKE3 hash of its vault path, as the ledger names its files.
pub open spec fn bucket_name(path: Seq<char>) -> Seq<char> {
    blake3_hex(encode_utf8(path)).take(16)
}

pub fn trash_bucket(path: &str) -> (r: String)
    ensures
        r@ == bucket_name(path@),
{
    let hex = crate::hash::blake3_hex_of(path.as_bytes());
    let cs = chars_of(hex.as_str());
    let head = slice_of(cs.as_slice(), 0, 16);
    assert(head@ =~= bucket_name(path@));
    string_of(head.as_slice())
}

/// The name of a trashed copy: `<stamp>-<name>`, or `<stamp>-<n>-<name>` when
/// that is taken. The deletion time is in the name, so nothing else records it.
pub open spec fn grave_text(stamp: u64, n: u64, name: Seq<char>) -> Seq<char> {
    if n == 0 {
        dec_digits(stamp as nat) + seq!['-'] + name
    } else {
        dec_digits(stamp as nat) + seq!['-'] + dec_digits(n as nat) + seq!['-'] + name
    }
}

pub fn grave_name(stamp: u64, n: u64, name: &str) -> (r: String)
    ensures
        r@ == grave_text(stamp, n, name@),
{
    let mut out = decimal(stamp);
    push_str(&mut out, "-");
    if n > 0 {
        let d = decimal(n);
        push_str(&mut out, d.as_str());
        push_str(&mut out, "-");
    }
    push_str(&mut out, name);
    proof {
        reveal_strlit("-");
    }
    assert(out@ =~= grave_text(stamp, n, name@));
    out
}

/// Copies older than this many seconds since the epoch may go; `None` when
/// the retention is zero days, which keeps everything for ever.
pub open spec fn cutoff_of(retention_days: u32, now_secs: u64) -> Option<u64> {
    if retention_days == 0 {
        None
    } else if now_secs >= retention_days * 86400 {
        Some((now_secs - retention_days * 86400) as u64)
    } else {
        Some(0)
    }
}

pub fn purge_cutoff(retention_days: u32, now_secs: u64) -> (r: Option<u64>)
    ensures
        r == cutoff_of(retention_days, now_secs),
{
    if retention_days == 0 {
        return None;
    }
    let window: u64 = (retention_days as u64) * 86400;
    Some(now_secs.saturating_sub(window))
}

pub open spec fn is_digit(c: char) -> bool {
    '0' <= c <= '9'
}

/// The number some decimal digits spell.
pub open spec fn digits_value(d: Seq<char>) -> nat
    decreases d.len(),
{
    if d.len() == 0 {
        0
    } else {
        digits_value(d.drop_last()) * 10 + ((d.last() as nat) - 48) as nat
    }
}

/// The text after an optional leading `+`.
pub open spec fn unsigned_digits(s: Seq<char>) -> Seq<char> {
    if s.len() > 0 && s[0] == '+' {
        s.drop_first()
    } else {
        s
    }
}

/// One or more ASCII digits spelling a number in range.
pub open spec fn digits_u64(d: Seq<char>) -> Option<u64> {
    if d.len() > 0 && (forall|i: int| 0 <= i < d.len() ==> is_digit(#[trigger] d[i]))
        && digits_value(d) <= u64::MAX {
        Some(digits_value(d) as u64)
    } else {
        None
    }
}

/// `u64::from_str`: an optional `+`, then one or more ASCII digits, in range.
pub open spec fn parse_u64_text(s: Seq<char>) -> Option<u64> {
    digits_u64(unsigned_digits(s))
}

proof fn lemma_digits_grow(d: Seq<char>, k: int)
    requires
        0 <= k <= d.len(),
        forall|i: int| 0 <= i < d.len() ==> is_digit(#[trigger] d[i]),
    ensures
        digits_value(d.take(k)) <= digits_value(d),
    decreases d.len() - k,
{
    if k < d.len() {
        lemma_digits_grow(d, k + 1);
        assert(d.take(k + 1).drop_last() =~= d.take(k));
    } else {
        assert(d.take(k) =~= d);
    }
}

/// Parses a decimal number as `str::parse::<u64>` does.
pub fn parse_u64(s: &[char]) -> (r: Option<u64>)
    ensures
        r == parse_u64_text(s@),
{
    let start: usize = if s.len() > 0 && s[0] == '+' { 1 } else { 0 };
    let ghost d = unsigned_digits(s@);
    assert(d =~= s@.subrange(start as int, s@.len() as int));
    if start >= s.len() {
        assert(d.len() == 0);
        return None;
    }
    let mut v: u64 = 0;
    let mut i: usize = start;
    while i < s.len()
        invariant
            start <= i <= s.len(),
            d == s@.subrange(start as int, s@.len() as int),
            d.len() > 0,
            forall|k: int| 0 <= k < i - start ==> is_digit(#[trigger] d[k]),
            v == digits_value(d.take(i - start)),
            d == unsigned_digits(s@),
        decreases s.len() - i,
    {
        let c = s[i];
        let ghost k = i - start;
        assert(d[k] == c);
        if !('0' <= c && c <= '9') {
            assert(!is_digit(d[k]));
            assert(!(forall|j: int| 0 <= j < d.len() ==> is_digit(#[trigger] d[j])));
            assert(digits_u64(d) is None);
            return None;
        }
        let digit: u64 = (c as u64) - 48;
        proof {
            assert(d.take(k + 1).drop_last() =~= d.take(k));
            assert(d.take(k + 1).last() == c);
            assert(digits_value(d.take(k + 1)) == v * 10 + digit);
        }
        let next = match v.checked_mul(10) {
            Some(m) => m.checked_add(digit),
            None => None,
        };
        match next {
            Some(n) => {
                v = n;
            },
            None => {
                proof {
                    assert(digits_value(d.take(k + 1)) > u64::MAX);
                    if forall|j: int| 0 <= j < d.len() ==> is_digit(#[trigger] d[j]) {
                        lemma_digits_grow(d, k + 1);
                        assert(digits_value(d) > u64::MAX);
                    }
                    assert(digits_u64(d) is None);
                }
                return None;
            },
        }
        i = i + 1;
    }
    assert(d.take(i - start) =~= d);
    Some(v)
}

/// The deletion time a trashed copy's name records: the number before its
/// first `-`, when it is one.
pub open spec fn grave_stamp_of(name: Seq<char>) -> Option<u64> {
    match first_occurrence(name, seq!['-'], 0) {
        Some(k) => parse_u64_text(name.take(k)),
        None => None,
    }
}

pub fn grave_stamp(name: &str) -> (r: Option<u64>)
    ensures
        r == grave_stamp_of(name@),
{
    let cs = chars_of(name);
    let dash: [char; 1] = ['-'];
    assert(dash@ =~= seq!['-']);
    proof {
        crate::chars::lemma_first_occurrence(cs@, dash@, 0);
    }
    match find_from(cs.as_slice(), &dash, 0) {
        Some(k) => {
            let head = slice_of(cs.as_slice(), 0, k);
            assert(head@ =~= cs@.take(k as int));
            parse_u64(head.as_slice())
        },
        None => None,
    }
}

/// Whether purging removes a trashed copy of this name: only one whose name
/// carries a deletion time, and only once that time is before the cutoff.
/// A name this does not understand is left alone.
pub fn expired(name: &str, cutoff: u64) -> (r: bool)
    ensures
        r == (grave_stamp_of(name@) matches Some(stamp) && stamp < cutoff),
{
    match grave_stamp(name) {
        Some(stamp) => stamp < cutoff,
        None => false,
    }
}

proof fn lemma_decimal_digits(n: nat)
    ensures
        dec_digits(n).len() > 0,
        forall|i: int| 0 <= i < dec_digits(n).len() ==> is_digit(#[trigger] dec_digits(n)[i]),
        digits_value(dec_digits(n)) == n,
    decreases n,
{
    if n >= 10 {
        lemma_decimal_digits(n / 10);
        let d = dec_digits(n / 10);
        let c = crate::entry::digit((n % 10) as int);
        assert(dec_digits(n) == d.push(c));
        assert(d.push(c).drop_last() =~= d);
        assert((n / 10) * 10 + n % 10 == n) by (nonlinear_arith);
        assert((c as nat) == 48 + n % 10);
        assert(d.push(c).last() == c);
        assert(digits_value(d.push(c)) == digits_value(d) * 10 + ((c as nat) - 48) as nat);
        assert(digits_value(d) == n / 10);
        assert(digits_value(d.push(c)) == n);
        assert forall|i: int| 0 <= i < d.push(c).len() implies is_digit(#[trigger] d.push(c)[i]) by {
            if i < d.len() {
                assert(d.push(c)[i] == d[i]);
            }
        }
    } else {
        let c = crate::entry::digit(n as int);
        assert(dec_digits(n) == seq![c]);
        assert(seq![c].drop_last() =~= Seq::<char>::empty());
        assert((c as nat) == 48 + n);
        assert(digits_value(Seq::<char>::empty()) == 0);
        assert(digits_value(seq![c]) == digits_value(seq![c].drop_last()) * 10 + ((c as nat) - 48) as nat);
    }
}

/// The deletion time a trashed copy is named with is the one purging reads
/// back from its name: the expiry clock lives in the filename, with no
/// second record that could disagree.
pub proof fn law_purge_reads_back_the_time_delete_wrote(stamp: u64, n: u64, name: Seq<char>)
    ensures
        grave_stamp_of(grave_text(stamp, n, name)) == Some(stamp),
{
    let d = dec_digits(stamp as nat);
    lemma_decimal_digits(stamp as nat);
    let g = grave_text(stamp, n, name);
    let m = d.len() as int;
    assert(g.subrange(0, m) =~= d);
    assert(g[m] == '-');
    assert(crate::chars::occurs_at(g, seq!['-'], m)) by {
        assert(g.subrange(m, m + 1) =~= seq!['-']);
    }
    assert forall|k: int| 0 <= k < m implies !crate::chars::occurs_at(g, seq!['-'], k) by {
        assert(g[k] == d[k]);
        assert(is_digit(d[k]));
        assert(g.subrange(k, k + 1)[0] == g[k]);
    }
    crate::chars::lemma_first_occurrence_is(g, seq!['-'], 0, m);
    assert(g.take(m) =~= d);
    assert(is_digit(d[0]));
    assert(unsigned_digits(d) == d);
}


/// A new note is written with LF line endings and ends in a newline: its text
/// is the given text with each CRLF made LF, followed by one `\n` exactly
/// when that does not already end in one; an empty text stays empty.
pub proof fn law_a_new_note_ends_in_a_newline(text: Seq<char>)
    ensures
        ({
            let b = new_note_text(text);
            let lf = replace_all(text, seq!['\r', '\n'], seq!['\n']);
            &&& b.len() > 0 ==> b.last() == '\n'
            &&& b == lf || b == lf.push('\n')
            &&& (lf.len() > 0 && lf.last() == '\n') ==> b == lf
            &&& lf.len() == 0 ==> b.len() == 0
            &&& !text.contains('\r') ==> lf == text
        }),
{
    if !text.contains('\r') {
        lemma_no_cr_kept(text, 0);
        assert(text.subrange(0, text.len() as int) =~= text);
    }
}

/// Text without a carriage return has no CRLF to replace.
proof fn lemma_no_cr_kept(s: Seq<char>, i: int)
    requires
        0 <= i,
        !s.contains('\r'),
    ensures
        replace_from(s, seq!['\r', '\n'], seq!['\n'], i) == (if i < s.len() {
            s.subrange(i, s.len() as int)
        } else {
            seq![]
        }),
    decreases s.len() - i,
{
    if i < s.len() {
        lemma_no_cr_kept(s, i + 1);
        assert(s.subrange(i, i + 2) != seq!['\r', '\n'] || i + 2 > s.len()) by {
            if i + 2 <= s.len() && s.subrange(i, i + 2) == seq!['\r', '\n'] {
                assert(s.subrange(i, i + 2)[0] == s[i]);
            }
        }
        assert(seq![s[i]] + (if i + 1 < s.len() {
            s.subrange(i + 1, s.len() as int)
        } else {
            seq![]
        }) =~= s.subrange(i, s.len() as int));
    }
}

/// Trash is kept for the whole retention window, counted in days of 86400
/// seconds: with a retention of `d` days, a copy deleted at `stamp` is purged
/// exactly when it was deleted more than `d` days before `now_secs`, and
/// never when the retention is zero.
pub proof fn law_trash_is_kept_for_whole_days(retention_days: u32, now_secs: u64, stamp: u64)
    ensures
        retention_days == 0 ==> cutoff_of(retention_days, now_secs) is None,
        retention_days > 0 ==> (cutoff_of(retention_days, now_secs) matches Some(c) && (stamp < c
            <==> stamp + retention_days * 86400 < now_secs)),
        retention_days > 0 ==> (cutoff_of(retention_days, now_secs) matches Some(c) && c + retention_days
            * 86400 >= now_secs && (c > 0 ==> c + retention_days * 86400 == now_secs)),
{
}

} // verus!
