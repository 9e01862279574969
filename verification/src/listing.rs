//! Listings a person picks from, a vault's folder or a template: hidden
//! folders left out, everything ordered by name without regard to case.
use vstd::prelude::*;
use crate::templates::Template;
use crate::text::{chars_of, lowercase, to_lower};
use crate::types::DirEntry;

verus! {

broadcast use vstd::seq_lib::group_to_multiset_ensures;

/// `a` comes before `b`, character by character, a prefix first.
pub open spec fn lex_lt(a: Seq<char>, b: Seq<char>) -> bool
    decreases a.len(),
{
    if b.len() == 0 {
        false
    } else if a.len() == 0 {
        true
    } else if a[0] != b[0] {
        (a[0] as int) < (b[0] as int)
    } else {
        lex_lt(a.drop_first(), b.drop_first())
    }
}

pub open spec fn lex_le(a: Seq<char>, b: Seq<char>) -> bool {
    a == b || lex_lt(a, b)
}

pub(crate) proof fn lemma_lex_transitive(a: Seq<char>, b: Seq<char>, c: Seq<char>)
    requires
        lex_lt(a, b),
        lex_lt(b, c),
    ensures
        lex_lt(a, c),
    decreases a.len(),
{
    if a.len() > 0 && b.len() > 0 && c.len() > 0 && a[0] == b[0] && b[0] == c[0] {
        lemma_lex_transitive(a.drop_first(), b.drop_first(), c.drop_first());
    }
}

pub(crate) proof fn lemma_lex_total(a: Seq<char>, b: Seq<char>)
    ensures
        a == b || lex_lt(a, b) || lex_lt(b, a),
    decreases a.len(),
{
    if a.len() > 0 && b.len() > 0 {
        if a[0] == b[0] {
            lemma_lex_total(a.drop_first(), b.drop_first());
            if a.drop_first() == b.drop_first() {
                assert(a =~= seq![a[0]] + a.drop_first());
                assert(b =~= seq![b[0]] + b.drop_first());
            }
        }
    } else if a.len() == 0 && b.len() == 0 {
        assert(a =~= b);
    }
}

/// Something listed by its name.
pub trait Named: Sized {
    spec fn name_view(&self) -> Seq<char>;

    fn name_str(&self) -> (r: &str)
        ensures
            r@ == self.name_view(),
    ;
}

impl Named for DirEntry {
    open spec fn name_view(&self) -> Seq<char> {
        self.name@
    }

    fn name_str(&self) -> (r: &str) {
        self.name.as_str()
    }
}

impl Named for Template {
    open spec fn name_view(&self) -> Seq<char> {
        self.name@
    }

    fn name_str(&self) -> (r: &str) {
        self.name.as_str()
    }
}

/// What a listing is ordered by: the name, lowercased.
pub open spec fn sort_key<T: Named>(e: T) -> Seq<char> {
    lowercase(e.name_view())
}

/// Ordered by lowercased name.
pub open spec fn sorted_by_name<T: Named>(s: Seq<T>) -> bool {
    forall|i: int, j: int| 0 <= i < j < s.len() ==> lex_le(sort_key(#[trigger] s[i]), sort_key(#[trigger] s[j]))
}

/// `e` put into the ordered `s` after every item whose key is not greater
/// than its own, so that items with equal keys keep the order they came in.
pub open spec fn inserted<T: Named>(s: Seq<T>, e: T) -> Seq<T>
    decreases s.len(),
{
    if s.len() == 0 {
        seq![e]
    } else if lex_lt(sort_key(e), sort_key(s[0])) {
        seq![e] + s
    } else {
        seq![s[0]] + inserted(s.drop_first(), e)
    }
}

/// The items ordered by lowercased name, ties in the order they came: each
/// item inserted in turn.
pub open spec fn ordered_by_name<T: Named>(es: Seq<T>) -> Seq<T>
    decreases es.len(),
{
    if es.len() == 0 {
        seq![]
    } else {
        inserted(ordered_by_name(es.drop_last()), es.last())
    }
}

proof fn lemma_inserted_at<T: Named>(s: Seq<T>, e: T, p: int)
    requires
        0 <= p <= s.len(),
        forall|k: int| 0 <= k < p ==> !lex_lt(sort_key(e), #[trigger] sort_key(s[k])),
        p == s.len() || lex_lt(sort_key(e), sort_key(s[p])),
    ensures
        inserted(s, e) == s.insert(p, e),
    decreases p,
{
    if p == 0 {
        if s.len() == 0 {
            assert(seq![e] =~= s.insert(0, e));
        } else {
            assert(seq![e] + s =~= s.insert(0, e));
        }
    } else {
        let t = s.drop_first();
        assert forall|k: int| 0 <= k < p - 1 implies !lex_lt(sort_key(e), #[trigger] sort_key(t[k])) by {
            assert(t[k] == s[k + 1]);
        }
        if p - 1 < t.len() {
            assert(t[p - 1] == s[p]);
        }
        lemma_inserted_at(t, e, p - 1);
        assert(!lex_lt(sort_key(e), sort_key(s[0])));
        assert(seq![s[0]] + t.insert(p - 1, e) =~= s.insert(p, e));
    }
}

/// Hidden folders are noise when picking a notes folder.
pub fn is_listed(name: &str) -> (r: bool)
    ensures
        r == !(name@.len() > 0 && name@[0] == '.'),
{
    let cs = chars_of(name);
    !(cs.len() > 0 && cs[0] == '.')
}

/// Whether `a` sorts strictly before `b`.
pub(crate) fn lex_less(a: &[char], b: &[char]) -> (r: bool)
    ensures
        r == lex_lt(a@, b@),
{
    let mut i: usize = 0;
    assert(a@.skip(0) =~= a@);
    assert(b@.skip(0) =~= b@);
    while i < a.len() && i < b.len()
        invariant
            0 <= i <= a@.len(),
            i <= b@.len(),
            lex_lt(a@, b@) == lex_lt(a@.skip(i as int), b@.skip(i as int)),
        decreases a@.len() - i,
    {
        assert(a@.skip(i as int)[0] == a@[i as int]);
        assert(b@.skip(i as int)[0] == b@[i as int]);
        if a[i] != b[i] {
            return a[i] < b[i];
        }
        assert(a@.skip(i as int).drop_first() =~= a@.skip(i + 1));
        assert(b@.skip(i as int).drop_first() =~= b@.skip(i + 1));
        i = i + 1;
    }
    i == a.len() && i < b.len()
}

/// The listing ordered by lowercased name, items whose names agree in the
/// order they came.
pub fn sort_by_name<T: Named>(entries: Vec<T>) -> (r: Vec<T>)
    ensures
        r@ == ordered_by_name(entries@),
        r@.to_multiset() =~= entries@.to_multiset(),
        sorted_by_name(r@),
{
    let ghost all = entries@;
    let mut rest = entries;
    let mut out: Vec<T> = Vec::new();
    let mut keys: Vec<Vec<char>> = Vec::new();
    let ghost mut i: int = 0;
    assert(all.skip(0) =~= all);
    while rest.len() > 0
        invariant
            0 <= i <= all.len(),
            rest@ == all.skip(i),
            out@.len() == keys@.len(),
            forall|k: int| 0 <= k < keys@.len() ==> #[trigger] keys@[k]@ == sort_key(out@[k]),
            sorted_by_name(out@),
            out@ == ordered_by_name(all.take(i)),
            out@.to_multiset() =~= all.take(i).to_multiset(),
        decreases rest@.len(),
    {
        let e = rest.remove(0);
        let lower = to_lower(e.name_str());
        let key = chars_of(lower.as_str());
        let ghost kv = key@;
        // After every entry whose key is not greater, so that equal keys stay
        // in the order they came.
        let mut p: usize = 0;
        while p < out.len() && !lex_less(key.as_slice(), keys[p].as_slice())
            invariant
                0 <= p <= out@.len(),
                out@.len() == keys@.len(),
                forall|k: int| 0 <= k < keys@.len() ==> #[trigger] keys@[k]@ == sort_key(out@[k]),
                forall|k: int| 0 <= k < p ==> lex_le(#[trigger] sort_key(out@[k]), kv),
                forall|k: int| 0 <= k < p ==> !lex_lt(kv, #[trigger] sort_key(out@[k])),
                kv == key@,
                kv == sort_key(e),
            decreases out@.len() - p,
        {
            proof {
                lemma_lex_total(kv, keys@[p as int]@);
            }
            p = p + 1;
        }
        proof {
            if p < out@.len() {
                assert(lex_lt(kv, sort_key(out@[p as int])));
                assert forall|k: int| p <= k < out@.len() implies lex_lt(kv, #[trigger] sort_key(out@[k])) by {
                    if k > p {
                        assert(lex_le(sort_key(out@[p as int]), sort_key(out@[k])));
                        if sort_key(out@[p as int]) != sort_key(out@[k]) {
                            lemma_lex_transitive(kv, sort_key(out@[p as int]), sort_key(out@[k]));
                        }
                    }
                }
            }
        }
        let ghost before = out@;
        let ghost old_keys = keys@;
        let ghost ev = e;
        out.insert(p, e);
        keys.insert(p, key);
        proof {
            assert forall|a: int, b: int| 0 <= a < b < out@.len() implies lex_le(sort_key(#[trigger] out@[a]), sort_key(#[trigger] out@[b])) by {
                if b < p as int {
                    assert(out@[a] == before[a] && out@[b] == before[b]);
                } else if b == p as int {
                    assert(out@[a] == before[a]);
                } else if a < p as int {
                    assert(out@[a] == before[a] && out@[b] == before[b - 1]);
                    assert(lex_le(sort_key(before[a]), kv));
                    assert(lex_lt(kv, sort_key(before[b - 1])));
                    if sort_key(before[a]) != kv {
                        lemma_lex_transitive(sort_key(before[a]), kv, sort_key(before[b - 1]));
                    }
                } else if a == p as int {
                    assert(out@[b] == before[b - 1]);
                } else {
                    assert(out@[a] == before[a - 1] && out@[b] == before[b - 1]);
                }
            }
            assert forall|k: int| 0 <= k < keys@.len() implies #[trigger] keys@[k]@ == sort_key(out@[k]) by {
                if k < p as int {
                    assert(keys@[k] == old_keys[k] && out@[k] == before[k]);
                } else if k > p as int {
                    assert(keys@[k] == old_keys[k - 1] && out@[k] == before[k - 1]);
                }
            }
            assert(all.take(i + 1) =~= all.take(i).push(all[i]));
            assert(all.skip(i)[0] == all[i]);
            lemma_inserted_at(before, ev, p as int);
            assert(all.take(i + 1).drop_last() =~= all.take(i));
            assert(all.skip(i).remove(0) =~= all.skip(i + 1));
            i = i + 1;
        }
    }
    assert(all.take(all.len() as int) =~= all);
    out
}

pub(crate) proof fn lemma_lex_irreflexive(a: Seq<char>)
    ensures
        !lex_lt(a, a),
    decreases a.len(),
{
    if a.len() > 0 {
        lemma_lex_irreflexive(a.drop_first());
    }
}

pub(crate) proof fn lemma_lex_asymmetric(a: Seq<char>, b: Seq<char>)
    requires
        lex_lt(a, b),
    ensures
        !lex_lt(b, a),
{
    if lex_lt(b, a) {
        lemma_lex_transitive(a, b, a);
        lemma_lex_irreflexive(a);
    }
}

} // verus!
