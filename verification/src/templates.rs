//! Templates: ordinary notes in an ordinary folder, with Obsidian's three
//! variables, and the clean-up a model's drafted template gets.
use vstd::prelude::*;
use vstd::utf8::*;
use crate::chars::{
    find_from, first_occurrence, lit, replace, replace_all, slice_of, trim_end_bound, trimmed,
};
use crate::text::{chars_of, own, sb, slice, string_of, trim, trim_end};
use crate::wikilink::{find_first, first_index};
use crate::api::{ApiError, ErrorCode};
use crate::path::VaultPath;
use crate::tree::TreeEntry;

verus! {

broadcast use vstd::utf8::encode_utf8_valid_utf8;

/// One template, as the picker shows it.
#[derive(Debug, Clone, PartialEq, Eq)]
pub struct Template {
    /// Vault path, so it can be opened and edited like any note.
    pub path: String,
    /// The file stem: what the picker lists.
    pub name: String,
}

/// The date part of an RFC 3339 timestamp: everything before the first `T`,
/// or the whole text when there is none.
pub open spec fn date_bytes(now: Seq<u8>) -> Seq<u8> {
    match first_index(now, 84u8) {
        Some(k) => now.take(k),
        None => now,
    }
}

/// The time part: the first five bytes after the first `T` (up to any second
/// `T`), when they end on a character boundary; `00:00` otherwise.
pub open spec fn time_text(now: Seq<u8>) -> Seq<char> {
    match first_index(now, 84u8) {
        Some(k) => {
            let rest = now.skip(k + 1);
            let seg = match first_index(rest, 84u8) {
                Some(j) => rest.take(j),
                None => rest,
            };
            if seg.len() >= 5 && is_char_boundary(seg, 5) {
                decode_utf8(seg.take(5))
            } else {
                "00:00"@
            }
        },
        None => "00:00"@,
    }
}

pub open spec fn date_text(now: Seq<u8>) -> Seq<char> {
    decode_utf8(date_bytes(now))
}

/// What `substitute` produces: `{{title}}`, `{{date}}` and `{{time}}` replaced,
/// in that order, and nothing else touched.
pub open spec fn substituted(template: Seq<char>, title: Seq<char>, now: Seq<u8>) -> Seq<char> {
    replace_all(
        replace_all(replace_all(template, "{{title}}"@, title), "{{date}}"@, date_text(now)),
        "{{time}}"@,
        time_text(now),
    )
}

/// Substitute the variables a template may carry: Obsidian's names, on
/// purpose, so a template works unchanged in both apps. An unknown
/// `{{placeholder}}` is left exactly as it is.
pub fn substitute(template: &str, title: &str, now: &str) -> (r: String)
    ensures
        r@ == substituted(template@, title@, sb(now)),
{
    let nb = now.as_bytes();
    let ghost n = sb(now);
    proof {
        is_char_boundary_start_end_of_seq(n);
    }
    let date: &str = match find_first(nb, 84u8) {
        Some(k) => {
            proof {
                crate::text::lemma_ascii_boundary(n, k as int);
            }
            slice(now, 0, k)
        },
        None => now,
    };
    assert(sb(date) =~= date_bytes(n));
    let time: Vec<char> = match find_first(nb, 84u8) {
        Some(k) => {
            proof {
                crate::text::lemma_after_ascii_boundary(n, k + 1);
            }
            let rest = slice(now, k + 1, nb.len());
            let rb = rest.as_bytes();
            let ghost r = sb(rest);
            assert(r =~= n.skip(k + 1));
            proof {
                is_char_boundary_start_end_of_seq(r);
            }
            let seg: &str = match find_first(rb, 84u8) {
                Some(j) => {
                    proof {
                        crate::text::lemma_ascii_boundary(r, j as int);
                    }
                    slice(rest, 0, j)
                },
                None => rest,
            };
            if seg.len() >= 5 && seg.is_char_boundary(5) {
                proof {
                    is_char_boundary_start_end_of_seq(sb(seg));
                }
                let hm = slice(seg, 0, 5);
                proof {
                    encode_utf8_decode_utf8(hm@);
                    assert(sb(hm) =~= sb(seg).take(5));
                }
                chars_of(hm)
            } else {
                lit("00:00")
            }
        },
        None => lit("00:00"),
    };
    proof {
        encode_utf8_decode_utf8(date@);
    }
    let t = chars_of(template);
    let title_cs = chars_of(title);
    let date_cs = chars_of(date);
    let p_title = lit("{{title}}");
    let p_date = lit("{{date}}");
    let p_time = lit("{{time}}");
    proof {
        reveal_strlit("{{title}}");
        reveal_strlit("{{date}}");
        reveal_strlit("{{time}}");
    }
    let a = replace(t.as_slice(), p_title.as_slice(), title_cs.as_slice());
    let b = replace(a.as_slice(), p_date.as_slice(), date_cs.as_slice());
    let c = replace(b.as_slice(), p_time.as_slice(), time.as_slice());
    string_of(c.as_slice())
}

/// The three backticks of a code fence.
pub open spec fn fence() -> Seq<char> {
    seq!['`', '`', '`']
}

/// A drafted template, with the fence a model wraps it in removed, trimmed,
/// and ending in a newline.
pub open spec fn cleaned(raw: Seq<char>) -> Seq<char> {
    let t = trim(raw);
    let text = if t.len() >= 3 && t.take(3) == fence() {
        let after = t.skip(3);
        let rest = match first_occurrence(after, seq!['\n'], 0) {
            Some(k) => after.skip(k + 1),
            None => after,
        };
        let te = trim_end(rest);
        if te.len() >= 3 && te.skip(te.len() - 3) == fence() {
            trim(te.take(te.len() - 3))
        } else {
            trim(rest)
        }
    } else {
        t
    };
    if text.len() > 0 && text.last() == '\n' {
        text
    } else {
        text.push('\n')
    }
}

fn is_fence_at(a: &[char], i: usize) -> (r: bool)
    requires
        i + 3 <= a.len(),
    ensures
        r == (a@.subrange(i as int, i + 3) == fence()),
{
    let r = a[i] == '`' && a[i + 1] == '`' && a[i + 2] == '`';
    if r {
        assert(a@.subrange(i as int, i + 3) =~= fence());
    } else {
        assert(a@.subrange(i as int, i + 3) != fence()) by {
            if a@.subrange(i as int, i + 3) == fence() {
                assert(a@.subrange(i as int, i + 3)[0] == '`');
                assert(a@.subrange(i as int, i + 3)[1] == '`');
                assert(a@.subrange(i as int, i + 3)[2] == '`');
            }
        }
    }
    r
}

/// Strip what a model adds around the answer despite being asked not to: a
/// fence, with or without a language tag, and surrounding whitespace.
pub fn clean(raw: &str) -> (r: String)
    ensures
        r@ == cleaned(raw@),
{
    let cs = chars_of(raw);
    let t = trimmed(cs.as_slice());
    let text: Vec<char> = if t.len() >= 3 && is_fence_at(t.as_slice(), 0) {
        assert(t@.subrange(0, 3) =~= t@.take(3));
        let after = slice_of(t.as_slice(), 3, t.len());
        assert(after@ =~= t@.skip(3));
        let nl: [char; 1] = ['\n'];
        assert(nl@ =~= seq!['\n']);
        proof {
            crate::chars::lemma_first_occurrence(after@, nl@, 0);
        }
        let rest = match find_from(after.as_slice(), &nl, 0) {
            Some(k) => {
                let r = slice_of(after.as_slice(), k + 1, after.len());
                assert(r@ =~= after@.skip(k + 1));
                r
            },
            None => after,
        };
        let z = trim_end_bound(rest.as_slice());
        if z >= 3 && is_fence_at(rest.as_slice(), z - 3) {
            let ghost te = rest@.take(z as int);
            assert(te.skip(te.len() - 3) =~= rest@.subrange(z - 3, z as int));
            let inner = slice_of(rest.as_slice(), 0, z - 3);
            assert(inner@ =~= te.take(te.len() - 3));
            trimmed(inner.as_slice())
        } else {
            proof {
                let te = rest@.take(z as int);
                if z >= 3 {
                    assert(te.skip(te.len() - 3) =~= rest@.subrange(z - 3, z as int));
                }
            }
            trimmed(rest.as_slice())
        }
    } else {
        proof {
            if t.len() >= 3 {
                assert(t@.subrange(0, 3) =~= t@.take(3));
            }
        }
        t
    };
    let mut out = text;
    if !(out.len() > 0 && out[out.len() - 1] == '\n') {
        out.push('\n');
    }
    string_of(out.as_slice())
}

/// `'/'` removed from both ends.
pub open spec fn trim_slashes(s: Seq<char>) -> Seq<char>
    decreases s.len(),
{
    if s.len() > 0 && s[0] == '/' {
        trim_slashes(s.drop_first())
    } else if s.len() > 0 && s.last() == '/' {
        trim_slashes(s.drop_last())
    } else {
        s
    }
}

/// The templates folder as a vault path: the configured folder without
/// leading or trailing slashes.
pub fn templates_root(folder: &str) -> (r: String)
    ensures
        r@ == trim_slashes(folder@),
{
    let v = chars_of(folder);
    let mut lo: usize = 0;
    let hi: usize = v.len();
    assert(v@.subrange(0, v@.len() as int) =~= v@);
    while lo < hi && v[lo] == '/'
        invariant
            0 <= lo <= hi == v@.len(),
            trim_slashes(v@) == trim_slashes(v@.subrange(lo as int, hi as int)),
        decreases hi - lo,
    {
        assert(v@.subrange(lo as int, hi as int).drop_first() =~= v@.subrange(lo + 1, hi as int));
        lo = lo + 1;
    }
    let mut hi = hi;
    while lo < hi && v[hi - 1] == '/'
        invariant
            0 <= lo <= hi <= v@.len(),
            trim_slashes(v@) == trim_slashes(v@.subrange(lo as int, hi as int)),
            lo < hi ==> v@[lo as int] != '/',
        decreases hi - lo,
    {
        assert(v@.subrange(lo as int, hi as int).drop_last() =~= v@.subrange(lo as int, hi - 1));
        hi = hi - 1;
    }
    proof {
        let w = v@.subrange(lo as int, hi as int);
        if w.len() > 0 {
            assert(w[0] == v@[lo as int]);
            assert(w.last() == v@[hi - 1]);
        }
    }
    let r = slice_of(v.as_slice(), lo, hi);
    string_of(r.as_slice())
}

pub open spec fn md_suffix() -> Seq<char> {
    seq!['.', 'm', 'd']
}

pub open spec fn ends_md(s: Seq<char>) -> bool {
    s.len() >= 3 && s.skip(s.len() - 3) == md_suffix()
}

/// Every trailing `.md` removed.
pub open spec fn strip_md_all(s: Seq<char>) -> Seq<char>
    decreases s.len(),
{
    if ends_md(s) {
        strip_md_all(s.take(s.len() - 3))
    } else {
        s
    }
}

/// A template's stem: the name trimmed, every trailing `.md` removed, and
/// trimmed again.
pub open spec fn template_stem(name: Seq<char>) -> Seq<char> {
    trim(strip_md_all(trim(name)))
}

fn ends_with_md(s: &[char], n: usize) -> (r: bool)
    requires
        n <= s.len(),
    ensures
        r == ends_md(s@.take(n as int)),
{
    if n >= 3 && s[n - 3] == '.' && s[n - 2] == 'm' && s[n - 1] == 'd' {
        assert(s@.take(n as int).skip(n - 3) =~= md_suffix());
        true
    } else {
        proof {
            if n >= 3 && s@.take(n as int).skip(n - 3) == md_suffix() {
                assert(s@.take(n as int).skip(n - 3)[0] == s@[n - 3]);
                assert(s@.take(n as int).skip(n - 3)[1] == s@[n - 2]);
                assert(s@.take(n as int).skip(n - 3)[2] == s@[n - 1]);
            }
        }
        false
    }
}

/// Where a template of this name is saved, and its stem. Without a
/// templates folder there is nowhere to save one; without a name there is
/// nothing to call it.
pub fn template_target(root: &str, name: &str) -> (r: Result<(VaultPath, String), ApiError>)
    ensures
        root@.len() == 0 ==> (r matches Err(e) && e.code == ErrorCode::Config
            && e.message@ == "no templates folder is configured"@),
        root@.len() > 0 && template_stem(name@).len() == 0 ==> (r matches Err(e) && e.code
            == ErrorCode::InvalidPath && e.message@ == "a template needs a name"@),
        r matches Ok((_, stem)) ==> root@.len() > 0 && stem@ == template_stem(name@)
            && stem@.len() > 0,
{
    if root.is_empty() {
        return Err(ApiError::new(ErrorCode::Config, "no templates folder is configured"));
    }
    let t = crate::chars::trimmed(chars_of(name).as_slice());
    let mut n = t.len();
    assert(t@.take(n as int) =~= t@);
    while ends_with_md(t.as_slice(), n)
        invariant
            n <= t@.len(),
            strip_md_all(t@) == strip_md_all(t@.take(n as int)),
        decreases n,
    {
        assert(t@.take(n as int).take(n - 3) =~= t@.take(n - 3));
        n = n - 3;
    }
    let head = slice_of(t.as_slice(), 0, n);
    assert(head@ =~= t@.take(n as int));
    let stem = crate::chars::trimmed(head.as_slice());
    if stem.len() == 0 {
        return Err(ApiError::new(ErrorCode::InvalidPath, "a template needs a name"));
    }
    let mut path = own(root);
    crate::text::push_str(&mut path, "/");
    let stem_s = string_of(stem.as_slice());
    crate::text::push_str(&mut path, stem_s.as_str());
    crate::text::push_str(&mut path, ".md");
    match VaultPath::new(path.as_str()) {
        Ok(p) => Ok((p, stem_s)),
        Err(e) => Err(ApiError::from(e)),
    }
}

/// The title a note made from a template gets: its file name without `.md`,
/// or `Untitled` when the name does not end in `.md`.
pub open spec fn title_for(path: Seq<char>) -> Seq<char> {
    let last = match crate::platform::last_index_char(path, '/') {
        Some(k) => path.skip(k + 1),
        None => path,
    };
    if ends_md(last) {
        last.take(last.len() - 3)
    } else {
        "Untitled"@
    }
}

pub fn template_title(path: &str) -> (r: String)
    ensures
        r@ == title_for(path@),
{
    let cs = chars_of(path);
    let mut k = cs.len();
    assert(cs@.take(cs@.len() as int) =~= cs@);
    while k > 0 && cs[k - 1] != '/'
        invariant
            0 <= k <= cs@.len(),
            crate::platform::last_index_char(cs@, '/') == crate::platform::last_index_char(
                cs@.take(k as int),
                '/',
            ),
        decreases k,
    {
        assert(cs@.take(k as int).drop_last() =~= cs@.take(k - 1));
        k = k - 1;
    }
    assert(cs@.take(cs@.len() as int) =~= cs@);
    let last = slice_of(cs.as_slice(), k, cs.len());
    proof {
        if k > 0 {
            assert(cs@.take(k as int).last() == '/');
            assert(crate::platform::last_index_char(cs@, '/') == Some(k - 1));
        }
        assert(last@ =~= (match crate::platform::last_index_char(cs@, '/') {
            Some(j) => cs@.skip(j + 1),
            None => cs@,
        }));
    }
    let n = last.len();
    assert(last@.take(n as int) =~= last@);
    if ends_with_md(last.as_slice(), n) {
        let t = slice_of(last.as_slice(), 0, n - 3);
        string_of(t.as_slice())
    } else {
        own("Untitled")
    }
}

/// A tree entry that is a template: a markdown file inside the folder.
pub open spec fn is_template_entry(e: TreeEntry, root: Seq<char>) -> bool {
    let p = e.path@;
    let pre = root + seq!['/'];
    !e.is_dir && p.len() >= pre.len() && p.take(pre.len() as int) == pre && ends_md(p)
}

/// The picker's view of a template entry: its path, and its name without `.md`.
pub fn template_of(e: &TreeEntry, root: &str) -> (r: Option<Template>)
    ensures
        is_template_entry(*e, root@) ==> (r matches Some(t) && t.path@ == e.path@ && t.name@ == (
        if ends_md(e.name@) {
            e.name@.take(e.name@.len() - 3)
        } else {
            e.name@
        })),
        !is_template_entry(*e, root@) ==> r is None,
{
    if e.is_dir {
        return None;
    }
    let p = chars_of(e.path.as_str());
    let r = chars_of(root);
    let mut pre = r.clone();
    assert(pre@ == r@);
    pre.push('/');
    assert(pre@ =~= root@ + seq!['/']);
    if p.len() < pre.len() {
        return None;
    }
    let mut i: usize = 0;
    while i < pre.len()
        invariant
            pre@.len() <= p@.len(),
            p@ == e.path@,
            pre@ == root@ + seq!['/'],
            0 <= i <= pre@.len(),
            forall|k: int| 0 <= k < i ==> p@[k] == pre@[k],
        decreases pre@.len() - i,
    {
        if p[i] != pre[i] {
            assert(p@.take(pre@.len() as int)[i as int] != pre@[i as int]);
            return None;
        }
        i = i + 1;
    }
    assert(p@.take(pre@.len() as int) =~= pre@);
    if !ends_with_md(p.as_slice(), p.len()) {
        assert(p@.take(p@.len() as int) =~= p@);
        return None;
    }
    assert(p@.take(p@.len() as int) =~= p@);
    let nm = chars_of(e.name.as_str());
    let nlen = nm.len();
    assert(nm@.take(nlen as int) =~= nm@);
    let name = if ends_with_md(nm.as_slice(), nlen) {
        let t = slice_of(nm.as_slice(), 0, nlen - 3);
        string_of(t.as_slice())
    } else {
        string_of(nm.as_slice())
    };
    Some(Template { path: own(e.path.as_str()), name })
}

/// A drafted template always ends with exactly the newline a file wants.
pub proof fn law_a_cleaned_template_ends_with_a_newline(raw: Seq<char>)
    ensures
        cleaned(raw).len() > 0,
        cleaned(raw).last() == '\n',
{
}

/// Replacing a pattern that does not occur leaves the text as it was.
pub proof fn lemma_replace_absent(s: Seq<char>, p: Seq<char>, r: Seq<char>, i: int)
    requires
        p.len() > 0,
        0 <= i <= s.len(),
        forall|k: int| i <= k ==> !crate::chars::occurs_at(s, p, k),
    ensures
        crate::chars::replace_from(s, p, r, i) == s.skip(i),
    decreases s.len() - i,
{
    if i < s.len() {
        lemma_replace_absent(s, p, r, i + 1);
        assert(seq![s[i]] + s.skip(i + 1) =~= s.skip(i));
    } else {
        assert(s.skip(i) =~= Seq::<char>::empty());
    }
}

/// A template with none of the three variables is copied verbatim; and an
/// unknown `{{placeholder}}`, not being one of them, is left exactly as it is.
pub proof fn law_text_without_variables_is_copied_verbatim(
    template: Seq<char>,
    title: Seq<char>,
    now: Seq<u8>,
)
    requires
        !crate::chars::contains_seq(template, "{{title}}"@),
        !crate::chars::contains_seq(template, "{{date}}"@),
        !crate::chars::contains_seq(template, "{{time}}"@),
    ensures
        substituted(template, title, now) == template,
{
    reveal_strlit("{{title}}");
    reveal_strlit("{{date}}");
    reveal_strlit("{{time}}");
    assert forall|k: int| 0 <= k implies !crate::chars::occurs_at(template, "{{title}}"@, k) by {}
    lemma_replace_absent(template, "{{title}}"@, title, 0);
    assert(template.skip(0) =~= template);
    assert forall|k: int| 0 <= k implies !crate::chars::occurs_at(template, "{{date}}"@, k) by {}
    lemma_replace_absent(template, "{{date}}"@, date_text(now), 0);
    assert forall|k: int| 0 <= k implies !crate::chars::occurs_at(template, "{{time}}"@, k) by {}
    lemma_replace_absent(template, "{{time}}"@, time_text(now), 0);
}

/// The name a template entry is listed under.
pub open spec fn template_name(e: TreeEntry) -> Seq<char> {
    if ends_md(e.name@) {
        e.name@.take(e.name@.len() - 3)
    } else {
        e.name@
    }
}

/// The templates among a tree's entries, as (path, name), in tree order.
pub open spec fn templates_among(entries: Seq<TreeEntry>, root: Seq<char>) -> Seq<(Seq<char>, Seq<char>)>
    decreases entries.len(),
{
    if entries.len() == 0 {
        seq![]
    } else {
        let init = templates_among(entries.drop_last(), root);
        if is_template_entry(entries.last(), root) {
            init.push((entries.last().path@, template_name(entries.last())))
        } else {
            init
        }
    }
}

pub open spec fn template_views(ts: Seq<Template>) -> Seq<(Seq<char>, Seq<char>)> {
    ts.map_values(|t: Template| (t.path@, t.name@))
}

/// Every template in a vault's tree, in tree order; none when no templates
/// folder is configured.
pub fn templates_in(entries: &Vec<TreeEntry>, root: &str) -> (r: Vec<Template>)
    ensures
        template_views(r@) == if root@.len() == 0 {
            Seq::<(Seq<char>, Seq<char>)>::empty()
        } else {
            templates_among(entries@, root@)
        },
{
    let mut out: Vec<Template> = Vec::new();
    if root.is_empty() {
        assert(template_views(out@) =~= Seq::<(Seq<char>, Seq<char>)>::empty());
        return out;
    }
    let mut i: usize = 0;
    while i < entries.len()
        invariant
            0 <= i <= entries@.len(),
            template_views(out@) == templates_among(entries@.take(i as int), root@),
        decreases entries@.len() - i,
    {
        proof {
            assert(entries@.take(i + 1).drop_last() =~= entries@.take(i as int));
            assert(entries@.take(i + 1).last() == entries@[i as int]);
        }
        let ghost before = out@;
        match template_of(&entries[i], root) {
            Some(t) => {
                out.push(t);
                assert(template_views(out@) =~= template_views(before).push(
                    (entries@[i as int].path@, template_name(entries@[i as int])),
                ));
            },
            None => {},
        }
        i = i + 1;
    }
    assert(entries@.take(entries@.len() as int) =~= entries@);
    out
}

/// Why a saved template appears in its history: a person's write either way,
/// naming the model when the words were drafted by one.
pub fn template_reason(drafted: bool, model: &str) -> (r: String)
    ensures
        r@ == if drafted {
            "drafted with "@ + model@ + ", read and saved"@
        } else {
            "created"@
        },
{
    if drafted {
        let mut s = own("drafted with ");
        crate::text::push_str(&mut s, model);
        crate::text::push_str(&mut s, ", read and saved");
        s
    } else {
        own("created")
    }
}

} // verus!
