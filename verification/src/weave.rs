//! How an accepted link suggestion lands in a note: under a `## Related`
//! heading, path-qualified, and never twice.
use vstd::prelude::*;
use crate::chars::{
    contains_seq, extend, find_from, first_occurrence, lemma_contains_iff_found,
    lemma_first_occurrence, lemma_no_straddle, lemma_places_concat, lemma_places_none, lemma_places_short,
    lemma_places_zero, lit, not_in, occurs_at, places, places_upto, slice_of,
};
use crate::text::{chars_of, sb, slice, string_of};

verus! {

/// How a note is addressed in a wikilink: its path without the `.md`.
pub open spec fn link_target_text(dst: Seq<char>) -> Seq<char> {
    if dst.len() >= 3 && dst.skip(dst.len() - 3) == ".md"@ {
        dst.take(dst.len() - 3)
    } else {
        dst
    }
}

/// Not the bare stem: two notes called `Index.md` in different folders are
/// normal, and a path-qualified link is unambiguous.
pub fn link_target(dst_path: &str) -> (r: String)
    ensures
        r@ == link_target_text(dst_path@),
{
    proof {
        reveal_strlit(".md");
    }
    let cs = chars_of(dst_path);
    let n = cs.len();
    if n >= 3 && cs[n - 3] == '.' && cs[n - 2] == 'm' && cs[n - 1] == 'd' {
        assert(cs@.skip(n - 3) =~= ".md"@);
        let head = slice_of(cs.as_slice(), 0, n - 3);
        assert(head@ =~= cs@.take(n - 3));
        string_of(head.as_slice())
    } else {
        proof {
            if n >= 3 && cs@.skip(n - 3) == ".md"@ {
                assert(cs@.skip(n - 3)[0] == '.');
                assert(cs@.skip(n - 3)[1] == 'm');
                assert(cs@.skip(n - 3)[2] == 'd');
            }
        }
        string_of(cs.as_slice())
    }
}

pub open spec fn related_heading() -> Seq<char> {
    "## Related"@
}

/// `[[target]]`.
pub open spec fn link_text(target: Seq<char>) -> Seq<char> {
    seq!['[', '['] + target + seq![']', ']']
}

/// Where the section starting before `i` ends: the first `\n` at or after `i`
/// that a heading follows, or the end of the text.
pub open spec fn section_end(t: Seq<char>, i: int) -> int
    decreases t.len() - i,
{
    if i < 0 || i >= t.len() {
        t.len() as int
    } else if t[i] == '\n' && i + 1 < t.len() && t[i + 1] == '#' {
        i
    } else {
        section_end(t, i + 1)
    }
}

/// Leading newlines removed.
pub open spec fn strip_newlines(t: Seq<char>) -> Seq<char>
    decreases t.len(),
{
    if t.len() > 0 && t[0] == '\n' {
        strip_newlines(t.drop_first())
    } else {
        t
    }
}

/// The separator before a new `## Related` section: exactly one blank line,
/// whatever the note ended with.
pub open spec fn section_sep(t: Seq<char>) -> Seq<char> {
    if t.len() == 0 || (t.len() >= 2 && t[t.len() - 1] == '\n' && t[t.len() - 2] == '\n') {
        seq![]
    } else if t.last() == '\n' {
        seq!['\n']
    } else {
        seq!['\n', '\n']
    }
}

/// The note with `[[target]]` added under `## Related`: at the end of an
/// existing section, or in a new section at the end; unchanged when the link
/// is already anywhere in the note.
pub open spec fn with_link(text: Seq<char>, target: Seq<char>) -> Seq<char> {
    let link = link_text(target);
    if contains_seq(text, link) {
        text
    } else {
        match first_occurrence(text, related_heading(), 0) {
            Some(at) => {
                let end = section_end(text, at + related_heading().len());
                let head = text.take(end);
                let sep = if head.len() > 0 && head.last() == '\n' {
                    seq![]
                } else {
                    seq!['\n']
                };
                head + sep + seq!['-', ' '] + link + seq!['\n'] + strip_newlines(text.skip(end))
            },
            None => text + section_sep(text) + related_heading() + seq!['\n', '\n', '-', ' ']
                + link + seq!['\n'],
        }
    }
}

proof fn lemma_section_end(t: Seq<char>, i: int)
    requires
        0 <= i,
    ensures
        i <= section_end(t, i) <= t.len() || (i > t.len() && section_end(t, i) == t.len()),
    decreases t.len() - i,
{
    if 0 <= i < t.len() && !(t[i] == '\n' && i + 1 < t.len() && t[i + 1] == '#') {
        lemma_section_end(t, i + 1);
    }
}

fn find_section_end(t: &[char], from: usize) -> (r: usize)
    requires
        from <= t.len(),
    ensures
        r == section_end(t@, from as int),
        from <= r <= t.len(),
{
    proof {
        lemma_section_end(t@, from as int);
    }
    let mut i = from;
    while i < t.len()
        invariant
            from <= i <= t.len(),
            section_end(t@, from as int) == section_end(t@, i as int),
        decreases t.len() - i,
    {
        if t[i] == '\n' && i + 1 < t.len() && t[i + 1] == '#' {
            return i;
        }
        i = i + 1;
    }
    i
}

fn strip_leading_newlines(t: &[char], from: usize) -> (r: Vec<char>)
    requires
        from <= t.len(),
    ensures
        r@ == strip_newlines(t@.skip(from as int)),
{
    let mut i = from;
    while i < t.len() && t[i] == '\n'
        invariant
            from <= i <= t.len(),
            strip_newlines(t@.skip(from as int)) == strip_newlines(t@.skip(i as int)),
        decreases t.len() - i,
    {
        assert(t@.skip(i as int).drop_first() =~= t@.skip(i + 1));
        i = i + 1;
    }
    let r = slice_of(t, i, t.len());
    assert(r@ =~= t@.skip(i as int));
    r
}

/// Add `[[target]]` under a `## Related` heading, creating the heading if
/// there isn't one: a named section says what the links are, and gives the
/// user one thing to delete if they change their mind.
pub fn with_related_link(text: &str, target: &str) -> (r: String)
    ensures
        r@ == with_link(text@, target@),
        contains_seq(r@, link_text(target@)),
{
    let t = chars_of(text);
    let tg = chars_of(target);
    let mut link: Vec<char> = Vec::new();
    link.push('[');
    link.push('[');
    extend(&mut link, tg.as_slice());
    link.push(']');
    link.push(']');
    assert(link@ =~= link_text(target@));
    proof {
        lemma_contains_iff_found(t@, link@);
    }
    if find_from(t.as_slice(), link.as_slice(), 0).is_some() {
        return string_of(t.as_slice());
    }
    let h = lit("## Related");
    proof {
        lemma_first_occurrence(t@, h@, 0);
    }
    let mut out: Vec<char> = Vec::new();
    match find_from(t.as_slice(), h.as_slice(), 0) {
        Some(at) => {
            assert(at + h@.len() <= t@.len() && t@.len() == t.len());
            let end = find_section_end(t.as_slice(), at + h.len());
            let head = slice_of(t.as_slice(), 0, end);
            assert(head@ =~= t@.take(end as int));
            extend(&mut out, head.as_slice());
            if !(end > 0 && t[end - 1] == '\n') {
                out.push('\n');
            }
            out.push('-');
            out.push(' ');
            extend(&mut out, link.as_slice());
            out.push('\n');
            let tail = strip_leading_newlines(t.as_slice(), end);
            extend(&mut out, tail.as_slice());
            assert(out@ =~= with_link(text@, target@));
        },
        None => {
            let n = t.len();
            extend(&mut out, t.as_slice());
            if n == 0 || (n >= 2 && t[n - 1] == '\n' && t[n - 2] == '\n') {
            } else if t[n - 1] == '\n' {
                out.push('\n');
            } else {
                out.push('\n');
                out.push('\n');
            }
            extend(&mut out, h.as_slice());
            out.push('\n');
            out.push('\n');
            out.push('-');
            out.push(' ');
            extend(&mut out, link.as_slice());
            out.push('\n');
            assert(out@ =~= with_link(text@, target@));
        },
    }
    proof {
        lemma_with_link_contains(text@, target@);
    }
    string_of(out.as_slice())
}

/// Whatever the note held, the link is in it afterwards.
pub proof fn lemma_with_link_contains(text: Seq<char>, target: Seq<char>)
    ensures
        contains_seq(with_link(text, target), link_text(target)),
{
    let link = link_text(target);
    let r = with_link(text, target);
    if !contains_seq(text, link) {
        lemma_first_occurrence(text, related_heading(), 0);
        match first_occurrence(text, related_heading(), 0) {
            Some(at) => {
                let end = section_end(text, at + related_heading().len());
                lemma_section_end(text, at + related_heading().len());
                let head = text.take(end);
                let sep: Seq<char> = if head.len() > 0 && head.last() == '\n' {
                    seq![]
                } else {
                    seq!['\n']
                };
                let pos: int = (head.len() + sep.len() + 2) as int;
                assert(r.subrange(pos, pos + link.len()) =~= link);
                assert(occurs_at(r, link, pos));
            },
            None => {
                let pos: int = (text.len() + section_sep(text).len() + related_heading().len() + 4) as int;
                assert(r.subrange(pos, pos + link.len()) =~= link);
                assert(occurs_at(r, link, pos));
            },
        }
    }
}

/// Adding a link is idempotent: adding the same link a second time leaves
/// the note exactly as the first time left it.
pub proof fn law_adding_a_link_twice_is_adding_it_once(text: Seq<char>, target: Seq<char>)
    ensures
        with_link(with_link(text, target), target) == with_link(text, target),
{
    lemma_with_link_contains(text, target);
}

/// Adding a link keeps what the note held: a note that already has the link
/// is left exactly as it was, and a note without a `## Related` section keeps
/// all its text in front, with the section after it.
pub proof fn law_adding_a_link_keeps_what_was_there(text: Seq<char>, target: Seq<char>)
    ensures
        contains_seq(text, link_text(target)) ==> with_link(text, target) == text,
        !contains_seq(text, related_heading()) ==> {
            let r = with_link(text, target);
            &&& text.len() <= r.len()
            &&& r.take(text.len() as int) == text
            &&& (!contains_seq(text, link_text(target)) ==> contains_seq(r, related_heading()))
        },
{
    crate::chars::lemma_contains_iff_found(text, related_heading());
    let r = with_link(text, target);
    if !contains_seq(text, related_heading()) && !contains_seq(text, link_text(target)) {
        assert(r.take(text.len() as int) =~= text);
        let pos: int = (text.len() + section_sep(text).len()) as int;
        assert(r.subrange(pos, pos + related_heading().len()) =~= related_heading());
        assert(occurs_at(r, related_heading(), pos));
    }
    if contains_seq(text, link_text(target)) {
        assert(r.take(text.len() as int) =~= text);
    }
}

/// How long the link daemon sleeps after a pass, in quarter-second slices:
/// what the pass owes to stay within its CPU budget and, when nothing remains
/// or the pass was stopped early, the interval as well (never under five
/// seconds). Never less than one slice, so a stop request is always seen.
pub open spec fn pause_of(remaining: u64, stopped: bool, owed_ms: u64, interval_secs: u64) -> int {
    let interval = if interval_secs < 5 {
        5
    } else {
        interval_secs as int
    };
    let owed = owed_ms / 250;
    let slices = if remaining > 0 && !stopped {
        owed as int
    } else {
        owed + interval * 4
    };
    if slices < 1 {
        1
    } else {
        slices
    }
}

pub fn pause_slices(remaining: u64, stopped: bool, owed_ms: u64, interval_secs: u64) -> (r: u64)
    requires
        owed_ms / 250 + (if interval_secs < 5 {
            5
        } else {
            interval_secs as int
        }) * 4 <= u64::MAX,
    ensures
        r == pause_of(remaining, stopped, owed_ms, interval_secs),
{
    let interval: u64 = if interval_secs < 5 {
        5
    } else {
        interval_secs
    };
    let owed = owed_ms / 250;
    let slices = if remaining > 0 && !stopped {
        owed
    } else {
        owed + interval * 4
    };
    if slices < 1 {
        1
    } else {
        slices
    }
}


proof fn lemma_section_end_at_newline(t: Seq<char>, i: int)
    requires
        0 <= i,
        section_end(t, i) < t.len(),
    ensures
        t[section_end(t, i)] == '\n',
    decreases t.len() - i,
{
    if 0 <= i < t.len() && !(t[i] == '\n' && i + 1 < t.len() && t[i + 1] == '#') {
        lemma_section_end_at_newline(t, i + 1);
    }
}

/// The heading's characters, none of which is a newline, `-`, `[` or `]`.
proof fn lemma_heading_chars()
    ensures
        related_heading().len() == 10,
        not_in('\n', related_heading()),
        not_in('-', related_heading()),
        not_in('[', related_heading()),
        not_in(']', related_heading()),
{
    reveal_strlit("## Related");
}

/// Leading newlines hold no heading.
proof fn lemma_strip_places(t: Seq<char>)
    ensures
        places(strip_newlines(t), related_heading()) == places(t, related_heading()),
    decreases t.len(),
{
    let h = related_heading();
    lemma_heading_chars();
    if t.len() > 0 && t[0] == '\n' {
        lemma_strip_places(t.drop_first());
        let a = seq!['\n'];
        assert(a + t.drop_first() =~= t);
        lemma_no_straddle(a, t.drop_first(), h);
        lemma_places_concat(a, t.drop_first(), h);
        lemma_places_short(a, h);
    }
}

/// The line added for a link holds no heading, and no heading straddles its
/// ends: it starts with a newline or `- ` and ends with `]]` and a newline.
proof fn lemma_link_line_places(lead: Seq<char>, target: Seq<char>)
    requires
        lead.len() <= 4,
        !contains_seq(target, related_heading()),
    ensures
        places(lead + link_text(target) + seq!['\n'], related_heading()) == 0,
{
    let h = related_heading();
    lemma_heading_chars();
    let open = lead + seq!['[', '['];
    let close = seq![']', ']', '\n'];
    assert(lead + link_text(target) + seq!['\n'] =~= open + (target + close));
    lemma_no_straddle(target, close, h);
    lemma_places_concat(target, close, h);
    lemma_places_short(close, h);
    lemma_places_zero(target, h);
    lemma_no_straddle(open, target + close, h);
    lemma_places_concat(open, target + close, h);
    lemma_places_short(open, h);
}

/// Adding a link never leaves more than one new `## Related` heading: a note
/// that had the heading keeps exactly as many as it had, and a note without
/// one gains exactly one. (The target itself names no heading.)
pub proof fn law_a_link_lands_under_one_related_heading(text: Seq<char>, target: Seq<char>)
    requires
        !contains_seq(target, related_heading()),
        !contains_seq(text, link_text(target)),
    ensures
        places(with_link(text, target), related_heading()) == if places(text, related_heading()) == 0 {
            1
        } else {
            places(text, related_heading())
        },
{
    let h = related_heading();
    let link = link_text(target);
    let r = with_link(text, target);
    lemma_heading_chars();
    lemma_places_zero(text, h);
    crate::chars::lemma_contains_iff_found(text, h);
    lemma_first_occurrence(text, h, 0);
    match first_occurrence(text, h, 0) {
        Some(at) => {
            let end = section_end(text, at + h.len());
            lemma_section_end(text, at + h.len());
            let head = text.take(end);
            let tail = text.skip(end);
            let sep: Seq<char> = if head.len() > 0 && head.last() == '\n' {
                seq![]
            } else {
                seq!['\n']
            };
            let line = sep + seq!['-', ' '] + link + seq!['\n'];
            let rest = strip_newlines(tail);
            assert(r =~= head + (line + rest));
            // The note splits at the section's end without cutting a heading.
            assert(text =~= head + tail);
            if end < text.len() {
                lemma_section_end_at_newline(text, at + h.len());
                assert(tail[0] == '\n');
            }
            lemma_no_straddle(head, tail, h);
            lemma_places_concat(head, tail, h);
            lemma_strip_places(tail);
            // The added line holds none and joins cleanly on both sides.
            lemma_link_line_places(sep + seq!['-', ' '], target);
            assert(line[0] == '\n' || line[0] == '-');
            assert(line.last() == '\n');
            lemma_no_straddle(line, rest, h);
            lemma_places_concat(line, rest, h);
            lemma_no_straddle(head, line + rest, h);
            lemma_places_concat(head, line + rest, h);
        },
        None => {
            let sep = section_sep(text);
            let after = seq!['\n', '\n', '-', ' '] + link + seq!['\n'];
            assert(r =~= text + (sep + (h + after)));
            lemma_link_line_places(seq!['\n', '\n', '-', ' '], target);
            lemma_no_straddle(h, after, h);
            lemma_places_concat(h, after, h);
            lemma_places_exactly_first(h);
            lemma_places_short(sep, h);
            if sep.len() > 0 {
                lemma_no_straddle(sep, h + after, h);
            }
            lemma_places_concat(sep, h + after, h);
            if sep.len() > 0 {
                lemma_no_straddle(text, sep + (h + after), h);
            } else if text.len() > 0 {
                assert(text.last() == '\n');
                lemma_no_straddle(text, sep + (h + after), h);
            }
            lemma_places_concat(text, sep + (h + after), h);
        },
    }
}

/// A text occurs in itself only at its start.
proof fn lemma_places_exactly_first(h: Seq<char>)
    requires
        h.len() > 0,
    ensures
        places(h, h) == 1,
{
    lemma_places_none(h, h, 0);
    lemma_places_tail(h, h.len() as int);
}

proof fn lemma_places_tail(h: Seq<char>, n: int)
    requires
        1 <= n <= h.len(),
    ensures
        places_upto(h, h, n) == 1,
    decreases n,
{
    if n > 1 {
        lemma_places_tail(h, n - 1);
        assert(!occurs_at(h, h, n - 1));
    } else {
        assert(h.subrange(0, h.len() as int) =~= h);
        assert(places_upto(h, h, 0) == 0);
        assert(occurs_at(h, h, 0));
    }
}

} // verus!
