//! Byte fidelity: reading a vault file without losing how it was written.
//!
//! A [`NoteText`] carries the text an editor sees, normalised to `\n`, and the
//! evidence needed to write it back the way it was found. Unchanged text
//! re-encodes to the original bytes verbatim; changed text re-encodes with the
//! file's own dominant line ending and byte-order mark.
use vstd::prelude::*;
use vstd::utf8::*;
use crate::hash::{tagged_hash, tagged_hash_of};
use crate::text::{lemma_ascii_boundary, ob, push_slice, sb, str_eq, utf8_str};

verus! {

broadcast use vstd::utf8::encode_utf8_valid_utf8;

/// The UTF-8 byte-order mark.
pub open spec fn bom() -> Seq<u8> {
    seq![0xEFu8, 0xBBu8, 0xBFu8]
}

pub open spec fn starts_with_bom(b: Seq<u8>) -> bool {
    b.len() >= 3 && b[0] == 0xEFu8 && b[1] == 0xBBu8 && b[2] == 0xBFu8
}

/// The bytes after the byte-order mark, if there is one.
pub open spec fn body_of(b: Seq<u8>) -> Seq<u8> {
    if starts_with_bom(b) {
        b.subrange(3, b.len() as int)
    } else {
        b
    }
}

/// Byte `i` is a carriage return opening a CRLF pair.
pub open spec fn is_crlf_at(b: Seq<u8>, i: int) -> bool {
    0 <= i && i + 1 < b.len() && b[i] == 13u8 && b[i + 1] == 10u8
}

/// Byte `i` is a line feed that does not close a CRLF pair.
pub open spec fn is_lone_lf_at(b: Seq<u8>, i: int) -> bool {
    0 <= i < b.len() && b[i] == 10u8 && !(i > 0 && b[i - 1] == 13u8)
}

/// CRLF pairs opening among the first `n` bytes.
pub open spec fn count_crlf(b: Seq<u8>, n: int) -> nat
    decreases n,
{
    if n <= 0 {
        0
    } else {
        count_crlf(b, n - 1) + if is_crlf_at(b, n - 1) { 1nat } else { 0nat }
    }
}

/// Lone line feeds among the first `n` bytes.
pub open spec fn count_lone_lf(b: Seq<u8>, n: int) -> nat
    decreases n,
{
    if n <= 0 {
        0
    } else {
        count_lone_lf(b, n - 1) + if is_lone_lf_at(b, n - 1) { 1nat } else { 0nat }
    }
}

/// The first `n` bytes with the carriage return of every CRLF pair removed.
pub open spec fn collapse_upto(b: Seq<u8>, n: int) -> Seq<u8>
    decreases n,
{
    if n <= 0 {
        seq![]
    } else if is_crlf_at(b, n - 1) {
        collapse_upto(b, n - 1)
    } else {
        collapse_upto(b, n - 1).push(b[n - 1])
    }
}

/// `\r\n` replaced by `\n` throughout.
pub open spec fn collapse_crlf(b: Seq<u8>) -> Seq<u8> {
    collapse_upto(b, b.len() as int)
}

/// Every `\n` written as `\r\n`.
pub open spec fn expand_lf(b: Seq<u8>) -> Seq<u8>
    decreases b.len(),
{
    if b.len() == 0 {
        seq![]
    } else if b.last() == 10u8 {
        expand_lf(b.drop_last()) + seq![13u8, 10u8]
    } else {
        expand_lf(b.drop_last()).push(b.last())
    }
}

#[derive(Debug, Clone, Copy, PartialEq, Eq, Structural)]
pub enum LineEnding {
    Lf,
    Crlf,
}

impl LineEnding {
    pub fn as_str(self) -> (r: &'static str)
        ensures
            r@ == (match self {
                LineEnding::Lf => seq!['\n'],
                LineEnding::Crlf => seq!['\r', '\n'],
            }),
    {
        match self {
            LineEnding::Lf => {
                proof {
                    reveal_strlit("\n");
                }
                "\n"
            },
            LineEnding::Crlf => {
                proof {
                    reveal_strlit("\r\n");
                }
                "\r\n"
            },
        }
    }
}

/// What a [`FileFidelity`] records.
pub struct FidelityModel {
    pub dominant: LineEnding,
    pub mixed: bool,
    pub had_bom: bool,
    pub ends_with_newline: bool,
    pub original: Seq<u8>,
}

/// How a file was written, recorded at read time so it can be reproduced.
#[derive(Debug, Clone)]
pub struct FileFidelity {
    dominant: LineEnding,
    mixed: bool,
    had_bom: bool,
    ends_with_newline: bool,
    original: Vec<u8>,
}

impl View for FileFidelity {
    type V = FidelityModel;

    closed spec fn view(&self) -> FidelityModel {
        FidelityModel {
            dominant: self.dominant,
            mixed: self.mixed,
            had_bom: self.had_bom,
            ends_with_newline: self.ends_with_newline,
            original: self.original@,
        }
    }
}

impl FileFidelity {
    /// The ending used for the majority of line breaks.
    pub fn line_ending(&self) -> (r: LineEnding)
        ensures
            r == self@.dominant,
    {
        self.dominant
    }

    /// Whether the file mixes CRLF and lone LF.
    pub fn is_mixed(&self) -> (r: bool)
        ensures
            r == self@.mixed,
    {
        self.mixed
    }

    pub fn had_bom(&self) -> (r: bool)
        ensures
            r == self@.had_bom,
    {
        self.had_bom
    }

    pub fn ends_with_newline(&self) -> (r: bool)
        ensures
            r == self@.ends_with_newline,
    {
        self.ends_with_newline
    }
}

/// What a [`NoteText`] holds: the normalised text and its fidelity record.
pub struct NoteModel {
    pub text: Seq<char>,
    pub fidelity: FidelityModel,
}

/// A note's text, normalised to `\n`, plus what is needed to write it back.
#[derive(Debug, Clone)]
pub struct NoteText {
    text: String,
    fidelity: FileFidelity,
}

impl View for NoteText {
    type V = NoteModel;

    closed spec fn view(&self) -> NoteModel {
        NoteModel { text: self.text@, fidelity: self.fidelity@ }
    }
}

/// `m` is what decoding `b` records.
pub open spec fn decoded_from(b: Seq<u8>, m: NoteModel) -> bool {
    let body = body_of(b);
    let crlf = count_crlf(body, body.len() as int);
    let lone = count_lone_lf(body, body.len() as int);
    &&& encode_utf8(m.text) == collapse_crlf(body)
    &&& m.fidelity.original == b
    &&& m.fidelity.had_bom == starts_with_bom(b)
    &&& m.fidelity.dominant == (if crlf > lone {
        LineEnding::Crlf
    } else {
        LineEnding::Lf
    })
    &&& m.fidelity.mixed == (crlf > 0 && lone > 0)
    &&& m.fidelity.ends_with_newline == (collapse_crlf(body).len() > 0
        && collapse_crlf(body).last() == 10u8)
}

/// The bytes a changed text is written as: the file's BOM, then the text in
/// the file's dominant line ending.
pub open spec fn reconstruct(f: FidelityModel, text: Seq<char>) -> Seq<u8> {
    (if f.had_bom {
        bom()
    } else {
        seq![]
    }) + match f.dominant {
        LineEnding::Lf => encode_utf8(text),
        LineEnding::Crlf => expand_lf(encode_utf8(text)),
    }
}

/// The bytes written for `text`: the original bytes when nothing changed.
pub open spec fn encode_spec(m: NoteModel, text: Seq<char>) -> Seq<u8> {
    if text == m.text {
        m.fidelity.original
    } else {
        reconstruct(m.fidelity, text)
    }
}

proof fn lemma_counts_bounded(b: Seq<u8>, n: int)
    requires
        0 <= n,
    ensures
        count_crlf(b, n) <= n,
        count_lone_lf(b, n) <= n,
    decreases n,
{
    if n > 0 {
        lemma_counts_bounded(b, n - 1);
    }
}

impl NoteText {
    /// Decode raw file bytes; `None` for bytes that are not UTF-8 after the BOM.
    pub fn decode(bytes: &[u8]) -> (r: Option<NoteText>)
        ensures
            r is Some <==> valid_utf8(body_of(bytes@)),
            r matches Some(n) ==> decoded_from(bytes@, n@),
    {
        let had_bom = bytes.len() >= 3 && bytes[0] == 0xEFu8 && bytes[1] == 0xBBu8 && bytes[2]
            == 0xBFu8;
        let body_bytes = if had_bom {
            vstd::slice::slice_subrange(bytes, 3, bytes.len())
        } else {
            bytes
        };
        assert(body_bytes@ =~= body_of(bytes@));
        let raw = match utf8_str(body_bytes) {
            Some(s) => s,
            None => return None,
        };
        let b = raw.as_bytes();
        let ghost body = b@;
        let mut crlf: usize = 0;
        let mut lone: usize = 0;
        let mut text = String::new();
        let mut last: usize = 0;
        let mut i: usize = 0;
        proof {
            is_char_boundary_start_end_of_seq(body);
            assert(ob(text) + body.subrange(0, 0) =~= collapse_upto(body, 0));
        }
        while i < b.len()
            invariant
                b@ == body,
                body == sb(raw),
                valid_utf8(body),
                0 <= last <= i <= b.len(),
                crlf == count_crlf(body, i as int),
                lone == count_lone_lf(body, i as int),
                ob(text) + body.subrange(last as int, i as int) == collapse_upto(body, i as int),
                is_char_boundary(body, last as int),
            decreases b.len() - i,
        {
            proof {
                lemma_counts_bounded(body, i as int);
            }
            if b[i] == 13u8 && i + 1 < b.len() && b[i + 1] == 10u8 {
                proof {
                    lemma_ascii_boundary(body, i as int);
                    lemma_ascii_boundary(body, i + 1);
                }
                push_slice(&mut text, raw, last, i);
                crlf = crlf + 1;
                last = i + 1;
                proof {
                    assert(body.subrange(last as int, i + 1) =~= Seq::<u8>::empty());
                    assert(ob(text) + body.subrange(last as int, i + 1) =~= ob(text));
                }
            } else {
                if b[i] == 10u8 && !(i > 0 && b[i - 1] == 13u8) {
                    lone = lone + 1;
                }
                proof {
                    assert(body.subrange(last as int, i + 1) =~= body.subrange(
                        last as int,
                        i as int,
                    ).push(body[i as int]));
                }
            }
            i = i + 1;
        }
        proof {
            lemma_ascii_boundary(body, body.len() as int);
        }
        push_slice(&mut text, raw, last, b.len());
        let tb = text.as_str().as_bytes();
        let ends_with_newline = tb.len() > 0 && tb[tb.len() - 1] == 10u8;
        let fidelity = FileFidelity {
            dominant: if crlf > lone {
                LineEnding::Crlf
            } else {
                LineEnding::Lf
            },
            mixed: crlf > 0 && lone > 0,
            had_bom,
            ends_with_newline,
            original: vstd::slice::slice_to_vec(bytes),
        };
        Some(NoteText { text, fidelity })
    }

    /// The normalised text.
    pub fn text(&self) -> (r: &str)
        ensures
            r@ == self@.text,
    {
        self.text.as_str()
    }

    pub fn fidelity(&self) -> (r: &FileFidelity)
        ensures
            r@ == self@.fidelity,
    {
        &self.fidelity
    }

    /// Bytes to write for `new_text`.
    pub fn encode(&self, new_text: &str) -> (r: Vec<u8>)
        ensures
            r@ == encode_spec(self@, new_text@),
    {
        if str_eq(new_text, self.text.as_str()) {
            return vstd::slice::slice_to_vec(self.fidelity.original.as_slice());
        }
        let t = new_text.as_bytes();
        let crlf = match self.fidelity.dominant {
            LineEnding::Crlf => true,
            LineEnding::Lf => false,
        };
        let mut out: Vec<u8> = Vec::new();
        if self.fidelity.had_bom {
            out.push(0xEFu8);
            out.push(0xBBu8);
            out.push(0xBFu8);
        }
        let ghost head = out@;
        let mut i: usize = 0;
        while i < t.len()
            invariant
                t@ == sb(new_text),
                0 <= i <= t.len(),
                head == (if self@.fidelity.had_bom {
                    bom()
                } else {
                    seq![]
                }),
                crlf == (self@.fidelity.dominant == LineEnding::Crlf),
                out@ == head + (if crlf {
                    expand_lf(t@.take(i as int))
                } else {
                    t@.take(i as int)
                }),
            decreases t.len() - i,
        {
            assert(t@.take(i + 1).drop_last() =~= t@.take(i as int));
            if crlf && t[i] == 10u8 {
                out.push(13u8);
                out.push(10u8);
            } else {
                out.push(t[i]);
            }
            i = i + 1;
            assert(out@ =~= head + (if crlf {
                expand_lf(t@.take(i as int))
            } else {
                t@.take(i as int)
            }));
        }
        assert(t@.take(t.len() as int) =~= t@);
        out
    }

    /// Content hash of the normalised text: `blake3:<hex>`.
    pub fn content_hash(&self) -> (r: String)
        ensures
            r@ == tagged_hash(encode_utf8(self@.text)),
    {
        tagged_hash_of(self.text.as_str().as_bytes())
    }
}


proof fn lemma_no_crlf_is_identity(b: Seq<u8>, n: int)
    requires
        0 <= n <= b.len(),
        count_crlf(b, n) == 0,
    ensures
        collapse_upto(b, n) == b.take(n),
    decreases n,
{
    if n > 0 {
        lemma_no_crlf_is_identity(b, n - 1);
        assert(b.take(n) =~= b.take(n - 1).push(b[n - 1]));
    }
}

proof fn lemma_no_lone_lf_expands_back(b: Seq<u8>, n: int)
    requires
        0 <= n <= b.len(),
        count_lone_lf(b, n) == 0,
        !(n > 0 && is_crlf_at(b, n - 1)),
    ensures
        expand_lf(collapse_upto(b, n)) == b.take(n),
    decreases n,
{
    if n > 0 {
        if n >= 2 && is_crlf_at(b, n - 2) {
            assert(count_lone_lf(b, n - 1) == 0);
            assert(count_lone_lf(b, n - 2) == 0);
            lemma_no_lone_lf_expands_back(b, n - 2);
            let p = collapse_upto(b, n - 2);
            assert(collapse_upto(b, n - 1) == p);
            assert(b[n - 1] == 10u8);
            assert(collapse_upto(b, n) == p.push(10u8));
            assert(p.push(10u8).drop_last() =~= p);
            assert(b.take(n) =~= b.take(n - 2) + seq![13u8, 10u8]);
        } else {
            lemma_no_lone_lf_expands_back(b, n - 1);
            let p = collapse_upto(b, n - 1);
            assert(p.push(b[n - 1]).drop_last() =~= p);
            assert(!is_lone_lf_at(b, n - 1));
            assert(b.take(n) =~= b.take(n - 1).push(b[n - 1]));
        }
    }
}

/// Unchanged text re-encodes to exactly the bytes it was decoded from.
pub proof fn law_unchanged_text_reencodes_verbatim(b: Seq<u8>, m: NoteModel)
    requires
        decoded_from(b, m),
    ensures
        encode_spec(m, m.text) == b,
{
}

/// For a file that does not mix CRLF and lone LF, the recorded conventions
/// are enough on their own: rebuilding the decoded text with them gives back
/// the original bytes, so an edit that is later undone cannot drift.
pub proof fn law_conventions_rebuild_an_unmixed_file(b: Seq<u8>, m: NoteModel)
    requires
        decoded_from(b, m),
        !m.fidelity.mixed,
    ensures
        reconstruct(m.fidelity, m.text) == b,
{
    let body = body_of(b);
    let n = body.len() as int;
    assert(body.take(n) =~= body);
    if m.fidelity.dominant == LineEnding::Lf {
        lemma_no_crlf_is_identity(body, n);
    } else {
        lemma_no_lone_lf_expands_back(body, n);
    }
    if starts_with_bom(b) {
        assert(bom() + b.subrange(3, b.len() as int) =~= b);
    } else {
        assert(Seq::<u8>::empty() + b =~= b);
    }
}

} // verus!
