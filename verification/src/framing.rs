//! The mathematical model of CRLF line framing.
//!
//! A stream is a sequence of bytes. Its first line runs up to the first
//! CR LF pair; when no pair occurs, the whole stream is one unterminated
//! line. Reading a line consumes its content bytes plus the two terminator
//! bytes when a terminator was found.

use vstd::prelude::*;
use vstd::utf8::*;

verus! {

/// The carriage-return byte of the terminator.
pub open spec fn cr() -> u8 {
    13u8
}

/// The line-feed byte of the terminator.
pub open spec fn lf() -> u8 {
    10u8
}

/// The two-byte line terminator CR LF.
pub open spec fn crlf() -> Seq<u8> {
    seq![cr(), lf()]
}

/// True when the terminator pair stands wholly inside `s` at index `i`.
pub open spec fn is_crlf_at(s: Seq<u8>, i: int) -> bool {
    &&& 0 <= i
    &&& i + 1 < s.len()
    &&& s[i] == cr()
    &&& s[i + 1] == lf()
}

/// Length of the first line of `s`: the index of the first terminator pair,
/// or the length of `s` when no pair occurs.
pub open spec fn line_len(s: Seq<u8>) -> nat
    decreases s.len(),
{
    if s.len() < 2 {
        s.len()
    } else if s[0] == cr() && s[1] == lf() {
        0
    } else {
        (1 + line_len(s.skip(1))) as nat
    }
}

/// True when the first line of `s` ends in a terminator inside `s`.
pub open spec fn terminator_found(s: Seq<u8>) -> bool {
    line_len(s) < s.len()
}

/// The content bytes of the first line of `s`, terminator excluded.
pub open spec fn line_content(s: Seq<u8>) -> Seq<u8> {
    s.take(line_len(s) as int)
}

/// How many raw bytes reading the first line of `s` consumes: the content,
/// plus the two terminator bytes when a terminator was found.
pub open spec fn consumed_len(s: Seq<u8>) -> nat {
    line_len(s) + (if terminator_found(s) {
        2nat
    } else {
        0nat
    })
}

/// What remains of `s` once its first line has been consumed.
pub open spec fn rest_after_line(s: Seq<u8>) -> Seq<u8> {
    s.skip(consumed_len(s) as int)
}

/// The first line's length bounds and the two facts that pin it down:
/// a terminator stands exactly at `line_len(s)` when one was found, and
/// no terminator stands before it.
pub proof fn lemma_line_len_spec(s: Seq<u8>)
    ensures
        line_len(s) <= s.len(),
        terminator_found(s) ==> line_len(s) + 2 <= s.len() && is_crlf_at(s, line_len(s) as int),
        forall|j: int| 0 <= j < line_len(s) ==> !is_crlf_at(s, j),
    decreases s.len(),
{
    if s.len() < 2 {
    } else if s[0] == cr() && s[1] == lf() {
    } else {
        let t = s.skip(1);
        lemma_line_len_spec(t);
        assert(line_len(s) == 1 + line_len(t));
        if terminator_found(s) {
            let i = line_len(t) as int;
            assert(t[i] == s[i + 1]);
            assert(t[i + 1] == s[i + 2]);
            assert(is_crlf_at(s, line_len(s) as int));
        }
        assert forall|j: int| 0 <= j < line_len(s) implies !is_crlf_at(s, j) by {
            if j == 0 {
                assert(!(s[0] == cr() && s[1] == lf()));
            } else if is_crlf_at(s, j) {
                assert(t[j - 1] == s[j]);
                assert(t[j] == s[j + 1]);
                assert(is_crlf_at(t, j - 1));
            }
        }
    }
}

/// The first line ends exactly at the first terminator: when a terminator
/// stands at `i` and none stands earlier, the line length is `i`.
pub proof fn lemma_line_len_at_first_crlf(s: Seq<u8>, i: int)
    requires
        is_crlf_at(s, i),
        forall|j: int| 0 <= j < i ==> !is_crlf_at(s, j),
    ensures
        line_len(s) == i,
    decreases s.len(),
{
    if i == 0 {
    } else {
        let t = s.skip(1);
        assert(!is_crlf_at(s, 0));
        assert(!(s[0] == cr() && s[1] == lf()));
        assert(t[i - 1] == s[i]);
        assert(t[i] == s[i + 1]);
        assert(is_crlf_at(t, i - 1));
        assert forall|j: int| 0 <= j < i - 1 implies !is_crlf_at(t, j) by {
            if is_crlf_at(t, j) {
                assert(t[j] == s[j + 1]);
                assert(t[j + 1] == s[j + 2]);
                assert(is_crlf_at(s, j + 1));
            }
        }
        lemma_line_len_at_first_crlf(t, i - 1);
    }
}

/// A stream with no terminator anywhere is one single line.
pub proof fn lemma_line_len_no_crlf(s: Seq<u8>)
    requires
        forall|j: int| !is_crlf_at(s, j),
    ensures
        line_len(s) == s.len(),
    decreases s.len(),
{
    if s.len() < 2 {
    } else {
        let t = s.skip(1);
        assert(!is_crlf_at(s, 0));
        assert forall|j: int| !is_crlf_at(t, j) by {
            if 0 <= j && j + 1 < t.len() {
                assert(t[j] == s[j + 1]);
                assert(t[j + 1] == s[j + 2]);
                assert(!is_crlf_at(s, j + 1));
            }
        }
        lemma_line_len_no_crlf(t);
    }
}

/// Inside a prefix, a terminator is a terminator of the whole stream too.
pub proof fn lemma_crlf_in_prefix(w: Seq<u8>, r: Seq<u8>, j: int)
    requires
        0 <= j,
        j + 1 < w.len(),
    ensures
        is_crlf_at(w + r, j) <==> is_crlf_at(w, j),
{
    assert((w + r)[j] == w[j]);
    assert((w + r)[j + 1] == w[j + 1]);
}

/// Skipping within the first part of a concatenation keeps the second part.
pub proof fn lemma_skip_concat(w: Seq<u8>, r: Seq<u8>, k: int)
    requires
        0 <= k <= w.len(),
    ensures
        (w + r).skip(k) == w.skip(k) + r,
{
    assert((w + r).skip(k) =~= w.skip(k) + r);
}

/// Reading a line from a non-empty stream consumes at least one byte and
/// never more than the stream holds.
pub proof fn lemma_consumed_bounds(s: Seq<u8>)
    ensures
        consumed_len(s) <= s.len(),
        s.len() > 0 ==> consumed_len(s) >= 1,
{
    lemma_line_len_spec(s);
}

/// True when no byte of `p` is the CR or the LF byte.
pub open spec fn crlf_free_bytes(p: Seq<u8>) -> bool {
    forall|i: int| 0 <= i < p.len() ==> p[i] != cr() && p[i] != lf()
}

/// True when no character of `t` is carriage return or line feed.
pub open spec fn crlf_free_text(t: Seq<char>) -> bool {
    forall|i: int| 0 <= i < t.len() ==> t[i] != '\r' && t[i] != '\n'
}

/// The UTF-8 encoding of a single scalar other than CR and LF contains
/// neither the CR nor the LF byte: one-byte encodings keep the scalar's own
/// value, and every byte of a longer encoding is at least 0x80.
proof fn lemma_encode_scalar_crlf_free(c: u32)
    requires
        is_scalar(c),
        c != 13u32,
        c != 10u32,
    ensures
        crlf_free_bytes(encode_scalar(c)),
{
    if has_width_1_encoding(c) {
        assert((c & 0x7F) as u8 != 13u8 && (c & 0x7F) as u8 != 10u8) by (bit_vector)
            requires
                c <= 0x7F,
                c != 13u32,
                c != 10u32,
        ;
    } else if has_width_2_encoding(c) {
        assert((0xC0u8 | (((c >> 6) & 0x1F) as u8)) >= 0x80u8) by (bit_vector);
        assert((0x80u8 | ((c & 0x3F) as u8)) >= 0x80u8) by (bit_vector);
    } else if has_width_3_encoding(c) {
        assert((0xE0u8 | (((c >> 12) & 0x0F) as u8)) >= 0x80u8) by (bit_vector);
        assert((0x80u8 | (((c >> 6) & 0x3F) as u8)) >= 0x80u8) by (bit_vector);
        assert((0x80u8 | ((c & 0x3F) as u8)) >= 0x80u8) by (bit_vector);
    } else {
        assert((0xF0u8 | (((c >> 18) & 0x7) as u8)) >= 0x80u8) by (bit_vector);
        assert((0x80u8 | (((c >> 12) & 0x3F) as u8)) >= 0x80u8) by (bit_vector);
        assert((0x80u8 | (((c >> 6) & 0x3F) as u8)) >= 0x80u8) by (bit_vector);
        assert((0x80u8 | ((c & 0x3F) as u8)) >= 0x80u8) by (bit_vector);
    }
}

/// The UTF-8 encoding of CR/LF-free text is CR/LF-free at the byte level.
pub proof fn lemma_encode_utf8_crlf_free(t: Seq<char>)
    requires
        crlf_free_text(t),
    ensures
        crlf_free_bytes(encode_utf8(t)),
    decreases t.len(),
{
    if t.len() == 0 {
    } else {
        let c = t[0] as u32;
        char_is_scalar(t[0]);
        assert(c != 13u32 && c != 10u32) by {
            char_u32_cast(t[0], c);
        }
        lemma_encode_scalar_crlf_free(c);
        lemma_encode_utf8_crlf_free(t.drop_first());
        let head = encode_scalar(c);
        let tail = encode_utf8(t.drop_first());
        assert forall|i: int| 0 <= i < encode_utf8(t).len() implies encode_utf8(t)[i] != cr()
            && encode_utf8(t)[i] != lf() by {
            if i < head.len() {
                assert(encode_utf8(t)[i] == head[i]);
            } else {
                assert(encode_utf8(t)[i] == tail[i - head.len()]);
            }
        }
    }
}

/// Law: a CR/LF-free payload framed with the terminator, followed by any
/// rest, reads back as exactly that payload; the payload and the terminator
/// are consumed and exactly the rest remains.
pub proof fn lemma_framed_payload(p: Seq<u8>, r: Seq<u8>)
    requires
        crlf_free_bytes(p),
    ensures
        line_len(p + crlf() + r) == p.len(),
        terminator_found(p + crlf() + r),
        line_content(p + crlf() + r) == p,
        consumed_len(p + crlf() + r) == p.len() + 2,
        rest_after_line(p + crlf() + r) == r,
{
    let s = p + crlf() + r;
    assert(s[p.len() as int] == cr());
    assert(s[p.len() as int + 1] == lf());
    assert(is_crlf_at(s, p.len() as int));
    assert forall|j: int| 0 <= j < p.len() implies !is_crlf_at(s, j) by {
        assert(s[j] == p[j]);
    }
    lemma_line_len_at_first_crlf(s, p.len() as int);
    assert(line_content(s) =~= p);
    assert(rest_after_line(s) =~= r);
}

/// Law: one CR/LF-free line of text, framed by the writer (its UTF-8 bytes
/// then the terminator), reads back as exactly that text, with the content
/// length plus the two terminator bytes consumed and nothing left over.
pub proof fn lemma_frame_unframe_text(text: Seq<char>)
    requires
        crlf_free_text(text),
    ensures
        terminator_found(encode_utf8(text) + crlf()),
        line_content(encode_utf8(text) + crlf()) == encode_utf8(text),
        valid_utf8(line_content(encode_utf8(text) + crlf())),
        decode_utf8(line_content(encode_utf8(text) + crlf())) == text,
        consumed_len(encode_utf8(text) + crlf()) == encode_utf8(text).len() + 2,
        rest_after_line(encode_utf8(text) + crlf()) == Seq::<u8>::empty(),
{
    lemma_encode_utf8_crlf_free(text);
    lemma_framed_payload(encode_utf8(text), Seq::<u8>::empty());
    assert(encode_utf8(text) + crlf() + Seq::<u8>::empty() =~= encode_utf8(text) + crlf());
    encode_utf8_valid_utf8(text);
    encode_utf8_decode_utf8(text);
}

/// The byte stream that frames each payload in turn, each followed by the
/// terminator.
pub open spec fn encode_lines(lines: Seq<Seq<u8>>) -> Seq<u8>
    decreases lines.len(),
{
    if lines.len() == 0 {
        Seq::<u8>::empty()
    } else {
        lines[0] + crlf() + encode_lines(lines.drop_first())
    }
}

/// The lines a stream is served as: line after line until it is exhausted.
pub open spec fn split_lines(s: Seq<u8>) -> Seq<Seq<u8>>
    decreases s.len(),
    via split_lines_decreases
{
    if s.len() == 0 {
        Seq::<Seq<u8>>::empty()
    } else {
        seq![line_content(s)] + split_lines(rest_after_line(s))
    }
}

#[via_fn]
proof fn split_lines_decreases(s: Seq<u8>) {
    if s.len() > 0 {
        lemma_consumed_bounds(s);
    }
}

/// Law: writing any number of CR/LF-free payloads and reading the stream
/// back line by line reproduces exactly those payloads, in order.
pub proof fn lemma_lines_round_trip(lines: Seq<Seq<u8>>)
    requires
        forall|k: int| 0 <= k < lines.len() ==> crlf_free_bytes(#[trigger] lines[k]),
    ensures
        split_lines(encode_lines(lines)) == lines,
    decreases lines.len(),
{
    if lines.len() == 0 {
        assert(split_lines(encode_lines(lines)) =~= lines);
    } else {
        let rest = encode_lines(lines.drop_first());
        lemma_framed_payload(lines[0], rest);
        lemma_lines_round_trip(lines.drop_first());
        assert(encode_lines(lines).len() > 0);
        assert(split_lines(encode_lines(lines)) =~= lines);
    }
}

/// Law: a stream with no terminator anywhere is served as one final,
/// unterminated line: all of it is content, all of it is consumed, and the
/// stream is exhausted afterwards.
pub proof fn lemma_unterminated_stream(s: Seq<u8>)
    requires
        forall|j: int| !is_crlf_at(s, j),
    ensures
        !terminator_found(s),
        line_content(s) == s,
        consumed_len(s) == s.len(),
        rest_after_line(s) == Seq::<u8>::empty(),
{
    lemma_line_len_no_crlf(s);
    assert(line_content(s) =~= s);
    assert(rest_after_line(s) =~= Seq::<u8>::empty());
}

/// Law: the empty stream yields the zero sentinel and stays empty, so a
/// repeated read keeps yielding zero with the output buffer untouched.
pub proof fn lemma_exhausted_stream()
    ensures
        consumed_len(Seq::<u8>::empty()) == 0,
        line_content(Seq::<u8>::empty()) == Seq::<u8>::empty(),
        valid_utf8(Seq::<u8>::empty()),
        decode_utf8(Seq::<u8>::empty()) == Seq::<char>::empty(),
        rest_after_line(Seq::<u8>::empty()) == Seq::<u8>::empty(),
{
    let e = Seq::<u8>::empty();
    assert(valid_utf8(e));
    assert(line_content(e) =~= e);
    assert(rest_after_line(e) =~= e);
    assert(decode_utf8(e) =~= Seq::<char>::empty());
}

} // verus!
