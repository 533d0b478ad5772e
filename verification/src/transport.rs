//! Transport-boundary helpers: chunking long replies at the transport's
//! length limit, and parsing the line-oriented test harness's input.
//!
//! Chunking prefers to split at a line break only when it falls past the
//! midpoint of the chunk, and otherwise hard-cuts at a character
//! boundary; a single character wider than the limit is passed through
//! whole rather than split.

use vstd::prelude::*;
use vstd::string::{StrSliceExecFns, StringExecFns, StringSliceAdditionalSpecFns};
use vstd::utf8::{decode_utf8, encode_utf8, valid_utf8};
use crate::text::{spec_cut_point, spec_is_space, spec_space_end, truncate_str};

verus! {

/// The UTF-8 byte length of a character sequence.
pub open spec fn spec_blen(s: Seq<char>) -> int {
    encode_utf8(s).len() as int
}

/// The byte index of the last line-break byte before `end`, or -1.
pub open spec fn spec_nl_rfind(bytes: Seq<u8>, end: int) -> int
    decreases end,
{
    if end <= 0 || end > bytes.len() {
        -1
    } else if bytes[end - 1] == 10 {
        end - 1
    } else {
        spec_nl_rfind(bytes, end - 1)
    }
}

/// The sequence without its leading whitespace characters.
pub open spec fn spec_trim_start(s: Seq<char>) -> Seq<char> {
    s.skip(spec_space_end(s, 0))
}

/// The hard-cut byte index: the largest character boundary within the
/// limit, or one whole character when not even one fits.
pub open spec fn spec_chunk_cut_base(s: Seq<char>, max: int) -> int {
    let bytes = encode_utf8(s);
    let cut0 = spec_cut_point(bytes, max);
    if cut0 == 0 {
        if s.len() >= 2 {
            spec_blen(s.take(1))
        } else {
            bytes.len() as int
        }
    } else {
        cut0
    }
}

/// The byte index one chunk ends at: the hard cut, moved back to the
/// last line break when that break falls past the midpoint.
pub open spec fn spec_chunk_cut(s: Seq<char>, max: int) -> int {
    let bytes = encode_utf8(s);
    let cut = spec_chunk_cut_base(s, max);
    let nl = spec_nl_rfind(bytes, cut);
    if nl >= 0 && nl >= cut / 2 {
        nl
    } else {
        cut
    }
}

/// The chunks a reply is sent as: a reply within the limit is one
/// chunk; otherwise the first chunk ends at `spec_chunk_cut` and the
/// rest follows with its leading whitespace dropped.
pub open spec fn spec_split_message(s: Seq<char>, max: int) -> Seq<Seq<char>>
    decreases spec_blen(s),
    when max >= 0
    via spec_split_message_dec
{
    if spec_blen(s) <= max {
        seq![s]
    } else {
        let bytes = encode_utf8(s);
        let c = spec_chunk_cut(s, max);
        let tail = spec_trim_start(decode_utf8(bytes.skip(c)));
        if spec_blen(tail) == 0 {
            seq![decode_utf8(bytes.take(c))]
        } else {
            seq![decode_utf8(bytes.take(c))] + spec_split_message(tail, max)
        }
    }
}

/// Encoding a concatenation concatenates the encodings.
proof fn lemma_encode_concat(a: Seq<char>, b: Seq<char>)
    ensures
        encode_utf8(a + b) =~= encode_utf8(a) + encode_utf8(b),
    decreases a.len(),
{
    if a.len() == 0 {
        assert(a + b =~= b);
    } else {
        lemma_encode_concat(a.drop_first(), b);
        assert((a + b).drop_first() =~= a.drop_first() + b);
        assert((a + b)[0] == a[0]);
        assert(encode_utf8(a + b) == vstd::utf8::encode_scalar((a + b)[0] as u32) + encode_utf8(
            (a + b).drop_first(),
        ));
    }
}

/// Every character takes at least one byte.
proof fn lemma_blen_ge_len(s: Seq<char>)
    ensures
        spec_blen(s) >= s.len(),
    decreases s.len(),
{
    if s.len() > 0 {
        lemma_blen_ge_len(s.drop_first());
        vstd::utf8::char_is_scalar(s[0]);
    }
}

/// A character boundary splits the byte length of the decoding.
proof fn lemma_split_decode(bytes: Seq<u8>, c: int)
    requires
        valid_utf8(bytes),
        vstd::utf8::is_char_boundary(bytes, c),
        0 <= c <= bytes.len(),
    ensures
        valid_utf8(bytes.take(c)),
        valid_utf8(bytes.skip(c)),
        spec_blen(decode_utf8(bytes.take(c))) == c,
        spec_blen(decode_utf8(bytes.skip(c))) == bytes.len() - c,
{
    vstd::utf8::valid_utf8_split(bytes, c);
    vstd::utf8::decode_utf8_encode_utf8(bytes.take(c));
    vstd::utf8::decode_utf8_encode_utf8(bytes.skip(c));
}

/// Trimming never grows the byte length, and strictly shrinks it when
/// the text starts with whitespace.
proof fn lemma_trim_blen(s: Seq<char>)
    ensures
        spec_blen(spec_trim_start(s)) <= spec_blen(s),
        s.len() > 0 && spec_is_space(s[0]) ==> spec_blen(spec_trim_start(s)) < spec_blen(s),
{
    crate::text::lemma_space_end_bounds(s, 0);
    let k = spec_space_end(s, 0);
    assert(s =~= s.take(k) + s.skip(k));
    lemma_encode_concat(s.take(k), s.skip(k));
    lemma_blen_ge_len(s.take(k));
    if s.len() > 0 && spec_is_space(s[0]) {
        crate::text::lemma_space_end_bounds(s, 1);
        assert(spec_space_end(s, 0) == spec_space_end(s, 1));
        assert(k >= 1);
    }
}

/// The hard cut is positive, within the text, and on a character
/// boundary.
proof fn lemma_chunk_cut_base_props(s: Seq<char>, max: int)
    requires
        max >= 0,
        spec_blen(s) > max,
    ensures
        1 <= spec_chunk_cut_base(s, max) <= spec_blen(s),
        vstd::utf8::is_char_boundary(encode_utf8(s), spec_chunk_cut_base(s, max)),
{
    let bytes = encode_utf8(s);
    vstd::utf8::encode_utf8_valid_utf8(s);
    crate::text::lemma_cut_point_properties(bytes, max);
    let cut0 = spec_cut_point(bytes, max);
    assert(s.len() > 0) by {
        if s.len() == 0 {
            assert(spec_blen(s) == 0);
        }
    }
    if cut0 == 0 {
        vstd::utf8::is_char_boundary_start_end_of_seq(bytes);
        if s.len() >= 2 {
            assert(s =~= s.take(1) + s.skip(1));
            lemma_encode_concat(s.take(1), s.skip(1));
            lemma_blen_ge_len(s.take(1));
            assert(s.take(1).len() == 1);
            lemma_boundary_of_prefix(s, 1);
        }
    } else {
        assert(vstd::utf8::is_char_boundary(bytes, cut0));
    }
}

/// A line-break byte in valid UTF-8 sits on a character boundary, and
/// the chunk cut always lands on one.
proof fn lemma_chunk_cut_props(s: Seq<char>, max: int)
    requires
        max >= 0,
        spec_blen(s) > max,
    ensures
        0 <= spec_chunk_cut(s, max) <= spec_blen(s),
        vstd::utf8::is_char_boundary(encode_utf8(s), spec_chunk_cut(s, max)),
        spec_chunk_cut(s, max) == 0 ==> encode_utf8(s)[0] == 10,
{
    let bytes = encode_utf8(s);
    vstd::utf8::encode_utf8_valid_utf8(s);
    lemma_chunk_cut_base_props(s, max);
    let cut = spec_chunk_cut_base(s, max);
    let nl = spec_nl_rfind(bytes, cut);
    lemma_nl_rfind_props(bytes, cut);
    if nl >= 0 && nl >= cut / 2 {
        vstd::utf8::is_char_boundary_iff_not_is_continuation_byte(bytes, nl);
    }
}

/// The encoding of a character prefix ends on a character boundary.
proof fn lemma_boundary_of_prefix(s: Seq<char>, k: int)
    requires
        0 <= k <= s.len(),
    ensures
        vstd::utf8::is_char_boundary(encode_utf8(s), spec_blen(s.take(k))),
    decreases k,
{
    let bytes = encode_utf8(s);
    vstd::utf8::encode_utf8_valid_utf8(s);
    if k == 0 {
        assert(s.take(0) =~= Seq::<char>::empty());
        vstd::utf8::is_char_boundary_start_end_of_seq(bytes);
    } else {
        // bytes = first scalar ++ encoding of the rest
        vstd::utf8::encode_utf8_first_scalar(s);
        let w = vstd::utf8::encode_scalar(s[0] as u32).len() as int;
        assert(s =~= seq![s[0]] + s.drop_first());
        lemma_encode_concat(seq![s[0]], s.drop_first());
        assert(encode_utf8(seq![s[0]]) =~= vstd::utf8::encode_scalar(s[0] as u32));
        lemma_boundary_of_prefix(s.drop_first(), k - 1);
        assert(vstd::utf8::pop_first_scalar(bytes) =~= encode_utf8(s.drop_first()));
        assert(s.drop_first().take(k - 1) =~= s.take(k).drop_first());
        assert(s.take(k) =~= seq![s[0]] + s.take(k).drop_first());
        lemma_encode_concat(seq![s[0]], s.take(k).drop_first());
        assert(spec_blen(s.take(k)) == w + spec_blen(s.drop_first().take(k - 1)));
    }
}

/// What `spec_nl_rfind` finds is a line-break byte in range.
proof fn lemma_nl_rfind_props(bytes: Seq<u8>, end: int)
    requires
        end <= bytes.len(),
    ensures
        spec_nl_rfind(bytes, end) >= 0 ==> (0 <= spec_nl_rfind(bytes, end) < end
            && bytes[spec_nl_rfind(bytes, end)] == 10),
        forall|j: int|
            spec_nl_rfind(bytes, end) < j < end && 0 <= j ==> bytes[j] != 10,
    decreases end,
{
    if end > 0 {
        if bytes[end - 1] == 10 {
        } else {
            lemma_nl_rfind_props(bytes, end - 1);
        }
    }
}

#[via_fn]
proof fn spec_split_message_dec(s: Seq<char>, max: int) {
    if spec_blen(s) > max {
        let bytes = encode_utf8(s);
        vstd::utf8::encode_utf8_valid_utf8(s);
        lemma_chunk_cut_props(s, max);
        let c = spec_chunk_cut(s, max);
        lemma_split_decode(bytes, c);
        let rest = decode_utf8(bytes.skip(c));
        lemma_trim_blen(rest);
        if c == 0 {
            // Only a midpoint line break at offset zero leaves the cut
            // at zero, so the rest then starts with a line break.
            assert(bytes.skip(0) =~= bytes);
            vstd::utf8::encode_utf8_decode_utf8(s);
            assert(rest == s);
            assert(s.len() > 0) by {
                if s.len() == 0 {
                    assert(spec_blen(s) == 0);
                }
            }
            lemma_first_char_of_bytes(s);
            assert(spec_is_space(s[0]));
        }
    }
}

/// A text whose encoding starts with a line-break byte starts with a
/// line-break character.
proof fn lemma_first_char_of_bytes(s: Seq<char>)
    requires
        s.len() > 0,
        encode_utf8(s)[0] == 10,
    ensures
        s[0] == '\n',
{
    vstd::utf8::char_is_scalar(s[0]);
    assert(encode_utf8(s) == vstd::utf8::encode_scalar(s[0] as u32) + encode_utf8(
        s.drop_first(),
    ));
    let sc = s[0] as u32;
    if vstd::utf8::has_width_1_encoding(sc) {
        assert(vstd::utf8::leading_byte_width_1(sc) == 10);
        assert(sc == 10) by (bit_vector)
            requires
                sc <= 0x7F && (sc & 0x7F) as u8 == 10,
        ;
        vstd::utf8::char_u32_cast(s[0], 10);
    } else if vstd::utf8::has_width_2_encoding(sc) {
        let b = vstd::utf8::leading_byte_width_2(sc);
        assert(b != 10) by (bit_vector)
            requires
                b == 0xC0 | ((sc >> 6) & 0x1F) as u8,
        ;
    } else if vstd::utf8::has_width_3_encoding(sc) {
        let b = vstd::utf8::leading_byte_width_3(sc);
        assert(b != 10) by (bit_vector)
            requires
                b == 0xE0 | ((sc >> 12) & 0x0F) as u8,
        ;
    } else {
        let b = vstd::utf8::leading_byte_width_4(sc);
        assert(b != 10) by (bit_vector)
            requires
                b == 0xF0 | ((sc >> 18) & 0x7) as u8,
        ;
    }
}


/// Drop the leading whitespace of a string slice.
pub fn trim_start_str<'a>(s: &'a str) -> (r: &'a str)
    ensures
        r@ == spec_trim_start(s@),
{
    let n = s.unicode_len();
    let mut k: usize = 0;
    while k < n && crate::text::is_space(s.get_char(k))
        invariant
            k <= n,
            n == s@.len(),
            spec_space_end(s@, 0) == spec_space_end(s@, k as int),
        decreases n - k,
    {
        k += 1;
    }
    proof {
        assert(spec_space_end(s@, k as int) == k as int);
    }
    let r = s.substring_char(k, n);
    proof {
        assert(r@ =~= s@.skip(k as int));
    }
    r
}

/// The byte index of the last line-break byte before `end`, if any.
fn nl_rfind(bytes: &[u8], end: usize) -> (r: Option<usize>)
    requires
        end <= bytes@.len(),
    ensures
        match r {
            Some(i) => i as int == spec_nl_rfind(bytes@, end as int) && i < end,
            None => spec_nl_rfind(bytes@, end as int) == -1,
        },
{
    let mut j = end;
    while j > 0
        invariant
            j <= end <= bytes@.len(),
            spec_nl_rfind(bytes@, end as int) == spec_nl_rfind(bytes@, j as int),
        decreases j,
    {
        if bytes[j - 1] == 10 {
            return Some(j - 1);
        }
        j -= 1;
    }
    None
}

/// Split a reply into chunks for the transport's length limit.
pub fn split_message(text: &str, max_len: usize) -> (r: Vec<String>)
    ensures
        r@.map_values(|c: String| c@) =~= spec_split_message(text@, max_len as int),
    decreases spec_blen(text@),
{
    let blen = text.as_bytes().len();
    if blen <= max_len {
        let mut v: Vec<String> = Vec::new();
        v.push(String::from_str(text));
        proof {
            assert(v@.map_values(|c: String| c@) =~= seq![text@]);
        }
        return v;
    }
    proof {
        vstd::utf8::encode_utf8_valid_utf8(text@);
        lemma_chunk_cut_props(text@, max_len as int);
        lemma_chunk_cut_base_props(text@, max_len as int);
    }
    // Find a character-boundary-safe hard cut at or before the limit,
    // falling back to one whole character when none fits.
    let head = truncate_str(text, max_len);
    let cut0 = head.as_bytes().len();
    let cut: usize = if cut0 == 0 {
        if text.unicode_len() >= 2 {
            let first = text.substring_char(0, 1);
            proof {
                assert(first@ =~= text@.take(1));
            }
            first.as_bytes().len()
        } else {
            blen
        }
    } else {
        cut0
    };
    proof {
        assert(cut as int == spec_chunk_cut_base(text@, max_len as int));
    }
    // Prefer the last line break in the region when it falls past the
    // midpoint.
    let split_idx: usize = match nl_rfind(text.as_bytes(), cut) {
        Some(idx) => if idx >= cut / 2 {
            idx
        } else {
            cut
        },
        None => cut,
    };
    proof {
        assert(split_idx as int == spec_chunk_cut(text@, max_len as int));
    }
    let (chunk, rest) = text.split_at(split_idx);
    let rest_trimmed = trim_start_str(rest);
    let tail_blen = rest_trimmed.as_bytes().len();
    proof {
        let bytes = encode_utf8(text@);
        let c = split_idx as int;
        lemma_split_decode(bytes, c);
        vstd::utf8::encode_utf8_decode_utf8(chunk@);
        vstd::utf8::encode_utf8_decode_utf8(rest@);
        assert(chunk@ == decode_utf8(bytes.take(c))) by {
            assert(chunk.spec_bytes() =~= bytes.take(c));
        }
        assert(rest@ == decode_utf8(bytes.skip(c))) by {
            assert(rest.spec_bytes() =~= bytes.skip(c));
        }
        lemma_trim_blen(rest@);
        if c == 0 {
            assert(bytes[0] == 10);
            lemma_first_char_of_bytes(text@);
            assert(bytes.skip(0) =~= bytes);
            vstd::utf8::encode_utf8_decode_utf8(text@);
            assert(rest@ == text@);
            assert(spec_is_space(rest@[0]));
        }
        assert(spec_blen(rest_trimmed@) < spec_blen(text@));
    }
    if tail_blen == 0 {
        let mut out: Vec<String> = Vec::new();
        out.push(String::from_str(chunk));
        proof {
            assert(out@.map_values(|c: String| c@) =~= spec_split_message(
                text@,
                max_len as int,
            ));
        }
        return out;
    }
    let tail = split_message(rest_trimmed, max_len);
    let mut out: Vec<String> = Vec::new();
    out.push(String::from_str(chunk));
    let tn = tail.len();
    let mut t: usize = 0;
    while t < tn
        invariant
            tn == tail@.len(),
            t <= tn,
            out@.len() == t + 1,
            out@[0]@ == chunk@,
            forall|i: int| 1 <= i <= t ==> (#[trigger] out@[i])@ == tail@[i - 1]@,
        decreases tn - t,
    {
        out.push(tail[t].clone());
        t += 1;
    }
    proof {
        assert(out@.map_values(|c: String| c@) =~= seq![chunk@] + tail@.map_values(
            |c: String| c@,
        ));
        assert(out@.map_values(|c: String| c@) =~= spec_split_message(
            text@,
            max_len as int,
        ));
    }
    out
}
/// The index of the first separator bar at or after `i` (the length
/// when there is none).
pub open spec fn spec_find_bar(s: Seq<char>, i: int) -> int
    decreases s.len() - i,
{
    if 0 <= i < s.len() {
        if s[i] == '|' {
            i
        } else {
            spec_find_bar(s, i + 1)
        }
    } else {
        s.len() as int
    }
}

proof fn lemma_find_bar_bounds(s: Seq<char>, i: int)
    requires
        0 <= i <= s.len(),
    ensures
        i <= spec_find_bar(s, i) <= s.len(),
    decreases s.len() - i,
{
    if i < s.len() && s[i] != '|' {
        lemma_find_bar_bounds(s, i + 1);
    }
}

fn find_bar(v: &Vec<char>, i: usize) -> (r: usize)
    requires
        i <= v@.len(),
    ensures
        r as int == spec_find_bar(v@, i as int),
        i <= r <= v@.len(),
{
    let n = v.len();
    let mut j = i;
    while j < n && v[j] != '|'
        invariant
            i <= j <= n,
            n == v@.len(),
            spec_find_bar(v@, i as int) == spec_find_bar(v@, j as int),
        decreases n - j,
    {
        j += 1;
    }
    proof {
        assert(spec_find_bar(v@, j as int) == j as int);
    }
    j
}

/// Parse one line of the line-oriented harness, `wxid|nickname|message`
/// or `wxid|message` (the identity then doubles as the display name),
/// after dropping trailing whitespace. A line without a separator
/// carries no message.
pub fn parse_input_line(line: &str) -> (r: Option<(crate::router::Contact, String)>)
    ensures
        ({
            let t = line@.take(crate::text::spec_rstrip_idx(line@, line@.len() as int));
            let p1 = spec_find_bar(t, 0);
            if t.len() == 0 || p1 == t.len() {
                r is None
            } else {
                let p2 = spec_find_bar(t, p1 + 1);
                match r {
                    Some(parsed) => {
                        &&& parsed.0.remark_name@ == Seq::<char>::empty()
                        &&& parsed.0.wxid@ == t.take(p1)
                        &&& (if p2 == t.len() {
                            parsed.0.nickname@ == t.take(p1) && parsed.1@ == t.skip(p1 + 1)
                        } else {
                            parsed.0.nickname@ == t.subrange(p1 + 1, p2) && parsed.1@ == t.skip(
                                p2 + 1,
                            )
                        })
                    },
                    None => false,
                }
            }
        }),
{
    let v0 = crate::text::chars_vec(line);
    let n0 = v0.len();
    let mut b: usize = n0;
    while b > 0 && crate::text::is_space(v0[b - 1])
        invariant
            b <= n0,
            n0 == v0@.len(),
            crate::text::spec_rstrip_idx(v0@, n0 as int) == crate::text::spec_rstrip_idx(
                v0@,
                b as int,
            ),
        decreases b,
    {
        b -= 1;
    }
    proof {
        assert(crate::text::spec_rstrip_idx(v0@, b as int) == b as int);
    }
    let mut v: Vec<char> = Vec::new();
    let mut k: usize = 0;
    while k < b
        invariant
            k <= b <= n0,
            n0 == v0@.len(),
            v@ =~= v0@.take(b as int).take(k as int),
        decreases b - k,
    {
        v.push(v0[k]);
        k += 1;
        proof {
            assert(v@ =~= v0@.take(b as int).take(k as int));
        }
    }
    proof {
        assert(v@ =~= v0@.take(b as int));
    }
    let n = v.len();
    if n == 0 {
        return None;
    }
    let p1 = find_bar(&v, 0);
    if p1 == n {
        return None;
    }
    let wxid = crate::text::string_of_range(&v, 0, p1);
    let p2 = find_bar(&v, p1 + 1);
    if p2 == n {
        let nickname = crate::text::string_of_range(&v, 0, p1);
        let message = crate::text::string_of_range(&v, p1 + 1, n);
        proof {
            assert(message@ =~= v@.skip(p1 + 1));
        }
        let contact = crate::router::Contact { wxid, nickname, remark_name: String::new() };
        Some((contact, message))
    } else {
        let nickname = crate::text::string_of_range(&v, p1 + 1, p2);
        let message = crate::text::string_of_range(&v, p2 + 1, n);
        proof {
            assert(message@ =~= v@.skip(p2 + 1));
        }
        let contact = crate::router::Contact { wxid, nickname, remark_name: String::new() };
        Some((contact, message))
    }
}

} // verus!
