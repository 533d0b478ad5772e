//! Verified text utilities: string equality, UTF-8 boundary-safe truncation.
//!
//! All byte-level reasoning goes through `vstd::utf8`: the view of a `&str`
//! is its character sequence, and `spec_bytes()` is the UTF-8 encoding of
//! that sequence.

use vstd::prelude::*;
use vstd::string::{StrSliceExecFns, StringExecFns, StringSliceAdditionalSpecFns};
use vstd::utf8::{decode_utf8, encode_utf8_decode_utf8, is_char_boundary};

verus! {

/// Relies on String::push: appends exactly one character.
#[verifier::external_body]
pub(crate) fn push_char(s: &mut String, c: char)
    ensures
        final(s)@ == old(s)@.push(c),
{
    s.push(c);
}

/// The characters of `s`, as a vector.
pub fn chars_vec(s: &str) -> (v: Vec<char>)
    ensures
        v@ == s@,
{
    let n = s.unicode_len();
    let mut v: Vec<char> = Vec::new();
    let mut i: usize = 0;
    while i < n
        invariant
            n == s@.len(),
            i <= n,
            v@ =~= s@.subrange(0, i as int),
        decreases n - i,
    {
        v.push(s.get_char(i));
        i += 1;
    }
    proof {
        assert(v@ =~= s@);
    }
    v
}

/// Byte-for-byte string comparison, shown to decide equality of the
/// character sequences.
pub fn str_eq(a: &str, b: &str) -> (r: bool)
    ensures
        r == (a@ == b@),
{
    let ab = a.as_bytes();
    let bb = b.as_bytes();
    if ab.len() != bb.len() {
        proof {
            if a@ == b@ {
                assert(a.spec_bytes() == b.spec_bytes());
            }
        }
        return false;
    }
    let n = ab.len();
    let mut i: usize = 0;
    while i < n
        invariant
            n == ab@.len() == bb@.len(),
            i <= n,
            ab@ == a.spec_bytes(),
            bb@ == b.spec_bytes(),
            forall|j: int| 0 <= j < i ==> ab@[j] == bb@[j],
        decreases n - i,
    {
        if ab[i] != bb[i] {
            proof {
                if a@ == b@ {
                    assert(a.spec_bytes() == b.spec_bytes());
                }
            }
            return false;
        }
        i += 1;
    }
    proof {
        assert(a.spec_bytes() =~= b.spec_bytes());
        encode_utf8_decode_utf8(a@);
        encode_utf8_decode_utf8(b@);
    }
    true
}

/// The largest character boundary of `bytes` that is at most `max`.
pub open spec fn spec_cut_point(bytes: Seq<u8>, max: int) -> int
    decreases max,
{
    if max <= 0 {
        0
    } else if is_char_boundary(bytes, max) {
        max
    } else {
        spec_cut_point(bytes, max - 1)
    }
}

pub proof fn lemma_cut_point_properties(bytes: Seq<u8>, max: int)
    requires
        vstd::utf8::valid_utf8(bytes),
        0 <= max,
    ensures
        0 <= spec_cut_point(bytes, max) <= max,
        is_char_boundary(bytes, spec_cut_point(bytes, max)),
        forall|j: int|
            spec_cut_point(bytes, max) < j <= max ==> !is_char_boundary(bytes, j),
    decreases max,
{
    if max <= 0 {
    } else if is_char_boundary(bytes, max) {
    } else {
        lemma_cut_point_properties(bytes, max - 1);
    }
}

/// The byte length that truncation to `max` bytes keeps: the largest
/// character boundary at or before `max` (the whole string if it fits).
pub open spec fn spec_truncate_len(bytes: Seq<u8>, max: int) -> int {
    spec_cut_point(bytes, if max <= bytes.len() { max } else { bytes.len() as int })
}

/// Truncate `s` to at most `max_bytes` bytes of UTF-8, cutting only at a
/// character boundary. A string that already fits is returned unchanged.
pub fn truncate_str<'a>(s: &'a str, max_bytes: usize) -> (r: &'a str)
    ensures
        r.spec_bytes() =~= s.spec_bytes().subrange(
            0,
            spec_truncate_len(s.spec_bytes(), max_bytes as int),
        ),
        s.spec_bytes().len() <= max_bytes ==> r@ == s@,
        r@ == s@.subrange(0, r@.len() as int),
        r@.len() <= s@.len(),
{
    proof {
        vstd::utf8::encode_utf8_valid_utf8(s@);
        vstd::utf8::is_char_boundary_start_end_of_seq(s.spec_bytes());
    }
    let blen = s.as_bytes().len();
    if blen <= max_bytes {
        proof {
            let n = s.spec_bytes().len() as int;
            assert(spec_cut_point(s.spec_bytes(), n) == n);
            assert(s.spec_bytes().subrange(0, n) =~= s.spec_bytes());
            encode_utf8_decode_utf8(s@);
            assert(s@.subrange(0, s@.len() as int) =~= s@);
        }
        return s;
    }
    let mut end: usize = max_bytes;
    while end > 0 && !s.is_char_boundary(end)
        invariant
            end <= max_bytes,
            max_bytes < s.spec_bytes().len(),
            spec_cut_point(s.spec_bytes(), max_bytes as int) == spec_cut_point(
                s.spec_bytes(),
                end as int,
            ),
        decreases end,
    {
        end -= 1;
    }
    proof {
        assert(is_char_boundary(s.spec_bytes(), end as int));
        assert(spec_cut_point(s.spec_bytes(), end as int) == end as int);
    }
    let (head, _) = s.split_at(end);
    proof {
        vstd::utf8::valid_utf8_split(s.spec_bytes(), end as int);
        vstd::utf8::decode_utf8_split(s.spec_bytes(), end as int);
        encode_utf8_decode_utf8(s@);
        vstd::utf8::decode_utf8_encode_utf8(head.spec_bytes());
        encode_utf8_decode_utf8(head@);
        // s@ is the decoding of its bytes; the split shows head@ is a prefix.
        assert(s@ == head@ + decode_utf8(s.spec_bytes().subrange(end as int, s.spec_bytes().len() as int)));
        assert(head@ == s@.subrange(0, head@.len() as int));
    }
    head
}

/// ASCII lower-case folding of a single character; other characters are
/// unchanged.
pub open spec fn spec_lower_char(c: char) -> char {
    if 65 <= c as u32 <= 90 {
        (((c as u32) + 32) as u8) as char
    } else {
        c
    }
}

pub fn lower_char(c: char) -> (r: char)
    ensures
        r == spec_lower_char(c),
{
    let u = c as u32;
    if 65 <= u && u <= 90 {
        ((u + 32) as u8) as char
    } else {
        c
    }
}

/// `pat` occurs in `hay` at offset `i`, comparing ASCII case-insensitively.
pub open spec fn spec_match_at(hay: Seq<char>, pat: Seq<char>, i: int) -> bool {
    &&& 0 <= i
    &&& i + pat.len() <= hay.len()
    &&& forall|j: int|
        0 <= j < pat.len() ==> spec_lower_char(hay[i + j]) == spec_lower_char(pat[j])
}

/// `pat` occurs somewhere in `hay`, comparing ASCII case-insensitively.
/// An empty pattern occurs in every string.
pub open spec fn spec_contains_ci(hay: Seq<char>, pat: Seq<char>) -> bool {
    exists|i: int| spec_match_at(hay, pat, i)
}

/// ASCII case-insensitive substring test.
pub fn contains_ci(hay: &str, pat: &str) -> (r: bool)
    ensures
        r == spec_contains_ci(hay@, pat@),
{
    let h = chars_vec(hay);
    let p = chars_vec(pat);
    let hn = h.len();
    let pn = p.len();
    if pn > hn {
        proof {
            assert(forall|i: int| !spec_match_at(hay@, pat@, i));
        }
        return false;
    }
    let mut i: usize = 0;
    while i <= hn - pn
        invariant
            h@ == hay@,
            p@ == pat@,
            hn == h@.len(),
            pn == p@.len(),
            pn <= hn,
            i <= hn - pn + 1,
            forall|k: int| 0 <= k < i ==> !spec_match_at(hay@, pat@, k),
        decreases hn - pn - i + 1,
    {
        let mut j: usize = 0;
        let mut ok = true;
        while j < pn
            invariant
                h@ == hay@,
                p@ == pat@,
                hn == h@.len(),
                pn == p@.len(),
                i + pn <= hn,
                j <= pn,
                ok ==> forall|t: int|
                    0 <= t < j ==> spec_lower_char(hay@[i + t]) == spec_lower_char(pat@[t]),
                !ok ==> !spec_match_at(hay@, pat@, i as int),
            decreases pn - j,
        {
            if lower_char(h[i + j]) != lower_char(p[j]) {
                ok = false;
                proof {
                    assert(!spec_match_at(hay@, pat@, i as int));
                }
                j = pn;
            } else {
                j += 1;
            }
        }
        if ok {
            proof {
                assert(spec_match_at(hay@, pat@, i as int));
            }
            return true;
        }
        i += 1;
    }
    proof {
        assert forall|k: int| !spec_match_at(hay@, pat@, k) by {
            if 0 <= k && k + pat@.len() <= hay@.len() {
                assert(k < i);
            }
        }
    }
    false
}

/// ASCII lower-case folding of a whole sequence.
pub open spec fn spec_lower_seq(s: Seq<char>) -> Seq<char> {
    s.map_values(|c: char| spec_lower_char(c))
}

/// Lower-case a string (ASCII folding).
pub fn lower_string(s: &str) -> (r: String)
    ensures
        r@ == spec_lower_seq(s@),
{
    let v = crate::text::chars_vec(s);
    let n = v.len();
    let mut out = String::new();
    let mut k: usize = 0;
    while k < n
        invariant
            n == v@.len(),
            v@ == s@,
            k <= n,
            out@ =~= spec_lower_seq(s@).take(k as int),
        decreases n - k,
    {
        push_char(&mut out, lower_char(v[k]));
        k += 1;
        proof {
            assert(out@ =~= spec_lower_seq(s@).take(k as int));
        }
    }
    proof {
        assert(spec_lower_seq(s@).take(n as int) =~= spec_lower_seq(s@));
    }
    out
}

/// `pat` occurs in `hay` at offset `i`, compared exactly.
pub open spec fn spec_match_at_cs(hay: Seq<char>, pat: Seq<char>, i: int) -> bool {
    &&& 0 <= i
    &&& i + pat.len() <= hay.len()
    &&& forall|j: int| 0 <= j < pat.len() ==> hay[i + j] == pat[j]
}

/// `pat` occurs somewhere in `hay`, compared exactly.
pub open spec fn spec_contains_cs(hay: Seq<char>, pat: Seq<char>) -> bool {
    exists|i: int| spec_match_at_cs(hay, pat, i)
}

/// Case-sensitive substring test.
pub fn contains_str(hay: &str, pat: &str) -> (r: bool)
    ensures
        r == spec_contains_cs(hay@, pat@),
{
    let h = chars_vec(hay);
    let p = chars_vec(pat);
    let hn = h.len();
    let pn = p.len();
    if pn > hn {
        proof {
            assert(forall|i: int| !spec_match_at_cs(hay@, pat@, i));
        }
        return false;
    }
    let mut i: usize = 0;
    while i <= hn - pn
        invariant
            h@ == hay@,
            p@ == pat@,
            hn == h@.len(),
            pn == p@.len(),
            pn <= hn,
            i <= hn - pn + 1,
            forall|k: int| 0 <= k < i ==> !spec_match_at_cs(hay@, pat@, k),
        decreases hn - pn - i + 1,
    {
        let mut j: usize = 0;
        let mut ok = true;
        while j < pn
            invariant
                h@ == hay@,
                p@ == pat@,
                hn == h@.len(),
                pn == p@.len(),
                i + pn <= hn,
                j <= pn,
                ok ==> forall|t: int| 0 <= t < j ==> hay@[i + t] == pat@[t],
                !ok ==> !spec_match_at_cs(hay@, pat@, i as int),
            decreases pn - j,
        {
            if h[i + j] != p[j] {
                ok = false;
                proof {
                    assert(!spec_match_at_cs(hay@, pat@, i as int));
                }
                j = pn;
            } else {
                j += 1;
            }
        }
        if ok {
            proof {
                assert(spec_match_at_cs(hay@, pat@, i as int));
            }
            return true;
        }
        i += 1;
    }
    proof {
        assert forall|k: int| !spec_match_at_cs(hay@, pat@, k) by {
            if 0 <= k && k + pat@.len() <= hay@.len() {
                assert(k < i);
            }
        }
    }
    false
}

/// A quantity scaled by a power-of-two unit, rendered with one decimal
/// place (rounding half away from zero).
pub open spec fn spec_scaled_tenths(b: int, unit: int) -> Seq<char> {
    let w = b / unit;
    let t = ((b % unit) * 10 + unit / 2) / unit;
    if t == 10 {
        spec_digits(w + 1) + seq!['.', '0']
    } else {
        spec_digits(w) + seq!['.', spec_digit_char(t)]
    }
}

/// A byte count rendered for people: one decimal place of the largest
/// binary unit that fits, or plain bytes below one kibibyte.
pub open spec fn spec_format_bytes(b: int) -> Seq<char> {
    if b >= 0x40000000 {
        spec_scaled_tenths(b, 0x40000000) + "GB"@
    } else if b >= 0x100000 {
        spec_scaled_tenths(b, 0x100000) + "MB"@
    } else if b >= 0x400 {
        spec_scaled_tenths(b, 0x400) + "KB"@
    } else {
        spec_digits(b) + "B"@
    }
}

fn scaled_tenths(b: u64, unit: u64) -> (r: String)
    requires
        1024 <= unit <= 0x40000000,
        b >= unit,
    ensures
        r@ == spec_scaled_tenths(b as int, unit as int),
{
    let w = b / unit;
    let rem = b % unit;
    let t = (rem * 10 + unit / 2) / unit;
    proof {
        let u = unit as int;
        let x = (rem * 10 + unit / 2) as int;
        vstd::arithmetic::div_mod::lemma_div_multiples_vanish_fancy(10, u - 1, u);
        vstd::arithmetic::div_mod::lemma_div_is_ordered(x, u * 10 + (u - 1), u);
        assert(t <= 10);
        vstd::arithmetic::div_mod::lemma_div_is_ordered_by_denominator(b as int, 1024, u);
        vstd::arithmetic::div_mod::lemma_div_is_ordered(b as int, u64::MAX as int, 1024);
        assert((b as int) / u <= u64::MAX as int / 1024);
    }
    if t == 10 {
        let mut out = u64_to_string(w + 1);
        push_char(&mut out, '.');
        push_char(&mut out, '0');
        proof {
            assert(out@ =~= spec_digits(w + 1) + seq!['.', '0']);
        }
        out
    } else {
        let mut out = u64_to_string(w);
        push_char(&mut out, '.');
        push_char(&mut out, ((48 + t as u8)) as char);
        proof {
            assert(out@ =~= spec_digits(w as int) + seq!['.', spec_digit_char(t as int)]);
        }
        out
    }
}

/// Render a byte count for people ("1.5GB", "512B").
pub fn format_bytes(bytes: u64) -> (r: String)
    ensures
        r@ == spec_format_bytes(bytes as int),
{
    if bytes >= 0x40000000 {
        let mut out = scaled_tenths(bytes, 0x40000000);
        out.append("GB");
        out
    } else if bytes >= 0x100000 {
        let mut out = scaled_tenths(bytes, 0x100000);
        out.append("MB");
        out
    } else if bytes >= 0x400 {
        let mut out = scaled_tenths(bytes, 0x400);
        out.append("KB");
        out
    } else {
        let mut out = u64_to_string(bytes);
        out.append("B");
        out
    }
}

/// The whitespace characters of the Unicode White_Space property.
pub open spec fn spec_is_space(c: char) -> bool {
    let u = c as u32;
    ||| (9 <= u && u <= 13)
    ||| u == 32
    ||| u == 0x85
    ||| u == 0xA0
    ||| u == 0x1680
    ||| (0x2000 <= u && u <= 0x200A)
    ||| u == 0x2028
    ||| u == 0x2029
    ||| u == 0x202F
    ||| u == 0x205F
    ||| u == 0x3000
}

/// Whether a character has the Unicode White_Space property.
pub fn is_space(c: char) -> (r: bool)
    ensures
        r == spec_is_space(c),
{
    let u = c as u32;
    (9 <= u && u <= 13) || u == 32 || u == 0x85 || u == 0xA0 || u == 0x1680 || (0x2000 <= u && u
        <= 0x200A) || u == 0x2028 || u == 0x2029 || u == 0x202F || u == 0x205F || u == 0x3000
}

/// The end of the text once trailing whitespace is dropped.
pub open spec fn spec_rstrip_idx(s: Seq<char>, e: int) -> int
    decreases e,
{
    if 0 < e <= s.len() && spec_is_space(s[e - 1]) {
        spec_rstrip_idx(s, e - 1)
    } else {
        e
    }
}

/// The first index at or after `i` that is not whitespace.
pub open spec fn spec_space_end(s: Seq<char>, i: int) -> int
    decreases s.len() - i,
{
    if 0 <= i < s.len() && spec_is_space(s[i]) {
        spec_space_end(s, i + 1)
    } else {
        i
    }
}

/// The first index at or after `i` that is whitespace (or the end).
pub open spec fn spec_word_end(s: Seq<char>, i: int) -> int
    decreases s.len() - i,
{
    if 0 <= i < s.len() && !spec_is_space(s[i]) {
        spec_word_end(s, i + 1)
    } else {
        i
    }
}

pub proof fn lemma_space_end_bounds(s: Seq<char>, i: int)
    requires
        0 <= i <= s.len(),
    ensures
        i <= spec_space_end(s, i) <= s.len(),
    decreases s.len() - i,
{
    if i < s.len() && spec_is_space(s[i]) {
        lemma_space_end_bounds(s, i + 1);
    }
}

pub proof fn lemma_word_end_bounds(s: Seq<char>, i: int)
    requires
        0 <= i <= s.len(),
    ensures
        i <= spec_word_end(s, i) <= s.len(),
    decreases s.len() - i,
{
    if i < s.len() && !spec_is_space(s[i]) {
        lemma_word_end_bounds(s, i + 1);
    }
}

fn space_end_vec(v: &Vec<char>, i: usize) -> (r: usize)
    requires
        i <= v@.len(),
    ensures
        r == spec_space_end(v@, i as int),
        i <= r <= v@.len(),
        spec_space_end(v@, r as int) == r as int,
{
    let n = v.len();
    let mut j = i;
    while j < n && is_space(v[j])
        invariant
            i <= j <= n,
            n == v@.len(),
            spec_space_end(v@, i as int) == spec_space_end(v@, j as int),
        decreases n - j,
    {
        j += 1;
    }
    proof {
        assert(spec_space_end(v@, j as int) == j as int);
    }
    j
}

fn word_end_vec(v: &Vec<char>, i: usize) -> (r: usize)
    requires
        i <= v@.len(),
    ensures
        r == spec_word_end(v@, i as int),
        i <= r <= v@.len(),
        spec_word_end(v@, r as int) == r as int,
{
    let n = v.len();
    let mut j = i;
    while j < n && !is_space(v[j])
        invariant
            i <= j <= n,
            n == v@.len(),
            spec_word_end(v@, i as int) == spec_word_end(v@, j as int),
        decreases n - j,
    {
        j += 1;
    }
    proof {
        assert(spec_word_end(v@, j as int) == j as int);
    }
    j
}

/// The whitespace-separated words of `s`, in order.
pub open spec fn spec_split_ws_from(s: Seq<char>, i: int) -> Seq<Seq<char>>
    decreases s.len() - i,
    when 0 <= i <= s.len()
    via spec_split_ws_from_dec
{
    let start = spec_space_end(s, i);
    if start >= s.len() {
        Seq::empty()
    } else {
        let stop = spec_word_end(s, start);
        seq![s.subrange(start, stop)] + spec_split_ws_from(s, stop)
    }
}

pub proof fn lemma_space_end_stops(s: Seq<char>, i: int)
    requires
        0 <= i <= s.len(),
    ensures
        spec_space_end(s, i) < s.len() ==> !spec_is_space(s[spec_space_end(s, i)]),
    decreases s.len() - i,
{
    if i < s.len() && spec_is_space(s[i]) {
        lemma_space_end_stops(s, i + 1);
    }
}

#[via_fn]
proof fn spec_split_ws_from_dec(s: Seq<char>, i: int) {
    lemma_space_end_bounds(s, i);
    lemma_space_end_stops(s, i);
    let start = spec_space_end(s, i);
    if start < s.len() {
        lemma_word_end_bounds(s, start + 1);
        assert(spec_word_end(s, start) == spec_word_end(s, start + 1));
    }
}

/// The whitespace-separated words of `s`.
pub open spec fn spec_split_ws(s: Seq<char>) -> Seq<Seq<char>> {
    spec_split_ws_from(s, 0)
}

/// The substring of `s` from `from` to `to`, as an owned string.
pub fn string_of_range(v: &Vec<char>, from: usize, to: usize) -> (r: String)
    requires
        from <= to <= v@.len(),
    ensures
        r@ == v@.subrange(from as int, to as int),
{
    let mut out = String::new();
    let mut k = from;
    while k < to
        invariant
            from <= k <= to <= v@.len(),
            out@ =~= v@.subrange(from as int, k as int),
        decreases to - k,
    {
        push_char(&mut out, v[k]);
        k += 1;
    }
    proof {
        assert(out@ =~= v@.subrange(from as int, to as int));
    }
    out
}

/// Split on runs of whitespace, dropping empty pieces.
pub fn split_whitespace_vec(s: &str) -> (r: Vec<String>)
    ensures
        r@.map_values(|w: String| w@) =~= spec_split_ws(s@),
{
    let v = chars_vec(s);
    let n = v.len();
    let mut out: Vec<String> = Vec::new();
    let mut i: usize = 0;
    proof {
        lemma_space_end_bounds(v@, 0);
    }
    let mut start = space_end_vec(&v, 0);
    proof {
        assert(spec_split_ws(s@) == spec_split_ws_from(s@, start as int)) by {
            if (start as int) < s@.len() {
                assert(spec_space_end(s@, start as int) == start as int);
            }
        }
    }
    while start < n
        invariant
            n == v@.len(),
            v@ == s@,
            start <= n,
            start == spec_space_end(v@, start as int),
            out@.map_values(|w: String| w@) + spec_split_ws_from(s@, start as int)
                =~= spec_split_ws(s@),
        decreases n - start,
    {
        let stop = word_end_vec(&v, start);
        proof {
            assert(spec_word_end(v@, start as int) == stop as int);
            assert(stop > start) by {
                assert(!spec_is_space(v@[start as int]));
            }
        }
        let word = string_of_range(&v, start, stop);
        let ghost before = out@.map_values(|w: String| w@);
        out.push(word);
        proof {
            assert(out@.map_values(|w: String| w@) =~= before.push(
                v@.subrange(start as int, stop as int),
            ));
        }
        let next = space_end_vec(&v, stop);
        proof {
            assert(spec_split_ws_from(s@, start as int) =~= seq![
                s@.subrange(start as int, stop as int),
            ] + spec_split_ws_from(s@, stop as int));
            assert(spec_split_ws_from(s@, stop as int) == spec_split_ws_from(s@, next as int)) by {
                assert(spec_space_end(s@, stop as int) == next as int);
                if next < n {
                    assert(spec_space_end(s@, next as int) == next as int);
                }
            }
        }
        start = next;
    }
    proof {
        assert(spec_split_ws_from(s@, start as int) =~= Seq::<Seq<char>>::empty());
        assert(out@.map_values(|w: String| w@) =~= spec_split_ws(s@));
    }
    out
}

/// The words joined with single spaces, from index `from` on.
pub open spec fn spec_join_space(words: Seq<Seq<char>>, from: int) -> Seq<char>
    decreases words.len() - from,
    when 0 <= from <= words.len()
{
    if from >= words.len() {
        Seq::empty()
    } else if from == words.len() - 1 {
        words[from]
    } else {
        words[from] + " "@ + spec_join_space(words, from + 1)
    }
}

/// Join words with single spaces, starting at `from`.
pub fn join_space(words: &Vec<String>, from: usize) -> (r: String)
    requires
        from <= words@.len(),
    ensures
        r@ == spec_join_space(words@.map_values(|w: String| w@), from as int),
{
    let n = words.len();
    let mut out = String::new();
    let mut k = from;
    while k < n
        invariant
            from <= k <= n,
            n == words@.len(),
            out@ + spec_join_space(words@.map_values(|w: String| w@), k as int) =~= spec_join_space(
                words@.map_values(|w: String| w@),
                from as int,
            ),
            k > from && k < n ==> out@.len() > 0 && out@.last() == ' ',
            k == from ==> out@ =~= Seq::<char>::empty(),
        decreases n - k,
    {
        out.append(words[k].as_str());
        if k + 1 < n {
            push_char(&mut out, ' ');
        }
        k += 1;
        proof {
            reveal_strlit(" ");
            let ws = words@.map_values(|w: String| w@);
            if k < n {
                assert(spec_join_space(ws, k - 1) =~= ws[k - 1] + " "@ + spec_join_space(
                    ws,
                    k as int,
                ));
            } else {
                assert(spec_join_space(ws, k - 1) =~= ws[k - 1]);
                assert(spec_join_space(ws, k as int) =~= Seq::<char>::empty());
            }
            assert(out@ + spec_join_space(ws, k as int) =~= spec_join_space(ws, from as int));
        }
    }
    proof {
        let ws = words@.map_values(|w: String| w@);
        assert(spec_join_space(ws, n as int) =~= Seq::<char>::empty());
        assert(out@ =~= out@ + Seq::<char>::empty());
    }
    out
}


/// The text trimmed of whitespace on both ends.
pub open spec fn spec_trim(s: Seq<char>) -> Seq<char> {
    let t = s.skip(spec_space_end(s, 0));
    t.take(spec_rstrip_idx(t, t.len() as int))
}

/// Trim whitespace from both ends.
pub fn trim_str(s: &str) -> (r: String)
    ensures
        r@ == spec_trim(s@),
{
    let v = chars_vec(s);
    let n = v.len();
    let mut a: usize = 0;
    while a < n && is_space(v[a])
        invariant
            a <= n,
            n == v@.len(),
            spec_space_end(v@, 0) == spec_space_end(v@, a as int),
        decreases n - a,
    {
        a += 1;
    }
    proof {
        assert(spec_space_end(v@, a as int) == a as int);
    }
    let mut b: usize = n;
    while b > a && is_space(v[b - 1])
        invariant
            a <= b <= n,
            n == v@.len(),
            spec_space_end(v@, 0) == a as int,
            spec_rstrip_idx(v@.skip(a as int), (n - a) as int) == spec_rstrip_idx(
                v@.skip(a as int),
                (b - a) as int,
            ),
        decreases b,
    {
        proof {
            assert(v@.skip(a as int)[b - a - 1] == v@[b - 1]);
        }
        b -= 1;
    }
    proof {
        if b > a {
            assert(v@.skip(a as int)[b - a - 1] == v@[b - 1]);
        }
        assert(spec_rstrip_idx(v@.skip(a as int), (b - a) as int) == (b - a) as int);
    }
    let r = string_of_range(&v, a, b);
    proof {
        assert(v@.skip(a as int).take((b - a) as int) =~= v@.subrange(a as int, b as int));
        assert(r@ == spec_trim(s@));
    }
    r
}

/// The decimal digit character for `d` (0 to 9).
pub open spec fn spec_digit_char(d: int) -> char {
    ((48 + d) as u8) as char
}

/// Decimal rendering of a natural number, most significant digit first.
pub open spec fn spec_digits(n: int) -> Seq<char>
    decreases n,
{
    if n < 10 {
        seq![spec_digit_char(if n < 0 { 0 } else { n })]
    } else {
        spec_digits(n / 10).push(spec_digit_char(n % 10))
    }
}

/// Render `n` in decimal.
pub fn u64_to_string(n: u64) -> (s: String)
    ensures
        s@ == spec_digits(n as int),
{
    let mut digits: Vec<char> = Vec::new();
    let mut m = n;
    if m < 10 {
        let mut s = String::new();
        push_char(&mut s, ((48 + m as u8)) as char);
        return s;
    }
    while m > 0
        invariant
            m > 0 ==> spec_digits(n as int) =~= spec_digits(m as int) + digits@.reverse(),
            m == 0 ==> spec_digits(n as int) =~= digits@.reverse(),
        decreases m,
    {
        let d = (m % 10) as u8;
        let ghost old_digits = digits@;
        let ghost old_m = m as int;
        digits.push((48 + d) as char);
        m = m / 10;
        proof {
            assert(digits@.reverse() =~= seq![spec_digit_char(old_m % 10)] + old_digits.reverse());
            if m > 0 {
                assert(spec_digits(old_m) =~= spec_digits(old_m / 10).push(
                    spec_digit_char(old_m % 10),
                ));
                assert(spec_digits(old_m / 10).push(spec_digit_char(old_m % 10))
                    + old_digits.reverse() =~= spec_digits(old_m / 10) + digits@.reverse());
            } else {
                assert(old_m < 10);
                assert(spec_digits(old_m) =~= seq![spec_digit_char(old_m)]);
                assert(old_m % 10 == old_m);
            }
        }
    }
    let len = digits.len();
    proof {
        assert(digits@.reverse().len() == len as int);
        assert(spec_digits(n as int).len() == len as int);
    }
    let mut s = String::new();
    let mut i: usize = len;
    while i > 0
        invariant
            len == digits@.len(),
            spec_digits(n as int) =~= digits@.reverse(),
            i <= len,
            s@ =~= spec_digits(n as int).subrange(0, len - i),
        decreases i,
    {
        i -= 1;
        push_char(&mut s, digits[i]);
        proof {
            assert(digits@.reverse()[len - i - 1] == digits@[i as int]);
            assert(s@ =~= spec_digits(n as int).subrange(0, len - i));
        }
    }
    proof {
        assert(s@ =~= spec_digits(n as int));
    }
    s
}

} // verus!
