//! Text forms of IP addresses.
//!
//! Record content arrives from the provider as text; the matcher needs the
//! numeric address behind it. The accepted grammar is the usual one: four
//! dotted decimal octets without leading zeros for IPv4; colon-separated
//! groups of one to four hex digits for IPv6, with at most one `::` standing
//! for one or more zero groups, and an optional trailing dotted quad taking
//! the place of the last two groups.

use vstd::prelude::*;

use crate::addr::{IpAddress, Ipv4Address, Ipv6Address};

verus! {

/// Whether `c` is a decimal digit.
pub open spec fn spec_is_digit(c: char) -> bool {
    '0' <= c && c <= '9'
}

/// The value of a decimal digit.
pub open spec fn spec_digit_val(c: char) -> int {
    c as u32 - '0' as u32
}

/// Whether `c` is a decimal digit.
#[verifier::when_used_as_spec(spec_is_digit)]
pub fn is_digit_char(c: char) -> (b: bool)
    ensures
        b == spec_is_digit(c),
{
    '0' <= c && c <= '9'
}

/// The first position at or after `i` that does not hold a decimal digit.
pub open spec fn digit_run_end(s: Seq<char>, i: int) -> int
    decreases s.len() - i when 0 <= i <= s.len()
{
    if i < s.len() && spec_is_digit(s[i]) {
        digit_run_end(s, i + 1)
    } else {
        i
    }
}

/// What [`digit_run_end`] yields: a position within bounds, digits all the
/// way up to it, and a non-digit (or the end) at it.
proof fn lemma_digit_run_end(s: Seq<char>, i: int)
    requires
        0 <= i <= s.len(),
    ensures
        i <= digit_run_end(s, i) <= s.len(),
        forall|k: int| i <= k < digit_run_end(s, i) ==> spec_is_digit(s[k]),
        digit_run_end(s, i) < s.len() ==> !spec_is_digit(s[digit_run_end(s, i)]),
    decreases s.len() - i,
{
    if i < s.len() && spec_is_digit(s[i]) {
        lemma_digit_run_end(s, i + 1);
    }
}

/// The number a string of decimal digits denotes, most significant first.
pub open spec fn digits_val(s: Seq<char>) -> int
    decreases s.len(),
{
    if s.len() == 0 {
        0
    } else {
        digits_val(s.drop_last()) * 10 + spec_digit_val(s.last())
    }
}

/// A digit string's value is bounded by its length.
proof fn lemma_digits_val_bound(s: Seq<char>)
    requires
        forall|i: int| 0 <= i < s.len() ==> spec_is_digit(s[i]),
        s.len() <= 3,
    ensures
        0 <= digits_val(s),
        s.len() <= 1 ==> digits_val(s) < 10,
        s.len() <= 2 ==> digits_val(s) < 100,
        digits_val(s) < 1000,
    decreases s.len(),
{
    if s.len() > 0 {
        lemma_digits_val_bound(s.drop_last());
    }
}

/// The text of one dotted-quad octet: one to three digits, no leading
/// zero, value at most 255.
pub open spec fn valid_octet_text(s: Seq<char>) -> bool {
    &&& 1 <= s.len() <= 3
    &&& (forall|i: int| 0 <= i < s.len() ==> spec_is_digit(s[i]))
    &&& digits_val(s) <= 255
    &&& (s.len() > 1 ==> s[0] != '0')
}

/// What `s` denotes as an IPv4 address in dotted-quad form, if anything:
/// four octet texts joined by single dots, nothing else.
pub open spec fn spec_parse_ipv4(s: Seq<char>) -> Option<Ipv4Address> {
    let e0 = digit_run_end(s, 0);
    let e1 = digit_run_end(s, e0 + 1);
    let e2 = digit_run_end(s, e1 + 1);
    let e3 = digit_run_end(s, e2 + 1);
    if e0 < s.len() && s[e0] == '.' && e1 < s.len() && s[e1] == '.' && e2 < s.len() && s[e2]
        == '.' && e3 == s.len() && valid_octet_text(s.subrange(0, e0)) && valid_octet_text(
        s.subrange(e0 + 1, e1),
    ) && valid_octet_text(s.subrange(e1 + 1, e2)) && valid_octet_text(s.subrange(e2 + 1, e3)) {
        Some(
            Ipv4Address {
                o0: digits_val(s.subrange(0, e0)) as u8,
                o1: digits_val(s.subrange(e0 + 1, e1)) as u8,
                o2: digits_val(s.subrange(e1 + 1, e2)) as u8,
                o3: digits_val(s.subrange(e2 + 1, e3)) as u8,
            },
        )
    } else {
        None
    }
}

/// The end of the digit run that starts at `i`.
fn scan_digit_run(s: &str, i: usize) -> (end: usize)
    requires
        i <= s@.len(),
    ensures
        end == digit_run_end(s@, i as int),
        i <= end <= s@.len(),
    decreases s@.len() - i,
{
    let n = s.unicode_len();
    if i < n && is_digit_char(s.get_char(i)) {
        scan_digit_run(s, i + 1)
    } else {
        i
    }
}

/// Reads the octet text that starts at `start`: hands back the end of its
/// digit run, and its value when the run is a well-formed octet.
fn parse_octet(s: &str, start: usize) -> (r: (usize, Option<u8>))
    requires
        start <= s@.len(),
    ensures
        r.0 == digit_run_end(s@, start as int),
        start <= r.0 <= s@.len(),
        match r.1 {
            Some(v) => valid_octet_text(s@.subrange(start as int, r.0 as int)) && v == digits_val(
                s@.subrange(start as int, r.0 as int),
            ),
            None => !valid_octet_text(s@.subrange(start as int, r.0 as int)),
        },
{
    let end = scan_digit_run(s, start);
    proof {
        lemma_digit_run_end(s@, start as int);
    }
    if end - start < 1 || end - start > 3 {
        return (end, None);
    }
    if end - start > 1 && s.get_char(start) == '0' {
        return (end, None);
    }
    let mut val: u32 = 0;
    let mut i: usize = start;
    while i < end
        invariant
            start <= i <= end <= s@.len(),
            end - start <= 3,
            forall|k: int| start <= k < end ==> spec_is_digit(s@[k]),
            val == digits_val(s@.subrange(start as int, i as int)),
        decreases end - i,
    {
        let c = s.get_char(i);
        proof {
            let pre = s@.subrange(start as int, i as int);
            let cur = s@.subrange(start as int, i + 1);
            assert(cur.drop_last() =~= pre);
            assert(cur.last() == s@[i as int]);
            assert(digits_val(cur) == digits_val(pre) * 10 + spec_digit_val(s@[i as int]));
            assert(forall|k: int| 0 <= k < pre.len() ==> spec_is_digit(pre[k]));
            lemma_digits_val_bound(pre);
        }
        val = val * 10 + (c as u32 - '0' as u32);
        i = i + 1;
    }
    if val > 255 {
        return (end, None);
    }
    (end, Some(val as u8))
}

/// Reads `s` as an IPv4 address in dotted-quad text form.
pub fn parse_ipv4(s: &str) -> (r: Option<Ipv4Address>)
    ensures
        r == spec_parse_ipv4(s@),
{
    let n = s.unicode_len();
    let (e0, v0) = parse_octet(s, 0);
    if e0 == n || s.get_char(e0) != '.' {
        return None;
    }
    let (e1, v1) = parse_octet(s, e0 + 1);
    if e1 == n || s.get_char(e1) != '.' {
        return None;
    }
    let (e2, v2) = parse_octet(s, e1 + 1);
    if e2 == n || s.get_char(e2) != '.' {
        return None;
    }
    let (e3, v3) = parse_octet(s, e2 + 1);
    if e3 != n {
        return None;
    }
    match (v0, v1, v2, v3) {
        (Some(a), Some(b), Some(c), Some(d)) => Some(Ipv4Address { o0: a, o1: b, o2: c, o3: d }),
        _ => None,
    }
}

/// Whether `c` is a hexadecimal digit, either case.
pub open spec fn spec_is_hex_digit(c: char) -> bool {
    ||| ('0' <= c && c <= '9')
    ||| ('a' <= c && c <= 'f')
    ||| ('A' <= c && c <= 'F')
}

/// The value of a hexadecimal digit.
pub open spec fn spec_hex_val(c: char) -> int {
    if '0' <= c && c <= '9' {
        c as u32 - '0' as u32
    } else if 'a' <= c && c <= 'f' {
        c as u32 - 'a' as u32 + 10
    } else {
        c as u32 - 'A' as u32 + 10
    }
}

/// Whether `c` is a hexadecimal digit, either case.
#[verifier::when_used_as_spec(spec_is_hex_digit)]
pub fn is_hex_digit_char(c: char) -> (b: bool)
    ensures
        b == spec_is_hex_digit(c),
{
    ('0' <= c && c <= '9') || ('a' <= c && c <= 'f') || ('A' <= c && c <= 'F')
}

/// The value of a hexadecimal digit.
fn hex_digit_val(c: char) -> (v: u32)
    requires
        spec_is_hex_digit(c),
    ensures
        v == spec_hex_val(c),
{
    if '0' <= c && c <= '9' {
        c as u32 - '0' as u32
    } else if 'a' <= c && c <= 'f' {
        c as u32 - 'a' as u32 + 10
    } else {
        c as u32 - 'A' as u32 + 10
    }
}

/// The number a string of hexadecimal digits denotes, most significant
/// first.
pub open spec fn hex_val_of(s: Seq<char>) -> int
    decreases s.len(),
{
    if s.len() == 0 {
        0
    } else {
        hex_val_of(s.drop_last()) * 16 + spec_hex_val(s.last())
    }
}

/// A hex string's value is bounded by its length.
proof fn lemma_hex_val_bound(s: Seq<char>)
    requires
        forall|i: int| 0 <= i < s.len() ==> spec_is_hex_digit(s[i]),
        s.len() <= 4,
    ensures
        0 <= hex_val_of(s),
        s.len() <= 1 ==> hex_val_of(s) < 0x10,
        s.len() <= 2 ==> hex_val_of(s) < 0x100,
        s.len() <= 3 ==> hex_val_of(s) < 0x1000,
        hex_val_of(s) < 0x10000,
    decreases s.len(),
{
    if s.len() > 0 {
        lemma_hex_val_bound(s.drop_last());
    }
}

/// The text of one 16-bit group: one to four hexadecimal digits.
pub open spec fn seg_is_h16(s: Seq<char>) -> bool {
    &&& 1 <= s.len() <= 4
    &&& forall|i: int| 0 <= i < s.len() ==> spec_is_hex_digit(s[i])
}

/// Reads a whole segment as one 16-bit group.
fn parse_h16(s: &str) -> (r: Option<u16>)
    ensures
        match r {
            Some(v) => seg_is_h16(s@) && v == hex_val_of(s@),
            None => !seg_is_h16(s@),
        },
{
    let n = s.unicode_len();
    if n < 1 || n > 4 {
        return None;
    }
    let mut val: u32 = 0;
    let mut i: usize = 0;
    while i < n
        invariant
            i <= n <= 4,
            n == s@.len(),
            forall|k: int| 0 <= k < i ==> spec_is_hex_digit(s@[k]),
            val == hex_val_of(s@.subrange(0, i as int)),
        decreases n - i,
    {
        let c = s.get_char(i);
        if !is_hex_digit_char(c) {
            return None;
        }
        proof {
            let pre = s@.subrange(0, i as int);
            let cur = s@.subrange(0, i + 1);
            assert(cur.drop_last() =~= pre);
            assert(cur.last() == s@[i as int]);
            lemma_hex_val_bound(pre);
        }
        val = val * 16 + hex_digit_val(c);
        i = i + 1;
    }
    proof {
        assert(s@.subrange(0, n as int) =~= s@);
        lemma_hex_val_bound(s@);
    }
    Some(val as u16)
}

/// The first position at or after `i` that holds a colon, or the end.
pub open spec fn first_colon(s: Seq<char>, i: int) -> int
    decreases s.len() - i when 0 <= i <= s.len()
{
    if i < s.len() && s[i] != ':' {
        first_colon(s, i + 1)
    } else {
        i
    }
}

/// What [`first_colon`] yields: a position within bounds, no colon before
/// it, and a colon (or the end) at it.
proof fn lemma_first_colon(s: Seq<char>, i: int)
    requires
        0 <= i <= s.len(),
    ensures
        i <= first_colon(s, i) <= s.len(),
        forall|k: int| i <= k < first_colon(s, i) ==> s[k] != ':',
        first_colon(s, i) < s.len() ==> s[first_colon(s, i)] == ':',
    decreases s.len() - i,
{
    if i < s.len() && s[i] != ':' {
        lemma_first_colon(s, i + 1);
    }
}

/// The colon-separated segments of `s` from position `from` on: splitting
/// at every colon, with empty segments kept. One segment more than there
/// are colons.
pub open spec fn spec_split_from(s: Seq<char>, from: int) -> Seq<Seq<char>>
    decreases s.len() - from when 0 <= from <= s.len() via spec_split_from_dec
{
    let k = first_colon(s, from);
    if k == s.len() {
        seq![s.subrange(from, s.len() as int)]
    } else {
        seq![s.subrange(from, k)] + spec_split_from(s, k + 1)
    }
}

#[via_fn]
proof fn spec_split_from_dec(s: Seq<char>, from: int) {
    lemma_first_colon(s, from);
}

/// The colon-separated segments of `s`.
pub open spec fn spec_split_colon(s: Seq<char>) -> Seq<Seq<char>> {
    spec_split_from(s, 0)
}

/// The end of the colon-free run that starts at `i`.
fn find_colon(s: &str, i: usize) -> (end: usize)
    requires
        i <= s@.len(),
    ensures
        end == first_colon(s@, i as int),
        i <= end <= s@.len(),
    decreases s@.len() - i,
{
    let n = s.unicode_len();
    if i < n && s.get_char(i) != ':' {
        find_colon(s, i + 1)
    } else {
        i
    }
}

/// Splits `s` at every colon, from position `from` on.
fn split_from(s: &str, from: usize) -> (parts: Vec<String>)
    requires
        from <= s@.len(),
    ensures
        parts@.len() == spec_split_from(s@, from as int).len(),
        forall|i: int|
            0 <= i < parts@.len() ==> parts@[i]@ == spec_split_from(s@, from as int)[i],
    decreases s@.len() - from,
{
    let n = s.unicode_len();
    let k = find_colon(s, from);
    if k == n {
        let seg = s.substring_char(from, n);
        let mut parts: Vec<String> = Vec::new();
        parts.push(String::from_str(seg));
        parts
    } else {
        proof {
            lemma_first_colon(s@, from as int);
        }
        let seg = s.substring_char(from, k);
        let mut parts = split_from(s, k + 1);
        parts.insert(0, String::from_str(seg));
        proof {
            let rest_spec = spec_split_from(s@, k + 1);
            let whole = spec_split_from(s@, from as int);
            assert(whole == seq![s@.subrange(from as int, k as int)] + rest_spec);
            assert forall|i: int| 0 <= i < parts@.len() implies parts@[i]@ == whole[i] by {
                if i == 0 {
                    assert(whole[0] == s@.subrange(from as int, k as int));
                } else {
                    assert(whole[i] == rest_spec[i - 1]);
                }
            }
        }
        parts
    }
}

/// The views of a sequence of owned segments.
pub open spec fn seg_views(ps: Seq<String>) -> Seq<Seq<char>> {
    Seq::new(ps.len(), |i: int| ps[i]@)
}

/// The two 16-bit groups a dotted quad stands for when it closes an IPv6
/// address.
pub open spec fn v4_groups(a: Ipv4Address) -> Seq<u16> {
    seq![(a.o0 * 256 + a.o1) as u16, (a.o2 * 256 + a.o3) as u16]
}

/// The groups the segments `from..to` denote when every one must be a
/// plain 16-bit group.
pub open spec fn spec_h16_range(segs: Seq<Seq<char>>, from: int, to: int) -> Option<Seq<u16>> {
    if forall|k: int| from <= k < to ==> seg_is_h16(#[trigger] segs[k]) {
        Some(Seq::new((to - from) as nat, |i: int| hex_val_of(segs[from + i]) as u16))
    } else {
        None
    }
}

/// The groups the segments `from..to` denote when the last of them may
/// instead be a dotted quad standing for two groups.
pub open spec fn spec_tail_range(segs: Seq<Seq<char>>, from: int, to: int) -> Option<Seq<u16>> {
    if from >= to {
        Some(Seq::<u16>::empty())
    } else {
        match spec_h16_range(segs, from, to - 1) {
            Some(front) => if seg_is_h16(segs[to - 1]) {
                Some(front.push(hex_val_of(segs[to - 1]) as u16))
            } else {
                match spec_parse_ipv4(segs[to - 1]) {
                    Some(a) => Some(front + v4_groups(a)),
                    None => None,
                }
            },
            None => None,
        }
    }
}

/// The full group list: the left groups, enough zero groups to reach
/// eight, and the right groups.
pub open spec fn groups_with_fill(gl: Seq<u16>, gr: Seq<u16>) -> Seq<u16> {
    gl + Seq::new((8 - gl.len() - gr.len()) as nat, |i: int| 0u16) + gr
}

/// The address eight groups denote.
pub open spec fn ipv6_from_groups(g: Seq<u16>) -> Ipv6Address {
    Ipv6Address {
        g0: g[0],
        g1: g[1],
        g2: g[2],
        g3: g[3],
        g4: g[4],
        g5: g[5],
        g6: g[6],
        g7: g[7],
    }
}

/// The address a double-colon form denotes: plain groups on the left of
/// the `::`, a tail (possibly ending in a dotted quad) on its right, and
/// at most seven groups in all, the `::` standing for the rest.
pub open spec fn spec_dc_form(
    segs: Seq<Seq<char>>,
    left_from: int,
    left_to: int,
    right_from: int,
    right_to: int,
) -> Option<Ipv6Address> {
    match (spec_h16_range(segs, left_from, left_to), spec_tail_range(segs, right_from, right_to)) {
        (Some(gl), Some(gr)) => if gl.len() + gr.len() <= 7 {
            Some(ipv6_from_groups(groups_with_fill(gl, gr)))
        } else {
            None
        },
        _ => None,
    }
}

/// What `s` denotes as an IPv6 address, if anything.
///
/// The accepted forms, over the colon-separated segments of `s`: eight
/// groups and no `::`; or exactly one `::` — leading, trailing, inner, or
/// the whole of `s` — with the remaining groups numbering at most seven.
/// The final group of the address may be a dotted quad counting for two.
pub open spec fn spec_parse_ipv6(s: Seq<char>) -> Option<Ipv6Address> {
    let segs = spec_split_colon(s);
    let l = segs.len() as int;
    if !(exists|k: int| 0 <= k < l && #[trigger] segs[k].len() == 0) {
        match spec_tail_range(segs, 0, l) {
            Some(g) => if g.len() == 8 {
                Some(ipv6_from_groups(g))
            } else {
                None
            },
            None => None,
        }
    } else if l == 3 && segs[0].len() == 0 && segs[1].len() == 0 && segs[2].len() == 0 {
        spec_dc_form(segs, 0, 0, 0, 0)
    } else if l >= 3 && segs[0].len() == 0 && segs[1].len() == 0 && (forall|k: int|
        2 <= k < l ==> #[trigger] segs[k].len() > 0) {
        spec_dc_form(segs, 0, 0, 2, l)
    } else if l >= 3 && segs[l - 1].len() == 0 && segs[l - 2].len() == 0 && (forall|k: int|
        0 <= k < l - 2 ==> #[trigger] segs[k].len() > 0) {
        spec_dc_form(segs, 0, l - 2, l, l)
    } else if exists|k: int| is_sole_inner_empty(segs, k) {
        let k = choose|k: int| is_sole_inner_empty(segs, k);
        spec_dc_form(segs, 0, k, k + 1, l)
    } else {
        None
    }
}

/// Segment `k` is empty, lies strictly inside the list, and every other
/// segment is non-empty: the shape of a single inner `::`.
pub open spec fn is_sole_inner_empty(segs: Seq<Seq<char>>, k: int) -> bool {
    &&& 0 < k < segs.len() - 1
    &&& segs[k].len() == 0
    &&& forall|k2: int| 0 <= k2 < segs.len() && k2 != k ==> #[trigger] segs[k2].len() > 0
}

/// The groups of the segments `from..to`, every one a plain 16-bit group.
fn h16_range(parts: &Vec<String>, from: usize, to: usize) -> (r: Option<Vec<u16>>)
    requires
        from <= to <= parts@.len(),
    ensures
        match r {
            Some(g) => spec_h16_range(seg_views(parts@), from as int, to as int) == Some(g@),
            None => spec_h16_range(seg_views(parts@), from as int, to as int) is None,
        },
{
    let ghost segs = seg_views(parts@);
    let mut g: Vec<u16> = Vec::new();
    let mut i: usize = from;
    while i < to
        invariant
            from <= i <= to <= parts@.len(),
            segs == seg_views(parts@),
            g@.len() == i - from,
            forall|k: int| from <= k < i ==> seg_is_h16(#[trigger] segs[k]),
            forall|j: int| 0 <= j < g@.len() ==> g@[j] == hex_val_of(segs[from + j]) as u16,
        decreases to - i,
    {
        match parse_h16(parts[i].as_str()) {
            Some(v) => {
                g.push(v);
            },
            None => {
                proof {
                    assert(!seg_is_h16(segs[i as int]));
                }
                return None;
            },
        }
        i = i + 1;
    }
    proof {
        let expected = Seq::new((to - from) as nat, |j: int| hex_val_of(segs[from + j]) as u16);
        assert(g@ =~= expected);
    }
    Some(g)
}

/// The groups of the segments `from..to`, the last of which may be a
/// dotted quad.
fn tail_range(parts: &Vec<String>, from: usize, to: usize) -> (r: Option<Vec<u16>>)
    requires
        from <= to <= parts@.len(),
    ensures
        match r {
            Some(g) => spec_tail_range(seg_views(parts@), from as int, to as int) == Some(g@),
            None => spec_tail_range(seg_views(parts@), from as int, to as int) is None,
        },
{
    if from >= to {
        let g: Vec<u16> = Vec::new();
        proof {
            assert(g@ =~= Seq::<u16>::empty());
        }
        return Some(g);
    }
    let mut g = match h16_range(parts, from, to - 1) {
        Some(g) => g,
        None => {
            return None;
        },
    };
    let last = &parts[to - 1];
    match parse_h16(last.as_str()) {
        Some(v) => {
            g.push(v);
            Some(g)
        },
        None => {
            match parse_ipv4(last.as_str()) {
                Some(a) => {
                    g.push((a.o0 as u16) * 256 + (a.o1 as u16));
                    g.push((a.o2 as u16) * 256 + (a.o3 as u16));
                    proof {
                        let segs = seg_views(parts@);
                        let front = spec_h16_range(segs, from as int, to - 1)->Some_0;
                        assert(g@ =~= front + v4_groups(a));
                    }
                    Some(g)
                },
                None => None,
            }
        },
    }
}

/// The first segment at or after `from` that is empty, or the segment
/// count when none is.
fn find_empty(parts: &Vec<String>, from: usize) -> (k: usize)
    requires
        from <= parts@.len(),
    ensures
        from <= k <= parts@.len(),
        forall|j: int| from <= j < k ==> #[trigger] seg_views(parts@)[j].len() > 0,
        k < parts@.len() ==> seg_views(parts@)[k as int].len() == 0,
    decreases parts@.len() - from,
{
    if from < parts.len() && !parts[from].as_str().is_empty() {
        find_empty(parts, from + 1)
    } else {
        from
    }
}

/// Whether every segment in `from..to` is non-empty.
fn all_nonempty(parts: &Vec<String>, from: usize, to: usize) -> (b: bool)
    requires
        from <= to <= parts@.len(),
    ensures
        b == (forall|k: int| from <= k < to ==> #[trigger] seg_views(parts@)[k].len() > 0),
    decreases to - from,
{
    if from < to {
        if parts[from].as_str().is_empty() {
            proof {
                assert(seg_views(parts@)[from as int].len() == 0);
            }
            return false;
        }
        all_nonempty(parts, from + 1, to)
    } else {
        true
    }
}

/// Builds the address out of left and right groups, the `::` filling the
/// middle with zeros.
fn assemble_filled(gl: Vec<u16>, gr: Vec<u16>) -> (a: Ipv6Address)
    requires
        gl@.len() + gr@.len() <= 8,
    ensures
        a == ipv6_from_groups(groups_with_fill(gl@, gr@)),
{
    let mut g = gl;
    let ghost left = g@;
    let fill = 8 - g.len() - gr.len();
    let mut z: usize = 0;
    while z < fill
        invariant
            z <= fill,
            g@.len() == left.len() + z,
            forall|j: int| 0 <= j < left.len() ==> g@[j] == left[j],
            forall|j: int| left.len() <= j < g@.len() ==> g@[j] == 0u16,
        decreases fill - z,
    {
        g.push(0u16);
        z = z + 1;
    }
    let mut r: usize = 0;
    while r < gr.len()
        invariant
            r <= gr@.len(),
            g@.len() == left.len() + fill + r,
            forall|j: int| 0 <= j < left.len() + fill ==> g@[j] == (left + Seq::new(
                fill as nat,
                |i: int| 0u16,
            ))[j],
            forall|j: int| 0 <= j < r ==> g@[left.len() + fill + j] == gr@[j],
        decreases gr@.len() - r,
    {
        let v = gr[r];
        g.push(v);
        r = r + 1;
    }
    proof {
        assert(g@ =~= groups_with_fill(left, gr@));
    }
    Ipv6Address {
        g0: g[0],
        g1: g[1],
        g2: g[2],
        g3: g[3],
        g4: g[4],
        g5: g[5],
        g6: g[6],
        g7: g[7],
    }
}

/// The double-colon form over the given segment ranges.
fn dc_form(parts: &Vec<String>, left_from: usize, left_to: usize, right_from: usize, right_to: usize) -> (r: Option<
    Ipv6Address,
>)
    requires
        left_from <= left_to <= parts@.len(),
        right_from <= right_to <= parts@.len(),
    ensures
        r == spec_dc_form(
            seg_views(parts@),
            left_from as int,
            left_to as int,
            right_from as int,
            right_to as int,
        ),
{
    let gl = match h16_range(parts, left_from, left_to) {
        Some(g) => g,
        None => {
            return None;
        },
    };
    let gr = match tail_range(parts, right_from, right_to) {
        Some(g) => g,
        None => {
            return None;
        },
    };
    if gl.len() <= 7 && gr.len() <= 7 - gl.len() {
        Some(assemble_filled(gl, gr))
    } else {
        None
    }
}

/// Reads `s` as an IPv6 address in its usual text form.
pub fn parse_ipv6(s: &str) -> (r: Option<Ipv6Address>)
    ensures
        r == spec_parse_ipv6(s@),
{
    let parts = split_from(s, 0);
    proof {
        assert(seg_views(parts@) =~= spec_split_colon(s@));
    }
    let l = parts.len();
    let k1 = find_empty(&parts, 0);
    if k1 == l {
        // no "::" anywhere: eight plain groups
        match tail_range(&parts, 0, l) {
            Some(g) => {
                if g.len() == 8 {
                    let a = assemble_filled(g, Vec::new());
                    proof {
                        let gs = spec_tail_range(seg_views(parts@), 0, l as int)->Some_0;
                        assert(groups_with_fill(gs, Seq::<u16>::empty()) =~= gs);
                    }
                    Some(a)
                } else {
                    None
                }
            },
            None => None,
        }
    } else if l == 3 && parts[0].as_str().is_empty() && parts[1].as_str().is_empty()
        && parts[2].as_str().is_empty() {
        dc_form(&parts, 0, 0, 0, 0)
    } else if l >= 3 && parts[0].as_str().is_empty() && parts[1].as_str().is_empty()
        && all_nonempty(&parts, 2, l) {
        dc_form(&parts, 0, 0, 2, l)
    } else if l >= 3 && parts[l - 1].as_str().is_empty() && parts[l - 2].as_str().is_empty()
        && all_nonempty(&parts, 0, l - 2) {
        dc_form(&parts, 0, l - 2, l, l)
    } else if k1 > 0 && k1 < l - 1 && find_empty(&parts, k1 + 1) == l {
        proof {
            let segs = seg_views(parts@);
            assert(is_sole_inner_empty(segs, k1 as int));
            let kc = choose|k: int| is_sole_inner_empty(segs, k);
            assert(segs[kc].len() == 0);
            assert(kc == k1 as int);
        }
        dc_form(&parts, 0, k1, k1 + 1, l)
    } else {
        proof {
            let segs = seg_views(parts@);
            assert forall|k: int| !is_sole_inner_empty(segs, k) by {
                if is_sole_inner_empty(segs, k) {
                    assert(segs[k1 as int].len() == 0);
                    assert(k == k1 as int);
                }
            }
        }
        None
    }
}

/// What `s` denotes as an IP address of either family: the dotted-quad
/// reading wins, the IPv6 reading is tried after it.
pub open spec fn spec_parse_ip(s: Seq<char>) -> Option<IpAddress> {
    match spec_parse_ipv4(s) {
        Some(a) => Some(IpAddress::V4(a)),
        None => match spec_parse_ipv6(s) {
            Some(b) => Some(IpAddress::V6(b)),
            None => None,
        },
    }
}

/// Reads `s` as an IP address of either family.
pub fn parse_ip(s: &str) -> (r: Option<IpAddress>)
    ensures
        r == spec_parse_ip(s@),
{
    match parse_ipv4(s) {
        Some(a) => Some(IpAddress::V4(a)),
        None => match parse_ipv6(s) {
            Some(b) => Some(IpAddress::V6(b)),
            None => None,
        },
    }
}

} // verus!
