use vstd::prelude::*;
use vstd::string::StringExecFns;

use crate::ascii::{dec_str, digits_value, string_from_chars, u32_dec_string};
use crate::label::is_digit;
use crate::name::split_dots;

verus! {

/// An IPv4 address as its four octets.
#[derive(Debug, Clone, Copy, PartialEq, Eq, Structural)]
pub struct Ipv4Address {
    pub o0: u8,
    pub o1: u8,
    pub o2: u8,
    pub o3: u8,
}

/// An IPv6 address as its eight 16-bit segments.
#[derive(Debug, Clone, Copy, PartialEq, Eq, Structural)]
pub struct Ipv6Address {
    pub s0: u16,
    pub s1: u16,
    pub s2: u16,
    pub s3: u16,
    pub s4: u16,
    pub s5: u16,
    pub s6: u16,
    pub s7: u16,
}

/// Text accepted as one dotted-quad part: one to three digits, no leading
/// zero, value at most 255.
pub open spec fn is_dec_octet(s: Seq<char>) -> bool {
    &&& 1 <= s.len() <= 3
    &&& forall|i: int| 0 <= i < s.len() ==> is_digit(#[trigger] s[i])
    &&& (s.len() > 1 ==> s[0] != '0')
    &&& digits_value(s) <= 255
}

/// The address denoted by dotted-quad text, if any.
pub open spec fn spec_parse_ipv4(s: Seq<char>) -> Option<Ipv4Address> {
    let ps = split_dots(s);
    if ps.len() == 4 && is_dec_octet(ps[0]) && is_dec_octet(ps[1]) && is_dec_octet(ps[2])
        && is_dec_octet(ps[3]) {
        Some(
            Ipv4Address {
                o0: digits_value(ps[0]) as u8,
                o1: digits_value(ps[1]) as u8,
                o2: digits_value(ps[2]) as u8,
                o3: digits_value(ps[3]) as u8,
            },
        )
    } else {
        None
    }
}

/// The dotted-quad text of an IPv4 address.
pub open spec fn spec_ipv4_text(a: Ipv4Address) -> Seq<char> {
    dec_str(a.o0 as int) + seq!['.'] + dec_str(a.o1 as int) + seq!['.'] + dec_str(a.o2 as int)
        + seq!['.'] + dec_str(a.o3 as int)
}

impl Ipv4Address {
    pub fn new(o0: u8, o1: u8, o2: u8, o3: u8) -> (r: Ipv4Address)
        ensures
            r == (Ipv4Address { o0, o1, o2, o3 }),
    {
        Ipv4Address { o0, o1, o2, o3 }
    }

    pub fn to_string(&self) -> (r: String)
        ensures
            r@ == spec_ipv4_text(*self),
    {
        let mut s = u32_dec_string(self.o0 as u32);
        let dot = String::from_str(".");
        proof {
            reveal_strlit(".");
            assert(dot@ =~= seq!['.']);
        }
        s.append(dot.as_str());
        let p1 = u32_dec_string(self.o1 as u32);
        s.append(p1.as_str());
        s.append(dot.as_str());
        let p2 = u32_dec_string(self.o2 as u32);
        s.append(p2.as_str());
        s.append(dot.as_str());
        let p3 = u32_dec_string(self.o3 as u32);
        s.append(p3.as_str());
        proof {
            assert(s@ =~= spec_ipv4_text(*self));
        }
        s
    }

    /// Parses dotted-quad text.
    pub fn parse_chars(s: &Vec<char>) -> (r: Option<Ipv4Address>)
        ensures
            r == spec_parse_ipv4(s@),
    {
        let pieces = crate::name::split_dots_exec(s, 0, s.len());
        proof {
            assert(s@.subrange(0, s@.len() as int) =~= s@);
        }
        if pieces.len() != 4 {
            return None;
        }
        proof {
            assert(pieces.deep_view()[0] == pieces@[0]@);
            assert(pieces.deep_view()[1] == pieces@[1]@);
            assert(pieces.deep_view()[2] == pieces@[2]@);
            assert(pieces.deep_view()[3] == pieces@[3]@);
        }
        let o0 = match parse_dec_octet(&pieces[0]) {
            Some(v) => v,
            None => {
                return None;
            },
        };
        let o1 = match parse_dec_octet(&pieces[1]) {
            Some(v) => v,
            None => {
                return None;
            },
        };
        let o2 = match parse_dec_octet(&pieces[2]) {
            Some(v) => v,
            None => {
                return None;
            },
        };
        let o3 = match parse_dec_octet(&pieces[3]) {
            Some(v) => v,
            None => {
                return None;
            },
        };
        Some(Ipv4Address { o0, o1, o2, o3 })
    }
}

/// Parses one dotted-quad part.
fn parse_dec_octet(s: &Vec<char>) -> (r: Option<u8>)
    ensures
        is_dec_octet(s@) ==> r == Some(digits_value(s@) as u8),
        !is_dec_octet(s@) ==> r is None,
{
    let n = s.len();
    if n == 0 || n > 3 {
        return None;
    }
    if n > 1 && s[0] == '0' {
        return None;
    }
    let mut value: u32 = 0;
    let mut i: usize = 0;
    while i < n
        invariant
            i <= n,
            n == s@.len() <= 3,
            forall|j: int| 0 <= j < i ==> is_digit(#[trigger] s@[j]),
            value == digits_value(s@.take(i as int)),
            i == 0 ==> value == 0,
            i == 1 ==> value <= 9,
            i == 2 ==> value <= 99,
            i == 3 ==> value <= 999,
        decreases n - i,
    {
        let c = s[i];
        if !('0' <= c && c <= '9') {
            return None;
        }
        let d: u32 = (c as u32) - ('0' as u32);
        proof {
            assert(s@.take(i + 1).drop_last() =~= s@.take(i as int));
            assert(s@.take(i + 1).last() == s@[i as int]);
        }
        value = value * 10 + d;
        i = i + 1;
    }
    proof {
        assert(s@.take(n as int) =~= s@);
    }
    if value > 255 {
        return None;
    }
    Some(value as u8)
}

/// The number denoted by hexadecimal digit text.
pub open spec fn hex_value(s: Seq<char>) -> int
    decreases s.len(),
{
    if s.len() == 0 {
        0
    } else {
        hex_value(s.drop_last()) * 16 + hex_digit_value(s.last())
    }
}

pub open spec fn hex_digit_value(c: char) -> int {
    if '0' <= c && c <= '9' {
        c as int - '0' as int
    } else if 'a' <= c && c <= 'f' {
        c as int - 'a' as int + 10
    } else if 'A' <= c && c <= 'F' {
        c as int - 'A' as int + 10
    } else {
        -1
    }
}

pub open spec fn is_hex_digit(c: char) -> bool {
    hex_digit_value(c) >= 0
}

/// Text accepted as one IPv6 group: one to four hex digits.
pub open spec fn is_hex_group(s: Seq<char>) -> bool {
    &&& 1 <= s.len() <= 4
    &&& forall|i: int| 0 <= i < s.len() ==> is_hex_digit(#[trigger] s[i])
}

/// The lowercase hex digits of `v`, most significant first; empty for zero.
pub open spec fn hex_digits(v: int) -> Seq<char>
    decreases v,
{
    if v <= 0 {
        Seq::empty()
    } else {
        hex_digits(v / 16).push(hex_digit_char(v % 16))
    }
}

pub open spec fn hex_digit_char(d: int) -> char {
    if d < 10 {
        (('0' as u8) + d) as char
    } else {
        (('a' as u8) + (d - 10)) as char
    }
}

/// The canonical hex text of one segment: "0" for zero, else no leading zero.
pub open spec fn hex_str(v: int) -> Seq<char> {
    if v == 0 {
        seq!['0']
    } else {
        hex_digits(v)
    }
}

/// The segments joined with ':'.
pub open spec fn hex_join(ss: Seq<u16>) -> Seq<char>
    decreases ss.len(),
{
    if ss.len() == 0 {
        Seq::empty()
    } else if ss.len() == 1 {
        hex_str(ss[0] as int)
    } else {
        hex_join(ss.drop_last()) + seq![':'] + hex_str(ss.last() as int)
    }
}

/// The length of the run of zero segments starting at `i`.
pub open spec fn zero_run_len(ss: Seq<u16>, i: int) -> int
    decreases ss.len() - i,
{
    if i < 0 || i >= ss.len() || ss[i] != 0 {
        0
    } else {
        1 + zero_run_len(ss, i + 1)
    }
}

/// The leftmost longest run of zero segments at or after `i`: (start, length).
pub open spec fn best_zero_run(ss: Seq<u16>, i: int) -> (int, int)
    decreases ss.len() - i,
{
    if i >= ss.len() {
        (0, 0)
    } else {
        let here = zero_run_len(ss, i);
        let rest = best_zero_run(ss, i + 1);
        if here >= rest.1 {
            (i, here)
        } else {
            rest
        }
    }
}

/// The canonical text of an IPv6 address: lowercase hex groups joined with
/// ':', with the leftmost longest run of two or more zero groups compressed
/// to "::".
pub open spec fn spec_ipv6_text(a: Ipv6Address) -> Seq<char> {
    let ss = ipv6_segments(a);
    let run = best_zero_run(ss, 0);
    if run.1 >= 2 {
        hex_join(ss.take(run.0)) + seq![':', ':'] + hex_join(ss.skip(run.0 + run.1))
    } else {
        hex_join(ss)
    }
}

pub open spec fn ipv6_segments(a: Ipv6Address) -> Seq<u16> {
    seq![a.s0, a.s1, a.s2, a.s3, a.s4, a.s5, a.s6, a.s7]
}

impl Ipv6Address {
    pub fn new(s0: u16, s1: u16, s2: u16, s3: u16, s4: u16, s5: u16, s6: u16, s7: u16) -> (r:
        Ipv6Address)
        ensures
            r == (Ipv6Address { s0, s1, s2, s3, s4, s5, s6, s7 }),
    {
        Ipv6Address { s0, s1, s2, s3, s4, s5, s6, s7 }
    }

    /// The eight segments, most significant first.
    pub fn segments(&self) -> (r: Vec<u16>)
        ensures
            r@ == ipv6_segments(*self),
    {
        let mut v: Vec<u16> = Vec::new();
        v.push(self.s0);
        v.push(self.s1);
        v.push(self.s2);
        v.push(self.s3);
        v.push(self.s4);
        v.push(self.s5);
        v.push(self.s6);
        v.push(self.s7);
        proof {
            assert(v@ =~= ipv6_segments(*self));
        }
        v
    }

    pub fn from_segments(segs: &Vec<u16>) -> (r: Ipv6Address)
        requires
            segs@.len() == 8,
        ensures
            ipv6_segments(r) == segs@,
    {
        let r = Ipv6Address {
            s0: segs[0],
            s1: segs[1],
            s2: segs[2],
            s3: segs[3],
            s4: segs[4],
            s5: segs[5],
            s6: segs[6],
            s7: segs[7],
        };
        proof {
            assert(ipv6_segments(r) =~= segs@);
        }
        r
    }

    pub fn to_string(&self) -> (r: String)
        ensures
            r@ == spec_ipv6_text(*self),
    {
        let segs = self.segments();
        let (start, len) = find_best_zero_run(&segs);
        if len >= 2 {
            let ghost ss = ipv6_segments(*self);
            let mut left: Vec<u16> = Vec::new();
            let mut i: usize = 0;
            while i < start
                invariant
                    i <= start <= 8,
                    segs@ == ipv6_segments(*self),
                    segs@.len() == 8,
                    left@ =~= segs@.take(i as int),
                decreases start - i,
            {
                left.push(segs[i]);
                i = i + 1;
                proof {
                    assert(left@ =~= segs@.take(i as int));
                }
            }
            let mut right: Vec<u16> = Vec::new();
            let mut j: usize = start + len;
            while j < 8
                invariant
                    start + len <= j <= 8,
                    segs@ == ipv6_segments(*self),
                    segs@.len() == 8,
                    right@ =~= segs@.subrange(start + len, j as int),
                decreases 8 - j,
            {
                right.push(segs[j]);
                j = j + 1;
                proof {
                    assert(right@ =~= segs@.subrange(start + len, j as int));
                }
            }
            proof {
                assert(left@ =~= segs@.take(start as int));
                assert(right@ =~= segs@.skip(start + len));
            }
            let mut s = hex_join_exec(&left, left.len());
            s.append("::");
            let rs = hex_join_exec(&right, right.len());
            s.append(rs.as_str());
            proof {
                reveal_strlit("::");
                assert("::"@ =~= seq![':', ':']);
                assert(left@.take(left@.len() as int) =~= left@);
                assert(right@.take(right@.len() as int) =~= right@);
                assert(s@ =~= spec_ipv6_text(*self));
            }
            s
        } else {
            let s = hex_join_exec(&segs, 8);
            proof {
                assert(segs@.take(8) =~= segs@);
            }
            s
        }
    }
}

/// Writes `segs[..upto]` as hex groups joined with ':'.
fn hex_join_exec(segs: &Vec<u16>, upto: usize) -> (r: String)
    requires
        upto <= segs@.len(),
    ensures
        r@ == hex_join(segs@.take(upto as int)),
    decreases upto,
{
    if upto == 0 {
        let s = String::new();
        proof {
            assert(segs@.take(0) =~= Seq::<u16>::empty());
        }
        s
    } else if upto == 1 {
        let s = hex_str_exec(segs[0]);
        proof {
            assert(segs@.take(1) =~= seq![segs@[0]]);
        }
        s
    } else {
        let mut s = hex_join_exec(segs, upto - 1);
        s.append(":");
        let h = hex_str_exec(segs[upto - 1]);
        s.append(h.as_str());
        proof {
            reveal_strlit(":");
            assert(":"@ =~= seq![':']);
            assert(segs@.take(upto as int).drop_last() =~= segs@.take(upto - 1));
            assert(segs@.take(upto as int).last() == segs@[upto - 1]);
        }
        s
    }
}

/// Appends the hex digits of `v`, most significant first.
fn push_hex_digits(v: u16, out: &mut Vec<char>)
    ensures
        final(out)@ == old(out)@ + hex_digits(v as int),
    decreases v,
{
    if v == 0 {
        proof {
            assert(out@ =~= out@ + hex_digits(0));
        }
        return ;
    }
    push_hex_digits(v / 16, out);
    let d: u16 = v % 16;
    let c: char = if d < 10 {
        (('0' as u8) + (d as u8)) as char
    } else {
        (('a' as u8) + ((d - 10) as u8)) as char
    };
    out.push(c);
    proof {
        assert(c == hex_digit_char(v as int % 16));
        assert(out@ =~= old(out)@ + hex_digits(v as int));
    }
}

/// Writes one segment in lowercase hex without leading zeroes.
fn hex_str_exec(v: u16) -> (r: String)
    ensures
        r@ == hex_str(v as int),
{
    let mut chars: Vec<char> = Vec::new();
    if v == 0 {
        chars.push('0');
        proof {
            assert(chars@ =~= seq!['0']);
        }
    } else {
        push_hex_digits(v, &mut chars);
        proof {
            assert(chars@ =~= hex_digits(v as int));
        }
    }
    string_from_chars(chars)
}

/// The position of the first "::" at or after `i`, if any.
pub open spec fn find_double_colon(s: Seq<char>, i: int) -> Option<int>
    decreases s.len() - i,
{
    if i < 0 || i + 1 >= s.len() {
        None
    } else if s[i] == ':' && s[i + 1] == ':' {
        Some(i)
    } else {
        find_double_colon(s, i + 1)
    }
}

/// The pieces of `s` between colons, with no piece for the empty text.
pub open spec fn colon_groups(s: Seq<char>) -> Seq<Seq<char>> {
    if s.len() == 0 {
        Seq::empty()
    } else {
        crate::ascii::split_sep(s, ':')
    }
}

pub open spec fn all_hex_groups(ps: Seq<Seq<char>>) -> bool {
    forall|i: int| 0 <= i < ps.len() ==> is_hex_group(#[trigger] ps[i])
}

/// The segment at position `k` when the groups left and right of "::"
/// surround a compressed run of zero segments.
pub open spec fn seg_at(lps: Seq<Seq<char>>, rps: Seq<Seq<char>>, k: int) -> u16 {
    if k < lps.len() {
        hex_value(lps[k]) as u16
    } else if k >= 8 - rps.len() {
        hex_value(rps[k - (8 - rps.len())]) as u16
    } else {
        0
    }
}

pub open spec fn ipv6_of_groups(lps: Seq<Seq<char>>, rps: Seq<Seq<char>>) -> Ipv6Address {
    Ipv6Address {
        s0: seg_at(lps, rps, 0),
        s1: seg_at(lps, rps, 1),
        s2: seg_at(lps, rps, 2),
        s3: seg_at(lps, rps, 3),
        s4: seg_at(lps, rps, 4),
        s5: seg_at(lps, rps, 5),
        s6: seg_at(lps, rps, 6),
        s7: seg_at(lps, rps, 7),
    }
}

/// The address denoted by IPv6 text, if any: eight hex groups joined with
/// ':', or at most seven around one "::" standing for the missing zero
/// groups.
pub open spec fn spec_parse_ipv6(s: Seq<char>) -> Option<Ipv6Address> {
    match find_double_colon(s, 0) {
        None => {
            let ps = colon_groups(s);
            if ps.len() == 8 && all_hex_groups(ps) {
                Some(ipv6_of_groups(ps, Seq::empty()))
            } else {
                None
            }
        },
        Some(i) => {
            let left = s.take(i);
            let right = s.skip(i + 2);
            if find_double_colon(right, 0) is Some {
                None
            } else {
                let lps = colon_groups(left);
                let rps = colon_groups(right);
                if all_hex_groups(lps) && all_hex_groups(rps) && lps.len() + rps.len() <= 7 {
                    Some(ipv6_of_groups(lps, rps))
                } else {
                    None
                }
            }
        },
    }
}

impl Ipv6Address {
    /// Parses IPv6 text.
    pub fn parse_chars(s: &Vec<char>) -> (r: Option<Ipv6Address>)
        ensures
            r == spec_parse_ipv6(s@),
    {
        match find_dc_exec(s, 0) {
            None => {
                let ps = colon_groups_exec(s, 0, s.len());
                proof {
                    assert(s@.subrange(0, s@.len() as int) =~= s@);
                }
                if ps.len() != 8 {
                    return None;
                }
                match parse_groups(&ps) {
                    None => None,
                    Some(vals) => {
                        let r = Ipv6Address::from_segments(&vals);
                        proof {
                            let ghost gps = colon_groups(s@);
                            assert forall|k: int| 0 <= k < 8 implies vals@[k] == seg_at(
                                gps,
                                Seq::empty(),
                                k,
                            ) by {
                                assert(vals@[k] == hex_value(gps[k]) as u16);
                            }
                            assert(r == ipv6_of_groups(gps, Seq::empty()));
                        }
                        Some(r)
                    },
                }
            },
            Some(i) => {
                let total = s.len();
                proof {
                    assert(i + 2 <= total);
                    assert(s@.take(i as int) =~= s@.subrange(0, i as int));
                    assert(s@.skip(i + 2) =~= s@.subrange(i + 2, s@.len() as int));
                }
                let tail_start = i + 2;
                if find_dc_after(s, tail_start) {
                    return None;
                }
                let lps = colon_groups_exec(s, 0, i);
                let rps = colon_groups_exec(s, i + 2, s.len());
                let lvals = match parse_groups(&lps) {
                    None => {
                        return None;
                    },
                    Some(v) => v,
                };
                let rvals = match parse_groups(&rps) {
                    None => {
                        return None;
                    },
                    Some(v) => v,
                };
                if lvals.len() > 7 || rvals.len() > 7 || lvals.len() + rvals.len() > 7 {
                    return None;
                }
                let ghost glps = colon_groups(s@.take(i as int));
                let ghost grps = colon_groups(s@.skip(i + 2));
                let mut segs: Vec<u16> = Vec::new();
                let mut k: usize = 0;
                while k < lvals.len()
                    invariant
                        k <= lvals@.len(),
                        lvals@.len() + rvals@.len() <= 7,
                        segs@.len() == k,
                        forall|m: int| 0 <= m < k ==> segs@[m] == lvals@[m],
                    decreases lvals@.len() - k,
                {
                    segs.push(lvals[k]);
                    k = k + 1;
                }
                let zeros = 8 - lvals.len() - rvals.len();
                let mut z: usize = 0;
                while z < zeros
                    invariant
                        z <= zeros,
                        zeros == 8 - lvals@.len() - rvals@.len(),
                        lvals@.len() + rvals@.len() <= 7,
                        segs@.len() == lvals@.len() + z,
                        forall|m: int| 0 <= m < lvals@.len() ==> segs@[m] == lvals@[m],
                        forall|m: int|
                            lvals@.len() <= m < lvals@.len() + z ==> segs@[m] == 0u16,
                    decreases zeros - z,
                {
                    segs.push(0);
                    z = z + 1;
                }
                let mut k2: usize = 0;
                while k2 < rvals.len()
                    invariant
                        k2 <= rvals@.len(),
                        zeros == 8 - lvals@.len() - rvals@.len(),
                        lvals@.len() + rvals@.len() <= 7,
                        segs@.len() == lvals@.len() + zeros + k2,
                        forall|m: int| 0 <= m < lvals@.len() ==> segs@[m] == lvals@[m],
                        forall|m: int|
                            lvals@.len() <= m < lvals@.len() + zeros ==> segs@[m] == 0u16,
                        forall|m: int|
                            0 <= m < k2 ==> segs@[lvals@.len() + zeros + m] == rvals@[m],
                    decreases rvals@.len() - k2,
                {
                    segs.push(rvals[k2]);
                    k2 = k2 + 1;
                }
                let r = Ipv6Address::from_segments(&segs);
                proof {
                    assert forall|m: int| 0 <= m < 8 implies segs@[m] == seg_at(glps, grps, m) by {
                        if m >= lvals@.len() + zeros {
                            assert(segs@[lvals@.len() + zeros + (m - lvals@.len() - zeros)]
                                == rvals@[m - lvals@.len() - zeros]);
                        }
                    }
                    assert(r == ipv6_of_groups(glps, grps));
                }
                Some(r)
            },
        }
    }
}

/// Finds the first "::" at or after `i`.
fn find_dc_exec(s: &Vec<char>, i: usize) -> (r: Option<usize>)
    requires
        i <= s@.len(),
    ensures
        match r {
            Some(p) => find_double_colon(s@, i as int) == Some(p as int) && p + 2 <= s@.len(),
            None => find_double_colon(s@, i as int) is None,
        },
    decreases s@.len() - i,
{
    if s.len() - i < 2 {
        None
    } else if s[i] == ':' && s[i + 1] == ':' {
        Some(i)
    } else {
        find_dc_exec(s, i + 1)
    }
}

/// True when a "::" stands at or after `i`.
fn find_dc_after(s: &Vec<char>, i: usize) -> (r: bool)
    requires
        i <= s@.len(),
    ensures
        r == (find_double_colon(s@.skip(i as int), 0) is Some),
{
    let n = s.len();
    let mut j: usize = i;
    let ghost sub = s@.skip(i as int);
    while n - j > 1
        invariant
            i <= j <= n,
            n == s@.len(),
            sub == s@.skip(i as int),
            find_double_colon(sub, 0) == find_double_colon(sub, j - i),
        decreases n - j,
    {
        if s[j] == ':' && s[j + 1] == ':' {
            proof {
                assert(sub[j - i] == ':' && sub[j - i + 1] == ':');
            }
            return true;
        }
        j = j + 1;
        proof {
            lemma_find_dc_step(sub, j - i);
        }
    }
    proof {
        lemma_find_dc_none(sub, j - i);
    }
    false
}

proof fn lemma_find_dc_step(s: Seq<char>, j: int)
    requires
        0 < j,
        !(s[j - 1] == ':' && j < s.len() && s[j] == ':'),
    ensures
        find_double_colon(s, j - 1) == find_double_colon(s, j),
{
}

proof fn lemma_find_dc_none(s: Seq<char>, j: int)
    requires
        j >= 0,
        j + 1 >= s.len(),
    ensures
        find_double_colon(s, j) is None,
{
}

/// Splits `s[from..to)` at colons, with no piece for an empty range.
fn colon_groups_exec(s: &Vec<char>, from: usize, to: usize) -> (r: Vec<Vec<char>>)
    requires
        from <= to <= s@.len(),
    ensures
        r.deep_view() == colon_groups(s@.subrange(from as int, to as int)),
{
    if from == to {
        let v: Vec<Vec<char>> = Vec::new();
        proof {
            assert(s@.subrange(from as int, to as int) =~= Seq::<char>::empty());
            assert(v.deep_view() =~~= colon_groups(Seq::<char>::empty()));
        }
        return v;
    }
    crate::ascii::split_sep_exec(s, from, to, ':')
}

/// Parses every group as a hex segment; `None` when one is malformed.
fn parse_groups(ps: &Vec<Vec<char>>) -> (r: Option<Vec<u16>>)
    ensures
        match r {
            Some(vals) => all_hex_groups(ps.deep_view()) && vals@.len() == ps.deep_view().len()
                && forall|k: int|
                0 <= k < vals@.len() ==> vals@[k] == hex_value(ps.deep_view()[k]) as u16,
            None => !all_hex_groups(ps.deep_view()),
        },
{
    let n = ps.len();
    let mut vals: Vec<u16> = Vec::new();
    let mut i: usize = 0;
    while i < n
        invariant
            i <= n,
            n == ps@.len(),
            vals@.len() == i,
            forall|k: int| 0 <= k < i ==> is_hex_group(#[trigger] ps.deep_view()[k]),
            forall|k: int| 0 <= k < i ==> vals@[k] == hex_value(ps.deep_view()[k]) as u16,
        decreases n - i,
    {
        proof {
            assert(ps.deep_view()[i as int] == ps@[i as int]@);
        }
        match parse_hex_group(&ps[i]) {
            None => {
                return None;
            },
            Some(v) => {
                vals.push(v);
            },
        }
        i = i + 1;
    }
    Some(vals)
}

/// Parses one hex group of one to four digits.
fn parse_hex_group(s: &Vec<char>) -> (r: Option<u16>)
    ensures
        is_hex_group(s@) ==> r == Some(hex_value(s@) as u16),
        !is_hex_group(s@) ==> r is None,
{
    let n = s.len();
    if n == 0 || n > 4 {
        return None;
    }
    let mut value: u32 = 0;
    let mut i: usize = 0;
    while i < n
        invariant
            i <= n,
            n == s@.len() <= 4,
            forall|j: int| 0 <= j < i ==> is_hex_digit(#[trigger] s@[j]),
            value == hex_value(s@.take(i as int)),
            i == 0 ==> value == 0,
            i == 1 ==> value <= 0xf,
            i == 2 ==> value <= 0xff,
            i == 3 ==> value <= 0xfff,
            i == 4 ==> value <= 0xffff,
        decreases n - i,
    {
        let c = s[i];
        let d: u32 = if '0' <= c && c <= '9' {
            (c as u32) - ('0' as u32)
        } else if 'a' <= c && c <= 'f' {
            (c as u32) - ('a' as u32) + 10
        } else if 'A' <= c && c <= 'F' {
            (c as u32) - ('A' as u32) + 10
        } else {
            return None;
        };
        proof {
            assert(s@.take(i + 1).drop_last() =~= s@.take(i as int));
            assert(s@.take(i + 1).last() == s@[i as int]);
            assert(d == hex_digit_value(s@[i as int]));
        }
        value = value * 16 + d;
        i = i + 1;
    }
    proof {
        assert(s@.take(n as int) =~= s@);
    }
    Some(value as u16)
}

/// The leftmost longest run of zero segments, as (start, length).
fn find_best_zero_run(segs: &Vec<u16>) -> (r: (usize, usize))
    requires
        segs@.len() == 8,
    ensures
        (r.0 as int, r.1 as int) == best_zero_run(segs@, 0),
        r.0 + r.1 <= 8,
{
    let mut best: (usize, usize) = (0, 0);
    let mut i: usize = 8;
    while i > 0
        invariant
            i <= 8,
            segs@.len() == 8,
            (best.0 as int, best.1 as int) == best_zero_run(segs@, i as int),
            best.0 + best.1 <= 8,
        decreases i,
    {
        i = i - 1;
        let here = run_len_at(segs, i);
        if here >= best.1 {
            best = (i, here);
        }
    }
    best
}

/// The length of the zero run starting at `i`.
fn run_len_at(segs: &Vec<u16>, i: usize) -> (r: usize)
    requires
        segs@.len() == 8,
        i <= 8,
    ensures
        r as int == zero_run_len(segs@, i as int),
        i + r <= 8,
    decreases 8 - i,
{
    if i >= 8 {
        return 0;
    }
    if segs[i] != 0 {
        return 0;
    }
    let rest = run_len_at(segs, i + 1);
    1 + rest
}

} // verus!
