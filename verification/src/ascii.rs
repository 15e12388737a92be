use vstd::prelude::*;
use vstd::string::StrSliceExecFns;

verus! {

/// The characters denoted by a sequence of ASCII bytes: each byte read as
/// the character with the same code point.
pub open spec fn chars_of_ascii(bytes: Seq<u8>) -> Seq<char> {
    bytes.map_values(|b: u8| b as char)
}

pub open spec fn all_ascii(bytes: Seq<u8>) -> bool {
    forall|i: int| 0 <= i < bytes.len() ==> bytes[i] < 128
}

/// Copies the characters of `s` into a vector.
pub fn str_to_chars(s: &str) -> (r: Vec<char>)
    ensures
        r@ == s@,
{
    let n = s.unicode_len();
    let mut out: Vec<char> = Vec::new();
    let mut i: usize = 0;
    while i < n
        invariant
            i <= n,
            n == s@.len(),
            out@ =~= s@.take(i as int),
        decreases n - i,
    {
        let c = s.get_char(i);
        out.push(c);
        i = i + 1;
        proof {
            assert(out@ =~= s@.take(i as int));
        }
    }
    proof {
        assert(out@ =~= s@);
    }
    out
}

/// Relies on `String`'s `FromIterator<char>`: collecting characters yields
/// the string holding exactly those characters in order.
#[verifier::external_body]
pub(crate) fn string_from_chars(chars: Vec<char>) -> (r: String)
    ensures
        r@ == chars@,
{
    chars.into_iter().collect()
}

/// The pieces of `s` between occurrences of `sep`; the empty text has one
/// empty piece.
pub open spec fn split_sep(s: Seq<char>, sep: char) -> Seq<Seq<char>>
    decreases s.len(),
{
    if s.len() == 0 {
        seq![Seq::<char>::empty()]
    } else if s[0] == sep {
        seq![Seq::<char>::empty()].add(split_sep(s.drop_first(), sep))
    } else {
        let rest = split_sep(s.drop_first(), sep);
        seq![seq![s[0]].add(rest[0])].add(rest.drop_first())
    }
}

pub proof fn lemma_split_sep_len(s: Seq<char>, sep: char)
    ensures
        split_sep(s, sep).len() >= 1,
    decreases s.len(),
{
    if s.len() > 0 {
        lemma_split_sep_len(s.drop_first(), sep);
    }
}

/// Splits `s[from..to)` at `sep`, mirroring `split_sep`.
pub fn split_sep_exec(s: &Vec<char>, from: usize, to: usize, sep: char) -> (r: Vec<Vec<char>>)
    requires
        from <= to <= s@.len(),
    ensures
        r.deep_view() == split_sep(s@.subrange(from as int, to as int), sep),
    decreases to - from,
{
    if from == to {
        let mut v: Vec<Vec<char>> = Vec::new();
        v.push(Vec::new());
        proof {
            assert(s@.subrange(from as int, to as int) =~= Seq::<char>::empty());
            assert(v.deep_view() =~~= split_sep(Seq::<char>::empty(), sep));
        }
        return v;
    }
    let ghost sub = s@.subrange(from as int, to as int);
    proof {
        assert(sub[0] == s@[from as int]);
        assert(sub.drop_first() =~= s@.subrange(from + 1, to as int));
    }
    let c = s[from];
    let mut rest = split_sep_exec(s, from + 1, to, sep);
    proof {
        lemma_split_sep_len(s@.subrange(from + 1, to as int), sep);
    }
    if c == sep {
        rest.insert(0, Vec::new());
        proof {
            assert(rest.deep_view() =~~= split_sep(sub, sep));
        }
        rest
    } else {
        let mut head = rest.remove(0);
        head.insert(0, c);
        rest.insert(0, head);
        proof {
            assert(rest.deep_view() =~~= split_sep(sub, sep));
        }
        rest
    }
}

/// Copies `s[from..to)`.
pub fn subrange_chars(s: &Vec<char>, from: usize, to: usize) -> (r: Vec<char>)
    requires
        from <= to <= s@.len(),
    ensures
        r@ == s@.subrange(from as int, to as int),
{
    let mut out: Vec<char> = Vec::new();
    let mut i: usize = from;
    while i < to
        invariant
            from <= i <= to <= s@.len(),
            out@ =~= s@.subrange(from as int, i as int),
        decreases to - i,
    {
        out.push(s[i]);
        i = i + 1;
        proof {
            assert(out@ =~= s@.subrange(from as int, i as int));
        }
    }
    out
}

/// The pieces with the empty ones removed.
pub open spec fn nonempty_pieces(ps: Seq<Seq<char>>) -> Seq<Seq<char>>
    decreases ps.len(),
{
    if ps.len() == 0 {
        Seq::empty()
    } else {
        let rest = nonempty_pieces(ps.drop_first());
        if ps[0].len() > 0 {
            seq![ps[0]].add(rest)
        } else {
            rest
        }
    }
}

/// The space-separated words of `s`.
pub open spec fn split_spaces(s: Seq<char>) -> Seq<Seq<char>> {
    nonempty_pieces(split_sep(s, ' '))
}

/// Keeps the non-empty pieces of `ps[i..]`, mirroring `nonempty_pieces`.
fn collect_nonempty(ps: &Vec<Vec<char>>, i: usize) -> (r: Vec<Vec<char>>)
    requires
        i <= ps@.len(),
    ensures
        r.deep_view() == nonempty_pieces(ps.deep_view().skip(i as int)),
    decreases ps@.len() - i,
{
    if i == ps.len() {
        let v: Vec<Vec<char>> = Vec::new();
        proof {
            assert(ps.deep_view().skip(i as int) =~~= Seq::<Seq<char>>::empty());
            assert(v.deep_view() =~~= nonempty_pieces(Seq::empty()));
        }
        return v;
    }
    let ghost sub = ps.deep_view().skip(i as int);
    proof {
        assert(sub[0] == ps.deep_view()[i as int]);
        assert(sub.drop_first() =~~= ps.deep_view().skip(i + 1));
        assert(ps.deep_view()[i as int] == ps@[i as int]@);
    }
    let mut rest = collect_nonempty(ps, i + 1);
    if ps[i].len() > 0 {
        let piece = subrange_chars(&ps[i], 0, ps[i].len());
        proof {
            assert(piece@ =~= ps@[i as int]@);
        }
        rest.insert(0, piece);
        proof {
            assert(rest.deep_view() =~~= nonempty_pieces(sub));
        }
        rest
    } else {
        proof {
            assert(rest.deep_view() =~~= nonempty_pieces(sub));
        }
        rest
    }
}

/// Splits `s` at spaces, dropping empty words.
pub fn split_spaces_exec(s: &Vec<char>) -> (r: Vec<Vec<char>>)
    ensures
        r.deep_view() == split_spaces(s@),
{
    let pieces = split_sep_exec(s, 0, s.len(), ' ');
    proof {
        assert(s@.subrange(0, s@.len() as int) =~= s@);
        assert(pieces.deep_view().skip(0) =~~= pieces.deep_view());
    }
    collect_nonempty(&pieces, 0)
}

/// Compares two texts character by character.
pub fn str_eq(a: &str, b: &str) -> (r: bool)
    ensures
        r == (a@ == b@),
{
    let ca = str_to_chars(a);
    let cb = str_to_chars(b);
    let n = ca.len();
    if n != cb.len() {
        proof {
            assert(a@.len() != b@.len());
        }
        return false;
    }
    let mut i: usize = 0;
    while i < n
        invariant
            i <= n,
            n == ca@.len() == cb@.len(),
            ca@ == a@,
            cb@ == b@,
            forall|j: int| 0 <= j < i ==> a@[j] == b@[j],
        decreases n - i,
    {
        if ca[i] != cb[i] {
            proof {
                assert(a@[i as int] != b@[i as int]);
            }
            return false;
        }
        i = i + 1;
    }
    proof {
        assert(a@ =~= b@);
    }
    true
}

/// The position of the first `c` at or after `i`, if any.
pub open spec fn find_char(s: Seq<char>, c: char, i: int) -> Option<int>
    decreases s.len() - i,
{
    if i < 0 || i >= s.len() {
        None
    } else if s[i] == c {
        Some(i)
    } else {
        find_char(s, c, i + 1)
    }
}

/// Finds the first `c` at or after `from`.
pub fn find_char_exec(s: &Vec<char>, from: usize, c: char) -> (r: Option<usize>)
    requires
        from <= s@.len(),
    ensures
        match r {
            Some(p) => find_char(s@, c, from as int) == Some(p as int) && from <= p < s@.len(),
            None => find_char(s@, c, from as int) is None,
        },
    decreases s@.len() - from,
{
    if from >= s.len() {
        None
    } else if s[from] == c {
        Some(from)
    } else {
        find_char_exec(s, from + 1, c)
    }
}

/// The decimal digits of `v`, most significant first; empty for zero.
pub open spec fn dec_digits(v: int) -> Seq<char>
    decreases v,
{
    if v <= 0 {
        Seq::empty()
    } else {
        dec_digits(v / 10).push((('0' as u8) + v % 10) as char)
    }
}

/// The canonical decimal text of `v`: "0" for zero, otherwise the digits of
/// `v` with no leading zero.
pub open spec fn dec_str(v: int) -> Seq<char> {
    if v == 0 {
        seq!['0']
    } else {
        dec_digits(v)
    }
}

/// Appends the decimal digits of `v`, most significant first.
fn push_dec_digits(v: u32, out: &mut Vec<char>)
    ensures
        final(out)@ == old(out)@ + dec_digits(v as int),
    decreases v,
{
    if v == 0 {
        proof {
            assert(out@ =~= out@ + dec_digits(0));
        }
        return ;
    }
    push_dec_digits(v / 10, out);
    let d: char = (('0' as u8) + (v % 10) as u8) as char;
    out.push(d);
    proof {
        assert(out@ =~= old(out)@ + dec_digits(v as int));
    }
}

/// The number denoted by decimal digit text.
pub open spec fn digits_value(s: Seq<char>) -> int
    decreases s.len(),
{
    if s.len() == 0 {
        0
    } else {
        digits_value(s.drop_last()) * 10 + (s.last() as int - '0' as int)
    }
}

pub open spec fn all_digits(s: Seq<char>) -> bool {
    forall|i: int| 0 <= i < s.len() ==> '0' <= #[trigger] s[i] && s[i] <= '9'
}

/// The number denoted by non-empty decimal text that fits in a `u32`.
pub open spec fn spec_parse_u32(s: Seq<char>) -> Option<u32> {
    if s.len() > 0 && all_digits(s) && digits_value(s) <= u32::MAX {
        Some(digits_value(s) as u32)
    } else {
        None
    }
}

pub proof fn lemma_digits_value_nonneg(s: Seq<char>)
    requires
        all_digits(s),
    ensures
        digits_value(s) >= 0,
    decreases s.len(),
{
    if s.len() > 0 {
        assert(all_digits(s.drop_last())) by {
            assert(forall|i: int|
                0 <= i < s.len() - 1 ==> '0' <= #[trigger] s.drop_last()[i] && s.drop_last()[i]
                    <= '9');
        }
        lemma_digits_value_nonneg(s.drop_last());
    }
}

/// Each prefix of a digit text denotes no more than the whole.
pub proof fn lemma_digits_value_mono(s: Seq<char>, i: int)
    requires
        all_digits(s),
        0 <= i <= s.len(),
    ensures
        digits_value(s.take(i)) <= digits_value(s),
    decreases s.len() - i,
{
    if i == s.len() {
        assert(s.take(i) =~= s);
    } else {
        lemma_digits_value_mono(s, i + 1);
        assert(s.take(i + 1).drop_last() =~= s.take(i));
        assert(all_digits(s.take(i))) by {
            assert(forall|j: int|
                0 <= j < i ==> '0' <= #[trigger] s.take(i)[j] && s.take(i)[j] <= '9');
        }
        lemma_digits_value_nonneg(s.take(i));
        assert(digits_value(s.take(i + 1)) == digits_value(s.take(i)) * 10 + (s[i] as int
            - '0' as int));
    }
}

/// Parses non-empty decimal text into a `u32`.
pub fn parse_u32_chars(s: &Vec<char>) -> (r: Option<u32>)
    ensures
        r == spec_parse_u32(s@),
{
    let n = s.len();
    if n == 0 {
        return None;
    }
    let mut i: usize = 0;
    while i < n
        invariant
            i <= n,
            n == s@.len(),
            forall|j: int| 0 <= j < i ==> '0' <= #[trigger] s@[j] && s@[j] <= '9',
        decreases n - i,
    {
        let c = s[i];
        if !('0' <= c && c <= '9') {
            return None;
        }
        i = i + 1;
    }
    let mut value: u64 = 0;
    let mut i: usize = 0;
    while i < n
        invariant
            i <= n,
            n == s@.len(),
            all_digits(s@),
            value == digits_value(s@.take(i as int)),
            value <= u32::MAX,
        decreases n - i,
    {
        let c = s[i];
        let d: u64 = (c as u64) - ('0' as u64);
        proof {
            assert(s@.take(i + 1).drop_last() =~= s@.take(i as int));
            assert(s@.take(i + 1).last() == s@[i as int]);
        }
        value = value * 10 + d;
        i = i + 1;
        if value > 0xffff_ffff {
            proof {
                lemma_digits_value_mono(s@, i as int);
            }
            return None;
        }
    }
    proof {
        assert(s@.take(n as int) =~= s@);
    }
    Some(value as u32)
}

/// Writes `v` in decimal, most significant digit first.
pub fn u32_dec_string(v: u32) -> (r: String)
    ensures
        r@ == dec_str(v as int),
{
    let mut chars: Vec<char> = Vec::new();
    if v == 0 {
        chars.push('0');
        proof {
            assert(chars@ =~= seq!['0']);
        }
    } else {
        push_dec_digits(v, &mut chars);
        proof {
            assert(chars@ =~= dec_digits(v as int));
        }
    }
    string_from_chars(chars)
}

} // verus!
