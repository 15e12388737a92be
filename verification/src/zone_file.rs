use vstd::prelude::*;

use crate::ascii::{find_char, find_char_exec, split_sep, split_spaces, spec_parse_u32, str_to_chars,
    string_from_chars, subrange_chars};
use crate::class::Class;
use crate::name::{spec_name_text, Name};
use crate::record::{spec_parse_rdata, Record, SpecRecord};
use crate::record_type::spec_record_type_from_text;

verus! {

/// Horizontal whitespace: spaces within a line.
pub open spec fn is_hws(c: char) -> bool {
    c == ' ' || c == '\t' || c == '\r'
}

/// The position just after the closing quote of a quoted string whose
/// opening quote stands before `j`; a backslash carries the next character;
/// an unterminated string runs to the end.
pub open spec fn quote_end(s: Seq<char>, j: int) -> int
    decreases s.len() - j,
{
    if j < 0 || j >= s.len() {
        s.len() as int
    } else if s[j] == '\\' {
        if j + 2 <= s.len() {
            quote_end(s, j + 2)
        } else {
            s.len() as int
        }
    } else if s[j] == '"' {
        j + 1
    } else {
        quote_end(s, j + 1)
    }
}

pub proof fn lemma_quote_end_bounds(s: Seq<char>, j: int)
    requires
        0 <= j <= s.len(),
    ensures
        j <= quote_end(s, j) <= s.len(),
    decreases s.len() - j,
{
    if j < s.len() {
        if s[j] == '\\' {
            if j + 2 <= s.len() {
                lemma_quote_end_bounds(s, j + 2);
            }
        } else if s[j] != '"' {
            lemma_quote_end_bounds(s, j + 1);
        }
    }
}

/// The text with comments removed: ';' outside a quoted string starts a
/// comment that the next newline ends.
pub open spec fn strip_comments(s: Seq<char>, i: int, in_comment: bool) -> Seq<char>
    decreases s.len() - i, 1nat,
{
    if i < 0 || i >= s.len() {
        Seq::empty()
    } else if in_comment {
        if s[i] == '\n' {
            seq!['\n'].add(strip_comments(s, i + 1, false))
        } else {
            strip_comments(s, i + 1, true)
        }
    } else if s[i] == '"' {
        strip_comments_quote(s, i)
    } else if s[i] == ';' {
        strip_comments(s, i + 1, true)
    } else {
        seq![s[i]].add(strip_comments(s, i + 1, false))
    }
}

pub open spec fn strip_comments_quote(s: Seq<char>, i: int) -> Seq<char>
    decreases s.len() - i, 0nat,
{
    if 0 <= i < s.len() {
        let e = quote_end(s, i + 1);
        if i + 1 <= e <= s.len() {
            s.subrange(i, e).add(strip_comments(s, e, false))
        } else {
            Seq::empty()
        }
    } else {
        Seq::empty()
    }
}

/// The text with parenthesized groups folded: between '(' and ')' outside
/// quoted strings, newlines become spaces and the parentheses vanish.
pub open spec fn fold_parens(s: Seq<char>, i: int, in_paren: bool) -> Seq<char>
    decreases s.len() - i, 1nat,
{
    if i < 0 || i >= s.len() {
        Seq::empty()
    } else if s[i] == '"' {
        fold_parens_quote(s, i, in_paren)
    } else if s[i] == '\n' {
        if in_paren {
            seq![' '].add(fold_parens(s, i + 1, true))
        } else {
            seq!['\n'].add(fold_parens(s, i + 1, false))
        }
    } else if s[i] == '(' {
        fold_parens(s, i + 1, true)
    } else if s[i] == ')' {
        fold_parens(s, i + 1, false)
    } else {
        seq![s[i]].add(fold_parens(s, i + 1, in_paren))
    }
}

pub open spec fn fold_parens_quote(s: Seq<char>, i: int, in_paren: bool) -> Seq<char>
    decreases s.len() - i, 0nat,
{
    if 0 <= i < s.len() {
        let e = quote_end(s, i + 1);
        if i + 1 <= e <= s.len() {
            s.subrange(i, e).add(fold_parens(s, e, in_paren))
        } else {
            Seq::empty()
        }
    } else {
        Seq::empty()
    }
}

/// The text with runs of horizontal whitespace collapsed to one space,
/// dropped before a newline or the end; quoted strings pass unchanged.
pub open spec fn collapse_ws(s: Seq<char>, i: int) -> Seq<char>
    decreases s.len() - i, 1nat,
{
    if i < 0 || i >= s.len() {
        Seq::empty()
    } else if s[i] == '"' {
        collapse_ws_quote(s, i)
    } else if s[i] == '\n' {
        seq!['\n'].add(collapse_ws(s, i + 1))
    } else if is_hws(s[i]) {
        if i + 1 < s.len() && !is_hws(s[i + 1]) && s[i + 1] != '\n' {
            seq![' '].add(collapse_ws(s, i + 1))
        } else {
            collapse_ws(s, i + 1)
        }
    } else {
        seq![s[i]].add(collapse_ws(s, i + 1))
    }
}

pub open spec fn collapse_ws_quote(s: Seq<char>, i: int) -> Seq<char>
    decreases s.len() - i, 0nat,
{
    if 0 <= i < s.len() {
        let e = quote_end(s, i + 1);
        if i + 1 <= e <= s.len() {
            s.subrange(i, e).add(collapse_ws(s, e))
        } else {
            Seq::empty()
        }
    } else {
        Seq::empty()
    }
}

/// The words joined with single spaces.
pub open spec fn join_spaces(ws: Seq<Seq<char>>) -> Seq<char>
    decreases ws.len(),
{
    if ws.len() == 0 {
        Seq::empty()
    } else if ws.len() == 1 {
        ws[0]
    } else {
        join_spaces(ws.drop_last()).add(seq![' ']).add(ws.last())
    }
}

/// The TTL, the class and the remaining words of a record line, the TTL and
/// class inherited from the previous record when absent; TTL and class are
/// accepted in either order.
pub open spec fn spec_separate_rr(rr: Seq<char>, last: Option<SpecRecord>) -> Option<
    (u32, Class, Seq<Seq<char>>),
> {
    let ws = split_spaces(rr);
    if ws.len() == 0 {
        None
    } else if spec_parse_u32(ws[0]) is Some {
        let ttl = spec_parse_u32(ws[0])->Some_0;
        if ws.len() >= 2 && ws[1] == seq!['I', 'N'] {
            Some((ttl, Class::In, ws.skip(2)))
        } else {
            match last {
                Some(lr) => Some((ttl, lr.class, ws.skip(1))),
                None => None,
            }
        }
    } else if ws[0] == seq!['I', 'N'] {
        if ws.len() >= 2 && spec_parse_u32(ws[1]) is Some {
            Some((spec_parse_u32(ws[1])->Some_0, Class::In, ws.skip(2)))
        } else {
            match last {
                Some(lr) => Some((lr.ttl, Class::In, ws.skip(1))),
                None => None,
            }
        }
    } else {
        match last {
            Some(lr) => Some((lr.ttl, lr.class, ws)),
            None => None,
        }
    }
}

/// What one normalized line yields: a leading space inherits the previous
/// owner name; a line that does not parse yields nothing.
pub open spec fn spec_parse_record_line(
    line: Seq<char>,
    last: Option<SpecRecord>,
    origin: Seq<Seq<char>>,
) -> Option<SpecRecord> {
    match find_char(line, ' ', 0) {
        None => None,
        Some(p) => {
            let name_text_opt = if p == 0 {
                match last {
                    Some(lr) => Some(spec_name_text(lr.name)),
                    None => None,
                }
            } else {
                Some(line.take(p))
            };
            match name_text_opt {
                None => None,
                Some(name_text) => {
                    let rr = line.skip(p + 1);
                    match spec_separate_rr(rr, last) {
                        None => None,
                        Some((ttl, class, rest)) => {
                            if rest.len() < 2 {
                                None
                            } else {
                                match spec_record_type_from_text(rest[0]) {
                                    None => None,
                                    Some(t) => {
                                        let data_text = join_spaces(rest.drop_first());
                                        match crate::name::spec_from_str_relative(
                                            name_text,
                                            origin,
                                        ) {
                                            Err(_) => None,
                                            Ok(name) => match spec_parse_rdata(
                                                t,
                                                data_text,
                                                origin,
                                            ) {
                                                Err(_) => None,
                                                Ok(data) => Some(
                                                    SpecRecord { name, class, ttl, data },
                                                ),
                                            },
                                        }
                                    },
                                }
                            }
                        },
                    }
                },
            }
        },
    }
}

/// The records of the normalized lines, each line owning inheritance from
/// the record before it.
pub open spec fn spec_parse_lines(
    lines: Seq<Seq<char>>,
    origin: Seq<Seq<char>>,
) -> Seq<SpecRecord>
    decreases lines.len(),
{
    if lines.len() == 0 {
        Seq::empty()
    } else {
        let prev = spec_parse_lines(lines.drop_last(), origin);
        let last = if prev.len() > 0 {
            Some(prev.last())
        } else {
            None
        };
        match spec_parse_record_line(lines.last(), last, origin) {
            Some(r) => prev.push(r),
            None => prev,
        }
    }
}

/// What parsing a zone file yields: comments stripped, parenthesized groups
/// folded, whitespace collapsed, then each line parsed as a record, with
/// names resolved against `origin`; invalid lines are skipped.
pub open spec fn spec_parse_zone(input: Seq<char>, origin: Seq<Seq<char>>) -> Seq<SpecRecord> {
    let normalized = collapse_ws(fold_parens(strip_comments(input, 0, false), 0, false), 0);
    spec_parse_lines(split_sep(normalized, '\n'), origin)
}

/// Parses master-file text into records with absolute names.
pub fn parse_str(input: &str) -> (r: Vec<Record>)
    ensures
        r.deep_view() == spec_parse_zone(input@, Seq::empty()),
{
    let origin = Name::root();
    parse_str_relative(input, &origin)
}

/// Parses master-file text into records, names without the trailing dot
/// resolved against `origin`.
pub fn parse_str_relative(input: &str, origin: &Name) -> (r: Vec<Record>)
    ensures
        r.deep_view() == spec_parse_zone(input@, origin@),
{
    let chars = str_to_chars(input);
    let pass1 = strip_comments_exec(&chars);
    let pass2 = fold_parens_exec(&pass1);
    let pass3 = collapse_ws_exec(&pass2);
    let lines = crate::ascii::split_sep_exec(&pass3, 0, pass3.len(), '\n');
    proof {
        assert(pass3@.subrange(0, pass3@.len() as int) =~= pass3@);
    }
    let ghost ls = split_sep(pass3@, '\n');
    let count = lines.len();
    let mut records: Vec<Record> = Vec::new();
    let mut i: usize = 0;
    while i < count
        invariant
            i <= count,
            count == ls.len(),
            count == lines@.len(),
            lines.deep_view() == ls,
            records.deep_view() == spec_parse_lines(ls.take(i as int), origin@),
        decreases count - i,
    {
        proof {
            assert(lines.deep_view()[i as int] == lines@[i as int]@);
            assert(ls.take(i + 1).drop_last() =~~= ls.take(i as int));
            assert(ls.take(i + 1).last() == ls[i as int]);
        }
        let line_rec = parse_record_line(&lines[i], &records, origin);
        match line_rec {
            Some(rec) => {
                records.push(rec);
            },
            None => {
            },
        }
        i = i + 1;
        proof {
            assert(records.deep_view() =~~= spec_parse_lines(ls.take(i as int), origin@));
        }
    }
    proof {
        assert(ls.take(count as int) =~~= ls);
    }
    records
}

/// Parses one normalized line; `records` supplies the previous record for
/// inheritance.
fn parse_record_line(line: &Vec<char>, records: &Vec<Record>, origin: &Name) -> (r: Option<Record>)
    ensures
        ({
            let last = if records.deep_view().len() > 0 {
                Some(records.deep_view().last())
            } else {
                None
            };
            match r {
                Some(rec) => spec_parse_record_line(line@, last, origin@) == Some(rec@),
                None => spec_parse_record_line(line@, last, origin@) is None,
            }
        }),
{
    let ghost last = if records.deep_view().len() > 0 {
        Some(records.deep_view().last())
    } else {
        None
    };
    let p = match find_char_exec(line, 0, ' ') {
        None => {
            return None;
        },
        Some(p) => p,
    };
    let name_string: String = if p == 0 {
        if records.len() == 0 {
            return None;
        }
        proof {
            assert(records.deep_view().last() == records@[records@.len() - 1]@);
        }
        let lr = &records[records.len() - 1];
        lr.name().to_string()
    } else {
        string_from_chars(subrange_chars(line, 0, p))
    };
    proof {
        if p > 0 {
            assert(name_string@ =~= line@.take(p as int));
        }
    }
    let ln = line.len();
    let rr = subrange_chars(line, p + 1, ln);
    proof {
        assert(rr@ =~= line@.skip(p + 1));
    }
    let sep = match separate_rr_fields(&rr, records) {
        None => {
            return None;
        },
        Some(t) => t,
    };
    let (ttl, class, rest) = sep;
    if rest.len() < 2 {
        return None;
    }
    proof {
        assert(rest.deep_view()[0] == rest@[0]@);
    }
    let type_string = string_from_chars(subrange_chars(&rest[0], 0, rest[0].len()));
    proof {
        assert(type_string@ =~= rest.deep_view()[0]);
    }
    let record_type = match crate::record_type::RecordType::parse_record_type(
        type_string.as_str(),
    ) {
        Err(_) => {
            return None;
        },
        Ok(t) => t,
    };
    let data_words = join_rest(&rest);
    let data_string = string_from_chars(data_words);
    let name = match Name::from_str_relative(name_string.as_str(), origin) {
        Err(_) => {
            return None;
        },
        Ok(nm) => nm,
    };
    let data = match Record::parse_rdata(record_type, data_string.as_str(), origin) {
        Err(_) => {
            return None;
        },
        Ok(d) => d,
    };
    Some(Record::new(name, class, ttl, data))
}

/// Joins `rest[1..]` with single spaces.
fn join_rest(rest: &Vec<Vec<char>>) -> (r: Vec<char>)
    requires
        rest@.len() >= 1,
    ensures
        r@ == join_spaces(rest.deep_view().drop_first()),
{
    let ghost ws = rest.deep_view().drop_first();
    let n = rest.len();
    let mut out: Vec<char> = Vec::new();
    let mut i: usize = 1;
    while i < n
        invariant
            1 <= i <= n,
            n == rest@.len(),
            ws == rest.deep_view().drop_first(),
            ws.len() == n - 1,
            out@ == join_spaces(ws.take(i - 1)),
        decreases n - i,
    {
        proof {
            assert(ws[i - 1] == rest.deep_view()[i as int]);
            assert(rest.deep_view()[i as int] == rest@[i as int]@);
            assert(ws.take(i as int).drop_last() =~~= ws.take(i - 1));
            assert(ws.take(i as int).last() == ws[i - 1]);
        }
        if i > 1 {
            out.push(' ');
        }
        let mut piece = subrange_chars(&rest[i], 0, rest[i].len());
        out.append(&mut piece);
        i = i + 1;
        proof {
            assert(out@ =~= join_spaces(ws.take(i - 1)));
        }
    }
    proof {
        assert(ws.take(n - 1) =~~= ws);
    }
    out
}

/// Splits off the TTL and class words, inheriting absent ones from the
/// previous record.
fn separate_rr_fields(rr: &Vec<char>, records: &Vec<Record>) -> (r: Option<
    (u32, Class, Vec<Vec<char>>),
>)
    ensures
        ({
            let last = if records.deep_view().len() > 0 {
                Some(records.deep_view().last())
            } else {
                None
            };
            match r {
                Some(t) => spec_separate_rr(rr@, last) == Some(
                    (t.0, t.1, t.2.deep_view()),
                ),
                None => spec_separate_rr(rr@, last) is None,
            }
        }),
{
    let ghost last = if records.deep_view().len() > 0 {
        Some(records.deep_view().last())
    } else {
        None
    };
    let words = crate::ascii::split_spaces_exec(rr);
    let wn = words.len();
    if wn == 0 {
        return None;
    }
    proof {
        assert(words.deep_view()[0] == words@[0]@);
    }
    let w0 = subrange_chars(&words[0], 0, words[0].len());
    proof {
        assert(w0@ =~= words.deep_view()[0]);
    }
    match crate::ascii::parse_u32_chars(&w0) {
        Some(ttl) => {
            if wn >= 2 {
                proof {
                    assert(words.deep_view()[1] == words@[1]@);
                }
                let w1 = string_from_chars(subrange_chars(&words[1], 0, words[1].len()));
                proof {
                    assert(w1@ =~= words.deep_view()[1]);
                }
                if let Ok(c) = Class::parse_class(w1.as_str()) {
                    let rest = skip_words(&words, 2);
                    return Some((ttl, c, rest));
                }
            }
            if records.len() == 0 {
                return None;
            }
            proof {
                assert(records.deep_view().last() == records@[records@.len() - 1]@);
            }
            let lr = &records[records.len() - 1];
            let rest = skip_words(&words, 1);
            Some((ttl, lr.class(), rest))
        },
        None => {
            let w0s = string_from_chars(w0);
            if let Ok(_c) = Class::parse_class(w0s.as_str()) {
                if wn >= 2 {
                    proof {
                        assert(words.deep_view()[1] == words@[1]@);
                    }
                    let w1 = subrange_chars(&words[1], 0, words[1].len());
                    proof {
                        assert(w1@ =~= words.deep_view()[1]);
                    }
                    if let Some(ttl) = crate::ascii::parse_u32_chars(&w1) {
                        let rest = skip_words(&words, 2);
                        return Some((ttl, Class::In, rest));
                    }
                }
                if records.len() == 0 {
                    return None;
                }
                proof {
                    assert(records.deep_view().last() == records@[records@.len() - 1]@);
                }
                let lr = &records[records.len() - 1];
                let rest = skip_words(&words, 1);
                return Some((lr.ttl(), Class::In, rest));
            }
            if records.len() == 0 {
                return None;
            }
            proof {
                assert(records.deep_view().last() == records@[records@.len() - 1]@);
            }
            let lr = &records[records.len() - 1];
            let rest = skip_words(&words, 0);
            proof {
                assert(words.deep_view().skip(0) =~~= words.deep_view());
            }
            Some((lr.ttl(), lr.class(), rest))
        },
    }
}

/// Copies the words from position `k` on.
fn skip_words(words: &Vec<Vec<char>>, k: usize) -> (r: Vec<Vec<char>>)
    requires
        k <= words@.len(),
    ensures
        r.deep_view() == words.deep_view().skip(k as int),
{
    let n = words.len();
    let mut out: Vec<Vec<char>> = Vec::new();
    let mut i: usize = k;
    while i < n
        invariant
            k <= i <= n,
            n == words@.len(),
            out@.len() == i - k,
            forall|j: int| 0 <= j < i - k ==> #[trigger] out@[j]@ == words@[k + j]@,
        decreases n - i,
    {
        out.push(subrange_chars(&words[i], 0, words[i].len()));
        i = i + 1;
    }
    proof {
        assert forall|j: int| 0 <= j < n - k implies out.deep_view()[j] == words.deep_view().skip(
            k as int,
        )[j] by {
            assert(out.deep_view()[j] == out@[j]@);
            assert(words.deep_view()[k + j] == words@[k + j]@);
        }
        assert(out.deep_view() =~~= words.deep_view().skip(k as int));
    }
    out
}

/// Zone-parser resilience to blank lines: inserting an empty line anywhere
/// into the normalized lines leaves the record set unchanged.
pub proof fn lemma_blank_line_ignored(lines: Seq<Seq<char>>, i: int, origin: Seq<Seq<char>>)
    requires
        0 <= i <= lines.len(),
    ensures
        spec_parse_lines(lines.insert(i, Seq::empty()), origin) == spec_parse_lines(lines, origin),
    decreases lines.len(),
{
    let with = lines.insert(i, Seq::empty());
    if i == lines.len() {
        assert(with.drop_last() =~~= lines);
        assert(with.last() =~= Seq::<char>::empty());
        assert(find_char(Seq::empty(), ' ', 0) is None);
        assert(spec_parse_record_line(
            Seq::empty(),
            if spec_parse_lines(lines, origin).len() > 0 {
                Some(spec_parse_lines(lines, origin).last())
            } else {
                None
            },
            origin,
        ) is None);
    } else {
        assert(with.drop_last() =~~= lines.drop_last().insert(i, Seq::empty()));
        assert(with.last() == lines.last());
        lemma_blank_line_ignored(lines.drop_last(), i, origin);
    }
}

/// Finds the end of a quoted string, mirroring `quote_end`.
fn quote_end_exec(s: &Vec<char>, j: usize) -> (r: usize)
    requires
        j <= s@.len(),
    ensures
        r as int == quote_end(s@, j as int),
        j <= r <= s@.len(),
    decreases s@.len() - j,
{
    let n = s.len();
    if j >= n {
        return n;
    }
    if s[j] == '\\' {
        if n - j >= 2 {
            quote_end_exec(s, j + 2)
        } else {
            n
        }
    } else if s[j] == '"' {
        j + 1
    } else {
        quote_end_exec(s, j + 1)
    }
}

/// Removes comments, mirroring `strip_comments`.
fn strip_comments_exec(s: &Vec<char>) -> (r: Vec<char>)
    ensures
        r@ == strip_comments(s@, 0, false),
{
    let n = s.len();
    let mut out: Vec<char> = Vec::new();
    let mut i: usize = 0;
    let mut in_comment: bool = false;
    while i < n
        invariant
            i <= n,
            n == s@.len(),
            out@ + strip_comments(s@, i as int, in_comment) == strip_comments(s@, 0, false),
        decreases n - i,
    {
        let ghost pre_out = out@;
        let ghost pre_i = i as int;
        let ghost pre_comment = in_comment;
        let c = s[i];
        if in_comment {
            if c == '\n' {
                out.push('\n');
                in_comment = false;
            }
            i = i + 1;
        } else if c == '"' {
            proof {
                lemma_quote_end_bounds(s@, i + 1);
            }
            let e = quote_end_exec(s, i + 1);
            let mut span = subrange_chars(s, i, e);
            proof {
                assert(span@ =~= s@.subrange(i as int, e as int));
            }
            out.append(&mut span);
            i = e;
            proof {
                assert(strip_comments(s@, pre_i, false) == strip_comments_quote(s@, pre_i));
            }
        } else if c == ';' {
            in_comment = true;
            i = i + 1;
        } else {
            out.push(c);
            i = i + 1;
        }
        proof {
            assert(pre_out + strip_comments(s@, pre_i, pre_comment) == strip_comments(
                s@,
                0,
                false,
            ));
            assert(out@ + strip_comments(s@, i as int, in_comment) =~= pre_out + strip_comments(
                s@,
                pre_i,
                pre_comment,
            ));
        }
    }
    proof {
        assert(out@ =~= strip_comments(s@, 0, false));
    }
    out
}

/// Folds parenthesized groups, mirroring `fold_parens`.
fn fold_parens_exec(s: &Vec<char>) -> (r: Vec<char>)
    ensures
        r@ == fold_parens(s@, 0, false),
{
    let n = s.len();
    let mut out: Vec<char> = Vec::new();
    let mut i: usize = 0;
    let mut in_paren: bool = false;
    while i < n
        invariant
            i <= n,
            n == s@.len(),
            out@ + fold_parens(s@, i as int, in_paren) == fold_parens(s@, 0, false),
        decreases n - i,
    {
        let ghost pre_out = out@;
        let ghost pre_i = i as int;
        let ghost pre_paren = in_paren;
        let c = s[i];
        if c == '"' {
            proof {
                lemma_quote_end_bounds(s@, i + 1);
            }
            let e = quote_end_exec(s, i + 1);
            let mut span = subrange_chars(s, i, e);
            proof {
                assert(span@ =~= s@.subrange(i as int, e as int));
            }
            out.append(&mut span);
            i = e;
            proof {
                assert(fold_parens(s@, pre_i, pre_paren) == fold_parens_quote(
                    s@,
                    pre_i,
                    pre_paren,
                ));
            }
        } else if c == '\n' {
            if in_paren {
                out.push(' ');
            } else {
                out.push('\n');
            }
            i = i + 1;
        } else if c == '(' {
            in_paren = true;
            i = i + 1;
        } else if c == ')' {
            in_paren = false;
            i = i + 1;
        } else {
            out.push(c);
            i = i + 1;
        }
        proof {
            assert(pre_out + fold_parens(s@, pre_i, pre_paren) == fold_parens(s@, 0, false));
            assert(out@ + fold_parens(s@, i as int, in_paren) =~= pre_out + fold_parens(
                s@,
                pre_i,
                pre_paren,
            ));
        }
    }
    proof {
        assert(out@ =~= fold_parens(s@, 0, false));
    }
    out
}

/// Collapses horizontal whitespace, mirroring `collapse_ws`.
fn collapse_ws_exec(s: &Vec<char>) -> (r: Vec<char>)
    ensures
        r@ == collapse_ws(s@, 0),
{
    let n = s.len();
    let mut out: Vec<char> = Vec::new();
    let mut i: usize = 0;
    while i < n
        invariant
            i <= n,
            n == s@.len(),
            out@ + collapse_ws(s@, i as int) == collapse_ws(s@, 0),
        decreases n - i,
    {
        let ghost pre_out = out@;
        let ghost pre_i = i as int;
        let c = s[i];
        if c == '"' {
            proof {
                lemma_quote_end_bounds(s@, i + 1);
            }
            let e = quote_end_exec(s, i + 1);
            let mut span = subrange_chars(s, i, e);
            proof {
                assert(span@ =~= s@.subrange(i as int, e as int));
            }
            out.append(&mut span);
            i = e;
            proof {
                assert(collapse_ws(s@, pre_i) == collapse_ws_quote(s@, pre_i));
            }
        } else if c == '\n' {
            out.push('\n');
            i = i + 1;
        } else if c == ' ' || c == '\t' || c == '\r' {
            if i + 1 < n {
                let nx = s[i + 1];
                if !(nx == ' ' || nx == '\t' || nx == '\r') && nx != '\n' {
                    out.push(' ');
                }
            }
            i = i + 1;
        } else {
            out.push(c);
            i = i + 1;
        }
        proof {
            assert(pre_out + collapse_ws(s@, pre_i) == collapse_ws(s@, 0));
            assert(out@ + collapse_ws(s@, i as int) =~= pre_out + collapse_ws(s@, pre_i));
        }
    }
    proof {
        assert(out@ =~= collapse_ws(s@, 0));
    }
    out
}

} // verus!
