use vstd::prelude::*;
use vstd::string::StringExecFns;

use crate::ascii::str_to_chars;
use crate::label::{label_wf, spec_label_err, spec_label_ok, Label, LabelFromStrErr, lower_chars};

verus! {

/// The longest permitted domain name on the wire: the sum of all label
/// octets and label length octets, with the closing null octet.
pub const MAX_NAME_LEN: usize = 255;

/// Represents a complete domain name (often called "absolute"), for example
/// "poneria.isi.edu.". Since a complete domain name ends with the root
/// label, this leads to a printed form which ends in a dot. The null label
/// at the end is not stored.
#[derive(Debug)]
pub struct Name(Vec<Label>);

/// Represents a domain name definition error.
#[derive(Debug, Clone, Copy, PartialEq, Eq, Structural)]
pub enum NameErr {
    /// A domain name must not have an empty label.
    EmptyLabel,
    /// The total number of octets that represent a domain name (i.e., the
    /// sum of all label octets and label lengths) is limited to 255.
    LenLimit,
}

#[derive(Debug, Clone, Copy, PartialEq, Eq, Structural)]
pub enum FromStrErr {
    NameErr(NameErr),
    LabelFromStrErr(LabelFromStrErr),
}

/// The octets taken by the labels themselves.
pub open spec fn sum_label_len(ls: Seq<Seq<char>>) -> int
    decreases ls.len(),
{
    if ls.len() == 0 {
        0
    } else {
        sum_label_len(ls.drop_last()) + ls.last().len()
    }
}

/// The wire length of a name: each label with its length octet, and the
/// closing null octet.
pub open spec fn name_wire_len(ls: Seq<Seq<char>>) -> int {
    sum_label_len(ls) + ls.len() + 1
}

/// Every stored name holds well-formed, non-null labels and fits the wire
/// length limit.
pub open spec fn name_wf(ls: Seq<Seq<char>>) -> bool {
    &&& forall|i: int| 0 <= i < ls.len() ==> label_wf(#[trigger] ls[i]) && ls[i].len() > 0
    &&& name_wire_len(ls) <= 255
}

/// `sub` is a subdomain of `dom` iff `dom`'s labels are a strict suffix of
/// `sub`'s.
pub open spec fn is_strict_suffix(sub: Seq<Seq<char>>, dom: Seq<Seq<char>>) -> bool {
    &&& sub.len() > dom.len()
    &&& sub.skip(sub.len() - dom.len()) =~~= dom
}

/// What `Name::create` yields: the first empty label is reported, then the
/// length limit, otherwise the labels stand as given.
pub open spec fn spec_create(ls: Seq<Seq<char>>) -> Result<Seq<Seq<char>>, NameErr> {
    if exists|i: int| 0 <= i < ls.len() && ls[i].len() == 0 {
        Err(NameErr::EmptyLabel)
    } else if name_wire_len(ls) > 255 {
        Err(NameErr::LenLimit)
    } else {
        Ok(ls)
    }
}

/// The pieces of `s` between dots; the empty text has one empty piece.
pub open spec fn split_dots(s: Seq<char>) -> Seq<Seq<char>> {
    crate::ascii::split_sep(s, '.')
}

/// Each piece parsed as a label, left to right, stopping at the first error.
pub open spec fn parse_label_list(ps: Seq<Seq<char>>) -> Result<Seq<Seq<char>>, LabelFromStrErr>
    decreases ps.len(),
{
    if ps.len() == 0 {
        Ok(Seq::empty())
    } else if !spec_label_ok(ps[0]) {
        Err(spec_label_err(ps[0]))
    } else {
        match parse_label_list(ps.drop_first()) {
            Err(e) => Err(e),
            Ok(vs) => Ok(seq![lower_chars(ps[0])].add(vs)),
        }
    }
}

/// The text of `s` without one trailing dot.
pub open spec fn strip_trailing_dot(s: Seq<char>) -> Seq<char> {
    if s.len() > 0 && s[s.len() - 1] == '.' {
        s.drop_last()
    } else {
        s
    }
}

/// What parsing a name from text yields.
pub open spec fn spec_parse_name(s: Seq<char>) -> Result<Seq<Seq<char>>, FromStrErr> {
    let core = strip_trailing_dot(s);
    if core.len() == 0 {
        Ok(Seq::empty())
    } else {
        match parse_label_list(split_dots(core)) {
            Err(e) => Err(FromStrErr::LabelFromStrErr(e)),
            Ok(ls) => match spec_create(ls) {
                Err(ne) => Err(FromStrErr::NameErr(ne)),
                Ok(v) => Ok(v),
            },
        }
    }
}

/// The printed form: each label followed by a dot; the root name is ".".
pub open spec fn name_text_rec(ls: Seq<Seq<char>>) -> Seq<char>
    decreases ls.len(),
{
    if ls.len() == 0 {
        Seq::empty()
    } else {
        name_text_rec(ls.drop_last()).add(ls.last()).push('.')
    }
}

pub open spec fn spec_name_text(ls: Seq<Seq<char>>) -> Seq<char> {
    if ls.len() == 0 {
        seq!['.']
    } else {
        name_text_rec(ls)
    }
}

proof fn lemma_sum_label_len_take(ls: Seq<Seq<char>>, i: int)
    requires
        0 <= i < ls.len(),
    ensures
        sum_label_len(ls.take(i + 1)) == sum_label_len(ls.take(i)) + ls[i].len(),
{
    assert(ls.take(i + 1).drop_last() =~~= ls.take(i));
    assert(ls.take(i + 1).last() == ls[i]);
}

proof fn lemma_sum_label_len_nonneg(ls: Seq<Seq<char>>)
    ensures
        sum_label_len(ls) >= 0,
    decreases ls.len(),
{
    if ls.len() > 0 {
        lemma_sum_label_len_nonneg(ls.drop_last());
    }
}

/// A prefix of the labels never takes more wire octets than the whole.
proof fn lemma_wire_len_prefix(ls: Seq<Seq<char>>, i: int)
    requires
        0 <= i <= ls.len(),
    ensures
        name_wire_len(ls.take(i)) <= name_wire_len(ls),
    decreases ls.len() - i,
{
    if i == ls.len() {
        assert(ls.take(i) =~~= ls);
    } else {
        lemma_sum_label_len_take(ls, i);
        lemma_wire_len_prefix(ls, i + 1);
    }
}

/// A suffix of a well-formed name is itself well-formed.
pub proof fn lemma_wire_len_skip(ls: Seq<Seq<char>>, k: int)
    requires
        0 <= k <= ls.len(),
    ensures
        name_wire_len(ls.skip(k)) <= name_wire_len(ls),
    decreases ls.len(),
{
    if k == 0 {
        assert(ls.skip(0) =~~= ls);
    } else if ls.len() > 0 {
        assert(ls.skip(k) =~~= ls.drop_first().skip(k - 1));
        lemma_wire_len_skip(ls.drop_first(), k - 1);
        lemma_sum_drop_first(ls);
    }
}

proof fn lemma_sum_drop_first(ls: Seq<Seq<char>>)
    requires
        ls.len() > 0,
    ensures
        sum_label_len(ls) == ls[0].len() + sum_label_len(ls.drop_first()),
    decreases ls.len(),
{
    if ls.len() == 1 {
        assert(ls.drop_first() =~~= Seq::<Seq<char>>::empty());
        assert(ls.drop_last() =~~= Seq::<Seq<char>>::empty());
        assert(ls.last() == ls[0]);
    } else {
        lemma_sum_drop_first(ls.drop_last());
        assert(ls.drop_last()[0] == ls[0]);
        assert(ls.drop_first().drop_last() =~~= ls.drop_last().drop_first());
        assert(ls.drop_first().last() == ls.last());
        assert(sum_label_len(ls.drop_first()) == sum_label_len(ls.drop_first().drop_last())
            + ls.drop_first().last().len());
    }
}

impl View for Name {
    type V = Seq<Seq<char>>;

    closed spec fn view(&self) -> Seq<Seq<char>> {
        self.0.deep_view()
    }
}

impl DeepView for Name {
    type V = Seq<Seq<char>>;

    open spec fn deep_view(&self) -> Seq<Seq<char>> {
        self.view()
    }
}

impl Name {
    /// Every name value in the library satisfies this well-formedness.
    #[verifier::type_invariant]
    pub open spec fn wf(&self) -> bool {
        name_wf(self@)
    }

    /// Create a domain name from a list of labels without the null label at
    /// the end. Don't use null labels.
    pub fn create(labels: Vec<Label>) -> (r: Result<Name, NameErr>)
        ensures
            match r {
                Ok(n) => spec_create(labels.deep_view()) == Ok::<Seq<Seq<char>>, NameErr>(n@),
                Err(e) => spec_create(labels.deep_view()) == Err::<Seq<Seq<char>>, NameErr>(e),
            },
    {
        let ghost ls = labels.deep_view();
        let n = labels.len();
        let mut i: usize = 0;
        while i < n
            invariant
                i <= n,
                n == labels@.len(),
                ls == labels.deep_view(),
                forall|j: int| 0 <= j < i ==> label_wf(#[trigger] ls[j]) && ls[j].len() > 0,
            decreases n - i,
        {
            let l = &labels[i];
            proof {
                use_type_invariant(l);
                assert(ls[i as int] == l@);
            }
            if l.is_null() {
                return Err(NameErr::EmptyLabel);
            }
            i = i + 1;
        }
        let mut acc: usize = 1;
        let mut i: usize = 0;
        while i < n
            invariant
                i <= n,
                n == labels@.len(),
                ls == labels.deep_view(),
                forall|j: int| 0 <= j < n ==> label_wf(#[trigger] ls[j]) && ls[j].len() > 0,
                acc == name_wire_len(ls.take(i as int)),
                acc <= 255,
            decreases n - i,
        {
            let l = &labels[i];
            proof {
                use_type_invariant(l);
                assert(ls[i as int] == l@);
                lemma_sum_label_len_take(ls, i as int);
            }
            let ll = l.len();
            if acc + 1 + ll > MAX_NAME_LEN {
                proof {
                    lemma_wire_len_prefix(ls, i + 1);
                }
                return Err(NameErr::LenLimit);
            }
            acc = acc + 1 + ll;
            i = i + 1;
        }
        proof {
            assert(ls.take(n as int) =~~= ls);
        }
        Ok(Name(labels))
    }

    /// Return the root (".") domain name.
    pub fn root() -> (r: Name)
        ensures
            r@ == Seq::<Seq<char>>::empty(),
    {
        let r = Name(Vec::new());
        proof {
            assert(r@ =~~= Seq::<Seq<char>>::empty());
        }
        r
    }

    /// Check if it's the "." domain name.
    pub fn is_root(&self) -> (r: bool)
        ensures
            r == (self@.len() == 0),
    {
        self.0.len() == 0
    }

    /// The number of labels, not counting the null root label.
    pub fn label_count(&self) -> (r: usize)
        ensures
            r == self@.len(),
    {
        self.0.len()
    }

    /// The label at position `i`, leftmost first.
    pub fn label_at(&self, i: usize) -> (r: &Label)
        requires
            i < self@.len(),
        ensures
            r@ == self@[i as int],
    {
        &self.0[i]
    }

    /// Check if it's a subdomain of the given domain. "example.com." is a
    /// subdomain of "com.".
    pub fn is_subdomain(&self, domain: &Name) -> (r: bool)
        ensures
            r == is_strict_suffix(self@, domain@),
    {
        let n = self.0.len();
        let d = domain.0.len();
        if n <= d {
            return false;
        }
        let mut j: usize = 0;
        while j < d
            invariant
                j <= d,
                d == domain@.len(),
                n == self@.len(),
                n > d,
                forall|k: int| 0 <= k < j ==> self@[n - d + k] == domain@[k],
            decreases d - j,
        {
            if !(self.0[n - d + j] == domain.0[j]) {
                proof {
                    assert(self@[n - d + j as int] != domain@[j as int]);
                    assert(!is_strict_suffix(self@, domain@)) by {
                        if is_strict_suffix(self@, domain@) {
                            assert(self@.skip(n - d)[j as int] == domain@[j as int]);
                        }
                    }
                }
                return false;
            }
            j = j + 1;
        }
        proof {
            assert(self@.skip(n - d) =~~= domain@);
        }
        true
    }

    /// All suffixes of the name, from the name itself down to the root.
    pub fn suffix_names(&self) -> (r: Vec<Name>)
        ensures
            r@.len() == self@.len() + 1,
            forall|k: int| 0 <= k <= self@.len() ==> #[trigger] r@[k]@ == self@.skip(k),
    {
        proof {
            use_type_invariant(self);
            lemma_sum_label_len_nonneg(self@);
        }
        let n = self.0.len();
        let mut out: Vec<Name> = Vec::new();
        let mut k: usize = 0;
        while k <= n
            invariant
                k <= n + 1,
                n == self@.len(),
                n == self.0@.len(),
                n + 1 <= 255,
                name_wf(self@),
                out@.len() == k,
                forall|m: int| 0 <= m < k ==> #[trigger] out@[m]@ == self@.skip(m),
            decreases n + 1 - k,
        {
            let mut labels: Vec<Label> = Vec::new();
            let mut i: usize = k;
            while i < n
                invariant
                    k <= i <= n,
                    n == self@.len(),
                    n == self.0@.len(),
                    name_wf(self@),
                    labels@.len() == i - k,
                    forall|j: int| 0 <= j < i - k ==> #[trigger] labels@[j]@ == self@[k + j],
                decreases n - i,
            {
                let l = self.0[i].clone();
                proof {
                    assert(l@ == self@[i as int]);
                }
                labels.push(l);
                i = i + 1;
            }
            proof {
                assert forall|j: int| 0 <= j < n - k implies labels.deep_view()[j] == self@.skip(
                    k as int,
                )[j] by {
                    assert(labels.deep_view()[j] == labels@[j]@);
                }
                assert(labels.deep_view() =~~= self@.skip(k as int));
                lemma_wire_len_skip(self@, k as int);
                assert(name_wf(labels.deep_view()));
            }
            out.push(Name(labels));
            k = k + 1;
        }
        out
    }

    /// A borrowed view of the labels.
    pub fn labels(&self) -> (r: &Vec<Label>)
        ensures
            r.deep_view() == self@,
    {
        proof {
            assert(self.0.deep_view() =~~= self@);
        }
        &self.0
    }

    /// Parses dot-separated text, with or without the trailing dot; text
    /// without the trailing dot is still absolute here.
    pub fn parse_name(s: &str) -> (r: Result<Name, FromStrErr>)
        ensures
            match r {
                Ok(n) => spec_parse_name(s@) == Ok::<Seq<Seq<char>>, FromStrErr>(n@),
                Err(e) => spec_parse_name(s@) == Err::<Seq<Seq<char>>, FromStrErr>(e),
            },
    {
        let chars = str_to_chars(s);
        Name::parse_name_chars(&chars)
    }

    /// As `parse_name`, over the characters of the text.
    pub fn parse_name_chars(chars: &Vec<char>) -> (r: Result<Name, FromStrErr>)
        ensures
            match r {
                Ok(n) => spec_parse_name(chars@) == Ok::<Seq<Seq<char>>, FromStrErr>(n@),
                Err(e) => spec_parse_name(chars@) == Err::<Seq<Seq<char>>, FromStrErr>(e),
            },
    {
        let full = chars.len();
        let core_len: usize = if full > 0 && chars[full - 1] == '.' {
            full - 1
        } else {
            full
        };
        proof {
            assert(chars@.take(core_len as int) =~~= strip_trailing_dot(chars@));
        }
        if core_len == 0 {
            return Ok(Name::root());
        }
        let pieces = split_dots_exec(chars, 0, core_len);
        let ghost ps = split_dots(strip_trailing_dot(chars@));
        let m = pieces.len();
        let mut labels: Vec<Label> = Vec::new();
        let mut i: usize = 0;
        while i < m
            invariant
                i <= m,
                m == ps.len(),
                m == pieces@.len(),
                pieces.deep_view() == ps,
                ps == split_dots(strip_trailing_dot(chars@)),
                strip_trailing_dot(chars@).len() > 0,
                forall|j: int| 0 <= j < i ==> spec_label_ok(#[trigger] ps[j]),
                labels@.len() == i,
                forall|j: int| 0 <= j < i ==> #[trigger] labels@[j]@ == lower_chars(ps[j]),
            decreases m - i,
        {
            proof {
                assert(pieces.deep_view()[i as int] == pieces@[i as int]@);
            }
            match Label::parse_label_chars(&pieces[i]) {
                Ok(l) => {
                    labels.push(l);
                },
                Err(e) => {
                    proof {
                        lemma_parse_label_list_err(ps, i as int);
                    }
                    return Err(FromStrErr::LabelFromStrErr(e));
                },
            }
            i = i + 1;
        }
        proof {
            lemma_parse_label_list_ok(ps);
            assert forall|j: int| 0 <= j < m implies labels.deep_view()[j] == ps.map_values(
                |p: Seq<char>| lower_chars(p),
            )[j] by {
                assert(labels.deep_view()[j] == labels@[j]@);
            }
            assert(labels.deep_view() =~~= ps.map_values(|p: Seq<char>| lower_chars(p)));
        }
        match Name::create(labels) {
            Ok(n) => Ok(n),
            Err(e) => Err(FromStrErr::NameErr(e)),
        }
    }

    /// Parses text as `parse_name`; text not ending in '.' is taken relative
    /// to `origin`, whose labels are appended.
    pub fn from_str_relative(s: &str, origin: &Name) -> (r: Result<Name, FromStrErr>)
        ensures
            match r {
                Ok(n) => spec_from_str_relative(s@, origin@) == Ok::<Seq<Seq<char>>, FromStrErr>(
                    n@,
                ),
                Err(e) => spec_from_str_relative(s@, origin@) == Err::<Seq<Seq<char>>, FromStrErr>(
                    e,
                ),
            },
    {
        let chars = str_to_chars(s);
        let n = chars.len();
        if n > 0 && chars[n - 1] == '.' {
            return Name::parse_name_chars(&chars);
        }
        match Name::parse_name_chars(&chars) {
            Err(e) => Err(e),
            Ok(rel) => {
                let ghost rel_view = rel@;
                let mut labels = rel.0;
                proof {
                    assert(labels.deep_view() == rel_view);
                }
                let ghost base = labels@.len();
                proof {
                    assert forall|j: int| 0 <= j < base implies #[trigger] labels@[j]@
                        == rel_view[j] by {
                        assert(labels.deep_view()[j] == labels@[j]@);
                    }
                }
                let on = origin.0.len();
                let mut i: usize = 0;
                while i < on
                    invariant
                        i <= on,
                        on == origin@.len(),
                        on == origin.0@.len(),
                        labels@.len() == base + i,
                        base == rel_view.len(),
                        forall|j: int| 0 <= j < base ==> #[trigger] labels@[j]@ == rel_view[j],
                        forall|j: int|
                            0 <= j < i ==> #[trigger] labels@[base + j]@ == origin@[j],
                    decreases on - i,
                {
                    let l = origin.0[i].clone();
                    proof {
                        assert(l@ == origin@[i as int]);
                    }
                    labels.push(l);
                    i = i + 1;
                }
                proof {
                    assert forall|j: int|
                        0 <= j < base + on implies labels.deep_view()[j] == (rel_view
                        + origin@)[j] by {
                        assert(labels.deep_view()[j] == labels@[j]@);
                        if j >= base {
                            assert(labels@[base + (j - base)]@ == origin@[j - base]);
                        }
                    }
                    assert(labels.deep_view() =~~= rel_view + origin@);
                }
                match Name::create(labels) {
                    Ok(nm) => Ok(nm),
                    Err(e) => Err(FromStrErr::NameErr(e)),
                }
            },
        }
    }

    /// The canonical textual form: dot-separated with a trailing dot.
    pub fn to_string(&self) -> (r: String)
        ensures
            r@ == spec_name_text(self@),
    {
        proof {
            use_type_invariant(self);
        }
        let n = self.0.len();
        if n == 0 {
            let mut s = String::new();
            s.append(".");
            proof {
                reveal_strlit(".");
                assert(s@ =~~= seq!['.']);
            }
            return s;
        }
        let mut s = String::new();
        let mut i: usize = 0;
        while i < n
            invariant
                i <= n,
                n == self@.len(),
                name_wf(self@),
                forall|k: int| 0 <= k < n ==> self.0@[k]@ == self@[k],
                s@ =~~= name_text_rec(self@.take(i as int)),
            decreases n - i,
        {
            s.append(self.0[i].as_str());
            s.append(".");
            proof {
                reveal_strlit(".");
                assert(self@.take(i + 1).drop_last() =~~= self@.take(i as int));
                assert(s@ =~~= name_text_rec(self@.take(i + 1)));
            }
            i = i + 1;
        }
        proof {
            assert(self@.take(n as int) =~~= self@);
        }
        s
    }
}

/// What `from_str_relative` yields: absolute text is parsed as given,
/// relative text has the origin's labels appended before validation.
pub open spec fn spec_from_str_relative(s: Seq<char>, origin: Seq<Seq<char>>) -> Result<
    Seq<Seq<char>>,
    FromStrErr,
> {
    if s.len() > 0 && s[s.len() - 1] == '.' {
        spec_parse_name(s)
    } else {
        match spec_parse_name(s) {
            Err(e) => Err(e),
            Ok(rel) => match spec_create(rel + origin) {
                Err(ne) => Err(FromStrErr::NameErr(ne)),
                Ok(v) => Ok(v),
            },
        }
    }
}

/// If every piece before `i` parses and piece `i` does not, the whole list
/// reports piece `i`'s error.
proof fn lemma_parse_label_list_err(ps: Seq<Seq<char>>, i: int)
    requires
        0 <= i < ps.len(),
        forall|j: int| 0 <= j < i ==> spec_label_ok(#[trigger] ps[j]),
        !spec_label_ok(ps[i]),
    ensures
        parse_label_list(ps) == Err::<Seq<Seq<char>>, LabelFromStrErr>(spec_label_err(ps[i])),
    decreases ps.len(),
{
    if i > 0 {
        lemma_parse_label_list_err(ps.drop_first(), i - 1);
    }
}

/// If every piece parses, the whole list yields the lowercased pieces.
proof fn lemma_parse_label_list_ok(ps: Seq<Seq<char>>)
    requires
        forall|j: int| 0 <= j < ps.len() ==> spec_label_ok(#[trigger] ps[j]),
    ensures
        parse_label_list(ps) == Ok::<Seq<Seq<char>>, LabelFromStrErr>(
            ps.map_values(|p: Seq<char>| lower_chars(p)),
        ),
    decreases ps.len(),
{
    if ps.len() == 0 {
        assert(ps.map_values(|p: Seq<char>| lower_chars(p)) =~~= Seq::<Seq<char>>::empty());
    } else {
        lemma_parse_label_list_ok(ps.drop_first());
        assert(seq![lower_chars(ps[0])].add(
            ps.drop_first().map_values(|p: Seq<char>| lower_chars(p)),
        ) =~~= ps.map_values(|p: Seq<char>| lower_chars(p)));
    }
}

/// Splits `s[from..to)` at dots, mirroring `split_dots`.
pub(crate) fn split_dots_exec(s: &Vec<char>, from: usize, to: usize) -> (r: Vec<Vec<char>>)
    requires
        from <= to <= s@.len(),
    ensures
        r.deep_view() == split_dots(s@.subrange(from as int, to as int)),
{
    crate::ascii::split_sep_exec(s, from, to, '.')
}

impl core::str::FromStr for Name {
    type Err = FromStrErr;

    fn from_str(s: &str) -> Result<Name, FromStrErr> {
        Name::parse_name(s)
    }
}

impl Clone for Name {
    fn clone(&self) -> (r: Name)
        ensures
            r@ == self@,
    {
        proof {
            use_type_invariant(self);
        }
        let n = self.0.len();
        let mut labels: Vec<Label> = Vec::new();
        let mut i: usize = 0;
        while i < n
            invariant
                i <= n,
                n == self@.len(),
                n == self.0@.len(),
                name_wf(self@),
                labels@.len() == i,
                forall|j: int| 0 <= j < i ==> #[trigger] labels@[j]@ == self@[j],
            decreases n - i,
        {
            let l = self.0[i].clone();
            proof {
                assert(l@ == self@[i as int]);
            }
            labels.push(l);
            i = i + 1;
        }
        proof {
            assert forall|j: int| 0 <= j < n implies labels.deep_view()[j] == self@[j] by {
                assert(labels.deep_view()[j] == labels@[j]@);
            }
            assert(labels.deep_view() =~~= self@);
        }
        Name(labels)
    }
}

impl PartialEq for Name {
    fn eq(&self, other: &Name) -> (r: bool) {
        let n = self.0.len();
        if n != other.0.len() {
            proof {
                assert(self@.len() != other@.len());
            }
            return false;
        }
        let mut i: usize = 0;
        while i < n
            invariant
                i <= n,
                n == self@.len() == other@.len(),
                n == self.0@.len() == other.0@.len(),
                forall|k: int| 0 <= k < i ==> self@[k] == other@[k],
            decreases n - i,
        {
            if !(self.0[i] == other.0[i]) {
                proof {
                    assert(self@[i as int] != other@[i as int]);
                }
                return false;
            }
            i = i + 1;
        }
        proof {
            assert(self@ =~~= other@);
        }
        true
    }
}

impl Eq for Name {

}

impl vstd::std_specs::cmp::PartialEqSpecImpl for Name {
    open spec fn obeys_eq_spec() -> bool {
        true
    }

    open spec fn eq_spec(&self, other: &Name) -> bool {
        self@ == other@
    }
}

} // verus!
