use vstd::prelude::*;
use vstd::string::StrSliceExecFns;

use crate::ascii::{str_to_chars, string_from_chars};

verus! {

/// A label is zero to 63 octets in length. The domain name of a node is the
/// list of the labels on the path from the node to the root.
#[derive(Debug)]
pub struct Label(String);

/// The longest permitted label, in octets.
pub const MAX_LABEL_LEN: usize = 63;

pub open spec fn is_letter(c: char) -> bool {
    ('a' <= c && c <= 'z') || ('A' <= c && c <= 'Z')
}

pub open spec fn is_lower_letter(c: char) -> bool {
    'a' <= c && c <= 'z'
}

pub open spec fn is_digit(c: char) -> bool {
    '0' <= c && c <= '9'
}

pub open spec fn is_label_char(c: char) -> bool {
    is_letter(c) || is_digit(c) || c == '-'
}

/// The lowercase image of one character; only ASCII letters change.
pub open spec fn lower_char(c: char) -> char {
    if 'A' <= c && c <= 'Z' {
        (((c as u8) + 32) as char)
    } else {
        c
    }
}

pub open spec fn lower_chars(s: Seq<char>) -> Seq<char> {
    s.map_values(|c: char| lower_char(c))
}

/// The text accepted as a non-empty label: it starts with a letter, ends
/// with a letter or a digit, and holds only letters, digits and hyphens.
pub open spec fn label_text_accepted(s: Seq<char>) -> bool {
    &&& s.len() > 0
    &&& is_letter(s[0])
    &&& is_letter(s[s.len() - 1]) || is_digit(s[s.len() - 1])
    &&& forall|i: int| 0 <= i < s.len() ==> is_label_char(#[trigger] s[i])
}

/// The texts that parse as a label: the empty text, or accepted text of at
/// most 63 characters.
pub open spec fn spec_label_ok(s: Seq<char>) -> bool {
    s.len() <= 63 && (s.len() == 0 || label_text_accepted(s))
}

/// The error reported for a rejected label text.
pub open spec fn spec_label_err(s: Seq<char>) -> LabelFromStrErr {
    if s.len() > 63 {
        LabelFromStrErr::LenLimit
    } else {
        LabelFromStrErr::InvalidChar
    }
}

/// Every stored label is lowercase and within the preferred syntax: the
/// empty (null) label, or lowercase letters, digits and hyphens, starting
/// with a letter, ending with a letter or a digit, at most 63 octets.
pub open spec fn label_wf(s: Seq<char>) -> bool {
    s.len() > 0 ==> {
        &&& s.len() <= 63
        &&& is_lower_letter(s[0])
        &&& is_lower_letter(s[s.len() - 1]) || is_digit(s[s.len() - 1])
        &&& forall|i: int|
            0 <= i < s.len() ==> is_lower_letter(#[trigger] s[i]) || is_digit(s[i]) || s[i] == '-'
    }
}

impl View for Label {
    type V = Seq<char>;

    closed spec fn view(&self) -> Seq<char> {
        self.0@
    }
}

impl DeepView for Label {
    type V = Seq<char>;

    open spec fn deep_view(&self) -> Seq<char> {
        self.view()
    }
}

#[derive(Debug, Clone, Copy, PartialEq, Eq, Structural)]
pub enum LabelFromStrErr {
    LenLimit,
    InvalidChar,
}

impl Label {
    /// Every label value in the library satisfies this well-formedness.
    #[verifier::type_invariant]
    pub open spec fn wf(&self) -> bool {
        label_wf(self@)
    }

    /// One label is reserved, and that is the null (i.e., zero length) label
    /// used for the root.
    pub fn null() -> (r: Label)
        ensures
            r@ == Seq::<char>::empty(),
    {
        Label(String::new())
    }

    /// Check if it's the null (i.e., zero length) label used for the root.
    pub fn is_null(&self) -> (r: bool)
        ensures
            r == (self@.len() == 0),
    {
        self.0.as_str().is_empty()
    }

    /// The length of the label; "example" has a length of 7.
    pub fn len(&self) -> (r: usize)
        ensures
            r == self@.len(),
    {
        self.0.as_str().unicode_len()
    }

    pub fn as_str(&self) -> (r: &str)
        ensures
            r@ == self@,
    {
        self.0.as_str()
    }

    pub fn to_string(&self) -> (r: String)
        ensures
            r@ == self@,
    {
        self.0.clone()
    }

    /// Parses the RFC 1035 preferred syntax
    /// `<label> ::= <letter> [ [ <ldh-str> ] <let-dig> ]`, folding the result
    /// to lowercase; the empty text yields the null label.
    pub fn parse_label(s: &str) -> (r: Result<Label, LabelFromStrErr>)
        ensures
            spec_label_ok(s@) ==> (r matches Ok(l) && l@ == lower_chars(s@)),
            !spec_label_ok(s@) ==> r == Err::<Label, LabelFromStrErr>(spec_label_err(s@)),
    {
        let chars = str_to_chars(s);
        Label::parse_label_chars(&chars)
    }

    /// As `parse_label`, over the characters of the text.
    pub fn parse_label_chars(s: &Vec<char>) -> (r: Result<Label, LabelFromStrErr>)
        ensures
            spec_label_ok(s@) ==> (r matches Ok(l) && l@ == lower_chars(s@)),
            !spec_label_ok(s@) ==> r == Err::<Label, LabelFromStrErr>(spec_label_err(s@)),
    {
        let n = s.len();
        if n > MAX_LABEL_LEN {
            return Err(LabelFromStrErr::LenLimit);
        }
        if n == 0 {
            proof {
                assert(lower_chars(s@) =~= Seq::<char>::empty());
            }
            return Ok(Label::null());
        }
        let first = s[0];
        if !exec_is_letter(first) {
            return Err(LabelFromStrErr::InvalidChar);
        }
        let last = s[n - 1];
        if !(exec_is_letter(last) || exec_is_digit(last)) {
            return Err(LabelFromStrErr::InvalidChar);
        }
        let mut i: usize = 0;
        while i < n
            invariant
                i <= n,
                n == s@.len() <= 63,
                forall|j: int| 0 <= j < i ==> is_label_char(#[trigger] s@[j]),
            decreases n - i,
        {
            let c = s[i];
            if !(exec_is_letter(c) || exec_is_digit(c) || c == '-') {
                return Err(LabelFromStrErr::InvalidChar);
            }
            i = i + 1;
        }
        let mut lowered: Vec<char> = Vec::new();
        let mut i: usize = 0;
        while i < n
            invariant
                i <= n,
                n == s@.len() <= 63,
                label_text_accepted(s@),
                lowered@ =~= lower_chars(s@).take(i as int),
            decreases n - i,
        {
            let c = s[i];
            proof {
                assert(is_label_char(s@[i as int]));
            }
            let lc: char = if 'A' <= c && c <= 'Z' {
                (((c as u8) + 32) as char)
            } else {
                c
            };
            lowered.push(lc);
            proof {
                assert(lowered@ =~= lower_chars(s@).take(i + 1));
            }
            i = i + 1;
        }
        proof {
            assert(lowered@ =~= lower_chars(s@));
            lemma_lower_accepted_wf(s@);
        }
        Ok(Label(string_from_chars(lowered)))
    }
}

/// Lowercasing text in the accepted syntax gives a well-formed label.
proof fn lemma_lower_accepted_wf(s: Seq<char>)
    requires
        label_text_accepted(s),
        s.len() <= 63,
    ensures
        label_wf(lower_chars(s)),
{
    let l = lower_chars(s);
    assert forall|i: int| 0 <= i < l.len() implies is_lower_letter(#[trigger] l[i]) || is_digit(
        l[i],
    ) || l[i] == '-' by {
        assert(is_label_char(s[i]));
    }
}

fn exec_is_letter(c: char) -> (r: bool)
    ensures
        r == is_letter(c),
{
    ('a' <= c && c <= 'z') || ('A' <= c && c <= 'Z')
}

fn exec_is_digit(c: char) -> (r: bool)
    ensures
        r == is_digit(c),
{
    '0' <= c && c <= '9'
}

impl core::str::FromStr for Label {
    type Err = LabelFromStrErr;

    fn from_str(s: &str) -> Result<Label, LabelFromStrErr> {
        Label::parse_label(s)
    }
}

impl Clone for Label {
    fn clone(&self) -> (r: Label)
        ensures
            r@ == self@,
    {
        proof {
            use_type_invariant(self);
        }
        Label(self.0.clone())
    }
}

impl PartialEq for Label {
    fn eq(&self, other: &Label) -> bool {
        self.0 == other.0
    }
}

impl Eq for Label {

}

impl vstd::std_specs::cmp::PartialEqSpecImpl for Label {
    open spec fn obeys_eq_spec() -> bool {
        true
    }

    open spec fn eq_spec(&self, other: &Label) -> bool {
        self@ == other@
    }
}

} // verus!
