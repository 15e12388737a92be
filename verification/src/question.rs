use vstd::prelude::*;

use crate::ascii::{split_spaces, split_spaces_exec, str_to_chars, string_from_chars};
use crate::class::Class;
use crate::name::{spec_parse_name, FromStrErr, Name};
use crate::query_class::{spec_query_class_matches, QueryClass};
use crate::query_type::{spec_query_type_from_text, spec_query_type_matches, QueryType};
use crate::data::spec_data_record_type;
use crate::record::{Record, SpecRecord};
use crate::record_type::RecordTypeFromStrErr;

verus! {

/// The parameters that define what is being asked.
#[derive(Debug)]
pub struct Question {
    name: Name,
    query_type: QueryType,
    query_class: QueryClass,
}

/// The mathematical model of a question.
pub struct SpecQuestion {
    pub name: Seq<Seq<char>>,
    pub query_type: QueryType,
    pub query_class: QueryClass,
}

impl View for Question {
    type V = SpecQuestion;

    closed spec fn view(&self) -> SpecQuestion {
        SpecQuestion {
            name: self.name@,
            query_type: self.query_type,
            query_class: self.query_class,
        }
    }
}

impl DeepView for Question {
    type V = SpecQuestion;

    open spec fn deep_view(&self) -> SpecQuestion {
        self.view()
    }
}

#[derive(Debug, Clone, Copy, PartialEq, Eq, Structural)]
pub enum QuestionFromStrErr {
    Invalid,
    NameFromStrErr(FromStrErr),
    QueryTypeFromStrErr(RecordTypeFromStrErr),
    QueryClassFromStrErr,
}

/// A question matches a record iff the names are equal and both the query
/// type and the query class match.
pub open spec fn spec_question_matches(q: SpecQuestion, r: SpecRecord) -> bool {
    &&& q.name == r.name
    &&& spec_query_type_matches(q.query_type, spec_data_record_type(r.data))
    &&& spec_query_class_matches(q.query_class, r.class)
}

/// What parsing "name class type" yields; later words are ignored.
pub open spec fn spec_parse_question(s: Seq<char>) -> Result<SpecQuestion, QuestionFromStrErr> {
    let ws = split_spaces(s);
    if ws.len() == 0 {
        Err(QuestionFromStrErr::Invalid)
    } else {
        match spec_parse_name(ws[0]) {
            Err(e) => Err(QuestionFromStrErr::NameFromStrErr(e)),
            Ok(nm) => if ws.len() < 2 {
                Err(QuestionFromStrErr::Invalid)
            } else {
                let qc = if ws[1] == seq!['*'] {
                    Some(QueryClass::Any)
                } else if ws[1] == seq!['I', 'N'] {
                    Some(QueryClass::Class(Class::In))
                } else {
                    None
                };
                match qc {
                    None => Err(QuestionFromStrErr::QueryClassFromStrErr),
                    Some(query_class) => if ws.len() < 3 {
                        Err(QuestionFromStrErr::Invalid)
                    } else {
                        match spec_query_type_from_text(ws[2]) {
                            None => Err(
                                QuestionFromStrErr::QueryTypeFromStrErr(
                                    RecordTypeFromStrErr::Invalid,
                                ),
                            ),
                            Some(query_type) => Ok(
                                SpecQuestion { name: nm, query_type, query_class },
                            ),
                        }
                    },
                }
            },
        }
    }
}

impl Question {
    pub fn new(name: Name, query_type: QueryType, query_class: QueryClass) -> (r: Question)
        ensures
            r@.name == name@,
            r@.query_type == query_type,
            r@.query_class == query_class,
    {
        Question { name, query_type, query_class }
    }

    pub fn name(&self) -> (r: &Name)
        ensures
            r@ == self@.name,
    {
        &self.name
    }

    pub fn query_type(&self) -> (r: QueryType)
        ensures
            r == self@.query_type,
    {
        self.query_type
    }

    pub fn query_class(&self) -> (r: QueryClass)
        ensures
            r == self@.query_class,
    {
        self.query_class
    }

    pub fn matches(&self, record: &Record) -> (r: bool)
        ensures
            r == spec_question_matches(self@, record@),
    {
        let ne = self.name == *record.name();
        let te = self.query_type.matches(record.record_type());
        let ce = self.query_class.matches(record.class());
        ne && te && ce
    }

    /// Parses "name class type"; later words are ignored.
    pub fn parse_question(s: &str) -> (r: Result<Question, QuestionFromStrErr>)
        ensures
            match r {
                Ok(q) => spec_parse_question(s@) == Ok::<SpecQuestion, QuestionFromStrErr>(q@),
                Err(e) => spec_parse_question(s@) == Err::<SpecQuestion, QuestionFromStrErr>(e),
            },
    {
        let chars = str_to_chars(s);
        let words = split_spaces_exec(&chars);
        if words.len() == 0 {
            return Err(QuestionFromStrErr::Invalid);
        }
        proof {
            assert(words.deep_view()[0] == words@[0]@);
        }
        let name_str = string_from_chars(crate::ascii::subrange_chars(&words[0], 0, words[0].len()));
        proof {
            assert(name_str@ =~= words.deep_view()[0]);
        }
        let name = match Name::parse_name(name_str.as_str()) {
            Err(e) => {
                return Err(QuestionFromStrErr::NameFromStrErr(e));
            },
            Ok(nm) => nm,
        };
        if words.len() < 2 {
            return Err(QuestionFromStrErr::Invalid);
        }
        proof {
            assert(words.deep_view()[1] == words@[1]@);
        }
        let class_str = string_from_chars(
            crate::ascii::subrange_chars(&words[1], 0, words[1].len()),
        );
        proof {
            assert(class_str@ =~= words.deep_view()[1]);
        }
        let query_class = match QueryClass::parse_query_class(class_str.as_str()) {
            Err(_) => {
                return Err(QuestionFromStrErr::QueryClassFromStrErr);
            },
            Ok(qc) => qc,
        };
        if words.len() < 3 {
            return Err(QuestionFromStrErr::Invalid);
        }
        proof {
            assert(words.deep_view()[2] == words@[2]@);
        }
        let type_str = string_from_chars(crate::ascii::subrange_chars(&words[2], 0, words[2].len()));
        proof {
            assert(type_str@ =~= words.deep_view()[2]);
        }
        let query_type = match QueryType::parse_query_type(type_str.as_str()) {
            Err(e) => {
                return Err(QuestionFromStrErr::QueryTypeFromStrErr(e));
            },
            Ok(qt) => qt,
        };
        Ok(Question { name, query_type, query_class })
    }
}

impl Clone for Question {
    fn clone(&self) -> (r: Question)
        ensures
            r@ == self@,
    {
        Question {
            name: self.name.clone(),
            query_type: self.query_type,
            query_class: self.query_class,
        }
    }
}

impl PartialEq for Question {
    fn eq(&self, other: &Question) -> (r: bool) {
        let ne = self.name == other.name;
        let te = self.query_type == other.query_type;
        let ce = self.query_class == other.query_class;
        ne && te && ce
    }
}

impl Eq for Question {

}

impl vstd::std_specs::cmp::PartialEqSpecImpl for Question {
    open spec fn obeys_eq_spec() -> bool {
        true
    }

    open spec fn eq_spec(&self, other: &Question) -> bool {
        self@ == other@
    }
}

/// Copies a question list.
pub fn clone_questions(v: &Vec<Question>) -> (r: Vec<Question>)
    ensures
        r.deep_view() == v.deep_view(),
{
    let n = v.len();
    let mut out: Vec<Question> = Vec::new();
    let mut i: usize = 0;
    while i < n
        invariant
            i <= n,
            n == v@.len(),
            out@.len() == i,
            forall|j: int| 0 <= j < i ==> #[trigger] out@[j]@ == v@[j]@,
        decreases n - i,
    {
        out.push(v[i].clone());
        i = i + 1;
    }
    proof {
        assert forall|j: int| 0 <= j < n implies out.deep_view()[j] == v.deep_view()[j] by {
            assert(out.deep_view()[j] == out@[j]@);
            assert(v.deep_view()[j] == v@[j]@);
        }
        assert(out.deep_view() =~~= v.deep_view());
    }
    out
}

impl core::str::FromStr for Question {
    type Err = QuestionFromStrErr;

    fn from_str(s: &str) -> Result<Question, QuestionFromStrErr> {
        Question::parse_question(s)
    }
}

} // verus!
