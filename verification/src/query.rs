//! A question for the tool, and what the tool is started with.

use vstd::prelude::*;
use vstd::string::*;

verus! {

/// The environment variable that names the model.
pub const MODEL_VARIABLE: &'static str = "AI_MODEL";

/// The environment variable that gives the number of pages to consult.
pub const PAGES_VARIABLE: &'static str = "WIKI_PAGES";

/// The model that a request without one is answered with.
pub const DEFAULT_MODEL: &'static str = "llama3";

/// The number of pages that a request without one is answered from.
pub const DEFAULT_PAGE_COUNT: &'static str = "1";

/// One question, with the model to ask and the number of pages to consult.
/// The page count is handed to the tool as it came: the tool judges it.
#[derive(Debug, PartialEq, Eq)]
pub struct Query {
    pub question: String,
    pub model: String,
    pub page_count: String,
}

/// A `Query` as plain sequences of characters.
pub struct QueryView {
    pub question: Seq<char>,
    pub model: Seq<char>,
    pub page_count: Seq<char>,
}

impl View for Query {
    type V = QueryView;

    open spec fn view(&self) -> QueryView {
        QueryView { question: self.question@, model: self.model@, page_count: self.page_count@ }
    }
}

/// The value of a form field, or `fallback` where the field is absent.
pub open spec fn field_or(field: Option<Seq<char>>, fallback: Seq<char>) -> Seq<char> {
    match field {
        Some(value) => value,
        None => fallback,
    }
}

/// The query that a submitted form stands for: an absent question is the
/// empty question, an absent model is `DEFAULT_MODEL`, an absent page count is
/// `DEFAULT_PAGE_COUNT`.
pub open spec fn form_query(
    question: Option<Seq<char>>,
    model: Option<Seq<char>>,
    page_count: Option<Seq<char>>,
) -> QueryView {
    QueryView {
        question: field_or(question, Seq::empty()),
        model: field_or(model, DEFAULT_MODEL@),
        page_count: field_or(page_count, DEFAULT_PAGE_COUNT@),
    }
}

/// The view of an optional string.
pub open spec fn text_of(field: Option<&str>) -> Option<Seq<char>> {
    match field {
        Some(value) => Some(value@),
        None => None,
    }
}

/// What the tool reads on its standard input for `question`: the question and
/// a line end.
pub open spec fn stdin_for(question: Seq<char>) -> Seq<char> {
    question.push('\n')
}

fn owned_or(field: Option<&str>, fallback: &str) -> (value: String)
    ensures
        value@ == field_or(text_of(field), fallback@),
{
    match field {
        Some(value) => value.to_owned(),
        None => fallback.to_owned(),
    }
}

impl Query {
    /// A query with all three parts given.
    pub fn new(question: &str, model: &str, page_count: &str) -> (query: Query)
        ensures
            query@ == (QueryView { question: question@, model: model@, page_count: page_count@ }),
    {
        Query {
            question: question.to_owned(),
            model: model.to_owned(),
            page_count: page_count.to_owned(),
        }
    }

    /// The query that a submitted form stands for, with the defaults in
    /// place of absent fields.
    pub fn from_form(question: Option<&str>, model: Option<&str>, page_count: Option<&str>) -> (query:
        Query)
        ensures
            query@ == form_query(text_of(question), text_of(model), text_of(page_count)),
    {
        let query = Query {
            question: owned_or(question, ""),
            model: owned_or(model, DEFAULT_MODEL),
            page_count: owned_or(page_count, DEFAULT_PAGE_COUNT),
        };
        proof {
            reveal_strlit("");
            assert(""@ =~= Seq::<char>::empty());
        }
        query
    }

    /// The environment variables that the tool is started with, each with its
    /// value: the model, then the page count.
    pub fn environment(&self) -> (variables: Vec<(String, String)>)
        ensures
            variables@.len() == 2,
            variables@[0].0@ == MODEL_VARIABLE@,
            variables@[0].1@ == self.model@,
            variables@[1].0@ == PAGES_VARIABLE@,
            variables@[1].1@ == self.page_count@,
    {
        let mut variables: Vec<(String, String)> = Vec::new();
        variables.push((MODEL_VARIABLE.to_owned(), self.model.clone()));
        variables.push((PAGES_VARIABLE.to_owned(), self.page_count.clone()));
        variables
    }

    /// What is written to the tool's standard input before it is closed.
    pub fn stdin_text(&self) -> (text: String)
        ensures
            text@ == stdin_for(self.question@),
    {
        let mut text = self.question.clone();
        text.append("\n");
        proof {
            reveal_strlit("\n");
            assert(text@ =~= stdin_for(self.question@));
        }
        text
    }
}

} // verus!
