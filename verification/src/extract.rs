//! Extraction of the "business value" section from flattened ticket
//! text: the span between the first "Business value" label and the
//! first "Customer value" label after it, trimmed, with the
//! two-character placeholder `<>` standing for "nothing filled in".
//!
//! This is a best-effort heuristic over plain text: a label occurring
//! inside unrelated prose is picked up like any other occurrence.

use vstd::prelude::*;

use crate::doc::{flatten, flatten_doc, max_depth, DocError, RichNode, MAX_DEPTH};
use crate::textsearch::{
    contains_seq, find_from, first_at, lemma_first_at, match_at, trim, trim_substring,
};

verus! {

/// The outcome of extraction: the trimmed content between the labels,
/// or nothing — no label pair, or only the placeholder.
#[derive(Debug, PartialEq, Eq)]
pub enum BusinessValueResult {
    Found(String),
    NotFound,
}

/// The opening label.
pub open spec fn bv_label() -> Seq<char> {
    "Business value"@
}

/// The closing label.
pub open spec fn cv_label() -> Seq<char> {
    "Customer value"@
}

/// The placeholder authors leave in an unfilled field.
pub open spec fn placeholder() -> Seq<char> {
    "<>"@
}

/// What extraction yields on `t`: the span between the first opening
/// label and the first closing label after it, trimmed of white space;
/// nothing when a label is missing or the span holds the placeholder.
pub open spec fn extract_spec(t: Seq<char>) -> Option<Seq<char>> {
    match first_at(t, bv_label(), 0) {
        Option::None => Option::None,
        Option::Some(b) => match first_at(t, cv_label(), b + bv_label().len()) {
            Option::None => Option::None,
            Option::Some(c) => {
                let content = trim(t.subrange(b + bv_label().len(), c));
                if contains_seq(content, placeholder()) {
                    Option::None
                } else {
                    Option::Some(content)
                }
            },
        },
    }
}

/// Text without the opening label yields nothing.
pub proof fn lemma_no_label(t: Seq<char>)
    requires
        !contains_seq(t, bv_label()),
    ensures
        extract_spec(t) is None,
{
}

/// When the trimmed span between the labels holds the placeholder
/// `<>` anywhere, extraction treats the field as unfilled.
pub proof fn lemma_placeholder(t: Seq<char>, b: int, c: int)
    requires
        first_at(t, bv_label(), 0) == Some(b),
        first_at(t, cv_label(), b + bv_label().len()) == Some(c),
        contains_seq(trim(t.subrange(b + bv_label().len(), c)), placeholder()),
    ensures
        extract_spec(t) is None,
{
}

/// The bounding is not greedy: the captured span ends at the first
/// closing label after the opening one, so no closing label stands
/// inside the raw span, and a second label pair further on is ignored.
pub proof fn lemma_non_greedy(t: Seq<char>, b: int, c: int)
    requires
        first_at(t, bv_label(), 0) == Some(b),
        first_at(t, cv_label(), b + bv_label().len()) == Some(c),
    ensures
        forall|j: int| b + bv_label().len() <= j < c ==> !match_at(t, cv_label(), j),
        !contains_seq(trim(t.subrange(b + bv_label().len(), c)), placeholder())
            ==> extract_spec(t) == Some(trim(t.subrange(b + bv_label().len(), c))),
{
    lemma_first_at(t, bv_label(), 0);
    lemma_first_at(t, cv_label(), b + bv_label().len());
}

/// Extract the business value section from flattened text, as
/// `extract_spec` gives it.
pub fn extract_business_value(text: &str) -> (r: BusinessValueResult)
    ensures
        match r {
            BusinessValueResult::Found(s) => extract_spec(text@) == Some(s@),
            BusinessValueResult::NotFound => extract_spec(text@) is None,
        },
{
    let _text_len = text.unicode_len();
    let bv = "Business value";
    let cv = "Customer value";
    let ph = "<>";
    proof {
        reveal_strlit("Business value");
        reveal_strlit("Customer value");
        reveal_strlit("<>");
    }
    let b = match find_from(text, 0, bv) {
        Some(i) => i,
        None => {
            return BusinessValueResult::NotFound;
        },
    };
    proof {
        lemma_first_at(text@, bv@, 0);
    }
    let e = b + bv.unicode_len();
    let c = match find_from(text, e, cv) {
        Some(i) => i,
        None => {
            return BusinessValueResult::NotFound;
        },
    };
    proof {
        lemma_first_at(text@, cv@, e as int);
    }
    let content = trim_substring(text, e, c);
    match find_from(content.as_str(), 0, ph) {
        Some(_) => BusinessValueResult::NotFound,
        None => BusinessValueResult::Found(content),
    }
}

/// The string a table shows for a result: the content itself, or the
/// fixed sentinel text when nothing was found.
pub fn business_value_display(r: &BusinessValueResult) -> (s: String)
    ensures
        match *r {
            BusinessValueResult::Found(c) => s@ == c@,
            BusinessValueResult::NotFound => s@ == "No content found"@,
        },
{
    match r {
        BusinessValueResult::Found(c) => c.clone(),
        BusinessValueResult::NotFound => "No content found".to_owned(),
    }
}

/// Flatten one ticket's description tree and extract its business
/// value. Fails exactly when the tree is deeper than `MAX_DEPTH`; the
/// caller skips such a ticket and goes on with the rest.
pub fn business_value_of_document(nodes: &Vec<RichNode>) -> (r: Result<
    BusinessValueResult,
    DocError,
>)
    ensures
        r is Ok <==> max_depth(nodes@) <= MAX_DEPTH,
        r matches Ok(bv) ==> match bv {
            BusinessValueResult::Found(s) => extract_spec(flatten_doc(nodes@)) == Some(s@),
            BusinessValueResult::NotFound => extract_spec(flatten_doc(nodes@)) is None,
        },
        r matches Err(e) ==> e == DocError::MalformedDocument,
{
    match flatten(nodes) {
        Ok(s) => Ok(extract_business_value(s.as_str())),
        Err(e) => Err(e),
    }
}

} // verus!
