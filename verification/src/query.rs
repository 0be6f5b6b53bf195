//! The search queries sent to the ticket service, and the parsing of a
//! user-given date range.

use vstd::prelude::*;

use crate::textsearch::{find_from, first_at, lemma_first_at, trim, trim_substring};

verus! {

/// The query that selects the tickets of one sprint, newest first.
pub fn jql_for_sprint(sprint: &str) -> (r: String)
    ensures
        r@ == "\"cf[10010]\"="@ + sprint@ + " ORDER BY created DESC"@,
{
    let mut s = String::new();
    s.append("\"cf[10010]\"=");
    s.append(sprint);
    s.append(" ORDER BY created DESC");
    proof {
        assert(s@ =~= "\"cf[10010]\"="@ + sprint@ + " ORDER BY created DESC"@);
    }
    s
}

/// The query that selects a project's tickets done within a date
/// range, newest first.
pub fn jql_for_date_range(project: &str, start_date: &str, end_date: &str) -> (r: String)
    ensures
        r@ == "project = \""@ + project@ + "\" AND status CHANGED TO \"Done\" DURING (\""@
            + start_date@ + "\", \""@ + end_date@ + "\") ORDER BY created DESC"@,
{
    let mut s = String::new();
    s.append("project = \"");
    s.append(project);
    s.append("\" AND status CHANGED TO \"Done\" DURING (\"");
    s.append(start_date);
    s.append("\", \"");
    s.append(end_date);
    s.append("\") ORDER BY created DESC");
    proof {
        assert(s@ =~= "project = \""@ + project@
            + "\" AND status CHANGED TO \"Done\" DURING (\""@ + start_date@ + "\", \""@
            + end_date@ + "\") ORDER BY created DESC"@);
    }
    s
}

/// Split a `start,end` date range at its comma and trim both halves.
/// Succeeds exactly when the text holds exactly one comma.
pub fn parse_date_range(text: &str) -> (r: Option<(String, String)>)
    ensures
        match r {
            Some(p) => first_at(text@, ","@, 0) matches Some(i) && first_at(text@, ","@, i + 1)
                is None && p.0@ == trim(text@.subrange(0, i)) && p.1@ == trim(
                text@.subrange(i + 1, text@.len() as int),
            ),
            None => first_at(text@, ","@, 0) is None || (first_at(text@, ","@, 0) matches Some(i)
                && first_at(text@, ","@, i + 1) is Some),
        },
{
    let n = text.unicode_len();
    let comma = ",";
    proof {
        reveal_strlit(",");
    }
    match find_from(text, 0, comma) {
        None => None,
        Some(i) => {
            proof {
                lemma_first_at(text@, comma@, 0);
            }
            match find_from(text, i + 1, comma) {
                Some(_) => None,
                None => {
                    let start_part = trim_substring(text, 0, i);
                    let end_part = trim_substring(text, i + 1, n);
                    Some((start_part, end_part))
                },
            }
        },
    }
}

} // verus!
