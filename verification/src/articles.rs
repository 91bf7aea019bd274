//! The articles store's data model and the exact texts the store layer
//! sends and shows: the lookup query for one article and the message when
//! none is found. The database round trip itself lives with the binary.

use vstd::prelude::*;
use vstd::string::StringExecFns;
use crate::envelope::{dec_of, render_usize};

verus! {

/// One article as the store holds it.
pub struct Article {
    pub title: String,
    pub content: String,
    pub published_date: String,
}

/// The lookup query for the article with this identifier.
pub open spec fn article_query_of(id: nat) -> Seq<char> {
    "SELECT title, content, published_date FROM articles WHERE id = "@ + dec_of(id)
}

/// The message shown when no article carries this identifier.
pub open spec fn not_found_message_of(id: nat) -> Seq<char> {
    "Article with id "@ + dec_of(id) + " not found"@
}

/// The lookup query, rendered.
pub fn article_query(id: usize) -> (s: String)
    ensures
        s@ == article_query_of(id as nat),
{
    let mut s = String::from_str("SELECT title, content, published_date FROM articles WHERE id = ");
    s.append(render_usize(id).as_str());
    s
}

/// The not-found message, rendered.
pub fn not_found_message(id: usize) -> (s: String)
    ensures
        s@ == not_found_message_of(id as nat),
{
    let mut s = String::from_str("Article with id ");
    s.append(render_usize(id).as_str());
    s.append(" not found");
    proof {
        assert(s@ =~= not_found_message_of(id as nat));
    }
    s
}

} // verus!
