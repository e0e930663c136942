//! The rows of the `messages` table and what a client subscribes to.

use vstd::prelude::*;

verus! {

/// A row of the `messages` table.
pub struct Message {
    pub id: u64,
    pub content: String,
}

impl Message {
    /// The row that appending `content` inserts. Its id is 0, the
    /// placeholder the table's auto-increment replaces with a fresh one.
    pub fn to_append(content: String) -> (m: Message)
        ensures
            m.id == 0,
            m.content == content,
    {
        Message { id: 0, content }
    }
}

/// The query subscribing to the pass-through view of the table.
pub open spec fn view_query() -> Seq<char> {
    "SELECT * FROM messages_view"@
}

/// The query subscribing to the table itself.
pub open spec fn table_query() -> Seq<char> {
    "SELECT * FROM messages"@
}

/// What a client subscribes to while it measures.
pub enum SubscribeTo {
    /// The pass-through view `messages_view`.
    View,
    /// The `messages` table itself.
    Table,
    /// Nothing: the baseline latency of the reducer alone.
    Unsubscribed,
}

impl SubscribeTo {
    /// The query to subscribe with; none for `Unsubscribed`.
    pub fn query(&self) -> (q: Option<&'static str>)
        ensures
            match self {
                SubscribeTo::View => q matches Some(s) && s@ == view_query(),
                SubscribeTo::Table => q matches Some(s) && s@ == table_query(),
                SubscribeTo::Unsubscribed => q is None,
            },
    {
        match self {
            SubscribeTo::View => Some("SELECT * FROM messages_view"),
            SubscribeTo::Table => Some("SELECT * FROM messages"),
            SubscribeTo::Unsubscribed => None,
        }
    }
}

} // verus!
