//! The records of the persistent store collaborator, held as plain values:
//! identifiers as strings, timestamps as microseconds. The store itself is
//! outside this library; the one piece of logic it needs — merging a
//! partial update into an existing conversation — is verified here.

use vstd::prelude::*;

verus! {

/// A conversation row.
pub struct Conversation {
    pub id: String,
    pub user_id: String,
    pub model_id: i32,
    pub title: String,
    pub created_at: i64,
    pub updated_at: i64,
}

/// What a caller supplies to create a conversation.
pub struct NewConversation {
    pub user_id: String,
    pub model_id: i32,
    pub title: String,
}

/// A partial conversation update: absent fields keep their current value.
pub struct UpdateConversation {
    pub title: Option<String>,
    pub model_id: Option<i32>,
}

/// A message row.
pub struct Message {
    pub id: i32,
    pub conversation_id: String,
    pub sender: String,
    pub message: String,
    pub date: i64,
}

/// What a caller supplies to create a message.
pub struct NewMessage {
    pub conversation_id: String,
    pub sender: String,
    pub message: String,
}

impl Conversation {
    /// The merged row an update produces: supplied fields replace, absent
    /// fields stay, the update timestamp moves to now, and everything else
    /// is untouched.
    pub fn apply_update(&self, upd: &UpdateConversation, now: i64) -> (r: Conversation)
        ensures
            r.id@ == self.id@,
            r.user_id@ == self.user_id@,
            r.created_at == self.created_at,
            r.updated_at == now,
            match upd.title {
                Some(t) => r.title@ == t@,
                None => r.title@ == self.title@,
            },
            match upd.model_id {
                Some(m) => r.model_id == m,
                None => r.model_id == self.model_id,
            },
    {
        Conversation {
            id: self.id.clone(),
            user_id: self.user_id.clone(),
            model_id: match upd.model_id {
                Some(m) => m,
                None => self.model_id,
            },
            title: match &upd.title {
                Some(t) => t.clone(),
                None => self.title.clone(),
            },
            created_at: self.created_at,
            updated_at: now,
        }
    }
}

} // verus!
