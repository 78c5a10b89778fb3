//! The event as relays hand it out.

use crate::types::Timestamp;
use vstd::prelude::*;

verus! {

/// A Nostr event, with the fields of its wire format.
#[derive(Clone, Debug)]
pub struct NostrEvent {
    pub id: String,
    pub pubkey: String,
    pub created_at: u64,
    pub kind: u16,
    pub tags: Vec<Vec<String>>,
    pub content: String,
    pub sig: String,
}

impl NostrEvent {
    /// The text of the event.
    pub fn get_content(&self) -> (content: &str)
        ensures
            content@ == self.content@,
    {
        self.content.as_str()
    }

    /// The author of the event.
    pub fn get_pubkey(&self) -> (pubkey: &str)
        ensures
            pubkey@ == self.pubkey@,
    {
        self.pubkey.as_str()
    }

    /// The second at which the event was created.
    pub fn get_created_at(&self) -> (created_at: Timestamp)
        ensures
            created_at == self.created_at,
    {
        self.created_at
    }
}

} // verus!
