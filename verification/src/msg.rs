//! Message and participant types.
//!
//! Timestamps are UTC instants with millisecond precision, carried as
//! milliseconds since the Unix epoch.

use vstd::prelude::*;

verus! {

/// One normalized chat message.
#[derive(Debug, Clone)]
pub struct Message {
    pub content: String,
    pub author: String,
    pub timestamp: i64,
}

/// A message tagged with the identity of the conversation it came from, for
/// formatting a stream merged from several conversations.
pub struct TaggedMessage {
    pub content: String,
    pub author: String,
    pub timestamp: i64,
    pub conversation_id: usize,
}

impl TaggedMessage {
    /// Tags a message with a conversation identity.
    pub fn new(m: &Message, conversation_id: usize) -> (t: TaggedMessage)
        ensures
            t.content@ == m.content@,
            t.author@ == m.author@,
            t.timestamp == m.timestamp,
            t.conversation_id == conversation_id,
    {
        TaggedMessage {
            content: m.content.clone(),
            author: m.author.clone(),
            timestamp: m.timestamp,
            conversation_id: conversation_id,
        }
    }
}

/// One participant of a conversation.
#[derive(Debug, Clone, PartialEq)]
pub struct Participant {
    pub name: String,
}

/// The participant names of a list, in order.
pub open spec fn spec_participant_names(ps: Seq<Participant>) -> Seq<Seq<char>> {
    ps.map_values(|p: Participant| p.name@)
}

/// Whether two participant lists agree, name for name. A conversation's
/// source files must agree on the participant list; a mismatch signals a
/// corrupted or misattributed archive.
pub fn participants_equal(a: &Vec<Participant>, b: &Vec<Participant>) -> (r: bool)
    ensures
        r == (spec_participant_names(a@) == spec_participant_names(b@)),
{
    let ghost an = spec_participant_names(a@);
    let ghost bn = spec_participant_names(b@);
    if a.len() != b.len() {
        proof {
            assert(an.len() != bn.len());
        }
        return false;
    }
    let mut i: usize = 0;
    while i < a.len()
        invariant
            a@.len() == b@.len(),
            0 <= i <= a@.len(),
            an == spec_participant_names(a@),
            bn == spec_participant_names(b@),
            forall|j: int| 0 <= j < i ==> an[j] == bn[j],
        decreases a@.len() - i,
    {
        if !(a[i].name == b[i].name) {
            proof {
                assert(an[i as int] != bn[i as int]);
            }
            return false;
        }
        i = i + 1;
    }
    proof {
        assert(an =~= bn);
    }
    true
}

} // verus!
