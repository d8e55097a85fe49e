use vstd::prelude::*;
use crate::document::{assemble_document, is_save_outcome, Document, MapRoot, SaveError};

verus! {

/// A request to save the map to the location it names.
pub struct SaveMap(pub String);

/// The pending save request: a single slot that a newer request overwrites,
/// inspected once per save pass.
pub struct SaveRequests {
    pub pending: Option<SaveMap>,
}

/// What a save pass hands to the persistence sink: the target location and
/// the assembled document, or why nothing may be written.
pub struct SaveOutcome<V, L, Me, W, Mo, X, C> {
    pub path: String,
    pub document: Result<Document<V, L, Me, W, Mo, X, C>, SaveError>,
}

impl SaveRequests {
    /// The slot after `request` was issued.
    pub open spec fn sent(self, request: SaveMap) -> SaveRequests {
        SaveRequests { pending: Some(request) }
    }

    pub fn new() -> (r: SaveRequests)
        ensures
            r.pending is None,
    {
        SaveRequests { pending: None }
    }

    /// Issues a save request; one still pending is discarded.
    pub fn send(&mut self, request: SaveMap)
        ensures
            *final(self) == old(self).sent(request),
    {
        self.pending = Some(request);
    }

    /// Takes the pending request, leaving the slot empty.
    pub fn take(&mut self) -> (r: Option<SaveMap>)
        ensures
            r == old(self).pending,
            final(self).pending is None,
    {
        self.pending.take()
    }
}

/// Of two requests issued before a pass runs, the pass serves the second.
pub proof fn lemma_last_request_wins(s: SaveRequests, first: SaveMap, second: SaveMap)
    ensures
        s.sent(first).sent(second).pending == Some(second),
{
}

/// One save pass: when a request is pending, assembles the document from the
/// scene's map roots for its location, and empties the slot.
pub fn save<V, L, Me, W, Mo, X, C>(
    requests: &mut SaveRequests,
    roots: Vec<MapRoot<V, L, Me, W, Mo, X, C>>,
) -> (r: Option<SaveOutcome<V, L, Me, W, Mo, X, C>>)
    ensures
        final(requests).pending is None,
        match old(requests).pending {
            None => r is None,
            Some(request) => r is Some && (r->0).path == request.0 && is_save_outcome(
                roots@,
                (r->0).document,
            ),
        },
{
    let path = match requests.take() {
        Some(SaveMap(path)) => path,
        None => {
            return None;
        },
    };
    let document = assemble_document(roots);
    Some(SaveOutcome { path, document })
}

} // verus!
