use vstd::prelude::*;
use crate::event::{first_index, lemma_first_index_bounds, lemma_first_index_step, lemma_first_index_end};

verus! {

/// Failures of the approval-request subsystem.
#[derive(Clone, Debug, PartialEq, Eq)]
pub enum Error {
    UnknownDatabaseError(String),
    RequestNotFound,
    RequestAlreadyCompleted,
    SelfApprovalNotAllowed,
    InvalidApprover,
}

/// A user's request for an administrative command, and its decision once taken.
#[derive(Debug)]
pub struct Request {
    pub request_id: u128,
    pub requester_id: u128,
    pub requested_command: String,
    pub justification: String,
    pub approved: Option<bool>,
    pub approver_id: Option<u128>,
}

pub open spec fn is_request(id: u128) -> spec_fn(Request) -> bool {
    |r: Request| r.request_id == id
}

/// The approval requests.
pub struct RequestBook {
    pub requests: Vec<Request>,
}

impl RequestBook {
    pub open spec fn request_at(self, id: u128) -> Option<int> {
        first_index(self.requests@, is_request(id))
    }

    pub fn new() -> (r: RequestBook)
        ensures
            r.requests@.len() == 0,
    {
        RequestBook { requests: Vec::new() }
    }

    fn request_index(&self, id: u128) -> (r: Option<usize>)
        ensures
            r matches Some(i) ==> self.request_at(id) == Some(i as int) && i < self.requests@.len(),
            r is None ==> self.request_at(id) is None,
    {
        let mut i: usize = 0;
        while i < self.requests.len()
            invariant
                i <= self.requests@.len(),
                first_index(self.requests@.subrange(0, i as int), is_request(id)) is None,
            decreases self.requests@.len() - i,
        {
            proof { lemma_first_index_step(self.requests@, is_request(id), i as int); }
            if self.requests[i].request_id == id {
                return Some(i);
            }
            i = i + 1;
        }
        proof { lemma_first_index_end(self.requests@, is_request(id)); }
        None
    }

    /// Files a new, undecided request under the identity `id`.
    pub fn create_request(&mut self, id: u128, requester_id: u128, requested_command: String, justification: String)
        ensures
            final(self).requests@ == old(self).requests@.push(Request {
                request_id: id,
                requester_id,
                requested_command,
                justification,
                approved: None,
                approver_id: None,
            }),
    {
        self.requests.push(Request {
            request_id: id,
            requester_id,
            requested_command,
            justification,
            approved: None,
            approver_id: None,
        });
    }

    /// Approves or rejects request `id` on behalf of `approver_id`, who may not be its
    /// requester; a request is decided once.
    pub fn complete_request(&mut self, id: u128, approver_id: u128, approved: bool) -> (r: Result<(), Error>)
        ensures
            match old(self).request_at(id) {
                None => r == Err::<(), Error>(Error::RequestNotFound),
                Some(i) => if old(self).requests@[i].requester_id == approver_id {
                    r == Err::<(), Error>(Error::SelfApprovalNotAllowed)
                } else if old(self).requests@[i].approved is Some {
                    r == Err::<(), Error>(Error::RequestAlreadyCompleted)
                } else {
                    r is Ok && final(self).requests@.len() == old(self).requests@.len()
                        && final(self).requests@[i].approved == Some(approved)
                        && final(self).requests@[i].approver_id == Some(approver_id)
                        && final(self).requests@[i].requester_id == old(self).requests@[i].requester_id
                        && final(self).requests@[i].request_id == id
                        && forall|j: int| 0 <= j < old(self).requests@.len() && j != i
                            ==> final(self).requests@[j] == old(self).requests@[j]
                },
            },
            r is Err ==> final(self).requests@ == old(self).requests@,
    {
        let i = match self.request_index(id) {
            Some(i) => i,
            None => return Err(Error::RequestNotFound),
        };
        if self.requests[i].requester_id == approver_id {
            return Err(Error::SelfApprovalNotAllowed);
        }
        if self.requests[i].approved.is_some() {
            return Err(Error::RequestAlreadyCompleted);
        }
        let ghost before = self.requests@;
        let mut decided = self.requests.remove(i);
        decided.approved = Some(approved);
        decided.approver_id = Some(approver_id);
        self.requests.insert(i, decided);
        proof {
            lemma_first_index_bounds(before, is_request(id));
            assert(self.requests@ =~= before.update(i as int, decided));
        }
        Ok(())
    }
}

} // verus!
