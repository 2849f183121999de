//! The handlers that only read, and the delete of a bundle: list the
//! inventory or the users, show one bundle, list the unfulfilled bundles with
//! their lines, delete a bundle.
use vstd::prelude::*;
use crate::outcome::Outcome;
use crate::status::Status;

verus! {

/// Which read a handler performs.
#[derive(Debug, Clone, Copy, PartialEq, Eq, Structural)]
pub enum ReadRequest {
    /// The inventory, with what unfulfilled bundles hold taken off.
    ListInventory,
    /// All users.
    ListUsers,
    /// One bundle with its lines.
    GetBundle { bundle_id: i64 },
    /// The unfulfilled bundles, each with its lines.
    ListBundles,
    /// Delete one bundle, which must still be open. A bundle is open until it
    /// is fulfilled (until its record holds a fulfillment time): a bundle
    /// marked `bundled` but not yet fulfilled is still open and can be
    /// deleted, as the handlers have always allowed; a fulfilled one cannot.
    DeleteBundle { bundle_id: i64 },
}

/// What the handler must do next.
#[derive(Debug, Clone, Copy, PartialEq, Eq, Structural)]
pub enum ReadAction {
    /// Run the list query of the request.
    FetchAll,
    /// Read the record of a bundle.
    LoadRecord { bundle_id: i64 },
    /// Read the lines of a bundle.
    LoadLines { bundle_id: i64 },
    /// Read the lines of the listed bundle at position `index`.
    LoadListedLines { index: usize },
    /// Delete the record of a bundle.
    DeleteRecord { bundle_id: i64 },
    /// Answer the request.
    Respond(Status),
}

/// Where a read stands.
#[derive(Debug, Clone, Copy, PartialEq, Eq, Structural)]
pub enum ReadStage {
    Fetching,
    LoadingRecord(i64),
    LoadingLines(i64),
    /// Reading the lines of listed bundle `.0` of `.1`.
    ListingLines(usize, usize),
    /// Reading the record of the bundle to be deleted, to see whether it is open.
    CheckingDeletable(i64),
    Deleting(i64),
    Finished(Status),
}

/// The stage in which a request starts.
pub open spec fn read_start(req: ReadRequest) -> ReadStage {
    match req {
        ReadRequest::GetBundle { bundle_id } => ReadStage::LoadingRecord(bundle_id),
        ReadRequest::DeleteBundle { bundle_id } => ReadStage::CheckingDeletable(bundle_id),
        _ => ReadStage::Fetching,
    }
}

/// The action that a stage asks for.
pub open spec fn read_action(stage: ReadStage) -> ReadAction {
    match stage {
        ReadStage::Fetching => ReadAction::FetchAll,
        ReadStage::LoadingRecord(id) => ReadAction::LoadRecord { bundle_id: id },
        ReadStage::LoadingLines(id) => ReadAction::LoadLines { bundle_id: id },
        ReadStage::ListingLines(i, _) => ReadAction::LoadListedLines { index: i },
        ReadStage::CheckingDeletable(id) => ReadAction::LoadRecord { bundle_id: id },
        ReadStage::Deleting(id) => ReadAction::DeleteRecord { bundle_id: id },
        ReadStage::Finished(s) => ReadAction::Respond(s),
    }
}

/// The outcomes that the action of a stage can have.
pub open spec fn read_expects(stage: ReadStage, o: Outcome) -> bool {
    match stage {
        ReadStage::Fetching | ReadStage::LoadingLines(_) | ReadStage::ListingLines(_, _) => o is Rows
            || o is Failed,
        ReadStage::LoadingRecord(_) | ReadStage::CheckingDeletable(_) => o is Record || o is Absent
            || o is Failed,
        ReadStage::Deleting(_) => o is Affected || o is Failed,
        ReadStage::Finished(_) => false,
    }
}

/// The next stage, given the outcome `o` of the current stage's action.
pub open spec fn read_next(req: ReadRequest, stage: ReadStage, o: Outcome) -> ReadStage {
    match stage {
        ReadStage::Fetching => match o {
            Outcome::Rows(n) => if req is ListBundles && n > 0 {
                ReadStage::ListingLines(0, n)
            } else {
                ReadStage::Finished(Status::Success)
            },
            _ => ReadStage::Finished(Status::InternalServerError),
        },
        ReadStage::LoadingRecord(_) => match o {
            Outcome::Record { id, .. } => ReadStage::LoadingLines(id),
            Outcome::Absent => ReadStage::Finished(Status::NotFound),
            _ => ReadStage::Finished(Status::InternalServerError),
        },
        ReadStage::LoadingLines(_) => match o {
            Outcome::Rows(_) => ReadStage::Finished(Status::Success),
            _ => ReadStage::Finished(Status::InternalServerError),
        },
        ReadStage::ListingLines(i, n) => match o {
            Outcome::Rows(_) => if i + 1 < n {
                ReadStage::ListingLines((i + 1) as usize, n)
            } else {
                ReadStage::Finished(Status::Success)
            },
            _ => ReadStage::Finished(Status::InternalServerError),
        },
        ReadStage::CheckingDeletable(id) => match o {
            Outcome::Record { fulfilled, .. } => if fulfilled {
                ReadStage::Finished(Status::Conflict)
            } else {
                ReadStage::Deleting(id)
            },
            Outcome::Absent => ReadStage::Finished(Status::NotFound),
            _ => ReadStage::Finished(Status::InternalServerError),
        },
        ReadStage::Deleting(_) => match o {
            Outcome::Affected(n) => if n == 0 {
                ReadStage::Finished(Status::NotFound)
            } else {
                ReadStage::Finished(Status::NoContent)
            },
            _ => ReadStage::Finished(Status::InternalServerError),
        },
        ReadStage::Finished(s) => ReadStage::Finished(s),
    }
}

/// The decisions of a reading handler (and of the delete of a bundle).
pub struct ReadMachine {
    request: ReadRequest,
    stage: ReadStage,
}

impl ReadMachine {
    pub closed spec fn request(&self) -> ReadRequest {
        self.request
    }

    pub closed spec fn stage(&self) -> ReadStage {
        self.stage
    }

    /// The machine for `request`, about to make its first call.
    pub fn new(request: ReadRequest) -> (m: ReadMachine)
        ensures
            m.request() == request,
            m.stage() == read_start(request),
    {
        let stage = match request {
            ReadRequest::GetBundle { bundle_id } => ReadStage::LoadingRecord(bundle_id),
            ReadRequest::DeleteBundle { bundle_id } => ReadStage::CheckingDeletable(bundle_id),
            _ => ReadStage::Fetching,
        };
        ReadMachine { request, stage }
    }

    /// What the handler must do now.
    pub fn action(&self) -> (a: ReadAction)
        ensures
            a == read_action(self.stage()),
    {
        match self.stage {
            ReadStage::Fetching => ReadAction::FetchAll,
            ReadStage::LoadingRecord(id) => ReadAction::LoadRecord { bundle_id: id },
            ReadStage::LoadingLines(id) => ReadAction::LoadLines { bundle_id: id },
            ReadStage::ListingLines(i, _) => ReadAction::LoadListedLines { index: i },
            ReadStage::CheckingDeletable(id) => ReadAction::LoadRecord { bundle_id: id },
            ReadStage::Deleting(id) => ReadAction::DeleteRecord { bundle_id: id },
            ReadStage::Finished(s) => ReadAction::Respond(s),
        }
    }

    /// Takes the outcome of the current action and returns the next action.
    pub fn step(&mut self, o: Outcome) -> (a: ReadAction)
        requires
            read_expects(old(self).stage(), o),
        ensures
            final(self).request() == old(self).request(),
            final(self).stage() == read_next(old(self).request(), old(self).stage(), o),
            a == read_action(final(self).stage()),
    {
        let next = match self.stage {
            ReadStage::Fetching => match o {
                Outcome::Rows(n) => {
                    let listing = match self.request {
                        ReadRequest::ListBundles => true,
                        _ => false,
                    };
                    if listing && n > 0 {
                        ReadStage::ListingLines(0, n)
                    } else {
                        ReadStage::Finished(Status::Success)
                    }
                },
                _ => ReadStage::Finished(Status::InternalServerError),
            },
            ReadStage::LoadingRecord(_) => match o {
                Outcome::Record { id, .. } => ReadStage::LoadingLines(id),
                Outcome::Absent => ReadStage::Finished(Status::NotFound),
                _ => ReadStage::Finished(Status::InternalServerError),
            },
            ReadStage::LoadingLines(_) => match o {
                Outcome::Rows(_) => ReadStage::Finished(Status::Success),
                _ => ReadStage::Finished(Status::InternalServerError),
            },
            ReadStage::ListingLines(i, n) => match o {
                Outcome::Rows(_) => if i < n && i + 1 < n {
                    ReadStage::ListingLines(i + 1, n)
                } else {
                    ReadStage::Finished(Status::Success)
                },
                _ => ReadStage::Finished(Status::InternalServerError),
            },
            ReadStage::CheckingDeletable(id) => match o {
                Outcome::Record { fulfilled, .. } => if fulfilled {
                    ReadStage::Finished(Status::Conflict)
                } else {
                    ReadStage::Deleting(id)
                },
                Outcome::Absent => ReadStage::Finished(Status::NotFound),
                _ => ReadStage::Finished(Status::InternalServerError),
            },
            ReadStage::Deleting(_) => match o {
                Outcome::Affected(n) => if n == 0 {
                    ReadStage::Finished(Status::NotFound)
                } else {
                    ReadStage::Finished(Status::NoContent)
                },
                _ => ReadStage::Finished(Status::InternalServerError),
            },
            ReadStage::Finished(s) => ReadStage::Finished(s),
        };
        self.stage = next;
        self.action()
    }
}


/// The stage reached from the start of `req` through the outcomes `outcomes`.
pub open spec fn read_run(req: ReadRequest, outcomes: Seq<Outcome>) -> ReadStage
    decreases outcomes.len(),
{
    if outcomes.len() == 0 {
        read_start(req)
    } else {
        read_next(req, read_run(req, outcomes.drop_last()), outcomes.last())
    }
}

/// Every outcome answers the action that the machine had asked for.
pub open spec fn read_trace_valid(req: ReadRequest, outcomes: Seq<Outcome>) -> bool {
    forall|i: int|
        0 <= i < outcomes.len() ==> #[trigger] read_expects(
            read_run(req, outcomes.take(i)),
            outcomes[i],
        )
}

proof fn lemma_listing_unfinished(outcomes: Seq<Outcome>)
    requires
        read_trace_valid(ReadRequest::ListBundles, outcomes),
        outcomes.len() > 0,
        !(read_run(ReadRequest::ListBundles, outcomes) is Finished),
    ensures
        outcomes[0] is Rows,
        read_run(ReadRequest::ListBundles, outcomes) == ReadStage::ListingLines(
            (outcomes.len() - 1) as usize,
            outcomes[0]->Rows_0,
        ),
        outcomes.len() - 1 < outcomes[0]->Rows_0,
        forall|i: int| 0 <= i < outcomes.len() ==> #[trigger] outcomes[i] is Rows,
    decreases outcomes.len(),
{
    let req = ReadRequest::ListBundles;
    let n = outcomes.len() as int;
    let p = outcomes.drop_last();
    assert(outcomes.take(n - 1) =~= p);
    assert(read_expects(read_run(req, outcomes.take(n - 1)), outcomes[n - 1]));
    if read_run(req, p) is Finished {
        assert(read_run(req, outcomes) is Finished);
    }
    if n > 1 {
        assert forall|i: int| 0 <= i < p.len() implies #[trigger] read_expects(
            read_run(req, p.take(i)),
            p[i],
        ) by {
            assert(p.take(i) =~= outcomes.take(i));
            assert(read_expects(read_run(req, outcomes.take(i)), outcomes[i]));
        }
        lemma_listing_unfinished(p);
        assert(p[0] == outcomes[0]);
        assert forall|i: int| 0 <= i < outcomes.len() implies #[trigger] outcomes[i] is Rows by {
            if i < n - 1 {
                assert(p[i] == outcomes[i]);
            }
        }
    } else {
        assert(p =~= Seq::<Outcome>::empty());
    }
}

/// The list of unfulfilled bundles is answered OK only after the lines of
/// every listed bundle were read, one read for each bundle, in list order.
pub proof fn lemma_list_reads_every_bundle(outcomes: Seq<Outcome>)
    requires
        read_trace_valid(ReadRequest::ListBundles, outcomes),
        read_run(ReadRequest::ListBundles, outcomes) == ReadStage::Finished(Status::Success),
    ensures
        outcomes.len() > 0,
        outcomes[0] is Rows,
        outcomes.len() == 1 + outcomes[0]->Rows_0,
        forall|i: int| 0 <= i < outcomes.len() ==> #[trigger] outcomes[i] is Rows,
{
    let req = ReadRequest::ListBundles;
    let n = outcomes.len() as int;
    assert(n > 0);
    let p = outcomes.drop_last();
    assert(outcomes.take(n - 1) =~= p);
    assert(read_expects(read_run(req, outcomes.take(n - 1)), outcomes[n - 1]));
    if n > 1 {
        assert forall|i: int| 0 <= i < p.len() implies #[trigger] read_expects(
            read_run(req, p.take(i)),
            p[i],
        ) by {
            assert(p.take(i) =~= outcomes.take(i));
            assert(read_expects(read_run(req, outcomes.take(i)), outcomes[i]));
        }
        lemma_listing_unfinished(p);
        assert(p[0] == outcomes[0]);
        assert forall|i: int| 0 <= i < outcomes.len() implies #[trigger] outcomes[i] is Rows by {
            if i < n - 1 {
                assert(p[i] == outcomes[i]);
            }
        }
    } else {
        assert(p =~= Seq::<Outcome>::empty());
    }
}


/// Only open bundles are deleted: a delete answers No Content only when the
/// record it read was there and not fulfilled and the delete then removed a
/// row; a fulfilled bundle is answered with Conflict at once, before any delete.
pub proof fn lemma_delete_only_open(bundle_id: i64, outcomes: Seq<Outcome>)
    requires
        read_trace_valid(ReadRequest::DeleteBundle { bundle_id }, outcomes),
        read_run(ReadRequest::DeleteBundle { bundle_id }, outcomes) is Finished,
    ensures
        outcomes.len() > 0,
        outcomes[0] is Record && outcomes[0]->fulfilled ==> outcomes.len() == 1
            && read_run(ReadRequest::DeleteBundle { bundle_id }, outcomes) == ReadStage::Finished(
            Status::Conflict,
        ),
        read_run(ReadRequest::DeleteBundle { bundle_id }, outcomes) == ReadStage::Finished(
            Status::NoContent,
        ) ==> {
            &&& outcomes.len() == 2
            &&& outcomes[0] is Record
            &&& !outcomes[0]->fulfilled
            &&& outcomes[1] is Affected
            &&& outcomes[1]->Affected_0 > 0
        },
{
    let req = ReadRequest::DeleteBundle { bundle_id };
    assert(outcomes.len() > 0);
    assert(outcomes.take(0) =~= Seq::<Outcome>::empty());
    assert(read_expects(read_run(req, outcomes.take(0)), outcomes[0]));
    assert(outcomes.take(1).drop_last() =~= outcomes.take(0));
    let s1 = read_run(req, outcomes.take(1));
    if outcomes.len() == 1 {
        assert(outcomes.take(1) =~= outcomes);
    } else {
        assert(read_expects(read_run(req, outcomes.take(1)), outcomes[1]));
        assert(outcomes.take(2).drop_last() =~= outcomes.take(1));
        if outcomes.len() == 2 {
            assert(outcomes.take(2) =~= outcomes);
        } else {
            assert(read_expects(read_run(req, outcomes.take(2)), outcomes[2]));
        }
    }
}


proof fn lemma_read_first_steps(req: ReadRequest, outcomes: Seq<Outcome>)
    requires
        outcomes.len() > 0,
    ensures
        read_run(req, outcomes.take(0)) == read_start(req),
        read_run(req, outcomes.take(1)) == read_next(req, read_start(req), outcomes[0]),
        outcomes.len() > 1 ==> read_run(req, outcomes.take(2)) == read_next(
            req,
            read_run(req, outcomes.take(1)),
            outcomes[1],
        ),
{
    assert(outcomes.take(0) =~= Seq::<Outcome>::empty());
    assert(outcomes.take(1).drop_last() =~= outcomes.take(0));
    if outcomes.len() > 1 {
        assert(outcomes.take(2).drop_last() =~= outcomes.take(1));
    }
}

/// Listing the inventory or the users takes one query: whatever number of
/// rows it returns, none included, the request is answered OK at once, and
/// only a failed query is answered with an error (Internal Server Error).
pub proof fn lemma_plain_list_answers_at_once(req: ReadRequest, outcomes: Seq<Outcome>)
    requires
        req is ListInventory || req is ListUsers,
        read_trace_valid(req, outcomes),
        outcomes.len() > 0,
    ensures
        read_action(read_start(req)) == ReadAction::FetchAll,
        outcomes.len() == 1,
        read_run(req, outcomes) == ReadStage::Finished(
            if outcomes[0] is Rows {
                Status::Success
            } else {
                Status::InternalServerError
            },
        ),
{
    lemma_read_first_steps(req, outcomes);
    assert(read_expects(read_run(req, outcomes.take(0)), outcomes[0]));
    if outcomes.len() > 1 {
        assert(read_expects(read_run(req, outcomes.take(1)), outcomes[1]));
    }
    assert(outcomes.take(1) =~= outcomes);
}

/// Showing a bundle: the request reads the record of the bundle asked for;
/// whenever a record comes back (fulfilled or not) the lines of that record
/// are read next, and the bundle is answered OK once they come back. The
/// answer is Not Found exactly when no record was found, and Internal Server
/// Error exactly when one of the two reads failed.
pub proof fn lemma_get_bundle(bundle_id: i64, outcomes: Seq<Outcome>)
    requires
        read_trace_valid(ReadRequest::GetBundle { bundle_id }, outcomes),
        outcomes.len() > 0,
    ensures
        read_action(read_start(ReadRequest::GetBundle { bundle_id })) == (ReadAction::LoadRecord {
            bundle_id,
        }),
        outcomes[0] is Record ==> read_action(
            read_run(ReadRequest::GetBundle { bundle_id }, outcomes.take(1)),
        ) == (ReadAction::LoadLines { bundle_id: outcomes[0]->id }),
        outcomes.len() <= 2,
        read_run(ReadRequest::GetBundle { bundle_id }, outcomes) is Finished ==> {
            &&& (read_run(ReadRequest::GetBundle { bundle_id }, outcomes) == ReadStage::Finished(
                Status::NotFound,
            ) <==> outcomes[0] is Absent)
            &&& (read_run(ReadRequest::GetBundle { bundle_id }, outcomes) == ReadStage::Finished(
                Status::Success,
            ) <==> (outcomes.len() == 2 && outcomes[0] is Record && outcomes[1] is Rows))
            &&& (read_run(ReadRequest::GetBundle { bundle_id }, outcomes) == ReadStage::Finished(
                Status::InternalServerError,
            ) <==> (outcomes[0] is Failed || (outcomes.len() == 2 && outcomes[1] is Failed)))
        },
{
    let req = ReadRequest::GetBundle { bundle_id };
    lemma_read_first_steps(req, outcomes);
    assert(read_expects(read_run(req, outcomes.take(0)), outcomes[0]));
    if outcomes.len() > 1 {
        assert(read_expects(read_run(req, outcomes.take(1)), outcomes[1]));
        if outcomes.len() > 2 {
            assert(read_expects(read_run(req, outcomes.take(2)), outcomes[2]));
        }
    }
    if outcomes.len() == 1 {
        assert(outcomes.take(1) =~= outcomes);
    } else if outcomes.len() == 2 {
        assert(outcomes.take(2) =~= outcomes);
    }
}

} // verus!
