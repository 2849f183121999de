use backend::batch::{BatchAction, BatchKind, BatchMachine};
use backend::bundle_write::{BundleAction, BundleMachine};
use backend::grouping::{distinct_item_ids, group_lines, positions};
use backend::outcome::Outcome;
use backend::read::{ReadAction, ReadMachine, ReadRequest};
use backend::status::{DbErrorKind, Status};

#[test]
fn inserting_two_inventory_items_commits_and_answers_created() {
    let mut m = BatchMachine::new(BatchKind::Insert, 2);
    assert_eq!(m.action(), BatchAction::Begin);
    assert_eq!(m.step(Outcome::Done), BatchAction::Run(0));
    assert_eq!(m.step(Outcome::Done), BatchAction::Run(1));
    assert_eq!(m.step(Outcome::Done), BatchAction::Commit);
    assert_eq!(m.step(Outcome::Done), BatchAction::Respond(Status::Created));
}

#[test]
fn duplicate_inventory_item_is_a_conflict_without_commit() {
    let mut m = BatchMachine::new(BatchKind::Insert, 3);
    assert_eq!(m.step(Outcome::Done), BatchAction::Run(0));
    assert_eq!(
        m.step(Outcome::Failed(DbErrorKind::UniqueViolation)),
        BatchAction::Respond(Status::Conflict)
    );
}

#[test]
fn insert_refused_by_the_database_is_a_bad_request() {
    let mut m = BatchMachine::new(BatchKind::Insert, 1);
    m.step(Outcome::Done);
    assert_eq!(
        m.step(Outcome::Failed(DbErrorKind::OtherDatabase)),
        BatchAction::Respond(Status::BadRequest)
    );
}

#[test]
fn failed_begin_is_an_internal_error() {
    let mut m = BatchMachine::new(BatchKind::Update, 4);
    assert_eq!(
        m.step(Outcome::Failed(DbErrorKind::Other)),
        BatchAction::Respond(Status::InternalServerError)
    );
}

#[test]
fn failed_commit_is_an_internal_error() {
    let mut m = BatchMachine::new(BatchKind::Delete, 1);
    m.step(Outcome::Done);
    assert_eq!(m.step(Outcome::Affected(1)), BatchAction::Commit);
    assert_eq!(
        m.step(Outcome::Failed(DbErrorKind::Other)),
        BatchAction::Respond(Status::InternalServerError)
    );
}

#[test]
fn empty_batch_commits_at_once() {
    let mut m = BatchMachine::new(BatchKind::Update, 0);
    assert_eq!(m.step(Outcome::Done), BatchAction::Commit);
    assert_eq!(m.step(Outcome::Done), BatchAction::Respond(Status::Success));
}

#[test]
fn updating_a_missing_row_is_not_found() {
    let mut m = BatchMachine::new(BatchKind::Update, 2);
    m.step(Outcome::Done);
    assert_eq!(m.step(Outcome::Done), BatchAction::Run(1));
    assert_eq!(m.step(Outcome::Absent), BatchAction::Respond(Status::NotFound));
}

#[test]
fn update_refused_by_the_database_is_a_bad_request() {
    let mut m = BatchMachine::new(BatchKind::Update, 1);
    m.step(Outcome::Done);
    assert_eq!(
        m.step(Outcome::Failed(DbErrorKind::UniqueViolation)),
        BatchAction::Respond(Status::BadRequest)
    );
}

#[test]
fn deleting_answers_no_content_and_a_missing_row_is_not_found() {
    let mut m = BatchMachine::new(BatchKind::Delete, 2);
    m.step(Outcome::Done);
    assert_eq!(m.step(Outcome::Affected(1)), BatchAction::Run(1));
    assert_eq!(m.step(Outcome::Affected(2)), BatchAction::Commit);
    assert_eq!(m.step(Outcome::Done), BatchAction::Respond(Status::NoContent));

    let mut m = BatchMachine::new(BatchKind::Delete, 1);
    m.step(Outcome::Done);
    assert_eq!(m.step(Outcome::Affected(0)), BatchAction::Respond(Status::NotFound));
}

#[test]
fn delete_failure_is_an_internal_error() {
    let mut m = BatchMachine::new(BatchKind::Delete, 1);
    m.step(Outcome::Done);
    assert_eq!(
        m.step(Outcome::Failed(DbErrorKind::UniqueViolation)),
        BatchAction::Respond(Status::InternalServerError)
    );
}

#[test]
fn lines_are_grouped_by_item_in_first_occurrence_order() {
    let ids = vec![5, 3, 5, 5, 3, 8];
    assert_eq!(distinct_item_ids(&ids), vec![5, 3, 8]);
    assert_eq!(positions(&ids, 5), vec![0, 2, 3]);
    assert_eq!(positions(&ids, 9), Vec::<usize>::new());
    let groups = group_lines(&ids);
    assert_eq!(groups.len(), 3);
    assert_eq!(groups[0].item_id, 5);
    assert_eq!(groups[0].lines, vec![0, 2, 3]);
    assert_eq!(groups[1].item_id, 3);
    assert_eq!(groups[1].lines, vec![1, 4]);
    assert_eq!(groups[2].item_id, 8);
    assert_eq!(groups[2].lines, vec![5]);
    assert!(group_lines(&Vec::new()).is_empty());
}

#[test]
fn creating_a_bundle_checks_writes_commits_and_reads_it_back() {
    let mut m = BundleMachine::for_create(Some(false), vec![7], vec![true]);
    assert_eq!(m.action(), BundleAction::Begin);
    assert_eq!(
        m.step(Outcome::Done),
        BundleAction::CheckAvailable { group: 0, item_id: 7, excluded: None }
    );
    assert_eq!(*m.group_lines(0), vec![0]);
    assert_eq!(
        m.step(Outcome::Available { exceeds: false }),
        BundleAction::InsertRecord { bundled: false }
    );
    assert_eq!(
        m.step(Outcome::Record { id: 42, fulfilled: false }),
        BundleAction::ClearLines { bundle_id: 42 }
    );
    assert_eq!(m.step(Outcome::Done), BundleAction::InsertLine { bundle_id: 42, line: 0 });
    assert_eq!(m.step(Outcome::Done), BundleAction::Commit);
    assert_eq!(m.step(Outcome::Done), BundleAction::LoadRecord { bundle_id: 42 });
    assert_eq!(
        m.step(Outcome::Record { id: 42, fulfilled: false }),
        BundleAction::LoadLines { bundle_id: 42 }
    );
    assert_eq!(m.step(Outcome::Rows(1)), BundleAction::Respond(Status::Created));
}

#[test]
fn bundle_flag_defaults_to_not_bundled() {
    let mut m = BundleMachine::for_create(None, vec![], vec![]);
    assert_eq!(m.step(Outcome::Done), BundleAction::InsertRecord { bundled: false });
    let mut m = BundleMachine::for_create(Some(true), vec![], vec![]);
    assert_eq!(m.step(Outcome::Done), BundleAction::InsertRecord { bundled: true });
}

#[test]
fn repeated_items_are_checked_once_for_their_total() {
    let mut m = BundleMachine::for_create(None, vec![4, 9, 4], vec![true, true, true]);
    assert_eq!(
        m.step(Outcome::Done),
        BundleAction::CheckAvailable { group: 0, item_id: 4, excluded: None }
    );
    assert_eq!(*m.group_lines(0), vec![0, 2]);
    assert_eq!(*m.group_lines(1), vec![1]);
    assert_eq!(
        m.step(Outcome::Available { exceeds: false }),
        BundleAction::CheckAvailable { group: 1, item_id: 9, excluded: None }
    );
    assert_eq!(
        m.step(Outcome::Available { exceeds: false }),
        BundleAction::InsertRecord { bundled: false }
    );
}

#[test]
fn request_over_available_quantity_is_a_conflict() {
    let mut m = BundleMachine::for_create(None, vec![3], vec![true]);
    m.step(Outcome::Done);
    assert_eq!(
        m.step(Outcome::Available { exceeds: true }),
        BundleAction::Respond(Status::Conflict)
    );
}

#[test]
fn unknown_item_is_a_bad_request() {
    let mut m = BundleMachine::for_create(None, vec![3], vec![true]);
    m.step(Outcome::Done);
    assert_eq!(m.step(Outcome::Absent), BundleAction::Respond(Status::BadRequest));
}

#[test]
fn non_positive_quantity_is_a_bad_request_before_any_query() {
    let mut m = BundleMachine::for_create(None, vec![3, 5], vec![true, false]);
    assert_eq!(m.step(Outcome::Done), BundleAction::Respond(Status::BadRequest));
}

#[test]
fn duplicate_line_insert_failure_maps_like_an_insert() {
    let mut m = BundleMachine::for_create(None, vec![3], vec![true]);
    m.step(Outcome::Done);
    m.step(Outcome::Available { exceeds: false });
    m.step(Outcome::Record { id: 1, fulfilled: false });
    m.step(Outcome::Done);
    assert_eq!(
        m.step(Outcome::Failed(DbErrorKind::OtherDatabase)),
        BundleAction::Respond(Status::BadRequest)
    );
}

#[test]
fn created_bundle_missing_after_commit_is_not_found() {
    let mut m = BundleMachine::for_create(None, vec![], vec![]);
    m.step(Outcome::Done);
    m.step(Outcome::Record { id: 5, fulfilled: false });
    assert_eq!(m.step(Outcome::Done), BundleAction::Commit);
    assert_eq!(m.step(Outcome::Done), BundleAction::LoadRecord { bundle_id: 5 });
    assert_eq!(m.step(Outcome::Absent), BundleAction::Respond(Status::NotFound));
}

#[test]
fn fulfilling_an_update_takes_every_line_out_of_the_inventory() {
    let fulfilled_at = Some("2026-05-28T12:00:00Z".to_owned());
    let mut m = BundleMachine::for_update(11, &fulfilled_at, vec![6], vec![true]);
    assert_eq!(m.step(Outcome::Done), BundleAction::LoadExisting { bundle_id: 11 });
    assert_eq!(
        m.step(Outcome::Record { id: 11, fulfilled: false }),
        BundleAction::CheckAvailable { group: 0, item_id: 6, excluded: Some(11) }
    );
    assert_eq!(
        m.step(Outcome::Available { exceeds: false }),
        BundleAction::UpdateRecord { bundle_id: 11 }
    );
    assert_eq!(
        m.step(Outcome::Record { id: 11, fulfilled: true }),
        BundleAction::ClearLines { bundle_id: 11 }
    );
    assert_eq!(m.step(Outcome::Done), BundleAction::InsertLine { bundle_id: 11, line: 0 });
    assert_eq!(m.step(Outcome::Done), BundleAction::LoadDeductions { bundle_id: 11 });
    assert_eq!(m.step(Outcome::Rows(2)), BundleAction::Deduct { row: 0 });
    assert_eq!(m.step(Outcome::Affected(1)), BundleAction::Deduct { row: 1 });
    assert_eq!(m.step(Outcome::Affected(1)), BundleAction::Commit);
    assert_eq!(m.step(Outcome::Done), BundleAction::LoadLines { bundle_id: 11 });
    assert_eq!(m.step(Outcome::Rows(1)), BundleAction::Respond(Status::Success));
}

#[test]
fn deduction_short_of_stock_is_a_conflict() {
    let fulfilled_at = Some("now".to_owned());
    let mut m = BundleMachine::for_update(2, &fulfilled_at, vec![], vec![]);
    m.step(Outcome::Done);
    m.step(Outcome::Record { id: 2, fulfilled: false });
    m.step(Outcome::Record { id: 2, fulfilled: false });
    assert_eq!(m.step(Outcome::Done), BundleAction::LoadDeductions { bundle_id: 2 });
    assert_eq!(m.step(Outcome::Rows(1)), BundleAction::Deduct { row: 0 });
    assert_eq!(m.step(Outcome::Affected(0)), BundleAction::Respond(Status::Conflict));
}

#[test]
fn update_without_fulfillment_takes_nothing_out() {
    let mut m = BundleMachine::for_update(2, &None, vec![8], vec![true]);
    m.step(Outcome::Done);
    m.step(Outcome::Record { id: 2, fulfilled: false });
    m.step(Outcome::Available { exceeds: false });
    m.step(Outcome::Record { id: 2, fulfilled: false });
    m.step(Outcome::Done);
    assert_eq!(m.step(Outcome::Done), BundleAction::Commit);
}

#[test]
fn updating_a_fulfilled_bundle_is_a_conflict() {
    let mut m = BundleMachine::for_update(2, &None, vec![8], vec![true]);
    m.step(Outcome::Done);
    assert_eq!(
        m.step(Outcome::Record { id: 2, fulfilled: true }),
        BundleAction::Respond(Status::Conflict)
    );
}

#[test]
fn updating_a_missing_bundle_is_not_found() {
    let mut m = BundleMachine::for_update(2, &None, vec![], vec![]);
    m.step(Outcome::Done);
    assert_eq!(m.step(Outcome::Absent), BundleAction::Respond(Status::NotFound));
}

#[test]
fn update_over_available_quantity_is_a_conflict() {
    let mut m = BundleMachine::for_update(4, &None, vec![1], vec![true]);
    m.step(Outcome::Done);
    m.step(Outcome::Record { id: 4, fulfilled: false });
    assert_eq!(
        m.step(Outcome::Available { exceeds: true }),
        BundleAction::Respond(Status::Conflict)
    );
}

#[test]
fn record_write_refused_maps_like_an_insert() {
    let mut m = BundleMachine::for_update(4, &None, vec![], vec![]);
    m.step(Outcome::Done);
    m.step(Outcome::Record { id: 4, fulfilled: false });
    assert_eq!(
        m.step(Outcome::Failed(DbErrorKind::UniqueViolation)),
        BundleAction::Respond(Status::Conflict)
    );
}

#[test]
fn inventory_and_user_lists_answer_ok_or_internal_error() {
    let mut m = ReadMachine::new(ReadRequest::ListInventory);
    assert_eq!(m.action(), ReadAction::FetchAll);
    assert_eq!(m.step(Outcome::Rows(5)), ReadAction::Respond(Status::Success));
    let mut m = ReadMachine::new(ReadRequest::ListUsers);
    assert_eq!(
        m.step(Outcome::Failed(DbErrorKind::Other)),
        ReadAction::Respond(Status::InternalServerError)
    );
}

#[test]
fn bundle_list_reads_the_lines_of_each_bundle() {
    let mut m = ReadMachine::new(ReadRequest::ListBundles);
    assert_eq!(m.action(), ReadAction::FetchAll);
    assert_eq!(m.step(Outcome::Rows(2)), ReadAction::LoadListedLines { index: 0 });
    assert_eq!(m.step(Outcome::Rows(1)), ReadAction::LoadListedLines { index: 1 });
    assert_eq!(m.step(Outcome::Rows(0)), ReadAction::Respond(Status::Success));
    let mut m = ReadMachine::new(ReadRequest::ListBundles);
    assert_eq!(m.step(Outcome::Rows(0)), ReadAction::Respond(Status::Success));
}

#[test]
fn bundle_is_shown_with_the_lines_of_the_record_read() {
    let mut m = ReadMachine::new(ReadRequest::GetBundle { bundle_id: 8 });
    assert_eq!(m.action(), ReadAction::LoadRecord { bundle_id: 8 });
    assert_eq!(
        m.step(Outcome::Record { id: 8, fulfilled: true }),
        ReadAction::LoadLines { bundle_id: 8 }
    );
    assert_eq!(m.step(Outcome::Rows(3)), ReadAction::Respond(Status::Success));
    let mut m = ReadMachine::new(ReadRequest::GetBundle { bundle_id: 8 });
    assert_eq!(m.step(Outcome::Absent), ReadAction::Respond(Status::NotFound));
}

#[test]
fn bundle_delete_answers_no_content_or_not_found() {
    let mut m = ReadMachine::new(ReadRequest::DeleteBundle { bundle_id: 3 });
    assert_eq!(m.action(), ReadAction::LoadRecord { bundle_id: 3 });
    assert_eq!(
        m.step(Outcome::Record { id: 3, fulfilled: false }),
        ReadAction::DeleteRecord { bundle_id: 3 }
    );
    assert_eq!(m.step(Outcome::Affected(1)), ReadAction::Respond(Status::NoContent));
    let mut m = ReadMachine::new(ReadRequest::DeleteBundle { bundle_id: 3 });
    assert_eq!(m.step(Outcome::Absent), ReadAction::Respond(Status::NotFound));
    let mut m = ReadMachine::new(ReadRequest::DeleteBundle { bundle_id: 3 });
    m.step(Outcome::Record { id: 3, fulfilled: false });
    assert_eq!(m.step(Outcome::Affected(0)), ReadAction::Respond(Status::NotFound));
    let mut m = ReadMachine::new(ReadRequest::DeleteBundle { bundle_id: 3 });
    assert_eq!(
        m.step(Outcome::Failed(DbErrorKind::Other)),
        ReadAction::Respond(Status::InternalServerError)
    );
    let mut m = ReadMachine::new(ReadRequest::DeleteBundle { bundle_id: 3 });
    m.step(Outcome::Record { id: 3, fulfilled: false });
    assert_eq!(
        m.step(Outcome::Failed(DbErrorKind::Other)),
        ReadAction::Respond(Status::InternalServerError)
    );
}

#[test]
fn fulfilled_bundle_cannot_be_deleted() {
    let mut m = ReadMachine::new(ReadRequest::DeleteBundle { bundle_id: 9 });
    assert_eq!(
        m.step(Outcome::Record { id: 9, fulfilled: true }),
        ReadAction::Respond(Status::Conflict)
    );
}

#[test]
fn first_failing_item_check_decides_before_any_write() {
    let mut m = BundleMachine::for_update(6, &None, vec![1, 2, 3], vec![true, true, true]);
    m.step(Outcome::Done);
    m.step(Outcome::Record { id: 6, fulfilled: false });
    assert_eq!(
        m.step(Outcome::Available { exceeds: false }),
        BundleAction::CheckAvailable { group: 1, item_id: 2, excluded: Some(6) }
    );
    assert_eq!(m.step(Outcome::Absent), BundleAction::Respond(Status::BadRequest));

    let mut m = BundleMachine::for_create(None, vec![1, 2, 3], vec![true, true, true]);
    m.step(Outcome::Done);
    m.step(Outcome::Available { exceeds: false });
    m.step(Outcome::Available { exceeds: false });
    assert_eq!(
        m.step(Outcome::Available { exceeds: true }),
        BundleAction::Respond(Status::Conflict)
    );

    let mut m = BundleMachine::for_create(None, vec![1, 2, 3], vec![true, true, true]);
    m.step(Outcome::Done);
    m.step(Outcome::Available { exceeds: false });
    m.step(Outcome::Available { exceeds: false });
    assert_eq!(
        m.step(Outcome::Available { exceeds: false }),
        BundleAction::InsertRecord { bundled: false }
    );
}
