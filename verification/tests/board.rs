use taskboard::lifecycle::{
    add_member, complete_task, create_task, delete_member, delete_task, get_all_members,
    get_all_tasks, get_member, get_task, get_tasks_by_member, is_member, search_task,
    update_member, update_task, Board,
};
use taskboard::model::{MemberPayload, TaskPayload};
use taskboard::Error;

const NANOS_PER_HOUR: u64 = 3_600_000_000_000;

fn admin() -> String {
    "2vxsx-fae".to_string()
}

fn fresh_board() -> Board {
    Board::init(admin(), 0, 1, 2, 3).expect("four distinct tags must be accepted")
}

fn member_payload(principal: &str) -> MemberPayload {
    MemberPayload { principal_id: principal.to_string() }
}

fn task_payload(title: &str, description: &str, assigned_to: &str, deadline: u8) -> TaskPayload {
    TaskPayload {
        title: title.to_string(),
        description: description.to_string(),
        assigned_to: assigned_to.to_string(),
        deadline,
    }
}

#[test]
fn init_rejects_duplicate_tags() {
    let r = Board::init(admin(), 0, 0, 1, 2);
    assert!(matches!(r, Err(Error::InvalidInput { .. })));
    let r = Board::init(admin(), 0, 1, 2, 255);
    assert!(matches!(r, Err(Error::InvalidInput { .. })));
}

#[test]
fn counter_ids_strictly_increase() {
    let mut b = fresh_board();
    for expected in 0u64..5 {
        let m = add_member(&mut b, &admin(), member_payload("p")).unwrap();
        assert_eq!(m.id, expected);
    }
}

#[test]
fn counter_isolation_task_and_member_ids_independent() {
    let mut b = fresh_board();
    let m0 = add_member(&mut b, &admin(), member_payload("m1")).unwrap();
    let m1 = add_member(&mut b, &admin(), member_payload("m2")).unwrap();
    let m2 = add_member(&mut b, &admin(), member_payload("m3")).unwrap();
    assert_eq!((m0.id, m1.id, m2.id), (0, 1, 2));
    let t0 = create_task(&mut b, &admin(), 10, task_payload("a", "b", "m1", 1)).unwrap();
    let t1 = create_task(&mut b, &admin(), 10, task_payload("c", "d", "m2", 1)).unwrap();
    assert_eq!((t0.id, t1.id), (0, 1));
}

#[test]
fn round_trip_task_equal_in_all_fields() {
    let mut b = fresh_board();
    add_member(&mut b, &admin(), member_payload("m1")).unwrap();
    let created = create_task(&mut b, &admin(), 42, task_payload("Title", "Desc", "m1", 7)).unwrap();
    let fetched = get_task(&b, created.id).unwrap();
    assert_eq!(fetched.id, created.id);
    assert_eq!(fetched.title, "Title");
    assert_eq!(fetched.description, "Desc");
    assert_eq!(fetched.assigned_to, "m1");
    assert!(!fetched.is_done);
    assert_eq!(fetched.start_time, 42);
    assert_eq!(fetched.deadline, 7);
    assert_eq!(fetched.updated_at, None);
}

#[test]
fn round_trip_member() {
    let mut b = fresh_board();
    let created = add_member(&mut b, &admin(), member_payload("principal-xyz")).unwrap();
    let fetched = get_member(&b, created.id).unwrap();
    assert_eq!(fetched.id, created.id);
    assert_eq!(fetched.principal_id, "principal-xyz");
}

#[test]
fn deletion_finality() {
    let mut b = fresh_board();
    add_member(&mut b, &admin(), member_payload("m1")).unwrap();
    let t = create_task(&mut b, &admin(), 10, task_payload("a", "b", "m1", 1)).unwrap();
    let removed = delete_task(&mut b, &admin(), t.id).unwrap();
    assert_eq!(removed.id, t.id);
    assert!(matches!(get_task(&b, t.id), Err(Error::NotFound { .. })));
    assert!(matches!(delete_task(&mut b, &admin(), t.id), Err(Error::NotFound { .. })));
}

#[test]
fn scenario_complete_then_complete_again() {
    let mut b = fresh_board();
    add_member(&mut b, &admin(), member_payload("m1")).unwrap();
    let payload = task_payload("Write spec", "Draft design doc", "m1", 1);
    let t = create_task(&mut b, &admin(), 1_000, payload).unwrap();
    let caller = "m1".to_string();
    let done = complete_task(&mut b, &caller, 1_001, t.id).unwrap();
    assert!(done.is_done);
    assert!(matches!(
        complete_task(&mut b, &caller, 1_002, t.id),
        Err(Error::TaskAlreadyDone)
    ));
    assert!(matches!(
        complete_task(&mut b, &caller, u64::MAX / 2, t.id),
        Err(Error::TaskAlreadyDone)
    ));
}

#[test]
fn complete_requires_exact_assignee() {
    let mut b = fresh_board();
    add_member(&mut b, &admin(), member_payload("m1")).unwrap();
    let t = create_task(&mut b, &admin(), 0, task_payload("a", "b", "m1", 1)).unwrap();
    let stranger = "m2".to_string();
    assert!(matches!(
        complete_task(&mut b, &stranger, 1, t.id),
        Err(Error::NotAuthorized)
    ));
    assert!(matches!(
        complete_task(&mut b, &admin(), 1, t.id),
        Err(Error::NotAuthorized)
    ));
}

#[test]
fn complete_unknown_task() {
    let mut b = fresh_board();
    let caller = "m1".to_string();
    assert!(matches!(complete_task(&mut b, &caller, 1, 9), Err(Error::TaskNotFound)));
}

#[test]
fn deadline_boundary() {
    let mut b = fresh_board();
    add_member(&mut b, &admin(), member_payload("m1")).unwrap();
    let t0: u64 = 1_000;
    let h: u64 = 1;
    let boundary = t0 + h * NANOS_PER_HOUR;
    let caller = "m1".to_string();

    let late = create_task(&mut b, &admin(), t0, task_payload("a", "b", "m1", h as u8)).unwrap();
    assert!(matches!(
        complete_task(&mut b, &caller, boundary, late.id),
        Err(Error::DeadlineAlreadyPassed)
    ));

    let in_time = create_task(&mut b, &admin(), t0, task_payload("a", "b", "m1", h as u8)).unwrap();
    let done = complete_task(&mut b, &caller, boundary - 1, in_time.id).unwrap();
    assert!(done.is_done);
}

#[test]
fn scenario_non_admin_create_leaves_store_unchanged() {
    let mut b = fresh_board();
    add_member(&mut b, &admin(), member_payload("m1")).unwrap();
    create_task(&mut b, &admin(), 10, task_payload("a", "b", "m1", 1)).unwrap();
    let before: Vec<u64> = get_all_tasks(&b).unwrap().iter().map(|t| t.id).collect();

    let outsider = "not-the-admin".to_string();
    let r = create_task(&mut b, &outsider, 11, task_payload("x", "y", "m1", 1));
    assert!(matches!(r, Err(Error::NotAuthorized)));

    let after: Vec<u64> = get_all_tasks(&b).unwrap().iter().map(|t| t.id).collect();
    assert_eq!(before, after);
}

#[test]
fn scenario_search_without_match_reports_not_found() {
    let mut b = fresh_board();
    add_member(&mut b, &admin(), member_payload("m1")).unwrap();
    create_task(&mut b, &admin(), 10, task_payload("Write spec", "Draft design doc", "m1", 1))
        .unwrap();
    let q = "zzz-no-match".to_string();
    assert!(matches!(search_task(&b, &q), Err(Error::NotFound { .. })));
}

#[test]
fn search_is_case_insensitive_substring() {
    let mut b = fresh_board();
    add_member(&mut b, &admin(), member_payload("m1")).unwrap();
    create_task(&mut b, &admin(), 10, task_payload("Write Spec", "Draft Design Doc", "m1", 1))
        .unwrap();
    create_task(&mut b, &admin(), 10, task_payload("Other", "Unrelated", "m1", 1)).unwrap();

    let q = "write spec".to_string();
    let found = search_task(&b, &q).unwrap();
    assert_eq!(found.len(), 1);
    assert_eq!(found[0].title, "Write Spec");

    let q = "DESIGN".to_string();
    let found = search_task(&b, &q).unwrap();
    assert_eq!(found.len(), 1);
    assert_eq!(found[0].description, "Draft Design Doc");
}

#[test]
fn tasks_by_member_matches_assignee() {
    let mut b = fresh_board();
    add_member(&mut b, &admin(), member_payload("alice")).unwrap();
    add_member(&mut b, &admin(), member_payload("bob")).unwrap();
    create_task(&mut b, &admin(), 10, task_payload("a", "b", "alice", 1)).unwrap();
    create_task(&mut b, &admin(), 10, task_payload("c", "d", "bob", 1)).unwrap();

    let q = "ALICE".to_string();
    let found = get_tasks_by_member(&b, &q).unwrap();
    assert_eq!(found.len(), 1);
    assert_eq!(found[0].assigned_to, "alice");

    let q = "nobody".to_string();
    assert!(matches!(get_tasks_by_member(&b, &q), Err(Error::NotFound { .. })));
}

#[test]
fn get_all_tasks_in_ascending_id_order() {
    let mut b = fresh_board();
    add_member(&mut b, &admin(), member_payload("m1")).unwrap();
    for _ in 0..4 {
        create_task(&mut b, &admin(), 10, task_payload("a", "b", "m1", 1)).unwrap();
    }
    let all = get_all_tasks(&b).unwrap();
    let ids: Vec<u64> = all.iter().map(|t| t.id).collect();
    assert_eq!(ids, vec![0, 1, 2, 3]);
}

#[test]
fn get_all_tasks_empty_reports_not_found() {
    let b = fresh_board();
    assert!(matches!(get_all_tasks(&b), Err(Error::NotFound { .. })));
}

#[test]
fn create_task_validation() {
    let mut b = fresh_board();
    add_member(&mut b, &admin(), member_payload("m1")).unwrap();
    assert!(matches!(
        create_task(&mut b, &admin(), 10, task_payload("a", "b", "m1", 0)),
        Err(Error::InvalidInput { .. })
    ));
    assert!(matches!(
        create_task(&mut b, &admin(), 10, task_payload("", "b", "m1", 1)),
        Err(Error::InvalidInput { .. })
    ));
    assert!(matches!(
        create_task(&mut b, &admin(), 10, task_payload("a", "", "m1", 1)),
        Err(Error::InvalidInput { .. })
    ));
    let long = "x".repeat(301);
    assert!(matches!(
        create_task(&mut b, &admin(), 10, task_payload(&long, "b", "m1", 1)),
        Err(Error::InvalidInput { .. })
    ));
    assert!(matches!(
        create_task(&mut b, &admin(), 10, task_payload("a", "b", "ghost", 1)),
        Err(Error::MemberNotFound)
    ));
    assert!(matches!(get_all_tasks(&b), Err(Error::NotFound { .. })));
}

#[test]
fn update_task_replaces_fields_and_preserves_completion() {
    let mut b = fresh_board();
    add_member(&mut b, &admin(), member_payload("m1")).unwrap();
    add_member(&mut b, &admin(), member_payload("m2")).unwrap();
    let t = create_task(&mut b, &admin(), 1_000, task_payload("old", "old desc", "m1", 2)).unwrap();
    let caller = "m1".to_string();
    complete_task(&mut b, &caller, 1_001, t.id).unwrap();

    let updated = update_task(&mut b, &admin(), 2_000, t.id, task_payload("new", "new desc", "m2", 3))
        .unwrap();
    assert_eq!(updated.title, "new");
    assert_eq!(updated.description, "new desc");
    assert_eq!(updated.assigned_to, "m2");
    assert_eq!(updated.deadline, 3);
    assert!(updated.is_done, "completion flag is preserved by update");
    assert_eq!(updated.start_time, 1_000, "start time is preserved by update");
    assert_eq!(updated.updated_at, Some(2_000));
}

#[test]
fn update_task_errors() {
    let mut b = fresh_board();
    add_member(&mut b, &admin(), member_payload("m1")).unwrap();
    let t = create_task(&mut b, &admin(), 1_000, task_payload("a", "b", "m1", 1)).unwrap();

    let outsider = "nobody".to_string();
    assert!(matches!(
        update_task(&mut b, &outsider, 1_001, t.id, task_payload("x", "y", "m1", 1)),
        Err(Error::NotAuthorized)
    ));
    assert!(matches!(
        update_task(&mut b, &admin(), 1_001, 99, task_payload("x", "y", "m1", 1)),
        Err(Error::NotFound { .. })
    ));
    let after_deadline = 1_000 + NANOS_PER_HOUR;
    assert!(matches!(
        update_task(&mut b, &admin(), after_deadline, t.id, task_payload("x", "y", "m1", 1)),
        Err(Error::DeadlineAlreadyPassed)
    ));
}

#[test]
fn member_crud() {
    let mut b = fresh_board();
    let outsider = "nobody".to_string();
    assert!(matches!(
        add_member(&mut b, &outsider, member_payload("m1")),
        Err(Error::NotAuthorized)
    ));
    assert!(matches!(get_all_members(&b), Err(Error::NotFound { .. })));

    let m = add_member(&mut b, &admin(), member_payload("m1")).unwrap();
    let q = "m1".to_string();
    assert!(is_member(&b, &q));
    let q = "m2".to_string();
    assert!(!is_member(&b, &q));

    let updated = update_member(&mut b, &admin(), m.id, member_payload("m1-renamed")).unwrap();
    assert_eq!(updated.id, m.id);
    assert_eq!(updated.principal_id, "m1-renamed");
    let q = "m1".to_string();
    assert!(!is_member(&b, &q), "membership is an exact comparison");

    let all = get_all_members(&b).unwrap();
    assert_eq!(all.len(), 1);
    assert_eq!(all[0].principal_id, "m1-renamed");

    assert!(matches!(
        update_member(&mut b, &admin(), 77, member_payload("x")),
        Err(Error::NotFound { .. })
    ));
    assert!(matches!(
        delete_member(&mut b, &outsider, m.id),
        Err(Error::NotAuthorized)
    ));
    let removed = delete_member(&mut b, &admin(), m.id).unwrap();
    assert_eq!(removed.principal_id, "m1-renamed");
    assert!(matches!(get_member(&b, m.id), Err(Error::NotFound { .. })));
    assert!(matches!(
        delete_member(&mut b, &admin(), m.id),
        Err(Error::NotFound { .. })
    ));
}

#[test]
fn member_deletion_orphans_tasks() {
    let mut b = fresh_board();
    let m = add_member(&mut b, &admin(), member_payload("m1")).unwrap();
    let t = create_task(&mut b, &admin(), 10, task_payload("a", "b", "m1", 1)).unwrap();
    delete_member(&mut b, &admin(), m.id).unwrap();
    let fetched = get_task(&b, t.id).unwrap();
    assert_eq!(fetched.assigned_to, "m1", "the orphaned reference is kept");
}

#[test]
fn unicode_text_round_trips() {
    let mut b = fresh_board();
    add_member(&mut b, &admin(), member_payload("m1")).unwrap();
    let t = create_task(&mut b, &admin(), 10, task_payload("Grüße 林", "emoji \u{1F600}", "m1", 1))
        .unwrap();
    let fetched = get_task(&b, t.id).unwrap();
    assert_eq!(fetched.title, "Grüße 林");
    assert_eq!(fetched.description, "emoji \u{1F600}");

    let q = "grüße".to_string();
    assert_eq!(search_task(&b, &q).unwrap().len(), 1);
}
