//! The entity lifecycle layer: one board object owns the four persisted
//! segments (two identifier counters, two record stores) and carries the
//! domain rules for tasks and members, gated by a single administrator
//! identity that is supplied at initialization.

use vstd::prelude::*;
use crate::codec::{task_encodable, member_encodable, text_fits, MAX_TEXT_BYTES};
use crate::counter::{lemma_counter_isolation, lemma_identifier_uniqueness, IdCounter};
use crate::errors::Error;
use crate::model::{Member, MemberView, MemberPayload, Task, TaskPayload, TaskPayloadView, TaskView};
use crate::stable::{allocator_get, allocator_init, cell_new, fresh_memory};
use crate::stores::{MemberStore, TaskStore};
use crate::text::{lowercase, lower_of, matches_lowered, text_matches};

verus! {

/// Nanoseconds in one hour.
pub const NANOS_PER_HOUR: u64 = 3_600_000_000_000;

/// The largest deadline any task can carry, in nanoseconds: 255 hours.
pub const MAX_DEADLINE_NANOS: u64 = 255 * NANOS_PER_HOUR;

/// The instant, in nanoseconds, at which a task's deadline elapses.
pub open spec fn deadline_instant(t: TaskView) -> int {
    t.start_time + t.deadline * (NANOS_PER_HOUR as int)
}

/// A task is expired at, and after, the instant its deadline elapses.
pub open spec fn task_expired(t: TaskView, now: u64) -> bool {
    deadline_instant(t) <= now
}

/// The submitted fields pass validation: non-empty title and description,
/// positive deadline.
pub open spec fn payload_valid(p: TaskPayloadView) -> bool {
    p.title.len() > 0 && p.description.len() > 0 && p.deadline > 0
}

/// Every text field of the payload fits in a serialized record.
pub open spec fn payload_fits(p: TaskPayloadView) -> bool {
    text_fits(p.title) && text_fits(p.description) && text_fits(p.assigned_to)
}

/// Some registered member carries exactly this identity string.
pub open spec fn member_known(members: Map<u64, MemberView>, principal: Seq<char>) -> bool {
    exists|k: u64| #[trigger] members.contains_key(k) && members[k].principal_id == principal
}

/// The search predicate: a case-insensitive substring match against the
/// title or the description.
pub open spec fn task_matches(t: TaskView, query: Seq<char>) -> bool {
    text_matches(t.title, query) || text_matches(t.description, query)
}

/// The by-member predicate: a case-insensitive substring match against the
/// assignee field.
pub open spec fn assignee_matches(t: TaskView, query: Seq<char>) -> bool {
    text_matches(t.assigned_to, query)
}

/// The persistent state: four fixed segments of one durable memory block,
/// each bound to its own tag at initialization, plus the configured
/// administrator identity.
pub struct Board {
    admin: String,
    task_ids: IdCounter,
    member_ids: IdCounter,
    tasks: TaskStore,
    members: MemberStore,
}

impl Board {
    /// The administrator identity this board was configured with.
    pub closed spec fn admin_id(self) -> Seq<char> {
        self.admin@
    }

    /// The current task records, by identifier.
    pub closed spec fn task_records(self) -> Map<u64, TaskView> {
        self.tasks@
    }

    /// The current member records, by identifier.
    pub closed spec fn member_records(self) -> Map<u64, MemberView> {
        self.members@
    }

    /// The next task identifier to be allocated.
    pub closed spec fn next_task_id(self) -> u64 {
        self.task_ids.value()
    }

    /// The next member identifier to be allocated.
    pub closed spec fn next_member_id(self) -> u64 {
        self.member_ids.value()
    }

    /// Every task identifier allocated so far, in allocation order.
    pub closed spec fn task_id_history(self) -> Seq<u64> {
        self.task_ids.issued()
    }

    /// Every member identifier allocated so far, in allocation order.
    pub closed spec fn member_id_history(self) -> Seq<u64> {
        self.member_ids.issued()
    }

    /// The board's invariant: both counters count from zero over their own
    /// cells, both stores are well-formed, every stored identifier was
    /// allocated before the counter's current value, and every stored start
    /// time leaves room for the largest deadline.
    pub closed spec fn wf(self) -> bool {
        &&& self.task_ids.wf()
        &&& self.task_ids.origin() == 0
        &&& self.member_ids.wf()
        &&& self.member_ids.origin() == 0
        &&& self.tasks.wf()
        &&& self.members.wf()
        &&& forall|k: u64| #[trigger] self.tasks@.contains_key(k) ==> k < self.task_ids.value()
        &&& forall|k: u64| #[trigger] self.members@.contains_key(k) ==> k < self.member_ids.value()
        &&& forall|k: u64| #[trigger]
            self.tasks@.contains_key(k) ==> self.tasks@[k].start_time <= u64::MAX
                - MAX_DEADLINE_NANOS
    }
}

/// Nothing observable about the board changed.
pub open spec fn same_state(pre: Board, post: Board) -> bool {
    &&& post.task_records() == pre.task_records()
    &&& post.member_records() == pre.member_records()
    &&& post.next_task_id() == pre.next_task_id()
    &&& post.next_member_id() == pre.next_member_id()
    &&& post.task_id_history() == pre.task_id_history()
    &&& post.member_id_history() == pre.member_id_history()
    &&& post.admin_id() == pre.admin_id()
}

/// The four segment tags are usable and pairwise distinct.
pub open spec fn tags_ok(a: u8, b: u8, c: u8, d: u8) -> bool {
    &&& a < 255 && b < 255 && c < 255 && d < 255
    &&& a != b && a != c && a != d && b != c && b != d && c != d
}

impl Board {
    /// Binds four fresh segments of one new memory block — task counter,
    /// task map, member map, member counter — each to its own tag, and
    /// rejects duplicate tag assignment outright: two counters or stores on
    /// one segment would alias and corrupt each other.
    pub fn init(
        admin: String,
        task_counter_tag: u8,
        task_map_tag: u8,
        member_map_tag: u8,
        member_counter_tag: u8,
    ) -> (r: Result<Board, Error>)
        ensures
            match r {
                Ok(b) => {
                    &&& tags_ok(task_counter_tag, task_map_tag, member_map_tag, member_counter_tag)
                    &&& b.wf()
                    &&& b.task_records() =~= Map::empty()
                    &&& b.member_records() =~= Map::empty()
                    &&& b.next_task_id() == 0
                    &&& b.next_member_id() == 0
                    &&& b.task_id_history() =~= Seq::empty()
                    &&& b.member_id_history() =~= Seq::empty()
                    &&& b.admin_id() == admin@
                },
                Err(e) => !tags_ok(
                    task_counter_tag,
                    task_map_tag,
                    member_map_tag,
                    member_counter_tag,
                ) && e is InvalidInput,
            },
    {
        if task_counter_tag >= 255 || task_map_tag >= 255 || member_map_tag >= 255
            || member_counter_tag >= 255 || task_counter_tag == task_map_tag || task_counter_tag
            == member_map_tag || task_counter_tag == member_counter_tag || task_map_tag
            == member_map_tag || task_map_tag == member_counter_tag || member_map_tag
            == member_counter_tag {
            return Err(Error::InvalidInput { msg: "segment tags must be distinct and below 255".to_string() });
        }
        let memory = fresh_memory();
        let alloc = allocator_init(memory);
        let task_cell = cell_new(allocator_get(&alloc, task_counter_tag), 0);
        let task_ids = IdCounter::new(task_cell);
        let tasks = TaskStore::new(allocator_get(&alloc, task_map_tag));
        let members = MemberStore::new(allocator_get(&alloc, member_map_tag));
        let member_cell = cell_new(allocator_get(&alloc, member_counter_tag), 0);
        let member_ids = IdCounter::new(member_cell);
        Ok(Board { admin, task_ids, member_ids, tasks, members })
    }
}

/// The next task identifier the board will allocate; callers use it to rule
/// out counter exhaustion before creating a task.
pub fn peek_next_task_id(board: &Board) -> (r: u64)
    ensures
        r == board.next_task_id(),
{
    board.task_ids.current()
}

/// The next member identifier the board will allocate.
pub fn peek_next_member_id(board: &Board) -> (r: u64)
    ensures
        r == board.next_member_id(),
{
    board.member_ids.current()
}

/// The access-control gate: a pure equality check of the caller against the
/// one configured administrator identity.
pub fn _is_caller_admin(board: &Board, caller: &String) -> (r: bool)
    ensures
        r == (caller@ == board.admin_id()),
{
    *caller == board.admin
}

/// Converts a deadline in hours to nanoseconds.
pub fn _hours_to_nanoseconds(hours: u64) -> (r: u64)
    requires
        hours * (NANOS_PER_HOUR as int) <= u64::MAX,
    ensures
        r as int == hours * (NANOS_PER_HOUR as int),
{
    let hour_to_seconds: u64 = hours * 60 * 60;
    let second_in_nanoseconds: u64 = 1000000000;
    hour_to_seconds * second_in_nanoseconds
}

/// Point lookup of a task.
pub fn _get_task(board: &Board, id: &u64) -> (r: Option<Task>)
    requires
        board.wf(),
    ensures
        match r {
            Some(t) => board.task_records().contains_key(*id) && t@ == board.task_records()[*id],
            None => !board.task_records().contains_key(*id),
        },
{
    board.tasks.get(*id)
}

/// Point lookup of a member.
pub fn _get_member(board: &Board, id: &u64) -> (r: Option<Member>)
    requires
        board.wf(),
    ensures
        match r {
            Some(m) => board.member_records().contains_key(*id) && m@
                == board.member_records()[*id],
            None => !board.member_records().contains_key(*id),
        },
{
    board.members.get(*id)
}

/// Looks a task up by identifier.
pub fn get_task(board: &Board, id: u64) -> (r: Result<Task, Error>)
    requires
        board.wf(),
    ensures
        match r {
            Ok(t) => board.task_records().contains_key(id) && t@ == board.task_records()[id],
            Err(e) => !board.task_records().contains_key(id) && e is NotFound,
        },
{
    match _get_task(board, &id) {
        Option::Some(task) => Ok(task),
        Option::None => Err(Error::NotFound { msg: "task not found".to_string() }),
    }
}

/// Looks a member up by identifier.
pub fn get_member(board: &Board, id: u64) -> (r: Result<Member, Error>)
    requires
        board.wf(),
    ensures
        match r {
            Ok(m) => board.member_records().contains_key(id) && m@ == board.member_records()[id],
            Err(e) => !board.member_records().contains_key(id) && e is NotFound,
        },
{
    match _get_member(board, &id) {
        Option::Some(member) => Ok(member),
        Option::None => Err(Error::NotFound { msg: "member not found".to_string() }),
    }
}

/// Unconditionally persists the task under its identifier, replacing any
/// previous record there.
pub fn do_insert(board: &mut Board, task: &Task)
    requires
        old(board).wf(),
        task_encodable(task@),
        task.id < old(board).next_task_id(),
        task.start_time <= u64::MAX - MAX_DEADLINE_NANOS,
    ensures
        final(board).wf(),
        final(board).task_records() == old(board).task_records().insert(task.id, task@),
        final(board).member_records() == old(board).member_records(),
        final(board).next_task_id() == old(board).next_task_id(),
        final(board).next_member_id() == old(board).next_member_id(),
        final(board).task_id_history() == old(board).task_id_history(),
        final(board).member_id_history() == old(board).member_id_history(),
        final(board).admin_id() == old(board).admin_id(),
{
    board.tasks.put(task);
}

/// Unconditionally persists the member under its identifier, replacing any
/// previous record there.
pub fn do_insert_member(board: &mut Board, member: &Member)
    requires
        old(board).wf(),
        member_encodable(member@),
        member.id < old(board).next_member_id(),
    ensures
        final(board).wf(),
        final(board).member_records() == old(board).member_records().insert(member.id, member@),
        final(board).task_records() == old(board).task_records(),
        final(board).next_task_id() == old(board).next_task_id(),
        final(board).next_member_id() == old(board).next_member_id(),
        final(board).task_id_history() == old(board).task_id_history(),
        final(board).member_id_history() == old(board).member_id_history(),
        final(board).admin_id() == old(board).admin_id(),
{
    board.members.put(member);
}

/// Is this identity string registered as a member, by exact comparison?
pub fn is_member(board: &Board, query: &String) -> (r: bool)
    requires
        board.wf(),
    ensures
        r == member_known(board.member_records(), query@),
{
    let all = board.members.all();
    let mut i: usize = 0;
    while i < all.len()
        invariant
            board.wf(),
            0 <= i <= all@.len(),
            forall|x: int|
                0 <= x < all@.len() ==> board.member_records().contains_key(
                    (#[trigger] all@[x])@.id,
                ) && all@[x]@ == board.member_records()[all@[x]@.id],
            forall|k: u64| #[trigger]
                board.member_records().contains_key(k) ==> exists|x: int|
                    0 <= x < all@.len() && all@[x]@.id == k,
            forall|x: int| 0 <= x < i ==> (#[trigger] all@[x])@.principal_id != query@,
        decreases all@.len() - i,
    {
        if all[i].principal_id == *query {
            proof {
                let k = all@[i as int]@.id;
                assert(board.member_records().contains_key(k) && board.member_records()[k]
                    .principal_id == query@);
            }
            return true;
        }
        i = i + 1;
    }
    proof {
        if member_known(board.member_records(), query@) {
            let k = choose|k: u64|
                #[trigger] board.member_records().contains_key(k) && board.member_records()[k]
                    .principal_id == query@;
            let x = choose|x: int| 0 <= x < all@.len() && all@[x]@.id == k;
            assert(all@[x]@.principal_id == query@);
        }
    }
    false
}

/// Creates a task: admin-gated, validated, assignee must currently be a
/// registered member; allocates the next task identifier and persists the
/// record before returning. Checks run in this order: authorization, field
/// validation (including the record-size bound), member lookup.
pub fn create_task(board: &mut Board, caller: &String, now: u64, payload: TaskPayload) -> (r:
    Result<Task, Error>)
    requires
        old(board).wf(),
        old(board).next_task_id() < u64::MAX,
        now <= u64::MAX - MAX_DEADLINE_NANOS,
    ensures
        final(board).wf(),
        caller@ != old(board).admin_id() ==> (r matches Err(e) && e is NotAuthorized && same_state(
            *old(board),
            *final(board),
        )),
        caller@ == old(board).admin_id() && !(payload_valid(payload@) && payload_fits(payload@))
            ==> (r matches Err(e) && e is InvalidInput && same_state(*old(board), *final(board))),
        caller@ == old(board).admin_id() && payload_valid(payload@) && payload_fits(payload@)
            && !member_known(old(board).member_records(), payload@.assigned_to) ==> (r matches Err(e)
            && e is MemberNotFound && same_state(*old(board), *final(board))),
        caller@ == old(board).admin_id() && payload_valid(payload@) && payload_fits(payload@)
            && member_known(old(board).member_records(), payload@.assigned_to) ==> (r matches Ok(t)
            && {
            &&& t@ =~= (TaskView {
                id: old(board).next_task_id(),
                title: payload@.title,
                description: payload@.description,
                assigned_to: payload@.assigned_to,
                is_done: false,
                start_time: now,
                deadline: payload@.deadline,
                updated_at: None,
            })
            &&& !old(board).task_records().contains_key(t@.id)
            &&& final(board).task_records() == old(board).task_records().insert(t@.id, t@)
            &&& final(board).member_records() == old(board).member_records()
            &&& final(board).next_task_id() == old(board).next_task_id() + 1
            &&& final(board).next_member_id() == old(board).next_member_id()
            &&& final(board).task_id_history() == old(board).task_id_history().push(t@.id)
            &&& final(board).member_id_history() == old(board).member_id_history()
            &&& final(board).admin_id() == old(board).admin_id()
        }),
{
    if !_is_caller_admin(board, caller) {
        return Err(Error::NotAuthorized);
    }
    if payload.title.as_str().is_empty() || payload.description.as_str().is_empty()
        || payload.deadline == 0 {
        return Err(Error::InvalidInput { msg: "title, description and deadline are required".to_string() });
    }
    if payload.title.as_str().as_bytes().len() > MAX_TEXT_BYTES
        || payload.description.as_str().as_bytes().len() > MAX_TEXT_BYTES
        || payload.assigned_to.as_str().as_bytes().len() > MAX_TEXT_BYTES {
        return Err(Error::InvalidInput { msg: "a field is too long to store".to_string() });
    }
    if !is_member(board, &payload.assigned_to) {
        return Err(Error::MemberNotFound);
    }
    let id = board.task_ids.next();
    let task = Task {
        id,
        title: payload.title,
        description: payload.description,
        assigned_to: payload.assigned_to,
        is_done: false,
        start_time: now,
        deadline: payload.deadline,
        updated_at: None,
    };
    do_insert(board, &task);
    Ok(task)
}

/// Registers a member: admin-gated; allocates the next member identifier
/// and persists the record before returning.
pub fn add_member(board: &mut Board, caller: &String, payload: MemberPayload) -> (r: Result<
    Member,
    Error,
>)
    requires
        old(board).wf(),
        old(board).next_member_id() < u64::MAX,
    ensures
        final(board).wf(),
        caller@ != old(board).admin_id() ==> (r matches Err(e) && e is NotAuthorized && same_state(
            *old(board),
            *final(board),
        )),
        caller@ == old(board).admin_id() && !text_fits(payload@) ==> (r matches Err(e)
            && e is InvalidInput && same_state(*old(board), *final(board))),
        caller@ == old(board).admin_id() && text_fits(payload@) ==> (r matches Ok(m) && {
            &&& m@ =~= (MemberView { id: old(board).next_member_id(), principal_id: payload@ })
            &&& !old(board).member_records().contains_key(m@.id)
            &&& final(board).member_records() == old(board).member_records().insert(m@.id, m@)
            &&& final(board).task_records() == old(board).task_records()
            &&& final(board).next_member_id() == old(board).next_member_id() + 1
            &&& final(board).next_task_id() == old(board).next_task_id()
            &&& final(board).member_id_history() == old(board).member_id_history().push(m@.id)
            &&& final(board).task_id_history() == old(board).task_id_history()
            &&& final(board).admin_id() == old(board).admin_id()
        }),
{
    if !_is_caller_admin(board, caller) {
        return Err(Error::NotAuthorized);
    }
    if payload.principal_id.as_str().as_bytes().len() > MAX_TEXT_BYTES {
        return Err(Error::InvalidInput { msg: "identity string is too long to store".to_string() });
    }
    let id = board.member_ids.next();
    let member = Member { id, principal_id: payload.principal_id };
    do_insert_member(board, &member);
    Ok(member)
}

/// Completes a task: only the exact assignee may complete it, completion is
/// one-way, and an expired task can no longer be completed. Checks run in
/// this order: existence, already-done, deadline, authorization.
pub fn complete_task(board: &mut Board, caller: &String, now: u64, id: u64) -> (r: Result<
    Task,
    Error,
>)
    requires
        old(board).wf(),
    ensures
        final(board).wf(),
        !old(board).task_records().contains_key(id) ==> (r matches Err(e) && e is TaskNotFound
            && same_state(*old(board), *final(board))),
        old(board).task_records().contains_key(id) && old(board).task_records()[id].is_done ==> (r matches Err(e) && e is TaskAlreadyDone && same_state(*old(board), *final(board))),
        old(board).task_records().contains_key(id) && !old(board).task_records()[id].is_done
            && task_expired(old(board).task_records()[id], now) ==> (r matches Err(e)
            && e is DeadlineAlreadyPassed && same_state(*old(board), *final(board))),
        old(board).task_records().contains_key(id) && !old(board).task_records()[id].is_done
            && !task_expired(old(board).task_records()[id], now) && caller@ != old(board).task_records()[id].assigned_to ==> (r matches Err(e) && e is NotAuthorized && same_state(
            *old(board),
            *final(board),
        )),
        old(board).task_records().contains_key(id) && !old(board).task_records()[id].is_done
            && !task_expired(old(board).task_records()[id], now) && caller@ == old(board).task_records()[id].assigned_to ==> (r matches Ok(t) && {
            &&& t@ =~= (TaskView { is_done: true, ..old(board).task_records()[id] })
            &&& final(board).task_records() == old(board).task_records().insert(id, t@)
            &&& final(board).member_records() == old(board).member_records()
            &&& final(board).next_task_id() == old(board).next_task_id()
            &&& final(board).next_member_id() == old(board).next_member_id()
            &&& final(board).task_id_history() == old(board).task_id_history()
            &&& final(board).member_id_history() == old(board).member_id_history()
            &&& final(board).admin_id() == old(board).admin_id()
        }),
{
    let found = board.tasks.get(id);
    match found {
        Option::None => Err(Error::TaskNotFound),
        Option::Some(task) => {
            if task.is_done {
                return Err(Error::TaskAlreadyDone);
            }
            let task_deadline = task.start_time + _hours_to_nanoseconds(task.deadline as u64);
            if task_deadline <= now {
                return Err(Error::DeadlineAlreadyPassed);
            }
            if !(task.assigned_to == *caller) {
                return Err(Error::NotAuthorized);
            }
            let done = Task {
                id: task.id,
                title: task.title,
                description: task.description,
                assigned_to: task.assigned_to,
                is_done: true,
                start_time: task.start_time,
                deadline: task.deadline,
                updated_at: task.updated_at,
            };
            do_insert(board, &done);
            Ok(done)
        },
    }
}

/// Replaces a task's submitted fields wholesale: admin-gated, the task must
/// exist, and a task whose current deadline has already elapsed can no
/// longer be updated. The completion flag and the start time are preserved;
/// the last-update time is set to `now`. Fields are re-checked against the
/// record-size bound only; update performs no minimum-length validation.
pub fn update_task(board: &mut Board, caller: &String, now: u64, id: u64, payload: TaskPayload)
    -> (r: Result<Task, Error>)
    requires
        old(board).wf(),
    ensures
        final(board).wf(),
        caller@ != old(board).admin_id() ==> (r matches Err(e) && e is NotAuthorized && same_state(
            *old(board),
            *final(board),
        )),
        caller@ == old(board).admin_id() && !old(board).task_records().contains_key(id) ==> (r matches Err(e) && e is NotFound && same_state(*old(board), *final(board))),
        caller@ == old(board).admin_id() && old(board).task_records().contains_key(id)
            && task_expired(old(board).task_records()[id], now) ==> (r matches Err(e)
            && e is DeadlineAlreadyPassed && same_state(*old(board), *final(board))),
        caller@ == old(board).admin_id() && old(board).task_records().contains_key(id)
            && !task_expired(old(board).task_records()[id], now) && !payload_fits(payload@) ==> (r matches Err(e) && e is InvalidInput && same_state(*old(board), *final(board))),
        caller@ == old(board).admin_id() && old(board).task_records().contains_key(id)
            && !task_expired(old(board).task_records()[id], now) && payload_fits(payload@) ==> (r matches Ok(t) && {
            &&& t@ =~= (TaskView {
                id,
                title: payload@.title,
                description: payload@.description,
                assigned_to: payload@.assigned_to,
                is_done: old(board).task_records()[id].is_done,
                start_time: old(board).task_records()[id].start_time,
                deadline: payload@.deadline,
                updated_at: Some(now),
            })
            &&& final(board).task_records() == old(board).task_records().insert(id, t@)
            &&& final(board).member_records() == old(board).member_records()
            &&& final(board).next_task_id() == old(board).next_task_id()
            &&& final(board).next_member_id() == old(board).next_member_id()
            &&& final(board).task_id_history() == old(board).task_id_history()
            &&& final(board).member_id_history() == old(board).member_id_history()
            &&& final(board).admin_id() == old(board).admin_id()
        }),
{
    if !_is_caller_admin(board, caller) {
        return Err(Error::NotAuthorized);
    }
    let found = board.tasks.get(id);
    match found {
        Option::None => Err(Error::NotFound { msg: "task not found".to_string() }),
        Option::Some(task) => {
            let task_deadline = task.start_time + _hours_to_nanoseconds(task.deadline as u64);
            if task_deadline <= now {
                return Err(Error::DeadlineAlreadyPassed);
            }
            if payload.title.as_str().as_bytes().len() > MAX_TEXT_BYTES
                || payload.description.as_str().as_bytes().len() > MAX_TEXT_BYTES
                || payload.assigned_to.as_str().as_bytes().len() > MAX_TEXT_BYTES {
                return Err(Error::InvalidInput { msg: "a field is too long to store".to_string() });
            }
            let updated = Task {
                id: task.id,
                title: payload.title,
                description: payload.description,
                assigned_to: payload.assigned_to,
                is_done: task.is_done,
                start_time: task.start_time,
                deadline: payload.deadline,
                updated_at: Some(now),
            };
            do_insert(board, &updated);
            Ok(updated)
        },
    }
}

/// Removes a task unconditionally, regardless of its state. The caller must
/// already be the administrator; no error is reported for a non-admin
/// caller.
pub fn delete_task(board: &mut Board, caller: &String, id: u64) -> (r: Result<Task, Error>)
    requires
        old(board).wf(),
        caller@ == old(board).admin_id(),
    ensures
        final(board).wf(),
        old(board).task_records().contains_key(id) ==> (r matches Ok(t) && t@ == old(board).task_records()[id] && final(board).task_records() == old(board).task_records().remove(id)
            && final(board).member_records() == old(board).member_records() && final(board).next_task_id() == old(board).next_task_id() && final(board).next_member_id() == old(board).next_member_id() && final(board).task_id_history() == old(board).task_id_history()
            && final(board).member_id_history() == old(board).member_id_history() && final(board).admin_id() == old(board).admin_id()),
        !old(board).task_records().contains_key(id) ==> (r matches Err(e) && e is NotFound
            && same_state(*old(board), *final(board))),
{
    match board.tasks.remove(id) {
        Option::Some(task) => Ok(task),
        Option::None => {
            proof {
                assert(board.tasks@ =~= old(board).tasks@);
            }
            Err(Error::NotFound { msg: "task not found".to_string() })
        },
    }
}

/// Replaces a member's identity string: admin-gated, the member must exist.
pub fn update_member(board: &mut Board, caller: &String, id: u64, payload: MemberPayload) -> (r:
    Result<Member, Error>)
    requires
        old(board).wf(),
    ensures
        final(board).wf(),
        caller@ != old(board).admin_id() ==> (r matches Err(e) && e is NotAuthorized && same_state(
            *old(board),
            *final(board),
        )),
        caller@ == old(board).admin_id() && !old(board).member_records().contains_key(id) ==> (r matches Err(e) && e is NotFound && same_state(*old(board), *final(board))),
        caller@ == old(board).admin_id() && old(board).member_records().contains_key(id)
            && !text_fits(payload@) ==> (r matches Err(e) && e is InvalidInput && same_state(
            *old(board),
            *final(board),
        )),
        caller@ == old(board).admin_id() && old(board).member_records().contains_key(id)
            && text_fits(payload@) ==> (r matches Ok(m) && {
            &&& m@ =~= (MemberView { id, principal_id: payload@ })
            &&& final(board).member_records() == old(board).member_records().insert(id, m@)
            &&& final(board).task_records() == old(board).task_records()
            &&& final(board).next_task_id() == old(board).next_task_id()
            &&& final(board).next_member_id() == old(board).next_member_id()
            &&& final(board).task_id_history() == old(board).task_id_history()
            &&& final(board).member_id_history() == old(board).member_id_history()
            &&& final(board).admin_id() == old(board).admin_id()
        }),
{
    if !_is_caller_admin(board, caller) {
        return Err(Error::NotAuthorized);
    }
    let found = board.members.get(id);
    match found {
        Option::None => Err(Error::NotFound { msg: "member not found".to_string() }),
        Option::Some(_existing) => {
            if payload.principal_id.as_str().as_bytes().len() > MAX_TEXT_BYTES {
                return Err(Error::InvalidInput { msg: "identity string is too long to store".to_string() });
            }
            let updated = Member { id, principal_id: payload.principal_id };
            do_insert_member(board, &updated);
            Ok(updated)
        },
    }
}

/// Removes a member: admin-gated. Tasks assigned to the member are left in
/// place; deletion does not cascade, so orphaned assignee references are
/// accepted.
pub fn delete_member(board: &mut Board, caller: &String, id: u64) -> (r: Result<Member, Error>)
    requires
        old(board).wf(),
    ensures
        final(board).wf(),
        caller@ != old(board).admin_id() ==> (r matches Err(e) && e is NotAuthorized && same_state(
            *old(board),
            *final(board),
        )),
        caller@ == old(board).admin_id() && old(board).member_records().contains_key(id) ==> (r matches Ok(m) && m@ == old(board).member_records()[id] && final(board).member_records() == old(board).member_records().remove(id) && final(board).task_records()
            == old(board).task_records() && final(board).next_task_id() == old(board).next_task_id() && final(board).next_member_id() == old(board).next_member_id() && final(board).task_id_history() == old(board).task_id_history() && final(board).member_id_history()
            == old(board).member_id_history() && final(board).admin_id() == old(board).admin_id()),
        caller@ == old(board).admin_id() && !old(board).member_records().contains_key(id) ==> (r matches Err(e) && e is NotFound && same_state(*old(board), *final(board))),
{
    if !_is_caller_admin(board, caller) {
        return Err(Error::NotAuthorized);
    }
    match board.members.remove(id) {
        Option::Some(member) => Ok(member),
        Option::None => {
            proof {
                assert(board.members@ =~= old(board).members@);
            }
            Err(Error::NotFound { msg: "member not found".to_string() })
        },
    }
}

/// Which text fields a filter pass compares against.
pub open spec fn filter_applies(by_assignee: bool, t: TaskView, query: Seq<char>) -> bool {
    if by_assignee {
        assignee_matches(t, query)
    } else {
        task_matches(t, query)
    }
}

/// One filtered pass over all tasks, in ascending identifier order.
#[verifier::rlimit(100)]
#[verifier::spinoff_prover]
fn filter_tasks(board: &Board, query: &String, by_assignee: bool) -> (out: Vec<Task>)
    requires
        board.wf(),
    ensures
        forall|i: int|
            0 <= i < out@.len() ==> board.task_records().contains_key((#[trigger] out@[i])@.id)
                && out@[i]@ == board.task_records()[out@[i]@.id] && filter_applies(
                by_assignee,
                out@[i]@,
                query@,
            ),
        forall|i: int, j: int| 0 <= i < j < out@.len() ==> out@[i]@.id < out@[j]@.id,
        forall|k: u64|
            #[trigger] board.task_records().contains_key(k) && filter_applies(
                by_assignee,
                board.task_records()[k],
                query@,
            ) ==> exists|i: int| 0 <= i < out@.len() && out@[i]@.id == k,
{
    let lowered_query = lowercase(query.as_str());
    let all = board.tasks.all();
    let mut out: Vec<Task> = Vec::new();
    let mut i: usize = 0;
    while i < all.len()
        invariant
            board.wf(),
            lowered_query@ == lower_of(query@),
            forall|x: int|
                0 <= x < all@.len() ==> board.task_records().contains_key(
                    (#[trigger] all@[x])@.id,
                ) && all@[x]@ == board.task_records()[all@[x]@.id],
            forall|x: int, y: int| 0 <= x < y < all@.len() ==> all@[x]@.id < all@[y]@.id,
            forall|k: u64| #[trigger]
                board.task_records().contains_key(k) ==> exists|x: int|
                    0 <= x < all@.len() && all@[x]@.id == k,
            0 <= i <= all@.len(),
            forall|x: int|
                0 <= x < out@.len() ==> board.task_records().contains_key(
                    (#[trigger] out@[x])@.id,
                ) && out@[x]@ == board.task_records()[out@[x]@.id] && filter_applies(
                    by_assignee,
                    out@[x]@,
                    query@,
                ),
            out@.len() > 0 ==> i > 0 && (forall|x: int|
                0 <= x < out@.len() ==> (#[trigger] out@[x])@.id <= all@[i - 1]@.id),
            forall|x: int, y: int| 0 <= x < y < out@.len() ==> out@[x]@.id < out@[y]@.id,
            forall|j: int|
                0 <= j < i && filter_applies(by_assignee, (#[trigger] all@[j])@, query@)
                    ==> exists|x: int| 0 <= x < out@.len() && out@[x]@.id == all@[j]@.id,
        decreases all@.len() - i,
    {
        let hit: bool = if by_assignee {
            matches_lowered(all[i].assigned_to.as_str(), lowered_query.as_str())
        } else {
            matches_lowered(all[i].title.as_str(), lowered_query.as_str()) || matches_lowered(
                all[i].description.as_str(),
                lowered_query.as_str(),
            )
        };
        proof {
            reveal(crate::text::text_matches);
            assert(hit == filter_applies(by_assignee, all@[i as int]@, query@));
        }
        let ghost pre = out@;
        proof {
            if i > 0 {
                assert(all@[i - 1]@.id < all@[i as int]@.id);
            }
            assert forall|x: int| 0 <= x < pre.len() implies (#[trigger] pre[x])@.id
                < all@[i as int]@.id by {
                assert(pre[x]@.id <= all@[i - 1]@.id);
            }
        }
        if hit {
            out.push(all[i].clone());
            proof {
                assert(out@.len() == pre.len() + 1);
                assert(out@[out@.len() - 1]@ == all@[i as int]@);
                assert(forall|x: int| 0 <= x < pre.len() ==> out@[x] == pre[x]);
            }
        }
        proof {
            assert forall|x: int| 0 <= x < out@.len() implies (#[trigger] out@[x])@.id
                <= all@[i as int]@.id by {
                if x < pre.len() {
                    assert(out@[x] == pre[x]);
                } else {
                    assert(out@[x]@ == all@[i as int]@);
                }
            }
            assert forall|x: int, y: int| 0 <= x < y < out@.len() implies out@[x]@.id
                < out@[y]@.id by {
                if y < pre.len() {
                    assert(pre[x]@.id < pre[y]@.id);
                } else {
                    assert(out@[x]@.id < all@[i as int]@.id);
                }
            }
        }
        i = i + 1;
    }
    proof {
        assert forall|k: u64|
            #[trigger] board.task_records().contains_key(k) && filter_applies(
                by_assignee,
                board.task_records()[k],
                query@,
            ) implies exists|x: int| 0 <= x < out@.len() && out@[x]@.id == k by {
            let j = choose|j: int| 0 <= j < all@.len() && all@[j]@.id == k;
            assert(all@[j]@ == board.task_records()[k]);
            assert(filter_applies(by_assignee, all@[j]@, query@));
        }
    }
    out
}

/// Lists every task, in ascending identifier order; an empty store reports
/// an error rather than an empty list.
pub fn get_all_tasks(board: &Board) -> (r: Result<Vec<Task>, Error>)
    requires
        board.wf(),
    ensures
        match r {
            Ok(v) => {
                &&& v@.len() > 0
                &&& v@.len() == board.task_records().dom().len()
                &&& forall|i: int|
                    0 <= i < v@.len() ==> board.task_records().contains_key(
                        (#[trigger] v@[i])@.id,
                    ) && v@[i]@ == board.task_records()[v@[i]@.id]
                &&& forall|i: int, j: int| 0 <= i < j < v@.len() ==> v@[i]@.id < v@[j]@.id
                &&& forall|k: u64| #[trigger]
                    board.task_records().contains_key(k) ==> exists|i: int|
                        0 <= i < v@.len() && v@[i]@.id == k
            },
            Err(e) => e is NotFound && board.task_records().dom().len() == 0,
        },
{
    let all = board.tasks.all();
    if all.len() == 0 {
        Err(Error::NotFound { msg: "no tasks found".to_string() })
    } else {
        Ok(all)
    }
}

/// Case-insensitive substring search against title or description; an empty
/// result reports an error rather than an empty list.
pub fn search_task(board: &Board, query: &String) -> (r: Result<Vec<Task>, Error>)
    requires
        board.wf(),
    ensures
        match r {
            Ok(v) => {
                &&& v@.len() > 0
                &&& forall|i: int|
                    0 <= i < v@.len() ==> board.task_records().contains_key(
                        (#[trigger] v@[i])@.id,
                    ) && v@[i]@ == board.task_records()[v@[i]@.id] && task_matches(v@[i]@, query@)
                &&& forall|i: int, j: int| 0 <= i < j < v@.len() ==> v@[i]@.id < v@[j]@.id
                &&& forall|k: u64|
                    #[trigger] board.task_records().contains_key(k) && task_matches(
                        board.task_records()[k],
                        query@,
                    ) ==> exists|i: int| 0 <= i < v@.len() && v@[i]@.id == k
            },
            Err(e) => e is NotFound && forall|k: u64| #[trigger]
                board.task_records().contains_key(k) ==> !task_matches(
                    board.task_records()[k],
                    query@,
                ),
        },
{
    let found = filter_tasks(board, query, false);
    if found.len() == 0 {
        proof {
            assert forall|k: u64| #[trigger] board.task_records().contains_key(k) implies
                !task_matches(board.task_records()[k], query@) by {
                if task_matches(board.task_records()[k], query@) {
                    assert(filter_applies(false, board.task_records()[k], query@));
                }
            }
        }
        Err(Error::NotFound { msg: "no matching tasks found".to_string() })
    } else {
        Ok(found)
    }
}

/// Case-insensitive substring match against the assignee field; an empty
/// result reports an error rather than an empty list.
pub fn get_tasks_by_member(board: &Board, member_principal: &String) -> (r: Result<
    Vec<Task>,
    Error,
>)
    requires
        board.wf(),
    ensures
        match r {
            Ok(v) => {
                &&& v@.len() > 0
                &&& forall|i: int|
                    0 <= i < v@.len() ==> board.task_records().contains_key(
                        (#[trigger] v@[i])@.id,
                    ) && v@[i]@ == board.task_records()[v@[i]@.id] && assignee_matches(
                        v@[i]@,
                        member_principal@,
                    )
                &&& forall|i: int, j: int| 0 <= i < j < v@.len() ==> v@[i]@.id < v@[j]@.id
                &&& forall|k: u64|
                    #[trigger] board.task_records().contains_key(k) && assignee_matches(
                        board.task_records()[k],
                        member_principal@,
                    ) ==> exists|i: int| 0 <= i < v@.len() && v@[i]@.id == k
            },
            Err(e) => e is NotFound && forall|k: u64| #[trigger]
                board.task_records().contains_key(k) ==> !assignee_matches(
                    board.task_records()[k],
                    member_principal@,
                ),
        },
{
    let found = filter_tasks(board, member_principal, true);
    if found.len() == 0 {
        proof {
            assert forall|k: u64| #[trigger] board.task_records().contains_key(k) implies
                !assignee_matches(board.task_records()[k], member_principal@) by {
                if assignee_matches(board.task_records()[k], member_principal@) {
                    assert(filter_applies(true, board.task_records()[k], member_principal@));
                }
            }
        }
        Err(Error::NotFound { msg: "no matching tasks for the member specified".to_string() })
    } else {
        Ok(found)
    }
}

/// Lists every member, in ascending identifier order; an empty store
/// reports an error rather than an empty list.
pub fn get_all_members(board: &Board) -> (r: Result<Vec<Member>, Error>)
    requires
        board.wf(),
    ensures
        match r {
            Ok(v) => {
                &&& v@.len() > 0
                &&& v@.len() == board.member_records().dom().len()
                &&& forall|i: int|
                    0 <= i < v@.len() ==> board.member_records().contains_key(
                        (#[trigger] v@[i])@.id,
                    ) && v@[i]@ == board.member_records()[v@[i]@.id]
                &&& forall|i: int, j: int| 0 <= i < j < v@.len() ==> v@[i]@.id < v@[j]@.id
                &&& forall|k: u64| #[trigger]
                    board.member_records().contains_key(k) ==> exists|i: int|
                        0 <= i < v@.len() && v@[i]@.id == k
            },
            Err(e) => e is NotFound && board.member_records().dom().len() == 0,
        },
{
    let all = board.members.all();
    if all.len() == 0 {
        Err(Error::NotFound { msg: "no members found".to_string() })
    } else {
        Ok(all)
    }
}

/// Identifier uniqueness: over all identifiers a board has allocated for
/// one entity kind, none repeats, and they strictly increase in allocation
/// order.
pub proof fn lemma_board_identifier_uniqueness(b: Board)
    requires
        b.wf(),
    ensures
        forall|i: int, j: int|
            0 <= i < j < b.task_id_history().len() ==> b.task_id_history()[i]
                < b.task_id_history()[j],
        forall|i: int, j: int|
            0 <= i < j < b.member_id_history().len() ==> b.member_id_history()[i]
                < b.member_id_history()[j],
{
    lemma_identifier_uniqueness(b.task_ids);
    lemma_identifier_uniqueness(b.member_ids);
}

/// Counter isolation: the task and member identifier sequences never
/// interleave or alias; after allocating any number of identifiers of each
/// kind, the task identifiers are exactly `0 .. n - 1` and the member
/// identifiers are exactly `0 .. m - 1`, independently.
pub proof fn lemma_board_counter_isolation(b: Board)
    requires
        b.wf(),
    ensures
        forall|i: int|
            0 <= i < b.task_id_history().len() ==> b.task_id_history()[i] as int == i,
        forall|i: int|
            0 <= i < b.member_id_history().len() ==> b.member_id_history()[i] as int == i,
{
    lemma_counter_isolation(b.task_ids, b.member_ids);
}

/// Round trip: after a task is stored under its identifier — as `put`
/// followed by `get` — looking that identifier up yields a record equal in
/// all fields to the one stored.
pub proof fn lemma_task_round_trip(pre: Board, post: Board, t: TaskView)
    requires
        post.task_records() == pre.task_records().insert(t.id, t),
    ensures
        post.task_records().contains_key(t.id),
        post.task_records()[t.id] == t,
{
}

/// Round trip for members: storing a member and looking its identifier up
/// yields a record equal in all fields to the one stored.
pub proof fn lemma_member_round_trip(pre: Board, post: Board, m: MemberView)
    requires
        post.member_records() == pre.member_records().insert(m.id, m),
    ensures
        post.member_records().contains_key(m.id),
        post.member_records()[m.id] == m,
{
}

/// Deletion finality: once a task's record is removed, its identifier no
/// longer resolves, so a subsequent lookup reports the record missing and a
/// second deletion finds nothing to remove.
pub proof fn lemma_deletion_finality(pre: Board, post: Board, id: u64)
    requires
        post.task_records() == pre.task_records().remove(id),
    ensures
        !post.task_records().contains_key(id),
{
}

} // verus!
