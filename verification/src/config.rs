use vstd::prelude::*;
use vstd::std_specs::convert::TryFromSpecImpl;

use jiff::Zoned;

use crate::task::{minute_stamp, minute_text, status_label, status_of_key, Status, Task};
use crate::text::{decimal, push_decimal, chars_of, parse_u32, parse_u32_spec, push_char, string_of, text_eq};

verus! {

/// The commands that the first argument names.
#[derive(Debug, Clone, Copy, PartialEq, Eq, Structural)]
pub enum CommandKind {
    Help,
    Add,
    Update,
    Delete,
    MarkInProgress,
    MarkDone,
    List,
}

/// Why the command line could not be turned into a command.
#[derive(Debug, PartialEq)]
pub enum CliError {
    UnknownCommand(String),
    MissingArgument(CommandKind),
    InvalidId(String),
    InvalidStatus(String),
}

/// `CliError` with its texts taken as character sequences.
pub enum CliErrorModel {
    UnknownCommand(Seq<char>),
    MissingArgument(CommandKind),
    InvalidId(Seq<char>),
    InvalidStatus(Seq<char>),
}

impl View for CliError {
    type V = CliErrorModel;

    open spec fn view(&self) -> CliErrorModel {
        match self {
            CliError::UnknownCommand(s) => CliErrorModel::UnknownCommand(s@),
            CliError::MissingArgument(k) => CliErrorModel::MissingArgument(*k),
            CliError::InvalidId(s) => CliErrorModel::InvalidId(s@),
            CliError::InvalidStatus(s) => CliErrorModel::InvalidStatus(s@),
        }
    }
}

/// The command that a first argument names, if any; the empty argument asks for help.
pub open spec fn command_kind_of(s: Seq<char>) -> Option<CommandKind> {
    if s == Seq::<char>::empty() {
        Some(CommandKind::Help)
    } else if s == "add"@ {
        Some(CommandKind::Add)
    } else if s == "update"@ {
        Some(CommandKind::Update)
    } else if s == "delete"@ {
        Some(CommandKind::Delete)
    } else if s == "mark-in-progress"@ {
        Some(CommandKind::MarkInProgress)
    } else if s == "mark-done"@ {
        Some(CommandKind::MarkDone)
    } else if s == "list"@ {
        Some(CommandKind::List)
    } else {
        None
    }
}

impl CommandKind {
    /// The command that `value` names; the empty string asks for help.
    pub fn from_name(value: &str) -> (res: Result<CommandKind, CliError>)
        ensures
            match res {
                Ok(k) => command_kind_of(value@) == Some(k),
                Err(e) => command_kind_of(value@) is None && e@ == CliErrorModel::UnknownCommand(
                    value@,
                ),
            },
    {
        if value.is_empty() {
            assert(value@ =~= Seq::<char>::empty());
            Ok(CommandKind::Help)
        } else if text_eq(value, "add") {
            Ok(CommandKind::Add)
        } else if text_eq(value, "update") {
            Ok(CommandKind::Update)
        } else if text_eq(value, "delete") {
            Ok(CommandKind::Delete)
        } else if text_eq(value, "mark-in-progress") {
            Ok(CommandKind::MarkInProgress)
        } else if text_eq(value, "mark-done") {
            Ok(CommandKind::MarkDone)
        } else if text_eq(value, "list") {
            Ok(CommandKind::List)
        } else {
            Err(CliError::UnknownCommand(string_of(value)))
        }
    }
}

impl<'a> TryFrom<&'a str> for CommandKind {
    type Error = CliError;

    fn try_from(value: &'a str) -> (res: Result<CommandKind, CliError>)
        ensures
            match res {
                Ok(k) => command_kind_of(value@) == Some(k),
                Err(e) => command_kind_of(value@) is None && e@ == CliErrorModel::UnknownCommand(
                    value@,
                ),
            },
    {
        CommandKind::from_name(value)
    }
}

impl<'a> TryFromSpecImpl<&'a str> for CommandKind {
    /// The conversion's result is stated by the `ensures` of `try_from` above,
    /// over the views of the error texts, so the generic law is not claimed.
    open spec fn obeys_try_from_spec() -> bool {
        false
    }

    open spec fn try_from_spec(v: &'a str) -> Result<CommandKind, CliError> {
        arbitrary()
    }
}

/// A request that the command line makes.
#[derive(Debug, PartialEq)]
pub enum Command {
    Help,
    Add(String),
    Update { id: u32, desc: String },
    Delete(u32),
    MarkInProgress(u32),
    MarkDone(u32),
    List(Option<Status>),
}

/// `Command` with its texts taken as character sequences.
pub enum CommandModel {
    Help,
    Add(Seq<char>),
    Update { id: u32, desc: Seq<char> },
    Delete(u32),
    MarkInProgress(u32),
    MarkDone(u32),
    List(Option<Status>),
}

impl View for Command {
    type V = CommandModel;

    open spec fn view(&self) -> CommandModel {
        match self {
            Command::Help => CommandModel::Help,
            Command::Add(d) => CommandModel::Add(d@),
            Command::Update { id, desc } => CommandModel::Update { id: *id, desc: desc@ },
            Command::Delete(id) => CommandModel::Delete(*id),
            Command::MarkInProgress(id) => CommandModel::MarkInProgress(*id),
            Command::MarkDone(id) => CommandModel::MarkDone(*id),
            Command::List(s) => CommandModel::List(*s),
        }
    }
}

/// A command that failed on the task list.
#[derive(Debug, PartialEq, Eq, Structural)]
pub enum CommandError {
    NotFound(u32),
}

/// The id that a new task receives: one more than the id of the last task, or 1.
pub open spec fn next_task_id(tasks: Seq<Task>) -> int {
    if tasks.len() == 0 {
        1
    } else {
        tasks.last().id + 1
    }
}

/// Whether some task of the list has the given id.
pub open spec fn has_id(tasks: Seq<Task>, id: u32) -> bool {
    exists|i: int| 0 <= i < tasks.len() && #[trigger] tasks[i].id == id
}

/// Whether `i` is the position of the first task with the given id.
pub open spec fn is_first_with_id(tasks: Seq<Task>, id: u32, i: int) -> bool {
    &&& 0 <= i < tasks.len()
    &&& tasks[i].id == id
    &&& forall|j: int| 0 <= j < i ==> #[trigger] tasks[j].id != id
}

/// Keeps the tasks whose id differs from `id`.
pub open spec fn id_differs(id: u32) -> spec_fn(Task) -> bool {
    |t: Task| t.id != id
}

/// Keeps the tasks that a listing with the given filter shows.
pub open spec fn shown_by(status: Option<Status>) -> spec_fn(Task) -> bool {
    |t: Task|
        match status {
            Some(s) => t.status == s,
            None => true,
        }
}

/// The task with a new description and a new update time.
pub open spec fn with_desc(t: Task, desc: String, time: Zoned) -> Task {
    Task { id: t.id, desc: desc, status: t.status, created_at: t.created_at, updated_at: time }
}

/// The task with a new status and a new update time.
pub open spec fn with_status(t: Task, status: Status, time: Zoned) -> Task {
    Task { id: t.id, desc: t.desc, status: status, created_at: t.created_at, updated_at: time }
}

/// Filtering one more element of a prefix keeps it exactly when the predicate holds.
pub proof fn lemma_filter_take_step<A>(s: Seq<A>, keep: spec_fn(A) -> bool, i: int)
    requires
        0 <= i < s.len(),
    ensures
        s.take(i + 1).filter(keep) == if keep(s[i]) {
            s.take(i).filter(keep).push(s[i])
        } else {
            s.take(i).filter(keep)
        },
{
    reveal(Seq::filter);
    assert(s.take(i + 1).drop_last() == s.take(i));
}

/// A listing without a status filter shows every task, in order.
pub proof fn lemma_list_all(tasks: Seq<Task>)
    ensures
        tasks.filter(shown_by(None)) == tasks,
    decreases tasks.len(),
{
    reveal(Seq::filter);
    if tasks.len() > 0 {
        lemma_list_all(tasks.drop_last());
        assert(tasks.drop_last().push(tasks.last()) =~= tasks);
    }
}

/// After a deletion no task has the deleted id, so looking the id up again fails.
pub proof fn lemma_deleted_id_absent(tasks: Seq<Task>, id: u32)
    ensures
        !has_id(tasks.filter(id_differs(id)), id),
{
    let kept = tasks.filter(id_differs(id));
    broadcast use vstd::seq_lib::group_filter_ensures;
    assert forall|i: int| 0 <= i < kept.len() implies #[trigger] kept[i].id != id by {
        assert(id_differs(id)(kept[i]));
    }
}

/// Whether the ids increase strictly along the list, so that no id occurs twice.
pub open spec fn ids_increasing(tasks: Seq<Task>) -> bool {
    forall|i: int, j: int| 0 <= i < j < tasks.len() ==> #[trigger] tasks[i].id < #[trigger] tasks[j].id
}

/// Adding a task with the next id keeps the ids increasing.
pub proof fn lemma_add_keeps_ids_increasing(tasks: Seq<Task>, t: Task)
    requires
        ids_increasing(tasks),
        t.id == next_task_id(tasks),
    ensures
        ids_increasing(tasks.push(t)),
{
    let s = tasks.push(t);
    assert forall|i: int, j: int| 0 <= i < j < s.len() implies #[trigger] s[i].id < #[trigger] s[j].id by {
        if j == tasks.len() {
            if i < tasks.len() - 1 {
                assert(tasks[i].id < tasks[tasks.len() - 1].id);
            }
        } else {
            assert(tasks[i].id < tasks[j].id);
        }
    }
}

/// Giving a task a new description or status, its id unchanged, keeps the ids increasing.
pub proof fn lemma_change_keeps_ids_increasing(tasks: Seq<Task>, i: int, t: Task)
    requires
        ids_increasing(tasks),
        0 <= i < tasks.len(),
        t.id == tasks[i].id,
    ensures
        ids_increasing(tasks.update(i, t)),
{
    let s = tasks.update(i, t);
    assert forall|a: int, b: int| 0 <= a < b < s.len() implies #[trigger] s[a].id < #[trigger] s[b].id by {
        assert(s[a].id == tasks[a].id && s[b].id == tasks[b].id);
        assert(tasks[a].id < tasks[b].id);
    }
}

/// Deleting the tasks with an id keeps the ids of the others increasing.
pub proof fn lemma_delete_keeps_ids_increasing(tasks: Seq<Task>, id: u32)
    requires
        ids_increasing(tasks),
    ensures
        ids_increasing(tasks.filter(id_differs(id))),
    decreases tasks.len(),
{
    reveal(Seq::filter);
    if tasks.len() > 0 {
        let init = tasks.drop_last();
        let last = tasks.last();
        assert(ids_increasing(init)) by {
            assert forall|i: int, j: int| 0 <= i < j < init.len() implies #[trigger] init[i].id
                < #[trigger] init[j].id by {
                assert(tasks[i].id < tasks[j].id);
            }
        }
        lemma_delete_keeps_ids_increasing(init, id);
        let kept = init.filter(id_differs(id));
        if id_differs(id)(last) {
            let s = kept.push(last);
            assert forall|i: int, j: int| 0 <= i < j < s.len() implies #[trigger] s[i].id
                < #[trigger] s[j].id by {
                if j == kept.len() {
                    assert(kept.contains(kept[i]));
                    init.lemma_filter_contains_rev(id_differs(id), kept[i]);
                    let k = choose|k: int| 0 <= k < init.len() && init[k] == kept[i];
                    assert(tasks[k].id < tasks[tasks.len() - 1].id);
                } else {
                    assert(kept[i].id < kept[j].id);
                }
            }
        }
    }
}

/// A new task's id is one more than the id of the last task of the list, or 1 for an empty
/// list, whatever the tasks' statuses.
pub proof fn lemma_next_id_follows_last(tasks: Seq<Task>)
    ensures
        tasks.len() == 0 ==> next_task_id(tasks) == 1,
        tasks.len() > 0 ==> next_task_id(tasks) == tasks.last().id + 1,
{
}

/// Adding a task appends one to-do task, created and updated at `now`, with the given
/// description and the id after the last one; the tasks before it stay as they were.
pub proof fn lemma_add_appends_next(tasks: Seq<Task>, desc: String, now: Zoned)
    requires
        tasks.len() > 0 ==> tasks.last().id < u32::MAX,
    ensures
        ({
            let added = tasks.push(
                Task {
                    id: next_task_id(tasks) as u32,
                    desc: desc,
                    status: Status::ToDo,
                    created_at: now,
                    updated_at: now,
                },
            );
            &&& added.len() == tasks.len() + 1
            &&& added.drop_last() == tasks
            &&& added.last().id == (if tasks.len() == 0 {
                1
            } else {
                tasks.last().id + 1
            })
            &&& added.last().desc == desc
            &&& added.last().status == Status::ToDo
            &&& added.last().created_at == now
            &&& added.last().updated_at == now
        }),
{
    let added = tasks.push(
        Task {
            id: next_task_id(tasks) as u32,
            desc: desc,
            status: Status::ToDo,
            created_at: now,
            updated_at: now,
        },
    );
    assert(added.drop_last() =~= tasks);
}

/// Giving the task at position `i` a new description sets its description and update time
/// and keeps its id, status and creation time; every other task stays as it was.
pub proof fn lemma_update_sets_desc(tasks: Seq<Task>, i: int, desc: String, time: Zoned)
    requires
        0 <= i < tasks.len(),
    ensures
        ({
            let changed = tasks.update(i, with_desc(tasks[i], desc, time));
            &&& changed.len() == tasks.len()
            &&& changed[i].desc == desc
            &&& changed[i].updated_at == time
            &&& changed[i].id == tasks[i].id
            &&& changed[i].status == tasks[i].status
            &&& changed[i].created_at == tasks[i].created_at
            &&& forall|j: int| 0 <= j < tasks.len() && j != i ==> changed[j] == tasks[j]
        }),
{
}

/// Marking the task at position `i` with a status sets its status and update time and keeps
/// its id, description and creation time, whatever its status was; every other task stays as
/// it was.
pub proof fn lemma_mark_sets_status(tasks: Seq<Task>, i: int, status: Status, time: Zoned)
    requires
        0 <= i < tasks.len(),
    ensures
        ({
            let changed = tasks.update(i, with_status(tasks[i], status, time));
            &&& changed.len() == tasks.len()
            &&& changed[i].status == status
            &&& changed[i].updated_at == time
            &&& changed[i].id == tasks[i].id
            &&& changed[i].desc == tasks[i].desc
            &&& changed[i].created_at == tasks[i].created_at
            &&& forall|j: int| 0 <= j < tasks.len() && j != i ==> changed[j] == tasks[j]
        }),
{
}

/// Deleting an id keeps exactly the tasks with another id: each of them is still in the list,
/// and every task left has another id and was in the list before.
pub proof fn lemma_delete_keeps_other_ids(tasks: Seq<Task>, id: u32)
    ensures
        forall|k: int|
            0 <= k < tasks.len() && tasks[k].id != id ==> tasks.filter(id_differs(id)).contains(
                #[trigger] tasks[k],
            ),
        forall|t: Task|
            #[trigger] tasks.filter(id_differs(id)).contains(t) ==> t.id != id && tasks.contains(t),
{
    assert forall|k: int| 0 <= k < tasks.len() && tasks[k].id != id implies tasks.filter(
        id_differs(id),
    ).contains(#[trigger] tasks[k]) by {
        tasks.lemma_filter_contains(id_differs(id), k);
    }
    assert forall|t: Task| #[trigger] tasks.filter(id_differs(id)).contains(t) implies t.id != id
        && tasks.contains(t) by {
        let f = tasks.filter(id_differs(id));
        let k = choose|k: int| 0 <= k < f.len() && f[k] == t;
        tasks.lemma_filter_pred(id_differs(id), k);
        tasks.lemma_filter_contains_rev(id_differs(id), t);
    }
}

/// Filtering keeps a list whole when the predicate holds of all its items.
proof fn lemma_filter_keeps_all(s: Seq<Task>, keep: spec_fn(Task) -> bool)
    requires
        forall|k: int| 0 <= k < s.len() ==> keep(#[trigger] s[k]),
    ensures
        s.filter(keep) == s,
    decreases s.len(),
{
    reveal(Seq::filter);
    if s.len() > 0 {
        lemma_filter_keeps_all(s.drop_last(), keep);
        assert(keep(s[s.len() - 1]));
        assert(s.drop_last().push(s.last()) =~= s);
    }
}

/// Where ids increase along the list, deleting the id of the task at position `i` removes that
/// task and no other.
pub proof fn lemma_delete_removes_one(tasks: Seq<Task>, i: int)
    requires
        ids_increasing(tasks),
        0 <= i < tasks.len(),
    ensures
        tasks.filter(id_differs(tasks[i].id)) == tasks.remove(i),
    decreases tasks.len(),
{
    reveal(Seq::filter);
    let id = tasks[i].id;
    let init = tasks.drop_last();
    let n = tasks.len() - 1;
    assert(ids_increasing(init)) by {
        assert forall|a: int, b: int| 0 <= a < b < init.len() implies #[trigger] init[a].id
            < #[trigger] init[b].id by {
            assert(tasks[a].id < tasks[b].id);
        }
    }
    if i == n {
        assert forall|k: int| 0 <= k < init.len() implies id_differs(id)(#[trigger] init[k]) by {
            assert(tasks[k].id < tasks[n].id);
        }
        lemma_filter_keeps_all(init, id_differs(id));
        assert(tasks.remove(i) =~= init);
    } else {
        assert(init[i] == tasks[i]);
        lemma_delete_removes_one(init, i);
        assert(tasks[i].id < tasks[n].id);
        assert(id_differs(id)(tasks.last()));
        assert(tasks.remove(i) =~= init.remove(i).push(tasks.last()));
    }
}

/// Position of the first task with the given id.
fn position_of(tasks: &Vec<Task>, id: u32) -> (res: Option<usize>)
    ensures
        match res {
            Some(i) => is_first_with_id(tasks@, id, i as int),
            None => !has_id(tasks@, id),
        },
{
    let mut i: usize = 0;
    while i < tasks.len()
        invariant
            0 <= i <= tasks.len(),
            forall|j: int| 0 <= j < i ==> #[trigger] tasks@[j].id != id,
        decreases tasks.len() - i,
    {
        if tasks[i].id == id {
            return Some(i);
        }
        i = i + 1;
    }
    None
}

/// Removes, in place, every task whose id is `id`, keeping the order of the others.
fn retain_other_ids(tasks: &mut Vec<Task>, id: u32)
    ensures
        final(tasks)@ == old(tasks)@.filter(id_differs(id)),
{
    let ghost orig = tasks@;
    let ghost keep = id_differs(id);
    let mut i: usize = 0;
    let ghost mut k: int = 0;
    while i < tasks.len()
        invariant
            0 <= k <= orig.len(),
            keep == id_differs(id),
            i == orig.take(k).filter(keep).len(),
            tasks@ == orig.take(k).filter(keep) + orig.skip(k),
        decreases tasks.len() - i,
    {
        proof {
            assert(orig.take(k + 1).drop_last() == orig.take(k));
            assert(tasks@[i as int] == orig[k]);
            assert(orig.skip(k) == seq![orig[k]] + orig.skip(k + 1));
        }
        if tasks[i].id == id {
            tasks.remove(i);
        } else {
            i = i + 1;
        }
        proof {
            lemma_filter_take_step(orig, keep, k);
            let f = orig.take(k).filter(keep);
            if keep(orig[k]) {
                assert(tasks@ =~= f.push(orig[k]) + orig.skip(k + 1));
            } else {
                assert(tasks@ =~= f + orig.skip(k + 1));
            }
            k = k + 1;
        }
    }
    proof {
        assert(orig.take(k) == orig);
    }
}

/// Keeps, in place and in order, only the tasks that the status filter shows.
fn retain_shown(tasks: &mut Vec<Task>, status: Option<Status>)
    ensures
        final(tasks)@ == old(tasks)@.filter(shown_by(status)),
{
    let ghost orig = tasks@;
    let ghost keep = shown_by(status);
    let mut i: usize = 0;
    let ghost mut k: int = 0;
    while i < tasks.len()
        invariant
            0 <= k <= orig.len(),
            keep == shown_by(status),
            i == orig.take(k).filter(keep).len(),
            tasks@ == orig.take(k).filter(keep) + orig.skip(k),
        decreases tasks.len() - i,
    {
        proof {
            assert(orig.take(k + 1).drop_last() == orig.take(k));
            assert(tasks@[i as int] == orig[k]);
            assert(orig.skip(k) == seq![orig[k]] + orig.skip(k + 1));
        }
        let shown = match status {
            Some(s) => tasks[i].status == s,
            None => true,
        };
        if shown {
            i = i + 1;
        } else {
            tasks.remove(i);
        }
        proof {
            lemma_filter_take_step(orig, keep, k);
            let f = orig.take(k).filter(keep);
            if keep(orig[k]) {
                assert(tasks@ =~= f.push(orig[k]) + orig.skip(k + 1));
            } else {
                assert(tasks@ =~= f + orig.skip(k + 1));
            }
            k = k + 1;
        }
    }
    proof {
        assert(orig.take(k) == orig);
    }
}

impl Command {
    /// Appends a new to-do task with the next id, created and updated at `now`,
    /// and returns its id.
    pub fn add_task(tasks: &mut Vec<Task>, desc: String, now: Zoned) -> (id: u32)
        requires
            old(tasks)@.len() > 0 ==> old(tasks)@.last().id < u32::MAX,
        ensures
            id == next_task_id(old(tasks)@),
            final(tasks)@ == old(tasks)@.push(
                Task {
                    id: id,
                    desc: desc,
                    status: Status::ToDo,
                    created_at: now,
                    updated_at: now,
                },
            ),
    {
        let id = if tasks.len() > 0 {
            tasks[tasks.len() - 1].id + 1
        } else {
            1
        };
        let created_at = now.clone();
        tasks.push(
            Task { id, desc, status: Status::ToDo, created_at, updated_at: now },
        );
        id
    }

    /// The first task with the given id, to be changed in place.
    pub fn find_task(tasks: &mut Vec<Task>, id: u32) -> (res: Result<&mut Task, CommandError>)
        ensures
            match res {
                Ok(t) => exists|i: int|
                    is_first_with_id(old(tasks)@, id, i) && *t == old(tasks)@[i]
                        && final(tasks)@ == old(tasks)@.update(i, *final(t)),
                Err(e) => e == CommandError::NotFound(id) && !has_id(old(tasks)@, id)
                    && final(tasks)@ == old(tasks)@,
            },
    {
        match position_of(tasks, id) {
            Some(i) => Ok(&mut tasks[i]),
            None => Err(CommandError::NotFound(id)),
        }
    }

    /// Gives the first task with the given id a new description and update time.
    pub fn update_task(tasks: &mut Vec<Task>, id: u32, new_desc: String, time: Zoned) -> (res:
        Result<(), CommandError>)
        ensures
            match res {
                Ok(()) => exists|i: int|
                    is_first_with_id(old(tasks)@, id, i) && final(tasks)@ == old(tasks)@.update(
                        i,
                        with_desc(old(tasks)@[i], new_desc, time),
                    ),
                Err(e) => e == CommandError::NotFound(id) && !has_id(old(tasks)@, id)
                    && final(tasks)@ == old(tasks)@,
            },
    {
        let task = Self::find_task(tasks, id)?;
        task.desc = new_desc;
        task.updated_at = time;
        Ok(())
    }

    /// Gives the first task with the given id a new status and update time.
    pub fn mark_task(tasks: &mut Vec<Task>, id: u32, status: Status, time: Zoned) -> (res: Result<
        (),
        CommandError,
    >)
        ensures
            match res {
                Ok(()) => exists|i: int|
                    is_first_with_id(old(tasks)@, id, i) && final(tasks)@ == old(tasks)@.update(
                        i,
                        with_status(old(tasks)@[i], status, time),
                    ),
                Err(e) => e == CommandError::NotFound(id) && !has_id(old(tasks)@, id)
                    && final(tasks)@ == old(tasks)@,
            },
    {
        let task = Self::find_task(tasks, id)?;
        task.status = status;
        task.updated_at = time;
        Ok(())
    }

    /// Removes every task with the given id; fails, changing nothing, when there is none.
    pub fn delete_task(tasks: &mut Vec<Task>, id: u32) -> (res: Result<(), CommandError>)
        ensures
            match res {
                Ok(()) => has_id(old(tasks)@, id) && final(tasks)@ == old(tasks)@.filter(
                    id_differs(id),
                ),
                Err(e) => e == CommandError::NotFound(id) && !has_id(old(tasks)@, id)
                    && final(tasks)@ == old(tasks)@,
            },
    {
        if position_of(tasks, id).is_none() {
            return Err(CommandError::NotFound(id));
        }
        retain_other_ids(tasks, id);
        Ok(())
    }

    /// The tasks that a listing shows: all of them, or those with the given status, in order.
    pub fn list_tasks(tasks: Vec<Task>, status: Option<Status>) -> (res: Vec<Task>)
        ensures
            res@ == tasks@.filter(shown_by(status)),
    {
        let mut tasks = tasks;
        retain_shown(&mut tasks, status);
        tasks
    }
}

/// The parsed command line.
#[derive(Debug, PartialEq)]
pub struct Config {
    pub command: Command,
}

/// The arguments taken as character sequences.
pub open spec fn arg_views(args: Seq<String>) -> Seq<Seq<char>> {
    args.map_values(|a: String| a@)
}

/// The arguments from position `n` on (none when there are fewer).
pub open spec fn args_from(args: Seq<Seq<char>>, n: int) -> Seq<Seq<char>> {
    if n <= args.len() {
        args.skip(n)
    } else {
        Seq::empty()
    }
}

/// Words joined with single spaces.
pub open spec fn join_words(ws: Seq<Seq<char>>) -> Seq<char>
    decreases ws.len(),
{
    if ws.len() == 0 {
        Seq::empty()
    } else if ws.len() == 1 {
        ws[0]
    } else {
        join_words(ws.drop_last()) + seq![' '] + ws.last()
    }
}

/// The description that the remaining arguments give: all of them, joined with spaces.
pub open spec fn desc_from(rest: Seq<Seq<char>>, kind: CommandKind) -> Result<
    Seq<char>,
    CliErrorModel,
> {
    if rest.len() == 0 {
        Err(CliErrorModel::MissingArgument(kind))
    } else {
        Ok(join_words(rest))
    }
}

/// The id that the next argument gives.
pub open spec fn id_from(rest: Seq<Seq<char>>, kind: CommandKind) -> Result<u32, CliErrorModel> {
    if rest.len() == 0 {
        Err(CliErrorModel::MissingArgument(kind))
    } else {
        match parse_u32_spec(rest[0]) {
            Some(n) => Ok(n),
            None => Err(CliErrorModel::InvalidId(rest[0])),
        }
    }
}

/// The command that takes an id as its only argument.
pub open spec fn id_command(kind: CommandKind, id: u32) -> CommandModel {
    match kind {
        CommandKind::Delete => CommandModel::Delete(id),
        CommandKind::MarkInProgress => CommandModel::MarkInProgress(id),
        _ => CommandModel::MarkDone(id),
    }
}

/// What the command line `args` (the program name first) asks for.
pub open spec fn build_result(args: Seq<Seq<char>>) -> Result<CommandModel, CliErrorModel> {
    let cmd = if args.len() > 1 {
        args[1]
    } else {
        Seq::empty()
    };
    let rest = args_from(args, 2);
    match command_kind_of(cmd) {
        None => Err(CliErrorModel::UnknownCommand(cmd)),
        Some(CommandKind::Help) => Ok(CommandModel::Help),
        Some(CommandKind::Add) => match desc_from(rest, CommandKind::Add) {
            Ok(d) => Ok(CommandModel::Add(d)),
            Err(e) => Err(e),
        },
        Some(CommandKind::Update) => match id_from(rest, CommandKind::Update) {
            Err(e) => Err(e),
            Ok(id) => match desc_from(rest.skip(1), CommandKind::Update) {
                Ok(d) => Ok(CommandModel::Update { id, desc: d }),
                Err(e) => Err(e),
            },
        },
        Some(CommandKind::List) => if rest.len() == 0 {
            Ok(CommandModel::List(None))
        } else {
            match status_of_key(rest[0]) {
                Some(s) => Ok(CommandModel::List(Some(s))),
                None => Err(CliErrorModel::InvalidStatus(rest[0])),
            }
        },
        Some(k) => match id_from(rest, k) {
            Ok(id) => Ok(id_command(k, id)),
            Err(e) => Err(e),
        },
    }
}

impl Config {
    /// Reads the command line: the program name, a command, then its arguments.
    pub fn build(args: Vec<String>) -> (res: Result<Config, CliError>)
        ensures
            match res {
                Ok(c) => build_result(arg_views(args@)) == Ok::<CommandModel, CliErrorModel>(
                    c.command@,
                ),
                Err(e) => build_result(arg_views(args@)) == Err::<CommandModel, CliErrorModel>(
                    e@,
                ),
            },
    {
        let ghost a = arg_views(args@);
        let kind = if args.len() > 1 {
            CommandKind::from_name(args[1].as_str())?
        } else {
            assert(command_kind_of(Seq::<char>::empty()) == Some(CommandKind::Help));
            CommandKind::Help
        };
        let rest: usize = if args.len() >= 2 {
            2
        } else {
            args.len()
        };
        assert(args_from(a, 2) == a.skip(rest as int));
        match kind {
            CommandKind::Help => Ok(Config { command: Command::Help }),
            CommandKind::Add => {
                let desc = Self::next_desc(&args, rest, kind)?;
                Ok(Config { command: Command::Add(desc) })
            },
            CommandKind::Update => {
                let id = Self::next_id(&args, rest, kind)?;
                assert(a.skip(rest as int).skip(1) == a.skip(rest + 1));
                let desc = Self::next_desc(&args, rest + 1, kind)?;
                Ok(Config { command: Command::Update { id, desc } })
            },
            CommandKind::Delete => {
                let id = Self::next_id(&args, rest, kind)?;
                Ok(Config { command: Command::Delete(id) })
            },
            CommandKind::MarkInProgress => {
                let id = Self::next_id(&args, rest, kind)?;
                Ok(Config { command: Command::MarkInProgress(id) })
            },
            CommandKind::MarkDone => {
                let id = Self::next_id(&args, rest, kind)?;
                Ok(Config { command: Command::MarkDone(id) })
            },
            CommandKind::List => {
                if rest < args.len() {
                    let status = Status::from_key(args[rest].as_str())?;
                    Ok(Config { command: Command::List(Some(status)) })
                } else {
                    Ok(Config { command: Command::List(None) })
                }
            },
        }
    }

    /// The arguments from position `from` on, joined with single spaces; fails when there are none.
    pub fn next_desc(args: &Vec<String>, from: usize, kind: CommandKind) -> (res: Result<
        String,
        CliError,
    >)
        requires
            from <= args.len(),
        ensures
            match res {
                Ok(d) => desc_from(arg_views(args@).skip(from as int), kind) == Ok::<
                    Seq<char>,
                    CliErrorModel,
                >(d@),
                Err(e) => desc_from(arg_views(args@).skip(from as int), kind) == Err::<
                    Seq<char>,
                    CliErrorModel,
                >(e@),
            },
    {
        let ghost rest = arg_views(args@).skip(from as int);
        if from >= args.len() {
            return Err(CliError::MissingArgument(kind));
        }
        let mut desc = string_of(args[from].as_str());
        let mut i: usize = from + 1;
        assert(rest.take(1) =~= seq![rest[0]]);
        while i < args.len()
            invariant
                from < i <= args.len(),
                rest == arg_views(args@).skip(from as int),
                desc@ == join_words(rest.take(i - from)),
            decreases args.len() - i,
        {
            proof {
                assert(rest.take(i - from + 1).drop_last() == rest.take(i - from));
                assert(rest.take(i - from + 1).last() == args@[i as int]@);
            }
            push_char(&mut desc, ' ');
            desc.append(args[i].as_str());
            i = i + 1;
        }
        assert(rest.take(i - from) == rest);
        Ok(desc)
    }

    /// The argument at position `from` read as an id.
    pub fn next_id(args: &Vec<String>, from: usize, kind: CommandKind) -> (res: Result<
        u32,
        CliError,
    >)
        requires
            from <= args.len(),
        ensures
            match res {
                Ok(n) => id_from(arg_views(args@).skip(from as int), kind) == Ok::<
                    u32,
                    CliErrorModel,
                >(n),
                Err(e) => id_from(arg_views(args@).skip(from as int), kind) == Err::<
                    u32,
                    CliErrorModel,
                >(e@),
            },
    {
        if from >= args.len() {
            return Err(CliError::MissingArgument(kind));
        }
        let digits = chars_of(args[from].as_str());
        match parse_u32(&digits) {
            Some(n) => Ok(n),
            None => Err(CliError::InvalidId(string_of(args[from].as_str()))),
        }
    }
}

/// The usage line of a command.
pub open spec fn usage_text(k: CommandKind) -> Seq<char> {
    match k {
        CommandKind::Help => Seq::empty(),
        CommandKind::Add => "add <DESC>....          Create a new task"@,
        CommandKind::Update => "update <ID> <DESC>....  Change task description"@,
        CommandKind::Delete => "delete <ID>             Delete task"@,
        CommandKind::MarkInProgress => "mark-in-progress <ID>   Mark task status as in-progress"@,
        CommandKind::MarkDone => "mark-done <ID>          Mark task status as done"@,
        CommandKind::List => "list [STATUS]           List tasks (todo | done | in-progress)"@,
    }
}

/// The usage text that lists every command, one per line.
pub open spec fn all_usage_text() -> Seq<char> {
    "\nUsage: task-tracker [OPTIONS]\n\nOptions:\n"@ + usage_text(CommandKind::Add) + "\n"@
        + usage_text(CommandKind::Update) + "\n"@ + usage_text(CommandKind::Delete) + "\n"@
        + usage_text(CommandKind::MarkInProgress) + "\n"@ + usage_text(CommandKind::MarkDone)
        + "\n"@ + usage_text(CommandKind::List)
}

/// The message that reports a command-line error.
pub open spec fn cli_error_text(e: CliErrorModel) -> Seq<char> {
    match e {
        CliErrorModel::UnknownCommand(s) => "Error: "@ + s + " is not a command.\n"@
            + all_usage_text(),
        CliErrorModel::MissingArgument(k) => "Error: There are missing arguments.\n\nUsage: "@
            + usage_text(k),
        CliErrorModel::InvalidId(s) => "Error: "@ + s + " is not a valid id."@,
        CliErrorModel::InvalidStatus(s) => "Error: "@ + s + " is not a valid status\n\nUsage: "@
            + usage_text(CommandKind::List),
    }
}

/// The message that reports a failed command.
pub open spec fn command_error_text(e: CommandError) -> Seq<char> {
    match e {
        CommandError::NotFound(id) => "Error: Task with ID "@ + decimal(id as nat) + " not found"@,
    }
}

impl CommandKind {
    /// The usage line of the command.
    pub fn usage(&self) -> (res: &'static str)
        ensures
            res@ == usage_text(*self),
    {
        match self {
            CommandKind::Help => {
                proof {
                    reveal_strlit("");
                }
                ""
            },
            CommandKind::Add => "add <DESC>....          Create a new task",
            CommandKind::Update => "update <ID> <DESC>....  Change task description",
            CommandKind::Delete => "delete <ID>             Delete task",
            CommandKind::MarkInProgress => "mark-in-progress <ID>   Mark task status as in-progress",
            CommandKind::MarkDone => "mark-done <ID>          Mark task status as done",
            CommandKind::List => "list [STATUS]           List tasks (todo | done | in-progress)",
        }
    }
}

/// The usage text that lists every command.
pub fn show_all_usage() -> (res: String)
    ensures
        res@ == all_usage_text(),
{
    let mut s = string_of("\nUsage: task-tracker [OPTIONS]\n\nOptions:\n");
    s.append(CommandKind::Add.usage());
    s.append("\n");
    s.append(CommandKind::Update.usage());
    s.append("\n");
    s.append(CommandKind::Delete.usage());
    s.append("\n");
    s.append(CommandKind::MarkInProgress.usage());
    s.append("\n");
    s.append(CommandKind::MarkDone.usage());
    s.append("\n");
    s.append(CommandKind::List.usage());
    s
}

impl CliError {
    /// The message shown for the error.
    pub fn message(&self) -> (res: String)
        ensures
            res@ == cli_error_text(self@),
    {
        match self {
            CliError::UnknownCommand(s) => {
                let mut m = string_of("Error: ");
                m.append(s.as_str());
                m.append(" is not a command.\n");
                let usage = show_all_usage();
                m.append(usage.as_str());
                m
            },
            CliError::MissingArgument(k) => {
                let mut m = string_of("Error: There are missing arguments.\n\nUsage: ");
                m.append(k.usage());
                m
            },
            CliError::InvalidId(s) => {
                let mut m = string_of("Error: ");
                m.append(s.as_str());
                m.append(" is not a valid id.");
                m
            },
            CliError::InvalidStatus(s) => {
                let mut m = string_of("Error: ");
                m.append(s.as_str());
                m.append(" is not a valid status\n\nUsage: ");
                m.append(CommandKind::List.usage());
                m
            },
        }
    }
}

impl CommandError {
    /// The message shown for the error.
    pub fn message(&self) -> (res: String)
        ensures
            res@ == command_error_text(*self),
    {
        match self {
            CommandError::NotFound(id) => {
                let mut m = string_of("Error: Task with ID ");
                push_decimal(&mut m, *id);
                m.append(" not found");
                m
            },
        }
    }
}

/// One line of a listing: the creation minute, the id and the description, and the
/// status when the listing shows every status.
pub open spec fn task_line(t: Task, with_status: bool) -> Seq<char> {
    "["@ + minute_stamp(t.created_at) + "] "@ + decimal(t.id as nat) + ": "@ + t.desc@ + (
    if with_status {
        " ("@ + status_label(t.status) + ")"@
    } else {
        Seq::empty()
    }) + "\n"@
}

/// The lines of the listed tasks, in order.
pub open spec fn task_lines(ts: Seq<Task>, with_status: bool) -> Seq<char>
    decreases ts.len(),
{
    if ts.len() == 0 {
        Seq::empty()
    } else {
        task_lines(ts.drop_last(), with_status) + task_line(ts.last(), with_status)
    }
}

/// What a listing prints for the tasks it shows.
pub open spec fn listing_text(shown: Seq<Task>, status: Option<Status>) -> Seq<char> {
    if shown.len() == 0 {
        match status {
            Some(s) => "No Tasks with Status "@ + status_label(s) + " found\n"@,
            None => "No Tasks found\n"@,
        }
    } else {
        match status {
            Some(s) => "--- Tasks with Status: "@ + status_label(s) + " ---\n"@ + task_lines(
                shown,
                false,
            ),
            None => "--- All Tasks ---\n"@ + task_lines(shown, true),
        }
    }
}

/// Appends the listing line of one task.
fn push_task_line(out: &mut String, t: &Task, with_status: bool)
    ensures
        final(out)@ == old(out)@ + task_line(*t, with_status),
{
    let stamp = minute_text(&t.created_at);
    out.append("[");
    out.append(stamp.as_str());
    out.append("] ");
    push_decimal(out, t.id);
    out.append(": ");
    out.append(t.desc.as_str());
    if with_status {
        out.append(" (");
        out.append(t.status.display_name());
        out.append(")");
    }
    out.append("\n");
    assert(out@ =~= old(out)@ + task_line(*t, with_status));
}

impl Command {
    /// What listing the tasks prints: a heading and one line per shown task, or a notice
    /// that no task is shown.
    pub fn listing(tasks: &Vec<Task>, status: Option<Status>) -> (res: String)
        ensures
            res@ == listing_text(tasks@.filter(shown_by(status)), status),
    {
        let ghost keep = shown_by(status);
        let with_status = status.is_none();
        let mut body = String::new();
        let mut shown: usize = 0;
        let mut i: usize = 0;
        while i < tasks.len()
            invariant
                0 <= i <= tasks.len(),
                keep == shown_by(status),
                with_status == status.is_none(),
                shown == tasks@.take(i as int).filter(keep).len(),
                body@ == task_lines(tasks@.take(i as int).filter(keep), with_status),
            decreases tasks.len() - i,
        {
            proof {
                lemma_filter_take_step(tasks@, keep, i as int);
            }
            let t = &tasks[i];
            let show = match status {
                Some(s) => t.status == s,
                None => true,
            };
            if show {
                push_task_line(&mut body, t, with_status);
                proof {
                    let f = tasks@.take(i as int).filter(keep);
                    assert(f.push(tasks@[i as int]).drop_last() == f);
                }
                shown = shown + 1;
            }
            i = i + 1;
        }
        assert(tasks@.take(i as int) == tasks@);
        let mut out = String::new();
        if shown == 0 {
            match status {
                Some(s) => {
                    out.append("No Tasks with Status ");
                    out.append(s.display_name());
                    out.append(" found\n");
                },
                None => {
                    out.append("No Tasks found\n");
                },
            }
        } else {
            match status {
                Some(s) => {
                    out.append("--- Tasks with Status: ");
                    out.append(s.display_name());
                    out.append(" ---\n");
                },
                None => {
                    out.append("--- All Tasks ---\n");
                },
            }
            out.append(body.as_str());
        }
        assert(out@ =~= listing_text(tasks@.filter(keep), status));
        out
    }
}

/// A listing with a status filter shows the tasks with that status; one without shows all.
pub proof fn lemma_shown_by_status(t: Task, status: Status)
    ensures
        shown_by(None)(t),
        shown_by(Some(status))(t) <==> t.status == status,
{
}

/// An unfiltered listing of one task is the heading and one line that gives, in this order,
/// the task's creation minute in brackets, its id, its description and its status; listing one
/// more task adds its line after the lines of the others.
pub proof fn lemma_listing_all_lines(shown: Seq<Task>, t: Task)
    ensures
        listing_text(seq![t], None) == "--- All Tasks ---\n"@ + "["@ + minute_stamp(t.created_at) + "] "@
            + decimal(t.id as nat) + ": "@ + t.desc@ + " ("@ + status_label(t.status) + ")\n"@,
        shown.len() > 0 ==> listing_text(shown.push(t), None) == listing_text(shown, None) + "["@
            + minute_stamp(t.created_at) + "] "@ + decimal(t.id as nat) + ": "@ + t.desc@ + " ("@
            + status_label(t.status) + ")\n"@,
{
    reveal_strlit(")");
    reveal_strlit("\n");
    reveal_strlit(")\n");
    assert(")"@ + "\n"@ =~= ")\n"@);
    assert(seq![t].drop_last() =~= Seq::<Task>::empty());
    let one = seq![t];
    assert(one.last() == t);
    assert(one.len() == 1);
    assert(task_lines(one.drop_last(), true) == Seq::<char>::empty());
    assert(task_lines(one.drop_last(), false) == Seq::<char>::empty());
    assert(task_lines(one, true) =~= task_line(t, true));
    assert(task_lines(one, false) =~= task_line(t, false));
    assert(shown.push(t).drop_last() =~= shown);
    assert(listing_text(seq![t], None) =~= "--- All Tasks ---\n"@ + "["@ + minute_stamp(t.created_at)
        + "] "@ + decimal(t.id as nat) + ": "@ + t.desc@ + " ("@ + status_label(t.status) + ")\n"@);
    if shown.len() > 0 {
        assert(listing_text(shown.push(t), None) =~= listing_text(shown, None) + "["@ + minute_stamp(
            t.created_at,
        ) + "] "@ + decimal(t.id as nat) + ": "@ + t.desc@ + " ("@ + status_label(t.status)
            + ")\n"@);
    }
}

/// A listing filtered by a status, of one task, is the heading that names the status and one
/// line that gives the task's creation minute in brackets, its id and its description; listing
/// one more task adds its line after the lines of the others.
pub proof fn lemma_listing_filtered_lines(shown: Seq<Task>, t: Task, status: Status)
    ensures
        listing_text(seq![t], Some(status)) == "--- Tasks with Status: "@ + status_label(status)
            + " ---\n"@ + "["@ + minute_stamp(t.created_at) + "] "@ + decimal(t.id as nat) + ": "@
            + t.desc@ + "\n"@,
        shown.len() > 0 ==> listing_text(shown.push(t), Some(status)) == listing_text(
            shown,
            Some(status),
        ) + "["@ + minute_stamp(t.created_at) + "] "@ + decimal(t.id as nat) + ": "@ + t.desc@
            + "\n"@,
{
    assert(seq![t].drop_last() =~= Seq::<Task>::empty());
    let one = seq![t];
    assert(one.last() == t);
    assert(one.len() == 1);
    assert(task_lines(one.drop_last(), true) == Seq::<char>::empty());
    assert(task_lines(one.drop_last(), false) == Seq::<char>::empty());
    assert(task_lines(one, true) =~= task_line(t, true));
    assert(task_lines(one, false) =~= task_line(t, false));
    assert(shown.push(t).drop_last() =~= shown);
    assert(listing_text(seq![t], Some(status)) =~= "--- Tasks with Status: "@ + status_label(status)
        + " ---\n"@ + "["@ + minute_stamp(t.created_at) + "] "@ + decimal(t.id as nat) + ": "@
        + t.desc@ + "\n"@);
    if shown.len() > 0 {
        assert(listing_text(shown.push(t), Some(status)) =~= listing_text(shown, Some(status)) + "["@
            + minute_stamp(t.created_at) + "] "@ + decimal(t.id as nat) + ": "@ + t.desc@ + "\n"@);
    }
}

proof fn lemma_lines_ignore_update_time(ts: Seq<Task>, i: int, time: Zoned, with_status: bool)
    requires
        0 <= i < ts.len(),
    ensures
        task_lines(
            ts.update(
                i,
                Task {
                    id: ts[i].id,
                    desc: ts[i].desc,
                    status: ts[i].status,
                    created_at: ts[i].created_at,
                    updated_at: time,
                },
            ),
            with_status,
        ) == task_lines(ts, with_status),
    decreases ts.len(),
{
    let t = Task {
        id: ts[i].id,
        desc: ts[i].desc,
        status: ts[i].status,
        created_at: ts[i].created_at,
        updated_at: time,
    };
    let u = ts.update(i, t);
    if i == ts.len() - 1 {
        assert(u.drop_last() =~= ts.drop_last());
    } else {
        lemma_lines_ignore_update_time(ts.drop_last(), i, time, with_status);
        assert(u.drop_last() =~= ts.drop_last().update(i, t));
    }
}

/// A listing does not depend on when the listed tasks were last changed: giving a shown task
/// another update time, as updating or marking it does, leaves the listing as it was.
pub proof fn lemma_listing_ignores_update_time(
    shown: Seq<Task>,
    i: int,
    time: Zoned,
    status: Option<Status>,
)
    requires
        0 <= i < shown.len(),
    ensures
        listing_text(
            shown.update(
                i,
                Task {
                    id: shown[i].id,
                    desc: shown[i].desc,
                    status: shown[i].status,
                    created_at: shown[i].created_at,
                    updated_at: time,
                },
            ),
            status,
        ) == listing_text(shown, status),
{
    lemma_lines_ignore_update_time(shown, i, time, true);
    lemma_lines_ignore_update_time(shown, i, time, false);
}

/// What asking for help prints.
pub open spec fn help_text() -> Seq<char> {
    "Manages your tasks\n"@ + all_usage_text() + "\n"@
}

/// What a command that changed a task prints on success.
pub open spec fn done_text(c: CommandModel, id: u32) -> Seq<char> {
    match c {
        CommandModel::Add(_) => "Task added successfully (ID: "@ + decimal(id as nat) + ")\n"@,
        CommandModel::Update { .. } => "Task "@ + decimal(id as nat) + " updated successfully.\n"@,
        CommandModel::Delete(_) => "Task "@ + decimal(id as nat) + " deleted successfully.\n"@,
        CommandModel::MarkInProgress(_) => "Task "@ + decimal(id as nat) + " marked as "@
            + status_label(Status::InProgress) + ".\n"@,
        _ => "Task "@ + decimal(id as nat) + " marked as "@ + status_label(Status::Done) + ".\n"@,
    }
}

/// The outcome of a command that changes the task with the given id.
pub open spec fn changed_one(
    old_tasks: Seq<Task>,
    new_tasks: Seq<Task>,
    id: u32,
    changed: spec_fn(Task) -> Task,
    res: Result<String, CommandError>,
    message: Seq<char>,
) -> bool {
    match res {
        Ok(m) => m@ == message && exists|i: int|
            is_first_with_id(old_tasks, id, i) && new_tasks == old_tasks.update(
                i,
                changed(old_tasks[i]),
            ),
        Err(e) => e == CommandError::NotFound(id) && !has_id(old_tasks, id) && new_tasks
            == old_tasks,
    }
}

impl Command {
    /// Runs the command on the task list, with `now` as the time of any change, and returns
    /// what it prints on success.
    pub fn run(self, tasks: &mut Vec<Task>, now: Zoned) -> (res: Result<String, CommandError>)
        requires
            self is Add ==> (old(tasks)@.len() > 0 ==> old(tasks)@.last().id < u32::MAX),
        ensures
            match self {
                Command::Help => {
                    &&& final(tasks)@ == old(tasks)@
                    &&& res matches Ok(m) && m@ == help_text()
                },
                Command::Add(d) => {
                    let id = next_task_id(old(tasks)@) as u32;
                    &&& res matches Ok(m) && m@ == done_text(self@, id)
                    &&& final(tasks)@ == old(tasks)@.push(
                        Task {
                            id: id,
                            desc: d,
                            status: Status::ToDo,
                            created_at: now,
                            updated_at: now,
                        },
                    )
                },
                Command::Update { id, desc } => changed_one(
                    old(tasks)@,
                    final(tasks)@,
                    id,
                    |t: Task| with_desc(t, desc, now),
                    res,
                    done_text(self@, id),
                ),
                Command::Delete(id) => match res {
                    Ok(m) => m@ == done_text(self@, id) && has_id(old(tasks)@, id) && final(tasks)@ == old(tasks)@.filter(id_differs(id)),
                    Err(e) => e == CommandError::NotFound(id) && !has_id(old(tasks)@, id)
                        && final(tasks)@ == old(tasks)@,
                },
                Command::MarkInProgress(id) => changed_one(
                    old(tasks)@,
                    final(tasks)@,
                    id,
                    |t: Task| with_status(t, Status::InProgress, now),
                    res,
                    done_text(self@, id),
                ),
                Command::MarkDone(id) => changed_one(
                    old(tasks)@,
                    final(tasks)@,
                    id,
                    |t: Task| with_status(t, Status::Done, now),
                    res,
                    done_text(self@, id),
                ),
                Command::List(status) => {
                    &&& final(tasks)@ == old(tasks)@
                    &&& res matches Ok(m) && m@ == listing_text(
                        old(tasks)@.filter(shown_by(status)),
                        status,
                    )
                },
            },
    {
        match self {
            Command::Help => {
                let mut m = string_of("Manages your tasks\n");
                let usage = show_all_usage();
                m.append(usage.as_str());
                m.append("\n");
                Ok(m)
            },
            Command::Add(desc) => {
                let id = Self::add_task(tasks, desc, now);
                let mut m = string_of("Task added successfully (ID: ");
                push_decimal(&mut m, id);
                m.append(")\n");
                Ok(m)
            },
            Command::Update { id, desc } => {
                Self::update_task(tasks, id, desc, now)?;
                let mut m = string_of("Task ");
                push_decimal(&mut m, id);
                m.append(" updated successfully.\n");
                Ok(m)
            },
            Command::Delete(id) => {
                Self::delete_task(tasks, id)?;
                let mut m = string_of("Task ");
                push_decimal(&mut m, id);
                m.append(" deleted successfully.\n");
                Ok(m)
            },
            Command::MarkInProgress(id) => {
                Self::mark_task(tasks, id, Status::InProgress, now)?;
                let mut m = string_of("Task ");
                push_decimal(&mut m, id);
                m.append(" marked as ");
                m.append(Status::InProgress.display_name());
                m.append(".\n");
                Ok(m)
            },
            Command::MarkDone(id) => {
                Self::mark_task(tasks, id, Status::Done, now)?;
                let mut m = string_of("Task ");
                push_decimal(&mut m, id);
                m.append(" marked as ");
                m.append(Status::Done.display_name());
                m.append(".\n");
                Ok(m)
            },
            Command::List(status) => Ok(Self::listing(tasks, status)),
        }
    }
}

} // verus!