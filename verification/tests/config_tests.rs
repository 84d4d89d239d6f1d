use jiff::{civil, Zoned};
use task_tracker::config::{CliError, Command, CommandError, CommandKind, Config};
use task_tracker::task::{Status, Task};

fn tasks_example() -> Vec<Task> {
    let time = civil::date(2024, 2, 29)
        .at(12, 51, 0, 0)
        .in_tz("Asia/Manila")
        .unwrap();
    vec![
        Task {
            id: 1,
            desc: "take a break".to_string(),
            status: Status::Done,
            created_at: time.clone(),
            updated_at: time.clone(),
        },
        Task {
            id: 2,
            desc: "buy milk".to_string(),
            status: Status::InProgress,
            created_at: time.clone(),
            updated_at: time.clone(),
        },
        Task {
            id: 3,
            desc: "go home".to_string(),
            status: Status::ToDo,
            created_at: time.clone(),
            updated_at: time,
        },
    ]
}

fn get_new_time() -> Zoned {
    civil::date(2025, 12, 25)
        .at(11, 11, 11, 0)
        .in_tz("Asia/Manila")
        .unwrap()
}

#[test]
fn test_build() {
    let cases = vec![
        (
            vec!["task"],
            Ok(Config {
                command: Command::Help,
            }),
        ),
        (
            vec!["task", "add", "buy", "milk"],
            Ok(Config {
                command: Command::Add("buy milk".to_string()),
            }),
        ),
        (
            vec!["task", "add"],
            Err(CliError::MissingArgument(CommandKind::Add)),
        ),
        (
            vec!["task", "update", "1", "go", "home"],
            Ok(Config {
                command: Command::Update {
                    id: 1,
                    desc: "go home".to_string(),
                },
            }),
        ),
        (
            vec!["task", "update"],
            Err(CliError::MissingArgument(CommandKind::Update)),
        ),
        (
            vec!["task", "update", "1"],
            Err(CliError::MissingArgument(CommandKind::Update)),
        ),
        (
            vec!["task", "update", "one", "go", "home"],
            Err(CliError::InvalidId("one".to_string())),
        ),
        (
            vec!["task", "delete", "1"],
            Ok(Config {
                command: Command::Delete(1),
            }),
        ),
        (
            vec!["task", "delete"],
            Err(CliError::MissingArgument(CommandKind::Delete)),
        ),
        (
            vec!["task", "delete", "one"],
            Err(CliError::InvalidId("one".to_string())),
        ),
        (
            vec!["task", "mark-in-progress", "1"],
            Ok(Config {
                command: Command::MarkInProgress(1),
            }),
        ),
        (
            vec!["task", "mark-in-progress"],
            Err(CliError::MissingArgument(CommandKind::MarkInProgress)),
        ),
        (
            vec!["task", "mark-in-progress", "one"],
            Err(CliError::InvalidId("one".to_string())),
        ),
        (
            vec!["task", "mark-done", "1"],
            Ok(Config {
                command: Command::MarkDone(1),
            }),
        ),
        (
            vec!["task", "mark-done"],
            Err(CliError::MissingArgument(CommandKind::MarkDone)),
        ),
        (
            vec!["task", "mark-done", "one"],
            Err(CliError::InvalidId("one".to_string())),
        ),
        (
            vec!["task", "list"],
            Ok(Config {
                command: Command::List(None),
            }),
        ),
        (
            vec!["task", "list", "done"],
            Ok(Config {
                command: Command::List(Some(Status::Done)),
            }),
        ),
        (
            vec!["task", "list", "todo"],
            Ok(Config {
                command: Command::List(Some(Status::ToDo)),
            }),
        ),
        (
            vec!["task", "list", "in-progress"],
            Ok(Config {
                command: Command::List(Some(Status::InProgress)),
            }),
        ),
        (
            vec!["task", "list", "maybe"],
            Err(CliError::InvalidStatus("maybe".to_string())),
        ),
        (
            vec!["task", "discombobulate"],
            Err(CliError::UnknownCommand("discombobulate".to_string())),
        ),
    ];
    for (input_strs, expected) in cases {
        let input: Vec<String> = input_strs.into_iter().map(String::from).collect();
        let actual = Config::build(input);
        assert_eq!(actual, expected);
    }
}

#[test]
fn test_add_task() {
    let mut tasks = tasks_example();
    let desc = "example".to_string();
    let new_time = get_new_time();
    let expected = vec![
        tasks[0].clone(),
        tasks[1].clone(),
        tasks[2].clone(),
        Task {
            id: 4,
            desc: desc.clone(),
            status: Status::ToDo,
            created_at: new_time.clone(),
            updated_at: new_time.clone(),
        },
    ];

    Command::add_task(&mut tasks, desc, new_time);
    assert_eq!(
        tasks, expected,
        "The task list should contain the original tasks plus the newly added one at the end"
    );
}

#[test]
fn test_update_task() {
    let mut tasks = tasks_example();
    let new_desc = "example".to_string();
    let new_time = get_new_time();
    let expected = vec![
        tasks[0].clone(),
        Task {
            id: tasks[1].id,
            desc: new_desc.clone(),
            status: tasks[1].status.clone(),
            created_at: tasks[1].created_at.clone(),
            updated_at: new_time.clone(),
        },
        tasks[2].clone(),
    ];

    let err = Command::update_task(&mut tasks, 999, new_desc.clone(), new_time.clone());
    assert_eq!(
        err,
        Err(CommandError::NotFound(999)),
        "Should return NotFound for non-existent ID"
    );
    assert_eq!(
        tasks,
        tasks_example(),
        "Task list should remain unchanged after a failed update"
    );

    let ok = Command::update_task(&mut tasks, 2, new_desc, new_time);

    assert!(ok.is_ok(), "Update should return Ok for a valid ID");
    assert_eq!(
        tasks, expected,
        "Task 2 should have updated description/timestamp while Task 1 remains untouched"
    );
}

#[test]
fn test_delete_task() {
    let mut tasks = tasks_example();
    let expected = vec![tasks[1].clone(), tasks[2].clone()];

    let err = Command::delete_task(&mut tasks, 999);
    assert_eq!(
        err,
        Err(CommandError::NotFound(999)),
        "Should fail when deleting non-existent ID"
    );
    assert_eq!(
        tasks,
        tasks_example(),
        "Should not change tasks when delete errs"
    );

    let ok = Command::delete_task(&mut tasks, 1);
    assert!(ok.is_ok(), "Should successfully delete ID 1");
    assert_eq!(
        tasks, expected,
        "Task 1 should have deleted from the list while Task 2 remains untouched"
    );
}

#[test]
fn test_mark_task() {
    let mut tasks = tasks_example();
    let new_time = get_new_time();
    let expected = vec![
        Task {
            id: tasks[0].id,
            desc: tasks[0].desc.clone(),
            status: Status::ToDo,
            created_at: tasks[0].created_at.clone(),
            updated_at: new_time.clone(),
        },
        Task {
            id: tasks[1].id,
            desc: tasks[1].desc.clone(),
            status: Status::Done,
            created_at: tasks[1].created_at.clone(),
            updated_at: new_time.clone(),
        },
        Task {
            id: tasks[2].id,
            desc: tasks[2].desc.clone(),
            status: Status::InProgress,
            created_at: tasks[2].created_at.clone(),
            updated_at: new_time.clone(),
        },
    ];

    let err = Command::mark_task(&mut tasks, 999, Status::Done, new_time.clone());
    assert_eq!(
        err,
        Err(CommandError::NotFound(999)),
        "Should return NotFound for non-existent ID"
    );
    assert_eq!(
        tasks,
        tasks_example(),
        "Task list should remain unchanged after a failed status update"
    );

    let todo_ok = Command::mark_task(&mut tasks, 1, Status::ToDo, new_time.clone());
    let done_ok = Command::mark_task(&mut tasks, 2, Status::Done, new_time.clone());
    let in_progress_ok = Command::mark_task(&mut tasks, 3, Status::InProgress, new_time);

    assert!(
        todo_ok.is_ok(),
        "Mark Status ToDo should return Ok for a valid ID"
    );
    assert!(
        done_ok.is_ok(),
        "Mark Status Done should return Ok for a valid ID"
    );
    assert!(
        in_progress_ok.is_ok(),
        "Mark Status InProgress should return Ok for a valid ID"
    );
    assert_eq!(
        tasks, expected,
        "Task 1 should be ToDo, Task 2 should be Done, and Task3 should be InProgress with fresh timestamps"
    );
}

#[test]
fn test_list_task() {
    let tasks = tasks_example();

    let empty_list = Command::list_tasks(vec![], None);
    assert!(
        empty_list.is_empty(),
        "Shoudl return empty for an empty input"
    );

    let all_list = Command::list_tasks(tasks.clone(), None);
    assert_eq!(
        all_list,
        tasks.clone(),
        "Should return all tasks when given no status"
    );

    let done_list = Command::list_tasks(tasks.clone(), Some(Status::Done));
    let expected_done_list = vec![Task {
        id: tasks[0].id,
        desc: tasks[0].desc.clone(),
        status: tasks[0].status.clone(),
        created_at: tasks[0].created_at.clone(),
        updated_at: tasks[0].updated_at.clone(),
    }];
    assert_eq!(
        done_list, expected_done_list,
        "Should only return tasks with Done status"
    );

    let in_progress_list = Command::list_tasks(tasks.clone(), Some(Status::InProgress));
    let expected_in_progress_list = vec![Task {
        id: tasks[1].id,
        desc: tasks[1].desc.clone(),
        status: tasks[1].status.clone(),
        created_at: tasks[1].created_at.clone(),
        updated_at: tasks[1].updated_at.clone(),
    }];
    assert_eq!(
        in_progress_list, expected_in_progress_list,
        "Should only return tasks with InProgress status"
    );

    let todo_list = Command::list_tasks(tasks.clone(), Some(Status::ToDo));
    let expected_todo_list = vec![Task {
        id: tasks[2].id,
        desc: tasks[2].desc.clone(),
        status: tasks[2].status.clone(),
        created_at: tasks[2].created_at.clone(),
        updated_at: tasks[2].updated_at.clone(),
    }];
    assert_eq!(
        todo_list, expected_todo_list,
        "Should only return tasks with ToDo status"
    );

    let not_found_list = Command::list_tasks(todo_list, Some(Status::Done));
    assert!(
        not_found_list.is_empty(),
        "Should return empty when no tasks with given status is found"
    )
}

#[test]
fn test_find_task() {
    let mut tasks = tasks_example();

    let found = Command::find_task(&mut tasks, 1);
    assert!(found.is_ok(), "Task with ID 1 should be found");
    assert_eq!(found.unwrap().id, 1);

    let not_found = Command::find_task(&mut tasks, 999);
    assert_eq!(
        not_found.err(),
        Some(CommandError::NotFound(999)),
        "Should return NotFound for ID 999"
    );
}
