use jiff::{civil, Zoned};
use task_tracker::config::{show_all_usage, CliError, Command, CommandError, CommandKind, Config};
use task_tracker::persistence::{
    find_json_value, json_is_readable, read_json, records_to_json, scan_records, tasks_from_times,
    tasks_to_json, FileError, TaskRecord,
};
use task_tracker::task::{Status, Task};
use task_tracker::text::{chars_of, parse_u32, push_decimal};

fn manila(y: i16, mo: i8, d: i8, h: i8, mi: i8, s: i8, ns: i32) -> Zoned {
    civil::date(y, mo, d)
        .at(h, mi, s, ns)
        .in_tz("Asia/Manila")
        .unwrap()
}

fn task(id: u32, desc: &str, status: Status) -> Task {
    let t = manila(2024, 2, 29, 12, 51, 0, 0);
    Task {
        id,
        desc: desc.to_string(),
        status,
        created_at: t.clone(),
        updated_at: t,
    }
}

fn args(words: &[&str]) -> Vec<String> {
    words.iter().map(|w| w.to_string()).collect()
}

const ALL_USAGE: &str = "\nUsage: task-tracker [OPTIONS]\n\nOptions:\nadd <DESC>....          Create a new task\nupdate <ID> <DESC>....  Change task description\ndelete <ID>             Delete task\nmark-in-progress <ID>   Mark task status as in-progress\nmark-done <ID>          Mark task status as done\nlist [STATUS]           List tasks (todo | done | in-progress)";

#[test]
fn usage_text_lists_every_command() {
    assert_eq!(show_all_usage(), ALL_USAGE);
    assert_eq!(CommandKind::Help.usage(), "");
    assert_eq!(
        CommandKind::List.usage(),
        "list [STATUS]           List tasks (todo | done | in-progress)"
    );
}

#[test]
fn cli_error_messages() {
    assert_eq!(
        CliError::UnknownCommand("mark-todo".to_string()).message(),
        format!("Error: mark-todo is not a command.\n{}", ALL_USAGE)
    );
    assert_eq!(
        CliError::MissingArgument(CommandKind::Add).message(),
        "Error: There are missing arguments.\n\nUsage: add <DESC>....          Create a new task"
    );
    assert_eq!(
        CliError::InvalidId("jump".to_string()).message(),
        "Error: jump is not a valid id."
    );
    assert_eq!(
        CliError::InvalidStatus("all".to_string()).message(),
        "Error: all is not a valid status\n\nUsage: list [STATUS]           List tasks (todo | done | in-progress)"
    );
}

#[test]
fn command_and_file_error_messages() {
    assert_eq!(
        CommandError::NotFound(6).message(),
        "Error: Task with ID 6 not found"
    );
    assert_eq!(
        CommandError::NotFound(u32::MAX).message(),
        "Error: Task with ID 4294967295 not found"
    );
    assert_eq!(
        FileError::InvalidTask.message(),
        "Error: Inavlid Task found in json file"
    );
    assert_eq!(
        FileError::MissingTasks.message(),
        "Error: Tasks array is missing from json file"
    );
}

#[test]
fn ids_parse_like_std() {
    for text in ["0", "7", "+7", "007", "4294967295", "", "+", "-1", "4294967296", "1x", " 1"] {
        let expected = text.parse::<u32>().ok();
        assert_eq!(parse_u32(&chars_of(text)), expected, "parsing {:?}", text);
    }
    let mut s = String::from("id ");
    push_decimal(&mut s, 0);
    assert_eq!(s, "id 0");
}

#[test]
fn build_edge_cases() {
    assert_eq!(
        Config::build(args(&["task", "delete", "+7"])),
        Ok(Config { command: Command::Delete(7) })
    );
    assert_eq!(
        Config::build(args(&["task", "mark-done", "4294967296"])),
        Err(CliError::InvalidId("4294967296".to_string()))
    );
    assert_eq!(
        Config::build(args(&["task", "add", "a", "", "b"])),
        Ok(Config { command: Command::Add("a  b".to_string()) })
    );
    assert_eq!(
        Config::build(args(&["task", "list", "done", "extra"])),
        Ok(Config { command: Command::List(Some(Status::Done)) })
    );
    assert_eq!(Config::build(vec![]), Ok(Config { command: Command::Help }));
    assert_eq!(
        Config::build(args(&["task", "", "ignored"])),
        Ok(Config { command: Command::Help })
    );
}

#[test]
fn status_keys_read_back() {
    for s in [Status::Done, Status::ToDo, Status::InProgress] {
        assert_eq!(Status::try_from(s.as_str()), Ok(s));
        assert_eq!(Status::from_key(s.as_str()), Ok(s));
    }
    assert_eq!(Status::Done.display_name(), "Done");
    assert_eq!(Status::ToDo.display_name(), "Todo");
    assert_eq!(Status::InProgress.display_name(), "In-Progress");
    assert_eq!(
        Status::try_from("Done"),
        Err(CliError::InvalidStatus("Done".to_string()))
    );
    assert_eq!(CommandKind::try_from("list"), Ok(CommandKind::List));
    assert_eq!(CommandKind::from_name(""), Ok(CommandKind::Help));
}

#[test]
fn add_to_empty_list_starts_at_one() {
    let mut tasks = Vec::new();
    let now = manila(2025, 1, 1, 0, 0, 0, 0);
    let id = Command::add_task(&mut tasks, "first".to_string(), now.clone());
    assert_eq!(id, 1);
    let id = Command::add_task(&mut tasks, "second".to_string(), now);
    assert_eq!(id, 2);
    assert_eq!(tasks[1].status, Status::ToDo);
}

#[test]
fn delete_removes_every_task_with_the_id() {
    let mut tasks = vec![
        task(1, "a", Status::ToDo),
        task(2, "b", Status::ToDo),
        task(1, "c", Status::Done),
    ];
    assert_eq!(Command::delete_task(&mut tasks, 1), Ok(()));
    assert_eq!(tasks, vec![task(2, "b", Status::ToDo)]);
    assert_eq!(
        Command::find_task(&mut tasks, 1).err(),
        Some(CommandError::NotFound(1))
    );
}

#[test]
fn update_changes_only_the_first_match() {
    let mut tasks = vec![task(5, "a", Status::ToDo), task(5, "b", Status::ToDo)];
    let later = manila(2025, 6, 1, 8, 0, 0, 0);
    assert_eq!(
        Command::update_task(&mut tasks, 5, "z".to_string(), later.clone()),
        Ok(())
    );
    assert_eq!(tasks[0].desc, "z");
    assert_eq!(tasks[0].updated_at, later);
    assert_eq!(tasks[1].desc, "b");
}

#[test]
fn listing_text_for_all_and_filtered() {
    let tasks = vec![
        task(1, "hop", Status::Done),
        task(3, "jump", Status::InProgress),
    ];
    assert_eq!(
        Command::listing(&tasks, None),
        "--- All Tasks ---\n[2024-02-29 12:51] 1: hop (Done)\n[2024-02-29 12:51] 3: jump (In-Progress)\n"
    );
    assert_eq!(
        Command::listing(&tasks, Some(Status::InProgress)),
        "--- Tasks with Status: In-Progress ---\n[2024-02-29 12:51] 3: jump\n"
    );
    assert_eq!(
        Command::listing(&tasks, Some(Status::ToDo)),
        "No Tasks with Status Todo found\n"
    );
    assert_eq!(Command::listing(&vec![], None), "No Tasks found\n");
}

#[test]
fn run_reports_what_each_command_did() {
    let mut tasks = vec![task(1, "hop", Status::ToDo)];
    let now = manila(2025, 3, 3, 9, 30, 0, 0);
    assert_eq!(
        Command::Help.run(&mut tasks, now.clone()),
        Ok(format!("Manages your tasks\n{}\n", ALL_USAGE))
    );
    assert_eq!(
        Command::Add("skip".to_string()).run(&mut tasks, now.clone()),
        Ok("Task added successfully (ID: 2)\n".to_string())
    );
    assert_eq!(
        Command::Update { id: 2, desc: "jump".to_string() }.run(&mut tasks, now.clone()),
        Ok("Task 2 updated successfully.\n".to_string())
    );
    assert_eq!(
        Command::MarkInProgress(2).run(&mut tasks, now.clone()),
        Ok("Task 2 marked as In-Progress.\n".to_string())
    );
    assert_eq!(
        Command::MarkDone(1).run(&mut tasks, now.clone()),
        Ok("Task 1 marked as Done.\n".to_string())
    );
    assert_eq!(
        Command::Delete(6).run(&mut tasks, now.clone()),
        Err(CommandError::NotFound(6))
    );
    assert_eq!(
        Command::List(Some(Status::InProgress)).run(&mut tasks, now.clone()),
        Ok("--- Tasks with Status: In-Progress ---\n[2025-03-03 09:30] 2: jump\n".to_string())
    );
    assert_eq!(
        Command::Delete(1).run(&mut tasks, now),
        Ok("Task 1 deleted successfully.\n".to_string())
    );
    assert_eq!(tasks.len(), 1);
    assert_eq!(tasks[0].id, 2);
}

#[test]
fn empty_list_and_empty_file() {
    let json = tasks_to_json(vec![]).unwrap();
    assert_eq!(json, "{\n    \"tasks\": [\n\n    ]\n}");
    assert_eq!(read_json(json), Ok(vec![]));
    assert_eq!(read_json(String::new()), Ok(vec![]));
}

#[test]
fn file_errors() {
    assert_eq!(read_json("[]".to_string()), Err(FileError::MissingTasks));
    assert_eq!(
        read_json("{\n    \"tasks\": [\n".to_string()),
        Err(FileError::MissingTasks)
    );
    let missing_key = "{\n    \"tasks\": [\n        {\n            \"ident\": 1\n        }\n    ]\n}";
    assert!(json_is_readable(missing_key));
    assert_eq!(read_json(missing_key.to_string()), Err(FileError::InvalidTask));
    let bad_time = "{\n    \"tasks\": [\n        {\n            \"id\": 1,\n            \"desc\": \"a\",\n            \"status\": \"done\",\n            \"created_at\": \"yesterday\",\n            \"updated_at\": \"today\"\n        }\n    ]\n}";
    assert!(json_is_readable(bad_time));
    assert_eq!(read_json(bad_time.to_string()), Err(FileError::InvalidTask));
}

#[test]
fn unreadable_files_are_detected() {
    let bad_id = "{\n    \"tasks\": [\n        {\n            \"id\": x,\n            \"desc\": \"a\",\n            \"status\": \"done\",\n            \"created_at\": \"t\",\n            \"updated_at\": \"t\"\n        }\n    ]\n}";
    assert!(!json_is_readable(bad_id));
    assert_eq!(scan_records(bad_id), None);
    let bad_status = bad_id.replace("x", "1").replace("done", "later");
    assert!(!json_is_readable(&bad_status));
}

#[test]
fn value_between_keys() {
    assert_eq!(find_json_value("a=1;b=2;", "b=", ";"), Ok("2".to_string()));
    assert_eq!(find_json_value("a=1;", "c=", ";"), Err(FileError::InvalidTask));
}

#[test]
fn records_read_back_after_write() {
    let records = vec![
        TaskRecord {
            id: 10,
            desc: "commas, {braces} and [brackets]".to_string(),
            status: Status::InProgress,
            created_at: "c1".to_string(),
            updated_at: "u1".to_string(),
        },
        TaskRecord {
            id: 0,
            desc: String::new(),
            status: Status::Done,
            created_at: String::new(),
            updated_at: "u2".to_string(),
        },
    ];
    let json = records_to_json(&records);
    assert_eq!(scan_records(&json), Some(Ok(records)));
}

#[test]
fn line_breaks_in_descriptions_are_indented() {
    let mut t = task(1, "two\r\nlines\nhere", Status::ToDo);
    t.updated_at = manila(2024, 2, 29, 12, 51, 0, 0);
    let json = tasks_to_json(vec![t]).unwrap();
    assert!(json.contains("\"desc\": \"two\n        lines\n        here\","));
}

#[test]
fn stored_times_are_rounded_to_the_second() {
    let mut t = task(1, "a", Status::ToDo);
    t.created_at = manila(2024, 2, 29, 12, 51, 0, 600_000_000);
    let json = t.to_json().unwrap();
    assert_eq!(
        json,
        "{\n    \"id\": 1,\n    \"desc\": \"a\",\n    \"status\": \"todo\",\n    \"created_at\": \"2024-02-29T12:51:01+08:00[Asia/Manila]\",\n    \"updated_at\": \"2024-02-29T12:51:00+08:00[Asia/Manila]\"\n}"
    );
    let record = t.to_record().unwrap();
    let back = Task::from_record(&record).unwrap();
    assert_eq!(back.created_at, manila(2024, 2, 29, 12, 51, 1, 0));
}

#[test]
fn session_in_memory() {
    let mut tasks: Vec<Task> = Vec::new();
    let now = manila(2024, 5, 5, 10, 0, 0, 0);
    for words in [
        vec!["task", "add", "hop"],
        vec!["task", "add", "skip"],
        vec!["task", "add", "bump"],
        vec!["task", "update", "3", "jump"],
        vec!["task", "mark-done", "1"],
        vec!["task", "delete", "2"],
    ] {
        let config = Config::build(args(&words)).unwrap();
        config.command.run(&mut tasks, now.clone()).unwrap();
        let json = tasks_to_json(tasks.clone()).unwrap();
        assert!(json_is_readable(&json));
        tasks = read_json(json).unwrap();
    }
    let listing = Command::List(None).run(&mut tasks, now).unwrap();
    assert_eq!(
        listing,
        "--- All Tasks ---\n[2024-05-05 10:00] 1: hop (Done)\n[2024-05-05 10:00] 3: jump (Todo)\n"
    );
}

#[test]
fn ids_stay_increasing_through_a_session() {
    let mut tasks: Vec<Task> = Vec::new();
    let now = manila(2024, 5, 5, 10, 0, 0, 0);
    for words in [
        vec!["task", "add", "a"],
        vec!["task", "add", "b"],
        vec!["task", "add", "c"],
        vec!["task", "delete", "3"],
        vec!["task", "add", "d"],
        vec!["task", "mark-in-progress", "2"],
        vec!["task", "delete", "1"],
        vec!["task", "add", "e"],
    ] {
        let config = Config::build(args(&words)).unwrap();
        config.command.run(&mut tasks, now.clone()).unwrap();
        assert!(tasks.windows(2).all(|w| w[0].id < w[1].id));
    }
    let ids: Vec<u32> = tasks.iter().map(|t| t.id).collect();
    assert_eq!(ids, vec![2, 3, 4]);
}

#[test]
fn record_with_parsed_times() {
    let record = TaskRecord {
        id: 4,
        desc: "read".to_string(),
        status: Status::InProgress,
        created_at: "2024-02-29T12:51:00+08:00[Asia/Manila]".to_string(),
        updated_at: "2024-03-01T08:00:00+08:00[Asia/Manila]".to_string(),
    };
    let c = manila(2024, 2, 29, 12, 51, 0, 0);
    let u = manila(2024, 3, 1, 8, 0, 0, 0);
    let t = Task::from_parsed(&record, Some(c.clone()), Some(u.clone())).unwrap();
    assert_eq!(t.id, 4);
    assert_eq!(t.desc, "read");
    assert_eq!(t.status, Status::InProgress);
    assert_eq!(t.created_at, c);
    assert_eq!(t.updated_at, u);
    assert!(Task::from_parsed(&record, None, Some(u.clone())).is_none());
    assert!(Task::from_parsed(&record, Some(c), None).is_none());
    assert_eq!(Task::from_record(&record), Some(t));
    let mut bad = record.clone();
    bad.updated_at = "not a time".to_string();
    assert!(Task::from_record(&bad).is_none());
}

#[test]
fn tasks_from_read_times() {
    let record = |id: u32, desc: &str| TaskRecord {
        id,
        desc: desc.to_string(),
        status: Status::Done,
        created_at: "2024-02-29T12:51:00+08:00[Asia/Manila]".to_string(),
        updated_at: "2024-02-29T12:51:00+08:00[Asia/Manila]".to_string(),
    };
    let records = vec![record(1, "a"), record(2, "b")];
    let t1 = manila(2024, 2, 29, 12, 51, 0, 0);
    let t2 = manila(2024, 3, 1, 9, 30, 0, 0);
    let tasks = tasks_from_times(
        &records,
        vec![(Some(t1.clone()), Some(t2.clone())), (Some(t2.clone()), Some(t1.clone()))],
    )
    .unwrap();
    assert_eq!(tasks.len(), 2);
    assert_eq!((tasks[0].id, tasks[0].desc.as_str()), (1, "a"));
    assert_eq!((tasks[1].id, tasks[1].desc.as_str()), (2, "b"));
    assert_eq!((tasks[0].created_at.clone(), tasks[0].updated_at.clone()), (t1.clone(), t2.clone()));
    assert_eq!((tasks[1].created_at.clone(), tasks[1].updated_at.clone()), (t2.clone(), t1.clone()));
    assert!(tasks_from_times(&records, vec![(Some(t1.clone()), Some(t1.clone())), (Some(t1.clone()), None)]).is_none());
    assert!(tasks_from_times(&records, vec![(None, Some(t1.clone())), (Some(t1.clone()), Some(t1))]).is_none());
    assert_eq!(tasks_from_times(&Vec::new(), Vec::new()), Some(Vec::new()));
}

#[test]
fn empty_list_reads_back_empty() {
    let json = tasks_to_json(Vec::new()).unwrap();
    assert_eq!(read_json(json), Ok(Vec::new()));
}

#[test]
fn quoted_description_reads_back() {
    let tasks = vec![task(1, "say \"hi\", then leave", Status::ToDo), task(2, "\"", Status::Done)];
    let json = tasks_to_json(tasks.clone()).unwrap();
    assert!(json_is_readable(&json));
    assert_eq!(read_json(json), Ok(tasks));
}
