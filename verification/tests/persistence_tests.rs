use jiff::civil;
use task_tracker::persistence::{read_json, tasks_to_json};
use task_tracker::task::{Status, Task};

const JSON_EXAMPLE: &str = r##"{
    "tasks": [
        {
            "id": 1,
            "desc": "take a break",
            "status": "done",
            "created_at": "2024-02-29T12:51:00+08:00[Asia/Manila]",
            "updated_at": "2024-02-29T12:51:00+08:00[Asia/Manila]"
        },
        {
            "id": 2,
            "desc": "buy milk",
            "status": "in-progress",
            "created_at": "2024-02-29T12:51:00+08:00[Asia/Manila]",
            "updated_at": "2024-02-29T12:51:00+08:00[Asia/Manila]"
        },
        {
            "id": 3,
            "desc": "go home",
            "status": "todo",
            "created_at": "2024-02-29T12:51:00+08:00[Asia/Manila]",
            "updated_at": "2024-02-29T12:51:00+08:00[Asia/Manila]"
        }
    ]
}"##;

fn tasks_example() -> Vec<Task> {
    let time = civil::date(2024, 2, 29)
        .at(12, 51, 0, 0)
        .in_tz("Asia/Manila")
        .unwrap();
    vec![
        Task {
            id: 1,
            desc: "take a break".to_string(),
            status: Status::Done,
            created_at: time.clone(),
            updated_at: time.clone(),
        },
        Task {
            id: 2,
            desc: "buy milk".to_string(),
            status: Status::InProgress,
            created_at: time.clone(),
            updated_at: time.clone(),
        },
        Task {
            id: 3,
            desc: "go home".to_string(),
            status: Status::ToDo,
            created_at: time.clone(),
            updated_at: time,
        },
    ]
}

#[test]
fn test_tasks_to_json() {
    let tasks = tasks_example();
    let actual = tasks_to_json(tasks).unwrap();
    let expected = JSON_EXAMPLE;
    assert_eq!(actual, expected);
}

#[test]
fn test_read_json() {
    let json = JSON_EXAMPLE.to_string();
    let actual = read_json(json);
    let expected = tasks_example();
    assert_eq!(actual, Ok(expected));
}
