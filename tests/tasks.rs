use tindalos::order::str_less;
use tindalos::tasks::{divider_string, Task, TaskStatus, Tasks};
use tindalos::timestamp::Timestamp;
use tindalos::{add, finish, get_next_task_id, list, start, tasks_or_empty, TaskError};

fn now() -> Timestamp {
    let t = chrono::Utc::now();
    Timestamp::new(t.timestamp(), t.timestamp_subsec_nanos()).unwrap()
}

fn at(secs: i64) -> Timestamp {
    Timestamp::new(secs, 0).unwrap()
}

fn task(id: u32, description: &str, status: TaskStatus, updated_at: Timestamp) -> Task {
    Task { id, description: description.to_string(), status, updated_at }
}

// 2024-03-04, a Monday, at midnight UTC.
const MONDAY: i64 = 1709510400;
const DAY: i64 = 86400;

#[test]
fn uses_next_lowest_unused_int_for_task_number() {
    let mut existing_tasks = Vec::new();

    let task = Task {
        id: 1,
        description: "buy some milk".to_string(),
        status: TaskStatus::InProgress,
        updated_at: now(),
    };

    existing_tasks.push(task);

    assert_eq!(2, get_next_task_id(&existing_tasks))
}

#[test]
fn prints_a_task_in_nice_format() {
    let task_todo = Task {
        id: 33,
        description: "ring up john".to_string(),
        status: TaskStatus::Todo,
        updated_at: now(),
    };

    assert_eq!("#033: ring up john\n", task_todo.to_string());
}

#[test]
fn next_id_of_empty_collection_is_one() {
    assert_eq!(1, get_next_task_id(&Vec::new()));
}

#[test]
fn next_id_is_one_above_the_highest_in_any_order() {
    let ts = vec![
        task(3, "a", TaskStatus::Todo, at(0)),
        task(9, "b", TaskStatus::Done, at(0)),
        task(4, "c", TaskStatus::InProgress, at(0)),
    ];
    assert_eq!(10, get_next_task_id(&ts));
}

#[test]
fn add_after_highest_id_five_gives_six() {
    let mut ts = Tasks {
        tasks: vec![task(5, "old", TaskStatus::Done, at(0)), task(2, "older", TaskStatus::Todo, at(0))],
    };
    let stamp = now();
    let r = add(&mut ts, "x".to_string(), stamp.clone());
    assert_eq!(Ok(6), r);
    assert_eq!(3, ts.tasks.len());
    let t = &ts.tasks[2];
    assert_eq!(6, t.id);
    assert_eq!("x", t.description);
    assert_eq!(TaskStatus::Todo, t.status);
    assert_eq!(stamp.secs(), t.updated_at.secs());
    assert_eq!(stamp.nanos(), t.updated_at.nanos());
}

#[test]
fn add_to_empty_collection_gives_id_one() {
    let mut ts = Tasks { tasks: Vec::new() };
    assert_eq!(Ok(1), add(&mut ts, "first".to_string(), now()));
    assert_eq!(1, ts.tasks[0].id);
}

#[test]
fn add_when_the_highest_id_is_taken_fails() {
    let mut ts = Tasks { tasks: vec![task(u32::MAX, "last", TaskStatus::Todo, at(0))] };
    assert_eq!(Err(TaskError::IdsExhausted), add(&mut ts, "x".to_string(), now()));
    assert_eq!(1, ts.tasks.len());
}

#[test]
fn start_marks_in_progress_and_moves_to_end() {
    let mut ts = Tasks {
        tasks: vec![
            task(7, "seven", TaskStatus::Todo, at(100)),
            task(8, "eight", TaskStatus::Todo, at(200)),
        ],
    };
    assert_eq!(Ok(()), start(&mut ts, 7));
    assert_eq!(2, ts.tasks.len());
    assert_eq!(8, ts.tasks[0].id);
    assert_eq!(TaskStatus::Todo, ts.tasks[0].status);
    assert_eq!(7, ts.tasks[1].id);
    assert_eq!(TaskStatus::InProgress, ts.tasks[1].status);
    assert_eq!("seven", ts.tasks[1].description);
    assert_eq!(100, ts.tasks[1].updated_at.secs());
}

#[test]
fn start_of_unknown_id_is_an_error() {
    let mut ts = Tasks { tasks: vec![task(7, "seven", TaskStatus::Todo, at(0))] };
    assert_eq!(Err(TaskError::NoSuchTask(42)), start(&mut ts, 42));
    assert_eq!(TaskStatus::Todo, ts.tasks[0].status);
}

#[test]
fn finish_marks_done_and_stamps_from_any_status() {
    for status in [TaskStatus::Todo, TaskStatus::InProgress, TaskStatus::Done] {
        let mut ts = Tasks {
            tasks: vec![task(1, "one", status, at(100)), task(2, "two", TaskStatus::Todo, at(100))],
        };
        assert_eq!(Ok(()), finish(&mut ts, 1, at(MONDAY)));
        assert_eq!(1, ts.tasks[1].id);
        assert_eq!(TaskStatus::Done, ts.tasks[1].status);
        assert_eq!(MONDAY, ts.tasks[1].updated_at.secs());
        assert_eq!(2, ts.tasks[0].id);
    }
}

#[test]
fn finish_of_unknown_id_is_an_error() {
    let mut ts = Tasks { tasks: Vec::new() };
    assert_eq!(Err(TaskError::NoSuchTask(3)), finish(&mut ts, 3, now()));
}

#[test]
fn empty_collection_lists_only_the_note() {
    let ts = Tasks { tasks: Vec::new() };
    assert_eq!("\nNo tasks found!\n", list(&ts));
}

#[test]
fn listing_twice_gives_the_same_text() {
    let ts = Tasks {
        tasks: vec![
            task(1, "a", TaskStatus::Done, at(MONDAY)),
            task(2, "b", TaskStatus::Todo, at(0)),
            task(3, "c", TaskStatus::InProgress, at(0)),
        ],
    };
    assert_eq!(list(&ts), list(&ts));
}

#[test]
fn todo_task_lists_under_its_heading() {
    let ts = Tasks { tasks: vec![task(33, "ring up john", TaskStatus::Todo, now())] };
    assert_eq!("\nTodo\n====\n#033: ring up john\n", list(&ts));
}

#[test]
fn sections_come_done_then_in_progress_then_todo() {
    let ts = Tasks {
        tasks: vec![
            task(1, "plan", TaskStatus::Todo, at(0)),
            task(2, "build", TaskStatus::InProgress, at(0)),
            task(3, "ship", TaskStatus::Done, at(MONDAY + 3600)),
            task(4, "test", TaskStatus::InProgress, at(0)),
        ],
    };
    let expected = "\nDone Mon (24-03-04)\n===================\n#003: ship\n\
                    \nIn Progress\n===========\n#002: build\n#004: test\n\
                    \nTodo\n====\n#001: plan\n";
    assert_eq!(expected, list(&ts));
}

#[test]
fn done_days_sort_by_their_label_text() {
    let ts = Tasks {
        tasks: vec![
            task(1, "tuesday", TaskStatus::Done, at(MONDAY + DAY)),
            task(2, "monday", TaskStatus::Done, at(MONDAY + 60)),
            task(3, "friday", TaskStatus::Done, at(MONDAY + 4 * DAY)),
            task(4, "monday again", TaskStatus::Done, at(MONDAY + 120)),
        ],
    };
    let expected = "\nDone Fri (24-03-08)\n===================\n#003: friday\n\
                    \nDone Mon (24-03-04)\n===================\n#002: monday\n#004: monday again\n\
                    \nDone Tue (24-03-05)\n===================\n#001: tuesday\n";
    assert_eq!(expected, list(&ts));
}

#[test]
fn collection_to_string_matches_list() {
    let ts = Tasks { tasks: vec![task(5, "e", TaskStatus::InProgress, at(0))] };
    assert_eq!(ts.to_string(), list(&ts));
    assert_eq!("\nIn Progress\n===========\n#005: e\n", ts.to_string());
}

#[test]
fn ids_pad_to_three_digits_and_no_further() {
    assert_eq!("#007: a\n", task(7, "a", TaskStatus::Todo, at(0)).to_string());
    assert_eq!("#000: a\n", task(0, "a", TaskStatus::Todo, at(0)).to_string());
    assert_eq!("#099: a\n", task(99, "a", TaskStatus::Todo, at(0)).to_string());
    assert_eq!("#1234: a\n", task(1234, "a", TaskStatus::Todo, at(0)).to_string());
    assert_eq!("#4294967295: a\n", task(u32::MAX, "a", TaskStatus::Todo, at(0)).to_string());
}

#[test]
fn unparsed_store_loads_as_empty() {
    assert_eq!(0, tasks_or_empty(None).tasks.len());
    let parsed = Tasks { tasks: vec![task(1, "a", TaskStatus::Todo, at(0))] };
    let r = tasks_or_empty(Some(parsed));
    assert_eq!(1, r.tasks.len());
    assert_eq!(1, r.tasks[0].id);
}

#[test]
fn day_label_is_chrono_format() {
    assert_eq!("Thu (70-01-01)", at(0).date_label());
    assert_eq!("Mon (24-03-04)", at(MONDAY + DAY - 1).date_label());
}

#[test]
fn timestamps_out_of_range_are_refused() {
    assert!(Timestamp::new(0, 1_000_000_000).is_none());
    assert!(Timestamp::new(8210266876800, 0).is_none());
    assert!(Timestamp::new(-8334601228801, 0).is_none());
    assert!(Timestamp::new(8210266876799, 999_999_999).is_some());
    assert!(Timestamp::new(-8334601228800, 0).is_some());
    assert!(!Timestamp::new(-8334601228800, 0).unwrap().date_label().is_empty());
    assert!(!Timestamp::new(8210266876799, 0).unwrap().date_label().is_empty());
}

#[test]
fn strings_compare_as_rust_orders_them() {
    assert!(str_less("Fri", "Mon"));
    assert!(!str_less("Mon", "Fri"));
    assert!(str_less("ab", "abc"));
    assert!(!str_less("abc", "ab"));
    assert!(!str_less("same", "same"));
    assert!(str_less("", "a"));
}

#[test]
fn divider_is_a_run_of_equals_signs() {
    assert_eq!("====", divider_string(4));
    assert_eq!("", divider_string(0));
}
