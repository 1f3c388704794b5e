use todotxt::date::Date;
use todotxt::todocontext::TodoContext;
use todotxt::todoitem::{TodoItem, TodoItemParseError};
use todotxt::todopriority::TodoPriority;
use todotxt::todoproject::TodoProject;
use todotxt::todorecurrence::TodoRecurrence;
use uuid::Uuid;

fn ymd(y: i32, m: u32, d: u32) -> Date {
    Date::from_ymd_opt(y, m, d).unwrap()
}

fn id(s: &str) -> u128 {
    Uuid::parse_str(s).unwrap().as_u128()
}

fn blank(description: &str) -> TodoItem {
    TodoItem {
        done: false,
        priority: TodoPriority { priority: None },
        completion_date: None,
        creation_date: None,
        description: description.to_string(),
        projects: vec![],
        contexts: vec![],
        due: None,
        recurrence: None,
        threshold: None,
        uuid: None,
        sub: None,
    }
}

#[test]
fn parse_incomplete_simple() {
    let item: TodoItem = "Buy groceries".parse().unwrap();
    assert!(!item.done);
    assert_eq!(item.priority, TodoPriority { priority: None });
    assert_eq!(item.completion_date, None);
    assert_eq!(item.creation_date, None);
    assert_eq!(item.description, "Buy groceries");
    assert!(item.projects.is_empty());
    assert!(item.contexts.is_empty());
    assert_eq!(item.due, None);
    assert_eq!(item.recurrence, None);
    assert_eq!(item.threshold, None);
    assert_eq!(item.uuid, None);
    assert_eq!(item.sub, None);
}

#[test]
fn parse_with_priority() {
    let item: TodoItem = "(A) Call mom".parse().unwrap();
    assert!(!item.done);
    assert_eq!(item.priority.priority, Some(0));
    assert_eq!(item.description, "Call mom");
}

#[test]
fn parse_with_project_and_context() {
    let item: TodoItem = "Buy milk +Personal @home".parse().unwrap();
    assert!(!item.done);
    assert_eq!(
        item.projects,
        vec![TodoProject {
            name: "Personal".to_string()
        }]
    );
    assert_eq!(
        item.contexts,
        vec![TodoContext {
            name: "home".to_string()
        }]
    );
    assert_eq!(item.description, "Buy milk");
    assert_eq!(item.threshold, None);
    assert_eq!(item.uuid, None);
    assert_eq!(item.sub, None);
}

#[test]
fn parse_completed_with_dates() {
    let item: TodoItem = "x (A) 2023-05-26 2023-05-20 Review code".parse().unwrap();
    assert!(item.done);
    assert_eq!(item.priority.priority, Some(0));
    assert_eq!(item.completion_date, Some(ymd(2023, 5, 26)));
    assert_eq!(item.creation_date, Some(ymd(2023, 5, 20)));
    assert_eq!(item.description, "Review code");
}

#[test]
fn display_simple() {
    let item = blank("Buy milk");
    assert_eq!(item.to_string(), "Buy milk");
    assert_eq!(item.threshold, None);
    assert_eq!(item.uuid, None);
    assert_eq!(item.sub, None);
}

#[test]
fn parse_with_extensions() {
    let item: TodoItem = "Buy groceries +Personal @home due:2023-05-30 rec:1m t:2023-05-25"
        .parse()
        .unwrap();
    assert!(!item.done);
    assert_eq!(item.priority, TodoPriority { priority: None });
    assert_eq!(item.description, "Buy groceries");
    assert_eq!(
        item.projects,
        vec![TodoProject {
            name: "Personal".to_string()
        }]
    );
    assert_eq!(
        item.contexts,
        vec![TodoContext {
            name: "home".to_string()
        }]
    );
    assert_eq!(item.due, Some(ymd(2023, 5, 30)));
    assert_eq!(item.recurrence, Some("1m".parse().unwrap()));
    assert_eq!(item.threshold, Some(ymd(2023, 5, 25)));
}

#[test]
fn display_with_extensions() {
    let mut item = blank("Buy groceries");
    item.projects = vec![TodoProject {
        name: "Personal".to_string(),
    }];
    item.contexts = vec![TodoContext {
        name: "home".to_string(),
    }];
    item.due = Some(ymd(2023, 5, 30));
    item.recurrence = Some("1m".parse().unwrap());
    item.threshold = Some(ymd(2023, 5, 25));
    assert_eq!(
        item.to_string(),
        "Buy groceries +Personal @home due:2023-05-30 rec:m t:2023-05-25"
    );
}

#[test]
fn parse_with_uuid_and_sub() {
    let item: TodoItem = "Buy milk uuid:12345678-1234-1234-1234-123456789abc sub:87654321-4321-4321-4321-abc123456789".parse().unwrap();
    assert_eq!(item.description, "Buy milk");
    assert_eq!(item.uuid, Some(id("12345678-1234-1234-1234-123456789abc")));
    assert_eq!(item.sub, Some(id("87654321-4321-4321-4321-abc123456789")));
}

#[test]
fn display_with_uuid_and_sub() {
    let mut item = blank("Buy milk");
    item.uuid = Some(id("12345678-1234-1234-1234-123456789abc"));
    item.sub = Some(id("87654321-4321-4321-4321-abc123456789"));
    assert_eq!(
        item.to_string(),
        "Buy milk uuid:12345678-1234-1234-1234-123456789abc sub:87654321-4321-4321-4321-abc123456789"
    );
}

#[test]
fn add_subtask_new_uuid() {
    let parent = blank("Parent task");
    let child = blank("Child task");
    let (updated_parent, new_child) = TodoItem::add_subtask(parent, child);
    assert!(updated_parent.is_some());
    let up = updated_parent.unwrap();
    assert_eq!(up.uuid, new_child.sub);
    assert!(new_child.sub.is_some());
    assert_eq!(up.description, "Parent task");
    assert_eq!(new_child.description, "Child task");
}

#[test]
fn add_subtask_existing_uuid() {
    let existing_uuid = Uuid::new_v4().as_u128();
    let mut parent = blank("Parent task");
    parent.uuid = Some(existing_uuid);
    let mut child = blank("Child task");
    child.sub = Some(Uuid::new_v4().as_u128());
    let (updated_parent, new_child) = TodoItem::add_subtask(parent, child);
    assert!(updated_parent.is_none());
    assert_eq!(new_child.sub, Some(existing_uuid));
    assert_eq!(new_child.description, "Child task");
}

#[test]
fn add_subtask_with_given_identifier() {
    let (p, c) = TodoItem::add_subtask_with(blank("P"), blank("C"), 42);
    assert_eq!(p.unwrap().uuid, Some(42));
    assert_eq!(c.sub, Some(42));
}

#[test]
fn priority_letters_decode_to_ranks() {
    assert_eq!(TodoItem::parse("(A) x").unwrap().priority.priority, Some(0));
    assert_eq!(TodoItem::parse("(Z) x").unwrap().priority.priority, Some(25));
    assert_eq!(TodoItem::parse("(a) x"), Err(TodoItemParseError::Priority));
    assert_eq!(TodoItem::parse("(1) x"), Err(TodoItemParseError::Priority));
}

#[test]
fn completed_record_needs_both_dates() {
    let item = TodoItem::parse("x 2023-05-26 2023-05-20 task").unwrap();
    assert!(item.done);
    assert_eq!(item.completion_date, Some(ymd(2023, 5, 26)));
    assert_eq!(item.creation_date, Some(ymd(2023, 5, 20)));
    assert_eq!(item.description, "task");
    assert_eq!(TodoItem::parse("x 2023-05-26 task"), Err(TodoItemParseError::CreationDate));
    assert_eq!(TodoItem::parse("x task"), Err(TodoItemParseError::CompletionDate));
    assert_eq!(TodoItem::parse("x"), Err(TodoItemParseError::CompletionDate));
}

#[test]
fn malformed_extension_fields_fail() {
    assert_eq!(TodoItem::parse("a due:2023-13-01"), Err(TodoItemParseError::Due));
    assert_eq!(TodoItem::parse("a rec:3q"), Err(TodoItemParseError::Recurrence));
    assert_eq!(TodoItem::parse("a t:tomorrow"), Err(TodoItemParseError::Threshold));
    assert_eq!(TodoItem::parse("a uuid:xyz"), Err(TodoItemParseError::Uuid));
    assert_eq!(TodoItem::parse("a sub:123"), Err(TodoItemParseError::Sub));
}

#[test]
fn bare_keys_and_markers_are_description() {
    let item = TodoItem::parse("due: rec: t: uuid: sub: + @").unwrap();
    assert_eq!(item.description, "due: rec: t: uuid: sub: + @");
    assert!(item.projects.is_empty());
}

#[test]
fn open_record_with_creation_date_and_non_date_word() {
    let item = TodoItem::parse("2024-02-29 leap day").unwrap();
    assert_eq!(item.creation_date, Some(ymd(2024, 2, 29)));
    assert_eq!(item.description, "leap day");
    let item = TodoItem::parse("2023-02-29 not a day").unwrap();
    assert_eq!(item.creation_date, None);
    assert_eq!(item.description, "2023-02-29 not a day");
}

#[test]
fn last_extension_wins() {
    let item = TodoItem::parse("a due:2024-01-01 due:2024-02-02").unwrap();
    assert_eq!(item.due, Some(ymd(2024, 2, 2)));
}

#[test]
fn whitespace_runs_collapse() {
    let item = TodoItem::parse("  call\t the   bank \n").unwrap();
    assert_eq!(item.description, "call the bank");
    assert_eq!(TodoItem::parse("").unwrap().description, "");
}

#[test]
fn upper_case_identifier_reads_as_its_value() {
    let item = TodoItem::parse("a uuid:12345678-1234-1234-1234-123456789ABC").unwrap();
    assert_eq!(item.uuid, Some(0x12345678_1234_1234_1234_123456789abc));
    assert!(item.to_string().ends_with("uuid:12345678-1234-1234-1234-123456789abc"));
}

#[test]
fn formatted_line_reads_back() {
    let lines = [
        "x (B) 2024-01-03 2024-01-01 file taxes +home @desk due:2024-04-15 rec:+1y t:2024-03-01 uuid:12345678-1234-1234-1234-123456789abc sub:87654321-4321-4321-4321-abc123456789",
        "(C) 2024-01-01 call +a +b @c @d",
        "plain words only",
        "",
    ];
    for line in lines {
        let item = TodoItem::parse(line).unwrap();
        let text = item.to_string();
        let again = TodoItem::parse(&text).unwrap();
        assert_eq!(again, item);
        assert_eq!(again.to_string(), text);
    }
}

#[test]
fn reformatting_reaches_a_fixed_point() {
    let line = "call  +work mom due:2024-1-5 (A)";
    let first = TodoItem::parse(line).unwrap().to_string();
    assert_eq!(first, "call mom (A) +work due:2024-01-05");
    let second = TodoItem::parse(&first).unwrap().to_string();
    assert_eq!(second, first);
}

#[test]
fn date_text_and_reading() {
    assert_eq!(ymd(2024, 1, 15).to_string(), "2024-01-15");
    assert_eq!(ymd(7, 3, 9).to_string(), "0007-03-09");
    assert_eq!(ymd(-1, 12, 31).to_string(), "-0001-12-31");
    assert_eq!(ymd(12345, 6, 7).to_string(), "+12345-06-07");
    assert_eq!(Date::parse("2024-1-5"), Some(ymd(2024, 1, 5)));
    assert_eq!(Date::parse("+12345-06-07"), Some(ymd(12345, 6, 7)));
    assert_eq!(Date::parse("2023-02-29"), None);
    assert_eq!(Date::from_ymd_opt(2000, 2, 29), Some(Date { year: 2000, month: 2, day: 29 }));
    assert_eq!(Date::from_ymd_opt(1900, 2, 29), None);
    assert_eq!(Date::from_ymd_opt(2024, 4, 31), None);
}

#[test]
fn date_arithmetic() {
    assert_eq!(ymd(2024, 1, 1).plus_days(14), Some(ymd(2024, 1, 15)));
    assert_eq!(ymd(2024, 2, 28).plus_days(1), Some(ymd(2024, 2, 29)));
    assert_eq!(ymd(2024, 3, 1).minus_days(1), Some(ymd(2024, 2, 29)));
    assert_eq!(Date::min_value().minus_days(1), None);
    assert_eq!(ymd(262142, 12, 31).plus_days(1), None);
}
