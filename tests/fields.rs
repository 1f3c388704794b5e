use std::str::FromStr;
use todotxt::todocontext::{TodoContext, TodoContextParseError};
use todotxt::todopriority::{TodoPriority, TodoPriorityParseError};
use todotxt::todoproject::{TodoProject, TodoProjectParseError};
use todotxt::todorecurrence::TodoRecurrence;
use todotxt::todorecurrence::TodoRecurrenceParseError;
use todotxt::todorecurrence::TodoRecurrenceUnit::{BusinessDay, Daily, Monthly, Weekly, Yearly};

#[test]
fn todocontext_parse_test() {
    assert_eq!(
        Ok(TodoContext {
            name: "home".to_string()
        }),
        TodoContext::from_str("@home")
    );
    assert_eq!(Err(TodoContextParseError), TodoContext::from_str("home"));
    assert_eq!(Err(TodoContextParseError), TodoContext::from_str("@"));
}

#[test]
fn todocontext_display_test() {
    assert_eq!(
        "@office",
        TodoContext {
            name: "office".to_string()
        }
        .to_string()
    );
}

#[test]
fn todoproject_parse_test() {
    assert_eq!(
        Ok(TodoProject {
            name: "work".to_string()
        }),
        TodoProject::from_str("+work")
    );
    assert_eq!(Err(TodoProjectParseError), TodoProject::from_str("work"));
    assert_eq!(Err(TodoProjectParseError), TodoProject::from_str("+"));
}

#[test]
fn todoproject_display_test() {
    assert_eq!(
        "+personal",
        TodoProject {
            name: "personal".to_string()
        }
        .to_string()
    );
}

#[test]
fn todopriority_parse_test() {
    assert_eq!(Ok(TodoPriority { priority: Some(3) }), TodoPriority::from_str("(D)"));
    assert_eq!(Err(TodoPriorityParseError), TodoPriority::from_str("(g)"));
    assert_eq!(Err(TodoPriorityParseError), TodoPriority::from_str("A"));
}

#[test]
fn todopriority_display_test() {
    assert_eq!("(A)", TodoPriority { priority: Some(0) }.to_string());
    assert_eq!("", TodoPriority { priority: None }.to_string());
}

#[test]
fn todorecurrence_parse_test() {
    assert_eq!(
        Ok(TodoRecurrence {
            count: 3,
            strict: false,
            unit: Daily
        }),
        TodoRecurrence::from_str("3d")
    );
    assert_eq!(
        Ok(TodoRecurrence {
            count: 17,
            strict: true,
            unit: Daily
        }),
        TodoRecurrence::from_str("+17d")
    );
    assert_eq!(
        Ok(TodoRecurrence {
            count: 8,
            strict: false,
            unit: BusinessDay
        }),
        TodoRecurrence::from_str("8b")
    );
    assert_eq!(
        Ok(TodoRecurrence {
            count: 4,
            strict: true,
            unit: Weekly
        }),
        TodoRecurrence::from_str("+4w")
    );
    assert_eq!(
        Ok(TodoRecurrence {
            count: 1,
            strict: false,
            unit: Monthly
        }),
        TodoRecurrence::from_str("m")
    );
    assert_eq!(
        Ok(TodoRecurrence {
            count: 1,
            strict: true,
            unit: Yearly
        }),
        TodoRecurrence::from_str("+y")
    );
    assert_eq!(
        TodoRecurrence::from_str("d"),
        TodoRecurrence::from_str("1d")
    );
}

#[test]
fn todorecurrence_display_test() {
    assert_eq!(
        "+d",
        TodoRecurrence {
            count: 1,
            strict: true,
            unit: Daily
        }
        .to_string()
    );
    assert_eq!(
        "13y",
        TodoRecurrence {
            count: 13,
            strict: false,
            unit: Yearly
        }
        .to_string()
    );
    assert_eq!(
        "3w",
        TodoRecurrence {
            count: 3,
            strict: false,
            unit: Weekly
        }
        .to_string()
    );
    assert_eq!(
        "2b",
        TodoRecurrence {
            count: 2,
            strict: false,
            unit: BusinessDay
        }
        .to_string()
    );
    assert_eq!(
        "4m",
        TodoRecurrence {
            count: 4,
            strict: false,
            unit: Monthly
        }
        .to_string()
    );
}

#[test]
fn priority_ranks_at_both_ends() {
    assert_eq!(Ok(TodoPriority { priority: Some(0) }), TodoPriority::parse("(A)"));
    assert_eq!(Ok(TodoPriority { priority: Some(25) }), TodoPriority::parse("(Z)"));
    assert_eq!(Err(TodoPriorityParseError), TodoPriority::parse("(1)"));
    assert_eq!(Err(TodoPriorityParseError), TodoPriority::parse("(AB)"));
    assert_eq!(Err(TodoPriorityParseError), TodoPriority::parse(""));
    assert_eq!("(Z)", TodoPriority { priority: Some(25) }.to_string());
}

#[test]
fn recurrence_rejects_malformed_rules() {
    assert_eq!(Err(TodoRecurrenceParseError), TodoRecurrence::parse(""));
    assert_eq!(Err(TodoRecurrenceParseError), TodoRecurrence::parse("+"));
    assert_eq!(Err(TodoRecurrenceParseError), TodoRecurrence::parse("3x"));
    assert_eq!(Err(TodoRecurrenceParseError), TodoRecurrence::parse("0d"));
    assert_eq!(Err(TodoRecurrenceParseError), TodoRecurrence::parse("a3d"));
    assert_eq!(Err(TodoRecurrenceParseError), TodoRecurrence::parse("++3d"));
    assert_eq!(Err(TodoRecurrenceParseError), TodoRecurrence::parse("65536d"));
    assert_eq!(
        Ok(TodoRecurrence { count: 65535, strict: false, unit: Daily }),
        TodoRecurrence::parse("65535d")
    );
    assert_eq!(
        Ok(TodoRecurrence { count: 7, strict: false, unit: Weekly }),
        TodoRecurrence::parse("007w")
    );
}

#[test]
fn recurrence_round_trips_through_text() {
    for text in ["+2w", "2w", "d", "+y", "65535m", "12b"] {
        let rule = TodoRecurrence::parse(text).unwrap();
        assert_eq!(rule.to_string(), text);
        assert_eq!(TodoRecurrence::parse(&rule.to_string()), Ok(rule));
    }
}

#[test]
fn recurrence_span_in_days() {
    assert_eq!(TodoRecurrence::parse("2w").unwrap().span(), 14);
    assert_eq!(TodoRecurrence::parse("3m").unwrap().span(), 90);
    assert_eq!(TodoRecurrence::parse("2y").unwrap().span(), 730);
    assert_eq!(TodoRecurrence::parse("5b").unwrap().span(), 5);
}

#[test]
fn tag_names_keep_everything_after_the_marker() {
    assert_eq!(TodoProject::parse("++x").unwrap().name, "+x");
    assert_eq!(TodoContext::parse("@@").unwrap().name, "@");
    assert_eq!(Err(TodoContextParseError), TodoContext::parse(""));
}
