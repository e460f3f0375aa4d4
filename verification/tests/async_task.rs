use deputui::async_task::{AsyncTaskRunner, AsyncTaskStatus};

#[test]
fn async_task_test_async_task_initial_state() {
    let runner = AsyncTaskRunner::<String>::new();
    assert_eq!(*runner.status(), AsyncTaskStatus::Idle);
}

#[test]
fn async_task_test_async_task_success_operation() {
    let mut runner = AsyncTaskRunner::<String>::new();

    let operation = runner.start_operation();
    assert_eq!(*runner.status(), AsyncTaskStatus::Loading);
    assert!(runner.complete(operation, Ok("test_input".to_string())));

    assert_eq!(*runner.status(), AsyncTaskStatus::Loaded("test_input".to_string()));
}

#[test]
fn async_task_test_async_task_error_operation() {
    let mut runner = AsyncTaskRunner::<String>::new();

    let operation = runner.start_operation();
    assert!(runner.complete(operation, Err("test error".to_string())));

    assert_eq!(*runner.status(), AsyncTaskStatus::Error("test error".to_string()));
}

#[test]
fn async_task_test_multiple_operations_rapid_succession() {
    let mut runner = AsyncTaskRunner::<String>::new();

    // Two operations started one right after the other; the second one is
    // the faster and completes first.
    let first = runner.start_operation();
    let second = runner.start_operation();
    assert_eq!(*runner.status(), AsyncTaskStatus::Loading);

    assert!(runner.complete(second, Ok("second".to_string())));
    assert!(!runner.complete(first, Ok("first".to_string())));

    assert_eq!(*runner.status(), AsyncTaskStatus::Loaded("second".to_string()));
}

#[test]
fn async_task_test_multiple_operations_mixed_success_error() {
    let mut runner = AsyncTaskRunner::<String>::new();

    let slow_success = runner.start_operation();
    let fast_failure = runner.start_operation();

    assert!(runner.complete(fast_failure, Err("error operation".to_string())));
    assert_eq!(*runner.status(), AsyncTaskStatus::Error("error operation".to_string()));

    assert!(!runner.complete(slow_success, Ok("success".to_string())));
    assert_eq!(*runner.status(), AsyncTaskStatus::Error("error operation".to_string()));
}

#[test]
fn test_cancellation_prevents_stale_results() {
    let mut runner = AsyncTaskRunner::<String>::new();

    let slow = runner.start_operation();
    let fast = runner.start_operation();

    assert!(runner.complete(fast, Ok("fast_result".to_string())));
    assert_eq!(*runner.status(), AsyncTaskStatus::Loaded("fast_result".to_string()));

    // The slow operation completes long after it was superseded.
    assert!(!runner.complete(slow, Ok("slow_result".to_string())));
    assert_eq!(*runner.status(), AsyncTaskStatus::Loaded("fast_result".to_string()));
}

#[test]
fn stale_outcome_that_arrives_first_leaves_loading() {
    let mut runner = AsyncTaskRunner::<String>::new();
    let first = runner.start_operation();
    let second = runner.start_operation();
    assert_eq!((first, second), (1, 2));
    assert_eq!(runner.generation(), 2);

    assert!(!runner.complete(first, Ok("first".to_string())));
    assert_eq!(*runner.status(), AsyncTaskStatus::Loading);
    assert!(runner.complete(second, Ok("second".to_string())));
    assert_eq!(*runner.status(), AsyncTaskStatus::Loaded("second".to_string()));
    assert_eq!(runner.generation(), 2);
}

#[test]
fn a_new_start_hides_the_last_outcome() {
    let mut runner = AsyncTaskRunner::<u32>::new();
    let first = runner.start_operation();
    assert!(runner.complete(first, Ok(7)));
    assert_eq!(*runner.status(), AsyncTaskStatus::Loaded(7));
    let second = runner.start_operation();
    assert_eq!(*runner.status(), AsyncTaskStatus::Loading);
    assert!(!runner.complete(first, Ok(8)));
    assert_eq!(*runner.status(), AsyncTaskStatus::Loading);
    assert!(runner.complete(second, Err("late".to_string())));
    assert_eq!(*runner.status(), AsyncTaskStatus::Error("late".to_string()));
}
