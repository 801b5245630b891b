use matbench::counter::{CStyleVector, SafeCounter};
use matbench::decimal::u64_to_string;
use matbench::pipeline::{Application, DataProcessor, ProcessResult, Processor};

#[test]
fn demonstrate_software_concepts() {
    println!("\n=== Software Complexity Concepts ===");

    // Ownership and borrowing
    let data = vec![1, 2, 3];
    let borrowed = &data;  // Borrow
    println!("Borrowed: {:?}", borrowed);
    let owned = data;      // Move
    // println!("{:?}", data);  // Would not compile!
    println!("Owned: {:?}", owned);

    // Error handling as types
    let result: Result<i32, &str> = Ok(42);
    match result {
        Ok(value) => println!("Success: {}", value),
        Err(e) => println!("Error: {}", e),
    }

    // Zero-cost abstractions
    let numbers: Vec<i32> = (0..1000).collect();
    let sum: i32 = numbers
        .iter()
        .filter(|&&x| x % 2 == 0)
        .map(|&x| x * x)
        .sum();
    println!("Computed sum: {}", sum);
}

#[test]
fn test_c_style_vector_new() {
    let v = CStyleVector::new();
    assert!(v.items.is_empty());
}

#[test]
fn test_safe_counter_increments() {
    let mut c = SafeCounter::new();
    assert_eq!(c.count, 0);
    assert_eq!(c.increment(), 1);
    assert_eq!(c.increment(), 2);
    assert_eq!(c.count, 2);
}

#[test]
fn test_process_empty_input_is_fatal() {
    let p = DataProcessor;
    match p.process(Vec::new()) {
        ProcessResult::Fatal(msg) => assert_eq!(msg, "Empty input"),
        _ => panic!("empty input must be fatal"),
    }
}

#[test]
fn test_process_sums_doubled_positives() {
    let p = DataProcessor;
    match p.process(vec![1, 2, 3, 4, 5]) {
        ProcessResult::Success(v) => assert_eq!(v, 30),
        _ => panic!("small sum must succeed"),
    }
    match p.process(vec![-5, 10, 3, -1]) {
        ProcessResult::Success(v) => assert_eq!(v, 26),
        _ => panic!("negatives are filtered out"),
    }
}

#[test]
fn test_process_large_sum_is_retry() {
    let p = DataProcessor;
    match p.process(vec![600]) {
        ProcessResult::Retry(msg) => assert_eq!(msg, "Sum too large"),
        _ => panic!("sum over 1000 must ask for a retry"),
    }
}

#[test]
fn test_process_result_map() {
    let r: ProcessResult<i32> = ProcessResult::Success(4);
    match r.map(|x| x * 10) {
        ProcessResult::Success(v) => assert_eq!(v, 40),
        _ => panic!("map keeps success"),
    }
    let r: ProcessResult<i32> = ProcessResult::Retry("again".to_string());
    match r.map(|x| x * 10) {
        ProcessResult::Retry(msg) => assert_eq!(msg, "again"),
        _ => panic!("map passes retry through"),
    }
}

#[test]
fn test_process_result_map_composition_instance() {
    // The two-step pipeline equals the direct one-step computation on
    // a concrete instance.
    let two_step = ProcessResult::<i32>::Success(4).map(|x| x + 1).map(|x| x * 10);
    let one_step = ProcessResult::<i32>::Success(4).map(|x| (x + 1) * 10);
    match (two_step, one_step) {
        (ProcessResult::Success(a), ProcessResult::Success(b)) => assert_eq!(a, b),
        _ => panic!("both pipelines must succeed"),
    }
}

#[test]
fn test_process_result_and_then() {
    let r: ProcessResult<i32> = ProcessResult::Success(4);
    match r.and_then(|x| ProcessResult::<i32>::Success(x + 1)) {
        ProcessResult::Success(v) => assert_eq!(v, 5),
        _ => panic!("and_then chains success"),
    }
    let r: ProcessResult<i32> = ProcessResult::Success(4);
    match r.and_then(|_x| ProcessResult::<i32>::Fatal("boom".to_string())) {
        ProcessResult::Fatal(msg) => assert_eq!(msg, "boom"),
        _ => panic!("and_then propagates the continuation's failure"),
    }
    let r: ProcessResult<i32> = ProcessResult::Fatal("down".to_string());
    match r.and_then(|x| ProcessResult::<i32>::Success(x)) {
        ProcessResult::Fatal(msg) => assert_eq!(msg, "down"),
        _ => panic!("and_then passes fatal through"),
    }
}

#[test]
fn test_run_simulation_message() {
    let mut app = Application::new();
    match app.run_simulation() {
        ProcessResult::Success(msg) => {
            assert_eq!(msg, "Simulation completed. Result: 30, Counter: 4001");
        },
        _ => panic!("the simulation must succeed"),
    }
    assert_eq!(app.counter.count, 4001);
    match app.run_simulation() {
        ProcessResult::Success(msg) => {
            assert_eq!(msg, "Simulation completed. Result: 30, Counter: 8002");
        },
        _ => panic!("the simulation must succeed"),
    }
    assert_eq!(app.counter.count, 8002);
}

#[test]
fn test_u64_to_string() {
    assert_eq!(u64_to_string(0), "0");
    assert_eq!(u64_to_string(9), "9");
    assert_eq!(u64_to_string(42), "42");
    assert_eq!(u64_to_string(12345), "12345");
    assert_eq!(u64_to_string(u64::MAX), "18446744073709551615");
}
