use ffbridge::marshal::STATUS_INTERNAL;
use ffbridge::ownership::AllocLedger;
use ffbridge::task::{proc_task_from_strings, ProcTask, ProcTaskDto};

#[test]
fn task_round_trip_preserves_fields() {
    // Construct from strings, decode back: executable, arguments, and the
    // working directory's presence and text all match the inputs.
    let args = vec![String::from("hello"), String::from("world")];
    let record = proc_task_from_strings("echo", &args, Some("/tmp")).unwrap();
    let mut ledger = AllocLedger::new();
    let dto = ProcTaskDto::from_c(record, &mut ledger);
    assert_eq!(dto.exec_name, "echo");
    assert_eq!(dto.args, vec![String::from("hello"), String::from("world")]);
    assert_eq!(dto.work_dir, Some(String::from("/tmp")));
    assert_eq!(dto.id, 0);
    assert_eq!(dto.exit_code, 0);
    assert!(!dto.is_success);
}

#[test]
fn task_round_trip_without_work_dir() {
    let args: Vec<String> = Vec::new();
    let record = proc_task_from_strings("ls", &args, None).unwrap();
    assert!(record.work_dir.is_none());
    let mut ledger = AllocLedger::new();
    let dto = ProcTaskDto::from_c(record, &mut ledger);
    assert_eq!(dto.exec_name, "ls");
    assert!(dto.args.is_empty());
    assert_eq!(dto.work_dir, None);
}

#[test]
fn encoding_failure_is_reported_before_any_call() {
    let args = vec![String::from("fine"), String::from("bad\u{0}arg")];
    let err = proc_task_from_strings("echo", &args, None).unwrap_err();
    assert_eq!(err, STATUS_INTERNAL);
    let err = proc_task_from_strings("e\u{0}cho", &Vec::new(), None).unwrap_err();
    assert_eq!(err, STATUS_INTERNAL);
    let err = proc_task_from_strings("echo", &Vec::new(), Some("/t\u{0}mp")).unwrap_err();
    assert_eq!(err, STATUS_INTERNAL);
}

#[test]
fn null_fields_decode_as_absent_or_empty() {
    let record = ProcTask {
        exec_name: None,
        argv: vec![Some(vec![104u8, 105, 0]), None, Some(vec![33u8, 0])],
        work_dir: None,
        id: 7,
        exit_code: 3,
        is_success: 2,
    };
    let mut ledger = AllocLedger::new();
    let dto = ProcTaskDto::from_c(record, &mut ledger);
    assert_eq!(dto.exec_name, "");
    // A null argument entry contributes nothing; the others decode in order.
    assert_eq!(dto.args, vec![String::from("hi"), String::from("!")]);
    assert_eq!(dto.work_dir, None);
    assert_eq!(dto.id, 7);
    assert_eq!(dto.exit_code, 3);
    // Any non-zero success byte reads as true.
    assert!(dto.is_success);
}

#[test]
fn duplicate_copies_every_field() {
    let args = vec![String::from("x")];
    let record = proc_task_from_strings("run", &args, Some("dir")).unwrap();
    let copy = record.duplicate();
    assert_eq!(copy.exec_name, record.exec_name);
    assert_eq!(copy.argv, record.argv);
    assert_eq!(copy.work_dir, record.work_dir);
    assert_eq!(copy.id, record.id);
    assert_eq!(copy.exit_code, record.exit_code);
    assert_eq!(copy.is_success, record.is_success);
}
