use ffbridge::bridge::{
    ffconnect_destroy, ffconnect_init, ffconnect_start_connect, ffconnect_target_path,
    queue_add_task, queue_clear_finished, queue_clear_pending, queue_current_task,
    queue_finished_details, queue_is_running, queue_list_create_queue, queue_list_delete_queue,
    queue_list_destroy, queue_list_finished, queue_list_get_queue, queue_list_init,
    queue_list_list_queue, queue_list_pending, queue_list_rename_queue, queue_list_return_queue,
    queue_pending_details, queue_read_current_output, queue_remove_task, queue_start, queue_stop,
};
use ffbridge::engine::{
    FFModel, ENGINE_BAD_HANDLE, ENGINE_DUPLICATE, ENGINE_NOT_FOUND, ENGINE_NO_CURRENT,
    ENGINE_NO_TARGET,
};
use ffbridge::marshal::STATUS_INTERNAL;
use ffbridge::task::ProcTaskDto;

fn task(exec: &str, args: &[&str], work_dir: Option<&str>) -> ProcTaskDto {
    ProcTaskDto {
        exec_name: String::from(exec),
        args: args.iter().map(|a| String::from(*a)).collect(),
        work_dir: work_dir.map(String::from),
        id: 0,
        exit_code: 0,
        is_success: false,
    }
}

fn engine_with_queue() -> (FFModel, u32) {
    let mut engine = FFModel::new();
    let ch = ffconnect_init(&mut engine, 0).unwrap();
    let dh = queue_list_init(&mut engine, ch).unwrap();
    queue_list_create_queue(&mut engine, dh, "jobs").unwrap();
    let qh = queue_list_get_queue(&engine, dh, "jobs").unwrap();
    (engine, qh)
}

#[test]
fn list_queue_on_empty_directory_is_empty_not_error() {
    let mut engine = FFModel::new();
    let ch = ffconnect_init(&mut engine, 0).unwrap();
    let dh = queue_list_init(&mut engine, ch).unwrap();
    let names = queue_list_list_queue(&mut engine, dh).unwrap();
    assert_eq!(names, Vec::<String>::new());
}

#[test]
fn list_queue_counts_every_name() {
    let mut engine = FFModel::new();
    let ch = ffconnect_init(&mut engine, 0).unwrap();
    let dh = queue_list_init(&mut engine, ch).unwrap();
    queue_list_create_queue(&mut engine, dh, "alpha").unwrap();
    queue_list_create_queue(&mut engine, dh, "beta").unwrap();
    queue_list_create_queue(&mut engine, dh, "gamma").unwrap();
    let names = queue_list_list_queue(&mut engine, dh).unwrap();
    assert_eq!(names, vec!["alpha", "beta", "gamma"]);
}

#[test]
fn create_duplicate_queue_is_refused() {
    let mut engine = FFModel::new();
    let ch = ffconnect_init(&mut engine, 0).unwrap();
    let dh = queue_list_init(&mut engine, ch).unwrap();
    queue_list_create_queue(&mut engine, dh, "jobs").unwrap();
    let err = queue_list_create_queue(&mut engine, dh, "jobs").unwrap_err();
    assert_eq!(err, ENGINE_DUPLICATE);
}

#[test]
fn unencodable_queue_name_is_refused_before_the_engine() {
    let mut engine = FFModel::new();
    let ch = ffconnect_init(&mut engine, 0).unwrap();
    let dh = queue_list_init(&mut engine, ch).unwrap();
    let err = queue_list_create_queue(&mut engine, dh, "jo\u{0}bs").unwrap_err();
    assert_eq!(err, STATUS_INTERNAL);
    assert_eq!(queue_list_list_queue(&mut engine, dh).unwrap(), Vec::<String>::new());
}

#[test]
fn delete_and_rename_queue() {
    let mut engine = FFModel::new();
    let ch = ffconnect_init(&mut engine, 0).unwrap();
    let dh = queue_list_init(&mut engine, ch).unwrap();
    queue_list_create_queue(&mut engine, dh, "one").unwrap();
    queue_list_create_queue(&mut engine, dh, "two").unwrap();
    queue_list_rename_queue(&mut engine, dh, "one", "first").unwrap();
    assert_eq!(queue_list_list_queue(&mut engine, dh).unwrap(), vec!["first", "two"]);
    let err = queue_list_rename_queue(&mut engine, dh, "missing", "x").unwrap_err();
    assert_eq!(err, ENGINE_NOT_FOUND);
    let err = queue_list_rename_queue(&mut engine, dh, "first", "two").unwrap_err();
    assert_eq!(err, ENGINE_DUPLICATE);
    queue_list_delete_queue(&mut engine, dh, "first").unwrap();
    assert_eq!(queue_list_list_queue(&mut engine, dh).unwrap(), vec!["two"]);
    let err = queue_list_delete_queue(&mut engine, dh, "first").unwrap_err();
    assert_eq!(err, ENGINE_NOT_FOUND);
    // The deleted queue's handle is dead.
    let err = queue_list_get_queue(&engine, dh, "first").unwrap_err();
    assert_eq!(err, ENGINE_NOT_FOUND);
}

#[test]
fn submitted_task_appears_in_pending_with_its_details() {
    // Submit "echo hello" with no working directory; the assigned id shows
    // up in the pending list and its details read back unchanged, with the
    // success flag unset.
    let (mut engine, qh) = engine_with_queue();
    queue_add_task(&mut engine, qh, &task("echo", &["hello"], None)).unwrap();
    let pending = queue_list_pending(&mut engine, qh).unwrap();
    assert_eq!(pending, vec![0i32]);
    let details = queue_pending_details(&mut engine, qh, 0).unwrap();
    assert_eq!(details.exec_name, "echo");
    assert_eq!(details.args, vec![String::from("hello")]);
    assert_eq!(details.work_dir, None);
    assert!(!details.is_success);
}

#[test]
fn each_submission_gets_a_fresh_identifier() {
    let (mut engine, qh) = engine_with_queue();
    queue_add_task(&mut engine, qh, &task("a", &[], None)).unwrap();
    queue_add_task(&mut engine, qh, &task("b", &[], None)).unwrap();
    queue_add_task(&mut engine, qh, &task("c", &[], None)).unwrap();
    let pending = queue_list_pending(&mut engine, qh).unwrap();
    assert_eq!(pending, vec![0i32, 1, 2]);
    let b = queue_pending_details(&mut engine, qh, 1).unwrap();
    assert_eq!(b.exec_name, "b");
    assert_eq!(b.id, 1);
}

#[test]
fn unencodable_submission_is_refused_before_the_engine() {
    let (mut engine, qh) = engine_with_queue();
    let err = queue_add_task(&mut engine, qh, &task("echo", &["a\u{0}b"], None)).unwrap_err();
    assert_eq!(err, STATUS_INTERNAL);
    assert_eq!(queue_list_pending(&mut engine, qh).unwrap(), Vec::<i32>::new());
}

#[test]
fn remove_and_clear_pending() {
    let (mut engine, qh) = engine_with_queue();
    queue_add_task(&mut engine, qh, &task("a", &[], None)).unwrap();
    queue_add_task(&mut engine, qh, &task("b", &[], None)).unwrap();
    queue_remove_task(&mut engine, qh, 0).unwrap();
    assert_eq!(queue_list_pending(&mut engine, qh).unwrap(), vec![1i32]);
    let err = queue_remove_task(&mut engine, qh, 0).unwrap_err();
    assert_eq!(err, ENGINE_NOT_FOUND);
    queue_clear_pending(&mut engine, qh).unwrap();
    assert_eq!(queue_list_pending(&mut engine, qh).unwrap(), Vec::<i32>::new());
}

#[test]
fn start_picks_up_the_first_pending_task() {
    let (mut engine, qh) = engine_with_queue();
    assert!(!queue_is_running(&engine, qh));
    queue_add_task(&mut engine, qh, &task("work", &["now"], None)).unwrap();
    let err = queue_current_task(&mut engine, qh).unwrap_err();
    assert_eq!(err, ENGINE_NO_CURRENT);
    queue_start(&mut engine, qh).unwrap();
    assert!(queue_is_running(&engine, qh));
    let current = queue_current_task(&mut engine, qh).unwrap().unwrap();
    assert_eq!(current.exec_name, "work");
    assert_eq!(queue_list_pending(&mut engine, qh).unwrap(), Vec::<i32>::new());
    queue_stop(&mut engine, qh).unwrap();
    assert!(!queue_is_running(&engine, qh));
}

#[test]
fn finished_tasks_keep_their_exit_state() {
    let (mut engine, qh) = engine_with_queue();
    queue_add_task(&mut engine, qh, &task("job", &[], None)).unwrap();
    queue_start(&mut engine, qh).unwrap();
    engine.finish_current(qh, 42, true);
    let finished = queue_list_finished(&mut engine, qh).unwrap();
    assert_eq!(finished, vec![0i32]);
    let details = queue_finished_details(&mut engine, qh, 0).unwrap();
    assert_eq!(details.exec_name, "job");
    assert_eq!(details.exit_code, 42);
    assert!(details.is_success);
    queue_clear_finished(&mut engine, qh).unwrap();
    assert_eq!(queue_list_finished(&mut engine, qh).unwrap(), Vec::<i32>::new());
}

#[test]
fn output_lines_read_back_in_order() {
    let (mut engine, qh) = engine_with_queue();
    assert_eq!(queue_read_current_output(&mut engine, qh).unwrap(), Vec::<String>::new());
    engine.push_output(qh, &b"line one".to_vec());
    engine.push_output(qh, &b"line two".to_vec());
    let lines = queue_read_current_output(&mut engine, qh).unwrap();
    assert_eq!(lines, vec!["line one", "line two"]);
}

#[test]
fn is_running_degrades_to_false_on_a_dead_handle() {
    let engine = FFModel::new();
    assert!(!queue_is_running(&engine, 12345));
}

#[test]
fn dead_handles_are_refused() {
    let mut engine = FFModel::new();
    assert_eq!(queue_list_init(&mut engine, 9).unwrap_err(), ENGINE_BAD_HANDLE);
    assert_eq!(queue_list_pending(&mut engine, 9).unwrap_err(), ENGINE_BAD_HANDLE);
    assert_eq!(queue_start(&mut engine, 9).unwrap_err(), ENGINE_BAD_HANDLE);
    let ch = ffconnect_init(&mut engine, 0).unwrap();
    ffconnect_destroy(&mut engine, ch).unwrap();
    assert_eq!(ffconnect_destroy(&mut engine, ch).unwrap_err(), ENGINE_BAD_HANDLE);
    assert_eq!(queue_list_init(&mut engine, ch).unwrap_err(), ENGINE_BAD_HANDLE);
}

#[test]
fn destroyed_directory_refuses_queue_calls() {
    let mut engine = FFModel::new();
    let ch = ffconnect_init(&mut engine, 0).unwrap();
    let dh = queue_list_init(&mut engine, ch).unwrap();
    queue_list_create_queue(&mut engine, dh, "jobs").unwrap();
    let qh = queue_list_get_queue(&engine, dh, "jobs").unwrap();
    queue_list_return_queue(&engine, dh, qh).unwrap();
    queue_list_destroy(&mut engine, dh).unwrap();
    assert_eq!(queue_list_list_queue(&mut engine, dh).unwrap_err(), ENGINE_BAD_HANDLE);
    assert_eq!(queue_list_return_queue(&engine, dh, qh).unwrap_err(), ENGINE_BAD_HANDLE);
}

#[test]
fn target_path_reads_back_what_was_connected() {
    let mut engine = FFModel::new();
    let ch = ffconnect_init(&mut engine, 0).unwrap();
    let err = ffconnect_target_path(&engine, ch, 64).unwrap_err();
    assert_eq!(err, ENGINE_NO_TARGET);
    ffconnect_start_connect(&mut engine, ch, "127.0.0.1", 8080).unwrap();
    let path = ffconnect_target_path(&engine, ch, 64).unwrap();
    assert_eq!(path, "127.0.0.1");
}

#[test]
fn target_path_truncates_to_the_buffer() {
    let mut engine = FFModel::new();
    let ch = ffconnect_init(&mut engine, 0).unwrap();
    ffconnect_start_connect(&mut engine, ch, "localhost", 1).unwrap();
    let path = ffconnect_target_path(&engine, ch, 5).unwrap();
    assert_eq!(path, "local");
}

#[test]
fn unencodable_target_is_refused_before_the_engine() {
    let mut engine = FFModel::new();
    let ch = ffconnect_init(&mut engine, 0).unwrap();
    let err = ffconnect_start_connect(&mut engine, ch, "ho\u{0}st", 1).unwrap_err();
    assert_eq!(err, STATUS_INTERNAL);
    assert_eq!(ffconnect_target_path(&engine, ch, 8).unwrap_err(), ENGINE_NO_TARGET);
}
