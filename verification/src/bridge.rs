//! The command surface the front end calls, one function per capability.
//!
//! Each command marshals its managed arguments into the engine's C
//! representations, makes the capability call, decodes and releases whatever
//! the engine allocated, and reports a `Result`: the value on success, the
//! engine's status byte untouched on failure. A string that cannot be
//! encoded is refused with the bridge's own reserved status before any
//! engine call. Here the calls go to the fully specified in-memory engine;
//! the unverified rim wires the same marshalling to the native one.

use vstd::prelude::*;

verus! {

use vstd::utf8::encode_utf8;
use crate::engine::{
    ledger_unchanged,
    queue_empty,
    truncated_target,
    ENGINE_BAD_HANDLE,
    ENGINE_DUPLICATE,
    ENGINE_EXHAUSTED,
    ENGINE_NO_TARGET,
    ENGINE_NOT_FOUND,
    FFModel,
    Handle,
    STATUS_OK,
};
use crate::marshal::{
    buffer_content,
    c_content,
    c_image,
    decode_buffer,
    decoded_text,
    encodable,
    encode_c_string,
    lemma_c_content_of_image,
    lemma_first_nul_is,
    STATUS_INTERNAL,
};
use crate::ownership::{decode_id_array, decode_str_array};
use crate::task::{
    decoded_args,
    decoded_or_empty,
    encoded_args,
    proc_task_from_strings,
    submission_encodable,
    with_id,
    ProcTaskDto,
    TaskModel,
};

/// Whether every string of a task value can cross the boundary.
pub open spec fn dto_encodable(task: ProcTaskDto) -> bool {
    submission_encodable(
        task.exec_name@,
        task.args.deep_view(),
        match task.work_dir {
            Some(w) => Some(w@),
            None => None,
        },
    )
}

/// The engine-side record a task value is submitted as, under the identifier
/// the engine assigns.
pub open spec fn submitted_model(task: ProcTaskDto, id: int) -> TaskModel {
    TaskModel {
        exec_name: Some(c_image(task.exec_name@)),
        argv: encoded_args(task.args.deep_view()),
        work_dir: match task.work_dir {
            Some(w) => Some(c_image(w@)),
            None => None,
        },
        id: id,
        exit_code: 0,
        is_success: 0,
    }
}

/// Whether a task value is the decoding of an engine task record.
pub open spec fn dto_decodes(m: TaskModel, dto: ProcTaskDto) -> bool {
    &&& dto.exec_name@ == decoded_or_empty(m.exec_name)
    &&& dto.args.deep_view() == decoded_args(m.argv)
    &&& dto.work_dir.deep_view() == match m.work_dir {
        Some(b) => Some(decoded_text(c_content(b))),
        None => None::<Seq<char>>,
    }
    &&& dto.id as int == m.id
    &&& dto.exit_code as int == m.exit_code
    &&& dto.is_success == (m.is_success != 0)
}

/// A submitted task reads back exactly: whatever decodes the record a task
/// was submitted as carries the same executable name, the same argument
/// sequence, the same working directory — present or absent — the assigned
/// identifier, and an unset success flag.
pub proof fn lemma_submission_round_trip(task: ProcTaskDto, id: int, decoded: ProcTaskDto)
    requires
        dto_encodable(task),
        dto_decodes(submitted_model(task, id), decoded),
    ensures
        decoded.exec_name@ == task.exec_name@,
        decoded.args.deep_view() == task.args.deep_view(),
        decoded.work_dir.deep_view() == task.work_dir.deep_view(),
        decoded.id as int == id,
        decoded.exit_code == 0,
        !decoded.is_success,
{
    let work_dir = match task.work_dir {
        Some(w) => Some(w@),
        None => None,
    };
    crate::task::lemma_task_round_trip(task.exec_name@, task.args.deep_view(), work_dir);
}

/// Create a connection against the given backend.
pub fn ffconnect_init(engine: &mut FFModel, backend: u8) -> (r: Result<Handle, u8>)
    requires
        old(engine).wf(),
    ensures
        final(engine).wf(),
        ledger_unchanged(old(engine).ledger, final(engine).ledger),
        final(engine).directories == old(engine).directories,
        final(engine).queues == old(engine).queues,
        r is Ok <==> old(engine).connections@.len() < u32::MAX as usize,
        r matches Ok(h) ==> {
            &&& h as int == old(engine).connections@.len()
            &&& final(engine).connections@.len() == old(engine).connections@.len() + 1
            &&& forall|k: int|
                0 <= k < old(engine).connections@.len() ==> final(engine).connections@[k] == old(engine).connections@[k]
            &&& final(engine).valid_connection(h)
            &&& final(engine).connection_at(h).backend == backend
            &&& final(engine).connection_at(h).target is None
        },
        r matches Err(e) ==> e == ENGINE_EXHAUSTED && *final(engine) == *old(engine),
{
    let (status, h) = engine.connect_init(backend);
    if status == STATUS_OK {
        Ok(h)
    } else {
        Err(status)
    }
}

/// Destroy a connection.
pub fn ffconnect_destroy(engine: &mut FFModel, h: Handle) -> (r: Result<(), u8>)
    requires
        old(engine).wf(),
    ensures
        final(engine).wf(),
        ledger_unchanged(old(engine).ledger, final(engine).ledger),
        final(engine).directories == old(engine).directories,
        final(engine).queues == old(engine).queues,
        r is Ok <==> old(engine).valid_connection(h),
        r is Ok ==> final(engine).connections@ == old(engine).connections@.update(
            h as int,
            None::<crate::engine::FFConnect>,
        ),
        r matches Err(e) ==> e == ENGINE_BAD_HANDLE && *final(engine) == *old(engine),
{
    let status = engine.connect_destroy(h);
    if status == STATUS_OK {
        Ok(())
    } else {
        Err(status)
    }
}

/// Point a connection at a target. The target string lives only for the
/// call; an unencodable target is refused before the engine is reached.
pub fn ffconnect_start_connect(engine: &mut FFModel, h: Handle, target: &str, port: i32) -> (r:
    Result<(), u8>)
    requires
        old(engine).wf(),
    ensures
        final(engine).wf(),
        ledger_unchanged(old(engine).ledger, final(engine).ledger),
        final(engine).directories == old(engine).directories,
        final(engine).queues == old(engine).queues,
        r is Ok <==> encodable(target@) && old(engine).valid_connection(h),
        !encodable(target@) ==> r == Err::<(), u8>(STATUS_INTERNAL) && *final(engine) == *old(engine),
        encodable(target@) && !old(engine).valid_connection(h) ==> r == Err::<(), u8>(
            ENGINE_BAD_HANDLE,
        ) && *final(engine) == *old(engine),
        r is Ok ==> {
            &&& final(engine).connections@.len() == old(engine).connections@.len()
            &&& forall|k: int|
                0 <= k < old(engine).connections@.len() && k != h as int ==> final(engine).connections@[k] == old(engine).connections@[k]
            &&& final(engine).valid_connection(h)
            &&& final(engine).connection_at(h).backend == old(engine).connection_at(h).backend
            &&& final(engine).connection_at(h).target == Some(
                final(engine).connection_at(h).target->0,
            )
            &&& final(engine).connection_at(h).target->0@ == encode_utf8(target@)
            &&& final(engine).connection_at(h).port == port
        },
{
    let image = match encode_c_string(target) {
        Ok(image) => image,
        Err(status) => {
            return Err(status);
        },
    };
    proof {
        lemma_c_content_of_image(encode_utf8(target@));
    }
    let status = engine.start_connect(h, &image, port);
    if status == STATUS_OK {
        Ok(())
    } else {
        Err(status)
    }
}

/// Read the connection's target path through a caller-chosen buffer
/// capacity. The engine fills the buffer and reports a size; the decoded
/// text stops at the first null terminator the engine wrote, never at the
/// reported size.
pub fn ffconnect_target_path(engine: &FFModel, h: Handle, buf_size: usize) -> (r: Result<
    String,
    u8,
>)
    requires
        engine.wf(),
    ensures
        r is Ok <==> engine.valid_connection(h) && engine.connection_at(h).target is Some,
        r matches Ok(s) ==> s@ == decoded_text(
            truncated_target(engine.connection_at(h).target->0@, buf_size as int),
        ),
        !engine.valid_connection(h) ==> r == Err::<String, u8>(ENGINE_BAD_HANDLE),
        engine.valid_connection(h) && engine.connection_at(h).target is None ==> r == Err::<
            String,
            u8,
        >(ENGINE_NO_TARGET),
{
    let mut buf: Vec<u8> = vec![0u8; buf_size];
    let mut size: usize = buf_size;
    let status = engine.target_path(h, &mut buf, &mut size);
    if status != STATUS_OK {
        return Err(status);
    }
    proof {
        let t = engine.connection_at(h).target->0@;
        let cap = buf_size as int;
        let n = crate::engine::written_len(t, cap);
        assert forall|j: int| 0 <= j < n implies buf@[j] != 0 by {
            if buf@[j] == 0 {
                assert(t[j] == 0);
                assert(t.contains(0u8));
            }
        }
        if t.len() < cap {
            lemma_first_nul_is(buf@, n);
            assert(buffer_content(buf@, size as int) =~= t);
        } else {
            lemma_first_nul_is(buf@, n);
            assert(buffer_content(buf@, size as int) =~= t.take(cap));
        }
    }
    Ok(decode_buffer(&buf, size))
}

/// Create a queue directory against a connection.
pub fn queue_list_init(engine: &mut FFModel, connect: Handle) -> (r: Result<Handle, u8>)
    requires
        old(engine).wf(),
    ensures
        final(engine).wf(),
        ledger_unchanged(old(engine).ledger, final(engine).ledger),
        final(engine).connections == old(engine).connections,
        final(engine).queues == old(engine).queues,
        r is Ok <==> old(engine).valid_connection(connect) && old(engine).directories@.len()
            < u32::MAX as usize,
        r matches Ok(h) ==> {
            &&& h as int == old(engine).directories@.len()
            &&& final(engine).directories@.len() == old(engine).directories@.len() + 1
            &&& forall|k: int|
                0 <= k < old(engine).directories@.len() ==> final(engine).directories@[k] == old(engine).directories@[k]
            &&& final(engine).valid_directory(h)
            &&& final(engine).directory_at(h).entries@.len() == 0
        },
        r matches Err(e) ==> *final(engine) == *old(engine) && (e == ENGINE_BAD_HANDLE || e
            == ENGINE_EXHAUSTED),
        !old(engine).valid_connection(connect) ==> r == Err::<Handle, u8>(ENGINE_BAD_HANDLE),
{
    let (status, h) = engine.queue_list_init(connect);
    if status == STATUS_OK {
        Ok(h)
    } else {
        Err(status)
    }
}

/// Destroy a queue directory.
pub fn queue_list_destroy(engine: &mut FFModel, h: Handle) -> (r: Result<(), u8>)
    requires
        old(engine).wf(),
    ensures
        final(engine).wf(),
        ledger_unchanged(old(engine).ledger, final(engine).ledger),
        final(engine).connections == old(engine).connections,
        final(engine).queues == old(engine).queues,
        r is Ok <==> old(engine).valid_directory(h),
        r is Ok ==> final(engine).directories@ == old(engine).directories@.update(
            h as int,
            None::<crate::engine::FFQueueList>,
        ),
        r matches Err(e) ==> e == ENGINE_BAD_HANDLE && *final(engine) == *old(engine),
{
    let status = engine.queue_list_destroy(h);
    if status == STATUS_OK {
        Ok(())
    } else {
        Err(status)
    }
}

/// Create a queue under the given name. An unencodable name is refused
/// before the engine is reached.
pub fn queue_list_create_queue(engine: &mut FFModel, h: Handle, name: &str) -> (r: Result<
    (),
    u8,
>)
    requires
        old(engine).wf(),
    ensures
        final(engine).wf(),
        ledger_unchanged(old(engine).ledger, final(engine).ledger),
        final(engine).connections == old(engine).connections,
        r is Ok <==> encodable(name@) && old(engine).valid_directory(h) && !old(engine).directory_at(h).has_name(encode_utf8(name@)) && old(engine).queues@.len() < u32::MAX
            as usize,
        !encodable(name@) ==> r == Err::<(), u8>(STATUS_INTERNAL) && *final(engine) == *old(engine),
        encodable(name@) && !old(engine).valid_directory(h) ==> r == Err::<(), u8>(
            ENGINE_BAD_HANDLE,
        ),
        encodable(name@) && old(engine).valid_directory(h) && old(engine).directory_at(
            h,
        ).has_name(encode_utf8(name@)) ==> r == Err::<(), u8>(ENGINE_DUPLICATE),
        r is Err ==> *final(engine) == *old(engine),
        r is Ok ==> {
            &&& final(engine).valid_directory(h)
            &&& final(engine).directory_at(h).entries@ == old(engine).directory_at(
                h,
            ).entries@.push(final(engine).directory_at(h).entries@.last())
            &&& final(engine).directory_at(h).entries@.last().name@ == encode_utf8(name@)
            &&& final(engine).directory_at(h).has_name(encode_utf8(name@))
            &&& final(engine).valid_queue(final(engine).directory_at(h).entries@.last().queue)
            &&& queue_empty(
                final(engine).queue_at(final(engine).directory_at(h).entries@.last().queue),
            )
            &&& final(engine).queues@.len() == old(engine).queues@.len() + 1
            &&& forall|k: int|
                0 <= k < old(engine).queues@.len() ==> final(engine).queues@[k] == old(engine).queues@[k]
            &&& final(engine).directories@.len() == old(engine).directories@.len()
            &&& forall|k: int|
                0 <= k < old(engine).directories@.len() && k != h as int ==> final(engine).directories@[k] == old(engine).directories@[k]
        },
{
    let image = match encode_c_string(name) {
        Ok(image) => image,
        Err(status) => {
            return Err(status);
        },
    };
    proof {
        lemma_c_content_of_image(encode_utf8(name@));
    }
    let status = engine.create_queue(h, &image);
    if status == STATUS_OK {
        proof {
            let dir = engine.directory_at(h);
            crate::engine::lemma_index_of_entry(dir, dir.entries@.len() - 1);
        }
        Ok(())
    } else {
        Err(status)
    }
}

/// List the queue names a directory holds. Every engine allocation behind
/// the listing is decoded into an owned string and released, exactly once;
/// an empty directory lists as an empty sequence, not an error.
pub fn queue_list_list_queue(engine: &mut FFModel, h: Handle) -> (r: Result<Vec<String>, u8>)
    requires
        old(engine).wf(),
    ensures
        final(engine).wf(),
        final(engine).connections == old(engine).connections,
        final(engine).directories == old(engine).directories,
        final(engine).queues == old(engine).queues,
        r is Ok <==> old(engine).valid_directory(h),
        r matches Ok(v) ==> {
            &&& v@.len() == old(engine).directory_at(h).names().len()
            &&& forall|i: int|
                0 <= i < v@.len() ==> (#[trigger] v@[i])@ == decoded_text(
                    old(engine).directory_at(h).names()[i],
                )
            &&& final(engine).ledger.generic_allocated@ - old(engine).ledger.generic_allocated@
                == final(engine).ledger.generic_freed@ - old(engine).ledger.generic_freed@
            &&& final(engine).ledger.task_allocated@ == old(engine).ledger.task_allocated@
            &&& final(engine).ledger.task_freed@ == old(engine).ledger.task_freed@
        },
        r matches Err(e) ==> e == ENGINE_BAD_HANDLE && *final(engine) == *old(engine),
{
    let (status, arr) = engine.list_queue(h);
    if status != STATUS_OK {
        return Err(status);
    }
    proof {
        let names = old(engine).directory_at(h).names();
        assert forall|i: int| 0 <= i < arr.items().len() implies c_content(arr.items()[i])
            == names[i] && !names[i].contains(0u8) by {
            assert(old(engine).directory_at(h).wf());
            assert(!(old(engine).directory_at(h).entries@[i].name@).contains(0u8));
            lemma_c_content_of_image(names[i]);
        }
    }
    let decoded = decode_str_array(arr, &mut engine.ledger);
    Ok(decoded)
}

/// Delete the queue with the given name. An unencodable name is refused
/// before the engine is reached.
pub fn queue_list_delete_queue(engine: &mut FFModel, h: Handle, name: &str) -> (r: Result<
    (),
    u8,
>)
    requires
        old(engine).wf(),
    ensures
        final(engine).wf(),
        ledger_unchanged(old(engine).ledger, final(engine).ledger),
        final(engine).connections == old(engine).connections,
        r is Ok <==> encodable(name@) && old(engine).valid_directory(h) && old(engine).directory_at(h).has_name(encode_utf8(name@)),
        !encodable(name@) ==> r == Err::<(), u8>(STATUS_INTERNAL) && *final(engine) == *old(engine),
        encodable(name@) && !old(engine).valid_directory(h) ==> r == Err::<(), u8>(
            ENGINE_BAD_HANDLE,
        ),
        encodable(name@) && old(engine).valid_directory(h) && !old(engine).directory_at(
            h,
        ).has_name(encode_utf8(name@)) ==> r == Err::<(), u8>(ENGINE_NOT_FOUND),
        r is Err ==> *final(engine) == *old(engine),
        r is Ok ==> ({
            let i = old(engine).directory_at(h).index_of(encode_utf8(name@));
            &&& final(engine).valid_directory(h)
            &&& final(engine).directory_at(h).entries@ == old(engine).directory_at(
                h,
            ).entries@.remove(i)
            &&& final(engine).queues@ == old(engine).queues@.update(
                old(engine).directory_at(h).entries@[i].queue as int,
                None::<crate::engine::FFQueue>,
            )
            &&& final(engine).directories@.len() == old(engine).directories@.len()
            &&& forall|k: int|
                0 <= k < old(engine).directories@.len() && k != h as int ==> final(engine).directories@[k] == old(engine).directories@[k]
        }),
{
    let image = match encode_c_string(name) {
        Ok(image) => image,
        Err(status) => {
            return Err(status);
        },
    };
    proof {
        lemma_c_content_of_image(encode_utf8(name@));
    }
    let status = engine.delete_queue(h, &image);
    if status == STATUS_OK {
        Ok(())
    } else {
        Err(status)
    }
}

/// Rename a queue. Unencodable names are refused before the engine is
/// reached; the new name must be free.
pub fn queue_list_rename_queue(
    engine: &mut FFModel,
    h: Handle,
    old_name: &str,
    new_name: &str,
) -> (r: Result<(), u8>)
    requires
        old(engine).wf(),
    ensures
        final(engine).wf(),
        ledger_unchanged(old(engine).ledger, final(engine).ledger),
        final(engine).connections == old(engine).connections,
        final(engine).queues == old(engine).queues,
        r is Ok <==> encodable(old_name@) && encodable(new_name@) && old(engine).valid_directory(h) && old(engine).directory_at(h).has_name(encode_utf8(old_name@))
            && !old(engine).directory_at(h).has_name(encode_utf8(new_name@)),
        !(encodable(old_name@) && encodable(new_name@)) ==> r == Err::<(), u8>(STATUS_INTERNAL)
            && *final(engine) == *old(engine),
        r is Err ==> *final(engine) == *old(engine),
        r is Ok ==> ({
            let i = old(engine).directory_at(h).index_of(encode_utf8(old_name@));
            &&& final(engine).valid_directory(h)
            &&& final(engine).directory_at(h).entries@.len() == old(engine).directory_at(
                h,
            ).entries@.len()
            &&& forall|k: int|
                0 <= k < old(engine).directory_at(h).entries@.len() && k != i ==> final(engine).directory_at(h).entries@[k] == old(engine).directory_at(h).entries@[k]
            &&& final(engine).directory_at(h).entries@[i].name@ == encode_utf8(new_name@)
            &&& final(engine).directory_at(h).entries@[i].queue == old(engine).directory_at(
                h,
            ).entries@[i].queue
            &&& final(engine).directories@.len() == old(engine).directories@.len()
            &&& forall|k: int|
                0 <= k < old(engine).directories@.len() && k != h as int ==> final(engine).directories@[k] == old(engine).directories@[k]
        }),
{
    let old_image = match encode_c_string(old_name) {
        Ok(image) => image,
        Err(status) => {
            return Err(status);
        },
    };
    let new_image = match encode_c_string(new_name) {
        Ok(image) => image,
        Err(status) => {
            return Err(status);
        },
    };
    proof {
        lemma_c_content_of_image(encode_utf8(old_name@));
        lemma_c_content_of_image(encode_utf8(new_name@));
    }
    let status = engine.rename_queue(h, &old_image, &new_image);
    if status == STATUS_OK {
        Ok(())
    } else {
        Err(status)
    }
}

/// Look up the handle of the queue with the given name. An unencodable name
/// is refused before the engine is reached.
pub fn queue_list_get_queue(engine: &FFModel, h: Handle, name: &str) -> (r: Result<Handle, u8>)
    requires
        engine.wf(),
    ensures
        r is Ok <==> encodable(name@) && engine.valid_directory(h) && engine.directory_at(
            h,
        ).has_name(encode_utf8(name@)),
        !encodable(name@) ==> r == Err::<Handle, u8>(STATUS_INTERNAL),
        r matches Ok(q) ==> q == engine.directory_at(h).handle_for(encode_utf8(name@))
            && engine.valid_queue(q),
{
    let image = match encode_c_string(name) {
        Ok(image) => image,
        Err(status) => {
            return Err(status);
        },
    };
    proof {
        lemma_c_content_of_image(encode_utf8(name@));
    }
    let (status, q) = engine.get_queue(h, &image);
    if status == STATUS_OK {
        Ok(q)
    } else {
        Err(status)
    }
}

/// Hand a queue handle back to its directory.
pub fn queue_list_return_queue(engine: &FFModel, h: Handle, queue: Handle) -> (r: Result<
    (),
    u8,
>)
    requires
        engine.wf(),
    ensures
        r is Ok <==> engine.valid_directory(h) && engine.valid_queue(queue),
        r matches Err(e) ==> e == ENGINE_BAD_HANDLE,
{
    let status = engine.return_queue(h, queue);
    if status == STATUS_OK {
        Ok(())
    } else {
        Err(status)
    }
}

/// List the identifiers of the pending tasks. The engine's flat array is
/// copied out and released, exactly once; an empty queue lists as an empty
/// sequence, not an error.
pub fn queue_list_pending(engine: &mut FFModel, h: Handle) -> (r: Result<Vec<i32>, u8>)
    requires
        old(engine).wf(),
    ensures
        final(engine).wf(),
        final(engine).connections == old(engine).connections,
        final(engine).directories == old(engine).directories,
        final(engine).queues == old(engine).queues,
        r is Ok <==> old(engine).valid_queue(h),
        r matches Ok(v) ==> {
            &&& v@ == old(engine).queue_at(h).pending_ids()
            &&& final(engine).ledger.generic_allocated@ - old(engine).ledger.generic_allocated@
                == final(engine).ledger.generic_freed@ - old(engine).ledger.generic_freed@
            &&& final(engine).ledger.task_allocated@ == old(engine).ledger.task_allocated@
            &&& final(engine).ledger.task_freed@ == old(engine).ledger.task_freed@
        },
        r matches Err(e) ==> e == ENGINE_BAD_HANDLE && *final(engine) == *old(engine),
{
    let (status, arr) = engine.list_pending(h);
    if status != STATUS_OK {
        return Err(status);
    }
    let ids = decode_id_array(arr, &mut engine.ledger);
    Ok(ids)
}

/// List the identifiers of the finished tasks. The engine's flat array is
/// copied out and released, exactly once; an empty list is a valid result.
pub fn queue_list_finished(engine: &mut FFModel, h: Handle) -> (r: Result<Vec<i32>, u8>)
    requires
        old(engine).wf(),
    ensures
        final(engine).wf(),
        final(engine).connections == old(engine).connections,
        final(engine).directories == old(engine).directories,
        final(engine).queues == old(engine).queues,
        r is Ok <==> old(engine).valid_queue(h),
        r matches Ok(v) ==> {
            &&& v@ == old(engine).queue_at(h).finished_ids()
            &&& final(engine).ledger.generic_allocated@ - old(engine).ledger.generic_allocated@
                == final(engine).ledger.generic_freed@ - old(engine).ledger.generic_freed@
            &&& final(engine).ledger.task_allocated@ == old(engine).ledger.task_allocated@
            &&& final(engine).ledger.task_freed@ == old(engine).ledger.task_freed@
        },
        r matches Err(e) ==> e == ENGINE_BAD_HANDLE && *final(engine) == *old(engine),
{
    let (status, arr) = engine.list_finished(h);
    if status != STATUS_OK {
        return Err(status);
    }
    let ids = decode_id_array(arr, &mut engine.ledger);
    Ok(ids)
}

/// Fetch the pending task with the given identifier as an owned value. The
/// engine's record copy is decoded and released through the structured
/// destructor, exactly once.
pub fn queue_pending_details(engine: &mut FFModel, h: Handle, id: i32) -> (r: Result<
    ProcTaskDto,
    u8,
>)
    requires
        old(engine).wf(),
    ensures
        final(engine).wf(),
        final(engine).connections == old(engine).connections,
        final(engine).directories == old(engine).directories,
        final(engine).queues == old(engine).queues,
        r is Ok <==> old(engine).valid_queue(h) && crate::engine::has_id(
            old(engine).queue_at(h).pending@,
            id,
        ),
        r matches Ok(dto) ==> {
            &&& dto_decodes(
                old(engine).queue_at(h).pending@[crate::engine::find_by_id(
                    old(engine).queue_at(h).pending@,
                    id,
                )].model(),
                dto,
            )
            &&& final(engine).ledger.task_allocated@ == old(engine).ledger.task_allocated@ + 1
            &&& final(engine).ledger.task_freed@ == old(engine).ledger.task_freed@ + 1
            &&& final(engine).ledger.generic_allocated@ == old(engine).ledger.generic_allocated@
            &&& final(engine).ledger.generic_freed@ == old(engine).ledger.generic_freed@
        },
        r matches Err(e) ==> *final(engine) == *old(engine) && (e == ENGINE_BAD_HANDLE || e
            == ENGINE_NOT_FOUND),
        !old(engine).valid_queue(h) ==> r == Err::<ProcTaskDto, u8>(ENGINE_BAD_HANDLE),
{
    let (status, out) = engine.pending_details(h, id);
    match out {
        Some(task) => {
            if status == STATUS_OK {
                Ok(ProcTaskDto::from_c(task, &mut engine.ledger))
            } else {
                Err(status)
            }
        },
        None => Err(status),
    }
}

/// Fetch the finished task with the given identifier as an owned value. The
/// engine's record copy is decoded and released through the structured
/// destructor, exactly once.
pub fn queue_finished_details(engine: &mut FFModel, h: Handle, id: i32) -> (r: Result<
    ProcTaskDto,
    u8,
>)
    requires
        old(engine).wf(),
    ensures
        final(engine).wf(),
        final(engine).connections == old(engine).connections,
        final(engine).directories == old(engine).directories,
        final(engine).queues == old(engine).queues,
        r is Ok <==> old(engine).valid_queue(h) && crate::engine::has_id(
            old(engine).queue_at(h).finished@,
            id,
        ),
        r matches Ok(dto) ==> {
            &&& dto_decodes(
                old(engine).queue_at(h).finished@[crate::engine::find_by_id(
                    old(engine).queue_at(h).finished@,
                    id,
                )].model(),
                dto,
            )
            &&& final(engine).ledger.task_allocated@ == old(engine).ledger.task_allocated@ + 1
            &&& final(engine).ledger.task_freed@ == old(engine).ledger.task_freed@ + 1
            &&& final(engine).ledger.generic_allocated@ == old(engine).ledger.generic_allocated@
            &&& final(engine).ledger.generic_freed@ == old(engine).ledger.generic_freed@
        },
        r matches Err(e) ==> *final(engine) == *old(engine) && (e == ENGINE_BAD_HANDLE || e
            == ENGINE_NOT_FOUND),
        !old(engine).valid_queue(h) ==> r == Err::<ProcTaskDto, u8>(ENGINE_BAD_HANDLE),
{
    let (status, out) = engine.finished_details(h, id);
    match out {
        Some(task) => {
            if status == STATUS_OK {
                Ok(ProcTaskDto::from_c(task, &mut engine.ledger))
            } else {
                Err(status)
            }
        },
        None => Err(status),
    }
}

/// Fetch the currently executing task as an owned value. The engine's record
/// copy is decoded and released through the structured destructor, exactly
/// once.
pub fn queue_current_task(engine: &mut FFModel, h: Handle) -> (r: Result<
    Option<ProcTaskDto>,
    u8,
>)
    requires
        old(engine).wf(),
    ensures
        final(engine).wf(),
        final(engine).connections == old(engine).connections,
        final(engine).directories == old(engine).directories,
        final(engine).queues == old(engine).queues,
        r is Ok <==> old(engine).valid_queue(h) && old(engine).queue_at(h).current is Some,
        r matches Ok(out) ==> {
            &&& out is Some
            &&& dto_decodes(old(engine).queue_at(h).current->0.model(), out->0)
            &&& final(engine).ledger.task_allocated@ == old(engine).ledger.task_allocated@ + 1
            &&& final(engine).ledger.task_freed@ == old(engine).ledger.task_freed@ + 1
            &&& final(engine).ledger.generic_allocated@ == old(engine).ledger.generic_allocated@
            &&& final(engine).ledger.generic_freed@ == old(engine).ledger.generic_freed@
        },
        r matches Err(e) ==> *final(engine) == *old(engine) && (e == ENGINE_BAD_HANDLE || e
            == crate::engine::ENGINE_NO_CURRENT),
        !old(engine).valid_queue(h) ==> r == Err::<Option<ProcTaskDto>, u8>(ENGINE_BAD_HANDLE),
{
    let (status, out) = engine.current_task(h);
    match out {
        Some(task) => {
            if status == STATUS_OK {
                Ok(Some(ProcTaskDto::from_c(task, &mut engine.ledger)))
            } else {
                Err(status)
            }
        },
        None => Err(status),
    }
}

/// Submit a task. Its strings are encoded into a fresh engine-side record —
/// an unencodable string is refused before the engine is reached — and the
/// engine stores its own copy under the identifier it assigns.
pub fn queue_add_task(engine: &mut FFModel, h: Handle, task: &ProcTaskDto) -> (r: Result<
    (),
    u8,
>)
    requires
        old(engine).wf(),
    ensures
        final(engine).wf(),
        ledger_unchanged(old(engine).ledger, final(engine).ledger),
        final(engine).connections == old(engine).connections,
        final(engine).directories == old(engine).directories,
        r is Ok <==> dto_encodable(*task) && old(engine).valid_queue(h) && old(engine).queue_at(
            h,
        ).next_id < i32::MAX,
        !dto_encodable(*task) ==> r == Err::<(), u8>(STATUS_INTERNAL) && *final(engine) == *old(engine),
        dto_encodable(*task) && !old(engine).valid_queue(h) ==> r == Err::<(), u8>(
            ENGINE_BAD_HANDLE,
        ),
        r is Err ==> *final(engine) == *old(engine),
        r is Ok ==> ({
            let q1 = old(engine).queue_at(h);
            let q2 = final(engine).queue_at(h);
            &&& crate::engine::same_except_queue(*old(engine), *final(engine), h)
            &&& q2.pending_models() == q1.pending_models().push(
                submitted_model(*task, q1.next_id as int),
            )
            &&& q2.finished == q1.finished
            &&& q2.current == q1.current
            &&& q2.running == q1.running
            &&& q2.output == q1.output
            &&& q2.next_id == q1.next_id + 1
        }),
{
    let record = match proc_task_from_strings(
        task.exec_name.as_str(),
        &task.args,
        match &task.work_dir {
            Some(w) => Some(w.as_str()),
            None => None,
        },
    ) {
        Ok(record) => record,
        Err(status) => {
            return Err(status);
        },
    };
    let status = engine.add_task(h, &record);
    if status == STATUS_OK {
        proof {
            let q1 = old(engine).queue_at(h);
            assert(with_id(record.model(), q1.next_id as int) == submitted_model(
                *task,
                q1.next_id as int,
            ));
        }
        Ok(())
    } else {
        Err(status)
    }
}

/// Withdraw the pending task with the given identifier.
pub fn queue_remove_task(engine: &mut FFModel, h: Handle, id: i32) -> (r: Result<(), u8>)
    requires
        old(engine).wf(),
    ensures
        final(engine).wf(),
        ledger_unchanged(old(engine).ledger, final(engine).ledger),
        final(engine).connections == old(engine).connections,
        final(engine).directories == old(engine).directories,
        r is Ok <==> old(engine).valid_queue(h) && crate::engine::has_id(
            old(engine).queue_at(h).pending@,
            id,
        ),
        !old(engine).valid_queue(h) ==> r == Err::<(), u8>(ENGINE_BAD_HANDLE),
        r is Err ==> *final(engine) == *old(engine) && (r->Err_0 == ENGINE_BAD_HANDLE || r->Err_0
            == ENGINE_NOT_FOUND),
        r is Ok ==> ({
            let q1 = old(engine).queue_at(h);
            let q2 = final(engine).queue_at(h);
            &&& crate::engine::same_except_queue(*old(engine), *final(engine), h)
            &&& q2.pending@ == q1.pending@.remove(crate::engine::find_by_id(q1.pending@, id))
            &&& q2.finished == q1.finished
            &&& q2.current == q1.current
            &&& q2.running == q1.running
            &&& q2.output == q1.output
            &&& q2.next_id == q1.next_id
        }),
{
    let status = engine.remove_task(h, id);
    if status == STATUS_OK {
        Ok(())
    } else {
        Err(status)
    }
}

/// Drop every pending task.
pub fn queue_clear_pending(engine: &mut FFModel, h: Handle) -> (r: Result<(), u8>)
    requires
        old(engine).wf(),
    ensures
        final(engine).wf(),
        ledger_unchanged(old(engine).ledger, final(engine).ledger),
        final(engine).connections == old(engine).connections,
        final(engine).directories == old(engine).directories,
        r is Ok <==> old(engine).valid_queue(h),
        r matches Err(e) ==> e == ENGINE_BAD_HANDLE && *final(engine) == *old(engine),
        r is Ok ==> ({
            let q1 = old(engine).queue_at(h);
            let q2 = final(engine).queue_at(h);
            &&& crate::engine::same_except_queue(*old(engine), *final(engine), h)
            &&& q2.pending@.len() == 0
            &&& q2.finished == q1.finished
            &&& q2.current == q1.current
            &&& q2.running == q1.running
            &&& q2.output == q1.output
            &&& q2.next_id == q1.next_id
        }),
{
    let status = engine.clear_pending(h);
    if status == STATUS_OK {
        Ok(())
    } else {
        Err(status)
    }
}

/// Drop every finished task.
pub fn queue_clear_finished(engine: &mut FFModel, h: Handle) -> (r: Result<(), u8>)
    requires
        old(engine).wf(),
    ensures
        final(engine).wf(),
        ledger_unchanged(old(engine).ledger, final(engine).ledger),
        final(engine).connections == old(engine).connections,
        final(engine).directories == old(engine).directories,
        r is Ok <==> old(engine).valid_queue(h),
        r matches Err(e) ==> e == ENGINE_BAD_HANDLE && *final(engine) == *old(engine),
        r is Ok ==> ({
            let q1 = old(engine).queue_at(h);
            let q2 = final(engine).queue_at(h);
            &&& crate::engine::same_except_queue(*old(engine), *final(engine), h)
            &&& q2.finished@.len() == 0
            &&& q2.pending == q1.pending
            &&& q2.current == q1.current
            &&& q2.running == q1.running
            &&& q2.output == q1.output
            &&& q2.next_id == q1.next_id
        }),
{
    let status = engine.clear_finished(h);
    if status == STATUS_OK {
        Ok(())
    } else {
        Err(status)
    }
}

/// Whether the queue is executing. There is no error case: an engine-level
/// failure degrades to "not running".
pub fn queue_is_running(engine: &FFModel, h: Handle) -> (r: bool)
    requires
        engine.wf(),
    ensures
        r <==> engine.valid_queue(h) && engine.queue_at(h).running,
{
    engine.is_running(h) != 0
}

/// Read the captured output of the executing task, one owned string per
/// line. Every engine allocation behind the listing is released, exactly
/// once; no output reads as an empty sequence, not an error.
pub fn queue_read_current_output(engine: &mut FFModel, h: Handle) -> (r: Result<
    Vec<String>,
    u8,
>)
    requires
        old(engine).wf(),
    ensures
        final(engine).wf(),
        final(engine).connections == old(engine).connections,
        final(engine).directories == old(engine).directories,
        final(engine).queues == old(engine).queues,
        r is Ok <==> old(engine).valid_queue(h),
        r matches Ok(v) ==> {
            &&& v@.len() == old(engine).queue_at(h).output_lines().len()
            &&& forall|i: int|
                0 <= i < v@.len() ==> (#[trigger] v@[i])@ == decoded_text(
                    c_content(old(engine).queue_at(h).output_lines()[i].push(0u8)),
                )
            &&& final(engine).ledger.generic_allocated@ - old(engine).ledger.generic_allocated@
                == final(engine).ledger.generic_freed@ - old(engine).ledger.generic_freed@
            &&& final(engine).ledger.task_allocated@ == old(engine).ledger.task_allocated@
            &&& final(engine).ledger.task_freed@ == old(engine).ledger.task_freed@
        },
        r matches Err(e) ==> e == ENGINE_BAD_HANDLE && *final(engine) == *old(engine),
{
    let (status, arr) = engine.read_current_output(h);
    if status != STATUS_OK {
        return Err(status);
    }
    let lines = decode_str_array(arr, &mut engine.ledger);
    Ok(lines)
}

/// Start the queue.
pub fn queue_start(engine: &mut FFModel, h: Handle) -> (r: Result<(), u8>)
    requires
        old(engine).wf(),
    ensures
        final(engine).wf(),
        ledger_unchanged(old(engine).ledger, final(engine).ledger),
        final(engine).connections == old(engine).connections,
        final(engine).directories == old(engine).directories,
        r is Ok <==> old(engine).valid_queue(h),
        r matches Err(e) ==> e == ENGINE_BAD_HANDLE && *final(engine) == *old(engine),
        r is Ok ==> crate::engine::same_except_queue(*old(engine), *final(engine), h) && final(engine).queue_at(h).running,
{
    let status = engine.start(h);
    if status == STATUS_OK {
        Ok(())
    } else {
        Err(status)
    }
}

/// Stop the queue.
pub fn queue_stop(engine: &mut FFModel, h: Handle) -> (r: Result<(), u8>)
    requires
        old(engine).wf(),
    ensures
        final(engine).wf(),
        ledger_unchanged(old(engine).ledger, final(engine).ledger),
        final(engine).connections == old(engine).connections,
        final(engine).directories == old(engine).directories,
        r is Ok <==> old(engine).valid_queue(h),
        r matches Err(e) ==> e == ENGINE_BAD_HANDLE && *final(engine) == *old(engine),
        r is Ok ==> ({
            let q1 = old(engine).queue_at(h);
            let q2 = final(engine).queue_at(h);
            &&& crate::engine::same_except_queue(*old(engine), *final(engine), h)
            &&& !q2.running
            &&& q2.pending == q1.pending
            &&& q2.finished == q1.finished
            &&& q2.current == q1.current
            &&& q2.output == q1.output
            &&& q2.next_id == q1.next_id
        }),
{
    let status = engine.stop(h);
    if status == STATUS_OK {
        Ok(())
    } else {
        Err(status)
    }
}

} // verus!
