//! An in-memory engine with the capability surface the bridge marshals to.
//!
//! The native engine is an opaque collaborator: the bridge hands it C string
//! images and flat records and gets back status bytes, handles and
//! engine-allocated arrays. This module gives those operations a concrete,
//! fully specified implementation over owned values, so that the bridge's
//! marshalling, ownership accounting and command layer can be verified and
//! tested end to end without a native binary. Handles are indices the engine
//! issues into its own registries; as at the boundary, a handle returned with
//! a failure status is meaningless and a destroyed handle's slot stays dead.

use vstd::prelude::*;

verus! {

use vstd::pervasive::VecAdditionalExecFns;
use crate::marshal::{bytes_equal, c_content, content_bytes, copy_bytes, lemma_c_content_nul_free};
use crate::ownership::{AllocLedger, EngineIdArray, EngineStrArray};
use crate::task::{with_id, ProcTask, TaskModel};

/// An opaque key for an engine-owned resource.
pub type Handle = u32;

/// The status byte every capability operation uses for success.
pub const STATUS_OK: u8 = 0;

/// The handle does not name a live resource of the expected kind.
pub const ENGINE_BAD_HANDLE: u8 = 1;

/// No queue or task with the given name or identifier exists.
pub const ENGINE_NOT_FOUND: u8 = 2;

/// A queue with the given name already exists.
pub const ENGINE_DUPLICATE: u8 = 3;

/// The connection has no target yet.
pub const ENGINE_NO_TARGET: u8 = 4;

/// The engine ran out of handles or task identifiers.
pub const ENGINE_EXHAUSTED: u8 = 5;

/// No task is currently executing.
pub const ENGINE_NO_CURRENT: u8 = 6;

/// One connection's state.
pub struct FFConnect {
    pub backend: u8,
    /// Target bytes set by a connect call; never contains a null byte.
    pub target: Option<Vec<u8>>,
    pub port: i32,
}

/// One queue's state: the schedulable work it holds and the output of the
/// task it is executing.
pub struct FFQueue {
    pub pending: Vec<ProcTask>,
    pub finished: Vec<ProcTask>,
    pub current: Option<ProcTask>,
    pub running: bool,
    /// Captured output, one line's bytes per element.
    pub output: Vec<Vec<u8>>,
    /// The identifier the next submitted task receives.
    pub next_id: i32,
}

/// A named queue a directory holds, by the handle the engine issued for it.
pub struct QueueEntry {
    /// The queue's name bytes; never contains a null byte.
    pub name: Vec<u8>,
    pub queue: Handle,
}

/// One queue directory's state.
pub struct FFQueueList {
    pub entries: Vec<QueueEntry>,
}

/// The whole in-memory engine: its resource registries and the ledger of
/// allocations it has handed to the bridge.
pub struct FFModel {
    pub ledger: AllocLedger,
    pub connections: Vec<Option<FFConnect>>,
    pub directories: Vec<Option<FFQueueList>>,
    pub queues: Vec<Option<FFQueue>>,
}

impl FFQueue {
    /// Every task the queue holds, wherever it stands.
    pub open spec fn all_tasks(self) -> Seq<ProcTask> {
        self.pending@ + self.finished@ + (match self.current {
            Some(t) => seq![t],
            None => Seq::empty(),
        })
    }

    /// Identifiers already issued stay below the next one.
    pub open spec fn wf(self) -> bool {
        forall|i: int|
            0 <= i < self.all_tasks().len() ==> (#[trigger] self.all_tasks()[i]).id
                < self.next_id
    }

    /// The models of the pending tasks, in order.
    pub open spec fn pending_models(self) -> Seq<TaskModel> {
        Seq::new(self.pending@.len(), |i: int| self.pending@[i].model())
    }

    /// The models of the finished tasks, in order.
    pub open spec fn finished_models(self) -> Seq<TaskModel> {
        Seq::new(self.finished@.len(), |i: int| self.finished@[i].model())
    }

    /// The identifiers of the pending tasks, in order.
    pub open spec fn pending_ids(self) -> Seq<i32> {
        Seq::new(self.pending@.len(), |i: int| self.pending@[i].id)
    }

    /// The identifiers of the finished tasks, in order.
    pub open spec fn finished_ids(self) -> Seq<i32> {
        Seq::new(self.finished@.len(), |i: int| self.finished@[i].id)
    }

    /// The output lines' bytes, in order.
    pub open spec fn output_lines(self) -> Seq<Seq<u8>> {
        Seq::new(self.output@.len(), |i: int| self.output@[i]@)
    }

    /// A queue with nothing submitted, nothing running and no output.
    pub fn new() -> (r: FFQueue)
        ensures
            r.pending@.len() == 0,
            r.finished@.len() == 0,
            r.current is None,
            !r.running,
            r.output@.len() == 0,
            r.next_id == 0,
            r.wf(),
    {
        FFQueue {
            pending: Vec::new(),
            finished: Vec::new(),
            current: None,
            running: false,
            output: Vec::new(),
            next_id: 0,
        }
    }
}

impl FFQueueList {
    /// The queue names the directory holds, in creation order.
    pub open spec fn names(self) -> Seq<Seq<u8>> {
        Seq::new(self.entries@.len(), |i: int| self.entries@[i].name@)
    }

    /// Whether a queue of the given name exists.
    pub open spec fn has_name(self, name: Seq<u8>) -> bool {
        exists|i: int| 0 <= i < self.entries@.len() && self.entries@[i].name@ == name
    }

    /// Names are null-free and pairwise distinct.
    pub open spec fn wf(self) -> bool {
        &&& forall|i: int|
            0 <= i < self.entries@.len() ==> !(#[trigger] self.entries@[i].name@).contains(0u8)
        &&& forall|i: int, j: int|
            0 <= i < j < self.entries@.len() ==> self.entries@[i].name@ != self.entries@[j].name@
    }

    /// The handle of the queue with the given name.
    pub open spec fn handle_for(self, name: Seq<u8>) -> Handle {
        self.entries@[self.index_of(name)].queue
    }

    /// The index of the entry with the given name.
    pub open spec fn index_of(self, name: Seq<u8>) -> int {
        choose|i: int| 0 <= i < self.entries@.len() && self.entries@[i].name@ == name
    }
}

/// In a well-formed directory the entry an exec search finds is the entry
/// the specification's `index_of` and `handle_for` name.
pub proof fn lemma_index_of_entry(dir: FFQueueList, i: int)
    requires
        dir.wf(),
        0 <= i < dir.entries@.len(),
    ensures
        dir.has_name(dir.entries@[i].name@),
        dir.index_of(dir.entries@[i].name@) == i,
        dir.handle_for(dir.entries@[i].name@) == dir.entries@[i].queue,
{
    let name = dir.entries@[i].name@;
    assert(0 <= i < dir.entries@.len() && dir.entries@[i].name@ == name);
    let j = dir.index_of(name);
    if j != i {
        if j < i {
            assert(dir.entries@[j].name@ != dir.entries@[i].name@);
        } else {
            assert(dir.entries@[i].name@ != dir.entries@[j].name@);
        }
    }
}

impl FFModel {
    pub open spec fn valid_connection(self, h: Handle) -> bool {
        h < self.connections@.len() && self.connections@[h as int] is Some
    }

    pub open spec fn connection_at(self, h: Handle) -> FFConnect {
        self.connections@[h as int]->0
    }

    pub open spec fn valid_directory(self, h: Handle) -> bool {
        h < self.directories@.len() && self.directories@[h as int] is Some
    }

    pub open spec fn directory_at(self, h: Handle) -> FFQueueList {
        self.directories@[h as int]->0
    }

    pub open spec fn valid_queue(self, h: Handle) -> bool {
        h < self.queues@.len() && self.queues@[h as int] is Some
    }

    pub open spec fn queue_at(self, h: Handle) -> FFQueue {
        self.queues@[h as int]->0
    }

    /// Every live resource is well formed, connection targets are null-free,
    /// every directory entry points at a live queue, and no two directory
    /// entries anywhere share a queue.
    pub open spec fn wf(self) -> bool {
        &&& forall|c: int|
            0 <= c < self.connections@.len() && self.connections@[c] is Some ==> (match (
            #[trigger] self.connections@[c])->0.target {
                Some(t) => !t@.contains(0u8),
                None => true,
            })
        &&& forall|d: int|
            0 <= d < self.directories@.len() && self.directories@[d] is Some ==> (
            #[trigger] self.directories@[d])->0.wf()
        &&& forall|d: int, i: int|
            0 <= d < self.directories@.len() && self.directories@[d] is Some && 0 <= i
                < self.directories@[d]->0.entries@.len() ==> self.valid_queue(
                (#[trigger] self.directories@[d]->0.entries@[i]).queue,
            )
        &&& forall|q: int|
            0 <= q < self.queues@.len() && self.queues@[q] is Some ==> (
            #[trigger] self.queues@[q])->0.wf()
        &&& entry_queues_injective(self.directories@)
    }

    /// An engine with no resources and an empty ledger.
    pub fn new() -> (r: FFModel)
        ensures
            r.wf(),
            r.connections@.len() == 0,
            r.directories@.len() == 0,
            r.queues@.len() == 0,
            r.ledger.generic_allocated@ == 0,
            r.ledger.generic_freed@ == 0,
            r.ledger.task_allocated@ == 0,
            r.ledger.task_freed@ == 0,
            r.ledger.balanced(),
    {
        FFModel {
            ledger: AllocLedger::new(),
            connections: Vec::new(),
            directories: Vec::new(),
            queues: Vec::new(),
        }
    }
}

/// Whether a directory slot and an entry index in it name a live entry.
pub open spec fn live_entry(dirs: Seq<Option<FFQueueList>>, d: int, i: int) -> bool {
    0 <= d < dirs.len() && dirs[d] is Some && 0 <= i < dirs[d]->0.entries@.len()
}

/// The queue handle a directory entry holds.
pub open spec fn entry_queue(dirs: Seq<Option<FFQueueList>>, d: int, i: int) -> Handle {
    dirs[d]->0.entries@[i].queue
}

/// No two directory entries anywhere share a queue handle.
pub open spec fn entry_queues_injective(dirs: Seq<Option<FFQueueList>>) -> bool {
    forall|d1: int, i1: int, d2: int, i2: int|
        live_entry(dirs, d1, i1) && live_entry(dirs, d2, i2) && (d1 != d2 || i1 != i2)
            ==> #[trigger] entry_queue(dirs, d1, i1) != #[trigger] entry_queue(dirs, d2, i2)
}

/// What survives of a target in a buffer of the given capacity: everything,
/// or a prefix when the capacity is smaller.
pub open spec fn truncated_target(target: Seq<u8>, cap: int) -> Seq<u8> {
    if target.len() < cap {
        target
    } else {
        target.take(cap)
    }
}

/// How many target bytes a buffer of the given capacity receives.
pub open spec fn written_len(target: Seq<u8>, cap: int) -> int {
    if target.len() < cap {
        target.len() as int
    } else {
        cap
    }
}

/// What a target-path read leaves in the caller's buffer: the target bytes
/// as far as they fit, a null terminator when there is room for one, the
/// rest of the buffer untouched, and the reported size counting the
/// terminator, clamped to the capacity.
pub open spec fn target_write(
    target: Seq<u8>,
    pre: Seq<u8>,
    post: Seq<u8>,
    reported: int,
) -> bool {
    let n = written_len(target, pre.len() as int);
    &&& post.len() == pre.len()
    &&& forall|j: int| 0 <= j < n ==> post[j] == target[j]
    &&& n < pre.len() ==> post[n] == 0
    &&& forall|j: int| n < j < pre.len() ==> post[j] == pre[j]
    &&& reported == if target.len() + 1 <= pre.len() {
        target.len() + 1 as int
    } else {
        pre.len() as int
    }
}

impl FFModel {
    /// Create a connection. The handle is meaningful only on success.
    pub fn connect_init(&mut self, backend: u8) -> (r: (u8, Handle))
        requires
            old(self).wf(),
        ensures
            final(self).wf(),
            ledger_unchanged(old(self).ledger, final(self).ledger),
            final(self).directories == old(self).directories,
            final(self).queues == old(self).queues,
            r.0 == STATUS_OK <==> old(self).connections@.len() < u32::MAX as usize,
            r.0 == STATUS_OK ==> r.1 as int == old(self).connections@.len()
                && final(self).connections@ == old(self).connections@.push(
                Some((FFConnect { backend, target: None, port: 0 })),
            ),
            r.0 != STATUS_OK ==> r.0 == ENGINE_EXHAUSTED && *final(self) == *old(self),
    {
        if self.connections.len() >= u32::MAX as usize {
            return (ENGINE_EXHAUSTED, 0);
        }
        let h = self.connections.len() as u32;
        self.connections.push(Some(FFConnect { backend, target: None, port: 0 }));
        (STATUS_OK, h)
    }

    /// Destroy a connection; its handle goes dead and is never reissued.
    pub fn connect_destroy(&mut self, h: Handle) -> (r: u8)
        requires
            old(self).wf(),
        ensures
            final(self).wf(),
            ledger_unchanged(old(self).ledger, final(self).ledger),
            final(self).directories == old(self).directories,
            final(self).queues == old(self).queues,
            r == STATUS_OK <==> old(self).valid_connection(h),
            r == STATUS_OK ==> final(self).connections@ == old(self).connections@.update(
                h as int,
                None::<FFConnect>,
            ),
            r != STATUS_OK ==> r == ENGINE_BAD_HANDLE && *final(self) == *old(self),
    {
        let idx = h as usize;
        if idx >= self.connections.len() {
            return ENGINE_BAD_HANDLE;
        }
        match &self.connections[idx] {
            None => ENGINE_BAD_HANDLE,
            Some(_) => {
                self.connections.set(idx, None);
                STATUS_OK
            },
        }
    }

    /// Point a connection at a target. The engine keeps the bytes before the
    /// image's null terminator.
    pub fn start_connect(&mut self, h: Handle, target: &Vec<u8>, port: i32) -> (r: u8)
        requires
            old(self).wf(),
        ensures
            final(self).wf(),
            ledger_unchanged(old(self).ledger, final(self).ledger),
            final(self).directories == old(self).directories,
            final(self).queues == old(self).queues,
            final(self).connections@.len() == old(self).connections@.len(),
            r == STATUS_OK <==> old(self).valid_connection(h),
            r == STATUS_OK ==> {
                &&& forall|k: int|
                    0 <= k < old(self).connections@.len() && k != h as int
                        ==> final(self).connections@[k] == old(self).connections@[k]
                &&& final(self).valid_connection(h)
                &&& final(self).connection_at(h).backend == old(self).connection_at(h).backend
                &&& final(self).connection_at(h).target is Some
                &&& final(self).connection_at(h).target->0@ == c_content(target@)
                &&& final(self).connection_at(h).port == port
            },
            r != STATUS_OK ==> r == ENGINE_BAD_HANDLE && *final(self) == *old(self),
    {
        let idx = h as usize;
        if idx >= self.connections.len() {
            return ENGINE_BAD_HANDLE;
        }
        if self.connections[idx].is_none() {
            return ENGINE_BAD_HANDLE;
        }
        let content = content_bytes(target);
        proof {
            lemma_c_content_nul_free(target@);
        }
        let slot = &mut self.connections[idx];
        match slot {
            Some(conn) => {
                conn.target = Some(content);
                conn.port = port;
                STATUS_OK
            },
            None => {
                proof {
                    assert(false);
                }
                ENGINE_BAD_HANDLE
            },
        }
    }

    /// Fill a caller-provided buffer with the connection's target and report
    /// how many bytes were written, terminator included, clamped to the
    /// buffer's capacity.
    pub fn target_path(&self, h: Handle, buf: &mut Vec<u8>, size: &mut usize) -> (r: u8)
        requires
            self.wf(),
        ensures
            final(buf)@.len() == old(buf)@.len(),
            r == STATUS_OK <==> (self.valid_connection(h) && self.connection_at(h).target
                is Some),
            !self.valid_connection(h) ==> r == ENGINE_BAD_HANDLE,
            self.valid_connection(h) && self.connection_at(h).target is None ==> r
                == ENGINE_NO_TARGET,
            r != STATUS_OK ==> final(buf)@ == old(buf)@ && *final(size) == *old(size),
            r == STATUS_OK ==> target_write(
                self.connection_at(h).target->0@,
                old(buf)@,
                final(buf)@,
                *final(size) as int,
            ),
    {
        let idx = h as usize;
        if idx >= self.connections.len() {
            return ENGINE_BAD_HANDLE;
        }
        match &self.connections[idx] {
            None => ENGINE_BAD_HANDLE,
            Some(conn) => match &conn.target {
                None => ENGINE_NO_TARGET,
                Some(t) => {
                    let n = if t.len() < buf.len() {
                        t.len()
                    } else {
                        buf.len()
                    };
                    let mut i: usize = 0;
                    while i < n
                        invariant
                            0 <= i <= n <= buf@.len(),
                            n <= t@.len(),
                            buf@.len() == old(buf)@.len(),
                            forall|j: int| 0 <= j < i ==> buf@[j] == t@[j],
                            forall|j: int| i <= j < buf@.len() ==> buf@[j] == old(buf)@[j],
                        decreases n - i,
                    {
                        buf.set(i, t[i]);
                        i = i + 1;
                    }
                    if n < buf.len() {
                        buf.set(n, 0);
                    }
                    *size = if t.len() < buf.len() {
                        t.len() + 1
                    } else {
                        buf.len()
                    };
                    STATUS_OK
                },
            },
        }
    }

    /// Create a queue directory against a connection. The handle is
    /// meaningful only on success.
    pub fn queue_list_init(&mut self, connect: Handle) -> (r: (u8, Handle))
        requires
            old(self).wf(),
        ensures
            final(self).wf(),
            ledger_unchanged(old(self).ledger, final(self).ledger),
            final(self).connections == old(self).connections,
            final(self).queues == old(self).queues,
            r.0 == STATUS_OK <==> old(self).valid_connection(connect) && old(self).directories@.len() < u32::MAX as usize,
            r.0 == STATUS_OK ==> {
                &&& r.1 as int == old(self).directories@.len()
                &&& final(self).directories@.len() == old(self).directories@.len() + 1
                &&& forall|k: int|
                    0 <= k < old(self).directories@.len() ==> final(self).directories@[k] == old(self).directories@[k]
                &&& final(self).valid_directory(r.1)
                &&& final(self).directory_at(r.1).entries@.len() == 0
            },
            r.0 != STATUS_OK ==> *final(self) == *old(self) && (r.0 == ENGINE_BAD_HANDLE || r.0
                == ENGINE_EXHAUSTED),
            r.0 == ENGINE_BAD_HANDLE <==> !old(self).valid_connection(connect),
    {
        let cidx = connect as usize;
        if cidx >= self.connections.len() {
            return (ENGINE_BAD_HANDLE, 0);
        }
        if self.connections[cidx].is_none() {
            return (ENGINE_BAD_HANDLE, 0);
        }
        if self.directories.len() >= u32::MAX as usize {
            return (ENGINE_EXHAUSTED, 0);
        }
        let h = self.directories.len() as u32;
        self.directories.push(Some(FFQueueList { entries: Vec::new() }));
        proof {
            assert forall|d1: int, i1: int, d2: int, i2: int|
                live_entry(self.directories@, d1, i1) && live_entry(self.directories@, d2, i2) && (
                d1 != d2 || i1 != i2) implies #[trigger] entry_queue(self.directories@, d1, i1)
                != #[trigger] entry_queue(self.directories@, d2, i2) by {
                assert(live_entry(old(self).directories@, d1, i1));
                assert(live_entry(old(self).directories@, d2, i2));
                assert(entry_queue(self.directories@, d1, i1) == entry_queue(
                    old(self).directories@,
                    d1,
                    i1,
                ));
                assert(entry_queue(self.directories@, d2, i2) == entry_queue(
                    old(self).directories@,
                    d2,
                    i2,
                ));
            }
        }
        (STATUS_OK, h)
    }

    /// Destroy a queue directory; its handle goes dead and is never
    /// reissued. Queues it still names keep their own handles.
    pub fn queue_list_destroy(&mut self, h: Handle) -> (r: u8)
        requires
            old(self).wf(),
        ensures
            final(self).wf(),
            ledger_unchanged(old(self).ledger, final(self).ledger),
            final(self).connections == old(self).connections,
            final(self).queues == old(self).queues,
            r == STATUS_OK <==> old(self).valid_directory(h),
            r == STATUS_OK ==> final(self).directories@ == old(self).directories@.update(
                h as int,
                None::<FFQueueList>,
            ),
            r != STATUS_OK ==> r == ENGINE_BAD_HANDLE && *final(self) == *old(self),
    {
        let idx = h as usize;
        if idx >= self.directories.len() {
            return ENGINE_BAD_HANDLE;
        }
        match &self.directories[idx] {
            None => ENGINE_BAD_HANDLE,
            Some(_) => {
                self.directories.set(idx, None);
                proof {
                    assert forall|d1: int, i1: int, d2: int, i2: int|
                        live_entry(self.directories@, d1, i1) && live_entry(
                            self.directories@,
                            d2,
                            i2,
                        ) && (d1 != d2 || i1 != i2) implies #[trigger] entry_queue(
                        self.directories@,
                        d1,
                        i1,
                    ) != #[trigger] entry_queue(self.directories@, d2, i2) by {
                        assert(live_entry(old(self).directories@, d1, i1));
                        assert(live_entry(old(self).directories@, d2, i2));
                        assert(entry_queue(self.directories@, d1, i1) == entry_queue(
                            old(self).directories@,
                            d1,
                            i1,
                        ));
                        assert(entry_queue(self.directories@, d2, i2) == entry_queue(
                            old(self).directories@,
                            d2,
                            i2,
                        ));
                    }
                }
                STATUS_OK
            },
        }
    }

    /// Create an empty queue under the given name. The engine keeps the
    /// bytes before the image's null terminator as the name.
    pub fn create_queue(&mut self, h: Handle, name: &Vec<u8>) -> (r: u8)
        requires
            old(self).wf(),
        ensures
            final(self).wf(),
            ledger_unchanged(old(self).ledger, final(self).ledger),
            final(self).connections == old(self).connections,
            r == STATUS_OK <==> old(self).valid_directory(h) && !old(self).directory_at(
                h,
            ).has_name(c_content(name@)) && old(self).queues@.len() < u32::MAX as usize,
            r == ENGINE_BAD_HANDLE <==> !old(self).valid_directory(h),
            old(self).valid_directory(h) ==> (r == ENGINE_DUPLICATE <==> old(self).directory_at(
                h,
            ).has_name(c_content(name@))),
            r == STATUS_OK ==> {
                &&& final(self).queues@.len() == old(self).queues@.len() + 1
                &&& forall|k: int|
                    0 <= k < old(self).queues@.len() ==> final(self).queues@[k] == old(self).queues@[k]
                &&& final(self).directories@.len() == old(self).directories@.len()
                &&& forall|k: int|
                    0 <= k < old(self).directories@.len() && k != h as int ==> final(self).directories@[k] == old(self).directories@[k]
                &&& final(self).valid_directory(h)
                &&& final(self).directory_at(h).entries@ == old(self).directory_at(
                    h,
                ).entries@.push(final(self).directory_at(h).entries@.last())
                &&& final(self).directory_at(h).entries@.last().name@ == c_content(name@)
                &&& final(self).directory_at(h).entries@.last().queue as int == old(self).queues@.len()
                &&& final(self).valid_queue(final(self).directory_at(h).entries@.last().queue)
                &&& queue_empty(
                    final(self).queue_at(final(self).directory_at(h).entries@.last().queue),
                )
            },
            r != STATUS_OK ==> *final(self) == *old(self),
    {
        let idx = h as usize;
        if idx >= self.directories.len() {
            return ENGINE_BAD_HANDLE;
        }
        let content = content_bytes(name);
        match &self.directories[idx] {
            None => {
                return ENGINE_BAD_HANDLE;
            },
            Some(dir) => {
                if dir_find(dir, &content).is_some() {
                    return ENGINE_DUPLICATE;
                }
            },
        }
        if self.queues.len() >= u32::MAX as usize {
            return ENGINE_EXHAUSTED;
        }
        let qh = self.queues.len() as u32;
        self.queues.push(Some(FFQueue::new()));
        let slot = &mut self.directories[idx];
        match slot {
            Some(dir) => {
                dir.entries.push(QueueEntry { name: content, queue: qh });
            },
            None => {
                proof {
                    assert(false);
                }
            },
        }
        proof {
            lemma_c_content_nul_free(name@);
            let pre = *old(self);
            let post = *self;
            assert forall|d: int|
                0 <= d < post.directories@.len() && post.directories@[d]
                    is Some implies (#[trigger] post.directories@[d])->0.wf() by {
                if d == h as int {
                    let olde = pre.directories@[d]->0.entries@;
                    let newe = post.directories@[d]->0.entries@;
                    assert forall|i: int, j: int|
                        0 <= i < j < newe.len() implies newe[i].name@ != newe[j].name@ by {
                        if j < olde.len() {
                            assert(pre.directories@[d]->0.wf());
                        } else {
                            assert(newe[j].name@ == c_content(name@));
                            assert(!pre.directory_at(h).has_name(c_content(name@)));
                            assert(newe[i] == olde[i]);
                        }
                    }
                } else {
                    assert(pre.directories@[d]->0.wf());
                }
            }
            assert forall|d: int, i: int|
                0 <= d < post.directories@.len() && post.directories@[d] is Some && 0 <= i
                    < post.directories@[d]->0.entries@.len() implies post.valid_queue(
                (#[trigger] post.directories@[d]->0.entries@[i]).queue,
            ) by {
                if d == h as int && i == post.directories@[d]->0.entries@.len() - 1 {
                } else {
                    assert(live_entry(pre.directories@, d, i));
                    assert(pre.valid_queue(pre.directories@[d]->0.entries@[i].queue));
                }
            }
            assert forall|d1: int, i1: int, d2: int, i2: int|
                live_entry(post.directories@, d1, i1) && live_entry(post.directories@, d2, i2) && (
                d1 != d2 || i1 != i2) implies #[trigger] entry_queue(post.directories@, d1, i1)
                != #[trigger] entry_queue(post.directories@, d2, i2) by {
                let last = pre.directory_at(h).entries@.len() as int;
                let fresh1 = d1 == h as int && i1 == last;
                let fresh2 = d2 == h as int && i2 == last;
                if fresh1 && fresh2 {
                } else if fresh1 {
                    assert(live_entry(pre.directories@, d2, i2));
                    assert(pre.valid_queue(entry_queue(pre.directories@, d2, i2)));
                    assert(entry_queue(post.directories@, d2, i2) == entry_queue(
                        pre.directories@,
                        d2,
                        i2,
                    ));
                } else if fresh2 {
                    assert(live_entry(pre.directories@, d1, i1));
                    assert(pre.valid_queue(entry_queue(pre.directories@, d1, i1)));
                    assert(entry_queue(post.directories@, d1, i1) == entry_queue(
                        pre.directories@,
                        d1,
                        i1,
                    ));
                } else {
                    assert(live_entry(pre.directories@, d1, i1));
                    assert(live_entry(pre.directories@, d2, i2));
                    assert(entry_queue(post.directories@, d1, i1) == entry_queue(
                        pre.directories@,
                        d1,
                        i1,
                    ));
                    assert(entry_queue(post.directories@, d2, i2) == entry_queue(
                        pre.directories@,
                        d2,
                        i2,
                    ));
                }
            }
        }
        STATUS_OK
    }

    /// List the queue names a directory holds, as an engine-allocated array
    /// of C string images the bridge must release. An empty directory yields
    /// a null array, a valid empty result.
    pub fn list_queue(&mut self, h: Handle) -> (r: (u8, EngineStrArray))
        requires
            old(self).wf(),
        ensures
            final(self).wf(),
            final(self).connections == old(self).connections,
            final(self).directories == old(self).directories,
            final(self).queues == old(self).queues,
            r.0 == STATUS_OK <==> old(self).valid_directory(h),
            r.0 == STATUS_OK ==> {
                &&& r.1.items().len() == old(self).directory_at(h).names().len()
                &&& forall|i: int|
                    0 <= i < r.1.items().len() ==> r.1.items()[i] == old(self).directory_at(
                        h,
                    ).names()[i].push(0u8)
                &&& final(self).ledger.generic_allocated@ == old(self).ledger.generic_allocated@
                    + r.1.alloc_count()
                &&& final(self).ledger.generic_freed@ == old(self).ledger.generic_freed@
                &&& final(self).ledger.task_allocated@ == old(self).ledger.task_allocated@
                &&& final(self).ledger.task_freed@ == old(self).ledger.task_freed@
            },
            r.0 != STATUS_OK ==> r.0 == ENGINE_BAD_HANDLE && *final(self) == *old(self)
                && r.1.alloc_count() == 0,
    {
        let idx = h as usize;
        if idx >= self.directories.len() {
            return (ENGINE_BAD_HANDLE, EngineStrArray { elems: None });
        }
        let arr = match &self.directories[idx] {
            None => {
                return (ENGINE_BAD_HANDLE, EngineStrArray { elems: None });
            },
            Some(dir) => {
                if dir.entries.len() == 0 {
                    EngineStrArray { elems: None }
                } else {
                    let mut elems: Vec<Vec<u8>> = Vec::new();
                    let mut i: usize = 0;
                    while i < dir.entries.len()
                        invariant
                            0 <= i <= dir.entries@.len(),
                            elems@.len() == i,
                            forall|j: int|
                                0 <= j < i ==> (#[trigger] elems@[j])@ == dir.names()[j].push(
                                    0u8,
                                ),
                        decreases dir.entries@.len() - i,
                    {
                        let mut image = copy_bytes(&dir.entries[i].name);
                        image.push(0);
                        elems.push(image);
                        proof {
                            assert(elems@[i as int] == image);
                        }
                        i = i + 1;
                    }
                    proof {
                        assert forall|j: int|
                            0 <= j < elems.deep_view().len() implies elems.deep_view()[j]
                            == dir.names()[j].push(0u8) by {
                            assert(elems.deep_view()[j] == elems@[j].deep_view());
                            assert(elems@[j].deep_view() =~= elems@[j]@);
                        }
                    }
                    EngineStrArray { elems: Some(elems) }
                }
            },
        };
        self.ledger.generic_allocated = Ghost(self.ledger.generic_allocated@ + arr.alloc_count());
        (STATUS_OK, arr)
    }

    /// Delete the queue with the given name: its entry leaves the directory
    /// and its handle goes dead.
    pub fn delete_queue(&mut self, h: Handle, name: &Vec<u8>) -> (r: u8)
        requires
            old(self).wf(),
        ensures
            final(self).wf(),
            ledger_unchanged(old(self).ledger, final(self).ledger),
            final(self).connections == old(self).connections,
            r == STATUS_OK <==> old(self).valid_directory(h) && old(self).directory_at(
                h,
            ).has_name(c_content(name@)),
            r == ENGINE_BAD_HANDLE <==> !old(self).valid_directory(h),
            old(self).valid_directory(h) ==> (r == ENGINE_NOT_FOUND <==> !old(self).directory_at(
                h,
            ).has_name(c_content(name@))),
            r == STATUS_OK ==> ({
                let i = old(self).directory_at(h).index_of(c_content(name@));
                &&& final(self).directories@.len() == old(self).directories@.len()
                &&& forall|k: int|
                    0 <= k < old(self).directories@.len() && k != h as int ==> final(self).directories@[k] == old(self).directories@[k]
                &&& final(self).valid_directory(h)
                &&& final(self).directory_at(h).entries@ == old(self).directory_at(
                    h,
                ).entries@.remove(i)
                &&& final(self).queues@ == old(self).queues@.update(
                    old(self).directory_at(h).entries@[i].queue as int,
                    None::<FFQueue>,
                )
            }),
            r != STATUS_OK ==> *final(self) == *old(self),
    {
        let idx = h as usize;
        if idx >= self.directories.len() {
            return ENGINE_BAD_HANDLE;
        }
        let content = content_bytes(name);
        let found: usize;
        let qh: Handle;
        match &self.directories[idx] {
            None => {
                return ENGINE_BAD_HANDLE;
            },
            Some(dir) => {
                match dir_find(dir, &content) {
                    None => {
                        return ENGINE_NOT_FOUND;
                    },
                    Some(i) => {
                        found = i;
                        qh = dir.entries[i].queue;
                        proof {
                            lemma_index_of_entry(*dir, i as int);
                        }
                    },
                }
            },
        }
        proof {
            assert(live_entry(self.directories@, h as int, found as int));
            assert(self.valid_queue(qh));
        }
        let slot = &mut self.directories[idx];
        match slot {
            Some(dir) => {
                dir.entries.remove(found);
            },
            None => {
                proof {
                    assert(false);
                }
            },
        }
        self.queues.set(qh as usize, None);
        proof {
            let pre = *old(self);
            let post = *self;
            let hi = h as int;
            let fi = found as int;
            assert forall|d: int|
                0 <= d < post.directories@.len() && post.directories@[d]
                    is Some implies (#[trigger] post.directories@[d])->0.wf() by {
                assert(pre.directories@[d]->0.wf());
                if d == hi {
                    let olde = pre.directories@[d]->0.entries@;
                    let newe = post.directories@[d]->0.entries@;
                    assert forall|i: int, j: int|
                        0 <= i < j < newe.len() implies newe[i].name@ != newe[j].name@ by {
                        let oi = if i < fi { i } else { i + 1 };
                        let oj = if j < fi { j } else { j + 1 };
                        assert(newe[i] == olde[oi]);
                        assert(newe[j] == olde[oj]);
                        assert(olde[oi].name@ != olde[oj].name@);
                    }
                    assert forall|i: int|
                        0 <= i < newe.len() implies !(#[trigger] newe[i].name@).contains(0u8) by {
                        let oi = if i < fi { i } else { i + 1 };
                        assert(newe[i] == olde[oi]);
                    }
                }
            }
            assert forall|d: int, i: int|
                0 <= d < post.directories@.len() && post.directories@[d] is Some && 0 <= i
                    < post.directories@[d]->0.entries@.len() implies post.valid_queue(
                (#[trigger] post.directories@[d]->0.entries@[i]).queue,
            ) by {
                let oi = if d == hi && i >= fi { i + 1 } else { i };
                assert(live_entry(pre.directories@, d, oi));
                assert(post.directories@[d]->0.entries@[i] == pre.directories@[d]->0.entries@[oi]);
                assert(pre.valid_queue(pre.directories@[d]->0.entries@[oi].queue));
                assert(entry_queue(pre.directories@, d, oi) == pre.directories@[d]->0.entries@[oi].queue);
                assert(entry_queue(pre.directories@, hi, fi) == qh);
                assert(pre.directories@[d]->0.entries@[oi].queue != qh);
            }
            assert forall|d1: int, i1: int, d2: int, i2: int|
                live_entry(post.directories@, d1, i1) && live_entry(post.directories@, d2, i2) && (
                d1 != d2 || i1 != i2) implies #[trigger] entry_queue(post.directories@, d1, i1)
                != #[trigger] entry_queue(post.directories@, d2, i2) by {
                let o1 = if d1 == hi && i1 >= fi { i1 + 1 } else { i1 };
                let o2 = if d2 == hi && i2 >= fi { i2 + 1 } else { i2 };
                assert(live_entry(pre.directories@, d1, o1));
                assert(live_entry(pre.directories@, d2, o2));
                assert(entry_queue(post.directories@, d1, i1) == entry_queue(
                    pre.directories@,
                    d1,
                    o1,
                ));
                assert(entry_queue(post.directories@, d2, i2) == entry_queue(
                    pre.directories@,
                    d2,
                    o2,
                ));
            }
        }
        STATUS_OK
    }

    /// Rename a queue. The new name must not already be taken, the old name
    /// included.
    pub fn rename_queue(&mut self, h: Handle, old_name: &Vec<u8>, new_name: &Vec<u8>) -> (r: u8)
        requires
            old(self).wf(),
        ensures
            final(self).wf(),
            ledger_unchanged(old(self).ledger, final(self).ledger),
            final(self).connections == old(self).connections,
            final(self).queues == old(self).queues,
            r == STATUS_OK <==> old(self).valid_directory(h) && old(self).directory_at(
                h,
            ).has_name(c_content(old_name@)) && !old(self).directory_at(h).has_name(
                c_content(new_name@),
            ),
            r == ENGINE_BAD_HANDLE <==> !old(self).valid_directory(h),
            old(self).valid_directory(h) ==> (r == ENGINE_NOT_FOUND <==> !old(self).directory_at(
                h,
            ).has_name(c_content(old_name@))),
            old(self).valid_directory(h) && old(self).directory_at(h).has_name(
                c_content(old_name@),
            ) ==> (r == ENGINE_DUPLICATE <==> old(self).directory_at(h).has_name(
                c_content(new_name@),
            )),
            r == STATUS_OK ==> ({
                let i = old(self).directory_at(h).index_of(c_content(old_name@));
                &&& final(self).directories@.len() == old(self).directories@.len()
                &&& forall|k: int|
                    0 <= k < old(self).directories@.len() && k != h as int ==> final(self).directories@[k] == old(self).directories@[k]
                &&& final(self).valid_directory(h)
                &&& final(self).directory_at(h).entries@.len() == old(self).directory_at(
                    h,
                ).entries@.len()
                &&& forall|k: int|
                    0 <= k < old(self).directory_at(h).entries@.len() && k != i ==> final(self).directory_at(h).entries@[k] == old(self).directory_at(h).entries@[k]
                &&& final(self).directory_at(h).entries@[i].name@ == c_content(new_name@)
                &&& final(self).directory_at(h).entries@[i].queue == old(self).directory_at(
                    h,
                ).entries@[i].queue
            }),
            r != STATUS_OK ==> *final(self) == *old(self),
    {
        let idx = h as usize;
        if idx >= self.directories.len() {
            return ENGINE_BAD_HANDLE;
        }
        let old_content = content_bytes(old_name);
        let new_content = content_bytes(new_name);
        let found: usize;
        match &self.directories[idx] {
            None => {
                return ENGINE_BAD_HANDLE;
            },
            Some(dir) => {
                match dir_find(dir, &old_content) {
                    None => {
                        return ENGINE_NOT_FOUND;
                    },
                    Some(i) => {
                        if dir_find(dir, &new_content).is_some() {
                            return ENGINE_DUPLICATE;
                        }
                        found = i;
                        proof {
                            lemma_index_of_entry(*dir, i as int);
                        }
                    },
                }
            },
        }
        proof {
            lemma_c_content_nul_free(new_name@);
        }
        let slot = &mut self.directories[idx];
        match slot {
            Some(dir) => {
                let entry = &mut dir.entries[found];
                entry.name = new_content;
            },
            None => {
                proof {
                    assert(false);
                }
            },
        }
        proof {
            let pre = *old(self);
            let post = *self;
            let hi = h as int;
            let fi = found as int;
            assert forall|d: int|
                0 <= d < post.directories@.len() && post.directories@[d]
                    is Some implies (#[trigger] post.directories@[d])->0.wf() by {
                assert(pre.directories@[d]->0.wf());
                if d == hi {
                    let olde = pre.directories@[d]->0.entries@;
                    let newe = post.directories@[d]->0.entries@;
                    assert forall|i: int, j: int|
                        0 <= i < j < newe.len() implies newe[i].name@ != newe[j].name@ by {
                        if i != fi && j != fi {
                            assert(newe[i] == olde[i]);
                            assert(newe[j] == olde[j]);
                            assert(olde[i].name@ != olde[j].name@);
                        } else if i == fi {
                            assert(newe[j] == olde[j]);
                            assert(!pre.directory_at(h).has_name(c_content(new_name@)));
                            assert(olde[j].name@ != c_content(new_name@));
                        } else {
                            assert(newe[i] == olde[i]);
                            assert(!pre.directory_at(h).has_name(c_content(new_name@)));
                            assert(olde[i].name@ != c_content(new_name@));
                        }
                    }
                }
            }
            assert forall|d: int, i: int|
                0 <= d < post.directories@.len() && post.directories@[d] is Some && 0 <= i
                    < post.directories@[d]->0.entries@.len() implies post.valid_queue(
                (#[trigger] post.directories@[d]->0.entries@[i]).queue,
            ) by {
                assert(live_entry(pre.directories@, d, i));
                assert(post.directories@[d]->0.entries@[i].queue == pre.directories@[d]->0.entries@[i].queue);
                assert(pre.valid_queue(pre.directories@[d]->0.entries@[i].queue));
            }
            assert forall|d1: int, i1: int, d2: int, i2: int|
                live_entry(post.directories@, d1, i1) && live_entry(post.directories@, d2, i2) && (
                d1 != d2 || i1 != i2) implies #[trigger] entry_queue(post.directories@, d1, i1)
                != #[trigger] entry_queue(post.directories@, d2, i2) by {
                assert(live_entry(pre.directories@, d1, i1));
                assert(live_entry(pre.directories@, d2, i2));
                assert(entry_queue(post.directories@, d1, i1) == entry_queue(
                    pre.directories@,
                    d1,
                    i1,
                ));
                assert(entry_queue(post.directories@, d2, i2) == entry_queue(
                    pre.directories@,
                    d2,
                    i2,
                ));
            }
        }
        STATUS_OK
    }

    /// Look up the handle of the queue with the given name. The handle is
    /// meaningful only on success.
    pub fn get_queue(&self, h: Handle, name: &Vec<u8>) -> (r: (u8, Handle))
        requires
            self.wf(),
        ensures
            r.0 == STATUS_OK <==> self.valid_directory(h) && self.directory_at(h).has_name(
                c_content(name@),
            ),
            r.0 == ENGINE_BAD_HANDLE <==> !self.valid_directory(h),
            self.valid_directory(h) ==> (r.0 == ENGINE_NOT_FOUND <==> !self.directory_at(
                h,
            ).has_name(c_content(name@))),
            r.0 == STATUS_OK ==> r.1 == self.directory_at(h).handle_for(c_content(name@))
                && self.valid_queue(r.1),
    {
        let idx = h as usize;
        if idx >= self.directories.len() {
            return (ENGINE_BAD_HANDLE, 0);
        }
        let content = content_bytes(name);
        match &self.directories[idx] {
            None => (ENGINE_BAD_HANDLE, 0),
            Some(dir) => {
                match dir_find(dir, &content) {
                    None => (ENGINE_NOT_FOUND, 0),
                    Some(i) => {
                        proof {
                            lemma_index_of_entry(*dir, i as int);
                            assert(live_entry(self.directories@, h as int, i as int));
                        }
                        (STATUS_OK, dir.entries[i].queue)
                    },
                }
            },
        }
    }

    /// Hand a queue handle back to its directory. The in-memory engine has
    /// nothing to reclaim; it only checks that both handles are live.
    pub fn return_queue(&self, h: Handle, queue: Handle) -> (r: u8)
        requires
            self.wf(),
        ensures
            r == STATUS_OK <==> self.valid_directory(h) && self.valid_queue(queue),
            r != STATUS_OK ==> r == ENGINE_BAD_HANDLE,
    {
        let idx = h as usize;
        if idx >= self.directories.len() {
            return ENGINE_BAD_HANDLE;
        }
        if self.directories[idx].is_none() {
            return ENGINE_BAD_HANDLE;
        }
        let qidx = queue as usize;
        if qidx >= self.queues.len() {
            return ENGINE_BAD_HANDLE;
        }
        if self.queues[qidx].is_none() {
            return ENGINE_BAD_HANDLE;
        }
        STATUS_OK
    }

    /// Submit a task: the engine stores its own copy of the record under a
    /// fresh identifier. The caller keeps its record.
    pub fn add_task(&mut self, h: Handle, task: &ProcTask) -> (r: u8)
        requires
            old(self).wf(),
        ensures
            final(self).wf(),
            ledger_unchanged(old(self).ledger, final(self).ledger),
            r == STATUS_OK <==> old(self).valid_queue(h) && old(self).queue_at(h).next_id
                < i32::MAX,
            r == ENGINE_BAD_HANDLE <==> !old(self).valid_queue(h),
            r == STATUS_OK ==> ({
                let q1 = old(self).queue_at(h);
                let q2 = final(self).queue_at(h);
                &&& same_except_queue(*old(self), *final(self), h)
                &&& q2.pending_models() == q1.pending_models().push(
                    with_id(task.model(), q1.next_id as int),
                )
                &&& q2.finished == q1.finished
                &&& q2.current == q1.current
                &&& q2.running == q1.running
                &&& q2.output == q1.output
                &&& q2.next_id == q1.next_id + 1
            }),
            r != STATUS_OK ==> *final(self) == *old(self),
    {
        let idx = h as usize;
        if idx >= self.queues.len() {
            return ENGINE_BAD_HANDLE;
        }
        match &self.queues[idx] {
            None => {
                return ENGINE_BAD_HANDLE;
            },
            Some(q) => {
                if q.next_id == i32::MAX {
                    return ENGINE_EXHAUSTED;
                }
            },
        }
        let mut stored = task.duplicate();
        let slot = &mut self.queues[idx];
        match slot {
            Some(q) => {
                stored.id = q.next_id;
                q.pending.push(stored);
                q.next_id = q.next_id + 1;
                proof {
                    let q1 = old(self).queue_at(h);
                    let q2 = *q;
                    assert(q2.pending@[q1.pending@.len() as int].model() == with_id(
                        task.model(),
                        q1.next_id as int,
                    ));
                    assert(q2.pending_models() =~= q1.pending_models().push(
                        with_id(task.model(), q1.next_id as int),
                    ));
                    let pl = q1.pending@.len() as int;
                    let fl = q1.finished@.len() as int;
                    assert forall|i: int|
                        0 <= i < q2.all_tasks().len() implies (#[trigger] q2.all_tasks()[i]).id
                        < q2.next_id by {
                        if i <= pl {
                            assert(q2.all_tasks()[i] == q2.pending@[i]);
                            if i < pl {
                                assert(q1.all_tasks()[i] == q1.pending@[i]);
                                assert(q1.all_tasks()[i].id < q1.next_id);
                            }
                        } else {
                            assert(q2.all_tasks()[i] == q1.all_tasks()[i - 1]);
                            assert(q1.all_tasks()[i - 1].id < q1.next_id);
                        }
                    }
                }
            },
            None => {
                proof {
                    assert(false);
                }
            },
        }
        proof {
            lemma_wf_queue_update(*old(self), *self, h);
        }
        STATUS_OK
    }

    /// List the identifiers of the pending tasks, as one engine-allocated
    /// flat array. An empty queue yields a null array, a valid empty result.
    pub fn list_pending(&mut self, h: Handle) -> (r: (u8, EngineIdArray))
        requires
            old(self).wf(),
        ensures
            final(self).wf(),
            final(self).connections == old(self).connections,
            final(self).directories == old(self).directories,
            final(self).queues == old(self).queues,
            r.0 == STATUS_OK <==> old(self).valid_queue(h),
            r.0 == STATUS_OK ==> {
                &&& r.1.items() == old(self).queue_at(h).pending_ids()
                &&& final(self).ledger.generic_allocated@ == old(self).ledger.generic_allocated@
                    + r.1.alloc_count()
                &&& final(self).ledger.generic_freed@ == old(self).ledger.generic_freed@
                &&& final(self).ledger.task_allocated@ == old(self).ledger.task_allocated@
                &&& final(self).ledger.task_freed@ == old(self).ledger.task_freed@
            },
            r.0 != STATUS_OK ==> r.0 == ENGINE_BAD_HANDLE && *final(self) == *old(self)
                && r.1.alloc_count() == 0,
    {
        let idx = h as usize;
        if idx >= self.queues.len() {
            return (ENGINE_BAD_HANDLE, EngineIdArray { ids: None });
        }
        let arr = match &self.queues[idx] {
            None => {
                return (ENGINE_BAD_HANDLE, EngineIdArray { ids: None });
            },
            Some(q) => {
                if q.pending.len() == 0 {
                    proof {
                        assert(q.pending_ids() =~= Seq::<i32>::empty());
                    }
                    EngineIdArray { ids: None }
                } else {
                    let ids = collect_ids(&q.pending);
                    proof {
                        assert(ids@ =~= q.pending_ids());
                    }
                    EngineIdArray { ids: Some(ids) }
                }
            },
        };
        self.ledger.generic_allocated = Ghost(self.ledger.generic_allocated@ + arr.alloc_count());
        (STATUS_OK, arr)
    }

    /// List the identifiers of the finished tasks, as one engine-allocated
    /// flat array. An empty list yields a null array, a valid empty result.
    pub fn list_finished(&mut self, h: Handle) -> (r: (u8, EngineIdArray))
        requires
            old(self).wf(),
        ensures
            final(self).wf(),
            final(self).connections == old(self).connections,
            final(self).directories == old(self).directories,
            final(self).queues == old(self).queues,
            r.0 == STATUS_OK <==> old(self).valid_queue(h),
            r.0 == STATUS_OK ==> {
                &&& r.1.items() == old(self).queue_at(h).finished_ids()
                &&& final(self).ledger.generic_allocated@ == old(self).ledger.generic_allocated@
                    + r.1.alloc_count()
                &&& final(self).ledger.generic_freed@ == old(self).ledger.generic_freed@
                &&& final(self).ledger.task_allocated@ == old(self).ledger.task_allocated@
                &&& final(self).ledger.task_freed@ == old(self).ledger.task_freed@
            },
            r.0 != STATUS_OK ==> r.0 == ENGINE_BAD_HANDLE && *final(self) == *old(self)
                && r.1.alloc_count() == 0,
    {
        let idx = h as usize;
        if idx >= self.queues.len() {
            return (ENGINE_BAD_HANDLE, EngineIdArray { ids: None });
        }
        let arr = match &self.queues[idx] {
            None => {
                return (ENGINE_BAD_HANDLE, EngineIdArray { ids: None });
            },
            Some(q) => {
                if q.finished.len() == 0 {
                    proof {
                        assert(q.finished_ids() =~= Seq::<i32>::empty());
                    }
                    EngineIdArray { ids: None }
                } else {
                    let ids = collect_ids(&q.finished);
                    proof {
                        assert(ids@ =~= q.finished_ids());
                    }
                    EngineIdArray { ids: Some(ids) }
                }
            },
        };
        self.ledger.generic_allocated = Ghost(self.ledger.generic_allocated@ + arr.alloc_count());
        (STATUS_OK, arr)
    }

    /// Copy the pending task with the given identifier into a fresh record
    /// the bridge must release through the structured destructor.
    pub fn pending_details(&mut self, h: Handle, id: i32) -> (r: (u8, Option<ProcTask>))
        requires
            old(self).wf(),
        ensures
            final(self).wf(),
            final(self).connections == old(self).connections,
            final(self).directories == old(self).directories,
            final(self).queues == old(self).queues,
            r.0 == STATUS_OK <==> old(self).valid_queue(h) && has_id(
                old(self).queue_at(h).pending@,
                id,
            ),
            r.0 == ENGINE_BAD_HANDLE <==> !old(self).valid_queue(h),
            r.0 == STATUS_OK ==> {
                &&& r.1 is Some
                &&& r.1->0.model() == old(self).queue_at(h).pending@[find_by_id(
                    old(self).queue_at(h).pending@,
                    id,
                )].model()
                &&& final(self).ledger.task_allocated@ == old(self).ledger.task_allocated@ + 1
                &&& final(self).ledger.generic_allocated@ == old(self).ledger.generic_allocated@
                &&& final(self).ledger.generic_freed@ == old(self).ledger.generic_freed@
                &&& final(self).ledger.task_freed@ == old(self).ledger.task_freed@
            },
            r.0 != STATUS_OK ==> r.1 is None && *final(self) == *old(self) && (r.0
                == ENGINE_BAD_HANDLE || r.0 == ENGINE_NOT_FOUND),
    {
        let idx = h as usize;
        if idx >= self.queues.len() {
            return (ENGINE_BAD_HANDLE, None);
        }
        let copy = match &self.queues[idx] {
            None => {
                return (ENGINE_BAD_HANDLE, None);
            },
            Some(q) => {
                match queue_find(&q.pending, id) {
                    None => {
                        return (ENGINE_NOT_FOUND, None);
                    },
                    Some(i) => {
                        proof {
                            lemma_find_by_id(q.pending@, id);
                        }
                        q.pending[i].duplicate()
                    },
                }
            },
        };
        self.ledger.task_allocated = Ghost(self.ledger.task_allocated@ + 1);
        (STATUS_OK, Some(copy))
    }

    /// Copy the finished task with the given identifier into a fresh record
    /// the bridge must release through the structured destructor.
    pub fn finished_details(&mut self, h: Handle, id: i32) -> (r: (u8, Option<ProcTask>))
        requires
            old(self).wf(),
        ensures
            final(self).wf(),
            final(self).connections == old(self).connections,
            final(self).directories == old(self).directories,
            final(self).queues == old(self).queues,
            r.0 == STATUS_OK <==> old(self).valid_queue(h) && has_id(
                old(self).queue_at(h).finished@,
                id,
            ),
            r.0 == ENGINE_BAD_HANDLE <==> !old(self).valid_queue(h),
            r.0 == STATUS_OK ==> {
                &&& r.1 is Some
                &&& r.1->0.model() == old(self).queue_at(h).finished@[find_by_id(
                    old(self).queue_at(h).finished@,
                    id,
                )].model()
                &&& final(self).ledger.task_allocated@ == old(self).ledger.task_allocated@ + 1
                &&& final(self).ledger.generic_allocated@ == old(self).ledger.generic_allocated@
                &&& final(self).ledger.generic_freed@ == old(self).ledger.generic_freed@
                &&& final(self).ledger.task_freed@ == old(self).ledger.task_freed@
            },
            r.0 != STATUS_OK ==> r.1 is None && *final(self) == *old(self) && (r.0
                == ENGINE_BAD_HANDLE || r.0 == ENGINE_NOT_FOUND),
    {
        let idx = h as usize;
        if idx >= self.queues.len() {
            return (ENGINE_BAD_HANDLE, None);
        }
        let copy = match &self.queues[idx] {
            None => {
                return (ENGINE_BAD_HANDLE, None);
            },
            Some(q) => {
                match queue_find(&q.finished, id) {
                    None => {
                        return (ENGINE_NOT_FOUND, None);
                    },
                    Some(i) => {
                        proof {
                            lemma_find_by_id(q.finished@, id);
                        }
                        q.finished[i].duplicate()
                    },
                }
            },
        };
        self.ledger.task_allocated = Ghost(self.ledger.task_allocated@ + 1);
        (STATUS_OK, Some(copy))
    }

    /// Copy the currently executing task into a fresh record the bridge must
    /// release through the structured destructor.
    pub fn current_task(&mut self, h: Handle) -> (r: (u8, Option<ProcTask>))
        requires
            old(self).wf(),
        ensures
            final(self).wf(),
            final(self).connections == old(self).connections,
            final(self).directories == old(self).directories,
            final(self).queues == old(self).queues,
            r.0 == STATUS_OK <==> old(self).valid_queue(h) && old(self).queue_at(h).current
                is Some,
            r.0 == ENGINE_BAD_HANDLE <==> !old(self).valid_queue(h),
            r.0 == STATUS_OK ==> {
                &&& r.1 is Some
                &&& r.1->0.model() == old(self).queue_at(h).current->0.model()
                &&& final(self).ledger.task_allocated@ == old(self).ledger.task_allocated@ + 1
                &&& final(self).ledger.generic_allocated@ == old(self).ledger.generic_allocated@
                &&& final(self).ledger.generic_freed@ == old(self).ledger.generic_freed@
                &&& final(self).ledger.task_freed@ == old(self).ledger.task_freed@
            },
            r.0 != STATUS_OK ==> r.1 is None && *final(self) == *old(self) && (r.0
                == ENGINE_BAD_HANDLE || r.0 == ENGINE_NO_CURRENT),
    {
        let idx = h as usize;
        if idx >= self.queues.len() {
            return (ENGINE_BAD_HANDLE, None);
        }
        let copy = match &self.queues[idx] {
            None => {
                return (ENGINE_BAD_HANDLE, None);
            },
            Some(q) => {
                match &q.current {
                    None => {
                        return (ENGINE_NO_CURRENT, None);
                    },
                    Some(t) => t.duplicate(),
                }
            },
        };
        self.ledger.task_allocated = Ghost(self.ledger.task_allocated@ + 1);
        (STATUS_OK, Some(copy))
    }

    /// Withdraw the pending task with the given identifier.
    pub fn remove_task(&mut self, h: Handle, id: i32) -> (r: u8)
        requires
            old(self).wf(),
        ensures
            final(self).wf(),
            ledger_unchanged(old(self).ledger, final(self).ledger),
            r == STATUS_OK <==> old(self).valid_queue(h) && has_id(
                old(self).queue_at(h).pending@,
                id,
            ),
            r == ENGINE_BAD_HANDLE <==> !old(self).valid_queue(h),
            r == STATUS_OK ==> ({
                let q1 = old(self).queue_at(h);
                let q2 = final(self).queue_at(h);
                &&& same_except_queue(*old(self), *final(self), h)
                &&& q2.pending@ == q1.pending@.remove(find_by_id(q1.pending@, id))
                &&& q2.finished == q1.finished
                &&& q2.current == q1.current
                &&& q2.running == q1.running
                &&& q2.output == q1.output
                &&& q2.next_id == q1.next_id
            }),
            r != STATUS_OK ==> *final(self) == *old(self) && (r == ENGINE_BAD_HANDLE || r
                == ENGINE_NOT_FOUND),
    {
        let idx = h as usize;
        if idx >= self.queues.len() {
            return ENGINE_BAD_HANDLE;
        }
        let found: usize;
        match &self.queues[idx] {
            None => {
                return ENGINE_BAD_HANDLE;
            },
            Some(q) => {
                match queue_find(&q.pending, id) {
                    None => {
                        return ENGINE_NOT_FOUND;
                    },
                    Some(i) => {
                        proof {
                            lemma_find_by_id(q.pending@, id);
                        }
                        found = i;
                    },
                }
            },
        }
        let slot = &mut self.queues[idx];
        match slot {
            Some(q) => {
                q.pending.remove(found);
                proof {
                    let q1 = old(self).queue_at(h);
                    let q2 = *q;
                    let pl = q1.pending@.len() as int;
                    let fi = found as int;
                    assert forall|i: int|
                        0 <= i < q2.all_tasks().len() implies (#[trigger] q2.all_tasks()[i]).id
                        < q2.next_id by {
                        let oi = if i < fi {
                            i
                        } else {
                            i + 1
                        };
                        if i < pl - 1 {
                            assert(q2.all_tasks()[i] == q2.pending@[i]);
                            assert(q2.pending@[i] == q1.pending@[oi]);
                            assert(q1.all_tasks()[oi] == q1.pending@[oi]);
                        } else {
                            assert(q2.all_tasks()[i] == q1.all_tasks()[i + 1]);
                        }
                        assert(q1.all_tasks()[oi].id < q1.next_id);
                    }
                }
            },
            None => {
                proof {
                    assert(false);
                }
            },
        }
        proof {
            lemma_wf_queue_update(*old(self), *self, h);
        }
        STATUS_OK
    }

    /// Drop every pending task.
    pub fn clear_pending(&mut self, h: Handle) -> (r: u8)
        requires
            old(self).wf(),
        ensures
            final(self).wf(),
            ledger_unchanged(old(self).ledger, final(self).ledger),
            r == STATUS_OK <==> old(self).valid_queue(h),
            r == STATUS_OK ==> ({
                let q1 = old(self).queue_at(h);
                let q2 = final(self).queue_at(h);
                &&& same_except_queue(*old(self), *final(self), h)
                &&& q2.pending@.len() == 0
                &&& q2.finished == q1.finished
                &&& q2.current == q1.current
                &&& q2.running == q1.running
                &&& q2.output == q1.output
                &&& q2.next_id == q1.next_id
            }),
            r != STATUS_OK ==> r == ENGINE_BAD_HANDLE && *final(self) == *old(self),
    {
        let idx = h as usize;
        if idx >= self.queues.len() {
            return ENGINE_BAD_HANDLE;
        }
        if self.queues[idx].is_none() {
            return ENGINE_BAD_HANDLE;
        }
        let slot = &mut self.queues[idx];
        match slot {
            Some(q) => {
                q.pending.clear();
                proof {
                    let q1 = old(self).queue_at(h);
                    let q2 = *q;
                    let pl = q1.pending@.len() as int;
                    assert forall|i: int|
                        0 <= i < q2.all_tasks().len() implies (#[trigger] q2.all_tasks()[i]).id
                        < q2.next_id by {
                        assert(q2.all_tasks()[i] == q1.all_tasks()[i + pl]);
                        assert(q1.all_tasks()[i + pl].id < q1.next_id);
                    }
                }
            },
            None => {
                proof {
                    assert(false);
                }
            },
        }
        proof {
            lemma_wf_queue_update(*old(self), *self, h);
        }
        STATUS_OK
    }

    /// Drop every finished task.
    pub fn clear_finished(&mut self, h: Handle) -> (r: u8)
        requires
            old(self).wf(),
        ensures
            final(self).wf(),
            ledger_unchanged(old(self).ledger, final(self).ledger),
            r == STATUS_OK <==> old(self).valid_queue(h),
            r == STATUS_OK ==> ({
                let q1 = old(self).queue_at(h);
                let q2 = final(self).queue_at(h);
                &&& same_except_queue(*old(self), *final(self), h)
                &&& q2.finished@.len() == 0
                &&& q2.pending == q1.pending
                &&& q2.current == q1.current
                &&& q2.running == q1.running
                &&& q2.output == q1.output
                &&& q2.next_id == q1.next_id
            }),
            r != STATUS_OK ==> r == ENGINE_BAD_HANDLE && *final(self) == *old(self),
    {
        let idx = h as usize;
        if idx >= self.queues.len() {
            return ENGINE_BAD_HANDLE;
        }
        if self.queues[idx].is_none() {
            return ENGINE_BAD_HANDLE;
        }
        let slot = &mut self.queues[idx];
        match slot {
            Some(q) => {
                q.finished.clear();
                proof {
                    let q1 = old(self).queue_at(h);
                    let q2 = *q;
                    let pl = q1.pending@.len() as int;
                    let fl = q1.finished@.len() as int;
                    assert forall|i: int|
                        0 <= i < q2.all_tasks().len() implies (#[trigger] q2.all_tasks()[i]).id
                        < q2.next_id by {
                        let oi = if i < pl {
                            i
                        } else {
                            i + fl
                        };
                        if i < pl {
                            assert(q2.all_tasks()[i] == q2.pending@[i]);
                            assert(q1.all_tasks()[oi] == q1.pending@[i]);
                        } else {
                            assert(q2.all_tasks()[i] == q1.all_tasks()[oi]);
                        }
                        assert(q1.all_tasks()[oi].id < q1.next_id);
                    }
                }
            },
            None => {
                proof {
                    assert(false);
                }
            },
        }
        proof {
            lemma_wf_queue_update(*old(self), *self, h);
        }
        STATUS_OK
    }

    /// Whether the queue is executing. There is no error case: a dead handle
    /// reads as not running.
    pub fn is_running(&self, h: Handle) -> (r: u8)
        requires
            self.wf(),
        ensures
            r != 0 <==> self.valid_queue(h) && self.queue_at(h).running,
    {
        let idx = h as usize;
        if idx >= self.queues.len() {
            return 0;
        }
        match &self.queues[idx] {
            None => 0,
            Some(q) => {
                if q.running {
                    1
                } else {
                    0
                }
            },
        }
    }

    /// Read the captured output of the executing task, as an engine-allocated
    /// array of C string images the bridge must release. No output yields a
    /// null array, a valid empty result.
    pub fn read_current_output(&mut self, h: Handle) -> (r: (u8, EngineStrArray))
        requires
            old(self).wf(),
        ensures
            final(self).wf(),
            final(self).connections == old(self).connections,
            final(self).directories == old(self).directories,
            final(self).queues == old(self).queues,
            r.0 == STATUS_OK <==> old(self).valid_queue(h),
            r.0 == STATUS_OK ==> {
                &&& r.1.items().len() == old(self).queue_at(h).output_lines().len()
                &&& forall|i: int|
                    0 <= i < r.1.items().len() ==> r.1.items()[i] == old(self).queue_at(
                        h,
                    ).output_lines()[i].push(0u8)
                &&& final(self).ledger.generic_allocated@ == old(self).ledger.generic_allocated@
                    + r.1.alloc_count()
                &&& final(self).ledger.generic_freed@ == old(self).ledger.generic_freed@
                &&& final(self).ledger.task_allocated@ == old(self).ledger.task_allocated@
                &&& final(self).ledger.task_freed@ == old(self).ledger.task_freed@
            },
            r.0 != STATUS_OK ==> r.0 == ENGINE_BAD_HANDLE && *final(self) == *old(self)
                && r.1.alloc_count() == 0,
    {
        let idx = h as usize;
        if idx >= self.queues.len() {
            return (ENGINE_BAD_HANDLE, EngineStrArray { elems: None });
        }
        let arr = match &self.queues[idx] {
            None => {
                return (ENGINE_BAD_HANDLE, EngineStrArray { elems: None });
            },
            Some(q) => {
                if q.output.len() == 0 {
                    EngineStrArray { elems: None }
                } else {
                    let mut elems: Vec<Vec<u8>> = Vec::new();
                    let mut i: usize = 0;
                    while i < q.output.len()
                        invariant
                            0 <= i <= q.output@.len(),
                            elems@.len() == i,
                            forall|j: int|
                                0 <= j < i ==> (#[trigger] elems@[j])@ == q.output_lines()[j].push(
                                    0u8,
                                ),
                        decreases q.output@.len() - i,
                    {
                        let mut image = copy_bytes(&q.output[i]);
                        image.push(0);
                        elems.push(image);
                        proof {
                            assert(elems@[i as int] == image);
                        }
                        i = i + 1;
                    }
                    proof {
                        assert forall|j: int|
                            0 <= j < elems.deep_view().len() implies elems.deep_view()[j]
                            == q.output_lines()[j].push(0u8) by {
                            assert(elems.deep_view()[j] == elems@[j].deep_view());
                            assert(elems@[j].deep_view() =~= elems@[j]@);
                        }
                    }
                    EngineStrArray { elems: Some(elems) }
                }
            },
        };
        self.ledger.generic_allocated = Ghost(self.ledger.generic_allocated@ + arr.alloc_count());
        (STATUS_OK, arr)
    }

    /// Start the queue: it begins executing, and when idle it picks up the
    /// first pending task.
    pub fn start(&mut self, h: Handle) -> (r: u8)
        requires
            old(self).wf(),
        ensures
            final(self).wf(),
            ledger_unchanged(old(self).ledger, final(self).ledger),
            r == STATUS_OK <==> old(self).valid_queue(h),
            r == STATUS_OK ==> ({
                let q1 = old(self).queue_at(h);
                let q2 = final(self).queue_at(h);
                &&& same_except_queue(*old(self), *final(self), h)
                &&& q2.running
                &&& q2.finished == q1.finished
                &&& q2.output == q1.output
                &&& q2.next_id == q1.next_id
                &&& if q1.current is Some || q1.pending@.len() == 0 {
                    q2.current == q1.current && q2.pending == q1.pending
                } else {
                    q2.current == Some(q1.pending@[0]) && q2.pending@
                        == q1.pending@.drop_first()
                }
            }),
            r != STATUS_OK ==> r == ENGINE_BAD_HANDLE && *final(self) == *old(self),
    {
        let idx = h as usize;
        if idx >= self.queues.len() {
            return ENGINE_BAD_HANDLE;
        }
        if self.queues[idx].is_none() {
            return ENGINE_BAD_HANDLE;
        }
        let slot = &mut self.queues[idx];
        match slot {
            Some(q) => {
                if q.current.is_none() && q.pending.len() > 0 {
                    let t = q.pending.remove(0);
                    q.current = Some(t);
                    proof {
                        assert(q.pending@ =~= old(self).queue_at(h).pending@.drop_first());
                    }
                }
                q.running = true;
                proof {
                    let q1 = old(self).queue_at(h);
                    let q2 = *q;
                    let pl = q1.pending@.len() as int;
                    let fl = q1.finished@.len() as int;
                    assert forall|i: int|
                        0 <= i < q2.all_tasks().len() implies (#[trigger] q2.all_tasks()[i]).id
                        < q2.next_id by {
                        if q1.current is Some || pl == 0 {
                            assert(q2.all_tasks() =~= q1.all_tasks());
                            assert(q1.all_tasks()[i].id < q1.next_id);
                        } else {
                            let oi = if i == pl - 1 + fl {
                                0
                            } else {
                                i + 1
                            };
                            if i < pl - 1 {
                                assert(q2.all_tasks()[i] == q2.pending@[i]);
                                assert(q2.pending@[i] == q1.pending@[i + 1]);
                                assert(q1.all_tasks()[oi] == q1.pending@[oi]);
                            } else if i == pl - 1 + fl {
                                assert(q2.all_tasks()[i] == q1.pending@[0]);
                                assert(q1.all_tasks()[0] == q1.pending@[0]);
                            } else {
                                assert(q2.all_tasks()[i] == q2.finished@[i - (pl - 1)]);
                                assert(q1.all_tasks()[oi] == q1.finished@[oi - pl]);
                            }
                            assert(q1.all_tasks()[oi].id < q1.next_id);
                        }
                    }
                }
            },
            None => {
                proof {
                    assert(false);
                }
            },
        }
        proof {
            lemma_wf_queue_update(*old(self), *self, h);
        }
        STATUS_OK
    }

    /// Stop the queue: it stops executing; nothing else changes.
    pub fn stop(&mut self, h: Handle) -> (r: u8)
        requires
            old(self).wf(),
        ensures
            final(self).wf(),
            ledger_unchanged(old(self).ledger, final(self).ledger),
            r == STATUS_OK <==> old(self).valid_queue(h),
            r == STATUS_OK ==> ({
                let q1 = old(self).queue_at(h);
                let q2 = final(self).queue_at(h);
                &&& same_except_queue(*old(self), *final(self), h)
                &&& !q2.running
                &&& q2.pending == q1.pending
                &&& q2.finished == q1.finished
                &&& q2.current == q1.current
                &&& q2.output == q1.output
                &&& q2.next_id == q1.next_id
            }),
            r != STATUS_OK ==> r == ENGINE_BAD_HANDLE && *final(self) == *old(self),
    {
        let idx = h as usize;
        if idx >= self.queues.len() {
            return ENGINE_BAD_HANDLE;
        }
        if self.queues[idx].is_none() {
            return ENGINE_BAD_HANDLE;
        }
        let slot = &mut self.queues[idx];
        match slot {
            Some(q) => {
                q.running = false;
                proof {
                    assert(q.all_tasks() =~= old(self).queue_at(h).all_tasks());
                }
            },
            None => {
                proof {
                    assert(false);
                }
            },
        }
        proof {
            lemma_wf_queue_update(*old(self), *self, h);
        }
        STATUS_OK
    }

    /// Let the executing task complete with the given exit code and success
    /// flag; it moves to the finished list. The native engine does this on
    /// its own; the in-memory engine exposes it so that completions can be
    /// staged deterministically.
    pub fn finish_current(&mut self, h: Handle, exit_code: i32, success: bool) -> (r: u8)
        requires
            old(self).wf(),
        ensures
            final(self).wf(),
            ledger_unchanged(old(self).ledger, final(self).ledger),
            r == STATUS_OK <==> old(self).valid_queue(h) && old(self).queue_at(h).current
                is Some,
            r == ENGINE_BAD_HANDLE <==> !old(self).valid_queue(h),
            r == STATUS_OK ==> ({
                let q1 = old(self).queue_at(h);
                let q2 = final(self).queue_at(h);
                let done = q1.current->0;
                &&& same_except_queue(*old(self), *final(self), h)
                &&& q2.current is None
                &&& q2.pending == q1.pending
                &&& q2.finished@.len() == q1.finished@.len() + 1
                &&& forall|k: int|
                    0 <= k < q1.finished@.len() ==> q2.finished@[k] == q1.finished@[k]
                &&& q2.finished@.last().model() == (TaskModel {
                    exit_code: exit_code as int,
                    is_success: if success {
                        1u8
                    } else {
                        0u8
                    },
                    ..done.model()
                })
                &&& q2.running == q1.running
                &&& q2.output == q1.output
                &&& q2.next_id == q1.next_id
            }),
            r != STATUS_OK ==> *final(self) == *old(self) && (r == ENGINE_BAD_HANDLE || r
                == ENGINE_NO_CURRENT),
    {
        let idx = h as usize;
        if idx >= self.queues.len() {
            return ENGINE_BAD_HANDLE;
        }
        match &self.queues[idx] {
            None => {
                return ENGINE_BAD_HANDLE;
            },
            Some(q) => {
                if q.current.is_none() {
                    return ENGINE_NO_CURRENT;
                }
            },
        }
        let slot = &mut self.queues[idx];
        match slot {
            Some(q) => {
                let mut taken: Option<ProcTask> = None;
                core::mem::swap(&mut taken, &mut q.current);
                match taken {
                    Some(mut t) => {
                        t.exit_code = exit_code;
                        t.is_success = if success {
                            1
                        } else {
                            0
                        };
                        q.finished.push(t);
                        proof {
                            let q1 = old(self).queue_at(h);
                            let q2 = *q;
                            let pl = q1.pending@.len() as int;
                            let fl = q1.finished@.len() as int;
                            assert forall|i: int|
                                0 <= i < q2.all_tasks().len() implies (
                            #[trigger] q2.all_tasks()[i]).id < q2.next_id by {
                                if i < pl {
                                    assert(q2.all_tasks()[i] == q2.pending@[i]);
                                    assert(q1.all_tasks()[i] == q1.pending@[i]);
                                } else if i < pl + fl {
                                    assert(q2.all_tasks()[i] == q2.finished@[i - pl]);
                                    assert(q2.finished@[i - pl] == q1.finished@[i - pl]);
                                    assert(q1.all_tasks()[i] == q1.finished@[i - pl]);
                                } else {
                                    assert(q2.all_tasks()[i] == q2.finished@[fl]);
                                    assert(q1.all_tasks()[pl + fl] == q1.current->0);
                                    assert(q2.finished@[fl].id == q1.current->0.id);
                                    assert(q1.all_tasks()[pl + fl].id < q1.next_id);
                                }
                                if i < pl + fl {
                                    assert(q1.all_tasks()[i].id < q1.next_id);
                                }
                            }
                        }
                    },
                    None => {
                        proof {
                            assert(false);
                        }
                    },
                }
            },
            None => {
                proof {
                    assert(false);
                }
            },
        }
        proof {
            lemma_wf_queue_update(*old(self), *self, h);
        }
        STATUS_OK
    }

    /// Append one captured output line to the executing task's output. The
    /// native engine fills this from the task's streams; the in-memory
    /// engine exposes it so that output can be staged deterministically.
    pub fn push_output(&mut self, h: Handle, line: &Vec<u8>) -> (r: u8)
        requires
            old(self).wf(),
        ensures
            final(self).wf(),
            ledger_unchanged(old(self).ledger, final(self).ledger),
            r == STATUS_OK <==> old(self).valid_queue(h),
            r == STATUS_OK ==> ({
                let q1 = old(self).queue_at(h);
                let q2 = final(self).queue_at(h);
                &&& same_except_queue(*old(self), *final(self), h)
                &&& q2.output_lines() == q1.output_lines().push(line@)
                &&& q2.pending == q1.pending
                &&& q2.finished == q1.finished
                &&& q2.current == q1.current
                &&& q2.running == q1.running
                &&& q2.next_id == q1.next_id
            }),
            r != STATUS_OK ==> r == ENGINE_BAD_HANDLE && *final(self) == *old(self),
    {
        let idx = h as usize;
        if idx >= self.queues.len() {
            return ENGINE_BAD_HANDLE;
        }
        if self.queues[idx].is_none() {
            return ENGINE_BAD_HANDLE;
        }
        let copy = copy_bytes(line);
        let slot = &mut self.queues[idx];
        match slot {
            Some(q) => {
                q.output.push(copy);
                proof {
                    assert(q.all_tasks() =~= old(self).queue_at(h).all_tasks());
                    assert(q.output_lines() =~= old(self).queue_at(h).output_lines().push(line@));
                }
            },
            None => {
                proof {
                    assert(false);
                }
            },
        }
        proof {
            lemma_wf_queue_update(*old(self), *self, h);
        }
        STATUS_OK
    }
}

/// The identifiers of the given tasks, in order, as one owned array.
fn collect_ids(tasks: &Vec<ProcTask>) -> (r: Vec<i32>)
    ensures
        r@.len() == tasks@.len(),
        forall|j: int| 0 <= j < tasks@.len() ==> r@[j] == tasks@[j].id,
{
    let mut ids: Vec<i32> = Vec::new();
    let mut i: usize = 0;
    while i < tasks.len()
        invariant
            0 <= i <= tasks@.len(),
            ids@.len() == i,
            forall|j: int| 0 <= j < i ==> ids@[j] == tasks@[j].id,
        decreases tasks@.len() - i,
    {
        ids.push(tasks[i].id);
        i = i + 1;
    }
    ids
}

/// Index of the first task with the given identifier, or -1 when none.
pub open spec fn find_by_id(tasks: Seq<ProcTask>, id: i32) -> int
    decreases tasks.len(),
{
    if tasks.len() == 0 {
        -1
    } else if tasks[0].id == id {
        0
    } else if find_by_id(tasks.drop_first(), id) == -1 {
        -1
    } else {
        1 + find_by_id(tasks.drop_first(), id)
    }
}

/// Whether some task carries the given identifier.
pub open spec fn has_id(tasks: Seq<ProcTask>, id: i32) -> bool {
    find_by_id(tasks, id) >= 0
}

/// What `find_by_id` yields: the first index carrying the identifier, or -1
/// when no index does.
pub proof fn lemma_find_by_id(tasks: Seq<ProcTask>, id: i32)
    ensures
        -1 <= find_by_id(tasks, id) < tasks.len(),
        find_by_id(tasks, id) >= 0 ==> tasks[find_by_id(tasks, id)].id == id,
        forall|j: int| 0 <= j < find_by_id(tasks, id) ==> tasks[j].id != id,
        find_by_id(tasks, id) == -1 ==> forall|j: int| 0 <= j < tasks.len() ==> tasks[j].id != id,
    decreases tasks.len(),
{
    if tasks.len() == 0 {
    } else if tasks[0].id == id {
    } else {
        lemma_find_by_id(tasks.drop_first(), id);
        let r = find_by_id(tasks.drop_first(), id);
        if r == -1 {
            assert forall|j: int| 0 <= j < tasks.len() implies tasks[j].id != id by {
                if j > 0 {
                    assert(tasks.drop_first()[j - 1].id != id);
                }
            }
        } else {
            assert forall|j: int| 0 <= j < find_by_id(tasks, id) implies tasks[j].id != id by {
                if j > 0 {
                    assert(tasks.drop_first()[j - 1].id != id);
                }
            }
        }
    }
}

/// `find_by_id` is pinned down by its characteristic properties.
pub proof fn lemma_find_by_id_is(tasks: Seq<ProcTask>, id: i32, n: int)
    requires
        0 <= n < tasks.len(),
        tasks[n].id == id,
        forall|j: int| 0 <= j < n ==> tasks[j].id != id,
    ensures
        find_by_id(tasks, id) == n,
    decreases tasks.len(),
{
    if n == 0 {
    } else {
        assert forall|j: int| 0 <= j < n - 1 implies tasks.drop_first()[j].id != id by {
            assert(tasks[j + 1].id != id);
        }
        lemma_find_by_id_is(tasks.drop_first(), id, n - 1);
    }
}

/// `find_by_id` misses when no task carries the identifier.
pub proof fn lemma_find_by_id_none(tasks: Seq<ProcTask>, id: i32)
    requires
        forall|j: int| 0 <= j < tasks.len() ==> tasks[j].id != id,
    ensures
        find_by_id(tasks, id) == -1,
    decreases tasks.len(),
{
    if tasks.len() == 0 {
    } else {
        assert forall|j: int| 0 <= j < tasks.drop_first().len() implies tasks.drop_first()[j].id
            != id by {
            assert(tasks[j + 1].id != id);
        }
        lemma_find_by_id_none(tasks.drop_first(), id);
    }
}

/// Find the first task with the given identifier, scanning in order.
fn queue_find(tasks: &Vec<ProcTask>, id: i32) -> (r: Option<usize>)
    ensures
        match r {
            Some(i) => i as int == find_by_id(tasks@, id),
            None => find_by_id(tasks@, id) == -1,
        },
{
    let mut i: usize = 0;
    while i < tasks.len()
        invariant
            0 <= i <= tasks@.len(),
            forall|j: int| 0 <= j < i ==> tasks@[j].id != id,
        decreases tasks@.len() - i,
    {
        if tasks[i].id == id {
            proof {
                lemma_find_by_id_is(tasks@, id, i as int);
            }
            return Some(i);
        }
        i = i + 1;
    }
    proof {
        lemma_find_by_id_none(tasks@, id);
    }
    None
}

/// Only the queue behind one handle changed, and its slot is still live.
pub open spec fn same_except_queue(pre: FFModel, post: FFModel, h: Handle) -> bool {
    &&& post.connections == pre.connections
    &&& post.directories == pre.directories
    &&& post.queues@.len() == pre.queues@.len()
    &&& forall|k: int|
        0 <= k < pre.queues@.len() && k != h as int ==> post.queues@[k] == pre.queues@[k]
    &&& post.valid_queue(h)
}

/// A step that replaces one live queue with a well-formed queue keeps the
/// whole engine well formed.
pub proof fn lemma_wf_queue_update(pre: FFModel, post: FFModel, h: Handle)
    requires
        pre.wf(),
        same_except_queue(pre, post, h),
        post.queue_at(h).wf(),
    ensures
        post.wf(),
{
    assert forall|d: int, i: int|
        0 <= d < post.directories@.len() && post.directories@[d] is Some && 0 <= i
            < post.directories@[d]->0.entries@.len() implies post.valid_queue(
        (#[trigger] post.directories@[d]->0.entries@[i]).queue,
    ) by {
        assert(pre.valid_queue(pre.directories@[d]->0.entries@[i].queue));
    }
    assert forall|q: int|
        0 <= q < post.queues@.len() && post.queues@[q] is Some implies (
    #[trigger] post.queues@[q])->0.wf() by {
        if q != h as int {
            assert(post.queues@[q] == pre.queues@[q]);
        }
    }
}

/// A queue with nothing submitted, nothing running and no output.
pub open spec fn queue_empty(q: FFQueue) -> bool {
    &&& q.pending@.len() == 0
    &&& q.finished@.len() == 0
    &&& q.current is None
    &&& !q.running
    &&& q.output@.len() == 0
    &&& q.next_id == 0
}

/// Find the entry with the given name bytes, scanning in order.
fn dir_find(dir: &FFQueueList, name: &Vec<u8>) -> (r: Option<usize>)
    ensures
        match r {
            Some(i) => 0 <= i < dir.entries@.len() && dir.entries@[i as int].name@ == name@,
            None => !dir.has_name(name@),
        },
{
    let mut i: usize = 0;
    while i < dir.entries.len()
        invariant
            0 <= i <= dir.entries@.len(),
            forall|j: int| 0 <= j < i ==> dir.entries@[j].name@ != name@,
        decreases dir.entries@.len() - i,
    {
        if bytes_equal(&dir.entries[i].name, name) {
            return Some(i);
        }
        i = i + 1;
    }
    None
}

/// Nothing was allocated or released between two ledger states.
pub open spec fn ledger_unchanged(pre: AllocLedger, post: AllocLedger) -> bool {
    &&& post.generic_allocated@ == pre.generic_allocated@
    &&& post.generic_freed@ == pre.generic_freed@
    &&& post.task_allocated@ == pre.task_allocated@
    &&& post.task_freed@ == pre.task_freed@
}

} // verus!
