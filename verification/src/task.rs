//! The task record: the engine's flat representation and the bridge's owned
//! counterpart.
//!
//! On the engine side a task is a flat record whose string fields and
//! argument array are separate heap allocations; [`ProcTask`] holds an owned
//! image of each of those allocations. On the bridge side [`ProcTaskDto`]
//! holds self-contained managed values. Encoding builds a `ProcTask` from
//! managed strings before a submission; decoding reads an engine-filled
//! `ProcTask` back and releases it through the engine's structured
//! destructor — never through the generic deallocation routine, because the
//! record's own fields may come from a different allocator.

use vstd::prelude::*;

verus! {

use vstd::utf8::encode_utf8;
use crate::marshal::{
    STATUS_INTERNAL,
    c_content,
    c_image,
    copy_bytes,
    decode_c_string,
    decoded_text,
    encodable,
    encode_c_string,
    lemma_text_round_trip,
};
use crate::ownership::AllocLedger;

/// Owned image of the engine's flat task record. `None` in a string field
/// stands for a null pointer; a `None` element of `argv` stands for a null
/// entry in the argument array.
#[derive(Debug)]
pub struct ProcTask {
    pub exec_name: Option<Vec<u8>>,
    pub argv: Vec<Option<Vec<u8>>>,
    pub work_dir: Option<Vec<u8>>,
    pub id: i32,
    pub exit_code: i32,
    pub is_success: u8,
}

/// The mathematical value of a task record.
pub ghost struct TaskModel {
    pub exec_name: Option<Seq<u8>>,
    pub argv: Seq<Option<Seq<u8>>>,
    pub work_dir: Option<Seq<u8>>,
    pub id: int,
    pub exit_code: int,
    pub is_success: u8,
}

/// The same task record under another identifier.
pub open spec fn with_id(m: TaskModel, id: int) -> TaskModel {
    TaskModel {
        exec_name: m.exec_name,
        argv: m.argv,
        work_dir: m.work_dir,
        id: id,
        exit_code: m.exit_code,
        is_success: m.is_success,
    }
}

impl ProcTask {
    pub open spec fn model(self) -> TaskModel {
        TaskModel {
            exec_name: self.exec_name.deep_view(),
            argv: self.argv.deep_view(),
            work_dir: self.work_dir.deep_view(),
            id: self.id as int,
            exit_code: self.exit_code as int,
            is_success: self.is_success,
        }
    }

    /// An owned copy of the record, as the engine makes when a task is
    /// submitted or handed back.
    pub fn duplicate(&self) -> (r: ProcTask)
        ensures
            r.model() == self.model(),
    {
        let exec_name = copy_opt_bytes(&self.exec_name);
        let work_dir = copy_opt_bytes(&self.work_dir);
        let mut argv: Vec<Option<Vec<u8>>> = Vec::new();
        let mut i: usize = 0;
        while i < self.argv.len()
            invariant
                0 <= i <= self.argv@.len(),
                argv@.len() == i,
                forall|j: int|
                    0 <= j < i ==> (#[trigger] argv@[j]).deep_view() == self.argv@[j].deep_view(),
            decreases self.argv@.len() - i,
        {
            let elem = copy_opt_bytes(&self.argv[i]);
            argv.push(elem);
            proof {
                assert(argv@[i as int] == elem);
            }
            i = i + 1;
        }
        proof {
            assert forall|j: int|
                0 <= j < argv.deep_view().len() implies argv.deep_view()[j]
                == self.argv.deep_view()[j] by {
                assert(argv.deep_view()[j] == argv@[j].deep_view());
                assert(self.argv.deep_view()[j] == self.argv@[j].deep_view());
            }
            assert(argv.deep_view() =~= self.argv.deep_view());
        }
        ProcTask {
            exec_name,
            argv,
            work_dir,
            id: self.id,
            exit_code: self.exit_code,
            is_success: self.is_success,
        }
    }
}

/// An owned copy of an optional byte field.
fn copy_opt_bytes(bytes: &Option<Vec<u8>>) -> (r: Option<Vec<u8>>)
    ensures
        r.deep_view() == bytes.deep_view(),
{
    match bytes {
        None => None,
        Some(v) => Some(copy_bytes(v)),
    }
}

/// The bridge's self-contained task value.
#[derive(Debug, Clone, PartialEq, Eq)]
pub struct ProcTaskDto {
    pub exec_name: String,
    pub args: Vec<String>,
    pub work_dir: Option<String>,
    pub id: i32,
    pub exit_code: i32,
    pub is_success: bool,
}

/// Whether every string of a task submission can cross the boundary.
pub open spec fn submission_encodable(
    exec: Seq<char>,
    args: Seq<Seq<char>>,
    work_dir: Option<Seq<char>>,
) -> bool {
    &&& encodable(exec)
    &&& forall|i: int| 0 <= i < args.len() ==> encodable(#[trigger] args[i])
    &&& match work_dir {
        Some(w) => encodable(w),
        None => true,
    }
}

/// The argument array a submission encodes: one image per argument.
pub open spec fn encoded_args(args: Seq<Seq<char>>) -> Seq<Option<Seq<u8>>> {
    Seq::new(args.len(), |i: int| Some(c_image(args[i])))
}

/// The argument strings read back out of an engine-side argument array;
/// a null entry contributes nothing.
pub open spec fn decoded_args(argv: Seq<Option<Seq<u8>>>) -> Seq<Seq<char>>
    decreases argv.len(),
{
    if argv.len() == 0 {
        Seq::empty()
    } else {
        let rest = decoded_args(argv.drop_first());
        match argv[0] {
            Some(b) => seq![decoded_text(c_content(b))] + rest,
            None => rest,
        }
    }
}

/// The text read back out of an optional engine string; a null pointer reads
/// as the empty string.
pub open spec fn decoded_or_empty(bytes: Option<Seq<u8>>) -> Seq<char> {
    match bytes {
        Some(b) => decoded_text(c_content(b)),
        None => Seq::empty(),
    }
}

proof fn lemma_decoded_args_push(argv: Seq<Option<Seq<u8>>>, x: Option<Seq<u8>>)
    ensures
        decoded_args(argv.push(x)) == decoded_args(argv) + (match x {
            Some(b) => seq![decoded_text(c_content(b))],
            None => Seq::<Seq<char>>::empty(),
        }),
    decreases argv.len(),
{
    let tail = match x {
        Some(b) => seq![decoded_text(c_content(b))],
        None => Seq::<Seq<char>>::empty(),
    };
    if argv.len() == 0 {
        assert(argv.push(x).drop_first() =~= Seq::<Option<Seq<u8>>>::empty());
        assert(decoded_args(Seq::<Option<Seq<u8>>>::empty()) == Seq::<Seq<char>>::empty());
        assert(argv.push(x)[0] == x);
        assert(decoded_args(argv.push(x)) =~= decoded_args(argv) + tail);
    } else {
        assert(argv.push(x).drop_first() =~= argv.drop_first().push(x));
        lemma_decoded_args_push(argv.drop_first(), x);
        assert(decoded_args(argv.push(x)) =~= decoded_args(argv) + tail);
    }
}

/// When no argument entry is null, decoding loses nothing: every entry reads
/// back, in order.
pub proof fn lemma_decoded_args_all_present(argv: Seq<Option<Seq<u8>>>)
    requires
        forall|i: int| 0 <= i < argv.len() ==> (#[trigger] argv[i]) is Some,
    ensures
        decoded_args(argv).len() == argv.len(),
        forall|i: int|
            0 <= i < argv.len() ==> decoded_args(argv)[i] == decoded_text(
                c_content(argv[i]->0),
            ),
    decreases argv.len(),
{
    if argv.len() == 0 {
    } else {
        lemma_decoded_args_all_present(argv.drop_first());
        assert(decoded_args(argv) == seq![decoded_text(c_content(argv[0]->0))] + decoded_args(
            argv.drop_first(),
        ));
    }
}

/// Build the engine-side task record for a submission: each string becomes a
/// null-terminated image, the argument array one image per argument, and the
/// identifier, exit code and success flag their defaults. A string whose
/// encoding holds a null byte is rejected before any engine call.
pub fn proc_task_from_strings(
    exec_name: &str,
    args: &Vec<String>,
    work_dir: Option<&str>,
) -> (r: Result<ProcTask, u8>)
    ensures
        match r {
            Ok(t) => {
                &&& submission_encodable(
                    exec_name@,
                    args.deep_view(),
                    match work_dir {
                        Some(w) => Some(w@),
                        None => None,
                    },
                )
                &&& t.model().exec_name == Some(c_image(exec_name@))
                &&& t.model().argv == encoded_args(args.deep_view())
                &&& t.model().work_dir == match work_dir {
                    Some(w) => Some(c_image(w@)),
                    None => None::<Seq<u8>>,
                }
                &&& t.id == 0
                &&& t.exit_code == 0
                &&& t.is_success == 0
            },
            Err(status) => {
                &&& status == STATUS_INTERNAL
                &&& !submission_encodable(
                    exec_name@,
                    args.deep_view(),
                    match work_dir {
                        Some(w) => Some(w@),
                        None => None,
                    },
                )
            },
        },
{
    let exec_image = match encode_c_string(exec_name) {
        Ok(image) => image,
        Err(status) => {
            return Err(status);
        },
    };
    let mut argv: Vec<Option<Vec<u8>>> = Vec::new();
    let mut i: usize = 0;
    while i < args.len()
        invariant
            0 <= i <= args@.len(),
            argv.deep_view().len() == i,
            forall|j: int|
                0 <= j < i ==> argv.deep_view()[j] == Some(
                    c_image(#[trigger] args.deep_view()[j]),
                ),
            forall|j: int| 0 <= j < i ==> encodable(#[trigger] args.deep_view()[j]),
        decreases args@.len() - i,
    {
        let image = match encode_c_string(args[i].as_str()) {
            Ok(image) => image,
            Err(status) => {
                proof {
                    assert(args.deep_view()[i as int] == args@[i as int]@);
                }
                return Err(status);
            },
        };
        proof {
            assert(args.deep_view()[i as int] == args@[i as int]@);
        }
        argv.push(Some(image));
        i = i + 1;
    }
    let work_dir_image = match work_dir {
        Some(w) => match encode_c_string(w) {
            Ok(image) => Some(image),
            Err(status) => {
                return Err(status);
            },
        },
        None => None,
    };
    proof {
        assert(argv.deep_view() =~= encoded_args(args.deep_view()));
    }
    Ok(
        ProcTask {
            exec_name: Some(exec_image),
            argv,
            work_dir: work_dir_image,
            id: 0,
            exit_code: 0,
            is_success: 0,
        },
    )
}

impl ProcTaskDto {
    /// Decode an engine-filled task record into a self-contained value and
    /// release the record through the engine's structured destructor,
    /// exactly once. Null string fields read as absent or empty; null
    /// argument entries are skipped.
    pub fn from_c(task: ProcTask, ledger: &mut AllocLedger) -> (r: ProcTaskDto)
        ensures
            r.exec_name@ == decoded_or_empty(task.model().exec_name),
            r.args.deep_view() == decoded_args(task.model().argv),
            r.work_dir.deep_view() == match task.model().work_dir {
                Some(b) => Some(decoded_text(c_content(b))),
                None => None::<Seq<char>>,
            },
            r.id == task.id,
            r.exit_code == task.exit_code,
            r.is_success == (task.is_success != 0),
            final(ledger).task_freed@ == old(ledger).task_freed@ + 1,
            final(ledger).task_allocated@ == old(ledger).task_allocated@,
            final(ledger).generic_allocated@ == old(ledger).generic_allocated@,
            final(ledger).generic_freed@ == old(ledger).generic_freed@,
    {
        let exec_name = match &task.exec_name {
            Some(bytes) => {
                proof {
                    assert(bytes.deep_view() =~= bytes@);
                }
                decode_c_string(bytes)
            },
            None => String::new(),
        };
        let work_dir = match &task.work_dir {
            Some(bytes) => {
                proof {
                    assert(bytes.deep_view() =~= bytes@);
                }
                Some(decode_c_string(bytes))
            },
            None => None,
        };
        let mut args: Vec<String> = Vec::new();
        let mut i: usize = 0;
        while i < task.argv.len()
            invariant
                0 <= i <= task.argv@.len(),
                args.deep_view() == decoded_args(task.argv.deep_view().take(i as int)),
            decreases task.argv@.len() - i,
        {
            proof {
                assert(task.argv.deep_view().take(i + 1) =~= task.argv.deep_view().take(
                    i as int,
                ).push(task.argv.deep_view()[i as int]));
                lemma_decoded_args_push(
                    task.argv.deep_view().take(i as int),
                    task.argv.deep_view()[i as int],
                );
                assert(task.argv.deep_view()[i as int] == task.argv@[i as int].deep_view());
            }
            match &task.argv[i] {
                Some(bytes) => {
                    proof {
                        assert(bytes.deep_view() =~= bytes@);
                    }
                    let text = decode_c_string(bytes);
                    args.push(text);
                    proof {
                        assert(args@[args@.len() - 1] == text);
                        assert(args.deep_view() =~= decoded_args(
                            task.argv.deep_view().take(i + 1),
                        ));
                    }
                },
                None => {
                    proof {
                        assert(args.deep_view() =~= decoded_args(
                            task.argv.deep_view().take(i + 1),
                        ));
                    }
                },
            }
            i = i + 1;
        }
        proof {
            assert(task.argv.deep_view().take(task.argv@.len() as int) =~= task.argv.deep_view());
        }
        ledger.task_freed = Ghost(ledger.task_freed@ + 1);
        ProcTaskDto {
            exec_name,
            args,
            work_dir,
            id: task.id,
            exit_code: task.exit_code,
            is_success: task.is_success != 0,
        }
    }
}

/// A task submission decodes back to exactly what was put in: the executable
/// name, every argument in order, and the working directory's presence and
/// text all survive the trip through the engine's flat representation.
pub proof fn lemma_task_round_trip(
    exec: Seq<char>,
    args: Seq<Seq<char>>,
    work_dir: Option<Seq<char>>,
)
    requires
        submission_encodable(exec, args, work_dir),
    ensures
        decoded_or_empty(Some(c_image(exec))) == exec,
        decoded_args(encoded_args(args)) == args,
        match work_dir {
            Some(w) => decoded_text(c_content(c_image(w))) == w,
            None => true,
        },
{
    lemma_text_round_trip(exec);
    if work_dir is Some {
        lemma_text_round_trip(work_dir->0);
    }
    let enc = encoded_args(args);
    assert forall|i: int| 0 <= i < enc.len() implies (#[trigger] enc[i]) is Some by {}
    lemma_decoded_args_all_present(enc);
    assert forall|i: int| 0 <= i < args.len() implies decoded_args(enc)[i] == #[trigger] args[i] by {
        lemma_text_round_trip(args[i]);
    }
    assert(decoded_args(enc) =~= args);
}

} // verus!
