//! The message: the unit of work that owns the two document trees, the
//! transaction log that guards them, the progress tracker and the audit trail.

use vstd::prelude::*;
use vstd::string::StringExecFns;

use crate::audit::creation_audit;
use crate::audit::creation_description;
use crate::audit::creation_reason;
use crate::audit::AuditLog;
use crate::clock::now_unix;
use crate::doc::child_of;
use crate::doc::entries_view;
use crate::doc::find_key;
use crate::doc::is_object;
use crate::doc::lemma_entries_view_index;
use crate::doc::lemma_obj_get_first;
use crate::doc::lemma_obj_get_none;
use crate::doc::lemma_obj_put_first;
use crate::doc::lemma_obj_put_none;
use crate::doc::put_child_exec;
use crate::doc::restore_at;
use crate::doc::undo_all;
use crate::doc::write_at;
use crate::doc::Doc;
use crate::doc::DocValue;
use crate::doc::UndoView;
use crate::errors::FunctionResponseError;
use crate::idgen::next_id;
use crate::path::lemma_split_dots_len;
use crate::path::parse_path;
use crate::path::seg_views;
use crate::path::split_dots;
use crate::path::str_eq;
use crate::progress::MessageStatus;
use crate::progress::Progress;
use crate::progress::StatusCode;

verus! {

/// One entry of the undo log: the full field path of an overwritten slot and
/// the value that slot held immediately before the write.
pub struct UndoEntry {
    pub path: Vec<String>,
    pub prev: DocValue,
}

impl View for UndoEntry {
    type V = UndoView;

    open spec fn view(&self) -> UndoView {
        (seg_views(self.path@), self.prev@)
    }
}

/// The undo log as the contracts see it.
pub open spec fn log_views(l: Seq<UndoEntry>) -> Seq<UndoView> {
    l.map_values(|e: UndoEntry| e@)
}

/// Clone the first `k` segments of a path.
fn clone_prefix(segs: &Vec<String>, k: usize) -> (r: Vec<String>)
    requires
        k <= segs@.len(),
    ensures
        seg_views(r@) == seg_views(segs@).take(k as int),
{
    let mut r: Vec<String> = Vec::new();
    let mut j: usize = 0;
    while j < k
        invariant
            j <= k <= segs@.len(),
            r@.len() == j,
            forall|t: int| 0 <= t < j ==> r@[t]@ == segs@[t]@,
        decreases k - j,
    {
        r.push(segs[j].clone());
        j += 1;
    }
    proof {
        assert(seg_views(r@) =~~= seg_views(segs@).take(k as int));
    }
    r
}

/// Write `value` at `segs[i..]`, descending from `doc`, appending to `log`
/// the undo entries the write produces: one for every intermediate node
/// destructively replaced by an empty object, then one recording the previous
/// value of the written slot.
fn set_at(
    doc: DocValue,
    segs: &Vec<String>,
    i: usize,
    value: DocValue,
    log: &mut Vec<UndoEntry>,
) -> (r: DocValue)
    requires
        1 <= i < segs@.len(),
    ensures
        r@ == write_at(doc@, seg_views(segs@), i as int, value@).0,
        log_views(final(log)@) == log_views(old(log)@) + write_at(
            doc@,
            seg_views(segs@),
            i as int,
            value@,
        ).1,
    decreases segs@.len() - i,
{
    let ghost pathv = seg_views(segs@);
    let ghost dv = doc@;
    let ghost vv = value@;
    let ghost log0 = log@;
    let n = segs.len();
    if i == n - 1 {
        let full = clone_prefix(segs, n);
        let pc = put_child_exec(doc, &segs[i], value);
        log.push(UndoEntry { path: full, prev: pc.1 });
        proof {
            assert(pathv.take(n as int) =~= pathv);
            assert(log_views(log@) =~= log_views(log0) + write_at(dv, pathv, i as int, vv).1);
        }
        pc.0
    } else {
        match doc {
            DocValue::Obj(mut es) => {
                let ghost es0 = es@;
                proof {
                    lemma_entries_view_index(es0);
                }
                match find_key(&es, &segs[i]) {
                    Some(j) => {
                        if is_object(&es[j].1) {
                            let kv = es.remove(j);
                            proof {
                                lemma_obj_get_first(entries_view(es0), pathv[i as int], j as int);
                            }
                            let c2 = set_at(kv.1, segs, i + 1, value, log);
                            es.insert(j, (kv.0, c2));
                            proof {
                                lemma_entries_view_index(es@);
                                lemma_obj_put_first(entries_view(es0), pathv[i as int], c2@, j as int);
                                assert(es@ =~= es0.update(j as int, es@[j as int]));
                                assert(entries_view(es@) =~= entries_view(es0).update(
                                    j as int,
                                    (pathv[i as int], c2@),
                                ));
                                assert(Doc::Obj(entries_view(es@)) =~= write_at(
                                    dv,
                                    pathv,
                                    i as int,
                                    vv,
                                ).0);
                            }
                            DocValue::Obj(es)
                        } else {
                            let kv = es.remove(j);
                            proof {
                                lemma_obj_get_first(entries_view(es0), pathv[i as int], j as int);
                            }
                            log.push(UndoEntry { path: clone_prefix(segs, i + 1), prev: kv.1 });
                            let ghost log1 = log@;
                            proof {
                                assert(log_views(log1) =~= log_views(log0).push(
                                    (pathv.take(i + 1), child_of(dv, pathv[i as int])),
                                ));
                            }
                            let c2 = set_at(DocValue::Obj(Vec::new()), segs, i + 1, value, log);
                            es.insert(j, (kv.0, c2));
                            proof {
                                lemma_entries_view_index(es@);
                                lemma_obj_put_first(entries_view(es0), pathv[i as int], c2@, j as int);
                                assert(es@ =~= es0.update(j as int, es@[j as int]));
                                assert(entries_view(es@) =~= entries_view(es0).update(
                                    j as int,
                                    (pathv[i as int], c2@),
                                ));
                                assert(Doc::Obj(entries_view(es@)) =~= write_at(
                                    dv,
                                    pathv,
                                    i as int,
                                    vv,
                                ).0);
                                assert(log_views(log@) =~= log_views(log0) + write_at(
                                    dv,
                                    pathv,
                                    i as int,
                                    vv,
                                ).1);
                            }
                            DocValue::Obj(es)
                        }
                    },
                    None => {
                        proof {
                            lemma_obj_get_none(entries_view(es0), pathv[i as int]);
                        }
                        log.push(UndoEntry { path: clone_prefix(segs, i + 1), prev: DocValue::Null });
                        let ghost log1 = log@;
                        proof {
                            assert(log_views(log1) =~= log_views(log0).push(
                                (pathv.take(i + 1), Doc::Null),
                            ));
                        }
                        let c2 = set_at(DocValue::Obj(Vec::new()), segs, i + 1, value, log);
                        es.push((segs[i].clone(), c2));
                        proof {
                            lemma_entries_view_index(es@);
                            lemma_obj_put_none(entries_view(es0), pathv[i as int], c2@);
                            assert(entries_view(es@) =~= entries_view(es0).push(
                                (pathv[i as int], c2@),
                            ));
                            assert(Doc::Obj(entries_view(es@)) =~= write_at(
                                dv,
                                pathv,
                                i as int,
                                vv,
                            ).0);
                            assert(log_views(log@) =~= log_views(log0) + write_at(
                                dv,
                                pathv,
                                i as int,
                                vv,
                            ).1);
                        }
                        DocValue::Obj(es)
                    },
                }
            },
            _ => {
                log.push(UndoEntry { path: clone_prefix(segs, i + 1), prev: DocValue::Null });
                let ghost log1 = log@;
                proof {
                    assert(log_views(log1) =~= log_views(log0).push(
                        (pathv.take(i + 1), Doc::Null),
                    ));
                }
                let c2 = set_at(DocValue::Obj(Vec::new()), segs, i + 1, value, log);
                let mut es: Vec<(String, DocValue)> = Vec::new();
                es.push((segs[i].clone(), c2));
                proof {
                    lemma_entries_view_index(es@);
                    assert(entries_view(es@) =~= crate::doc::obj_put(
                        Seq::empty(),
                        pathv[i as int],
                        c2@,
                    ));
                    assert(Doc::Obj(entries_view(es@)) =~= write_at(dv, pathv, i as int, vv).0);
                    assert(log_views(log@) =~= log_views(log0) + write_at(
                        dv,
                        pathv,
                        i as int,
                        vv,
                    ).1);
                }
                DocValue::Obj(es)
            },
        }
    }
}

/// Restore `prev` at `path[i..]`. The walk stops early when an intermediate
/// child is not an object: the tree below is left as it stands and the final
/// segment's key is written at the node where the walk stopped.
fn restore_entry(doc: DocValue, path: &Vec<String>, i: usize, prev: DocValue) -> (r: DocValue)
    requires
        1 <= i,
        i + 1 <= path@.len(),
    ensures
        r@ == restore_at(doc@, seg_views(path@), i as int, prev@),
    decreases path@.len() - i,
{
    let ghost pathv = seg_views(path@);
    let ghost dv = doc@;
    let n = path.len();
    if i == n - 1 {
        let pc = put_child_exec(doc, &path[i], prev);
        pc.0
    } else {
        match doc {
            DocValue::Obj(mut es) => {
                let ghost es0 = es@;
                proof {
                    lemma_entries_view_index(es0);
                }
                match find_key(&es, &path[i]) {
                    Some(j) => {
                        if is_object(&es[j].1) {
                            let kv = es.remove(j);
                            proof {
                                lemma_obj_get_first(entries_view(es0), pathv[i as int], j as int);
                            }
                            let c2 = restore_entry(kv.1, path, i + 1, prev);
                            es.insert(j, (kv.0, c2));
                            proof {
                                lemma_entries_view_index(es@);
                                lemma_obj_put_first(entries_view(es0), pathv[i as int], c2@, j as int);
                                assert(es@ =~= es0.update(j as int, es@[j as int]));
                                assert(entries_view(es@) =~= entries_view(es0).update(
                                    j as int,
                                    (pathv[i as int], c2@),
                                ));
                                assert(Doc::Obj(entries_view(es@)) =~= restore_at(
                                    dv,
                                    pathv,
                                    i as int,
                                    prev@,
                                ));
                            }
                            DocValue::Obj(es)
                        } else {
                            proof {
                                lemma_obj_get_first(entries_view(es0), pathv[i as int], j as int);
                            }
                            let pc = put_child_exec(DocValue::Obj(es), &path[n - 1], prev);
                            pc.0
                        }
                    },
                    None => {
                        proof {
                            lemma_obj_get_none(entries_view(es0), pathv[i as int]);
                        }
                        let pc = put_child_exec(DocValue::Obj(es), &path[n - 1], prev);
                        pc.0
                    },
                }
            },
            _ => {
                let pc = put_child_exec(doc, &path[n - 1], prev);
                pc.0
            },
        }
    }
}

/// Externally defined content a message carries, opaque to the patch engine.
pub struct Payload {
    pub content: String,
}

/// The unit of work. The two document trees are mutable only through
/// [`Message::update`]; `transaction_changes` holds the undo log exactly
/// while a transaction is open.
pub struct Message {
    pub id: u64,
    pub parent_id: Option<String>,
    pub payload: Payload,
    pub version: u16,
    pub tenant: String,
    pub origin: String,
    pub data: DocValue,
    pub metadata: DocValue,
    pub progress: Progress,
    pub audit: Vec<AuditLog>,
    pub ephemeral_data: DocValue,
    pub transaction_changes: Option<Vec<UndoEntry>>,
}

/// The fields set once at creation and never reassigned.
pub open spec fn same_identity(a: Message, b: Message) -> bool {
    &&& a.id == b.id
    &&& a.parent_id == b.parent_id
    &&& a.payload == b.payload
    &&& a.version == b.version
    &&& a.tenant == b.tenant
    &&& a.origin == b.origin
}

impl Message {
    /// The undo log as the contracts see it: `Some` exactly while a
    /// transaction is open.
    pub open spec fn log_view(self) -> Option<Seq<UndoView>> {
        match self.transaction_changes {
            Some(l) => Some(log_views(l@)),
            None => None,
        }
    }

    pub fn audit(&self) -> (r: &Vec<AuditLog>)
        ensures
            *r == self.audit,
    {
        &self.audit
    }

    pub fn data(&self) -> (r: &DocValue)
        ensures
            *r == self.data,
    {
        &self.data
    }

    pub fn id(&self) -> (r: u64)
        ensures
            r == self.id,
    {
        self.id
    }

    pub fn metadata(&self) -> (r: &DocValue)
        ensures
            *r == self.metadata,
    {
        &self.metadata
    }

    pub fn origin(&self) -> (r: &String)
        ensures
            *r == self.origin,
    {
        &self.origin
    }

    pub fn parent_id(&self) -> (r: &Option<String>)
        ensures
            *r == self.parent_id,
    {
        &self.parent_id
    }

    pub fn payload(&self) -> (r: &Payload)
        ensures
            *r == self.payload,
    {
        &self.payload
    }

    pub fn progress(&self) -> (r: &Progress)
        ensures
            *r == self.progress,
    {
        &self.progress
    }

    pub fn tenant(&self) -> (r: &String)
        ensures
            *r == self.tenant,
    {
        &self.tenant
    }

    pub fn version(&self) -> (r: u16)
        ensures
            r == self.version,
    {
        self.version
    }

    /// The field paths recorded so far by the open transaction, for the
    /// orchestrator to summarize into an audit entry; `None` outside a
    /// transaction.
    pub fn transaction_changes(&self) -> (r: Option<&Vec<UndoEntry>>)
        ensures
            match r {
                Some(l) => self.transaction_changes == Some(*l),
                None => self.transaction_changes is None,
            },
    {
        self.transaction_changes.as_ref()
    }

    /// Open a transaction: record the workflow identity and start an empty
    /// undo log. Cannot fail.
    pub fn transaction_begin(&mut self, workflow: String, task: String)
        ensures
            final(self).progress.workflow_id == workflow,
            final(self).progress.prev_task == task,
            final(self).progress.status == old(self).progress.status,
            final(self).progress.prev_status_code == old(self).progress.prev_status_code,
            final(self).progress.timestamp == old(self).progress.timestamp,
            final(self).log_view() == Some(Seq::<UndoView>::empty()),
            final(self).data == old(self).data,
            final(self).metadata == old(self).metadata,
            final(self).audit == old(self).audit,
            final(self).ephemeral_data == old(self).ephemeral_data,
            same_identity(*old(self), *final(self)),
    {
        self.progress.workflow_id = workflow;
        self.progress.prev_task = task;
        self.transaction_changes = Some(Vec::new());
        proof {
            assert(log_views(Seq::<UndoEntry>::empty()) =~= Seq::<UndoView>::empty());
        }
    }

    /// Write `new_value` at `field_path`. A path whose root segment is
    /// neither `data` nor `metadata` is rejected with the 400 validation
    /// error, and nothing changes. Otherwise the write lands in the named
    /// tree; while a transaction is open, the undo entries it produces are
    /// appended to the log. A write outside a transaction still occurs but is
    /// not undoable.
    pub fn update(&mut self, field_path: &str, new_value: DocValue) -> (r: Result<
        (),
        FunctionResponseError,
    >)
        ensures
            ({
                let segs = split_dots(field_path@);
                if segs[0] == "data"@ || segs[0] == "metadata"@ {
                    &&& r is Ok
                    &&& if segs.len() == 1 {
                        *final(self) == *old(self)
                    } else {
                        let root0 = if segs[0] == "data"@ {
                            old(self).data@
                        } else {
                            old(self).metadata@
                        };
                        let w = write_at(root0, segs, 1, new_value@);
                        &&& if segs[0] == "data"@ {
                            final(self).data@ == w.0 && final(self).metadata == old(self).metadata
                        } else {
                            final(self).metadata@ == w.0 && final(self).data == old(self).data
                        }
                        &&& final(self).log_view() == match old(self).log_view() {
                            Some(l) => Some(l + w.1),
                            None => None::<Seq<UndoView>>,
                        }
                        &&& final(self).progress == old(self).progress
                        &&& final(self).audit == old(self).audit
                        &&& final(self).ephemeral_data == old(self).ephemeral_data
                        &&& same_identity(*old(self), *final(self))
                    }
                } else {
                    &&& *final(self) == *old(self)
                    &&& match r {
                        Ok(_) => false,
                        Err(e) => {
                            &&& e.function@ == "Update"@
                            &&& e.code == 400
                            &&& e.message@ == "Field path must start with 'data' or 'metadata'"@
                        },
                    }
                }
            }),
    {
        let segs = parse_path(field_path);
        proof {
            lemma_split_dots_len(field_path@);
        }
        let is_data = str_eq(segs[0].as_str(), "data");
        let is_meta = if is_data {
            false
        } else {
            str_eq(segs[0].as_str(), "metadata")
        };
        if !is_data && !is_meta {
            return Err(
                FunctionResponseError::new(
                    String::from_str("Update"),
                    400,
                    String::from_str("Field path must start with 'data' or 'metadata'"),
                ),
            );
        }
        if segs.len() == 1 {
            return Ok(());
        }
        let was_open = self.transaction_changes.is_some();
        let mut logv: Vec<UndoEntry> = match self.transaction_changes.take() {
            Some(l) => l,
            None => Vec::new(),
        };
        let mut root = DocValue::Null;
        if is_data {
            core::mem::swap(&mut root, &mut self.data);
        } else {
            core::mem::swap(&mut root, &mut self.metadata);
        }
        let root2 = set_at(root, &segs, 1, new_value, &mut logv);
        if is_data {
            self.data = root2;
        } else {
            self.metadata = root2;
        }
        if was_open {
            self.transaction_changes = Some(logv);
        }
        Ok(())
    }

    /// Close the transaction successfully: discard the undo log, mark the
    /// outcome Success, refresh the timestamp. Cannot fail.
    pub fn transaction_commit(&mut self)
        ensures
            final(self).transaction_changes is None,
            final(self).progress.prev_status_code == Some(StatusCode::Success),
            final(self).progress.status == old(self).progress.status,
            final(self).progress.workflow_id == old(self).progress.workflow_id,
            final(self).progress.prev_task == old(self).progress.prev_task,
            final(self).data == old(self).data,
            final(self).metadata == old(self).metadata,
            final(self).audit == old(self).audit,
            final(self).ephemeral_data == old(self).ephemeral_data,
            same_identity(*old(self), *final(self)),
    {
        self.progress.prev_status_code = Some(StatusCode::Success);
        self.progress.timestamp = now_unix();
        self.transaction_changes = None;
    }

    /// Close the transaction by undoing it: replay the undo log newest entry
    /// first, restoring each recorded previous value, then mark the outcome
    /// Failure and refresh the timestamp. With no open transaction the trees
    /// are untouched but the outcome is still marked. Cannot fail.
    pub fn transaction_rollback(&mut self)
        ensures
            ({
                let entries = match old(self).log_view() {
                    Some(l) => l,
                    None => Seq::<UndoView>::empty(),
                };
                let u = undo_all(old(self).data@, old(self).metadata@, entries);
                &&& final(self).data@ == u.0
                &&& final(self).metadata@ == u.1
                &&& final(self).transaction_changes is None
                &&& final(self).progress.prev_status_code == Some(StatusCode::Failure)
                &&& final(self).progress.status == old(self).progress.status
                &&& final(self).progress.workflow_id == old(self).progress.workflow_id
                &&& final(self).progress.prev_task == old(self).progress.prev_task
                &&& final(self).audit == old(self).audit
                &&& final(self).ephemeral_data == old(self).ephemeral_data
                &&& same_identity(*old(self), *final(self))
            }),
    {
        let ghost d0 = self.data@;
        let ghost m0 = self.metadata@;
        let tc = self.transaction_changes.take();
        match tc {
            Some(mut log) => {
                let ghost l0 = log_views(log@);
                while log.len() > 0
                    invariant
                        undo_all(d0, m0, l0) == undo_all(
                            self.data@,
                            self.metadata@,
                            log_views(log@),
                        ),
                        self.transaction_changes is None,
                        self.progress == old(self).progress,
                        self.audit == old(self).audit,
                        self.ephemeral_data == old(self).ephemeral_data,
                        same_identity(*old(self), *self),
                    decreases log@.len(),
                {
                    let ghost before = log_views(log@);
                    let ghost dprev = self.data@;
                    let ghost mprev = self.metadata@;
                    let e = log.pop().unwrap();
                    proof {
                        assert(log_views(log@) =~= before.drop_last());
                        assert(before.last() == e@);
                    }
                    if e.path.len() >= 2 {
                        let is_d = str_eq(e.path[0].as_str(), "data");
                        let is_m = if is_d {
                            false
                        } else {
                            str_eq(e.path[0].as_str(), "metadata")
                        };
                        if is_d {
                            let mut root = DocValue::Null;
                            core::mem::swap(&mut root, &mut self.data);
                            self.data = restore_entry(root, &e.path, 1, e.prev);
                        } else if is_m {
                            let mut root = DocValue::Null;
                            core::mem::swap(&mut root, &mut self.metadata);
                            self.metadata = restore_entry(root, &e.path, 1, e.prev);
                        }
                    }
                    proof {
                        assert((self.data@, self.metadata@) == crate::doc::undo_one(
                            dprev,
                            mprev,
                            e@,
                        ));
                    }
                }
            },
            None => {},
        }
        self.progress.prev_status_code = Some(StatusCode::Failure);
        self.progress.timestamp = now_unix();
    }

    /// Create a message: draw a fresh identifier from the caller's allocator,
    /// initialize both trees to null, record the single creation audit entry,
    /// set the progress tracker and open an empty transaction log. Fails
    /// exactly when the allocator cannot produce an identifier; no partially
    /// constructed message is observable.
    pub fn new(
        payload: Payload,
        tenant: String,
        origin: String,
        workflow_id: String,
        workflow_version: u16,
        task_id: String,
        message_alias: Option<String>,
        allocator: &sonyflake::Sonyflake,
    ) -> (r: Result<Message, FunctionResponseError>)
        ensures
            ({
                let alias = match message_alias {
                    Some(a) => a@,
                    None => "Message"@,
                };
                match r {
                    Ok(m) => {
                        &&& m.version == 1
                        &&& m.parent_id is None
                        &&& m.payload == payload
                        &&& m.tenant == tenant
                        &&& m.origin == origin
                        &&& m.data@ == Doc::Null
                        &&& m.metadata@ == Doc::Null
                        &&& m.ephemeral_data@ == Doc::Null
                        &&& m.progress.status == MessageStatus::Received
                        &&& m.progress.workflow_id == workflow_id
                        &&& m.progress.prev_task == task_id
                        &&& m.progress.prev_status_code == Some(StatusCode::Success)
                        &&& m.log_view() == Some(Seq::<UndoView>::empty())
                        &&& m.audit@.len() == 1
                        &&& m.audit@[0].workflow_id == workflow_id
                        &&& m.audit@[0].workflow_version == workflow_version
                        &&& m.audit@[0].task_id == task_id
                        &&& m.audit@[0].description@ == creation_description(alias)
                        &&& m.audit@[0].changes@.len() == 1
                        &&& m.audit@[0].changes@[0].field@ == "payload"@
                        &&& m.audit@[0].changes@[0].reason@ == creation_reason(alias)
                        &&& m.audit@[0].changes@[0].old_value is None
                        &&& m.audit@[0].changes@[0].new_value is None
                    },
                    Err(e) => {
                        &&& e.function@ == "Create"@
                        &&& e.code == 500
                        &&& e.message@ == "Message id allocation failed"@
                    },
                }
            }),
    {
        let id = match next_id(allocator) {
            Some(v) => v,
            None => {
                return Err(
                    FunctionResponseError::new(
                        String::from_str("Create"),
                        500,
                        String::from_str("Message id allocation failed"),
                    ),
                );
            },
        };
        let alias: String = match message_alias {
            Some(a) => a,
            None => String::from_str("Message"),
        };
        let entry = creation_audit(
            workflow_id.clone(),
            workflow_version,
            task_id.clone(),
            now_unix(),
            alias.as_str(),
        );
        let mut audit_trail: Vec<AuditLog> = Vec::new();
        audit_trail.push(entry);
        proof {
            assert(log_views(Seq::<UndoEntry>::empty()) =~= Seq::<UndoView>::empty());
        }
        Ok(
            Message {
                id,
                parent_id: None,
                payload,
                version: 1,
                tenant,
                origin,
                data: DocValue::Null,
                metadata: DocValue::Null,
                progress: Progress {
                    status: MessageStatus::Received,
                    workflow_id,
                    prev_task: task_id,
                    prev_status_code: Some(StatusCode::Success),
                    timestamp: now_unix(),
                },
                audit: audit_trail,
                ephemeral_data: DocValue::Null,
                transaction_changes: Some(Vec::new()),
            },
        )
    }

    /// Read the transient scratch value.
    pub fn ephemeral_data(&self) -> (r: &DocValue)
        ensures
            *r == self.ephemeral_data,
    {
        &self.ephemeral_data
    }

    /// Replace the transient scratch value. It never touches the transaction
    /// log, the trees, or anything else in the message.
    pub fn set_ephemeral_data(&mut self, value: DocValue)
        ensures
            final(self).ephemeral_data == value,
            final(self).data == old(self).data,
            final(self).metadata == old(self).metadata,
            final(self).transaction_changes == old(self).transaction_changes,
            final(self).progress == old(self).progress,
            final(self).audit == old(self).audit,
            same_identity(*old(self), *final(self)),
    {
        self.ephemeral_data = value;
    }
}

} // verus!
