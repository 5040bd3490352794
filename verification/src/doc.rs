//! The document tree: a dynamically shaped value with object, array and
//! scalar nodes, together with the path-addressed read, write and restore
//! operations that the transaction engine is built on.

use vstd::prelude::*;

verus! {

/// A dynamically shaped document value, the node type of the `data` and
/// `metadata` trees. Object nodes keep their entries as an association list
/// in insertion order; a lookup takes the first entry whose key matches.
pub enum DocValue {
    Null,
    Bool(bool),
    Int(i64),
    Str(String),
    Arr(Vec<DocValue>),
    Obj(Vec<(String, DocValue)>),
}

/// The mathematical shape of a document tree, used by every contract.
#[verifier::ext_equal]
pub enum Doc {
    Null,
    Bool(bool),
    Int(i64),
    Str(Seq<char>),
    Arr(Seq<Doc>),
    Obj(Seq<(Seq<char>, Doc)>),
}

pub open spec fn list_view(s: Seq<DocValue>) -> Seq<Doc>
    decreases s,
{
    if s.len() == 0 {
        Seq::empty()
    } else {
        seq![doc_view(s[0])] + list_view(s.subrange(1, s.len() as int))
    }
}

pub open spec fn entries_view(s: Seq<(String, DocValue)>) -> Seq<(Seq<char>, Doc)>
    decreases s,
{
    if s.len() == 0 {
        Seq::empty()
    } else {
        seq![(s[0].0@, doc_view(s[0].1))] + entries_view(s.subrange(1, s.len() as int))
    }
}

pub open spec fn doc_view(d: DocValue) -> Doc
    decreases d,
{
    match d {
        DocValue::Null => Doc::Null,
        DocValue::Bool(b) => Doc::Bool(b),
        DocValue::Int(i) => Doc::Int(i),
        DocValue::Str(s) => Doc::Str(s@),
        DocValue::Arr(v) => Doc::Arr(list_view(v@)),
        DocValue::Obj(es) => Doc::Obj(entries_view(es@)),
    }
}

impl View for DocValue {
    type V = Doc;

    open spec fn view(&self) -> Doc {
        doc_view(*self)
    }
}

/// The value of the first entry with the given key, if any.
pub open spec fn obj_get(es: Seq<(Seq<char>, Doc)>, key: Seq<char>) -> Option<Doc>
    decreases es.len(),
{
    if es.len() == 0 {
        None
    } else if es[0].0 == key {
        Some(es[0].1)
    } else {
        obj_get(es.subrange(1, es.len() as int), key)
    }
}

/// Replace the value of the first entry with the given key, or append a new
/// entry when no key matches.
pub open spec fn obj_put(es: Seq<(Seq<char>, Doc)>, key: Seq<char>, v: Doc) -> Seq<(Seq<char>, Doc)>
    decreases es.len(),
{
    if es.len() == 0 {
        seq![(key, v)]
    } else if es[0].0 == key {
        seq![(key, v)] + es.subrange(1, es.len() as int)
    } else {
        seq![es[0]] + obj_put(es.subrange(1, es.len() as int), key, v)
    }
}

/// The child of a node under a key: absent children and children of
/// non-object nodes read as `Null`.
pub open spec fn child_of(d: Doc, key: Seq<char>) -> Doc {
    match d {
        Doc::Obj(es) => match obj_get(es, key) {
            Some(v) => v,
            None => Doc::Null,
        },
        _ => Doc::Null,
    }
}

/// Write a child under a key. A non-object node is replaced by a fresh
/// object that holds only the new entry.
pub open spec fn put_child(d: Doc, key: Seq<char>, v: Doc) -> Doc {
    match d {
        Doc::Obj(es) => Doc::Obj(obj_put(es, key, v)),
        _ => Doc::Obj(obj_put(Seq::empty(), key, v)),
    }
}

/// The value reached from `d` by following `path[i..]`.
pub open spec fn get_at(d: Doc, path: Seq<Seq<char>>, i: int) -> Doc
    decreases path.len() - i,
{
    if i < 0 || i >= path.len() {
        d
    } else {
        get_at(child_of(d, path[i]), path, i + 1)
    }
}

/// One undo-log entry as the contracts see it: the full field path of the
/// overwritten slot and the value it held before the write.
pub type UndoView = (Seq<Seq<char>>, Doc);

/// Write `v` at `path[i..]`, descending from `d`, and return the new tree
/// together with the undo-log entries the write produces: one entry for each
/// intermediate node that is destructively replaced by an empty object, in
/// walk order, and one final entry recording the previous value of the
/// written slot.
pub open spec fn write_at(d: Doc, path: Seq<Seq<char>>, i: int, v: Doc) -> (Doc, Seq<UndoView>)
    recommends
        1 <= i < path.len(),
    decreases path.len() - i,
{
    if i + 1 >= path.len() {
        (put_child(d, path[i], v), seq![(path, child_of(d, path[i]))])
    } else {
        let c = child_of(d, path[i]);
        if c is Obj {
            let r = write_at(c, path, i + 1, v);
            (put_child(d, path[i], r.0), r.1)
        } else {
            let r = write_at(Doc::Obj(Seq::empty()), path, i + 1, v);
            (put_child(d, path[i], r.0), seq![(path.take(i + 1), c)] + r.1)
        }
    }
}

/// Restore `prev` at `path[i..]`. The walk stops early when an intermediate
/// child is not an object: the tree below that point is left as it stands and
/// the final segment's key is written at the node where the walk stopped.
pub open spec fn restore_at(d: Doc, path: Seq<Seq<char>>, i: int, prev: Doc) -> Doc
    recommends
        1 <= i <= path.len() - 1,
    decreases path.len() - i,
{
    if i + 1 >= path.len() {
        put_child(d, path[i], prev)
    } else {
        let c = child_of(d, path[i]);
        if c is Obj {
            put_child(d, path[i], restore_at(c, path, i + 1, prev))
        } else {
            put_child(d, path[path.len() - 1], prev)
        }
    }
}

/// Replay a whole undo log against one tree, newest entry first, restoring
/// each entry from segment `i` on.
pub open spec fn undo_tree_at(d: Doc, log: Seq<UndoView>, i: int) -> Doc
    decreases log.len(),
{
    if log.len() == 0 {
        d
    } else {
        undo_tree_at(restore_at(d, log.last().0, i, log.last().1), log.drop_last(), i)
    }
}

/// Replay a whole undo log against one tree, newest entry first.
pub open spec fn undo_tree(d: Doc, log: Seq<UndoView>) -> Doc {
    undo_tree_at(d, log, 1)
}

/// Replay one undo-log entry against the pair of document roots: the entry's
/// first segment selects the tree; an entry whose path is too short or whose
/// root segment matches neither tree is skipped.
pub open spec fn undo_one(data: Doc, meta: Doc, e: UndoView) -> (Doc, Doc) {
    if e.0.len() < 2 {
        (data, meta)
    } else if e.0[0] == "data"@ {
        (restore_at(data, e.0, 1, e.1), meta)
    } else if e.0[0] == "metadata"@ {
        (data, restore_at(meta, e.0, 1, e.1))
    } else {
        (data, meta)
    }
}

/// Replay a whole undo log against the pair of document roots, newest entry
/// first: exactly what a rollback does to the trees.
pub open spec fn undo_all(data: Doc, meta: Doc, log: Seq<UndoView>) -> (Doc, Doc)
    decreases log.len(),
{
    if log.len() == 0 {
        (data, meta)
    } else {
        let r = undo_one(data, meta, log.last());
        undo_all(r.0, r.1, log.drop_last())
    }
}

/// True exactly when the node is an object.
pub fn is_object(d: &DocValue) -> (r: bool)
    ensures
        r == (d@ is Obj),
{
    match d {
        DocValue::Obj(_) => true,
        _ => false,
    }
}

/// The index of the first entry whose key matches, if any.
pub fn find_key(es: &Vec<(String, DocValue)>, key: &String) -> (r: Option<usize>)
    ensures
        match r {
            Some(j) => j < es@.len() && es@[j as int].0@ == key@ && (forall|k: int|
                0 <= k < j ==> es@[k].0@ != key@),
            None => forall|k: int| 0 <= k < es@.len() ==> es@[k].0@ != key@,
        },
{
    let mut j: usize = 0;
    while j < es.len()
        invariant
            j <= es@.len(),
            forall|k: int| 0 <= k < j ==> es@[k].0@ != key@,
        decreases es@.len() - j,
    {
        if es[j].0 == *key {
            return Some(j);
        }
        j += 1;
    }
    None
}

/// Write `value` under `key`, replacing a non-object node by a fresh object,
/// and hand back the child the slot held before.
pub fn put_child_exec(doc: DocValue, key: &String, value: DocValue) -> (r: (DocValue, DocValue))
    ensures
        r.0@ == put_child(doc@, key@, value@),
        r.1@ == child_of(doc@, key@),
{
    let ghost dv = doc@;
    let ghost vv = value@;
    match doc {
        DocValue::Obj(mut es) => {
            let ghost es0 = es@;
            proof {
                lemma_entries_view_index(es0);
            }
            match find_key(&es, key) {
                Some(j) => {
                    let kv = es.remove(j);
                    es.insert(j, (kv.0, value));
                    proof {
                        lemma_entries_view_index(es@);
                        lemma_obj_get_first(entries_view(es0), key@, j as int);
                        lemma_obj_put_first(entries_view(es0), key@, vv, j as int);
                        assert(es@ =~= es0.update(j as int, es@[j as int]));
                        assert(entries_view(es@) =~= entries_view(es0).update(
                            j as int,
                            (key@, vv),
                        ));
                        assert(Doc::Obj(entries_view(es@)) =~= put_child(dv, key@, vv));
                    }
                    (DocValue::Obj(es), kv.1)
                },
                None => {
                    es.push((key.clone(), value));
                    proof {
                        lemma_entries_view_index(es@);
                        lemma_obj_get_none(entries_view(es0), key@);
                        lemma_obj_put_none(entries_view(es0), key@, vv);
                        assert(entries_view(es@) =~= entries_view(es0).push((key@, vv)));
                        assert(Doc::Obj(entries_view(es@)) =~= put_child(dv, key@, vv));
                    }
                    (DocValue::Obj(es), DocValue::Null)
                },
            }
        },
        _ => {
            let mut es: Vec<(String, DocValue)> = Vec::new();
            es.push((key.clone(), value));
            proof {
                lemma_entries_view_index(es@);
                assert(entries_view(es@) =~= obj_put(Seq::empty(), key@, vv));
                assert(Doc::Obj(entries_view(es@)) =~= put_child(dv, key@, vv));
            }
            (DocValue::Obj(es), DocValue::Null)
        },
    }
}

/// `entries_view` maps the exec entries pointwise.
pub proof fn lemma_entries_view_index(s: Seq<(String, DocValue)>)
    ensures
        entries_view(s).len() == s.len(),
        forall|j: int|
            0 <= j < s.len() ==> entries_view(s)[j] == (s[j].0@, doc_view(s[j].1)),
    decreases s.len(),
{
    if s.len() > 0 {
        lemma_entries_view_index(s.subrange(1, s.len() as int));
    }
}

/// `obj_get` returns the entry at the first matching index.
pub proof fn lemma_obj_get_first(es: Seq<(Seq<char>, Doc)>, key: Seq<char>, j: int)
    requires
        0 <= j < es.len(),
        es[j].0 == key,
        forall|k: int| 0 <= k < j ==> es[k].0 != key,
    ensures
        obj_get(es, key) == Some(es[j].1),
    decreases es.len(),
{
    if j > 0 {
        lemma_obj_get_first(es.subrange(1, es.len() as int), key, j - 1);
    }
}

/// `obj_get` finds nothing when no key matches.
pub proof fn lemma_obj_get_none(es: Seq<(Seq<char>, Doc)>, key: Seq<char>)
    requires
        forall|k: int| 0 <= k < es.len() ==> es[k].0 != key,
    ensures
        obj_get(es, key) == None::<Doc>,
    decreases es.len(),
{
    if es.len() > 0 {
        lemma_obj_get_none(es.subrange(1, es.len() as int), key);
    }
}

/// `obj_put` updates in place at the first matching index.
pub proof fn lemma_obj_put_first(es: Seq<(Seq<char>, Doc)>, key: Seq<char>, v: Doc, j: int)
    requires
        0 <= j < es.len(),
        es[j].0 == key,
        forall|k: int| 0 <= k < j ==> es[k].0 != key,
    ensures
        obj_put(es, key, v) =~= es.update(j, (key, v)),
    decreases es.len(),
{
    if j > 0 {
        lemma_obj_put_first(es.subrange(1, es.len() as int), key, v, j - 1);
    }
}

/// `obj_put` appends when no key matches.
pub proof fn lemma_obj_put_none(es: Seq<(Seq<char>, Doc)>, key: Seq<char>, v: Doc)
    requires
        forall|k: int| 0 <= k < es.len() ==> es[k].0 != key,
    ensures
        obj_put(es, key, v) =~= es.push((key, v)),
    decreases es.len(),
{
    if es.len() > 0 {
        lemma_obj_put_none(es.subrange(1, es.len() as int), key, v);
    }
}

/// Reading back the key just written yields the written value.
pub proof fn lemma_child_of_put(d: Doc, key: Seq<char>, v: Doc)
    ensures
        child_of(put_child(d, key, v), key) == v,
{
    let es = match d {
        Doc::Obj(es) => es,
        _ => Seq::empty(),
    };
    lemma_obj_get_put(es, key, v);
}

proof fn lemma_obj_get_put(es: Seq<(Seq<char>, Doc)>, key: Seq<char>, v: Doc)
    ensures
        obj_get(obj_put(es, key, v), key) == Some(v),
    decreases es.len(),
{
    if es.len() > 0 && es[0].0 != key {
        lemma_obj_get_put(es.subrange(1, es.len() as int), key, v);
        assert((seq![es[0]] + obj_put(es.subrange(1, es.len() as int), key, v)).subrange(
            1,
            (seq![es[0]] + obj_put(es.subrange(1, es.len() as int), key, v)).len() as int,
        ) =~= obj_put(es.subrange(1, es.len() as int), key, v));
    }
}

/// Writing one key twice is the same as writing it once with the later value.
pub proof fn lemma_put_put(d: Doc, key: Seq<char>, x: Doc, y: Doc)
    ensures
        put_child(put_child(d, key, x), key, y) == put_child(d, key, y),
{
    let es = match d {
        Doc::Obj(es) => es,
        _ => Seq::empty(),
    };
    lemma_obj_put_put(es, key, x, y);
}

proof fn lemma_obj_put_put(es: Seq<(Seq<char>, Doc)>, key: Seq<char>, x: Doc, y: Doc)
    ensures
        obj_put(obj_put(es, key, x), key, y) =~= obj_put(es, key, y),
    decreases es.len(),
{
    if es.len() == 0 {
    } else if es[0].0 == key {
        assert((seq![(key, x)] + es.subrange(1, es.len() as int)).subrange(
            1,
            es.len() as int,
        ) =~= es.subrange(1, es.len() as int));
    } else {
        let rest = es.subrange(1, es.len() as int);
        lemma_obj_put_put(rest, key, x, y);
        assert((seq![es[0]] + obj_put(rest, key, x)).subrange(
            1,
            (seq![es[0]] + obj_put(rest, key, x)).len() as int,
        ) =~= obj_put(rest, key, x));
    }
}

} // verus!
