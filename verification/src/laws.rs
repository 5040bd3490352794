//! The transaction laws: what a batch of writes followed by a commit or a
//! rollback guarantees, proved once and for all over the spec-level tree
//! operations that the contracts of [`crate::message::Message`] speak of.

use vstd::prelude::*;

use crate::doc::child_of;
use crate::doc::get_at;
use crate::doc::lemma_child_of_put;
use crate::doc::lemma_put_put;
use crate::doc::put_child;
use crate::doc::restore_at;
use crate::doc::undo_all;
use crate::doc::undo_tree;
use crate::doc::undo_tree_at;
use crate::doc::write_at;
use crate::doc::Doc;
use crate::doc::UndoView;

verus! {

/// Every node along `path[i..]`, short of the final segment, is an object.
spec fn objs_along(d: Doc, path: Seq<Seq<char>>, i: int) -> bool
    decreases path.len() - i,
{
    if i >= path.len() - 1 {
        true
    } else {
        child_of(d, path[i]) is Obj && objs_along(child_of(d, path[i]), path, i + 1)
    }
}

/// Writing always yields an object node.
proof fn lemma_write_is_obj(d: Doc, path: Seq<Seq<char>>, i: int, v: Doc)
    requires
        1 <= i <= path.len() - 1,
    ensures
        write_at(d, path, i, v).0 is Obj,
{
}

/// Restoring always yields an object node.
proof fn lemma_restore_is_obj(d: Doc, path: Seq<Seq<char>>, i: int, prev: Doc)
    ensures
        restore_at(d, path, i, prev) is Obj,
{
}

/// After a write, every node along the path is an object.
proof fn lemma_write_objs_along(d: Doc, path: Seq<Seq<char>>, i: int, v: Doc)
    requires
        1 <= i <= path.len() - 1,
    ensures
        objs_along(write_at(d, path, i, v).0, path, i),
    decreases path.len() - i,
{
    if i < path.len() - 1 {
        let c = child_of(d, path[i]);
        if c is Obj {
            lemma_write_objs_along(c, path, i + 1, v);
            lemma_write_is_obj(c, path, i + 1, v);
            lemma_child_of_put(d, path[i], write_at(c, path, i + 1, v).0);
        } else {
            lemma_write_objs_along(Doc::Obj(Seq::empty()), path, i + 1, v);
            lemma_write_is_obj(Doc::Obj(Seq::empty()), path, i + 1, v);
            lemma_child_of_put(d, path[i], write_at(Doc::Obj(Seq::empty()), path, i + 1, v).0);
        }
    }
}

/// The undo entries of a write are prefixes of its path, from just below the
/// write's starting depth down to the full path, and there is at least one.
proof fn lemma_write_log_shape(d: Doc, path: Seq<Seq<char>>, i: int, v: Doc)
    requires
        1 <= i <= path.len() - 1,
    ensures
        write_at(d, path, i, v).1.len() >= 1,
        forall|j: int|
            0 <= j < write_at(d, path, i, v).1.len() ==> {
                let e = #[trigger] write_at(d, path, i, v).1[j];
                &&& i + 1 <= e.0.len() <= path.len()
                &&& e.0 == path.take(e.0.len() as int)
            },
    decreases path.len() - i,
{
    assert(path.take(path.len() as int) =~= path);
    if i < path.len() - 1 {
        let c = child_of(d, path[i]);
        if c is Obj {
            lemma_write_log_shape(c, path, i + 1, v);
        } else {
            lemma_write_log_shape(Doc::Obj(Seq::empty()), path, i + 1, v);
        }
    }
}

/// Replaying a concatenation replays the right part first.
proof fn lemma_undo_concat(d: Doc, a: Seq<UndoView>, b: Seq<UndoView>, i: int)
    ensures
        undo_tree_at(d, a + b, i) == undo_tree_at(undo_tree_at(d, b, i), a, i),
    decreases b.len(),
{
    if b.len() == 0 {
        assert(a + b =~= a);
    } else {
        assert((a + b).last() == b.last());
        assert((a + b).drop_last() =~= a + b.drop_last());
        lemma_undo_concat(restore_at(d, b.last().0, i, b.last().1), a, b.drop_last(), i);
    }
}

/// Replaying entries that all lie strictly below one object child distributes
/// into that child.
proof fn lemma_undo_distributes(t: Doc, k: Seq<char>, log: Seq<UndoView>, i: int)
    requires
        child_of(t, k) is Obj,
        log.len() >= 1,
        forall|j: int|
            0 <= j < log.len() ==> (#[trigger] log[j]).0.len() > i + 1 && log[j].0[i] == k,
    ensures
        undo_tree_at(t, log, i) == put_child(t, k, undo_tree_at(child_of(t, k), log, i + 1)),
    decreases log.len(),
{
    let e = log.last();
    let ct = child_of(t, k);
    let ct1 = restore_at(ct, e.0, i + 1, e.1);
    assert(restore_at(t, e.0, i, e.1) == put_child(t, k, ct1));
    lemma_restore_is_obj(ct, e.0, i + 1, e.1);
    lemma_child_of_put(t, k, ct1);
    if log.len() == 1 {
    } else {
        lemma_undo_distributes(put_child(t, k, ct1), k, log.drop_last(), i);
        lemma_put_put(t, k, ct1, undo_tree_at(ct1, log.drop_last(), i + 1));
    }
}

/// The undo entries of one write, replayed against any tree whose path
/// intermediates are objects, put back at the path the value the written tree
/// held there.
proof fn lemma_undo_write(d: Doc, t: Doc, path: Seq<Seq<char>>, i: int, v: Doc)
    requires
        1 <= i <= path.len() - 1,
        objs_along(t, path, i),
    ensures
        get_at(undo_tree_at(t, write_at(d, path, i, v).1, i), path, i) == get_at(d, path, i),
    decreases path.len() - i,
{
    let k = path[i];
    let c = child_of(d, k);
    if i == path.len() - 1 {
        let log = write_at(d, path, i, v).1;
        assert(log =~= seq![(path, c)]);
        assert(log.drop_last() =~= Seq::<UndoView>::empty());
        let t1 = restore_at(t, path, i, c);
        assert(undo_tree_at(t, log, i) == undo_tree_at(t1, log.drop_last(), i));
        assert(undo_tree_at(t1, log.drop_last(), i) == t1);
        assert(t1 == put_child(t, k, c));
        lemma_child_of_put(t, k, c);
        assert(get_at(t1, path, i) == get_at(c, path, i + 1));
        assert(get_at(d, path, i) == get_at(c, path, i + 1));
    } else {
        if c is Obj {
            let log = write_at(c, path, i + 1, v).1;
            lemma_write_log_shape(c, path, i + 1, v);
            assert(forall|j: int|
                0 <= j < log.len() ==> (#[trigger] log[j]).0.len() > i + 1 && log[j].0[i] == k)
                by {
                assert forall|j: int| 0 <= j < log.len() implies (#[trigger] log[j]).0.len() > i
                    + 1 && log[j].0[i] == k by {
                    assert(log[j].0 == path.take(log[j].0.len() as int));
                    assert(path.take(log[j].0.len() as int)[i] == path[i]);
                }
            }
            let ct = child_of(t, k);
            lemma_undo_distributes(t, k, log, i);
            lemma_child_of_put(t, k, undo_tree_at(ct, log, i + 1));
            lemma_undo_write(c, ct, path, i + 1, v);
            assert(get_at(undo_tree_at(t, log, i), path, i) == get_at(
                undo_tree_at(ct, log, i + 1),
                path,
                i + 1,
            ));
            assert(get_at(d, path, i) == get_at(c, path, i + 1));
        } else {
            let inner = write_at(Doc::Obj(Seq::empty()), path, i + 1, v).1;
            let viv: UndoView = (path.take(i + 1), c);
            assert(write_at(d, path, i, v).1 =~= seq![viv] + inner);
            lemma_undo_concat(t, seq![viv], inner, i);
            let x = undo_tree_at(t, inner, i);
            assert(viv.0.len() == i + 1);
            assert(viv.0[i] == k);
            let x1 = restore_at(x, viv.0, i, c);
            assert(seq![viv].drop_last() =~= Seq::<UndoView>::empty());
            assert(undo_tree_at(x, seq![viv], i) == undo_tree_at(x1, seq![viv].drop_last(), i));
            assert(undo_tree_at(x1, seq![viv].drop_last(), i) == x1);
            assert(x1 == put_child(x, k, c));
            lemma_child_of_put(x, k, c);
            assert(get_at(x1, path, i) == get_at(c, path, i + 1));
            assert(get_at(d, path, i) == get_at(c, path, i + 1));
        }
    }
}

/// After a restore along the written path, the path intermediates are still
/// objects.
proof fn lemma_restore_objs_along(d: Doc, path: Seq<Seq<char>>, i: int, prev: Doc)
    requires
        1 <= i <= path.len() - 1,
        objs_along(d, path, i),
    ensures
        objs_along(restore_at(d, path, i, prev), path, i),
    decreases path.len() - i,
{
    if i < path.len() - 1 {
        let c = child_of(d, path[i]);
        lemma_restore_objs_along(c, path, i + 1, prev);
        lemma_restore_is_obj(c, path, i + 1, prev);
        lemma_child_of_put(d, path[i], restore_at(c, path, i + 1, prev));
    }
}

/// A write whose path intermediates are already objects logs exactly one
/// entry: the full path and the value it held.
proof fn lemma_write_log_single(d: Doc, path: Seq<Seq<char>>, i: int, v: Doc)
    requires
        1 <= i <= path.len() - 1,
        objs_along(d, path, i),
    ensures
        write_at(d, path, i, v).1 =~= seq![(path, get_at(d, path, i))],
    decreases path.len() - i,
{
    if i == path.len() - 1 {
        assert(get_at(d, path, i) == get_at(child_of(d, path[i]), path, i + 1));
    } else {
        lemma_write_log_single(child_of(d, path[i]), path, i + 1, v);
    }
}

/// Replaying entries that all target the `data` root touches only `data`.
proof fn lemma_undo_all_data(data: Doc, meta: Doc, log: Seq<UndoView>)
    requires
        forall|j: int|
            0 <= j < log.len() ==> (#[trigger] log[j]).0.len() >= 2 && log[j].0[0] == "data"@,
    ensures
        undo_all(data, meta, log) == (undo_tree(data, log), meta),
    decreases log.len(),
{
    if log.len() > 0 {
        lemma_undo_all_data(
            restore_at(data, log.last().0, 1, log.last().1),
            meta,
            log.drop_last(),
        );
    }
}

/// Replaying entries that all target the `metadata` root touches only
/// `metadata`.
proof fn lemma_undo_all_metadata(data: Doc, meta: Doc, log: Seq<UndoView>)
    requires
        forall|j: int|
            0 <= j < log.len() ==> (#[trigger] log[j]).0.len() >= 2 && log[j].0[0] == "metadata"@,
    ensures
        undo_all(data, meta, log) == (data, undo_tree(meta, log)),
    decreases log.len(),
{
    reveal_strlit("data");
    reveal_strlit("metadata");
    assert("data"@.len() == 4);
    assert("metadata"@.len() == 8);
    if log.len() > 0 {
        lemma_undo_all_metadata(
            data,
            restore_at(meta, log.last().0, 1, log.last().1),
            log.drop_last(),
        );
    }
}

/// Undo law: inside a transaction, a single write to a valid field path,
/// rolled back, restores the value at that path to what it was before the
/// write, and leaves the other root untouched.
pub proof fn lemma_update_then_rollback(data: Doc, meta: Doc, path: Seq<Seq<char>>, v: Doc)
    requires
        2 <= path.len(),
        path[0] == "data"@ || path[0] == "metadata"@,
    ensures
        ({
            let root0 = if path[0] == "data"@ {
                data
            } else {
                meta
            };
            let w = write_at(root0, path, 1, v);
            let after = if path[0] == "data"@ {
                undo_all(w.0, meta, w.1)
            } else {
                undo_all(data, w.0, w.1)
            };
            &&& get_at(
                if path[0] == "data"@ {
                    after.0
                } else {
                    after.1
                },
                path,
                1,
            ) == get_at(root0, path, 1)
            &&& (if path[0] == "data"@ {
                after.1 == meta
            } else {
                after.0 == data
            })
        }),
{
    let root0 = if path[0] == "data"@ {
        data
    } else {
        meta
    };
    let w = write_at(root0, path, 1, v);
    lemma_write_log_shape(root0, path, 1, v);
    assert(forall|j: int|
        0 <= j < w.1.len() ==> (#[trigger] w.1[j]).0.len() >= 2 && w.1[j].0[0] == path[0]) by {
        assert forall|j: int|
            0 <= j < w.1.len() implies (#[trigger] w.1[j]).0.len() >= 2 && w.1[j].0[0]
            == path[0] by {
            assert(w.1[j].0 == path.take(w.1[j].0.len() as int));
            assert(path.take(w.1[j].0.len() as int)[0] == path[0]);
        }
    }
    if path[0] == "data"@ {
        lemma_undo_all_data(w.0, meta, w.1);
    } else {
        lemma_undo_all_metadata(data, w.0, w.1);
    }
    lemma_write_objs_along(root0, path, 1, v);
    lemma_undo_write(root0, w.0, path, 1, v);
}

/// Commit law: after a write, the value read back at the written path is
/// exactly the value written. Committing discards the log and does not touch
/// the trees, so the value still stands after the commit.
pub proof fn lemma_update_then_commit(d: Doc, path: Seq<Seq<char>>, v: Doc)
    requires
        2 <= path.len(),
    ensures
        get_at(write_at(d, path, 1, v).0, path, 1) == v,
{
    lemma_get_after_write(d, path, 1, v);
}

proof fn lemma_get_after_write(d: Doc, path: Seq<Seq<char>>, i: int, v: Doc)
    requires
        1 <= i <= path.len() - 1,
    ensures
        get_at(write_at(d, path, i, v).0, path, i) == v,
    decreases path.len() - i,
{
    let k = path[i];
    let c = child_of(d, k);
    if i == path.len() - 1 {
        lemma_child_of_put(d, k, v);
        assert(write_at(d, path, i, v).0 == put_child(d, k, v));
        assert(get_at(put_child(d, k, v), path, i) == get_at(v, path, i + 1));
        assert(get_at(v, path, i + 1) == v);
    } else if c is Obj {
        lemma_get_after_write(c, path, i + 1, v);
        let c2 = write_at(c, path, i + 1, v).0;
        lemma_child_of_put(d, k, c2);
        assert(get_at(put_child(d, k, c2), path, i) == get_at(c2, path, i + 1));
    } else {
        lemma_get_after_write(Doc::Obj(Seq::empty()), path, i + 1, v);
        let c2 = write_at(Doc::Obj(Seq::empty()), path, i + 1, v).0;
        lemma_child_of_put(d, k, c2);
        assert(get_at(put_child(d, k, c2), path, i) == get_at(c2, path, i + 1));
    }
}

/// All-or-nothing law: two sequential writes to the same path inside one
/// transaction, rolled back, restore the value from before the first write,
/// not an intermediate one.
pub proof fn lemma_double_update_then_rollback(d: Doc, path: Seq<Seq<char>>, v1: Doc, v2: Doc)
    requires
        2 <= path.len(),
    ensures
        ({
            let w1 = write_at(d, path, 1, v1);
            let w2 = write_at(w1.0, path, 1, v2);
            get_at(undo_tree(w2.0, w1.1 + w2.1), path, 1) == get_at(d, path, 1)
        }),
{
    let w1 = write_at(d, path, 1, v1);
    let w2 = write_at(w1.0, path, 1, v2);
    lemma_write_objs_along(d, path, 1, v1);
    lemma_write_log_single(w1.0, path, 1, v2);
    lemma_get_after_write(d, path, 1, v1);
    lemma_undo_concat(w2.0, w1.1, w2.1, 1);
    let t = restore_at(w2.0, path, 1, v1);
    assert(undo_tree_at(w2.0, w2.1, 1) == t) by {
        assert(w2.1 =~= seq![(path, v1)]);
        assert(w2.1.last() == (path, v1));
        assert(w2.1.drop_last() =~= Seq::<UndoView>::empty());
        assert(undo_tree_at(w2.0, w2.1, 1) == undo_tree_at(t, w2.1.drop_last(), 1));
        assert(undo_tree_at(t, w2.1.drop_last(), 1) == t);
    }
    lemma_write_objs_along(w1.0, path, 1, v2);
    lemma_restore_objs_along(w2.0, path, 1, v1);
    lemma_undo_write(d, t, path, 1, v1);
}

} // verus!


