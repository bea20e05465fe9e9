//! The dot-delimited path algebra. A path names a node in the attribute
//! tree: a root reference terminated by `#`, followed by `.`-separated
//! attribute names. Stepping into a child appends `.` plus the child's
//! name; stepping out removes everything from the last `.` on, and leaves a
//! path without any `.` unchanged.

use crate::bytes::clone_bytes;
use crate::bytes::copy_range;
use vstd::prelude::*;

verus! {

/// The segment separator, `.` as a byte.
pub open spec fn dot() -> u8 {
    46u8
}

/// The root-reference terminator, `#` as a byte.
pub open spec fn hash_mark() -> u8 {
    35u8
}

/// Whether the path's last byte is the segment separator.
pub open spec fn ends_with_dot(p: Seq<u8>) -> bool {
    p.len() > 0 && p.last() == dot()
}

/// Whether the path contains the segment separator anywhere.
pub open spec fn has_dot(p: Seq<u8>) -> bool {
    exists|i: int| 0 <= i < p.len() && p[i] == dot()
}

/// Whether the path contains the root-reference terminator anywhere.
pub open spec fn has_hash_mark(p: Seq<u8>) -> bool {
    exists|i: int| 0 <= i < p.len() && p[i] == hash_mark()
}

/// Whether a child name is free of the segment separator.
pub open spec fn dot_free(name: Seq<u8>) -> bool {
    forall|i: int| 0 <= i < name.len() ==> name[i] != dot()
}

/// Whether a child name is free of the root-reference terminator.
pub open spec fn hash_free(name: Seq<u8>) -> bool {
    forall|i: int| 0 <= i < name.len() ==> name[i] != hash_mark()
}

/// Whether the path holds a child segment to strip: a `.` that lies after
/// the last root terminator `#`. A `.` inside the root reference itself —
/// before the `#` — is part of the root, not a segment.
pub open spec fn has_child_dot(p: Seq<u8>) -> bool {
    exists|i: int|
        0 <= i < p.len() && (#[trigger] p[i]) == dot() && (forall|k: int|
            i < k < p.len() ==> p[k] != hash_mark())
}

/// A well-formed path: non-empty, with no empty segment — it neither
/// starts nor ends with `.`, and never holds two adjacent `.`s.
pub open spec fn path_wf(p: Seq<u8>) -> bool {
    &&& p.len() > 0
    &&& p[0] != dot()
    &&& p.last() != dot()
    &&& forall|i: int| 0 < i < p.len() ==> !(p[i - 1] == dot() && #[trigger] p[i] == dot())
}

/// The path of a child: the parent path, the separator, then the name.
pub open spec fn child_path(p: Seq<u8>, name: Seq<u8>) -> Seq<u8> {
    p + seq![dot()] + name
}

/// The path with its last `.`-delimited segment removed, separator
/// included. Meaningful when the path contains a `.`; see `step_out_path`.
pub open spec fn strip_last_segment(p: Seq<u8>) -> Seq<u8>
    decreases p.len(),
{
    if p.len() == 0 {
        p
    } else if p.last() == dot() {
        p.drop_last()
    } else {
        strip_last_segment(p.drop_last())
    }
}

/// Where stepping out of a path leads: the path with its last segment
/// stripped, or the path itself when it has no segment to strip — that is,
/// no `.` after its last `#`. A root reference that itself contains `.`
/// (say `github:o/r.git#`) is already the root and stays unchanged.
pub open spec fn step_out_path(p: Seq<u8>) -> Seq<u8> {
    if has_child_dot(p) {
        strip_last_segment(p)
    } else {
        p
    }
}

/// When the separator at `j - 1` is the last one in the path, stripping the
/// last segment keeps exactly the bytes before it.
proof fn lemma_strip_last_segment_at(p: Seq<u8>, j: int)
    requires
        0 < j <= p.len(),
        p[j - 1] == dot(),
        forall|k: int| j <= k < p.len() ==> p[k] != dot(),
    ensures
        strip_last_segment(p) == p.take(j - 1),
    decreases p.len(),
{
    if j == p.len() {
        assert(p.drop_last() =~= p.take(j - 1));
    } else {
        lemma_strip_last_segment_at(p.drop_last(), j);
        assert(p.drop_last().take(j - 1) =~= p.take(j - 1));
    }
}

/// Law: stepping into a non-empty, separator-free child name preserves path
/// well-formedness; in particular the path never ends with `.` afterwards.
pub proof fn lemma_step_in_preserves_path_wf(p: Seq<u8>, name: Seq<u8>)
    requires
        path_wf(p),
        name.len() > 0,
        dot_free(name),
    ensures
        path_wf(child_path(p, name)),
{
    let q = child_path(p, name);
    assert(q.last() == name.last());
    assert(forall|i: int| 0 < i < q.len() ==> !(q[i - 1] == dot() && #[trigger] q[i] == dot()))
        by {
        assert forall|i: int| 0 < i < q.len() && #[trigger] q[i] == dot() implies q[i - 1]
            != dot() by {
            if i < p.len() {
                assert(q[i] == p[i]);
            } else {
                assert(i == p.len());
                assert(q[i - 1] == p[p.len() - 1]);
            }
        }
    }
}

/// Law: stepping out of a well-formed path yields a well-formed path; in
/// particular the path never ends with `.` afterwards.
pub proof fn lemma_step_out_preserves_path_wf(p: Seq<u8>)
    requires
        path_wf(p),
    ensures
        path_wf(step_out_path(p)),
{
    if has_child_dot(p) {
        let i0 = choose|i: int|
            0 <= i < p.len() && (#[trigger] p[i]) == dot() && (forall|k: int|
                i < k < p.len() ==> p[k] != hash_mark());
        assert(p[i0] == dot());
        assert(has_dot(p));
        let j = choose|j: int| 0 <= j < p.len() && p[j] == dot() && forall|k: int|
            j < k < p.len() ==> p[k] != dot();
        lemma_last_dot_exists(p);
        lemma_strip_last_segment_at(p, j + 1);
        let q = p.take(j);
        assert(p[0] != dot());
        assert(j > 0);
        assert(q.last() == p[j - 1]);
        assert(p[j] == dot() && p[j - 1] != dot());
    }
}

/// A path that contains a separator contains a last one.
proof fn lemma_last_dot_exists(p: Seq<u8>)
    requires
        has_dot(p),
    ensures
        exists|j: int|
            0 <= j < p.len() && p[j] == dot() && forall|k: int| j < k < p.len() ==> p[k] != dot(),
    decreases p.len(),
{
    if p.last() == dot() {
        let j = p.len() - 1;
        assert(0 <= j < p.len() && p[j] == dot() && forall|k: int|
            j < k < p.len() ==> p[k] != dot());
    } else {
        assert(has_dot(p.drop_last())) by {
            let i = choose|i: int| 0 <= i < p.len() && p[i] == dot();
            assert(p.drop_last()[i] == dot());
        }
        lemma_last_dot_exists(p.drop_last());
        let j = choose|j: int|
            0 <= j < p.drop_last().len() && p.drop_last()[j] == dot() && forall|k: int|
                j < k < p.drop_last().len() ==> p.drop_last()[k] != dot();
        assert(p[j] == dot());
        assert(forall|k: int| j < k < p.len() - 1 ==> p[k] == p.drop_last()[k]);
        assert(forall|k: int| j < k < p.len() ==> p[k] != dot());
    }
}

/// Law: stepping out undoes a step in — for a child name free of `.` and
/// `#`, stripping the last segment of the child path restores the parent.
pub proof fn lemma_step_out_undoes_step_in(p: Seq<u8>, name: Seq<u8>)
    requires
        dot_free(name),
        hash_free(name),
    ensures
        step_out_path(child_path(p, name)) == p,
{
    let q = child_path(p, name);
    assert(q[p.len() as int] == dot());
    assert(forall|k: int| p.len() + 1 <= k < q.len() ==> q[k] == name[k - p.len() - 1]);
    assert(has_child_dot(q)) by {
        assert(forall|k: int| p.len() < k < q.len() ==> q[k] != hash_mark());
    }
    lemma_strip_last_segment_at(q, p.len() as int + 1);
    assert(q.take(p.len() as int) =~= p);
}

/// Law: stepping out of a path with no segment to strip — no `.` after its
/// last `#` — leaves it unchanged.
pub proof fn lemma_step_out_at_root(p: Seq<u8>)
    requires
        !has_child_dot(p),
    ensures
        step_out_path(p) == p,
{
}

/// Appends `.` plus a child name to the path in place.
pub fn append_segment(path: &mut Vec<u8>, name: &Vec<u8>)
    ensures
        final(path)@ == child_path(old(path)@, name@),
{
    let ghost p0 = path@;
    path.push(46u8);
    let mut i: usize = 0;
    proof {
        assert(path@ =~= p0 + seq![dot()] + name@.take(0));
    }
    while i < name.len()
        invariant
            i <= name.len(),
            path@ == p0 + seq![dot()] + name@.take(i as int),
        decreases name.len() - i,
    {
        path.push(name[i]);
        i = i + 1;
        proof {
            assert(path@ =~= p0 + seq![dot()] + name@.take(i as int));
        }
    }
    proof {
        assert(p0 + seq![dot()] + name@.take(name@.len() as int) =~= child_path(p0, name@));
    }
}

/// The path of the child `name` under `path`, as a new vector.
pub fn child_path_of(path: &Vec<u8>, name: &Vec<u8>) -> (r: Vec<u8>)
    ensures
        r@ == child_path(path@, name@),
{
    let mut r = clone_bytes(path);
    append_segment(&mut r, name);
    r
}

/// Removes the last `.`-delimited segment from the path in place, the
/// separator included. Only a segment after the last `#` is a child
/// segment: a path whose every `.` lies inside the root reference — or
/// that has no `.` at all — stays unchanged.
pub fn remove_last_segment(path: &mut Vec<u8>)
    ensures
        final(path)@ == step_out_path(old(path)@),
{
    let mut j: usize = path.len();
    while j > 0 && path[j - 1] != 46u8 && path[j - 1] != 35u8
        invariant
            j <= path.len(),
            path@ == old(path)@,
            forall|k: int| j <= k < path@.len() ==> path@[k] != dot() && path@[k] != hash_mark(),
        decreases j,
    {
        j = j - 1;
    }
    if j > 0 && path[j - 1] == 46u8 {
        proof {
            assert(path@[j - 1] == dot());
            assert(has_child_dot(path@)) by {
                assert(forall|k: int| j - 1 < k < path@.len() ==> path@[k] != hash_mark());
            }
            lemma_strip_last_segment_at(path@, j as int);
        }
        path.truncate(j - 1);
    } else {
        proof {
            let p = path@;
            assert(!has_child_dot(p)) by {
                if has_child_dot(p) {
                    let i = choose|i: int|
                        0 <= i < p.len() && (#[trigger] p[i]) == dot() && (forall|k: int|
                            i < k < p.len() ==> p[k] != hash_mark());
                    assert(i < j);
                    if j > 0 {
                        assert(p[j - 1] == hash_mark());
                        assert(i < j - 1);
                    }
                }
            }
        }
    }
}

/// The error that aborts startup before any evaluator call is made.
#[derive(Clone, Copy, PartialEq, Eq, Structural, Debug)]
pub enum StartupError {
    /// The supplied root path ends with the query-suffix delimiter `.`.
    TrailingDot,
    /// The root path classified without a single child attribute.
    RootHasNoChildren,
}

/// Checks and completes a user-supplied root path: a path ending in `.` is
/// rejected; one without a `#` root terminator gets one appended.
pub fn prepare_root_path(arg: Vec<u8>) -> (r: Result<Vec<u8>, StartupError>)
    ensures
        ends_with_dot(arg@) ==> r == Result::<Vec<u8>, StartupError>::Err(
            StartupError::TrailingDot,
        ),
        !ends_with_dot(arg@) ==> match r {
            Ok(p) => p@ == if has_hash_mark(arg@) {
                arg@
            } else {
                arg@.push(hash_mark())
            },
            Err(_) => false,
        },
{
    if arg.len() > 0 && arg[arg.len() - 1] == 46u8 {
        return Err(StartupError::TrailingDot);
    }
    let mut i: usize = 0;
    let mut found = false;
    while i < arg.len()
        invariant
            i <= arg.len(),
            found <==> exists|k: int| 0 <= k < i && arg@[k] == hash_mark(),
        decreases arg.len() - i,
    {
        if arg[i] == 35u8 {
            found = true;
            proof {
                assert(arg@[i as int] == hash_mark());
            }
        }
        i = i + 1;
    }
    if found {
        Ok(arg)
    } else {
        proof {
            assert(!has_hash_mark(arg@));
        }
        let mut p = arg;
        p.push(35u8);
        Ok(p)
    }
}

/// Everything after the last `#` in the path, as a spec value; the whole
/// path when it holds no `#`.
pub open spec fn title_of(p: Seq<u8>) -> Seq<u8>
    decreases p.len(),
{
    if p.len() == 0 {
        Seq::<u8>::empty()
    } else if p.last() == hash_mark() {
        Seq::<u8>::empty()
    } else {
        title_of(p.drop_last()).push(p.last())
    }
}

/// When the `#` at `h` is the last one, the title is what follows it.
proof fn lemma_title_after_last_hash(p: Seq<u8>, h: int)
    requires
        0 <= h < p.len(),
        p[h] == hash_mark(),
        forall|k: int| h < k < p.len() ==> p[k] != hash_mark(),
    ensures
        title_of(p) == p.skip(h + 1),
    decreases p.len(),
{
    if h == p.len() - 1 {
        assert(p.skip(h + 1) =~= Seq::<u8>::empty());
    } else {
        assert(p.last() != hash_mark());
        lemma_title_after_last_hash(p.drop_last(), h);
        assert(p.drop_last().skip(h + 1) =~= p.skip(h + 1).drop_last());
        assert(p.skip(h + 1).drop_last().push(p.last()) =~= p.skip(h + 1));
    }
}

/// Without any `#` the title is the path itself.
proof fn lemma_title_without_hash(p: Seq<u8>)
    requires
        forall|k: int| 0 <= k < p.len() ==> p[k] != hash_mark(),
    ensures
        title_of(p) == p,
    decreases p.len(),
{
    if p.len() > 0 {
        lemma_title_without_hash(p.drop_last());
        assert(p.drop_last().push(p.last()) =~= p);
    }
}

/// The pane title for a path: everything up to and including the last root
/// terminator `#` is stripped.
pub fn display_title(path: &Vec<u8>) -> (r: Vec<u8>)
    ensures
        r@ == title_of(path@),
{
    let mut j: usize = path.len();
    while j > 0 && path[j - 1] != 35u8
        invariant
            j <= path.len(),
            forall|k: int| j <= k < path@.len() ==> path@[k] != hash_mark(),
        decreases j,
    {
        j = j - 1;
    }
    if j == 0 {
        proof {
            lemma_title_without_hash(path@);
        }
        clone_bytes(path)
    } else {
        proof {
            lemma_title_after_last_hash(path@, j - 1);
        }
        let r = copy_range(path, j, path.len());
        proof {
            assert(path@.subrange(j as int, path@.len() as int) =~= path@.skip(j as int));
        }
        r
    }
}

} // verus!
