//! Classification of evaluator output. A completion query against a path
//! in query form (ending in `.` or `#`) yields newline-separated lines;
//! each line is reduced to a bare child name by stripping the query-path
//! prefix, any name equal to the completion marker `attrs` is discarded,
//! and the path is classified `Internal` when names remain, `Leaf` when
//! none do.

use crate::bytes::clone_bytes;
use crate::bytes::copy_range;
use crate::bytes::view_of_vecs;
use crate::path::dot;
use crate::path::dot_free;
use crate::path::hash_mark;
use vstd::prelude::*;

verus! {

/// The line feed byte.
pub open spec fn nl() -> u8 {
    10u8
}

/// The carriage return byte.
pub open spec fn cr() -> u8 {
    13u8
}

/// The completion marker the evaluator emits for the container itself:
/// `attrs` as bytes.
pub open spec fn attrs_marker() -> Seq<u8> {
    seq![97u8, 116u8, 116u8, 114u8, 115u8]
}

/// The index of the first line feed in `s`, or `s.len()` when there is
/// none.
pub open spec fn first_nl(s: Seq<u8>) -> int
    decreases s.len(),
{
    if s.len() == 0 {
        0
    } else if s[0] == nl() {
        0
    } else {
        1 + first_nl(s.skip(1))
    }
}

/// `first_nl` points at the first line feed: nothing before it is one, and
/// it is one itself unless it is the length.
proof fn lemma_first_nl(s: Seq<u8>)
    ensures
        0 <= first_nl(s) <= s.len(),
        first_nl(s) < s.len() ==> s[first_nl(s)] == nl(),
        forall|k: int| 0 <= k < first_nl(s) ==> s[k] != nl(),
    decreases s.len(),
{
    if s.len() > 0 && s[0] != nl() {
        lemma_first_nl(s.skip(1));
        assert forall|k: int| 0 <= k < first_nl(s) implies s[k] != nl() by {
            if k > 0 {
                assert(s.skip(1)[k - 1] != nl());
            }
        }
    }
}

/// An index below which no byte is a line feed, and which is a line feed
/// itself or the length, is `first_nl`.
proof fn lemma_first_nl_is(s: Seq<u8>, j: int)
    requires
        0 <= j <= s.len(),
        j < s.len() ==> s[j] == nl(),
        forall|k: int| 0 <= k < j ==> s[k] != nl(),
    ensures
        first_nl(s) == j,
{
    lemma_first_nl(s);
    if first_nl(s) < j {
        assert(s[first_nl(s)] != nl());
    }
    if j < first_nl(s) {
        assert(s[j] != nl());
    }
}

/// A line segment with one trailing carriage return removed, as the `\r\n`
/// line ending asks.
pub open spec fn strip_cr(line: Seq<u8>) -> Seq<u8> {
    if line.len() > 0 && line.last() == cr() {
        line.drop_last()
    } else {
        line
    }
}

/// `first_nl`, stated with the bound the recursion in `split_lines_spec`
/// needs for termination.
pub open spec fn first_nl_clipped(s: Seq<u8>) -> int {
    if 0 <= first_nl(s) <= s.len() {
        first_nl(s)
    } else {
        s.len() as int
    }
}

/// The lines of `s`: segments split at `\n`, each stripped of one carriage
/// return before the `\n`, with no final empty line after a trailing `\n`.
pub open spec fn split_lines_spec(s: Seq<u8>) -> Seq<Seq<u8>>
    decreases s.len(),
{
    if s.len() == 0 {
        Seq::<Seq<u8>>::empty()
    } else {
        let i = first_nl_clipped(s);
        if i == s.len() {
            seq![s]
        } else {
            seq![strip_cr(s.take(i))] + split_lines_spec(s.skip(i + 1))
        }
    }
}

/// Splits evaluator output into its lines.
pub fn split_lines(out: &Vec<u8>) -> (r: Vec<Vec<u8>>)
    ensures
        view_of_vecs(r@) == split_lines_spec(out@),
{
    let mut lines: Vec<Vec<u8>> = Vec::new();
    let mut pos: usize = 0;
    proof {
        assert(out@.skip(0) =~= out@);
        assert(view_of_vecs(lines@) + split_lines_spec(out@) =~= split_lines_spec(out@));
    }
    while pos < out.len()
        invariant
            pos <= out.len(),
            split_lines_spec(out@) == view_of_vecs(lines@) + split_lines_spec(
                out@.skip(pos as int),
            ),
        decreases out.len() - pos,
    {
        let ghost rest = out@.skip(pos as int);
        let ghost before = lines@;
        let mut j: usize = pos;
        while j < out.len() && out[j] != 10u8
            invariant
                pos <= j <= out.len(),
                forall|k: int| pos <= k < j ==> out@[k] != nl(),
            decreases out.len() - j,
        {
            j = j + 1;
        }
        proof {
            assert forall|k: int| 0 <= k < j - pos implies rest[k] != nl() by {
                assert(rest[k] == out@[pos + k]);
            }
            if j < out.len() {
                assert(rest[j - pos] == out@[j as int]);
            }
            lemma_first_nl_is(rest, j - pos);
            assert(first_nl_clipped(rest) == j - pos);
        }
        let mut seg = copy_range(out, pos, j);
        proof {
            assert(seg@ =~= rest.take(j - pos));
        }
        if j < out.len() {
            if seg.len() > 0 && seg[seg.len() - 1] == 13u8 {
                seg.pop();
                proof {
                    assert(seg@ =~= strip_cr(rest.take(j - pos)));
                }
            }
            lines.push(seg);
            proof {
                assert(view_of_vecs(lines@) =~= view_of_vecs(before).push(
                    strip_cr(rest.take(j - pos)),
                ));
                assert(rest.skip(j - pos + 1) =~= out@.skip(j + 1));
                assert(split_lines_spec(rest) == seq![strip_cr(rest.take(j - pos))]
                    + split_lines_spec(out@.skip(j + 1)));
                assert(view_of_vecs(lines@) + split_lines_spec(out@.skip(j + 1)) =~= view_of_vecs(
                    before,
                ) + split_lines_spec(rest));
            }
            pos = j + 1;
        } else {
            proof {
                assert(rest.take(j - pos) =~= rest);
                assert(split_lines_spec(rest) == seq![rest]);
            }
            lines.push(seg);
            proof {
                assert(view_of_vecs(lines@) =~= view_of_vecs(before).push(rest));
                assert(out@.skip(j as int) =~= Seq::<u8>::empty());
                assert(view_of_vecs(lines@) + split_lines_spec(out@.skip(j as int)) =~= view_of_vecs(
                    before,
                ) + split_lines_spec(rest));
            }
            pos = j;
        }
    }
    proof {
        assert(out@.skip(pos as int) =~= Seq::<u8>::empty());
        assert(view_of_vecs(lines@) + split_lines_spec(Seq::<u8>::empty()) =~= view_of_vecs(
            lines@,
        ));
    }
    lines
}

/// Whether `s` begins with `prefix`.
pub open spec fn starts_with(s: Seq<u8>, prefix: Seq<u8>) -> bool {
    prefix.len() <= s.len() && s.take(prefix.len() as int) == prefix
}

/// The bare child name a raw output line stands for: the line with the
/// query-path prefix removed, or the line itself when the prefix is absent.
pub open spec fn bare_name(query: Seq<u8>, line: Seq<u8>) -> Seq<u8> {
    if starts_with(line, query) {
        line.skip(query.len() as int)
    } else {
        line
    }
}

/// Removes the query-path prefix from one raw output line.
pub fn strip_query_prefix(query: &Vec<u8>, line: &Vec<u8>) -> (r: Vec<u8>)
    ensures
        r@ == bare_name(query@, line@),
{
    if query.len() > line.len() {
        return clone_bytes(line);
    }
    let mut i: usize = 0;
    while i < query.len()
        invariant
            i <= query.len() <= line.len(),
            forall|k: int| 0 <= k < i ==> line@[k] == query@[k],
        decreases query.len() - i,
    {
        if line[i] != query[i] {
            proof {
                assert(line@.take(query@.len() as int)[i as int] != query@[i as int]);
            }
            return clone_bytes(line);
        }
        i = i + 1;
    }
    proof {
        assert(line@.take(query@.len() as int) =~= query@);
    }
    copy_range(line, query.len(), line.len())
}

/// Whether a name equals the completion marker `attrs`.
pub fn is_attrs_marker(name: &Vec<u8>) -> (r: bool)
    ensures
        r == (name@ == attrs_marker()),
{
    let r = name.len() == 5 && name[0] == 97u8 && name[1] == 116u8 && name[2] == 116u8 && name[3]
        == 114u8 && name[4] == 115u8;
    proof {
        if r {
            assert(name@ =~= attrs_marker());
        }
    }
    r
}

/// The filtering rule: a bare name is emitted only when it is non-empty,
/// is not the completion marker, and holds no `.` — a dotted or empty name
/// is never a direct child and would corrupt the path it is appended to.
pub open spec fn keeps_name(name: Seq<u8>) -> bool {
    &&& name.len() > 0
    &&& name != attrs_marker()
    &&& dot_free(name)
}

/// Whether the filtering rule emits this bare name.
pub fn is_kept_name(name: &Vec<u8>) -> (r: bool)
    ensures
        r == keeps_name(name@),
{
    if name.len() == 0 {
        return false;
    }
    if is_attrs_marker(name) {
        return false;
    }
    let mut i: usize = 0;
    while i < name.len()
        invariant
            i <= name.len(),
            forall|k: int| 0 <= k < i ==> name@[k] != dot(),
        decreases name.len() - i,
    {
        if name[i] == 46u8 {
            proof {
                assert(name@[i as int] == dot());
            }
            return false;
        }
        i = i + 1;
    }
    true
}

/// The child names a query's raw output lines stand for: each line reduced
/// to a bare name, with every name the filtering rule refuses discarded
/// and the order of the rest preserved.
pub open spec fn child_names(query: Seq<u8>, lines: Seq<Seq<u8>>) -> Seq<Seq<u8>>
    decreases lines.len(),
{
    if lines.len() == 0 {
        Seq::<Seq<u8>>::empty()
    } else {
        let name = bare_name(query, lines[0]);
        let rest = child_names(query, lines.skip(1));
        if keeps_name(name) {
            seq![name] + rest
        } else {
            rest
        }
    }
}

/// Every emitted child name satisfies the filtering rule.
pub proof fn lemma_child_names_all_kept(query: Seq<u8>, lines: Seq<Seq<u8>>)
    ensures
        forall|k: int|
            0 <= k < child_names(query, lines).len() ==> keeps_name(
                #[trigger] child_names(query, lines)[k],
            ),
    decreases lines.len(),
{
    if lines.len() > 0 {
        lemma_child_names_all_kept(query, lines.skip(1));
        let name = bare_name(query, lines[0]);
        let rest = child_names(query, lines.skip(1));
        if keeps_name(name) {
            assert forall|k: int| 0 <= k < child_names(query, lines).len() implies keeps_name(
                #[trigger] child_names(query, lines)[k],
            ) by {
                if k == 0 {
                    assert(child_names(query, lines)[0] == name);
                } else {
                    assert(child_names(query, lines)[k] == rest[k - 1]);
                }
            }
        }
    }
}

/// Reduces raw output lines to the bare child names they stand for.
pub fn filter_child_names(query: &Vec<u8>, lines: &Vec<Vec<u8>>) -> (r: Vec<Vec<u8>>)
    ensures
        view_of_vecs(r@) == child_names(query@, view_of_vecs(lines@)),
        forall|k: int| 0 <= k < r@.len() ==> keeps_name(#[trigger] r@[k]@),
{
    let mut names: Vec<Vec<u8>> = Vec::new();
    let mut i: usize = 0;
    proof {
        assert(view_of_vecs(lines@).skip(0) =~= view_of_vecs(lines@));
        assert(view_of_vecs(names@) + child_names(query@, view_of_vecs(lines@)) =~= child_names(
            query@,
            view_of_vecs(lines@),
        ));
    }
    while i < lines.len()
        invariant
            i <= lines.len(),
            child_names(query@, view_of_vecs(lines@)) == view_of_vecs(names@) + child_names(
                query@,
                view_of_vecs(lines@).skip(i as int),
            ),
        decreases lines.len() - i,
    {
        let ghost rest = view_of_vecs(lines@).skip(i as int);
        let ghost before = names@;
        proof {
            assert(rest[0] == lines@[i as int]@);
            assert(rest.skip(1) =~= view_of_vecs(lines@).skip(i + 1));
        }
        let name = strip_query_prefix(query, &lines[i]);
        if !is_kept_name(&name) {
            proof {
                assert(child_names(query@, rest) == child_names(
                    query@,
                    view_of_vecs(lines@).skip(i + 1),
                ));
            }
        } else {
            names.push(name);
            proof {
                assert(view_of_vecs(names@) =~= view_of_vecs(before).push(
                    bare_name(query@, rest[0]),
                ));
                assert(child_names(query@, rest) == seq![bare_name(query@, rest[0])] + child_names(
                    query@,
                    view_of_vecs(lines@).skip(i + 1),
                ));
                assert(view_of_vecs(names@) + child_names(query@, view_of_vecs(lines@).skip(i + 1))
                    =~= view_of_vecs(before) + child_names(query@, rest));
            }
        }
        i = i + 1;
    }
    proof {
        assert(view_of_vecs(lines@).skip(lines@.len() as int) =~= Seq::<Seq<u8>>::empty());
        assert(view_of_vecs(names@) + Seq::<Seq<u8>>::empty() =~= view_of_vecs(names@));
        lemma_child_names_all_kept(query@, view_of_vecs(lines@));
        assert forall|k: int| 0 <= k < names@.len() implies keeps_name(#[trigger] names@[k]@) by {
            assert(view_of_vecs(names@)[k] == names@[k]@);
        }
    }
    names
}

/// The query form of a path for a completion request: the path itself when
/// it already ends in `.` or `#`, otherwise with `.` appended.
pub open spec fn completion_query(p: Seq<u8>) -> Seq<u8> {
    if p.len() > 0 && (p.last() == dot() || p.last() == hash_mark()) {
        p
    } else {
        p.push(dot())
    }
}

/// Puts a path into query form for a completion request.
pub fn completion_query_path(path: &Vec<u8>) -> (r: Vec<u8>)
    ensures
        r@ == completion_query(path@),
{
    let mut r = clone_bytes(path);
    let n = r.len();
    if n == 0 || (r[n - 1] != 46u8 && r[n - 1] != 35u8) {
        r.push(46u8);
    }
    r
}

/// What querying a path reports: an ordered, non-empty list of child
/// attribute names, or no children at all.
#[derive(Debug, Clone, PartialEq, Eq)]
pub enum Classification {
    Internal(Vec<Vec<u8>>),
    Leaf,
}

/// Classifies the raw output of a completion query: `Internal` with the
/// bare child names when any remain after filtering, `Leaf` otherwise.
pub fn classify_output(query: &Vec<u8>, stdout: &Vec<u8>) -> (c: Classification)
    ensures
        ({
            let names = child_names(query@, split_lines_spec(stdout@));
            match c {
                Classification::Internal(v) => view_of_vecs(v@) == names && names.len() > 0 && (
                forall|k: int| 0 <= k < v@.len() ==> keeps_name(#[trigger] v@[k]@)),
                Classification::Leaf => names.len() == 0,
            }
        }),
{
    let lines = split_lines(stdout);
    let names = filter_child_names(query, &lines);
    if names.len() == 0 {
        Classification::Leaf
    } else {
        Classification::Internal(names)
    }
}

/// The displayable text for a failed evaluation: `Error: ` followed by the
/// evaluator's own words.
pub open spec fn error_text_spec(stderr: Seq<u8>) -> Seq<u8> {
    seq![69u8, 114u8, 114u8, 111u8, 114u8, 58u8, 32u8] + stderr
}

/// Formats evaluator stderr for the preview pane.
pub fn error_text(stderr: &Vec<u8>) -> (r: Vec<u8>)
    ensures
        r@ == error_text_spec(stderr@),
{
    let mut r: Vec<u8> = Vec::new();
    r.push(69u8);
    r.push(114u8);
    r.push(114u8);
    r.push(111u8);
    r.push(114u8);
    r.push(58u8);
    r.push(32u8);
    let mut i: usize = 0;
    proof {
        assert(r@ =~= error_text_spec(stderr@.take(0)));
    }
    while i < stderr.len()
        invariant
            i <= stderr.len(),
            r@ == error_text_spec(stderr@.take(i as int)),
        decreases stderr.len() - i,
    {
        r.push(stderr[i]);
        i = i + 1;
        proof {
            assert(r@ =~= error_text_spec(stderr@.take(i as int)));
        }
    }
    proof {
        assert(stderr@.take(stderr@.len() as int) =~= stderr@);
    }
    r
}

} // verus!
