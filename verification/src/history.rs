//! The launch-history store: a bounded, most-recent-first list of entry
//! identifiers, kept as one identifier per line in a plain-text file. This
//! module holds the pure part: decoding file contents into a bounded list,
//! building the updated list after a launch, and encoding it back. Reading
//! and writing the file itself is the caller's concern; a failure there must
//! never block a launch, so the caller logs and drops it.

use vstd::multiset::Multiset;
use vstd::prelude::*;

use crate::seqs::{lemma_filter_all, lemma_filter_membership, lemma_filter_push};
use crate::text::{byte_views, clone_bytes, eq_bytes, sub_bytes};

verus! {

/// Index of the first line feed in `s`, or `s.len()` if there is none.
pub open spec fn line_end(s: Seq<u8>) -> int
    decreases s.len(),
{
    if s.len() == 0 {
        0
    } else if s[0] == 10 {
        0
    } else {
        1 + line_end(s.drop_first())
    }
}

/// `line_end` is in bounds, lands on a line feed when one exists, and
/// nothing before it is one.
pub proof fn lemma_line_end(s: Seq<u8>)
    ensures
        0 <= line_end(s) <= s.len(),
        line_end(s) < s.len() ==> s[line_end(s)] == 10,
        forall|i: int| 0 <= i < line_end(s) ==> s[i] != 10,
    decreases s.len(),
{
    if s.len() > 0 && s[0] != 10 {
        lemma_line_end(s.drop_first());
        assert forall|i: int| 0 <= i < line_end(s) implies s[i] != 10 by {
            if i > 0 {
                assert(s.drop_first()[i - 1] == s[i]);
            }
        }
    }
}

/// `line_end` of a string that starts with `k` bytes free of line feeds,
/// followed by a line feed or nothing, is exactly `k`.
pub proof fn lemma_line_end_at(s: Seq<u8>, k: int)
    requires
        0 <= k <= s.len(),
        forall|i: int| 0 <= i < k ==> s[i] != 10,
        k < s.len() ==> s[k] == 10,
    ensures
        line_end(s) == k,
    decreases k,
{
    if s.len() > 0 && s[0] != 10 {
        lemma_line_end_at(s.drop_first(), k - 1);
    }
}

/// A line as read: one trailing carriage return before the line feed is
/// dropped, as in a text file written on another system.
pub open spec fn chomp_cr(line: Seq<u8>) -> Seq<u8> {
    if line.len() > 0 && line.last() == 13 {
        line.drop_last()
    } else {
        line
    }
}

/// The lines of a byte string: split at each line feed, one trailing
/// carriage return per line dropped, and no empty final line after a
/// trailing line feed.
pub open spec fn split_lines(s: Seq<u8>) -> Seq<Seq<u8>>
    decreases s.len(),
    via split_lines_decreases
{
    if s.len() == 0 {
        Seq::empty()
    } else {
        let e = line_end(s);
        if e >= s.len() {
            seq![chomp_cr(s)]
        } else {
            seq![chomp_cr(s.take(e))] + split_lines(s.skip(e + 1))
        }
    }
}

#[via_fn]
proof fn split_lines_decreases(s: Seq<u8>) {
    lemma_line_end(s);
}

/// The encoding of a history: identifiers joined by single line feeds,
/// with no trailing line feed.
pub open spec fn join_lines(ids: Seq<Seq<u8>>) -> Seq<u8>
    decreases ids.len(),
{
    if ids.len() == 0 {
        Seq::empty()
    } else if ids.len() == 1 {
        ids[0]
    } else {
        ids[0] + seq![10u8] + join_lines(ids.drop_first())
    }
}

proof fn lemma_join_push(ids: Seq<Seq<u8>>, x: Seq<u8>)
    ensures
        ids.len() == 0 ==> join_lines(ids.push(x)) == x,
        ids.len() > 0 ==> join_lines(ids.push(x)) == join_lines(ids) + seq![10u8] + x,
    decreases ids.len(),
{
    if ids.len() == 0 {
        assert(join_lines(ids.push(x)) == ids.push(x)[0]);
        assert(ids.push(x)[0] == x);
    } else if ids.len() == 1 {
        assert(ids.push(x).drop_first() =~= seq![x]);
        assert(join_lines(seq![x]) == seq![x][0]);
        assert(seq![x][0] == x);
        assert(ids.push(x)[0] == ids[0]);
        assert(join_lines(ids.push(x)) == ids[0] + seq![10u8] + x);
        assert(join_lines(ids) == ids[0]);
    } else {
        assert(ids.push(x).drop_first() =~= ids.drop_first().push(x));
        lemma_join_push(ids.drop_first(), x);
        assert(join_lines(ids.push(x)) == ids[0] + seq![10u8] + (join_lines(ids.drop_first())
            + seq![10u8] + x));
        assert(ids[0] + seq![10u8] + (join_lines(ids.drop_first()) + seq![10u8] + x) =~= (ids[0]
            + seq![10u8] + join_lines(ids.drop_first())) + seq![10u8] + x);
    }
}

/// At most `limit` elements of `s`, from the front.
pub open spec fn take_limit(s: Seq<Seq<u8>>, limit: nat) -> Seq<Seq<u8>> {
    if s.len() <= limit {
        s
    } else {
        s.take(limit as int)
    }
}

/// What loading a history file yields: its lines, at most `limit` of them,
/// in file order (most recent first).
pub open spec fn spec_load(content: Seq<u8>, limit: nat) -> Seq<Seq<u8>> {
    take_limit(split_lines(content), limit)
}

/// Holds of identifiers other than `id`: what a launch of `id` keeps of the
/// old history.
pub open spec fn ne_pred(id: Seq<u8>) -> spec_fn(Seq<u8>) -> bool {
    |e: Seq<u8>| e != id
}

/// The history after a successful launch of `id`: `id` first, then the old
/// history with every occurrence of `id` removed, truncated to `limit`.
pub open spec fn spec_update(h: Seq<Seq<u8>>, id: Seq<u8>, limit: nat) -> Seq<Seq<u8>> {
    take_limit(seq![id] + h.filter(ne_pred(id)), limit)
}

/// An identifier that survives the line codec unchanged: non-empty, free of
/// line feeds, and not ending in a carriage return.
pub open spec fn wf_id(id: Seq<u8>) -> bool {
    &&& id.len() > 0
    &&& forall|i: int| 0 <= i < id.len() ==> id[i] != 10
    &&& id.last() != 13
}

/// A history whose identifiers all survive the line codec.
pub open spec fn wf_history(h: Seq<Seq<u8>>) -> bool {
    forall|i: int| 0 <= i < h.len() ==> wf_id(#[trigger] h[i])
}

/// No identifier occurs twice.
pub open spec fn no_dups(h: Seq<Seq<u8>>) -> bool {
    forall|i: int, j: int| 0 <= i < j < h.len() ==> h[i] != h[j]
}

/// Encoding a well-formed history and splitting it back into lines gives
/// the same history.
pub proof fn lemma_split_join(h: Seq<Seq<u8>>)
    requires
        wf_history(h),
    ensures
        split_lines(join_lines(h)) == h,
    decreases h.len(),
{
    if h.len() == 0 {
        assert(split_lines(join_lines(h)) =~= h);
    } else if h.len() == 1 {
        let s = join_lines(h);
        assert(s == h[0]);
        assert(wf_id(h[0]));
        lemma_line_end_at(s, s.len() as int);
        assert(chomp_cr(s) == s);
        assert(split_lines(s) =~= h);
    } else {
        let s = join_lines(h);
        let first = h[0];
        let rest = join_lines(h.drop_first());
        assert(s == first + seq![10u8] + rest);
        assert(wf_id(first));
        assert forall|i: int| 0 <= i < first.len() implies s[i] != 10 by {
            assert(s[i] == first[i]);
        }
        assert(s[first.len() as int] == 10);
        lemma_line_end_at(s, first.len() as int);
        let e = line_end(s);
        assert(e == first.len());
        assert(e < s.len());
        assert(s.take(e) =~= first);
        assert(chomp_cr(first) == first);
        assert(s.skip(e + 1) =~= rest);
        assert(wf_history(h.drop_first())) by {
            assert(forall|i: int|
                0 <= i < h.drop_first().len() ==> #[trigger] h.drop_first()[i] == h[i + 1]);
        }
        lemma_split_join(h.drop_first());
        assert(split_lines(s) == seq![first] + h.drop_first());
        assert(seq![first] + h.drop_first() =~= h);
    }
}

/// Recording a launch and loading the file back under the same limit yields
/// exactly the history that was written. `h` is the history as loaded before
/// the launch; its identifiers and the launched identifier must be ones the
/// line codec keeps (non-empty, free of line feeds, not ending in a carriage
/// return).
pub proof fn lemma_record_load_round_trip(h: Seq<Seq<u8>>, id: Seq<u8>, limit: nat)
    requires
        limit > 0,
        wf_id(id),
        wf_history(h),
    ensures
        spec_load(join_lines(spec_update(h, id, limit)), limit) == spec_update(h, id, limit),
{
    let ne = ne_pred(id);
    let full = seq![id] + h.filter(ne);
    let u = spec_update(h, id, limit);
    assert(u.len() <= limit) by {
        h.lemma_filter_len(ne);
    }
    assert(wf_history(u)) by {
        lemma_filter_membership(h, ne);
        assert forall|k: int| 0 <= k < u.len() implies wf_id(u[k]) by {
            assert(u[k] == full[k]);
            if k == 0 {
                assert(full[0] == id);
            } else {
                assert(full[k] == h.filter(ne)[k - 1]);
                assert(h.contains(h.filter(ne)[k - 1]));
                let j = choose|j: int| 0 <= j < h.len() && h[j] == h.filter(ne)[k - 1];
                assert(wf_id(h[j]));
            }
        }
    }
    lemma_split_join(u);
    assert(take_limit(u, limit) == u);
}

/// A launch of an identifier already present in a duplicate-free history
/// moves it to the front without duplicating it or changing the stored
/// count.
pub proof fn lemma_relaunch_moves_to_front(h: Seq<Seq<u8>>, id: Seq<u8>, limit: nat)
    requires
        h.contains(id),
        no_dups(h),
        h.len() <= limit,
    ensures
        spec_update(h, id, limit).len() == h.len(),
        spec_update(h, id, limit)[0] == id,
        spec_update(h, id, limit).to_multiset() == h.to_multiset(),
{
    let ne = ne_pred(id);
    lemma_filter_ne_one(h, id);
    let full = seq![id] + h.filter(ne);
    assert(full.len() == h.len());
    assert(take_limit(full, limit) == full);
    assert(full[0] == id);
}

/// Removing the single occurrence of `x` from a duplicate-free sequence and
/// putting it back in front is a permutation.
proof fn lemma_filter_ne_one(s: Seq<Seq<u8>>, x: Seq<u8>)
    requires
        s.contains(x),
        no_dups(s),
    ensures
        s.filter(ne_pred(x)).len() == s.len() - 1,
        (seq![x] + s.filter(ne_pred(x))).to_multiset() == s.to_multiset(),
    decreases s.len(),
{
    reveal(Seq::filter);
    broadcast use vstd::seq_lib::group_to_multiset_ensures;

    let ne = ne_pred(x);
    let t = s.drop_last();
    let last = s.last();
    assert(s =~= t.push(last));
    if last == x {
        assert(forall|i: int| 0 <= i < t.len() ==> #[trigger] t[i] != x);
        lemma_filter_all(t, ne);
        assert(s.filter(ne) == t);
        assert((seq![x] + t).to_multiset() =~= t.push(x).to_multiset()) by {
            vstd::seq_lib::lemma_multiset_commutative(seq![x], t);
            assert(seq![x].to_multiset() =~= Multiset::<Seq<u8>>::empty().insert(x)) by {
                assert(seq![x] =~= Seq::<Seq<u8>>::empty().push(x));
            }
        }
    } else {
        assert(t.contains(x)) by {
            let j = choose|j: int| 0 <= j < s.len() && s[j] == x;
            assert(t[j] == x);
        }
        lemma_filter_ne_one(t, x);
        assert(s.filter(ne) == t.filter(ne).push(last));
        let ft = t.filter(ne);
        assert(seq![x] + ft.push(last) =~= (seq![x] + ft).push(last));
        assert((seq![x] + ft).push(last).to_multiset() == (seq![x] + ft).to_multiset().insert(
            last,
        ));
        assert(t.push(last).to_multiset() == t.to_multiset().insert(last));
    }
}

/// The history after a run of launches, oldest first: each launch records
/// its identifier under the same limit, starting from the empty history.
pub open spec fn run_launches(ids: Seq<Seq<u8>>, limit: nat) -> Seq<Seq<u8>>
    decreases ids.len(),
{
    if ids.len() == 0 {
        Seq::empty()
    } else {
        spec_update(run_launches(ids.drop_last(), limit), ids.last(), limit)
    }
}

/// After a run of launches of distinct identifiers under a positive limit,
/// the history holds the most recent of them, newest first: the reversed
/// launch order, truncated to the limit.
pub proof fn lemma_distinct_launches(ids: Seq<Seq<u8>>, limit: nat)
    requires
        limit > 0,
        no_dups(ids),
    ensures
        run_launches(ids, limit) == take_limit(ids.reverse(), limit),
    decreases ids.len(),
{
    if ids.len() == 0 {
        assert(run_launches(ids, limit) =~= take_limit(ids.reverse(), limit));
    } else {
        let t = ids.drop_last();
        let x = ids.last();
        assert(no_dups(t));
        lemma_distinct_launches(t, limit);
        let rt = take_limit(t.reverse(), limit);
        let ne = ne_pred(x);
        assert(forall|k: int| 0 <= k < rt.len() ==> #[trigger] rt[k] != x) by {
            assert forall|k: int| 0 <= k < rt.len() implies rt[k] != x by {
                assert(rt[k] == t.reverse()[k]);
                assert(t.reverse()[k] == t[t.len() - 1 - k]);
                assert(t[t.len() - 1 - k] == ids[t.len() - 1 - k]);
                assert(ids[t.len() - 1 - k] != ids[ids.len() - 1]);
            }
        }
        lemma_filter_all(rt, ne);
        assert(run_launches(ids, limit) == take_limit(seq![x] + rt, limit));
        assert(ids.reverse() =~= seq![x] + t.reverse());
        assert(take_limit(seq![x] + rt, limit) =~= take_limit(ids.reverse(), limit));
    }
}

/// Splits file contents into lines.
pub fn split_lines_exec(content: &Vec<u8>) -> (r: Vec<Vec<u8>>)
    ensures
        byte_views(r@) == split_lines(content@),
{
    let n = content.len();
    let mut out: Vec<Vec<u8>> = Vec::new();
    let mut start: usize = 0;
    proof {
        assert(content@.skip(0) =~= content@);
        assert(byte_views(out@) + split_lines(content@) =~= split_lines(content@));
    }
    while start < n
        invariant
            start <= n,
            n == content.len(),
            byte_views(out@) + split_lines(content@.skip(start as int)) =~= split_lines(
                content@,
            ),
        decreases n - start,
    {
        let ghost rest = content@.skip(start as int);
        let mut e: usize = start;
        while e < n && content[e] != 10
            invariant
                start <= e <= n,
                n == content.len(),
                forall|i: int| start <= i < e ==> content@[i] != 10,
            decreases n - e,
        {
            e = e + 1;
        }
        proof {
            lemma_line_end_at(rest, e - start);
        }
        let mut line = sub_bytes(content, start, e);
        if line.len() > 0 && line[line.len() - 1] == 13 {
            line.pop();
        }
        proof {
            assert(rest.take(e - start) =~= content@.subrange(start as int, e as int));
            assert(line@ == chomp_cr(rest.take(e - start)));
        }
        out.push(line);
        if e == n {
            proof {
                assert(rest.take(e - start) =~= rest);
                assert(split_lines(rest) == seq![chomp_cr(rest)]);
                assert(byte_views(out@) =~= byte_views(out@.drop_last()) + seq![
                    chomp_cr(rest),
                ]);
                assert(byte_views(out@) + split_lines(content@.skip(n as int)) =~= byte_views(
                    out@,
                ));
            }
            start = n;
        } else {
            proof {
                assert(split_lines(rest) == seq![chomp_cr(rest.take(e - start))] + split_lines(
                    rest.skip(e - start + 1),
                ));
                assert(rest.skip(e - start + 1) =~= content@.skip(e + 1));
                assert(byte_views(out@) =~= byte_views(out@.drop_last()) + seq![
                    chomp_cr(rest.take(e - start)),
                ]);
                assert(byte_views(out@) + split_lines(content@.skip(e + 1)) =~= byte_views(
                    out@.drop_last(),
                ) + split_lines(rest));
            }
            start = e + 1;
        }
    }
    proof {
        if start == 0 {
            assert(content@.len() == 0);
            assert(byte_views(out@) =~= split_lines(content@));
        } else {
            assert(content@.skip(n as int) =~= Seq::<u8>::empty());
            assert(split_lines(content@.skip(n as int)) =~= Seq::<Seq<u8>>::empty());
            assert(byte_views(out@) =~= byte_views(out@) + split_lines(
                content@.skip(n as int),
            ));
        }
    }
    out
}

/// Joins identifiers with single line feeds.
pub fn join_lines_exec(ids: &Vec<Vec<u8>>) -> (r: Vec<u8>)
    ensures
        r@ == join_lines(byte_views(ids@)),
{
    let mut out: Vec<u8> = Vec::new();
    let mut i: usize = 0;
    while i < ids.len()
        invariant
            i <= ids.len(),
            out@ == join_lines(byte_views(ids@).take(i as int)),
        decreases ids.len() - i,
    {
        if i > 0 {
            out.push(10);
        }
        let mut j: usize = 0;
        let ghost mid = out@;
        while j < ids[i].len()
            invariant
                0 <= i < ids.len(),
                j <= ids[i as int].len(),
                out@ =~= mid + ids@[i as int]@.take(j as int),
            decreases ids[i as int].len() - j,
        {
            let b = ids[i][j];
            out.push(b);
            j = j + 1;
            assert(out@ =~= mid + ids@[i as int]@.take(j as int));
        }
        proof {
            let pre = byte_views(ids@).take(i as int);
            lemma_join_push(pre, ids@[i as int]@);
            assert(pre.push(ids@[i as int]@) =~= byte_views(ids@).take(i + 1));
            assert(ids@[i as int]@.take(ids@[i as int]@.len() as int) =~= ids@[i as int]@);
            if i == 0 {
                assert(out@ =~= ids@[0]@);
            } else {
                assert(out@ =~= join_lines(pre) + seq![10u8] + ids@[i as int]@);
            }
        }
        i = i + 1;
    }
    assert(byte_views(ids@).take(ids@.len() as int) =~= byte_views(ids@));
    out
}

/// Loads a history from file contents: at most `limit` lines, in file order.
/// A missing file reads as empty contents, and a zero `limit` always yields
/// the empty history.
pub fn load_history(content: &Vec<u8>, limit: usize) -> (r: Vec<Vec<u8>>)
    ensures
        byte_views(r@) == spec_load(content@, limit as nat),
        r@.len() <= limit,
{
    let mut lines = split_lines_exec(content);
    if lines.len() > limit {
        let ghost full = lines@;
        lines.truncate(limit);
        assert(byte_views(lines@) =~= byte_views(full).take(limit as int));
    }
    lines
}

/// The updated history after a successful launch of `id`: `id` moves to the
/// front, its other occurrences are dropped, and the list is truncated to
/// `limit`. A zero `limit` yields the empty history.
pub fn update_history(h: &Vec<Vec<u8>>, id: &Vec<u8>, limit: usize) -> (r: Vec<Vec<u8>>)
    ensures
        byte_views(r@) == spec_update(byte_views(h@), id@, limit as nat),
{
    let ghost ne = ne_pred(id@);
    if limit == 0 {
        let r: Vec<Vec<u8>> = Vec::new();
        proof {
            assert(byte_views(r@) =~= take_limit(
                seq![id@] + byte_views(h@).filter(ne),
                0,
            ));
        }
        return r;
    }
    let mut out: Vec<Vec<u8>> = Vec::new();
    out.push(clone_bytes(id));
    proof {
        reveal(Seq::filter);
        assert(byte_views(h@).take(0).filter(ne) =~= Seq::<Seq<u8>>::empty());
        assert(byte_views(out@) =~= take_limit(
            seq![id@] + byte_views(h@).take(0).filter(ne),
            limit as nat,
        ));
    }
    let mut i: usize = 0;
    while i < h.len()
        invariant
            ne == ne_pred(id@),
            i <= h.len(),
            limit >= 1,
            out@.len() <= limit,
            byte_views(out@) == take_limit(
                seq![id@] + byte_views(h@).take(i as int).filter(ne),
                limit as nat,
            ),
        decreases h.len() - i,
    {
        let ghost x = h@[i as int]@;
        let ghost pre = byte_views(h@).take(i as int);
        let ghost fullpre = seq![id@] + pre.filter(ne);
        let ghost fullnext = seq![id@] + byte_views(h@).take(i + 1).filter(ne);
        proof {
            lemma_filter_push(pre, ne, x);
            assert(pre.push(x) =~= byte_views(h@).take(i + 1));
            assert(byte_views(out@).len() == out@.len());
        }
        if !eq_bytes(&h[i], id) && out.len() < limit {
            let ghost out_pre = out@;
            out.push(clone_bytes(&h[i]));
            proof {
                assert(byte_views(out_pre) == take_limit(fullpre, limit as nat));
                assert(byte_views(out_pre).len() == out_pre.len());
                assert(fullpre.len() <= limit as nat);
                assert(take_limit(fullpre, limit as nat) == fullpre);
                assert(byte_views(out@) =~= fullpre.push(x));
                assert(fullnext =~= fullpre.push(x));
                assert(fullnext.len() <= limit as nat);
                assert(byte_views(out@) == take_limit(fullnext, limit as nat));
            }
        } else {
            proof {
                if x == id@ {
                    assert(fullnext =~= fullpre);
                } else {
                    assert(out@.len() == limit);
                    assert(fullpre.len() >= limit as nat);
                    assert(fullnext =~= fullpre.push(x));
                    assert(take_limit(fullnext, limit as nat) =~= take_limit(
                        fullpre,
                        limit as nat,
                    ));
                }
            }
        }
        i = i + 1;
    }
    assert(byte_views(h@).take(h@.len() as int) =~= byte_views(h@));
    out
}

/// What a launch of `id` writes back to the history file: `None` when the
/// configured size is zero (the file is left untouched), else the encoding
/// of the updated history. `content` is the file as it reads now, empty when
/// the file is missing.
pub fn record_history(content: &Vec<u8>, id: &Vec<u8>, limit: usize) -> (r: Option<Vec<u8>>)
    ensures
        (r is None) <==> limit == 0,
        r matches Some(c) ==> c@ == join_lines(
            spec_update(spec_load(content@, limit as nat), id@, limit as nat),
        ),
{
    if limit == 0 {
        return None;
    }
    let current = load_history(content, limit);
    let updated = update_history(&current, id, limit);
    Some(join_lines_exec(&updated))
}

} // verus!
