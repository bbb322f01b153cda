//! The ranker: orders a catalog by recency and label, then filters it by the
//! live search text. The base order puts recently launched entries first, in
//! history order, and the rest alphabetically by label; the filter keeps the
//! entries whose label or match text contains the search text case-
//! insensitively, and never reorders what it keeps.

use vstd::prelude::*;

use crate::list_item::{app_entries, desc_views, entry_views, spec_app_entries, AppDesc, Entry,
    EntryV};
use crate::seqs::{lemma_filter_all, lemma_filter_compose, lemma_filter_partition,
    lemma_filter_push, lemma_filter_subsequence, subsequence_of};
use crate::text::{
    byte_views, contains_insensitive, eq_bytes, find_insensitive, is_substring, lex_leq,
    lex_leq_bytes, lower_seq,
};
use vstd::multiset::Multiset;

verus! {

/// An entry passes the search filter when the search text occurs in its
/// label or in its match text, ignoring ASCII case. Empty search text passes
/// everything.
pub open spec fn entry_matches(e: EntryV, search: Seq<u8>) -> bool {
    contains_insensitive(search, e.label) || contains_insensitive(search, e.match_text)
}

/// The search filter as a predicate on entries.
pub open spec fn match_pred(search: Seq<u8>) -> spec_fn(EntryV) -> bool {
    |e: EntryV| entry_matches(e, search)
}

/// Holds of entries with the given identifier.
pub open spec fn id_pred(id: Seq<u8>) -> spec_fn(EntryV) -> bool {
    |e: EntryV| e.id == id
}

/// Holds of entries with another identifier.
pub open spec fn not_id_pred(id: Seq<u8>) -> spec_fn(EntryV) -> bool {
    |e: EntryV| e.id != id
}

/// Holds of entries whose identifier is not in the history.
pub open spec fn other_pred(h: Seq<Seq<u8>>) -> spec_fn(EntryV) -> bool {
    |e: EntryV| !h.contains(e.id)
}

/// The recent block: for each history identifier, most recent first, the
/// entries carrying it, in catalog order; an identifier already handled
/// claims nothing again.
pub open spec fn spec_recent(c: Seq<EntryV>, h: Seq<Seq<u8>>) -> Seq<EntryV>
    decreases h.len(),
{
    if h.len() == 0 {
        Seq::empty()
    } else {
        c.filter(id_pred(h.first())) + spec_recent(
            c.filter(not_id_pred(h.first())),
            h.drop_first(),
        )
    }
}

/// Insertion of an entry into a label-sorted sequence: it goes after every
/// entry whose label is less than or equal to its own, so equal labels keep
/// their earlier order.
pub open spec fn insert_by_label(s: Seq<EntryV>, e: EntryV) -> Seq<EntryV>
    decreases s.len(),
{
    if s.len() == 0 {
        seq![e]
    } else if lex_leq(s.last().label, e.label) {
        s.push(e)
    } else {
        insert_by_label(s.drop_last(), e).push(s.last())
    }
}

/// Stable insertion sort by label: entries with equal labels stay in their
/// original order.
pub open spec fn sort_by_label(s: Seq<EntryV>) -> Seq<EntryV>
    decreases s.len(),
{
    if s.len() == 0 {
        Seq::empty()
    } else {
        insert_by_label(sort_by_label(s.drop_last()), s.last())
    }
}

/// Label order holds throughout the sequence.
pub open spec fn sorted_by_label(s: Seq<EntryV>) -> bool {
    forall|i: int, j: int| 0 <= i < j < s.len() ==> lex_leq(s[i].label, s[j].label)
}

/// The base order: recently launched entries first, in history order, then
/// the rest sorted by label.
pub open spec fn spec_base_order(c: Seq<EntryV>, h: Seq<Seq<u8>>) -> Seq<EntryV> {
    spec_recent(c, h) + sort_by_label(c.filter(other_pred(h)))
}

/// The displayed order: the base order with the search filter applied.
pub open spec fn spec_rank(c: Seq<EntryV>, h: Seq<Seq<u8>>, search: Seq<u8>) -> Seq<EntryV> {
    spec_base_order(c, h).filter(match_pred(search))
}

/// Decides the search filter for one entry.
pub fn entry_matches_exec(e: &Entry, search: &Vec<u8>) -> (r: bool)
    ensures
        r == entry_matches(e@, search@),
{
    if find_insensitive(search, &e.label) {
        return true;
    }
    find_insensitive(search, &e.match_text)
}

/// Applies the search filter to an ordered list of entries, keeping the
/// survivors in their order.
pub fn filter_entries(base: &Vec<Entry>, search: &Vec<u8>) -> (r: Vec<Entry>)
    ensures
        entry_views(r@) == entry_views(base@).filter(match_pred(search@)),
{
    let mut out: Vec<Entry> = Vec::new();
    let mut i: usize = 0;
    proof {
        reveal(Seq::filter);
        assert(entry_views(base@).take(0) =~= Seq::<EntryV>::empty());
        assert(entry_views(out@) =~= entry_views(base@).take(0).filter(match_pred(search@)));
    }
    while i < base.len()
        invariant
            i <= base.len(),
            entry_views(out@) == entry_views(base@).take(i as int).filter(
                match_pred(search@),
            ),
        decreases base.len() - i,
    {
        let ghost pre = entry_views(base@).take(i as int);
        proof {
            lemma_filter_push(pre, match_pred(search@), base@[i as int]@);
            assert(pre.push(base@[i as int]@) =~= entry_views(base@).take(i + 1));
        }
        if entry_matches_exec(&base[i], search) {
            out.push(base[i].clone());
            assert(entry_views(out@) =~= pre.filter(match_pred(search@)).push(
                base@[i as int]@,
            ));
        }
        i = i + 1;
    }
    assert(entry_views(base@).take(base@.len() as int) =~= entry_views(base@));
    out
}

/// Where `insert_by_label` puts the new entry: at position `pos`, when
/// everything from `pos` on has a greater label and the element before
/// `pos`, if any, does not.
proof fn lemma_insert_by_label_at(s: Seq<EntryV>, e: EntryV, pos: int)
    requires
        0 <= pos <= s.len(),
        forall|j: int| pos <= j < s.len() ==> !lex_leq(#[trigger] s[j].label, e.label),
        pos > 0 ==> lex_leq(s[pos - 1].label, e.label),
    ensures
        insert_by_label(s, e) == s.insert(pos, e),
    decreases s.len(),
{
    if pos == s.len() {
        if s.len() == 0 {
            assert(insert_by_label(s, e) =~= s.insert(pos, e));
        } else {
            assert(lex_leq(s[pos - 1].label, e.label));
            assert(s.push(e) =~= s.insert(pos, e));
        }
    } else {
        assert(!lex_leq(s.last().label, e.label));
        lemma_insert_by_label_at(s.drop_last(), e, pos);
        assert(insert_by_label(s, e) == s.drop_last().insert(pos, e).push(s.last()));
        assert(s.drop_last().insert(pos, e).push(s.last()) =~= s.insert(pos, e));
    }
}

/// Sorts entries by label, stably: equal labels keep their input order.
pub fn sort_entries_by_label(v: &Vec<Entry>) -> (r: Vec<Entry>)
    ensures
        entry_views(r@) == sort_by_label(entry_views(v@)),
{
    let mut out: Vec<Entry> = Vec::new();
    let mut i: usize = 0;
    proof {
        assert(entry_views(out@) =~= sort_by_label(entry_views(v@).take(0)));
    }
    while i < v.len()
        invariant
            i <= v.len(),
            entry_views(out@) == sort_by_label(entry_views(v@).take(i as int)),
        decreases v.len() - i,
    {
        let e = v[i].clone();
        let mut pos: usize = out.len();
        while pos > 0 && !lex_leq_bytes(&out[pos - 1].label, &e.label)
            invariant
                pos <= out.len(),
                e@ == v@[i as int]@,
                forall|j: int|
                    pos <= j < out.len() ==> !lex_leq(
                        #[trigger] entry_views(out@)[j].label,
                        e@.label,
                    ),
            decreases pos,
        {
            pos = pos - 1;
        }
        let ghost sorted_pre = entry_views(out@);
        proof {
            lemma_insert_by_label_at(sorted_pre, e@, pos as int);
        }
        out.insert(pos, e);
        proof {
            let pre = entry_views(v@).take(i as int);
            assert(pre.push(v@[i as int]@) =~= entry_views(v@).take(i + 1));
            assert(entry_views(v@).take(i + 1).drop_last() =~= pre);
            assert(entry_views(out@) =~= sorted_pre.insert(pos as int, e@));
            assert(entry_views(out@) == insert_by_label(sorted_pre, e@));
            assert(entry_views(out@) == sort_by_label(entry_views(v@).take(i + 1)));
        }
        i = i + 1;
    }
    assert(entry_views(v@).take(v@.len() as int) =~= entry_views(v@));
    out
}

/// Copies a list of entries.
fn clone_entries(v: &Vec<Entry>) -> (r: Vec<Entry>)
    ensures
        entry_views(r@) == entry_views(v@),
{
    let mut r: Vec<Entry> = Vec::new();
    let mut i: usize = 0;
    while i < v.len()
        invariant
            i <= v.len(),
            r.len() == i,
            forall|k: int| 0 <= k < i ==> r@[k]@ == v@[k]@,
        decreases v.len() - i,
    {
        r.push(v[i].clone());
        i = i + 1;
    }
    assert(entry_views(r@) =~= entry_views(v@));
    r
}

/// Builds the base order of a catalog under a history: the recent block
/// first (entries whose identifier is in the history, in history order,
/// ties in catalog order), then all other entries sorted by label, ties in
/// catalog order.
pub fn base_order(catalog: &Vec<Entry>, history: &Vec<Vec<u8>>) -> (r: Vec<Entry>)
    ensures
        entry_views(r@) == spec_base_order(entry_views(catalog@), byte_views(history@)),
{
    let ghost cv = entry_views(catalog@);
    let ghost hv = byte_views(history@);
    let mut rest: Vec<Entry> = clone_entries(catalog);
    let mut out: Vec<Entry> = Vec::new();
    let mut i: usize = 0;
    proof {
        assert(hv.skip(0) =~= hv);
        assert(entry_views(out@) + spec_recent(entry_views(rest@), hv) =~= spec_recent(
            cv,
            hv,
        ));
        assert(hv.take(0) =~= Seq::<Seq<u8>>::empty());
    }
    while i < history.len()
        invariant
            i <= history.len(),
            hv == byte_views(history@),
            cv == entry_views(catalog@),
            entry_views(out@) + spec_recent(entry_views(rest@), hv.skip(i as int))
                == spec_recent(cv, hv),
            entry_views(rest@).filter(other_pred(hv)) == cv.filter(other_pred(hv)),
            forall|k: int|
                0 <= k < rest@.len() ==> !hv.take(i as int).contains(
                    #[trigger] entry_views(rest@)[k].id,
                ),
        decreases history.len() - i,
    {
        let ghost rv = entry_views(rest@);
        let ghost hid_v = hv[i as int];
        let mut matched: Vec<Entry> = Vec::new();
        let mut keep: Vec<Entry> = Vec::new();
        let mut j: usize = 0;
        proof {
            reveal(Seq::filter);
            assert(rv.take(0) =~= Seq::<EntryV>::empty());
            assert(entry_views(matched@) =~= rv.take(0).filter(id_pred(hid_v)));
            assert(entry_views(keep@) =~= rv.take(0).filter(not_id_pred(hid_v)));
        }
        while j < rest.len()
            invariant
                j <= rest.len(),
                0 <= i < history.len(),
                rv == entry_views(rest@),
                hid_v == byte_views(history@)[i as int],
                entry_views(matched@) == rv.take(j as int).filter(id_pred(hid_v)),
                entry_views(keep@) == rv.take(j as int).filter(not_id_pred(hid_v)),
            decreases rest.len() - j,
        {
            let ghost pre = rv.take(j as int);
            proof {
                lemma_filter_push(pre, id_pred(hid_v), rv[j as int]);
                lemma_filter_push(pre, not_id_pred(hid_v), rv[j as int]);
                assert(pre.push(rv[j as int]) =~= rv.take(j + 1));
            }
            if eq_bytes(&rest[j].id, &history[i]) {
                matched.push(rest[j].clone());
                assert(entry_views(matched@) =~= pre.filter(id_pred(hid_v)).push(
                    rv[j as int],
                ));
            } else {
                keep.push(rest[j].clone());
                assert(entry_views(keep@) =~= pre.filter(not_id_pred(hid_v)).push(
                    rv[j as int],
                ));
            }
            j = j + 1;
        }
        proof {
            assert(rv.take(rest@.len() as int) =~= rv);
        }
        let ghost out_pre = entry_views(out@);
        out.append(&mut matched);
        proof {
            assert(entry_views(out@) =~= out_pre + rv.filter(id_pred(hid_v)));
        }
        rest = keep;
        proof {
            let rvk = entry_views(rest@);
            assert(rvk == rv.filter(not_id_pred(hid_v)));
            // The recent block for the remaining history splits off this
            // identifier's group.
            assert(hv.skip(i as int).first() == hid_v);
            assert(hv.skip(i as int).drop_first() =~= hv.skip(i + 1));
            assert(spec_recent(rv, hv.skip(i as int)) == rv.filter(id_pred(hid_v))
                + spec_recent(rvk, hv.skip(i + 1)));
            assert((out_pre + rv.filter(id_pred(hid_v))) + spec_recent(rvk, hv.skip(i + 1))
                =~= out_pre + spec_recent(rv, hv.skip(i as int)));
            // Dropping this identifier's entries changes nothing outside the
            // history.
            assert forall|e: EntryV|
                #[trigger] other_pred(hv)(e) <==> not_id_pred(hid_v)(e) && other_pred(hv)(
                    e,
                ) by {
                if !hv.contains(e.id) && e.id == hid_v {
                    assert(hv[i as int] == e.id);
                }
            }
            crate::seqs::lemma_filter_compose(
                rv,
                not_id_pred(hid_v),
                other_pred(hv),
                other_pred(hv),
            );
            // Remaining entries stay clear of the history seen so far.
            crate::seqs::lemma_filter_membership(rv, not_id_pred(hid_v));
            assert forall|k: int|
                0 <= k < rest@.len() implies !hv.take(i + 1).contains(
                    entry_views(rest@)[k].id,
                ) by {
                let e = rvk[k];
                assert(rv.contains(e));
                let m = choose|m: int| 0 <= m < rv.len() && rv[m] == e;
                assert(!hv.take(i as int).contains(rv[m].id));
                rv.lemma_filter_pred(not_id_pred(hid_v), k);
                if hv.take(i + 1).contains(e.id) {
                    let w = choose|w: int|
                        0 <= w < i + 1 && #[trigger] hv.take(i + 1)[w] == e.id;
                    if w < i {
                        assert(hv.take(i as int)[w] == e.id);
                    } else {
                        assert(hv[i as int] == e.id);
                    }
                }
            }
        }
        i = i + 1;
    }
    proof {
        assert(hv.skip(history@.len() as int) =~= Seq::<Seq<u8>>::empty());
        assert(spec_recent(entry_views(rest@), Seq::empty()) =~= Seq::<EntryV>::empty());
        assert(entry_views(out@) + Seq::<EntryV>::empty() =~= entry_views(out@));
        // Everything left lies outside the history, so it is the others
        // block entire.
        assert(hv.take(history@.len() as int) =~= hv);
        crate::seqs::lemma_filter_all(entry_views(rest@), other_pred(hv));
    }
    let mut others = sort_entries_by_label(&rest);
    let ghost out_recent = entry_views(out@);
    out.append(&mut others);
    proof {
        assert(entry_views(out@) =~= out_recent + sort_by_label(
            entry_views(rest@).filter(other_pred(hv)),
        ));
    }
    out
}

/// Orders and filters a catalog for display: the base order under the
/// history, with the search filter applied. Filtering only removes entries;
/// the survivors keep their base order.
pub fn rank(catalog: &Vec<Entry>, history: &Vec<Vec<u8>>, search: &Vec<u8>) -> (r: Vec<Entry>)
    ensures
        entry_views(r@) == spec_rank(entry_views(catalog@), byte_views(history@), search@),
{
    let base = base_order(catalog, history);
    filter_entries(&base, search)
}

/// The ordered application catalog: every registry descriptor flagged for
/// display, put into the base order under the launch history.
pub fn app_list(descs: &Vec<AppDesc>, history: &Vec<Vec<u8>>) -> (r: Vec<Entry>)
    ensures
        entry_views(r@) == spec_base_order(
            spec_app_entries(desc_views(descs@)),
            byte_views(history@),
        ),
{
    let entries = app_entries(descs);
    base_order(&entries, history)
}

/// Filtering by any search text only removes entries: what is displayed is
/// a subsequence of the base order, never a reordering.
pub proof fn lemma_rank_subsequence_of_base(c: Seq<EntryV>, h: Seq<Seq<u8>>, search: Seq<u8>)
    ensures
        subsequence_of(spec_rank(c, h, search), spec_base_order(c, h)),
{
    lemma_filter_subsequence(spec_base_order(c, h), match_pred(search));
}

/// Typing only shrinks the visible set: with more text after the same
/// prefix, the displayed list is a subsequence of what the prefix displayed.
/// Survivors never move.
pub proof fn lemma_longer_search_only_shrinks(
    c: Seq<EntryV>,
    h: Seq<Seq<u8>>,
    s: Seq<u8>,
    t: Seq<u8>,
)
    requires
        s.len() <= t.len(),
        forall|i: int| 0 <= i < s.len() ==> s[i] == t[i],
    ensures
        subsequence_of(spec_rank(c, h, t), spec_rank(c, h, s)),
{
    let k = s.len() as int;
    assert(lower_seq(t).take(k) =~= lower_seq(s));
    assert forall|e: EntryV| #[trigger] match_pred(t)(e) implies match_pred(s)(e) by {
        if is_substring(lower_seq(t), lower_seq(e.label)) {
            crate::text::lemma_is_substring_prefix(lower_seq(t), lower_seq(e.label), k);
        } else {
            crate::text::lemma_is_substring_prefix(lower_seq(t), lower_seq(e.match_text), k);
        }
    }
    crate::seqs::lemma_filter_implies_subsequence(
        spec_base_order(c, h),
        match_pred(s),
        match_pred(t),
    );
}

/// Empty search text passes every entry.
pub proof fn lemma_empty_search_matches(e: EntryV)
    ensures
        entry_matches(e, Seq::empty()),
{
    let needle = lower_seq(Seq::<u8>::empty());
    assert(needle.len() == 0);
    let hay = lower_seq(e.label);
    assert(hay.subrange(0, 0 + needle.len() as int) =~= needle);
    assert(is_substring(needle, hay));
}

/// Inserting into the sorted block only adds the new entry.
proof fn lemma_insert_by_label_multiset(s: Seq<EntryV>, e: EntryV)
    ensures
        insert_by_label(s, e).to_multiset() == s.to_multiset().insert(e),
    decreases s.len(),
{
    broadcast use vstd::seq_lib::group_to_multiset_ensures;

    if s.len() == 0 {
        assert(s.to_multiset() =~= Multiset::<EntryV>::empty());
        assert(seq![e] =~= Seq::<EntryV>::empty().push(e));
        assert(Seq::<EntryV>::empty().to_multiset() =~= Multiset::<EntryV>::empty());
    } else if lex_leq(s.last().label, e.label) {
        assert(s.push(e).to_multiset() == s.to_multiset().insert(e));
    } else {
        let t = s.drop_last();
        let last = s.last();
        lemma_insert_by_label_multiset(t, e);
        assert(insert_by_label(s, e).to_multiset() == t.to_multiset().insert(e).insert(last));
        assert(s =~= t.push(last));
        assert(s.to_multiset() == t.to_multiset().insert(last));
        assert(t.to_multiset().insert(e).insert(last) =~= t.to_multiset().insert(
            last,
        ).insert(e));
    }
}

/// Sorting by label is a permutation.
proof fn lemma_sort_by_label_multiset(s: Seq<EntryV>)
    ensures
        sort_by_label(s).to_multiset() == s.to_multiset(),
    decreases s.len(),
{
    broadcast use vstd::seq_lib::group_to_multiset_ensures;

    if s.len() > 0 {
        let t = s.drop_last();
        lemma_sort_by_label_multiset(t);
        lemma_insert_by_label_multiset(sort_by_label(t), s.last());
        assert(s =~= t.push(s.last()));
    }
}

/// Inserting into a label-sorted sequence keeps it sorted.
proof fn lemma_insert_by_label_sorted(s: Seq<EntryV>, e: EntryV)
    requires
        sorted_by_label(s),
    ensures
        sorted_by_label(insert_by_label(s, e)),
    decreases s.len(),
{
    broadcast use vstd::seq_lib::group_to_multiset_ensures;

    if s.len() == 0 {
    } else if lex_leq(s.last().label, e.label) {
        let r = s.push(e);
        assert forall|i: int, j: int|
            0 <= i < j < r.len() implies lex_leq(r[i].label, r[j].label) by {
            if j == r.len() - 1 && i < s.len() - 1 {
                crate::text::lemma_lex_leq_trans(s[i].label, s.last().label, e.label);
            }
        }
    } else {
        let t = s.drop_last();
        let last = s.last();
        crate::text::lemma_lex_leq_total(last.label, e.label);
        lemma_insert_by_label_sorted(t, e);
        lemma_insert_by_label_multiset(t, e);
        let rr = insert_by_label(t, e);
        let r = rr.push(last);
        assert forall|i: int, j: int|
            0 <= i < j < r.len() implies lex_leq(r[i].label, r[j].label) by {
            if j == r.len() - 1 {
                assert(rr.contains(rr[i]));
                assert(rr.to_multiset().count(rr[i]) > 0);
                if rr[i] == e {
                    assert(lex_leq(e.label, last.label));
                } else {
                    assert(t.to_multiset().count(rr[i]) > 0);
                    assert(t.contains(rr[i]));
                    let k = choose|k: int| 0 <= k < t.len() && t[k] == rr[i];
                    assert(s[k] == rr[i]);
                    assert(lex_leq(s[k].label, last.label));
                }
            }
        }
    }
}

/// The others block really is in label order: sorting by label yields a
/// label-sorted sequence.
pub proof fn lemma_sort_by_label_sorted(s: Seq<EntryV>)
    ensures
        sorted_by_label(sort_by_label(s)),
    decreases s.len(),
{
    if s.len() > 0 {
        lemma_sort_by_label_sorted(s.drop_last());
        lemma_insert_by_label_sorted(sort_by_label(s.drop_last()), s.last());
    }
}

/// The recent block and the others block together hold every catalog entry
/// exactly once.
proof fn lemma_recent_others_partition(c: Seq<EntryV>, h: Seq<Seq<u8>>)
    ensures
        spec_recent(c, h).to_multiset().add(c.filter(other_pred(h)).to_multiset())
            == c.to_multiset(),
    decreases h.len(),
{
    broadcast use vstd::seq_lib::group_to_multiset_ensures;

    if h.len() == 0 {
        assert forall|k: int| 0 <= k < c.len() implies other_pred(h)(#[trigger] c[k]) by {
            assert(!h.contains(c[k].id));
        }
        lemma_filter_all(c, other_pred(h));
        assert(spec_recent(c, h).to_multiset() =~= Multiset::<EntryV>::empty());
        assert(Multiset::<EntryV>::empty().add(c.to_multiset()) =~= c.to_multiset());
    } else {
        let h0 = h.first();
        let h1 = h.drop_first();
        let c1 = c.filter(not_id_pred(h0));
        lemma_recent_others_partition(c1, h1);
        assert forall|a: EntryV| #[trigger]
            not_id_pred(h0)(a) <==> !id_pred(h0)(a) by {}
        lemma_filter_partition(c, id_pred(h0), not_id_pred(h0));
        assert forall|e: EntryV| #[trigger]
            other_pred(h)(e) <==> not_id_pred(h0)(e) && other_pred(h1)(e) by {
            if h.contains(e.id) {
                let w = choose|w: int| 0 <= w < h.len() && h[w] == e.id;
                if w == 0 {
                    assert(e.id == h0);
                } else {
                    assert(h1[w - 1] == e.id);
                    assert(h1.contains(e.id));
                }
            }
            if e.id == h0 {
                assert(h[0] == e.id);
                assert(h.contains(e.id));
            }
            if h1.contains(e.id) {
                let w = choose|w: int| 0 <= w < h1.len() && h1[w] == e.id;
                assert(h[w + 1] == e.id);
                assert(h.contains(e.id));
            }
        }
        lemma_filter_compose(c, not_id_pred(h0), other_pred(h1), other_pred(h));
        vstd::seq_lib::lemma_multiset_commutative(
            c.filter(id_pred(h0)),
            spec_recent(c1, h1),
        );
        assert(spec_recent(c, h).to_multiset().add(c.filter(other_pred(h)).to_multiset())
            =~= c.to_multiset()) by {
            assert(spec_recent(c, h).to_multiset() == c.filter(id_pred(h0)).to_multiset().add(
                spec_recent(c1, h1).to_multiset(),
            ));
            assert(spec_recent(c1, h1).to_multiset().add(c1.filter(other_pred(h1)).to_multiset())
                == c1.to_multiset());
            assert(c.filter(id_pred(h0)).to_multiset().add(c1.to_multiset())
                == c.to_multiset());
            assert(c1.filter(other_pred(h1)) == c.filter(other_pred(h)));
        }
    }
}

/// With empty search text the ranker displays every catalog entry exactly
/// once: ordering loses nothing and duplicates nothing.
pub proof fn lemma_rank_empty_search_complete(c: Seq<EntryV>, h: Seq<Seq<u8>>)
    ensures
        spec_rank(c, h, Seq::empty()).to_multiset() == c.to_multiset(),
{
    broadcast use vstd::seq_lib::group_to_multiset_ensures;

    let base = spec_base_order(c, h);
    assert forall|k: int| 0 <= k < base.len() implies match_pred(Seq::<u8>::empty())(
        #[trigger] base[k],
    ) by {
        lemma_empty_search_matches(base[k]);
    }
    lemma_filter_all(base, match_pred(Seq::<u8>::empty()));
    vstd::seq_lib::lemma_multiset_commutative(
        spec_recent(c, h),
        sort_by_label(c.filter(other_pred(h))),
    );
    lemma_sort_by_label_multiset(c.filter(other_pred(h)));
    lemma_recent_others_partition(c, h);
}

} // verus!
