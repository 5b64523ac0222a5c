//! Aggregation and deduplication policy for the player list: collapse the
//! browser's duplicate sessions down to the single most relevant one and
//! produce a stable, case-insensitively sorted display order.

use vstd::multiset::Multiset;
use vstd::prelude::*;
use vstd::utf8::encode_utf8;

use crate::player::{PlayerInfo, PlayerInfoView, status_priority, status_priority_exec};
use crate::text::{
    has_subseq_ci, has_subseq_ci_exec, lemma_lex_le_total, lemma_lex_le_trans, lex_le,
    lex_le_ci_exec, lower_bytes,
};

verus! {

/// The bytes of `"firefox"`.
pub open spec fn firefox_needle() -> Seq<u8> {
    seq![102u8, 105u8, 114u8, 101u8, 102u8, 111u8, 120u8]
}

/// A session is firefox-identified when its identity contains
/// `"firefox"`, case-insensitively.
pub open spec fn is_firefox_v(p: PlayerInfoView) -> bool {
    has_subseq_ci(encode_utf8(p.identity), firefox_needle())
}

/// Case-insensitive sort key of a snapshot: its identity, UTF-8 encoded
/// and ASCII case folded.
pub open spec fn ident_sort_key(p: PlayerInfoView) -> Seq<u8> {
    lower_bytes(encode_utf8(p.identity))
}

/// Display order: case-insensitive identity, ascending.
pub open spec fn info_le(a: PlayerInfoView, b: PlayerInfoView) -> bool {
    lex_le(ident_sort_key(a), ident_sort_key(b))
}

/// The list is sorted by case-insensitive identity, ascending.
pub open spec fn sorted_by_identity(s: Seq<PlayerInfoView>) -> bool {
    forall|i: int, j: int| 0 <= i < j < s.len() ==> info_le(s[i], s[j])
}

/// Spec-level image of a snapshot list.
pub open spec fn views_of(s: Seq<PlayerInfo>) -> Seq<PlayerInfoView> {
    s.map_values(|p: PlayerInfo| p@)
}

/// The firefox-identified entries, in order.
pub open spec fn firefox_part(s: Seq<PlayerInfoView>) -> Seq<PlayerInfoView> {
    s.filter(|p: PlayerInfoView| is_firefox_v(p))
}

/// The entries that are not firefox-identified, in order.
pub open spec fn other_part(s: Seq<PlayerInfoView>) -> Seq<PlayerInfoView> {
    s.filter(|p: PlayerInfoView| !is_firefox_v(p))
}

/// The most relevant entry of a nonempty list: lowest status priority,
/// earliest on ties.
pub open spec fn best_firefox(s: Seq<PlayerInfoView>) -> PlayerInfoView
    recommends
        s.len() > 0,
    decreases s.len(),
{
    if s.len() <= 1 {
        s[0]
    } else {
        let prev = best_firefox(s.drop_last());
        if status_priority(s.last().status) < status_priority(prev.status) {
            s.last()
        } else {
            prev
        }
    }
}

/// Lowest status priority occurring in a nonempty list.
pub open spec fn min_ff_priority(s: Seq<PlayerInfoView>) -> int
    recommends
        s.len() > 0,
    decreases s.len(),
{
    if s.len() <= 1 {
        status_priority(s[0].status)
    } else {
        let prev = min_ff_priority(s.drop_last());
        if status_priority(s.last().status) < prev {
            status_priority(s.last().status)
        } else {
            prev
        }
    }
}

/// What aggregation keeps, before ordering: every non-firefox entry, plus
/// the single most relevant firefox entry when there is any.
pub open spec fn merged_view(s: Seq<PlayerInfoView>) -> Seq<PlayerInfoView> {
    let ff = firefox_part(s);
    if ff.len() == 0 {
        other_part(s)
    } else {
        other_part(s).push(best_firefox(ff))
    }
}

/// The most relevant entry is an element and has minimal priority.
pub proof fn lemma_best_firefox(s: Seq<PlayerInfoView>)
    requires
        s.len() > 0,
    ensures
        s.contains(best_firefox(s)),
        forall|i: int|
            0 <= i < s.len() ==> status_priority(best_firefox(s).status) <= status_priority(
                s[i].status,
            ),
        status_priority(best_firefox(s).status) == min_ff_priority(s),
    decreases s.len(),
{
    if s.len() <= 1 {
        assert(s.contains(s[0]));
    } else {
        lemma_best_firefox(s.drop_last());
        let prev = best_firefox(s.drop_last());
        if !(status_priority(s.last().status) < status_priority(prev.status)) {
            assert(s.drop_last().contains(prev));
            let k = choose|k: int| 0 <= k < s.drop_last().len() && s.drop_last()[k] == prev;
            assert(s[k] == prev);
            assert(s.contains(prev));
        } else {
            assert(s.contains(s.last()));
        }
        assert(forall|i: int| 0 <= i < s.len() - 1 ==> s.drop_last()[i] == s[i]);
    }
}

/// The two partitions together carry exactly the elements of the list.
proof fn lemma_parts_partition(s: Seq<PlayerInfoView>)
    ensures
        other_part(s).to_multiset().add(firefox_part(s).to_multiset()) =~= s.to_multiset(),
    decreases s.len(),
{
    broadcast use vstd::multiset::group_multiset_axioms;

    reveal(Seq::filter);
    if s.len() == 0 {
        s.to_multiset_ensures();
        other_part(s).to_multiset_ensures();
        firefox_part(s).to_multiset_ensures();
    } else {
        let dl = s.drop_last();
        lemma_parts_partition(dl);
        s.to_multiset_ensures();
        dl.to_multiset_ensures();
        other_part(dl).to_multiset_ensures();
        firefox_part(dl).to_multiset_ensures();
        assert(dl.push(s.last()) =~= s);
        assert(s.to_multiset() =~= dl.to_multiset().insert(s.last()));
    }
}

/// The firefox entries of a list, as a multiset of the list's multiset.
pub open spec fn firefox_multiset(m: Multiset<PlayerInfoView>) -> Multiset<PlayerInfoView> {
    m.filter(|p: PlayerInfoView| is_firefox_v(p))
}

/// Filtering commutes with passing to multisets.
proof fn lemma_firefox_part_multiset(s: Seq<PlayerInfoView>)
    ensures
        firefox_part(s).to_multiset() =~= firefox_multiset(s.to_multiset()),
    decreases s.len(),
{
    broadcast use vstd::multiset::group_multiset_axioms;

    reveal(Seq::filter);
    if s.len() == 0 {
        s.to_multiset_ensures();
        firefox_part(s).to_multiset_ensures();
    } else {
        let dl = s.drop_last();
        lemma_firefox_part_multiset(dl);
        s.to_multiset_ensures();
        dl.to_multiset_ensures();
        firefox_part(dl).to_multiset_ensures();
        assert(dl.push(s.last()) =~= s);
        assert(s.to_multiset() =~= dl.to_multiset().insert(s.last()));
    }
}

/// Every entry of the firefox partition is firefox-identified, every
/// entry of the other partition is not.
proof fn lemma_parts_pred(s: Seq<PlayerInfoView>)
    ensures
        forall|i: int| 0 <= i < firefox_part(s).len() ==> is_firefox_v(#[trigger] firefox_part(s)[i]),
        forall|i: int| 0 <= i < other_part(s).len() ==> !is_firefox_v(#[trigger] other_part(s)[i]),
    decreases s.len(),
{
    reveal(Seq::filter);
    if s.len() > 0 {
        lemma_parts_pred(s.drop_last());
    }
}

/// A firefox-identified element at any position makes the firefox
/// partition nonempty.
proof fn lemma_firefox_part_nonempty(s: Seq<PlayerInfoView>, i: int)
    requires
        0 <= i < s.len(),
        is_firefox_v(s[i]),
    ensures
        firefox_part(s).len() >= 1,
    decreases s.len(),
{
    reveal(Seq::filter);
    if i < s.len() - 1 {
        lemma_firefox_part_nonempty(s.drop_last(), i);
    }
}

/// The aggregation law for lists with at most one firefox entry: the
/// output is a permutation of the input, so nothing is dropped or added.
pub proof fn lemma_aggregate_keeps_all_without_duplicates(
    infos: Seq<PlayerInfoView>,
    out: Seq<PlayerInfoView>,
)
    requires
        out.to_multiset() == merged_view(infos).to_multiset(),
        firefox_part(infos).len() <= 1,
    ensures
        out.to_multiset() == infos.to_multiset(),
{
    broadcast use vstd::multiset::group_multiset_axioms;

    lemma_parts_partition(infos);
    let ff = firefox_part(infos);
    let others = other_part(infos);
    others.to_multiset_ensures();
    ff.to_multiset_ensures();
    if ff.len() == 0 {
        assert(others.to_multiset().add(ff.to_multiset()) =~= others.to_multiset());
    } else {
        assert(best_firefox(ff) == ff[0]);
        assert(ff =~= Seq::<PlayerInfoView>::empty().push(ff[0]));
        Seq::<PlayerInfoView>::empty().to_multiset_ensures();
        assert(ff.to_multiset() =~= Multiset::<PlayerInfoView>::empty().insert(ff[0]));
        assert(merged_view(infos) == others.push(best_firefox(ff)));
        assert(merged_view(infos).to_multiset() =~= others.to_multiset().insert(ff[0]));
        assert(others.to_multiset().insert(ff[0]) =~= others.to_multiset().add(ff.to_multiset()));
    }
}

/// The deduplication law: when the input holds two or more firefox
/// entries of distinct statuses, the output holds exactly one firefox
/// entry, and its status has the lowest priority value among them.
pub proof fn lemma_aggregate_dedups_firefox(
    infos: Seq<PlayerInfoView>,
    out: Seq<PlayerInfoView>,
)
    requires
        out.to_multiset() == merged_view(infos).to_multiset(),
        exists|i: int, j: int|
            0 <= i < j < infos.len() && is_firefox_v(infos[i]) && is_firefox_v(infos[j])
                && infos[i].status != infos[j].status,
    ensures
        firefox_part(out).len() == 1,
        status_priority(firefox_part(out)[0].status) == min_ff_priority(firefox_part(infos)),
{
    broadcast use vstd::multiset::group_multiset_axioms;

    let ff = firefox_part(infos);
    let others = other_part(infos);
    let wi = choose|i: int, j: int|
        0 <= i < j < infos.len() && is_firefox_v(infos[i]) && is_firefox_v(infos[j])
            && infos[i].status != infos[j].status;
    lemma_firefox_part_nonempty(infos, wi.0);
    lemma_best_firefox(ff);
    let best = best_firefox(ff);
    lemma_parts_pred(infos);
    assert(is_firefox_v(best)) by {
        let k = choose|k: int| 0 <= k < ff.len() && ff[k] == best;
    }
    let merged = others.push(best);
    assert(merged_view(infos) == merged);
    // the firefox part of the merged list is exactly the best entry
    assert(firefox_part(merged) =~= firefox_part(others).push(best)) by {
        reveal(Seq::filter);
        assert(merged.drop_last() =~= others);
    }
    assert(firefox_part(others) =~= Seq::<PlayerInfoView>::empty()) by {
        reveal(Seq::filter);
        lemma_other_part_all_clean(infos);
    }
    let single = Seq::<PlayerInfoView>::empty().push(best);
    assert(firefox_part(merged) =~= single);
    // carry that over to the output through the multisets
    lemma_firefox_part_multiset(out);
    lemma_firefox_part_multiset(merged);
    assert(firefox_part(out).to_multiset() =~= firefox_part(merged).to_multiset());
    firefox_part(out).to_multiset_ensures();
    single.to_multiset_ensures();
    Seq::<PlayerInfoView>::empty().to_multiset_ensures();
    assert(single.to_multiset() =~= Multiset::<PlayerInfoView>::empty().insert(best));
    assert(firefox_part(out).len() == 1);
    let e = firefox_part(out)[0];
    assert(firefox_part(out) =~= Seq::<PlayerInfoView>::empty().push(e));
    assert(firefox_part(out).to_multiset() =~= Multiset::<PlayerInfoView>::empty().insert(e));
    assert(Multiset::<PlayerInfoView>::empty().insert(e).count(e) == 1);
    assert(e == best);
}

/// The firefox part of the non-firefox partition is empty.
proof fn lemma_other_part_all_clean(s: Seq<PlayerInfoView>)
    ensures
        firefox_part(other_part(s)) =~= Seq::<PlayerInfoView>::empty(),
{
    reveal(Seq::filter);
    lemma_parts_pred(s);
    lemma_filter_of_clean(other_part(s));
}

/// Filtering a list with no firefox entries gives the empty list.
proof fn lemma_filter_of_clean(s: Seq<PlayerInfoView>)
    requires
        forall|i: int| 0 <= i < s.len() ==> !is_firefox_v(#[trigger] s[i]),
    ensures
        firefox_part(s) =~= Seq::<PlayerInfoView>::empty(),
    decreases s.len(),
{
    reveal(Seq::filter);
    if s.len() > 0 {
        lemma_filter_of_clean(s.drop_last());
    }
}

/// Whether this identity names a firefox session.
pub fn is_firefox_identity(identity: &str) -> (r: bool)
    ensures
        r == has_subseq_ci(encode_utf8(identity@), firefox_needle()),
{
    let mut needle: Vec<u8> = Vec::new();
    needle.push(102);
    needle.push(105);
    needle.push(114);
    needle.push(101);
    needle.push(102);
    needle.push(111);
    needle.push(120);
    proof {
        assert(needle@ =~= firefox_needle());
    }
    has_subseq_ci_exec(identity.as_bytes(), needle.as_slice())
}

/// Display-order comparison of two snapshots.
fn info_le_exec(a: &PlayerInfo, b: &PlayerInfo) -> (r: bool)
    ensures
        r == info_le(a@, b@),
{
    lex_le_ci_exec(a.identity.as_str().as_bytes(), b.identity.as_str().as_bytes())
}

/// Inserting preserves the multiset, up to adding the element.
proof fn lemma_insert_to_multiset<A>(s: Seq<A>, pos: int, x: A)
    requires
        0 <= pos <= s.len(),
    ensures
        s.insert(pos, x).to_multiset() =~= s.to_multiset().insert(x),
{
    broadcast use vstd::seq_lib::group_seq_properties;

    let front = s.subrange(0, pos);
    let back = s.subrange(pos, s.len() as int);
    vstd::seq_lib::lemma_multiset_commutative(front.push(x), back);
    vstd::seq_lib::lemma_multiset_commutative(front, back);
    assert(s =~= front + back);
    assert(front.push(x).to_multiset() =~= front.to_multiset().insert(x));
}

/// Insertion sort by case-insensitive identity.
fn sort_by_identity_exec(v: Vec<PlayerInfo>) -> (r: Vec<PlayerInfo>)
    ensures
        sorted_by_identity(views_of(r@)),
        views_of(r@).to_multiset() == views_of(v@).to_multiset(),
{
    broadcast use vstd::seq_lib::group_seq_properties;

    let ghost orig = views_of(v@);
    let mut rest = v;
    let mut out: Vec<PlayerInfo> = Vec::new();
    while rest.len() > 0
        invariant
            sorted_by_identity(views_of(out@)),
            views_of(out@).to_multiset().add(views_of(rest@).to_multiset()) == orig.to_multiset(),
        decreases rest@.len(),
    {
        let ghost rest0 = views_of(rest@);
        let x = rest.remove(0);
        proof {
            assert(x@ == rest0[0]);
            assert(views_of(rest@) =~= rest0.remove(0));
            rest0.to_multiset_ensures();
            assert(rest0.remove(0).to_multiset() =~= rest0.to_multiset().remove(rest0[0]));
        }
        // find the insertion point
        let mut pos: usize = 0;
        let out_len = out.len();
        while pos < out_len && info_le_exec(&out[pos], &x)
            invariant
                out_len == out@.len(),
                pos <= out_len,
                forall|i: int| 0 <= i < pos ==> info_le(views_of(out@)[i], x@),
            decreases out_len - pos,
        {
            pos = pos + 1;
        }
        proof {
            let ov = views_of(out@);
            if pos < out@.len() {
                assert(!info_le(ov[pos as int], x@));
                lemma_lex_le_total(ident_sort_key(ov[pos as int]), ident_sort_key(x@));
            }
            // x@ comes before everything from pos on
            assert forall|j: int| pos <= j < ov.len() implies info_le(x@, ov[j]) by {
                if j > pos {
                    assert(info_le(ov[pos as int], ov[j]));
                    lemma_lex_le_trans(
                        ident_sort_key(x@),
                        ident_sort_key(ov[pos as int]),
                        ident_sort_key(ov[j]),
                    );
                }
            }
        }
        let ghost out_before = views_of(out@);
        out.insert(pos, x);
        proof {
            assert(views_of(out@) =~= out_before.insert(pos as int, x@));
            lemma_insert_to_multiset(out_before, pos as int, x@);
            let ov = views_of(out@);
            assert forall|i: int, j: int| 0 <= i < j < ov.len() implies info_le(ov[i], ov[j]) by {
                out_before.insert_ensures(pos as int, x@);
            }
            assert(views_of(out@).to_multiset().add(views_of(rest@).to_multiset())
                =~= orig.to_multiset());
        }
    }
    proof {
        assert(views_of(rest@).to_multiset().len() == 0);
        assert(views_of(out@).to_multiset() =~= orig.to_multiset());
    }
    out
}

/// Split the snapshots into firefox-identified entries and the rest,
/// keeping each side's order.
fn partition_firefox(infos: Vec<PlayerInfo>) -> (r: (Vec<PlayerInfo>, Vec<PlayerInfo>))
    ensures
        views_of(r.0@) == other_part(views_of(infos@)),
        views_of(r.1@) == firefox_part(views_of(infos@)),
{
    let ghost orig = views_of(infos@);
    let mut rest = infos;
    let mut others: Vec<PlayerInfo> = Vec::new();
    let mut firefox: Vec<PlayerInfo> = Vec::new();
    let ghost mut k: int = 0;
    proof {
        reveal(Seq::filter);
        assert(views_of(others@) =~= other_part(orig.take(0)));
        assert(views_of(firefox@) =~= firefox_part(orig.take(0)));
    }
    while rest.len() > 0
        invariant
            0 <= k <= orig.len(),
            views_of(rest@) =~= orig.skip(k),
            views_of(others@) == other_part(orig.take(k)),
            views_of(firefox@) == firefox_part(orig.take(k)),
        decreases rest@.len(),
    {
        let ghost rest0 = views_of(rest@);
        let x = rest.remove(0);
        proof {
            assert(x@ == rest0[0]);
            assert(views_of(rest@) =~= rest0.remove(0));
            assert(rest0.remove(0) =~= orig.skip(k + 1));
            assert(rest0[0] == orig.skip(k)[0]);
            assert(x@ == orig[k]);
            assert(orig.take(k + 1).drop_last() =~= orig.take(k));
            assert(orig.take(k + 1).last() == orig[k]);
        }
        let is_ff = is_firefox_identity(x.identity.as_str());
        let ghost others0 = views_of(others@);
        let ghost firefox0 = views_of(firefox@);
        if is_ff {
            firefox.push(x);
            proof {
                reveal(Seq::filter);
                assert(is_firefox_v(orig[k]));
                assert(views_of(firefox@) =~= firefox0.push(orig[k]));
                assert(firefox_part(orig.take(k + 1)) =~= firefox_part(orig.take(k)).push(
                    orig[k],
                ));
                assert(other_part(orig.take(k + 1)) =~= other_part(orig.take(k)));
            }
        } else {
            others.push(x);
            proof {
                reveal(Seq::filter);
                assert(!is_firefox_v(orig[k]));
                assert(views_of(others@) =~= others0.push(orig[k]));
                assert(other_part(orig.take(k + 1)) =~= other_part(orig.take(k)).push(orig[k]));
                assert(firefox_part(orig.take(k + 1)) =~= firefox_part(orig.take(k)));
            }
        }
        proof {
            k = k + 1;
        }
    }
    proof {
        assert(orig.take(k) =~= orig);
    }
    (others, firefox)
}

/// Remove and return the most relevant entry of a nonempty list.
fn select_best(firefox: Vec<PlayerInfo>) -> (r: PlayerInfo)
    requires
        firefox@.len() > 0,
    ensures
        r@ == best_firefox(views_of(firefox@)),
{
    let ff_len = firefox.len();
    let ghost ffv = views_of(firefox@);
    let mut bi: usize = 0;
    let mut i: usize = 1;
    proof {
        assert(ffv.take(1)[0] == ffv[0]);
    }
    while i < ff_len
        invariant
            ff_len == firefox@.len(),
            ffv == views_of(firefox@),
            1 <= i <= ff_len,
            bi < i,
            ffv[bi as int] == best_firefox(ffv.take(i as int)),
        decreases ff_len - i,
    {
        proof {
            assert(ffv.take(i + 1).drop_last() =~= ffv.take(i as int));
            assert(ffv.take(i + 1).last() == ffv[i as int]);
        }
        let pi = status_priority_exec(firefox[i].status);
        let pb = status_priority_exec(firefox[bi].status);
        if pi < pb {
            bi = i;
        }
        i = i + 1;
    }
    proof {
        assert(ffv.take(ff_len as int) =~= ffv);
    }
    let mut firefox = firefox;
    let best = firefox.remove(bi);
    best
}

/// Merge the per-session snapshots into the display list: collapse the
/// firefox-identified entries to the single most relevant one, keep
/// everything else, and sort by case-insensitive identity, ascending.
/// The result is exactly the merged list, reordered.
pub fn aggregate(infos: Vec<PlayerInfo>) -> (r: Vec<PlayerInfo>)
    ensures
        sorted_by_identity(views_of(r@)),
        views_of(r@).to_multiset() == merged_view(views_of(infos@)).to_multiset(),
{
    let ghost orig = views_of(infos@);
    let (mut others, firefox) = partition_firefox(infos);
    if firefox.len() > 0 {
        let ghost ffv = views_of(firefox@);
        let best = select_best(firefox);
        let ghost others1 = views_of(others@);
        others.push(best);
        proof {
            assert(views_of(others@) =~= others1.push(best_firefox(ffv)));
            assert(views_of(others@) =~= merged_view(orig));
        }
    } else {
        proof {
            assert(views_of(others@) =~= merged_view(orig));
        }
    }
    sort_by_identity_exec(others)
}

} // verus!
