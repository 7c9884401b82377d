//! Specification model of card piles: which card identities a pile holds
//! (as a multiset, for the conservation invariant), face-orientation
//! predicates, and the lemmas the state transitions are proved with.

use vstd::prelude::*;
use vstd::multiset::Multiset;
use vstd::seq_lib::group_to_multiset_ensures;
use vstd::seq_lib::lemma_multiset_commutative;

use crate::card::{Card, Rank, Suit};

verus! {

/// The identity of a card: its suit and rank, face orientation ignored.
pub open spec fn card_id(c: Card) -> (Suit, Rank) {
    (c.suit, c.rank)
}

/// The multiset of card identities a pile holds.
pub open spec fn pile_ids(p: Seq<Card>) -> Multiset<(Suit, Rank)> {
    p.map_values(|c: Card| card_id(c)).to_multiset()
}

/// The multiset of card identities a group of piles holds.
pub open spec fn piles_ids(s: Seq<Seq<Card>>) -> Multiset<(Suit, Rank)>
    decreases s.len(),
{
    if s.len() == 0 {
        Multiset::empty()
    } else {
        piles_ids(s.drop_last()).add(pile_ids(s.last()))
    }
}

/// Every card of the pile lies face-up.
pub open spec fn all_face_up(p: Seq<Card>) -> bool {
    forall|i: int| 0 <= i < p.len() ==> (#[trigger] p[i]).face_up
}

/// Every card of the pile lies face-down.
pub open spec fn all_face_down(p: Seq<Card>) -> bool {
    forall|i: int| 0 <= i < p.len() ==> !(#[trigger] p[i]).face_up
}

/// The face-up cards of the pile form a contiguous top section: every card
/// above a face-up card is face-up too.
pub open spec fn face_up_suffix(p: Seq<Card>) -> bool {
    forall|i: int, j: int|
        0 <= i <= j < p.len() && (#[trigger] p[i]).face_up ==> (#[trigger] p[j]).face_up
}

/// A well-formed foundation pile: all face-up, one suit throughout,
/// ranks ascending from Ace without gaps.
pub open spec fn foundation_wf(p: Seq<Card>) -> bool {
    forall|i: int| 0 <= i < p.len() ==> (#[trigger] p[i]).face_up
        && p[i].rank.spec_value() == i + 1
        && p[i].suit == p[0].suit
}

/// The same cards, all turned face-up.
pub open spec fn turned_up(p: Seq<Card>) -> Seq<Card> {
    p.map_values(|c: Card| Card { face_up: true, ..c })
}

/// The same cards, all turned face-down.
pub open spec fn turned_down(p: Seq<Card>) -> Seq<Card> {
    p.map_values(|c: Card| Card { face_up: false, ..c })
}

/// The cards from `idx` to the top are all face-up and form a descending
/// run of alternating colors, each card placeable on the one below it.
pub open spec fn liftable_run(p: Seq<Card>, idx: int) -> bool {
    liftable_prefix(p, idx, p.len() as int)
}

/// The part of a liftable-run check done after scanning `idx..j`.
pub open spec fn liftable_prefix(p: Seq<Card>, idx: int, j: int) -> bool {
    &&& forall|t: int| idx <= t < j ==> (#[trigger] p[t]).face_up
    &&& forall|t: int| idx <= t < j - 1 ==> (#[trigger] p[t + 1]).spec_can_place_on_tableau(p[t])
}

/// A bottom part of a pile whose face-up cards form a top section keeps
/// that shape.
pub proof fn lemma_suffix_take(p: Seq<Card>, k: int)
    requires
        face_up_suffix(p),
        0 <= k <= p.len(),
    ensures
        face_up_suffix(p.take(k)),
{
    let p2 = p.take(k);
    assert forall|i: int, j: int|
        0 <= i <= j < p2.len() && (#[trigger] p2[i]).face_up
            implies (#[trigger] p2[j]).face_up by {
        assert(p2[i] == p[i] && p2[j] == p[j]);
    }
}

/// Landing face-up cards on top of a pile keeps its face-up cards a top
/// section.
pub proof fn lemma_suffix_append_face_up(p: Seq<Card>, r: Seq<Card>)
    requires
        face_up_suffix(p),
        all_face_up(r),
    ensures
        face_up_suffix(p + r),
{
    let p2 = p + r;
    assert forall|i: int, j: int|
        0 <= i <= j < p2.len() && (#[trigger] p2[i]).face_up
            implies (#[trigger] p2[j]).face_up by {
        if j < p.len() {
            assert(p2[i] == p[i] && p2[j] == p[j]);
        } else {
            assert(p2[j] == r[j - p.len()]);
        }
    }
}

/// Removing the top card keeps a foundation well-formed.
pub proof fn lemma_foundation_drop(p: Seq<Card>)
    requires
        foundation_wf(p),
        p.len() > 0,
    ensures
        foundation_wf(p.drop_last()),
{
    let p2 = p.drop_last();
    assert forall|i: int| 0 <= i < p2.len()
        implies (#[trigger] p2[i]).face_up && p2[i].rank.spec_value() == i + 1 && p2[i].suit
            == p2[0].suit by {
        assert(p2[i] == p[i]);
        assert(p2[0] == p[0]);
    }
}

/// A face-up card that may rest on a foundation keeps it well-formed.
pub proof fn lemma_foundation_push(p: Seq<Card>, c: Card)
    requires
        foundation_wf(p),
        c.face_up,
        c.spec_can_place_on_foundation(
            if p.len() == 0 {
                None
            } else {
                Some(p.last())
            },
        ),
    ensures
        foundation_wf(p.push(c)),
{
    let p2 = p.push(c);
    assert forall|i: int| 0 <= i < p2.len()
        implies (#[trigger] p2[i]).face_up && p2[i].rank.spec_value() == i + 1 && p2[i].suit
            == p2[0].suit by {
        if i < p.len() {
            assert(p2[i] == p[i]);
            assert(p2[0] == p[0]);
        } else {
            assert(p2[i] == c);
            if p.len() == 0 {
                assert(c.rank.spec_value() == 1);
            } else {
                assert(p.last() == p[p.len() - 1]);
                assert(p2[0] == p[0]);
            }
        }
    }
}

/// Scanning one more card extends a liftable-prefix check by exactly the
/// new card's face and placement conditions.
pub proof fn lemma_liftable_prefix_step(p: Seq<Card>, idx: int, j: int)
    requires
        0 <= idx <= j < p.len(),
    ensures
        liftable_prefix(p, idx, j + 1) <==> (liftable_prefix(p, idx, j) && p[j].face_up && (j
            > idx ==> p[j].spec_can_place_on_tableau(p[j - 1]))),
{
    if liftable_prefix(p, idx, j) && p[j].face_up && (j > idx
        ==> p[j].spec_can_place_on_tableau(p[j - 1])) {
        assert forall|t: int| idx <= t < j + 1 implies (#[trigger] p[t]).face_up by {
            if t < j {
                assert(liftable_prefix(p, idx, j));
            }
        }
        assert forall|t: int| idx <= t < j implies (#[trigger] p[t + 1])
            .spec_can_place_on_tableau(p[t]) by {
            if t < j - 1 {
                assert(liftable_prefix(p, idx, j));
            } else {
                assert(t == j - 1);
            }
        }
        assert(liftable_prefix(p, idx, j + 1));
    }
    if liftable_prefix(p, idx, j + 1) {
        assert(p[j].face_up);
        if j > idx {
            assert(idx <= j - 1 < (j + 1) - 1);
            assert(p[(j - 1) + 1].spec_can_place_on_tableau(p[j - 1]));
        }
        assert(liftable_prefix(p, idx, j));
    }
}

/// An empty pile holds no card identities.
pub proof fn lemma_pile_ids_empty()
    ensures
        pile_ids(Seq::<Card>::empty()) == Multiset::<(Suit, Rank)>::empty(),
{
    broadcast use group_to_multiset_ensures;

    let mapped = Seq::<Card>::empty().map_values(|c: Card| card_id(c));
    assert(mapped =~= Seq::<(Suit, Rank)>::empty());
    assert forall|x: (Suit, Rank)| mapped.to_multiset().count(x) == 0 by {
        if mapped.to_multiset().count(x) > 0 {
            assert(mapped.contains(x));
        }
    }
    assert(mapped.to_multiset() =~= Multiset::<(Suit, Rank)>::empty());
}

/// Pushing a card adds exactly its identity.
pub proof fn lemma_pile_ids_push(p: Seq<Card>, c: Card)
    ensures
        pile_ids(p.push(c)) == pile_ids(p).insert(card_id(c)),
{
    broadcast use group_to_multiset_ensures;

    let f = |c: Card| card_id(c);
    assert(p.push(c).map_values(f) =~= p.map_values(f).push(f(c)));
}

/// Dropping the top card removes exactly its identity.
pub proof fn lemma_pile_ids_drop_last(p: Seq<Card>)
    requires
        p.len() > 0,
    ensures
        pile_ids(p) == pile_ids(p.drop_last()).insert(card_id(p.last())),
{
    assert(p =~= p.drop_last().push(p.last()));
    lemma_pile_ids_push(p.drop_last(), p.last());
}

/// Concatenation of piles adds their identity multisets.
pub proof fn lemma_pile_ids_concat(a: Seq<Card>, b: Seq<Card>)
    ensures
        pile_ids(a + b) == pile_ids(a).add(pile_ids(b)),
{
    let f = |c: Card| card_id(c);
    assert((a + b).map_values(f) =~= a.map_values(f) + b.map_values(f));
    lemma_multiset_commutative(a.map_values(f), b.map_values(f));
}

/// Splitting a pile at `k` splits its identity multiset.
pub proof fn lemma_pile_ids_split(p: Seq<Card>, k: int)
    requires
        0 <= k <= p.len(),
    ensures
        pile_ids(p) == pile_ids(p.take(k)).add(pile_ids(p.skip(k))),
{
    assert(p =~= p.take(k) + p.skip(k));
    lemma_pile_ids_concat(p.take(k), p.skip(k));
}

/// Replacing a card by one of the same identity keeps the multiset.
pub proof fn lemma_pile_ids_update(p: Seq<Card>, i: int, c: Card)
    requires
        0 <= i < p.len(),
        card_id(c) == card_id(p[i]),
    ensures
        pile_ids(p.update(i, c)) == pile_ids(p),
{
    let f = |c: Card| card_id(c);
    assert(p.update(i, c).map_values(f) =~= p.map_values(f));
}

/// Turning cards over does not change their identities.
pub proof fn lemma_pile_ids_turned(p: Seq<Card>)
    ensures
        pile_ids(turned_up(p)) == pile_ids(p),
        pile_ids(turned_down(p)) == pile_ids(p),
{
    let f = |c: Card| card_id(c);
    assert(turned_up(p).map_values(f) =~= p.map_values(f));
    assert(turned_down(p).map_values(f) =~= p.map_values(f));
}

/// Reversing a pile does not change its identity multiset.
pub proof fn lemma_pile_ids_reverse(p: Seq<Card>)
    ensures
        pile_ids(p.reverse()) == pile_ids(p),
{
    let f = |c: Card| card_id(c);
    assert(p.reverse().map_values(f) =~= p.map_values(f).reverse());
    p.map_values(f).lemma_reverse_to_multiset();
}

/// Appending a pile to a group adds its identities.
pub proof fn lemma_piles_ids_push(s: Seq<Seq<Card>>, p: Seq<Card>)
    ensures
        piles_ids(s.push(p)) == piles_ids(s).add(pile_ids(p)),
{
    assert(s.push(p).drop_last() =~= s);
    assert(s.push(p).last() == p);
}

/// Replacing one pile of a group exchanges exactly its identities.
pub proof fn lemma_piles_ids_update(s: Seq<Seq<Card>>, i: int, p: Seq<Card>)
    requires
        0 <= i < s.len(),
    ensures
        piles_ids(s.update(i, p)).add(pile_ids(s[i])) == piles_ids(s).add(pile_ids(p)),
    decreases s.len(),
{
    broadcast use vstd::multiset::group_multiset_axioms;

    if i == s.len() - 1 {
        assert(s.update(i, p).drop_last() =~= s.drop_last());
        assert(s.update(i, p).last() == p);
        assert(piles_ids(s.update(i, p)).add(pile_ids(s[i]))
            =~= piles_ids(s).add(pile_ids(p)));
    } else {
        let t = s.drop_last();
        let l = s.last();
        assert(s.update(i, p).drop_last() =~= t.update(i, p));
        assert(s.update(i, p).last() == l);
        assert(piles_ids(s.update(i, p)) == piles_ids(t.update(i, p)).add(pile_ids(l)));
        assert(piles_ids(s) == piles_ids(t).add(pile_ids(l)));
        lemma_piles_ids_update(t, i, p);
        assert(t[i] == s[i]);
        assert forall|x: (Suit, Rank)|
            piles_ids(s.update(i, p)).add(pile_ids(s[i])).count(x)
                == piles_ids(s).add(pile_ids(p)).count(x) by {
            assert(piles_ids(t.update(i, p)).add(pile_ids(t[i])).count(x)
                == piles_ids(t).add(pile_ids(p)).count(x));
        }
        assert(piles_ids(s.update(i, p)).add(pile_ids(s[i]))
            =~= piles_ids(s).add(pile_ids(p)));
    }
}

/// A group of empty piles holds no card identities.
pub proof fn lemma_piles_ids_all_empty(s: Seq<Seq<Card>>)
    requires
        forall|i: int| 0 <= i < s.len() ==> (#[trigger] s[i]).len() == 0,
    ensures
        piles_ids(s) == Multiset::<(Suit, Rank)>::empty(),
    decreases s.len(),
{
    broadcast use vstd::multiset::group_multiset_axioms;

    if s.len() > 0 {
        lemma_piles_ids_all_empty(s.drop_last());
        assert(s.last() =~= Seq::<Card>::empty());
        lemma_pile_ids_empty();
        assert(piles_ids(s) =~= Multiset::<(Suit, Rank)>::empty());
    }
}

/// A pile whose cards all lie face-down stays that way under any
/// permutation: face orientation is part of the card value.
pub proof fn lemma_face_down_from_multiset(a: Seq<Card>, b: Seq<Card>)
    requires
        a.to_multiset() == b.to_multiset(),
        all_face_down(a),
    ensures
        all_face_down(b),
{
    broadcast use group_to_multiset_ensures;

    assert forall|i: int| 0 <= i < b.len() implies !(#[trigger] b[i]).face_up by {
        assert(b.contains(b[i]));
        assert(b.to_multiset().count(b[i]) > 0);
        assert(a.contains(b[i]));
        let j = choose|j: int| 0 <= j < a.len() && a[j] == b[i];
        assert(!a[j].face_up);
    }
}

} // verus!
