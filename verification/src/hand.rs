use vstd::prelude::*;

use crate::card::{order_key, Card, Suit};

verus! {

/// `c` placed into the sorted sequence `s` after every card that sorts at or before it.
pub open spec fn insert_sorted(s: Seq<Card>, c: Card) -> Seq<Card>
    decreases s.len(),
{
    if s.len() == 0 {
        seq![c]
    } else if order_key(s.last()) <= order_key(c) {
        s.push(c)
    } else {
        insert_sorted(s.drop_last(), c).push(s.last())
    }
}

/// The stable sort of `s` by `order_key`: cards of equal key keep their order.
pub open spec fn sorted_hand(s: Seq<Card>) -> Seq<Card>
    decreases s.len(),
{
    if s.len() == 0 {
        s
    } else {
        insert_sorted(sorted_hand(s.drop_last()), s.last())
    }
}

/// The keys of `s` never decrease.
pub open spec fn is_sorted_hand(s: Seq<Card>) -> bool {
    forall|i: int, j: int| 0 <= i <= j < s.len() ==> order_key(#[trigger] s[i]) <= order_key(#[trigger] s[j])
}

/// The face-down cards of `s` in their order, then the face-up cards in theirs.
pub open spec fn face_down_first(s: Seq<Card>) -> Seq<Card> {
    s.filter(|c: Card| !c.face_up) + s.filter(|c: Card| c.face_up)
}

/// The card `c` with its suit replaced by `suit` when it is a joker.
pub open spec fn joker_as(c: Card, suit: Suit) -> Card {
    if c.is_joker {
        Card { suit: suit, ..c }
    } else {
        c
    }
}

/// Inserting into a sorted sequence keeps the cards and keeps it sorted.
pub proof fn lemma_insert_sorted(s: Seq<Card>, c: Card)
    requires
        is_sorted_hand(s),
    ensures
        is_sorted_hand(insert_sorted(s, c)),
        insert_sorted(s, c).to_multiset() == s.to_multiset().insert(c),
        insert_sorted(s, c).len() == s.len() + 1,
    decreases s.len(),
{
    broadcast use vstd::seq_lib::group_to_multiset_ensures;
    if s.len() == 0 {
        assert(seq![c] == Seq::<Card>::empty().push(c));
    } else if order_key(s.last()) <= order_key(c) {
    } else {
        let t = s.drop_last();
        assert(is_sorted_hand(t));
        lemma_insert_sorted(t, c);
        let r = insert_sorted(t, c);
        assert(s == t.push(s.last()));
        assert forall|i: int| 0 <= i < r.len() implies order_key(#[trigger] r[i]) <= order_key(s.last()) by {
            assert(r.to_multiset().count(r[i]) > 0);
            if r[i] != c {
                assert(t.to_multiset().count(r[i]) > 0);
                assert(t.contains(r[i]));
            }
        }
    }
}

/// Sorting keeps the cards and yields a sorted sequence of the same length.
pub proof fn lemma_sorted_hand(s: Seq<Card>)
    ensures
        is_sorted_hand(sorted_hand(s)),
        sorted_hand(s).to_multiset() == s.to_multiset(),
        sorted_hand(s).len() == s.len(),
    decreases s.len(),
{
    broadcast use vstd::seq_lib::group_to_multiset_ensures;
    if s.len() > 0 {
        lemma_sorted_hand(s.drop_last());
        lemma_insert_sorted(sorted_hand(s.drop_last()), s.last());
        assert(s == s.drop_last().push(s.last()));
    }
}

proof fn lemma_insert_step(s: Seq<Card>, p: int, c: Card)
    requires
        0 < p <= s.len(),
        order_key(s[p - 1]) > order_key(c),
    ensures
        insert_sorted(s.take(p), c) + s.skip(p) == insert_sorted(s.take(p - 1), c) + s.skip(p - 1),
{
    assert(s.take(p).drop_last() == s.take(p - 1));
    assert(s.take(p).last() == s[p - 1]);
    assert(insert_sorted(s.take(p), c) == insert_sorted(s.take(p - 1), c).push(s[p - 1]));
    assert(s.skip(p - 1) == seq![s[p - 1]] + s.skip(p));
}

/// Whether the keys of `s` strictly increase: sorted, with no two cards in the same place.
pub open spec fn is_strictly_sorted(s: Seq<Card>) -> bool {
    forall|i: int, j: int| 0 <= i < j < s.len() ==> order_key(#[trigger] s[i]) < order_key(#[trigger] s[j])
}

/// Sorting a sorted sequence leaves it as it is.
pub proof fn lemma_sorted_fixed(s: Seq<Card>)
    requires
        is_sorted_hand(s),
    ensures
        sorted_hand(s) == s,
    decreases s.len(),
{
    if s.len() > 0 {
        let s0 = s.drop_last();
        assert(is_sorted_hand(s0));
        lemma_sorted_fixed(s0);
        if s0.len() > 0 {
            assert(order_key(s0.last()) <= order_key(s.last()));
        }
        assert(s0.push(s.last()) == s);
    }
}

/// Taking a card out of a strictly sorted sequence and inserting it again gives the
/// sequence back.
pub proof fn lemma_insert_back(s: Seq<Card>, i: int)
    requires
        is_strictly_sorted(s),
        0 <= i < s.len(),
    ensures
        insert_sorted(s.remove(i), s[i]) == s,
    decreases s.len(),
{
    let r = s.remove(i);
    let x = s[i];
    if r.len() == 0 {
        assert(s == seq![x]);
    } else if i == s.len() - 1 {
        assert(r == s.drop_last());
        assert(order_key(r.last()) < order_key(x));
        assert(r.push(x) == s);
    } else {
        assert(r.last() == s.last());
        assert(order_key(x) < order_key(s.last()));
        let s0 = s.drop_last();
        assert(is_strictly_sorted(s0));
        lemma_insert_back(s0, i);
        assert(r.drop_last() == s0.remove(i));
        assert(s0[i] == x);
        assert(s0.push(s.last()) == s);
    }
}

/// Applying the same map to two orderings of the same cards gives two orderings of
/// the same mapped cards.
pub proof fn lemma_map_permutation<B>(a: Seq<Card>, b: Seq<Card>, f: spec_fn(Card) -> B)
    requires
        a.to_multiset() == b.to_multiset(),
    ensures
        a.map_values(f).to_multiset() == b.map_values(f).to_multiset(),
    decreases a.len(),
{
    broadcast use vstd::seq_lib::group_to_multiset_ensures;
    assert(a.len() == a.to_multiset().len());
    assert(b.len() == b.to_multiset().len());
    if a.len() > 0 {
        let x = a.last();
        let a0 = a.drop_last();
        assert(a == a0.push(x));
        assert(a.to_multiset().count(x) > 0);
        assert(b.contains(x));
        let i = choose|i: int| 0 <= i < b.len() && b[i] == x;
        let b0 = b.remove(i);
        assert(b0.to_multiset() == b.to_multiset().remove(x));
        assert(a0.to_multiset() == a.to_multiset().remove(x));
        lemma_map_permutation(a0, b0, f);
        assert(a.map_values(f) == a0.map_values(f).push(f(x)));
        assert(b0.map_values(f) == b.map_values(f).remove(i));
        assert(b.map_values(f)[i] == f(x));
        assert(b0.map_values(f).to_multiset() == b.map_values(f).to_multiset().remove(f(x)));
        assert(b.map_values(f).to_multiset().count(f(x)) > 0) by {
            assert(b.map_values(f).contains(f(x)));
        }
    } else {
        assert(a.map_values(f) == Seq::<B>::empty());
        assert(b.map_values(f) == Seq::<B>::empty());
    }
}

/// The card's sort key, computed without overflow.
pub(crate) fn key_of(c: &Card) -> (k: u16)
    ensures
        k == order_key(*c),
{
    let offset: u16 = match c.suit {
        Suit::Club => 0,
        Suit::Diamond => 20,
        Suit::Heart => 40,
        Suit::Spade => 60,
        Suit::Joker => 80,
    };
    c.rank as u16 + offset
}

/// Inserts `c` into `r` as `insert_sorted` does.
fn insert_card_sorted(r: &mut Vec<Card>, c: Card)
    ensures
        final(r)@ == insert_sorted(old(r)@, c),
{
    let ghost s = r@;
    let k = key_of(&c);
    let mut pos = r.len();
    assert(s.take(pos as int) == s);
    assert(s.skip(pos as int) == Seq::<Card>::empty());
    while pos > 0 && key_of(&r[pos - 1]) > k
        invariant
            r@ == s,
            0 <= pos <= s.len(),
            k == order_key(c),
            insert_sorted(s, c) == insert_sorted(s.take(pos as int), c) + s.skip(pos as int),
        decreases pos,
    {
        proof {
            lemma_insert_step(s, pos as int, c);
        }
        pos = pos - 1;
    }
    proof {
        let t = s.take(pos as int);
        if pos > 0 {
            assert(t.last() == s[pos - 1]);
            assert(insert_sorted(t, c) == t.push(c));
        } else {
            assert(insert_sorted(t, c) == seq![c]);
        }
        assert(insert_sorted(t, c) + s.skip(pos as int) == s.insert(pos as int, c));
    }
    r.insert(pos, c);
}

/// Sorts the cards stably by their place in a hand.
pub fn sort_cards(v: &mut Vec<Card>)
    ensures
        final(v)@ == sorted_hand(old(v)@),
{
    let ghost s = v@;
    let mut r: Vec<Card> = Vec::new();
    let n = v.len();
    for i in 0..n
        invariant
            v@ == s,
            n == s.len(),
            r@ == sorted_hand(s.take(i as int)),
    {
        proof {
            assert(s.take(i + 1).drop_last() == s.take(i as int));
            assert(s.take(i + 1).last() == s[i as int]);
        }
        let c = v[i];
        insert_card_sorted(&mut r, c);
    }
    proof {
        assert(s.take(n as int) == s);
    }
    *v = r;
}

/// Reorders the cards stably so that the face-down ones come first.
pub fn put_face_down_first(v: &mut Vec<Card>)
    ensures
        final(v)@ == face_down_first(old(v)@),
{
    let ghost s = v@;
    let mut down: Vec<Card> = Vec::new();
    let mut up: Vec<Card> = Vec::new();
    let n = v.len();
    for i in 0..n
        invariant
            v@ == s,
            n == s.len(),
            down@ == s.take(i as int).filter(|c: Card| !c.face_up),
            up@ == s.take(i as int).filter(|c: Card| c.face_up),
    {
        proof {
            assert(s.take(i + 1) == s.take(i as int).push(s[i as int]));
            s.take(i as int).lemma_filter_push(s[i as int], |c: Card| !c.face_up);
            s.take(i as int).lemma_filter_push(s[i as int], |c: Card| c.face_up);
        }
        let c = v[i];
        if c.face_up {
            up.push(c);
        } else {
            down.push(c);
        }
    }
    proof {
        assert(s.take(n as int) == s);
    }
    down.append(&mut up);
    *v = down;
}

} // verus!
