//! An owning singly-linked list with constant-time push and pop at the head,
//! a draining iterator that owns the list, a reference iterator that borrows
//! it, and a few functions on lists of game scores built on top of them.

use vstd::prelude::*;

verus! {

/// A list: either no node (the empty list) or the node at its head.
pub struct List<T> {
    pub head: Option<Box<Node<T>>>,
}

/// One element and the rest of the list, which the node owns.
pub struct Node<T> {
    pub val: T,
    pub next: List<T>,
}

impl<T> List<T> {
    /// The elements from the head to the end.
    pub open spec fn elements(self) -> Seq<T>
        decreases self,
    {
        match self.head {
            None => Seq::empty(),
            Some(node) => seq![node.val] + node.next.elements(),
        }
    }
}

impl<T> View for List<T> {
    type V = Seq<T>;

    open spec fn view(&self) -> Seq<T> {
        self.elements()
    }
}

/// The elements after `element` is pushed onto a list holding `s`.
pub open spec fn pushed<T>(s: Seq<T>, element: T) -> Seq<T> {
    seq![element] + s
}

/// What one pop does to a list holding `s`: the elements left, and the value
/// handed back.
pub open spec fn popped<T>(s: Seq<T>) -> (Seq<T>, Option<T>) {
    if s.len() == 0 {
        (s, None)
    } else {
        (s.drop_first(), Some(s[0]))
    }
}

impl<T> List<T> {
    /// The list with no elements.
    pub fn empty() -> (r: Self)
        ensures
            r@ == Seq::<T>::empty(),
    {
        List { head: None }
    }

    /// Whether the list holds no element.
    pub fn is_empty(&self) -> (r: bool)
        ensures
            r == (self@.len() == 0),
    {
        self.head.is_none()
    }

    /// Puts `element` in front of the list.
    pub fn push(&mut self, element: T)
        ensures
            final(self)@ == pushed(old(self)@, element),
    {
        let previous_head = self.head.take();
        let new_head = Node { val: element, next: List { head: previous_head } };
        self.head = Some(Box::new(new_head));
    }

    /// Removes the front element and hands it back; on the empty list hands
    /// back `None` and leaves the list as it is.
    pub fn pop(&mut self) -> (r: Option<T>)
        ensures
            (final(self)@, r) == popped(old(self)@),
    {
        let previous_head = self.head.take();
        match previous_head {
            Some(boxed) => {
                let node = *boxed;
                self.head = node.next.head;
                Some(node.val)
            },
            None => None,
        }
    }
}

impl<T> List<T> {
    /// Hands the list over to a draining iterator, which yields its elements
    /// front first by popping them.
    pub fn into_iter(self) -> (r: DrainingIterator<T>)
        ensures
            r@ == self@,
    {
        DrainingIterator(self)
    }

    /// A reference iterator over the whole list; the list is only borrowed,
    /// so it can be walked any number of times.
    pub fn iter(&self) -> (r: ReferenceIter<'_, T>)
        ensures
            r@ == self@,
    {
        ReferenceIter { current: self }
    }
}

/// An iterator that owns a list and pops an element at each step.
pub struct DrainingIterator<T>(pub List<T>);

impl<T> View for DrainingIterator<T> {
    type V = Seq<T>;

    /// The elements not yet yielded.
    open spec fn view(&self) -> Seq<T> {
        self.0@
    }
}

impl<T> DrainingIterator<T> {
    /// The next element, or `None` once the list is drained, and on every
    /// call after that.
    pub fn next(&mut self) -> (r: Option<T>)
        ensures
            (final(self)@, r) == popped(old(self)@),
    {
        self.0.pop()
    }

    /// Drains the rest of the list into a vector, in the order in which
    /// `next` would yield the elements.
    pub fn collect(self) -> (r: Vec<T>)
        ensures
            r@ == self@,
    {
        let mut it = self;
        let mut items: Vec<T> = Vec::new();
        loop
            invariant
                self@ == items@ + it@,
            ensures
                self@ == items@,
            decreases it@.len(),
        {
            match it.next() {
                Some(item) => {
                    items.push(item);
                },
                None => {
                    assert(self@ =~= items@);
                    break;
                },
            }
        }
        items
    }
}

/// An iterator over references to the elements of a borrowed list.
pub struct ReferenceIter<'a, T> {
    pub current: &'a List<T>,
}

impl<'a, T> View for ReferenceIter<'a, T> {
    type V = Seq<T>;

    /// The elements not yet yielded.
    open spec fn view(&self) -> Seq<T> {
        self.current@
    }
}

/// The value behind an optional reference.
pub open spec fn copied<T>(r: Option<&T>) -> Option<T> {
    match r {
        Some(v) => Some(*v),
        None => None,
    }
}

impl<'a, T> ReferenceIter<'a, T> {
    /// A reference to the next element, or `None` at the end of the list, and
    /// on every call after that.
    pub fn next(&mut self) -> (r: Option<&'a T>)
        ensures
            (final(self)@, copied(r)) == popped(old(self)@),
    {
        match &self.current.head {
            Some(node) => {
                self.current = &node.next;
                Some(&node.val)
            },
            None => None,
        }
    }
}

/// The elements after each of `es` is pushed in turn, first to last, onto a
/// list holding `s`.
pub open spec fn pushed_all<T>(s: Seq<T>, es: Seq<T>) -> Seq<T>
    decreases es.len(),
{
    if es.len() == 0 {
        s
    } else {
        pushed(pushed_all(s, es.drop_last()), es.last())
    }
}

/// The values handed back by `n` pops in a row on a list holding `s` (or by
/// `n` steps of an iterator whose remaining elements are `s`).
pub open spec fn pops<T>(s: Seq<T>, n: nat) -> Seq<Option<T>>
    decreases n,
{
    if n == 0 {
        Seq::empty()
    } else {
        seq![popped(s).1] + pops(popped(s).0, (n - 1) as nat)
    }
}

/// The elements left after `n` pops in a row on a list holding `s`.
pub open spec fn after_pops<T>(s: Seq<T>, n: nat) -> Seq<T>
    decreases n,
{
    if n == 0 {
        s
    } else {
        after_pops(popped(s).0, (n - 1) as nat)
    }
}

/// Pushing `es` in turn puts them in front of `s` in reverse order.
pub proof fn lemma_pushed_all<T>(s: Seq<T>, es: Seq<T>)
    ensures
        pushed_all(s, es) == es.reverse() + s,
    decreases es.len(),
{
    if es.len() > 0 {
        lemma_pushed_all(s, es.drop_last());
        assert(es.reverse() =~= seq![es.last()] + es.drop_last().reverse());
        assert(pushed_all(s, es) =~= es.reverse() + s);
    }
}

/// Popping `n` times yields the elements front first, as many as there are,
/// then `None` on every further pop; the list is left with what the pops did
/// not reach.
pub proof fn lemma_pops<T>(s: Seq<T>, n: nat)
    ensures
        pops(s, n).len() == n,
        forall|i: int| 0 <= i < n ==> #[trigger] pops(s, n)[i] == (if i < s.len() {
            Some(s[i])
        } else {
            None
        }),
        after_pops(s, n) == (if n <= s.len() {
            s.skip(n as int)
        } else {
            Seq::empty()
        }),
    decreases n,
{
    if n > 0 {
        let rest = popped(s).0;
        lemma_pops(rest, (n - 1) as nat);
        assert forall|i: int| 0 <= i < n implies #[trigger] pops(s, n)[i] == (if i < s.len() {
            Some(s[i])
        } else {
            None
        }) by {
            if i > 0 {
                assert(pops(s, n)[i] == pops(rest, (n - 1) as nat)[i - 1]);
                if i < s.len() {
                    assert(rest[i - 1] == s[i]);
                }
            }
        }
        if 0 < n <= s.len() {
            assert(rest.skip(n - 1) =~= s.skip(n as int));
        }
    }
}

/// Last in, first out: after pushing `e1, ..., en` onto an empty list, `n`
/// pops yield `en, ..., e1`.
pub proof fn lemma_pop_reverses_push<T>(es: Seq<T>)
    ensures
        pops(pushed_all(Seq::empty(), es), es.len()) == es.reverse().map_values(|e: T| Some(e)),
{
    let s = pushed_all(Seq::<T>::empty(), es);
    lemma_pushed_all(Seq::<T>::empty(), es);
    assert(s =~= es.reverse());
    lemma_pops(s, es.len());
    assert(pops(s, es.len()) =~= es.reverse().map_values(|e: T| Some(e)));
}

/// A list built by pushing `es` onto an empty list and then popped `k` times
/// is empty exactly when no element was pushed or every pushed element has
/// been popped.
pub proof fn lemma_empty_exactly_when_all_popped<T>(es: Seq<T>, k: nat)
    ensures
        (after_pops(pushed_all(Seq::empty(), es), k).len() == 0) == (k >= es.len()),
        (pushed_all(Seq::empty(), es).len() == 0) == (es.len() == 0),
{
    let s = pushed_all(Seq::<T>::empty(), es);
    lemma_pushed_all(Seq::<T>::empty(), es);
    lemma_pops(s, k);
}

/// Once a list is empty, every further pop yields `None` and leaves it empty.
pub proof fn lemma_drained_stays_empty<T>(n: nat)
    ensures
        pops(Seq::<T>::empty(), n) == Seq::new(n, |i: int| None::<T>),
        after_pops(Seq::<T>::empty(), n) == Seq::<T>::empty(),
{
    lemma_pops(Seq::<T>::empty(), n);
    assert(pops(Seq::<T>::empty(), n) =~= Seq::new(n, |i: int| None::<T>));
}

/// Draining a list yields its elements front first, which is the order in
/// which pops hand them back; `DrainingIterator::collect` returns exactly
/// that sequence.
pub proof fn lemma_drain_is_pop_order<T>(list: List<T>)
    ensures
        pops(list@, list@.len()) == list@.map_values(|e: T| Some(e)),
        after_pops(list@, list@.len()) == Seq::<T>::empty(),
{
    lemma_pops(list@, list@.len());
    assert(pops(list@, list@.len()) =~= list@.map_values(|e: T| Some(e)));
    assert(list@.skip(list@.len() as int) =~= Seq::<T>::empty());
}

/// Two reference iterators made from the same unchanged list yield the same
/// values, step for step: the list's elements front first, then `None`.
pub proof fn lemma_reference_passes_agree<'a, T>(
    list: &'a List<T>,
    first: ReferenceIter<'a, T>,
    second: ReferenceIter<'a, T>,
    n: nat,
)
    requires
        first@ == list@,
        second@ == list@,
    ensures
        pops(first@, n) == pops(second@, n),
        forall|i: int| 0 <= i < n ==> #[trigger] pops(first@, n)[i] == (if i < list@.len() {
            Some(list@[i])
        } else {
            None
        }),
{
    lemma_pops(list@, n);
}

/// The points of the home and away teams in one game, or summed over games.
#[derive(Debug, PartialEq, Eq, Structural)]
pub struct Score {
    pub home_points: u32,
    pub away_points: u32,
}

/// The side with more points, or a draw.
#[derive(Debug, PartialEq, Eq, Structural)]
pub enum Team {
    Draw,
    Home,
    Away,
}

/// The home points summed over `games`.
pub open spec fn home_sum(games: Seq<Score>) -> int
    decreases games.len(),
{
    if games.len() == 0 {
        0
    } else {
        games[0].home_points + home_sum(games.drop_first())
    }
}

/// The away points summed over `games`.
pub open spec fn away_sum(games: Seq<Score>) -> int
    decreases games.len(),
{
    if games.len() == 0 {
        0
    } else {
        games[0].away_points + away_sum(games.drop_first())
    }
}

/// Both sums fit in the `u32` fields of a `Score`.
pub open spec fn sums_fit(games: Seq<Score>) -> bool {
    home_sum(games) <= u32::MAX && away_sum(games) <= u32::MAX
}

/// Sums of point counts are never negative.
proof fn lemma_sums_nonnegative(games: Seq<Score>)
    ensures
        home_sum(games) >= 0,
        away_sum(games) >= 0,
    decreases games.len(),
{
    if games.len() > 0 {
        lemma_sums_nonnegative(games.drop_first());
    }
}

/// The total score over all the games in the list.
pub fn total_score(results: &List<Score>) -> (r: Score)
    requires
        sums_fit(results@),
    ensures
        r.home_points == home_sum(results@),
        r.away_points == away_sum(results@),
{
    let mut home_points: u32 = 0;
    let mut away_points: u32 = 0;
    let mut it = results.iter();
    loop
        invariant
            home_points + home_sum(it@) == home_sum(results@),
            away_points + away_sum(it@) == away_sum(results@),
            sums_fit(results@),
        ensures
            home_points == home_sum(results@),
            away_points == away_sum(results@),
        decreases it@.len(),
    {
        match it.next() {
            Some(result) => {
                proof {
                    lemma_sums_nonnegative(it@);
                }
                home_points = home_points + result.home_points;
                away_points = away_points + result.away_points;
            },
            None => {
                break;
            },
        }
    }
    Score { home_points, away_points }
}

/// The team with the most points over all the games in the list; a draw when
/// the totals are equal, which includes the empty list.
pub fn highest_total_score(results: &List<Score>) -> (r: Team)
    requires
        sums_fit(results@),
    ensures
        r == (if home_sum(results@) > away_sum(results@) {
            Team::Home
        } else if home_sum(results@) < away_sum(results@) {
            Team::Away
        } else {
            Team::Draw
        }),
{
    let Score { home_points, away_points } = total_score(results);
    if home_points > away_points {
        Team::Home
    } else if home_points < away_points {
        Team::Away
    } else {
        Team::Draw
    }
}

/// The games of `games` that the home side won, the last of them first.
pub open spec fn home_wins_latest_first(games: Seq<Score>) -> Seq<Score>
    decreases games.len(),
{
    if games.len() == 0 {
        Seq::empty()
    } else {
        let earlier = home_wins_latest_first(games.drop_last());
        let g = games.last();
        if g.home_points > g.away_points {
            seq![g] + earlier
        } else {
            earlier
        }
    }
}

/// The games that the home side won. They are pushed onto a fresh list as the
/// input is drained, so the last such game of the input comes first.
pub fn games_worth_watching(results: List<Score>) -> (r: List<Score>)
    ensures
        r@ == home_wins_latest_first(results@),
{
    let mut good = List::empty();
    let mut it = results.into_iter();
    let ghost mut seen: Seq<Score> = Seq::empty();
    loop
        invariant
            results@ == seen + it@,
            good@ == home_wins_latest_first(seen),
        ensures
            good@ == home_wins_latest_first(results@),
        decreases it@.len(),
    {
        match it.next() {
            Some(r) => {
                proof {
                    let prev = seen;
                    seen = seen.push(r);
                    assert(seen.drop_last() == prev);
                    assert(results@ == seen + it@);
                }
                if r.home_points > r.away_points {
                    good.push(r);
                }
            },
            None => {
                assert(results@ == seen);
                break;
            },
        }
    }
    good
}

} // verus!
