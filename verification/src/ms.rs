//! An array-backed multiset with append-at-end insertion, swap-with-last
//! removal, and a round-robin `take`. Its order decides the output of
//! list-tubes and list-tubes-watched, and which waiting connection gets the
//! next reserved job.

use vstd::laws_eq::obeys_concrete_eq;
use vstd::prelude::*;

verus! {

/// The items in order, and the round-robin cursor of `take`. Any cursor is
/// valid: `take` reduces it modulo the length first.
#[derive(Debug, PartialEq, Eq)]
pub struct Ms<T> {
    pub items: Vec<T>,
    pub last: usize,
}

/// The items of an `Ms`, and its cursor.
#[verifier::ext_equal]
pub struct MsView<T> {
    pub items: Seq<T>,
    pub last: usize,
}

impl<T> View for Ms<T> {
    type V = MsView<T>;

    open spec fn view(&self) -> MsView<T> {
        MsView { items: self.items@, last: self.last }
    }
}

/// `s` without its item at `i`, whose place the last item takes.
pub open spec fn swap_remove<T>(s: Seq<T>, i: int) -> Seq<T> {
    s.update(i, s.last()).drop_last()
}

/// Where `item` first stands in `s`, or the length of `s` if nowhere.
pub open spec fn position<T>(s: Seq<T>, item: T) -> int
    decreases s.len(),
{
    if s.len() == 0 || s[0] == item {
        0
    } else {
        1 + position(s.skip(1), item)
    }
}

/// The order in which deleting item 0 over and over empties `s`.
pub open spec fn delete_order<T>(s: Seq<T>) -> Seq<T>
    decreases s.len(),
{
    if s.len() == 0 {
        s
    } else {
        seq![s[0]] + delete_order(swap_remove(s, 0))
    }
}

impl<T> MsView<T> {
    /// With `item` at the end.
    pub open spec fn append(self, item: T) -> Self {
        MsView { items: self.items.push(item), last: self.last }
    }

    /// Without the first `item`, if there is one.
    pub open spec fn remove(self, item: T) -> Self {
        if self.items.contains(item) {
            MsView {
                items: swap_remove(self.items, position(self.items, item)),
                last: self.last,
            }
        } else {
            self
        }
    }

    /// Where the cursor points.
    pub open spec fn cursor(self) -> int
        recommends
            self.items.len() > 0,
    {
        self.last as int % self.items.len() as int
    }

    /// What `take` leaves.
    pub open spec fn after_take(self) -> Self {
        if self.items.len() == 0 {
            self
        } else {
            MsView {
                items: swap_remove(self.items, self.cursor()),
                last: (self.cursor() + 1) as usize,
            }
        }
    }
}

/// `position` is where the item first stands.
pub proof fn lemma_position<T>(s: Seq<T>, item: T)
    ensures
        0 <= position(s, item) <= s.len(),
        s.contains(item) <==> position(s, item) < s.len(),
        s.contains(item) ==> s[position(s, item)] == item,
        forall|i: int| 0 <= i < position(s, item) ==> s[i] != item,
    decreases s.len(),
{
    if s.len() > 0 && s[0] != item {
        let t = s.skip(1);
        lemma_position(t, item);
        assert forall|i: int| 0 <= i < position(s, item) implies s[i] != item by {
            if i > 0 {
                assert(t[i - 1] == s[i]);
            }
        }
        if s.contains(item) {
            let k = s.index_of(item);
            assert(t[k - 1] == item);
        }
        if t.contains(item) {
            let k = t.index_of(item);
            assert(s[k + 1] == item);
        }
    } else if s.len() > 0 {
        assert(s.contains(s[0]));
    }
}

/// The first place that holds the item is its position.
pub proof fn lemma_position_is<T>(s: Seq<T>, item: T, i: int)
    requires
        0 <= i < s.len(),
        s[i] == item,
        forall|k: int| 0 <= k < i ==> s[k] != item,
    ensures
        position(s, item) == i,
        s.contains(item),
{
    lemma_position(s, item);
}

/// Removing one item keeps the others, and adds none.
pub proof fn lemma_swap_remove<T>(s: Seq<T>, i: int)
    requires
        0 <= i < s.len(),
        s.no_duplicates(),
    ensures
        swap_remove(s, i).no_duplicates(),
        swap_remove(s, i).len() == s.len() - 1,
        forall|x: T| #[trigger] swap_remove(s, i).contains(x) <==> s.contains(x) && x != s[i],
{
    let r = swap_remove(s, i);
    assert forall|x: T| #[trigger] r.contains(x) implies s.contains(x) && x != s[i] by {
        let k = r.index_of(x);
        if k == i {
            assert(s[s.len() - 1] == x);
        } else {
            assert(s[k] == x);
        }
    }
    assert forall|x: T| s.contains(x) && x != s[i] implies #[trigger] r.contains(x) by {
        let k = s.index_of(x);
        if k == s.len() - 1 {
            assert(r[i] == x);
        } else {
            assert(r[k] == x);
        }
    }
}

/// Taking goes round the list: what is taken stands at the cursor, counted round
/// from the front; the last item fills its place, all others stay in theirs, and
/// the cursor goes one further. So as long as two or more stand behind the one
/// that is taken, the next to be taken is the one after it.
pub proof fn taking_goes_round<T>(w: MsView<T>)
    requires
        w.items.len() > 0,
        w.items.len() <= usize::MAX,
    ensures
        ({
            let n = w.after_take();
            let len = w.items.len() as int;
            let k = w.last as int % len;
            &&& 0 <= k < len
            &&& w.items[w.cursor()] == w.items[k]
            &&& n.items.len() == len - 1
            &&& n.last == k + 1
            &&& forall|i: int|
                0 <= i < len - 1 && i != k ==> #[trigger] n.items[i] == w.items[i]
            &&& k < len - 1 ==> n.items[k] == w.items[len - 1]
            &&& k + 2 < len ==> n.items[n.cursor()] == w.items[k + 1]
        }),
{
    let n = w.after_take();
    let len = w.items.len() as int;
    let k = w.last as int % len;
    assert(0 <= k < len) by (nonlinear_arith)
        requires
            len > 0,
            k == w.last as int % len,
    ;
    if k + 2 < len {
        vstd::arithmetic::div_mod::lemma_small_mod((k + 1) as nat, (len - 1) as nat);
        assert(n.cursor() == k + 1);
    }
}

/// An item that is added stands last, one that is removed gives its place to the
/// last, and all others stay in theirs.
pub proof fn items_keep_their_places<T>(w: MsView<T>, x: T)
    ensures
        w.append(x).items.len() == w.items.len() + 1,
        w.append(x).items.last() == x,
        w.append(x).last == w.last,
        forall|i: int| 0 <= i < w.items.len() ==> #[trigger] w.append(x).items[i] == w.items[i],
        !w.items.contains(x) ==> w.remove(x) == w,
        forall|k: int|
            0 <= k < w.items.len() && #[trigger] w.items[k] == x && !w.items.take(k).contains(x)
                ==> {
                let r = w.remove(x);
                &&& r.last == w.last
                &&& r.items.len() == w.items.len() - 1
                &&& k < r.items.len() ==> r.items[k] == w.items.last()
                &&& forall|i: int|
                    0 <= i < r.items.len() && i != k ==> #[trigger] r.items[i] == w.items[i]
            },
{
    assert forall|k: int|
        0 <= k < w.items.len() && #[trigger] w.items[k] == x && !w.items.take(k).contains(
            x,
        ) implies position(w.items, x) == k by {
        assert forall|i: int| 0 <= i < k implies w.items[i] != x by {
            if w.items[i] == x {
                assert(w.items.take(k)[i] == x);
            }
        }
        lemma_position_is(w.items, x, k);
    }
}

impl<T: Clone> Clone for Ms<T> {
    fn clone(&self) -> (r: Self)
        ensures
            r.last == self.last,
            r.items@.len() == self.items@.len(),
            forall|i: int|
                0 <= i < self.items@.len() ==> cloned::<T>(self.items@[i], #[trigger] r.items@[i]),
    {
        Ms { items: self.items.clone(), last: self.last }
    }
}

impl<T: PartialEq> Ms<T> {
    /// No items, the cursor at 0.
    pub fn new() -> (r: Self)
        ensures
            r@ == (MsView { items: Seq::<T>::empty(), last: 0 }),
    {
        Ms { items: Vec::new(), last: 0 }
    }

    /// How many items there are.
    pub fn len(&self) -> (r: usize)
        ensures
            r == self@.items.len(),
    {
        self.items.len()
    }

    /// Whether there are no items.
    pub fn is_empty(&self) -> (r: bool)
        ensures
            r == (self@.items.len() == 0),
    {
        self.items.len() == 0
    }

    /// Adds `item` at the end.
    pub fn append(&mut self, item: T)
        ensures
            final(self)@ == old(self)@.append(item),
    {
        self.items.push(item);
    }

    /// Where `item` first stands, or the length.
    fn find(&self, item: &T) -> (r: usize)
        requires
            obeys_concrete_eq::<T>(),
        ensures
            r == position(self@.items, *item),
            r < self@.items.len() <==> self@.items.contains(*item),
    {
        proof {
            reveal(obeys_concrete_eq);
        }
        let n: usize = self.items.len();
        let mut i: usize = 0;
        while i < n
            invariant
                obeys_concrete_eq::<T>(),
                i <= n,
                n == self.items@.len(),
                forall|k: int| 0 <= k < i ==> self.items@[k] != *item,
            decreases n - i,
        {
            proof {
                reveal(obeys_concrete_eq);
            }
            if self.items[i] == *item {
                proof {
                    lemma_position_is(self.items@, *item, i as int);
                }
                return i;
            }
            i = i + 1;
        }
        proof {
            lemma_position(self.items@, *item);
        }
        n
    }

    /// Whether `item` is there.
    pub fn contains(&self, item: &T) -> (r: bool)
        requires
            obeys_concrete_eq::<T>(),
        ensures
            r == self@.items.contains(*item),
    {
        self.find(item) < self.items.len()
    }

    /// Linear search, then swap-with-last removal. Returns whether the item
    /// was found and removed.
    pub fn remove(&mut self, item: &T) -> (r: bool)
        requires
            obeys_concrete_eq::<T>(),
        ensures
            final(self)@ == old(self)@.remove(*item),
            r == old(self)@.items.contains(*item),
    {
        let i: usize = self.find(item);
        if i < self.items.len() {
            let _ = self.items.swap_remove(i);
            true
        } else {
            false
        }
    }

    /// Swap-with-last removal of the item at `i`.
    pub fn remove_at(&mut self, i: usize) -> (r: T)
        requires
            i < old(self)@.items.len(),
        ensures
            r == old(self)@.items[i as int],
            final(self)@ == (MsView {
                items: swap_remove(old(self)@.items, i as int),
                last: old(self)@.last,
            }),
    {
        self.items.swap_remove(i)
    }

    /// Round-robin removal. Not simple first-in first-out: with an even number
    /// of items and several calls in a row (no `append` between), the order
    /// deviates from the order of arrival.
    pub fn take(&mut self) -> (r: Option<T>)
        ensures
            final(self)@ == old(self)@.after_take(),
            match r {
                None => old(self)@.items.len() == 0,
                Some(item) => old(self)@.items.len() > 0 && item
                    == old(self)@.items[old(self)@.cursor()],
            },
    {
        let n: usize = self.items.len();
        if n == 0 {
            return None;
        }
        let at: usize = self.last % n;
        let item = self.items.swap_remove(at);
        self.last = at + 1;
        Some(item)
    }

    /// Empties the set by deleting item 0 until nothing is left (each
    /// deletion moves the last item to the front). Returns the items in the
    /// order in which they were deleted.
    pub fn clear_in_delete_order(&mut self) -> (r: Vec<T>)
        ensures
            r@ == delete_order(old(self)@.items),
            final(self)@ == (MsView { items: Seq::<T>::empty(), last: 0 }),
    {
        let mut order: Vec<T> = Vec::new();
        while self.items.len() > 0
            invariant
                order@ + delete_order(self.items@) == delete_order(old(self)@.items),
            decreases self.items@.len(),
        {
            let item = self.items.swap_remove(0);
            order.push(item);
        }
        self.last = 0;
        order
    }

    /// Removes everything.
    pub fn clear(&mut self)
        ensures
            final(self)@ == (MsView { items: Seq::<T>::empty(), last: 0 }),
    {
        self.items.clear();
        self.last = 0;
    }
}

} // verus!
