//! Footnote numbering: each label gets the next free number the first time it is
//! touched, by a reference or by a definition, and keeps it.

use vstd::prelude::*;

verus! {

/// The index of the first occurrence of `label` in `labels`; the length of
/// `labels` where it does not occur.
pub open spec fn find(labels: Seq<Seq<char>>, label: Seq<char>) -> nat
    decreases labels.len(),
{
    if labels.len() == 0 {
        0
    } else if labels[0] == label {
        0
    } else {
        1 + find(labels.drop_first(), label)
    }
}

/// The labels after `label` was touched: it is added behind the others unless it
/// is among them.
pub open spec fn touch(labels: Seq<Seq<char>>, label: Seq<char>) -> Seq<Seq<char>> {
    if find(labels, label) < labels.len() {
        labels
    } else {
        labels.push(label)
    }
}

/// The number of `label` once it was touched: one more than its place.
pub open spec fn number_of(labels: Seq<Seq<char>>, label: Seq<char>) -> nat {
    find(labels, label) + 1
}

/// No label occurs twice.
pub open spec fn distinct(labels: Seq<Seq<char>>) -> bool {
    forall|i: int, j: int| 0 <= i < j < labels.len() ==> labels[i] != labels[j]
}

/// `find` returns the first place of the label, or the length.
pub proof fn lemma_find(labels: Seq<Seq<char>>, label: Seq<char>)
    ensures
        find(labels, label) <= labels.len(),
        find(labels, label) < labels.len() ==> labels[find(labels, label) as int] == label,
        forall|k: int| 0 <= k < find(labels, label) ==> #[trigger] labels[k] != label,
    decreases labels.len(),
{
    if labels.len() == 0 || labels[0] == label {
    } else {
        let rest = labels.drop_first();
        lemma_find(rest, label);
        assert forall|k: int| 0 <= k < find(labels, label) implies #[trigger] labels[k]
            != label by {
            if k > 0 {
                assert(labels[k] == rest[k - 1]);
            }
        }
        if find(labels, label) < labels.len() {
            assert(labels[find(labels, label) as int] == rest[find(rest, label) as int]);
        }
    }
}

/// A place before which the label does not occur, and at which it does or the
/// labels end, is what `find` returns.
pub proof fn lemma_find_is(labels: Seq<Seq<char>>, label: Seq<char>, at: nat)
    requires
        at <= labels.len(),
        forall|k: int| 0 <= k < at ==> #[trigger] labels[k] != label,
        at < labels.len() ==> labels[at as int] == label,
    ensures
        find(labels, label) == at,
    decreases labels.len(),
{
    if at == 0 {
    } else {
        assert(labels[0] != label);
        let rest = labels.drop_first();
        assert forall|k: int| 0 <= k < at - 1 implies #[trigger] rest[k] != label by {
            assert(rest[k] == labels[k + 1]);
        }
        if at - 1 < rest.len() {
            assert(rest[at - 1] == labels[at as int]);
        }
        lemma_find_is(rest, label, (at - 1) as nat);
    }
}

/// Touching a label keeps the labels distinct, and keeps the place of every
/// label that was there already.
pub proof fn lemma_touch(labels: Seq<Seq<char>>, label: Seq<char>, other: Seq<char>)
    requires
        distinct(labels),
    ensures
        distinct(touch(labels, label)),
        find(touch(labels, label), label) == find(labels, label),
        find(touch(labels, label), label) < touch(labels, label).len(),
        find(labels, other) < labels.len() ==> find(touch(labels, label), other) == find(
            labels,
            other,
        ),
        touch(labels, label).len() >= labels.len(),
{
    lemma_find(labels, label);
    lemma_find(labels, other);
    let after = touch(labels, label);
    if find(labels, label) < labels.len() {
    } else {
        assert forall|i: int, j: int| 0 <= i < j < after.len() implies after[i] != after[j] by {
            if j == labels.len() {
                assert(after[i] == labels[i]);
            }
        }
        lemma_find_is(after, label, labels.len());
        if find(labels, other) < labels.len() {
            assert forall|k: int| 0 <= k < find(labels, other) implies #[trigger] after[k]
                != other by {
                assert(after[k] == labels[k]);
            }
            lemma_find_is(after, other, find(labels, other));
        }
    }
}

/// The labels after the first `n` of `touches` were touched in order, starting
/// from none.
pub open spec fn labels_after(touches: Seq<Seq<char>>, n: nat) -> Seq<Seq<char>>
    decreases n,
{
    if n == 0 || n > touches.len() {
        Seq::empty()
    } else {
        touch(labels_after(touches, (n - 1) as nat), touches[n - 1])
    }
}

/// The number that the touch at place `i` of `touches` is answered with.
pub open spec fn number_at(touches: Seq<Seq<char>>, i: int) -> nat {
    number_of(labels_after(touches, i as nat), touches[i])
}

/// After `n` touches the labels are distinct, each of them was touched, there
/// are at most `n` of them, and every touched label has kept its number.
pub proof fn lemma_labels_after(touches: Seq<Seq<char>>, n: nat)
    requires
        n <= touches.len(),
    ensures
        distinct(labels_after(touches, n)),
        labels_after(touches, n).len() <= n,
        forall|k: int|
            0 <= k < labels_after(touches, n).len() ==> exists|i: int|
                0 <= i < n && touches[i] == #[trigger] labels_after(touches, n)[k],
        forall|i: int|
            0 <= i < n ==> #[trigger] find(labels_after(touches, n), touches[i]) + 1 == number_at(
                touches,
                i,
            ),
        forall|i: int|
            0 <= i < n ==> #[trigger] number_at(touches, i) <= labels_after(touches, n).len(),
    decreases n,
{
    if n == 0 {
    } else {
        let before = labels_after(touches, (n - 1) as nat);
        let label = touches[n - 1];
        let after = labels_after(touches, n);
        lemma_labels_after(touches, (n - 1) as nat);
        lemma_touch(before, label, label);
        lemma_find(before, label);
        assert forall|k: int| 0 <= k < after.len() implies exists|i: int|
            0 <= i < n && touches[i] == #[trigger] after[k] by {
            if k < before.len() {
                assert(after[k] == before[k]);
                let i = choose|i: int| 0 <= i < n - 1 && touches[i] == before[k];
                assert(0 <= i < n && touches[i] == after[k]);
            } else {
                assert(after[k] == touches[n - 1]);
            }
        }
        assert forall|i: int| 0 <= i < n implies #[trigger] find(after, touches[i]) + 1
            == number_at(touches, i) && number_at(touches, i) <= after.len() by {
            if i < n - 1 {
                lemma_touch(before, label, touches[i]);
                assert(find(before, touches[i]) + 1 == number_at(touches, i));
            }
        }
    }
}

/// Numbers are stable and follow the order of first touch: two touches of one
/// label are answered with one number; a label touched for the first time gets a
/// number above all that were given before; the first touch gets 1; and the
/// numbers given so far are exactly those from 1 to the largest.
pub proof fn lemma_numbers_stable_and_ordered(touches: Seq<Seq<char>>, i: int, j: int)
    requires
        0 <= i < j < touches.len(),
    ensures
        number_at(touches, 0) == 1,
        1 <= number_at(touches, j) <= labels_after(touches, j as nat).len() + 1,
        touches[i] == touches[j] ==> number_at(touches, i) == number_at(touches, j),
        (forall|k: int| 0 <= k < j ==> touches[k] != touches[j]) ==> number_at(touches, j)
            == labels_after(touches, j as nat).len() + 1 && number_at(touches, i) < number_at(
            touches,
            j,
        ),
{
    lemma_labels_after(touches, j as nat);
    let labels = labels_after(touches, j as nat);
    lemma_find(labels, touches[j]);
    assert(labels_after(touches, 0) =~= Seq::empty());
    assert(find(labels, touches[i]) + 1 == number_at(touches, i));
    assert(number_at(touches, i) <= labels.len());
    if forall|k: int| 0 <= k < j ==> touches[k] != touches[j] {
        if find(labels, touches[j]) < labels.len() {
            let k = find(labels, touches[j]) as int;
            let w = choose|w: int| 0 <= w < j && touches[w] == labels[k];
            assert(touches[w] == touches[j]);
        }
    }
}

/// The registry of footnote labels, in the order in which they were first
/// touched. The number of a label is its place, counted from 1.
pub struct FootnoteRegistry {
    labels: Vec<String>,
}

impl View for FootnoteRegistry {
    type V = Seq<Seq<char>>;

    closed spec fn view(&self) -> Seq<Seq<char>> {
        Seq::new(self.labels@.len(), |i: int| self.labels@[i]@)
    }
}

impl FootnoteRegistry {
    /// The registry without labels.
    pub fn new() -> (r: FootnoteRegistry)
        ensures
            r@ == Seq::<Seq<char>>::empty(),
    {
        let r = FootnoteRegistry { labels: Vec::new() };
        assert(r@ =~= Seq::<Seq<char>>::empty());
        r
    }

    /// How many labels have a number.
    pub fn len(&self) -> (r: usize)
        ensures
            r == self@.len(),
    {
        self.labels.len()
    }

    /// The number of `label`, which is assigned now if `label` is new: then it
    /// is one more than the count of labels so far.
    pub fn resolve(&mut self, label: &str) -> (number: usize)
        ensures
            final(self)@ == touch(old(self)@, label@),
            number == number_of(old(self)@, label@),
            1 <= number <= final(self)@.len(),
            final(self)@[number - 1] == label@,
            distinct(old(self)@) ==> distinct(final(self)@),
    {
        proof {
            if distinct(old(self)@) {
                lemma_touch(old(self)@, label@, label@);
            }
        }
        let key = String::from_str(label);
        let mut i: usize = 0;
        while i < self.labels.len() && self.labels[i] != key
            invariant
                i <= self.labels.len(),
                key@ == label@,
                *self == *old(self),
                forall|k: int| 0 <= k < i ==> #[trigger] self@[k] != label@,
            decreases self.labels.len() - i,
        {
            i = i + 1;
        }
        proof {
            lemma_find_is(self@, label@, i as nat);
        }
        if i == self.labels.len() {
            self.labels.push(key);
            assert(self@ =~= old(self)@.push(label@));
        }
        assert(i < self.labels.len());
        i + 1
    }
}

} // verus!
