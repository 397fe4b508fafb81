use vstd::prelude::*;

verus! {

/// A singly linked list that owns its elements.
pub enum LinkedList<T> {
    Nil,
    Cons { head: T, tail: Box<LinkedList<T>> },
}

/// What inserting `elem` behind the element at `idx` makes of `elements`: where there
/// is no such element, nothing is inserted.
pub open spec fn inserted_behind<T>(elements: Seq<T>, idx: nat, elem: T) -> Seq<T> {
    if idx < elements.len() {
        elements.insert(idx as int + 1, elem)
    } else {
        elements
    }
}

/// What putting `elem` in the place of the element at `idx` makes of `elements`: where
/// there is no such element, nothing is replaced.
pub open spec fn replaced_at<T>(elements: Seq<T>, idx: nat, elem: T) -> Seq<T> {
    if idx < elements.len() {
        elements.update(idx as int, elem)
    } else {
        elements
    }
}

impl<T> LinkedList<T> {
    /// The elements of the list, the head first.
    pub open spec fn elements(&self) -> Seq<T>
        decreases self,
    {
        match self {
            LinkedList::Nil => Seq::empty(),
            LinkedList::Cons { head, tail } => seq![*head] + tail.elements(),
        }
    }

    /// The empty list.
    pub fn new() -> (r: Self)
        ensures
            r.elements() == Seq::<T>::empty(),
    {
        LinkedList::Nil
    }

    /// The list of one element.
    pub fn one(v: T) -> (r: Self)
        ensures
            r.elements() == seq![v],
    {
        let r = Self::new().prepend(v);
        assert(r.elements() =~= seq![v]);
        r
    }

    /// The list of the elements of `items` in the opposite order.
    pub fn from_iter_rev(items: Vec<T>) -> (r: Self)
        ensures
            r.elements() == items@.reverse(),
    {
        let mut items = items;
        let ghost all = items@;
        let mut reversed: Vec<T> = Vec::new();
        while items.len() > 0
            invariant
                items@.len() + reversed@.len() == all.len(),
                forall|i: int| 0 <= i < items@.len() ==> items@[i] == all[i],
                forall|i: int| 0 <= i < reversed@.len() ==> reversed@[i] == all[all.len() - 1 - i],
            decreases items.len(),
        {
            let last = items.pop().unwrap();
            reversed.push(last);
        }
        assert(reversed@ =~= all.reverse());
        let mut ret = Self::new();
        let ghost turned = reversed@;
        while reversed.len() > 0
            invariant
                reversed@.len() + ret.elements().len() == turned.len(),
                forall|i: int| 0 <= i < reversed@.len() ==> reversed@[i] == turned[i],
                forall|i: int|
                    0 <= i < ret.elements().len() ==> ret.elements()[i] == turned[reversed@.len()
                        + i],
            decreases reversed.len(),
        {
            let elem = reversed.pop().unwrap();
            ret = ret.prepend(elem);
        }
        assert(ret.elements() =~= turned);
        ret
    }

    /// The list with `elem` in front of it.
    pub fn prepend(self, elem: T) -> (r: Self)
        ensures
            r.elements() == seq![elem] + self.elements(),
    {
        LinkedList::Cons { head: elem, tail: Box::new(self) }
    }

    /// The list with `elem` behind its last element.
    pub fn append(self, elem: T) -> (r: Self)
        ensures
            r.elements() == self.elements().push(elem),
        decreases self,
    {
        match self {
            LinkedList::Nil => {
                assert(seq![elem] + Seq::<T>::empty() =~= Seq::<T>::empty().push(elem));
                Self::new().prepend(elem)
            },
            LinkedList::Cons { head, tail } => {
                let tail = *tail;
                assert(seq![head] + tail.elements().push(elem) =~= (seq![head]
                    + tail.elements()).push(elem));
                LinkedList::Cons { head, tail: Box::new(tail.append(elem)) }
            },
        }
    }

    /// The list with `elem` behind the element at `idx`, counted from zero; the list
    /// as it is where it has no such element.
    pub fn insert(self, idx: usize, elem: T) -> (r: Self)
        ensures
            r.elements() == inserted_behind(self.elements(), idx as nat, elem),
        decreases self,
    {
        match self {
            LinkedList::Nil => LinkedList::Nil,
            LinkedList::Cons { head, tail } => {
                let tail = *tail;
                if idx == 0 {
                    assert(seq![head] + (seq![elem] + tail.elements()) =~= (seq![head]
                        + tail.elements()).insert(1, elem));
                    LinkedList::Cons { head, tail: Box::new(tail.prepend(elem)) }
                } else {
                    proof {
                        if idx - 1 < tail.elements().len() {
                            assert(seq![head] + tail.elements().insert(idx as int, elem) =~= (
                            seq![head] + tail.elements()).insert(idx + 1, elem));
                        }
                    }
                    LinkedList::Cons { head, tail: Box::new(tail.insert(idx - 1, elem)) }
                }
            },
        }
    }

    /// The list with `elem` in the place of the element at `idx`, counted from zero;
    /// the list as it is where it has no such element.
    pub fn replace(self, idx: usize, elem: T) -> (r: Self)
        ensures
            r.elements() == replaced_at(self.elements(), idx as nat, elem),
        decreases self,
    {
        match self {
            LinkedList::Nil => LinkedList::Nil,
            LinkedList::Cons { head, tail } => {
                let tail = *tail;
                if idx == 0 {
                    assert(seq![elem] + tail.elements() =~= (seq![head]
                        + tail.elements()).update(0, elem));
                    LinkedList::Cons { head: elem, tail: Box::new(tail) }
                } else {
                    proof {
                        if idx - 1 < tail.elements().len() {
                            assert(seq![head] + tail.elements().update(idx - 1, elem) =~= (
                            seq![head] + tail.elements()).update(idx as int, elem));
                        }
                    }
                    LinkedList::Cons { head, tail: Box::new(tail.replace(idx - 1, elem)) }
                }
            },
        }
    }

    /// The first element, if there is one, and the list of the others.
    pub fn pop(&self) -> (r: (Option<&T>, &Self))
        ensures
            self.elements().len() == 0 ==> r.0.is_none() && r.1.elements() == Seq::<T>::empty(),
            self.elements().len() > 0 ==> r.0 == Some(&self.elements()[0]) && r.1.elements()
                == self.elements().drop_first(),
    {
        match self {
            LinkedList::Cons { head, tail } => {
                assert((seq![*head] + tail.elements()).drop_first() =~= tail.elements());
                (Some(head), &**tail)
            },
            LinkedList::Nil => (None, self),
        }
    }

    /// The first element, if there is one.
    pub fn head(&self) -> (r: Option<&T>)
        ensures
            self.elements().len() == 0 ==> r.is_none(),
            self.elements().len() > 0 ==> r == Some(&self.elements()[0]),
    {
        match self {
            LinkedList::Cons { head, tail: _ } => Some(head),
            LinkedList::Nil => None,
        }
    }

    /// The elements of the list in its order, borrowed.
    pub fn iter(&self) -> (r: Vec<&T>)
        ensures
            r@.len() == self.elements().len(),
            forall|i: int| 0 <= i < r@.len() ==> *(#[trigger] r@[i]) == self.elements()[i],
    {
        let mut ret: Vec<&T> = Vec::new();
        let mut rest: &Self = self;
        loop
            invariant
                ret@.len() + rest.elements().len() == self.elements().len(),
                forall|i: int| 0 <= i < ret@.len() ==> *(#[trigger] ret@[i]) == self.elements()[i],
                forall|i: int|
                    0 <= i < rest.elements().len() ==> rest.elements()[i] == self.elements()[ret@.len()
                        + i],
            ensures
                ret@.len() == self.elements().len(),
                forall|i: int| 0 <= i < ret@.len() ==> *(#[trigger] ret@[i]) == self.elements()[i],
            decreases rest,
        {
            match rest {
                LinkedList::Nil => {
                    break ;
                },
                LinkedList::Cons { head, tail } => {
                    assert(rest.elements()[0] == *head);
                    assert forall|i: int| 0 <= i < tail.elements().len() implies tail.elements()[i]
                        == self.elements()[ret@.len() + 1 + i] by {
                        assert(rest.elements()[i + 1] == tail.elements()[i]);
                    }
                    ret.push(head);
                    rest = &**tail;
                },
            }
        }
        ret
    }

    /// The elements of the list in its order.
    pub fn into_vec(self) -> (r: Vec<T>)
        ensures
            r@ == self.elements(),
    {
        let ghost all = self.elements();
        let mut ret: Vec<T> = Vec::new();
        let mut rest: Self = self;
        loop
            invariant
                ret@ + rest.elements() == all,
            ensures
                ret@ == all,
            decreases rest,
        {
            match rest {
                LinkedList::Nil => {
                    assert(ret@ + Seq::<T>::empty() =~= ret@);
                    break ;
                },
                LinkedList::Cons { head, tail } => {
                    assert(ret@.push(head) + tail.elements() =~= ret@ + (seq![head]
                        + tail.elements()));
                    ret.push(head);
                    rest = *tail;
                },
            }
        }
        ret
    }

    /// The list of the first `n` elements and the list of the others.
    pub fn split(self, n: usize) -> (r: (LinkedList<T>, LinkedList<T>))
        ensures
            n <= self.elements().len() ==> r.0.elements() == self.elements().take(n as int)
                && r.1.elements() == self.elements().skip(n as int),
            n > self.elements().len() ==> r.0.elements() == self.elements() && r.1.elements()
                == Seq::<T>::empty(),
        decreases self,
    {
        match self {
            LinkedList::Nil => {
                assert(self.elements().take(0) =~= Seq::<T>::empty());
                assert(self.elements().skip(0) =~= Seq::<T>::empty());
                (LinkedList::Nil, LinkedList::Nil)
            },
            LinkedList::Cons { head, tail } => {
                let tail = *tail;
                if n == 0 {
                    let whole = LinkedList::Cons { head, tail: Box::new(tail) };
                    assert(whole.elements().take(0) =~= Seq::<T>::empty());
                    assert(whole.elements().skip(0) =~= whole.elements());
                    (LinkedList::Nil, whole)
                } else {
                    let ghost rest = tail.elements();
                    let (left, right) = tail.split(n - 1);
                    proof {
                        if n - 1 <= rest.len() {
                            assert(seq![head] + rest.take(n - 1) =~= (seq![head] + rest).take(
                                n as int,
                            ));
                            assert(rest.skip(n - 1) =~= (seq![head] + rest).skip(n as int));
                        }
                    }
                    (left.prepend(head), right)
                }
            },
        }
    }
}

} // verus!
