//! A singly linked list with by-reference iteration.

use vstd::prelude::*;

verus! {

type Link<T> = Option<Box<Node<T>>>;

struct Node<T> {
    elem: T,
    next: Link<T>,
}

/// The elements a chain of links holds, front first.
spec fn link_seq<T>(link: Link<T>) -> Seq<T>
    decreases link,
{
    match link {
        None => Seq::<T>::empty(),
        Some(node) => seq![node.elem] + link_seq(node.next),
    }
}

/// A singly linked list; the view is the sequence of elements from the
/// front.
pub struct LinkedList<T> {
    head: Link<T>,
}

impl<T> View for LinkedList<T> {
    type V = Seq<T>;

    closed spec fn view(&self) -> Seq<T> {
        link_seq(self.head)
    }
}

/// A read-only iterator over a linked list.
pub struct Iter<'a, T>(Option<&'a Node<T>>);

/// An in-place mutating iterator over a linked list.
pub struct IterMut<'a, T>(Option<&'a mut Node<T>>);

impl<T> LinkedList<T> {
    pub fn new() -> (list: Self)
        ensures
            list@ == Seq::<T>::empty(),
    {
        LinkedList { head: None }
    }

    /// Prepend one element.
    pub fn push_front(&mut self, v: T)
        ensures
            final(self)@ == seq![v] + old(self)@,
    {
        let rest = self.head.take();
        proof {
            assert(link_seq(rest) == old(self)@);
        }
        self.head = Some(Box::new(Node { elem: v, next: rest }));
    }

    /// Iterate over the elements from the front.
    pub fn iter<'a>(&'a self) -> (it: Iter<'a, T>)
        ensures
            it.remaining() == self@,
    {
        Iter(match &self.head {
            Some(node) => Some(&**node),
            None => None,
        })
    }

    /// Iterate over the elements from the front, yielding mutable
    /// references.
    pub fn iter_mut<'a>(&'a mut self) -> (it: IterMut<'a, T>)
        ensures
            it.remaining() == old(self)@,
    {
        IterMut(match &mut self.head {
            Some(node) => Some(&mut **node),
            None => None,
        })
    }
}

impl<'a, T> Iter<'a, T> {
    /// The elements not yet yielded.
    pub closed spec fn remaining(&self) -> Seq<T> {
        match self.0 {
            None => Seq::<T>::empty(),
            Some(node) => seq![node.elem] + link_seq(node.next),
        }
    }

    /// Yield a reference to the next element, front first.
    pub fn next(&mut self) -> (item: Option<&'a T>)
        ensures
            old(self).remaining().len() == 0 ==> item is None && final(self).remaining()
                == old(self).remaining(),
            old(self).remaining().len() > 0 ==> item is Some && *item.unwrap()
                == old(self).remaining()[0] && final(self).remaining() == old(
                self,
            ).remaining().drop_first(),
    {
        match self.0 {
            None => None,
            Some(node) => {
                self.0 = match &node.next {
                    Some(next) => Some(&**next),
                    None => None,
                };
                proof {
                    assert(final(self).remaining() =~= old(self).remaining().drop_first());
                }
                Some(&node.elem)
            },
        }
    }
}

impl<'a, T> IterMut<'a, T> {
    /// The elements not yet yielded, at their values as of now.
    pub closed spec fn remaining(&self) -> Seq<T> {
        match self.0 {
            None => Seq::<T>::empty(),
            Some(node) => seq![node.elem] + link_seq(node.next),
        }
    }

    /// Yield a mutable reference to the next element, front first.
    pub fn next(&mut self) -> (item: Option<&'a mut T>)
        ensures
            old(self).remaining().len() == 0 ==> item is None && final(self).remaining() == old(
                self,
            ).remaining(),
            old(self).remaining().len() > 0 ==> item is Some && *item.unwrap()
                == old(self).remaining()[0] && final(self).remaining() == old(
                self,
            ).remaining().drop_first(),
    {
        let cur = self.0.take();
        match cur {
            None => None,
            Some(node) => {
                self.0 = match &mut node.next {
                    Some(next) => Some(&mut **next),
                    None => None,
                };
                proof {
                    assert(self.remaining() =~= old(self).remaining().drop_first());
                }
                Some(&mut node.elem)
            },
        }
    }
}

} // verus!
