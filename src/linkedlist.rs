//! A persistent cons list: every operation takes the list by value or by
//! reference and hands back a list, in the functional style.

use vstd::prelude::*;
use vstd::string::*;

verus! {

/// A list that is either empty or an element in front of another list.
pub enum List<T> {
    Empty,
    Cons(T, Box<List<T>>),
}

impl<T> List<T> {
    /// The elements of the list, from the front to the back.
    pub open spec fn view(&self) -> Seq<T>
        decreases self,
    {
        match self {
            List::Empty => Seq::empty(),
            List::Cons(e, tail) => seq![*e] + tail.view(),
        }
    }

    /// The empty list.
    pub fn new() -> (r: Self)
        ensures
            r.view() == Seq::<T>::empty(),
    {
        List::Empty
    }

    /// Whether the list holds no element.
    pub fn is_empty(&self) -> (r: bool)
        ensures
            r == (self.view().len() == 0),
    {
        match self {
            List::Empty => true,
            _ => false,
        }
    }

    /// The list with `element` in front of `self`.
    pub fn push(self, element: T) -> (r: Self)
        ensures
            r.view() == seq![element] + self.view(),
    {
        List::Cons(element, Box::new(self))
    }

    /// Splits off the front element: `None` on the empty list, otherwise the
    /// rest of the list and the element.
    pub fn pop(self) -> (r: Option<(Self, T)>)
        ensures
            self.view().len() == 0 <==> r.is_none(),
            r matches Some((rest, e)) ==> e == self.view()[0] && rest.view() == self.view().drop_first(),
    {
        match self {
            List::Empty => None,
            List::Cons(element, tail) => Some((*tail, element)),
        }
    }

    /// The front element, if any.
    pub fn head(&self) -> (r: Option<&T>)
        ensures
            self.view().len() == 0 <==> r.is_none(),
            r matches Some(e) ==> *e == self.view()[0],
    {
        match self {
            List::Empty => None,
            List::Cons(element, _) => Some(element),
        }
    }

    /// The list without its front element; the empty list is its own tail.
    pub fn tail(&self) -> (r: &Self)
        ensures
            self.view().len() == 0 ==> r.view() == self.view(),
            self.view().len() > 0 ==> r.view() == self.view().drop_first(),
    {
        match self {
            List::Empty => self,
            List::Cons(_, tail) => tail,
        }
    }
}

/// The parts joined, with a comma and a space between two neighbours.
pub open spec fn comma_joined(parts: Seq<Seq<char>>) -> Seq<char>
    decreases parts.len(),
{
    if parts.len() == 0 {
        Seq::empty()
    } else if parts.len() == 1 {
        parts[0]
    } else {
        comma_joined(parts.drop_last()) + seq![',', ' '] + parts.last()
    }
}

/// `parts` holds, in order, what `to_string` may return for each element.
pub open spec fn renders<T: std::fmt::Display>(elems: Seq<T>, parts: Seq<String>) -> bool {
    &&& parts.len() == elems.len()
    &&& forall|i: int| 0 <= i < elems.len() ==> to_string_from_display_ensures::<T>(&elems[i], #[trigger] parts[i])
}

impl<T: std::fmt::Display> List<T> {
    /// The elements rendered with `to_string`, front first, separated by `", "`.
    pub fn to_string(&self) -> (r: String)
        ensures
            exists|parts: Seq<String>| renders(self.view(), parts) && r@ == comma_joined(parts.map_values(|p: String| p@)),
    {
        let mut out = String::new();
        let mut first = true;
        let mut current = self;
        let ghost mut parts: Seq<String> = Seq::empty();
        loop
            invariant
                self.view() == self.view().take(parts.len() as int) + current.view(),
                renders(self.view().take(parts.len() as int), parts),
                out@ == comma_joined(parts.map_values(|p: String| p@)),
                first == (parts.len() == 0),
            ensures
                renders(self.view(), parts),
                out@ == comma_joined(parts.map_values(|p: String| p@)),
            decreases current.view().len(),
        {
            match current.head() {
                None => {
                    assert(self.view().take(parts.len() as int) =~= self.view());
                    break;
                },
                Some(element) => {
                    let ghost before = current.view();
                    current = current.tail();
                    if !first {
                        proof {
                            reveal_strlit(", ");
                        }
                        out.append(", ");
                    } else {
                        first = false;
                    }
                    let piece = element.to_string();
                    out.append(piece.as_str());
                    proof {
                        let n = parts.len() as int;
                        let old_parts = parts;
                        parts = parts.push(piece);
                        assert(self.view()[n] == before[0]);
                        assert(self.view().take(n + 1) == self.view().take(n).push(before[0]));
                        assert(self.view() == self.view().take(n + 1) + current.view());
                        assert(parts.map_values(|p: String| p@).drop_last() == old_parts.map_values(|p: String| p@));
                    }
                },
            }
        }
        out
    }
}

impl<T: Clone> List<T> {
    /// A list of clones of the elements, in the same order.
    fn clone_elements(&self) -> (r: Self)
        ensures
            r.view().len() == self.view().len(),
            forall|i: int| 0 <= i < self.view().len() ==> cloned(self.view()[i], #[trigger] r.view()[i]),
        decreases self,
    {
        match self {
            List::Empty => List::Empty,
            List::Cons(e, tail) => {
                let rest = tail.clone_elements();
                let r = List::Cons(e.clone(), Box::new(rest));
                assert forall|i: int| 0 < i < self.view().len() implies cloned(self.view()[i], #[trigger] r.view()[i]) by {
                    assert(self.view()[i] == tail.view()[i - 1]);
                    assert(r.view()[i] == rest.view()[i - 1]);
                }
                r
            },
        }
    }
}

impl<T: Clone> Clone for List<T> {
    fn clone(&self) -> (r: Self)
        ensures
            r.view().len() == self.view().len(),
            forall|i: int| 0 <= i < self.view().len() ==> cloned(self.view()[i], #[trigger] r.view()[i]),
    {
        self.clone_elements()
    }
}

} // verus!
