use vstd::prelude::*;
use crate::scalar::Scalar;

verus! {

/// The sum of the first `k` products `a[i] * b[i]`, added from the left.
pub open spec fn dot_upto<T: Scalar>(a: Seq<T>, b: Seq<T>, k: int) -> T
    decreases k,
{
    if k <= 0 {
        T::spec_zero()
    } else {
        dot_upto(a, b, k - 1).spec_plus(a[k - 1].spec_times(b[k - 1]))
    }
}

/// The dot product of two sequences of one length.
pub open spec fn dot<T: Scalar>(a: Seq<T>, b: Seq<T>) -> T {
    dot_upto(a, b, a.len() as int)
}

/// The square root of a sequence's dot product with itself.
pub open spec fn magnitude_of<T: Scalar>(a: Seq<T>) -> T {
    dot(a, a).spec_square_root()
}

/// The largest absolute value among `s[init..i]` that exceeds zero and every
/// earlier one, with its index; zero and index 0 when there is none.
pub open spec fn max_scan<T: Scalar>(s: Seq<T>, init: int, i: int) -> (T, int)
    decreases i - init,
{
    if i <= init {
        (T::spec_zero(), 0)
    } else {
        let prev = max_scan(s, init, i - 1);
        let a = s[i - 1].spec_absolute();
        if a.spec_exceeds(prev.0) {
            (a, i - 1)
        } else {
            prev
        }
    }
}

/// A real vector: an ordered sequence of components addressed from 1.
#[derive(Clone)]
pub struct Vector<T> {
    pub components: Vec<T>,
}

impl<T: Scalar> View for Vector<T> {
    type V = Seq<T>;

    open spec fn view(&self) -> Seq<T> {
        self.components@
    }
}

impl<T: Scalar> Vector<T> {
    /// Copies the components of `numbers`; `None` when there are none.
    pub fn new(numbers: &[T]) -> (r: Option<Self>)
        ensures
            numbers@.len() == 0 <==> r is None,
            r matches Some(v) ==> v@ == numbers@,
    {
        if numbers.len() == 0 {
            return None;
        }
        let mut components: Vec<T> = Vec::new();
        let mut i: usize = 0;
        while i < numbers.len()
            invariant
                i <= numbers@.len(),
                components@ == numbers@.subrange(0, i as int),
            decreases numbers@.len() - i,
        {
            components.push(numbers[i]);
            i += 1;
        }
        assert(components@ == numbers@);
        Some(Vector { components })
    }

    /// A copy holding the same components.
    pub fn duplicate(&self) -> (r: Self)
        ensures
            r@ == self@,
    {
        let mut components: Vec<T> = Vec::new();
        let mut i: usize = 0;
        while i < self.components.len()
            invariant
                i <= self@.len(),
                components@ == self@.subrange(0, i as int),
            decreases self@.len() - i,
        {
            components.push(self.components[i]);
            i += 1;
        }
        assert(components@ == self@);
        Vector { components }
    }

    pub fn create_with_vec(numbers: Vec<T>) -> (r: Self)
        ensures
            r@ == numbers@,
    {
        Vector { components: numbers }
    }

    /// A vector of `size` components, each of them `value`.
    pub fn filled(size: usize, value: T) -> (r: Self)
        ensures
            r@ == Seq::new(size as nat, |i: int| value),
    {
        let mut components: Vec<T> = Vec::new();
        let mut i: usize = 0;
        while i < size
            invariant
                i <= size,
                components@ == Seq::new(i as nat, |k: int| value),
            decreases size - i,
        {
            components.push(value);
            i += 1;
        }
        Vector { components }
    }

    pub fn zero(size: usize) -> (r: Self)
        ensures
            r@ == Seq::new(size as nat, |i: int| T::spec_zero()),
    {
        Self::filled(size, T::zero())
    }

    pub fn is_zero(&self) -> (r: bool)
        ensures
            r == forall|i: int| 0 <= i < self@.len() ==> (#[trigger] self@[i]).spec_is_zero(),
    {
        let mut i: usize = 0;
        while i < self.components.len()
            invariant
                i <= self@.len(),
                forall|k: int| 0 <= k < i ==> (#[trigger] self@[k]).spec_is_zero(),
            decreases self@.len() - i,
        {
            if !self.components[i].is_zero() {
                return false;
            }
            i += 1;
        }
        true
    }

    pub fn dimension(&self) -> (r: (usize, usize))
        ensures
            r == (1usize, self@.len() as usize),
    {
        (1, self.components.len())
    }

    pub fn size(&self) -> (r: usize)
        ensures
            r == self@.len(),
    {
        self.components.len()
    }

    /// The component at 1-based `position`; `None` outside `1..=size`.
    pub fn element(&self, position: usize) -> (r: Option<T>)
        ensures
            r == (if 1 <= position <= self@.len() {
                Some(self@[position - 1])
            } else {
                None::<T>
            }),
    {
        if position == 0 || position > self.components.len() {
            None
        } else {
            Some(self.components[position - 1])
        }
    }

    /// Replaces the component at 1-based `position`.
    pub fn change_element(&mut self, position: usize, element: T)
        requires
            1 <= position <= old(self)@.len(),
        ensures
            final(self)@ == old(self)@.update(position - 1, element),
    {
        self.components.set(position - 1, element);
    }

    /// Minus one for a negative component at `position`, one otherwise.
    pub fn sign(&self, position: usize) -> (r: T)
        requires
            1 <= position <= self@.len(),
        ensures
            r == if self@[position - 1].spec_is_negative() {
                T::spec_one().spec_negated()
            } else {
                T::spec_one()
            },
    {
        if self.components[position - 1].is_negative() {
            T::one().negated()
        } else {
            T::one()
        }
    }

    /// The `index`-th vector of the standard basis of dimension `size`.
    pub fn canonical(index: usize, size: usize) -> (r: Self)
        requires
            1 <= index <= size,
        ensures
            r@ == Seq::new(
                size as nat,
                |i: int|
                    if i == index - 1 {
                        T::spec_one()
                    } else {
                        T::spec_zero()
                    },
            ),
    {
        let mut e = Self::zero(size);
        e.change_element(index, T::one());
        assert(e@ =~= Seq::new(
            size as nat,
            |i: int|
                if i == index - 1 {
                    T::spec_one()
                } else {
                    T::spec_zero()
                },
        ));
        e
    }

    /// The vector with every component negated.
    pub fn inverse(&self) -> (r: Self)
        ensures
            r@.len() == self@.len(),
            forall|i: int| 0 <= i < self@.len() ==> #[trigger] r@[i] == self@[i].spec_times(T::spec_one().spec_negated()),
    {
        self.scale(T::one().negated())
    }

    pub fn check_sizes(&self, other: &Self) -> (r: bool)
        ensures
            r == (self@.len() == other@.len()),
    {
        self.components.len() == other.components.len()
    }

    /// Each component multiplied by `factor`.
    pub fn scale(&self, factor: T) -> (r: Self)
        ensures
            r@.len() == self@.len(),
            forall|i: int| 0 <= i < self@.len() ==> #[trigger] r@[i] == self@[i].spec_times(factor),
    {
        let mut components: Vec<T> = Vec::new();
        let mut i: usize = 0;
        while i < self.components.len()
            invariant
                i <= self@.len(),
                components@.len() == i,
                forall|k: int| 0 <= k < i ==> #[trigger] components@[k] == self@[k].spec_times(factor),
            decreases self@.len() - i,
        {
            components.push(self.components[i].times(factor));
            i += 1;
        }
        Vector { components }
    }

    /// The componentwise sum.
    pub fn plus(&self, other: &Self) -> (r: Self)
        requires
            self@.len() == other@.len(),
        ensures
            r@.len() == self@.len(),
            forall|i: int| 0 <= i < self@.len() ==> #[trigger] r@[i] == self@[i].spec_plus(other@[i]),
    {
        let mut components: Vec<T> = Vec::new();
        let mut i: usize = 0;
        while i < self.components.len()
            invariant
                i <= self@.len(),
                self@.len() == other@.len(),
                components@.len() == i,
                forall|k: int| 0 <= k < i ==> #[trigger] components@[k] == self@[k].spec_plus(other@[k]),
            decreases self@.len() - i,
        {
            components.push(self.components[i].plus(other.components[i]));
            i += 1;
        }
        Vector { components }
    }

    /// The componentwise difference.
    pub fn minus(&self, other: &Self) -> (r: Self)
        requires
            self@.len() == other@.len(),
        ensures
            r@.len() == self@.len(),
            forall|i: int| 0 <= i < self@.len() ==> #[trigger] r@[i] == self@[i].spec_minus(other@[i]),
    {
        let mut components: Vec<T> = Vec::new();
        let mut i: usize = 0;
        while i < self.components.len()
            invariant
                i <= self@.len(),
                self@.len() == other@.len(),
                components@.len() == i,
                forall|k: int| 0 <= k < i ==> #[trigger] components@[k] == self@[k].spec_minus(other@[k]),
            decreases self@.len() - i,
        {
            components.push(self.components[i].minus(other.components[i]));
            i += 1;
        }
        Vector { components }
    }

    pub fn dot_product(&self, other: &Self) -> (r: T)
        requires
            self@.len() == other@.len(),
        ensures
            r == dot(self@, other@),
    {
        let mut sum = T::zero();
        let mut i: usize = 0;
        while i < self.components.len()
            invariant
                i <= self@.len(),
                self@.len() == other@.len(),
                sum == dot_upto(self@, other@, i as int),
            decreases self@.len() - i,
        {
            sum = sum.plus(self.components[i].times(other.components[i]));
            i += 1;
        }
        sum
    }

    pub fn magnitude(&self) -> (r: T)
        ensures
            r == magnitude_of(self@),
    {
        self.dot_product(self).square_root()
    }

    /// Each component divided by the magnitude.
    pub fn normalize(&self) -> (r: Self)
        ensures
            r@.len() == self@.len(),
            forall|i: int| 0 <= i < self@.len() ==> #[trigger] r@[i] == self@[i].spec_over(magnitude_of(self@)),
    {
        let magnitude = self.magnitude();
        let mut components: Vec<T> = Vec::new();
        let mut i: usize = 0;
        while i < self.components.len()
            invariant
                i <= self@.len(),
                components@.len() == i,
                magnitude == magnitude_of(self@),
                forall|k: int| 0 <= k < i ==> #[trigger] components@[k] == self@[k].spec_over(magnitude),
            decreases self@.len() - i,
        {
            components.push(self.components[i].over(magnitude));
            i += 1;
        }
        Vector { components }
    }

    /// The projection of `self` onto `other`.
    pub fn proj(&self, other: &Self) -> (r: Self)
        requires
            self@.len() == other@.len(),
        ensures
            r@.len() == other@.len(),
            forall|i: int| 0 <= i < other@.len() ==> #[trigger] r@[i] == other@[i].spec_times(dot(self@, other@).spec_over(dot(other@, other@))),
    {
        other.scale(self.dot_product(other).over(other.dot_product(other)))
    }

    /// The 0-based index of the first component of greatest absolute value
    /// among `init..fin`, or 0 when none of them exceeds zero in absolute value.
    pub fn max_index(&self, init: usize, fin: usize) -> (r: usize)
        requires
            fin <= self@.len(),
        ensures
            r == 0 || init <= r < fin,
            r == max_scan(self@, init as int, fin as int).1,
    {
        let mut max = T::zero();
        let mut index: usize = 0;
        let mut i: usize = init;
        while i < fin
            invariant
                fin <= self@.len(),
                init <= i,
                i <= fin || i == init,
                index == 0 || (init <= index < i && index < fin),
                (max, index as int) == max_scan(self@, init as int, i as int),
            decreases fin - i,
        {
            let a = self.components[i].absolute();
            if a.exceeds(max) {
                max = a;
                index = i;
            }
            i += 1;
        }
        index
    }
}

} // verus!
