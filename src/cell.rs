use vstd::prelude::*;

verus! {

/// Why an operation on a [`CellOpt`] was refused.
#[derive(Clone, Copy, Debug, PartialEq, Eq, Structural)]
pub enum ValueError {
    Occupied,
    Empty,
}

/// A refused [`CellOpt::initialize`]: the value that was offered, and why it
/// was not stored.
#[derive(Clone, Copy, Debug)]
pub struct InitializeErr<T> {
    pub to_insert: T,
    pub err: ValueError,
}

/// A slot that is either empty or holds one value. Filling an occupied slot
/// is refused, and taking from an empty one reports that it was empty.
#[derive(Clone, Copy, Debug)]
pub struct CellOpt<T> {
    pub value: Option<T>,
}

impl<T> Default for CellOpt<T> {
    fn default() -> (c: CellOpt<T>)
        ensures
            c.value is None,
    {
        CellOpt { value: None }
    }
}

impl<T: Copy> CellOpt<T> {
    /// A copy of the value held, if any.
    pub fn get(&self) -> (r: Option<T>)
        ensures
            r == self.value,
    {
        self.value
    }

    /// Applies `f` to the value held, if any, and leaves the slot as it was.
    pub fn restoring_map<U, F: Fn(T) -> U>(&self, f: F) -> (r: Option<U>)
        requires
            self.value is Some ==> f.requires((self.value->0,)),
        ensures
            self.value is None ==> r is None,
            self.value is Some ==> r is Some && f.ensures((self.value->0,), r->0),
    {
        match self.value {
            Some(t) => Some(f(t)),
            None => None,
        }
    }
}

impl<T> CellOpt<T> {
    /// A slot holding `value`.
    pub fn new(value: T) -> (c: CellOpt<T>)
        ensures
            c.value == Some(value),
    {
        CellOpt { value: Some(value) }
    }

    /// Replaces the value held, if any, by `f` of it; an empty slot stays
    /// empty.
    pub fn replacing_map<F: Fn(T) -> T>(&mut self, f: F)
        requires
            old(self).value is Some ==> f.requires((old(self).value->0,)),
        ensures
            old(self).value is None ==> final(self).value is None,
            old(self).value is Some ==> final(self).value is Some && f.ensures(
                (old(self).value->0,),
                final(self).value->0,
            ),
    {
        if let Some(t) = self.value.take() {
            self.value = Some(f(t));
        }
    }

    /// Takes the value out of a slot that is known to hold one.
    pub fn force_take(&mut self) -> (t: T)
        requires
            old(self).value is Some,
        ensures
            t == old(self).value->0,
            final(self).value is None,
    {
        self.value.take().unwrap()
    }

    /// Fills an empty slot with `value`; an occupied slot is left as it is and
    /// `value` is handed back.
    pub fn initialize(&mut self, value: T) -> (r: Result<(), InitializeErr<T>>)
        ensures
            old(self).value is Some ==> (r matches Err(e) && e.to_insert == value && e.err
                == ValueError::Occupied),
            old(self).value is Some ==> final(self).value == old(self).value,
            old(self).value is None ==> r is Ok && final(self).value == Some(value),
    {
        if self.is_occupied() {
            Err(InitializeErr { to_insert: value, err: ValueError::Occupied })
        } else {
            self.value = Some(value);
            Ok(())
        }
    }

    /// Takes the value out, leaving the slot empty.
    pub fn take(&mut self) -> (r: Result<T, ValueError>)
        ensures
            old(self).value matches Some(t) ==> r == Ok::<T, ValueError>(t),
            old(self).value is None ==> r == Err::<T, ValueError>(ValueError::Empty),
            final(self).value is None,
    {
        match self.value.take() {
            Some(t) => Ok(t),
            None => Err(ValueError::Empty),
        }
    }

    pub fn is_occupied(&self) -> (r: bool)
        ensures
            r == self.value is Some,
    {
        self.value.is_some()
    }

    /// Stores `value` in place of whatever the slot held.
    pub fn replace(&mut self, value: Option<T>)
        ensures
            final(self).value == value,
    {
        self.value = value;
    }
}

} // verus!
