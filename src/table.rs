//! A small in-memory table of models, looked up by id.
use vstd::prelude::*;

verus! {

/// A model that knows its own id.
pub trait Identifiable {
    fn get_id(&self) -> String;
}

/// `row.get_id()` may give `id`.
pub open spec fn has_id<T: Identifiable>(row: &T, id: Seq<char>) -> bool {
    exists|s: String| call_ensures(T::get_id, (row,), s) && s@ == id
}

/// `row.get_id()` may give something other than `id`.
pub open spec fn lacks_id<T: Identifiable>(row: &T, id: Seq<char>) -> bool {
    exists|s: String| call_ensures(T::get_id, (row,), s) && s@ != id
}

/// Rows in insertion order.
pub struct Table<T> {
    data: Vec<T>,
}

impl<T: Identifiable + Clone> Table<T> {
    pub closed spec fn rows(&self) -> Seq<T> {
        self.data@
    }

    pub fn new() -> (r: Self)
        ensures
            r.rows() == Seq::<T>::empty(),
    {
        Table { data: Vec::new() }
    }

    /// Appends a row.
    pub fn insert(&mut self, row: T)
        ensures
            final(self).rows() == old(self).rows().push(row),
    {
        self.data.push(row);
    }

    /// Copies of every row, in order.
    pub fn all(&self) -> (r: Vec<T>)
        ensures
            r@.len() == self.rows().len(),
            forall|i: int| 0 <= i < r@.len() ==> cloned(self.rows()[i], #[trigger] r@[i]),
    {
        let mut out: Vec<T> = Vec::new();
        let mut k: usize = 0;
        while k < self.data.len()
            invariant
                k <= self.data@.len(),
                out@.len() == k,
                forall|i: int| 0 <= i < k ==> cloned(self.data@[i], #[trigger] out@[i]),
            decreases self.data@.len() - k,
        {
            out.push(self.data[k].clone());
            k = k + 1;
        }
        out
    }

    /// A copy of the first row whose id is `id`: every earlier row gave
    /// another id; none when every row gave another id.
    pub fn find(&self, id: &String) -> (r: Option<T>)
        ensures
            match r {
                Some(t) => exists|i: int| 0 <= i < self.rows().len() && cloned(self.rows()[i], t) && has_id(&self.rows()[i], id@)
                    && forall|j: int| 0 <= j < i ==> lacks_id(&#[trigger] self.rows()[j], id@),
                None => forall|j: int| 0 <= j < self.rows().len() ==> lacks_id(&#[trigger] self.rows()[j], id@),
            },
    {
        let mut k: usize = 0;
        while k < self.data.len()
            invariant
                k <= self.data@.len(),
                forall|j: int| 0 <= j < k ==> lacks_id(&#[trigger] self.data@[j], id@),
            decreases self.data@.len() - k,
        {
            let got = self.data[k].get_id();
            if got == *id {
                let row = self.data[k].clone();
                assert(cloned(self.rows()[k as int], row));
                assert(has_id(&self.rows()[k as int], id@));
                return Some(row);
            }
            assert(lacks_id(&self.data@[k as int], id@));
            k = k + 1;
        }
        None
    }
}

} // verus!
