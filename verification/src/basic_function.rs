//! Small general-purpose helpers shared by the rest of the crate.

use vstd::prelude::*;

verus! {

/// Folds a result of two texts into one line: the success text as it is,
/// the failure text behind an `Error:` mark.
pub fn to_string(x: Result<String, String>) -> (r: String)
    ensures
        match x {
            Ok(s) => r@ == s@,
            Err(e) => r@ == "Error:"@ + e@,
        },
{
    match x {
        Ok(s) => s,
        Err(e) => {
            let mut out = String::new();
            out.append("Error:");
            out.append(e.as_str());
            out
        },
    }
}

/// An owned mutable memory location. Verified code tracks ownership
/// directly, so no reference counting is needed: the cell simply boxes its
/// value and hands out references to it.
pub struct RcRef<T> {
    value: T,
}

impl<T> RcRef<T> {
    /// What the cell holds.
    pub closed spec fn val(&self) -> T {
        self.value
    }

    /// Creates a new cell holding `value`.
    pub fn new(value: T) -> (r: Self)
        ensures
            r.val() == value,
    {
        RcRef { value }
    }

    /// Borrows the held value.
    pub fn brw(&self) -> (r: &T)
        ensures
            *r == self.val(),
    {
        &self.value
    }

    /// Borrows the held value mutably.
    pub fn brw_mut(&mut self) -> (r: &mut T)
        ensures
            *r == old(self).val(),
            final(self).val() == *final(r),
    {
        &mut self.value
    }

    /// A reference to the held value.
    pub fn inner(&self) -> (r: &T)
        ensures
            *r == self.val(),
    {
        &self.value
    }

    /// A clone of the held value.
    pub fn clone_inner(&self) -> (r: T) where T: Clone
        ensures
            vstd::pervasive::cloned(self.val(), r),
    {
        self.value.clone()
    }
}


/// Relies on `String::from_utf8_lossy`: ASCII bytes decode to exactly
/// the characters with the same code points.
#[verifier::external_body]
pub fn bytes_to_string(v: &Vec<u8>) -> (r: String)
    ensures
        (forall|i: int| 0 <= i < v@.len() ==> v@[i] < 128) ==> r@.len() == v@.len() && (forall|
            i: int,
        | 0 <= i < v@.len() ==> r@[i] == v@[i] as char),
{
    String::from_utf8_lossy(v.as_slice()).into_owned()
}

} // verus!
