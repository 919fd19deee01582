//! Values and what contracts say of them: sequences of views, and copies that
//! keep the view.

use vstd::prelude::*;

verus! {

/// The views of a sequence of values, in order.
pub open spec fn each<T: View>(s: Seq<T>) -> Seq<T::V> {
    Seq::new(s.len(), |i: int| s[i]@)
}

/// A value that can be copied without changing what it stands for.
pub trait Dup: View + Sized {
    fn dup(&self) -> (r: Self)
        ensures
            r@ == self@,
    ;
}

impl Dup for String {
    fn dup(&self) -> (r: Self) {
        self.clone()
    }
}

/// A copy of every value, in order.
pub fn dup_all<T: Dup>(v: &Vec<T>) -> (r: Vec<T>)
    ensures
        each(r@) == each(v@),
{
    let mut out: Vec<T> = Vec::new();
    let mut i: usize = 0;
    while i < v.len()
        invariant
            i <= v@.len(),
            each(out@) == each(v@).take(i as int),
        decreases v@.len() - i,
    {
        let ghost before = out@;
        out.push(v[i].dup());
        assert(each(out@) =~= each(before).push(v@[i as int]@));
        assert(each(v@).take(i + 1) =~= each(v@).take(i as int).push(v@[i as int]@));
        i += 1;
    }
    assert(each(v@).take(i as int) =~= each(v@));
    out
}

/// Adding one value adds its view.
pub proof fn each_push<T: View>(s: Seq<T>, t: T)
    ensures
        each(s.push(t)) == each(s).push(t@),
{
    assert(each(s.push(t)) =~= each(s).push(t@));
}

/// Joining sequences joins their views.
pub proof fn each_add<T: View>(s: Seq<T>, t: Seq<T>)
    ensures
        each(s + t) == each(s) + each(t),
{
    assert(each(s + t) =~= each(s) + each(t));
}

} // verus!
