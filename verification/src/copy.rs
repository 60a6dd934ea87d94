//! Copies that keep a value's view.
use vstd::prelude::*;

verus! {

/// Values that can be copied with the same view.
pub trait Duplicate: View + Sized {
    /// A copy with the same view.
    fn duplicate(&self) -> (res: Self)
        ensures
            res@ == self@,
    ;
}

/// The views of a sequence of values.
pub open spec fn view_seq<T: View>(s: Seq<T>) -> Seq<T::V> {
    s.map_values(|x: T| x@)
}

/// Views distribute over `push`.
pub proof fn lemma_view_seq_push<T: View>(s: Seq<T>, x: T)
    ensures
        view_seq(s.push(x)) == view_seq(s).push(x@),
{
    assert(view_seq(s.push(x)) =~= view_seq(s).push(x@));
}

/// Views of a longer prefix.
pub proof fn lemma_view_seq_take<T: View>(s: Seq<T>, i: int)
    requires
        0 <= i < s.len(),
    ensures
        view_seq(s.take(i + 1)) == view_seq(s.take(i)).push(s[i]@),
{
    assert(s.take(i + 1) =~= s.take(i).push(s[i]));
    lemma_view_seq_push(s.take(i), s[i]);
}

/// Copies of every element of a slice.
pub fn copy_all<T: Duplicate>(v: &[T]) -> (res: Vec<T>)
    ensures
        view_seq(res@) == view_seq(v@),
{
    let mut res: Vec<T> = Vec::new();
    let mut i: usize = 0;
    while i < v.len()
        invariant
            i <= v@.len(),
            view_seq(res@) == view_seq(v@.take(i as int)),
        decreases v@.len() - i,
    {
        let c = v[i].duplicate();
        proof {
            lemma_view_seq_push(res@, c);
            lemma_view_seq_take(v@, i as int);
        }
        res.push(c);
        i = i + 1;
    }
    assert(v@.take(i as int) =~= v@);
    res
}

impl Duplicate for String {
    fn duplicate(&self) -> (res: Self) {
        self.clone()
    }
}

} // verus!
