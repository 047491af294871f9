use vstd::prelude::*;

verus! {

/// Bottom-up aggregation over an octree.
///
/// `gather` lifts one leaf item into the accumulator type `Sum`; `fold`
/// combines the sums of one node's children (at least one, at most eight,
/// in the order the caller hands them over) into the node's sum.
pub trait Folder<Item, M> {
    /// The accumulator that `gather` and `fold` produce.
    type Sum: View;

    /// What `gather` yields, seen through its view, for a leaf with key
    /// `morton` holding `item`.
    spec fn gather_spec(&self, morton: M, item: Item) -> <Self::Sum as View>::V;

    /// What `fold` yields, seen through its view, for children whose sums
    /// have the views `sums`.
    spec fn fold_spec(&self, sums: Seq<<Self::Sum as View>::V>) -> <Self::Sum as View>::V;

    /// Converts a leaf into the accumulator type.
    fn gather(&self, morton: M, item: &Item) -> (r: Self::Sum)
        ensures
            r@ == self.gather_spec(morton, *item),
    ;

    /// Combines the sums of between one and eight children.
    fn fold(&self, sums: Vec<Self::Sum>) -> (r: Self::Sum)
        requires
            1 <= sums@.len() <= 8,
        ensures
            r@ == self.fold_spec(views(sums@)),
    ;
}

/// The views of the elements of `s`.
pub open spec fn views<T: View>(s: Seq<T>) -> Seq<T::V> {
    s.map_values(|x: T| x@)
}

/// The first components of a sequence of pairs.
pub open spec fn firsts<X, Y>(s: Seq<(X, Y)>) -> Seq<X> {
    s.map_values(|p: (X, Y)| p.0)
}

/// The second components of a sequence of pairs.
pub open spec fn seconds<X, Y>(s: Seq<(X, Y)>) -> Seq<Y> {
    s.map_values(|p: (X, Y)| p.1)
}

/// Splits a vector of pairs into the vector of first and of second components.
pub fn unzip<X, Y>(pairs: Vec<(X, Y)>) -> (r: (Vec<X>, Vec<Y>))
    ensures
        r.0@ == firsts(pairs@),
        r.1@ == seconds(pairs@),
{
    let ghost all = pairs@;
    let mut rest = pairs;
    let mut xs: Vec<X> = Vec::new();
    let mut ys: Vec<Y> = Vec::new();
    while rest.len() > 0
        invariant
            xs@.len() + rest@.len() == all.len(),
            xs@ == firsts(all.take(xs@.len() as int)),
            ys@ == seconds(all.take(xs@.len() as int)),
            rest@ == all.skip(xs@.len() as int),
        decreases rest@.len(),
    {
        let ghost k = xs@.len() as int;
        let (x, y) = rest.remove(0);
        xs.push(x);
        ys.push(y);
        assert(all.take(k + 1) == all.take(k).push(all[k]));
        assert(rest@ =~= all.skip(k + 1));
    }
    assert(all.take(all.len() as int) =~= all);
    (xs, ys)
}

/// Runs two folders in one traversal; the sum is the pair of their sums.
impl<Item, M: Copy, A: Folder<Item, M>, B: Folder<Item, M>> Folder<Item, M> for (A, B) {
    type Sum = (A::Sum, B::Sum);

    open spec fn gather_spec(&self, morton: M, item: Item) -> (<A::Sum as View>::V, <B::Sum as View>::V) {
        (self.0.gather_spec(morton, item), self.1.gather_spec(morton, item))
    }

    open spec fn fold_spec(&self, sums: Seq<(<A::Sum as View>::V, <B::Sum as View>::V)>) -> (<A::Sum as View>::V, <B::Sum as View>::V) {
        (self.0.fold_spec(firsts(sums)), self.1.fold_spec(seconds(sums)))
    }

    fn gather(&self, morton: M, item: &Item) -> (r: (A::Sum, B::Sum)) {
        (self.0.gather(morton, item), self.1.gather(morton, item))
    }

    fn fold(&self, sums: Vec<(A::Sum, B::Sum)>) -> (r: (A::Sum, B::Sum)) {
        let ghost all = sums@;
        let (a, b) = unzip(sums);
        assert(views(a@) =~= firsts(views(all)));
        assert(views(b@) =~= seconds(views(all)));
        (self.0.fold(a), self.1.fold(b))
    }
}

/// The third components of a sequence of triples.
pub open spec fn thirds<X, Y, Z>(s: Seq<(X, Y, Z)>) -> Seq<Z> {
    s.map_values(|p: (X, Y, Z)| p.2)
}

/// Splits a vector of triples into the vectors of their components.
pub fn unzip3<X, Y, Z>(triples: Vec<(X, Y, Z)>) -> (r: (Vec<X>, Vec<Y>, Vec<Z>))
    ensures
        r.0@ == triples@.map_values(|p: (X, Y, Z)| p.0),
        r.1@ == triples@.map_values(|p: (X, Y, Z)| p.1),
        r.2@ == thirds(triples@),
{
    let ghost all = triples@;
    let mut rest = triples;
    let mut xs: Vec<X> = Vec::new();
    let mut ys: Vec<Y> = Vec::new();
    let mut zs: Vec<Z> = Vec::new();
    while rest.len() > 0
        invariant
            xs@.len() + rest@.len() == all.len(),
            xs@ == all.take(xs@.len() as int).map_values(|p: (X, Y, Z)| p.0),
            ys@ == all.take(xs@.len() as int).map_values(|p: (X, Y, Z)| p.1),
            zs@ == thirds(all.take(xs@.len() as int)),
            rest@ == all.skip(xs@.len() as int),
        decreases rest@.len(),
    {
        let ghost k = xs@.len() as int;
        let (x, y, z) = rest.remove(0);
        xs.push(x);
        ys.push(y);
        zs.push(z);
        assert(all.take(k + 1) == all.take(k).push(all[k]));
        assert(xs@ =~= all.take(k + 1).map_values(|p: (X, Y, Z)| p.0));
        assert(ys@ =~= all.take(k + 1).map_values(|p: (X, Y, Z)| p.1));
        assert(zs@ =~= thirds(all.take(k + 1)));
        assert(rest@ =~= all.skip(k + 1));
    }
    assert(all.take(all.len() as int) =~= all);
    (xs, ys, zs)
}

/// Runs three folders in one traversal; the sum is the triple of their sums.
/// Wider composites nest pairs and triples, e.g. `((a, b, c), (d, e))`.
impl<
    Item,
    M: Copy,
    A: Folder<Item, M>,
    B: Folder<Item, M>,
    C: Folder<Item, M>,
> Folder<Item, M> for (A, B, C) {
    type Sum = (A::Sum, B::Sum, C::Sum);

    open spec fn gather_spec(&self, morton: M, item: Item) -> (
        <A::Sum as View>::V,
        <B::Sum as View>::V,
        <C::Sum as View>::V,
    ) {
        (
            self.0.gather_spec(morton, item),
            self.1.gather_spec(morton, item),
            self.2.gather_spec(morton, item),
        )
    }

    open spec fn fold_spec(
        &self,
        sums: Seq<(<A::Sum as View>::V, <B::Sum as View>::V, <C::Sum as View>::V)>,
    ) -> (<A::Sum as View>::V, <B::Sum as View>::V, <C::Sum as View>::V) {
        (
            self.0.fold_spec(sums.map_values(|p: (<A::Sum as View>::V, <B::Sum as View>::V, <C::Sum as View>::V)| p.0)),
            self.1.fold_spec(sums.map_values(|p: (<A::Sum as View>::V, <B::Sum as View>::V, <C::Sum as View>::V)| p.1)),
            self.2.fold_spec(thirds(sums)),
        )
    }

    fn gather(&self, morton: M, item: &Item) -> (r: (A::Sum, B::Sum, C::Sum)) {
        (self.0.gather(morton, item), self.1.gather(morton, item), self.2.gather(morton, item))
    }

    fn fold(&self, sums: Vec<(A::Sum, B::Sum, C::Sum)>) -> (r: (A::Sum, B::Sum, C::Sum)) {
        let ghost all = sums@;
        let (a, b, c) = unzip3(sums);
        assert(views(a@) =~= views(all).map_values(|p: (<A::Sum as View>::V, <B::Sum as View>::V, <C::Sum as View>::V)| p.0));
        assert(views(b@) =~= views(all).map_values(|p: (<A::Sum as View>::V, <B::Sum as View>::V, <C::Sum as View>::V)| p.1));
        assert(views(c@) =~= thirds(views(all)));
        (self.0.fold(a), self.1.fold(b), self.2.fold(c))
    }
}

/// A reference to a folder folds as the folder does.
impl<Item, M, F: Folder<Item, M>> Folder<Item, M> for &F {
    type Sum = F::Sum;

    open spec fn gather_spec(&self, morton: M, item: Item) -> <F::Sum as View>::V {
        (*self).gather_spec(morton, item)
    }

    open spec fn fold_spec(&self, sums: Seq<<F::Sum as View>::V>) -> <F::Sum as View>::V {
        (*self).fold_spec(sums)
    }

    fn gather(&self, morton: M, item: &Item) -> (r: F::Sum) {
        (*self).gather(morton, item)
    }

    fn fold(&self, sums: Vec<F::Sum>) -> (r: F::Sum) {
        (*self).fold(sums)
    }
}

/// A folder whose sum is the unit value; it aggregates nothing.
#[derive(Clone, Copy, Debug)]
pub struct NullFolder;

impl<Item, M> Folder<Item, M> for NullFolder {
    type Sum = ();

    open spec fn gather_spec(&self, morton: M, item: Item) -> () {
        ()
    }

    open spec fn fold_spec(&self, sums: Seq<()>) -> () {
        ()
    }

    fn gather(&self, morton: M, item: &Item) -> (r: ()) {
    }

    fn fold(&self, sums: Vec<()>) -> (r: ()) {
    }
}

/// The sum of a sequence of counts.
pub open spec fn total(s: Seq<u64>) -> int
    decreases s.len(),
{
    if s.len() == 0 {
        0
    } else {
        total(s.drop_last()) + s.last()
    }
}

/// The largest count a `u64` holds.
pub open spec fn saturate(n: int) -> u64 {
    if n > u64::MAX { u64::MAX } else { n as u64 }
}

/// Counts the leaves of a subtree; the count saturates at `u64::MAX`.
#[derive(Clone, Copy, Debug)]
pub struct LeafCount;

impl<Item, M> Folder<Item, M> for LeafCount {
    type Sum = u64;

    open spec fn gather_spec(&self, morton: M, item: Item) -> u64 {
        1
    }

    open spec fn fold_spec(&self, sums: Seq<u64>) -> u64 {
        saturate(total(sums))
    }

    fn gather(&self, morton: M, item: &Item) -> (r: u64) {
        1
    }

    fn fold(&self, sums: Vec<u64>) -> (r: u64) {
        let ghost s = views(sums@);
        assert(s =~= sums@);
        let mut acc: u64 = 0;
        let mut i: usize = 0;
        while i < sums.len()
            invariant
                i <= sums@.len(),
                s == sums@,
                acc == saturate(total(sums@.take(i as int))),
            decreases sums@.len() - i,
        {
            assert(sums@.take(i + 1).drop_last() =~= sums@.take(i as int));
            proof {
                lemma_total_nonneg(sums@.take(i as int));
            }
            acc = acc.saturating_add(sums[i]);
            i = i + 1;
        }
        assert(sums@.take(i as int) =~= sums@);
        acc
    }
}

/// A sum of counts is never negative.
pub proof fn lemma_total_nonneg(s: Seq<u64>)
    ensures
        total(s) >= 0,
    decreases s.len(),
{
    if s.len() > 0 {
        lemma_total_nonneg(s.drop_last());
    }
}

/// The concatenation of a sequence of key lists, in order.
pub open spec fn concat(s: Seq<Seq<u64>>) -> Seq<u64>
    decreases s.len(),
{
    if s.len() == 0 {
        seq![]
    } else {
        concat(s.drop_last()) + s.last()
    }
}

/// Collects the keys of the leaves of a subtree, children in the order given.
#[derive(Clone, Copy, Debug)]
pub struct KeyCollector;

impl<Item> Folder<Item, u64> for KeyCollector {
    type Sum = Vec<u64>;

    open spec fn gather_spec(&self, morton: u64, item: Item) -> Seq<u64> {
        seq![morton]
    }

    open spec fn fold_spec(&self, sums: Seq<Seq<u64>>) -> Seq<u64> {
        concat(sums)
    }

    fn gather(&self, morton: u64, item: &Item) -> (r: Vec<u64>) {
        let mut r: Vec<u64> = Vec::new();
        r.push(morton);
        assert(r@ =~= seq![morton]);
        r
    }

    fn fold(&self, sums: Vec<Vec<u64>>) -> (r: Vec<u64>) {
        let ghost s = views(sums@);
        let mut r: Vec<u64> = Vec::new();
        let mut i: usize = 0;
        while i < sums.len()
            invariant
                i <= sums@.len(),
                s == views(sums@),
                r@ == concat(s.take(i as int)),
            decreases sums@.len() - i,
        {
            assert(s.take(i + 1).drop_last() =~= s.take(i as int));
            let ghost before = r@;
            let part = &sums[i];
            let mut j: usize = 0;
            while j < part.len()
                invariant
                    j <= part@.len(),
                    part@ == s[i as int],
                    r@ == before + part@.take(j as int),
                decreases part@.len() - j,
            {
                r.push(part[j]);
                assert(part@.take(j + 1) =~= part@.take(j as int).push(part@[j as int]));
                j = j + 1;
            }
            assert(part@.take(j as int) =~= part@);
            i = i + 1;
        }
        assert(s.take(i as int) =~= s);
        r
    }
}

/// The pairs of corresponding elements of two sequences of equal length.
pub open spec fn zip<X, Y>(a: Seq<X>, b: Seq<Y>) -> Seq<(X, Y)> {
    Seq::new(a.len(), |i: int| (a[i], b[i]))
}

/// Two folders run as one give, on each leaf and on each set of children,
/// the pair of what each gives when run alone; so over any tree the pair's
/// result is the pair of the two results.
pub proof fn lemma_pair_folder<Item, M: Copy, A: Folder<Item, M>, B: Folder<Item, M>>(
    f: (A, B),
    morton: M,
    item: Item,
    a: Seq<<A::Sum as View>::V>,
    b: Seq<<B::Sum as View>::V>,
)
    requires
        a.len() == b.len(),
    ensures
        f.gather_spec(morton, item) == (f.0.gather_spec(morton, item), f.1.gather_spec(morton, item)),
        f.fold_spec(zip(a, b)) == (f.0.fold_spec(a), f.1.fold_spec(b)),
{
    assert(firsts(zip(a, b)) =~= a);
    assert(seconds(zip(a, b)) =~= b);
}

/// The null folder yields the unit value on every leaf and every set of
/// children, whatever the tree holds.
pub proof fn lemma_null_folder_unit<Item, M>(f: NullFolder, morton: M, item: Item, sums: Seq<()>)
    ensures
        <NullFolder as Folder<Item, M>>::gather_spec(&f, morton, item) == (),
        <NullFolder as Folder<Item, M>>::fold_spec(&f, sums) == (),
{
}

} // verus!
