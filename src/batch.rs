//! Splitting identifier lists into the batches that one bulk mutation may carry.
use vstd::prelude::*;
use vstd::arithmetic::div_mod::lemma_div_multiples_vanish_fancy;

verus! {

/// Most identifiers that one bulk add or remove call may carry.
pub const MAX_BATCH_SIZE: usize = 50;

/// Concatenation of the batches, in order.
pub open spec fn flatten(batches: Seq<Seq<String>>) -> Seq<String>
    decreases batches.len(),
{
    if batches.len() == 0 {
        Seq::empty()
    } else {
        flatten(batches.drop_last()) + batches.last()
    }
}

pub open spec fn batch_views(r: Seq<Vec<String>>) -> Seq<Seq<String>> {
    r.map_values(|c: Vec<String>| c@)
}

/// Number of batches of at most `size` that `n` items need: the ceiling of `n / size`.
pub open spec fn batch_count(n: nat, size: nat) -> int {
    (n + size - 1) / (size as int)
}

/// `batches` is `ids` cut, in order, into consecutive non-empty pieces of
/// `size` items, the last of which may be shorter.
pub open spec fn is_split_of(batches: Seq<Seq<String>>, ids: Seq<String>, size: nat) -> bool {
    &&& batches.len() == batch_count(ids.len(), size)
    &&& flatten(batches) == ids
    &&& forall|k: int| 0 <= k < batches.len() ==> 0 < #[trigger] batches[k].len() <= size
    &&& forall|k: int| 0 <= k < batches.len() - 1 ==> #[trigger] batches[k].len() == size
}

/// Cuts `ids` into consecutive batches of `size` identifiers, keeping their order;
/// only the last batch may be shorter.
pub fn chunk_ids(ids: &Vec<String>, size: usize) -> (r: Vec<Vec<String>>)
    requires
        size > 0,
    ensures
        is_split_of(batch_views(r@), ids@, size as nat),
{
    let n = ids.len();
    let mut r: Vec<Vec<String>> = Vec::new();
    let mut start: usize = 0;
    assert(ids@.subrange(0, 0) =~= Seq::<String>::empty());
    assert(0 * (size as int) == 0);
    assert(((size - 1) as int) / (size as int) == 0) by (nonlinear_arith)
        requires size > 0;
    while start < n
        invariant
            start <= n == ids@.len(),
            size > 0,
            start == n || start == r@.len() * size,
            r@.len() == batch_count(start as nat, size as nat),
            flatten(batch_views(r@)) == ids@.subrange(0, start as int),
            forall|k: int| 0 <= k < r@.len() ==> 0 < #[trigger] r@[k]@.len() <= size,
            forall|k: int| 0 <= k < r@.len() - 1 ==> #[trigger] r@[k]@.len() == size,
            start < n ==> forall|k: int| 0 <= k < r@.len() ==> #[trigger] r@[k]@.len() == size,
        decreases n - start,
    {
        let end: usize = if n - start > size { start + size } else { n };
        let mut chunk: Vec<String> = Vec::new();
        let mut j: usize = start;
        while j < end
            invariant
                start <= j <= end <= n == ids@.len(),
                chunk@ == ids@.subrange(start as int, j as int),
            decreases end - j,
        {
            chunk.push(ids[j].clone());
            assert(chunk@ =~= ids@.subrange(start as int, j + 1));
            j = j + 1;
        }
        let ghost old_r = r@;
        r.push(chunk);
        proof {
            let rv = batch_views(r@);
            assert(rv.drop_last() =~= batch_views(old_r));
            assert(rv.last() == chunk@);
            assert(ids@.subrange(0, end as int) =~= ids@.subrange(0, start as int) + ids@.subrange(
                start as int,
                end as int,
            ));
            let q = old_r.len() as int;
            let s = size as int;
            let len = (end - start) as int;
            assert(s * (q + 1) + (len - 1) == q * s + len + s - 1) by (nonlinear_arith);
            assert((q + 1) * s == q * s + s) by (nonlinear_arith);
            lemma_div_multiples_vanish_fancy(q + 1, len - 1, s);
        }
        start = end;
    }
    assert(ids@.subrange(0, n as int) =~= ids@);
    r
}

} // verus!
