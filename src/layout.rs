//! Placement of every layer's output inside one contiguous scratch buffer.
use vstd::prelude::*;

verus! {

/// Offset of region `i`: the sum of the widths of the regions before it.
pub open spec fn region_start(widths: Seq<usize>, i: int) -> int
    decreases i,
{
    if i <= 0 {
        0
    } else {
        region_start(widths, i - 1) + widths[i - 1]
    }
}

/// Length of a buffer that holds every region: the sum of all widths.
pub open spec fn total_width(widths: Seq<usize>) -> int {
    region_start(widths, widths.len() as int)
}

/// Region starts never decrease along the list.
pub proof fn lemma_region_start_monotone(widths: Seq<usize>, i: int, j: int)
    requires
        0 <= i <= j,
    ensures
        region_start(widths, i) <= region_start(widths, j),
    decreases j - i,
{
    if i < j {
        lemma_region_start_monotone(widths, i, j - 1);
    }
}

/// Regions are laid out back to back from offset zero, the last one ends at the
/// total width, and no two of them overlap.
pub proof fn lemma_regions_disjoint(widths: Seq<usize>, i: int, j: int)
    requires
        0 <= i < j <= widths.len(),
    ensures
        region_start(widths, 0) == 0,
        region_start(widths, i + 1) == region_start(widths, i) + widths[i],
        region_start(widths, i) + widths[i] <= region_start(widths, j),
        region_start(widths, j) <= total_width(widths),
{
    lemma_region_start_monotone(widths, i + 1, j);
    lemma_region_start_monotone(widths, j, widths.len() as int);
}

/// Computes the offset of each region and the total buffer length, or `None`
/// when the total does not fit in a `usize`.
pub fn plan_regions(widths: &Vec<usize>) -> (r: Option<(Vec<usize>, usize)>)
    ensures
        r is None <==> total_width(widths@) > usize::MAX,
        r matches Some((offsets, total)) ==> {
            &&& offsets@.len() == widths@.len()
            &&& total == total_width(widths@)
            &&& forall|i: int| 0 <= i < widths@.len() ==> offsets@[i] == region_start(widths@, i)
            &&& widths@.len() > 0 ==> offsets@[0] == 0
            &&& forall|i: int|
                0 < i < widths@.len() ==> #[trigger] offsets@[i] == offsets@[i - 1] + widths@[i - 1]
            &&& widths@.len() > 0 ==> offsets@[widths@.len() - 1] + widths@[widths@.len() - 1]
                == total
            &&& forall|i: int, j: int|
                #![trigger offsets@[i], offsets@[j]]
                0 <= i < j < widths@.len() ==> offsets@[i] + widths@[i] <= offsets@[j]
        },
{
    let mut offsets: Vec<usize> = Vec::new();
    let mut acc: usize = 0;
    let mut k: usize = 0;
    while k < widths.len()
        invariant
            k <= widths@.len(),
            offsets@.len() == k,
            acc == region_start(widths@, k as int),
            forall|i: int| 0 <= i < k ==> offsets@[i] == region_start(widths@, i),
        decreases widths@.len() - k,
    {
        offsets.push(acc);
        match acc.checked_add(widths[k]) {
            Some(next) => {
                acc = next;
            },
            None => {
                proof {
                    lemma_region_start_monotone(widths@, k + 1, widths@.len() as int);
                }
                return None;
            },
        }
        k = k + 1;
    }
    proof {
        assert forall|i: int, j: int| 0 <= i < j < widths@.len() implies offsets@[i]
            + widths@[i] <= offsets@[j] by {
            lemma_regions_disjoint(widths@, i, j);
        }
    }
    Some((offsets, acc))
}

} // verus!
