//! Sorting the images of a directory into the order of the thumbnail strip.

use vstd::prelude::*;
use crate::natural::{
    file_name_order, file_name_sign, file_name_order_chains_ties, file_name_order_is_antisymmetric,
};

verus! {

/// Whether `entries`, pairs of a sort key and a path, are in file-name order of their keys.
pub open spec fn sorted_by_name(entries: Seq<(String, String)>) -> bool {
    forall|i: int, k: int|
        0 <= i < k < entries.len() ==> file_name_order(
            #[trigger] entries[i].0@,
            #[trigger] entries[k].0@,
        ) <= 0
}

/// Whether `sorted` is `entries` sorted stably by key: `origin` gives, for each position
/// of `sorted`, the distinct position of `entries` it holds; the keys are in file-name
/// order; and entries whose keys tie keep the order they had in `entries`.
pub open spec fn is_stable_sort(
    entries: Seq<(String, String)>,
    sorted: Seq<(String, String)>,
    origin: Seq<int>,
) -> bool {
    &&& sorted.len() == entries.len()
    &&& origin.len() == sorted.len()
    &&& forall|i: int|
        0 <= i < sorted.len() ==> 0 <= #[trigger] origin[i] < entries.len() && sorted[i]
            == entries[origin[i]]
    &&& forall|i: int, k: int| 0 <= i < k < sorted.len() ==> #[trigger] origin[i] != #[trigger] origin[k]
    &&& sorted_by_name(sorted)
    &&& forall|i: int, k: int|
        0 <= i < k < sorted.len() && file_name_order(#[trigger] sorted[i].0@, #[trigger] sorted[k].0@)
            == 0 ==> origin[i] < origin[k]
}

/// Sorts pairs of a file-name key and a path by the key, in natural, case-insensitive
/// order; pairs whose keys tie keep their order.
pub fn sort_by_file_name(entries: Vec<(String, String)>) -> (r: Vec<(String, String)>)
    ensures
        exists|origin: Seq<int>| is_stable_sort(entries@, r@, origin),
{
    let ghost input = entries@;
    let mut rest = entries;
    let mut sorted: Vec<(String, String)> = Vec::new();
    let ghost mut origin: Seq<int> = Seq::empty();
    while rest.len() > 0
        invariant
            rest@ == input.take(rest@.len() as int),
            rest@.len() <= input.len(),
            sorted@.len() + rest@.len() == input.len(),
            origin.len() == sorted@.len(),
            forall|i: int|
                0 <= i < sorted@.len() ==> rest@.len() <= #[trigger] origin[i] < input.len()
                    && sorted@[i] == input[origin[i]],
            forall|i: int, k: int|
                0 <= i < k < sorted@.len() ==> #[trigger] origin[i] != #[trigger] origin[k],
            sorted_by_name(sorted@),
            forall|i: int, k: int|
                0 <= i < k < sorted@.len() && file_name_order(
                    #[trigger] sorted@[i].0@,
                    #[trigger] sorted@[k].0@,
                ) == 0 ==> origin[i] < origin[k],
        decreases rest@.len(),
    {
        let ghost before = rest@;
        let entry = rest.pop().unwrap();
        let ghost position = rest@.len() as int;
        proof {
            assert(before == rest@.push(entry));
            assert(entry == input[position]);
            assert(rest@ =~= input.take(position));
        }
        let mut j: usize = 0;
        let mut searching = true;
        while searching && j < sorted.len()
            invariant
                j <= sorted@.len(),
                forall|i: int| 0 <= i < j ==> file_name_order(#[trigger] sorted@[i].0@, entry.0@) < 0,
                !searching ==> j < sorted@.len() && file_name_order(sorted@[j as int].0@, entry.0@)
                    >= 0,
            decreases sorted@.len() - j + (if searching { 1int } else { 0int }),
        {
            let sign = file_name_sign(sorted[j].0.as_str(), entry.0.as_str());
            if sign < 0 {
                j = j + 1;
            } else {
                searching = false;
            }
        }
        let ghost old_sorted = sorted@;
        let ghost old_origin = origin;
        sorted.insert(j, entry);
        proof {
            origin = old_origin.insert(j as int, position);
            assert forall|i: int| 0 <= i < sorted@.len() implies rest@.len() <= #[trigger] origin[i]
                < input.len() && sorted@[i] == input[origin[i]] by {
                if i < j {
                    assert(origin[i] == old_origin[i] && sorted@[i] == old_sorted[i]);
                } else if i > j {
                    assert(origin[i] == old_origin[i - 1] && sorted@[i] == old_sorted[i - 1]);
                }
            }
            assert forall|i: int, k: int| 0 <= i < k < sorted@.len() implies #[trigger] origin[i]
                != #[trigger] origin[k] by {
                if k < j {
                    assert(origin[i] == old_origin[i] && origin[k] == old_origin[k]);
                } else if k == j {
                    assert(origin[i] == old_origin[i]);
                } else if i > j {
                    assert(origin[i] == old_origin[i - 1] && origin[k] == old_origin[k - 1]);
                } else if i == j {
                    assert(origin[k] == old_origin[k - 1]);
                } else {
                    assert(origin[i] == old_origin[i] && origin[k] == old_origin[k - 1]);
                }
            }
            assert forall|i: int, k: int| 0 <= i < k < sorted@.len() implies file_name_order(
                #[trigger] sorted@[i].0@,
                #[trigger] sorted@[k].0@,
            ) <= 0 && (file_name_order(sorted@[i].0@, sorted@[k].0@) == 0 ==> origin[i]
                < origin[k]) by {
                if k < j {
                    assert(sorted@[i] == old_sorted[i] && sorted@[k] == old_sorted[k]);
                    assert(origin[i] == old_origin[i] && origin[k] == old_origin[k]);
                } else if k == j {
                    assert(sorted@[i] == old_sorted[i]);
                } else if i > j {
                    assert(sorted@[i] == old_sorted[i - 1] && sorted@[k] == old_sorted[k - 1]);
                    assert(origin[i] == old_origin[i - 1] && origin[k] == old_origin[k - 1]);
                } else if i == j {
                    assert(sorted@[k] == old_sorted[k - 1]);
                    assert(origin[i] == position && origin[k] == old_origin[k - 1]);
                    file_name_order_is_antisymmetric(old_sorted[j as int].0@, entry.0@);
                    if k - 1 > j {
                        file_name_order_chains_ties(
                            entry.0@,
                            old_sorted[j as int].0@,
                            old_sorted[k - 1].0@,
                        );
                    }
                } else {
                    assert(sorted@[i] == old_sorted[i] && sorted@[k] == old_sorted[k - 1]);
                    assert(origin[i] == old_origin[i] && origin[k] == old_origin[k - 1]);
                }
            }
        }
    }
    assert(is_stable_sort(input, sorted@, origin));
    sorted
}

} // verus!
