use vstd::prelude::*;

use std::collections::HashMap;

use crate::text::{contains_text, has_substring};

verus! {

broadcast use {vstd::std_specs::hash::group_hash_axioms, vstd::seq_lib::group_to_multiset_ensures};

/// Along which axis a tensor's values share one quantisation range.
#[derive(Debug, Clone, Copy, PartialEq, Eq, Structural)]
pub enum QuantAxis {
    /// One range for the whole tensor (axis `-1`).
    PerTensor,
    /// One range per row (axis `0`).
    PerRow,
    /// One range per column (axis `1`).
    PerColumn,
}

/// The quantisation axis that `axis` selects.
pub open spec fn quant_axis_of(axis: i64) -> Option<QuantAxis> {
    if axis == -1 {
        Some(QuantAxis::PerTensor)
    } else if axis == 0 {
        Some(QuantAxis::PerRow)
    } else if axis == 1 {
        Some(QuantAxis::PerColumn)
    } else {
        None
    }
}

impl QuantAxis {
    /// The axis that `axis` selects, or `None` for an unsupported axis.
    pub fn from_axis(axis: i64) -> (r: Option<QuantAxis>)
        ensures
            r == quant_axis_of(axis),
    {
        if axis == -1 {
            Some(QuantAxis::PerTensor)
        } else if axis == 0 {
            Some(QuantAxis::PerRow)
        } else if axis == 1 {
            Some(QuantAxis::PerColumn)
        } else {
            None
        }
    }
}

/// The axis used for a parameter: the requested axis for a weight matrix or a convolution
/// kernel (2 or 4 dimensions) that is not a bias, the whole tensor otherwise.
pub open spec fn axis_for_param(name: Seq<char>, dim: i64, quant_axis: i64) -> i64 {
    if (dim == 2 || dim == 4) && !has_substring(name, "bias"@) {
        quant_axis
    } else {
        -1i64
    }
}

/// The quantisation axis for the parameter `name` with `dim` dimensions.
pub fn quant_axis_for(name: &str, dim: i64, quant_axis: i64) -> (r: i64)
    ensures
        r == axis_for_param(name@, dim, quant_axis),
        r == if (dim == 2 || dim == 4) && !has_substring(name@, "bias"@) { quant_axis } else { -1i64 },
{
    let large = (dim == 2 || dim == 4) && !contains_text(name, "bias");
    if large {
        quant_axis
    } else {
        -1
    }
}

/// How often each symbol occurs in `symbols`.
pub fn symbol_frequencies(symbols: &Vec<i64>) -> (r: HashMap<i64, usize>)
    ensures
        forall|k: i64| #[trigger] r@.contains_key(k) <==> symbols@.contains(k),
        forall|k: i64| #[trigger] r@.contains_key(k) ==> r@[k] == symbols@.to_multiset().count(k),
{
    let mut freq: HashMap<i64, usize> = HashMap::new();
    let mut i: usize = 0;
    while i < symbols.len()
        invariant
            i <= symbols@.len(),
            forall|k: i64| #[trigger] freq@.contains_key(k) <==> symbols@.take(i as int).contains(k),
            forall|k: i64| #[trigger] freq@.contains_key(k) ==> freq@[k] == symbols@.take(i as int).to_multiset().count(k),
            forall|k: i64| #[trigger] freq@.contains_key(k) ==> freq@[k] <= i,
        decreases symbols@.len() - i,
    {
        let sym = symbols[i];
        let ghost prefix = symbols@.take(i as int);
        assert(symbols@.take(i + 1) =~= prefix.push(sym));
        let count: usize = match freq.get(&sym) {
            Some(c) => {
                *c
            },
            None => {
                assert(!prefix.contains(sym));
                0
            },
        };
        let ghost old_freq = freq@;
        freq.insert(sym, count + 1);
        i = i + 1;
        proof {
            let ms = prefix.to_multiset();
            assert(prefix.push(sym).to_multiset() =~= ms.insert(sym));
            assert(symbols@.take(i as int).to_multiset() =~= ms.insert(sym));
            assert(!prefix.contains(sym) ==> ms.count(sym) == 0);
            assert forall|k: i64| #[trigger] freq@.contains_key(k) implies freq@[k]
                == symbols@.take(i as int).to_multiset().count(k) && freq@[k] <= i by {
                if k != sym {
                    assert(old_freq.contains_key(k));
                }
            }
            assert forall|k: i64| #[trigger] freq@.contains_key(k) <==> symbols@.take(i as int).contains(k) by {
                if k != sym && prefix.push(sym).contains(k) {
                    let j = choose|j: int| 0 <= j < prefix.push(sym).len() && prefix.push(sym)[j] == k;
                    assert(prefix[j] == k);
                }
                if k == sym {
                    assert(prefix.push(sym)[prefix.len() as int] == sym);
                }
            }
        }
    }
    assert(symbols@.take(symbols@.len() as int) =~= symbols@);
    freq
}

/// Which axis a parameter is quantised along depends on its name only through whether the name
/// contains `bias`: every weight matrix or convolution kernel (2 or 4 dimensions) that is not a
/// bias, whatever layer it belongs to, is quantised along the requested axis, and every other
/// parameter as a whole tensor.
pub proof fn lemma_quant_axis_rule(name: Seq<char>, other: Seq<char>, dim: i64, quant_axis: i64)
    ensures
        axis_for_param(name, dim, quant_axis) == if (dim == 2 || dim == 4) && !has_substring(name, "bias"@) {
            quant_axis
        } else {
            -1i64
        },
        has_substring(name, "bias"@) == has_substring(other, "bias"@) ==> axis_for_param(name, dim, quant_axis)
            == axis_for_param(other, dim, quant_axis),
{
}

} // verus!
