use vstd::prelude::*;

use crate::data::texts;
use crate::text::{all_digits, chars_of, contains_text, has_prefix, has_substring, occurs_at_exec, starts_with_text};

verus! {

/// The name of the weight of the convolution of an upsampling block, `layers.<i>.conv.conv.weight`
/// with `<i>` the block's decimal index.
pub open spec fn conv_weight_name(name: Seq<char>) -> bool {
    let n = name.len() as int;
    &&& n > 24
    &&& has_prefix(name, "layers."@)
    &&& name.subrange(n - 17, n) == ".conv.conv.weight"@
    &&& all_digits(name.subrange(7, n - 17))
}

/// A parameter takes part in pruning when it is a weight of the stem, or the weight of the
/// convolution of an upsampling block (`layers.<i>.conv.conv.weight`).
pub open spec fn prunable(name: Seq<char>) -> bool {
    has_substring(name, "weight"@) && (has_substring(name, "stem"@) || conv_weight_name(name))
}

/// Whether `name` is `layers.<i>.conv.conv.weight` for a decimal index `<i>`.
fn is_conv_weight_name(name: &str) -> (r: bool)
    ensures
        r == conv_weight_name(name@),
{
    let cs = chars_of(name);
    let n = cs.len();
    if n <= 24 {
        return false;
    }
    if !starts_with_text(name, "layers.") {
        return false;
    }
    let suffix = chars_of(".conv.conv.weight");
    proof {
        reveal_strlit(".conv.conv.weight");
    }
    assert(suffix@.len() == 17);
    if !occurs_at_exec(&cs, &suffix, n - 17) {
        return false;
    }
    let mut i: usize = 7;
    while i < n - 17
        invariant
            cs@ == name@,
            n == cs@.len(),
            n > 24,
            7 <= i <= n - 17,
            forall|j: int| 7 <= j < i ==> crate::text::is_digit(#[trigger] cs@[j]),
        decreases n - 17 - i,
    {
        if !('0' <= cs[i] && cs[i] <= '9') {
            assert(name@.subrange(7, n - 17)[i - 7] == cs@[i as int]);
            return false;
        }
        i = i + 1;
    }
    assert forall|k: int| 0 <= k < name@.subrange(7, n - 17).len() implies crate::text::is_digit(
        #[trigger] name@.subrange(7, n - 17)[k],
    ) by {
        assert(name@.subrange(7, n - 17)[k] == cs@[k + 7]);
    }
    true
}

/// Whether the parameter called `name` takes part in pruning.
pub fn is_prunable(name: &str) -> (r: bool)
    ensures
        r == prunable(name@),
{
    if !contains_text(name, "weight") {
        return false;
    }
    contains_text(name, "stem") || is_conv_weight_name(name)
}

/// The names, among `names`, of the parameters that take part in pruning, in their order.
pub fn prunable_param_names(names: &Vec<String>) -> (r: Vec<String>)
    ensures
        texts(r@) == texts(names@).filter(|n: Seq<char>| prunable(n)),
{
    let ghost pred = |n: Seq<char>| prunable(n);
    let mut out: Vec<String> = Vec::new();
    let mut i: usize = 0;
    while i < names.len()
        invariant
            i <= names@.len(),
            pred == (|n: Seq<char>| prunable(n)),
            texts(out@) == texts(names@).take(i as int).filter(pred),
        decreases names@.len() - i,
    {
        reveal_with_fuel(Seq::<_>::filter, 1);
        let keep = is_prunable(names[i].as_str());
        let ghost before = out@;
        if keep {
            out.push(names[i].clone());
            assert(texts(out@) =~= texts(before).push(names@[i as int]@));
        }
        assert(texts(names@).take(i + 1).drop_last() =~= texts(names@).take(i as int));
        i = i + 1;
    }
    assert(texts(names@).take(names@.len() as int) =~= texts(names@));
    out
}

/// The number of weights and the number of them that are zero, summed over the prunable
/// parameters; `None` when a sum overflows.
pub fn sparsity_counts(counts: &[(i64, i64)]) -> (r: Option<(i64, i64)>)
    ensures
        r matches Some(t) ==> t.0 == sum_firsts(counts@) && t.1 == sum_seconds(counts@),
        r is Some <==> sums_fit(counts@),
{
    let mut total: i64 = 0;
    let mut zeros: i64 = 0;
    let mut i: usize = 0;
    while i < counts.len()
        invariant
            i <= counts@.len(),
            sums_fit(counts@.take(i as int)),
            total == sum_firsts(counts@.take(i as int)),
            zeros == sum_seconds(counts@.take(i as int)),
        decreases counts@.len() - i,
    {
        let (n, z) = counts[i];
        assert(counts@.take(i + 1).drop_last() =~= counts@.take(i as int));
        let t2 = match total.checked_add(n) {
            Some(v) => v,
            None => {
                proof {
                    if sums_fit(counts@) {
                        lemma_sums_fit_prefix(counts@, i + 1);
                    }
                }
                return None;
            },
        };
        let z2 = match zeros.checked_add(z) {
            Some(v) => v,
            None => {
                proof {
                    if sums_fit(counts@) {
                        lemma_sums_fit_prefix(counts@, i + 1);
                    }
                }
                return None;
            },
        };
        total = t2;
        zeros = z2;
        i = i + 1;
    }
    assert(counts@.take(counts@.len() as int) =~= counts@);
    Some((total, zeros))
}

/// The sum of the first components.
pub open spec fn sum_firsts(s: Seq<(i64, i64)>) -> int
    decreases s.len(),
{
    if s.len() == 0 { 0 } else { sum_firsts(s.drop_last()) + s.last().0 }
}

/// The sum of the second components.
pub open spec fn sum_seconds(s: Seq<(i64, i64)>) -> int
    decreases s.len(),
{
    if s.len() == 0 { 0 } else { sum_seconds(s.drop_last()) + s.last().1 }
}

/// Every running sum, of either component, stays within `i64`.
pub open spec fn sums_fit(s: Seq<(i64, i64)>) -> bool
    decreases s.len(),
{
    if s.len() == 0 {
        true
    } else {
        sums_fit(s.drop_last()) && i64::MIN <= sum_firsts(s) <= i64::MAX && i64::MIN <= sum_seconds(s)
            <= i64::MAX
    }
}

proof fn lemma_sums_fit_prefix(s: Seq<(i64, i64)>, k: int)
    requires
        0 <= k <= s.len(),
        sums_fit(s),
    ensures
        sums_fit(s.take(k)),
    decreases s.len(),
{
    if k < s.len() {
        lemma_sums_fit_prefix(s.drop_last(), k);
        assert(s.drop_last().take(k) =~= s.take(k));
    } else {
        assert(s.take(k) =~= s);
    }
}

} // verus!
