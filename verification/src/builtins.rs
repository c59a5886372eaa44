//! Arithmetic over any number of numeric arguments: `+` and `*` fold all of them,
//! `-` and `/` take exactly two.
use vstd::prelude::*;
use crate::namespace::{eval_err, ev};
use crate::types::{group_views, lemma_view_shape, res_view, views, Fault, MalError, MalResult, MalType, Val};

verus! {

broadcast use group_views;

/// Whether every argument is a number.
pub open spec fn all_numbers(args: Seq<Val>) -> bool {
    forall|i: int| 0 <= i < args.len() ==> #[trigger] args[i] is Number
}

/// The numbers of arguments that are all numbers.
pub open spec fn numbers(args: Seq<Val>) -> Seq<i64> {
    Seq::new(args.len(), |i: int| args[i]->Number_0)
}

/// Whether an integer fits in 64 bits.
pub open spec fn fits_i64(x: int) -> bool {
    i64::MIN <= x <= i64::MAX
}

/// The sum of numbers added from left to right; `None` when a partial sum leaves 64 bits.
pub open spec fn checked_sum(s: Seq<i64>) -> Option<i64>
    decreases s.len(),
{
    if s.len() == 0 {
        Some(0)
    } else {
        match checked_sum(s.drop_last()) {
            Some(a) => if fits_i64(a + s.last()) { Some((a + s.last()) as i64) } else { None },
            None => None,
        }
    }
}

/// The product of numbers multiplied from left to right; `None` when a partial product
/// leaves 64 bits.
pub open spec fn checked_product(s: Seq<i64>) -> Option<i64>
    decreases s.len(),
{
    if s.len() == 0 {
        Some(1)
    } else {
        match checked_product(s.drop_last()) {
            Some(a) => if fits_i64(a * s.last()) { Some((a * s.last()) as i64) } else { None },
            None => None,
        }
    }
}

/// The sum of numbers.
pub open spec fn total(s: Seq<i64>) -> int
    decreases s.len(),
{
    if s.len() == 0 { 0 } else { total(s.drop_last()) + s.last() }
}

/// The product of numbers.
pub open spec fn total_product(s: Seq<i64>) -> int
    decreases s.len(),
{
    if s.len() == 0 { 1 } else { total_product(s.drop_last()) * s.last() }
}

/// The quotient of two integers, truncated toward zero.
pub open spec fn trunc_div(a: int, b: int) -> int {
    let q = (if a >= 0 { a } else { -a }) / (if b > 0 { b } else { -b });
    if (a >= 0) == (b > 0) || a == 0 { q } else { -q }
}

/// The model of `+`.
pub open spec fn add_spec(args: Seq<Val>) -> Result<Val, Fault> {
    if !all_numbers(args) {
        ev("non-number arguments to '+'"@)
    } else {
        match checked_sum(numbers(args)) {
            Some(n) => Ok(Val::Number(n)),
            None => ev("integer overflow in '+'"@),
        }
    }
}

/// The model of `*`.
pub open spec fn mult_spec(args: Seq<Val>) -> Result<Val, Fault> {
    if !all_numbers(args) {
        ev("non-number arguments to '*'"@)
    } else {
        match checked_product(numbers(args)) {
            Some(n) => Ok(Val::Number(n)),
            None => ev("integer overflow in '*'"@),
        }
    }
}

/// The model of `-`.
pub open spec fn sub_spec(args: Seq<Val>) -> Result<Val, Fault> {
    if !all_numbers(args) {
        ev("non-number arguments to '-'"@)
    } else if args.len() != 2 {
        ev("'-' expects 2 args"@)
    } else {
        let d = numbers(args)[0] - numbers(args)[1];
        if fits_i64(d) { Ok(Val::Number(d as i64)) } else { ev("integer overflow in '-'"@) }
    }
}

/// The model of `/`: the quotient truncates toward zero.
pub open spec fn div_spec(args: Seq<Val>) -> Result<Val, Fault> {
    if !all_numbers(args) {
        ev("non-number arguments to '/'"@)
    } else if args.len() != 2 {
        ev("'/' expects 2 args"@)
    } else if numbers(args)[1] == 0 {
        ev("division by zero"@)
    } else {
        let q = trunc_div(numbers(args)[0] as int, numbers(args)[1] as int);
        if fits_i64(q) { Ok(Val::Number(q as i64)) } else { ev("integer overflow in '/'"@) }
    }
}

/// The numbers of the arguments, or `None` when one is not a number.
fn numbers_of(args: &Vec<MalType>) -> (r: Option<Vec<i64>>)
    ensures
        match r {
            Some(v) => all_numbers(views(args@)) && v@ == numbers(views(args@)),
            None => !all_numbers(views(args@)),
        },
{
    let ghost a = views(args@);
    let mut out: Vec<i64> = Vec::new();
    let mut i: usize = 0;
    while i < args.len()
        invariant
            a == views(args@),
            i <= args@.len(),
            forall|j: int| 0 <= j < i ==> #[trigger] a[j] is Number,
            out@ == numbers(a).take(i as int),
        decreases args.len() - i,
    {
        proof { lemma_view_shape(&args@[i as int]); }
        assert(a[i as int] == args@[i as int]@);
        match &args[i] {
            MalType::Number(n) => {
                out.push(*n);
                assert(out@ =~= numbers(a).take(i + 1));
            },
            _ => {
                assert(!(a[i as int] is Number));
                return None;
            },
        }
        i = i + 1;
    }
    assert(numbers(a).take(args.len() as int) =~= numbers(a));
    Some(out)
}

/// `+`: the sum of all arguments, which must be numbers.
pub fn add(args: Vec<MalType>) -> (r: MalResult)
    ensures
        res_view(r) == add_spec(views(args@)),
{
    let nums = match numbers_of(&args) {
        Some(v) => v,
        None => {
            return Err(eval_err("non-number arguments to '+'"));
        },
    };
    let mut acc: i64 = 0;
    let mut i: usize = 0;
    while i < nums.len()
        invariant
            i <= nums@.len(),
            checked_sum(nums@.take(i as int)) == Some(acc),
            all_numbers(views(args@)),
            nums@ == numbers(views(args@)),
        decreases nums.len() - i,
    {
        assert(nums@.take(i + 1).drop_last() == nums@.take(i as int));
        match acc.checked_add(nums[i]) {
            Some(x) => {
                acc = x;
            },
            None => {
                proof { lemma_checked_sum_none(nums@, i as int + 1); }
                return Err(eval_err("integer overflow in '+'"));
            },
        }
        i = i + 1;
    }
    assert(nums@.take(nums.len() as int) == nums@);
    Ok(MalType::Number(acc))
}

/// Once a partial sum leaves 64 bits, the whole sum is `None`.
proof fn lemma_checked_sum_none(s: Seq<i64>, k: int)
    requires
        0 < k <= s.len(),
        checked_sum(s.take(k)) is None,
    ensures
        checked_sum(s) is None,
    decreases s.len() - k,
{
    if k < s.len() {
        assert(s.take(k + 1).drop_last() == s.take(k));
        lemma_checked_sum_none(s, k + 1);
    } else {
        assert(s.take(k) == s);
    }
}

/// Once a partial product leaves 64 bits, the whole product is `None`.
proof fn lemma_checked_product_none(s: Seq<i64>, k: int)
    requires
        0 < k <= s.len(),
        checked_product(s.take(k)) is None,
    ensures
        checked_product(s) is None,
    decreases s.len() - k,
{
    if k < s.len() {
        assert(s.take(k + 1).drop_last() == s.take(k));
        lemma_checked_product_none(s, k + 1);
    } else {
        assert(s.take(k) == s);
    }
}

/// `*`: the product of all arguments, which must be numbers.
pub fn mult(args: Vec<MalType>) -> (r: MalResult)
    ensures
        res_view(r) == mult_spec(views(args@)),
{
    let nums = match numbers_of(&args) {
        Some(v) => v,
        None => {
            return Err(eval_err("non-number arguments to '*'"));
        },
    };
    let mut acc: i64 = 1;
    let mut i: usize = 0;
    while i < nums.len()
        invariant
            i <= nums@.len(),
            checked_product(nums@.take(i as int)) == Some(acc),
            all_numbers(views(args@)),
            nums@ == numbers(views(args@)),
        decreases nums.len() - i,
    {
        assert(nums@.take(i + 1).drop_last() == nums@.take(i as int));
        match acc.checked_mul(nums[i]) {
            Some(x) => {
                acc = x;
            },
            None => {
                proof { lemma_checked_product_none(nums@, i as int + 1); }
                return Err(eval_err("integer overflow in '*'"));
            },
        }
        i = i + 1;
    }
    assert(nums@.take(nums.len() as int) == nums@);
    Ok(MalType::Number(acc))
}

/// `-`: the difference of exactly two numbers.
pub fn sub(args: Vec<MalType>) -> (r: MalResult)
    ensures
        res_view(r) == sub_spec(views(args@)),
{
    let nums = match numbers_of(&args) {
        Some(v) => v,
        None => {
            return Err(eval_err("non-number arguments to '-'"));
        },
    };
    if nums.len() != 2 {
        return Err(eval_err("'-' expects 2 args"));
    }
    match nums[0].checked_sub(nums[1]) {
        Some(x) => Ok(MalType::Number(x)),
        None => Err(eval_err("integer overflow in '-'")),
    }
}

/// `/`: the quotient of exactly two numbers, truncated toward zero.
pub fn div(args: Vec<MalType>) -> (r: MalResult)
    ensures
        res_view(r) == div_spec(views(args@)),
{
    let nums = match numbers_of(&args) {
        Some(v) => v,
        None => {
            return Err(eval_err("non-number arguments to '/'"));
        },
    };
    if nums.len() != 2 {
        return Err(eval_err("'/' expects 2 args"));
    }
    if nums[1] == 0 {
        return Err(eval_err("division by zero"));
    }
    match nums[0].checked_div(nums[1]) {
        Some(x) => Ok(MalType::Number(x)),
        None => Err(eval_err("integer overflow in '/'")),
    }
}

/// When `+` gives a number it is the sum of the arguments; and it gives one whenever every
/// partial sum, from the left, fits in 64 bits.
pub proof fn law_add_is_sum(s: Seq<i64>)
    ensures
        checked_sum(s) matches Some(n) ==> n == total(s),
        (forall|k: int| 0 <= k <= s.len() ==> fits_i64(#[trigger] total(s.take(k)))) ==> checked_sum(s) == Some(total(s) as i64),
    decreases s.len(),
{
    if s.len() > 0 {
        let p = s.drop_last();
        law_add_is_sum(p);
        if forall|k: int| 0 <= k <= s.len() ==> fits_i64(#[trigger] total(s.take(k))) {
            assert forall|k: int| 0 <= k <= p.len() implies fits_i64(#[trigger] total(p.take(k))) by {
                assert(p.take(k) == s.take(k));
            }
            assert(s.take(s.len() as int) == s);
            assert(fits_i64(total(s.take(s.len() as int))));
        }
    }
}

/// When `*` gives a number it is the product of the arguments; and it gives one whenever
/// every partial product, from the left, fits in 64 bits.
pub proof fn law_mult_is_product(s: Seq<i64>)
    ensures
        checked_product(s) matches Some(n) ==> n == total_product(s),
        (forall|k: int| 0 <= k <= s.len() ==> fits_i64(#[trigger] total_product(s.take(k)))) ==> checked_product(s) == Some(total_product(s) as i64),
    decreases s.len(),
{
    if s.len() > 0 {
        let p = s.drop_last();
        law_mult_is_product(p);
        if forall|k: int| 0 <= k <= s.len() ==> fits_i64(#[trigger] total_product(s.take(k))) {
            assert forall|k: int| 0 <= k <= p.len() implies fits_i64(#[trigger] total_product(p.take(k))) by {
                assert(p.take(k) == s.take(k));
            }
            assert(s.take(s.len() as int) == s);
            assert(fits_i64(total_product(s.take(s.len() as int))));
        }
    }
}

} // verus!
