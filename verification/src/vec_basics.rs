use vstd::prelude::*;

verus! {

/// The sum of a sequence of integers, taken left to right.
pub open spec fn seq_sum(s: Seq<i32>) -> int
    decreases s.len(),
{
    if s.len() == 0 {
        0
    } else {
        seq_sum(s.drop_last()) + s.last()
    }
}

/// Every prefix sum stays within `i32` range, so the running total never
/// overflows.
pub open spec fn prefix_sums_fit(s: Seq<i32>) -> bool {
    forall|i: int| 0 <= i <= s.len() ==> i32::MIN <= seq_sum(#[trigger] s.subrange(0, i)) <= i32::MAX
}

/// A fixed sample vector.
pub fn read_vec() -> (v: Vec<i32>)
    ensures
        v@ == seq![3i32, 4i32, 6i32, -19i32],
{
    let mut v: Vec<i32> = Vec::new();
    v.push(3);
    v.push(4);
    v.push(6);
    v.push(-19);
    proof {
        assert(v@ =~= seq![3i32, 4i32, 6i32, -19i32]);
    }
    v
}

/// The least element of a vector, or `None` when it is empty.
pub fn vec_min(v: &Vec<i32>) -> (m: Option<&i32>)
    ensures
        m is Some <==> v@.len() > 0,
        m matches Some(x) ==> v@.contains(*x) && forall|i: int|
            0 <= i < v@.len() ==> *x <= v@[i],
{
    if v.is_empty() {
        return None;
    }
    let mut min: &i32 = &v[0];
    let mut k: usize = 1;
    while k < v.len()
        invariant
            1 <= k <= v@.len(),
            v@.contains(*min),
            forall|i: int| 0 <= i < k ==> *min <= v@[i],
        decreases v@.len() - k,
    {
        if v[k] < *min {
            min = &v[k];
        }
        k = k + 1;
    }
    Some(min)
}

/// The running sum of a vector, or `None` when it is empty.
pub fn vec_sum(v: &Vec<i32>) -> (s: Option<i32>)
    requires
        prefix_sums_fit(v@),
    ensures
        s is Some <==> v@.len() > 0,
        s matches Some(x) ==> x == seq_sum(v@),
{
    let mut sum: Option<i32> = None;
    let mut k: usize = 0;
    while k < v.len()
        invariant
            0 <= k <= v@.len(),
            prefix_sums_fit(v@),
            sum is Some <==> k > 0,
            sum matches Some(x) ==> x == seq_sum(v@.subrange(0, k as int)),
        decreases v@.len() - k,
    {
        let e = v[k];
        proof {
            assert(v@.subrange(0, k + 1).drop_last() =~= v@.subrange(0, k as int));
            assert(seq_sum(v@.subrange(0, k + 1)) == seq_sum(v@.subrange(0, k as int)) + v@[k as int]);
        }
        match sum {
            None => {
                sum = Some(e);
            },
            Some(val) => {
                let newsum = e + val;
                sum = Some(newsum);
            },
        }
        k = k + 1;
    }
    proof {
        if v@.len() > 0 {
            assert(v@.subrange(0, v@.len() as int) =~= v@);
        }
    }
    sum
}

} // verus!
