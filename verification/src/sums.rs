use vstd::prelude::*;

verus! {

/// Twice the number.
pub fn double_int32(a: i32) -> (r: i32)
    requires
        i32::MIN <= 2 * a <= i32::MAX,
    ensures
        r == 2 * a,
{
    a * 2
}

/// Twice the number, in a type in which it always fits.
pub fn double_int64(a: i32) -> (r: i64)
    ensures
        r == 2 * a,
{
    a as i64 * 2
}

/// The sum of the two numbers of the pair.
pub fn tuple_sum_v0(a: (u32, u32)) -> (r: u32)
    requires
        a.0 + a.1 <= u32::MAX,
    ensures
        r == a.0 + a.1,
{
    a.0 + a.1
}

/// The sum of the two numbers of the pair, taken apart first.
pub fn tuple_sum_v1(a: (u32, u32)) -> (r: u32)
    requires
        a.0 + a.1 <= u32::MAX,
    ensures
        r == a.0 + a.1,
{
    let (left, right) = a;
    left + right
}

/// The sum of the two numbers of the pair, taken apart on the way in.
pub fn tuple_sum_v2(pair: (u32, u32)) -> (r: u32)
    requires
        pair.0 + pair.1 <= u32::MAX,
    ensures
        r == pair.0 + pair.1,
{
    let (left, right) = pair;
    left + right
}

/// The sum of the three numbers, added one after the other in a loop.
pub fn array_sum_v3(a: [u32; 3]) -> (r: u32)
    requires
        a[0] + a[1] + a[2] <= u32::MAX,
    ensures
        r == a[0] + a[1] + a[2],
{
    let mut sum: u32 = 0;
    let mut idx: usize = 0;
    while idx < a.len()
        invariant
            0 <= idx <= 3,
            a[0] + a[1] + a[2] <= u32::MAX,
            sum == if idx == 0 {
                0
            } else if idx == 1 {
                a[0] as int
            } else if idx == 2 {
                a[0] + a[1]
            } else {
                a[0] + a[1] + a[2]
            },
        decreases 3 - idx,
    {
        sum += a[idx];
        idx += 1;
    }
    sum
}

/// The number forty-two.
pub fn fo() -> (r: u32)
    ensures
        r == 42,
{
    42
}

/// The number forty-three.
pub fn foo() -> (r: u32)
    ensures
        r == 43,
{
    43
}

/// The text `42`.
pub fn bar() -> (r: String)
    ensures
        r@ == "42"@,
{
    "42".to_owned()
}

/// A line of a song.
pub fn one_more_time_() -> (r: String)
    ensures
        r@ == "Never again is what you swore the time before"@,
{
    "Never again is what you swore the time before".to_owned()
}

} // verus!
