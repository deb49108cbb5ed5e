use vstd::prelude::*;

verus! {

/// What a number is called out as in the counting game.
#[derive(Clone, Copy, Debug, PartialEq, Eq, Structural)]
pub enum FizzBuzz {
    FizzBuzz,
    Fizz,
    Buzz,
    Number(i32),
}

/// The call for `number`: `FizzBuzz` for multiples of both three and five,
/// `Fizz` for other multiples of three, `Buzz` for other multiples of five,
/// and the number itself otherwise.
pub open spec fn call_for(number: int) -> FizzBuzz
    recommends
        i32::MIN <= number <= i32::MAX,
{
    if number % 3 == 0 && number % 5 == 0 {
        FizzBuzz::FizzBuzz
    } else if number % 3 == 0 {
        FizzBuzz::Fizz
    } else if number % 5 == 0 {
        FizzBuzz::Buzz
    } else {
        FizzBuzz::Number(number as i32)
    }
}

/// Decides what `number` is called out as.
pub fn fizz_buzz(number: i32) -> (r: FizzBuzz)
    ensures
        r == call_for(number as int),
{
    if number % 3 == 0 && number % 5 == 0 {
        FizzBuzz::FizzBuzz
    } else if number % 3 == 0 {
        FizzBuzz::Fizz
    } else if number % 5 == 0 {
        FizzBuzz::Buzz
    } else {
        FizzBuzz::Number(number)
    }
}

} // verus!
