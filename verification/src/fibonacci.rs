//! Fibonacci numbers.

use vstd::prelude::*;

verus! {

/// The `n`-th Fibonacci number, counted from `fib(0) == 0` and `fib(1) == 1`.
pub open spec fn fib(n: nat) -> nat
    decreases n,
{
    if n == 0 {
        0
    } else if n == 1 {
        1
    } else {
        fib((n - 1) as nat) + fib((n - 2) as nat)
    }
}

/// The Fibonacci numbers never fall.
pub proof fn lemma_fib_grows(i: nat, j: nat)
    requires
        i <= j,
    ensures
        fib(i) <= fib(j),
    decreases j,
{
    if i < j {
        if j == 1 {
        } else {
            lemma_fib_grows(i, (j - 1) as nat);
        }
    }
}

/// The 47th Fibonacci number, the last that fits in 32 bits.
pub proof fn lemma_fib_47()
    ensures
        fib(47) == 2971215073,
{
    assert(fib(0) == 0);
    assert(fib(1) == 1);
    assert(fib(2) == 1);
    assert(fib(3) == 2);
    assert(fib(4) == 3);
    assert(fib(5) == 5);
    assert(fib(6) == 8);
    assert(fib(7) == 13);
    assert(fib(8) == 21);
    assert(fib(9) == 34);
    assert(fib(10) == 55);
    assert(fib(11) == 89);
    assert(fib(12) == 144);
    assert(fib(13) == 233);
    assert(fib(14) == 377);
    assert(fib(15) == 610);
    assert(fib(16) == 987);
    assert(fib(17) == 1597);
    assert(fib(18) == 2584);
    assert(fib(19) == 4181);
    assert(fib(20) == 6765);
    assert(fib(21) == 10946);
    assert(fib(22) == 17711);
    assert(fib(23) == 28657);
    assert(fib(24) == 46368);
    assert(fib(25) == 75025);
    assert(fib(26) == 121393);
    assert(fib(27) == 196418);
    assert(fib(28) == 317811);
    assert(fib(29) == 514229);
    assert(fib(30) == 832040);
    assert(fib(31) == 1346269);
    assert(fib(32) == 2178309);
    assert(fib(33) == 3524578);
    assert(fib(34) == 5702887);
    assert(fib(35) == 9227465);
    assert(fib(36) == 14930352);
    assert(fib(37) == 24157817);
    assert(fib(38) == 39088169);
    assert(fib(39) == 63245986);
    assert(fib(40) == 102334155);
    assert(fib(41) == 165580141);
    assert(fib(42) == 267914296);
    assert(fib(43) == 433494437);
    assert(fib(44) == 701408733);
    assert(fib(45) == 1134903170);
    assert(fib(46) == 1836311903);
}

/// The first `n` Fibonacci numbers, and never fewer than the first two.
///
/// The 48th number does not fit in 32 bits, so `n` goes up to 48.
pub fn generate_fibonacci(n: u32) -> (r: Vec<u32>)
    requires
        n <= 48,
    ensures
        r.len() == if n < 2 {
            2
        } else {
            n as int
        },
        forall|i: int| 0 <= i < r.len() ==> r[i] == fib(i as nat),
{
    let mut fib_sequence: Vec<u32> = Vec::new();
    fib_sequence.push(0);
    fib_sequence.push(1);
    let mut i: usize = 2;
    while i < n as usize
        invariant
            n <= 48,
            2 <= i,
            n >= 2 ==> i <= n,
            n < 2 ==> i == 2,
            fib_sequence.len() == i,
            forall|k: int| 0 <= k < i ==> fib_sequence[k] == fib(k as nat),
        decreases n as usize - i,
    {
        proof {
            lemma_fib_47();
            lemma_fib_grows(i as nat, 47);
        }
        let next_term = fib_sequence[i - 1] + fib_sequence[i - 2];
        fib_sequence.push(next_term);
        i = i + 1;
    }
    fib_sequence
}

} // verus!
