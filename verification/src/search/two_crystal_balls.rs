use vstd::prelude::*;

verus! {

/// Once a ball breaks it keeps breaking: a `true` entry is never followed by
/// a `false` one.
pub open spec fn monotone_breaks(s: Seq<bool>) -> bool {
    forall|i: int, j: int| 0 <= i < j < s.len() && s[i] ==> s[j]
}

/// The greatest integer whose square does not exceed `n`.
fn isqrt(n: usize) -> (r: usize)
    ensures
        r * r <= n,
        n < (r + 1) * (r + 1),
{
    let mut r: usize = 0;
    while r + 1 <= n / (r + 1)
        invariant
            r * r <= n,
            r <= n,
            r < usize::MAX,
        decreases n - r,
    {
        proof {
            let q = n as int / (r + 1) as int;
            vstd::arithmetic::div_mod::lemma_fundamental_div_mod(n as int, (r + 1) as int);
            assert((r + 1) * (r + 1) <= q * (r + 1) <= n) by (nonlinear_arith)
                requires
                    r + 1 <= q,
                    n == ((r + 1) as int) * q + n as int % ((r + 1) as int),
                    0 <= n as int % ((r + 1) as int),
            ;
            assert(r + 1 < usize::MAX) by (nonlinear_arith)
                requires
                    ((r + 1) as int) * ((r + 1) as int) <= usize::MAX as int,
            ;
        }
        r = r + 1;
    }
    proof {
        let q = n as int / (r + 1) as int;
        vstd::arithmetic::div_mod::lemma_fundamental_div_mod(n as int, (r + 1) as int);
        assert(n < (r + 1) * (r + 1)) by (nonlinear_arith)
            requires
                q < r + 1,
                n == q * ((r + 1) as int) + n as int % ((r + 1) as int),
                n as int % ((r + 1) as int) < (r + 1) as int,
        ;
    }
    r
}

/// Finds the first index at which a ball breaks, probing in jumps of the
/// square root of the length and then scanning the remaining stretch, so
/// only on the order of the square root of the length probes are made.
///
/// `breaks` must be monotone: balls keep breaking from the first breaking
/// index on. Returns the first index holding `true`, or nothing when no ball
/// ever breaks.
pub fn two_crystal_balls(breaks: &[bool]) -> (r: Option<usize>)
    requires
        monotone_breaks(breaks@),
    ensures
        match r {
            Some(i) => i < breaks@.len() && breaks@[i as int] && forall|k: int|
                0 <= k < i ==> !breaks@[k],
            None => forall|k: int| 0 <= k < breaks@.len() ==> !breaks@[k],
        },
{
    let len = breaks.len();
    if len == 0 {
        return None;
    }
    let jmp = isqrt(len);
    proof {
        let j1 = (jmp + 1) as int;
        assert(jmp >= 1) by (nonlinear_arith)
            requires
                len as int >= 1,
                (len as int) < j1 * j1,
                j1 == jmp as int + 1,
        ;
    }
    // Jump ahead until a probe breaks or the end is passed; everything up to
    // the last unbroken probe is known good, since breaks are monotone.
    let mut addr: usize = 0;
    let mut start: usize = 0;
    while addr < len
        invariant
            monotone_breaks(breaks@),
            len == breaks@.len(),
            jmp >= 1,
            start <= len,
            addr <= len,
            forall|k: int| 0 <= k < start ==> !breaks@[k],
        decreases len - addr,
    {
        if breaks[addr] {
            break ;
        }
        proof {
            assert forall|k: int| 0 <= k <= addr implies !breaks@[k] by {
                if breaks@[k] && k < addr {
                    assert(breaks@[addr as int]);
                }
            }
        }
        start = addr + 1;
        if jmp < len - addr {
            addr = addr + jmp;
        } else {
            addr = len;
        }
    }
    // Scan the short stretch between the last unbroken probe and the
    // breaking one.
    let mut i = start;
    while i < len
        invariant
            len == breaks@.len(),
            start <= i <= len,
            forall|k: int| 0 <= k < i ==> !breaks@[k],
        decreases len - i,
    {
        if breaks[i] {
            return Some(i);
        }
        i = i + 1;
    }
    None
}

} // verus!
