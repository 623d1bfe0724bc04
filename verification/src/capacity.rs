//! The largest application that fits the step domain.

use vstd::prelude::*;

verus! {

/// The `log2` of the step domain's rows.
pub const DOMAIN_LOG2: u32 = 16;

/// The rows of the step domain.
pub const DOMAIN_ROWS: usize = 65536;

/// With `n` gates the domain is the step domain, with one more it is larger.
pub open spec fn is_boundary<D: Fn(usize) -> u32>(domain_log2: D, n: usize) -> bool {
    &&& call_ensures(domain_log2, (n,), DOMAIN_LOG2)
    &&& exceeds(domain_log2, (n + 1) as usize)
}

/// With `n` gates the domain is no larger than the step domain.
pub open spec fn holds<D: Fn(usize) -> u32>(domain_log2: D, n: usize) -> bool {
    exists|log2: u32| #[trigger] call_ensures(domain_log2, (n,), log2) && log2 <= DOMAIN_LOG2
}

/// With `n` gates the domain is larger than the step domain.
pub open spec fn exceeds<D: Fn(usize) -> u32>(domain_log2: D, n: usize) -> bool {
    exists|log2: u32| #[trigger] call_ensures(domain_log2, (n,), log2) && log2 > DOMAIN_LOG2
}

/// The domain of an application grows with its gates, and depends on nothing
/// else.
pub open spec fn grows<D: Fn(usize) -> u32>(domain_log2: D) -> bool {
    forall|m: usize, n: usize, a: u32, b: u32|
        m <= n && #[trigger] call_ensures(domain_log2, (m,), a) && #[trigger] call_ensures(
            domain_log2,
            (n,),
            b,
        ) ==> a <= b
}

/// The number of gates with which the step domain is full, found by bisection
/// between no gates and two for each row, a row holding two. Where domains grow,
/// it is found whenever it lies below that. None when two gates for each row still
/// fit, or when the step domain is not the one that the bisection ends in.
pub fn capacity<D: Fn(usize) -> u32>(domain_log2: &D) -> (r: Option<usize>)
    requires
        forall|n: usize| n <= 2 * DOMAIN_ROWS ==> call_requires(*domain_log2, (n,)),
    ensures
        r matches Some(n) ==> n < 2 * DOMAIN_ROWS && is_boundary(*domain_log2, n),
        grows(*domain_log2) ==> forall|n: usize|
            n < 2 * DOMAIN_ROWS && #[trigger] is_boundary(*domain_log2, n) ==> r == Some(n),
        r is None ==> {
            ||| holds(*domain_log2, (2 * DOMAIN_ROWS) as usize)
            ||| exists|n: usize, a: u32, b: u32|
                {
                    &&& n < 2 * DOMAIN_ROWS
                    &&& n > 0 ==> holds(*domain_log2, n)
                    &&& exceeds(*domain_log2, (n + 1) as usize)
                    &&& #[trigger] call_ensures(*domain_log2, (n,), a)
                    &&& #[trigger] call_ensures(*domain_log2, ((n + 1) as usize,), b)
                    &&& !(a == DOMAIN_LOG2 && b > DOMAIN_LOG2)
                }
        },
{
    let top: usize = 2 * DOMAIN_ROWS;
    let top_log2: u32 = domain_log2(top);
    if top_log2 <= DOMAIN_LOG2 {
        proof {
            assert(call_ensures(*domain_log2, (top,), top_log2));
            if grows(*domain_log2) {
                assert forall|n: usize| n < top implies !#[trigger] is_boundary(
                    *domain_log2,
                    n,
                ) by {
                    if is_boundary(*domain_log2, n) {
                        boundary_is_the_capacity(*domain_log2, n, top, top_log2);
                    }
                }
            }
        }
        return None;
    }
    let mut fits: usize = 0;
    let mut above: usize = top;
    while fits + 1 < above
        invariant
            fits < above <= 2 * DOMAIN_ROWS,
            fits > 0 ==> holds(*domain_log2, fits),
            exceeds(*domain_log2, above),
            forall|n: usize| n <= 2 * DOMAIN_ROWS ==> call_requires(*domain_log2, (n,)),
        decreases above - fits,
    {
        let candidate: usize = fits + (above - fits) / 2;
        let candidate_log2: u32 = domain_log2(candidate);
        if candidate_log2 <= DOMAIN_LOG2 {
            fits = candidate;
        } else {
            above = candidate;
        }
    }
    let full: u32 = domain_log2(fits);
    let overflow: u32 = domain_log2(fits + 1);
    proof {
        assert(call_ensures(*domain_log2, (fits,), full));
        assert(call_ensures(*domain_log2, ((fits + 1) as usize,), overflow));
        if grows(*domain_log2) {
            assert forall|n: usize|
                n < 2 * DOMAIN_ROWS && #[trigger] is_boundary(*domain_log2, n) implies n == fits
                && full == DOMAIN_LOG2 && overflow > DOMAIN_LOG2 by {
                let over = choose|b: u32| #[trigger]
                    call_ensures(*domain_log2, (above,), b) && b > DOMAIN_LOG2;
                boundary_is_the_capacity(*domain_log2, n, above, over);
                if fits > 0 {
                    let under = choose|b: u32| #[trigger]
                        call_ensures(*domain_log2, (fits,), b) && b <= DOMAIN_LOG2;
                    boundary_is_the_capacity(*domain_log2, n, fits, under);
                }
                boundary_is_the_capacity(*domain_log2, n, above, overflow);
                assert(call_ensures(*domain_log2, (n,), DOMAIN_LOG2));
            }
        }
    }
    if full == DOMAIN_LOG2 && overflow > DOMAIN_LOG2 {
        Some(fits)
    } else {
        None
    }
}

/// Where domains grow, the boundary is the largest number of gates that fits.
pub proof fn boundary_is_the_capacity<D: Fn(usize) -> u32>(domain_log2: D, n: usize, m: usize, log2: u32)
    requires
        grows(domain_log2),
        n < usize::MAX,
        is_boundary(domain_log2, n),
        call_ensures(domain_log2, (m,), log2),
    ensures
        log2 <= DOMAIN_LOG2 <==> m <= n,
{
    let over = choose|b: u32| #[trigger] call_ensures(domain_log2, ((n + 1) as usize,), b) && b
        > DOMAIN_LOG2;
    if m <= n {
        assert(call_ensures(domain_log2, (n,), DOMAIN_LOG2));
    } else {
        assert((n + 1) as usize <= m);
    }
}

/// The rows that the application leaves to everything else: half of the gates
/// that would still fit, rounded up.
pub fn other_rows(application_gates: usize) -> (r: usize)
    requires
        application_gates <= 2 * DOMAIN_ROWS,
    ensures
        2 * DOMAIN_ROWS - application_gates <= 2 * r <= 2 * DOMAIN_ROWS - application_gates + 1,
{
    (2 * DOMAIN_ROWS - application_gates + 1) / 2
}

/// The step domain has two to the sixteen rows.
pub proof fn the_step_domain_has_its_rows()
    ensures
        DOMAIN_LOG2 == 16,
        DOMAIN_ROWS == vstd::arithmetic::power2::pow2(DOMAIN_LOG2 as nat),
{
    vstd::arithmetic::power2::lemma2_to64();
}

} // verus!
