//! The values that are written to the cache: random alphanumeric characters.

use rand::{Rng, SeedableRng};
use rand_distr::Alphanumeric;
use rand_xoshiro::Xoshiro256PlusPlus;
use vstd::prelude::*;

verus! {

/// `rand_xoshiro::Xoshiro256PlusPlus`, a generator of pseudorandom numbers.
#[verifier::external_type_specification]
#[verifier::external_body]
pub struct ExXoshiro256PlusPlus(Xoshiro256PlusPlus);

/// The alphanumeric characters that a generator holds in store: at `i`, the one
/// that comes after `i` others.
pub uninterp spec fn upcoming(rng: Xoshiro256PlusPlus) -> Map<nat, u8>;

/// The generator that a seed gives.
pub uninterp spec fn generator(seed: u64) -> Xoshiro256PlusPlus;

/// The characters that a generator holds in store right after it was seeded.
pub open spec fn seeded(seed: u64) -> Map<nat, u8> {
    upcoming(generator(seed))
}

/// Whether a store of characters never runs dry.
pub open spec fn endless(store: Map<nat, u8>) -> bool {
    forall|i: nat| #[trigger] store.dom().contains(i)
}

/// Whether a byte is a letter or a digit of ASCII.
pub open spec fn is_alphanumeric(b: u8) -> bool {
    ||| 0x30 <= b <= 0x39
    ||| 0x41 <= b <= 0x5A
    ||| 0x61 <= b <= 0x7A
}

/// Whether a store holds letters and digits of ASCII only.
pub open spec fn alphanumeric(store: Map<nat, u8>) -> bool {
    forall|i: nat| #[trigger] store.dom().contains(i) ==> is_alphanumeric(store[i])
}

/// `Xoshiro256PlusPlus::seed_from_u64`, of its `SeedableRng`: a generator that
/// depends on the seed alone. Its characters never run dry, and are letters and
/// digits of ASCII.
#[verifier::external_body]
pub(crate) fn seed_from_u64(seed: u64) -> (r: Xoshiro256PlusPlus)
    ensures
        r == generator(seed),
        endless(upcoming(r)),
        alphanumeric(upcoming(r)),
{
    Xoshiro256PlusPlus::seed_from_u64(seed)
}

/// `n` characters of `store`, from the first on.
pub open spec fn first(store: Map<nat, u8>, n: nat) -> Seq<u8> {
    Seq::new(n, |i: int| store[i as nat])
}

/// What is left of `store` without its first `n` characters.
pub open spec fn after(store: Map<nat, u8>, n: nat) -> Map<nat, u8> {
    Map::new(|i: nat| store.dom().contains(i + n), |i: nat| store[i + n])
}

/// `Rng::sample` with `Alphanumeric`: the next character of the generator, a letter
/// or a digit of ASCII. The generator goes on with those that follow. It does not
/// return where no such character is to come.
#[verifier::external_body]
pub(crate) fn draw(rng: &mut Xoshiro256PlusPlus) -> (r: u8)
    requires
        endless(upcoming(*old(rng))),
    ensures
        r == upcoming(*old(rng))[0],
        is_alphanumeric(r),
        upcoming(*final(rng)) == after(upcoming(*old(rng)), 1),
{
    rng.sample(Alphanumeric)
}

/// The next `n` characters of a generator, which goes on with those that follow.
pub(crate) fn sample(rng: &mut Xoshiro256PlusPlus, n: usize) -> (r: Vec<u8>)
    requires
        endless(upcoming(*old(rng))),
        n <= isize::MAX,
    ensures
        r@ == first(upcoming(*old(rng)), n as nat),
        forall|i: int| 0 <= i < r@.len() ==> is_alphanumeric(#[trigger] r@[i]),
        upcoming(*final(rng)) == after(upcoming(*old(rng)), n as nat),
{
    let ghost store = upcoming(*rng);
    let mut value: Vec<u8> = Vec::with_capacity(n);
    proof {
        lemma_values_go_on(store, 0, 0);
    }
    for i in 0..n
        invariant
            endless(store),
            value@ == first(store, i as nat),
            forall|j: int| 0 <= j < value@.len() ==> is_alphanumeric(#[trigger] value@[j]),
            upcoming(*rng) == after(store, i as nat),
    {
        proof {
            lemma_values_go_on(store, i as nat, 1);
        }
        let c: u8 = draw(rng);
        value.push(c);
        assert(value@ =~= first(store, (i + 1) as nat));
    }
    value
}

/// A very fast generator. It starts from the same seed every time.
pub fn rng() -> (r: Xoshiro256PlusPlus)
    ensures
        r == generator(0),
        endless(upcoming(r)),
        alphanumeric(upcoming(r)),
{
    seed_from_u64(0)
}

/// Characters are given out in their order: after `m` and then `n` of them, it
/// goes on where it would after `m + n` at once.
pub proof fn lemma_values_go_on(store: Map<nat, u8>, m: nat, n: nat)
    ensures
        after(after(store, m), n) == after(store, m + n),
        after(store, 0) == store,
        endless(store) ==> endless(after(store, m)),
        alphanumeric(store) ==> alphanumeric(after(store, m)),
        endless(store) ==> first(store, m) + first(after(store, m), n) == first(store, m + n),
{
    assert(after(after(store, m), n) =~= after(store, m + n)) by {
        assert forall|i: nat| #[trigger] after(after(store, m), n).dom().contains(i) == after(
            store,
            m + n,
        ).dom().contains(i) by {
            assert(i + n + m == i + (m + n));
        }
        assert forall|i: nat| #[trigger]
            after(after(store, m), n).dom().contains(i) implies after(after(store, m), n)[i]
            == after(store, m + n)[i] by {
            assert(i + n + m == i + (m + n));
        }
    }
    assert(after(store, 0) =~= store);
    if endless(store) {
        assert(first(store, m) + first(after(store, m), n) =~= first(store, m + n));
    }
}

/// Every generator starts alike, however much was drawn from another before: two
/// that `rng` gave are the same, so what is drawn from them, and what is left then,
/// is the same too.
pub proof fn lemma_generators_start_alike(a: Xoshiro256PlusPlus, b: Xoshiro256PlusPlus, n: nat)
    requires
        a == generator(0),
        b == generator(0),
    ensures
        a == b,
        first(upcoming(a), n) == first(upcoming(b), n),
        after(upcoming(a), n) == after(upcoming(b), n),
{
}

/// What is drawn from a store of letters and digits is made of these, and so holds
/// no end of a line.
pub proof fn lemma_values_are_alphanumeric(store: Map<nat, u8>, n: nat)
    requires
        endless(store),
        alphanumeric(store),
    ensures
        first(store, n).len() == n,
        forall|i: int| 0 <= i < n ==> is_alphanumeric(#[trigger] first(store, n)[i]),
        forall|i: int|
            0 <= i < n ==> #[trigger] first(store, n)[i] != 0x0D && first(store, n)[i] != 0x0A,
{
    assert forall|i: int| 0 <= i < n implies is_alphanumeric(#[trigger] first(store, n)[i]) by {
        assert(store.dom().contains(i as nat));
    }
}

} // verus!
