//! Chains of filters, short enough to need no memory of their own.

use smallvec::SmallVec;
use vstd::prelude::*;

verus! {

/// A filter, with its amount as float bits.
#[derive(Clone, Copy, Debug, PartialEq, Eq, Structural)]
pub enum Filter {
    /// A blur by a standard deviation in device pixels.
    Blur(u32),
    /// A fading.
    Opacity(u32),
}

/// A chain of filters. Two of them need no memory of their own.
#[verifier::external_body]
pub struct FilterChain {
    inner: SmallVec<[Filter; 2]>,
}

/// The filters of a chain, in order.
pub uninterp spec fn chain_filters(chain: FilterChain) -> Seq<Filter>;

impl View for FilterChain {
    type V = Seq<Filter>;

    open spec fn view(&self) -> Seq<Filter> {
        chain_filters(*self)
    }
}

/// Calls `smallvec::SmallVec::new`: an empty chain.
#[verifier::external_body]
pub(crate) fn chain_new() -> (chain: FilterChain)
    ensures
        chain_filters(chain) == Seq::<Filter>::empty(),
{
    FilterChain { inner: SmallVec::new() }
}

/// Calls `smallvec::SmallVec::push`: the chain has one filter more.
#[verifier::external_body]
pub(crate) fn chain_push(chain: &mut FilterChain, filter: Filter)
    ensures
        chain_filters(*final(chain)) == chain_filters(*old(chain)).push(filter),
{
    chain.inner.push(filter)
}

/// Calls `smallvec::SmallVec::to_vec`: the filters, in order.
#[verifier::external_body]
fn chain_to_vec(chain: &FilterChain) -> (filters: Vec<Filter>)
    ensures
        filters@ == chain_filters(*chain),
{
    chain.inner.to_vec()
}

impl FilterChain {
    /// The filters, in order.
    pub fn to_vec(&self) -> (filters: Vec<Filter>)
        ensures
            filters@ == self@,
    {
        chain_to_vec(self)
    }
}

/// The chain of the given blurs.
pub open spec fn blurs(deviations: Seq<u32>) -> Seq<Filter> {
    deviations.map_values(|deviation: u32| Filter::Blur(deviation))
}

/// A chain of blurs by their standard deviations, which both sides measure in device pixels.
pub fn filter_chain(deviations: &Vec<u32>) -> (chain: FilterChain)
    ensures
        chain@ == blurs(deviations@),
{
    let mut chain = chain_new();
    let mut i: usize = 0;
    proof {
        assert(chain@ =~= blurs(deviations@.take(0)));
    }
    while i < deviations.len()
        invariant
            i <= deviations@.len(),
            chain@ == blurs(deviations@.take(i as int)),
        decreases deviations@.len() - i,
    {
        chain_push(&mut chain, Filter::Blur(deviations[i]));
        proof {
            assert(chain@ =~= blurs(deviations@.take(i + 1)));
        }
        i = i + 1;
    }
    proof {
        assert(deviations@.take(i as int) =~= deviations@);
    }
    chain
}

} // verus!
