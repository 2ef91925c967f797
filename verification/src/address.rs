use vstd::prelude::*;

verus! {

/// An account or contract address, held by its string key (for instance
/// a Stellar strkey such as `GA...` or `CA...`).
///
/// Two addresses are the same when their keys are the same string.
#[derive(Debug, PartialEq, Eq)]
pub struct Address {
    key: String,
}

impl View for Address {
    type V = Seq<char>;

    closed spec fn view(&self) -> Seq<char> {
        self.key@
    }
}

impl Address {
    /// Makes the address whose key is `key`.
    pub fn new(key: String) -> (a: Address)
        ensures
            a@ == key@,
    {
        Address { key }
    }

    /// The string key of this address.
    pub fn key(&self) -> (k: &String)
        ensures
            k@ == self@,
    {
        &self.key
    }

    /// Whether `self` and `other` name the same address.
    pub fn same_as(&self, other: &Address) -> (r: bool)
        ensures
            r == (self@ == other@),
    {
        self.key == other.key
    }
}

impl Clone for Address {
    fn clone(&self) -> (r: Self)
        ensures
            r@ == self@,
    {
        Address { key: self.key.clone() }
    }
}

/// The keys of a sequence of addresses, in order.
pub open spec fn addresses_view(s: Seq<Address>) -> Seq<Seq<char>> {
    s.map_values(|a: Address| a@)
}

/// Whether `list` holds an address with the same key as `a`.
pub fn contains_address(list: &Vec<Address>, a: &Address) -> (r: bool)
    ensures
        r == addresses_view(list@).contains(a@),
{
    let n = list.len();
    for i in 0..n
        invariant
            n == list.len(),
            forall|j: int| 0 <= j < i ==> list@[j]@ != a@,
    {
        if list[i].same_as(a) {
            assert(addresses_view(list@)[i as int] == a@);
            return true;
        }
    }
    proof {
        if addresses_view(list@).contains(a@) {
            let j = choose|j: int| 0 <= j < addresses_view(list@).len() && addresses_view(list@)[j] == a@;
            assert(list@[j]@ == a@);
        }
    }
    false
}

} // verus!
