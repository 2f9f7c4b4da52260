//! Upstream endpoints: a socket address plus opaque metadata (a set of
//! connection-identifying byte tokens usable by filters).

use vstd::prelude::*;

verus! {

/// A socket address as the data plane reads it: the IP as a single integer
/// (IPv4 addresses occupy the low 32 bits) and the UDP port.
#[derive(Clone, Copy, PartialEq, Eq, Structural, Debug, Hash)]
pub struct EndpointAddress {
    pub ip: u128,
    pub port: u16,
}

/// One upstream destination: an address plus its metadata tokens.
#[derive(Debug)]
pub struct Endpoint {
    pub address: EndpointAddress,
    pub tokens: Vec<Vec<u8>>,
}

/// The mathematical value of an endpoint: its address and its token list.
pub type EpV = (EndpointAddress, Seq<Seq<u8>>);

impl View for Endpoint {
    type V = EpV;

    open spec fn view(&self) -> EpV {
        (self.address, self.tokens.deep_view())
    }
}

/// Value equality of endpoints: same address and the same token list.
pub open spec fn ep_eq(a: Endpoint, b: Endpoint) -> bool {
    a@ == b@
}

/// The sequence of endpoint values held by a sequence of endpoints.
pub open spec fn eps_view(s: Seq<Endpoint>) -> Seq<EpV> {
    s.map_values(|e: Endpoint| e@)
}

/// Byte-vector equality as executable code, pinned to view equality.
pub fn bytes_eq(a: &Vec<u8>, b: &Vec<u8>) -> (r: bool)
    ensures
        r == (a@ == b@),
{
    if a.len() != b.len() {
        assert(a@ != b@);
        return false;
    }
    let n = a.len();
    let mut i: usize = 0;
    while i < n
        invariant
            n == a.len() == b.len(),
            0 <= i <= n,
            forall|k: int| 0 <= k < i ==> a@[k] == b@[k],
        decreases n - i,
    {
        if a[i] != b[i] {
            assert(a@ != b@);
            return false;
        }
        i += 1;
    }
    proof {
        assert(a@ =~= b@);
    }
    true
}

/// Token-list equality as executable code, pinned to deep-view equality.
pub fn tokens_eq(a: &Vec<Vec<u8>>, b: &Vec<Vec<u8>>) -> (r: bool)
    ensures
        r == (a.deep_view() == b.deep_view()),
{
    if a.len() != b.len() {
        assert(a.deep_view().len() != b.deep_view().len());
        return false;
    }
    let n = a.len();
    let mut i: usize = 0;
    while i < n
        invariant
            n == a.len() == b.len(),
            0 <= i <= n,
            forall|k: int| 0 <= k < i ==> a.deep_view()[k] == b.deep_view()[k],
        decreases n - i,
    {
        let same = bytes_eq(&a[i], &b[i]);
        proof {
            assert(a.deep_view()[i as int] =~= a@[i as int]@);
            assert(b.deep_view()[i as int] =~= b@[i as int]@);
        }
        if !same {
            assert(a.deep_view()[i as int] != b.deep_view()[i as int]);
            return false;
        }
        i += 1;
    }
    proof {
        assert(a.deep_view() =~= b.deep_view());
    }
    true
}

impl Endpoint {
    /// An endpoint with no metadata.
    pub fn new(address: EndpointAddress) -> (r: Endpoint)
        ensures
            r@ == (address, Seq::<Seq<u8>>::empty()),
    {
        let r = Endpoint { address, tokens: Vec::new() };
        proof {
            assert(r.tokens.deep_view() =~= Seq::<Seq<u8>>::empty());
        }
        r
    }

    /// An endpoint carrying the given metadata tokens.
    pub fn with_metadata(address: EndpointAddress, tokens: Vec<Vec<u8>>) -> (r: Endpoint)
        ensures
            r@ == (address, tokens.deep_view()),
    {
        Endpoint { address, tokens }
    }

    /// Executable value equality, pinned to `ep_eq`.
    pub fn same(&self, other: &Endpoint) -> (r: bool)
        ensures
            r == (self@ == other@),
    {
        self.address == other.address && tokens_eq(&self.tokens, &other.tokens)
    }
}

/// A copy of a byte vector whose view equals the source's.
pub fn copy_bytes(src: &Vec<u8>) -> (r: Vec<u8>)
    ensures
        r@ == src@,
{
    let mut out: Vec<u8> = Vec::new();
    let n = src.len();
    let mut i: usize = 0;
    while i < n
        invariant
            n == src.len(),
            0 <= i <= n,
            out@ == src@.take(i as int),
        decreases n - i,
    {
        out.push(src[i]);
        assert(out@ =~= src@.take(i + 1 as int));
        i += 1;
    }
    proof {
        assert(src@.take(n as int) =~= src@);
    }
    out
}

/// A copy of a token list whose deep view equals the source's.
pub fn copy_tokens(src: &Vec<Vec<u8>>) -> (r: Vec<Vec<u8>>)
    ensures
        r.deep_view() == src.deep_view(),
{
    let mut out: Vec<Vec<u8>> = Vec::new();
    let n = src.len();
    let mut i: usize = 0;
    while i < n
        invariant
            n == src.len(),
            0 <= i <= n,
            out.len() == i,
            forall|k: int| 0 <= k < i ==> out@[k].deep_view() == src.deep_view()[k],
        decreases n - i,
    {
        let c = copy_bytes(&src[i]);
        proof {
            assert(c.deep_view() =~= src@[i as int].deep_view());
        }
        out.push(c);
        i += 1;
    }
    proof {
        assert(out.deep_view() =~= src.deep_view());
    }
    out
}

impl Clone for Endpoint {
    /// A value-equal copy of the endpoint.
    fn clone(&self) -> (r: Self)
        ensures
            r@ == self@,
    {
        Endpoint { address: self.address, tokens: copy_tokens(&self.tokens) }
    }
}

} // verus!
