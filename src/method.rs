use vstd::prelude::*;

verus! {

/// The HTTP methods that routes are registered for and requests carry.
#[derive(Clone, Copy, Debug, PartialEq, Eq, Structural, Hash)]
pub enum Method {
    Connect,
    Delete,
    Get,
    Head,
    Options,
    Patch,
    Post,
    Put,
    Trace,
}

/// The bit that stands for `m` in a `MethodFilter`.
pub open spec fn method_bit(m: Method) -> u16 {
    match m {
        Method::Connect => 1,
        Method::Delete => 2,
        Method::Get => 4,
        Method::Head => 8,
        Method::Options => 16,
        Method::Patch => 32,
        Method::Post => 64,
        Method::Put => 128,
        Method::Trace => 256,
    }
}

/// A set of methods, one bit per method.
#[derive(Clone, Copy, Debug, PartialEq, Eq, Structural)]
pub struct MethodFilter(u16);

impl View for MethodFilter {
    type V = Set<Method>;

    open spec fn view(&self) -> Set<Method> {
        Set::new(|m: Method| self.spec_bits() & method_bit(m) != 0)
    }
}

impl MethodFilter {
    pub closed spec fn spec_bits(self) -> u16 {
        self.0
    }

    /// Only the nine method bits are ever set.
    pub closed spec fn wf(self) -> bool {
        self.0 < 512
    }

    fn bits(self) -> (r: u16)
        ensures
            r == self.spec_bits(),
    {
        self.0
    }

    fn from_bits(bits: u16) -> (r: Self)
        ensures
            r.spec_bits() == bits,
    {
        MethodFilter(bits)
    }

    /// The filter that holds exactly `m`.
    pub fn from_method(m: Method) -> (r: Self)
        ensures
            r.wf(),
            r@ == set![m],
    {
        let bits: u16 = match m {
            Method::Connect => 1,
            Method::Delete => 2,
            Method::Get => 4,
            Method::Head => 8,
            Method::Options => 16,
            Method::Patch => 32,
            Method::Post => 64,
            Method::Put => 128,
            Method::Trace => 256,
        };
        let r = Self::from_bits(bits);
        proof {
            lemma_single_bit(m);
            assert(r@ =~= set![m]);
        }
        r
    }

    /// Whether every method of `other` is in `self`.
    pub fn contains(self, other: Self) -> (r: bool)
        requires
            other.wf(),
        ensures
            r == other@.subset_of(self@),
    {
        let r = self.bits() & other.bits() == other.bits();
        proof {
            lemma_subset_bits(self.spec_bits(), other.spec_bits());
            let all = forall|m: Method|
                other.spec_bits() & #[trigger] method_bit(m) != 0 ==> self.spec_bits() & method_bit(m) != 0;
            if all {
                assert forall|m: Method| other@.contains(m) implies self@.contains(m) by {
                    assert(other.spec_bits() & method_bit(m) != 0);
                }
            }
            if other@.subset_of(self@) {
                assert forall|m: Method| other.spec_bits() & #[trigger] method_bit(m) != 0 implies
                    self.spec_bits() & method_bit(m) != 0 by {
                    assert(other@.contains(m));
                }
            }
        }
        r
    }

    /// The union of the two filters.
    pub fn or(self, other: Self) -> (r: Self)
        ensures
            self.wf() && other.wf() ==> r.wf(),
            r@ == self@.union(other@),
    {
        let r = MethodFilter(self.0 | other.0);
        proof {
            let (a, b) = (self.0, other.0);
            assert(a < 512 && b < 512 ==> a | b < 512) by (bit_vector);
            assert forall|m: Method| r@.contains(m) == self@.union(other@).contains(m) by {
                let x = method_bit(m);
                assert((a | b) & x != 0 <==> (a & x != 0 || b & x != 0)) by (bit_vector);
            }
            assert(r@ =~= self@.union(other@));
        }
        r
    }
}

proof fn lemma_single_bit(m: Method)
    ensures
        forall|n: Method| (method_bit(m) & method_bit(n) != 0) == (m == n),
{
    assert(forall|x: u16, y: u16|
        (x == 1 || x == 2 || x == 4 || x == 8 || x == 16 || x == 32 || x == 64 || x == 128 || x == 256) && (y == 1 || y == 2 || y == 4 || y == 8 || y == 16 || y == 32 || y == 64 || y == 128 || y == 256) ==> ((x & y != 0) == (x == y))) by (bit_vector);
}

proof fn lemma_subset_bits(a: u16, b: u16)
    requires
        b < 512,
    ensures
        (a & b == b) == (forall|m: Method| b & #[trigger] method_bit(m) != 0 ==> a & method_bit(m) != 0),
{
    assert((a & b == b) == ((b & 1 == 0 || a & 1 != 0) && (b & 2 == 0 || a & 2 != 0) && (b & 4 == 0 || a & 4 != 0) && (b & 8 == 0 || a & 8 != 0) && (b & 16 == 0 || a & 16 != 0) && (b & 32 == 0 || a & 32 != 0) && (b & 64 == 0 || a & 64 != 0) && (b & 128 == 0 || a & 128 != 0) && (b & 256 == 0 || a & 256 != 0))) by (bit_vector)
        requires
            b < 512,
    ;
    assert(method_bit(Method::Connect) == 1);
    assert(method_bit(Method::Delete) == 2);
    assert(method_bit(Method::Get) == 4);
    assert(method_bit(Method::Head) == 8);
    assert(method_bit(Method::Options) == 16);
    assert(method_bit(Method::Patch) == 32);
    assert(method_bit(Method::Post) == 64);
    assert(method_bit(Method::Put) == 128);
    assert(method_bit(Method::Trace) == 256);
}

} // verus!
