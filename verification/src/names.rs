use vstd::prelude::*;

verus! {

/// The decimal digits of `n`, most significant first, as ASCII bytes
/// (no leading zeroes; `0` renders as a single `'0'`).
pub open spec fn spec_decimal(n: nat) -> Seq<u8>
    decreases n,
{
    if n < 10 {
        seq![(48 + n) as u8]
    } else {
        spec_decimal(n / 10).push((48 + n % 10) as u8)
    }
}

/// A rendered decimal is never empty, and has one digit exactly for
/// numbers below ten.
pub proof fn lemma_decimal_len(n: nat)
    ensures
        spec_decimal(n).len() >= 1,
        (spec_decimal(n).len() == 1) <==> n < 10,
    decreases n,
{
    if n >= 10 {
        lemma_decimal_len(n / 10);
    }
}

/// Distinct numbers render to distinct decimal digit strings.
pub proof fn lemma_decimal_injective(a: nat, b: nat)
    requires
        a != b,
    ensures
        spec_decimal(a) != spec_decimal(b),
    decreases a + b,
{
    lemma_decimal_len(a);
    lemma_decimal_len(b);
    if a < 10 && b < 10 {
        assert(spec_decimal(a)[0] == (48 + a) as u8);
        assert(spec_decimal(b)[0] == (48 + b) as u8);
    } else if a < 10 || b < 10 {
        // one string has a single digit, the other at least two
    } else {
        if spec_decimal(a) == spec_decimal(b) {
            let sa = spec_decimal(a / 10);
            let sb = spec_decimal(b / 10);
            assert(spec_decimal(a) == sa.push((48 + a % 10) as u8));
            assert(spec_decimal(b) == sb.push((48 + b % 10) as u8));
            assert(sa =~= spec_decimal(a).drop_last());
            assert(sb =~= spec_decimal(b).drop_last());
            assert(spec_decimal(a).last() == spec_decimal(b).last());
            assert(a % 10 == b % 10);
            if a / 10 == b / 10 {
                assert(a == (a / 10) * 10 + a % 10);
                assert(b == (b / 10) * 10 + b % 10);
                assert(false);
            } else {
                lemma_decimal_injective(a / 10, b / 10);
                assert(false);
            }
        }
    }
}

/// Renders the decimal digits of `n`, most significant first.
pub fn decimal_bytes(n: u64) -> (r: Vec<u8>)
    ensures
        r@ == spec_decimal(n as nat),
    decreases n,
{
    if n < 10 {
        let mut v: Vec<u8> = Vec::new();
        v.push(48 + n as u8);
        assert(v@ =~= spec_decimal(n as nat));
        v
    } else {
        let mut v: Vec<u8> = decimal_bytes(n / 10);
        v.push(48 + (n % 10) as u8);
        assert(v@ =~= spec_decimal(n as nat));
        v
    }
}

/// The name every created child carries: `node_` followed by the decimal
/// rendering of its numeric suffix.
pub open spec fn spec_node_name(n: nat) -> Seq<u8> {
    seq![110u8, 111u8, 100u8, 101u8, 95u8] + spec_decimal(n)  // "node_"
}

/// Renders `node_<n>` as ASCII bytes.
pub fn node_name(n: u64) -> (r: Vec<u8>)
    ensures
        r@ == spec_node_name(n as nat),
{
    let mut v: Vec<u8> = Vec::new();
    v.push(110);  // n
    v.push(111);  // o
    v.push(100);  // d
    v.push(101);  // e
    v.push(95);  // _
    let mut digits: Vec<u8> = decimal_bytes(n);
    v.append(&mut digits);
    assert(v@ =~= spec_node_name(n as nat));
    v
}

/// Name uniqueness: distinct numeric suffixes render to distinct node
/// names, so suffixes that never repeat give paths that never collide.
pub proof fn lemma_node_name_injective(a: nat, b: nat)
    requires
        a != b,
    ensures
        spec_node_name(a) != spec_node_name(b),
{
    lemma_decimal_injective(a, b);
    if spec_node_name(a) == spec_node_name(b) {
        assert(spec_decimal(a) =~= spec_decimal(b)) by {
            assert(spec_node_name(a).len() == spec_node_name(b).len());
            assert(spec_decimal(a).len() == spec_decimal(b).len());
            assert forall|i: int| 0 <= i < spec_decimal(a).len() implies spec_decimal(a)[i]
                == spec_decimal(b)[i] by {
                assert(spec_node_name(a)[5 + i] == spec_decimal(a)[i]);
                assert(spec_node_name(b)[5 + i] == spec_decimal(b)[i]);
            }
        }
    }
}

/// The process-wide counter behind client-counted names: handed out
/// through fetch-and-increment only, so no suffix is ever given twice.
pub struct NameAllocator {
    pub next: u64,
}

impl NameAllocator {
    pub fn new() -> (r: NameAllocator)
        ensures
            r.next == 0,
    {
        NameAllocator { next: 0 }
    }

    /// Fetch-and-increment: returns a suffix no earlier or later call of
    /// this allocator returns.
    pub fn next_suffix(&mut self) -> (r: u64)
        requires
            old(self).next < u64::MAX,
        ensures
            r == old(self).next,
            final(self).next == old(self).next + 1,
    {
        let r: u64 = self.next;
        self.next = self.next + 1;
        r
    }
}

} // verus!
