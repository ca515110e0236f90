//! Identity of graph nodes.

use vstd::prelude::*;
use vstd::string::StringSliceAdditionalSpecFns;

verus! {

/// Identity of a host or a page.
#[derive(Clone, Copy, Debug, PartialEq, Eq, Structural, PartialOrd, Ord, Hash)]
pub struct NodeID(pub u128);

impl NodeID {
    pub open spec fn view(&self) -> u128 {
        self.0
    }

    /// Wraps a raw identifier.
    pub fn from(id: u128) -> (r: NodeID)
        ensures
            r@ == id,
    {
        NodeID(id)
    }

    /// The raw identifier.
    pub fn as_u128(&self) -> (r: u128)
        ensures
            r == self@,
    {
        self.0
    }
}

/// Multiplier of the name hash.
pub const NAME_HASH_FACTOR: u128 = 0x0000_0100_0000_01b3_9d4f_0c27_5e8a_6b35;

/// The hash of a name's bytes: each byte, from the first on, is folded
/// into the running value, modulo 2^128.
pub open spec fn name_hash(bytes: Seq<u8>) -> u128
    decreases bytes.len(),
{
    if bytes.len() == 0 {
        0
    } else {
        name_hash_step(name_hash(bytes.drop_last()), bytes.last())
    }
}

/// One step of the name hash.
pub open spec fn name_hash_step(h: u128, b: u8) -> u128 {
    ((h as int * NAME_HASH_FACTOR as int + b as int + 1) % (u128::MAX as int + 1)) as u128
}

fn hash_step(h: u128, b: u8) -> (r: u128)
    ensures
        r == name_hash_step(h, b),
{
    let m: u128 = h.wrapping_mul(NAME_HASH_FACTOR);
    let c: u128 = b as u128 + 1;
    let r: u128 = m.wrapping_add(c);
    assert(r == name_hash_step(h, b)) by (nonlinear_arith)
        requires
            m as int == (h as int * NAME_HASH_FACTOR as int) % (u128::MAX as int + 1),
            c == b as int + 1,
            r as int == (m as int + c as int) % (u128::MAX as int + 1),
    ;
    r
}

/// Hashes a name's bytes.
pub fn hash_name(bytes: &[u8]) -> (r: u128)
    ensures
        r == name_hash(bytes@),
{
    let mut h: u128 = 0;
    let mut i: usize = 0;
    while i < bytes.len()
        invariant
            i <= bytes.len(),
            h == name_hash(bytes@.take(i as int)),
        decreases bytes.len() - i,
    {
        proof {
            assert(bytes@.take(i + 1).drop_last() =~= bytes@.take(i as int));
        }
        h = hash_step(h, bytes[i]);
        i += 1;
    }
    proof {
        assert(bytes@.take(i as int) =~= bytes@);
    }
    h
}

/// The index of the first `://` in `bytes`, or the length of `bytes` where
/// there is none.
pub open spec fn scheme_end(bytes: Seq<u8>) -> int
    decreases bytes.len(),
{
    if bytes.len() < 3 {
        bytes.len() as int
    } else if bytes[0] == 0x3a && bytes[1] == 0x2f && bytes[2] == 0x2f {
        0
    } else {
        let rest = scheme_end(bytes.drop_first());
        if rest == bytes.len() - 1 {
            bytes.len() as int
        } else {
            1 + rest
        }
    }
}

/// The index of the first `/` in `bytes`, or the length of `bytes` where
/// there is none.
pub open spec fn path_start(bytes: Seq<u8>) -> int
    decreases bytes.len(),
{
    if bytes.len() == 0 {
        0
    } else if bytes[0] == 0x2f {
        0
    } else {
        1 + path_start(bytes.drop_first())
    }
}

/// What follows the first `://`, or all of `bytes` where there is none.
pub open spec fn without_scheme(bytes: Seq<u8>) -> Seq<u8> {
    if scheme_end(bytes) == bytes.len() {
        bytes
    } else {
        bytes.skip(scheme_end(bytes) + 3)
    }
}

/// The host of a name: the name without its scheme, up to the first `/`.
pub open spec fn host_of(bytes: Seq<u8>) -> Seq<u8> {
    without_scheme(bytes).take(path_start(without_scheme(bytes)))
}

proof fn lemma_scheme_end(bytes: Seq<u8>, k: int)
    requires
        0 <= k <= bytes.len(),
        forall|j: int|
            0 <= j < k && j + 2 < bytes.len() ==> !(bytes[j] == 0x3a && #[trigger] bytes[j + 1]
                == 0x2f && bytes[j + 2] == 0x2f),
        k + 2 < bytes.len() ==> bytes[k] == 0x3a && bytes[k + 1] == 0x2f && bytes[k + 2] == 0x2f,
        k + 2 >= bytes.len() ==> k == bytes.len(),
    ensures
        scheme_end(bytes) == k,
    decreases bytes.len(),
{
    if bytes.len() < 3 {
    } else if bytes[0] == 0x3a && bytes[1] == 0x2f && bytes[2] == 0x2f {
        if k > 0 {
            assert(bytes[0int + 1] == 0x2f);
        }
    } else {
        let t = bytes.drop_first();
        assert(k > 0);
        assert forall|j: int| 0 <= j < k - 1 && j + 2 < t.len() implies !(t[j] == 0x3a
            && #[trigger] t[j + 1] == 0x2f && t[j + 2] == 0x2f) by {
            assert(t[j] == bytes[j + 1]);
            assert(t[j + 1] == bytes[(j + 1) + 1]);
            assert(t[j + 2] == bytes[j + 3]);
        }
        lemma_scheme_end(t, k - 1);
    }
}

proof fn lemma_path_start(bytes: Seq<u8>, k: int)
    requires
        0 <= k <= bytes.len(),
        forall|j: int| 0 <= j < k ==> bytes[j] != 0x2f,
        k < bytes.len() ==> bytes[k] == 0x2f,
    ensures
        path_start(bytes) == k,
    decreases bytes.len(),
{
    if bytes.len() > 0 && bytes[0] != 0x2f {
        let t = bytes.drop_first();
        assert forall|j: int| 0 <= j < k - 1 implies t[j] != 0x2f by {
            assert(t[j] == bytes[j + 1]);
        }
        lemma_path_start(t, k - 1);
    }
}

/// A graph node by its name: the address of a page, or a host.
#[derive(Debug, PartialEq, Eq, PartialOrd, Ord, Hash)]
pub struct Node {
    name: Vec<u8>,
}

impl View for Node {
    type V = Seq<u8>;

    closed spec fn view(&self) -> Seq<u8> {
        self.name@
    }
}

impl Clone for Node {
    fn clone(&self) -> (r: Node)
        ensures
            r@ == self@,
    {
        Node { name: copy_bytes(self.name.as_slice(), 0, self.name.len()) }
    }
}

/// The bytes of `bytes` from `from` up to `to`.
fn copy_bytes(bytes: &[u8], from: usize, to: usize) -> (r: Vec<u8>)
    requires
        from <= to <= bytes.len(),
    ensures
        r@ == bytes@.subrange(from as int, to as int),
{
    let mut r: Vec<u8> = Vec::new();
    let mut i: usize = from;
    while i < to
        invariant
            from <= i <= to <= bytes.len(),
            r@ == bytes@.subrange(from as int, i as int),
        decreases to - i,
    {
        r.push(bytes[i]);
        i += 1;
        proof {
            assert(r@ =~= bytes@.subrange(from as int, i as int));
        }
    }
    r
}

impl Node {
    /// The node of that name.
    pub fn from(name: &str) -> (r: Node)
        ensures
            r@ == name.spec_bytes(),
    {
        let bytes = name.as_bytes();
        let r = Node { name: copy_bytes(bytes, 0, bytes.len()) };
        proof {
            assert(bytes@.subrange(0, bytes@.len() as int) =~= bytes@);
        }
        r
    }

    /// The node of that name, given as bytes.
    pub fn from_bytes(name: Vec<u8>) -> (r: Node)
        ensures
            r@ == name@,
    {
        Node { name }
    }

    /// The name.
    pub fn as_bytes(&self) -> (r: &[u8])
        ensures
            r@ == self@,
    {
        self.name.as_slice()
    }

    /// The identity of the node: the hash of its name.
    pub fn id(&self) -> (r: NodeID)
        ensures
            r@ == name_hash(self@),
    {
        NodeID(hash_name(self.name.as_slice()))
    }

    /// The node of the host that this node belongs to.
    pub fn into_host(self) -> (r: Node)
        ensures
            r@ == host_of(self@),
    {
        let bytes = self.name.as_slice();
        let n = bytes.len();
        let mut i: usize = 0;
        while n - i > 2 && !(bytes[i] == 0x3a && bytes[i + 1] == 0x2f && bytes[i + 2] == 0x2f)
            invariant
                i <= n,
                n == bytes.len(),
                forall|j: int|
                    0 <= j < i && j + 2 < n ==> !(bytes@[j] == 0x3a && #[trigger] bytes@[j + 1]
                        == 0x2f && bytes@[j + 2] == 0x2f),
            decreases n - i,
        {
            i += 1;
        }
        let start: usize = if n - i > 2 {
            i + 3
        } else {
            0
        };
        proof {
            let k = if i + 2 < n {
                i as int
            } else {
                n as int
            };
            lemma_scheme_end(bytes@, k);
            if i + 2 >= n {
                assert(bytes@.skip(0) =~= bytes@);
            }
        }
        let ghost rest = without_scheme(bytes@);
        assert(rest =~= bytes@.skip(start as int));
        let mut j: usize = start;
        while j < n && bytes[j] != 0x2f
            invariant
                start <= j <= n,
                n == bytes.len(),
                rest == bytes@.skip(start as int),
                forall|m: int| 0 <= m < j - start ==> rest[m] != 0x2f,
            decreases n - j,
        {
            j += 1;
        }
        proof {
            lemma_path_start(rest, j - start);
            assert(bytes@.subrange(start as int, j as int) =~= rest.take(j - start));
        }
        Node { name: copy_bytes(bytes, start, j) }
    }
}

} // verus!
