//! The dictionary names the merge reads and writes, as byte strings.
use vstd::prelude::*;

verus! {

/// The name `Type`.
pub open spec fn k_type() -> Seq<u8> {
    seq!['T' as u8, 'y' as u8, 'p' as u8, 'e' as u8]
}

/// The name `Page`.
pub open spec fn k_page() -> Seq<u8> {
    seq!['P' as u8, 'a' as u8, 'g' as u8, 'e' as u8]
}

/// The name `Pages`.
pub open spec fn k_pages() -> Seq<u8> {
    seq!['P' as u8, 'a' as u8, 'g' as u8, 'e' as u8, 's' as u8]
}

/// The name `Count`.
pub open spec fn k_count() -> Seq<u8> {
    seq!['C' as u8, 'o' as u8, 'u' as u8, 'n' as u8, 't' as u8]
}

/// The name `Kids`.
pub open spec fn k_kids() -> Seq<u8> {
    seq!['K' as u8, 'i' as u8, 'd' as u8, 's' as u8]
}

/// The name `Parent`.
pub open spec fn k_parent() -> Seq<u8> {
    seq!['P' as u8, 'a' as u8, 'r' as u8, 'e' as u8, 'n' as u8, 't' as u8]
}

/// The name `Root`.
pub open spec fn k_root() -> Seq<u8> {
    seq!['R' as u8, 'o' as u8, 'o' as u8, 't' as u8]
}

/// The name `Catalog`.
pub open spec fn k_catalog() -> Seq<u8> {
    seq!['C' as u8, 'a' as u8, 't' as u8, 'a' as u8, 'l' as u8, 'o' as u8, 'g' as u8]
}

/// The bytes of `Type`.
pub fn mk_type() -> (r: Vec<u8>)
    ensures
        r@ == k_type(),
{
    let mut v: Vec<u8> = Vec::new();
    v.push('T' as u8);
    v.push('y' as u8);
    v.push('p' as u8);
    v.push('e' as u8);
    proof {
        assert(v@ =~= k_type());
    }
    v
}

/// The bytes of `Page`.
pub fn mk_page() -> (r: Vec<u8>)
    ensures
        r@ == k_page(),
{
    let mut v: Vec<u8> = Vec::new();
    v.push('P' as u8);
    v.push('a' as u8);
    v.push('g' as u8);
    v.push('e' as u8);
    proof {
        assert(v@ =~= k_page());
    }
    v
}

/// The bytes of `Pages`.
pub fn mk_pages() -> (r: Vec<u8>)
    ensures
        r@ == k_pages(),
{
    let mut v: Vec<u8> = Vec::new();
    v.push('P' as u8);
    v.push('a' as u8);
    v.push('g' as u8);
    v.push('e' as u8);
    v.push('s' as u8);
    proof {
        assert(v@ =~= k_pages());
    }
    v
}

/// The bytes of `Count`.
pub fn mk_count() -> (r: Vec<u8>)
    ensures
        r@ == k_count(),
{
    let mut v: Vec<u8> = Vec::new();
    v.push('C' as u8);
    v.push('o' as u8);
    v.push('u' as u8);
    v.push('n' as u8);
    v.push('t' as u8);
    proof {
        assert(v@ =~= k_count());
    }
    v
}

/// The bytes of `Kids`.
pub fn mk_kids() -> (r: Vec<u8>)
    ensures
        r@ == k_kids(),
{
    let mut v: Vec<u8> = Vec::new();
    v.push('K' as u8);
    v.push('i' as u8);
    v.push('d' as u8);
    v.push('s' as u8);
    proof {
        assert(v@ =~= k_kids());
    }
    v
}

/// The bytes of `Parent`.
pub fn mk_parent() -> (r: Vec<u8>)
    ensures
        r@ == k_parent(),
{
    let mut v: Vec<u8> = Vec::new();
    v.push('P' as u8);
    v.push('a' as u8);
    v.push('r' as u8);
    v.push('e' as u8);
    v.push('n' as u8);
    v.push('t' as u8);
    proof {
        assert(v@ =~= k_parent());
    }
    v
}

/// The bytes of `Root`.
pub fn mk_root() -> (r: Vec<u8>)
    ensures
        r@ == k_root(),
{
    let mut v: Vec<u8> = Vec::new();
    v.push('R' as u8);
    v.push('o' as u8);
    v.push('o' as u8);
    v.push('t' as u8);
    proof {
        assert(v@ =~= k_root());
    }
    v
}

/// The bytes of `Catalog`.
pub fn mk_catalog() -> (r: Vec<u8>)
    ensures
        r@ == k_catalog(),
{
    let mut v: Vec<u8> = Vec::new();
    v.push('C' as u8);
    v.push('a' as u8);
    v.push('t' as u8);
    v.push('a' as u8);
    v.push('l' as u8);
    v.push('o' as u8);
    v.push('g' as u8);
    proof {
        assert(v@ =~= k_catalog());
    }
    v
}

} // verus!
