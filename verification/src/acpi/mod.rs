use vstd::prelude::*;

pub mod rsdp;
pub mod sdt;

verus! {

/// Whether two table signatures are the same.
pub fn same_signature(a: &[u8; 4], b: &[u8; 4]) -> (r: bool)
    ensures
        r == (a@ == b@),
{
    let r = a[0] == b[0] && a[1] == b[1] && a[2] == b[2] && a[3] == b[3];
    proof {
        if r {
            assert(a@ =~= b@);
        }
    }
    r
}

/// The number of tables among the first `upto` whose signature is
/// `signature`.
pub open spec fn matches_before(signatures: Seq<[u8; 4]>, signature: Seq<u8>, upto: int) -> int
    decreases upto,
{
    if upto <= 0 {
        0
    } else {
        matches_before(signatures, signature, upto - 1) + if signatures[upto - 1]@ == signature {
            1int
        } else {
            0int
        }
    }
}

/// The position, among the tables with the signatures `signatures`, of the
/// one that is number `index`, counting from 0, of those with the signature
/// `signature`.
pub fn get_table(signatures: &[[u8; 4]], signature: &[u8; 4], index: usize) -> (r: Option<usize>)
    ensures
        match r {
            Some(i) => {
                &&& i < signatures@.len()
                &&& signatures@[i as int]@ == signature@
                &&& matches_before(signatures@, signature@, i as int) == index
            },
            None => matches_before(signatures@, signature@, signatures@.len() as int) <= index,
        },
{
    let mut seen: usize = 0;
    let mut i: usize = 0;
    while i < signatures.len()
        invariant
            i <= signatures@.len(),
            seen == matches_before(signatures@, signature@, i as int),
            seen <= index,
        decreases signatures@.len() - i,
    {
        if same_signature(&signatures[i], signature) {
            if seen == index {
                return Some(i);
            }
            seen += 1;
        }
        i += 1;
    }
    None
}

} // verus!
