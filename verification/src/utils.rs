//! Path normalization for mount points.

use vstd::prelude::*;

verus! {

/// `target` framed by slashes: a leading and a trailing `/` are added
/// where missing.
pub open spec fn root_path_of(target: Seq<u8>) -> Seq<u8> {
    let sl = seq![47u8];
    let starts = target.len() > 0 && target[0] == 47;
    let ends = target.len() > 0 && target[target.len() - 1] == 47;
    if starts && ends {
        target
    } else if starts {
        target + sl
    } else if ends {
        sl + target
    } else {
        sl + target + sl
    }
}

/// Frame a mount point with slashes where they are missing.
pub fn make_root_path(target: &[u8]) -> (r: Vec<u8>)
    ensures
        r@ == root_path_of(target@),
{
    let n = target.len();
    let starts = n > 0 && target[0] == 47;
    let ends = n > 0 && target[n - 1] == 47;
    let mut r: Vec<u8> = Vec::new();
    if !starts {
        r.push(47);
    }
    crate::bytes::push_all(&mut r, target);
    if !(starts && ends) && !(!starts && ends) {
        r.push(47);
    }
    proof {
        assert(r@ =~= root_path_of(target@));
    }
    r
}

} // verus!
