//! Checkpoint discovery: resuming from the most advanced snapshot.
//!
//! A numbered checkpoint file is named `<prefix>_<steps>.ot`. On startup the
//! directory listing is scanned for such names; the file with the highest
//! embedded step count is the resume point. Names without the suffix, with a
//! malformed number, or with a number too large for the machine word are
//! ignored.

use vstd::prelude::*;
use crate::num::{find_byte, parse_u64_at, scan_u64};

verus! {

/// ASCII `.`, `o`, `t`, `_`.
pub const DOT: u8 = 46;

pub const LETTER_O: u8 = 111;

pub const LETTER_T: u8 = 116;

pub const UNDERSCORE: u8 = 95;

/// The name ends in `.ot` with a nonempty stem before the dot.
pub open spec fn has_ot_extension(s: Seq<u8>) -> bool {
    &&& s.len() > 3
    &&& s[s.len() - 3] == DOT
    &&& s[s.len() - 2] == LETTER_O
    &&& s[s.len() - 1] == LETTER_T
}

/// The step count a checkpoint file name carries: everything of the stem
/// after its first underscore, read as an unsigned decimal number that fits
/// the machine word. Any other name carries none.
pub open spec fn step_of_name(s: Seq<u8>) -> Option<int> {
    if has_ot_extension(s) {
        let stem_end = s.len() - 3;
        let u = find_byte(s, UNDERSCORE, 0);
        if u >= stem_end {
            None
        } else {
            match parse_u64_at(s, u + 1) {
                Some((v, j)) => if j == stem_end {
                    Some(v)
                } else {
                    None
                },
                None => None,
            }
        }
    } else {
        None
    }
}

/// Reads the embedded step count of one file name.
pub fn step_of_name_exec(name: &Vec<u8>) -> (r: Option<u64>)
    ensures
        match r {
            Some(v) => step_of_name(name@) == Some(v as int),
            None => step_of_name(name@) is None,
        },
{
    let ghost gs = name@;
    let n = name.len();
    if n <= 3 {
        return None;
    }
    if !(name[n - 3] == DOT && name[n - 2] == LETTER_O && name[n - 1] == LETTER_T) {
        return None;
    }
    let stem_end = n - 3;
    // Find the first underscore.
    let mut u: usize = 0;
    while u < name.len() && name[u] != UNDERSCORE
        invariant
            u <= gs.len(),
            gs == name@,
            forall|k: int| 0 <= k < u ==> gs[k] != UNDERSCORE,
            find_byte(gs, UNDERSCORE, 0) == find_byte(gs, UNDERSCORE, u as int),
        decreases gs.len() - u,
    {
        proof {
            assert(find_byte(gs, UNDERSCORE, u as int) == find_byte(gs, UNDERSCORE, u + 1));
        }
        u = u + 1;
    }
    proof {
        assert(find_byte(gs, UNDERSCORE, u as int) == u as int);
    }
    if u >= stem_end {
        return None;
    }
    match scan_u64(name, u + 1) {
        Some((v, j)) => {
            if j == stem_end {
                Some(v)
            } else {
                None
            }
        }
        None => None,
    }
}

/// Of all names in the listing, picks the one with the highest embedded step
/// count — on a tie, the last such name — and returns the count and the
/// name's index. Returns nothing when no name carries a step count.
pub fn get_model_path_with_most_steps(names: &Vec<Vec<u8>>) -> (r: Option<(u64, usize)>)
    ensures
        match r {
            None => forall|k: int| 0 <= k < names@.len() ==> step_of_name(#[trigger] names@[k]@) is None,
            Some((step, idx)) => {
                &&& idx < names@.len()
                &&& step_of_name(names@[idx as int]@) == Some(step as int)
                &&& forall|k: int| 0 <= k < names@.len() ==> (match step_of_name(
                    #[trigger] names@[k]@,
                ) {
                    Some(v) => v <= step as int,
                    None => true,
                })
                &&& forall|k: int| idx < k < names@.len() ==> (match step_of_name(
                    #[trigger] names@[k]@,
                ) {
                    Some(v) => v < step as int,
                    None => true,
                })
            },
        },
{
    let mut best: Option<(u64, usize)> = None;
    let mut i: usize = 0;
    while i < names.len()
        invariant
            i <= names@.len(),
            match best {
                None => forall|k: int| 0 <= k < i ==> step_of_name(#[trigger] names@[k]@) is None,
                Some((step, idx)) => {
                    &&& idx < i
                    &&& step_of_name(names@[idx as int]@) == Some(step as int)
                    &&& forall|k: int| 0 <= k < i ==> (match step_of_name(#[trigger] names@[k]@) {
                        Some(v) => v <= step as int,
                        None => true,
                    })
                    &&& forall|k: int| idx < k < i ==> (match step_of_name(#[trigger] names@[k]@) {
                        Some(v) => v < step as int,
                        None => true,
                    })
                },
            },
        decreases names@.len() - i,
    {
        match step_of_name_exec(&names[i]) {
            Some(v) => {
                let take = match best {
                    Some((b, _)) => v >= b,
                    None => true,
                };
                if take {
                    best = Some((v, i));
                }
            }
            None => {}
        }
        i = i + 1;
    }
    best
}

} // verus!
