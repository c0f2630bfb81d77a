//! Paths of the configuration: `$HOME` in a configured path stands for the home directory.
use vstd::prelude::*;
use crate::text::{str_replace, spec_replace, contains_seq, chars_of, find_from};

verus! {

/// `path` with `$HOME` replaced by `home_dir` when the home directory is known and the path
/// mentions it; else `path` unchanged.
pub open spec fn spec_replace_home(path: Seq<char>, home_dir: Option<Seq<char>>) -> Seq<char> {
    let pat = seq!['$', 'H', 'O', 'M', 'E'];
    match home_dir {
        Some(h) => if contains_seq(path, pat) {
            spec_replace(path, pat, h)
        } else {
            path
        },
        None => path,
    }
}

/// `path` with `$HOME` made the home directory `home_dir` (see `spec_replace_home`).
pub fn replace_home_variable(path: String, home_dir: Option<&str>) -> (r: String)
    ensures
        r@ == spec_replace_home(path@, match home_dir {
            Some(h) => Some(h@),
            None => None,
        }),
{
    match home_dir {
        Some(h) => {
            let pat = "$HOME";
            proof {
                reveal_strlit("$HOME");
                assert(pat@ =~= seq!['$', 'H', 'O', 'M', 'E']);
            }
            let pc = chars_of(pat);
            let sc = chars_of(path.as_str());
            proof {
                crate::text::lemma_find_from_bounds(path@, pat@, 0);
            }
            match find_from(sc.as_slice(), pc.as_slice(), 0) {
                Some(_) => str_replace(path.as_str(), pat, h),
                None => {
                    proof {
                        assert(!contains_seq(path@, pat@));
                    }
                    path
                },
            }
        },
        None => path,
    }
}

} // verus!
