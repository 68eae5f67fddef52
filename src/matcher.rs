use vstd::prelude::*;

use crate::text::{chars_of, contains_chars, is_infix, lower_of, lowercase};

verus! {

/// The match rule on names that are already lower-cased: equal names, either
/// name contained in the other, or the process name contained in the bundle id.
pub open spec fn folded_match(bundle: Seq<char>, window: Seq<char>, process: Seq<char>) -> bool {
    process == window || is_infix(process, window) || is_infix(window, process) || is_infix(
        process,
        bundle,
    )
}

/// The match rule on names as reported, ignoring case.
pub open spec fn name_matches(bundle: Seq<char>, window: Seq<char>, process: Seq<char>) -> bool {
    folded_match(lower_of(bundle), lower_of(window), lower_of(process))
}

/// The names of a process census, in enumeration order.
pub open spec fn names_of(census: Seq<String>) -> Seq<Seq<char>> {
    census.map_values(|s: String| s@)
}

/// `r` is the index of the first census name that matches the foreground
/// application, or `None` when no name matches.
pub open spec fn is_first_match(
    bundle: Seq<char>,
    window: Seq<char>,
    census: Seq<Seq<char>>,
    r: Option<usize>,
) -> bool {
    match r {
        Some(i) => {
            &&& i < census.len()
            &&& name_matches(bundle, window, census[i as int])
            &&& forall|j: int| 0 <= j < i ==> !name_matches(bundle, window, #[trigger] census[j])
        },
        None => forall|j: int| 0 <= j < census.len() ==> !name_matches(bundle, window, #[trigger] census[j]),
    }
}

fn folded_match_chars(bundle: &Vec<char>, window: &Vec<char>, process: &Vec<char>) -> (r: bool)
    ensures
        r == folded_match(bundle@, window@, process@),
{
    proof {
        if process@ == window@ {
            assert(window@.subrange(0int, 0int + process@.len()) =~= process@);
            assert(is_infix(process@, window@));
        }
    }
    contains_chars(window, process) || contains_chars(process, window) || contains_chars(
        bundle,
        process,
    )
}

/// The match rule applied to names that the caller has already lower-cased.
pub fn matches_folded(bundle_lower: &str, window_lower: &str, process_lower: &str) -> (r: bool)
    ensures
        r == folded_match(bundle_lower@, window_lower@, process_lower@),
{
    let b = chars_of(bundle_lower);
    let w = chars_of(window_lower);
    let p = chars_of(process_lower);
    folded_match_chars(&b, &w, &p)
}

/// Finds the first process of the census, in its enumeration order, whose
/// name matches the foreground application's bundle id and window name.
pub fn find_match(bundle_id: &str, window_name: &str, census: &Vec<String>) -> (r: Option<usize>)
    ensures
        is_first_match(bundle_id@, window_name@, names_of(census@), r),
{
    let bundle_lower = lowercase(bundle_id);
    let window_lower = lowercase(window_name);
    let b = chars_of(bundle_lower.as_str());
    let w = chars_of(window_lower.as_str());
    let mut i: usize = 0;
    while i < census.len()
        invariant
            b@ == lower_of(bundle_id@),
            w@ == lower_of(window_name@),
            i <= census@.len(),
            forall|j: int|
                0 <= j < i ==> !name_matches(bundle_id@, window_name@, #[trigger] names_of(census@)[j]),
        decreases census@.len() - i,
    {
        let process_lower = lowercase(census[i].as_str());
        let p = chars_of(process_lower.as_str());
        if folded_match_chars(&b, &w, &p) {
            return Some(i);
        }
        i = i + 1;
    }
    None
}

/// For a fixed foreground application and a fixed census order there is only
/// one first match, so repeated matching gives the same answer.
pub proof fn lemma_first_match_unique(
    bundle: Seq<char>,
    window: Seq<char>,
    census: Seq<Seq<char>>,
    r1: Option<usize>,
    r2: Option<usize>,
)
    requires
        is_first_match(bundle, window, census, r1),
        is_first_match(bundle, window, census, r2),
    ensures
        r1 == r2,
{
    match (r1, r2) {
        (Some(i), Some(k)) => {
            if i < k {
                assert(!name_matches(bundle, window, census[i as int]));
            } else if k < i {
                assert(!name_matches(bundle, window, census[k as int]));
            }
        },
        (Some(i), None) => {
            assert(!name_matches(bundle, window, census[i as int]));
        },
        (None, Some(k)) => {
            assert(!name_matches(bundle, window, census[k as int]));
        },
        (None, None) => {},
    }
}

/// Containment of one name in the other, in either direction and ignoring
/// case, is a match whatever the bundle id.
pub proof fn lemma_containment_either_way_matches(
    bundle: Seq<char>,
    window: Seq<char>,
    process: Seq<char>,
)
    requires
        is_infix(lower_of(process), lower_of(window)) || is_infix(lower_of(window), lower_of(process)),
    ensures
        name_matches(bundle, window, process),
{
}

} // verus!
