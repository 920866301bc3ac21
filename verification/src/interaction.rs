//! The messages the commands announce. Printing, coloring and prompting
//! happen outside; the message text is composed here.
use vstd::prelude::*;

use crate::pathstr::fmt_u64;
use crate::pathstr::spec_decimal;
use crate::pathstr::spec_join;
use crate::profiles::Profile;

verus! {

/// The announcement made before listing a profile's generations.
pub fn announce_listing(profile: &Profile) -> (r: String)
    ensures
        r@ == "Listing generations for profile "@.add(spec_join(profile@.parent, profile@.name)),
{
    let mut r = String::from_str("Listing generations for profile ");
    let path = profile.path();
    r.append(path.as_str());
    r
}

/// The announcement made before removing a profile's marked generations.
pub fn announce_removal(profile: &Profile) -> (r: String)
    ensures
        r@ == "Removing old generations for profile "@.add(
            spec_join(profile@.parent, profile@.name),
        ),
{
    let mut r = String::from_str("Removing old generations for profile ");
    let path = profile.path();
    r.append(path.as_str());
    r
}

/// The announcement made before listing garbage-collection roots.
pub fn announce_gc_roots(nroots_total: usize, nroots_listed: usize) -> (r: String)
    ensures
        r@ == "Listing "@.add(spec_decimal(nroots_listed as nat)).add(" gc roots (out of "@).add(
            spec_decimal(nroots_total as nat),
        ).add(" total)"@),
{
    let mut r = String::from_str("Listing ");
    let listed = fmt_u64(nroots_listed as u64);
    r.append(listed.as_str());
    r.append(" gc roots (out of ");
    let total = fmt_u64(nroots_total as u64);
    r.append(total.as_str());
    r.append(" total)");
    r
}

} // verus!
