//! The embedded reference dataset: delimited text with a header row and one
//! `postal_code,city` record per line. It is fixed at build time and is the
//! sole source of the validator's local table.

use vstd::prelude::*;

verus! {

/// The embedded dataset as a character sequence, for use in contracts.
pub open spec fn spec_dataset() -> Seq<char> {
    "postal_code,city\n11220,Stockholm\n11221,Stockholm\n11346,Stockholm\n16440,Kista\n21115,Malmo\n25225,Helsingborg\n41103,Goteborg\n58330,Linkoping\n72211,Vasteras\n75236,Uppsala\n90325,Umea\n97231,Lulea\n98139,Kiruna"@
}

/// The embedded dataset.
pub fn dataset_text() -> (s: &'static str)
    ensures
        s@ == spec_dataset(),
{
    "postal_code,city\n11220,Stockholm\n11221,Stockholm\n11346,Stockholm\n16440,Kista\n21115,Malmo\n25225,Helsingborg\n41103,Goteborg\n58330,Linkoping\n72211,Vasteras\n75236,Uppsala\n90325,Umea\n97231,Lulea\n98139,Kiruna"
}

} // verus!
