//! The script that every page of the window runs first.

use crate::encoding::{base64, base64_encode};
use crate::text::{
    law_replacing_goes_from_one_to_the_next, lemma_replaced_once, occurs_at, replace_all, replaced,
};
use vstd::prelude::*;

verus! {

/// What stands in the script for the logo.
pub const LOGO_PLACEHOLDER: &'static str = "__WA_LITE_LOGO_B64__";

/// The script with the logo in its place.
pub open spec fn patched(script: Seq<char>, logo: Seq<u8>) -> Seq<char> {
    replaced(script, LOGO_PLACEHOLDER@, base64(logo))
}

/// The script with the logo in its place, in Base64. The Base64 form of the logo
/// must fit in memory.
pub fn whatsapp_patches_script(script: &str, logo: &[u8]) -> (r: String)
    requires
        (logo@.len() + 2) / 3 * 4 <= isize::MAX,
    ensures
        r@ == patched(script@, logo@),
{
    let encoded = base64_encode(logo);
    proof {
        reveal_strlit("__WA_LITE_LOGO_B64__");
    }
    replace_all(script, LOGO_PLACEHOLDER, encoded.as_str())
}

/// The logo takes the place of the placeholder, and nothing else of the script
/// changes.
pub proof fn law_logo_takes_the_place_of_its_placeholder(
    before: Seq<char>,
    after: Seq<char>,
    logo: Seq<u8>,
)
    requires
        forall|k: int|
            k != before.len() ==> !(#[trigger] occurs_at(
                before + LOGO_PLACEHOLDER@ + after,
                LOGO_PLACEHOLDER@,
                k,
            )),
    ensures
        patched(before + LOGO_PLACEHOLDER@ + after, logo) == before + base64(logo) + after,
{
    reveal_strlit("__WA_LITE_LOGO_B64__");
    lemma_replaced_once(before, LOGO_PLACEHOLDER@, after, base64(logo));
}

/// Wherever the placeholder stands first, the script before it stays, the logo takes
/// its place, and the rest is patched in turn; a script without a placeholder stays
/// as it is.
pub proof fn law_every_placeholder_gives_way(script: Seq<char>, logo: Seq<u8>, k: int)
    ensures
        ({
            let mark = "__WA_LITE_LOGO_B64__"@;
            &&& (forall|j: int| !(#[trigger] occurs_at(script, mark, j))) ==> patched(script, logo)
                == script
            &&& occurs_at(script, mark, k) && (forall|j: int|
                0 <= j < k ==> !(#[trigger] occurs_at(script, mark, j))) ==> patched(script, logo)
                == script.take(k) + base64(logo) + patched(script.skip(k + mark.len()), logo)
        }),
{
    reveal_strlit("__WA_LITE_LOGO_B64__");
    law_replacing_goes_from_one_to_the_next(script, "__WA_LITE_LOGO_B64__"@, base64(logo), k);
}

} // verus!
