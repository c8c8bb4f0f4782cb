//! Whether the system asks for quiet, as its registry says it.

use crate::text::stands_at;
use vstd::prelude::*;
use vstd::utf8::encode_utf8;

verus! {

/// How many bytes are read of the quiet hours settings.
pub const SETTINGS_CAPACITY: usize = 512;

/// ASCII bytes as UTF-16, little end first.
pub open spec fn widened(ascii: Seq<u8>) -> Seq<u8> {
    Seq::new(2 * ascii.len(), |i: int| if i % 2 == 0 { ascii[i / 2] } else { 0u8 })
}

/// Whether the bytes of `part` stand somewhere in `data`, one behind the other.
pub open spec fn holds_bytes(data: Seq<u8>, part: Seq<u8>) -> bool {
    exists|k: int|
        0 <= k && k + part.len() <= data.len() && #[trigger] data.subrange(k, k + part.len())
            == part
}

/// Whether the settings name a profile of quiet hours.
pub open spec fn names_profile(data: Seq<u8>, profile: Seq<char>) -> bool {
    holds_bytes(data, widened(encode_utf8(profile)))
}

fn widen(ascii: &[u8]) -> (r: Vec<u8>)
    ensures
        r@ == widened(ascii@),
{
    let mut out: Vec<u8> = Vec::new();
    for i in 0..ascii.len()
        invariant
            out@ == widened(ascii@.take(i as int)),
    {
        out.push(ascii[i]);
        out.push(0);
        assert(out@ =~= widened(ascii@.take(i + 1)));
    }
    assert(ascii@.take(ascii@.len() as int) =~= ascii@);
    out
}

fn same_byte(a: u8, b: u8) -> (r: bool)
    ensures
        r == (a == b),
{
    a == b
}

/// Whether an ASCII text stands somewhere in bytes of UTF-16. An empty text is
/// not asked for.
pub fn utf16le_contains_ascii(data: &[u8], needle: &str) -> (r: bool)
    requires
        needle@.len() > 0,
    ensures
        r == names_profile(data@, needle@),
{
    let pattern = widen(needle.as_bytes());
    if pattern.len() > data.len() {
        return false;
    }
    let last: usize = data.len() - pattern.len();
    let mut k: usize = 0;
    while k <= last
        invariant
            pattern@ == widened(encode_utf8(needle@)),
            pattern@.len() <= data@.len(),
            last == data@.len() - pattern@.len(),
            k <= last + 1,
            forall|j: int|
                0 <= j < k ==> #[trigger] data@.subrange(j, j + pattern@.len()) != pattern@,
        decreases last + 1 - k,
    {
        if stands_at(data, k, pattern.as_slice(), same_byte) {
            return true;
        }
        if k == last {
            assert forall|j: int| 0 <= j && j + pattern@.len() <= data@.len() implies
                #[trigger] data@.subrange(j, j + pattern@.len()) != pattern@ by {}
            return false;
        }
        k = k + 1;
    }
    false
}

/// What the settings say: quiet for the two restricted profiles, no quiet for the
/// unrestricted one, and nothing where they name none.
pub open spec fn settings_ask_for_quiet(data: Seq<u8>) -> Option<bool> {
    if names_profile(data, "Microsoft.QuietHoursProfile.PriorityOnly"@) || names_profile(
        data,
        "Microsoft.QuietHoursProfile.AlarmsOnly"@,
    ) {
        Some(true)
    } else if names_profile(data, "Microsoft.QuietHoursProfile.Unrestricted"@) {
        Some(false)
    } else {
        None
    }
}

pub fn cloudstore_quiet_hours_blocks_notifications(data: &[u8]) -> (r: Option<bool>)
    ensures
        r == settings_ask_for_quiet(data@),
{
    proof {
        reveal_strlit("Microsoft.QuietHoursProfile.PriorityOnly");
        reveal_strlit("Microsoft.QuietHoursProfile.AlarmsOnly");
        reveal_strlit("Microsoft.QuietHoursProfile.Unrestricted");
    }
    if utf16le_contains_ascii(data, "Microsoft.QuietHoursProfile.PriorityOnly")
        || utf16le_contains_ascii(data, "Microsoft.QuietHoursProfile.AlarmsOnly") {
        Some(true)
    } else if utf16le_contains_ascii(data, "Microsoft.QuietHoursProfile.Unrestricted") {
        Some(false)
    } else {
        None
    }
}

pub fn quiet_hours_state_blocks_notifications(state: Option<u32>) -> (r: bool)
    ensures
        r == (state is Some && state->0 != 0),
{
    match state {
        Some(state) => state != 0,
        None => false,
    }
}

/// The bytes that a query of the registry left in a buffer, where it succeeded.
pub fn registry_bytes(status: u32, buffer: Vec<u8>, size: u32) -> (r: Option<Vec<u8>>)
    ensures
        r is Some == (status == 0),
        r matches Some(data) ==> data@ == if size < buffer@.len() {
            buffer@.take(size as int)
        } else {
            buffer@
        },
{
    if status != 0 {
        return None;
    }
    let mut data = buffer;
    let size: usize = size as usize;
    data.truncate(size);
    Some(data)
}

/// The number that a query of the registry found, where it succeeded.
pub fn registry_number(status: u32, value: u32) -> (r: Option<u32>)
    ensures
        r == if status == 0 {
            Some(value)
        } else {
            None
        },
{
    if status == 0 {
        Some(value)
    } else {
        None
    }
}

/// Whether the system asks for quiet: the settings decide where they name a
/// profile, and the state of the service decides where they do not.
pub open spec fn quiet_is_asked_for(settings: Option<Seq<u8>>, state: Option<u32>) -> bool {
    match settings {
        Some(data) => match settings_ask_for_quiet(data) {
            Some(quiet) => quiet,
            None => state is Some && state->0 != 0,
        },
        None => state is Some && state->0 != 0,
    }
}

/// The bytes of settings that may be absent.
pub open spec fn settings_view(settings: Option<Vec<u8>>) -> Option<Seq<u8>> {
    match settings {
        Some(data) => Some(data@),
        None => None,
    }
}

pub fn windows_do_not_disturb_enabled(settings: &Option<Vec<u8>>, state: Option<u32>) -> (r: bool)
    ensures
        r == quiet_is_asked_for(settings_view(*settings), state),
{
    match settings {
        Some(data) => match cloudstore_quiet_hours_blocks_notifications(data.as_slice()) {
            Some(blocked) => blocked,
            None => quiet_hours_state_blocks_notifications(state),
        },
        None => quiet_hours_state_blocks_notifications(state),
    }
}

/// A profile that the settings name is found wherever it stands in them.
pub proof fn law_named_profile_is_found(before: Seq<u8>, profile: Seq<char>, after: Seq<u8>)
    ensures
        names_profile(before + widened(encode_utf8(profile)) + after, profile),
{
    let part = widened(encode_utf8(profile));
    let data = before + part + after;
    let k = before.len() as int;
    assert(data.subrange(k, k + part.len()) =~= part);
}

/// Settings that name a restricted profile ask for quiet, whatever else they name
/// and whatever the service says.
pub proof fn law_restricted_profile_means_quiet(data: Seq<u8>, state: Option<u32>)
    requires
        names_profile(data, "Microsoft.QuietHoursProfile.PriorityOnly"@) || names_profile(
            data,
            "Microsoft.QuietHoursProfile.AlarmsOnly"@,
        ),
    ensures
        quiet_is_asked_for(Some(data), state),
{
}

/// Each byte of an ASCII text is followed by a zero in its wide form, and nothing
/// else is added.
pub proof fn law_wide_form_puts_a_zero_behind_each_byte(ascii: Seq<u8>, i: int)
    requires
        0 <= i < ascii.len(),
    ensures
        widened(ascii).len() == 2 * ascii.len(),
        widened(ascii)[2 * i] == ascii[i],
        widened(ascii)[2 * i + 1] == 0,
{
}

/// Settings name a profile where its wide form stands somewhere in them, with any
/// bytes before and behind it, and nowhere else.
pub proof fn law_settings_name_what_stands_in_them(data: Seq<u8>, profile: Seq<char>)
    ensures
        names_profile(data, profile) <==> exists|before: Seq<u8>, after: Seq<u8>|
            data == #[trigger] (before + widened(encode_utf8(profile)) + after),
{
    let part = widened(encode_utf8(profile));
    if names_profile(data, profile) {
        let k = choose|k: int|
            0 <= k && k + part.len() <= data.len() && #[trigger] data.subrange(k, k + part.len())
                == part;
        let before = data.take(k);
        let after = data.skip(k + part.len());
        assert(data =~= before + data.subrange(k, k + part.len()) + after);
        assert(data == before + part + after);
    }
    if exists|before: Seq<u8>, after: Seq<u8>| data == #[trigger] (before + part + after) {
        let (before, after) = choose|before: Seq<u8>, after: Seq<u8>|
            data == #[trigger] (before + part + after);
        law_named_profile_is_found(before, profile, after);
    }
}

/// The settings ask for quiet with either of the two restricted profiles, ask for none
/// with the unrestricted one alone, and leave it open with none of the three.
pub proof fn law_settings_decide_by_profile(data: Seq<u8>)
    ensures
        ({
            let priority = names_profile(data, "Microsoft.QuietHoursProfile.PriorityOnly"@);
            let alarms = names_profile(data, "Microsoft.QuietHoursProfile.AlarmsOnly"@);
            let free = names_profile(data, "Microsoft.QuietHoursProfile.Unrestricted"@);
            &&& priority ==> settings_ask_for_quiet(data) == Some(true)
            &&& alarms ==> settings_ask_for_quiet(data) == Some(true)
            &&& free && !priority && !alarms ==> settings_ask_for_quiet(data) == Some(false)
            &&& !free && !priority && !alarms ==> settings_ask_for_quiet(data) is None
        }),
{
}

/// The service decides, by any state but zero, where there are no settings or they
/// name no profile; where they name one, the service does not matter.
pub proof fn law_service_decides_where_settings_do_not(
    data: Seq<u8>,
    state: Option<u32>,
    other: Option<u32>,
)
    ensures
        quiet_is_asked_for(None, state) <==> state is Some && state->0 > 0,
        settings_ask_for_quiet(data) is None ==> (quiet_is_asked_for(Some(data), state)
            <==> state is Some && state->0 > 0),
        settings_ask_for_quiet(data) is Some ==> quiet_is_asked_for(Some(data), state)
            == settings_ask_for_quiet(data)->0,
        settings_ask_for_quiet(data) is Some ==> quiet_is_asked_for(Some(data), state)
            == quiet_is_asked_for(Some(data), other),
{
}

/// All of the settings are looked at.
pub proof fn law_settings_tell_everything(settings: Option<Vec<u8>>)
    ensures
        settings_view(settings) is Some <==> settings is Some,
        settings is Some ==> settings_view(settings)->0 == settings->0@,
        SETTINGS_CAPACITY == 512,
{
}

} // verus!
