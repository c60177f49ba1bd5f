//! Values that differ from one call to the next: the time and plan ids.
use vstd::prelude::*;

verus! {

/// A moment in UTC ends with its offset.
pub open spec fn utc_moment(s: Seq<char>) -> bool {
    s.len() >= 25 && s.subrange(s.len() - 6, s.len() as int) == "+00:00"@
}

pub open spec fn hex_digit(c: char) -> bool {
    '0' <= c <= '9' || 'a' <= c <= 'f'
}

/// A random UUID in its hyphenated form.
pub open spec fn random_uuid(s: Seq<char>) -> bool {
    &&& s.len() == 36
    &&& s[14] == '4'
    &&& s[19] == '8' || s[19] == '9' || s[19] == 'a' || s[19] == 'b'
    &&& forall|i: int|
        0 <= i < 36 ==> if i == 8 || i == 13 || i == 18 || i == 23 {
            #[trigger] s[i] == '-'
        } else {
            hex_digit(s[i])
        }
}

/// Calls `chrono::Utc::now` and `DateTime::to_rfc3339`. What comes back depends
/// on the clock, so all that is said of it is that it is at least a date and a
/// time long and ends with the offset of UTC. The call panics if the system's
/// clock stands before 1970.
#[verifier::external_body]
pub(crate) fn now() -> (s: String)
    ensures
        utc_moment(s@),
{
    chrono::Utc::now().to_rfc3339()
}

/// Calls `uuid::Uuid::new_v4` and writes the UUID down. What comes back is
/// random, so all that is said of it is its form: lower-case hexadecimal digits
/// in hyphenated groups, with the version and the variant of a random UUID. The
/// call panics if the system has no source of randomness.
#[verifier::external_body]
pub(crate) fn new_plan_id() -> (s: String)
    ensures
        random_uuid(s@),
{
    uuid::Uuid::new_v4().to_string()
}

} // verus!
