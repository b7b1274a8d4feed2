//! The identity a machine gives itself: its host name and eight random
//! hexadecimal digits.

use vstd::prelude::*;
use vstd::string::*;

verus! {

/// Relies on `uuid::Uuid::new_v4` and the `Display` of `uuid::Uuid`: a random
/// UUID written in the hyphenated form, which is 36 characters long.
#[verifier::external_body]
fn random_uuid_text() -> (r: String)
    ensures
        r@.len() == 36,
{
    uuid::Uuid::new_v4().to_string()
}

/// The identity made of `host` and the first eight characters of `uuid`
/// (all of it when it is shorter).
pub open spec fn machine_id_of(host: Seq<char>, uuid: Seq<char>) -> Seq<char> {
    host + "-"@ + uuid.take(if uuid.len() < 8 { uuid.len() as int } else { 8 })
}

/// Joins a host name and the start of a UUID's text into a machine identity.
pub fn machine_id_from(host: &str, uuid: &str) -> (r: String)
    ensures
        r@ == machine_id_of(host@, uuid@),
{
    let n = uuid.unicode_len();
    let k = if n < 8 { n } else { 8 };
    let head = uuid.substring_char(0, k);
    let r = String::from_str(host).concat("-").concat(head);
    proof {
        assert(uuid@.subrange(0, k as int) =~= uuid@.take(k as int));
    }
    r
}

/// A fresh identity for a machine called `host`: `host`, a hyphen and eight
/// random hexadecimal digits.
pub fn new_machine_id(host: &str) -> (r: String)
    ensures
        r@.len() == host@.len() + 9,
        r@.take(host@.len() + 1int) == host@ + "-"@,
{
    let u = random_uuid_text();
    let r = machine_id_from(host, u.as_str());
    proof {
        reveal_strlit("-");
        assert(r@.take(host@.len() + 1int) =~= host@ + "-"@);
    }
    r
}

} // verus!
