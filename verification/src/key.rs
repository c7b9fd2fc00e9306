//! Key normalisation: from a raw key name to the role it plays in a
//! connection declaration.

use crate::text::{chars_of, fold, folded_eq, trim, trim_slice};
use vstd::prelude::*;

verus! {

/// What a key of a declaration stands for.
#[derive(Clone, Copy, Debug, PartialEq, Eq, Structural)]
pub enum KeyRole {
    DataSource,
    UserId,
    Provider,
    Unrecognized,
}

/// The role of a key that is already trimmed and folded to lower case. Only
/// exact names count: a name that merely contains one of them is
/// unrecognised.
pub open spec fn role_of_name(name: Seq<char>) -> KeyRole {
    if name == "data source"@ {
        KeyRole::DataSource
    } else if name == "user id"@ {
        KeyRole::UserId
    } else if name == "provider"@ || name == "providername"@ {
        KeyRole::Provider
    } else {
        KeyRole::Unrecognized
    }
}

/// The role of a raw key: surrounding white space and the case of ASCII
/// letters do not matter.
pub open spec fn key_role(raw: Seq<char>) -> KeyRole {
    role_of_name(fold(trim(raw)))
}

/// Whether a raw attribute name is the one that carries the connection
/// string of a tag.
pub open spec fn is_connection_string_key(raw: Seq<char>) -> bool {
    fold(trim(raw)) == "connectionstring"@
}

/// The name under which a role is reported.
pub open spec fn role_name(role: KeyRole) -> Seq<char> {
    match role {
        KeyRole::DataSource => "data source"@,
        KeyRole::UserId => "user id"@,
        KeyRole::Provider => "provider"@,
        KeyRole::Unrecognized => "unrecognized"@,
    }
}

/// Executable form of [`key_role`] on characters.
pub fn role_of_chars(raw: &[char]) -> (role: KeyRole)
    ensures
        role == key_role(raw@),
{
    let name = trim_slice(raw);
    if folded_eq(name, chars_of("data source").as_slice()) {
        KeyRole::DataSource
    } else if folded_eq(name, chars_of("user id").as_slice()) {
        KeyRole::UserId
    } else if folded_eq(name, chars_of("provider").as_slice()) || folded_eq(
        name,
        chars_of("providername").as_slice(),
    ) {
        KeyRole::Provider
    } else {
        KeyRole::Unrecognized
    }
}

/// The role that a raw key name plays.
pub fn normalize_key(raw: &str) -> (role: KeyRole)
    ensures
        role == key_role(raw@),
{
    role_of_chars(chars_of(raw).as_slice())
}

/// Executable form of [`is_connection_string_key`] on characters.
pub fn names_connection_string(raw: &[char]) -> (b: bool)
    ensures
        b == is_connection_string_key(raw@),
{
    folded_eq(trim_slice(raw), chars_of("connectionstring").as_slice())
}

/// Executable form of [`role_name`].
pub fn name_of_role(role: KeyRole) -> (name: &'static str)
    ensures
        name@ == role_name(role),
{
    match role {
        KeyRole::DataSource => "data source",
        KeyRole::UserId => "user id",
        KeyRole::Provider => "provider",
        KeyRole::Unrecognized => "unrecognized",
    }
}

} // verus!
