//! The places under a user's home directory where credentials are kept.

use crate::path::{join, relative_to, spec_join, spec_relative_to, text_of};
use vstd::prelude::*;

verus! {

/// The AWS configuration directory under `home`: `<home>/.aws`.
pub open spec fn spec_config_dir(home: Seq<char>) -> Seq<char> {
    spec_join(home, ".aws"@)
}

/// The canonical credentials file under `home`: `<home>/.aws/credentials`.
pub open spec fn spec_root_file(home: Seq<char>) -> Seq<char> {
    spec_join(spec_config_dir(home), "credentials"@)
}

/// The directory of drop-in files under `home`: `<home>/.aws/credentials.d`.
pub open spec fn spec_drop_in_dir(home: Seq<char>) -> Seq<char> {
    spec_join(spec_config_dir(home), "credentials.d"@)
}

/// `p` with the leading `home` replaced by `~`, where `p` lies under `home`.
pub open spec fn spec_strip_homedir(p: Seq<char>, home: Seq<char>) -> Option<Seq<char>> {
    match spec_relative_to(p, home) {
        Some(rest) => Some(spec_join("~"@, rest)),
        None => None,
    }
}

/// The home directory of the current user.
///
/// Trusted: calls `dirs::home_dir`, which reads the environment and the user
/// database. Nothing is claimed of the result; a home directory whose name is
/// not valid UTF-8 is reported as absent.
#[verifier::external_body]
pub(crate) fn homedir() -> Option<String> {
    dirs::home_dir().and_then(|p| p.to_str().map(str::to_owned))
}

/// The AWS configuration directory under `home`.
pub fn config_dir(home: &str) -> (r: String)
    ensures
        r@ == spec_config_dir(home@),
{
    join(home, ".aws")
}

/// The canonical credentials file under `home`.
pub fn root_file(home: &str) -> (r: String)
    ensures
        r@ == spec_root_file(home@),
{
    let dir = config_dir(home);
    join(dir.as_str(), "credentials")
}

/// The directory of drop-in files under `home`.
pub fn drop_in_dir(home: &str) -> (r: String)
    ensures
        r@ == spec_drop_in_dir(home@),
{
    let dir = config_dir(home);
    join(dir.as_str(), "credentials.d")
}

/// Strips the home directory from `p` and puts `~` in its place. `None`
/// where `p` does not lie under `home`.
pub fn strip_homedir(p: &str, home: &str) -> (r: Option<String>)
    ensures
        text_of(r) == spec_strip_homedir(p@, home@),
{
    match relative_to(p, home) {
        Some(rest) => Some(join("~", rest.as_str())),
        None => None,
    }
}

} // verus!
