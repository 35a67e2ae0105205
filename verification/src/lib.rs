//! Resolution of AWS credential profiles that are spread over several files:
//! the canonical credentials file and any number of drop-in files, some of
//! them encrypted. The files are ranked, merged into one lookup structure and
//! queried by profile name, by namespace prefix or by URI.

pub mod ini;
pub mod loader;
pub mod lookup;
pub mod ordered;
pub mod path;
pub mod secret;
pub mod text;
pub mod utils;

pub use loader::{AwsCredentials, AwsCredentialsFile, AwsProfile, Error, FileSource, SourceSet};
pub use lookup::AwsProfileLookup;
