//! The program's configuration: where the user's music library lives.
//! Reading and writing the configuration file is the surrounding program's
//! work; the type itself only carries the values.

use vstd::prelude::*;

verus! {

/// The configuration format's version.
#[derive(Clone, Copy, Debug, PartialEq, Eq)]
pub enum ConfigVersion {
    Version1,
}

impl ConfigVersion {
    /// The number the version is written as on disk.
    pub fn number(&self) -> (r: u8)
        ensures
            self is Version1 ==> r == 1,
    {
        match self {
            ConfigVersion::Version1 => 1,
        }
    }
}

/// The configuration: a format version and the library's path.
pub struct Config {
    /// The format the configuration is stored in.
    pub version: ConfigVersion,
    /// Where the user's music library lives.
    pub libraryPath: String,
}

impl Config {
    /// A configuration pointing at `libraryPath`, in the current format.
    pub fn new(libraryPath: String) -> (r: Config)
        ensures
            r.version is Version1,
            r.libraryPath@ == libraryPath@,
    {
        Config { version: ConfigVersion::Version1, libraryPath }
    }
}

} // verus!
