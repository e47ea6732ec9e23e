use vstd::prelude::*;
use vstd::string::StringSliceAdditionalSpecFns;
use crate::bytes::bytes_eq;

verus! {

/// The kind of host a node runs on.
#[derive(Debug, Clone, Copy, PartialEq, Eq, Structural, Hash)]
pub enum RuntimeMode {
    Desktop,
    Mobile,
    Unknown,
}

/// The mode of an operating system named as Rust's target names do.
pub open spec fn mode_of_os(os: Seq<u8>) -> RuntimeMode {
    if os == "android".spec_bytes() || os == "ios".spec_bytes() {
        RuntimeMode::Mobile
    } else if os == "linux".spec_bytes() || os == "windows".spec_bytes() || os
        == "macos".spec_bytes() {
        RuntimeMode::Desktop
    } else {
        RuntimeMode::Unknown
    }
}

impl RuntimeMode {
    /// Classifies an operating system name: android and ios are mobile;
    /// linux, windows and macos are desktop; anything else is unknown.
    pub fn from_os(os: &str) -> (r: RuntimeMode)
        ensures
            r == mode_of_os(os.spec_bytes()),
    {
        let b = os.as_bytes();
        if bytes_eq(b, "android".as_bytes()) || bytes_eq(b, "ios".as_bytes()) {
            RuntimeMode::Mobile
        } else if bytes_eq(b, "linux".as_bytes()) || bytes_eq(b, "windows".as_bytes()) || bytes_eq(
            b,
            "macos".as_bytes(),
        ) {
            RuntimeMode::Desktop
        } else {
            RuntimeMode::Unknown
        }
    }

    /// The mode of the host this library is built for: the desktop systems
    /// (linux, windows, macos). A front end for another system names its
    /// operating system to `from_os`.
    pub fn detect() -> (r: RuntimeMode)
        ensures
            r == RuntimeMode::Desktop,
    {
        RuntimeMode::Desktop
    }

    /// Whether this is a mobile host.
    pub fn is_mobile(self) -> (r: bool)
        ensures
            r == (self == RuntimeMode::Mobile),
    {
        match self {
            RuntimeMode::Mobile => true,
            _ => false,
        }
    }

    /// Whether this is a desktop host.
    pub fn is_desktop(self) -> (r: bool)
        ensures
            r == (self == RuntimeMode::Desktop),
    {
        match self {
            RuntimeMode::Desktop => true,
            _ => false,
        }
    }
}

} // verus!
