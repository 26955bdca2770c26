//! What the resource loader can decode.
use vstd::prelude::*;
use vstd::string::StringExecFns;
use crate::wav::{ParseWavError, Wav};

verus! {

/// The directory that tracks are loaded from.
pub const AUDIO_LOCATION: &'static str = "assets/sounds/";

/// The path of the file that holds the resource `resource_name`: its name
/// appended to the location of its kind.
pub fn resource_path(resource_location: &str, resource_name: &String) -> (path: String)
    ensures
        path@ == resource_location@ + resource_name@,
{
    let mut path = String::from_str(resource_location);
    path.append(resource_name.as_str());
    path
}

/// A resource that is decoded from the bytes of its file. The loader reads
/// the file and hands the bytes over; what comes back goes to whoever asked
/// for the resource.
pub trait Loadable {
    type Output;

    type Error;

    /// Whether `loaded` is what the bytes decode to.
    spec fn decodes(bytes: Seq<u8>, loaded: Result<Self::Output, Self::Error>) -> bool;

    fn load(bytes: &[u8]) -> (loaded: Result<Self::Output, Self::Error>)
        ensures
            Self::decodes(bytes@, loaded),
    ;
}

impl Loadable for Wav {
    type Output = Wav;

    type Error = ParseWavError;

    open spec fn decodes(bytes: Seq<u8>, loaded: Result<Wav, ParseWavError>) -> bool {
        Wav::decoded_from(bytes, loaded)
    }

    fn load(bytes: &[u8]) -> (loaded: Result<Wav, ParseWavError>) {
        Wav::new(bytes)
    }
}

} // verus!
