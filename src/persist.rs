use vstd::prelude::*;
use crate::error::{AccelError, joined};

verus! {

/// Name of the settings file in the application's configuration directory.
pub const SETTINGS_FILE_NAME: &'static str = "settings.json";

/// Settles a load: a missing file gives `defaults`, a file that could not
/// be read an I/O failure, and a file that was read what `parse` makes of
/// its text, a parse failure being reported, never replaced by defaults.
pub fn settle_load<T, F: Fn(&String) -> Result<T, String>>(
    contents: Option<Result<String, String>>,
    defaults: T,
    parse: F,
) -> (r: Result<T, AccelError>)
    requires
        forall|s: &String| call_requires(parse, (s,)),
    ensures
        contents is None ==> r == Ok::<T, AccelError>(defaults),
        contents matches Some(Err(e)) ==> r matches Err(AccelError::Io(m)) && m@
            == "Failed to read settings file: "@ + e@,
        contents matches Some(Ok(text)) ==> exists|p: Result<T, String>|
            call_ensures(parse, (&text,), p) && match p {
                Ok(v) => r == Ok::<T, AccelError>(v),
                Err(e) => r matches Err(AccelError::Serialization(m)) && m@
                    == "Failed to parse settings file: "@ + e@,
            },
{
    match contents {
        None => Ok(defaults),
        Some(Err(e)) => Err(AccelError::Io(joined("Failed to read settings file: ", e.as_str()))),
        Some(Ok(text)) => {
            let p = parse(&text);
            match p {
                Ok(v) => Ok(v),
                Err(e) => Err(
                    AccelError::Serialization(joined("Failed to parse settings file: ", e.as_str())),
                ),
            }
        },
    }
}

} // verus!
