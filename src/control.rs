//! The typed layer over the player protocol: which commands play an entry, and
//! how a property answer becomes a value or a domain error.
use vstd::prelude::*;
use crate::cache::Request;
use crate::text::str_eq;
use crate::mpv::{Command, Response};

verus! {

/// Why a property could not be read.
#[derive(Debug, Clone, PartialEq)]
pub enum Error {
    /// The player answered with this error text.
    InvalidResponse(String),
    /// Nothing is loaded, so the property is unavailable.
    NotPlaying,
    /// The player reported success without a text value.
    MissingData,
}

/// The error text with which the player says that a property has no value.
pub open spec fn unavailable() -> Seq<char> {
    "property unavailable"@
}

/// The value of a successful answer, or why there is none.
pub fn check_response(resp: &Response) -> (r: Result<String, Error>)
    ensures
        resp.error@ == "success"@ && resp.data is Some ==> r == Ok::<String, Error>(resp.data.unwrap()),
        resp.error@ == "success"@ && resp.data is None ==> r == Err::<String, Error>(Error::MissingData),
        resp.error@ != "success"@ ==> (r matches Err(Error::InvalidResponse(e)) && e@ == resp.error@),
{
    if resp.success() {
        match &resp.data {
            Some(d) => Ok(d.clone()),
            None => Err(Error::MissingData),
        }
    } else {
        Err(Error::InvalidResponse(resp.error.clone()))
    }
}

/// The text value of a property answer; an unavailable property means that
/// nothing is playing.
pub fn text_property(resp: &Response) -> (r: Result<String, Error>)
    ensures
        resp.error@ == "success"@ && resp.data is Some ==> r == Ok::<String, Error>(resp.data.unwrap()),
        resp.error@ == "success"@ && resp.data is None ==> r == Err::<String, Error>(Error::MissingData),
        resp.error@ == unavailable() ==> r == Err::<String, Error>(Error::NotPlaying),
        resp.error@ != "success"@ && resp.error@ != unavailable() ==> (r matches Err(Error::InvalidResponse(e)) && e@ == resp.error@),
{
    proof {
        reveal_strlit("success");
        reveal_strlit("property unavailable");
        assert(unavailable()[0] != "success"@[0]);
    }
    match check_response(resp) {
        Err(Error::InvalidResponse(s)) => {
            if str_eq(s.as_str(), "property unavailable") {
                Err(Error::NotPlaying)
            } else {
                Err(Error::InvalidResponse(s))
            }
        },
        other => other,
    }
}

/// Whether a title answer shows that something is playing: any error means no.
pub fn is_playing(title: &Result<String, Error>) -> (r: bool)
    ensures
        r == title is Ok,
{
    title.is_ok()
}

/// The commands that play an entry, in order: stop, then load its file.
pub fn play_commands(req: &Request) -> (r: Vec<Command>)
    ensures
        r@.len() == 2,
        r@[0] == Command::Stop,
        r@[1] matches Command::LoadFile(f) && f@ == req.info.filename@,
{
    let mut v: Vec<Command> = Vec::new();
    v.push(Command::Stop);
    v.push(Command::LoadFile(req.info.filename.clone()));
    v
}

} // verus!
