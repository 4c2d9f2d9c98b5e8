//! The model parser boundary: the flattened description is handed to
//! urdf-rs, and its error becomes the loader's own.
use vstd::prelude::*;

verus! {

#[verifier::external_type_specification]
#[verifier::external_body]
pub struct ExRobot(urdf_rs::Robot);

#[verifier::external_type_specification]
#[verifier::external_body]
pub struct ExUrdfError(urdf_rs::UrdfError);

/// Whether urdf-rs accepts `text` as a robot description.
pub uninterp spec fn urdf_accepts(text: Seq<char>) -> bool;

/// Relies on `urdf_rs::read_from_string`: a pure function of the text, `Ok`
/// with the parsed robot or `Err` with its diagnostic.
#[verifier::external_body]
fn read_urdf(text: &Vec<char>) -> (r: Result<urdf_rs::Robot, urdf_rs::UrdfError>)
    ensures
        r is Ok <==> urdf_accepts(text@),
{
    let s: String = text.iter().collect();
    urdf_rs::read_from_string(&s)
}

/// Why a flattened description yields no model.
#[derive(Clone, Copy, PartialEq, Eq, Debug, Structural)]
pub enum ParseError {
    /// The parser rejected the text.
    Rejected,
}

/// Parses a flattened description.
pub fn parse_description(text: &Vec<char>) -> (r: Result<urdf_rs::Robot, ParseError>)
    ensures
        r is Ok <==> urdf_accepts(text@),
        r is Err ==> r == Err::<urdf_rs::Robot, ParseError>(ParseError::Rejected),
{
    match read_urdf(text) {
        Ok(robot) => Ok(robot),
        Err(_) => Err(ParseError::Rejected),
    }
}

} // verus!
