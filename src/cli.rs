//! Values of the command line: the settings of a run and the checks on them.

use std::num::ParseIntError;

use vstd::prelude::*;

verus! {

#[verifier::external_type_specification]
#[verifier::external_body]
pub struct ExParseIntError(ParseIntError);

/// The value of a string of decimal digits, most significant first.
pub open spec fn digits_value(s: Seq<char>) -> int
    decreases s.len(),
{
    if s.len() == 0 {
        0
    } else {
        digits_value(s.drop_last()) * 10 + (s.last() as int - '0' as int)
    }
}

/// Every character is an ASCII decimal digit.
pub open spec fn all_digits(s: Seq<char>) -> bool {
    forall|i: int| 0 <= i < s.len() ==> '0' <= #[trigger] s[i] && s[i] <= '9'
}

/// The digits of a number written with an optional leading `+`.
pub open spec fn unsigned_digits(s: Seq<char>) -> Seq<char> {
    if s.len() > 0 && s[0] == '+' {
        s.drop_first()
    } else {
        s
    }
}

/// What `u32`'s `FromStr` reads from `s`: an optional `+` and then one or more
/// decimal digits whose value fits in a `u32`; `None` for any other text.
pub open spec fn decimal_u32(s: Seq<char>) -> Option<u32> {
    let d = unsigned_digits(s);
    if d.len() > 0 && all_digits(d) && digits_value(d) <= u32::MAX {
        Some(digits_value(d) as u32)
    } else {
        None
    }
}

/// Relies on `str::parse::<u32>` (`u32`'s `FromStr`): it accepts exactly an optional
/// `+` followed by one or more ASCII decimal digits whose value fits in a `u32`,
/// and returns that value.
#[verifier::external_body]
fn parse_u32(s: &str) -> (r: Result<u32, ParseIntError>)
    ensures
        match r {
            Ok(n) => decimal_u32(s@) == Some(n),
            Err(_) => decimal_u32(s@).is_none(),
        },
{
    s.parse::<u32>()
}

/// Checks a count given on the command line: a decimal number above zero.
///
/// Text that is no `u32` gives the parser's message; zero gives
/// `"count must be greater than 0"`.
pub fn valid_count(s: &str) -> (r: Result<u32, String>)
    ensures
        match decimal_u32(s@) {
            Some(n) => if n > 0 {
                r == Ok::<u32, String>(n)
            } else {
                r matches Err(m) && m@ == "count must be greater than 0"@
            },
            None => r.is_err(),
        },
{
    match parse_u32(s) {
        Ok(count) => {
            if count > 0 {
                Ok(count)
            } else {
                Err("count must be greater than 0".to_owned())
            }
        },
        Err(e) => Err(e.to_string()),
    }
}

/// The hard-coded scenes to choose from.
#[derive(Clone, Copy, Debug, PartialEq, Eq, Structural)]
pub enum SceneType {
    /// Test scene for materials development
    MaterialDev,
    /// Scene like the cover of "Ray Tracing in One Weekend"
    CoverPhoto,
    /// Two checkered spheres with the camera looking at their point of contact
    TwoSpheres,
    /// Two Perlin noise spheres
    TwoPerlinSpheres,
    /// A single sphere with an image of Earth mapped to it
    Earth,
    /// The two Perlin noise spheres with a rectangular diffuse light
    SimpleLight,
    /// The Cornell Box scene
    CornellBox,
    /// The Cornell Box scene from its measured data
    CornellBox2,
    /// The cover scene in the dark, with lights
    RandomLights,
    /// The final scene of "Ray Tracing: The Next Week"
    FinalScene,
}

/// The settings of a run.
#[derive(Clone, Debug)]
pub struct Arguments {
    /// The path of the file to write the resulting image into
    pub output: String,
    /// Samples per pixel: more rays sent for a pixel give higher fidelity
    pub samples_per_pixel: u32,
    /// Number of light contribution bounces
    pub bounce_depth: u16,
    /// The hard-coded scene to use
    pub scene: SceneType,
}

} // verus!
