//! Options and plain records of the weather lookup.
use vstd::prelude::*;

verus! {

/// What `str::to_lowercase` yields for `s`.
pub uninterp spec fn lower_of(s: Seq<char>) -> Seq<char>;

/// Relies on `str::to_lowercase`: the result depends on the characters alone.
#[verifier::external_body]
fn lowercase(s: &str) -> (r: String)
    ensures
        r@ == lower_of(s@),
{
    s.to_lowercase()
}

/// Why the weather lookup refused its options.
#[derive(Debug)]
pub enum UnitsError {
    /// The units are none of `metric`, `imperial` and `kelvin`.
    InvalidUnits(String),
}

/// Options of a weather lookup.
pub struct Cli {
    /// The cities to look up.
    pub city: Vec<String>,
    /// Temperature units: `metric`, `imperial` or `kelvin`, in any case.
    pub units: String,
    /// Whether to show every detail.
    pub detailed: bool,
}

impl Cli {
    /// Whether the units are `metric`, in any case.
    pub fn is_metric(&self) -> (r: bool)
        ensures
            r == (lower_of(self.units@) == "metric"@),
    {
        lowercase(self.units.as_str()) == String::from_str("metric")
    }

    /// Whether the units are `imperial`, in any case.
    pub fn is_imperial(&self) -> (r: bool)
        ensures
            r == (lower_of(self.units@) == "imperial"@),
    {
        lowercase(self.units.as_str()) == String::from_str("imperial")
    }

    /// Whether the units are `kelvin`, in any case.
    pub fn is_kelvin(&self) -> (r: bool)
        ensures
            r == (lower_of(self.units@) == "kelvin"@),
    {
        lowercase(self.units.as_str()) == String::from_str("kelvin")
    }
}

/// Whether the units name one of the three known systems.
pub open spec fn known_units(units: Seq<char>) -> bool {
    let l = lower_of(units);
    l == "metric"@ || l == "imperial"@ || l == "kelvin"@
}

/// Accepts `metric`, `imperial` and `kelvin`, in any case.
pub fn validate_units(units: &str) -> (r: Result<(), UnitsError>)
    ensures
        r is Ok <==> known_units(units@),
        r matches Err(UnitsError::InvalidUnits(u)) ==> u@ == units@,
{
    let l = lowercase(units);
    if l == String::from_str("metric") || l == String::from_str("imperial") || l
        == String::from_str("kelvin") {
        Ok(())
    } else {
        Err(UnitsError::InvalidUnits(String::from_str(units)))
    }
}

/// One weather condition of a report.
pub struct WeatherCondition {
    pub main: String,
    pub description: String,
}

/// Cloud cover of a report, in percent.
pub struct Clouds {
    pub all: u8,
}

/// Country and sun times of a report.
pub struct Sys {
    pub country: Option<String>,
    pub sunrise: Option<u64>,
    pub sunset: Option<u64>,
}

} // verus!
