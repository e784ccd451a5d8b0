//! Validated time-zone names.
//!
//! A [`Zone`] holds a name that is known to resolve in the standard zone-name
//! catalog; validity of a name is decided by one trusted lookup into the
//! catalog, and everything else about zones (equality, collecting them from
//! input, error reporting) is verified over the name as a sequence of
//! characters.
use vstd::prelude::*;
use vstd::string::StringExecFns;

verus! {

/// Whether `name` resolves in the standard time-zone catalog.
pub uninterp spec fn is_valid_zone(name: Seq<char>) -> bool;

/// Relies on chrono_tz's `impl FromStr for Tz`: an exact lookup of the given
/// name in the crate's static table of zone names, returning `Ok` exactly when
/// the name is in the table. Membership depends on the name alone.
#[verifier::external_body]
fn is_zone_name(s: &str) -> (r: bool)
    ensures
        r == is_valid_zone(s@),
{
    s.parse::<chrono_tz::Tz>().is_ok()
}

/// A time-zone name that resolves in the standard catalog.
#[derive(Debug)]
pub struct Zone {
    name: String,
}

impl View for Zone {
    type V = Seq<char>;

    closed spec fn view(&self) -> Seq<char> {
        self.name@
    }
}

/// The reasons a run can fail before any table is built: no zone names were
/// supplied at all, or one of the supplied names is not a known zone.
#[derive(Debug)]
pub enum InputError {
    NoZones,
    InvalidZone(String),
}

impl InputError {
    /// The human-readable message for this error; an unknown zone name is
    /// quoted verbatim.
    pub open spec fn message_view(&self) -> Seq<char> {
        match self {
            InputError::NoZones => "no time zones given"@,
            InputError::InvalidZone(name) => "Invalid time zone: \""@ + name@ + "\""@,
        }
    }

    pub fn message(&self) -> (r: String)
        ensures
            r@ == self.message_view(),
    {
        match self {
            InputError::NoZones => "no time zones given".to_owned(),
            InputError::InvalidZone(name) => {
                let mut s: String = "Invalid time zone: \"".to_owned();
                s.append(name.as_str());
                s.append("\"");
                s
            },
        }
    }
}

impl Zone {
    /// A zone is well formed when its name resolves in the catalog.
    pub open spec fn wf(&self) -> bool {
        is_valid_zone(self@)
    }

    /// Validate one name; on failure the error carries the name verbatim.
    pub fn parse(name: String) -> (r: Result<Zone, InputError>)
        ensures
            r is Ok <==> is_valid_zone(name@),
            r matches Ok(z) ==> z@ == name@ && z.wf(),
            r matches Err(e) ==> e matches InputError::InvalidZone(s) && s@ == name@,
    {
        if is_zone_name(name.as_str()) {
            Ok(Zone { name })
        } else {
            Err(InputError::InvalidZone(name))
        }
    }

    pub fn name(&self) -> (r: &str)
        ensures
            r@ == self@,
    {
        self.name.as_str()
    }

    pub fn duplicate(&self) -> (z: Zone)
        ensures
            z@ == self@,
    {
        Zone { name: self.name.clone() }
    }

    /// Zones are compared by name.
    pub fn same_zone(&self, other: &Zone) -> (r: bool)
        ensures
            r == (self@ == other@),
    {
        self.name == other.name
    }
}

/// All of the given names resolve in the catalog.
pub open spec fn all_valid_strings(names: Seq<String>) -> bool {
    forall|i: int| 0 <= i < names.len() ==> is_valid_zone((#[trigger] names[i])@)
}

/// Validate a whole list of names. Any unknown name fails the whole list; the
/// error carries the first unknown name.
pub fn zones_parse(strings: Vec<String>) -> (r: Result<Vec<Zone>, InputError>)
    ensures
        r is Ok <==> all_valid_strings(strings@),
        r matches Ok(zs) ==> {
            &&& zs@.len() == strings@.len()
            &&& forall|i: int|
                0 <= i < zs@.len() ==> (#[trigger] zs@[i])@ == strings@[i]@ && zs@[i].wf()
        },
        r matches Err(e) ==> exists|k: int|
            {
                &&& 0 <= k < strings@.len()
                &&& !is_valid_zone((#[trigger] strings@[k])@)
                &&& forall|i: int| 0 <= i < k ==> is_valid_zone((#[trigger] strings@[i])@)
                &&& e matches InputError::InvalidZone(s) && s@ == strings@[k]@
            },
{
    let mut zones: Vec<Zone> = Vec::new();
    let mut i: usize = 0;
    while i < strings.len()
        invariant
            0 <= i <= strings@.len(),
            zones@.len() == i,
            forall|j: int| 0 <= j < i ==> is_valid_zone((#[trigger] strings@[j])@),
            forall|j: int|
                0 <= j < i ==> (#[trigger] zones@[j])@ == strings@[j]@ && zones@[j].wf(),
        decreases strings@.len() - i,
    {
        let s = strings[i].clone();
        match Zone::parse(s) {
            Ok(z) => {
                zones.push(z);
            },
            Err(e) => {
                return Err(e);
            },
        }
        i = i + 1;
    }
    Ok(zones)
}

/// The machine's own zone, from the environment override: `None` when the
/// override is absent or does not name a known zone.
pub fn tz_local(tz_env: Option<String>) -> (r: Option<Zone>)
    ensures
        match tz_env {
            Option::None => r is None,
            Option::Some(s) => {
                &&& r is Some <==> is_valid_zone(s@)
                &&& r matches Some(z) ==> z@ == s@ && z.wf()
            },
        },
{
    match tz_env {
        None => None,
        Some(s) => match Zone::parse(s) {
            Ok(z) => Some(z),
            Err(_) => None,
        },
    }
}

} // verus!
