//! Errors of sort expressions (`field:asc`, `field:desc`, geo points), how
//! they convert into one another, and their messages.
use vstd::prelude::*;

verus! {

/// An error met while reading a sort expression; it is always converted
/// into a `SortError` or a `CriterionError` before it is shown.
#[derive(Debug)]
pub enum AscDescError {
    InvalidLatitude,
    InvalidLongitude,
    InvalidSyntax { name: String },
    ReservedKeyword { name: String },
}

#[derive(Debug)]
pub enum SortError {
    InvalidLatitude,
    InvalidLongitude,
    BadGeoPointUsage { name: String },
    InvalidName { name: String },
    ReservedName { name: String },
    ReservedNameForSettings { name: String },
    ReservedNameForFilter { name: String },
}

#[derive(Debug)]
pub enum CriterionError {
    InvalidName { name: String },
    ReservedName { name: String },
    ReservedNameForSort { name: String },
    ReservedNameForFilter { name: String },
}

/// Whether `s` begins with `prefix`.
fn has_prefix(s: &str, prefix: &str) -> (r: bool)
    ensures
        r == prefix@.is_prefix_of(s@),
{
    let n = prefix.unicode_len();
    if s.unicode_len() < n {
        return false;
    }
    let mut i: usize = 0;
    while i < n
        invariant
            n == prefix@.len() <= s@.len(),
            i <= n,
            forall|k: int| 0 <= k < i ==> prefix@[k] == s@[k],
        decreases n - i,
    {
        if prefix.get_char(i) != s.get_char(i) {
            return false;
        }
        i += 1;
    }
    true
}

/// Whether `s` and `t` hold the same characters.
fn same_text(s: &str, t: &str) -> (r: bool)
    ensures
        r == (s@ == t@),
{
    let r = s.unicode_len() == t.unicode_len() && has_prefix(s, t);
    proof {
        if r {
            assert(s@ =~= t@);
        }
    }
    r
}

/// What a reserved keyword becomes as a sort error.
pub open spec fn reserved_sort_error(name: Seq<char>, r: SortError) -> bool {
    if "_geoPoint"@.is_prefix_of(name) {
        r matches SortError::BadGeoPointUsage { name: n } && n@ == name
    } else if name == "_geo"@ {
        r matches SortError::ReservedNameForSettings { name: n } && n@ == name
    } else if "_geoRadius"@.is_prefix_of(name) {
        r matches SortError::ReservedNameForFilter { name: n } && n@ == "_geoRadius"@
    } else {
        r matches SortError::ReservedName { name: n } && n@ == name
    }
}

/// `r` is the sort error that `e` converts into.
pub open spec fn sort_error_of(e: AscDescError, r: SortError) -> bool {
    match e {
        AscDescError::InvalidLatitude => r is InvalidLatitude,
        AscDescError::InvalidLongitude => r is InvalidLongitude,
        AscDescError::InvalidSyntax { name } => r matches SortError::InvalidName { name: n } && n@
            == name@,
        AscDescError::ReservedKeyword { name } => reserved_sort_error(name@, r),
    }
}

/// `r` is the criterion error that `e` converts into.
pub open spec fn criterion_error_of(e: AscDescError, r: CriterionError) -> bool {
    match e {
        AscDescError::InvalidLatitude | AscDescError::InvalidLongitude => r matches CriterionError::ReservedNameForSort { name: n } && n@ == "_geoPoint"@,
        AscDescError::InvalidSyntax { name } => r matches CriterionError::InvalidName { name: n } && n@ == name@,
        AscDescError::ReservedKeyword { name } => if "_geoPoint"@.is_prefix_of(name@) {
            r matches CriterionError::ReservedNameForSort { name: n } && n@ == "_geoPoint"@
        } else if "_geoRadius"@.is_prefix_of(name@) {
            r matches CriterionError::ReservedNameForFilter { name: n } && n@ == "_geoRadius"@
        } else {
            r matches CriterionError::ReservedName { name: n } && n@ == name@
        },
    }
}

pub open spec fn latitude_message() -> Seq<char> {
    "Latitude must be contained between -90 and 90 degrees."@
}

pub open spec fn longitude_message() -> Seq<char> {
    "Longitude must be contained between -180 and 180 degrees."@
}

pub open spec fn reserved_for_settings_message(name: Seq<char>) -> Seq<char> {
    "`"@ + name
        + "` is a reserved keyword and thus can't be used as a sort expression. Use the `_geoPoint(latitude, longitude)` built-in rule to sort on `_geo` field coordinates."@
}

/// The message shown for an error of a sort expression.
pub open spec fn asc_desc_message(e: AscDescError) -> Seq<char> {
    match e {
        AscDescError::InvalidLatitude => latitude_message(),
        AscDescError::InvalidLongitude => longitude_message(),
        AscDescError::InvalidSyntax { name } => "invalid asc/desc syntax for "@ + name@ + "."@,
        AscDescError::ReservedKeyword { name } => name@
            + " is a reserved keyword and thus can't be used as a asc/desc rule."@,
    }
}

/// The message shown for a sort error.
pub open spec fn sort_message(e: SortError) -> Seq<char> {
    match e {
        SortError::InvalidLatitude => latitude_message(),
        SortError::InvalidLongitude => longitude_message(),
        SortError::BadGeoPointUsage { name } => "invalid syntax for the `_geoPoint` parameter: `"@
            + name@ + "`. Usage: `_geoPoint(latitude, longitude):asc`."@,
        SortError::InvalidName { name } => "invalid syntax for the sort parameter `"@ + name@
            + "`."@,
        SortError::ReservedName { name } => name@
            + " is a reserved keyword and thus can't be used as a sort expression."@,
        SortError::ReservedNameForSettings { name } => reserved_for_settings_message(name@),
        SortError::ReservedNameForFilter { name } => reserved_for_settings_message(name@),
    }
}

fn text_of(parts: &str, name: &str, rest: &str) -> (r: String)
    ensures
        r@ == parts@ + name@ + rest@,
{
    let mut r = String::from_str(parts);
    r.append(name);
    r.append(rest);
    r
}

fn suffixed(name: &str, rest: &str) -> (r: String)
    ensures
        r@ == name@ + rest@,
{
    let mut r = String::from_str(name);
    r.append(rest);
    r
}

impl AscDescError {
    /// The message shown for this error.
    pub fn message(&self) -> (r: String)
        ensures
            r@ == asc_desc_message(*self),
    {
        match self {
            AscDescError::InvalidLatitude => String::from_str(
                "Latitude must be contained between -90 and 90 degrees.",
            ),
            AscDescError::InvalidLongitude => String::from_str(
                "Longitude must be contained between -180 and 180 degrees.",
            ),
            AscDescError::InvalidSyntax { name } => text_of(
                "invalid asc/desc syntax for ",
                name.as_str(),
                ".",
            ),
            AscDescError::ReservedKeyword { name } => suffixed(
                name.as_str(),
                " is a reserved keyword and thus can't be used as a asc/desc rule.",
            ),
        }
    }
}

impl SortError {
    /// Converts an error of a sort expression into the sort error shown to users.
    pub fn from_asc_desc(error: AscDescError) -> (r: SortError)
        ensures
            sort_error_of(error, r),
    {
        match error {
            AscDescError::InvalidLatitude => SortError::InvalidLatitude,
            AscDescError::InvalidLongitude => SortError::InvalidLongitude,
            AscDescError::InvalidSyntax { name } => SortError::InvalidName { name },
            AscDescError::ReservedKeyword { name } => {
                if has_prefix(name.as_str(), "_geoPoint") {
                    SortError::BadGeoPointUsage { name }
                } else if same_text(name.as_str(), "_geo") {
                    SortError::ReservedNameForSettings { name }
                } else if has_prefix(name.as_str(), "_geoRadius") {
                    SortError::ReservedNameForFilter { name: String::from_str("_geoRadius") }
                } else {
                    SortError::ReservedName { name }
                }
            },
        }
    }

    /// The message shown for this error.
    pub fn message(&self) -> (r: String)
        ensures
            r@ == sort_message(*self),
    {
        match self {
            SortError::InvalidLatitude => String::from_str(
                "Latitude must be contained between -90 and 90 degrees.",
            ),
            SortError::InvalidLongitude => String::from_str(
                "Longitude must be contained between -180 and 180 degrees.",
            ),
            SortError::BadGeoPointUsage { name } => text_of(
                "invalid syntax for the `_geoPoint` parameter: `",
                name.as_str(),
                "`. Usage: `_geoPoint(latitude, longitude):asc`.",
            ),
            SortError::InvalidName { name } => text_of(
                "invalid syntax for the sort parameter `",
                name.as_str(),
                "`.",
            ),
            SortError::ReservedName { name } => suffixed(
                name.as_str(),
                " is a reserved keyword and thus can't be used as a sort expression.",
            ),
            SortError::ReservedNameForSettings { name } | SortError::ReservedNameForFilter {
                name,
            } => text_of(
                "`",
                name.as_str(),
                "` is a reserved keyword and thus can't be used as a sort expression. Use the `_geoPoint(latitude, longitude)` built-in rule to sort on `_geo` field coordinates.",
            ),
        }
    }
}

impl CriterionError {
    /// Converts an error of a sort expression into a ranking-rule error.
    pub fn from_asc_desc(error: AscDescError) -> (r: CriterionError)
        ensures
            criterion_error_of(error, r),
    {
        match error {
            AscDescError::InvalidLatitude | AscDescError::InvalidLongitude => {
                CriterionError::ReservedNameForSort { name: String::from_str("_geoPoint") }
            },
            AscDescError::InvalidSyntax { name } => CriterionError::InvalidName { name },
            AscDescError::ReservedKeyword { name } => {
                if has_prefix(name.as_str(), "_geoPoint") {
                    CriterionError::ReservedNameForSort { name: String::from_str("_geoPoint") }
                } else if has_prefix(name.as_str(), "_geoRadius") {
                    CriterionError::ReservedNameForFilter { name: String::from_str("_geoRadius") }
                } else {
                    CriterionError::ReservedName { name }
                }
            },
        }
    }
}

impl From<AscDescError> for SortError {
    fn from(error: AscDescError) -> (r: SortError) {
        SortError::from_asc_desc(error)
    }
}

impl vstd::std_specs::convert::FromSpecImpl<AscDescError> for SortError {
    open spec fn obeys_from_spec() -> bool {
        false
    }

    open spec fn from_spec(v: AscDescError) -> SortError {
        SortError::InvalidLatitude
    }
}

impl From<AscDescError> for CriterionError {
    fn from(error: AscDescError) -> (r: CriterionError) {
        CriterionError::from_asc_desc(error)
    }
}

impl vstd::std_specs::convert::FromSpecImpl<AscDescError> for CriterionError {
    open spec fn obeys_from_spec() -> bool {
        false
    }

    open spec fn from_spec(v: AscDescError) -> CriterionError {
        CriterionError::InvalidName { name: arbitrary() }
    }
}

} // verus!
