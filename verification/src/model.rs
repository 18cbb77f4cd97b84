//! The tracked product variants, the sort keys, and the output formats,
//! with their string forms.

use vstd::prelude::*;
use vstd::string::StringExecFns;
use crate::text::lower_of;
use crate::text::lowercase;
use crate::text::str_eq;
use crate::text::strip_trailing_slash;
use crate::text::strip_trailing_slashes;

verus! {

/// The page every variant's path hangs off.
pub const BASE_URL: &'static str = "https://www.nowinstock.net/computers/videocards/nvidia/";

/// One tracked product variant. The set is closed and known at build time.
#[derive(Debug, Clone, Copy, PartialEq, Eq, Structural)]
pub enum GpuModel {
    Rtx5090,
    Rtx5080,
    Rtx5070Ti,
    Rtx5070,
}

/// A GPU model string that no tracked variant answers to.
#[derive(Debug)]
pub struct ParseGpuModelError(pub String);

impl ParseGpuModelError {
    /// The human-readable description of the error.
    pub fn message(&self) -> (r: String)
        ensures
            r@ == "Invalid GPU model: "@ + self.0@,
    {
        String::from_str("Invalid GPU model: ").concat(self.0.as_str())
    }
}

impl GpuModel {
    /// The URL path fragment of this variant.
    pub open spec fn spec_url_suffix(self) -> Seq<char> {
        match self {
            GpuModel::Rtx5090 => "rtx5090/"@,
            GpuModel::Rtx5080 => "rtx5080/"@,
            GpuModel::Rtx5070Ti => "rtx5070ti/"@,
            GpuModel::Rtx5070 => "rtx5070/"@,
        }
    }

    /// Renders the variant's URL path fragment.
    pub fn url_suffix(&self) -> (r: &'static str)
        ensures
            r@ == self.spec_url_suffix(),
    {
        match self {
            GpuModel::Rtx5090 => "rtx5090/",
            GpuModel::Rtx5080 => "rtx5080/",
            GpuModel::Rtx5070Ti => "rtx5070ti/",
            GpuModel::Rtx5070 => "rtx5070/",
        }
    }

    /// The variant a lowercase-folded, slash-stripped name denotes.
    pub open spec fn spec_of_folded(u: Seq<char>) -> Option<GpuModel> {
        if u == "5090"@ || u == "rtx5090"@ {
            Some(GpuModel::Rtx5090)
        } else if u == "5080"@ || u == "rtx5080"@ {
            Some(GpuModel::Rtx5080)
        } else if u == "5070ti"@ || u == "rtx5070ti"@ {
            Some(GpuModel::Rtx5070Ti)
        } else if u == "5070"@ || u == "rtx5070"@ {
            Some(GpuModel::Rtx5070)
        } else {
            None
        }
    }

    /// Reads a variant name, tolerating case and trailing slashes; a string
    /// naming no variant is returned inside the error.
    pub fn from_str(s: &str) -> (r: Result<GpuModel, ParseGpuModelError>)
        ensures
            match r {
                Ok(m) => Self::spec_of_folded(strip_trailing_slashes(lower_of(s@))) == Some(m),
                Err(e) => Self::spec_of_folded(strip_trailing_slashes(lower_of(s@))) is None
                    && e.0@ == s@,
            },
    {
        let low = lowercase(s);
        let u = strip_trailing_slash(low.as_str());
        if str_eq(u, "5090") || str_eq(u, "rtx5090") {
            Ok(GpuModel::Rtx5090)
        } else if str_eq(u, "5080") || str_eq(u, "rtx5080") {
            Ok(GpuModel::Rtx5080)
        } else if str_eq(u, "5070ti") || str_eq(u, "rtx5070ti") {
            Ok(GpuModel::Rtx5070Ti)
        } else if str_eq(u, "5070") || str_eq(u, "rtx5070") {
            Ok(GpuModel::Rtx5070)
        } else {
            Err(ParseGpuModelError(String::from_str(s)))
        }
    }
}

/// Every tracked variant, in enumeration order: the order cross-variant
/// results follow.
pub fn all_models() -> (r: Vec<GpuModel>)
    ensures
        r@ == seq![GpuModel::Rtx5090, GpuModel::Rtx5080, GpuModel::Rtx5070Ti, GpuModel::Rtx5070],
{
    let mut v: Vec<GpuModel> = Vec::new();
    v.push(GpuModel::Rtx5090);
    v.push(GpuModel::Rtx5080);
    v.push(GpuModel::Rtx5070Ti);
    v.push(GpuModel::Rtx5070);
    proof {
        assert(v@ =~= seq![
            GpuModel::Rtx5090,
            GpuModel::Rtx5080,
            GpuModel::Rtx5070Ti,
            GpuModel::Rtx5070,
        ]);
    }
    v
}

/// The source URL of one variant: the base page plus the variant's path
/// fragment.
pub fn variant_url(m: GpuModel) -> (r: String)
    ensures
        r@ == BASE_URL@ + m.spec_url_suffix(),
{
    String::from_str(BASE_URL).concat(m.url_suffix())
}

/// The column the final view is ordered by.
#[derive(Debug, Clone, Copy, PartialEq, Eq, Structural)]
pub enum SortColumn {
    Name,
    Status,
    Price,
    LastAvailable,
    Link,
}

impl SortColumn {
    /// The column a lowercase-folded name denotes.
    pub open spec fn spec_of_folded(u: Seq<char>) -> Option<SortColumn> {
        if u == "name"@ {
            Some(SortColumn::Name)
        } else if u == "status"@ {
            Some(SortColumn::Status)
        } else if u == "price"@ {
            Some(SortColumn::Price)
        } else if u == "last"@ || u == "lastavailable"@ || u == "last_available"@ {
            Some(SortColumn::LastAvailable)
        } else if u == "link"@ {
            Some(SortColumn::Link)
        } else {
            None
        }
    }

    /// Reads a column name, tolerating case; a string naming no column is
    /// echoed in the error message.
    pub fn from_str(s: &str) -> (r: Result<SortColumn, String>)
        ensures
            match r {
                Ok(c) => Self::spec_of_folded(lower_of(s@)) == Some(c),
                Err(e) => Self::spec_of_folded(lower_of(s@)) is None && e@ == "Invalid sort column: "@
                    + s@,
            },
    {
        let low = lowercase(s);
        let u = low.as_str();
        if str_eq(u, "name") {
            Ok(SortColumn::Name)
        } else if str_eq(u, "status") {
            Ok(SortColumn::Status)
        } else if str_eq(u, "price") {
            Ok(SortColumn::Price)
        } else if str_eq(u, "last") || str_eq(u, "lastavailable") || str_eq(u, "last_available") {
            Ok(SortColumn::LastAvailable)
        } else if str_eq(u, "link") {
            Ok(SortColumn::Link)
        } else {
            Err(String::from_str("Invalid sort column: ").concat(s))
        }
    }
}

/// How the final view is rendered by the presentation layer.
#[derive(Debug, Clone, Copy, PartialEq, Eq, Structural)]
pub enum OutputFormat {
    Table,
    Json,
    Yaml,
    Toml,
}

} // verus!
