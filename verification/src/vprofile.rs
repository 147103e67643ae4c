//! The registry of known backend variants and their connection defaults.

use vstd::prelude::*;
use vstd::string::*;
use crate::profile::{Profile, ProfileType};

verus! {

/// The known backend variants.
#[derive(Debug, Clone, Copy, PartialEq, Eq, Structural)]
pub enum VProfile {
    /// Backup & replication server.
    VBR,
    /// Microsoft 365 backup.
    VB365,
    /// AWS cloud backup.
    VBAWS,
    /// Azure cloud backup.
    VBAZURE,
    /// Google Cloud backup.
    VBGCP,
    /// Monitoring server.
    VONE,
    /// Enterprise manager; the one session-style variant.
    ENTMAN,
}

/// The hand-maintained defaults of each variant: canonical name,
/// authentication URL suffix, port, API version, and X-Api-Version value.
pub open spec fn is_profile_data_of(v: VProfile, p: Profile) -> bool {
    match v {
        VProfile::VBR => {
            &&& p.profile_type is VBR
            &&& p.name@ == "VBR"@
            &&& p.url@ == ":9419/api/oauth2/token"@
            &&& p.port@ == "9419"@
            &&& p.api_version@ == "v1"@
            &&& (p.x_api_version matches Some(x) && x@ == "1.2-rev1"@)
        },
        VProfile::VB365 => {
            &&& p.profile_type is VB365
            &&& p.name@ == "VB365"@
            &&& p.url@ == ":4443/v7/Token"@
            &&& p.port@ == "4443"@
            &&& p.api_version@ == "v8"@
            &&& p.x_api_version is None
        },
        VProfile::VBAWS => {
            &&& p.profile_type is VBAWS
            &&& p.name@ == "VBAWS"@
            &&& p.url@ == ":11005/api/v1/token"@
            &&& p.port@ == "11005"@
            &&& p.api_version@ == "v1"@
            &&& (p.x_api_version matches Some(x) && x@ == "1.7-rev0"@)
        },
        VProfile::VBAZURE => {
            &&& p.profile_type is VBAZURE
            &&& p.name@ == "VBAZURE"@
            &&& p.url@ == "/api/oauth2/token"@
            &&& p.port@ == ""@
            &&& p.api_version@ == "v8"@
            &&& p.x_api_version is None
        },
        VProfile::VBGCP => {
            &&& p.profile_type is VBGCP
            &&& p.name@ == "VBGCP"@
            &&& p.url@ == ":13140/api/v1/token"@
            &&& p.port@ == "13140"@
            &&& p.api_version@ == "v1"@
            &&& (p.x_api_version matches Some(x) && x@ == "1.4-rev0"@)
        },
        VProfile::VONE => {
            &&& p.profile_type is VONE
            &&& p.name@ == "VONE"@
            &&& p.url@ == ":1239/api/token"@
            &&& p.port@ == "1239"@
            &&& p.api_version@ == "v2.2"@
            &&& p.x_api_version is None
        },
        VProfile::ENTMAN => {
            &&& p.profile_type is ENTMAN
            &&& p.name@ == "ENTMAN"@
            &&& p.url@ == ":9398/api/sessionMngr/?v=latest"@
            &&& p.port@ == "9398"@
            &&& p.api_version@ == ""@
            &&& p.x_api_version is None
        },
    }
}

impl VProfile {
    /// The connection defaults of this variant.
    pub fn profile_data(&self) -> (r: Profile)
        ensures
            is_profile_data_of(*self, r),
    {
        match self {
            VProfile::VBR => Profile {
                profile_type: ProfileType::VBR,
                name: String::from_str("VBR"),
                url: String::from_str(":9419/api/oauth2/token"),
                port: String::from_str("9419"),
                api_version: String::from_str("v1"),
                x_api_version: Some(String::from_str("1.2-rev1")),
            },
            VProfile::VB365 => Profile {
                profile_type: ProfileType::VB365,
                name: String::from_str("VB365"),
                url: String::from_str(":4443/v7/Token"),
                port: String::from_str("4443"),
                api_version: String::from_str("v8"),
                x_api_version: None,
            },
            VProfile::VBAWS => Profile {
                profile_type: ProfileType::VBAWS,
                name: String::from_str("VBAWS"),
                url: String::from_str(":11005/api/v1/token"),
                port: String::from_str("11005"),
                api_version: String::from_str("v1"),
                x_api_version: Some(String::from_str("1.7-rev0")),
            },
            VProfile::VBAZURE => Profile {
                profile_type: ProfileType::VBAZURE,
                name: String::from_str("VBAZURE"),
                url: String::from_str("/api/oauth2/token"),
                port: String::from_str(""),
                api_version: String::from_str("v8"),
                x_api_version: None,
            },
            VProfile::VBGCP => Profile {
                profile_type: ProfileType::VBGCP,
                name: String::from_str("VBGCP"),
                url: String::from_str(":13140/api/v1/token"),
                port: String::from_str("13140"),
                api_version: String::from_str("v1"),
                x_api_version: Some(String::from_str("1.4-rev0")),
            },
            VProfile::VONE => Profile {
                profile_type: ProfileType::VONE,
                name: String::from_str("VONE"),
                url: String::from_str(":1239/api/token"),
                port: String::from_str("1239"),
                api_version: String::from_str("v2.2"),
                x_api_version: None,
            },
            VProfile::ENTMAN => Profile {
                profile_type: ProfileType::ENTMAN,
                name: String::from_str("ENTMAN"),
                url: String::from_str(":9398/api/sessionMngr/?v=latest"),
                port: String::from_str("9398"),
                api_version: String::from_str(""),
                x_api_version: None,
            },
        }
    }
}

} // verus!
