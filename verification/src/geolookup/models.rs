//! GeoIP records attached to proxies.

use crate::geolookup::ip_type::IpType;
use vstd::prelude::*;

verus! {

/// Geolocation record attached to a proxy.
///
/// All fields are `None` or `Unknown` when lookup is disabled or the address
/// is unknown.
#[derive(Clone, Debug)]
pub struct GeoData {
    /// ISO 3166-1 alpha-2 country code (e.g. `ID`).
    pub iso_code: Option<String>,
    /// Country name.
    pub name: Option<String>,
    /// Region ISO code.
    pub region_iso_code: Option<String>,
    /// Region name.
    pub region_name: Option<String>,
    /// City name.
    pub city_name: Option<String>,
    /// Autonomous system number.
    pub asn: Option<u32>,
    /// Autonomous system organization.
    pub aso: Option<String>,
    /// Address classification.
    pub ip_type: IpType,
    /// Continent code (e.g. `AS`).
    pub continent_code: Option<String>,
    /// Continent name.
    pub continent_name: Option<String>,
    /// Latitude in millionths of a degree.
    pub latitude: Option<i64>,
    /// Longitude in millionths of a degree.
    pub longitude: Option<i64>,
    /// IANA timezone (e.g. `Asia/Jakarta`).
    pub timezone: Option<String>,
    /// Postal code.
    pub zip: Option<String>,
}

/// A record that no lookup filled.
pub open spec fn empty_geo(g: GeoData) -> bool {
    &&& g.iso_code is None
    &&& g.name is None
    &&& g.region_iso_code is None
    &&& g.region_name is None
    &&& g.city_name is None
    &&& g.asn is None
    &&& g.aso is None
    &&& g.ip_type == IpType::Unknown
    &&& g.continent_code is None
    &&& g.continent_name is None
    &&& g.latitude is None
    &&& g.longitude is None
    &&& g.timezone is None
    &&& g.zip is None
}

impl Default for GeoData {
    fn default() -> (r: Self)
        ensures
            empty_geo(r),
    {
        GeoData {
            iso_code: None,
            name: None,
            region_iso_code: None,
            region_name: None,
            city_name: None,
            asn: None,
            aso: None,
            ip_type: IpType::Unknown,
            continent_code: None,
            continent_name: None,
            latitude: None,
            longitude: None,
            timezone: None,
            zip: None,
        }
    }
}

impl GeoData {
    /// Whether the record carries no lookup data at all, so that it is
    /// rendered as `{}` rather than as an object full of nulls.
    pub fn is_empty(&self) -> (r: bool)
        ensures
            r == empty_geo(*self),
    {
        self.iso_code.is_none() && self.name.is_none() && self.region_iso_code.is_none()
            && self.region_name.is_none() && self.city_name.is_none() && self.asn.is_none()
            && self.aso.is_none() && self.ip_type == IpType::Unknown
            && self.continent_code.is_none() && self.continent_name.is_none()
            && self.latitude.is_none() && self.longitude.is_none() && self.timezone.is_none()
            && self.zip.is_none()
    }
}

} // verus!
