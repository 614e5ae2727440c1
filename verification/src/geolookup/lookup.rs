//! Looking an address up in the geolocation databases.

use crate::geolookup::ip_type::{class_of, IpType};
use crate::geolookup::models::{empty_geo, GeoData};
use crate::net::Ipv4Addr;
use maxminddb::geoip2::{Asn, City};
use maxminddb::Reader;

use vstd::prelude::*;

verus! {

/// What a city database says of an address.
#[derive(Clone, Debug)]
pub struct CityRecord {
    /// Whether anything is recorded of the country.
    pub country_known: bool,
    pub country_code: Option<String>,
    pub country_name: Option<String>,
    pub continent_code: Option<String>,
    pub continent_name: Option<String>,
    /// Codes and names of the subdivisions, the largest first.
    pub divisions: Vec<(Option<String>, Option<String>)>,
    pub city_name: Option<String>,
}

/// What an ASN database says of an address.
#[derive(Clone, Debug)]
pub struct AsnRecord {
    pub number: Option<u32>,
    pub organization: Option<String>,
}

/// A city record as plain values.
pub struct CityText {
    pub country_known: bool,
    pub country_code: Option<Seq<char>>,
    pub country_name: Option<Seq<char>>,
    pub continent_code: Option<Seq<char>>,
    pub continent_name: Option<Seq<char>>,
    pub divisions: Seq<(Option<Seq<char>>, Option<Seq<char>>)>,
    pub city_name: Option<Seq<char>>,
}

/// The text of an optional string.
pub open spec fn text_of(s: Option<String>) -> Option<Seq<char>> {
    match s {
        Some(t) => Some(t@),
        None => None,
    }
}

impl View for CityRecord {
    type V = CityText;

    open spec fn view(&self) -> CityText {
        CityText {
            country_known: self.country_known,
            country_code: text_of(self.country_code),
            country_name: text_of(self.country_name),
            continent_code: text_of(self.continent_code),
            continent_name: text_of(self.continent_name),
            divisions: self.divisions.deep_view(),
            city_name: text_of(self.city_name),
        }
    }
}

/// The fields of a city record, in order.
pub type CityFields = (
    bool,
    Option<String>,
    Option<String>,
    Option<String>,
    Option<String>,
    Vec<(Option<String>, Option<String>)>,
    Option<String>,
);

/// The record that fields make, as plain values.
pub open spec fn fields_text(c: CityFields) -> CityText {
    CityText {
        country_known: c.0,
        country_code: text_of(c.1),
        country_name: text_of(c.2),
        continent_code: text_of(c.3),
        continent_name: text_of(c.4),
        divisions: c.5.deep_view(),
        city_name: text_of(c.6),
    }
}

fn record_of(c: CityFields) -> (r: CityRecord)
    ensures
        r@ == fields_text(c),
{
    CityRecord {
        country_known: c.0,
        country_code: c.1,
        country_name: c.2,
        continent_code: c.3,
        continent_name: c.4,
        divisions: c.5,
        city_name: c.6,
    }
}

/// Whether bytes are a database that can be searched.
pub uninterp spec fn is_database(bytes: Seq<u8>) -> bool;

/// `maxminddb::Reader::from_source`: opens a database that is held in memory.
/// It succeeds or fails by the bytes alone.
#[verifier::external_body]
fn opens(bytes: &Vec<u8>) -> (r: bool)
    ensures
        r == is_database(bytes@),
{
    Reader::from_source(bytes.as_slice()).is_ok()
}

/// What a city database says of an address: nothing where it cannot be
/// searched, nothing of a record where one cannot be decoded, and no record
/// where there is none.
pub uninterp spec fn city_in(bytes: Seq<u8>, ip: Seq<u8>) -> Option<Option<Option<CityText>>>;

/// `maxminddb::Reader::from_source`, `Reader::lookup` and
/// `LookupResult::decode` of a `maxminddb::geoip2::City`: the record of the
/// network that the address is in. It is a function of the database and the
/// address.
#[verifier::external_body]
fn find_city(bytes: &Vec<u8>, ip: [u8; 4]) -> (r: Option<Option<Option<CityFields>>>)
    ensures
        match r {
            Some(Some(Some(c))) => city_in(bytes@, ip@) == Some(Some(Some(fields_text(c)))),
            Some(Some(None)) => city_in(bytes@, ip@) == Some(Some(None::<CityText>)),
            Some(None) => city_in(bytes@, ip@) == Some(None::<Option<CityText>>),
            None => city_in(bytes@, ip@) is None,
        },
{
    let reader = Reader::from_source(bytes.as_slice()).ok()?;
    let city: Option<Option<City>> = reader.lookup(ip.into()).ok()?.decode().ok();
    let own = |t: Option<&str>| t.map(String::from);
    let fields = |c: City| (
        !c.country.is_empty(),
        own(c.country.iso_code),
        own(c.country.names.english),
        own(c.continent.code),
        own(c.continent.names.english),
        c.subdivisions.iter().map(|d| (own(d.iso_code), own(d.names.english))).collect(),
        own(c.city.names.english),
    );
    Some(city.map(|found| found.map(fields)))
}

/// What an ASN database says of an address: nothing where it cannot be
/// searched, nothing of a record where one cannot be decoded, and no record
/// where there is none.
pub uninterp spec fn asn_in(bytes: Seq<u8>, ip: Seq<u8>) -> Option<
    Option<Option<(Option<u32>, Option<Seq<char>>)>>,
>;

/// `maxminddb::Reader::from_source`, `Reader::lookup` and
/// `LookupResult::decode` of a `maxminddb::geoip2::Asn`: the record of the
/// network that the address is in. It is a function of the database and the
/// address.
#[verifier::external_body]
fn find_asn(bytes: &Vec<u8>, ip: [u8; 4]) -> (r: Option<Option<Option<AsnRecord>>>)
    ensures
        match r {
            Some(Some(Some(a))) => asn_in(bytes@, ip@) == Some(
                Some(Some((a.number, text_of(a.organization)))),
            ),
            Some(Some(None)) => asn_in(bytes@, ip@) == Some(
                Some(None::<(Option<u32>, Option<Seq<char>>)>),
            ),
            Some(None) => asn_in(bytes@, ip@) == Some(
                None::<Option<(Option<u32>, Option<Seq<char>>)>>,
            ),
            None => asn_in(bytes@, ip@) is None,
        },
{
    let reader = Reader::from_source(bytes.as_slice()).ok()?;
    let asn: Option<Option<Asn>> = reader.lookup(ip.into()).ok()?.decode().ok();
    let record = |a: Asn| AsnRecord {
        number: a.autonomous_system_number,
        organization: a.autonomous_system_organization.map(String::from),
    };
    Some(asn.map(|found| found.map(record)))
}

/// The record that the databases' answers make. Where the city database cannot
/// be searched nothing is known; where nothing is recorded of the country its
/// continent stands for it. The first subdivision is the region.
pub open spec fn located(
    g: GeoData,
    city: Option<Option<Option<CityText>>>,
    asn: Option<(Option<u32>, Option<Seq<char>>)>,
) -> bool {
    match city {
        None => empty_geo(g),
        Some(found) => {
            let (number, organization) = match asn {
                Some(a) => a,
                None => (None, None),
            };
            &&& match found {
                Some(Some(c)) => {
                    &&& text_of(g.iso_code) == if c.country_known {
                        c.country_code
                    } else {
                        c.continent_code
                    }
                    &&& text_of(g.name) == if c.country_known {
                        c.country_name
                    } else {
                        c.continent_name
                    }
                    &&& text_of(g.region_iso_code) == if c.divisions.len() > 0 {
                        c.divisions[0].0
                    } else {
                        None
                    }
                    &&& text_of(g.region_name) == if c.divisions.len() > 0 {
                        c.divisions[0].1
                    } else {
                        None
                    }
                    &&& text_of(g.city_name) == c.city_name
                },
                _ => g.iso_code is None && g.name is None && g.region_iso_code is None
                    && g.region_name is None && g.city_name is None,
            }
            &&& g.asn == number
            &&& text_of(g.aso) == organization
            &&& g.ip_type == class_of(number, organization)
            &&& g.continent_code is None
            &&& g.continent_name is None
            &&& g.latitude is None
            &&& g.longitude is None
            &&& g.timezone is None
            &&& g.zip is None
        },
    }
}

/// What an answer of an ASN database comes to.
pub open spec fn owner(
    answer: Option<Option<Option<(Option<u32>, Option<Seq<char>>)>>>,
) -> Option<(Option<u32>, Option<Seq<char>>)> {
    match answer {
        Some(Some(a)) => a,
        _ => None,
    }
}

/// The answer of a city database as plain values.
pub open spec fn city_answer(city: Option<Option<Option<CityRecord>>>) -> Option<
    Option<Option<CityText>>,
> {
    match city {
        Some(Some(Some(c))) => Some(Some(Some(c@))),
        Some(Some(None)) => Some(Some(None)),
        Some(None) => Some(None),
        None => None,
    }
}

/// The answer of an ASN database as plain values.
pub open spec fn asn_answer(asn: Option<AsnRecord>) -> Option<(Option<u32>, Option<Seq<char>>)> {
    match asn {
        Some(a) => Some((a.number, text_of(a.organization))),
        None => None,
    }
}

/// The record that the databases' answers make.
pub fn locate(city: Option<Option<Option<CityRecord>>>, asn: Option<AsnRecord>) -> (g: GeoData)
    ensures
        located(g, city_answer(city), asn_answer(asn)),
{
    let mut g = GeoData::default();
    match city {
        None => {
            return g;
        },
        Some(Some(Some(c))) => {
            if c.country_known {
                g.iso_code = c.country_code;
                g.name = c.country_name;
            } else {
                g.iso_code = c.continent_code;
                g.name = c.continent_name;
            }
            let mut divisions = c.divisions;
            if divisions.len() > 0 {
                let ghost first = divisions@[0];
                assert(divisions.deep_view()[0] == first.deep_view());
                let (code, name) = divisions.remove(0);
                g.region_iso_code = code;
                g.region_name = name;
            }
            g.city_name = c.city_name;
        },
        _ => {},
    }
    if let Some(a) = asn {
        g.ip_type = match &a.organization {
            Some(o) => IpType::classify(a.number, Some(o.as_str()), None, None),
            None => IpType::classify(a.number, None, None, None),
        };
        g.asn = a.number;
        g.aso = a.organization;
    } else {
        g.ip_type = IpType::classify(None, None, None, None);
    }
    g
}

/// Resolves addresses to places by databases that are held in memory.
pub struct GeoLookup {
    pub city: Vec<u8>,
    pub asn: Option<Vec<u8>>,
}

/// Which database cannot be opened.
#[derive(Clone, Copy, Debug, PartialEq, Eq, Structural)]
pub enum GeoError {
    City,
    Asn,
}

/// The octets of an address.
pub open spec fn octets(ip: Ipv4Addr) -> Seq<u8> {
    seq![ip.a, ip.b, ip.c, ip.d]
}

impl GeoLookup {
    /// Opens the databases; the ASN database only where it is given.
    pub fn new(city: Vec<u8>, asn: Option<Vec<u8>>) -> (r: Result<Self, GeoError>)
        ensures
            match r {
                Ok(g) => g.city@ == city@ && g.asn == asn && is_database(city@) && (asn matches Some(
                    a,
                ) ==> is_database(a@)),
                Err(GeoError::City) => !is_database(city@),
                Err(GeoError::Asn) => is_database(city@) && asn is Some && !is_database(asn->0@),
            },
    {
        if !opens(&city) {
            return Err(GeoError::City);
        }
        if let Some(a) = &asn {
            if !opens(a) {
                return Err(GeoError::Asn);
            }
        }
        Ok(GeoLookup { city, asn })
    }

    /// Looks up geographical data for an address.
    pub fn lookup(&self, ip: Ipv4Addr) -> (g: GeoData)
        ensures
            located(
                g,
                city_in(self.city@, octets(ip)),
                owner(
                    match self.asn {
                        Some(a) => asn_in(a@, octets(ip)),
                        None => None,
                    },
                ),
            ),
    {
        let key: [u8; 4] = [ip.a, ip.b, ip.c, ip.d];
        assert(key@ =~= octets(ip));
        let city = match find_city(&self.city, key) {
            Some(Some(Some(fields))) => Some(Some(Some(record_of(fields)))),
            Some(Some(None)) => Some(Some(None)),
            Some(None) => Some(None),
            None => None,
        };
        let asn = match &self.asn {
            Some(a) => match find_asn(a, key) {
                Some(Some(record)) => record,
                _ => None,
            },
            None => None,
        };
        locate(city, asn)
    }
}

/// A found record gives the country, or its continent where no country is
/// recorded, its first subdivision as the region, and the city; the owner of
/// the network gives the class.
pub proof fn places_come_from_their_record(
    g: GeoData,
    c: CityText,
    number: Option<u32>,
    organization: Option<Seq<char>>,
)
    requires
        located(g, Some(Some(Some(c))), Some((number, organization))),
    ensures
        c.country_known ==> text_of(g.iso_code) == c.country_code && text_of(g.name)
            == c.country_name,
        !c.country_known ==> text_of(g.iso_code) == c.continent_code && text_of(g.name)
            == c.continent_name,
        c.divisions.len() > 0 ==> text_of(g.region_iso_code) == c.divisions[0].0 && text_of(
            g.region_name,
        ) == c.divisions[0].1,
        c.divisions.len() == 0 ==> g.region_iso_code is None && g.region_name is None,
        text_of(g.city_name) == c.city_name,
        g.asn == number,
        text_of(g.aso) == organization,
        g.ip_type == class_of(number, organization),
{
}

/// Without a record of the place only the owner is known, and without a city
/// database nothing is.
pub proof fn unknown_places_stay_empty(
    g: GeoData,
    number: Option<u32>,
    organization: Option<Seq<char>>,
)
    ensures
        located(g, None, Some((number, organization))) ==> empty_geo(g),
        located(g, Some(None), Some((number, organization))) || located(
            g,
            Some(Some(None)),
            Some((number, organization)),
        ) ==> g.iso_code is None && g.city_name is None && g.asn == number && text_of(g.aso)
            == organization,
        located(g, Some(Some(None)), None) ==> g.asn is None && g.aso is None && g.ip_type
            == IpType::Unknown,
{
}

/// What the databases do not record stays empty: no record has a continent, a
/// position, a time zone or a postal code of its own, and one without a place
/// has no name and no region either.
pub proof fn nothing_else_is_told(
    g: GeoData,
    city: Option<Option<Option<CityText>>>,
    asn: Option<(Option<u32>, Option<Seq<char>>)>,
)
    requires
        located(g, city, asn),
    ensures
        g.continent_code is None && g.continent_name is None,
        g.latitude is None && g.longitude is None,
        g.timezone is None && g.zip is None,
        city == Some(None::<Option<CityText>>) || city == Some(Some(None::<CityText>)) ==> g.name
            is None && g.region_iso_code is None && g.region_name is None,
        asn is None ==> g.asn is None && g.aso is None && g.ip_type is Unknown,
{
}

} // verus!
