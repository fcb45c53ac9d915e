//! A small built-in GeoIP table: country and city of a few address ranges,
//! access by country, and backend choice by country.

use vstd::prelude::*;
use crate::access_control::IpAddress;

verus! {

pub struct GeoInfo {
    pub country: Option<String>,
    pub city: Option<String>,
    pub region: Option<String>,
}

/// The country of an address: "US" for 8.8.8.0/24 and 8.8.4.0/24.
pub open spec fn country_of(ip: IpAddress) -> Option<Seq<char>> {
    match ip {
        IpAddress::V4(a) => if a / 256 == 0x080808 || a / 256 == 0x080804 { Some("US"@) } else { None },
        IpAddress::V6(_) => None,
    }
}

/// The city of an address: "Mountain View" for 8.8.8.0/24.
pub open spec fn city_of(ip: IpAddress) -> Option<Seq<char>> {
    match ip {
        IpAddress::V4(a) => if a / 256 == 0x080808 { Some("Mountain View"@) } else { None },
        IpAddress::V6(_) => None,
    }
}

pub open spec fn opt_view(s: Option<String>) -> Option<Seq<char>> {
    match s {
        Some(t) => Some(t@),
        None => None,
    }
}

/// The entry for `key` in a list of (key, value) pairs (the first one).
pub open spec fn pair_lookup(pairs: Seq<(String, String)>, key: Seq<char>) -> Option<Seq<char>>
    decreases pairs.len(),
{
    if pairs.len() == 0 {
        None
    } else if pairs[0].0@ == key {
        Some(pairs[0].1@)
    } else {
        pair_lookup(pairs.drop_first(), key)
    }
}

pub struct GeoIP {}

impl GeoIP {
    pub fn new() -> (r: Self) {
        GeoIP {}
    }

    pub fn get_geo_info(&self, ip: &IpAddress) -> (r: GeoInfo)
        ensures
            opt_view(r.country) == country_of(*ip),
            opt_view(r.city) == city_of(*ip),
            r.region is None,
    {
        match ip {
            IpAddress::V4(a) => {
                let block = *a / 256;
                let country = if block == 0x080808 || block == 0x080804 { Some("US".to_owned()) } else { None };
                let city = if block == 0x080808 { Some("Mountain View".to_owned()) } else { None };
                GeoInfo { country, city, region: None }
            },
            IpAddress::V6(_) => GeoInfo { country: None, city: None, region: None },
        }
    }

    /// Whether the address may pass: its country is on the list, or its
    /// country is unknown.
    pub fn is_allowed_country(&self, ip: &IpAddress, allowed_countries: &[String]) -> (r: bool)
        ensures
            r == match country_of(*ip) {
                Some(c) => exists|i: int| 0 <= i < allowed_countries@.len() && #[trigger] allowed_countries@[i]@ == c,
                None => true,
            },
    {
        let info = self.get_geo_info(ip);
        match info.country {
            None => true,
            Some(c) => {
                let mut i: usize = 0;
                while i < allowed_countries.len()
                    invariant
                        i <= allowed_countries@.len(),
                        country_of(*ip) == Some(c@),
                        forall|j: int| 0 <= j < i ==> #[trigger] allowed_countries@[j]@ != c@,
                    decreases allowed_countries@.len() - i,
                {
                    if allowed_countries[i] == c {
                        assert(allowed_countries@[i as int]@ == c@);
                        return true;
                    }
                    i = i + 1;
                }
                false
            },
        }
    }

    /// The backend for the address's country, or the "default" entry when
    /// the country is unknown.
    pub fn select_backend_by_geo(&self, ip: &IpAddress, geo_backends: &Vec<(String, String)>) -> (r: Option<String>)
        ensures
            opt_view(r) == pair_lookup(geo_backends@, match country_of(*ip) {
                Some(c) => c,
                None => "default"@,
            }),
    {
        let info = self.get_geo_info(ip);
        let key = match info.country {
            Some(c) => c,
            None => "default".to_owned(),
        };
        let ghost g = geo_backends@;
        let mut i: usize = 0;
        assert(g.skip(0) =~= g);
        while i < geo_backends.len()
            invariant
                g == geo_backends@,
                i <= g.len(),
                key@ == match country_of(*ip) {
                    Some(c) => c,
                    None => "default"@,
                },
                pair_lookup(g, key@) == pair_lookup(g.skip(i as int), key@),
            decreases g.len() - i,
        {
            assert(g.skip(i as int).drop_first() =~= g.skip(i as int + 1));
            assert(g.skip(i as int)[0] == g[i as int]);
            if geo_backends[i].0 == key {
                return Some(geo_backends[i].1.clone());
            }
            i = i + 1;
        }
        assert(g.skip(i as int).len() == 0);
        None
    }
}

} // verus!
