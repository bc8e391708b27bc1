//! Archaeomagnetic measurements of Han-dynasty sites, held in fixed-point units, and the
//! epoch of the field model that each one calibrates.
use vstd::prelude::*;

verus! {

/// One archaeomagnetic measurement of a dated site.
///
/// Every number is an integer in a fixed unit: coordinates in thousandths of a degree,
/// ages in tenths of a year (negative before the common era, astronomical numbering),
/// directions in tenths of a degree, intensities in nanotesla.
#[derive(Debug)]
pub struct ArchaeologyMagneticData {
    pub site_name: String,
    /// Latitude, thousandths of a degree.
    pub location_lat: i32,
    /// Longitude, thousandths of a degree.
    pub location_lon: i32,
    /// Age of the sample, tenths of a year.
    pub sample_age: i32,
    /// Uncertainty of the age, tenths of a year.
    pub sample_age_error: i32,
    /// Declination, tenths of a degree.
    pub declination: i32,
    /// Uncertainty of the declination, tenths of a degree.
    pub declination_error: i32,
    /// Inclination, tenths of a degree.
    pub inclination: i32,
    /// Uncertainty of the inclination, tenths of a degree.
    pub inclination_error: i32,
    /// Field intensity, nanotesla.
    pub intensity: i32,
    /// Uncertainty of the intensity, nanotesla.
    pub intensity_error: i32,
    pub sample_material: String,
    pub reference: String,
}

/// `tenths` tenths rounded to a whole number, halves away from zero.
pub open spec fn round_tenths(tenths: int) -> int {
    if tenths >= 0 {
        (tenths + 5) / 10
    } else {
        -((-tenths + 5) / 10)
    }
}

/// The age of a site rounded to a whole year: the year whose table entry it calibrates.
pub open spec fn site_year(site: ArchaeologyMagneticData) -> int {
    round_tenths(site.sample_age as int)
}

/// A site whose coordinates lie on the globe.
pub open spec fn site_on_globe(site: ArchaeologyMagneticData) -> bool {
    -90_000 <= site.location_lat <= 90_000 && -180_000 <= site.location_lon <= 180_000
}

/// `site` holds exactly the given values.
pub open spec fn site_has(
    site: ArchaeologyMagneticData,
    name: Seq<char>,
    lat: int,
    lon: int,
    age: int,
    age_error: int,
    declination: int,
    declination_error: int,
    inclination: int,
    inclination_error: int,
    intensity: int,
    intensity_error: int,
    material: Seq<char>,
    reference: Seq<char>,
) -> bool {
    &&& site.site_name@ == name
    &&& site.location_lat == lat
    &&& site.location_lon == lon
    &&& site.sample_age == age
    &&& site.sample_age_error == age_error
    &&& site.declination == declination
    &&& site.declination_error == declination_error
    &&& site.inclination == inclination
    &&& site.inclination_error == inclination_error
    &&& site.intensity == intensity
    &&& site.intensity_error == intensity_error
    &&& site.sample_material@ == material
    &&& site.reference@ == reference
}

impl ArchaeologyMagneticData {
    /// The age rounded to a whole year, halves away from zero.
    pub fn rounded_age(&self) -> (year: i64)
        ensures
            year == site_year(*self),
    {
        let tenths = self.sample_age as i64;
        if tenths >= 0 {
            (tenths + 5) / 10
        } else {
            -((-tenths + 5) / 10)
        }
    }
}

/// Rounding a number of tenths gives the nearest whole number, ties going away from zero.
pub proof fn lemma_round_tenths_nearest(tenths: int)
    ensures
        -5 <= tenths - 10 * round_tenths(tenths) <= 5,
        tenths - 10 * round_tenths(tenths) == 5 ==> tenths < 0,
        tenths - 10 * round_tenths(tenths) == -5 ==> tenths > 0,
        tenths % 10 == 0 ==> round_tenths(tenths) * 10 == tenths,
{
}

fn site(
    name: &str,
    lat: i32,
    lon: i32,
    age: i32,
    age_error: i32,
    declination: i32,
    declination_error: i32,
    inclination: i32,
    inclination_error: i32,
    intensity: i32,
    intensity_error: i32,
    material: &str,
    reference: &str,
) -> (s: ArchaeologyMagneticData)
    ensures
        site_has(
            s,
            name@,
            lat as int,
            lon as int,
            age as int,
            age_error as int,
            declination as int,
            declination_error as int,
            inclination as int,
            inclination_error as int,
            intensity as int,
            intensity_error as int,
            material@,
            reference@,
        ),
{
    ArchaeologyMagneticData {
        site_name: String::from_str(name),
        location_lat: lat,
        location_lon: lon,
        sample_age: age,
        sample_age_error: age_error,
        declination,
        declination_error,
        inclination,
        inclination_error,
        intensity,
        intensity_error,
        sample_material: String::from_str(material),
        reference: String::from_str(reference),
    }
}

/// The measurements of five Han-dynasty sites with which the field model is calibrated.
pub fn load_archaeomagnetic_data() -> (sites: Vec<ArchaeologyMagneticData>)
    ensures
        sites@.len() == 5,
        site_has(
            sites@[0],
            "汉长安城遗址"@,
            34265,
            108955,
            -1000,
            500,
            -25,
            8,
            562,
            12,
            55000,
            3000,
            "brick"@,
            "考古地磁学报2022"@,
        ),
        site_has(
            sites@[1],
            "洛阳汉魏故城"@,
            34667,
            112483,
            -500,
            300,
            -18,
            6,
            558,
            10,
            54500,
            2500,
            "brick"@,
            "地球物理学报2021"@,
        ),
        site_has(
            sites@[2],
            "长沙马王堆汉墓"@,
            28197,
            113021,
            -1650,
            500,
            -32,
            10,
            485,
            15,
            52000,
            3500,
            "soil"@,
            "考古与文物2023"@,
        ),
        site_has(
            sites@[3],
            "西安未央宫遗址"@,
            34285,
            108925,
            -800,
            400,
            -23,
            7,
            560,
            11,
            54800,
            2800,
            "brick"@,
            "考古地磁学报2022"@,
        ),
        site_has(
            sites@[4],
            "徐州狮子山汉墓"@,
            34221,
            117329,
            -1540,
            600,
            -28,
            9,
            523,
            13,
            53500,
            3200,
            "soil"@,
            "华夏考古2022"@,
        ),
        forall|i: int| 0 <= i < 5 ==> site_on_globe(#[trigger] sites@[i]) && sites@[i].sample_age < 0,
{
    let mut sites: Vec<ArchaeologyMagneticData> = Vec::new();
    sites.push(
        site(
            "汉长安城遗址",
            34265,
            108955,
            -1000,
            500,
            -25,
            8,
            562,
            12,
            55000,
            3000,
            "brick",
            "考古地磁学报2022",
        ),
    );
    sites.push(
        site(
            "洛阳汉魏故城",
            34667,
            112483,
            -500,
            300,
            -18,
            6,
            558,
            10,
            54500,
            2500,
            "brick",
            "地球物理学报2021",
        ),
    );
    sites.push(
        site(
            "长沙马王堆汉墓",
            28197,
            113021,
            -1650,
            500,
            -32,
            10,
            485,
            15,
            52000,
            3500,
            "soil",
            "考古与文物2023",
        ),
    );
    sites.push(
        site(
            "西安未央宫遗址",
            34285,
            108925,
            -800,
            400,
            -23,
            7,
            560,
            11,
            54800,
            2800,
            "brick",
            "考古地磁学报2022",
        ),
    );
    sites.push(
        site(
            "徐州狮子山汉墓",
            34221,
            117329,
            -1540,
            600,
            -28,
            9,
            523,
            13,
            53500,
            3200,
            "soil",
            "华夏考古2022",
        ),
    );
    sites
}

} // verus!
