//! Verified core of the Sinan pointing-accuracy and geomagnetic-reconstruction backend:
//! the epoch table of the CALS10K field model and its calibration plan, the bundled
//! archaeomagnetic measurements, the vector-field sampling grid, and the reading of the
//! HTTP query parameters.
pub mod archaeo;
pub mod epochs;
pub mod grid;
pub mod query;

pub use archaeo::load_archaeomagnetic_data;
