//! Download, unpack and crop GRIB2 weather files for sailing.

pub mod bytes;
pub mod cli;
pub mod clock;
pub mod common;
pub mod download;
pub mod ecmwf;
pub mod header;
pub mod iridium;
pub mod meteofrance;
pub mod noaa;
pub mod pattern;
pub mod text;
