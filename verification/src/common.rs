//! The request a user makes (model, step, days, area, components) and the library's errors.

use vstd::prelude::*;

verus! {

/// The weather models that can be downloaded.
#[derive(Clone, Copy, Debug, PartialEq, Eq, Structural)]
pub enum Model {
    /// Res 1km, Between 41°N and 51.5°N / -6°W and 10.5°E
    Arome,
    /// Res 2.5km, Between 41°N and 51.5°N / -6°W and 10.5°E
    Arome0025,
    /// Between 10.4°N and 22.45°N / -67.8°W and -52.2°W
    AromeAntille,
    /// Between 1.05°N and 8.95°N / -56.75°W and -46.3°W
    AromeGuyane,
    /// Between -25.9°S and -7.25°S / 32.75°E and 67.6°E
    AromeIndien,
    /// Between -26°S and -13.75°S / 158.5°E and 171.5°E
    AromeNcaledonie,
    /// Between -25.25°S and -12.6°S / -157.5°W and -144.5°W
    AromePolynesie,
    /// Arpege 0.25°, worldwide
    Arpege025,
    /// Arpege 1.00°, worldwide
    Arpege100,
    /// Gfs 0,25° - 22km, worldwide
    Gfs025,
    /// Gfs 0,50° - 45km, worldwide
    Gfs050,
    /// Gfs 1,00° - 90km, worldwide
    Gfs100,
    /// IFS 0.25°, worldwide
    Ecmwf,
}

/// The models whose name starts with `arome`.
pub open spec fn is_arome(m: Model) -> bool {
    m is Arome || m is Arome0025 || m is AromeAntille || m is AromeGuyane || m is AromeIndien
        || m is AromeNcaledonie || m is AromePolynesie
}

/// The models whose name starts with `arpege`.
pub open spec fn is_arpege(m: Model) -> bool {
    m is Arpege025 || m is Arpege100
}

/// The models whose name starts with `gfs`.
pub open spec fn is_gfs(m: Model) -> bool {
    m is Gfs025 || m is Gfs050 || m is Gfs100
}

/// The kebab-case name of a model.
pub open spec fn model_name(m: Model) -> Seq<char> {
    match m {
        Model::Arome => "arome"@,
        Model::Arome0025 => "arome0025"@,
        Model::AromeAntille => "arome-antille"@,
        Model::AromeGuyane => "arome-guyane"@,
        Model::AromeIndien => "arome-indien"@,
        Model::AromeNcaledonie => "arome-ncaledonie"@,
        Model::AromePolynesie => "arome-polynesie"@,
        Model::Arpege025 => "arpege025"@,
        Model::Arpege100 => "arpege100"@,
        Model::Gfs025 => "gfs025"@,
        Model::Gfs050 => "gfs050"@,
        Model::Gfs100 => "gfs100"@,
        Model::Ecmwf => "ecmwf"@,
    }
}

impl Model {
    /// Only the GFS models can be downloaded through an Iridium-Go.
    pub fn iridium_compatible(&self) -> (b: bool)
        ensures
            b == is_gfs(*self),
    {
        match self {
            Model::Gfs025 | Model::Gfs050 | Model::Gfs100 => true,
            _ => false,
        }
    }

    /// The model's kebab-case name, as written on the command line and in file names.
    pub fn name(&self) -> (s: &'static str)
        ensures
            s@ == model_name(*self),
    {
        match self {
            Model::Arome => "arome",
            Model::Arome0025 => "arome0025",
            Model::AromeAntille => "arome-antille",
            Model::AromeGuyane => "arome-guyane",
            Model::AromeIndien => "arome-indien",
            Model::AromeNcaledonie => "arome-ncaledonie",
            Model::AromePolynesie => "arome-polynesie",
            Model::Arpege025 => "arpege025",
            Model::Arpege100 => "arpege100",
            Model::Gfs025 => "gfs025",
            Model::Gfs050 => "gfs050",
            Model::Gfs100 => "gfs100",
            Model::Ecmwf => "ecmwf",
        }
    }
}

/// The time between two forecast layers.
#[derive(Clone, Copy, Debug, PartialEq, Eq, Structural)]
pub enum Step {
    H1,
    H3,
    H6,
    H12,
}

/// The number of hours of a step.
pub open spec fn step_hours(s: Step) -> int {
    match s {
        Step::H1 => 1,
        Step::H3 => 3,
        Step::H6 => 6,
        Step::H12 => 12,
    }
}

/// The name of a step (`1h`, `3h`, ...).
pub open spec fn step_name(s: Step) -> Seq<char> {
    match s {
        Step::H1 => "1h"@,
        Step::H3 => "3h"@,
        Step::H6 => "6h"@,
        Step::H12 => "12h"@,
    }
}

impl Step {
    /// The number of hours between two layers.
    pub fn hours(&self) -> (h: usize)
        ensures
            h == step_hours(*self),
    {
        match self {
            Step::H1 => 1,
            Step::H3 => 3,
            Step::H6 => 6,
            Step::H12 => 12,
        }
    }

    /// The step's name, as written on the command line and in file names.
    pub fn name(&self) -> (s: &'static str)
        ensures
            s@ == step_name(*self),
    {
        match self {
            Step::H1 => "1h",
            Step::H3 => "3h",
            Step::H6 => "6h",
            Step::H12 => "12h",
        }
    }
}

/// The weather variables that can be requested.
#[derive(Clone, Copy, Debug, PartialEq, Eq, Structural)]
pub enum Component {
    Wind,
    WindGust,
    Pressure,
    CloudCover,
}

/// Progress of a download, reported to whoever displays it.
#[derive(Clone, Copy, Debug, PartialEq, Eq, Structural)]
pub enum DownloadEvent {
    Started { total: usize },
    FinishedOne,
    FinishedAll,
}

/// What a user asks for, and once downloaded, what was received.
///
/// Coordinates are held in millionths of a degree (the unit of GRIB2 files);
/// south and west are negative.
#[derive(Clone, Debug)]
pub struct Grib {
    pub model: Model,
    pub step: Step,
    pub days: u32,
    pub latitude_max: i64,
    pub latitude_min: i64,
    pub longitude_max: i64,
    pub longitude_min: i64,
    pub components: Vec<Component>,
    pub content: Vec<u8>,
    pub run: String,
    pub secret: String,
    pub iridium: bool,
}

/// The ways `str::parse::<usize>` rejects a string.
#[derive(Clone, Copy, Debug, PartialEq, Eq, Structural)]
pub enum IntErrorKind {
    Empty,
    InvalidDigit,
    PosOverflow,
}

/// The errors of the library.
#[derive(Clone, Debug)]
pub enum GribError {
    /// The request cannot be served as configured.
    InvalidConf(String),
    /// A number in a downloaded text could not be read.
    ParseIntError(IntErrorKind),
    /// A regular expression failed to compile; its message.
    Regex(String),
    /// A header value holds characters that HTTP headers refuse.
    InvalidHeaderValue,
    /// A GRIB2 message whose structure cannot be walked: a field or section lies beyond
    /// the data, a length is zero, or a count does not fit in memory.
    Malformed,
    /// Any other error, with its message.
    Generic(String),
}

/// A `GribError` with its strings taken by their characters.
pub enum GribErrorV {
    InvalidConf(Seq<char>),
    ParseIntError(IntErrorKind),
    Regex(Seq<char>),
    InvalidHeaderValue,
    Malformed,
    Generic(Seq<char>),
}

impl View for GribError {
    type V = GribErrorV;

    open spec fn view(&self) -> GribErrorV {
        match self {
            GribError::InvalidConf(s) => GribErrorV::InvalidConf(s@),
            GribError::ParseIntError(k) => GribErrorV::ParseIntError(*k),
            GribError::Regex(s) => GribErrorV::Regex(s@),
            GribError::InvalidHeaderValue => GribErrorV::InvalidHeaderValue,
            GribError::Malformed => GribErrorV::Malformed,
            GribError::Generic(s) => GribErrorV::Generic(s@),
        }
    }
}

/// A byte result taken by its view.
pub open spec fn bytes_result(r: Result<Vec<u8>, GribError>) -> Result<Seq<u8>, GribErrorV> {
    match r {
        Ok(v) => Ok(v@),
        Err(e) => Err(e@),
    }
}

/// A string result taken by its view.
pub open spec fn text_result(r: Result<String, GribError>) -> Result<Seq<char>, GribErrorV> {
    match r {
        Ok(v) => Ok(v@),
        Err(e) => Err(e@),
    }
}

/// An error carrying a message.
pub fn generic(msg: String) -> (e: GribError)
    ensures
        e@ == GribErrorV::Generic(msg@),
{
    GribError::Generic(msg)
}

} // verus!

verus! {

/// `b` followed by what `r` holds, or `r`'s error.
pub open spec fn prepend_text(b: Seq<char>, r: Result<Seq<char>, GribErrorV>) -> Result<Seq<char>, GribErrorV> {
    match r {
        Ok(x) => Ok(b + x),
        Err(e) => Err(e),
    }
}

/// Prepending `a` then `b` is prepending `a + b`.
pub proof fn lemma_prepend_text_twice(a: Seq<char>, b: Seq<char>, r: Result<Seq<char>, GribErrorV>)
    ensures
        prepend_text(a, prepend_text(b, r)) == prepend_text(a + b, r),
{
    match r {
        Ok(x) => {
            assert(a + (b + x) =~= a + b + x);
        },
        Err(_) => {},
    }
}

} // verus!
