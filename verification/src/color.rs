//! Color metadata: the tag-to-enum mappings, the broadcast heuristics that
//! fill in unspecified tags from the frame size, and the encoder-specific
//! parameter values derived from probed color tags.

use vstd::prelude::*;
use crate::text::str_eq;
use crate::probe::Probe;

verus! {

#[derive(Clone, Copy, Debug, PartialEq, Eq, Structural)]
pub enum Matrices {
    Identity,
    BT709,
    BT470M,
    BT470BG,
    ST170M,
    ST240M,
    YCgCo,
    BT2020NonConstantLuminance,
    BT2020ConstantLuminance,
    ST2085,
    ChromaticityDerivedNonConstantLuminance,
    ChromaticityDerivedConstantLuminance,
    ICtCp,
    Unspecified,
}

#[derive(Clone, Copy, Debug, PartialEq, Eq, Structural)]
pub enum Primaries {
    BT709,
    BT470M,
    BT470BG,
    ST170M,
    ST240M,
    Film,
    BT2020,
    ST428,
    P3DCI,
    P3Display,
    Tech3213,
    Unspecified,
}

#[derive(Clone, Copy, Debug, PartialEq, Eq, Structural)]
pub enum Transfers {
    BT1886,
    BT470M,
    BT470BG,
    ST170M,
    ST240M,
    Linear,
    Logarithmic100,
    Logarithmic316,
    XVYCC,
    BT1361E,
    SRGB,
    BT2020Ten,
    BT2020Twelve,
    PerceptualQuantizer,
    ST428,
    HybridLogGamma,
    Unspecified,
}

/// The matrix-coefficient tag values this pipeline understands.
pub open spec fn spec_to_matrices(s: Seq<char>) -> Matrices {
    if s == "rgb"@ {
        Matrices::Identity
    } else if s == "bt709"@ {
        Matrices::BT709
    } else if s == "fcc"@ {
        Matrices::BT470M
    } else if s == "bt470bg"@ {
        Matrices::BT470BG
    } else if s == "smpte170m"@ {
        Matrices::ST170M
    } else if s == "smpte240m"@ {
        Matrices::ST240M
    } else if s == "ycgco"@ || s == "ycocg"@ || s == "ycgco-re"@ || s == "ycgco-ro"@ {
        Matrices::YCgCo
    } else if s == "bt2020nc"@ || s == "bt2020ncl"@ {
        Matrices::BT2020NonConstantLuminance
    } else if s == "bt2020c"@ || s == "bt2020_cl"@ {
        Matrices::BT2020ConstantLuminance
    } else if s == "smpte2085"@ {
        Matrices::ST2085
    } else if s == "chroma-derived-nc"@ {
        Matrices::ChromaticityDerivedNonConstantLuminance
    } else if s == "chroma-derived-c"@ {
        Matrices::ChromaticityDerivedConstantLuminance
    } else if s == "ictcp"@ {
        Matrices::ICtCp
    } else {
        Matrices::Unspecified
    }
}

pub fn to_matrices(input: String) -> (r: Matrices)
    ensures
        r == spec_to_matrices(input@),
{
    let s = input.as_str();
    if str_eq(s, "rgb") {
        Matrices::Identity
    } else if str_eq(s, "bt709") {
        Matrices::BT709
    } else if str_eq(s, "fcc") {
        Matrices::BT470M
    } else if str_eq(s, "bt470bg") {
        Matrices::BT470BG
    } else if str_eq(s, "smpte170m") {
        Matrices::ST170M
    } else if str_eq(s, "smpte240m") {
        Matrices::ST240M
    } else if str_eq(s, "ycgco") || str_eq(s, "ycocg") || str_eq(s, "ycgco-re") || str_eq(
        s,
        "ycgco-ro",
    ) {
        Matrices::YCgCo
    } else if str_eq(s, "bt2020nc") || str_eq(s, "bt2020ncl") {
        Matrices::BT2020NonConstantLuminance
    } else if str_eq(s, "bt2020c") || str_eq(s, "bt2020_cl") {
        Matrices::BT2020ConstantLuminance
    } else if str_eq(s, "smpte2085") {
        Matrices::ST2085
    } else if str_eq(s, "chroma-derived-nc") {
        Matrices::ChromaticityDerivedNonConstantLuminance
    } else if str_eq(s, "chroma-derived-c") {
        Matrices::ChromaticityDerivedConstantLuminance
    } else if str_eq(s, "ictcp") {
        Matrices::ICtCp
    } else {
        Matrices::Unspecified
    }
}

/// The color-primaries tag values this pipeline understands.
pub open spec fn spec_to_primaries(s: Seq<char>) -> Primaries {
    if s == "bt709"@ {
        Primaries::BT709
    } else if s == "bt470m"@ {
        Primaries::BT470M
    } else if s == "bt470bg"@ {
        Primaries::BT470BG
    } else if s == "smpte170m"@ {
        Primaries::ST170M
    } else if s == "smpte240m"@ {
        Primaries::ST240M
    } else if s == "film"@ {
        Primaries::Film
    } else if s == "bt2020"@ {
        Primaries::BT2020
    } else if s == "smpte428"@ || s == "smpte428_1"@ {
        Primaries::ST428
    } else if s == "smpte431"@ {
        Primaries::P3DCI
    } else if s == "smpte432"@ {
        Primaries::P3Display
    } else if s == "ebu3213"@ {
        Primaries::Tech3213
    } else {
        Primaries::Unspecified
    }
}

pub fn to_primaries(input: String) -> (r: Primaries)
    ensures
        r == spec_to_primaries(input@),
{
    let s = input.as_str();
    if str_eq(s, "bt709") {
        Primaries::BT709
    } else if str_eq(s, "bt470m") {
        Primaries::BT470M
    } else if str_eq(s, "bt470bg") {
        Primaries::BT470BG
    } else if str_eq(s, "smpte170m") {
        Primaries::ST170M
    } else if str_eq(s, "smpte240m") {
        Primaries::ST240M
    } else if str_eq(s, "film") {
        Primaries::Film
    } else if str_eq(s, "bt2020") {
        Primaries::BT2020
    } else if str_eq(s, "smpte428") || str_eq(s, "smpte428_1") {
        Primaries::ST428
    } else if str_eq(s, "smpte431") {
        Primaries::P3DCI
    } else if str_eq(s, "smpte432") {
        Primaries::P3Display
    } else if str_eq(s, "ebu3213") {
        Primaries::Tech3213
    } else {
        Primaries::Unspecified
    }
}

/// The transfer-characteristic tag values this pipeline understands.
pub open spec fn spec_to_transfers(s: Seq<char>) -> Transfers {
    if s == "bt709"@ {
        Transfers::BT1886
    } else if s == "gamma22"@ {
        Transfers::BT470M
    } else if s == "gamma28"@ {
        Transfers::BT470BG
    } else if s == "smpte170m"@ {
        Transfers::ST170M
    } else if s == "smpte240m"@ {
        Transfers::ST240M
    } else if s == "linear"@ {
        Transfers::Linear
    } else if s == "log100"@ || s == "log"@ {
        Transfers::Logarithmic100
    } else if s == "log316"@ || s == "log_sqrt"@ {
        Transfers::Logarithmic316
    } else if s == "iec61966-2-4"@ || s == "iec61966_2_4"@ {
        Transfers::XVYCC
    } else if s == "bt1361e"@ || s == "bt1361"@ {
        Transfers::BT1361E
    } else if s == "iec61966-2-1"@ || s == "iec61966_2_1"@ {
        Transfers::SRGB
    } else if s == "bt2020-10"@ || s == "bt2020_10bit"@ {
        Transfers::BT2020Ten
    } else if s == "bt2020-12"@ || s == "bt2020_12bit"@ {
        Transfers::BT2020Twelve
    } else if s == "smpte2084"@ {
        Transfers::PerceptualQuantizer
    } else if s == "smpte428"@ || s == "smpte428_1"@ {
        Transfers::ST428
    } else if s == "arib-std-b67"@ {
        Transfers::HybridLogGamma
    } else {
        Transfers::Unspecified
    }
}

pub fn to_transfers(input: String) -> (r: Transfers)
    ensures
        r == spec_to_transfers(input@),
{
    let s = input.as_str();
    if str_eq(s, "bt709") {
        Transfers::BT1886
    } else if str_eq(s, "gamma22") {
        Transfers::BT470M
    } else if str_eq(s, "gamma28") {
        Transfers::BT470BG
    } else if str_eq(s, "smpte170m") {
        Transfers::ST170M
    } else if str_eq(s, "smpte240m") {
        Transfers::ST240M
    } else if str_eq(s, "linear") {
        Transfers::Linear
    } else if str_eq(s, "log100") || str_eq(s, "log") {
        Transfers::Logarithmic100
    } else if str_eq(s, "log316") || str_eq(s, "log_sqrt") {
        Transfers::Logarithmic316
    } else if str_eq(s, "iec61966-2-4") || str_eq(s, "iec61966_2_4") {
        Transfers::XVYCC
    } else if str_eq(s, "bt1361e") || str_eq(s, "bt1361") {
        Transfers::BT1361E
    } else if str_eq(s, "iec61966-2-1") || str_eq(s, "iec61966_2_1") {
        Transfers::SRGB
    } else if str_eq(s, "bt2020-10") || str_eq(s, "bt2020_10bit") {
        Transfers::BT2020Ten
    } else if str_eq(s, "bt2020-12") || str_eq(s, "bt2020_12bit") {
        Transfers::BT2020Twelve
    } else if str_eq(s, "smpte2084") {
        Transfers::PerceptualQuantizer
    } else if str_eq(s, "smpte428") || str_eq(s, "smpte428_1") {
        Transfers::ST428
    } else if str_eq(s, "arib-std-b67") {
        Transfers::HybridLogGamma
    } else {
        Transfers::Unspecified
    }
}

impl Matrices {
    /// The broadcast heuristic for an untagged matrix: high definition
    /// means the BT.709 family, 576-line material the BT.470BG family, and
    /// anything else the SD family.
    pub fn from_size(width: usize, height: usize, _matrix: Option<Matrices>) -> (r: Matrices)
        ensures
            r == (if width >= 1280 || height > 576 {
                Matrices::BT709
            } else if height == 576 {
                Matrices::BT470BG
            } else {
                Matrices::ST170M
            }),
    {
        if width >= 1280 || height > 576 {
            Matrices::BT709
        } else if height == 576 {
            Matrices::BT470BG
        } else {
            Matrices::ST170M
        }
    }
}

impl Primaries {
    /// The broadcast heuristic for untagged primaries, keyed off the
    /// resolved matrix first and the frame size second.
    pub fn from_size(width: usize, height: usize, matrix: Option<Matrices>) -> (r: Primaries)
        ensures
            r == spec_primaries_from_size(width as int, height as int, matrix),
    {
        if matrix == Some(Matrices::BT2020NonConstantLuminance) || matrix == Some(
            Matrices::BT2020ConstantLuminance,
        ) {
            Primaries::BT2020
        } else if matrix == Some(Matrices::BT709) || width >= 1280 || height > 576 {
            Primaries::BT709
        } else if height == 576 {
            Primaries::BT470BG
        } else if height == 480 || height == 488 {
            Primaries::ST170M
        } else {
            Primaries::BT709
        }
    }
}

pub open spec fn spec_primaries_from_size(
    width: int,
    height: int,
    matrix: Option<Matrices>,
) -> Primaries {
    if matrix == Some(Matrices::BT2020NonConstantLuminance) || matrix == Some(
        Matrices::BT2020ConstantLuminance,
    ) {
        Primaries::BT2020
    } else if matrix == Some(Matrices::BT709) || width >= 1280 || height > 576 {
        Primaries::BT709
    } else if height == 576 {
        Primaries::BT470BG
    } else if height == 480 || height == 488 {
        Primaries::ST170M
    } else {
        Primaries::BT709
    }
}

/// The rav1e color-range value of a probed range tag.
pub open spec fn spec_rav1e_range(s: Seq<char>) -> Option<Seq<char>> {
    if s == "tv"@ || s == "mpeg"@ || s == "limited"@ {
        Some("limited"@)
    } else if s == "pc"@ || s == "jpeg"@ || s == "full"@ {
        Some("full"@)
    } else {
        None
    }
}

/// The svt-av1 color-range value of a probed range tag.
pub open spec fn spec_svt_range(s: Seq<char>) -> Option<Seq<char>> {
    if s == "tv"@ || s == "mpeg"@ || s == "Limited"@ {
        Some("0"@)
    } else if s == "pc"@ || s == "jpeg"@ || s == "Full"@ {
        Some("1"@)
    } else {
        None
    }
}

/// The svt-av1 matrix-coefficients value of a probed matrix tag.
pub open spec fn spec_svt_matrix(s: Seq<char>) -> Option<Seq<char>> {
    if s == "identity"@ {
        Some("0"@)
    } else if s == "bt709"@ {
        Some("1"@)
    } else if s == "fcc"@ {
        Some("4"@)
    } else if s == "bt470bg"@ {
        Some("5"@)
    } else if s == "bt601"@ {
        Some("6"@)
    } else if s == "smpte240"@ {
        Some("7"@)
    } else if s == "ycgco"@ {
        Some("8"@)
    } else if s == "bt2020ncl"@ {
        Some("9"@)
    } else if s == "bt2020cl"@ {
        Some("10"@)
    } else if s == "smpte2085"@ {
        Some("11"@)
    } else if s == "chromatncl"@ {
        Some("12"@)
    } else if s == "chromatcl"@ {
        Some("13"@)
    } else if s == "ictcp"@ {
        Some("14"@)
    } else {
        None
    }
}

/// The svt-av1 transfer-characteristics value of a probed transfer tag.
pub open spec fn spec_svt_transfer(s: Seq<char>) -> Option<Seq<char>> {
    if s == "bt709"@ {
        Some("1"@)
    } else if s == "bt470m"@ {
        Some("4"@)
    } else if s == "bt470bg"@ {
        Some("5"@)
    } else if s == "bt601"@ {
        Some("6"@)
    } else if s == "smpte240"@ {
        Some("7"@)
    } else if s == "linear"@ {
        Some("8"@)
    } else if s == "log100"@ {
        Some("9"@)
    } else if s == "log100sqrt10"@ {
        Some("10"@)
    } else if s == "iec61966"@ {
        Some("11"@)
    } else if s == "bt1361"@ {
        Some("12"@)
    } else if s == "SRGB"@ {
        Some("13"@)
    } else if s == "bt2020_10bit"@ {
        Some("14"@)
    } else if s == "bt2020_12bit"@ {
        Some("15"@)
    } else if s == "smpte2084"@ {
        Some("16"@)
    } else if s == "smpte428"@ {
        Some("17"@)
    } else if s == "hlg"@ {
        Some("18"@)
    } else {
        None
    }
}

/// The svt-av1 color-primaries value of a probed primaries tag.
pub open spec fn spec_svt_primaries(s: Seq<char>) -> Option<Seq<char>> {
    if s == "bt709"@ {
        Some("1"@)
    } else if s == "bt470m"@ {
        Some("4"@)
    } else if s == "bt470bg"@ {
        Some("5"@)
    } else if s == "bt601"@ {
        Some("6"@)
    } else if s == "smpte240"@ {
        Some("7"@)
    } else if s == "genericfilm"@ {
        Some("8"@)
    } else if s == "bt2020"@ {
        Some("9"@)
    } else if s == "xyz"@ {
        Some("10"@)
    } else if s == "smpte431"@ {
        Some("11"@)
    } else if s == "smpte432"@ {
        Some("12"@)
    } else if s == "ebu3213"@ {
        Some("22"@)
    } else {
        None
    }
}

fn lookup_rav1e_range(s: &str) -> (r: Option<String>)
    ensures
        match r {
            Some(v) => spec_rav1e_range(s@) == Some(v@),
            None => spec_rav1e_range(s@) is None,
        },
{
    if str_eq(s, "tv") || str_eq(s, "mpeg") || str_eq(s, "limited") {
        Some("limited".to_owned())
    } else if str_eq(s, "pc") || str_eq(s, "jpeg") || str_eq(s, "full") {
        Some("full".to_owned())
    } else {
        None
    }
}

fn lookup_svt_range(s: &str) -> (r: Option<String>)
    ensures
        match r {
            Some(v) => spec_svt_range(s@) == Some(v@),
            None => spec_svt_range(s@) is None,
        },
{
    if str_eq(s, "tv") || str_eq(s, "mpeg") || str_eq(s, "Limited") {
        Some("0".to_owned())
    } else if str_eq(s, "pc") || str_eq(s, "jpeg") || str_eq(s, "Full") {
        Some("1".to_owned())
    } else {
        None
    }
}

fn lookup_svt_matrix(s: &str) -> (r: Option<String>)
    ensures
        match r {
            Some(v) => spec_svt_matrix(s@) == Some(v@),
            None => spec_svt_matrix(s@) is None,
        },
{
    if str_eq(s, "identity") {
        Some("0".to_owned())
    } else if str_eq(s, "bt709") {
        Some("1".to_owned())
    } else if str_eq(s, "fcc") {
        Some("4".to_owned())
    } else if str_eq(s, "bt470bg") {
        Some("5".to_owned())
    } else if str_eq(s, "bt601") {
        Some("6".to_owned())
    } else if str_eq(s, "smpte240") {
        Some("7".to_owned())
    } else if str_eq(s, "ycgco") {
        Some("8".to_owned())
    } else if str_eq(s, "bt2020ncl") {
        Some("9".to_owned())
    } else if str_eq(s, "bt2020cl") {
        Some("10".to_owned())
    } else if str_eq(s, "smpte2085") {
        Some("11".to_owned())
    } else if str_eq(s, "chromatncl") {
        Some("12".to_owned())
    } else if str_eq(s, "chromatcl") {
        Some("13".to_owned())
    } else if str_eq(s, "ictcp") {
        Some("14".to_owned())
    } else {
        None
    }
}

fn lookup_svt_transfer(s: &str) -> (r: Option<String>)
    ensures
        match r {
            Some(v) => spec_svt_transfer(s@) == Some(v@),
            None => spec_svt_transfer(s@) is None,
        },
{
    if str_eq(s, "bt709") {
        Some("1".to_owned())
    } else if str_eq(s, "bt470m") {
        Some("4".to_owned())
    } else if str_eq(s, "bt470bg") {
        Some("5".to_owned())
    } else if str_eq(s, "bt601") {
        Some("6".to_owned())
    } else if str_eq(s, "smpte240") {
        Some("7".to_owned())
    } else if str_eq(s, "linear") {
        Some("8".to_owned())
    } else if str_eq(s, "log100") {
        Some("9".to_owned())
    } else if str_eq(s, "log100sqrt10") {
        Some("10".to_owned())
    } else if str_eq(s, "iec61966") {
        Some("11".to_owned())
    } else if str_eq(s, "bt1361") {
        Some("12".to_owned())
    } else if str_eq(s, "SRGB") {
        Some("13".to_owned())
    } else if str_eq(s, "bt2020_10bit") {
        Some("14".to_owned())
    } else if str_eq(s, "bt2020_12bit") {
        Some("15".to_owned())
    } else if str_eq(s, "smpte2084") {
        Some("16".to_owned())
    } else if str_eq(s, "smpte428") {
        Some("17".to_owned())
    } else if str_eq(s, "hlg") {
        Some("18".to_owned())
    } else {
        None
    }
}

fn lookup_svt_primaries(s: &str) -> (r: Option<String>)
    ensures
        match r {
            Some(v) => spec_svt_primaries(s@) == Some(v@),
            None => spec_svt_primaries(s@) is None,
        },
{
    if str_eq(s, "bt709") {
        Some("1".to_owned())
    } else if str_eq(s, "bt470m") {
        Some("4".to_owned())
    } else if str_eq(s, "bt470bg") {
        Some("5".to_owned())
    } else if str_eq(s, "bt601") {
        Some("6".to_owned())
    } else if str_eq(s, "smpte240") {
        Some("7".to_owned())
    } else if str_eq(s, "genericfilm") {
        Some("8".to_owned())
    } else if str_eq(s, "bt2020") {
        Some("9".to_owned())
    } else if str_eq(s, "xyz") {
        Some("10".to_owned())
    } else if str_eq(s, "smpte431") {
        Some("11".to_owned())
    } else if str_eq(s, "smpte432") {
        Some("12".to_owned())
    } else if str_eq(s, "ebu3213") {
        Some("22".to_owned())
    } else {
        None
    }
}

/// The probed tag, or its broadcast-standard default.
pub open spec fn tag_or(t: Option<String>, dflt: Seq<char>) -> Seq<char> {
    match t {
        Some(s) => s@,
        None => dflt,
    }
}

impl Probe {
    /// The four encoder parameter values for the stream's color tags, in
    /// the active encoder family's vocabulary; unknown tag values are
    /// rejected rather than guessed.
    pub fn color_data(&self, rav1e: bool) -> (r: Option<(String, String, String, String)>)
        ensures
            match r {
                Some(v) => spec_color_data(self.stream, rav1e) == Some(
                    (v.0@, v.1@, v.2@, v.3@),
                ),
                None => spec_color_data(self.stream, rav1e) is None,
            },
    {
        let range: String = match &self.stream.color_range {
            Some(s) => clone_str(s.as_str()),
            None => clone_str("tv"),
        };
        let matrix: String = match &self.stream.color_space {
            Some(s) => clone_str(s.as_str()),
            None => clone_str("bt709"),
        };
        let transfer: String = match &self.stream.color_transfer {
            Some(s) => clone_str(s.as_str()),
            None => clone_str("bt709"),
        };
        let primaries: String = match &self.stream.color_primaries {
            Some(s) => clone_str(s.as_str()),
            None => clone_str("bt709"),
        };
        if rav1e {
            match lookup_rav1e_range(range.as_str()) {
                Some(cr) => Some((cr, matrix, transfer, primaries)),
                None => None,
            }
        } else {
            let cr = match lookup_svt_range(range.as_str()) {
                Some(v) => v,
                None => {
                    return None;
                },
            };
            let m = match lookup_svt_matrix(matrix.as_str()) {
                Some(v) => v,
                None => {
                    return None;
                },
            };
            let t = match lookup_svt_transfer(transfer.as_str()) {
                Some(v) => v,
                None => {
                    return None;
                },
            };
            let p = match lookup_svt_primaries(primaries.as_str()) {
                Some(v) => v,
                None => {
                    return None;
                },
            };
            Some((cr, m, t, p))
        }
    }
}

/// The encoder parameter values of a stream's color tags.
pub open spec fn spec_color_data(st: crate::probe::Stream, rav1e: bool) -> Option<
    (Seq<char>, Seq<char>, Seq<char>, Seq<char>),
> {
    let range = tag_or(st.color_range, "tv"@);
    let matrix = tag_or(st.color_space, "bt709"@);
    let transfer = tag_or(st.color_transfer, "bt709"@);
    let primaries = tag_or(st.color_primaries, "bt709"@);
    if rav1e {
        match spec_rav1e_range(range) {
            Some(cr) => Some((cr, matrix, transfer, primaries)),
            None => None,
        }
    } else {
        match (spec_svt_range(range), spec_svt_matrix(matrix), spec_svt_transfer(transfer),
            spec_svt_primaries(primaries)) {
            (Some(cr), Some(m), Some(t), Some(p)) => Some((cr, m, t, p)),
            _ => None,
        }
    }
}

fn clone_str(s: &str) -> (r: String)
    ensures
        r@ == s@,
{
    let mut o = String::new();
    o.append(s);
    proof {
        assert(o@ =~= s@);
    }
    o
}

/// A fully resolved scoring color configuration, as plain values.
#[derive(Clone, Copy, Debug, PartialEq, Eq, Structural)]
pub struct ResolvedColor {
    pub full_range: bool,
    pub matrix: Matrices,
    pub transfer: Transfers,
    pub primaries: Primaries,
}

/// The resolved configuration: each tag is taken when it names something,
/// otherwise inferred from the frame dimensions by the broadcast
/// heuristics; the range is full exactly for the full-range tag spellings.
pub open spec fn spec_resolve_color(
    cr: Seq<char>,
    matrix: Seq<char>,
    transfer: Seq<char>,
    primaries: Seq<char>,
    width: int,
    height: int,
) -> ResolvedColor {
    let full_range = cr == "pc"@ || cr == "jpeg"@ || cr == "full"@;
    let m = if spec_to_matrices(matrix) != Matrices::Unspecified {
        spec_to_matrices(matrix)
    } else if width >= 1280 || height > 576 {
        Matrices::BT709
    } else if height == 576 {
        Matrices::BT470BG
    } else {
        Matrices::ST170M
    };
    let t = spec_to_transfers(transfer);
    let p = if spec_to_primaries(primaries) != Primaries::Unspecified {
        spec_to_primaries(primaries)
    } else {
        spec_primaries_from_size(width, height, Some(m))
    };
    ResolvedColor { full_range, matrix: m, transfer: t, primaries: p }
}

/// Resolve the scoring color configuration from the probed tags and the
/// frame dimensions.
pub fn resolve_color(
    cr: &String,
    matrix: &String,
    transfer: &String,
    primaries: &String,
    width: usize,
    height: usize,
) -> (r: ResolvedColor)
    ensures
        r == spec_resolve_color(cr@, matrix@, transfer@, primaries@, width as int, height as int),
{
    let full_range = str_eq(cr.as_str(), "pc") || str_eq(cr.as_str(), "jpeg") || str_eq(
        cr.as_str(),
        "full",
    );
    let tagged = to_matrices(clone_str(matrix.as_str()));
    let m = if tagged != Matrices::Unspecified {
        tagged
    } else {
        Matrices::from_size(width, height, None)
    };
    let t = to_transfers(clone_str(transfer.as_str()));
    let tagged_p = to_primaries(clone_str(primaries.as_str()));
    let p = if tagged_p != Primaries::Unspecified {
        tagged_p
    } else {
        Primaries::from_size(width, height, Some(m))
    };
    ResolvedColor { full_range, matrix: m, transfer: t, primaries: p }
}

} // verus!
