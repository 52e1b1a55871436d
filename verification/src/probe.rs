//! Probed media-stream data and the track-selection rules built on it:
//! which of two streams carrying the same language and title wins, which
//! tracks are redundant, and the small string utilities the scanner needs.
//!
//! Directory walking and the actual probing are I/O and stay outside; the
//! functions here take the probed records as plain values.

use vstd::prelude::*;
use crate::text::{spec_parse_u64, parse_u64, str_eq, str_ends_with, push_char};
use crate::outside::{regex_first_match, regex_find_first, part3_lang_code, part1_lang_code,
    lang_display_name, lang_from_part3, lang_from_part1, lang_english_name};

verus! {

#[derive(Debug, Clone)]
pub struct Disposition {
    pub forced: u8,
}

#[derive(Debug, Clone)]
pub struct Tags {
    pub bps: Option<String>,
    pub encoder_options: Option<String>,
    pub language: Option<String>,
    pub title: Option<String>,
}

#[derive(Debug, Clone)]
pub struct Stream {
    pub index: u8,
    pub codec_name: String,
    pub codec_type: String,
    pub avg_frame_rate: Option<String>,
    pub start_pts: u16,
    pub channels: Option<u8>,
    pub width: Option<u16>,
    pub height: Option<u16>,
    pub display_aspect_ratio: Option<String>,
    pub pix_fmt: Option<String>,
    pub color_space: Option<String>,
    pub color_range: Option<String>,
    pub color_transfer: Option<String>,
    pub color_primaries: Option<String>,
    pub disposition: Disposition,
    pub tags: Tags,
}

#[derive(Debug, Clone)]
pub struct FileProbe {
    pub streams: Vec<Stream>,
}

/// One probed stream together with the file it came from, its sync offset
/// and its assigned source index.
#[derive(Debug, Clone)]
pub struct Probe {
    pub stream: Stream,
    pub file: String,
    pub offset: u32,
    pub index: Option<u8>,
}

/// The numeric value of a stream's BPS tag: absent means zero, anything
/// unparsable is rejected.
pub open spec fn spec_bps(t: Tags) -> Option<u32> {
    match t.bps {
        None => Some(0u32),
        Some(s) => match spec_parse_u64(s@, 0) {
            Some((v, j)) => if j == s@.len() && v <= u32::MAX {
                Some(v as u32)
            } else {
                None
            },
            None => None,
        },
    }
}

impl Probe {
    /// The stream's bit rate from its BPS tag, zero when untagged.
    pub fn bit_rate(&self) -> (r: u32)
        requires
            spec_bps(self.stream.tags) is Some,
        ensures
            Some(r) == spec_bps(self.stream.tags),
    {
        match &self.stream.tags.bps {
            None => 0,
            Some(s) => {
                let n = s.as_str().unicode_len();
                match parse_u64(s.as_str(), 0) {
                    Some((v, _j)) => v as u32,
                    None => {
                        proof {
                            assert(false);
                        }
                        0
                    },
                }
            },
        }
    }

    /// The pixel format tag, uppercased for a filter script when `vs` is
    /// set: a format ending in `P` gains an explicit `8`, and the one
    /// twelve-bit XYZ name loses its endianness suffix.
    pub fn pix_fmt(&self, vs: bool) -> (r: String)
        ensures
            r@ == spec_pix_fmt(
                match self.stream.pix_fmt {
                    Some(ref p) => Some(p@),
                    None => None,
                },
                vs,
            ),
    {
        match &self.stream.pix_fmt {
            None => {
                let o = String::new();
                proof {
                    assert(o@ =~= Seq::<char>::empty());
                }
                o
            },
            Some(p) => {
                if !vs {
                    let mut out = String::new();
                    out.append(p.as_str());
                    proof {
                        assert(out@ =~= p@);
                    }
                    out
                } else {
                    proof {
                        reveal_strlit("P");
                    }
                    let mut upper = ascii_upper(p.as_str());
                    if str_eq(upper.as_str(), "XYZ12LE") {
                        let mut o = String::new();
                        o.append("XYZ12");
                        proof {
                            assert(o@ =~= "XYZ12"@);
                        }
                        return o;
                    }
                    if str_ends_with(upper.as_str(), "P") {
                        push_char(&mut upper, '8');
                    }
                    upper
                }
            },
        }
    }

    /// The canonical three-letter language code of the stream's language
    /// tag: the part before any subtag, looked up as ISO 639-3 when three
    /// letters long and as ISO 639-1 otherwise, with `und` for anything
    /// unknown.
    pub fn language(&self) -> (r: String)
        ensures
            r@ == spec_language(
                match self.stream.tags.language {
                    Some(ref l) => Some(l@),
                    None => None,
                },
            ),
    {
        match &self.stream.tags.language {
            None => {
                let mut o = String::new();
                o.append("und");
                proof {
                    assert(o@ =~= "und"@);
                }
                o
            },
            Some(l) => {
                let code = prefix_to_dash(l.as_str());
                let looked: Option<String> = if code.unicode_len() == 3 {
                    lang_from_part3(code.as_str())
                } else {
                    lang_from_part1(code.as_str())
                };
                match looked {
                    Some(c) => c,
                    None => {
                        let mut o = String::new();
                        o.append("und");
                        proof {
                            assert(o@ =~= "und"@);
                        }
                        o
                    },
                }
            },
        }
    }
}

/// The characters before the first dash.
pub open spec fn spec_prefix_to_dash(s: Seq<char>) -> Seq<char> {
    if (exists|i: int| 0 <= i < s.len() && s[i] == '-') {
        s.subrange(0, first_dash(s, 0))
    } else {
        s
    }
}

/// Index of the first dash at or after `i`.
pub open spec fn first_dash(s: Seq<char>, i: int) -> int
    decreases s.len() - i,
{
    if 0 <= i < s.len() {
        if s[i] == '-' {
            i
        } else {
            first_dash(s, i + 1)
        }
    } else {
        i
    }
}

fn prefix_to_dash(s: &str) -> (r: String)
    ensures
        r@ == spec_prefix_to_dash(s@),
{
    let n = s.unicode_len();
    let mut out = String::new();
    let mut i: usize = 0;
    while i < n && s.get_char(i) != '-'
        invariant
            i <= n,
            n == s@.len(),
            out@ == s@.subrange(0, i as int),
            forall|t: int| 0 <= t < i ==> s@[t] != '-',
        decreases n - i,
    {
        proof {
            assert(s@.subrange(0, i as int + 1) =~= s@.subrange(0, i as int).push(s@[i as int]));
        }
        push_char(&mut out, s.get_char(i));
        i += 1;
    }
    proof {
        if i < n {
            assert(s@[i as int] == '-');
            lemma_first_dash_found(s@, i as int);
        } else {
            assert(out@ =~= s@);
            if exists|t: int| 0 <= t < s@.len() && s@[t] == '-' {
                let t = choose|t: int| 0 <= t < s@.len() && s@[t] == '-';
                assert(false);
            }
        }
    }
    out
}

proof fn lemma_first_dash_found(s: Seq<char>, i: int)
    requires
        0 <= i < s.len(),
        s[i] == '-',
        forall|t: int| 0 <= t < i ==> s[t] != '-',
    ensures
        first_dash(s, 0) == i,
        exists|t: int| 0 <= t < s.len() && s[t] == '-',
{
    lemma_first_dash_from(s, 0, i);
}

proof fn lemma_first_dash_from(s: Seq<char>, j: int, i: int)
    requires
        0 <= j <= i < s.len(),
        s[i] == '-',
        forall|t: int| j <= t < i ==> s[t] != '-',
    ensures
        first_dash(s, j) == i,
    decreases i - j,
{
    if j < i {
        lemma_first_dash_from(s, j + 1, i);
    }
}

/// The language-code value of an optional language tag.
pub open spec fn spec_language(l: Option<Seq<char>>) -> Seq<char> {
    match l {
        None => "und"@,
        Some(s) => {
            let code = spec_prefix_to_dash(s);
            let looked = if code.len() == 3 {
                part3_lang_code(code)
            } else {
                part1_lang_code(code)
            };
            match looked {
                Some(c) => c,
                None => "und"@,
            }
        },
    }
}

/// The uppercase form of an ASCII letter, other characters unchanged.
pub open spec fn upper_char(c: char) -> char {
    if c == 'a' { 'A' } else if c == 'b' { 'B' } else if c == 'c' { 'C' }
    else if c == 'd' { 'D' } else if c == 'e' { 'E' } else if c == 'f' { 'F' }
    else if c == 'g' { 'G' } else if c == 'h' { 'H' } else if c == 'i' { 'I' }
    else if c == 'j' { 'J' } else if c == 'k' { 'K' } else if c == 'l' { 'L' }
    else if c == 'm' { 'M' } else if c == 'n' { 'N' } else if c == 'o' { 'O' }
    else if c == 'p' { 'P' } else if c == 'q' { 'Q' } else if c == 'r' { 'R' }
    else if c == 's' { 'S' } else if c == 't' { 'T' } else if c == 'u' { 'U' }
    else if c == 'v' { 'V' } else if c == 'w' { 'W' } else if c == 'x' { 'X' }
    else if c == 'y' { 'Y' } else if c == 'z' { 'Z' } else { c }
}

/// ASCII uppercasing, character by character.
pub open spec fn spec_upper(s: Seq<char>) -> Seq<char> {
    s.map_values(|c: char| upper_char(c))
}

fn ascii_upper(s: &str) -> (r: String)
    ensures
        r@ == spec_upper(s@),
{
    let n = s.unicode_len();
    let mut out = String::new();
    let mut i: usize = 0;
    while i < n
        invariant
            i <= n,
            n == s@.len(),
            out@ == spec_upper(s@.subrange(0, i as int)),
        decreases n - i,
    {
        let c = s.get_char(i);
        let u: char = match c {
            'a' => 'A', 'b' => 'B', 'c' => 'C', 'd' => 'D', 'e' => 'E', 'f' => 'F',
            'g' => 'G', 'h' => 'H', 'i' => 'I', 'j' => 'J', 'k' => 'K', 'l' => 'L',
            'm' => 'M', 'n' => 'N', 'o' => 'O', 'p' => 'P', 'q' => 'Q', 'r' => 'R',
            's' => 'S', 't' => 'T', 'u' => 'U', 'v' => 'V', 'w' => 'W', 'x' => 'X',
            'y' => 'Y', 'z' => 'Z', _ => c,
        };
        proof {
            assert(s@.subrange(0, i as int + 1) =~= s@.subrange(0, i as int).push(s@[i as int]));
            assert(spec_upper(s@.subrange(0, i as int + 1)) =~= spec_upper(
                s@.subrange(0, i as int),
            ).push(upper_char(s@[i as int])));
        }
        push_char(&mut out, u);
        i += 1;
    }
    proof {
        assert(s@.subrange(0, n as int) =~= s@);
    }
    out
}

/// The shaped pixel-format text.
pub open spec fn spec_pix_fmt(pf: Option<Seq<char>>, vs: bool) -> Seq<char> {
    match pf {
        None => Seq::empty(),
        Some(p) => if !vs {
            p
        } else {
            let u = spec_upper(p);
            if u == "XYZ12LE"@ {
                "XYZ12"@
            } else if u.len() >= 1 && u.subrange(u.len() - 1, u.len() as int) == "P"@ {
                u.push('8')
            } else {
                u
            }
        },
    }
}

/// The video container extensions this pipeline accepts.
pub open spec fn spec_is_video(ext: Seq<char>) -> bool {
    ||| ext == "mkv"@
    ||| ext == "mp4"@
    ||| ext == "webm"@
    ||| ext == "avi"@
    ||| ext == "mov"@
    ||| ext == "ts"@
    ||| ext == "m2t"@
}

/// Whether a file name carries a video container extension.
pub fn is_video(file: &String) -> (r: bool)
    requires
        spec_ext(file@) is Some,
    ensures
        r == spec_is_video(spec_ext(file@).unwrap()),
{
    let n0 = file.as_str().unicode_len();
    let ext = ext_of(file.as_str());
    let e = match ext {
        Some(e) => e,
        None => {
            proof {
                assert(false);
            }
            String::new()
        },
    };
    str_eq(e.as_str(), "mkv") || str_eq(e.as_str(), "mp4") || str_eq(e.as_str(), "webm") || str_eq(
        e.as_str(),
        "avi",
    ) || str_eq(e.as_str(), "mov") || str_eq(e.as_str(), "ts") || str_eq(e.as_str(), "m2t")
}

/// Index of the last occurrence of `c`, or minus one.
pub open spec fn last_index_of(s: Seq<char>, c: char) -> int
    decreases s.len(),
{
    if s.len() == 0 {
        -1
    } else if s.last() == c {
        s.len() - 1
    } else {
        last_index_of(s.drop_last(), c)
    }
}

/// The name part of a path: everything after the last slash.
pub open spec fn spec_name_part(s: Seq<char>) -> Seq<char> {
    s.subrange(last_index_of(s, '/') + 1, s.len() as int)
}

/// The directory part of a path, including its trailing slash.
pub open spec fn spec_dir_part(s: Seq<char>) -> Seq<char> {
    s.subrange(0, last_index_of(s, '/') + 1)
}

/// The extension: the name part's characters after its last dot, when that
/// dot is neither missing nor leading.
pub open spec fn spec_ext(s: Seq<char>) -> Option<Seq<char>> {
    let name = spec_name_part(s);
    let d = last_index_of(name, '.');
    if d > 0 {
        Some(name.subrange(d + 1, name.len() as int))
    } else {
        None
    }
}

/// The stem: the name part up to its last dot, when that dot is neither
/// missing nor leading, else the whole name part.
pub open spec fn spec_stem(s: Seq<char>) -> Seq<char> {
    let name = spec_name_part(s);
    let d = last_index_of(name, '.');
    if d > 0 {
        name.subrange(0, d)
    } else {
        name
    }
}

/// Find the last occurrence of one character.
fn find_last(s: &str, c: char) -> (r: Option<usize>)
    requires
        s@.len() <= usize::MAX,
    ensures
        match r {
            Some(i) => last_index_of(s@, c) == i && i < s@.len(),
            None => last_index_of(s@, c) == -1,
        },
{
    let n = s.unicode_len();
    let mut best: Option<usize> = None;
    let mut i: usize = 0;
    while i < n
        invariant
            i <= n,
            n == s@.len(),
            match best {
                Some(b) => last_index_of(s@.subrange(0, i as int), c) == b && b < i,
                None => last_index_of(s@.subrange(0, i as int), c) == -1,
            },
        decreases n - i,
    {
        proof {
            assert(s@.subrange(0, i as int + 1).drop_last() =~= s@.subrange(0, i as int));
        }
        if s.get_char(i) == c {
            best = Some(i);
        }
        i += 1;
    }
    proof {
        assert(s@.subrange(0, n as int) =~= s@);
    }
    best
}

/// The substring `[from, to)` as an owned string.
fn substring_owned(s: &str, from: usize, to: usize) -> (r: String)
    requires
        from <= to <= s@.len(),
    ensures
        r@ == s@.subrange(from as int, to as int),
{
    let mut out = String::new();
    let mut i: usize = from;
    while i < to
        invariant
            from <= i <= to <= s@.len(),
            out@ == s@.subrange(from as int, i as int),
        decreases to - i,
    {
        proof {
            assert(s@.subrange(from as int, i as int + 1) =~= s@.subrange(
                from as int,
                i as int,
            ).push(s@[i as int]));
        }
        push_char(&mut out, s.get_char(i));
        i += 1;
    }
    out
}

/// The extension of a path string.
fn ext_of(s: &str) -> (r: Option<String>)
    requires
        s@.len() <= usize::MAX,
    ensures
        match r {
            Some(e) => spec_ext(s@) == Some(e@),
            None => spec_ext(s@) is None,
        },
{
    let n = s.unicode_len();
    let name_start: usize = match find_last(s, '/') {
        Some(i) => i + 1,
        None => 0,
    };
    let name = substring_owned(s, name_start, n);
    proof {
        assert(name@ == spec_name_part(s@));
    }
    match find_last(name.as_str(), '.') {
        Some(d) => {
            if d > 0 {
                Some(substring_owned(name.as_str(), d + 1, name.unicode_len()))
            } else {
                None
            }
        },
        None => None,
    }
}

/// A sibling path: the directory, the stem, and a new ending.
pub fn temp_path(file_path: &String, ext: &str) -> (r: String)
    ensures
        r@ == spec_dir_part(file_path@) + spec_stem(file_path@) + ext@,
{
    let s = file_path.as_str();
    let n0 = s.unicode_len();
    let n = s.unicode_len();
    let name_start: usize = match find_last(s, '/') {
        Some(i) => i + 1,
        None => 0,
    };
    let mut out = substring_owned(s, 0, name_start);
    proof {
        assert(out@ == spec_dir_part(file_path@));
    }
    let name = substring_owned(s, name_start, n);
    proof {
        assert(name@ == spec_name_part(file_path@));
    }
    let stem_end: usize = match find_last(name.as_str(), '.') {
        Some(d) => if d > 0 {
            d
        } else {
            name.unicode_len()
        },
        None => name.unicode_len(),
    };
    let stem = substring_owned(name.as_str(), 0, stem_end);
    proof {
        if last_index_of(name@, '.') <= 0 {
            assert(name@.subrange(0, name@.len() as int) =~= name@);
        }
        assert(stem@ == spec_stem(file_path@));
    }
    out.append(stem.as_str());
    out.append(ext);
    out
}

/// The temporary endings the scanner skips.
pub open spec fn spec_is_temporary(s: Seq<char>) -> bool {
    ||| ends_in(s, "_enc.mkv"@)
    ||| ends_in(s, "_grained.mkv"@)
    ||| ends_in(s, "_lowest.mkv"@)
    ||| ends_in(s, "_low.mkv"@)
    ||| ends_in(s, "_high.mkv"@)
    ||| ends_in(s, "_highest.mkv"@)
    ||| ends_in(s, "_grainy.mkv"@)
    ||| ends_in(s, "_cleaned.mkv"@)
    ||| ends_in(s, "_clip.mkv"@)
    ||| ends_in(s, ".ffprobe"@)
    ||| ends_in(s, ".offset"@)
    ||| ends_in(s, ".ssimu2"@)
}

pub open spec fn ends_in(s: Seq<char>, suffix: Seq<char>) -> bool {
    s.len() >= suffix.len() && s.subrange(s.len() - suffix.len(), s.len() as int) == suffix
}

/// Whether a file name is one of this pipeline's own temporary products.
pub fn is_temporary_file(file: &String) -> (r: bool)
    ensures
        r == spec_is_temporary(file@),
{
    let s = file.as_str();
    str_ends_with(s, "_enc.mkv") || str_ends_with(s, "_grained.mkv") || str_ends_with(
        s,
        "_lowest.mkv",
    ) || str_ends_with(s, "_low.mkv") || str_ends_with(s, "_high.mkv") || str_ends_with(
        s,
        "_highest.mkv",
    ) || str_ends_with(s, "_grainy.mkv") || str_ends_with(s, "_cleaned.mkv") || str_ends_with(
        s,
        "_clip.mkv",
    ) || str_ends_with(s, ".ffprobe") || str_ends_with(s, ".offset") || str_ends_with(
        s,
        ".ssimu2",
    )
}

/// The positions, in order, of the probed streams carrying one medium.
pub open spec fn medium_idxs(ss: Seq<Stream>, medium: Seq<char>) -> Seq<int>
    decreases ss.len(),
{
    if ss.len() == 0 {
        Seq::empty()
    } else {
        let prev = medium_idxs(ss.drop_last(), medium);
        if ss.last().codec_type@ == medium {
            prev.push(ss.len() - 1)
        } else {
            prev
        }
    }
}

/// Every listed position is in range and carries the medium, and every
/// in-range position carrying the medium is listed.
pub proof fn lemma_medium_idxs(ss: Seq<Stream>, medium: Seq<char>)
    ensures
        forall|k: int|
            0 <= k < medium_idxs(ss, medium).len() ==> 0 <= #[trigger] medium_idxs(ss, medium)[k]
                < ss.len() && ss[medium_idxs(ss, medium)[k]].codec_type@ == medium,
        forall|j: int|
            0 <= j < ss.len() && (#[trigger] ss[j]).codec_type@ == medium ==> medium_idxs(
                ss,
                medium,
            ).contains(j),
    decreases ss.len(),
{
    if ss.len() > 0 {
        lemma_medium_idxs(ss.drop_last(), medium);
        let prev = medium_idxs(ss.drop_last(), medium);
        assert forall|j: int|
            0 <= j < ss.len() && (#[trigger] ss[j]).codec_type@ == medium implies medium_idxs(
            ss,
            medium,
        ).contains(j) by {
            if j == ss.len() - 1 {
                assert(medium_idxs(ss, medium).last() == j);
            } else {
                assert(ss.drop_last()[j] == ss[j]);
                assert(prev.contains(j));
                let k = choose|k: int| 0 <= k < prev.len() && prev[k] == j;
                assert(medium_idxs(ss, medium)[k] == j);
            }
        }
    }
}

/// The streams of one medium from a probed file, wrapped with their source
/// path and sync offset: one result per matching stream, in probe order,
/// and nothing else.
pub fn get_medium_streams(
    ffprobe_input: &FileProbe,
    file_path: &String,
    medium: &str,
    offset: Option<u32>,
) -> (r: Vec<Probe>)
    ensures
        r@.len() == medium_idxs(ffprobe_input.streams@, medium@).len(),
        forall|k: int|
            0 <= k < r@.len() ==> (#[trigger] r@[k]).file@ == file_path@ && r@[k].index is None
                && r@[k].offset == (match offset {
                Some(o) => o,
                None => 0u32,
            }) && stream_like(
                r@[k].stream,
                ffprobe_input.streams@[medium_idxs(ffprobe_input.streams@, medium@)[k]],
            ),
{
    let off = match offset {
        Some(o) => o,
        None => 0,
    };
    let mut r: Vec<Probe> = Vec::new();
    let n = ffprobe_input.streams.len();
    let mut i: usize = 0;
    proof {
        assert(ffprobe_input.streams@.subrange(0, 0) =~= Seq::<Stream>::empty());
    }
    while i < n
        invariant
            i <= n,
            n == ffprobe_input.streams@.len(),
            off == (match offset {
                Some(o) => o,
                None => 0u32,
            }),
            r@.len() == medium_idxs(ffprobe_input.streams@.subrange(0, i as int), medium@).len(),
            forall|k: int|
                0 <= k < r@.len() ==> (#[trigger] r@[k]).file@ == file_path@ && r@[k].index is None
                    && r@[k].offset == off && 0 <= medium_idxs(
                    ffprobe_input.streams@.subrange(0, i as int),
                    medium@,
                )[k] < n && stream_like(
                    r@[k].stream,
                    ffprobe_input.streams@[medium_idxs(
                        ffprobe_input.streams@.subrange(0, i as int),
                        medium@,
                    )[k]],
                ),
        decreases n - i,
    {
        let ghost pre = ffprobe_input.streams@.subrange(0, i as int);
        let ghost post = ffprobe_input.streams@.subrange(0, i as int + 1);
        proof {
            assert(post.drop_last() =~= pre);
            assert(post.last() == ffprobe_input.streams@[i as int]);
        }
        let st = &ffprobe_input.streams[i];
        if str_eq(st.codec_type.as_str(), medium) {
            let copy = clone_stream(st);
            let mut f = String::new();
            f.append(file_path.as_str());
            proof {
                assert(f@ =~= file_path@);
            }
            let p = Probe { stream: copy, file: f, offset: off, index: None };
            proof {
                assert(stream_like(p.stream, ffprobe_input.streams@[i as int]));
                assert(medium_idxs(post, medium@) =~= medium_idxs(pre, medium@).push(i as int));
            }
            let ghost r0 = r@;
            r.push(p);
            proof {
                assert forall|k: int| 0 <= k < r@.len() implies (#[trigger] r@[k]).file@
                    == file_path@ && r@[k].index is None && r@[k].offset == off && 0
                    <= medium_idxs(post, medium@)[k] < n && stream_like(
                    r@[k].stream,
                    ffprobe_input.streams@[medium_idxs(post, medium@)[k]],
                ) by {
                    if k < r@.len() - 1 {
                        assert(r@[k] == r0[k]);
                        assert(medium_idxs(post, medium@)[k] == medium_idxs(pre, medium@)[k]);
                    } else {
                        assert(medium_idxs(post, medium@)[k] == i as int);
                    }
                }
            }
        } else {
            proof {
                assert(medium_idxs(post, medium@) == medium_idxs(pre, medium@));
            }
        }
        i += 1;
    }
    proof {
        assert(ffprobe_input.streams@.subrange(0, n as int) =~= ffprobe_input.streams@);
    }
    r
}

/// View-level likeness of two streams in every field but the title.
pub open spec fn stream_like_sans_title(a: Stream, b: Stream) -> bool {
    &&& a.index == b.index
    &&& a.codec_name@ == b.codec_name@
    &&& a.codec_type@ == b.codec_type@
    &&& opt_str_like(a.avg_frame_rate, b.avg_frame_rate)
    &&& a.start_pts == b.start_pts
    &&& a.channels == b.channels
    &&& a.width == b.width
    &&& a.height == b.height
    &&& opt_str_like(a.display_aspect_ratio, b.display_aspect_ratio)
    &&& opt_str_like(a.pix_fmt, b.pix_fmt)
    &&& opt_str_like(a.color_space, b.color_space)
    &&& opt_str_like(a.color_range, b.color_range)
    &&& opt_str_like(a.color_transfer, b.color_transfer)
    &&& opt_str_like(a.color_primaries, b.color_primaries)
    &&& a.disposition.forced == b.disposition.forced
    &&& opt_str_like(a.tags.bps, b.tags.bps)
    &&& opt_str_like(a.tags.encoder_options, b.tags.encoder_options)
    &&& opt_str_like(a.tags.language, b.tags.language)
}

/// View-level likeness of two streams: every numeric field equal, every
/// text field equal character for character.
pub open spec fn stream_like(a: Stream, b: Stream) -> bool {
    &&& stream_like_sans_title(a, b)
    &&& opt_str_like(a.tags.title, b.tags.title)
}

pub open spec fn opt_str_like(a: Option<String>, b: Option<String>) -> bool {
    match (a, b) {
        (Some(x), Some(y)) => x@ == y@,
        (None, None) => true,
        _ => false,
    }
}

fn clone_opt_string(a: &Option<String>) -> (r: Option<String>)
    ensures
        opt_str_like(r, *a),
{
    match a {
        Some(s) => {
            let mut o = String::new();
            o.append(s.as_str());
            proof {
                assert(o@ =~= s@);
            }
            Some(o)
        },
        None => None,
    }
}

/// A like-for-like copy of a stream record.
pub fn clone_stream(st: &Stream) -> (r: Stream)
    ensures
        stream_like(r, *st),
{
    let mut cn = String::new();
    cn.append(st.codec_name.as_str());
    let mut ct = String::new();
    ct.append(st.codec_type.as_str());
    proof {
        assert(cn@ =~= st.codec_name@);
        assert(ct@ =~= st.codec_type@);
    }
    Stream {
        index: st.index,
        codec_name: cn,
        codec_type: ct,
        avg_frame_rate: clone_opt_string(&st.avg_frame_rate),
        start_pts: st.start_pts,
        channels: st.channels,
        width: st.width,
        height: st.height,
        display_aspect_ratio: clone_opt_string(&st.display_aspect_ratio),
        pix_fmt: clone_opt_string(&st.pix_fmt),
        color_space: clone_opt_string(&st.color_space),
        color_range: clone_opt_string(&st.color_range),
        color_transfer: clone_opt_string(&st.color_transfer),
        color_primaries: clone_opt_string(&st.color_primaries),
        disposition: Disposition { forced: st.disposition.forced },
        tags: Tags {
            bps: clone_opt_string(&st.tags.bps),
            encoder_options: clone_opt_string(&st.tags.encoder_options),
            language: clone_opt_string(&st.tags.language),
            title: clone_opt_string(&st.tags.title),
        },
    }
}

/// The first tagged encoder-options string among the probed streams, empty
/// when none carries one.  The caller hands in the probes of the audio
/// files it scanned.
pub fn check_audio_encoding(streams: &Vec<Probe>) -> (r: String)
    ensures
        r@ == spec_first_opts(streams@),
{
    let n = streams.len();
    let mut i: usize = 0;
    proof {
        assert(streams@.subrange(0, n as int) =~= streams@);
    }
    while i < n
        invariant
            i <= n,
            n == streams@.len(),
            spec_first_opts(streams@) == spec_first_opts(
                streams@.subrange(i as int, n as int),
            ),
        decreases n - i,
    {
        proof {
            assert(streams@.subrange(i as int, n as int).drop_first() =~= streams@.subrange(
                i as int + 1,
                n as int,
            ));
            assert(streams@.subrange(i as int, n as int).first() == streams@[i as int]);
        }
        match &streams[i].stream.tags.encoder_options {
            Some(o) => {
                let mut out = String::new();
                out.append(o.as_str());
                proof {
                    assert(out@ =~= o@);
                }
                return out;
            },
            None => {},
        }
        i += 1;
    }
    proof {
        assert(streams@.subrange(n as int, n as int) =~= Seq::<Probe>::empty());
    }
    String::new()
}

/// The first encoder-options tag among the probes.
pub open spec fn spec_first_opts(s: Seq<Probe>) -> Seq<char>
    decreases s.len(),
{
    if s.len() == 0 {
        Seq::empty()
    } else {
        match s.first().stream.tags.encoder_options {
            Some(o) => o@,
            None => spec_first_opts(s.drop_first()),
        }
    }
}

/// The audio codec preference order; unknown codecs rank last.
pub open spec fn spec_audio_priority(name: Seq<char>) -> int {
    if name == "mlp"@ {
        0
    } else if name == "truehd"@ {
        1
    } else if name == "flac"@ {
        2
    } else if name == "PCM"@ {
        3
    } else if name == "Wave64"@ {
        4
    } else if name == "Wave"@ {
        5
    } else if name == "eac3"@ {
        6
    } else if name == "aac"@ {
        7
    } else if name == "opus"@ {
        8
    } else if name == "ac3"@ {
        9
    } else if name == "vorbis"@ {
        10
    } else if name == "mp3"@ {
        11
    } else if name == "mp2"@ {
        12
    } else if name == "mp1"@ {
        13
    } else {
        14
    }
}

/// The subtitle codec preference order; unknown codecs rank last.
pub open spec fn spec_sub_priority(name: Seq<char>) -> int {
    if name == "ass"@ {
        0
    } else if name == "subrip"@ {
        1
    } else {
        2
    }
}

fn audio_priority(name: &str) -> (r: i32)
    ensures
        r == spec_audio_priority(name@),
{
    if str_eq(name, "mlp") {
        0
    } else if str_eq(name, "truehd") {
        1
    } else if str_eq(name, "flac") {
        2
    } else if str_eq(name, "PCM") {
        3
    } else if str_eq(name, "Wave64") {
        4
    } else if str_eq(name, "Wave") {
        5
    } else if str_eq(name, "eac3") {
        6
    } else if str_eq(name, "aac") {
        7
    } else if str_eq(name, "opus") {
        8
    } else if str_eq(name, "ac3") {
        9
    } else if str_eq(name, "vorbis") {
        10
    } else if str_eq(name, "mp3") {
        11
    } else if str_eq(name, "mp2") {
        12
    } else if str_eq(name, "mp1") {
        13
    } else {
        14
    }
}

fn sub_priority(name: &str) -> (r: i32)
    ensures
        r == spec_sub_priority(name@),
{
    if str_eq(name, "ass") {
        0
    } else if str_eq(name, "subrip") {
        1
    } else {
        2
    }
}

/// Whether the first of two same-track streams wins: audio streams prefer
/// more channels, then codec rank, then bit rate; subtitles keep the first
/// unless the second outranks it.
pub open spec fn spec_pick_first(a: Probe, b: Probe) -> bool {
    if a.stream.codec_type@ == "audio"@ {
        let c1 = a.stream.channels.unwrap();
        let c2 = b.stream.channels.unwrap();
        if c1 != c2 {
            c1 > c2
        } else {
            let p1 = spec_audio_priority(a.stream.codec_name@);
            let p2 = spec_audio_priority(b.stream.codec_name@);
            if p1 != p2 {
                p1 < p2
            } else {
                let b1 = spec_bps(a.stream.tags).unwrap();
                let b2 = spec_bps(b.stream.tags).unwrap();
                if b1 != b2 {
                    b1 > b2
                } else {
                    true
                }
            }
        }
    } else {
        let p1 = spec_sub_priority(a.stream.codec_name@);
        let p2 = spec_sub_priority(b.stream.codec_name@);
        !(p1 < p2)
    }
}

/// Pick the better of two streams that carry the same track.
pub fn compare_streams(probe1: Probe, probe2: Probe) -> (r: Probe)
    requires
        probe1.stream.codec_type@ == "audio"@ ==> probe1.stream.channels is Some
            && probe2.stream.channels is Some && spec_bps(probe1.stream.tags) is Some && spec_bps(
            probe2.stream.tags,
        ) is Some,
    ensures
        r == if spec_pick_first(probe1, probe2) {
            probe1
        } else {
            probe2
        },
{
    if str_eq(probe1.stream.codec_type.as_str(), "audio") {
        let c1 = match probe1.stream.channels {
            Some(c) => c,
            None => {
                proof {
                    assert(false);
                }
                0
            },
        };
        let c2 = match probe2.stream.channels {
            Some(c) => c,
            None => {
                proof {
                    assert(false);
                }
                0
            },
        };
        if c1 != c2 {
            return if c1 > c2 {
                probe1
            } else {
                probe2
            };
        }
        let p1 = audio_priority(probe1.stream.codec_name.as_str());
        let p2 = audio_priority(probe2.stream.codec_name.as_str());
        if p1 != p2 {
            return if p1 < p2 {
                probe1
            } else {
                probe2
            };
        }
        let b1 = probe1.bit_rate();
        let b2 = probe2.bit_rate();
        if b1 != b2 {
            return if b1 > b2 {
                probe1
            } else {
                probe2
            };
        }
        probe1
    } else {
        let p1 = sub_priority(probe1.stream.codec_name.as_str());
        let p2 = sub_priority(probe2.stream.codec_name.as_str());
        if p1 < p2 {
            probe2
        } else {
            probe1
        }
    }
}

/// The title-tag pattern: a parenthesised word group or one of the fixed
/// markers, case-insensitively.
pub open spec fn spec_tag_part(title: Seq<char>) -> Seq<char> {
    match regex_first_match(
        "(?i)(\\(([a-z]| |_)+\\)|Forced|Dub|Simplified|Traditional)"@,
        title,
    ) {
        None => Seq::empty(),
        Some(m) => if m.len() > 0 && m[0] == '(' {
            seq![' '] + m
        } else {
            seq![' ', '('] + m + seq![')']
        },
    }
}

/// The display title of a track: the language's English name, with any
/// recognised tag from the original title in parentheses.
pub open spec fn spec_new_title(code: Seq<char>, title: Seq<char>) -> Seq<char> {
    (match lang_display_name(code) {
        Some(n) => n,
        None => Seq::empty(),
    }) + spec_tag_part(title)
}

/// Build a track's display title from its language code and original
/// title.
pub fn get_title(lang_code: &str, title: &str) -> (r: String)
    ensures
        r@ == spec_new_title(lang_code@, title@),
{
    let mut out = match lang_english_name(lang_code) {
        Some(n) => n,
        None => String::new(),
    };
    match regex_find_first("(?i)(\\(([a-z]| |_)+\\)|Forced|Dub|Simplified|Traditional)", title) {
        None => {},
        Some(m) => {
            if m.unicode_len() > 0 && m.as_str().get_char(0) == '(' {
                push_char(&mut out, ' ');
                out.append(m.as_str());
            } else {
                push_char(&mut out, ' ');
                push_char(&mut out, '(');
                out.append(m.as_str());
                push_char(&mut out, ')');
                proof {
                    assert(out@ =~= (match lang_display_name(lang_code@) {
                        Some(n) => n,
                        None => Seq::<char>::empty(),
                    }) + (seq![' ', '('] + m@ + seq![')']));
                }
            }
        },
    }
    out
}

/// The identity of a rewritten track: its language, its (display) title as
/// it now stands, and its forced flag.
pub open spec fn spec_track_key(p: Probe) -> (Seq<char>, Seq<char>, bool) {
    (
        spec_language(
            match p.stream.tags.language {
                Some(l) => Some(l@),
                None => None,
            },
        ),
        match p.stream.tags.title {
            Some(t) => t@,
            None => Seq::empty(),
        },
        p.stream.disposition.forced == 1,
    )
}

/// The identity a raw probe will have once its title is rewritten.
pub open spec fn spec_rewritten_key(p: Probe) -> (Seq<char>, Seq<char>, bool) {
    (
        spec_language(
            match p.stream.tags.language {
                Some(l) => Some(l@),
                None => None,
            },
        ),
        spec_new_title(
            spec_language(
                match p.stream.tags.language {
                    Some(l) => Some(l@),
                    None => None,
                },
            ),
            match p.stream.tags.title {
                Some(t) => t@,
                None => Seq::empty(),
            },
        ),
        p.stream.disposition.forced == 1,
    )
}

/// One probe rewritten from another: the same stream and wrapper fields,
/// except that the title now holds the display title built from the
/// original's language and title.
pub open spec fn rewritten_from(p: Probe, q: Probe) -> bool {
    &&& p.file@ == q.file@
    &&& p.offset == q.offset
    &&& p.index == q.index
    &&& stream_like_sans_title(p.stream, q.stream)
    &&& p.stream.tags.title is Some
    &&& p.stream.tags.title.unwrap()@ == spec_new_title(
        spec_language(
            match q.stream.tags.language {
                Some(l) => Some(l@),
                None => None,
            },
        ),
        match q.stream.tags.title {
            Some(t) => t@,
            None => Seq::empty(),
        },
    )
}

/// The fields the pairwise comparison reads, view for view.
pub open spec fn pick_fields_like(a: Probe, b: Probe) -> bool {
    &&& a.stream.codec_type@ == b.stream.codec_type@
    &&& a.stream.channels == b.stream.channels
    &&& a.stream.codec_name@ == b.stream.codec_name@
    &&& opt_str_like(a.stream.tags.bps, b.stream.tags.bps)
}

/// The comparison reads only its decision fields.
proof fn lemma_pick_congruent(a: Probe, b: Probe, a2: Probe, b2: Probe)
    requires
        pick_fields_like(a, a2),
        pick_fields_like(b, b2),
    ensures
        spec_pick_first(a, b) == spec_pick_first(a2, b2),
{
    lemma_bps_congruent(a.stream.tags, a2.stream.tags);
    lemma_bps_congruent(b.stream.tags, b2.stream.tags);
}

/// The BPS value depends on the tag's characters alone.
proof fn lemma_bps_congruent(t: Tags, t2: Tags)
    requires
        opt_str_like(t.bps, t2.bps),
    ensures
        spec_bps(t) == spec_bps(t2),
{
    match (t.bps, t2.bps) {
        (Some(s1), Some(s2)) => {
            assert(s1@ == s2@);
        },
        _ => {},
    }
}

/// The survivor of one track identity after walking the first `upto`
/// streams: the pairwise-comparison fold over the streams whose rewritten
/// identity is `key`, in order.
pub open spec fn group_winner(
    s: Seq<Probe>,
    upto: int,
    key: (Seq<char>, Seq<char>, bool),
) -> Option<Probe>
    decreases upto,
{
    if upto <= 0 {
        None
    } else {
        let prev = group_winner(s, upto - 1, key);
        if spec_rewritten_key(s[upto - 1]) == key {
            match prev {
                None => Some(s[upto - 1]),
                Some(w) => Some(
                    if spec_pick_first(w, s[upto - 1]) {
                        w
                    } else {
                        s[upto - 1]
                    },
                ),
            }
        } else {
            prev
        }
    }
}

/// A survivor exists exactly when the identity occurs, and carries it.
proof fn lemma_group_winner_shape(s: Seq<Probe>, upto: int, key: (Seq<char>, Seq<char>, bool))
    requires
        0 <= upto <= s.len(),
    ensures
        group_winner(s, upto, key) is Some <==> exists|j: int|
            0 <= j < upto && spec_rewritten_key(#[trigger] s[j]) == key,
        match group_winner(s, upto, key) {
            Some(w) => spec_rewritten_key(w) == key && exists|j: int|
                0 <= j < upto && s[j] == w,
            None => true,
        },
    decreases upto,
{
    if upto > 0 {
        lemma_group_winner_shape(s, upto - 1, key);
        if spec_rewritten_key(s[upto - 1]) == key {
            assert(spec_rewritten_key(s[upto - 1]) == key);
        }
        match group_winner(s, upto, key) {
            Some(w) => {
                if spec_rewritten_key(s[upto - 1]) == key {
                    match group_winner(s, upto - 1, key) {
                        Some(w0) => {
                            if spec_pick_first(w0, s[upto - 1]) {
                                let j = choose|j: int| 0 <= j < upto - 1 && s[j] == w0;
                                assert(s[j] == w);
                            } else {
                                assert(s[upto - 1] == w);
                            }
                        },
                        None => {
                            assert(s[upto - 1] == w);
                        },
                    }
                } else {
                    let j = choose|j: int| 0 <= j < upto - 1 && s[j] == w;
                    assert(s[j] == w);
                }
            },
            None => {},
        }
    }
}

/// Drop redundant tracks: rewrite every stream's title to its display
/// title, then keep one stream per distinct track identity — the winner of
/// the pairwise comparison fold over that identity's streams, in order of
/// first appearance.
pub fn filter_redundant_tracks(streams: &Vec<Probe>) -> (r: Vec<Probe>)
    requires
        forall|i: int|
            0 <= i < streams@.len() ==> (#[trigger] streams@[i]).stream.codec_type@
                == "audio"@ ==> streams@[i].stream.channels is Some && spec_bps(
                streams@[i].stream.tags,
            ) is Some,
        forall|i: int, j: int|
            0 <= i < streams@.len() && 0 <= j < streams@.len() ==> (
            #[trigger] streams@[i]).stream.codec_type@ == (
            #[trigger] streams@[j]).stream.codec_type@,
    ensures
        r@.len() <= streams@.len(),
        forall|i: int, j: int|
            0 <= i < j < r@.len() ==> spec_track_key(#[trigger] r@[i]) != spec_track_key(
                #[trigger] r@[j],
            ),
        forall|j: int|
            0 <= j < streams@.len() ==> exists|a: int|
                0 <= a < r@.len() && spec_track_key(#[trigger] r@[a]) == spec_rewritten_key(
                    #[trigger] streams@[j],
                ),
        forall|a: int|
            0 <= a < r@.len() ==> group_winner(
                streams@,
                streams@.len() as int,
                spec_track_key(#[trigger] r@[a]),
            ) is Some && rewritten_from(
                r@[a],
                group_winner(streams@, streams@.len() as int, spec_track_key(r@[a])).unwrap(),
            ),
{
    let n = streams.len();
    let mut out: Vec<Probe> = Vec::new();
    let mut i: usize = 0;
    while i < n
        invariant
            i <= n,
            n == streams@.len(),
            forall|k: int|
                0 <= k < streams@.len() ==> (#[trigger] streams@[k]).stream.codec_type@
                    == "audio"@ ==> streams@[k].stream.channels is Some && spec_bps(
                    streams@[k].stream.tags,
                ) is Some,
            out@.len() <= i,
            forall|a: int, b: int|
                0 <= a < b < out@.len() ==> spec_track_key(#[trigger] out@[a]) != spec_track_key(
                    #[trigger] out@[b],
                ),
            forall|a: int|
                0 <= a < out@.len() ==> (#[trigger] out@[a]).stream.codec_type@ == "audio"@
                    ==> out@[a].stream.channels is Some && spec_bps(out@[a].stream.tags) is Some,
            forall|a: int, j: int|
                0 <= a < out@.len() && 0 <= j < streams@.len() ==> (
                #[trigger] out@[a]).stream.codec_type@ == (
                #[trigger] streams@[j]).stream.codec_type@,
            forall|a: int, b: int|
                0 <= a < streams@.len() && 0 <= b < streams@.len() ==> (
                #[trigger] streams@[a]).stream.codec_type@ == (
                #[trigger] streams@[b]).stream.codec_type@,
            forall|j: int|
                0 <= j < i ==> exists|a: int|
                    0 <= a < out@.len() && spec_track_key(#[trigger] out@[a])
                        == spec_rewritten_key(#[trigger] streams@[j]),
            forall|a: int|
                0 <= a < out@.len() ==> group_winner(
                    streams@,
                    i as int,
                    spec_track_key(#[trigger] out@[a]),
                ) is Some && rewritten_from(
                    out@[a],
                    group_winner(streams@, i as int, spec_track_key(out@[a])).unwrap(),
                ),
        decreases n - i,
    {
        let cand = probe_with_title(&streams[i]);
        proof {
            assert(spec_track_key(cand) == spec_rewritten_key(streams@[i as int]));
        }
        let mut found: Option<usize> = None;
        let mut k: usize = 0;
        while k < out.len() && found.is_none()
            invariant
                k <= out@.len(),
                match found {
                    Some(f) => f < out@.len() && spec_track_key(out@[f as int]) == spec_track_key(
                        cand,
                    ),
                    None => forall|a: int|
                        0 <= a < k ==> spec_track_key(#[trigger] out@[a]) != spec_track_key(cand),
                },
            decreases out@.len() - k, (if found is None { 1int } else { 0int }),
        {
            if track_key_eq(&out[k], &cand) {
                found = Some(k);
            } else {
                k += 1;
            }
        }
        let ghost out0 = out@;
        let ghost key_i = spec_rewritten_key(streams@[i as int]);
        match found {
            Some(f) => {
                let prev = out.remove(f);
                proof {
                    // The current survivor of this identity, and the
                    // congruences connecting the rewritten copies to the
                    // originals the fold speaks of.
                    assert(group_winner(streams@, i as int, spec_track_key(out0[f as int]))
                        is Some);
                    let w0 = group_winner(streams@, i as int, key_i).unwrap();
                    assert(rewritten_from(prev, w0));
                    assert(pick_fields_like(prev, w0));
                    assert(pick_fields_like(cand, streams@[i as int]));
                    lemma_pick_congruent(prev, cand, w0, streams@[i as int]);
                    lemma_group_winner_shape(streams@, i as int, key_i);
                }
                let winner = compare_streams(prev, cand);
                out.insert(f, winner);
                proof {
                    assert(out@ =~= out0.update(f as int, winner));
                    assert(spec_track_key(winner) == spec_track_key(out0[f as int]));
                    assert forall|a: int, b: int| 0 <= a < b < out@.len() implies spec_track_key(
                        #[trigger] out@[a],
                    ) != spec_track_key(#[trigger] out@[b]) by {
                        if a != f && b != f {
                            assert(out@[a] == out0[a] && out@[b] == out0[b]);
                        } else if a == f {
                            assert(out@[b] == out0[b]);
                        } else {
                            assert(out@[a] == out0[a]);
                        }
                    }
                    assert forall|a: int, j: int|
                        0 <= a < out@.len() && 0 <= j < streams@.len() implies (
                    #[trigger] out@[a]).stream.codec_type@ == (
                    #[trigger] streams@[j]).stream.codec_type@ by {
                        if a != f {
                            assert(out@[a] == out0[a]);
                        }
                    }
                    // The fold advances only for this identity.
                    assert forall|a: int|
                        0 <= a < out@.len() implies group_winner(
                        streams@,
                        i as int + 1,
                        spec_track_key(#[trigger] out@[a]),
                    ) is Some && rewritten_from(
                        out@[a],
                        group_winner(streams@, i as int + 1, spec_track_key(out@[a])).unwrap(),
                    ) by {
                        if a != f {
                            assert(out@[a] == out0[a]);
                            assert(spec_track_key(out0[a]) != spec_track_key(out0[f as int]));
                        }
                    }
                    assert forall|j: int|
                        0 <= j < i + 1 implies exists|a: int|
                        0 <= a < out@.len() && spec_track_key(#[trigger] out@[a])
                            == spec_rewritten_key(#[trigger] streams@[j]) by {
                        if j < i {
                            let a0 = choose|a0: int|
                                0 <= a0 < out0.len() && spec_track_key(out0[a0])
                                    == spec_rewritten_key(streams@[j]);
                            if a0 == f {
                                assert(spec_track_key(out@[f as int]) == spec_rewritten_key(
                                    streams@[j],
                                ));
                            } else {
                                assert(spec_track_key(out@[a0]) == spec_rewritten_key(
                                    streams@[j],
                                ));
                            }
                        } else {
                            assert(spec_track_key(out@[f as int]) == key_i);
                        }
                    }
                }
            },
            None => {
                proof {
                    assert(forall|a: int|
                        0 <= a < out0.len() ==> spec_track_key(#[trigger] out0[a])
                            != spec_track_key(cand));
                    // This identity has not occurred yet, or the scan would
                    // have found its survivor.
                    lemma_group_winner_shape(streams@, i as int, key_i);
                    if exists|j: int|
                        0 <= j < i && spec_rewritten_key(#[trigger] streams@[j]) == key_i {
                        let j = choose|j: int|
                            0 <= j < i && spec_rewritten_key(#[trigger] streams@[j]) == key_i;
                        let a0 = choose|a0: int|
                            0 <= a0 < out0.len() && spec_track_key(out0[a0])
                                == spec_rewritten_key(streams@[j]);
                        assert(false);
                    }
                    assert(group_winner(streams@, i as int, key_i) is None);
                }
                out.push(cand);
                proof {
                    assert forall|a: int, b: int| 0 <= a < b < out@.len() implies spec_track_key(
                        #[trigger] out@[a],
                    ) != spec_track_key(#[trigger] out@[b]) by {
                        if b == out@.len() - 1 {
                            assert(out@[a] == out0[a]);
                            assert(spec_track_key(out0[a]) != spec_track_key(cand));
                        } else {
                            assert(out@[a] == out0[a] && out@[b] == out0[b]);
                        }
                    }
                    assert forall|a: int, j: int|
                        0 <= a < out@.len() && 0 <= j < streams@.len() implies (
                    #[trigger] out@[a]).stream.codec_type@ == (
                    #[trigger] streams@[j]).stream.codec_type@ by {
                        if a < out@.len() - 1 {
                            assert(out@[a] == out0[a]);
                        } else {
                            assert(out@[a].stream.codec_type@
                                == streams@[i as int].stream.codec_type@);
                        }
                    }
                    assert(group_winner(streams@, i as int + 1, key_i) == Some(
                        streams@[i as int],
                    ));
                    assert forall|a: int|
                        0 <= a < out@.len() implies group_winner(
                        streams@,
                        i as int + 1,
                        spec_track_key(#[trigger] out@[a]),
                    ) is Some && rewritten_from(
                        out@[a],
                        group_winner(streams@, i as int + 1, spec_track_key(out@[a])).unwrap(),
                    ) by {
                        if a < out@.len() - 1 {
                            assert(out@[a] == out0[a]);
                            assert(spec_track_key(out0[a]) != key_i);
                        } else {
                            assert(out@[a] == cand);
                            assert(rewritten_from(cand, streams@[i as int]));
                        }
                    }
                    assert forall|j: int|
                        0 <= j < i + 1 implies exists|a: int|
                        0 <= a < out@.len() && spec_track_key(#[trigger] out@[a])
                            == spec_rewritten_key(#[trigger] streams@[j]) by {
                        if j < i {
                            let a0 = choose|a0: int|
                                0 <= a0 < out0.len() && spec_track_key(out0[a0])
                                    == spec_rewritten_key(streams@[j]);
                            assert(spec_track_key(out@[a0]) == spec_rewritten_key(streams@[j]));
                        } else {
                            assert(spec_track_key(out@[out@.len() - 1]) == key_i);
                        }
                    }
                }
            },
        }
        i += 1;
    }
    out
}

/// A copy of the probe with its title rewritten to the display title.
fn probe_with_title(p: &Probe) -> (r: Probe)
    ensures
        spec_track_key(r) == spec_rewritten_key(*p),
        rewritten_from(r, *p),
        pick_fields_like(r, *p),
{
    let code = p.language();
    let title_in: String = match &p.stream.tags.title {
        Some(t) => {
            let mut o = String::new();
            o.append(t.as_str());
            proof {
                assert(o@ =~= t@);
            }
            o
        },
        None => String::new(),
    };
    proof {
        if p.stream.tags.title is None {
            assert(title_in@ =~= Seq::<char>::empty());
        }
    }
    let new_title = get_title(code.as_str(), title_in.as_str());
    let mut st = clone_stream(&p.stream);
    st.tags.title = Some(new_title);
    let mut f = String::new();
    f.append(p.file.as_str());
    proof {
        assert(f@ =~= p.file@);
    }
    let r = Probe { stream: st, file: f, offset: p.offset, index: p.index };
    proof {
        assert(spec_track_key(r) == spec_rewritten_key(*p));
        assert(rewritten_from(r, *p));
    }
    r
}

/// Whether two probes carry the same track identity.
fn track_key_eq(a: &Probe, b: &Probe) -> (r: bool)
    ensures
        r == (spec_track_key(*a) == spec_track_key(*b)),
{
    let la = a.language();
    let lb = b.language();
    let teq: bool = match (&a.stream.tags.title, &b.stream.tags.title) {
        (Some(ta), Some(tb)) => str_eq(ta.as_str(), tb.as_str()),
        (None, None) => true,
        (Some(ta), None) => ta.unicode_len() == 0,
        (None, Some(tb)) => tb.unicode_len() == 0,
    };
    proof {
        if a.stream.tags.title is Some && b.stream.tags.title is None {
            let ta = a.stream.tags.title.unwrap();
            if ta@.len() == 0 {
                assert(ta@ =~= Seq::<char>::empty());
            }
        }
        if a.stream.tags.title is None && b.stream.tags.title is Some {
            let tb = b.stream.tags.title.unwrap();
            if tb@.len() == 0 {
                assert(tb@ =~= Seq::<char>::empty());
            }
        }
    }
    str_eq(la.as_str(), lb.as_str()) && teq && ((a.stream.disposition.forced == 1) == (
    b.stream.disposition.forced == 1))
}

/// The opus re-encode decision: the bitrate to transcode to, if any, from
/// the channel count and the tagged bit rate.
pub open spec fn spec_opus_bitrate(channels: u8, bps: u32) -> Option<u32> {
    if channels < 6 && (bps == 0 || bps > 128000) {
        Some(128u32)
    } else if channels == 6 && (bps == 0 || bps > 256000) {
        Some(256u32)
    } else if (channels > 6 && bps == 0) || (channels < 6 && bps > 320000) {
        Some(320u32)
    } else {
        None
    }
}

/// Decide whether and at which bitrate an audio stream is re-encoded.
pub fn opus_bitrate(channels: u8, bps: u32) -> (r: Option<u32>)
    ensures
        r == spec_opus_bitrate(channels, bps),
{
    if channels < 6 && (bps == 0 || bps > 128000) {
        Some(128)
    } else if channels == 6 && (bps == 0 || bps > 256000) {
        Some(256)
    } else if (channels > 6 && bps == 0) || (channels < 6 && bps > 320000) {
        Some(320)
    } else {
        None
    }
}

/// Rescale to a sixteen-by-nine frame: a missing width or height is derived
/// from the other as the floor of the exact ratio.
pub fn get_descale_dimensions(height: &Option<u16>, width: &Option<u16>) -> (r: (u16, u16))
    requires
        height is Some || width is Some,
        (match *height {
            Some(h) => h as int * 16 / 9 <= u16::MAX,
            None => true,
        }),
    ensures
        match (*height, *width) {
            (Some(h), None) => r == (h, ((h as int * 16 / 9) as u16)),
            (None, Some(w)) => r == (((w as int * 9 / 16) as u16), w),
            (Some(h), Some(w)) => r == (h, w),
            (None, None) => false,
        },
{
    match (height, width) {
        (Some(h), None) => {
            let wv = (*h as u32 * 16) / 9;
            proof {
                crate::num_util::lemma_floor_div_bounds(*h as int * 16, 9);
            }
            (*h, wv as u16)
        },
        (None, Some(w)) => {
            let hv = (*w as u32 * 9) / 16;
            proof {
                crate::num_util::lemma_floor_div_bounds(*w as int * 9, 16);
            }
            (hv as u16, *w)
        },
        (Some(h), Some(w)) => (*h, *w),
        (None, None) => {
            proof {
                assert(false);
            }
            (0, 0)
        },
    }
}

/// Whether a file name matches an episode: either the season-episode tag or
/// the bare number with no digit on either side.
pub fn match_episode(file_name: &String, episode_number: &String, season: &String) -> (r: bool)
    ensures
        r == (regex_first_match(
            "(?i)S"@ + season@ + "E"@ + episode_number@,
            file_name@,
        ) is Some || regex_first_match(
            "(?i)(?<!\\d)\\b"@ + episode_number@ + "\\b(?!\\d)"@,
            file_name@,
        ) is Some),
{
    let mut p1 = String::new();
    p1.append("(?i)S");
    p1.append(season.as_str());
    p1.append("E");
    p1.append(episode_number.as_str());
    let mut p2 = String::new();
    p2.append("(?i)(?<!\\d)\\b");
    p2.append(episode_number.as_str());
    p2.append("\\b(?!\\d)");
    proof {
        assert(p1@ =~= "(?i)S"@ + season@ + "E"@ + episode_number@);
        assert(p2@ =~= "(?i)(?<!\\d)\\b"@ + episode_number@ + "\\b(?!\\d)"@);
    }
    let m1 = regex_find_first(p1.as_str(), file_name.as_str());
    if m1.is_some() {
        return true;
    }
    let m2 = regex_find_first(p2.as_str(), file_name.as_str());
    m2.is_some()
}

/// The number a file name yields under the episode patterns, tried in
/// order: the season-episode tag, a dash-number, then a bare two-digit
/// number not preceded by an S.
pub open spec fn spec_episode_match(base: Seq<char>, season: Seq<char>) -> Option<Seq<char>> {
    match crate::outside::regex_first_group(
        "(?i)S"@ + season + "E(\\d{2})(?!\\d)"@,
        base,
    ) {
        Some(m) => Some(m),
        None => match crate::outside::regex_first_group(" - (\\d{2})(?!\\d)"@, base) {
            Some(m) => Some(m),
            None => crate::outside::regex_first_group("(?i)[^S](\\d{2})(?!\\d)"@, base),
        },
    }
}

/// The episode label for a file: under pattern one the bare number, under
/// pattern two the season-episode form, and under any other pattern the
/// pattern text itself; an error when no pattern finds a number.
pub open spec fn spec_extract_episode(
    base: Seq<char>,
    pattern: Seq<char>,
    season: Option<Seq<char>>,
) -> Option<Seq<char>> {
    if pattern == "1"@ || pattern == "2"@ {
        match spec_episode_match(base, season.unwrap()) {
            None => None,
            Some(num) => if pattern == "2"@ {
                Some("S"@ + season.unwrap() + "E"@ + num)
            } else {
                Some(num)
            },
        }
    } else {
        Some(pattern)
    }
}

/// Find the episode label of a file name.  The numbered patterns need the
/// season; the error carries the fixed message of the scanner.
pub fn extract_episode_number(base: &String, pattern: &String, season: &Option<String>) -> (r:
    Result<String, String>)
    requires
        (pattern@ == "1"@ || pattern@ == "2"@) ==> season is Some,
    ensures
        match r {
            Ok(v) => spec_extract_episode(
                base@,
                pattern@,
                match *season {
                    Some(ref s) => Some(s@),
                    None => None,
                },
            ) == Some(v@),
            Err(e) => spec_extract_episode(
                base@,
                pattern@,
                match *season {
                    Some(ref s) => Some(s@),
                    None => None,
                },
            ) is None && e@ == "Failed to find episode number!"@,
        },
{
    let one = str_eq(pattern.as_str(), "1");
    let two = str_eq(pattern.as_str(), "2");
    if one || two {
        let season_str: &String = match season {
            Some(s) => s,
            None => {
                proof {
                    assert(false);
                }
                pattern
            },
        };
        let mut p1 = String::new();
        p1.append("(?i)S");
        p1.append(season_str.as_str());
        p1.append("E(\\d{2})(?!\\d)");
        proof {
            assert(p1@ =~= "(?i)S"@ + season_str@ + "E(\\d{2})(?!\\d)"@);
        }
        let found: Option<String> = match crate::outside::regex_capture_one(
            p1.as_str(),
            base.as_str(),
        ) {
            Some(m) => Some(m),
            None => {
                match crate::outside::regex_capture_one(" - (\\d{2})(?!\\d)", base.as_str()) {
                    Some(m) => Some(m),
                    None => crate::outside::regex_capture_one(
                        "(?i)[^S](\\d{2})(?!\\d)",
                        base.as_str(),
                    ),
                }
            },
        };
        match found {
            None => {
                let mut e = String::new();
                e.append("Failed to find episode number!");
                proof {
                    assert(e@ =~= "Failed to find episode number!"@);
                }
                Err(e)
            },
            Some(num) => {
                if two {
                    let mut out = String::new();
                    out.append("S");
                    out.append(season_str.as_str());
                    out.append("E");
                    out.append(num.as_str());
                    proof {
                        assert(out@ =~= "S"@ + season_str@ + "E"@ + num@);
                    }
                    Ok(out)
                } else {
                    Ok(num)
                }
            },
        }
    } else {
        let mut out = String::new();
        out.append(pattern.as_str());
        proof {
            assert(out@ =~= pattern@);
        }
        Ok(out)
    }
}

} // verus!
