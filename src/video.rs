use vstd::prelude::*;
use crate::text::{chars_of, lemma_trim_fixed, range_is, trim, trim_range};

verus! {

/// Why a `SYSTEM.CNF` text could not be read.
#[derive(Debug, Clone, Copy, PartialEq, Eq, Structural, PartialOrd, Ord)]
pub enum Error {
    /// A line holds no `=` between key and value.
    MalformedFile,
    /// `BOOT2`, `VER` or `VMODE` never appeared.
    MissingField,
    /// The value of `VMODE` names no known video mode.
    UnknownVideoMode,
}

/// The name of an error, as its variant is written.
pub open spec fn error_name(e: Error) -> Seq<char> {
    match e {
        Error::MalformedFile => seq![
            'M', 'a', 'l', 'f', 'o', 'r', 'm', 'e', 'd', 'F', 'i', 'l', 'e'
        ],
        Error::MissingField => seq!['M', 'i', 's', 's', 'i', 'n', 'g', 'F', 'i', 'e', 'l', 'd'],
        Error::UnknownVideoMode => seq![
            'U', 'n', 'k', 'n', 'o', 'w', 'n', 'V', 'i', 'd', 'e', 'o', 'M', 'o', 'd', 'e'
        ],
    }
}

impl Error {
    /// The name of this error, as its variant is written.
    pub fn as_str(&self) -> (r: &'static str)
        ensures
            r@ == error_name(*self),
    {
        proof {
            reveal_strlit("MalformedFile");
            reveal_strlit("MissingField");
            reveal_strlit("UnknownVideoMode");
        }
        match self {
            Error::MalformedFile => "MalformedFile",
            Error::MissingField => "MissingField",
            Error::UnknownVideoMode => "UnknownVideoMode",
        }
    }
}

/// The video standard that the disc targets.
#[derive(Debug, Clone, Copy, PartialEq, Eq, Structural, PartialOrd, Ord)]
pub enum VideoMode {
    /// NTSC
    Ntsc,
    /// PAL
    Pal,
}

/// The canonical name of a video mode, as it stands after `VMODE = `.
pub open spec fn mode_name(m: VideoMode) -> Seq<char> {
    match m {
        VideoMode::Ntsc => seq!['N', 'T', 'S', 'C'],
        VideoMode::Pal => seq!['P', 'A', 'L'],
    }
}

/// The video mode that an already trimmed name stands for.
pub open spec fn mode_of_name(s: Seq<char>) -> Result<VideoMode, Error> {
    if s == mode_name(VideoMode::Ntsc) {
        Ok(VideoMode::Ntsc)
    } else if s == mode_name(VideoMode::Pal) {
        Ok(VideoMode::Pal)
    } else {
        Err(Error::UnknownVideoMode)
    }
}

impl VideoMode {
    /// The canonical name of this video mode.
    pub fn as_str(&self) -> (r: &'static str)
        ensures
            r@ == mode_name(*self),
    {
        proof {
            reveal_strlit("NTSC");
            reveal_strlit("PAL");
        }
        match self {
            VideoMode::Ntsc => "NTSC",
            VideoMode::Pal => "PAL",
        }
    }

    /// The video mode named by `v[lo..hi]`, which is already trimmed.
    pub fn from_range(v: &Vec<char>, lo: usize, hi: usize) -> (r: Result<VideoMode, Error>)
        requires
            lo <= hi <= v@.len(),
        ensures
            r == mode_of_name(v@.subrange(lo as int, hi as int)),
    {
        let ntsc = ['N', 'T', 'S', 'C'];
        let pal = ['P', 'A', 'L'];
        proof {
            assert(ntsc@ =~= mode_name(VideoMode::Ntsc));
            assert(pal@ =~= mode_name(VideoMode::Pal));
        }
        if range_is(v, lo, hi, &ntsc) {
            Ok(VideoMode::Ntsc)
        } else if range_is(v, lo, hi, &pal) {
            Ok(VideoMode::Pal)
        } else {
            Err(Error::UnknownVideoMode)
        }
    }

    /// The video mode named by `s`, with the whitespace around it ignored.
    pub fn from_name(s: &str) -> (r: Result<VideoMode, Error>)
        ensures
            r == mode_of_name(trim(s@)),
    {
        let v = chars_of(s);
        let (a, b) = trim_range(&v, 0, v.len());
        proof {
            assert(v@.subrange(0, v@.len() as int) =~= s@);
        }
        VideoMode::from_range(&v, a, b)
    }
}

impl std::str::FromStr for VideoMode {
    type Err = Error;

    /// Reads a video mode by name, with the whitespace around it ignored.
    fn from_str(s: &str) -> (r: Result<VideoMode, Error>)
        ensures
            r == mode_of_name(trim(s@)),
    {
        VideoMode::from_name(s)
    }
}

/// Naming a mode and reading the name back gives the mode again.
pub proof fn lemma_name_then_mode(m: VideoMode)
    ensures
        mode_of_name(mode_name(m)) == Ok::<VideoMode, Error>(m),
        mode_of_name(trim(mode_name(m))) == Ok::<VideoMode, Error>(m),
{
    lemma_trim_fixed(mode_name(m));
    assert(mode_name(VideoMode::Pal) != mode_name(VideoMode::Ntsc)) by {
        assert(mode_name(VideoMode::Pal).len() != mode_name(VideoMode::Ntsc).len());
    }
}

/// A name that reads as a mode is that mode's canonical name.
pub proof fn lemma_mode_then_name(s: Seq<char>)
    requires
        mode_of_name(s) is Ok,
    ensures
        mode_name(mode_of_name(s)->Ok_0) == s,
{
}

} // verus!
