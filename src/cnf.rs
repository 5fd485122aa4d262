//! The `SYSTEM.CNF` record, its text form, and the reading of that text.

use vstd::prelude::*;
use vstd::string::*;
use crate::text::{
    chars_of, find_from, range_is, seg_len, string_of, trim, trim_range,
    lemma_seg_len_bound,
};
use crate::video::{Error, VideoMode, mode_name, mode_of_name};

verus! {

/// The key of the boot program's path.
pub open spec fn key_boot2() -> Seq<char> {
    seq!['B', 'O', 'O', 'T', '2']
}

/// The key of the version.
pub open spec fn key_ver() -> Seq<char> {
    seq!['V', 'E', 'R']
}

/// The key of the video mode.
pub open spec fn key_vmode() -> Seq<char> {
    seq!['V', 'M', 'O', 'D', 'E']
}

/// The key of the optional hard-disk power setting.
pub open spec fn key_power() -> Seq<char> {
    seq!['H', 'D', 'D', 'U', 'N', 'I', 'T', 'P', 'O', 'W', 'E', 'R']
}

/// What stands between a key and its value in written text.
pub open spec fn sep() -> Seq<char> {
    seq![' ', '=', ' ']
}

/// The end of each written line.
pub open spec fn crlf() -> Seq<char> {
    seq!['\r', '\n']
}

/// The disc-session marker that ends the boot path on disc.
pub open spec fn boot_suffix() -> Seq<char> {
    seq![';', '1']
}

/// A record as values: the boot path (without its marker), the version, the
/// video mode and the optional power setting.
pub struct CnfModel {
    pub elf_path: Seq<char>,
    pub version: Seq<char>,
    pub video_mode: VideoMode,
    pub hdd_unit_power: Option<Seq<char>>,
}

/// The fields gathered so far while a text is read.
pub struct Slots {
    pub elf_path: Option<Seq<char>>,
    pub version: Option<Seq<char>>,
    pub video_mode: Option<VideoMode>,
    pub hdd_unit_power: Option<Seq<char>>,
}

/// Nothing gathered yet.
pub open spec fn no_slots() -> Slots {
    Slots { elf_path: None, version: None, video_mode: None, hdd_unit_power: None }
}

/// `l` without one trailing carriage return.
pub open spec fn strip_cr(l: Seq<char>) -> Seq<char> {
    if l.len() > 0 && l.last() == '\r' {
        l.drop_last()
    } else {
        l
    }
}

/// `p` without one trailing disc-session marker.
pub open spec fn strip_boot_suffix(p: Seq<char>) -> Seq<char> {
    if p.len() >= 2 && p.subrange(p.len() - 2, p.len() as int) == boot_suffix() {
        p.subrange(0, p.len() - 2)
    } else {
        p
    }
}

/// The trimmed text before the first `=` of a line.
pub open spec fn line_key(line: Seq<char>) -> Seq<char> {
    trim(line.take(seg_len(line, '=') as int))
}

/// The trimmed text between the first and the second `=` of a line (or its end).
pub open spec fn line_value(line: Seq<char>) -> Seq<char> {
    let after = line.skip(seg_len(line, '=') as int + 1);
    trim(after.take(seg_len(after, '=') as int))
}

/// What one line does to the fields gathered so far: an empty line does
/// nothing, a line without `=` is an error, a known key sets its field, and
/// any other key is passed over.
pub open spec fn apply_line(acc: Slots, line: Seq<char>) -> Result<Slots, Error> {
    if line.len() == 0 {
        Ok(acc)
    } else if seg_len(line, '=') == line.len() {
        Err(Error::MalformedFile)
    } else {
        let key = line_key(line);
        let value = line_value(line);
        if key == key_boot2() {
            Ok(Slots { elf_path: Some(strip_boot_suffix(value)), ..acc })
        } else if key == key_ver() {
            Ok(Slots { version: Some(value), ..acc })
        } else if key == key_vmode() {
            match mode_of_name(value) {
                Ok(m) => Ok(Slots { video_mode: Some(m), ..acc }),
                Err(e) => Err(e),
            }
        } else if key == key_power() {
            Ok(Slots { hdd_unit_power: Some(value), ..acc })
        } else {
            Ok(acc)
        }
    }
}

/// Reads the lines of `s` in order into `acc`, stopping at the first error.
/// Lines end at `\n`; a `\r` before that `\n` belongs to the line ending.
pub open spec fn scan(acc: Slots, s: Seq<char>) -> Result<Slots, Error>
    decreases s.len(),
{
    if s.len() == 0 {
        Ok(acc)
    } else {
        let k = seg_len(s, '\n');
        if k < s.len() {
            match apply_line(acc, strip_cr(s.take(k as int))) {
                Ok(a) => scan(a, s.skip(k as int + 1)),
                Err(e) => Err(e),
            }
        } else {
            apply_line(acc, s)
        }
    }
}

/// The record, once the three required fields are all there.
pub open spec fn finish(acc: Slots) -> Result<CnfModel, Error> {
    if acc.elf_path is Some && acc.version is Some && acc.video_mode is Some {
        Ok(
            CnfModel {
                elf_path: acc.elf_path->Some_0,
                version: acc.version->Some_0,
                video_mode: acc.video_mode->Some_0,
                hdd_unit_power: acc.hdd_unit_power,
            },
        )
    } else {
        Err(Error::MissingField)
    }
}

/// What reading the text `s` gives.
pub open spec fn decode(s: Seq<char>) -> Result<CnfModel, Error> {
    match scan(no_slots(), s) {
        Ok(a) => finish(a),
        Err(e) => Err(e),
    }
}

/// One written line.
pub open spec fn encode_line(key: Seq<char>, value: Seq<char>) -> Seq<char> {
    key + sep() + value + crlf()
}

/// The canonical text of a record.
pub open spec fn encode(m: CnfModel) -> Seq<char> {
    encode_line(key_boot2(), m.elf_path + boot_suffix()) + encode_line(key_ver(), m.version)
        + encode_line(key_vmode(), mode_name(m.video_mode)) + match m.hdd_unit_power {
        Some(p) => encode_line(key_power(), p),
        None => Seq::<char>::empty(),
    }
}

/// A parsed `SYSTEM.CNF` file.
#[derive(Debug, Clone, PartialEq, Eq, PartialOrd, Ord)]
pub struct SystemCnf {
    /// Path to the boot program, without the disc-session marker.
    pub elf_path: String,
    /// Version of the disc.
    pub version: String,
    /// Video mode.
    pub video_mode: VideoMode,
    /// Hard-disk power setting, where the file has one.
    pub hdd_unit_power: Option<String>,
}

impl View for SystemCnf {
    type V = CnfModel;

    open spec fn view(&self) -> CnfModel {
        CnfModel {
            elf_path: self.elf_path@,
            version: self.version@,
            video_mode: self.video_mode,
            hdd_unit_power: match self.hdd_unit_power {
                Some(p) => Some(p@),
                None => None,
            },
        }
    }
}

/// The fields gathered so far, held as text.
struct SlotBuf {
    elf_path: Option<String>,
    version: Option<String>,
    video_mode: Option<VideoMode>,
    hdd_unit_power: Option<String>,
}

impl View for SlotBuf {
    type V = Slots;

    closed spec fn view(&self) -> Slots {
        Slots {
            elf_path: match self.elf_path {
                Some(p) => Some(p@),
                None => None,
            },
            version: match self.version {
                Some(p) => Some(p@),
                None => None,
            },
            video_mode: self.video_mode,
            hdd_unit_power: match self.hdd_unit_power {
                Some(p) => Some(p@),
                None => None,
            },
        }
    }
}

/// Applies the line `v[lo..hi]` to the gathered fields.
fn take_line(v: &Vec<char>, lo: usize, hi: usize, acc: &mut SlotBuf) -> (r: Result<(), Error>)
    requires
        lo <= hi <= v@.len(),
    ensures
        match r {
            Ok(()) => apply_line(old(acc)@, v@.subrange(lo as int, hi as int)) == Ok::<
                Slots,
                Error,
            >(final(acc)@),
            Err(e) => apply_line(old(acc)@, v@.subrange(lo as int, hi as int)) == Err::<
                Slots,
                Error,
            >(e),
        },
{
    let ghost line = v@.subrange(lo as int, hi as int);
    if lo == hi {
        return Ok(());
    }
    let e = find_from(v, lo, hi, '=');
    if e == hi {
        return Err(Error::MalformedFile);
    }
    proof {
        lemma_seg_len_bound(line, '=');
    }
    let (ka, kb) = trim_range(v, lo, e);
    let e2 = find_from(v, e + 1, hi, '=');
    let (va, vb) = trim_range(v, e + 1, e2);
    proof {
        assert(v@.subrange(lo as int, e as int) =~= line.take(e - lo));
        let after = line.skip(e - lo + 1);
        assert(after =~= v@.subrange(e + 1, hi as int));
        assert(v@.subrange(e + 1, e2 as int) =~= after.take(e2 - (e + 1)));
        assert(line_key(line) == v@.subrange(ka as int, kb as int));
        assert(line_value(line) == v@.subrange(va as int, vb as int));
    }
    let boot2 = ['B', 'O', 'O', 'T', '2'];
    let ver = ['V', 'E', 'R'];
    let vmode = ['V', 'M', 'O', 'D', 'E'];
    let power = ['H', 'D', 'D', 'U', 'N', 'I', 'T', 'P', 'O', 'W', 'E', 'R'];
    proof {
        assert(boot2@ =~= key_boot2());
        assert(ver@ =~= key_ver());
        assert(vmode@ =~= key_vmode());
        assert(power@ =~= key_power());
    }
    if range_is(v, ka, kb, &boot2) {
        let mut pb = vb;
        if vb - va >= 2 && v[vb - 2] == ';' && v[vb - 1] == '1' {
            pb = vb - 2;
        }
        proof {
            let p = v@.subrange(va as int, vb as int);
            if p.len() >= 2 {
                assert(p.subrange(p.len() - 2, p.len() as int) =~= v@.subrange(
                    vb - 2,
                    vb as int,
                ));
                assert(p.subrange(0, p.len() - 2) =~= v@.subrange(va as int, vb - 2));
                if p.subrange(p.len() - 2, p.len() as int) == boot_suffix() {
                    assert(v@[vb - 2] == p.subrange(p.len() - 2, p.len() as int)[0]);
                    assert(v@[vb - 1] == p.subrange(p.len() - 2, p.len() as int)[1]);
                }
                if v@[vb - 2] == ';' && v@[vb - 1] == '1' {
                    assert(v@.subrange(vb - 2, vb as int) =~= boot_suffix());
                }
            }
        }
        acc.elf_path = Some(string_of(v, va, pb));
    } else if range_is(v, ka, kb, &ver) {
        acc.version = Some(string_of(v, va, vb));
    } else if range_is(v, ka, kb, &vmode) {
        let m = VideoMode::from_range(v, va, vb)?;
        acc.video_mode = Some(m);
    } else if range_is(v, ka, kb, &power) {
        acc.hdd_unit_power = Some(string_of(v, va, vb));
    }
    Ok(())
}

impl SystemCnf {
    /// Reads a `SYSTEM.CNF` text.
    ///
    /// Fails with `MalformedFile` at a non-empty line without `=`, with
    /// `UnknownVideoMode` where `VMODE` names no known mode (whichever of the
    /// two comes first), and else with `MissingField` where `BOOT2`, `VER` or
    /// `VMODE` never appeared.
    pub fn parse(raw_cnf: &str) -> (r: Result<SystemCnf, Error>)
        ensures
            match r {
                Ok(c) => decode(raw_cnf@) == Ok::<CnfModel, Error>(c@),
                Err(e) => decode(raw_cnf@) == Err::<CnfModel, Error>(e),
            },
    {
        let v = chars_of(raw_cnf);
        let n = v.len();
        let mut acc = SlotBuf {
            elf_path: None,
            version: None,
            video_mode: None,
            hdd_unit_power: None,
        };
        let mut i: usize = 0;
        assert(v@.skip(0) =~= v@);
        while i < n
            invariant
                i <= n == v@.len(),
                v@ == raw_cnf@,
                scan(no_slots(), v@) == scan(acc@, v@.skip(i as int)),
            decreases n - i,
        {
            let k = find_from(&v, i, n, '\n');
            let ghost s = v@.skip(i as int);
            let ghost a0 = acc@;
            assert(v@.subrange(i as int, n as int) =~= s);
            let mut hi = k;
            if k < n && k > i && v[k - 1] == '\r' {
                hi = k - 1;
            }
            proof {
                if k < n {
                    let t = s.take(k - i);
                    assert(t =~= v@.subrange(i as int, k as int));
                    if t.len() > 0 {
                        assert(t.last() == v@[k - 1]);
                        assert(t.drop_last() =~= v@.subrange(i as int, k - 1));
                    }
                    assert(strip_cr(t) == v@.subrange(i as int, hi as int));
                    assert(s.skip(k - i + 1) =~= v@.skip(k + 1));
                }
            }
            take_line(&v, i, hi, &mut acc)?;
            if k < n {
                i = k + 1;
            } else {
                i = n;
                assert(v@.skip(n as int) =~= Seq::<char>::empty());
            }
        }
        assert(v@.skip(n as int) =~= Seq::<char>::empty());
        match (acc.elf_path, acc.version, acc.video_mode) {
            (Some(elf_path), Some(version), Some(video_mode)) => Ok(
                SystemCnf { elf_path, version, video_mode, hdd_unit_power: acc.hdd_unit_power },
            ),
            _ => Err(Error::MissingField),
        }
    }

    /// The canonical text of this record: the `BOOT2`, `VER` and `VMODE` lines,
    /// then `HDDUNITPOWER` where it is set, each ended by `\r\n`.
    pub fn to_string(&self) -> (r: String)
        ensures
            r@ == encode(self@),
    {
        proof {
            reveal_strlit("BOOT2");
            reveal_strlit("VER");
            reveal_strlit("VMODE");
            reveal_strlit("HDDUNITPOWER");
            reveal_strlit(" = ");
            reveal_strlit(";1");
            reveal_strlit("\r\n");
        }
        let mut out = String::new();
        out.append("BOOT2");
        out.append(" = ");
        out.append(self.elf_path.as_str());
        out.append(";1");
        out.append("\r\n");
        out.append("VER");
        out.append(" = ");
        out.append(self.version.as_str());
        out.append("\r\n");
        out.append("VMODE");
        out.append(" = ");
        out.append(self.video_mode.as_str());
        out.append("\r\n");
        let ghost head = out@;
        assert(head =~= encode_line(key_boot2(), self.elf_path@ + boot_suffix()) + encode_line(
            key_ver(),
            self.version@,
        ) + encode_line(key_vmode(), mode_name(self.video_mode)));
        if let Some(p) = &self.hdd_unit_power {
            out.append("HDDUNITPOWER");
            out.append(" = ");
            out.append(p.as_str());
            out.append("\r\n");
            assert(out@ =~= head + encode_line(key_power(), p@));
        } else {
            assert(out@ =~= head + Seq::<char>::empty());
        }
        out
    }
}

} // verus!
