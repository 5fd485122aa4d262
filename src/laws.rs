//! What holds of reading and writing together.

use vstd::prelude::*;
use crate::cnf::{
    CnfModel, Slots, apply_line, boot_suffix, crlf, decode, encode, encode_line, finish, key_boot2,
    key_power, key_ver, key_vmode, line_key, line_value, no_slots, scan, sep,
    strip_cr,
};
use crate::text::{is_ws, lemma_seg_len, lemma_seg_len_bound, seg_len, trim_end, trim_start};
use crate::video::{Error, VideoMode, mode_name, lemma_name_then_mode};

verus! {

/// Text that can stand as a value on one line: no line break and no `=`.
pub open spec fn one_line(s: Seq<char>) -> bool {
    forall|j: int| 0 <= j < s.len() ==> s[j] != '\n' && s[j] != '='
}

/// Text without whitespace at either end.
pub open spec fn no_outer_ws(s: Seq<char>) -> bool {
    s.len() > 0 ==> !is_ws(s[0]) && !is_ws(s.last())
}

/// A record whose canonical text reads back as the record: each field fits on
/// one line without `=`, the boot path starts with no whitespace, and the
/// other fields have none around them.
pub open spec fn well_formed(m: CnfModel) -> bool {
    &&& one_line(m.elf_path)
    &&& (m.elf_path.len() > 0 ==> !is_ws(m.elf_path[0]))
    &&& one_line(m.version)
    &&& no_outer_ws(m.version)
    &&& match m.hdd_unit_power {
        Some(p) => one_line(p) && no_outer_ws(p),
        None => true,
    }
}

/// A key as the file writes it: not empty, and only characters that are
/// neither whitespace nor `=` nor a line break.
pub open spec fn plain_key(k: Seq<char>) -> bool {
    &&& k.len() > 0
    &&& forall|j: int| 0 <= j < k.len() ==> !is_ws(#[trigger] k[j]) && k[j] != '=' && k[j] != '\n'
}

/// A line that ends in `\r\n` is read as the text before the `\r`, and the
/// reading goes on after the `\n`.
pub proof fn lemma_scan_line(acc: Slots, t: Seq<char>, rest: Seq<char>)
    requires
        forall|j: int| 0 <= j < t.len() ==> t[j] != '\n',
    ensures
        scan(acc, t + crlf() + rest) == match apply_line(acc, t) {
            Ok(a) => scan(a, rest),
            Err(e) => Err(e),
        },
{
    let s = t + crlf() + rest;
    let k: int = t.len() as int + 1;
    assert forall|j: int| 0 <= j < k implies s[j] != '\n' by {
        if j < t.len() {
            assert(s[j] == t[j]);
        } else {
            assert(s[j] == '\r');
        }
    }
    assert(s[k] == '\n');
    lemma_seg_len(s, '\n', k);
    assert(s.take(k) =~= t.push('\r'));
    assert(t.push('\r').drop_last() =~= t);
    assert(strip_cr(s.take(k)) == t);
    assert(s.skip(k + 1) =~= rest);
}

/// A written line `key = value` is read back as that key and that value.
pub proof fn lemma_line_parts(key: Seq<char>, value: Seq<char>)
    requires
        plain_key(key),
        one_line(value),
        no_outer_ws(value),
    ensures
        ({
            let line = key + sep() + value;
            &&& line.len() > 0
            &&& seg_len(line, '=') < line.len()
            &&& line_key(line) == key
            &&& line_value(line) == value
        }),
{
    let line = key + sep() + value;
    let e: int = key.len() as int + 1;
    assert forall|j: int| 0 <= j < e implies line[j] != '=' by {
        if j < key.len() {
            assert(line[j] == key[j]);
        }
    }
    assert(line[e] == '=');
    lemma_seg_len(line, '=', e);
    let head = line.take(e);
    assert(head =~= key.push(' '));
    assert(!is_ws(head[0]));
    assert(trim_start(head) == head);
    assert(head.drop_last() =~= key);
    assert(!is_ws(key.last()));
    assert(trim_end(head) == trim_end(key));
    assert(trim_end(key) == key);
    let after = line.skip(e + 1);
    assert(after =~= seq![' '] + value);
    assert forall|j: int| 0 <= j < after.len() implies after[j] != '=' by {
        if j > 0 {
            assert(after[j] == value[j - 1]);
        }
    }
    lemma_seg_len(after, '=', after.len() as int);
    assert(after.take(after.len() as int) =~= after);
    assert(after.drop_first() =~= value);
    assert(trim_start(after) == trim_start(value));
    assert(trim_start(value) == value);
    assert(trim_end(value) == value);
}

/// The four keys are plain.
pub proof fn lemma_keys_plain()
    ensures
        plain_key(key_boot2()),
        plain_key(key_ver()),
        plain_key(key_vmode()),
        plain_key(key_power()),
        key_boot2() != key_ver(),
        key_boot2() != key_vmode(),
        key_boot2() != key_power(),
        key_ver() != key_vmode(),
        key_ver() != key_power(),
        key_vmode() != key_power(),
{
    assert(key_boot2()[1] != key_vmode()[1]);
    assert(key_boot2().len() != key_ver().len());
    assert(key_boot2().len() != key_power().len());
    assert(key_ver().len() != key_vmode().len());
    assert(key_ver().len() != key_power().len());
    assert(key_vmode().len() != key_power().len());
}

/// A written line `key = value` holds no line break.
pub proof fn lemma_line_one(key: Seq<char>, value: Seq<char>)
    requires
        plain_key(key),
        one_line(value),
    ensures
        forall|j: int|
            0 <= j < (key + sep() + value).len() ==> (key + sep() + value)[j] != '\n',
{
    let t = key + sep() + value;
    assert forall|j: int| 0 <= j < t.len() implies t[j] != '\n' by {
        if j >= key.len() + 3 {
            assert(t[j] == value[j - key.len() - 3]);
        } else if j >= key.len() {
            assert(t[j] == sep()[j - key.len()]);
        } else {
            assert(t[j] == key[j]);
        }
    }
}

/// A line `BOOT2 = X;1` sets the boot path to `X`: the disc-session marker is
/// dropped.
pub proof fn lemma_boot_line(acc: Slots, path: Seq<char>)
    requires
        one_line(path),
        path.len() > 0 ==> !is_ws(path[0]),
    ensures
        apply_line(acc, key_boot2() + sep() + (path + boot_suffix())) == Ok::<Slots, Error>(
            Slots { elf_path: Some(path), ..acc },
        ),
        forall|j: int|
            0 <= j < (key_boot2() + sep() + (path + boot_suffix())).len() ==> (key_boot2() + sep()
                + (path + boot_suffix()))[j] != '\n',
{
    lemma_keys_plain();
    let boot = path + boot_suffix();
    assert forall|j: int| 0 <= j < boot.len() implies boot[j] != '\n' && boot[j] != '=' by {
        if j < path.len() {
            assert(boot[j] == path[j]);
        }
    }
    if path.len() > 0 {
        assert(boot[0] == path[0]);
    }
    assert(no_outer_ws(boot));
    lemma_line_parts(key_boot2(), boot);
    lemma_line_one(key_boot2(), boot);
    assert(boot.subrange(boot.len() - 2, boot.len() as int) =~= boot_suffix());
    assert(boot.subrange(0, boot.len() - 2) =~= path);
}

/// The written version line sets the version.
proof fn lemma_ver_line(acc: Slots, v: Seq<char>)
    requires
        one_line(v),
        no_outer_ws(v),
    ensures
        apply_line(acc, key_ver() + sep() + v) == Ok::<Slots, Error>(
            Slots { version: Some(v), ..acc },
        ),
        forall|j: int| 0 <= j < (key_ver() + sep() + v).len() ==> (key_ver() + sep() + v)[j] != '\n',
{
    lemma_keys_plain();
    lemma_line_parts(key_ver(), v);
    lemma_line_one(key_ver(), v);
}

/// The written video mode line sets the video mode.
proof fn lemma_vmode_line(acc: Slots, m: VideoMode)
    ensures
        apply_line(acc, key_vmode() + sep() + mode_name(m)) == Ok::<Slots, Error>(
            Slots { video_mode: Some(m), ..acc },
        ),
        forall|j: int|
            0 <= j < (key_vmode() + sep() + mode_name(m)).len() ==> (key_vmode() + sep()
                + mode_name(m))[j] != '\n',
{
    lemma_keys_plain();
    let name = mode_name(m);
    assert(one_line(name) && no_outer_ws(name));
    lemma_line_parts(key_vmode(), name);
    lemma_line_one(key_vmode(), name);
    lemma_name_then_mode(m);
}

/// The written power line sets the power setting.
proof fn lemma_power_line(acc: Slots, p: Seq<char>)
    requires
        one_line(p),
        no_outer_ws(p),
    ensures
        apply_line(acc, key_power() + sep() + p) == Ok::<Slots, Error>(
            Slots { hdd_unit_power: Some(p), ..acc },
        ),
        forall|j: int|
            0 <= j < (key_power() + sep() + p).len() ==> (key_power() + sep() + p)[j] != '\n',
{
    lemma_keys_plain();
    lemma_line_parts(key_power(), p);
    lemma_line_one(key_power(), p);
}

/// Reading the canonical text of a well-formed record gives the record back,
/// and writing that gives the same text again.
pub proof fn lemma_round_trip(m: CnfModel)
    requires
        well_formed(m),
    ensures
        decode(encode(m)) == Ok::<CnfModel, Error>(m),
        encode(decode(encode(m))->Ok_0) == encode(m),
{
    let t1 = key_boot2() + sep() + (m.elf_path + boot_suffix());
    let t2 = key_ver() + sep() + m.version;
    let t3 = key_vmode() + sep() + mode_name(m.video_mode);
    let tail = match m.hdd_unit_power {
        Some(p) => encode_line(key_power(), p),
        None => Seq::<char>::empty(),
    };
    let a1 = Slots { elf_path: Some(m.elf_path), ..no_slots() };
    let a2 = Slots { version: Some(m.version), ..a1 };
    let a3 = Slots { video_mode: Some(m.video_mode), ..a2 };
    lemma_boot_line(no_slots(), m.elf_path);
    lemma_ver_line(a1, m.version);
    lemma_vmode_line(a2, m.video_mode);
    let r2 = t3 + crlf() + tail;
    let r1 = t2 + crlf() + r2;
    assert(encode(m) =~= t1 + crlf() + r1);
    lemma_scan_line(no_slots(), t1, r1);
    lemma_scan_line(a1, t2, r2);
    lemma_scan_line(a2, t3, tail);
    match m.hdd_unit_power {
        Some(p) => {
            let t4 = key_power() + sep() + p;
            lemma_power_line(a3, p);
            assert(tail =~= t4 + crlf() + Seq::<char>::empty());
            lemma_scan_line(a3, t4, Seq::<char>::empty());
            let a4 = Slots { hdd_unit_power: Some(p), ..a3 };
            assert(scan(a4, Seq::<char>::empty()) == Ok::<Slots, Error>(a4));
            assert(finish(a4) == Ok::<CnfModel, Error>(m));
        },
        None => {
            assert(scan(a3, tail) == Ok::<Slots, Error>(a3));
            assert(finish(a3) == Ok::<CnfModel, Error>(m));
        },
    }
}

/// Whether `line` holds a `=` and has the key `key`.
pub open spec fn has_key(line: Seq<char>, key: Seq<char>) -> bool {
    line.len() > 0 && seg_len(line, '=') < line.len() && line_key(line) == key
}

/// A field whose key `line` does not have keeps its value.
pub proof fn lemma_apply_keeps(acc: Slots, line: Seq<char>)
    requires
        apply_line(acc, line) is Ok,
    ensures
        !has_key(line, key_boot2()) ==> apply_line(acc, line)->Ok_0.elf_path == acc.elf_path,
        !has_key(line, key_ver()) ==> apply_line(acc, line)->Ok_0.version == acc.version,
        !has_key(line, key_vmode()) ==> apply_line(acc, line)->Ok_0.video_mode
            == acc.video_mode,
        !has_key(line, key_power()) ==> apply_line(acc, line)->Ok_0.hdd_unit_power
            == acc.hdd_unit_power,
{
    lemma_seg_len_bound(line, '=');
}

/// Whether some line of `s` that holds a `=` has the key `key`.
pub open spec fn mentions(s: Seq<char>, key: Seq<char>) -> bool
    decreases s.len(),
{
    if s.len() == 0 {
        false
    } else {
        let k = seg_len(s, '\n');
        if k < s.len() {
            let line = strip_cr(s.take(k as int));
            has_key(line, key) || mentions(s.skip(k as int + 1), key)
        } else {
            has_key(s, key)
        }
    }
}

/// A field whose key no line of `s` holds keeps the value it had before `s`
/// was read.
pub proof fn lemma_scan_keeps(acc: Slots, s: Seq<char>)
    requires
        scan(acc, s) is Ok,
    ensures
        !mentions(s, key_boot2()) ==> scan(acc, s)->Ok_0.elf_path == acc.elf_path,
        !mentions(s, key_ver()) ==> scan(acc, s)->Ok_0.version == acc.version,
        !mentions(s, key_vmode()) ==> scan(acc, s)->Ok_0.video_mode == acc.video_mode,
        !mentions(s, key_power()) ==> scan(acc, s)->Ok_0.hdd_unit_power == acc.hdd_unit_power,
    decreases s.len(),
{
    if s.len() > 0 {
        let k = seg_len(s, '\n');
        if k < s.len() {
            let line = strip_cr(s.take(k as int));
            let a = apply_line(acc, line)->Ok_0;
            lemma_apply_keeps(acc, line);
            lemma_scan_keeps(a, s.skip(k as int + 1));
        } else {
            lemma_apply_keeps(acc, s);
        }
    }
}

/// Text that holds no line with one of the keys `BOOT2`, `VER` or `VMODE`, and
/// is otherwise read without error, gives `MissingField`.
pub proof fn lemma_missing_field(s: Seq<char>)
    requires
        scan(no_slots(), s) is Ok,
        !mentions(s, key_boot2()) || !mentions(s, key_ver()) || !mentions(s, key_vmode()),
    ensures
        decode(s) == Err::<CnfModel, Error>(Error::MissingField),
{
    lemma_scan_keeps(no_slots(), s);
}

/// Text read without error and with no `HDDUNITPOWER` line gives a record
/// without a power setting, and the canonical text of that record has no
/// power line.
pub proof fn lemma_no_power(s: Seq<char>)
    requires
        decode(s) is Ok,
        !mentions(s, key_power()),
    ensures
        decode(s)->Ok_0.hdd_unit_power is None,
        encode(decode(s)->Ok_0) == encode_line(
            key_boot2(),
            decode(s)->Ok_0.elf_path + boot_suffix(),
        ) + encode_line(key_ver(), decode(s)->Ok_0.version) + encode_line(
            key_vmode(),
            mode_name(decode(s)->Ok_0.video_mode),
        ),
{
    lemma_scan_keeps(no_slots(), s);
    let m = decode(s)->Ok_0;
    assert(encode(m) =~= encode_line(key_boot2(), m.elf_path + boot_suffix()) + encode_line(
        key_ver(),
        m.version,
    ) + encode_line(key_vmode(), mode_name(m.video_mode)));
}

/// Whole lines: empty, or ending in a line break.
pub open spec fn whole_lines(p: Seq<char>) -> bool {
    p.len() == 0 || p.last() == '\n'
}

/// Reading whole lines and then more text is reading the one and then the
/// other.
pub proof fn lemma_scan_concat(acc: Slots, p: Seq<char>, q: Seq<char>)
    requires
        whole_lines(p),
    ensures
        scan(acc, p + q) == match scan(acc, p) {
            Ok(a) => scan(a, q),
            Err(e) => Err(e),
        },
    decreases p.len(),
{
    if p.len() == 0 {
        assert(p + q =~= q);
    } else {
        let s = p + q;
        lemma_seg_len_bound(p, '\n');
        let k = seg_len(p, '\n');
        assert(k < p.len()) by {
            if k == p.len() {
                assert(p[p.len() - 1] == '\n');
            }
        }
        assert forall|j: int| 0 <= j < k implies s[j] != '\n' by {
            assert(s[j] == p[j]);
        }
        assert(s[k as int] == p[k as int]);
        lemma_seg_len(s, '\n', k as int);
        assert(s.take(k as int) =~= p.take(k as int));
        let later = p.skip(k as int + 1);
        assert(s.skip(k as int + 1) =~= later + q);
        if later.len() > 0 {
            assert(later.last() == p.last());
        }
        let line = strip_cr(p.take(k as int));
        match apply_line(acc, line) {
            Ok(a) => {
                lemma_scan_concat(a, later, q);
            },
            Err(e) => {},
        }
    }
}

/// A line with a key that is none of the four is passed over: after whole
/// lines `p`, the text reads as if the line were not there.
pub proof fn lemma_unknown_key(p: Seq<char>, t: Seq<char>, rest: Seq<char>)
    requires
        whole_lines(p),
        forall|j: int| 0 <= j < t.len() ==> t[j] != '\n',
        seg_len(t, '=') < t.len(),
        line_key(t) != key_boot2(),
        line_key(t) != key_ver(),
        line_key(t) != key_vmode(),
        line_key(t) != key_power(),
    ensures
        decode(p + (t + crlf() + rest)) == decode(p + rest),
{
    lemma_scan_concat(no_slots(), p, t + crlf() + rest);
    lemma_scan_concat(no_slots(), p, rest);
    match scan(no_slots(), p) {
        Ok(a) => {
            lemma_scan_line(a, t, rest);
        },
        Err(e) => {},
    }
}

/// A non-empty line without `=`, after whole lines that read without error,
/// makes the text malformed.
pub proof fn lemma_malformed_line(p: Seq<char>, t: Seq<char>, rest: Seq<char>)
    requires
        whole_lines(p),
        scan(no_slots(), p) is Ok,
        t.len() > 0,
        forall|j: int| 0 <= j < t.len() ==> t[j] != '\n' && t[j] != '=',
    ensures
        decode(p + (t + crlf() + rest)) == Err::<CnfModel, Error>(Error::MalformedFile),
{
    lemma_scan_concat(no_slots(), p, t + crlf() + rest);
    lemma_seg_len(t, '=', t.len() as int);
    lemma_scan_line(scan(no_slots(), p)->Ok_0, t, rest);
}

} // verus!
