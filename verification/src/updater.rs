//! Launcher self-update: version comparison, the installer's name, and the
//! helper script that runs it.

use crate::text::{
    chars_of, ends_with, ends_with_seq, eq_pred, in_set, one_char, parse_unsigned,
    parse_unsigned_seq, split_by, split_on_char, trim, trim_start_by, trim_start_in, trim_ws,
    views,
};
use vstd::prelude::*;

verus! {

/// A version string with surrounding whitespace and leading `v`s removed.
pub open spec fn version_body(s: Seq<char>) -> Seq<char> {
    trim_start_by(trim(s), in_set(seq!['v']))
}

/// The pieces that parse as `u32`, in order; the others are dropped.
pub open spec fn numeric_parts(pieces: Seq<Seq<char>>) -> Seq<nat>
    decreases pieces.len(),
{
    if pieces.len() == 0 {
        Seq::empty()
    } else {
        let r = numeric_parts(pieces.drop_last());
        match parse_unsigned(pieces.last(), 0xffff_ffff) {
            Some(v) => r.push(v),
            None => r,
        }
    }
}

/// The numeric components of a dotted version string.
pub open spec fn version_numbers(s: Seq<char>) -> Seq<nat> {
    numeric_parts(split_by(version_body(s), eq_pred('.')))
}

/// Component `i`, or 0 when there is none.
pub open spec fn part_at(v: Seq<nat>, i: int) -> nat {
    if 0 <= i < v.len() {
        v[i]
    } else {
        0
    }
}

/// `remote` is strictly newer than `local` in its first three components.
pub open spec fn is_newer_spec(local: Seq<char>, remote: Seq<char>) -> bool {
    let l = version_numbers(local);
    let r = version_numbers(remote);
    ||| part_at(r, 0) > part_at(l, 0)
    ||| part_at(r, 0) == part_at(l, 0) && part_at(r, 1) > part_at(l, 1)
    ||| part_at(r, 0) == part_at(l, 0) && part_at(r, 1) == part_at(l, 1) && part_at(r, 2) > part_at(
        l,
        2,
    )
}

pub open spec fn nat_view(v: Seq<u32>) -> Seq<nat> {
    v.map_values(|x: u32| x as nat)
}

fn version_parts(s: &str) -> (r: Vec<u32>)
    ensures
        nat_view(r@) == version_numbers(s@),
{
    let c = chars_of(s);
    let t = trim_ws(&c);
    let vset = one_char('v');
    let body = trim_start_in(&t, &vset);
    let pieces = split_on_char(&body, '.');
    let ghost pv = views(pieces@);
    let mut out: Vec<u32> = Vec::new();
    let mut i: usize = 0;
    assert(pv.take(0) =~= Seq::<Seq<char>>::empty());
    assert(nat_view(out@) =~= Seq::<nat>::empty());
    while i < pieces.len()
        invariant
            i <= pieces.len(),
            pv == views(pieces@),
            nat_view(out@) == numeric_parts(pv.take(i as int)),
        decreases pieces.len() - i,
    {
        assert(pv.take(i + 1).drop_last() =~= pv.take(i as int));
        assert(pv.take(i + 1).last() == pieces@[i as int]@);
        let ghost before = out@;
        match parse_unsigned_seq(&pieces[i], 0xffff_ffff) {
            Some(v) => {
                out.push(v as u32);
                assert(nat_view(out@) =~= nat_view(before).push(v as nat));
            },
            None => {},
        }
        i = i + 1;
    }
    assert(pv.take(pieces.len() as int) =~= pv);
    r_of(out)
}

fn r_of(v: Vec<u32>) -> (r: Vec<u32>)
    ensures
        r == v,
{
    v
}

fn part(v: &Vec<u32>, i: usize) -> (r: u32)
    ensures
        r as nat == part_at(nat_view(v@), i as int),
{
    if i < v.len() {
        v[i]
    } else {
        0
    }
}

/// Simple semver comparison: `remote` is strictly newer than `local`.
/// Only `x.y.z` is handled, no pre-release tags.
pub fn is_newer(local: &str, remote: &str) -> (b: bool)
    ensures
        b == is_newer_spec(local@, remote@),
{
    let l = version_parts(local);
    let r = version_parts(remote);
    let mut i: usize = 0;
    while i < 3
        invariant
            i <= 3,
            nat_view(l@) == version_numbers(local@),
            nat_view(r@) == version_numbers(remote@),
            forall|j: int| 0 <= j < i ==> part_at(nat_view(r@), j) == part_at(nat_view(l@), j),
        decreases 3 - i,
    {
        let lv = part(&l, i);
        let rv = part(&r, i);
        if rv > lv {
            return true;
        }
        if rv < lv {
            return false;
        }
        i = i + 1;
    }
    false
}

/// The installer's file name: the last `/`-separated piece of the URL
/// when it ends in `.exe` or `.msi`, else a generic name.
pub open spec fn installer_file_name_spec(url: Seq<char>) -> Seq<char> {
    let last = split_by(url, eq_pred('/')).last();
    if ends_with(last, ".exe"@) || ends_with(last, ".msi"@) {
        last
    } else {
        "R5R-CN-Launcher-setup.exe"@
    }
}

/// Where the downloaded installer is saved, named after the URL.
pub fn installer_file_name(url: &str) -> (name: String)
    ensures
        name@ == installer_file_name_spec(url@),
{
    let c = chars_of(url);
    let pieces = split_on_char(&c, '/');
    proof {
        crate::text::lemma_split_nonempty(c@, eq_pred('/'));
        assert(views(pieces@).len() == pieces@.len());
    }
    let last = &pieces[pieces.len() - 1];
    let exe = chars_of(".exe");
    let msi = chars_of(".msi");
    if ends_with_seq(last, &exe) || ends_with_seq(last, &msi) {
        crate::text::string_of(last)
    } else {
        crate::text::string_from_str("R5R-CN-Launcher-setup.exe")
    }
}

pub const EVT_UPDATE_PROGRESS: &'static str = "update://progress";

/// Where a self-update stands.
#[derive(Debug, Clone)]
pub enum UpdatePhase {
    Downloading,
    Installing,
    Failed { reason: String },
}

/// A progress report of a self-update.
#[derive(Debug, Clone)]
pub struct UpdateProgress {
    pub bytes_done: u64,
    pub bytes_total: Option<u64>,
    pub phase: UpdatePhase,
}

/// `s` inside a VBScript string literal: each `"` doubled.
pub open spec fn vbs_escape_spec(s: Seq<char>) -> Seq<char>
    decreases s.len(),
{
    if s.len() == 0 {
        Seq::empty()
    } else if s.last() == '"' {
        vbs_escape_spec(s.drop_last()) + seq!['"', '"']
    } else {
        vbs_escape_spec(s.drop_last()).push(s.last())
    }
}

pub fn vbs_escape(s: &str) -> (r: Vec<char>)
    ensures
        r@ == vbs_escape_spec(s@),
{
    let c = crate::text::chars_of(s);
    let mut r: Vec<char> = Vec::new();
    let mut i: usize = 0;
    while i < c.len()
        invariant
            i <= c@.len(),
            c@ == s@,
            r@ == vbs_escape_spec(c@.take(i as int)),
        decreases c.len() - i,
    {
        assert(c@.take(i + 1).drop_last() =~= c@.take(i as int));
        if c[i] == '"' {
            r.push('"');
            r.push('"');
        } else {
            r.push(c[i]);
        }
        i = i + 1;
    }
    assert(c@.take(c@.len() as int) =~= c@);
    r
}

/// The helper script that waits, runs the installer silently, then starts
/// the launcher again.
pub open spec fn helper_script_spec(installer: Seq<char>, exe: Seq<char>) -> Seq<char> {
    "Dim sh : Set sh = CreateObject(\"WScript.Shell\")\r\nWScript.Sleep 1000\r\nsh.Run \"\"\""@
        + vbs_escape_spec(installer) + "\"\" /S\", 0, True\r\nWScript.Sleep 500\r\nsh.Run \"\"\""@
        + vbs_escape_spec(exe) + "\"\"\", 1, False\r\n"@
}

pub fn update_helper_script(installer: &str, exe: &str) -> (r: String)
    ensures
        r@ == helper_script_spec(installer@, exe@),
{
    let a = crate::text::chars_of("Dim sh : Set sh = CreateObject(\"WScript.Shell\")\r\nWScript.Sleep 1000\r\nsh.Run \"\"\"");
    let b = crate::text::chars_of("\"\" /S\", 0, True\r\nWScript.Sleep 500\r\nsh.Run \"\"\"");
    let c = crate::text::chars_of("\"\"\", 1, False\r\n");
    let i = vbs_escape(installer);
    let e = vbs_escape(exe);
    let mut m = crate::text::concat(&a, &i);
    m = crate::text::concat(&m, &b);
    m = crate::text::concat(&m, &e);
    m = crate::text::concat(&m, &c);
    crate::text::string_of(&m)
}

/// The UTF-16 code units of `s`, little-endian, after a byte-order mark.
pub open spec fn utf16le_spec(s: Seq<char>) -> Seq<u8>
    decreases s.len(),
{
    if s.len() == 0 {
        seq![0xFFu8, 0xFEu8]
    } else {
        let v = s.last() as u32;
        utf16le_spec(s.drop_last()) + if v < 0x10000 {
            seq![(v % 256) as u8, (v / 256) as u8]
        } else {
            let w = (v - 0x10000) as u32;
            let hi = (0xD800 + w / 1024) as u32;
            let lo = (0xDC00 + w % 1024) as u32;
            seq![(hi % 256) as u8, (hi / 256) as u8, (lo % 256) as u8, (lo / 256) as u8]
        }
    }
}

/// The script as UTF-16 little-endian with a byte-order mark, so the
/// script host reads it as Unicode whatever the code page.
pub fn utf16le_bom(s: &str) -> (r: Vec<u8>)
    ensures
        r@ == utf16le_spec(s@),
{
    let c = crate::text::chars_of(s);
    let mut r: Vec<u8> = Vec::new();
    r.push(0xFF);
    r.push(0xFE);
    let mut i: usize = 0;
    assert(r@ =~= seq![0xFFu8, 0xFEu8]);
    while i < c.len()
        invariant
            i <= c@.len(),
            c@ == s@,
            r@ == utf16le_spec(c@.take(i as int)),
        decreases c.len() - i,
    {
        assert(c@.take(i + 1).drop_last() =~= c@.take(i as int));
        let ghost prev = r@;
        let v = c[i] as u32;
        if v < 0x10000 {
            r.push((v % 256) as u8);
            r.push((v / 256) as u8);
            assert(r@ =~= prev + seq![(v % 256) as u8, (v / 256) as u8]);
        } else {
            let w = v - 0x10000;
            let hi = 0xD800 + w / 1024;
            let lo = 0xDC00 + w % 1024;
            r.push((hi % 256) as u8);
            r.push((hi / 256) as u8);
            r.push((lo % 256) as u8);
            r.push((lo / 256) as u8);
            assert(r@ =~= prev + seq![(hi % 256) as u8, (hi / 256) as u8, (lo % 256) as u8, (lo / 256) as u8]);
        }
        i = i + 1;
    }
    assert(c@.take(c@.len() as int) =~= c@);
    r
}

/// The error on systems where the launcher cannot update itself.
pub fn unsupported_update_error() -> (e: crate::error::AppError)
    ensures
        e matches crate::error::AppError::Other(m) && m@ == "自动更新仅支持 Windows"@,
{
    crate::error::AppError::other("自动更新仅支持 Windows")
}

/// Being newer is strict: no version is newer than itself, and of two
/// versions at most one is newer than the other.
pub proof fn law_newer_is_strict(a: Seq<char>, b: Seq<char>)
    ensures
        !is_newer_spec(a, a),
        is_newer_spec(a, b) ==> !is_newer_spec(b, a),
{
}

/// Versions compare by their first three numbers in order: the first that
/// differs decides, whatever the later ones are, and equal numbers are not
/// newer.  The order is transitive.
pub proof fn law_newer_by_first_difference(local: Seq<char>, remote: Seq<char>)
    ensures
        ({
            let l = version_numbers(local);
            let r = version_numbers(remote);
            &&& part_at(r, 0) > part_at(l, 0) ==> is_newer_spec(local, remote)
            &&& part_at(r, 0) < part_at(l, 0) ==> !is_newer_spec(local, remote)
            &&& part_at(r, 0) == part_at(l, 0) && part_at(r, 1) > part_at(l, 1) ==> is_newer_spec(
                local,
                remote,
            )
            &&& part_at(r, 0) == part_at(l, 0) && part_at(r, 1) < part_at(l, 1) ==> !is_newer_spec(
                local,
                remote,
            )
            &&& part_at(r, 0) == part_at(l, 0) && part_at(r, 1) == part_at(l, 1) && part_at(r, 2)
                > part_at(l, 2) ==> is_newer_spec(local, remote)
            &&& part_at(r, 0) == part_at(l, 0) && part_at(r, 1) == part_at(l, 1) && part_at(r, 2)
                <= part_at(l, 2) ==> !is_newer_spec(local, remote)
        }),
{
}

/// Newer than newer is newer.
pub proof fn law_newer_is_transitive(a: Seq<char>, b: Seq<char>, c: Seq<char>)
    requires
        is_newer_spec(a, b),
        is_newer_spec(b, c),
    ensures
        is_newer_spec(a, c),
{
}

/// The installer is always saved under a name ending in `.exe` or `.msi`.
pub proof fn law_installer_name_is_an_installer(url: Seq<char>)
    ensures
        ends_with(installer_file_name_spec(url), ".exe"@) || ends_with(
            installer_file_name_spec(url),
            ".msi"@,
        ),
{
    let d = "R5R-CN-Launcher-setup.exe"@;
    reveal_strlit("R5R-CN-Launcher-setup.exe");
    reveal_strlit(".exe");
    assert(d.subrange(d.len() - 4, d.len() as int) =~= ".exe"@);
}

/// Escaping for a VBScript string doubles each `"` and keeps every other
/// character: it works piece by piece, a `"` becomes `""`, and any other
/// character stays as it is.
pub proof fn law_vbs_escape(a: Seq<char>, b: Seq<char>, c: char)
    ensures
        vbs_escape_spec(a + b) == vbs_escape_spec(a) + vbs_escape_spec(b),
        vbs_escape_spec(seq![c]) == (if c == '"' {
            seq!['"', '"']
        } else {
            seq![c]
        }),
    decreases b.len(),
{
    assert(seq![c].drop_last() =~= Seq::<char>::empty());
    assert(seq![c].last() == c);
    assert(vbs_escape_spec(Seq::<char>::empty()) == Seq::<char>::empty());
    assert(Seq::<char>::empty() + seq!['"', '"'] =~= seq!['"', '"']);
    assert(Seq::<char>::empty().push(c) =~= seq![c]);
    if b.len() == 0 {
        assert(a + b =~= a);
        assert(vbs_escape_spec(a) + Seq::<char>::empty() =~= vbs_escape_spec(a));
    } else {
        law_vbs_escape(a, b.drop_last(), c);
        assert((a + b).drop_last() =~= a + b.drop_last());
        assert((a + b).last() == b.last());
        if b.last() == '"' {
            assert(vbs_escape_spec(a) + (vbs_escape_spec(b.drop_last()) + seq!['"', '"'])
                =~= vbs_escape_spec(a) + vbs_escape_spec(b.drop_last()) + seq!['"', '"']);
        } else {
            assert(vbs_escape_spec(a) + vbs_escape_spec(b.drop_last()).push(b.last())
                =~= (vbs_escape_spec(a) + vbs_escape_spec(b.drop_last())).push(b.last()));
        }
    }
}

} // verus!
