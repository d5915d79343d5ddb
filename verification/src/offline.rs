//! Offline packs: which archive entries are kept, which channel a pack
//! holds, and the checks that explain a file that is no usable zip.

use crate::digest::{hex_digit, hex_spec};
use crate::error::AppError;
use crate::text::{
    chars_of, concat, eq_ic, eq_ignore_case, ends_with, ends_with_seq, eq_pred, lower_seq,
    slice_of, split_by, split_on_char, starts_with, starts_with_seq, string_of, to_ascii_lower,
    views,
};
use vstd::prelude::*;

verus! {

/// Where an offline install comes from.
#[derive(Debug, Clone)]
pub enum OfflineSource {
    Directory(String),
    Zip(String),
}

/// What inspecting a pack found: where its content starts, and the channel.
#[derive(Debug, Clone)]
pub struct DetectedShape {
    pub source_root: String,
    pub channel: String,
}

/// Whether `name` starts with `p`, ignoring ASCII case.
pub open spec fn has_prefix_ic(name: Seq<char>, p: Seq<char>) -> bool {
    name.len() >= p.len() && eq_ic(name.take(p.len() as int), p)
}

/// Archive entries under these top-level folders are extracted; all others
/// are skipped.
pub open spec fn keep_spec(name: Seq<char>) -> bool {
    has_prefix_ic(name, "R5R Library/"@) || has_prefix_ic(name, "R5R Launcher/"@)
}

/// Whether an archive entry is extracted: its name starts with one of the
/// kept folders, ignoring ASCII case.
pub fn zip_entry_keep(name: &str) -> (r: bool)
    ensures
        r == keep_spec(name@),
{
    let n = chars_of(name);
    let lib = chars_of("R5R Library/");
    let launcher = chars_of("R5R Launcher/");
    prefix_ic(&n, &lib) || prefix_ic(&n, &launcher)
}

fn prefix_ic(n: &Vec<char>, p: &Vec<char>) -> (r: bool)
    ensures
        r == has_prefix_ic(n@, p@),
{
    if n.len() < p.len() {
        return false;
    }
    let head = slice_of(n, 0, p.len());
    assert(head@ =~= n@.take(p@.len() as int));
    eq_ignore_case(&head, p)
}

/// The channel a pack's entry names, when it is the game's executable under
/// `R5R Library/<channel>/` (ignoring ASCII case): the folder just above
/// the executable.
pub open spec fn entry_channel_spec(name: Seq<char>) -> Option<Seq<char>> {
    let lower = lower_seq(name);
    let parts = split_by(name, eq_pred('/'));
    if starts_with(lower, "r5r library/"@) && ends_with(lower, "/r5apex.exe"@) && parts.len() >= 3 {
        Some(parts[parts.len() - 2])
    } else {
        None
    }
}

pub fn channel_from_entry_name(name: &str) -> (r: Option<String>)
    ensures
        match entry_channel_spec(name@) {
            Some(c) => r matches Some(s) && s@ == c,
            None => r is None,
        },
{
    let n = chars_of(name);
    let lower = to_ascii_lower(&n);
    let head = chars_of("r5r library/");
    let tail = chars_of("/r5apex.exe");
    if starts_with_seq(&lower, &head) && ends_with_seq(&lower, &tail) {
        let parts = split_on_char(&n, '/');
        if parts.len() >= 3 {
            let k = parts.len() - 2;
            assert(views(parts@)[k as int] == parts@[k as int]@);
            return Some(string_of(&parts[k]));
        }
    }
    None
}

/// The error when a streamed pack never showed the game's executable.
pub fn missing_anchor_error() -> (e: AppError)
    ensures
        e matches AppError::InvalidPath(m) && m@ == missing_anchor_text(),
{
    AppError::InvalidPath(
        crate::text::string_from_str(
            "zip 流结束但未发现 R5R Library/<频道>/r5apex.exe。可能是分卷包只含半壁（未合并前导卷），或压缩包在 r5apex.exe 之前就已截断。请确认来源完整性后重试，或改用【选择已解压的目录】导入。",
        ),
    )
}

pub open spec fn missing_anchor_text() -> Seq<char> {
    "zip 流结束但未发现 R5R Library/<频道>/r5apex.exe。可能是分卷包只含半壁（未合并前导卷），或压缩包在 r5apex.exe 之前就已截断。请确认来源完整性后重试，或改用【选择已解压的目录】导入。"@
}

/// Text of an error message, as an `InvalidPath`.
fn invalid_path(m: Vec<char>) -> (e: AppError)
    ensures
        e matches AppError::InvalidPath(t) && t@ == m@,
{
    AppError::InvalidPath(string_of(&m))
}

fn text3(a: &str, b: &[char], c: &str) -> (r: Vec<char>)
    ensures
        r@ == a@ + b@ + c@,
{
    let x = chars_of(a);
    let z = chars_of(c);
    let xy = concat(&x, b);
    concat(&xy, &z)
}

pub open spec fn seven_zip_text() -> Seq<char> {
    "这实际上是 7z 压缩包（扩展名被改成了 .zip）。请先用 7-Zip / Bandizip 解压为目录，再用【选择已解压的目录】导入。"@
}

pub open spec fn rar_text() -> Seq<char> {
    "这实际上是 RAR 压缩包（扩展名被改成了 .zip）。请先用 WinRAR / Bandizip 解压为目录，再用【选择已解压的目录】导入。"@
}

pub open spec fn exe_text() -> Seq<char> {
    "这实际上是一个 Windows 可执行文件（例如自解压安装器），不是 zip。请直接运行它解压，或向下载来源确认文件。"@
}

pub open spec fn split_text(companion: Seq<char>) -> Seq<char> {
    "检测到分卷压缩包（存在 "@ + companion
        + "）。本工具不支持分卷 zip —— 请先用 7-Zip / Bandizip 合并为单个 .zip，或解压成目录后用【选择已解压的目录】导入。"@
}

pub open spec fn hex_bytes_spaced(h: Seq<u8>) -> Seq<char> {
    hex_spec(seq![h[0]]) + seq![' '] + hex_spec(seq![h[1]]) + seq![' '] + hex_spec(seq![h[2]])
        + seq![' '] + hex_spec(seq![h[3]])
}

/// What the cheap checks before opening a zip say: too small for a zip, a
/// header of another format (7z, RAR, Windows executable, or no known
/// one), or a split-volume set beside it (`<stem>.z01`, `<name>.001`).
/// `head` is what reading the first four bytes returned.
pub open spec fn preflight_spec(size: u64, head: Seq<u8>, stem: Seq<char>, file_name: Seq<char>, z01_exists: bool, split_exists: bool) -> Option<Seq<char>> {
    if size < 22 {
        Some("文件过小（"@ + crate::text::decimal(size as nat) + " 字节），无法构成有效的 zip。请确认下载是否完整。"@)
    } else if head.len() >= 4 && !(head[0] == 0x50u8 && head[1] == 0x4bu8 && ((head[2] == 3u8 && head[3] == 4u8) || (head[2] == 5u8 && head[3] == 6u8) || (head[2] == 7u8 && head[3] == 8u8))) {
        if head[0] == 0x37u8 && head[1] == 0x7au8 && head[2] == 0xbcu8 && head[3] == 0xafu8 {
            Some(seven_zip_text())
        } else if head[0] == 0x52u8 && head[1] == 0x61u8 && head[2] == 0x72u8 && head[3] == 0x21u8 {
            Some(rar_text())
        } else if head[0] == 0x4du8 && head[1] == 0x5au8 {
            Some(exe_text())
        } else {
            Some("文件头不是 zip 签名（实际: "@ + hex_bytes_spaced(head)
                + "）。可能是下载被截断，或文件被改名。请重新下载或用 7-Zip 试解。"@)
        }
    } else if z01_exists {
        Some(split_text(stem + ".z01"@))
    } else if split_exists {
        Some(split_text(file_name + ".001"@))
    } else {
        None
    }
}

fn hex_byte(b: u8) -> (r: Vec<char>)
    ensures
        r@ == hex_spec(seq![b]),
{
    let hi = b / 16;
    let lo = b % 16;
    let ch = if hi < 10 { (('0' as u8) + hi) as char } else { (('a' as u8) + hi - 10) as char };
    let cl = if lo < 10 { (('0' as u8) + lo) as char } else { (('a' as u8) + lo - 10) as char };
    let mut r: Vec<char> = Vec::new();
    r.push(ch);
    r.push(cl);
    proof {
        let one = seq![b];
        assert(one.len() == 1);
        assert(one.last() == b);
        assert(one.drop_last() =~= Seq::<u8>::empty());
        assert(hex_spec(one.drop_last()) == Seq::<char>::empty());
        assert(hex_digit(b as int / 16) == ch);
        assert(hex_digit(b as int % 16) == cl);
        assert(hex_spec(one) == hex_spec(one.drop_last()) + seq![hex_digit(one.last() as int / 16), hex_digit(one.last() as int % 16)]);
        assert(hex_spec(one) =~= seq![ch, cl]);
    }
    assert(r@ =~= seq![ch, cl]);
    r
}

/// The cheap checks before opening a zip, on what was read of it: its
/// size, its first bytes, and whether split-volume companions exist.
pub fn preflight_zip(size: u64, head: &[u8], stem: &str, file_name: &str, z01_exists: bool, split_exists: bool) -> (r: Result<(), AppError>)
    ensures
        match preflight_spec(size, head@, stem@, file_name@, z01_exists, split_exists) {
            None => r is Ok,
            Some(m) => r matches Err(AppError::InvalidPath(t)) && t@ == m,
        },
{
    if size < 22 {
        let n = crate::text::decimal_of(size);
        return Err(invalid_path(text3("文件过小（", &n, " 字节），无法构成有效的 zip。请确认下载是否完整。")));
    }
    if head.len() >= 4 {
        let (a, b, c, d) = (head[0], head[1], head[2], head[3]);
        let zip_magic = a == 0x50 && b == 0x4b && ((c == 3 && d == 4) || (c == 5 && d == 6) || (c == 7 && d == 8));
        if !zip_magic {
            if a == 0x37 && b == 0x7a && c == 0xbc && d == 0xaf {
                return Err(AppError::InvalidPath(crate::text::string_from_str("这实际上是 7z 压缩包（扩展名被改成了 .zip）。请先用 7-Zip / Bandizip 解压为目录，再用【选择已解压的目录】导入。")));
            } else if a == 0x52 && b == 0x61 && c == 0x72 && d == 0x21 {
                return Err(AppError::InvalidPath(crate::text::string_from_str("这实际上是 RAR 压缩包（扩展名被改成了 .zip）。请先用 WinRAR / Bandizip 解压为目录，再用【选择已解压的目录】导入。")));
            } else if a == 0x4d && b == 0x5a {
                return Err(AppError::InvalidPath(crate::text::string_from_str("这实际上是一个 Windows 可执行文件（例如自解压安装器），不是 zip。请直接运行它解压，或向下载来源确认文件。")));
            } else {
                let sp = vec![' '];
                let ha = hex_byte(a);
                let hb = hex_byte(b);
                let hc = hex_byte(c);
                let hd = hex_byte(d);
                let mut h = concat(&ha, &sp);
                h = concat(&h, &hb);
                h = concat(&h, &sp);
                h = concat(&h, &hc);
                h = concat(&h, &sp);
                h = concat(&h, &hd);
                assert(h@ =~= hex_bytes_spaced(head@));
                return Err(invalid_path(text3("文件头不是 zip 签名（实际: ", &h, "）。可能是下载被截断，或文件被改名。请重新下载或用 7-Zip 试解。")));
            }
        }
    }
    if z01_exists {
        let sc = chars_of(stem);
        let ext = chars_of(".z01");
        let name = concat(&sc, &ext);
        return Err(invalid_path(text3("检测到分卷压缩包（存在 ", &name, "）。本工具不支持分卷 zip —— 请先用 7-Zip / Bandizip 合并为单个 .zip，或解压成目录后用【选择已解压的目录】导入。")));
    }
    if split_exists {
        let fc = chars_of(file_name);
        let ext = chars_of(".001");
        let name = concat(&fc, &ext);
        return Err(invalid_path(text3("检测到分卷压缩包（存在 ", &name, "）。本工具不支持分卷 zip —— 请先用 7-Zip / Bandizip 合并为单个 .zip，或解压成目录后用【选择已解压的目录】导入。")));
    }
    Ok(())
}

/// The next step of detecting a picked directory's layout.
#[derive(Debug, Clone)]
pub enum PickStep {
    /// The directory is a channel folder (the game's executable is in it):
    /// the channel is named after it.
    Channel(String),
    /// The directory is `R5R Library`: look for its single channel.
    ScanLibrary,
    /// Look for an `R5R Library` folder inside it.
    FindLibrary,
}

/// The first step of detecting a picked directory's layout, from what the
/// file system says of it: whether it is a directory, whether the game's
/// executable is in it, and its name (`shown` is how its path is shown).
pub fn detect_directory(shown: &str, is_dir: bool, has_exe: bool, file_name: Option<String>) -> (r: Result<PickStep, AppError>)
    ensures
        !is_dir ==> (r matches Err(AppError::InvalidPath(m)) && m@ == shown@ + " 不是一个目录"@),
        is_dir && has_exe ==> (r matches Ok(PickStep::Channel(c)) && c@ == match file_name {
            Some(n) => n@,
            None => "LIVE"@,
        }),
        is_dir && !has_exe ==> (r matches Ok(step) && (step is ScanLibrary <==> eq_ic(
            match file_name {
                Some(n) => n@,
                None => Seq::empty(),
            },
            "R5R Library"@,
        )) && !(step is Channel)),
{
    if !is_dir {
        let d = chars_of(shown);
        let tail = chars_of(" 不是一个目录");
        let m = concat(&d, &tail);
        return Err(invalid_path(m));
    }
    if has_exe {
        return match file_name {
            Some(n) => Ok(PickStep::Channel(n)),
            None => Ok(PickStep::Channel(crate::text::string_from_str("LIVE"))),
        };
    }
    let name = match &file_name {
        Some(n) => chars_of(n.as_str()),
        None => Vec::new(),
    };
    let lib = chars_of("R5R Library");
    if eq_ignore_case(&name, &lib) {
        Ok(PickStep::ScanLibrary)
    } else {
        Ok(PickStep::FindLibrary)
    }
}

/// `items` joined with `, `.
pub open spec fn join_comma(items: Seq<Seq<char>>) -> Seq<char>
    decreases items.len(),
{
    if items.len() == 0 {
        Seq::empty()
    } else if items.len() == 1 {
        items[0]
    } else {
        join_comma(items.drop_last()) + ", "@ + items.last()
    }
}

pub open spec fn string_seq(v: Seq<String>) -> Seq<Seq<char>> {
    v.map_values(|x: String| x@)
}

/// The channel of a library folder, from its channel folders (those with
/// the game's executable): exactly one is needed.
pub fn single_channel_in(candidates: Vec<String>) -> (r: Result<String, AppError>)
    ensures
        candidates@.len() == 0 ==> (r matches Err(AppError::InvalidPath(m)) && m@
            == "目录中未找到包含 r5apex.exe 的频道文件夹。"@),
        candidates@.len() == 1 ==> (r matches Ok(c) && c@ == candidates@[0]@),
        candidates@.len() > 1 ==> (r matches Err(AppError::InvalidPath(m)) && m@ == "目录中存在多个频道："@
            + join_comma(string_seq(candidates@)) + "。请只保留一个或单独导入。"@),
{
    if candidates.len() == 0 {
        return Err(AppError::InvalidPath(crate::text::string_from_str("目录中未找到包含 r5apex.exe 的频道文件夹。")));
    }
    if candidates.len() == 1 {
        return Ok(candidates[0].clone());
    }
    let sep = chars_of(", ");
    let mut joined: Vec<char> = Vec::new();
    let mut i: usize = 0;
    while i < candidates.len()
        invariant
            i <= candidates@.len(),
            sep@ == ", "@,
            joined@ == join_comma(string_seq(candidates@).take(i as int)),
        decreases candidates.len() - i,
    {
        assert(string_seq(candidates@).take(i + 1).drop_last() =~= string_seq(candidates@).take(i as int));
        let c = chars_of(candidates[i].as_str());
        if i > 0 {
            joined = concat(&joined, &sep);
        }
        joined = concat(&joined, &c);
        proof {
            if i == 0 {
                assert(joined@ =~= string_seq(candidates@).take(1)[0]);
            }
        }
        i = i + 1;
    }
    assert(string_seq(candidates@).take(candidates@.len() as int) =~= string_seq(candidates@));
    Err(invalid_path(text3("目录中存在多个频道：", &joined, "。请只保留一个或单独导入。")))
}

/// The error when no known layout was found.
pub fn no_shape_error() -> (e: AppError)
    ensures
        e matches AppError::InvalidPath(m) && m@ == "未能识别离线包结构。请确认目录中包含 `R5R Library/<频道>/r5apex.exe`。"@,
{
    AppError::InvalidPath(crate::text::string_from_str("未能识别离线包结构。请确认目录中包含 `R5R Library/<频道>/r5apex.exe`。"))
}

} // verus!
