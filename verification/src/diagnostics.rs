//! Crash diagnostics: which running programs are known to interfere with
//! the game, and which log files belong in a report.

use crate::error::AppError;
use crate::launch_options::{lemma_text_le_order, text_le, text_le_exec};
use crate::text::{
    chars_of, contains, contains_seq, ends_with, ends_with_seq, eq_ic, eq_ignore_case, lower_seq,
    seq_eq, starts_with, starts_with_seq, string_from_str, string_of, to_ascii_lower, trim,
    trim_ws,
};
use vstd::prelude::*;

verus! {

/// A running program known to interfere with the game.
#[derive(Debug, Clone, PartialEq, Eq)]
pub struct RiskyApplication {
    pub name: String,
    pub category: String,
    pub reason: String,
    pub process_name: String,
    pub pid: u32,
}

/// What a diagnostics report holds.
#[derive(Debug, Clone)]
pub struct DiagnosticReportResult {
    pub archive_path: String,
    pub game_log_directory: Option<String>,
    pub included_files: Vec<String>,
    pub missing_crash_files: Vec<String>,
    pub risky_applications: Vec<RiskyApplication>,
}

/// A kind of program known to interfere with the game.
#[derive(Debug, Clone, Copy)]
pub struct RiskRule {
    pub name: &'static str,
    pub category: &'static str,
    pub reason: &'static str,
}

/// How many kinds of programs are known.
pub const RULE_COUNT: usize = 26;

pub open spec fn rule_names() -> Seq<Seq<char>> {
    seq![
        "Steam 游戏内覆盖"@,
        "EA App / Origin 游戏内覆盖"@,
        "RivaTuner Statistics Server"@,
        "MSI Afterburner"@,
        "HWiNFO"@,
        "AIDA64"@,
        "GPU Tweak"@,
        "EVGA Precision"@,
        "AMD Ryzen Master"@,
        "Intel XTU"@,
        "OBS Studio"@,
        "Streamlabs"@,
        "XSplit"@,
        "哔哩哔哩直播姬"@,
        "斗鱼直播伴侣"@,
        "虎牙直播"@,
        "Wallpaper Engine"@,
        "Lively Wallpaper"@,
        "Discord 游戏内覆盖"@,
        "Overwolf"@,
        "NVIDIA 游戏内覆盖"@,
        "AMD Software 游戏内覆盖"@,
        "Xbox Game Bar"@,
        "Medal"@,
        "Razer Cortex"@,
        "NZXT CAM"@
    ]
}

pub open spec fn rule_categories() -> Seq<Seq<char>> {
    seq![
        "悬浮层/性能监控"@,
        "悬浮层/性能监控"@,
        "超频/性能监控"@,
        "超频/性能监控"@,
        "超频/性能监控"@,
        "超频/性能监控"@,
        "超频/性能监控"@,
        "超频/性能监控"@,
        "超频/性能监控"@,
        "超频/性能监控"@,
        "直播/录屏"@,
        "直播/录屏"@,
        "直播/录屏"@,
        "直播/录屏"@,
        "直播/录屏"@,
        "直播/录屏"@,
        "动态壁纸"@,
        "动态壁纸"@,
        "悬浮层/性能监控"@,
        "悬浮层/性能监控"@,
        "悬浮层/性能监控"@,
        "悬浮层/性能监控"@,
        "悬浮层/录屏"@,
        "直播/录屏"@,
        "悬浮层/性能监控"@,
        "悬浮层/性能监控"@
    ]
}

pub open spec fn rule_reasons() -> Seq<Seq<char>> {
    seq![
        "游戏内覆盖和性能图层会向渲染进程注入组件"@,
        "EA/Origin 游戏内覆盖组件可能与其他注入层冲突"@,
        "帧率监控会注入游戏渲染进程"@,
        "硬件监控和悬浮显示可能影响游戏稳定性"@,
        "传感器轮询和共享监控可能与悬浮层联动"@,
        "传感器监控或屏显功能可能影响稳定性"@,
        "显卡调校与屏显功能可能影响游戏稳定性"@,
        "显卡调校与屏显功能可能影响游戏稳定性"@,
        "处理器调校或监控可能影响系统稳定性"@,
        "处理器调校或监控可能影响系统稳定性"@,
        "游戏捕获会挂接图形接口"@,
        "游戏捕获和悬浮组件会挂接图形接口"@,
        "游戏捕获会挂接图形接口"@,
        "游戏捕获和弹幕悬浮层可能影响稳定性"@,
        "游戏捕获和弹幕悬浮层可能影响稳定性"@,
        "游戏捕获和弹幕悬浮层可能影响稳定性"@,
        "动态壁纸持续使用图形资源，可能与独占全屏或驱动冲突"@,
        "动态壁纸持续使用图形资源，可能与独占全屏或驱动冲突"@,
        "游戏内覆盖会向渲染进程注入组件"@,
        "游戏内应用和悬浮层会向渲染进程注入组件"@,
        "性能图层、滤镜或录制功能可能与其他注入层冲突"@,
        "性能图层或录制功能可能与其他注入层冲突"@,
        "游戏栏和后台录制会挂接游戏窗口"@,
        "自动剪辑和游戏捕获会挂接图形接口"@,
        "游戏内图层和优化功能可能改变游戏运行环境"@,
        "硬件监控和游戏内图层可能影响稳定性"@
    ]
}

/// The name fragments (lower case) by which each kind is recognised.
pub open spec fn rule_patterns() -> Seq<Seq<Seq<char>>> {
    seq![
        seq!["gameoverlayui"@, "steamoverlay"@, "steam.exe"@],
        seq!["igo64"@, "igo32"@, "origin.exe"@, "originwebhelperservice"@, "eadesktop.exe"@],
        seq!["rtss"@, "rivatuner"@],
        seq!["msiafterburner"@, "afterburner"@],
        seq!["hwinfo32"@, "hwinfo64"@, "hwinfo"@],
        seq!["aida64"@],
        seq!["gputweak"@, "asusgputweak"@],
        seq!["precisionx"@, "precision_x"@],
        seq!["ryzenmaster"@],
        seq!["xtuui"@, "xtuservice"@],
        seq!["obs32"@, "obs64"@, "obs-studio"@],
        seq!["streamlabs"@],
        seq!["xsplit"@],
        seq!["livehime"@, "bilibili live"@],
        seq!["douyutool"@, "douyu"@],
        seq!["huyaclient"@, "huya"@],
        seq!["wallpaper32"@, "wallpaper64"@, "wallpaper_engine"@],
        seq!["livelywpf"@, "lively.wallpaper"@, "lively"@],
        seq!["discord"@],
        seq!["overwolf"@],
        seq!["nvidia share"@, "nvcontainer"@, "nvidia app"@],
        seq!["radeonsoftware"@, "amdow"@],
        seq!["gamebar"@, "gamebarftserver"@],
        seq!["medal"@],
        seq!["razercortex"@, "cortexlauncher"@],
        seq!["nzxt cam"@, "nzxtcam"@]
    ]
}

/// Whether the lower-cased process name `lower` holds one of the fragments
/// of rule `i`.
pub open spec fn rule_hits(i: int, lower: Seq<char>) -> bool {
    exists|j: int| 0 <= j < rule_patterns()[i].len() && contains_seq(lower, #[trigger] rule_patterns()[i][j])
}

/// The first rule, from `i` on, whose fragments the lower-cased name holds.
pub open spec fn first_rule_from(lower: Seq<char>, i: int) -> Option<int>
    decreases RULE_COUNT - i,
{
    if i < 0 || i >= RULE_COUNT {
        None
    } else if rule_hits(i, lower) {
        Some(i)
    } else {
        first_rule_from(lower, i + 1)
    }
}

fn rule(i: usize) -> (r: RiskRule)
    requires
        i < RULE_COUNT,
    ensures
        r.name@ == rule_names()[i as int],
        r.category@ == rule_categories()[i as int],
        r.reason@ == rule_reasons()[i as int],
{

    if i == 0 {
        RiskRule { name: "Steam 游戏内覆盖", category: "悬浮层/性能监控", reason: "游戏内覆盖和性能图层会向渲染进程注入组件" }
    } else if i == 1 {
        RiskRule { name: "EA App / Origin 游戏内覆盖", category: "悬浮层/性能监控", reason: "EA/Origin 游戏内覆盖组件可能与其他注入层冲突" }
    } else if i == 2 {
        RiskRule { name: "RivaTuner Statistics Server", category: "超频/性能监控", reason: "帧率监控会注入游戏渲染进程" }
    } else if i == 3 {
        RiskRule { name: "MSI Afterburner", category: "超频/性能监控", reason: "硬件监控和悬浮显示可能影响游戏稳定性" }
    } else if i == 4 {
        RiskRule { name: "HWiNFO", category: "超频/性能监控", reason: "传感器轮询和共享监控可能与悬浮层联动" }
    } else if i == 5 {
        RiskRule { name: "AIDA64", category: "超频/性能监控", reason: "传感器监控或屏显功能可能影响稳定性" }
    } else if i == 6 {
        RiskRule { name: "GPU Tweak", category: "超频/性能监控", reason: "显卡调校与屏显功能可能影响游戏稳定性" }
    } else if i == 7 {
        RiskRule { name: "EVGA Precision", category: "超频/性能监控", reason: "显卡调校与屏显功能可能影响游戏稳定性" }
    } else if i == 8 {
        RiskRule { name: "AMD Ryzen Master", category: "超频/性能监控", reason: "处理器调校或监控可能影响系统稳定性" }
    } else if i == 9 {
        RiskRule { name: "Intel XTU", category: "超频/性能监控", reason: "处理器调校或监控可能影响系统稳定性" }
    } else if i == 10 {
        RiskRule { name: "OBS Studio", category: "直播/录屏", reason: "游戏捕获会挂接图形接口" }
    } else if i == 11 {
        RiskRule { name: "Streamlabs", category: "直播/录屏", reason: "游戏捕获和悬浮组件会挂接图形接口" }
    } else if i == 12 {
        RiskRule { name: "XSplit", category: "直播/录屏", reason: "游戏捕获会挂接图形接口" }
    } else if i == 13 {
        RiskRule { name: "哔哩哔哩直播姬", category: "直播/录屏", reason: "游戏捕获和弹幕悬浮层可能影响稳定性" }
    } else if i == 14 {
        RiskRule { name: "斗鱼直播伴侣", category: "直播/录屏", reason: "游戏捕获和弹幕悬浮层可能影响稳定性" }
    } else if i == 15 {
        RiskRule { name: "虎牙直播", category: "直播/录屏", reason: "游戏捕获和弹幕悬浮层可能影响稳定性" }
    } else if i == 16 {
        RiskRule { name: "Wallpaper Engine", category: "动态壁纸", reason: "动态壁纸持续使用图形资源，可能与独占全屏或驱动冲突" }
    } else if i == 17 {
        RiskRule { name: "Lively Wallpaper", category: "动态壁纸", reason: "动态壁纸持续使用图形资源，可能与独占全屏或驱动冲突" }
    } else if i == 18 {
        RiskRule { name: "Discord 游戏内覆盖", category: "悬浮层/性能监控", reason: "游戏内覆盖会向渲染进程注入组件" }
    } else if i == 19 {
        RiskRule { name: "Overwolf", category: "悬浮层/性能监控", reason: "游戏内应用和悬浮层会向渲染进程注入组件" }
    } else if i == 20 {
        RiskRule { name: "NVIDIA 游戏内覆盖", category: "悬浮层/性能监控", reason: "性能图层、滤镜或录制功能可能与其他注入层冲突" }
    } else if i == 21 {
        RiskRule { name: "AMD Software 游戏内覆盖", category: "悬浮层/性能监控", reason: "性能图层或录制功能可能与其他注入层冲突" }
    } else if i == 22 {
        RiskRule { name: "Xbox Game Bar", category: "悬浮层/录屏", reason: "游戏栏和后台录制会挂接游戏窗口" }
    } else if i == 23 {
        RiskRule { name: "Medal", category: "直播/录屏", reason: "自动剪辑和游戏捕获会挂接图形接口" }
    } else if i == 24 {
        RiskRule { name: "Razer Cortex", category: "悬浮层/性能监控", reason: "游戏内图层和优化功能可能改变游戏运行环境" }
    } else {
        RiskRule { name: "NZXT CAM", category: "悬浮层/性能监控", reason: "硬件监控和游戏内图层可能影响稳定性" }
    }
}

fn patterns(i: usize) -> (r: Vec<&'static str>)
    requires
        i < RULE_COUNT,
    ensures
        r@.len() == rule_patterns()[i as int].len(),
        forall|j: int| 0 <= j < r@.len() ==> (#[trigger] r@[j])@ == rule_patterns()[i as int][j],
{
    let mut v: Vec<&'static str> = Vec::new();

    if i == 0 {
        v.push("gameoverlayui");
        v.push("steamoverlay");
        v.push("steam.exe");
    } else if i == 1 {
        v.push("igo64");
        v.push("igo32");
        v.push("origin.exe");
        v.push("originwebhelperservice");
        v.push("eadesktop.exe");
    } else if i == 2 {
        v.push("rtss");
        v.push("rivatuner");
    } else if i == 3 {
        v.push("msiafterburner");
        v.push("afterburner");
    } else if i == 4 {
        v.push("hwinfo32");
        v.push("hwinfo64");
        v.push("hwinfo");
    } else if i == 5 {
        v.push("aida64");
    } else if i == 6 {
        v.push("gputweak");
        v.push("asusgputweak");
    } else if i == 7 {
        v.push("precisionx");
        v.push("precision_x");
    } else if i == 8 {
        v.push("ryzenmaster");
    } else if i == 9 {
        v.push("xtuui");
        v.push("xtuservice");
    } else if i == 10 {
        v.push("obs32");
        v.push("obs64");
        v.push("obs-studio");
    } else if i == 11 {
        v.push("streamlabs");
    } else if i == 12 {
        v.push("xsplit");
    } else if i == 13 {
        v.push("livehime");
        v.push("bilibili live");
    } else if i == 14 {
        v.push("douyutool");
        v.push("douyu");
    } else if i == 15 {
        v.push("huyaclient");
        v.push("huya");
    } else if i == 16 {
        v.push("wallpaper32");
        v.push("wallpaper64");
        v.push("wallpaper_engine");
    } else if i == 17 {
        v.push("livelywpf");
        v.push("lively.wallpaper");
        v.push("lively");
    } else if i == 18 {
        v.push("discord");
    } else if i == 19 {
        v.push("overwolf");
    } else if i == 20 {
        v.push("nvidia share");
        v.push("nvcontainer");
        v.push("nvidia app");
    } else if i == 21 {
        v.push("radeonsoftware");
        v.push("amdow");
    } else if i == 22 {
        v.push("gamebar");
        v.push("gamebarftserver");
    } else if i == 23 {
        v.push("medal");
    } else if i == 24 {
        v.push("razercortex");
        v.push("cortexlauncher");
    } else {
        v.push("nzxt cam");
        v.push("nzxtcam");
    }
    v
}

/// The kind of interfering program a process is, by its name: the first
/// rule one of whose fragments the name (ASCII lower-cased) holds.
pub fn classify_process(process_name: &str) -> (r: Option<RiskRule>)
    ensures
        match first_rule_from(lower_seq(process_name@), 0) {
            Some(i) => r matches Some(rule) && rule.name@ == rule_names()[i] && rule.category@
                == rule_categories()[i] && rule.reason@ == rule_reasons()[i],
            None => r is None,
        },
{
    let name = chars_of(process_name);
    let lower = to_ascii_lower(&name);
    let mut i: usize = 0;
    while i < RULE_COUNT
        invariant
            i <= RULE_COUNT,
            lower@ == lower_seq(process_name@),
            first_rule_from(lower@, 0) == first_rule_from(lower@, i as int),
        decreases RULE_COUNT - i,
    {
        let ps = patterns(i);
        let mut j: usize = 0;
        let mut hit = false;
        while j < ps.len()
            invariant
                j <= ps@.len(),
                i < RULE_COUNT,
                ps@.len() == rule_patterns()[i as int].len(),
                forall|k: int| 0 <= k < ps@.len() ==> (#[trigger] ps@[k])@ == rule_patterns()[i as int][k],
                hit == exists|k: int| 0 <= k < j && contains_seq(lower@, #[trigger] rule_patterns()[i as int][k]),
            decreases ps.len() - j,
        {
            let p = chars_of(ps[j]);
            if contains(&lower, &p) {
                hit = true;
            }
            j = j + 1;
        }
        if hit {
            return Some(rule(i));
        }
        i = i + 1;
    }
    None
}

/// The names of the game's session logs.
pub open spec fn log_names() -> Seq<Seq<char>> {
    seq!["message.log"@, "warning.log"@, "error.log"@, "script.log"@, "script_warning.log"@,
        "filesystem.log"@, "net_trace.log"@, "netconsole.log"@]
}

/// Whether a file in the game's log folder belongs in a report: a session
/// log, a crash text (`apex_crash*.txt`) or a minidump (`minidump*.dmp`),
/// names compared in ASCII lower case.
pub open spec fn relevant_log_spec(file_name: Seq<char>) -> bool {
    let lower = lower_seq(file_name);
    ||| log_names().contains(lower)
    ||| (starts_with(lower, "apex_crash"@) && ends_with(lower, ".txt"@))
    ||| (starts_with(lower, "minidump"@) && ends_with(lower, ".dmp"@))
}

pub fn is_relevant_game_log(file_name: &str) -> (r: bool)
    ensures
        r == relevant_log_spec(file_name@),
{
    let name = chars_of(file_name);
    let lower = to_ascii_lower(&name);
    let names = vec!["message.log", "warning.log", "error.log", "script.log", "script_warning.log",
        "filesystem.log", "net_trace.log", "netconsole.log"];
    let mut i: usize = 0;
    let mut listed = false;
    while i < names.len()
        invariant
            i <= names@.len(),
            names@.len() == 8,
            forall|k: int| 0 <= k < 8 ==> (#[trigger] names@[k])@ == log_names()[k],
            listed == exists|k: int| 0 <= k < i && log_names()[k] == lower@,
        decreases names.len() - i,
    {
        let n = chars_of(names[i]);
        if seq_eq(&n, &lower) {
            listed = true;
        }
        i = i + 1;
    }
    proof {
        if log_names().contains(lower@) {
            let w = choose|w: int| 0 <= w < log_names().len() && log_names()[w] == lower@;
            assert(0 <= w < 8);
        }
    }
    let crash = chars_of("apex_crash");
    let txt = chars_of(".txt");
    let dump = chars_of("minidump");
    let dmp = chars_of(".dmp");
    listed || (starts_with_seq(&lower, &crash) && ends_with_seq(&lower, &txt)) || (starts_with_seq(&lower, &dump) && ends_with_seq(&lower, &dmp))
}

/// A report is a zip archive: its file must end in `.zip` (ignoring ASCII
/// case); `extension` is the file's extension, if it has one.
pub fn check_report_destination(extension: Option<&str>) -> (r: Result<(), AppError>)
    ensures
        match extension {
            Some(e) => eq_ic(e@, "zip"@),
            None => false,
        } ==> r is Ok,
        !match extension {
            Some(e) => eq_ic(e@, "zip"@),
            None => false,
        } ==> (r matches Err(AppError::InvalidPath(m)) && m@ == "诊断包保存路径必须以 .zip 结尾"@),
{
    let ok = match extension {
        Some(e) => {
            let c = chars_of(e);
            let z = chars_of("zip");
            eq_ignore_case(&c, &z)
        },
        None => false,
    };
    if ok {
        Ok(())
    } else {
        Err(AppError::InvalidPath(string_from_str("诊断包保存路径必须以 .zip 结尾")))
    }
}

/// Whether a log file is a crash text: `apex_crash*.txt`, in ASCII lower
/// case.
pub fn is_crash_text(file_name: &str) -> (r: bool)
    ensures
        r == (starts_with(lower_seq(file_name@), "apex_crash"@) && ends_with(lower_seq(file_name@), ".txt"@)),
{
    let lower = to_ascii_lower(&chars_of(file_name));
    let head = chars_of("apex_crash");
    let tail = chars_of(".txt");
    starts_with_seq(&lower, &head) && ends_with_seq(&lower, &tail)
}

/// Whether a log file is a minidump: `minidump*.dmp`, in ASCII lower case.
pub fn is_minidump(file_name: &str) -> (r: bool)
    ensures
        r == (starts_with(lower_seq(file_name@), "minidump"@) && ends_with(lower_seq(file_name@), ".dmp"@)),
{
    let lower = to_ascii_lower(&chars_of(file_name));
    let head = chars_of("minidump");
    let tail = chars_of(".dmp");
    starts_with_seq(&lower, &head) && ends_with_seq(&lower, &tail)
}

/// The crash files a report lacks, by the kinds seen among its logs.
pub fn missing_crash_files(found_crash_text: bool, found_minidump: bool) -> (r: Vec<String>)
    ensures
        r@.len() == (if found_crash_text { 0int } else { 1int }) + (if found_minidump { 0int } else { 1int }),
        !found_crash_text ==> r@[0]@ == "apex_crash.txt"@,
        !found_minidump ==> r@[r@.len() - 1]@ == "minidump.dmp"@,
{
    let mut out: Vec<String> = Vec::new();
    if !found_crash_text {
        out.push(string_from_str("apex_crash.txt"));
    }
    if !found_minidump {
        out.push(string_from_str("minidump.dmp"));
    }
    out
}

/// A running process as a report lists it: its id, its name (trimmed),
/// and the kind of interfering program it is, if any.
#[derive(Debug, Clone)]
pub struct ProcessEntry {
    pub pid: u32,
    pub name: String,
    pub risk: Option<RiskRule>,
}

/// A rule's name, category and reason.
pub type RuleView = (Seq<char>, Seq<char>, Seq<char>);

/// A listed process: id, name, and the rule it falls under.
pub type ProcessView = (u32, Seq<char>, Option<RuleView>);

/// An interfering program found: the rule, the process's name and id.
pub type RiskyView = (RuleView, Seq<char>, u32);

pub open spec fn rule_view(i: int) -> RuleView {
    (rule_names()[i], rule_categories()[i], rule_reasons()[i])
}

pub open spec fn process_view(e: ProcessEntry) -> ProcessView {
    (e.pid, e.name@, match e.risk {
        Some(r) => Some((r.name@, r.category@, r.reason@)),
        None => None,
    })
}

pub open spec fn risky_view(a: RiskyApplication) -> RiskyView {
    ((a.name@, a.category@, a.reason@), a.process_name@, a.pid)
}

/// The processes worth listing, in the order given: those whose name,
/// trimmed, is not empty, with that name and the first rule it falls under.
pub open spec fn listed_processes(procs: Seq<(u32, String)>) -> Seq<ProcessView>
    decreases procs.len(),
{
    if procs.len() == 0 {
        Seq::empty()
    } else {
        let r = listed_processes(procs.drop_last());
        let (pid, name) = procs.last();
        let t = trim(name@);
        if t.len() == 0 {
            r
        } else {
            r.push(
                (pid, t, match first_rule_from(lower_seq(t), 0) {
                    Some(i) => Some(rule_view(i)),
                    None => None,
                }),
            )
        }
    }
}

/// The interfering programs among the listed processes, one per rule name:
/// the first process found of each.
pub open spec fn risky_found(ps: Seq<ProcessView>) -> Seq<RiskyView>
    decreases ps.len(),
{
    if ps.len() == 0 {
        Seq::empty()
    } else {
        let r = risky_found(ps.drop_last());
        let p = ps.last();
        match p.2 {
            Some(rule) => if exists|j: int| 0 <= j < r.len() && (#[trigger] r[j]).0.0 == rule.0 {
                r
            } else {
                r.push((rule, p.1, p.0))
            },
            None => r,
        }
    }
}

/// `s` with `x` put after the last element from the end that orders at or
/// before it (so, in a sorted `s`, after its equals: a stable insertion).
pub open spec fn insert_ordered<T>(s: Seq<T>, x: T, le: spec_fn(T, T) -> bool) -> Seq<T>
    decreases s.len(),
{
    if s.len() == 0 {
        seq![x]
    } else if le(s.last(), x) {
        s.push(x)
    } else {
        insert_ordered(s.drop_last(), x, le).push(s.last())
    }
}

/// `s` sorted by `le`, keeping the order of equal elements (as a stable
/// sort does).
pub open spec fn sort_stable<T>(s: Seq<T>, le: spec_fn(T, T) -> bool) -> Seq<T>
    decreases s.len(),
{
    if s.len() == 0 {
        Seq::empty()
    } else {
        insert_ordered(sort_stable(s.drop_last(), le), s.last(), le)
    }
}

/// Processes order interfering ones first, then by name ignoring ASCII
/// case, then by id.
pub open spec fn process_order() -> spec_fn(ProcessView, ProcessView) -> bool {
    |a: ProcessView, b: ProcessView|
        if (a.2 is Some) != (b.2 is Some) {
            a.2 is Some
        } else if lower_seq(a.1) != lower_seq(b.1) {
            text_le(lower_seq(a.1), lower_seq(b.1))
        } else {
            a.0 <= b.0
        }
}

/// Interfering programs order by category, then by name, then by id.
pub open spec fn risky_order() -> spec_fn(RiskyView, RiskyView) -> bool {
    |a: RiskyView, b: RiskyView|
        if a.0.1 != b.0.1 {
            text_le(a.0.1, b.0.1)
        } else if a.0.0 != b.0.0 {
            text_le(a.0.0, b.0.0)
        } else {
            a.2 <= b.2
        }
}

/// `insert_ordered` puts `x` at `j` when the elements from `j` on order
/// after it and the one before `j` at or before it.
pub proof fn lemma_insert_at<T>(s: Seq<T>, x: T, le: spec_fn(T, T) -> bool, j: int)
    requires
        0 <= j <= s.len(),
        forall|m: int| j <= m < s.len() ==> !le(#[trigger] s[m], x),
        j > 0 ==> le(s[j - 1], x),
    ensures
        insert_ordered(s, x, le) == s.take(j) + seq![x] + s.skip(j),
    decreases s.len(),
{
    if s.len() == 0 {
        assert(s.take(j) + seq![x] + s.skip(j) =~= seq![x]);
    } else if j == s.len() {
        assert(s.take(j) + seq![x] + s.skip(j) =~= s.push(x));
    } else {
        let d = s.drop_last();
        assert(!le(s[s.len() - 1], x));
        assert forall|m: int| j <= m < d.len() implies !le(#[trigger] d[m], x) by {
            assert(d[m] == s[m]);
        }
        if j > 0 {
            assert(d[j - 1] == s[j - 1]);
        }
        lemma_insert_at(d, x, le, j);
        assert(s.take(j) + seq![x] + s.skip(j) =~= (d.take(j) + seq![x] + d.skip(j)).push(s.last()));
    }
}

fn process_le(a: &ProcessEntry, b: &ProcessEntry) -> (r: bool)
    ensures
        r == (process_order())(process_view(*a), process_view(*b)),
{
    let ra = a.risk.is_some();
    let rb = b.risk.is_some();
    if ra != rb {
        return ra;
    }
    let la = to_ascii_lower(&chars_of(a.name.as_str()));
    let lb = to_ascii_lower(&chars_of(b.name.as_str()));
    if !seq_eq(&la, &lb) {
        return text_le_exec(&la, &lb);
    }
    a.pid <= b.pid
}

fn risky_le(a: &RiskyApplication, b: &RiskyApplication) -> (r: bool)
    ensures
        r == (risky_order())(risky_view(*a), risky_view(*b)),
{
    let ca = chars_of(a.category.as_str());
    let cb = chars_of(b.category.as_str());
    if !seq_eq(&ca, &cb) {
        return text_le_exec(&ca, &cb);
    }
    let na = chars_of(a.name.as_str());
    let nb = chars_of(b.name.as_str());
    if !seq_eq(&na, &nb) {
        return text_le_exec(&na, &nb);
    }
    a.pid <= b.pid
}

/// Put `e` into the ordered list `out`, after its equals.
fn insert_process(out: &mut Vec<ProcessEntry>, e: ProcessEntry)
    ensures
        final(out)@.map_values(|p: ProcessEntry| process_view(p)) == insert_ordered(
            old(out)@.map_values(|p: ProcessEntry| process_view(p)),
            process_view(e),
            process_order(),
        ),
{
    let ghost vs = out@.map_values(|p: ProcessEntry| process_view(p));
    let mut j: usize = out.len();
    while j > 0 && !process_le(&out[j - 1], &e)
        invariant
            j <= out@.len(),
            vs == out@.map_values(|p: ProcessEntry| process_view(p)),
            forall|m: int| j <= m < vs.len() ==> !(process_order())(#[trigger] vs[m], process_view(e)),
        decreases j,
    {
        j = j - 1;
    }
    proof {
        if j > 0 {
            assert(vs[j - 1] == process_view(out@[j - 1]));
        }
        lemma_insert_at(vs, process_view(e), process_order(), j as int);
    }
    let ghost pv = process_view(e);
    out.insert(j, e);
    assert(out@.map_values(|p: ProcessEntry| process_view(p)) =~= vs.take(j as int) + seq![pv]
        + vs.skip(j as int));
}

/// Put `a` into the ordered list `out`, after its equals.
fn insert_risky(out: &mut Vec<RiskyApplication>, a: RiskyApplication)
    ensures
        final(out)@.map_values(|p: RiskyApplication| risky_view(p)) == insert_ordered(
            old(out)@.map_values(|p: RiskyApplication| risky_view(p)),
            risky_view(a),
            risky_order(),
        ),
{
    let ghost vs = out@.map_values(|p: RiskyApplication| risky_view(p));
    let mut j: usize = out.len();
    while j > 0 && !risky_le(&out[j - 1], &a)
        invariant
            j <= out@.len(),
            vs == out@.map_values(|p: RiskyApplication| risky_view(p)),
            forall|m: int| j <= m < vs.len() ==> !(risky_order())(#[trigger] vs[m], risky_view(a)),
        decreases j,
    {
        j = j - 1;
    }
    proof {
        if j > 0 {
            assert(vs[j - 1] == risky_view(out@[j - 1]));
        }
        lemma_insert_at(vs, risky_view(a), risky_order(), j as int);
    }
    let ghost av = risky_view(a);
    out.insert(j, a);
    assert(out@.map_values(|p: RiskyApplication| risky_view(p)) =~= vs.take(j as int) + seq![av]
        + vs.skip(j as int));
}

/// The process list of a report, and the interfering programs found,
/// from the running processes (id and name, in the order the system gave
/// them): processes with a blank name are left out; each is listed with
/// its trimmed name and the rule it falls under, interfering ones first,
/// then by name ignoring ASCII case, then by id; each rule's first process
/// is reported as an interfering program, ordered by category, name and
/// id.
pub fn summarize_processes(procs: &Vec<(u32, String)>) -> (r: (Vec<ProcessEntry>, Vec<RiskyApplication>))
    ensures
        r.0@.map_values(|p: ProcessEntry| process_view(p)) == sort_stable(
            listed_processes(procs@),
            process_order(),
        ),
        r.1@.map_values(|a: RiskyApplication| risky_view(a)) == sort_stable(
            risky_found(listed_processes(procs@)),
            risky_order(),
        ),
{
    let mut out: Vec<ProcessEntry> = Vec::new();
    let mut risky: Vec<RiskyApplication> = Vec::new();
    let mut seen: Vec<&'static str> = Vec::new();
    let mut k: usize = 0;
    while k < procs.len()
        invariant
            k <= procs@.len(),
            out@.map_values(|p: ProcessEntry| process_view(p)) == sort_stable(
                listed_processes(procs@.take(k as int)),
                process_order(),
            ),
            risky@.map_values(|a: RiskyApplication| risky_view(a)) == sort_stable(
                risky_found(listed_processes(procs@.take(k as int))),
                risky_order(),
            ),
            seen@.len() == risky_found(listed_processes(procs@.take(k as int))).len(),
            forall|j: int|
                0 <= j < seen@.len() ==> (#[trigger] seen@[j])@ == risky_found(
                    listed_processes(procs@.take(k as int)),
                )[j].0.0,
        decreases procs.len() - k,
    {
        let ghost before = procs@.take(k as int);
        let ghost after = procs@.take(k + 1);
        assert(after.drop_last() =~= before);
        assert(after.last() == procs@[k as int]);
        let pid = procs[k].0;
        let t = trim_ws(&chars_of(procs[k].1.as_str()));
        if t.len() > 0 {
            let name = string_of(&t);
            let risk = classify_process(name.as_str());
            let ghost ls = listed_processes(before);
            let ghost found = risky_found(ls);
            let ghost row: ProcessView = (pid, t@, match first_rule_from(lower_seq(t@), 0) {
                Some(i) => Some(rule_view(i)),
                None => None,
            });
            assert(listed_processes(after) == ls.push(row));
            assert(ls.push(row).drop_last() =~= ls);
            match risk {
                Some(rule) => {
                    let mut dup = false;
                    let mut j: usize = 0;
                    while j < seen.len()
                        invariant
                            j <= seen@.len(),
                            seen@.len() == found.len(),
                            forall|m: int| 0 <= m < seen@.len() ==> (#[trigger] seen@[m])@ == found[m].0.0,
                            dup == exists|m: int| 0 <= m < j && (#[trigger] found[m]).0.0 == rule.name@,
                        decreases seen.len() - j,
                    {
                        if seq_eq(&chars_of(seen[j]), &chars_of(rule.name)) {
                            assert(found[j as int].0.0 == rule.name@);
                            dup = true;
                        }
                        j = j + 1;
                    }
                    assert(risky_found(ls.push(row)) == if dup {
                        found
                    } else {
                        found.push((row.2->0, row.1, row.0))
                    });
                    if !dup {
                        let a = RiskyApplication {
                            name: string_from_str(rule.name),
                            category: string_from_str(rule.category),
                            reason: string_from_str(rule.reason),
                            process_name: string_from_str(name.as_str()),
                            pid,
                        };
                        insert_risky(&mut risky, a);
                        seen.push(rule.name);
                        assert(found.push((row.2->0, row.1, row.0)).drop_last() =~= found);
                    }
                },
                None => {},
            }
            let e = ProcessEntry { pid, name, risk };
            assert(process_view(e) == row);
            insert_process(&mut out, e);
        } else {
            assert(listed_processes(after) == listed_processes(before));
        }
        k = k + 1;
    }
    assert(procs@.take(procs@.len() as int) =~= procs@);
    (out, risky)
}

/// `le` compares any two elements and is transitive.
pub open spec fn total_preorder<T>(le: spec_fn(T, T) -> bool) -> bool {
    &&& forall|a: T, b: T| #[trigger] le(a, b) || le(b, a)
    &&& forall|a: T, b: T, c: T| #[trigger] le(a, b) && #[trigger] le(b, c) ==> le(a, c)
}

/// Each element of `s` orders at or before every later one.
pub open spec fn ordered_by<T>(s: Seq<T>, le: spec_fn(T, T) -> bool) -> bool {
    forall|i: int, j: int| 0 <= i < j < s.len() ==> le(#[trigger] s[i], #[trigger] s[j])
}

proof fn lemma_insert_ordered_sorted<T>(s: Seq<T>, x: T, le: spec_fn(T, T) -> bool)
    requires
        total_preorder(le),
        ordered_by(s, le),
    ensures
        ordered_by(insert_ordered(s, x, le), le),
        insert_ordered(s, x, le).to_multiset() == s.to_multiset().insert(x),
    decreases s.len(),
{
    broadcast use vstd::seq_lib::group_to_multiset_ensures;

    if s.len() == 0 {
        assert(seq![x] =~= Seq::<T>::empty().push(x));
    } else if le(s.last(), x) {
        let r = s.push(x);
        assert forall|i: int, j: int| 0 <= i < j < r.len() implies le(#[trigger] r[i], #[trigger] r[j]) by {
            if j == r.len() - 1 && i < s.len() - 1 {
                assert(le(s[i], s[s.len() - 1]));
            }
        }
    } else {
        let d = s.drop_last();
        let l = s.last();
        assert(ordered_by(d, le)) by {
            assert forall|i: int, j: int| 0 <= i < j < d.len() implies le(#[trigger] d[i], #[trigger] d[j]) by {
                assert(le(s[i], s[j]));
            }
        }
        lemma_insert_ordered_sorted(d, x, le);
        let r = insert_ordered(d, x, le);
        assert(le(x, l));
        assert(s =~= d.push(l));
        assert forall|i: int| 0 <= i < r.len() implies le(#[trigger] r[i], l) by {
            assert(r.contains(r[i]));
            assert(r.to_multiset().count(r[i]) > 0);
            if r[i] != x {
                assert(d.to_multiset().count(r[i]) > 0);
                assert(d.contains(r[i]));
                let k = choose|k: int| 0 <= k < d.len() && d[k] == r[i];
                assert(le(s[k], s[s.len() - 1]));
            }
        }
        let t = r.push(l);
        assert forall|i: int, j: int| 0 <= i < j < t.len() implies le(#[trigger] t[i], #[trigger] t[j]) by {
            if j == t.len() - 1 {
                assert(t[i] == r[i]);
            } else {
                assert(t[i] == r[i] && t[j] == r[j]);
            }
        }
        assert(t.to_multiset() =~= r.to_multiset().insert(l));
        assert(s.to_multiset() =~= d.to_multiset().insert(l));
    }
}

/// A stable sort sorts: by a total preorder, `sort_stable` puts every
/// element at or before every later one, and holds exactly the elements it
/// was given.
pub proof fn law_sort_stable_sorts<T>(s: Seq<T>, le: spec_fn(T, T) -> bool)
    requires
        total_preorder(le),
    ensures
        ordered_by(sort_stable(s, le), le),
        sort_stable(s, le).to_multiset() == s.to_multiset(),
    decreases s.len(),
{
    broadcast use vstd::seq_lib::group_to_multiset_ensures;

    if s.len() > 0 {
        law_sort_stable_sorts(s.drop_last(), le);
        lemma_insert_ordered_sorted(sort_stable(s.drop_last(), le), s.last(), le);
        assert(s =~= s.drop_last().push(s.last()));
    }
}

/// The report's orders are total preorders, so its lists come out sorted
/// (`law_sort_stable_sorts`): processes with interfering ones first, then by
/// name ignoring ASCII case, then by id; interfering programs by category,
/// name and id.
pub proof fn law_report_orders_are_total()
    ensures
        total_preorder(process_order()),
        total_preorder(risky_order()),
{
    assert forall|a: ProcessView, b: ProcessView|
        #[trigger] (process_order())(a, b) || (process_order())(b, a) by {
        lemma_text_le_order(lower_seq(a.1), lower_seq(b.1), lower_seq(b.1));
    }
    assert forall|a: ProcessView, b: ProcessView, c: ProcessView|
        #[trigger] (process_order())(a, b) && #[trigger] (process_order())(b, c) implies (process_order())(a, c) by {
        lemma_text_le_order(lower_seq(a.1), lower_seq(b.1), lower_seq(c.1));
        lemma_text_le_order(lower_seq(b.1), lower_seq(c.1), lower_seq(a.1));
        lemma_text_le_order(lower_seq(c.1), lower_seq(a.1), lower_seq(b.1));
    }
    assert forall|a: RiskyView, b: RiskyView|
        #[trigger] (risky_order())(a, b) || (risky_order())(b, a) by {
        lemma_text_le_order(a.0.1, b.0.1, b.0.1);
        lemma_text_le_order(a.0.0, b.0.0, b.0.0);
    }
    assert forall|a: RiskyView, b: RiskyView, c: RiskyView|
        #[trigger] (risky_order())(a, b) && #[trigger] (risky_order())(b, c) implies (risky_order())(a, c) by {
        lemma_text_le_order(a.0.1, b.0.1, c.0.1);
        lemma_text_le_order(b.0.1, c.0.1, a.0.1);
        lemma_text_le_order(c.0.1, a.0.1, b.0.1);
        lemma_text_le_order(a.0.0, b.0.0, c.0.0);
        lemma_text_le_order(b.0.0, c.0.0, a.0.0);
        lemma_text_le_order(c.0.0, a.0.0, b.0.0);
    }
}

} // verus!
