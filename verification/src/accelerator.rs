//! Game accelerators (traffic tunnels) that disturb the community servers,
//! recognised by their process names.

use crate::text::{chars_of, contains, contains_seq, lower_seq, string_of, to_ascii_lower};
use vstd::prelude::*;

verus! {

/// An accelerator found running.
#[derive(Debug, Clone, PartialEq, Eq)]
pub struct DetectedAccelerator {
    /// Its name as the UI shows it.
    pub name: String,
    /// The process name that matched, in lower case.
    pub process_name: String,
    pub pid: u32,
}

/// How many accelerators are known.
pub const KNOWN_COUNT: usize = 13;

pub open spec fn known_names() -> Seq<Seq<char>> {
    seq![
        "UU加速器"@,
        "奇游加速器"@,
        "迅游加速器"@,
        "雷神加速器"@,
        "海豚加速器"@,
        "腾讯网游加速器"@,
        "AK加速器"@,
        "VK加速器"@,
        "熊猫加速器"@,
        "古怪加速器"@,
        "加速精灵"@,
        "NN加速器"@,
        "未知加速器"@
    ]
}

/// Lower-case fragments of each accelerator's process names.
pub open spec fn known_patterns() -> Seq<Seq<Seq<char>>> {
    seq![
        seq!["netease_uu"@, "uuwebview"@, "uubooster"@],
        seq!["qiyou"@, "qygame"@, "qyjsq"@],
        seq!["xunyou"@, "xyjsq"@],
        seq!["leitingjsq"@, "leishen"@, "thunderacc"@],
        seq!["dolphinacc"@, "haitunjsq"@],
        seq!["qqgameacc"@, "tencentacc"@, "wegameacc"@],
        seq!["akjsq"@, "akacc"@, "akjiasu"@],
        seq!["vkjsq"@, "vkacc"@, "vkjiasu"@],
        seq!["pandagame"@, "xiongmao_jsq"@],
        seq!["guguai"@, "ggjsq"@],
        seq!["jiasujingling"@],
        seq!["nnjsq"@, "nnacc"@],
        seq!["jiasuqi"@]
    ]
}

pub open spec fn known_hits(k: int, pname: Seq<char>) -> bool {
    exists|j: int| 0 <= j < known_patterns()[k].len() && contains_seq(pname, #[trigger] known_patterns()[k][j])
}

/// The first accelerator from `k` on, not yet reported (in `seen`), whose
/// fragments the process name holds.
pub open spec fn pick_from(pname: Seq<char>, seen: Seq<int>, k: int) -> Option<int>
    decreases KNOWN_COUNT - k,
{
    if k < 0 || k >= KNOWN_COUNT {
        None
    } else if !seen.contains(k) && known_hits(k, pname) {
        Some(k)
    } else {
        pick_from(pname, seen, k + 1)
    }
}

/// The accelerators found among the processes (pid, name), in order, each
/// reported once: (which one, lower-cased process name, pid).
pub open spec fn scan_spec(procs: Seq<(u32, Seq<char>)>) -> Seq<(int, Seq<char>, u32)>
    decreases procs.len(),
{
    if procs.len() == 0 {
        Seq::empty()
    } else {
        let found = scan_spec(procs.drop_last());
        let pname = lower_seq(procs.last().1);
        if pname.len() == 0 {
            found
        } else {
            match pick_from(pname, found.map_values(|f: (int, Seq<char>, u32)| f.0), 0) {
                Some(k) => found.push((k, pname, procs.last().0)),
                None => found,
            }
        }
    }
}

fn known_name(k: usize) -> (r: &'static str)
    requires
        k < KNOWN_COUNT,
    ensures
        r@ == known_names()[k as int],
{

    if k == 0 {
        "UU加速器"
    } else if k == 1 {
        "奇游加速器"
    } else if k == 2 {
        "迅游加速器"
    } else if k == 3 {
        "雷神加速器"
    } else if k == 4 {
        "海豚加速器"
    } else if k == 5 {
        "腾讯网游加速器"
    } else if k == 6 {
        "AK加速器"
    } else if k == 7 {
        "VK加速器"
    } else if k == 8 {
        "熊猫加速器"
    } else if k == 9 {
        "古怪加速器"
    } else if k == 10 {
        "加速精灵"
    } else if k == 11 {
        "NN加速器"
    } else {
        "未知加速器"
    }
}

fn known_pattern_list(k: usize) -> (r: Vec<&'static str>)
    requires
        k < KNOWN_COUNT,
    ensures
        r@.len() == known_patterns()[k as int].len(),
        forall|j: int| 0 <= j < r@.len() ==> (#[trigger] r@[j])@ == known_patterns()[k as int][j],
{
    let mut v: Vec<&'static str> = Vec::new();

    if k == 0 {
        v.push("netease_uu");
        v.push("uuwebview");
        v.push("uubooster");
    } else if k == 1 {
        v.push("qiyou");
        v.push("qygame");
        v.push("qyjsq");
    } else if k == 2 {
        v.push("xunyou");
        v.push("xyjsq");
    } else if k == 3 {
        v.push("leitingjsq");
        v.push("leishen");
        v.push("thunderacc");
    } else if k == 4 {
        v.push("dolphinacc");
        v.push("haitunjsq");
    } else if k == 5 {
        v.push("qqgameacc");
        v.push("tencentacc");
        v.push("wegameacc");
    } else if k == 6 {
        v.push("akjsq");
        v.push("akacc");
        v.push("akjiasu");
    } else if k == 7 {
        v.push("vkjsq");
        v.push("vkacc");
        v.push("vkjiasu");
    } else if k == 8 {
        v.push("pandagame");
        v.push("xiongmao_jsq");
    } else if k == 9 {
        v.push("guguai");
        v.push("ggjsq");
    } else if k == 10 {
        v.push("jiasujingling");
    } else if k == 11 {
        v.push("nnjsq");
        v.push("nnacc");
    } else {
        v.push("jiasuqi");
    }
    v
}

fn hits(k: usize, pname: &Vec<char>) -> (r: bool)
    requires
        k < KNOWN_COUNT,
    ensures
        r == known_hits(k as int, pname@),
{
    let ps = known_pattern_list(k);
    let mut j: usize = 0;
    let mut hit = false;
    while j < ps.len()
        invariant
            j <= ps@.len(),
            k < KNOWN_COUNT,
            ps@.len() == known_patterns()[k as int].len(),
            forall|x: int| 0 <= x < ps@.len() ==> (#[trigger] ps@[x])@ == known_patterns()[k as int][x],
            hit == exists|x: int| 0 <= x < j && contains_seq(pname@, #[trigger] known_patterns()[k as int][x]),
        decreases ps.len() - j,
    {
        let p = chars_of(ps[j]);
        if contains(pname, &p) {
            hit = true;
        }
        j = j + 1;
    }
    hit
}

/// The accelerators among the running processes, given as (pid, name) in
/// the order the system lists them.
#[verifier::rlimit(30)]
pub fn match_accelerators(processes: &Vec<(u32, String)>) -> (found: Vec<DetectedAccelerator>)
    ensures
        ({
            let spec = scan_spec(processes@.map_values(|p: (u32, String)| (p.0, p.1@)));
            found@.len() == spec.len() && forall|i: int|
                0 <= i < spec.len() ==> (#[trigger] found@[i]).name@ == known_names()[spec[i].0]
                    && found@[i].process_name@ == spec[i].1 && found@[i].pid == spec[i].2
        }),
{
    let ghost procs = processes@.map_values(|p: (u32, String)| (p.0, p.1@));
    let mut found: Vec<DetectedAccelerator> = Vec::new();
    let mut seen: Vec<usize> = Vec::new();
    let ghost mut spec: Seq<(int, Seq<char>, u32)> = Seq::empty();
    let mut i: usize = 0;
    assert(procs.take(0) =~= Seq::<(u32, Seq<char>)>::empty());
    while i < processes.len()
        invariant
            i <= processes@.len(),
            procs == processes@.map_values(|p: (u32, String)| (p.0, p.1@)),
            spec == scan_spec(procs.take(i as int)),
            found@.len() == spec.len(),
            seen@.len() == spec.len(),
            forall|x: int| 0 <= x < spec.len() ==> (#[trigger] found@[x]).name@ == known_names()[spec[x].0]
                && found@[x].process_name@ == spec[x].1 && found@[x].pid == spec[x].2 && seen@[x] == spec[x].0,
            forall|x: int| 0 <= x < spec.len() ==> 0 <= (#[trigger] spec[x]).0 < KNOWN_COUNT,
            forall|x: int| 0 <= x < spec.len() ==> seen@[x] == (#[trigger] spec[x]).0,
        decreases processes.len() - i,
    {
        assert(procs.take(i + 1).drop_last() =~= procs.take(i as int));
        assert(procs.take(i + 1).last() == (processes@[i as int].0, processes@[i as int].1@));
        let pid = processes[i].0;
        let name = chars_of(processes[i].1.as_str());
        let pname = to_ascii_lower(&name);
        if pname.len() > 0 {
            let ghost seen_spec = spec.map_values(|f: (int, Seq<char>, u32)| f.0);
            let mut k: usize = 0;
            let mut picked: Option<usize> = None;
            while k < KNOWN_COUNT
                invariant
                    k <= KNOWN_COUNT,
                    seen@.len() == spec.len(),
                    forall|x: int| 0 <= x < spec.len() ==> seen@[x] == (#[trigger] spec[x]).0,
                    seen_spec == spec.map_values(|f: (int, Seq<char>, u32)| f.0),
                    picked is None ==> pick_from(pname@, seen_spec, 0) == pick_from(pname@, seen_spec, k as int),
                    picked matches Some(q) ==> pick_from(pname@, seen_spec, 0) == Some(q as int) && q < KNOWN_COUNT,
                decreases KNOWN_COUNT - k,
            {
                if picked.is_none() {
                    let mut already = false;
                    let mut s: usize = 0;
                    while s < seen.len()
                        invariant
                            s <= seen@.len(),
                            seen@.len() == spec.len(),
                            forall|x: int| 0 <= x < spec.len() ==> seen@[x] == (#[trigger] spec[x]).0,
                            seen_spec == spec.map_values(|f: (int, Seq<char>, u32)| f.0),
                            already == exists|x: int| 0 <= x < s && seen_spec[x] == k as int,
                        decreases seen.len() - s,
                    {
                        assert(seen_spec[s as int] == spec[s as int].0);
                        assert(seen@[s as int] == spec[s as int].0);
                        if seen[s] == k {
                            already = true;
                        }
                        s = s + 1;
                    }
                    proof {
                        if seen_spec.contains(k as int) {
                            let w = choose|w: int| 0 <= w < seen_spec.len() && seen_spec[w] == k as int;
                            assert(seen_spec[w] == k as int);
                        }
                    }
                    if !already && hits(k, &pname) {
                        picked = Some(k);
                    }
                }
                k = k + 1;
            }
            match picked {
                Some(q) => {
                    proof {
                        spec = spec.push((q as int, pname@, pid));
                    }
                    let ghost prev = found@;
                    found.push(DetectedAccelerator {
                        name: crate::text::string_from_str(known_name(q)),
                        process_name: string_of(&pname),
                        pid,
                    });
                    seen.push(q);
                    assert(forall|x: int| 0 <= x < prev.len() ==> found@[x] == prev[x]);
                },
                None => {},
            }
        }
        i = i + 1;
    }
    assert(procs.take(processes@.len() as int) =~= procs);
    found
}

proof fn lemma_pick_not_seen(pname: Seq<char>, seen: Seq<int>, k: int)
    ensures
        pick_from(pname, seen, k) matches Some(q) ==> !seen.contains(q) && 0 <= q < KNOWN_COUNT,
    decreases KNOWN_COUNT - k,
{
    if 0 <= k < KNOWN_COUNT && !(!seen.contains(k) && known_hits(k, pname)) {
        lemma_pick_not_seen(pname, seen, k + 1);
    }
}

/// Each accelerator is reported at most once, however many of its
/// processes run.
pub proof fn law_each_accelerator_once(procs: Seq<(u32, Seq<char>)>)
    ensures
        forall|i: int, j: int|
            0 <= i < j < scan_spec(procs).len() ==> scan_spec(procs)[i].0 != scan_spec(procs)[j].0,
    decreases procs.len(),
{
    if procs.len() > 0 {
        law_each_accelerator_once(procs.drop_last());
        let found = scan_spec(procs.drop_last());
        let pname = lower_seq(procs.last().1);
        let seen = found.map_values(|f: (int, Seq<char>, u32)| f.0);
        lemma_pick_not_seen(pname, seen, 0);
        if pname.len() > 0 {
            if let Some(q) = pick_from(pname, seen, 0) {
                assert forall|i: int| 0 <= i < found.len() implies found[i].0 != q by {
                    assert(seen[i] == found[i].0);
                }
            }
        }
    }
}

/// Names order as text.
pub open spec fn name_order() -> spec_fn(Seq<char>, Seq<char>) -> bool {
    |a: Seq<char>, b: Seq<char>| crate::launch_options::text_le(a, b)
}

/// The set of accelerators found, as the UI compares scans: their names,
/// sorted.
pub fn accelerator_signature(found: &Vec<DetectedAccelerator>) -> (r: Vec<String>)
    ensures
        r@.map_values(|s: String| s@) == crate::diagnostics::sort_stable(
            found@.map_values(|d: DetectedAccelerator| d.name@),
            name_order(),
        ),
{
    let ghost names = found@.map_values(|d: DetectedAccelerator| d.name@);
    let mut out: Vec<String> = Vec::new();
    let mut k: usize = 0;
    while k < found.len()
        invariant
            k <= found@.len(),
            names == found@.map_values(|d: DetectedAccelerator| d.name@),
            out@.map_values(|s: String| s@) == crate::diagnostics::sort_stable(
                names.take(k as int),
                name_order(),
            ),
        decreases found.len() - k,
    {
        let x = chars_of(found[k].name.as_str());
        let ghost vs = out@.map_values(|s: String| s@);
        let mut j: usize = out.len();
        while j > 0 && !crate::launch_options::text_le_exec(&chars_of(out[j - 1].as_str()), &x)
            invariant
                j <= out@.len(),
                vs == out@.map_values(|s: String| s@),
                forall|m: int| j <= m < vs.len() ==> !(name_order())(#[trigger] vs[m], x@),
            decreases j,
        {
            j = j - 1;
        }
        proof {
            if j > 0 {
                assert(vs[j - 1] == out@[j - 1]@);
            }
            crate::diagnostics::lemma_insert_at(vs, x@, name_order(), j as int);
            assert(names.take(k + 1).drop_last() =~= names.take(k as int));
            assert(names.take(k + 1).last() == x@);
        }
        out.insert(j, string_of(&x));
        assert(out@.map_values(|s: String| s@) =~= vs.take(j as int) + seq![x@] + vs.skip(j as int));
        k = k + 1;
    }
    assert(names.take(found@.len() as int) =~= names);
    out
}

/// Names order totally, so a signature comes out sorted
/// (`crate::diagnostics::law_sort_stable_sorts`).
pub proof fn law_name_order_is_total()
    ensures
        crate::diagnostics::total_preorder(name_order()),
{
    assert forall|a: Seq<char>, b: Seq<char>| #[trigger] (name_order())(a, b) || (name_order())(b, a) by {
        crate::launch_options::lemma_text_le_order(a, b, b);
    }
    assert forall|a: Seq<char>, b: Seq<char>, c: Seq<char>|
        #[trigger] (name_order())(a, b) && #[trigger] (name_order())(b, c) implies (name_order())(a, c) by {
        crate::launch_options::lemma_text_le_order(a, b, c);
    }
}

} // verus!
