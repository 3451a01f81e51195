//! The text report on one process: resources, paths, ancestors, provenance,
//! ROS 2 identity and the classification evidence.

use vstd::prelude::*;

use crate::app::EnrichedProcess;
use crate::classifier::{confidence_label, evidence_view, process_type_label, Evidence};
use crate::collector::process::ProcessIoSnapshot;
use crate::decimal::{dec, dec_i64, dec_int, dec_u64};
use crate::process::model::{command_line_model, join_strings, join_with, string_views};
use crate::process::resolver::{opt_view, ProjectIdentity};
use crate::provenance::{
    direct_matches, find_by_pid, index_of_pid, inherited_matches, owner_index, resolve_process_provenance,
    ProcessProvenance,
};
use crate::text::{chars_of, push_all, string_of};
use crate::ui::model::{truncate_label, truncate_label_model};
use crate::classifier::ProcessType;
use crate::units::{format_bytes, format_bytes_long, format_bytes_long_model, format_bytes_model, format_rate};

verus! {

/// A labelled line.
pub open spec fn line(label: Seq<char>, value: Seq<char>) -> Seq<char> {
    label + value + "\n"@
}

/// A text, or `-` when there is none.
pub open spec fn or_dash(o: Option<Seq<char>>) -> Seq<char> {
    match o {
        Some(v) => v,
        None => "-"@,
    }
}

/// A byte count, or `-` when unknown.
pub open spec fn bytes_or_dash(o: Option<u64>) -> Seq<char> {
    match o {
        Some(b) => format_bytes_model(b as nat),
        None => "-"@,
    }
}

/// A rate in bytes per second, or `-` when unknown.
pub open spec fn rate_or_dash(o: Option<u64>) -> Seq<char> {
    match o {
        Some(b) => format_bytes_model(b as nat) + "/s"@,
        None => "-"@,
    }
}

pub open spec fn io_read(io: Option<ProcessIoSnapshot>) -> Option<u64> {
    match io {
        Some(v) => Some(v.read_bytes),
        None => None,
    }
}

pub open spec fn io_write(io: Option<ProcessIoSnapshot>) -> Option<u64> {
    match io {
        Some(v) => Some(v.write_bytes),
        None => None,
    }
}

pub open spec fn io_read_rate(io: Option<ProcessIoSnapshot>) -> Option<u64> {
    match io {
        Some(v) => v.read_bytes_per_second,
        None => None,
    }
}

pub open spec fn io_write_rate(io: Option<ProcessIoSnapshot>) -> Option<u64> {
    match io {
        Some(v) => v.write_bytes_per_second,
        None => None,
    }
}

/// The GPU utilization of a process in whole percent, or `-`.
pub open spec fn gpu_text(p: EnrichedProcess) -> Seq<char> {
    match p.snapshot.gpu {
        Some(g) => match g.utilization_percent {
            Some(u) => dec(u as nat) + "%"@,
            None => "-"@,
        },
        None => "-"@,
    }
}

/// The VRAM line, shown only when the amount is known.
pub open spec fn vram_text(p: EnrichedProcess) -> Seq<char> {
    match p.snapshot.gpu {
        Some(g) => match g.vram_bytes {
            Some(v) => line("VRAM       : "@, format_bytes_long_model(v as nat)),
            None => Seq::empty(),
        },
        None => Seq::empty(),
    }
}

/// The opening block: identity, category, project and resources.
pub open spec fn resources_text(
    p: EnrichedProcess,
    project: Seq<char>,
    cpu: Seq<char>,
    io: Option<ProcessIoSnapshot>,
) -> Seq<char> {
    "Process Analysis\n"@ + "────────────────────────────────────────────────────────\n"@ + line(
        "PID        : "@,
        dec_int(p.snapshot.pid as int),
    ) + line("Name       : "@, p.snapshot.name@) + line(
        "Type       : "@,
        process_type_label(p.classification.process_type),
    ) + line("Confidence : "@, confidence_label(p.classification.confidence)) + line(
        "Project    : "@,
        project,
    ) + line("CPU        : "@, cpu + "%"@) + line(
        "RAM        : "@,
        format_bytes_model(p.snapshot.memory_bytes as nat),
    ) + line("Disk read  : "@, bytes_or_dash(io_read(io))) + line(
        "Disk write : "@,
        bytes_or_dash(io_write(io)),
    ) + line("Read rate  : "@, rate_or_dash(io_read_rate(io))) + line(
        "Write rate : "@,
        rate_or_dash(io_write_rate(io)),
    ) + line("GPU        : "@, gpu_text(p)) + vram_text(p) + "\n"@
}

/// The control groups one per line, or `-`.
pub open spec fn cgroup_text(p: EnrichedProcess) -> Seq<char> {
    if p.snapshot.cgroup@.len() == 0 {
        "-"@
    } else {
        join_with(string_views(p.snapshot.cgroup@), '\n')
    }
}

/// Executable, working directory, command line and control groups.
pub open spec fn paths_text(p: EnrichedProcess) -> Seq<char> {
    "Executable\n"@ + or_dash(opt_view(p.snapshot.executable)) + "\n\nWorking directory\n"@ + or_dash(
        opt_view(p.snapshot.cwd),
    ) + "\n\nCommand\n"@ + command_line_model(p.snapshot.name@, string_views(p.snapshot.command@))
        + "\n\nCGroup\n"@ + cgroup_text(p)
}

/// PIDs joined by arrows.
pub open spec fn ids_text(chain: Seq<i32>) -> Seq<char>
    decreases chain.len(),
{
    if chain.len() == 0 {
        Seq::empty()
    } else if chain.len() == 1 {
        dec_int(chain[0] as int)
    } else {
        ids_text(chain.drop_last()) + " -> "@ + dec_int(chain.last() as int)
    }
}

/// One ancestor: its command line when it is among the processes, else a
/// note that it is gone.
pub open spec fn parent_line(ps: Seq<EnrichedProcess>, pid: i32) -> Seq<char> {
    match index_of_pid(ps, pid) {
        Some(k) => "PID "@ + dec_int(pid as int) + ": "@ + truncate_label_model(
            command_line_model(ps[k].snapshot.name@, string_views(ps[k].snapshot.command@)),
            120,
        ),
        None => "PID "@ + dec_int(pid as int) + ": <exited or inaccessible>"@,
    }
}

/// The ancestors one per line.
pub open spec fn parent_lines(ps: Seq<EnrichedProcess>, chain: Seq<i32>) -> Seq<char>
    decreases chain.len(),
{
    if chain.len() == 0 {
        Seq::empty()
    } else if chain.len() == 1 {
        parent_line(ps, chain[0])
    } else {
        parent_lines(ps, chain.drop_last()) + "\n"@ + parent_line(ps, chain.last())
    }
}

/// The ancestor section.
pub open spec fn chain_text(ps: Seq<EnrichedProcess>, chain: Seq<i32>) -> Seq<char> {
    "\n\nParent chain\n"@ + if chain.len() == 0 {
        "-"@
    } else {
        "IDs        : "@ + ids_text(chain) + "\n"@ + parent_lines(ps, chain)
    }
}

/// The provenance section, present when the process has an owner.
pub open spec fn owner_text(d: ProcessProvenance) -> Seq<char> {
    match d.owner_pid {
        Some(o) => "\n\nProvenance\n"@ + line("Owner PID   : "@, dec_int(o as int)) + line(
            "Owner       : "@,
            or_dash(opt_view(d.owner_name)),
        ) + line("Display type: "@, process_type_label(d.process_type)) + "Project     : "@
            + d.project_label@,
        None => Seq::empty(),
    }
}

/// The ROS 2 section, present when the process belongs to a package.
pub open spec fn ros_text(project: Option<ProjectIdentity>) -> Seq<char> {
    match project {
        Some(id) => "\n\nROS2 identity\n"@ + "Workspace  : "@ + or_dash(opt_view(id.workspace))
            + "\nPackage    : "@ + or_dash(opt_view(id.package)) + "\nExecutable : "@ + or_dash(
            opt_view(id.executable),
        ),
        None => Seq::empty(),
    }
}

/// One matched rule: its category, score and message.
pub open spec fn evidence_line(e: (ProcessType, i32, Seq<char>)) -> Seq<char> {
    "- ["@ + process_type_label(e.0) + " +"@ + dec_int(e.1 as int) + "] "@ + e.2
}

/// The matched rules one per line.
pub open spec fn evidence_lines(es: Seq<(ProcessType, i32, Seq<char>)>) -> Seq<char>
    decreases es.len(),
{
    if es.len() == 0 {
        Seq::empty()
    } else if es.len() == 1 {
        evidence_line(es[0])
    } else {
        evidence_lines(es.drop_last()) + "\n"@ + evidence_line(es.last())
    }
}

/// The evidence section.
pub open spec fn evidence_text(es: Seq<Evidence>) -> Seq<char> {
    "\n\nClassification evidence\n"@ + if es.len() == 0 {
        "- no category-specific evidence"@
    } else {
        evidence_lines(es.map_values(|e: Evidence| evidence_view(e)))
    }
}

/// The whole report on `ps[k]`, given what was derived of its provenance,
/// its CPU use as text and its disk I/O.
#[verifier::opaque]
pub open spec fn inspect_text(
    ps: Seq<EnrichedProcess>,
    k: int,
    d: ProcessProvenance,
    cpu: Seq<char>,
    io: Option<ProcessIoSnapshot>,
) -> Seq<char> {
    let p = ps[k];
    resources_text(p, d.project_label@, cpu, io) + paths_text(p) + chain_text(ps, p.parent_chain@)
        + owner_text(d) + ros_text(p.project) + evidence_text(p.classification.evidence@)
}

pub(crate) fn push_line(out: &mut Vec<char>, label: &str, value: &Vec<char>)
    ensures
        final(out)@ == old(out)@ + line(label@, value@),
{
    let mut l = chars_of(label);
    push_all(&mut l, value);
    let nl = chars_of("\n");
    push_all(&mut l, &nl);
    push_all(out, &l);
}

pub(crate) fn push_text(out: &mut Vec<char>, text: &str)
    ensures
        final(out)@ == old(out)@ + text@,
{
    let t = chars_of(text);
    push_all(out, &t);
}

pub(crate) fn string_chars(s: &String) -> (r: Vec<char>)
    ensures
        r@ == s@,
{
    chars_of(s.as_str())
}

pub(crate) fn text_or_dash(o: &Option<String>) -> (r: Vec<char>)
    ensures
        r@ == or_dash(opt_view(*o)),
{
    match o {
        Some(s) => string_chars(s),
        None => chars_of("-"),
    }
}

pub(crate) fn bytes_or_dash_exec(o: Option<u64>) -> (r: Vec<char>)
    ensures
        r@ == bytes_or_dash(o),
{
    match o {
        Some(b) => string_chars(&format_bytes(b)),
        None => chars_of("-"),
    }
}

pub(crate) fn rate_or_dash_exec(o: Option<u64>) -> (r: Vec<char>)
    ensures
        r@ == rate_or_dash(o),
{
    match o {
        Some(b) => string_chars(&format_rate(b)),
        None => chars_of("-"),
    }
}

fn resources_exec(p: &EnrichedProcess, project: &String, cpu: &str, io: Option<ProcessIoSnapshot>) -> (r: Vec<char>)
    ensures
        r@ == resources_text(*p, project@, cpu@, io),
{
    let mut out = chars_of("Process Analysis\n");
    push_text(&mut out, "────────────────────────────────────────────────────────\n");
    push_line(&mut out, "PID        : ", &dec_i64(p.snapshot.pid as i64));
    push_line(&mut out, "Name       : ", &string_chars(&p.snapshot.name));
    push_line(&mut out, "Type       : ", &string_chars(&p.classification.process_type.to_string()));
    push_line(&mut out, "Confidence : ", &string_chars(&p.classification.confidence.to_string()));
    push_line(&mut out, "Project    : ", &string_chars(project));
    let mut c = chars_of(cpu);
    push_text(&mut c, "%");
    push_line(&mut out, "CPU        : ", &c);
    push_line(&mut out, "RAM        : ", &string_chars(&format_bytes(p.snapshot.memory_bytes)));
    let (read, write, read_rate, write_rate) = match io {
        Some(v) => (Some(v.read_bytes), Some(v.write_bytes), v.read_bytes_per_second, v.write_bytes_per_second),
        None => (None, None, None, None),
    };
    push_line(&mut out, "Disk read  : ", &bytes_or_dash_exec(read));
    push_line(&mut out, "Disk write : ", &bytes_or_dash_exec(write));
    push_line(&mut out, "Read rate  : ", &rate_or_dash_exec(read_rate));
    push_line(&mut out, "Write rate : ", &rate_or_dash_exec(write_rate));
    let gpu = match p.snapshot.gpu {
        Some(g) => match g.utilization_percent {
            Some(u) => {
                let mut t = dec_u64(u as u64);
                push_text(&mut t, "%");
                t
            },
            None => chars_of("-"),
        },
        None => chars_of("-"),
    };
    push_line(&mut out, "GPU        : ", &gpu);
    let ghost before_vram = out@;
    match p.snapshot.gpu {
        Some(g) => match g.vram_bytes {
            Some(v) => {
                push_line(&mut out, "VRAM       : ", &string_chars(&format_bytes_long(v)));
            },
            None => {},
        },
        None => {},
    }
    proof {
        if vram_text(*p).len() == 0 {
            assert(out@ =~= before_vram + vram_text(*p));
        }
    }
    push_text(&mut out, "\n");
    out
}

fn paths_exec(p: &EnrichedProcess) -> (r: Vec<char>)
    ensures
        r@ == paths_text(*p),
{
    let mut out = chars_of("Executable\n");
    push_all(&mut out, &text_or_dash(&p.snapshot.executable));
    push_text(&mut out, "\n\nWorking directory\n");
    push_all(&mut out, &text_or_dash(&p.snapshot.cwd));
    push_text(&mut out, "\n\nCommand\n");
    push_all(&mut out, &string_chars(&p.snapshot.command_line()));
    push_text(&mut out, "\n\nCGroup\n");
    if p.snapshot.cgroup.len() == 0 {
        push_text(&mut out, "-");
    } else {
        push_all(&mut out, &join_strings(&p.snapshot.cgroup, '\n'));
    }
    out
}

fn parent_line_exec(processes: &[EnrichedProcess], pid: i32) -> (r: Vec<char>)
    ensures
        r@ == parent_line(processes@, pid),
{
    let mut out = chars_of("PID ");
    push_all(&mut out, &dec_i64(pid as i64));
    match find_by_pid(processes, pid) {
        Some(k) => {
            push_text(&mut out, ": ");
            let line = processes[k].snapshot.command_line();
            push_all(&mut out, &string_chars(&truncate_label(line.as_str(), 120)));
        },
        None => {
            push_text(&mut out, ": <exited or inaccessible>");
        },
    }
    out
}

fn chain_exec(processes: &[EnrichedProcess], chain: &Vec<i32>) -> (r: Vec<char>)
    ensures
        r@ == chain_text(processes@, chain@),
{
    let mut out = chars_of("\n\nParent chain\n");
    let ghost head = out@;
    if chain.len() == 0 {
        push_text(&mut out, "-");
        return out;
    }
    let mut ids: Vec<char> = Vec::new();
    let mut lines: Vec<char> = Vec::new();
    let mut i: usize = 0;
    while i < chain.len()
        invariant
            i <= chain@.len(),
            ids@ == ids_text(chain@.take(i as int)),
            lines@ == parent_lines(processes@, chain@.take(i as int)),
        decreases chain.len() - i,
    {
        proof {
            assert(chain@.take(i + 1).drop_last() =~= chain@.take(i as int));
            assert(chain@.take(i + 1).last() == chain@[i as int]);
        }
        if i > 0 {
            push_text(&mut ids, " -> ");
            push_text(&mut lines, "\n");
        }
        push_all(&mut ids, &dec_i64(chain[i] as i64));
        push_all(&mut lines, &parent_line_exec(processes, chain[i]));
        proof {
            if i == 0 {
                assert(chain@.take(1)[0] == chain@[0]);
                assert(ids@ =~= ids_text(chain@.take(1)));
                assert(lines@ =~= parent_lines(processes@, chain@.take(1)));
            }
        }
        i = i + 1;
    }
    proof {
        assert(chain@.take(i as int) =~= chain@);
    }
    let mut body = chars_of("IDs        : ");
    push_all(&mut body, &ids);
    push_text(&mut body, "\n");
    push_all(&mut body, &lines);
    push_all(&mut out, &body);
    out
}

fn owner_exec(d: &ProcessProvenance) -> (r: Vec<char>)
    ensures
        r@ == owner_text(*d),
{
    match d.owner_pid {
        Some(o) => {
            let mut out = chars_of("\n\nProvenance\n");
            push_line(&mut out, "Owner PID   : ", &dec_i64(o as i64));
            push_line(&mut out, "Owner       : ", &text_or_dash(&d.owner_name));
            push_line(&mut out, "Display type: ", &string_chars(&d.process_type.to_string()));
            push_text(&mut out, "Project     : ");
            push_all(&mut out, &string_chars(&d.project_label));
            out
        },
        None => Vec::new(),
    }
}

fn ros_exec(project: &Option<ProjectIdentity>) -> (r: Vec<char>)
    ensures
        r@ == ros_text(*project),
{
    match project {
        Some(id) => {
            let mut out = chars_of("\n\nROS2 identity\n");
            push_text(&mut out, "Workspace  : ");
            push_all(&mut out, &text_or_dash(&id.workspace));
            push_text(&mut out, "\nPackage    : ");
            push_all(&mut out, &text_or_dash(&id.package));
            push_text(&mut out, "\nExecutable : ");
            push_all(&mut out, &text_or_dash(&id.executable));
            out
        },
        None => Vec::new(),
    }
}

fn evidence_line_exec(e: &Evidence) -> (r: Vec<char>)
    ensures
        r@ == evidence_line(evidence_view(*e)),
{
    let mut out = chars_of("- [");
    push_all(&mut out, &string_chars(&e.process_type.to_string()));
    push_text(&mut out, " +");
    push_all(&mut out, &dec_i64(e.score as i64));
    push_text(&mut out, "] ");
    push_all(&mut out, &string_chars(&e.message));
    out
}

fn evidence_exec(es: &Vec<Evidence>) -> (r: Vec<char>)
    ensures
        r@ == evidence_text(es@),
{
    let mut out = chars_of("\n\nClassification evidence\n");
    if es.len() == 0 {
        push_text(&mut out, "- no category-specific evidence");
        return out;
    }
    let ghost views = es@.map_values(|e: Evidence| evidence_view(e));
    let mut lines: Vec<char> = Vec::new();
    let mut i: usize = 0;
    while i < es.len()
        invariant
            i <= es@.len(),
            views == es@.map_values(|e: Evidence| evidence_view(e)),
            lines@ == evidence_lines(views.take(i as int)),
        decreases es.len() - i,
    {
        proof {
            assert(views.take(i + 1).drop_last() =~= views.take(i as int));
            assert(views.take(i + 1).last() == evidence_view(es@[i as int]));
        }
        if i > 0 {
            push_text(&mut lines, "\n");
        }
        push_all(&mut lines, &evidence_line_exec(&es[i]));
        proof {
            if i == 0 {
                assert(views.take(1)[0] == evidence_view(es@[0]));
                assert(lines@ =~= evidence_lines(views.take(1)));
            }
        }
        i = i + 1;
    }
    proof {
        assert(views.take(i as int) =~= views);
    }
    push_all(&mut out, &lines);
    out
}

/// The report on `processes[index]`, given the provenance derived for it,
/// its CPU use already written as text, and its disk I/O when known.
pub fn format_inspect_with(
    processes: &[EnrichedProcess],
    index: usize,
    provenance: &ProcessProvenance,
    cpu_text: &str,
    io: Option<ProcessIoSnapshot>,
) -> (r: String)
    requires
        index < processes@.len(),
    ensures
        r@ == inspect_text(processes@, index as int, *provenance, cpu_text@, io),
{
    let p = &processes[index];
    let mut out = resources_exec(p, &provenance.project_label, cpu_text, io);
    push_all(&mut out, &paths_exec(p));
    push_all(&mut out, &chain_exec(processes, &p.parent_chain));
    push_all(&mut out, &owner_exec(provenance));
    push_all(&mut out, &ros_exec(&p.project));
    push_all(&mut out, &evidence_exec(&p.classification.evidence));
    proof {
        reveal(inspect_text);
    }
    string_of(&out)
}

/// What `resolve_process_provenance` may derive for `ps[k]`.
#[verifier::opaque]
pub open spec fn provenance_fits(d: ProcessProvenance, ps: Seq<EnrichedProcess>, k: int) -> bool {
    let owner = if ps[k].classification.process_type == ProcessType::Generic {
        owner_index(ps[k].parent_chain@, ps)
    } else {
        None
    };
    &&& owner matches Some(o) ==> inherited_matches(d, ps[k], ps, o)
    &&& owner is None ==> direct_matches(d, ps[k], ps)
}

/// A report on `ps[k]` for some provenance that `resolve_process_provenance`
/// may derive for it.
#[verifier::opaque]
pub open spec fn inspect_possible(
    ps: Seq<EnrichedProcess>,
    k: int,
    cpu: Seq<char>,
    io: Option<ProcessIoSnapshot>,
    text: Seq<char>,
) -> bool {
    exists|d: ProcessProvenance|
        #![trigger inspect_text(ps, k, d, cpu, io)]
        text == inspect_text(ps, k, d, cpu, io) && provenance_fits(d, ps, k)
}

proof fn lemma_provenance_fits(d: ProcessProvenance, ps: Seq<EnrichedProcess>, k: int)
    requires
        0 <= k < ps.len(),
        (if ps[k].classification.process_type == ProcessType::Generic {
            owner_index(ps[k].parent_chain@, ps)
        } else {
            None
        }) matches Some(o) ==> inherited_matches(d, ps[k], ps, o),
        (if ps[k].classification.process_type == ProcessType::Generic {
            owner_index(ps[k].parent_chain@, ps)
        } else {
            None
        }) is None ==> direct_matches(d, ps[k], ps),
    ensures
        provenance_fits(d, ps, k),
{
    reveal(provenance_fits);
}

/// The report on the first process with PID `pid`, or `None` when there is
/// none. Its provenance is derived as `resolve_process_provenance` derives
/// it; its CPU use comes already written as text, and its disk I/O when
/// known.
pub fn format_inspect(
    processes: &[EnrichedProcess],
    pid: i32,
    cpu_text: &str,
    io: Option<ProcessIoSnapshot>,
) -> (r: Option<String>)
    ensures
        match index_of_pid(processes@, pid) {
            None => r is None,
            Some(k) => r matches Some(text) && inspect_possible(processes@, k, cpu_text@, io, text@),
        },
{
    match find_by_pid(processes, pid) {
        None => None,
        Some(k) => {
            let d = resolve_process_provenance(&processes[k], processes);
            let text = format_inspect_with(processes, k, &d, cpu_text, io);
            proof {
                lemma_provenance_fits(d, processes@, k as int);
                assert(text@ == inspect_text(processes@, k as int, d, cpu_text@, io));
                assert(inspect_possible(processes@, k as int, cpu_text@, io, text@)) by {
                    reveal(inspect_possible);
                }

            }
            Some(text)
        },
    }
}

} // verus!
