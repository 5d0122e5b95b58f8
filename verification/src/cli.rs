//! What the command line decides and prints: the commands and the requests
//! they send, the reading of `ps` and `lsof` output, and the text of every
//! report.
use vstd::prelude::*;

use crate::ipc::{
    status_views, ConnectionState, ConnectionStatus, ConnectionStatusView, PortpalRequest,
    PortpalResponse, RequestAction, ServiceSnapshot,
};
use crate::text::{
    lemma_decimal_digits, lemma_parse_decimal, lemma_trim_exact, lemma_trimmed_ends, contains, contains_str, decimal, is_ws, is_whitespace, lines, parse_u32, parse_u32_spec,
    push_decimal, split_lines, strip_char_prefix, strip_prefix_char, trim, trim_str, views,
    chars_of,
};

verus! {

/// A process found by `ps` or `lsof`.
#[derive(Debug, PartialEq, Eq)]
pub struct ProcessInfo {
    pub pid: u32,
    pub command: String,
}

/// The mathematical value of a [`ProcessInfo`].
pub struct ProcessView {
    pub pid: u32,
    pub command: Seq<char>,
}

impl View for ProcessInfo {
    type V = ProcessView;

    open spec fn view(&self) -> ProcessView {
        ProcessView { pid: self.pid, command: self.command@ }
    }
}

/// The views of a sequence of processes.
pub open spec fn process_views(s: Seq<ProcessInfo>) -> Seq<ProcessView> {
    s.map_values(|p: ProcessInfo| p@)
}

// ---------------------------------------------------------------------------
// `ps` output
// ---------------------------------------------------------------------------

/// Index of the first whitespace character of `s`, or `s.len()`.
pub open spec fn first_ws(s: Seq<char>) -> nat
    decreases s.len(),
{
    if s.len() == 0 {
        0
    } else if is_ws(s[0]) {
        0
    } else {
        1 + first_ws(s.drop_first())
    }
}

proof fn lemma_first_ws_unique(s: Seq<char>, k: int)
    requires
        0 <= k <= s.len(),
        forall|i: int| 0 <= i < k ==> !is_ws(#[trigger] s[i]),
        k < s.len() ==> is_ws(s[k]),
    ensures
        first_ws(s) == k,
    decreases s.len(),
{
    if s.len() > 0 && k > 0 {
        assert forall|i: int| 0 <= i < k - 1 implies !is_ws(#[trigger] s.drop_first()[i]) by {
            assert(s.drop_first()[i] == s[i + 1]);
        }
        lemma_first_ws_unique(s.drop_first(), k - 1);
    }
}

/// A line of `ps -o pid=,command=` read as a process: the line trimmed, its
/// first word the pid, the rest, trimmed and not empty, the command.
pub open spec fn process_line(line: Seq<char>) -> Option<ProcessView> {
    let t = trim(line);
    let w = first_ws(t) as int;
    if w >= t.len() {
        None
    } else {
        match parse_u32_spec(trim(t.take(w))) {
            None => None,
            Some(pid) => {
                let command = trim(t.skip(w + 1));
                if command.len() == 0 {
                    None
                } else {
                    Some(ProcessView { pid, command })
                }
            },
        }
    }
}

/// A `ps` line made of a pid and a command, padded with blanks, reads back
/// as that pid and command.
pub proof fn lemma_process_line_roundtrip(p: u32, c: Seq<char>)
    requires
        c.len() > 0,
        trim(c) == c,
    ensures
        process_line(seq![' ', ' '] + decimal(p as nat) + seq![' ', ' ', ' '] + c + seq![' '])
            == Some(ProcessView { pid: p, command: c }),
{
    let d = decimal(p as nat);
    lemma_parse_decimal(p);
    lemma_decimal_digits(p as nat);
    lemma_trimmed_ends(c);
    assert(is_ws(' '));
    let line = seq![' ', ' '] + d + seq![' ', ' ', ' '] + c + seq![' '];
    let n = d.len() as int;
    let core_end = 2 + n + 3 + c.len();
    assert(line[2] == d[0]);
    assert(line[core_end - 1] == c.last());
    assert forall|i: int| 0 <= i < 2 implies is_ws(#[trigger] line[i]) by {}
    assert forall|i: int| core_end <= i < line.len() implies is_ws(#[trigger] line[i]) by {}
    lemma_trim_exact(line, 2, core_end);
    let t = trim(line);
    assert(t =~= d + seq![' ', ' ', ' '] + c);
    assert forall|i: int| 0 <= i < n implies !is_ws(#[trigger] t[i]) by {
        assert(t[i] == d[i]);
    }
    assert(t[n] == ' ');
    lemma_first_ws_unique(t, n);
    assert(t.take(n) =~= d);
    assert forall|i: int| 0 <= i < n implies !is_ws(#[trigger] d[i]) by {}
    lemma_trim_exact(d, 0, n);
    assert(d.subrange(0, n) =~= d);
    let rest = t.skip(n + 1);
    assert(rest =~= seq![' ', ' '] + c);
    assert(rest[2] == c[0]);
    assert(rest[rest.len() - 1] == c.last());
    assert forall|i: int| 0 <= i < 2 implies is_ws(#[trigger] rest[i]) by {}
    lemma_trim_exact(rest, 2, rest.len() as int);
    assert(rest.subrange(2, rest.len() as int) =~= c);
}

/// A `ps` line with a pid but no command is not read as a process.
pub proof fn lemma_process_line_needs_command(p: u32)
    ensures
        process_line(seq![' '] + decimal(p as nat) + seq![' ']) is None,
{
    let d = decimal(p as nat);
    lemma_parse_decimal(p);
    lemma_decimal_digits(p as nat);
    assert(is_ws(' '));
    let line = seq![' '] + d + seq![' '];
    let n = d.len() as int;
    assert(line[1] == d[0]);
    assert(line[n] == d[n - 1]);
    lemma_trim_exact(line, 1, n + 1);
    let t = trim(line);
    assert(t =~= d);
    assert forall|i: int| 0 <= i < n implies !is_ws(#[trigger] t[i]) by {}
    lemma_first_ws_unique(t, n);
}

/// Reads a line of `ps` output as a process.
pub fn parse_process_line(line: &str) -> (res: Option<ProcessInfo>)
    ensures
        match process_line(line@) {
            Some(p) => res matches Some(r) && r@ == p,
            None => res is None,
        },
{
    let trimmed = trim_str(line);
    let cs = chars_of(trimmed);
    let mut w: usize = 0;
    while w < cs.len() && !is_whitespace(cs[w])
        invariant
            cs@ == trimmed@,
            0 <= w <= cs.len(),
            forall|i: int| 0 <= i < w ==> !is_ws(#[trigger] trimmed@[i]),
        decreases cs.len() - w,
    {
        w = w + 1;
    }
    proof {
        lemma_first_ws_unique(trimmed@, w as int);
    }
    if w >= cs.len() {
        return None;
    }
    let pid_part = trimmed.substring_char(0, w);
    let pid = match parse_u32(trim_str(pid_part)) {
        Some(p) => p,
        None => {
            assert(pid_part@ =~= trimmed@.take(w as int));
            return None;
        },
    };
    assert(pid_part@ =~= trimmed@.take(w as int));
    let rest = trimmed.substring_char(w + 1, cs.len());
    assert(rest@ =~= trimmed@.skip(w as int + 1));
    let command = trim_str(rest);
    if command.unicode_len() == 0 {
        return None;
    }
    Some(ProcessInfo { pid, command: String::from_str(command) })
}

/// The command line of a running daemon: `portpal serve` or the menu bar
/// app's `PortpalService serve`, but not the test helper.
pub open spec fn daemon_command(command: Seq<char>) -> bool {
    (contains(command, "portpal serve"@) || contains(command, "PortpalService serve"@))
        && !contains(command, "portpal-test-ssh"@)
}

/// Whether `command` is that of a running daemon.
pub fn is_portpal_daemon_command(command: &str) -> (res: bool)
    ensures
        res == daemon_command(command@),
{
    (contains_str(command, "portpal serve") || contains_str(command, "PortpalService serve"))
        && !contains_str(command, "portpal-test-ssh")
}

/// The daemons listed in `ps` output, in order.
pub open spec fn daemon_processes(ls: Seq<Seq<char>>) -> Seq<ProcessView>
    decreases ls.len(),
{
    if ls.len() == 0 {
        seq![]
    } else {
        daemon_processes(ls.drop_last()) + match process_line(ls.last()) {
            Some(p) => if daemon_command(p.command) {
                seq![p]
            } else {
                seq![]
            },
            None => seq![],
        }
    }
}

/// A line of `ps` output that reads as a process running a daemon.
pub open spec fn is_daemon_line(line: Seq<char>) -> bool {
    process_line(line) is Some && daemon_command(process_line(line)->0.command)
}

/// The daemons found in `ps` output are exactly the processes of the lines
/// that read as a daemon, every one of them, in line order.
pub proof fn lemma_daemon_processes_are_all_daemon_lines(ls: Seq<Seq<char>>)
    ensures
        daemon_processes(ls) == ls.filter(|l: Seq<char>| is_daemon_line(l)).map_values(
            |l: Seq<char>| process_line(l)->0,
        ),
        daemon_processes(ls).len() == ls.filter(|l: Seq<char>| is_daemon_line(l)).len(),
        forall|i: int| 0 <= i < ls.len() && is_daemon_line(#[trigger] ls[i]) ==> daemon_processes(ls).contains(
            process_line(ls[i])->0,
        ),
    decreases ls.len(),
{
    let pred = |l: Seq<char>| is_daemon_line(l);
    let f = |l: Seq<char>| process_line(l)->0;
    reveal(Seq::filter);
    if ls.len() > 0 {
        let p = ls.drop_last();
        lemma_daemon_processes_are_all_daemon_lines(p);
        let fp = p.filter(pred);
        assert(ls.filter(pred) == if pred(ls.last()) {
            fp.push(ls.last())
        } else {
            fp
        });
        if pred(ls.last()) {
            assert(fp.push(ls.last()).map_values(f) =~= fp.map_values(f).push(f(ls.last())));
            assert(daemon_processes(ls) =~= daemon_processes(p) + seq![f(ls.last())]);
        } else {
            assert(daemon_processes(ls) =~= daemon_processes(p) + Seq::<ProcessView>::empty());
        }
        assert(daemon_processes(ls) == ls.filter(pred).map_values(f));
        assert forall|i: int| 0 <= i < ls.len() && is_daemon_line(#[trigger] ls[i]) implies daemon_processes(ls).contains(
            process_line(ls[i])->0,
        ) by {
            if i < ls.len() - 1 {
                assert(p[i] == ls[i]);
                let k = choose|k: int| 0 <= k < daemon_processes(p).len() && daemon_processes(p)[k] == process_line(p[i])->0;
                assert(daemon_processes(ls)[k] == daemon_processes(p)[k]);
            } else {
                assert(daemon_processes(ls)[daemon_processes(p).len() as int] == f(ls.last()));
            }
        }
    }
}

/// Reads the daemons out of `ps -axo pid=,command=` output.
pub fn parse_daemon_processes(output: &str) -> (res: Vec<ProcessInfo>)
    ensures
        process_views(res@) == daemon_processes(lines(output@)),
{
    let ls = split_lines(output);
    let ghost lv = views(ls@);
    let mut out: Vec<ProcessInfo> = Vec::new();
    let mut i: usize = 0;
    assert(lv.take(0) =~= Seq::<Seq<char>>::empty());
    while i < ls.len()
        invariant
            lv == views(ls@),
            0 <= i <= ls.len(),
            process_views(out@) == daemon_processes(lv.take(i as int)),
        decreases ls.len() - i,
    {
        let ghost before = out@;
        proof {
            assert(lv.take(i as int + 1).drop_last() =~= lv.take(i as int));
            assert(lv.take(i as int + 1).last() == ls@[i as int]@);
        }
        match parse_process_line(ls[i].as_str()) {
            Some(p) => {
                if is_portpal_daemon_command(p.command.as_str()) {
                    out.push(p);
                    assert(process_views(out@) =~= process_views(before) + seq![p@]);
                } else {
                    assert(process_views(out@) =~= process_views(before) + Seq::<ProcessView>::empty());
                }
            },
            None => {
                assert(process_views(out@) =~= process_views(before) + Seq::<ProcessView>::empty());
            },
        }
        i = i + 1;
    }
    assert(lv.take(i as int) =~= lv);
    out
}

/// The pids listed one per line, as `lsof -t` prints them; lines that are not
/// a pid are skipped.
pub open spec fn pid_lines(ls: Seq<Seq<char>>) -> Seq<u32>
    decreases ls.len(),
{
    if ls.len() == 0 {
        seq![]
    } else {
        pid_lines(ls.drop_last()) + match parse_u32_spec(trim(ls.last())) {
            Some(p) => seq![p],
            None => seq![],
        }
    }
}

/// The pids read from `lsof -t` output are, in line order, those of every
/// line that trims to a pid, and no others.
pub proof fn lemma_pid_lines_are_all_pids(ls: Seq<Seq<char>>)
    ensures
        pid_lines(ls) == ls.filter_map(|l: Seq<char>| parse_u32_spec(trim(l))),
    decreases ls.len(),
{
    if ls.len() > 0 {
        lemma_pid_lines_are_all_pids(ls.drop_last());
        let f = |l: Seq<char>| parse_u32_spec(trim(l));
        match f(ls.last()) {
            Some(p) => {},
            None => {
                assert(pid_lines(ls) =~= pid_lines(ls.drop_last()));
            },
        }
    }
}

/// Reads the pids out of `lsof -t` output.
pub fn parse_pid_lines(output: &str) -> (res: Vec<u32>)
    ensures
        res@ == pid_lines(lines(output@)),
{
    let ls = split_lines(output);
    let ghost lv = views(ls@);
    let mut out: Vec<u32> = Vec::new();
    let mut i: usize = 0;
    assert(lv.take(0) =~= Seq::<Seq<char>>::empty());
    while i < ls.len()
        invariant
            lv == views(ls@),
            0 <= i <= ls.len(),
            out@ == pid_lines(lv.take(i as int)),
        decreases ls.len() - i,
    {
        let ghost before = out@;
        proof {
            assert(lv.take(i as int + 1).drop_last() =~= lv.take(i as int));
            assert(lv.take(i as int + 1).last() == ls@[i as int]@);
        }
        match parse_u32(trim_str(ls[i].as_str())) {
            Some(p) => {
                out.push(p);
                assert(out@ =~= before + seq![p]);
            },
            None => {
                assert(out@ =~= before + Seq::<u32>::empty());
            },
        }
        i = i + 1;
    }
    assert(lv.take(i as int) =~= lv);
    out
}

/// `pid {pid} ({command})`.
pub open spec fn process_text(p: ProcessView) -> Seq<char> {
    "pid "@ + decimal(p.pid as nat) + " ("@ + p.command + ")"@
}

/// How a process is shown.
pub fn format_process(process: &ProcessInfo) -> (res: String)
    ensures
        res@ == process_text(process@),
{
    let mut s = String::from_str("pid ");
    push_decimal(&mut s, process.pid as u64);
    s.append(" (");
    s.append(process.command.as_str());
    s.append(")");
    s
}


// ---------------------------------------------------------------------------
// `lsof -F pc` output
// ---------------------------------------------------------------------------

/// Where a scan of `lsof -F pc` output stands: the processes completed so
/// far, and the pid and command of the one being read.
pub struct LsofScan {
    pub records: Seq<ProcessView>,
    pub pid: Option<u32>,
    pub command: Option<Seq<char>>,
}

/// The processes completed so far, with the one being read added when both
/// its pid and command have been seen.
pub open spec fn flushed(st: LsofScan) -> Seq<ProcessView> {
    match (st.pid, st.command) {
        (Some(p), Some(c)) => st.records.push(ProcessView { pid: p, command: c }),
        _ => st.records,
    }
}

/// A scan of `lsof -F pc` lines: a `p` line ends the process being read and
/// starts one with that pid (none when it is not a pid), a `c` line gives
/// the command, other lines are skipped.
pub open spec fn lsof_scan(ls: Seq<Seq<char>>) -> LsofScan
    decreases ls.len(),
{
    if ls.len() == 0 {
        LsofScan { records: seq![], pid: None, command: None }
    } else {
        let st = lsof_scan(ls.drop_last());
        let line = ls.last();
        match strip_char_prefix(line, 'p') {
            Some(pid_text) => LsofScan {
                records: flushed(st),
                pid: parse_u32_spec(pid_text),
                command: None,
            },
            None => match strip_char_prefix(line, 'c') {
                Some(command) => LsofScan { command: Some(command), ..st },
                None => st,
            },
        }
    }
}

/// The processes listed in `lsof -F pc` output, in order, repeats included.
pub open spec fn lsof_records(ls: Seq<Seq<char>>) -> Seq<ProcessView> {
    flushed(lsof_scan(ls))
}

/// Pids strictly increase along `s`.
pub open spec fn pids_increasing(s: Seq<ProcessView>) -> bool {
    forall|i: int, j: int| 0 <= i < j < s.len() ==> (#[trigger] s[i]).pid < (#[trigger] s[j]).pid
}

/// Some process of `s` has pid `p`.
pub open spec fn has_pid(s: Seq<ProcessView>, p: u32) -> bool {
    exists|i: int| 0 <= i < s.len() && (#[trigger] s[i]).pid == p
}

/// Entry `i` of `s` is the first with its pid.
pub open spec fn first_of_pid(s: Seq<ProcessView>, i: int) -> bool {
    &&& 0 <= i < s.len()
    &&& forall|j: int| 0 <= j < i ==> (#[trigger] s[j]).pid != s[i].pid
}

/// `r` is the first process of `raw` with its pid.
pub open spec fn first_copy(raw: Seq<ProcessView>, r: ProcessView) -> bool {
    exists|i: int| #[trigger] first_of_pid(raw, i) && raw[i] == r
}

/// `res` holds each pid of `raw` once, with the first process that has it,
/// ordered by pid: what sorting `raw` stably by pid and dropping repeated
/// pids gives.
pub open spec fn unique_by_pid(raw: Seq<ProcessView>, res: Seq<ProcessView>) -> bool {
    &&& pids_increasing(res)
    &&& forall|p: u32| #[trigger] has_pid(res, p) == has_pid(raw, p)
    &&& forall|k: int| 0 <= k < res.len() ==> first_copy(raw, #[trigger] res[k])
}

proof fn lemma_unique_by_pid_from_witnesses(raw: Seq<ProcessView>, res: Seq<ProcessView>, wit: Seq<int>)
    requires
        pids_increasing(res),
        forall|p: u32| #[trigger] has_pid(res, p) == has_pid(raw, p),
        wit.len() == res.len(),
        forall|k: int| 0 <= k < res.len() ==> first_of_pid(raw, #[trigger] wit[k]) && raw[wit[k]] == res[k],
    ensures
        unique_by_pid(raw, res),
{
    assert forall|k: int| 0 <= k < res.len() implies first_copy(raw, #[trigger] res[k]) by {
        assert(first_of_pid(raw, wit[k]) && raw[wit[k]] == res[k]);
    }
}

fn flush(records: &mut Vec<ProcessInfo>, pid: Option<u32>, command: Option<String>)
    ensures
        process_views(final(records)@) == flushed(
            LsofScan {
                records: process_views(old(records)@),
                pid,
                command: match command {
                    Some(c) => Some(c@),
                    None => None,
                },
            },
        ),
{
    let ghost before = records@;
    match (pid, command) {
        (Some(p), Some(c)) => {
            let info = ProcessInfo { pid: p, command: c };
            records.push(info);
            assert(process_views(records@) =~= process_views(before).push(info@));
        },
        _ => {},
    }
}

/// Reads the processes out of `lsof -F pc` output: each pid once, with the
/// command first listed for it, ordered by pid.
pub fn parse_lsof_processes(output: &str) -> (res: Vec<ProcessInfo>)
    ensures
        unique_by_pid(lsof_records(lines(output@)), process_views(res@)),
{
    let ls = split_lines(output);
    let ghost lv = views(ls@);
    let mut records: Vec<ProcessInfo> = Vec::new();
    let mut current_pid: Option<u32> = None;
    let mut current_command: Option<String> = None;
    let mut i: usize = 0;
    assert(lv.take(0) =~= Seq::<Seq<char>>::empty());
    assert(process_views(records@) =~= Seq::<ProcessView>::empty());
    while i < ls.len()
        invariant
            lv == views(ls@),
            0 <= i <= ls.len(),
            lsof_scan(lv.take(i as int)) == (LsofScan {
                records: process_views(records@),
                pid: current_pid,
                command: match current_command {
                    Some(c) => Some(c@),
                    None => None,
                },
            }),
        decreases ls.len() - i,
    {
        proof {
            assert(lv.take(i as int + 1).drop_last() =~= lv.take(i as int));
            assert(lv.take(i as int + 1).last() == ls@[i as int]@);
        }
        let line = ls[i].as_str();
        match strip_prefix_char(line, 'p') {
            Some(pid_text) => {
                let p = current_pid;
                current_pid = None;
                let c = current_command;
                current_command = None;
                flush(&mut records, p, c);
                match parse_u32(pid_text) {
                    Some(pid) => {
                        current_pid = Some(pid);
                    },
                    None => {},
                }
            },
            None => match strip_prefix_char(line, 'c') {
                Some(command) => {
                    current_command = Some(String::from_str(command));
                },
                None => {},
            },
        }
        i = i + 1;
    }
    assert(lv.take(i as int) =~= lv);
    let p = current_pid;
    let c = current_command;
    flush(&mut records, p, c);
    let ghost raw = process_views(records@);
    assert(raw == lsof_records(lv));
    // Keep the first process seen with each pid, in pid order.
    let mut out: Vec<ProcessInfo> = Vec::new();
    let ghost mut wit: Seq<int> = seq![];
    let mut r: usize = 0;
    while r < records.len()
        invariant
            raw == process_views(records@),
            0 <= r <= records.len(),
            pids_increasing(process_views(out@)),
            forall|q: u32| #[trigger] has_pid(process_views(out@), q) == has_pid(raw.take(r as int), q),
            wit.len() == out.len(),
            forall|k: int| 0 <= k < out.len() ==> 0 <= #[trigger] wit[k] < r && first_of_pid(raw, wit[k]) && raw[wit[k]] == process_views(out@)[k],
        decreases records.len() - r,
    {
        let ghost ov = process_views(out@);
        let pid = records[r].pid;
        let mut pos: usize = 0;
        while pos < out.len() && out[pos].pid < pid
            invariant
                ov == process_views(out@),
                0 <= pos <= out.len(),
                forall|k: int| 0 <= k < pos ==> (#[trigger] ov[k]).pid < pid,
            decreases out.len() - pos,
        {
            pos = pos + 1;
        }
        proof {
            assert(raw.take(r as int + 1) =~= raw.take(r as int).push(raw[r as int]));
            assert(raw[r as int] == records@[r as int]@);
            assert forall|q: u32| #[trigger] has_pid(raw.take(r as int + 1), q) == (has_pid(
                raw.take(r as int),
                q,
            ) || q == pid) by {
                if has_pid(raw.take(r as int + 1), q) {
                    let j = choose|j: int| 0 <= j < raw.take(r as int + 1).len() && (#[trigger] raw.take(r as int + 1)[j]).pid == q;
                    if j < r {
                        assert(raw.take(r as int)[j] == raw.take(r as int + 1)[j]);
                    }
                }
                if has_pid(raw.take(r as int), q) {
                    let j = choose|j: int| 0 <= j < raw.take(r as int).len() && (#[trigger] raw.take(r as int)[j]).pid == q;
                    assert(raw.take(r as int + 1)[j] == raw.take(r as int)[j]);
                }
                if q == pid {
                    assert(raw.take(r as int + 1)[r as int].pid == q);
                }
            }
        }
        if pos < out.len() && out[pos].pid == pid {
            proof {
                assert(ov[pos as int].pid == pid);
                assert(has_pid(ov, pid));
            }
        } else {
            proof {
                if pos < out.len() {
                    assert(pid < ov[pos as int].pid);
                }
                assert(!has_pid(ov, pid)) by {
                    if has_pid(ov, pid) {
                        let k = choose|k: int| 0 <= k < ov.len() && (#[trigger] ov[k]).pid == pid;
                        if k >= pos {
                            if k > pos {
                                assert(ov[pos as int].pid < ov[k].pid);
                            }
                        }
                    }
                }
                assert(!has_pid(raw.take(r as int), pid));
                assert forall|j: int| 0 <= j < r implies (#[trigger] raw[j]).pid != raw[r as int].pid by {
                    if raw[j].pid == pid {
                        assert(raw.take(r as int)[j] == raw[j]);
                    }
                }
                assert(first_of_pid(raw, r as int));
            }
            let info = ProcessInfo { pid, command: records[r].command.clone() };
            out.insert(pos, info);
            proof {
                let nv = process_views(out@);
                assert(nv =~= ov.insert(pos as int, raw[r as int]));
                let wit2 = wit.insert(pos as int, r as int);
                assert forall|a: int, b: int| 0 <= a < b < nv.len() implies (#[trigger] nv[a]).pid < (#[trigger] nv[b]).pid by {
                    if b < pos {
                    } else if b == pos {
                    } else if a < pos {
                        assert(ov[a].pid < pid);
                        if b - 1 > pos {
                            assert(ov[pos as int].pid < ov[b - 1].pid);
                        }
                    } else if a == pos {
                        if b - 1 > pos {
                            assert(ov[pos as int].pid < ov[b - 1].pid);
                        }
                    } else {
                        assert(ov[a - 1].pid < ov[b - 1].pid);
                    }
                }
                assert forall|q: u32| #[trigger] has_pid(nv, q) == (has_pid(ov, q) || q == pid) by {
                    if has_pid(nv, q) {
                        let k = choose|k: int| 0 <= k < nv.len() && (#[trigger] nv[k]).pid == q;
                        if k < pos {
                            assert(ov[k] == nv[k]);
                        } else if k > pos {
                            assert(ov[k - 1] == nv[k]);
                        }
                    }
                    if has_pid(ov, q) {
                        let k = choose|k: int| 0 <= k < ov.len() && (#[trigger] ov[k]).pid == q;
                        if k < pos {
                            assert(nv[k] == ov[k]);
                        } else {
                            assert(nv[k + 1] == ov[k]);
                        }
                    }
                    if q == pid {
                        assert(nv[pos as int].pid == q);
                    }
                }
                assert forall|k: int| 0 <= k < nv.len() implies 0 <= #[trigger] wit2[k] < r + 1 && first_of_pid(raw, wit2[k]) && raw[wit2[k]] == nv[k] by {
                    if k < pos {
                        assert(wit2[k] == wit[k]);
                    } else if k > pos {
                        assert(wit2[k] == wit[k - 1]);
                    }
                }
                wit = wit2;
            }
        }
        r = r + 1;
    }
    proof {
        assert(raw.take(r as int) =~= raw);
        let res = process_views(out@);
        assert forall|k: int| 0 <= k < res.len() implies first_of_pid(raw, #[trigger] wit[k]) && raw[wit[k]] == res[k] by {}
        lemma_unique_by_pid_from_witnesses(raw, res, wit);
        assert(unique_by_pid(raw, res));
    }
    out
}


// ---------------------------------------------------------------------------
// Reports
// ---------------------------------------------------------------------------

/// `parts` joined with `sep` between consecutive ones.
pub open spec fn join(parts: Seq<Seq<char>>, sep: Seq<char>) -> Seq<char>
    decreases parts.len(),
{
    if parts.len() == 0 {
        seq![]
    } else if parts.len() == 1 {
        parts[0]
    } else {
        join(parts.drop_last(), sep) + sep + parts.last()
    }
}

/// Joins `parts` with `sep`.
pub fn join_strings(parts: &Vec<String>, sep: &str) -> (res: String)
    ensures
        res@ == join(views(parts@), sep@),
{
    let ghost pv = views(parts@);
    let mut out = String::new();
    let mut i: usize = 0;
    assert(pv.take(0) =~= Seq::<Seq<char>>::empty());
    while i < parts.len()
        invariant
            pv == views(parts@),
            0 <= i <= parts.len(),
            out@ == join(pv.take(i as int), sep@),
        decreases parts.len() - i,
    {
        proof {
            assert(pv.take(i as int + 1).drop_last() =~= pv.take(i as int));
            assert(pv.take(i as int + 1).last() == parts@[i as int]@);
        }
        if i > 0 {
            out.append(sep);
        } else {
            assert(pv.take(1)[0] == parts@[0]@);
        }
        out.append(parts[i].as_str());
        i = i + 1;
    }
    assert(pv.take(i as int) =~= pv);
    out
}

/// The decimal renderings of `pids`.
pub open spec fn pid_texts(pids: Seq<u32>) -> Seq<Seq<char>> {
    pids.map_values(|p: u32| decimal(p as nat))
}

/// The pids joined with `", "`.
pub fn join_pids(pids: &Vec<u32>) -> (res: String)
    ensures
        res@ == join(pid_texts(pids@), ", "@),
{
    let mut parts: Vec<String> = Vec::new();
    let mut i: usize = 0;
    while i < pids.len()
        invariant
            0 <= i <= pids.len(),
            views(parts@) == pid_texts(pids@.take(i as int)),
        decreases pids.len() - i,
    {
        let ghost before = parts@;
        parts.push(crate::text::decimal_string(pids[i] as u64));
        proof {
            assert(views(parts@) =~= views(before).push(decimal(pids@[i as int] as nat)));
            assert(pids@.take(i as int + 1) =~= pids@.take(i as int).push(pids@[i as int]));
            assert(pid_texts(pids@.take(i as int + 1)) =~= pid_texts(pids@.take(i as int)).push(
                decimal(pids@[i as int] as nat),
            ));
        }
        i = i + 1;
    }
    assert(pids@.take(i as int) =~= pids@);
    join_strings(&parts, ", ")
}

/// The name of a state, as `{:?}` prints it.
pub open spec fn state_name(s: ConnectionState) -> Seq<char> {
    match s {
        ConnectionState::Healthy => "Healthy"@,
        ConnectionState::Starting => "Starting"@,
        ConnectionState::WaitingToRetry => "WaitingToRetry"@,
        ConnectionState::Stopped => "Stopped"@,
        ConnectionState::Failed => "Failed"@,
    }
}

/// The name of a state.
pub fn state_label(s: ConnectionState) -> (res: &'static str)
    ensures
        res@ == state_name(s),
{
    match s {
        ConnectionState::Healthy => "Healthy",
        ConnectionState::Starting => "Starting",
        ConnectionState::WaitingToRetry => "WaitingToRetry",
        ConnectionState::Stopped => "Stopped",
        ConnectionState::Failed => "Failed",
    }
}

/// The pids of the listeners other than the connection's own process, in
/// order.
pub open spec fn other_listener_pids(ls: Seq<ProcessView>, own: Option<u32>) -> Seq<u32>
    decreases ls.len(),
{
    if ls.len() == 0 {
        seq![]
    } else {
        other_listener_pids(ls.drop_last(), own) + if Some(ls.last().pid) != own {
            seq![ls.last().pid]
        } else {
            seq![]
        }
    }
}

/// Why a connection is not healthy, given the processes listening on its
/// local port.
pub open spec fn unhealthy_reason(st: ConnectionStatusView, ls: Seq<ProcessView>) -> Seq<char> {
    match st.state {
        ConnectionState::Healthy => "healthy"@,
        ConnectionState::Stopped => "restart is suppressed"@,
        ConnectionState::WaitingToRetry => match st.last_error {
            Some(e) => if ls.len() == 0 {
                "waiting to retry because "@ + e
            } else {
                "waiting to retry because "@ + e
                    + "; local port is currently held by another process"@
            },
            None => match st.next_retry_in_seconds {
                Some(secs) => "waiting "@ + decimal(secs as nat) + "s before the next retry"@,
                None => "waiting for the next retry"@,
            },
        },
        ConnectionState::Starting => {
            let others = other_listener_pids(ls, st.process_id);
            if others.len() > 0 {
                "tunnel process is running but the local port is held by "@ + join(
                    pid_texts(others),
                    ", "@,
                )
            } else {
                match st.last_error {
                    Some(e) => "tunnel process is starting; last error: "@ + e,
                    None => "tunnel process is running but the forwarded port is not reachable yet"@,
                }
            }
        },
        ConnectionState::Failed => match st.last_error {
            Some(e) => if ls.len() == 0 {
                "failed because "@ + e
            } else {
                "failed because "@ + e + "; local port is held by another process"@
            },
            None => if ls.len() > 0 {
                "failed and the local port is held by another process"@
            } else {
                "failed for an unknown reason"@
            },
        },
    }
}

fn other_pids(listeners: &[ProcessInfo], own: Option<u32>) -> (res: Vec<u32>)
    ensures
        res@ == other_listener_pids(process_views(listeners@), own),
{
    let ghost lv = process_views(listeners@);
    let mut out: Vec<u32> = Vec::new();
    let mut i: usize = 0;
    assert(lv.take(0) =~= Seq::<ProcessView>::empty());
    while i < listeners.len()
        invariant
            lv == process_views(listeners@),
            0 <= i <= listeners.len(),
            out@ == other_listener_pids(lv.take(i as int), own),
        decreases listeners.len() - i,
    {
        proof {
            assert(lv.take(i as int + 1).drop_last() =~= lv.take(i as int));
            assert(lv.take(i as int + 1).last() == listeners@[i as int]@);
        }
        let pid = listeners[i].pid;
        let is_own = match own {
            Some(o) => o == pid,
            None => false,
        };
        if !is_own {
            let ghost before = out@;
            out.push(pid);
            assert(out@ =~= before + seq![pid]);
        } else {
            assert(out@ =~= out@ + Seq::<u32>::empty());
        }
        i = i + 1;
    }
    assert(lv.take(i as int) =~= lv);
    out
}

/// Explains why a connection is not healthy, given the processes listening
/// on its local port.
pub fn explain_unhealthy_status(status: &ConnectionStatus, listeners: &[ProcessInfo]) -> (res:
    String)
    ensures
        res@ == unhealthy_reason(status@, process_views(listeners@)),
{
    match status.state {
        ConnectionState::Healthy => String::from_str("healthy"),
        ConnectionState::Stopped => String::from_str("restart is suppressed"),
        ConnectionState::WaitingToRetry => {
            match &status.last_error {
                Some(error) => {
                    let mut s = String::from_str("waiting to retry because ");
                    s.append(error.as_str());
                    if listeners.len() > 0 {
                        s.append("; local port is currently held by another process");
                    }
                    s
                },
                None => match status.next_retry_in_seconds {
                    Some(secs) => {
                        let mut s = String::from_str("waiting ");
                        push_decimal(&mut s, secs);
                        s.append("s before the next retry");
                        s
                    },
                    None => String::from_str("waiting for the next retry"),
                },
            }
        },
        ConnectionState::Starting => {
            let others = other_pids(listeners, status.process_id);
            if others.len() > 0 {
                let mut s = String::from_str(
                    "tunnel process is running but the local port is held by ",
                );
                let joined = join_pids(&others);
                s.append(joined.as_str());
                s
            } else {
                match &status.last_error {
                    Some(error) => {
                        let mut s = String::from_str("tunnel process is starting; last error: ");
                        s.append(error.as_str());
                        s
                    },
                    None => String::from_str(
                        "tunnel process is running but the forwarded port is not reachable yet",
                    ),
                }
            }
        },
        ConnectionState::Failed => {
            match &status.last_error {
                Some(error) => {
                    let mut s = String::from_str("failed because ");
                    s.append(error.as_str());
                    if listeners.len() > 0 {
                        s.append("; local port is held by another process");
                    }
                    s
                },
                None => if listeners.len() > 0 {
                    String::from_str("failed and the local port is held by another process")
                } else {
                    String::from_str("failed for an unknown reason")
                },
            }
        },
    }
}

/// The line with which `list`, `status`, `stop` and `refresh` show a
/// connection.
pub open spec fn status_text(st: ConnectionStatusView) -> Seq<char> {
    st.name + " ["@ + state_name(st.state) + "] "@ + st.ssh_host + ":"@ + decimal(
        st.local_port as nat,
    ) + " -> "@ + st.remote_host + ":"@ + decimal(st.remote_port as nat) + match st.next_retry_in_seconds {
        Some(secs) => ", retry in "@ + decimal(secs as nat) + "s"@,
        None => seq![],
    } + match st.last_error {
        Some(e) => ", error: "@ + e,
        None => seq![],
    }
}

/// How a connection is shown.
pub fn status_line(status: &ConnectionStatus) -> (res: String)
    ensures
        res@ == status_text(status@),
{
    let mut s = status.name.clone();
    s.append(" [");
    s.append(state_label(status.state));
    s.append("] ");
    s.append(status.ssh_host.as_str());
    s.append(":");
    push_decimal(&mut s, status.local_port as u64);
    s.append(" -> ");
    s.append(status.remote_host.as_str());
    s.append(":");
    push_decimal(&mut s, status.remote_port as u64);
    let ghost base = s@;
    match status.next_retry_in_seconds {
        Some(secs) => {
            s.append(", retry in ");
            push_decimal(&mut s, secs);
            s.append("s");
        },
        None => {
            assert(s@ =~= base + Seq::<char>::empty());
        },
    }
    let ghost base2 = s@;
    match &status.last_error {
        Some(e) => {
            s.append(", error: ");
            s.append(e.as_str());
        },
        None => {
            assert(s@ =~= base2 + Seq::<char>::empty());
        },
    }
    s
}

/// The lines with which `list` shows a snapshot.
pub open spec fn snapshot_text(connections: Seq<ConnectionStatusView>) -> Seq<Seq<char>> {
    if connections.len() == 0 {
        seq!["No configured connections."@]
    } else {
        connections.map_values(|st: ConnectionStatusView| status_text(st))
    }
}

/// The lines with which a snapshot is shown.
pub fn snapshot_lines(snapshot: &ServiceSnapshot) -> (res: Vec<String>)
    ensures
        views(res@) == snapshot_text(status_views(snapshot.connections@)),
{
    let mut out: Vec<String> = Vec::new();
    if snapshot.connections.len() == 0 {
        out.push(String::from_str("No configured connections."));
        assert(views(out@) =~= seq!["No configured connections."@]);
        return out;
    }
    let ghost sv = status_views(snapshot.connections@);
    let mut i: usize = 0;
    while i < snapshot.connections.len()
        invariant
            sv == status_views(snapshot.connections@),
            0 <= i <= snapshot.connections.len(),
            views(out@) == sv.take(i as int).map_values(|st: ConnectionStatusView| status_text(st)),
        decreases snapshot.connections.len() - i,
    {
        let ghost before = out@;
        let line = status_line(&snapshot.connections[i]);
        out.push(line);
        proof {
            assert(sv.take(i as int + 1) =~= sv.take(i as int).push(sv[i as int]));
            assert(views(out@) =~= views(before).push(line@));
            assert(views(out@) =~= sv.take(i as int + 1).map_values(
                |st: ConnectionStatusView| status_text(st),
            ));
        }
        i = i + 1;
    }
    assert(sv.take(i as int) =~= sv);
    out
}


/// The header of `debug`'s report: the file locations, the running daemons
/// and the processes holding the socket open.
pub open spec fn debug_header_text(
    config_path: Seq<char>,
    socket_path: Seq<char>,
    daemons: Seq<ProcessView>,
    owners: Seq<u32>,
) -> Seq<Seq<char>> {
    seq!["Config: "@ + config_path, "Socket: "@ + socket_path] + (if daemons.len() == 0 {
        seq!["Daemons: none"@]
    } else if daemons.len() == 1 {
        seq!["Daemons: 1 ("@ + process_text(daemons[0]) + ")"@]
    } else {
        seq!["Daemons: "@ + decimal(daemons.len())] + daemons.map_values(
            |p: ProcessView| "- "@ + process_text(p),
        )
    }) + seq![
        if owners.len() == 0 {
            "Socket owners: none"@
        } else {
            "Socket owners: "@ + join(pid_texts(owners), ", "@)
        },
    ]
}

fn labelled(label: &str, text: &str) -> (res: String)
    ensures
        res@ == label@ + text@,
{
    let mut s = String::from_str(label);
    s.append(text);
    s
}

/// The header of `debug`'s report.
pub fn debug_header_lines(
    config_path: &str,
    socket_path: &str,
    daemons: &Vec<ProcessInfo>,
    owners: &Vec<u32>,
) -> (res: Vec<String>)
    ensures
        views(res@) == debug_header_text(config_path@, socket_path@, process_views(daemons@), owners@),
{
    let ghost dv = process_views(daemons@);
    let mut out: Vec<String> = Vec::new();
    out.push(labelled("Config: ", config_path));
    out.push(labelled("Socket: ", socket_path));
    let ghost head = views(out@);
    assert(head =~= seq!["Config: "@ + config_path@, "Socket: "@ + socket_path@]);
    if daemons.len() == 0 {
        out.push(String::from_str("Daemons: none"));
        assert(views(out@) =~= head + seq!["Daemons: none"@]);
    } else if daemons.len() == 1 {
        let mut line = String::from_str("Daemons: 1 (");
        let p = format_process(&daemons[0]);
        line.append(p.as_str());
        line.append(")");
        out.push(line);
        assert(views(out@) =~= head + seq!["Daemons: 1 ("@ + process_text(dv[0]) + ")"@]);
    } else {
        let mut line = String::from_str("Daemons: ");
        push_decimal(&mut line, daemons.len() as u64);
        out.push(line);
        let ghost head2 = views(out@);
        assert(head2 =~= head + seq!["Daemons: "@ + decimal(dv.len())]);
        let mut i: usize = 0;
        while i < daemons.len()
            invariant
                dv == process_views(daemons@),
                0 <= i <= daemons.len(),
                views(out@) == head2 + dv.take(i as int).map_values(
                    |p: ProcessView| "- "@ + process_text(p),
                ),
            decreases daemons.len() - i,
        {
            let ghost before = out@;
            let p = format_process(&daemons[i]);
            let line = labelled("- ", p.as_str());
            out.push(line);
            proof {
                assert(dv.take(i as int + 1) =~= dv.take(i as int).push(dv[i as int]));
                assert(views(out@) =~= views(before).push(line@));
                assert(views(out@) =~= head2 + dv.take(i as int + 1).map_values(
                    |p: ProcessView| "- "@ + process_text(p),
                ));
            }
            i = i + 1;
        }
        assert(dv.take(i as int) =~= dv);
    }
    let ghost mid = views(out@);
    if owners.len() == 0 {
        out.push(String::from_str("Socket owners: none"));
    } else {
        let joined = join_pids(owners);
        out.push(labelled("Socket owners: ", joined.as_str()));
    }
    assert(views(out@) =~= mid + seq![
        if owners@.len() == 0 {
            "Socket owners: none"@
        } else {
            "Socket owners: "@ + join(pid_texts(owners@), ", "@)
        },
    ]);
    out
}

/// The lines with which `debug` reports a connection, given the processes
/// listening on its local port.
pub open spec fn debug_status_text(st: ConnectionStatusView, ls: Seq<ProcessView>) -> Seq<Seq<char>> {
    let head = "- "@ + st.name + ": "@ + state_name(st.state) + " (pid: "@ + match st.process_id {
        Some(p) => decimal(p as nat),
        None => "none"@,
    } + ", local port: "@ + decimal(st.local_port as nat) + ")"@;
    if st.state == ConnectionState::Healthy {
        seq![head, "  healthy"@]
    } else {
        seq![head, "  "@ + unhealthy_reason(st, ls)] + if ls.len() > 0 {
            seq![
                "  listeners on "@ + decimal(st.local_port as nat) + ": "@ + join(
                    ls.map_values(|p: ProcessView| process_text(p)),
                    ", "@,
                ),
            ]
        } else {
            seq![]
        }
    }
}

/// The lines with which `debug` reports a connection.
pub fn debug_status_lines(status: &ConnectionStatus, listeners: &[ProcessInfo]) -> (res: Vec<
    String,
>)
    ensures
        views(res@) == debug_status_text(status@, process_views(listeners@)),
{
    let ghost lv = process_views(listeners@);
    let mut head = String::from_str("- ");
    head.append(status.name.as_str());
    head.append(": ");
    head.append(state_label(status.state));
    head.append(" (pid: ");
    match status.process_id {
        Some(p) => push_decimal(&mut head, p as u64),
        None => head.append("none"),
    }
    head.append(", local port: ");
    push_decimal(&mut head, status.local_port as u64);
    head.append(")");
    let mut out: Vec<String> = Vec::new();
    out.push(head);
    if status.state == ConnectionState::Healthy {
        out.push(String::from_str("  healthy"));
        assert(views(out@) =~= debug_status_text(status@, lv));
        return out;
    }
    let reason = explain_unhealthy_status(status, listeners);
    out.push(labelled("  ", reason.as_str()));
    let ghost two = views(out@);
    if listeners.len() > 0 {
        let mut texts: Vec<String> = Vec::new();
        let mut i: usize = 0;
        while i < listeners.len()
            invariant
                lv == process_views(listeners@),
                0 <= i <= listeners.len(),
                views(texts@) == lv.take(i as int).map_values(|p: ProcessView| process_text(p)),
            decreases listeners.len() - i,
        {
            let ghost before = texts@;
            let t = format_process(&listeners[i]);
            texts.push(t);
            proof {
                assert(lv.take(i as int + 1) =~= lv.take(i as int).push(lv[i as int]));
                assert(views(texts@) =~= views(before).push(t@));
                assert(views(texts@) =~= lv.take(i as int + 1).map_values(
                    |p: ProcessView| process_text(p),
                ));
            }
            i = i + 1;
        }
        assert(lv.take(i as int) =~= lv);
        let mut line = String::from_str("  listeners on ");
        push_decimal(&mut line, status.local_port as u64);
        line.append(": ");
        let joined = join_strings(&texts, ", ");
        line.append(joined.as_str());
        out.push(line);
    }
    assert(views(out@) =~= debug_status_text(status@, lv));
    out
}

/// The heading of `debug`'s connections section: none configured, or the
/// list that follows, or no daemon to ask.
pub open spec fn debug_heading_text(daemon_available: bool, configured: bool) -> Seq<char> {
    if !daemon_available {
        "Connections: daemon unavailable"@
    } else if !configured {
        "Connections: none configured"@
    } else {
        "Connections:"@
    }
}

/// The heading of `debug`'s connections section.
pub fn debug_heading_line(daemon_available: bool, configured: bool) -> (res: String)
    ensures
        res@ == debug_heading_text(daemon_available, configured),
{
    if !daemon_available {
        String::from_str("Connections: daemon unavailable")
    } else if !configured {
        String::from_str("Connections: none configured")
    } else {
        String::from_str("Connections:")
    }
}

/// The line with which `debug` reports a configured connection it has no
/// status for: missing from the daemon's snapshot, or no daemon to ask.
pub open spec fn debug_note_text(name: Seq<char>, daemon_available: bool) -> Seq<char> {
    if daemon_available {
        "- "@ + name + ": missing from daemon snapshot"@
    } else {
        "- "@ + name + ": unable to query daemon status"@
    }
}

/// The line for a configured connection that `debug` has no status for.
pub fn debug_note_line(name: &str, daemon_available: bool) -> (res: String)
    ensures
        res@ == debug_note_text(name@, daemon_available),
{
    let mut s = String::from_str("- ");
    s.append(name);
    if daemon_available {
        s.append(": missing from daemon snapshot");
    } else {
        s.append(": unable to query daemon status");
    }
    s
}

/// The position of the first status for the connection named `name`.
pub fn find_status(statuses: &Vec<ConnectionStatus>, name: &str) -> (res: Option<usize>)
    ensures
        match res {
            Some(i) => i < statuses.len() && statuses@[i as int].name@ == name@ && forall|j: int|
                0 <= j < i ==> (#[trigger] statuses@[j]).name@ != name@,
            None => forall|j: int| 0 <= j < statuses.len() ==> (#[trigger] statuses@[j]).name@ != name@,
        },
{
    let mut i: usize = 0;
    while i < statuses.len()
        invariant
            0 <= i <= statuses.len(),
            forall|j: int| 0 <= j < i ==> (#[trigger] statuses@[j]).name@ != name@,
        decreases statuses.len() - i,
    {
        if crate::text::str_eq(statuses[i].name.as_str(), name) {
            return Some(i);
        }
        i = i + 1;
    }
    None
}

// ---------------------------------------------------------------------------
// Commands and requests
// ---------------------------------------------------------------------------

/// The command line.
pub struct Cli {
    pub command: Command,
}

/// The commands.
pub enum Command {
    Serve,
    List,
    Debug,
    Status { name: String },
    Refresh { name: String },
    Stop { name: String },
    Reload,
    ValidateConfig,
    Config { command: ConfigCommand },
}

/// The `config` subcommands.
pub enum ConfigCommand {
    Path,
    Init,
}

impl Command {
    /// The request that the command sends to the daemon; `None` for the
    /// commands that do their work locally.
    pub fn request(&self) -> (res: Option<PortpalRequest>)
        ensures
            match self {
                Command::List => res is Some && res->0.action == RequestAction::List
                    && res->0.name is None,
                Command::Status { name } => res is Some && res->0.action == RequestAction::Status
                    && res->0.name is Some && res->0.name->0@ == name@,
                Command::Refresh { name } => res is Some && res->0.action == RequestAction::Refresh
                    && res->0.name is Some && res->0.name->0@ == name@,
                Command::Stop { name } => res is Some && res->0.action == RequestAction::Stop
                    && res->0.name is Some && res->0.name->0@ == name@,
                Command::Reload => res is Some && res->0.action == RequestAction::Reload
                    && res->0.name is None,
                _ => res is None,
            },
    {
        match self {
            Command::List => Some(PortpalRequest { action: RequestAction::List, name: None }),
            Command::Status { name } => Some(
                PortpalRequest { action: RequestAction::Status, name: Some(name.clone()) },
            ),
            Command::Refresh { name } => Some(
                PortpalRequest { action: RequestAction::Refresh, name: Some(name.clone()) },
            ),
            Command::Stop { name } => Some(
                PortpalRequest { action: RequestAction::Stop, name: Some(name.clone()) },
            ),
            Command::Reload => Some(PortpalRequest { action: RequestAction::Reload, name: None }),
            _ => None,
        }
    }
}

/// What a client takes from the daemon's answer: the response when it
/// reports success, else its message (or "request failed").
pub fn accept_response(response: PortpalResponse) -> (res: Result<PortpalResponse, String>)
    ensures
        response.ok ==> (res matches Ok(r) && r == response),
        !response.ok ==> (res matches Err(m) && m@ == match response.message {
            Some(msg) => msg@,
            None => "request failed"@,
        }),
{
    if !response.ok {
        return Err(
            match response.message {
                Some(m) => m,
                None => String::from_str("request failed"),
            },
        );
    }
    Ok(response)
}

/// The outcome of `status`: success only for a healthy connection, else the
/// error "{name} is {state}".
pub fn status_outcome(status: &ConnectionStatus) -> (res: Result<(), String>)
    ensures
        status.state == ConnectionState::Healthy ==> res is Ok,
        status.state != ConnectionState::Healthy ==> (res matches Err(m) && m@ == status.name@
            + " is "@ + state_name(status.state)),
{
    if status.state == ConnectionState::Healthy {
        return Ok(());
    }
    let mut m = status.name.clone();
    m.append(" is ");
    m.append(state_label(status.state));
    Err(m)
}

} // verus!
