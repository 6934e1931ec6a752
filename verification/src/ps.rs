//! The process pipeline: parsing of `ps aux` output into
//! [`ProcessInfo`] records, with header validation, the `STARTED` to
//! `START` column-name rewrite, the remainder-column join for
//! `COMMAND`, and pid filtering.

use vstd::prelude::*;

use crate::text::{
    contains_str, join_spaces, join_tokens, lines_of, seq_has_str, split_lines,
    split_tokens, str_eq, tokens_of, upper_of, upper_str,
};

verus! {

/// An error of the process pipeline, carrying its report text.
#[derive(Debug, PartialEq, Eq, Clone, Copy)]
pub struct PsError {
    pub reason: &'static str,
}

/// The report of output with no lines at all.
pub open spec fn ps_missing_header_reason() -> Seq<char> {
    "The ps output is missing the header."@
}

/// The report of a header that lacks a required column.
pub open spec fn ps_missing_props_reason() -> Seq<char> {
    "The ps output is missing expected properties."@
}

/// The report of a detail line with fewer tokens than header columns.
pub open spec fn ps_malformed_line_reason() -> Seq<char> {
    "The ps output contains a malformed detail line."@
}

/// The report of a run of `ps` that exited with failure.
pub open spec fn ps_command_failed_reason() -> Seq<char> {
    "The ps command has failed in an unexpected way."@
}

/// The report of a `ps` executable that could not be launched.
pub open spec fn ps_not_found_reason() -> Seq<char> {
    "Unable to locate the ps executable on the system."@
}

impl PsError {
    /// The report text of this error.
    pub fn message(&self) -> (r: String)
        ensures
            r@ == self.reason@,
    {
        String::from_str(self.reason)
    }
}

/// The mathematical contents of a [`ProcessInfo`]: each field as a
/// character sequence.
pub ghost struct ProcessInfoView {
    pub user: Seq<char>,
    pub pid: Seq<char>,
    pub pc_cpu: Seq<char>,
    pub pc_mem: Seq<char>,
    pub start: Seq<char>,
    pub time: Seq<char>,
    pub command: Seq<char>,
}

/// One row of `ps aux` output: every column kept verbatim as text.
#[derive(Debug, PartialEq, Eq)]
pub struct ProcessInfo {
    pub user: String,
    pub pid: String,
    pub pc_cpu: String,
    pub pc_mem: String,
    pub start: String,
    pub time: String,
    pub command: String,
}

impl View for ProcessInfo {
    type V = ProcessInfoView;

    open spec fn view(&self) -> ProcessInfoView {
        ProcessInfoView {
            user: self.user@,
            pid: self.pid@,
            pc_cpu: self.pc_cpu@,
            pc_mem: self.pc_mem@,
            start: self.start@,
            time: self.time@,
            command: self.command@,
        }
    }
}

impl DeepView for ProcessInfo {
    type V = ProcessInfoView;

    open spec fn deep_view(&self) -> ProcessInfoView {
        self.view()
    }
}

/// The record every mapping starts from: all fields empty.
pub open spec fn empty_process_view() -> ProcessInfoView {
    ProcessInfoView {
        user: Seq::empty(),
        pid: Seq::empty(),
        pc_cpu: Seq::empty(),
        pc_mem: Seq::empty(),
        start: Seq::empty(),
        time: Seq::empty(),
        command: Seq::empty(),
    }
}

impl ProcessInfo {
    /// A record with every field empty.
    #[must_use]
    pub fn new() -> (r: Self)
        ensures
            r@ == empty_process_view(),
    {
        ProcessInfo {
            user: String::new(),
            pid: String::new(),
            pc_cpu: String::new(),
            pc_mem: String::new(),
            start: String::new(),
            time: String::new(),
            command: String::new(),
        }
    }
}

impl Clone for ProcessInfo {
    fn clone(&self) -> (r: Self)
        ensures
            r@ == self@,
    {
        ProcessInfo {
            user: self.user.clone(),
            pid: self.pid.clone(),
            pc_cpu: self.pc_cpu.clone(),
            pc_mem: self.pc_mem.clone(),
            start: self.start.clone(),
            time: self.time.clone(),
            command: self.command.clone(),
        }
    }
}

impl Default for ProcessInfo {
    fn default() -> (r: Self)
        ensures
            r@ == empty_process_view(),
    {
        ProcessInfo::new()
    }
}

/// The columns the process pipeline requires in the header.
pub open spec fn ps_required_columns() -> Seq<Seq<char>> {
    seq!["USER"@, "PID"@, "%CPU"@, "%MEM"@, "START"@, "TIME"@, "COMMAND"@]
}

/// Whether every required column occurs among `cols`.
pub open spec fn ps_header_has_all(cols: Seq<Seq<char>>) -> bool {
    forall|i: int|
        0 <= i < ps_required_columns().len() ==> seq_has_str(cols, ps_required_columns()[i])
}

/// The `STARTED` to `START` rewrite applied to each column name.
pub open spec fn ps_normalize_cols(cols: Seq<Seq<char>>) -> Seq<Seq<char>> {
    cols.map_values(
        |c: Seq<char>|
            if c == "STARTED"@ {
                "START"@
            } else {
                c
            },
    )
}

/// The canonical header of the process pipeline: the upper-cased
/// tokens of the line, with `STARTED` rewritten to `START`.
pub open spec fn ps_canonical_header(line: Seq<char>) -> Seq<Seq<char>> {
    ps_normalize_cols(tokens_of(upper_of(line)))
}

/// One column applied to a record under construction: the value at
/// position `i` lands in the field the column name selects, the
/// `COMMAND` column absorbing the rest of the line, and an
/// unrecognized name leaving the record as it was.
pub open spec fn ps_map_step(
    p: ProcessInfoView,
    header: Seq<Seq<char>>,
    line: Seq<Seq<char>>,
    i: int,
) -> ProcessInfoView {
    let name = header[i];
    let value = line[i];
    if name == "USER"@ {
        ProcessInfoView { user: value, ..p }
    } else if name == "PID"@ {
        ProcessInfoView { pid: value, ..p }
    } else if name == "%CPU"@ {
        ProcessInfoView { pc_cpu: value, ..p }
    } else if name == "%MEM"@ {
        ProcessInfoView { pc_mem: value, ..p }
    } else if name == "START"@ {
        ProcessInfoView { start: value, ..p }
    } else if name == "TIME"@ {
        ProcessInfoView { time: value, ..p }
    } else if name == "COMMAND"@ {
        ProcessInfoView { command: join_spaces(line.skip(i)), ..p }
    } else {
        p
    }
}

/// The record after the first `n` header columns have been applied.
pub open spec fn ps_mapped_upto(
    header: Seq<Seq<char>>,
    line: Seq<Seq<char>>,
    n: int,
) -> ProcessInfoView
    decreases n,
{
    if n <= 0 {
        empty_process_view()
    } else {
        ps_map_step(ps_mapped_upto(header, line, n - 1), header, line, n - 1)
    }
}

/// The record a detail line maps to under a header.
pub open spec fn ps_mapped_record(header: Seq<Seq<char>>, line: Seq<Seq<char>>) -> ProcessInfoView {
    ps_mapped_upto(header, line, header.len() as int)
}

/// The records of all detail lines, in order. A line with no tokens
/// at all (an all-whitespace output line) has no matchable columns
/// and is discarded rather than mapped.
pub open spec fn ps_mapped_records(
    header: Seq<Seq<char>>,
    lines: Seq<Seq<Seq<char>>>,
) -> Seq<ProcessInfoView>
    decreases lines.len(),
{
    if lines.len() == 0 {
        Seq::empty()
    } else {
        let front = ps_mapped_records(header, lines.drop_last());
        if lines.last().len() == 0 {
            front
        } else {
            front.push(ps_mapped_record(header, lines.last()))
        }
    }
}

/// Whether every detail line that has tokens at all has at least one
/// token per header column.
pub open spec fn ps_lines_long_enough(header: Seq<Seq<char>>, lines: Seq<Seq<Seq<char>>>) -> bool {
    forall|i: int|
        0 <= i < lines.len() && #[trigger] lines[i].len() > 0 ==> lines[i].len() >= header.len()
}

/// The records whose pid occurs in `pids`, in their original order.
pub open spec fn kept_processes(
    procs: Seq<ProcessInfoView>,
    pids: Seq<Seq<char>>,
) -> Seq<ProcessInfoView>
    decreases procs.len(),
{
    if procs.len() == 0 {
        Seq::empty()
    } else {
        let front = kept_processes(procs.drop_last(), pids);
        if seq_has_str(pids, procs.last().pid) {
            front.push(procs.last())
        } else {
            front
        }
    }
}

/// The process pipeline.
pub struct Ps;

impl Ps {
    /// The required column names, in canonical order.
    #[must_use]
    pub fn headers() -> (r: Vec<String>)
        ensures
            r.deep_view() == ps_required_columns(),
    {
        let mut r: Vec<String> = Vec::new();
        r.push(String::from_str("USER"));
        r.push(String::from_str("PID"));
        r.push(String::from_str("%CPU"));
        r.push(String::from_str("%MEM"));
        r.push(String::from_str("START"));
        r.push(String::from_str("TIME"));
        r.push(String::from_str("COMMAND"));
        proof {
            assert(r.deep_view() =~= ps_required_columns());
        }
        r
    }

    /// Decides what a completed run of `ps` yielded: captured output
    /// on exit 0, and the unexpected-failure error otherwise.
    pub fn handle_output_ok(exit_code: Option<i32>, stdout: &str) -> (r: Result<String, PsError>)
        ensures
            exit_code == Some(0i32) ==> (r matches Ok(s) && s@ == stdout@),
            exit_code != Some(0i32) ==> (r matches Err(e) && e.reason@ == ps_command_failed_reason()),
    {
        match exit_code {
            Some(0i32) => Ok(String::from_str(stdout)),
            _ => Err(PsError { reason: "The ps command has failed in an unexpected way." }),
        }
    }

    /// The error for a `ps` that could not be launched at all.
    pub fn handle_output_err() -> (r: Result<String, PsError>)
        ensures
            r matches Err(e) && e.reason@ == ps_not_found_reason(),
    {
        Err(PsError { reason: "Unable to locate the ps executable on the system." })
    }

    /// Rewrites the alternate spelling `STARTED` to the canonical
    /// column name `START`, leaving every other column unchanged.
    pub fn normalize_header_columns(header: &Vec<String>) -> (r: Vec<String>)
        ensures
            r.deep_view() == ps_normalize_cols(header.deep_view()),
    {
        let mut r: Vec<String> = Vec::new();
        let len = header.len();
        for i in 0..len
            invariant
                len == header@.len(),
                r.deep_view() =~= ps_normalize_cols(header.deep_view().take(i as int)),
        {
            let ghost prev = r.deep_view();
            let col = if str_eq(header[i].as_str(), "STARTED") {
                String::from_str("START")
            } else {
                header[i].clone()
            };
            r.push(col);
            proof {
                assert(r.deep_view() =~= prev.push(r.deep_view().last()));
                assert(r.deep_view() =~= ps_normalize_cols(header.deep_view().take(i + 1)));
            }
        }
        proof {
            assert(header.deep_view().take(len as int) =~= header.deep_view());
        }
        r
    }

    /// Whether every required column occurs in the header.
    pub fn header_contains_all_properties(header: &Vec<String>) -> (r: bool)
        ensures
            r == ps_header_has_all(header.deep_view()),
    {
        let required = Self::headers();
        let n = required.len();
        for i in 0..n
            invariant
                n == ps_required_columns().len(),
                required.deep_view() == ps_required_columns(),
                forall|j: int| 0 <= j < i ==> seq_has_str(header.deep_view(), ps_required_columns()[j]),
        {
            if !contains_str(header, required[i].as_str()) {
                return false;
            }
        }
        true
    }

    /// Validates and normalizes the first line into the canonical
    /// column-name sequence: upper-cased tokens in their original
    /// order, `STARTED` rewritten, every required column present.
    pub fn extract_header_columns(lines: &Vec<String>) -> (r: Result<Vec<String>, PsError>)
        ensures
            lines@.len() == 0 ==> (r matches Err(e) && e.reason@ == ps_missing_header_reason()),
            lines@.len() > 0 ==> {
                let cols = ps_canonical_header(lines.deep_view()[0]);
                &&& ps_header_has_all(cols) ==> (r matches Ok(v) && v.deep_view() == cols)
                &&& !ps_header_has_all(cols) ==> (r matches Err(e) && e.reason@
                    == ps_missing_props_reason())
            },
    {
        if lines.len() == 0 {
            return Err(PsError { reason: "The ps output is missing the header." });
        }
        let upper = upper_str(lines[0].as_str());
        let tokens = split_tokens(upper.as_str());
        let header = Self::normalize_header_columns(&tokens);
        if !Self::header_contains_all_properties(&header) {
            return Err(PsError { reason: "The ps output is missing expected properties." });
        }
        Ok(header)
    }

    /// Splits every remaining line into its tokens; no line is
    /// dropped in the process pipeline.
    pub fn extract_detail_lines_of_processes(lines: &Vec<String>) -> (r: Vec<Vec<String>>)
        ensures
            r.deep_view() == lines.deep_view().map_values(|l: Seq<char>| tokens_of(l)),
    {
        let mut r: Vec<Vec<String>> = Vec::new();
        let len = lines.len();
        for i in 0..len
            invariant
                len == lines@.len(),
                r.deep_view() =~= lines.deep_view().take(i as int).map_values(
                    |l: Seq<char>| tokens_of(l),
                ),
        {
            let ghost prev = r.deep_view();
            r.push(split_tokens(lines[i].as_str()));
            proof {
                assert(r.deep_view() =~= prev.push(r.deep_view().last()));
                assert(r.deep_view() =~= lines.deep_view().take(i + 1).map_values(
                    |l: Seq<char>| tokens_of(l),
                ));
            }
        }
        proof {
            assert(lines.deep_view().take(len as int) =~= lines.deep_view());
        }
        r
    }

    /// Zips each detail line against the header positionally: the
    /// value under each recognized column lands in the matching
    /// field, `COMMAND` absorbs the rest of its line, unrecognized
    /// columns contribute nothing, a line with no tokens at all is
    /// discarded, and a non-blank line with fewer tokens than header
    /// columns is a malformed-line error.
    pub fn map_detail_values_to_properties(
        header_columns: &Vec<String>,
        detail_lines: &Vec<Vec<String>>,
    ) -> (r: Result<Vec<ProcessInfo>, PsError>)
        ensures
            r is Err <==> !ps_lines_long_enough(
                header_columns.deep_view(),
                detail_lines.deep_view(),
            ),
            r matches Err(e) ==> e.reason@ == ps_malformed_line_reason(),
            r matches Ok(v) ==> v.deep_view() == ps_mapped_records(
                header_columns.deep_view(),
                detail_lines.deep_view(),
            ),
    {
        let ghost header = header_columns.deep_view();
        let ghost all_lines = detail_lines.deep_view();
        let n_cols = header_columns.len();
        let mut out: Vec<ProcessInfo> = Vec::new();
        let n_lines = detail_lines.len();
        for li in 0..n_lines
            invariant
                n_cols == header.len(),
                n_lines == all_lines.len(),
                header == header_columns.deep_view(),
                all_lines == detail_lines.deep_view(),
                forall|j: int|
                    0 <= j < li && #[trigger] all_lines[j].len() > 0 ==> all_lines[j].len()
                        >= header.len(),
                out.deep_view() =~= ps_mapped_records(header, all_lines.take(li as int)),
        {
            let line = &detail_lines[li];
            if line.len() == 0 {
                // An all-whitespace output line: nothing to match,
                // nothing to map.
                proof {
                    assert(all_lines.take(li as int) =~= all_lines.take(li + 1).drop_last());
                    assert(out.deep_view() =~= ps_mapped_records(header, all_lines.take(li + 1)));
                }
            } else if line.len() < n_cols {
                assert(all_lines[li as int].len() < header.len());
                assert(!ps_lines_long_enough(header, all_lines));
                return Err(PsError { reason: "The ps output contains a malformed detail line." });
            } else {
                let mut process = ProcessInfo::new();
                for col in 0..n_cols
                    invariant
                        n_cols == header.len(),
                        0 <= li < all_lines.len(),
                        header == header_columns.deep_view(),
                        all_lines == detail_lines.deep_view(),
                        line@.len() >= n_cols,
                        line.deep_view() == all_lines[li as int],
                        process@ == ps_mapped_upto(header, all_lines[li as int], col as int),
                {
                    let value = line[col].clone();
                    let name = header_columns[col].as_str();
                    if str_eq(name, "USER") {
                        process.user = value;
                    } else if str_eq(name, "PID") {
                        process.pid = value;
                    } else if str_eq(name, "%CPU") {
                        process.pc_cpu = value;
                    } else if str_eq(name, "%MEM") {
                        process.pc_mem = value;
                    } else if str_eq(name, "START") {
                        process.start = value;
                    } else if str_eq(name, "TIME") {
                        process.time = value;
                    } else if str_eq(name, "COMMAND") {
                        process.command = join_tokens(line, col);
                    }
                }
                let ghost prev = out.deep_view();
                out.push(process);
                proof {
                    assert(out.deep_view() =~= prev.push(out.deep_view().last()));
                    assert(all_lines.take(li as int) =~= all_lines.take(li + 1).drop_last());
                    assert(out.deep_view() =~= ps_mapped_records(header, all_lines.take(li + 1)));
                }
            }
        }
        proof {
            assert(all_lines.take(n_lines as int) =~= all_lines);
        }
        Ok(out)
    }

    /// Keeps only the records whose pid occurs in `pids`, preserving
    /// their order; no match is required.
    pub fn keep_only_relevant_pids(pinfo: Vec<ProcessInfo>, pids: &Vec<String>) -> (r: Vec<
        ProcessInfo,
    >)
        ensures
            r.deep_view() == kept_processes(pinfo.deep_view(), pids.deep_view()),
    {
        let mut out: Vec<ProcessInfo> = Vec::new();
        let len = pinfo.len();
        for i in 0..len
            invariant
                len == pinfo@.len(),
                out.deep_view() =~= kept_processes(pinfo.deep_view().take(i as int), pids.deep_view()),
        {
            let ghost prev = out.deep_view();
            if contains_str(pids, pinfo[i].pid.as_str()) {
                out.push(pinfo[i].clone());
            }
            proof {
                assert(pinfo.deep_view().take(i as int) =~= pinfo.deep_view().take(
                    i + 1,
                ).drop_last());
                assert(out.deep_view() =~= kept_processes(
                    pinfo.deep_view().take(i + 1),
                    pids.deep_view(),
                ));
            }
        }
        proof {
            assert(pinfo.deep_view().take(len as int) =~= pinfo.deep_view());
        }
        out
    }

    /// Parses a complete `ps aux` output: header validation, line
    /// tokenization, positional mapping, then pid filtering.
    pub fn processes_info(output: &str, pids: &Vec<String>) -> (r: Result<Vec<ProcessInfo>, PsError>)
        ensures
            ({
                let ls = lines_of(output@);
                if ls.len() == 0 {
                    r matches Err(e) && e.reason@ == ps_missing_header_reason()
                } else {
                    let cols = ps_canonical_header(ls[0]);
                    let details = ls.skip(1).map_values(|l: Seq<char>| tokens_of(l));
                    if !ps_header_has_all(cols) {
                        r matches Err(e) && e.reason@ == ps_missing_props_reason()
                    } else if !ps_lines_long_enough(cols, details) {
                        r matches Err(e) && e.reason@ == ps_malformed_line_reason()
                    } else {
                        r matches Ok(v) && v.deep_view() == kept_processes(
                            ps_mapped_records(cols, details),
                            pids.deep_view(),
                        )
                    }
                }
            }),
    {
        let lines = split_lines(output);
        let header_columns = match Self::extract_header_columns(&lines) {
            Ok(cols) => cols,
            Err(e) => {
                return Err(e);
            },
        };
        let mut rest = lines;
        rest.remove(0);
        proof {
            assert(rest.deep_view() =~= lines_of(output@).skip(1));
        }
        let detail_lines = Self::extract_detail_lines_of_processes(&rest);
        let pinfo = match Self::map_detail_values_to_properties(&header_columns, &detail_lines) {
            Ok(v) => v,
            Err(e) => {
                return Err(e);
            },
        };
        Ok(Self::keep_only_relevant_pids(pinfo, pids))
    }
}

/// A record field read back after mapping: the first `n` columns
/// applied leave, under each recognized column name at `i` that no
/// later column among them repeats, exactly the line's token at `i`
/// (for `COMMAND`, the space-join of the line from `i` on).
proof fn lemma_ps_field_from(header: Seq<Seq<char>>, line: Seq<Seq<char>>, i: int, n: int)
    requires
        0 <= i < n <= header.len(),
        forall|j: int| i < j < n ==> header[j] != header[i],
    ensures
        header[i] == "USER"@ ==> ps_mapped_upto(header, line, n).user == line[i],
        header[i] == "PID"@ ==> ps_mapped_upto(header, line, n).pid == line[i],
        header[i] == "%CPU"@ ==> ps_mapped_upto(header, line, n).pc_cpu == line[i],
        header[i] == "%MEM"@ ==> ps_mapped_upto(header, line, n).pc_mem == line[i],
        header[i] == "START"@ ==> ps_mapped_upto(header, line, n).start == line[i],
        header[i] == "TIME"@ ==> ps_mapped_upto(header, line, n).time == line[i],
        header[i] == "COMMAND"@ ==> ps_mapped_upto(header, line, n).command == join_spaces(
            line.skip(i),
        ),
    decreases n,
{
    reveal_strlit("USER");
    reveal_strlit("PID");
    reveal_strlit("%CPU");
    reveal_strlit("%MEM");
    reveal_strlit("START");
    reveal_strlit("TIME");
    reveal_strlit("COMMAND");
    assert("USER"@.len() == 4 && "PID"@.len() == 3 && "%CPU"@.len() == 4 && "%MEM"@.len() == 4
        && "START"@.len() == 5 && "TIME"@.len() == 4 && "COMMAND"@.len() == 7);
    assert("USER"@[0] == 'U' && "%CPU"@[0] == '%' && "%MEM"@[0] == '%' && "TIME"@[0] == 'T');
    assert("%CPU"@[1] == 'C' && "%MEM"@[1] == 'M');
    if n > i + 1 {
        lemma_ps_field_from(header, line, i, n - 1);
    }
}

/// Round trip of the process mapper: under any header, the record of
/// a detail line reads back, for each recognized column name whose
/// last occurrence is at position `i`, exactly the line's token at
/// `i` — except the remainder column `COMMAND`, which reads back the
/// space-joined tokens of the line from `i` to its end.
pub proof fn lemma_ps_round_trip(header: Seq<Seq<char>>, line: Seq<Seq<char>>, i: int)
    requires
        0 <= i < header.len(),
        forall|j: int| i < j < header.len() ==> header[j] != header[i],
    ensures
        header[i] == "USER"@ ==> ps_mapped_record(header, line).user == line[i],
        header[i] == "PID"@ ==> ps_mapped_record(header, line).pid == line[i],
        header[i] == "%CPU"@ ==> ps_mapped_record(header, line).pc_cpu == line[i],
        header[i] == "%MEM"@ ==> ps_mapped_record(header, line).pc_mem == line[i],
        header[i] == "START"@ ==> ps_mapped_record(header, line).start == line[i],
        header[i] == "TIME"@ ==> ps_mapped_record(header, line).time == line[i],
        header[i] == "COMMAND"@ ==> ps_mapped_record(header, line).command == join_spaces(
            line.skip(i),
        ),
{
    lemma_ps_field_from(header, line, i, header.len() as int);
}

/// The process mapper on zero detail lines: zero records, and no
/// malformed-line error is possible.
pub proof fn lemma_ps_map_no_details(header: Seq<Seq<char>>)
    ensures
        ps_mapped_records(header, Seq::empty()) == Seq::<ProcessInfoView>::empty(),
        ps_lines_long_enough(header, Seq::empty()),
{
    assert(ps_mapped_records(header, Seq::empty()) =~= Seq::<ProcessInfoView>::empty());
}

/// A header column outside the recognized set contributes nothing:
/// the token under it may change to anything without changing the
/// record, as long as no `COMMAND` column stands at or before it to
/// absorb it into the remainder join.
pub proof fn lemma_ps_unrecognized_column(
    header: Seq<Seq<char>>,
    line: Seq<Seq<char>>,
    i: int,
    v: Seq<char>,
)
    requires
        0 <= i < header.len(),
        line.len() >= header.len(),
        !ps_required_columns().contains(header[i]),
        forall|j: int| 0 <= j < i ==> header[j] != "COMMAND"@,
    ensures
        ps_mapped_record(header, line.update(i, v)) == ps_mapped_record(header, line),
{
    lemma_ps_unrecognized_upto(header, line, i, v, header.len() as int);
}

/// The helper of [`lemma_ps_unrecognized_column`], by the number of
/// columns applied.
proof fn lemma_ps_unrecognized_upto(
    header: Seq<Seq<char>>,
    line: Seq<Seq<char>>,
    i: int,
    v: Seq<char>,
    n: int,
)
    requires
        0 <= i < header.len(),
        line.len() >= header.len(),
        n <= header.len(),
        !ps_required_columns().contains(header[i]),
        forall|j: int| 0 <= j < i ==> header[j] != "COMMAND"@,
    ensures
        ps_mapped_upto(header, line.update(i, v), n) == ps_mapped_upto(header, line, n),
    decreases n,
{
    if n > 0 {
        lemma_ps_unrecognized_upto(header, line, i, v, n - 1);
        let l2 = line.update(i, v);
        if n - 1 == i {
            assert(ps_required_columns()[6] == "COMMAND"@);
            assert(header[i] != "USER"@) by {
                assert(ps_required_columns()[0] == "USER"@);
            }
            assert(header[i] != "PID"@) by {
                assert(ps_required_columns()[1] == "PID"@);
            }
            assert(header[i] != "%CPU"@) by {
                assert(ps_required_columns()[2] == "%CPU"@);
            }
            assert(header[i] != "%MEM"@) by {
                assert(ps_required_columns()[3] == "%MEM"@);
            }
            assert(header[i] != "START"@) by {
                assert(ps_required_columns()[4] == "START"@);
            }
            assert(header[i] != "TIME"@) by {
                assert(ps_required_columns()[5] == "TIME"@);
            }
            assert(header[i] != "COMMAND"@);
        } else {
            assert(l2[n - 1] == line[n - 1]);
            if header[n - 1] == "COMMAND"@ {
                assert(i < n - 1);
                assert(l2.skip(n - 1) =~= line.skip(n - 1));
            }
        }
    }
}

} // verus!
