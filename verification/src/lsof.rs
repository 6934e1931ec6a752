//! The listener pipeline: parsing of `lsof -i -n -P` output into
//! [`ListeningPort`] records, with header validation, the
//! case-insensitive `(LISTEN)` marker filter, positional mapping,
//! process enrichment and port filtering.

use vstd::prelude::*;

use crate::ps::{ProcessInfo, ProcessInfoView};
use crate::text::{
    contains_str, is_ascii_ws, is_ws, join_spaces, join_tokens, lines_of, seq_has_str, split_lines,
    split_tokens, str_eq, tokens_of, upper_of, upper_str,
};

verus! {

/// An error of the listener pipeline, carrying its report text.
#[derive(Debug, PartialEq, Eq, Clone, Copy)]
pub struct LsofError {
    pub reason: &'static str,
}

/// The report of output with no lines at all.
pub open spec fn lsof_missing_header_reason() -> Seq<char> {
    "The lsof output is missing the header."@
}

/// The report of a header that lacks a required column.
pub open spec fn lsof_missing_props_reason() -> Seq<char> {
    "The lsof output is missing expected properties."@
}

/// The report of a detail line with fewer tokens than header columns.
pub open spec fn lsof_malformed_line_reason() -> Seq<char> {
    "The lsof output contains a malformed detail line."@
}

/// The report of a run of `lsof` that exited with failure.
pub open spec fn lsof_command_failed_reason() -> Seq<char> {
    "The lsof command has failed in an unexpected way."@
}

/// The report of an `lsof` executable that could not be launched.
pub open spec fn lsof_not_found_reason() -> Seq<char> {
    "Unable to locate the lsof executable on the system."@
}

impl LsofError {
    /// The report text of this error.
    pub fn message(&self) -> (r: String)
        ensures
            r@ == self.reason@,
    {
        String::from_str(self.reason)
    }
}

/// The mathematical contents of a [`ListeningPort`]: each textual
/// field as a character sequence, and the optional process record.
pub ghost struct ListeningPortView {
    pub command: Seq<char>,
    pub pid: Seq<char>,
    pub user: Seq<char>,
    pub type_: Seq<char>,
    pub node: Seq<char>,
    pub name: Seq<char>,
    pub pinfo: Option<ProcessInfoView>,
}

/// One listening socket parsed from `lsof` output. The `name` field
/// holds the listening address, typically `host:port`; `pinfo` stays
/// absent until enrichment finds a process with the same pid.
#[derive(Debug, PartialEq, Eq)]
pub struct ListeningPort {
    pub command: String,
    pub pid: String,
    pub user: String,
    pub type_: String,
    pub node: String,
    pub name: String,
    pub pinfo: Option<ProcessInfo>,
}

impl View for ListeningPort {
    type V = ListeningPortView;

    open spec fn view(&self) -> ListeningPortView {
        ListeningPortView {
            command: self.command@,
            pid: self.pid@,
            user: self.user@,
            type_: self.type_@,
            node: self.node@,
            name: self.name@,
            pinfo: self.pinfo.deep_view(),
        }
    }
}

impl DeepView for ListeningPort {
    type V = ListeningPortView;

    open spec fn deep_view(&self) -> ListeningPortView {
        self.view()
    }
}

/// The record every mapping starts from: all fields empty, no
/// process detail.
pub open spec fn empty_port_view() -> ListeningPortView {
    ListeningPortView {
        command: Seq::empty(),
        pid: Seq::empty(),
        user: Seq::empty(),
        type_: Seq::empty(),
        node: Seq::empty(),
        name: Seq::empty(),
        pinfo: None,
    }
}

/// The first process record in `procs` whose pid equals `pid`, if
/// any; the earliest match wins.
pub open spec fn first_pid_match(procs: Seq<ProcessInfoView>, pid: Seq<char>) -> Option<
    ProcessInfoView,
>
    decreases procs.len(),
{
    if procs.len() == 0 {
        None
    } else if procs[0].pid == pid {
        Some(procs[0])
    } else {
        first_pid_match(procs.drop_first(), pid)
    }
}

impl ListeningPort {
    /// A record with every field empty and no process detail.
    #[must_use]
    pub fn new() -> (r: Self)
        ensures
            r@ == empty_port_view(),
    {
        ListeningPort {
            command: String::new(),
            pid: String::new(),
            user: String::new(),
            type_: String::new(),
            node: String::new(),
            name: String::new(),
            pinfo: None,
        }
    }

    /// Stores a copy of the first process record whose pid equals
    /// this record's pid, or clears the detail when none matches.
    pub fn enrich_with_process_info(&mut self, process_info: &Vec<ProcessInfo>)
        ensures
            final(self)@ == (ListeningPortView {
                pinfo: first_pid_match(process_info.deep_view(), old(self)@.pid),
                ..old(self)@
            }),
    {
        let ghost procs = process_info.deep_view();
        let len = process_info.len();
        let mut i: usize = 0;
        proof {
            assert(procs.skip(0) =~= procs);
        }
        while i < len
            invariant
                len == procs.len(),
                i <= len,
                procs == process_info.deep_view(),
                *self == *old(self),
                first_pid_match(procs, self@.pid) == first_pid_match(
                    procs.skip(i as int),
                    self@.pid,
                ),
            decreases len - i,
        {
            proof {
                assert(procs.skip(i as int)[0] == procs[i as int]);
                assert(procs.skip(i as int).drop_first() =~= procs.skip(i + 1));
            }
            if str_eq(process_info[i].pid.as_str(), self.pid.as_str()) {
                self.pinfo = Some(process_info[i].clone());
                return ;
            }
            i = i + 1;
        }
        proof {
            assert(procs.skip(len as int) =~= Seq::<ProcessInfoView>::empty());
        }
        self.pinfo = None;
    }
}

impl Clone for ListeningPort {
    fn clone(&self) -> (r: Self)
        ensures
            r@ == self@,
    {
        ListeningPort {
            command: self.command.clone(),
            pid: self.pid.clone(),
            user: self.user.clone(),
            type_: self.type_.clone(),
            node: self.node.clone(),
            name: self.name.clone(),
            pinfo: match &self.pinfo {
                Some(p) => Some(p.clone()),
                None => None,
            },
        }
    }
}

impl Default for ListeningPort {
    fn default() -> (r: Self)
        ensures
            r@ == empty_port_view(),
    {
        ListeningPort::new()
    }
}

/// The columns the listener pipeline requires in the header.
pub open spec fn lsof_required_columns() -> Seq<Seq<char>> {
    seq!["COMMAND"@, "PID"@, "USER"@, "TYPE"@, "NODE"@, "NAME"@]
}

/// Whether every required column occurs among `cols`.
pub open spec fn lsof_header_has_all(cols: Seq<Seq<char>>) -> bool {
    forall|i: int|
        0 <= i < lsof_required_columns().len() ==> seq_has_str(cols, lsof_required_columns()[i])
}

/// The canonical header of the listener pipeline: the upper-cased
/// tokens of the line, in their original order.
pub open spec fn lsof_canonical_header(line: Seq<char>) -> Seq<Seq<char>> {
    tokens_of(upper_of(line))
}

/// The position of the first token that upper-cases to `(LISTEN)`,
/// or the token count when no token does.
pub open spec fn first_listen_idx(toks: Seq<Seq<char>>) -> int
    decreases toks.len(),
{
    if toks.len() == 0 {
        0
    } else if upper_of(toks[0]) == "(LISTEN)"@ {
        0
    } else {
        1 + first_listen_idx(toks.drop_first())
    }
}

/// The token lists of the lines that carry the `(LISTEN)` marker,
/// each with its first marker token removed, in line order.
pub open spec fn listener_detail_tokens(lines: Seq<Seq<char>>) -> Seq<Seq<Seq<char>>>
    decreases lines.len(),
{
    if lines.len() == 0 {
        Seq::empty()
    } else {
        let front = listener_detail_tokens(lines.drop_last());
        let toks = tokens_of(lines.last());
        let k = first_listen_idx(toks);
        if k < toks.len() {
            front.push(toks.remove(k))
        } else {
            front
        }
    }
}

/// Whether every detail line has at least one token per header
/// column; the listener pipeline's extractor never hands over a
/// blank line, so every kept line must carry a full row.
pub open spec fn lines_long_enough(header: Seq<Seq<char>>, lines: Seq<Seq<Seq<char>>>) -> bool {
    forall|i: int| 0 <= i < lines.len() ==> #[trigger] lines[i].len() >= header.len()
}

/// Whether every character of `s` is whitespace; the empty sequence
/// is blank.
pub open spec fn is_blank(s: Seq<char>) -> bool {
    forall|i: int| 0 <= i < s.len() ==> is_ascii_ws(#[trigger] s[i])
}

/// One column applied to a record under construction: the value at
/// position `i` lands in the field the column name selects, and an
/// unrecognized name leaves the record as it was.
pub open spec fn lsof_map_step(
    p: ListeningPortView,
    header: Seq<Seq<char>>,
    line: Seq<Seq<char>>,
    i: int,
) -> ListeningPortView {
    let name = header[i];
    let value = line[i];
    if name == "COMMAND"@ {
        ListeningPortView { command: value, ..p }
    } else if name == "PID"@ {
        ListeningPortView { pid: value, ..p }
    } else if name == "USER"@ {
        ListeningPortView { user: value, ..p }
    } else if name == "TYPE"@ {
        ListeningPortView { type_: value, ..p }
    } else if name == "NODE"@ {
        ListeningPortView { node: value, ..p }
    } else if name == "NAME"@ {
        ListeningPortView { name: value, ..p }
    } else {
        p
    }
}

/// The record after the first `n` header columns have been applied.
pub open spec fn lsof_mapped_upto(
    header: Seq<Seq<char>>,
    line: Seq<Seq<char>>,
    n: int,
) -> ListeningPortView
    decreases n,
{
    if n <= 0 {
        empty_port_view()
    } else {
        lsof_map_step(lsof_mapped_upto(header, line, n - 1), header, line, n - 1)
    }
}

/// The record a detail line maps to under a header.
pub open spec fn lsof_mapped_record(
    header: Seq<Seq<char>>,
    line: Seq<Seq<char>>,
) -> ListeningPortView {
    lsof_mapped_upto(header, line, header.len() as int)
}

/// The records of all detail lines, in order.
pub open spec fn lsof_mapped_records(
    header: Seq<Seq<char>>,
    lines: Seq<Seq<Seq<char>>>,
) -> Seq<ListeningPortView> {
    lines.map_values(|l: Seq<Seq<char>>| lsof_mapped_record(header, l))
}

/// The listener pipeline.
pub struct Lsof;

impl Lsof {
    /// The required column names, in canonical order.
    #[must_use]
    pub fn headers() -> (r: Vec<String>)
        ensures
            r.deep_view() == lsof_required_columns(),
    {
        let mut r: Vec<String> = Vec::new();
        r.push(String::from_str("COMMAND"));
        r.push(String::from_str("PID"));
        r.push(String::from_str("USER"));
        r.push(String::from_str("TYPE"));
        r.push(String::from_str("NODE"));
        r.push(String::from_str("NAME"));
        proof {
            assert(r.deep_view() =~= lsof_required_columns());
        }
        r
    }

    /// Whether every character of `s` is whitespace.
    fn str_is_blank(s: &str) -> (r: bool)
        ensures
            r == is_blank(s@),
    {
        let len = s.unicode_len();
        for i in 0..len
            invariant
                len == s@.len(),
                forall|j: int| 0 <= j < i ==> is_ascii_ws(#[trigger] s@[j]),
        {
            if !is_ws(s.get_char(i)) {
                return false;
            }
        }
        true
    }

    /// Decides what a completed run of `lsof` yielded: the captured
    /// output on exit 0; a bare header line for the tool's
    /// nothing-found convention, exit 1 (or an unknown code) with
    /// blank error output; and the unexpected-failure error
    /// otherwise.
    pub fn handle_output_ok(exit_code: Option<i32>, stdout: &str, stderr: &str) -> (r: Result<
        String,
        LsofError,
    >)
        ensures
            exit_code == Some(0i32) ==> (r matches Ok(s) && s@ == stdout@),
            exit_code != Some(0i32) && (exit_code == Some(1i32) || exit_code is None) && is_blank(
                stderr@,
            ) ==> (r matches Ok(s) && s@ == join_spaces(lsof_required_columns())),
            exit_code != Some(0i32) && !((exit_code == Some(1i32) || exit_code is None) && is_blank(
                stderr@,
            )) ==> (r matches Err(e) && e.reason@ == lsof_command_failed_reason()),
    {
        let code_is_zero = match exit_code {
            Some(0i32) => true,
            _ => false,
        };
        if code_is_zero {
            return Ok(String::from_str(stdout));
        }
        let code_is_one_or_unknown = match exit_code {
            Some(1i32) => true,
            None => true,
            _ => false,
        };
        if code_is_one_or_unknown && Self::str_is_blank(stderr) {
            // The tool's convention for "nothing found": synthesize a
            // header-only output so the normal parsing path yields
            // zero records.
            let hdrs = Self::headers();
            proof {
                assert(hdrs.deep_view().skip(0) =~= lsof_required_columns());
            }
            return Ok(join_tokens(&hdrs, 0));
        }
        Err(LsofError { reason: "The lsof command has failed in an unexpected way." })
    }

    /// The error for an `lsof` that could not be launched at all.
    pub fn handle_output_err() -> (r: Result<String, LsofError>)
        ensures
            r matches Err(e) && e.reason@ == lsof_not_found_reason(),
    {
        Err(LsofError { reason: "Unable to locate the lsof executable on the system." })
    }

    /// Whether every required column occurs in the header.
    pub fn header_contains_all_properties(header: &Vec<String>) -> (r: bool)
        ensures
            r == lsof_header_has_all(header.deep_view()),
    {
        let required = Self::headers();
        let n = required.len();
        for i in 0..n
            invariant
                n == lsof_required_columns().len(),
                required.deep_view() == lsof_required_columns(),
                forall|j: int|
                    0 <= j < i ==> seq_has_str(header.deep_view(), lsof_required_columns()[j]),
        {
            if !contains_str(header, required[i].as_str()) {
                return false;
            }
        }
        true
    }

    /// Validates and normalizes the first line into the canonical
    /// column-name sequence: upper-cased tokens in their original
    /// order, every required column present.
    pub fn extract_header_columns(lines: &Vec<String>) -> (r: Result<Vec<String>, LsofError>)
        ensures
            lines@.len() == 0 ==> (r matches Err(e) && e.reason@ == lsof_missing_header_reason()),
            lines@.len() > 0 ==> {
                let cols = lsof_canonical_header(lines.deep_view()[0]);
                &&& lsof_header_has_all(cols) ==> (r matches Ok(v) && v.deep_view() == cols)
                &&& !lsof_header_has_all(cols) ==> (r matches Err(e) && e.reason@
                    == lsof_missing_props_reason())
            },
    {
        if lines.len() == 0 {
            return Err(LsofError { reason: "The lsof output is missing the header." });
        }
        let upper = upper_str(lines[0].as_str());
        let header = split_tokens(upper.as_str());
        if !Self::header_contains_all_properties(&header) {
            return Err(LsofError { reason: "The lsof output is missing expected properties." });
        }
        Ok(header)
    }

    /// Keeps only the lines that carry the `(LISTEN)` marker,
    /// compared case-insensitively, tokenizing each kept line and
    /// removing its first marker token so that the remaining tokens
    /// stay aligned with the header columns.
    pub fn extract_detail_lines_of_listening_ports(lines: &Vec<String>) -> (r: Vec<Vec<String>>)
        ensures
            r.deep_view() == listener_detail_tokens(lines.deep_view()),
    {
        let mut r: Vec<Vec<String>> = Vec::new();
        let len = lines.len();
        for i in 0..len
            invariant
                len == lines@.len(),
                r.deep_view() =~= listener_detail_tokens(lines.deep_view().take(i as int)),
        {
            let ghost prev = r.deep_view();
            let mut toks = split_tokens(lines[i].as_str());
            let ghost toks_view = toks.deep_view();
            let n = toks.len();
            let mut k: usize = 0;
            while k < n && !str_eq(upper_str(toks[k].as_str()).as_str(), "(LISTEN)")
                invariant
                    n == toks_view.len(),
                    toks_view == toks.deep_view(),
                    k <= n,
                    forall|j: int| 0 <= j < k ==> upper_of(toks_view[j]) != "(LISTEN)"@,
                decreases n - k,
            {
                k = k + 1;
            }
            proof {
                lemma_first_listen_idx(toks_view, k as int);
            }
            if k < n {
                toks.remove(k);
                proof {
                    assert(toks.deep_view() =~= toks_view.remove(k as int));
                }
                r.push(toks);
                proof {
                    assert(r.deep_view() =~= prev.push(toks_view.remove(k as int)));
                }
            }
            proof {
                assert(lines.deep_view().take(i as int) =~= lines.deep_view().take(
                    i + 1,
                ).drop_last());
                assert(r.deep_view() =~= listener_detail_tokens(lines.deep_view().take(i + 1)));
            }
        }
        proof {
            assert(lines.deep_view().take(len as int) =~= lines.deep_view());
        }
        r
    }

    /// Zips each detail line against the header positionally: the
    /// value under each recognized column lands in the matching
    /// field, unrecognized columns contribute nothing, and a line
    /// with fewer tokens than header columns is a malformed-line
    /// error.
    pub fn map_detail_values_to_properties(
        header_columns: &Vec<String>,
        detail_lines: &Vec<Vec<String>>,
    ) -> (r: Result<Vec<ListeningPort>, LsofError>)
        ensures
            r is Err <==> !lines_long_enough(header_columns.deep_view(), detail_lines.deep_view()),
            r matches Err(e) ==> e.reason@ == lsof_malformed_line_reason(),
            r matches Ok(v) ==> v.deep_view() == lsof_mapped_records(
                header_columns.deep_view(),
                detail_lines.deep_view(),
            ),
    {
        let ghost header = header_columns.deep_view();
        let ghost all_lines = detail_lines.deep_view();
        let n_cols = header_columns.len();
        let mut out: Vec<ListeningPort> = Vec::new();
        let n_lines = detail_lines.len();
        for li in 0..n_lines
            invariant
                n_cols == header.len(),
                n_lines == all_lines.len(),
                header == header_columns.deep_view(),
                all_lines == detail_lines.deep_view(),
                forall|j: int| 0 <= j < li ==> #[trigger] all_lines[j].len() >= header.len(),
                out.deep_view() =~= lsof_mapped_records(header, all_lines.take(li as int)),
        {
            let line = &detail_lines[li];
            if line.len() < n_cols {
                assert(all_lines[li as int].len() < header.len());
                assert(!lines_long_enough(header, all_lines));
                return Err(LsofError { reason: "The lsof output contains a malformed detail line." });
            }
            let mut port = ListeningPort::new();
            for col in 0..n_cols
                invariant
                    n_cols == header.len(),
                    0 <= li < all_lines.len(),
                    header == header_columns.deep_view(),
                    all_lines == detail_lines.deep_view(),
                    line@.len() >= n_cols,
                    line.deep_view() == all_lines[li as int],
                    port@ == lsof_mapped_upto(header, all_lines[li as int], col as int),
            {
                let value = line[col].clone();
                let name = header_columns[col].as_str();
                if str_eq(name, "COMMAND") {
                    port.command = value;
                } else if str_eq(name, "PID") {
                    port.pid = value;
                } else if str_eq(name, "USER") {
                    port.user = value;
                } else if str_eq(name, "TYPE") {
                    port.type_ = value;
                } else if str_eq(name, "NODE") {
                    port.node = value;
                } else if str_eq(name, "NAME") {
                    port.name = value;
                }
            }
            let ghost prev = out.deep_view();
            out.push(port);
            proof {
                assert(out.deep_view() =~= prev.push(out.deep_view().last()));
                assert(all_lines.take(li as int) =~= all_lines.take(li + 1).drop_last());
                assert(out.deep_view() =~= lsof_mapped_records(header, all_lines.take(li + 1)));
            }
        }
        proof {
            assert(all_lines.take(n_lines as int) =~= all_lines);
        }
        Ok(out)
    }

    /// Parses a complete `lsof -i -n -P` output: header validation,
    /// `(LISTEN)` filtering, then positional mapping.
    pub fn listening_ports(output: &str) -> (r: Result<Vec<ListeningPort>, LsofError>)
        ensures
            ({
                let ls = lines_of(output@);
                if ls.len() == 0 {
                    r matches Err(e) && e.reason@ == lsof_missing_header_reason()
                } else {
                    let cols = lsof_canonical_header(ls[0]);
                    let details = listener_detail_tokens(ls.skip(1));
                    if !lsof_header_has_all(cols) {
                        r matches Err(e) && e.reason@ == lsof_missing_props_reason()
                    } else if !lines_long_enough(cols, details) {
                        r matches Err(e) && e.reason@ == lsof_malformed_line_reason()
                    } else {
                        r matches Ok(v) && v.deep_view() == lsof_mapped_records(cols, details)
                    }
                }
            }),
    {
        let lines = split_lines(output);
        let header_columns = match Self::extract_header_columns(&lines) {
            Ok(cols) => cols,
            Err(e) => {
                return Err(e);
            },
        };
        let mut rest = lines;
        rest.remove(0);
        proof {
            assert(rest.deep_view() =~= lines_of(output@).skip(1));
        }
        let detail_lines = Self::extract_detail_lines_of_listening_ports(&rest);
        Self::map_detail_values_to_properties(&header_columns, &detail_lines)
    }
}

/// `first_listen_idx` pinned to a scanned position: if no token
/// before `k` upper-cases to the marker, and the token at `k` does
/// (or `k` is the token count), then `k` is the first marker index.
proof fn lemma_first_listen_idx(toks: Seq<Seq<char>>, k: int)
    requires
        0 <= k <= toks.len(),
        forall|j: int| 0 <= j < k ==> upper_of(toks[j]) != "(LISTEN)"@,
        k < toks.len() ==> upper_of(toks[k]) == "(LISTEN)"@,
    ensures
        first_listen_idx(toks) == if k < toks.len() {
            k
        } else {
            toks.len() as int
        },
    decreases toks.len(),
{
    if toks.len() == 0 {
    } else if upper_of(toks[0]) == "(LISTEN)"@ {
        assert(k == 0);
    } else {
        lemma_first_listen_idx(toks.drop_first(), if k >= 1 {
            k - 1
        } else {
            0
        });
    }
}

/// The port component of a listening address: the characters after
/// the last `':'`, or the whole address when it has no `':'`.
pub open spec fn port_of(addr: Seq<char>) -> Seq<char>
    decreases addr.len(),
{
    if addr.len() == 0 {
        addr
    } else if addr.last() == ':' {
        Seq::empty()
    } else {
        port_of(addr.drop_last()).push(addr.last())
    }
}

/// `port_of` of an address whose last `':'` stands at `p` is the
/// suffix after `p`.
proof fn lemma_port_of_suffix(addr: Seq<char>, p: int)
    requires
        0 <= p < addr.len(),
        addr[p] == ':',
        forall|j: int| p < j < addr.len() ==> addr[j] != ':',
    ensures
        port_of(addr) =~= addr.skip(p + 1),
    decreases addr.len(),
{
    if p == addr.len() - 1 {
        assert(addr.skip(p + 1) =~= Seq::<char>::empty());
    } else {
        lemma_port_of_suffix(addr.drop_last(), p);
        assert(addr.skip(p + 1) =~= addr.drop_last().skip(p + 1).push(addr.last()));
    }
}

/// `port_of` of an address without `':'` is the whole address.
proof fn lemma_port_of_whole(addr: Seq<char>)
    requires
        forall|j: int| 0 <= j < addr.len() ==> addr[j] != ':',
    ensures
        port_of(addr) =~= addr,
    decreases addr.len(),
{
    if addr.len() > 0 {
        lemma_port_of_whole(addr.drop_last());
        assert(addr.drop_last().push(addr.last()) =~= addr);
    }
}

/// The records whose address port occurs in `allowed`, in their
/// original order.
pub open spec fn kept_ports(
    ports: Seq<ListeningPortView>,
    allowed: Seq<Seq<char>>,
) -> Seq<ListeningPortView>
    decreases ports.len(),
{
    if ports.len() == 0 {
        Seq::empty()
    } else {
        let front = kept_ports(ports.drop_last(), allowed);
        if seq_has_str(allowed, port_of(ports.last().name)) {
            front.push(ports.last())
        } else {
            front
        }
    }
}

/// The port component of an address string: the characters after the
/// last `':'`, or the whole string when it has no `':'`.
fn port_part(addr: &str) -> (r: String)
    ensures
        r@ == port_of(addr@),
{
    let len = addr.unicode_len();
    let mut cut: usize = 0;
    for j in 0..len
        invariant
            len == addr@.len(),
            cut <= j,
            cut == 0 ==> forall|m: int| 0 <= m < j ==> addr@[m] != ':',
            cut > 0 ==> addr@[cut - 1] == ':' && (forall|m: int| cut <= m < j ==> addr@[m] != ':'),
    {
        if addr.get_char(j) == ':' {
            cut = j + 1;
        }
    }
    proof {
        if cut == 0 {
            lemma_port_of_whole(addr@);
            assert(addr@.skip(0) =~= addr@);
        } else {
            lemma_port_of_suffix(addr@, cut - 1);
        }
    }
    String::from_str(addr.substring_char(cut, len))
}

/// Keeps only the records whose address port occurs in `allowed`,
/// preserving their order. An empty allow-list keeps nothing;
/// treating "no filters configured" as "keep everything" is the
/// caller's decision, made by not calling this at all.
pub fn filter_ports(listening_ports: &mut Vec<ListeningPort>, allowed: &Vec<String>)
    ensures
        final(listening_ports).deep_view() == kept_ports(
            old(listening_ports).deep_view(),
            allowed.deep_view(),
        ),
{
    let ghost ports = old(listening_ports).deep_view();
    let mut out: Vec<ListeningPort> = Vec::new();
    let len = listening_ports.len();
    for i in 0..len
        invariant
            len == ports.len(),
            ports == listening_ports.deep_view(),
            out.deep_view() =~= kept_ports(ports.take(i as int), allowed.deep_view()),
    {
        let ghost prev = out.deep_view();
        let port = port_part(listening_ports[i].name.as_str());
        if contains_str(allowed, port.as_str()) {
            out.push(listening_ports[i].clone());
        }
        proof {
            assert(ports.take(i as int) =~= ports.take(i + 1).drop_last());
            assert(out.deep_view() =~= kept_ports(ports.take(i + 1), allowed.deep_view()));
        }
    }
    proof {
        assert(ports.take(len as int) =~= ports);
    }
    *listening_ports = out;
}

/// Selection of the `(LISTEN)` marker depends only on upper-cased
/// tokens: two token lists whose tokens agree after case folding
/// pick the marker at the same position, so any casing of the marker
/// selects and strips identically.
pub proof fn lemma_listen_marker_case_insensitive(t1: Seq<Seq<char>>, t2: Seq<Seq<char>>)
    requires
        t1.len() == t2.len(),
        forall|j: int| 0 <= j < t1.len() ==> upper_of(t1[j]) == upper_of(t2[j]),
    ensures
        first_listen_idx(t1) == first_listen_idx(t2),
    decreases t1.len(),
{
    if t1.len() > 0 {
        assert(upper_of(t1[0]) == upper_of(t2[0]));
        if upper_of(t1[0]) != "(LISTEN)"@ {
            assert(forall|j: int|
                0 <= j < t1.drop_first().len() ==> upper_of(#[trigger] t1.drop_first()[j])
                    == upper_of(t2.drop_first()[j]));
            lemma_listen_marker_case_insensitive(t1.drop_first(), t2.drop_first());
        }
    }
}

/// `first_listen_idx` points at a marker token whenever it is in
/// range, and nothing before it is one.
proof fn lemma_first_listen_idx_props(toks: Seq<Seq<char>>)
    ensures
        0 <= first_listen_idx(toks) <= toks.len(),
        first_listen_idx(toks) < toks.len() ==> upper_of(toks[first_listen_idx(toks)])
            == "(LISTEN)"@,
        forall|j: int| 0 <= j < first_listen_idx(toks) ==> upper_of(#[trigger] toks[j])
            != "(LISTEN)"@,
    decreases toks.len(),
{
    if toks.len() > 0 && upper_of(toks[0]) != "(LISTEN)"@ {
        lemma_first_listen_idx_props(toks.drop_first());
        assert(forall|j: int|
            1 <= j < first_listen_idx(toks) ==> upper_of(#[trigger] toks[j]) == upper_of(
                toks.drop_first()[j - 1],
            ));
    }
}

/// Respelling the marker token in any casing selects the same
/// position and strips to the same kept tokens: the marker's casing
/// never reaches the kept line.
pub proof fn lemma_listen_strip_case_insensitive(t: Seq<Seq<char>>, m: Seq<char>)
    requires
        upper_of(m) == "(LISTEN)"@,
        first_listen_idx(t) < t.len(),
    ensures
        first_listen_idx(t.update(first_listen_idx(t), m)) == first_listen_idx(t),
        t.update(first_listen_idx(t), m).remove(first_listen_idx(t)) =~= t.remove(
            first_listen_idx(t),
        ),
{
    let k = first_listen_idx(t);
    lemma_first_listen_idx_props(t);
    let u = t.update(k, m);
    assert(forall|j: int| 0 <= j < t.len() ==> upper_of(#[trigger] u[j]) == upper_of(t[j]));
    lemma_listen_marker_case_insensitive(u, t);
}

/// Whether `j` is the position of the earliest record in `procs`
/// whose pid is `pid`.
pub open spec fn pid_match_at(procs: Seq<ProcessInfoView>, pid: Seq<char>, j: int) -> bool {
    &&& 0 <= j < procs.len()
    &&& procs[j].pid == pid
    &&& forall|m: int| 0 <= m < j ==> (#[trigger] procs[m]).pid != pid
}

/// Enrichment finds a process record iff one with the matching pid
/// exists, and the earliest such record wins.
pub proof fn lemma_first_pid_match(procs: Seq<ProcessInfoView>, pid: Seq<char>)
    ensures
        (first_pid_match(procs, pid) is Some) <==> (exists|j: int|
            0 <= j < procs.len() && (#[trigger] procs[j]).pid == pid),
        first_pid_match(procs, pid) matches Some(p) ==> exists|j: int|
            #[trigger] pid_match_at(procs, pid, j) && procs[j] == p,
    decreases procs.len(),
{
    let t = procs.drop_first();
    if procs.len() == 0 {
    } else if procs[0].pid == pid {
        assert(pid_match_at(procs, pid, 0));
    } else {
        lemma_first_pid_match(t, pid);
        assert(forall|m: int| 1 <= m < procs.len() ==> #[trigger] procs[m] == t[m - 1]);
        if first_pid_match(t, pid) is Some {
            let p = first_pid_match(t, pid)->0;
            let j = choose|j: int| #[trigger] pid_match_at(t, pid, j) && t[j] == p;
            assert(procs[j + 1] == p);
            assert(pid_match_at(procs, pid, j + 1));
        } else {
            assert(forall|j: int|
                0 <= j < procs.len() ==> (#[trigger] procs[j]).pid != pid) by {
                assert(forall|j: int|
                    1 <= j < procs.len() ==> (#[trigger] procs[j]).pid == t[j - 1].pid);
            }
        }
    }
}

/// A record field read back after mapping: the first `n` columns
/// applied leave, under each recognized column name at `i` that no
/// later column among them repeats, exactly the line's token at `i`.
proof fn lemma_lsof_field_from(header: Seq<Seq<char>>, line: Seq<Seq<char>>, i: int, n: int)
    requires
        0 <= i < n <= header.len(),
        forall|j: int| i < j < n ==> header[j] != header[i],
    ensures
        header[i] == "COMMAND"@ ==> lsof_mapped_upto(header, line, n).command == line[i],
        header[i] == "PID"@ ==> lsof_mapped_upto(header, line, n).pid == line[i],
        header[i] == "USER"@ ==> lsof_mapped_upto(header, line, n).user == line[i],
        header[i] == "TYPE"@ ==> lsof_mapped_upto(header, line, n).type_ == line[i],
        header[i] == "NODE"@ ==> lsof_mapped_upto(header, line, n).node == line[i],
        header[i] == "NAME"@ ==> lsof_mapped_upto(header, line, n).name == line[i],
    decreases n,
{
    reveal_strlit("COMMAND");
    reveal_strlit("PID");
    reveal_strlit("USER");
    reveal_strlit("TYPE");
    reveal_strlit("NODE");
    reveal_strlit("NAME");
    assert("COMMAND"@.len() == 7 && "PID"@.len() == 3 && "USER"@.len() == 4 && "TYPE"@.len() == 4
        && "NODE"@.len() == 4 && "NAME"@.len() == 4);
    assert("USER"@[0] == 'U' && "TYPE"@[0] == 'T' && "NODE"@[0] == 'N' && "NAME"@[0] == 'N');
    assert("NODE"@[1] == 'O' && "NAME"@[1] == 'A');
    if n > i + 1 {
        lemma_lsof_field_from(header, line, i, n - 1);
    }
}

/// Round trip of the listener mapper: under any header, the record
/// of a detail line reads back, for each recognized column name
/// whose last occurrence is at position `i`, exactly the line's
/// token at `i`.
pub proof fn lemma_lsof_round_trip(header: Seq<Seq<char>>, line: Seq<Seq<char>>, i: int)
    requires
        0 <= i < header.len(),
        forall|j: int| i < j < header.len() ==> header[j] != header[i],
    ensures
        header[i] == "COMMAND"@ ==> lsof_mapped_record(header, line).command == line[i],
        header[i] == "PID"@ ==> lsof_mapped_record(header, line).pid == line[i],
        header[i] == "USER"@ ==> lsof_mapped_record(header, line).user == line[i],
        header[i] == "TYPE"@ ==> lsof_mapped_record(header, line).type_ == line[i],
        header[i] == "NODE"@ ==> lsof_mapped_record(header, line).node == line[i],
        header[i] == "NAME"@ ==> lsof_mapped_record(header, line).name == line[i],
{
    lemma_lsof_field_from(header, line, i, header.len() as int);
}

/// The listener mapper on zero detail lines: zero records, and no
/// malformed-line error is possible.
pub proof fn lemma_lsof_map_no_details(header: Seq<Seq<char>>)
    ensures
        lsof_mapped_records(header, Seq::empty()) == Seq::<ListeningPortView>::empty(),
        lines_long_enough(header, Seq::empty()),
{
    assert(lsof_mapped_records(header, Seq::empty()) =~= Seq::<ListeningPortView>::empty());
}

/// A header column outside the recognized set contributes nothing:
/// the token under it may change to anything without changing the
/// record.
pub proof fn lemma_lsof_unrecognized_column(
    header: Seq<Seq<char>>,
    line: Seq<Seq<char>>,
    i: int,
    v: Seq<char>,
)
    requires
        0 <= i < header.len(),
        line.len() >= header.len(),
        !lsof_required_columns().contains(header[i]),
    ensures
        lsof_mapped_record(header, line.update(i, v)) == lsof_mapped_record(header, line),
{
    lemma_lsof_unrecognized_upto(header, line, i, v, header.len() as int);
}

/// The helper of [`lemma_lsof_unrecognized_column`], by the number
/// of columns applied.
proof fn lemma_lsof_unrecognized_upto(
    header: Seq<Seq<char>>,
    line: Seq<Seq<char>>,
    i: int,
    v: Seq<char>,
    n: int,
)
    requires
        0 <= i < header.len(),
        line.len() >= header.len(),
        n <= header.len(),
        !lsof_required_columns().contains(header[i]),
    ensures
        lsof_mapped_upto(header, line.update(i, v), n) == lsof_mapped_upto(header, line, n),
    decreases n,
{
    if n > 0 {
        lemma_lsof_unrecognized_upto(header, line, i, v, n - 1);
        let l2 = line.update(i, v);
        if n - 1 == i {
            assert(header[i] != "COMMAND"@) by {
                assert(lsof_required_columns()[0] == "COMMAND"@);
            }
            assert(header[i] != "PID"@) by {
                assert(lsof_required_columns()[1] == "PID"@);
            }
            assert(header[i] != "USER"@) by {
                assert(lsof_required_columns()[2] == "USER"@);
            }
            assert(header[i] != "TYPE"@) by {
                assert(lsof_required_columns()[3] == "TYPE"@);
            }
            assert(header[i] != "NODE"@) by {
                assert(lsof_required_columns()[4] == "NODE"@);
            }
            assert(header[i] != "NAME"@) by {
                assert(lsof_required_columns()[5] == "NAME"@);
            }
        } else {
            assert(l2[n - 1] == line[n - 1]);
        }
    }
}

} // verus!
