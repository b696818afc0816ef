//! The processes of the machine: what the files under `/proc/<pid>` say of a
//! process, and which processes a query asks for.

use crate::{number, text};
use vstd::prelude::*;

verus! {

// ---------------------------------------------------------------------------
// Processes
// ---------------------------------------------------------------------------

/// What is shown of a process.
#[derive(Debug)]
pub struct ProcessView {
    pub pid: u32,
    pub ppid: Option<u32>,
    pub state: Option<String>,
    pub comm: String,
    pub cmdline: Vec<String>,
    pub exe: Option<String>,
}

/// What a `ProcessView` says.
#[verifier::ext_equal]
pub struct ProcessModel {
    pub pid: u32,
    pub ppid: Option<u32>,
    pub state: Option<Seq<char>>,
    pub comm: Seq<char>,
    pub cmdline: Seq<Seq<char>>,
    pub exe: Option<Seq<char>>,
}

impl View for ProcessView {
    type V = ProcessModel;

    open spec fn view(&self) -> ProcessModel {
        ProcessModel {
            pid: self.pid,
            ppid: self.ppid,
            state: text::text_view(self.state),
            comm: self.comm@,
            cmdline: self.cmdline@.map_values(|s: String| s@),
            exe: text::text_view(self.exe),
        }
    }
}

impl Clone for ProcessView {
    fn clone(&self) -> (copy: Self)
        ensures
            copy@ == self@,
    {
        let cmdline = self.cmdline.clone();
        assert(cmdline@ =~= self.cmdline@);
        ProcessView {
            pid: self.pid,
            ppid: self.ppid,
            state: text::clone_text(&self.state),
            comm: self.comm.clone(),
            cmdline,
            exe: text::clone_text(&self.exe),
        }
    }
}

/// What was read of the files of one process: the text of `status` and of
/// `comm`, the bytes of `cmdline`, and the path that `exe` leads to. What
/// could not be read is missing.
#[derive(Debug)]
pub struct ProcessFiles {
    pub pid: u32,
    pub status: Option<String>,
    pub comm: Option<String>,
    pub cmdline: Option<Vec<u8>>,
    pub exe: Option<String>,
}

// ---------------------------------------------------------------------------
// The status file
// ---------------------------------------------------------------------------

/// What follows `prefix` in the first line that begins with it.
pub open spec fn first_after(lines: Seq<Seq<char>>, prefix: Seq<char>) -> Option<Seq<char>>
    decreases lines.len(),
{
    if lines.len() == 0 {
        None
    } else {
        match text::strip_prefix(lines[0], prefix) {
            Some(rest) => Some(rest),
            None => first_after(lines.skip(1), prefix),
        }
    }
}

/// The value of the field `key` in the text of a status file.
pub open spec fn field_text(status: Seq<char>, key: Seq<char>) -> Option<Seq<char>> {
    match first_after(text::lines(status), key.push(':')) {
        Some(value) => Some(text::trimmed(value)),
        None => None,
    }
}

/// The value of the field `key` as a number.
pub open spec fn field_number(status: Seq<char>, key: Seq<char>) -> Option<u32> {
    match field_text(status, key) {
        Some(value) => number::decimal_u32(value),
        None => None,
    }
}

fn field(status: &str, key: &str) -> (value: Option<Vec<char>>)
    ensures
        match value {
            Some(value) => field_text(status@, key@) == Some(value@),
            None => field_text(status@, key@) is None,
        },
{
    let chars = text::chars_of(status);
    let found = text::split_lines(chars.as_slice());
    let mut prefix = text::chars_of(key);
    prefix.push(':');
    let ghost all = text::lines(status@);
    assert(all.skip(0) == all);
    let mut i: usize = 0;
    while i < found.len()
        invariant
            i <= found@.len(),
            all == text::views(found@),
            all == text::lines(status@),
            prefix@ == key@.push(':'),
            first_after(all, prefix@) == first_after(all.skip(i as int), prefix@),
        decreases found@.len() - i,
    {
        assert(all.skip(i as int)[0] == found@[i as int]@);
        assert(all.skip(i as int).skip(1) == all.skip(i + 1));
        if let Some(rest) = text::after_prefix(found[i], prefix.as_slice()) {
            let value = text::trim(rest);
            return Some(vstd::slice::slice_to_vec(value));
        }
        i = i + 1;
    }
    None
}

/// The name of the process in the text of its status file.
pub fn status_name(status: &str) -> (name: Option<String>)
    ensures
        text::text_view(name) == field_text(status@, "Name"@),
{
    status_string("Name", status)
}

/// The field `key` of a status file as a number.
pub fn status_u32(key: &str, status: &str) -> (value: Option<u32>)
    ensures
        value == field_number(status@, key@),
{
    match field(status, key) {
        Some(value) => number::parse_decimal_u32(value.as_slice()),
        None => None,
    }
}

/// The field `key` of a status file.
pub fn status_string(key: &str, status: &str) -> (value: Option<String>)
    ensures
        text::text_view(value) == field_text(status@, key@),
{
    match field(status, key) {
        Some(value) => Some(text::string_of(value.as_slice())),
        None => None,
    }
}

// ---------------------------------------------------------------------------
// The command line
// ---------------------------------------------------------------------------

/// The text that `String::from_utf8_lossy` makes of bytes.
pub uninterp spec fn utf8_lossy(bytes: Seq<u8>) -> Seq<char>;

/// `String::from_utf8_lossy` of the standard library, made an owned string.
/// Its result depends on the bytes alone. Valid UTF-8 is decoded. Whether the
/// bytes are valid or not, some bytes give some text, and the NUL character
/// stands for nothing but a zero byte. How many replacement characters stand
/// for which invalid bytes is left unsaid.
#[verifier::external_body]
fn from_utf8_lossy(bytes: &[u8]) -> (s: String)
    ensures
        s@ == utf8_lossy(bytes@),
        vstd::utf8::valid_utf8(bytes@) ==> s@ == vstd::utf8::decode_utf8(bytes@),
        bytes@.len() > 0 ==> s@.len() > 0,
        !bytes@.contains(0u8) ==> !s@.contains('\0'),
{
    String::from_utf8_lossy(bytes).into_owned()
}

/// The arguments in the bytes of a `cmdline` file: what stands between the
/// zero bytes, without empty arguments.
pub open spec fn argument_bytes(bytes: Seq<u8>) -> Seq<Seq<u8>> {
    text::pieces(bytes, 0u8).filter(|part: Seq<u8>| part.len() > 0)
}

/// The arguments in the bytes of a `cmdline` file, as text.
pub open spec fn arguments(bytes: Seq<u8>) -> Seq<Seq<char>> {
    argument_bytes(bytes).map_values(|part: Seq<u8>| utf8_lossy(part))
}

/// Whether `s` can be an argument: it is not empty and holds no NUL.
pub open spec fn is_argument(s: Seq<char>) -> bool {
    s.len() > 0 && !s.contains('\0')
}

/// The arguments in the bytes of a `cmdline` file.
pub fn cmdline_parts(bytes: &[u8]) -> (parts: Vec<&[u8]>)
    ensures
        text::views(parts@) == argument_bytes(bytes@),
{
    let found = text::split_bytes(bytes, 0);
    let ghost all = text::views(found@);
    let ghost kept = |part: Seq<u8>| part.len() > 0;
    let mut parts: Vec<&[u8]> = Vec::new();
    assert(text::views(parts@) =~= all.take(0).filter(kept)) by {
        reveal(Seq::filter);
    }
    let mut i: usize = 0;
    while i < found.len()
        invariant
            i <= found@.len(),
            all == text::views(found@),
            kept == (|part: Seq<u8>| part.len() > 0),
            text::views(parts@) == all.take(i as int).filter(kept),
        decreases found@.len() - i,
    {
        let part = found[i];
        let ghost before = text::views(parts@);
        proof {
            assert(all.take(i + 1).drop_last() == all.take(i as int));
            assert(all.take(i + 1).last() == part@);
            reveal(Seq::filter);
        }
        if part.len() > 0 {
            parts.push(part);
            assert(text::views(parts@) == before.push(part@));
        }
        i = i + 1;
    }
    assert(all.take(all.len() as int) == all);
    parts
}

/// The arguments in the bytes of a `cmdline` file, as text. None is empty or
/// holds a NUL, and one that is valid UTF-8 is decoded.
pub fn parse_cmdline(bytes: Vec<u8>) -> (args: Vec<String>)
    ensures
        args@.map_values(|s: String| s@) == arguments(bytes@),
        forall|j: int|
            0 <= j < args@.len() && vstd::utf8::valid_utf8(argument_bytes(bytes@)[j])
                ==> #[trigger] args@[j]@ == vstd::utf8::decode_utf8(argument_bytes(bytes@)[j]),
        forall|j: int| 0 <= j < args@.len() ==> is_argument(#[trigger] args@[j]@),
{
    let parts = cmdline_parts(bytes.as_slice());
    proof {
        assert forall|j: int| 0 <= j < parts@.len() implies (#[trigger] parts@[j]@).len() > 0
            && !parts@[j]@.contains(0u8) by {
            assert(parts@[j]@ == argument_bytes(bytes@)[j]);
            law_arguments_are_separated(bytes@, j);
        }
    }
    let mut args: Vec<String> = Vec::new();
    let mut i: usize = 0;
    while i < parts.len()
        invariant
            i <= parts@.len(),
            args@.len() == i,
            forall|j: int| 0 <= j < i ==> #[trigger] args@[j]@ == utf8_lossy(parts@[j]@),
            forall|j: int|
                0 <= j < i && vstd::utf8::valid_utf8(parts@[j]@) ==> #[trigger] args@[j]@
                    == vstd::utf8::decode_utf8(parts@[j]@),
            forall|j: int|
                0 <= j < parts@.len() ==> (#[trigger] parts@[j]@).len() > 0
                    && !parts@[j]@.contains(0u8),
            forall|j: int| 0 <= j < i ==> is_argument(#[trigger] args@[j]@),
        decreases parts@.len() - i,
    {
        args.push(from_utf8_lossy(parts[i]));
        i = i + 1;
    }
    assert(forall|j: int|
        0 <= j < parts@.len() ==> #[trigger] parts@[j]@ == argument_bytes(bytes@)[j]);
    assert(args@.map_values(|s: String| s@) =~= arguments(bytes@));
    args
}

// ---------------------------------------------------------------------------
// One process
// ---------------------------------------------------------------------------

/// The name that is shown of a process: what `comm` says unless that is
/// blank, or else the name in `status`, or else the process identifier.
pub open spec fn shown_name(files: ProcessFiles) -> Seq<char> {
    if files.comm is Some && text::trimmed(files.comm->0@).len() > 0 {
        text::trimmed(files.comm->0@)
    } else if files.status is Some && field_text(files.status->0@, "Name"@) is Some {
        field_text(files.status->0@, "Name"@)->0
    } else {
        number::decimal_text(files.pid as nat)
    }
}

/// What the files of a process say of it.
pub open spec fn process_model(files: ProcessFiles) -> ProcessModel {
    ProcessModel {
        pid: files.pid,
        ppid: match files.status {
            Some(status) => field_number(status@, "PPid"@),
            None => None,
        },
        state: match files.status {
            Some(status) => field_text(status@, "State"@),
            None => None,
        },
        comm: shown_name(files),
        cmdline: match files.cmdline {
            Some(bytes) => arguments(bytes@),
            None => seq![],
        },
        exe: text::text_view(files.exe),
    }
}

fn name_of(files: &ProcessFiles) -> (name: String)
    ensures
        name@ == shown_name(*files),
{
    if let Some(comm) = &files.comm {
        let chars = text::chars_of(comm.as_str());
        let trimmed = text::trim(chars.as_slice());
        if trimmed.len() > 0 {
            return text::string_of(trimmed);
        }
    }
    if let Some(status) = &files.status {
        if let Some(name) = status_name(status.as_str()) {
            return name;
        }
    }
    number::format_decimal(files.pid as u64)
}

/// What is shown of the process with the given files.
pub fn read_process(files: ProcessFiles) -> (process: ProcessView)
    ensures
        process@ == process_model(files),
        forall|j: int|
            0 <= j < process.cmdline@.len() ==> is_argument(#[trigger] process.cmdline@[j]@),
{
    let comm = name_of(&files);
    let ppid = match &files.status {
        Some(status) => status_u32("PPid", status.as_str()),
        None => None,
    };
    let state = match &files.status {
        Some(status) => status_string("State", status.as_str()),
        None => None,
    };
    let ProcessFiles { pid, status: _, comm: _, cmdline: bytes, exe } = files;
    let cmdline = match bytes {
        Some(bytes) => parse_cmdline(bytes),
        None => {
            let none: Vec<String> = Vec::new();
            assert(none@.map_values(|s: String| s@) =~= Seq::<Seq<char>>::empty());
            none
        },
    };
    ProcessView { pid, ppid, state, comm, cmdline, exe }
}

/// The process identifier that a name under `/proc` is, if it is one.
pub fn process_id(file_name: &str) -> (pid: Option<u32>)
    ensures
        pid == number::decimal_u32(file_name@),
{
    let chars = text::chars_of(file_name);
    number::parse_decimal_u32(chars.as_slice())
}

// ---------------------------------------------------------------------------
// Queries
// ---------------------------------------------------------------------------

/// How many processes are listed at most.
pub const MAX_PROCESSES: usize = 4096;

/// Which processes are asked for: those that match `q`, and no more than
/// `limit` of them.
#[derive(Debug)]
pub struct ProcessesQuery {
    pub q: Option<String>,
    pub limit: Option<usize>,
}

/// Whether a process matches: the needle occurs in its identifier or, in
/// lower case, in its name, in one of its arguments or in its path.
pub open spec fn matches_needle(process: ProcessModel, needle: Seq<char>) -> bool {
    ||| text::contains_text(number::decimal_text(process.pid as nat), needle)
    ||| text::contains_text(text::lower(process.comm), needle)
    ||| exists|i: int|
        0 <= i < process.cmdline.len() && text::contains_text(
            text::lower(#[trigger] process.cmdline[i]),
            needle,
        )
    ||| process.exe is Some && text::contains_text(text::lower(process.exe->0), needle)
}

/// The predicate of a query: every process without a needle, else those that
/// match the needle in lower case.
pub open spec fn wanted(q: Option<Seq<char>>) -> spec_fn(ProcessModel) -> bool {
    |process: ProcessModel| q is Some ==> matches_needle(process, text::lower(q->0))
}

/// The processes with an identifier of at most `pid`.
pub open spec fn not_after(pid: u32) -> spec_fn(ProcessModel) -> bool {
    |process: ProcessModel| process.pid <= pid
}

/// `sorted` with `process` behind every process that does not come after it.
pub open spec fn insert_by_pid(sorted: Seq<ProcessModel>, process: ProcessModel) -> Seq<
    ProcessModel,
> {
    sorted.insert(text::span(sorted, not_after(process.pid)) as int, process)
}

/// The processes by ascending identifier; those with the same one stay in
/// order.
pub open spec fn sort_by_pid(processes: Seq<ProcessModel>) -> Seq<ProcessModel>
    decreases processes.len(),
{
    if processes.len() == 0 {
        seq![]
    } else {
        insert_by_pid(sort_by_pid(processes.drop_last()), processes.last())
    }
}

/// How many processes a query lists at most.
pub open spec fn effective_limit(limit: Option<usize>) -> usize {
    match limit {
        Some(limit) => if limit < MAX_PROCESSES {
            limit
        } else {
            MAX_PROCESSES
        },
        None => MAX_PROCESSES,
    }
}

/// The first `n` elements of `s`, or all of them.
pub open spec fn at_most<T>(s: Seq<T>, n: nat) -> Seq<T> {
    if s.len() > n {
        s.take(n as int)
    } else {
        s
    }
}

/// What a query lists of `processes`.
pub open spec fn listed(
    processes: Seq<ProcessModel>,
    q: Option<Seq<char>>,
    limit: Option<usize>,
) -> Seq<ProcessModel> {
    at_most(sort_by_pid(processes.filter(wanted(q))), effective_limit(limit) as nat)
}

/// What a sequence of processes says.
pub open spec fn process_models(processes: Seq<ProcessView>) -> Seq<ProcessModel> {
    processes.map_values(|p: ProcessView| p@)
}

/// What the files of processes say of them.
pub open spec fn processes_in(files: Seq<ProcessFiles>) -> Seq<ProcessModel> {
    files.map_values(|f: ProcessFiles| process_model(f))
}

/// Whether the processes stand by ascending identifier.
pub open spec fn is_sorted(processes: Seq<ProcessModel>) -> bool {
    forall|i: int, j: int|
        0 <= i <= j < processes.len() ==> processes[i].pid <= processes[j].pid
}

proof fn lemma_insert_sorted(sorted: Seq<ProcessModel>, process: ProcessModel)
    requires
        is_sorted(sorted),
    ensures
        is_sorted(insert_by_pid(sorted, process)),
{
    text::lemma_span_bounds(sorted, not_after(process.pid));
    let n = text::span(sorted, not_after(process.pid)) as int;
    let after = sorted.insert(n, process);
    assert forall|i: int, j: int| 0 <= i <= j < after.len() implies after[i].pid <= after[j].pid by {
        if i < n {
            assert(not_after(process.pid)(sorted[i]));
        }
        if j > n {
            assert(sorted[n].pid <= sorted[j - 1].pid);
        }
    }
}

proof fn lemma_sorted(processes: Seq<ProcessModel>)
    ensures
        is_sorted(sort_by_pid(processes)),
    decreases processes.len(),
{
    if processes.len() > 0 {
        lemma_sorted(processes.drop_last());
        lemma_insert_sorted(sort_by_pid(processes.drop_last()), processes.last());
    }
}

/// Whether a process matches the needle.
pub fn process_matches(process: &ProcessView, needle: &str) -> (matches: bool)
    ensures
        matches == matches_needle(process@, needle@),
{
    let sought = text::chars_of(needle);
    let id = text::chars_of(number::format_decimal(process.pid as u64).as_str());
    if text::has_text(id.as_slice(), sought.as_slice()) {
        return true;
    }
    let comm = text::to_lower(text::chars_of(process.comm.as_str()).as_slice());
    if text::has_text(comm.as_slice(), sought.as_slice()) {
        return true;
    }
    let mut i: usize = 0;
    while i < process.cmdline.len()
        invariant
            i <= process.cmdline@.len(),
            sought@ == needle@,
            forall|j: int|
                0 <= j < i ==> !text::contains_text(
                    text::lower(#[trigger] process@.cmdline[j]),
                    needle@,
                ),
        decreases process.cmdline@.len() - i,
    {
        let arg = text::to_lower(text::chars_of(process.cmdline[i].as_str()).as_slice());
        assert(process@.cmdline[i as int] == process.cmdline@[i as int]@);
        if text::has_text(arg.as_slice(), sought.as_slice()) {
            return true;
        }
        i = i + 1;
    }
    match &process.exe {
        Some(exe) => {
            let path = text::to_lower(text::chars_of(exe.as_str()).as_slice());
            text::has_text(path.as_slice(), sought.as_slice())
        },
        None => false,
    }
}

/// Puts a process where it belongs among sorted ones.
fn insert_process(sorted: &mut Vec<ProcessView>, process: ProcessView)
    requires
        is_sorted(process_models(old(sorted)@)),
    ensures
        process_models(final(sorted)@) == insert_by_pid(process_models(old(sorted)@), process@),
        is_sorted(process_models(final(sorted)@)),
{
    let ghost before = process_models(sorted@);
    let mut n: usize = sorted.len();
    while n > 0 && sorted[n - 1].pid > process.pid
        invariant
            n <= sorted@.len(),
            before == process_models(sorted@),
            forall|i: int| n <= i < sorted@.len() ==> (#[trigger] before[i]).pid > process.pid,
        decreases n,
    {
        assert(before[n - 1] == sorted@[n - 1]@);
        n = n - 1;
    }
    proof {
        if n > 0 {
            assert(before[n - 1] == sorted@[n - 1]@);
        }
        assert forall|i: int| 0 <= i < n implies not_after(process.pid)(#[trigger] before[i]) by {
            assert(before[i].pid <= before[n - 1].pid);
        }
        text::lemma_span(before, not_after(process.pid), n as nat);
        lemma_insert_sorted(before, process@);
    }
    sorted.insert(n, process);
    assert(process_models(sorted@) =~= before.insert(n as int, process@));
}

/// The processes that a query asks for, given the files of all processes.
pub fn read_processes(query: ProcessesQuery, files: Vec<ProcessFiles>) -> (processes: Vec<
    ProcessView,
>)
    ensures
        process_models(processes@) == listed(
            processes_in(files@),
            text::text_view(query.q),
            query.limit,
        ),
{
    let ghost q = text::text_view(query.q);
    let ghost all = processes_in(files@);
    let ghost keep = wanted(q);
    let needle = match &query.q {
        Some(q) => {
            let lower = text::to_lower(text::chars_of(q.as_str()).as_slice());
            Some(text::string_of(lower.as_slice()))
        },
        None => None,
    };
    let limit: usize = match query.limit {
        Some(limit) => {
            if limit < MAX_PROCESSES {
                limit
            } else {
                MAX_PROCESSES
            }
        },
        None => MAX_PROCESSES,
    };
    let mut sorted: Vec<ProcessView> = Vec::new();
    assert(process_models(sorted@) =~= sort_by_pid(all.take(0).filter(keep))) by {
        reveal(Seq::filter);
    }
    for f in it: files
        invariant
            it.seq() == files@,
            all == processes_in(files@),
            keep == wanted(q),
            match needle {
                Some(needle) => q is Some && needle@ == text::lower(q->0),
                None => q is None,
            },
            is_sorted(process_models(sorted@)),
            process_models(sorted@) == sort_by_pid(all.take(it.index()).filter(keep)),
    {
        let ghost i = it.index();
        let process = read_process(f);
        let matches = match &needle {
            Some(needle) => process_matches(&process, needle.as_str()),
            None => true,
        };
        proof {
            assert(all[i] == process@);
            assert(all.take(i + 1).drop_last() == all.take(i));
            assert(all.take(i + 1).last() == process@);
            reveal(Seq::filter);
            let kept = all.take(i).filter(keep);
            assert(kept.push(process@).drop_last() == kept);
        }
        if matches {
            insert_process(&mut sorted, process);
        }
    }
    assert(all.take(all.len() as int) == all);
    if sorted.len() > limit {
        let ghost whole = process_models(sorted@);
        sorted.truncate(limit);
        assert(process_models(sorted@) =~= whole.take(limit as int));
    }
    sorted
}

// ---------------------------------------------------------------------------
// Laws
// ---------------------------------------------------------------------------

/// An argument in the bytes of a `cmdline` file is not empty and holds no zero
/// byte, whether its bytes are valid UTF-8 or not.
pub proof fn law_arguments_are_separated(bytes: Seq<u8>, j: int)
    requires
        0 <= j < argument_bytes(bytes).len(),
    ensures
        argument_bytes(bytes)[j].len() > 0,
        !argument_bytes(bytes)[j].contains(0u8),
{
    let all = text::pieces(bytes, 0u8);
    let kept = |part: Seq<u8>| part.len() > 0;
    let part = argument_bytes(bytes)[j];
    all.lemma_filter_pred(kept, j);
    all.lemma_filter_contains_rev(kept, part);
    let i = choose|i: int| 0 <= i < all.len() && all[i] == part;
    text::lemma_pieces_are_separated(bytes, 0u8, i);
}

/// Sorting neither adds nor drops a process, puts them by ascending
/// identifier, and keeps the order of those with the same one.
pub proof fn law_sort_by_pid(processes: Seq<ProcessModel>)
    ensures
        is_sorted(sort_by_pid(processes)),
        sort_by_pid(processes).to_multiset() == processes.to_multiset(),
        forall|pid: u32|
            #![trigger with_pid(pid)]
            sort_by_pid(processes).filter(with_pid(pid)) == processes.filter(with_pid(pid)),
    decreases processes.len(),
{
    lemma_sorted(processes);
    if processes.len() > 0 {
        let rest = processes.drop_last();
        let last = processes.last();
        let sorted = sort_by_pid(rest);
        law_sort_by_pid(rest);
        text::lemma_span_bounds(sorted, not_after(last.pid));
        let n = text::span(sorted, not_after(last.pid)) as int;
        vstd::seq_lib::to_multiset_insert(sorted, n, last);
        assert(processes =~= rest.push(last));
        vstd::seq_lib::to_multiset_build(rest, last);
        assert forall|pid: u32|
            #![trigger with_pid(pid)]
            sort_by_pid(processes).filter(with_pid(pid)) == processes.filter(with_pid(pid)) by {
            let p = with_pid(pid);
            let low = sorted.take(n);
            let high = sorted.skip(n);
            assert(sorted.insert(n, last) =~= low.push(last) + high);
            assert(sorted =~= low + high);
            Seq::filter_distributes_over_add(low.push(last), high, p);
            Seq::filter_distributes_over_add(low, high, p);
            low.lemma_filter_push(last, p);
            rest.lemma_filter_push(last, p);
            if pid == last.pid {
                assert forall|i: int| 0 <= i < high.len() implies !p(#[trigger] high[i]) by {
                    assert(high[i] == sorted[n + i]);
                    assert(sorted[n].pid <= sorted[n + i].pid);
                }
                lemma_filter_none(high, p);
                assert(low.filter(p).push(last) + seq![] =~= low.filter(p).push(last));
                assert(low.filter(p) + seq![] =~= low.filter(p));
            }
        }
    } else {
        assert(sort_by_pid(processes) =~= processes);
    }
}

/// The processes with the given identifier.
pub open spec fn with_pid(pid: u32) -> spec_fn(ProcessModel) -> bool {
    |process: ProcessModel| process.pid == pid
}

proof fn lemma_filter_none<T>(s: Seq<T>, p: spec_fn(T) -> bool)
    requires
        forall|i: int| 0 <= i < s.len() ==> !p(#[trigger] s[i]),
    ensures
        s.filter(p) == Seq::<T>::empty(),
    decreases s.len(),
{
    reveal(Seq::filter);
    if s.len() > 0 {
        assert(!p(s[s.len() - 1]));
        lemma_filter_none(s.drop_last(), p);
    }
}

/// A query lists, by ascending identifier, processes that it asks for and no
/// more than its limit; and it lists all of them that it asks for if they are
/// within its limit.
pub proof fn law_listing(processes: Seq<ProcessModel>, q: Option<Seq<char>>, limit: Option<usize>)
    ensures
        is_sorted(listed(processes, q, limit)),
        listed(processes, q, limit).len() <= effective_limit(limit) <= MAX_PROCESSES,
        forall|p: ProcessModel|
            #[trigger] listed(processes, q, limit).contains(p) ==> processes.contains(p) && wanted(q)(
                p,
            ),
        processes.filter(wanted(q)).len() <= effective_limit(limit) ==> forall|p: ProcessModel|
            processes.contains(p) && wanted(q)(p) ==> #[trigger] listed(
                processes,
                q,
                limit,
            ).contains(p),
{
    let kept = processes.filter(wanted(q));
    let sorted = sort_by_pid(kept);
    law_sort_by_pid(kept);
    vstd::seq_lib::to_multiset_len(sorted);
    vstd::seq_lib::to_multiset_len(kept);
    assert forall|p: ProcessModel| #[trigger]
        listed(processes, q, limit).contains(p) implies processes.contains(p) && wanted(q)(p) by {
        assert(sorted.contains(p));
        vstd::seq_lib::to_multiset_contains(sorted, p);
        vstd::seq_lib::to_multiset_contains(kept, p);
        processes.lemma_filter_contains_rev(wanted(q), p);
        let i = choose|i: int| 0 <= i < kept.len() && kept[i] == p;
        processes.lemma_filter_pred(wanted(q), i);
    }
    if kept.len() <= effective_limit(limit) {
        assert forall|p: ProcessModel| processes.contains(p) && wanted(q)(p) implies #[trigger] listed(
            processes,
            q,
            limit,
        ).contains(p) by {
            let i = choose|i: int| 0 <= i < processes.len() && processes[i] == p;
            processes.lemma_filter_contains(wanted(q), i);
            vstd::seq_lib::to_multiset_contains(kept, p);
            vstd::seq_lib::to_multiset_contains(sorted, p);
        }
    }
}

/// The letter case of a query makes no difference.
pub proof fn law_query_case(
    processes: Seq<ProcessModel>,
    a: Seq<char>,
    b: Seq<char>,
    limit: Option<usize>,
)
    requires
        text::lower(a) == text::lower(b),
    ensures
        listed(processes, Some(a), limit) == listed(processes, Some(b), limit),
{
    assert(wanted(Some(a)) =~= wanted(Some(b)));
}

/// A process is found by its identifier, and every process by an empty query.
pub proof fn law_found_by_identifier(process: ProcessModel)
    ensures
        matches_needle(process, number::decimal_text(process.pid as nat)),
        matches_needle(process, Seq::<char>::empty()),
{
    let id = number::decimal_text(process.pid as nat);
    assert(id.subrange(0int, 0int + id.len()) =~= id);
    assert(id.subrange(0int, 0int + Seq::<char>::empty().len()) =~= Seq::<char>::empty());
}

/// Whether the line with index `k` is the first one that begins with `prefix`,
/// or `k` is the number of lines and none does.
pub open spec fn is_first_with(lines: Seq<Seq<char>>, prefix: Seq<char>, k: int) -> bool {
    &&& 0 <= k <= lines.len()
    &&& forall|i: int| 0 <= i < k ==> !prefix.is_prefix_of(#[trigger] lines[i])
    &&& k < lines.len() ==> prefix.is_prefix_of(lines[k])
}

proof fn lemma_first_after(lines: Seq<Seq<char>>, prefix: Seq<char>, k: int)
    requires
        is_first_with(lines, prefix, k),
    ensures
        first_after(lines, prefix) == if k < lines.len() {
            Some(lines[k].skip(prefix.len() as int))
        } else {
            None
        },
    decreases k,
{
    if k > 0 {
        let rest = lines.skip(1);
        assert(!prefix.is_prefix_of(lines[0]));
        assert forall|i: int| 0 <= i < k - 1 implies !prefix.is_prefix_of(#[trigger] rest[i]) by {
            assert(rest[i] == lines[i + 1]);
        }
        lemma_first_after(rest, prefix, k - 1);
    }
}

/// A field of a status file is what follows its name and a colon, without the
/// white space around it, in the first line that begins with the two; there is
/// no such field without such a line.
pub proof fn law_status_fields(
    key: &str,
    status: &str,
    value: Option<String>,
    n: Option<u32>,
    k: int,
)
    requires
        call_ensures(status_string, (key, status), value),
        call_ensures(status_u32, (key, status), n),
        is_first_with(text::lines(status@), key@ + seq![':'], k),
    ensures
        value is Some <==> k < text::lines(status@).len(),
        value is Some ==> value->0@ == text::trimmed(
            text::lines(status@)[k].skip(key@.len() as int + 1),
        ),
        value is None ==> n is None,
        value is Some ==> n == number::decimal_u32(value->0@),
        text::text_view(value) == field_text(status@, key@),
{
    let prefix = key@ + seq![':'];
    assert(key@.push(':') =~= prefix);
    lemma_first_after(text::lines(status@), prefix, k);
}

/// The name in a status file is its field `Name`.
pub proof fn law_status_name(status: &str, name: Option<String>, k: int)
    requires
        call_ensures(status_name, (status,), name),
        is_first_with(text::lines(status@), seq!['N', 'a', 'm', 'e', ':'], k),
    ensures
        name is Some <==> k < text::lines(status@).len(),
        name is Some ==> name->0@ == text::trimmed(text::lines(status@)[k].skip(5)),
{
    let prefix = seq!['N', 'a', 'm', 'e', ':'];
    reveal_strlit("Name");
    assert("Name"@.push(':') =~= prefix);
    lemma_first_after(text::lines(status@), prefix, k);
}

proof fn lemma_arguments_of_parts(a: Seq<u8>, b: Seq<u8>)
    ensures
        text::pieces(a + seq![0u8] + b, 0u8) == text::pieces(a, 0u8) + text::pieces(b, 0u8),
    decreases a.len(),
{
    let n = text::span(a, text::other_than(0u8)) as int;
    text::lemma_span_bounds(a, text::other_than(0u8));
    let first = a.take(n);
    assert(!first.contains(0u8)) by {
        if first.contains(0u8) {
            let i = choose|i: int| 0 <= i < first.len() && first[i] == 0u8;
            assert(text::other_than(0u8)(a[i]));
        }
    }
    if n < a.len() {
        assert(!text::other_than(0u8)(a[n]));
        let rest = a.skip(n + 1);
        assert(a =~= first + seq![0u8] + rest);
        assert(a + seq![0u8] + b =~= first + seq![0u8] + (rest + seq![0u8] + b));
        text::law_pieces(first, 0u8, rest);
        text::law_pieces(first, 0u8, rest + seq![0u8] + b);
        lemma_arguments_of_parts(rest, b);
        assert(seq![first] + (text::pieces(rest, 0u8) + text::pieces(b, 0u8)) =~= seq![first]
            + text::pieces(rest, 0u8) + text::pieces(b, 0u8));
    } else {
        assert(first =~= a);
        text::law_pieces(a, 0u8, b);
    }
}

/// The arguments of a command line are those before a zero byte and those
/// behind it. Bytes without a zero byte are one argument, unless there are
/// none.
pub proof fn law_arguments(a: Seq<u8>, b: Seq<u8>)
    ensures
        argument_bytes(a + seq![0u8] + b) == argument_bytes(a) + argument_bytes(b),
        arguments(a + seq![0u8] + b) == arguments(a) + arguments(b),
        !a.contains(0u8) && a.len() > 0 ==> argument_bytes(a) == seq![a] && arguments(a)
            == seq![utf8_lossy(a)],
        a.len() == 0 ==> argument_bytes(a).len() == 0 && arguments(a).len() == 0,
{
    let kept = |part: Seq<u8>| part.len() > 0;
    let none = Seq::<Seq<u8>>::empty();
    lemma_arguments_of_parts(a, b);
    Seq::filter_distributes_over_add(text::pieces(a, 0u8), text::pieces(b, 0u8), kept);
    assert(arguments(a + seq![0u8] + b) =~= arguments(a) + arguments(b));
    if !a.contains(0u8) {
        text::law_pieces(a, 0u8, b);
        assert(none.push(a) =~= seq![a]);
        none.lemma_filter_push(a, kept);
        assert(none.filter(kept) =~= none) by {
            reveal(Seq::filter);
        }
        if a.len() > 0 {
            assert(argument_bytes(a) =~= seq![a]);
            assert(arguments(a) =~= seq![utf8_lossy(a)]);
        }
    }
}

/// The arguments that a command line is read as are those before a zero byte
/// and those behind it, in order.
pub proof fn law_command_lines(
    whole: Vec<u8>,
    a: Vec<u8>,
    b: Vec<u8>,
    of_whole: Vec<String>,
    of_a: Vec<String>,
    of_b: Vec<String>,
)
    requires
        whole@ == a@ + seq![0u8] + b@,
        call_ensures(parse_cmdline, (whole,), of_whole),
        call_ensures(parse_cmdline, (a,), of_a),
        call_ensures(parse_cmdline, (b,), of_b),
    ensures
        of_whole@.len() == of_a@.len() + of_b@.len(),
        forall|i: int| 0 <= i < of_a@.len() ==> (#[trigger] of_whole@[i])@ == of_a@[i]@,
        forall|i: int|
            0 <= i < of_b@.len() ==> (#[trigger] of_b@[i])@ == of_whole@[of_a@.len() + i]@,
        a@.len() == 0 ==> of_a@.len() == 0,
        a@.len() > 0 && !a@.contains(0u8) ==> of_a@.len() == 1 && of_a@[0]@ == utf8_lossy(a@),
{
    law_arguments(a@, b@);
    let w = of_whole@.map_values(|s: String| s@);
    let x = of_a@.map_values(|s: String| s@);
    let y = of_b@.map_values(|s: String| s@);
    assert(w == x + y);
    assert(w.len() == of_whole@.len() && x.len() == of_a@.len() && y.len() == of_b@.len());
    assert forall|i: int| 0 <= i < of_a@.len() implies (#[trigger] of_whole@[i])@
        == of_a@[i]@ by {
        assert(w[i] == x[i]);
    }
    assert forall|i: int| 0 <= i < of_b@.len() implies (#[trigger] of_b@[i])@
        == of_whole@[of_a@.len() + i]@ by {
        assert(w[x.len() + i] == y[i]);
    }
    if a@.len() > 0 && !a@.contains(0u8) {
        assert(x[0] == of_a@[0]@);
    }
}

/// What is shown of a process is what its files say: its parent and its state
/// from the status file, its arguments from the command line, its executable
/// as it is, and its name from `comm`, unless that is blank, or else from the
/// status file, or else its number.
pub proof fn law_process_shows_its_files(
    files: ProcessFiles,
    process: ProcessView,
    status: &str,
    parent_key: &str,
    state_key: &str,
    parent: Option<u32>,
    state: Option<String>,
    name: Option<String>,
    args: Vec<String>,
)
    requires
        call_ensures(read_process, (files,), process),
        files.status is Some ==> status@ == files.status->0@,
        parent_key@ == seq!['P', 'P', 'i', 'd'],
        state_key@ == seq!['S', 't', 'a', 't', 'e'],
        call_ensures(status_u32, (parent_key, status), parent),
        call_ensures(status_string, (state_key, status), state),
        call_ensures(status_name, (status,), name),
        files.cmdline matches Some(bytes) ==> call_ensures(parse_cmdline, (bytes,), args),
    ensures
        process.pid == files.pid,
        files.status is None ==> process.ppid is None && process.state is None,
        files.status is Some ==> process.ppid == parent && (process.state is Some <==> state is Some)
            && (state is Some ==> process.state->0@ == state->0@),
        files.cmdline is None ==> process.cmdline@.len() == 0,
        files.cmdline is Some ==> process.cmdline@.len() == args@.len() && forall|i: int|
            0 <= i < args@.len() ==> (#[trigger] process.cmdline@[i])@ == args@[i]@,
        process.exe is Some <==> files.exe is Some,
        files.exe is Some ==> process.exe->0@ == files.exe->0@,
        process.comm@ == if files.comm is Some && text::trimmed(files.comm->0@).len() > 0 {
            text::trimmed(files.comm->0@)
        } else if files.status is Some && name is Some {
            name->0@
        } else {
            number::decimal_text(files.pid as nat)
        },
{
    reveal_strlit("PPid");
    reveal_strlit("State");
    assert("PPid"@ =~= seq!['P', 'P', 'i', 'd']);
    assert("State"@ =~= seq!['S', 't', 'a', 't', 'e']);
    let shown = process.cmdline@.map_values(|s: String| s@);
    assert(shown.len() == process.cmdline@.len());
    if files.cmdline is Some {
        let given = args@.map_values(|s: String| s@);
        assert(shown == given);
        assert(given.len() == args@.len());
        assert forall|i: int| 0 <= i < args@.len() implies (#[trigger] process.cmdline@[i])@
            == args@[i]@ by {
            assert(shown[i] == given[i]);
        }
    }
}

/// A process is found by exactly those texts that occur in its number or, in
/// lower case, in its name, in one of its arguments or in its path.
pub proof fn law_found_by_what_is_shown(process: &ProcessView, needle: &str, found: bool)
    requires
        call_ensures(process_matches, (process, needle), found),
    ensures
        found == matches_needle(process@, needle@),
        text::contains_text(number::decimal_text(process.pid as nat), needle@) ==> found,
        text::contains_text(text::lower(process.comm@), needle@) ==> found,
        forall|i: int|
            0 <= i < process.cmdline@.len() && text::contains_text(
                text::lower((#[trigger] process.cmdline@[i])@),
                needle@,
            ) ==> found,
        process.exe is Some && text::contains_text(text::lower(process.exe->0@), needle@) ==> found,
        found ==> {
            ||| text::contains_text(number::decimal_text(process.pid as nat), needle@)
            ||| text::contains_text(text::lower(process.comm@), needle@)
            ||| exists|i: int|
                0 <= i < process.cmdline@.len() && text::contains_text(
                    text::lower((#[trigger] process.cmdline@[i])@),
                    needle@,
                )
            ||| process.exe is Some && text::contains_text(text::lower(process.exe->0@), needle@)
        },
{
    let args = process@.cmdline;
    assert(args.len() == process.cmdline@.len());
    assert forall|i: int|
        0 <= i < process.cmdline@.len() && text::contains_text(
            text::lower((#[trigger] process.cmdline@[i])@),
            needle@,
        ) implies found by {
        assert(args[i] == process.cmdline@[i]@);
    }
    if exists|i: int|
        0 <= i < args.len() && text::contains_text(text::lower(#[trigger] args[i]), needle@) {
        let i = choose|i: int|
            0 <= i < args.len() && text::contains_text(text::lower(#[trigger] args[i]), needle@);
        assert(args[i] == process.cmdline@[i]@);
    }
}

/// How many processes a query lists: all that it asks for, but no more than
/// its limit, and never more than 4096.
pub open spec fn list_size(limit: Option<usize>, n: nat) -> nat {
    let cap: nat = if limit is Some && limit->0 < 4096 {
        limit->0 as nat
    } else {
        4096
    };
    if n < cap {
        n
    } else {
        cap
    }
}

/// A query lists the processes that match it in lower case, or every process
/// if it names no text, in the order of their numbers, as many of the first
/// ones as it may list.
pub proof fn law_query_lists(
    query: ProcessesQuery,
    files: Vec<ProcessFiles>,
    processes: Vec<ProcessView>,
    all: Seq<ProcessModel>,
    asked: Seq<ProcessModel>,
)
    requires
        call_ensures(read_processes, (query, files), processes),
        all.len() == files@.len(),
        forall|i: int| 0 <= i < all.len() ==> #[trigger] all[i] == process_model(files@[i]),
        asked == all.filter(
            |p: ProcessModel| query.q is None || matches_needle(p, text::lower(query.q->0@)),
        ),
    ensures
        processes@.len() == list_size(query.limit, asked.len()),
        forall|i: int|
            0 <= i < processes@.len() ==> (#[trigger] processes@[i])@ == sort_by_pid(asked)[i],
        forall|i: int, j: int|
            0 <= i < j < processes@.len() ==> (#[trigger] processes@[i]).pid <= (
            #[trigger] processes@[j]).pid,
        forall|i: int, k: int|
            0 <= i < processes@.len() <= k < asked.len() ==> (#[trigger] processes@[i]).pid <= (
            #[trigger] sort_by_pid(asked)[k]).pid,
{
    let keep = |p: ProcessModel| query.q is None || matches_needle(p, text::lower(query.q->0@));
    let q = text::text_view(query.q);
    assert(processes_in(files@) =~= all);
    assert(keep =~= wanted(q));
    let sorted = sort_by_pid(asked);
    law_sort_by_pid(asked);
    vstd::seq_lib::to_multiset_len(sorted);
    vstd::seq_lib::to_multiset_len(asked);
    let models = process_models(processes@);
    assert(models.len() == processes@.len());
    assert forall|i: int| 0 <= i < processes@.len() implies (#[trigger] processes@[i])@
        == sorted[i] by {
        assert(models[i] == processes@[i]@);
    }
    assert forall|i: int, j: int| 0 <= i < j < processes@.len() implies (
    #[trigger] processes@[i]).pid <= (#[trigger] processes@[j]).pid by {
        assert(processes@[i]@ == sorted[i] && processes@[j]@ == sorted[j]);
        assert(sorted[i].pid <= sorted[j].pid);
    }
    assert forall|i: int, k: int| 0 <= i < processes@.len() <= k < asked.len() implies (
    #[trigger] processes@[i]).pid <= (#[trigger] sorted[k]).pid by {
        assert(processes@[i]@ == sorted[i]);
        assert(sorted[i].pid <= sorted[k].pid);
    }
}

/// A name under `/proc` is the number of a process exactly if it denotes a
/// number of base ten that fits into 32 bits.
pub proof fn law_process_numbers(file_name: &str, pid: Option<u32>, n: u32)
    requires
        call_ensures(process_id, (file_name,), pid),
    ensures
        pid == number::decimal_u32(file_name@),
        file_name@ == number::decimal_text(n as nat) ==> pid == Some(n),
{
    number::law_decimal_round_trip(n as u64);
}

/// What a process says leaves nothing out.
pub proof fn law_processes_say_everything(a: ProcessView, b: ProcessView)
    requires
        a@ == b@,
    ensures
        a.pid == b.pid && a.ppid == b.ppid && a.comm@ == b.comm@,
        a.state is Some <==> b.state is Some,
        a.state is Some ==> a.state->0@ == b.state->0@,
        a.exe is Some <==> b.exe is Some,
        a.exe is Some ==> a.exe->0@ == b.exe->0@,
        a.cmdline@.len() == b.cmdline@.len(),
        forall|i: int| 0 <= i < a.cmdline@.len() ==> (#[trigger] a.cmdline@[i])@ == b.cmdline@[i]@,
{
    let (s, t) = (a@.cmdline, b@.cmdline);
    assert(s.len() == a.cmdline@.len() && t.len() == b.cmdline@.len());
    assert forall|i: int| 0 <= i < a.cmdline@.len() implies (#[trigger] a.cmdline@[i])@
        == b.cmdline@[i]@ by {
        assert(s[i] == t[i]);
    }
}

/// A copy of a process says what the process says.
pub proof fn law_copies_of_processes(process: ProcessView, copy: ProcessView)
    requires
        call_ensures(ProcessView::clone, (&process,), copy),
    ensures
        copy@ == process@,
{
}

} // verus!
