//! Worker task bookkeeping: task identifiers (UPIDs), final task states,
//! the lines of the task list files and their reconciliation.

use vstd::prelude::*;

use crate::text::{
    concat, decimal_chars, decimal_string, first_index_of, hex8_string, hex_chars, parse_hex_u64,
    parse_u64, rest_after, same_text, split_once_str, first_match_of, split_once, strip_prefix, u64_of_decimal, u64_of_hex,
};

verus! {

/// Error raised while parsing task data.
#[derive(Debug, Clone, Copy, PartialEq, Eq, Structural)]
pub enum TaskError {
    /// A task status text that is empty or holds a bad warning count.
    BadStatus,
    /// A UPID that does not have the expected fields.
    BadUpid,
    /// A task list line with two fields, or a bad end time.
    BadLine,
}

/// The final state of a task.
#[derive(Debug, Clone, PartialEq, Eq)]
pub enum TaskState {
    /// The task ended with an undefined state.
    Unknown { endtime: i64 },
    /// The task ended without errors or warnings.
    OK { endtime: i64 },
    /// The task had `count` warnings and no error.
    Warning { count: u64, endtime: i64 },
    /// The task ended with the error described in `message`.
    Error { message: String, endtime: i64 },
}

/// A task state as plain values: a kind (0 unknown, 1 ok, 2 warnings,
/// 3 error), the end time, the warning count and the error message.
pub type TaskStateView = (nat, i64, u64, Seq<char>);

impl View for TaskState {
    type V = TaskStateView;

    open spec fn view(&self) -> TaskStateView {
        match self {
            TaskState::Unknown { endtime } => (0, *endtime, 0, Seq::empty()),
            TaskState::OK { endtime } => (1, *endtime, 0, Seq::empty()),
            TaskState::Warning { count, endtime } => (2, *endtime, *count, Seq::empty()),
            TaskState::Error { message, endtime } => (3, *endtime, 0, message@),
        }
    }
}

/// The state that a status text stands for, ending at `endtime`: `unknown`,
/// `OK`, `WARNINGS: <count>`, or any other nonempty text as an error
/// message, without a leading `ERROR: `.
pub open spec fn parse_state_spec(endtime: i64, s: Seq<char>) -> Option<TaskStateView> {
    if s == "unknown"@ {
        Some((0, endtime, 0, Seq::empty()))
    } else if s == "OK"@ {
        Some((1, endtime, 0, Seq::empty()))
    } else if rest_after(s, "WARNINGS: "@) is Some {
        match u64_of_decimal(rest_after(s, "WARNINGS: "@)->Some_0) {
            Some(count) => Some((2, endtime, count, Seq::empty())),
            None => None,
        }
    } else if s.len() > 0 {
        match rest_after(s, "ERROR: "@) {
            Some(m) => Some((3, endtime, 0, m)),
            None => Some((3, endtime, 0, s)),
        }
    } else {
        None
    }
}

/// The status text of a state: `unknown`, `OK`, `WARNINGS: <count>`, or
/// the error message.
pub open spec fn status_text_spec(v: TaskStateView) -> Seq<char> {
    if v.0 == 0 {
        "unknown"@
    } else if v.0 == 1 {
        "OK"@
    } else if v.0 == 2 {
        "WARNINGS: "@ + decimal_chars(v.2 as nat)
    } else {
        v.3
    }
}

/// The last line a task writes to its log: `TASK ERROR: <message>` or
/// `TASK <status>`.
pub open spec fn result_text_spec(v: TaskStateView) -> Seq<char> {
    if v.0 == 3 {
        "TASK ERROR: "@ + v.3
    } else {
        "TASK "@ + status_text_spec(v)
    }
}

impl TaskState {
    /// The time at which the task ended.
    pub fn endtime(&self) -> (r: i64)
        ensures
            r == self@.1,
    {
        match self {
            TaskState::Unknown { endtime } => *endtime,
            TaskState::OK { endtime } => *endtime,
            TaskState::Warning { endtime, .. } => *endtime,
            TaskState::Error { endtime, .. } => *endtime,
        }
    }

    /// Parse a status text (see `parse_state_spec`).
    pub fn from_endtime_and_message(endtime: i64, s: &str) -> (r: Result<TaskState, TaskError>)
        ensures
            match parse_state_spec(endtime, s@) {
                Some(v) => r is Ok && r->Ok_0@ == v,
                None => r == Err::<TaskState, TaskError>(TaskError::BadStatus),
            },
    {
        if same_text(s, "unknown") {
            return Ok(TaskState::Unknown { endtime });
        }
        if same_text(s, "OK") {
            return Ok(TaskState::OK { endtime });
        }
        if let Some(rest) = strip_prefix(s, "WARNINGS: ") {
            return match parse_u64(rest.as_str()) {
                Some(count) => Ok(TaskState::Warning { count, endtime }),
                None => Err(TaskError::BadStatus),
            };
        }
        if s.is_empty() {
            return Err(TaskError::BadStatus);
        }
        let message = match strip_prefix(s, "ERROR: ") {
            Some(m) => m,
            None => s.to_owned(),
        };
        Ok(TaskState::Error { message, endtime })
    }

    /// The status text of this state.
    pub fn status_text(&self) -> (r: String)
        ensures
            r@ == status_text_spec(self@),
    {
        match self {
            TaskState::Unknown { .. } => "unknown".to_owned(),
            TaskState::OK { .. } => "OK".to_owned(),
            TaskState::Warning { count, .. } => concat("WARNINGS: ".to_owned(), decimal_string(*count).as_str()),
            TaskState::Error { message, .. } => message.as_str().to_owned(),
        }
    }

    /// The final log line of a task that ended in this state.
    pub fn result_text(&self) -> (r: String)
        ensures
            r@ == result_text_spec(self@),
    {
        match self {
            TaskState::Error { message, .. } => concat("TASK ERROR: ".to_owned(), message.as_str()),
            _ => concat("TASK ".to_owned(), self.status_text().as_str()),
        }
    }
}

/// Unique process task id: the node, the process id and start time of the
/// process, a task counter of that process, the task's start time, its
/// type, an optional worker id and the user that started it. Its text form
/// is `<node>:<pid>:<pstart>:<task_id>:<starttime>:<type>:<id>:<user>:`
/// with the numbers in upper-case hexadecimal of at least eight digits.
#[derive(Debug, Clone, PartialEq, Eq)]
pub struct UPID {
    pub node: String,
    pub pid: u32,
    pub pstart: u64,
    pub task_id: u64,
    pub starttime: i64,
    pub worker_type: String,
    pub worker_id: Option<String>,
    pub userid: String,
}

pub type UpidView = (Seq<char>, u32, u64, u64, i64, Seq<char>, Option<Seq<char>>, Seq<char>);

impl View for UPID {
    type V = UpidView;

    open spec fn view(&self) -> UpidView {
        (
            self.node@,
            self.pid,
            self.pstart,
            self.task_id,
            self.starttime,
            self.worker_type@,
            match self.worker_id {
                Some(w) => Some(w@),
                None => None,
            },
            self.userid@,
        )
    }
}

/// `s` cut into `n` fields, each ended by `:`, with nothing after the last.
pub open spec fn split_fields(s: Seq<char>, n: nat) -> Option<Seq<Seq<char>>>
    decreases n,
{
    if n == 0 {
        if s.len() == 0 {
            Some(Seq::empty())
        } else {
            None
        }
    } else {
        match first_index_of(s, ':') {
            Some(i) => match split_fields(s.subrange(i + 1, s.len() as int), (n - 1) as nat) {
                Some(rest) => Some(seq![s.subrange(0, i)] + rest),
                None => None,
            },
            None => None,
        }
    }
}

/// The UPID that a text stands for.
pub open spec fn upid_spec(s: Seq<char>) -> Option<UpidView> {
    match split_fields(s, 8) {
        Some(f) => match (u64_of_hex(f[1]), u64_of_hex(f[2]), u64_of_hex(f[3]), u64_of_hex(f[4])) {
            (Some(pid), Some(pstart), Some(task_id), Some(starttime)) => if pid <= u32::MAX
                && starttime <= i64::MAX {
                Some(
                    (
                        f[0],
                        pid as u32,
                        pstart,
                        task_id,
                        starttime as i64,
                        f[5],
                        if f[6].len() == 0 {
                            None
                        } else {
                            Some(f[6])
                        },
                        f[7],
                    ),
                )
            } else {
                None
            },
            _ => None,
        },
        None => None,
    }
}

/// The text form of a UPID.
pub open spec fn upid_text_spec(u: UpidView) -> Seq<char> {
    u.0 + ":"@ + hex_chars(u.1 as nat, 8) + ":"@ + hex_chars(u.2 as nat, 8) + ":"@ + hex_chars(
        u.3 as nat,
        8,
    ) + ":"@ + hex_chars(u.4 as u64 as nat, 8) + ":"@ + u.5 + ":"@ + match u.6 {
        Some(w) => w,
        None => Seq::empty(),
    } + ":"@ + u.7 + ":"@
}

pub open spec fn views_of(v: Seq<String>) -> Seq<Seq<char>> {
    v.map_values(|s: String| s@)
}

impl UPID {
    /// Parse the text form of a UPID.
    pub fn parse(s: &str) -> (r: Result<UPID, TaskError>)
        ensures
            match upid_spec(s@) {
                Some(u) => r is Ok && r->Ok_0@ == u,
                None => r == Err::<UPID, TaskError>(TaskError::BadUpid),
            },
    {
        let mut fields: Vec<String> = Vec::new();
        let mut cur: String = s.to_owned();
        let mut k: usize = 0;
        while k < 8
            invariant
                0 <= k <= 8,
                fields@.len() == k,
                split_fields(s@, 8) == match split_fields(cur@, (8 - k) as nat) {
                    Some(rest) => Some(views_of(fields@) + rest),
                    None => None,
                },
            decreases 8 - k,
        {
            match split_once(cur.as_str(), ':') {
                Some((head, tail)) => {
                    let ghost before = fields@;
                    proof {
                        match split_fields(tail@, (8 - k - 1) as nat) {
                            Some(rest) => {
                                assert(views_of(before) + (seq![head@] + rest) =~= views_of(
                                    before.push(head),
                                ) + rest);
                            },
                            None => {},
                        }
                    }
                    fields.push(head);
                    cur = tail;
                },
                None => {
                    return Err(TaskError::BadUpid);
                },
            }
            k = k + 1;
        }
        if !cur.as_str().is_empty() {
            return Err(TaskError::BadUpid);
        }
        proof {
            assert(views_of(fields@) + Seq::<Seq<char>>::empty() =~= views_of(fields@));
            let f = split_fields(s@, 8)->Some_0;
            assert forall|i: int| 0 <= i < 8 implies f[i] == fields@[i]@ by {}
        }
        let pid = parse_hex_u64(fields[1].as_str());
        let pstart = parse_hex_u64(fields[2].as_str());
        let task_id = parse_hex_u64(fields[3].as_str());
        let starttime = parse_hex_u64(fields[4].as_str());
        match (pid, pstart, task_id, starttime) {
            (Some(pid), Some(pstart), Some(task_id), Some(starttime)) => {
                if pid > u32::MAX as u64 || starttime > i64::MAX as u64 {
                    return Err(TaskError::BadUpid);
                }
                let worker_id = if fields[6].as_str().is_empty() {
                    None
                } else {
                    Some(fields[6].as_str().to_owned())
                };
                Ok(UPID {
                    node: fields[0].as_str().to_owned(),
                    pid: pid as u32,
                    pstart,
                    task_id,
                    starttime: starttime as i64,
                    worker_type: fields[5].as_str().to_owned(),
                    worker_id,
                    userid: fields[7].as_str().to_owned(),
                })
            },
            _ => Err(TaskError::BadUpid),
        }
    }

    /// The text form of this UPID.
    pub fn to_text(&self) -> (r: String)
        ensures
            r@ == upid_text_spec(self@),
    {
        let mut r = concat(self.node.as_str().to_owned(), ":");
        r = concat(r, hex8_string(self.pid as u64).as_str());
        r = concat(r, ":");
        r = concat(r, hex8_string(self.pstart).as_str());
        r = concat(r, ":");
        r = concat(r, hex8_string(self.task_id).as_str());
        r = concat(r, ":");
        r = concat(r, hex8_string(self.starttime as u64).as_str());
        r = concat(r, ":");
        r = concat(r, self.worker_type.as_str());
        r = concat(r, ":");
        match &self.worker_id {
            Some(w) => {
                r = concat(r, w.as_str());
            },
            None => {},
        }
        r = concat(r, ":");
        r = concat(r, self.userid.as_str());
        r = concat(r, ":");
        r
    }
}

/// The three parts of a task list line: the UPID text, the UPID, and for
/// a finished task its state. A line is `<upid>` or
/// `<upid> <endtime in hex> <status text>`.
pub open spec fn status_line_spec(line: Seq<char>) -> Option<
    (Seq<char>, UpidView, Option<TaskStateView>),
> {
    match first_index_of(line, ' ') {
        None => match upid_spec(line) {
            Some(u) => Some((line, u, None)),
            None => None,
        },
        Some(i) => {
            let a = line.subrange(0, i);
            let r1 = line.subrange(i + 1, line.len() as int);
            match first_index_of(r1, ' ') {
                None => None,
                Some(j) => {
                    let b = r1.subrange(0, j);
                    let c = r1.subrange(j + 1, r1.len() as int);
                    match u64_of_hex(b) {
                        Some(e) => if e <= i64::MAX {
                            match (parse_state_spec(e as i64, c), upid_spec(a)) {
                                (Some(st), Some(u)) => Some((a, u, Some(st))),
                                _ => None,
                            }
                        } else {
                            None
                        },
                        None => None,
                    }
                },
            }
        },
    }
}

/// Parse one line of a task list file.
pub fn parse_worker_status_line(line: &str) -> (r: Result<(String, UPID, Option<TaskState>), TaskError>)
    ensures
        match status_line_spec(line@) {
            Some((t, u, st)) => r is Ok && r->Ok_0.0@ == t && r->Ok_0.1@ == u && match st {
                Some(v) => r->Ok_0.2 is Some && r->Ok_0.2->Some_0@ == v,
                None => r->Ok_0.2 is None,
            },
            None => r is Err,
        },
{
    match split_once(line, ' ') {
        None => {
            let upid = UPID::parse(line)?;
            Ok((line.to_owned(), upid, None))
        },
        Some((a, r1)) => match split_once(r1.as_str(), ' ') {
            None => Err(TaskError::BadLine),
            Some((b, c)) => {
                let endtime = match parse_hex_u64(b.as_str()) {
                    Some(e) => e,
                    None => return Err(TaskError::BadLine),
                };
                if endtime > i64::MAX as u64 {
                    return Err(TaskError::BadLine);
                }
                let state = TaskState::from_endtime_and_message(endtime as i64, c.as_str())?;
                let upid = UPID::parse(a.as_str())?;
                Ok((a, upid, Some(state)))
            },
        },
    }
}

/// A task in a task list, with its state once it has finished.
#[derive(Debug, Clone, PartialEq, Eq)]
pub struct TaskListInfo {
    pub upid: UPID,
    pub upid_str: String,
    pub state: Option<TaskState>,
}

/// The line that stands for a task in a task list file.
pub open spec fn task_line_spec(info: TaskListInfo) -> Seq<char> {
    match info.state {
        Some(st) => info.upid_str@ + " "@ + hex_chars(st@.1 as u64 as nat, 8) + " "@
            + status_text_spec(st@) + "\n"@,
        None => info.upid_str@ + "\n"@,
    }
}

/// The lines of all tasks of a list, in order.
pub open spec fn task_list_spec(list: Seq<TaskListInfo>) -> Seq<char>
    decreases list.len(),
{
    if list.len() == 0 {
        Seq::empty()
    } else {
        task_list_spec(list.drop_last()) + task_line_spec(list.last())
    }
}

/// Render one task list line.
pub fn render_task_line(info: &TaskListInfo) -> (r: String)
    ensures
        r@ == task_line_spec(*info),
{
    match &info.state {
        Some(status) => {
            let mut raw = concat(info.upid_str.as_str().to_owned(), " ");
            raw = concat(raw, hex8_string(status.endtime() as u64).as_str());
            raw = concat(raw, " ");
            raw = concat(raw, status.status_text().as_str());
            concat(raw, "\n")
        },
        None => concat(info.upid_str.as_str().to_owned(), "\n"),
    }
}

/// Render a task list file.
pub fn render_task_list(list: &[TaskListInfo]) -> (r: String)
    ensures
        r@ == task_list_spec(list@),
{
    let mut raw = String::new();
    let mut i: usize = 0;
    while i < list.len()
        invariant
            0 <= i <= list@.len(),
            raw@ == task_list_spec(list@.subrange(0, i as int)),
        decreases list@.len() - i,
    {
        raw = concat(raw, render_task_line(&list[i]).as_str());
        proof {
            let s = list@.subrange(0, i + 1);
            assert(s.drop_last() =~= list@.subrange(0, i as int));
        }
        i = i + 1;
    }
    assert(list@.subrange(0, i as int) =~= list@);
    raw
}

/// The epoch seconds of an RFC 3339 timestamp.
pub uninterp spec fn rfc3339_epoch(s: Seq<char>) -> Option<i64>;

/// Relies on `chrono::DateTime::parse_from_rfc3339`: the timestamp a text
/// stands for, which depends on the text alone (it carries its offset).
#[verifier::external_body]
fn parse_rfc3339(s: &str) -> (r: Option<i64>)
    ensures
        r == rfc3339_epoch(s@),
{
    chrono::DateTime::parse_from_rfc3339(s).ok().map(|t| t.timestamp())
}

/// The bytes after the last newline of `d` (all of `d` without one).
pub open spec fn after_last_newline(d: Seq<u8>) -> Seq<u8>
    decreases d.len(),
{
    if d.len() == 0 {
        d
    } else if d.last() == 10 {
        Seq::empty()
    } else {
        after_last_newline(d.drop_last()).push(d.last())
    }
}

/// The last line of a task log tail, without the one newline a log ends
/// with.
pub open spec fn last_line_spec(data: Seq<u8>) -> Seq<u8> {
    after_last_newline(
        if data.len() > 0 && data.last() == 10 {
            data.drop_last()
        } else {
            data
        },
    )
}

/// The last line of a task log tail.
pub fn last_log_line(data: &[u8]) -> (r: Vec<u8>)
    ensures
        r@ == last_line_spec(data@),
{
    let mut end = data.len();
    if end > 0 && data[end - 1] == 10 {
        end = end - 1;
    }
    let ghost d = data@.subrange(0, end as int);
    proof {
        if data@.len() > 0 && data@.last() == 10 {
            assert(d =~= data@.drop_last());
        } else {
            assert(d =~= data@);
        }
    }
    let mut pos = end;
    assert(d.subrange(0, pos as int) =~= d);
    assert(after_last_newline(d) =~= after_last_newline(d.subrange(0, pos as int)) + d.subrange(pos as int, end as int));
    while pos > 0
        invariant
            0 <= pos <= end <= data@.len(),
            d == data@.subrange(0, end as int),
            d == (if data@.len() > 0 && data@.last() == 10 {
                data@.drop_last()
            } else {
                data@
            }),
            after_last_newline(d) == after_last_newline(d.subrange(0, pos as int)) + d.subrange(pos as int, end as int),
        decreases pos,
    {
        let ghost pre = d.subrange(0, pos as int);
        assert(pre.drop_last() =~= d.subrange(0, pos - 1));
        assert(pre.last() == data@[pos - 1]);
        if data[pos - 1] == 10 {
            let r = crate::bytes::copy_range(data, pos, end);
            assert(r@ =~= d.subrange(pos as int, end as int));
            assert(after_last_newline(d) =~= r@);
            return r;
        }
        assert(after_last_newline(d.subrange(0, pos - 1)) + d.subrange(pos - 1, end as int) =~= after_last_newline(pre) + d.subrange(pos as int, end as int));
        pos = pos - 1;
    }
    assert(d.subrange(0, 0) =~= Seq::<u8>::empty());
    let r = crate::bytes::copy_range(data, 0, end);
    assert(r@ =~= d);
    r
}

/// The state a task log's last line records, `<time>: TASK <status>`;
/// without such a line, unknown at the task's start time.
pub open spec fn state_from_line_spec(line: Seq<char>, starttime: i64) -> TaskStateView {
    let unknown = (0nat, starttime, 0u64, Seq::<char>::empty());
    match first_match_of(line, ": "@) {
        None => unknown,
        Some(i) => match rfc3339_epoch(line.subrange(0, i)) {
            None => unknown,
            Some(endtime) => match rest_after(line.subrange(i + 2, line.len() as int), "TASK "@) {
                None => unknown,
                Some(m) => match parse_state_spec(endtime, m) {
                    Some(st) => st,
                    None => unknown,
                },
            },
        },
    }
}

/// Read a task's final state from the last line of its log.
pub fn task_state_from_last_line(line: &str, starttime: i64) -> (r: TaskState)
    ensures
        r@ == state_from_line_spec(line@, starttime),
{
    proof {
        reveal_strlit(": ");
    }
    let unknown = TaskState::Unknown { endtime: starttime };
    match split_once_str(line, ": ") {
        None => unknown,
        Some((time_str, rest)) => match parse_rfc3339(time_str.as_str()) {
            None => unknown,
            Some(endtime) => match strip_prefix(rest.as_str(), "TASK ") {
                None => unknown,
                Some(m) => match TaskState::from_endtime_and_message(endtime, m.as_str()) {
                    Ok(state) => state,
                    Err(_) => unknown,
                },
            },
        },
    }
}

/// The bookkeeping of a running task: its id, the warnings it logged and
/// whether an abort was requested. Logging itself is the caller's.
#[derive(Debug)]
pub struct WorkerTask {
    upid: UPID,
    warn_count: u64,
    abort_requested: bool,
}

/// The error a task fails with once an abort was requested.
pub open spec fn abort_message() -> Seq<char> {
    "abort requested — aborting task"@
}

impl WorkerTask {
    pub closed spec fn spec_upid(&self) -> UpidView {
        self.upid@
    }

    pub closed spec fn spec_warn_count(&self) -> u64 {
        self.warn_count
    }

    pub closed spec fn spec_abort_requested(&self) -> bool {
        self.abort_requested
    }

    /// A task that has logged nothing and was not asked to abort.
    pub fn new(upid: UPID) -> (r: Self)
        ensures
            r.spec_upid() == upid@,
            r.spec_warn_count() == 0,
            !r.spec_abort_requested(),
    {
        WorkerTask { upid, warn_count: 0, abort_requested: false }
    }

    /// The task's id.
    pub fn upid(&self) -> (r: &UPID)
        ensures
            r@ == self.spec_upid(),
    {
        &self.upid
    }

    /// Count a warning.
    pub fn warn(&mut self)
        ensures
            final(self).spec_warn_count() == if old(self).spec_warn_count() < u64::MAX {
                (old(self).spec_warn_count() + 1) as u64
            } else {
                u64::MAX
            },
            final(self).spec_upid() == old(self).spec_upid(),
            final(self).spec_abort_requested() == old(self).spec_abort_requested(),
    {
        if self.warn_count < u64::MAX {
            self.warn_count = self.warn_count + 1;
        }
    }

    /// Request the task to abort.
    pub fn request_abort(&mut self)
        ensures
            final(self).spec_abort_requested(),
            final(self).spec_upid() == old(self).spec_upid(),
            final(self).spec_warn_count() == old(self).spec_warn_count(),
    {
        self.abort_requested = true;
    }

    /// Whether an abort was requested.
    pub fn abort_requested(&self) -> (r: bool)
        ensures
            r == self.spec_abort_requested(),
    {
        self.abort_requested
    }

    /// Fail once an abort was requested.
    pub fn fail_on_abort(&self) -> (r: Result<(), String>)
        ensures
            self.spec_abort_requested() ==> r is Err && r->Err_0@ == abort_message(),
            !self.spec_abort_requested() ==> r is Ok,
    {
        if self.abort_requested {
            return Err("abort requested — aborting task".to_owned());
        }
        Ok(())
    }

    /// The final state of the task from its result: the error, or the
    /// warnings counted, or OK.
    pub fn create_state(&self, result: &Result<(), String>, endtime: i64) -> (r: TaskState)
        ensures
            match result {
                Err(m) => r@ == (3nat, endtime, 0u64, m@),
                Ok(()) => if self.spec_warn_count() > 0 {
                    r@ == (2nat, endtime, self.spec_warn_count(), Seq::<char>::empty())
                } else {
                    r@ == (1nat, endtime, 0u64, Seq::<char>::empty())
                },
            },
    {
        match result {
            Err(m) => TaskState::Error { message: m.clone(), endtime },
            Ok(()) => {
                if self.warn_count > 0 {
                    TaskState::Warning { count: self.warn_count, endtime }
                } else {
                    TaskState::OK { endtime }
                }
            },
        }
    }
}

/// Most tasks kept in the index file; older finished tasks go to the archive.
pub const MAX_INDEX_TASKS: usize = 1000;

/// The order of finished task lists: tasks with a state by end time, then
/// tasks without one by start time.
pub open spec fn task_key(info: TaskListInfo) -> (int, int) {
    match info.state {
        Some(st) => (0, st@.1 as int),
        None => (1, info.upid.starttime as int),
    }
}

pub open spec fn key_le(a: TaskListInfo, b: TaskListInfo) -> bool {
    let ka = task_key(a);
    let kb = task_key(b);
    ka.0 < kb.0 || (ka.0 == kb.0 && ka.1 <= kb.1)
}

pub open spec fn sorted_tasks(s: Seq<TaskListInfo>) -> bool {
    forall|i: int| 0 <= i < s.len() - 1 ==> key_le(#[trigger] s[i], s[i + 1])
}

/// `x` inserted into a sorted list after all tasks that do not come after it.
pub open spec fn insert_spec(s: Seq<TaskListInfo>, x: TaskListInfo) -> Seq<TaskListInfo>
    decreases s.len(),
{
    if s.len() == 0 {
        seq![x]
    } else if key_le(s.last(), x) {
        s.push(x)
    } else {
        insert_spec(s.drop_last(), x).push(s.last())
    }
}

/// A stable sort of a task list by `task_key`.
pub open spec fn sort_spec(s: Seq<TaskListInfo>) -> Seq<TaskListInfo>
    decreases s.len(),
{
    if s.len() == 0 {
        s
    } else {
        insert_spec(sort_spec(s.drop_last()), s.last())
    }
}

/// The state recorded for a task found stopped: what its log says, or
/// `Unknown` at `now` where the log gave nothing.
pub open spec fn stopped_state(status: Option<TaskState>, now: i64) -> TaskState {
    match status {
        Some(st) => st,
        None => TaskState::Unknown { endtime: now },
    }
}

/// Active tasks split into those still running and those finished: a task
/// with a state is finished; a task without one is finished when its
/// process is gone, with the state `status` gives.
pub open spec fn partition_spec(
    active: Seq<TaskListInfo>,
    alive: Seq<bool>,
    status: Seq<Option<TaskState>>,
    now: i64,
) -> (Seq<TaskListInfo>, Seq<TaskListInfo>)
    decreases active.len(),
{
    if active.len() == 0 {
        (Seq::empty(), Seq::empty())
    } else {
        let (k, m) = partition_spec(active.drop_last(), alive.drop_last(), status.drop_last(), now);
        let a = active.last();
        if a.state is Some {
            (k, m.push(a))
        } else if !alive.last() {
            (
                k,
                m.push(
                    TaskListInfo {
                        upid: a.upid,
                        upid_str: a.upid_str,
                        state: Some(stopped_state(status.last(), now)),
                    },
                ),
            )
        } else {
            (k.push(a), m)
        }
    }
}

/// The task lists after reconciliation: the running tasks, and all
/// finished tasks sorted.
pub open spec fn reconcile_spec(
    finished: Seq<TaskListInfo>,
    active: Seq<TaskListInfo>,
    alive: Seq<bool>,
    status: Seq<Option<TaskState>>,
    now: i64,
) -> (Seq<TaskListInfo>, Seq<TaskListInfo>) {
    let (k, m) = partition_spec(active, alive, status, now);
    (k, sort_spec(finished + m))
}

/// A sorted finished list cut into the part for the archive (the oldest)
/// and the part for the index (at most `MAX_INDEX_TASKS`, the newest).
pub open spec fn split_spec(s: Seq<TaskListInfo>) -> (Seq<TaskListInfo>, Seq<TaskListInfo>) {
    let start = if s.len() > 1000 {
        s.len() - 1000
    } else {
        0
    };
    (s.subrange(0, start), s.subrange(start, s.len() as int))
}

fn task_key_le(a: &TaskListInfo, b: &TaskListInfo) -> (r: bool)
    ensures
        r == key_le(*a, *b),
{
    let (ga, ta) = match &a.state {
        Some(st) => (0u8, st.endtime()),
        None => (1u8, a.upid.starttime),
    };
    let (gb, tb) = match &b.state {
        Some(st) => (0u8, st.endtime()),
        None => (1u8, b.upid.starttime),
    };
    ga < gb || (ga == gb && ta <= tb)
}

proof fn lemma_insert_at(s: Seq<TaskListInfo>, x: TaskListInfo, j: int)
    requires
        0 <= j <= s.len(),
        forall|i: int| j <= i < s.len() ==> !key_le(#[trigger] s[i], x),
        j > 0 ==> key_le(s[j - 1], x),
    ensures
        insert_spec(s, x) == s.insert(j, x),
    decreases s.len(),
{
    if s.len() == j {
        assert(s.insert(j, x) =~= s.push(x));
    } else {
        assert(!key_le(s[s.len() - 1], x));
        lemma_insert_at(s.drop_last(), x, j);
        assert(s.drop_last().insert(j, x).push(s.last()) =~= s.insert(j, x));
    }
}

proof fn lemma_insert_sorted(s: Seq<TaskListInfo>, x: TaskListInfo)
    requires
        sorted_tasks(s),
    ensures
        sorted_tasks(insert_spec(s, x)),
        insert_spec(s, x).last() == x || (s.len() > 0 && insert_spec(s, x).last() == s.last()),
        insert_spec(s, x).len() == s.len() + 1,
    decreases s.len(),
{
    if s.len() == 0 {
    } else if key_le(s.last(), x) {
        let t = s.push(x);
        assert forall|i: int| 0 <= i < t.len() - 1 implies key_le(#[trigger] t[i], t[i + 1]) by {
            if i < s.len() - 1 {
                assert(t[i] == s[i] && t[i + 1] == s[i + 1]);
            }
        }
    } else {
        let d = s.drop_last();
        assert(sorted_tasks(d)) by {
            assert forall|i: int| 0 <= i < d.len() - 1 implies key_le(#[trigger] d[i], d[i + 1]) by {
                assert(d[i] == s[i] && d[i + 1] == s[i + 1]);
            }
        }
        lemma_insert_sorted(d, x);
        let t0 = insert_spec(d, x);
        let t = t0.push(s.last());
        assert(key_le(t0.last(), s.last())) by {
            if t0.last() != x {
                assert(s[s.len() - 2] == d.last());
                assert(key_le(s[s.len() - 2], s[s.len() - 1]));
            }
        }
        assert forall|i: int| 0 <= i < t.len() - 1 implies key_le(#[trigger] t[i], t[i + 1]) by {
            if i < t0.len() - 1 {
                assert(t[i] == t0[i] && t[i + 1] == t0[i + 1]);
            }
        }
    }
}

proof fn lemma_sort_sorted(s: Seq<TaskListInfo>)
    ensures
        sorted_tasks(sort_spec(s)),
        sort_spec(s).len() == s.len(),
    decreases s.len(),
{
    if s.len() > 0 {
        lemma_sort_sorted(s.drop_last());
        lemma_insert_sorted(sort_spec(s.drop_last()), s.last());
    }
}

proof fn lemma_sort_of_sorted(s: Seq<TaskListInfo>)
    requires
        sorted_tasks(s),
    ensures
        sort_spec(s) == s,
    decreases s.len(),
{
    if s.len() > 0 {
        let d = s.drop_last();
        assert(sorted_tasks(d)) by {
            assert forall|i: int| 0 <= i < d.len() - 1 implies key_le(#[trigger] d[i], d[i + 1]) by {
                assert(d[i] == s[i] && d[i + 1] == s[i + 1]);
            }
        }
        lemma_sort_of_sorted(d);
        if d.len() > 0 {
            assert(key_le(s[s.len() - 2], s[s.len() - 1]));
        }
        assert(d.push(s.last()) =~= s);
    }
}

/// Sort a task list: finished tasks by end time first, then unfinished
/// ones by start time; tasks with equal keys keep their order.
pub fn sort_task_list(list: Vec<TaskListInfo>) -> (r: Vec<TaskListInfo>)
    ensures
        r@ == sort_spec(list@),
        sorted_tasks(r@),
{
    let ghost orig = list@;
    let mut list = list;
    let mut result: Vec<TaskListInfo> = Vec::new();
    let ghost mut k: int = 0;
    while list.len() > 0
        invariant
            0 <= k <= orig.len(),
            list@ == orig.subrange(k, orig.len() as int),
            result@ == sort_spec(orig.subrange(0, k)),
        decreases list@.len(),
    {
        let x = list.remove(0);
        proof {
            lemma_sort_sorted(orig.subrange(0, k));
        }
        let mut j: usize = result.len();
        while j > 0 && !task_key_le(&result[j - 1], &x)
            invariant
                0 <= j <= result@.len(),
                forall|i: int| j <= i < result@.len() ==> !key_le(#[trigger] result@[i], x),
            decreases j,
        {
            j = j - 1;
        }
        proof {
            lemma_insert_at(result@, x, j as int);
            let s = orig.subrange(0, k + 1);
            assert(s.drop_last() =~= orig.subrange(0, k));
            assert(s.last() == x);
        }
        result.insert(j, x);
        proof {
            k = k + 1;
            assert(list@ =~= orig.subrange(k, orig.len() as int));
        }
    }
    proof {
        assert(orig.subrange(0, k) =~= orig);
        lemma_sort_sorted(orig);
    }
    result
}

/// Reconcile the task lists: move every active task that has a state, or
/// whose process is gone (`alive[i]` false), to the finished tasks with
/// the state read from its log (`status[i]`, `Unknown` at `now` where
/// none could be read), then sort the finished tasks. `new_task` joins
/// the running tasks.
pub fn reconcile_task_lists(
    finished: Vec<TaskListInfo>,
    active: Vec<TaskListInfo>,
    alive: &[bool],
    status: Vec<Option<TaskState>>,
    now: i64,
    new_task: Option<TaskListInfo>,
) -> (r: (Vec<TaskListInfo>, Vec<TaskListInfo>))
    requires
        alive@.len() == active@.len(),
        status@.len() == active@.len(),
    ensures
        ({
            let (k, f) = reconcile_spec(finished@, active@, alive@, status@, now);
            &&& r.1@ == f
            &&& match new_task {
                Some(t) => r.0@ == k.push(t),
                None => r.0@ == k,
            }
        }),
{
    let ghost a0 = active@;
    let ghost f0 = finished@;
    let ghost s0 = status@;
    let mut finish_list = finished;
    let mut kept: Vec<TaskListInfo> = Vec::new();
    let mut active = active;
    let mut status = status;
    let alen = alive.len();
    let mut i: usize = 0;
    while active.len() > 0
        invariant
            alen == alive@.len(),
            0 <= i <= a0.len(),
            a0.len() == alive@.len(),
            active@ == a0.subrange(i as int, a0.len() as int),
            status@.len() == active@.len(),
            ({
                let (k, m) = partition_spec(
                    a0.subrange(0, i as int),
                    alive@.subrange(0, i as int),
                    s0.subrange(0, i as int),
                    now,
                );
                kept@ == k && finish_list@ == f0 + m
            }),
            status@ == s0.subrange(i as int, a0.len() as int),
            s0.len() == a0.len(),
        decreases active@.len(),
    {
        let info = active.remove(0);
        let st = status.remove(0);
        proof {
            let ai = a0.subrange(0, i + 1);
            assert(ai.drop_last() =~= a0.subrange(0, i as int));
            assert(alive@.subrange(0, i + 1).drop_last() =~= alive@.subrange(0, i as int));
            assert(s0.subrange(0, i + 1).drop_last() =~= s0.subrange(
                0,
                i as int,
            ));
            assert(ai.last() == info);
            assert(s0.subrange(0, i + 1).last() == st);
        }
        if info.state.is_some() {
            finish_list.push(info);
        } else if !alive[i] {
            let state = match st {
                Some(s) => s,
                None => TaskState::Unknown { endtime: now },
            };
            finish_list.push(TaskListInfo { upid: info.upid, upid_str: info.upid_str, state: Some(state) });
        } else {
            kept.push(info);
        }
        proof {
            let (k, m) = partition_spec(
                a0.subrange(0, i as int),
                alive@.subrange(0, i as int),
                s0.subrange(0, i as int),
                now,
            );
            assert((f0 + m).push(finish_list@.last()) =~= f0 + m.push(finish_list@.last())) ;
        }
        i = i + 1;
        proof {
            assert(active@ =~= a0.subrange(i as int, a0.len() as int));
            assert(status@ =~= s0.subrange(i as int, a0.len() as int));
        }
    }
    proof {
        assert(a0.subrange(0, i as int) =~= a0);
        assert(alive@.subrange(0, i as int) =~= alive@);
        assert(s0.subrange(0, i as int) =~= s0);
    }
    if let Some(t) = new_task {
        kept.push(t);
    }
    (kept, sort_task_list(finish_list))
}

/// Cut a sorted finished list into the archive part and the index part
/// (see `split_spec`).
pub fn split_index_archive(list: Vec<TaskListInfo>) -> (r: (Vec<TaskListInfo>, Vec<TaskListInfo>))
    ensures
        r.0@ == split_spec(list@).0,
        r.1@ == split_spec(list@).1,
{
    let ghost orig = list@;
    let start: usize = if list.len() > MAX_INDEX_TASKS {
        list.len() - MAX_INDEX_TASKS
    } else {
        0
    };
    let mut archive = list;
    let index = archive.split_off(start);
    proof {
        assert(archive@ =~= orig.subrange(0, start as int));
        assert(index@ =~= orig.subrange(start as int, orig.len() as int));
    }
    (archive, index)
}

proof fn lemma_partition_kept_unfinished(
    active: Seq<TaskListInfo>,
    alive: Seq<bool>,
    status: Seq<Option<TaskState>>,
    now: i64,
)
    requires
        alive.len() == active.len(),
        status.len() == active.len(),
    ensures
        forall|i: int|
            0 <= i < partition_spec(active, alive, status, now).0.len() ==> (#[trigger] partition_spec(
                active,
                alive,
                status,
                now,
            ).0[i]).state is None,
    decreases active.len(),
{
    if active.len() > 0 {
        lemma_partition_kept_unfinished(active.drop_last(), alive.drop_last(), status.drop_last(), now);
    }
}

proof fn lemma_partition_all_running(
    active: Seq<TaskListInfo>,
    alive: Seq<bool>,
    status: Seq<Option<TaskState>>,
    now: i64,
)
    requires
        alive.len() == active.len(),
        status.len() == active.len(),
        forall|i: int| 0 <= i < active.len() ==> (#[trigger] active[i]).state is None,
        forall|i: int| 0 <= i < alive.len() ==> #[trigger] alive[i],
    ensures
        partition_spec(active, alive, status, now) == (active, Seq::<TaskListInfo>::empty()),
    decreases active.len(),
{
    if active.len() > 0 {
        let d = active.drop_last();
        assert forall|i: int| 0 <= i < d.len() implies (#[trigger] d[i]).state is None by {
            assert(d[i] == active[i]);
        }
        let ad = alive.drop_last();
        assert forall|i: int| 0 <= i < ad.len() implies #[trigger] ad[i] by {
            assert(ad[i] == alive[i]);
        }
        assert(alive.last() == alive[alive.len() - 1]);
        assert(active.last().state is None) by {
            assert(active.last() == active[active.len() - 1]);
        }
        lemma_partition_all_running(d, ad, status.drop_last(), now);
        assert(d.push(active.last()) =~= active);
    }
}

/// Reconciling twice in a row does what reconciling once does: after one
/// run, with the tasks that were kept as running still alive, a second run
/// over the written index and active lists keeps the running tasks, leaves
/// the index list as it was, and sends nothing to the archive.
pub proof fn lemma_reconcile_idempotent(
    finished: Seq<TaskListInfo>,
    active: Seq<TaskListInfo>,
    alive: Seq<bool>,
    status: Seq<Option<TaskState>>,
    now: i64,
    alive2: Seq<bool>,
    status2: Seq<Option<TaskState>>,
    now2: i64,
)
    requires
        alive.len() == active.len(),
        status.len() == active.len(),
        alive2.len() == reconcile_spec(finished, active, alive, status, now).0.len(),
        status2.len() == alive2.len(),
        forall|i: int| 0 <= i < alive2.len() ==> #[trigger] alive2[i],
    ensures
        ({
            let (a1, f1) = reconcile_spec(finished, active, alive, status, now);
            let idx = split_spec(f1).1;
            let (a2, f2) = reconcile_spec(idx, a1, alive2, status2, now2);
            &&& a2 == a1
            &&& f2 == idx
            &&& split_spec(f2).0.len() == 0
            &&& split_spec(f2).1 == idx
        }),
{
    let (a1, f1) = reconcile_spec(finished, active, alive, status, now);
    let (k, m) = partition_spec(active, alive, status, now);
    lemma_partition_kept_unfinished(active, alive, status, now);
    lemma_partition_all_running(a1, alive2, status2, now2);
    lemma_sort_sorted(finished + m);
    let idx = split_spec(f1).1;
    assert(sorted_tasks(idx)) by {
        let start = if f1.len() > 1000 {
            f1.len() - 1000
        } else {
            0
        };
        assert forall|i: int| 0 <= i < idx.len() - 1 implies key_le(#[trigger] idx[i], idx[i + 1]) by {
            assert(idx[i] == f1[start + i] && idx[i + 1] == f1[start + i + 1]);
        }
    }
    assert(idx + Seq::<TaskListInfo>::empty() =~= idx);
    lemma_sort_of_sorted(idx);
    assert(idx.subrange(0, idx.len() as int) =~= idx);
}

} // verus!
