//! The control socket's protocol: what a request line asks for and the
//! text answered, each answer framed by an end marker.
use crate::commands::{command_templates, command_templates_list, status_lines, status_lines_of};
use crate::common::{ToastEvent, ToastTone};
use crate::config::{strs, Group, Project};
use crate::engine::ProcessStatus;
use crate::text::{
    append_chars, chars_of, concat2, concat3, concat4, copy_str, eq_str, join_with, joined_with,
    string_of, trim, trim_end, views, words, words_of,
};
use vstd::prelude::*;

verus! {

/// Where the control socket listens.
pub open spec fn socket_path() -> Seq<char> {
    "/tmp/matrix-control.sock"@
}

pub fn socket_path_text() -> (r: String)
    ensures
        r@ == socket_path(),
{
    copy_str("/tmp/matrix-control.sock")
}

/// What a request asks for.
pub enum SocketRequest {
    /// Answer this text at once (a usage or unknown-command error).
    Reply(String),
    Start(String),
    Stop(String),
    Restart(String),
    Status,
    GroupStart(String),
    GroupStop(String),
    Groups,
    Projects,
    Help,
}

pub enum RequestView {
    Reply(Seq<char>),
    Start(Seq<char>),
    Stop(Seq<char>),
    Restart(Seq<char>),
    Status,
    GroupStart(Seq<char>),
    GroupStop(Seq<char>),
    Groups,
    Projects,
    Help,
}

impl SocketRequest {
    pub open spec fn view(&self) -> RequestView {
        match self {
            SocketRequest::Reply(t) => RequestView::Reply(t@),
            SocketRequest::Start(i) => RequestView::Start(i@),
            SocketRequest::Stop(i) => RequestView::Stop(i@),
            SocketRequest::Restart(i) => RequestView::Restart(i@),
            SocketRequest::Status => RequestView::Status,
            SocketRequest::GroupStart(g) => RequestView::GroupStart(g@),
            SocketRequest::GroupStop(g) => RequestView::GroupStop(g@),
            SocketRequest::Groups => RequestView::Groups,
            SocketRequest::Projects => RequestView::Projects,
            SocketRequest::Help => RequestView::Help,
        }
    }
}

/// What the request line with words `parts` asks for.
pub open spec fn request_of(parts: Seq<Seq<char>>) -> RequestView {
    if parts.len() == 0 {
        RequestView::Reply("ERROR: empty command"@)
    } else if parts[0] == "start"@ {
        if parts.len() < 2 {
            RequestView::Reply("ERROR: usage: start <project_id>"@)
        } else {
            RequestView::Start(parts[1])
        }
    } else if parts[0] == "stop"@ {
        if parts.len() < 2 {
            RequestView::Reply("ERROR: usage: stop <project_id>"@)
        } else {
            RequestView::Stop(parts[1])
        }
    } else if parts[0] == "restart"@ {
        if parts.len() < 2 {
            RequestView::Reply("ERROR: usage: restart <project_id>"@)
        } else {
            RequestView::Restart(parts[1])
        }
    } else if parts[0] == "status"@ {
        RequestView::Status
    } else if parts[0] == "group"@ {
        if parts.len() < 3 {
            RequestView::Reply("ERROR: usage: group <start|stop> <group_id>"@)
        } else if parts[1] == "start"@ {
            RequestView::GroupStart(parts[2])
        } else if parts[1] == "stop"@ {
            RequestView::GroupStop(parts[2])
        } else {
            RequestView::Reply("ERROR: usage: group <start|stop> <group_id>"@)
        }
    } else if parts[0] == "groups"@ {
        RequestView::Groups
    } else if parts[0] == "projects"@ {
        RequestView::Projects
    } else if parts[0] == "help"@ {
        RequestView::Help
    } else {
        RequestView::Reply("ERROR: unknown command '"@ + parts[0] + "'. Type 'help' for usage."@)
    }
}

/// What the request line `cmd` asks for.
pub fn parse_request(cmd: &str) -> (r: SocketRequest)
    ensures
        r.view() == request_of(words(cmd@)),
{
    let parts = words_of(cmd);
    let ghost pv = parts@.map_values(|w: String| w@);
    if parts.len() == 0 {
        return SocketRequest::Reply(copy_str("ERROR: empty command"));
    }
    let c = chars_of(parts[0].as_str());
    assert(pv[0] == c@);
    let head = c.as_slice();
    if eq_str(head, "start") {
        if parts.len() < 2 {
            SocketRequest::Reply(copy_str("ERROR: usage: start <project_id>"))
        } else {
            SocketRequest::Start(parts[1].clone())
        }
    } else if eq_str(head, "stop") {
        if parts.len() < 2 {
            SocketRequest::Reply(copy_str("ERROR: usage: stop <project_id>"))
        } else {
            SocketRequest::Stop(parts[1].clone())
        }
    } else if eq_str(head, "restart") {
        if parts.len() < 2 {
            SocketRequest::Reply(copy_str("ERROR: usage: restart <project_id>"))
        } else {
            SocketRequest::Restart(parts[1].clone())
        }
    } else if eq_str(head, "status") {
        SocketRequest::Status
    } else if eq_str(head, "group") {
        if parts.len() < 3 {
            return SocketRequest::Reply(copy_str("ERROR: usage: group <start|stop> <group_id>"));
        }
        let a = chars_of(parts[1].as_str());
        assert(pv[1] == a@);
        if eq_str(a.as_slice(), "start") {
            SocketRequest::GroupStart(parts[2].clone())
        } else if eq_str(a.as_slice(), "stop") {
            SocketRequest::GroupStop(parts[2].clone())
        } else {
            SocketRequest::Reply(copy_str("ERROR: usage: group <start|stop> <group_id>"))
        }
    } else if eq_str(head, "groups") {
        SocketRequest::Groups
    } else if eq_str(head, "projects") {
        SocketRequest::Projects
    } else if eq_str(head, "help") {
        SocketRequest::Help
    } else {
        SocketRequest::Reply(
            concat3("ERROR: unknown command '", parts[0].as_str(), "'. Type 'help' for usage."),
        )
    }
}

/// A request line as served: surrounding whitespace is ignored and a blank
/// line gets no answer.
pub fn request_line(line: &str) -> (r: Option<String>)
    ensures
        match r {
            Some(t) => t@ == trim(line@) && t@.len() > 0,
            None => trim(line@).len() == 0,
        },
{
    let t = crate::text::trim_chars(chars_of(line).as_slice());
    if t.len() == 0 {
        None
    } else {
        Some(string_of(t.as_slice()))
    }
}

/// An answer as written to the client: the text, a newline, and the end
/// marker line, so the client can stop reading without waiting for the
/// connection to close.
pub open spec fn framed(response: Seq<char>) -> Seq<char> {
    response + "\n"@ + "--END--\n"@
}

pub fn frame_response(response: &str) -> (r: String)
    ensures
        r@ == framed(response@),
{
    concat3(response, "\n", "--END--\n")
}

/// `s` with every trailing copy of `suffix` removed (`str::trim_end_matches`).
pub open spec fn without_suffixes(s: Seq<char>, suffix: Seq<char>) -> Seq<char>
    decreases s.len(),
{
    if suffix.len() > 0 && crate::text::ends_with(s, suffix) {
        without_suffixes(s.take(s.len() - suffix.len()), suffix)
    } else {
        s
    }
}

/// What a client prints of an answer it read: the text before the end
/// marker, without trailing whitespace.
pub open spec fn unframed(read: Seq<char>) -> Seq<char> {
    trim_end(without_suffixes(trim_end(read), "--END--"@))
}

fn trim_end_vec(s: &[char]) -> (r: Vec<char>)
    ensures
        r@ == trim_end(s@),
{
    let mut j: usize = s.len();
    while j > 0 && crate::text::is_whitespace(s[j - 1])
        invariant
            j <= s@.len(),
            forall|k: int| j <= k < s@.len() ==> crate::text::is_ws(#[trigger] s@[k]),
        decreases j,
    {
        j = j - 1;
    }
    proof {
        crate::text::lemma_trim_end_skip(s@, j as int);
        let w = s@.subrange(0, j as int);
        if w.len() > 0 {
            assert(w.last() == s@[j - 1]);
        }
    }
    crate::text::slice_vec(s, 0, j)
}

/// The text of an answer read by a client, up to the end marker.
pub fn unframe_response(read: &str) -> (r: String)
    ensures
        r@ == unframed(read@),
{
    let a = trim_end_vec(chars_of(read).as_slice());
    let marker = chars_of("--END--");
    proof {
        reveal_strlit("--END--");
    }
    let mut v = a;
    while crate::text::has_suffix(v.as_slice(), marker.as_slice())
        invariant
            marker@ == "--END--"@,
            marker@.len() == 7,
            without_suffixes(v@, "--END--"@) == without_suffixes(trim_end(read@), "--END--"@),
        decreases v@.len(),
    {
        let n = v.len() - marker.len();
        let ghost before = v@;
        v = crate::text::slice_vec(v.as_slice(), 0, n);
        assert(v@ =~= before.take(before.len() - 7));
    }
    string_of(trim_end_vec(v.as_slice()).as_slice())
}

/// What a client prints of a framed answer is the answer without its
/// trailing whitespace: the end marker never reaches the user and nothing
/// of the answer is lost.
pub proof fn law_unframe_undoes_frame(response: Seq<char>)
    ensures
        unframed(framed(response)) == trim_end(response),
{
    reveal_strlit("\n");
    reveal_strlit("--END--\n");
    reveal_strlit("--END--");
    let f = framed(response);
    let body = response + "\n"@ + "--END--"@;
    assert(f.drop_last() =~= body);
    assert(crate::text::is_ws(f.last()));
    assert(trim_end(f) == trim_end(body));
    assert(!crate::text::is_ws(body.last()));
    assert(trim_end(body) == body);
    let head = response + "\n"@;
    assert(body.skip(body.len() - 7) =~= "--END--"@);
    assert(body.take(body.len() - 7) =~= head);
    assert(!crate::text::ends_with(head, "--END--"@)) by {
        assert(head.last() == '\n');
        if head.len() >= 7 {
            assert(head.skip(head.len() - 7).last() == '\n');
        }
    }
    assert(without_suffixes(head, "--END--"@) == head);
    assert(without_suffixes(body, "--END--"@) == head);
    assert(head.drop_last() =~= response);
    assert(crate::text::is_ws(head.last()));
}

/// A toast raised by a socket request.
pub open spec fn socket_toast(t: ToastEvent, message: Seq<char>, tone: ToastTone) -> bool {
    t.source@ == "socket"@ && t.message@ == message && t.tone == tone
}

fn toast(message: String, tone: ToastTone) -> (t: ToastEvent)
    ensures
        t.source@ == "socket"@,
        t.message@ == message@,
        t.tone == tone,
{
    ToastEvent { source: copy_str("socket"), message, tone }
}

/// The answer and toast of `start <id>` (or `restart <id>` when `restart`).
pub fn start_reply(id: &str, restart: bool, result: &Result<(), String>) -> (r: (String, ToastEvent))
    ensures
        match result {
            Ok(()) => if restart {
                r.0@ == "OK: restarted "@ + id@ && socket_toast(r.1, "restarted "@ + id@, ToastTone::Success)
            } else {
                r.0@ == "OK: started "@ + id@ && socket_toast(r.1, "started "@ + id@, ToastTone::Success)
            },
            Err(e) => if restart {
                r.0@ == "ERROR: failed to restart "@ + id@ + ": "@ + e@ && socket_toast(
                    r.1,
                    "failed to restart "@ + id@ + ": "@ + e@,
                    ToastTone::Error,
                )
            } else {
                r.0@ == "ERROR: failed to start "@ + id@ + ": "@ + e@ && socket_toast(
                    r.1,
                    "failed to start "@ + id@ + ": "@ + e@,
                    ToastTone::Error,
                )
            },
        },
{
    match result {
        Ok(()) => {
            if restart {
                (concat2("OK: restarted ", id), toast(concat2("restarted ", id), ToastTone::Success))
            } else {
                (concat2("OK: started ", id), toast(concat2("started ", id), ToastTone::Success))
            }
        },
        Err(e) => {
            if restart {
                (
                    concat4("ERROR: failed to restart ", id, ": ", e.as_str()),
                    toast(concat4("failed to restart ", id, ": ", e.as_str()), ToastTone::Error),
                )
            } else {
                (
                    concat4("ERROR: failed to start ", id, ": ", e.as_str()),
                    toast(concat4("failed to start ", id, ": ", e.as_str()), ToastTone::Error),
                )
            }
        },
    }
}

/// The answer and toast of `stop <id>`.
pub fn stop_reply(id: &str) -> (r: (String, ToastEvent))
    ensures
        r.0@ == "OK: stopped "@ + id@,
        socket_toast(r.1, "stopped "@ + id@, ToastTone::Success),
{
    (concat2("OK: stopped ", id), toast(concat2("stopped ", id), ToastTone::Success))
}

/// The answer and toast of `group start <g>`.
pub fn group_start_reply(g: &str, result: &Result<(), String>) -> (r: (String, ToastEvent))
    ensures
        match result {
            Ok(()) => r.0@ == "OK: group "@ + g@ + " started"@ && socket_toast(
                r.1,
                "group "@ + g@ + " started"@,
                ToastTone::Success,
            ),
            Err(e) => r.0@ == "ERROR: "@ + e@ && socket_toast(
                r.1,
                "group "@ + g@ + " failed: "@ + e@,
                ToastTone::Error,
            ),
        },
{
    match result {
        Ok(()) => (concat3("OK: group ", g, " started"), toast(concat3("group ", g, " started"), ToastTone::Success)),
        Err(e) => (
            concat2("ERROR: ", e.as_str()),
            toast(concat4("group ", g, " failed: ", e.as_str()), ToastTone::Error),
        ),
    }
}

/// The answer and toast of `group stop <g>`.
pub fn group_stop_reply(g: &str) -> (r: (String, ToastEvent))
    ensures
        r.0@ == "OK: group "@ + g@ + " stopped"@,
        socket_toast(r.1, "group "@ + g@ + " stopped"@, ToastTone::Success),
{
    (concat3("OK: group ", g, " stopped"), toast(concat3("group ", g, " stopped"), ToastTone::Success))
}

/// A list answer: `OK: <empty>` when there is nothing, else `OK:` and the
/// lines.
pub open spec fn list_answer(lines: Seq<Seq<char>>, empty: Seq<char>) -> Seq<char> {
    if lines.len() == 0 {
        "OK: "@ + empty
    } else {
        "OK:\n"@ + joined_with(lines, "\n"@)
    }
}

fn answer_list(lines: &Vec<Vec<char>>, empty: &str) -> (r: String)
    ensures
        r@ == list_answer(views(lines@), empty@),
{
    if lines.len() == 0 {
        return concat2("OK: ", empty);
    }
    let j = join_with(lines.as_slice(), chars_of("\n").as_slice());
    concat2("OK:\n", string_of(j.as_slice()).as_str())
}

/// The answer of `status`: a line per process.
pub fn status_reply(st: &[(Project, ProcessStatus)]) -> (r: String)
    ensures
        r@ == list_answer(status_lines(st@), "no projects"@),
{
    let lines = status_lines_of(st);
    answer_list(&lines, "no projects")
}

/// The answer of `groups`: `id (name)` per group.
pub fn groups_reply(groups: &[Group]) -> (r: String)
    ensures
        r@ == list_answer(groups@.map_values(|g: Group| crate::commands::group_label(g)), "no groups"@),
{
    let lines = crate::commands::group_labels(groups);
    answer_list(&lines, "no groups")
}

/// `id: name` of a project, `-` when it has no name.
pub open spec fn project_line(p: Project) -> Seq<char> {
    p.id@ + ": "@ + match p.name {
        Some(n) => n@,
        None => "-"@,
    }
}

/// The answer of `projects`: `id: name` per project.
pub fn projects_reply(projects: &[Project]) -> (r: String)
    ensures
        r@ == list_answer(projects@.map_values(|p: Project| project_line(p)), "no projects"@),
{
    let mut lines: Vec<Vec<char>> = Vec::new();
    let mut i: usize = 0;
    while i < projects.len()
        invariant
            i <= projects@.len(),
            views(lines@) == projects@.take(i as int).map_values(|p: Project| project_line(p)),
        decreases projects@.len() - i,
    {
        let p = &projects[i];
        let l = match &p.name {
            Some(n) => concat3(p.id.as_str(), ": ", n.as_str()),
            None => concat3(p.id.as_str(), ": ", "-"),
        };
        let ghost before = views(lines@);
        lines.push(chars_of(l.as_str()));
        assert(views(lines@) =~= before.push(project_line(*p)));
        assert(projects@.take(i + 1).map_values(|p: Project| project_line(p)) =~= projects@.take(
            i as int,
        ).map_values(|p: Project| project_line(p)).push(project_line(projects@[i as int])));
        i = i + 1;
    }
    assert(projects@.take(projects@.len() as int) =~= projects@);
    answer_list(&lines, "no projects")
}

/// A command and its usage pieces, trimmed and run together, as `help`
/// lists it.
pub open spec fn help_entry(e: (Seq<char>, Seq<Seq<char>>)) -> Seq<char> {
    e.0 + " "@ + joined_with(e.1.map_values(|p: Seq<char>| trim(p)), Seq::empty())
}

/// The answer of `help`.
pub open spec fn help_answer() -> Seq<char> {
    "OK: commands:\n"@ + joined_with(command_templates().map_values(|e: (Seq<char>, Seq<Seq<char>>)| help_entry(e)), "\n"@)
}

pub fn help_reply() -> (r: String)
    ensures
        r@ == help_answer(),
{
    let ts = command_templates_list();
    let ghost ct = command_templates();
    let mut entries: Vec<Vec<char>> = Vec::new();
    let mut i: usize = 0;
    while i < ts.len()
        invariant
            i <= ts@.len(),
            ts@.len() == ct.len(),
            ct == command_templates(),
            forall|j: int|
                0 <= j < ts@.len() ==> (#[trigger] ts@[j]).0@ == ct[j].0 && strs(ts@[j].1@) == ct[j].1,
            views(entries@) == ct.take(i as int).map_values(|e: (Seq<char>, Seq<Seq<char>>)| help_entry(e)),
        decreases ts@.len() - i,
    {
        let pieces = &ts[i].1;
        let mut trimmed: Vec<Vec<char>> = Vec::new();
        let mut k: usize = 0;
        while k < pieces.len()
            invariant
                k <= pieces@.len(),
                views(trimmed@) == strs(pieces@).take(k as int).map_values(|p: Seq<char>| trim(p)),
            decreases pieces@.len() - k,
        {
            let ghost before = views(trimmed@);
            trimmed.push(crate::text::trim_chars(chars_of(pieces[k].as_str()).as_slice()));
            assert(views(trimmed@) =~= before.push(trim(pieces@[k as int]@)));
            assert(strs(pieces@).take(k + 1).map_values(|p: Seq<char>| trim(p)) =~= strs(pieces@).take(
                k as int,
            ).map_values(|p: Seq<char>| trim(p)).push(trim(pieces@[k as int]@)));
            k = k + 1;
        }
        assert(strs(pieces@).take(pieces@.len() as int) =~= strs(pieces@));
        let mut e = chars_of(ts[i].0.as_str());
        e.push(' ');
        let nothing: Vec<char> = Vec::new();
        let u = join_with(trimmed.as_slice(), nothing.as_slice());
        append_chars(&mut e, u.as_slice());
        proof {
            reveal_strlit(" ");
            assert(nothing@ =~= Seq::<char>::empty());
            assert(e@ =~= help_entry(ct[i as int]));
        }
        let ghost before = views(entries@);
        entries.push(e);
        assert(views(entries@) =~= before.push(help_entry(ct[i as int])));
        assert(ct.take(i + 1).map_values(|e: (Seq<char>, Seq<Seq<char>>)| help_entry(e)) =~= ct.take(
            i as int,
        ).map_values(|e: (Seq<char>, Seq<Seq<char>>)| help_entry(e)).push(help_entry(ct[i as int])));
        i = i + 1;
    }
    assert(ct.take(ct.len() as int) =~= ct);
    let j = join_with(entries.as_slice(), chars_of("\n").as_slice());
    concat2("OK: commands:\n", string_of(j.as_slice()).as_str())
}

} // verus!
