//! The command palette: the commands it knows, what a typed command line
//! asks for, and what the user is told afterwards.
use crate::common::{ToastEvent, ToastTone};
use crate::config::{strs, Group, Project};
use crate::engine::{ProcessStatus, StatusView};
use crate::num::{decimal, push_decimal};
use crate::text::{
    append_chars, chars_of, concat2, concat3, concat4, copy_str, eq_str, join_with, joined_with,
    starts_with, starts_with_str, string_of, views, words, words_of,
};
use vstd::prelude::*;

verus! {

// ── the commands ───────────────────────────────────────────────────────────

/// The commands of the palette, each with the pieces of its usage.
pub open spec fn command_templates() -> Seq<(Seq<char>, Seq<Seq<char>>)> {
    seq![
        ("template"@, seq![" [-d <name>]"@, " [-n <name>]"@, " [-a <template> <id>]"@, " <name>"@]),
        ("project"@, seq![" [-d]"@, " <id>"@, " <abs_path>"@, " <command>"@]),
        ("group"@, seq![" <start|stop>"@, " <group_id>"@]),
        ("start"@, seq![" <project_id>"@]),
        ("stop"@, seq![" <project_id>"@]),
        ("restart"@, seq![" <project_id>"@]),
        ("status"@, Seq::empty()),
        ("cd"@, seq![" <path>"@]),
        ("env"@, seq![" <project_id>"@]),
        ("open"@, seq![" <url>"@]),
        ("detect"@, Seq::empty()),
        ("welcome"@, Seq::empty()),
    ]
}

fn strings(parts: &[&str]) -> (r: Vec<String>)
    ensures
        strs(r@) == parts@.map_values(|s: &str| s@),
{
    let mut r: Vec<String> = Vec::new();
    let mut i: usize = 0;
    while i < parts.len()
        invariant
            i <= parts@.len(),
            strs(r@) == parts@.map_values(|s: &str| s@).take(i as int),
        decreases parts@.len() - i,
    {
        let ghost before = strs(r@);
        r.push(copy_str(parts[i]));
        assert(strs(r@) =~= before.push(parts@[i as int]@));
        assert(parts@.map_values(|s: &str| s@).take(i + 1) =~= parts@.map_values(|s: &str| s@).take(
            i as int,
        ).push(parts@[i as int]@));
        i = i + 1;
    }
    assert(parts@.map_values(|s: &str| s@).take(parts@.len() as int) =~= parts@.map_values(
        |s: &str| s@,
    ));
    r
}

/// The palette's commands with the pieces of their usage.
pub fn command_templates_list() -> (r: Vec<(String, Vec<String>)>)
    ensures
        r@.len() == command_templates().len(),
        forall|i: int|
            0 <= i < r@.len() ==> (#[trigger] r@[i]).0@ == command_templates()[i].0 && strs(r@[i].1@)
                == command_templates()[i].1,
{
    let mut r: Vec<(String, Vec<String>)> = Vec::new();
    r.push(
        (
            copy_str("template"),
            strings(&[" [-d <name>]", " [-n <name>]", " [-a <template> <id>]", " <name>"]),
        ),
    );
    r.push((copy_str("project"), strings(&[" [-d]", " <id>", " <abs_path>", " <command>"])));
    r.push((copy_str("group"), strings(&[" <start|stop>", " <group_id>"])));
    r.push((copy_str("start"), strings(&[" <project_id>"])));
    r.push((copy_str("stop"), strings(&[" <project_id>"])));
    r.push((copy_str("restart"), strings(&[" <project_id>"])));
    r.push((copy_str("status"), Vec::new()));
    r.push((copy_str("cd"), strings(&[" <path>"])));
    r.push((copy_str("env"), strings(&[" <project_id>"])));
    r.push((copy_str("open"), strings(&[" <url>"])));
    r.push((copy_str("detect"), Vec::new()));
    r.push((copy_str("welcome"), Vec::new()));
    proof {
        assert(strs(Seq::<String>::empty()) =~= Seq::<Seq<char>>::empty());
        assert forall|i: int| 0 <= i < r@.len() implies (#[trigger] r@[i]).0@ == command_templates()[i].0
            && strs(r@[i].1@) == command_templates()[i].1 by {
            let t = command_templates();
            if i == 0 {
                assert(seq![" [-d <name>]", " [-n <name>]", " [-a <template> <id>]", " <name>"].map_values(|s: &str| s@) =~= t[0].1);
            } else if i == 1 {
                assert(seq![" [-d]", " <id>", " <abs_path>", " <command>"].map_values(|s: &str| s@) =~= t[1].1);
            } else if i == 2 {
                assert(seq![" <start|stop>", " <group_id>"].map_values(|s: &str| s@) =~= t[2].1);
            } else if i == 7 {
                assert(seq![" <path>"].map_values(|s: &str| s@) =~= t[7].1);
            } else if i == 9 {
                assert(seq![" <url>"].map_values(|s: &str| s@) =~= t[9].1);
            } else if i == 3 || i == 4 || i == 5 || i == 8 {
                assert(seq![" <project_id>"].map_values(|s: &str| s@) =~= t[i].1);
            }
        }
    }
    r
}

// ── reading a command line ─────────────────────────────────────────────────

/// Arguments that are not flags.
pub open spec fn positionals(args: Seq<Seq<char>>) -> Seq<Seq<char>> {
    args.filter(|a: Seq<char>| !starts_with(a, "-"@))
}

/// The flags among the arguments, without their `-`.
pub open spec fn flags(args: Seq<Seq<char>>) -> Seq<Seq<char>> {
    args.filter(|a: Seq<char>| starts_with(a, "-"@)).map_values(|a: Seq<char>| a.drop_first())
}

/// Split arguments into positional values and `-flag` tokens (without the
/// dash). A flag takes no value: what it acts on is a positional.
pub fn split_flags(args: &[String]) -> (r: (Vec<String>, Vec<String>))
    ensures
        strs(r.0@) == positionals(strs(args@)),
        strs(r.1@) == flags(strs(args@)),
{
    let ghost av = strs(args@);
    let ghost fp = |a: Seq<char>| !starts_with(a, "-"@);
    let ghost ff = |a: Seq<char>| starts_with(a, "-"@);
    let ghost fd = |a: Seq<char>| a.drop_first();
    let mut pos: Vec<String> = Vec::new();
    let mut fl: Vec<String> = Vec::new();
    let mut i: usize = 0;
    while i < args.len()
        invariant
            i <= args@.len(),
            av == strs(args@),
            fp == (|a: Seq<char>| !starts_with(a, "-"@)),
            ff == (|a: Seq<char>| starts_with(a, "-"@)),
            fd == (|a: Seq<char>| a.drop_first()),
            strs(pos@) == av.take(i as int).filter(fp),
            strs(fl@) == av.take(i as int).filter(ff).map_values(fd),
        decreases args@.len() - i,
    {
        let a = chars_of(args[i].as_str());
        proof {
            assert(av.take(i + 1).drop_last() =~= av.take(i as int));
            assert(av.take(i + 1).last() == a@);
            reveal_with_fuel(Seq::filter, 1);
        }
        if starts_with_str(a.as_slice(), "-") {
            proof {
                reveal_strlit("-");
            }
            let rest = crate::text::slice_vec(a.as_slice(), 1, a.len());
            assert(rest@ =~= a@.drop_first());
            let ghost before = strs(fl@);
            fl.push(string_of(rest.as_slice()));
            assert(strs(fl@) =~= before.push(a@.drop_first()));
            assert(av.take(i as int).filter(ff).push(a@).map_values(fd) =~= av.take(i as int).filter(
                ff,
            ).map_values(fd).push(a@.drop_first()));
        } else {
            let ghost before = strs(pos@);
            pos.push(args[i].clone());
            assert(strs(pos@) =~= before.push(a@));
        }
        i = i + 1;
    }
    assert(av.take(av.len() as int) =~= av);
    (pos, fl)
}

/// What a command line asks for.
pub enum Command {
    /// Nothing (an empty line, an unknown command, `env` without an id).
    NoOp,
    /// Show this text (a usage hint).
    Message(String),
    TemplateDelete(String),
    TemplateCreate(String),
    /// Add a project (second) to a template (first).
    TemplateAdd(String, String),
    TemplateRun(String),
    ProjectRemove(String),
    /// Register a project: id, path as typed, command.
    ProjectAdd(String, String, String),
    Env(String),
    Open(String),
    Detect,
    Welcome,
    GroupStart(String),
    GroupStop(String),
    GroupList,
    Start(String),
    Stop(String),
    Restart(String),
    Status,
}

pub enum CommandView {
    NoOp,
    Message(Seq<char>),
    TemplateDelete(Seq<char>),
    TemplateCreate(Seq<char>),
    TemplateAdd(Seq<char>, Seq<char>),
    TemplateRun(Seq<char>),
    ProjectRemove(Seq<char>),
    ProjectAdd(Seq<char>, Seq<char>, Seq<char>),
    Env(Seq<char>),
    Open(Seq<char>),
    Detect,
    Welcome,
    GroupStart(Seq<char>),
    GroupStop(Seq<char>),
    GroupList,
    Start(Seq<char>),
    Stop(Seq<char>),
    Restart(Seq<char>),
    Status,
}

impl Command {
    pub open spec fn view(&self) -> CommandView {
        match self {
            Command::NoOp => CommandView::NoOp,
            Command::Message(m) => CommandView::Message(m@),
            Command::TemplateDelete(n) => CommandView::TemplateDelete(n@),
            Command::TemplateCreate(n) => CommandView::TemplateCreate(n@),
            Command::TemplateAdd(t, p) => CommandView::TemplateAdd(t@, p@),
            Command::TemplateRun(n) => CommandView::TemplateRun(n@),
            Command::ProjectRemove(i) => CommandView::ProjectRemove(i@),
            Command::ProjectAdd(i, p, c) => CommandView::ProjectAdd(i@, p@, c@),
            Command::Env(i) => CommandView::Env(i@),
            Command::Open(u) => CommandView::Open(u@),
            Command::Detect => CommandView::Detect,
            Command::Welcome => CommandView::Welcome,
            Command::GroupStart(g) => CommandView::GroupStart(g@),
            Command::GroupStop(g) => CommandView::GroupStop(g@),
            Command::GroupList => CommandView::GroupList,
            Command::Start(i) => CommandView::Start(i@),
            Command::Stop(i) => CommandView::Stop(i@),
            Command::Restart(i) => CommandView::Restart(i@),
            Command::Status => CommandView::Status,
        }
    }
}

pub open spec fn template_command(pos: Seq<Seq<char>>, fl: Seq<Seq<char>>) -> CommandView {
    if fl.contains("d"@) {
        if pos.len() > 0 {
            CommandView::TemplateDelete(pos[0])
        } else {
            CommandView::Message("Usage: template -d <name>"@)
        }
    } else if fl.contains("n"@) {
        if pos.len() > 0 {
            CommandView::TemplateCreate(pos[0])
        } else {
            CommandView::Message("Usage: template -n <name>"@)
        }
    } else if fl.contains("a"@) {
        if pos.len() >= 2 {
            CommandView::TemplateAdd(pos[0], pos[1])
        } else {
            CommandView::Message("Usage: template -a <template_name> <project_id>"@)
        }
    } else if pos.len() > 0 {
        CommandView::TemplateRun(pos[0])
    } else {
        CommandView::Message("Usage: template <name>"@)
    }
}

pub open spec fn project_command(pos: Seq<Seq<char>>, fl: Seq<Seq<char>>) -> CommandView {
    if fl.contains("d"@) {
        if pos.len() > 0 {
            CommandView::ProjectRemove(pos[0])
        } else {
            CommandView::Message("Usage: project -d <id>"@)
        }
    } else if pos.len() >= 3 {
        CommandView::ProjectAdd(pos[0], pos[1], joined_with(pos.skip(2), " "@))
    } else {
        CommandView::Message("Usage: project <id> <abs_path> <command>  |  project -d <id>"@)
    }
}

/// The command a palette line asks for, from its whitespace-separated words.
pub open spec fn command_of(parts: Seq<Seq<char>>) -> CommandView {
    if parts.len() == 0 {
        CommandView::NoOp
    } else {
        let cmd = parts[0];
        let args = parts.skip(1);
        if cmd == "template"@ {
            template_command(positionals(args), flags(args))
        } else if cmd == "project"@ {
            project_command(positionals(args), flags(args))
        } else if cmd == "env"@ {
            if parts.len() >= 2 {
                CommandView::Env(parts[1])
            } else {
                CommandView::NoOp
            }
        } else if cmd == "open"@ {
            let url = joined_with(args, " "@);
            if starts_with(url, "http://"@) || starts_with(url, "https://"@) {
                CommandView::Open(url)
            } else {
                CommandView::Message("Usage: open <url>"@)
            }
        } else if cmd == "detect"@ {
            CommandView::Detect
        } else if cmd == "welcome"@ {
            CommandView::Welcome
        } else if cmd == "group"@ {
            if parts.len() >= 3 {
                if parts[1] == "start"@ {
                    CommandView::GroupStart(parts[2])
                } else if parts[1] == "stop"@ {
                    CommandView::GroupStop(parts[2])
                } else {
                    CommandView::Message("Usage: group <start|stop> <group_id>"@)
                }
            } else {
                CommandView::GroupList
            }
        } else if cmd == "start"@ {
            if parts.len() >= 2 {
                CommandView::Start(parts[1])
            } else {
                CommandView::Message("Usage: start <project_id>"@)
            }
        } else if cmd == "stop"@ {
            if parts.len() >= 2 {
                CommandView::Stop(parts[1])
            } else {
                CommandView::Message("Usage: stop <project_id>"@)
            }
        } else if cmd == "restart"@ {
            if parts.len() >= 2 {
                CommandView::Restart(parts[1])
            } else {
                CommandView::Message("Usage: restart <project_id>"@)
            }
        } else if cmd == "status"@ {
            CommandView::Status
        } else {
            CommandView::NoOp
        }
    }
}

fn has_flag(fl: &Vec<String>, f: &str) -> (r: bool)
    ensures
        r == strs(fl@).contains(f@),
{
    let fc = chars_of(f);
    let mut i: usize = 0;
    while i < fl.len()
        invariant
            i <= fl@.len(),
            fc@ == f@,
            forall|j: int| 0 <= j < i ==> (#[trigger] strs(fl@)[j]) != f@,
        decreases fl@.len() - i,
    {
        if crate::text::seq_eq(chars_of(fl[i].as_str()).as_slice(), fc.as_slice()) {
            assert(strs(fl@)[i as int] == f@);
            return true;
        }
        i = i + 1;
    }
    false
}

fn join_words(ws: &[String], sep: &str) -> (r: String)
    ensures
        r@ == joined_with(strs(ws@), sep@),
{
    let mut cs: Vec<Vec<char>> = Vec::new();
    let mut i: usize = 0;
    while i < ws.len()
        invariant
            i <= ws@.len(),
            views(cs@) == strs(ws@).take(i as int),
        decreases ws@.len() - i,
    {
        let ghost before = views(cs@);
        cs.push(chars_of(ws[i].as_str()));
        assert(views(cs@) =~= before.push(ws@[i as int]@));
        assert(strs(ws@).take(i + 1) =~= strs(ws@).take(i as int).push(ws@[i as int]@));
        i = i + 1;
    }
    assert(strs(ws@).take(ws@.len() as int) =~= strs(ws@));
    string_of(join_with(cs.as_slice(), chars_of(sep).as_slice()).as_slice())
}

fn template_cmd(pos: &Vec<String>, fl: &Vec<String>) -> (r: Command)
    ensures
        r.view() == template_command(strs(pos@), strs(fl@)),
{
    if has_flag(fl, "d") {
        if pos.len() > 0 {
            Command::TemplateDelete(pos[0].clone())
        } else {
            Command::Message(copy_str("Usage: template -d <name>"))
        }
    } else if has_flag(fl, "n") {
        if pos.len() > 0 {
            Command::TemplateCreate(pos[0].clone())
        } else {
            Command::Message(copy_str("Usage: template -n <name>"))
        }
    } else if has_flag(fl, "a") {
        if pos.len() >= 2 {
            Command::TemplateAdd(pos[0].clone(), pos[1].clone())
        } else {
            Command::Message(copy_str("Usage: template -a <template_name> <project_id>"))
        }
    } else if pos.len() > 0 {
        Command::TemplateRun(pos[0].clone())
    } else {
        Command::Message(copy_str("Usage: template <name>"))
    }
}

fn project_cmd(pos: &Vec<String>, fl: &Vec<String>) -> (r: Command)
    ensures
        r.view() == project_command(strs(pos@), strs(fl@)),
{
    if has_flag(fl, "d") {
        if pos.len() > 0 {
            Command::ProjectRemove(pos[0].clone())
        } else {
            Command::Message(copy_str("Usage: project -d <id>"))
        }
    } else if pos.len() >= 3 {
        let rest = crate::config::copy_strs(pos);
        let mut tail: Vec<String> = Vec::new();
        let mut i: usize = 2;
        while i < rest.len()
            invariant
                2 <= i <= rest@.len(),
                strs(rest@) == strs(pos@),
                strs(tail@) == strs(pos@).subrange(2, i as int),
            decreases rest@.len() - i,
        {
            let ghost before = strs(tail@);
            tail.push(rest[i].clone());
            assert(strs(tail@) =~= before.push(rest@[i as int]@));
            assert(strs(pos@).subrange(2, i + 1) =~= strs(pos@).subrange(2, i as int).push(
                strs(pos@)[i as int],
            ));
            i = i + 1;
        }
        assert(strs(pos@).subrange(2, strs(pos@).len() as int) =~= strs(pos@).skip(2));
        Command::ProjectAdd(pos[0].clone(), pos[1].clone(), join_words(tail.as_slice(), " "))
    } else {
        Command::Message(copy_str("Usage: project <id> <abs_path> <command>  |  project -d <id>"))
    }
}

/// What the palette line `input` asks for.
pub fn parse_command(input: &str) -> (r: Command)
    ensures
        r.view() == command_of(words(input@)),
{
    let parts = words_of(input);
    let ghost pv = parts@.map_values(|w: String| w@);
    assert(pv == strs(parts@));
    if parts.len() == 0 {
        return Command::NoOp;
    }
    let c = chars_of(parts[0].as_str());
    let cmd = c.as_slice();
    let mut args: Vec<String> = Vec::new();
    let mut i: usize = 1;
    while i < parts.len()
        invariant
            1 <= i <= parts@.len(),
            pv == strs(parts@),
            strs(args@) == pv.subrange(1, i as int),
        decreases parts@.len() - i,
    {
        let ghost before = strs(args@);
        args.push(parts[i].clone());
        assert(strs(args@) =~= before.push(pv[i as int]));
        assert(pv.subrange(1, i + 1) =~= pv.subrange(1, i as int).push(pv[i as int]));
        i = i + 1;
    }
    assert(pv.subrange(1, pv.len() as int) =~= pv.skip(1));
    assert(pv[0] == c@);
    if eq_str(cmd, "template") {
        let (pos, fl) = split_flags(args.as_slice());
        template_cmd(&pos, &fl)
    } else if eq_str(cmd, "project") {
        let (pos, fl) = split_flags(args.as_slice());
        project_cmd(&pos, &fl)
    } else if eq_str(cmd, "env") {
        if parts.len() >= 2 {
            Command::Env(parts[1].clone())
        } else {
            Command::NoOp
        }
    } else if eq_str(cmd, "open") {
        let url = join_words(args.as_slice(), " ");
        let u = chars_of(url.as_str());
        if starts_with_str(u.as_slice(), "http://") || starts_with_str(u.as_slice(), "https://") {
            Command::Open(url)
        } else {
            Command::Message(copy_str("Usage: open <url>"))
        }
    } else if eq_str(cmd, "detect") {
        Command::Detect
    } else if eq_str(cmd, "welcome") {
        Command::Welcome
    } else if eq_str(cmd, "group") {
        if parts.len() >= 3 {
            let a = chars_of(parts[1].as_str());
            assert(pv[1] == a@);
            if eq_str(a.as_slice(), "start") {
                Command::GroupStart(parts[2].clone())
            } else if eq_str(a.as_slice(), "stop") {
                Command::GroupStop(parts[2].clone())
            } else {
                Command::Message(copy_str("Usage: group <start|stop> <group_id>"))
            }
        } else {
            Command::GroupList
        }
    } else if eq_str(cmd, "start") {
        if parts.len() >= 2 {
            Command::Start(parts[1].clone())
        } else {
            Command::Message(copy_str("Usage: start <project_id>"))
        }
    } else if eq_str(cmd, "stop") {
        if parts.len() >= 2 {
            Command::Stop(parts[1].clone())
        } else {
            Command::Message(copy_str("Usage: stop <project_id>"))
        }
    } else if eq_str(cmd, "restart") {
        if parts.len() >= 2 {
            Command::Restart(parts[1].clone())
        } else {
            Command::Message(copy_str("Usage: restart <project_id>"))
        }
    } else if eq_str(cmd, "status") {
        Command::Status
    } else {
        Command::NoOp
    }
}

// ── the palette list ───────────────────────────────────────────────────────

/// The usage hint of a command: its pieces trimmed, joined by spaces;
/// `(no args)` when it takes none.
pub open spec fn usage_hint(pieces: Seq<Seq<char>>) -> Seq<char> {
    let u = joined_with(pieces.map_values(|p: Seq<char>| crate::text::trim(p)), " "@);
    if u.len() == 0 {
        "(no args)"@
    } else {
        u
    }
}

/// The palette entries shown for `input`: every command when it is blank,
/// else those whose lowercased name starts with the lowercased trimmed input.
pub open spec fn palette_matches(input: Seq<char>) -> Seq<(Seq<char>, Seq<char>)> {
    let t = crate::text::trim(input);
    command_templates().filter(
        |e: (Seq<char>, Seq<Seq<char>>)|
            t.len() == 0 || starts_with(crate::unicode::str_lower(e.0), crate::unicode::str_lower(t)),
    ).map_values(|e: (Seq<char>, Seq<Seq<char>>)| (e.0, usage_hint(e.1)))
}

fn usage_of(pieces: &Vec<String>) -> (r: String)
    ensures
        r@ == usage_hint(strs(pieces@)),
{
    let mut ts: Vec<Vec<char>> = Vec::new();
    let mut i: usize = 0;
    while i < pieces.len()
        invariant
            i <= pieces@.len(),
            views(ts@) == strs(pieces@).take(i as int).map_values(|p: Seq<char>| crate::text::trim(p)),
        decreases pieces@.len() - i,
    {
        let ghost before = views(ts@);
        ts.push(crate::text::trim_chars(chars_of(pieces[i].as_str()).as_slice()));
        assert(views(ts@) =~= before.push(crate::text::trim(pieces@[i as int]@)));
        assert(strs(pieces@).take(i + 1).map_values(|p: Seq<char>| crate::text::trim(p)) =~= strs(
            pieces@,
        ).take(i as int).map_values(|p: Seq<char>| crate::text::trim(p)).push(
            crate::text::trim(pieces@[i as int]@),
        ));
        i = i + 1;
    }
    assert(strs(pieces@).take(pieces@.len() as int) =~= strs(pieces@));
    let u = join_with(ts.as_slice(), chars_of(" ").as_slice());
    if u.len() == 0 {
        copy_str("(no args)")
    } else {
        string_of(u.as_slice())
    }
}

/// The palette entries (command, usage hint) that match `input`.
pub fn compute_command_matches(input: &str) -> (r: Vec<(String, String)>)
    ensures
        r@.map_values(|e: (String, String)| (e.0@, e.1@)) == palette_matches(input@),
{
    let t = crate::text::trim_chars(chars_of(input).as_slice());
    let lower_t = chars_of(crate::unicode::to_lowercase(string_of(t.as_slice()).as_str()).as_str());
    let templates = command_templates_list();
    let ghost ct = command_templates();
    let ghost keep = |e: (Seq<char>, Seq<Seq<char>>)|
        crate::text::trim(input@).len() == 0 || starts_with(
            crate::unicode::str_lower(e.0),
            crate::unicode::str_lower(crate::text::trim(input@)),
        );
    let ghost hint = |e: (Seq<char>, Seq<Seq<char>>)| (e.0, usage_hint(e.1));
    assert(ct.filter(keep).map_values(hint) =~= palette_matches(input@));
    let mut r: Vec<(String, String)> = Vec::new();
    let mut i: usize = 0;
    assert(templates@.len() == ct.len());
    while i < templates.len()
        invariant
            i <= templates@.len(),
            templates@.len() == ct.len(),
            ct == command_templates(),
            forall|j: int|
                0 <= j < templates@.len() ==> (#[trigger] templates@[j]).0@ == ct[j].0 && strs(
                    templates@[j].1@,
                ) == ct[j].1,
            t@ == crate::text::trim(input@),
            lower_t@ == crate::unicode::str_lower(t@),
            keep == (|e: (Seq<char>, Seq<Seq<char>>)|
                crate::text::trim(input@).len() == 0 || starts_with(
                    crate::unicode::str_lower(e.0),
                    crate::unicode::str_lower(crate::text::trim(input@)),
                )),
            hint == (|e: (Seq<char>, Seq<Seq<char>>)| (e.0, usage_hint(e.1))),
            r@.map_values(|e: (String, String)| (e.0@, e.1@)) == ct.take(i as int).filter(keep).map_values(hint),
        decreases templates@.len() - i,
    {
        proof {
            assert(ct.take(i + 1).drop_last() =~= ct.take(i as int));
            assert(ct.take(i + 1).last() == ct[i as int]);
            reveal_with_fuel(Seq::filter, 1);
        }
        let name = &templates[i].0;
        let lname = chars_of(crate::unicode::to_lowercase(name.as_str()).as_str());
        let shown = t.len() == 0 || crate::text::has_prefix(lname.as_slice(), lower_t.as_slice());
        assert(shown == keep(ct[i as int]));
        if shown {
            let ghost before = r@.map_values(|e: (String, String)| (e.0@, e.1@));
            let u = usage_of(&templates[i].1);
            r.push((name.clone(), u));
            assert(r@.map_values(|e: (String, String)| (e.0@, e.1@)) =~= before.push(hint(ct[i as int])));
            assert(ct.take(i as int).filter(keep).push(ct[i as int]).map_values(hint) =~= ct.take(
                i as int,
            ).filter(keep).map_values(hint).push(hint(ct[i as int])));
        }
        i = i + 1;
    }
    assert(ct.take(ct.len() as int) =~= ct);
    r
}

/// The palette selection kept in range: within the path suggestions when
/// there are some, else within the command matches (0 when there are none).
pub open spec fn clamped_selection(selected: usize, paths: usize, matches: usize) -> usize {
    if paths > 0 {
        if selected <= paths - 1 {
            selected
        } else {
            (paths - 1) as usize
        }
    } else if matches == 0 {
        0
    } else if selected <= matches - 1 {
        selected
    } else {
        (matches - 1) as usize
    }
}

pub fn clamp_selection(selected: usize, paths: usize, matches: usize) -> (r: usize)
    ensures
        r == clamped_selection(selected, paths, matches),
{
    if paths > 0 {
        if selected <= paths - 1 {
            selected
        } else {
            paths - 1
        }
    } else if matches == 0 {
        0
    } else if selected <= matches - 1 {
        selected
    } else {
        matches - 1
    }
}

// ── what the user is told ──────────────────────────────────────────────────

/// A process status in words.
pub open spec fn status_word(s: StatusView) -> Seq<char> {
    match s {
        StatusView::Stopped => "stopped"@,
        StatusView::Starting => "starting"@,
        StatusView::Running(p) => "running (pid "@ + decimal(p as nat) + ")"@,
        StatusView::Crashed(m) => "crashed ("@ + m + ")"@,
    }
}

pub fn status_word_of(s: &ProcessStatus) -> (r: String)
    ensures
        r@ == status_word(s@),
{
    match s {
        ProcessStatus::Stopped => copy_str("stopped"),
        ProcessStatus::Starting => copy_str("starting"),
        ProcessStatus::Running(p) => {
            let mut c = chars_of("running (pid ");
            push_decimal(&mut c, *p as u64);
            c.push(')');
            proof {
                reveal_strlit(")");
                assert(c@ =~= "running (pid "@ + decimal(*p as nat) + ")"@);
            }
            string_of(c.as_slice())
        },
        ProcessStatus::Crashed(m) => concat3("crashed (", m.as_str(), ")"),
    }
}

/// One line per process: `<id>: <status>`.
pub open spec fn status_lines(st: Seq<(Project, ProcessStatus)>) -> Seq<Seq<char>> {
    st.map_values(|e: (Project, ProcessStatus)| e.0.id@ + ": "@ + status_word(e.1@))
}

pub fn status_lines_of(st: &[(Project, ProcessStatus)]) -> (r: Vec<Vec<char>>)
    ensures
        views(r@) == status_lines(st@),
{
    let mut r: Vec<Vec<char>> = Vec::new();
    let mut i: usize = 0;
    while i < st.len()
        invariant
            i <= st@.len(),
            views(r@) == status_lines(st@.take(i as int)),
        decreases st@.len() - i,
    {
        let line = concat3(st[i].0.id.as_str(), ": ", status_word_of(&st[i].1).as_str());
        let ghost before = views(r@);
        r.push(chars_of(line.as_str()));
        assert(views(r@) =~= before.push(line@));
        assert(status_lines(st@.take(i + 1)) =~= status_lines(st@.take(i as int)).push(line@));
        i = i + 1;
    }
    assert(st@.take(st@.len() as int) =~= st@);
    r
}

/// The palette's `status` text: a line per process, or `No projects`.
pub open spec fn status_text(st: Seq<(Project, ProcessStatus)>) -> Seq<char> {
    if st.len() == 0 {
        "No projects"@
    } else {
        joined_with(status_lines(st), "\n"@)
    }
}

pub fn status_message(st: &[(Project, ProcessStatus)]) -> (r: String)
    ensures
        r@ == status_text(st@),
{
    if st.len() == 0 {
        return copy_str("No projects");
    }
    let lines = status_lines_of(st);
    string_of(join_with(lines.as_slice(), chars_of("\n").as_slice()).as_slice())
}

/// `id (name)` of a group.
pub open spec fn group_label(g: Group) -> Seq<char> {
    g.id@ + " ("@ + g.name@ + ")"@
}

pub fn group_labels(groups: &[Group]) -> (r: Vec<Vec<char>>)
    ensures
        views(r@) == groups@.map_values(|g: Group| group_label(g)),
{
    let mut r: Vec<Vec<char>> = Vec::new();
    let mut i: usize = 0;
    while i < groups.len()
        invariant
            i <= groups@.len(),
            views(r@) == groups@.take(i as int).map_values(|g: Group| group_label(g)),
        decreases groups@.len() - i,
    {
        let l = concat4(groups[i].id.as_str(), " (", groups[i].name.as_str(), ")");
        let ghost before = views(r@);
        r.push(chars_of(l.as_str()));
        assert(views(r@) =~= before.push(l@));
        assert(groups@.take(i + 1).map_values(|g: Group| group_label(g)) =~= groups@.take(
            i as int,
        ).map_values(|g: Group| group_label(g)).push(group_label(groups@[i as int])));
        i = i + 1;
    }
    assert(groups@.take(groups@.len() as int) =~= groups@);
    r
}

/// The palette's group list: `Groups: a (A), b (B)`, or `No groups defined`.
pub open spec fn group_list_text(groups: Seq<Group>) -> Seq<char> {
    if groups.len() == 0 {
        "No groups defined"@
    } else {
        "Groups: "@ + joined_with(groups.map_values(|g: Group| group_label(g)), ", "@)
    }
}

pub fn group_list_message(groups: &[Group]) -> (r: String)
    ensures
        r@ == group_list_text(groups@),
{
    if groups.len() == 0 {
        return copy_str("No groups defined");
    }
    let ls = group_labels(groups);
    let j = join_with(ls.as_slice(), chars_of(", ").as_slice());
    concat2("Groups: ", string_of(j.as_slice()).as_str())
}

/// A toast raised by the palette.
pub open spec fn tui_toast(t: ToastEvent, message: Seq<char>, tone: ToastTone) -> bool {
    t.source@ == "tui"@ && t.message@ == message && t.tone == tone
}

fn toast(source: &str, message: String, tone: ToastTone) -> (t: ToastEvent)
    ensures
        t.source@ == source@,
        t.message@ == message@,
        t.tone == tone,
{
    ToastEvent { source: copy_str(source), message, tone }
}

/// What the palette says after `start <id>`, `restart <id>` (when
/// `restart`) and the toast it raises.
pub fn start_feedback(id: &str, restart: bool, result: &Result<(), String>) -> (r: (String, ToastEvent))
    ensures
        match result {
            Ok(()) => if restart {
                r.0@ == id@ + " restarted"@ && tui_toast(r.1, "restarted "@ + id@, ToastTone::Success)
            } else {
                r.0@ == id@ + " started"@ && tui_toast(r.1, "started "@ + id@, ToastTone::Success)
            },
            Err(e) => if restart {
                r.0@ == "Failed to restart "@ + id@ + ": "@ + e@ && tui_toast(
                    r.1,
                    "failed to restart "@ + id@ + ": "@ + e@,
                    ToastTone::Error,
                )
            } else {
                r.0@ == "Failed to start "@ + id@ + ": "@ + e@ && tui_toast(
                    r.1,
                    "failed to start "@ + id@ + ": "@ + e@,
                    ToastTone::Error,
                )
            },
        },
{
    match result {
        Ok(()) => {
            if restart {
                (concat2(id, " restarted"), toast("tui", concat2("restarted ", id), ToastTone::Success))
            } else {
                (concat2(id, " started"), toast("tui", concat2("started ", id), ToastTone::Success))
            }
        },
        Err(e) => {
            if restart {
                (
                    concat4("Failed to restart ", id, ": ", e.as_str()),
                    toast("tui", concat4("failed to restart ", id, ": ", e.as_str()), ToastTone::Error),
                )
            } else {
                (
                    concat4("Failed to start ", id, ": ", e.as_str()),
                    toast("tui", concat4("failed to start ", id, ": ", e.as_str()), ToastTone::Error),
                )
            }
        },
    }
}

/// What the palette says after `stop <id>`, and its toast.
pub fn stop_feedback(id: &str) -> (r: (String, ToastEvent))
    ensures
        r.0@ == id@ + " stopped"@,
        tui_toast(r.1, "stopped "@ + id@, ToastTone::Success),
{
    (concat2(id, " stopped"), toast("tui", concat2("stopped ", id), ToastTone::Success))
}

/// What the palette says after starting (`start`) or stopping group `g`,
/// and its toast.
pub fn group_feedback(g: &str, start: bool, result: &Result<(), String>) -> (r: (String, ToastEvent))
    ensures
        match result {
            Ok(()) => if start {
                r.0@ == "Group "@ + g@ + " started"@ && tui_toast(
                    r.1,
                    "group "@ + g@ + " started"@,
                    ToastTone::Success,
                )
            } else {
                r.0@ == "Group "@ + g@ + " stopped"@ && tui_toast(
                    r.1,
                    "group "@ + g@ + " stopped"@,
                    ToastTone::Success,
                )
            },
            Err(e) => (if start {
                r.0@ == "Group start failed: "@ + e@
            } else {
                r.0@ == "Group stop failed: "@ + e@
            }) && tui_toast(r.1, "group "@ + g@ + " failed: "@ + e@, ToastTone::Warn),
        },
{
    match result {
        Ok(()) => {
            if start {
                (concat3("Group ", g, " started"), toast("tui", concat3("group ", g, " started"), ToastTone::Success))
            } else {
                (concat3("Group ", g, " stopped"), toast("tui", concat3("group ", g, " stopped"), ToastTone::Success))
            }
        },
        Err(e) => {
            let m = if start {
                concat2("Group start failed: ", e.as_str())
            } else {
                concat2("Group stop failed: ", e.as_str())
            };
            (m, toast("tui", concat4("group ", g, " failed: ", e.as_str()), ToastTone::Warn))
        },
    }
}

/// The toast raised by the palette's `status`.
pub fn status_toast() -> (t: ToastEvent)
    ensures
        tui_toast(t, "status printed below"@, ToastTone::Info),
{
    toast("tui", copy_str("status printed below"), ToastTone::Info)
}

} // verus!
