//! The interactive shell's command language: a line is split into tokens
//! (keeping bracketed JSON together) and read as one of the dot-commands.

use vstd::prelude::*;
use crate::json::{chars_of, push_char, str_of, append_str, eq_lit};
use crate::path::strs_view;
use crate::query::{join_with, join_strings};

verus! {

/// ASCII whitespace as `char::is_whitespace` sees it.
pub open spec fn is_space(c: char) -> bool {
    c == ' ' || c == '\t' || c == '\n' || c == '\r' || c == '\u{b}' || c == '\u{c}'
}

/// The state after reading the first `n` characters: the finished tokens,
/// where the current token started, and the bracket depth.
pub open spec fn scan(cs: Seq<char>, n: nat) -> (Seq<Seq<char>>, Option<int>, nat)
    decreases n,
{
    if n == 0 || n > cs.len() {
        (Seq::empty(), None, 0)
    } else {
        let (toks, st, d) = scan(cs, (n - 1) as nat);
        let c = cs[n - 1];
        if d == 0 && is_space(c) {
            match st {
                Some(s) => (toks.push(cs.subrange(s, n - 1)), None, d),
                None => (toks, None, d),
            }
        } else {
            let st2 = if st is None { Some(n - 1) } else { st };
            let d2: nat = if c == '{' || c == '[' { d + 1 } else if (c == '}' || c == ']') && d > 0 { (d - 1) as nat } else { d };
            (toks, st2, d2)
        }
    }
}

/// The tokens of a line: split at whitespace outside `{...}` and `[...]`.
pub open spec fn split_spec(cs: Seq<char>) -> Seq<Seq<char>> {
    let (toks, st, _d) = scan(cs, cs.len());
    match st {
        Some(s) => toks.push(cs.subrange(s, cs.len() as int)),
        None => toks,
    }
}

/// Splits a shell line into tokens, keeping bracketed JSON (such as
/// `{"a": 1}`) as one token.
pub fn split_command(line: &str) -> (r: Vec<String>)
    ensures
        strs_view(r@) == split_spec(line@),
{
    let cs = chars_of(line);
    let mut out: Vec<String> = Vec::new();
    let mut cur = String::new();
    let mut started = false;
    let ghost mut start: int = 0;
    let mut depth: usize = 0;
    let mut i: usize = 0;
    proof { assert(strs_view(out@) =~= Seq::<Seq<char>>::empty()); }
    while i < cs.len()
        invariant
            i <= cs.len(),
            cs@ == line@,
            depth <= i,
            scan(cs@, i as nat) == (strs_view(out@), if started { Some(start) } else { None::<int> }, depth as nat),
            started ==> 0 <= start <= i && cur@ == cs@.subrange(start, i as int),
        decreases cs.len() - i,
    {
        let c = cs[i];
        let ghost before = strs_view(out@);
        if depth == 0 && (c == ' ' || c == '\t' || c == '\n' || c == '\r' || c == '\u{b}' || c == '\u{c}') {
            if started {
                let mut tok = String::new();
                std::mem::swap(&mut tok, &mut cur);
                out.push(tok);
                started = false;
                assert(strs_view(out@) =~= before.push(cs@.subrange(start, i as int)));
            }
        } else {
            if !started {
                started = true;
                proof { start = i as int; }
                cur = String::new();
            }
            push_char(&mut cur, c);
            assert(cur@ =~= cs@.subrange(start, i + 1));
            if c == '{' || c == '[' {
                depth = depth + 1;
            } else if (c == '}' || c == ']') && depth > 0 {
                depth = depth - 1;
            }
        }
        i += 1;
    }
    if started {
        out.push(cur);
    }
    proof {
        assert(cs@.len() == i);
    }
    assert(strs_view(out@) =~= split_spec(line@));
    out
}

/// A shell command.
#[derive(Debug)]
#[allow(inconsistent_fields)]
pub enum ShellCommand {
    /// Not a dot-command: the line is JSON to echo back.
    Echo,
    Help,
    Quit,
    Collections,
    Indexes { coll: String },
    Drop { coll: String },
    Count { coll: String, filter: Option<String> },
    Find { coll: String, filter: Option<String> },
    Insert { coll: String, doc: String },
    Delete { coll: String, filter: String },
    Update { coll: String, rest: String },
    Aggregate { coll: String, pipeline: String },
    TextIndex { coll: String, fields: Vec<String> },
    Explain { coll: String, filter: Option<String> },
    Import { coll: String, path: String },
    Export { coll: String, path: String },
}

/// The mathematical value of a shell command.
pub enum CommandV {
    Echo,
    Help,
    Quit,
    Collections,
    Indexes(Seq<char>),
    Drop(Seq<char>),
    Count(Seq<char>, Option<Seq<char>>),
    Find(Seq<char>, Option<Seq<char>>),
    Insert(Seq<char>, Seq<char>),
    Delete(Seq<char>, Seq<char>),
    Update(Seq<char>, Seq<char>),
    Aggregate(Seq<char>, Seq<char>),
    TextIndex(Seq<char>, Seq<Seq<char>>),
    Explain(Seq<char>, Option<Seq<char>>),
    Import(Seq<char>, Seq<char>),
    Export(Seq<char>, Seq<char>),
}

pub open spec fn opt_text(o: Option<String>) -> Option<Seq<char>> {
    match o {
        Some(s) => Some(s@),
        None => None,
    }
}

impl View for ShellCommand {
    type V = CommandV;

    open spec fn view(&self) -> CommandV {
        match self {
            ShellCommand::Echo => CommandV::Echo,
            ShellCommand::Help => CommandV::Help,
            ShellCommand::Quit => CommandV::Quit,
            ShellCommand::Collections => CommandV::Collections,
            ShellCommand::Indexes { coll } => CommandV::Indexes(coll@),
            ShellCommand::Drop { coll } => CommandV::Drop(coll@),
            ShellCommand::Count { coll, filter } => CommandV::Count(coll@, opt_text(*filter)),
            ShellCommand::Find { coll, filter } => CommandV::Find(coll@, opt_text(*filter)),
            ShellCommand::Insert { coll, doc } => CommandV::Insert(coll@, doc@),
            ShellCommand::Delete { coll, filter } => CommandV::Delete(coll@, filter@),
            ShellCommand::Update { coll, rest } => CommandV::Update(coll@, rest@),
            ShellCommand::Aggregate { coll, pipeline } => CommandV::Aggregate(coll@, pipeline@),
            ShellCommand::TextIndex { coll, fields } => CommandV::TextIndex(coll@, strs_view(fields@)),
            ShellCommand::Explain { coll, filter } => CommandV::Explain(coll@, opt_text(*filter)),
            ShellCommand::Import { coll, path } => CommandV::Import(coll@, path@),
            ShellCommand::Export { coll, path } => CommandV::Export(coll@, path@),
        }
    }
}

/// The tokens after the first two, joined by spaces, if there are any.
pub open spec fn rest_of(toks: Seq<Seq<char>>) -> Option<Seq<char>> {
    if toks.len() > 2 { Some(join_with(toks.skip(2), " "@)) } else { None }
}

/// How a line is read. Errors carry the message the shell prints.
pub open spec fn command_spec(line: Seq<char>) -> Result<CommandV, Seq<char>> {
    if !(line.len() > 0 && line[0] == '.') {
        Ok(CommandV::Echo)
    } else {
        let toks = split_spec(line);
        let cmd = if toks.len() > 0 { toks[0] } else { Seq::empty() };
        let coll = if toks.len() > 1 { Some(toks[1]) } else { None };
        if cmd == ".help"@ {
            Ok(CommandV::Help)
        } else if cmd == ".quit"@ || cmd == ".exit"@ {
            Ok(CommandV::Quit)
        } else if cmd == ".collections"@ {
            Ok(CommandV::Collections)
        } else if cmd == ".indexes"@ {
            match coll { Some(c) => Ok(CommandV::Indexes(c)), None => Err("usage: .indexes <coll>"@) }
        } else if cmd == ".drop"@ {
            match coll { Some(c) => Ok(CommandV::Drop(c)), None => Err("usage: .drop <coll>"@) }
        } else if cmd == ".count"@ {
            match coll { Some(c) => Ok(CommandV::Count(c, rest_of(toks))), None => Err("usage: .count <coll> [filter]"@) }
        } else if cmd == ".find"@ {
            match coll { Some(c) => Ok(CommandV::Find(c, rest_of(toks))), None => Err("usage: .find <coll> [filter]"@) }
        } else if cmd == ".insert"@ {
            match coll {
                Some(c) => match rest_of(toks) { Some(d) => Ok(CommandV::Insert(c, d)), None => Err("missing document JSON"@) },
                None => Err("usage: .insert <coll> <doc>"@),
            }
        } else if cmd == ".delete"@ {
            match coll {
                Some(c) => match rest_of(toks) { Some(f) => Ok(CommandV::Delete(c, f)), None => Err("missing filter JSON"@) },
                None => Err("usage: .delete <coll> <filter>"@),
            }
        } else if cmd == ".update"@ {
            match coll {
                Some(c) => Ok(CommandV::Update(c, join_with(toks.skip(2), " "@))),
                None => Err("usage: .update <coll> <filter> <update>"@),
            }
        } else if cmd == ".aggregate"@ {
            match coll {
                Some(c) => match rest_of(toks) { Some(p) => Ok(CommandV::Aggregate(c, p)), None => Err("missing pipeline JSON"@) },
                None => Err("usage: .aggregate <coll> <pipeline>"@),
            }
        } else if cmd == ".text-index"@ {
            match coll {
                Some(c) => if toks.len() > 2 { Ok(CommandV::TextIndex(c, toks.skip(2))) } else { Err("at least one field is required"@) },
                None => Err("usage: .text-index <coll> <field> [field...]"@),
            }
        } else if cmd == ".explain"@ {
            match coll { Some(c) => Ok(CommandV::Explain(c, rest_of(toks))), None => Err("usage: .explain <coll> <filter>"@) }
        } else if cmd == ".import"@ || cmd == ".export"@ {
            match coll {
                Some(c) => if toks.len() > 2 {
                    Ok(if cmd == ".import"@ { CommandV::Import(c, toks[2]) } else { CommandV::Export(c, toks[2]) })
                } else {
                    Err("missing path"@)
                },
                None => Err(if cmd == ".import"@ { "usage: .import <coll> <path>"@ } else { "usage: .export <coll> <path>"@ }),
            }
        } else {
            Err("unknown command: "@ + cmd)
        }
    }
}

fn tail_tokens(toks: &Vec<String>) -> (r: Vec<String>)
    requires
        toks.len() >= 2,
    ensures
        strs_view(r@) == strs_view(toks@).skip(2),
{
    let mut out: Vec<String> = Vec::new();
    let mut i: usize = 2;
    while i < toks.len()
        invariant
            2 <= i <= toks.len(),
            out.len() == i - 2,
            strs_view(out@) == strs_view(toks@).subrange(2, i as int),
        decreases toks.len() - i,
    {
        let ghost before = out@;
        out.push(toks[i].clone());
        i += 1;
        assert(strs_view(out@) =~= strs_view(toks@).subrange(2, i as int));
    }
    assert(strs_view(toks@).subrange(2, i as int) =~= strs_view(toks@).skip(2));
    out
}

/// Reads a shell line. Lines that do not start with `.` are JSON to echo.
pub fn parse_command(line: &str) -> (r: Result<ShellCommand, String>)
    ensures
        match r {
            Ok(c) => command_spec(line@) == Ok::<CommandV, Seq<char>>(c@),
            Err(m) => command_spec(line@) == Err::<CommandV, Seq<char>>(m@),
        },
{
    let cs = chars_of(line);
    if !(cs.len() > 0 && cs[0] == '.') {
        return Ok(ShellCommand::Echo);
    }
    let toks = split_command(line);
    let ghost tv = strs_view(toks@);
    let cmd: String = if toks.len() > 0 { toks[0].clone() } else { String::new() };
    let cmd = cmd.as_str();
    let has_coll = toks.len() > 1;
    let rest: Option<String> = if toks.len() > 2 {
        let t = tail_tokens(&toks);
        Some(join_strings(&t, " "))
    } else {
        None
    };
    assert(opt_text(rest) == rest_of(tv));
    if eq_lit(cmd, ".help") {
        return Ok(ShellCommand::Help);
    }
    if eq_lit(cmd, ".quit") || eq_lit(cmd, ".exit") {
        return Ok(ShellCommand::Quit);
    }
    if eq_lit(cmd, ".collections") {
        return Ok(ShellCommand::Collections);
    }
    if eq_lit(cmd, ".indexes") {
        return if has_coll { Ok(ShellCommand::Indexes { coll: toks[1].clone() }) } else { Err(str_of("usage: .indexes <coll>")) };
    }
    if eq_lit(cmd, ".drop") {
        return if has_coll { Ok(ShellCommand::Drop { coll: toks[1].clone() }) } else { Err(str_of("usage: .drop <coll>")) };
    }
    if eq_lit(cmd, ".count") {
        return if has_coll { Ok(ShellCommand::Count { coll: toks[1].clone(), filter: rest }) } else { Err(str_of("usage: .count <coll> [filter]")) };
    }
    if eq_lit(cmd, ".find") {
        return if has_coll { Ok(ShellCommand::Find { coll: toks[1].clone(), filter: rest }) } else { Err(str_of("usage: .find <coll> [filter]")) };
    }
    if eq_lit(cmd, ".insert") {
        if !has_coll {
            return Err(str_of("usage: .insert <coll> <doc>"));
        }
        return match rest {
            Some(d) => Ok(ShellCommand::Insert { coll: toks[1].clone(), doc: d }),
            None => Err(str_of("missing document JSON")),
        };
    }
    if eq_lit(cmd, ".delete") {
        if !has_coll {
            return Err(str_of("usage: .delete <coll> <filter>"));
        }
        return match rest {
            Some(f) => Ok(ShellCommand::Delete { coll: toks[1].clone(), filter: f }),
            None => Err(str_of("missing filter JSON")),
        };
    }
    if eq_lit(cmd, ".update") {
        if !has_coll {
            return Err(str_of("usage: .update <coll> <filter> <update>"));
        }
        let t = tail_tokens(&toks);
        return Ok(ShellCommand::Update { coll: toks[1].clone(), rest: join_strings(&t, " ") });
    }
    if eq_lit(cmd, ".aggregate") {
        if !has_coll {
            return Err(str_of("usage: .aggregate <coll> <pipeline>"));
        }
        return match rest {
            Some(p) => Ok(ShellCommand::Aggregate { coll: toks[1].clone(), pipeline: p }),
            None => Err(str_of("missing pipeline JSON")),
        };
    }
    if eq_lit(cmd, ".text-index") {
        if !has_coll {
            return Err(str_of("usage: .text-index <coll> <field> [field...]"));
        }
        if toks.len() <= 2 {
            return Err(str_of("at least one field is required"));
        }
        return Ok(ShellCommand::TextIndex { coll: toks[1].clone(), fields: tail_tokens(&toks) });
    }
    if eq_lit(cmd, ".explain") {
        return if has_coll { Ok(ShellCommand::Explain { coll: toks[1].clone(), filter: rest }) } else { Err(str_of("usage: .explain <coll> <filter>")) };
    }
    if eq_lit(cmd, ".import") || eq_lit(cmd, ".export") {
        let is_import = eq_lit(cmd, ".import");
        if !has_coll {
            return Err(str_of(if is_import { "usage: .import <coll> <path>" } else { "usage: .export <coll> <path>" }));
        }
        if toks.len() <= 2 {
            return Err(str_of("missing path"));
        }
        return Ok(if is_import {
            ShellCommand::Import { coll: toks[1].clone(), path: toks[2].clone() }
        } else {
            ShellCommand::Export { coll: toks[1].clone(), path: toks[2].clone() }
        });
    }
    let mut m = str_of("unknown command: ");
    append_str(&mut m, cmd);
    Err(m)
}

} // verus!
