//! The Config panel: instructions, skills and servers behind a session.
//!
//! What the panel is made of is decided here, and so is what it says of each file.
//! Reading the files is not: what was found is handed in on a [`Shelf`].

use vstd::prelude::*;

use crate::figures::{short_path, tildify};
use crate::keys::KeyMap;
use crate::model::{Names, Provider, Session, Surface};
use crate::outside::{json_members, json_members_of, json_text, json_text_of, maybe_text, maybe_words};
use crate::styled::{blank, line_of, nothing, Ink, Line, LineView, Text};
use crate::text::{
    after_prefix, before_suffix, begins, cat, chars_of, count, cut, ends, lines, lines_of, same, trim, trimmed, truncate, words,
};

verus! {

/// Where the agents keep their things on this machine.
pub struct Places {
    pub home: String,
    pub claude: String,
    pub codex: String,
    pub pi: String,
    pub gemini: String,
    /// What the agent of the first directory goes by.
    pub names: Names,
    /// OpenCode's own file.
    pub opencode: String,
}

/// A skill: its directory, and the head of what describes it.
pub struct Skill {
    pub entry: String,
    pub text: Option<String>,
}

/// What was found on disk, by path.
pub struct Shelf {
    /// The heads of files.
    pub files: KeyMap<String>,
    /// What skill directories hold.
    pub skills: KeyMap<Vec<Skill>>,
}

/// A part of the panel.
pub enum Part {
    Heading(&'static str),
    /// The head of a file, or what is said where there is none.
    File { path: String, display: String, most: usize, missing: String },
    Skills { dir: String },
    /// The servers of a JSON file.
    McpJson { path: String, scope: &'static str },
    /// The servers of a TOML file.
    McpToml { path: String },
    Note(String),
}

/// What a [`Part`] says.
#[verifier::ext_equal]
pub enum PartView {
    Heading(Seq<char>),
    File { path: Seq<char>, display: Seq<char>, most: usize, missing: Seq<char> },
    Skills { dir: Seq<char> },
    McpJson { path: Seq<char>, scope: Seq<char> },
    McpToml { path: Seq<char> },
    Note(Seq<char>),
}

impl View for Part {
    type V = PartView;

    open spec fn view(&self) -> PartView {
        match self {
            Part::Heading(t) => PartView::Heading(t@),
            Part::File { path, display, most, missing } => PartView::File {
                path: path@,
                display: display@,
                most: *most,
                missing: missing@,
            },
            Part::Skills { dir } => PartView::Skills { dir: dir@ },
            Part::McpJson { path, scope } => PartView::McpJson { path: path@, scope: scope@ },
            Part::McpToml { path } => PartView::McpToml { path: path@ },
            Part::Note(t) => PartView::Note(t@),
        }
    }
}

/// What the parts say.
pub open spec fn parts_view(v: Seq<Part>) -> Seq<PartView> {
    v.map_values(|p: Part| p@)
}

/// `name` in the directory `dir`.
pub open spec fn inside(dir: Seq<char>, name: Seq<char>) -> Seq<char> {
    if dir.len() == 0 {
        name
    } else if dir.last() == '/' {
        dir + name
    } else {
        dir + "/"@ + name
    }
}

fn inside_of(dir: &str, name: &str) -> (r: String)
    ensures
        r@ == inside(dir@, name@),
{
    let v = chars_of(dir);
    let n: usize = v.len();
    if n == 0 {
        name.to_owned()
    } else if v[n - 1] == '/' {
        cat(dir, name)
    } else {
        let mut s = cat(dir, "/");
        s.append(name);
        s
    }
}

/// A file shown under its own path.
pub open spec fn global_file(path: Seq<char>, home: Seq<char>) -> PartView {
    PartView::File { path, display: short_path(path, home), most: 30, missing: path + " not found"@ }
}

fn global_file_of(path: String, home: &str) -> (r: Part)
    ensures
        r@ == global_file(path@, home@),
{
    let display = tildify(path.as_str(), home);
    let missing = cat(path.as_str(), " not found");
    Part::File { path, display, most: 30, missing }
}

/// A file shown under another name.
pub open spec fn named_file(path: Seq<char>, display: Seq<char>, most: usize) -> PartView {
    PartView::File { path, display, most, missing: display + " not found"@ }
}

fn named_file_of(path: String, display: &str, most: usize) -> (r: Part)
    ensures
        r@ == named_file(path@, display@, most),
{
    Part::File { path, display: display.to_owned(), most, missing: cat(display, " not found") }
}

/// A file of the directory the agent works in, where that is known.
pub open spec fn local_file(s: Session, name: Seq<char>, display: Seq<char>) -> Seq<PartView> {
    if s.label_source@.len() == 0 {
        Seq::empty()
    } else {
        seq![named_file(inside(s.label_source@, name), display, 40)]
    }
}

/// Where the agent keeps its things: in the session's own directory where that is a
/// desktop application's.
pub open spec fn claude_root(s: Session, p: Places) -> Seq<char> {
    if (s.surface == Surface::DesktopCode || s.surface == Surface::DesktopCowork) && s.session_dir is Some {
        inside((s.session_dir->0)@, "."@ + p.names.command@)
    } else {
        p.claude@
    }
}

/// What a Cursor session is said to be recorded in.
pub open spec fn transcript_text(s: Session, p: Places) -> Seq<char> {
    "Transcript: "@ + (match s.data_file {
        Some(f) => short_path(f@, p.home@),
        None => "unknown"@,
    })
}

/// What the panel is made of.
pub open spec fn parts_of(s: Session, p: Places) -> Seq<PartView> {
    let instructions = PartView::Heading("── Instructions ──"@);
    let config = PartView::Heading("── Config ──"@);
    let skills = PartView::Heading("── Skills ──"@);
    let servers = PartView::Heading("── MCP ──"@);
    match s.provider {
        Provider::Claude => {
            let root = claude_root(s, p);
            seq![instructions, global_file(inside(root, p.names.file@), p.home@)] + local_file(
                s,
                p.names.file@,
                "./"@ + p.names.file@,
            ) + seq![
                skills,
                PartView::Skills { dir: inside(root, "skills"@) },
                servers,
                PartView::McpJson { path: inside(root, "settings.json"@), scope: "global"@ },
            ] + (if s.label_source@.len() == 0 {
                Seq::<PartView>::empty()
            } else {
                seq![PartView::McpJson { path: inside(s.label_source@, ".mcp.json"@), scope: "project"@ }]
            })
        },
        Provider::Codex => seq![
            instructions,
            named_file(inside(p.codex@, "AGENTS.md"@), "~/.codex/AGENTS.md"@, 30),
        ] + local_file(s, "AGENTS.md"@, "./AGENTS.md"@) + seq![
            config,
            named_file(inside(p.codex@, "config.toml"@), "~/.codex/config.toml"@, 30),
            skills,
            PartView::Skills { dir: inside(p.codex@, "skills"@) },
            servers,
            PartView::McpToml { path: inside(p.codex@, "config.toml"@) },
        ],
        Provider::Cursor => seq![
            PartView::Heading("── Cursor ──"@),
            PartView::Note("Native agent transcripts do not expose model, token, context, or cost data."@),
            PartView::Note(transcript_text(s, p)),
        ],
        Provider::OpenCode => seq![instructions] + local_file(s, "AGENTS.md"@, "./AGENTS.md"@) + seq![
            config,
            global_file(p.opencode@, p.home@),
        ],
        Provider::Pi => seq![instructions, global_file(inside(p.pi@, "AGENTS.md"@), p.home@)] + local_file(
            s,
            "AGENTS.md"@,
            "./AGENTS.md"@,
        ) + seq![
            config,
            global_file(inside(p.pi@, "settings.json"@), p.home@),
            skills,
            PartView::Skills { dir: inside(p.pi@, "skills"@) },
        ],
        Provider::Gemini => seq![instructions, global_file(inside(p.gemini@, "GEMINI.md"@), p.home@)] + local_file(
            s,
            "GEMINI.md"@,
            "./GEMINI.md"@,
        ) + seq![
            config,
            global_file(inside(p.gemini@, "settings.json"@), p.home@),
            skills,
            PartView::Skills { dir: inside(p.gemini@, "skills"@) },
        ],
        Provider::Windsurf => seq![
            instructions,
            named_file(inside(s.label_source@, ".windsurfrules"@), "./.windsurfrules"@, 40),
        ],
    }
}

fn put(v: &mut Vec<Part>, p: Part)
    ensures
        parts_view(final(v)@) == parts_view(old(v)@).push(p@),
{
    let ghost pv = p@;
    v.push(p);
    assert(parts_view(v@) =~= parts_view(old(v)@).push(pv));
}

fn put_local(v: &mut Vec<Part>, s: &Session, name: &str, display: &str)
    ensures
        parts_view(final(v)@) == parts_view(old(v)@) + local_file(*s, name@, display@),
{
    if count(s.label_source.as_str()) > 0 {
        put(v, named_file_of(inside_of(s.label_source.as_str(), name), display, 40));
    }
    assert(parts_view(v@) =~= parts_view(old(v)@) + local_file(*s, name@, display@));
}

/// What the panel is made of, and so which files it needs.
pub fn config_parts(s: &Session, p: &Places) -> (r: Vec<Part>)
    ensures
        parts_view(r@) == parts_of(*s, *p),
{
    let home = p.home.as_str();
    let mut v: Vec<Part> = Vec::new();
    assert(parts_view(v@) =~= Seq::<PartView>::empty());
    match s.provider {
        Provider::Claude => {
            let desktop = s.surface == Surface::DesktopCode || s.surface == Surface::DesktopCowork;
            let root = match &s.session_dir {
                Some(d) => {
                    if desktop {
                        inside_of(d.as_str(), cat(".", p.names.command.as_str()).as_str())
                    } else {
                        p.claude.clone()
                    }
                },
                None => p.claude.clone(),
            };
            let root = root.as_str();
            put(&mut v, Part::Heading("── Instructions ──"));
            put(&mut v, global_file_of(inside_of(root, p.names.file.as_str()), home));
            put_local(&mut v, s, p.names.file.as_str(), cat("./", p.names.file.as_str()).as_str());
            put(&mut v, Part::Heading("── Skills ──"));
            put(&mut v, Part::Skills { dir: inside_of(root, "skills") });
            put(&mut v, Part::Heading("── MCP ──"));
            put(&mut v, Part::McpJson { path: inside_of(root, "settings.json"), scope: "global" });
            if count(s.label_source.as_str()) > 0 {
                put(&mut v, Part::McpJson { path: inside_of(s.label_source.as_str(), ".mcp.json"), scope: "project" });
            }
        },
        Provider::Codex => {
            let root = p.codex.as_str();
            put(&mut v, Part::Heading("── Instructions ──"));
            put(&mut v, named_file_of(inside_of(root, "AGENTS.md"), "~/.codex/AGENTS.md", 30));
            put_local(&mut v, s, "AGENTS.md", "./AGENTS.md");
            put(&mut v, Part::Heading("── Config ──"));
            put(&mut v, named_file_of(inside_of(root, "config.toml"), "~/.codex/config.toml", 30));
            put(&mut v, Part::Heading("── Skills ──"));
            put(&mut v, Part::Skills { dir: inside_of(root, "skills") });
            put(&mut v, Part::Heading("── MCP ──"));
            put(&mut v, Part::McpToml { path: inside_of(root, "config.toml") });
        },
        Provider::Cursor => {
            put(&mut v, Part::Heading("── Cursor ──"));
            put(
                &mut v,
                Part::Note("Native agent transcripts do not expose model, token, context, or cost data.".to_owned()),
            );
            let file = match &s.data_file {
                Some(f) => tildify(f.as_str(), home),
                None => "unknown".to_owned(),
            };
            put(&mut v, Part::Note(cat("Transcript: ", file.as_str())));
        },
        Provider::OpenCode => {
            put(&mut v, Part::Heading("── Instructions ──"));
            put_local(&mut v, s, "AGENTS.md", "./AGENTS.md");
            put(&mut v, Part::Heading("── Config ──"));
            put(&mut v, global_file_of(p.opencode.clone(), home));
        },
        Provider::Pi => {
            let root = p.pi.as_str();
            put(&mut v, Part::Heading("── Instructions ──"));
            put(&mut v, global_file_of(inside_of(root, "AGENTS.md"), home));
            put_local(&mut v, s, "AGENTS.md", "./AGENTS.md");
            put(&mut v, Part::Heading("── Config ──"));
            put(&mut v, global_file_of(inside_of(root, "settings.json"), home));
            put(&mut v, Part::Heading("── Skills ──"));
            put(&mut v, Part::Skills { dir: inside_of(root, "skills") });
        },
        Provider::Gemini => {
            let root = p.gemini.as_str();
            put(&mut v, Part::Heading("── Instructions ──"));
            put(&mut v, global_file_of(inside_of(root, "GEMINI.md"), home));
            put_local(&mut v, s, "GEMINI.md", "./GEMINI.md");
            put(&mut v, Part::Heading("── Config ──"));
            put(&mut v, global_file_of(inside_of(root, "settings.json"), home));
            put(&mut v, Part::Heading("── Skills ──"));
            put(&mut v, Part::Skills { dir: inside_of(root, "skills") });
        },
        Provider::Windsurf => {
            put(&mut v, Part::Heading("── Instructions ──"));
            put(
                &mut v,
                named_file_of(inside_of(s.label_source.as_str(), ".windsurfrules"), "./.windsurfrules", 40),
            );
        },
    }
    assert(parts_view(v@) =~= parts_of(*s, *p));
    v
}

/// `s` with each tab written as four blanks.
pub open spec fn untabbed(s: Seq<char>) -> Seq<char>
    decreases s.len(),
{
    if s.len() == 0 {
        Seq::empty()
    } else if s.last() == '\t' {
        untabbed(s.drop_last()) + "    "@
    } else {
        untabbed(s.drop_last()).push(s.last())
    }
}

fn untab(s: &str) -> (r: String)
    ensures
        r@ == untabbed(s@),
{
    let v = chars_of(s);
    let mut out = String::new();
    let mut i: usize = 0;
    assert(out@ =~= untabbed(v@.take(0)));
    while i < v.len()
        invariant
            i <= v@.len(),
            out@ == untabbed(v@.take(i as int)),
        decreases v@.len() - i,
    {
        proof {
            assert(v@.take(i + 1).drop_last() =~= v@.take(i as int));
            assert(v@.take(i + 1).last() == v@[i as int]);
        }
        if v[i] == '\t' {
            out.append("    ");
        } else {
            out.push(v[i]);
        }
        i += 1;
    }
    assert(v@.take(i as int) =~= v@);
    out
}

/// The first `n` lines of a file.
pub open spec fn source_lines(lines: Seq<Seq<char>>, n: int) -> Seq<LineView>
    decreases n,
{
    if n <= 0 {
        nothing()
    } else {
        source_lines(lines, n - 1).push(blank().with("  "@ + untabbed(lines[n - 1]), Ink::Plain))
    }
}

/// The head of a file, under its name.
pub open spec fn section_lines(text: Seq<char>, display: Seq<char>, most: int) -> Seq<LineView> {
    let all = lines_of(text);
    let n = if all.len() > most {
        most
    } else {
        all.len() as int
    };
    let t = nothing().push(blank().with_bold(display, Ink::BorderHi)) + source_lines(all, n);
    let t = if all.len() > most {
        t.push(blank().with("  … (truncated)"@, Ink::Dim))
    } else {
        t
    };
    t.push(blank())
}

/// The first `most` lines of a file, under its name.
pub fn file_section(text: &str, display: &str, most: usize) -> (r: Text)
    ensures
        r@ == section_lines(text@, display@, most as int),
{
    let all = lines(text);
    let ghost says = words(all@);
    let n: usize = if all.len() > most {
        most
    } else {
        all.len()
    };
    let mut t = Text::new();
    let mut l = Line::new();
    l.put_bold(display, Ink::BorderHi);
    t.push(l);
    let ghost top = t@;
    let mut i: usize = 0;
    assert(top + source_lines(says, 0) =~= top);
    while i < n
        invariant
            i <= n <= all@.len(),
            says == words(all@),
            t@ == top + source_lines(says, i as int),
        decreases n - i,
    {
        assert(says[i as int] == all@[i as int]@);
        t.push(line_of(cat("  ", untab(all[i].as_str()).as_str()).as_str(), Ink::Plain));
        assert(t@ =~= top + source_lines(says, i + 1));
        i += 1;
    }
    assert(says.len() == all@.len());
    if all.len() > most {
        t.push(line_of("  … (truncated)", Ink::Dim));
    }
    t.gap();
    t
}

/// What the last of the first `n` lines that begins with `mark` says behind it.
pub open spec fn said_of(lines: Seq<Seq<char>>, mark: Seq<char>, otherwise: Seq<char>, n: int) -> Seq<char>
    decreases n,
{
    if n <= 0 {
        otherwise
    } else if begins(lines[n - 1], mark) {
        trimmed(lines[n - 1].skip(mark.len() as int))
    } else {
        said_of(lines, mark, otherwise, n - 1)
    }
}

fn said_of_lines(all: &Vec<String>, mark: &str, otherwise: &str, n: usize) -> (r: String)
    requires
        n <= all@.len(),
    ensures
        r@ == said_of(words(all@), mark@, otherwise@, n as int),
{
    let ghost says = words(all@);
    let mut said = otherwise.to_owned();
    let mut i: usize = 0;
    while i < n
        invariant
            i <= n <= all@.len(),
            says == words(all@),
            said@ == said_of(says, mark@, otherwise@, i as int),
        decreases n - i,
    {
        assert(says[i as int] == all@[i as int]@);
        match after_prefix(all[i].as_str(), mark) {
            Some(rest) => {
                said = trim(rest.as_str());
            },
            None => {},
        }
        i += 1;
    }
    said
}

/// How many lines of a skill's description are read.
pub open spec fn read_lines(lines: Seq<Seq<char>>) -> int {
    if lines.len() > 20 {
        20
    } else {
        lines.len() as int
    }
}

/// A skill's name and description.
pub open spec fn skill_line(skill: Skill) -> LineView {
    let (name, desc) = match skill.text {
        Some(t) => {
            let all = lines_of(t@);
            let n = read_lines(all);
            (said_of(all, "name:"@, skill.entry@, n), said_of(all, "description:"@, ""@, n))
        },
        None => (skill.entry@, ""@),
    };
    let l = blank().with(name, Ink::Low);
    if desc.len() > 0 {
        l.with("  "@, Ink::Plain).with(cut(desc, 80), Ink::Dim)
    } else {
        l
    }
}

fn skill_line_of(skill: &Skill) -> (r: Line)
    ensures
        r@ == skill_line(*skill),
{
    let (name, desc) = match &skill.text {
        Some(t) => {
            let all = lines(t.as_str());
            assert(words(all@).len() == all@.len());
            let n: usize = if all.len() > 20 {
                20
            } else {
                all.len()
            };
            (said_of_lines(&all, "name:", skill.entry.as_str(), n), said_of_lines(&all, "description:", "", n))
        },
        None => (skill.entry.clone(), "".to_owned()),
    };
    let mut l = line_of(name.as_str(), Ink::Low);
    if count(desc.as_str()) > 0 {
        l.put("  ", Ink::Plain);
        l.put(truncate(desc.as_str(), 80).as_str(), Ink::Dim);
    }
    l
}

/// The first `n` skills.
pub open spec fn skill_lines(skills: Seq<Skill>, n: int) -> Seq<LineView>
    decreases n,
{
    if n <= 0 {
        nothing()
    } else {
        skill_lines(skills, n - 1).push(skill_line(skills[n - 1]))
    }
}

/// The skills of a directory.
pub open spec fn skills_lines(dir: Seq<char>, found: Option<Vec<Skill>>) -> Seq<LineView> {
    match found {
        None => nothing().push(blank().with("No skills installed ("@ + dir + ")"@, Ink::Dimmer)),
        Some(v) => if v@.len() == 0 {
            nothing().push(blank().with("No skills installed"@, Ink::Dimmer))
        } else {
            skill_lines(v@, v@.len() as int)
        },
    }
}

/// The skills of a directory, by what each says of itself.
pub fn skill_list(dir: &str, found: Option<&Vec<Skill>>) -> (r: Text)
    ensures
        r@ == skills_lines(
            dir@,
            match found {
                Some(v) => Some(*v),
                None => None,
            },
        ),
{
    let mut t = Text::new();
    match found {
        None => {
            let mut s = cat("No skills installed (", dir);
            s.append(")");
            t.push(line_of(s.as_str(), Ink::Dimmer));
        },
        Some(v) => {
            let mut i: usize = 0;
            while i < v.len()
                invariant
                    i <= v@.len(),
                    t@ == skill_lines(v@, i as int),
                decreases v@.len() - i,
            {
                t.push(skill_line_of(&v[i]));
                i += 1;
            }
            if v.len() == 0 {
                t.push(line_of("No skills installed", Ink::Dimmer));
            }
        },
    }
    t
}

/// A server's line.
pub open spec fn server_line(name: Seq<char>, scope: Seq<char>, command: Option<Seq<char>>) -> LineView {
    let l = blank().with(name, Ink::Name).with("  "@, Ink::Plain).with("("@ + scope + ")"@, Ink::Dim);
    match command {
        Some(c) => l.with("  "@, Ink::Plain).with(c, Ink::Dim),
        None => l,
    }
}

/// Of the first `n` servers at `base`, those that are objects.
pub open spec fn server_lines(
    text: Seq<char>,
    base: Seq<Seq<char>>,
    names: Seq<Seq<char>>,
    scope: Seq<char>,
    n: int,
) -> Seq<LineView>
    decreases n,
{
    if n <= 0 {
        nothing()
    } else {
        let before = server_lines(text, base, names, scope, n - 1);
        let at = base.push(names[n - 1]);
        if json_members(text, at) is Some {
            before.push(server_line(names[n - 1], scope, json_text(text, at.push("command"@))))
        } else {
            before
        }
    }
}

/// Where a file's servers stand: under the name they have, or at the top.
pub open spec fn server_base(top: Seq<Seq<char>>) -> Seq<Seq<char>> {
    if top.contains("mcpServers"@) {
        seq!["mcpServers"@]
    } else {
        Seq::empty()
    }
}

/// The servers of a JSON text.
pub open spec fn json_servers(text: Seq<char>, scope: Seq<char>) -> Seq<LineView> {
    match json_members(text, Seq::empty()) {
        None => nothing(),
        Some(top) => {
            let base = server_base(top);
            match json_members(text, base) {
                None => nothing(),
                Some(names) => server_lines(text, base, names, scope, names.len() as int),
            }
        },
    }
}

fn has_word(v: &Vec<String>, word: &str) -> (r: bool)
    ensures
        r == words(v@).contains(word@),
{
    let mut i: usize = 0;
    while i < v.len()
        invariant
            i <= v@.len(),
            forall|j: int| 0 <= j < i ==> words(v@)[j] != word@,
        decreases v@.len() - i,
    {
        assert(words(v@)[i as int] == v@[i as int]@);
        if same(v[i].as_str(), word) {
            assert(words(v@)[i as int] == word@);
            return true;
        }
        i += 1;
    }
    false
}

fn copy_words(v: &Vec<String>) -> (r: Vec<String>)
    ensures
        words(r@) == words(v@),
{
    let mut out: Vec<String> = Vec::new();
    let mut i: usize = 0;
    assert(words(out@) =~= words(v@).take(0));
    while i < v.len()
        invariant
            i <= v@.len(),
            words(out@) == words(v@).take(i as int),
        decreases v@.len() - i,
    {
        crate::text::push_word(&mut out, v[i].clone());
        assert(words(v@)[i as int] == v@[i as int]@);
        assert(words(out@) =~= words(v@).take(i + 1));
        i += 1;
    }
    assert(words(v@).take(i as int) =~= words(v@));
    out
}

/// The servers of a JSON file. A project's file may hold them at the top.
pub fn mcp_from_json(text: &str, scope: &str) -> (r: Text)
    ensures
        r@ == json_servers(text@, scope@),
{
    let mut t = Text::new();
    let mut base: Vec<String> = Vec::new();
    assert(words(base@) =~= Seq::<Seq<char>>::empty());
    let top = match json_members_of(text, &base) {
        None => {
            return t;
        },
        Some(v) => v,
    };
    if has_word(&top, "mcpServers") {
        crate::text::push_word(&mut base, "mcpServers".to_owned());
        assert(words(base@) =~= seq!["mcpServers"@]);
    }
    assert(words(base@) == server_base(words(top@)));
    let names = match json_members_of(text, &base) {
        None => {
            return t;
        },
        Some(v) => v,
    };
    let ghost says = words(names@);
    let ghost under = words(base@);
    let mut i: usize = 0;
    while i < names.len()
        invariant
            i <= names@.len(),
            says == words(names@),
            under == words(base@),
            t@ == server_lines(text@, under, says, scope@, i as int),
        decreases names@.len() - i,
    {
        assert(says[i as int] == names@[i as int]@);
        let mut at = copy_words(&base);
        crate::text::push_word(&mut at, names[i].clone());
        let object = json_members_of(text, &at);
        if object.is_some() {
            crate::text::push_word(&mut at, "command".to_owned());
            let command = json_text_of(text, &at);
            let mut l = line_of(names[i].as_str(), Ink::Name);
            l.put("  ", Ink::Plain);
            let mut s = cat("(", scope);
            s.append(")");
            l.put(s.as_str(), Ink::Dim);
            match command {
                Some(c) => {
                    l.put("  ", Ink::Plain);
                    l.put(c.as_str(), Ink::Dim);
                },
                None => {},
            }
            t.push(l);
        }
        i += 1;
    }
    assert(says.len() == names@.len());
    t
}

/// The server a line of a TOML file opens the table of.
pub open spec fn server_of(line: Seq<char>) -> Option<Seq<char>> {
    let s = trimmed(line);
    if begins(s, "[mcp_servers."@) {
        let rest = s.skip("[mcp_servers."@.len() as int);
        if ends(rest, "]"@) {
            Some(rest.take(rest.len() - "]"@.len()))
        } else {
            None
        }
    } else {
        None
    }
}

/// The servers of the first `n` lines.
pub open spec fn toml_lines(lines: Seq<Seq<char>>, n: int) -> Seq<LineView>
    decreases n,
{
    if n <= 0 {
        nothing()
    } else {
        let before = toml_lines(lines, n - 1);
        match server_of(lines[n - 1]) {
            Some(name) => before.push(blank().with(name, Ink::Name)),
            None => before,
        }
    }
}

/// The servers of a TOML file.
pub open spec fn toml_servers(text: Option<Seq<char>>) -> Seq<LineView> {
    match text {
        None => nothing().push(blank().with("No MCP servers configured"@, Ink::Dimmer)),
        Some(t) => {
            let found = toml_lines(lines_of(t), lines_of(t).len() as int);
            if found.len() == 0 {
                nothing().push(blank().with("No MCP servers in config.toml"@, Ink::Dimmer))
            } else {
                found
            }
        },
    }
}

/// The servers of a TOML file, by the tables it opens.
pub fn mcp_from_toml(text: Option<&str>) -> (r: Text)
    ensures
        r@ == toml_servers(
            match text {
                Some(t) => Some(t@),
                None => None,
            },
        ),
{
    let mut t = Text::new();
    let text = match text {
        None => {
            t.push(line_of("No MCP servers configured", Ink::Dimmer));
            return t;
        },
        Some(x) => x,
    };
    let all = lines(text);
    let ghost says = words(all@);
    let mut i: usize = 0;
    while i < all.len()
        invariant
            i <= all@.len(),
            says == words(all@),
            t@ == toml_lines(says, i as int),
        decreases all@.len() - i,
    {
        assert(says[i as int] == all@[i as int]@);
        let s = trim(all[i].as_str());
        match after_prefix(s.as_str(), "[mcp_servers.") {
            Some(rest) => match before_suffix(rest.as_str(), "]") {
                Some(name) => {
                    t.push(line_of(name.as_str(), Ink::Name));
                },
                None => {},
            },
            None => {},
        }
        i += 1;
    }
    assert(says.len() == all@.len());
    if t.len() == 0 {
        t.push(line_of("No MCP servers in config.toml", Ink::Dimmer));
    }
    t
}

/// What one part of the panel says.
pub open spec fn part_lines(p: PartView, shelf: Shelf) -> Seq<LineView> {
    match p {
        PartView::Heading(t) => nothing().push(blank().with(t, Ink::Title)),
        PartView::File { path, display, most, missing } => match shelf.files.at(path) {
            Some(text) => section_lines(text@, display, most as int),
            None => nothing().push(blank().with(missing, Ink::Dimmer)),
        },
        PartView::Skills { dir } => skills_lines(dir, shelf.skills.at(dir)),
        PartView::McpJson { path, scope } => match shelf.files.at(path) {
            Some(text) => json_servers(text@, scope),
            None => nothing(),
        },
        PartView::McpToml { path } => toml_servers(
            match shelf.files.at(path) {
                Some(text) => Some(text@),
                None => None,
            },
        ),
        PartView::Note(t) => nothing().push(blank().with(t, Ink::Dim)),
    }
}

fn part_text(p: &Part, shelf: &Shelf) -> (r: Text)
    ensures
        r@ == part_lines(p@, *shelf),
{
    let mut t = Text::new();
    match p {
        Part::Heading(text) => {
            t.push(line_of(text, Ink::Title));
        },
        Part::File { path, display, most, missing } => match shelf.files.get(path.as_str()) {
            Some(text) => {
                return file_section(text.as_str(), display.as_str(), *most);
            },
            None => {
                t.push(line_of(missing.as_str(), Ink::Dimmer));
            },
        },
        Part::Skills { dir } => {
            return skill_list(dir.as_str(), shelf.skills.get(dir.as_str()));
        },
        Part::McpJson { path, scope } => match shelf.files.get(path.as_str()) {
            Some(text) => {
                return mcp_from_json(text.as_str(), scope);
            },
            None => {},
        },
        Part::McpToml { path } => match shelf.files.get(path.as_str()) {
            Some(text) => {
                return mcp_from_toml(Some(text.as_str()));
            },
            None => {
                return mcp_from_toml(None);
            },
        },
        Part::Note(text) => {
            t.push(line_of(text.as_str(), Ink::Dim));
        },
    }
    t
}

/// What the first `n` parts say.
pub open spec fn config_lines(parts: Seq<PartView>, shelf: Shelf, n: int) -> Seq<LineView>
    decreases n,
{
    if n <= 0 {
        nothing()
    } else {
        config_lines(parts, shelf, n - 1) + part_lines(parts[n - 1], shelf)
    }
}

/// Instructions, skills and servers behind a session, from what was found of the
/// files that [`config_parts`] names.
pub fn config(session: &Session, places: &Places, shelf: &Shelf) -> (r: Text)
    ensures
        r@ == config_lines(parts_of(*session, *places), *shelf, parts_of(*session, *places).len() as int),
{
    let parts = config_parts(session, places);
    let ghost says = parts_view(parts@);
    let mut t = Text::new();
    let mut i: usize = 0;
    while i < parts.len()
        invariant
            i <= parts@.len(),
            says == parts_view(parts@),
            t@ == config_lines(says, *shelf, i as int),
        decreases parts@.len() - i,
    {
        assert(says[i as int] == parts@[i as int]@);
        t.append(part_text(&parts[i], shelf));
        i += 1;
    }
    assert(says.len() == parts@.len());
    t
}

/// A file in a directory is that directory's path and then the file's name, with one
/// slash between them.
pub proof fn a_path_is_joined_once(dir: Seq<char>, name: Seq<char>)
    requires
        dir.len() > 0,
        dir.last() != '/',
    ensures
        inside(dir, name) == dir + "/"@ + name,
        inside(dir + "/"@, name) == dir + "/"@ + name,
        inside(""@, name) == name,
{
    reveal_strlit("/");
    reveal_strlit("");
    assert((dir + "/"@).last() == '/');
}

/// Each agent's own instructions are shown, of its own directory, and those of the
/// directory it works in where that is known; no agent's panel shows another's files.
pub proof fn an_agent_is_shown_its_own_files(s: Session, p: Places)
    ensures
        s.provider == Provider::Claude && s.surface == Surface::Cli ==> parts_of(s, p)[1] == global_file(
            inside(p.claude@, p.names.file@),
            p.home@,
        ),
        s.provider == Provider::Claude && s.surface == Surface::DesktopCode && s.session_dir is Some ==> parts_of(s, p)[1]
            == global_file(inside(inside((s.session_dir->0)@, "."@ + p.names.command@), p.names.file@), p.home@),
        s.provider == Provider::Codex ==> {
            &&& parts_of(s, p)[1] == named_file(inside(p.codex@, "AGENTS.md"@), "~/.codex/AGENTS.md"@, 30)
            &&& parts_of(s, p).last() == (PartView::McpToml { path: inside(p.codex@, "config.toml"@) })
        },
        s.provider == Provider::Pi ==> parts_of(s, p)[1] == global_file(inside(p.pi@, "AGENTS.md"@), p.home@)
            && parts_of(s, p).last() == (PartView::Skills { dir: inside(p.pi@, "skills"@) }),
        s.provider == Provider::Gemini ==> parts_of(s, p)[1] == global_file(inside(p.gemini@, "GEMINI.md"@), p.home@)
            && parts_of(s, p).last() == (PartView::Skills { dir: inside(p.gemini@, "skills"@) }),
        s.provider == Provider::OpenCode ==> parts_of(s, p).last() == global_file(p.opencode@, p.home@),
        s.label_source@.len() > 0 ==> {
            &&& s.provider == Provider::Claude ==> parts_of(s, p)[2] == named_file(
                inside(s.label_source@, p.names.file@),
                "./"@ + p.names.file@,
                40,
            ) && parts_of(s, p).last() == (PartView::McpJson {
                path: inside(s.label_source@, ".mcp.json"@),
                scope: "project"@,
            })
            &&& s.provider == Provider::Codex || s.provider == Provider::Pi ==> parts_of(s, p)[2] == named_file(
                inside(s.label_source@, "AGENTS.md"@),
                "./AGENTS.md"@,
                40,
            )
            &&& s.provider == Provider::OpenCode ==> parts_of(s, p)[1] == named_file(
                inside(s.label_source@, "AGENTS.md"@),
                "./AGENTS.md"@,
                40,
            )
            &&& s.provider == Provider::Gemini ==> parts_of(s, p)[2] == named_file(
                inside(s.label_source@, "GEMINI.md"@),
                "./GEMINI.md"@,
                40,
            )
        },
{
}

proof fn lines_are_listed(lines: Seq<Seq<char>>, n: int, i: int)
    requires
        0 <= i < n <= lines.len(),
    ensures
        source_lines(lines, n).len() == n,
        source_lines(lines, n)[i].spans[0].text == "  "@ + untabbed(lines[i]),
    decreases n,
{
    assert(source_lines(lines, 0).len() == 0);
    if n > 1 {
        lines_are_listed(lines, n - 1, if i < n - 1 {
            i
        } else {
            0
        });
    }
}

/// A file is shown under its name by its first lines, in their order, and it is said
/// where there are more than are shown.
pub proof fn a_file_is_shown_from_its_top(text: Seq<char>, display: Seq<char>, most: int, i: int)
    requires
        most >= 0,
    ensures
        ({
            let all = lines_of(text);
            let shown = section_lines(text, display, most);
            &&& shown[0].spans[0].text == display
            &&& 0 <= i < all.len() && i < most ==> shown[1 + i].spans[0].text == "  "@ + untabbed(all[i])
            &&& all.len() <= most ==> shown.len() == all.len() + 2
            &&& all.len() > most ==> shown.len() == most + 3 && shown[most + 1].spans[0].text == "  … (truncated)"@
        }),
{
    let all = lines_of(text);
    let n = if all.len() > most {
        most
    } else {
        all.len() as int
    };
    if n > 0 {
        lines_are_listed(all, n, if 0 <= i < n {
            i
        } else {
            0
        });
    } else {
        assert(source_lines(all, n).len() == 0);
    }
}

/// What is said of a skill is what stands behind the mark on the last line that begins
/// with it, and what it is called where none does.
pub proof fn a_mark_is_read_where_it_stands(lines: Seq<Seq<char>>, mark: Seq<char>, otherwise: Seq<char>, n: int, k: int)
    requires
        0 <= n <= lines.len(),
        -1 <= k < n,
        k >= 0 ==> begins(lines[k], mark),
        forall|j: int| k < j < n ==> !begins(#[trigger] lines[j], mark),
    ensures
        k >= 0 ==> said_of(lines, mark, otherwise, n) == trimmed(lines[k].skip(mark.len() as int)),
        k < 0 ==> said_of(lines, mark, otherwise, n) == otherwise,
    decreases n,
{
    if n > 0 && k < n - 1 {
        assert(!begins(lines[n - 1], mark));
        a_mark_is_read_where_it_stands(lines, mark, otherwise, n - 1, k);
    }
}

proof fn skills_are_listed(skills: Seq<Skill>, n: int, i: int)
    requires
        0 <= i < n <= skills.len(),
    ensures
        skill_lines(skills, n).len() == n,
        skill_lines(skills, n)[i] == skill_line(skills[i]),
    decreases n,
{
    assert(skill_lines(skills, 0).len() == 0);
    if n > 1 {
        skills_are_listed(skills, n - 1, if i < n - 1 {
            i
        } else {
            0
        });
    }
}

/// Every skill of a directory has its line, with its own name; one of which nothing
/// could be read is called by its file's.
pub proof fn every_skill_has_its_line(dir: Seq<char>, found: Vec<Skill>, i: int)
    requires
        0 <= i < found@.len(),
    ensures
        skills_lines(dir, Some(found)).len() == found@.len(),
        skills_lines(dir, Some(found))[i] == skill_line(found@[i]),
        found@[i].text is None ==> skill_line(found@[i]).spans[0].text == found@[i].entry@,
{
    skills_are_listed(found@, found@.len() as int, i);
}

/// A table of a server's is told by the name between the dot and the bracket.
pub proof fn a_table_names_its_server(name: Seq<char>)
    requires
        trimmed("[mcp_servers."@ + name + "]"@) == "[mcp_servers."@ + name + "]"@,
    ensures
        server_of("[mcp_servers."@ + name + "]"@) == Some(name),
{
    let s = "[mcp_servers."@ + name + "]"@;
    let head = "[mcp_servers."@;
    assert(s.take(head.len() as int) =~= head);
    let rest = s.skip(head.len() as int);
    assert(rest =~= name + "]"@);
    assert(rest.skip(rest.len() - "]"@.len()) =~= "]"@);
    assert(rest.take(rest.len() - "]"@.len()) =~= name);
}

/// What the panel says of its parts stands in the parts' order, each part whole.
pub proof fn every_part_is_said(parts: Seq<PartView>, shelf: Shelf, n: int, k: int)
    requires
        0 <= k < n <= parts.len(),
    ensures
        ({
            let from = config_lines(parts, shelf, k).len() as int;
            let own = part_lines(parts[k], shelf);
            &&& from + own.len() <= config_lines(parts, shelf, n).len()
            &&& config_lines(parts, shelf, n).subrange(from, from + own.len()) == own
        }),
    decreases n,
{
    let from = config_lines(parts, shelf, k).len() as int;
    let own = part_lines(parts[k], shelf);
    let all = config_lines(parts, shelf, n);
    let before = config_lines(parts, shelf, n - 1);
    if k < n - 1 {
        every_part_is_said(parts, shelf, n - 1, k);
        assert(all.subrange(from, from + own.len()) =~= before.subrange(from, from + own.len()));
    } else {
        assert(all.subrange(from, from + own.len()) =~= own);
    }
}

/// A part says what its own file holds, and that it is missing where it is; a file that
/// is not there is not said to hold anything.
pub proof fn a_part_says_what_its_file_holds(path: Seq<char>, display: Seq<char>, most: usize, missing: Seq<char>, shelf: Shelf)
    ensures
        shelf.files.at(path) matches Some(text) ==> part_lines(
            PartView::File { path, display, most, missing },
            shelf,
        ) == section_lines(text@, display, most as int),
        shelf.files.at(path) is None ==> part_lines(PartView::File { path, display, most, missing }, shelf).len() == 1
            && part_lines(PartView::File { path, display, most, missing }, shelf)[0].spans[0].text == missing,
{
}

} // verus!
