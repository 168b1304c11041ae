//! Decisions of the command-line tool: which command the arguments ask for,
//! the crate name read from a manifest, where the compiled module lies, and
//! what a new project holds.

use vstd::prelude::*;
use crate::text::{chars_of, has_prefix, push_char, split, split_chars, starts_with, string_of_range, views};

verus! {

/// What the command line asks for.
#[derive(Debug)]
pub enum Command {
    /// `init <name>`: create a new project named `name`.
    Init(String),
    /// Anything else: build the project and serve it.
    Serve,
}

/// `init <name>` when the first argument after the program is `init` and a
/// name follows; otherwise serving.
pub fn parse_command(args: &Vec<String>) -> (r: Command)
    ensures
        (args@.len() >= 3 && args@[1]@ == "init"@) ==> (r matches Command::Init(n) && n@ == args@[2]@),
        !(args@.len() >= 3 && args@[1]@ == "init"@) ==> r is Serve,
{
    if args.len() >= 3 && args[1] == String::from_str("init") {
        Command::Init(args[2].clone())
    } else {
        Command::Serve
    }
}

/// Unicode white space (the `White_Space` property, which std's
/// `char::is_whitespace` tests).
pub open spec fn is_space(c: char) -> bool {
    ||| ('\u{9}' <= c && c <= '\u{d}')
    ||| c == ' '
    ||| c == '\u{85}'
    ||| c == '\u{a0}'
    ||| c == '\u{1680}'
    ||| ('\u{2000}' <= c && c <= '\u{200a}')
    ||| c == '\u{2028}'
    ||| c == '\u{2029}'
    ||| c == '\u{202f}'
    ||| c == '\u{205f}'
    ||| c == '\u{3000}'
}

fn is_space_exec(c: char) -> (r: bool)
    ensures
        r == is_space(c),
{
    ('\u{9}' <= c && c <= '\u{d}') || c == ' ' || c == '\u{85}' || c == '\u{a0}' || c == '\u{1680}'
        || ('\u{2000}' <= c && c <= '\u{200a}') || c == '\u{2028}' || c == '\u{2029}' || c == '\u{202f}'
        || c == '\u{205f}' || c == '\u{3000}'
}

pub open spec fn trim_start(s: Seq<char>) -> Seq<char>
    decreases s.len(),
{
    if s.len() > 0 && is_space(s[0]) {
        trim_start(s.drop_first())
    } else {
        s
    }
}

pub open spec fn trim_end(s: Seq<char>) -> Seq<char>
    decreases s.len(),
{
    if s.len() > 0 && is_space(s.last()) {
        trim_end(s.drop_last())
    } else {
        s
    }
}

/// `s` without leading and trailing white space (std's `str::trim`).
pub open spec fn trim(s: Seq<char>) -> Seq<char> {
    trim_end(trim_start(s))
}

/// `s` trimmed, as a vector of characters.
fn trim_exec(s: &Vec<char>) -> (r: Vec<char>)
    ensures
        r@ == trim(s@),
{
    let mut a: usize = 0;
    assert(s@.skip(0) =~= s@);
    while a < s.len() && is_space_exec(s[a])
        invariant
            a <= s.len(),
            trim_start(s@) == trim_start(s@.skip(a as int)),
        decreases s.len() - a,
    {
        assert(s@.skip(a as int).drop_first() =~= s@.skip(a + 1));
        a = a + 1;
    }
    let ghost ts = s@.skip(a as int);
    assert(trim_start(s@) == ts);
    let mut b: usize = s.len();
    while b > a && is_space_exec(s[b - 1])
        invariant
            a <= b <= s.len(),
            trim_end(ts) == trim_end(s@.subrange(a as int, b as int)),
        decreases b,
    {
        assert(s@.subrange(a as int, b as int).drop_last() =~= s@.subrange(a as int, b - 1));
        b = b - 1;
    }
    assert(ts =~= s@.subrange(a as int, s.len() as int));
    let mut out: Vec<char> = Vec::new();
    let mut i = a;
    while i < b
        invariant
            a <= i <= b <= s.len(),
            out@ == s@.subrange(a as int, i as int),
        decreases b - i,
    {
        out.push(s[i]);
        i = i + 1;
        assert(out@ =~= s@.subrange(a as int, i as int));
    }
    out
}

/// A line without the carriage return of a `\r\n` ending.
pub open spec fn strip_cr(l: Seq<char>) -> Seq<char> {
    if l.len() > 0 && l.last() == '\r' {
        l.drop_last()
    } else {
        l
    }
}

/// The lines of a text (std's `str::lines`): split at `\n`, a `\r` before
/// the `\n` dropped, and no empty line after a final line ending.
pub open spec fn lines(s: Seq<char>) -> Seq<Seq<char>> {
    let parts = split(s, '\n');
    let n = if parts.last().len() == 0 {
        parts.len() - 1
    } else {
        parts.len() as int
    };
    Seq::new(
        n as nat,
        |i: int|
            if i < parts.len() - 1 {
                strip_cr(parts[i])
            } else {
                parts[i]
            },
    )
}

/// `-` replaced by `_` throughout.
pub open spec fn underscores(s: Seq<char>) -> Seq<char> {
    s.map_values(|c: char| if c == '-' { '_' } else { c })
}

/// The name in a `name = "..."` line: the text between its first two `"`
/// with `-` turned into `_`, or nothing when the line has no `"`.
pub open spec fn name_value(line: Seq<char>) -> Seq<char> {
    let parts = split(line, '"');
    if parts.len() > 1 {
        underscores(parts[1])
    } else {
        Seq::<char>::empty()
    }
}

/// The name given by the first line that starts (after white space) with
/// `name =`, or nothing.
pub open spec fn name_from_lines(ls: Seq<Seq<char>>) -> Seq<char>
    decreases ls.len(),
{
    if ls.len() == 0 {
        Seq::<char>::empty()
    } else if has_prefix(trim(ls[0]), "name ="@) {
        name_value(ls[0])
    } else {
        name_from_lines(ls.drop_first())
    }
}

/// The crate name that a `Cargo.toml` text gives, as it appears in the name
/// of the compiled module.
pub open spec fn manifest_name(toml: Seq<char>) -> Seq<char> {
    name_from_lines(lines(toml))
}

fn name_value_exec(line: &Vec<char>) -> (r: String)
    ensures
        r@ == name_value(line@),
{
    let parts = split_chars(line, '"');
    if parts.len() > 1 {
        let cs = chars_of(parts[1].as_str());
        let mut out = String::new();
        let mut i: usize = 0;
        while i < cs.len()
            invariant
                i <= cs.len(),
                out@ == underscores(cs@.take(i as int)),
            decreases cs.len() - i,
        {
            let c = if cs[i] == '-' {
                '_'
            } else {
                cs[i]
            };
            push_char(&mut out, c);
            i = i + 1;
            assert(out@ =~= underscores(cs@.take(i as int)));
        }
        assert(cs@.take(i as int) =~= cs@);
        assert(views(parts@)[1] == parts@[1]@);
        out
    } else {
        String::new()
    }
}

proof fn lemma_name_from_lines(ls: Seq<Seq<char>>, i: int)
    requires
        0 <= i <= ls.len(),
        forall|k: int| 0 <= k < i ==> !has_prefix(trim(#[trigger] ls[k]), "name ="@),
    ensures
        name_from_lines(ls) == name_from_lines(ls.skip(i)),
    decreases i,
{
    if i > 0 {
        lemma_name_from_lines(ls, i - 1);
        assert(ls.skip(i - 1).drop_first() =~= ls.skip(i));
        assert(ls.skip(i - 1)[0] == ls[i - 1]);
    } else {
        assert(ls.skip(0) =~= ls);
    }
}

/// Reads the crate name from a `Cargo.toml` text, with `-` turned into `_`
/// as in the name of the compiled module; empty when no line names it.
pub fn project_name(cargo_toml: &str) -> (r: String)
    ensures
        r@ == manifest_name(cargo_toml@),
{
    let cs = chars_of(cargo_toml);
    let parts = split_chars(&cs, '\n');
    proof {
        crate::text::lemma_split_nonempty(cs@, '\n');
    }
    let ghost ps = views(parts@);
    let last_len = chars_of(parts[parts.len() - 1].as_str()).len();
    let n = if last_len == 0 {
        parts.len() - 1
    } else {
        parts.len()
    };
    let ghost ls = lines(cargo_toml@);
    assert(ls.len() == n);
    let mut i: usize = 0;
    while i < n
        invariant
            i <= n <= parts.len(),
            ps == views(parts@),
            ps == split(cargo_toml@, '\n'),
            ls == lines(cargo_toml@),
            ls.len() == n,
            forall|k: int| 0 <= k < i ==> !has_prefix(trim(#[trigger] ls[k]), "name ="@),
        decreases n - i,
    {
        let pcs = chars_of(parts[i].as_str());
        let line = if i + 1 < parts.len() && pcs.len() > 0 && pcs[pcs.len() - 1] == '\r' {
            let mut l = pcs;
            l.pop();
            l
        } else {
            pcs
        };
        assert(line@ =~= ls[i as int]);
        let t = trim_exec(&line);
        if starts_with(&t, "name =") {
            proof {
                lemma_name_from_lines(ls, i as int);
                assert(ls.skip(i as int)[0] == ls[i as int]);
            }
            return name_value_exec(&line);
        }
        i = i + 1;
    }
    proof {
        lemma_name_from_lines(ls, i as int);
        assert(ls.skip(i as int).len() == 0);
    }
    String::new()
}

/// Where `wasm-bindgen` finds the compiled module of crate `name`.
pub fn wasm_path(name: &str) -> (r: String)
    ensures
        r@ == "target/wasm32-unknown-unknown/debug/"@ + name@ + ".wasm"@,
{
    let mut out = String::from_str("target/wasm32-unknown-unknown/debug/");
    out.append(name);
    out.append(".wasm");
    out
}

/// The entry point of a new project.
pub const LIB_TEMPLATE: &'static str = r#"use oxirast_core::{mount_to_body, render_vnode, VNode};
use oxirast_parser::rsx;

#[allow(non_snake_case)]
pub fn App() -> VNode {
    rsx!(
        <div class="container">
            <h1>"Welcome to Oxirast"</h1>
            <p>"Your WebAssembly framework is ready."</p>
        </div>
    )
}

#[wasm_bindgen::prelude::wasm_bindgen(start)]
pub fn main() {
    let app = App();
    mount_to_body(&render_vnode(&app));
}
"#;

/// The style sheet of a new project.
pub const STYLE_TEMPLATE: &'static str = r#"body {
    font-family: system-ui, sans-serif;
    background-color: #f4f4f9;
    color: #333;
    display: flex;
    justify-content: center;
    align-items: center;
    height: 100vh;
    margin: 0;
}
.container {
    text-align: center;
    padding: 2rem;
    background: white;
    border-radius: 12px;
    box-shadow: 0 4px 12px rgba(0,0,0,0.1);
}
h1 { color: #ff4500; }
"#;

/// The manifest of a new project, before its name.
pub const MANIFEST_HEAD: &'static str = r#"[package]
name = ""#;

/// The manifest of a new project, after its name.
pub const MANIFEST_TAIL: &'static str = r#""
version = "0.1.0"
edition = "2021"

[lib]
crate-type = ["cdylib"]

[dependencies]
oxirast-core = "0.1.0"
oxirast-parser = "0.1.0"
wasm-bindgen = "0.2"
serde = { version = "1.0", features = ["derive"] }
"#;

/// The `Cargo.toml` of a new project named `name`.
pub fn cargo_manifest(name: &str) -> (r: String)
    ensures
        r@ == MANIFEST_HEAD@ + name@ + MANIFEST_TAIL@,
{
    let mut out = String::from_str(MANIFEST_HEAD);
    out.append(name);
    out.append(MANIFEST_TAIL);
    out
}

/// The directories and files of a new project.
#[derive(Debug)]
pub struct ScaffoldPlan {
    pub dirs: Vec<String>,
    pub files: Vec<(String, String)>,
}

fn joined(a: &str, b: &str) -> (r: String)
    ensures
        r@ == a@ + b@,
{
    let mut out = String::from_str(a);
    out.append(b);
    out
}

/// What `init <name>` creates: the directories `name/src/pages` and
/// `name/public/assets`, then the manifest, the entry point and the style
/// sheet.
pub fn scaffold_plan(project_name: &str) -> (r: ScaffoldPlan)
    ensures
        views(r.dirs@) == seq![project_name@ + "/src/pages"@, project_name@ + "/public/assets"@],
        r.files@.len() == 3,
        r.files@[0].0@ == project_name@ + "/Cargo.toml"@,
        r.files@[0].1@ == MANIFEST_HEAD@ + project_name@ + MANIFEST_TAIL@,
        r.files@[1].0@ == project_name@ + "/src/lib.rs"@,
        r.files@[1].1@ == LIB_TEMPLATE@,
        r.files@[2].0@ == project_name@ + "/public/style.css"@,
        r.files@[2].1@ == STYLE_TEMPLATE@,
{
    let mut dirs: Vec<String> = Vec::new();
    dirs.push(joined(project_name, "/src/pages"));
    dirs.push(joined(project_name, "/public/assets"));
    let mut files: Vec<(String, String)> = Vec::new();
    files.push((joined(project_name, "/Cargo.toml"), cargo_manifest(project_name)));
    files.push((joined(project_name, "/src/lib.rs"), String::from_str(LIB_TEMPLATE)));
    files.push((joined(project_name, "/public/style.css"), String::from_str(STYLE_TEMPLATE)));
    assert(views(dirs@) =~= seq![project_name@ + "/src/pages"@, project_name@ + "/public/assets"@]);
    ScaffoldPlan { dirs, files }
}

proof fn lemma_manifest_lines(name: Seq<char>, first: Seq<char>, line: Seq<char>)
    requires
        forall|i: int| 0 <= i < name.len() ==> name[i] != '"' && name[i] != '\n' && name[i] != '\r',
        first == seq!['[', 'p', 'a', 'c', 'k', 'a', 'g', 'e', ']'],
        line == seq!['n', 'a', 'm', 'e', ' ', '=', ' ', '"'] + name + seq!['"'],
    ensures
        lines(MANIFEST_HEAD@ + name + MANIFEST_TAIL@).len() >= 2,
        lines(MANIFEST_HEAD@ + name + MANIFEST_TAIL@)[0] == first,
        lines(MANIFEST_HEAD@ + name + MANIFEST_TAIL@)[1] == line,
{
    reveal_strlit("[package]\nname = \"");
    reveal_strlit("\"\nversion = \"0.1.0\"\nedition = \"2021\"\n\n[lib]\ncrate-type = [\"cdylib\"]\n\n[dependencies]\noxirast-core = \"0.1.0\"\noxirast-parser = \"0.1.0\"\nwasm-bindgen = \"0.2\"\nserde = { version = \"1.0\", features = [\"derive\"] }\n");
    let rest = MANIFEST_TAIL@.skip(2);
    let s = MANIFEST_HEAD@ + name + MANIFEST_TAIL@;
    assert(s =~= first + seq!['\n'] + (line + seq!['\n'] + rest));
    crate::text::lemma_split_concat(first, line + seq!['\n'] + rest, '\n');
    crate::text::lemma_split_concat(line, rest, '\n');
    crate::text::lemma_split_no_sep(first, '\n');
    assert forall|i: int| 0 <= i < line.len() implies line[i] != '\n' by {
        if 8 <= i < 8 + name.len() {
            assert(line[i] == name[i - 8]);
        }
    }
    crate::text::lemma_split_no_sep(line, '\n');
    crate::text::lemma_split_nonempty(rest, '\n');
    let parts = split(s, '\n');
    assert(parts =~= seq![first] + (seq![line] + split(rest, '\n')));
    assert(parts[0] == first);
    assert(parts[1] == line);
    assert(first.last() != '\r');
    assert(line.last() != '\r');
}

proof fn lemma_name_line(name: Seq<char>, line: Seq<char>)
    requires
        forall|i: int| 0 <= i < name.len() ==> name[i] != '"',
        line == seq!['n', 'a', 'm', 'e', ' ', '=', ' ', '"'] + name + seq!['"'],
    ensures
        name_value(line) == underscores(name),
        trim(line) == line,
{
    let key: Seq<char> = seq!['n', 'a', 'm', 'e', ' ', '=', ' '];
    crate::text::lemma_split_concat(key, name + seq!['"'], '"');
    crate::text::lemma_split_concat(name, Seq::<char>::empty(), '"');
    crate::text::lemma_split_no_sep(key, '"');
    crate::text::lemma_split_no_sep(name, '"');
    crate::text::lemma_split_no_sep(Seq::<char>::empty(), '"');
    assert(line =~= key + seq!['"'] + (name + seq!['"'] + Seq::<char>::empty()));
    assert(name + seq!['"'] + Seq::<char>::empty() =~= name + seq!['"'] + Seq::<char>::empty());
    assert(split(line, '"') =~= seq![key] + (seq![name] + seq![Seq::<char>::empty()]));
    assert(trim_start(line) == line);
    assert(trim_end(line) == line);
}

/// A project created by `init` is built under its own name: the crate name
/// read back from the manifest of a new project is the project's name (with
/// `-` turned into `_`), for any name without `"` and line breaks.
pub proof fn law_scaffolded_name(name: Seq<char>)
    requires
        forall|i: int| 0 <= i < name.len() ==> name[i] != '"' && name[i] != '\n' && name[i] != '\r',
    ensures
        manifest_name(MANIFEST_HEAD@ + name + MANIFEST_TAIL@) == underscores(name),
{
    reveal_strlit("name =");
    let first: Seq<char> = seq!['[', 'p', 'a', 'c', 'k', 'a', 'g', 'e', ']'];
    let line = seq!['n', 'a', 'm', 'e', ' ', '=', ' ', '"'] + name + seq!['"'];
    lemma_manifest_lines(name, first, line);
    lemma_name_line(name, line);
    let ls = lines(MANIFEST_HEAD@ + name + MANIFEST_TAIL@);
    assert(trim_start(first) == first);
    assert(trim_end(first) == first);
    assert(first.subrange(0, 6)[0] == '[');
    assert("name ="@[0] == 'n');
    assert(!has_prefix(trim(ls[0]), "name ="@));
    assert(line.subrange(0, 6) =~= "name ="@);
    assert(ls.drop_first()[0] == line);
    assert(has_prefix(trim(ls.drop_first()[0]), "name ="@));
    assert(name_from_lines(ls.drop_first()) == name_value(line));
    assert(name_from_lines(ls) == name_from_lines(ls.drop_first()));
}

} // verus!
