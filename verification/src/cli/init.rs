use crate::project::file_name;
use crate::text::{
    append, chars_of, first_at, is_ascii_alphanumeric, joined, lemma_first_occurs, lemma_some_occurrence, occurrences,
    occurs, occurs_at, push_char, string_of,
};
use vstd::prelude::*;

verus! {

pub const CONTRACT_PATH: &'static str = "contracts/behavior/core.bla";

pub const AGENTS_PATH: &'static str = "AGENTS.md";

pub const SKILL_PATH: &'static str = ".agents/skills/blabla/SKILL.md";


pub const MARKER_START: &'static str = "<!-- blabla:start -->";

pub const MARKER_END: &'static str = "<!-- blabla:end -->";

/// The contract `init` drafts for a new project.
pub const STARTER_CONTRACT: &'static str = "type Item {\n    id: int,\n    text: string\n}\n\nstate items: [Item]\n\naction add(text: string)\naction restart()\n\nwhen add {\n    expect \"add-creates-item\":\n        input.text == \"\" or any(after.items, item => item.text == input.text)\n}\n\nwhen restart {\n    expect \"persistence\": after.items == before.items\n}\n\nalways \"unique-ids\" {\n    unique(items, item => item.id)\n}\n";

/// What `init` is asked to do.
#[derive(Clone, Debug)]
pub struct Options {
    pub dir: String,
    pub name: Option<String>,
    pub agents: bool,
    pub dry_run: bool,
    pub command: Vec<String>,
}

/// One file `init` created, found or would create.
#[derive(Clone, Debug)]
pub struct Step {
    pub path: String,
    pub action: String,
}

/// What `init` did.
#[derive(Clone, Debug)]
pub struct Outcome {
    pub directory: String,
    pub name: String,
    pub dry_run: bool,
    pub profile: bool,
    pub steps: Vec<Step>,
    pub nested_in: Option<String>,
    pub agents_block: Option<String>,
    pub entry_teaches: Vec<&'static str>,
}

/// The topics the agents' entry teaches, in order.
pub open spec fn skill_topics() -> Seq<Seq<char>> {
    seq![
        "assignment"@,
        "role"@,
        "scope"@,
        "verification"@,
        "acceptance"@,
        "evidence"@,
        "blocker"@,
        "challenge"@,
        "hand-back"@,
    ]
}

/// The topics the agents' entry teaches.
pub fn entry_teaches() -> (topics: Vec<&'static str>)
    ensures
        topics@.map_values(|t: &'static str| t@) == skill_topics(),
{
    let topics: Vec<&'static str> = vec![
        "assignment",
        "role",
        "scope",
        "verification",
        "acceptance",
        "evidence",
        "blocker",
        "challenge",
        "hand-back",
    ];
    assert(topics@.map_values(|t: &'static str| t@) =~= skill_topics());
    topics
}

/// A command element as the manifest quotes it: backslashes become slashes and quotes are
/// escaped.
pub open spec fn escaped(e: Seq<char>) -> Seq<char>
    decreases e.len(),
{
    if e.len() == 0 {
        Seq::empty()
    } else {
        let c = e.last();
        escaped(e.drop_last()) + if crate::project::ignore::is_backslash(c) {
            seq!['/']
        } else if c == '"' {
            seq![92 as char, '"']
        } else {
            seq![c]
        }
    }
}

/// The quoted command elements, joined with `, `.
pub open spec fn quoted_elements(command: Seq<Seq<char>>) -> Seq<char>
    decreases command.len(),
{
    if command.len() == 0 {
        Seq::empty()
    } else if command.len() == 1 {
        seq!['"'] + escaped(command[0]) + seq!['"']
    } else {
        quoted_elements(command.drop_last()) + ", "@ + seq!['"'] + escaped(command.last()) + seq!['"']
    }
}

/// The manifest `init` writes for project `name`, with a verification profile when a command
/// is given.
pub open spec fn manifest_text(name: Seq<char>, command: Seq<Seq<char>>) -> Seq<char> {
    let head = "project "@ + name + "\n\ndraft behavior \"contracts/behavior/core.bla\"\n"@;
    if command.len() == 0 {
        head
    } else {
        head + "\nverify behavior {\n    command ["@ + quoted_elements(command)
            + "]\n    seed 0\n    cases 16\n    steps 32\n    timeout_ms 1000\n    shrink_budget 256\n}\n"@
    }
}

fn escape_into(out: &mut String, e: &str)
    ensures
        final(out)@ == old(out)@ + escaped(e@),
{
    let cs = chars_of(e);
    let mut i: usize = 0;
    assert(cs@.take(0) =~= Seq::<char>::empty());
    assert(old(out)@ + Seq::<char>::empty() =~= old(out)@);
    while i < cs.len()
        invariant
            i <= cs.len(),
            cs@ == e@,
            out@ == old(out)@ + escaped(cs@.take(i as int)),
        decreases cs.len() - i,
    {
        let c = cs[i];
        let ghost before = out@;
        assert(cs@.take(i + 1).drop_last() =~= cs@.take(i as int));
        assert(cs@.take(i + 1).last() == c);
        if c as u32 == 92 {
            push_char(out, '/');
        } else if c == '"' {
            push_char(out, 92u8 as char);
            push_char(out, '"');
        } else {
            push_char(out, c);
        }
        assert(out@ =~= old(out)@ + escaped(cs@.take(i + 1)));
        i += 1;
    }
    assert(cs@.take(cs@.len() as int) =~= cs@);
}

/// The manifest `init` writes.
pub fn manifest(name: &str, command: &Vec<String>) -> (text: String)
    ensures
        text@ == manifest_text(name@, crate::project::strings_view(command@)),
{
    let mut text = joined("project ", name);
    append(&mut text, "\n\ndraft behavior \"contracts/behavior/core.bla\"\n");
    if command.len() > 0 {
        let ghost elements = crate::project::strings_view(command@);
        append(&mut text, "\nverify behavior {\n    command [");
        let ghost head = text@;
        let mut i: usize = 0;
        assert(head + Seq::<char>::empty() =~= head);
        while i < command.len()
            invariant
                0 < command.len(),
                i <= command.len(),
                elements == crate::project::strings_view(command@),
                text@ == head + quoted_elements(elements.take(i as int)),
            decreases command.len() - i,
        {
            let ghost before = text@;
            if i > 0 {
                append(&mut text, ", ");
            }
            proof {
                reveal_strlit("\"");
                reveal_strlit(", ");
            }
            append(&mut text, "\"");
            escape_into(&mut text, command[i].as_str());
            append(&mut text, "\"");
            proof {
                let t = elements.take(i + 1);
                assert(t.drop_last() =~= elements.take(i as int));
                assert(t.last() == command@[i as int]@);
                if i == 0 {
                    assert(t.len() == 1);
                    assert(t[0] == command@[0]@);
                    assert(text@ =~= head + quoted_elements(t));
                } else {
                    assert(text@ =~= head + quoted_elements(t));
                }
            }
            i += 1;
        }
        assert(elements.take(command.len() as int) =~= elements);
        append(&mut text, "]\n    seed 0\n    cases 16\n    steps 32\n    timeout_ms 1000\n    shrink_budget 256\n}\n");
    }
    text
}

/// The name `init` gives a project in directory `dir`: its last component with every
/// character that is not an ASCII letter, digit or underscore made an underscore; `Project`
/// when there is none, and `Project_` before one that starts with a digit.
pub open spec fn project_name_spec(dir: Seq<char>) -> Seq<char> {
    let raw = match file_name(dir) {
        Some(n) => n,
        None => Seq::empty(),
    };
    let name = raw.map_values(|c: char| if is_ascii_alphanumeric(c) || c == '_' {
        c
    } else {
        '_'
    });
    if name.len() == 0 {
        "Project"@
    } else if '0' <= name[0] <= '9' {
        "Project_"@ + name
    } else {
        name
    }
}

/// The project name `init` derives from directory `dir`.
pub fn project_name(dir: &str) -> (name: String)
    ensures
        name@ == project_name_spec(dir@),
{
    let stem = crate::project::file_name_text(dir);
    let cs = chars_of(stem.as_str());
    let mut out: Vec<char> = Vec::new();
    let mut i: usize = 0;
    while i < cs.len()
        invariant
            i <= cs.len(),
            cs@ == stem@,
            out@ == cs@.take(i as int).map_values(|c: char| if is_ascii_alphanumeric(c) || c == '_' {
                c
            } else {
                '_'
            }),
        decreases cs.len() - i,
    {
        let c = cs[i];
        let d = if crate::text::char_is_ascii_alphanumeric(c) || c == '_' {
            c
        } else {
            '_'
        };
        out.push(d);
        assert(cs@.take(i + 1) =~= cs@.take(i as int).push(c));
        assert(out@ =~= cs@.take(i + 1).map_values(|c: char| if is_ascii_alphanumeric(c) || c == '_' {
            c
        } else {
            '_'
        }));
        i += 1;
    }
    assert(cs@.take(cs@.len() as int) =~= cs@);
    if out.len() == 0 {
        "Project".to_owned()
    } else if '0' <= out[0] && out[0] <= '9' {
        let mut name = "Project_".to_owned();
        append(&mut name, string_of(out.as_slice()).as_str());
        name
    } else {
        string_of(out.as_slice())
    }
}

/// Whether `name` is an identifier: a letter or underscore, then letters, digits and
/// underscores.
pub open spec fn valid_name_spec(name: Seq<char>) -> bool {
    name.len() > 0 && (('a' <= name[0] <= 'z') || ('A' <= name[0] <= 'Z') || name[0] == '_')
        && forall|i: int| 1 <= i < name.len() ==> is_ascii_alphanumeric(#[trigger] name[i]) || name[i] == '_'
}

/// Whether `name` can name a project.
pub fn valid_name(name: &str) -> (b: bool)
    ensures
        b == valid_name_spec(name@),
{
    let cs = chars_of(name);
    if cs.len() == 0 {
        return false;
    }
    let first = cs[0];
    if !(('a' <= first && first <= 'z') || ('A' <= first && first <= 'Z') || first == '_') {
        return false;
    }
    let mut i: usize = 1;
    while i < cs.len()
        invariant
            1 <= i <= cs.len(),
            cs@ == name@,
            forall|k: int| 1 <= k < i ==> is_ascii_alphanumeric(#[trigger] cs@[k]) || cs@[k] == '_',
        decreases cs.len() - i,
    {
        if !(crate::text::char_is_ascii_alphanumeric(cs[i]) || cs[i] == '_') {
            return false;
        }
        i += 1;
    }
    true
}

/// How many times `p` occurs in `cs`, and where first.
fn scan(cs: &Vec<char>, p: &Vec<char>) -> (r: (usize, Option<usize>))
    ensures
        r.0 == occurrences(cs@, p@, cs@.len() as int),
        r.1 matches Some(k) ==> first_at(cs@, p@, 0) == Some(k as int) && k < cs@.len(),
        r.1 is None ==> first_at(cs@, p@, 0) is None,
{
    let mut count: usize = 0;
    let mut first: Option<usize> = None;
    let mut i: usize = 0;
    while i < cs.len()
        invariant
            i <= cs.len(),
            count == occurrences(cs@, p@, i as int),
            count <= i,
            first matches Some(k) ==> k < i && first_at(cs@, p@, 0) == Some(k as int),
            first is None ==> first_at(cs@, p@, 0) == first_at(cs@, p@, i as int),
        decreases cs.len() - i,
    {
        if occurs(cs, p, i) {
            count = count + 1;
            if first.is_none() {
                first = Some(i);
            }
        }
        i += 1;
    }
    (count, first)
}

/// How the agents' file is brought up to date.
pub enum Integration {
    /// The block is appended after `separator`.
    Append(String),
    /// The block between the markers is replaced.
    Update(String),
    /// The block is already there as it should be.
    Unchanged,
}

/// The separator `init` puts between an agents' file and the block it appends: none after
/// nothing or a blank line, a newline after a line, a blank line otherwise.
pub open spec fn separator(existing: Seq<char>) -> Seq<char> {
    if existing.len() == 0 || crate::text::ends_with(existing, "\n\n"@) {
        Seq::empty()
    } else if existing.last() == '\n' {
        "\n"@
    } else {
        "\n\n"@
    }
}

/// `block` without its trailing newlines.
pub open spec fn trim_newlines(block: Seq<char>) -> Seq<char>
    decreases block.len(),
{
    if block.len() > 0 && block.last() == '\n' {
        trim_newlines(block.drop_last())
    } else {
        block
    }
}

/// How `init` brings the agents' file `shown` (holding `existing`) up to date with `block`:
/// append it when the file has no markers, replace what lies between one start and one end
/// marker, or refuse a file whose markers are unmatched or out of order.
pub open spec fn integration_spec(existing: Seq<char>, block: Seq<char>, shown: Seq<char>) -> Result<
    (Seq<char>, Seq<char>),
    Seq<char>,
> {
    let start_marker = "<!-- blabla:start -->"@;
    let end_marker = "<!-- blabla:end -->"@;
    let starts = occurrences(existing, start_marker, existing.len() as int);
    let ends = occurrences(existing, end_marker, existing.len() as int);
    if starts == 0 && ends == 0 {
        Ok((existing + separator(existing) + block, "append"@))
    } else if starts == 1 && ends == 1 {
        let start = first_at(existing, start_marker, 0)->0;
        let end = first_at(existing, end_marker, 0)->0;
        if end < start {
            Err(shown + " has its BlaBla end marker before the start marker; repair it by hand"@)
        } else {
            let stop = end + end_marker.len();
            let trimmed = trim_newlines(block);
            if existing.subrange(start, stop) == trimmed {
                Ok((existing, "unchanged"@))
            } else {
                Ok((existing.take(start) + trimmed + existing.skip(stop), "update"@))
            }
        }
    } else {
        Err(
            shown + " has an unmatched BlaBla marker (<!-- blabla:start --> x"@ + crate::text::decimal(starts)
                + ", <!-- blabla:end --> x"@ + crate::text::decimal(ends) + "); repair it by hand"@,
        )
    }
}

/// The agents' file `shown` (holding `existing`) brought up to date with `block`: the new text
/// and what was done (`append`, `update` or `unchanged`), or why it must be repaired by hand.
pub fn integrate(existing: &str, block: &str, shown: &str) -> (r: Result<(String, &'static str), String>)
    ensures
        match integration_spec(existing@, block@, shown@) {
            Ok((text, action)) => r matches Ok((t, a)) && t@ == text && a@ == action,
            Err(m) => r matches Err(e) && e@ == m,
        },
{
    let cs = chars_of(existing);
    let start_marker = chars_of(MARKER_START);
    let end_marker = chars_of(MARKER_END);
    let (starts, first_start) = scan(&cs, &start_marker);
    let (ends, first_end) = scan(&cs, &end_marker);
    if starts == 0 && ends == 0 {
        let mut text = existing.to_owned();
        let n = cs.len();
        let blank_end = n >= 2 && cs[n - 1] == '\n' && cs[n - 2] == '\n';
        proof {
            reveal_strlit("\n\n");
            reveal_strlit("\n");
            if n >= 2 {
                assert(crate::text::ends_with(cs@, "\n\n"@) == (cs@[n - 1] == '\n' && cs@[n - 2] == '\n')) by {
                    let tail = cs@.skip(n - 2);
                    if cs@[n - 1] == '\n' && cs@[n - 2] == '\n' {
                        assert(tail =~= "\n\n"@);
                    } else {
                        assert(tail[0] == cs@[n - 2] && tail[1] == cs@[n - 1]);
                    }
                }
            }
        }
        if n == 0 || blank_end {
        } else if cs[n - 1] == '\n' {
            append(&mut text, "\n");
        } else {
            append(&mut text, "\n\n");
        }
        assert(text@ == existing@ + separator(existing@));
        append(&mut text, block);
        return Ok((text, "append"));
    }
    if starts == 1 && ends == 1 {
        proof {
            lemma_some_occurrence(cs@, start_marker@, cs@.len() as int);
            lemma_some_occurrence(cs@, end_marker@, cs@.len() as int);
        }
        let start = match first_start {
            Some(k) => k,
            None => {
                return Err(String::new());
            },
        };
        let end = match first_end {
            Some(k) => k,
            None => {
                return Err(String::new());
            },
        };
        if end < start {
            return Err(joined(shown, " has its BlaBla end marker before the start marker; repair it by hand"));
        }
        proof {
            lemma_first_occurs(cs@, end_marker@, 0);
            lemma_first_occurs(cs@, start_marker@, 0);
            assert(first_at(cs@, end_marker@, 0) == Some(end as int));
            assert(occurs_at(cs@, end_marker@, end as int));
        }
        let total = cs.len();
        let marker_len = end_marker.len();
        assert(end + marker_len <= total);
        let stop = end + marker_len;
        let bs = chars_of(block);
        let mut keep = bs.len();
        assert(bs@.take(keep as int) =~= bs@);
        while keep > 0 && bs[keep - 1] == '\n'
            invariant
                keep <= bs.len(),
                trim_newlines(bs@) == trim_newlines(bs@.take(keep as int)),
            decreases keep,
        {
            assert(bs@.take(keep as int).drop_last() =~= bs@.take(keep - 1));
            keep -= 1;
        }
        assert(bs@.take(keep as int) == trim_newlines(bs@)) by {
            if keep > 0 {
                assert(bs@.take(keep as int).last() == bs@[keep - 1]);
            } else {
                assert(bs@.take(0) =~= Seq::<char>::empty());
            }
        }
        let trimmed = crate::text::string_of_range(bs.as_slice(), 0, keep);
        let current = crate::text::string_of_range(cs.as_slice(), start, stop);
        if crate::text::str_eq(current.as_str(), trimmed.as_str()) {
            return Ok((existing.to_owned(), "unchanged"));
        }
        let mut text = crate::text::string_of_range(cs.as_slice(), 0, start);
        append(&mut text, trimmed.as_str());
        append(&mut text, crate::text::string_of_range(cs.as_slice(), stop, cs.len()).as_str());
        assert(cs@.subrange(0, start as int) =~= cs@.take(start as int));
        assert(cs@.subrange(stop as int, cs@.len() as int) =~= cs@.skip(stop as int));
        return Ok((text, "update"));
    }
    let mut m = joined(shown, " has an unmatched BlaBla marker (<!-- blabla:start --> x");
    append(&mut m, crate::text::decimal_text(starts as u64).as_str());
    append(&mut m, ", <!-- blabla:end --> x");
    append(&mut m, crate::text::decimal_text(ends as u64).as_str());
    append(&mut m, "); repair it by hand");
    Err(m)
}

/// `s` padded with spaces on the right to `width` characters (`{:<width}`).
pub open spec fn padded(s: Seq<char>, width: nat) -> Seq<char> {
    if s.len() < width {
        s + Seq::new((width - s.len()) as nat, |i: int| ' ')
    } else {
        s
    }
}

fn write_padded(out: &mut String, s: &str, width: usize)
    ensures
        final(out)@ == old(out)@ + padded(s@, width as nat),
{
    let ghost start = out@;
    append(out, s);
    let n = chars_of(s).len();
    let mut k: usize = n;
    assert(out@ =~= start + s@ + Seq::new((k - n) as nat, |i: int| ' '));
    while k < width
        invariant
            n == s@.len(),
            n <= k,
            n < width ==> k <= width,
            n >= width ==> k == n,
            out@ == start + s@ + Seq::new((k - n) as nat, |i: int| ' '),
        decreases width - k,
    {
        append(out, " ");
        proof {
            reveal_strlit(" ");
        }
        assert(out@ =~= start + s@ + Seq::new((k + 1 - n) as nat, |i: int| ' '));
        k += 1;
    }
    if n >= width {
        assert(Seq::new((k - n) as nat, |i: int| ' ') =~= Seq::<char>::empty());
    }
    assert(out@ =~= start + padded(s@, width as nat));
}

/// The line each step of `init` prints: its action, padded, and its path.
pub open spec fn steps_text(steps: Seq<Step>) -> Seq<char>
    decreases steps.len(),
{
    if steps.len() == 0 {
        Seq::empty()
    } else {
        steps_text(steps.drop_last()) + "  "@ + padded(steps.last().action@, 13) + " "@ + steps.last().path@ + "\n"@
    }
}

/// The closing paragraph of `init`: how to promote the starter contract, and how to declare
/// the verification when the manifest has none.
pub open spec fn init_closing(profile: bool) -> Seq<char> {
    "\nThe starter contract is a draft: promote it by changing `draft behavior` to `use behavior` in project.bla once it states intended behavior."@
        + (if profile {
        Seq::empty()
    } else {
        "\nAdd the canonical verification to project.bla so `blabla finish` can run it:\n  verify behavior {\n      command [\"python\", \"./main.py\"]\n      steps 4096\n  }"@
    }) + "\nNext: blabla status\n"@
}

/// The first line `init` prints: where, which project, and whether nothing was written.
pub open spec fn init_head(o: Outcome) -> Seq<char> {
    "BlaBla init"@ + (if o.dry_run {
        " (dry run)"@
    } else {
        Seq::empty()
    }) + ": "@ + o.directory@ + " (project "@ + o.name@ + ")\n"@
}

/// The note `init` prints when the directory sits inside another project.
pub open spec fn nested_part(o: Outcome) -> Seq<char> {
    match o.nested_in {
        Some(parent) => "note: an ancestor project exists at "@ + parent@
            + "; this directory is a nested project and the nearest manifest wins\n"@,
        None => Seq::empty(),
    }
}

/// The agents' block `init` shows on a dry run, when it has one.
pub open spec fn agents_part(o: Outcome) -> Seq<char> {
    match o.agents_block {
        Some(block) => if o.dry_run {
            "\nAGENTS.md block:\n"@ + block@ + "\n"@
        } else {
            Seq::empty()
        },
        None => Seq::empty(),
    }
}

/// What `init` prints of what it did.
pub open spec fn init_text(o: Outcome) -> Seq<char> {
    init_head(o) + steps_text(o.steps@) + nested_part(o) + agents_part(o) + init_closing(o.profile)
}

fn write_steps(out: &mut String, steps: &Vec<Step>)
    ensures
        final(out)@ == old(out)@ + steps_text(steps@),
{
    let ghost head = out@;
    let mut i: usize = 0;
    assert(head + steps_text(steps@.take(0)) =~= head);
    while i < steps.len()
        invariant
            i <= steps.len(),
            out@ == head + steps_text(steps@.take(i as int)),
        decreases steps.len() - i,
    {
        let step = &steps[i];
        append(out, "  ");
        write_padded(out, step.action.as_str(), 13);
        append(out, " ");
        append(out, step.path.as_str());
        append(out, "\n");
        assert(steps@.take(i + 1).drop_last() =~= steps@.take(i as int));
        assert(out@ =~= head + steps_text(steps@.take(i + 1)));
        i += 1;
    }
    assert(steps@.take(i as int) =~= steps@);
}

/// Appends what `init` prints of what it did.
pub fn write_init(out: &mut String, o: &Outcome)
    ensures
        final(out)@ == old(out)@ + init_text(*o),
{
    let ghost start = out@;
    append(out, "BlaBla init");
    if o.dry_run {
        append(out, " (dry run)");
    }
    append(out, ": ");
    append(out, o.directory.as_str());
    append(out, " (project ");
    append(out, o.name.as_str());
    append(out, ")\n");
    let ghost mut acc = init_head(*o);
    assert(out@ =~= start + acc);
    write_steps(out, &o.steps);
    proof {
        crate::cli::project::lemma_grow(start, acc, steps_text(o.steps@));
        acc = acc + steps_text(o.steps@);
    }
    let ghost before = out@;
    match &o.nested_in {
        Some(parent) => {
            append(out, "note: an ancestor project exists at ");
            append(out, parent.as_str());
            append(out, "; this directory is a nested project and the nearest manifest wins\n");
        },
        None => {},
    }
    assert(out@ =~= before + nested_part(*o));
    proof {
        crate::cli::project::lemma_grow(start, acc, nested_part(*o));
        acc = acc + nested_part(*o);
    }
    let ghost before = out@;
    match &o.agents_block {
        Some(block) => {
            if o.dry_run {
                append(out, "\nAGENTS.md block:\n");
                append(out, block.as_str());
                append(out, "\n");
            }
        },
        None => {},
    }
    assert(out@ =~= before + agents_part(*o));
    proof {
        crate::cli::project::lemma_grow(start, acc, agents_part(*o));
        acc = acc + agents_part(*o);
    }
    let ghost before = out@;
    append(
        out,
        "\nThe starter contract is a draft: promote it by changing `draft behavior` to `use behavior` in project.bla once it states intended behavior.",
    );
    if !o.profile {
        append(
            out,
            "\nAdd the canonical verification to project.bla so `blabla finish` can run it:\n  verify behavior {\n      command [\"python\", \"./main.py\"]\n      steps 4096\n  }",
        );
    }
    append(out, "\nNext: blabla status\n");
    assert(out@ =~= before + init_closing(o.profile));
    proof {
        crate::cli::project::lemma_grow(start, acc, init_closing(o.profile));
    }
}

/// Whether `p` occurs anywhere in `s` (`str::contains`).
pub open spec fn contains_text(s: Seq<char>, p: Seq<char>) -> bool {
    exists|i: int| occurs_at(s, p, i)
}

/// Whether `p` occurs anywhere in `s`.
pub fn contains(s: &str, p: &str) -> (b: bool)
    ensures
        b == contains_text(s@, p@),
{
    let cs = chars_of(s);
    let ps = chars_of(p);
    let mut i: usize = 0;
    while i <= cs.len()
        invariant
            cs@ == s@,
            ps@ == p@,
            forall|j: int| 0 <= j < i ==> !occurs_at(s@, p@, j),
        decreases cs.len() + 1 - i,
    {
        if occurs(&cs, &ps, i) {
            return true;
        }
        if i == cs.len() {
            assert forall|j: int| !occurs_at(s@, p@, j) by {
                if 0 <= j && j < i {
                } else if j >= i + 1 {
                    assert(j + p@.len() > s@.len() || j < 0);
                }
            }
            return false;
        }
        i += 1;
    }
    false
}

/// Whether the manifest `init` leaves declares the canonical verification: the one there
/// already says `verify behavior`, or a new one gets the command given after `--`.
pub open spec fn declares_profile_spec(existing: Option<Seq<char>>, command: Seq<Seq<char>>) -> bool {
    match existing {
        Some(text) => contains_text(text, "verify behavior"@),
        None => command.len() > 0,
    }
}

/// Whether the manifest `init` leaves declares the canonical verification; `existing` is the
/// text of the manifest already there (empty when it cannot be read), `None` when there is
/// none.
pub fn declares_profile(existing: Option<&str>, command: &Vec<String>) -> (b: bool)
    ensures
        b == declares_profile_spec(
            match existing {
                Some(t) => Some(t@),
                None => None,
            },
            command@.map_values(|c: String| c@),
        ),
{
    match existing {
        Some(text) => contains(text, "verify behavior"),
        None => command.len() > 0,
    }
}

/// The refusal of a project name that is not an identifier.
pub open spec fn bad_name_message(name: Seq<char>) -> Seq<char> {
    "project name '"@ + name
        + "' must be an identifier: letters, digits and underscores, not starting with a digit"@
}

/// The name `init` gives the project: the one given, when it is an identifier, else the one
/// derived from the directory `dir`.
pub fn chosen_name(given: Option<String>, dir: &str) -> (r: Result<String, String>)
    ensures
        match given {
            Some(name) => if valid_name_spec(name@) {
                r matches Ok(n) && n@ == name@
            } else {
                r matches Err(m) && m@ == bad_name_message(name@)
            },
            None => r matches Ok(n) && n@ == project_name_spec(dir@),
        },
{
    match given {
        Some(name) => {
            if !valid_name(name.as_str()) {
                let mut m = joined("project name '", name.as_str());
                append(&mut m, "' must be an identifier: letters, digits and underscores, not starting with a digit");
                return Err(m);
            }
            Ok(name)
        },
        None => Ok(project_name(dir)),
    }
}

} // verus!
