pub mod goal;
pub mod knowledge;
pub mod mission;
pub mod process;
pub mod routing;
pub mod syntax;
pub mod system;

use crate::diagnostic::{Diagnostic, Location};
use crate::text::{append, debug_quoted, decimal, decimal_text, join, joined, quoted, starts_with, str_eq};
use syntax::{
    Block, BlockView, Field, FieldView, block_views, declaration, field_index, field_text, identity_safe,
    is_identity_safe, lemma_field_index, name_refusal, texts,
};
use vstd::prelude::*;

verus! {

/// One kind of project memory as the project holds it: not registered, registered but
/// absent or unreadable, read but inconsistent, or read and sound.
#[derive(Clone, Debug)]
pub enum Memory<T> {
    Unregistered,
    Ignored(String),
    Missing(String),
    Unreadable(String),
    Invalid(Vec<String>),
    Present(T),
}

/// The word that names the state of a memory.
pub open spec fn state_word<T>(m: Memory<T>) -> Seq<char> {
    match m {
        Memory::Unregistered => "unregistered"@,
        Memory::Ignored(_) => "unregistered"@,
        Memory::Missing(_) => "missing"@,
        Memory::Unreadable(_) => "unreadable"@,
        Memory::Invalid(_) => "invalid"@,
        Memory::Present(_) => "present"@,
    }
}

/// What is wrong with a memory, one message each.
pub open spec fn problems_of<T>(m: Memory<T>) -> Seq<Seq<char>> {
    match m {
        Memory::Ignored(s) => seq![s@],
        Memory::Missing(s) => seq![s@],
        Memory::Unreadable(s) => seq![s@],
        Memory::Invalid(ps) => texts(ps@),
        _ => Seq::empty(),
    }
}

impl<T> Memory<T> {
    /// The state of the memory as a word.
    pub fn state(&self) -> (w: &'static str)
        ensures
            w@ == state_word(*self),
    {
        match self {
            Memory::Unregistered => "unregistered",
            Memory::Ignored(_) => "unregistered",
            Memory::Missing(_) => "missing",
            Memory::Unreadable(_) => "unreadable",
            Memory::Invalid(_) => "invalid",
            Memory::Present(_) => "present",
        }
    }

    /// What is wrong with the memory.
    pub fn problems(&self) -> (ps: Vec<String>)
        ensures
            texts(ps@) == problems_of(*self),
    {
        match self {
            Memory::Ignored(message) => {
                let v = vec![message.clone()];
                assert(texts(v@) =~= seq![message@]);
                v
            },
            Memory::Missing(message) => {
                let v = vec![message.clone()];
                assert(texts(v@) =~= seq![message@]);
                v
            },
            Memory::Unreadable(message) => {
                let v = vec![message.clone()];
                assert(texts(v@) =~= seq![message@]);
                v
            },
            Memory::Invalid(problems) => {
                let v = copy_strings(problems);
                v
            },
            _ => {
                let v: Vec<String> = Vec::new();
                assert(texts(v@) =~= Seq::<Seq<char>>::empty());
                v
            },
        }
    }

    /// The memory's content when it was read and is sound.
    pub fn present(&self) -> (r: Option<&T>)
        ensures
            match *self {
                Memory::Present(v) => r == Some(&v),
                _ => r is None,
            },
    {
        match self {
            Memory::Present(value) => Some(value),
            _ => None,
        }
    }

    /// The memory with `problems` found beside it.
    pub fn with_problems(self, problems: Vec<String>) -> (r: Self)
        ensures
            match (self, r) {
                (Memory::Invalid(found), Memory::Invalid(all)) => problems@.len() > 0 ==> all@ == found@
                    + problems@,
                _ => true,
            },
            problems@.len() == 0 ==> r == self,
            problems@.len() > 0 ==> match self {
                Memory::Present(_) => r matches Memory::Invalid(ps) && ps@ == problems@,
                Memory::Invalid(_) => r is Invalid,
                _ => r == self,
            },
    {
        if problems.len() == 0 {
            return self;
        }
        match self {
            Memory::Present(_) => Memory::Invalid(problems),
            Memory::Invalid(found) => {
                let mut found = found;
                let mut more = problems;
                found.append(&mut more);
                Memory::Invalid(found)
            },
            other => other,
        }
    }
}

/// A copy of each string, in order.
pub fn copy_strings(v: &Vec<String>) -> (c: Vec<String>)
    ensures
        texts(c@) == texts(v@),
{
    let mut c: Vec<String> = Vec::new();
    let mut i: usize = 0;
    while i < v.len()
        invariant
            i <= v.len(),
            texts(c@) == texts(v@).take(i as int),
        decreases v.len() - i,
    {
        let s = v[i].clone();
        let ghost before = c@;
        c.push(s);
        assert(c@ == before.push(v@[i as int]));
        assert(texts(c@) =~= texts(before).push(v@[i as int]@));
        assert(texts(c@) =~= texts(v@).take(i + 1));
        i += 1;
    }
    assert(texts(v@).take(v.len() as int) =~= texts(v@));
    c
}

/// A refusal at a place in a memory file.
pub struct Refusal {
    pub file: Seq<char>,
    pub line: usize,
    pub column: usize,
    pub code: Seq<char>,
    pub message: Seq<char>,
}

pub open spec fn at(file: Seq<char>, line: usize, column: usize, code: Seq<char>, message: Seq<char>) -> Refusal {
    Refusal { file, line, column, code, message }
}

pub open spec fn at_block(b: BlockView, code: Seq<char>, message: Seq<char>) -> Refusal {
    at(b.file, b.line, b.column, code, message)
}

pub open spec fn at_field(f: FieldView, code: Seq<char>, message: Seq<char>) -> Refusal {
    at(f.file, f.line, f.column, code, message)
}

/// Whether `d` is the refusal `r`.
pub open spec fn says(d: Diagnostic, r: Refusal) -> bool {
    &&& d.location.file@ == r.file
    &&& d.location.line == r.line
    &&& d.location.column == r.column
    &&& d.code@ == r.code
    &&& d.message@ == r.message
}

/// A refusal at `l`.
pub(crate) fn refuse_at(l: &Location, code: &str, message: String) -> (d: Diagnostic)
    ensures
        says(d, at(l.file@, l.line, l.column, code@, message@)),
{
    Diagnostic {
        location: Location { file: l.file.clone(), line: l.line, column: l.column },
        code: code.to_owned(),
        message,
    }
}

pub open spec fn words(v: Seq<&str>) -> Seq<Seq<char>> {
    v.map_values(|s: &str| s@)
}

/// Each name between backticks.
pub open spec fn ticks(names: Seq<Seq<char>>) -> Seq<Seq<char>> {
    names.map_values(|n: Seq<char>| "`"@ + n + "`"@)
}

/// The names between backticks, separated by commas.
pub open spec fn listed_spec(names: Seq<Seq<char>>) -> Seq<char> {
    join(ticks(names), ", "@)
}

/// The names between backticks, separated by commas.
pub fn listed(names: &Vec<&str>) -> (s: String)
    ensures
        s@ == listed_spec(words(names@)),
{
    let mut parts: Vec<String> = Vec::new();
    let mut i: usize = 0;
    while i < names.len()
        invariant
            i <= names.len(),
            texts(parts@) == ticks(words(names@)).take(i as int),
        decreases names.len() - i,
    {
        let mut t = joined("`", names[i]);
        append(&mut t, "`");
        let ghost before = parts@;
        parts.push(t);
        assert(texts(parts@) =~= texts(before).push(t@));
        assert(texts(parts@) =~= ticks(words(names@)).take(i + 1));
        i += 1;
    }
    assert(ticks(words(names@)).take(names.len() as int) =~= ticks(words(names@)));
    crate::text::join_strings(&parts, ", ")
}

/// Whether `word` is one of `names`.
pub fn has_word(names: &Vec<&str>, word: &str) -> (b: bool)
    ensures
        b == words(names@).contains(word@),
{
    let mut i: usize = 0;
    while i < names.len()
        invariant
            i <= names.len(),
            forall|k: int| 0 <= k < i ==> words(names@)[k] != word@,
        decreases names.len() - i,
    {
        if str_eq(names[i], word) {
            assert(words(names@)[i as int] == word@);
            return true;
        }
        i += 1;
    }
    false
}

pub open spec fn keyword_refusal_at(b: BlockView, allowed: Seq<Seq<char>>) -> Refusal {
    at_block(
        b,
        "E_MEMORY_DECLARATION"@,
        "`"@ + b.keyword + "` is not a declaration of this memory; it declares "@ + listed_spec(allowed),
    )
}

/// The first declaration from `i` on whose keyword this memory does not allow.
pub open spec fn stray_keyword(blocks: Seq<BlockView>, allowed: Seq<Seq<char>>, i: int) -> Option<Refusal>
    decreases blocks.len() - i,
{
    if i < 0 || i >= blocks.len() {
        None
    } else if !allowed.contains(blocks[i].keyword) {
        Some(keyword_refusal_at(blocks[i], allowed))
    } else {
        stray_keyword(blocks, allowed, i + 1)
    }
}

/// Refuses the first declaration that this memory does not allow.
pub(crate) fn expect_keywords(blocks: &[Block], allowed: &Vec<&str>) -> (r: Result<(), Diagnostic>)
    ensures
        match stray_keyword(block_views(blocks@), words(allowed@), 0) {
            None => r is Ok,
            Some(x) => r matches Err(d) && says(d, x),
        },
{
    let ghost bs = block_views(blocks@);
    let all = listed(allowed);
    let mut i: usize = 0;
    while i < blocks.len()
        invariant
            i <= blocks.len(),
            bs == block_views(blocks@),
            all@ == listed_spec(words(allowed@)),
            stray_keyword(bs, words(allowed@), 0) == stray_keyword(bs, words(allowed@), i as int),
        decreases blocks.len() - i,
    {
        let block = &blocks[i];
        assert(bs[i as int] == block@);
        if !has_word(allowed, block.keyword.as_str()) {
            let mut m = joined("`", block.keyword.as_str());
            append(&mut m, "` is not a declaration of this memory; it declares ");
            append(&mut m, all.as_str());
            return Err(refuse_at(&block.location, "E_MEMORY_DECLARATION", m));
        }
        i += 1;
    }
    Ok(())
}

pub open spec fn stray_field(b: BlockView, allowed: Seq<Seq<char>>, i: int) -> Option<Refusal>
    decreases b.fields.len() - i,
{
    if i < 0 || i >= b.fields.len() {
        None
    } else if !allowed.contains(b.fields[i].name) {
        Some(
            at_field(
                b.fields[i],
                "E_MEMORY_FIELD"@,
                "`"@ + b.fields[i].name + "` is not a field of `"@ + b.keyword + "`; it takes "@
                    + listed_spec(allowed),
            ),
        )
    } else {
        stray_field(b, allowed, i + 1)
    }
}

/// The refusal for a declaration that lacks the field `name`.
pub open spec fn needs(b: BlockView, name: Seq<char>) -> Refusal {
    at_block(b, "E_MEMORY_FIELD"@, declaration(b.keyword, b.name) + " needs `"@ + name + "`"@)
}

pub open spec fn missing_field(b: BlockView, required: Seq<Seq<char>>, i: int) -> Option<Refusal>
    decreases required.len() - i,
{
    if i < 0 || i >= required.len() {
        None
    } else if field_index(b.fields, required[i]) is None {
        Some(needs(b, required[i]))
    } else {
        missing_field(b, required, i + 1)
    }
}

/// What is wrong with a declaration's fields: the first that it may not have, else the
/// first that it must have and lacks.
pub open spec fn field_refusal(b: BlockView, required: Seq<Seq<char>>, optional: Seq<Seq<char>>) -> Option<
    Refusal,
> {
    match stray_field(b, required + optional, 0) {
        Some(r) => Some(r),
        None => missing_field(b, required, 0),
    }
}

/// Refuses a field that the declaration may not have, then a field that it lacks.
pub(crate) fn expect_fields(block: &Block, required: &Vec<&str>, optional: &Vec<&str>) -> (r: Result<
    (),
    Diagnostic,
>)
    ensures
        match field_refusal(block@, words(required@), words(optional@)) {
            None => r is Ok,
            Some(x) => r matches Err(d) && says(d, x),
        },
{
    let ghost b = block@;
    let mut both: Vec<&str> = Vec::new();
    let mut k: usize = 0;
    while k < required.len()
        invariant
            k <= required.len(),
            words(both@) == words(required@).take(k as int),
        decreases required.len() - k,
    {
        let ghost before = both@;
        both.push(required[k]);
        assert(words(both@) =~= words(before).push(required@[k as int]@));
        assert(words(both@) =~= words(required@).take(k + 1));
        k += 1;
    }
    let mut k: usize = 0;
    while k < optional.len()
        invariant
            k <= optional.len(),
            words(both@) == words(required@) + words(optional@).take(k as int),
        decreases optional.len() - k,
    {
        let ghost before = both@;
        both.push(optional[k]);
        assert(words(both@) =~= words(before).push(optional@[k as int]@));
        assert(words(both@) =~= words(required@) + words(optional@).take(k + 1));
        k += 1;
    }
    assert(words(optional@).take(optional.len() as int) =~= words(optional@));
    assert(words(required@).take(required.len() as int) =~= words(required@));
    let all = listed(&both);
    let mut i: usize = 0;
    while i < block.fields.len()
        invariant
            i <= block.fields.len(),
            b == block@,
            words(both@) == words(required@) + words(optional@),
            all@ == listed_spec(words(both@)),
            stray_field(b, words(both@), 0) == stray_field(b, words(both@), i as int),
        decreases block.fields.len() - i,
    {
        let field = &block.fields[i];
        assert(b.fields[i as int] == field@);
        if !has_word(&both, field.name.as_str()) {
            let mut m = joined("`", field.name.as_str());
            append(&mut m, "` is not a field of `");
            append(&mut m, block.keyword.as_str());
            append(&mut m, "`; it takes ");
            append(&mut m, all.as_str());
            return Err(refuse_at(&field.location, "E_MEMORY_FIELD", m));
        }
        i += 1;
    }
    let shown = quoted(block.name.as_str());
    let mut j: usize = 0;
    while j < required.len()
        invariant
            j <= required.len(),
            b == block@,
            shown@ == debug_quoted(b.name),
            stray_field(b, words(required@) + words(optional@), 0) is None,
            missing_field(b, words(required@), 0) == missing_field(b, words(required@), j as int),
        decreases required.len() - j,
    {
        let name = required[j];
        assert(words(required@)[j as int] == name@);
        proof {
            lemma_field_index(b.fields, name@);
        }
        if block.field(name).is_none() {
            let mut m = joined("`", block.keyword.as_str());
            append(&mut m, " ");
            append(&mut m, shown.as_str());
            append(&mut m, "`");
            assert(m@ =~= declaration(b.keyword, b.name));
            append(&mut m, " needs `");
            append(&mut m, name);
            append(&mut m, "`");
            return Err(refuse_at(&block.location, "E_MEMORY_FIELD", m));
        }
        j += 1;
    }
    Ok(())
}

/// The one value of the field `name`, or why there is none.
pub open spec fn text_of(b: BlockView, name: Seq<char>) -> Result<Seq<char>, Refusal> {
    match field_index(b.fields, name) {
        None => Err(needs(b, name)),
        Some(i) => if b.fields[i].list {
            Err(at_field(b.fields[i], "E_MEMORY_FIELD"@, "`"@ + name + "` takes one quoted value, not a list"@))
        } else {
            Ok(field_text(b.fields[i].values))
        },
    }
}

/// The one value of the field `name`.
pub(crate) fn text(block: &Block, name: &str) -> (r: Result<String, Diagnostic>)
    ensures
        match text_of(block@, name@) {
            Ok(t) => r matches Ok(s) && s@ == t,
            Err(x) => r matches Err(d) && says(d, x),
        },
{
    proof {
        lemma_field_index(block@.fields, name@);
    }
    let field = match block.field(name) {
        Some(f) => f,
        None => {
            let mut m = joined("`", block.keyword.as_str());
            append(&mut m, " ");
            let shown = quoted(block.name.as_str());
            append(&mut m, shown.as_str());
            append(&mut m, "`");
            assert(m@ =~= declaration(block@.keyword, block@.name));
            append(&mut m, " needs `");
            append(&mut m, name);
            append(&mut m, "`");
            return Err(refuse_at(&block.location, "E_MEMORY_FIELD", m));
        },
    };
    if field.list {
        let mut m = joined("`", name);
        append(&mut m, "` takes one quoted value, not a list");
        return Err(refuse_at(&field.location, "E_MEMORY_FIELD", m));
    }
    Ok(field.text().to_owned())
}

/// The values of the field `name`, or none.
pub open spec fn list_of(b: BlockView, name: Seq<char>) -> Seq<Seq<char>> {
    match field_index(b.fields, name) {
        Some(i) => b.fields[i].values,
        None => Seq::empty(),
    }
}

/// The values of the field `name`, or none.
pub(crate) fn list(block: &Block, name: &str) -> (v: Vec<String>)
    ensures
        texts(v@) == list_of(block@, name@),
{
    proof {
        lemma_field_index(block@.fields, name@);
    }
    match block.field(name) {
        Some(f) => {
            proof {
                let i = field_index(block@.fields, name@)->0;
                assert(block@.fields[i] == block.fields@[i]@);
            }
            copy_strings(&f.values)
        },
        None => {
            let v: Vec<String> = Vec::new();
            assert(texts(v@) =~= Seq::<Seq<char>>::empty());
            v
        },
    }
}

/// The first value of `f` from `i` on that cannot be part of a canonical identity.
pub open spec fn unsafe_value(f: FieldView, i: int) -> Option<Refusal>
    decreases f.values.len() - i,
{
    if i < 0 || i >= f.values.len() {
        None
    } else if !identity_safe(f.values[i]) {
        Some(at_field(f, "E_MEMORY_NAME"@, name_refusal(f.values[i])))
    } else {
        unsafe_value(f, i + 1)
    }
}

/// The first value of the field `name` that cannot be part of a canonical identity.
pub open spec fn unsafe_reference(b: BlockView, name: Seq<char>) -> Option<Refusal> {
    match field_index(b.fields, name) {
        Some(i) => unsafe_value(b.fields[i], 0),
        None => None,
    }
}

/// Refuses a value of `field` that cannot be part of a canonical identity.
pub(crate) fn safe_references(field: Option<&Field>) -> (r: Result<(), Diagnostic>)
    ensures
        match field {
            None => r is Ok,
            Some(f) => match unsafe_value(f@, 0) {
                None => r is Ok,
                Some(x) => r matches Err(d) && says(d, x),
            },
        },
{
    let fl = match field {
        Some(f) => f,
        None => {
            return Ok(());
        },
    };
    let ghost fv = fl@;
    let mut i: usize = 0;
    while i < fl.values.len()
        invariant
            i <= fl.values.len(),
            fv == fl@,
            field == Some(fl),
            unsafe_value(fv, 0) == unsafe_value(fv, i as int),
        decreases fl.values.len() - i,
    {
        let value = &fl.values[i];
        assert(fv.values[i as int] == value@);
        if !is_identity_safe(value.as_str()) {
            assert(unsafe_value(fv, i as int) == Some(at_field(fv, "E_MEMORY_NAME"@, name_refusal(value@))));
            let mut m = quoted(value.as_str());
            append(&mut m, " cannot be part of a canonical identity; a name starts with a letter or digit and continues with letters, digits, '_' or '-'");
            return Err(refuse_at(&fl.location, "E_MEMORY_NAME", m));
        }
        i += 1;
    }
    Ok(())
}

/// A refusal as one line: `file:line:column [code] message`.
pub open spec fn said_spec(d: Diagnostic) -> Seq<char> {
    d.location.file@ + ":"@ + decimal(d.location.line as nat) + ":"@ + decimal(d.location.column as nat) + " ["@
        + d.code@ + "] "@ + d.message@
}

/// A refusal as one line.
pub fn said(d: &Diagnostic) -> (s: String)
    ensures
        s@ == said_spec(*d),
{
    let mut s = joined(d.location.file.as_str(), ":");
    append(&mut s, decimal_text(d.location.line as u64).as_str());
    append(&mut s, ":");
    append(&mut s, decimal_text(d.location.column as u64).as_str());
    append(&mut s, " [");
    append(&mut s, d.code.as_str());
    append(&mut s, "] ");
    append(&mut s, d.message.as_str());
    s
}

/// The memory a project has when no statement registers it: ignored when its conventional
/// file is there all the same (`present`), else simply unregistered.
pub fn unregistered<T>(present: bool, conventional: &str, keyword: &str) -> (m: Memory<T>)
    ensures
        !present ==> m is Unregistered,
        present ==> (m matches Memory::Ignored(s) && s@ == conventional@ + " is present but no `"@ + keyword@
            + " \""@ + conventional@ + "\"` statement registers it, so nothing was read"@),
{
    if present {
        let mut m = joined(conventional, " is present but no `");
        append(&mut m, keyword);
        append(&mut m, " \"");
        append(&mut m, conventional);
        append(&mut m, "\"` statement registers it, so nothing was read");
        Memory::Ignored(m)
    } else {
        Memory::Unregistered
    }
}

/// The memory a project has when no statement registers its directory: ignored when memory
/// files (`found`, as `directory/name`, in order) lie there all the same.
pub fn unregistered_directory<T>(found: &Vec<String>, keyword: &str) -> (m: Memory<T>)
    ensures
        found@.len() == 0 ==> m is Unregistered,
        found@.len() > 0 ==> (m matches Memory::Ignored(s) && s@ == join(texts(found@), ", "@)
            + " is present but no `"@ + keyword@ + " \"path\"` statement registers it, so nothing was read"@),
{
    if found.len() == 0 {
        return Memory::Unregistered;
    }
    let mut m = crate::text::join_strings(found, ", ");
    append(&mut m, " is present but no `");
    append(&mut m, keyword);
    append(&mut m, " \"path\"` statement registers it, so nothing was read");
    Memory::Ignored(m)
}

/// A registered memory file as it was found: absent, unreadable, or its declarations.
pub enum Source {
    Missing(String),
    Unreadable(String),
    Blocks(Vec<Block>),
}

/// What was found at a registered memory file shown as `display`: whether a file is there,
/// whether it is JSON, and its text or why it could not be read.
pub fn source_of(display: &str, is_file: bool, json: bool, read: Result<String, String>) -> (s: Source)
    requires
        read matches Ok(t) ==> t@.len() < usize::MAX,
    ensures
        !is_file ==> (s matches Source::Missing(m) && m@ == display@
            + " is registered by project.bla but no file exists there"@),
        is_file && json ==> (s matches Source::Unreadable(m) && m@ == display@
            + " is JSON; project memory is authored in BlaBla's own .bla syntax"@),
        is_file && !json ==> match read {
            Err(failure) => s matches Source::Unreadable(m) && m@ == display@ + " could not be read: "@
                + failure@,
            Ok(text) => match crate::syntax::lex_from(text@, 0) {
                Err(_) => s is Unreadable,
                Ok(ts) => match syntax::blocks_spec(ts, 0, display@, Seq::empty()) {
                    Ok(bs) => s matches Source::Blocks(v) && block_views(v@) == bs,
                    Err(f) => s matches Source::Unreadable(m) && m@ == display@ + ":"@ + decimal(
                        f.span.line as nat,
                    ) + ":"@ + decimal(f.span.column as nat) + " ["@ + f.code + "] "@ + f.message,
                },
            },
        },
{
    if !is_file {
        return Source::Missing(joined(display, " is registered by project.bla but no file exists there"));
    }
    if json {
        return Source::Unreadable(joined(display, " is JSON; project memory is authored in BlaBla's own .bla syntax"));
    }
    let text = match read {
        Ok(t) => t,
        Err(failure) => {
            let mut m = joined(display, " could not be read: ");
            append(&mut m, failure.as_str());
            return Source::Unreadable(m);
        },
    };
    match syntax::parse(display, text.as_str()) {
        Ok(blocks) => Source::Blocks(blocks),
        Err(d) => Source::Unreadable(said(&d)),
    }
}

/// Whether `m` is what `build` and `validate` can make of `blocks`: unreadable when `build`
/// refuses them, invalid when `validate` finds problems, else present.
pub open spec fn made_by<T, B, V>(blocks: &[Block], build: B, validate: V, m: Memory<T>) -> bool where
    B: Fn(&[Block]) -> Result<T, Diagnostic>,
    V: Fn(&T) -> Vec<String>,
 {
    exists|res: Result<T, Diagnostic>|
        build.ensures((blocks,), res) && match res {
            Err(d) => m matches Memory::Unreadable(s) && s@ == said_spec(d),
            Ok(v) => exists|ps: Vec<String>|
                validate.ensures((&v,), ps) && if ps@.len() == 0 {
                    m == Memory::Present(v)
                } else {
                    m == Memory::<T>::Invalid(ps)
                },
        }
}

/// The memory that `build` and `validate` make of `blocks`: unreadable when `build` refuses
/// them, invalid when `validate` finds problems, else present.
fn built<T, B, V>(blocks: &[Block], build: B, validate: V) -> (m: Memory<T>) where
    B: Fn(&[Block]) -> Result<T, Diagnostic>,
    V: Fn(&T) -> Vec<String>,

    requires
        build.requires((blocks,)),
        forall|t: &T| validate.requires((t,)),
    ensures
        made_by(blocks, build, validate, m),
{
    let res = build(blocks);
    match res {
        Err(d) => {
            let s = said(&d);
            Memory::Unreadable(s)
        },
        Ok(value) => {
            let problems = validate(&value);
            if problems.len() == 0 {
                Memory::Present(value)
            } else {
                Memory::Invalid(problems)
            }
        },
    }
}

/// The memory read from one registered file.
pub fn read<T, B, V>(source: Source, build: B, validate: V) -> (m: Memory<T>) where
    B: Fn(&[Block]) -> Result<T, Diagnostic>,
    V: Fn(&T) -> Vec<String>,

    requires
        forall|b: &[Block]| build.requires((b,)),
        forall|t: &T| validate.requires((t,)),
    ensures
        source matches Source::Missing(s) ==> m == Memory::<T>::Missing(s),
        source matches Source::Unreadable(s) ==> m == Memory::<T>::Unreadable(s),
        source matches Source::Blocks(bs) ==> exists|sl: &[Block]|
            sl@ == bs@ && made_by(sl, build, validate, m),
{
    match source {
        Source::Missing(message) => Memory::Missing(message),
        Source::Unreadable(message) => Memory::Unreadable(message),
        Source::Blocks(blocks) => {
            let sl = blocks.as_slice();
            built(sl, build, validate)
        },
    }
}

/// The declarations of `sources` from `i` on, in order, or the first that is missing
/// (`true`) or unreadable (`false`), with its message.
pub open spec fn gathered(sources: Seq<Source>, i: int) -> Result<Seq<Block>, (bool, String)>
    decreases sources.len() - i,
{
    if i < 0 || i >= sources.len() {
        Ok(Seq::empty())
    } else {
        match sources[i] {
            Source::Missing(s) => Err((true, s)),
            Source::Unreadable(s) => Err((false, s)),
            Source::Blocks(v) => match gathered(sources, i + 1) {
                Err(e) => Err(e),
                Ok(rest) => Ok(v@ + rest),
            },
        }
    }
}

/// Whether a source settles what `read_all` gives: a missing or unreadable file decides,
/// so the files after it need not be read.
pub fn settles(source: &Source) -> (b: bool)
    ensures
        b == !(*source is Blocks),
{
    match source {
        Source::Blocks(_) => false,
        _ => true,
    }
}

/// The memory read from several registered files together: the first that is missing or
/// unreadable decides, else the declarations of all of them, in order, are built as one.
pub fn read_all<T, B, V>(sources: Vec<Source>, build: B, validate: V) -> (m: Memory<T>) where
    B: Fn(&[Block]) -> Result<T, Diagnostic>,
    V: Fn(&T) -> Vec<String>,

    requires
        forall|b: &[Block]| build.requires((b,)),
        forall|t: &T| validate.requires((t,)),
    ensures
        match gathered(sources@, 0) {
            Err((true, s)) => m == Memory::<T>::Missing(s),
            Err((false, s)) => m == Memory::<T>::Unreadable(s),
            Ok(all) => exists|sl: &[Block]| sl@ == all && made_by(sl, build, validate, m),
        },
{
    let ghost orig = sources@;
    let mut rest = sources;
    let mut blocks: Vec<Block> = Vec::new();
    let ghost mut i: int = 0;
    while rest.len() > 0
        invariant
            0 <= i <= orig.len(),
            orig == sources@,
            rest@ == orig.subrange(i, orig.len() as int),
            match gathered(orig, i) {
                Ok(more) => gathered(orig, 0) == Ok::<Seq<Block>, (bool, String)>(blocks@ + more),
                Err(e) => gathered(orig, 0) == Err::<Seq<Block>, (bool, String)>(e),
            },
        decreases rest.len(),
    {
        let next = rest.remove(0);
        assert(next == orig[i]);
        match next {
            Source::Missing(message) => {
                assert(gathered(orig, i) == Err::<Seq<Block>, (bool, String)>((true, message)));
                return Memory::Missing(message);
            },
            Source::Unreadable(message) => {
                assert(gathered(orig, i) == Err::<Seq<Block>, (bool, String)>((false, message)));
                return Memory::Unreadable(message);
            },
            Source::Blocks(found) => {
                let ghost before = blocks@;
                let mut found = found;
                let ghost fv = found@;
                blocks.append(&mut found);
                proof {
                    match gathered(orig, i + 1) {
                        Ok(more) => {
                            assert(before + (fv + more) =~= blocks@ + more);
                        },
                        Err(_) => {},
                    }
                    i = i + 1;
                }
                assert(rest@ =~= orig.subrange(i, orig.len() as int));
            },
        }
    }
    assert(i == orig.len());
    assert(blocks@ + Seq::<Block>::empty() =~= blocks@);
    let sl = blocks.as_slice();
    built(sl, build, validate)
}

/// The kind a query names and the name it asks for: `kind::name` for the first of `kinds`
/// (from `i` on) that the query starts with, else no kind and the whole query.
pub open spec fn split_spec(q: Seq<char>, kinds: Seq<Seq<char>>, i: int) -> (Option<Seq<char>>, Seq<char>)
    decreases kinds.len() - i,
{
    if i < 0 || i >= kinds.len() {
        (None, q)
    } else if starts_with(q, kinds[i] + "::"@) {
        (Some(kinds[i]), q.skip(kinds[i].len() as int + 2))
    } else {
        split_spec(q, kinds, i + 1)
    }
}

/// Whether a query that names `wanted` (or no kind) may find an entry of `kind`.
pub open spec fn wants(wanted: Option<Seq<char>>, kind: Seq<char>) -> bool {
    wanted is None || wanted == Some(kind)
}

/// The kind a query names and the name it asks for.
pub fn split(query: &str, kinds: &Vec<&'static str>) -> (r: (Option<&'static str>, String))
    ensures
        match split_spec(query@, words(kinds@), 0) {
            (Some(k), n) => r.0 matches Some(x) && x@ == k && r.1@ == n,
            (None, n) => r.0 is None && r.1@ == n,
        },
{
    let ghost ks = words(kinds@);
    let mut i: usize = 0;
    while i < kinds.len()
        invariant
            i <= kinds.len(),
            ks == words(kinds@),
            split_spec(query@, ks, 0) == split_spec(query@, ks, i as int),
        decreases kinds.len() - i,
    {
        let kind = kinds[i];
        let prefix = joined(kind, "::");
        proof {
            reveal_strlit("::");
        }
        assert(ks[i as int] == kind@);
        match crate::text::strip_prefix_text(query, prefix.as_str()) {
            Some(name) => {
                return (Some(kind), name);
            },
            None => {},
        }
        i += 1;
    }
    (None, query.to_owned())
}

/// Whether a query that names `wanted` (or no kind) may find an entry of `kind`.
pub fn wanted(w: Option<&'static str>, kind: &str) -> (b: bool)
    ensures
        b == match w {
            Some(x) => x@ == kind@,
            None => true,
        },
{
    match w {
        Some(x) => str_eq(x, kind),
        None => true,
    }
}

pub open spec fn pairs(v: Seq<(&str, &str)>) -> Seq<(Seq<char>, Seq<char>)> {
    v.map_values(|p: (&str, &str)| (p.0@, p.1@))
}

/// The kind of the last declaration in `d` named `name`.
pub open spec fn last_kind(d: Seq<(Seq<char>, Seq<char>)>, name: Seq<char>) -> Option<Seq<char>>
    decreases d.len(),
{
    if d.len() == 0 {
        None
    } else if d.last().0 == name {
        Some(d.last().1)
    } else {
        last_kind(d.drop_last(), name)
    }
}

pub open spec fn twice(name: Seq<char>, previous: Seq<char>, kind: Seq<char>) -> Seq<char> {
    "the name "@ + debug_quoted(name) + " is declared twice, as "@ + previous + " and as "@ + kind
        + "; every name must resolve to one entry"@
}

/// One problem for each declaration (name and kind) whose name an earlier one already took,
/// naming the kind of the latest such earlier one.
pub open spec fn duplicates(d: Seq<(Seq<char>, Seq<char>)>) -> Seq<Seq<char>>
    decreases d.len(),
{
    if d.len() == 0 {
        Seq::empty()
    } else {
        let before = d.drop_last();
        match last_kind(before, d.last().0) {
            Some(previous) => duplicates(before).push(twice(d.last().0, previous, d.last().1)),
            None => duplicates(before),
        }
    }
}

/// The problems of names declared twice.
pub fn duplicate_names(declared: &Vec<(&str, &str)>) -> (ps: Vec<String>)
    ensures
        texts(ps@) == duplicates(pairs(declared@)),
{
    let ghost d = pairs(declared@);
    let mut ps: Vec<String> = Vec::new();
    let mut i: usize = 0;
    assert(texts(ps@) =~= Seq::<Seq<char>>::empty());
    while i < declared.len()
        invariant
            i <= declared.len(),
            d == pairs(declared@),
            texts(ps@) == duplicates(d.take(i as int)),
        decreases declared.len() - i,
    {
        let (name, kind) = declared[i];
        assert(d[i as int] == (name@, kind@));
        let mut j: usize = i;
        let mut previous: Option<&str> = None;
        while j > 0
            invariant_except_break
                j <= i < declared.len(),
                d == pairs(declared@),
                previous is None,
                last_kind(d.take(i as int), name@) == last_kind(d.take(j as int), name@),
            invariant
                j <= i < declared.len(),
                d == pairs(declared@),
            ensures
                match last_kind(d.take(i as int), name@) {
                    Some(k) => previous matches Some(p) && p@ == k,
                    None => previous is None,
                },
            decreases j,
        {
            let (other, other_kind) = declared[j - 1];
            assert(d.take(j as int).drop_last() =~= d.take(j - 1));
            assert(d.take(j as int).last() == (other@, other_kind@));
            if str_eq(other, name) {
                previous = Some(other_kind);
                break;
            }
            j -= 1;
        }
        assert(d.take(i + 1).drop_last() =~= d.take(i as int));
        assert(d.take(i + 1).last() == (name@, kind@));
        match previous {
            Some(p) => {
                let mut m = joined("the name ", quoted(name).as_str());
                append(&mut m, " is declared twice, as ");
                append(&mut m, p);
                append(&mut m, " and as ");
                append(&mut m, kind);
                append(&mut m, "; every name must resolve to one entry");
                let ghost before = ps@;
                ps.push(m);
                assert(texts(ps@) =~= texts(before).push(m@));
            },
            None => {},
        }
        i += 1;
    }
    assert(d.take(declared.len() as int) =~= d);
    ps
}

/// Each name after `prefix`.
pub open spec fn prefix_all(prefix: Seq<char>, names: Seq<Seq<char>>) -> Seq<Seq<char>> {
    names.map_values(|n: Seq<char>| prefix + n)
}

/// Each name after `prefix`.
pub fn prefixed(prefix: &str, names: &Vec<String>) -> (v: Vec<String>)
    ensures
        texts(v@) == prefix_all(prefix@, texts(names@)),
{
    let mut v: Vec<String> = Vec::new();
    let mut i: usize = 0;
    while i < names.len()
        invariant
            i <= names.len(),
            texts(v@) == prefix_all(prefix@, texts(names@)).take(i as int),
        decreases names.len() - i,
    {
        let t = joined(prefix, names[i].as_str());
        let ghost before = v@;
        v.push(t);
        assert(texts(v@) =~= texts(before).push(t@));
        assert(texts(v@) =~= prefix_all(prefix@, texts(names@)).take(i + 1));
        i += 1;
    }
    assert(prefix_all(prefix@, texts(names@)).take(i as int) =~= prefix_all(prefix@, texts(names@)));
    v
}

/// Whether `name` is one of `names`.
pub fn has_text(names: &Vec<String>, name: &str) -> (b: bool)
    ensures
        b == texts(names@).contains(name@),
{
    let mut i: usize = 0;
    while i < names.len()
        invariant
            i <= names.len(),
            forall|k: int| 0 <= k < i ==> texts(names@)[k] != name@,
        decreases names.len() - i,
    {
        if str_eq(names[i].as_str(), name) {
            assert(texts(names@)[i as int] == name@);
            return true;
        }
        i += 1;
    }
    false
}

proof fn lemma_last_kind_none(d: Seq<(Seq<char>, Seq<char>)>, name: Seq<char>)
    requires
        last_kind(d, name) is None,
    ensures
        forall|i: int| 0 <= i < d.len() ==> (#[trigger] d[i]).0 != name,
    decreases d.len(),
{
    if d.len() > 0 {
        lemma_last_kind_none(d.drop_last(), name);
        assert forall|i: int| 0 <= i < d.len() implies (#[trigger] d[i]).0 != name by {
            if i < d.len() - 1 {
                assert(d.drop_last()[i] == d[i]);
            }
        }
    }
}

/// Every name resolves to one entry: when no problem of a name declared twice is found,
/// the declared names are pairwise distinct.
pub proof fn law_no_duplicate_problem_means_distinct_names(d: Seq<(Seq<char>, Seq<char>)>)
    requires
        duplicates(d).len() == 0,
    ensures
        forall|i: int, j: int| 0 <= i < j < d.len() ==> (#[trigger] d[i]).0 != (#[trigger] d[j]).0,
    decreases d.len(),
{
    if d.len() > 0 {
        let before = d.drop_last();
        assert(last_kind(before, d.last().0) is None);
        assert(duplicates(before).len() == 0);
        law_no_duplicate_problem_means_distinct_names(before);
        lemma_last_kind_none(before, d.last().0);
        assert forall|i: int, j: int| 0 <= i < j < d.len() implies (#[trigger] d[i]).0 != (#[trigger] d[j]).0 by {
            assert(before[i] == d[i]);
            if j < d.len() - 1 {
                assert(before[j] == d[j]);
            }
        }
    }
}

} // verus!
