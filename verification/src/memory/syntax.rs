use crate::diagnostic::{Diagnostic, Location, Span};
use crate::project::{Failure, ends_with_eof, fail, reports, token};
use crate::syntax::{KindView, Token, TokenKind, TokenView, lex, lex_from, tokens_view};
use crate::text::{append, debug_quoted, decimal, decimal_text, is_ascii_alphanumeric, joined, quoted, str_eq};
use vstd::prelude::*;

verus! {

/// One declaration of a memory file: `keyword "name" { fields }`.
#[derive(Clone, Debug)]
pub struct Block {
    pub keyword: String,
    pub name: String,
    pub location: Location,
    pub fields: Vec<Field>,
}

/// One field of a declaration: a quoted value, or a list of them.
#[derive(Clone, Debug)]
pub struct Field {
    pub name: String,
    pub values: Vec<String>,
    pub list: bool,
    pub location: Location,
}

pub struct FieldView {
    pub name: Seq<char>,
    pub values: Seq<Seq<char>>,
    pub list: bool,
    pub file: Seq<char>,
    pub line: usize,
    pub column: usize,
}

pub struct BlockView {
    pub keyword: Seq<char>,
    pub name: Seq<char>,
    pub file: Seq<char>,
    pub line: usize,
    pub column: usize,
    pub fields: Seq<FieldView>,
}

pub open spec fn texts(v: Seq<String>) -> Seq<Seq<char>> {
    v.map_values(|s: String| s@)
}

impl View for Field {
    type V = FieldView;

    open spec fn view(&self) -> FieldView {
        FieldView {
            name: self.name@,
            values: texts(self.values@),
            list: self.list,
            file: self.location.file@,
            line: self.location.line,
            column: self.location.column,
        }
    }
}

pub open spec fn field_views(fields: Seq<Field>) -> Seq<FieldView> {
    fields.map_values(|f: Field| f@)
}

impl View for Block {
    type V = BlockView;

    open spec fn view(&self) -> BlockView {
        BlockView {
            keyword: self.keyword@,
            name: self.name@,
            file: self.location.file@,
            line: self.location.line,
            column: self.location.column,
            fields: field_views(self.fields@),
        }
    }
}

pub open spec fn block_views(blocks: Seq<Block>) -> Seq<BlockView> {
    blocks.map_values(|b: Block| b@)
}

/// The position of the first field called `name`.
pub open spec fn field_index(fields: Seq<FieldView>, name: Seq<char>) -> Option<int>
    decreases fields.len(),
{
    if fields.len() == 0 {
        None
    } else {
        match field_index(fields.drop_last(), name) {
            Some(i) => Some(i),
            None => if fields.last().name == name {
                Some(fields.len() - 1)
            } else {
                None
            },
        }
    }
}

pub proof fn lemma_field_index(fields: Seq<FieldView>, name: Seq<char>)
    ensures
        match field_index(fields, name) {
            Some(i) => 0 <= i < fields.len() && fields[i].name == name && forall|j: int|
                0 <= j < i ==> (#[trigger] fields[j]).name != name,
            None => forall|j: int| 0 <= j < fields.len() ==> (#[trigger] fields[j]).name != name,
        },
    decreases fields.len(),
{
    if fields.len() > 0 {
        lemma_field_index(fields.drop_last(), name);
        assert forall|j: int| 0 <= j < fields.len() - 1 implies fields.drop_last()[j] == fields[j] by {}
    }
}

proof fn lemma_field_index_prefix(fields: Seq<FieldView>, name: Seq<char>, n: int)
    requires
        0 <= n <= fields.len(),
        field_index(fields.take(n), name) is Some,
    ensures
        field_index(fields, name) == field_index(fields.take(n), name),
    decreases fields.len() - n,
{
    if n < fields.len() {
        assert(fields.take(n + 1).drop_last() =~= fields.take(n));
        lemma_field_index_prefix(fields, name, n + 1);
    } else {
        assert(fields.take(n) =~= fields);
    }
}

/// The position of the field called `name` among `fields`.
pub fn find_field(fields: &Vec<Field>, name: &str) -> (r: Option<usize>)
    ensures
        r matches Some(k) ==> field_index(field_views(fields@), name@) == Some(k as int),
        r is None ==> field_index(field_views(fields@), name@) is None,
{
    let ghost all = field_views(fields@);
    let mut i: usize = 0;
    while i < fields.len()
        invariant
            i <= fields.len(),
            all == field_views(fields@),
            field_index(all.take(i as int), name@) is None,
        decreases fields.len() - i,
    {
        assert(all.take(i + 1).drop_last() =~= all.take(i as int));
        assert(all.take(i + 1).last() == fields@[i as int]@);
        if str_eq(fields[i].name.as_str(), name) {
            proof {
                lemma_field_index_prefix(all, name@, i + 1);
            }
            return Some(i);
        }
        i += 1;
    }
    assert(all.take(i as int) =~= all);
    None
}

impl Block {
    /// The field called `name`, if the declaration has one.
    pub fn field(&self, name: &str) -> (r: Option<&Field>)
        ensures
            match field_index(self@.fields, name@) {
                Some(i) => r matches Some(f) && *f == self.fields@[i],
                None => r is None,
            },
    {
        proof {
            lemma_field_index(self@.fields, name@);
        }
        match find_field(&self.fields, name) {
            Some(k) => Some(&self.fields[k]),
            None => None,
        }
    }
}

/// The text of a field: its first value, or nothing.
pub open spec fn field_text(values: Seq<Seq<char>>) -> Seq<char> {
    if values.len() > 0 {
        values[0]
    } else {
        Seq::empty()
    }
}

impl Field {
    /// The field's first value, or the empty text.
    pub fn text(&self) -> (t: &str)
        ensures
            t@ == field_text(self@.values),
    {
        if self.values.len() > 0 {
            self.values[0].as_str()
        } else {
            proof {
                reveal_strlit("");
            }
            ""
        }
    }
}

/// Whether `name` can be part of a canonical identity: a letter or digit, then letters,
/// digits, `_` or `-`.
pub open spec fn identity_safe(name: Seq<char>) -> bool {
    name.len() > 0 && is_ascii_alphanumeric(name[0]) && forall|i: int|
        1 <= i < name.len() ==> is_ascii_alphanumeric(#[trigger] name[i]) || name[i] == '_' || name[i]
            == '-'
}

/// Whether `name` can be part of a canonical identity.
pub fn is_identity_safe(name: &str) -> (b: bool)
    ensures
        b == identity_safe(name@),
{
    let cs = crate::text::chars_of(name);
    if cs.len() == 0 || !crate::text::char_is_ascii_alphanumeric(cs[0]) {
        return false;
    }
    let mut i: usize = 1;
    while i < cs.len()
        invariant
            1 <= i <= cs.len(),
            cs@ == name@,
            forall|k: int| 1 <= k < i ==> is_ascii_alphanumeric(#[trigger] cs@[k]) || cs@[k] == '_' || cs@[k] == '-',
        decreases cs.len() - i,
    {
        let c = cs[i];
        if !(crate::text::char_is_ascii_alphanumeric(c) || c == '_' || c == '-') {
            return false;
        }
        i += 1;
    }
    true
}

/// The kind of memory a file's first word declares.
pub open spec fn kind_of(first: Seq<char>) -> Option<Seq<char>> {
    if first == "system"@ || first == "responsibility"@ || first == "seam"@ {
        Some("system"@)
    } else if first == "role"@ || first == "policy"@ || first == "flow"@ || first == "step"@ {
        Some("process"@)
    } else if first == "mission"@ || first == "priority"@ {
        Some("mission"@)
    } else if first == "knowledge"@ || first == "ruling"@ {
        Some("knowledge"@)
    } else {
        None
    }
}

/// Which memory a file holds, by the keyword it starts with; `None` when it cannot be read
/// or starts with no memory keyword.
pub fn kind(file: &str, source: &str) -> (k: Option<&'static str>)
    requires
        source@.len() < usize::MAX,
    ensures
        match lex_from(source@, 0) {
            Ok(ts) => match ts[0].kind {
                KindView::Identifier(first) => match kind_of(first) {
                    Some(name) => k matches Some(x) && x@ == name,
                    None => k is None,
                },
                _ => k is None,
            },
            Err(_) => k is None,
        },
{
    let tokens = match lex(file, source) {
        Ok(t) => t,
        Err(_) => {
            return None;
        },
    };
    proof {
        crate::project::lemma_lex_ends(source@, 0);
    }
    match &tokens[0].kind {
        TokenKind::Identifier(first) => {
            let f = first.as_str();
            if str_eq(f, "system") || str_eq(f, "responsibility") || str_eq(f, "seam") {
                Some("system")
            } else if str_eq(f, "role") || str_eq(f, "policy") || str_eq(f, "flow") || str_eq(f, "step") {
                Some("process")
            } else if str_eq(f, "mission") || str_eq(f, "priority") {
                Some("mission")
            } else if str_eq(f, "knowledge") || str_eq(f, "ruling") {
                Some("knowledge")
            } else {
                None
            }
        },
        _ => None,
    }
}

// ---------------------------------------------------------------------------------------
// The grammar of memory files.
// ---------------------------------------------------------------------------------------

/// The quoted values of a list from `q` (after `[`) up to its `]`; a comma after a value is
/// optional.
pub open spec fn list_items(ts: Seq<TokenView>, q: int, name: Seq<char>) -> Result<(Seq<Seq<char>>, int), Failure>
    decreases ts.len() - q,
{
    let t = token(ts, q);
    match t.kind {
        KindView::RightBracket => Ok((Seq::empty(), q + 1)),
        KindView::String(text) => {
            let next = if token(ts, q + 1).kind == KindView::Comma {
                q + 2
            } else {
                q + 1
            };
            if 0 <= q && next <= ts.len() {
                match list_items(ts, next, name) {
                    Ok((rest, end)) => Ok((seq![text] + rest, end)),
                    Err(f) => Err(f),
                }
            } else {
                Err(fail(t.span, "E_MEMORY_SYNTAX"@, Seq::empty()))
            }
        },
        _ => Err(fail(t.span, "E_MEMORY_SYNTAX"@, "`"@ + name + "` takes quoted values"@)),
    }
}

/// The field at `p`.
pub open spec fn field_spec(ts: Seq<TokenView>, p: int, file: Seq<char>) -> Result<(FieldView, int), Failure> {
    let start = token(ts, p);
    match start.kind {
        KindView::Identifier(name) => {
            let value = token(ts, p + 1);
            match value.kind {
                KindView::String(text) => Ok(
                    (
                        FieldView {
                            name,
                            values: seq![text],
                            list: false,
                            file,
                            line: start.span.line,
                            column: start.span.column,
                        },
                        p + 2,
                    ),
                ),
                KindView::LeftBracket => match list_items(ts, p + 2, name) {
                    Ok((values, end)) => Ok(
                        (
                            FieldView { name, values, list: true, file, line: start.span.line, column: start.span.column },
                            end,
                        ),
                    ),
                    Err(f) => Err(f),
                },
                _ => Err(
                    fail(value.span, "E_MEMORY_SYNTAX"@, "`"@ + name + "` takes a quoted value or a list of quoted values"@),
                ),
            }
        },
        _ => Err(fail(start.span, "E_MEMORY_SYNTAX"@, "expected a field name"@)),
    }
}

/// `keyword "name"`, as refusals quote a declaration.
pub open spec fn declaration(keyword: Seq<char>, name: Seq<char>) -> Seq<char> {
    "`"@ + keyword + " "@ + debug_quoted(name) + "`"@
}

/// The fields from `q` up to the `}` that closes the declaration, added to `acc`.
pub open spec fn fields_spec(
    ts: Seq<TokenView>,
    q: int,
    file: Seq<char>,
    keyword: Seq<char>,
    name: Seq<char>,
    acc: Seq<FieldView>,
) -> Result<(Seq<FieldView>, int), Failure>
    decreases ts.len() - q,
{
    let t = token(ts, q);
    match t.kind {
        KindView::RightBrace => Ok((acc, q + 1)),
        KindView::Eof => Err(
            fail(t.span, "E_MEMORY_SYNTAX"@, declaration(keyword, name) + " is never closed with `}`"@),
        ),
        _ => match field_spec(ts, q, file) {
            Err(f) => Err(f),
            Ok((field, next)) => match field_index(acc, field.name) {
                Some(i) => Err(
                    fail(
                        Span { start: 0, end: 0, line: field.line, column: field.column },
                        "E_MEMORY_FIELD"@,
                        "`"@ + field.name + "` is given twice in "@ + declaration(keyword, name)
                            + "; the first is at line "@ + decimal(acc[i].line as nat),
                    ),
                ),
                None => if 0 <= q < next <= ts.len() {
                    fields_spec(ts, next, file, keyword, name, acc.push(field))
                } else {
                    Err(fail(t.span, "E_MEMORY_SYNTAX"@, Seq::empty()))
                },
            },
        },
    }
}

pub open spec fn keyword_refusal() -> Seq<char> {
    "expected a declaration keyword such as `mission`, `priority`, `knowledge`, `ruling`, `system`, `responsibility`, `seam`, `role`, `policy`, `flow` or `step`"@
}

pub open spec fn name_refusal(name: Seq<char>) -> Seq<char> {
    debug_quoted(name)
        + " cannot be part of a canonical identity; a name starts with a letter or digit and continues with letters, digits, '_' or '-'"@
}

/// The declaration at `p`.
pub open spec fn block_spec(ts: Seq<TokenView>, p: int, file: Seq<char>) -> Result<(BlockView, int), Failure> {
    let start = token(ts, p);
    match start.kind {
        KindView::Identifier(keyword) => {
            let name_token = token(ts, p + 1);
            match name_token.kind {
                KindView::String(name) => if !identity_safe(name) {
                    Err(fail(name_token.span, "E_MEMORY_NAME"@, name_refusal(name)))
                } else {
                    let open = token(ts, p + 2);
                    if open.kind != KindView::LeftBrace {
                        Err(
                            fail(
                                open.span,
                                "E_MEMORY_SYNTAX"@,
                                "expected `{` after "@ + declaration(keyword, name),
                            ),
                        )
                    } else {
                        match fields_spec(ts, p + 3, file, keyword, name, Seq::empty()) {
                            Err(f) => Err(f),
                            Ok((fields, end)) => Ok(
                                (
                                    BlockView {
                                        keyword,
                                        name,
                                        file,
                                        line: start.span.line,
                                        column: start.span.column,
                                        fields,
                                    },
                                    end,
                                ),
                            ),
                        }
                    }
                },
                _ => Err(
                    fail(name_token.span, "E_MEMORY_SYNTAX"@, "expected a quoted name after `"@ + keyword + "`"@),
                ),
            }
        },
        _ => Err(fail(start.span, "E_MEMORY_SYNTAX"@, keyword_refusal())),
    }
}

/// The declarations from `p` to the end of the file, after `acc`.
pub open spec fn blocks_spec(ts: Seq<TokenView>, p: int, file: Seq<char>, acc: Seq<BlockView>) -> Result<
    Seq<BlockView>,
    Failure,
>
    decreases ts.len() - p,
{
    if token(ts, p).kind == KindView::Eof {
        Ok(acc)
    } else {
        match block_spec(ts, p, file) {
            Err(f) => Err(f),
            Ok((b, next)) => if 0 <= p < next <= ts.len() {
                blocks_spec(ts, next, file, acc.push(b))
            } else {
                Err(fail(token(ts, p).span, "E_MEMORY_SYNTAX"@, Seq::empty()))
            },
        }
    }
}

proof fn lemma_list_items_advance(ts: Seq<TokenView>, q: int, name: Seq<char>)
    requires
        0 <= q,
    ensures
        list_items(ts, q, name) matches Ok((_, end)) ==> q < end,
    decreases ts.len() - q,
{
    let t = token(ts, q);
    if t.kind is String {
        let next = if token(ts, q + 1).kind == KindView::Comma {
            q + 2
        } else {
            q + 1
        };
        if next <= ts.len() {
            lemma_list_items_advance(ts, next, name);
        }
    }
}

proof fn lemma_fields_advance(
    ts: Seq<TokenView>,
    q: int,
    file: Seq<char>,
    keyword: Seq<char>,
    name: Seq<char>,
    acc: Seq<FieldView>,
)
    requires
        0 <= q,
    ensures
        fields_spec(ts, q, file, keyword, name, acc) matches Ok((_, end)) ==> q < end,
    decreases ts.len() - q,
{
    match field_spec(ts, q, file) {
        Ok((field, next)) => {
            if 0 <= q < next <= ts.len() {
                lemma_fields_advance(ts, next, file, keyword, name, acc.push(field));
            }
        },
        Err(_) => {},
    }
}

struct Parser<'a> {
    file: &'a str,
    tokens: &'a Vec<Token>,
    position: usize,
}

impl<'a> Parser<'a> {
    spec fn tv(&self) -> Seq<TokenView> {
        tokens_view(self.tokens@)
    }

    spec fn ready(&self) -> bool {
        ends_with_eof(self.tv()) && self.position < self.tokens.len()
    }

    spec fn same_input(&self, other: &Parser<'a>) -> bool {
        self.file == other.file && self.tokens == other.tokens
    }

    fn current(&self) -> (t: &'a Token)
        requires
            self.tokens.len() > 0,
        ensures
            t@ == token(self.tv(), self.position as int),
    {
        if self.position < self.tokens.len() {
            &self.tokens[self.position]
        } else {
            &self.tokens[self.tokens.len() - 1]
        }
    }

    fn location(&self, span: Span) -> (l: Location)
        ensures
            l.file@ == self.file@,
            l.line == span.line,
            l.column == span.column,
    {
        Location { file: self.file.to_owned(), line: span.line, column: span.column }
    }

    fn error(&self, span: Span, code: &str, message: String) -> (d: Diagnostic)
        ensures
            reports(d, self.file@, fail(span, code@, message@)),
    {
        Diagnostic::new(self.file, span, code, message)
    }

    fn advance(&mut self)
        requires
            old(self).ready(),
            token(old(self).tv(), old(self).position as int).kind != KindView::Eof,
        ensures
            final(self).same_input(&*old(self)),
            final(self).position == old(self).position + 1,
            final(self).ready(),
    {
        self.position = self.position + 1;
    }

    /// Whether the current token ends the file.
    fn at_end(&self) -> (b: bool)
        requires
            self.tokens.len() > 0,
        ensures
            b == (token(self.tv(), self.position as int).kind == KindView::Eof),
    {
        match self.current().kind {
            TokenKind::Eof => true,
            _ => false,
        }
    }

    /// Whether the current token closes a declaration.
    fn at_close(&self) -> (b: bool)
        requires
            self.tokens.len() > 0,
        ensures
            b == (token(self.tv(), self.position as int).kind == KindView::RightBrace),
    {
        match self.current().kind {
            TokenKind::RightBrace => true,
            _ => false,
        }
    }

    /// The declaration at the current position.
    fn block(&mut self) -> (r: Result<Block, Diagnostic>)
        requires
            old(self).ready(),
        ensures
            final(self).same_input(&*old(self)),
            match block_spec(old(self).tv(), old(self).position as int, old(self).file@) {
                Ok((b, next)) => r matches Ok(x) && x@ == b && final(self).position == next
                    && final(self).ready(),
                Err(e) => r matches Err(d) && reports(d, old(self).file@, e),
            },
    {
        let ghost ts = self.tv();
        let ghost p = self.position as int;
        let ghost file = self.file@;
        let start = self.current();
        let keyword = match &start.kind {
            TokenKind::Identifier(k) => k,
            _ => {
                return Err(self.error(start.span, "E_MEMORY_SYNTAX", "expected a declaration keyword such as `mission`, `priority`, `knowledge`, `ruling`, `system`, `responsibility`, `seam`, `role`, `policy`, `flow` or `step`".to_owned()));
            },
        };
        self.advance();
        let name_token = self.current();
        let name = match &name_token.kind {
            TokenKind::String(n) => n,
            _ => {
                let mut m = joined("expected a quoted name after `", keyword.as_str());
                append(&mut m, "`");
                return Err(self.error(name_token.span, "E_MEMORY_SYNTAX", m));
            },
        };
        let shown = quoted(name.as_str());
        if !is_identity_safe(name.as_str()) {
            let mut m = shown.clone();
            append(&mut m, " cannot be part of a canonical identity; a name starts with a letter or digit and continues with letters, digits, '_' or '-'");
            return Err(self.error(name_token.span, "E_MEMORY_NAME", m));
        }
        self.advance();
        let mut head = joined("`", keyword.as_str());
        append(&mut head, " ");
        append(&mut head, shown.as_str());
        append(&mut head, "`");
        assert(head@ =~= declaration(keyword@, name@));
        if !self.at_close() {
            let open = self.current();
            let is_open = match open.kind {
                TokenKind::LeftBrace => true,
                _ => false,
            };
            if !is_open {
                let mut m = joined("expected `{` after ", head.as_str());
                assert(m@ =~= "expected `{` after "@ + declaration(keyword@, name@));
                return Err(self.error(open.span, "E_MEMORY_SYNTAX", m));
            }
        } else {
            let open = self.current();
            let mut m = joined("expected `{` after ", head.as_str());
            assert(m@ =~= "expected `{` after "@ + declaration(keyword@, name@));
            return Err(self.error(open.span, "E_MEMORY_SYNTAX", m));
        }
        self.advance();
        let mut fields: Vec<Field> = Vec::new();
        assert(field_views(fields@) =~= Seq::<FieldView>::empty());
        while !self.at_close()
            invariant
                self.ready(),
                self.file == old(self).file,
                self.tokens == old(self).tokens,
                ts == self.tv(),
                file == self.file@,
                head@ == declaration(keyword@, name@),
                p == old(self).position,
                file == old(self).file@,
                token(ts, p).kind == KindView::Identifier(keyword@),
                token(ts, p + 1).kind == KindView::String(name@),
                token(ts, p + 2).kind == KindView::LeftBrace,
                identity_safe(name@),
                fields_spec(ts, self.position as int, file, keyword@, name@, field_views(fields@))
                    == fields_spec(ts, p + 3, file, keyword@, name@, Seq::<FieldView>::empty()),
            decreases self.tokens.len() - self.position,
        {
            let ghost q = self.position as int;
            let ghost acc = field_views(fields@);
            if self.at_end() {
                let mut m = head.clone();
                append(&mut m, " is never closed with `}`");
                return Err(self.error(self.current().span, "E_MEMORY_SYNTAX", m));
            }
            proof {
                match token(ts, q).kind {
                    KindView::Identifier(n) => {
                        lemma_list_items_advance(ts, q + 2, n);
                    },
                    _ => {},
                }
            }
            let field = match self.field() {
                Ok(f) => f,
                Err(d) => {
                    return Err(d);
                },
            };
            proof {
                lemma_field_index(acc, field@.name);
            }
            match find_field(&fields, field.name.as_str()) {
                Some(k) => {
                    let mut m = joined("`", field.name.as_str());
                    append(&mut m, "` is given twice in ");
                    append(&mut m, head.as_str());
                    append(&mut m, "; the first is at line ");
                    let line = decimal_text(fields[k].location.line as u64);
                    append(&mut m, line.as_str());
                    let span = Span { start: 0, end: 0, line: field.location.line, column: field.location.column };
                    return Err(self.error(span, "E_MEMORY_FIELD", m));
                },
                None => {},
            }
            fields.push(field);
            assert(field_views(fields@) =~= acc.push(field@));
        }
        self.advance();
        Ok(Block {
            keyword: keyword.clone(),
            name: name.clone(),
            location: self.location(start.span),
            fields,
        })
    }

    /// The declarations from the current position to the end of the file.
    fn blocks(&mut self) -> (r: Result<Vec<Block>, Diagnostic>)
        requires
            old(self).ready(),
        ensures
            match blocks_spec(old(self).tv(), old(self).position as int, old(self).file@, Seq::empty()) {
                Ok(bs) => r matches Ok(v) && block_views(v@) == bs,
                Err(e) => r matches Err(d) && reports(d, old(self).file@, e),
            },
    {
        let ghost ts = self.tv();
        let ghost p0 = self.position as int;
        let ghost file = self.file@;
        let mut blocks: Vec<Block> = Vec::new();
        assert(block_views(blocks@) =~= Seq::<BlockView>::empty());
        while !self.at_end()
            invariant
                self.ready(),
                self.file == old(self).file,
                self.tokens == old(self).tokens,
                ts == self.tv(),
                file == self.file@,
                p0 == old(self).position,
                blocks_spec(ts, self.position as int, file, block_views(blocks@))
                    == blocks_spec(ts, p0, file, Seq::<BlockView>::empty()),
            decreases self.tokens.len() - self.position,
        {
            let ghost q = self.position as int;
            let ghost acc = block_views(blocks@);
            proof {
                lemma_fields_advance(ts, q + 3, file, Seq::empty(), Seq::empty(), Seq::empty());
                match (token(ts, q).kind, token(ts, q + 1).kind) {
                    (KindView::Identifier(k), KindView::String(n)) => {
                        lemma_fields_advance(ts, q + 3, file, k, n, Seq::empty());
                    },
                    _ => {},
                }
            }
            let b = match self.block() {
                Ok(b) => b,
                Err(d) => {
                    return Err(d);
                },
            };
            blocks.push(b);
            assert(block_views(blocks@) =~= acc.push(b@));
        }
        Ok(blocks)
    }

    /// The field at the current position.
    fn field(&mut self) -> (r: Result<Field, Diagnostic>)
        requires
            old(self).ready(),
        ensures
            final(self).same_input(&*old(self)),
            match field_spec(old(self).tv(), old(self).position as int, old(self).file@) {
                Ok((f, next)) => r matches Ok(x) && x@ == f && final(self).position == next
                    && final(self).ready(),
                Err(e) => r matches Err(d) && reports(d, old(self).file@, e),
            },
    {
        let ghost ts = self.tv();
        let ghost p = self.position as int;
        let start = self.current();
        let name = match &start.kind {
            TokenKind::Identifier(name) => name,
            _ => {
                return Err(self.error(start.span, "E_MEMORY_SYNTAX", "expected a field name".to_owned()));
            },
        };
        self.advance();
        let value = self.current();
        match &value.kind {
            TokenKind::String(text) => {
                self.advance();
                let values: Vec<String> = vec![text.clone()];
                assert(texts(values@) =~= seq![text@]);
                Ok(Field { name: name.clone(), values, list: false, location: self.location(start.span) })
            },
            TokenKind::LeftBracket => {
                self.advance();
                let mut values: Vec<String> = Vec::new();
                let ghost q0 = self.position as int;
                assert(texts(values@) =~= Seq::<Seq<char>>::empty());
                assert(crate::project::task::after_list(texts(values@), list_items(ts, q0, name@)) == list_items(ts, q0, name@)) by {
                    match list_items(ts, q0, name@) {
                        Ok((rest, end)) => {
                            assert(Seq::<Seq<char>>::empty() + rest =~= rest);
                        },
                        Err(_) => {},
                    }
                }
                loop
                    invariant_except_break
                        crate::project::task::after_list(texts(values@), list_items(ts, self.position as int, name@))
                            == list_items(ts, q0, name@),
                    invariant
                        self.ready(),
                        self.file == old(self).file,
                        self.tokens == old(self).tokens,
                        ts == self.tv(),
                        q0 <= self.position,
                        q0 == p + 2,
                        token(ts, p).kind == KindView::Identifier(name@),
                        token(ts, p + 1).kind == KindView::LeftBracket,
                        p == old(self).position,
                    ensures
                        list_items(ts, q0, name@) == Ok::<(Seq<Seq<char>>, int), Failure>(
                            (texts(values@), self.position as int),
                        ),
                    decreases self.tokens.len() - self.position,
                {
                    let ghost q = self.position as int;
                    let element = self.current();
                    match &element.kind {
                        TokenKind::RightBracket => {
                            self.advance();
                            assert(texts(values@) + Seq::<Seq<char>>::empty() =~= texts(values@));
                            break;
                        },
                        TokenKind::String(text) => {
                            let ghost before = texts(values@);
                            values.push(text.clone());
                            self.advance();
                            let comma = match self.current().kind {
                                TokenKind::Comma => true,
                                _ => false,
                            };
                            if comma {
                                self.advance();
                            }
                            proof {
                                assert(texts(values@) =~= before.push(text@));
                                match list_items(ts, self.position as int, name@) {
                                    Ok((rest, end)) => {
                                        assert(before + (seq![text@] + rest) =~= before.push(text@) + rest);
                                    },
                                    Err(_) => {},
                                }
                            }
                        },
                        _ => {
                            assert(list_items(ts, q, name@) is Err);
                            let mut m = joined("`", name.as_str());
                            append(&mut m, "` takes quoted values");
                            return Err(self.error(element.span, "E_MEMORY_SYNTAX", m));
                        },
                    }
                }
                Ok(Field { name: name.clone(), values, list: true, location: self.location(start.span) })
            },
            _ => {
                let mut m = joined("`", name.as_str());
                append(&mut m, "` takes a quoted value or a list of quoted values");
                Err(self.error(value.span, "E_MEMORY_SYNTAX", m))
            },
        }
    }
}

/// The declarations of a memory file, in the order they are written.
pub fn parse(file: &str, source: &str) -> (r: Result<Vec<Block>, Diagnostic>)
    requires
        source@.len() < usize::MAX,
    ensures
        match lex_from(source@, 0) {
            Err(at) => r matches Err(d) && crate::syntax::unterminated(file@, source@, at, d),
            Ok(ts) => match blocks_spec(ts, 0, file@, Seq::empty()) {
                Ok(bs) => r matches Ok(v) && block_views(v@) == bs,
                Err(f) => r matches Err(d) && reports(d, file@, f),
            },
        },
{
    let tokens = match lex(file, source) {
        Ok(t) => t,
        Err(d) => {
            return Err(d);
        },
    };
    proof {
        crate::project::lemma_lex_ends(source@, 0);
    }
    let mut parser = Parser { file, tokens: &tokens, position: 0 };
    parser.blocks()
}

} // verus!
