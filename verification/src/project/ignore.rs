use crate::diagnostic::Span;
use crate::text::{
    append, joined, trim_end_chars,
    chars_eq, chars_of, chars_start_with, contains_char, decimal, decimal_text, join,
    join_chars, slice_chars, split, split_chars, starts_with, string_of, trim_end,
};
use vstd::prelude::*;

verus! {

/// One element of a compiled ignore pattern.
#[derive(Clone, Debug, PartialEq, Eq)]
pub enum Token {
    Literal(char),
    Any,
    Star,
    Directories,
    Everything,
    Class { members: Vec<(char, char)>, negated: bool },
}

/// The ghost form of a pattern element.
pub enum TokenView {
    Literal(char),
    Any,
    Star,
    Directories,
    Everything,
    Class { members: Seq<(char, char)>, negated: bool },
}

impl View for Token {
    type V = TokenView;

    open spec fn view(&self) -> TokenView {
        match self {
            Token::Literal(c) => TokenView::Literal(*c),
            Token::Any => TokenView::Any,
            Token::Star => TokenView::Star,
            Token::Directories => TokenView::Directories,
            Token::Everything => TokenView::Everything,
            Token::Class { members, negated } => TokenView::Class {
                members: members@,
                negated: *negated,
            },
        }
    }
}

pub open spec fn tokens_view(tokens: Seq<Token>) -> Seq<TokenView> {
    tokens.map_values(|t: Token| t@)
}

/// Whether `c` lies in one of the inclusive ranges of a class.
pub open spec fn in_members(members: Seq<(char, char)>, c: char) -> bool {
    exists|i: int| 0 <= i < members.len() && (#[trigger] members[i]).0 <= c <= members[i].1
}

/// The position of the first `/` in `text`, if any.
pub open spec fn first_slash(text: Seq<char>) -> Option<int>
    decreases text.len(),
{
    if text.len() == 0 {
        None
    } else if text[0] == '/' {
        Some(0)
    } else {
        match first_slash(text.drop_first()) {
            Some(j) => Some(j + 1),
            None => None,
        }
    }
}

/// Gitignore matching: whether the pattern `tokens` matches the whole of `text`.
/// `*` consumes any run of characters other than `/`; `?` and classes one such character;
/// `**/` matches here or after skipping whole leading directories; a trailing `**` matches
/// everything.
pub open spec fn glob(tokens: Seq<TokenView>, text: Seq<char>) -> bool
    decreases tokens.len(), text.len(),
{
    if tokens.len() == 0 {
        text.len() == 0
    } else {
        let rest = tokens.drop_first();
        match tokens[0] {
            TokenView::Everything => true,
            TokenView::Directories => glob(rest, text) || match first_slash(text) {
                Some(j) => 0 <= j < text.len() && glob(tokens, text.skip(j + 1)),
                None => false,
            },
            TokenView::Star => glob(rest, text) || (text.len() > 0 && text[0] != '/' && glob(
                tokens,
                text.drop_first(),
            )),
            TokenView::Any => text.len() > 0 && text[0] != '/' && glob(rest, text.drop_first()),
            TokenView::Class { members, negated } => text.len() > 0 && text[0] != '/' && (
            in_members(members, text[0]) != negated) && glob(rest, text.drop_first()),
            TokenView::Literal(c) => text.len() > 0 && text[0] == c && glob(
                rest,
                text.drop_first(),
            ),
        }
    }
}

proof fn lemma_first_slash(text: Seq<char>)
    ensures
        match first_slash(text) {
            Some(j) => 0 <= j < text.len() && text[j] == '/' && !text.take(j).contains('/'),
            None => !text.contains('/'),
        },
    decreases text.len(),
{
    if text.len() > 0 {
        lemma_first_slash(text.drop_first());
        if text[0] != '/' {
            match first_slash(text.drop_first()) {
                Some(j) => {
                    assert(text.take(j + 1) =~= seq![text[0]] + text.drop_first().take(j));
                    assert(text[j + 1] == text.drop_first()[j]);
                },
                None => {
                    assert forall|i: int| 0 <= i < text.len() implies text[i] != '/' by {
                        if i > 0 {
                            assert(text[i] == text.drop_first()[i - 1]);
                        }
                    }
                },
            }
        }
    }
}

proof fn lemma_first_slash_from(text: Seq<char>, i: int, j: int)
    requires
        0 <= i <= j < text.len(),
        text[j] == '/',
        forall|m: int| i <= m < j ==> text[m] != '/',
    ensures
        first_slash(text.skip(i)) == Some(j - i),
    decreases j - i,
{
    if i < j {
        lemma_first_slash_from(text, i + 1, j);
        assert(text.skip(i).drop_first() =~= text.skip(i + 1));
    }
}

proof fn lemma_no_slash_from(text: Seq<char>, i: int)
    requires
        0 <= i <= text.len(),
        forall|m: int| i <= m < text.len() ==> text[m] != '/',
    ensures
        first_slash(text.skip(i)) == None::<int>,
    decreases text.len() - i,
{
    if i < text.len() {
        lemma_no_slash_from(text, i + 1);
        assert(text.skip(i).drop_first() =~= text.skip(i + 1));
    }
}

fn member_of(members: &Vec<(char, char)>, c: char) -> (b: bool)
    ensures
        b == in_members(members@, c),
{
    let mut i: usize = 0;
    while i < members.len()
        invariant
            i <= members.len(),
            forall|j: int| 0 <= j < i ==> !((#[trigger] members@[j]).0 <= c <= members@[j].1),
        decreases members.len() - i,
    {
        if members[i].0 <= c && c <= members[i].1 {
            return true;
        }
        i += 1;
    }
    false
}

proof fn lemma_skip_skip(text: Seq<char>, a: int, b: int)
    requires
        0 <= a <= text.len(),
        0 <= b <= text.len() - a,
    ensures
        text.skip(a).skip(b) == text.skip(a + b),
        a < text.len() ==> text.skip(a).drop_first() == text.skip(a + 1),
{
    assert(text.skip(a).skip(b) =~= text.skip(a + b));
    if a < text.len() {
        assert(text.skip(a).drop_first() =~= text.skip(a + 1));
    }
}

/// Whether `tokens[ti..]` matches `text[xi..]`.
fn matches_at(tokens: &Vec<Token>, ti: usize, text: &Vec<char>, xi: usize) -> (b: bool)
    requires
        ti <= tokens.len(),
        xi <= text.len(),
    ensures
        b == glob(tokens_view(tokens@.skip(ti as int)), text@.skip(xi as int)),
    decreases tokens.len() - ti,
{
    let ghost rest_tokens = tokens_view(tokens@.skip(ti as int));
    if ti == tokens.len() {
        assert(rest_tokens.len() == 0);
        return xi == text.len();
    }
    assert(rest_tokens[0] == tokens@[ti as int]@);
    assert(rest_tokens.drop_first() =~= tokens_view(tokens@.skip(ti + 1)));
    match &tokens[ti] {
        Token::Everything => true,
        Token::Directories => {
            assert(rest_tokens[0] == TokenView::Directories);
            let mut index: usize = xi;
            loop
                invariant
                    xi <= index <= text.len(),
                    ti < tokens.len(),
                    rest_tokens == tokens_view(tokens@.skip(ti as int)),
                    rest_tokens.len() > 0,
                    rest_tokens[0] == TokenView::Directories,
                    rest_tokens.drop_first() =~= tokens_view(tokens@.skip(ti + 1)),
                    glob(rest_tokens, text@.skip(xi as int)) == glob(
                        rest_tokens,
                        text@.skip(index as int),
                    ),
                decreases text.len() - index,
            {
                if matches_at(tokens, ti + 1, text, index) {
                    return true;
                }
                let mut j: usize = index;
                while j < text.len() && text[j] != '/'
                    invariant
                        index <= j <= text.len(),
                        forall|m: int| index <= m < j ==> text@[m] != '/',
                    decreases text.len() - j,
                {
                    j += 1;
                }
                if j == text.len() {
                    proof {
                        lemma_no_slash_from(text@, index as int);
                    }
                    return false;
                }
                proof {
                    lemma_first_slash_from(text@, index as int, j as int);
                    lemma_skip_skip(text@, index as int, j + 1 - index);
                }
                index = j + 1;
            }
        },
        Token::Star => {
            assert(rest_tokens[0] == TokenView::Star);
            let mut index: usize = xi;
            loop
                invariant
                    xi <= index <= text.len(),
                    ti < tokens.len(),
                    rest_tokens == tokens_view(tokens@.skip(ti as int)),
                    rest_tokens.len() > 0,
                    rest_tokens[0] == TokenView::Star,
                    rest_tokens.drop_first() =~= tokens_view(tokens@.skip(ti + 1)),
                    glob(rest_tokens, text@.skip(xi as int)) == glob(
                        rest_tokens,
                        text@.skip(index as int),
                    ),
                decreases text.len() - index,
            {
                if matches_at(tokens, ti + 1, text, index) {
                    return true;
                }
                if index >= text.len() || text[index] == '/' {
                    return false;
                }
                proof {
                    lemma_skip_skip(text@, index as int, 1);
                }
                index += 1;
            }
        },
        Token::Any => {
            if xi < text.len() && text[xi] != '/' {
                proof {
                    lemma_skip_skip(text@, xi as int, 1);
                }
                matches_at(tokens, ti + 1, text, xi + 1)
            } else {
                false
            }
        },
        Token::Class { members, negated } => {
            if xi < text.len() && text[xi] != '/' && member_of(members, text[xi]) != *negated {
                proof {
                    lemma_skip_skip(text@, xi as int, 1);
                }
                matches_at(tokens, ti + 1, text, xi + 1)
            } else {
                false
            }
        },
        Token::Literal(expected) => {
            if xi < text.len() && text[xi] == *expected {
                proof {
                    lemma_skip_skip(text@, xi as int, 1);
                }
                matches_at(tokens, ti + 1, text, xi + 1)
            } else {
                false
            }
        },
    }
}

/// Whether `tokens` matches the whole of `text`.
pub fn matches(tokens: &Vec<Token>, text: &Vec<char>) -> (b: bool)
    ensures
        b == glob(tokens_view(tokens@), text@),
{
    assert(tokens@.skip(0) =~= tokens@);
    assert(text@.skip(0) =~= text@);
    matches_at(tokens, 0, text, 0)
}


/// Whether `c` is the escape character `\\`.
pub open spec fn is_backslash(c: char) -> bool {
    c as u32 == 92
}

/// Where a run of `*` that starts at `i` ends.
pub open spec fn star_run_end(chars: Seq<char>, i: int) -> int
    decreases chars.len() - i,
{
    if 0 <= i < chars.len() && chars[i] == '*' {
        star_run_end(chars, i + 1)
    } else {
        i
    }
}

/// Reads the members of a bracket class from `index`; the class and the position after its `]`,
/// or `None` when no `]` closes it.
pub open spec fn class_scan(
    chars: Seq<char>,
    index: int,
    members: Seq<(char, char)>,
    negated: bool,
    first: bool,
) -> Option<(TokenView, int)>
    decreases chars.len() - index,
{
    if index < 0 || index >= chars.len() {
        None
    } else if chars[index] == ']' && !first {
        Some((TokenView::Class { members, negated }, index + 1))
    } else {
        let at = if is_backslash(chars[index]) && index + 1 < chars.len() {
            index + 1
        } else {
            index
        };
        let low = chars[at];
        if at + 2 < chars.len() && chars[at + 1] == '-' && chars[at + 2] != ']' {
            class_scan(chars, at + 3, members.push((low, chars[at + 2])), negated, false)
        } else {
            class_scan(chars, at + 1, members.push((low, low)), negated, false)
        }
    }
}

/// The bracket class that opens at `start`.
pub open spec fn class_at(chars: Seq<char>, start: int) -> Option<(TokenView, int)> {
    let index = start + 1;
    let negated = 0 <= index < chars.len() && (chars[index] == '!' || chars[index] == '^');
    class_scan(chars, if negated { index + 1 } else { index }, Seq::empty(), negated, true)
}

/// The pattern element that starts at `i` and the position after it: `\\x` is the literal
/// `x`, `?` one character, `[...]` a class, `*` a run, and `**` at the start of a component
/// either all directories (`**/`) or everything (at the end).
pub open spec fn element_at(chars: Seq<char>, i: int) -> (TokenView, int) {
    let at_start = i == 0 || chars[i - 1] == '/';
    let c = chars[i];
    if is_backslash(c) && i + 1 < chars.len() {
        (TokenView::Literal(chars[i + 1]), i + 2)
    } else if c == '*' {
        let end = star_run_end(chars, i);
        let double = end - i >= 2 && at_start;
        if double && end == chars.len() {
            (TokenView::Everything, end)
        } else if double && end < chars.len() && chars[end] == '/' {
            (TokenView::Directories, end + 1)
        } else {
            (TokenView::Star, end)
        }
    } else if c == '?' {
        (TokenView::Any, i + 1)
    } else if c == '[' {
        match class_at(chars, i) {
            Some((token, next)) => (token, next),
            None => (TokenView::Literal('['), i + 1),
        }
    } else {
        (TokenView::Literal(c), i + 1)
    }
}

/// The pattern elements of `chars[i..]`, read one after another.
pub open spec fn compile(chars: Seq<char>, i: int) -> Seq<TokenView>
    decreases chars.len() - i,
{
    if 0 <= i < chars.len() {
        let (token, next) = element_at(chars, i);
        if i < next <= chars.len() {
            seq![token] + compile(chars, next)
        } else {
            Seq::empty()
        }
    } else {
        Seq::empty()
    }
}

pub proof fn lemma_star_run(chars: Seq<char>, i: int)
    requires
        0 <= i <= chars.len(),
    ensures
        i <= star_run_end(chars, i) <= chars.len(),
        forall|m: int| i <= m < star_run_end(chars, i) ==> chars[m] == '*',
        star_run_end(chars, i) < chars.len() ==> chars[star_run_end(chars, i)] != '*',
    decreases chars.len() - i,
{
    if i < chars.len() && chars[i] == '*' {
        lemma_star_run(chars, i + 1);
    }
}

proof fn lemma_class_scan_advances(
    chars: Seq<char>,
    index: int,
    members: Seq<(char, char)>,
    negated: bool,
    first: bool,
)
    ensures
        match class_scan(chars, index, members, negated, first) {
            Some((_, next)) => index < next <= chars.len(),
            None => true,
        },
    decreases chars.len() - index,
{
    if 0 <= index < chars.len() && !(chars[index] == ']' && !first) {
        let at = if is_backslash(chars[index]) && index + 1 < chars.len() {
            index + 1
        } else {
            index
        };
        let low = chars[at];
        if at + 2 < chars.len() && chars[at + 1] == '-' && chars[at + 2] != ']' {
            lemma_class_scan_advances(chars, at + 3, members.push((low, chars[at + 2])), negated, false);
        } else {
            lemma_class_scan_advances(chars, at + 1, members.push((low, low)), negated, false);
        }
    }
}

fn class(chars: &Vec<char>, start: usize) -> (r: Option<(Token, usize)>)
    requires
        start < chars.len(),
    ensures
        match class_at(chars@, start as int) {
            Some((token, next)) => r matches Some((t, n)) && t@ == token && n == next,
            None => r is None,
        },
{
    let mut index = start + 1;
    let negated = index < chars.len() && (chars[index] == '!' || chars[index] == '^');
    if negated {
        index += 1;
    }
    let mut members: Vec<(char, char)> = Vec::new();
    let mut first = true;
    while index < chars.len()
        invariant
            start < index <= chars.len() + 1,
            class_at(chars@, start as int) == class_scan(chars@, index as int, members@, negated, first),
        decreases chars.len() - index,
    {
        if chars[index] == ']' && !first {
            return Some((Token::Class { members, negated }, index + 1));
        }
        first = false;
        if chars[index] as u32 == 92 && index + 1 < chars.len() {
            index += 1;
        }
        let low = chars[index];
        if chars.len() - index > 2 && chars[index + 1] == '-' && chars[index + 2] != ']' {
            members.push((low, chars[index + 2]));
            index += 3;
        } else {
            members.push((low, low));
            index += 1;
        }
    }
    None
}

/// The element that starts at `index` and the position after it.
fn next_token(chars: &Vec<char>, index: usize) -> (r: (Token, usize))
    requires
        index < chars.len(),
    ensures
        index < r.1 <= chars.len(),
        element_at(chars@, index as int) == (r.0@, r.1 as int),
{
    let at_component_start = index == 0 || chars[index - 1] == '/';
    if chars[index] as u32 == 92 && index + 1 < chars.len() {
        (Token::Literal(chars[index + 1]), index + 2)
    } else if chars[index] == '*' {
        let mut end = index;
        while end < chars.len() && chars[end] == '*'
            invariant
                index <= end <= chars.len(),
                star_run_end(chars@, index as int) == star_run_end(chars@, end as int),
            decreases chars.len() - end,
        {
            end += 1;
        }
        proof {
            lemma_star_run(chars@, index as int);
        }
        let double = end - index >= 2 && at_component_start;
        if double && end == chars.len() {
            (Token::Everything, end)
        } else if double && chars[end] == '/' {
            (Token::Directories, end + 1)
        } else {
            (Token::Star, end)
        }
    } else if chars[index] == '?' {
        (Token::Any, index + 1)
    } else if chars[index] == '[' {
        proof {
            let negated = 0 <= index + 1 < chars@.len() && (chars@[index + 1] == '!' || chars@[index + 1] == '^');
            lemma_class_scan_advances(chars@, if negated { index + 2 } else { index + 1 }, Seq::empty(), negated, true);
        }
        let c = class(chars, index);
        match c {
            Some((t, next)) => {
                (t, next)
            },
            None => {
                (Token::Literal('['), index + 1)
            },
        }
    } else {
        (Token::Literal(chars[index]), index + 1)
    }
}

/// Compiles a gitignore pattern into its elements.
pub fn tokens(chars: &Vec<char>) -> (out: Vec<Token>)
    ensures
        tokens_view(out@) == compile(chars@, 0),
{
    let mut out: Vec<Token> = Vec::new();
    let mut index: usize = 0;
    while index < chars.len()
        invariant
            index <= chars.len(),
            tokens_view(out@) + compile(chars@, index as int) == compile(chars@, 0),
        decreases chars.len() - index,
    {
        let ghost before = out@;
        let (token, next) = next_token(chars, index);
        let ghost tv = token@;
        assert(compile(chars@, index as int) == seq![tv] + compile(chars@, next as int));
        out.push(token);
        index = next;
        proof {
            assert(tokens_view(out@) =~= tokens_view(before).push(tv));
        }
    }
    proof {
        assert(compile(chars@, index as int) =~= Seq::<TokenView>::empty());
    }
    out
}


/// Whether `c` is a carriage return.
pub open spec fn is_cr(c: char) -> bool {
    c as u32 == 13
}

/// Where the text of a pattern line ends once unescaped trailing spaces are dropped.
pub open spec fn spaces_end(l: Seq<char>, end: int) -> int
    decreases end,
{
    if 0 < end <= l.len() && l[end - 1] == ' ' && !(end >= 2 && is_backslash(l[end - 2])) {
        spaces_end(l, end - 1)
    } else {
        end
    }
}

/// The compiled form of one ignore rule.
pub struct RuleView {
    pub origin: Seq<char>,
    pub base: Seq<char>,
    pub tokens: Seq<TokenView>,
    pub negated: bool,
    pub directory_only: bool,
    pub anchored: bool,
}

/// The rule a pattern line states, if any: a blank line or a `#` comment states none; `!`
/// negates; a trailing `/` limits it to directories; a `/` anywhere anchors it to `base`.
pub open spec fn pattern_rule(raw: Seq<char>, base: Seq<char>, origin: Seq<char>) -> Option<
    RuleView,
> {
    let l0 = if raw.len() > 0 && is_cr(raw.last()) {
        raw.drop_last()
    } else {
        raw
    };
    let l1 = l0.take(spaces_end(l0, l0.len() as int));
    if l1.len() == 0 || l1[0] == '#' {
        None
    } else {
        let negated = l1[0] == '!';
        let l2 = if negated {
            l1.drop_first()
        } else {
            l1
        };
        let directory_only = l2.len() >= 2 && l2.last() == '/';
        let l3 = if directory_only {
            l2.drop_last()
        } else {
            l2
        };
        let anchored = l3.contains('/');
        let l4 = if l3.len() > 0 && l3[0] == '/' {
            l3.drop_first()
        } else {
            l3
        };
        if l4.len() == 0 {
            None
        } else {
            Some(
                RuleView {
                    origin,
                    base,
                    tokens: compile(l4, 0),
                    negated,
                    directory_only,
                    anchored,
                },
            )
        }
    }
}

/// The position of the last `/` in `text`, if any.
pub open spec fn last_slash(text: Seq<char>) -> Option<int>
    decreases text.len(),
{
    if text.len() == 0 {
        None
    } else if text.last() == '/' {
        Some(text.len() - 1)
    } else {
        last_slash(text.drop_last())
    }
}

/// What follows the last `/` of `text`, or all of it.
pub open spec fn last_component(text: Seq<char>) -> Seq<char> {
    match last_slash(text) {
        Some(j) => text.skip(j + 1),
        None => text,
    }
}

/// The part of `relative` under `base`, if it lies there.
pub open spec fn local_part(base: Seq<char>, relative: Seq<char>) -> Option<Seq<char>> {
    if base.len() == 0 {
        Some(relative)
    } else if starts_with(relative, base.push('/')) {
        Some(relative.skip(base.len() + 1int))
    } else {
        None
    }
}

/// Whether `rule` matches the project-relative path `relative`.
pub open spec fn applies(rule: RuleView, relative: Seq<char>, is_dir: bool) -> bool {
    !(rule.directory_only && !is_dir) && match local_part(rule.base, relative) {
        Some(local) => glob(
            rule.tokens,
            if rule.anchored {
                local
            } else {
                last_component(local)
            },
        ),
        None => false,
    }
}

/// The last rule that matches `relative`.
pub open spec fn last_applying(rules: Seq<RuleView>, relative: Seq<char>, is_dir: bool) -> Option<
    int,
>
    decreases rules.len(),
{
    if rules.len() == 0 {
        None
    } else if applies(rules.last(), relative, is_dir) {
        Some(rules.len() - 1)
    } else {
        last_applying(rules.drop_last(), relative, is_dir)
    }
}

/// The rule that ignores `relative` on its own: the last matching rule decides, and a
/// negated one re-includes.
pub open spec fn decided(rules: Seq<RuleView>, relative: Seq<char>, is_dir: bool) -> Option<int> {
    match last_applying(rules, relative, is_dir) {
        Some(i) => if rules[i].negated {
            None
        } else {
            Some(i)
        },
        None => None,
    }
}

/// The rule that ignores a directory above `relative`, looking from the top, at or after the
/// `/` at position `k`.
pub open spec fn parent_decided(rules: Seq<RuleView>, relative: Seq<char>, k: int) -> Option<int>
    decreases relative.len() - k,
{
    if k < 0 || k >= relative.len() {
        None
    } else if relative[k] == '/' && decided(rules, relative.take(k), true) is Some {
        decided(rules, relative.take(k), true)
    } else {
        parent_decided(rules, relative, k + 1)
    }
}

/// The ghost form of an `Ignore`: its rules in declaration order and the paths it never skips.
pub struct IgnoreView {
    pub rules: Seq<RuleView>,
    pub protected: Seq<Seq<char>>,
}

/// The rule that ignores `relative`: none for a protected path; otherwise the first ignored
/// directory above it, or the path's own decision.
pub open spec fn ignored_by(ignore: IgnoreView, relative: Seq<char>, is_dir: bool) -> Option<int> {
    if ignore.protected.contains(relative) {
        None
    } else {
        match parent_decided(ignore.rules, relative, 0) {
            Some(i) => Some(i),
            None => decided(ignore.rules, relative, is_dir),
        }
    }
}

/// Whether a protected path lies under the directory `relative`.
pub open spec fn protects_below(ignore: IgnoreView, relative: Seq<char>) -> bool {
    exists|i: int|
        0 <= i < ignore.protected.len() && starts_with(
            #[trigger] ignore.protected[i],
            relative.push('/'),
        )
}

pub proof fn lemma_last_slash(text: Seq<char>)
    ensures
        match last_slash(text) {
            Some(j) => 0 <= j < text.len() && text[j] == '/' && forall|m: int|
                j < m < text.len() ==> text[m] != '/',
            None => forall|m: int| 0 <= m < text.len() ==> text[m] != '/',
        },
    decreases text.len(),
{
    if text.len() > 0 && text.last() != '/' {
        lemma_last_slash(text.drop_last());
        assert forall|m: int| 0 <= m < text.len() - 1 implies text.drop_last()[m] == text[m] by {}
    }
}

pub proof fn lemma_last_applying(rules: Seq<RuleView>, relative: Seq<char>, is_dir: bool)
    ensures
        match last_applying(rules, relative, is_dir) {
            Some(i) => 0 <= i < rules.len() && applies(rules[i], relative, is_dir) && forall|j: int|
                i < j < rules.len() ==> !applies(#[trigger] rules[j], relative, is_dir),
            None => forall|j: int| 0 <= j < rules.len() ==> !applies(#[trigger] rules[j], relative, is_dir),
        },
    decreases rules.len(),
{
    if rules.len() > 0 && !applies(rules.last(), relative, is_dir) {
        lemma_last_applying(rules.drop_last(), relative, is_dir);
        assert forall|j: int| 0 <= j < rules.len() - 1 implies rules.drop_last()[j] == rules[j] by {}
    }
}

pub proof fn lemma_parent_decided(rules: Seq<RuleView>, relative: Seq<char>, k: int)
    ensures
        match parent_decided(rules, relative, k) {
            Some(i) => 0 <= i < rules.len(),
            None => true,
        },
    decreases relative.len() - k,
{
    if 0 <= k < relative.len() {
        lemma_last_applying(rules, relative.take(k), true);
        lemma_parent_decided(rules, relative, k + 1);
    }
}

#[derive(Clone, Debug)]
struct Rule {
    origin: String,
    base: Vec<char>,
    tokens: Vec<Token>,
    negated: bool,
    directory_only: bool,
    anchored: bool,
}

impl View for Rule {
    type V = RuleView;

    closed spec fn view(&self) -> RuleView {
        RuleView {
            origin: self.origin@,
            base: self.base@,
            tokens: tokens_view(self.tokens@),
            negated: self.negated,
            directory_only: self.directory_only,
            anchored: self.anchored,
        }
    }
}

/// The compiled ignore declarations of a project.
#[derive(Clone, Debug)]
pub struct Ignore {
    rules: Vec<Rule>,
    protected: Vec<String>,
}

impl View for Ignore {
    type V = IgnoreView;

    closed spec fn view(&self) -> IgnoreView {
        IgnoreView {
            rules: self.rules@.map_values(|r: Rule| r@),
            protected: self.protected@.map_values(|p: String| p@),
        }
    }
}

pub(crate) fn last_slash_index(text: &Vec<char>) -> (r: Option<usize>)
    ensures
        match last_slash(text@) {
            Some(j) => r == Some(j as usize),
            None => r is None,
        },
{
    let mut i = text.len();
    assert(text@.take(i as int) =~= text@);
    while i > 0
        invariant
            i <= text.len(),
            last_slash(text@) == last_slash(text@.take(i as int)),
        decreases i,
    {
        assert(text@.take(i as int).drop_last() =~= text@.take(i - 1));
        if text[i - 1] == '/' {
            return Some(i - 1);
        }
        i -= 1;
    }
    None
}

impl Rule {
    fn applies(&self, relative: &Vec<char>, is_dir: bool) -> (b: bool)
        ensures
            b == applies(self@, relative@, is_dir),
    {
        if self.directory_only && !is_dir {
            return false;
        }
        let local: Vec<char>;
        if self.base.len() == 0 {
            local = slice_chars(relative, 0, relative.len());
            assert(local@ =~= relative@);
        } else {
            let mut prefix = slice_chars(&self.base, 0, self.base.len());
            prefix.push('/');
            assert(prefix@ =~= self.base@.push('/'));
            if !chars_start_with(relative, &prefix) {
                return false;
            }
            local = slice_chars(relative, prefix.len(), relative.len());
            assert(local@ =~= relative@.skip(self.base@.len() + 1int));
        }
        if self.anchored {
            matches(&self.tokens, &local)
        } else {
            proof {
                lemma_last_slash(local@);
            }
            let subject = match last_slash_index(&local) {
                Some(j) => slice_chars(&local, j + 1, local.len()),
                None => slice_chars(&local, 0, local.len()),
            };
            assert(subject@ =~= last_component(local@));
            matches(&self.tokens, &subject)
        }
    }
}

impl Ignore {
    fn decided(&self, relative: &Vec<char>, is_dir: bool) -> (r: Option<usize>)
        ensures
            match decided(self@.rules, relative@, is_dir) {
                Some(i) => 0 <= i < self.rules.len() && r == Some(i as usize),
                None => r is None,
            },
    {
        let ghost rules = self@.rules;
        proof {
            lemma_last_applying(rules, relative@, is_dir);
        }
        let mut i = self.rules.len();
        assert(rules.take(i as int) =~= rules);
        while i > 0
            invariant
                i <= self.rules.len(),
                rules == self@.rules,
                last_applying(rules, relative@, is_dir) == last_applying(rules.take(i as int), relative@, is_dir),
            decreases i,
        {
            assert(rules.take(i as int).drop_last() =~= rules.take(i - 1));
            assert(rules.take(i as int).last() == self.rules@[i - 1]@);
            if self.rules[i - 1].applies(relative, is_dir) {
                if self.rules[i - 1].negated {
                    return None;
                }
                return Some(i - 1);
            }
            i -= 1;
        }
        None
    }

    fn protects(&self, relative: &str) -> (b: bool)
        ensures
            b == self@.protected.contains(relative@),
    {
        let mut i: usize = 0;
        while i < self.protected.len()
            invariant
                i <= self.protected.len(),
                forall|j: int| 0 <= j < i ==> self.protected@[j]@ != relative@,
            decreases self.protected.len() - i,
        {
            if self.protected[i].as_str().to_owned() == relative.to_owned() {
                assert(self@.protected[i as int] == relative@);
                return true;
            }
            i += 1;
        }
        assert forall|j: int| 0 <= j < self@.protected.len() implies self@.protected[j] != relative@ by {
            assert(self@.protected[j] == self.protected@[j]@);
        }
        false
    }

    /// The origin of the declaration that ignores `relative` (a file, or a directory when
    /// `is_dir`): `None` for a protected path; the first ignored directory above it decides
    /// before the path itself, so nothing under an ignored directory is re-included.
    pub fn rule_for(&self, relative: &str, is_dir: bool) -> (r: Option<&str>)
        ensures
            match ignored_by(self@, relative@, is_dir) {
                Some(i) => r is Some && r->0@ == self@.rules[i].origin,
                None => r is None,
            },
    {
        if self.protects(relative) {
            return None;
        }
        let chars = chars_of(relative);
        proof {
            lemma_parent_decided(self@.rules, relative@, 0);
        }
        let mut k: usize = 0;
        while k < chars.len()
            invariant
                k <= chars.len(),
                chars@ == relative@,
                !self@.protected.contains(relative@),
                parent_decided(self@.rules, relative@, 0) == parent_decided(self@.rules, relative@, k as int),
            decreases chars.len() - k,
        {
            if chars[k] == '/' {
                let prefix = slice_chars(&chars, 0, k);
                assert(prefix@ =~= relative@.take(k as int));
                match self.decided(&prefix, true) {
                    Some(i) => {
                        assert(self@.rules[i as int].origin == self.rules@[i as int].origin@);
                        assert(relative@[k as int] == '/');
                        assert(decided(self@.rules, relative@.take(k as int), true) == Some(i as int));
                        assert(parent_decided(self@.rules, relative@, k as int) == Some(i as int));
                        assert(parent_decided(self@.rules, relative@, 0) == Some(i as int));
                        assert(!self@.protected.contains(relative@));
                        assert(ignored_by(self@, relative@, is_dir) == Some(i as int));
                        return Some(self.rules[i].origin.as_str());
                    },
                    None => {},
                }
            }
            k += 1;
        }
        assert(parent_decided(self@.rules, relative@, k as int) is None);
        match self.decided(&chars, is_dir) {
            Some(i) => {
                assert(self@.rules[i as int].origin == self.rules@[i as int].origin@);
                Some(self.rules[i].origin.as_str())
            },
            None => None,
        }
    }

    /// Whether the walk skips the directory `relative`: a rule ignores it and no protected
    /// path lies under it.
    pub fn skips_directory(&self, relative: &str) -> (b: bool)
        ensures
            b == (ignored_by(self@, relative@, true) is Some && !protects_below(self@, relative@)),
    {
        if self.rule_for(relative, true).is_none() {
            return false;
        }
        let mut prefix = chars_of(relative);
        prefix.push('/');
        let mut i: usize = 0;
        while i < self.protected.len()
            invariant
                i <= self.protected.len(),
                prefix@ == relative@.push('/'),
                forall|j: int| 0 <= j < i ==> !starts_with(self.protected@[j]@, relative@.push('/')),
            decreases self.protected.len() - i,
        {
            let p = chars_of(self.protected[i].as_str());
            if chars_start_with(&p, &prefix) {
                assert(starts_with(self@.protected[i as int], relative@.push('/')));
                return false;
            }
            i += 1;
        }
        assert forall|j: int| 0 <= j < self@.protected.len() implies !starts_with(#[trigger] self@.protected[j], relative@.push('/')) by {
            assert(self@.protected[j] == self.protected@[j]@);
        }
        true
    }

    /// Whether the walk skips the file `relative`.
    pub fn skips_file(&self, relative: &str) -> (b: bool)
        ensures
            b == (ignored_by(self@, relative@, false) is Some),
    {
        self.rule_for(relative, false).is_some()
    }
}


/// `l` without one trailing carriage return.
pub open spec fn strip_cr(l: Seq<char>) -> Seq<char> {
    if l.len() > 0 && is_cr(l.last()) {
        l.drop_last()
    } else {
        l
    }
}

/// The lines of a text (`str::lines`): split at `\n`, a `\r` before the `\n` dropped, and no
/// empty line after a final line ending.
pub open spec fn lines(text: Seq<char>) -> Seq<Seq<char>> {
    let p = split(text, '\n');
    let body = p.drop_last().map_values(|l: Seq<char>| strip_cr(l));
    if p.last().len() == 0 {
        body
    } else {
        body.push(p.last())
    }
}

pub open spec fn option_seq(r: Option<RuleView>) -> Seq<RuleView> {
    match r {
        Some(v) => seq![v],
        None => Seq::empty(),
    }
}

/// The origin recorded for line `n` (0-based) of the list file `relative`.
pub open spec fn list_origin(relative: Seq<char>, n: int, line: Seq<char>) -> Seq<char> {
    relative + seq![':'] + decimal((n + 1) as nat) + seq![':', ' '] + trim_end(line)
}

/// The rules of the first `n` lines of a list file at `relative`, anchored at `base`.
pub open spec fn list_rules(relative: Seq<char>, base: Seq<char>, lines: Seq<Seq<char>>, n: int) -> Seq<
    RuleView,
>
    decreases n,
{
    if n <= 0 {
        Seq::empty()
    } else {
        list_rules(relative, base, lines, n - 1) + option_seq(
            pattern_rule(lines[n - 1], base, list_origin(relative, n - 1, lines[n - 1])),
        )
    }
}

/// Where a list file named `written` lies inside the project, as a `/`-separated relative
/// path; `None` when it is absolute, climbs out with `..`, or names nothing.
pub open spec fn list_relative(written: Seq<char>) -> Option<Seq<char>> {
    let parts = split(written, '/').filter(|p: Seq<char>| p.len() > 0 && p != seq!['.']);
    if written.len() > 0 && written[0] == '/' {
        None
    } else if parts.contains(seq!['.', '.']) {
        None
    } else if parts.len() == 0 {
        None
    } else {
        Some(join(parts, seq!['/']))
    }
}

/// The directory of a relative path, or nothing at the top.
pub open spec fn base_of(relative: Seq<char>) -> Seq<char> {
    match last_slash(relative) {
        Some(j) => relative.take(j),
        None => Seq::empty(),
    }
}

/// A declaration of ignored paths in the manifest.
#[derive(Clone, Debug)]
pub enum IgnoreDeclaration {
    Pattern { written: String, span: Span },
    List { written: String, path: String, span: Span },
}

/// The ghost form of an ignore declaration.
pub enum IgnoreDeclView {
    Pattern { written: Seq<char>, span: Span },
    List { written: Seq<char>, path: Seq<char>, span: Span },
}

impl View for IgnoreDeclaration {
    type V = IgnoreDeclView;

    open spec fn view(&self) -> IgnoreDeclView {
        match self {
            IgnoreDeclaration::Pattern { written, span } => IgnoreDeclView::Pattern {
                written: written@,
                span: *span,
            },
            IgnoreDeclaration::List { written, path, span } => IgnoreDeclView::List {
                written: written@,
                path: path@,
                span: *span,
            },
        }
    }
}

impl IgnoreDeclaration {
    pub open spec fn written_view(&self) -> Seq<char> {
        match self {
            IgnoreDeclaration::Pattern { written, .. } => written@,
            IgnoreDeclaration::List { written, .. } => written@,
        }
    }

    pub open spec fn span_view(&self) -> Span {
        match self {
            IgnoreDeclaration::Pattern { span, .. } => *span,
            IgnoreDeclaration::List { span, .. } => *span,
        }
    }

    /// The pattern or list file as written.
    pub fn written(&self) -> (w: &str)
        ensures
            w@ == self.written_view(),
    {
        match self {
            IgnoreDeclaration::Pattern { written, .. } => written.as_str(),
            IgnoreDeclaration::List { written, .. } => written.as_str(),
        }
    }

    /// Where the declaration stands in the manifest.
    pub fn span(&self) -> (s: Span)
        ensures
            s == self.span_view(),
    {
        match self {
            IgnoreDeclaration::Pattern { span, .. } => *span,
            IgnoreDeclaration::List { span, .. } => *span,
        }
    }

    /// Whether it names a list file rather than one pattern.
    pub fn is_list(&self) -> (b: bool)
        ensures
            b == (self is List),
    {
        match self {
            IgnoreDeclaration::List { .. } => true,
            _ => false,
        }
    }
}

/// Why the ignore declarations cannot be compiled.
#[derive(Debug)]
pub struct IgnoreError {
    pub span: Span,
    pub code: &'static str,
    pub message: String,
}

/// The rules and listed files of the first `n` declarations, or the index of the first
/// declaration that cannot be read.
pub open spec fn compiled(
    declarations: Seq<IgnoreDeclaration>,
    sources: Seq<Result<String, String>>,
    n: int,
) -> Result<(Seq<RuleView>, Seq<Seq<char>>), int>
    decreases n,
{
    if n <= 0 {
        Ok((Seq::empty(), Seq::empty()))
    } else {
        match compiled(declarations, sources, n - 1) {
            Err(i) => Err(i),
            Ok((rules, listed)) => match declarations[n - 1] {
                IgnoreDeclaration::Pattern { written, .. } => Ok(
                    (
                        rules + option_seq(
                            pattern_rule(written@, Seq::empty(), "ignore \""@ + written@ + "\""@),
                        ),
                        listed,
                    ),
                ),
                IgnoreDeclaration::List { written, .. } => match list_relative(written@) {
                    None => Err(n - 1),
                    Some(relative) => match sources[n - 1] {
                        Err(_) => Err(n - 1),
                        Ok(text) => {
                            let ls = lines(text@);
                            Ok(
                                (
                                    rules + list_rules(
                                        relative,
                                        base_of(relative),
                                        ls,
                                        ls.len() as int,
                                    ),
                                    listed.push(relative),
                                ),
                            )
                        },
                    },
                },
            },
        }
    }
}

/// The refusal for declaration `d` whose list file is outside the project or unreadable.
pub open spec fn ignore_failure(
    d: IgnoreDeclaration,
    source: Result<String, String>,
    root: Seq<char>,
    e: IgnoreError,
) -> bool {
    match d {
        IgnoreDeclaration::List { written, path, span } => {
            &&& e.span == span
            &&& if list_relative(written@) is None {
                &&& e.code@ == "E_IGNORE_LIST_OUTSIDE"@
                &&& e.message@ == "ignore list '"@ + written@
                    + "' lies outside the project; name a file inside "@ + root
            } else {
                &&& e.code@ == "E_IGNORE_LIST_MISSING"@
                &&& e.message@ == "cannot read ignore list '"@ + written@ + "' ("@ + path@
                    + "): "@ + match source {
                    Err(failure) => failure@,
                    Ok(_) => Seq::empty(),
                }
            }
        },
        _ => false,
    }
}


/// The rule a pattern line states, if any.
#[verifier::rlimit(40)]
fn rule(raw: &Vec<char>, base: &Vec<char>, origin: String) -> (r: Option<Rule>)
    ensures
        match pattern_rule(raw@, base@, origin@) {
            Some(v) => r is Some && r->0@ == v,
            None => r is None,
        },
{
    let mut end0 = raw.len();
    if end0 > 0 && raw[end0 - 1] as u32 == 13 {
        end0 -= 1;
    }
    let ghost l0 = if raw@.len() > 0 && is_cr(raw@.last()) {
        raw@.drop_last()
    } else {
        raw@
    };
    assert(l0 =~= raw@.take(end0 as int));
    let mut end1 = end0;
    while end1 > 0 && raw[end1 - 1] == ' ' && !(end1 >= 2 && raw[end1 - 2] as u32 == 92)
        invariant
            end1 <= end0 <= raw.len(),
            l0 == raw@.take(end0 as int),
            spaces_end(l0, l0.len() as int) == spaces_end(l0, end1 as int),
        decreases end1,
    {
        end1 -= 1;
    }
    let ghost l1 = l0.take(spaces_end(l0, l0.len() as int));
    assert(l1 =~= raw@.take(end1 as int));
    if end1 == 0 || raw[0] == '#' {
        return None;
    }
    let negated = raw[0] == '!';
    let start: usize = if negated { 1 } else { 0 };
    let ghost l2 = if negated { l1.drop_first() } else { l1 };
    assert(l2 =~= raw@.subrange(start as int, end1 as int));
    let directory_only = end1 - start >= 2 && raw[end1 - 1] == '/';
    let end3 = if directory_only { end1 - 1 } else { end1 };
    let ghost l3 = if directory_only { l2.drop_last() } else { l2 };
    assert(l3 =~= raw@.subrange(start as int, end3 as int));
    let piece = slice_chars(raw, start, end3);
    let anchored = contains_char(&piece, '/');
    let start4 = if end3 > start && raw[start] == '/' { start + 1 } else { start };
    let ghost l4 = if l3.len() > 0 && l3[0] == '/' { l3.drop_first() } else { l3 };
    assert(l4 =~= raw@.subrange(start4 as int, end3 as int));
    if start4 == end3 {
        return None;
    }
    let body = slice_chars(raw, start4, end3);
    let compiled_tokens = tokens(&body);
    let kept_base = slice_chars(base, 0, base.len());
    assert(kept_base@ =~= base@);
    Some(Rule { origin, base: kept_base, tokens: compiled_tokens, negated, directory_only, anchored })
}

proof fn lemma_push_contains<A>(s: Seq<A>, x: A, y: A)
    ensures
        s.push(x).contains(y) == (s.contains(y) || x == y),
{
    if x == y {
        assert(s.push(x)[s.len() as int] == y);
    }
    if s.contains(y) {
        let j = choose|j: int| 0 <= j < s.len() && s[j] == y;
        assert(s.push(x)[j] == y);
    }
    if s.push(x).contains(y) && x != y {
        let j = choose|j: int| 0 <= j < s.len() + 1 && s.push(x)[j] == y;
        assert(s[j] == y);
    }
}

proof fn lemma_filter_step(all: Seq<Seq<char>>, i: int, pred: spec_fn(Seq<char>) -> bool)
    requires
        0 <= i < all.len(),
    ensures
        all.take(i + 1).filter(pred) == if pred(all[i]) {
            all.take(i).filter(pred).push(all[i])
        } else {
            all.take(i).filter(pred)
        },
{
    reveal_with_fuel(Seq::<_>::filter, 1);
    assert(all.take(i + 1).drop_last() =~= all.take(i));
    assert(all.take(i + 1).last() == all[i]);
}

/// Where the list file `written` lies inside the project.
fn inside(written: &str) -> (r: Option<Vec<char>>)
    ensures
        match list_relative(written@) {
            Some(rel) => r is Some && r->0@ == rel,
            None => r is None,
        },
{
    let chars = chars_of(written);
    let pieces = split_chars(&chars, '/');
    let ghost all = pieces@.map_values(|p: Vec<char>| p@);
    let ghost pred = |p: Seq<char>| p.len() > 0 && p != seq!['.'];
    let dot: Vec<char> = vec!['.'];
    let dots: Vec<char> = vec!['.', '.'];
    let mut parts: Vec<Vec<char>> = Vec::new();
    let mut climbs = false;
    let mut i: usize = 0;
    while i < pieces.len()
        invariant
            i <= pieces.len(),
            all == pieces@.map_values(|p: Vec<char>| p@),
            pred == (|p: Seq<char>| p.len() > 0 && p != seq!['.']),
            dot@ == seq!['.'],
            dots@ == seq!['.', '.'],
            parts@.map_values(|p: Vec<char>| p@) == all.take(i as int).filter(pred),
            climbs == all.take(i as int).filter(pred).contains(seq!['.', '.']),
        decreases pieces.len() - i,
    {
        proof {
            lemma_filter_step(all, i as int, pred);
        }
        assert(all[i as int] == pieces@[i as int]@);
        let keep = pieces[i].len() > 0 && !chars_eq(&pieces[i], &dot);
        assert(keep == pred(all[i as int]));
        let ghost before = all.take(i as int).filter(pred);
        if keep {
            let piece = slice_chars(&pieces[i], 0, pieces[i].len());
            assert(piece@ =~= pieces@[i as int]@);
            if chars_eq(&piece, &dots) {
                climbs = true;
            }
            parts.push(piece);
            assert(parts@.map_values(|p: Vec<char>| p@) =~= before.push(pieces@[i as int]@));
            proof {
                lemma_push_contains(before, pieces@[i as int]@, seq!['.', '.']);
            }
        }
        i += 1;
    }
    assert(all.take(pieces.len() as int) =~= all);
    if chars.len() > 0 && chars[0] == '/' {
        return None;
    }
    if climbs || parts.len() == 0 {
        return None;
    }
    Some(join_chars(&parts, '/'))
}

/// The lines of a list file.
fn text_lines(text: &str) -> (out: Vec<Vec<char>>)
    ensures
        out@.map_values(|l: Vec<char>| l@) == lines(text@),
{
    let chars = chars_of(text);
    let pieces = split_chars(&chars, '\n');
    proof {
        crate::text::lemma_split_nonempty(text@, '\n');
    }
    let ghost p = split(text@, '\n');
    let mut out: Vec<Vec<char>> = Vec::new();
    let mut i: usize = 0;
    while i + 1 < pieces.len()
        invariant
            i + 1 <= pieces.len(),
            pieces@.map_values(|q: Vec<char>| q@) == p,
            out@.map_values(|l: Vec<char>| l@) == p.drop_last().take(i as int).map_values(
                |l: Seq<char>| strip_cr(l),
            ),
        decreases pieces.len() - i,
    {
        let piece = &pieces[i];
        let end = if piece.len() > 0 && piece[piece.len() - 1] as u32 == 13 {
            piece.len() - 1
        } else {
            piece.len()
        };
        let line = slice_chars(piece, 0, end);
        assert(p[i as int] == pieces@[i as int]@);
        assert(line@ =~= strip_cr(p[i as int]));
        let ghost before = out@;
        out.push(line);
        assert(p.drop_last().take(i + 1) =~= p.drop_last().take(i as int).push(p[i as int]));
        assert(out@.map_values(|l: Vec<char>| l@) =~= before.map_values(|l: Vec<char>| l@).push(strip_cr(p[i as int])));
        i += 1;
        assert(out@.map_values(|l: Vec<char>| l@) =~= p.drop_last().take(i as int).map_values(
            |l: Seq<char>| strip_cr(l),
        ));
    }
    assert(p.drop_last().take(i as int) =~= p.drop_last());
    let last = &pieces[pieces.len() - 1];
    if last.len() > 0 {
        let kept = slice_chars(last, 0, last.len());
        assert(kept@ =~= p.last());
        out.push(kept);
        assert(out@.map_values(|l: Vec<char>| l@) =~= p.drop_last().map_values(|l: Seq<char>| strip_cr(l)).push(p.last()));
    }
    out
}


proof fn lemma_list_rules_step(relative: Seq<char>, base: Seq<char>, ls: Seq<Seq<char>>, n: int)
    requires
        0 <= n,
    ensures
        list_rules(relative, base, ls, n + 1) == list_rules(relative, base, ls, n) + option_seq(
            pattern_rule(ls[n], base, list_origin(relative, n, ls[n])),
        ),
{
}

proof fn lemma_compiled_err(
    declarations: Seq<IgnoreDeclaration>,
    sources: Seq<Result<String, String>>,
    m: int,
    n: int,
)
    requires
        0 <= m <= n,
        compiled(declarations, sources, m) is Err,
    ensures
        compiled(declarations, sources, n) == compiled(declarations, sources, m),
    decreases n - m,
{
    if m < n {
        lemma_compiled_err(declarations, sources, m, n - 1);
    }
}

impl Ignore {
    /// Compiles the manifest's ignore declarations. `sources[i]` is what reading the list file
    /// of declaration `i` gave (its text, or why it could not be read); `root` is how the
    /// project directory is shown. Every listed file joins the `protected` paths.
    pub fn new(
        root: &str,
        declarations: &Vec<IgnoreDeclaration>,
        sources: &Vec<Result<String, String>>,
        protected: Vec<String>,
    ) -> (r: Result<Ignore, IgnoreError>)
        requires
            sources.len() == declarations.len(),
        ensures
            match compiled(declarations@, sources@, declarations.len() as int) {
                Ok((rules, listed)) => r matches Ok(ignore) && ignore@.rules == rules
                    && ignore@.protected == protected@.map_values(|p: String| p@) + listed,
                Err(i) => 0 <= i < declarations.len() && (r matches Err(e) && ignore_failure(
                    declarations@[i],
                    sources@[i],
                    root@,
                    e,
                )),
            },
    {
        let mut rules: Vec<Rule> = Vec::new();
        let mut kept = protected;
        let ghost given = kept@.map_values(|p: String| p@);
        let mut i: usize = 0;
        while i < declarations.len()
            invariant
                i <= declarations.len() == sources.len(),
                compiled(declarations@, sources@, i as int) matches Ok((rs, listed)) && rs == rules@.map_values(|r: Rule| r@)
                    && kept@.map_values(|p: String| p@) == given + listed,
            decreases declarations.len() - i,
        {
            let ghost previous_rules = rules@.map_values(|r: Rule| r@);
            let ghost previous_kept = kept@.map_values(|p: String| p@);
            match &declarations[i] {
                IgnoreDeclaration::Pattern { written, .. } => {
                    let mut origin = joined("ignore \"", written.as_str());
                    append(&mut origin, "\"");
                    let line = chars_of(written.as_str());
                    let no_base: Vec<char> = Vec::new();
                    assert(no_base@ =~= Seq::<char>::empty());
                    match rule(&line, &no_base, origin) {
                        Some(r) => {
                            rules.push(r);
                        },
                        None => {},
                    }
                    assert(rules@.map_values(|r: Rule| r@) =~= previous_rules + option_seq(
                        pattern_rule(written@, Seq::empty(), "ignore \""@ + written@ + "\""@),
                    ));
                },
                IgnoreDeclaration::List { written, path, span } => {
                    let relative = match inside(written.as_str()) {
                        Some(relative) => relative,
                        None => {
                            let mut message = joined("ignore list '", written.as_str());
                            append(&mut message, "' lies outside the project; name a file inside ");
                            append(&mut message, root);
                            proof {
                                lemma_compiled_err(declarations@, sources@, i + 1, declarations.len() as int);
                            }
                            return Err(IgnoreError { span: *span, code: "E_IGNORE_LIST_OUTSIDE", message });
                        },
                    };
                    let text = match &sources[i] {
                        Ok(text) => text,
                        Err(failure) => {
                            let mut message = joined("cannot read ignore list '", written.as_str());
                            append(&mut message, "' (");
                            append(&mut message, path.as_str());
                            append(&mut message, "): ");
                            append(&mut message, failure.as_str());
                            proof {
                                lemma_compiled_err(declarations@, sources@, i + 1, declarations.len() as int);
                            }
                            return Err(IgnoreError { span: *span, code: "E_IGNORE_LIST_MISSING", message });
                        },
                    };
                    proof {
                        lemma_last_slash(relative@);
                    }
                    let base = match last_slash_index(&relative) {
                        Some(j) => slice_chars(&relative, 0, j),
                        None => Vec::new(),
                    };
                    assert(base@ =~= base_of(relative@));
                    let ls = text_lines(text.as_str());
                    let ghost lv = ls@.map_values(|l: Vec<char>| l@);
                    let mut n: usize = 0;
                    assert(rules@.map_values(|r: Rule| r@) =~= previous_rules + list_rules(relative@, base@, lv, 0));
                    while n < ls.len()
                        invariant
                            n <= ls.len(),
                            lv == ls@.map_values(|l: Vec<char>| l@),
                            rules@.map_values(|r: Rule| r@) == previous_rules + list_rules(relative@, base@, lv, n as int),
                        decreases ls.len() - n,
                    {
                        let ghost before = rules@.map_values(|r: Rule| r@);
                        proof {
                            lemma_list_rules_step(relative@, base@, lv, n as int);
                        }
                        let relative_text = string_of(&relative);
                        let mut origin = joined(relative_text.as_str(), ":");
                        append(&mut origin, decimal_text((n as u64) + 1).as_str());
                        append(&mut origin, ": ");
                        append(&mut origin, string_of(&trim_end_chars(&ls[n])).as_str());
                        assert(lv[n as int] == ls@[n as int]@);
                        proof {
                            reveal_strlit(":");
                            reveal_strlit(": ");
                        }
                        assert(origin@ == list_origin(relative@, n as int, lv[n as int]));
                        match rule(&ls[n], &base, origin) {
                            Some(r) => {
                                rules.push(r);
                            },
                            None => {},
                        }
                        assert(rules@.map_values(|r: Rule| r@) =~= before + option_seq(
                            pattern_rule(lv[n as int], base@, list_origin(relative@, n as int, lv[n as int])),
                        ));
                        n += 1;
                    }
                    kept.push(string_of(&relative));
                    assert(kept@.map_values(|p: String| p@) =~= previous_kept.push(relative@));
                },
            }
            i += 1;
        }
        Ok(Ignore { rules, protected: kept })
    }
}


proof fn lemma_parent_decided_found(rules: Seq<RuleView>, relative: Seq<char>, k: int, m: int)
    requires
        0 <= k <= m < relative.len(),
        relative[m] == '/',
        decided(rules, relative.take(m), true) is Some,
    ensures
        parent_decided(rules, relative, k) is Some,
    decreases m - k,
{
    if k < m {
        if !(relative[k] == '/' && decided(rules, relative.take(k), true) is Some) {
            lemma_parent_decided_found(rules, relative, k + 1, m);
        }
    }
}

/// A protected path (the manifest, a contract, a memory or list file) is never ignored,
/// whatever the patterns say, and neither is a directory that holds one.
pub proof fn law_protected_paths_stay_tracked(ignore: IgnoreView, relative: Seq<char>, is_dir: bool)
    ensures
        ignore.protected.contains(relative) ==> ignored_by(ignore, relative, is_dir) is None,
        (exists|i: int| 0 <= i < ignore.protected.len() && starts_with(
            #[trigger] ignore.protected[i],
            relative.push('/'),
        )) ==> protects_below(ignore, relative),
{
}

/// Nothing under an ignored directory can be re-included: once a directory above a path is
/// ignored, the path is ignored too, whatever later patterns negate.
pub proof fn law_ignored_directory_hides_its_contents(
    ignore: IgnoreView,
    relative: Seq<char>,
    k: int,
    is_dir: bool,
)
    requires
        0 <= k < relative.len(),
        relative[k] == '/',
        decided(ignore.rules, relative.take(k), true) is Some,
        !ignore.protected.contains(relative),
    ensures
        ignored_by(ignore, relative, is_dir) is Some,
{
    lemma_parent_decided_found(ignore.rules, relative, 0, k);
}

/// The last matching pattern decides: a path is ignored on its own exactly when some rule
/// matches it and the last rule that matches is not a negation.
pub proof fn law_last_matching_pattern_decides(
    rules: Seq<RuleView>,
    relative: Seq<char>,
    is_dir: bool,
)
    ensures
        decided(rules, relative, is_dir) matches Some(i) ==> {
            &&& 0 <= i < rules.len()
            &&& applies(rules[i], relative, is_dir)
            &&& !rules[i].negated
            &&& forall|j: int| i < j < rules.len() ==> !applies(#[trigger] rules[j], relative, is_dir)
        },
        decided(rules, relative, is_dir) is None ==> forall|i: int|
            0 <= i < rules.len() && applies(#[trigger] rules[i], relative, is_dir) && !rules[i].negated
                ==> exists|j: int| i < j < rules.len() && applies(#[trigger] rules[j], relative, is_dir) && rules[j].negated,
{
    lemma_last_applying(rules, relative, is_dir);
    if decided(rules, relative, is_dir) is None {
        match last_applying(rules, relative, is_dir) {
            Some(l) => {
                assert forall|i: int|
                    0 <= i < rules.len() && applies(#[trigger] rules[i], relative, is_dir) && !rules[i].negated
                        implies exists|j: int| i < j < rules.len() && applies(#[trigger] rules[j], relative, is_dir) && rules[j].negated by {
                    assert(i != l);
                    assert(applies(rules[l], relative, is_dir) && rules[l].negated);
                }
            },
            None => {},
        }
    }
}

/// How many `/` the text holds.
pub open spec fn slashes(text: Seq<char>) -> nat
    decreases text.len(),
{
    if text.len() == 0 {
        0
    } else {
        (if text[0] == '/' {
            1nat
        } else {
            0nat
        }) + slashes(text.drop_first())
    }
}

/// Whether a pattern holds no `**`: only literal characters, `*`, `?` and classes.
pub open spec fn literals_and_stars(tokens: Seq<TokenView>) -> bool {
    forall|i: int| 0 <= i < tokens.len() ==> !(#[trigger] tokens[i] is Directories) && !(tokens[i] is Everything)
}

/// How many literal `/` the pattern holds.
pub open spec fn literal_slashes(tokens: Seq<TokenView>) -> nat
    decreases tokens.len(),
{
    if tokens.len() == 0 {
        0
    } else {
        (if tokens[0] == TokenView::Literal('/') {
            1nat
        } else {
            0nat
        }) + literal_slashes(tokens.drop_first())
    }
}

/// A `*` (like `?` and a class) stays within one directory: a pattern without `**` matches
/// only paths with exactly as many `/` as it writes itself, so `src/*.rs` reaches `src/a.rs`
/// but never `src/sub/a.rs`.
pub proof fn law_a_star_stays_within_a_directory(tokens: Seq<TokenView>, text: Seq<char>)
    requires
        literals_and_stars(tokens),
        glob(tokens, text),
    ensures
        slashes(text) == literal_slashes(tokens),
    decreases tokens.len(), text.len(),
{
    if tokens.len() > 0 {
        let rest = tokens.drop_first();
        assert(literals_and_stars(rest)) by {
            assert forall|i: int| 0 <= i < rest.len() implies !(#[trigger] rest[i] is Directories) && !(rest[i] is Everything) by {
                assert(rest[i] == tokens[i + 1]);
            }
        }
        assert(!(tokens[0] is Directories) && !(tokens[0] is Everything));
        match tokens[0] {
            TokenView::Star => {
                if glob(rest, text) {
                    law_a_star_stays_within_a_directory(rest, text);
                } else {
                    law_a_star_stays_within_a_directory(tokens, text.drop_first());
                }
            },
            TokenView::Literal(c) => {
                law_a_star_stays_within_a_directory(rest, text.drop_first());
            },
            TokenView::Any => {
                law_a_star_stays_within_a_directory(rest, text.drop_first());
            },
            TokenView::Class { .. } => {
                law_a_star_stays_within_a_directory(rest, text.drop_first());
            },
            _ => {},
        }
    }
}

/// A `*` matches any run of characters within a directory: with the literals around it
/// matching, `*` followed by a pattern matches `w + text` for any `w` free of `/` that the rest
/// of the pattern matches after.
pub proof fn law_a_star_takes_any_name(tokens: Seq<TokenView>, w: Seq<char>, text: Seq<char>)
    requires
        tokens.len() > 0,
        tokens[0] == TokenView::Star,
        !w.contains('/'),
        glob(tokens.drop_first(), text),
    ensures
        glob(tokens, w + text),
    decreases w.len(),
{
    if w.len() == 0 {
        assert(w + text =~= text);
    } else {
        assert(!w.drop_first().contains('/')) by {
            if w.drop_first().contains('/') {
                let k = choose|k: int| 0 <= k < w.drop_first().len() && w.drop_first()[k] == '/';
                assert(w[k + 1] == '/');
            }
        }
        law_a_star_takes_any_name(tokens, w.drop_first(), text);
        assert((w + text).drop_first() =~= w.drop_first() + text);
        assert(w[0] != '/') by {
            if w[0] == '/' {
                assert(w.contains('/'));
            }
        }
    }
}

} // verus!
