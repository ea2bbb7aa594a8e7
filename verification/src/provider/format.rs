use super::model::Widget;
use crate::project::{all_digits, digits_value, parse_u64};
use crate::text::{
    append, chars_of, debug_quoted, first_at, join, joined, lemma_first_occurs, occurs, occurs_at,
    quoted, signed_decimal, signed_decimal_text, split, string_of, trim,
};
use vstd::prelude::*;

verus! {

/// One widget as a JSON object.
pub open spec fn row_text(w: Widget) -> Seq<char> {
    "{\"id\":"@ + signed_decimal(w.id as int) + ",\"text\":"@ + debug_quoted(w.text@) + "}"@
}

/// The widgets as a JSON array.
pub open spec fn encoded(ws: Seq<Widget>) -> Seq<char> {
    "["@ + join(ws.map_values(|w: Widget| row_text(w)), ","@) + "]"@
}

/// The widgets as a JSON array of objects with `id` and `text`.
pub fn encode(widgets: &[Widget]) -> (text: String)
    ensures
        text@ == encoded(widgets@),
{
    let mut rows: Vec<String> = Vec::new();
    let mut i: usize = 0;
    while i < widgets.len()
        invariant
            i <= widgets.len(),
            rows@.map_values(|r: String| r@) == widgets@.map_values(|w: Widget| row_text(w)).take(i as int),
        decreases widgets.len() - i,
    {
        let w = &widgets[i];
        let mut row = joined("{\"id\":", signed_decimal_text(w.id).as_str());
        append(&mut row, ",\"text\":");
        append(&mut row, quoted(w.text.as_str()).as_str());
        append(&mut row, "}");
        let ghost before = rows@;
        rows.push(row);
        assert(rows@.map_values(|r: String| r@) =~= before.map_values(|r: String| r@).push(row@));
        assert(rows@.map_values(|r: String| r@) =~= widgets@.map_values(|w: Widget| row_text(w)).take(i + 1));
        i += 1;
    }
    assert(widgets@.map_values(|w: Widget| row_text(w)).take(i as int) =~= widgets@.map_values(
        |w: Widget| row_text(w),
    ));
    let mut text = joined("[", crate::text::join_strings(&rows, ",").as_str());
    append(&mut text, "]");
    text
}

/// The pieces of `s` between occurrences of `p`, left to right (`str::split` with a text).
pub open spec fn str_split(s: Seq<char>, p: Seq<char>) -> Seq<Seq<char>>
    decreases s.len(),
{
    if p.len() == 0 {
        seq![s]
    } else {
        match first_at(s, p, 0) {
            None => seq![s],
            Some(k) => {
                proof {
                    lemma_first_occurs(s, p, 0);
                }
                seq![s.take(k)] + str_split(s.skip(k + p.len()), p)
            },
        }
    }
}

/// The piece after the first occurrence of `p`, up to the next one (`split(p).nth(1)`).
pub open spec fn second_piece(s: Seq<char>, p: Seq<char>) -> Option<Seq<char>> {
    let pieces = str_split(s, p);
    if pieces.len() > 1 {
        Some(pieces[1])
    } else {
        None
    }
}

pub open spec fn is_bracket(c: char) -> bool {
    c == '[' || c == ']'
}

/// `s` without the brackets at its start.
pub open spec fn strip_leading_brackets(s: Seq<char>) -> Seq<char>
    decreases s.len(),
{
    if s.len() > 0 && is_bracket(s[0]) {
        strip_leading_brackets(s.drop_first())
    } else {
        s
    }
}

/// `s` without the brackets at its end.
pub open spec fn strip_trailing_brackets(s: Seq<char>) -> Seq<char>
    decreases s.len(),
{
    if s.len() > 0 && is_bracket(s.last()) {
        strip_trailing_brackets(s.drop_last())
    } else {
        s
    }
}

/// `s` without the quotes and closing braces at its end.
pub open spec fn strip_closing(s: Seq<char>) -> Seq<char>
    decreases s.len(),
{
    if s.len() > 0 && (s.last() == '"' || s.last() == '}') {
        strip_closing(s.drop_last())
    } else {
        s
    }
}

/// The value of a signed decimal numeral that fits in 64 bits (`str::parse::<i64>`).
pub open spec fn parsed_i64(s: Seq<char>) -> Option<i64> {
    if s.len() > 0 && s[0] == '-' {
        let d = s.skip(1);
        if d.len() > 0 && all_digits(d) && digits_value(d) <= 0x8000_0000_0000_0000 {
            Some((0 - digits_value(d)) as i64)
        } else {
            None
        }
    } else {
        let d = if s.len() > 0 && s[0] == '+' {
            s.skip(1)
        } else {
            s
        };
        if d.len() > 0 && all_digits(d) && digits_value(d) <= 0x7fff_ffff_ffff_ffff {
            Some(digits_value(d) as i64)
        } else {
            None
        }
    }
}

/// The id a row names, if it names a readable one.
pub open spec fn row_id(row: Seq<char>) -> Option<i64> {
    match second_piece(row, "\"id\":"@) {
        None => None,
        Some(rest) => parsed_i64(trim(split(rest, ',')[0])),
    }
}

/// The text a row names, if it names one.
pub open spec fn row_widget_text(row: Seq<char>) -> Option<Seq<char>> {
    match second_piece(row, "\"text\":\""@) {
        None => None,
        Some(rest) => Some(strip_closing(rest)),
    }
}

/// The widgets that the rows from `rows` name, in order: each row with both an id and a text.
pub open spec fn decoded_rows(rows: Seq<Seq<char>>) -> Seq<(i64, Seq<char>)>
    decreases rows.len(),
{
    if rows.len() == 0 {
        Seq::empty()
    } else {
        let earlier = decoded_rows(rows.drop_last());
        match (row_id(rows.last()), row_widget_text(rows.last())) {
            (Some(id), Some(t)) => earlier.push((id, t)),
            _ => earlier,
        }
    }
}

/// The widgets that a text names: the text without its outer brackets, split into rows at
/// each `},`, each row read for its id and its text.
pub open spec fn decoded(text: Seq<char>) -> Seq<(i64, Seq<char>)> {
    decoded_rows(str_split(strip_trailing_brackets(strip_leading_brackets(text)), "},"@))
}

proof fn lemma_occurs_shift(s: Seq<char>, p: Seq<char>, a: int, i: int)
    requires
        0 <= a <= s.len(),
        0 <= i,
    ensures
        occurs_at(s.skip(a), p, i) == occurs_at(s, p, a + i),
{
    if occurs_at(s, p, a + i) {
        assert(s.skip(a).subrange(i, i + p.len()) =~= s.subrange(a + i, a + i + p.len()));
    }
    if occurs_at(s.skip(a), p, i) {
        assert(s.skip(a).subrange(i, i + p.len()) =~= s.subrange(a + i, a + i + p.len()));
    }
}

/// The pieces of `cs` between occurrences of `p`.
fn split_text(cs: &Vec<char>, p: &Vec<char>) -> (pieces: Vec<Vec<char>>)
    requires
        p@.len() > 0,
    ensures
        pieces@.map_values(|v: Vec<char>| v@) == str_split(cs@, p@),
{
    let ghost pv = p@;
    let mut pieces: Vec<Vec<char>> = Vec::new();
    let mut start: usize = 0;
    let mut j: usize = 0;
    let n = cs.len();
    assert(cs@.skip(0) =~= cs@);
    while j < n
        invariant
            n == cs.len(),
            pv == p@,
            pv.len() > 0,
            start <= j <= n,
            str_split(cs@, pv) == pieces@.map_values(|v: Vec<char>| v@) + str_split(cs@.skip(start as int), pv),
            first_at(cs@.skip(start as int), pv, 0) == first_at(cs@.skip(start as int), pv, j - start),
        decreases n - j + (n - start),
    {
        proof {
            lemma_occurs_shift(cs@, pv, start as int, j - start);
        }
        if occurs(cs, p, j) {
            let ghost rest = cs@.skip(start as int);
            let ghost k = j - start;
            assert(first_at(rest, pv, 0) == Some(k as int));
            let piece = slice(cs, start, j);
            assert(piece@ =~= rest.take(k as int));
            let plen = p.len();
            assert(j + plen <= n);
            let next = j + plen;
            assert(rest.skip(k + pv.len()) =~= cs@.skip(next as int));
            let ghost before = pieces@;
            pieces.push(piece);
            assert(pieces@.map_values(|v: Vec<char>| v@) =~= before.map_values(|v: Vec<char>| v@).push(piece@));
            assert(str_split(rest, pv) == seq![rest.take(k as int)] + str_split(rest.skip(k + pv.len()), pv));
            assert(str_split(cs@, pv) =~= pieces@.map_values(|v: Vec<char>| v@) + str_split(
                cs@.skip(next as int),
                pv,
            ));
            start = next;
            j = next;
            assert(cs@.skip(start as int).skip(0) =~= cs@.skip(start as int));
        } else {
            j += 1;
        }
    }
    let ghost rest = cs@.skip(start as int);
    assert(first_at(rest, pv, 0) is None);
    let last = slice(cs, start, n);
    assert(last@ =~= rest);
    let ghost before = pieces@;
    pieces.push(last);
    assert(pieces@.map_values(|v: Vec<char>| v@) =~= before.map_values(|v: Vec<char>| v@).push(last@));
    pieces
}

/// The characters of `cs` from `from` up to `to`.
fn slice(cs: &Vec<char>, from: usize, to: usize) -> (v: Vec<char>)
    requires
        from <= to <= cs.len(),
    ensures
        v@ == cs@.subrange(from as int, to as int),
{
    let mut v: Vec<char> = Vec::new();
    let mut i: usize = from;
    while i < to
        invariant
            from <= i <= to <= cs.len(),
            v@ == cs@.subrange(from as int, i as int),
        decreases to - i,
    {
        v.push(cs[i]);
        i += 1;
        assert(v@ =~= cs@.subrange(from as int, i as int));
    }
    v
}

/// `cs` without its leading and trailing white space.
fn trim_chars(cs: &Vec<char>) -> (v: Vec<char>)
    ensures
        v@ == trim(cs@),
{
    let n = cs.len();
    let mut a: usize = 0;
    assert(cs@.skip(0) =~= cs@);
    while a < n && crate::text::char_is_whitespace(cs[a])
        invariant
            a <= n == cs.len(),
            crate::text::trim_start(cs@) == crate::text::trim_start(cs@.skip(a as int)),
        decreases n - a,
    {
        assert(cs@.skip(a as int).drop_first() =~= cs@.skip(a + 1));
        a += 1;
    }
    assert(crate::text::trim_start(cs@.skip(a as int)) == cs@.skip(a as int)) by {
        if a < n {
            assert(cs@.skip(a as int)[0] == cs@[a as int]);
        }
    }
    let mut b: usize = n;
    assert(cs@.skip(a as int) =~= cs@.subrange(a as int, b as int));
    while b > a && crate::text::char_is_whitespace(cs[b - 1])
        invariant
            a <= b <= n == cs.len(),
            crate::text::trim_end(cs@.skip(a as int)) == crate::text::trim_end(cs@.subrange(a as int, b as int)),
        decreases b,
    {
        assert(cs@.subrange(a as int, b as int).drop_last() =~= cs@.subrange(a as int, b - 1));
        b -= 1;
    }
    assert(crate::text::trim_end(cs@.subrange(a as int, b as int)) == cs@.subrange(a as int, b as int)) by {
        if b > a {
            assert(cs@.subrange(a as int, b as int).last() == cs@[b - 1]);
        }
    }
    slice(cs, a, b)
}

/// The value of a signed decimal numeral that fits in 64 bits.
fn parse_i64(cs: &Vec<char>) -> (r: Option<i64>)
    ensures
        r == parsed_i64(cs@),
{
    let n = cs.len();
    if n > 0 && cs[0] == '-' {
        let d = slice(cs, 1, n);
        assert(d@ =~= cs@.skip(1));
        match parse_u64(string_of(d.as_slice()).as_str()) {
            Some(v) => {
                if v <= 0x8000_0000_0000_0000 {
                    if v == 0x8000_0000_0000_0000 {
                        return Some(i64::MIN);
                    }
                    let pos = v as i64;
                    return Some(-pos);
                }
                None
            },
            None => None,
        }
    } else {
        let d = if n > 0 && cs[0] == '+' {
            let d = slice(cs, 1, n);
            assert(d@ =~= cs@.skip(1));
            d
        } else {
            let d = slice(cs, 0, n);
            assert(d@ =~= cs@);
            d
        };
        match parse_u64(string_of(d.as_slice()).as_str()) {
            Some(v) => {
                if v <= 0x7fff_ffff_ffff_ffff {
                    Some(v as i64)
                } else {
                    None
                }
            },
            None => None,
        }
    }
}

/// The piece after the first occurrence of `p`, up to the next one.
fn second(cs: &Vec<char>, p: &Vec<char>) -> (r: Option<Vec<char>>)
    requires
        p@.len() > 0,
    ensures
        match second_piece(cs@, p@) {
            Some(t) => r matches Some(v) && v@ == t,
            None => r is None,
        },
{
    let mut pieces = split_text(cs, p);
    if pieces.len() > 1 {
        let piece = pieces.remove(1);
        Some(piece)
    } else {
        None
    }
}

/// The first piece of `cs` before `c` (`split(c).next()`).
fn before_char(cs: &Vec<char>, c: char) -> (v: Vec<char>)
    ensures
        v@ == split(cs@, c)[0],
{
    let pieces = crate::text::split_chars(cs, c);
    proof {
        crate::text::lemma_split_nonempty(cs@, c);
    }
    let first = slice(&pieces[0], 0, pieces[0].len());
    assert(first@ =~= pieces@[0]@);
    first
}

/// The id and text of one row.
fn read_row(row: &Vec<char>) -> (r: (Option<i64>, Option<String>))
    ensures
        r.0 == row_id(row@),
        match row_widget_text(row@) {
            Some(t) => r.1 matches Some(s) && s@ == t,
            None => r.1 is None,
        },
{
    let id_key = chars_of("\"id\":");
    let text_key = chars_of("\"text\":\"");
    proof {
        reveal_strlit("\"id\":");
        reveal_strlit("\"text\":\"");
    }
    let id = match second(row, &id_key) {
        Some(rest) => {
            let value = before_char(&rest, ',');
            let trimmed = trim_chars(&value);
            parse_i64(&trimmed)
        },
        None => None,
    };
    let text = match second(row, &text_key) {
        Some(rest) => {
            let mut end = rest.len();
            assert(rest@.take(end as int) =~= rest@);
            while end > 0 && (rest[end - 1] == '"' || rest[end - 1] == '}')
                invariant
                    end <= rest.len(),
                    strip_closing(rest@) == strip_closing(rest@.take(end as int)),
                decreases end,
            {
                assert(rest@.take(end as int).drop_last() =~= rest@.take(end - 1));
                end -= 1;
            }
            assert(strip_closing(rest@.take(end as int)) == rest@.take(end as int)) by {
                if end > 0 {
                    assert(rest@.take(end as int).last() == rest@[end - 1]);
                }
            }
            let kept = slice(&rest, 0, end);
            assert(kept@ =~= rest@.take(end as int));
            Some(string_of(kept.as_slice()))
        },
        None => None,
    };
    (id, text)
}

/// The widgets that a text of rows names; a row that lacks a readable id or a text is passed
/// over.
pub fn decode(text: &str) -> (widgets: Vec<Widget>)
    ensures
        widgets@.map_values(|w: Widget| (w.id, w.text@)) == decoded(text@),
{
    let cs = chars_of(text);
    let n = cs.len();
    let mut a: usize = 0;
    assert(cs@.skip(0) =~= cs@);
    while a < n && (cs[a] == '[' || cs[a] == ']')
        invariant
            a <= n == cs.len(),
            strip_leading_brackets(cs@) == strip_leading_brackets(cs@.skip(a as int)),
        decreases n - a,
    {
        assert(cs@.skip(a as int).drop_first() =~= cs@.skip(a + 1));
        a += 1;
    }
    assert(strip_leading_brackets(cs@.skip(a as int)) == cs@.skip(a as int)) by {
        if a < n {
            assert(cs@.skip(a as int)[0] == cs@[a as int]);
        }
    }
    let mut b: usize = n;
    assert(cs@.skip(a as int) =~= cs@.subrange(a as int, b as int));
    while b > a && (cs[b - 1] == '[' || cs[b - 1] == ']')
        invariant
            a <= b <= n == cs.len(),
            strip_trailing_brackets(cs@.skip(a as int)) == strip_trailing_brackets(cs@.subrange(a as int, b as int)),
        decreases b,
    {
        assert(cs@.subrange(a as int, b as int).drop_last() =~= cs@.subrange(a as int, b - 1));
        b -= 1;
    }
    assert(strip_trailing_brackets(cs@.subrange(a as int, b as int)) == cs@.subrange(a as int, b as int)) by {
        if b > a {
            assert(cs@.subrange(a as int, b as int).last() == cs@[b - 1]);
        }
    }
    let inner = slice(&cs, a, b);
    let separator = chars_of("},");
    proof {
        reveal_strlit("},");
    }
    let rows = split_text(&inner, &separator);
    let ghost rv = rows@.map_values(|v: Vec<char>| v@);
    let mut widgets: Vec<Widget> = Vec::new();
    let mut i: usize = 0;
    assert(widgets@.map_values(|w: Widget| (w.id, w.text@)) =~= Seq::<(i64, Seq<char>)>::empty());
    while i < rows.len()
        invariant
            i <= rows.len(),
            rv == rows@.map_values(|v: Vec<char>| v@),
            widgets@.map_values(|w: Widget| (w.id, w.text@)) == decoded_rows(rv.take(i as int)),
        decreases rows.len() - i,
    {
        assert(rv.take(i + 1).drop_last() =~= rv.take(i as int));
        assert(rv.take(i + 1).last() == rows@[i as int]@);
        let (id, t) = read_row(&rows[i]);
        match (id, t) {
            (Some(id), Some(t)) => {
                let ghost before = widgets@;
                let w = Widget { id, text: t };
                widgets.push(w);
                assert(widgets@.map_values(|w: Widget| (w.id, w.text@)) =~= before.map_values(
                    |w: Widget| (w.id, w.text@),
                ).push((w.id, w.text@)));
            },
            _ => {},
        }
        i += 1;
    }
    assert(rv.take(i as int) =~= rv);
    widgets
}

} // verus!
