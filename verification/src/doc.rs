//! Overlay text as a sequence of tokens: characters, and numbers whose text
//! depends on floating-point formatting.
//!
//! The library decides every character of the overlay except the digits of
//! such numbers; each of those stands in the document as a `NumFmt` that says
//! which value goes there and how it is written.

use vstd::prelude::*;
use crate::parser::Real;
use crate::text::{chars_of, joined};

verus! {

/// A number to be written into the overlay, and how.
#[derive(Clone, Copy, Debug)]
pub enum NumFmt {
    /// The double in Rust's shortest `{}` form.
    Display(Real),
    /// The double with `digits` digits after the point (`{:.N}`).
    Fixed { value: Real, digits: u8 },
    /// `scale(X)` with four decimals when `x` and `y` differ by less than
    /// 0.0001, `scale(X, Y)` otherwise.
    ScaleCss { x: Real, y: Real },
    /// ` rotate(R.RRdeg)` when the angle exceeds 0.001 in magnitude, nothing otherwise.
    RotateCss(Real),
    /// `; width: Xpx; height: Ypx` when both are positive, nothing otherwise.
    StretchSize { x: Real, y: Real },
    /// The CSS `rgba(..)` of an OBS colour (white when absent) with its alpha
    /// scaled by `opacity` percent.
    Rgba { color: Option<i64>, opacity: Real },
    /// The CSS `rgba(..)` of `color` at `opacity` percent when the opacity is
    /// positive, `transparent` otherwise.
    Background { bk_color: i64, opacity: Real },
    /// `; padding: 2px 6px` when the opacity is positive, nothing otherwise.
    Padding(Real),
    /// A text-shadow halo of twelve shadows that draws an outline of
    /// `size` canvas pixels around text scaled by `scale_x`.
    OutlineShadow { size: i64, scale_x: Real, color: Option<i64> },
    /// `1 + v` with three decimals.
    OnePlus(Real),
    /// `1 + v / 2` with three decimals.
    OnePlusHalf(Real),
    /// The square of the colour-distance tolerance of a key filter, from its
    /// OBS similarity (80 when absent).
    ToleranceSquared(Option<Real>),
}

/// One token of overlay text.
#[derive(Clone, Copy, Debug)]
pub enum Token {
    Ch(char),
    Num(NumFmt),
}

/// The tokens of plain text.
pub open spec fn lit(s: Seq<char>) -> Seq<Token> {
    s.map_values(|c: char| char_token(c))
}

/// The token of one character.
pub open spec fn char_token(c: char) -> Token {
    Token::Ch(c)
}

/// The tokens of joined texts are the joined tokens.
pub proof fn lemma_lit_concat(a: Seq<char>, b: Seq<char>)
    ensures
        lit(a + b) == lit(a) + lit(b),
{
    assert(lit(a).len() == a.len());
    assert forall|i: int| 0 <= i < lit(a + b).len() implies #[trigger] lit(a + b)[i] == (lit(a)
        + lit(b))[i] by {
        if i < a.len() {
            assert((a + b)[i] == a[i]);
        } else {
            assert((a + b)[i] == b[i - a.len()]);
        }
    }
    assert(lit(a + b) =~= lit(a) + lit(b));
}

/// The tokens of a text with one more character.
pub proof fn lemma_lit_push(a: Seq<char>, c: char)
    ensures
        lit(a.push(c)) == lit(a).push(char_token(c)),
{
    assert forall|i: int| 0 <= i < a.len() + 1 implies #[trigger] lit(a.push(c))[i] == lit(a).push(
        char_token(c),
    )[i] by {
        if i < a.len() {
            assert(a.push(c)[i] == a[i]);
        } else {
            assert(a.push(c)[i] == c);
        }
    }
    assert(lit(a.push(c)) =~= lit(a).push(char_token(c)));
}

/// Appends plain text.
pub fn push_str(doc: &mut Vec<Token>, s: &str)
    ensures
        final(doc)@ == old(doc)@ + lit(s@),
{
    let chars = chars_of(s);
    let ghost start = doc@;
    let mut i: usize = 0;
    assert(lit(chars@.take(0)) =~= Seq::<Token>::empty());
    assert(start + lit(chars@.take(0)) =~= start);
    while i < chars.len()
        invariant
            i <= chars.len(),
            chars@ == s@,
            doc@ == start + lit(chars@.take(i as int)),
        decreases chars.len() - i,
    {
        doc.push(Token::Ch(chars[i]));
        assert(chars@.take(i + 1) =~= chars@.take(i as int).push(chars@[i as int]));
        proof {
            lemma_lit_push(chars@.take(i as int), chars@[i as int]);
        }
        assert(start + lit(chars@.take(i + 1)) =~= (start + lit(chars@.take(i as int))).push(char_token(chars@[i as int])));
        i = i + 1;
    }
    assert(chars@.take(chars.len() as int) =~= chars@);
}

/// Appends a number.
pub fn push_num(doc: &mut Vec<Token>, f: NumFmt)
    ensures
        final(doc)@ == old(doc)@ + seq![Token::Num(f)],
{
    let ghost before = doc@;
    doc.push(Token::Num(f));
    assert(doc@ =~= before + seq![Token::Num(f)]);
}

/// A document holding plain text.
pub fn new_doc(s: &str) -> (r: Vec<Token>)
    ensures
        r@ == lit(s@),
{
    let mut d: Vec<Token> = Vec::new();
    push_str(&mut d, s);
    assert(d@ =~= lit(s@));
    d
}

/// Appends plain text when `cond` holds.
pub fn push_str_if(doc: &mut Vec<Token>, cond: bool, s: &str)
    ensures
        final(doc)@ == old(doc)@ + if cond {
            lit(s@)
        } else {
            seq![]
        },
{
    if cond {
        push_str(doc, s);
    } else {
        assert(doc@ =~= doc@ + Seq::<Token>::empty());
    }
}

/// Appends another document.
pub fn push_doc(doc: &mut Vec<Token>, other: &Vec<Token>)
    ensures
        final(doc)@ == old(doc)@ + other@,
{
    let ghost start = doc@;
    let mut i: usize = 0;
    while i < other.len()
        invariant
            i <= other.len(),
            doc@ == start + other@.take(i as int),
        decreases other.len() - i,
    {
        doc.push(other[i]);
        assert(other@.take(i + 1) =~= other@.take(i as int).push(other@[i as int]));
        assert(start + other@.take(i + 1) =~= (start + other@.take(i as int)).push(other@[i as int]));
        i = i + 1;
    }
    assert(other@.take(other.len() as int) =~= other@);
}

/// The views of a list of documents.
pub open spec fn docs_view(v: Seq<Vec<Token>>) -> Seq<Seq<Token>> {
    v.map_values(|d: Vec<Token>| d@)
}

/// The documents joined with the text `sep` between each two of them.
pub fn join_docs(parts: &Vec<Vec<Token>>, sep: &str) -> (r: Vec<Token>)
    ensures
        r@ == joined(docs_view(parts@), lit(sep@)),
{
    let mut res: Vec<Token> = Vec::new();
    let ghost views = docs_view(parts@);
    let mut i: usize = 0;
    while i < parts.len()
        invariant
            i <= parts.len(),
            views == docs_view(parts@),
            res@ == joined(views.take(i as int), lit(sep@)),
        decreases parts.len() - i,
    {
        if i != 0 {
            push_str(&mut res, sep);
        }
        push_doc(&mut res, &parts[i]);
        assert(views.take(i + 1).drop_last() =~= views.take(i as int));
        i = i + 1;
    }
    assert(views.take(parts.len() as int) =~= views);
    res
}

// ─── Lines ───────────────────────────────────────────────────────────────────

/// The index of the first newline at or after `i`.
pub open spec fn first_newline_from(s: Seq<Token>, i: int) -> Option<int>
    decreases s.len() - i,
{
    if i < 0 || i >= s.len() {
        None
    } else if s[i] == Token::Ch('\n') {
        Some(i)
    } else {
        first_newline_from(s, i + 1)
    }
}

/// A newline found from `i` on lies at or after `i`, inside `s`, and is one.
pub proof fn lemma_first_newline_range(s: Seq<Token>, i: int)
    ensures
        first_newline_from(s, i) matches Some(k) ==> i <= k < s.len() && s[k] == Token::Ch('\n'),
    decreases s.len() - i,
{
    if 0 <= i < s.len() && s[i] != Token::Ch('\n') {
        lemma_first_newline_range(s, i + 1);
    }
}

/// With no newline in `[a, j)` and one at `j`, the first newline from `a` is at `j`.
pub proof fn lemma_first_newline_at(s: Seq<Token>, a: int, j: int)
    requires
        0 <= a <= j < s.len(),
        s[j] == Token::Ch('\n'),
        forall|k: int| a <= k < j ==> s[k] != Token::Ch('\n'),
    ensures
        first_newline_from(s, a) == Some(j),
    decreases j - a,
{
    if a < j {
        lemma_first_newline_at(s, a + 1, j);
    }
}

/// With no newline from `a` on, none is found.
pub proof fn lemma_first_newline_none(s: Seq<Token>, a: int)
    requires
        0 <= a,
        forall|k: int| a <= k < s.len() ==> s[k] != Token::Ch('\n'),
    ensures
        first_newline_from(s, a) is None,
    decreases s.len() - a,
{
    if a < s.len() {
        lemma_first_newline_none(s, a + 1);
    }
}

/// A line without the carriage return of a `\r\n` ending.
pub open spec fn strip_cr(l: Seq<Token>) -> Seq<Token> {
    if l.len() > 0 && l.last() == Token::Ch('\r') {
        l.drop_last()
    } else {
        l
    }
}

/// The lines of a text, as `str::lines` splits them: at `\n` or `\r\n`; a
/// final line ending adds no empty line.
pub open spec fn split_lines(s: Seq<Token>) -> Seq<Seq<Token>>
    decreases s.len(),
{
    if s.len() == 0 {
        seq![]
    } else {
        match first_newline_from(s, 0) {
            None => seq![s],
            Some(i) => {
                proof {
                    lemma_first_newline_range(s, 0);
                }
                seq![strip_cr(s.take(i))] + split_lines(s.skip(i + 1))
            },
        }
    }
}

/// Every line indented by four spaces, joined by `\n`.
pub open spec fn indent_lines(s: Seq<Token>) -> Seq<Token> {
    joined(split_lines(s).map_values(|l: Seq<Token>| lit("    "@) + l), lit("\n"@))
}

fn slice_doc(s: &Vec<Token>, from: usize, to: usize) -> (r: Vec<Token>)
    requires
        from <= to <= s.len(),
    ensures
        r@ == s@.subrange(from as int, to as int),
{
    let mut r: Vec<Token> = Vec::new();
    let mut i: usize = from;
    while i < to
        invariant
            from <= i <= to <= s.len(),
            r@ == s@.subrange(from as int, i as int),
        decreases to - i,
    {
        r.push(s[i]);
        assert(s@.subrange(from as int, i + 1) =~= s@.subrange(from as int, i as int).push(
            s@[i as int],
        ));
        i = i + 1;
    }
    r
}

fn split_lines_exec(s: &Vec<Token>) -> (r: Vec<Vec<Token>>)
    ensures
        docs_view(r@) == split_lines(s@),
{
    let mut out: Vec<Vec<Token>> = Vec::new();
    let mut start: usize = 0;
    let mut i: usize = 0;
    assert(s@.skip(0) =~= s@);
    assert(docs_view(out@) + split_lines(s@.skip(0)) =~= split_lines(s@));
    while i < s.len()
        invariant
            start <= i <= s.len(),
            split_lines(s@) == docs_view(out@) + split_lines(s@.skip(start as int)),
            forall|k: int| start <= k < i ==> s@[k] != Token::Ch('\n'),
        decreases s.len() - i,
    {
        if matches!(s[i], Token::Ch('\n')) {
            let ghost rest = s@.skip(start as int);
            proof {
                lemma_first_newline_at(rest, 0, (i - start) as int);
                assert(rest.take((i - start) as int) =~= s@.subrange(start as int, i as int));
                assert(rest.skip((i - start) + 1) =~= s@.skip(i + 1));
            }
            let end: usize = if i > start && matches!(s[i - 1], Token::Ch('\r')) {
                i - 1
            } else {
                i
            };
            let line = slice_doc(s, start, end);
            assert(line@ == strip_cr(s@.subrange(start as int, i as int)));
            let ghost before = out@;
            out.push(line);
            assert(docs_view(out@) =~= docs_view(before).push(line@));
            assert(split_lines(rest) == seq![line@] + split_lines(s@.skip(i + 1)));
            assert(docs_view(before) + split_lines(rest) =~= docs_view(out@) + split_lines(
                s@.skip(i + 1),
            ));
            start = i + 1;
        }
        i = i + 1;
    }
    if start < s.len() {
        let ghost rest = s@.skip(start as int);
        proof {
            lemma_first_newline_none(rest, 0);
        }
        let line = slice_doc(s, start, s.len());
        assert(line@ =~= rest);
        let ghost before = out@;
        out.push(line);
        assert(docs_view(out@) =~= docs_view(before) + split_lines(rest));
    } else {
        assert(docs_view(out@) =~= docs_view(out@) + split_lines(s@.skip(start as int)));
    }
    out
}

/// Every line of `s` indented by four spaces, joined by `\n`
/// (`s.lines().map(|l| format!("    {}", l)).collect::<Vec<_>>().join("\n")`).
pub fn indent(s: &Vec<Token>) -> (r: Vec<Token>)
    ensures
        r@ == indent_lines(s@),
{
    let lines = split_lines_exec(s);
    let ghost lv = docs_view(lines@);
    let mut out: Vec<Vec<Token>> = Vec::new();
    let mut i: usize = 0;
    while i < lines.len()
        invariant
            i <= lines.len(),
            lv == docs_view(lines@),
            docs_view(out@) =~= lv.take(i as int).map_values(|l: Seq<Token>| lit("    "@) + l),
        decreases lines.len() - i,
    {
        let mut d: Vec<Token> = Vec::new();
        push_str(&mut d, "    ");
        push_doc(&mut d, &lines[i]);
        let ghost before = out@;
        out.push(d);
        assert(docs_view(out@) =~= docs_view(before).push(d@));
        assert(lv.take(i + 1) =~= lv.take(i as int).push(lv[i as int]));
        i = i + 1;
    }
    assert(lv.take(lines.len() as int) =~= lv);
    join_docs(&out, "\n")
}

} // verus!
