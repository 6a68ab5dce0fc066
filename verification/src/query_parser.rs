//! The query parser turns the text of a query into a [`Query`].
//!
//! ```ignore
//! let query = QueryParser::parse("*, +username").unwrap();
//! assert_eq!("*,+1username", query.to_string());
//! ```
//!
//! # Syntax
//!
//! A query is a list of clauses. Between two clauses stands `,` for AND or
//! `;` for OR; the separator belongs to the clause that follows it. Clauses
//! are grouped by `(` and `)`; the separator in front of `(` belongs to the
//! group. White space may stand between all of these.
//!
//! A clause is one of
//! - a field: an optional ordering `+` or `-` with an optional priority, an
//!   optional `.` that hides the field, the name, and an optional filter;
//! - a wildcard: `*`, or a path and `*`, or `**`;
//! - a predicate: `@`, a name, and arguments.
//!
//! A filter is an optional `!` that marks an aggregation, a keyword in any
//! case, and the arguments that the keyword takes: none for `EQN` and `NEN`,
//! two for `BW`, any number for `IN` and `OUT`, a name and any number for
//! `FN`, and one for the others. Arguments are separated by white space. An
//! argument is a word, or text in single quotes in which `''` stands for a
//! quote; the quotes are not part of the argument.
//!
//! Brackets need not balance.

use crate::error::{ParseError, ParseErrorKind, ParseErrorView, ToqlError, ToqlErrorView};
use crate::query::{
    token_views, Concatenation, QueryView, Field, FieldFilter, FieldFilterView, FieldOrder, FieldView,
    Predicate, PredicateView, Query, QueryToken, QueryTokenView, Wildcard, WildcardView,
};
use crate::text::{lemma_views_push, push_char, string_of, to_chars, views};
use vstd::prelude::*;

verus! {

/// The kinds of characters that the parser tells apart.
#[derive(Clone, Copy, Debug, PartialEq, Eq, Structural)]
pub enum CharClass {
    /// White space.
    Space,
    /// A decimal digit.
    Digit,
    /// A letter, a digit or an underscore.
    Name,
    /// Anything but white space, a separator and a bracket.
    Word,
}

pub open spec fn is_space(c: char) -> bool {
    c == ' ' || c == '\t' || c == '\n' || c == '\r'
}

pub open spec fn is_digit(c: char) -> bool {
    48 <= c as u32 <= 57
}

pub open spec fn is_letter(c: char) -> bool {
    65 <= c as u32 <= 90 || 97 <= c as u32 <= 122
}

/// A separator or a bracket.
pub open spec fn is_delimiter(c: char) -> bool {
    c == ',' || c == ';' || c == '(' || c == ')'
}

pub open spec fn in_class(class: CharClass, c: char) -> bool {
    match class {
        CharClass::Space => is_space(c),
        CharClass::Digit => is_digit(c),
        CharClass::Name => is_letter(c) || is_digit(c) || c == '_',
        CharClass::Word => !is_space(c) && !is_delimiter(c),
    }
}

/// The end of the longest run of characters of one class that begins at
/// `from`.
pub open spec fn run_end(s: Seq<char>, from: int, class: CharClass) -> int
    decreases s.len() - from,
{
    if 0 <= from < s.len() && in_class(class, s[from]) {
        run_end(s, from + 1, class)
    } else {
        from
    }
}

/// A run ends at or after its start and within the text, and holds
/// characters of its class only.
pub proof fn lemma_run_end(s: Seq<char>, from: int, class: CharClass)
    requires
        0 <= from <= s.len(),
    ensures
        from <= run_end(s, from, class) <= s.len(),
        forall|j: int| from <= j < run_end(s, from, class) ==> in_class(class, s[j]),
        run_end(s, from, class) < s.len() ==> !in_class(class, s[run_end(s, from, class)]),
    decreases s.len() - from,
{
    if from < s.len() && in_class(class, s[from]) {
        lemma_run_end(s, from + 1, class);
    }
}

/// The upper case of an ASCII letter; any other character as it is.
pub open spec fn upper(c: char) -> char {
    if 97 <= c as u32 <= 122 {
        ((c as u32 - 32) as u8) as char
    } else {
        c
    }
}

/// A word in upper case.
pub open spec fn upper_word(w: Seq<char>) -> Seq<char> {
    Seq::new(w.len(), |i: int| upper(w[i]))
}

/// The number that a run of digits spells.
pub open spec fn number(digits: Seq<char>) -> nat
    decreases digits.len(),
{
    if digits.len() == 0 {
        0
    } else {
        number(digits.drop_last()) * 10 + (digits.last() as u32 - 48) as nat
    }
}

/// The priority that the digits after `+` or `-` give: their number, or 1
/// where there are none or the number is above 255.
pub open spec fn priority_of(digits: Seq<char>) -> u8 {
    if digits.len() == 0 || number(digits) > 255 {
        1
    } else {
        number(digits) as u8
    }
}

/// The error of the given kind for the character at `p`, or for the end of
/// the text.
pub open spec fn error_at(kind: ParseErrorKind, s: Seq<char>, p: int) -> ParseErrorView {
    ParseErrorView {
        kind,
        start: p,
        end: if p < s.len() {
            p + 1
        } else {
            p
        },
    }
}

/// The text of a quoted argument whose opening quote stands before `from`,
/// after the characters in `text`, and the place after its closing quote;
/// nothing where the closing quote is missing.
pub open spec fn quoted(s: Seq<char>, from: int, text: Seq<char>) -> Option<(Seq<char>, int)>
    decreases s.len() - from,
{
    if from < 0 || from >= s.len() {
        None
    } else if s[from] != '\'' {
        quoted(s, from + 1, text.push(s[from]))
    } else if from + 1 < s.len() && s[from + 1] == '\'' {
        quoted(s, from + 2, text.push('\''))
    } else {
        Some((text, from + 1))
    }
}

/// A quoted argument ends after its start and within the text.
pub proof fn lemma_quoted(s: Seq<char>, from: int, text: Seq<char>)
    requires
        0 <= from,
    ensures
        quoted(s, from, text) matches Some(r) ==> from < r.1 <= s.len(),
    decreases s.len() - from,
{
    if from < s.len() {
        if s[from] != '\'' {
            lemma_quoted(s, from + 1, text.push(s[from]));
        } else if from + 1 < s.len() && s[from + 1] == '\'' {
            lemma_quoted(s, from + 2, text.push('\''));
        }
    }
}

/// The arguments that stand at `from` and after it, up to a separator, a
/// bracket or the end of the text, after the arguments in `args`; and the
/// place where they end.
pub open spec fn arguments(s: Seq<char>, from: int, args: Seq<Seq<char>>) -> Result<
    (Seq<Seq<char>>, int),
    ParseErrorView,
>
    decreases s.len() - from,
{
    if from < 0 || from > s.len() {
        Ok((args, from))
    } else {
        let p = run_end(s, from, CharClass::Space);
        proof {
            lemma_run_end(s, from, CharClass::Space);
        }
        if p >= s.len() || is_delimiter(s[p]) {
            Ok((args, p))
        } else if s[p] == '\'' {
            proof {
                lemma_quoted(s, p + 1, Seq::empty());
            }
            match quoted(s, p + 1, Seq::empty()) {
                Some((text, end)) => arguments(s, end, args.push(text)),
                None => Err(
                    ParseErrorView {
                        kind: ParseErrorKind::UnterminatedString,
                        start: p,
                        end: s.len() as int,
                    },
                ),
            }
        } else {
            proof {
                lemma_run_end(s, p, CharClass::Word);
            }
            let end = run_end(s, p, CharClass::Word);
            arguments(s, end, args.push(s.subrange(p, end)))
        }
    }
}

/// The keywords of the filters.
#[derive(Clone, Copy, Debug, PartialEq, Eq, Structural)]
pub enum Keyword {
    Eq,
    Eqn,
    Ne,
    Nen,
    Gt,
    Ge,
    Lt,
    Le,
    Lk,
    Re,
    Bw,
    In,
    Out,
    Fn,
}

/// The keyword that a word in upper case spells, if it spells one.
pub open spec fn keyword_of(word: Seq<char>) -> Option<Keyword> {
    if word == "EQ"@ {
        Some(Keyword::Eq)
    } else if word == "EQN"@ {
        Some(Keyword::Eqn)
    } else if word == "NE"@ {
        Some(Keyword::Ne)
    } else if word == "NEN"@ {
        Some(Keyword::Nen)
    } else if word == "GT"@ {
        Some(Keyword::Gt)
    } else if word == "GE"@ {
        Some(Keyword::Ge)
    } else if word == "LT"@ {
        Some(Keyword::Lt)
    } else if word == "LE"@ {
        Some(Keyword::Le)
    } else if word == "LK"@ {
        Some(Keyword::Lk)
    } else if word == "RE"@ {
        Some(Keyword::Re)
    } else if word == "BW"@ {
        Some(Keyword::Bw)
    } else if word == "IN"@ {
        Some(Keyword::In)
    } else if word == "OUT"@ {
        Some(Keyword::Out)
    } else if word == "FN"@ {
        Some(Keyword::Fn)
    } else {
        None
    }
}

/// The filter of a keyword with its arguments, or nothing where the keyword
/// takes another number of arguments: none for `EQN` and `NEN`, two for
/// `BW`, any number for `IN` and `OUT`, a name and any number for `FN`, and
/// one for the others.
pub open spec fn filter_from(keyword: Keyword, args: Seq<Seq<char>>) -> Option<FieldFilterView> {
    match keyword {
        Keyword::Eqn => if args.len() == 0 {
            Some(FieldFilterView::Eqn)
        } else {
            None
        },
        Keyword::Nen => if args.len() == 0 {
            Some(FieldFilterView::Nen)
        } else {
            None
        },
        Keyword::Bw => if args.len() == 2 {
            Some(FieldFilterView::Bw(args[0], args[1]))
        } else {
            None
        },
        Keyword::In => Some(FieldFilterView::In(args)),
        Keyword::Out => Some(FieldFilterView::Out(args)),
        Keyword::Fn => if args.len() >= 1 {
            Some(FieldFilterView::Fn(args[0], args.skip(1)))
        } else {
            None
        },
        _ => if args.len() == 1 {
            Some(
                match keyword {
                    Keyword::Eq => FieldFilterView::Eq(args[0]),
                    Keyword::Ne => FieldFilterView::Ne(args[0]),
                    Keyword::Gt => FieldFilterView::Gt(args[0]),
                    Keyword::Ge => FieldFilterView::Ge(args[0]),
                    Keyword::Lt => FieldFilterView::Lt(args[0]),
                    Keyword::Le => FieldFilterView::Le(args[0]),
                    Keyword::Lk => FieldFilterView::Lk(args[0]),
                    _ => FieldFilterView::Re(args[0]),
                },
            )
        } else {
            None
        },
    }
}

/// The ordering that stands at `pos`, if one does, and the place after it.
pub open spec fn order_at(s: Seq<char>, pos: int) -> (Option<FieldOrder>, int) {
    if 0 <= pos < s.len() && (s[pos] == '+' || s[pos] == '-') {
        let end = run_end(s, pos + 1, CharClass::Digit);
        let p = priority_of(s.subrange(pos + 1, end));
        (
            Some(
                if s[pos] == '+' {
                    FieldOrder::Asc(p)
                } else {
                    FieldOrder::Desc(p)
                },
            ),
            end,
        )
    } else {
        (None, pos)
    }
}

/// What follows the name of a field that ends at `from`: a filter with its
/// aggregation marker, or nothing; and the place where it ends.
pub open spec fn filter_at(s: Seq<char>, from: int) -> Result<
    (Option<FieldFilterView>, bool, int),
    ParseErrorView,
> {
    let marker_start = run_end(s, from, CharClass::Space);
    let aggregation = marker_start < s.len() && s[marker_start] == '!';
    let word_start = if aggregation {
        run_end(s, marker_start + 1, CharClass::Space)
    } else {
        marker_start
    };
    if 0 <= word_start < s.len() && is_letter(s[word_start]) {
        let word_end = run_end(s, word_start, CharClass::Name);
        match keyword_of(upper_word(s.subrange(word_start, word_end))) {
            None => Err(
                ParseErrorView { kind: ParseErrorKind::InvalidFilter, start: word_start, end: word_end },
            ),
            Some(keyword) => match arguments(s, word_end, Seq::empty()) {
                Err(e) => Err(e),
                Ok((args, end)) => match filter_from(keyword, args) {
                    Some(filter) => Ok((Some(filter), aggregation, end)),
                    None => Err(
                        ParseErrorView { kind: ParseErrorKind::ArgumentCount, start: word_start, end },
                    ),
                },
            },
        }
    } else if aggregation {
        Err(error_at(ParseErrorKind::FilterExpected, s, word_start))
    } else {
        Ok((None, false, from))
    }
}

/// The path of a wildcard that is written with the given name: the name,
/// with an underscore at its end.
pub open spec fn path_of(name: Seq<char>) -> Seq<char> {
    if name.len() > 0 && name.last() == '_' {
        name
    } else {
        name.push('_')
    }
}

/// The field or the wildcard with a path that stands at `pos`, joined by
/// `c` to what stands before it, and the place where it ends.
pub open spec fn field_at(s: Seq<char>, pos: int, c: Concatenation) -> Result<
    (QueryTokenView, int),
    ParseErrorView,
> {
    let (order, after_order) = order_at(s, pos);
    let hidden = 0 <= after_order < s.len() && s[after_order] == '.';
    let name_start = if hidden {
        after_order + 1
    } else {
        after_order
    };
    if !(0 <= name_start < s.len() && is_letter(s[name_start])) {
        Err(error_at(ParseErrorKind::NameExpected, s, name_start))
    } else {
        let name_end = run_end(s, name_start, CharClass::Name);
        let name = s.subrange(name_start, name_end);
        if name_end < s.len() && s[name_end] == '*' {
            if order is Some || hidden {
                Err(error_at(ParseErrorKind::UnexpectedCharacter, s, name_end))
            } else {
                Ok(
                    (
                        QueryTokenView::Wildcard(
                            WildcardView { concatenation: c, path: path_of(name) },
                        ),
                        name_end + 1,
                    ),
                )
            }
        } else {
            match filter_at(s, name_end) {
                Err(e) => Err(e),
                Ok((filter, aggregation, end)) => Ok(
                    (
                        QueryTokenView::Field(
                            FieldView { concatenation: c, name, hidden, order, filter, aggregation },
                        ),
                        end,
                    ),
                ),
            }
        }
    }
}

/// The predicate whose `@` stands at `pos`, and the place where it ends.
pub open spec fn predicate_at(s: Seq<char>, pos: int, c: Concatenation) -> Result<
    (QueryTokenView, int),
    ParseErrorView,
> {
    let name_start = pos + 1;
    if !(0 <= name_start < s.len() && is_letter(s[name_start])) {
        Err(error_at(ParseErrorKind::NameExpected, s, name_start))
    } else {
        let name_end = run_end(s, name_start, CharClass::Name);
        match arguments(s, name_end, Seq::empty()) {
            Err(e) => Err(e),
            Ok((args, end)) => Ok(
                (
                    QueryTokenView::Predicate(
                        PredicateView { concatenation: c, name: s.subrange(name_start, name_end), args },
                    ),
                    end,
                ),
            ),
        }
    }
}

/// The clause that stands at `pos`, joined by `c` to what stands before it,
/// and the place where it ends.
pub open spec fn clause_at(s: Seq<char>, pos: int, c: Concatenation) -> Result<
    (QueryTokenView, int),
    ParseErrorView,
> {
    if 0 <= pos < s.len() && s[pos] == '*' {
        if pos + 1 < s.len() && s[pos + 1] == '*' {
            Ok((QueryTokenView::DoubleWildcard(c), pos + 2))
        } else {
            Ok(
                (
                    QueryTokenView::Wildcard(
                        WildcardView { concatenation: c, path: Seq::empty() },
                    ),
                    pos + 1,
                ),
            )
        }
    } else if 0 <= pos < s.len() && s[pos] == '@' {
        predicate_at(s, pos, c)
    } else {
        field_at(s, pos, c)
    }
}

/// What the parser waits for.
#[derive(Clone, Copy, Debug, PartialEq, Eq, Structural)]
pub enum Expect {
    /// A clause or a bracket; nothing stands yet in the query or the group.
    First,
    /// A separator, a closing bracket or the end.
    Separator,
    /// A clause or an opening bracket, to be joined as the separator says.
    Next(Concatenation),
}

/// The concatenation of the clause or the group that comes.
pub open spec fn pending(e: Expect) -> Concatenation {
    match e {
        Expect::Next(c) => c,
        _ => Concatenation::And,
    }
}


/// A clause ends after its start and within the text.
pub proof fn lemma_clause_at(s: Seq<char>, pos: int, c: Concatenation)
    requires
        0 <= pos < s.len(),
    ensures
        clause_at(s, pos, c) matches Ok(r) ==> pos < r.1 <= s.len(),
{
    lemma_run_end(s, pos + 1, CharClass::Digit);
    let (order, after_order) = order_at(s, pos);
    let name_start = if after_order < s.len() && s[after_order] == '.' {
        after_order + 1
    } else {
        after_order
    };
    if name_start < s.len() {
        lemma_run_end(s, name_start, CharClass::Name);
        let name_end = run_end(s, name_start, CharClass::Name);
        lemma_filter_at(s, name_end);
    }
    if pos + 1 < s.len() {
        lemma_run_end(s, pos + 1, CharClass::Name);
        lemma_arguments(s, run_end(s, pos + 1, CharClass::Name), Seq::empty());
    }
}

/// Arguments end at or after their start and within the text.
pub proof fn lemma_arguments(s: Seq<char>, from: int, args: Seq<Seq<char>>)
    requires
        0 <= from <= s.len(),
    ensures
        arguments(s, from, args) matches Ok(r) ==> from <= r.1 <= s.len(),
    decreases s.len() - from,
{
    let p = run_end(s, from, CharClass::Space);
    lemma_run_end(s, from, CharClass::Space);
    if p >= s.len() || is_delimiter(s[p]) {
    } else if s[p] == '\'' {
        lemma_quoted(s, p + 1, Seq::empty());
        match quoted(s, p + 1, Seq::empty()) {
            Some((text, end)) => {
                lemma_arguments(s, end, args.push(text));
            },
            None => {},
        }
    } else {
        lemma_run_end(s, p, CharClass::Word);
        let end = run_end(s, p, CharClass::Word);
        lemma_arguments(s, end, args.push(s.subrange(p, end)));
    }
}

/// A filter ends at or after the name before it and within the text.
pub proof fn lemma_filter_at(s: Seq<char>, from: int)
    requires
        0 <= from <= s.len(),
    ensures
        filter_at(s, from) matches Ok(r) ==> from <= r.2 <= s.len(),
{
    lemma_run_end(s, from, CharClass::Space);
    let marker_start = run_end(s, from, CharClass::Space);
    if marker_start < s.len() {
        lemma_run_end(s, marker_start + 1, CharClass::Space);
    }
    let word_start = if marker_start < s.len() && s[marker_start] == '!' {
        run_end(s, marker_start + 1, CharClass::Space)
    } else {
        marker_start
    };
    if word_start < s.len() {
        lemma_run_end(s, word_start, CharClass::Name);
        lemma_arguments(s, run_end(s, word_start, CharClass::Name), Seq::empty());
    }
}

/// The tokens of the text from `pos` on, after the tokens in `tokens`.
pub open spec fn parse_at(s: Seq<char>, pos: int, expect: Expect, tokens: Seq<QueryTokenView>) -> Result<
    Seq<QueryTokenView>,
    ParseErrorView,
>
    decreases s.len() - pos,
{
    if pos < 0 || pos >= s.len() {
        if expect is Next {
            Err(error_at(ParseErrorKind::ClauseExpected, s, s.len() as int))
        } else {
            Ok(tokens)
        }
    } else if is_space(s[pos]) {
        parse_at(s, pos + 1, expect, tokens)
    } else if s[pos] == ',' || s[pos] == ';' {
        if expect is Separator {
            parse_at(
                s,
                pos + 1,
                Expect::Next(
                    if s[pos] == ',' {
                        Concatenation::And
                    } else {
                        Concatenation::Or
                    },
                ),
                tokens,
            )
        } else {
            Err(error_at(ParseErrorKind::ClauseExpected, s, pos))
        }
    } else if s[pos] == ')' {
        if expect is Next {
            Err(error_at(ParseErrorKind::ClauseExpected, s, pos))
        } else {
            parse_at(s, pos + 1, expect, tokens.push(QueryTokenView::RightBracket))
        }
    } else if expect is Separator {
        Err(error_at(ParseErrorKind::SeparatorExpected, s, pos))
    } else if s[pos] == '(' {
        parse_at(
            s,
            pos + 1,
            Expect::First,
            tokens.push(QueryTokenView::LeftBracket(pending(expect))),
        )
    } else {
        proof {
            lemma_clause_at(s, pos, pending(expect));
        }
        match clause_at(s, pos, pending(expect)) {
            Err(e) => Err(e),
            Ok((token, end)) => parse_at(s, end, Expect::Separator, tokens.push(token)),
        }
    }
}

/// The tokens of a query text, or the first syntax error in it.
pub open spec fn parse_text(s: Seq<char>) -> Result<Seq<QueryTokenView>, ParseErrorView> {
    parse_at(s, 0, Expect::First, Seq::empty())
}


fn space(c: char) -> (b: bool)
    ensures
        b == is_space(c),
{
    c == ' ' || c == '\t' || c == '\n' || c == '\r'
}

fn digit(c: char) -> (b: bool)
    ensures
        b == is_digit(c),
{
    let u = c as u32;
    48 <= u && u <= 57
}

fn letter(c: char) -> (b: bool)
    ensures
        b == is_letter(c),
{
    let u = c as u32;
    (65 <= u && u <= 90) || (97 <= u && u <= 122)
}

fn delimiter(c: char) -> (b: bool)
    ensures
        b == is_delimiter(c),
{
    c == ',' || c == ';' || c == '(' || c == ')'
}

fn has_class(class: CharClass, c: char) -> (b: bool)
    ensures
        b == in_class(class, c),
{
    match class {
        CharClass::Space => space(c),
        CharClass::Digit => digit(c),
        CharClass::Name => letter(c) || digit(c) || c == '_',
        CharClass::Word => !space(c) && !delimiter(c),
    }
}

fn upper_char(c: char) -> (u: char)
    ensures
        u == upper(c),
{
    let n = c as u32;
    if 97 <= n && n <= 122 {
        ((n - 32) as u8) as char
    } else {
        c
    }
}

/// The end of the run of one class that begins at `from`.
fn scan_run(v: &Vec<char>, from: usize, class: CharClass) -> (end: usize)
    requires
        from <= v.len(),
    ensures
        end == run_end(v@, from as int, class),
        from <= end <= v.len(),
{
    let mut i: usize = from;
    while i < v.len() && has_class(class, v[i])
        invariant
            from <= i <= v.len(),
            run_end(v@, from as int, class) == run_end(v@, i as int, class),
        decreases v.len() - i,
    {
        i = i + 1;
    }
    i
}

/// The error of the given kind for the character at `p`.
fn error_for(kind: ParseErrorKind, v: &Vec<char>, p: usize) -> (e: ParseError)
    requires
        p <= v.len(),
    ensures
        e@ == error_at(kind, v@, p as int),
{
    ParseError {
        kind,
        start: p,
        end: if p < v.len() {
            p + 1
        } else {
            p
        },
    }
}

/// Reads a quoted argument whose opening quote stands before `from`.
fn read_quoted(v: &Vec<char>, from: usize) -> (r: Option<(String, usize)>)
    requires
        from <= v.len(),
    ensures
        match r {
            Some(t) => quoted(v@, from as int, Seq::empty()) == Some((t.0@, t.1 as int)) && from
                < t.1 <= v.len(),
            None => quoted(v@, from as int, Seq::empty()) is None,
        },
{
    let mut text = String::new();
    let mut i: usize = from;
    while i < v.len()
        invariant
            from <= i <= v.len(),
            quoted(v@, from as int, Seq::empty()) == quoted(v@, i as int, text@),
        decreases v.len() - i,
    {
        if v[i] != '\'' {
            push_char(&mut text, v[i]);
            i = i + 1;
        } else if i + 1 < v.len() && v[i + 1] == '\'' {
            push_char(&mut text, '\'');
            i = i + 2;
        } else {
            return Some((text, i + 1));
        }
    }
    None
}

/// Reads the arguments that stand at `from` and after it.
fn read_arguments(v: &Vec<char>, from: usize) -> (r: Result<(Vec<String>, usize), ParseError>)
    requires
        from <= v.len(),
    ensures
        match r {
            Ok(a) => arguments(v@, from as int, Seq::empty()) == Ok::<
                (Seq<Seq<char>>, int),
                ParseErrorView,
            >((views(a.0@), a.1 as int)) && from <= a.1 <= v.len(),
            Err(e) => arguments(v@, from as int, Seq::empty()) == Err::<
                (Seq<Seq<char>>, int),
                ParseErrorView,
            >(e@),
        },
{
    let mut args: Vec<String> = Vec::new();
    let mut pos: usize = from;
    assert(views(args@) =~= Seq::<Seq<char>>::empty());
    loop
        invariant
            from <= pos <= v.len(),
            arguments(v@, from as int, Seq::empty()) == arguments(v@, pos as int, views(args@)),
        decreases v.len() - pos,
    {
        let p = scan_run(v, pos, CharClass::Space);
        if p >= v.len() || delimiter(v[p]) {
            return Ok((args, p));
        }
        if v[p] == '\'' {
            match read_quoted(v, p + 1) {
                Some((text, end)) => {
                    proof {
                        lemma_views_push(args@, text);
                    }
                    args.push(text);
                    pos = end;
                },
                None => {
                    return Err(
                        ParseError {
                            kind: ParseErrorKind::UnterminatedString,
                            start: p,
                            end: v.len(),
                        },
                    );
                },
            }
        } else {
            let end = scan_run(v, p, CharClass::Word);
            proof {
                lemma_run_end(v@, pos as int, CharClass::Space);
                lemma_run_end(v@, p as int, CharClass::Word);
                assert(in_class(CharClass::Word, v@[p as int]));
                assert(end > p);
            }
            let text = string_of(v, p, end);
            proof {
                lemma_views_push(args@, text);
            }
            args.push(text);
            pos = end;
        }
    }
}

/// Whether the word `v[from..to]` in upper case is `word`.
fn word_is(v: &Vec<char>, from: usize, to: usize, word: &str) -> (b: bool)
    requires
        from <= to <= v.len(),
    ensures
        b == (upper_word(v@.subrange(from as int, to as int)) == word@),
{
    let w = to_chars(word);
    let ghost u = upper_word(v@.subrange(from as int, to as int));
    if w.len() != to - from {
        return false;
    }
    let mut i: usize = 0;
    while i < w.len()
        invariant
            i <= w.len(),
            w.len() == to - from,
            from <= to <= v.len(),
            w@ == word@,
            u == upper_word(v@.subrange(from as int, to as int)),
            forall|j: int| 0 <= j < i ==> u[j] == w@[j],
        decreases w.len() - i,
    {
        if upper_char(v[from + i]) != w[i] {
            assert(u[i as int] != word@[i as int]);
            return false;
        }
        i = i + 1;
    }
    assert(u =~= w@);
    true
}

/// The keyword that the word `v[from..to]` spells in any case.
fn read_keyword(v: &Vec<char>, from: usize, to: usize) -> (k: Option<Keyword>)
    requires
        from <= to <= v.len(),
    ensures
        k == keyword_of(upper_word(v@.subrange(from as int, to as int))),
{
    if word_is(v, from, to, "EQ") {
        Some(Keyword::Eq)
    } else if word_is(v, from, to, "EQN") {
        Some(Keyword::Eqn)
    } else if word_is(v, from, to, "NE") {
        Some(Keyword::Ne)
    } else if word_is(v, from, to, "NEN") {
        Some(Keyword::Nen)
    } else if word_is(v, from, to, "GT") {
        Some(Keyword::Gt)
    } else if word_is(v, from, to, "GE") {
        Some(Keyword::Ge)
    } else if word_is(v, from, to, "LT") {
        Some(Keyword::Lt)
    } else if word_is(v, from, to, "LE") {
        Some(Keyword::Le)
    } else if word_is(v, from, to, "LK") {
        Some(Keyword::Lk)
    } else if word_is(v, from, to, "RE") {
        Some(Keyword::Re)
    } else if word_is(v, from, to, "BW") {
        Some(Keyword::Bw)
    } else if word_is(v, from, to, "IN") {
        Some(Keyword::In)
    } else if word_is(v, from, to, "OUT") {
        Some(Keyword::Out)
    } else if word_is(v, from, to, "FN") {
        Some(Keyword::Fn)
    } else {
        None
    }
}

/// The filter of a keyword with its arguments.
fn make_filter(keyword: Keyword, args: Vec<String>) -> (r: Option<FieldFilter>)
    ensures
        match r {
            Some(f) => filter_from(keyword, views(args@)) == Some(f@),
            None => filter_from(keyword, views(args@)) is None,
        },
{
    let mut args = args;
    let ghost all = views(args@);
    match keyword {
        Keyword::Eqn => if args.len() == 0 {
            Some(FieldFilter::Eqn)
        } else {
            None
        },
        Keyword::Nen => if args.len() == 0 {
            Some(FieldFilter::Nen)
        } else {
            None
        },
        Keyword::Bw => if args.len() == 2 {
            let upper = args.pop().unwrap();
            let lower = args.pop().unwrap();
            Some(FieldFilter::Bw(lower, upper))
        } else {
            None
        },
        Keyword::In => Some(FieldFilter::In(args)),
        Keyword::Out => Some(FieldFilter::Out(args)),
        Keyword::Fn => if args.len() >= 1 {
            let name = args.remove(0);
            assert(views(args@) =~= all.skip(1));
            Some(FieldFilter::Fn(name, args))
        } else {
            None
        },
        _ => if args.len() == 1 {
            let a = args.pop().unwrap();
            Some(
                match keyword {
                    Keyword::Eq => FieldFilter::Eq(a),
                    Keyword::Ne => FieldFilter::Ne(a),
                    Keyword::Gt => FieldFilter::Gt(a),
                    Keyword::Ge => FieldFilter::Ge(a),
                    Keyword::Lt => FieldFilter::Lt(a),
                    Keyword::Le => FieldFilter::Le(a),
                    Keyword::Lk => FieldFilter::Lk(a),
                    _ => FieldFilter::Re(a),
                },
            )
        } else {
            None
        },
    }
}

/// The priority that the digits `v[from..to]` give.
fn read_priority(v: &Vec<char>, from: usize, to: usize) -> (p: u8)
    requires
        from <= to <= v.len(),
        forall|j: int| from <= j < to ==> is_digit(v@[j]),
    ensures
        p == priority_of(v@.subrange(from as int, to as int)),
{
    let ghost digits = v@.subrange(from as int, to as int);
    let mut n: u32 = 0;
    let mut i: usize = from;
    assert(digits.take(0) =~= Seq::<char>::empty());
    while i < to
        invariant
            from <= i <= to <= v.len(),
            digits == v@.subrange(from as int, to as int),
            forall|j: int| from <= j < to ==> is_digit(v@[j]),
            n <= 256,
            n == 256 ==> number(digits.take(i - from)) > 255,
            n < 256 ==> n == number(digits.take(i - from)),
        decreases to - i,
    {
        assert(digits.take(i - from + 1).drop_last() =~= digits.take(i - from));
        assert(digits.take(i - from + 1).last() == v@[i as int]);
        let d = v[i] as u32 - 48;
        if n < 256 {
            n = n * 10 + d;
            if n > 255 {
                n = 256;
            }
        }
        i = i + 1;
    }
    assert(digits.take(to - from) =~= digits);
    if to == from || n > 255 {
        1
    } else {
        n as u8
    }
}

/// Reads the ordering that stands at `pos`, if one does.
fn read_order(v: &Vec<char>, pos: usize) -> (r: (Option<FieldOrder>, usize))
    requires
        pos <= v.len(),
    ensures
        (r.0, r.1 as int) == order_at(v@, pos as int),
        pos <= r.1 <= v.len(),
{
    if pos < v.len() && (v[pos] == '+' || v[pos] == '-') {
        let end = scan_run(v, pos + 1, CharClass::Digit);
        proof {
            lemma_run_end(v@, pos + 1, CharClass::Digit);
        }
        let p = read_priority(v, pos + 1, end);
        if v[pos] == '+' {
            (Some(FieldOrder::Asc(p)), end)
        } else {
            (Some(FieldOrder::Desc(p)), end)
        }
    } else {
        (None, pos)
    }
}

/// Reads what follows the name of a field that ends at `from`.
fn read_filter(v: &Vec<char>, from: usize) -> (r: Result<
    (Option<FieldFilter>, bool, usize),
    ParseError,
>)
    requires
        from <= v.len(),
    ensures
        match r {
            Ok(f) => filter_at(v@, from as int) == Ok::<
                (Option<FieldFilterView>, bool, int),
                ParseErrorView,
            >(
                (
                    match f.0 {
                        Some(filter) => Some(filter@),
                        None => None,
                    },
                    f.1,
                    f.2 as int,
                ),
            ) && from <= f.2 <= v.len(),
            Err(e) => filter_at(v@, from as int) == Err::<
                (Option<FieldFilterView>, bool, int),
                ParseErrorView,
            >(e@),
        },
{
    let marker_start = scan_run(v, from, CharClass::Space);
    let aggregation = marker_start < v.len() && v[marker_start] == '!';
    let word_start = if aggregation {
        scan_run(v, marker_start + 1, CharClass::Space)
    } else {
        marker_start
    };
    if word_start < v.len() && letter(v[word_start]) {
        let word_end = scan_run(v, word_start, CharClass::Name);
        match read_keyword(v, word_start, word_end) {
            None => Err(ParseError { kind: ParseErrorKind::InvalidFilter, start: word_start, end: word_end }),
            Some(keyword) => match read_arguments(v, word_end) {
                Err(e) => Err(e),
                Ok((args, end)) => match make_filter(keyword, args) {
                    Some(filter) => Ok((Some(filter), aggregation, end)),
                    None => Err(
                        ParseError { kind: ParseErrorKind::ArgumentCount, start: word_start, end },
                    ),
                },
            },
        }
    } else if aggregation {
        Err(error_for(ParseErrorKind::FilterExpected, v, word_start))
    } else {
        Ok((None, false, from))
    }
}

/// Reads the field or the wildcard with a path that stands at `pos`.
fn read_field(v: &Vec<char>, pos: usize, c: Concatenation) -> (r: Result<
    (QueryToken, usize),
    ParseError,
>)
    requires
        pos < v.len(),
    ensures
        match r {
            Ok(t) => field_at(v@, pos as int, c) == Ok::<(QueryTokenView, int), ParseErrorView>(
                (t.0@, t.1 as int),
            ) && t.1 <= v.len(),
            Err(e) => field_at(v@, pos as int, c) == Err::<(QueryTokenView, int), ParseErrorView>(
                e@,
            ),
        },
{
    let (order, after_order) = read_order(v, pos);
    let hidden = after_order < v.len() && v[after_order] == '.';
    let name_start = if hidden {
        after_order + 1
    } else {
        after_order
    };
    if !(name_start < v.len() && letter(v[name_start])) {
        return Err(error_for(ParseErrorKind::NameExpected, v, name_start));
    }
    let name_end = scan_run(v, name_start, CharClass::Name);
    proof {
        lemma_run_end(v@, name_start as int, CharClass::Name);
    }
    let mut name = string_of(v, name_start, name_end);
    if name_end < v.len() && v[name_end] == '*' {
        if order.is_some() || hidden {
            return Err(error_for(ParseErrorKind::UnexpectedCharacter, v, name_end));
        }
        if v[name_end - 1] != '_' {
            push_char(&mut name, '_');
        }
        return Ok((QueryToken::Wildcard(Wildcard { concatenation: c, path: name }), name_end + 1));
    }
    match read_filter(v, name_end) {
        Err(e) => Err(e),
        Ok((filter, aggregation, end)) => Ok(
            (
                QueryToken::Field(
                    Field { concatenation: c, name, hidden, order, filter, aggregation },
                ),
                end,
            ),
        ),
    }
}

/// Reads the predicate whose `@` stands at `pos`.
fn read_predicate(v: &Vec<char>, pos: usize, c: Concatenation) -> (r: Result<
    (QueryToken, usize),
    ParseError,
>)
    requires
        pos < v.len(),
    ensures
        match r {
            Ok(t) => predicate_at(v@, pos as int, c) == Ok::<
                (QueryTokenView, int),
                ParseErrorView,
            >((t.0@, t.1 as int)) && t.1 <= v.len(),
            Err(e) => predicate_at(v@, pos as int, c) == Err::<
                (QueryTokenView, int),
                ParseErrorView,
            >(e@),
        },
{
    let name_start = pos + 1;
    if !(name_start < v.len() && letter(v[name_start])) {
        return Err(error_for(ParseErrorKind::NameExpected, v, name_start));
    }
    let name_end = scan_run(v, name_start, CharClass::Name);
    match read_arguments(v, name_end) {
        Err(e) => Err(e),
        Ok((args, end)) => Ok(
            (
                QueryToken::Predicate(
                    Predicate { concatenation: c, name: string_of(v, name_start, name_end), args },
                ),
                end,
            ),
        ),
    }
}

/// Reads the clause that stands at `pos`.
fn read_clause(v: &Vec<char>, pos: usize, c: Concatenation) -> (r: Result<
    (QueryToken, usize),
    ParseError,
>)
    requires
        pos < v.len(),
    ensures
        match r {
            Ok(t) => clause_at(v@, pos as int, c) == Ok::<(QueryTokenView, int), ParseErrorView>(
                (t.0@, t.1 as int),
            ) && pos < t.1 <= v.len(),
            Err(e) => clause_at(v@, pos as int, c) == Err::<
                (QueryTokenView, int),
                ParseErrorView,
            >(e@),
        },
{
    proof {
        lemma_clause_at(v@, pos as int, c);
    }
    if v[pos] == '*' {
        if pos + 1 < v.len() && v[pos + 1] == '*' {
            Ok((QueryToken::DoubleWildcard(c), pos + 2))
        } else {
            Ok((QueryToken::Wildcard(Wildcard { concatenation: c, path: String::new() }), pos + 1))
        }
    } else if v[pos] == '@' {
        read_predicate(v, pos, c)
    } else {
        read_field(v, pos, c)
    }
}

/// The query parser. It has one function, which turns text into a query.
pub struct QueryParser;

impl QueryParser {
    /// Reads the tokens of a query text.
    pub fn parse_tokens(text: &str) -> (r: Result<Vec<QueryToken>, ParseError>)
        ensures
            match r {
                Ok(tokens) => parse_text(text@) == Ok::<Seq<QueryTokenView>, ParseErrorView>(
                    token_views(tokens@),
                ),
                Err(e) => parse_text(text@) == Err::<Seq<QueryTokenView>, ParseErrorView>(e@),
            },
    {
        let v = to_chars(text);
        let mut tokens: Vec<QueryToken> = Vec::new();
        let mut expect = Expect::First;
        let mut pos: usize = 0;
        assert(token_views(tokens@) =~= Seq::<QueryTokenView>::empty());
        while pos < v.len()
            invariant
                pos <= v.len(),
                v@ == text@,
                parse_text(text@) == parse_at(v@, pos as int, expect, token_views(tokens@)),
            decreases v.len() - pos,
        {
            let c = v[pos];
            let ghost before = token_views(tokens@);
            if space(c) {
                pos = pos + 1;
            } else if c == ',' || c == ';' {
                match expect {
                    Expect::Separator => {
                        expect = Expect::Next(
                            if c == ',' {
                                Concatenation::And
                            } else {
                                Concatenation::Or
                            },
                        );
                        pos = pos + 1;
                    },
                    _ => {
                        return Err(error_for(ParseErrorKind::ClauseExpected, &v, pos));
                    },
                }
            } else if c == ')' {
                match expect {
                    Expect::Next(_) => {
                        return Err(error_for(ParseErrorKind::ClauseExpected, &v, pos));
                    },
                    _ => {
                        tokens.push(QueryToken::RightBracket);
                        assert(token_views(tokens@) =~= before.push(QueryTokenView::RightBracket));
                        pos = pos + 1;
                    },
                }
            } else {
                let concatenation = match expect {
                    Expect::Separator => {
                        return Err(error_for(ParseErrorKind::SeparatorExpected, &v, pos));
                    },
                    Expect::Next(c) => c,
                    Expect::First => Concatenation::And,
                };
                if c == '(' {
                    tokens.push(QueryToken::LeftBracket(concatenation));
                    assert(token_views(tokens@) =~= before.push(
                        QueryTokenView::LeftBracket(concatenation),
                    ));
                    expect = Expect::First;
                    pos = pos + 1;
                } else {
                    match read_clause(&v, pos, concatenation) {
                        Err(e) => {
                            return Err(e);
                        },
                        Ok((token, end)) => {
                            tokens.push(token);
                            assert(token_views(tokens@) =~= before.push(token@));
                            expect = Expect::Separator;
                            pos = end;
                        },
                    }
                }
            }
        }
        match expect {
            Expect::Next(_) => Err(error_for(ParseErrorKind::ClauseExpected, &v, v.len())),
            _ => Ok(tokens),
        }
    }

    /// Turns the text of a query into a query: its tokens in the order of
    /// the text, not distinct, without roles. A syntax error is returned as
    /// [`ToqlError::QueryParserError`], with the place of the offending text.
    pub fn parse(toql_string: &str) -> (r: Result<Query, ToqlError>)
        ensures
            match r {
                Ok(query) => parse_text(toql_string@) == Ok::<
                    Seq<QueryTokenView>,
                    ParseErrorView,
                >(query@.tokens) && !query@.distinct && query@.roles == Set::<Seq<char>>::empty(),
                Err(e) => e@ matches ToqlErrorView::QueryParserError(pe) && parse_text(
                    toql_string@,
                ) == Err::<Seq<QueryTokenView>, ParseErrorView>(pe),
            },
    {
        match QueryParser::parse_tokens(toql_string) {
            Ok(tokens) => {
                let query = Query { tokens, distinct: false, roles: Vec::new() };
                assert(query@.roles =~= Set::<Seq<char>>::empty());
                Ok(query)
            },
            Err(e) => Err(ToqlError::QueryParserError(e)),
        }
    }
}

} // verus!
