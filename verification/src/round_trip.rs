//! A query that is written as text and read again is the same query.
//!
//! This holds of the queries whose text says all that they hold: names are
//! names, arguments are plain words, and no token carries what its text
//! leaves out. [`reads_back`] says which queries these are.

use crate::error::ParseErrorView;
use crate::query::{
    concatenation_of, needs_separator, render_args, render_field, render_filter, render_order,
    render_piece, render_predicate, render_query, render_token, render_tokens, separator,
    starts_with_separator, lemma_strip_nothing, Concatenation, FieldFilterView, FieldOrder,
    FieldView, PredicateView, QueryTokenView, QueryView, WildcardView,
};
use crate::query_parser::{
    arguments, clause_at, field_at, filter_at, filter_from, in_class, is_delimiter, is_digit,
    is_letter, is_space, keyword_of, lemma_run_end, number, order_at, parse_at, parse_text,
    path_of, pending, predicate_at, priority_of, run_end, upper, upper_word, CharClass, Expect,
    Keyword,
};
use crate::text::{decimal, digit, join};
use vstd::prelude::*;

verus! {

/// A name as the parser reads one: a letter, then letters, digits and
/// underscores.
pub open spec fn is_name(s: Seq<char>) -> bool {
    &&& s.len() > 0
    &&& is_letter(s[0])
    &&& forall|i: int| 0 <= i < s.len() ==> in_class(CharClass::Name, #[trigger] s[i])
}

/// An argument that is written as it is: not empty, without white space,
/// separators and brackets, and not beginning with a quote.
pub open spec fn is_word(s: Seq<char>) -> bool {
    &&& s.len() > 0
    &&& s[0] != '\''
    &&& forall|i: int| 0 <= i < s.len() ==> in_class(CharClass::Word, #[trigger] s[i])
}

/// The keyword of a filter.
pub open spec fn keyword(filter: FieldFilterView) -> Keyword {
    match filter {
        FieldFilterView::Eq(_) => Keyword::Eq,
        FieldFilterView::Eqn => Keyword::Eqn,
        FieldFilterView::Ne(_) => Keyword::Ne,
        FieldFilterView::Nen => Keyword::Nen,
        FieldFilterView::Gt(_) => Keyword::Gt,
        FieldFilterView::Ge(_) => Keyword::Ge,
        FieldFilterView::Lt(_) => Keyword::Lt,
        FieldFilterView::Le(_) => Keyword::Le,
        FieldFilterView::Lk(_) => Keyword::Lk,
        FieldFilterView::Bw(_, _) => Keyword::Bw,
        FieldFilterView::In(_) => Keyword::In,
        FieldFilterView::Out(_) => Keyword::Out,
        FieldFilterView::Re(_) => Keyword::Re,
        FieldFilterView::Fn(_, _) => Keyword::Fn,
    }
}

/// The keyword as it is written.
pub open spec fn keyword_text(k: Keyword) -> Seq<char> {
    match k {
        Keyword::Eq => "EQ"@,
        Keyword::Eqn => "EQN"@,
        Keyword::Ne => "NE"@,
        Keyword::Nen => "NEN"@,
        Keyword::Gt => "GT"@,
        Keyword::Ge => "GE"@,
        Keyword::Lt => "LT"@,
        Keyword::Le => "LE"@,
        Keyword::Lk => "LK"@,
        Keyword::Re => "RE"@,
        Keyword::Bw => "BW"@,
        Keyword::In => "IN"@,
        Keyword::Out => "OUT"@,
        Keyword::Fn => "FN"@,
    }
}

/// All that stands behind the keyword of a filter, in order.
pub open spec fn filter_words(filter: FieldFilterView) -> Seq<Seq<char>> {
    match filter {
        FieldFilterView::Eq(a) => seq![a],
        FieldFilterView::Eqn => Seq::empty(),
        FieldFilterView::Ne(a) => seq![a],
        FieldFilterView::Nen => Seq::empty(),
        FieldFilterView::Gt(a) => seq![a],
        FieldFilterView::Ge(a) => seq![a],
        FieldFilterView::Lt(a) => seq![a],
        FieldFilterView::Le(a) => seq![a],
        FieldFilterView::Lk(a) => seq![a],
        FieldFilterView::Bw(l, u) => seq![l, u],
        FieldFilterView::In(args) => args,
        FieldFilterView::Out(args) => args,
        FieldFilterView::Re(a) => seq![a],
        FieldFilterView::Fn(name, args) => seq![name] + args,
    }
}

/// Whether a token is read back from its text as it is: its names are
/// names, its arguments are words, an aggregation has a filter, and the path
/// of a wildcard is empty or a name that ends in an underscore.
pub open spec fn token_reads_back(t: QueryTokenView) -> bool {
    match t {
        QueryTokenView::LeftBracket(_) => true,
        QueryTokenView::RightBracket => true,
        QueryTokenView::DoubleWildcard(_) => true,
        QueryTokenView::Wildcard(w) => w.path.len() == 0 || (is_name(w.path) && w.path.last()
            == '_'),
        QueryTokenView::Field(f) => {
            &&& is_name(f.name)
            &&& f.aggregation ==> f.filter is Some
            &&& f.filter matches Some(filter) ==> forall|i: int|
                0 <= i < filter_words(filter).len() ==> is_word(#[trigger] filter_words(filter)[i])
        },
        QueryTokenView::Predicate(p) => {
            &&& is_name(p.name)
            &&& forall|i: int| 0 <= i < p.args.len() ==> is_word(#[trigger] p.args[i])
        },
    }
}

/// Whether a query is read back from its text as it is: each token is, and
/// a token that is written without its separator, at the start or behind an
/// opening bracket, is joined by AND.
pub open spec fn reads_back(tokens: Seq<QueryTokenView>) -> bool {
    forall|i: int|
        0 <= i < tokens.len() ==> token_reads_back(#[trigger] tokens[i]) && (needs_separator(
            tokens,
            i,
        ) || concatenation_of(tokens[i]) != Some(Concatenation::Or))
}

/// `t` stands in `s` at `p`.
pub open spec fn has_at(s: Seq<char>, p: int, t: Seq<char>) -> bool {
    0 <= p && p + t.len() <= s.len() && s.subrange(p, p + t.len()) == t
}

/// What stands in a text at some place can be read there character by
/// character.
pub proof fn lemma_has_at_chars(s: Seq<char>, p: int, t: Seq<char>)
    requires
        has_at(s, p, t),
    ensures
        forall|j: int| 0 <= j < t.len() ==> s[p + j] == #[trigger] t[j],
{
    assert forall|j: int| 0 <= j < t.len() implies s[p + j] == #[trigger] t[j] by {
        assert(s.subrange(p, p + t.len())[j] == s[p + j]);
    }
}

/// Where two texts stand one after the other, each stands in its place.
pub proof fn lemma_has_at_split(s: Seq<char>, p: int, a: Seq<char>, b: Seq<char>)
    requires
        has_at(s, p, a + b),
    ensures
        has_at(s, p, a),
        has_at(s, p + a.len(), b),
{
    lemma_has_at_chars(s, p, a + b);
    assert(s.subrange(p, p + a.len()) =~= a) by {
        assert forall|j: int| 0 <= j < a.len() implies s.subrange(p, p + a.len())[j] == a[j] by {
            assert((a + b)[j] == a[j]);
        }
    }
    assert(s.subrange(p + a.len(), p + a.len() + b.len()) =~= b) by {
        assert forall|j: int| 0 <= j < b.len() implies s.subrange(
            p + a.len(),
            p + a.len() + b.len(),
        )[j] == b[j] by {
            assert((a + b)[a.len() + j] == b[j]);
        }
    }
}

/// A run of characters of one class that ends before a character of another
/// class, or with the text, is the longest run.
pub proof fn lemma_run_exact(s: Seq<char>, from: int, to: int, class: CharClass)
    requires
        0 <= from <= to <= s.len(),
        forall|j: int| from <= j < to ==> in_class(class, s[j]),
        to == s.len() || !in_class(class, s[to]),
    ensures
        run_end(s, from, class) == to,
    decreases to - from,
{
    if from < to {
        lemma_run_exact(s, from + 1, to, class);
    }
}

/// The numeral of a number is made of digits and spells the number.
pub proof fn lemma_decimal(n: nat)
    ensures
        decimal(n).len() > 0,
        forall|j: int| 0 <= j < decimal(n).len() ==> is_digit(#[trigger] decimal(n)[j]),
        number(decimal(n)) == n,
    decreases n,
{
    if n < 10 {
        assert(decimal(n) =~= seq![digit(n as int)]);
        assert(decimal(n).drop_last() =~= Seq::<char>::empty());
        assert(number(decimal(n).drop_last()) == 0);
        assert(digit(n as int) as u32 == 48 + n);
    } else {
        lemma_decimal(n / 10);
        let d = digit((n % 10) as int);
        assert(d as u32 == 48 + n % 10);
        assert(decimal(n).drop_last() =~= decimal(n / 10));
        assert(decimal(n).last() == d);
        assert forall|j: int| 0 <= j < decimal(n).len() implies is_digit(
            #[trigger] decimal(n)[j],
        ) by {
            if j < decimal(n).len() - 1 {
                assert(decimal(n)[j] == decimal(n / 10)[j]);
            }
        }
    }
}


/// Each keyword is written in upper case letters and read as itself.
pub proof fn lemma_keywords(k: Keyword)
    ensures
        keyword_text(k).len() >= 2,
        forall|j: int|
            0 <= j < keyword_text(k).len() ==> is_letter(#[trigger] keyword_text(k)[j]) && upper(
                keyword_text(k)[j],
            ) == keyword_text(k)[j],
        keyword_of(keyword_text(k)) == Some(k),
{
    reveal_strlit("EQ");
    reveal_strlit("EQN");
    reveal_strlit("NE");
    reveal_strlit("NEN");
    reveal_strlit("GT");
    reveal_strlit("GE");
    reveal_strlit("LT");
    reveal_strlit("LE");
    reveal_strlit("LK");
    reveal_strlit("RE");
    reveal_strlit("BW");
    reveal_strlit("IN");
    reveal_strlit("OUT");
    reveal_strlit("FN");
    let t = keyword_text(k);
    assert(t[0] != "EQ"@[0] || t[1] != "EQ"@[1] || t.len() != 2 || k == Keyword::Eq);
    assert(t[0] != "NE"@[0] || t[1] != "NE"@[1] || t.len() != 2 || k == Keyword::Ne);
    assert(t[0] != "GT"@[0] || t[1] != "GT"@[1] || t.len() != 2 || k == Keyword::Gt);
    assert(t[0] != "GE"@[0] || t[1] != "GE"@[1] || t.len() != 2 || k == Keyword::Ge);
    assert(t[0] != "LT"@[0] || t[1] != "LT"@[1] || t.len() != 2 || k == Keyword::Lt);
    assert(t[0] != "LE"@[0] || t[1] != "LE"@[1] || t.len() != 2 || k == Keyword::Le);
    assert(t[0] != "LK"@[0] || t[1] != "LK"@[1] || t.len() != 2 || k == Keyword::Lk);
    assert(t[0] != "RE"@[0] || t[1] != "RE"@[1] || t.len() != 2 || k == Keyword::Re);
    assert(t[0] != "BW"@[0] || t[1] != "BW"@[1] || t.len() != 2 || k == Keyword::Bw);
    assert(t[0] != "IN"@[0] || t[1] != "IN"@[1] || t.len() != 2 || k == Keyword::In);
    assert(t[0] != "FN"@[0] || t[1] != "FN"@[1] || t.len() != 2 || k == Keyword::Fn);
    assert(t[0] != "EQN"@[0] || t.len() != 3 || k == Keyword::Eqn);
    assert(t[0] != "NEN"@[0] || t.len() != 3 || k == Keyword::Nen);
    assert(t[0] != "OUT"@[0] || t.len() != 3 || k == Keyword::Out);
}

/// A word in upper case letters is its own upper case.
pub proof fn lemma_upper_word(w: Seq<char>)
    requires
        forall|j: int| 0 <= j < w.len() ==> upper(#[trigger] w[j]) == w[j],
    ensures
        upper_word(w) == w,
{
    assert(upper_word(w) =~= w);
}

/// The arguments of a list, each behind a space, are those of its parts one
/// after the other.
pub proof fn lemma_render_args_add(a: Seq<Seq<char>>, b: Seq<Seq<char>>)
    ensures
        render_args(a + b) == render_args(a) + render_args(b),
    decreases b.len(),
{
    if b.len() == 0 {
        assert(a + b =~= a);
        assert(render_args(a) + render_args(b) =~= render_args(a));
    } else {
        lemma_render_args_add(a, b.drop_last());
        assert((a + b).drop_last() =~= a + b.drop_last());
        assert((a + b).last() == b.last());
        assert(render_args(a + b) =~= render_args(a) + render_args(b));
    }
}

/// The arguments of a list that is not empty, with spaces between them and
/// one before them, are the arguments each behind a space.
pub proof fn lemma_join_args(args: Seq<Seq<char>>)
    requires
        args.len() > 0,
    ensures
        " "@ + join(args, " "@) == render_args(args),
    decreases args.len(),
{
    if args.len() == 1 {
        assert(args.drop_last() =~= Seq::<Seq<char>>::empty());
        assert(render_args(args.drop_last()) =~= Seq::<char>::empty());
        assert(" "@ + join(args, " "@) =~= render_args(args));
    } else {
        lemma_join_args(args.drop_last());
        assert(" "@ + join(args, " "@) =~= render_args(args));
    }
}

/// What a filter writes behind its arguments: a space, where its list of
/// arguments is empty.
pub open spec fn filter_tail(filter: FieldFilterView) -> Seq<char> {
    match filter {
        FieldFilterView::In(args) => if args.len() == 0 {
            " "@
        } else {
            Seq::empty()
        },
        FieldFilterView::Out(args) => if args.len() == 0 {
            " "@
        } else {
            Seq::empty()
        },
        FieldFilterView::Fn(_, args) => if args.len() == 0 {
            " "@
        } else {
            Seq::empty()
        },
        _ => Seq::empty(),
    }
}

/// A filter is written as its keyword, then its words each behind a space,
/// then its tail; and its keyword with its words makes the filter.
pub proof fn lemma_render_filter(filter: FieldFilterView)
    ensures
        render_filter(filter) == keyword_text(keyword(filter)) + render_args(filter_words(filter))
            + filter_tail(filter),
        filter_from(keyword(filter), filter_words(filter)) == Some(filter),
{
    reveal_strlit("EQ");
    reveal_strlit("EQN");
    reveal_strlit("NE");
    reveal_strlit("NEN");
    reveal_strlit("GT");
    reveal_strlit("GE");
    reveal_strlit("LT");
    reveal_strlit("LE");
    reveal_strlit("LK");
    reveal_strlit("RE");
    reveal_strlit("BW");
    reveal_strlit("IN");
    reveal_strlit("OUT");
    reveal_strlit("FN");
    reveal_strlit("EQ ");
    reveal_strlit("NE ");
    reveal_strlit("GT ");
    reveal_strlit("GE ");
    reveal_strlit("LT ");
    reveal_strlit("LE ");
    reveal_strlit("LK ");
    reveal_strlit("RE ");
    reveal_strlit("BW ");
    reveal_strlit("IN ");
    reveal_strlit("OUT ");
    reveal_strlit("FN ");
    reveal_strlit(" ");
    let words = filter_words(filter);
    let k = keyword_text(keyword(filter));
    let e = Seq::<Seq<char>>::empty();
    assert(render_args(e) =~= Seq::<char>::empty());
    match filter {
        FieldFilterView::Eq(a) => {
            lemma_one_word(a);
            assert("EQ "@ =~= "EQ"@ + " "@);
            assert(render_filter(filter) =~= k + render_args(words) + filter_tail(filter));
        },
        FieldFilterView::Ne(a) => {
            lemma_one_word(a);
            assert("NE "@ =~= "NE"@ + " "@);
            assert(render_filter(filter) =~= k + render_args(words) + filter_tail(filter));
        },
        FieldFilterView::Gt(a) => {
            lemma_one_word(a);
            assert("GT "@ =~= "GT"@ + " "@);
            assert(render_filter(filter) =~= k + render_args(words) + filter_tail(filter));
        },
        FieldFilterView::Ge(a) => {
            lemma_one_word(a);
            assert("GE "@ =~= "GE"@ + " "@);
            assert(render_filter(filter) =~= k + render_args(words) + filter_tail(filter));
        },
        FieldFilterView::Lt(a) => {
            lemma_one_word(a);
            assert("LT "@ =~= "LT"@ + " "@);
            assert(render_filter(filter) =~= k + render_args(words) + filter_tail(filter));
        },
        FieldFilterView::Le(a) => {
            lemma_one_word(a);
            assert("LE "@ =~= "LE"@ + " "@);
            assert(render_filter(filter) =~= k + render_args(words) + filter_tail(filter));
        },
        FieldFilterView::Lk(a) => {
            lemma_one_word(a);
            assert("LK "@ =~= "LK"@ + " "@);
            assert(render_filter(filter) =~= k + render_args(words) + filter_tail(filter));
        },
        FieldFilterView::Re(a) => {
            lemma_one_word(a);
            assert("RE "@ =~= "RE"@ + " "@);
            assert(render_filter(filter) =~= k + render_args(words) + filter_tail(filter));
        },
        FieldFilterView::Eqn => {
            assert(words =~= e);
            assert(render_filter(filter) =~= k + render_args(words) + filter_tail(filter));
        },
        FieldFilterView::Nen => {
            assert(words =~= e);
            assert(render_filter(filter) =~= k + render_args(words) + filter_tail(filter));
        },
        FieldFilterView::Bw(l, u) => {
            lemma_one_word(l);
            lemma_one_word(u);
            lemma_render_args_add(seq![l], seq![u]);
            assert(seq![l] + seq![u] =~= words);
            assert("BW "@ =~= "BW"@ + " "@);
            assert(render_filter(filter) =~= k + render_args(words) + filter_tail(filter));
        },
        FieldFilterView::In(args) => {
            assert("IN "@ =~= "IN"@ + " "@);
            if args.len() > 0 {
                lemma_join_args(args);
                assert(render_filter(filter) =~= "IN"@ + (" "@ + join(args, " "@)));
            } else {
                assert(join(args, " "@) =~= Seq::<char>::empty());
                assert(args =~= e);
            }
            assert(render_filter(filter) =~= k + render_args(words) + filter_tail(filter));
        },
        FieldFilterView::Out(args) => {
            assert("OUT "@ =~= "OUT"@ + " "@);
            if args.len() > 0 {
                lemma_join_args(args);
                assert(render_filter(filter) =~= "OUT"@ + (" "@ + join(args, " "@)));
            } else {
                assert(join(args, " "@) =~= Seq::<char>::empty());
                assert(args =~= e);
            }
            assert(render_filter(filter) =~= k + render_args(words) + filter_tail(filter));
        },
        FieldFilterView::Fn(name, args) => {
            assert("FN "@ =~= "FN"@ + " "@);
            lemma_one_word(name);
            lemma_render_args_add(seq![name], args);
            assert(words.skip(1) =~= args);
            if args.len() > 0 {
                lemma_join_args(args);
                assert(render_filter(filter) =~= "FN"@ + (" "@ + name) + (" "@ + join(
                    args,
                    " "@,
                )));
            } else {
                assert(join(args, " "@) =~= Seq::<char>::empty());
                assert(render_args(args) =~= Seq::<char>::empty());
            }
            assert(render_filter(filter) =~= k + render_args(words) + filter_tail(filter));
        },
    }
}

/// One argument behind a space.
pub proof fn lemma_one_word(a: Seq<char>)
    ensures
        render_args(seq![a]) == " "@ + a,
{
    assert(seq![a].drop_last() =~= Seq::<Seq<char>>::empty());
    assert(render_args(seq![a].drop_last()) =~= Seq::<char>::empty());
    assert(render_args(seq![a]) =~= " "@ + a);
}


/// Words that are written each behind a space, and then a space or nothing,
/// before a separator, a bracket or the end of the text, are read as the
/// arguments they are.
pub proof fn lemma_arguments_read_back(
    s: Seq<char>,
    pos: int,
    done: Seq<Seq<char>>,
    rest: Seq<Seq<char>>,
    tail: Seq<char>,
)
    requires
        forall|i: int| 0 <= i < rest.len() ==> is_word(#[trigger] rest[i]),
        tail == Seq::<char>::empty() || tail == " "@,
        has_at(s, pos, render_args(rest) + tail),
        pos + (render_args(rest) + tail).len() == s.len() || is_delimiter(
            s[pos + (render_args(rest) + tail).len()],
        ),
    ensures
        arguments(s, pos, done) == Ok::<(Seq<Seq<char>>, int), ParseErrorView>(
            (done + rest, pos + (render_args(rest) + tail).len()),
        ),
    decreases rest.len(),
{
    reveal_strlit(" ");
    let text = render_args(rest) + tail;
    let end = pos + text.len();
    lemma_has_at_chars(s, pos, text);
    if rest.len() == 0 {
        assert(render_args(rest) =~= Seq::<char>::empty());
        assert(text =~= tail);
        if tail.len() > 0 {
            assert(s[pos + 0] == tail[0]);
            lemma_run_exact(s, pos, pos + 1, CharClass::Space);
        } else {
            lemma_run_exact(s, pos, pos, CharClass::Space);
        }
        assert(done + rest =~= done);
    } else {
        let w = rest[0];
        let after = rest.skip(1);
        assert(rest =~= seq![w] + after);
        lemma_render_args_add(seq![w], after);
        lemma_one_word(w);
        let remaining = render_args(after) + tail;
        assert(text =~= (" "@ + w) + remaining);
        lemma_has_at_split(s, pos, " "@ + w, remaining);
        lemma_has_at_split(s, pos, " "@, w);
        lemma_has_at_chars(s, pos, " "@);
        lemma_has_at_chars(s, pos + 1, w);
        lemma_has_at_chars(s, pos + 1 + w.len(), remaining);
        assert(" "@[0] == ' ');
        assert(s[pos + 0] == ' ');
        assert(s[pos + 1 + 0] == w[0]);
        assert(in_class(CharClass::Word, w[0]));
        lemma_run_exact(s, pos, pos + 1, CharClass::Space);
        // What follows the word is a space, a separator, a bracket or the end.
        let next = pos + 1 + w.len();
        if remaining.len() > 0 {
            if after.len() > 0 {
                let w2 = after[0];
                assert(after =~= seq![w2] + after.skip(1));
                lemma_render_args_add(seq![w2], after.skip(1));
                lemma_one_word(w2);
                assert(remaining[0] == ' ');
            } else {
                assert(render_args(after) =~= Seq::<char>::empty());
                assert(remaining =~= tail);
            }
            assert(s[next + 0] == remaining[0]);
            assert(s[next] == ' ');
        }
        assert forall|j: int| pos + 1 <= j < next implies in_class(CharClass::Word, s[j]) by {
            assert(s[pos + 1 + (j - pos - 1)] == w[j - pos - 1]);
        }
        lemma_run_exact(s, pos + 1, next, CharClass::Word);
        assert(s.subrange(pos + 1, next) == w);
        assert forall|i: int| 0 <= i < after.len() implies is_word(#[trigger] after[i]) by {
            assert(after[i] == rest[i + 1]);
        }
        lemma_arguments_read_back(s, next, done.push(w), after, tail);
        assert(done.push(w) + after =~= done + rest);
    }
}

/// What a field writes behind its name: a space, the aggregation marker
/// and the filter, or nothing.
pub open spec fn field_suffix(f: FieldView) -> Seq<char> {
    match f.filter {
        Some(filter) => (if f.aggregation {
            " !"@
        } else {
            " "@
        }) + render_filter(filter),
        None => Seq::empty(),
    }
}

/// What a field writes behind its name is read as its filter and its
/// aggregation marker.
pub proof fn lemma_filter_reads_back(s: Seq<char>, name_end: int, f: FieldView)
    requires
        token_reads_back(QueryTokenView::Field(f)),
        has_at(s, name_end, field_suffix(f)),
        name_end + field_suffix(f).len() == s.len() || is_delimiter(s[name_end + field_suffix(f).len()]),
    ensures
        filter_at(s, name_end) == Ok::<(Option<FieldFilterView>, bool, int), ParseErrorView>(
            (f.filter, f.aggregation, name_end + field_suffix(f).len()),
        ),
{
    reveal_strlit(" ");
    reveal_strlit(" !");
    let suffix = field_suffix(f);
    let end = name_end + suffix.len();
    lemma_has_at_chars(s, name_end, suffix);
    match f.filter {
        None => {
            assert(suffix =~= Seq::<char>::empty());
            lemma_run_exact(s, name_end, name_end, CharClass::Space);
        },
        Some(filter) => {
            let k = keyword(filter);
            let kt = keyword_text(k);
            let words = filter_words(filter);
            let tail = filter_tail(filter);
            let marker = if f.aggregation {
                " !"@
            } else {
                " "@
            };
            lemma_render_filter(filter);
            lemma_keywords(k);
            let behind = render_args(words) + tail;
            assert(suffix =~= marker + (kt + behind));
            lemma_has_at_split(s, name_end, marker, kt + behind);
            let word_start = name_end + marker.len();
            lemma_has_at_split(s, word_start, kt, behind);
            lemma_has_at_chars(s, name_end, marker);
            lemma_has_at_chars(s, word_start, kt);
            let word_end = word_start + kt.len();
            lemma_has_at_chars(s, word_end, behind);
            assert(marker[0] == ' ');
            assert(s[name_end + 0] == ' ');
            assert(s[word_start + 0] == kt[0]);
            assert(is_letter(kt[0]));
            if f.aggregation {
                assert(marker[1] == '!');
                assert(s[name_end + 1] == '!');
                lemma_run_exact(s, name_end, name_end + 1, CharClass::Space);
                lemma_run_exact(s, name_end + 2, name_end + 2, CharClass::Space);
            } else {
                lemma_run_exact(s, name_end, name_end + 1, CharClass::Space);
            }
            // What follows the keyword is a space, a separator, a bracket or
            // the end.
            if behind.len() > 0 {
                if words.len() > 0 {
                    let w = words[0];
                    assert(words =~= seq![w] + words.skip(1));
                    lemma_render_args_add(seq![w], words.skip(1));
                    lemma_one_word(w);
                    assert(behind[0] == ' ');
                } else {
                    assert(render_args(words) =~= Seq::<char>::empty());
                    assert(behind =~= tail);
                }
                assert(s[word_end + 0] == behind[0]);
                assert(s[word_end] == ' ');
            }
            assert forall|j: int| word_start <= j < word_end implies in_class(CharClass::Name, s[j]) by {
                assert(s[word_start + (j - word_start)] == kt[j - word_start]);
                assert(is_letter(kt[j - word_start]));
            }
            lemma_run_exact(s, word_start, word_end, CharClass::Name);
            assert(s.subrange(word_start, word_end) == kt);
            lemma_upper_word(kt);
            lemma_arguments_read_back(s, word_end, Seq::empty(), words, tail);
            assert(Seq::<Seq<char>>::empty() + words =~= words);
        },
    }
}


/// Whether a text is followed, at `end`, by a separator, a bracket or the
/// end of the whole text.
pub open spec fn ends_at(s: Seq<char>, end: int) -> bool {
    end == s.len() || (0 <= end < s.len() && is_delimiter(s[end]))
}

/// The text of a name is read as the name, up to a character that no name
/// holds.
proof fn lemma_name_run(s: Seq<char>, p: int, name: Seq<char>)
    requires
        is_name(name),
        has_at(s, p, name),
        p + name.len() == s.len() || !in_class(CharClass::Name, s[p + name.len()]),
    ensures
        is_letter(s[p]),
        run_end(s, p, CharClass::Name) == p + name.len(),
        s.subrange(p, p + name.len()) == name,
{
    lemma_has_at_chars(s, p, name);
    assert(s[p + 0] == name[0]);
    assert forall|j: int| p <= j < p + name.len() implies in_class(CharClass::Name, s[j]) by {
        assert(s[p + (j - p)] == name[j - p]);
    }
    lemma_run_exact(s, p, p + name.len(), CharClass::Name);
}

/// The text of a field is read as the field.
pub proof fn lemma_field_reads_back(s: Seq<char>, p: int, f: FieldView)
    requires
        token_reads_back(QueryTokenView::Field(f)),
        has_at(s, p, render_field(f)),
        ends_at(s, p + render_field(f).len()),
    ensures
        clause_at(s, p, f.concatenation) == Ok::<(QueryTokenView, int), ParseErrorView>(
            (QueryTokenView::Field(f), p + render_field(f).len()),
        ),
{
    reveal_strlit("+");
    reveal_strlit("-");
    reveal_strlit(".");
    reveal_strlit(" ");
    reveal_strlit(" !");
    let order = render_order(f.order);
    let dot = if f.hidden {
        "."@
    } else {
        Seq::<char>::empty()
    };
    let suffix = field_suffix(f);
    let text = render_field(f);
    assert(text =~= order + (dot + (f.name + suffix)));
    lemma_has_at_split(s, p, order, dot + (f.name + suffix));
    let after_order = p + order.len();
    lemma_has_at_split(s, after_order, dot, f.name + suffix);
    let name_start = after_order + dot.len();
    lemma_has_at_split(s, name_start, f.name, suffix);
    let name_end = name_start + f.name.len();
    lemma_has_at_chars(s, p, order);
    lemma_has_at_chars(s, after_order, dot);
    lemma_has_at_chars(s, name_start, f.name);
    lemma_has_at_chars(s, name_end, suffix);
    assert(s[name_start + 0] == f.name[0]);
    assert(is_letter(f.name[0]));
    if f.hidden {
        assert(dot[0] == '.');
        assert(s[after_order + 0] == '.');
    }
    // The ordering.
    match f.order {
        Some(o) => {
            let n: u8 = match o {
                FieldOrder::Asc(n) => n,
                FieldOrder::Desc(n) => n,
            };
            let sign = match o {
                FieldOrder::Asc(_) => "+"@,
                FieldOrder::Desc(_) => "-"@,
            };
            let digits = decimal(n as nat);
            lemma_decimal(n as nat);
            assert(order =~= sign + digits);
            lemma_has_at_split(s, p, sign, digits);
            lemma_has_at_chars(s, p, sign);
            lemma_has_at_chars(s, p + 1, digits);
            assert(s[p + 0] == sign[0]);
            assert forall|j: int| p + 1 <= j < after_order implies in_class(CharClass::Digit, s[j]) by {
                assert(s[p + 1 + (j - p - 1)] == digits[j - p - 1]);
            }
            assert(!is_digit(s[after_order]));
            lemma_run_exact(s, p + 1, after_order, CharClass::Digit);
            assert(s.subrange(p + 1, after_order) == digits);
            assert(priority_of(digits) == n);
            assert(order_at(s, p) == (f.order, after_order));
        },
        None => {
            assert(order =~= Seq::<char>::empty());
            assert(order_at(s, p) == (f.order, after_order));
        },
    }
    // The name ends before a space, a separator, a bracket or the end.
    if suffix.len() > 0 {
        assert(s[name_end + 0] == suffix[0]);
        assert(suffix[0] == ' ');
    }
    lemma_name_run(s, name_start, f.name);
    lemma_filter_reads_back(s, name_end, f);
    assert(field_at(s, p, f.concatenation) == Ok::<(QueryTokenView, int), ParseErrorView>(
        (QueryTokenView::Field(f), p + text.len()),
    ));
}

/// The text of a wildcard is read as the wildcard.
pub proof fn lemma_wildcard_reads_back(s: Seq<char>, p: int, w: WildcardView)
    requires
        token_reads_back(QueryTokenView::Wildcard(w)),
        has_at(s, p, w.path + "*"@),
        ends_at(s, p + w.path.len() + 1),
    ensures
        clause_at(s, p, w.concatenation) == Ok::<(QueryTokenView, int), ParseErrorView>(
            (QueryTokenView::Wildcard(w), p + w.path.len() + 1),
        ),
{
    reveal_strlit("*");
    lemma_has_at_split(s, p, w.path, "*"@);
    lemma_has_at_chars(s, p, w.path);
    lemma_has_at_chars(s, p + w.path.len(), "*"@);
    assert("*"@[0] == '*');
    assert(s[p + w.path.len() + 0] == '*');
    if w.path.len() == 0 {
        assert(w.path =~= Seq::<char>::empty());
    } else {
        lemma_name_run(s, p, w.path);
        assert(order_at(s, p) == (None::<FieldOrder>, p));
        assert(path_of(w.path) == w.path);
    }
}

/// The text of a double wildcard is read as the double wildcard.
pub proof fn lemma_double_wildcard_reads_back(s: Seq<char>, p: int, c: Concatenation)
    requires
        has_at(s, p, "**"@),
    ensures
        clause_at(s, p, c) == Ok::<(QueryTokenView, int), ParseErrorView>(
            (QueryTokenView::DoubleWildcard(c), p + 2),
        ),
{
    reveal_strlit("**");
    lemma_has_at_chars(s, p, "**"@);
    assert("**"@[0] == '*');
    assert("**"@[1] == '*');
    assert(s[p + 0] == '*');
    assert(s[p + 1] == '*');
}

/// The text of a predicate is read as the predicate.
pub proof fn lemma_predicate_reads_back(s: Seq<char>, p: int, pr: PredicateView)
    requires
        token_reads_back(QueryTokenView::Predicate(pr)),
        has_at(s, p, render_predicate(pr)),
        ends_at(s, p + render_predicate(pr).len()),
    ensures
        clause_at(s, p, pr.concatenation) == Ok::<(QueryTokenView, int), ParseErrorView>(
            (QueryTokenView::Predicate(pr), p + render_predicate(pr).len()),
        ),
{
    reveal_strlit("@");
    reveal_strlit(" ");
    let args = render_args(pr.args);
    let text = render_predicate(pr);
    assert(text =~= "@"@ + (pr.name + args));
    lemma_has_at_split(s, p, "@"@, pr.name + args);
    lemma_has_at_split(s, p + 1, pr.name, args);
    lemma_has_at_chars(s, p, "@"@);
    let name_end = p + 1 + pr.name.len();
    lemma_has_at_chars(s, name_end, args);
    assert("@"@[0] == '@');
    assert(s[p + 0] == '@');
    if args.len() > 0 {
        if pr.args.len() > 0 {
            let w = pr.args[0];
            assert(pr.args =~= seq![w] + pr.args.skip(1));
            lemma_render_args_add(seq![w], pr.args.skip(1));
            lemma_one_word(w);
            assert(args[0] == ' ');
        }
        assert(s[name_end + 0] == args[0]);
    }
    lemma_name_run(s, p + 1, pr.name);
    assert(args + Seq::<char>::empty() =~= args);
    lemma_arguments_read_back(s, name_end, Seq::empty(), pr.args, Seq::empty());
    assert(Seq::<Seq<char>>::empty() + pr.args =~= pr.args);
}


/// Whether a token is a clause: anything but a bracket.
pub open spec fn is_clause(t: QueryTokenView) -> bool {
    !(t is LeftBracket) && !(t is RightBracket)
}

/// The text of a clause begins with a character that is no white space, no
/// separator and no bracket.
proof fn lemma_clause_start(t: QueryTokenView)
    requires
        is_clause(t),
        token_reads_back(t),
    ensures
        render_token(t).len() > 0,
        !is_space(render_token(t)[0]),
        !is_delimiter(render_token(t)[0]),
{
    reveal_strlit("+");
    reveal_strlit("-");
    reveal_strlit(".");
    reveal_strlit("*");
    reveal_strlit("**");
    reveal_strlit("@");
    match t {
        QueryTokenView::Field(f) => {
            let order = render_order(f.order);
            let dot = if f.hidden {
                "."@
            } else {
                Seq::<char>::empty()
            };
            assert(render_field(f) =~= order + (dot + (f.name + field_suffix(f))));
            assert(is_letter(f.name[0]));
            match f.order {
                Some(FieldOrder::Asc(n)) => {
                    assert(order[0] == "+"@[0]);
                },
                Some(FieldOrder::Desc(n)) => {
                    assert(order[0] == "-"@[0]);
                },
                None => {
                    assert(order =~= Seq::<char>::empty());
                    if f.hidden {
                        assert(render_field(f)[0] == "."@[0]);
                    } else {
                        assert(render_field(f)[0] == f.name[0]);
                    }
                },
            }
        },
        QueryTokenView::Wildcard(w) => {
            if w.path.len() > 0 {
                assert(is_letter(w.path[0]));
                assert(render_token(t)[0] == w.path[0]);
            } else {
                assert(render_token(t)[0] == "*"@[0]);
            }
        },
        QueryTokenView::DoubleWildcard(_) => {
            assert(render_token(t)[0] == "**"@[0]);
        },
        QueryTokenView::Predicate(pr) => {
            assert(render_token(t)[0] == "@"@[0]);
        },
        _ => {},
    }
}

/// The text of a clause is read as the clause.
proof fn lemma_clause_reads_back(s: Seq<char>, p: int, t: QueryTokenView)
    requires
        is_clause(t),
        token_reads_back(t),
        has_at(s, p, render_token(t)),
        ends_at(s, p + render_token(t).len()),
    ensures
        clause_at(s, p, concatenation_of(t)->0) == Ok::<(QueryTokenView, int), ParseErrorView>(
            (t, p + render_token(t).len()),
        ),
{
    reveal_strlit("*");
    reveal_strlit("**");
    match t {
        QueryTokenView::Field(f) => {
            lemma_field_reads_back(s, p, f);
        },
        QueryTokenView::Wildcard(w) => {
            lemma_wildcard_reads_back(s, p, w);
        },
        QueryTokenView::DoubleWildcard(c) => {
            lemma_double_wildcard_reads_back(s, p, c);
        },
        QueryTokenView::Predicate(pr) => {
            lemma_predicate_reads_back(s, p, pr);
        },
        _ => {},
    }
}

/// The separator that is written before the token at `i`.
pub open spec fn separator_before(ts: Seq<QueryTokenView>, i: int) -> Seq<char> {
    if needs_separator(ts, i) {
        match concatenation_of(ts[i]) {
            Some(c) => separator(c),
            None => Seq::empty(),
        }
    } else {
        Seq::empty()
    }
}

/// The text of the first tokens of a query stands at the start of the text
/// of more of its tokens, and the next token stands behind it.
proof fn lemma_pieces(ts: Seq<QueryTokenView>, i: int, n: int)
    requires
        0 <= i <= n <= ts.len(),
    ensures
        has_at(render_tokens(ts, n), 0, render_tokens(ts, i)),
        i < n ==> has_at(render_tokens(ts, n), render_tokens(ts, i).len() as int, render_piece(ts, i)),
    decreases n - i,
{
    let s = render_tokens(ts, n);
    if i == n {
        assert(s.subrange(0, s.len() as int) =~= s);
    } else {
        lemma_pieces(ts, i + 1, n);
        let a = render_tokens(ts, i);
        let b = render_piece(ts, i);
        assert(render_tokens(ts, i + 1) == a + b);
        lemma_has_at_split(s, 0, a, b);
    }
}

/// What the parser waits for before the token at `i`.
pub open spec fn expect_before(ts: Seq<QueryTokenView>, i: int) -> Expect {
    if needs_separator(ts, i) {
        Expect::Separator
    } else {
        Expect::First
    }
}

/// The text of a query that reads back, read from the token at `i` on
/// after the tokens before it, gives the tokens of the query.
proof fn lemma_tokens_read_back(ts: Seq<QueryTokenView>, i: int)
    requires
        reads_back(ts),
        0 <= i <= ts.len(),
    ensures
        parse_at(
            render_tokens(ts, ts.len() as int),
            render_tokens(ts, i).len() as int,
            expect_before(ts, i),
            ts.take(i),
        ) == Ok::<Seq<QueryTokenView>, ParseErrorView>(ts),
    decreases ts.len() - i,
{
    reveal_strlit(",");
    reveal_strlit(";");
    reveal_strlit("(");
    reveal_strlit(")");
    let n = ts.len() as int;
    let s = render_tokens(ts, n);
    let pos = render_tokens(ts, i).len() as int;
    lemma_pieces(ts, i, n);
    if i == n {
        assert(ts.take(i) =~= ts);
    } else {
        lemma_tokens_read_back(ts, i + 1);
        lemma_pieces(ts, i + 1, n);
        let t = ts[i];
        let sep = separator_before(ts, i);
        let text = render_token(t);
        let piece = render_piece(ts, i);
        assert(piece == sep + text);
        lemma_has_at_split(s, pos, sep, text);
        lemma_has_at_chars(s, pos, sep);
        let p = pos + sep.len();
        lemma_has_at_chars(s, p, text);
        let next = p + text.len();
        assert(next == render_tokens(ts, i + 1).len());
        assert(ts.take(i + 1) =~= ts.take(i).push(t));
        assert(token_reads_back(t));
        // What the parser waits for when it has read the separator.
        let expect = if sep.len() > 0 {
            Expect::Next(concatenation_of(t)->0)
        } else {
            expect_before(ts, i)
        };
        if sep.len() > 0 {
            assert(s[pos + 0] == sep[0]);
            assert(parse_at(s, pos, expect_before(ts, i), ts.take(i)) == parse_at(
                s,
                pos + 1,
                expect,
                ts.take(i),
            ));
        }
        match t {
            QueryTokenView::LeftBracket(c) => {
                assert(text[0] == '(');
                assert(s[p + 0] == '(');
                assert(pending(expect) == c);
                assert(parse_at(s, p, expect, ts.take(i)) == parse_at(
                    s,
                    p + 1,
                    Expect::First,
                    ts.take(i + 1),
                ));
            },
            QueryTokenView::RightBracket => {
                assert(text[0] == ')');
                assert(s[p + 0] == ')');
                assert(sep.len() == 0);
                assert(parse_at(s, p, expect, ts.take(i)) == parse_at(
                    s,
                    p + 1,
                    expect,
                    ts.take(i + 1),
                ));
            },
            _ => {
                lemma_clause_start(t);
                assert(s[p + 0] == text[0]);
                // The clause ends before a separator, a closing bracket or
                // the end of the text.
                if i + 1 < n {
                    let after = render_piece(ts, i + 1);
                    lemma_has_at_chars(s, next, after);
                    let sep2 = separator_before(ts, i + 1);
                    assert(needs_separator(ts, i + 1));
                    match concatenation_of(ts[i + 1]) {
                        Some(c2) => {
                            assert(sep2 == separator(c2));
                            assert(after[0] == sep2[0]);
                        },
                        None => {
                            assert(sep2 =~= Seq::<char>::empty());
                            assert(after =~= ")"@);
                            assert(after[0] == ')');
                        },
                    }
                    assert(s[next + 0] == after[0]);
                    assert(is_delimiter(s[next]));
                }
                lemma_clause_reads_back(s, p, t);
                assert(pending(expect) == concatenation_of(t)->0);
                assert(parse_at(s, p, expect, ts.take(i)) == parse_at(
                    s,
                    next,
                    Expect::Separator,
                    ts.take(i + 1),
                ));
            },
        }
    }
}

/// A query that reads back is read from its text as it is: parsing the
/// text of the query gives the tokens of the query.
pub proof fn lemma_parse_renders(q: QueryView)
    requires
        reads_back(q.tokens),
    ensures
        parse_text(render_query(q)) == Ok::<Seq<QueryTokenView>, ParseErrorView>(q.tokens),
{
    reveal_strlit("(");
    reveal_strlit(")");
    let ts = q.tokens;
    let raw = render_tokens(ts, ts.len() as int);
    lemma_tokens_read_back(ts, 0);
    assert(ts.take(0) =~= Seq::<QueryTokenView>::empty());
    assert(render_tokens(ts, 0) =~= Seq::<char>::empty());
    // The text begins with its first token, which is no separator.
    if ts.len() > 0 {
        lemma_pieces(ts, 0, ts.len() as int);
        let text = render_token(ts[0]);
        assert(render_piece(ts, 0) =~= text);
        lemma_has_at_chars(raw, 0, text);
        if is_clause(ts[0]) {
            lemma_clause_start(ts[0]);
            assert(raw[0int + 0] == text[0]);
        } else {
            assert(text[0] == '(' || text[0] == ')');
            assert(raw[0int + 0] == text[0]);
        }
    }
    lemma_strip_nothing(raw);
}

} // verus!
