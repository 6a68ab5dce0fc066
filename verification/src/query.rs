//! The query and the functions that build one step by step.
//!
//! A query is a list of tokens: fields, wildcards, predicates and brackets.
//! Every token but the closing bracket carries the concatenation that joins
//! it to what stands before it, so that AND binds tighter than OR without
//! operator tokens of their own.
//!
//! ```ignore
//! let q = Query::new()
//!     .and(Field::from("foo").hidden().eq(5).aggregate().asc(1))
//!     .and(Field::from("bar").desc(2));
//! assert_eq!("+1.foo !EQ 5,-2bar", q.to_string());
//! ```

use crate::text::{decimal, join, push_char, push_decimal, push_joined, push_signed_decimal, signed_decimal, to_chars, string_of, views};
use vstd::prelude::*;

verus! {

/// How a token joins the one before it.
#[derive(Clone, Copy, Debug, PartialEq, Eq, Structural)]
pub enum Concatenation {
    And,
    Or,
}

/// The direction of an ordering and its priority among the ordered fields.
#[derive(Clone, Copy, Debug, PartialEq, Eq, Structural)]
pub enum FieldOrder {
    Asc(u8),
    Desc(u8),
}

/// The filter operation on a field. Arguments are kept as text and are never
/// spliced into SQL.
#[derive(Clone, Debug, PartialEq, Eq)]
pub enum FieldFilter {
    Eq(String),
    Eqn,
    Ne(String),
    Nen,
    Gt(String),
    Ge(String),
    Lt(String),
    Le(String),
    Lk(String),
    /// Lower and upper limit, both inclusive.
    Bw(String, String),
    In(Vec<String>),
    Out(Vec<String>),
    Re(String),
    /// Function name and arguments.
    Fn(String, Vec<String>),
}

/// The mathematical value of a [`FieldFilter`].
pub enum FieldFilterView {
    Eq(Seq<char>),
    Eqn,
    Ne(Seq<char>),
    Nen,
    Gt(Seq<char>),
    Ge(Seq<char>),
    Lt(Seq<char>),
    Le(Seq<char>),
    Lk(Seq<char>),
    Bw(Seq<char>, Seq<char>),
    In(Seq<Seq<char>>),
    Out(Seq<Seq<char>>),
    Re(Seq<char>),
    Fn(Seq<char>, Seq<Seq<char>>),
}

impl View for FieldFilter {
    type V = FieldFilterView;

    open spec fn view(&self) -> FieldFilterView {
        match self {
            FieldFilter::Eq(a) => FieldFilterView::Eq(a@),
            FieldFilter::Eqn => FieldFilterView::Eqn,
            FieldFilter::Ne(a) => FieldFilterView::Ne(a@),
            FieldFilter::Nen => FieldFilterView::Nen,
            FieldFilter::Gt(a) => FieldFilterView::Gt(a@),
            FieldFilter::Ge(a) => FieldFilterView::Ge(a@),
            FieldFilter::Lt(a) => FieldFilterView::Lt(a@),
            FieldFilter::Le(a) => FieldFilterView::Le(a@),
            FieldFilter::Lk(a) => FieldFilterView::Lk(a@),
            FieldFilter::Bw(l, u) => FieldFilterView::Bw(l@, u@),
            FieldFilter::In(args) => FieldFilterView::In(views(args@)),
            FieldFilter::Out(args) => FieldFilterView::Out(views(args@)),
            FieldFilter::Re(a) => FieldFilterView::Re(a@),
            FieldFilter::Fn(name, args) => FieldFilterView::Fn(name@, views(args@)),
        }
    }
}

/// A field selects, filters and orders a column or an expression.
///
/// Its name may spell a path: in `book_author_name` the segments before the
/// last underscore name the joins that lead to the field.
#[derive(Clone, Debug, PartialEq, Eq)]
pub struct Field {
    pub(crate) concatenation: Concatenation,
    pub(crate) name: String,
    pub(crate) hidden: bool,
    pub(crate) order: Option<FieldOrder>,
    pub(crate) filter: Option<FieldFilter>,
    pub(crate) aggregation: bool,
}

/// The mathematical value of a [`Field`].
pub struct FieldView {
    pub concatenation: Concatenation,
    pub name: Seq<char>,
    pub hidden: bool,
    pub order: Option<FieldOrder>,
    pub filter: Option<FieldFilterView>,
    pub aggregation: bool,
}

impl View for Field {
    type V = FieldView;

    open(crate) spec fn view(&self) -> FieldView {
        FieldView {
            concatenation: self.concatenation,
            name: self.name@,
            hidden: self.hidden,
            order: self.order,
            filter: match self.filter {
                Some(f) => Some(f@),
                None => None,
            },
            aggregation: self.aggregation,
        }
    }
}

/// A wildcard selects all fields at the top or below a path.
#[derive(Clone, Debug, PartialEq, Eq)]
pub struct Wildcard {
    pub(crate) concatenation: Concatenation,
    pub(crate) path: String,
}

/// The mathematical value of a [`Wildcard`].
pub struct WildcardView {
    pub concatenation: Concatenation,
    pub path: Seq<char>,
}

impl View for Wildcard {
    type V = WildcardView;

    open(crate) spec fn view(&self) -> WildcardView {
        WildcardView { concatenation: self.concatenation, path: self.path@ }
    }
}

/// A named condition with arguments, resolved by whoever maps the query.
#[derive(Clone, Debug, PartialEq, Eq)]
pub struct Predicate {
    pub(crate) concatenation: Concatenation,
    pub(crate) name: String,
    pub(crate) args: Vec<String>,
}

/// The mathematical value of a [`Predicate`].
pub struct PredicateView {
    pub concatenation: Concatenation,
    pub name: Seq<char>,
    pub args: Seq<Seq<char>>,
}

impl View for Predicate {
    type V = PredicateView;

    open(crate) spec fn view(&self) -> PredicateView {
        PredicateView {
            concatenation: self.concatenation,
            name: self.name@,
            args: views(self.args@),
        }
    }
}

/// One element of a query.
#[derive(Clone, Debug, PartialEq, Eq)]
pub enum QueryToken {
    LeftBracket(Concatenation),
    RightBracket,
    Wildcard(Wildcard),
    DoubleWildcard(Concatenation),
    Field(Field),
    Predicate(Predicate),
}

/// The mathematical value of a [`QueryToken`].
pub enum QueryTokenView {
    LeftBracket(Concatenation),
    RightBracket,
    Wildcard(WildcardView),
    DoubleWildcard(Concatenation),
    Field(FieldView),
    Predicate(PredicateView),
}

impl View for QueryToken {
    type V = QueryTokenView;

    open spec fn view(&self) -> QueryTokenView {
        match self {
            QueryToken::LeftBracket(c) => QueryTokenView::LeftBracket(*c),
            QueryToken::RightBracket => QueryTokenView::RightBracket,
            QueryToken::Wildcard(w) => QueryTokenView::Wildcard(w@),
            QueryToken::DoubleWildcard(c) => QueryTokenView::DoubleWildcard(*c),
            QueryToken::Field(f) => QueryTokenView::Field(f@),
            QueryToken::Predicate(p) => QueryTokenView::Predicate(p@),
        }
    }
}

/// The views of a list of tokens.
pub open spec fn token_views(ts: Seq<QueryToken>) -> Seq<QueryTokenView> {
    Seq::new(ts.len(), |i: int| ts[i]@)
}

/// The set of the names in a list.
pub open spec fn name_set(names: Seq<String>) -> Set<Seq<char>> {
    Set::new(|r: Seq<char>| exists|i: int| 0 <= i < names.len() && #[trigger] names[i]@ == r)
}

/// A query holds fields, wildcards and predicates, grouped by brackets.
///
/// AND binds tighter than OR: `a; b, c` reads `a OR (b AND c)`. A query that
/// comes from a user and is to be narrowed by a permission filter must be put
/// in parentheses first, see [`Query::parenthesize`].
#[derive(Clone, Debug, PartialEq, Eq)]
pub struct Query {
    pub(crate) tokens: Vec<QueryToken>,
    /// Select DISTINCT.
    pub distinct: bool,
    /// The roles that the query brings along.
    pub roles: Vec<String>,
}

/// The mathematical value of a [`Query`].
pub struct QueryView {
    pub tokens: Seq<QueryTokenView>,
    pub distinct: bool,
    pub roles: Set<Seq<char>>,
}

impl View for Query {
    type V = QueryView;

    open(crate) spec fn view(&self) -> QueryView {
        QueryView {
            tokens: token_views(self.tokens@),
            distinct: self.distinct,
            roles: name_set(self.roles@),
        }
    }
}


/// Turns a simple value into the text of a filter argument.
pub trait FilterArg<T>: Sized {
    /// The text that a filter keeps for this value.
    spec fn sql_text(&self) -> Seq<char>;

    fn to_sql(self) -> (s: String)
        ensures
            s@ == self.sql_text(),
    ;
}

impl<'a> FilterArg<&'a str> for &'a str {
    /// Text is put between single quotes as it stands.
    open spec fn sql_text(&self) -> Seq<char> {
        "'"@ + self@ + "'"@
    }

    fn to_sql(self) -> (s: String) {
        let mut s = String::from_str("'");
        s.append(self);
        s.append("'");
        s
    }
}

impl FilterArg<bool> for bool {
    open spec fn sql_text(&self) -> Seq<char> {
        if *self {
            "1"@
        } else {
            "0"@
        }
    }

    fn to_sql(self) -> (s: String) {
        if self {
            String::from_str("1")
        } else {
            String::from_str("0")
        }
    }
}

impl FilterArg<u8> for u8 {
    open spec fn sql_text(&self) -> Seq<char> {
        decimal(*self as nat)
    }

    fn to_sql(self) -> (s: String) {
        let mut s = String::new();
        push_decimal(&mut s, self as u128);
        s
    }
}

impl FilterArg<u16> for u16 {
    open spec fn sql_text(&self) -> Seq<char> {
        decimal(*self as nat)
    }

    fn to_sql(self) -> (s: String) {
        let mut s = String::new();
        push_decimal(&mut s, self as u128);
        s
    }
}

impl FilterArg<u32> for u32 {
    open spec fn sql_text(&self) -> Seq<char> {
        decimal(*self as nat)
    }

    fn to_sql(self) -> (s: String) {
        let mut s = String::new();
        push_decimal(&mut s, self as u128);
        s
    }
}

impl FilterArg<u64> for u64 {
    open spec fn sql_text(&self) -> Seq<char> {
        decimal(*self as nat)
    }

    fn to_sql(self) -> (s: String) {
        let mut s = String::new();
        push_decimal(&mut s, self as u128);
        s
    }
}

impl FilterArg<u128> for u128 {
    open spec fn sql_text(&self) -> Seq<char> {
        decimal(*self as nat)
    }

    fn to_sql(self) -> (s: String) {
        let mut s = String::new();
        push_decimal(&mut s, self);
        s
    }
}

impl FilterArg<i8> for i8 {
    open spec fn sql_text(&self) -> Seq<char> {
        signed_decimal(*self as int)
    }

    fn to_sql(self) -> (s: String) {
        let mut s = String::new();
        push_signed_decimal(&mut s, self as i128);
        s
    }
}

impl FilterArg<i16> for i16 {
    open spec fn sql_text(&self) -> Seq<char> {
        signed_decimal(*self as int)
    }

    fn to_sql(self) -> (s: String) {
        let mut s = String::new();
        push_signed_decimal(&mut s, self as i128);
        s
    }
}

impl FilterArg<i32> for i32 {
    open spec fn sql_text(&self) -> Seq<char> {
        signed_decimal(*self as int)
    }

    fn to_sql(self) -> (s: String) {
        let mut s = String::new();
        push_signed_decimal(&mut s, self as i128);
        s
    }
}

impl FilterArg<i64> for i64 {
    open spec fn sql_text(&self) -> Seq<char> {
        signed_decimal(*self as int)
    }

    fn to_sql(self) -> (s: String) {
        let mut s = String::new();
        push_signed_decimal(&mut s, self as i128);
        s
    }
}

impl FilterArg<i128> for i128 {
    open spec fn sql_text(&self) -> Seq<char> {
        signed_decimal(*self as int)
    }

    fn to_sql(self) -> (s: String) {
        let mut s = String::new();
        push_signed_decimal(&mut s, self);
        s
    }
}

/// The texts of a list of filter arguments.
pub open spec fn arg_texts<T, A: FilterArg<T>>(args: Seq<A>) -> Seq<Seq<char>> {
    Seq::new(args.len(), |i: int| args[i].sql_text())
}

/// Converts a list of filter arguments, keeping their order.
fn args_to_sql<T, A: FilterArg<T>>(criteria: Vec<A>) -> (r: Vec<String>)
    ensures
        views(r@) == arg_texts(criteria@),
{
    let ghost all = criteria@;
    let mut rest = criteria;
    let mut rev: Vec<String> = Vec::new();
    while rest.len() > 0
        invariant
            rest@ == all.subrange(0, rest.len() as int),
            rest.len() + rev.len() == all.len(),
            forall|j: int|
                0 <= j < rev.len() ==> (#[trigger] rev@[j])@ == all[all.len() - 1 - j].sql_text(),
        decreases rest.len(),
    {
        let c = rest.pop().unwrap();
        rev.push(c.to_sql());
    }
    let ghost texts = rev@;
    let mut out: Vec<String> = Vec::new();
    while rev.len() > 0
        invariant
            rev@ == texts.subrange(0, rev.len() as int),
            rev.len() + out.len() == texts.len(),
            forall|j: int| 0 <= j < out.len() ==> #[trigger] out@[j] == texts[texts.len() - 1 - j],
        decreases rev.len(),
    {
        let t = rev.pop().unwrap();
        out.push(t);
    }
    assert(views(out@) =~= arg_texts(all));
    out
}

impl Wildcard {
    /// A wildcard that selects all fields at the top.
    pub fn new() -> (w: Self)
        ensures
            w@ == (WildcardView { concatenation: Concatenation::And, path: Seq::empty() }),
    {
        Wildcard { concatenation: Concatenation::And, path: String::new() }
    }

    /// The path that [`Wildcard::from`] keeps for `path`: without a trailing
    /// `*`, and with a trailing `_`.
    pub open spec fn normal_path(path: Seq<char>) -> Seq<char> {
        let p = if path.len() > 0 && path.last() == '*' {
            path.drop_last()
        } else {
            path
        };
        if p.len() > 0 && p.last() == '_' {
            p
        } else {
            p.push('_')
        }
    }

    /// A wildcard that selects all fields below a path.
    pub fn from(path: &str) -> (w: Self)
        ensures
            w@ == (WildcardView {
                concatenation: Concatenation::And,
                path: Self::normal_path(path@),
            }),
    {
        let chars = to_chars(path);
        let mut end: usize = chars.len();
        if end > 0 && chars[end - 1] == '*' {
            end = end - 1;
        }
        let mut p = string_of(&chars, 0, end);
        if !(end > 0 && chars[end - 1] == '_') {
            push_char(&mut p, '_');
        }
        assert(chars@.subrange(0, chars.len() as int) =~= chars@);
        assert(chars@.subrange(0, chars.len() - 1) =~= chars@.drop_last());
        Wildcard { concatenation: Concatenation::And, path: p }
    }
}

impl Field {
    /// A field of the given name: selected, not ordered, not filtered.
    pub fn from(name: &str) -> (f: Self)
        ensures
            f@ == (FieldView {
                concatenation: Concatenation::And,
                name: name@,
                hidden: false,
                order: None,
                filter: None,
                aggregation: false,
            }),
    {
        Field {
            concatenation: Concatenation::And,
            name: String::from_str(name),
            hidden: false,
            order: None,
            filter: None,
            aggregation: false,
        }
    }

    /// Hides the field: it can still filter and order, but is not selected.
    pub fn hidden(self) -> (f: Self)
        ensures
            f@ == (FieldView { hidden: true, ..self@ }),
    {
        let mut f = self;
        f.hidden = true;
        f
    }

    /// Marks the field as an aggregation, so that its filter goes to HAVING
    /// in place of WHERE.
    pub fn aggregate(self) -> (f: Self)
        ensures
            f@ == (FieldView { aggregation: true, ..self@ }),
    {
        let mut f = self;
        f.aggregation = true;
        f
    }

    /// Orders ascending by this field, with the given priority among the
    /// ordered fields.
    pub fn asc(self, order: u8) -> (f: Self)
        ensures
            f@ == (FieldView { order: Some(FieldOrder::Asc(order)), ..self@ }),
    {
        let mut f = self;
        f.order = Some(FieldOrder::Asc(order));
        f
    }

    /// Orders descending by this field, with the given priority among the
    /// ordered fields.
    pub fn desc(self, order: u8) -> (f: Self)
        ensures
            f@ == (FieldView { order: Some(FieldOrder::Desc(order)), ..self@ }),
    {
        let mut f = self;
        f.order = Some(FieldOrder::Desc(order));
        f
    }

    /// Filters with _equal_.
    pub fn eq<T, A: FilterArg<T>>(self, criteria: A) -> (f: Self)
        ensures
            f@ == (FieldView {
                filter: Some(FieldFilterView::Eq(criteria.sql_text())),
                ..self@
            }),
    {
        let mut f = self;
        f.filter = Some(FieldFilter::Eq(criteria.to_sql()));
        f
    }

    /// Filters with _equal null_.
    pub fn eqn(self) -> (f: Self)
        ensures
            f@ == (FieldView { filter: Some(FieldFilterView::Eqn), ..self@ }),
    {
        let mut f = self;
        f.filter = Some(FieldFilter::Eqn);
        f
    }

    /// Filters with _not equal_.
    pub fn ne<T, A: FilterArg<T>>(self, criteria: A) -> (f: Self)
        ensures
            f@ == (FieldView {
                filter: Some(FieldFilterView::Ne(criteria.sql_text())),
                ..self@
            }),
    {
        let mut f = self;
        f.filter = Some(FieldFilter::Ne(criteria.to_sql()));
        f
    }

    /// Filters with _not equal null_.
    pub fn nen(self) -> (f: Self)
        ensures
            f@ == (FieldView { filter: Some(FieldFilterView::Nen), ..self@ }),
    {
        let mut f = self;
        f.filter = Some(FieldFilter::Nen);
        f
    }

    /// Filters with _greater than_.
    pub fn gt<T, A: FilterArg<T>>(self, criteria: A) -> (f: Self)
        ensures
            f@ == (FieldView {
                filter: Some(FieldFilterView::Gt(criteria.sql_text())),
                ..self@
            }),
    {
        let mut f = self;
        f.filter = Some(FieldFilter::Gt(criteria.to_sql()));
        f
    }

    /// Filters with _greater than or equal_.
    pub fn ge<T, A: FilterArg<T>>(self, criteria: A) -> (f: Self)
        ensures
            f@ == (FieldView {
                filter: Some(FieldFilterView::Ge(criteria.sql_text())),
                ..self@
            }),
    {
        let mut f = self;
        f.filter = Some(FieldFilter::Ge(criteria.to_sql()));
        f
    }

    /// Filters with _less than_.
    pub fn lt<T, A: FilterArg<T>>(self, criteria: A) -> (f: Self)
        ensures
            f@ == (FieldView {
                filter: Some(FieldFilterView::Lt(criteria.sql_text())),
                ..self@
            }),
    {
        let mut f = self;
        f.filter = Some(FieldFilter::Lt(criteria.to_sql()));
        f
    }

    /// Filters with _less than or equal_.
    pub fn le<T, A: FilterArg<T>>(self, criteria: A) -> (f: Self)
        ensures
            f@ == (FieldView {
                filter: Some(FieldFilterView::Le(criteria.sql_text())),
                ..self@
            }),
    {
        let mut f = self;
        f.filter = Some(FieldFilter::Le(criteria.to_sql()));
        f
    }

    /// Filters with _between_, both limits included: `x BW 3 6` selects what
    /// `x GE 3, x LE 6` selects.
    pub fn bw<T, A: FilterArg<T>>(self, lower: A, upper: A) -> (f: Self)
        ensures
            f@ == (FieldView {
                filter: Some(FieldFilterView::Bw(lower.sql_text(), upper.sql_text())),
                ..self@
            }),
    {
        let mut f = self;
        f.filter = Some(FieldFilter::Bw(lower.to_sql(), upper.to_sql()));
        f
    }

    /// Filters with _like_.
    pub fn lk<T, A: FilterArg<T>>(self, criteria: A) -> (f: Self)
        ensures
            f@ == (FieldView {
                filter: Some(FieldFilterView::Lk(criteria.sql_text())),
                ..self@
            }),
    {
        let mut f = self;
        f.filter = Some(FieldFilter::Lk(criteria.to_sql()));
        f
    }

    /// Filters with a regular expression.
    pub fn re<T, A: FilterArg<T>>(self, criteria: A) -> (f: Self)
        ensures
            f@ == (FieldView {
                filter: Some(FieldFilterView::Re(criteria.sql_text())),
                ..self@
            }),
    {
        let mut f = self;
        f.filter = Some(FieldFilter::Re(criteria.to_sql()));
        f
    }

    /// Filters with _inside_ a list of values.
    pub fn ins<T, A: FilterArg<T>>(self, criteria: Vec<A>) -> (f: Self)
        ensures
            f@ == (FieldView {
                filter: Some(FieldFilterView::In(arg_texts(criteria@))),
                ..self@
            }),
    {
        let mut f = self;
        f.filter = Some(FieldFilter::In(args_to_sql(criteria)));
        f
    }

    /// Filters with _outside_ a list of values.
    pub fn out<T, A: FilterArg<T>>(self, criteria: Vec<A>) -> (f: Self)
        ensures
            f@ == (FieldView {
                filter: Some(FieldFilterView::Out(arg_texts(criteria@))),
                ..self@
            }),
    {
        let mut f = self;
        f.filter = Some(FieldFilter::Out(args_to_sql(criteria)));
        f
    }

    /// Filters with a custom function, which the field's handler must know.
    pub fn fnc<T, A: FilterArg<T>>(self, name: &str, args: Vec<A>) -> (f: Self)
        ensures
            f@ == (FieldView {
                filter: Some(FieldFilterView::Fn(name@, arg_texts(args@))),
                ..self@
            }),
    {
        let mut f = self;
        f.filter = Some(FieldFilter::Fn(String::from_str(name), args_to_sql(args)));
        f
    }

    /// Filters with the given filter.
    pub fn filter(self, filter: FieldFilter) -> (f: Self)
        ensures
            f@ == (FieldView { filter: Some(filter@), ..self@ }),
    {
        let mut f = self;
        f.filter = Some(filter);
        f
    }

    /// Sets how the field joins what stands before it.
    pub fn concatenate(self, concatenation: Concatenation) -> (f: Self)
        ensures
            f@ == (FieldView { concatenation, ..self@ }),
    {
        let mut f = self;
        f.concatenation = concatenation;
        f
    }
}


/// The ordering prefix of a field: `+` or `-` and the priority.
pub open spec fn render_order(order: Option<FieldOrder>) -> Seq<char> {
    match order {
        Some(FieldOrder::Asc(n)) => "+"@ + decimal(n as nat),
        Some(FieldOrder::Desc(n)) => "-"@ + decimal(n as nat),
        None => Seq::empty(),
    }
}

/// A filter as text: its keyword, then its arguments with single spaces
/// between them.
pub open spec fn render_filter(filter: FieldFilterView) -> Seq<char> {
    match filter {
        FieldFilterView::Eq(a) => "EQ "@ + a,
        FieldFilterView::Eqn => "EQN"@,
        FieldFilterView::Ne(a) => "NE "@ + a,
        FieldFilterView::Nen => "NEN"@,
        FieldFilterView::Gt(a) => "GT "@ + a,
        FieldFilterView::Ge(a) => "GE "@ + a,
        FieldFilterView::Lt(a) => "LT "@ + a,
        FieldFilterView::Le(a) => "LE "@ + a,
        FieldFilterView::Lk(a) => "LK "@ + a,
        FieldFilterView::Re(a) => "RE "@ + a,
        FieldFilterView::Bw(l, u) => "BW "@ + l + " "@ + u,
        FieldFilterView::In(args) => "IN "@ + join(args, " "@),
        FieldFilterView::Out(args) => "OUT "@ + join(args, " "@),
        FieldFilterView::Fn(name, args) => "FN "@ + name + " "@ + join(args, " "@),
    }
}

/// A field as text: ordering prefix, hidden marker, name, and where there
/// is a filter a space, the aggregation marker and the filter.
pub open spec fn render_field(f: FieldView) -> Seq<char> {
    render_order(f.order) + (if f.hidden {
        "."@
    } else {
        Seq::empty()
    }) + f.name + (match f.filter {
        Some(filter) => (if f.aggregation {
            " !"@
        } else {
            " "@
        }) + render_filter(filter),
        None => Seq::empty(),
    })
}

/// The arguments of a predicate as text, each after a space.
pub open spec fn render_args(args: Seq<Seq<char>>) -> Seq<char>
    decreases args.len(),
{
    if args.len() == 0 {
        Seq::empty()
    } else {
        render_args(args.drop_last()) + " "@ + args.last()
    }
}

/// A predicate as text: `@`, its name, and its arguments.
pub open spec fn render_predicate(p: PredicateView) -> Seq<char> {
    "@"@ + p.name + render_args(p.args)
}

/// A token as text, without the separator in front of it.
pub open spec fn render_token(t: QueryTokenView) -> Seq<char> {
    match t {
        QueryTokenView::LeftBracket(_) => "("@,
        QueryTokenView::RightBracket => ")"@,
        QueryTokenView::Wildcard(w) => w.path + "*"@,
        QueryTokenView::DoubleWildcard(_) => "**"@,
        QueryTokenView::Field(f) => render_field(f),
        QueryTokenView::Predicate(p) => render_predicate(p),
    }
}

/// The concatenation that a token carries; a closing bracket has none.
pub open spec fn concatenation_of(t: QueryTokenView) -> Option<Concatenation> {
    match t {
        QueryTokenView::LeftBracket(c) => Some(c),
        QueryTokenView::RightBracket => None,
        QueryTokenView::Wildcard(w) => Some(w.concatenation),
        QueryTokenView::DoubleWildcard(c) => Some(c),
        QueryTokenView::Field(f) => Some(f.concatenation),
        QueryTokenView::Predicate(p) => Some(p.concatenation),
    }
}

/// The token with its concatenation replaced; a closing bracket stays as it is.
pub open spec fn with_concatenation(t: QueryTokenView, c: Concatenation) -> QueryTokenView {
    match t {
        QueryTokenView::LeftBracket(_) => QueryTokenView::LeftBracket(c),
        QueryTokenView::RightBracket => QueryTokenView::RightBracket,
        QueryTokenView::Wildcard(w) => QueryTokenView::Wildcard(
            WildcardView { concatenation: c, ..w },
        ),
        QueryTokenView::DoubleWildcard(_) => QueryTokenView::DoubleWildcard(c),
        QueryTokenView::Field(f) => QueryTokenView::Field(FieldView { concatenation: c, ..f }),
        QueryTokenView::Predicate(p) => QueryTokenView::Predicate(
            PredicateView { concatenation: c, ..p },
        ),
    }
}

/// The punctuation of a concatenation: `,` for AND and `;` for OR.
pub open spec fn separator(c: Concatenation) -> Seq<char> {
    match c {
        Concatenation::And => ","@,
        Concatenation::Or => ";"@,
    }
}

/// Whether the token at `i` is written with its separator: not at the start,
/// not right after an opening bracket, and after a closing bracket only where
/// the token before that bracket would have been.
pub open spec fn needs_separator(ts: Seq<QueryTokenView>, i: int) -> bool
    decreases i,
{
    if i <= 0 || i > ts.len() {
        false
    } else {
        match ts[i - 1] {
            QueryTokenView::LeftBracket(_) => false,
            QueryTokenView::RightBracket => needs_separator(ts, i - 1),
            _ => true,
        }
    }
}

/// The token at `i` as it is written in its place: separator, then text.
pub open spec fn render_piece(ts: Seq<QueryTokenView>, i: int) -> Seq<char> {
    (if needs_separator(ts, i) {
        match concatenation_of(ts[i]) {
            Some(c) => separator(c),
            None => Seq::empty(),
        }
    } else {
        Seq::empty()
    }) + render_token(ts[i])
}

/// The first `n` tokens as text.
pub open spec fn render_tokens(ts: Seq<QueryTokenView>, n: int) -> Seq<char>
    decreases n,
{
    if n <= 0 {
        Seq::empty()
    } else {
        render_tokens(ts, n - 1) + render_piece(ts, n - 1)
    }
}

/// The number of characters at the start of `s` that are `c`.
pub open spec fn leading(s: Seq<char>, c: char) -> int
    decreases s.len(),
{
    if s.len() > 0 && s[0] == c {
        1 + leading(s.drop_first(), c)
    } else {
        0
    }
}

/// `s` without the commas at its start, and without the semicolons that then
/// stand at its start.
pub open spec fn strip_separators(s: Seq<char>) -> Seq<char> {
    let t = s.skip(leading(s, ','));
    t.skip(leading(t, ';'))
}

/// A query as text: its tokens in order, with no separator in front.
pub open spec fn render_query(q: QueryView) -> Seq<char> {
    strip_separators(render_tokens(q.tokens, q.tokens.len() as int))
}

/// `leading` counts within the sequence, and stops at a character that
/// differs.
pub proof fn lemma_leading(s: Seq<char>, c: char)
    ensures
        0 <= leading(s, c) <= s.len(),
        forall|j: int| 0 <= j < leading(s, c) ==> s[j] == c,
        leading(s, c) < s.len() ==> s[leading(s, c)] != c,
    decreases s.len(),
{
    if s.len() > 0 && s[0] == c {
        lemma_leading(s.drop_first(), c);
        assert forall|j: int| 0 <= j < leading(s, c) implies s[j] == c by {
            if j > 0 {
                assert(s.drop_first()[j - 1] == c);
            }
        }
        if leading(s, c) < s.len() {
            assert(s[leading(s, c)] == s.drop_first()[leading(s.drop_first(), c)]);
        }
    }
}

impl FieldFilter {
    /// The filter as text.
    pub fn to_string(&self) -> (s: String)
        ensures
            s@ == render_filter(self@),
    {
        let mut s = String::new();
        match self {
            FieldFilter::Eq(a) => {
                s.append("EQ ");
                s.append(a.as_str());
            },
            FieldFilter::Eqn => {
                s.append("EQN");
            },
            FieldFilter::Ne(a) => {
                s.append("NE ");
                s.append(a.as_str());
            },
            FieldFilter::Nen => {
                s.append("NEN");
            },
            FieldFilter::Gt(a) => {
                s.append("GT ");
                s.append(a.as_str());
            },
            FieldFilter::Ge(a) => {
                s.append("GE ");
                s.append(a.as_str());
            },
            FieldFilter::Lt(a) => {
                s.append("LT ");
                s.append(a.as_str());
            },
            FieldFilter::Le(a) => {
                s.append("LE ");
                s.append(a.as_str());
            },
            FieldFilter::Lk(a) => {
                s.append("LK ");
                s.append(a.as_str());
            },
            FieldFilter::Re(a) => {
                s.append("RE ");
                s.append(a.as_str());
            },
            FieldFilter::Bw(l, u) => {
                s.append("BW ");
                s.append(l.as_str());
                s.append(" ");
                s.append(u.as_str());
            },
            FieldFilter::In(args) => {
                s.append("IN ");
                push_joined(&mut s, args, " ");
            },
            FieldFilter::Out(args) => {
                s.append("OUT ");
                push_joined(&mut s, args, " ");
            },
            FieldFilter::Fn(name, args) => {
                s.append("FN ");
                s.append(name.as_str());
                s.append(" ");
                push_joined(&mut s, args, " ");
            },
        }
        assert(s@ =~= render_filter(self@));
        s
    }
}

impl Field {
    /// The field as text, in the syntax that the parser reads.
    pub fn to_string(&self) -> (s: String)
        ensures
            s@ == render_field(self@),
    {
        let mut s = String::new();
        match self.order {
            Some(FieldOrder::Asc(o)) => {
                s.append("+");
                push_decimal(&mut s, o as u128);
            },
            Some(FieldOrder::Desc(o)) => {
                s.append("-");
                push_decimal(&mut s, o as u128);
            },
            None => {},
        }
        assert(s@ =~= render_order(self.order));
        if self.hidden {
            s.append(".");
        }
        s.append(self.name.as_str());
        match &self.filter {
            Some(filter) => {
                if self.aggregation {
                    s.append(" !");
                } else {
                    s.append(" ");
                }
                let t = filter.to_string();
                s.append(t.as_str());
            },
            None => {},
        }
        assert(s@ =~= render_field(self@));
        s
    }
}

impl Predicate {
    /// A predicate of the given name, without arguments.
    pub fn from(name: &str) -> (p: Self)
        ensures
            p@ == (PredicateView {
                concatenation: Concatenation::And,
                name: name@,
                args: Seq::empty(),
            }),
    {
        let p = Predicate {
            concatenation: Concatenation::And,
            name: String::from_str(name),
            args: Vec::new(),
        };
        assert(p@.args =~= Seq::empty());
        p
    }

    /// Sets the arguments of the predicate.
    pub fn are<T, A: FilterArg<T>>(self, args: Vec<A>) -> (p: Self)
        ensures
            p@ == (PredicateView { args: arg_texts(args@), ..self@ }),
    {
        let mut p = self;
        p.args = args_to_sql(args);
        p
    }

    /// The predicate as text, in the syntax that the parser reads.
    pub fn to_string(&self) -> (s: String)
        ensures
            s@ == render_predicate(self@),
    {
        let mut s = String::from_str("@");
        s.append(self.name.as_str());
        let ghost parts = views(self.args@);
        let ghost head = s@;
        let mut i: usize = 0;
        while i < self.args.len()
            invariant
                i <= self.args.len(),
                parts == views(self.args@),
                s@ == head + render_args(parts.take(i as int)),
            decreases self.args.len() - i,
        {
            s.append(" ");
            s.append(self.args[i].as_str());
            proof {
                let after = parts.take(i + 1);
                assert(after.drop_last() =~= parts.take(i as int));
                assert(s@ =~= head + render_args(after));
            }
            i = i + 1;
        }
        assert(parts.take(self.args.len() as int) =~= parts);
        s
    }
}

impl QueryToken {
    /// The token as text, without a separator.
    pub fn to_string(&self) -> (s: String)
        ensures
            s@ == render_token(self@),
    {
        match self {
            QueryToken::RightBracket => String::from_str(")"),
            QueryToken::LeftBracket(_) => String::from_str("("),
            QueryToken::Field(field) => field.to_string(),
            QueryToken::Wildcard(wildcard) => {
                let mut s = wildcard.path.clone();
                s.append("*");
                s
            },
            QueryToken::DoubleWildcard(_) => String::from_str("**"),
            QueryToken::Predicate(predicate) => predicate.to_string(),
        }
    }

    /// The concatenation that the token carries, if it carries one.
    pub fn concatenation(&self) -> (c: Option<Concatenation>)
        ensures
            c == concatenation_of(self@),
    {
        match self {
            QueryToken::RightBracket => None,
            QueryToken::LeftBracket(c) => Some(*c),
            QueryToken::Field(field) => Some(field.concatenation),
            QueryToken::Wildcard(wildcard) => Some(wildcard.concatenation),
            QueryToken::DoubleWildcard(c) => Some(*c),
            QueryToken::Predicate(predicate) => Some(predicate.concatenation),
        }
    }

    /// The token with its concatenation replaced; a closing bracket stays as
    /// it is.
    pub fn concatenate(self, c: Concatenation) -> (t: Self)
        ensures
            t@ == with_concatenation(self@, c),
    {
        match self {
            QueryToken::RightBracket => QueryToken::RightBracket,
            QueryToken::LeftBracket(_) => QueryToken::LeftBracket(c),
            QueryToken::Field(field) => {
                let mut f = field;
                f.concatenation = c;
                QueryToken::Field(f)
            },
            QueryToken::Wildcard(wildcard) => {
                let mut w = wildcard;
                w.concatenation = c;
                QueryToken::Wildcard(w)
            },
            QueryToken::DoubleWildcard(_) => QueryToken::DoubleWildcard(c),
            QueryToken::Predicate(predicate) => {
                let mut p = predicate;
                p.concatenation = c;
                QueryToken::Predicate(p)
            },
        }
    }
}


/// The token that a piece of text stands for when a query is built by hand:
/// `**` is the double wildcard, text that ends in `*` a wildcard, and
/// anything else a field name.
pub open spec fn token_of_text(s: Seq<char>) -> QueryTokenView {
    if s == "**"@ {
        QueryTokenView::DoubleWildcard(Concatenation::And)
    } else if s.len() > 0 && s.last() == '*' {
        QueryTokenView::Wildcard(
            WildcardView { concatenation: Concatenation::And, path: Wildcard::normal_path(s) },
        )
    } else {
        QueryTokenView::Field(
            FieldView {
                concatenation: Concatenation::And,
                name: s,
                hidden: false,
                order: None,
                filter: None,
                aggregation: false,
            },
        )
    }
}

/// A query of one token, not distinct and without roles.
pub open spec fn single(t: QueryTokenView) -> QueryView {
    QueryView { tokens: seq![t], distinct: false, roles: Set::empty() }
}

/// The tokens with the first one's concatenation set to OR.
pub open spec fn or_first(ts: Seq<QueryTokenView>) -> Seq<QueryTokenView> {
    if ts.len() == 0 {
        ts
    } else {
        ts.update(0, with_concatenation(ts[0], Concatenation::Or))
    }
}

/// The tokens between an opening bracket, joined by AND, and a closing one;
/// no tokens stay no tokens.
pub open spec fn parenthesized(ts: Seq<QueryTokenView>) -> Seq<QueryTokenView> {
    if ts.len() == 0 {
        ts
    } else {
        (seq![QueryTokenView::LeftBracket(Concatenation::And)] + ts).push(
            QueryTokenView::RightBracket,
        )
    }
}

/// What can be appended to a query: a field, a wildcard, a predicate, a
/// piece of text, or another query.
pub trait IntoQuery: Sized {
    /// The query that this value becomes.
    spec fn as_query(&self) -> QueryView;

    fn into_query(self) -> (q: Query)
        ensures
            q@ == self.as_query(),
    ;
}

impl QueryToken {
    /// The token that `s` stands for, see [`token_of_text`].
    pub fn from_text(s: &str) -> (t: QueryToken)
        ensures
            t@ == token_of_text(s@),
    {
        let chars = to_chars(s);
        proof {
            reveal_strlit("**");
        }
        if chars.len() == 2 && chars[0] == '*' && chars[1] == '*' {
            assert(s@ =~= "**"@);
            QueryToken::DoubleWildcard(Concatenation::And)
        } else if chars.len() > 0 && chars[chars.len() - 1] == '*' {
            QueryToken::Wildcard(Wildcard::from(s))
        } else {
            QueryToken::Field(Field::from(s))
        }
    }
}

impl Query {
    /// An empty query.
    pub fn new() -> (q: Self)
        ensures
            q@ == (QueryView { tokens: Seq::empty(), distinct: false, roles: Set::empty() }),
    {
        let q = Query { tokens: Vec::new(), distinct: false, roles: Vec::new() };
        assert(q@.tokens =~= Seq::empty());
        assert(q@.roles =~= Set::empty());
        q
    }

    /// A query of one token.
    fn of_token(t: QueryToken) -> (q: Self)
        ensures
            q@ == single(t@),
    {
        let mut tokens: Vec<QueryToken> = Vec::new();
        tokens.push(t);
        let q = Query { tokens, distinct: false, roles: Vec::new() };
        assert(q@.tokens =~= seq![t@]);
        assert(q@.roles =~= Set::empty());
        q
    }

    /// A query that selects all fields at the top.
    pub fn wildcard() -> (q: Self)
        ensures
            q@ == single(
                QueryTokenView::Wildcard(
                    WildcardView { concatenation: Concatenation::And, path: Seq::empty() },
                ),
            ),
    {
        Query::of_token(QueryToken::Wildcard(Wildcard::new()))
    }

    /// A query that selects all fields, those of the joined paths too.
    pub fn double_wildcard() -> (q: Self)
        ensures
            q@ == single(QueryTokenView::DoubleWildcard(Concatenation::And)),
    {
        Query::of_token(QueryToken::DoubleWildcard(Concatenation::And))
    }

    /// Wraps the query in parentheses; an empty query stays empty.
    pub fn parenthesize(self) -> (q: Self)
        ensures
            q@ == (QueryView { tokens: parenthesized(self@.tokens), ..self@ }),
    {
        let mut q = self;
        if q.tokens.len() == 0 {
            return q;
        }
        q.tokens.insert(0, QueryToken::LeftBracket(Concatenation::And));
        q.tokens.push(QueryToken::RightBracket);
        assert(q@.tokens =~= parenthesized(self@.tokens));
        q
    }

    /// Appends a field, a wildcard or a query, joined by AND: the tokens that
    /// come are taken as they are.
    pub fn and<T: IntoQuery>(self, query: T) -> (q: Self)
        ensures
            q@ == (QueryView { tokens: self@.tokens + query.as_query().tokens, ..self@ }),
    {
        let mut q = self;
        let mut other: Query = query.into_query();
        let ghost added = other@.tokens;
        q.tokens.append(&mut other.tokens);
        assert(q@.tokens =~= self@.tokens + added);
        q
    }

    /// Appends a field, a wildcard or a query, joined by OR: the first of the
    /// tokens that come has its concatenation set to OR.
    pub fn or<T: IntoQuery>(self, query: T) -> (q: Self)
        ensures
            q@ == (QueryView {
                tokens: self@.tokens + or_first(query.as_query().tokens),
                ..self@
            }),
    {
        let mut q = self;
        let mut other: Query = query.into_query();
        let ghost added = other@.tokens;
        if other.tokens.len() > 0 {
            let first = other.tokens.remove(0);
            other.tokens.insert(0, first.concatenate(Concatenation::Or));
        }
        assert(other@.tokens =~= or_first(added));
        q.tokens.append(&mut other.tokens);
        assert(q@.tokens =~= self@.tokens + or_first(added));
        q
    }

    /// The number of tokens.
    pub fn len(&self) -> (n: usize)
        ensures
            n == self@.tokens.len(),
    {
        self.tokens.len()
    }

    /// The query as text, in the syntax that the parser reads.
    pub fn to_string(&self) -> (s: String)
        ensures
            s@ == render_query(self@),
    {
        let ghost ts = self@.tokens;
        let mut raw = String::new();
        let mut needed = false;
        let mut i: usize = 0;
        while i < self.tokens.len()
            invariant
                i <= self.tokens.len(),
                ts == self@.tokens,
                needed == needs_separator(ts, i as int),
                raw@ == render_tokens(ts, i as int),
            decreases self.tokens.len() - i,
        {
            let token = &self.tokens[i];
            assert(token@ == ts[i as int]);
            if needed {
                match token.concatenation() {
                    Some(Concatenation::And) => raw.append(","),
                    Some(Concatenation::Or) => raw.append(";"),
                    None => {},
                }
            }
            let t = token.to_string();
            raw.append(t.as_str());
            assert(raw@ =~= render_tokens(ts, i as int) + render_piece(ts, i as int));
            match token {
                QueryToken::LeftBracket(_) => {
                    needed = false;
                },
                QueryToken::RightBracket => {},
                _ => {
                    needed = true;
                },
            }
            i = i + 1;
        }
        // A separator at the very start is dropped.
        let chars = to_chars(raw.as_str());
        let mut from: usize = 0;
        proof {
            lemma_leading(chars@, ',');
        }
        while from < chars.len() && chars[from] == ','
            invariant
                from <= leading(chars@, ',') <= chars.len(),
                forall|j: int| 0 <= j < leading(chars@, ',') ==> chars@[j] == ',',
                leading(chars@, ',') < chars.len() ==> chars@[leading(chars@, ',')] != ',',
            decreases chars.len() - from,
        {
            from = from + 1;
        }
        let ghost rest = chars@.skip(from as int);
        proof {
            lemma_leading(rest, ';');
        }
        let mid = from;
        while from < chars.len() && chars[from] == ';'
            invariant
                mid <= from <= mid + leading(rest, ';') <= chars.len(),
                rest == chars@.skip(mid as int),
                forall|j: int| 0 <= j < leading(rest, ';') ==> rest[j] == ';',
                leading(rest, ';') < rest.len() ==> rest[leading(rest, ';')] != ';',
            decreases chars.len() - from,
        {
            assert(rest[from - mid] == chars@[from as int]);
            from = from + 1;
        }
        proof {
            if from < chars.len() {
                assert(rest[from - mid] == chars@[from as int]);
            }
            assert(from == mid + leading(rest, ';'));
            assert(rest.skip(leading(rest, ';')) =~= chars@.subrange(
                from as int,
                chars.len() as int,
            ));
        }
        string_of(&chars, from, chars.len())
    }
}


impl IntoQuery for Query {
    open spec fn as_query(&self) -> QueryView {
        self@
    }

    fn into_query(self) -> (q: Query) {
        self
    }
}

impl IntoQuery for Field {
    open spec fn as_query(&self) -> QueryView {
        single(QueryTokenView::Field(self@))
    }

    fn into_query(self) -> (q: Query) {
        Query::of_token(QueryToken::Field(self))
    }
}

impl IntoQuery for Wildcard {
    open spec fn as_query(&self) -> QueryView {
        single(QueryTokenView::Wildcard(self@))
    }

    fn into_query(self) -> (q: Query) {
        Query::of_token(QueryToken::Wildcard(self))
    }
}

impl IntoQuery for Predicate {
    open spec fn as_query(&self) -> QueryView {
        single(QueryTokenView::Predicate(self@))
    }

    fn into_query(self) -> (q: Query) {
        Query::of_token(QueryToken::Predicate(self))
    }
}

impl<'a> IntoQuery for &'a str {
    open spec fn as_query(&self) -> QueryView {
        single(token_of_text(self@))
    }

    fn into_query(self) -> (q: Query) {
        Query::of_token(QueryToken::from_text(self))
    }
}


/// Whether a text begins with a comma or a semicolon.
pub open spec fn starts_with_separator(s: Seq<char>) -> bool {
    s.len() > 0 && (s[0] == ',' || s[0] == ';')
}

/// A text that begins with no separator is written as it is.
pub proof fn lemma_strip_nothing(s: Seq<char>)
    requires
        !starts_with_separator(s),
    ensures
        strip_separators(s) == s,
{
    assert(leading(s, ',') == 0);
    assert(s.skip(0) =~= s);
    assert(leading(s, ';') == 0);
}

/// Within parentheses each token is written as it is written without them.
proof fn lemma_parenthesized_pieces(ts: Seq<QueryTokenView>, i: int)
    requires
        0 <= i <= ts.len(),
        ts.len() > 0,
    ensures
        needs_separator(parenthesized(ts), i + 1) == needs_separator(ts, i),
        render_tokens(parenthesized(ts), i + 1) == "("@ + render_tokens(ts, i),
    decreases i,
{
    let ps = parenthesized(ts);
    assert(ps[0] == QueryTokenView::LeftBracket(Concatenation::And));
    if i == 0 {
        assert(render_tokens(ps, 0) =~= Seq::<char>::empty());
        assert(render_piece(ps, 0) =~= "("@);
        assert(render_tokens(ps, 1) =~= "("@ + render_tokens(ts, 0));
    } else {
        lemma_parenthesized_pieces(ts, i - 1);
        assert(ps[i] == ts[i - 1]);
        assert(render_piece(ps, i) == render_piece(ts, i - 1));
        assert(render_tokens(ps, i + 1) =~= "("@ + render_tokens(ts, i));
    }
}

/// A query in parentheses is written as `(`, the query, and `)`; an empty
/// query stays empty and is written as before. This holds of every query
/// whose text begins with no separator, as a field with a name like `,x`
/// would make it: the separator in front is dropped from a query's text, and
/// behind the bracket it stays.
pub proof fn lemma_parenthesize_renders(q: QueryView)
    requires
        !starts_with_separator(render_tokens(q.tokens, q.tokens.len() as int)),
    ensures
        q.tokens.len() > 0 ==> render_query(QueryView { tokens: parenthesized(q.tokens), ..q })
            == "("@ + render_query(q) + ")"@,
        q.tokens.len() == 0 ==> parenthesized(q.tokens) == q.tokens,
{
    if q.tokens.len() > 0 {
        let ts = q.tokens;
        let n = ts.len() as int;
        let ps = parenthesized(ts);
        let raw = render_tokens(ts, n);
        lemma_parenthesized_pieces(ts, n);
        assert(ps[n + 1] == QueryTokenView::RightBracket);
        assert(render_piece(ps, n + 1) =~= ")"@);
        assert(render_tokens(ps, n + 2) =~= "("@ + raw + ")"@);
        reveal_strlit("(");
        assert(("("@ + raw + ")"@)[0] == '(');
        lemma_strip_nothing("("@ + raw + ")"@);
        lemma_strip_nothing(raw);
    }
}


/// The result of `heck`'s conversion of a text to mixed case, in which the
/// words of the text are set one behind the other, the first in lower case
/// and each other with a capital.
pub uninterp spec fn mixed_case(s: Seq<char>) -> Seq<char>;

/// Converts a text to mixed case.
///
/// Trusted: wraps `heck::MixedCase::to_mixed_case` for `str`, whose result
/// depends on its argument alone; the contract names that result and says
/// no more of it.
#[verifier::external_body]
fn to_mixed_case(s: &str) -> (r: String)
    ensures
        r@ == mixed_case(s@),
{
    heck::MixedCase::to_mixed_case(s)
}

/// The place in a field name at which its last segment begins: behind the
/// last underscore, or at the start where there is none.
pub open spec fn basename_start(name: Seq<char>) -> int
    decreases name.len(),
{
    if name.len() == 0 {
        0
    } else if name.last() == '_' {
        name.len() as int
    } else {
        basename_start(name.drop_last())
    }
}

/// The last segment of a field name: what stands behind its last
/// underscore, or all of it where there is none.
pub open spec fn basename_of(name: Seq<char>) -> Seq<char> {
    name.skip(basename_start(name))
}

/// The path of a field name: what stands before its last underscore, or
/// nothing where there is none.
pub open spec fn path_of_name(name: Seq<char>) -> Seq<char> {
    if basename_start(name) == 0 {
        Seq::empty()
    } else {
        name.take(basename_start(name) - 1)
    }
}

/// The last segment of a name begins within the name, behind an underscore
/// or at the start, and holds no underscore: a name with an underscore is
/// its path, an underscore, and its last segment.
pub proof fn lemma_basename(name: Seq<char>)
    ensures
        0 <= basename_start(name) <= name.len(),
        basename_start(name) > 0 ==> name[basename_start(name) - 1] == '_',
        !basename_of(name).contains('_'),
        basename_start(name) == 0 <==> !name.contains('_'),
        name.contains('_') ==> name == path_of_name(name) + seq!['_'] + basename_of(name),
    decreases name.len(),
{
    if name.len() == 0 {
    } else if name.last() == '_' {
        assert(name[name.len() - 1] == '_');
        assert(basename_of(name) =~= Seq::<char>::empty());
        assert(name =~= path_of_name(name) + seq!['_'] + basename_of(name));
    } else {
        let before = name.drop_last();
        lemma_basename(before);
        let start = basename_start(name);
        assert(basename_of(name) =~= basename_of(before).push(name.last()));
        if basename_of(name).contains('_') {
            let j = choose|j: int| 0 <= j < basename_of(name).len() && basename_of(name)[j] == '_';
            assert(basename_of(before)[j] == '_');
        }
        if name.contains('_') {
            let j = choose|j: int| 0 <= j < name.len() && name[j] == '_';
            assert(before[j] == '_');
            assert(path_of_name(name) =~= path_of_name(before));
            assert(name =~= path_of_name(name) + seq!['_'] + basename_of(name));
        }
        if before.contains('_') {
            let j = choose|j: int| 0 <= j < before.len() && before[j] == '_';
            assert(name[j] == '_');
        }
    }
}

impl Field {
    /// The alias of the field below a root whose name is given in mixed
    /// case: the root, an underscore, and the name of the field.
    pub fn alias_below(&self, root: &str) -> (alias: String)
        ensures
            alias@ == root@ + "_"@ + self@.name,
    {
        let mut alias = String::from_str(root);
        alias.append("_");
        alias.append(self.name.as_str());
        alias
    }

    /// The canonical alias of the field below a root: the root in mixed
    /// case, an underscore, and the name of the field.
    pub fn canonical_alias(&self, root: &str) -> (alias: String)
        ensures
            alias@ == mixed_case(root@) + "_"@ + self@.name,
    {
        let mixed = to_mixed_case(root);
        self.alias_below(mixed.as_str())
    }

    /// The place at which the last segment of the name begins.
    fn basename_start(&self) -> (start: usize)
        ensures
            start == basename_start(self@.name),
            start <= self@.name.len(),
    {
        let chars = to_chars(self.name.as_str());
        let mut i: usize = chars.len();
        assert(chars@.take(i as int) =~= chars@);
        while i > 0 && chars[i - 1] != '_'
            invariant
                i <= chars.len(),
                chars@ == self@.name,
                basename_start(chars@) == basename_start(chars@.take(i as int)),
            decreases i,
        {
            assert(chars@.take(i as int).drop_last() =~= chars@.take(i - 1));
            i = i - 1;
        }
        proof {
            lemma_basename(chars@);
            if i > 0 {
                assert(chars@.take(i as int).last() == '_');
            }
        }
        i
    }

    /// The last segment of the name: the name without its path.
    pub fn basename(&self) -> (base: &str)
        ensures
            base@ == basename_of(self@.name),
    {
        let start = self.basename_start();
        let name = self.name.as_str();
        let len = name.unicode_len();
        let base = name.substring_char(start, len);
        assert(base@ =~= basename_of(self@.name));
        base
    }

    /// The path of the name: the segments that name the joins on the way to
    /// the field, without the last underscore.
    pub fn path(&self) -> (path: &str)
        ensures
            path@ == path_of_name(self@.name),
    {
        let start = self.basename_start();
        let name = self.name.as_str();
        if start == 0 {
            let path = name.substring_char(0, 0);
            assert(path@ =~= Seq::<char>::empty());
            path
        } else {
            let path = name.substring_char(0, start - 1);
            assert(path@ =~= path_of_name(self@.name));
            path
        }
    }
}

} // verus!
