//! A field handler maps a field onto SQL. It can
//! - define custom functions (through `FN`),
//! - map the standard filters differently, or refuse them,
//! - serve fields that have no column of their own.
//!
//! A handler is a strategy of three parts: the expression to select, the
//! condition for a filter, and an optional join. [`BasicFieldHandler`] knows
//! the standard filters; a custom handler typically wraps it and takes over
//! only the filters it cares for.

use crate::query::{FieldFilter, FieldFilterView};
use crate::sql_builder::{SqlBuilderError, SqlBuilderErrorView};
use crate::text::{lemma_views_push, to_chars, views};
use vstd::prelude::*;

verus! {

/// An SQL expression and the parameters bound in it so far, as values.
pub type SqlView = (Seq<char>, Seq<Seq<char>>);

/// What a handler answers, as a value: an expression with its parameters,
/// nothing, or an error.
pub type Outcome = Result<Option<SqlView>, SqlBuilderErrorView>;

/// Auxiliary parameters, as values: names with their texts.
pub type AuxView = Seq<(Seq<char>, Seq<char>)>;

/// The value of an expression with its parameters.
pub open spec fn sql_view(sql: (String, Vec<String>)) -> SqlView {
    (sql.0@, views(sql.1@))
}

/// The value of a list of auxiliary parameters.
pub open spec fn aux_view(aux: Seq<(String, String)>) -> AuxView {
    Seq::new(aux.len(), |i: int| (aux[i].0@, aux[i].1@))
}

/// The value of a handler's answer.
pub open spec fn outcome_view(r: Result<Option<(String, Vec<String>)>, SqlBuilderError>) -> Outcome {
    match r {
        Ok(Some(sql)) => Ok(Some(sql_view(sql))),
        Ok(None) => Ok(None),
        Err(e) => Err(e@),
    }
}

/// The strategy that turns a mapped field into SQL.
///
/// Each method returns what the spec function of the same purpose says for
/// its arguments: a handler answers the same question the same way.
pub trait FieldHandler {
    /// What [`FieldHandler::build_select`] answers. Unless a handler says
    /// otherwise, the expression as it is mapped.
    open spec fn select_of(&self, select: SqlView, aux_params: AuxView) -> Outcome {
        Ok(Some(select))
    }

    /// What [`FieldHandler::build_filter`] answers. Unless a handler says
    /// otherwise, the standard filters.
    open spec fn filter_of(&self, select: SqlView, filter: FieldFilterView, aux_params: AuxView) -> Outcome {
        basic_filter(select, filter)
    }

    /// What [`FieldHandler::build_join`] answers. Unless a handler says
    /// otherwise, nothing.
    open spec fn join_of(&self, aux_params: AuxView) -> Outcome {
        Ok(None)
    }

    /// The expression to select for the field, or nothing where the field
    /// is not to be selected.
    fn build_select(&self, select: (String, Vec<String>), aux_params: &Vec<(String, String)>) -> (r:
        Result<Option<(String, Vec<String>)>, SqlBuilderError>)
        ensures
            outcome_view(r) == self.select_of(sql_view(select), aux_view(aux_params@)),
    ;

    /// The condition for a filter on the field, with `?` in place of each
    /// argument and the arguments appended to the parameters; an error,
    /// typically [`SqlBuilderError::FilterInvalid`], where the filter or its
    /// arguments are not accepted.
    fn build_filter(
        &self,
        select: (String, Vec<String>),
        filter: &FieldFilter,
        aux_params: &Vec<(String, String)>,
    ) -> (r: Result<Option<(String, Vec<String>)>, SqlBuilderError>)
        ensures
            outcome_view(r) == self.filter_of(sql_view(select), filter@, aux_view(aux_params@)),
    ;

    /// A join clause of the handler's own for the field, or nothing.
    fn build_join(&self, aux_params: &Vec<(String, String)>) -> (r: Result<
        Option<(String, Vec<String>)>,
        SqlBuilderError,
    >)
        ensures
            outcome_view(r) == self.join_of(aux_view(aux_params@)),
    ;
}

/// The result of `enquote::unquote` on a text: the unquoted text, or nothing
/// where the text is refused.
pub uninterp spec fn unquoted(s: Seq<char>) -> Option<Seq<char>>;

/// Removes the quotes around `s` and resolves its escapes.
///
/// Trusted: wraps `enquote::unquote`, whose result depends on its argument
/// alone; the contract names that result, text or refusal, and says no more
/// of it.
#[verifier::external_body]
fn unquote(s: &str) -> (r: Option<String>)
    ensures
        match r {
            Some(t) => unquoted(s@) == Some(t@),
            None => unquoted(s@) is None,
        },
{
    match enquote::unquote(s) {
        Ok(t) => Some(t),
        Err(_) => None,
    }
}

/// Whether a filter argument is written in quotes.
pub open spec fn is_quoted(s: Seq<char>) -> bool {
    s.len() > 0 && s[0] == '\''
}

/// Whether a filter argument can be bound as a parameter: it is not quoted,
/// or its quotes can be removed.
pub open spec fn is_param(s: Seq<char>) -> bool {
    is_quoted(s) ==> unquoted(s) is Some
}

/// The parameter that a filter argument is bound as: the argument itself,
/// or where it is quoted what stands between the quotes.
pub open spec fn param_text(s: Seq<char>) -> Seq<char> {
    if is_quoted(s) {
        unquoted(s)->0
    } else {
        s
    }
}

/// Whether `s` starts with a single quote.
fn starts_quoted(s: &str) -> (b: bool)
    ensures
        b == is_quoted(s@),
{
    let chars = to_chars(s);
    chars.len() > 0 && chars[0] == '\''
}

/// The parameter for a filter argument: a quoted argument loses its quotes,
/// any other is taken as it is.
pub fn sql_param(s: String) -> (r: String)
    requires
        is_param(s@),
    ensures
        r@ == param_text(s@),
{
    if starts_quoted(s.as_str()) {
        match unquote(s.as_str()) {
            Some(t) => t,
            None => s,
        }
    } else {
        s
    }
}

/// The parameter for a filter argument, or nothing where the argument is
/// quoted and its quotes cannot be removed.
pub fn checked_sql_param(s: String) -> (r: Option<String>)
    ensures
        match r {
            Some(t) => is_param(s@) && t@ == param_text(s@),
            None => !is_param(s@),
        },
{
    if starts_quoted(s.as_str()) {
        match unquote(s.as_str()) {
            Some(_) => Some(sql_param(s)),
            None => None,
        }
    } else {
        Some(sql_param(s))
    }
}

/// The parameters for a list of filter arguments, or the first argument that
/// cannot be bound.
pub open spec fn params_of(args: Seq<Seq<char>>) -> Result<Seq<Seq<char>>, Seq<char>>
    decreases args.len(),
{
    if args.len() == 0 {
        Ok(Seq::empty())
    } else {
        match params_of(args.drop_last()) {
            Err(a) => Err(a),
            Ok(ps) => if is_param(args.last()) {
                Ok(ps.push(param_text(args.last())))
            } else {
                Err(args.last())
            },
        }
    }
}

/// `n` question marks with commas between them.
pub open spec fn placeholders(n: nat) -> Seq<char>
    decreases n,
{
    if n == 0 {
        Seq::empty()
    } else if n == 1 {
        "?"@
    } else {
        placeholders((n - 1) as nat) + ",?"@
    }
}

/// A condition of the standard form: the expression, an operator with its
/// placeholders, and the arguments appended to the parameters; or
/// `FilterInvalid` with the first argument that cannot be bound.
pub open spec fn condition(select: SqlView, operator: Seq<char>, args: Seq<Seq<char>>) -> Outcome {
    match params_of(args) {
        Ok(ps) => Ok(Some((select.0 + operator, select.1 + ps))),
        Err(a) => Err(SqlBuilderErrorView::FilterInvalid(a)),
    }
}

/// The standard filters: comparison, null tests, range, pattern and list
/// membership. A function filter is refused with its name.
pub open spec fn basic_filter(select: SqlView, filter: FieldFilterView) -> Outcome {
    match filter {
        FieldFilterView::Eq(a) => condition(select, " = ?"@, seq![a]),
        FieldFilterView::Eqn => condition(select, " IS NULL"@, Seq::empty()),
        FieldFilterView::Ne(a) => condition(select, " <> ?"@, seq![a]),
        FieldFilterView::Nen => condition(select, " IS NOT NULL"@, Seq::empty()),
        FieldFilterView::Ge(a) => condition(select, " >= ?"@, seq![a]),
        FieldFilterView::Gt(a) => condition(select, " > ?"@, seq![a]),
        FieldFilterView::Le(a) => condition(select, " <= ?"@, seq![a]),
        FieldFilterView::Lt(a) => condition(select, " < ?"@, seq![a]),
        FieldFilterView::Bw(l, u) => condition(select, " BETWEEN ? AND ?"@, seq![l, u]),
        FieldFilterView::Re(a) => condition(select, " RLIKE ?"@, seq![a]),
        FieldFilterView::In(args) => condition(
            select,
            " IN ("@ + placeholders(args.len()) + ")"@,
            args,
        ),
        FieldFilterView::Out(args) => condition(
            select,
            " NOT IN ("@ + placeholders(args.len()) + ")"@,
            args,
        ),
        FieldFilterView::Lk(a) => condition(select, " LIKE ?"@, seq![a]),
        FieldFilterView::Fn(name, _) => Err(SqlBuilderErrorView::FilterInvalid(name)),
    }
}

/// Appends the parameters for `args` to `params`, or returns the first
/// argument that cannot be bound.
fn push_params(params: Vec<String>, args: &Vec<String>) -> (r: Result<Vec<String>, String>)
    ensures
        match r {
            Ok(ps) => params_of(views(args@)) is Ok && views(ps@) == views(params@) + params_of(
                views(args@),
            )->Ok_0,
            Err(a) => params_of(views(args@)) == Err::<Seq<Seq<char>>, Seq<char>>(a@),
        },
{
    let ghost all = views(args@);
    let mut ps = params;
    let mut i: usize = 0;
    while i < args.len()
        invariant
            i <= args.len(),
            all == views(args@),
            params_of(all.take(i as int)) is Ok,
            views(ps@) == views(params@) + params_of(all.take(i as int))->Ok_0,
        decreases args.len() - i,
    {
        assert(all.take(i + 1).drop_last() =~= all.take(i as int));
        assert(all.take(i + 1).last() == args@[i as int]@);
        match checked_sql_param(args[i].clone()) {
            Some(p) => {
                proof {
                    lemma_views_push(ps@, p);
                }
                ps.push(p);
                assert(views(ps@) =~= views(params@) + params_of(all.take(i + 1))->Ok_0);
            },
            None => {
                proof {
                    lemma_params_of_refused(all, i + 1);
                }
                return Err(args[i].clone());
            },
        }
        i = i + 1;
    }
    assert(all.take(args.len() as int) =~= all);
    Ok(ps)
}

/// Once an argument is refused, the whole list is refused with it.
proof fn lemma_params_of_refused(args: Seq<Seq<char>>, n: int)
    requires
        0 <= n <= args.len(),
        params_of(args.take(n)) is Err,
    ensures
        params_of(args) == params_of(args.take(n)),
    decreases args.len() - n,
{
    if n < args.len() {
        assert(args.take(n + 1).drop_last() =~= args.take(n));
        lemma_params_of_refused(args, n + 1);
    } else {
        assert(args.take(n) =~= args);
    }
}

/// Appends `n` question marks with commas between them.
fn push_placeholders(s: &mut String, n: usize)
    ensures
        final(s)@ == old(s)@ + placeholders(n as nat),
{
    let mut i: usize = 0;
    while i < n
        invariant
            i <= n,
            s@ == old(s)@ + placeholders(i as nat),
        decreases n - i,
    {
        if i == 0 {
            s.append("?");
        } else {
            s.append(",?");
        }
        assert(s@ =~= old(s)@ + placeholders((i + 1) as nat));
        i = i + 1;
    }
}

/// Builds a condition of the standard form from its parts.
fn build_condition(select: (String, Vec<String>), operator: &str, args: &Vec<String>) -> (r: Result<
    Option<(String, Vec<String>)>,
    SqlBuilderError,
>)
    ensures
        outcome_view(r) == condition(sql_view(select), operator@, views(args@)),
{
    let (expression, params) = select;
    match push_params(params, args) {
        Ok(ps) => {
            let mut sql = expression;
            sql.append(operator);
            Ok(Some((sql, ps)))
        },
        Err(a) => Err(SqlBuilderError::FilterInvalid(a)),
    }
}

/// A list of one argument.
fn one(a: &String) -> (v: Vec<String>)
    ensures
        views(v@) == seq![a@],
{
    let mut v: Vec<String> = Vec::new();
    v.push(a.clone());
    assert(views(v@) =~= seq![a@]);
    v
}

/// Handles the standard filters and refuses every function filter.
#[derive(Debug, Clone)]
pub struct BasicFieldHandler {}

impl BasicFieldHandler {
    pub fn new() -> (h: Self)
        ensures
            h == (BasicFieldHandler {  }),
    {
        BasicFieldHandler {  }
    }
}

impl FieldHandler for BasicFieldHandler {
    /// The expression is selected as it is mapped.
    open spec fn select_of(&self, select: SqlView, aux_params: AuxView) -> Outcome {
        Ok(Some(select))
    }

    open spec fn filter_of(&self, select: SqlView, filter: FieldFilterView, aux_params: AuxView) -> Outcome {
        basic_filter(select, filter)
    }

    /// No join of its own.
    open spec fn join_of(&self, aux_params: AuxView) -> Outcome {
        Ok(None)
    }

    fn build_select(&self, select: (String, Vec<String>), aux_params: &Vec<(String, String)>) -> (r:
        Result<Option<(String, Vec<String>)>, SqlBuilderError>) {
        Ok(Some(select))
    }

    fn build_filter(
        &self,
        select: (String, Vec<String>),
        filter: &FieldFilter,
        aux_params: &Vec<(String, String)>,
    ) -> (r: Result<Option<(String, Vec<String>)>, SqlBuilderError>) {
        let none: Vec<String> = Vec::new();
        assert(views(none@) =~= Seq::<Seq<char>>::empty());
        match filter {
            FieldFilter::Eq(criteria) => build_condition(select, " = ?", &one(criteria)),
            FieldFilter::Eqn => build_condition(select, " IS NULL", &none),
            FieldFilter::Ne(criteria) => build_condition(select, " <> ?", &one(criteria)),
            FieldFilter::Nen => build_condition(select, " IS NOT NULL", &none),
            FieldFilter::Ge(criteria) => build_condition(select, " >= ?", &one(criteria)),
            FieldFilter::Gt(criteria) => build_condition(select, " > ?", &one(criteria)),
            FieldFilter::Le(criteria) => build_condition(select, " <= ?", &one(criteria)),
            FieldFilter::Lt(criteria) => build_condition(select, " < ?", &one(criteria)),
            FieldFilter::Bw(lower, upper) => {
                let mut both = one(lower);
                let second = upper.clone();
                proof {
                    lemma_views_push(both@, second);
                }
                both.push(second);
                assert(views(both@) =~= seq![lower@, upper@]);
                build_condition(select, " BETWEEN ? AND ?", &both)
            },
            FieldFilter::Re(criteria) => build_condition(select, " RLIKE ?", &one(criteria)),
            FieldFilter::In(args) => {
                let mut operator = String::from_str(" IN (");
                push_placeholders(&mut operator, args.len());
                operator.append(")");
                build_condition(select, operator.as_str(), args)
            },
            FieldFilter::Out(args) => {
                let mut operator = String::from_str(" NOT IN (");
                push_placeholders(&mut operator, args.len());
                operator.append(")");
                build_condition(select, operator.as_str(), args)
            },
            FieldFilter::Lk(criteria) => build_condition(select, " LIKE ?", &one(criteria)),
            FieldFilter::Fn(name, _) => Err(SqlBuilderError::FilterInvalid(name.clone())),
        }
    }

    fn build_join(&self, aux_params: &Vec<(String, String)>) -> (r: Result<
        Option<(String, Vec<String>)>,
        SqlBuilderError,
    >) {
        Ok(None)
    }
}

} // verus!
